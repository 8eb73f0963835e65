//! Regular polygons, flat in 2D and 3D, and the vertex layout shared by every
//! regular-based mesh.
//!
//! A polygon with `n` sides has its vertex `k` at the angle
//! `pi * (2k + 1 - n) / n`, so that its first edge is horizontal at the
//! bottom. Angles are given here by their numerator over `n`, in units of
//! `pi`; the renderer evaluates the trigonometry and scales the polygon to
//! fill its bounds.

use vstd::prelude::*;

verus! {

/// The numerator over `sides` of the angle of vertex `k`, in units of pi.
pub open spec fn vertex_angle_numerator(sides: nat, k: nat) -> int {
    2 * k + 1 - sides
}

/// The angle numerators of the vertices of a polygon with `sides` sides, or
/// `None` unless it has between 3 and 256 sides.
pub fn regular_polygon_angles(sides: u32) -> (angles: Option<Vec<i32>>)
    ensures
        angles is Some <==> 3 <= sides <= 256,
        angles matches Some(numerators) ==> numerators@.len() == sides && forall|k: int|
            0 <= k < sides ==> numerators@[k] == vertex_angle_numerator(sides as nat, k as nat),
{
    if !(3 <= sides && sides <= 256) {
        return None;
    }
    let mut numerators: Vec<i32> = Vec::new();
    let mut k: u32 = 0;
    while k < sides
        invariant
            3 <= sides <= 256,
            k <= sides,
            numerators@.len() == k,
            forall|m: int|
                0 <= m < k ==> numerators@[m] == vertex_angle_numerator(sides as nat, m as nat),
        decreases sides - k,
    {
        numerators.push(2 * (k as i32) + 1 - sides as i32);
        k = k + 1;
    }
    Some(numerators)
}

/// A triangle of a flat polygon mesh, by vertex index, in winding order.
pub type FanTriangle = (u32, u32, u32);

/// The fan triangles `(0, i, i + 1)` for `i` in `1..upto`.
pub open spec fn fan_triangles(upto: nat) -> Seq<FanTriangle>
    decreases upto,
{
    if upto <= 1 {
        seq![]
    } else {
        let i = (upto - 1) as u32;
        fan_triangles((upto - 1) as nat).push((0u32, i, (i + 1) as u32))
    }
}

/// A fan over `1..upto` has `upto - 1` triangles.
pub proof fn lemma_fan_count(upto: nat)
    requires
        upto >= 1,
    ensures
        fan_triangles(upto).len() == upto - 1,
    decreases upto,
{
    if upto > 1 {
        lemma_fan_count((upto - 1) as nat);
    }
}

/// Triangle `tri` has both `a` and `b` among its corners.
pub open spec fn has_edge(tri: FanTriangle, a: u32, b: u32) -> bool {
    let corners = seq![tri.0, tri.1, tri.2];
    corners.contains(a) && corners.contains(b)
}

proof fn lemma_fan_entry(upto: nat, k: int)
    requires
        1 <= upto <= 256,
        0 <= k < upto - 1,
    ensures
        fan_triangles(upto).len() == upto - 1,
        fan_triangles(upto)[k] == (0u32, (k + 1) as u32, (k + 2) as u32),
    decreases upto,
{
    lemma_fan_count(upto);
    if k < upto - 2 {
        lemma_fan_entry((upto - 1) as nat, k);
    }
}

/// Triangle `tri` holds the polygon edge from vertex `i` to the next one,
/// the last vertex's next being vertex 0.
pub open spec fn holds_polygon_edge(tri: FanTriangle, sides: nat, i: int) -> bool {
    has_edge(tri, i as u32, ((i + 1) % (sides as int)) as u32)
}

/// Some triangle of `triangles` holds the polygon edge from vertex `i`.
pub open spec fn edge_covered(triangles: Seq<FanTriangle>, sides: nat, i: int) -> bool {
    exists|k: int| 0 <= k < triangles.len() && #[trigger] holds_polygon_edge(triangles[k], sides, i)
}

/// The fan triangulates the polygon: it has `sides - 2` triangles, and every
/// edge `(i, i + 1)` of the polygon, the closing edge `(sides - 1, 0)`
/// included, lies in exactly one of them.
pub proof fn lemma_fan_covers_each_edge_once(sides: nat)
    requires
        3 <= sides <= 256,
    ensures
        fan_triangles((sides - 1) as nat).len() == sides - 2,
        forall|i: int| 0 <= i < sides ==> #[trigger] edge_covered(fan_triangles((sides - 1) as nat), sides, i),
        forall|i: int, k: int, l: int|
            0 <= i < sides && 0 <= k < sides - 2 && 0 <= l < sides - 2
                && #[trigger] holds_polygon_edge(fan_triangles((sides - 1) as nat)[k], sides, i)
                && #[trigger] holds_polygon_edge(fan_triangles((sides - 1) as nat)[l], sides, i) ==> k == l,
{
    let fan = fan_triangles((sides - 1) as nat);
    lemma_fan_count((sides - 1) as nat);
    assert forall|k: int| 0 <= k < sides - 2 implies #[trigger] fan[k] == (0u32, (k + 1) as u32, (k + 2) as u32) by {
        lemma_fan_entry((sides - 1) as nat, k);
    }
    assert forall|i: int| 0 <= i < sides implies #[trigger] edge_covered(fan, sides, i) by {
        let k = if i == 0 {
            0
        } else if i == sides - 1 {
            sides - 3
        } else {
            i - 1
        };
        let corners = seq![fan[k].0, fan[k].1, fan[k].2];
        if i == sides - 1 {
            vstd::arithmetic::div_mod::lemma_mod_self_0(sides as int);
            assert((i + 1) % (sides as int) == 0);
            assert(corners[0] == 0u32);
            assert(corners[2] == i as u32);
        } else {
            vstd::arithmetic::div_mod::lemma_small_mod((i + 1) as nat, sides);
            assert((i + 1) % (sides as int) == i + 1);
            if i == 0 {
                assert(corners[0] == 0u32);
                assert(corners[1] == 1u32);
            } else {
                assert(corners[1] == i as u32);
                assert(corners[2] == (i + 1) as u32);
            }
        }
        assert(holds_polygon_edge(fan[k], sides, i));
    }
    assert forall|i: int, k: int, l: int|
        0 <= i < sides && 0 <= k < sides - 2 && 0 <= l < sides - 2 && #[trigger] holds_polygon_edge(fan[k], sides, i)
            && #[trigger] holds_polygon_edge(fan[l], sides, i) implies k == l by {
        let j = (i + 1) % (sides as int);
        if i == sides - 1 {
            vstd::arithmetic::div_mod::lemma_mod_self_0(sides as int);
            assert(j == 0);
        } else {
            vstd::arithmetic::div_mod::lemma_small_mod((i + 1) as nat, sides);
            assert(j == i + 1);
        }
        let ck = seq![fan[k].0, fan[k].1, fan[k].2];
        let cl = seq![fan[l].0, fan[l].1, fan[l].2];
        assert(ck.contains(i as u32) && ck.contains(j as u32));
        assert(cl.contains(i as u32) && cl.contains(j as u32));
        let a = choose|a: int| 0 <= a < 3 && ck[a] == i as u32;
        let b = choose|b: int| 0 <= b < 3 && ck[b] == j as u32;
        let c = choose|c: int| 0 <= c < 3 && cl[c] == i as u32;
        let d = choose|d: int| 0 <= d < 3 && cl[d] == j as u32;
        assert(ck[0] == 0u32 && ck[1] == (k + 1) as u32 && ck[2] == (k + 2) as u32);
        assert(cl[0] == 0u32 && cl[1] == (l + 1) as u32 && cl[2] == (l + 2) as u32);
    }
}

/// The triangles of a flat polygon mesh with `sides` sides: the fan from vertex 0.
pub fn polygon_triangles(sides: u32) -> (triangles: Vec<FanTriangle>)
    requires
        3 <= sides <= 256,
    ensures
        triangles@ == fan_triangles((sides - 1) as nat),
        triangles@.len() == sides - 2,
{
    let mut triangles: Vec<FanTriangle> = Vec::new();
    let mut index: u32 = 1;
    while index < sides - 1
        invariant
            3 <= sides <= 256,
            1 <= index <= sides - 1,
            triangles@ == fan_triangles(index as nat),
        decreases sides - index,
    {
        triangles.push((0, index, index + 1));
        index = index + 1;
    }
    proof {
        lemma_fan_count((sides - 1) as nat);
    }
    triangles
}

/// Trackable geometry of a two-dimensional regular polygon: its side count.
#[derive(Clone, Copy, Debug, PartialEq, Eq, Structural)]
pub struct RegularPolygon2DShape {
    pub sides: u32,
}

impl Default for RegularPolygon2DShape {
    /// Four sides.
    fn default() -> (shape: Self)
        ensures
            shape.sides == 4,
    {
        RegularPolygon2DShape { sides: 4 }
    }
}

/// Builder of a two-dimensional regular polygon's geometry.
#[derive(Clone, Copy, Debug)]
pub struct RegularPolygon2DBuilder {
    pub object: RegularPolygon2D,
}

/// Two-dimensional regular polygon.
#[derive(Clone, Copy, Debug)]
pub struct RegularPolygon2D {
    pub shape: RegularPolygon2DShape,
}

/// Creates a two-dimensional regular polygon builder with four sides.
pub fn regular_polygon_2d() -> (builder: RegularPolygon2DBuilder)
    ensures
        builder.object.shape.sides == 4,
{
    RegularPolygon2DBuilder { object: RegularPolygon2D { shape: RegularPolygon2DShape::default() } }
}

impl RegularPolygon2DBuilder {
    /// Sets the number of sides.
    pub fn sides(self, sides: u32) -> (builder: Self)
        ensures
            builder.object.shape.sides == sides,
    {
        RegularPolygon2DBuilder { object: RegularPolygon2D { shape: RegularPolygon2DShape { sides } } }
    }
}

/// Creates a three-sided two-dimensional regular polygon builder.
pub fn triangle() -> (builder: RegularPolygon2DBuilder)
    ensures
        builder.object.shape.sides == 3,
{
    regular_polygon_2d().sides(3)
}

/// Creates a four-sided two-dimensional regular polygon builder.
pub fn square() -> (builder: RegularPolygon2DBuilder)
    ensures
        builder.object.shape.sides == 4,
{
    regular_polygon_2d().sides(4)
}

/// Trackable geometry of a flat regular polygon in local XY: its side count.
#[derive(Clone, Copy, Debug, PartialEq, Eq, Structural)]
pub struct RegularPolygon3DShape {
    pub sides: u32,
}

impl Default for RegularPolygon3DShape {
    /// Four sides.
    fn default() -> (shape: Self)
        ensures
            shape.sides == 4,
    {
        RegularPolygon3DShape { sides: 4 }
    }
}

/// Builder of a flat three-dimensional regular polygon's geometry.
#[derive(Clone, Copy, Debug)]
pub struct RegularPolygon3DBuilder {
    pub object: RegularPolygon3D,
}

/// Flat regular polygon with its front facing positive Z.
#[derive(Clone, Copy, Debug)]
pub struct RegularPolygon3D {
    pub shape: RegularPolygon3DShape,
}

/// Creates a flat three-dimensional regular polygon builder with four sides.
pub fn regular_polygon_3d() -> (builder: RegularPolygon3DBuilder)
    ensures
        builder.object.shape.sides == 4,
{
    RegularPolygon3DBuilder { object: RegularPolygon3D { shape: RegularPolygon3DShape::default() } }
}

impl RegularPolygon3DBuilder {
    /// Sets the number of sides.
    pub fn sides(self, sides: u32) -> (builder: Self)
        ensures
            builder.object.shape.sides == sides,
    {
        RegularPolygon3DBuilder { object: RegularPolygon3D { shape: RegularPolygon3DShape { sides } } }
    }
}

/// Creates a three-sided flat regular polygon builder.
pub fn triangle_3d() -> (builder: RegularPolygon3DBuilder)
    ensures
        builder.object.shape.sides == 3,
{
    regular_polygon_3d().sides(3)
}

/// Creates a four-sided flat regular polygon builder.
pub fn square_3d() -> (builder: RegularPolygon3DBuilder)
    ensures
        builder.object.shape.sides == 4,
{
    regular_polygon_3d().sides(4)
}

/// Creates a 32-sided flat regular polygon builder.
pub fn circle_3d() -> (builder: RegularPolygon3DBuilder)
    ensures
        builder.object.shape.sides == 32,
{
    regular_polygon_3d().sides(32)
}

/// Accepts between 3 and 256 sides.
pub fn validate_sides(sides: u32) -> (result: Result<(), String>)
    ensures
        result is Ok <==> 3 <= sides <= 256,
        result matches Err(message) ==> message@
            == "Regular polygon sides must be between 3 and 256."@,
{
    if !(3 <= sides && sides <= 256) {
        return Err(String::from_str("Regular polygon sides must be between 3 and 256."));
    }
    Ok(())
}

} // verus!

//! Regular-base prisms centered on their local origin: the side count rules,
//! the geometry cache key and the triangle topology of the mesh.
//!
//! A prism mesh is built from the vertices of a regular polygon, once on the
//! bottom face and once on the top face. The triangles here name those
//! vertices by face and polygon index; the renderer places them in space.

use vstd::prelude::*;

verus! {

/// A vertex of a prism mesh: a polygon vertex on the bottom or the top face.
#[derive(Clone, Copy, Debug, PartialEq, Eq, Structural)]
pub enum PrismCorner {
    Bottom(u32),
    Top(u32),
}

/// A triangle of a prism mesh, in winding order.
pub type PrismTriangle = (PrismCorner, PrismCorner, PrismCorner);

/// The cap triangles of the polygon fan at index `index`, bottom first.
pub open spec fn cap_fan(index: nat, top_cap: bool, bottom_cap: bool) -> Seq<PrismTriangle> {
    let i = index as u32;
    let j = (index + 1) as u32;
    (if bottom_cap {
        seq![(PrismCorner::Bottom(0), PrismCorner::Bottom(i), PrismCorner::Bottom(j))]
    } else {
        seq![]
    }) + (if top_cap {
        seq![(PrismCorner::Top(0), PrismCorner::Top(j), PrismCorner::Top(i))]
    } else {
        seq![]
    })
}

/// The cap triangles of the fans at indices `1..upto`.
pub open spec fn cap_triangles(top_cap: bool, bottom_cap: bool, upto: nat) -> Seq<PrismTriangle>
    decreases upto,
{
    if upto <= 1 {
        seq![]
    } else {
        cap_triangles(top_cap, bottom_cap, (upto - 1) as nat) + cap_fan(
            (upto - 1) as nat,
            top_cap,
            bottom_cap,
        )
    }
}

/// The two triangles of the side wall between polygon vertex `index` and the next one.
pub open spec fn wall_quad(sides: nat, index: nat) -> Seq<PrismTriangle> {
    let i = index as u32;
    let next = ((index + 1) % sides) as u32;
    seq![
        (PrismCorner::Bottom(i), PrismCorner::Top(i), PrismCorner::Bottom(next)),
        (PrismCorner::Top(i), PrismCorner::Top(next), PrismCorner::Bottom(next)),
    ]
}

/// The wall triangles of the walls starting at vertices `0..upto`.
pub open spec fn wall_triangles(sides: nat, upto: nat) -> Seq<PrismTriangle>
    decreases upto,
{
    if upto == 0 {
        seq![]
    } else {
        wall_triangles(sides, (upto - 1) as nat) + wall_quad(sides, (upto - 1) as nat)
    }
}

/// The triangles of a prism with `sides` sides: the caps, then the walls.
pub open spec fn prism_mesh_triangles(sides: nat, top_cap: bool, bottom_cap: bool) -> Seq<
    PrismTriangle,
> {
    cap_triangles(top_cap, bottom_cap, (sides - 1) as nat) + wall_triangles(sides, sides)
}

/// How many caps are drawn.
pub open spec fn cap_count(top_cap: bool, bottom_cap: bool) -> nat {
    (if top_cap {
        1nat
    } else {
        0nat
    }) + (if bottom_cap {
        1nat
    } else {
        0nat
    })
}

/// A prism with `sides` sides has `sides - 2` triangles per cap and two per wall.
pub proof fn lemma_prism_triangle_count(sides: nat, top_cap: bool, bottom_cap: bool)
    requires
        sides >= 3,
    ensures
        prism_mesh_triangles(sides, top_cap, bottom_cap).len() == (sides - 2) * cap_count(
            top_cap,
            bottom_cap,
        ) + 2 * sides,
{
    lemma_cap_count(top_cap, bottom_cap, (sides - 1) as nat);
    lemma_wall_count(sides, sides);
    assert(((sides - 1) as nat - 1) == sides - 2);
}

proof fn lemma_cap_count(top_cap: bool, bottom_cap: bool, upto: nat)
    requires
        upto >= 1,
    ensures
        cap_triangles(top_cap, bottom_cap, upto).len() == (upto - 1) * cap_count(
            top_cap,
            bottom_cap,
        ),
    decreases upto,
{
    if upto > 1 {
        lemma_cap_count(top_cap, bottom_cap, (upto - 1) as nat);
        let c = cap_count(top_cap, bottom_cap);
        assert(cap_fan((upto - 1) as nat, top_cap, bottom_cap).len() == c);
        let u = upto as int;
        assert((u - 1) * c == (u - 2) * c + c) by (nonlinear_arith);
        assert(cap_triangles(top_cap, bottom_cap, upto) == cap_triangles(
            top_cap,
            bottom_cap,
            (upto - 1) as nat,
        ) + cap_fan((upto - 1) as nat, top_cap, bottom_cap));
    } else {
        let c = cap_count(top_cap, bottom_cap);
        assert(upto - 1 == 0);
        assert(0 * c == 0) by (nonlinear_arith);
    }
}

proof fn lemma_wall_count(sides: nat, upto: nat)
    ensures
        wall_triangles(sides, upto).len() == 2 * upto,
    decreases upto,
{
    if upto > 0 {
        lemma_wall_count(sides, (upto - 1) as nat);
    }
}

/// `c` is a corner of triangle `tri`.
pub open spec fn has_corner(tri: PrismTriangle, c: PrismCorner) -> bool {
    tri.0 == c || tri.1 == c || tri.2 == c
}

/// Triangle `tri` runs from corner `a` straight to corner `b` in its winding order.
pub open spec fn runs(tri: PrismTriangle, a: PrismCorner, b: PrismCorner) -> bool {
    (tri.0 == a && tri.1 == b) || (tri.1 == a && tri.2 == b) || (tri.2 == a && tri.0 == b)
}

/// The polygon vertex after vertex `i`, the last one's being vertex 0.
pub open spec fn next_vertex(sides: nat, i: int) -> u32 {
    ((i + 1) % (sides as int)) as u32
}

/// `c` is one of the four corners of the side wall between polygon vertex
/// `i` and the next one.
pub open spec fn on_wall(c: PrismCorner, sides: nat, i: int) -> bool {
    c == PrismCorner::Bottom(i as u32) || c == PrismCorner::Top(i as u32) || c == PrismCorner::Bottom(
        next_vertex(sides, i),
    ) || c == PrismCorner::Top(next_vertex(sides, i))
}

/// Triangle `tri` has three distinct corners, all on side wall `i`.
pub open spec fn within_wall(tri: PrismTriangle, sides: nat, i: int) -> bool {
    &&& tri.0 != tri.1 && tri.1 != tri.2 && tri.0 != tri.2
    &&& on_wall(tri.0, sides, i) && on_wall(tri.1, sides, i) && on_wall(tri.2, sides, i)
}

/// Two triangles of `triangles` make up side wall `i`: both lie on it,
/// together they reach its four corners, and they meet along the diagonal
/// from the top of vertex `i` to the bottom of the next one, which they run
/// in opposite directions, so both face the same way.
pub open spec fn wall_covered(triangles: Seq<PrismTriangle>, sides: nat, i: int) -> bool {
    exists|p: int, q: int|
        0 <= p < triangles.len() && 0 <= q < triangles.len() && {
            let a = #[trigger] triangles[p];
            let b = #[trigger] triangles[q];
            let top = PrismCorner::Top(i as u32);
            let bottom_next = PrismCorner::Bottom(next_vertex(sides, i));
            &&& within_wall(a, sides, i) && within_wall(b, sides, i)
            &&& has_corner(a, PrismCorner::Bottom(i as u32)) || has_corner(b, PrismCorner::Bottom(i as u32))
            &&& has_corner(a, top) || has_corner(b, top)
            &&& has_corner(a, bottom_next) || has_corner(b, bottom_next)
            &&& has_corner(a, PrismCorner::Top(next_vertex(sides, i))) || has_corner(
                b,
                PrismCorner::Top(next_vertex(sides, i)),
            )
            &&& runs(a, top, bottom_next) && runs(b, bottom_next, top)
        }
}

proof fn lemma_wall_entry(sides: nat, upto: nat, i: int)
    requires
        0 <= i < upto,
    ensures
        wall_triangles(sides, upto).len() == 2 * upto,
        wall_triangles(sides, upto)[2 * i] == wall_quad(sides, i as nat)[0],
        wall_triangles(sides, upto)[2 * i + 1] == wall_quad(sides, i as nat)[1],
    decreases upto,
{
    lemma_wall_count(sides, upto);
    lemma_wall_count(sides, (upto - 1) as nat);
    if i < upto - 1 {
        lemma_wall_entry(sides, (upto - 1) as nat, i);
    }
}

/// Every side wall of a prism mesh is closed: for each polygon vertex `i`,
/// two triangles of the mesh make up the quad between it and the next
/// vertex, meeting along its diagonal with matching winding.
pub proof fn lemma_prism_walls_are_closed(sides: nat, top_cap: bool, bottom_cap: bool)
    requires
        3 <= sides <= 256,
    ensures
        forall|i: int|
            0 <= i < sides ==> #[trigger] wall_covered(
                prism_mesh_triangles(sides, top_cap, bottom_cap),
                sides,
                i,
            ),
{
    let mesh = prism_mesh_triangles(sides, top_cap, bottom_cap);
    let caps = cap_triangles(top_cap, bottom_cap, (sides - 1) as nat);
    let walls = wall_triangles(sides, sides);
    assert(mesh == caps + walls);
    lemma_wall_count(sides, sides);
    assert forall|i: int| 0 <= i < sides implies #[trigger] wall_covered(mesh, sides, i) by {
        lemma_wall_entry(sides, sides, i);
        let p = caps.len() + 2 * i;
        let q = p + 1;
        assert(mesh[p] == walls[2 * i]);
        assert(mesh[q] == walls[2 * i + 1]);
        if i == sides - 1 {
            vstd::arithmetic::div_mod::lemma_mod_self_0(sides as int);
        } else {
            vstd::arithmetic::div_mod::lemma_small_mod((i + 1) as nat, sides);
        }
        assert(next_vertex(sides, i) != i as u32);
        assert(next_vertex(sides, i) == ((i + 1) % (sides as int)) as u32);
        let a = mesh[p];
        let b = mesh[q];
        assert(within_wall(a, sides, i) && within_wall(b, sides, i));
        assert(runs(a, PrismCorner::Top(i as u32), PrismCorner::Bottom(next_vertex(sides, i))));
        assert(runs(b, PrismCorner::Bottom(next_vertex(sides, i)), PrismCorner::Top(i as u32)));
    }
}

/// Some triangle of `triangles` runs from `b` back to `a`.
pub open spec fn edge_returns(triangles: Seq<PrismTriangle>, a: PrismCorner, b: PrismCorner) -> bool {
    exists|k: int| 0 <= k < triangles.len() && #[trigger] runs(triangles[k], b, a)
}

/// Each edge of `tri` is run the other way by some triangle of `triangles`.
pub open spec fn edges_return(triangles: Seq<PrismTriangle>, tri: PrismTriangle) -> bool {
    &&& edge_returns(triangles, tri.0, tri.1)
    &&& edge_returns(triangles, tri.1, tri.2)
    &&& edge_returns(triangles, tri.2, tri.0)
}

proof fn lemma_cap_entry(upto: nat, m: int)
    requires
        1 <= upto <= 256,
        0 <= m < upto - 1,
    ensures
        cap_triangles(true, true, upto).len() == 2 * (upto - 1),
        cap_triangles(true, true, upto)[2 * m] == (
            PrismCorner::Bottom(0),
            PrismCorner::Bottom((m + 1) as u32),
            PrismCorner::Bottom((m + 2) as u32),
        ),
        cap_triangles(true, true, upto)[2 * m + 1] == (
            PrismCorner::Top(0),
            PrismCorner::Top((m + 2) as u32),
            PrismCorner::Top((m + 1) as u32),
        ),
    decreases upto,
{
    lemma_cap_count(true, true, upto);
    let count = cap_count(true, true);
    assert(count == 2);
    assert((upto - 1) * count == 2 * (upto - 1)) by (nonlinear_arith)
        requires
            count == 2,
    ;
    if upto > 1 {
        lemma_cap_count(true, true, (upto - 1) as nat);
        let fewer = (upto - 1) as nat - 1;
        assert(fewer * count == 2 * fewer) by (nonlinear_arith)
            requires
                count == 2,
        ;
    }
    if m < upto - 2 {
        lemma_cap_entry((upto - 1) as nat, m);
    }
}

/// A prism mesh with both caps is closed and consistently wound: every edge
/// of every triangle is run the other way by another triangle, so the
/// surface has no hole and all its triangles face outward alike.
pub proof fn lemma_capped_prism_is_closed(sides: nat)
    requires
        3 <= sides <= 256,
    ensures
        forall|k: int|
            0 <= k < prism_mesh_triangles(sides, true, true).len() ==> edges_return(
                prism_mesh_triangles(sides, true, true),
                #[trigger] prism_mesh_triangles(sides, true, true)[k],
            ),
{
    let mesh = prism_mesh_triangles(sides, true, true);
    let caps = cap_triangles(true, true, (sides - 1) as nat);
    let walls = wall_triangles(sides, sides);
    let c = 2 * (sides - 2);
    lemma_cap_count(true, true, (sides - 1) as nat);
    let count = cap_count(true, true);
    let fans = (sides - 1) as nat - 1;
    assert(fans * count == 2 * fans) by (nonlinear_arith)
        requires
            count == 2,
    ;
    lemma_wall_count(sides, sides);
    assert(mesh == caps + walls);
    assert forall|m: int| 0 <= m < sides - 2 implies #[trigger] mesh[2 * m] == (
        PrismCorner::Bottom(0),
        PrismCorner::Bottom((m + 1) as u32),
        PrismCorner::Bottom((m + 2) as u32),
    ) && mesh[2 * m + 1] == (
        PrismCorner::Top(0),
        PrismCorner::Top((m + 2) as u32),
        PrismCorner::Top((m + 1) as u32),
    ) by {
        lemma_cap_entry((sides - 1) as nat, m);
    }
    assert forall|i: int| 0 <= i < sides implies #[trigger] ((i + 1) % (sides as int)) == if i == sides - 1 {
        0
    } else {
        i + 1
    } by {
        if i == sides - 1 {
            vstd::arithmetic::div_mod::lemma_mod_self_0(sides as int);
        } else {
            vstd::arithmetic::div_mod::lemma_small_mod((i + 1) as nat, sides);
        }
    }
    assert forall|i: int| 0 <= i < sides implies #[trigger] mesh[c + 2 * i] == (
        PrismCorner::Bottom(i as u32),
        PrismCorner::Top(i as u32),
        PrismCorner::Bottom(next_vertex(sides, i)),
    ) && mesh[c + 2 * i + 1] == (
        PrismCorner::Top(i as u32),
        PrismCorner::Top(next_vertex(sides, i)),
        PrismCorner::Bottom(next_vertex(sides, i)),
    ) by {
        lemma_wall_entry(sides, sides, i);
        assert(mesh[c + 2 * i] == walls[2 * i]);
        assert(mesh[c + 2 * i + 1] == walls[2 * i + 1]);
    }
    assert forall|k: int| 0 <= k < mesh.len() implies edges_return(mesh, #[trigger] mesh[k]) by {
        let last = sides - 1;
        assert(next_vertex(sides, last) == 0);
        if k < c {
            let m = k / 2;
            assert(0 <= m < sides - 2);
            let j = m + 1;
            let bj = PrismCorner::Bottom(j as u32);
            let bn = PrismCorner::Bottom((j + 1) as u32);
            let tj = PrismCorner::Top(j as u32);
            let tn = PrismCorner::Top((j + 1) as u32);
            let b0 = PrismCorner::Bottom(0);
            let t0 = PrismCorner::Top(0);
            assert(next_vertex(sides, j) == (j + 1) as u32);
            let wj = c + 2 * j;
            assert(mesh[2 * m].0 == b0);
            assert(mesh[wj].0 == bj);
            assert(runs(mesh[wj], bn, bj));
            assert(runs(mesh[wj + 1], tj, tn));
            if k % 2 == 0 {
                assert(k == 2 * m);
                if m == 0 {
                    let w0 = c + 2 * 0;
                    assert(next_vertex(sides, 0) == 1);
                    assert(runs(mesh[w0], bj, b0));
                } else {
                    let prev = m - 1;
                    assert(runs(mesh[2 * prev], bj, b0));
                }
                if m == sides - 3 {
                    let wl = c + 2 * last;
                    assert(runs(mesh[wl], b0, bn));
                } else {
                    let nx = m + 1;
                    assert(runs(mesh[2 * nx], b0, bn));
                }
                assert(mesh[k] == (b0, bj, bn));
                assert(edge_returns(mesh, b0, bj));
                assert(edge_returns(mesh, bj, bn));
                assert(edge_returns(mesh, bn, b0));
            } else {
                assert(k == 2 * m + 1);
                if m == sides - 3 {
                    let wl = c + 2 * last;
                    assert(runs(mesh[wl + 1], tn, t0));
                } else {
                    let nx = m + 1;
                    assert(mesh[2 * nx].0 == PrismCorner::Bottom(0));
                    assert(runs(mesh[2 * nx + 1], tn, t0));
                }
                if m == 0 {
                    let w0 = c + 2 * 0;
                    assert(next_vertex(sides, 0) == 1);
                    assert(mesh[w0].0 == PrismCorner::Bottom(0));
                    assert(runs(mesh[w0 + 1], t0, tj));
                } else {
                    let prev = m - 1;
                    assert(mesh[2 * prev].0 == PrismCorner::Bottom(0));
                    assert(runs(mesh[2 * prev + 1], t0, tj));
                }
                assert(mesh[k] == (t0, tn, tj));
                assert(edge_returns(mesh, t0, tn));
                assert(edge_returns(mesh, tn, tj));
                assert(edge_returns(mesh, tj, t0));
            }
        } else {
            let i = (k - c) / 2;
            assert(0 <= i < sides);
            let n = if i == last {
                0
            } else {
                i + 1
            };
            assert(next_vertex(sides, i) == n as u32);
            let before = if i == 0 {
                last
            } else {
                i - 1
            };
            assert(next_vertex(sides, before) == i as u32);
            let bi = PrismCorner::Bottom(i as u32);
            let ti = PrismCorner::Top(i as u32);
            let bn = PrismCorner::Bottom(n as u32);
            let tn = PrismCorner::Top(n as u32);
            let wi = c + 2 * i;
            let wb = c + 2 * before;
            let wn = c + 2 * n;
            assert(mesh[wb].0 == PrismCorner::Bottom(before as u32));
            assert(mesh[wi].0 == bi);
            assert(mesh[wn].0 == bn);
            assert(runs(mesh[wb + 1], ti, bi));
            assert(runs(mesh[wi + 1], bn, ti));
            assert(runs(mesh[wi], ti, bn));
            assert(runs(mesh[wn], bn, tn));
            if i == 0 {
                let f = 0int;
                assert(runs(mesh[2 * f], bi, bn));
                assert(runs(mesh[2 * f + 1], tn, ti));
            } else if i == last {
                let f = sides - 3;
                assert(runs(mesh[2 * f], bi, bn));
                assert(runs(mesh[2 * f + 1], tn, ti));
            } else {
                let f = i - 1;
                assert(runs(mesh[2 * f], bi, bn));
                assert(runs(mesh[2 * f + 1], tn, ti));
            }
            if k == wi {
                assert(edges_return(mesh, mesh[wi]));
            } else {
                assert(k == wi + 1);
                assert(edges_return(mesh, mesh[wi + 1]));
            }
        }
    }
}

/// Trackable geometry of a prism: its side count and which caps it draws.
#[derive(Clone, Copy, Debug, PartialEq, Eq, Structural)]
pub struct PrismShape {
    pub sides: u32,
    pub top_cap: bool,
    pub bottom_cap: bool,
}

impl Default for PrismShape {
    /// Four sides with both caps.
    fn default() -> (shape: Self)
        ensures
            shape == (PrismShape { sides: 4, top_cap: true, bottom_cap: true }),
    {
        PrismShape { sides: 4, top_cap: true, bottom_cap: true }
    }
}

/// Builder of a prism's geometry.
#[derive(Clone, Copy, Debug)]
pub struct PrismBuilder {
    pub object: Prism,
}

/// Regular-base prism centered on its local origin.
#[derive(Clone, Copy, Debug)]
pub struct Prism {
    pub shape: PrismShape,
}

/// Creates a prism builder with the default geometry.
pub fn prism() -> (builder: PrismBuilder)
    ensures
        builder.object.shape == (PrismShape { sides: 4, top_cap: true, bottom_cap: true }),
{
    PrismBuilder { object: Prism { shape: PrismShape::default() } }
}

impl PrismBuilder {
    /// Sets the number of sides.
    pub fn sides(self, sides: u32) -> (builder: Self)
        ensures
            builder.object.shape == (PrismShape { sides, ..self.object.shape }),
    {
        PrismBuilder { object: Prism { shape: PrismShape { sides, ..self.object.shape } } }
    }

    /// Sets whether the top cap is drawn.
    pub fn top_cap(self, top_cap: bool) -> (builder: Self)
        ensures
            builder.object.shape == (PrismShape { top_cap, ..self.object.shape }),
    {
        PrismBuilder { object: Prism { shape: PrismShape { top_cap, ..self.object.shape } } }
    }

    /// Sets whether the bottom cap is drawn.
    pub fn bottom_cap(self, bottom_cap: bool) -> (builder: Self)
        ensures
            builder.object.shape == (PrismShape { bottom_cap, ..self.object.shape }),
    {
        PrismBuilder { object: Prism { shape: PrismShape { bottom_cap, ..self.object.shape } } }
    }
}

/// Creates a three-sided prism builder.
pub fn tetrahedron() -> (builder: PrismBuilder)
    ensures
        builder.object.shape == (PrismShape { sides: 3, top_cap: true, bottom_cap: true }),
{
    prism().sides(3)
}

/// Creates a four-sided prism builder.
pub fn cube() -> (builder: PrismBuilder)
    ensures
        builder.object.shape == (PrismShape { sides: 4, top_cap: true, bottom_cap: true }),
{
    prism().sides(4)
}

/// Creates a 32-sided prism builder.
pub fn cylinder() -> (builder: PrismBuilder)
    ensures
        builder.object.shape == (PrismShape { sides: 32, top_cap: true, bottom_cap: true }),
{
    prism().sides(32)
}

/// Accepts between 3 and 256 sides.
pub fn validate_sides(sides: u32) -> (result: Result<(), String>)
    ensures
        result is Ok <==> 3 <= sides <= 256,
        result matches Err(message) ==> message@ == "Prism sides must be between 3 and 256."@,
{
    if !(3 <= sides && sides <= 256) {
        return Err(String::from_str("Prism sides must be between 3 and 256."));
    }
    Ok(())
}

/// The geometry cache key of a prism: the side count in the low 32 bits and
/// the top and bottom cap flags in bits 32 and 33.
pub open spec fn prism_variant(sides: u32, top_cap: bool, bottom_cap: bool) -> int {
    sides + (if top_cap {
        0x1_0000_0000int
    } else {
        0
    }) + (if bottom_cap {
        0x2_0000_0000int
    } else {
        0
    })
}

/// Packs the side count and cap flags into one key.
pub fn geometry_variant(sides: u32, top_cap: bool, bottom_cap: bool) -> (key: u64)
    ensures
        key == prism_variant(sides, top_cap, bottom_cap),
{
    let top: u64 = if top_cap {
        1
    } else {
        0
    };
    let bottom: u64 = if bottom_cap {
        1
    } else {
        0
    };
    let s = sides as u64;
    assert((s | (top << 32u64) | (bottom << 33u64)) == s + top * 0x1_0000_0000 + bottom
        * 0x2_0000_0000) by (bit_vector)
        requires
            s < 0x1_0000_0000,
            top <= 1,
            bottom <= 1,
    ;
    s | (top << 32) | (bottom << 33)
}

/// Different prism geometries never share a cache key.
pub proof fn lemma_geometry_variant_is_injective(a: PrismShape, b: PrismShape)
    requires
        prism_variant(a.sides, a.top_cap, a.bottom_cap) == prism_variant(
            b.sides,
            b.top_cap,
            b.bottom_cap,
        ),
    ensures
        a == b,
{
}

/// The triangles of a prism mesh with `sides` sides: for each fan index
/// `1..sides - 1` the bottom cap triangle, then the top cap triangle, each
/// when its cap is drawn; then two triangles per side wall.
pub fn prism_triangles(sides: u32, top_cap: bool, bottom_cap: bool) -> (triangles: Vec<
    PrismTriangle,
>)
    requires
        3 <= sides <= 256,
    ensures
        triangles@ == prism_mesh_triangles(sides as nat, top_cap, bottom_cap),
        triangles@.len() == (sides - 2) * cap_count(top_cap, bottom_cap) + 2 * sides,
{
    let mut triangles: Vec<PrismTriangle> = Vec::new();
    let mut index: u32 = 1;
    while index < sides - 1
        invariant
            3 <= sides <= 256,
            1 <= index <= sides - 1,
            triangles@ == cap_triangles(top_cap, bottom_cap, index as nat),
        decreases sides - index,
    {
        if bottom_cap {
            triangles.push((PrismCorner::Bottom(0), PrismCorner::Bottom(index), PrismCorner::Bottom(index + 1)));
        }
        if top_cap {
            triangles.push((PrismCorner::Top(0), PrismCorner::Top(index + 1), PrismCorner::Top(index)));
        }
        index = index + 1;
        assert(triangles@ =~= cap_triangles(top_cap, bottom_cap, index as nat));
    }
    let ghost caps = triangles@;
    let mut side: u32 = 0;
    while side < sides
        invariant
            3 <= sides <= 256,
            side <= sides,
            caps == cap_triangles(top_cap, bottom_cap, (sides - 1) as nat),
            triangles@ == caps + wall_triangles(sides as nat, side as nat),
        decreases sides - side,
    {
        let next = (side + 1) % sides;
        triangles.push((PrismCorner::Bottom(side), PrismCorner::Top(side), PrismCorner::Bottom(next)));
        triangles.push((PrismCorner::Top(side), PrismCorner::Top(next), PrismCorner::Bottom(next)));
        side = side + 1;
        assert(triangles@ =~= caps + wall_triangles(sides as nat, side as nat));
    }
    proof {
        lemma_prism_triangle_count(sides as nat, top_cap, bottom_cap);
    }
    triangles
}

} // verus!

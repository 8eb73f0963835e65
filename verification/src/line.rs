//! Three-dimensional lines with optional arrowheads: the side count rules,
//! the geometry cache key, and the triangle topology of the closed cylinder
//! that forms the body and of the closed cones that form the arrowheads.
//!
//! Both meshes have unit length along X. A ring point `k` of a mesh with
//! `sides` sides lies at the angle `2 pi k / sides` around that axis; point
//! `sides` closes the ring at the angle of point 0.

use vstd::prelude::*;

verus! {

/// Accepts a line body and arrowheads with between 3 and 256 sides each; the
/// body is checked first.
pub fn validate_line_sides(line_sides: u32, arrow_sides: u32) -> (result: Result<(), String>)
    ensures
        result is Ok <==> 3 <= line_sides <= 256 && 3 <= arrow_sides <= 256,
        !(3 <= line_sides <= 256) ==> (result matches Err(message) && message@
            == "Line sides must be between 3 and 256."@),
        3 <= line_sides <= 256 && !(3 <= arrow_sides <= 256) ==> (result matches Err(message)
            && message@ == "Arrow sides must be between 3 and 256."@),
{
    if !(3 <= line_sides && line_sides <= 256) {
        return Err(String::from_str("Line sides must be between 3 and 256."));
    }
    if !(3 <= arrow_sides && arrow_sides <= 256) {
        return Err(String::from_str("Arrow sides must be between 3 and 256."));
    }
    Ok(())
}

/// The geometry cache key of a line part: the side count in the low 32 bits
/// and whether it is an arrowhead in bit 32.
pub open spec fn line_variant(sides: u32, arrow: bool) -> int {
    sides + (if arrow {
        0x1_0000_0000int
    } else {
        0
    })
}

/// Packs the side count and arrowhead flag into one key.
pub fn geometry_variant(sides: u32, arrow: bool) -> (key: u64)
    ensures
        key == line_variant(sides, arrow),
{
    let flag: u64 = if arrow {
        1
    } else {
        0
    };
    let s = sides as u64;
    assert((s | (flag << 32u64)) == s + flag * 0x1_0000_0000) by (bit_vector)
        requires
            s < 0x1_0000_0000,
            flag <= 1,
    ;
    s | (flag << 32)
}

/// A body and an arrowhead, or parts with different side counts, never share a cache key.
pub proof fn lemma_geometry_variant_is_injective(
    sides_a: u32,
    arrow_a: bool,
    sides_b: u32,
    arrow_b: bool,
)
    requires
        line_variant(sides_a, arrow_a) == line_variant(sides_b, arrow_b),
    ensures
        sides_a == sides_b,
        arrow_a == arrow_b,
{
}

/// A vertex of the closed cylinder: a ring point at the start (X = 0) or the
/// end (X = 1), or the center of either end cap.
#[derive(Clone, Copy, Debug, PartialEq, Eq, Structural)]
pub enum CylinderCorner {
    Start(u32),
    End(u32),
    StartCenter,
    EndCenter,
}

/// A triangle of the closed cylinder, in winding order.
pub type CylinderTriangle = (CylinderCorner, CylinderCorner, CylinderCorner);

/// The four triangles of side `k`: two for the wall, one for each cap.
pub open spec fn cylinder_segment(k: nat) -> Seq<CylinderTriangle> {
    let i = k as u32;
    let n = (k + 1) as u32;
    seq![
        (CylinderCorner::Start(i), CylinderCorner::Start(n), CylinderCorner::End(n)),
        (CylinderCorner::Start(i), CylinderCorner::End(n), CylinderCorner::End(i)),
        (CylinderCorner::StartCenter, CylinderCorner::Start(n), CylinderCorner::Start(i)),
        (CylinderCorner::EndCenter, CylinderCorner::End(i), CylinderCorner::End(n)),
    ]
}

/// The triangles of sides `0..upto` of the closed cylinder.
pub open spec fn cylinder_triangles_upto(upto: nat) -> Seq<CylinderTriangle>
    decreases upto,
{
    if upto == 0 {
        seq![]
    } else {
        cylinder_triangles_upto((upto - 1) as nat) + cylinder_segment((upto - 1) as nat)
    }
}

/// The closed cylinder has four triangles per side.
pub proof fn lemma_cylinder_count(upto: nat)
    ensures
        cylinder_triangles_upto(upto).len() == 4 * upto,
    decreases upto,
{
    if upto > 0 {
        lemma_cylinder_count((upto - 1) as nat);
    }
}

/// Triangle `tri` runs from corner `a` straight to corner `b` in its winding order.
pub open spec fn cylinder_runs(tri: CylinderTriangle, a: CylinderCorner, b: CylinderCorner) -> bool {
    (tri.0 == a && tri.1 == b) || (tri.1 == a && tri.2 == b) || (tri.2 == a && tri.0 == b)
}

/// Some triangle of `triangles` runs from `b` back to `a`.
pub open spec fn cylinder_edge_returns(
    triangles: Seq<CylinderTriangle>,
    a: CylinderCorner,
    b: CylinderCorner,
) -> bool {
    exists|k: int| 0 <= k < triangles.len() && #[trigger] cylinder_runs(triangles[k], b, a)
}

/// `c` lies on the seam of a cylinder with `sides` sides: a ring point with
/// index 0 or `sides`, the two copies of the same place.
pub open spec fn on_cylinder_seam(c: CylinderCorner, sides: nat) -> bool {
    c == CylinderCorner::Start(0) || c == CylinderCorner::End(0) || c == CylinderCorner::Start(
        sides as u32,
    ) || c == CylinderCorner::End(sides as u32)
}

/// The edge from `a` to `b` of some triangle is run back, unless it touches the seam.
pub open spec fn cylinder_edge_closed(
    triangles: Seq<CylinderTriangle>,
    sides: nat,
    a: CylinderCorner,
    b: CylinderCorner,
) -> bool {
    !on_cylinder_seam(a, sides) && !on_cylinder_seam(b, sides) ==> cylinder_edge_returns(triangles, a, b)
}

proof fn lemma_cylinder_entry(upto: nat, k: int)
    requires
        0 <= k < upto,
    ensures
        cylinder_triangles_upto(upto).len() == 4 * upto,
        cylinder_triangles_upto(upto)[4 * k] == cylinder_segment(k as nat)[0],
        cylinder_triangles_upto(upto)[4 * k + 1] == cylinder_segment(k as nat)[1],
        cylinder_triangles_upto(upto)[4 * k + 2] == cylinder_segment(k as nat)[2],
        cylinder_triangles_upto(upto)[4 * k + 3] == cylinder_segment(k as nat)[3],
    decreases upto,
{
    lemma_cylinder_count(upto);
    lemma_cylinder_count((upto - 1) as nat);
    if k < upto - 1 {
        lemma_cylinder_entry((upto - 1) as nat, k);
    }
}

/// The closed cylinder is closed and consistently wound away from its seam:
/// every edge of every triangle that does not touch the seam is run the
/// other way by another triangle, so the walls and both caps fit together
/// with no hole and face outward alike.
pub proof fn lemma_closed_cylinder_fits_together(sides: nat)
    requires
        1 <= sides < u32::MAX,
    ensures
        forall|k: int|
            0 <= k < cylinder_triangles_upto(sides).len() ==> {
                let tri = #[trigger] cylinder_triangles_upto(sides)[k];
                &&& cylinder_edge_closed(cylinder_triangles_upto(sides), sides, tri.0, tri.1)
                &&& cylinder_edge_closed(cylinder_triangles_upto(sides), sides, tri.1, tri.2)
                &&& cylinder_edge_closed(cylinder_triangles_upto(sides), sides, tri.2, tri.0)
            },
{
    let mesh = cylinder_triangles_upto(sides);
    lemma_cylinder_count(sides);
    assert forall|k: int| 0 <= k < mesh.len() implies {
        let tri = #[trigger] mesh[k];
        &&& cylinder_edge_closed(mesh, sides, tri.0, tri.1)
        &&& cylinder_edge_closed(mesh, sides, tri.1, tri.2)
        &&& cylinder_edge_closed(mesh, sides, tri.2, tri.0)
    } by {
        let g = k / 4;
        let r = k % 4;
        assert(k == 4 * g + r);
        let i = g;
        let n = g + 1;
        let si = CylinderCorner::Start(i as u32);
        let sn = CylinderCorner::Start(n as u32);
        let ei = CylinderCorner::End(i as u32);
        let en = CylinderCorner::End(n as u32);
        let sc = CylinderCorner::StartCenter;
        let ec = CylinderCorner::EndCenter;
        let a = 4 * g;
        lemma_cylinder_entry(sides, g);
        assert(mesh[a] == (si, sn, en));
        assert(mesh[a + 1] == (si, en, ei));
        assert(mesh[a + 2] == (sc, sn, si));
        assert(mesh[a + 3] == (ec, ei, en));
        assert(cylinder_runs(mesh[a + 2], sn, si));
        assert(cylinder_runs(mesh[a], si, sn));
        assert(cylinder_runs(mesh[a + 1], si, en));
        assert(cylinder_runs(mesh[a], en, si));
        assert(cylinder_runs(mesh[a + 3], ei, en));
        assert(cylinder_runs(mesh[a + 1], en, ei));
        if n < sides {
            let b = 4 * n;
            lemma_cylinder_entry(sides, n);
            assert(mesh[b + 1] == (sn, CylinderCorner::End((n + 1) as u32), en));
            assert(mesh[b + 2] == (sc, CylinderCorner::Start((n + 1) as u32), sn));
            assert(mesh[b + 3] == (ec, en, CylinderCorner::End((n + 1) as u32)));
            assert(cylinder_runs(mesh[b + 1], en, sn));
            assert(cylinder_runs(mesh[b + 2], sn, sc));
            assert(cylinder_runs(mesh[b + 3], ec, en));
        }
        if i >= 1 {
            let p = 4 * (i - 1);
            lemma_cylinder_entry(sides, i - 1);
            assert(mesh[p] == (CylinderCorner::Start((i - 1) as u32), si, ei));
            assert(mesh[p + 2] == (sc, si, CylinderCorner::Start((i - 1) as u32)));
            assert(mesh[p + 3] == (ec, CylinderCorner::End((i - 1) as u32), ei));
            assert(cylinder_runs(mesh[p], si, ei));
            assert(cylinder_runs(mesh[p + 2], sc, si));
            assert(cylinder_runs(mesh[p + 3], ei, ec));
        }
        if r == 0 {
            assert(cylinder_edge_closed(mesh, sides, si, sn));
            assert(cylinder_edge_closed(mesh, sides, sn, en));
            assert(cylinder_edge_closed(mesh, sides, en, si));
        } else if r == 1 {
            assert(cylinder_edge_closed(mesh, sides, si, en));
            assert(cylinder_edge_closed(mesh, sides, en, ei));
            assert(cylinder_edge_closed(mesh, sides, ei, si));
        } else if r == 2 {
            assert(cylinder_edge_closed(mesh, sides, sc, sn));
            assert(cylinder_edge_closed(mesh, sides, sn, si));
            assert(cylinder_edge_closed(mesh, sides, si, sc));
        } else {
            assert(cylinder_edge_closed(mesh, sides, ec, ei));
            assert(cylinder_edge_closed(mesh, sides, ei, en));
            assert(cylinder_edge_closed(mesh, sides, en, ec));
        }
    }
}

/// The triangles of a closed cylinder with `sides` sides.
pub fn closed_cylinder_triangles(sides: u32) -> (triangles: Vec<CylinderTriangle>)
    requires
        sides < u32::MAX,
        4 * sides <= usize::MAX,
    ensures
        triangles@ == cylinder_triangles_upto(sides as nat),
        triangles@.len() == 4 * sides,
{
    let mut triangles: Vec<CylinderTriangle> = Vec::new();
    let mut side: u32 = 0;
    while side < sides
        invariant
            sides < u32::MAX,
            side <= sides,
            triangles@ == cylinder_triangles_upto(side as nat),
        decreases sides - side,
    {
        let next = side + 1;
        triangles.push((CylinderCorner::Start(side), CylinderCorner::Start(next), CylinderCorner::End(next)));
        triangles.push((CylinderCorner::Start(side), CylinderCorner::End(next), CylinderCorner::End(side)));
        triangles.push((CylinderCorner::StartCenter, CylinderCorner::Start(next), CylinderCorner::Start(side)));
        triangles.push((CylinderCorner::EndCenter, CylinderCorner::End(side), CylinderCorner::End(next)));
        side = side + 1;
        assert(triangles@ =~= cylinder_triangles_upto(side as nat));
    }
    proof {
        lemma_cylinder_count(sides as nat);
    }
    triangles
}

/// A vertex of the closed cone: a point of the base ring (X = 0), the base
/// center, or the apex (X = 1).
#[derive(Clone, Copy, Debug, PartialEq, Eq, Structural)]
pub enum ConeCorner {
    Base(u32),
    BaseCenter,
    Apex,
}

/// A triangle of the closed cone, in winding order.
pub type ConeTriangle = (ConeCorner, ConeCorner, ConeCorner);

/// The two triangles of side `k`: one to the apex and one of the base cap.
pub open spec fn cone_segment(k: nat) -> Seq<ConeTriangle> {
    let i = k as u32;
    let n = (k + 1) as u32;
    seq![
        (ConeCorner::Base(i), ConeCorner::Base(n), ConeCorner::Apex),
        (ConeCorner::BaseCenter, ConeCorner::Base(n), ConeCorner::Base(i)),
    ]
}

/// The triangles of sides `0..upto` of the closed cone.
pub open spec fn cone_triangles_upto(upto: nat) -> Seq<ConeTriangle>
    decreases upto,
{
    if upto == 0 {
        seq![]
    } else {
        cone_triangles_upto((upto - 1) as nat) + cone_segment((upto - 1) as nat)
    }
}

/// The closed cone has two triangles per side.
pub proof fn lemma_cone_count(upto: nat)
    ensures
        cone_triangles_upto(upto).len() == 2 * upto,
    decreases upto,
{
    if upto > 0 {
        lemma_cone_count((upto - 1) as nat);
    }
}

/// Triangle `tri` runs from corner `a` straight to corner `b` in its winding order.
pub open spec fn cone_runs(tri: ConeTriangle, a: ConeCorner, b: ConeCorner) -> bool {
    (tri.0 == a && tri.1 == b) || (tri.1 == a && tri.2 == b) || (tri.2 == a && tri.0 == b)
}

/// Some triangle of `triangles` runs from `b` back to `a`.
pub open spec fn cone_edge_returns(triangles: Seq<ConeTriangle>, a: ConeCorner, b: ConeCorner) -> bool {
    exists|k: int| 0 <= k < triangles.len() && #[trigger] cone_runs(triangles[k], b, a)
}

/// `c` lies on the seam of a cone with `sides` sides: a base point with
/// index 0 or `sides`, the two copies of the same place.
pub open spec fn on_cone_seam(c: ConeCorner, sides: nat) -> bool {
    c == ConeCorner::Base(0) || c == ConeCorner::Base(sides as u32)
}

/// The edge from `a` to `b` of some triangle is run back, unless it touches the seam.
pub open spec fn cone_edge_closed(triangles: Seq<ConeTriangle>, sides: nat, a: ConeCorner, b: ConeCorner) -> bool {
    !on_cone_seam(a, sides) && !on_cone_seam(b, sides) ==> cone_edge_returns(triangles, a, b)
}

proof fn lemma_cone_entry(upto: nat, k: int)
    requires
        0 <= k < upto,
    ensures
        cone_triangles_upto(upto).len() == 2 * upto,
        cone_triangles_upto(upto)[2 * k] == cone_segment(k as nat)[0],
        cone_triangles_upto(upto)[2 * k + 1] == cone_segment(k as nat)[1],
    decreases upto,
{
    lemma_cone_count(upto);
    lemma_cone_count((upto - 1) as nat);
    if k < upto - 1 {
        lemma_cone_entry((upto - 1) as nat, k);
    }
}

/// The closed cone is closed and consistently wound away from its seam:
/// every edge of every triangle that does not touch the seam is run the
/// other way by another triangle, so the side and the base cap fit together
/// with no hole and face outward alike.
pub proof fn lemma_closed_cone_fits_together(sides: nat)
    requires
        1 <= sides < u32::MAX,
    ensures
        forall|k: int|
            0 <= k < cone_triangles_upto(sides).len() ==> {
                let tri = #[trigger] cone_triangles_upto(sides)[k];
                &&& cone_edge_closed(cone_triangles_upto(sides), sides, tri.0, tri.1)
                &&& cone_edge_closed(cone_triangles_upto(sides), sides, tri.1, tri.2)
                &&& cone_edge_closed(cone_triangles_upto(sides), sides, tri.2, tri.0)
            },
{
    let mesh = cone_triangles_upto(sides);
    lemma_cone_count(sides);
    assert forall|k: int| 0 <= k < mesh.len() implies {
        let tri = #[trigger] mesh[k];
        &&& cone_edge_closed(mesh, sides, tri.0, tri.1)
        &&& cone_edge_closed(mesh, sides, tri.1, tri.2)
        &&& cone_edge_closed(mesh, sides, tri.2, tri.0)
    } by {
        let g = k / 2;
        let r = k % 2;
        assert(k == 2 * g + r);
        let i = g;
        let n = g + 1;
        let bi = ConeCorner::Base(i as u32);
        let bn = ConeCorner::Base(n as u32);
        let bc = ConeCorner::BaseCenter;
        let apex = ConeCorner::Apex;
        let a = 2 * g;
        lemma_cone_entry(sides, g);
        assert(mesh[a] == (bi, bn, apex));
        assert(mesh[a + 1] == (bc, bn, bi));
        assert(cone_runs(mesh[a + 1], bn, bi));
        assert(cone_runs(mesh[a], bi, bn));
        if n < sides {
            let b = 2 * n;
            lemma_cone_entry(sides, n);
            assert(mesh[b] == (bn, ConeCorner::Base((n + 1) as u32), apex));
            assert(mesh[b + 1] == (bc, ConeCorner::Base((n + 1) as u32), bn));
            assert(cone_runs(mesh[b], apex, bn));
            assert(cone_runs(mesh[b + 1], bn, bc));
        }
        if i >= 1 {
            let p = 2 * (i - 1);
            lemma_cone_entry(sides, i - 1);
            assert(mesh[p] == (ConeCorner::Base((i - 1) as u32), bi, apex));
            assert(mesh[p + 1] == (bc, bi, ConeCorner::Base((i - 1) as u32)));
            assert(cone_runs(mesh[p], bi, apex));
            assert(cone_runs(mesh[p + 1], bc, bi));
        }
    }
}

/// The triangles of a closed cone with `sides` sides.
pub fn closed_cone_triangles(sides: u32) -> (triangles: Vec<ConeTriangle>)
    requires
        sides < u32::MAX,
        2 * sides <= usize::MAX,
    ensures
        triangles@ == cone_triangles_upto(sides as nat),
        triangles@.len() == 2 * sides,
{
    let mut triangles: Vec<ConeTriangle> = Vec::new();
    let mut side: u32 = 0;
    while side < sides
        invariant
            sides < u32::MAX,
            side <= sides,
            triangles@ == cone_triangles_upto(side as nat),
        decreases sides - side,
    {
        let next = side + 1;
        triangles.push((ConeCorner::Base(side), ConeCorner::Base(next), ConeCorner::Apex));
        triangles.push((ConeCorner::BaseCenter, ConeCorner::Base(next), ConeCorner::Base(side)));
        side = side + 1;
        assert(triangles@ =~= cone_triangles_upto(side as nat));
    }
    proof {
        lemma_cone_count(sides as nat);
    }
    triangles
}

} // verus!

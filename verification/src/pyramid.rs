//! Regular-base pyramids centered on their local origin with the apex facing
//! positive Y: the side count rules, the geometry cache key and the triangle
//! topology of the mesh.

use vstd::prelude::*;

verus! {

/// A vertex of a pyramid mesh: a vertex of the base polygon, or the apex.
#[derive(Clone, Copy, Debug, PartialEq, Eq, Structural)]
pub enum PyramidCorner {
    Base(u32),
    Apex,
}

/// A triangle of a pyramid mesh, in winding order.
pub type PyramidTriangle = (PyramidCorner, PyramidCorner, PyramidCorner);

/// The base fan triangles at indices `1..upto`.
pub open spec fn base_triangles(upto: nat) -> Seq<PyramidTriangle>
    decreases upto,
{
    if upto <= 1 {
        seq![]
    } else {
        let i = (upto - 1) as u32;
        base_triangles((upto - 1) as nat).push(
            (PyramidCorner::Base(0), PyramidCorner::Base(i), PyramidCorner::Base((i + 1) as u32)),
        )
    }
}

/// The side triangles starting at base vertices `0..upto`.
pub open spec fn side_triangles(sides: nat, upto: nat) -> Seq<PyramidTriangle>
    decreases upto,
{
    if upto == 0 {
        seq![]
    } else {
        let i = (upto - 1) as nat;
        side_triangles(sides, i).push(
            (
                PyramidCorner::Base(i as u32),
                PyramidCorner::Apex,
                PyramidCorner::Base(((i + 1) % sides) as u32),
            ),
        )
    }
}

/// The triangles of a pyramid with `sides` sides: the base when capped, then the sides.
pub open spec fn pyramid_mesh_triangles(sides: nat, cap: bool) -> Seq<PyramidTriangle> {
    (if cap {
        base_triangles((sides - 1) as nat)
    } else {
        seq![]
    }) + side_triangles(sides, sides)
}

/// A pyramid has `sides - 2` base triangles when capped and one triangle per side.
pub proof fn lemma_pyramid_triangle_count(sides: nat, cap: bool)
    requires
        sides >= 3,
    ensures
        pyramid_mesh_triangles(sides, cap).len() == (if cap {
            sides - 2
        } else {
            0
        }) + sides,
{
    lemma_base_count((sides - 1) as nat);
    lemma_side_count(sides, sides);
}

proof fn lemma_base_count(upto: nat)
    requires
        upto >= 1,
    ensures
        base_triangles(upto).len() == upto - 1,
    decreases upto,
{
    if upto > 1 {
        lemma_base_count((upto - 1) as nat);
    }
}

proof fn lemma_side_count(sides: nat, upto: nat)
    ensures
        side_triangles(sides, upto).len() == upto,
    decreases upto,
{
    if upto > 0 {
        lemma_side_count(sides, (upto - 1) as nat);
    }
}

/// Triangle `tri` runs from corner `a` straight to corner `b` in its winding order.
pub open spec fn runs(tri: PyramidTriangle, a: PyramidCorner, b: PyramidCorner) -> bool {
    (tri.0 == a && tri.1 == b) || (tri.1 == a && tri.2 == b) || (tri.2 == a && tri.0 == b)
}

/// Some triangle of `triangles` runs from `b` back to `a`.
pub open spec fn edge_returns(triangles: Seq<PyramidTriangle>, a: PyramidCorner, b: PyramidCorner) -> bool {
    exists|k: int| 0 <= k < triangles.len() && #[trigger] runs(triangles[k], b, a)
}

/// Each edge of `tri` is run the other way by some triangle of `triangles`.
pub open spec fn edges_return(triangles: Seq<PyramidTriangle>, tri: PyramidTriangle) -> bool {
    &&& edge_returns(triangles, tri.0, tri.1)
    &&& edge_returns(triangles, tri.1, tri.2)
    &&& edge_returns(triangles, tri.2, tri.0)
}

proof fn lemma_base_entry(upto: nat, k: int)
    requires
        1 <= upto <= 256,
        0 <= k < upto - 1,
    ensures
        base_triangles(upto).len() == upto - 1,
        base_triangles(upto)[k] == (
            PyramidCorner::Base(0),
            PyramidCorner::Base((k + 1) as u32),
            PyramidCorner::Base((k + 2) as u32),
        ),
    decreases upto,
{
    lemma_base_count(upto);
    if k < upto - 2 {
        lemma_base_entry((upto - 1) as nat, k);
    }
}

proof fn lemma_side_entry(sides: nat, upto: nat, i: int)
    requires
        0 <= i < upto,
    ensures
        side_triangles(sides, upto).len() == upto,
        side_triangles(sides, upto)[i] == (
            PyramidCorner::Base(i as u32),
            PyramidCorner::Apex,
            PyramidCorner::Base(((i + 1) % (sides as int)) as u32),
        ),
    decreases upto,
{
    lemma_side_count(sides, upto);
    if i < upto - 1 {
        lemma_side_entry(sides, (upto - 1) as nat, i);
    }
}

/// A capped pyramid mesh is closed and consistently wound: every edge of
/// every triangle is run the other way by another triangle, so the surface
/// has no hole and all its triangles face outward alike.
pub proof fn lemma_capped_pyramid_is_closed(sides: nat)
    requires
        3 <= sides <= 256,
    ensures
        forall|k: int|
            0 <= k < pyramid_mesh_triangles(sides, true).len() ==> edges_return(
                pyramid_mesh_triangles(sides, true),
                #[trigger] pyramid_mesh_triangles(sides, true)[k],
            ),
{
    let mesh = pyramid_mesh_triangles(sides, true);
    let base = base_triangles((sides - 1) as nat);
    let walls = side_triangles(sides, sides);
    let b = sides - 2;
    lemma_base_count((sides - 1) as nat);
    lemma_side_count(sides, sides);
    assert(mesh == base + walls);
    assert forall|j: int| 0 <= j < b implies #[trigger] mesh[j] == (
        PyramidCorner::Base(0),
        PyramidCorner::Base((j + 1) as u32),
        PyramidCorner::Base((j + 2) as u32),
    ) by {
        lemma_base_entry((sides - 1) as nat, j);
    }
    assert forall|i: int| 0 <= i < sides implies #[trigger] mesh[b + i] == (
        PyramidCorner::Base(i as u32),
        PyramidCorner::Apex,
        PyramidCorner::Base(((i + 1) % (sides as int)) as u32),
    ) by {
        lemma_side_entry(sides, sides, i);
        assert(mesh[b + i] == walls[i]);
    }
    assert forall|i: int| 0 <= i < sides implies #[trigger] ((i + 1) % (sides as int)) == if i == sides - 1 {
        0
    } else {
        i + 1
    } by {
        if i == sides - 1 {
            vstd::arithmetic::div_mod::lemma_mod_self_0(sides as int);
        } else {
            vstd::arithmetic::div_mod::lemma_small_mod((i + 1) as nat, sides);
        }
    }
    let apex = PyramidCorner::Apex;
    assert forall|k: int| 0 <= k < mesh.len() implies edges_return(mesh, #[trigger] mesh[k]) by {
        if k < b {
            let j = k;
            let b0 = PyramidCorner::Base(0);
            let p = PyramidCorner::Base((j + 1) as u32);
            let q = PyramidCorner::Base((j + 2) as u32);
            let i1 = j + 1;
            assert(((i1 + 1) % (sides as int)) == i1 + 1);
            assert(mesh[b + i1] == (p, apex, q));
            assert(runs(mesh[b + i1], q, p));
            if j == 0 {
                let zero = 0int;
                assert(((zero + 1) % (sides as int)) == 1);
                assert(mesh[b + zero] == (b0, apex, p));
                assert(runs(mesh[b + zero], p, b0));
            } else {
                assert(runs(mesh[j - 1], p, b0));
            }
            if j == b - 1 {
                let last = sides - 1;
                assert(((last + 1) % (sides as int)) == 0);
                assert(mesh[b + last] == (q, apex, b0));
                assert(runs(mesh[b + last], b0, q));
            } else {
                assert(runs(mesh[j + 1], b0, q));
            }
        } else {
            let i = k - b;
            let here = PyramidCorner::Base(i as u32);
            let n = if i == sides - 1 {
                0
            } else {
                i + 1
            };
            let there = PyramidCorner::Base(n as u32);
            assert(((i + 1) % (sides as int)) == n);
            assert(mesh[b + i] == (here, apex, there));
            assert(k == b + i);
            let before = if i == 0 {
                sides - 1
            } else {
                i - 1
            };
            assert(((before + 1) % (sides as int)) == i);
            assert(mesh[b + before] == (PyramidCorner::Base(before as u32), apex, here));
            assert(runs(mesh[b + before], apex, here));
            assert(mesh[b + n] == (there, apex, PyramidCorner::Base(
                ((n + 1) % (sides as int)) as u32,
            )));
            assert(runs(mesh[b + n], there, apex));
            if i == 0 {
                assert(runs(mesh[0], here, there));
            } else if i == sides - 1 {
                assert(runs(mesh[b - 1], here, there));
            } else {
                assert(runs(mesh[i - 1], here, there));
            }
        }
    }
}

/// Trackable geometry of a pyramid: its side count and whether the base is drawn.
#[derive(Clone, Copy, Debug, PartialEq, Eq, Structural)]
pub struct PyramidShape {
    pub sides: u32,
    pub cap: bool,
}

impl Default for PyramidShape {
    /// Four sides with a base.
    fn default() -> (shape: Self)
        ensures
            shape == (PyramidShape { sides: 4, cap: true }),
    {
        PyramidShape { sides: 4, cap: true }
    }
}

/// Builder of a pyramid's geometry.
#[derive(Clone, Copy, Debug)]
pub struct PyramidBuilder {
    pub object: Pyramid,
}

/// Regular-base pyramid centered on its local origin with its apex facing positive Y.
#[derive(Clone, Copy, Debug)]
pub struct Pyramid {
    pub shape: PyramidShape,
}

/// Creates a pyramid builder with the default geometry.
pub fn pyramid() -> (builder: PyramidBuilder)
    ensures
        builder.object.shape == (PyramidShape { sides: 4, cap: true }),
{
    PyramidBuilder { object: Pyramid { shape: PyramidShape::default() } }
}

impl PyramidBuilder {
    /// Sets the number of sides.
    pub fn sides(self, sides: u32) -> (builder: Self)
        ensures
            builder.object.shape == (PyramidShape { sides, ..self.object.shape }),
    {
        PyramidBuilder { object: Pyramid { shape: PyramidShape { sides, ..self.object.shape } } }
    }

    /// Sets whether the base is drawn.
    pub fn cap(self, cap: bool) -> (builder: Self)
        ensures
            builder.object.shape == (PyramidShape { cap, ..self.object.shape }),
    {
        PyramidBuilder { object: Pyramid { shape: PyramidShape { cap, ..self.object.shape } } }
    }
}

/// Creates a 32-sided pyramid builder.
pub fn cone() -> (builder: PyramidBuilder)
    ensures
        builder.object.shape == (PyramidShape { sides: 32, cap: true }),
{
    pyramid().sides(32)
}

/// Accepts between 3 and 256 sides.
pub fn validate_sides(sides: u32) -> (result: Result<(), String>)
    ensures
        result is Ok <==> 3 <= sides <= 256,
        result matches Err(message) ==> message@ == "Pyramid sides must be between 3 and 256."@,
{
    if !(3 <= sides && sides <= 256) {
        return Err(String::from_str("Pyramid sides must be between 3 and 256."));
    }
    Ok(())
}

/// The geometry cache key of a pyramid: the side count in the low 32 bits and
/// the cap flag in bit 32.
pub open spec fn pyramid_variant(sides: u32, cap: bool) -> int {
    sides + (if cap {
        0x1_0000_0000int
    } else {
        0
    })
}

/// Packs the side count and cap flag into one key.
pub fn geometry_variant(sides: u32, cap: bool) -> (key: u64)
    ensures
        key == pyramid_variant(sides, cap),
{
    let flag: u64 = if cap {
        1
    } else {
        0
    };
    let s = sides as u64;
    assert((s | (flag << 32u64)) == s + flag * 0x1_0000_0000) by (bit_vector)
        requires
            s < 0x1_0000_0000,
            flag <= 1,
    ;
    s | (flag << 32)
}

/// Different pyramid geometries never share a cache key.
pub proof fn lemma_geometry_variant_is_injective(a: PyramidShape, b: PyramidShape)
    requires
        pyramid_variant(a.sides, a.cap) == pyramid_variant(b.sides, b.cap),
    ensures
        a == b,
{
}

/// The triangles of a pyramid mesh with `sides` sides: the base fan
/// `(0, i, i + 1)` for `i` in `1..sides - 1` when capped, then one triangle from
/// each base edge to the apex.
pub fn pyramid_triangles(sides: u32, cap: bool) -> (triangles: Vec<PyramidTriangle>)
    requires
        3 <= sides <= 256,
    ensures
        triangles@ == pyramid_mesh_triangles(sides as nat, cap),
        triangles@.len() == (if cap {
            sides - 2
        } else {
            0
        }) + sides,
{
    let mut triangles: Vec<PyramidTriangle> = Vec::new();
    if cap {
        let mut index: u32 = 1;
        while index < sides - 1
            invariant
                3 <= sides <= 256,
                1 <= index <= sides - 1,
                triangles@ == base_triangles(index as nat),
            decreases sides - index,
        {
            triangles.push((PyramidCorner::Base(0), PyramidCorner::Base(index), PyramidCorner::Base(index + 1)));
            index = index + 1;
        }
    }
    let ghost base = triangles@;
    assert(base == if cap {
        base_triangles((sides - 1) as nat)
    } else {
        seq![]
    });
    let mut side: u32 = 0;
    while side < sides
        invariant
            3 <= sides <= 256,
            side <= sides,
            triangles@ == base + side_triangles(sides as nat, side as nat),
        decreases sides - side,
    {
        triangles.push((PyramidCorner::Base(side), PyramidCorner::Apex, PyramidCorner::Base((side + 1) % sides)));
        side = side + 1;
        assert(triangles@ =~= base + side_triangles(sides as nat, side as nat));
    }
    proof {
        lemma_pyramid_triangle_count(sides as nat, cap);
    }
    triangles
}

} // verus!

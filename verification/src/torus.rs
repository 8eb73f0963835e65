//! Tori centered on their local origin with the ring around the Y axis: the
//! segment count rules and the index buffer of the mesh.
//!
//! The mesh has one vertex per pair of a major segment `i` and a minor segment
//! `j`, stored at position `i * minor + j`; each pair spans a quad of two
//! triangles to the next major and minor segments, wrapping around both rings.

use vstd::prelude::*;

verus! {

/// Accepts between 3 and 256 major and minor segments; the major count is
/// checked first.
pub fn validate_segments(major: u32, minor: u32) -> (result: Result<(), String>)
    ensures
        result is Ok <==> 3 <= major <= 256 && 3 <= minor <= 256,
        !(3 <= major <= 256) ==> (result matches Err(message) && message@
            == "Torus major segments must be between 3 and 256."@),
        3 <= major <= 256 && !(3 <= minor <= 256) ==> (result matches Err(message) && message@
            == "Torus minor segments must be between 3 and 256."@),
{
    if !(3 <= major && major <= 256) {
        return Err(String::from_str("Torus major segments must be between 3 and 256."));
    }
    if !(3 <= minor && minor <= 256) {
        return Err(String::from_str("Torus minor segments must be between 3 and 256."));
    }
    Ok(())
}

/// The vertex position of major segment `i` and minor segment `j`.
pub open spec fn torus_vertex(minor: nat, i: nat, j: nat) -> nat {
    i * minor + j
}

/// The six indices of the quad at major segment `i` and minor segment `j`:
/// triangles `a, d, c` and `a, c, b`.
pub open spec fn torus_quad(major: nat, minor: nat, i: nat, j: nat) -> Seq<u32> {
    let a = torus_vertex(minor, i, j) as u32;
    let b = torus_vertex(minor, (i + 1) % major, j) as u32;
    let c = torus_vertex(minor, (i + 1) % major, (j + 1) % minor) as u32;
    let d = torus_vertex(minor, i, (j + 1) % minor) as u32;
    seq![a, d, c, a, c, b]
}

/// The indices of the quads of major segment `i`, minor segments `0..upto`.
pub open spec fn torus_ring(major: nat, minor: nat, i: nat, upto: nat) -> Seq<u32>
    decreases upto,
{
    if upto == 0 {
        seq![]
    } else {
        torus_ring(major, minor, i, (upto - 1) as nat) + torus_quad(
            major,
            minor,
            i,
            (upto - 1) as nat,
        )
    }
}

/// The indices of the quads of major segments `0..upto`.
pub open spec fn torus_rings(major: nat, minor: nat, upto: nat) -> Seq<u32>
    decreases upto,
{
    if upto == 0 {
        seq![]
    } else {
        torus_rings(major, minor, (upto - 1) as nat) + torus_ring(
            major,
            minor,
            (upto - 1) as nat,
            minor,
        )
    }
}

proof fn lemma_ring_length(major: nat, minor: nat, i: nat, upto: nat)
    ensures
        torus_ring(major, minor, i, upto).len() == 6 * upto,
    decreases upto,
{
    if upto > 0 {
        lemma_ring_length(major, minor, i, (upto - 1) as nat);
    }
}

/// The index buffer has two triangles, six indices, per segment pair.
pub proof fn lemma_torus_index_count(major: nat, minor: nat, upto: nat)
    ensures
        torus_rings(major, minor, upto).len() == 6 * upto * minor,
    decreases upto,
{
    if upto > 0 {
        lemma_torus_index_count(major, minor, (upto - 1) as nat);
        lemma_ring_length(major, minor, (upto - 1) as nat, minor);
        let u = upto as int;
        let m = minor as int;
        assert(6 * u * m == 6 * (u - 1) * m + 6 * m) by (nonlinear_arith);
    } else {
        let m = minor as int;
        assert(6 * 0 * m == 0) by (nonlinear_arith);
    }
}

/// Every index names a vertex of the mesh.
pub proof fn lemma_torus_indices_in_range(major: nat, minor: nat, i: nat, j: nat)
    requires
        i < major,
        j < minor,
    ensures
        0 <= torus_vertex(minor, i, j) < major * minor,
{
    assert(i * minor + j < major * minor) by (nonlinear_arith)
        requires
            i < major,
            j < minor,
    ;
    assert(i * minor >= 0) by (nonlinear_arith);
}

/// Triangle `k` of an index buffer: its three indices in winding order.
pub open spec fn triangle_at(indices: Seq<u32>, k: int) -> (u32, u32, u32) {
    (indices[3 * k], indices[3 * k + 1], indices[3 * k + 2])
}

/// Triangle `tri` runs from vertex `a` straight to vertex `b` in its winding order.
pub open spec fn runs(tri: (u32, u32, u32), a: u32, b: u32) -> bool {
    (tri.0 == a && tri.1 == b) || (tri.1 == a && tri.2 == b) || (tri.2 == a && tri.0 == b)
}

/// Some triangle among the first `count` of `indices` runs from `b` back to `a`.
pub open spec fn edge_returns(indices: Seq<u32>, count: nat, a: u32, b: u32) -> bool {
    exists|k: int| 0 <= k < count && #[trigger] runs(triangle_at(indices, k), b, a)
}

proof fn lemma_wrap(x: nat, n: nat)
    requires
        x < n,
    ensures
        (x + 1) % n == if x == n - 1 {
            0
        } else {
            x + 1
        },
{
    if x == n - 1 {
        vstd::arithmetic::div_mod::lemma_mod_self_0(n as int);
    } else {
        vstd::arithmetic::div_mod::lemma_small_mod((x + 1) as nat, n);
    }
}

proof fn lemma_ring_entry(major: nat, minor: nat, i: nat, upto: nat, j: int, r: int)
    requires
        0 <= j < upto,
        0 <= r < 6,
    ensures
        torus_ring(major, minor, i, upto)[6 * j + r] == torus_quad(major, minor, i, j as nat)[r],
    decreases upto,
{
    lemma_ring_length(major, minor, i, (upto - 1) as nat);
    if j < upto - 1 {
        lemma_ring_entry(major, minor, i, (upto - 1) as nat, j, r);
    }
}

proof fn lemma_rings_entry(major: nat, minor: nat, upto: nat, i: int, q: int)
    requires
        0 <= i < upto,
        0 <= q < 6 * minor,
    ensures
        torus_rings(major, minor, upto)[6 * (i * minor) + q] == torus_ring(major, minor, i as nat, minor)[q],
    decreases upto,
{
    lemma_torus_index_count(major, minor, (upto - 1) as nat);
    lemma_ring_length(major, minor, (upto - 1) as nat, minor);
    if i < upto - 1 {
        lemma_rings_entry(major, minor, (upto - 1) as nat, i, q);
        assert(6 * (i * minor) + q < 6 * (upto - 1) * minor) by (nonlinear_arith)
            requires
                i < upto - 1,
                q < 6 * minor,
                0 <= q,
        ;
    } else {
        assert(6 * (i * minor) == 6 * (upto - 1) * minor) by (nonlinear_arith)
            requires
                i == upto - 1,
        ;
    }
}

/// The index `r` of the quad at major segment `i` and minor segment `j`.
proof fn lemma_quad_entry(major: nat, minor: nat, i: int, j: int, r: int)
    requires
        0 <= i < major,
        0 <= j < minor,
        0 <= r < 6,
    ensures
        torus_rings(major, minor, major)[6 * (i * minor + j) + r] == torus_quad(
            major,
            minor,
            i as nat,
            j as nat,
        )[r],
        6 * (i * minor + j) + r < 6 * major * minor,
{
    lemma_ring_entry(major, minor, i as nat, minor, j, r);
    lemma_rings_entry(major, minor, major, i, 6 * j + r);
    assert(6 * (i * minor) + (6 * j + r) == 6 * (i * minor + j) + r);
    assert(i * minor + j < major * minor) by (nonlinear_arith)
        requires
            i < major,
            j < minor,
            0 <= j,
    ;
    assert(6 * major * minor == 6 * (major * minor)) by (nonlinear_arith);
}

/// The two triangles of the quad at `(i, j)` are triangles `2 * (i * minor + j)` and the next.
proof fn lemma_quad_triangles(major: nat, minor: nat, i: int, j: int)
    requires
        0 <= i < major,
        0 <= j < minor,
    ensures
        ({
            let idx = torus_rings(major, minor, major);
            let g = i * minor + j;
            let q = torus_quad(major, minor, i as nat, j as nat);
            &&& 0 <= 2 * g && 2 * g + 1 < 2 * major * minor
            &&& triangle_at(idx, 2 * g) == (q[0], q[1], q[2])
            &&& triangle_at(idx, 2 * g + 1) == (q[3], q[4], q[5])
        }),
{
    let g = i * minor + j;
    assert(i * minor >= 0) by (nonlinear_arith)
        requires
            i >= 0,
    ;
    lemma_quad_entry(major, minor, i, j, 0);
    lemma_quad_entry(major, minor, i, j, 1);
    lemma_quad_entry(major, minor, i, j, 2);
    lemma_quad_entry(major, minor, i, j, 3);
    lemma_quad_entry(major, minor, i, j, 4);
    lemma_quad_entry(major, minor, i, j, 5);
    assert(3 * (2 * g) == 6 * g);
    assert(3 * (2 * g + 1) == 6 * g + 3);
    assert(g < major * minor) by (nonlinear_arith)
        requires
            g == i * minor + j,
            i < major,
            j < minor,
            0 <= j,
    ;
    assert(2 * major * minor == 2 * (major * minor)) by (nonlinear_arith);
}

/// Each edge of triangle `k` of the torus is run back by another triangle.
#[verifier::rlimit(40)]
proof fn lemma_torus_triangle_closed(major: nat, minor: nat, k: int)
    requires
        major >= 1,
        minor >= 1,
        0 <= k < 2 * major * minor,
    ensures
        ({
            let idx = torus_rings(major, minor, major);
            let count = 2 * major * minor;
            let tri = triangle_at(idx, k);
            &&& edge_returns(idx, count, tri.0, tri.1)
            &&& edge_returns(idx, count, tri.1, tri.2)
            &&& edge_returns(idx, count, tri.2, tri.0)
        }),
{
    let idx = torus_rings(major, minor, major);
    let count = 2 * major * minor;
    let g = k / 2;
    let h = k % 2;
    let mi = minor as int;
    let ma = major as int;
    let i = g / mi;
    let j = g % mi;
    vstd::arithmetic::div_mod::lemma_fundamental_div_mod(g, mi);
    assert(0 <= j < mi);
    assert(0 <= g < ma * mi) by (nonlinear_arith)
        requires
            0 <= k < 2 * ma * mi,
            g == k / 2,
    ;
    assert(g == i * mi + j) by (nonlinear_arith)
        requires
            g == mi * i + j,
    ;
    assert(0 <= i < ma) by (nonlinear_arith)
        requires
            g == i * mi + j,
            0 <= j < mi,
            0 <= g < ma * mi,
            mi >= 1,
    ;
    lemma_wrap(i as nat, major);
    lemma_wrap(j as nat, minor);
    let in_ = if i == major - 1 {
        0
    } else {
        i + 1
    };
    let jn = if j == minor - 1 {
        0
    } else {
        j + 1
    };
    let ip = if i == 0 {
        major - 1
    } else {
        i - 1
    };
    let jp = if j == 0 {
        minor - 1
    } else {
        j - 1
    };
    lemma_wrap(ip as nat, major);
    lemma_wrap(jp as nat, minor);
    lemma_wrap(in_ as nat, major);
    lemma_wrap(jn as nat, minor);
    let a = torus_vertex(minor, i as nat, j as nat) as u32;
    let b = torus_vertex(minor, in_ as nat, j as nat) as u32;
    let c = torus_vertex(minor, in_ as nat, jn as nat) as u32;
    let d = torus_vertex(minor, i as nat, jn as nat) as u32;
    lemma_quad_triangles(major, minor, i, j);
    lemma_quad_triangles(major, minor, ip, j);
    lemma_quad_triangles(major, minor, i, jn);
    lemma_quad_triangles(major, minor, in_, j);
    lemma_quad_triangles(major, minor, i, jp);
    let here = i * minor + j;
    let left = ip * minor + j;
    let up = i * minor + jn;
    let right = in_ * minor + j;
    let down = i * minor + jp;
    assert(triangle_at(idx, 2 * here) == (a, d, c));
    assert(triangle_at(idx, 2 * here + 1) == (a, c, b));
    assert(runs(triangle_at(idx, 2 * here + 1), a, c));
    assert(runs(triangle_at(idx, 2 * here), c, a));
    assert(runs(triangle_at(idx, 2 * left + 1), d, a));
    assert(runs(triangle_at(idx, 2 * up + 1), c, d));
    assert(runs(triangle_at(idx, 2 * right), b, c));
    assert(runs(triangle_at(idx, 2 * down), a, b));
    if h == 0 {
        assert(k == 2 * here);
    } else {
        assert(k == 2 * here + 1);
    }
}

/// The torus mesh is closed and consistently wound: every edge of every
/// triangle is run the other way by another triangle, around both rings, so
/// the surface has no hole and all its triangles face outward alike.
pub proof fn lemma_torus_is_closed(major: nat, minor: nat)
    requires
        major >= 1,
        minor >= 1,
    ensures
        torus_rings(major, minor, major).len() == 3 * (2 * major * minor),
        forall|k: int|
            0 <= k < 2 * major * minor ==> {
                let tri = #[trigger] triangle_at(torus_rings(major, minor, major), k);
                &&& edge_returns(torus_rings(major, minor, major), 2 * major * minor, tri.0, tri.1)
                &&& edge_returns(torus_rings(major, minor, major), 2 * major * minor, tri.1, tri.2)
                &&& edge_returns(torus_rings(major, minor, major), 2 * major * minor, tri.2, tri.0)
            },
{
    lemma_torus_index_count(major, minor, major);
    assert(6 * major * minor == 3 * (2 * major * minor)) by (nonlinear_arith);
    assert forall|k: int| 0 <= k < 2 * major * minor implies {
        let tri = #[trigger] triangle_at(torus_rings(major, minor, major), k);
        &&& edge_returns(torus_rings(major, minor, major), 2 * major * minor, tri.0, tri.1)
        &&& edge_returns(torus_rings(major, minor, major), 2 * major * minor, tri.1, tri.2)
        &&& edge_returns(torus_rings(major, minor, major), 2 * major * minor, tri.2, tri.0)
    } by {
        lemma_torus_triangle_closed(major, minor, k);
    }
}

/// The index buffer of a torus mesh with `major` by `minor` segments.
pub fn torus_indices(major: u32, minor: u32) -> (indices: Vec<u32>)
    requires
        major > 0,
        minor > 0,
        major * minor <= 0x1_0000_0000,
        6 * major * minor <= usize::MAX,
    ensures
        indices@ == torus_rings(major as nat, minor as nat, major as nat),
        indices@.len() == 6 * major * minor,
{
    let mut indices: Vec<u32> = Vec::new();
    let mut major_index: u32 = 0;
    while major_index < major
        invariant
            major > 0,
            minor > 0,
            major * minor <= 0x1_0000_0000,
            major_index <= major,
            indices@ == torus_rings(major as nat, minor as nat, major_index as nat),
        decreases major - major_index,
    {
        let ghost before = indices@;
        let mut minor_index: u32 = 0;
        while minor_index < minor
            invariant
                major > 0,
                minor > 0,
                major * minor <= 0x1_0000_0000,
                major_index < major,
                minor_index <= minor,
                indices@ == before + torus_ring(
                    major as nat,
                    minor as nat,
                    major_index as nat,
                    minor_index as nat,
                ),
            decreases minor - minor_index,
        {
            let next_major = (major_index + 1) % major;
            let next_minor = (minor_index + 1) % minor;
            proof {
                lemma_torus_indices_in_range(major as nat, minor as nat, major_index as nat, minor_index as nat);
                lemma_torus_indices_in_range(major as nat, minor as nat, next_major as nat, minor_index as nat);
                lemma_torus_indices_in_range(major as nat, minor as nat, next_major as nat, next_minor as nat);
                lemma_torus_indices_in_range(major as nat, minor as nat, major_index as nat, next_minor as nat);
            }
            let a = major_index * minor + minor_index;
            let b = next_major * minor + minor_index;
            let c = next_major * minor + next_minor;
            let d = major_index * minor + next_minor;
            indices.push(a);
            indices.push(d);
            indices.push(c);
            indices.push(a);
            indices.push(c);
            indices.push(b);
            minor_index = minor_index + 1;
            assert(indices@ =~= before + torus_ring(
                major as nat,
                minor as nat,
                major_index as nat,
                minor_index as nat,
            ));
        }
        major_index = major_index + 1;
    }
    proof {
        lemma_torus_index_count(major as nat, minor as nat, major as nat);
    }
    indices
}

} // verus!

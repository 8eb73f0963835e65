//! Index layout of extruded text: the tessellated outline, with its triangles
//! wound counter-clockwise, becomes a front face at the first `vertex_count`
//! vertices, a back face at the next `vertex_count` vertices with every
//! triangle reversed, and side walls along the outline's boundary edges, the
//! edges that belong to exactly one triangle. Each outline vertex on the
//! boundary gets a front and a back side vertex after the faces' vertices,
//! numbered here in the order the boundary edges first reach the vertices.

use vstd::prelude::*;

verus! {

/// A triangle of the tessellation, by its three vertex indices.
pub type OutlineTriangle = (u32, u32, u32);

/// The directed edges of the triangles, three per triangle in winding order.
pub open spec fn triangle_edges(triangles: Seq<OutlineTriangle>) -> Seq<(u32, u32)>
    decreases triangles.len(),
{
    if triangles.len() == 0 {
        Seq::empty()
    } else {
        let (a, b, c) = triangles.last();
        triangle_edges(triangles.drop_last()) + seq![(a, b), (b, c), (c, a)]
    }
}

/// The edge regardless of direction: its smaller endpoint first.
pub open spec fn undirected(edge: (u32, u32)) -> (u32, u32) {
    if edge.0 <= edge.1 {
        edge
    } else {
        (edge.1, edge.0)
    }
}

/// How many of `edges` join the same two vertices as `key`.
pub open spec fn edge_uses(edges: Seq<(u32, u32)>, key: (u32, u32)) -> nat
    decreases edges.len(),
{
    if edges.len() == 0 {
        0
    } else {
        edge_uses(edges.drop_last(), key) + if undirected(edges.last()) == key {
            1nat
        } else {
            0nat
        }
    }
}

/// The edges among the first `n` of `edges` that belong to exactly one
/// triangle of all of `edges`, in order, each with its own direction.
pub open spec fn boundary_upto(edges: Seq<(u32, u32)>, n: nat) -> Seq<(u32, u32)>
    decreases n,
{
    if n == 0 || n > edges.len() {
        Seq::empty()
    } else if edge_uses(edges, undirected(edges[n - 1])) == 1 {
        boundary_upto(edges, (n - 1) as nat).push(edges[n - 1])
    } else {
        boundary_upto(edges, (n - 1) as nat)
    }
}

/// The boundary edges of the outline, in the order the triangles list them.
pub open spec fn boundary_of(triangles: Seq<OutlineTriangle>) -> Seq<(u32, u32)> {
    boundary_upto(triangle_edges(triangles), triangle_edges(triangles).len())
}

/// The front and back face indices: each triangle `(a, b, c)` as it is, then
/// `(n + a, n + c, n + b)` on the back copy of the `n` vertices.
pub open spec fn face_indices(triangles: Seq<OutlineTriangle>, vertex_count: u32) -> Seq<u32>
    decreases triangles.len(),
{
    if triangles.len() == 0 {
        Seq::empty()
    } else {
        let (a, b, c) = triangles.last();
        face_indices(triangles.drop_last(), vertex_count) + seq![
            a,
            b,
            c,
            (vertex_count + a) as u32,
            (vertex_count + c) as u32,
            (vertex_count + b) as u32,
        ]
    }
}

/// Every triangle names vertices below `vertex_count`.
pub open spec fn within(triangles: Seq<OutlineTriangle>, vertex_count: u32) -> bool {
    forall|k: int|
        0 <= k < triangles.len() ==> #[trigger] triangles[k].0 < vertex_count && triangles[k].1
            < vertex_count && triangles[k].2 < vertex_count
}

proof fn lemma_faces_length(triangles: Seq<OutlineTriangle>, vertex_count: u32)
    ensures
        face_indices(triangles, vertex_count).len() == 6 * triangles.len(),
    decreases triangles.len(),
{
    if triangles.len() > 0 {
        lemma_faces_length(triangles.drop_last(), vertex_count);
    }
}

/// The front and back faces of the extrusion of `triangles`, whose vertices
/// number `vertex_count`; the back copy of vertex `v` is `vertex_count + v`.
pub fn extrusion_face_indices(triangles: &Vec<OutlineTriangle>, vertex_count: u32) -> (indices: Vec<u32>)
    requires
        within(triangles@, vertex_count),
        2 * vertex_count <= u32::MAX,
        6 * triangles@.len() <= usize::MAX,
    ensures
        indices@ == face_indices(triangles@, vertex_count),
        indices@.len() == 6 * triangles@.len(),
{
    let mut indices: Vec<u32> = Vec::new();
    let mut i: usize = 0;
    while i < triangles.len()
        invariant
            i <= triangles@.len(),
            within(triangles@, vertex_count),
            2 * vertex_count <= u32::MAX,
            indices@ == face_indices(triangles@.take(i as int), vertex_count),
        decreases triangles@.len() - i,
    {
        let (a, b, c) = triangles[i];
        assert(triangles@[i as int].0 < vertex_count);
        indices.push(a);
        indices.push(b);
        indices.push(c);
        indices.push(vertex_count + a);
        indices.push(vertex_count + c);
        indices.push(vertex_count + b);
        proof {
            let next = triangles@.take(i + 1);
            assert(next.drop_last() =~= triangles@.take(i as int));
            assert(next.last() == triangles@[i as int]);
            assert(indices@ =~= face_indices(next, vertex_count));
        }
        i = i + 1;
    }
    assert(triangles@.take(triangles@.len() as int) =~= triangles@);
    proof {
        lemma_faces_length(triangles@, vertex_count);
    }
    indices
}

/// The directed edges of `triangles`, three per triangle.
fn all_edges(triangles: &Vec<OutlineTriangle>) -> (edges: Vec<(u32, u32)>)
    requires
        3 * triangles@.len() <= usize::MAX,
    ensures
        edges@ == triangle_edges(triangles@),
{
    let mut edges: Vec<(u32, u32)> = Vec::new();
    let mut i: usize = 0;
    while i < triangles.len()
        invariant
            i <= triangles@.len(),
            edges@ == triangle_edges(triangles@.take(i as int)),
        decreases triangles@.len() - i,
    {
        let (a, b, c) = triangles[i];
        edges.push((a, b));
        edges.push((b, c));
        edges.push((c, a));
        proof {
            let next = triangles@.take(i + 1);
            assert(next.drop_last() =~= triangles@.take(i as int));
            assert(next.last() == triangles@[i as int]);
            assert(edges@ =~= triangle_edges(next));
        }
        i = i + 1;
    }
    assert(triangles@.take(triangles@.len() as int) =~= triangles@);
    edges
}

/// How many of `edges` join the same two vertices as `key`.
fn count_uses(edges: &Vec<(u32, u32)>, key: (u32, u32)) -> (count: usize)
    ensures
        count == edge_uses(edges@, key),
{
    let mut count: usize = 0;
    let mut k: usize = 0;
    while k < edges.len()
        invariant
            k <= edges@.len(),
            count == edge_uses(edges@.take(k as int), key),
            count <= k,
        decreases edges@.len() - k,
    {
        let (from, to) = edges[k];
        let same = if from <= to {
            from == key.0 && to == key.1
        } else {
            to == key.0 && from == key.1
        };
        proof {
            let next = edges@.take(k + 1);
            assert(next.drop_last() =~= edges@.take(k as int));
            assert(next.last() == edges@[k as int]);
        }
        if same {
            count = count + 1;
        }
        k = k + 1;
    }
    assert(edges@.take(edges@.len() as int) =~= edges@);
    count
}

/// The boundary edges of the outline `triangles`: the edges that belong to
/// exactly one triangle, each once, with its direction in that triangle, in
/// the order the triangles list them.
pub fn boundary_edges(triangles: &Vec<OutlineTriangle>) -> (boundary: Vec<(u32, u32)>)
    requires
        3 * triangles@.len() <= usize::MAX,
    ensures
        boundary@ == boundary_of(triangles@),
{
    let edges = all_edges(triangles);
    let mut boundary: Vec<(u32, u32)> = Vec::new();
    let mut j: usize = 0;
    while j < edges.len()
        invariant
            j <= edges@.len(),
            boundary@ == boundary_upto(edges@, j as nat),
        decreases edges@.len() - j,
    {
        let (from, to) = edges[j];
        let key = if from <= to {
            (from, to)
        } else {
            (to, from)
        };
        assert(key == undirected(edges@[j as int]));
        if count_uses(&edges, key) == 1 {
            boundary.push((from, to));
        }
        j = j + 1;
    }
    boundary
}

/// The side wall indices: for each boundary edge `(from, to)`, in order, the
/// two triangles `(f, f + 1, t + 1)` and `(f, t + 1, t)`, where `f` and `t`
/// are the front side vertices of `from` and `to` in `side_front` and each
/// back side vertex follows its front one.
pub open spec fn side_indices(boundary: Seq<(u32, u32)>, side_front: Seq<u32>) -> Seq<u32>
    decreases boundary.len(),
{
    if boundary.len() == 0 {
        Seq::empty()
    } else {
        let (from, to) = boundary.last();
        let f = side_front[from as int];
        let t = side_front[to as int];
        side_indices(boundary.drop_last(), side_front) + seq![
            f,
            (f + 1) as u32,
            (t + 1) as u32,
            f,
            (t + 1) as u32,
            t,
        ]
    }
}

/// The side walls along `boundary`, where `side_front[v]` is the index of the
/// front side vertex made for outline vertex `v`, its back one following it.
pub fn side_wall_indices(boundary: &Vec<(u32, u32)>, side_front: &Vec<u32>) -> (indices: Vec<u32>)
    requires
        forall|k: int|
            0 <= k < boundary@.len() ==> (#[trigger] boundary@[k]).0 < side_front@.len()
                && boundary@[k].1 < side_front@.len(),
        forall|v: int| 0 <= v < side_front@.len() ==> #[trigger] side_front@[v] < u32::MAX,
        6 * boundary@.len() <= usize::MAX,
    ensures
        indices@ == side_indices(boundary@, side_front@),
{
    let mut indices: Vec<u32> = Vec::new();
    let mut i: usize = 0;
    while i < boundary.len()
        invariant
            i <= boundary@.len(),
            forall|k: int|
                0 <= k < boundary@.len() ==> (#[trigger] boundary@[k]).0 < side_front@.len()
                    && boundary@[k].1 < side_front@.len(),
            forall|v: int| 0 <= v < side_front@.len() ==> #[trigger] side_front@[v] < u32::MAX,
            indices@ == side_indices(boundary@.take(i as int), side_front@),
        decreases boundary@.len() - i,
    {
        let (from, to) = boundary[i];
        assert(boundary@[i as int].0 < side_front@.len());
        let front_from = side_front[from as usize];
        let front_to = side_front[to as usize];
        indices.push(front_from);
        indices.push(front_from + 1);
        indices.push(front_to + 1);
        indices.push(front_from);
        indices.push(front_to + 1);
        indices.push(front_to);
        proof {
            let next = boundary@.take(i + 1);
            assert(next.drop_last() =~= boundary@.take(i as int));
            assert(next.last() == boundary@[i as int]);
            assert(indices@ =~= side_indices(next, side_front@));
        }
        i = i + 1;
    }
    assert(boundary@.take(boundary@.len() as int) =~= boundary@);
    indices
}

/// `order` with `v` appended unless it already holds it.
pub open spec fn with_vertex(order: Seq<u32>, v: u32) -> Seq<u32> {
    if order.contains(v) {
        order
    } else {
        order.push(v)
    }
}

/// The outline vertices on the boundary, each once, in the order the
/// boundary edges first reach them, the start of an edge before its end.
pub open spec fn side_order(boundary: Seq<(u32, u32)>) -> Seq<u32>
    decreases boundary.len(),
{
    if boundary.len() == 0 {
        Seq::empty()
    } else {
        let (from, to) = boundary.last();
        with_vertex(with_vertex(side_order(boundary.drop_last()), from), to)
    }
}

/// What the numbering of side vertices keeps: `order` lists distinct
/// vertices below `vertex_count`, `seen` marks them, the `k`-th of them has
/// its front side vertex at `2 * vertex_count + 2 * k`, and every other
/// vertex has 0.
pub open spec fn numbering_kept(order: Seq<u32>, front: Seq<u32>, seen: Seq<bool>, vertex_count: u32) -> bool {
    &&& front.len() == vertex_count
    &&& seen.len() == vertex_count
    &&& order.no_duplicates()
    &&& forall|k: int| 0 <= k < order.len() ==> #[trigger] order[k] < vertex_count
    &&& forall|v: int| 0 <= v < vertex_count ==> #[trigger] seen[v] == order.contains(v as u32)
    &&& forall|k: int|
        0 <= k < order.len() ==> #[trigger] front[order[k] as int] == 2 * vertex_count + 2 * k
    &&& forall|v: int| 0 <= v < vertex_count && !#[trigger] seen[v] ==> front[v] == 0
}

/// Distinct values below `bound` number at most `bound`.
proof fn lemma_distinct_below(order: Seq<u32>, bound: nat)
    requires
        order.no_duplicates(),
        forall|k: int| 0 <= k < order.len() ==> #[trigger] order[k] < bound,
    ensures
        order.len() <= bound,
{
    let widen = |x: u32| x as int;
    let wide = order.map_values(widen);
    assert(vstd::relations::injective(widen));
    order.lemma_no_duplicates_injective(widen);
    wide.unique_seq_to_set();
    vstd::set_lib::lemma_int_range(0, bound as int);
    assert(wide.to_set().subset_of(vstd::set_lib::set_int_range(0, bound as int))) by {
        assert forall|x: int| wide.to_set().contains(x) implies vstd::set_lib::set_int_range(
            0,
            bound as int,
        ).contains(x) by {
            let k = choose|k: int| 0 <= k < wide.len() && wide[k] == x;
            assert(order[k] < bound);
        }
    }
    vstd::set_lib::lemma_len_subset(wide.to_set(), vstd::set_lib::set_int_range(0, bound as int));
}

/// Gives vertex `v` its side vertices unless it has them.
fn note_side_vertex(
    v: u32,
    vertex_count: u32,
    order: &mut Vec<u32>,
    front: &mut Vec<u32>,
    seen: &mut Vec<bool>,
)
    requires
        v < vertex_count,
        4 * vertex_count <= u32::MAX,
        numbering_kept(old(order)@, old(front)@, old(seen)@, vertex_count),
    ensures
        numbering_kept(final(order)@, final(front)@, final(seen)@, vertex_count),
        final(order)@ == with_vertex(old(order)@, v),
{
    if !seen[v as usize] {
        proof {
            assert(!order@.contains(v));
            let longer = order@.push(v);
            assert forall|k: int| 0 <= k < longer.len() implies #[trigger] longer[k] < vertex_count by {
                if k < order@.len() {
                    assert(order@[k] < vertex_count);
                }
            }
            assert(longer.no_duplicates()) by {
                assert forall|a: int, b: int| 0 <= a < longer.len() && 0 <= b < longer.len() && a != b implies longer[a]
                    != longer[b] by {
                    if a == order@.len() as int {
                        assert(order@[b] == longer[b]);
                    } else if b == order@.len() as int {
                        assert(order@[a] == longer[a]);
                    }
                }
            }
            lemma_distinct_below(longer, vertex_count as nat);
        }
        let count = order.len() as u32;
        let ghost before_order = order@;
        let ghost before_front = front@;
        let ghost before_seen = seen@;
        front.set(v as usize, 2 * vertex_count + 2 * count);
        seen.set(v as usize, true);
        order.push(v);
        proof {
            assert forall|w: int| 0 <= w < vertex_count implies #[trigger] seen@[w] == order@.contains(w as u32) by {
                if w == v as int {
                    assert(order@[order@.len() - 1] == v);
                } else {
                    assert(before_seen[w] == before_order.contains(w as u32));
                    if order@.contains(w as u32) {
                        let k = choose|k: int| 0 <= k < order@.len() && order@[k] == w as u32;
                        assert(k < before_order.len());
                        assert(before_order[k] == w as u32);
                    }
                    if before_order.contains(w as u32) {
                        let k = choose|k: int| 0 <= k < before_order.len() && before_order[k] == w as u32;
                        assert(order@[k] == w as u32);
                    }
                }
            }
            assert forall|k: int| 0 <= k < order@.len() implies #[trigger] front@[order@[k] as int]
                == 2 * vertex_count + 2 * k by {
                if k < before_order.len() {
                    assert(order@[k] == before_order[k]);
                    assert(before_order[k] != v);
                }
            }
            assert forall|k: int| 0 <= k < order@.len() implies #[trigger] order@[k] < vertex_count by {
                if k < before_order.len() {
                    assert(order@[k] == before_order[k]);
                }
            }
            assert(order@.no_duplicates()) by {
                assert forall|a: int, b: int| 0 <= a < order@.len() && 0 <= b < order@.len() && a != b implies order@[a]
                    != order@[b] by {
                    if a == before_order.len() as int {
                        assert(before_order[b] == order@[b]);
                    } else if b == before_order.len() as int {
                        assert(before_order[a] == order@[a]);
                    } else {
                        assert(before_order[a] == order@[a]);
                        assert(before_order[b] == order@[b]);
                    }
                }
            }
        }
    } else {
        assert(order@.contains(v));
    }
}

/// The side vertices of the outline along `boundary`: the boundary vertices
/// in the order the edges first reach them, and for every vertex below
/// `vertex_count` the index of its front side vertex, its back one following
/// it. Side vertices come after the front and back faces' `2 * vertex_count`
/// vertices, two per boundary vertex; a vertex off the boundary gets 0.
pub fn side_vertex_numbers(boundary: &Vec<(u32, u32)>, vertex_count: u32) -> (numbering: (Vec<u32>, Vec<u32>))
    requires
        forall|k: int|
            0 <= k < boundary@.len() ==> (#[trigger] boundary@[k]).0 < vertex_count && boundary@[k].1
                < vertex_count,
        4 * vertex_count <= u32::MAX,
    ensures
        numbering.0@ == side_order(boundary@),
        numbering.1@.len() == vertex_count,
        numbering.0@.no_duplicates(),
        forall|k: int|
            0 <= k < numbering.0@.len() ==> #[trigger] numbering.1@[numbering.0@[k] as int] == 2
                * vertex_count + 2 * k,
        forall|v: int|
            0 <= v < vertex_count && !numbering.0@.contains(v as u32) ==> #[trigger] numbering.1@[v] == 0,
{
    let mut order: Vec<u32> = Vec::new();
    let mut front: Vec<u32> = Vec::new();
    let mut seen: Vec<bool> = Vec::new();
    while front.len() < vertex_count as usize
        invariant
            front@.len() == seen@.len(),
            front@.len() <= vertex_count,
            forall|v: int| 0 <= v < front@.len() ==> #[trigger] front@[v] == 0 && !seen@[v],
        decreases vertex_count - front@.len(),
    {
        front.push(0);
        seen.push(false);
    }
    assert forall|v: int| 0 <= v < vertex_count implies #[trigger] seen@[v] == order@.contains(v as u32) by {
        assert(front@[v] == 0);
        assert(!seen@[v]);
        assert(!order@.contains(v as u32));
    }
    assert(numbering_kept(order@, front@, seen@, vertex_count));
    let mut i: usize = 0;
    while i < boundary.len()
        invariant
            i <= boundary@.len(),
            forall|k: int|
                0 <= k < boundary@.len() ==> (#[trigger] boundary@[k]).0 < vertex_count
                    && boundary@[k].1 < vertex_count,
            4 * vertex_count <= u32::MAX,
            numbering_kept(order@, front@, seen@, vertex_count),
            order@ == side_order(boundary@.take(i as int)),
        decreases boundary@.len() - i,
    {
        let (from, to) = boundary[i];
        assert(boundary@[i as int].0 < vertex_count);
        note_side_vertex(from, vertex_count, &mut order, &mut front, &mut seen);
        note_side_vertex(to, vertex_count, &mut order, &mut front, &mut seen);
        proof {
            let next = boundary@.take(i + 1);
            assert(next.drop_last() =~= boundary@.take(i as int));
            assert(next.last() == boundary@[i as int]);
        }
        i = i + 1;
    }
    assert(boundary@.take(boundary@.len() as int) =~= boundary@);
    assert forall|v: int| 0 <= v < vertex_count && !order@.contains(v as u32) implies #[trigger] front@[v] == 0 by {
        assert(!seen@[v]);
    }
    (order, front)
}

} // verus!

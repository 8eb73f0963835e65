//! The drawing order of a container's children: by increasing z-index, and in
//! insertion order among children with equal z-index. Children drawn later
//! appear in front and are picked first.

use vstd::prelude::*;

verus! {

/// Child `a` is drawn before child `b`: lower z-index, or equal z-index and
/// inserted earlier.
pub open spec fn drawn_before(z: Seq<i32>, a: usize, b: usize) -> bool {
    z[a as int] < z[b as int] || (z[a as int] == z[b as int] && a < b)
}

/// `order` lists every position below `len` exactly once.
pub open spec fn lists_each_once(order: Seq<usize>, len: nat) -> bool {
    &&& order.len() == len
    &&& forall|i: int| 0 <= i < len ==> order[i] < len
    &&& forall|i: int, j: int| 0 <= i < j < len ==> order[i] != order[j]
}

/// `order` lists children in drawing order.
pub open spec fn in_drawing_order(z: Seq<i32>, order: Seq<usize>) -> bool {
    forall|i: int, j: int| 0 <= i < j < order.len() ==> drawn_before(z, order[i], order[j])
}

/// The positions of `z_indices` in drawing order: sorted by z-index, keeping
/// insertion order among equal z-indices.
pub fn children_by_z_index(z_indices: &Vec<i32>) -> (order: Vec<usize>)
    ensures
        lists_each_once(order@, z_indices@.len()),
        in_drawing_order(z_indices@, order@),
{
    let ghost z = z_indices@;
    let mut order: Vec<usize> = Vec::new();
    let mut position: usize = 0;
    while position < z_indices.len()
        invariant
            z == z_indices@,
            position <= z.len(),
            order@.len() == position,
            forall|i: int| 0 <= i < position ==> order@[i] < position,
            forall|i: int, j: int| 0 <= i < j < position ==> order@[i] != order@[j],
            in_drawing_order(z, order@),
        decreases z.len() - position,
    {
        let key = z_indices[position];
        let mut slot = order.len();
        while slot > 0 && z_indices[order[slot - 1]] > key
            invariant
                z == z_indices@,
                position < z.len(),
                order@.len() == position,
                slot <= position,
                forall|i: int| 0 <= i < position ==> order@[i] < position,
                forall|i: int| slot <= i < position ==> z[order@[i] as int] > key,
            decreases slot,
        {
            slot = slot - 1;
        }
        let ghost previous = order@;
        order.insert(slot, position);
        proof {
            assert forall|i: int, j: int| 0 <= i < j < order@.len() implies drawn_before(
                z,
                order@[i],
                order@[j],
            ) by {
                if j < slot {
                    assert(order@[i] == previous[i] && order@[j] == previous[j]);
                } else if j == slot {
                    assert(order@[i] == previous[i]);
                    if slot > 0 {
                        assert(!(z[previous[slot - 1] as int] > key));
                        assert(drawn_before(z, previous[i], previous[slot - 1]) || i == slot - 1);
                    }
                } else if i == slot {
                    assert(order@[j] == previous[j - 1]);
                } else if i < slot {
                    assert(order@[i] == previous[i] && order@[j] == previous[j - 1]);
                } else {
                    assert(order@[i] == previous[i - 1] && order@[j] == previous[j - 1]);
                }
            }
        }
        position = position + 1;
    }
    order
}

} // verus!

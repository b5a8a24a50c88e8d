//! The mathematical model of the heap: the array-as-tree layout and the
//! sift procedures, written over `Seq<T>`.
//!
//! `sift_up_from` and `sift_down_from` state, step by step, what the exec
//! sift loops do to the backing sequence, including the tie-break rules and
//! the rule that sifting down inspects a node only when both of its children
//! exist. The exec functions' contracts equate the vector with these
//! functions, so every behavioural question about the heap reduces to them.

use vstd::prelude::*;

use crate::heap::HeapType;
use crate::order::above_ok;
use crate::order::ge_spec;
use crate::order::gt_spec;
use crate::order::le_spec;
use crate::order::lt_spec;

verus! {

/// Index of the parent of tree node `i`.
pub open spec fn parent_of(i: int) -> int {
    (i - 1) / 2
}

/// The sequence with the elements at `i` and `j` exchanged.
pub open spec fn swapped<T>(s: Seq<T>, i: int, j: int) -> Seq<T> {
    s.update(i, s[j]).update(j, s[i])
}

/// The pair linking node `i` to its parent does not violate the heap
/// property of orientation `t`.
pub open spec fn pair_ok<T: PartialOrd>(t: HeapType, s: Seq<T>, i: int) -> bool {
    above_ok(t, s[parent_of(i)], s[i])
}

/// The heap property: no parent-child pair of the tree violates the
/// orientation's order.
pub open spec fn heap_ok<T: PartialOrd>(t: HeapType, s: Seq<T>) -> bool {
    forall|i: int| 1 <= i < s.len() ==> #[trigger] pair_ok(t, s, i)
}

/// The heap property everywhere except possibly at a lone left child in the
/// last position. Sifting down never inspects a node whose right child is
/// missing, so a removal can leave exactly this one pair unrepaired.
pub open spec fn nearly_heap_ok<T: PartialOrd>(t: HeapType, s: Seq<T>) -> bool {
    forall|i: int|
        1 <= i < s.len() && !(i == s.len() - 1 && i % 2 == 1) ==> #[trigger] pair_ok(t, s, i)
}

/// Sifting up at node `i` still has work to do: `i` has a parent and the
/// pair violates the orientation's order strictly.
pub open spec fn up_step_needed<T: PartialOrd>(t: HeapType, s: Seq<T>, i: int) -> bool {
    1 <= i < s.len() && !above_ok(t, s[parent_of(i)], s[i])
}

/// The sequence after sifting up from node `i`: while the node strictly
/// violates the order against its parent, the two are exchanged and the walk
/// continues from the parent's index.
pub open spec fn sift_up_from<T: PartialOrd>(t: HeapType, s: Seq<T>, i: int) -> Seq<T>
    decreases i,
{
    if up_step_needed(t, s, i) {
        sift_up_from(t, swapped(s, i, parent_of(i)), parent_of(i))
    } else {
        s
    }
}

/// The child that a sift-down step at node `i` exchanges with, if any.
///
/// A step happens only when both children exist. The left child is preferred
/// whenever the two children compare equal.
pub open spec fn down_pick<T: PartialOrd>(t: HeapType, s: Seq<T>, i: int) -> Option<int> {
    let l: int = 2 * i + 1;
    let r: int = 2 * i + 2;
    if !(0 <= i) || r >= s.len() {
        None
    } else {
        match t {
            HeapType::Min => if gt_spec(s[i], s[l]) && le_spec(s[l], s[r]) {
                Some(l)
            } else if gt_spec(s[i], s[r]) && le_spec(s[r], s[l]) {
                Some(r)
            } else {
                None
            },
            HeapType::Max => if lt_spec(s[i], s[l]) && ge_spec(s[l], s[r]) {
                Some(l)
            } else if lt_spec(s[i], s[r]) && ge_spec(s[r], s[l]) {
                Some(r)
            } else {
                None
            },
        }
    }
}

/// The sequence after sifting down from node `i`: while a step picks a
/// child, the node and that child are exchanged and the walk continues from
/// the child's index.
pub open spec fn sift_down_from<T: PartialOrd>(t: HeapType, s: Seq<T>, i: int) -> Seq<T>
    decreases s.len() - i,
{
    match down_pick(t, s, i) {
        Some(c) => sift_down_from(t, swapped(s, i, c), c),
        None => s,
    }
}

/// The backing sequence that a removal hands to sift-down: the last element
/// moved to the root and the last position dropped.
pub open spec fn removed_shape<T>(s: Seq<T>) -> Seq<T> {
    s.update(0, s.last()).drop_last()
}

/// How a node and its parent index relate: the parent sits strictly below
/// the node, and the node is one of the parent's two children.
pub proof fn lemma_parent_of_bounds(i: int)
    requires
        i >= 1,
    ensures
        0 <= parent_of(i) < i,
        i == 2 * parent_of(i) + 1 || i == 2 * parent_of(i) + 2,
{
}

} // verus!

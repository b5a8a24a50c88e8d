//! The heap itself: a vector in tree layout plus a fixed orientation.

use vstd::prelude::*;
use vstd::std_specs::cmp::PartialOrdSpec;

use crate::model::down_pick;
use crate::model::parent_of;
use crate::model::removed_shape;
use crate::model::sift_down_from;
use crate::model::sift_up_from;
use crate::model::swapped;
use crate::model::up_step_needed;

verus! {

/// The orientation of a heap: `Min` keeps the smallest element at the root,
/// `Max` the largest.
#[derive(Clone, Copy)]
pub enum HeapType {
    Min,
    Max,
}

/// An array-backed binary heap over any element type with an order
/// comparison. The root sits at index 0; the children of index `i` sit at
/// `2*i + 1` and `2*i + 2`.
pub struct Heap<T> where T: PartialOrd {
    arr: Vec<T>,
    typ: HeapType,
}

/// The element a peek or a removal yields on a heap with these elements:
/// the root, or nothing when the heap is empty.
pub open spec fn front_of<T>(s: Seq<T>) -> Option<T> {
    if s.len() == 0 {
        None
    } else {
        Some(s[0])
    }
}

impl<T> Heap<T> where T: PartialOrd {
    /// The elements in tree layout, root first.
    pub closed spec fn elems(&self) -> Seq<T> {
        self.arr@
    }

    /// The orientation chosen at construction.
    pub closed spec fn kind(&self) -> HeapType {
        self.typ
    }

    /// Creates an empty heap with the given orientation.
    pub fn new(heap_type: HeapType) -> (h: Self)
        ensures
            h.elems() == Seq::<T>::empty(),
            h.kind() == heap_type,
    {
        Self { arr: Vec::new(), typ: heap_type }
    }

    /// The orientation of this heap.
    pub fn heap_type(&self) -> (t: HeapType)
        ensures
            t == self.kind(),
    {
        self.typ
    }

    /// The number of elements held.
    pub fn size(&self) -> (n: usize)
        ensures
            n == self.elems().len(),
    {
        self.arr.len()
    }

    /// The element at the root — the extreme one when the heap property
    /// holds — or `None` on an empty heap. The heap is not changed.
    pub fn peak(&self) -> (r: Option<&T>)
        ensures
            match r {
                Some(x) => front_of(self.elems()) == Some(*x),
                None => front_of(self.elems()) is None,
            },
    {
        if self.arr.len() == 0 {
            None
        } else {
            Some(&self.arr[0])
        }
    }

    /// Appends `item` at the last position and sifts it up until it no
    /// longer compares strictly past its parent.
    pub fn insert(&mut self, item: T)
        ensures
            final(self).kind() == old(self).kind(),
            final(self).elems().len() == old(self).elems().len() + 1,
            final(self).elems().to_multiset() == old(self).elems().to_multiset().insert(item),
            T::obeys_partial_cmp_spec() ==> final(self).elems() == sift_up_from(
                old(self).kind(),
                old(self).elems().push(item),
                old(self).elems().len() as int,
            ),
    {
        self.arr.push(item);
        proof {
            broadcast use vstd::seq_lib::group_to_multiset_ensures;

            assert(old(self).elems().push(item).to_multiset() == old(
                self,
            ).elems().to_multiset().insert(item));
        }
        self.heapify_up();
    }

    /// Detaches and returns the root, or `None` on an empty heap.
    ///
    /// The last element is exchanged with the root, the last position is
    /// popped, and the new root is sifted down. A step of that sift inspects
    /// a node only when both of its children exist.
    pub fn remove(&mut self) -> (r: Option<T>)
        ensures
            final(self).kind() == old(self).kind(),
            r == front_of(old(self).elems()),
            old(self).elems().len() == 0 ==> final(self).elems() == old(self).elems(),
            old(self).elems().len() > 0 ==> {
                &&& final(self).elems().len() == old(self).elems().len() - 1
                &&& final(self).elems().to_multiset() == old(self).elems().to_multiset().remove(
                    old(self).elems()[0],
                )
                &&& T::obeys_partial_cmp_spec() ==> final(self).elems() == sift_down_from(
                    old(self).kind(),
                    removed_shape(old(self).elems()),
                    0,
                )
            },
    {
        let length: usize = self.arr.len();
        if length < 1 {
            return None;
        }

        let ghost s0 = self.arr@;
        let removed_item = self.arr.swap_remove(0);
        proof {
            assert(self.arr@ == removed_shape(s0));
            lemma_removed_shape_multiset(s0);
        }
        self.heapify_down();
        Some(removed_item)
    }

    /// Walks the freshly appended last element upward, exchanging it with
    /// its parent while the pair strictly violates the orientation's order.
    fn heapify_up(&mut self)
        requires
            old(self).elems().len() >= 1,
        ensures
            final(self).kind() == old(self).kind(),
            final(self).elems().len() == old(self).elems().len(),
            final(self).elems().to_multiset() == old(self).elems().to_multiset(),
            T::obeys_partial_cmp_spec() ==> final(self).elems() == sift_up_from(
                old(self).kind(),
                old(self).elems(),
                old(self).elems().len() - 1,
            ),
    {
        let ghost orig = self.arr@;
        let ghost t = self.typ;
        let mut idx: usize = self.arr.len() - 1;
        loop
            invariant
                self.typ == t,
                idx < self.arr@.len(),
                self.arr@.len() == orig.len(),
                self.arr@.to_multiset() == orig.to_multiset(),
                T::obeys_partial_cmp_spec() ==> sift_up_from(t, self.arr@, idx as int)
                    == sift_up_from(t, orig, orig.len() - 1),
            ensures
                self.typ == t,
                self.arr@.len() == orig.len(),
                self.arr@.to_multiset() == orig.to_multiset(),
                T::obeys_partial_cmp_spec() ==> self.arr@ == sift_up_from(t, orig, orig.len() - 1),
            decreases idx,
        {
            let ghost cur = self.arr@;
            match self.heapify_up_parent_idx(idx) {
                Some(parent_idx) => {
                    swap_in_vec(&mut self.arr, idx, parent_idx);
                    proof {
                        lemma_swapped_multiset(cur, idx as int, parent_idx as int);
                        assert(self.arr@ == swapped(cur, idx as int, parent_idx as int));
                        if T::obeys_partial_cmp_spec() {
                            assert(sift_up_from(t, cur, idx as int) == sift_up_from(
                                t,
                                swapped(cur, idx as int, parent_of(idx as int)),
                                parent_of(idx as int),
                            ));
                        }
                    }
                    idx = parent_idx;
                }
                None => {
                    proof {
                        if T::obeys_partial_cmp_spec() {
                            assert(sift_up_from(t, cur, idx as int) == cur);
                        }
                    }
                    break;
                }
            }
        }
    }

    /// Walks the root downward, exchanging it with the child that a
    /// sift-down step picks, until no step picks one.
    fn heapify_down(&mut self)
        ensures
            final(self).kind() == old(self).kind(),
            final(self).elems().len() == old(self).elems().len(),
            final(self).elems().to_multiset() == old(self).elems().to_multiset(),
            T::obeys_partial_cmp_spec() ==> final(self).elems() == sift_down_from(
                old(self).kind(),
                old(self).elems(),
                0,
            ),
    {
        let ghost orig = self.arr@;
        let ghost t = self.typ;
        let mut idx: usize = 0;
        loop
            invariant
                self.typ == t,
                idx <= self.arr@.len(),
                self.arr@.len() == orig.len(),
                self.arr@.to_multiset() == orig.to_multiset(),
                T::obeys_partial_cmp_spec() ==> sift_down_from(t, self.arr@, idx as int)
                    == sift_down_from(t, orig, 0),
            ensures
                self.typ == t,
                self.arr@.len() == orig.len(),
                self.arr@.to_multiset() == orig.to_multiset(),
                T::obeys_partial_cmp_spec() ==> self.arr@ == sift_down_from(t, orig, 0),
            decreases self.arr@.len() - idx,
        {
            let ghost cur = self.arr@;
            match self.heapify_down_child_idx(idx) {
                Some(child_idx) => {
                    swap_in_vec(&mut self.arr, idx, child_idx);
                    proof {
                        lemma_swapped_multiset(cur, idx as int, child_idx as int);
                        assert(self.arr@ == swapped(cur, idx as int, child_idx as int));
                        if T::obeys_partial_cmp_spec() {
                            assert(sift_down_from(t, cur, idx as int) == sift_down_from(
                                t,
                                swapped(cur, idx as int, child_idx as int),
                                child_idx as int,
                            ));
                        }
                    }
                    idx = child_idx;
                }
                None => {
                    proof {
                        if T::obeys_partial_cmp_spec() {
                            assert(sift_down_from(t, cur, idx as int) == cur);
                        }
                    }
                    break;
                }
            }
        }
    }

    /// Decides one sift-up step: the parent index to exchange with, when
    /// node `child_idx` has a parent and the pair strictly violates the
    /// orientation's order.
    fn heapify_up_parent_idx(&self, child_idx: usize) -> (r: Option<usize>)
        ensures
            match r {
                Some(p) => 1 <= child_idx && (child_idx as int) < self.elems().len() && p as int
                    == parent_of(child_idx as int),
                None => true,
            },
            T::obeys_partial_cmp_spec() ==> (r is Some <==> up_step_needed(
                self.kind(),
                self.elems(),
                child_idx as int,
            )),
    {
        if child_idx == 0 || child_idx >= self.arr.len() {
            return None;
        }
        let parent_idx: usize = (child_idx - 1) / 2;
        let child = &self.arr[child_idx];
        let parent = &self.arr[parent_idx];
        match self.typ {
            HeapType::Min => if child < parent {
                Some(parent_idx)
            } else {
                None
            },
            HeapType::Max => if child > parent {
                Some(parent_idx)
            } else {
                None
            },
        }
    }

    /// Decides one sift-down step: the child index to exchange with, when
    /// node `parent_idx` has both children and a child is picked under the
    /// orientation's order with its tie-break rule. With a child missing,
    /// no exchange is made.
    fn heapify_down_child_idx(&self, parent_idx: usize) -> (r: Option<usize>)
        ensures
            match r {
                Some(c) => parent_idx < c && (c as int) < self.elems().len(),
                None => true,
            },
            T::obeys_partial_cmp_spec() ==> match r {
                Some(c) => down_pick(self.kind(), self.elems(), parent_idx as int) == Some(
                    c as int,
                ),
                None => down_pick(self.kind(), self.elems(), parent_idx as int) is None,
            },
    {
        let len: usize = self.arr.len();
        if parent_idx >= len / 2 {
            return None;
        }
        let left_child_idx: usize = parent_idx * 2 + 1;
        let right_child_idx: usize = left_child_idx + 1;
        if right_child_idx >= len {
            return None;
        }
        let parent = &self.arr[parent_idx];
        let left_child = &self.arr[left_child_idx];
        let right_child = &self.arr[right_child_idx];
        match self.typ {
            HeapType::Min => if parent > left_child && left_child <= right_child {
                Some(left_child_idx)
            } else if parent > right_child && right_child <= left_child {
                Some(right_child_idx)
            } else {
                None
            },
            HeapType::Max => if parent < left_child && left_child >= right_child {
                Some(left_child_idx)
            } else if parent < right_child && right_child >= left_child {
                Some(right_child_idx)
            } else {
                None
            },
        }
    }
}

/// Relies on `<[T]>::swap`: exchanges the elements at the two indices; out
/// of range indices would panic, which the precondition rules out.
#[verifier::external_body]
fn swap_in_vec<T>(v: &mut Vec<T>, i: usize, j: usize)
    requires
        i < old(v)@.len(),
        j < old(v)@.len(),
    ensures
        final(v)@ == old(v)@.update(i as int, old(v)@[j as int]).update(
            j as int,
            old(v)@[i as int],
        ),
{
    v.swap(i, j)
}

/// Exchanging two elements leaves the multiset of a sequence unchanged.
pub proof fn lemma_swapped_multiset<T>(s: Seq<T>, i: int, j: int)
    requires
        0 <= i < s.len(),
        0 <= j < s.len(),
    ensures
        swapped(s, i, j).to_multiset() == s.to_multiset(),
{
    broadcast use vstd::seq_lib::group_to_multiset_ensures;
    broadcast use vstd::multiset::group_multiset_axioms;

    if i == j {
        assert(swapped(s, i, j) =~= s);
    } else {
        let u1 = s.update(i, s[j]);
        let u2 = u1.update(j, s[i]);
        assert(s.to_multiset().count(s[i]) > 0) by {
            assert(s.contains(s[i]));
        }
        assert(u1.to_multiset().count(s[j]) > 0) by {
            assert(u1[j] == s[j]);
            assert(u1.contains(s[j]));
        }
        assert(u1.to_multiset() == s.to_multiset().insert(s[j]).remove(s[i]));
        assert(u2.to_multiset() == u1.to_multiset().insert(s[i]).remove(u1[j]));
        assert(u1[j] == s[j]);
        assert(u2.to_multiset() =~= s.to_multiset());
    }
}

/// Moving the last element onto the root and dropping the last position
/// removes exactly one occurrence of the old root from the multiset.
pub proof fn lemma_removed_shape_multiset<T>(s: Seq<T>)
    requires
        s.len() >= 1,
    ensures
        removed_shape(s).to_multiset() == s.to_multiset().remove(s[0]),
{
    broadcast use vstd::seq_lib::group_to_multiset_ensures;
    broadcast use vstd::multiset::group_multiset_axioms;

    let u = s.update(0, s.last());
    assert(u.to_multiset() == s.to_multiset().insert(s.last()).remove(s[0]));
    assert(u.drop_last() =~= u.remove(s.len() - 1));
    assert(u.remove(s.len() - 1).to_multiset() == u.to_multiset().remove(u[s.len() - 1]));
    if s.len() == 1 {
        assert(u[s.len() - 1] == s.last());
        assert(removed_shape(s).to_multiset() =~= s.to_multiset().remove(s[0]));
    } else {
        assert(u[s.len() - 1] == s.last());
        assert(s.to_multiset().count(s[0]) > 0) by {
            assert(s.contains(s[0]));
        }
        assert(removed_shape(s).to_multiset() =~= s.to_multiset().remove(s[0]));
    }
}

} // verus!

//! The ordering laws of the heap.
//!
//! `PartialOrd` alone promises nothing about how a comparison behaves, so
//! every law here assumes `comparison_is_total` for the element type. Under
//! that assumption:
//!
//! - sifting up after an insertion keeps the heap property
//!   (`lemma_insert_keeps_heap`);
//! - sifting down after a removal keeps it at every pair except possibly at
//!   a lone left child in the last position
//!   (`lemma_remove_nearly_keeps_heap`) — sifting down inspects a node only
//!   when both children exist, so that one pair can stay unrepaired;
//! - in a heap with the heap property the root leads every element
//!   (`lemma_root_is_extreme`), and the element a removal detaches leads the
//!   root it leaves behind (`lemma_extraction_ordered`);
//! - a heap built by inserting any sequence satisfies the heap property
//!   (`lemma_build_keeps_heap`), and a drain along which every heap keeps
//!   the heap property yields the heap's full multiset in the orientation's
//!   order (`lemma_drain_yields_all`, `lemma_drain_ordered`).

use vstd::prelude::*;
use vstd::std_specs::cmp::PartialOrdSpec;

use crate::heap::HeapType;
use crate::heap::lemma_removed_shape_multiset;
use crate::heap::lemma_swapped_multiset;
use crate::model::down_pick;
use crate::model::heap_ok;
use crate::model::lemma_parent_of_bounds;
use crate::model::nearly_heap_ok;
use crate::model::pair_ok;
use crate::model::parent_of;
use crate::model::removed_shape;
use crate::model::sift_down_from;
use crate::model::sift_up_from;
use crate::model::swapped;
use crate::model::up_step_needed;
use crate::order::above_ok;
use crate::order::comparison_is_total;
use crate::order::ge_spec;
use crate::order::gt_spec;
use crate::order::le_spec;
use crate::order::leads;
use crate::order::lemma_above_ok_iff_leads;
use crate::order::lemma_flip;
use crate::order::lemma_le_lt_trans;
use crate::order::lemma_leads_refl;
use crate::order::lemma_leads_trans;
use crate::order::lemma_lt_le_trans;
use crate::order::lemma_violation_leads;
use crate::order::lt_spec;

verus! {

/// The state a sift-up walk keeps at node `j`: every pair away from `j`
/// already satisfies the heap property, and the parent of `j` stands above
/// the children of `j`.
pub open spec fn up_ready<T: PartialOrd>(t: HeapType, s: Seq<T>, j: int) -> bool {
    &&& forall|c: int| 1 <= c < s.len() && c != j ==> #[trigger] pair_ok(t, s, c)
    &&& j >= 1 ==> forall|c: int|
        1 <= c < s.len() && #[trigger] parent_of(c) == j ==> above_ok(t, s[parent_of(j)], s[c])
}

/// Sifting up from a node in the `up_ready` state restores the heap
/// property everywhere.
pub proof fn lemma_sift_up_from_preserves<T: PartialOrd>(t: HeapType, s: Seq<T>, j: int)
    requires
        comparison_is_total::<T>(),
        0 <= j < s.len(),
        up_ready(t, s, j),
    ensures
        heap_ok(t, sift_up_from(t, s, j)),
    decreases j,
{
    if up_step_needed(t, s, j) {
        let p: int = parent_of(j);
        lemma_parent_of_bounds(j);
        let s2 = swapped(s, j, p);
        lemma_violation_leads(t, s[p], s[j]);
        assert forall|c: int| 1 <= c < s2.len() && c != p implies pair_ok(t, s2, c) by {
            lemma_parent_of_bounds(c);
            if c == j {
                lemma_above_ok_iff_leads(t, s2[p], s2[j]);
            } else if parent_of(c) == j {
                assert(above_ok(t, s[parent_of(j)], s[c]));
                assert(s2[j] == s[p] && s2[c] == s[c]);
            } else if parent_of(c) == p {
                assert(pair_ok(t, s, c));
                lemma_above_ok_iff_leads(t, s[p], s[c]);
                lemma_leads_trans(t, s[j], s[p], s[c]);
                lemma_above_ok_iff_leads(t, s2[p], s2[c]);
            } else {
                assert(pair_ok(t, s, c));
                assert(s2[c] == s[c] && s2[parent_of(c)] == s[parent_of(c)]);
            }
        }
        if p >= 1 {
            let g: int = parent_of(p);
            lemma_parent_of_bounds(p);
            assert(pair_ok(t, s, p));
            assert forall|c: int| 1 <= c < s2.len() && parent_of(c) == p implies above_ok(
                t,
                s2[parent_of(p)],
                s2[c],
            ) by {
                lemma_parent_of_bounds(c);
                if c == j {
                    assert(s2[c] == s[p] && s2[g] == s[g]);
                } else {
                    assert(pair_ok(t, s, c));
                    lemma_above_ok_iff_leads(t, s[g], s[p]);
                    lemma_above_ok_iff_leads(t, s[p], s[c]);
                    lemma_leads_trans(t, s[g], s[p], s[c]);
                    lemma_above_ok_iff_leads(t, s[g], s[c]);
                }
            }
        }
        lemma_sift_up_from_preserves(t, s2, p);
        assert(sift_up_from(t, s, j) == sift_up_from(t, s2, p));
    } else {
        assert(sift_up_from(t, s, j) == s);
        assert forall|c: int| 1 <= c < s.len() implies pair_ok(t, s, c) by {
            if c == j {
                assert(above_ok(t, s[parent_of(j)], s[j]));
            }
        }
    }
}

/// Inserting into a heap with the heap property keeps the heap property:
/// the appended element is sifted up, and every pair of the result is in
/// order.
pub proof fn lemma_insert_keeps_heap<T: PartialOrd>(t: HeapType, s: Seq<T>, item: T)
    requires
        comparison_is_total::<T>(),
        heap_ok(t, s),
    ensures
        heap_ok(t, sift_up_from(t, s.push(item), s.len() as int)),
{
    let s1 = s.push(item);
    let j: int = s.len() as int;
    assert forall|c: int| 1 <= c < s1.len() && c != j implies pair_ok(t, s1, c) by {
        lemma_parent_of_bounds(c);
        assert(pair_ok(t, s, c));
        assert(s1[c] == s[c] && s1[parent_of(c)] == s[parent_of(c)]);
    }
    if j >= 1 {
        assert forall|c: int| 1 <= c < s1.len() && parent_of(c) == j implies above_ok(
            t,
            s1[parent_of(j)],
            s1[c],
        ) by {
            lemma_parent_of_bounds(c);
            assert(c >= 2 * j + 1 && c < s1.len());
            assert(false);
        }
    }
    lemma_sift_up_from_preserves(t, s1, j);
}

/// What a picked sift-down child satisfies: it is one of the two children
/// of `j`, and it leads its parent and both children of `j`.
proof fn lemma_down_pick_some<T: PartialOrd>(t: HeapType, s: Seq<T>, j: int, c: int)
    requires
        comparison_is_total::<T>(),
        down_pick(t, s, j) == Some(c),
    ensures
        0 <= j,
        2 * j + 2 < s.len(),
        c == 2 * j + 1 || c == 2 * j + 2,
        leads(t, s[c], s[j]),
        leads(t, s[c], s[2 * j + 1]),
        leads(t, s[c], s[2 * j + 2]),
{
    let l: int = 2 * j + 1;
    let r: int = 2 * j + 2;
    lemma_flip(s[j], s[l]);
    lemma_flip(s[l], s[j]);
    lemma_flip(s[j], s[r]);
    lemma_flip(s[r], s[j]);
    lemma_flip(s[l], s[r]);
    lemma_flip(s[r], s[l]);
    lemma_leads_refl(t, s[l]);
    lemma_leads_refl(t, s[r]);
}

/// When both children exist and no sift-down step is picked, neither child
/// violates the heap property against the parent.
proof fn lemma_down_pick_none_full<T: PartialOrd>(t: HeapType, s: Seq<T>, j: int)
    requires
        comparison_is_total::<T>(),
        0 <= j,
        2 * j + 2 < s.len(),
        down_pick(t, s, j) is None,
    ensures
        above_ok(t, s[j], s[2 * j + 1]),
        above_ok(t, s[j], s[2 * j + 2]),
{
    let l: int = 2 * j + 1;
    let r: int = 2 * j + 2;
    let lr = s[l].partial_cmp_spec(&s[r]);
    let rl = s[r].partial_cmp_spec(&s[l]);
    assert(lr is Some && rl is Some);
    match t {
        HeapType::Min => {
            if lt_spec(s[l], s[j]) {
                lemma_flip(s[j], s[l]);
                if le_spec(s[l], s[r]) {
                    assert(false);
                } else {
                    lemma_flip(s[l], s[r]);
                    assert(le_spec(s[r], s[l]));
                    lemma_le_lt_trans(s[r], s[l], s[j]);
                    lemma_flip(s[j], s[r]);
                    assert(false);
                }
            }
            if lt_spec(s[r], s[j]) {
                lemma_flip(s[j], s[r]);
                if le_spec(s[r], s[l]) {
                    assert(false);
                } else {
                    lemma_flip(s[r], s[l]);
                    assert(lt_spec(s[l], s[r]));
                    lemma_lt_le_trans(s[l], s[r], s[j]);
                    lemma_flip(s[j], s[l]);
                    assert(false);
                }
            }
        }
        HeapType::Max => {
            if gt_spec(s[l], s[j]) {
                lemma_flip(s[l], s[j]);
                if ge_spec(s[l], s[r]) {
                    assert(false);
                } else {
                    lemma_flip(s[r], s[l]);
                    assert(ge_spec(s[r], s[l]));
                    lemma_lt_le_trans(s[j], s[l], s[r]);
                    assert(false);
                }
            }
            if gt_spec(s[r], s[j]) {
                lemma_flip(s[r], s[j]);
                if ge_spec(s[r], s[l]) {
                    assert(false);
                } else {
                    lemma_flip(s[l], s[r]);
                    assert(ge_spec(s[l], s[r]));
                    lemma_lt_le_trans(s[j], s[r], s[l]);
                    assert(false);
                }
            }
        }
    }
}

/// The state a sift-down walk keeps at node `j`: every pair whose parent is
/// not `j` already satisfies the heap property, and the parent of `j`
/// stands above the children of `j`.
pub open spec fn down_ready<T: PartialOrd>(t: HeapType, s: Seq<T>, j: int) -> bool {
    &&& forall|c: int|
        1 <= c < s.len() && #[trigger] parent_of(c) != j ==> pair_ok(t, s, c)
    &&& j >= 1 ==> forall|c: int|
        1 <= c < s.len() && #[trigger] parent_of(c) == j ==> above_ok(t, s[parent_of(j)], s[c])
}

/// Sifting down from a node in the `down_ready` state restores the heap
/// property at every pair except possibly at a lone left child in the last
/// position, which no sift-down step inspects.
pub proof fn lemma_sift_down_from_nearly<T: PartialOrd>(t: HeapType, s: Seq<T>, j: int)
    requires
        comparison_is_total::<T>(),
        0 <= j <= s.len(),
        down_ready(t, s, j),
    ensures
        nearly_heap_ok(t, sift_down_from(t, s, j)),
    decreases s.len() - j,
{
    match down_pick(t, s, j) {
        Some(c) => {
            lemma_down_pick_some(t, s, j, c);
            let s2 = swapped(s, j, c);
            assert forall|x: int| 1 <= x < s2.len() && parent_of(x) != c implies pair_ok(
                t,
                s2,
                x,
            ) by {
                lemma_parent_of_bounds(x);
                if x == c {
                    lemma_above_ok_iff_leads(t, s2[j], s2[c]);
                } else if parent_of(x) == j {
                    lemma_above_ok_iff_leads(t, s2[j], s2[x]);
                } else if x == j {
                    assert(j >= 1);
                    lemma_parent_of_bounds(c);
                    assert(parent_of(c) == j);
                    assert(above_ok(t, s[parent_of(j)], s[c]));
                    assert(s2[parent_of(j)] == s[parent_of(j)] && s2[j] == s[c]);
                } else {
                    assert(pair_ok(t, s, x));
                    assert(s2[x] == s[x] && s2[parent_of(x)] == s[parent_of(x)]);
                }
            }
            assert forall|x: int| 1 <= x < s2.len() && parent_of(x) == c implies above_ok(
                t,
                s2[parent_of(c)],
                s2[x],
            ) by {
                lemma_parent_of_bounds(x);
                assert(pair_ok(t, s, x));
                assert(s2[x] == s[x] && s2[j] == s[c]);
                assert(parent_of(c) == j);
            }
            lemma_sift_down_from_nearly(t, s2, c);
            assert(sift_down_from(t, s, j) == sift_down_from(t, s2, c));
        }
        None => {
            assert(sift_down_from(t, s, j) == s);
            assert forall|x: int|
                1 <= x < s.len() && !(x == s.len() - 1 && x % 2 == 1) implies pair_ok(t, s, x) by {
                lemma_parent_of_bounds(x);
                if parent_of(x) == j {
                    if 2 * j + 2 < s.len() {
                        lemma_down_pick_none_full(t, s, j);
                    } else {
                        assert(x == 2 * j + 1 && x == s.len() - 1);
                        assert(false);
                    }
                }
            }
        }
    }
}

/// Removing the root of a heap with the heap property keeps the property at
/// every pair except possibly at a lone left child in the last position.
pub proof fn lemma_remove_nearly_keeps_heap<T: PartialOrd>(t: HeapType, s: Seq<T>)
    requires
        comparison_is_total::<T>(),
        heap_ok(t, s),
        s.len() >= 1,
    ensures
        nearly_heap_ok(t, sift_down_from(t, removed_shape(s), 0)),
{
    let s1 = removed_shape(s);
    assert forall|c: int| 1 <= c < s1.len() && parent_of(c) != 0 implies pair_ok(t, s1, c) by {
        lemma_parent_of_bounds(c);
        assert(pair_ok(t, s, c));
        assert(s1[c] == s[c] && s1[parent_of(c)] == s[parent_of(c)]);
    }
    lemma_sift_down_from_nearly(t, s1, 0);
}

/// A sequence that satisfies the heap property everywhere except possibly
/// at a lone left child in the last position satisfies it everywhere when
/// its length is odd, for then the last position is no left child.
pub proof fn lemma_nearly_heap_ok_odd<T: PartialOrd>(t: HeapType, s: Seq<T>)
    requires
        nearly_heap_ok(t, s),
        s.len() % 2 == 1,
    ensures
        heap_ok(t, s),
{
    assert forall|i: int| 1 <= i < s.len() implies pair_ok(t, s, i) by {
        assert(!(i == s.len() - 1 && i % 2 == 1));
    }
}

/// In a heap with the heap property, the root leads the element at any
/// index: it is the extreme element of the heap's orientation.
pub proof fn lemma_root_leads<T: PartialOrd>(t: HeapType, s: Seq<T>, i: int)
    requires
        comparison_is_total::<T>(),
        heap_ok(t, s),
        0 <= i < s.len(),
    ensures
        leads(t, s[0], s[i]),
    decreases i,
{
    if i == 0 {
        lemma_leads_refl(t, s[0]);
    } else {
        let p: int = parent_of(i);
        lemma_parent_of_bounds(i);
        assert(pair_ok(t, s, i));
        lemma_above_ok_iff_leads(t, s[p], s[i]);
        lemma_root_leads(t, s, p);
        lemma_leads_trans(t, s[0], s[p], s[i]);
    }
}

/// In a heap with the heap property, the root leads every element.
pub proof fn lemma_root_is_extreme<T: PartialOrd>(t: HeapType, s: Seq<T>)
    requires
        comparison_is_total::<T>(),
        heap_ok(t, s),
    ensures
        forall|i: int| 0 <= i < s.len() ==> leads(t, s[0], #[trigger] s[i]),
{
    assert forall|i: int| 0 <= i < s.len() implies leads(t, s[0], s[i]) by {
        lemma_root_leads(t, s, i);
    }
}

/// Sifting down rearranges the sequence: its length and its multiset of
/// elements stay as they were.
pub proof fn lemma_sift_down_from_preserves_elems<T: PartialOrd>(t: HeapType, s: Seq<T>, j: int)
    ensures
        sift_down_from(t, s, j).len() == s.len(),
        sift_down_from(t, s, j).to_multiset() == s.to_multiset(),
    decreases s.len() - j,
{
    match down_pick(t, s, j) {
        Some(c) => {
            let s2 = swapped(s, j, c);
            lemma_swapped_multiset(s, j, c);
            lemma_sift_down_from_preserves_elems(t, s2, c);
        }
        None => {
        }
    }
}

/// The element a removal detaches leads the root it leaves behind: under
/// the heap property, successive removals come out in the orientation's
/// order.
pub proof fn lemma_extraction_ordered<T: PartialOrd>(t: HeapType, s: Seq<T>)
    requires
        comparison_is_total::<T>(),
        heap_ok(t, s),
        s.len() >= 2,
    ensures
        leads(t, s[0], sift_down_from(t, removed_shape(s), 0)[0]),
{
    broadcast use vstd::seq_lib::group_to_multiset_ensures;
    broadcast use vstd::multiset::group_multiset_axioms;

    let s1 = removed_shape(s);
    let s2 = sift_down_from(t, s1, 0);
    lemma_sift_down_from_preserves_elems(t, s1, 0);
    assert(s2.contains(s2[0]));
    assert(s2.to_multiset().count(s2[0]) > 0);
    assert(s1.contains(s2[0]));
    let k: int = choose|k: int| 0 <= k < s1.len() && s1[k] == s2[0];
    if k == 0 {
        assert(s1[0] == s[s.len() - 1]);
        lemma_root_leads(t, s, s.len() - 1);
    } else {
        assert(s1[k] == s[k]);
        lemma_root_leads(t, s, k);
    }
}

/// The backing sequence of the heap that inserting `items` one at a time
/// into a freshly built heap produces: each element is appended and sifted
/// up.
pub open spec fn built_spec<T: PartialOrd>(t: HeapType, items: Seq<T>) -> Seq<T>
    decreases items.len(),
{
    if items.len() == 0 {
        Seq::empty()
    } else {
        let grown = built_spec(t, items.drop_last()).push(items.last());
        sift_up_from(t, grown, grown.len() - 1)
    }
}

/// Building keeps one element per insertion: the backing sequence of a
/// built heap is as long as the inserted sequence.
pub proof fn lemma_built_len<T: PartialOrd>(t: HeapType, items: Seq<T>)
    ensures
        built_spec(t, items).len() == items.len(),
    decreases items.len(),
{
    if items.len() > 0 {
        lemma_built_len(t, items.drop_last());
        let grown = built_spec(t, items.drop_last()).push(items.last());
        lemma_sift_up_from_preserves_len(t, grown, grown.len() - 1);
    }
}

/// Sifting up rearranges the sequence without changing its length.
pub proof fn lemma_sift_up_from_preserves_len<T: PartialOrd>(t: HeapType, s: Seq<T>, j: int)
    ensures
        sift_up_from(t, s, j).len() == s.len(),
    decreases (if j >= 0 {
        j
    } else {
        0
    }),
{
    if up_step_needed(t, s, j) {
        lemma_sift_up_from_preserves_len(t, swapped(s, j, parent_of(j)), parent_of(j));
    }
}

/// A heap built by inserting any sequence of elements satisfies the heap
/// property: every insertion of the build preserves it.
pub proof fn lemma_build_keeps_heap<T: PartialOrd>(t: HeapType, items: Seq<T>)
    requires
        comparison_is_total::<T>(),
    ensures
        heap_ok(t, built_spec(t, items)),
    decreases items.len(),
{
    if items.len() > 0 {
        let prev = built_spec(t, items.drop_last());
        lemma_build_keeps_heap(t, items.drop_last());
        lemma_built_len(t, items.drop_last());
        lemma_insert_keeps_heap(t, prev, items.last());
    }
}

/// The sequence of elements that draining a heap with these elements
/// yields: the root, then whatever draining the heap that one removal
/// leaves behind yields.
pub open spec fn drain_spec<T: PartialOrd>(t: HeapType, s: Seq<T>) -> Seq<T>
    decreases s.len(),
    via drain_spec_decreases::<T>
{
    if s.len() == 0 {
        Seq::empty()
    } else {
        seq![s[0]] + drain_spec(t, sift_down_from(t, removed_shape(s), 0))
    }
}

#[via_fn]
proof fn drain_spec_decreases<T: PartialOrd>(t: HeapType, s: Seq<T>) {
    if s.len() > 0 {
        lemma_sift_down_from_preserves_elems(t, removed_shape(s), 0);
    }
}

/// Every heap that a drain passes through satisfies the heap property: no
/// removal of the drain runs into the lone-left-child gap of sift-down.
pub open spec fn drains_cleanly<T: PartialOrd>(t: HeapType, s: Seq<T>) -> bool
    decreases s.len(),
    via drains_cleanly_decreases::<T>
{
    s.len() == 0 || (heap_ok(t, s) && drains_cleanly(
        t,
        sift_down_from(t, removed_shape(s), 0),
    ))
}

#[via_fn]
proof fn drains_cleanly_decreases<T: PartialOrd>(t: HeapType, s: Seq<T>) {
    if s.len() > 0 {
        lemma_sift_down_from_preserves_elems(t, removed_shape(s), 0);
    }
}

/// Each element of the run leads the next one: the run is ordered in the
/// orientation's sense.
pub open spec fn ordered_run<T: PartialOrd>(t: HeapType, q: Seq<T>) -> bool {
    forall|i: int| 0 <= i < q.len() - 1 ==> leads(t, q[i], #[trigger] q[i + 1])
}

/// Draining yields the full multiset of the heap: every element comes out
/// exactly as often as it sat in the heap, whatever the comparisons did.
pub proof fn lemma_drain_yields_all<T: PartialOrd>(t: HeapType, s: Seq<T>)
    ensures
        drain_spec(t, s).len() == s.len(),
        drain_spec(t, s).to_multiset() == s.to_multiset(),
    decreases s.len(),
{
    broadcast use vstd::seq_lib::group_to_multiset_ensures;
    broadcast use vstd::multiset::group_multiset_axioms;

    if s.len() > 0 {
        let s1 = removed_shape(s);
        let s2 = sift_down_from(t, s1, 0);
        let d = drain_spec(t, s2);
        lemma_sift_down_from_preserves_elems(t, s1, 0);
        lemma_removed_shape_multiset(s);
        lemma_drain_yields_all(t, s2);
        vstd::seq_lib::lemma_multiset_commutative(seq![s[0]], d);
        assert(seq![s[0]] =~= Seq::empty().push(s[0]));
        assert(seq![s[0]].to_multiset() == Seq::<T>::empty().to_multiset().insert(s[0]));
        assert(s.to_multiset().count(s[0]) > 0) by {
            assert(s.contains(s[0]));
        }
        assert(drain_spec(t, s).to_multiset() =~= s.to_multiset());
    }
}

/// A clean drain comes out in order: when every heap along the drain
/// satisfies the heap property, each drained element leads the next one.
///
/// Inserting `1`, `2`, `3` into a freshly built `Min` heap and draining it
/// does not drain cleanly — the first removal leaves a lone left child
/// unrepaired — and its drain is indeed out of order, so the hypothesis
/// cannot be dropped.
pub proof fn lemma_drain_ordered<T: PartialOrd>(t: HeapType, s: Seq<T>)
    requires
        comparison_is_total::<T>(),
        drains_cleanly(t, s),
    ensures
        ordered_run(t, drain_spec(t, s)),
    decreases s.len(),
{
    if s.len() > 0 {
        let s1 = removed_shape(s);
        let s2 = sift_down_from(t, s1, 0);
        let d = drain_spec(t, s2);
        lemma_sift_down_from_preserves_elems(t, s1, 0);
        lemma_drain_yields_all(t, s2);
        lemma_drain_ordered(t, s2);
        let q = drain_spec(t, s);
        assert(q == seq![s[0]] + d);
        assert forall|i: int| 0 <= i < q.len() - 1 implies leads(t, q[i], #[trigger] q[i + 1]) by {
            if i == 0 {
                assert(s.len() >= 2);
                lemma_extraction_ordered(t, s);
                assert(q[1] == d[0] && d[0] == s2[0]);
            } else {
                let k: int = i - 1;
                assert(q[i] == d[k] && q[i + 1] == d[k + 1]);
                assert(leads(t, d[k], d[k + 1]));
            }
        }
    }
}

} // verus!

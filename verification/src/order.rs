//! Spec-level vocabulary for element comparisons.
//!
//! The heap is generic over `T: PartialOrd`. In contracts, what an exec
//! comparison returns is expressed through `partial_cmp_spec`, the
//! specification that `vstd` attaches to `PartialOrd`. This module names the
//! four comparison outcomes, the orientation-aware relations the heap
//! contracts use, and the assumptions (`comparison_is_total`) under which the
//! ordering laws of the heap are proved.

use vstd::prelude::*;
use vstd::std_specs::cmp::PartialOrdSpec;

use crate::heap::HeapType;

verus! {

/// `a` compares strictly below `b`.
pub open spec fn lt_spec<T: PartialOrd>(a: T, b: T) -> bool {
    a.partial_cmp_spec(&b) == Some(core::cmp::Ordering::Less)
}

/// `a` compares strictly above `b`.
pub open spec fn gt_spec<T: PartialOrd>(a: T, b: T) -> bool {
    a.partial_cmp_spec(&b) == Some(core::cmp::Ordering::Greater)
}

/// `a` compares below or equal to `b`.
pub open spec fn le_spec<T: PartialOrd>(a: T, b: T) -> bool {
    a.partial_cmp_spec(&b) matches Some(core::cmp::Ordering::Less | core::cmp::Ordering::Equal)
}

/// `a` compares above or equal to `b`.
pub open spec fn ge_spec<T: PartialOrd>(a: T, b: T) -> bool {
    a.partial_cmp_spec(&b) matches Some(core::cmp::Ordering::Greater | core::cmp::Ordering::Equal)
}

/// The comparison on `T` behaves as a total order: every pair is comparable,
/// the two directions of a comparison agree, and `le` is transitive.
///
/// `PartialOrd` alone promises none of this, so the laws that need it take it
/// as a hypothesis.
pub open spec fn comparison_is_total<T: PartialOrd>() -> bool {
    &&& forall|a: T, b: T| (#[trigger] a.partial_cmp_spec(&b)) is Some
    &&& forall|a: T, b: T|
        ((#[trigger] a.partial_cmp_spec(&b)) == Some(core::cmp::Ordering::Less)) <==> b.partial_cmp_spec(
            &a,
        ) == Some(core::cmp::Ordering::Greater)
    &&& forall|a: T, b: T, c: T|
        #[trigger] le_spec(a, b) && #[trigger] le_spec(b, c) ==> le_spec(a, c)
}

/// `a` may stand at or above `b` in a heap of orientation `t`: the pair does
/// not violate the heap property. An incomparable pair never violates it.
pub open spec fn above_ok<T: PartialOrd>(t: HeapType, a: T, b: T) -> bool {
    match t {
        HeapType::Min => !lt_spec(b, a),
        HeapType::Max => !gt_spec(b, a),
    }
}

/// `a` comes no later than `b` in the extraction order of orientation `t`.
pub open spec fn leads<T: PartialOrd>(t: HeapType, a: T, b: T) -> bool {
    match t {
        HeapType::Min => le_spec(a, b),
        HeapType::Max => ge_spec(a, b),
    }
}

/// Under a total comparison, every value leads itself.
pub proof fn lemma_leads_refl<T: PartialOrd>(t: HeapType, a: T)
    requires
        comparison_is_total::<T>(),
    ensures
        leads(t, a, a),
{
    let aa = a.partial_cmp_spec(&a);
    assert(aa is Some);
    assert(aa == Some(core::cmp::Ordering::Less) <==> aa == Some(core::cmp::Ordering::Greater));
}

/// Under a total comparison, a pair that does not violate the heap property
/// is ordered: the upper element leads the lower one, and conversely.
pub proof fn lemma_above_ok_iff_leads<T: PartialOrd>(t: HeapType, a: T, b: T)
    requires
        comparison_is_total::<T>(),
    ensures
        above_ok(t, a, b) <==> leads(t, a, b),
{
    let ab = a.partial_cmp_spec(&b);
    let ba = b.partial_cmp_spec(&a);
    assert(ab is Some);
    assert(ba is Some);
}

/// A violating pair is ordered the other way round: the lower element leads
/// the upper one. This needs no assumption; it is how a strict violation
/// reads.
pub proof fn lemma_violation_leads<T: PartialOrd>(t: HeapType, a: T, b: T)
    requires
        !above_ok(t, a, b),
    ensures
        leads(t, b, a),
{
}

/// Under a total comparison, the two directions of a strict or non-strict
/// comparison agree.
pub proof fn lemma_flip<T: PartialOrd>(a: T, b: T)
    requires
        comparison_is_total::<T>(),
    ensures
        gt_spec(a, b) <==> lt_spec(b, a),
        ge_spec(a, b) <==> le_spec(b, a),
{
    let ab = a.partial_cmp_spec(&b);
    let ba = b.partial_cmp_spec(&a);
    assert(ab is Some);
    assert(ba is Some);
}

/// Under a total comparison, `le` followed by a strict `lt` is strict.
pub proof fn lemma_le_lt_trans<T: PartialOrd>(a: T, b: T, c: T)
    requires
        comparison_is_total::<T>(),
        le_spec(a, b),
        lt_spec(b, c),
    ensures
        lt_spec(a, c),
{
    let ab = a.partial_cmp_spec(&b);
    let ba = b.partial_cmp_spec(&a);
    let bc = b.partial_cmp_spec(&c);
    let cb = c.partial_cmp_spec(&b);
    let ac = a.partial_cmp_spec(&c);
    let ca = c.partial_cmp_spec(&a);
    assert(ab is Some && ba is Some && bc is Some && cb is Some && ac is Some && ca is Some);
    if !lt_spec(a, c) {
        assert(le_spec(c, a));
        assert(le_spec(c, a) && le_spec(a, b) ==> le_spec(c, b));
        assert(false);
    }
}

/// Under a total comparison, a strict `lt` followed by `le` is strict.
pub proof fn lemma_lt_le_trans<T: PartialOrd>(a: T, b: T, c: T)
    requires
        comparison_is_total::<T>(),
        lt_spec(a, b),
        le_spec(b, c),
    ensures
        lt_spec(a, c),
{
    let ab = a.partial_cmp_spec(&b);
    let ba = b.partial_cmp_spec(&a);
    let bc = b.partial_cmp_spec(&c);
    let cb = c.partial_cmp_spec(&b);
    let ac = a.partial_cmp_spec(&c);
    let ca = c.partial_cmp_spec(&a);
    assert(ab is Some && ba is Some && bc is Some && cb is Some && ac is Some && ca is Some);
    if !lt_spec(a, c) {
        assert(le_spec(c, a));
        assert(le_spec(b, c) && le_spec(c, a) ==> le_spec(b, a));
        assert(false);
    }
}

/// `leads` is transitive under a total comparison.
pub proof fn lemma_leads_trans<T: PartialOrd>(t: HeapType, a: T, b: T, c: T)
    requires
        comparison_is_total::<T>(),
        leads(t, a, b),
        leads(t, b, c),
    ensures
        leads(t, a, c),
{
    match t {
        HeapType::Min => {
            assert(le_spec(a, b) && le_spec(b, c) ==> le_spec(a, c));
        }
        HeapType::Max => {
            let ab = a.partial_cmp_spec(&b);
            let ba = b.partial_cmp_spec(&a);
            let bc = b.partial_cmp_spec(&c);
            let cb = c.partial_cmp_spec(&b);
            let ca = c.partial_cmp_spec(&a);
            let ac = a.partial_cmp_spec(&c);
            assert(ab is Some && ba is Some && bc is Some && cb is Some && ca is Some
                && ac is Some);
            assert(le_spec(c, b) && le_spec(b, a) ==> le_spec(c, a));
        }
    }
}

} // verus!

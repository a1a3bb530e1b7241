//! Frontiers: antichains of timestamps, as provided by `timely`.
//!
//! The antichain itself is not rebuilt here. The functions of this module
//! call into `timely` and state, over the sequence of elements an antichain
//! holds, what those calls return.

use timely::progress::Antichain;
use timely::PartialOrder;
use vstd::prelude::*;

verus! {
/// The antichain of `timely`, taken as it is: what it holds is known only
/// through the functions below.
#[verifier::external_type_specification]
#[verifier::external_body]
#[verifier::reject_recursive_types(T)]
pub struct ExAntichain<T>(Antichain<T>);

/// The elements that a frontier holds, in the order in which `timely` stores them.
pub uninterp spec fn frontier_elements(frontier: Antichain<u64>) -> Seq<u64>;

/// Some element of `a` is at or before `time`.
pub open spec fn reaches(a: Seq<u64>, time: u64) -> bool {
    exists|i: int| 0 <= i < a.len() && #[trigger] a[i] <= time
}

/// Every element of `b` is at or after some element of `a`.
pub open spec fn less_equal(a: Seq<u64>, b: Seq<u64>) -> bool {
    forall|j: int| 0 <= j < b.len() ==> reaches(a, #[trigger] b[j])
}

/// `a` and `b` hold the same elements, possibly in another order.
pub open spec fn same_frontier(a: Seq<u64>, b: Seq<u64>) -> bool {
    a.len() == b.len() && forall|i: int| 0 <= i < a.len() ==> b.contains(#[trigger] a[i])
}

/// `a` is before `b` in the order on frontiers, and differs from it.
pub open spec fn less_than(a: Seq<u64>, b: Seq<u64>) -> bool {
    less_equal(a, b) && !same_frontier(a, b)
}

/// `Antichain::new`: the frontier without elements.
#[verifier::external_body]
pub(crate) fn frontier_empty() -> (frontier: Antichain<u64>)
    ensures
        frontier_elements(frontier) == Seq::<u64>::empty(),
{
    Antichain::new()
}

/// `Antichain::from_elem`: the frontier that holds `time` alone.
#[verifier::external_body]
pub(crate) fn frontier_from_elem(time: u64) -> (frontier: Antichain<u64>)
    ensures
        frontier_elements(frontier) == seq![time],
{
    Antichain::from_elem(time)
}

/// `Clone::clone` of an antichain: a frontier with the same elements in the same order.
#[verifier::external_body]
pub(crate) fn frontier_clone(frontier: &Antichain<u64>) -> (copy: Antichain<u64>)
    ensures
        frontier_elements(copy) == frontier_elements(*frontier),
{
    frontier.clone()
}

/// `Antichain::elements`: the elements as a vector.
#[verifier::external_body]
pub(crate) fn frontier_to_vec(frontier: &Antichain<u64>) -> (elements: Vec<u64>)
    ensures
        elements@ == frontier_elements(*frontier),
{
    frontier.elements().to_vec()
}

/// `PartialOrder::less_than` on the borrowed antichains: `a.less_equal(b)`
/// and `a != b`, where equality disregards the order of the elements.
#[verifier::external_body]
pub(crate) fn frontier_less_than(a: &Antichain<u64>, b: &Antichain<u64>) -> (before: bool)
    ensures
        before == less_than(frontier_elements(*a), frontier_elements(*b)),
{
    PartialOrder::less_than(&a.borrow(), &b.borrow())
}

/// `is_empty` of the slice of elements that an antichain derefs to.
#[verifier::external_body]
pub(crate) fn frontier_is_empty(frontier: &Antichain<u64>) -> (empty: bool)
    ensures
        empty == (frontier_elements(*frontier).len() == 0),
{
    frontier.is_empty()
}

/// The elements that a frontier of signed times holds, in the order in which `timely` stores them.
pub uninterp spec fn time_elements(frontier: Antichain<i64>) -> Seq<i64>;

/// Some element of `a` is at or before `time`.
pub open spec fn times_reach(a: Seq<i64>, time: i64) -> bool {
    exists|i: int| 0 <= i < a.len() && #[trigger] a[i] <= time
}

/// Every element of `b` is at or after some element of `a`.
pub open spec fn times_less_equal(a: Seq<i64>, b: Seq<i64>) -> bool {
    forall|j: int| 0 <= j < b.len() ==> times_reach(a, #[trigger] b[j])
}

/// `Antichain::from_elem`: the frontier that holds `time` alone.
#[verifier::external_body]
pub(crate) fn times_from_elem(time: i64) -> (frontier: Antichain<i64>)
    ensures
        time_elements(frontier) == seq![time],
{
    Antichain::from_elem(time)
}

/// `Antichain::elements`: the elements as a vector.
#[verifier::external_body]
pub(crate) fn times_to_vec(frontier: &Antichain<i64>) -> (elements: Vec<i64>)
    ensures
        elements@ == time_elements(*frontier),
{
    frontier.elements().to_vec()
}

/// `PartialOrder::less_equal` on antichains: every element of `b` is at or
/// after some element of `a`.
#[verifier::external_body]
pub(crate) fn times_frontier_less_equal(a: &Antichain<i64>, b: &Antichain<i64>) -> (before: bool)
    ensures
        before == times_less_equal(time_elements(*a), time_elements(*b)),
{
    PartialOrder::less_equal(a, b)
}
} // verus!

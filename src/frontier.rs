//! The search frontier: a priority queue of `priority_queue`, in which the
//! item with the least cost comes out first.
use std::cmp::Reverse;

use priority_queue::PriorityQueue;
use vstd::prelude::*;

verus! {

#[verifier::external_type_specification]
#[verifier::external_body]
#[verifier::reject_recursive_types(I)]
#[verifier::reject_recursive_types(P)]
#[verifier::reject_recursive_types(H)]
pub struct ExPriorityQueue<I, P, H>(PriorityQueue<I, P, H>);

#[verifier::external_type_specification]
#[verifier::external_body]
#[verifier::reject_recursive_types(T)]
pub struct ExReverse<T>(Reverse<T>);

/// A queue of block coordinates keyed by estimated cost.
pub type Frontier = PriorityQueue<(i32, i32, i32), Reverse<u64>>;

/// Block coordinates with their costs.
pub type Entries = Map<(i32, i32, i32), u64>;

/// The items of a frontier, each with its cost.
pub uninterp spec fn frontier_entries(q: Frontier) -> Map<(i32, i32, i32), u64>;

/// Relies on `PriorityQueue::new`: the queue starts empty.
#[verifier::external_body]
pub(crate) fn frontier_new() -> (r: Frontier)
    ensures
        frontier_entries(r) == Entries::empty(),
{
    PriorityQueue::new()
}

/// Relies on `PriorityQueue::push`: an item already in the queue has its
/// priority replaced, any other item is added with the priority given.
#[verifier::external_body]
pub(crate) fn frontier_push(q: &mut Frontier, item: (i32, i32, i32), cost: u64)
    ensures
        frontier_entries(*final(q)) == frontier_entries(*old(q)).insert(item, cost),
{
    q.push(item, Reverse(cost));
}

/// Relies on `PriorityQueue::pop`: it removes and returns an item of
/// greatest priority, which under `Reverse` is one of least cost, and
/// returns `None` on an empty queue.
#[verifier::external_body]
pub(crate) fn frontier_pop(q: &mut Frontier) -> (r: Option<((i32, i32, i32), u64)>)
    ensures
        match r {
            None => {
                &&& frontier_entries(*old(q)) == Entries::empty()
                &&& frontier_entries(*final(q)) == frontier_entries(*old(q))
            },
            Some((item, cost)) => {
                &&& frontier_entries(*old(q)).contains_key(item)
                &&& frontier_entries(*old(q))[item] == cost
                &&& forall|k: (i32, i32, i32)| #[trigger]
                    frontier_entries(*old(q)).contains_key(k) ==> cost <= frontier_entries(
                        *old(q),
                    )[k]
                &&& frontier_entries(*final(q)) == frontier_entries(*old(q)).remove(item)
            },
        },
{
    q.pop().map(|(item, cost)| (item, cost.0))
}

} // verus!

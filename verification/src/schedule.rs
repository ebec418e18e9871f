//! The order of the runs. Runs are queued project by project and benchmark
//! by benchmark; before any of them starts the queue is put into a random
//! order, once, so that what a measurement owes to its place in the sequence
//! is not owed to its project.

use vstd::prelude::*;
use rand::seq::SliceRandom;

verus! {

/// `rand::seq::SliceRandom::shuffle` on the items of `items`, with the
/// thread's own generator. The call only exchanges items, so whatever order
/// comes back holds each item as often as before; the order itself is left
/// to chance and nothing is said of it.
#[verifier::external_body]
fn shuffle_items<T>(items: &mut Vec<T>)
    ensures
        final(items)@.to_multiset() == old(items)@.to_multiset(),
{
    items.shuffle(&mut rand::thread_rng());
}

/// Puts `items` into a random order: afterwards `items` holds the same items,
/// each as often as before.
pub fn shuffle<T>(items: &mut Vec<T>)
    ensures
        final(items)@.to_multiset() == old(items)@.to_multiset(),
        final(items)@.len() == old(items)@.len(),
{
    shuffle_items(items);
    proof {
        items@.to_multiset_ensures();
        old(items)@.to_multiset_ensures();
    }
}

/// Every item of a shuffled queue was queued, and every queued item is in the
/// shuffled queue.
pub proof fn lemma_shuffle_keeps_items<T>(before: Seq<T>, after: Seq<T>, item: T)
    requires
        after.to_multiset() == before.to_multiset(),
    ensures
        after.contains(item) <==> before.contains(item),
        after.len() == before.len(),
{
    before.to_multiset_ensures();
    after.to_multiset_ensures();
    assert(before.contains(item) <==> before.to_multiset().count(item) > 0);
    assert(after.contains(item) <==> after.to_multiset().count(item) > 0);
}

} // verus!

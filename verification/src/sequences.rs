//! Facts about sequences that the proofs of this library share.

use vstd::prelude::*;

verus! {

/// Filtering a sequence with one more item: the item is kept if it passes.
pub proof fn lemma_filter_push<A>(items: Seq<A>, item: A, keep: spec_fn(A) -> bool)
    ensures
        items.push(item).filter(keep) == if keep(item) {
            items.filter(keep).push(item)
        } else {
            items.filter(keep)
        },
{
    reveal(Seq::filter);
    assert(items.push(item).drop_last() == items);
}

/// Nothing is kept of the empty sequence.
pub proof fn lemma_filter_empty<A>(keep: spec_fn(A) -> bool)
    ensures
        Seq::<A>::empty().filter(keep) == Seq::<A>::empty(),
{
    reveal(Seq::filter);
}

/// A prefix with one more item is the shorter prefix with that item pushed.
pub proof fn lemma_take_next<A>(items: Seq<A>, n: int)
    requires
        0 <= n < items.len(),
    ensures
        items.take(n + 1) == items.take(n).push(items[n]),
        items.take(n + 1).drop_last() == items.take(n),
        items.take(n + 1).last() == items[n],
{
}

/// The prefix of full length is the sequence.
pub proof fn lemma_take_all<A>(items: Seq<A>)
    ensures
        items.take(items.len() as int) == items,
{
}

} // verus!

//! Neighbours: the users most similar to a target user.

use crate::ranking::{first_items, kept, rank_items, ranking, Ranked};
use crate::score::Score;
use crate::sequences::{lemma_filter_empty, lemma_filter_push, lemma_take_all, lemma_take_next};
use vstd::prelude::*;

verus! {

/// The number of neighbours that a recommendation draws on by default.
pub const DEFAULT_NEIGHBORS: usize = 5;

/// How similar a user is to the target user.
#[derive(Clone, Copy, Debug, PartialEq, Eq, Structural)]
pub struct Similarity {
    pub user_id: u32,
    pub score: Score,
}

/// The more similar user comes first.
impl Ranked for Similarity {
    open spec fn precedes(self, other: Self) -> bool {
        self.score.rank() > other.score.rank()
    }

    proof fn lemma_strict_weak_order(a: Self, b: Self, c: Self) {
    }

    fn comes_before(&self, other: &Self) -> (before: bool) {
        self.score.exceeds(&other.score)
    }
}

/// The similarities of users other than `target`.
pub open spec fn not_user(target: u32) -> spec_fn(Similarity) -> bool {
    |s: Similarity| s.user_id != target
}

/// The users other than `target`, the most similar first; users of equal
/// similarity in the order in which they were given.
pub open spec fn similar_users(target: u32, similarities: Seq<Similarity>) -> Seq<Similarity> {
    ranking(similarities.filter(not_user(target)))
}

/// The `k` nearest neighbours of `target`: the first `k` of the similar users,
/// or all of them where there are fewer.
pub open spec fn neighbors_of(target: u32, similarities: Seq<Similarity>, k: usize) -> Seq<Similarity> {
    let ranked = similar_users(target, similarities);
    ranked.take(kept(ranked.len(), k))
}

/// Ranks the users other than `target` by similarity, the most similar first.
/// Users of equal similarity stay in the order in which they were given.
pub fn rank_similar_users(target: u32, similarities: &[Similarity]) -> (ranked: Vec<Similarity>)
    ensures
        ranked@ == similar_users(target, similarities@),
{
    let mut others: Vec<Similarity> = Vec::new();
    let mut next: usize = 0;
    proof {
        lemma_filter_empty(not_user(target));
    }
    while next < similarities.len()
        invariant
            next <= similarities.len(),
            others@ == similarities@.take(next as int).filter(not_user(target)),
        decreases similarities.len() - next,
    {
        proof {
            lemma_take_next(similarities@, next as int);
            lemma_filter_push(similarities@.take(next as int), similarities@[next as int], not_user(target));
        }
        if similarities[next].user_id != target {
            others.push(similarities[next]);
        }
        next += 1;
    }
    proof {
        lemma_take_all(similarities@);
    }
    rank_items(&others)
}

/// The `k` users most similar to `target`, the most similar first; fewer where
/// fewer other users exist.
pub fn nearest_neighbors(target: u32, similarities: &[Similarity], k: usize) -> (neighbors: Vec<Similarity>)
    ensures
        neighbors@ == neighbors_of(target, similarities@, k),
{
    let ranked = rank_similar_users(target, similarities);
    first_items(&ranked, k)
}

} // verus!

//! The movies that a user rated highest.

use crate::ranking::{first_items, kept, rank_items, ranking, Ranked};
use crate::rating::{by_user, ratings_of, Rating};
use crate::score::Score;
use vstd::prelude::*;

verus! {

/// A user's favourites come first: the higher score, and of two equal scores
/// the more recent one.
impl Ranked for Rating {
    open spec fn precedes(self, other: Self) -> bool {
        self.rating.rank() > other.rating.rank() || (self.rating.rank() == other.rating.rank()
            && self.timestamp > other.timestamp)
    }

    proof fn lemma_strict_weak_order(a: Self, b: Self, c: Self) {
    }

    fn comes_before(&self, other: &Self) -> (before: bool) {
        self.rating.exceeds(&other.rating) || (self.rating.matches(&other.rating) && self.timestamp
            > other.timestamp)
    }
}

/// What a rating shows of itself in a list of favourites.
pub open spec fn shown(r: Rating) -> (u32, Score) {
    (r.movie_id, r.rating)
}

/// The `top_n` favourites of `user_id`: the user's ratings, ranked by score and
/// then by recency, cut to `top_n`, each as movie and score.
pub open spec fn top_rated(user_id: u32, ratings: Seq<Rating>, top_n: usize) -> Seq<(u32, Score)> {
    let ranked = ranking(ratings.filter(by_user(user_id)));
    ranked.take(kept(ranked.len(), top_n)).map_values(|r: Rating| shown(r))
}

/// The `top_n` movies that `user_id` rated highest, with their scores, the best
/// first. Equal scores are ordered by recency, the latest first; ratings equal
/// in both stay in the order of the table. A user without ratings has none.
pub fn top_movies(user_id: u32, ratings: &[Rating], top_n: usize) -> (top: Vec<(u32, Score)>)
    ensures
        top@ == top_rated(user_id, ratings@, top_n),
{
    let own = ratings_of(user_id, ratings);
    let ranked = rank_items(&own);
    let best = first_items(&ranked, top_n);
    let mut top: Vec<(u32, Score)> = Vec::new();
    let mut next: usize = 0;
    while next < best.len()
        invariant
            next <= best.len(),
            top@ == best@.take(next as int).map_values(|r: Rating| shown(r)),
        decreases best.len() - next,
    {
        top.push((best[next].movie_id, best[next].rating));
        proof {
            crate::sequences::lemma_take_next(best@, next as int);
            assert(top@ =~= best@.take(next + 1).map_values(|r: Rating| shown(r)));
        }
        next += 1;
    }
    proof {
        crate::sequences::lemma_take_all(best@);
    }
    top
}

} // verus!

//! Rating records.

use crate::score::Score;
use vstd::prelude::*;

verus! {

/// One rating: a user's score for a movie, and when it was given.
#[derive(Clone, Copy, Debug, PartialEq, Eq, Structural)]
pub struct Rating {
    pub user_id: u32,
    pub movie_id: u32,
    pub rating: Score,
    /// Unix seconds.
    pub timestamp: u64,
}

/// The ratings given by one user.
pub open spec fn by_user(user_id: u32) -> spec_fn(Rating) -> bool {
    |r: Rating| r.user_id == user_id
}

/// The ratings of `ratings` that `user_id` gave, in the order of the table.
pub fn ratings_of(user_id: u32, ratings: &[Rating]) -> (own: Vec<Rating>)
    ensures
        own@ == ratings@.filter(by_user(user_id)),
{
    let mut own: Vec<Rating> = Vec::new();
    let mut next: usize = 0;
    proof {
        crate::sequences::lemma_filter_empty(by_user(user_id));
    }
    while next < ratings.len()
        invariant
            next <= ratings.len(),
            own@ == ratings@.take(next as int).filter(by_user(user_id)),
        decreases ratings.len() - next,
    {
        proof {
            crate::sequences::lemma_take_next(ratings@, next as int);
            crate::sequences::lemma_filter_push(
                ratings@.take(next as int),
                ratings@[next as int],
                by_user(user_id),
            );
        }
        if ratings[next].user_id == user_id {
            own.push(ratings[next]);
        }
        next += 1;
    }
    proof {
        crate::sequences::lemma_take_all(ratings@);
    }
    own
}

} // verus!

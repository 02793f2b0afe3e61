//! Popularity: how many ratings each movie has received.

use crate::movie_index::{is_rated, lemma_is_rated_next};
use crate::rating::Rating;
use crate::sequences::{lemma_filter_push, lemma_take_all, lemma_take_next};
use std::collections::HashMap;
use vstd::prelude::*;

verus! {

broadcast use {vstd::std_specs::hash::group_hash_axioms, vstd::seq_lib::group_filter_ensures};

/// The ratings given to one movie.
pub open spec fn for_movie(movie_id: u32) -> spec_fn(Rating) -> bool {
    |r: Rating| r.movie_id == movie_id
}

/// The number of ratings that a movie has in the table.
pub open spec fn rating_count(ratings: Seq<Rating>, movie_id: u32) -> nat {
    ratings.filter(for_movie(movie_id)).len()
}

/// The popularity map of a table: each rated movie with its number of ratings.
pub open spec fn popularity_of(ratings: Seq<Rating>) -> Map<u32, usize> {
    Map::new(
        |movie_id: u32| is_rated(ratings, movie_id),
        |movie_id: u32| rating_count(ratings, movie_id) as usize,
    )
}

/// The popularity that a map gives a movie: its count, and 0 for a movie that
/// the map does not hold.
pub open spec fn popularity_in(popularity: Map<u32, usize>, movie_id: u32) -> usize {
    if popularity.contains_key(movie_id) {
        popularity[movie_id]
    } else {
        0
    }
}

/// Counts the ratings of each movie.
pub fn build_popularity_map(ratings: &[Rating]) -> (popularity: HashMap<u32, usize>)
    ensures
        popularity@ == popularity_of(ratings@),
{
    let mut popularity: HashMap<u32, usize> = HashMap::new();
    let mut next: usize = 0;
    proof {
        assert(popularity@ =~= popularity_of(ratings@.take(0)));
    }
    while next < ratings.len()
        invariant
            next <= ratings.len(),
            popularity@ == popularity_of(ratings@.take(next as int)),
        decreases ratings.len() - next,
    {
        let movie_id = ratings[next].movie_id;
        let ghost seen = ratings@.take(next as int);
        let ghost now = ratings@.take(next + 1);
        let ghost before = popularity@;
        proof {
            lemma_take_next(ratings@, next as int);
            lemma_is_rated_next(ratings@, next as int);
            assert forall|m: u32|
                rating_count(now, m) == rating_count(seen, m) + (if m == movie_id {
                    1nat
                } else {
                    0nat
                }) by {
                lemma_filter_push(seen, ratings@[next as int], for_movie(m));
            }
            assert(rating_count(seen, movie_id) <= next);
        }
        let count = match popularity.get(&movie_id) {
            Some(count) => *count,
            None => 0,
        };
        proof {
            if !before.contains_key(movie_id) {
                // No rating so far is for this movie, so none passes the filter.
                let kept = seen.filter(for_movie(movie_id));
                if kept.len() > 0 {
                    assert(for_movie(movie_id)(kept[0]));
                    assert(kept.contains(kept[0]));
                    seen.lemma_filter_contains_rev(for_movie(movie_id), kept[0]);
                    let k = choose|k: int| 0 <= k < seen.len() && seen[k] == kept[0];
                    assert(seen[k].movie_id == movie_id);
                }
            }
            assert(count == rating_count(seen, movie_id));
        }
        popularity.insert(movie_id, count + 1);
        proof {
            assert(popularity@ =~= popularity_of(now));
        }
        next += 1;
    }
    proof {
        lemma_take_all(ratings@);
    }
    popularity
}

/// The popularity of a movie: its count in the map, and 0 where the map does
/// not hold the movie.
pub fn popularity_of_movie(popularity: &HashMap<u32, usize>, movie_id: u32) -> (count: usize)
    ensures
        count == popularity_in(popularity@, movie_id),
{
    match popularity.get(&movie_id) {
        Some(count) => *count,
        None => 0,
    }
}

} // verus!

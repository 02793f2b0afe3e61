//! The ranker: from aggregated scores to the list of recommended movies.

use crate::contributions::{
    contributions, has_rated, is_planned, lemma_contributions_unrated, Contribution,
};
use crate::neighbors::{neighbors_of, Similarity};
use crate::popularity::{popularity_in, popularity_of_movie};
use crate::ranking::{
    first_items, kept, lemma_ranking_in_order, lemma_ranking_permutes, rank_items, ranking, Ranked,
};
use crate::rating::Rating;
use crate::score::Score;
use crate::sequences::{lemma_filter_empty, lemma_filter_push, lemma_take_all, lemma_take_next};
use std::collections::HashMap;
use vstd::prelude::*;

verus! {

broadcast use {vstd::seq_lib::group_to_multiset_ensures, vstd::std_specs::hash::group_hash_axioms};

/// What the neighbours' contributions to one movie add up to.
#[derive(Clone, Copy, Debug, PartialEq, Eq, Structural)]
pub struct Aggregate {
    pub movie_id: u32,
    /// The sum of the weighted ratings.
    pub score_sum: Score,
    /// The sum of the weights.
    pub weight_sum: Score,
}

/// The predicted score of a movie.
#[derive(Clone, Copy, Debug, PartialEq, Eq, Structural)]
pub struct Prediction {
    pub movie_id: u32,
    pub score: Score,
}

/// A prediction together with the popularity of its movie.
#[derive(Clone, Copy, Debug, PartialEq, Eq, Structural)]
pub struct Candidate {
    pub movie_id: u32,
    pub score: Score,
    pub popularity: usize,
}

/// The better candidate comes first: the higher predicted score; of equal
/// scores the more popular movie; of equal popularity the smaller identifier.
impl Ranked for Candidate {
    open spec fn precedes(self, other: Self) -> bool {
        ||| self.score.rank() > other.score.rank()
        ||| self.score.rank() == other.score.rank() && self.popularity > other.popularity
        ||| self.score.rank() == other.score.rank() && self.popularity == other.popularity
            && self.movie_id < other.movie_id
    }

    proof fn lemma_strict_weak_order(a: Self, b: Self, c: Self) {
    }

    fn comes_before(&self, other: &Self) -> (before: bool) {
        if self.score.exceeds(&other.score) {
            true
        } else if !self.score.matches(&other.score) {
            false
        } else if self.popularity != other.popularity {
            self.popularity > other.popularity
        } else {
            self.movie_id < other.movie_id
        }
    }
}

/// The aggregates that have a prediction: those whose weights do not sum to
/// zero.
pub open spec fn has_weight() -> spec_fn(Aggregate) -> bool {
    |a: Aggregate| !a.weight_sum.vanishes()
}

/// A prediction as a candidate under a popularity map.
pub open spec fn candidate(popularity: Map<u32, usize>) -> spec_fn(Prediction) -> Candidate {
    |p: Prediction|
        Candidate {
            movie_id: p.movie_id,
            score: p.score,
            popularity: popularity_in(popularity, p.movie_id),
        }
}

/// The candidates in ranked order.
pub open spec fn ranked_candidates(predictions: Seq<Prediction>, popularity: Map<u32, usize>) -> Seq<
    Candidate,
> {
    ranking(predictions.map_values(candidate(popularity)))
}

/// The recommended movies: the movies of the first `top_n` ranked candidates.
pub open spec fn recommended(
    predictions: Seq<Prediction>,
    popularity: Map<u32, usize>,
    top_n: usize,
) -> Seq<u32> {
    let ranked = ranked_candidates(predictions, popularity);
    ranked.take(kept(ranked.len(), top_n)).map_values(|c: Candidate| c.movie_id)
}

/// No movie occurs in two predictions.
pub open spec fn distinct_movies(predictions: Seq<Prediction>) -> bool {
    forall|i: int, j: int|
        0 <= i < j < predictions.len() ==> (#[trigger] predictions[i]).movie_id != (
        #[trigger] predictions[j]).movie_id
}

/// The aggregates that a prediction can be made of: those whose weights do not
/// sum to zero, in the order given. The others have no prediction, so that no
/// score is ever divided by zero.
pub fn predictable(aggregates: &[Aggregate]) -> (kept: Vec<Aggregate>)
    ensures
        kept@ == aggregates@.filter(has_weight()),
{
    let mut kept: Vec<Aggregate> = Vec::new();
    let mut next: usize = 0;
    proof {
        lemma_filter_empty(has_weight());
    }
    while next < aggregates.len()
        invariant
            next <= aggregates.len(),
            kept@ == aggregates@.take(next as int).filter(has_weight()),
        decreases aggregates.len() - next,
    {
        proof {
            lemma_take_next(aggregates@, next as int);
            lemma_filter_push(aggregates@.take(next as int), aggregates@[next as int], has_weight());
        }
        if !aggregates[next].weight_sum.is_zero() {
            kept.push(aggregates[next]);
        }
        next += 1;
    }
    proof {
        lemma_take_all(aggregates@);
    }
    kept
}

/// The `top_n` recommended movies, the best first: ranked by predicted score,
/// the highest first; then by popularity, the most rated first; then by movie
/// identifier, the smallest first. There are fewer than `top_n` where there are
/// fewer predictions. A movie that the popularity map lacks counts as never
/// rated.
pub fn rank_predictions(predictions: &[Prediction], popularity: &HashMap<u32, usize>, top_n: usize) -> (movies:
    Vec<u32>)
    ensures
        movies@ == recommended(predictions@, popularity@, top_n),
{
    let mut candidates: Vec<Candidate> = Vec::new();
    let mut next: usize = 0;
    while next < predictions.len()
        invariant
            next <= predictions.len(),
            candidates@ == predictions@.take(next as int).map_values(candidate(popularity@)),
        decreases predictions.len() - next,
    {
        let prediction = predictions[next];
        candidates.push(
            Candidate {
                movie_id: prediction.movie_id,
                score: prediction.score,
                popularity: popularity_of_movie(popularity, prediction.movie_id),
            },
        );
        proof {
            assert(candidates@ =~= predictions@.take(next + 1).map_values(candidate(popularity@)));
        }
        next += 1;
    }
    proof {
        lemma_take_all(predictions@);
    }
    let ranked = rank_items(&candidates);
    let best = first_items(&ranked, top_n);
    let mut movies: Vec<u32> = Vec::new();
    let mut taken: usize = 0;
    while taken < best.len()
        invariant
            taken <= best.len(),
            movies@ == best@.take(taken as int).map_values(|c: Candidate| c.movie_id),
        decreases best.len() - taken,
    {
        movies.push(best[taken].movie_id);
        proof {
            assert(movies@ =~= best@.take(taken + 1).map_values(|c: Candidate| c.movie_id));
        }
        taken += 1;
    }
    proof {
        lemma_take_all(best@);
    }
    movies
}

/// Every ranked candidate stands for one of the predictions.
pub proof fn lemma_ranked_candidate_source(
    predictions: Seq<Prediction>,
    popularity: Map<u32, usize>,
    k: int,
) -> (source: int)
    requires
        0 <= k < ranked_candidates(predictions, popularity).len(),
    ensures
        0 <= source < predictions.len(),
        ranked_candidates(predictions, popularity)[k] == candidate(popularity)(predictions[source]),
{
    let candidates = predictions.map_values(candidate(popularity));
    let ranked = ranking(candidates);
    lemma_ranking_permutes(candidates);
    assert(ranked.contains(ranked[k]));
    assert(ranked.to_multiset().count(ranked[k]) > 0);
    assert(candidates.contains(ranked[k]));
    let source = choose|source: int| 0 <= source < candidates.len() && candidates[source] == ranked[k];
    source
}

/// The list of recommended movies is ordered: of two entries the earlier has
/// the higher predicted score, or the same score and the greater popularity,
/// or the same score and popularity and the smaller movie identifier. Where no
/// movie has two predictions, the order is strict: the earlier of two ranked
/// candidates precedes the later.
pub proof fn lemma_recommended_in_order(
    predictions: Seq<Prediction>,
    popularity: Map<u32, usize>,
    i: int,
    j: int,
)
    requires
        0 <= i < j < ranked_candidates(predictions, popularity).len(),
    ensures
        !ranked_candidates(predictions, popularity)[j].precedes(
            ranked_candidates(predictions, popularity)[i],
        ),
        distinct_movies(predictions) ==> ranked_candidates(predictions, popularity)[i].precedes(
            ranked_candidates(predictions, popularity)[j],
        ),
{
    let candidates = predictions.map_values(candidate(popularity));
    let ranked = ranking(candidates);
    lemma_ranking_in_order(candidates);
    if distinct_movies(predictions) {
        let a = lemma_ranked_candidate_source(predictions, popularity, i);
        let b = lemma_ranked_candidate_source(predictions, popularity, j);
        assert(candidates.no_duplicates()) by {
            assert forall|x: int, y: int|
                0 <= x < candidates.len() && 0 <= y < candidates.len() && x != y implies candidates[x]
                != candidates[y] by {
                if x < y {
                    assert(predictions[x].movie_id != predictions[y].movie_id);
                } else {
                    assert(predictions[y].movie_id != predictions[x].movie_id);
                }
            }
        }
        lemma_ranking_permutes(candidates);
        candidates.lemma_multiset_has_no_duplicates();
        ranked.lemma_multiset_has_no_duplicates_conv();
        assert(ranked[i] != ranked[j]);
        assert(a != b);
        if a < b {
            assert(predictions[a].movie_id != predictions[b].movie_id);
        } else {
            assert(predictions[b].movie_id != predictions[a].movie_id);
        }
    }
}

/// Every recommended movie is the movie of one of the predictions, and no
/// more movies are recommended than were asked for.
pub proof fn lemma_recommended_from_predictions(
    predictions: Seq<Prediction>,
    popularity: Map<u32, usize>,
    top_n: usize,
    k: int,
) -> (source: int)
    requires
        0 <= k < recommended(predictions, popularity, top_n).len(),
    ensures
        0 <= source < predictions.len(),
        recommended(predictions, popularity, top_n)[k] == predictions[source].movie_id,
        recommended(predictions, popularity, top_n).len() <= top_n,
        recommended(predictions, popularity, top_n).len() <= predictions.len(),
{
    lemma_ranking_permutes(predictions.map_values(candidate(popularity)));
    lemma_ranked_candidate_source(predictions, popularity, k)
}

/// The steps that the library takes are functions of what they are given: two
/// runs on the same table, the same similarities and the same predictions
/// select the same neighbours, plan the same contributions and recommend the
/// same movies in the same order.
pub proof fn lemma_same_inputs_same_results(
    target_user: u32,
    similarities: Seq<Similarity>,
    k: usize,
    ratings: Seq<Rating>,
    movies: Seq<u32>,
    target: Seq<Score>,
    predictions: Seq<Prediction>,
    popularity: Map<u32, usize>,
    top_n: usize,
    first: (Seq<Similarity>, Seq<Contribution>, Seq<u32>),
    second: (Seq<Similarity>, Seq<Contribution>, Seq<u32>),
)
    requires
        first.0 == neighbors_of(target_user, similarities, k),
        second.0 == neighbors_of(target_user, similarities, k),
        first.1 == contributions(first.0, ratings, movies, target),
        second.1 == contributions(second.0, ratings, movies, target),
        first.2 == recommended(predictions, popularity, top_n),
        second.2 == recommended(predictions, popularity, top_n),
    ensures
        first == second,
{
}

/// A movie that the target user has rated is never recommended: where every
/// prediction is for a movie of the plan of contributions, no recommended
/// movie has a rating in the target user's vector, whatever the neighbours
/// have rated.
pub proof fn lemma_rated_movie_never_recommended(
    neighbors: Seq<Similarity>,
    ratings: Seq<Rating>,
    movies: Seq<u32>,
    target: Seq<Score>,
    predictions: Seq<Prediction>,
    popularity: Map<u32, usize>,
    top_n: usize,
    k: int,
)
    requires
        forall|i: int|
            0 <= i < predictions.len() ==> is_planned(
                contributions(neighbors, ratings, movies, target),
                (#[trigger] predictions[i]).movie_id,
            ),
        0 <= k < recommended(predictions, popularity, top_n).len(),
    ensures
        !has_rated(movies, target, recommended(predictions, popularity, top_n)[k]),
{
    let plan = contributions(neighbors, ratings, movies, target);
    let source = lemma_recommended_from_predictions(predictions, popularity, top_n, k);
    let movie_id = predictions[source].movie_id;
    assert(is_planned(plan, movie_id));
    let c = choose|c: int| 0 <= c < plan.len() && (#[trigger] plan[c]).movie_id == movie_id;
    lemma_contributions_unrated(neighbors, ratings, movies, target, c);
}

} // verus!

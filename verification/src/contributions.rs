//! The plan of contributions: which ratings of which neighbours count towards
//! the prediction of which movie, and with what weight.

use crate::error::RecommendError;
use crate::movie_index::{insert_ascending, strictly_increasing, MovieIndex};
use crate::neighbors::Similarity;
use crate::rating::Rating;
use crate::rating_vector::RatingVector;
use crate::score::Score;
use crate::sequences::{lemma_filter_empty, lemma_filter_push, lemma_take_all, lemma_take_next};
use crate::user_vectors::UserVectors;
use vstd::prelude::*;

verus! {

broadcast use vstd::seq_lib::group_filter_ensures;

/// One term of a prediction: a neighbour's rating of a movie, weighted by the
/// neighbour's similarity to the target user.
#[derive(Clone, Copy, Debug, PartialEq, Eq, Structural)]
pub struct Contribution {
    pub movie_id: u32,
    /// The weight: the similarity of the neighbour.
    pub similarity: Score,
    /// The neighbour's score for the movie.
    pub rating: Score,
}

/// Whether a vector over `movies` holds a rating of `movie_id`: an entry for
/// the movie that is not zero.
pub open spec fn has_rated(movies: Seq<u32>, vector: Seq<Score>, movie_id: u32) -> bool {
    exists|p: int|
        0 <= p < movies.len() && p < vector.len() && #[trigger] movies[p] == movie_id && !vector[p].vanishes()
}

/// The ratings of a neighbour that count: those of movies that the target
/// vector does not hold a rating of.
pub open spec fn counts(neighbor: Similarity, movies: Seq<u32>, target: Seq<Score>) -> spec_fn(
    Rating,
) -> bool {
    |r: Rating| r.user_id == neighbor.user_id && !has_rated(movies, target, r.movie_id)
}

/// A neighbour's rating as a contribution.
pub open spec fn weighted(neighbor: Similarity) -> spec_fn(Rating) -> Contribution {
    |r: Rating| Contribution { movie_id: r.movie_id, similarity: neighbor.score, rating: r.rating }
}

/// The contributions of one neighbour, in the order of the table.
pub open spec fn contributions_of(
    neighbor: Similarity,
    ratings: Seq<Rating>,
    movies: Seq<u32>,
    target: Seq<Score>,
) -> Seq<Contribution> {
    ratings.filter(counts(neighbor, movies, target)).map_values(weighted(neighbor))
}

/// The contributions of all neighbours: those of the first neighbour, then
/// those of the second, and so on.
pub open spec fn contributions(
    neighbors: Seq<Similarity>,
    ratings: Seq<Rating>,
    movies: Seq<u32>,
    target: Seq<Score>,
) -> Seq<Contribution>
    decreases neighbors.len(),
{
    if neighbors.len() == 0 {
        Seq::empty()
    } else {
        contributions(neighbors.drop_last(), ratings, movies, target) + contributions_of(
            neighbors.last(),
            ratings,
            movies,
            target,
        )
    }
}

/// Whether the plan holds a contribution to `movie_id`.
pub open spec fn is_planned(plan: Seq<Contribution>, movie_id: u32) -> bool {
    exists|k: int| 0 <= k < plan.len() && (#[trigger] plan[k]).movie_id == movie_id
}

/// Whether `movies` lists the movies of the plan: each once, ascending.
pub open spec fn lists_movies_of(movies: Seq<u32>, plan: Seq<Contribution>) -> bool {
    &&& strictly_increasing(movies)
    &&& forall|movie_id: u32| movies.contains(movie_id) <==> is_planned(plan, movie_id)
}

/// The contributions to one movie.
pub open spec fn to_movie(movie_id: u32) -> spec_fn(Contribution) -> bool {
    |c: Contribution| c.movie_id == movie_id
}

/// No contribution of a neighbour is for a movie that the target has rated.
pub proof fn lemma_contributions_of_unrated(
    neighbor: Similarity,
    ratings: Seq<Rating>,
    movies: Seq<u32>,
    target: Seq<Score>,
    k: int,
)
    requires
        0 <= k < contributions_of(neighbor, ratings, movies, target).len(),
    ensures
        !has_rated(movies, target, contributions_of(neighbor, ratings, movies, target)[k].movie_id),
        contributions_of(neighbor, ratings, movies, target)[k].similarity == neighbor.score,
{
    let kept = ratings.filter(counts(neighbor, movies, target));
    assert(counts(neighbor, movies, target)(kept[k]));
}

/// A movie that the target user has rated never appears in the plan, whatever
/// the neighbours have rated.
pub proof fn lemma_contributions_unrated(
    neighbors: Seq<Similarity>,
    ratings: Seq<Rating>,
    movies: Seq<u32>,
    target: Seq<Score>,
    k: int,
)
    requires
        0 <= k < contributions(neighbors, ratings, movies, target).len(),
    ensures
        !has_rated(movies, target, contributions(neighbors, ratings, movies, target)[k].movie_id),
    decreases neighbors.len(),
{
    if neighbors.len() > 0 {
        let earlier = contributions(neighbors.drop_last(), ratings, movies, target);
        if k < earlier.len() {
            lemma_contributions_unrated(neighbors.drop_last(), ratings, movies, target, k);
        } else {
            lemma_contributions_of_unrated(neighbors.last(), ratings, movies, target, k - earlier.len());
        }
    }
}

/// Whether the vector holds a rating of the movie.
pub fn holds_rating(index: &MovieIndex, vector: &RatingVector, movie_id: u32) -> (rated: bool)
    ensures
        rated == has_rated(index@, vector@, movie_id),
{
    let count = index.len();
    match index.position(movie_id) {
        Some(position) => {
            let rated = match vector.get(position) {
                Some(score) => !score.is_zero(),
                None => false,
            };
            proof {
                if has_rated(index@, vector@, movie_id) {
                    let p = choose|p: int|
                        0 <= p < index@.len() && p < vector@.len() && #[trigger] index@[p] == movie_id
                            && !vector@[p].vanishes();
                    if p < position {
                        assert(index@[p] < index@[position as int]);
                    } else if p > position {
                        assert(index@[position as int] < index@[p]);
                    }
                }
            }
            rated
        },
        None => {
            proof {
                if has_rated(index@, vector@, movie_id) {
                    let p = choose|p: int|
                        0 <= p < index@.len() && p < vector@.len() && #[trigger] index@[p] == movie_id
                            && !vector@[p].vanishes();
                    assert(index@.contains(movie_id));
                }
            }
            false
        },
    }
}

/// The movies that the plan holds contributions to, each once, ascending.
pub fn planned_movies(plan: &[Contribution]) -> (movies: Vec<u32>)
    ensures
        lists_movies_of(movies@, plan@),
{
    let mut movies: Vec<u32> = Vec::new();
    let mut next: usize = 0;
    while next < plan.len()
        invariant
            next <= plan.len(),
            lists_movies_of(movies@, plan@.take(next as int)),
        decreases plan.len() - next,
    {
        let movie_id = plan[next].movie_id;
        let ghost before = movies@;
        insert_ascending(&mut movies, movie_id);
        proof {
            let seen = plan@.take(next as int);
            let now = plan@.take(next + 1);
            assert(now[next as int] == plan@[next as int]);
            assert forall|m: u32| movies@.contains(m) <==> is_planned(now, m) by {
                assert(before.contains(m) <==> is_planned(seen, m));
                assert(movies@.contains(m) <==> before.contains(m) || m == movie_id);
                if is_planned(now, m) {
                    let k = choose|k: int| 0 <= k < now.len() && (#[trigger] now[k]).movie_id == m;
                    if k < next {
                        assert(seen[k].movie_id == m);
                    }
                }
                if is_planned(seen, m) {
                    let k = choose|k: int| 0 <= k < seen.len() && (#[trigger] seen[k]).movie_id == m;
                    assert(now[k].movie_id == m);
                }
            }
        }
        next += 1;
    }
    proof {
        lemma_take_all(plan@);
    }
    movies
}

/// The contributions to one movie, in the order of the plan: the terms that
/// the sums for that movie are made of.
pub fn contributions_to(plan: &[Contribution], movie_id: u32) -> (terms: Vec<Contribution>)
    ensures
        terms@ == plan@.filter(to_movie(movie_id)),
{
    let mut terms: Vec<Contribution> = Vec::new();
    let mut next: usize = 0;
    proof {
        lemma_filter_empty(to_movie(movie_id));
    }
    while next < plan.len()
        invariant
            next <= plan.len(),
            terms@ == plan@.take(next as int).filter(to_movie(movie_id)),
        decreases plan.len() - next,
    {
        proof {
            lemma_take_next(plan@, next as int);
            lemma_filter_push(plan@.take(next as int), plan@[next as int], to_movie(movie_id));
        }
        if plan[next].movie_id == movie_id {
            terms.push(plan[next]);
        }
        next += 1;
    }
    proof {
        lemma_take_all(plan@);
    }
    terms
}

/// The plan of contributions for `target`. For each neighbour in turn, and for
/// each of that neighbour's ratings in the order of the table, the plan holds
/// one contribution, unless the target user has rated the movie. A neighbour
/// of similarity zero contributes too. Fails where `target` has no vector.
pub fn plan_contributions(
    target: u32,
    neighbors: &[Similarity],
    ratings: &[Rating],
    vectors: &UserVectors,
) -> (plan: Result<Vec<Contribution>, RecommendError>)
    ensures
        plan.is_ok() == vectors@.contains_key(target),
        plan matches Ok(p) ==> p@ == contributions(neighbors@, ratings@, vectors.movies(), vectors@[target]),
        plan matches Err(e) ==> e == (RecommendError::UnknownUser { user_id: target }),
{
    let vector = match vectors.vector(target) {
        Some(vector) => vector,
        None => {
            return Err(RecommendError::UnknownUser { user_id: target });
        },
    };
    let index = vectors.movie_index();
    let ghost movies = index@;
    let ghost own = vector@;
    let mut plan: Vec<Contribution> = Vec::new();
    let mut n: usize = 0;
    while n < neighbors.len()
        invariant
            n <= neighbors.len(),
            movies == index@,
            own == vector@,
            plan@ == contributions(neighbors@.take(n as int), ratings@, movies, own),
        decreases neighbors.len() - n,
    {
        let neighbor = neighbors[n];
        let ghost earlier = plan@;
        let ghost keep = counts(neighbor, movies, own);
        let mut next: usize = 0;
        proof {
            lemma_filter_empty(keep);
            assert(ratings@.take(0).filter(keep).map_values(weighted(neighbor)) =~= Seq::empty());
            assert(plan@ =~= earlier + contributions_of(neighbor, ratings@.take(0), movies, own));
        }
        while next < ratings.len()
            invariant
                next <= ratings.len(),
                movies == index@,
                own == vector@,
                keep == counts(neighbor, movies, own),
                plan@ == earlier + contributions_of(neighbor, ratings@.take(next as int), movies, own),
            decreases ratings.len() - next,
        {
            let rating = ratings[next];
            proof {
                lemma_take_next(ratings@, next as int);
                lemma_filter_push(ratings@.take(next as int), ratings@[next as int], keep);
            }
            if rating.user_id == neighbor.user_id && !holds_rating(index, vector, rating.movie_id) {
                plan.push(
                    Contribution {
                        movie_id: rating.movie_id,
                        similarity: neighbor.score,
                        rating: rating.rating,
                    },
                );
                proof {
                    let before = ratings@.take(next as int).filter(keep);
                    assert(before.push(rating).map_values(weighted(neighbor)) =~= before.map_values(
                        weighted(neighbor),
                    ).push(weighted(neighbor)(rating)));
                    assert(plan@ =~= earlier + contributions_of(
                        neighbor,
                        ratings@.take(next + 1),
                        movies,
                        own,
                    ));
                }
            }
            next += 1;
        }
        proof {
            lemma_take_all(ratings@);
            lemma_take_next(neighbors@, n as int);
        }
        n += 1;
    }
    proof {
        lemma_take_all(neighbors@);
    }
    Ok(plan)
}

} // verus!

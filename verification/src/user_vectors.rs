//! Rating vectors: for each user one dense vector over the movie index.

use crate::error::RecommendError;
use crate::movie_index::{is_index_of, is_rated, MovieIndex};
use crate::rating::Rating;
use crate::rating_vector::RatingVector;
use crate::score::{zero_score, Score};
use crate::sequences::{lemma_filter_empty, lemma_filter_push, lemma_take_all, lemma_take_next};
use std::collections::HashMap;
use vstd::prelude::*;

verus! {

broadcast use vstd::std_specs::hash::group_hash_axioms;

/// The users of a rating table, each once, in the order of their first rating.
pub open spec fn users_of(ratings: Seq<Rating>) -> Seq<u32>
    decreases ratings.len(),
{
    if ratings.len() == 0 {
        Seq::empty()
    } else {
        let earlier = users_of(ratings.drop_last());
        if earlier.contains(ratings.last().user_id) {
            earlier
        } else {
            earlier.push(ratings.last().user_id)
        }
    }
}

/// The score that a user's vector holds for a movie: that of the user's last
/// rating of the movie in the table, and zero where there is none.
pub open spec fn score_given(ratings: Seq<Rating>, user_id: u32, movie_id: u32) -> Score
    decreases ratings.len(),
{
    if ratings.len() == 0 {
        zero_score()
    } else if ratings.last().user_id == user_id && ratings.last().movie_id == movie_id {
        ratings.last().rating
    } else {
        score_given(ratings.drop_last(), user_id, movie_id)
    }
}

/// A user's rating vector over the movies of an index.
pub open spec fn rating_vector(ratings: Seq<Rating>, movies: Seq<u32>, user_id: u32) -> Seq<Score> {
    Seq::new(movies.len(), |p: int| score_given(ratings, user_id, movies[p]))
}

/// The rating vectors of a table: one for each of its users.
pub open spec fn vectors_of(ratings: Seq<Rating>, movies: Seq<u32>) -> Map<u32, Seq<Score>> {
    Map::new(
        |user_id: u32| users_of(ratings).contains(user_id),
        |user_id: u32| rating_vector(ratings, movies, user_id),
    )
}

/// The users of a table are those that one of its ratings names.
pub proof fn lemma_users_of_members(ratings: Seq<Rating>, user_id: u32)
    ensures
        users_of(ratings).contains(user_id) <==> exists|i: int|
            0 <= i < ratings.len() && (#[trigger] ratings[i]).user_id == user_id,
    decreases ratings.len(),
{
    if ratings.len() > 0 {
        let head = ratings.drop_last();
        let last = ratings.last();
        let earlier = users_of(head);
        lemma_users_of_members(head, user_id);
        lemma_users_of_members(head, last.user_id);
        if users_of(ratings).contains(user_id) {
            if earlier.contains(user_id) {
                let i = choose|i: int| 0 <= i < head.len() && (#[trigger] head[i]).user_id == user_id;
                assert(ratings[i].user_id == user_id);
            } else {
                let k = choose|k: int| 0 <= k < users_of(ratings).len() && users_of(ratings)[k] == user_id;
                assert(k == earlier.len());
                assert(ratings[ratings.len() - 1].user_id == user_id);
            }
        }
        if exists|i: int| 0 <= i < ratings.len() && (#[trigger] ratings[i]).user_id == user_id {
            let i = choose|i: int| 0 <= i < ratings.len() && (#[trigger] ratings[i]).user_id == user_id;
            if i < head.len() {
                assert(head[i].user_id == user_id);
                assert(earlier.contains(user_id));
                let k = choose|k: int| 0 <= k < earlier.len() && earlier[k] == user_id;
                assert(users_of(ratings)[k] == user_id);
            } else {
                assert(last.user_id == user_id);
                if earlier.contains(user_id) {
                } else {
                    assert(users_of(ratings)[earlier.len() as int] == user_id);
                }
            }
        }
    }
}

/// No user stands twice among the users of a table.
pub proof fn lemma_users_of_distinct(ratings: Seq<Rating>)
    ensures
        users_of(ratings).no_duplicates(),
    decreases ratings.len(),
{
    if ratings.len() > 0 {
        lemma_users_of_distinct(ratings.drop_last());
    }
}

/// A user without ratings has a vector of zeros.
pub proof fn lemma_stranger_unrated(ratings: Seq<Rating>, user_id: u32, movie_id: u32)
    requires
        !users_of(ratings).contains(user_id),
    ensures
        score_given(ratings, user_id, movie_id) == zero_score(),
    decreases ratings.len(),
{
    if ratings.len() > 0 {
        let head = ratings.drop_last();
        lemma_users_of_members(ratings, user_id);
        lemma_users_of_members(head, user_id);
        assert(ratings[ratings.len() - 1].user_id != user_id);
        if users_of(head).contains(user_id) {
            let i = choose|i: int| 0 <= i < head.len() && (#[trigger] head[i]).user_id == user_id;
            assert(ratings[i].user_id == user_id);
        }
        lemma_stranger_unrated(head, user_id, movie_id);
    }
}

/// The users other than `target`.
pub open spec fn other_than(target: u32) -> spec_fn(u32) -> bool {
    |user_id: u32| user_id != target
}

/// The movie index of a rating table and the rating vector of each user.
pub struct UserVectors {
    index: MovieIndex,
    users: Vec<u32>,
    slots: HashMap<u32, usize>,
    rows: Vec<RatingVector>,
}

impl View for UserVectors {
    type V = Map<u32, Seq<Score>>;

    /// The vector of each user.
    closed spec fn view(&self) -> Map<u32, Seq<Score>> {
        Map::new(
            |user_id: u32| self.users@.contains(user_id),
            |user_id: u32| self.rows@[self.slots@[user_id] as int]@,
        )
    }
}

/// Whether the users, their slots and their rows fit together.
spec fn slots_match(users: Seq<u32>, slots: Map<u32, usize>, rows: Seq<RatingVector>) -> bool {
    &&& users.len() == rows.len()
    &&& forall|s: int| 0 <= s < users.len() ==> slots.contains_key(#[trigger] users[s]) && slots[users[s]] == s
    &&& forall|user_id: u32| #[trigger]
        slots.contains_key(user_id) ==> slots[user_id] < users.len() && users[slots[user_id] as int]
            == user_id
}

impl UserVectors {
    #[verifier::type_invariant]
    spec fn consistent(self) -> bool {
        &&& slots_match(self.users@, self.slots@, self.rows@)
        &&& forall|s: int| 0 <= s < self.rows@.len() ==> (#[trigger] self.rows@[s])@.len() == self.index@.len()
    }

    /// The movies of the index, ascending.
    pub closed spec fn movies(&self) -> Seq<u32> {
        self.index@
    }

    /// The users that have a vector, in the order of their first rating.
    pub closed spec fn users(&self) -> Seq<u32> {
        self.users@
    }

    /// The movie index that the vectors share.
    pub fn movie_index(&self) -> (index: &MovieIndex)
        ensures
            index@ == self.movies(),
    {
        &self.index
    }

    /// The users that have a vector, in the order of their first rating.
    pub fn user_ids(&self) -> (users: &Vec<u32>)
        ensures
            users@ == self.users(),
            forall|user_id: u32| users@.contains(user_id) <==> self@.contains_key(user_id),
    {
        &self.users
    }

    /// The users to compare `target` with: all users but `target`, in the order
    /// of their first rating. Fails where `target` has no vector.
    pub fn other_users(&self, target: u32) -> (others: Result<Vec<u32>, RecommendError>)
        ensures
            others.is_ok() == self@.contains_key(target),
            others matches Ok(users) ==> users@ == self.users().filter(other_than(target)),
            others matches Err(e) ==> e == (RecommendError::UnknownUser { user_id: target }),
    {
        if self.vector(target).is_none() {
            return Err(RecommendError::UnknownUser { user_id: target });
        }
        let mut others: Vec<u32> = Vec::new();
        let mut next: usize = 0;
        proof {
            lemma_filter_empty(other_than(target));
        }
        while next < self.users.len()
            invariant
                next <= self.users@.len(),
                others@ == self.users@.take(next as int).filter(other_than(target)),
            decreases self.users@.len() - next,
        {
            proof {
                lemma_take_next(self.users@, next as int);
                lemma_filter_push(self.users@.take(next as int), self.users@[next as int], other_than(target));
            }
            if self.users[next] != target {
                others.push(self.users[next]);
            }
            next += 1;
        }
        proof {
            lemma_take_all(self.users@);
        }
        Ok(others)
    }

    /// The vector of a user, or `None` for a user without ratings.
    pub fn vector(&self, user_id: u32) -> (row: Option<&RatingVector>)
        ensures
            row.is_some() == self@.contains_key(user_id),
            row matches Some(v) ==> v@ == self@[user_id] && v@.len() == self.movies().len(),
    {
        proof {
            use_type_invariant(self);
        }
        match self.slots.get(&user_id) {
            Some(slot) => {
                proof {
                    assert(self.users@[*slot as int] == user_id);
                }
                Some(&self.rows[*slot])
            },
            None => {
                proof {
                    if self.users@.contains(user_id) {
                        let s = choose|s: int| 0 <= s < self.users@.len() && self.users@[s] == user_id;
                        assert(self.slots@.contains_key(self.users@[s]));
                    }
                }
                None
            },
        }
    }
}

/// The rating vectors of a table. Every user of the table gets a vector with
/// one entry for each movie of the table, in ascending order of the movies: the
/// score of the user's last rating of that movie, and zero where the user has
/// not rated it. An empty table has no movies and no users.
pub fn build_user_vectors(ratings: &[Rating]) -> (vectors: UserVectors)
    ensures
        is_index_of(vectors.movies(), ratings@),
        vectors.users() == users_of(ratings@),
        vectors@ == vectors_of(ratings@, vectors.movies()),
{
    let index = MovieIndex::build(ratings);
    let width = index.len();
    let mut users: Vec<u32> = Vec::new();
    let mut slots: HashMap<u32, usize> = HashMap::new();
    let mut rows: Vec<RatingVector> = Vec::new();
    let mut next: usize = 0;
    while next < ratings.len()
        invariant
            next <= ratings.len(),
            width == index@.len(),
            is_index_of(index@, ratings@),
            users@ == users_of(ratings@.take(next as int)),
            slots_match(users@, slots@, rows@),
            forall|s: int|
                0 <= s < rows@.len() ==> (#[trigger] rows@[s])@ == rating_vector(
                    ratings@.take(next as int),
                    index@,
                    users@[s],
                ),
        decreases ratings.len() - next,
    {
        let rating = ratings[next];
        let ghost seen = ratings@.take(next as int);
        let ghost now = ratings@.take(next + 1);
        proof {
            lemma_take_next(ratings@, next as int);
        }
        let slot: usize = match slots.get(&rating.user_id) {
            Some(slot) => *slot,
            None => {
                let slot = users.len();
                proof {
                    if users@.contains(rating.user_id) {
                        let s = choose|s: int| 0 <= s < users@.len() && users@[s] == rating.user_id;
                        assert(slots@.contains_key(users@[s]));
                    }
                    assert forall|p: int| 0 <= p < index@.len() implies score_given(
                        seen,
                        rating.user_id,
                        #[trigger] index@[p],
                    ) == zero_score() by {
                        lemma_stranger_unrated(seen, rating.user_id, index@[p]);
                    }
                }
                let row = RatingVector::zeros(width);
                proof {
                    assert(row@ =~= rating_vector(seen, index@, rating.user_id));
                }
                users.push(rating.user_id);
                rows.push(row);
                slots.insert(rating.user_id, slot);
                slot
            },
        };
        proof {
            assert(users@[slot as int] == rating.user_id);
            assert(users@ == users_of(now)) by {
                if users_of(seen).contains(rating.user_id) {
                } else {
                    let s = choose|s: int|
                        0 <= s < users@.len() - 1 && users@[s] == rating.user_id;
                }
            }
            assert(is_rated(ratings@, rating.movie_id)) by {
                assert(ratings@[next as int].movie_id == rating.movie_id);
            }
            assert(index@.contains(rating.movie_id));
        }
        let ghost rows_before = rows@;
        match index.position(rating.movie_id) {
            Some(position) => {
                rows[slot].assign(position, rating.rating);
                proof {
                    assert(rows@.len() == rows_before.len());
                    assert forall|s: int| 0 <= s < rows@.len() implies (#[trigger] rows@[s])@
                        == rating_vector(now, index@, users@[s]) by {
                        let user_id = users@[s];
                        if s == slot {
                            assert(rows@[s]@ =~= rating_vector(now, index@, user_id)) by {
                                assert forall|p: int| 0 <= p < index@.len() implies rows@[s]@[p]
                                    == score_given(now, user_id, index@[p]) by {
                                    if p != position {
                                        if p < position {
                                            assert(index@[p] < index@[position as int]);
                                        } else {
                                            assert(index@[position as int] < index@[p]);
                                        }
                                    }
                                }
                            }
                        } else {
                            assert(rows@[s] == rows_before[s]);
                            assert(user_id != rating.user_id) by {
                                assert(slots@[users@[s]] == s);
                            }
                            assert(rows@[s]@ =~= rating_vector(now, index@, user_id));
                        }
                    }
                }
            },
            None => {
                proof {
                    assert(false);
                }
            },
        }
        next += 1;
    }
    proof {
        lemma_take_all(ratings@);
    }
    let vectors = UserVectors { index, users, slots, rows };
    proof {
        assert(vectors@ =~= vectors_of(ratings@, vectors.movies())) by {
            assert forall|user_id: u32| vectors@.contains_key(user_id) implies vectors@[user_id]
                == rating_vector(ratings@, vectors.movies(), user_id) by {
                let s = choose|s: int| 0 <= s < vectors.users@.len() && vectors.users@[s] == user_id;
                assert(vectors.slots@[vectors.users@[s]] == s);
            }
        }
    }
    vectors
}

} // verus!

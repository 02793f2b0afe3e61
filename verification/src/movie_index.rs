//! The movie index: every rated movie, and its position in a rating vector.

use crate::rating::Rating;
use vstd::prelude::*;

verus! {

/// Each item is smaller than every later one.
pub open spec fn strictly_increasing(ids: Seq<u32>) -> bool {
    forall|i: int, j: int| 0 <= i < j < ids.len() ==> ids[i] < ids[j]
}

/// Whether some rating of the table is for `movie_id`.
pub open spec fn is_rated(ratings: Seq<Rating>, movie_id: u32) -> bool {
    exists|i: int| 0 <= i < ratings.len() && (#[trigger] ratings[i]).movie_id == movie_id
}

/// The movies rated in a table with one more rating are those rated before
/// and the movie of that rating.
pub proof fn lemma_is_rated_next(ratings: Seq<Rating>, n: int)
    requires
        0 <= n < ratings.len(),
    ensures
        forall|movie_id: u32|
            is_rated(ratings.take(n + 1), movie_id) <==> is_rated(ratings.take(n), movie_id)
                || ratings[n].movie_id == movie_id,
{
    let seen = ratings.take(n);
    let now = ratings.take(n + 1);
    assert(now[n] == ratings[n]);
    assert forall|m: u32| is_rated(now, m) implies is_rated(seen, m) || ratings[n].movie_id == m by {
        let k = choose|k: int| 0 <= k < now.len() && (#[trigger] now[k]).movie_id == m;
        if k < n {
            assert(seen[k].movie_id == m);
        }
    }
    assert forall|m: u32| is_rated(seen, m) implies is_rated(now, m) by {
        let k = choose|k: int| 0 <= k < seen.len() && (#[trigger] seen[k]).movie_id == m;
        assert(now[k].movie_id == m);
    }
}

/// Whether `ids` is the index of the table: its movies, each once, ascending.
pub open spec fn is_index_of(ids: Seq<u32>, ratings: Seq<Rating>) -> bool {
    &&& strictly_increasing(ids)
    &&& forall|movie_id: u32| ids.contains(movie_id) <==> is_rated(ratings, movie_id)
}

/// Two ascending sequences with the same members are the same sequence.
pub proof fn lemma_increasing_unique(a: Seq<u32>, b: Seq<u32>)
    requires
        strictly_increasing(a),
        strictly_increasing(b),
        forall|movie_id: u32| a.contains(movie_id) <==> b.contains(movie_id),
    ensures
        a == b,
    decreases a.len(),
{
    if a.len() == 0 {
        if b.len() > 0 {
            assert(b.contains(b[0]));
        }
        assert(a =~= b);
    } else {
        assert(a.contains(a.last()));
        let k = choose|k: int| 0 <= k < b.len() && b[k] == a.last();
        assert(b.contains(b.last()));
        let j = choose|j: int| 0 <= j < a.len() && a[j] == b.last();
        if j < a.len() - 1 {
            assert(a[j] < a[a.len() - 1]);
        }
        if k < b.len() - 1 {
            assert(b[k] < b[b.len() - 1]);
        }
        assert(a.last() == b.last());
        let ad = a.drop_last();
        let bd = b.drop_last();
        assert forall|m: u32| ad.contains(m) <==> bd.contains(m) by {
            if ad.contains(m) {
                let i = choose|i: int| 0 <= i < ad.len() && ad[i] == m;
                assert(a[i] == m && a[i] < a[a.len() - 1]);
                assert(a.contains(m));
                let i2 = choose|i2: int| 0 <= i2 < b.len() && b[i2] == m;
                assert(bd[i2] == m);
            }
            if bd.contains(m) {
                let i = choose|i: int| 0 <= i < bd.len() && bd[i] == m;
                assert(b[i] == m && b[i] < b[b.len() - 1]);
                assert(b.contains(m));
                let i2 = choose|i2: int| 0 <= i2 < a.len() && a[i2] == m;
                assert(ad[i2] == m);
            }
        }
        lemma_increasing_unique(ad, bd);
        assert(a =~= ad.push(a.last()));
        assert(b =~= bd.push(b.last()));
    }
}

/// A rating table has one index only.
pub proof fn lemma_index_is_unique(a: Seq<u32>, b: Seq<u32>, ratings: Seq<Rating>)
    requires
        is_index_of(a, ratings),
        is_index_of(b, ratings),
    ensures
        a == b,
{
    lemma_increasing_unique(a, b);
}

/// The movies of a rating table in ascending order. The position of a movie
/// in this order is its place in every rating vector.
pub struct MovieIndex {
    ids: Vec<u32>,
}

impl View for MovieIndex {
    type V = Seq<u32>;

    closed spec fn view(&self) -> Seq<u32> {
        self.ids@
    }
}

/// The first position of an ascending sequence whose movie is not below
/// `movie_id`.
fn lower_bound(ids: &Vec<u32>, movie_id: u32) -> (at: usize)
    requires
        strictly_increasing(ids@),
    ensures
        at <= ids.len(),
        forall|k: int| 0 <= k < at ==> ids@[k] < movie_id,
        forall|k: int| at <= k < ids.len() ==> ids@[k] >= movie_id,
{
    let mut low: usize = 0;
    let mut high: usize = ids.len();
    while low < high
        invariant
            low <= high <= ids.len(),
            strictly_increasing(ids@),
            forall|k: int| 0 <= k < low ==> ids@[k] < movie_id,
            forall|k: int| high <= k < ids.len() ==> ids@[k] >= movie_id,
        decreases high - low,
    {
        let middle = low + (high - low) / 2;
        if ids[middle] < movie_id {
            low = middle + 1;
        } else {
            high = middle;
        }
    }
    low
}

/// Adds a movie to an ascending sequence, unless the sequence holds it.
pub(crate) fn insert_ascending(ids: &mut Vec<u32>, movie_id: u32)
    requires
        strictly_increasing(old(ids)@),
    ensures
        strictly_increasing(final(ids)@),
        forall|m: u32| final(ids)@.contains(m) <==> old(ids)@.contains(m) || m == movie_id,
{
    let at = lower_bound(ids, movie_id);
    let ghost before = ids@;
    if at == ids.len() || ids[at] != movie_id {
        ids.insert(at, movie_id);
        proof {
            assert forall|i: int, j: int| 0 <= i < j < ids@.len() implies ids@[i] < ids@[j] by {
                if j < at {
                    assert(ids@[i] == before[i] && ids@[j] == before[j]);
                } else if j == at {
                    assert(ids@[i] == before[i]);
                } else if i < at {
                    assert(ids@[i] == before[i] && ids@[j] == before[j - 1]);
                } else if i == at {
                    assert(ids@[j] == before[j - 1]);
                } else {
                    assert(ids@[i] == before[i - 1] && ids@[j] == before[j - 1]);
                }
            }
            assert(ids@[at as int] == movie_id);
            assert forall|m: u32| ids@.contains(m) implies before.contains(m) || m == movie_id by {
                let k = choose|k: int| 0 <= k < ids@.len() && ids@[k] == m;
                if k < at {
                    assert(before[k] == m);
                } else if k > at {
                    assert(before[k - 1] == m);
                }
            }
            assert forall|m: u32| before.contains(m) implies ids@.contains(m) by {
                let k = choose|k: int| 0 <= k < before.len() && before[k] == m;
                if k < at {
                    assert(ids@[k] == m);
                } else {
                    assert(ids@[k + 1] == m);
                }
            }
        }
    } else {
        proof {
            assert(before[at as int] == movie_id);
        }
    }
}

impl MovieIndex {
    #[verifier::type_invariant]
    spec fn ascending(self) -> bool {
        strictly_increasing(self.ids@)
    }

    /// The index of a rating table.
    pub fn build(ratings: &[Rating]) -> (index: MovieIndex)
        ensures
            is_index_of(index@, ratings@),
    {
        let mut ids: Vec<u32> = Vec::new();
        let mut next: usize = 0;
        while next < ratings.len()
            invariant
                next <= ratings.len(),
                is_index_of(ids@, ratings@.take(next as int)),
            decreases ratings.len() - next,
        {
            let movie_id = ratings[next].movie_id;
            let ghost before = ids@;
            insert_ascending(&mut ids, movie_id);
            proof {
                lemma_is_rated_next(ratings@, next as int);
                let seen = ratings@.take(next as int);
                let now = ratings@.take(next + 1);
                assert forall|m: u32| ids@.contains(m) <==> is_rated(now, m) by {
                    assert(before.contains(m) <==> is_rated(seen, m));
                    assert(is_rated(now, m) <==> is_rated(seen, m) || movie_id == m);
                    assert(ids@.contains(m) <==> before.contains(m) || m == movie_id);
                }
            }
            next += 1;
        }
        proof {
            crate::sequences::lemma_take_all(ratings@);
        }
        MovieIndex { ids }
    }

    /// The number of movies.
    pub fn len(&self) -> (count: usize)
        ensures
            count == self@.len(),
            strictly_increasing(self@),
    {
        proof {
            use_type_invariant(self);
        }
        self.ids.len()
    }

    /// The position of a movie, or `None` for a movie that the index lacks.
    pub fn position(&self, movie_id: u32) -> (position: Option<usize>)
        ensures
            position.is_some() == self@.contains(movie_id),
            position matches Some(p) ==> p < self@.len() && self@[p as int] == movie_id,
    {
        proof {
            use_type_invariant(self);
        }
        let at = lower_bound(&self.ids, movie_id);
        if at < self.ids.len() && self.ids[at] == movie_id {
            Some(at)
        } else {
            proof {
                if self@.contains(movie_id) {
                    let k = choose|k: int| 0 <= k < self@.len() && self@[k] == movie_id;
                    if k > at {
                        assert(self@[at as int] < self@[k]);
                    }
                }
            }
            None
        }
    }

    /// The movie at a position, or `None` past the end.
    pub fn movie_at(&self, position: usize) -> (movie_id: Option<u32>)
        ensures
            movie_id == if position < self@.len() {
                Some(self@[position as int])
            } else {
                None
            },
    {
        if position < self.ids.len() {
            Some(self.ids[position])
        } else {
            None
        }
    }
}

/// An index is a one-to-one match between the movies of its table and the
/// positions below its length: it has as many positions as the table has
/// distinct movies, no movie stands at two positions, every position holds a
/// movie of the table, and every movie of the table has a position.
pub proof fn lemma_index_is_bijection(ids: Seq<u32>, ratings: Seq<Rating>)
    requires
        is_index_of(ids, ratings),
    ensures
        ids.no_duplicates(),
        ids.len() == ratings.map_values(|r: Rating| r.movie_id).to_set().len(),
        forall|p: int| 0 <= p < ids.len() ==> is_rated(ratings, #[trigger] ids[p]),
        forall|i: int| 0 <= i < ratings.len() ==> ids.contains((#[trigger] ratings[i]).movie_id),
        forall|p: int, q: int| 0 <= p < ids.len() && 0 <= q < ids.len() && ids[p] == ids[q] ==> p == q,
{
    assert forall|p: int, q: int| 0 <= p < ids.len() && 0 <= q < ids.len() && p != q implies ids[p]
        != ids[q] by {
        if p < q {
            assert(ids[p] < ids[q]);
        } else {
            assert(ids[q] < ids[p]);
        }
    }
    assert forall|p: int| 0 <= p < ids.len() implies is_rated(ratings, #[trigger] ids[p]) by {
        assert(ids.contains(ids[p]));
    }
    let movies = ratings.map_values(|r: Rating| r.movie_id);
    assert(ids.to_set() =~= movies.to_set()) by {
        assert forall|m: u32| ids.to_set().contains(m) <==> movies.to_set().contains(m) by {
            if ids.contains(m) {
                let k = choose|k: int| 0 <= k < ratings.len() && (#[trigger] ratings[k]).movie_id == m;
                assert(movies[k] == m);
            }
            if movies.contains(m) {
                let k = choose|k: int| 0 <= k < movies.len() && movies[k] == m;
                assert(ratings[k].movie_id == m);
            }
        }
    }
    ids.unique_seq_to_set();
}

} // verus!

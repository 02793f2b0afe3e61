//! Dense rating vectors.

use crate::score::{zero_score, Score};
use vstd::prelude::*;

verus! {

/// One user's ratings: a dense column vector with one entry for each movie of
/// the index, zero where the user has not rated the movie.
///
/// The vector is a `nalgebra::DVector` of scores. Its entries are known only
/// through `vector_entries` and the four functions below that call into
/// nalgebra; what those say of it is taken on trust.
#[verifier::external_body]
pub struct RatingVector {
    inner: nalgebra::DVector<Score>,
}

/// The entries that the `nalgebra::DVector` of a rating vector holds, in order.
pub uninterp spec fn vector_entries(v: RatingVector) -> Seq<Score>;

impl View for RatingVector {
    type V = Seq<Score>;

    open spec fn view(&self) -> Seq<Score> {
        vector_entries(*self)
    }
}

impl RatingVector {
    /// The vector with the given entries.
    pub fn new(scores: Vec<Score>) -> (v: RatingVector)
        ensures
            v@ == scores@,
    {
        RatingVector::backed_by(scores)
    }

    /// The vector of `len` zeros: the ratings of a user who has rated nothing.
    pub fn zeros(len: usize) -> (v: RatingVector)
        ensures
            v@ == Seq::new(len as nat, |p: int| zero_score()),
    {
        let mut scores: Vec<Score> = Vec::new();
        let mut next: usize = 0;
        while next < len
            invariant
                next <= len,
                scores@ == Seq::new(next as nat, |p: int| zero_score()),
            decreases len - next,
        {
            scores.push(Score::zero());
            proof {
                assert(scores@ =~= Seq::new((next + 1) as nat, |p: int| zero_score()));
            }
            next += 1;
        }
        RatingVector::backed_by(scores)
    }

    /// The number of entries.
    pub fn len(&self) -> (n: usize)
        ensures
            n == self@.len(),
    {
        self.count()
    }

    /// The entry at a position, or `None` past the end.
    pub fn get(&self, position: usize) -> (score: Option<Score>)
        ensures
            score == if position < self@.len() {
                Some(self@[position as int])
            } else {
                None
            },
    {
        if position < self.count() {
            Some(self.entry(position))
        } else {
            None
        }
    }

    /// The entries, in order.
    pub fn scores(&self) -> (scores: Vec<Score>)
        ensures
            scores@ == self@,
    {
        let count = self.count();
        let mut scores: Vec<Score> = Vec::new();
        let mut next: usize = 0;
        while next < count
            invariant
                next <= count,
                count == self@.len(),
                scores@ == self@.take(next as int),
            decreases count - next,
        {
            scores.push(self.entry(next));
            proof {
                assert(scores@ =~= self@.take(next + 1));
            }
            next += 1;
        }
        proof {
            assert(self@.take(count as int) =~= self@);
        }
        scores
    }

    /// `nalgebra::DVector::from_vec`: the column vector backed by `scores`, with
    /// the same entries in the same order.
    #[verifier::external_body]
    pub(crate) fn backed_by(scores: Vec<Score>) -> (v: RatingVector)
        ensures
            vector_entries(v) == scores@,
    {
        RatingVector { inner: nalgebra::DVector::from_vec(scores) }
    }

    /// `nalgebra::Matrix::len`: the number of entries.
    #[verifier::external_body]
    pub(crate) fn count(&self) -> (n: usize)
        ensures
            n == vector_entries(*self).len(),
    {
        self.inner.len()
    }

    /// `Index<usize>` of `nalgebra::Matrix`: the entry at position `i`. The
    /// outside function panics past the end, which `requires` leaves out.
    #[verifier::external_body]
    pub(crate) fn entry(&self, i: usize) -> (x: Score)
        requires
            i < vector_entries(*self).len(),
        ensures
            x == vector_entries(*self)[i as int],
    {
        self.inner[i]
    }

    /// Assignment through `IndexMut<usize>` of `nalgebra::Matrix`: entry `i`
    /// becomes `x`, the others stay as they were. The outside function panics
    /// past the end, which `requires` leaves out.
    #[verifier::external_body]
    pub(crate) fn assign(&mut self, i: usize, x: Score)
        requires
            i < vector_entries(*old(self)).len(),
        ensures
            vector_entries(*final(self)) == vector_entries(*old(self)).update(i as int, x),
    {
        self.inner[i] = x;
    }
}

} // verus!

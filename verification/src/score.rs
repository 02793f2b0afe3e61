//! Scores: ratings, similarities and predictions, held as bit patterns.

use vstd::prelude::*;

verus! {

/// The sign bit of a single-precision pattern.
pub const SIGN_BIT: u32 = 0x8000_0000;

/// The magnitude of the infinities; a larger magnitude encodes no number.
pub const INFINITY_MAGNITUDE: u32 = 0x7F80_0000;

/// The pattern without its sign bit.
pub open spec fn magnitude_of(bits: u32) -> int {
    if bits >= SIGN_BIT {
        bits - SIGN_BIT
    } else {
        bits as int
    }
}

/// Whether a pattern encodes a number (finite or infinite) rather than a NaN.
pub open spec fn encodes_number(bits: u32) -> bool {
    magnitude_of(bits) <= INFINITY_MAGNITUDE
}

/// The place of a pattern on the number line: sign and magnitude read as one
/// integer. Both zeros have rank 0, and a larger number has a larger rank.
pub open spec fn rank_of(bits: u32) -> int {
    if bits >= SIGN_BIT {
        -magnitude_of(bits)
    } else {
        magnitude_of(bits)
    }
}

/// An IEEE-754 single-precision number, held by its bit pattern.
///
/// A `Score` never holds a NaN, so any two scores compare, and they compare as
/// the numbers they encode do: by `rank`.
#[derive(Clone, Copy, Debug, PartialEq, Eq, Structural)]
pub struct Score {
    bits: u32,
}

/// Positive zero: the entry of a movie that a user has not rated.
pub closed spec fn zero_score() -> Score {
    Score { bits: 0 }
}

/// Positive zero has the all-zero pattern, and counts as unrated.
pub proof fn lemma_zero_score()
    ensures
        zero_score().bits() == 0,
        zero_score().vanishes(),
{
}

impl Score {
    #[verifier::type_invariant]
    spec fn holds_number(self) -> bool {
        encodes_number(self.bits)
    }

    /// The bit pattern.
    pub closed spec fn bits(self) -> u32 {
        self.bits
    }

    /// The place of this score on the number line.
    pub open spec fn rank(self) -> int {
        rank_of(self.bits())
    }

    /// Whether this score is zero, of either sign.
    pub open spec fn vanishes(self) -> bool {
        self.rank() == 0
    }

    /// The score with the given pattern, or `None` for the pattern of a NaN.
    pub fn from_bits(bits: u32) -> (score: Option<Score>)
        ensures
            score.is_some() == encodes_number(bits),
            score matches Some(s) ==> s.bits() == bits,
    {
        let magnitude: u32 = if bits >= SIGN_BIT {
            bits - SIGN_BIT
        } else {
            bits
        };
        if magnitude <= INFINITY_MAGNITUDE {
            Some(Score { bits })
        } else {
            None
        }
    }

    /// The bit pattern of this score.
    pub fn to_bits(&self) -> (bits: u32)
        ensures
            bits == self.bits(),
            encodes_number(bits),
    {
        proof {
            use_type_invariant(self);
        }
        self.bits
    }

    /// Positive zero, the entry of a movie that a user has not rated.
    pub fn zero() -> (score: Score)
        ensures
            score == zero_score(),
    {
        Score { bits: 0 }
    }

    /// Whether this score is zero, of either sign.
    pub fn is_zero(&self) -> (zero: bool)
        ensures
            zero == self.vanishes(),
    {
        self.bits == 0 || self.bits == SIGN_BIT
    }

    /// Whether this score is strictly greater than `other`.
    pub fn exceeds(&self, other: &Score) -> (greater: bool)
        ensures
            greater == (self.rank() > other.rank()),
    {
        self.signed_rank() > other.signed_rank()
    }

    /// Whether this score and `other` are the same number. The two zeros are.
    pub fn matches(&self, other: &Score) -> (same: bool)
        ensures
            same == (self.rank() == other.rank()),
    {
        self.signed_rank() == other.signed_rank()
    }

    fn signed_rank(&self) -> (r: i64)
        ensures
            r == self.rank(),
    {
        if self.bits >= SIGN_BIT {
            0i64 - ((self.bits - SIGN_BIT) as i64)
        } else {
            self.bits as i64
        }
    }
}

} // verus!

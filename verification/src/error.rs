//! Errors.

use vstd::prelude::*;

verus! {

/// Why a recommendation could not be made.
#[derive(Clone, Copy, Debug, PartialEq, Eq, Structural)]
pub enum RecommendError {
    /// The user has no rating in the table, and so no rating vector.
    UnknownUser { user_id: u32 },
}

impl RecommendError {
    /// The error in words.
    pub fn message(&self) -> (text: String)
        ensures
            text@ == "user has no ratings"@,
    {
        match self {
            RecommendError::UnknownUser { .. } => String::from_str("user has no ratings"),
        }
    }
}

} // verus!

use vstd::prelude::*;

verus! {

/// Why a generation call gave no text.
#[derive(Debug, Clone, Copy, PartialEq, Eq, Structural)]
pub enum GenError {
    /// A candidate list that has to hold at least one entry was empty.
    InvalidArgument,
    /// An inclusive range had its lower bound above its upper bound.
    InvalidRange,
    /// An index chosen for a collection of generators lay outside it.
    InvalidState,
}

impl GenError {
    /// A short description of the error, for messages.
    pub fn describe(&self) -> (text: &'static str)
        ensures
            text@ == match *self {
                GenError::InvalidArgument => "empty candidate list"@,
                GenError::InvalidRange => "range with lower bound above upper bound"@,
                GenError::InvalidState => "selection index out of bounds"@,
            },
    {
        match self {
            GenError::InvalidArgument => "empty candidate list",
            GenError::InvalidRange => "range with lower bound above upper bound",
            GenError::InvalidState => "selection index out of bounds",
        }
    }
}

} // verus!

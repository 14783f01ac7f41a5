//! The failures a swap can end in.

use vstd::prelude::*;

verus! {

/// Why a computation was refused.
#[derive(Debug, Clone, Copy, PartialEq, Eq, Structural)]
pub enum DlmmError {
    /// No bin can serve as the start of a swap.
    InvalidStartBinIndex,
    /// A bin id does not name a bin of the pool.
    InvalidBinId,
    /// An argument lies outside its domain: a fee rate above
    /// `FEE_PRECISION`, or a zero price.
    InvalidInput,
    /// A value does not fit the width of the integer that has to hold it.
    MathOverflow,
    /// A clipped swap would have taken more than the caller offered.
    InvariantViolation,
}

impl DlmmError {
    /// The text that describes the failure.
    pub open spec fn message_spec(self) -> Seq<char> {
        match self {
            DlmmError::InvalidStartBinIndex => "Invalid start bin index"@,
            DlmmError::InvalidBinId => "Invalid bin id"@,
            DlmmError::InvalidInput => "Invalid input data"@,
            DlmmError::MathOverflow => "Math overflow"@,
            DlmmError::InvariantViolation => "Invariant violated"@,
        }
    }

    /// The text that describes the failure.
    pub fn message(&self) -> (text: String)
        ensures
            text@ == self.message_spec(),
    {
        match self {
            DlmmError::InvalidStartBinIndex => "Invalid start bin index".to_owned(),
            DlmmError::InvalidBinId => "Invalid bin id".to_owned(),
            DlmmError::InvalidInput => "Invalid input data".to_owned(),
            DlmmError::MathOverflow => "Math overflow".to_owned(),
            DlmmError::InvariantViolation => "Invariant violated".to_owned(),
        }
    }
}

} // verus!

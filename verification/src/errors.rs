//! The library's error type.

use vstd::prelude::*;

verus! {

/// Why a weight vector cannot be sampled from.
#[derive(Debug, Clone, Copy, PartialEq, Eq, Structural)]
pub enum WeightsFault {
    /// The vector is empty or has more than `u32::MAX` entries.
    InvalidInput,
    /// A weight is negative or too large for the sampler.
    InvalidWeight,
    /// All weights are zero.
    InsufficientNonZero,
    /// The sum of the weights cannot be represented.
    Overflow,
}

/// Errors of this library.
#[derive(Debug, Clone, Copy, PartialEq, Eq, Structural)]
pub enum LittleError {
    /// A weight vector was rejected when a sampler was built from it.
    Weights(WeightsFault),
    /// Any other failure.
    Unknown,
}

impl LittleError {
    /// A short description of the error.
    pub fn message(&self) -> (s: &'static str)
        ensures
            s@ == (match *self {
                LittleError::Weights(_) => "error with weigths"@,
                LittleError::Unknown => "unknown little-sorry error"@,
            }),
    {
        match self {
            LittleError::Weights(_) => "error with weigths",
            LittleError::Unknown => "unknown little-sorry error",
        }
    }
}

} // verus!

//! Error types returned by fallible accumulator operations.

use vstd::prelude::*;

verus! {

/// Errors that can be returned by accumulator operations.
#[derive(Debug, Clone, Copy, PartialEq, Eq, Structural)]
pub enum AccumulatorError {
    /// A membership proof was requested for an element that is not in the set.
    ElementNotInSet,
    /// An element that is not coprime with the accumulator set product was given.
    NotCoprime,
    /// A proof update was requested with a negative delta.
    NegativeDelta,
}

/// The result of a fallible accumulator operation.
pub type AccumulatorResult<T> = Result<T, AccumulatorError>;

impl AccumulatorError {
    /// The human-readable description of the error.
    pub fn message(&self) -> (r: &'static str)
        ensures
            r@ == (match self {
                AccumulatorError::ElementNotInSet => "element is not in the accumulator set"@,
                AccumulatorError::NotCoprime => "element is not coprime with the accumulator set product"@,
                AccumulatorError::NegativeDelta => "delta must be non-negative for a proof update"@,
            }),
    {
        match self {
            AccumulatorError::ElementNotInSet => "element is not in the accumulator set",
            AccumulatorError::NotCoprime => "element is not coprime with the accumulator set product",
            AccumulatorError::NegativeDelta => "delta must be non-negative for a proof update",
        }
    }
}

} // verus!

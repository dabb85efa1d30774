//! The ways in which a request to the engine can be refused.
use vstd::prelude::*;

verus! {

/// Why the engine refused to compute.
#[derive(Clone, Copy, Debug, PartialEq, Eq, Structural)]
pub enum RegressionError {
    /// Two shapes that have to agree do not: the design matrix has another
    /// number of columns than the parameter vector has entries, another
    /// number of rows than there are labels, or a table is ragged.
    DimensionMismatch,
    /// The learning rate is not greater than zero, or the iteration count is
    /// negative.
    InvalidHyperparameter,
}

/// The sentence that describes `e`.
pub open spec fn message_of(e: RegressionError) -> Seq<char> {
    match e {
        RegressionError::DimensionMismatch => "dimension mismatch: the shapes do not fit"@,
        RegressionError::InvalidHyperparameter =>
            "invalid hyperparameter: the learning rate must be above zero and the iteration count must not be negative"@,
    }
}

impl RegressionError {
    /// A sentence that says what was refused.
    pub fn message(&self) -> (s: &'static str)
        ensures
            s@ == message_of(*self),
    {
        match self {
            RegressionError::DimensionMismatch => "dimension mismatch: the shapes do not fit",
            RegressionError::InvalidHyperparameter =>
                "invalid hyperparameter: the learning rate must be above zero and the iteration count must not be negative",
        }
    }
}

} // verus!

//! Errors reported while deriving protocol parameters.

use vstd::prelude::*;

verus! {

/// Why a set of protocol parameters could not be constructed.
#[derive(Clone, Copy, Debug, PartialEq, Eq, Structural)]
pub enum Error {
    /// The fold arities sum to at least the number of fold rounds.
    InvalidFoldAritySequence,
    /// The target security level cannot be reached with the given code and field.
    ParameterError,
    /// The code's block length exceeds what the evaluation domain or the machine can index.
    CodeLengthOutOfRange,
}

} // verus!

//! Errors of filling a batch.

use vstd::prelude::*;

verus! {

/// A position could not be added to a batch.
#[derive(Clone, Copy, Debug, PartialEq, Eq, Structural)]
pub enum BatchAddError {
    /// The batch is full; holds the number of positions it was made for.
    InsufficientSpace(usize),
    /// The embedding row does not have the batch's row length.
    EmbdLengthMismatch {
        /// The row length of the batch.
        expected: usize,
        /// The length of the row that was given.
        actual: usize,
    },
}

} // verus!

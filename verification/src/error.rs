//! The ways in which a filter request can be turned down.

use vstd::prelude::*;

verus! {

/// Why a request was refused. Every refusal comes before any sample is
/// written.
#[derive(Clone, Copy, Debug, PartialEq, Eq, Structural)]
pub enum FilterError {
    /// The output and input buffers differ in length.
    LengthMismatch,
    /// The moment order exceeds twice the half-window.
    InvalidWindowParameters,
    /// The linear solve for the weights could not be carried through: a
    /// pivot vanished, or a value left the range of exact 64-bit arithmetic.
    SingularSystem,
}

} // verus!

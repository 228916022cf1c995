//! Errors.

use vstd::prelude::*;

verus! {

/// Why a function cannot be compiled.
#[derive(Clone, Copy, Debug, PartialEq, Eq, Structural)]
pub enum CtonError {
    /// The input is invalid.
    InvalidInput,
    /// An implementation limit was exceeded, although the input may be valid.
    ImplLimitExceeded,
}

/// The outcome of a compilation step.
pub type CtonResult = Result<(), CtonError>;

} // verus!

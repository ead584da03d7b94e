//! Errors raised by the relay's verified logic.

use vstd::prelude::*;

verus! {

#[derive(Debug, PartialEq, Eq)]
pub enum RelayError {
    /// The configuration could not be used.
    Config(String),
    /// A capacity limit (named by the label) is exhausted.
    OverCapacity(&'static str),
    /// A peer broke the relay protocol.
    Protocol(&'static str),
    /// Anything else.
    Internal(String),
}

pub type RelayResult<T> = Result<T, RelayError>;

} // verus!

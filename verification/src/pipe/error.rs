//! What can go wrong on a pipe.

use vstd::prelude::*;

verus! {

/// Errors returned by pipe operations.
#[derive(Debug, Clone, Copy, PartialEq, Eq, Structural)]
pub enum PipeError {
    /// The ring is empty (read) or full (write). Try again later.
    WouldBlock,
}

impl PipeError {
    /// Text of the error for people.
    pub fn message(&self) -> (text: &'static str)
        ensures
            text@ == "operation would block"@,
    {
        match self {
            PipeError::WouldBlock => "operation would block",
        }
    }
}

} // verus!

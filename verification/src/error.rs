//! The error type for a grep run. The failures themselves (a file that
//! cannot be read, and the like) happen outside this library; here each is
//! carried as a plain description.

use vstd::prelude::*;

verus! {

/// What can go wrong while running a grep: an input/output failure, or
/// any other failure, each carrying its description.
#[derive(Debug)]
pub enum RunError {
    InputOutputError(String),
    Other(String),
}

impl RunError {
    /// The description this error carries.
    pub fn message(&self) -> (message: &String)
        ensures
            (match self {
                RunError::InputOutputError(m) => message == m,
                RunError::Other(m) => message == m,
            }),
    {
        match self {
            RunError::InputOutputError(m) => m,
            RunError::Other(m) => m,
        }
    }
}

} // verus!

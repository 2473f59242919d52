//! The error type for conditions that stop a whole run: unreadable input
//! or a record that fails structural parsing.

use vstd::prelude::*;

verus! {

/// A fatal error: a short reason, and optionally the text of an underlying
/// cause.
#[derive(Debug)]
pub struct Error {
    pub reason: String,
    pub cause: Option<String>,
}

impl Error {
    /// An error with a reason alone.
    pub fn new(reason: String) -> (r: Error)
        ensures
            r.reason == reason,
            r.cause is None,
    {
        Error { reason, cause: None }
    }

    /// An error wrapping an underlying cause.
    pub fn with_cause(reason: String, cause: String) -> (r: Error)
        ensures
            r.reason == reason,
            r.cause == Some(cause),
    {
        Error { reason, cause: Some(cause) }
    }
}

} // verus!

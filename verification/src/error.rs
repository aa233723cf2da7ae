//! The failures a run can end in.

use vstd::prelude::*;

verus! {

/// The phase of a run in which a failure arose.
#[derive(Clone, Copy, Debug, PartialEq, Eq, Structural)]
pub enum ErrorKind {
    /// The candidate source could not be opened, read or decoded.
    Io,
    /// The store could not be opened or configured.
    Connection,
    /// A membership query could not be prepared or executed.
    Query,
    /// A value returned by the store could not be read as a string.
    Decode,
}

/// A failure: the phase it arose in and a human-readable description.
#[derive(Debug, PartialEq, Eq)]
pub struct CheckError {
    pub kind: ErrorKind,
    pub message: String,
}

impl CheckError {
    /// A failure of the given kind with the given description.
    pub fn new(kind: ErrorKind, message: String) -> (e: CheckError)
        ensures
            e.kind == kind,
            e.message == message,
    {
        CheckError { kind, message }
    }
}

} // verus!

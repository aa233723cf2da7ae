//! How the result of a run maps to a process exit status.

use vstd::prelude::*;
use crate::error::CheckError;

verus! {

/// Exit status of a run in which no candidate matched the store.
pub const EXIT_NO_MATCH: i32 = 0;

/// Exit status of a run in which at least one candidate matched.
pub const EXIT_MATCH: i32 = 1;

/// Exit status of a run that failed.
pub const EXIT_FAILURE: i32 = 2;

/// The exit status that reports `outcome`.
pub open spec fn exit_status(outcome: Result<Vec<String>, CheckError>) -> i32 {
    match outcome {
        Ok(found) => if found@.len() > 0 {
            EXIT_MATCH
        } else {
            EXIT_NO_MATCH
        },
        Err(_) => EXIT_FAILURE,
    }
}

/// Maps the result of a run to its exit status: 1 when the match
/// list is non-empty, 0 when it is empty, 2 when the run failed.
pub fn exit_code(outcome: &Result<Vec<String>, CheckError>) -> (code: i32)
    ensures
        code == exit_status(*outcome),
        code == 1 <==> (outcome matches Ok(found) && found@.len() > 0),
        code == 0 <==> (outcome matches Ok(found) && found@.len() == 0),
        code == 2 <==> outcome is Err,
{
    match outcome {
        Ok(found) => {
            if found.len() > 0 {
                EXIT_MATCH
            } else {
                EXIT_NO_MATCH
            }
        },
        Err(_) => EXIT_FAILURE,
    }
}

} // verus!

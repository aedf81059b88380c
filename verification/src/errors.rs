//! The kinds of failure a run can meet, and the exit status each calls
//! for. Every kind but delivery failure terminates the run.
use vstd::prelude::*;

verus! {

/// A failure kind. Fetch failure ends the run with status 1; missing or
/// malformed configuration and record-file failures end it abruptly with
/// another non-zero status; a notification that could not be delivered is
/// only logged and never terminates the run.
#[derive(Debug, PartialEq, Eq, Clone, Copy)]
pub enum ErrorKind {
    /// A required setting is missing or malformed.
    Config,
    /// A network failure, or a response with a non-success HTTP status.
    Fetch,
    /// A record file could not be opened, read or written.
    Store,
    /// The notification email could not be delivered.
    Notify,
}

/// The exit status that each failure kind calls for: 1 for a fetch
/// failure, another non-zero status for the other fatal kinds, and 0 for
/// delivery failure, since the run still completes successfully.
pub open spec fn spec_exit_code(e: ErrorKind) -> int {
    match e {
        ErrorKind::Config => 2,
        ErrorKind::Fetch => 1,
        ErrorKind::Store => 3,
        ErrorKind::Notify => 0,
    }
}

/// Maps a failure kind to the exit status the run ends with.
pub fn exit_code(e: &ErrorKind) -> (c: i32)
    ensures
        c == spec_exit_code(*e),
{
    match e {
        ErrorKind::Config => 2,
        ErrorKind::Fetch => 1,
        ErrorKind::Store => 3,
        ErrorKind::Notify => 0,
    }
}

} // verus!

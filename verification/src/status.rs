//! Status reporting: which message an actor sends the supervisor when an
//! error reaches its loop, and whether the loop then continues or breaks.

use vstd::prelude::*;
use vstd::string::StringExecFns;

use crate::error::ErrorBranch;
use crate::error::TrackerError;

verus! {

/// The actor a status message originates from.
#[derive(Debug, Clone, Copy, PartialEq, Eq, Structural)]
pub enum Origin {
    /// The chain indexer.
    Mempool,
    /// The front-end server (and its monitor child).
    Server,
    /// The directory actor.
    DbManager,
}

/// A supervisor-bound state report.
#[derive(Debug)]
pub enum State {
    /// The indexer terminated with the given error.
    MempoolShutdown(TrackerError),
    /// The server terminated with the given error.
    ServerShutdown(TrackerError),
    /// The directory actor terminated with the given error.
    DBShutdown(TrackerError),
    /// Informational only.
    Healthy(String),
}

/// One message on the supervisor's queue.
#[derive(Debug)]
pub struct Status {
    pub state: State,
}

/// The note a recoverable slip produces.
pub open spec fn spec_origin_note(origin: Origin) -> Seq<char> {
    match origin {
        Origin::Mempool => "error occured in mempool"@,
        Origin::Server => "error occured in server"@,
        Origin::DbManager => "error occured in db manager"@,
    }
}

/// The report an error from a given origin produces: a fatal kind becomes
/// the origin's shutdown report carrying the error; a recoverable kind is
/// reported as a note only.
pub open spec fn spec_status_ok(origin: Origin, e: TrackerError, st: State) -> bool {
    if e.is_recoverable() {
        st matches State::Healthy(m) && m@ == spec_origin_note(origin)
    } else {
        match origin {
            Origin::Mempool => st == State::MempoolShutdown(e),
            Origin::Server => st == State::ServerShutdown(e),
            Origin::DbManager => st == State::DBShutdown(e),
        }
    }
}

/// Builds the status message for an error observed by `origin`.
pub fn status_for(origin: Origin, e: TrackerError) -> (r: Status)
    ensures
        spec_status_ok(origin, e, r.state),
{
    if matches!(&e, TrackerError::ParsingError) {
        let note = match origin {
            Origin::Mempool => String::from_str("error occured in mempool"),
            Origin::Server => String::from_str("error occured in server"),
            Origin::DbManager => String::from_str("error occured in db manager"),
        };
        Status { state: State::Healthy(note) }
    } else {
        match origin {
            Origin::Mempool => Status { state: State::MempoolShutdown(e) },
            Origin::Server => Status { state: State::ServerShutdown(e) },
            Origin::DbManager => Status { state: State::DBShutdown(e) },
        }
    }
}

/// Classifies an error and builds the report to send: parsing slips let the
/// actor continue with its next iteration; every other kind breaks its loop.
pub fn handle_error(origin: Origin, e: TrackerError) -> (r: (ErrorBranch, Status))
    ensures
        r.0 == (if e.is_recoverable() {
            ErrorBranch::Continue
        } else {
            ErrorBranch::Break
        }),
        spec_status_ok(origin, e, r.1.state),
{
    let branch = if matches!(&e, TrackerError::ParsingError) {
        ErrorBranch::Continue
    } else {
        ErrorBranch::Break
    };
    let status = status_for(origin, e);
    (branch, status)
}

} // verus!

//! Error kinds shared by every actor, and the two ways an actor reacts to one:
//! skip the current iteration, or terminate and report.

use vstd::prelude::*;

verus! {

/// The error kinds that flow through the daemon. Payload-carrying variants of
/// the runtime (I/O, RPC, serialisation) are represented by their kind alone;
/// only `General` keeps a message.
#[derive(Debug, Clone)]
pub enum TrackerError {
    /// The directory actor's inbound queue yielded end-of-stream.
    DbManagerExited,
    /// The front-end server failed fatally (accept loop or dispatch).
    ServerError,
    /// The chain indexer failed fatally.
    MempoolIndexerError,
    /// Orderly shutdown was requested.
    Shutdown,
    /// A malformed script, record or client message; recoverable.
    ParsingError,
    /// A bounded queue's receiver was dropped.
    SendError,
    /// An I/O operation failed.
    IOError,
    /// The chain oracle returned an error.
    RPCError,
    /// Encoding or decoding a wire message failed.
    SerdeCbor,
    /// Any other failure, with a description.
    General(String),
}

/// What an actor's loop does after an error was handled.
#[derive(Debug, Clone, PartialEq, Eq, Structural)]
pub enum ErrorBranch {
    /// Leave the loop: the actor terminates and the supervisor restarts it.
    Break,
    /// Skip to the next iteration: the actor stays alive.
    Continue,
}

impl TrackerError {
    /// A recoverable error lets the actor's loop continue; every other kind
    /// terminates the actor.
    pub open spec fn is_recoverable(&self) -> bool {
        self is ParsingError
    }
}

} // verus!

//! The supervisor's decision: which component to re-spawn for each status
//! message. The runtime loop that performs the restart lives outside the
//! library; it only follows what this function returns.

use vstd::prelude::*;

use crate::status::State;

verus! {

/// What the supervisor does with one status message.
#[derive(Debug, Clone, Copy, PartialEq, Eq, Structural)]
pub enum SupervisorAction {
    /// Create a fresh directory queue and re-spawn the directory actor.
    RestartDbManager,
    /// Re-spawn the chain indexer with a fresh oracle client.
    RestartIndexer,
    /// Re-spawn the front-end server, which re-spawns the monitor.
    RestartServer,
    /// Log only.
    Note,
}

/// The restart policy: each `*Shutdown` report restarts exactly its
/// component; `Healthy` reports are logged only.
pub open spec fn spec_supervise(state: State) -> SupervisorAction {
    match state {
        State::DBShutdown(_) => SupervisorAction::RestartDbManager,
        State::MempoolShutdown(_) => SupervisorAction::RestartIndexer,
        State::ServerShutdown(_) => SupervisorAction::RestartServer,
        State::Healthy(_) => SupervisorAction::Note,
    }
}

/// Decides the supervisor's reaction to one status message.
pub fn supervise(state: &State) -> (r: SupervisorAction)
    ensures
        r == spec_supervise(*state),
{
    match state {
        State::DBShutdown(_) => SupervisorAction::RestartDbManager,
        State::MempoolShutdown(_) => SupervisorAction::RestartIndexer,
        State::ServerShutdown(_) => SupervisorAction::RestartServer,
        State::Healthy(_) => SupervisorAction::Note,
    }
}

} // verus!

//! The liveness monitor's policy: when a record is due for a probe, and
//! what each connect attempt's outcome means — retry, record a fresh pong,
//! or flip the record stale. The runtime sweep performs the SOCKS dialing
//! and hands every outcome to [`probe_step`].

use vstd::prelude::*;

use crate::directory::ServerInfo;
use crate::directory::ServerInfoView;
use crate::wire::DnsRequest;

verus! {

/// Seconds a record is left alone after its last successful interaction.
pub const COOLDOWN_SECS: u64 = 5 * 60;

/// Connect attempts per record and sweep.
pub const PROBE_ATTEMPTS: u64 = 3;

/// What one connect attempt produced: a connection whose reply (if any)
/// decoded to the given request, or no connection at all.
pub enum ConnectOutcome {
    /// Connected; the decoded reply, if one arrived and decoded.
    Connected(Option<DnsRequest>),
    /// The connection could not be established.
    Failed,
}

/// The monitor's reaction to one connect attempt.
pub enum ProbeAction {
    /// Pause briefly and attempt the connection again.
    Retry,
    /// Connected: stop probing this record; apply the update, if any.
    Done(Option<(String, ServerInfo)>),
    /// All attempts failed: stop; apply the stale flip, if one is due.
    GiveUp(Option<(String, ServerInfo)>),
}

/// A record is probed only after its cooldown has elapsed.
pub fn probe_due(info: &ServerInfo, now: u64) -> (r: bool)
    requires
        info.last_seen <= now,
    ensures
        r == (now - info.last_seen > COOLDOWN_SECS),
{
    now - info.last_seen > COOLDOWN_SECS
}

/// The update a successful connection earns: a `Pong{address}` reply
/// refreshes that address with `last_seen = now` and `stale = false`;
/// anything else changes nothing.
pub open spec fn spec_pong_update(
    resp: Option<DnsRequest>,
    now: u64,
    u: Option<(String, ServerInfo)>,
) -> bool {
    match resp {
        Some(DnsRequest::Pong { address }) => u matches Some(p) && p.0@ == address@ && p.1@
            == (ServerInfoView { onion_address: address@, last_seen: now, stale: false }),
        _ => u is None,
    }
}

/// The update exhausted attempts earn: a record not already stale is
/// flipped stale, its address and `last_seen` untouched; a stale record is
/// left alone.
pub open spec fn spec_stale_flip(
    address: Seq<char>,
    info: ServerInfoView,
    u: Option<(String, ServerInfo)>,
) -> bool {
    if info.stale {
        u is None
    } else {
        u matches Some(p) && p.0@ == address && p.1@ == (ServerInfoView {
            onion_address: info.onion_address,
            last_seen: info.last_seen,
            stale: true,
        })
    }
}

/// Reacts to one connect attempt on `address`'s record: a connection ends
/// the probe with the pong update, if any; a failure is retried until
/// [`PROBE_ATTEMPTS`] attempts have failed, and then gives up with the
/// stale flip, if one is due.
pub fn probe_step(
    address: &String,
    info: &ServerInfo,
    failures: u64,
    outcome: ConnectOutcome,
    now: u64,
) -> (r: ProbeAction)
    requires
        failures < PROBE_ATTEMPTS,
    ensures
        outcome matches ConnectOutcome::Connected(resp) ==> (r matches ProbeAction::Done(u)
            && spec_pong_update(resp, now, u)),
        outcome is Failed && failures + 1 < PROBE_ATTEMPTS ==> r is Retry,
        outcome is Failed && failures + 1 >= PROBE_ATTEMPTS ==> (r matches ProbeAction::GiveUp(u)
            && spec_stale_flip(address@, info@, u)),
{
    match outcome {
        ConnectOutcome::Connected(resp) => {
            match resp {
                Some(DnsRequest::Pong { address: a }) => {
                    let rec = ServerInfo { onion_address: a.clone(), last_seen: now, stale: false };
                    ProbeAction::Done(Some((a, rec)))
                },
                _ => ProbeAction::Done(None),
            }
        },
        ConnectOutcome::Failed => {
            if failures + 1 < PROBE_ATTEMPTS {
                ProbeAction::Retry
            } else if info.stale {
                ProbeAction::GiveUp(None)
            } else {
                let rec = ServerInfo {
                    onion_address: info.onion_address.clone(),
                    last_seen: info.last_seen,
                    stale: true,
                };
                ProbeAction::GiveUp(Some((address.clone(), rec)))
            }
        },
    }
}

} // verus!

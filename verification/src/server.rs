//! The front-end server's per-request decision: what one decoded client
//! message means for the directory and for the reply path. The accept loop
//! and socket I/O live outside the library.

use vstd::prelude::*;

use crate::directory::ServerInfo;
use crate::directory::ServerInfoView;
use crate::wire::DnsRequest;

verus! {

/// What a per-connection worker does with one decoded request.
pub enum ClientAction {
    /// Fetch the active list from the directory and reply with it.
    ReplyActive,
    /// Forward an update to the directory; no reply.
    Update(String, ServerInfo),
    /// Reserved or unusable request: reply with nothing and close.
    Close,
}

/// Dispatches one client request: `Get` asks for the active list; a
/// `Pong{address}` is an unsolicited liveness receipt that refreshes its
/// address; the registration endpoint is reserved and must not disturb the
/// worker.
pub fn dispatch_request(req: DnsRequest, now: u64) -> (r: ClientAction)
    ensures
        req is Get ==> r is ReplyActive,
        req matches DnsRequest::Pong { address } ==> (r matches ClientAction::Update(k, rec)
            && k@ == address@ && rec@ == (ServerInfoView {
            onion_address: address@,
            last_seen: now,
            stale: false,
        })),
        req is Post ==> r is Close,
{
    match req {
        DnsRequest::Get => ClientAction::ReplyActive,
        DnsRequest::Pong { address } => {
            let rec = ServerInfo { onion_address: address.clone(), last_seen: now, stale: false };
            ClientAction::Update(address, rec)
        },
        DnsRequest::Post { metadata: _ } => ClientAction::Close,
    }
}

} // verus!

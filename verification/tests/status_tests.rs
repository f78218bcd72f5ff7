use tracker::dispatch_request;
use tracker::handle_error;
use tracker::status_for;
use tracker::supervise;
use tracker::ClientAction;
use tracker::DnsRequest;
use tracker::ErrorBranch;
use tracker::Origin;
use tracker::State;
use tracker::SupervisorAction;
use tracker::TrackerError;

#[test]
fn parsing_errors_continue_everything_else_breaks() {
    let (branch, _) = handle_error(Origin::Server, TrackerError::ParsingError);
    assert_eq!(branch, ErrorBranch::Continue);
    for e in [
        TrackerError::DbManagerExited,
        TrackerError::ServerError,
        TrackerError::MempoolIndexerError,
        TrackerError::Shutdown,
        TrackerError::SendError,
        TrackerError::IOError,
        TrackerError::RPCError,
        TrackerError::SerdeCbor,
        TrackerError::General("boom".to_string()),
    ] {
        let (branch, _) = handle_error(Origin::Server, e);
        assert_eq!(branch, ErrorBranch::Break);
    }
}

#[test]
fn status_routing_by_origin() {
    let s = status_for(Origin::Server, TrackerError::IOError);
    assert!(matches!(s.state, State::ServerShutdown(TrackerError::IOError)));
    let s = status_for(Origin::DbManager, TrackerError::DbManagerExited);
    assert!(matches!(s.state, State::DBShutdown(TrackerError::DbManagerExited)));
    let s = status_for(Origin::Mempool, TrackerError::MempoolIndexerError);
    assert!(matches!(s.state, State::MempoolShutdown(TrackerError::MempoolIndexerError)));
    // an oracle failure is fatal for the indexer and reported as its shutdown
    let s = status_for(Origin::Mempool, TrackerError::RPCError);
    assert!(matches!(s.state, State::MempoolShutdown(TrackerError::RPCError)));
}

#[test]
fn indexer_slips_report_healthy() {
    let s = status_for(Origin::Mempool, TrackerError::ParsingError);
    match s.state {
        State::Healthy(msg) => assert_eq!(msg, "error occured in mempool"),
        _ => panic!("a recoverable indexer error is reported as a note"),
    }
}

#[test]
fn supervisor_restarts_the_crashed_component() {
    assert_eq!(
        supervise(&State::DBShutdown(TrackerError::DbManagerExited)),
        SupervisorAction::RestartDbManager
    );
    assert_eq!(
        supervise(&State::MempoolShutdown(TrackerError::RPCError)),
        SupervisorAction::RestartIndexer
    );
    assert_eq!(
        supervise(&State::ServerShutdown(TrackerError::IOError)),
        SupervisorAction::RestartServer
    );
    assert_eq!(supervise(&State::Healthy("fine".to_string())), SupervisorAction::Note);
}

#[test]
fn client_dispatch_follows_the_protocol() {
    assert!(matches!(dispatch_request(DnsRequest::Get, 7), ClientAction::ReplyActive));
    match dispatch_request(DnsRequest::Pong { address: "m.onion:1".to_string() }, 7) {
        ClientAction::Update(key, rec) => {
            assert_eq!(key, "m.onion:1");
            assert_eq!(rec.onion_address, "m.onion:1");
            assert_eq!(rec.last_seen, 7);
            assert!(!rec.stale);
        }
        _ => panic!("a pong refreshes its address"),
    }
    let post = DnsRequest::Post {
        metadata: tracker::DnsMetadata { url: "u".to_string(), bond_proof: vec![] },
    };
    assert!(matches!(dispatch_request(post, 7), ClientAction::Close));
}

use tracker::probe_due;
use tracker::probe_step;
use tracker::scan_block;
use tracker::scan_transaction;
use tracker::ConnectOutcome;
use tracker::Directory;
use tracker::DnsRequest;
use tracker::ProbeAction;
use tracker::ServerInfo;
use tracker::TxModel;

fn rec(addr: &str, last_seen: u64, stale: bool) -> ServerInfo {
    ServerInfo { onion_address: addr.to_string(), last_seen, stale }
}

#[test]
fn cooldown_suppresses_recent_records() {
    // last interaction 30 seconds ago: left alone
    let info = rec("y.onion:1", 1000, false);
    assert!(!probe_due(&info, 1030));
}

#[test]
fn elapsed_cooldown_makes_record_due() {
    // last interaction 10 minutes ago: probed
    let info = rec("x.onion:1", 1000, false);
    assert!(probe_due(&info, 1600));
    // the boundary itself is not past the cooldown
    assert!(!probe_due(&info, 1300));
    assert!(probe_due(&info, 1301));
}

#[test]
fn three_failures_flip_record_stale() {
    let addr = "x.onion:1".to_string();
    let info = rec("x.onion:1", 1000, false);
    let mut failures = 0u64;
    let mut attempts = 0u64;
    let update = loop {
        attempts += 1;
        match probe_step(&addr, &info, failures, ConnectOutcome::Failed, 2000) {
            ProbeAction::Retry => failures += 1,
            ProbeAction::GiveUp(u) => break u,
            ProbeAction::Done(_) => panic!("a failed connect never completes the probe"),
        }
    };
    assert_eq!(attempts, 3);
    let (key, updated) = update.expect("a record not yet stale is flipped");
    assert_eq!(key, "x.onion:1");
    assert!(updated.stale);
    assert_eq!(updated.last_seen, 1000);
    assert_eq!(updated.onion_address, "x.onion:1");
}

#[test]
fn already_stale_record_is_not_updated_again() {
    let addr = "x.onion:1".to_string();
    let info = rec("x.onion:1", 1000, true);
    match probe_step(&addr, &info, 2, ConnectOutcome::Failed, 2000) {
        ProbeAction::GiveUp(None) => {}
        other => panic!("unexpected action {:?}", action_name(&other)),
    }
}

#[test]
fn pong_reply_refreshes_the_answering_address() {
    let addr = "x.onion:1".to_string();
    let info = rec("x.onion:1", 1000, false);
    let resp = Some(DnsRequest::Pong { address: "x.onion:1".to_string() });
    match probe_step(&addr, &info, 0, ConnectOutcome::Connected(resp), 2000) {
        ProbeAction::Done(Some((key, updated))) => {
            assert_eq!(key, "x.onion:1");
            assert_eq!(updated.last_seen, 2000);
            assert!(!updated.stale);
        }
        other => panic!("unexpected action {:?}", action_name(&other)),
    }
}

#[test]
fn non_pong_reply_changes_nothing() {
    let addr = "x.onion:1".to_string();
    let info = rec("x.onion:1", 1000, false);
    match probe_step(&addr, &info, 0, ConnectOutcome::Connected(Some(DnsRequest::Get)), 2000) {
        ProbeAction::Done(None) => {}
        other => panic!("unexpected action {:?}", action_name(&other)),
    }
    match probe_step(&addr, &info, 0, ConnectOutcome::Connected(None), 2000) {
        ProbeAction::Done(None) => {}
        other => panic!("unexpected action {:?}", action_name(&other)),
    }
}

fn action_name(a: &ProbeAction) -> &'static str {
    match a {
        ProbeAction::Retry => "Retry",
        ProbeAction::Done(_) => "Done",
        ProbeAction::GiveUp(_) => "GiveUp",
    }
}

fn op_return_script(payload: &[u8]) -> Vec<u8> {
    let mut s = vec![0x6a, payload.len() as u8];
    s.extend_from_slice(payload);
    s
}

#[test]
fn announcement_path_installs_one_record() {
    // a synthetic block: one transaction, locktime 500000, two outputs, the
    // second an OP_RETURN with a 70-byte onion record
    let addr = "abcdefghijklmnopqrstuvwxyz234567abcdefghijklmnopqrstuvwxyz.onion:8080";
    let tx = TxModel {
        lock_time: 500000,
        outputs: vec![vec![0x51, 0x02, 0xab, 0xcd], op_return_script(addr.as_bytes())],
    };
    let adds = scan_block(&vec![tx], 42);
    assert_eq!(adds.len(), 1);
    let mut d = Directory::new();
    for (k, v) in adds {
        d.insert(k, v);
    }
    let all = d.query_all();
    assert_eq!(all.len(), 1);
    assert_eq!(all[0].0, addr);
    assert!(!all[0].1.stale);
    assert_eq!(all[0].1.last_seen, 42);
}

#[test]
fn indexer_skips_non_announcements() {
    let addr = "maker.onion:8080";
    // locktime zero
    let tx = TxModel {
        lock_time: 0,
        outputs: vec![vec![0x00], op_return_script(addr.as_bytes())],
    };
    assert!(scan_transaction(&tx, 1).is_none());
    // wrong output count
    let tx = TxModel { lock_time: 7, outputs: vec![op_return_script(addr.as_bytes())] };
    assert!(scan_transaction(&tx, 1).is_none());
    // no output holds a record
    let tx = TxModel { lock_time: 7, outputs: vec![vec![0x00], vec![0x51]] };
    assert!(scan_transaction(&tx, 1).is_none());
}

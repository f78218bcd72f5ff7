use tracker::DbRequest;
use tracker::DbResponse;
use tracker::Directory;
use tracker::ServerInfo;

fn rec(addr: &str, last_seen: u64, stale: bool) -> ServerInfo {
    ServerInfo { onion_address: addr.to_string(), last_seen, stale }
}

#[test]
fn insert_then_query_returns_record() {
    let mut d = Directory::new();
    d.insert("a.onion:1".to_string(), rec("a.onion:1", 5, false));
    let got = d.query(&"a.onion:1".to_string()).unwrap();
    assert_eq!(got.onion_address, "a.onion:1");
    assert_eq!(got.last_seen, 5);
    assert!(!got.stale);
    assert!(d.query(&"b.onion:1".to_string()).is_none());
}

#[test]
fn reinsert_replaces_wholesale() {
    let mut d = Directory::new();
    d.insert("a.onion:1".to_string(), rec("a.onion:1", 5, true));
    d.insert("a.onion:1".to_string(), rec("a.onion:1", 9, false));
    let got = d.query(&"a.onion:1".to_string()).unwrap();
    assert_eq!(got.last_seen, 9);
    assert!(!got.stale);
    let all = d.query_all();
    assert_eq!(all.len(), 1);
}

#[test]
fn last_writer_wins_over_request_sequence() {
    let mut d = Directory::new();
    let ops = vec![
        DbRequest::Add("a.onion:1".to_string(), rec("a.onion:1", 1, false)),
        DbRequest::Add("b.onion:2".to_string(), rec("b.onion:2", 2, false)),
        DbRequest::Update("a.onion:1".to_string(), rec("a.onion:1", 3, true)),
    ];
    for op in ops {
        match d.handle_request(op) {
            DbResponse::Done => {}
            _ => panic!("write replies with Done"),
        }
    }
    let a = d.query(&"a.onion:1".to_string()).unwrap();
    assert_eq!(a.last_seen, 3);
    assert!(a.stale);
    let b = d.query(&"b.onion:2".to_string()).unwrap();
    assert_eq!(b.last_seen, 2);
}

#[test]
fn query_all_snapshots_every_pair() {
    let mut d = Directory::new();
    d.insert("a.onion:1".to_string(), rec("a.onion:1", 1, false));
    d.insert("b.onion:2".to_string(), rec("b.onion:2", 2, true));
    let mut keys: Vec<String> = d.query_all().into_iter().map(|p| p.0).collect();
    keys.sort();
    assert_eq!(keys, vec!["a.onion:1".to_string(), "b.onion:2".to_string()]);
}

#[test]
fn query_active_filters_stale_records() {
    let mut d = Directory::new();
    d.insert("a.onion:1".to_string(), rec("a.onion:1", 1, false));
    d.insert("b.onion:2".to_string(), rec("b.onion:2", 2, true));
    d.insert("c.onion:3".to_string(), rec("c.onion:3", 3, false));
    let mut active = d.query_active();
    active.sort();
    assert_eq!(active, vec!["a.onion:1".to_string(), "c.onion:3".to_string()]);
}

#[test]
fn query_requests_leave_the_store_unchanged() {
    let mut d = Directory::new();
    d.insert("a.onion:1".to_string(), rec("a.onion:1", 1, false));
    match d.handle_request(DbRequest::QueryActive) {
        DbResponse::Active(v) => assert_eq!(v, vec!["a.onion:1".to_string()]),
        _ => panic!("QueryActive replies with Active"),
    }
    match d.handle_request(DbRequest::Query("a.onion:1".to_string())) {
        DbResponse::Record(Some(r)) => assert_eq!(r.last_seen, 1),
        _ => panic!("Query replies with the record"),
    }
    match d.handle_request(DbRequest::QueryAll) {
        DbResponse::All(v) => assert_eq!(v.len(), 1),
        _ => panic!("QueryAll replies with All"),
    }
}

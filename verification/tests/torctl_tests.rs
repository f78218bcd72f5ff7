use serde_cbor::value::Value;

use tracker::add_onion_cmd;
use tracker::auth_ok;
use tracker::authenticate_cmd;
use tracker::bootstrap_ready;
use tracker::decode_key_file;
use tracker::del_onion_cmd;
use tracker::encode_key_file;
use tracker::getinfo_bootstrap_cmd;
use tracker::parse_proxy_auth;
use tracker::restored_matches;
use tracker::scan_control_reply;
use tracker::strip_onion_suffix;
use tracker::TrackerError;

#[test]
fn control_commands_are_rendered_exactly() {
    assert_eq!(authenticate_cmd("pw"), "AUTHENTICATE \"pw\"\r\n");
    assert_eq!(authenticate_cmd(""), "AUTHENTICATE \"\"\r\n");
    assert_eq!(getinfo_bootstrap_cmd(), "GETINFO status/bootstrap-phase\r\n");
    assert_eq!(del_onion_cmd("abcdef"), "DEL_ONION abcdef\r\n");
    assert_eq!(
        add_onion_cmd(None, 8080),
        "ADD_ONION NEW:BEST Flags=Detach Port=8080,127.0.0.1:8080\r\n"
    );
    let key = "ED25519-V3:AAAA".to_string();
    assert_eq!(
        add_onion_cmd(Some(&key), 80),
        "ADD_ONION ED25519-V3:AAAA Flags=Detach Port=80,127.0.0.1:80\r\n"
    );
}

#[test]
fn reply_lines_are_classified() {
    assert!(auth_ok("250 OK\r\n"));
    assert!(!auth_ok("515 Bad authentication\r\n"));
    assert!(!auth_ok(""));
    assert!(bootstrap_ready("250-status/bootstrap-phase=NOTICE BOOTSTRAP PROGRESS=100 TAG=done\r\n"));
    assert!(!bootstrap_ready("250-status/bootstrap-phase=NOTICE BOOTSTRAP PROGRESS=85\r\n"));
}

#[test]
fn scan_reply_with_fresh_key_reads_both_lines() {
    let lines = vec![
        "250-ServiceID=abcdefghijklmnop\r\n".to_string(),
        "250-PrivateKey=ED25519-V3:examplekey\r\n".to_string(),
        "250 OK\r\n".to_string(),
    ];
    let (host, key) = scan_control_reply(&lines, None).unwrap();
    assert_eq!(host, "abcdefghijklmnop.onion");
    assert_eq!(key, "ED25519-V3:examplekey");
}

#[test]
fn scan_reply_with_persisted_key_keeps_it() {
    let lines = vec!["250-ServiceID=abcdefghijklmnop\r\n".to_string(), "250 OK\r\n".to_string()];
    let provided = "ED25519-V3:examplekey".to_string();
    let (host, key) = scan_control_reply(&lines, Some(&provided)).unwrap();
    assert_eq!(host, "abcdefghijklmnop.onion");
    assert_eq!(key, provided);
}

#[test]
fn scan_reply_without_the_lines_is_fatal() {
    let lines = vec!["250 OK\r\n".to_string()];
    assert!(matches!(scan_control_reply(&lines, None), Err(TrackerError::General(_))));
    let lines = vec!["250-ServiceID=abc\r\n".to_string()];
    assert!(matches!(scan_control_reply(&lines, None), Err(TrackerError::General(_))));
}

#[test]
fn key_file_round_trip_yields_equal_strings() {
    let pk = "ED25519-V3:examplekey";
    let host = "abcdefghijklmnop.onion";
    let bytes = encode_key_file(pk, host);
    let (pk2, host2) = decode_key_file(&bytes).unwrap();
    assert_eq!(pk2, pk);
    assert_eq!(host2, host);
}

#[test]
fn key_file_matches_the_two_string_array_encoding() {
    let pk = "ED25519-V3:examplekey";
    let host = "maker.onion";
    let expected = serde_cbor::to_vec(&Value::Array(vec![
        Value::Text(pk.into()),
        Value::Text(host.into()),
    ]))
    .unwrap();
    assert_eq!(encode_key_file(pk, host), expected);
    let via_serde: [String; 2] = serde_cbor::from_slice(&encode_key_file(pk, host)).unwrap();
    assert_eq!(via_serde[0], pk);
    assert_eq!(via_serde[1], host);
}

#[test]
fn decode_key_file_rejects_other_shapes() {
    assert!(decode_key_file(&[]).is_none());
    let one = serde_cbor::to_vec(&Value::Array(vec![Value::Text("only".into())])).unwrap();
    assert!(decode_key_file(&one).is_none());
    let mut extra = encode_key_file("k", "h");
    extra.push(0);
    assert!(decode_key_file(&extra).is_none());
}

#[test]
fn onion_suffix_is_stripped_for_del_onion() {
    assert_eq!(strip_onion_suffix("abcdef.onion"), "abcdef");
    assert_eq!(strip_onion_suffix("abcdef"), "abcdef");
    assert_eq!(strip_onion_suffix(".onion"), "");
    assert_eq!(strip_onion_suffix("x.oniony"), "x.oniony");
}

#[test]
fn restored_identity_must_match_the_persisted_one() {
    let k = "key".to_string();
    let h = "host.onion".to_string();
    assert!(restored_matches(&k, &h, &"key".to_string(), &"host.onion".to_string()));
    assert!(!restored_matches(&k, &h, &"other".to_string(), &"host.onion".to_string()));
    assert!(!restored_matches(&k, &h, &"key".to_string(), &"other.onion".to_string()));
}

#[test]
fn proxy_auth_splits_on_the_single_colon() {
    let (user, pass) = parse_proxy_auth("user:password").unwrap();
    assert_eq!(user, "user");
    assert_eq!(pass, "password");
    let (user, pass) = parse_proxy_auth(":pw").unwrap();
    assert_eq!(user, "");
    assert_eq!(pass, "pw");
    assert!(matches!(parse_proxy_auth("nocolon"), Err(TrackerError::ParsingError)));
    assert!(matches!(parse_proxy_auth("a:b:c"), Err(TrackerError::ParsingError)));
}

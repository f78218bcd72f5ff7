use tracker::extract_onion_address_from_script;
use tracker::is_valid_onion_address;
use tracker::parse_port;

fn op_return_script(payload: &[u8]) -> Vec<u8> {
    let mut s = vec![0x6a, payload.len() as u8];
    s.extend_from_slice(payload);
    s
}

#[test]
fn direct_push_accepts_valid_record() {
    let script = op_return_script(b"makerhost.onion:8080");
    assert_eq!(
        extract_onion_address_from_script(&script),
        Some("makerhost.onion:8080".to_string())
    );
}

#[test]
fn rejects_missing_op_return_opcode() {
    assert_eq!(extract_onion_address_from_script(b"\x51\x14host.onion:80"), None);
    assert_eq!(extract_onion_address_from_script(b""), None);
    assert_eq!(extract_onion_address_from_script(b"\x6a"), None);
}

#[test]
fn direct_push_75_bytes_is_accepted() {
    // 0x4b = 75: the largest direct push; 64-char label + ".onion:8080" = 75 bytes
    let payload = format!("{}.onion:8080", "a".repeat(64));
    assert_eq!(payload.len(), 75);
    let script = op_return_script(payload.as_bytes());
    assert_eq!(script[1], 0x4b);
    assert_eq!(extract_onion_address_from_script(&script), Some(payload));
}

#[test]
fn pushdata1_with_zero_length_rejected_by_onion_validation() {
    // 0x4c with length byte 0 decodes to an empty payload, which the onion
    // validator rejects.
    let script = vec![0x6a, 0x4c, 0x00];
    assert_eq!(extract_onion_address_from_script(&script), None);
}

#[test]
fn pushdata1_and_pushdata2_forms_decode() {
    let payload = b"bigmaker.onion:9999";
    let mut s1 = vec![0x6a, 0x4c, payload.len() as u8];
    s1.extend_from_slice(payload);
    assert_eq!(
        extract_onion_address_from_script(&s1),
        Some("bigmaker.onion:9999".to_string())
    );
    let mut s2 = vec![0x6a, 0x4d, payload.len() as u8, 0x00];
    s2.extend_from_slice(payload);
    assert_eq!(
        extract_onion_address_from_script(&s2),
        Some("bigmaker.onion:9999".to_string())
    );
}

#[test]
fn declared_length_must_not_overrun_script() {
    let mut s = vec![0x6a, 0x10];
    s.extend_from_slice(b"short.onion:1");
    assert_eq!(s[1] as usize > s.len() - 2, true);
    assert_eq!(extract_onion_address_from_script(&s), None);
}

#[test]
fn onion_validator_checks_shape() {
    assert!(is_valid_onion_address("abc.onion:80"));
    assert!(!is_valid_onion_address("abc.onion"));
    assert!(!is_valid_onion_address("abc.other:80"));
    assert!(!is_valid_onion_address("abc.onion:80:81"));
    assert!(!is_valid_onion_address("abc.onion:0"));
    assert!(!is_valid_onion_address(""));
}

#[test]
fn port_parsing_rejects_zero_overflow_and_junk() {
    // port 0 is rejected by the onion validator
    assert!(!is_valid_onion_address("x.onion:0"));
    assert_eq!(parse_port(b"0"), Some(0));
    // 65536 overflows a u16
    assert_eq!(parse_port(b"65536"), None);
    assert!(!is_valid_onion_address("x.onion:65536"));
    // non-decimal strings
    assert_eq!(parse_port(b"12a"), None);
    assert_eq!(parse_port(b""), None);
    assert_eq!(parse_port(b"-1"), None);
    assert!(!is_valid_onion_address("x.onion:port"));
}

#[test]
fn port_parsing_matches_standard_library_edge_cases() {
    assert_eq!(parse_port(b"65535"), Some(65535));
    assert_eq!(parse_port(b"+80"), Some(80));
    assert_eq!(parse_port(b"+"), None);
    assert_eq!(parse_port(b"0080"), Some(80));
    assert_eq!(parse_port(b" 80"), None);
}

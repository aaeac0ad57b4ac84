use beet_esp::mdns::build_answer;
use beet_esp::mdns::build_query;
use beet_esp::mdns::is_query_for;
use beet_esp::mdns::parse_answer;

#[test]
fn query_roundtrips_through_is_query_for() {
    let mut buf = [0u8; 256];
    let len = build_query(&mut buf, "beet-esp").unwrap();
    assert!(is_query_for(&buf[..len], "beet-esp"));
    assert!(!is_query_for(&buf[..len], "other"));
}

#[test]
fn answer_roundtrips_through_parse_answer() {
    let ip = [192, 168, 1, 42];
    let mut buf = [0u8; 256];
    let len = build_answer(&mut buf, "beet-esp", ip).unwrap();
    assert_eq!(parse_answer(&buf[..len], "beet-esp"), Some(ip));
    assert_eq!(parse_answer(&buf[..len], "other"), None);
}

#[test]
fn query_is_not_mistaken_for_answer() {
    let mut buf = [0u8; 256];
    let len = build_query(&mut buf, "beet-esp").unwrap();
    // A query (QR=0) must not parse as an answer.
    assert_eq!(parse_answer(&buf[..len], "beet-esp"), None);
}

#[test]
fn answer_is_not_mistaken_for_query() {
    let ip = [10, 0, 0, 5];
    let mut buf = [0u8; 256];
    let len = build_answer(&mut buf, "beet-esp", ip).unwrap();
    // An answer (QR=1) must not be treated as a query to respond to.
    assert!(!is_query_for(&buf[..len], "beet-esp"));
}

#[test]
fn case_insensitive_match() {
    let mut buf = [0u8; 256];
    let len = build_query(&mut buf, "Beet-ESP").unwrap();
    assert!(is_query_for(&buf[..len], "beet-esp"));
}

use beet_esp::socket::connect_target;
use beet_esp::socket::has_scheme;
use beet_esp::socket::key_bytes;
use beet_esp::socket::unbracket;
use beet_esp::socket::ConnectError;

#[test]
fn plain_target_takes_default_port() {
    let t = connect_target(false, Some("example.com"), Some("example.com"), None).unwrap();
    assert_eq!(t.authority, "example.com");
    assert_eq!(t.host, "example.com");
    assert_eq!(t.port, 80);
    assert!(!t.secure);
}

#[test]
fn secure_target_takes_tls_port() {
    let t = connect_target(true, Some("example.com"), Some("example.com"), None).unwrap();
    assert_eq!(t.port, 443);
    assert!(t.secure);
}

#[test]
fn explicit_port_wins() {
    let t = connect_target(true, Some("10.0.0.2:8337"), Some("10.0.0.2"), Some(8337)).unwrap();
    assert_eq!(t.authority, "10.0.0.2:8337");
    assert_eq!(t.host, "10.0.0.2");
    assert_eq!(t.port, 8337);
}

#[test]
fn ipv6_host_loses_brackets() {
    let t = connect_target(false, Some("[::1]:9000"), Some("[::1]"), Some(9000)).unwrap();
    assert_eq!(t.host, "::1");
    assert_eq!(unbracket("[[fe80::1]]"), "fe80::1");
    assert_eq!(unbracket("[]"), "");
    assert_eq!(unbracket("plain"), "plain");
}

#[test]
fn missing_host_is_empty() {
    let t = connect_target(false, Some("x"), None, None).unwrap();
    assert_eq!(t.host, "");
}

#[test]
fn missing_authority_is_refused() {
    assert_eq!(
        connect_target(false, None, Some("example.com"), Some(80)).err(),
        Some(ConnectError::NoAuthority)
    );
}

#[test]
fn scheme_detection() {
    assert!(has_scheme("ws://192.168.0.2:8337"));
    assert!(has_scheme("wss://example.com"));
    assert!(!has_scheme("192.168.0.2:8337"));
    assert!(!has_scheme(":/"));
    assert!(!has_scheme(""));
}

#[test]
fn key_bytes_are_little_endian_words() {
    assert_eq!(key_bytes(&[0x0403_0201, 0x0807_0605], 6), vec![1, 2, 3, 4, 5, 6]);
    assert_eq!(key_bytes(&[0xDDCC_BBAA], 4), vec![0xAA, 0xBB, 0xCC, 0xDD]);
    assert_eq!(key_bytes(&[], 0), Vec::<u8>::new());
}

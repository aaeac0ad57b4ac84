use beet_esp::net::parse_ipv4;
use beet_esp::net::split_authority;
use beet_esp::net::strip_local_suffix;
use beet_esp::net::WifiSettings;

#[test]
fn parses_dotted_ipv4() {
    assert_eq!(parse_ipv4("192.168.0.50"), Some([192, 168, 0, 50]));
    assert_eq!(parse_ipv4(" 10 . 0.0.+7 "), Some([10, 0, 0, 7]));
}

#[test]
fn malformed_ipv4_is_refused() {
    assert_eq!(parse_ipv4("1.2.3"), None);
    assert_eq!(parse_ipv4("1.2.3.4.5"), None);
    assert_eq!(parse_ipv4("1.2.3.4."), None);
    assert_eq!(parse_ipv4("1.2.3.256"), None);
    assert_eq!(parse_ipv4("1..3.4"), None);
    assert_eq!(parse_ipv4("a.b.c.d"), None);
    assert_eq!(parse_ipv4(""), None);
}

#[test]
fn whitespace_is_trimmed_as_str_trim_does() {
    // A no-break space counts as whitespace.
    assert_eq!(parse_ipv4("\u{a0}1.2.3.4\u{3000}"), Some([1, 2, 3, 4]));
}

#[test]
fn authority_splits_at_the_last_colon() {
    assert_eq!(split_authority("example.com:8080", 80), ("example.com".to_string(), 8080));
    assert_eq!(split_authority("example.com", 80), ("example.com".to_string(), 80));
    assert_eq!(split_authority("host:notaport", 80), ("host".to_string(), 80));
    assert_eq!(split_authority("a:b:99", 1), ("a:b".to_string(), 99));
    assert_eq!(split_authority("host:70000", 80), ("host".to_string(), 80));
}

#[test]
fn local_suffix_is_stripped() {
    assert_eq!(strip_local_suffix("beet-esp.local"), "beet-esp");
    assert_eq!(strip_local_suffix("beet-esp"), "beet-esp");
    assert_eq!(strip_local_suffix(".local"), "");
    assert_eq!(strip_local_suffix("local"), "local");
}

#[test]
fn station_settings() {
    let w = WifiSettings::new("ssid", "pw");
    assert_eq!(w.static_ip, None);
    let w = w.with_static_ip([192, 168, 0, 9]);
    assert_eq!(w.static_ip, Some([192, 168, 0, 9]));
    let w2 = w.with_static_ip_text(Some("10.0.0.2")).unwrap();
    assert_eq!(w2.static_ip, Some([10, 0, 0, 2]));
    assert!(w.with_static_ip_text(Some("nope")).is_none());
    assert_eq!(w.with_static_ip_text(None).unwrap().static_ip, None);
}

use tcpping::destination::parse_destination;
use tcpping::digits::{parse_u16, parse_u32};

fn parts(d: &str) -> (String, Option<u16>) {
    parse_destination(d)
}

#[test]
fn bracketed_ipv6_with_port() {
    assert_eq!(parts("[::1]:9999"), ("::1".to_string(), Some(9999)));
}

#[test]
fn bracketed_ipv6_without_port() {
    assert_eq!(parts("[::1]"), ("::1".to_string(), None));
    assert_eq!(parts("[::1]:"), ("::1".to_string(), None));
    assert_eq!(parts("[::1]:http"), ("::1".to_string(), None));
    assert_eq!(parts("[fe80::1]x80"), ("fe80::1".to_string(), None));
}

#[test]
fn bracket_without_closing_is_read_without_brackets() {
    assert_eq!(parts("[::1:22"), ("[::1:22".to_string(), None));
    assert_eq!(parts("[host:22"), ("[host".to_string(), Some(22)));
}

#[test]
fn host_with_port() {
    assert_eq!(parts("example.com:8080"), ("example.com".to_string(), Some(8080)));
    assert_eq!(parts("10.0.0.1:22"), ("10.0.0.1".to_string(), Some(22)));
    assert_eq!(parts("example.com:+443"), ("example.com".to_string(), Some(443)));
}

#[test]
fn host_without_port() {
    assert_eq!(parts("example.com"), ("example.com".to_string(), None));
    assert_eq!(parts(""), ("".to_string(), None));
}

#[test]
fn port_out_of_range_keeps_whole_destination() {
    assert_eq!(parts("example.com:65536"), ("example.com:65536".to_string(), None));
    assert_eq!(parts("example.com:65535"), ("example.com".to_string(), Some(65535)));
    assert_eq!(parts("example.com:-1"), ("example.com:-1".to_string(), None));
}

#[test]
fn bare_ipv6_is_whole_host_without_port() {
    assert_eq!(parts("::1"), ("::1".to_string(), None));
    assert_eq!(parts("fe80::abcd"), ("fe80::abcd".to_string(), None));
    assert_eq!(parts("fe80::1:80"), ("fe80::1:80".to_string(), None));
    assert_eq!(parts("2001:db8::8080"), ("2001:db8::8080".to_string(), None));
}

#[test]
fn decimal_parsing_matches_std() {
    for s in ["0", "80", "+80", "65535", "65536", "", "+", "-1", "1a", " 1", "007", "4294967295", "4294967296"] {
        assert_eq!(parse_u16(s), s.parse::<u16>().ok(), "u16 {s:?}");
        assert_eq!(parse_u32(s), s.parse::<u32>().ok(), "u32 {s:?}");
    }
}

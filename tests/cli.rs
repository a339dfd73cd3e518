use tcpping::cli::{parse_arguments, Invocation, Settings, UsageError, DEFAULT_PORT};
use tcpping::target::Family;

fn args(a: &[&str]) -> Vec<String> {
    a.iter().map(|s| s.to_string()).collect()
}

fn probe(a: &[&str]) -> (String, Settings) {
    match parse_arguments(&args(a)) {
        Ok(Invocation::Probe(cfg)) => (cfg.host, cfg.settings),
        other => panic!("expected a probe, got {other:?}"),
    }
}

#[test]
fn embedded_port_is_used() {
    let (host, s) = probe(&["[::1]:9999"]);
    assert_eq!(host, "::1");
    assert_eq!(s, Settings { port: 9999, count: None, family: None });
}

#[test]
fn explicit_port_overrides_embedded_port() {
    let (host, s) = probe(&["[::1]:9999", "-p", "443"]);
    assert_eq!(host, "::1");
    assert_eq!(s.port, 443);
    let (_, s) = probe(&["[::1]:9999", "--port", "22"]);
    assert_eq!(s.port, 22);
}

#[test]
fn default_port_when_none_given() {
    let (host, s) = probe(&["example.com"]);
    assert_eq!(host, "example.com");
    assert_eq!(s.port, DEFAULT_PORT);
    assert_eq!(s.port, 80);
}

#[test]
fn unreadable_port_keeps_previous() {
    let (_, s) = probe(&["example.com:8080", "-p", "http"]);
    assert_eq!(s.port, 8080);
}

#[test]
fn count_and_family_options() {
    let (_, s) = probe(&["example.com", "-c", "5", "-4"]);
    assert_eq!(s, Settings { port: 80, count: Some(5), family: Some(Family::V4) });
    let (_, s) = probe(&["example.com", "--count", "x", "--ipv6"]);
    assert_eq!(s, Settings { port: 80, count: Some(0), family: Some(Family::V6) });
    let (_, s) = probe(&["example.com", "-4", "-6"]);
    assert_eq!(s.family, Some(Family::V6));
}

#[test]
fn help_and_version() {
    assert!(matches!(parse_arguments(&args(&[])), Ok(Invocation::Help)));
    assert!(matches!(parse_arguments(&args(&["-h"])), Ok(Invocation::Help)));
    assert!(matches!(parse_arguments(&args(&["--help", "x"])), Ok(Invocation::Help)));
    assert!(matches!(parse_arguments(&args(&["-v"])), Ok(Invocation::Version)));
    assert!(matches!(parse_arguments(&args(&["--version"])), Ok(Invocation::Version)));
}

#[test]
fn usage_errors() {
    assert!(matches!(parse_arguments(&args(&["h", "-p"])), Err(UsageError::MissingPort)));
    assert!(matches!(parse_arguments(&args(&["h", "-c"])), Err(UsageError::MissingCount)));
    assert!(matches!(
        parse_arguments(&args(&["h", "-4", "--bogus"])),
        Err(UsageError::UnknownOption(2))
    ));
}

use zitadel_core::observability::{
    category_for, classify_request, is_ip_key, is_reserved_key, parse_duration, parse_traceparent, split_char, trim,
    CircuitBreaker, Stream, BREAKER_COOLDOWN_MS, BREAKER_FAILURES,
};

#[test]
fn classify_request_families() {
    assert_eq!(classify_request("/v1/users"), Some("request.api"));
    assert_eq!(classify_request("/login"), Some("request.login"));
    assert_eq!(classify_request("/.well-known/openid-configuration"), Some("request.oidc"));
    assert_eq!(classify_request("/healthz"), None);
}

#[test]
fn classify_request_more_paths() {
    assert_eq!(classify_request("/v1/auth/sso/callback"), Some("request.login"));
    assert_eq!(classify_request("/conformance/login"), Some("request.login"));
    assert_eq!(classify_request("/token"), Some("request.oidc"));
    assert_eq!(classify_request("/oauth/v2/keys"), Some("request.oidc"));
    assert_eq!(classify_request("/readyz"), None);
    assert_eq!(classify_request("/static/app.js"), None);
}

#[test]
fn parses_w3c_traceparent() {
    let parsed = parse_traceparent("00-4bf92f3577b34da6a3ce929d0e0e4736-00f067aa0ba902b7-01").unwrap();
    assert_eq!(parsed.0, "4bf92f3577b34da6a3ce929d0e0e4736");
    assert_eq!(parsed.1, "00f067aa0ba902b7");
}

#[test]
fn rejects_malformed_traceparent() {
    assert!(parse_traceparent("00-4bf92f3577b34da6a3ce929d0e0e4736-00f067aa0ba902b7").is_none());
    assert!(parse_traceparent("00-short-00f067aa0ba902b7-01").is_none());
    assert!(parse_traceparent("00-4bf92f3577b34da6a3ce929d0e0e4736-00f067aa-01").is_none());
    assert!(parse_traceparent("").is_none());
}

#[test]
fn split_char_keeps_empty_pieces() {
    assert_eq!(split_char("a--b", '-'), vec!["a".to_string(), String::new(), "b".to_string()]);
    assert_eq!(split_char("", '-'), vec![String::new()]);
}

#[test]
fn parses_stream_aliases() {
    assert_eq!(Stream::from_name("queue"), Some(Stream::Jobs));
    assert_eq!(Stream::from_name("jobs"), Some(Stream::Jobs));
    assert_eq!(Stream::from_name("event_handler"), Some(Stream::EventHandler));
}

#[test]
fn stream_names_round_trip() {
    for s in [Stream::Runtime, Stream::Request, Stream::Jobs, Stream::EventHandler, Stream::EventPusher] {
        assert_eq!(Stream::from_name(s.as_str()), Some(s));
    }
    assert_eq!(Stream::from_name("nope"), None);
}

#[test]
fn record_keys() {
    assert!(is_reserved_key("stream"));
    assert!(is_reserved_key("x-request-id"));
    assert!(!is_reserved_key("message"));
    assert!(is_ip_key("client_ip"));
    assert!(!is_ip_key("ipv6"));
}

#[test]
fn categories_of_event_types() {
    assert_eq!(category_for("request.api"), "request");
    assert_eq!(category_for("runtime"), "runtime");
    assert_eq!(category_for(".hidden"), "log");
    assert_eq!(category_for(""), "log");
}

#[test]
fn breaker_opens_after_five_failures_and_closes_on_success() {
    let mut b = CircuitBreaker::new();
    assert!(b.allows(0));
    for _ in 0..BREAKER_FAILURES - 1 {
        b.on_failure(1_000);
    }
    assert!(b.allows(1_000));
    b.on_failure(1_000);
    assert!(!b.allows(1_000));
    assert!(!b.allows(1_000 + BREAKER_COOLDOWN_MS - 1));
    assert!(b.allows(1_000 + BREAKER_COOLDOWN_MS));
    b.on_success();
    assert_eq!(b.failures, 0);
    assert!(b.allows(0));
}

#[test]
fn breaker_saturates_at_the_end_of_time() {
    let mut b = CircuitBreaker::new();
    for _ in 0..BREAKER_FAILURES {
        b.on_failure(u64::MAX - 1);
    }
    assert_eq!(b.open_until, Some(u64::MAX));
}

#[test]
fn trims_white_space() {
    assert_eq!(trim("  a b \t\n"), "a b");
    assert_eq!(trim("   "), "");
}

#[test]
fn parses_durations() {
    let d = parse_duration(" 1500ms ");
    assert_eq!((d.secs, d.millis), (1, 500));
    let d = parse_duration("7s");
    assert_eq!((d.secs, d.millis), (7, 0));
    let d = parse_duration("2m");
    assert_eq!((d.secs, d.millis), (120, 0));
    let d = parse_duration("xs");
    assert_eq!((d.secs, d.millis), (5, 0));
    let d = parse_duration("abcms");
    assert_eq!((d.secs, d.millis), (0, 100));
    let d = parse_duration("ym");
    assert_eq!((d.secs, d.millis), (60, 0));
    let d = parse_duration("soon");
    assert_eq!((d.secs, d.millis), (5, 0));
}

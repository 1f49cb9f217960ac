use trimbit::proxy::{
    accept_chunk, all_layers_tokens, base_url, check_declared_length, check_status, is_healthy, is_loopback_host,
    rank_models, sanitize_text, ModelCount, ProxyError, MAX_BODY_BYTES,
};

#[test]
fn loopback_only() {
    for ok in ["127.0.0.1", "localhost", "LOCALHOST", "::1", "127.1.2.3"] {
        assert!(is_loopback_host(ok), "{ok}");
    }
    for bad in ["0.0.0.0", "192.168.1.10", "example.com", "localhost.evil.com", "", "[::1]", "127.0.0.1/x"] {
        assert!(!is_loopback_host(bad), "{bad}");
    }
    assert_eq!(base_url("::1", 8787).unwrap(), "http://[::1]:8787");
    assert!(matches!(base_url("10.0.0.1", 80), Err(ProxyError::NotLoopback(_))));
}

#[test]
fn loopback_literals_follow_the_address_grammar() {
    for ok in [
        "localhost", "LocalHost", "127.0.0.0", "127.255.255.255", "::1", "0:0:0:0:0:0:0:1", "0000::0001",
        "::0.0.0.1", "0::1", "0:0::0:1", "::0:1",
    ] {
        assert!(is_loopback_host(ok), "{ok}");
    }
    for bad in [
        "127.0.0", "127.0.0.1.", "127.00.0.1", "127.0.0.256", "127.0.0.01", "0127.0.0.1", "128.0.0.1",
        "::", "::2", "::1:", ":::1", "1::1", "::ffff:127.0.0.1", "0:0:0:0:0:0:0:0:1", "::00001",
        " ::1", "localhost ", "lоcalhost", "127.0.0.1:80",
    ] {
        assert!(!is_loopback_host(bad), "{bad}");
    }
}

#[test]
fn base_url_shapes() {
    assert_eq!(base_url("127.0.0.1", 8787).unwrap(), "http://127.0.0.1:8787");
    assert_eq!(base_url("LOCALHOST", 1).unwrap(), "http://LOCALHOST:1");
    assert_eq!(base_url("0:0:0:0:0:0:0:1", 65535).unwrap(), "http://[0:0:0:0:0:0:0:1]:65535");
    match base_url("example.com", 80) {
        Err(ProxyError::NotLoopback(h)) => assert_eq!(h, "example.com"),
        other => panic!("unexpected {other:?}"),
    }
}

#[test]
fn error_messages() {
    assert_eq!(
        ProxyError::NotLoopback("10.0.0.1".to_string()).message(),
        "\"10.0.0.1\" is not a loopback address; only local proxies are allowed"
    );
    assert_eq!(ProxyError::Client("boom".to_string()).message(), "could not set up the HTTP client: boom");
    assert_eq!(ProxyError::Unreachable("refused".to_string()).message(), "proxy is not reachable: refused");
    assert_eq!(ProxyError::Status(302).message(), "proxy answered with HTTP 302");
    assert_eq!(ProxyError::TooLarge.message(), "proxy response is larger than 2 MB");
    assert_eq!(
        ProxyError::InvalidJson("expected a JSON object".to_string()).message(),
        "proxy response is not valid JSON: expected a JSON object"
    );
}

#[test]
fn sanitize_collapses_and_filters() {
    assert_eq!(sanitize_text("a \u{0007} b").as_deref(), Some("a  b"));
    assert_eq!(sanitize_text("\u{200b}hi\u{feff} there\u{2066}").as_deref(), Some("hi there"));
    assert_eq!(sanitize_text("one\u{3000}two\u{00a0}three").as_deref(), Some("one two three"));
    assert_eq!(sanitize_text("   "), None);
    assert_eq!(sanitize_text(""), None);
    let long = format!("{} tail", "y".repeat(199));
    assert_eq!(sanitize_text(&long).unwrap(), format!("{} ", "y".repeat(199)));
}

fn model(name: &str, requests: u64) -> ModelCount {
    ModelCount { name: name.to_string(), requests }
}

#[test]
fn models_are_ranked_and_capped() {
    let entries = vec![
        ("atlas-5-1".to_string(), Some(72)),
        ("breeze-5".to_string(), Some(55)),
        ("passthrough:count_tokens".to_string(), Some(2)),
    ];
    assert_eq!(rank_models(&entries), vec![model("atlas-5-1", 72), model("breeze-5", 55)]);

    let mut many = Vec::new();
    for i in 0..12u64 {
        many.push((format!("m{i:02}"), Some(i % 3)));
    }
    many.push(("bad".to_string(), None));
    many.push(("\u{0007}".to_string(), Some(100)));
    many.push(("  spaced   name ".to_string(), Some(2)));
    let ranked = rank_models(&many);
    assert_eq!(
        ranked,
        vec![
            model("m02", 2),
            model("m05", 2),
            model("m08", 2),
            model("m11", 2),
            model("spaced name", 2),
            model("m01", 1),
            model("m04", 1),
            model("m07", 1),
        ]
    );
}

#[test]
fn response_limits() {
    assert!(check_status(200).is_ok());
    assert!(check_status(204).is_ok());
    assert!(matches!(check_status(302), Err(ProxyError::Status(302))));
    assert!(matches!(check_status(500), Err(ProxyError::Status(500))));
    assert!(check_declared_length(None).is_ok());
    assert!(check_declared_length(Some(MAX_BODY_BYTES as u64)).is_ok());
    assert!(matches!(check_declared_length(Some(MAX_BODY_BYTES as u64 + 1)), Err(ProxyError::TooLarge)));
    assert_eq!(accept_chunk(10, 20).unwrap(), 30);
    assert_eq!(accept_chunk(MAX_BODY_BYTES - 5, 5).unwrap(), MAX_BODY_BYTES);
    assert!(matches!(accept_chunk(MAX_BODY_BYTES - 5, 6), Err(ProxyError::TooLarge)));
    assert!(matches!(accept_chunk(usize::MAX, usize::MAX), Err(ProxyError::TooLarge)));
}

#[test]
fn health_and_legacy_counter() {
    assert!(is_healthy(None));
    assert!(is_healthy(Some("healthy")));
    assert!(!is_healthy(Some("degraded")));
    assert!(!is_healthy(Some("Healthy")));
    assert_eq!(all_layers_tokens(0, 42), 42);
    assert_eq!(all_layers_tokens(10_112_582, 42), 10_112_582);
}

use trimbit::proxy::{
    read_snapshot, sanitize_text, Json, Readings, SessionSource, MAX_TEXT_CHARS,
};

fn obj(members: Vec<(&str, Json)>) -> Json {
    Json::Object(members.into_iter().map(|(k, v)| (k.to_string(), v)).collect())
}

fn count(n: u64) -> Json {
    Json::Number { unsigned: Some(n), count: Some(n) }
}

/// A number that is not an unsigned integer, with its truncation if any.
fn other_number(count: Option<u64>) -> Json {
    Json::Number { unsigned: None, count }
}

fn text(s: &str) -> Json {
    Json::Text(s.to_string())
}

fn stats_fixture() -> Json {
    obj(vec![
        (
            "display_session",
            obj(vec![
                ("cache_savings_usd", other_number(Some(84))),
                ("compression_savings_usd", other_number(Some(11))),
                ("requests", count(52)),
                ("savings_percent", other_number(Some(3))),
                ("started_at", text("2026-09-23T16:56:49Z")),
                ("tokens_saved", count(1_032_860)),
                ("total_input_cost_usd", other_number(Some(91))),
            ]),
        ),
        ("latency", obj(vec![("average_ms", other_number(Some(15594)))])),
        (
            "persistent_savings",
            obj(vec![(
                "lifetime",
                obj(vec![
                    ("cache_savings_usd", other_number(Some(245))),
                    ("compression_savings_usd", other_number(Some(32))),
                    ("requests", count(178)),
                    ("tokens_saved", count(2_352_186)),
                ]),
            )]),
        ),
        (
            "requests",
            obj(vec![
                (
                    "by_model",
                    obj(vec![
                        ("atlas-5-1", count(72)),
                        ("breeze-5", count(55)),
                        ("passthrough:count_tokens", count(2)),
                    ]),
                ),
                ("cached", count(149)),
                ("failed", count(1)),
                ("rate_limited", count(0)),
                ("total", count(167)),
            ]),
        ),
        ("savings", obj(vec![("by_layer", obj(vec![("tool_search", obj(vec![("tokens", count(7_788_192))]))]))])),
        (
            "subscription_window",
            obj(vec![("latest", obj(vec![("token_prefix", text("sk-ant-o"))]))]),
        ),
        (
            "summary",
            obj(vec![
                ("mode", text("cache")),
                ("primary_model", text("atlas-5-1")),
                ("tip", text("Set HEADROOM_MODE=token")),
            ]),
        ),
        (
            "tokens",
            obj(vec![
                ("all_layers_saved", count(10_112_582)),
                ("all_layers_savings_percent", other_number(Some(9))),
                ("proxy_compression_saved", count(2_324_390)),
                ("saved", count(10_112_582)),
            ]),
        ),
    ])
}

#[test]
fn parses_full_payload() {
    let health = obj(vec![
        ("status", text("healthy")),
        ("uptime_seconds", other_number(Some(270_991))),
        ("version", text("0.37.0")),
    ]);
    let s = read_snapshot(&stats_fixture(), Some(&health));
    assert_eq!(s.session_source, SessionSource::Display);
    assert_eq!(s.session_tokens_saved, 1_032_860);
    assert_eq!(s.session_requests, 52);
    assert_eq!(s.session_started, Some((1_790_182_609, 0)));
    assert_eq!(s.lifetime_requests, 178);
    assert_eq!(s.lifetime_tokens_saved, 2_352_186);
    assert_eq!(s.all_layers_saved, 10_112_582);
    assert_eq!(s.compression_saved, 2_324_390);
    assert_eq!(s.tool_search_saved, 7_788_192);
    assert_eq!((s.requests_total, s.requests_cached, s.requests_failed), (167, 149, 1));
    assert_eq!(s.requests_rate_limited, 0);
    assert_eq!(s.mode.as_deref(), Some("cache"));
    assert_eq!(s.primary_model.as_deref(), Some("atlas-5-1"));
    assert_eq!(s.tip.as_deref(), Some("Set HEADROOM_MODE=token"));
    assert_eq!(s.models.len(), 2);
    assert_eq!(s.models[0].name, "atlas-5-1");
    assert_eq!(s.models[0].requests, 72);
    assert_eq!(s.models[1].name, "breeze-5");
    assert_eq!(s.version.as_deref(), Some("0.37.0"));
    assert!(s.healthy);
}

#[test]
fn never_exposes_credentials() {
    let shown = format!("{:?}", read_snapshot(&stats_fixture(), None));
    assert!(!shown.contains("sk-ant"));
}

#[test]
fn credentials_change_nothing() {
    let a = read_snapshot(&stats_fixture(), None);
    let mut other = stats_fixture();
    if let Json::Object(members) = &mut other {
        for (k, v) in members.iter_mut() {
            if k == "subscription_window" {
                *v = obj(vec![("mode", text("leak")), ("token_prefix", text("sk-ant-x"))]);
            }
        }
    }
    let b = read_snapshot(&other, None);
    assert_eq!(format!("{a:?}"), format!("{b:?}"));
}

fn is_empty_reading(r: &Readings) -> bool {
    r.session_source == SessionSource::Missing
        && (r.session_requests, r.session_tokens_saved, r.lifetime_requests, r.lifetime_tokens_saved) == (0, 0, 0, 0)
        && r.session_started.is_none()
        && r.session_last_activity.is_none()
        && (r.all_layers_saved, r.compression_saved, r.tool_search_saved) == (0, 0, 0)
        && (r.requests_total, r.requests_cached, r.requests_failed, r.requests_rate_limited) == (0, 0, 0, 0)
        && r.mode.is_none()
        && r.primary_model.is_none()
        && r.tip.is_none()
        && r.version.is_none()
        && r.models.is_empty()
}

#[test]
fn tolerates_garbage() {
    let stats = obj(vec![
        ("display_session", obj(vec![("started_at", text("bad")), ("tokens_saved", other_number(None))])),
        ("latency", obj(vec![("average_ms", other_number(None))])),
        ("requests", text("oops")),
        ("tokens", Json::Null),
    ]);
    let s = read_snapshot(&stats, Some(&obj(vec![("status", text("degraded"))])));
    assert_eq!(s.session_tokens_saved, 0);
    assert_eq!(s.session_started, None);
    assert_eq!(s.requests_total, 0);
    assert_eq!(s.all_layers_saved, 0);
    assert!(!s.healthy);
    let empty = read_snapshot(&Json::List(vec![]), None);
    assert!(is_empty_reading(&empty));
    assert!(empty.healthy);
}

#[test]
fn falls_back_to_legacy_saved_key() {
    let stats = obj(vec![("tokens", obj(vec![("saved", count(42))]))]);
    assert_eq!(read_snapshot(&stats, None).all_layers_saved, 42);
}

#[test]
fn sanitizes_text() {
    assert_eq!(sanitize_text("  a\u{0007}b \n\t c  ").as_deref(), Some("ab c"));
    assert_eq!(sanitize_text("\u{0000}\u{001b}"), None);
    assert_eq!(sanitize_text(&"x".repeat(1000)).map(|s| s.chars().count()), Some(MAX_TEXT_CHARS));
    let stats = obj(vec![("summary", obj(vec![("mode", text("<img src=x onerror=alert(1)>\u{202e}"))]))]);
    // Markup is kept as inert text; control and bidi characters are stripped.
    assert_eq!(read_snapshot(&stats, None).mode.as_deref(), Some("<img src=x onerror=alert(1)>"));
}

#[test]
fn session_falls_back_and_counts_truncate() {
    let stats = obj(vec![
        (
            "persistent_savings",
            obj(vec![(
                "display_session",
                obj(vec![
                    ("last_activity_at", text("2026-09-23T20:56:49+02:00")),
                    ("requests", other_number(Some(7))),
                    ("tokens_saved", count(9)),
                ]),
            )]),
        ),
        ("tokens", obj(vec![("all_layers_saved", count(0)), ("saved", count(5))])),
    ]);
    let s = read_snapshot(&stats, None);
    assert_eq!(s.session_source, SessionSource::Persistent);
    assert_eq!(s.session_requests, 7);
    assert_eq!(s.session_tokens_saved, 9);
    assert_eq!(s.session_last_activity, Some((1_790_189_809, 0)));
    assert_eq!(s.all_layers_saved, 5);
    let with_null_top = obj(vec![("display_session", Json::Null), ("persistent_savings", Json::Bool(true))]);
    assert_eq!(read_snapshot(&with_null_top, None).session_source, SessionSource::Missing);
}

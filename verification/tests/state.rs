use trimbit::proxy::ProxyError;
use trimbit::settings::Settings;
use trimbit::state::{status_notice, summary_text, Inner, Notice, Status, SummaryFigures};

type TestInner = Inner<&'static str, u64, u64>;

#[test]
fn status_is_up() {
    assert!(Status::Online.is_up());
    assert!(Status::Degraded.is_up());
    assert!(!Status::Offline.is_up());
    assert!(!Status::Connecting.is_up());
}

#[test]
fn failure_keeps_last_known_data() {
    let mut inner: TestInner = Inner::new(Settings::default_for(None));
    assert_eq!(inner.status, Status::Connecting);
    let (prev, cur, notify) = inner.record_poll(Ok(("snap", true)), 1);
    assert_eq!((prev, cur, notify), (Status::Connecting, Status::Online, true));
    let (prev, cur, _) = inner.record_poll(Err(ProxyError::Unreachable("refused".into())), 2);
    assert_eq!((prev, cur), (Status::Online, Status::Offline));
    assert_eq!(inner.snapshot, Some("snap"));
    assert_eq!(inner.last_success, Some(1));
    assert_eq!(inner.last_checked, Some(2));
    assert_eq!(inner.error.as_deref(), Some("proxy is not reachable: refused"));
    inner.record_poll(Ok(("fresh", false)), 3);
    assert_eq!(inner.status, Status::Degraded);
    assert_eq!(inner.error, None);
}

#[test]
fn notifications_only_for_real_transitions() {
    assert_eq!(status_notice(Status::Connecting, Status::Offline, true), None);
    assert_eq!(status_notice(Status::Online, Status::Offline, true), Some(Notice::Unreachable));
    assert_eq!(status_notice(Status::Offline, Status::Degraded, true), Some(Notice::BackOnline));
    assert_eq!(status_notice(Status::Online, Status::Degraded, true), None);
    assert_eq!(status_notice(Status::Online, Status::Offline, false), None);
    let (title, body) = Notice::Unreachable.text("proxy is not reachable: x");
    assert_eq!((title.as_str(), body.as_str()), ("Headroom proxy is unreachable", "proxy is not reachable: x"));
    let (title, body) = Notice::BackOnline.text("ignored");
    assert_eq!((title.as_str(), body.as_str()), ("Headroom proxy is back online", "Trimbit is tracking savings again."));
}

#[test]
fn endpoint_change_resets_state() {
    let mut inner: TestInner = Inner::new(Settings::default_for(None));
    inner.record_poll(Ok(("snap", true)), 1);
    inner.apply_settings(Settings { refresh_seconds: 30, ..Settings::default_for(None) });
    assert_eq!((inner.status, inner.snapshot), (Status::Online, Some("snap")));
    inner.apply_settings(Settings { port: 9000, ..Settings::default_for(None) });
    assert_eq!((inner.status, inner.snapshot, inner.error), (Status::Connecting, None, None));
    assert_eq!(inner.settings.port, 9000);
}

#[test]
fn summary_for_the_clipboard() {
    assert_eq!(summary_text(8787, None), "Headroom proxy offline (port 8787)");
    let f = SummaryFigures {
        session_tokens: 1_032_860,
        session_percent: "3.6%".to_string(),
        session_usd: "$11.34".to_string(),
        session_requests: 52,
        lifetime_tokens: 2_352_186,
        lifetime_usd: "$32.20".to_string(),
        lifetime_requests: 178,
        all_layers_saved: 10_112_582,
        all_layers_percent: "9.6%".to_string(),
    };
    assert_eq!(
        summary_text(8787, Some(&f)),
        "Headroom savings (via Trimbit)\n\
         Session: 1,032,860 tokens removed (3.6% of input), ≈ $11.34 estimated value, 52 requests\n\
         Lifetime: 2,352,186 tokens removed, ≈ $32.20 estimated value, 178 requests\n\
         Proxy, all layers: 10,112,582 tokens saved (9.6%)"
    );
}

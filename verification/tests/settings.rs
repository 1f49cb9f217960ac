use trimbit::settings::{default_port, NumberFormat, Settings, TitleMode, DEFAULT_PORT};

#[test]
fn validate_rejects_bad_updates() {
    let ok = Settings::default_for(None);
    assert!(ok.validate().is_ok());
    assert!(Settings { host: "10.0.0.2".into(), ..ok.clone() }.validate().is_err());
    assert!(Settings { port: 0, ..ok.clone() }.validate().is_err());
    assert!(Settings { refresh_seconds: 1, ..ok }.validate().is_err());
}

#[test]
fn validation_messages_follow_rule_order() {
    let ok = Settings::default_for(None);
    assert_eq!(
        Settings { host: "evil.example.com".into(), port: 0, ..ok.clone() }.validate(),
        Err("Host “evil.example.com” is not a loopback address.".to_string())
    );
    assert_eq!(
        Settings { port: 0, refresh_seconds: 7, ..ok.clone() }.validate(),
        Err("Port must be between 1 and 65535.".to_string())
    );
    assert_eq!(
        Settings { refresh_seconds: 7, ..ok.clone() }.validate(),
        Err("Refresh interval must be one of [5, 10, 30, 60] seconds.".to_string())
    );
    assert!(Settings { host: "::1".into(), port: 9000, refresh_seconds: 60, ..ok }.validate().is_ok());
}

#[test]
fn defaults() {
    let d = Settings::default_for(None);
    assert_eq!(d.host, "127.0.0.1");
    assert_eq!(d.port, DEFAULT_PORT);
    assert_eq!(d.refresh_seconds, 10);
    assert_eq!(d.title_mode, TitleMode::SessionTokens);
    assert_eq!(d.number_format, NumberFormat::Compact);
    assert!(d.notify_status_changes && d.check_updates);
}

#[test]
fn port_from_environment() {
    assert_eq!(default_port(None), 8787);
    assert_eq!(default_port(Some("9000")), 9000);
    assert_eq!(default_port(Some(" 9000\n")), 9000);
    assert_eq!(default_port(Some("+80")), 80);
    assert_eq!(default_port(Some("0")), 8787);
    assert_eq!(default_port(Some("65536")), 8787);
    assert_eq!(default_port(Some("-1")), 8787);
    assert_eq!(default_port(Some("abc")), 8787);
    assert_eq!(default_port(Some("")), 8787);
    assert_eq!(default_port(Some("+")), 8787);
    assert_eq!(default_port(Some("00080")), 80);
}

#[test]
fn unsafe_values_from_disk_are_replaced() {
    let read = Settings {
        host: "evil.example.com".into(),
        port: 0,
        refresh_seconds: 1,
        ..Settings::default_for(None)
    };
    let s = read.sanitized(None);
    let d = Settings::default_for(None);
    assert_eq!((s.host, s.port, s.refresh_seconds), (d.host, d.port, d.refresh_seconds));
}

#[test]
fn sanitizing_keeps_other_fields() {
    let raw = Settings {
        host: "evil.example.com".into(),
        port: 0,
        refresh_seconds: 1,
        title_mode: TitleMode::LifetimeUsd,
        number_format: NumberFormat::Exact,
        notify_status_changes: false,
        check_updates: false,
    };
    let s = raw.sanitized(Some("9100"));
    assert_eq!((s.host.as_str(), s.port, s.refresh_seconds), ("127.0.0.1", 9100, 10));
    assert_eq!(s.title_mode, TitleMode::LifetimeUsd);
    assert!(s.validate().is_ok());
    let good = Settings { port: 9000, refresh_seconds: 30, ..Settings::default_for(None) };
    assert_eq!(good.clone().sanitized(None), good);
}

use trimbit::material::{current, Material};
use trimbit::settings::TitleMode;
use trimbit::state::Status;
use trimbit::tray::{panel_position, panel_toggle, tray_icon, tray_summary, tray_title, tray_tooltip, PanelAction, PanelPosition, Platform, TrayIcon};
use trimbit::updates::{check_finished, check_started, install_failed, should_check, CheckOutcome, UpdateStatus};

#[test]
fn icons_follow_platform_and_status() {
    assert_eq!(tray_icon(Status::Connecting, Platform::MacOs, false), TrayIcon::Template);
    assert_eq!(tray_icon(Status::Offline, Platform::MacOs, true), TrayIcon::TemplateOffline);
    assert_eq!(tray_icon(Status::Online, Platform::Linux, false), TrayIcon::Light);
    assert_eq!(tray_icon(Status::Offline, Platform::Windows, true), TrayIcon::LightOffline);
    assert_eq!(tray_icon(Status::Degraded, Platform::Windows, false), TrayIcon::Dark);
    assert_eq!(tray_icon(Status::Offline, Platform::Windows, false), TrayIcon::DarkOffline);
}

#[test]
fn panel_placement_and_toggle() {
    assert_eq!(panel_position(true, Platform::MacOs), PanelPosition::TrayCenter);
    assert_eq!(panel_position(true, Platform::Linux), PanelPosition::TrayBottomCenter);
    assert_eq!(panel_position(false, Platform::Windows), PanelPosition::BottomRight);
    assert_eq!(panel_position(false, Platform::MacOs), PanelPosition::TopRight);
    assert_eq!(panel_toggle(true, Some(10)), PanelAction::Hide);
    assert_eq!(panel_toggle(false, Some(299)), PanelAction::Nothing);
    assert_eq!(panel_toggle(false, Some(300)), PanelAction::Show);
    assert_eq!(panel_toggle(false, None), PanelAction::Show);
}

#[test]
fn tray_texts() {
    assert_eq!(tray_title(TitleMode::SessionTokens, Status::Online, true, 1_032_860, 5, "$1", "$2"), Some("1M".to_string()));
    assert_eq!(tray_title(TitleMode::LifetimeUsd, Status::Degraded, true, 1, 2, "$1", "$95.47"), Some("$95.47".to_string()));
    assert_eq!(tray_title(TitleMode::IconOnly, Status::Online, true, 1, 2, "$1", "$2"), None);
    assert_eq!(tray_title(TitleMode::SessionTokens, Status::Offline, true, 1, 2, "$1", "$2"), None);
    assert_eq!(tray_title(TitleMode::SessionTokens, Status::Online, false, 1, 2, "$1", "$2"), None);
    assert_eq!(tray_summary(Status::Connecting, 8787, None), "Connecting to Headroom…");
    assert_eq!(tray_summary(Status::Offline, 8787, Some((5, "$1"))), "Headroom proxy offline · port 8787");
    assert_eq!(tray_summary(Status::Online, 8787, Some((10_112_582, "$95.47"))), "Session: 10.1M tokens · $95.47 saved");
    assert_eq!(tray_summary(Status::Degraded, 8787, None), "Headroom proxy online");
    assert_eq!(tray_tooltip("Headroom proxy online"), "Trimbit — Headroom proxy online");
}

#[test]
fn update_flow() {
    assert!(should_check(true, false));
    assert!(should_check(false, true));
    assert!(!should_check(false, false));
    assert_eq!(check_started(true), Some(UpdateStatus::Checking));
    assert_eq!(check_started(false), None);
    assert_eq!(check_finished(false, CheckOutcome::Found("2.1.0".into())), Some(UpdateStatus::Available { version: "2.1.0".into() }));
    assert_eq!(check_finished(true, CheckOutcome::Current), Some(UpdateStatus::UpToDate));
    assert_eq!(check_finished(false, CheckOutcome::Current), Some(UpdateStatus::Idle));
    assert_eq!(check_finished(false, CheckOutcome::Error), None);
    assert_eq!(
        check_finished(true, CheckOutcome::Error),
        Some(UpdateStatus::Failed { message: "Couldn't check for updates. Try again later.".into() })
    );
    assert!(matches!(install_failed(false), UpdateStatus::Failed { message } if message.ends_with("from the website instead.")));
    assert!(matches!(install_failed(true), UpdateStatus::Failed { message } if message.contains("AppImage")));
}

#[test]
fn material_defaults_to_solid() {
    assert_eq!(trimbit::material::current(None), "solid");
    assert_eq!(trimbit::material::current(Some(Material::Glass)), "glass");
    assert_eq!(current(Some(Material::Vibrancy)), "vibrancy");
    assert_eq!(current(Some(Material::Acrylic)), "acrylic");
    assert_eq!(current(Some(Material::Solid)), "solid");
    assert_eq!(Material::Acrylic.name(), "acrylic");
}

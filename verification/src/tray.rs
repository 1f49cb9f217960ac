//! Decisions behind the tray icon, its texts and the panel window.

use vstd::prelude::*;
use crate::format::{compact, compact_text, decimal, push_decimal};
use crate::settings::TitleMode;
use crate::state::Status;

verus! {

/// Tray icon and panel id.
pub const TRAY_ID: &'static str = "trimbit";

/// Label of the panel window.
pub const PANEL: &'static str = "panel";

/// After the panel was hidden, a click on the tray within this many
/// milliseconds does not reopen it.
pub const REOPEN_GRACE_MS: u64 = 300;

/// The desktop platform the app runs on.
#[derive(Debug, Clone, Copy, PartialEq, Eq, Structural)]
pub enum Platform {
    MacOs,
    Windows,
    Linux,
}

/// The tray icon images.
#[derive(Debug, Clone, Copy, PartialEq, Eq, Structural)]
pub enum TrayIcon {
    /// macOS template image.
    Template,
    TemplateOffline,
    /// Light glyph, for dark panels.
    Light,
    LightOffline,
    /// Dark glyph, for light panels.
    Dark,
    DarkOffline,
}

/// The icon for a status: macOS uses template images; elsewhere a light
/// glyph on dark panels (always on Linux) and a dark one on light panels.
/// Only an offline proxy gets the offline variant.
pub open spec fn icon_for(status: Status, platform: Platform, dark_theme: bool) -> TrayIcon {
    let up = status != Status::Offline;
    if platform == Platform::MacOs {
        if up {
            TrayIcon::Template
        } else {
            TrayIcon::TemplateOffline
        }
    } else if platform == Platform::Linux || dark_theme {
        if up {
            TrayIcon::Light
        } else {
            TrayIcon::LightOffline
        }
    } else if up {
        TrayIcon::Dark
    } else {
        TrayIcon::DarkOffline
    }
}

/// Chooses the tray icon.
pub fn tray_icon(status: Status, platform: Platform, dark_theme: bool) -> (r: TrayIcon)
    ensures
        r == icon_for(status, platform, dark_theme),
{
    let up = status != Status::Offline;
    match platform {
        Platform::MacOs => if up {
            TrayIcon::Template
        } else {
            TrayIcon::TemplateOffline
        },
        _ => {
            let dark_panel = platform == Platform::Linux || dark_theme;
            if dark_panel {
                if up {
                    TrayIcon::Light
                } else {
                    TrayIcon::LightOffline
                }
            } else if up {
                TrayIcon::Dark
            } else {
                TrayIcon::DarkOffline
            }
        },
    }
}

/// Where the panel opens.
#[derive(Debug, Clone, Copy, PartialEq, Eq, Structural)]
pub enum PanelPosition {
    TrayCenter,
    TrayBottomCenter,
    BottomRight,
    TopRight,
}

/// Next to the tray icon once its position is known (centred under it on
/// macOS); otherwise in the corner where the tray usually is.
pub open spec fn position_for(tray_known: bool, platform: Platform) -> PanelPosition {
    if tray_known {
        if platform == Platform::MacOs {
            PanelPosition::TrayCenter
        } else {
            PanelPosition::TrayBottomCenter
        }
    } else if platform == Platform::Windows {
        PanelPosition::BottomRight
    } else {
        PanelPosition::TopRight
    }
}

/// Chooses where the panel opens.
pub fn panel_position(tray_known: bool, platform: Platform) -> (r: PanelPosition)
    ensures
        r == position_for(tray_known, platform),
{
    if tray_known {
        if platform == Platform::MacOs {
            PanelPosition::TrayCenter
        } else {
            PanelPosition::TrayBottomCenter
        }
    } else if platform == Platform::Windows {
        PanelPosition::BottomRight
    } else {
        PanelPosition::TopRight
    }
}

/// What a click on the tray icon does to the panel.
#[derive(Debug, Clone, Copy, PartialEq, Eq, Structural)]
pub enum PanelAction {
    Hide,
    Show,
    Nothing,
}

/// A click hides a visible panel; it shows a hidden one unless the panel
/// was hidden less than `REOPEN_GRACE_MS` ago (the click that hid it by
/// taking the focus away).
pub open spec fn toggle_for(visible: bool, hidden_ms_ago: Option<u64>) -> PanelAction {
    if visible {
        PanelAction::Hide
    } else if hidden_ms_ago matches Some(ms) && ms < REOPEN_GRACE_MS {
        PanelAction::Nothing
    } else {
        PanelAction::Show
    }
}

/// Decides what a click on the tray icon does.
pub fn panel_toggle(visible: bool, hidden_ms_ago: Option<u64>) -> (r: PanelAction)
    ensures
        r == toggle_for(visible, hidden_ms_ago),
{
    if visible {
        return PanelAction::Hide;
    }
    match hidden_ms_ago {
        Some(ms) if ms < REOPEN_GRACE_MS => PanelAction::Nothing,
        _ => PanelAction::Show,
    }
}

/// The count shown as the tray title, in short form, for the token modes;
/// `None` for the other modes or when the proxy does not answer.
pub open spec fn title_tokens(mode: TitleMode, up: bool, session: u64, lifetime: u64) -> Option<
    u64,
> {
    if !up {
        None
    } else {
        match mode {
            TitleMode::SessionTokens => Some(session),
            TitleMode::LifetimeTokens => Some(lifetime),
            _ => None,
        }
    }
}

/// The tray title: the session or lifetime token count in short form, or
/// the given dollar text, depending on the mode; no title in icon-only mode
/// or when no data is shown (`snapshot` is false, or the proxy does not answer).
pub open spec fn title_text(
    mode: TitleMode,
    status: Status,
    snapshot: bool,
    session_tokens: u64,
    lifetime_tokens: u64,
    session_usd: Seq<char>,
    lifetime_usd: Seq<char>,
) -> Option<Seq<char>> {
    if !snapshot || !status.up() {
        None
    } else {
        match mode {
            TitleMode::SessionTokens => Some(compact_text(session_tokens as nat)),
            TitleMode::SessionUsd => Some(session_usd),
            TitleMode::LifetimeTokens => Some(compact_text(lifetime_tokens as nat)),
            TitleMode::LifetimeUsd => Some(lifetime_usd),
            TitleMode::IconOnly => None,
        }
    }
}

/// Builds the tray title; the dollar amounts come already formatted.
pub fn tray_title(
    mode: TitleMode,
    status: Status,
    snapshot: bool,
    session_tokens: u64,
    lifetime_tokens: u64,
    session_usd: &str,
    lifetime_usd: &str,
) -> (r: Option<String>)
    ensures
        match (r, title_text(mode, status, snapshot, session_tokens, lifetime_tokens, session_usd@, lifetime_usd@)) {
            (Some(s), Some(t)) => s@ == t,
            (None, None) => true,
            _ => false,
        },
{
    if !snapshot || !status.is_up() {
        return None;
    }
    match mode {
        TitleMode::SessionTokens => Some(compact(session_tokens)),
        TitleMode::SessionUsd => Some(session_usd.to_owned()),
        TitleMode::LifetimeTokens => Some(compact(lifetime_tokens)),
        TitleMode::LifetimeUsd => Some(lifetime_usd.to_owned()),
        TitleMode::IconOnly => None,
    }
}

/// The one-line summary in the tooltip and the tray menu. `session` holds
/// the session's tokens and its formatted dollar amount when data is shown.
pub open spec fn summary_line(status: Status, port: u16, session: Option<(u64, Seq<char>)>) -> Seq<
    char,
> {
    if status == Status::Connecting {
        "Connecting to Headroom…"@
    } else if status == Status::Offline {
        "Headroom proxy offline · port "@ + decimal(port as nat)
    } else {
        match session {
            Some((tokens, usd)) => "Session: "@ + compact_text(tokens as nat) + " tokens · "@ + usd
                + " saved"@,
            None => "Headroom proxy online"@,
        }
    }
}

/// Builds the summary line.
pub fn tray_summary(status: Status, port: u16, session: Option<(u64, &str)>) -> (r: String)
    ensures
        r@ == summary_line(
            status,
            port,
            match session {
                Some((t, u)) => Some((t, u@)),
                None => None,
            },
        ),
{
    match status {
        Status::Connecting => String::from_str("Connecting to Headroom…"),
        Status::Offline => {
            let mut s = String::from_str("Headroom proxy offline · port ");
            push_decimal(&mut s, port as u64);
            s
        },
        _ => match session {
            Some((tokens, usd)) => {
                let c = compact(tokens);
                String::from_str("Session: ").concat(c.as_str()).concat(" tokens · ").concat(
                    usd,
                ).concat(" saved")
            },
            None => String::from_str("Headroom proxy online"),
        },
    }
}

/// The tooltip: the app's name, a dash and the summary line.
pub fn tray_tooltip(summary: &str) -> (r: String)
    ensures
        r@ == "Trimbit — "@ + summary@,
{
    String::from_str("Trimbit — ").concat(summary)
}

/// The title follows the mode: the short form of the session count or of
/// the lifetime count (never the other one), or the given dollar text,
/// while data is shown and the proxy answers (online or degraded); nothing
/// in icon-only mode, without data, or while connecting or offline.
pub proof fn lemma_title_follows_mode(
    mode: TitleMode,
    status: Status,
    snapshot: bool,
    session_tokens: u64,
    lifetime_tokens: u64,
    session_usd: Seq<char>,
    lifetime_usd: Seq<char>,
)
    ensures
        ({
            let t = title_text(
                mode,
                status,
                snapshot,
                session_tokens,
                lifetime_tokens,
                session_usd,
                lifetime_usd,
            );
            &&& (!snapshot || status == Status::Connecting || status == Status::Offline) ==> t is None
            &&& snapshot && (status == Status::Online || status == Status::Degraded) ==> {
                &&& mode == TitleMode::SessionTokens ==> t == Some(compact_text(session_tokens as nat))
                &&& mode == TitleMode::LifetimeTokens ==> t == Some(
                    compact_text(lifetime_tokens as nat),
                )
                &&& mode == TitleMode::SessionUsd ==> t == Some(session_usd)
                &&& mode == TitleMode::LifetimeUsd ==> t == Some(lifetime_usd)
                &&& mode == TitleMode::IconOnly ==> t is None
            }
        }),
{
}

/// The icon shows the offline variant exactly when the proxy is offline;
/// macOS gets template images, Linux and dark Windows panels the light
/// glyph, light Windows panels the dark one.
pub proof fn lemma_icon_choice(status: Status, platform: Platform, dark_theme: bool)
    ensures
        ({
            let i = icon_for(status, platform, dark_theme);
            let off = status == Status::Offline;
            &&& platform == Platform::MacOs ==> i == (if off {
                TrayIcon::TemplateOffline
            } else {
                TrayIcon::Template
            })
            &&& (platform == Platform::Linux || (platform == Platform::Windows && dark_theme)) ==> i
                == (if off {
                TrayIcon::LightOffline
            } else {
                TrayIcon::Light
            })
            &&& (platform == Platform::Windows && !dark_theme) ==> i == (if off {
                TrayIcon::DarkOffline
            } else {
                TrayIcon::Dark
            })
        }),
{
}

/// The panel opens under the tray icon once its place is known (centred on
/// macOS, bottom-centred elsewhere), otherwise bottom right on Windows and
/// top right on macOS and Linux.
pub proof fn lemma_panel_placement(tray_known: bool, platform: Platform)
    ensures
        tray_known && platform == Platform::MacOs ==> position_for(tray_known, platform)
            == PanelPosition::TrayCenter,
        tray_known && platform != Platform::MacOs ==> position_for(tray_known, platform)
            == PanelPosition::TrayBottomCenter,
        !tray_known && platform == Platform::Windows ==> position_for(tray_known, platform)
            == PanelPosition::BottomRight,
        !tray_known && platform != Platform::Windows ==> position_for(tray_known, platform)
            == PanelPosition::TopRight,
{
}

/// A click hides a visible panel; on a hidden panel it shows it, except
/// within 300 ms of the panel being hidden.
pub proof fn lemma_click_toggles(visible: bool, hidden_ms_ago: Option<u64>)
    ensures
        visible ==> toggle_for(visible, hidden_ms_ago) == PanelAction::Hide,
        !visible && hidden_ms_ago is None ==> toggle_for(visible, hidden_ms_ago) == PanelAction::Show,
        !visible && (hidden_ms_ago matches Some(ms) && ms < 300) ==> toggle_for(
            visible,
            hidden_ms_ago,
        ) == PanelAction::Nothing,
        !visible && (hidden_ms_ago matches Some(ms) && ms >= 300) ==> toggle_for(
            visible,
            hidden_ms_ago,
        ) == PanelAction::Show,
{
}

/// The summary line says connecting, offline with the port, or, when the
/// proxy answers, the session's tokens in short form and its dollar text
/// (or just that it is online when there is no data).
pub proof fn lemma_summary_line_cases(status: Status, port: u16, session: Option<(u64, Seq<char>)>)
    ensures
        status == Status::Connecting ==> summary_line(status, port, session)
            == "Connecting to Headroom…"@,
        status == Status::Offline ==> summary_line(status, port, session)
            == "Headroom proxy offline · port "@ + decimal(port as nat),
        (status == Status::Online || status == Status::Degraded) ==> summary_line(
            status,
            port,
            session,
        ) == match session {
            Some((tokens, usd)) => "Session: "@ + compact_text(tokens as nat) + " tokens · "@ + usd
                + " saved"@,
            None => "Headroom proxy online"@,
        },
{
}

} // verus!

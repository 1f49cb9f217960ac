//! Connection state: what the app knows about the proxy, and how each poll
//! result and each settings change moves it.

use vstd::prelude::*;
use crate::format::{decimal, group_thousands, grouped, push_decimal};
use crate::proxy::{error_message, ProxyError};
use crate::settings::{validation, Settings};

verus! {

/// How the proxy is doing.
#[derive(Debug, Clone, Copy, PartialEq, Eq, Structural)]
pub enum Status {
    Connecting,
    Online,
    Degraded,
    Offline,
}

impl Status {
    /// Online or degraded: the proxy answers.
    pub open spec fn up(self) -> bool {
        self == Status::Online || self == Status::Degraded
    }

    /// Whether the proxy answers (online or degraded).
    pub fn is_up(self) -> (r: bool)
        ensures
            r == self.up(),
    {
        match self {
            Status::Online | Status::Degraded => true,
            _ => false,
        }
    }
}

/// The shared state. `S` is a snapshot of the proxy's statistics, `T` a
/// point in wall-clock time and `P` a point in monotonic time.
pub struct Inner<S, T, P> {
    pub settings: Settings,
    pub snapshot: Option<S>,
    pub status: Status,
    pub error: Option<String>,
    pub last_checked: Option<T>,
    pub last_success: Option<T>,
    pub panel_hidden_at: Option<P>,
}

/// The host and port of two settings differ.
pub open spec fn endpoint_changed(a: Settings, b: Settings) -> bool {
    a.host@ != b.host@ || a.port != b.port
}

impl<S, T: Copy, P> Inner<S, T, P> {
    /// The state at start-up: connecting, nothing known yet.
    pub fn new(settings: Settings) -> (r: Self)
        ensures
            r.settings == settings,
            r.snapshot is None,
            r.status == Status::Connecting,
            r.error is None,
            r.last_checked is None,
            r.last_success is None,
            r.panel_hidden_at is None,
    {
        Inner {
            settings,
            snapshot: None,
            status: Status::Connecting,
            error: None,
            last_checked: None,
            last_success: None,
            panel_hidden_at: None,
        }
    }

    /// Records the outcome of a poll made at `now`: a snapshot and whether
    /// the proxy calls itself healthy, or an error. Returns the status before
    /// and after, and whether the user wants status notifications.
    pub fn record_poll(&mut self, result: Result<(S, bool), ProxyError>, now: T) -> (r: (
        Status,
        Status,
        bool,
    ))
        ensures
            r.0 == old(self).status,
            r.1 == final(self).status,
            r.2 == old(self).settings.notify_status_changes,
            final(self).settings == old(self).settings,
            final(self).panel_hidden_at == old(self).panel_hidden_at,
            final(self).last_checked == Some(now),
            match result {
                Ok((snapshot, healthy)) => {
                    &&& final(self).status == (if healthy {
                        Status::Online
                    } else {
                        Status::Degraded
                    })
                    &&& final(self).snapshot == Some(snapshot)
                    &&& final(self).error is None
                    &&& final(self).last_success == Some(now)
                },
                Err(e) => {
                    &&& final(self).status == Status::Offline
                    &&& final(self).snapshot == old(self).snapshot
                    &&& final(self).error matches Some(m) && m@ == error_message(e)
                    &&& final(self).last_success == old(self).last_success
                },
            },
    {
        let previous = self.status;
        self.last_checked = Some(now);
        match result {
            Ok((snapshot, healthy)) => {
                self.status = if healthy {
                    Status::Online
                } else {
                    Status::Degraded
                };
                self.snapshot = Some(snapshot);
                self.error = None;
                self.last_success = Some(now);
            },
            Err(e) => {
                self.status = Status::Offline;
                self.error = Some(e.message());
            },
        }
        (previous, self.status, self.settings.notify_status_changes)
    }

    /// Applies new settings, which have passed validation (nothing is applied
    /// unless every field is valid); when the host or port changes, what was
    /// known about the old endpoint is dropped and the state goes back to
    /// connecting.
    pub fn apply_settings(&mut self, settings: Settings)
        requires
            validation(settings) is Ok,
        ensures
            final(self).settings == settings,
            final(self).last_checked == old(self).last_checked,
            final(self).last_success == old(self).last_success,
            final(self).panel_hidden_at == old(self).panel_hidden_at,
            old(self).settings.host@ != settings.host@ || old(self).settings.port != settings.port
                ==> {
                &&& final(self).snapshot is None
                &&& final(self).status == Status::Connecting
                &&& final(self).error is None
            },
            old(self).settings.host@ == settings.host@ && old(self).settings.port == settings.port
                ==> {
                &&& final(self).snapshot == old(self).snapshot
                &&& final(self).status == old(self).status
                &&& final(self).error == old(self).error
            },
            endpoint_changed(old(self).settings, settings) ==> {
                &&& final(self).snapshot is None
                &&& final(self).status == Status::Connecting
                &&& final(self).error is None
            },
            !endpoint_changed(old(self).settings, settings) ==> {
                &&& final(self).snapshot == old(self).snapshot
                &&& final(self).status == old(self).status
                &&& final(self).error == old(self).error
            },
    {
        let changed = self.settings.host != settings.host || self.settings.port != settings.port;
        self.settings = settings;
        if changed {
            self.snapshot = None;
            self.status = Status::Connecting;
            self.error = None;
        }
    }
}

/// The figures of the copied summary: counts, and the percentages and
/// dollar amounts already formatted.
pub struct SummaryFigures {
    pub session_tokens: u64,
    pub session_percent: String,
    pub session_usd: String,
    pub session_requests: u64,
    pub lifetime_tokens: u64,
    pub lifetime_usd: String,
    pub lifetime_requests: u64,
    pub all_layers_saved: u64,
    pub all_layers_percent: String,
}

/// A count with thousands separators.
pub open spec fn grouped_text(n: u64) -> Seq<char> {
    group_thousands(decimal(n as nat))
}

/// The plain-text summary for the clipboard: the proxy's port when there is
/// no data; otherwise the session, lifetime and all-layer figures, each count
/// with thousands separators.
pub open spec fn summary_spec(port: u16, figures: Option<SummaryFigures>) -> Seq<char> {
    match figures {
        None => "Headroom proxy offline (port "@ + decimal(port as nat) + ")"@,
        Some(f) => "Headroom savings (via Trimbit)\nSession: "@ + grouped_text(f.session_tokens)
            + " tokens removed ("@ + f.session_percent@ + " of input), ≈ "@ + f.session_usd@
            + " estimated value, "@ + grouped_text(f.session_requests) + " requests\nLifetime: "@
            + grouped_text(f.lifetime_tokens) + " tokens removed, ≈ "@ + f.lifetime_usd@
            + " estimated value, "@ + grouped_text(f.lifetime_requests)
            + " requests\nProxy, all layers: "@ + grouped_text(f.all_layers_saved)
            + " tokens saved ("@ + f.all_layers_percent@ + ")"@,
    }
}

/// Plain-text summary for the clipboard. Holds nothing from the proxy
/// beyond numbers, so it is safe to paste anywhere.
pub fn summary_text(port: u16, figures: Option<&SummaryFigures>) -> (r: String)
    ensures
        r@ == summary_spec(
            port,
            match figures {
                Some(f) => Some(*f),
                None => None,
            },
        ),
{
    match figures {
        None => {
            let mut s = String::from_str("Headroom proxy offline (port ");
            push_decimal(&mut s, port as u64);
            s.concat(")")
        },
        Some(f) => {
            let s = String::from_str("Headroom savings (via Trimbit)\nSession: ");
            let s = s.concat(grouped(f.session_tokens).as_str());
            let s = s.concat(" tokens removed (");
            let s = s.concat(f.session_percent.as_str());
            let s = s.concat(" of input), ≈ ");
            let s = s.concat(f.session_usd.as_str());
            let s = s.concat(" estimated value, ");
            let s = s.concat(grouped(f.session_requests).as_str());
            let s = s.concat(" requests\nLifetime: ");
            let s = s.concat(grouped(f.lifetime_tokens).as_str());
            let s = s.concat(" tokens removed, ≈ ");
            let s = s.concat(f.lifetime_usd.as_str());
            let s = s.concat(" estimated value, ");
            let s = s.concat(grouped(f.lifetime_requests).as_str());
            let s = s.concat(" requests\nProxy, all layers: ");
            let s = s.concat(grouped(f.all_layers_saved).as_str());
            let s = s.concat(" tokens saved (");
            let s = s.concat(f.all_layers_percent.as_str());
            s.concat(")")
        },
    }
}

/// A notification about the proxy coming or going.
#[derive(Debug, Clone, Copy, PartialEq, Eq, Structural)]
pub enum Notice {
    BackOnline,
    Unreachable,
}

/// The notification owed for a status change: only when the user wants
/// them, never for the first result after launch, and only when the proxy
/// went from answering to not answering or back.
pub open spec fn notice_for(previous: Status, current: Status, enabled: bool) -> Option<Notice> {
    if enabled && previous != Status::Connecting && previous.up() != current.up() {
        if current.up() {
            Some(Notice::BackOnline)
        } else {
            Some(Notice::Unreachable)
        }
    } else {
        None
    }
}

/// The first result after launch is never announced, nothing is announced
/// when notifications are off, and otherwise a notification comes exactly
/// when the proxy starts or stops answering, saying which.
pub proof fn lemma_notices_follow_transitions(previous: Status, current: Status, enabled: bool)
    ensures
        notice_for(Status::Connecting, current, enabled) is None,
        notice_for(previous, current, false) is None,
        enabled && previous != Status::Connecting ==> (notice_for(previous, current, enabled) is Some
            <==> previous.up() != current.up()),
        notice_for(previous, current, enabled) == Some(Notice::BackOnline) ==> current.up(),
        notice_for(previous, current, enabled) == Some(Notice::Unreachable) ==> !current.up(),
{
}

/// Decides whether a status change is announced, and how.
pub fn status_notice(previous: Status, current: Status, enabled: bool) -> (r: Option<Notice>)
    ensures
        r == notice_for(previous, current, enabled),
{
    if enabled && previous != Status::Connecting && previous.is_up() != current.is_up() {
        if current.is_up() {
            Some(Notice::BackOnline)
        } else {
            Some(Notice::Unreachable)
        }
    } else {
        None
    }
}

/// Title and body of a notification; `error` is the last error message.
pub open spec fn notice_text(n: Notice, error: Seq<char>) -> (Seq<char>, Seq<char>) {
    match n {
        Notice::BackOnline => (
            "Headroom proxy is back online"@,
            "Trimbit is tracking savings again."@,
        ),
        Notice::Unreachable => ("Headroom proxy is unreachable"@, error),
    }
}

impl Notice {
    /// The title and body shown for this notification.
    pub fn text(self, error: &str) -> (r: (String, String))
        ensures
            (r.0@, r.1@) == notice_text(self, error@),
    {
        match self {
            Notice::BackOnline => (
                String::from_str("Headroom proxy is back online"),
                String::from_str("Trimbit is tracking savings again."),
            ),
            Notice::Unreachable => (
                String::from_str("Headroom proxy is unreachable"),
                error.to_owned(),
            ),
        }
    }
}

/// The endpoint counts as changed when the host changes, when the port
/// changes, or both; with the same host and port it has not changed.
pub proof fn lemma_endpoint_change(a: Settings, b: Settings)
    ensures
        a.host@ != b.host@ ==> endpoint_changed(a, b),
        a.port != b.port ==> endpoint_changed(a, b),
        a.host@ == b.host@ && a.port == b.port ==> !endpoint_changed(a, b),
{
}

/// The proxy answers when it is online or degraded, not while connecting or
/// offline.
pub proof fn lemma_up_states(s: Status)
    ensures
        s.up() <==> (s == Status::Online || s == Status::Degraded),
{
}

/// With notifications on, losing the proxy (online or degraded to offline)
/// is announced as unreachable and getting it back (offline to online or
/// degraded) as back online; moves between online and degraded, to the same
/// status, or out of connecting are not announced.
pub proof fn lemma_notice_cases(previous: Status, current: Status)
    ensures
        (previous == Status::Online || previous == Status::Degraded) && current == Status::Offline
            ==> notice_for(previous, current, true) == Some(Notice::Unreachable),
        previous == Status::Offline && (current == Status::Online || current == Status::Degraded)
            ==> notice_for(previous, current, true) == Some(Notice::BackOnline),
        (previous == Status::Online || previous == Status::Degraded) && (current == Status::Online
            || current == Status::Degraded) ==> notice_for(previous, current, true) is None,
        previous == current ==> notice_for(previous, current, true) is None,
        previous == Status::Connecting ==> notice_for(previous, current, true) is None,
        notice_for(previous, current, false) is None,
{
}

/// The back-online notification says so; the unreachable one carries the
/// last error message as its body.
pub proof fn lemma_notice_texts(error: Seq<char>)
    ensures
        notice_text(Notice::BackOnline, error) == (
            "Headroom proxy is back online"@,
            "Trimbit is tracking savings again."@,
        ),
        notice_text(Notice::Unreachable, error) == ("Headroom proxy is unreachable"@, error),
{
}

/// The copied summary names the port when there is no data; otherwise each
/// line shows its own figures: the session's tokens, percent, dollars and
/// requests, then the lifetime's tokens, dollars and requests, then the
/// all-layer tokens and percent, counts with thousands separators.
pub proof fn lemma_summary_figures(port: u16, figures: Option<SummaryFigures>)
    ensures
        figures is None ==> summary_spec(port, figures) == "Headroom proxy offline (port "@
            + decimal(port as nat) + ")"@,
        figures matches Some(f) ==> summary_spec(port, figures) == "Headroom savings (via Trimbit)\nSession: "@
            + group_thousands(decimal(f.session_tokens as nat)) + " tokens removed ("@
            + f.session_percent@ + " of input), ≈ "@ + f.session_usd@ + " estimated value, "@
            + group_thousands(decimal(f.session_requests as nat)) + " requests\nLifetime: "@
            + group_thousands(decimal(f.lifetime_tokens as nat)) + " tokens removed, ≈ "@
            + f.lifetime_usd@ + " estimated value, "@ + group_thousands(
            decimal(f.lifetime_requests as nat),
        ) + " requests\nProxy, all layers: "@ + group_thousands(
            decimal(f.all_layers_saved as nat),
        ) + " tokens saved ("@ + f.all_layers_percent@ + ")"@,
{
}

} // verus!

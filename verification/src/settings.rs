//! User settings and the rules they must follow.

use vstd::prelude::*;
use crate::ip::{ipv4_literal, octet, octet_list, split_on};
use crate::proxy::{is_loopback, is_loopback_host};
use crate::strings::{all_digits, chars_of, digits_value, parse_u16, parse_u16_chars, trim, trimmed};

verus! {

/// Proxy port used when none is configured.
pub const DEFAULT_PORT: u16 = 8787;

/// The refresh intervals, in seconds, that can be chosen.
pub const REFRESH_CHOICES: [u64; 4] = [5, 10, 30, 60];

/// Refresh interval used when none is configured.
pub const DEFAULT_REFRESH: u64 = 10;

/// What the tray shows next to its icon.
#[derive(Debug, Clone, Copy, PartialEq, Eq, Structural)]
pub enum TitleMode {
    SessionTokens,
    SessionUsd,
    LifetimeTokens,
    LifetimeUsd,
    IconOnly,
}

/// How token counts are shown: `1.1M` or `1,054,759`.
#[derive(Debug, Clone, Copy, PartialEq, Eq, Structural)]
pub enum NumberFormat {
    Compact,
    Exact,
}

/// The user's settings.
#[derive(Debug, Clone, PartialEq)]
pub struct Settings {
    pub host: String,
    pub port: u16,
    pub refresh_seconds: u64,
    pub title_mode: TitleMode,
    pub number_format: NumberFormat,
    pub notify_status_changes: bool,
    pub check_updates: bool,
}

/// `s` is one of the refresh intervals that can be chosen.
pub open spec fn is_refresh_choice(s: u64) -> bool {
    s == 5 || s == 10 || s == 30 || s == 60
}

/// The port taken from the `HEADROOM_PORT` value, when it is set: its text
/// with surrounding whitespace removed, read as a non-zero 16-bit number;
/// otherwise `DEFAULT_PORT`.
pub open spec fn port_from_env(env: Option<Seq<char>>) -> u16 {
    match env {
        Some(v) => match parse_u16(trim(v)) {
            Some(p) => if p != 0 {
                p
            } else {
                DEFAULT_PORT
            },
            None => DEFAULT_PORT,
        },
        None => DEFAULT_PORT,
    }
}

/// The port that the defaults use, given the value of `HEADROOM_PORT`.
pub fn default_port(env: Option<&str>) -> (p: u16)
    ensures
        p == port_from_env(
            match env {
                Some(v) => Some(v@),
                None => None,
            },
        ),
{
    match env {
        Some(v) => {
            let chars = chars_of(v);
            let t = trimmed(&chars);
            match parse_u16_chars(&t) {
                Some(p) => if p != 0 {
                    p
                } else {
                    DEFAULT_PORT
                },
                None => DEFAULT_PORT,
            }
        },
        None => DEFAULT_PORT,
    }
}

/// The message for a host that is not a loopback address.
pub open spec fn host_error(host: Seq<char>) -> Seq<char> {
    "Host “"@ + host + "” is not a loopback address."@
}

/// The outcome of validation: the first rule that the settings break.
pub open spec fn validation(s: Settings) -> Result<(), Seq<char>> {
    if !is_loopback(s.host@) {
        Err(host_error(s.host@))
    } else if s.port == 0 {
        Err("Port must be between 1 and 65535."@)
    } else if !is_refresh_choice(s.refresh_seconds) {
        Err("Refresh interval must be one of [5, 10, 30, 60] seconds."@)
    } else {
        Ok(())
    }
}

/// `after` is `before` with each invalid field replaced by its default: a
/// host that is not loopback by 127.0.0.1, port 0 by the port from
/// `HEADROOM_PORT` (or `DEFAULT_PORT`), an interval that cannot be chosen by
/// `DEFAULT_REFRESH`; all other fields kept.
pub open spec fn is_sanitized_from(before: Settings, after: Settings, env: Option<Seq<char>>) -> bool {
    &&& after.host@ == (if is_loopback(before.host@) {
        before.host@
    } else {
        "127.0.0.1"@
    })
    &&& after.port == (if before.port != 0 {
        before.port
    } else {
        port_from_env(env)
    })
    &&& after.refresh_seconds == (if is_refresh_choice(before.refresh_seconds) {
        before.refresh_seconds
    } else {
        DEFAULT_REFRESH
    })
    &&& after.title_mode == before.title_mode
    &&& after.number_format == before.number_format
    &&& after.notify_status_changes == before.notify_status_changes
    &&& after.check_updates == before.check_updates
}

/// 127.0.0.1 is a loopback host.
pub proof fn lemma_default_host_is_loopback()
    ensures
        is_loopback("127.0.0.1"@),
{
    reveal_strlit("127.0.0.1");
    let t = seq!['1', '2', '7', '.', '0', '.', '0', '.', '1'];
    assert("127.0.0.1"@ =~= t);
    assert(t.take(0) =~= Seq::<char>::empty());
    assert(split_on(t.take(0), '.') =~~= seq![Seq::<char>::empty()]);
    assert(t.take(1).drop_last() =~= t.take(0));
    assert(split_on(t.take(1), '.') =~~= seq![seq!['1']]);
    assert(t.take(2).drop_last() =~= t.take(1));
    assert(split_on(t.take(2), '.') =~~= seq![seq!['1', '2']]);
    assert(t.take(3).drop_last() =~= t.take(2));
    assert(split_on(t.take(3), '.') =~~= seq![seq!['1', '2', '7']]);
    assert(t.take(4).drop_last() =~= t.take(3));
    assert(split_on(t.take(4), '.') =~~= seq![seq!['1', '2', '7'], Seq::<char>::empty()]);
    assert(t.take(5).drop_last() =~= t.take(4));
    assert(split_on(t.take(5), '.') =~~= seq![seq!['1', '2', '7'], seq!['0']]);
    assert(t.take(6).drop_last() =~= t.take(5));
    assert(split_on(t.take(6), '.') =~~= seq![seq!['1', '2', '7'], seq!['0'], Seq::<char>::empty()]);
    assert(t.take(7).drop_last() =~= t.take(6));
    assert(split_on(t.take(7), '.') =~~= seq![seq!['1', '2', '7'], seq!['0'], seq!['0']]);
    assert(t.take(8).drop_last() =~= t.take(7));
    assert(split_on(t.take(8), '.') =~~= seq![seq!['1', '2', '7'], seq!['0'], seq!['0'], Seq::<char>::empty()]);
    assert(t.take(9).drop_last() =~= t.take(8));
    assert(split_on(t.take(9), '.') =~~= seq![seq!['1', '2', '7'], seq!['0'], seq!['0'], seq!['1']]);
    assert(t.take(9) =~= t);
    let parts = split_on(t, '.');
    reveal_with_fuel(octet_list, 5);
    reveal_with_fuel(digits_value, 4);
    assert(seq!['1', '2', '7'].drop_last() =~= seq!['1', '2']);
    assert(seq!['1', '2'].drop_last() =~= seq!['1']);
    assert(seq!['1'].drop_last() =~= Seq::<char>::empty());
    assert(digits_value(seq!['1', '2', '7']) == 127);
    assert(octet(seq!['1', '2', '7']) == Some(127u8));
    assert(digits_value(seq!['0']) == 0);
    assert(digits_value(seq!['1']) == 1);
    assert(parts.drop_last().drop_last().drop_last() =~= seq![seq!['1', '2', '7']]);
    assert(parts.drop_last().drop_last() =~= seq![seq!['1', '2', '7'], seq!['0']]);
    assert(parts.drop_last() =~= seq![seq!['1', '2', '7'], seq!['0'], seq!['0']]);
    assert(seq![seq!['1', '2', '7']].drop_last() =~= Seq::<Seq<char>>::empty());
    assert(ipv4_literal(t) is Some);
    assert(ipv4_literal(t).unwrap()[0] == 127);
}

/// Sanitized settings always pass validation, whatever was read from disk.
pub proof fn lemma_sanitized_is_valid(before: Settings, after: Settings, env: Option<Seq<char>>)
    requires
        is_sanitized_from(before, after, env),
    ensures
        validation(after) is Ok,
{
    lemma_default_host_is_loopback();
}

/// Sanitizing leaves valid settings as they are.
pub proof fn lemma_sanitize_keeps_valid(before: Settings, after: Settings, env: Option<Seq<char>>)
    requires
        validation(before) is Ok,
        is_sanitized_from(before, after, env),
    ensures
        after.host@ == before.host@,
        after.port == before.port,
        after.refresh_seconds == before.refresh_seconds,
        after.title_mode == before.title_mode,
        after.number_format == before.number_format,
        after.notify_status_changes == before.notify_status_changes,
        after.check_updates == before.check_updates,
{
}

/// The refresh intervals that pass are exactly the entries of
/// `REFRESH_CHOICES`: 5, 10, 30 and 60 seconds.
pub proof fn lemma_refresh_choices_are_the_list(s: u64)
    ensures
        is_refresh_choice(s) <==> REFRESH_CHOICES@.contains(s),
        is_refresh_choice(s) <==> (s == 5 || s == 10 || s == 30 || s == 60),
{
    assert(REFRESH_CHOICES@ =~= seq![5u64, 10, 30, 60]);
    if s == 5 || s == 10 || s == 30 || s == 60 {
        let i: int = if s == 5 {
            0
        } else if s == 10 {
            1
        } else if s == 30 {
            2
        } else {
            3
        };
        assert(REFRESH_CHOICES@[i] == s);
    }
}

/// Settings pass validation exactly when the host is a loopback host, the
/// port is not 0 and the refresh interval is one of 5, 10, 30 and 60 seconds;
/// otherwise the message names the first rule broken, in that order.
pub proof fn lemma_validation_rules(st: Settings)
    ensures
        validation(st) is Ok <==> (is_loopback(st.host@) && st.port != 0 && (st.refresh_seconds == 5
            || st.refresh_seconds == 10 || st.refresh_seconds == 30 || st.refresh_seconds == 60)),
        !is_loopback(st.host@) ==> validation(st) == Err::<(), Seq<char>>(
            "Host “"@ + st.host@ + "” is not a loopback address."@,
        ),
        is_loopback(st.host@) && st.port == 0 ==> validation(st) == Err::<(), Seq<char>>(
            "Port must be between 1 and 65535."@,
        ),
        is_loopback(st.host@) && st.port != 0 && !REFRESH_CHOICES@.contains(st.refresh_seconds)
            ==> validation(st) == Err::<(), Seq<char>>(
            "Refresh interval must be one of [5, 10, 30, 60] seconds."@,
        ),
{
    lemma_refresh_choices_are_the_list(st.refresh_seconds);
}

/// Sanitizing keeps a refresh interval of 5, 10, 30 or 60 seconds and puts
/// 10 seconds in place of any other; a loopback host and a non-zero port are
/// kept, an other host becomes 127.0.0.1.
pub proof fn lemma_sanitize_fields(before: Settings, after: Settings, env: Option<Seq<char>>)
    requires
        is_sanitized_from(before, after, env),
    ensures
        REFRESH_CHOICES@.contains(before.refresh_seconds) ==> after.refresh_seconds
            == before.refresh_seconds,
        !REFRESH_CHOICES@.contains(before.refresh_seconds) ==> after.refresh_seconds == 10,
        REFRESH_CHOICES@.contains(after.refresh_seconds),
        is_loopback(before.host@) ==> after.host@ == before.host@,
        !is_loopback(before.host@) ==> after.host@ == "127.0.0.1"@,
        before.port != 0 ==> after.port == before.port,
        after.port != 0,
{
    lemma_refresh_choices_are_the_list(before.refresh_seconds);
    lemma_refresh_choices_are_the_list(after.refresh_seconds);
    lemma_sanitized_is_valid(before, after, env);
}

/// The default port is 8787 unless `HEADROOM_PORT` holds a port number from
/// 1 to 65535 (digits, surrounding whitespace ignored), which is then used;
/// it is never 0. The default refresh interval is 10 seconds.
pub proof fn lemma_default_port(env: Option<Seq<char>>)
    ensures
        port_from_env(None) == 8787,
        port_from_env(env) != 0,
        env matches Some(v) ==> (trim(v).len() > 0 && all_digits(trim(v)) && 1 <= digits_value(
            trim(v),
        ) <= 65535 ==> port_from_env(env) == digits_value(trim(v))),
        env matches Some(v) ==> (!(trim(v).len() > 0 && all_digits(trim(v)) && digits_value(trim(v))
            <= 65535) && !(trim(v).len() > 0 && trim(v)[0] == '+') ==> port_from_env(env) == 8787),
        DEFAULT_REFRESH == 10,
{
}

impl Settings {
    /// The defaults, with the port taken from the value of `HEADROOM_PORT`.
    pub fn default_for(env_port: Option<&str>) -> (s: Settings)
        ensures
            s.host@ == "127.0.0.1"@,
            s.port == port_from_env(
                match env_port {
                    Some(v) => Some(v@),
                    None => None,
                },
            ),
            s.refresh_seconds == DEFAULT_REFRESH,
            s.title_mode == TitleMode::SessionTokens,
            s.number_format == NumberFormat::Compact,
            s.notify_status_changes,
            s.check_updates,
    {
        Settings {
            host: String::from_str("127.0.0.1"),
            port: default_port(env_port),
            refresh_seconds: DEFAULT_REFRESH,
            title_mode: TitleMode::SessionTokens,
            number_format: NumberFormat::Compact,
            notify_status_changes: true,
            check_updates: true,
        }
    }

    /// Rejects values the app must never act on. Used for updates coming from the UI.
    pub fn validate(&self) -> (r: Result<(), String>)
        ensures
            match (r, validation(*self)) {
                (Ok(()), Ok(())) => true,
                (Err(m), Err(e)) => m@ == e,
                _ => false,
            },
    {
        if !is_loopback_host(self.host.as_str()) {
            let m = String::from_str("Host “").concat(self.host.as_str()).concat(
                "” is not a loopback address.",
            );
            return Err(m);
        }
        if self.port == 0 {
            return Err(String::from_str("Port must be between 1 and 65535."));
        }
        if !refresh_choice(self.refresh_seconds) {
            return Err(String::from_str("Refresh interval must be one of [5, 10, 30, 60] seconds."));
        }
        Ok(())
    }

    /// Replaces invalid fields with the defaults (the port default taken from
    /// `HEADROOM_PORT`). Used for settings read from disk.
    pub fn sanitized(self, env_port: Option<&str>) -> (s: Settings)
        ensures
            is_sanitized_from(
                self,
                s,
                match env_port {
                    Some(v) => Some(v@),
                    None => None,
                },
            ),
    {
        let default = Settings::default_for(env_port);
        let mut s = self;
        if !is_loopback_host(s.host.as_str()) {
            s.host = default.host;
        }
        if s.port == 0 {
            s.port = default.port;
        }
        if !refresh_choice(s.refresh_seconds) {
            s.refresh_seconds = default.refresh_seconds;
        }
        s
    }
}

/// Whether `s` is one of `REFRESH_CHOICES`.
pub fn refresh_choice(s: u64) -> (r: bool)
    ensures
        r == is_refresh_choice(s),
{
    let mut i: usize = 0;
    while i < 4
        invariant
            i <= 4,
            forall|j: int| 0 <= j < i ==> REFRESH_CHOICES@[j] != s,
        decreases 4 - i,
    {
        if REFRESH_CHOICES[i] == s {
            return true;
        }
        i += 1;
    }
    false
}

} // verus!

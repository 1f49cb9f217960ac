//! Rules for talking to the local proxy: which hosts may be contacted, how
//! the endpoint URL is formed, and how text taken from its answers is cleaned.

use vstd::prelude::*;
use crate::format::{decimal, push_decimal};
use crate::ip::{is_loopback_ip, is_loopback_ip_chars};
use crate::strings::{
    chars_of, control, is_control, is_whitespace, lemma_lex_lt_irreflexive,
    lemma_lex_lt_total, lemma_lex_lt_transitive, lex_less, lex_lt, same_text, whitespace,
};

verus! {

/// Longest text, in characters, that is kept from the proxy.
pub const MAX_TEXT_CHARS: usize = 200;

/// Most models listed in a snapshot.
pub const MAX_MODELS: usize = 8;

/// Largest response body accepted from the proxy, in bytes.
pub const MAX_BODY_BYTES: usize = 2097152;

/// Bidi overrides and isolates, zero-width marks and the byte order mark:
/// characters that make text render differently from what it contains.
pub open spec fn is_invisible_format_spec(c: char) -> bool {
    let u = c as u32;
    ||| 0x200B <= u <= 0x200F
    ||| 0x202A <= u <= 0x202E
    ||| 0x2066 <= u <= 0x2069
    ||| u == 0xFEFF
}

/// Whether `c` is one of the invisible formatting characters that are dropped.
pub fn is_invisible_format(c: char) -> (r: bool)
    ensures
        r == is_invisible_format_spec(c),
{
    let u = c as u32;
    (0x200B <= u && u <= 0x200F) || (0x202A <= u && u <= 0x202E) || (0x2066 <= u && u <= 0x2069)
        || u == 0xFEFF
}

/// A character that survives cleaning.
pub open spec fn is_visible(c: char) -> bool {
    !is_control(c) && !is_invisible_format_spec(c)
}

/// The whitespace-separated words of `s` joined by single spaces
/// (`split_whitespace` followed by `join(" ")`).
pub open spec fn joined_words(s: Seq<char>) -> Seq<char>
    decreases s.len(),
{
    if s.len() == 0 {
        s
    } else {
        let init = s.drop_last();
        let c = s.last();
        if is_whitespace(c) {
            joined_words(init)
        } else if init.len() > 0 && is_whitespace(init.last()) && joined_words(init).len() > 0 {
            joined_words(init).push(' ').push(c)
        } else {
            joined_words(init).push(c)
        }
    }
}

/// The first `n` elements of `s`, or all of it when it is shorter.
pub open spec fn truncated<A>(s: Seq<A>, n: nat) -> Seq<A> {
    if s.len() <= n {
        s
    } else {
        s.take(n as int)
    }
}

/// The cleaned form of `raw`: words joined by single spaces, control and
/// invisible formatting characters removed, cut to `MAX_TEXT_CHARS`
/// characters; `None` when nothing is left.
pub open spec fn sanitized_text(raw: Seq<char>) -> Option<Seq<char>> {
    let t = truncated(joined_words(raw).filter(|c: char| is_visible(c)), MAX_TEXT_CHARS as nat);
    if t.len() == 0 {
        None
    } else {
        Some(t)
    }
}

/// Text kept from the proxy is never empty, has at most `MAX_TEXT_CHARS`
/// characters and holds no control or invisible formatting character.
pub proof fn lemma_sanitized_text_is_clean(raw: Seq<char>)
    ensures
        sanitized_text(raw) matches Some(t) ==> {
            &&& 0 < t.len() <= MAX_TEXT_CHARS
            &&& forall|i: int| 0 <= i < t.len() ==> is_visible(#[trigger] t[i])
        },
{
    broadcast use vstd::seq_lib::group_filter_ensures;

    let w = joined_words(raw);
    let f = w.filter(|c: char| is_visible(c));
    assert forall|i: int| 0 <= i < f.len() implies is_visible(#[trigger] f[i]) by {
        w.lemma_filter_pred(|c: char| is_visible(c), i);
    }
}

/// Without whitespace there is a single word, kept as it is.
proof fn lemma_joined_words_single(s: Seq<char>)
    requires
        forall|i: int| 0 <= i < s.len() ==> !is_whitespace(#[trigger] s[i]),
    ensures
        joined_words(s) == s,
    decreases s.len(),
{
    if s.len() > 0 {
        let init = s.drop_last();
        assert forall|i: int| 0 <= i < init.len() implies !is_whitespace(#[trigger] init[i]) by {
            assert(init[i] == s[i]);
        }
        lemma_joined_words_single(init);
        assert(!is_whitespace(s.last()));
        if init.len() > 0 {
            assert(init.last() == s[s.len() - 2]);
        }
        assert(init.push(s.last()) =~= s);
    }
}

/// Only whitespace leaves no word.
proof fn lemma_joined_words_blank(s: Seq<char>)
    requires
        forall|i: int| 0 <= i < s.len() ==> is_whitespace(#[trigger] s[i]),
    ensures
        joined_words(s).len() == 0,
    decreases s.len(),
{
    if s.len() > 0 {
        let init = s.drop_last();
        assert forall|i: int| 0 <= i < init.len() implies is_whitespace(#[trigger] init[i]) by {
            assert(init[i] == s[i]);
        }
        lemma_joined_words_blank(init);
        assert(is_whitespace(s.last()));
    }
}

proof fn lemma_filter_keeps_all(s: Seq<char>)
    requires
        forall|i: int| 0 <= i < s.len() ==> is_visible(#[trigger] s[i]),
    ensures
        s.filter(|c: char| is_visible(c)) == s,
    decreases s.len(),
{
    reveal_with_fuel(Seq::filter, 1);
    if s.len() > 0 {
        let init = s.drop_last();
        assert forall|i: int| 0 <= i < init.len() implies is_visible(#[trigger] init[i]) by {
            assert(init[i] == s[i]);
        }
        lemma_filter_keeps_all(init);
        assert(is_visible(s.last()));
        assert(init.push(s.last()) =~= s);
    }
}

/// Text of visible characters and no whitespace is kept as it is, cut to
/// its first 200 characters; text with nothing but whitespace is dropped.
pub proof fn lemma_plain_text_kept(raw: Seq<char>)
    ensures
        (forall|i: int| 0 <= i < raw.len() ==> !is_whitespace(#[trigger] raw[i]) && is_visible(raw[i]))
            ==> {
            &&& raw.len() == 0 ==> sanitized_text(raw) is None
            &&& 0 < raw.len() <= 200 ==> sanitized_text(raw) == Some(raw)
            &&& raw.len() > 200 ==> sanitized_text(raw) == Some(raw.take(200))
        },
        (forall|i: int| 0 <= i < raw.len() ==> is_whitespace(#[trigger] raw[i]))
            ==> sanitized_text(raw) is None,
{
    if forall|i: int| 0 <= i < raw.len() ==> !is_whitespace(#[trigger] raw[i]) && is_visible(raw[i]) {
        lemma_joined_words_single(raw);
        lemma_filter_keeps_all(raw);
    }
    if forall|i: int| 0 <= i < raw.len() ==> is_whitespace(#[trigger] raw[i]) {
        lemma_joined_words_blank(raw);
        let w = joined_words(raw);
        assert(w =~= Seq::<char>::empty());
        reveal_with_fuel(Seq::filter, 1);
        assert(w.filter(|c: char| is_visible(c)).len() == 0);
    }
}

/// The limits: texts of at most 200 characters, at most 8 models, bodies of
/// at most 2 MiB.
pub proof fn lemma_limits()
    ensures
        MAX_TEXT_CHARS == 200,
        MAX_MODELS == 8,
        MAX_BODY_BYTES == 2 * 1024 * 1024,
{
}

/// Strips control and bidi characters, collapses whitespace and caps the length.
pub fn sanitize_text(raw: &str) -> (r: Option<String>)
    ensures
        match r {
            Some(s) => sanitized_text(raw@) == Some(s@),
            None => sanitized_text(raw@).is_none(),
        },
{
    let v = chars_of(raw);
    let n = v.len();
    let mut words: Vec<char> = Vec::new();
    let mut i: usize = 0;
    while i < n
        invariant
            i <= n == v@.len(),
            words@ == joined_words(v@.take(i as int)),
        decreases n - i,
    {
        let c = v[i];
        let ghost pre = v@.take(i as int);
        proof {
            assert(v@.take(i + 1).drop_last() =~= pre);
            assert(v@.take(i + 1).last() == c);
            if i > 0 {
                assert(pre.last() == v@[i - 1]);
            }
        }
        if !whitespace(c) {
            if i > 0 && whitespace(v[i - 1]) && words.len() > 0 {
                words.push(' ');
            }
            words.push(c);
        }
        i += 1;
    }
    proof {
        assert(v@.take(n as int) =~= v@);
    }
    let ghost p = |c: char| is_visible(c);
    let mut kept: Vec<char> = Vec::new();
    let m = words.len();
    let mut j: usize = 0;
    while j < m
        invariant
            j <= m == words@.len(),
            words@ == joined_words(raw@),
            p == (|c: char| is_visible(c)),
            kept@ == words@.take(j as int).filter(p),
        decreases m - j,
    {
        let c = words[j];
        proof {
            reveal_with_fuel(Seq::filter, 1);
            assert(words@.take(j + 1).drop_last() =~= words@.take(j as int));
            assert(words@.take(j + 1).last() == c);
            assert(p(c) == (!is_control(c) && !is_invisible_format_spec(c)));
        }
        if !control(c) && !is_invisible_format(c) {
            kept.push(c);
        }
        j += 1;
    }
    proof {
        assert(words@.take(m as int) =~= words@);
    }
    let limit = if kept.len() < MAX_TEXT_CHARS {
        kept.len()
    } else {
        MAX_TEXT_CHARS
    };
    if limit == 0 {
        return None;
    }
    let mut out = String::new();
    let mut k: usize = 0;
    while k < limit
        invariant
            k <= limit <= kept@.len(),
            limit <= MAX_TEXT_CHARS,
            out@ == kept@.take(k as int),
        decreases limit - k,
    {
        out.push(kept[k]);
        proof {
            assert(kept@.take(k as int).push(kept@[k as int]) =~= kept@.take(k + 1));
        }
        k += 1;
    }
    proof {
        assert(kept@.take(limit as int) =~= truncated(kept@, MAX_TEXT_CHARS as nat));
    }
    Some(out)
}

/// What went wrong while talking to the proxy.
#[derive(Debug)]
pub enum ProxyError {
    /// The configured host is not a loopback address.
    NotLoopback(String),
    /// The HTTP client could not be set up.
    Client(String),
    /// The proxy could not be reached.
    Unreachable(String),
    /// The proxy answered with a status other than success.
    Status(u16),
    /// The answer is larger than `MAX_BODY_BYTES`.
    TooLarge,
    /// The answer is not valid JSON.
    InvalidJson(String),
}

/// What `format!("{:?}", s)` writes for a string: `s` quoted, with escapes.
pub uninterp spec fn debug_text(s: Seq<char>) -> Seq<char>;

/// Calls std's `Debug` for `str` through `format!("{:?}", ..)`. The contract
/// claims only that the result depends on `s` alone; how characters are
/// escaped is not stated.
#[verifier::external_body]
fn debug_quoted(s: &str) -> (r: String)
    ensures
        r@ == debug_text(s@),
{
    format!("{:?}", s)
}

/// The message shown for an error.
pub open spec fn error_message(e: ProxyError) -> Seq<char> {
    match e {
        ProxyError::NotLoopback(h) => debug_text(h@)
            + " is not a loopback address; only local proxies are allowed"@,
        ProxyError::Client(m) => "could not set up the HTTP client: "@ + m@,
        ProxyError::Unreachable(m) => "proxy is not reachable: "@ + m@,
        ProxyError::Status(code) => "proxy answered with HTTP "@ + decimal(code as nat),
        ProxyError::TooLarge => "proxy response is larger than "@ + decimal(
            (MAX_BODY_BYTES / 1048576) as nat,
        ) + " MB"@,
        ProxyError::InvalidJson(m) => "proxy response is not valid JSON: "@ + m@,
    }
}

/// Each error's message names what went wrong and carries its detail: the
/// host (quoted), the underlying message, the HTTP status code, or the 2 MB
/// limit.
pub proof fn lemma_error_messages(host: String, msg: String, code: u16)
    ensures
        error_message(ProxyError::NotLoopback(host)) == debug_text(host@)
            + " is not a loopback address; only local proxies are allowed"@,
        error_message(ProxyError::Client(msg)) == "could not set up the HTTP client: "@ + msg@,
        error_message(ProxyError::Unreachable(msg)) == "proxy is not reachable: "@ + msg@,
        error_message(ProxyError::Status(code)) == "proxy answered with HTTP "@ + decimal(
            code as nat,
        ),
        error_message(ProxyError::TooLarge) == "proxy response is larger than "@ + seq!['2']
            + " MB"@,
        error_message(ProxyError::InvalidJson(msg)) == "proxy response is not valid JSON: "@
            + msg@,
{
    assert(decimal(2) =~= seq!['2']);
}

impl ProxyError {
    /// The human-readable message of this error.
    pub fn message(&self) -> (r: String)
        ensures
            r@ == error_message(*self),
    {
        match self {
            ProxyError::NotLoopback(h) => {
                let q = debug_quoted(h.as_str());
                q.concat(" is not a loopback address; only local proxies are allowed")
            },
            ProxyError::Client(m) => String::from_str("could not set up the HTTP client: ").concat(
                m.as_str(),
            ),
            ProxyError::Unreachable(m) => String::from_str("proxy is not reachable: ").concat(
                m.as_str(),
            ),
            ProxyError::Status(code) => {
                let mut s = String::from_str("proxy answered with HTTP ");
                push_decimal(&mut s, *code as u64);
                s
            },
            ProxyError::TooLarge => {
                let mut s = String::from_str("proxy response is larger than ");
                push_decimal(&mut s, (MAX_BODY_BYTES / 1048576) as u64);
                s.concat(" MB")
            },
            ProxyError::InvalidJson(m) => String::from_str(
                "proxy response is not valid JSON: ",
            ).concat(m.as_str()),
        }
    }
}

/// The proxy counts as healthy unless its health report gives a status
/// other than `healthy` (a missing report or status counts as healthy).
pub open spec fn healthy_status(status: Option<Seq<char>>) -> bool {
    match status {
        Some(s) => s == "healthy"@,
        None => true,
    }
}

/// Whether the health report's status (if any) says healthy.
pub fn is_healthy(status: Option<&str>) -> (r: bool)
    ensures
        r == healthy_status(
            match status {
                Some(s) => Some(s@),
                None => None,
            },
        ),
{
    match status {
        Some(s) => {
            let expected = "healthy";
            let a = chars_of(s);
            let b = chars_of(expected);
            if a.len() != b.len() {
                return false;
            }
            let mut i: usize = 0;
            while i < a.len()
                invariant
                    a@ == s@,
                    b@ == expected@,
                    expected@ == "healthy"@,
                    status == Some(s),
                    a@.len() == b@.len(),
                    i <= a@.len(),
                    forall|j: int| 0 <= j < i ==> a@[j] == b@[j],
                decreases a@.len() - i,
            {
                if a[i] != b[i] {
                    assert(a@[i as int] != b@[i as int]);
                    assert(s@ != expected@);
                    return false;
                }
                i += 1;
            }
            assert(a@ =~= b@);
            true
        },
        None => true,
    }
}

/// Tokens saved over all layers: the current counter, or the older `saved`
/// counter when the current one is zero or missing.
pub fn all_layers_tokens(all_layers_saved: u64, saved: u64) -> (r: u64)
    ensures
        r == (if all_layers_saved == 0 {
            saved
        } else {
            all_layers_saved
        }),
{
    if all_layers_saved == 0 {
        saved
    } else {
        all_layers_saved
    }
}

/// Only successful answers (HTTP 2xx) are read; any other status, a
/// redirect included, is an error that carries the code.
pub fn check_status(code: u16) -> (r: Result<(), ProxyError>)
    ensures
        200 <= code <= 299 ==> r is Ok,
        !(200 <= code <= 299) ==> (r matches Err(ProxyError::Status(c)) && c == code),
{
    if 200 <= code && code <= 299 {
        Ok(())
    } else {
        Err(ProxyError::Status(code))
    }
}

/// A response that announces more than `MAX_BODY_BYTES` is refused before
/// its body is read.
pub fn check_declared_length(length: Option<u64>) -> (r: Result<(), ProxyError>)
    ensures
        match length {
            Some(n) => if n > MAX_BODY_BYTES {
                r matches Err(ProxyError::TooLarge)
            } else {
                r is Ok
            },
            None => r is Ok,
        },
{
    match length {
        Some(n) => if n > MAX_BODY_BYTES as u64 {
            Err(ProxyError::TooLarge)
        } else {
            Ok(())
        },
        None => Ok(()),
    }
}

/// Accounts for one more chunk of the body: the new total when it stays
/// within `MAX_BODY_BYTES`, otherwise the response is refused.
pub fn accept_chunk(received: usize, chunk: usize) -> (r: Result<usize, ProxyError>)
    ensures
        received + chunk <= MAX_BODY_BYTES ==> r == Ok::<usize, ProxyError>(
            (received + chunk) as usize,
        ),
        received + chunk > MAX_BODY_BYTES ==> (r matches Err(ProxyError::TooLarge)),
{
    if received > MAX_BODY_BYTES || chunk > MAX_BODY_BYTES - received {
        Err(ProxyError::TooLarge)
    } else {
        Ok(received + chunk)
    }
}

/// The letters of `localhost`.
pub open spec fn localhost_chars() -> Seq<char> {
    seq!['l', 'o', 'c', 'a', 'l', 'h', 'o', 's', 't']
}

/// ASCII lower case of `c`; other characters unchanged.
pub open spec fn ascii_lower(c: char) -> char {
    if 'A' <= c <= 'Z' {
        ((c as u32) + 32) as char
    } else {
        c
    }
}

/// `s` is `localhost` ignoring ASCII case.
pub open spec fn is_localhost_name(s: Seq<char>) -> bool {
    s.len() == 9 && forall|i: int| 0 <= i < 9 ==> ascii_lower(#[trigger] s[i]) == localhost_chars()[i]
}

/// The hosts the app may contact: `localhost` in any ASCII case, an IPv4
/// address in 127.0.0.0/8, or the IPv6 address ::1.
pub open spec fn is_loopback(host: Seq<char>) -> bool {
    is_localhost_name(host) || is_loopback_ip(host)
}

fn lower(c: char) -> (r: char)
    ensures
        r == ascii_lower(c),
{
    if 'A' <= c && c <= 'Z' {
        ((c as u32 + 32) as u8) as char
    } else {
        c
    }
}

/// Whether `host` is a loopback host, as `is_loopback` says.
pub fn is_loopback_host(host: &str) -> (r: bool)
    ensures
        r == is_loopback(host@),
{
    let v = chars_of(host);
    let word = ['l', 'o', 'c', 'a', 'l', 'h', 'o', 's', 't'];
    assert(word@ == localhost_chars());
    let mut named = v.len() == 9;
    let mut i: usize = 0;
    while named && i < 9
        invariant
            named ==> v@.len() == 9,
            i <= 9,
            word@ == localhost_chars(),
            named ==> forall|j: int| 0 <= j < i ==> ascii_lower(#[trigger] v@[j]) == localhost_chars()[j],
            !named ==> !is_localhost_name(v@),
        decreases 9 - i,
    {
        if lower(v[i]) != word[i] {
            named = false;
        }
        i += 1;
    }
    named || is_loopback_ip_chars(&v)
}

/// `s` holds a colon.
fn has_colon(s: &str) -> (r: bool)
    ensures
        r == s@.contains(':'),
{
    let v = chars_of(s);
    let mut i: usize = 0;
    while i < v.len()
        invariant
            v@ == s@,
            i <= v@.len(),
            forall|j: int| 0 <= j < i ==> v@[j] != ':',
        decreases v@.len() - i,
    {
        if v[i] == ':' {
            return true;
        }
        i += 1;
    }
    false
}

/// The base URL of the proxy: `http://host:port`, with the host in square
/// brackets when it holds a colon (an IPv6 address).
pub open spec fn endpoint_url(host: Seq<char>, port: u16) -> Seq<char> {
    if host.contains(':') {
        "http://["@ + host + "]:"@ + decimal(port as nat)
    } else {
        "http://"@ + host + ":"@ + decimal(port as nat)
    }
}

/// The proxy's base URL; only loopback hosts are accepted.
pub fn base_url(host: &str, port: u16) -> (r: Result<String, ProxyError>)
    ensures
        is_loopback(host@) ==> (r matches Ok(u) && u@ == endpoint_url(host@, port)),
        !is_loopback(host@) ==> (r matches Err(ProxyError::NotLoopback(h)) && h@ == host@),
{
    if !is_loopback_host(host) {
        return Err(ProxyError::NotLoopback(host.to_owned()));
    }
    let mut s = if has_colon(host) {
        String::from_str("http://[").concat(host).concat("]:")
    } else {
        String::from_str("http://").concat(host).concat(":")
    };
    push_decimal(&mut s, port as u64);
    Ok(s)
}

/// Requests made through one model.
#[derive(Debug, Clone, PartialEq)]
pub struct ModelCount {
    pub name: String,
    pub requests: u64,
}

/// A model as a name and a request count.
pub open spec fn model_view(m: ModelCount) -> (Seq<char>, u64) {
    (m.name@, m.requests)
}

/// The name prefix of internal pass-through entries, which are not models.
pub open spec fn passthrough_prefix() -> Seq<char> {
    seq!['p', 'a', 's', 's', 't', 'h', 'r', 'o', 'u', 'g', 'h', ':']
}

/// The models kept from the proxy's per-model counts, in their order: not
/// pass-through entries, with a name that survives cleaning (and is shown
/// cleaned) and a count that is an unsigned integer.
pub open spec fn kept_models(entries: Seq<(Seq<char>, Option<u64>)>) -> Seq<(Seq<char>, u64)>
    decreases entries.len(),
{
    if entries.len() == 0 {
        Seq::empty()
    } else {
        let rest = kept_models(entries.drop_last());
        let (name, count) = entries.last();
        if !passthrough_prefix().is_prefix_of(name) && sanitized_text(name) is Some
            && count is Some {
            rest.push((sanitized_text(name).unwrap(), count.unwrap()))
        } else {
            rest
        }
    }
}

/// `a` is listed before `b`: more requests first, then by name.
pub open spec fn ranks_before(a: (Seq<char>, u64), b: (Seq<char>, u64)) -> bool {
    a.1 > b.1 || (a.1 == b.1 && lex_lt(a.0, b.0))
}

/// No element is listed after one that it ranks before.
pub open spec fn is_ranked(s: Seq<(Seq<char>, u64)>) -> bool {
    forall|i: int, j: int| 0 <= i < j < s.len() ==> !ranks_before(#[trigger] s[j], #[trigger] s[i])
}

/// The ranked order of `s`: the list that holds the same models and is
/// ranked (it exists, and `lemma_ranking_is_unique` shows it is the only one).
pub open spec fn ranking(s: Seq<(Seq<char>, u64)>) -> Seq<(Seq<char>, u64)> {
    choose|t: Seq<(Seq<char>, u64)>| is_ranked(t) && t.to_multiset() == s.to_multiset()
}

proof fn lemma_ranks_before_transitive(a: (Seq<char>, u64), b: (Seq<char>, u64), c: (Seq<char>, u64))
    requires
        ranks_before(a, b),
        ranks_before(b, c),
    ensures
        ranks_before(a, c),
{
    if a.1 == b.1 && b.1 == c.1 {
        lemma_lex_lt_transitive(a.0, b.0, c.0);
    }
}

/// The ranking is unique: two ranked lists that hold the same models are
/// the same list, so the order of the models is fully determined.
pub proof fn lemma_ranking_is_unique(a: Seq<(Seq<char>, u64)>, b: Seq<(Seq<char>, u64)>)
    requires
        is_ranked(a),
        is_ranked(b),
        a.to_multiset() == b.to_multiset(),
    ensures
        a == b,
    decreases a.len(),
{
    broadcast use vstd::seq_lib::group_to_multiset_ensures;

    vstd::seq_lib::to_multiset_len(a);
    vstd::seq_lib::to_multiset_len(b);
    if a.len() == 0 {
        assert(b.len() == 0);
        assert(a =~= b);
    } else {
        assert(b.len() == a.len());
        let x = a[0];
        let y = b[0];
        vstd::seq_lib::to_multiset_contains(a, y);
        vstd::seq_lib::to_multiset_contains(b, x);
        vstd::seq_lib::to_multiset_contains(b, y);
        vstd::seq_lib::to_multiset_contains(a, x);
        assert(b.contains(y));
        assert(a.contains(y));
        let i = choose|i: int| 0 <= i < a.len() && a[i] == y;
        assert(b.contains(x));
        let j = choose|j: int| 0 <= j < b.len() && b[j] == x;
        lemma_lex_lt_irreflexive(x.0);
        lemma_lex_lt_irreflexive(y.0);
        if i > 0 {
            assert(!ranks_before(a[i], a[0]));
        }
        if j > 0 {
            assert(!ranks_before(b[j], b[0]));
        }
        assert(!ranks_before(y, x));
        assert(!ranks_before(x, y));
        lemma_lex_lt_total(x.0, y.0);
        assert(x == y);
        vstd::seq_lib::to_multiset_remove(a, 0);
        vstd::seq_lib::to_multiset_remove(b, 0);
        assert(a.remove(0) =~= a.drop_first());
        assert(b.remove(0) =~= b.drop_first());
        let a1 = a.drop_first();
        let b1 = b.drop_first();
        assert forall|p: int, q: int| 0 <= p < q < a1.len() implies !ranks_before(
            #[trigger] a1[q],
            #[trigger] a1[p],
        ) by {
            assert(a1[q] == a[q + 1] && a1[p] == a[p + 1]);
        }
        assert forall|p: int, q: int| 0 <= p < q < b1.len() implies !ranks_before(
            #[trigger] b1[q],
            #[trigger] b1[p],
        ) by {
            assert(b1[q] == b[q + 1] && b1[p] == b[p + 1]);
        }
        lemma_ranking_is_unique(a1, b1);
        assert(a =~= seq![x] + a1);
        assert(b =~= seq![y] + b1);
    }
}

fn is_passthrough(name: &Vec<char>) -> (r: bool)
    ensures
        r == passthrough_prefix().is_prefix_of(name@),
{
    let prefix = ['p', 'a', 's', 's', 't', 'h', 'r', 'o', 'u', 'g', 'h', ':'];
    assert(prefix@ == passthrough_prefix());
    if name.len() < 12 {
        return false;
    }
    let mut i: usize = 0;
    while i < 12
        invariant
            i <= 12 <= name@.len(),
            prefix@ == passthrough_prefix(),
            forall|j: int| 0 <= j < i ==> name@[j] == prefix@[j],
        decreases 12 - i,
    {
        if name[i] != prefix[i] {
            return false;
        }
        i += 1;
    }
    assert(passthrough_prefix() =~= name@.take(12));
    true
}

fn ranks_before_exec(a: &ModelCount, b: &ModelCount) -> (r: bool)
    ensures
        r == ranks_before(model_view(*a), model_view(*b)),
{
    if a.requests != b.requests {
        a.requests > b.requests
    } else {
        let an = chars_of(a.name.as_str());
        let bn = chars_of(b.name.as_str());
        lex_less(&an, &bn)
    }
}

/// The models to list: those `kept_models` keeps, most requests first (ties
/// by name), at most `MAX_MODELS` of them. `entries` are the names and counts
/// in the order the proxy's map gives them; a count is `None` when it is not
/// an unsigned integer.
pub fn rank_models(entries: &Vec<(String, Option<u64>)>) -> (r: Vec<ModelCount>)
    ensures
        r@.map_values(|m: ModelCount| model_view(m)) == truncated(
            ranking(kept_models(entries@.map_values(|e: (String, Option<u64>)| (e.0@, e.1)))),
            MAX_MODELS as nat,
        ),
        r@.len() <= MAX_MODELS,
        forall|i: int, j: int|
            0 <= i < j < r@.len() ==> #[trigger] r@[i].requests >= #[trigger] r@[j].requests,
        forall|i: int, j: int|
            0 <= i < j < r@.len() && r@[i].requests == r@[j].requests ==> !lex_lt(
                #[trigger] r@[j].name@,
                #[trigger] r@[i].name@,
            ),
        forall|i: int|
            0 <= i < r@.len() ==> kept_models(
                entries@.map_values(|e: (String, Option<u64>)| (e.0@, e.1)),
            ).contains(#[trigger] model_view(r@[i])),
{
    let ghost es = entries@.map_values(|e: (String, Option<u64>)| (e.0@, e.1));
    let mut sorted: Vec<ModelCount> = Vec::new();
    let mut i: usize = 0;
    proof {
        broadcast use vstd::seq_lib::group_to_multiset_ensures;

        assert(sorted@.map_values(|m: ModelCount| model_view(m)) =~= Seq::empty());
        assert(es.take(0) =~= Seq::empty());
    }
    while i < entries.len()
        invariant
            i <= entries@.len(),
            es == entries@.map_values(|e: (String, Option<u64>)| (e.0@, e.1)),
            is_ranked(sorted@.map_values(|m: ModelCount| model_view(m))),
            sorted@.map_values(|m: ModelCount| model_view(m)).to_multiset() == kept_models(
                es.take(i as int),
            ).to_multiset(),
        decreases entries@.len() - i,
    {
        let ghost sv = sorted@.map_values(|m: ModelCount| model_view(m));
        proof {
            assert(es.take(i + 1).drop_last() =~= es.take(i as int));
            assert(es.take(i + 1).last() == (entries@[i as int].0@, entries@[i as int].1));
        }
        let name = &entries[i].0;
        let count = entries[i].1;
        let chars = chars_of(name.as_str());
        if !is_passthrough(&chars) {
            if let Some(n) = count {
                if let Some(clean) = sanitize_text(name.as_str()) {
                    let m = ModelCount { name: clean, requests: n };
                    let mut p: usize = 0;
                    while p < sorted.len() && !ranks_before_exec(&m, &sorted[p])
                        invariant
                            p <= sorted@.len(),
                            sv == sorted@.map_values(|m: ModelCount| model_view(m)),
                            forall|j: int| 0 <= j < p ==> !ranks_before(model_view(m), #[trigger] sv[j]),
                        decreases sorted@.len() - p,
                    {
                        p += 1;
                    }
                    sorted.insert(p, m);
                    proof {
                        let x = model_view(m);
                        let t = sorted@.map_values(|m: ModelCount| model_view(m));
                        assert(t =~= sv.insert(p as int, x));
                        vstd::seq_lib::to_multiset_insert(sv, p as int, x);
                        vstd::seq_lib::to_multiset_build(kept_models(es.take(i as int)), x);
                        assert(p < sv.len() ==> ranks_before(x, sv[p as int]));
                        assert forall|a: int, b: int| 0 <= a < b < t.len() implies !ranks_before(
                            #[trigger] t[b],
                            #[trigger] t[a],
                        ) by {
                            if b < p {
                                assert(t[a] == sv[a] && t[b] == sv[b]);
                            } else if b == p {
                                assert(t[a] == sv[a]);
                            } else if a < p {
                                assert(t[a] == sv[a] && t[b] == sv[b - 1]);
                            } else if a == p {
                                assert(t[b] == sv[b - 1]);
                                if ranks_before(sv[b - 1], x) {
                                    lemma_ranks_before_transitive(sv[b - 1], x, sv[p as int]);
                                    if b - 1 == p {
                                        lemma_lex_lt_irreflexive(sv[p as int].0);
                                    } else {
                                        assert(!ranks_before(sv[b - 1], sv[p as int]));
                                    }
                                }
                            } else {
                                assert(t[a] == sv[a - 1] && t[b] == sv[b - 1]);
                            }
                        }
                    }
                }
            }
        }
        i += 1;
    }
    proof {
        assert(es.take(entries@.len() as int) =~= es);
    }
    let ghost full = sorted@.map_values(|m: ModelCount| model_view(m));
    proof {
        let k = kept_models(es);
        assert(is_ranked(full) && full.to_multiset() == k.to_multiset());
        let t = ranking(k);
        assert(is_ranked(t) && t.to_multiset() == k.to_multiset());
        lemma_ranking_is_unique(full, t);
    }
    sorted.truncate(MAX_MODELS);
    proof {
        let out = sorted@.map_values(|m: ModelCount| model_view(m));
        assert(out =~= truncated(full, MAX_MODELS as nat));
        let k = kept_models(es);
        assert forall|i: int, j: int| 0 <= i < j < sorted@.len() implies #[trigger] sorted@[i].requests
            >= #[trigger] sorted@[j].requests && (sorted@[i].requests == sorted@[j].requests ==> !lex_lt(
            sorted@[j].name@,
            sorted@[i].name@,
        )) by {
            assert(out[i] == model_view(sorted@[i]) && out[j] == model_view(sorted@[j]));
            assert(out[i] == full[i] && out[j] == full[j]);
            assert(!ranks_before(full[j], full[i]));
        }
        assert forall|i: int| 0 <= i < sorted@.len() implies k.contains(
            #[trigger] model_view(sorted@[i]),
        ) by {
            assert(out[i] == model_view(sorted@[i]));
            assert(out[i] == full[i]);
            vstd::seq_lib::to_multiset_contains(full, full[i]);
            vstd::seq_lib::to_multiset_contains(k, full[i]);
            assert(full.contains(full[i]));
        }
    }
    sorted
}

/// A JSON value as the proxy sends it. A number carries what the counters
/// read: `unsigned`, the number when it is an unsigned integer, and `count`,
/// the number truncated to an unsigned integer when it is finite and not
/// negative (fractional amounts are read outside the library).
#[derive(Debug)]
pub enum Json {
    Null,
    Bool(bool),
    Number { unsigned: Option<u64>, count: Option<u64> },
    Text(String),
    List(Vec<Json>),
    Object(Vec<(String, Json)>),
}

/// The value of the first member named `key`.
pub open spec fn lookup(entries: Seq<(String, Json)>, key: Seq<char>) -> Option<Json>
    decreases entries.len(),
{
    if entries.len() == 0 {
        None
    } else if entries[0].0@ == key {
        Some(entries[0].1)
    } else {
        lookup(entries.drop_first(), key)
    }
}

/// The member `key` of `v` when `v` is an object that has it.
pub open spec fn member(v: Option<Json>, key: Seq<char>) -> Option<Json> {
    match v {
        Some(Json::Object(entries)) => lookup(entries@, key),
        _ => None,
    }
}

/// `v`, with `null` read as missing.
pub open spec fn non_null(v: Option<Json>) -> Option<Json> {
    match v {
        Some(Json::Null) => None,
        _ => v,
    }
}

/// The non-null value at `a` in `v`.
pub open spec fn at1(v: Option<Json>, a: Seq<char>) -> Option<Json> {
    non_null(member(v, a))
}

/// The non-null value at `a`, then `b`, in `v`.
pub open spec fn at2(v: Option<Json>, a: Seq<char>, b: Seq<char>) -> Option<Json> {
    non_null(member(member(v, a), b))
}

/// A counter: the unsigned integer, else the truncated count, else 0.
pub open spec fn count_of(v: Option<Json>) -> u64 {
    match v {
        Some(Json::Number { unsigned, count }) => match unsigned {
            Some(u) => u,
            None => match count {
                Some(c) => c,
                None => 0,
            },
        },
        _ => 0,
    }
}

/// The characters of a string value.
pub open spec fn str_of(v: Option<Json>) -> Option<Seq<char>> {
    match v {
        Some(Json::Text(s)) => Some(s@),
        _ => None,
    }
}

/// A string value, cleaned for display.
pub open spec fn text_of(v: Option<Json>) -> Option<Seq<char>> {
    match str_of(v) {
        Some(s) => sanitized_text(s),
        None => None,
    }
}

/// What chrono's `DateTime::parse_from_rfc3339` gives for `text`: the
/// instant as whole seconds since the Unix epoch and the nanoseconds past
/// them, or `None` when the text is not an RFC 3339 date and time.
pub uninterp spec fn rfc3339_instant(text: Seq<char>) -> Option<(i64, u32)>;

/// Calls chrono's `DateTime::parse_from_rfc3339` and reads the instant it
/// denotes with `timestamp` and `timestamp_subsec_nanos`. The contract claims
/// only that the result depends on `text` alone.
#[verifier::external_body]
fn parse_rfc3339(text: &str) -> (r: Option<(i64, u32)>)
    ensures
        r == rfc3339_instant(text@),
{
    match chrono::DateTime::parse_from_rfc3339(text) {
        Ok(dt) => Some((dt.timestamp(), dt.timestamp_subsec_nanos())),
        Err(_) => None,
    }
}

/// A timestamp: a string value read as an RFC 3339 date and time.
pub open spec fn instant_of(v: Option<Json>) -> Option<(i64, u32)> {
    match str_of(v) {
        Some(s) => rfc3339_instant(s),
        None => None,
    }
}

/// The request count of a model: the value when it is an unsigned integer.
pub open spec fn unsigned_of(v: Json) -> Option<u64> {
    match v {
        Json::Number { unsigned, .. } => unsigned,
        _ => None,
    }
}

/// The names and counts of an object, in its order; empty for anything else.
pub open spec fn model_entries(v: Option<Json>) -> Seq<(Seq<char>, Option<u64>)> {
    match v {
        Some(Json::Object(entries)) => entries@.map_values(
            |e: (String, Json)| (e.0@, unsigned_of(e.1)),
        ),
        _ => Seq::empty(),
    }
}

/// Where the session figures were found.
#[derive(Debug, Clone, Copy, PartialEq, Eq, Structural)]
pub enum SessionSource {
    /// `display_session` at the top level.
    Display,
    /// `display_session` under `persistent_savings`.
    Persistent,
    /// Neither is present.
    Missing,
}

/// The session block: `display_session`, else the one under
/// `persistent_savings`, else nothing.
pub open spec fn session_block(stats: Json) -> (SessionSource, Option<Json>) {
    let top = at1(Some(stats), "display_session"@);
    let kept = at2(Some(stats), "persistent_savings"@, "display_session"@);
    if top is Some {
        (SessionSource::Display, top)
    } else if kept is Some {
        (SessionSource::Persistent, kept)
    } else {
        (SessionSource::Missing, None)
    }
}

/// Everything but the fractional amounts that a snapshot takes from the
/// proxy's statistics and health report.
#[derive(Debug)]
pub struct Readings {
    pub session_source: SessionSource,
    pub session_requests: u64,
    pub session_tokens_saved: u64,
    pub lifetime_requests: u64,
    pub lifetime_tokens_saved: u64,
    pub session_started: Option<(i64, u32)>,
    pub session_last_activity: Option<(i64, u32)>,
    pub all_layers_saved: u64,
    pub compression_saved: u64,
    pub tool_search_saved: u64,
    pub requests_total: u64,
    pub requests_cached: u64,
    pub requests_failed: u64,
    pub requests_rate_limited: u64,
    pub mode: Option<String>,
    pub primary_model: Option<String>,
    pub tip: Option<String>,
    pub version: Option<String>,
    pub healthy: bool,
    pub models: Vec<ModelCount>,
}

/// `Readings` with its texts as character sequences.
pub struct ReadingsView {
    pub session_source: SessionSource,
    pub session_requests: u64,
    pub session_tokens_saved: u64,
    pub lifetime_requests: u64,
    pub lifetime_tokens_saved: u64,
    pub session_started: Option<(i64, u32)>,
    pub session_last_activity: Option<(i64, u32)>,
    pub all_layers_saved: u64,
    pub compression_saved: u64,
    pub tool_search_saved: u64,
    pub requests_total: u64,
    pub requests_cached: u64,
    pub requests_failed: u64,
    pub requests_rate_limited: u64,
    pub mode: Option<Seq<char>>,
    pub primary_model: Option<Seq<char>>,
    pub tip: Option<Seq<char>>,
    pub version: Option<Seq<char>>,
    pub healthy: bool,
    pub models: Seq<(Seq<char>, u64)>,
}

/// The characters of an optional string.
pub open spec fn text_view(t: Option<String>) -> Option<Seq<char>> {
    match t {
        Some(s) => Some(s@),
        None => None,
    }
}

impl View for Readings {
    type V = ReadingsView;

    open spec fn view(&self) -> ReadingsView {
        ReadingsView {
            session_source: self.session_source,
            session_requests: self.session_requests,
            session_tokens_saved: self.session_tokens_saved,
            lifetime_requests: self.lifetime_requests,
            lifetime_tokens_saved: self.lifetime_tokens_saved,
            session_started: self.session_started,
            session_last_activity: self.session_last_activity,
            all_layers_saved: self.all_layers_saved,
            compression_saved: self.compression_saved,
            tool_search_saved: self.tool_search_saved,
            requests_total: self.requests_total,
            requests_cached: self.requests_cached,
            requests_failed: self.requests_failed,
            requests_rate_limited: self.requests_rate_limited,
            mode: text_view(self.mode),
            primary_model: text_view(self.primary_model),
            tip: text_view(self.tip),
            version: text_view(self.version),
            healthy: self.healthy,
            models: self.models@.map_values(|m: ModelCount| model_view(m)),
        }
    }
}

/// What a snapshot reads from the statistics `stats` and the optional health
/// report: every field at its fixed place, a missing or malformed one read as
/// 0 or `None`; texts cleaned; the models ranked and capped.
pub open spec fn readings_of(stats: Json, health: Option<Json>) -> ReadingsView {
    let s = Some(stats);
    let (source, session) = session_block(stats);
    let lifetime = at2(s, "persistent_savings"@, "lifetime"@);
    let all_layers = count_of(at2(s, "tokens"@, "all_layers_saved"@));
    ReadingsView {
        session_source: source,
        session_requests: count_of(at1(session, "requests"@)),
        session_tokens_saved: count_of(at1(session, "tokens_saved"@)),
        lifetime_requests: count_of(at1(lifetime, "requests"@)),
        lifetime_tokens_saved: count_of(at1(lifetime, "tokens_saved"@)),
        session_started: instant_of(at1(session, "started_at"@)),
        session_last_activity: instant_of(at1(session, "last_activity_at"@)),
        all_layers_saved: if all_layers == 0 {
            count_of(at2(s, "tokens"@, "saved"@))
        } else {
            all_layers
        },
        compression_saved: count_of(at2(s, "tokens"@, "proxy_compression_saved"@)),
        tool_search_saved: count_of(
            at2(member(member(s, "savings"@), "by_layer"@), "tool_search"@, "tokens"@),
        ),
        requests_total: count_of(at2(s, "requests"@, "total"@)),
        requests_cached: count_of(at2(s, "requests"@, "cached"@)),
        requests_failed: count_of(at2(s, "requests"@, "failed"@)),
        requests_rate_limited: count_of(at2(s, "requests"@, "rate_limited"@)),
        mode: text_of(at2(s, "summary"@, "mode"@)),
        primary_model: text_of(at2(s, "summary"@, "primary_model"@)),
        tip: text_of(at2(s, "summary"@, "tip"@)),
        version: text_of(at1(health, "version"@)),
        healthy: healthy_status(str_of(at1(health, "status"@))),
        models: truncated(
            ranking(kept_models(model_entries(at2(s, "requests"@, "by_model"@)))),
            MAX_MODELS as nat,
        ),
    }
}

/// An optional reference read as an optional value.
pub open spec fn deref(v: Option<&Json>) -> Option<Json> {
    match v {
        Some(x) => Some(*x),
        None => None,
    }
}

fn field<'a>(v: Option<&'a Json>, key: &str) -> (r: Option<&'a Json>)
    ensures
        deref(r) == member(deref(v), key@),
{
    match v {
        Some(Json::Object(entries)) => {
            let mut i: usize = 0;
            assert(entries@.skip(0) =~= entries@);
            while i < entries.len()
                invariant
                    i <= entries@.len(),
                    deref(v) == Some(Json::Object(*entries)),
                    lookup(entries@, key@) == lookup(entries@.skip(i as int), key@),
                decreases entries@.len() - i,
            {
                assert(entries@.skip(i as int).drop_first() =~= entries@.skip(i + 1));
                assert(entries@.skip(i as int)[0] == entries@[i as int]);
                if same_text(entries[i].0.as_str(), key) {
                    return Some(&entries[i].1);
                }
                i += 1;
            }
            assert(entries@.skip(i as int).len() == 0);
            None
        },
        _ => None,
    }
}

fn non_null_ref(v: Option<&Json>) -> (r: Option<&Json>)
    ensures
        deref(r) == non_null(deref(v)),
{
    match v {
        Some(Json::Null) => None,
        _ => v,
    }
}

fn at1_ref<'a>(v: Option<&'a Json>, a: &str) -> (r: Option<&'a Json>)
    ensures
        deref(r) == at1(deref(v), a@),
{
    non_null_ref(field(v, a))
}

fn at2_ref<'a>(v: Option<&'a Json>, a: &str, b: &str) -> (r: Option<&'a Json>)
    ensures
        deref(r) == at2(deref(v), a@, b@),
{
    non_null_ref(field(field(v, a), b))
}

fn count_at(v: Option<&Json>) -> (r: u64)
    ensures
        r == count_of(deref(v)),
{
    match v {
        Some(Json::Number { unsigned, count }) => match unsigned {
            Some(u) => *u,
            None => match count {
                Some(c) => *c,
                None => 0,
            },
        },
        _ => 0,
    }
}

fn str_at(v: Option<&Json>) -> (r: Option<&str>)
    ensures
        match r {
            Some(s) => str_of(deref(v)) == Some(s@),
            None => str_of(deref(v)) is None,
        },
{
    match v {
        Some(Json::Text(s)) => Some(s.as_str()),
        _ => None,
    }
}

fn text_at(v: Option<&Json>) -> (r: Option<String>)
    ensures
        text_view(r) == text_of(deref(v)),
{
    match str_at(v) {
        Some(s) => sanitize_text(s),
        None => None,
    }
}

fn instant_at(v: Option<&Json>) -> (r: Option<(i64, u32)>)
    ensures
        r == instant_of(deref(v)),
{
    match str_at(v) {
        Some(s) => parse_rfc3339(s),
        None => None,
    }
}

fn model_entries_at(v: Option<&Json>) -> (r: Vec<(String, Option<u64>)>)
    ensures
        r@.map_values(|e: (String, Option<u64>)| (e.0@, e.1)) == model_entries(deref(v)),
{
    let mut out: Vec<(String, Option<u64>)> = Vec::new();
    match v {
        Some(Json::Object(entries)) => {
            let ghost want = entries@.map_values(|e: (String, Json)| (e.0@, unsigned_of(e.1)));
            let mut i: usize = 0;
            while i < entries.len()
                invariant
                    i <= entries@.len(),
                    want == entries@.map_values(|e: (String, Json)| (e.0@, unsigned_of(e.1))),
                    out@.map_values(|e: (String, Option<u64>)| (e.0@, e.1)) == want.take(i as int),
                decreases entries@.len() - i,
            {
                let name = entries[i].0.as_str().to_owned();
                let count = match &entries[i].1 {
                    Json::Number { unsigned, .. } => *unsigned,
                    _ => None,
                };
                let ghost before = out@;
                let ghost item = (name@, count);
                out.push((name, count));
                proof {
                    assert(item == want[i as int]);
                    assert(out@.map_values(|e: (String, Option<u64>)| (e.0@, e.1)) =~= before.map_values(
                        |e: (String, Option<u64>)| (e.0@, e.1),
                    ).push(item));
                    assert(out@.map_values(|e: (String, Option<u64>)| (e.0@, e.1)) =~= want.take(
                        i + 1,
                    ));
                }
                i += 1;
            }
            proof {
                assert(want.take(entries@.len() as int) =~= want);
            }
        },
        _ => {
            proof {
                assert(out@.map_values(|e: (String, Option<u64>)| (e.0@, e.1)) =~= Seq::empty());
            }
        },
    }
    out
}

/// Reads a snapshot's counters, texts, timestamps and models from the
/// proxy's statistics and optional health report. It never fails: what is
/// missing or malformed reads as 0 or `None`.
pub fn read_snapshot(stats: &Json, health: Option<&Json>) -> (r: Readings)
    ensures
        r@ == readings_of(*stats, deref(health)),
{
    let s = Some(stats);
    let top = at1_ref(s, "display_session");
    let kept = at2_ref(s, "persistent_savings", "display_session");
    let (source, session) = if top.is_some() {
        (SessionSource::Display, top)
    } else if kept.is_some() {
        (SessionSource::Persistent, kept)
    } else {
        (SessionSource::Missing, None)
    };
    let lifetime = at2_ref(s, "persistent_savings", "lifetime");
    let all_layers_saved = all_layers_tokens(
        count_at(at2_ref(s, "tokens", "all_layers_saved")),
        count_at(at2_ref(s, "tokens", "saved")),
    );
    let by_layer = field(field(s, "savings"), "by_layer");
    let entries = model_entries_at(at2_ref(s, "requests", "by_model"));
    let models = rank_models(&entries);
    Readings {
        session_source: source,
        session_requests: count_at(at1_ref(session, "requests")),
        session_tokens_saved: count_at(at1_ref(session, "tokens_saved")),
        lifetime_requests: count_at(at1_ref(lifetime, "requests")),
        lifetime_tokens_saved: count_at(at1_ref(lifetime, "tokens_saved")),
        session_started: instant_at(at1_ref(session, "started_at")),
        session_last_activity: instant_at(at1_ref(session, "last_activity_at")),
        all_layers_saved,
        compression_saved: count_at(at2_ref(s, "tokens", "proxy_compression_saved")),
        tool_search_saved: count_at(at2_ref(by_layer, "tool_search", "tokens")),
        requests_total: count_at(at2_ref(s, "requests", "total")),
        requests_cached: count_at(at2_ref(s, "requests", "cached")),
        requests_failed: count_at(at2_ref(s, "requests", "failed")),
        requests_rate_limited: count_at(at2_ref(s, "requests", "rate_limited")),
        mode: text_at(at2_ref(s, "summary", "mode")),
        primary_model: text_at(at2_ref(s, "summary", "primary_model")),
        tip: text_at(at2_ref(s, "summary", "tip")),
        version: text_at(at1_ref(health, "version")),
        healthy: is_healthy(str_at(at1_ref(health, "status"))),
        models,
    }
}

/// Two statistics objects that differ only in their `subscription_window`
/// member (where the proxy keeps credential data).
pub open spec fn differ_only_in_subscription(a: Json, b: Json) -> bool {
    match (a, b) {
        (Json::Object(x), Json::Object(y)) => forall|k: Seq<char>|
            k != "subscription_window"@ ==> #[trigger] lookup(x@, k) == lookup(y@, k),
        _ => false,
    }
}

/// Nothing under `subscription_window` reaches a snapshot: statistics that
/// differ only there give the same readings.
pub proof fn lemma_credentials_ignored(a: Json, b: Json, health: Option<Json>)
    requires
        differ_only_in_subscription(a, b),
    ensures
        readings_of(a, health) == readings_of(b, health),
{
    reveal_strlit("subscription_window");
    reveal_strlit("display_session");
    reveal_strlit("persistent_savings");
    reveal_strlit("tokens");
    reveal_strlit("savings");
    reveal_strlit("requests");
    reveal_strlit("summary");
    match a {
        Json::Object(x) => match b {
            Json::Object(y) => {
            assert(member(Some(a), "display_session"@) == member(Some(b), "display_session"@)) by {
                assert("display_session"@.len() != "subscription_window"@.len());
                assert(lookup(x@, "display_session"@) == lookup(y@, "display_session"@));
            }
            assert(member(Some(a), "persistent_savings"@) == member(Some(b), "persistent_savings"@)) by {
                assert("persistent_savings"@.len() != "subscription_window"@.len());
                assert(lookup(x@, "persistent_savings"@) == lookup(y@, "persistent_savings"@));
            }
            assert(member(Some(a), "tokens"@) == member(Some(b), "tokens"@)) by {
                assert("tokens"@.len() != "subscription_window"@.len());
                assert(lookup(x@, "tokens"@) == lookup(y@, "tokens"@));
            }
            assert(member(Some(a), "savings"@) == member(Some(b), "savings"@)) by {
                assert("savings"@.len() != "subscription_window"@.len());
                assert(lookup(x@, "savings"@) == lookup(y@, "savings"@));
            }
            assert(member(Some(a), "requests"@) == member(Some(b), "requests"@)) by {
                assert("requests"@.len() != "subscription_window"@.len());
                assert(lookup(x@, "requests"@) == lookup(y@, "requests"@));
            }
            assert(member(Some(a), "summary"@) == member(Some(b), "summary"@)) by {
                assert("summary"@.len() != "subscription_window"@.len());
                assert(lookup(x@, "summary"@) == lookup(y@, "summary"@));
            }
            },
            _ => {},
        },
        _ => {},
    }
}

/// How a value is read as a counter: an unsigned integer as itself, another
/// finite non-negative number by its truncation, anything else as 0.
pub proof fn lemma_counter_reading(v: Option<Json>)
    ensures
        v matches Some(Json::Number { unsigned: Some(k), .. }) ==> count_of(v) == k,
        v matches Some(Json::Number { unsigned: None, count: Some(c) }) ==> count_of(v) == c,
        v matches Some(Json::Number { unsigned: None, count: None }) ==> count_of(v) == 0,
        !(v matches Some(Json::Number { .. })) ==> count_of(v) == 0,
{
}

/// Each field of a snapshot comes from its own place in the statistics or
/// the health report: an unsigned integer found there is the counter's
/// value, a string found there is the text (cleaned) or the timestamp; the
/// proxy is healthy unless its status is a string other than `healthy`; the
/// session figures come from `display_session`, else from the one under
/// `persistent_savings`.
pub proof fn lemma_readings_follow_keys(stats: Json, health: Option<Json>)
    ensures
        ({
            let r = readings_of(stats, health);
            let s = Some(stats);
            let req = member(s, "requests"@);
            let tok = member(s, "tokens"@);
            let sum = member(s, "summary"@);
            let life = member(member(s, "persistent_savings"@), "lifetime"@);
            let top = member(s, "display_session"@);
            let kept = member(member(s, "persistent_savings"@), "display_session"@);
            &&& member(req, "total"@) matches Some(Json::Number { unsigned: Some(k), .. })
                ==> r.requests_total == k
            &&& member(req, "cached"@) matches Some(Json::Number { unsigned: Some(k), .. })
                ==> r.requests_cached == k
            &&& member(req, "failed"@) matches Some(Json::Number { unsigned: Some(k), .. })
                ==> r.requests_failed == k
            &&& member(req, "rate_limited"@) matches Some(Json::Number { unsigned: Some(k), .. })
                ==> r.requests_rate_limited == k
            &&& member(tok, "proxy_compression_saved"@) matches Some(
                Json::Number { unsigned: Some(k), .. },
            ) ==> r.compression_saved == k
            &&& member(tok, "all_layers_saved"@) matches Some(
                Json::Number { unsigned: Some(k), .. },
            ) ==> (k != 0 ==> r.all_layers_saved == k)
            &&& member(tok, "all_layers_saved"@) is None ==> (member(tok, "saved"@) matches Some(
                Json::Number { unsigned: Some(k), .. },
            ) ==> r.all_layers_saved == k)
            &&& member(
                member(member(member(s, "savings"@), "by_layer"@), "tool_search"@),
                "tokens"@,
            ) matches Some(Json::Number { unsigned: Some(k), .. }) ==> r.tool_search_saved == k
            &&& member(sum, "mode"@) matches Some(Json::Text(t)) ==> r.mode == sanitized_text(t@)
            &&& member(sum, "primary_model"@) matches Some(Json::Text(t)) ==> r.primary_model
                == sanitized_text(t@)
            &&& member(sum, "tip"@) matches Some(Json::Text(t)) ==> r.tip == sanitized_text(t@)
            &&& member(health, "version"@) matches Some(Json::Text(t)) ==> r.version
                == sanitized_text(t@)
            &&& member(health, "status"@) matches Some(Json::Text(t)) ==> (r.healthy <==> t@
                == "healthy"@)
            &&& member(health, "status"@) is None ==> r.healthy
            &&& member(life, "requests"@) matches Some(Json::Number { unsigned: Some(k), .. })
                ==> r.lifetime_requests == k
            &&& member(life, "tokens_saved"@) matches Some(Json::Number { unsigned: Some(k), .. })
                ==> r.lifetime_tokens_saved == k
            &&& top matches Some(Json::Object(_)) ==> {
                &&& r.session_source == SessionSource::Display
                &&& member(top, "requests"@) matches Some(Json::Number { unsigned: Some(k), .. })
                    ==> r.session_requests == k
                &&& member(top, "tokens_saved"@) matches Some(
                    Json::Number { unsigned: Some(k), .. },
                ) ==> r.session_tokens_saved == k
                &&& member(top, "started_at"@) matches Some(Json::Text(t)) ==> r.session_started
                    == rfc3339_instant(t@)
                &&& member(top, "last_activity_at"@) matches Some(Json::Text(t))
                    ==> r.session_last_activity == rfc3339_instant(t@)
            }
            &&& top is None ==> (kept matches Some(Json::Object(_)) ==> {
                &&& r.session_source == SessionSource::Persistent
                &&& member(kept, "requests"@) matches Some(Json::Number { unsigned: Some(k), .. })
                    ==> r.session_requests == k
                &&& member(kept, "tokens_saved"@) matches Some(
                    Json::Number { unsigned: Some(k), .. },
                ) ==> r.session_tokens_saved == k
            })
            &&& top is None && kept is None ==> {
                &&& r.session_source == SessionSource::Missing
                &&& r.session_requests == 0
                &&& r.session_tokens_saved == 0
                &&& r.session_started is None
            }
        }),
{
}

} // verus!

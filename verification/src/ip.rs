//! IP address literals, as `str::parse::<IpAddr>` reads them, and the
//! loopback test built on them.

use vstd::prelude::*;
use crate::strings::{all_digits, digits_value};

verus! {

/// `s` cut at every `sep`: n separators give n + 1 parts, possibly empty.
pub open spec fn split_on(s: Seq<char>, sep: char) -> Seq<Seq<char>>
    decreases s.len(),
{
    if s.len() == 0 {
        seq![Seq::<char>::empty()]
    } else {
        let rest = split_on(s.drop_last(), sep);
        if s.last() == sep {
            rest.push(Seq::<char>::empty())
        } else {
            rest.update(rest.len() - 1, rest.last().push(s.last()))
        }
    }
}

/// The parts of a colon-separated list; an empty string has none.
pub open spec fn colon_parts(s: Seq<char>) -> Seq<Seq<char>> {
    if s.len() == 0 {
        Seq::empty()
    } else {
        split_on(s, ':')
    }
}

/// A decimal octet of an IPv4 address: one to three digits, no leading zero,
/// at most 255.
pub open spec fn octet(s: Seq<char>) -> Option<u8> {
    if 1 <= s.len() <= 3 && all_digits(s) && (s.len() == 1 || s[0] != '0') && digits_value(s)
        <= 255 {
        Some(digits_value(s) as u8)
    } else {
        None
    }
}

/// The octets of a list of parts, when every part is one.
pub open spec fn octet_list(parts: Seq<Seq<char>>) -> Option<Seq<u8>>
    decreases parts.len(),
{
    if parts.len() == 0 {
        Some(Seq::empty())
    } else {
        match (octet_list(parts.drop_last()), octet(parts.last())) {
            (Some(a), Some(o)) => Some(a.push(o)),
            _ => None,
        }
    }
}

/// An IPv4 literal: four octets separated by dots.
pub open spec fn ipv4_literal(s: Seq<char>) -> Option<Seq<u8>> {
    let parts = split_on(s, '.');
    if parts.len() == 4 {
        octet_list(parts)
    } else {
        None
    }
}

pub open spec fn is_hex_digit(c: char) -> bool {
    ('0' <= c <= '9') || ('a' <= c <= 'f') || ('A' <= c <= 'F')
}

pub open spec fn hex_digit_value(c: char) -> nat {
    if '0' <= c <= '9' {
        ((c as nat) - 48) as nat
    } else if 'a' <= c <= 'f' {
        ((c as nat) - 87) as nat
    } else {
        ((c as nat) - 55) as nat
    }
}

/// The value of a string of hexadecimal digits.
pub open spec fn hex_value(s: Seq<char>) -> nat
    decreases s.len(),
{
    if s.len() == 0 {
        0
    } else {
        hex_value(s.drop_last()) * 16 + hex_digit_value(s.last())
    }
}

/// A group of an IPv6 address: one to four hexadecimal digits.
pub open spec fn hex_group(s: Seq<char>) -> Option<u16> {
    if 1 <= s.len() <= 4 && forall|i: int| 0 <= i < s.len() ==> is_hex_digit(#[trigger] s[i]) {
        Some(hex_value(s) as u16)
    } else {
        None
    }
}

/// The values of a list of groups, when every part is one.
pub open spec fn hex_groups(parts: Seq<Seq<char>>) -> Option<Seq<u16>>
    decreases parts.len(),
{
    if parts.len() == 0 {
        Some(Seq::empty())
    } else {
        match (hex_groups(parts.drop_last()), hex_group(parts.last())) {
            (Some(a), Some(g)) => Some(a.push(g)),
            _ => None,
        }
    }
}

/// A list of groups whose last part may be an embedded IPv4 address, which
/// stands for two groups.
pub open spec fn groups_with_v4_tail(parts: Seq<Seq<char>>) -> Option<Seq<u16>> {
    if parts.len() > 0 && ipv4_literal(parts.last()) is Some {
        let o = ipv4_literal(parts.last()).unwrap();
        match hex_groups(parts.drop_last()) {
            Some(a) => Some(a + seq![(o[0] * 256 + o[1]) as u16, (o[2] * 256 + o[3]) as u16]),
            None => None,
        }
    } else {
        hex_groups(parts)
    }
}

/// The first position, at or after `i`, where `::` starts.
pub open spec fn double_colon_from(s: Seq<char>, i: int) -> Option<int>
    decreases s.len() - i,
{
    if i < 0 || i + 1 >= s.len() {
        None
    } else if s[i] == ':' && s[i + 1] == ':' {
        Some(i)
    } else {
        double_colon_from(s, i + 1)
    }
}

/// An IPv6 literal and its eight groups: either eight groups (the last two
/// possibly written as an IPv4 address), or groups before and after a single
/// `::` that stands for at least one zero group.
pub open spec fn ipv6_literal(s: Seq<char>) -> Option<Seq<u16>> {
    match double_colon_from(s, 0) {
        None => match groups_with_v4_tail(split_on(s, ':')) {
            Some(g) => if g.len() == 8 {
                Some(g)
            } else {
                None
            },
            None => None,
        },
        Some(i) => match (
            hex_groups(colon_parts(s.take(i))),
            groups_with_v4_tail(colon_parts(s.skip(i + 2))),
        ) {
            (Some(h), Some(t)) => if h.len() + t.len() <= 7 {
                Some(h + Seq::new((8 - h.len() - t.len()) as nat, |k: int| 0u16) + t)
            } else {
                None
            },
            _ => None,
        },
    }
}

/// The loopback addresses: 127.0.0.0/8 and ::1.
pub open spec fn is_loopback_ip(s: Seq<char>) -> bool {
    match ipv4_literal(s) {
        Some(o) => o[0] == 127,
        None => match ipv6_literal(s) {
            Some(g) => g == seq![0u16, 0, 0, 0, 0, 0, 0, 1],
            None => false,
        },
    }
}

/// The bounds of the parts of `s` cut at every `sep`.
fn split_ranges(s: &Vec<char>, sep: char) -> (r: Vec<(usize, usize)>)
    ensures
        r@.len() == split_on(s@, sep).len(),
        forall|k: int|
            0 <= k < r@.len() ==> {
                &&& (#[trigger] r@[k]).0 <= r@[k].1 <= s@.len()
                &&& s@.subrange(r@[k].0 as int, r@[k].1 as int) == split_on(s@, sep)[k]
            },
{
    let n = s.len();
    let mut r: Vec<(usize, usize)> = Vec::new();
    let mut start: usize = 0;
    let mut i: usize = 0;
    proof {
        assert(s@.take(0) =~= Seq::<char>::empty());
        assert(s@.subrange(0, 0) =~= Seq::<char>::empty());
    }
    while i < n
        invariant
            i <= n == s@.len(),
            start <= i,
            split_on(s@.take(i as int), sep).len() == r@.len() + 1,
            forall|k: int|
                0 <= k < r@.len() ==> {
                    &&& (#[trigger] r@[k]).0 <= r@[k].1 <= i
                    &&& s@.subrange(r@[k].0 as int, r@[k].1 as int) == split_on(
                        s@.take(i as int),
                        sep,
                    )[k]
                },
            s@.subrange(start as int, i as int) == split_on(s@.take(i as int), sep).last(),
        decreases n - i,
    {
        let ghost sp = split_on(s@.take(i as int), sep);
        let ghost old_r = r@;
        proof {
            assert(s@.take(i + 1).drop_last() =~= s@.take(i as int));
            assert(s@.take(i + 1).last() == s@[i as int]);
        }
        if s[i] == sep {
            r.push((start, i));
            start = i + 1;
            proof {
                assert(s@.subrange(start as int, i + 1) =~= Seq::<char>::empty());
                let sp2 = split_on(s@.take(i + 1), sep);
                assert(sp2 == sp.push(Seq::<char>::empty()));
                assert forall|k: int| 0 <= k < r@.len() implies {
                    &&& (#[trigger] r@[k]).0 <= r@[k].1 <= i + 1
                    &&& s@.subrange(r@[k].0 as int, r@[k].1 as int) == sp2[k]
                } by {
                    if k < old_r.len() {
                        assert(r@[k] == old_r[k]);
                    }
                }
            }
        } else {
            proof {
                assert(s@.subrange(start as int, i + 1) =~= s@.subrange(start as int, i as int).push(
                    s@[i as int],
                ));
                let sp2 = split_on(s@.take(i + 1), sep);
                assert(sp2 == sp.update(sp.len() - 1, sp.last().push(s@[i as int])));
                assert forall|k: int| 0 <= k < r@.len() implies {
                    &&& (#[trigger] r@[k]).0 <= r@[k].1 <= i + 1
                    &&& s@.subrange(r@[k].0 as int, r@[k].1 as int) == sp2[k]
                } by {
                    assert(r@[k] == old_r[k]);
                }
            }
        }
        i += 1;
    }
    let ghost old_r = r@;
    r.push((start, n));
    proof {
        assert(s@.take(n as int) =~= s@);
        assert forall|k: int| 0 <= k < r@.len() implies {
            &&& (#[trigger] r@[k]).0 <= r@[k].1 <= s@.len()
            &&& s@.subrange(r@[k].0 as int, r@[k].1 as int) == split_on(s@, sep)[k]
        } by {
            if k < old_r.len() {
                assert(r@[k] == old_r[k]);
            }
        }
    }
    r
}

/// The characters `s[a..b]`.
fn slice_chars(s: &Vec<char>, a: usize, b: usize) -> (r: Vec<char>)
    requires
        a <= b <= s@.len(),
    ensures
        r@ == s@.subrange(a as int, b as int),
{
    let mut r: Vec<char> = Vec::new();
    let mut i = a;
    while i < b
        invariant
            a <= i <= b <= s@.len(),
            r@ == s@.subrange(a as int, i as int),
        decreases b - i,
    {
        r.push(s[i]);
        proof {
            assert(s@.subrange(a as int, i + 1) =~= s@.subrange(a as int, i as int).push(s@[i as int]));
        }
        i += 1;
    }
    r
}

/// The parts of `s` cut at every `sep`, each as its own vector.
fn split_chars(s: &Vec<char>, sep: char) -> (r: Vec<Vec<char>>)
    ensures
        r@.len() == split_on(s@, sep).len(),
        forall|k: int| 0 <= k < r@.len() ==> #[trigger] r@[k]@ == split_on(s@, sep)[k],
        r@.map_values(|p: Vec<char>| p@) == split_on(s@, sep),
{
    let ranges = split_ranges(s, sep);
    let mut r: Vec<Vec<char>> = Vec::new();
    let mut k: usize = 0;
    while k < ranges.len()
        invariant
            k <= ranges@.len() == split_on(s@, sep).len(),
            forall|j: int|
                0 <= j < ranges@.len() ==> {
                    &&& (#[trigger] ranges@[j]).0 <= ranges@[j].1 <= s@.len()
                    &&& s@.subrange(ranges@[j].0 as int, ranges@[j].1 as int) == split_on(s@, sep)[j]
                },
            r@.len() == k,
            forall|j: int| 0 <= j < k ==> #[trigger] r@[j]@ == split_on(s@, sep)[j],
        decreases ranges@.len() - k,
    {
        let (a, b) = ranges[k];
        proof {
            assert(ranges@[k as int] == (a, b));
        }
        r.push(slice_chars(s, a, b));
        k += 1;
    }
    assert(r@.map_values(|p: Vec<char>| p@) =~= split_on(s@, sep));
    r
}

/// The value of a decimal octet, as `octet` gives it.
fn parse_octet(s: &Vec<char>) -> (r: Option<u8>)
    ensures
        r == octet(s@),
{
    let n = s.len();
    if n < 1 || n > 3 {
        return None;
    }
    if n > 1 && s[0] == '0' {
        return None;
    }
    let mut v: u32 = 0;
    let mut i: usize = 0;
    while i < n
        invariant
            1 <= n <= 3,
            n == s@.len(),
            i <= n,
            all_digits(s@.take(i as int)),
            v == digits_value(s@.take(i as int)),
            v < 1000,
            i == 0 ==> v == 0,
            i == 1 ==> v < 10,
            i == 2 ==> v < 100,
        decreases n - i,
    {
        let c = s[i];
        if !('0' <= c && c <= '9') {
            return None;
        }
        proof {
            let p = s@.take(i + 1);
            assert(p.drop_last() =~= s@.take(i as int));
            assert(p.last() == c);
            assert(v * 10 + ((c as u32) - 48) < 1000) by (nonlinear_arith)
                requires
                    i < 3,
                    v < 1000,
                    i == 0 ==> v == 0,
                    i == 1 ==> v < 10,
                    i == 2 ==> v < 100,
                    (c as u32) - 48 < 10,
            ;
        }
        v = v * 10 + ((c as u32) - 48);
        i += 1;
    }
    proof {
        assert(s@.take(n as int) =~= s@);
    }
    if v > 255 {
        None
    } else {
        Some(v as u8)
    }
}
/// The octets of an IPv4 literal, as `ipv4_literal` gives them.
fn parse_ipv4(s: &Vec<char>) -> (r: Option<Vec<u8>>)
    ensures
        match r {
            Some(o) => ipv4_literal(s@) == Some(o@) && o@.len() == 4,
            None => ipv4_literal(s@) is None,
        },
{
    let parts = split_chars(s, '.');
    if parts.len() != 4 {
        return None;
    }
    let ghost sp = split_on(s@, '.');
    let mut out: Vec<u8> = Vec::new();
    let mut k: usize = 0;
    while k < 4
        invariant
            parts@.len() == sp.len() == 4,
            sp == split_on(s@, '.'),
            forall|j: int| 0 <= j < 4 ==> #[trigger] parts@[j]@ == sp[j],
            k <= 4,
            octet_list(sp.take(k as int)) == Some(out@),
        decreases 4 - k,
    {
        let o = parse_octet(&parts[k]);
        proof {
            assert(sp.take(k + 1).drop_last() =~= sp.take(k as int));
            assert(sp.take(k + 1).last() == parts@[k as int]@);
        }
        match o {
            Some(v) => {
                out.push(v);
            },
            None => {
                proof {
                    assert(octet_list(sp.take(k + 1)) is None);
                    lemma_octet_list_prefix(sp, k + 1);
                    assert(octet_list(sp) is None);
                    assert(ipv4_literal(s@) is None);
                }
                return None;
            },
        }
        k += 1;
    }
    proof {
        assert(sp.take(4) =~= sp);
        lemma_octet_list_len(sp);
    }
    Some(out)
}

proof fn lemma_octet_list_len(parts: Seq<Seq<char>>)
    ensures
        octet_list(parts) matches Some(o) ==> o.len() == parts.len(),
    decreases parts.len(),
{
    if parts.len() > 0 {
        lemma_octet_list_len(parts.drop_last());
    }
}

/// A list with a part that is not an octet has no octets, whatever follows.
proof fn lemma_octet_list_prefix(parts: Seq<Seq<char>>, k: int)
    requires
        0 <= k <= parts.len(),
        octet_list(parts.take(k)) is None,
    ensures
        octet_list(parts) is None,
    decreases parts.len() - k,
{
    if k < parts.len() {
        assert(parts.drop_last().take(k) =~= parts.take(k));
        lemma_octet_list_prefix(parts.drop_last(), k);
    } else {
        assert(parts.take(k) =~= parts);
    }
}

/// A list with a part that is not a group has no groups, whatever follows.
proof fn lemma_hex_groups_prefix(parts: Seq<Seq<char>>, k: int)
    requires
        0 <= k <= parts.len(),
        hex_groups(parts.take(k)) is None,
    ensures
        hex_groups(parts) is None,
    decreases parts.len() - k,
{
    if k < parts.len() {
        assert(parts.drop_last().take(k) =~= parts.take(k));
        lemma_hex_groups_prefix(parts.drop_last(), k);
    } else {
        assert(parts.take(k) =~= parts);
    }
}

/// The value of a hexadecimal group, as `hex_group` gives it.
fn parse_hex_group(s: &Vec<char>) -> (r: Option<u16>)
    ensures
        r == hex_group(s@),
{
    let n = s.len();
    if n < 1 || n > 4 {
        return None;
    }
    let mut v: u32 = 0;
    let mut i: usize = 0;
    while i < n
        invariant
            1 <= n <= 4,
            n == s@.len(),
            i <= n,
            forall|j: int| 0 <= j < i ==> is_hex_digit(#[trigger] s@[j]),
            v == hex_value(s@.take(i as int)),
            i == 0 ==> v == 0,
            i == 1 ==> v < 16,
            i == 2 ==> v < 256,
            i == 3 ==> v < 4096,
            i == 4 ==> v < 65536,
        decreases n - i,
    {
        let c = s[i];
        let d: u32 = if '0' <= c && c <= '9' {
            (c as u32) - 48
        } else if 'a' <= c && c <= 'f' {
            (c as u32) - 87
        } else if 'A' <= c && c <= 'F' {
            (c as u32) - 55
        } else {
            return None;
        };
        proof {
            let p = s@.take(i + 1);
            assert(p.drop_last() =~= s@.take(i as int));
            assert(p.last() == c);
            assert(d == hex_digit_value(c));
            assert(v * 16 + d < 65536) by (nonlinear_arith)
                requires
                    i < 4,
                    d < 16,
                    i == 0 ==> v == 0,
                    i == 1 ==> v < 16,
                    i == 2 ==> v < 256,
                    i == 3 ==> v < 4096,
            ;
            assert(i == 0 ==> v * 16 + d < 16);
            assert(i == 1 ==> v * 16 + d < 256);
            assert(i == 2 ==> v * 16 + d < 4096);
        }
        v = v * 16 + d;
        i += 1;
    }
    proof {
        assert(s@.take(n as int) =~= s@);
    }
    Some(v as u16)
}

/// The values of a list of groups, as `hex_groups` gives them.
fn parse_hex_groups(parts: &Vec<Vec<char>>, upto: usize) -> (r: Option<Vec<u16>>)
    requires
        upto <= parts@.len(),
    ensures
        match r {
            Some(g) => hex_groups(parts@.take(upto as int).map_values(|p: Vec<char>| p@)) == Some(g@),
            None => hex_groups(parts@.take(upto as int).map_values(|p: Vec<char>| p@)) is None,
        },
{
    let ghost ps = parts@.take(upto as int).map_values(|p: Vec<char>| p@);
    let mut out: Vec<u16> = Vec::new();
    let mut k: usize = 0;
    while k < upto
        invariant
            upto <= parts@.len(),
            ps == parts@.take(upto as int).map_values(|p: Vec<char>| p@),
            k <= upto,
            hex_groups(ps.take(k as int)) == Some(out@),
        decreases upto - k,
    {
        let g = parse_hex_group(&parts[k]);
        proof {
            assert(ps.take(k + 1).drop_last() =~= ps.take(k as int));
            assert(ps.take(k + 1).last() == parts@[k as int]@);
        }
        match g {
            Some(v) => {
                out.push(v);
            },
            None => {
                proof {
                    lemma_hex_groups_prefix(ps, k + 1);
                }
                return None;
            },
        }
        k += 1;
    }
    proof {
        assert(ps.take(upto as int) =~= ps);
    }
    Some(out)
}
/// The groups of a list whose last part may be an embedded IPv4 address.
fn parse_groups_v4_tail(parts: &Vec<Vec<char>>) -> (r: Option<Vec<u16>>)
    ensures
        match r {
            Some(g) => groups_with_v4_tail(parts@.map_values(|p: Vec<char>| p@)) == Some(g@),
            None => groups_with_v4_tail(parts@.map_values(|p: Vec<char>| p@)) is None,
        },
{
    let ghost ps = parts@.map_values(|p: Vec<char>| p@);
    let n = parts.len();
    assert(parts@.take(n as int) =~= parts@);
    if n > 0 {
        assert(ps.last() == parts@[n - 1]@);
        assert(parts@.take(n - 1).map_values(|p: Vec<char>| p@) =~= ps.drop_last());
        match parse_ipv4(&parts[n - 1]) {
            Some(o) => {
                match parse_hex_groups(parts, n - 1) {
                    Some(a) => {
                        let mut a = a;
                        let hi = (o[0] as u16) * 256 + (o[1] as u16);
                        let lo = (o[2] as u16) * 256 + (o[3] as u16);
                        let ghost a0 = a@;
                        a.push(hi);
                        a.push(lo);
                        proof {
                            assert(a@ =~= a0 + seq![hi, lo]);
                        }
                        Some(a)
                    },
                    None => None,
                }
            },
            None => parse_hex_groups(parts, n),
        }
    } else {
        parse_hex_groups(parts, n)
    }
}

/// Where the first `::` of `s` starts.
fn find_double_colon(s: &Vec<char>) -> (r: Option<usize>)
    ensures
        match r {
            Some(i) => double_colon_from(s@, 0) == Some(i as int) && i + 1 < s@.len(),
            None => double_colon_from(s@, 0) is None,
        },
{
    let n = s.len();
    let mut i: usize = 0;
    while n > 0 && i < n - 1
        invariant
            n == s@.len(),
            i <= n,
            double_colon_from(s@, 0) == double_colon_from(s@, i as int),
        decreases n - i,
    {
        if s[i] == ':' && s[i + 1] == ':' {
            return Some(i);
        }
        i += 1;
    }
    None
}

/// The parts of a colon-separated list; none for an empty string.
fn colon_parts_of(s: &Vec<char>) -> (r: Vec<Vec<char>>)
    ensures
        r@.map_values(|p: Vec<char>| p@) == colon_parts(s@),
{
    if s.len() == 0 {
        let r: Vec<Vec<char>> = Vec::new();
        assert(r@.map_values(|p: Vec<char>| p@) =~= Seq::<Seq<char>>::empty());
        r
    } else {
        split_chars(s, ':')
    }
}

/// The eight groups of an IPv6 literal, as `ipv6_literal` gives them.
fn parse_ipv6(s: &Vec<char>) -> (r: Option<Vec<u16>>)
    ensures
        match r {
            Some(g) => ipv6_literal(s@) == Some(g@),
            None => ipv6_literal(s@) is None,
        },
{
    let n = s.len();
    match find_double_colon(s) {
        None => {
            let parts = split_chars(s, ':');
            match parse_groups_v4_tail(&parts) {
                Some(g) => if g.len() == 8 {
                    Some(g)
                } else {
                    None
                },
                None => None,
            }
        },
        Some(i) => {
            let head = slice_chars(s, 0, i);
            let tail = slice_chars(s, i + 2, n);
            assert(head@ =~= s@.take(i as int));
            assert(tail@ =~= s@.skip(i + 2));
            let hp = colon_parts_of(&head);
            let tp = colon_parts_of(&tail);
            assert(hp@.take(hp.len() as int) =~= hp@);
            let h = parse_hex_groups(&hp, hp.len());
            let t = parse_groups_v4_tail(&tp);
            match (h, t) {
                (Some(h), Some(t)) => {
                    if h.len() <= 7 && t.len() <= 7 - h.len() {
                        let zeros = 8 - h.len() - t.len();
                        let mut out = h;
                        let ghost h0 = out@;
                        let mut k: usize = 0;
                        while k < zeros
                            invariant
                                k <= zeros,
                                out@ == h0 + Seq::new(k as nat, |j: int| 0u16),
                            decreases zeros - k,
                        {
                            out.push(0);
                            proof {
                                assert(h0 + Seq::new((k + 1) as nat, |j: int| 0u16) =~= (h0
                                    + Seq::new(k as nat, |j: int| 0u16)).push(0u16));
                            }
                            k += 1;
                        }
                        let mut j: usize = 0;
                        let ghost mid = out@;
                        while j < t.len()
                            invariant
                                j <= t@.len(),
                                out@ == mid + t@.take(j as int),
                            decreases t@.len() - j,
                        {
                            out.push(t[j]);
                            proof {
                                assert(mid + t@.take(j + 1) =~= (mid + t@.take(j as int)).push(
                                    t@[j as int],
                                ));
                            }
                            j += 1;
                        }
                        proof {
                            assert(t@.take(t@.len() as int) =~= t@);
                        }
                        Some(out)
                    } else {
                        None
                    }
                },
                _ => None,
            }
        },
    }
}

/// Whether `s` is an IP literal for a loopback address, as `is_loopback_ip` says.
pub fn is_loopback_ip_chars(s: &Vec<char>) -> (r: bool)
    ensures
        r == is_loopback_ip(s@),
{
    match parse_ipv4(s) {
        Some(o) => o[0] == 127,
        None => match parse_ipv6(s) {
            Some(g) => {
                let r = g.len() == 8 && g[0] == 0 && g[1] == 0 && g[2] == 0 && g[3] == 0 && g[4]
                    == 0 && g[5] == 0 && g[6] == 0 && g[7] == 1;
                proof {
                    if r {
                        assert(g@ =~= seq![0u16, 0, 0, 0, 0, 0, 0, 1]);
                    } else if g@ == seq![0u16, 0, 0, 0, 0, 0, 0, 1] {
                        assert(g@[7] == 1);
                    }
                }
                r
            },
            None => false,
        },
    }
}
} // verus!

//! Number formatting for the tray title, tooltip and copied summary.

use vstd::prelude::*;
use crate::strings::{all_digits, digits_value};

verus! {

/// The character of a decimal digit `d < 10`.
pub open spec fn digit_char(d: nat) -> char {
    (48 + d) as char
}

/// The decimal representation of `n`, most significant digit first, without
/// leading zeros (`0` is written as a single `0`).
pub open spec fn decimal(n: nat) -> Seq<char>
    decreases n,
{
    if n < 10 {
        seq![digit_char(n)]
    } else {
        decimal(n / 10).push(digit_char(n % 10))
    }
}

fn digit(d: u64) -> (c: char)
    requires
        d < 10,
    ensures
        c == digit_char(d as nat),
{
    ((48 + d) as u8) as char
}

/// Appends the decimal representation of `n` to `out`.
pub fn push_decimal(out: &mut String, n: u64)
    ensures
        final(out)@ == old(out)@ + decimal(n as nat),
    decreases n,
{
    if n >= 10 {
        push_decimal(out, n / 10);
    }
    out.push(digit(n % 10));
    proof {
        assert(decimal(n as nat) == if n < 10 {
            seq![digit_char(n as nat)]
        } else {
            decimal((n / 10) as nat).push(digit_char((n % 10) as nat))
        });
    }
}

/// The decimal representation of `n`.
pub fn decimal_string(n: u64) -> (s: String)
    ensures
        s@ == decimal(n as nat),
{
    let mut s = String::new();
    push_decimal(&mut s, n);
    s
}

/// Thousands grouping of a digit string: a comma before every third digit
/// counted from the right, never at the front.
pub open spec fn group_thousands(s: Seq<char>) -> Seq<char>
    decreases s.len(),
{
    if s.len() <= 3 {
        s
    } else {
        group_thousands(s.take(s.len() - 3)) + seq![','] + s.skip(s.len() - 3)
    }
}

/// `s` with every comma removed.
pub open spec fn without_commas(s: Seq<char>) -> Seq<char> {
    s.filter(|c: char| c != ',')
}

proof fn lemma_decimal_shape(n: nat)
    ensures
        decimal(n).len() >= 1,
        forall|i: int| 0 <= i < decimal(n).len() ==> '0' <= #[trigger] decimal(n)[i] <= '9',
    decreases n,
{
    if n >= 10 {
        lemma_decimal_shape(n / 10);
    }
}

/// Writes `n` with thousands separators: 10112582 becomes "10,112,582".
pub fn grouped(n: u64) -> (s: String)
    ensures
        s@ == group_thousands(decimal(n as nat)),
{
    let digits = decimal_string(n);
    let d = crate::strings::chars_of(digits.as_str());
    let ghost ds = decimal(n as nat);
    proof {
        lemma_decimal_shape(n as nat);
    }
    let len = d.len();
    let mut first = len % 3;
    if first == 0 {
        first = 3;
    }
    let mut out = String::new();
    let mut i: usize = 0;
    while i < first
        invariant
            d@ == ds,
            len == ds.len(),
            1 <= first <= 3,
            first <= len,
            i <= first,
            out@ == ds.take(i as int),
        decreases first - i,
    {
        out.push(d[i]);
        proof {
            assert(ds.take(i as int).push(ds[i as int]) =~= ds.take(i + 1));
        }
        i += 1;
    }
    let mut k: usize = first;
    while k < len
        invariant
            d@ == ds,
            len == ds.len(),
            1 <= k <= len,
            (len - k) % 3 == 0,
            out@ == group_thousands(ds.take(k as int)),
        decreases len - k,
    {
        out.push(',');
        out.push(d[k]);
        out.push(d[k + 1]);
        out.push(d[k + 2]);
        proof {
            let t = ds.take(k + 3);
            assert(t.take(t.len() - 3) =~= ds.take(k as int));
            assert(t.skip(t.len() - 3) =~= seq![ds[k as int], ds[k + 1], ds[k + 2]]);
            assert(out@ =~= group_thousands(ds.take(k as int)) + seq![','] + t.skip(t.len() - 3));
        }
        k += 3;
    }
    proof {
        assert(ds.take(len as int) =~= ds);
    }
    out
}

/// Removing the separators from `grouped(n)` gives back the plain decimal
/// representation of `n`.
pub proof fn lemma_grouped_digits(n: nat)
    ensures
        without_commas(group_thousands(decimal(n))) == decimal(n),
{
    lemma_decimal_shape(n);
    lemma_group_keeps_digits(decimal(n));
}

proof fn lemma_group_keeps_digits(s: Seq<char>)
    requires
        forall|i: int| 0 <= i < s.len() ==> #[trigger] s[i] != ',',
    ensures
        without_commas(group_thousands(s)) == s,
    decreases s.len(),
{
    let p = |c: char| c != ',';
    if s.len() <= 3 {
        lemma_no_comma_filter(s);
    } else {
        let head = s.take(s.len() - 3);
        let tail = s.skip(s.len() - 3);
        lemma_group_keeps_digits(head);
        lemma_no_comma_filter(tail);
        Seq::filter_distributes_over_add(group_thousands(head) + seq![','], tail, p);
        Seq::filter_distributes_over_add(group_thousands(head), seq![','], p);
        reveal_with_fuel(Seq::filter, 2);
        assert(seq![','].filter(p) =~= Seq::<char>::empty());
        assert(head + tail =~= s);
    }
}

proof fn lemma_no_comma_filter(s: Seq<char>)
    requires
        forall|i: int| 0 <= i < s.len() ==> #[trigger] s[i] != ',',
    ensures
        without_commas(s) == s,
    decreases s.len(),
{
    let p = |c: char| c != ',';
    reveal_with_fuel(Seq::filter, 1);
    if s.len() > 0 {
        lemma_no_comma_filter(s.drop_last());
        assert(s.drop_last().push(s.last()) =~= s);
    }
}

/// The divisor of unit `i` of the short format: K, M, B, T.
pub open spec fn unit_limit(i: nat) -> nat {
    if i == 0 {
        1_000
    } else if i == 1 {
        1_000_000
    } else if i == 2 {
        1_000_000_000
    } else {
        1_000_000_000_000
    }
}

/// The suffix of unit `i` of the short format.
pub open spec fn unit_suffix(i: nat) -> char {
    if i == 0 {
        'K'
    } else if i == 1 {
        'M'
    } else if i == 2 {
        'B'
    } else {
        'T'
    }
}

/// The largest unit whose divisor does not exceed `n`.
pub open spec fn base_unit(n: nat) -> nat {
    if n >= 1_000_000_000_000 {
        3
    } else if n >= 1_000_000_000 {
        2
    } else if n >= 1_000_000 {
        1
    } else {
        0
    }
}

/// The unit that `n` is shown in: its base unit, or the next one up when the
/// quotient is at least 999.5, which would print as 1000 in the base unit.
pub open spec fn compact_unit(n: nat) -> nat {
    let b = base_unit(n);
    if b < 3 && 2 * n >= 1_999 * unit_limit(b) {
        b + 1
    } else {
        b
    }
}

/// `a / b` rounded to the nearest integer, ties to even.
pub open spec fn round_div(a: nat, b: nat) -> nat {
    let q = a / b;
    let r = a % b;
    if 2 * r > b {
        q + 1
    } else if 2 * r < b {
        q
    } else if q % 2 == 0 {
        q
    } else {
        q + 1
    }
}

/// A count of tenths written with one decimal, where a trailing ".0" is dropped.
pub open spec fn tenths_text(t: nat) -> Seq<char> {
    if t % 10 == 0 {
        decimal(t / 10)
    } else {
        decimal(t / 10) + seq!['.', digit_char(t % 10)]
    }
}

/// 2 to the power `k`.
pub open spec fn two_pow(k: nat) -> nat
    decreases k,
{
    if k == 0 {
        1
    } else {
        2 * two_pow((k - 1) as nat)
    }
}

/// `n` needs more than 53 bits and dropping `k` low bits leaves 53.
pub open spec fn is_excess_bits(n: nat, k: nat) -> bool {
    0x10_0000_0000_0000 * two_pow(k) <= n < 0x20_0000_0000_0000 * two_pow(k)
}

/// `n as f64`: `n` itself when it fits in 53 bits, otherwise `n` rounded to
/// the nearest multiple of the power of two that leaves 53 significant bits,
/// ties to even.
pub open spec fn nearest_double(n: nat) -> nat {
    if n < 0x20_0000_0000_0000 {
        n
    } else {
        let k = choose|k: nat| is_excess_bits(n, k);
        round_div(n, two_pow(k)) * two_pow(k)
    }
}

/// At scale `s` the quotient `v / l` has 53 significant bits before the point.
pub open spec fn is_quotient_scale(v: nat, l: nat, s: nat) -> bool {
    0x10_0000_0000_0000 * l <= v * two_pow(s) < 0x20_0000_0000_0000 * l
}

/// `v / l` rounded to a double, then printed with no decimal (`tenths`
/// false) or one decimal (`tenths` true), ties to even; the digits are
/// returned as an integer.
pub open spec fn printed_quotient(v: nat, l: nat, tenths: bool) -> nat {
    let s = choose|s: nat| is_quotient_scale(v, l, s);
    let mantissa = round_div(v * two_pow(s), l);
    round_div(mantissa * (if tenths { 10nat } else { 1nat }), two_pow(s))
}

/// The short form of `n`, exactly as it comes out of floating-point arithmetic:
/// below 1000 the number itself; otherwise `n as f64` divided by the unit's
/// divisor, printed with no decimal from 100 on and with one decimal below
/// (".0" dropped), followed by the unit's letter.
pub open spec fn compact_text(n: nat) -> Seq<char> {
    if n < 1000 {
        decimal(n)
    } else {
        let i = compact_unit(n);
        let l = unit_limit(i);
        let v = nearest_double(n);
        let body = if n >= 100 * l {
            decimal(printed_quotient(v, l, false))
        } else {
            tenths_text(printed_quotient(v, l, true))
        };
        body.push(unit_suffix(i))
    }
}

proof fn lemma_two_pow_pos(a: nat)
    ensures
        two_pow(a) >= 1,
    decreases a,
{
    if a > 0 {
        lemma_two_pow_pos((a - 1) as nat);
    }
}

/// For `s1 < s2`, `2^s2` is at least twice `2^s1`.
proof fn lemma_two_pow_gap(s1: nat, s2: nat)
    requires
        s1 < s2,
    ensures
        two_pow(s2) >= 2 * two_pow(s1),
    decreases s2,
{
    let t = (s2 - 1) as nat;
    assert(two_pow(s2) == 2 * two_pow(t));
    if s1 < t {
        lemma_two_pow_gap(s1, t);
        lemma_two_pow_pos(s1);
    }
}

proof fn lemma_quotient_scale_ordered(v: nat, l: nat, lo: nat, hi: nat)
    requires
        lo < hi,
    ensures
        !(is_quotient_scale(v, l, lo) && is_quotient_scale(v, l, hi)),
{
    lemma_two_pow_gap(lo, hi);
    let x = v * two_pow(lo);
    let y = v * two_pow(hi);
    assert(y >= 2 * x) by (nonlinear_arith)
        requires
            x == v * two_pow(lo),
            y == v * two_pow(hi),
            two_pow(hi) >= 2 * two_pow(lo),
    ;
}

proof fn lemma_quotient_scale_unique(v: nat, l: nat, s1: nat, s2: nat)
    requires
        is_quotient_scale(v, l, s1),
        is_quotient_scale(v, l, s2),
    ensures
        s1 == s2,
{
    if s1 < s2 {
        lemma_quotient_scale_ordered(v, l, s1, s2);
    } else if s2 < s1 {
        lemma_quotient_scale_ordered(v, l, s2, s1);
    }
}

proof fn lemma_excess_bits_ordered(n: nat, lo: nat, hi: nat)
    requires
        lo < hi,
    ensures
        !(is_excess_bits(n, lo) && is_excess_bits(n, hi)),
{
    lemma_two_pow_gap(lo, hi);
    let x = two_pow(lo);
    let y = two_pow(hi);
    assert(0x10_0000_0000_0000 * y >= 0x20_0000_0000_0000 * x) by (nonlinear_arith)
        requires
            y >= 2 * x,
    ;
}

proof fn lemma_excess_bits_unique(n: nat, k1: nat, k2: nat)
    requires
        is_excess_bits(n, k1),
        is_excess_bits(n, k2),
    ensures
        k1 == k2,
{
    if k1 < k2 {
        lemma_excess_bits_ordered(n, k1, k2);
    } else if k2 < k1 {
        lemma_excess_bits_ordered(n, k2, k1);
    }
}

proof fn lemma_quotient_scale_exists(v: nat, l: nat, s: nat)
    requires
        0 < l,
        2 * v >= l,
        v * two_pow(s) < 0x20_0000_0000_0000 * l,
    ensures
        exists|t: nat| is_quotient_scale(v, l, t),
    decreases 0x20_0000_0000_0000 * l - v * two_pow(s),
{
    if v * two_pow(s) >= 0x10_0000_0000_0000 * l {
        assert(is_quotient_scale(v, l, s));
    } else {
        let p = two_pow(s);
        let p2 = two_pow(s + 1);
        assert(p2 == 2 * p);
        lemma_two_pow_pos(s);
        assert(v * p2 == 2 * (v * p) && v * p > 0) by (nonlinear_arith)
            requires
                p2 == 2 * p,
                p >= 1,
                v > 0,
        ;
        lemma_quotient_scale_exists(v, l, s + 1);
    }
}

/// `round_div(a, b)` lies between the floor of `a / b` and one more.
proof fn lemma_round_div_bounds(a: nat, b: nat)
    requires
        b > 0,
    ensures
        a / b <= round_div(a, b) <= a / b + 1,
        b * (a / b) <= a,
        2 * (a % b) < b ==> round_div(a, b) == a / b,
        a == b * (a / b) + a % b,
        a % b < b,
{
    vstd::arithmetic::div_mod::lemma_fundamental_div_mod(a as int, b as int);
}

/// The quotient `v / l` as a double, at its scale: its mantissa and the
/// power of two it is scaled by.
proof fn lemma_mantissa_bounds(v: nat, l: nat) -> (r: (nat, nat))
    requires
        0 < l,
        2 * v >= l,
        v < 0x20_0000_0000_0000 * l,
    ensures
        r.1 == two_pow(choose|s: nat| is_quotient_scale(v, l, s)),
        r.0 == round_div(v * r.1, l),
        0x10_0000_0000_0000 * l <= v * r.1,
        l * r.0 <= v * r.1 + l,
        r.1 >= 1,
{
    assert(two_pow(0) == 1);
    assert(v * two_pow(0) == v);
    lemma_quotient_scale_exists(v, l, 0);
    let s = choose|s: nat| is_quotient_scale(v, l, s);
    let p = two_pow(s);
    lemma_two_pow_pos(s);
    let m = round_div(v * p, l);
    lemma_round_div_bounds(v * p, l);
    let q = (v * p) / l;
    assert(l * m <= v * p + l) by (nonlinear_arith)
        requires
            m <= q + 1,
            l * q <= v * p,
    ;
    (m, p)
}

/// A count from 1000 up to a trillion never shows as 1000 of a unit: a value
/// that would round to 1000 in its unit moves to the next one, so the figure
/// before the unit's letter is below 1000 (from 100 on it is printed whole,
/// below 100 it is printed in tenths, at most 100.0).
pub proof fn lemma_compact_figure_below_thousand(n: nat)
    requires
        1000 <= n < 1_000_000_000_000,
    ensures
        ({
            let l = unit_limit(compact_unit(n));
            &&& nearest_double(n) == n
            &&& n >= 100 * l ==> printed_quotient(n, l, false) < 1000
            &&& n < 100 * l ==> printed_quotient(n, l, true) <= 1000
        }),
{
    let b = base_unit(n);
    let i = compact_unit(n);
    let l = unit_limit(i);
    assert(b < 3);
    assert(n < 1000 * unit_limit(b));
    assert(i == b ==> n >= l && 2 * n < 1999 * l);
    assert(i == b + 1 ==> n < l && 2 * n >= l);
    let (m, p) = lemma_mantissa_bounds(n, l);
    assert(l <= 1_000_000_000_000);
    if n >= 100 * l {
        assert(i == b);
        assert(l <= 1_000_000_000);
        // the scale is large against the divisor
        assert(p > 2 * l) by (nonlinear_arith)
            requires
                0x10_0000_0000_0000 * l <= n * p,
                n < 1000 * l,
                l <= 1_000_000_000,
                l > 0,
        ;
        assert(2 * m < 1999 * p) by (nonlinear_arith)
            requires
                l * m <= n * p + l,
                2 * n < 1999 * l,
                p > 2 * l,
                l > 0,
        ;
        lemma_round_div_bounds(m, p);
        let q = m / p;
        let r = m % p;
        assert(q <= 999 && (q == 999 ==> 2 * r < p)) by (nonlinear_arith)
            requires
                m == p * q + r,
                r < p,
                2 * m < 1999 * p,
                p > 0,
        ;
        assert(printed_quotient(n, l, false) == round_div(m * 1, p));
        assert(m * 1 == m);
    } else {
        assert(p > l) by (nonlinear_arith)
            requires
                0x10_0000_0000_0000 * l <= n * p,
                n < 100 * l,
                l <= 1_000_000_000_000,
                l > 0,
        ;
        assert(10 * m < 1000 * p) by (nonlinear_arith)
            requires
                l * m <= n * p + l,
                n + 1 <= 100 * l,
                p > l,
                l > 0,
        ;
        lemma_round_div_bounds(m * 10, p);
        assert((m * 10) / p < 1000) by (nonlinear_arith)
            requires
                10 * m < 1000 * p,
                p > 0,
        ;
        assert(printed_quotient(n, l, true) == round_div(m * 10, p));
    }
}

/// `decimal(n)` is the usual way of writing `n`: one or more decimal digits
/// whose value is `n`, with no leading zero unless `n` is 0.
pub proof fn lemma_decimal_is_the_digits(n: nat)
    ensures
        decimal(n).len() >= 1,
        all_digits(decimal(n)),
        digits_value(decimal(n)) == n,
        decimal(n)[0] == '0' ==> n == 0,
    decreases n,
{
    if n < 10 {
        let d = decimal(n);
        assert(d.drop_last() =~= Seq::<char>::empty());
        assert((digit_char(n) as nat) == 48 + n);
        assert(digits_value(d.drop_last()) == 0);
        assert(digits_value(d) == n);
    } else {
        lemma_decimal_is_the_digits(n / 10);
        let d = decimal(n / 10);
        let e = d.push(digit_char(n % 10));
        assert(e.drop_last() =~= d);
        assert((digit_char(n % 10) as nat) == 48 + n % 10);
        assert(e[0] == d[0]);
        assert(n / 10 > 0);
        assert(digits_value(e) == digits_value(d) * 10 + n % 10);
        assert(n == (n / 10) * 10 + n % 10);
    }
}

/// Which unit a count is shown in: below 1000 the count itself, then K up to
/// 999,499, M from 999,500 (where K would print 1000K) up to 999,499,999, B
/// from 999,500,000 up to 999,499,999,999, and T from 999,500,000,000 on.
pub proof fn lemma_compact_units(n: nat)
    ensures
        n < 1000 ==> compact_text(n) == decimal(n),
        1000 <= n < 999_500 ==> unit_limit(compact_unit(n)) == 1000 && compact_text(n).last()
            == 'K',
        999_500 <= n < 999_500_000 ==> unit_limit(compact_unit(n)) == 1_000_000
            && compact_text(n).last() == 'M',
        999_500_000 <= n < 999_500_000_000 ==> unit_limit(compact_unit(n)) == 1_000_000_000
            && compact_text(n).last() == 'B',
        999_500_000_000 <= n ==> unit_limit(compact_unit(n)) == 1_000_000_000_000
            && compact_text(n).last() == 'T',
{
}

/// The figure shown is `n` divided by the unit, rounded: from 100 on it is a
/// whole number `q` with `q` units within one unit of `n`; below 100 it is a
/// count `t` of tenths of a unit, within one tenth of `n`.
pub proof fn lemma_compact_figure_close(n: nat)
    requires
        1000 <= n < 1_000_000_000_000,
    ensures
        ({
            let i = compact_unit(n);
            let l = unit_limit(i);
            let q = printed_quotient(n, l, false);
            let t = printed_quotient(n, l, true);
            &&& n >= 100 * l ==> compact_text(n) == decimal(q).push(unit_suffix(i)) && l * q
                <= n + l && n <= l * q + l
            &&& n < 100 * l ==> compact_text(n) == tenths_text(t).push(unit_suffix(i)) && l * t
                <= 10 * n + l && 10 * n <= l * t + l
        }),
{
    lemma_compact_figure_below_thousand(n);
    let i = compact_unit(n);
    let l = unit_limit(i);
    assert(l <= 1_000_000_000_000);
    assert(2 * n >= l);
    let (m, p) = lemma_mantissa_bounds(n, l);
    lemma_round_div_bounds(n * p, l);
    let f = (n * p) / l;
    assert(f <= m);
    assert(l * f <= l * m) by (nonlinear_arith)
        requires
            f <= m,
    ;
    assert(n * p == l * f + (n * p) % l);
    assert(l * m + l > n * p);
    if n >= 100 * l {
        assert(p > l) by (nonlinear_arith)
            requires
                0x10_0000_0000_0000 * l <= n * p,
                n < 1000 * l,
                l <= 1_000_000_000_000,
                l > 0,
        ;
        lemma_round_div_bounds(m, p);
        let q = round_div(m, p);
        assert(m * 1 == m);
        assert(printed_quotient(n, l, false) == q);
        let g = m / p;
        assert(l * q <= n + l) by (nonlinear_arith)
            requires
                q <= g + 1,
                p * g <= m,
                l * m <= n * p + l,
                p > l,
                l > 0,
        ;
        assert(n <= l * q + l) by (nonlinear_arith)
            requires
                g <= q,
                m == p * g + m % p,
                m % p < p,
                l * m + l > n * p,
                p > l,
                l > 0,
        ;
    } else {
        assert(p > 10 * l) by (nonlinear_arith)
            requires
                0x10_0000_0000_0000 * l <= n * p,
                n < 100 * l,
                l <= 1_000_000_000_000,
                l > 0,
        ;
        lemma_round_div_bounds(m * 10, p);
        let t = round_div(m * 10, p);
        assert(printed_quotient(n, l, true) == t);
        let g = (m * 10) / p;
        assert(l * t <= 10 * n + l) by (nonlinear_arith)
            requires
                t <= g + 1,
                p * g <= m * 10,
                l * m <= n * p + l,
                p > 10 * l,
                l > 0,
        ;
        assert(10 * n <= l * t + l) by (nonlinear_arith)
            requires
                g <= t,
                m * 10 == p * g + (m * 10) % p,
                (m * 10) % p < p,
                l * m + l > n * p,
                p > 10 * l,
                l > 0,
        ;
    }
}

fn round_div_exec(a: u128, b: u128) -> (r: u128)
    requires
        0 < b < 0x1_0000_0000_0000_0000_0000_0000,
        a < 0x1_0000_0000_0000_0000_0000_0000_0000,
    ensures
        r == round_div(a as nat, b as nat),
        r <= a as int / (b as int) + 1,
        r >= a as int / (b as int),
        r <= a + 1,
{
    let q = a / b;
    let r = a % b;
    proof {
        assert(q <= a) by (nonlinear_arith)
            requires
                q == a / b,
                b > 0,
        ;
    }
    if 2 * r > b {
        q + 1
    } else if 2 * r < b {
        q
    } else if q % 2 == 0 {
        q
    } else {
        q + 1
    }
}

/// `n as f64`, as an integer.
fn nearest_double_exec(n: u64) -> (v: u128)
    ensures
        v == nearest_double(n as nat),
        v <= 0x2_0000_0000_0000_0000,
        n < 0x20_0000_0000_0000 ==> v == n,
        n >= 0x20_0000_0000_0000 ==> v >= 0x10_0000_0000_0000,
{
    if n < 0x20_0000_0000_0000 {
        return n as u128;
    }
    let w = n as u128;
    let ghost mut k: nat = 0;
    let mut p: u128 = 1;
    while w >= 0x20_0000_0000_0000 * p
        invariant
            p == two_pow(k),
            1 <= p < 0x1000,
            w == n,
            w >= 0x10_0000_0000_0000 * p,
        decreases 0x1000 - p,
    {
        proof {
            assert(two_pow(k + 1) == 2 * two_pow(k));
            k = k + 1;
        }
        p = p * 2;
    }
    proof {
        assert(is_excess_bits(n as nat, k));
        assert forall|k2: nat| is_excess_bits(n as nat, k2) implies k2 == k by {
            lemma_excess_bits_unique(n as nat, k, k2);
        }
        let kc = choose|k2: nat| is_excess_bits(n as nat, k2);
        assert(is_excess_bits(n as nat, kc));
        assert(kc == k);
    }
    let q = round_div_exec(w, p);
    proof {
        let d = w as int / (p as int);
        assert(d < 0x20_0000_0000_0000) by (nonlinear_arith)
            requires
                d == w as int / (p as int),
                (w as int) < 0x20_0000_0000_0000 * (p as int),
                p > 0,
        ;
        assert(d >= 0x10_0000_0000_0000) by (nonlinear_arith)
            requires
                d == w as int / (p as int),
                (w as int) >= 0x10_0000_0000_0000 * (p as int),
                p > 0,
        ;
        assert(q * p <= 0x20_0000_0000_0000 * 0x1000) by (nonlinear_arith)
            requires
                q <= 0x20_0000_0000_0000,
                p < 0x1000,
        ;
        assert(q * p >= 0x10_0000_0000_0000) by (nonlinear_arith)
            requires
                q >= 0x10_0000_0000_0000,
                p >= 1,
        ;
    }
    q * p
}

/// `v / l` rounded to a double and printed, as `printed_quotient` says.
fn printed_quotient_exec(v: u128, l: u128, tenths: bool) -> (k: u64)
    requires
        0 < l <= 1_000_000_000_000,
        2 * v >= l,
        v < 0x400_0000 * l,
    ensures
        k == printed_quotient(v as nat, l as nat, tenths),
{
    let ghost mut s: nat = 0;
    let mut p: u128 = 1;
    proof {
        assert(v * p == v);
    }
    while v * p < 0x10_0000_0000_0000 * l
        invariant
            0 < l <= 1_000_000_000_000,
            2 * v >= l,
            p == two_pow(s),
            1 <= p < 0x40_0000_0000_0000,
            v * p < 0x20_0000_0000_0000 * l,
        decreases 0x40_0000_0000_0000 - p,
    {
        proof {
            assert(two_pow(s + 1) == 2 * two_pow(s));
            s = s + 1;
            assert(p < 0x20_0000_0000_0000) by (nonlinear_arith)
                requires
                    v * p < 0x10_0000_0000_0000 * l,
                    2 * v >= l,
                    l > 0,
            ;
            assert(v * (p * 2) == 2 * (v * p)) by (nonlinear_arith);
        }
        p = p * 2;
    }
    proof {
        assert(is_quotient_scale(v as nat, l as nat, s));
        assert forall|s2: nat| is_quotient_scale(v as nat, l as nat, s2) implies s2 == s by {
            lemma_quotient_scale_unique(v as nat, l as nat, s, s2);
        }
        let sc = choose|s2: nat| is_quotient_scale(v as nat, l as nat, s2);
        assert(is_quotient_scale(v as nat, l as nat, sc));
        assert(sc == s);
    }
    let mantissa = round_div_exec(v * p, l);
    proof {
        assert((v * p) as int / (l as int) < 0x20_0000_0000_0000) by (nonlinear_arith)
            requires
                v * p < 0x20_0000_0000_0000 * l,
                l > 0,
        ;
    }
    let scaled = if tenths {
        mantissa * 10
    } else {
        mantissa
    };
    let k = round_div_exec(scaled, p);
    k as u64
}

/// Short form of a count: 1234 becomes "1.2K", 10112582 "10.1M", 999999 "1M".
pub fn compact(n: u64) -> (s: String)
    ensures
        s@ == compact_text(n as nat),
{
    if n < 1000 {
        return decimal_string(n);
    }
    let w = n as u128;
    let mut i: u64 = if n >= 1_000_000_000_000 {
        3
    } else if n >= 1_000_000_000 {
        2
    } else if n >= 1_000_000 {
        1
    } else {
        0
    };
    let base_limit: u128 = if i == 0 {
        1_000
    } else if i == 1 {
        1_000_000
    } else if i == 2 {
        1_000_000_000
    } else {
        1_000_000_000_000
    };
    if i < 3 && 2 * w >= 1_999 * base_limit {
        i = i + 1;
    }
    let limit: u128 = if i == 0 {
        1_000
    } else if i == 1 {
        1_000_000
    } else if i == 2 {
        1_000_000_000
    } else {
        1_000_000_000_000
    };
    let suffix = if i == 0 {
        'K'
    } else if i == 1 {
        'M'
    } else if i == 2 {
        'B'
    } else {
        'T'
    };
    assert(i == compact_unit(n as nat));
    let v = nearest_double_exec(n);
    let mut out = String::new();
    if w >= 100 * limit {
        let q = printed_quotient_exec(v, limit, false);
        push_decimal(&mut out, q);
    } else {
        let t = printed_quotient_exec(v, limit, true);
        push_decimal(&mut out, t / 10);
        if t % 10 != 0 {
            out.push('.');
            out.push(digit(t % 10));
        }
        proof {
            assert(out@ =~= tenths_text(t as nat));
        }
    }
    out.push(suffix);
    out
}

} // verus!

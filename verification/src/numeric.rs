//! Decimal text for fixed-point values: rendering and parsing, exact
//! in both directions.
//!
//! A micro-scaled value is written as an optional minus sign, the
//! integer part in decimal, a dot, and exactly six fraction digits;
//! the parser also accepts the dot and fraction left off, or shorter
//! fractions down to one digit. Rendering then parsing gives back the
//! value bit for bit.

use vstd::prelude::*;
use crate::fixed::in_i64;

verus! {

/// An ASCII decimal digit.
pub open spec fn is_digit(b: u8) -> bool {
    0x30 <= b <= 0x39
}

/// Every byte of the sequence is a decimal digit.
pub open spec fn all_digits(s: Seq<u8>) -> bool {
    forall|i: int| 0 <= i < s.len() ==> is_digit(#[trigger] s[i])
}

/// The number a digit string denotes.
pub open spec fn digits_val(s: Seq<u8>) -> nat
    decreases s.len(),
{
    if s.len() == 0 {
        0
    } else {
        digits_val(s.drop_last()) * 10 + (s.last() - 0x30) as nat
    }
}

/// The canonical decimal digits of a number: no leading zeros, a
/// plain `0` for zero.
pub open spec fn dec_digits(n: nat) -> Seq<u8>
    decreases n,
{
    if n < 10 {
        seq![(n + 0x30) as u8]
    } else {
        dec_digits(n / 10).push((n % 10 + 0x30) as u8)
    }
}

/// Ten to the `e`.
pub open spec fn pow10(e: nat) -> nat
    decreases e,
{
    if e == 0 {
        1
    } else {
        10 * pow10((e - 1) as nat)
    }
}

/// The canonical digits denote the number they were made from.
pub proof fn lemma_dec_digits_val(n: nat)
    ensures
        digits_val(dec_digits(n)) == n,
        dec_digits(n).len() >= 1,
        all_digits(dec_digits(n)),
    decreases n,
{
    if n < 10 {
        assert(digits_val(dec_digits(n)) == digits_val(Seq::<u8>::empty()) * 10 + n) by {
            assert(dec_digits(n).drop_last() =~= Seq::<u8>::empty());
        }
    } else {
        lemma_dec_digits_val(n / 10);
        let d = dec_digits(n / 10);
        let whole = d.push((n % 10 + 0x30) as u8);
        assert(whole.drop_last() =~= d);
        assert(digits_val(whole) == (n / 10) * 10 + n % 10);
        vstd::arithmetic::div_mod::lemma_fundamental_div_mod(n as int, 10);
        assert forall|i: int| 0 <= i < whole.len() implies is_digit(#[trigger] whole[i]) by {
            if i < d.len() {
                assert(is_digit(d[i]));
            }
        }
    }
}

/// Appends the canonical decimal digits of `n`.
pub fn push_dec(n: u64, out: &mut Vec<u8>)
    ensures
        final(out)@ == old(out)@ + dec_digits(n as nat),
    decreases n,
{
    if n < 10 {
        out.push((n as u8) + 0x30);
        proof {
            assert(out@ =~= old(out)@ + dec_digits(n as nat));
        }
    } else {
        push_dec(n / 10, out);
        out.push(((n % 10) as u8) + 0x30);
        proof {
            assert(out@ =~= old(out)@ + dec_digits(n as nat));
        }
    }
}

/// Exactly six digits for a fraction of a unit, most significant
/// first, zero padded.
pub open spec fn frac6(f: nat) -> Seq<u8> {
    seq![
        (f / 100000 % 10 + 0x30) as u8,
        (f / 10000 % 10 + 0x30) as u8,
        (f / 1000 % 10 + 0x30) as u8,
        (f / 100 % 10 + 0x30) as u8,
        (f / 10 % 10 + 0x30) as u8,
        (f % 10 + 0x30) as u8,
    ]
}

/// Appends the six zero-padded fraction digits of `f`.
pub fn push_frac6(f: u64, out: &mut Vec<u8>)
    requires
        f < 1_000_000,
    ensures
        final(out)@ == old(out)@ + frac6(f as nat),
{
    out.push(((f / 100000 % 10) as u8) + 0x30);
    out.push(((f / 10000 % 10) as u8) + 0x30);
    out.push(((f / 1000 % 10) as u8) + 0x30);
    out.push(((f / 100 % 10) as u8) + 0x30);
    out.push(((f / 10 % 10) as u8) + 0x30);
    out.push(((f % 10) as u8) + 0x30);
    proof {
        assert(out@ =~= old(out)@ + frac6(f as nat));
    }
}

/// The canonical text of a micro-scaled value: sign, integer part,
/// dot, six fraction digits.
pub open spec fn fixed_bytes(x: int) -> Seq<u8> {
    let mag = if x >= 0 { x } else { -x };
    let body = dec_digits((mag / 1_000_000) as nat) + seq![0x2Eu8] + frac6((mag % 1_000_000) as nat);
    if x < 0 {
        seq![0x2Du8] + body
    } else {
        body
    }
}

/// Renders a micro-scaled value as its canonical decimal text.
pub fn render_fixed(x: i64) -> (r: Vec<u8>)
    ensures
        r@ == fixed_bytes(x as int),
{
    let mut out: Vec<u8> = Vec::new();
    let mag: u64 = if x >= 0 {
        x as u64
    } else {
        proof {
            assert(-(x as int) == (-(x as i128)) as int);
        }
        out.push(0x2D);
        (-(x as i128)) as u64
    };
    proof {
        assert(mag as int == if x >= 0 { x as int } else { -(x as int) });
    }
    push_dec(mag / 1_000_000, &mut out);
    out.push(0x2E);
    push_frac6(mag % 1_000_000, &mut out);
    proof {
        assert(out@ =~= fixed_bytes(x as int));
    }
    out
}

/// Index of the first occurrence of a byte, or the length when there
/// is none.
pub open spec fn find_byte(s: Seq<u8>, b: u8) -> int
    decreases s.len(),
{
    if s.len() == 0 {
        0
    } else if s[0] == b {
        0
    } else {
        1 + find_byte(s.skip(1), b)
    }
}

/// What [`find_byte`] finds is the first occurrence.
pub proof fn lemma_find_byte_props(s: Seq<u8>, b: u8)
    ensures
        0 <= find_byte(s, b) <= s.len(),
        find_byte(s, b) < s.len() ==> s[find_byte(s, b)] == b,
        forall|k: int| 0 <= k < find_byte(s, b) ==> s[k] != b,
    decreases s.len(),
{
    if s.len() > 0 && s[0] != b {
        lemma_find_byte_props(s.skip(1), b);
        assert forall|k: int| 0 <= k < find_byte(s, b) implies s[k] != b by {
            if k > 0 {
                assert(s.skip(1)[k - 1] != b);
            }
        }
    }
}

/// An occurrence with none before it is the one [`find_byte`] finds.
pub proof fn lemma_find_byte_at(s: Seq<u8>, b: u8, p: int)
    requires
        0 <= p < s.len(),
        s[p] == b,
        forall|k: int| 0 <= k < p ==> s[k] != b,
    ensures
        find_byte(s, b) == p,
{
    lemma_find_byte_props(s, b);
    if find_byte(s, b) < p {
        assert(s[find_byte(s, b)] != b);
        assert(false);
    }
    if find_byte(s, b) > p {
        assert(s[p] != b);
        assert(false);
    }
}

/// Without any occurrence, [`find_byte`] reports the length.
pub proof fn lemma_find_byte_none(s: Seq<u8>, b: u8)
    requires
        forall|k: int| 0 <= k < s.len() ==> s[k] != b,
    ensures
        find_byte(s, b) == s.len(),
{
    lemma_find_byte_props(s, b);
    if find_byte(s, b) < s.len() {
        assert(s[find_byte(s, b)] != b);
        assert(false);
    }
}

/// Index of the first dot in the sequence, or its length when there
/// is none.
pub open spec fn find_dot(s: Seq<u8>) -> int {
    find_byte(s, 0x2E)
}

/// What [`find_dot`] finds is the first dot.
pub proof fn lemma_find_dot_props(s: Seq<u8>)
    ensures
        0 <= find_dot(s) <= s.len(),
        find_dot(s) < s.len() ==> s[find_dot(s)] == 0x2E,
        forall|k: int| 0 <= k < find_dot(s) ==> s[k] != 0x2E,
{
    lemma_find_byte_props(s, 0x2E);
}

/// A dot with no dot before it is the one [`find_dot`] finds.
pub proof fn lemma_find_dot_at(s: Seq<u8>, p: int)
    requires
        0 <= p < s.len(),
        s[p] == 0x2E,
        forall|k: int| 0 <= k < p ==> s[k] != 0x2E,
    ensures
        find_dot(s) == p,
{
    lemma_find_byte_at(s, 0x2E, p);
}

/// Without any dot, [`find_dot`] reports the length.
pub proof fn lemma_find_dot_none(s: Seq<u8>)
    requires
        forall|k: int| 0 <= k < s.len() ==> s[k] != 0x2E,
    ensures
        find_dot(s) == s.len(),
{
    lemma_find_byte_none(s, 0x2E);
}

/// A magnitude with its sign applied.
pub open spec fn signed_val(neg: bool, mag: int) -> int {
    if neg {
        -mag
    } else {
        mag
    }
}

/// What a numeric field's text denotes in micro-units, if anything.
/// The grammar is an optional minus, one or more integer digits, and
/// optionally a dot followed by one to six fraction digits.
pub open spec fn parse_fixed_spec(s: Seq<u8>) -> Option<int> {
    let neg = s.len() > 0 && s[0] == 0x2D;
    let b = if neg {
        s.skip(1)
    } else {
        s
    };
    let d = find_dot(b);
    if d == b.len() {
        if b.len() > 0 && all_digits(b) {
            Some(signed_val(neg, (digits_val(b) * 1_000_000) as int))
        } else {
            None
        }
    } else {
        let ip = b.take(d);
        let fp = b.skip(d + 1);
        if ip.len() > 0 && all_digits(ip) && 1 <= fp.len() <= 6 && all_digits(fp) {
            Some(signed_val(neg,
                (digits_val(ip) * 1_000_000 + digits_val(fp) * pow10((6 - fp.len()) as nat)) as int))
        } else {
            None
        }
    }
}

/// Parses a numeric field: `Some` exactly when the text matches the
/// grammar of [`parse_fixed_spec`] and its value fits the fixed-point
/// range.
pub fn parse_fixed(s: &[u8]) -> (r: Option<i64>)
    ensures
        r is Some <==> (parse_fixed_spec(s@) is Some && in_i64(parse_fixed_spec(s@)->0)),
        r is Some ==> r->0 == parse_fixed_spec(s@)->0,
{
    let n = s.len();
    let neg = n > 0 && s[0] == 0x2D;
    let off: usize = if neg {
        1
    } else {
        0
    };
    let ghost b = if neg {
        s@.skip(1)
    } else {
        s@
    };
    proof {
        assert(b =~= s@.subrange(off as int, n as int));
    }
    let mut idx: usize = off;
    let mut acc: i64 = 0;
    let mut over: bool = false;
    while idx < n && s[idx] != 0x2E
        invariant
            n == s@.len(),
            off <= idx <= n,
            off == if neg { 1int } else { 0int },
            neg == (s@.len() > 0 && s@[0] == 0x2D),
            b == if neg { s@.skip(1) } else { s@ },
            b =~= s@.subrange(off as int, n as int),
            forall|k: int| off <= k < idx ==> is_digit(#[trigger] s@[k]) && s@[k] != 0x2E,
            !over ==> acc == digits_val(s@.subrange(off as int, idx as int)) && acc
                < 10_000_000_000_000_000,
            over ==> digits_val(s@.subrange(off as int, idx as int)) >= 10_000_000_000_000_000,
        decreases n - idx,
    {
        let c = s[idx];
        if c < 0x30 || c > 0x39 {
            proof {
                let d = find_dot(b);
                lemma_find_dot_props(b);
                assert(b[idx - off] == s@[idx as int]);
                if d == b.len() {
                    assert(!is_digit(b[idx - off]));
                } else {
                    assert(d > idx - off);
                    assert(b.take(d)[idx - off] == s@[idx as int]);
                    assert(!is_digit(b.take(d)[idx - off]));
                }
            }
            return None;
        }
        proof {
            let pre = s@.subrange(off as int, idx as int);
            let post = s@.subrange(off as int, idx as int + 1);
            assert(post.drop_last() =~= pre);
            assert(post.last() == s@[idx as int]);
            if over {
                assert(digits_val(post) == digits_val(pre) * 10 + (s@[idx as int] - 0x30));
                assert(digits_val(pre) * 10 >= digits_val(pre)) by (nonlinear_arith);
            }
        }
        if !over {
            acc = acc * 10 + ((c - 0x30) as i64);
            if acc >= 10_000_000_000_000_000 {
                over = true;
            }
        }
        idx = idx + 1;
    }
    let ghost ip_end = idx as int;
    if idx == off {
        proof {
            let d = find_dot(b);
            lemma_find_dot_props(b);
            if d == b.len() {
                if b.len() > 0 {
                    assert(b[0] == s@[off as int]);
                    if idx < n {
                        assert(s@[off as int] == 0x2E);
                        assert(d > 0 || b[0] == 0x2E);
                    }
                }
            } else {
                assert(b.take(d).len() == d);
                if d > 0 {
                    assert(b[0] != 0x2E) by {
                        lemma_find_dot_props(b);
                    }
                    assert(s@[off as int] == 0x2E || idx == n);
                    assert(idx == n ==> find_dot(b) == b.len()) by {
                        if idx == n {
                            lemma_find_dot_none(b);
                        }
                    }
                    assert(false);
                }
            }
        }
        return None;
    }
    if idx == n {
        proof {
            lemma_find_dot_none(b);
            assert(b =~= s@.subrange(off as int, n as int));
            assert(all_digits(b));
            assert(b.len() > 0);
            if over {
                assert(digits_val(b) * 1_000_000 >= 10_000_000_000_000_000 * 1_000_000)
                    by (nonlinear_arith)
                    requires
                        digits_val(b) >= 10_000_000_000_000_000,
                ;
            }
        }
        if over {
            return None;
        }
        let mag: i128 = (acc as i128) * 1_000_000;
        if neg {
            if mag > 9_223_372_036_854_775_808i128 {
                return None;
            }
            return Some((-mag) as i64);
        } else {
            if mag > i64::MAX as i128 {
                return None;
            }
            return Some(mag as i64);
        }
    }
    let ghost dot = idx as int - off;
    proof {
        assert(b[dot] == s@[idx as int]);
        lemma_find_dot_at(b, dot);
    }
    let mut fdx: usize = idx + 1;
    let fstart: usize = idx + 1;
    let mut fr: i64 = 0;
    while fdx < n
        invariant
            n == s@.len(),
            off <= idx < fstart <= fdx <= n,
            fstart == idx + 1,
            off == if neg { 1int } else { 0int },
            neg == (s@.len() > 0 && s@[0] == 0x2D),
            b == if neg { s@.skip(1) } else { s@ },
            b =~= s@.subrange(off as int, n as int),
            dot == idx - off,
            ip_end == idx as int,
            find_dot(b) == dot,
            b.skip(dot + 1) =~= s@.subrange(fstart as int, n as int),
            b.take(dot) =~= s@.subrange(off as int, idx as int),
            forall|k: int| off <= k < idx ==> is_digit(#[trigger] s@[k]),
            !over ==> acc == digits_val(s@.subrange(off as int, idx as int)) && acc
                < 10_000_000_000_000_000,
            over ==> digits_val(s@.subrange(off as int, idx as int)) >= 10_000_000_000_000_000,
            idx > off,
            fdx - fstart <= 6,
            forall|k: int| fstart <= k < fdx ==> is_digit(#[trigger] s@[k]),
            fr == digits_val(s@.subrange(fstart as int, fdx as int)),
            fr < pow10((fdx - fstart) as nat),
            0 <= fr < 1_000_000,
        decreases n - fdx,
    {
        let c = s[fdx];
        if c < 0x30 || c > 0x39 {
            proof {
                let fp = b.skip(dot + 1);
                assert(fp[fdx - fstart] == s@[fdx as int]);
                assert(!is_digit(fp[fdx - fstart]));
            }
            return None;
        }
        if fdx - fstart >= 6 {
            proof {
                let fp = b.skip(dot + 1);
                assert(fp.len() == n - fstart);
            }
            return None;
        }
        proof {
            let pre = s@.subrange(fstart as int, fdx as int);
            let post = s@.subrange(fstart as int, fdx as int + 1);
            assert(post.drop_last() =~= pre);
            assert(post.last() == s@[fdx as int]);
            assert(pow10(((fdx - fstart) + 1) as nat) == 10 * pow10((fdx - fstart) as nat));
            assert(pow10(0) == 1);
            assert(pow10(1) == 10);
            assert(pow10(2) == 100);
            assert(pow10(3) == 1000);
            assert(pow10(4) == 10000);
            assert(pow10(5) == 100000);
            assert(pow10(6) == 1000000);
        }
        fr = fr * 10 + ((c - 0x30) as i64);
        fdx = fdx + 1;
    }
    let flen: usize = n - fstart;
    proof {
        let fp = b.skip(dot + 1);
        assert(fp =~= s@.subrange(fstart as int, n as int));
    }
    if flen == 0 {
        return None;
    }
    let pow: i64 = if flen == 1 {
        100_000
    } else if flen == 2 {
        10_000
    } else if flen == 3 {
        1_000
    } else if flen == 4 {
        100
    } else if flen == 5 {
        10
    } else {
        1
    };
    proof {
        assert(pow10(0) == 1);
        assert(pow10(1) == 10);
        assert(pow10(2) == 100);
        assert(pow10(3) == 1000);
        assert(pow10(4) == 10000);
        assert(pow10(5) == 100000);
        let ip = b.take(dot);
        assert(ip =~= s@.subrange(off as int, ip_end));
        assert(ip.len() > 0 && all_digits(ip));
        if over {
            assert(digits_val(ip) * 1_000_000 >= 10_000_000_000_000_000 * 1_000_000)
                by (nonlinear_arith)
                requires
                    digits_val(ip) >= 10_000_000_000_000_000,
            ;
            assert(digits_val(b.skip(dot + 1)) * pow10((6 - b.skip(dot + 1).len()) as nat) >= 0)
                by (nonlinear_arith);
        }
    }
    if over {
        return None;
    }
    let mag: i128 = (acc as i128) * 1_000_000 + (fr as i128) * (pow as i128);
    proof {
        let fp = b.skip(dot + 1);
        assert((fr as int) * (pow as int) == digits_val(fp) * pow10((6 - fp.len()) as nat));
        assert(0 <= (fr as int) * (pow as int) <= 100_000_000_000int) by (nonlinear_arith)
            requires
                0 <= fr < 1_000_000,
                1 <= pow <= 100_000,
        ;
    }
    if neg {
        if mag > 9_223_372_036_854_775_808i128 {
            return None;
        }
        return Some((-mag) as i64);
    } else {
        if mag > i64::MAX as i128 {
            return None;
        }
        return Some(mag as i64);
    }
}

/// The six fraction digits denote the fraction they were made from.
pub proof fn lemma_frac6_val(f: nat)
    requires
        f < 1_000_000,
    ensures
        digits_val(frac6(f)) == f,
        all_digits(frac6(f)),
        frac6(f).len() == 6,
{
    let s6 = frac6(f);
    let s5 = seq![
        (f / 100000 % 10 + 0x30) as u8,
        (f / 10000 % 10 + 0x30) as u8,
        (f / 1000 % 10 + 0x30) as u8,
        (f / 100 % 10 + 0x30) as u8,
        (f / 10 % 10 + 0x30) as u8,
    ];
    let s4 = s5.drop_last();
    let s3 = s4.drop_last();
    let s2 = s3.drop_last();
    let s1 = s2.drop_last();
    let s0 = s1.drop_last();
    assert(s6.drop_last() =~= s5);
    assert(s0 =~= Seq::<u8>::empty());
    assert(digits_val(s6) == digits_val(s5) * 10 + (f % 10));
    assert(digits_val(s5) == digits_val(s4) * 10 + (f / 10 % 10));
    assert(digits_val(s4) == digits_val(s3) * 10 + (f / 100 % 10));
    assert(digits_val(s3) == digits_val(s2) * 10 + (f / 1000 % 10));
    assert(digits_val(s2) == digits_val(s1) * 10 + (f / 10000 % 10));
    assert(digits_val(s1) == digits_val(s0) * 10 + (f / 100000 % 10));
    assert(f / 100000 % 10 == f / 100000) by {
        vstd::arithmetic::div_mod::lemma_small_mod((f / 100000) as nat, 10);
    }
    assert(f / 10000 == (f / 100000) * 10 + f / 10000 % 10) by {
        vstd::arithmetic::div_mod::lemma_div_denominator(f as int, 10000, 10);
        vstd::arithmetic::div_mod::lemma_fundamental_div_mod((f / 10000) as int, 10);
    }
    assert(f / 1000 == (f / 10000) * 10 + f / 1000 % 10) by {
        vstd::arithmetic::div_mod::lemma_div_denominator(f as int, 1000, 10);
        vstd::arithmetic::div_mod::lemma_fundamental_div_mod((f / 1000) as int, 10);
    }
    assert(f / 100 == (f / 1000) * 10 + f / 100 % 10) by {
        vstd::arithmetic::div_mod::lemma_div_denominator(f as int, 100, 10);
        vstd::arithmetic::div_mod::lemma_fundamental_div_mod((f / 100) as int, 10);
    }
    assert(f / 10 == (f / 100) * 10 + f / 10 % 10) by {
        vstd::arithmetic::div_mod::lemma_div_denominator(f as int, 10, 10);
        vstd::arithmetic::div_mod::lemma_fundamental_div_mod((f / 10) as int, 10);
    }
    assert(f == (f / 10) * 10 + f % 10) by {
        vstd::arithmetic::div_mod::lemma_fundamental_div_mod(f as int, 10);
    }
}

/// Rendering a fixed-point value and parsing the text back gives the
/// very value: the parameters document round-trips exactly.
pub proof fn lemma_parse_render_roundtrip(x: i64)
    ensures
        parse_fixed_spec(fixed_bytes(x as int)) == Some(x as int),
{
    let mag = if x >= 0 {
        x as int
    } else {
        -(x as int)
    };
    let ipn = (mag / 1_000_000) as nat;
    let fpn = (mag % 1_000_000) as nat;
    lemma_dec_digits_val(ipn);
    lemma_frac6_val(fpn);
    let d = dec_digits(ipn);
    let f6 = frac6(fpn);
    let body = d + seq![0x2Eu8] + f6;
    let s = fixed_bytes(x as int);
    let neg = s.len() > 0 && s[0] == 0x2D;
    assert(d[0] != 0x2D) by {
        assert(is_digit(d[0]));
    }
    assert(neg == (x < 0));
    let b = if neg {
        s.skip(1)
    } else {
        s
    };
    assert(b =~= body);
    assert forall|k: int| 0 <= k < d.len() implies body[k] != 0x2E by {
        assert(is_digit(d[k]));
        assert(body[k] == d[k]);
    }
    assert(body[d.len() as int] == 0x2E);
    lemma_find_dot_at(body, d.len() as int);
    let dot = find_dot(b);
    assert(dot == d.len());
    let ip = b.take(dot);
    let fp = b.skip(dot + 1);
    assert(ip =~= d);
    assert(fp =~= f6);
    assert(fp.len() == 6);
    assert(pow10(0) == 1);
    assert(digits_val(ip) == ipn);
    assert(digits_val(fp) == fpn);
    assert((6 - fp.len()) as nat == 0nat);
    assert(digits_val(fp) * pow10((6 - fp.len()) as nat) == fpn) by {
        assert(fpn * 1 == fpn) by (nonlinear_arith);
    }
    assert(digits_val(ip) * 1_000_000 + digits_val(fp) * pow10((6 - fp.len()) as nat) == ipn
        * 1_000_000 + fpn);
    assert(mag == 1_000_000 * (mag / 1_000_000) + mag % 1_000_000) by {
        vstd::arithmetic::div_mod::lemma_fundamental_div_mod(mag, 1_000_000);
    }
    assert(parse_fixed_spec(s) == Some(signed_val(neg, mag)));
}

/// A number below the `k`-th power of ten has at most `k` digits.
pub proof fn lemma_dec_digits_len(n: nat, k: nat)
    requires
        k >= 1,
        n < pow10(k),
    ensures
        dec_digits(n).len() <= k,
    decreases n,
{
    if n >= 10 {
        assert(pow10(k) == 10 * pow10((k - 1) as nat));
        assert(k >= 2) by {
            if k == 1 {
                assert(pow10(1) == 10 * pow10(0));
                assert(pow10(0) == 1);
            }
        }
        assert(n / 10 < pow10((k - 1) as nat)) by {
            vstd::arithmetic::div_mod::lemma_fundamental_div_mod(n as int, 10);
        }
        lemma_dec_digits_len(n / 10, (k - 1) as nat);
    }
}

/// Rendered fixed-point text never exceeds twenty-one bytes: a sign,
/// at most thirteen integer digits for a micro-scaled `i64`, the dot
/// and six fraction digits.
pub proof fn lemma_fixed_bytes_len(x: int)
    requires
        in_i64(x),
    ensures
        fixed_bytes(x).len() <= 21,
{
    let mag = if x >= 0 {
        x
    } else {
        -x
    };
    assert(pow10(0) == 1);
    assert(pow10(1) == 10);
    assert(pow10(2) == 100);
    assert(pow10(3) == 1000);
    assert(pow10(4) == 10000);
    assert(pow10(5) == 100000);
    assert(pow10(6) == 1000000);
    assert(pow10(7) == 10000000);
    assert(pow10(8) == 100000000);
    assert(pow10(9) == 1000000000);
    assert(pow10(10) == 10000000000);
    assert(pow10(11) == 100000000000);
    assert(pow10(12) == 1000000000000);
    assert(pow10(13) == 10000000000000);
    assert(((mag / 1_000_000) as nat) < pow10(13)) by {
        vstd::arithmetic::div_mod::lemma_div_pos_is_pos(mag, 1_000_000);
        vstd::arithmetic::div_mod::lemma_div_is_ordered(mag, 9_223_372_036_855_000_000,
            1_000_000);
        vstd::arithmetic::div_mod::lemma_div_multiples_vanish(9_223_372_036_855, 1_000_000);
    }
    lemma_dec_digits_len((mag / 1_000_000) as nat, 13);
}

/// A byte that can occur in a rendered number: a digit, the minus
/// sign or the dot.
pub open spec fn is_num_byte(b: u8) -> bool {
    is_digit(b) || b == 0x2D || b == 0x2E
}

/// Rendered fixed-point text consists of number bytes only.
pub proof fn lemma_fixed_bytes_num(x: int)
    ensures
        forall|k: int|
            0 <= k < fixed_bytes(x).len() ==> is_num_byte(#[trigger] fixed_bytes(x)[k]),
        fixed_bytes(x).len() >= 8,
{
    let mag = if x >= 0 {
        x
    } else {
        -x
    };
    lemma_dec_digits_val((mag / 1_000_000) as nat);
    lemma_frac6_val((mag % 1_000_000) as nat);
    let d = dec_digits((mag / 1_000_000) as nat);
    let f6 = frac6((mag % 1_000_000) as nat);
    let body = d + seq![0x2Eu8] + f6;
    assert(mag % 1_000_000 < 1_000_000);
    assert forall|k: int| 0 <= k < body.len() implies is_num_byte(#[trigger] body[k]) by {
        if k < d.len() {
            assert(is_digit(d[k]));
        } else if k > d.len() {
            assert(body[k] == f6[k - d.len() - 1]);
            assert(is_digit(f6[k - d.len() - 1]));
        }
    }
    if x < 0 {
        let s = seq![0x2Du8] + body;
        assert forall|k: int| 0 <= k < s.len() implies is_num_byte(#[trigger] s[k]) by {
            if k > 0 {
                assert(s[k] == body[k - 1]);
            }
        }
    }
}

/// Parses an unsigned decimal field: `Some` exactly when the text is
/// one or more digits denoting a value that fits a `u32`.
pub fn parse_u32_dec(s: &[u8]) -> (r: Option<u32>)
    ensures
        r is Some <==> (s@.len() > 0 && all_digits(s@) && digits_val(s@) <= u32::MAX),
        r is Some ==> r->0 == digits_val(s@),
{
    let n = s.len();
    if n == 0 {
        return None;
    }
    let mut idx: usize = 0;
    let mut acc: u64 = 0;
    let mut over: bool = false;
    while idx < n
        invariant
            n == s@.len(),
            0 <= idx <= n,
            forall|k: int| 0 <= k < idx ==> is_digit(#[trigger] s@[k]),
            !over ==> acc == digits_val(s@.subrange(0, idx as int)) && acc <= u32::MAX,
            over ==> digits_val(s@.subrange(0, idx as int)) > u32::MAX,
        decreases n - idx,
    {
        let c = s[idx];
        if c < 0x30 || c > 0x39 {
            return None;
        }
        proof {
            let pre = s@.subrange(0, idx as int);
            let post = s@.subrange(0, idx as int + 1);
            assert(post.drop_last() =~= pre);
            assert(post.last() == s@[idx as int]);
            if over {
                assert(digits_val(pre) * 10 >= digits_val(pre)) by (nonlinear_arith);
            }
        }
        if !over {
            acc = acc * 10 + ((c - 0x30) as u64);
            if acc > u32::MAX as u64 {
                over = true;
            }
        }
        idx = idx + 1;
    }
    proof {
        assert(s@.subrange(0, n as int) =~= s@);
    }
    if over {
        None
    } else {
        Some(acc as u32)
    }
}

} // verus!

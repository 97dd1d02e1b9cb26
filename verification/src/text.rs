//! Decimal text: printing and parsing of the numbers that appear on the wire.
//!
//! Integers print as plain decimals. A fixed-point tick count prints as a
//! signed decimal with six fraction digits when it is not a whole number of
//! units, so `1_500_000` ticks read `1.500000` and `-3_000_000` ticks `-3`.

use crate::domain::SCALE;
use vstd::prelude::*;

verus! {

pub open spec fn is_digit(c: char) -> bool {
    c == '0' || c == '1' || c == '2' || c == '3' || c == '4' || c == '5' || c == '6' || c == '7'
        || c == '8' || c == '9'
}

pub open spec fn digit_char(d: int) -> char {
    if d == 0 {
        '0'
    } else if d == 1 {
        '1'
    } else if d == 2 {
        '2'
    } else if d == 3 {
        '3'
    } else if d == 4 {
        '4'
    } else if d == 5 {
        '5'
    } else if d == 6 {
        '6'
    } else if d == 7 {
        '7'
    } else if d == 8 {
        '8'
    } else {
        '9'
    }
}

pub open spec fn digit_val(c: char) -> int {
    if c == '0' {
        0
    } else if c == '1' {
        1
    } else if c == '2' {
        2
    } else if c == '3' {
        3
    } else if c == '4' {
        4
    } else if c == '5' {
        5
    } else if c == '6' {
        6
    } else if c == '7' {
        7
    } else if c == '8' {
        8
    } else {
        9
    }
}

/// The decimal digit sequence of a non-negative integer.
pub open spec fn spec_digits(n: int) -> Seq<char>
    decreases n,
{
    if n < 10 {
        seq![digit_char(n)]
    } else {
        spec_digits(n / 10).push(digit_char(n % 10))
    }
}

pub open spec fn all_digits(s: Seq<char>) -> bool {
    forall|i: int| 0 <= i < s.len() ==> is_digit(#[trigger] s[i])
}

/// The value of a digit sequence read as a decimal number.
pub open spec fn digits_val(s: Seq<char>) -> int
    decreases s.len(),
{
    if s.len() == 0 {
        0
    } else {
        digits_val(s.drop_last()) * 10 + digit_val(s.last())
    }
}

/// The length of the run of digits starting at `pos`.
pub open spec fn digit_run(s: Seq<char>, pos: int) -> int
    decreases s.len() - pos,
{
    if pos < 0 || pos >= s.len() || !is_digit(s[pos]) {
        0
    } else {
        1 + digit_run(s, pos + 1)
    }
}

pub proof fn lemma_digit_char_val(d: int)
    requires
        0 <= d < 10,
    ensures
        digit_val(digit_char(d)) == d,
        is_digit(digit_char(d)),
{
}

/// The digits of `n` are digits and read back as `n`; the first digit of a
/// positive number is not zero.
pub proof fn lemma_spec_digits(n: int)
    requires
        n >= 0,
    ensures
        spec_digits(n).len() >= 1,
        all_digits(spec_digits(n)),
        digits_val(spec_digits(n)) == n,
        n >= 1 ==> spec_digits(n)[0] != '0',
        n < 10 ==> spec_digits(n).len() == 1,
    decreases n,
{
    if n < 10 {
        lemma_digit_char_val(n);
        assert(spec_digits(n) =~= seq![digit_char(n)]);
        assert(spec_digits(n).drop_last() =~= Seq::<char>::empty());
        assert(digits_val(Seq::<char>::empty()) == 0);
        assert(digits_val(spec_digits(n)) == 0 * 10 + digit_val(digit_char(n)));
    } else {
        lemma_spec_digits(n / 10);
        lemma_digit_char_val(n % 10);
        let pre = spec_digits(n / 10);
        assert(spec_digits(n) == pre.push(digit_char(n % 10)));
        assert(pre.push(digit_char(n % 10)).drop_last() =~= pre);
        assert(spec_digits(n).last() == digit_char(n % 10));
        assert(digits_val(spec_digits(n)) == (n / 10) * 10 + n % 10);
        vstd::arithmetic::div_mod::lemma_fundamental_div_mod(n, 10);
        assert(spec_digits(n)[0] == pre[0]);
    }
}

/// A run that consists of `k` digits and then stops is counted exactly.
pub proof fn lemma_digit_run_exact(s: Seq<char>, pos: int, k: int)
    requires
        0 <= pos,
        k >= 0,
        pos + k <= s.len(),
        forall|i: int| pos <= i < pos + k ==> is_digit(#[trigger] s[i]),
        pos + k == s.len() || !is_digit(s[pos + k]),
    ensures
        digit_run(s, pos) == k,
    decreases k,
{
    if k == 0 {
    } else {
        lemma_digit_run_exact(s, pos + 1, k - 1);
    }
}

/// A digit run is never negative and never reaches past the end.
pub proof fn lemma_digit_run_bound(s: Seq<char>, pos: int)
    requires
        0 <= pos <= s.len(),
    ensures
        0 <= digit_run(s, pos),
        pos + digit_run(s, pos) <= s.len(),
    decreases s.len() - pos,
{
    if pos < s.len() && is_digit(s[pos]) {
        lemma_digit_run_bound(s, pos + 1);
    }
}

pub proof fn lemma_digits_val_nonneg(s: Seq<char>)
    ensures
        digits_val(s) >= 0,
    decreases s.len(),
{
    if s.len() == 0 {
    } else {
        lemma_digits_val_nonneg(s.drop_last());
    }
}

/// Appending digits never decreases the value.
pub proof fn lemma_digits_val_mono(s: Seq<char>, t: Seq<char>)
    requires
        s.len() <= t.len(),
        t.subrange(0, s.len() as int) == s,
    ensures
        digits_val(t) >= digits_val(s),
    decreases t.len() - s.len(),
{
    if t.len() == s.len() {
        assert(t =~= s);
    } else {
        let t1 = t.drop_last();
        assert(t1.subrange(0, s.len() as int) =~= s);
        lemma_digits_val_mono(s, t1);
        lemma_digits_val_nonneg(t1);
        assert(digits_val(t) == digits_val(t1) * 10 + digit_val(t.last()));
        assert(digits_val(t1) * 10 >= digits_val(t1)) by (nonlinear_arith)
            requires digits_val(t1) >= 0;
        assert(digit_val(t.last()) >= 0);
    }
}

/// Whether the character at `pos` is a digit.
pub fn is_digit_at(s: &Vec<char>, pos: usize) -> (r: bool)
    requires
        pos < s@.len(),
    ensures
        r == is_digit(s@[pos as int]),
{
    let c = s[pos];
    c == '0' || c == '1' || c == '2' || c == '3' || c == '4' || c == '5' || c == '6' || c == '7'
        || c == '8' || c == '9'
}

/// The value of the digit `c`.
pub fn char_digit(c: char) -> (r: u64)
    requires
        is_digit(c),
    ensures
        r == digit_val(c),
        r < 10,
{
    match c {
        '0' => 0,
        '1' => 1,
        '2' => 2,
        '3' => 3,
        '4' => 4,
        '5' => 5,
        '6' => 6,
        '7' => 7,
        '8' => 8,
        _ => 9,
    }
}

/// The digit character of `d`.
pub fn digit_to_char(d: u64) -> (r: char)
    requires
        d < 10,
    ensures
        r == digit_char(d as int),
{
    match d {
        0 => '0',
        1 => '1',
        2 => '2',
        3 => '3',
        4 => '4',
        5 => '5',
        6 => '6',
        7 => '7',
        8 => '8',
        _ => '9',
    }
}

/// Appends the decimal digits of `n`.
pub fn fmt_u64(n: u64, out: &mut Vec<char>)
    ensures
        final(out)@ == old(out)@ + spec_digits(n as int),
    decreases n,
{
    if n >= 10 {
        fmt_u64(n / 10, out);
    }
    out.push(digit_to_char(n % 10));
    proof {
        if n >= 10 {
            assert(out@ =~= old(out)@ + spec_digits(n as int));
        } else {
            assert(out@ =~= old(out)@ + spec_digits(n as int));
        }
    }
}

/// Reads the run of digits starting at `pos` as a `u64`. Returns the value
/// and the position after the run, or `None` when no digit starts at `pos`
/// or the run's value does not fit.
#[verifier::loop_isolation(false)]
pub fn parse_u64(s: &Vec<char>, pos: usize) -> (r: Option<(u64, usize)>)
    requires
        pos <= s@.len(),
    ensures
        ({
            let run = digit_run(s@, pos as int);
            let val = digits_val(s@.subrange(pos as int, pos as int + run));
            match r {
                Some((v, p)) => run >= 1 && p == pos + run && v == val && p <= s@.len(),
                None => run == 0 || val > u64::MAX,
            }
        }),
{
    let ghost run = digit_run(s@, pos as int);
    let mut i: usize = pos;
    let mut acc: u64 = 0;
    proof {
        assert(s@.subrange(pos as int, pos as int) =~= Seq::<char>::empty());
    }
    while i < s.len() && is_digit_at(s, i)
        invariant
            pos <= i <= s@.len(),
            forall|j: int| pos <= j < i ==> is_digit(#[trigger] s@[j]),
            acc == digits_val(s@.subrange(pos as int, i as int)),
        decreases s@.len() - i,
    {
        let d = char_digit(s[i]);
        proof {
            assert(s@.subrange(pos as int, i as int + 1).drop_last() =~= s@.subrange(
                pos as int,
                i as int,
            ));
            assert(s@.subrange(pos as int, i as int + 1).last() == s@[i as int]);
        }
        if acc > (u64::MAX - d) / 10 {
            proof {
                lemma_digit_run_bound(s@, pos as int);
                let full = s@.subrange(pos as int, pos as int + run);
                lemma_digit_run_exact_from_scan(s@, pos as int, i as int);
                let part = s@.subrange(pos as int, i as int + 1);
                assert(digits_val(part) == acc * 10 + d);
                assert(acc * 10 + d > u64::MAX) by (nonlinear_arith)
                    requires acc > (u64::MAX - d) / 10, d < 10, acc >= 0;
                assert(i + 1 - pos <= run);
                assert(part.len() <= full.len());
                assert(full.subrange(0, part.len() as int) =~= part);
                lemma_digits_val_mono(part, full);
            }
            return None;
        }
        acc = acc * 10 + d;
        i += 1;
    }
    proof {
        lemma_digit_run_exact(s@, pos as int, i - pos);
    }
    if i == pos {
        return None;
    }
    Some((acc, i))
}

/// Powers of ten.
pub open spec fn pow10(k: nat) -> int
    decreases k,
{
    if k == 0 {
        1
    } else {
        10 * pow10((k - 1) as nat)
    }
}

pub proof fn lemma_pow10_pos(k: nat)
    ensures
        pow10(k) >= 1,
    decreases k,
{
    if k > 0 {
        lemma_pow10_pos((k - 1) as nat);
    }
}

/// The last `k` decimal digits of `m`, zero padded to width `k`.
pub open spec fn spec_pad(m: int, k: nat) -> Seq<char>
    decreases k,
{
    if k == 0 {
        Seq::empty()
    } else {
        spec_pad(m / 10, (k - 1) as nat).push(digit_char(m % 10))
    }
}

pub proof fn lemma_spec_pad(m: int, k: nat)
    requires
        m >= 0,
    ensures
        spec_pad(m, k).len() == k,
        all_digits(spec_pad(m, k)),
        digits_val(spec_pad(m, k)) == m % pow10(k),
    decreases k,
{
    if k == 0 {
        assert(pow10(0) == 1);
        assert(m % 1 == 0) by {
            vstd::arithmetic::div_mod::lemma_mod_self_0(1);
            vstd::arithmetic::div_mod::lemma_small_mod(0, 1);
            vstd::arithmetic::div_mod::lemma_fundamental_div_mod(m, 1);
        }
    } else {
        lemma_spec_pad(m / 10, (k - 1) as nat);
        lemma_digit_char_val(m % 10);
        let pre = spec_pad(m / 10, (k - 1) as nat);
        let whole = spec_pad(m, k);
        assert(whole == pre.push(digit_char(m % 10)));
        assert(whole.drop_last() =~= pre);
        assert(whole.last() == digit_char(m % 10));
        assert(digits_val(whole) == ((m / 10) % pow10((k - 1) as nat)) * 10 + m % 10);
        lemma_pow10_pos((k - 1) as nat);
        vstd::arithmetic::div_mod::lemma_mod_breakdown(m, 10, pow10((k - 1) as nat));
        assert(m % (10 * pow10((k - 1) as nat)) == 10 * ((m / 10) % pow10((k - 1) as nat)) + m
            % 10);
        assert(pow10(k) == 10 * pow10((k - 1) as nat));
    }
}

/// The textual form of a (possibly negative) integer.
pub open spec fn spec_enc_int(v: int) -> Seq<char> {
    if v < 0 {
        seq!['-'] + spec_digits(-v)
    } else {
        spec_digits(v)
    }
}

/// The textual form of a tick count: a signed decimal in units, with six
/// fraction digits when the count is not whole.
pub open spec fn spec_enc_ticks(t: int) -> Seq<char> {
    let m = if t < 0 {
        -t
    } else {
        t
    };
    let sign: Seq<char> = if t < 0 {
        seq!['-']
    } else {
        Seq::empty()
    };
    if m % (SCALE as int) == 0 {
        sign + spec_digits(m / (SCALE as int))
    } else {
        sign + spec_digits(m / (SCALE as int)) + seq!['.'] + spec_pad(m % (SCALE as int), 6)
    }
}

/// Reads an optionally signed digit run as an integer: the value and the
/// position after it.
pub open spec fn spec_parse_int(s: Seq<char>, pos: int) -> Option<(int, int)> {
    let neg = pos < s.len() && s[pos] == '-';
    let p0 = if neg {
        pos + 1
    } else {
        pos
    };
    let run = digit_run(s, p0);
    if run < 1 {
        None
    } else {
        let units = digits_val(s.subrange(p0, p0 + run));
        Some(
            (
                if neg {
                    -units
                } else {
                    units
                },
                p0 + run,
            ),
        )
    }
}

/// Reads a signed decimal with an optional fraction of up to six digits as a
/// tick count: the value and the position after it.
pub open spec fn spec_parse_ticks(s: Seq<char>, pos: int) -> Option<(int, int)> {
    let neg = pos < s.len() && s[pos] == '-';
    let p0 = if neg {
        pos + 1
    } else {
        pos
    };
    let run = digit_run(s, p0);
    if run < 1 {
        None
    } else {
        let units = digits_val(s.subrange(p0, p0 + run));
        let p1 = p0 + run;
        if p1 < s.len() && s[p1] == '.' {
            let frun = digit_run(s, p1 + 1);
            if 1 <= frun <= 6 {
                let fv = digits_val(s.subrange(p1 + 1, p1 + 1 + frun)) * pow10((6 - frun) as nat);
                let mag = units * (SCALE as int) + fv;
                Some(
                    (
                        if neg {
                            -mag
                        } else {
                            mag
                        },
                        p1 + 1 + frun,
                    ),
                )
            } else {
                None
            }
        } else {
            let mag = units * (SCALE as int);
            Some(
                (
                    if neg {
                        -mag
                    } else {
                        mag
                    },
                    p1,
                ),
            )
        }
    }
}

/// Whether a character may directly follow a number on the wire.
pub open spec fn non_numeric(c: char) -> bool {
    !is_digit(c) && c != '.'
}

/// A number's digits surrounded by arbitrary text read back as the number.
pub proof fn lemma_parse_u64_round(pre: Seq<char>, n: int, rest: Seq<char>)
    requires
        0 <= n,
        rest.len() == 0 || !is_digit(rest[0]),
    ensures
        ({
            let s = pre + spec_digits(n) + rest;
            digit_run(s, pre.len() as int) == spec_digits(n).len() as int && digits_val(
                s.subrange(pre.len() as int, pre.len() + spec_digits(n).len() as int),
            ) == n
        }),
{
    let s = pre + spec_digits(n) + rest;
    let enc = spec_digits(n);
    lemma_spec_digits(n);
    assert(s.subrange(pre.len() as int, pre.len() + enc.len() as int) =~= enc);
    assert(forall|i: int|
        pre.len() <= i < pre.len() + enc.len() as int ==> s[i] == enc[i - pre.len()]);
    if rest.len() > 0 {
        assert(s[pre.len() + enc.len() as int] == rest[0]);
    }
    lemma_digit_run_exact(s, pre.len() as int, enc.len() as int);
}

/// A tick count's text surrounded by arbitrary text reads back as the count.
pub proof fn lemma_parse_ticks_round(pre: Seq<char>, t: int, rest: Seq<char>)
    requires
        rest.len() == 0 || non_numeric(rest[0]),
    ensures
        spec_parse_ticks(pre + spec_enc_ticks(t) + rest, pre.len() as int) == Some(
            (t, pre.len() + spec_enc_ticks(t).len() as int),
        ),
{
    let s = pre + spec_enc_ticks(t) + rest;
    let enc = spec_enc_ticks(t);
    let m = if t < 0 {
        -t
    } else {
        t
    };
    let sc = SCALE as int;
    let units = m / sc;
    let fr = m % sc;
    vstd::arithmetic::div_mod::lemma_fundamental_div_mod(m, sc);
    assert(0 <= fr < sc) by {
        vstd::arithmetic::div_mod::lemma_mod_bound(m, sc);
    }
    assert(units >= 0) by {
        vstd::arithmetic::div_mod::lemma_div_pos_is_pos(m, sc);
    }
    lemma_spec_digits(units);
    let sign: Seq<char> = if t < 0 {
        seq!['-']
    } else {
        Seq::empty()
    };
    let du = spec_digits(units);
    let p0: int = pre.len() + sign.len() as int;
    if fr == 0 {
        assert(enc =~= sign + du);
        assert(s =~= pre + sign + du + rest);
        if t < 0 {
            assert(s[pre.len() as int] == '-');
        } else {
            if pre.len() < s.len() {
            }
        }
        assert(s.subrange(p0, p0 + du.len() as int) =~= du);
        assert(forall|i: int| p0 <= i < p0 + du.len() as int ==> s[i] == du[i - p0]);
        if rest.len() > 0 {
            assert(s[p0 + du.len() as int] == rest[0]);
        }
        lemma_digit_run_exact(s, p0, du.len() as int);
        assert(digit_run(s, p0) == du.len() as int);
        assert(digits_val(s.subrange(p0, p0 + du.len() as int)) == units);
        // the parser takes the integer branch: either the text ends or the
        // next character is not a dot
        if t >= 0 {
            assert(!(pre.len() < s.len() && s[pre.len() as int] == '-') || !is_digit('-') ==> true);
        }
        assert(spec_parse_ticks(s, pre.len() as int) == Some((t, pre.len() + enc.len() as int)));
    } else {
        let pad = spec_pad(fr, 6);
        lemma_spec_pad(fr, 6);
        assert(fr % pow10(6) == fr) by {
            assert(pow10(6) == 1000000) by {
                reveal_with_fuel(pow10, 7);
            }
            vstd::arithmetic::div_mod::lemma_small_mod(fr as nat, 1000000nat);
        }
        assert(enc =~= sign + du + seq!['.'] + pad);
        assert(s =~= pre + sign + du + seq!['.'] + pad + rest);
        if t < 0 {
            assert(s[pre.len() as int] == '-');
        }
        assert(s.subrange(p0, p0 + du.len() as int) =~= du);
        assert(forall|i: int| p0 <= i < p0 + du.len() as int ==> s[i] == du[i - p0]);
        assert(s[p0 + du.len() as int] == '.');
        lemma_digit_run_exact(s, p0, du.len() as int);
        let p1: int = p0 + du.len() as int;
        let p2: int = p1 + 1;
        assert(s.subrange(p2, p2 + 6) =~= pad);
        assert(forall|i: int| p2 <= i < p2 + 6 ==> s[i] == pad[i - p2]);
        if rest.len() > 0 {
            assert(s[p2 + 6] == rest[0]);
        }
        lemma_digit_run_exact(s, p2, 6);
        assert(digits_val(s.subrange(p2, p2 + 6)) == fr);
        assert(pow10(0) == 1);
        assert(digits_val(s.subrange(p2, p2 + 6)) * pow10(0) == fr);
        assert(units * sc + fr == m);
        assert(spec_parse_ticks(s, pre.len() as int) == Some((t, pre.len() + enc.len() as int)));
    }
}

/// From a scan that saw digits up to `i` and a digit at `i`, the digit run
/// from `pos` covers at least `i + 1 - pos` positions.
proof fn lemma_digit_run_exact_from_scan(s: Seq<char>, pos: int, i: int)
    requires
        0 <= pos <= i < s.len(),
        forall|j: int| pos <= j < i ==> is_digit(#[trigger] s[j]),
        is_digit(s[i]),
    ensures
        digit_run(s, pos) >= i + 1 - pos,
    decreases i - pos,
{
    lemma_digit_run_bound(s, i + 1);
    if pos == i {
    } else {
        lemma_digit_run_exact_from_scan(s, pos + 1, i);
    }
}

/// An upper bound on the value of a digit sequence: fewer digits, smaller
/// value.
pub proof fn lemma_digits_val_bound(s: Seq<char>)
    ensures
        digits_val(s) < pow10(s.len()),
    decreases s.len(),
{
    lemma_pow10_pos(s.len());
    if s.len() == 0 {
    } else {
        lemma_digits_val_bound(s.drop_last());
        let v1 = digits_val(s.drop_last());
        assert(v1 <= pow10((s.len() - 1) as nat) - 1);
        assert(v1 * 10 <= (pow10((s.len() - 1) as nat) - 1) * 10) by (nonlinear_arith)
            requires v1 <= pow10((s.len() - 1) as nat) - 1;
        assert(digit_val(s.last()) <= 9);
        assert(pow10(s.len()) == 10 * pow10((s.len() - 1) as nat));
    }
}

/// An integer's text surrounded by arbitrary text reads back as the integer.
pub proof fn lemma_parse_int_round(pre: Seq<char>, v: int, rest: Seq<char>)
    requires
        rest.len() == 0 || !is_digit(rest[0]),
    ensures
        spec_parse_int(pre + spec_enc_int(v) + rest, pre.len() as int) == Some(
            (v, pre.len() + spec_enc_int(v).len() as int),
        ),
{
    let s = pre + spec_enc_int(v) + rest;
    let enc = spec_enc_int(v);
    let m = if v < 0 { -v } else { v };
    lemma_spec_digits(m);
    let sign: Seq<char> = if v < 0 { seq!['-'] } else { Seq::empty() };
    let du = spec_digits(m);
    let p0: int = pre.len() + sign.len() as int;
    assert(enc =~= sign + du);
    if v < 0 {
        assert(s[pre.len() as int] == '-');
    }
    assert(s.subrange(p0, p0 + du.len() as int) =~= du);
    assert(forall|i: int| p0 <= i < p0 + du.len() as int ==> s[i] == du[i - p0]);
    if rest.len() > 0 {
        assert(s[p0 + du.len() as int] == rest[0]);
    }
    lemma_digit_run_exact(s, p0, du.len() as int);
    assert(spec_parse_int(s, pre.len() as int) == Some((v, pre.len() + enc.len() as int)));
}

/// Appends the decimal text of an integer.
pub fn fmt_i64(v: i64, out: &mut Vec<char>)
    ensures
        final(out)@ == old(out)@ + spec_enc_int(v as int),
{
    let mag: u64 = if v < 0 {
        ((-(v as i128)) as u64)
    } else {
        v as u64
    };
    if v < 0 {
        out.push('-');
    }
    fmt_u64(mag, out);
    proof {
        assert(out@ =~= old(out)@ + spec_enc_int(v as int));
    }
}

/// Appends the last `k` decimal digits of `m`, zero padded.
pub fn fmt_pad(m: u64, k: u64, out: &mut Vec<char>)
    ensures
        final(out)@ == old(out)@ + spec_pad(m as int, k as nat),
    decreases k,
{
    if k > 0 {
        fmt_pad(m / 10, k - 1, out);
        out.push(digit_to_char(m % 10));
    }
    proof {
        assert(out@ =~= old(out)@ + spec_pad(m as int, k as nat));
    }
}

/// Appends the decimal text of a tick count.
pub fn fmt_ticks(t: i64, out: &mut Vec<char>)
    ensures
        final(out)@ == old(out)@ + spec_enc_ticks(t as int),
{
    let mag: u64 = if t < 0 {
        ((-(t as i128)) as u64)
    } else {
        t as u64
    };
    let units: u64 = mag / 1_000_000;
    let fr: u64 = mag % 1_000_000;
    if t < 0 {
        out.push('-');
    }
    fmt_u64(units, out);
    if fr != 0 {
        out.push('.');
        fmt_pad(fr, 6, out);
    }
    proof {
        let m: int = if t < 0 { -(t as int) } else { t as int };
        assert(m == mag as int);
        assert(units as int == m / (SCALE as int));
        assert(fr as int == m % (SCALE as int));
        assert(out@ =~= old(out)@ + spec_enc_ticks(t as int));
    }
}

/// Reads an optionally signed integer, rejecting values outside `i64`.
pub fn parse_i64(s: &Vec<char>, pos: usize) -> (r: Option<(i64, usize)>)
    requires
        pos <= s@.len(),
    ensures
        match r {
            Some((v, p)) => spec_parse_int(s@, pos as int) == Some((v as int, p as int)) && p
                <= s@.len(),
            None => spec_parse_int(s@, pos as int) matches Some((v, _)) ==> !(i64::MIN <= v
                <= i64::MAX),
        },
{
    let neg = pos < s.len() && s[pos] == '-';
    let p0 = if neg {
        pos + 1
    } else {
        pos
    };
    if p0 > s.len() {
        return None;
    }
    match parse_u64(s, p0) {
        Some((units, p1)) => {
            proof {
                lemma_digit_run_bound(s@, p0 as int);
                lemma_digits_val_nonneg(
                    s@.subrange(p0 as int, p0 as int + digit_run(s@, p0 as int)),
                );
            }
            if neg {
                if units > 9_223_372_036_854_775_808u64 {
                    return None;
                }
                let v: i64 = (-(units as i128)) as i64;
                Some((v, p1))
            } else {
                if units > 9_223_372_036_854_775_807u64 {
                    return None;
                }
                Some((units as i64, p1))
            }
        },
        None => {
            proof {
                let run = digit_run(s@, p0 as int);
                if run >= 1 {
                    let val = digits_val(s@.subrange(p0 as int, p0 as int + run));
                    assert(val > u64::MAX);
                }
            }
            None
        },
    }
}

/// Reads a signed decimal with an optional fraction as a tick count,
/// rejecting values outside `i64`.
#[verifier::loop_isolation(false)]
pub fn parse_ticks(s: &Vec<char>, pos: usize) -> (r: Option<(i64, usize)>)
    requires
        pos <= s@.len(),
    ensures
        match r {
            Some((v, p)) => spec_parse_ticks(s@, pos as int) == Some((v as int, p as int)) && p
                <= s@.len(),
            None => spec_parse_ticks(s@, pos as int) matches Some((v, _)) ==> !(i64::MIN <= v
                <= i64::MAX),
        },
{
    let ghost gr = spec_parse_ticks(s@, pos as int);
    let neg = pos < s.len() && s[pos] == '-';
    let p0 = if neg {
        pos + 1
    } else {
        pos
    };
    if p0 > s.len() {
        return None;
    }
    let (units, p1) = match parse_u64(s, p0) {
        Some(x) => x,
        None => {
            proof {
                let run = digit_run(s@, p0 as int);
                lemma_digit_run_bound(s@, p0 as int);
                if run >= 1 {
                    let sub = s@.subrange(p0 as int, p0 as int + run);
                    lemma_digits_val_nonneg(sub);
                    let uv = digits_val(sub);
                    assert(uv > u64::MAX);
                    lemma_scale_up_keeps_big(uv);
                    let p1g = p0 as int + run;
                    if p1g < s@.len() && s@[p1g] == '.' {
                        let frun = digit_run(s@, p1g + 1);
                        if 1 <= frun <= 6 {
                            lemma_digit_run_bound(s@, p1g + 1);
                            let fsub = s@.subrange(p1g + 1, p1g + 1 + frun);
                            lemma_digits_val_nonneg(fsub);
                            lemma_pow10_pos((6 - frun) as nat);
                            assert(digits_val(fsub) * pow10((6 - frun) as nat) >= 0)
                                by (nonlinear_arith)
                                requires
                                    digits_val(fsub) >= 0,
                                    pow10((6 - frun) as nat) >= 1,
                            ;
                        }
                    }
                }
            }
            return None;
        },
    };
    proof {
        lemma_digit_run_bound(s@, p0 as int);
        lemma_digits_val_nonneg(s@.subrange(p0 as int, p0 as int + digit_run(s@, p0 as int)));
    }
    let mut fv: u64 = 0;
    let mut pend: usize = p1;
    if p1 < s.len() && s[p1] == '.' {
        let fstart = p1 + 1;
        let (fraw, fp) = match parse_u64(s, fstart) {
            Some(x) => x,
            None => {
                proof {
                    let frun = digit_run(s@, fstart as int);
                    lemma_digit_run_bound(s@, fstart as int);
                    if 1 <= frun <= 6 {
                        let fsub = s@.subrange(fstart as int, fstart as int + frun);
                        lemma_digits_val_bound(fsub);
                        assert(pow10(6) == 1000000) by {
                            reveal_with_fuel(pow10, 7);
                        }
                        lemma_pow10_mono(frun as nat, 6);
                        assert(digits_val(fsub) <= u64::MAX);
                    }
                }
                return None;
            },
        };
        let flen = fp - fstart;
        if flen < 1 || flen > 6 {
            return None;
        }
        proof {
            lemma_digit_run_bound(s@, fstart as int);
            let fsub = s@.subrange(fstart as int, fp as int);
            lemma_digits_val_bound(fsub);
            lemma_digits_val_nonneg(fsub);
            lemma_pow10_pos((6 - flen) as nat);
            lemma_pow10_mono(flen as nat, 6);
            assert(pow10(6) == 1000000) by {
                reveal_with_fuel(pow10, 7);
            }
            lemma_pad_product_bound(digits_val(fsub), flen as nat);
        }
        fv = fraw * pow10_u64((6 - flen) as u64);
        pend = fp;
    }
    let mag: i128 = (units as i128) * 1_000_000i128 + (fv as i128);
    if neg {
        if mag > 9_223_372_036_854_775_808i128 {
            return None;
        }
        Some(((-mag) as i64, pend))
    } else {
        if mag > 9_223_372_036_854_775_807i128 {
            return None;
        }
        Some((mag as i64, pend))
    }
}

/// Ten to the `k`, executable for `k` up to six.
pub fn pow10_u64(k: u64) -> (r: u64)
    requires
        k <= 6,
    ensures
        r as int == pow10(k as nat),
{
    proof {
        reveal_with_fuel(pow10, 7);
    }
    match k {
        0 => 1,
        1 => 10,
        2 => 100,
        3 => 1_000,
        4 => 10_000,
        5 => 100_000,
        _ => 1_000_000,
    }
}

pub proof fn lemma_pow10_mono(a: nat, b: nat)
    requires
        a <= b,
    ensures
        pow10(a) <= pow10(b),
    decreases b,
{
    if a < b {
        lemma_pow10_mono(a, (b - 1) as nat);
        lemma_pow10_pos((b - 1) as nat);
    }
}

/// A fraction of at most six digits scales below one unit.
proof fn lemma_pad_product_bound(fval: int, flen: nat)
    requires
        0 <= fval < pow10(flen),
        flen <= 6,
    ensures
        0 <= fval * pow10((6 - flen) as nat) < 1000000,
{
    lemma_pow10_pos((6 - flen) as nat);
    assert(fval * pow10((6 - flen) as nat) >= 0) by (nonlinear_arith)
        requires fval >= 0, pow10((6 - flen) as nat) >= 1;
    assert(fval * pow10((6 - flen) as nat) <= (pow10(flen) - 1) * pow10((6 - flen) as nat))
        by (nonlinear_arith)
        requires fval <= pow10(flen) - 1, pow10((6 - flen) as nat) >= 1;
    assert((pow10(flen) - 1) * pow10((6 - flen) as nat) == pow10(flen) * pow10((6 - flen) as nat)
        - pow10((6 - flen) as nat)) by (nonlinear_arith);
    lemma_pow10_adds(flen, (6 - flen) as nat);
    assert(pow10(6) == 1000000) by {
        reveal_with_fuel(pow10, 7);
    }
}

pub proof fn lemma_pow10_adds(a: nat, b: nat)
    ensures
        pow10(a) * pow10(b) == pow10((a + b) as nat),
    decreases a,
{
    if a == 0 {
        lemma_pow10_pos(b);
    } else {
        lemma_pow10_adds((a - 1) as nat, b);
        assert(pow10(a) == 10 * pow10((a - 1) as nat));
        assert((10 * pow10((a - 1) as nat)) * pow10(b) == 10 * (pow10((a - 1) as nat) * pow10(b)))
            by (nonlinear_arith);
    }
}

/// A value too large for `u64` stays too large for `i64` after scaling to
/// ticks.
proof fn lemma_scale_up_keeps_big(uv: int)
    requires
        uv > u64::MAX,
    ensures
        uv * (SCALE as int) >= uv,
        uv * (SCALE as int) > i64::MAX,
        forall|fv: int| fv >= 0 ==> #[trigger] (uv * (SCALE as int) + fv) >= uv,
{
    assert(uv * (SCALE as int) >= uv) by (nonlinear_arith)
        requires uv >= 0, SCALE as int >= 1;
    assert(uv * (SCALE as int) >= uv * 1) by (nonlinear_arith)
        requires uv >= 0, SCALE as int >= 1;
    assert(forall|fv: int|
        fv >= 0 ==> #[trigger] (uv * (SCALE as int) + fv) >= uv * (SCALE as int));
}

/// Appends `c` to `s`.
/// Relies on `String::push`: appends the given character to the end of the
/// string.
#[verifier::external_body]
pub fn push_char(s: &mut String, c: char)
    ensures
        final(s)@ == old(s)@.push(c),
{
    s.push(c);
}

/// The wire form of one character inside a quoted string: quotes and
/// backslashes carry a backslash escape, every other character stands as is.
pub open spec fn esc_char(c: char) -> Seq<char> {
    if c == '"' || c == '\\' {
        seq!['\\', c]
    } else {
        seq![c]
    }
}

/// The wire form of a string's characters.
pub open spec fn spec_escape(s: Seq<char>) -> Seq<char>
    decreases s.len(),
{
    if s.len() == 0 {
        Seq::empty()
    } else {
        spec_escape(s.drop_last()) + esc_char(s.last())
    }
}

/// The wire form of a quoted string.
pub open spec fn spec_enc_str(v: Seq<char>) -> Seq<char> {
    seq!['"'] + spec_escape(v) + seq!['"']
}

/// Reads the body of a quoted string from `pos` up to the closing quote:
/// the unescaped characters and the position after the quote.
pub open spec fn spec_parse_strbody(s: Seq<char>, pos: int) -> Option<(Seq<char>, int)>
    decreases s.len() - pos,
{
    if pos < 0 || pos >= s.len() {
        None
    } else if s[pos] == '"' {
        Some((Seq::empty(), pos + 1))
    } else if s[pos] == '\\' {
        if pos + 1 < s.len() && (s[pos + 1] == '"' || s[pos + 1] == '\\') {
            match spec_parse_strbody(s, pos + 2) {
                Some((t, p)) => Some((seq![s[pos + 1]] + t, p)),
                None => None,
            }
        } else {
            None
        }
    } else {
        match spec_parse_strbody(s, pos + 1) {
            Some((t, p)) => Some((seq![s[pos]] + t, p)),
            None => None,
        }
    }
}

/// Reads a quoted string starting at `pos`.
pub open spec fn spec_parse_str(s: Seq<char>, pos: int) -> Option<(Seq<char>, int)> {
    if 0 <= pos < s.len() && s[pos] == '"' {
        spec_parse_strbody(s, pos + 1)
    } else {
        None
    }
}

/// The escaped text starts with the escape of the first character.
proof fn lemma_escape_first(v: Seq<char>)
    requires
        v.len() > 0,
    ensures
        spec_escape(v) == esc_char(v[0]) + spec_escape(v.subrange(1, v.len() as int)),
    decreases v.len(),
{
    if v.len() == 1 {
        assert(v.drop_last() =~= Seq::<char>::empty());
        assert(v.subrange(1, v.len() as int) =~= Seq::<char>::empty());
        assert(spec_escape(v) =~= esc_char(v[0]) + spec_escape(v.subrange(1, v.len() as int)));
    } else {
        let d = v.drop_last();
        lemma_escape_first(d);
        let tail = v.subrange(1, v.len() as int);
        assert(tail.drop_last() =~= d.subrange(1, d.len() as int));
        assert(tail.last() == v.last());
        assert(spec_escape(tail) == spec_escape(tail.drop_last()) + esc_char(tail.last()));
        assert(spec_escape(v) =~= esc_char(v[0]) + spec_escape(tail));
    }
}

/// A string body followed by its closing quote reads back as the string.
proof fn lemma_parse_strbody_round(v: Seq<char>, s: Seq<char>, pos: int)
    requires
        0 <= pos,
        pos + spec_escape(v).len() + 1 <= s.len(),
        s.subrange(pos, pos + spec_escape(v).len() as int) == spec_escape(v),
        s[pos + spec_escape(v).len() as int] == '"',
    ensures
        spec_parse_strbody(s, pos) == Some((v, pos + spec_escape(v).len() + 1)),
    decreases v.len(),
{
    let esc = spec_escape(v);
    if v.len() == 0 {
        assert(esc.len() == 0);
        assert(s[pos] == '"');
        assert(spec_parse_strbody(s, pos) == Some((Seq::<char>::empty(), pos + 1)));
        assert(Seq::<char>::empty() =~= v);
    } else {
        lemma_escape_first(v);
        let tail = v.subrange(1, v.len() as int);
        let e0 = esc_char(v[0]);
        let etail = spec_escape(tail);
        assert(esc =~= e0 + etail);
        assert forall|i: int| 0 <= i < esc.len() implies s[pos + i] == esc[i] by {
            assert(esc[i] == s.subrange(pos, pos + spec_escape(v).len() as int)[i]);
        }
        if v[0] == '"' || v[0] == '\\' {
            assert(e0 =~= seq!['\\', v[0]]);
            assert((e0 + etail)[0] == e0[0]);
            assert((e0 + etail)[1] == e0[1]);
            assert(s[pos + 0] == esc[0]);
            assert(s[pos + 1] == esc[1]);
            assert(s[pos] == '\\');
            assert(s[pos + 1] == v[0]);
            assert forall|i: int|
                0 <= i < etail.len() implies s.subrange(pos + 2, pos + 2 + etail.len() as int)[i]
                == etail[i] by {
                assert((e0 + etail)[2 + i] == etail[i]);
                assert(s[pos + (2 + i)] == esc[2 + i]);
            }
            assert(s.subrange(pos + 2, pos + 2 + etail.len() as int) =~= etail);
            lemma_parse_strbody_round(tail, s, pos + 2);
            assert(seq![s[pos + 1]] + tail =~= v);
        } else {
            assert(e0 =~= seq![v[0]]);
            assert((e0 + etail)[0] == e0[0]);
            assert(s[pos + 0] == esc[0]);
            assert(s[pos] == v[0]);
            assert(s[pos] != '"' && s[pos] != '\\');
            assert forall|i: int|
                0 <= i < etail.len() implies s.subrange(pos + 1, pos + 1 + etail.len() as int)[i]
                == etail[i] by {
                assert((e0 + etail)[1 + i] == etail[i]);
                assert(s[pos + (1 + i)] == esc[1 + i]);
            }
            assert(s.subrange(pos + 1, pos + 1 + etail.len() as int) =~= etail);
            lemma_parse_strbody_round(tail, s, pos + 1);
            assert(seq![s[pos]] + tail =~= v);
        }
    }
}

/// A quoted string surrounded by arbitrary text reads back as the string.
pub proof fn lemma_parse_str_round(pre: Seq<char>, v: Seq<char>, rest: Seq<char>)
    ensures
        spec_parse_str(pre + spec_enc_str(v) + rest, pre.len() as int) == Some(
            (v, pre.len() + spec_enc_str(v).len() as int),
        ),
{
    let s = pre + spec_enc_str(v) + rest;
    let enc = spec_enc_str(v);
    let esc = spec_escape(v);
    assert(enc =~= seq!['"'] + esc + seq!['"']);
    assert forall|i: int| 0 <= i < enc.len() implies s[pre.len() + i] == enc[i] by {
        assert(s.subrange(pre.len() as int, pre.len() + enc.len() as int) =~= enc);
        assert(enc[i] == s.subrange(pre.len() as int, pre.len() + enc.len() as int)[i]);
    }
    assert(s[pre.len() as int] == '"');
    let pos = pre.len() + 1;
    assert(s.subrange(pos as int, pos + esc.len() as int) =~= esc);
    assert(s[pos + esc.len() as int] == '"');
    lemma_parse_strbody_round(v, s, pos as int);
}

/// Appends the quoted wire form of `v`.
#[verifier::loop_isolation(false)]
pub fn fmt_str(v: &str, out: &mut Vec<char>)
    ensures
        final(out)@ == old(out)@ + spec_enc_str(v@),
{
    out.push('"');
    let n = v.unicode_len();
    let mut i: usize = 0;
    proof {
        assert(spec_escape(v@.take(0)) =~= Seq::<char>::empty());
        assert(out@ =~= old(out)@ + seq!['"'] + spec_escape(v@.take(0)));
    }
    while i < n
        invariant
            0 <= i <= v@.len(),
            n == v@.len(),
            out@ == old(out)@ + seq!['"'] + spec_escape(v@.take(i as int)),
        decreases n - i,
    {
        let c = v.get_char(i);
        if c == '"' || c == '\\' {
            out.push('\\');
        }
        out.push(c);
        i += 1;
        proof {
            assert(v@.take(i as int).drop_last() =~= v@.take(i as int - 1));
            assert(v@.take(i as int).last() == v@[i as int - 1]);
            assert(out@ =~= old(out)@ + seq!['"'] + spec_escape(v@.take(i as int)));
        }
    }
    out.push('"');
    proof {
        assert(v@.take(v@.len() as int) =~= v@);
        assert(out@ =~= old(out)@ + spec_enc_str(v@));
    }
}

/// Reads a quoted string starting at `pos`.
#[verifier::loop_isolation(false)]
pub fn parse_string(s: &Vec<char>, pos: usize) -> (r: Option<(String, usize)>)
    requires
        pos <= s@.len(),
    ensures
        match r {
            Some((t, p)) => spec_parse_str(s@, pos as int) == Some((t@, p as int)) && p
                <= s@.len(),
            None => spec_parse_str(s@, pos as int) is None,
        },
{
    if pos >= s.len() {
        return None;
    }
    if s[pos] != '"' {
        return None;
    }
    let mut cur: usize = pos + 1;
    let mut out = String::new();
    while cur < s.len()
        invariant
            pos + 1 <= cur <= s@.len(),
            spec_parse_strbody(s@, pos as int + 1) == (match spec_parse_strbody(s@, cur as int) {
                Some((t, p)) => Some((out@ + t, p)),
                None => None::<(Seq<char>, int)>,
            }),
        decreases s@.len() - cur,
    {
        let c = s[cur];
        if c == '"' {
            proof {
                assert(spec_parse_strbody(s@, cur as int) == Some(
                    (Seq::<char>::empty(), cur as int + 1),
                ));
                assert(out@ + Seq::<char>::empty() =~= out@);
            }
            return Some((out, cur + 1));
        } else if c == '\\' {
            if cur + 1 >= s.len() {
                return None;
            }
            let c2 = s[cur + 1];
            if c2 == '"' || c2 == '\\' {
                let ghost out0 = out@;
                push_char(&mut out, c2);
                proof {
                    assert(forall|t: Seq<char>| out0 + (seq![c2] + t) =~= out@ + t);
                }
                cur = cur + 2;
            } else {
                return None;
            }
        } else {
            let ghost out0 = out@;
            push_char(&mut out, c);
            proof {
                assert(forall|t: Seq<char>| out0 + (seq![c] + t) =~= out@ + t);
            }
            cur = cur + 1;
        }
    }
    None
}

} // verus!

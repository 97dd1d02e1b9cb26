//! The JSON wire format of the protocol messages.
//!
//! Every message is one JSON object in a fixed canonical shape: keys in
//! declaration order, no spaces, numbers as plain decimals (ticks with up to
//! six fraction digits), strings quoted with backslash escapes for quotes and
//! backslashes. The decoder reads exactly this canonical shape; decoding an
//! encoded message gives the message back, which `lemma_*_round` state and
//! prove piece by piece.

use vstd::seq_lib::lemma_concat_associative;
use crate::text::{
    digit_run, digits_val, is_digit, lemma_digit_run_bound, lemma_digits_val_nonneg,
    lemma_parse_str_round, lemma_parse_ticks_round, lemma_parse_u64_round, non_numeric,
    parse_string, parse_ticks, parse_u64, spec_digits, spec_enc_str, spec_enc_ticks,
    spec_parse_str, spec_parse_ticks,
};
use vstd::prelude::*;

verus! {

/// Whether the text `t` stands in `s` at position `pos`.
pub open spec fn at(s: Seq<char>, pos: int, t: Seq<char>) -> bool {
    0 <= pos && pos + t.len() <= s.len() && s.subrange(pos, pos + t.len() as int) == t
}

/// Checks that the literal `lit` stands at `pos` and returns the position
/// after it.
#[verifier::loop_isolation(false)]
pub fn expect(s: &Vec<char>, pos: usize, lit: &str) -> (r: Option<usize>)
    requires
        pos <= s@.len(),
    ensures
        match r {
            Some(p) => at(s@, pos as int, lit@) && p == pos + lit@.len(),
            None => !at(s@, pos as int, lit@),
        },
{
    let n = lit.unicode_len();
    if n > s.len() - pos {
        return None;
    }
    let mut i: usize = 0;
    while i < n
        invariant
            0 <= i <= n,
            n == lit@.len(),
            pos + n <= s@.len(),
            forall|j: int| 0 <= j < i ==> s@[pos + j] == lit@[j],
        decreases n - i,
    {
        if s[pos + i] != lit.get_char(i) {
            proof {
                assert(s@.subrange(pos as int, pos + lit@.len() as int)[i as int] != lit@[i as int]);
            }
            return None;
        }
        i += 1;
    }
    proof {
        assert(s@.subrange(pos as int, pos + lit@.len() as int) =~= lit@);
    }
    Some(pos + n)
}

/// Appends the literal `lit`.
#[verifier::loop_isolation(false)]
pub fn append_lit(out: &mut Vec<char>, lit: &str)
    ensures
        final(out)@ == old(out)@ + lit@,
{
    let n = lit.unicode_len();
    let mut i: usize = 0;
    while i < n
        invariant
            0 <= i <= n,
            n == lit@.len(),
            out@ == old(out)@ + lit@.take(i as int),
        decreases n - i,
    {
        out.push(lit.get_char(i));
        i += 1;
        proof {
            assert(out@ =~= old(out)@ + lit@.take(i as int));
        }
    }
    proof {
        assert(lit@.take(n as int) =~= lit@);
    }
}

/// Reads an unsigned decimal that fits a `u64`: the value and the position
/// after it.
pub open spec fn spec_dec_u64(s: Seq<char>, pos: int) -> Option<(int, int)> {
    let run = digit_run(s, pos);
    let val = digits_val(s.subrange(pos, pos + run));
    if run >= 1 && val <= u64::MAX {
        Some((val, pos + run))
    } else {
        None
    }
}

/// Reads a tick count that fits an `i64`.
pub open spec fn spec_dec_ticks(s: Seq<char>, pos: int) -> Option<(int, int)> {
    match spec_parse_ticks(s, pos) {
        Some((v, p)) => if i64::MIN <= v <= i64::MAX {
            Some((v, p))
        } else {
            None
        },
        None => None,
    }
}

/// An encoded `u64` surrounded by text reads back as itself.
pub proof fn lemma_dec_u64_round(pre: Seq<char>, n: int, rest: Seq<char>)
    requires
        0 <= n <= u64::MAX,
        rest.len() == 0 || !is_digit(rest[0]),
    ensures
        spec_dec_u64(pre + spec_digits(n) + rest, pre.len() as int) == Some(
            (n, pre.len() + spec_digits(n).len() as int),
        ),
{
    lemma_parse_u64_round(pre, n, rest);
}

/// An encoded tick count surrounded by text reads back as itself.
pub proof fn lemma_dec_ticks_round(pre: Seq<char>, t: int, rest: Seq<char>)
    requires
        i64::MIN <= t <= i64::MAX,
        rest.len() == 0 || non_numeric(rest[0]),
    ensures
        spec_dec_ticks(pre + spec_enc_ticks(t) + rest, pre.len() as int) == Some(
            (t, pre.len() + spec_enc_ticks(t).len() as int),
        ),
{
    lemma_parse_ticks_round(pre, t, rest);
}

/// Splitting a concatenation around one piece: the piece stands at its
/// offset.
pub proof fn lemma_at_concat(pre: Seq<char>, mid: Seq<char>, rest: Seq<char>)
    ensures
        at(pre + mid + rest, pre.len() as int, mid),
        forall|i: int| 0 <= i < mid.len() ==> (pre + mid + rest)[pre.len() + i] == mid[i],
        forall|i: int| 0 <= i < rest.len() ==> (pre + mid + rest)[pre.len() + mid.len() + i]
            == rest[i],
{
    let s = pre + mid + rest;
    assert(s.subrange(pre.len() as int, pre.len() + mid.len() as int) =~= mid);
}

/// The wire form of the items of a non-empty objective vector.
pub open spec fn spec_enc_values_items(v: Seq<int>) -> Seq<char>
    decreases v.len(),
{
    if v.len() <= 1 {
        spec_enc_ticks(v[0])
    } else {
        spec_enc_ticks(v[0]) + seq![','] + spec_enc_values_items(v.subrange(1, v.len() as int))
    }
}

/// The wire form of an objective vector.
pub open spec fn spec_enc_values(v: Seq<int>) -> Seq<char> {
    if v.len() == 0 {
        seq!['[', ']']
    } else {
        seq!['['] + spec_enc_values_items(v) + seq![']']
    }
}

/// Reads the items of a non-empty objective vector up to and including the
/// closing bracket.
pub open spec fn spec_dec_values_items(s: Seq<char>, pos: int) -> Option<(Seq<int>, int)>
    decreases s.len() - pos,
{
    match spec_dec_ticks(s, pos) {
        None => None,
        Some((v, p)) => if 0 <= p < s.len() {
            if s[p] == ']' {
                Some((seq![v], p + 1))
            } else if s[p] == ',' && pos < p && p + 1 <= s.len() {
                match spec_dec_values_items(s, p + 1) {
                    Some((tl, q)) => Some((seq![v] + tl, q)),
                    None => None,
                }
            } else {
                None
            }
        } else {
            None
        },
    }
}

/// Reads an objective vector.
pub open spec fn spec_dec_values(s: Seq<char>, pos: int) -> Option<(Seq<int>, int)> {
    if 0 <= pos < s.len() && s[pos] == '[' {
        if pos + 1 < s.len() && s[pos + 1] == ']' {
            Some((Seq::empty(), pos + 2))
        } else {
            spec_dec_values_items(s, pos + 1)
        }
    } else {
        None
    }
}

/// Every tick count of the vector fits an `i64`.
pub open spec fn ticks_fit(v: Seq<int>) -> bool {
    forall|i: int| 0 <= i < v.len() ==> i64::MIN <= #[trigger] v[i] <= i64::MAX
}

#[verifier::rlimit(100)]
#[verifier::spinoff_prover]
proof fn lemma_values_items_round(pre: Seq<char>, v: Seq<int>, rest: Seq<char>)
    requires
        v.len() >= 1,
        ticks_fit(v),
    ensures
        spec_dec_values_items(pre + spec_enc_values_items(v) + seq![']'] + rest, pre.len() as int)
            == Some((v, pre.len() + spec_enc_values_items(v).len() as int + 1)),
    decreases v.len(),
{
    let enc = spec_enc_values_items(v);
    let s = pre + enc + seq![']'] + rest;
    if v.len() == 1 {
        let e0 = spec_enc_ticks(v[0]);
        assert(enc == e0);
        let rest2 = seq![']'] + rest;
        assert(s =~= pre + e0 + rest2);
        lemma_dec_ticks_round(pre, v[0], rest2);
        let p = pre.len() + e0.len() as int;
        assert(s[p] == ']') by {
            lemma_at_concat(pre + e0, rest2, Seq::empty());
            assert(pre + e0 + rest2 + Seq::<char>::empty() =~= s);
            assert((pre + e0 + rest2)[p + 0] == rest2[0]);
        }
        assert(seq![v[0]] =~= v);
    } else {
        let e0 = spec_enc_ticks(v[0]);
        let tail = v.subrange(1, v.len() as int);
        let etail = spec_enc_values_items(tail);
        assert(enc == e0 + seq![','] + etail);
        let rest2 = seq![','] + etail + seq![']'] + rest;
        assert(s =~= pre + e0 + rest2);
        lemma_dec_ticks_round(pre, v[0], rest2);
        let p = pre.len() + e0.len() as int;
        assert(s[p] == ',') by {
            assert((pre + e0 + rest2)[p + 0] == rest2[0]) by {
                lemma_at_concat(pre + e0, rest2, Seq::empty());
                assert(pre + e0 + rest2 + Seq::<char>::empty() =~= pre + e0 + rest2);
            }
        }
        let pre2 = pre + e0 + seq![','];
        assert(s =~= pre2 + etail + seq![']'] + rest);
        assert(forall|i: int| 0 <= i < tail.len() ==> tail[i] == v[i + 1]);
        lemma_values_items_round(pre2, tail, rest);
        assert(spec_dec_values_items(s, pre2.len() as int) == Some(
            (tail, pre2.len() + etail.len() as int + 1),
        ));
        assert(seq![v[0]] + tail =~= v);
        assert(pre2.len() == p + 1);
    }
}

/// An encoded objective vector surrounded by text reads back as itself.
#[verifier::rlimit(100)]
#[verifier::spinoff_prover]
pub proof fn lemma_values_round(pre: Seq<char>, v: Seq<int>, rest: Seq<char>)
    requires
        ticks_fit(v),
    ensures
        spec_dec_values(pre + spec_enc_values(v) + rest, pre.len() as int) == Some(
            (v, pre.len() + spec_enc_values(v).len() as int),
        ),
{
    let enc = spec_enc_values(v);
    let s = pre + enc + rest;
    lemma_at_concat(pre, enc, rest);
    assert(s[pre.len() as int] == enc[0]);
    if v.len() == 0 {
        assert(enc =~= seq!['[', ']']);
        assert(s[pre.len() as int + 1] == enc[1]);
        assert(Seq::<int>::empty() =~= v);
    } else {
        assert(enc =~= seq!['['] + spec_enc_values_items(v) + seq![']']);
        let pre2 = pre + seq!['['];
        assert(s =~= pre2 + spec_enc_values_items(v) + seq![']'] + rest);
        lemma_values_items_round(pre2, v, rest);
        // the branch for the empty vector is not taken: the first item starts
        // with a minus sign or a digit, never a bracket
        assert(s[pre.len() as int + 1] == spec_enc_values_items(v)[0]) by {
            lemma_at_concat(pre2, spec_enc_values_items(v), seq![']'] + rest);
            assert(pre2 + spec_enc_values_items(v) + (seq![']'] + rest) =~= s);
        }
        assert(spec_enc_values_items(v)[0] == spec_enc_ticks(v[0])[0]) by {
            if v.len() > 1 {
                lemma_at_concat(
                    Seq::empty(),
                    spec_enc_ticks(v[0]),
                    seq![','] + spec_enc_values_items(v.subrange(1, v.len() as int)),
                );
                assert(Seq::<char>::empty() + spec_enc_ticks(v[0]) + (seq![',']
                    + spec_enc_values_items(v.subrange(1, v.len() as int))) =~= spec_enc_values_items(
                    v,
                ));
                assert(spec_enc_ticks(v[0]).len() >= 1) by {
                    lemma_enc_ticks_len(v[0]);
                }
            }
        }
        assert(spec_enc_ticks(v[0])[0] != ']') by {
            lemma_enc_ticks_first(v[0]);
        }
    }
}

/// The text of a tick count is non-empty and starts with a minus sign or a
/// digit.
pub proof fn lemma_enc_ticks_first(t: int)
    ensures
        spec_enc_ticks(t).len() >= 1,
        spec_enc_ticks(t)[0] == '-' || is_digit(spec_enc_ticks(t)[0]),
{
    let m = if t < 0 {
        -t
    } else {
        t
    };
    let sc = crate::domain::SCALE as int;
    assert(m >= 0);
    let units = m / sc;
    assert(units >= 0) by {
        vstd::arithmetic::div_mod::lemma_div_pos_is_pos(m, sc);
    }
    crate::text::lemma_spec_digits(units);
    let du = spec_digits(units);
    if t < 0 {
        if m % sc == 0 {
            assert(spec_enc_ticks(t) =~= seq!['-'] + du);
        } else {
            assert(spec_enc_ticks(t) =~= seq!['-'] + du + seq!['.'] + crate::text::spec_pad(
                m % sc,
                6,
            ));
        }
        assert(spec_enc_ticks(t)[0] == '-');
    } else {
        if m % sc == 0 {
            assert(spec_enc_ticks(t) =~= du);
        } else {
            assert(spec_enc_ticks(t) =~= du + seq!['.'] + crate::text::spec_pad(m % sc, 6));
        }
        assert(spec_enc_ticks(t)[0] == du[0]);
        assert(is_digit(du[0]));
    }
}

pub proof fn lemma_enc_ticks_len(t: int)
    ensures
        spec_enc_ticks(t).len() >= 1,
{
    lemma_enc_ticks_first(t);
}

/// Reads an integer that fits an `i64`.
pub open spec fn spec_dec_int(s: Seq<char>, pos: int) -> Option<(int, int)> {
    match crate::text::spec_parse_int(s, pos) {
        Some((v, p)) => if i64::MIN <= v <= i64::MAX {
            Some((v, p))
        } else {
            None
        },
        None => None,
    }
}


/// The wire form of one parameter entry: `null` for an inactive conditional
/// parameter, a tick count otherwise.
pub open spec fn spec_enc_param(p: Option<int>) -> Seq<char> {
    match p {
        None => seq!['n', 'u', 'l', 'l'],
        Some(t) => spec_enc_ticks(t),
    }
}

/// Reads one parameter entry.
pub open spec fn spec_dec_param(s: Seq<char>, pos: int) -> Option<(Option<int>, int)> {
    if at(s, pos, seq!['n', 'u', 'l', 'l']) {
        Some((None, pos + 4))
    } else {
        match spec_dec_ticks(s, pos) {
            Some((t, p)) => Some((Some(t), p)),
            None => None,
        }
    }
}

/// The wire form of the items of a non-empty parameter vector.
pub open spec fn spec_enc_params_items(v: Seq<Option<int>>) -> Seq<char>
    decreases v.len(),
{
    if v.len() <= 1 {
        spec_enc_param(v[0])
    } else {
        spec_enc_param(v[0]) + seq![','] + spec_enc_params_items(v.subrange(1, v.len() as int))
    }
}

/// The wire form of a parameter vector.
pub open spec fn spec_enc_params(v: Seq<Option<int>>) -> Seq<char> {
    if v.len() == 0 {
        seq!['[', ']']
    } else {
        seq!['['] + spec_enc_params_items(v) + seq![']']
    }
}

/// Reads the items of a non-empty parameter vector up to and including the
/// closing bracket.
pub open spec fn spec_dec_params_items(s: Seq<char>, pos: int) -> Option<(Seq<Option<int>>, int)>
    decreases s.len() - pos,
{
    match spec_dec_param(s, pos) {
        None => None,
        Some((v, p)) => if 0 <= p < s.len() {
            if s[p] == ']' {
                Some((seq![v], p + 1))
            } else if s[p] == ',' && pos < p && p + 1 <= s.len() {
                match spec_dec_params_items(s, p + 1) {
                    Some((tl, q)) => Some((seq![v] + tl, q)),
                    None => None,
                }
            } else {
                None
            }
        } else {
            None
        },
    }
}

/// Reads a parameter vector.
pub open spec fn spec_dec_params(s: Seq<char>, pos: int) -> Option<(Seq<Option<int>>, int)> {
    if 0 <= pos < s.len() && s[pos] == '[' {
        if pos + 1 < s.len() && s[pos + 1] == ']' {
            Some((Seq::empty(), pos + 2))
        } else {
            spec_dec_params_items(s, pos + 1)
        }
    } else {
        None
    }
}

/// Every active tick count of the vector fits an `i64`.
pub open spec fn params_fit(v: Seq<Option<int>>) -> bool {
    forall|i: int|
        0 <= i < v.len() ==> match #[trigger] v[i] {
            Some(t) => i64::MIN <= t <= i64::MAX,
            None => true,
        }
}

/// An encoded parameter entry surrounded by text reads back as itself.
proof fn lemma_param_round(pre: Seq<char>, v: Option<int>, rest: Seq<char>)
    requires
        (v matches Some(t) ==> i64::MIN <= t <= i64::MAX),
        rest.len() == 0 || non_numeric(rest[0]),
    ensures
        spec_dec_param(pre + spec_enc_param(v) + rest, pre.len() as int) == Some(
            (v, pre.len() + spec_enc_param(v).len() as int),
        ),
{
    let enc = spec_enc_param(v);
    let s = pre + enc + rest;
    lemma_at_concat(pre, enc, rest);
    match v {
        None => {
            assert(at(s, pre.len() as int, seq!['n', 'u', 'l', 'l']));
        },
        Some(t) => {
            lemma_dec_ticks_round(pre, t, rest);
            // the entry does not read as `null`: a tick count starts with a
            // minus sign or a digit
            lemma_enc_ticks_first(t);
            assert(s[pre.len() as int] == enc[0]);
            if at(s, pre.len() as int, seq!['n', 'u', 'l', 'l']) {
                assert(s.subrange(pre.len() as int, pre.len() as int + 4)[0] == 'n');
                assert(s[pre.len() as int] == 'n');
                assert(enc[0] != 'n');
            }
        },
    }
}

#[verifier::rlimit(100)]
#[verifier::spinoff_prover]
proof fn lemma_params_items_round(pre: Seq<char>, v: Seq<Option<int>>, rest: Seq<char>)
    requires
        v.len() >= 1,
        params_fit(v),
    ensures
        spec_dec_params_items(pre + spec_enc_params_items(v) + seq![']'] + rest, pre.len() as int)
            == Some((v, pre.len() + spec_enc_params_items(v).len() as int + 1)),
    decreases v.len(),
{
    let enc = spec_enc_params_items(v);
    let s = pre + enc + seq![']'] + rest;
    if v.len() == 1 {
        let e0 = spec_enc_param(v[0]);
        assert(enc == e0);
        let rest2 = seq![']'] + rest;
        assert(s =~= pre + e0 + rest2);
        lemma_param_round(pre, v[0], rest2);
        let p = pre.len() + e0.len() as int;
        assert(s[p] == ']') by {
            lemma_at_concat(pre + e0, rest2, Seq::empty());
            assert(pre + e0 + rest2 + Seq::<char>::empty() =~= s);
            assert((pre + e0 + rest2)[p + 0] == rest2[0]);
        }
        assert(seq![v[0]] =~= v);
    } else {
        let e0 = spec_enc_param(v[0]);
        let tail = v.subrange(1, v.len() as int);
        let etail = spec_enc_params_items(tail);
        assert(enc == e0 + seq![','] + etail);
        let rest2 = seq![','] + etail + seq![']'] + rest;
        assert(s =~= pre + e0 + rest2);
        lemma_param_round(pre, v[0], rest2);
        let p = pre.len() + e0.len() as int;
        assert(s[p] == ',') by {
            assert((pre + e0 + rest2)[p + 0] == rest2[0]) by {
                lemma_at_concat(pre + e0, rest2, Seq::empty());
                assert(pre + e0 + rest2 + Seq::<char>::empty() =~= pre + e0 + rest2);
            }
        }
        let pre2 = pre + e0 + seq![','];
        assert(s =~= pre2 + etail + seq![']'] + rest);
        assert(forall|i: int| 0 <= i < tail.len() ==> tail[i] == v[i + 1]);
        lemma_params_items_round(pre2, tail, rest);
        assert(seq![v[0]] + tail =~= v);
        assert(pre2.len() == p + 1);
    }
}

/// The text of a parameter entry is non-empty and never starts with a
/// bracket.
proof fn lemma_enc_param_first(v: Option<int>)
    ensures
        spec_enc_param(v).len() >= 1,
        spec_enc_param(v)[0] != '[',
        spec_enc_param(v)[0] != ']',
{
    match v {
        None => {},
        Some(t) => {
            lemma_enc_ticks_first(t);
        },
    }
}

/// An encoded parameter vector surrounded by text reads back as itself.
#[verifier::rlimit(100)]
#[verifier::spinoff_prover]
pub proof fn lemma_params_round(pre: Seq<char>, v: Seq<Option<int>>, rest: Seq<char>)
    requires
        params_fit(v),
    ensures
        spec_dec_params(pre + spec_enc_params(v) + rest, pre.len() as int) == Some(
            (v, pre.len() + spec_enc_params(v).len() as int),
        ),
{
    let enc = spec_enc_params(v);
    let s = pre + enc + rest;
    lemma_at_concat(pre, enc, rest);
    assert(s[pre.len() as int] == enc[0]);
    if v.len() == 0 {
        assert(enc =~= seq!['[', ']']);
        assert(s[pre.len() as int + 1] == enc[1]);
        assert(Seq::<Option<int>>::empty() =~= v);
    } else {
        assert(enc =~= seq!['['] + spec_enc_params_items(v) + seq![']']);
        let pre2 = pre + seq!['['];
        assert(s =~= pre2 + spec_enc_params_items(v) + seq![']'] + rest);
        lemma_params_items_round(pre2, v, rest);
        assert(s[pre.len() as int + 1] == spec_enc_params_items(v)[0]) by {
            lemma_at_concat(pre2, spec_enc_params_items(v), seq![']'] + rest);
            assert(pre2 + spec_enc_params_items(v) + (seq![']'] + rest) =~= s);
        }
        assert(spec_enc_params_items(v)[0] == spec_enc_param(v[0])[0]) by {
            if v.len() > 1 {
                lemma_at_concat(
                    Seq::empty(),
                    spec_enc_param(v[0]),
                    seq![','] + spec_enc_params_items(v.subrange(1, v.len() as int)),
                );
                assert(Seq::<char>::empty() + spec_enc_param(v[0]) + (seq![',']
                    + spec_enc_params_items(v.subrange(1, v.len() as int)))
                    =~= spec_enc_params_items(v));
                lemma_enc_param_first(v[0]);
            }
        }
        lemma_enc_param_first(v[0]);
    }
}

/// The wire form of the items of a non-empty list of strings.
pub open spec fn spec_enc_strs_items(v: Seq<Seq<char>>) -> Seq<char>
    decreases v.len(),
{
    if v.len() <= 1 {
        spec_enc_str(v[0])
    } else {
        spec_enc_str(v[0]) + seq![','] + spec_enc_strs_items(v.subrange(1, v.len() as int))
    }
}

/// The wire form of a list of strings.
pub open spec fn spec_enc_strs(v: Seq<Seq<char>>) -> Seq<char> {
    if v.len() == 0 {
        seq!['[', ']']
    } else {
        seq!['['] + spec_enc_strs_items(v) + seq![']']
    }
}

/// Reads the items of a non-empty list of strings up to and including the
/// closing bracket.
pub open spec fn spec_dec_strs_items(s: Seq<char>, pos: int) -> Option<(Seq<Seq<char>>, int)>
    decreases s.len() - pos,
{
    match spec_parse_str(s, pos) {
        None => None,
        Some((v, p)) => if 0 <= p < s.len() {
            if s[p] == ']' {
                Some((seq![v], p + 1))
            } else if s[p] == ',' && pos < p && p + 1 <= s.len() {
                match spec_dec_strs_items(s, p + 1) {
                    Some((tl, q)) => Some((seq![v] + tl, q)),
                    None => None,
                }
            } else {
                None
            }
        } else {
            None
        },
    }
}

/// Reads a list of strings.
pub open spec fn spec_dec_strs(s: Seq<char>, pos: int) -> Option<(Seq<Seq<char>>, int)> {
    if 0 <= pos < s.len() && s[pos] == '[' {
        if pos + 1 < s.len() && s[pos + 1] == ']' {
            Some((Seq::empty(), pos + 2))
        } else {
            spec_dec_strs_items(s, pos + 1)
        }
    } else {
        None
    }
}

/// The wire form of the entries of a non-empty attribute map.
pub open spec fn spec_enc_attrs_items(v: Seq<(Seq<char>, Seq<char>)>) -> Seq<char>
    decreases v.len(),
{
    if v.len() <= 1 {
        spec_enc_str(v[0].0) + seq![':'] + spec_enc_str(v[0].1)
    } else {
        spec_enc_str(v[0].0) + seq![':'] + spec_enc_str(v[0].1) + seq![','] + spec_enc_attrs_items(
            v.subrange(1, v.len() as int),
        )
    }
}

/// The wire form of an attribute map.
pub open spec fn spec_enc_attrs(v: Seq<(Seq<char>, Seq<char>)>) -> Seq<char> {
    if v.len() == 0 {
        seq!['{', '}']
    } else {
        seq!['{'] + spec_enc_attrs_items(v) + seq!['}']
    }
}

/// Reads the entries of a non-empty attribute map up to and including the
/// closing brace.
pub open spec fn spec_dec_attrs_items(s: Seq<char>, pos: int) -> Option<
    (Seq<(Seq<char>, Seq<char>)>, int),
>
    decreases s.len() - pos,
{
    match spec_parse_str(s, pos) {
        None => None,
        Some((k, p)) => if 0 <= p < s.len() && s[p] == ':' {
            match spec_parse_str(s, p + 1) {
                None => None,
                Some((val, q)) => if 0 <= q < s.len() {
                    if s[q] == '}' {
                        Some((seq![(k, val)], q + 1))
                    } else if s[q] == ',' && pos < q && q + 1 <= s.len() {
                        match spec_dec_attrs_items(s, q + 1) {
                            Some((tl, r)) => Some((seq![(k, val)] + tl, r)),
                            None => None,
                        }
                    } else {
                        None
                    }
                } else {
                    None
                },
            }
        } else {
            None
        },
    }
}

/// Reads an attribute map.
pub open spec fn spec_dec_attrs(s: Seq<char>, pos: int) -> Option<
    (Seq<(Seq<char>, Seq<char>)>, int),
> {
    if 0 <= pos < s.len() && s[pos] == '{' {
        if pos + 1 < s.len() && s[pos + 1] == '}' {
            Some((Seq::empty(), pos + 2))
        } else {
            spec_dec_attrs_items(s, pos + 1)
        }
    } else {
        None
    }
}

/// The wire name of a distribution.
pub open spec fn spec_enc_distribution(d: crate::domain::Distribution) -> Seq<char> {
    match d {
        crate::domain::Distribution::Uniform => "\"UNIFORM\""@,
        crate::domain::Distribution::LogUniform => "\"LOG_UNIFORM\""@,
    }
}

/// Reads a distribution name.
pub open spec fn spec_dec_distribution(s: Seq<char>, pos: int) -> Option<
    (crate::domain::Distribution, int),
> {
    if at(s, pos, "\"UNIFORM\""@) {
        Some((crate::domain::Distribution::Uniform, pos + "\"UNIFORM\""@.len() as int))
    } else if at(s, pos, "\"LOG_UNIFORM\""@) {
        Some((crate::domain::Distribution::LogUniform, pos + "\"LOG_UNIFORM\""@.len() as int))
    } else {
        None
    }
}

/// The wire name of an error kind.
pub open spec fn spec_enc_error_kind(k: crate::ErrorKind) -> Seq<char> {
    match k {
        crate::ErrorKind::InvalidInput => "\"INVALID_INPUT\""@,
        crate::ErrorKind::IoError => "\"IO_ERROR\""@,
        crate::ErrorKind::Unevaluable => "\"UNEVALUABLE\""@,
        crate::ErrorKind::Bug => "\"BUG\""@,
        crate::ErrorKind::Other => "\"OTHER\""@,
    }
}

/// Reads an error kind name.
pub open spec fn spec_dec_error_kind(s: Seq<char>, pos: int) -> Option<(crate::ErrorKind, int)> {
    if at(s, pos, "\"INVALID_INPUT\""@) {
        Some((crate::ErrorKind::InvalidInput, pos + "\"INVALID_INPUT\""@.len() as int))
    } else if at(s, pos, "\"IO_ERROR\""@) {
        Some((crate::ErrorKind::IoError, pos + "\"IO_ERROR\""@.len() as int))
    } else if at(s, pos, "\"UNEVALUABLE\""@) {
        Some((crate::ErrorKind::Unevaluable, pos + "\"UNEVALUABLE\""@.len() as int))
    } else if at(s, pos, "\"BUG\""@) {
        Some((crate::ErrorKind::Bug, pos + "\"BUG\""@.len() as int))
    } else if at(s, pos, "\"OTHER\""@) {
        Some((crate::ErrorKind::Other, pos + "\"OTHER\""@.len() as int))
    } else {
        None
    }
}

/// The wire form of a condition.
pub open spec fn spec_enc_condition(c: crate::domain::ConditionView) -> Seq<char> {
    "{\"EQ\":{\"target\":"@ + spec_enc_str(c.target) + ",\"value\":"@ + spec_enc_ticks(c.value)
        + "}}"@
}

/// Reads a condition.
pub open spec fn spec_dec_condition(s: Seq<char>, pos: int) -> Option<
    (crate::domain::ConditionView, int),
> {
    if at(s, pos, "{\"EQ\":{\"target\":"@) {
        match spec_parse_str(s, pos + "{\"EQ\":{\"target\":"@.len() as int) {
            None => None,
            Some((target, p)) => if at(s, p, ",\"value\":"@) {
                match spec_dec_ticks(s, p + ",\"value\":"@.len() as int) {
                    None => None,
                    Some((value, q)) => if at(s, q, "}}"@) {
                        Some((crate::domain::ConditionView { target, value }, q + 2))
                    } else {
                        None
                    },
                }
            } else {
                None
            },
        }
    } else {
        None
    }
}

/// The wire form of a range.
pub open spec fn spec_enc_range(r: crate::domain::RangeView) -> Seq<char> {
    match r {
        crate::domain::RangeView::Continuous { low, high } => "{\"CONTINUOUS\":{\"low\":"@
            + spec_enc_ticks(low) + ",\"high\":"@ + spec_enc_ticks(high) + "}}"@,
        crate::domain::RangeView::Discrete { low, high } => "{\"DISCRETE\":{\"low\":"@
            + crate::text::spec_enc_int(low) + ",\"high\":"@ + crate::text::spec_enc_int(high)
            + "}}"@,
        crate::domain::RangeView::Categorical { choices } => "{\"CATEGORICAL\":{\"choices\":"@
            + spec_enc_strs(choices) + "}}"@,
    }
}

/// Reads a range.
pub open spec fn spec_dec_range(s: Seq<char>, pos: int) -> Option<(crate::domain::RangeView, int)> {
    if at(s, pos, "{\"CONTINUOUS\":{\"low\":"@) {
        match spec_dec_ticks(s, pos + "{\"CONTINUOUS\":{\"low\":"@.len() as int) {
            None => None,
            Some((low, p)) => if at(s, p, ",\"high\":"@) {
                match spec_dec_ticks(s, p + ",\"high\":"@.len() as int) {
                    None => None,
                    Some((high, q)) => if at(s, q, "}}"@) {
                        Some((crate::domain::RangeView::Continuous { low, high }, q + 2))
                    } else {
                        None
                    },
                }
            } else {
                None
            },
        }
    } else if at(s, pos, "{\"DISCRETE\":{\"low\":"@) {
        match spec_dec_int(s, pos + "{\"DISCRETE\":{\"low\":"@.len() as int) {
            None => None,
            Some((low, p)) => if at(s, p, ",\"high\":"@) {
                match spec_dec_int(s, p + ",\"high\":"@.len() as int) {
                    None => None,
                    Some((high, q)) => if at(s, q, "}}"@) {
                        Some((crate::domain::RangeView::Discrete { low, high }, q + 2))
                    } else {
                        None
                    },
                }
            } else {
                None
            },
        }
    } else if at(s, pos, "{\"CATEGORICAL\":{\"choices\":"@) {
        match spec_dec_strs(s, pos + "{\"CATEGORICAL\":{\"choices\":"@.len() as int) {
            None => None,
            Some((choices, p)) => if at(s, p, "}}"@) {
                Some((crate::domain::RangeView::Categorical { choices }, p + 2))
            } else {
                None
            },
        }
    } else {
        None
    }
}

/// The wire form of the items of a non-empty condition list.
pub open spec fn spec_enc_conditions_items(v: Seq<crate::domain::ConditionView>) -> Seq<char>
    decreases v.len(),
{
    if v.len() <= 1 {
        spec_enc_condition(v[0])
    } else {
        spec_enc_condition(v[0]) + seq![','] + spec_enc_conditions_items(
            v.subrange(1, v.len() as int),
        )
    }
}

/// The wire form of a condition list.
pub open spec fn spec_enc_conditions(v: Seq<crate::domain::ConditionView>) -> Seq<char> {
    if v.len() == 0 {
        seq!['[', ']']
    } else {
        seq!['['] + spec_enc_conditions_items(v) + seq![']']
    }
}

/// Reads the items of a non-empty condition list up to and including the
/// closing bracket.
pub open spec fn spec_dec_conditions_items(s: Seq<char>, pos: int) -> Option<
    (Seq<crate::domain::ConditionView>, int),
>
    decreases s.len() - pos,
{
    match spec_dec_condition(s, pos) {
        None => None,
        Some((v, p)) => if 0 <= p < s.len() {
            if s[p] == ']' {
                Some((seq![v], p + 1))
            } else if s[p] == ',' && pos < p && p + 1 <= s.len() {
                match spec_dec_conditions_items(s, p + 1) {
                    Some((tl, q)) => Some((seq![v] + tl, q)),
                    None => None,
                }
            } else {
                None
            }
        } else {
            None
        },
    }
}

/// Reads a condition list.
pub open spec fn spec_dec_conditions(s: Seq<char>, pos: int) -> Option<
    (Seq<crate::domain::ConditionView>, int),
> {
    if 0 <= pos < s.len() && s[pos] == '[' {
        if pos + 1 < s.len() && s[pos + 1] == ']' {
            Some((Seq::empty(), pos + 2))
        } else {
            spec_dec_conditions_items(s, pos + 1)
        }
    } else {
        None
    }
}

/// The wire form of a variable.
#[verifier::opaque]
pub open spec fn spec_enc_variable(v: crate::domain::VariableView) -> Seq<char> {
    "{\"name\":"@ + spec_enc_str(v.name) + ",\"range\":"@ + spec_enc_range(v.range)
        + ",\"distribution\":"@ + spec_enc_distribution(v.distribution) + ",\"conditions\":"@
        + spec_enc_conditions(v.conditions) + "}"@
}

/// Reads a variable.
#[verifier::opaque]
pub open spec fn spec_dec_variable(s: Seq<char>, pos: int) -> Option<
    (crate::domain::VariableView, int),
> {
    if at(s, pos, "{\"name\":"@) {
        match spec_parse_str(s, pos + "{\"name\":"@.len() as int) {
            None => None,
            Some((name, p1)) => if at(s, p1, ",\"range\":"@) {
                match spec_dec_range(s, p1 + ",\"range\":"@.len() as int) {
                    None => None,
                    Some((range, p2)) => if at(s, p2, ",\"distribution\":"@) {
                        match spec_dec_distribution(s, p2 + ",\"distribution\":"@.len() as int) {
                            None => None,
                            Some((distribution, p3)) => if at(s, p3, ",\"conditions\":"@) {
                                match spec_dec_conditions(
                                    s,
                                    p3 + ",\"conditions\":"@.len() as int,
                                ) {
                                    None => None,
                                    Some((conditions, p4)) => if at(s, p4, "}"@) {
                                        Some(
                                            (
                                                crate::domain::VariableView {
                                                    name,
                                                    range,
                                                    distribution,
                                                    conditions,
                                                },
                                                p4 + 1,
                                            ),
                                        )
                                    } else {
                                        None
                                    },
                                }
                            } else {
                                None
                            },
                        }
                    } else {
                        None
                    },
                }
            } else {
                None
            },
        }
    } else {
        None
    }
}

/// The wire form of the items of a non-empty variable list.
pub open spec fn spec_enc_domain_items(v: Seq<crate::domain::VariableView>) -> Seq<char>
    decreases v.len(),
{
    if v.len() <= 1 {
        spec_enc_variable(v[0])
    } else {
        spec_enc_variable(v[0]) + seq![','] + spec_enc_domain_items(v.subrange(1, v.len() as int))
    }
}

/// The wire form of a domain: the list of its variables.
#[verifier::opaque]
pub open spec fn spec_enc_domain(v: Seq<crate::domain::VariableView>) -> Seq<char> {
    if v.len() == 0 {
        seq!['[', ']']
    } else {
        seq!['['] + spec_enc_domain_items(v) + seq![']']
    }
}

/// Reads the items of a non-empty variable list up to and including the
/// closing bracket.
pub open spec fn spec_dec_domain_items(s: Seq<char>, pos: int) -> Option<
    (Seq<crate::domain::VariableView>, int),
>
    decreases s.len() - pos,
{
    match spec_dec_variable(s, pos) {
        None => None,
        Some((v, p)) => if 0 <= p < s.len() {
            if s[p] == ']' {
                Some((seq![v], p + 1))
            } else if s[p] == ',' && pos < p && p + 1 <= s.len() {
                match spec_dec_domain_items(s, p + 1) {
                    Some((tl, q)) => Some((seq![v] + tl, q)),
                    None => None,
                }
            } else {
                None
            }
        } else {
            None
        },
    }
}

/// Reads a domain.
#[verifier::opaque]
pub open spec fn spec_dec_domain(s: Seq<char>, pos: int) -> Option<
    (Seq<crate::domain::VariableView>, int),
> {
    if 0 <= pos < s.len() && s[pos] == '[' {
        if pos + 1 < s.len() && s[pos + 1] == ']' {
            Some((Seq::empty(), pos + 2))
        } else {
            spec_dec_domain_items(s, pos + 1)
        }
    } else {
        None
    }
}

/// The wire form of a problem specification.
pub open spec fn spec_enc_pspec(v: crate::problem::ProblemSpecView) -> Seq<char> {
    "{\"name\":"@ + spec_enc_str(v.name) + ",\"attrs\":"@ + spec_enc_attrs(v.attrs)
        + ",\"params_domain\":"@ + spec_enc_domain(v.params_domain) + ",\"values_domain\":"@
        + spec_enc_domain(v.values_domain) + ",\"evaluation_steps\":"@ + spec_digits(
        v.evaluation_steps,
    ) + "}"@
}

/// Reads a problem specification.
pub open spec fn spec_dec_pspec(s: Seq<char>, pos: int) -> Option<
    (crate::problem::ProblemSpecView, int),
> {
    if at(s, pos, "{\"name\":"@) {
        match spec_parse_str(s, pos + "{\"name\":"@.len() as int) {
            None => None,
            Some((name, p1)) => if at(s, p1, ",\"attrs\":"@) {
                match spec_dec_attrs(s, p1 + ",\"attrs\":"@.len() as int) {
                    None => None,
                    Some((attrs, p2)) => if at(s, p2, ",\"params_domain\":"@) {
                        match spec_dec_domain(s, p2 + ",\"params_domain\":"@.len() as int) {
                            None => None,
                            Some((params_domain, p3)) => if at(s, p3, ",\"values_domain\":"@) {
                                match spec_dec_domain(
                                    s,
                                    p3 + ",\"values_domain\":"@.len() as int,
                                ) {
                                    None => None,
                                    Some((values_domain, p4)) => if at(
                                        s,
                                        p4,
                                        ",\"evaluation_steps\":"@,
                                    ) {
                                        match spec_dec_u64(
                                            s,
                                            p4 + ",\"evaluation_steps\":"@.len() as int,
                                        ) {
                                            None => None,
                                            Some((evaluation_steps, p5)) => if at(s, p5, "}"@) {
                                                Some(
                                                    (
                                                        crate::problem::ProblemSpecView {
                                                            name,
                                                            attrs,
                                                            params_domain,
                                                            values_domain,
                                                            evaluation_steps,
                                                        },
                                                        p5 + 1,
                                                    ),
                                                )
                                            } else {
                                                None
                                            },
                                        }
                                    } else {
                                        None
                                    },
                                }
                            } else {
                                None
                            },
                        }
                    } else {
                        None
                    },
                }
            } else {
                None
            },
        }
    } else {
        None
    }
}

/// The wire name of a capability.
pub open spec fn spec_enc_capability(c: crate::capability::Capability) -> Seq<char> {
    match c {
        crate::capability::Capability::UniformContinuous => "\"UNIFORM_CONTINUOUS\""@,
        crate::capability::Capability::UniformDiscrete => "\"UNIFORM_DISCRETE\""@,
        crate::capability::Capability::LogUniformContinuous => "\"LOG_UNIFORM_CONTINUOUS\""@,
        crate::capability::Capability::LogUniformDiscrete => "\"LOG_UNIFORM_DISCRETE\""@,
        crate::capability::Capability::Categorical => "\"CATEGORICAL\""@,
        crate::capability::Capability::Conditional => "\"CONDITIONAL\""@,
        crate::capability::Capability::MultiObjective => "\"MULTI_OBJECTIVE\""@,
    }
}

/// The members of a capability set, in declaration order.
pub open spec fn spec_cap_members(c: crate::capability::Capabilities) -> Seq<
    crate::capability::Capability,
> {
    let s0: Seq<crate::capability::Capability> = Seq::empty();
    let s1 = if c.uniform_continuous {
        s0.push(crate::capability::Capability::UniformContinuous)
    } else {
        s0
    };
    let s2 = if c.uniform_discrete {
        s1.push(crate::capability::Capability::UniformDiscrete)
    } else {
        s1
    };
    let s3 = if c.log_uniform_continuous {
        s2.push(crate::capability::Capability::LogUniformContinuous)
    } else {
        s2
    };
    let s4 = if c.log_uniform_discrete {
        s3.push(crate::capability::Capability::LogUniformDiscrete)
    } else {
        s3
    };
    let s5 = if c.categorical {
        s4.push(crate::capability::Capability::Categorical)
    } else {
        s4
    };
    let s6 = if c.conditional {
        s5.push(crate::capability::Capability::Conditional)
    } else {
        s5
    };
    if c.multi_objective {
        s6.push(crate::capability::Capability::MultiObjective)
    } else {
        s6
    }
}

/// The wire form of the items of a non-empty capability list.
pub open spec fn spec_enc_caps_items(v: Seq<crate::capability::Capability>) -> Seq<char>
    decreases v.len(),
{
    if v.len() <= 1 {
        spec_enc_capability(v[0])
    } else {
        spec_enc_capability(v[0]) + seq![','] + spec_enc_caps_items(v.subrange(1, v.len() as int))
    }
}

/// The wire form of a capability set: the list of its members.
pub open spec fn spec_enc_caps(c: crate::capability::Capabilities) -> Seq<char> {
    let v = spec_cap_members(c);
    if v.len() == 0 {
        seq!['[', ']']
    } else {
        seq!['['] + spec_enc_caps_items(v) + seq![']']
    }
}

/// Reads one capability name.
pub open spec fn spec_dec_capability(s: Seq<char>, pos: int) -> Option<
    (crate::capability::Capability, int),
> {
    if at(s, pos, "\"UNIFORM_CONTINUOUS\""@) {
        Some(
            (
                crate::capability::Capability::UniformContinuous,
                pos + "\"UNIFORM_CONTINUOUS\""@.len() as int,
            ),
        )
    } else if at(s, pos, "\"UNIFORM_DISCRETE\""@) {
        Some(
            (
                crate::capability::Capability::UniformDiscrete,
                pos + "\"UNIFORM_DISCRETE\""@.len() as int,
            ),
        )
    } else if at(s, pos, "\"LOG_UNIFORM_CONTINUOUS\""@) {
        Some(
            (
                crate::capability::Capability::LogUniformContinuous,
                pos + "\"LOG_UNIFORM_CONTINUOUS\""@.len() as int,
            ),
        )
    } else if at(s, pos, "\"LOG_UNIFORM_DISCRETE\""@) {
        Some(
            (
                crate::capability::Capability::LogUniformDiscrete,
                pos + "\"LOG_UNIFORM_DISCRETE\""@.len() as int,
            ),
        )
    } else if at(s, pos, "\"CATEGORICAL\""@) {
        Some((crate::capability::Capability::Categorical, pos + "\"CATEGORICAL\""@.len() as int))
    } else if at(s, pos, "\"CONDITIONAL\""@) {
        Some((crate::capability::Capability::Conditional, pos + "\"CONDITIONAL\""@.len() as int))
    } else if at(s, pos, "\"MULTI_OBJECTIVE\""@) {
        Some(
            (
                crate::capability::Capability::MultiObjective,
                pos + "\"MULTI_OBJECTIVE\""@.len() as int,
            ),
        )
    } else {
        None
    }
}

/// Reads the items of a non-empty capability list up to and including the
/// closing bracket, collecting the members into a set.
pub open spec fn spec_dec_caps_items(s: Seq<char>, pos: int, acc: crate::capability::Capabilities)
    -> Option<(crate::capability::Capabilities, int)>
    decreases s.len() - pos,
{
    match spec_dec_capability(s, pos) {
        None => None,
        Some((c, p)) => {
            let acc2 = spec_cap_insert(acc, c);
            if 0 <= p < s.len() {
                if s[p] == ']' {
                    Some((acc2, p + 1))
                } else if s[p] == ',' && pos < p && p + 1 <= s.len() {
                    spec_dec_caps_items(s, p + 1, acc2)
                } else {
                    None
                }
            } else {
                None
            }
        },
    }
}

/// Adds one capability to a set.
pub open spec fn spec_cap_insert(
    s: crate::capability::Capabilities,
    c: crate::capability::Capability,
) -> crate::capability::Capabilities {
    match c {
        crate::capability::Capability::UniformContinuous => crate::capability::Capabilities {
            uniform_continuous: true,
            ..s
        },
        crate::capability::Capability::UniformDiscrete => crate::capability::Capabilities {
            uniform_discrete: true,
            ..s
        },
        crate::capability::Capability::LogUniformContinuous => crate::capability::Capabilities {
            log_uniform_continuous: true,
            ..s
        },
        crate::capability::Capability::LogUniformDiscrete => crate::capability::Capabilities {
            log_uniform_discrete: true,
            ..s
        },
        crate::capability::Capability::Categorical => crate::capability::Capabilities {
            categorical: true,
            ..s
        },
        crate::capability::Capability::Conditional => crate::capability::Capabilities {
            conditional: true,
            ..s
        },
        crate::capability::Capability::MultiObjective => crate::capability::Capabilities {
            multi_objective: true,
            ..s
        },
    }
}

/// The empty capability set.
pub open spec fn spec_caps_none() -> crate::capability::Capabilities {
    crate::capability::Capabilities {
        uniform_continuous: false,
        uniform_discrete: false,
        log_uniform_continuous: false,
        log_uniform_discrete: false,
        categorical: false,
        conditional: false,
        multi_objective: false,
    }
}

/// Reads a capability set.
pub open spec fn spec_dec_caps(s: Seq<char>, pos: int) -> Option<
    (crate::capability::Capabilities, int),
> {
    if 0 <= pos < s.len() && s[pos] == '[' {
        if pos + 1 < s.len() && s[pos + 1] == ']' {
            Some((spec_caps_none(), pos + 2))
        } else {
            spec_dec_caps_items(s, pos + 1, spec_caps_none())
        }
    } else {
        None
    }
}

/// The wire form of a solver specification.
pub open spec fn spec_enc_sspec(v: crate::capability::SolverSpecView) -> Seq<char> {
    "{\"name\":"@ + spec_enc_str(v.name) + ",\"attrs\":"@ + spec_enc_attrs(v.attrs)
        + ",\"capabilities\":"@ + spec_enc_caps(v.capabilities) + "}"@
}

/// Reads a solver specification.
pub open spec fn spec_dec_sspec(s: Seq<char>, pos: int) -> Option<
    (crate::capability::SolverSpecView, int),
> {
    if at(s, pos, "{\"name\":"@) {
        match spec_parse_str(s, pos + "{\"name\":"@.len() as int) {
            None => None,
            Some((name, p1)) => if at(s, p1, ",\"attrs\":"@) {
                match spec_dec_attrs(s, p1 + ",\"attrs\":"@.len() as int) {
                    None => None,
                    Some((attrs, p2)) => if at(s, p2, ",\"capabilities\":"@) {
                        match spec_dec_caps(s, p2 + ",\"capabilities\":"@.len() as int) {
                            None => None,
                            Some((capabilities, p3)) => if at(s, p3, "}"@) {
                                Some(
                                    (
                                        crate::capability::SolverSpecView {
                                            name,
                                            attrs,
                                            capabilities,
                                        },
                                        p3 + 1,
                                    ),
                                )
                            } else {
                                None
                            },
                        }
                    } else {
                        None
                    },
                }
            } else {
                None
            },
        }
    } else {
        None
    }
}

/// The wire form of an optional step number: `null` when absent.
pub open spec fn spec_enc_opt_u64(v: Option<int>) -> Seq<char> {
    match v {
        None => "null"@,
        Some(n) => spec_digits(n),
    }
}

/// Reads an optional step number.
pub open spec fn spec_dec_opt_u64(s: Seq<char>, pos: int) -> Option<(Option<int>, int)> {
    if at(s, pos, "null"@) {
        Some((None, pos + 4))
    } else {
        match spec_dec_u64(s, pos) {
            Some((n, p)) => Some((Some(n), p)),
            None => None,
        }
    }
}

/// The wire form of an optional objective vector: `null` when the trial was
/// unevaluable.
pub open spec fn spec_enc_opt_values(v: Option<Seq<int>>) -> Seq<char> {
    match v {
        None => "null"@,
        Some(vs) => spec_enc_values(vs),
    }
}

/// Reads an optional objective vector.
pub open spec fn spec_dec_opt_values(s: Seq<char>, pos: int) -> Option<(Option<Seq<int>>, int)> {
    if at(s, pos, "null"@) {
        Some((None, pos + 4))
    } else {
        match spec_dec_values(s, pos) {
            Some((vs, p)) => Some((Some(vs), p)),
            None => None,
        }
    }
}

/// The wire form of an optional message string: `null` when absent.
pub open spec fn spec_enc_opt_str(v: Option<Seq<char>>) -> Seq<char> {
    match v {
        None => "null"@,
        Some(m) => spec_enc_str(m),
    }
}

/// Reads an optional message string.
pub open spec fn spec_dec_opt_str(s: Seq<char>, pos: int) -> Option<(Option<Seq<char>>, int)> {
    if at(s, pos, "null"@) {
        Some((None, pos + 4))
    } else {
        match spec_parse_str(s, pos) {
            Some((m, p)) => Some((Some(m), p)),
            None => None,
        }
    }
}

/// The wire form of a proposed trial.
pub open spec fn spec_enc_next_trial(v: crate::trial::NextTrialView) -> Seq<char> {
    "{\"id\":"@ + spec_digits(v.id) + ",\"params\":"@ + spec_enc_params(v.params)
        + ",\"next_step\":"@ + spec_enc_opt_u64(v.next_step) + "}"@
}

/// Reads a proposed trial.
pub open spec fn spec_dec_next_trial(s: Seq<char>, pos: int) -> Option<
    (crate::trial::NextTrialView, int),
> {
    if at(s, pos, "{\"id\":"@) {
        match spec_dec_u64(s, pos + "{\"id\":"@.len() as int) {
            None => None,
            Some((id, p1)) => if at(s, p1, ",\"params\":"@) {
                match spec_dec_params(s, p1 + ",\"params\":"@.len() as int) {
                    None => None,
                    Some((params, p2)) => if at(s, p2, ",\"next_step\":"@) {
                        match spec_dec_opt_u64(s, p2 + ",\"next_step\":"@.len() as int) {
                            None => None,
                            Some((next_step, p3)) => if at(s, p3, "}"@) {
                                Some(
                                    (
                                        crate::trial::NextTrialView { id, params, next_step },
                                        p3 + 1,
                                    ),
                                )
                            } else {
                                None
                            },
                        }
                    } else {
                        None
                    },
                }
            } else {
                None
            },
        }
    } else {
        None
    }
}

/// The wire form of an evaluated trial.
pub open spec fn spec_enc_evaluated_trial(v: crate::trial::EvaluatedTrialView) -> Seq<char> {
    "{\"id\":"@ + spec_digits(v.id) + ",\"values\":"@ + spec_enc_opt_values(v.values)
        + ",\"current_step\":"@ + spec_digits(v.current_step) + "}"@
}

/// Reads an evaluated trial.
pub open spec fn spec_dec_evaluated_trial(s: Seq<char>, pos: int) -> Option<
    (crate::trial::EvaluatedTrialView, int),
> {
    if at(s, pos, "{\"id\":"@) {
        match spec_dec_u64(s, pos + "{\"id\":"@.len() as int) {
            None => None,
            Some((id, p1)) => if at(s, p1, ",\"values\":"@) {
                match spec_dec_opt_values(s, p1 + ",\"values\":"@.len() as int) {
                    None => None,
                    Some((values, p2)) => if at(s, p2, ",\"current_step\":"@) {
                        match spec_dec_u64(s, p2 + ",\"current_step\":"@.len() as int) {
                            None => None,
                            Some((current_step, p3)) => if at(s, p3, "}"@) {
                                Some(
                                    (
                                        crate::trial::EvaluatedTrialView {
                                            id,
                                            values,
                                            current_step,
                                        },
                                        p3 + 1,
                                    ),
                                )
                            } else {
                                None
                            },
                        }
                    } else {
                        None
                    },
                }
            } else {
                None
            },
        }
    } else {
        None
    }
}

/// The wire form of a problem protocol message.
pub open spec fn spec_enc_problem_message(m: crate::message::ProblemMessageView) -> Seq<char> {
    match m {
        crate::message::ProblemMessageView::ProblemSpecCast { spec } => {
            "{\"type\":\"PROBLEM_SPEC_CAST\",\"spec\":"@ + spec_enc_pspec(spec) + "}"@
        },
        crate::message::ProblemMessageView::CreateProblemCast { problem_id, random_seed } => {
            "{\"type\":\"CREATE_PROBLEM_CAST\",\"problem_id\":"@ + spec_digits(problem_id)
                + ",\"random_seed\":"@ + spec_digits(random_seed) + "}"@
        },
        crate::message::ProblemMessageView::DropProblemCast { problem_id } => {
            "{\"type\":\"DROP_PROBLEM_CAST\",\"problem_id\":"@ + spec_digits(problem_id) + "}"@
        },
        crate::message::ProblemMessageView::CreateEvaluatorCall {
            problem_id,
            evaluator_id,
            params,
        } => {
            "{\"type\":\"CREATE_EVALUATOR_CALL\",\"problem_id\":"@ + spec_digits(problem_id)
                + ",\"evaluator_id\":"@ + spec_digits(evaluator_id) + ",\"params\":"@
                + spec_enc_params(params) + "}"@
        },
        crate::message::ProblemMessageView::CreateEvaluatorReply => {
            "{\"type\":\"CREATE_EVALUATOR_REPLY\"}"@
        },
        crate::message::ProblemMessageView::DropEvaluatorCast { problem_id, evaluator_id } => {
            "{\"type\":\"DROP_EVALUATOR_CAST\",\"problem_id\":"@ + spec_digits(problem_id)
                + ",\"evaluator_id\":"@ + spec_digits(evaluator_id) + "}"@
        },
        crate::message::ProblemMessageView::EvaluateCall {
            problem_id,
            evaluator_id,
            next_step,
        } => {
            "{\"type\":\"EVALUATE_CALL\",\"problem_id\":"@ + spec_digits(problem_id)
                + ",\"evaluator_id\":"@ + spec_digits(evaluator_id) + ",\"next_step\":"@
                + spec_digits(next_step) + "}"@
        },
        crate::message::ProblemMessageView::EvaluateReply { current_step, values } => {
            "{\"type\":\"EVALUATE_REPLY\",\"current_step\":"@ + spec_digits(current_step)
                + ",\"values\":"@ + spec_enc_values(values) + "}"@
        },
        crate::message::ProblemMessageView::ErrorReply { kind, message } => {
            "{\"type\":\"ERROR_REPLY\",\"kind\":"@ + spec_enc_error_kind(kind) + ",\"message\":"@
                + spec_enc_opt_str(message) + "}"@
        },
    }
}

/// Reads one whole problem protocol message; the text must hold nothing
/// else.
pub open spec fn spec_dec_problem_message(s: Seq<char>) -> Option<
    crate::message::ProblemMessageView,
> {
    if at(s, 0, "{\"type\":\"PROBLEM_SPEC_CAST\",\"spec\":"@) {
        match spec_dec_pspec(s, "{\"type\":\"PROBLEM_SPEC_CAST\",\"spec\":"@.len() as int) {
            Some((spec, p)) => if at(s, p, "}"@) && p + 1 == s.len() {
                Some(crate::message::ProblemMessageView::ProblemSpecCast { spec })
            } else {
                None
            },
            None => None,
        }
    } else if at(s, 0, "{\"type\":\"CREATE_PROBLEM_CAST\",\"problem_id\":"@) {
        match spec_dec_u64(s, "{\"type\":\"CREATE_PROBLEM_CAST\",\"problem_id\":"@.len() as int) {
            Some((problem_id, p1)) => if at(s, p1, ",\"random_seed\":"@) {
                match spec_dec_u64(s, p1 + ",\"random_seed\":"@.len() as int) {
                    Some((random_seed, p2)) => if at(s, p2, "}"@) && p2 + 1 == s.len() {
                        Some(
                            crate::message::ProblemMessageView::CreateProblemCast {
                                problem_id,
                                random_seed,
                            },
                        )
                    } else {
                        None
                    },
                    None => None,
                }
            } else {
                None
            },
            None => None,
        }
    } else if at(s, 0, "{\"type\":\"DROP_PROBLEM_CAST\",\"problem_id\":"@) {
        match spec_dec_u64(s, "{\"type\":\"DROP_PROBLEM_CAST\",\"problem_id\":"@.len() as int) {
            Some((problem_id, p)) => if at(s, p, "}"@) && p + 1 == s.len() {
                Some(crate::message::ProblemMessageView::DropProblemCast { problem_id })
            } else {
                None
            },
            None => None,
        }
    } else if at(s, 0, "{\"type\":\"CREATE_EVALUATOR_CALL\",\"problem_id\":"@) {
        match spec_dec_u64(
            s,
            "{\"type\":\"CREATE_EVALUATOR_CALL\",\"problem_id\":"@.len() as int,
        ) {
            Some((problem_id, p1)) => if at(s, p1, ",\"evaluator_id\":"@) {
                match spec_dec_u64(s, p1 + ",\"evaluator_id\":"@.len() as int) {
                    Some((evaluator_id, p2)) => if at(s, p2, ",\"params\":"@) {
                        match spec_dec_params(s, p2 + ",\"params\":"@.len() as int) {
                            Some((params, p3)) => if at(s, p3, "}"@) && p3 + 1 == s.len() {
                                Some(
                                    crate::message::ProblemMessageView::CreateEvaluatorCall {
                                        problem_id,
                                        evaluator_id,
                                        params,
                                    },
                                )
                            } else {
                                None
                            },
                            None => None,
                        }
                    } else {
                        None
                    },
                    None => None,
                }
            } else {
                None
            },
            None => None,
        }
    } else if at(s, 0, "{\"type\":\"CREATE_EVALUATOR_REPLY\"}"@) {
        if s.len() == "{\"type\":\"CREATE_EVALUATOR_REPLY\"}"@.len() {
            Some(crate::message::ProblemMessageView::CreateEvaluatorReply)
        } else {
            None
        }
    } else if at(s, 0, "{\"type\":\"DROP_EVALUATOR_CAST\",\"problem_id\":"@) {
        match spec_dec_u64(s, "{\"type\":\"DROP_EVALUATOR_CAST\",\"problem_id\":"@.len() as int) {
            Some((problem_id, p1)) => if at(s, p1, ",\"evaluator_id\":"@) {
                match spec_dec_u64(s, p1 + ",\"evaluator_id\":"@.len() as int) {
                    Some((evaluator_id, p2)) => if at(s, p2, "}"@) && p2 + 1 == s.len() {
                        Some(
                            crate::message::ProblemMessageView::DropEvaluatorCast {
                                problem_id,
                                evaluator_id,
                            },
                        )
                    } else {
                        None
                    },
                    None => None,
                }
            } else {
                None
            },
            None => None,
        }
    } else if at(s, 0, "{\"type\":\"EVALUATE_CALL\",\"problem_id\":"@) {
        match spec_dec_u64(s, "{\"type\":\"EVALUATE_CALL\",\"problem_id\":"@.len() as int) {
            Some((problem_id, p1)) => if at(s, p1, ",\"evaluator_id\":"@) {
                match spec_dec_u64(s, p1 + ",\"evaluator_id\":"@.len() as int) {
                    Some((evaluator_id, p2)) => if at(s, p2, ",\"next_step\":"@) {
                        match spec_dec_u64(s, p2 + ",\"next_step\":"@.len() as int) {
                            Some((next_step, p3)) => if at(s, p3, "}"@) && p3 + 1 == s.len() {
                                Some(
                                    crate::message::ProblemMessageView::EvaluateCall {
                                        problem_id,
                                        evaluator_id,
                                        next_step,
                                    },
                                )
                            } else {
                                None
                            },
                            None => None,
                        }
                    } else {
                        None
                    },
                    None => None,
                }
            } else {
                None
            },
            None => None,
        }
    } else if at(s, 0, "{\"type\":\"EVALUATE_REPLY\",\"current_step\":"@) {
        match spec_dec_u64(s, "{\"type\":\"EVALUATE_REPLY\",\"current_step\":"@.len() as int) {
            Some((current_step, p1)) => if at(s, p1, ",\"values\":"@) {
                match spec_dec_values(s, p1 + ",\"values\":"@.len() as int) {
                    Some((values, p2)) => if at(s, p2, "}"@) && p2 + 1 == s.len() {
                        Some(
                            crate::message::ProblemMessageView::EvaluateReply {
                                current_step,
                                values,
                            },
                        )
                    } else {
                        None
                    },
                    None => None,
                }
            } else {
                None
            },
            None => None,
        }
    } else if at(s, 0, "{\"type\":\"ERROR_REPLY\",\"kind\":"@) {
        match spec_dec_error_kind(s, "{\"type\":\"ERROR_REPLY\",\"kind\":"@.len() as int) {
            Some((kind, p1)) => if at(s, p1, ",\"message\":"@) {
                match spec_dec_opt_str(s, p1 + ",\"message\":"@.len() as int) {
                    Some((message, p2)) => if at(s, p2, "}"@) && p2 + 1 == s.len() {
                        Some(crate::message::ProblemMessageView::ErrorReply { kind, message })
                    } else {
                        None
                    },
                    None => None,
                }
            } else {
                None
            },
            None => None,
        }
    } else {
        None
    }
}

/// The wire form of a solver protocol message.
pub open spec fn spec_enc_solver_message(m: crate::message::SolverMessageView) -> Seq<char> {
    match m {
        crate::message::SolverMessageView::SolverSpecCast { spec } => {
            "{\"type\":\"SOLVER_SPEC_CAST\",\"spec\":"@ + spec_enc_sspec(spec) + "}"@
        },
        crate::message::SolverMessageView::CreateSolverCast {
            solver_id,
            random_seed,
            problem,
        } => {
            "{\"type\":\"CREATE_SOLVER_CAST\",\"solver_id\":"@ + spec_digits(solver_id)
                + ",\"random_seed\":"@ + spec_digits(random_seed) + ",\"problem\":"@
                + spec_enc_pspec(problem) + "}"@
        },
        crate::message::SolverMessageView::DropSolverCast { solver_id } => {
            "{\"type\":\"DROP_SOLVER_CAST\",\"solver_id\":"@ + spec_digits(solver_id) + "}"@
        },
        crate::message::SolverMessageView::AskCall { solver_id, next_trial_id } => {
            "{\"type\":\"ASK_CALL\",\"solver_id\":"@ + spec_digits(solver_id)
                + ",\"next_trial_id\":"@ + spec_digits(next_trial_id) + "}"@
        },
        crate::message::SolverMessageView::AskReply { trial, next_trial_id } => {
            "{\"type\":\"ASK_REPLY\",\"trial\":"@ + spec_enc_next_trial(trial)
                + ",\"next_trial_id\":"@ + spec_digits(next_trial_id) + "}"@
        },
        crate::message::SolverMessageView::TellCall { solver_id, trial } => {
            "{\"type\":\"TELL_CALL\",\"solver_id\":"@ + spec_digits(solver_id) + ",\"trial\":"@
                + spec_enc_evaluated_trial(trial) + "}"@
        },
        crate::message::SolverMessageView::TellReply => "{\"type\":\"TELL_REPLY\"}"@,
        crate::message::SolverMessageView::ErrorReply { kind, message } => {
            "{\"type\":\"ERROR_REPLY\",\"kind\":"@ + spec_enc_error_kind(kind) + ",\"message\":"@
                + spec_enc_opt_str(message) + "}"@
        },
    }
}

/// Reads one whole solver protocol message; the text must hold nothing else.
pub open spec fn spec_dec_solver_message(s: Seq<char>) -> Option<
    crate::message::SolverMessageView,
> {
    if at(s, 0, "{\"type\":\"SOLVER_SPEC_CAST\",\"spec\":"@) {
        match spec_dec_sspec(s, "{\"type\":\"SOLVER_SPEC_CAST\",\"spec\":"@.len() as int) {
            Some((spec, p)) => if at(s, p, "}"@) && p + 1 == s.len() {
                Some(crate::message::SolverMessageView::SolverSpecCast { spec })
            } else {
                None
            },
            None => None,
        }
    } else if at(s, 0, "{\"type\":\"CREATE_SOLVER_CAST\",\"solver_id\":"@) {
        match spec_dec_u64(s, "{\"type\":\"CREATE_SOLVER_CAST\",\"solver_id\":"@.len() as int) {
            Some((solver_id, p1)) => if at(s, p1, ",\"random_seed\":"@) {
                match spec_dec_u64(s, p1 + ",\"random_seed\":"@.len() as int) {
                    Some((random_seed, p2)) => if at(s, p2, ",\"problem\":"@) {
                        match spec_dec_pspec(s, p2 + ",\"problem\":"@.len() as int) {
                            Some((problem, p3)) => if at(s, p3, "}"@) && p3 + 1 == s.len() {
                                Some(
                                    crate::message::SolverMessageView::CreateSolverCast {
                                        solver_id,
                                        random_seed,
                                        problem,
                                    },
                                )
                            } else {
                                None
                            },
                            None => None,
                        }
                    } else {
                        None
                    },
                    None => None,
                }
            } else {
                None
            },
            None => None,
        }
    } else if at(s, 0, "{\"type\":\"DROP_SOLVER_CAST\",\"solver_id\":"@) {
        match spec_dec_u64(s, "{\"type\":\"DROP_SOLVER_CAST\",\"solver_id\":"@.len() as int) {
            Some((solver_id, p)) => if at(s, p, "}"@) && p + 1 == s.len() {
                Some(crate::message::SolverMessageView::DropSolverCast { solver_id })
            } else {
                None
            },
            None => None,
        }
    } else if at(s, 0, "{\"type\":\"ASK_CALL\",\"solver_id\":"@) {
        match spec_dec_u64(s, "{\"type\":\"ASK_CALL\",\"solver_id\":"@.len() as int) {
            Some((solver_id, p1)) => if at(s, p1, ",\"next_trial_id\":"@) {
                match spec_dec_u64(s, p1 + ",\"next_trial_id\":"@.len() as int) {
                    Some((next_trial_id, p2)) => if at(s, p2, "}"@) && p2 + 1 == s.len() {
                        Some(
                            crate::message::SolverMessageView::AskCall {
                                solver_id,
                                next_trial_id,
                            },
                        )
                    } else {
                        None
                    },
                    None => None,
                }
            } else {
                None
            },
            None => None,
        }
    } else if at(s, 0, "{\"type\":\"ASK_REPLY\",\"trial\":"@) {
        match spec_dec_next_trial(s, "{\"type\":\"ASK_REPLY\",\"trial\":"@.len() as int) {
            Some((trial, p1)) => if at(s, p1, ",\"next_trial_id\":"@) {
                match spec_dec_u64(s, p1 + ",\"next_trial_id\":"@.len() as int) {
                    Some((next_trial_id, p2)) => if at(s, p2, "}"@) && p2 + 1 == s.len() {
                        Some(
                            crate::message::SolverMessageView::AskReply {
                                trial,
                                next_trial_id,
                            },
                        )
                    } else {
                        None
                    },
                    None => None,
                }
            } else {
                None
            },
            None => None,
        }
    } else if at(s, 0, "{\"type\":\"TELL_CALL\",\"solver_id\":"@) {
        match spec_dec_u64(s, "{\"type\":\"TELL_CALL\",\"solver_id\":"@.len() as int) {
            Some((solver_id, p1)) => if at(s, p1, ",\"trial\":"@) {
                match spec_dec_evaluated_trial(s, p1 + ",\"trial\":"@.len() as int) {
                    Some((trial, p2)) => if at(s, p2, "}"@) && p2 + 1 == s.len() {
                        Some(crate::message::SolverMessageView::TellCall { solver_id, trial })
                    } else {
                        None
                    },
                    None => None,
                }
            } else {
                None
            },
            None => None,
        }
    } else if at(s, 0, "{\"type\":\"TELL_REPLY\"}"@) {
        if s.len() == "{\"type\":\"TELL_REPLY\"}"@.len() {
            Some(crate::message::SolverMessageView::TellReply)
        } else {
            None
        }
    } else if at(s, 0, "{\"type\":\"ERROR_REPLY\",\"kind\":"@) {
        match spec_dec_error_kind(s, "{\"type\":\"ERROR_REPLY\",\"kind\":"@.len() as int) {
            Some((kind, p1)) => if at(s, p1, ",\"message\":"@) {
                match spec_dec_opt_str(s, p1 + ",\"message\":"@.len() as int) {
                    Some((message, p2)) => if at(s, p2, "}"@) && p2 + 1 == s.len() {
                        Some(crate::message::SolverMessageView::ErrorReply { kind, message })
                    } else {
                        None
                    },
                    None => None,
                }
            } else {
                None
            },
            None => None,
        }
    } else {
        None
    }
}

/// Appends the wire form of one parameter entry.
pub fn enc_param(p: &Option<i64>, out: &mut Vec<char>)
    ensures
        final(out)@ == old(out)@ + spec_enc_param(
            match *p {
                Some(v) => Some(v as int),
                None => None,
            },
        ),
{
    match p {
        None => {
            append_lit(out, "null");
            proof {
                reveal_strlit("null");
                assert(out@ =~= old(out)@ + seq!['n', 'u', 'l', 'l']);
            }
        },
        Some(t) => {
            crate::text::fmt_ticks(*t, out);
        },
    }
}

/// Appends the wire form of the parameter entries from `i` on.
pub fn enc_params_items(v: &crate::trial::Params, i: usize, out: &mut Vec<char>)
    requires
        i < v@.len(),
    ensures
        final(out)@ == old(out)@ + spec_enc_params_items(v@.subrange(i as int, v@.len() as int)),
    decreases v@.len() - i,
{
    let ghost sub = v@.subrange(i as int, v@.len() as int);
    proof {
        assert(v@.len() == v.0@.len());
        assert(sub[0] == v@[i as int]);
    }
    enc_param(&v.0[i], out);
    if i < v.0.len() - 1 {
        out.push(',');
        let ghost mid = out@;
        enc_params_items(v, i + 1, out);
        proof {
            assert(sub.subrange(1, sub.len() as int) =~= v@.subrange(i as int + 1, v@.len() as int));
            assert(out@ =~= old(out)@ + spec_enc_params_items(sub));
        }
    } else {
        proof {
            assert(sub.len() == 1);
        }
    }
}

/// Appends the wire form of a parameter vector.
pub fn enc_params(v: &crate::trial::Params, out: &mut Vec<char>)
    ensures
        final(out)@ == old(out)@ + spec_enc_params(v@),
{
    if v.0.len() == 0 {
        out.push('[');
        out.push(']');
        proof {
            assert(out@ =~= old(out)@ + spec_enc_params(v@));
        }
    } else {
        out.push('[');
        enc_params_items(v, 0, out);
        out.push(']');
        proof {
            assert(v@.subrange(0, v@.len() as int) =~= v@);
            assert(out@ =~= old(out)@ + spec_enc_params(v@));
        }
    }
}

/// Appends the wire form of the objective entries from `i` on.
pub fn enc_values_items(v: &crate::trial::Values, i: usize, out: &mut Vec<char>)
    requires
        i < v@.len(),
    ensures
        final(out)@ == old(out)@ + spec_enc_values_items(v@.subrange(i as int, v@.len() as int)),
    decreases v@.len() - i,
{
    let ghost sub = v@.subrange(i as int, v@.len() as int);
    proof {
        assert(v@.len() == v.0@.len());
        assert(sub[0] == v@[i as int]);
    }
    crate::text::fmt_ticks(v.0[i], out);
    if i < v.0.len() - 1 {
        out.push(',');
        enc_values_items(v, i + 1, out);
        proof {
            assert(sub.subrange(1, sub.len() as int) =~= v@.subrange(i as int + 1, v@.len() as int));
            assert(out@ =~= old(out)@ + spec_enc_values_items(sub));
        }
    } else {
        proof {
            assert(sub.len() == 1);
        }
    }
}

/// Appends the wire form of an objective vector.
pub fn enc_values(v: &crate::trial::Values, out: &mut Vec<char>)
    ensures
        final(out)@ == old(out)@ + spec_enc_values(v@),
{
    if v.0.len() == 0 {
        out.push('[');
        out.push(']');
        proof {
            assert(out@ =~= old(out)@ + spec_enc_values(v@));
        }
    } else {
        out.push('[');
        enc_values_items(v, 0, out);
        out.push(']');
        proof {
            assert(v@.subrange(0, v@.len() as int) =~= v@);
            assert(out@ =~= old(out)@ + spec_enc_values(v@));
        }
    }
}

/// Appends the wire name of an error kind.
pub fn enc_error_kind(k: crate::ErrorKind, out: &mut Vec<char>)
    ensures
        final(out)@ == old(out)@ + spec_enc_error_kind(k),
{
    match k {
        crate::ErrorKind::InvalidInput => append_lit(out, "\"INVALID_INPUT\""),
        crate::ErrorKind::IoError => append_lit(out, "\"IO_ERROR\""),
        crate::ErrorKind::Unevaluable => append_lit(out, "\"UNEVALUABLE\""),
        crate::ErrorKind::Bug => append_lit(out, "\"BUG\""),
        crate::ErrorKind::Other => append_lit(out, "\"OTHER\""),
    }
}

/// Appends the wire form of an optional message string.
pub fn enc_opt_str(v: &Option<String>, out: &mut Vec<char>)
    ensures
        final(out)@ == old(out)@ + spec_enc_opt_str(
            match v {
                Some(m) => Some(m@),
                None => None,
            },
        ),
{
    match v {
        None => append_lit(out, "null"),
        Some(m) => crate::text::fmt_str(m.as_str(), out),
    }
}

/// Appends the wire form of an optional step number.
pub fn enc_opt_u64(v: &Option<u64>, out: &mut Vec<char>)
    ensures
        final(out)@ == old(out)@ + spec_enc_opt_u64(
            match *v {
                Some(n) => Some(n as int),
                None => None,
            },
        ),
{
    match v {
        None => append_lit(out, "null"),
        Some(n) => crate::text::fmt_u64(*n, out),
    }
}

/// Appends the wire form of a proposed trial.
pub fn enc_next_trial(v: &crate::trial::NextTrial, out: &mut Vec<char>)
    ensures
        final(out)@ == old(out)@ + spec_enc_next_trial(v@),
{
    append_lit(out, "{\"id\":");
    crate::text::fmt_u64(v.id, out);
    append_lit(out, ",\"params\":");
    enc_params(&v.params, out);
    append_lit(out, ",\"next_step\":");
    enc_opt_u64(&v.next_step, out);
    append_lit(out, "}");
    proof {
        assert(out@ =~= old(out)@ + spec_enc_next_trial(v@));
    }
}

/// Appends the wire form of an evaluated trial.
pub fn enc_evaluated_trial(v: &crate::trial::EvaluatedTrial, out: &mut Vec<char>)
    ensures
        final(out)@ == old(out)@ + spec_enc_evaluated_trial(v@),
{
    append_lit(out, "{\"id\":");
    crate::text::fmt_u64(v.id, out);
    append_lit(out, ",\"values\":");
    match &v.values {
        None => append_lit(out, "null"),
        Some(vs) => enc_values(vs, out),
    }
    append_lit(out, ",\"current_step\":");
    crate::text::fmt_u64(v.current_step, out);
    append_lit(out, "}");
    proof {
        assert(out@ =~= old(out)@ + spec_enc_evaluated_trial(v@));
    }
}

/// Appends the wire form of the strings from `i` on.
pub fn enc_strs_items(v: &Vec<String>, i: usize, out: &mut Vec<char>)
    requires
        i < v@.len(),
    ensures
        final(out)@ == old(out)@ + spec_enc_strs_items(
            crate::domain::str_views(v@).subrange(i as int, v@.len() as int),
        ),
    decreases v@.len() - i,
{
    let ghost views = crate::domain::str_views(v@);
    let ghost sub = views.subrange(i as int, views.len() as int);
    proof {
        assert(sub[0] == views[i as int] && views[i as int] == v@[i as int]@);
    }
    crate::text::fmt_str(v[i].as_str(), out);
    if i < v.len() - 1 {
        out.push(',');
        enc_strs_items(v, i + 1, out);
        proof {
            assert(sub.subrange(1, sub.len() as int) =~= views.subrange(
                i as int + 1,
                views.len() as int,
            ));
            assert(out@ =~= old(out)@ + spec_enc_strs_items(sub));
        }
    } else {
        proof {
            assert(sub.len() == 1);
        }
    }
}

/// Appends the wire form of a list of strings.
pub fn enc_strs(v: &Vec<String>, out: &mut Vec<char>)
    ensures
        final(out)@ == old(out)@ + spec_enc_strs(crate::domain::str_views(v@)),
{
    let ghost views = crate::domain::str_views(v@);
    if v.len() == 0 {
        out.push('[');
        out.push(']');
        proof {
            assert(out@ =~= old(out)@ + spec_enc_strs(views));
        }
    } else {
        out.push('[');
        enc_strs_items(v, 0, out);
        out.push(']');
        proof {
            assert(views.subrange(0, views.len() as int) =~= views);
            assert(out@ =~= old(out)@ + spec_enc_strs(views));
        }
    }
}

/// Appends the wire form of the attribute entries from `i` on.
pub fn enc_attrs_items(v: &Vec<(String, String)>, i: usize, out: &mut Vec<char>)
    requires
        i < v@.len(),
    ensures
        final(out)@ == old(out)@ + spec_enc_attrs_items(
            crate::attr_views(v@).subrange(i as int, v@.len() as int),
        ),
    decreases v@.len() - i,
{
    let ghost views = crate::attr_views(v@);
    let ghost sub = views.subrange(i as int, views.len() as int);
    proof {
        assert(sub[0] == views[i as int] && views[i as int] == (v@[i as int].0@, v@[i as int].1@));
    }
    crate::text::fmt_str(v[i].0.as_str(), out);
    out.push(':');
    crate::text::fmt_str(v[i].1.as_str(), out);
    if i < v.len() - 1 {
        out.push(',');
        enc_attrs_items(v, i + 1, out);
        proof {
            assert(sub.subrange(1, sub.len() as int) =~= views.subrange(
                i as int + 1,
                views.len() as int,
            ));
            assert(out@ =~= old(out)@ + spec_enc_attrs_items(sub));
        }
    } else {
        proof {
            assert(sub.len() == 1);
            assert(out@ =~= old(out)@ + spec_enc_attrs_items(sub));
        }
    }
}

/// Appends the wire form of an attribute map.
pub fn enc_attrs(v: &Vec<(String, String)>, out: &mut Vec<char>)
    ensures
        final(out)@ == old(out)@ + spec_enc_attrs(crate::attr_views(v@)),
{
    let ghost views = crate::attr_views(v@);
    if v.len() == 0 {
        out.push('{');
        out.push('}');
        proof {
            assert(out@ =~= old(out)@ + spec_enc_attrs(views));
        }
    } else {
        out.push('{');
        enc_attrs_items(v, 0, out);
        out.push('}');
        proof {
            assert(views.subrange(0, views.len() as int) =~= views);
            assert(out@ =~= old(out)@ + spec_enc_attrs(views));
        }
    }
}

/// Appends the wire name of a distribution.
pub fn enc_distribution(d: crate::domain::Distribution, out: &mut Vec<char>)
    ensures
        final(out)@ == old(out)@ + spec_enc_distribution(d),
{
    match d {
        crate::domain::Distribution::Uniform => append_lit(out, "\"UNIFORM\""),
        crate::domain::Distribution::LogUniform => append_lit(out, "\"LOG_UNIFORM\""),
    }
}

/// Appends the wire form of a condition.
pub fn enc_condition(c: &crate::domain::Condition, out: &mut Vec<char>)
    ensures
        final(out)@ == old(out)@ + spec_enc_condition(c@),
{
    let crate::domain::Condition::Eq { target, value } = c;
    append_lit(out, "{\"EQ\":{\"target\":");
    crate::text::fmt_str(target.as_str(), out);
    append_lit(out, ",\"value\":");
    crate::text::fmt_ticks(*value, out);
    append_lit(out, "}}");
    proof {
        assert(out@ =~= old(out)@ + spec_enc_condition(c@));
    }
}

/// Appends the wire form of a range.
pub fn enc_range(r: &crate::domain::Range, out: &mut Vec<char>)
    ensures
        final(out)@ == old(out)@ + spec_enc_range(r@),
{
    match r {
        crate::domain::Range::Continuous { low, high } => {
            append_lit(out, "{\"CONTINUOUS\":{\"low\":");
            crate::text::fmt_ticks(*low, out);
            append_lit(out, ",\"high\":");
            crate::text::fmt_ticks(*high, out);
            append_lit(out, "}}");
            proof {
                assert(out@ =~= old(out)@ + spec_enc_range(r@));
            }
        },
        crate::domain::Range::Discrete { low, high } => {
            append_lit(out, "{\"DISCRETE\":{\"low\":");
            crate::text::fmt_i64(*low, out);
            append_lit(out, ",\"high\":");
            crate::text::fmt_i64(*high, out);
            append_lit(out, "}}");
            proof {
                assert(out@ =~= old(out)@ + spec_enc_range(r@));
            }
        },
        crate::domain::Range::Categorical { choices } => {
            append_lit(out, "{\"CATEGORICAL\":{\"choices\":");
            enc_strs(choices, out);
            append_lit(out, "}}");
            proof {
                assert(out@ =~= old(out)@ + spec_enc_range(r@));
            }
        },
    }
}

/// Appends the wire form of the conditions from `i` on.
pub fn enc_conditions_items(v: &Vec<crate::domain::Condition>, i: usize, out: &mut Vec<char>)
    requires
        i < v@.len(),
    ensures
        final(out)@ == old(out)@ + spec_enc_conditions_items(
            crate::domain::cond_views(v@).subrange(i as int, v@.len() as int),
        ),
    decreases v@.len() - i,
{
    let ghost views = crate::domain::cond_views(v@);
    let ghost sub = views.subrange(i as int, views.len() as int);
    proof {
        assert(sub[0] == views[i as int] && views[i as int] == v@[i as int]@);
    }
    enc_condition(&v[i], out);
    if i < v.len() - 1 {
        out.push(',');
        enc_conditions_items(v, i + 1, out);
        proof {
            assert(sub.subrange(1, sub.len() as int) =~= views.subrange(
                i as int + 1,
                views.len() as int,
            ));
            assert(out@ =~= old(out)@ + spec_enc_conditions_items(sub));
        }
    } else {
        proof {
            assert(sub.len() == 1);
        }
    }
}

/// Appends the wire form of a condition list.
pub fn enc_conditions(v: &Vec<crate::domain::Condition>, out: &mut Vec<char>)
    ensures
        final(out)@ == old(out)@ + spec_enc_conditions(crate::domain::cond_views(v@)),
{
    let ghost views = crate::domain::cond_views(v@);
    if v.len() == 0 {
        out.push('[');
        out.push(']');
        proof {
            assert(out@ =~= old(out)@ + spec_enc_conditions(views));
        }
    } else {
        out.push('[');
        enc_conditions_items(v, 0, out);
        out.push(']');
        proof {
            assert(views.subrange(0, views.len() as int) =~= views);
            assert(out@ =~= old(out)@ + spec_enc_conditions(views));
        }
    }
}

/// Appends the wire form of a variable.
pub fn enc_variable(v: &crate::domain::Variable, out: &mut Vec<char>)
    ensures
        final(out)@ == old(out)@ + spec_enc_variable(v@),
{
    proof {
        reveal(spec_enc_variable);
    }
    append_lit(out, "{\"name\":");
    crate::text::fmt_str(v.name.as_str(), out);
    append_lit(out, ",\"range\":");
    enc_range(&v.range, out);
    append_lit(out, ",\"distribution\":");
    enc_distribution(v.distribution, out);
    append_lit(out, ",\"conditions\":");
    enc_conditions(&v.conditions, out);
    append_lit(out, "}");
    proof {
        assert(out@ =~= old(out)@ + spec_enc_variable(v@));
    }
}

/// Appends the wire form of the variables from `i` on.
pub fn enc_domain_items(v: &Vec<crate::domain::Variable>, i: usize, out: &mut Vec<char>)
    requires
        i < v@.len(),
    ensures
        final(out)@ == old(out)@ + spec_enc_domain_items(
            crate::domain::views_of(v@).subrange(i as int, v@.len() as int),
        ),
    decreases v@.len() - i,
{
    let ghost views = crate::domain::views_of(v@);
    let ghost sub = views.subrange(i as int, views.len() as int);
    proof {
        assert(sub[0] == views[i as int] && views[i as int] == v@[i as int]@);
    }
    enc_variable(&v[i], out);
    if i < v.len() - 1 {
        out.push(',');
        enc_domain_items(v, i + 1, out);
        proof {
            assert(sub.subrange(1, sub.len() as int) =~= views.subrange(
                i as int + 1,
                views.len() as int,
            ));
            assert(out@ =~= old(out)@ + spec_enc_domain_items(sub));
        }
    } else {
        proof {
            assert(sub.len() == 1);
        }
    }
}

/// Appends the wire form of a domain.
pub fn enc_domain(v: &crate::domain::Domain, out: &mut Vec<char>)
    ensures
        final(out)@ == old(out)@ + spec_enc_domain(v@),
{
    proof {
        reveal(spec_enc_domain);
    }
    let ghost views = v@;
    if v.0.len() == 0 {
        out.push('[');
        out.push(']');
        proof {
            assert(out@ =~= old(out)@ + spec_enc_domain(views));
        }
    } else {
        out.push('[');
        enc_domain_items(&v.0, 0, out);
        out.push(']');
        proof {
            assert(views.subrange(0, views.len() as int) =~= views);
            assert(out@ =~= old(out)@ + spec_enc_domain(views));
        }
    }
}

/// Appends the wire form of a problem specification.
pub fn enc_pspec(v: &crate::problem::ProblemSpec, out: &mut Vec<char>)
    ensures
        final(out)@ == old(out)@ + spec_enc_pspec(v@),
{
    append_lit(out, "{\"name\":");
    crate::text::fmt_str(v.name.as_str(), out);
    append_lit(out, ",\"attrs\":");
    enc_attrs(&v.attrs, out);
    append_lit(out, ",\"params_domain\":");
    enc_domain(&v.params_domain, out);
    append_lit(out, ",\"values_domain\":");
    enc_domain(&v.values_domain, out);
    append_lit(out, ",\"evaluation_steps\":");
    crate::text::fmt_u64(v.evaluation_steps, out);
    append_lit(out, "}");
    proof {
        assert(out@ =~= old(out)@ + spec_enc_pspec(v@));
    }
}

/// The members of a capability set, in declaration order.
pub fn cap_members(c: &crate::capability::Capabilities) -> (r: Vec<crate::capability::Capability>)
    ensures
        r@ == spec_cap_members(*c),
{
    let mut r: Vec<crate::capability::Capability> = Vec::new();
    if c.uniform_continuous {
        r.push(crate::capability::Capability::UniformContinuous);
    }
    if c.uniform_discrete {
        r.push(crate::capability::Capability::UniformDiscrete);
    }
    if c.log_uniform_continuous {
        r.push(crate::capability::Capability::LogUniformContinuous);
    }
    if c.log_uniform_discrete {
        r.push(crate::capability::Capability::LogUniformDiscrete);
    }
    if c.categorical {
        r.push(crate::capability::Capability::Categorical);
    }
    if c.conditional {
        r.push(crate::capability::Capability::Conditional);
    }
    if c.multi_objective {
        r.push(crate::capability::Capability::MultiObjective);
    }
    r
}

/// Appends the wire names of the capabilities from `i` on.
pub fn enc_caps_items(v: &Vec<crate::capability::Capability>, i: usize, out: &mut Vec<char>)
    requires
        i < v@.len(),
    ensures
        final(out)@ == old(out)@ + spec_enc_caps_items(v@.subrange(i as int, v@.len() as int)),
    decreases v@.len() - i,
{
    let ghost sub = v@.subrange(i as int, v@.len() as int);
    match v[i] {
        crate::capability::Capability::UniformContinuous => append_lit(
            out,
            "\"UNIFORM_CONTINUOUS\"",
        ),
        crate::capability::Capability::UniformDiscrete => append_lit(out, "\"UNIFORM_DISCRETE\""),
        crate::capability::Capability::LogUniformContinuous => append_lit(
            out,
            "\"LOG_UNIFORM_CONTINUOUS\"",
        ),
        crate::capability::Capability::LogUniformDiscrete => append_lit(
            out,
            "\"LOG_UNIFORM_DISCRETE\"",
        ),
        crate::capability::Capability::Categorical => append_lit(out, "\"CATEGORICAL\""),
        crate::capability::Capability::Conditional => append_lit(out, "\"CONDITIONAL\""),
        crate::capability::Capability::MultiObjective => append_lit(out, "\"MULTI_OBJECTIVE\""),
    }
    if i < v.len() - 1 {
        out.push(',');
        enc_caps_items(v, i + 1, out);
        proof {
            assert(sub.subrange(1, sub.len() as int) =~= v@.subrange(i as int + 1, v@.len() as int));
            assert(out@ =~= old(out)@ + spec_enc_caps_items(sub));
        }
    } else {
        proof {
            assert(sub.len() == 1);
        }
    }
}

/// Appends the wire form of a capability set.
pub fn enc_caps(c: &crate::capability::Capabilities, out: &mut Vec<char>)
    ensures
        final(out)@ == old(out)@ + spec_enc_caps(*c),
{
    let members = cap_members(c);
    if members.len() == 0 {
        out.push('[');
        out.push(']');
        proof {
            assert(out@ =~= old(out)@ + spec_enc_caps(*c));
        }
    } else {
        out.push('[');
        enc_caps_items(&members, 0, out);
        out.push(']');
        proof {
            assert(members@.subrange(0, members@.len() as int) =~= members@);
            assert(out@ =~= old(out)@ + spec_enc_caps(*c));
        }
    }
}

/// Appends the wire form of a solver specification.
pub fn enc_sspec(v: &crate::capability::SolverSpec, out: &mut Vec<char>)
    ensures
        final(out)@ == old(out)@ + spec_enc_sspec(v@),
{
    append_lit(out, "{\"name\":");
    crate::text::fmt_str(v.name.as_str(), out);
    append_lit(out, ",\"attrs\":");
    enc_attrs(&v.attrs, out);
    append_lit(out, ",\"capabilities\":");
    enc_caps(&v.capabilities, out);
    append_lit(out, "}");
    proof {
        assert(out@ =~= old(out)@ + spec_enc_sspec(v@));
    }
}

/// Appends the wire form of a problem protocol message.
#[verifier::rlimit(100)]
#[verifier::spinoff_prover]
pub fn enc_problem_message(m: &crate::message::ProblemMessage, out: &mut Vec<char>)
    ensures
        final(out)@ == old(out)@ + spec_enc_problem_message(m@),
{
    match m {
        crate::message::ProblemMessage::ProblemSpecCast { spec } => {
            append_lit(out, "{\"type\":\"PROBLEM_SPEC_CAST\",\"spec\":");
            enc_pspec(spec, out);
            append_lit(out, "}");
        },
        crate::message::ProblemMessage::CreateProblemCast { problem_id, random_seed } => {
            append_lit(out, "{\"type\":\"CREATE_PROBLEM_CAST\",\"problem_id\":");
            crate::text::fmt_u64(*problem_id, out);
            append_lit(out, ",\"random_seed\":");
            crate::text::fmt_u64(*random_seed, out);
            append_lit(out, "}");
        },
        crate::message::ProblemMessage::DropProblemCast { problem_id } => {
            append_lit(out, "{\"type\":\"DROP_PROBLEM_CAST\",\"problem_id\":");
            crate::text::fmt_u64(*problem_id, out);
            append_lit(out, "}");
        },
        crate::message::ProblemMessage::CreateEvaluatorCall {
            problem_id,
            evaluator_id,
            params,
        } => {
            append_lit(out, "{\"type\":\"CREATE_EVALUATOR_CALL\",\"problem_id\":");
            crate::text::fmt_u64(*problem_id, out);
            append_lit(out, ",\"evaluator_id\":");
            crate::text::fmt_u64(*evaluator_id, out);
            append_lit(out, ",\"params\":");
            enc_params(params, out);
            append_lit(out, "}");
        },
        crate::message::ProblemMessage::CreateEvaluatorReply => {
            append_lit(out, "{\"type\":\"CREATE_EVALUATOR_REPLY\"}");
        },
        crate::message::ProblemMessage::DropEvaluatorCast { problem_id, evaluator_id } => {
            append_lit(out, "{\"type\":\"DROP_EVALUATOR_CAST\",\"problem_id\":");
            crate::text::fmt_u64(*problem_id, out);
            append_lit(out, ",\"evaluator_id\":");
            crate::text::fmt_u64(*evaluator_id, out);
            append_lit(out, "}");
        },
        crate::message::ProblemMessage::EvaluateCall { problem_id, evaluator_id, next_step } => {
            append_lit(out, "{\"type\":\"EVALUATE_CALL\",\"problem_id\":");
            crate::text::fmt_u64(*problem_id, out);
            append_lit(out, ",\"evaluator_id\":");
            crate::text::fmt_u64(*evaluator_id, out);
            append_lit(out, ",\"next_step\":");
            crate::text::fmt_u64(*next_step, out);
            append_lit(out, "}");
        },
        crate::message::ProblemMessage::EvaluateReply { current_step, values } => {
            append_lit(out, "{\"type\":\"EVALUATE_REPLY\",\"current_step\":");
            crate::text::fmt_u64(*current_step, out);
            append_lit(out, ",\"values\":");
            enc_values(values, out);
            append_lit(out, "}");
        },
        crate::message::ProblemMessage::ErrorReply { kind, message } => {
            append_lit(out, "{\"type\":\"ERROR_REPLY\",\"kind\":");
            enc_error_kind(*kind, out);
            append_lit(out, ",\"message\":");
            enc_opt_str(message, out);
            append_lit(out, "}");
        },
    }
    proof {
        assert(out@ =~= old(out)@ + spec_enc_problem_message(m@));
    }
}

/// Appends the wire form of a solver protocol message.
#[verifier::rlimit(100)]
#[verifier::spinoff_prover]
pub fn enc_solver_message(m: &crate::message::SolverMessage, out: &mut Vec<char>)
    ensures
        final(out)@ == old(out)@ + spec_enc_solver_message(m@),
{
    match m {
        crate::message::SolverMessage::SolverSpecCast { spec } => {
            append_lit(out, "{\"type\":\"SOLVER_SPEC_CAST\",\"spec\":");
            enc_sspec(spec, out);
            append_lit(out, "}");
        },
        crate::message::SolverMessage::CreateSolverCast { solver_id, random_seed, problem } => {
            append_lit(out, "{\"type\":\"CREATE_SOLVER_CAST\",\"solver_id\":");
            crate::text::fmt_u64(*solver_id, out);
            append_lit(out, ",\"random_seed\":");
            crate::text::fmt_u64(*random_seed, out);
            append_lit(out, ",\"problem\":");
            enc_pspec(problem, out);
            append_lit(out, "}");
        },
        crate::message::SolverMessage::DropSolverCast { solver_id } => {
            append_lit(out, "{\"type\":\"DROP_SOLVER_CAST\",\"solver_id\":");
            crate::text::fmt_u64(*solver_id, out);
            append_lit(out, "}");
        },
        crate::message::SolverMessage::AskCall { solver_id, next_trial_id } => {
            append_lit(out, "{\"type\":\"ASK_CALL\",\"solver_id\":");
            crate::text::fmt_u64(*solver_id, out);
            append_lit(out, ",\"next_trial_id\":");
            crate::text::fmt_u64(*next_trial_id, out);
            append_lit(out, "}");
        },
        crate::message::SolverMessage::AskReply { trial, next_trial_id } => {
            append_lit(out, "{\"type\":\"ASK_REPLY\",\"trial\":");
            enc_next_trial(trial, out);
            append_lit(out, ",\"next_trial_id\":");
            crate::text::fmt_u64(*next_trial_id, out);
            append_lit(out, "}");
        },
        crate::message::SolverMessage::TellCall { solver_id, trial } => {
            append_lit(out, "{\"type\":\"TELL_CALL\",\"solver_id\":");
            crate::text::fmt_u64(*solver_id, out);
            append_lit(out, ",\"trial\":");
            enc_evaluated_trial(trial, out);
            append_lit(out, "}");
        },
        crate::message::SolverMessage::TellReply => {
            append_lit(out, "{\"type\":\"TELL_REPLY\"}");
        },
        crate::message::SolverMessage::ErrorReply { kind, message } => {
            append_lit(out, "{\"type\":\"ERROR_REPLY\",\"kind\":");
            enc_error_kind(*kind, out);
            append_lit(out, ",\"message\":");
            enc_opt_str(message, out);
            append_lit(out, "}");
        },
    }
    proof {
        assert(out@ =~= old(out)@ + spec_enc_solver_message(m@));
    }
}

/// Reads one parameter entry.
pub fn dec_param(s: &Vec<char>, pos: usize) -> (r: Option<(Option<i64>, usize)>)
    requires
        pos <= s@.len(),
    ensures
        match r {
            Some((v, p)) => spec_dec_param(s@, pos as int) == Some(
                (
                    match v {
                        Some(t) => Some(t as int),
                        None => None,
                    },
                    p as int,
                ),
            ) && p <= s@.len(),
            None => spec_dec_param(s@, pos as int) is None,
        },
{
    proof {
        reveal_strlit("null");
    }
    match expect(s, pos, "null") {
        Some(p) => {
            proof {
                assert("null"@ =~= seq!['n', 'u', 'l', 'l']);
            }
            Some((None, p))
        },
        None => {
            proof {
                assert("null"@ =~= seq!['n', 'u', 'l', 'l']);
            }
            match parse_ticks(s, pos) {
                Some((t, p)) => Some((Some(t), p)),
                None => None,
            }
        },
    }
}

/// Reads the items of a non-empty parameter vector.
pub fn dec_params_items(s: &Vec<char>, pos: usize) -> (r: Option<(crate::trial::Params, usize)>)
    requires
        pos <= s@.len(),
    ensures
        match r {
            Some((v, p)) => spec_dec_params_items(s@, pos as int) == Some((v@, p as int)) && p
                <= s@.len(),
            None => spec_dec_params_items(s@, pos as int) is None,
        },
    decreases s@.len() - pos,
{
    let (t, p) = match dec_param(s, pos) {
        Some(x) => x,
        None => {
            return None;
        },
    };
    if p >= s.len() {
        return None;
    }
    let c = s[p];
    if c == ']' {
        let mut v0: Vec<Option<i64>> = Vec::new();
        v0.push(t);
        let out = crate::trial::Params(v0);
        proof {
            assert(out@ =~= seq![
                match t {
                    Some(x) => Some(x as int),
                    None => None::<int>,
                },
            ]);
        }
        Some((out, p + 1))
    } else if c == ',' && p > pos {
        match dec_params_items(s, p + 1) {
            Some((tl, q)) => {
                let mut v0 = tl.0;
                v0.insert(0, t);
                let out = crate::trial::Params(v0);
                proof {
                    assert(out@ =~= seq![
                        match t {
                            Some(x) => Some(x as int),
                            None => None::<int>,
                        },
                    ] + tl@);
                }
                Some((out, q))
            },
            None => None,
        }
    } else {
        None
    }
}

/// Reads a parameter vector.
pub fn dec_params(s: &Vec<char>, pos: usize) -> (r: Option<(crate::trial::Params, usize)>)
    requires
        pos <= s@.len(),
    ensures
        match r {
            Some((v, p)) => spec_dec_params(s@, pos as int) == Some((v@, p as int)) && p
                <= s@.len(),
            None => spec_dec_params(s@, pos as int) is None,
        },
{
    if pos >= s.len() || s[pos] != '[' {
        return None;
    }
    if pos + 1 < s.len() && s[pos + 1] == ']' {
        let out = crate::trial::Params(Vec::new());
        proof {
            assert(out@ =~= Seq::<Option<int>>::empty());
        }
        return Some((out, pos + 2));
    }
    dec_params_items(s, pos + 1)
}

/// Reads the items of a non-empty objective vector.
pub fn dec_values_items(s: &Vec<char>, pos: usize) -> (r: Option<(crate::trial::Values, usize)>)
    requires
        pos <= s@.len(),
    ensures
        match r {
            Some((v, p)) => spec_dec_values_items(s@, pos as int) == Some((v@, p as int)) && p
                <= s@.len(),
            None => spec_dec_values_items(s@, pos as int) is None,
        },
    decreases s@.len() - pos,
{
    let (t, p) = match parse_ticks(s, pos) {
        Some(x) => x,
        None => {
            return None;
        },
    };
    if p >= s.len() {
        return None;
    }
    let c = s[p];
    if c == ']' {
        let mut v0: Vec<i64> = Vec::new();
        v0.push(t);
        let out = crate::trial::Values(v0);
        proof {
            assert(out@ =~= seq![t as int]);
        }
        Some((out, p + 1))
    } else if c == ',' && p > pos {
        match dec_values_items(s, p + 1) {
            Some((tl, q)) => {
                let mut v0 = tl.0;
                v0.insert(0, t);
                let out = crate::trial::Values(v0);
                proof {
                    assert(out@ =~= seq![t as int] + tl@);
                }
                Some((out, q))
            },
            None => None,
        }
    } else {
        None
    }
}

/// Reads an objective vector.
pub fn dec_values(s: &Vec<char>, pos: usize) -> (r: Option<(crate::trial::Values, usize)>)
    requires
        pos <= s@.len(),
    ensures
        match r {
            Some((v, p)) => spec_dec_values(s@, pos as int) == Some((v@, p as int)) && p
                <= s@.len(),
            None => spec_dec_values(s@, pos as int) is None,
        },
{
    if pos >= s.len() || s[pos] != '[' {
        return None;
    }
    if pos + 1 < s.len() && s[pos + 1] == ']' {
        let out = crate::trial::Values(Vec::new());
        proof {
            assert(out@ =~= Seq::<int>::empty());
        }
        return Some((out, pos + 2));
    }
    dec_values_items(s, pos + 1)
}

/// Reads an optional step number.
pub fn dec_opt_u64(s: &Vec<char>, pos: usize) -> (r: Option<(Option<u64>, usize)>)
    requires
        pos <= s@.len(),
    ensures
        match r {
            Some((v, p)) => spec_dec_opt_u64(s@, pos as int) == Some(
                (
                    match v {
                        Some(n) => Some(n as int),
                        None => None,
                    },
                    p as int,
                ),
            ) && p <= s@.len(),
            None => spec_dec_opt_u64(s@, pos as int) is None,
        },
{
    proof {
        reveal_strlit("null");
    }
    match expect(s, pos, "null") {
        Some(p) => Some((None, p)),
        None => {
            match parse_u64(s, pos) {
                Some((n, p)) => Some((Some(n), p)),
                None => None,
            }
        },
    }
}

/// Reads an optional objective vector.
pub fn dec_opt_values(s: &Vec<char>, pos: usize) -> (r: Option<
    (Option<crate::trial::Values>, usize),
>)
    requires
        pos <= s@.len(),
    ensures
        match r {
            Some((v, p)) => spec_dec_opt_values(s@, pos as int) == Some(
                (
                    match v {
                        Some(vs) => Some(vs@),
                        None => None,
                    },
                    p as int,
                ),
            ) && p <= s@.len(),
            None => spec_dec_opt_values(s@, pos as int) is None,
        },
{
    proof {
        reveal_strlit("null");
    }
    match expect(s, pos, "null") {
        Some(p) => Some((None, p)),
        None => {
            match dec_values(s, pos) {
                Some((vs, p)) => Some((Some(vs), p)),
                None => None,
            }
        },
    }
}

/// Reads an optional message string.
pub fn dec_opt_str(s: &Vec<char>, pos: usize) -> (r: Option<(Option<String>, usize)>)
    requires
        pos <= s@.len(),
    ensures
        match r {
            Some((v, p)) => spec_dec_opt_str(s@, pos as int) == Some(
                (
                    match &v {
                        Some(m) => Some(m@),
                        None => None,
                    },
                    p as int,
                ),
            ) && p <= s@.len(),
            None => spec_dec_opt_str(s@, pos as int) is None,
        },
{
    proof {
        reveal_strlit("null");
    }
    match expect(s, pos, "null") {
        Some(p) => Some((None, p)),
        None => {
            match parse_string(s, pos) {
                Some((m, p)) => Some((Some(m), p)),
                None => None,
            }
        },
    }
}

/// Reads an error kind name.
pub fn dec_error_kind(s: &Vec<char>, pos: usize) -> (r: Option<(crate::ErrorKind, usize)>)
    requires
        pos <= s@.len(),
    ensures
        match r {
            Some((k, p)) => spec_dec_error_kind(s@, pos as int) == Some((k, p as int)) && p
                <= s@.len(),
            None => spec_dec_error_kind(s@, pos as int) is None,
        },
{
    if let Some(p) = expect(s, pos, "\"INVALID_INPUT\"") {
        Some((crate::ErrorKind::InvalidInput, p))
    } else if let Some(p) = expect(s, pos, "\"IO_ERROR\"") {
        Some((crate::ErrorKind::IoError, p))
    } else if let Some(p) = expect(s, pos, "\"UNEVALUABLE\"") {
        Some((crate::ErrorKind::Unevaluable, p))
    } else if let Some(p) = expect(s, pos, "\"BUG\"") {
        Some((crate::ErrorKind::Bug, p))
    } else if let Some(p) = expect(s, pos, "\"OTHER\"") {
        Some((crate::ErrorKind::Other, p))
    } else {
        None
    }
}

/// Reads a proposed trial.
pub fn dec_next_trial(s: &Vec<char>, pos: usize) -> (r: Option<(crate::trial::NextTrial, usize)>)
    requires
        pos <= s@.len(),
    ensures
        match r {
            Some((v, p)) => spec_dec_next_trial(s@, pos as int) == Some((v@, p as int)) && p
                <= s@.len(),
            None => spec_dec_next_trial(s@, pos as int) is None,
        },
{
    proof {
        reveal_strlit("}");
    }
    let p0 = match expect(s, pos, "{\"id\":") {
        Some(p) => p,
        None => {
            return None;
        },
    };
    let (id, p1) = match parse_u64(s, p0) {
        Some(x) => x,
        None => {
            return None;
        },
    };
    let p2 = match expect(s, p1, ",\"params\":") {
        Some(p) => p,
        None => {
            return None;
        },
    };
    let (params, p3) = match dec_params(s, p2) {
        Some(x) => x,
        None => {
            return None;
        },
    };
    let p4 = match expect(s, p3, ",\"next_step\":") {
        Some(p) => p,
        None => {
            return None;
        },
    };
    let (next_step, p5) = match dec_opt_u64(s, p4) {
        Some(x) => x,
        None => {
            return None;
        },
    };
    let p6 = match expect(s, p5, "}") {
        Some(p) => p,
        None => {
            return None;
        },
    };
    Some((crate::trial::NextTrial { id, params, next_step }, p6))
}

/// Reads an evaluated trial.
pub fn dec_evaluated_trial(s: &Vec<char>, pos: usize) -> (r: Option<
    (crate::trial::EvaluatedTrial, usize),
>)
    requires
        pos <= s@.len(),
    ensures
        match r {
            Some((v, p)) => spec_dec_evaluated_trial(s@, pos as int) == Some((v@, p as int)) && p
                <= s@.len(),
            None => spec_dec_evaluated_trial(s@, pos as int) is None,
        },
{
    proof {
        reveal_strlit("}");
    }
    let p0 = match expect(s, pos, "{\"id\":") {
        Some(p) => p,
        None => {
            return None;
        },
    };
    let (id, p1) = match parse_u64(s, p0) {
        Some(x) => x,
        None => {
            return None;
        },
    };
    let p2 = match expect(s, p1, ",\"values\":") {
        Some(p) => p,
        None => {
            return None;
        },
    };
    let (values, p3) = match dec_opt_values(s, p2) {
        Some(x) => x,
        None => {
            return None;
        },
    };
    let p4 = match expect(s, p3, ",\"current_step\":") {
        Some(p) => p,
        None => {
            return None;
        },
    };
    let (current_step, p5) = match parse_u64(s, p4) {
        Some(x) => x,
        None => {
            return None;
        },
    };
    let p6 = match expect(s, p5, "}") {
        Some(p) => p,
        None => {
            return None;
        },
    };
    Some((crate::trial::EvaluatedTrial { id, values, current_step }, p6))
}

/// Reads the items of a non-empty list of strings.
pub fn dec_strs_items(s: &Vec<char>, pos: usize) -> (r: Option<(Vec<String>, usize)>)
    requires
        pos <= s@.len(),
    ensures
        match r {
            Some((v, p)) => spec_dec_strs_items(s@, pos as int) == Some(
                (crate::domain::str_views(v@), p as int),
            ) && p <= s@.len(),
            None => spec_dec_strs_items(s@, pos as int) is None,
        },
    decreases s@.len() - pos,
{
    let (t, p) = match parse_string(s, pos) {
        Some(x) => x,
        None => {
            return None;
        },
    };
    if p >= s.len() {
        return None;
    }
    let c = s[p];
    if c == ']' {
        let mut v0: Vec<String> = Vec::new();
        v0.push(t);
        proof {
            assert(crate::domain::str_views(v0@) =~= seq![v0@[0]@]);
        }
        Some((v0, p + 1))
    } else if c == ',' && p > pos {
        match dec_strs_items(s, p + 1) {
            Some((tl, q)) => {
                let ghost tlv = crate::domain::str_views(tl@);
                let ghost tview = t@;
                let mut v0 = tl;
                v0.insert(0, t);
                proof {
                    assert(crate::domain::str_views(v0@) =~= seq![tview] + tlv);
                }
                Some((v0, q))
            },
            None => None,
        }
    } else {
        None
    }
}

/// Reads a list of strings.
pub fn dec_strs(s: &Vec<char>, pos: usize) -> (r: Option<(Vec<String>, usize)>)
    requires
        pos <= s@.len(),
    ensures
        match r {
            Some((v, p)) => spec_dec_strs(s@, pos as int) == Some(
                (crate::domain::str_views(v@), p as int),
            ) && p <= s@.len(),
            None => spec_dec_strs(s@, pos as int) is None,
        },
{
    if pos >= s.len() || s[pos] != '[' {
        return None;
    }
    if pos + 1 < s.len() && s[pos + 1] == ']' {
        let v0: Vec<String> = Vec::new();
        proof {
            assert(crate::domain::str_views(v0@) =~= Seq::<Seq<char>>::empty());
        }
        return Some((v0, pos + 2));
    }
    dec_strs_items(s, pos + 1)
}

/// Reads the entries of a non-empty attribute map.
pub fn dec_attrs_items(s: &Vec<char>, pos: usize) -> (r: Option<(Vec<(String, String)>, usize)>)
    requires
        pos <= s@.len(),
    ensures
        match r {
            Some((v, p)) => spec_dec_attrs_items(s@, pos as int) == Some(
                (crate::attr_views(v@), p as int),
            ) && p <= s@.len(),
            None => spec_dec_attrs_items(s@, pos as int) is None,
        },
    decreases s@.len() - pos,
{
    let (k, p) = match parse_string(s, pos) {
        Some(x) => x,
        None => {
            return None;
        },
    };
    if p >= s.len() || s[p] != ':' {
        return None;
    }
    let (val, q) = match parse_string(s, p + 1) {
        Some(x) => x,
        None => {
            return None;
        },
    };
    if q >= s.len() {
        return None;
    }
    let c = s[q];
    if c == '}' {
        let mut v0: Vec<(String, String)> = Vec::new();
        v0.push((k, val));
        proof {
            assert(crate::attr_views(v0@) =~= seq![(v0@[0].0@, v0@[0].1@)]);
        }
        Some((v0, q + 1))
    } else if c == ',' && q > pos {
        match dec_attrs_items(s, q + 1) {
            Some((tl, r2)) => {
                let ghost tlv = crate::attr_views(tl@);
                let ghost kv = (k@, val@);
                let mut v0 = tl;
                v0.insert(0, (k, val));
                proof {
                    assert(crate::attr_views(v0@) =~= seq![kv] + tlv);
                }
                Some((v0, r2))
            },
            None => None,
        }
    } else {
        None
    }
}

/// Reads an attribute map.
pub fn dec_attrs(s: &Vec<char>, pos: usize) -> (r: Option<(Vec<(String, String)>, usize)>)
    requires
        pos <= s@.len(),
    ensures
        match r {
            Some((v, p)) => spec_dec_attrs(s@, pos as int) == Some(
                (crate::attr_views(v@), p as int),
            ) && p <= s@.len(),
            None => spec_dec_attrs(s@, pos as int) is None,
        },
{
    if pos >= s.len() || s[pos] != '{' {
        return None;
    }
    if pos + 1 < s.len() && s[pos + 1] == '}' {
        let v0: Vec<(String, String)> = Vec::new();
        proof {
            assert(crate::attr_views(v0@) =~= Seq::<(Seq<char>, Seq<char>)>::empty());
        }
        return Some((v0, pos + 2));
    }
    dec_attrs_items(s, pos + 1)
}

/// Reads a distribution name.
pub fn dec_distribution(s: &Vec<char>, pos: usize) -> (r: Option<
    (crate::domain::Distribution, usize),
>)
    requires
        pos <= s@.len(),
    ensures
        match r {
            Some((d, p)) => spec_dec_distribution(s@, pos as int) == Some((d, p as int)) && p
                <= s@.len(),
            None => spec_dec_distribution(s@, pos as int) is None,
        },
{
    if let Some(p) = expect(s, pos, "\"UNIFORM\"") {
        Some((crate::domain::Distribution::Uniform, p))
    } else if let Some(p) = expect(s, pos, "\"LOG_UNIFORM\"") {
        Some((crate::domain::Distribution::LogUniform, p))
    } else {
        None
    }
}

/// Reads a condition.
pub fn dec_condition(s: &Vec<char>, pos: usize) -> (r: Option<(crate::domain::Condition, usize)>)
    requires
        pos <= s@.len(),
    ensures
        match r {
            Some((c, p)) => spec_dec_condition(s@, pos as int) == Some((c@, p as int)) && p
                <= s@.len(),
            None => spec_dec_condition(s@, pos as int) is None,
        },
{
    proof {
        reveal_strlit("}}");
    }
    let p0 = match expect(s, pos, "{\"EQ\":{\"target\":") {
        Some(p) => p,
        None => {
            return None;
        },
    };
    let (target, p1) = match parse_string(s, p0) {
        Some(x) => x,
        None => {
            return None;
        },
    };
    let p2 = match expect(s, p1, ",\"value\":") {
        Some(p) => p,
        None => {
            return None;
        },
    };
    let (value, p3) = match parse_ticks(s, p2) {
        Some(x) => x,
        None => {
            return None;
        },
    };
    let p4 = match expect(s, p3, "}}") {
        Some(p) => p,
        None => {
            return None;
        },
    };
    Some((crate::domain::Condition::Eq { target, value }, p4))
}

/// Reads a range.
pub fn dec_range(s: &Vec<char>, pos: usize) -> (r: Option<(crate::domain::Range, usize)>)
    requires
        pos <= s@.len(),
    ensures
        match r {
            Some((v, p)) => spec_dec_range(s@, pos as int) == Some((v@, p as int)) && p
                <= s@.len(),
            None => spec_dec_range(s@, pos as int) is None,
        },
{
    proof {
        reveal_strlit("}}");
    }
    if let Some(p0) = expect(s, pos, "{\"CONTINUOUS\":{\"low\":") {
        let (low, p1) = match parse_ticks(s, p0) {
            Some(x) => x,
            None => {
                return None;
            },
        };
        let p2 = match expect(s, p1, ",\"high\":") {
            Some(p) => p,
            None => {
                return None;
            },
        };
        let (high, p3) = match parse_ticks(s, p2) {
            Some(x) => x,
            None => {
                return None;
            },
        };
        let p4 = match expect(s, p3, "}}") {
            Some(p) => p,
            None => {
                return None;
            },
        };
        Some((crate::domain::Range::Continuous { low, high }, p4))
    } else if let Some(p0) = expect(s, pos, "{\"DISCRETE\":{\"low\":") {
        let (low, p1) = match crate::text::parse_i64(s, p0) {
            Some(x) => x,
            None => {
                return None;
            },
        };
        let p2 = match expect(s, p1, ",\"high\":") {
            Some(p) => p,
            None => {
                return None;
            },
        };
        let (high, p3) = match crate::text::parse_i64(s, p2) {
            Some(x) => x,
            None => {
                return None;
            },
        };
        let p4 = match expect(s, p3, "}}") {
            Some(p) => p,
            None => {
                return None;
            },
        };
        Some((crate::domain::Range::Discrete { low, high }, p4))
    } else if let Some(p0) = expect(s, pos, "{\"CATEGORICAL\":{\"choices\":") {
        let (choices, p1) = match dec_strs(s, p0) {
            Some(x) => x,
            None => {
                return None;
            },
        };
        let p2 = match expect(s, p1, "}}") {
            Some(p) => p,
            None => {
                return None;
            },
        };
        Some((crate::domain::Range::Categorical { choices }, p2))
    } else {
        None
    }
}

/// Reads the items of a non-empty condition list.
pub fn dec_conditions_items(s: &Vec<char>, pos: usize) -> (r: Option<
    (Vec<crate::domain::Condition>, usize),
>)
    requires
        pos <= s@.len(),
    ensures
        match r {
            Some((v, p)) => spec_dec_conditions_items(s@, pos as int) == Some(
                (crate::domain::cond_views(v@), p as int),
            ) && p <= s@.len(),
            None => spec_dec_conditions_items(s@, pos as int) is None,
        },
    decreases s@.len() - pos,
{
    let (t, p) = match dec_condition(s, pos) {
        Some(x) => x,
        None => {
            return None;
        },
    };
    if p >= s.len() {
        return None;
    }
    let c = s[p];
    if c == ']' {
        let ghost tv = t@;
        let mut v0: Vec<crate::domain::Condition> = Vec::new();
        v0.push(t);
        proof {
            assert(crate::domain::cond_views(v0@) =~= seq![tv]);
        }
        Some((v0, p + 1))
    } else if c == ',' && p > pos {
        match dec_conditions_items(s, p + 1) {
            Some((tl, q)) => {
                let ghost tlv = crate::domain::cond_views(tl@);
                let ghost tv = t@;
                let mut v0 = tl;
                v0.insert(0, t);
                proof {
                    assert(crate::domain::cond_views(v0@) =~= seq![tv] + tlv);
                }
                Some((v0, q))
            },
            None => None,
        }
    } else {
        None
    }
}

/// Reads a condition list.
pub fn dec_conditions(s: &Vec<char>, pos: usize) -> (r: Option<
    (Vec<crate::domain::Condition>, usize),
>)
    requires
        pos <= s@.len(),
    ensures
        match r {
            Some((v, p)) => spec_dec_conditions(s@, pos as int) == Some(
                (crate::domain::cond_views(v@), p as int),
            ) && p <= s@.len(),
            None => spec_dec_conditions(s@, pos as int) is None,
        },
{
    if pos >= s.len() || s[pos] != '[' {
        return None;
    }
    if pos + 1 < s.len() && s[pos + 1] == ']' {
        let v0: Vec<crate::domain::Condition> = Vec::new();
        proof {
            assert(crate::domain::cond_views(v0@) =~= Seq::<crate::domain::ConditionView>::empty());
        }
        return Some((v0, pos + 2));
    }
    dec_conditions_items(s, pos + 1)
}

/// Reads a variable.
pub fn dec_variable(s: &Vec<char>, pos: usize) -> (r: Option<(crate::domain::Variable, usize)>)
    requires
        pos <= s@.len(),
    ensures
        match r {
            Some((v, p)) => spec_dec_variable(s@, pos as int) == Some((v@, p as int)) && p
                <= s@.len(),
            None => spec_dec_variable(s@, pos as int) is None,
        },
{
    proof {
        reveal(spec_dec_variable);
        reveal_strlit("}");
    }
    let p0 = match expect(s, pos, "{\"name\":") {
        Some(p) => p,
        None => {
            return None;
        },
    };
    let (name, p1) = match parse_string(s, p0) {
        Some(x) => x,
        None => {
            return None;
        },
    };
    let p2 = match expect(s, p1, ",\"range\":") {
        Some(p) => p,
        None => {
            return None;
        },
    };
    let (range, p3) = match dec_range(s, p2) {
        Some(x) => x,
        None => {
            return None;
        },
    };
    let p4 = match expect(s, p3, ",\"distribution\":") {
        Some(p) => p,
        None => {
            return None;
        },
    };
    let (distribution, p5) = match dec_distribution(s, p4) {
        Some(x) => x,
        None => {
            return None;
        },
    };
    let p6 = match expect(s, p5, ",\"conditions\":") {
        Some(p) => p,
        None => {
            return None;
        },
    };
    let (conditions, p7) = match dec_conditions(s, p6) {
        Some(x) => x,
        None => {
            return None;
        },
    };
    let p8 = match expect(s, p7, "}") {
        Some(p) => p,
        None => {
            return None;
        },
    };
    Some((crate::domain::Variable { name, range, distribution, conditions }, p8))
}

/// Reads the items of a non-empty variable list.
pub fn dec_domain_items(s: &Vec<char>, pos: usize) -> (r: Option<
    (Vec<crate::domain::Variable>, usize),
>)
    requires
        pos <= s@.len(),
    ensures
        match r {
            Some((v, p)) => spec_dec_domain_items(s@, pos as int) == Some(
                (crate::domain::views_of(v@), p as int),
            ) && p <= s@.len(),
            None => spec_dec_domain_items(s@, pos as int) is None,
        },
    decreases s@.len() - pos,
{
    let (t, p) = match dec_variable(s, pos) {
        Some(x) => x,
        None => {
            return None;
        },
    };
    if p >= s.len() {
        return None;
    }
    let c = s[p];
    if c == ']' {
        let ghost tv = t@;
        let mut v0: Vec<crate::domain::Variable> = Vec::new();
        v0.push(t);
        proof {
            assert(crate::domain::views_of(v0@) =~= seq![tv]);
        }
        Some((v0, p + 1))
    } else if c == ',' && p > pos {
        match dec_domain_items(s, p + 1) {
            Some((tl, q)) => {
                let ghost tlv = crate::domain::views_of(tl@);
                let ghost tv = t@;
                let mut v0 = tl;
                v0.insert(0, t);
                proof {
                    assert(crate::domain::views_of(v0@) =~= seq![tv] + tlv);
                }
                Some((v0, q))
            },
            None => None,
        }
    } else {
        None
    }
}

/// Reads a domain.
pub fn dec_domain(s: &Vec<char>, pos: usize) -> (r: Option<(crate::domain::Domain, usize)>)
    requires
        pos <= s@.len(),
    ensures
        match r {
            Some((v, p)) => spec_dec_domain(s@, pos as int) == Some((v@, p as int)) && p
                <= s@.len(),
            None => spec_dec_domain(s@, pos as int) is None,
        },
{
    proof {
        reveal(spec_dec_domain);
    }
    if pos >= s.len() || s[pos] != '[' {
        return None;
    }
    if pos + 1 < s.len() && s[pos + 1] == ']' {
        let v0: Vec<crate::domain::Variable> = Vec::new();
        let d = crate::domain::Domain(v0);
        proof {
            assert(d@ =~= Seq::<crate::domain::VariableView>::empty());
        }
        return Some((d, pos + 2));
    }
    match dec_domain_items(s, pos + 1) {
        Some((v, p)) => Some((crate::domain::Domain(v), p)),
        None => None,
    }
}

/// Reads a problem specification.
pub fn dec_pspec(s: &Vec<char>, pos: usize) -> (r: Option<(crate::problem::ProblemSpec, usize)>)
    requires
        pos <= s@.len(),
    ensures
        match r {
            Some((v, p)) => spec_dec_pspec(s@, pos as int) == Some((v@, p as int)) && p
                <= s@.len(),
            None => spec_dec_pspec(s@, pos as int) is None,
        },
{
    proof {
        reveal_strlit("}");
    }
    let p0 = match expect(s, pos, "{\"name\":") {
        Some(p) => p,
        None => {
            return None;
        },
    };
    let (name, p1) = match parse_string(s, p0) {
        Some(x) => x,
        None => {
            return None;
        },
    };
    let p2 = match expect(s, p1, ",\"attrs\":") {
        Some(p) => p,
        None => {
            return None;
        },
    };
    let (attrs, p3) = match dec_attrs(s, p2) {
        Some(x) => x,
        None => {
            return None;
        },
    };
    let p4 = match expect(s, p3, ",\"params_domain\":") {
        Some(p) => p,
        None => {
            return None;
        },
    };
    let (params_domain, p5) = match dec_domain(s, p4) {
        Some(x) => x,
        None => {
            return None;
        },
    };
    let p6 = match expect(s, p5, ",\"values_domain\":") {
        Some(p) => p,
        None => {
            return None;
        },
    };
    let (values_domain, p7) = match dec_domain(s, p6) {
        Some(x) => x,
        None => {
            return None;
        },
    };
    let p8 = match expect(s, p7, ",\"evaluation_steps\":") {
        Some(p) => p,
        None => {
            return None;
        },
    };
    let (evaluation_steps, p9) = match parse_u64(s, p8) {
        Some(x) => x,
        None => {
            return None;
        },
    };
    let p10 = match expect(s, p9, "}") {
        Some(p) => p,
        None => {
            return None;
        },
    };
    Some(
        (
            crate::problem::ProblemSpec {
                name,
                attrs,
                params_domain,
                values_domain,
                evaluation_steps,
            },
            p10,
        ),
    )
}

/// Reads one capability name.
pub fn dec_capability(s: &Vec<char>, pos: usize) -> (r: Option<
    (crate::capability::Capability, usize),
>)
    requires
        pos <= s@.len(),
    ensures
        match r {
            Some((c, p)) => spec_dec_capability(s@, pos as int) == Some((c, p as int)) && p
                <= s@.len(),
            None => spec_dec_capability(s@, pos as int) is None,
        },
{
    if let Some(p) = expect(s, pos, "\"UNIFORM_CONTINUOUS\"") {
        Some((crate::capability::Capability::UniformContinuous, p))
    } else if let Some(p) = expect(s, pos, "\"UNIFORM_DISCRETE\"") {
        Some((crate::capability::Capability::UniformDiscrete, p))
    } else if let Some(p) = expect(s, pos, "\"LOG_UNIFORM_CONTINUOUS\"") {
        Some((crate::capability::Capability::LogUniformContinuous, p))
    } else if let Some(p) = expect(s, pos, "\"LOG_UNIFORM_DISCRETE\"") {
        Some((crate::capability::Capability::LogUniformDiscrete, p))
    } else if let Some(p) = expect(s, pos, "\"CATEGORICAL\"") {
        Some((crate::capability::Capability::Categorical, p))
    } else if let Some(p) = expect(s, pos, "\"CONDITIONAL\"") {
        Some((crate::capability::Capability::Conditional, p))
    } else if let Some(p) = expect(s, pos, "\"MULTI_OBJECTIVE\"") {
        Some((crate::capability::Capability::MultiObjective, p))
    } else {
        None
    }
}

/// Reads the items of a non-empty capability list into `acc`.
pub fn dec_caps_items(
    s: &Vec<char>,
    pos: usize,
    acc: crate::capability::Capabilities,
) -> (r: Option<(crate::capability::Capabilities, usize)>)
    requires
        pos <= s@.len(),
    ensures
        match r {
            Some((v, p)) => spec_dec_caps_items(s@, pos as int, acc) == Some((v, p as int)) && p
                <= s@.len(),
            None => spec_dec_caps_items(s@, pos as int, acc) is None,
        },
    decreases s@.len() - pos,
{
    let (c, p) = match dec_capability(s, pos) {
        Some(x) => x,
        None => {
            return None;
        },
    };
    let acc2 = match c {
        crate::capability::Capability::UniformContinuous => acc.uniform_continuous(),
        crate::capability::Capability::UniformDiscrete => acc.uniform_discrete(),
        crate::capability::Capability::LogUniformContinuous => acc.log_uniform_continuous(),
        crate::capability::Capability::LogUniformDiscrete => acc.log_uniform_discrete(),
        crate::capability::Capability::Categorical => acc.categorical(),
        crate::capability::Capability::Conditional => acc.conditional(),
        crate::capability::Capability::MultiObjective => acc.multi_objective(),
    };
    if p >= s.len() {
        return None;
    }
    let ch = s[p];
    if ch == ']' {
        Some((acc2, p + 1))
    } else if ch == ',' && p > pos {
        dec_caps_items(s, p + 1, acc2)
    } else {
        None
    }
}

/// Reads a capability set.
pub fn dec_caps(s: &Vec<char>, pos: usize) -> (r: Option<
    (crate::capability::Capabilities, usize),
>)
    requires
        pos <= s@.len(),
    ensures
        match r {
            Some((v, p)) => spec_dec_caps(s@, pos as int) == Some((v, p as int)) && p <= s@.len(),
            None => spec_dec_caps(s@, pos as int) is None,
        },
{
    if pos >= s.len() || s[pos] != '[' {
        return None;
    }
    let none = crate::capability::Capabilities {
        uniform_continuous: false,
        uniform_discrete: false,
        log_uniform_continuous: false,
        log_uniform_discrete: false,
        categorical: false,
        conditional: false,
        multi_objective: false,
    };
    if pos + 1 < s.len() && s[pos + 1] == ']' {
        return Some((none, pos + 2));
    }
    dec_caps_items(s, pos + 1, none)
}

/// Reads a solver specification.
pub fn dec_sspec(s: &Vec<char>, pos: usize) -> (r: Option<(crate::capability::SolverSpec, usize)>)
    requires
        pos <= s@.len(),
    ensures
        match r {
            Some((v, p)) => spec_dec_sspec(s@, pos as int) == Some((v@, p as int)) && p
                <= s@.len(),
            None => spec_dec_sspec(s@, pos as int) is None,
        },
{
    proof {
        reveal_strlit("}");
    }
    let p0 = match expect(s, pos, "{\"name\":") {
        Some(p) => p,
        None => {
            return None;
        },
    };
    let (name, p1) = match parse_string(s, p0) {
        Some(x) => x,
        None => {
            return None;
        },
    };
    let p2 = match expect(s, p1, ",\"attrs\":") {
        Some(p) => p,
        None => {
            return None;
        },
    };
    let (attrs, p3) = match dec_attrs(s, p2) {
        Some(x) => x,
        None => {
            return None;
        },
    };
    let p4 = match expect(s, p3, ",\"capabilities\":") {
        Some(p) => p,
        None => {
            return None;
        },
    };
    let (capabilities, p5) = match dec_caps(s, p4) {
        Some(x) => x,
        None => {
            return None;
        },
    };
    let p6 = match expect(s, p5, "}") {
        Some(p) => p,
        None => {
            return None;
        },
    };
    Some((crate::capability::SolverSpec { name, attrs, capabilities }, p6))
}

/// Reads one whole problem protocol message.
#[verifier::rlimit(100)]
#[verifier::spinoff_prover]
pub fn dec_problem_message(s: &Vec<char>) -> (r: Option<crate::message::ProblemMessage>)
    ensures
        match &r {
            Some(m) => spec_dec_problem_message(s@) == Some(m@),
            None => spec_dec_problem_message(s@) is None,
        },
{
    proof {
        reveal_strlit("}");
    }
    if let Some(p0) = expect(s, 0, "{\"type\":\"PROBLEM_SPEC_CAST\",\"spec\":") {
        match dec_pspec(s, p0) {
            Some((spec, p)) => {
                match expect(s, p, "}") {
                    Some(p2) => if p2 == s.len() {
                        Some(crate::message::ProblemMessage::ProblemSpecCast { spec })
                    } else {
                        None
                    },
                    None => None,
                }
            },
            None => None,
        }
    } else if let Some(p0) = expect(s, 0, "{\"type\":\"CREATE_PROBLEM_CAST\",\"problem_id\":") {
        match parse_u64(s, p0) {
            Some((problem_id, p1)) => {
                match expect(s, p1, ",\"random_seed\":") {
                    Some(p2) => match parse_u64(s, p2) {
                        Some((random_seed, p3)) => match expect(s, p3, "}") {
                            Some(p4) => if p4 == s.len() {
                                Some(
                                    crate::message::ProblemMessage::CreateProblemCast {
                                        problem_id,
                                        random_seed,
                                    },
                                )
                            } else {
                                None
                            },
                            None => None,
                        },
                        None => None,
                    },
                    None => None,
                }
            },
            None => None,
        }
    } else if let Some(p0) = expect(s, 0, "{\"type\":\"DROP_PROBLEM_CAST\",\"problem_id\":") {
        match parse_u64(s, p0) {
            Some((problem_id, p1)) => match expect(s, p1, "}") {
                Some(p2) => if p2 == s.len() {
                    Some(crate::message::ProblemMessage::DropProblemCast { problem_id })
                } else {
                    None
                },
                None => None,
            },
            None => None,
        }
    } else if let Some(p0) = expect(s, 0, "{\"type\":\"CREATE_EVALUATOR_CALL\",\"problem_id\":") {
        match parse_u64(s, p0) {
            Some((problem_id, p1)) => match expect(s, p1, ",\"evaluator_id\":") {
                Some(p2) => match parse_u64(s, p2) {
                    Some((evaluator_id, p3)) => match expect(s, p3, ",\"params\":") {
                        Some(p4) => match dec_params(s, p4) {
                            Some((params, p5)) => match expect(s, p5, "}") {
                                Some(p6) => if p6 == s.len() {
                                    Some(
                                        crate::message::ProblemMessage::CreateEvaluatorCall {
                                            problem_id,
                                            evaluator_id,
                                            params,
                                        },
                                    )
                                } else {
                                    None
                                },
                                None => None,
                            },
                            None => None,
                        },
                        None => None,
                    },
                    None => None,
                },
                None => None,
            },
            None => None,
        }
    } else if let Some(p0) = expect(s, 0, "{\"type\":\"CREATE_EVALUATOR_REPLY\"}") {
        if p0 == s.len() {
            Some(crate::message::ProblemMessage::CreateEvaluatorReply)
        } else {
            None
        }
    } else if let Some(p0) = expect(s, 0, "{\"type\":\"DROP_EVALUATOR_CAST\",\"problem_id\":") {
        match parse_u64(s, p0) {
            Some((problem_id, p1)) => match expect(s, p1, ",\"evaluator_id\":") {
                Some(p2) => match parse_u64(s, p2) {
                    Some((evaluator_id, p3)) => match expect(s, p3, "}") {
                        Some(p4) => if p4 == s.len() {
                            Some(
                                crate::message::ProblemMessage::DropEvaluatorCast {
                                    problem_id,
                                    evaluator_id,
                                },
                            )
                        } else {
                            None
                        },
                        None => None,
                    },
                    None => None,
                },
                None => None,
            },
            None => None,
        }
    } else if let Some(p0) = expect(s, 0, "{\"type\":\"EVALUATE_CALL\",\"problem_id\":") {
        match parse_u64(s, p0) {
            Some((problem_id, p1)) => match expect(s, p1, ",\"evaluator_id\":") {
                Some(p2) => match parse_u64(s, p2) {
                    Some((evaluator_id, p3)) => match expect(s, p3, ",\"next_step\":") {
                        Some(p4) => match parse_u64(s, p4) {
                            Some((next_step, p5)) => match expect(s, p5, "}") {
                                Some(p6) => if p6 == s.len() {
                                    Some(
                                        crate::message::ProblemMessage::EvaluateCall {
                                            problem_id,
                                            evaluator_id,
                                            next_step,
                                        },
                                    )
                                } else {
                                    None
                                },
                                None => None,
                            },
                            None => None,
                        },
                        None => None,
                    },
                    None => None,
                },
                None => None,
            },
            None => None,
        }
    } else if let Some(p0) = expect(s, 0, "{\"type\":\"EVALUATE_REPLY\",\"current_step\":") {
        match parse_u64(s, p0) {
            Some((current_step, p1)) => match expect(s, p1, ",\"values\":") {
                Some(p2) => match dec_values(s, p2) {
                    Some((values, p3)) => match expect(s, p3, "}") {
                        Some(p4) => if p4 == s.len() {
                            Some(
                                crate::message::ProblemMessage::EvaluateReply {
                                    current_step,
                                    values,
                                },
                            )
                        } else {
                            None
                        },
                        None => None,
                    },
                    None => None,
                },
                None => None,
            },
            None => None,
        }
    } else if let Some(p0) = expect(s, 0, "{\"type\":\"ERROR_REPLY\",\"kind\":") {
        match dec_error_kind(s, p0) {
            Some((kind, p1)) => match expect(s, p1, ",\"message\":") {
                Some(p2) => match dec_opt_str(s, p2) {
                    Some((message, p3)) => match expect(s, p3, "}") {
                        Some(p4) => if p4 == s.len() {
                            Some(crate::message::ProblemMessage::ErrorReply { kind, message })
                        } else {
                            None
                        },
                        None => None,
                    },
                    None => None,
                },
                None => None,
            },
            None => None,
        }
    } else {
        None
    }
}

/// Reads one whole solver protocol message.
#[verifier::rlimit(100)]
#[verifier::spinoff_prover]
pub fn dec_solver_message(s: &Vec<char>) -> (r: Option<crate::message::SolverMessage>)
    ensures
        match &r {
            Some(m) => spec_dec_solver_message(s@) == Some(m@),
            None => spec_dec_solver_message(s@) is None,
        },
{
    proof {
        reveal_strlit("}");
    }
    if let Some(p0) = expect(s, 0, "{\"type\":\"SOLVER_SPEC_CAST\",\"spec\":") {
        match dec_sspec(s, p0) {
            Some((spec, p)) => match expect(s, p, "}") {
                Some(p2) => if p2 == s.len() {
                    Some(crate::message::SolverMessage::SolverSpecCast { spec })
                } else {
                    None
                },
                None => None,
            },
            None => None,
        }
    } else if let Some(p0) = expect(s, 0, "{\"type\":\"CREATE_SOLVER_CAST\",\"solver_id\":") {
        match parse_u64(s, p0) {
            Some((solver_id, p1)) => match expect(s, p1, ",\"random_seed\":") {
                Some(p2) => match parse_u64(s, p2) {
                    Some((random_seed, p3)) => match expect(s, p3, ",\"problem\":") {
                        Some(p4) => match dec_pspec(s, p4) {
                            Some((problem, p5)) => match expect(s, p5, "}") {
                                Some(p6) => if p6 == s.len() {
                                    Some(
                                        crate::message::SolverMessage::CreateSolverCast {
                                            solver_id,
                                            random_seed,
                                            problem,
                                        },
                                    )
                                } else {
                                    None
                                },
                                None => None,
                            },
                            None => None,
                        },
                        None => None,
                    },
                    None => None,
                },
                None => None,
            },
            None => None,
        }
    } else if let Some(p0) = expect(s, 0, "{\"type\":\"DROP_SOLVER_CAST\",\"solver_id\":") {
        match parse_u64(s, p0) {
            Some((solver_id, p1)) => match expect(s, p1, "}") {
                Some(p2) => if p2 == s.len() {
                    Some(crate::message::SolverMessage::DropSolverCast { solver_id })
                } else {
                    None
                },
                None => None,
            },
            None => None,
        }
    } else if let Some(p0) = expect(s, 0, "{\"type\":\"ASK_CALL\",\"solver_id\":") {
        match parse_u64(s, p0) {
            Some((solver_id, p1)) => match expect(s, p1, ",\"next_trial_id\":") {
                Some(p2) => match parse_u64(s, p2) {
                    Some((next_trial_id, p3)) => match expect(s, p3, "}") {
                        Some(p4) => if p4 == s.len() {
                            Some(
                                crate::message::SolverMessage::AskCall {
                                    solver_id,
                                    next_trial_id,
                                },
                            )
                        } else {
                            None
                        },
                        None => None,
                    },
                    None => None,
                },
                None => None,
            },
            None => None,
        }
    } else if let Some(p0) = expect(s, 0, "{\"type\":\"ASK_REPLY\",\"trial\":") {
        match dec_next_trial(s, p0) {
            Some((trial, p1)) => match expect(s, p1, ",\"next_trial_id\":") {
                Some(p2) => match parse_u64(s, p2) {
                    Some((next_trial_id, p3)) => match expect(s, p3, "}") {
                        Some(p4) => if p4 == s.len() {
                            Some(
                                crate::message::SolverMessage::AskReply {
                                    trial,
                                    next_trial_id,
                                },
                            )
                        } else {
                            None
                        },
                        None => None,
                    },
                    None => None,
                },
                None => None,
            },
            None => None,
        }
    } else if let Some(p0) = expect(s, 0, "{\"type\":\"TELL_CALL\",\"solver_id\":") {
        match parse_u64(s, p0) {
            Some((solver_id, p1)) => match expect(s, p1, ",\"trial\":") {
                Some(p2) => match dec_evaluated_trial(s, p2) {
                    Some((trial, p3)) => match expect(s, p3, "}") {
                        Some(p4) => if p4 == s.len() {
                            Some(crate::message::SolverMessage::TellCall { solver_id, trial })
                        } else {
                            None
                        },
                        None => None,
                    },
                    None => None,
                },
                None => None,
            },
            None => None,
        }
    } else if let Some(p0) = expect(s, 0, "{\"type\":\"TELL_REPLY\"}") {
        if p0 == s.len() {
            Some(crate::message::SolverMessage::TellReply)
        } else {
            None
        }
    } else if let Some(p0) = expect(s, 0, "{\"type\":\"ERROR_REPLY\",\"kind\":") {
        match dec_error_kind(s, p0) {
            Some((kind, p1)) => match expect(s, p1, ",\"message\":") {
                Some(p2) => match dec_opt_str(s, p2) {
                    Some((message, p3)) => match expect(s, p3, "}") {
                        Some(p4) => if p4 == s.len() {
                            Some(crate::message::SolverMessage::ErrorReply { kind, message })
                        } else {
                            None
                        },
                        None => None,
                    },
                    None => None,
                },
                None => None,
            },
            None => None,
        }
    } else {
        None
    }
}

/// Collects a string's characters into a vector.
#[verifier::loop_isolation(false)]
pub fn str_chars(s: &str) -> (r: Vec<char>)
    ensures
        r@ == s@,
{
    let n = s.unicode_len();
    let mut r: Vec<char> = Vec::new();
    let mut i: usize = 0;
    while i < n
        invariant
            0 <= i <= n,
            n == s@.len(),
            r@ =~= s@.take(i as int),
        decreases n - i,
    {
        r.push(s.get_char(i));
        i += 1;
    }
    proof {
        assert(r@ =~= s@);
    }
    r
}

/// Collects characters into a string.
#[verifier::loop_isolation(false)]
pub fn chars_to_string(v: &Vec<char>) -> (r: String)
    ensures
        r@ == v@,
{
    let mut r = String::new();
    let mut i: usize = 0;
    while i < v.len()
        invariant
            0 <= i <= v@.len(),
            r@ =~= v@.take(i as int),
        decreases v@.len() - i,
    {
        crate::text::push_char(&mut r, v[i]);
        i += 1;
    }
    proof {
        assert(r@ =~= v@);
    }
    r
}

/// Encodes a problem protocol message as its canonical JSON text.
pub fn encode_problem_message(m: &crate::message::ProblemMessage) -> (r: String)
    ensures
        r@ == spec_enc_problem_message(m@),
{
    let mut out: Vec<char> = Vec::new();
    enc_problem_message(m, &mut out);
    proof {
        assert(out@ =~= spec_enc_problem_message(m@));
    }
    chars_to_string(&out)
}

/// Decodes the canonical JSON text of a problem protocol message.
pub fn decode_problem_message(line: &str) -> (r: Option<crate::message::ProblemMessage>)
    ensures
        match &r {
            Some(m) => spec_dec_problem_message(line@) == Some(m@),
            None => spec_dec_problem_message(line@) is None,
        },
{
    let chars = str_chars(line);
    dec_problem_message(&chars)
}

/// Encodes a solver protocol message as its canonical JSON text.
pub fn encode_solver_message(m: &crate::message::SolverMessage) -> (r: String)
    ensures
        r@ == spec_enc_solver_message(m@),
{
    let mut out: Vec<char> = Vec::new();
    enc_solver_message(m, &mut out);
    proof {
        assert(out@ =~= spec_enc_solver_message(m@));
    }
    chars_to_string(&out)
}

/// Decodes the canonical JSON text of a solver protocol message.
pub fn decode_solver_message(line: &str) -> (r: Option<crate::message::SolverMessage>)
    ensures
        match &r {
            Some(m) => spec_dec_solver_message(line@) == Some(m@),
            None => spec_dec_solver_message(line@) is None,
        },
{
    let chars = str_chars(line);
    dec_solver_message(&chars)
}

/// Two texts that differ at one index cannot both stand at the same
/// position.
pub proof fn lemma_at_distinct(s: Seq<char>, pos: int, a: Seq<char>, b: Seq<char>, i: int)
    requires
        at(s, pos, a),
        0 <= i < a.len(),
        i < b.len(),
        a[i] != b[i],
    ensures
        !at(s, pos, b),
{
    if at(s, pos, b) {
        assert(s.subrange(pos, pos + a.len() as int)[i] == a[i]);
        assert(s.subrange(pos, pos + b.len() as int)[i] == b[i]);
        assert(s[pos + i] == a[i]);
        assert(s[pos + i] == b[i]);
    }
}

/// An encoded error kind surrounded by text reads back as itself.
pub proof fn lemma_error_kind_round(pre: Seq<char>, k: crate::ErrorKind, rest: Seq<char>)
    ensures
        spec_dec_error_kind(pre + spec_enc_error_kind(k) + rest, pre.len() as int) == Some(
            (k, pre.len() + spec_enc_error_kind(k).len() as int),
        ),
{
    reveal_strlit("\"INVALID_INPUT\"");
    reveal_strlit("\"IO_ERROR\"");
    reveal_strlit("\"UNEVALUABLE\"");
    reveal_strlit("\"BUG\"");
    reveal_strlit("\"OTHER\"");
    let enc = spec_enc_error_kind(k);
    let s = pre + enc + rest;
    let pos = pre.len() as int;
    lemma_at_concat(pre, enc, rest);
    match k {
        crate::ErrorKind::InvalidInput => {},
        crate::ErrorKind::IoError => {
            lemma_at_distinct(s, pos, enc, "\"INVALID_INPUT\""@, 2);
        },
        crate::ErrorKind::Unevaluable => {
            lemma_at_distinct(s, pos, enc, "\"INVALID_INPUT\""@, 1);
            lemma_at_distinct(s, pos, enc, "\"IO_ERROR\""@, 1);
        },
        crate::ErrorKind::Bug => {
            lemma_at_distinct(s, pos, enc, "\"INVALID_INPUT\""@, 1);
            lemma_at_distinct(s, pos, enc, "\"IO_ERROR\""@, 1);
            lemma_at_distinct(s, pos, enc, "\"UNEVALUABLE\""@, 1);
        },
        crate::ErrorKind::Other => {
            lemma_at_distinct(s, pos, enc, "\"INVALID_INPUT\""@, 1);
            lemma_at_distinct(s, pos, enc, "\"IO_ERROR\""@, 1);
            lemma_at_distinct(s, pos, enc, "\"UNEVALUABLE\""@, 1);
            lemma_at_distinct(s, pos, enc, "\"BUG\""@, 1);
        },
    }
}

/// An encoded optional message string surrounded by text reads back as
/// itself.
pub proof fn lemma_opt_str_round(pre: Seq<char>, v: Option<Seq<char>>, rest: Seq<char>)
    ensures
        spec_dec_opt_str(pre + spec_enc_opt_str(v) + rest, pre.len() as int) == Some(
            (v, pre.len() + spec_enc_opt_str(v).len() as int),
        ),
{
    reveal_strlit("null");
    let enc = spec_enc_opt_str(v);
    let s = pre + enc + rest;
    let pos = pre.len() as int;
    lemma_at_concat(pre, enc, rest);
    match v {
        None => {},
        Some(m) => {
            assert(enc =~= spec_enc_str(m));
            assert(enc[0] == '"') by {
                assert(spec_enc_str(m) =~= seq!['"'] + crate::text::spec_escape(m) + seq!['"']);
            }
            lemma_at_distinct(s, pos, enc, "null"@, 0);
            lemma_parse_str_round(pre, m, rest);
        },
    }
}

/// An encoded optional step number surrounded by text reads back as itself.
pub proof fn lemma_opt_u64_round(pre: Seq<char>, v: Option<int>, rest: Seq<char>)
    requires
        v matches Some(n) ==> 0 <= n <= u64::MAX,
        rest.len() == 0 || !is_digit(rest[0]),
    ensures
        spec_dec_opt_u64(pre + spec_enc_opt_u64(v) + rest, pre.len() as int) == Some(
            (v, pre.len() + spec_enc_opt_u64(v).len() as int),
        ),
{
    reveal_strlit("null");
    let enc = spec_enc_opt_u64(v);
    let s = pre + enc + rest;
    let pos = pre.len() as int;
    lemma_at_concat(pre, enc, rest);
    match v {
        None => {},
        Some(n) => {
            crate::text::lemma_spec_digits(n);
            assert(is_digit(enc[0]));
            lemma_at_distinct(s, pos, enc, "null"@, 0);
            lemma_dec_u64_round(pre, n, rest);
        },
    }
}

/// An encoded optional objective vector surrounded by text reads back as
/// itself.
pub proof fn lemma_opt_values_round(pre: Seq<char>, v: Option<Seq<int>>, rest: Seq<char>)
    requires
        v matches Some(vs) ==> ticks_fit(vs),
    ensures
        spec_dec_opt_values(pre + spec_enc_opt_values(v) + rest, pre.len() as int) == Some(
            (v, pre.len() + spec_enc_opt_values(v).len() as int),
        ),
{
    reveal_strlit("null");
    let enc = spec_enc_opt_values(v);
    let s = pre + enc + rest;
    let pos = pre.len() as int;
    lemma_at_concat(pre, enc, rest);
    match v {
        None => {},
        Some(vs) => {
            assert(enc =~= spec_enc_values(vs));
            assert(enc[0] == '[') by {
                if vs.len() == 0 {
                    assert(spec_enc_values(vs) =~= seq!['[', ']']);
                } else {
                    assert(spec_enc_values(vs) =~= seq!['['] + spec_enc_values_items(vs)
                        + seq![']']);
                }
            }
            lemma_at_distinct(s, pos, enc, "null"@, 0);
            lemma_values_round(pre, vs, rest);
        },
    }
}

/// Whether a proposed trial's numbers fit the machine types.
pub open spec fn next_trial_fits(v: crate::trial::NextTrialView) -> bool {
    &&& 0 <= v.id <= u64::MAX
    &&& params_fit(v.params)
    &&& v.next_step matches Some(n) ==> 0 <= n <= u64::MAX
}

/// An encoded proposed trial surrounded by text reads back as itself.
#[verifier::rlimit(100)]
#[verifier::spinoff_prover]
pub proof fn lemma_next_trial_round(pre: Seq<char>, v: crate::trial::NextTrialView, rest: Seq<char>)
    requires
        next_trial_fits(v),
    ensures
        spec_dec_next_trial(pre + spec_enc_next_trial(v) + rest, pre.len() as int) == Some(
            (v, pre.len() + spec_enc_next_trial(v).len() as int),
        ),
{
    reveal_strlit("{\"id\":");
    reveal_strlit(",\"params\":");
    reveal_strlit(",\"next_step\":");
    reveal_strlit("}");
    let l0 = "{\"id\":"@;
    let l1 = ",\"params\":"@;
    let l2 = ",\"next_step\":"@;
    let l3 = "}"@;
    let e0 = spec_digits(v.id);
    let e1 = spec_enc_params(v.params);
    let e2 = spec_enc_opt_u64(v.next_step);
    let enc = spec_enc_next_trial(v);
    let s = pre + enc + rest;
    let r5 = l3 + rest;
    let r4 = e2 + r5;
    let r3 = l2 + r4;
    let r2 = e1 + r3;
    let r1 = l1 + r2;
    let r0 = e0 + r1;
    lemma_concat_associative(pre, enc, rest);
    lemma_concat_associative(l0 + e0 + l1 + e1 + l2 + e2, l3, rest);
    lemma_concat_associative(l0 + e0 + l1 + e1 + l2, e2, r5);
    lemma_concat_associative(l0 + e0 + l1 + e1, l2, r4);
    lemma_concat_associative(l0 + e0 + l1, e1, r3);
    lemma_concat_associative(l0 + e0, l1, r2);
    lemma_concat_associative(l0, e0, r1);
    assert(s == pre + (l0 + r0));
    lemma_concat_associative(pre, l0, r0);
    let pa = pre + l0;
    lemma_at_concat(pre, l0, r0);
    lemma_concat_associative(pa, e0, r1);
    assert(s == (pa + e0) + r1);
    assert(r1[0] == l1[0]);
    lemma_dec_u64_round(pa, v.id, r1);
    lemma_concat_associative(pa + e0, l1, r2);
    assert(s == ((pa + e0) + l1) + r2);
    lemma_at_concat(pa + e0, l1, r2);
    let pb = pa + e0 + l1;
    lemma_concat_associative(pb, e1, r3);
    assert(s == (pb + e1) + r3);
    lemma_params_round(pb, v.params, r3);
    lemma_concat_associative(pb + e1, l2, r4);
    assert(s == ((pb + e1) + l2) + r4);
    lemma_at_concat(pb + e1, l2, r4);
    let pc = pb + e1 + l2;
    lemma_concat_associative(pc, e2, r5);
    assert(s == (pc + e2) + r5);
    assert(r5[0] == l3[0]);
    lemma_opt_u64_round(pc, v.next_step, r5);
    lemma_concat_associative(pc + e2, l3, rest);
    assert(s == ((pc + e2) + l3) + rest);
    lemma_at_concat(pc + e2, l3, rest);
}

/// Whether an evaluated trial's numbers fit the machine types.
pub open spec fn evaluated_trial_fits(v: crate::trial::EvaluatedTrialView) -> bool {
    &&& 0 <= v.id <= u64::MAX
    &&& v.values matches Some(vs) ==> ticks_fit(vs)
    &&& 0 <= v.current_step <= u64::MAX
}

/// An encoded evaluated trial surrounded by text reads back as itself.
#[verifier::rlimit(100)]
#[verifier::spinoff_prover]
pub proof fn lemma_evaluated_trial_round(
    pre: Seq<char>,
    v: crate::trial::EvaluatedTrialView,
    rest: Seq<char>,
)
    requires
        evaluated_trial_fits(v),
    ensures
        spec_dec_evaluated_trial(pre + spec_enc_evaluated_trial(v) + rest, pre.len() as int)
            == Some((v, pre.len() + spec_enc_evaluated_trial(v).len() as int)),
{
    reveal_strlit("{\"id\":");
    reveal_strlit(",\"values\":");
    reveal_strlit(",\"current_step\":");
    reveal_strlit("}");
    let l0 = "{\"id\":"@;
    let l1 = ",\"values\":"@;
    let l2 = ",\"current_step\":"@;
    let l3 = "}"@;
    let e0 = spec_digits(v.id);
    let e1 = spec_enc_opt_values(v.values);
    let e2 = spec_digits(v.current_step);
    let enc = spec_enc_evaluated_trial(v);
    let s = pre + enc + rest;
    let r5 = l3 + rest;
    let r4 = e2 + r5;
    let r3 = l2 + r4;
    let r2 = e1 + r3;
    let r1 = l1 + r2;
    let r0 = e0 + r1;
    let pa = pre + l0;
    let pb = pa + e0 + l1;
    let pc = pb + e1 + l2;
    assert(s == ((pre + l0) + r0) && s == ((pa + e0) + r1) && s == (((pa + e0) + l1) + r2) && s
        == ((pb + e1) + r3) && s == (((pb + e1) + l2) + r4) && s == ((pc + e2) + r5) && s == (((pc
        + e2) + l3) + rest)) by {
        lemma_concat_associative(pre, enc, rest);
        lemma_concat_associative(l0 + e0 + l1 + e1 + l2 + e2, l3, rest);
        lemma_concat_associative(l0 + e0 + l1 + e1 + l2, e2, r5);
        lemma_concat_associative(l0 + e0 + l1 + e1, l2, r4);
        lemma_concat_associative(l0 + e0 + l1, e1, r3);
        lemma_concat_associative(l0 + e0, l1, r2);
        lemma_concat_associative(l0, e0, r1);
        lemma_concat_associative(pre, l0, r0);
        lemma_concat_associative(pa, e0, r1);
        lemma_concat_associative(pa + e0, l1, r2);
        lemma_concat_associative(pb, e1, r3);
        lemma_concat_associative(pb + e1, l2, r4);
        lemma_concat_associative(pc, e2, r5);
        lemma_concat_associative(pc + e2, l3, rest);
    }
    lemma_at_concat(pre, l0, r0);
    assert(r1[0] == l1[0]);
    lemma_dec_u64_round(pa, v.id, r1);
    lemma_at_concat(pa + e0, l1, r2);
    lemma_opt_values_round(pb, v.values, r3);
    lemma_at_concat(pb + e1, l2, r4);
    assert(r5[0] == l3[0]);
    lemma_dec_u64_round(pc, v.current_step, r5);
    lemma_at_concat(pc + e2, l3, rest);
}

proof fn lemma_pm_create_problem_cast_round(problem_id: int, random_seed: int)
    requires
        0 <= problem_id <= u64::MAX,
        0 <= random_seed <= u64::MAX,
    ensures
        ({
            let m = crate::message::ProblemMessageView::CreateProblemCast {problem_id, random_seed };
            spec_dec_problem_message(spec_enc_problem_message(m)) == Some(m)
        }),
{
    let m = crate::message::ProblemMessageView::CreateProblemCast {problem_id, random_seed };
    let s = spec_enc_problem_message(m);
    reveal_strlit(",\"random_seed\":");
    reveal_strlit("{\"type\":\"CREATE_PROBLEM_CAST\",\"problem_id\":");
    reveal_strlit("{\"type\":\"PROBLEM_SPEC_CAST\",\"spec\":");
    reveal_strlit("}");
    let l0 = "{\"type\":\"CREATE_PROBLEM_CAST\",\"problem_id\":"@;
    let l1 = ",\"random_seed\":"@;
    let le = "}"@;
    let e0 = spec_digits(problem_id);
    let e1 = spec_digits(random_seed);
    let rend = Seq::<char>::empty();
    let r4 = le + rend;
    let r3 = e1 + r4;
    let r2 = l1 + r3;
    let r1 = e0 + r2;
    assert(s == (l0) + r1 && s == (l0 + e0) + r2 && s == (l0 + e0 + l1) + r3 && s == (l0 + e0 + l1 + e1) + r4 && s =~= (l0 + e0 + l1 + e1 + le) + rend) by {
        assert(s =~= (l0 + e0 + l1 + e1 + le));
        assert(s =~= (l0 + e0 + l1 + e1 + le) + rend);
        lemma_concat_associative((l0 + e0 + l1 + e1), le, rend);
        lemma_concat_associative((l0 + e0 + l1), e1, r4);
        lemma_concat_associative((l0 + e0), l1, r3);
        lemma_concat_associative((l0), e0, r2);
    }
    assert(at(s, 0, l0)) by {
        assert(s.subrange(0, l0.len() as int) =~= l0);
    }
    assert(r2[0] == l1[0]);
    lemma_dec_u64_round((l0), problem_id, r2);
    lemma_at_concat((l0 + e0), l1, r3);
    assert(r4[0] == le[0]);
    lemma_dec_u64_round((l0 + e0 + l1), random_seed, r4);
    lemma_at_concat((l0 + e0 + l1 + e1), le, rend);
    lemma_at_distinct(s, 0, "{\"type\":\"CREATE_PROBLEM_CAST\",\"problem_id\":"@, "{\"type\":\"PROBLEM_SPEC_CAST\",\"spec\":"@, 9);
}

proof fn lemma_pm_drop_problem_cast_round(problem_id: int)
    requires
        0 <= problem_id <= u64::MAX,
    ensures
        ({
            let m = crate::message::ProblemMessageView::DropProblemCast {problem_id };
            spec_dec_problem_message(spec_enc_problem_message(m)) == Some(m)
        }),
{
    let m = crate::message::ProblemMessageView::DropProblemCast {problem_id };
    let s = spec_enc_problem_message(m);
    reveal_strlit("{\"type\":\"CREATE_PROBLEM_CAST\",\"problem_id\":");
    reveal_strlit("{\"type\":\"DROP_PROBLEM_CAST\",\"problem_id\":");
    reveal_strlit("{\"type\":\"PROBLEM_SPEC_CAST\",\"spec\":");
    reveal_strlit("}");
    let l0 = "{\"type\":\"DROP_PROBLEM_CAST\",\"problem_id\":"@;
    let le = "}"@;
    let e0 = spec_digits(problem_id);
    let rend = Seq::<char>::empty();
    let r2 = le + rend;
    let r1 = e0 + r2;
    assert(s == (l0) + r1 && s == (l0 + e0) + r2 && s =~= (l0 + e0 + le) + rend) by {
        assert(s =~= (l0 + e0 + le));
        assert(s =~= (l0 + e0 + le) + rend);
        lemma_concat_associative((l0 + e0), le, rend);
        lemma_concat_associative((l0), e0, r2);
    }
    assert(at(s, 0, l0)) by {
        assert(s.subrange(0, l0.len() as int) =~= l0);
    }
    assert(r2[0] == le[0]);
    lemma_dec_u64_round((l0), problem_id, r2);
    lemma_at_concat((l0 + e0), le, rend);
    lemma_at_distinct(s, 0, "{\"type\":\"DROP_PROBLEM_CAST\",\"problem_id\":"@, "{\"type\":\"PROBLEM_SPEC_CAST\",\"spec\":"@, 9);
    lemma_at_distinct(s, 0, "{\"type\":\"DROP_PROBLEM_CAST\",\"problem_id\":"@, "{\"type\":\"CREATE_PROBLEM_CAST\",\"problem_id\":"@, 9);
}

proof fn lemma_pm_create_evaluator_call_round(problem_id: int, evaluator_id: int, params: Seq<Option<int>>)
    requires
        0 <= problem_id <= u64::MAX,
        0 <= evaluator_id <= u64::MAX,
        params_fit(params),
    ensures
        ({
            let m = crate::message::ProblemMessageView::CreateEvaluatorCall {problem_id, evaluator_id, params };
            spec_dec_problem_message(spec_enc_problem_message(m)) == Some(m)
        }),
{
    let m = crate::message::ProblemMessageView::CreateEvaluatorCall {problem_id, evaluator_id, params };
    let s = spec_enc_problem_message(m);
    reveal_strlit(",\"evaluator_id\":");
    reveal_strlit(",\"params\":");
    reveal_strlit("{\"type\":\"CREATE_EVALUATOR_CALL\",\"problem_id\":");
    reveal_strlit("{\"type\":\"CREATE_PROBLEM_CAST\",\"problem_id\":");
    reveal_strlit("{\"type\":\"DROP_PROBLEM_CAST\",\"problem_id\":");
    reveal_strlit("{\"type\":\"PROBLEM_SPEC_CAST\",\"spec\":");
    reveal_strlit("}");
    let l0 = "{\"type\":\"CREATE_EVALUATOR_CALL\",\"problem_id\":"@;
    let l1 = ",\"evaluator_id\":"@;
    let l2 = ",\"params\":"@;
    let le = "}"@;
    let e0 = spec_digits(problem_id);
    let e1 = spec_digits(evaluator_id);
    let e2 = spec_enc_params(params);
    let rend = Seq::<char>::empty();
    let r6 = le + rend;
    let r5 = e2 + r6;
    let r4 = l2 + r5;
    let r3 = e1 + r4;
    let r2 = l1 + r3;
    let r1 = e0 + r2;
    assert(s == (l0) + r1 && s == (l0 + e0) + r2 && s == (l0 + e0 + l1) + r3 && s == (l0 + e0 + l1 + e1) + r4 && s == (l0 + e0 + l1 + e1 + l2) + r5 && s == (l0 + e0 + l1 + e1 + l2 + e2) + r6 && s =~= (l0 + e0 + l1 + e1 + l2 + e2 + le) + rend) by {
        assert(s =~= (l0 + e0 + l1 + e1 + l2 + e2 + le));
        assert(s =~= (l0 + e0 + l1 + e1 + l2 + e2 + le) + rend);
        lemma_concat_associative((l0 + e0 + l1 + e1 + l2 + e2), le, rend);
        lemma_concat_associative((l0 + e0 + l1 + e1 + l2), e2, r6);
        lemma_concat_associative((l0 + e0 + l1 + e1), l2, r5);
        lemma_concat_associative((l0 + e0 + l1), e1, r4);
        lemma_concat_associative((l0 + e0), l1, r3);
        lemma_concat_associative((l0), e0, r2);
    }
    assert(at(s, 0, l0)) by {
        assert(s.subrange(0, l0.len() as int) =~= l0);
    }
    assert(r2[0] == l1[0]);
    lemma_dec_u64_round((l0), problem_id, r2);
    lemma_at_concat((l0 + e0), l1, r3);
    assert(r4[0] == l2[0]);
    lemma_dec_u64_round((l0 + e0 + l1), evaluator_id, r4);
    lemma_at_concat((l0 + e0 + l1 + e1), l2, r5);
    lemma_params_round((l0 + e0 + l1 + e1 + l2), params, r6);
    lemma_at_concat((l0 + e0 + l1 + e1 + l2 + e2), le, rend);
    lemma_at_distinct(s, 0, "{\"type\":\"CREATE_EVALUATOR_CALL\",\"problem_id\":"@, "{\"type\":\"PROBLEM_SPEC_CAST\",\"spec\":"@, 9);
    lemma_at_distinct(s, 0, "{\"type\":\"CREATE_EVALUATOR_CALL\",\"problem_id\":"@, "{\"type\":\"CREATE_PROBLEM_CAST\",\"problem_id\":"@, 16);
    lemma_at_distinct(s, 0, "{\"type\":\"CREATE_EVALUATOR_CALL\",\"problem_id\":"@, "{\"type\":\"DROP_PROBLEM_CAST\",\"problem_id\":"@, 9);
}

proof fn lemma_pm_create_evaluator_reply_round()
    ensures
        ({
            let m = crate::message::ProblemMessageView::CreateEvaluatorReply;
            spec_dec_problem_message(spec_enc_problem_message(m)) == Some(m)
        }),
{
    let m = crate::message::ProblemMessageView::CreateEvaluatorReply;
    let s = spec_enc_problem_message(m);
    reveal_strlit("{\"type\":\"CREATE_EVALUATOR_CALL\",\"problem_id\":");
    reveal_strlit("{\"type\":\"CREATE_EVALUATOR_REPLY\"}");
    reveal_strlit("{\"type\":\"CREATE_PROBLEM_CAST\",\"problem_id\":");
    reveal_strlit("{\"type\":\"DROP_PROBLEM_CAST\",\"problem_id\":");
    reveal_strlit("{\"type\":\"PROBLEM_SPEC_CAST\",\"spec\":");
    reveal_strlit("}");
    assert(s =~= "{\"type\":\"CREATE_EVALUATOR_REPLY\"}"@);
    assert(at(s, 0, "{\"type\":\"CREATE_EVALUATOR_REPLY\"}"@)) by {
        assert(s.subrange(0, "{\"type\":\"CREATE_EVALUATOR_REPLY\"}"@.len() as int) =~= "{\"type\":\"CREATE_EVALUATOR_REPLY\"}"@);
    }
    lemma_at_distinct(s, 0, "{\"type\":\"CREATE_EVALUATOR_REPLY\"}"@, "{\"type\":\"PROBLEM_SPEC_CAST\",\"spec\":"@, 9);
    lemma_at_distinct(s, 0, "{\"type\":\"CREATE_EVALUATOR_REPLY\"}"@, "{\"type\":\"CREATE_PROBLEM_CAST\",\"problem_id\":"@, 16);
    lemma_at_distinct(s, 0, "{\"type\":\"CREATE_EVALUATOR_REPLY\"}"@, "{\"type\":\"DROP_PROBLEM_CAST\",\"problem_id\":"@, 9);
    lemma_at_distinct(s, 0, "{\"type\":\"CREATE_EVALUATOR_REPLY\"}"@, "{\"type\":\"CREATE_EVALUATOR_CALL\",\"problem_id\":"@, 26);
}

proof fn lemma_pm_drop_evaluator_cast_round(problem_id: int, evaluator_id: int)
    requires
        0 <= problem_id <= u64::MAX,
        0 <= evaluator_id <= u64::MAX,
    ensures
        ({
            let m = crate::message::ProblemMessageView::DropEvaluatorCast {problem_id, evaluator_id };
            spec_dec_problem_message(spec_enc_problem_message(m)) == Some(m)
        }),
{
    let m = crate::message::ProblemMessageView::DropEvaluatorCast {problem_id, evaluator_id };
    let s = spec_enc_problem_message(m);
    reveal_strlit(",\"evaluator_id\":");
    reveal_strlit("{\"type\":\"CREATE_EVALUATOR_CALL\",\"problem_id\":");
    reveal_strlit("{\"type\":\"CREATE_EVALUATOR_REPLY\"}");
    reveal_strlit("{\"type\":\"CREATE_PROBLEM_CAST\",\"problem_id\":");
    reveal_strlit("{\"type\":\"DROP_EVALUATOR_CAST\",\"problem_id\":");
    reveal_strlit("{\"type\":\"DROP_PROBLEM_CAST\",\"problem_id\":");
    reveal_strlit("{\"type\":\"PROBLEM_SPEC_CAST\",\"spec\":");
    reveal_strlit("}");
    let l0 = "{\"type\":\"DROP_EVALUATOR_CAST\",\"problem_id\":"@;
    let l1 = ",\"evaluator_id\":"@;
    let le = "}"@;
    let e0 = spec_digits(problem_id);
    let e1 = spec_digits(evaluator_id);
    let rend = Seq::<char>::empty();
    let r4 = le + rend;
    let r3 = e1 + r4;
    let r2 = l1 + r3;
    let r1 = e0 + r2;
    assert(s == (l0) + r1 && s == (l0 + e0) + r2 && s == (l0 + e0 + l1) + r3 && s == (l0 + e0 + l1 + e1) + r4 && s =~= (l0 + e0 + l1 + e1 + le) + rend) by {
        assert(s =~= (l0 + e0 + l1 + e1 + le));
        assert(s =~= (l0 + e0 + l1 + e1 + le) + rend);
        lemma_concat_associative((l0 + e0 + l1 + e1), le, rend);
        lemma_concat_associative((l0 + e0 + l1), e1, r4);
        lemma_concat_associative((l0 + e0), l1, r3);
        lemma_concat_associative((l0), e0, r2);
    }
    assert(at(s, 0, l0)) by {
        assert(s.subrange(0, l0.len() as int) =~= l0);
    }
    assert(r2[0] == l1[0]);
    lemma_dec_u64_round((l0), problem_id, r2);
    lemma_at_concat((l0 + e0), l1, r3);
    assert(r4[0] == le[0]);
    lemma_dec_u64_round((l0 + e0 + l1), evaluator_id, r4);
    lemma_at_concat((l0 + e0 + l1 + e1), le, rend);
    lemma_at_distinct(s, 0, "{\"type\":\"DROP_EVALUATOR_CAST\",\"problem_id\":"@, "{\"type\":\"PROBLEM_SPEC_CAST\",\"spec\":"@, 9);
    lemma_at_distinct(s, 0, "{\"type\":\"DROP_EVALUATOR_CAST\",\"problem_id\":"@, "{\"type\":\"CREATE_PROBLEM_CAST\",\"problem_id\":"@, 9);
    lemma_at_distinct(s, 0, "{\"type\":\"DROP_EVALUATOR_CAST\",\"problem_id\":"@, "{\"type\":\"DROP_PROBLEM_CAST\",\"problem_id\":"@, 14);
    lemma_at_distinct(s, 0, "{\"type\":\"DROP_EVALUATOR_CAST\",\"problem_id\":"@, "{\"type\":\"CREATE_EVALUATOR_CALL\",\"problem_id\":"@, 9);
    lemma_at_distinct(s, 0, "{\"type\":\"DROP_EVALUATOR_CAST\",\"problem_id\":"@, "{\"type\":\"CREATE_EVALUATOR_REPLY\"}"@, 9);
}

proof fn lemma_pm_evaluate_call_round(problem_id: int, evaluator_id: int, next_step: int)
    requires
        0 <= problem_id <= u64::MAX,
        0 <= evaluator_id <= u64::MAX,
        0 <= next_step <= u64::MAX,
    ensures
        ({
            let m = crate::message::ProblemMessageView::EvaluateCall {problem_id, evaluator_id, next_step };
            spec_dec_problem_message(spec_enc_problem_message(m)) == Some(m)
        }),
{
    let m = crate::message::ProblemMessageView::EvaluateCall {problem_id, evaluator_id, next_step };
    let s = spec_enc_problem_message(m);
    reveal_strlit(",\"evaluator_id\":");
    reveal_strlit(",\"next_step\":");
    reveal_strlit("{\"type\":\"CREATE_EVALUATOR_CALL\",\"problem_id\":");
    reveal_strlit("{\"type\":\"CREATE_EVALUATOR_REPLY\"}");
    reveal_strlit("{\"type\":\"CREATE_PROBLEM_CAST\",\"problem_id\":");
    reveal_strlit("{\"type\":\"DROP_EVALUATOR_CAST\",\"problem_id\":");
    reveal_strlit("{\"type\":\"DROP_PROBLEM_CAST\",\"problem_id\":");
    reveal_strlit("{\"type\":\"EVALUATE_CALL\",\"problem_id\":");
    reveal_strlit("{\"type\":\"PROBLEM_SPEC_CAST\",\"spec\":");
    reveal_strlit("}");
    let l0 = "{\"type\":\"EVALUATE_CALL\",\"problem_id\":"@;
    let l1 = ",\"evaluator_id\":"@;
    let l2 = ",\"next_step\":"@;
    let le = "}"@;
    let e0 = spec_digits(problem_id);
    let e1 = spec_digits(evaluator_id);
    let e2 = spec_digits(next_step);
    let rend = Seq::<char>::empty();
    let r6 = le + rend;
    let r5 = e2 + r6;
    let r4 = l2 + r5;
    let r3 = e1 + r4;
    let r2 = l1 + r3;
    let r1 = e0 + r2;
    assert(s == (l0) + r1 && s == (l0 + e0) + r2 && s == (l0 + e0 + l1) + r3 && s == (l0 + e0 + l1 + e1) + r4 && s == (l0 + e0 + l1 + e1 + l2) + r5 && s == (l0 + e0 + l1 + e1 + l2 + e2) + r6 && s =~= (l0 + e0 + l1 + e1 + l2 + e2 + le) + rend) by {
        assert(s =~= (l0 + e0 + l1 + e1 + l2 + e2 + le));
        assert(s =~= (l0 + e0 + l1 + e1 + l2 + e2 + le) + rend);
        lemma_concat_associative((l0 + e0 + l1 + e1 + l2 + e2), le, rend);
        lemma_concat_associative((l0 + e0 + l1 + e1 + l2), e2, r6);
        lemma_concat_associative((l0 + e0 + l1 + e1), l2, r5);
        lemma_concat_associative((l0 + e0 + l1), e1, r4);
        lemma_concat_associative((l0 + e0), l1, r3);
        lemma_concat_associative((l0), e0, r2);
    }
    assert(at(s, 0, l0)) by {
        assert(s.subrange(0, l0.len() as int) =~= l0);
    }
    assert(r2[0] == l1[0]);
    lemma_dec_u64_round((l0), problem_id, r2);
    lemma_at_concat((l0 + e0), l1, r3);
    assert(r4[0] == l2[0]);
    lemma_dec_u64_round((l0 + e0 + l1), evaluator_id, r4);
    lemma_at_concat((l0 + e0 + l1 + e1), l2, r5);
    assert(r6[0] == le[0]);
    lemma_dec_u64_round((l0 + e0 + l1 + e1 + l2), next_step, r6);
    lemma_at_concat((l0 + e0 + l1 + e1 + l2 + e2), le, rend);
    lemma_at_distinct(s, 0, "{\"type\":\"EVALUATE_CALL\",\"problem_id\":"@, "{\"type\":\"PROBLEM_SPEC_CAST\",\"spec\":"@, 9);
    lemma_at_distinct(s, 0, "{\"type\":\"EVALUATE_CALL\",\"problem_id\":"@, "{\"type\":\"CREATE_PROBLEM_CAST\",\"problem_id\":"@, 9);
    lemma_at_distinct(s, 0, "{\"type\":\"EVALUATE_CALL\",\"problem_id\":"@, "{\"type\":\"DROP_PROBLEM_CAST\",\"problem_id\":"@, 9);
    lemma_at_distinct(s, 0, "{\"type\":\"EVALUATE_CALL\",\"problem_id\":"@, "{\"type\":\"CREATE_EVALUATOR_CALL\",\"problem_id\":"@, 9);
    lemma_at_distinct(s, 0, "{\"type\":\"EVALUATE_CALL\",\"problem_id\":"@, "{\"type\":\"CREATE_EVALUATOR_REPLY\"}"@, 9);
    lemma_at_distinct(s, 0, "{\"type\":\"EVALUATE_CALL\",\"problem_id\":"@, "{\"type\":\"DROP_EVALUATOR_CAST\",\"problem_id\":"@, 9);
}

proof fn lemma_pm_evaluate_reply_round(current_step: int, values: Seq<int>)
    requires
        0 <= current_step <= u64::MAX,
        ticks_fit(values),
    ensures
        ({
            let m = crate::message::ProblemMessageView::EvaluateReply {current_step, values };
            spec_dec_problem_message(spec_enc_problem_message(m)) == Some(m)
        }),
{
    let m = crate::message::ProblemMessageView::EvaluateReply {current_step, values };
    let s = spec_enc_problem_message(m);
    reveal_strlit(",\"values\":");
    reveal_strlit("{\"type\":\"CREATE_EVALUATOR_CALL\",\"problem_id\":");
    reveal_strlit("{\"type\":\"CREATE_EVALUATOR_REPLY\"}");
    reveal_strlit("{\"type\":\"CREATE_PROBLEM_CAST\",\"problem_id\":");
    reveal_strlit("{\"type\":\"DROP_EVALUATOR_CAST\",\"problem_id\":");
    reveal_strlit("{\"type\":\"DROP_PROBLEM_CAST\",\"problem_id\":");
    reveal_strlit("{\"type\":\"EVALUATE_CALL\",\"problem_id\":");
    reveal_strlit("{\"type\":\"EVALUATE_REPLY\",\"current_step\":");
    reveal_strlit("{\"type\":\"PROBLEM_SPEC_CAST\",\"spec\":");
    reveal_strlit("}");
    let l0 = "{\"type\":\"EVALUATE_REPLY\",\"current_step\":"@;
    let l1 = ",\"values\":"@;
    let le = "}"@;
    let e0 = spec_digits(current_step);
    let e1 = spec_enc_values(values);
    let rend = Seq::<char>::empty();
    let r4 = le + rend;
    let r3 = e1 + r4;
    let r2 = l1 + r3;
    let r1 = e0 + r2;
    assert(s == (l0) + r1 && s == (l0 + e0) + r2 && s == (l0 + e0 + l1) + r3 && s == (l0 + e0 + l1 + e1) + r4 && s =~= (l0 + e0 + l1 + e1 + le) + rend) by {
        assert(s =~= (l0 + e0 + l1 + e1 + le));
        assert(s =~= (l0 + e0 + l1 + e1 + le) + rend);
        lemma_concat_associative((l0 + e0 + l1 + e1), le, rend);
        lemma_concat_associative((l0 + e0 + l1), e1, r4);
        lemma_concat_associative((l0 + e0), l1, r3);
        lemma_concat_associative((l0), e0, r2);
    }
    assert(at(s, 0, l0)) by {
        assert(s.subrange(0, l0.len() as int) =~= l0);
    }
    assert(r2[0] == l1[0]);
    lemma_dec_u64_round((l0), current_step, r2);
    lemma_at_concat((l0 + e0), l1, r3);
    lemma_values_round((l0 + e0 + l1), values, r4);
    lemma_at_concat((l0 + e0 + l1 + e1), le, rend);
    lemma_at_distinct(s, 0, "{\"type\":\"EVALUATE_REPLY\",\"current_step\":"@, "{\"type\":\"PROBLEM_SPEC_CAST\",\"spec\":"@, 9);
    lemma_at_distinct(s, 0, "{\"type\":\"EVALUATE_REPLY\",\"current_step\":"@, "{\"type\":\"CREATE_PROBLEM_CAST\",\"problem_id\":"@, 9);
    lemma_at_distinct(s, 0, "{\"type\":\"EVALUATE_REPLY\",\"current_step\":"@, "{\"type\":\"DROP_PROBLEM_CAST\",\"problem_id\":"@, 9);
    lemma_at_distinct(s, 0, "{\"type\":\"EVALUATE_REPLY\",\"current_step\":"@, "{\"type\":\"CREATE_EVALUATOR_CALL\",\"problem_id\":"@, 9);
    lemma_at_distinct(s, 0, "{\"type\":\"EVALUATE_REPLY\",\"current_step\":"@, "{\"type\":\"CREATE_EVALUATOR_REPLY\"}"@, 9);
    lemma_at_distinct(s, 0, "{\"type\":\"EVALUATE_REPLY\",\"current_step\":"@, "{\"type\":\"DROP_EVALUATOR_CAST\",\"problem_id\":"@, 9);
    lemma_at_distinct(s, 0, "{\"type\":\"EVALUATE_REPLY\",\"current_step\":"@, "{\"type\":\"EVALUATE_CALL\",\"problem_id\":"@, 18);
}

proof fn lemma_pm_error_reply_round(kind: crate::ErrorKind, message: Option<Seq<char>>)
    ensures
        ({
            let m = crate::message::ProblemMessageView::ErrorReply {kind, message };
            spec_dec_problem_message(spec_enc_problem_message(m)) == Some(m)
        }),
{
    let m = crate::message::ProblemMessageView::ErrorReply {kind, message };
    let s = spec_enc_problem_message(m);
    reveal_strlit(",\"message\":");
    reveal_strlit("{\"type\":\"CREATE_EVALUATOR_CALL\",\"problem_id\":");
    reveal_strlit("{\"type\":\"CREATE_EVALUATOR_REPLY\"}");
    reveal_strlit("{\"type\":\"CREATE_PROBLEM_CAST\",\"problem_id\":");
    reveal_strlit("{\"type\":\"DROP_EVALUATOR_CAST\",\"problem_id\":");
    reveal_strlit("{\"type\":\"DROP_PROBLEM_CAST\",\"problem_id\":");
    reveal_strlit("{\"type\":\"ERROR_REPLY\",\"kind\":");
    reveal_strlit("{\"type\":\"EVALUATE_CALL\",\"problem_id\":");
    reveal_strlit("{\"type\":\"EVALUATE_REPLY\",\"current_step\":");
    reveal_strlit("{\"type\":\"PROBLEM_SPEC_CAST\",\"spec\":");
    reveal_strlit("}");
    let l0 = "{\"type\":\"ERROR_REPLY\",\"kind\":"@;
    let l1 = ",\"message\":"@;
    let le = "}"@;
    let e0 = spec_enc_error_kind(kind);
    let e1 = spec_enc_opt_str(message);
    let rend = Seq::<char>::empty();
    let r4 = le + rend;
    let r3 = e1 + r4;
    let r2 = l1 + r3;
    let r1 = e0 + r2;
    assert(s == (l0) + r1 && s == (l0 + e0) + r2 && s == (l0 + e0 + l1) + r3 && s == (l0 + e0 + l1 + e1) + r4 && s =~= (l0 + e0 + l1 + e1 + le) + rend) by {
        assert(s =~= (l0 + e0 + l1 + e1 + le));
        assert(s =~= (l0 + e0 + l1 + e1 + le) + rend);
        lemma_concat_associative((l0 + e0 + l1 + e1), le, rend);
        lemma_concat_associative((l0 + e0 + l1), e1, r4);
        lemma_concat_associative((l0 + e0), l1, r3);
        lemma_concat_associative((l0), e0, r2);
    }
    assert(at(s, 0, l0)) by {
        assert(s.subrange(0, l0.len() as int) =~= l0);
    }
    lemma_error_kind_round((l0), kind, r2);
    lemma_at_concat((l0 + e0), l1, r3);
    lemma_opt_str_round((l0 + e0 + l1), message, r4);
    lemma_at_concat((l0 + e0 + l1 + e1), le, rend);
    lemma_at_distinct(s, 0, "{\"type\":\"ERROR_REPLY\",\"kind\":"@, "{\"type\":\"PROBLEM_SPEC_CAST\",\"spec\":"@, 9);
    lemma_at_distinct(s, 0, "{\"type\":\"ERROR_REPLY\",\"kind\":"@, "{\"type\":\"CREATE_PROBLEM_CAST\",\"problem_id\":"@, 9);
    lemma_at_distinct(s, 0, "{\"type\":\"ERROR_REPLY\",\"kind\":"@, "{\"type\":\"DROP_PROBLEM_CAST\",\"problem_id\":"@, 9);
    lemma_at_distinct(s, 0, "{\"type\":\"ERROR_REPLY\",\"kind\":"@, "{\"type\":\"CREATE_EVALUATOR_CALL\",\"problem_id\":"@, 9);
    lemma_at_distinct(s, 0, "{\"type\":\"ERROR_REPLY\",\"kind\":"@, "{\"type\":\"CREATE_EVALUATOR_REPLY\"}"@, 9);
    lemma_at_distinct(s, 0, "{\"type\":\"ERROR_REPLY\",\"kind\":"@, "{\"type\":\"DROP_EVALUATOR_CAST\",\"problem_id\":"@, 9);
    lemma_at_distinct(s, 0, "{\"type\":\"ERROR_REPLY\",\"kind\":"@, "{\"type\":\"EVALUATE_CALL\",\"problem_id\":"@, 10);
    lemma_at_distinct(s, 0, "{\"type\":\"ERROR_REPLY\",\"kind\":"@, "{\"type\":\"EVALUATE_REPLY\",\"current_step\":"@, 10);
}

proof fn lemma_sm_drop_solver_cast_round(solver_id: int)
    requires
        0 <= solver_id <= u64::MAX,
    ensures
        ({
            let m = crate::message::SolverMessageView::DropSolverCast {solver_id };
            spec_dec_solver_message(spec_enc_solver_message(m)) == Some(m)
        }),
{
    let m = crate::message::SolverMessageView::DropSolverCast {solver_id };
    let s = spec_enc_solver_message(m);
    reveal_strlit("{\"type\":\"CREATE_SOLVER_CAST\",\"solver_id\":");
    reveal_strlit("{\"type\":\"DROP_SOLVER_CAST\",\"solver_id\":");
    reveal_strlit("{\"type\":\"SOLVER_SPEC_CAST\",\"spec\":");
    reveal_strlit("}");
    let l0 = "{\"type\":\"DROP_SOLVER_CAST\",\"solver_id\":"@;
    let le = "}"@;
    let e0 = spec_digits(solver_id);
    let rend = Seq::<char>::empty();
    let r2 = le + rend;
    let r1 = e0 + r2;
    assert(s == (l0) + r1 && s == (l0 + e0) + r2 && s =~= (l0 + e0 + le) + rend) by {
        assert(s =~= (l0 + e0 + le));
        assert(s =~= (l0 + e0 + le) + rend);
        lemma_concat_associative((l0 + e0), le, rend);
        lemma_concat_associative((l0), e0, r2);
    }
    assert(at(s, 0, l0)) by {
        assert(s.subrange(0, l0.len() as int) =~= l0);
    }
    assert(r2[0] == le[0]);
    lemma_dec_u64_round((l0), solver_id, r2);
    lemma_at_concat((l0 + e0), le, rend);
    lemma_at_distinct(s, 0, "{\"type\":\"DROP_SOLVER_CAST\",\"solver_id\":"@, "{\"type\":\"SOLVER_SPEC_CAST\",\"spec\":"@, 9);
    lemma_at_distinct(s, 0, "{\"type\":\"DROP_SOLVER_CAST\",\"solver_id\":"@, "{\"type\":\"CREATE_SOLVER_CAST\",\"solver_id\":"@, 9);
}

proof fn lemma_sm_ask_call_round(solver_id: int, next_trial_id: int)
    requires
        0 <= solver_id <= u64::MAX,
        0 <= next_trial_id <= u64::MAX,
    ensures
        ({
            let m = crate::message::SolverMessageView::AskCall {solver_id, next_trial_id };
            spec_dec_solver_message(spec_enc_solver_message(m)) == Some(m)
        }),
{
    let m = crate::message::SolverMessageView::AskCall {solver_id, next_trial_id };
    let s = spec_enc_solver_message(m);
    reveal_strlit(",\"next_trial_id\":");
    reveal_strlit("{\"type\":\"ASK_CALL\",\"solver_id\":");
    reveal_strlit("{\"type\":\"CREATE_SOLVER_CAST\",\"solver_id\":");
    reveal_strlit("{\"type\":\"DROP_SOLVER_CAST\",\"solver_id\":");
    reveal_strlit("{\"type\":\"SOLVER_SPEC_CAST\",\"spec\":");
    reveal_strlit("}");
    let l0 = "{\"type\":\"ASK_CALL\",\"solver_id\":"@;
    let l1 = ",\"next_trial_id\":"@;
    let le = "}"@;
    let e0 = spec_digits(solver_id);
    let e1 = spec_digits(next_trial_id);
    let rend = Seq::<char>::empty();
    let r4 = le + rend;
    let r3 = e1 + r4;
    let r2 = l1 + r3;
    let r1 = e0 + r2;
    assert(s == (l0) + r1 && s == (l0 + e0) + r2 && s == (l0 + e0 + l1) + r3 && s == (l0 + e0 + l1 + e1) + r4 && s =~= (l0 + e0 + l1 + e1 + le) + rend) by {
        assert(s =~= (l0 + e0 + l1 + e1 + le));
        assert(s =~= (l0 + e0 + l1 + e1 + le) + rend);
        lemma_concat_associative((l0 + e0 + l1 + e1), le, rend);
        lemma_concat_associative((l0 + e0 + l1), e1, r4);
        lemma_concat_associative((l0 + e0), l1, r3);
        lemma_concat_associative((l0), e0, r2);
    }
    assert(at(s, 0, l0)) by {
        assert(s.subrange(0, l0.len() as int) =~= l0);
    }
    assert(r2[0] == l1[0]);
    lemma_dec_u64_round((l0), solver_id, r2);
    lemma_at_concat((l0 + e0), l1, r3);
    assert(r4[0] == le[0]);
    lemma_dec_u64_round((l0 + e0 + l1), next_trial_id, r4);
    lemma_at_concat((l0 + e0 + l1 + e1), le, rend);
    lemma_at_distinct(s, 0, "{\"type\":\"ASK_CALL\",\"solver_id\":"@, "{\"type\":\"SOLVER_SPEC_CAST\",\"spec\":"@, 9);
    lemma_at_distinct(s, 0, "{\"type\":\"ASK_CALL\",\"solver_id\":"@, "{\"type\":\"CREATE_SOLVER_CAST\",\"solver_id\":"@, 9);
    lemma_at_distinct(s, 0, "{\"type\":\"ASK_CALL\",\"solver_id\":"@, "{\"type\":\"DROP_SOLVER_CAST\",\"solver_id\":"@, 9);
}

proof fn lemma_sm_ask_reply_round(trial: crate::trial::NextTrialView, next_trial_id: int)
    requires
        next_trial_fits(trial),
        0 <= next_trial_id <= u64::MAX,
    ensures
        ({
            let m = crate::message::SolverMessageView::AskReply {trial, next_trial_id };
            spec_dec_solver_message(spec_enc_solver_message(m)) == Some(m)
        }),
{
    let m = crate::message::SolverMessageView::AskReply {trial, next_trial_id };
    let s = spec_enc_solver_message(m);
    reveal_strlit(",\"next_trial_id\":");
    reveal_strlit("{\"type\":\"ASK_CALL\",\"solver_id\":");
    reveal_strlit("{\"type\":\"ASK_REPLY\",\"trial\":");
    reveal_strlit("{\"type\":\"CREATE_SOLVER_CAST\",\"solver_id\":");
    reveal_strlit("{\"type\":\"DROP_SOLVER_CAST\",\"solver_id\":");
    reveal_strlit("{\"type\":\"SOLVER_SPEC_CAST\",\"spec\":");
    reveal_strlit("}");
    let l0 = "{\"type\":\"ASK_REPLY\",\"trial\":"@;
    let l1 = ",\"next_trial_id\":"@;
    let le = "}"@;
    let e0 = spec_enc_next_trial(trial);
    let e1 = spec_digits(next_trial_id);
    let rend = Seq::<char>::empty();
    let r4 = le + rend;
    let r3 = e1 + r4;
    let r2 = l1 + r3;
    let r1 = e0 + r2;
    assert(s == (l0) + r1 && s == (l0 + e0) + r2 && s == (l0 + e0 + l1) + r3 && s == (l0 + e0 + l1 + e1) + r4 && s =~= (l0 + e0 + l1 + e1 + le) + rend) by {
        assert(s =~= (l0 + e0 + l1 + e1 + le));
        assert(s =~= (l0 + e0 + l1 + e1 + le) + rend);
        lemma_concat_associative((l0 + e0 + l1 + e1), le, rend);
        lemma_concat_associative((l0 + e0 + l1), e1, r4);
        lemma_concat_associative((l0 + e0), l1, r3);
        lemma_concat_associative((l0), e0, r2);
    }
    assert(at(s, 0, l0)) by {
        assert(s.subrange(0, l0.len() as int) =~= l0);
    }
    lemma_next_trial_round((l0), trial, r2);
    lemma_at_concat((l0 + e0), l1, r3);
    assert(r4[0] == le[0]);
    lemma_dec_u64_round((l0 + e0 + l1), next_trial_id, r4);
    lemma_at_concat((l0 + e0 + l1 + e1), le, rend);
    lemma_at_distinct(s, 0, "{\"type\":\"ASK_REPLY\",\"trial\":"@, "{\"type\":\"SOLVER_SPEC_CAST\",\"spec\":"@, 9);
    lemma_at_distinct(s, 0, "{\"type\":\"ASK_REPLY\",\"trial\":"@, "{\"type\":\"CREATE_SOLVER_CAST\",\"solver_id\":"@, 9);
    lemma_at_distinct(s, 0, "{\"type\":\"ASK_REPLY\",\"trial\":"@, "{\"type\":\"DROP_SOLVER_CAST\",\"solver_id\":"@, 9);
    lemma_at_distinct(s, 0, "{\"type\":\"ASK_REPLY\",\"trial\":"@, "{\"type\":\"ASK_CALL\",\"solver_id\":"@, 13);
}

proof fn lemma_sm_tell_call_round(solver_id: int, trial: crate::trial::EvaluatedTrialView)
    requires
        0 <= solver_id <= u64::MAX,
        evaluated_trial_fits(trial),
    ensures
        ({
            let m = crate::message::SolverMessageView::TellCall {solver_id, trial };
            spec_dec_solver_message(spec_enc_solver_message(m)) == Some(m)
        }),
{
    let m = crate::message::SolverMessageView::TellCall {solver_id, trial };
    let s = spec_enc_solver_message(m);
    reveal_strlit(",\"trial\":");
    reveal_strlit("{\"type\":\"ASK_CALL\",\"solver_id\":");
    reveal_strlit("{\"type\":\"ASK_REPLY\",\"trial\":");
    reveal_strlit("{\"type\":\"CREATE_SOLVER_CAST\",\"solver_id\":");
    reveal_strlit("{\"type\":\"DROP_SOLVER_CAST\",\"solver_id\":");
    reveal_strlit("{\"type\":\"SOLVER_SPEC_CAST\",\"spec\":");
    reveal_strlit("{\"type\":\"TELL_CALL\",\"solver_id\":");
    reveal_strlit("}");
    let l0 = "{\"type\":\"TELL_CALL\",\"solver_id\":"@;
    let l1 = ",\"trial\":"@;
    let le = "}"@;
    let e0 = spec_digits(solver_id);
    let e1 = spec_enc_evaluated_trial(trial);
    let rend = Seq::<char>::empty();
    let r4 = le + rend;
    let r3 = e1 + r4;
    let r2 = l1 + r3;
    let r1 = e0 + r2;
    assert(s == (l0) + r1 && s == (l0 + e0) + r2 && s == (l0 + e0 + l1) + r3 && s == (l0 + e0 + l1 + e1) + r4 && s =~= (l0 + e0 + l1 + e1 + le) + rend) by {
        assert(s =~= (l0 + e0 + l1 + e1 + le));
        assert(s =~= (l0 + e0 + l1 + e1 + le) + rend);
        lemma_concat_associative((l0 + e0 + l1 + e1), le, rend);
        lemma_concat_associative((l0 + e0 + l1), e1, r4);
        lemma_concat_associative((l0 + e0), l1, r3);
        lemma_concat_associative((l0), e0, r2);
    }
    assert(at(s, 0, l0)) by {
        assert(s.subrange(0, l0.len() as int) =~= l0);
    }
    assert(r2[0] == l1[0]);
    lemma_dec_u64_round((l0), solver_id, r2);
    lemma_at_concat((l0 + e0), l1, r3);
    lemma_evaluated_trial_round((l0 + e0 + l1), trial, r4);
    lemma_at_concat((l0 + e0 + l1 + e1), le, rend);
    lemma_at_distinct(s, 0, "{\"type\":\"TELL_CALL\",\"solver_id\":"@, "{\"type\":\"SOLVER_SPEC_CAST\",\"spec\":"@, 9);
    lemma_at_distinct(s, 0, "{\"type\":\"TELL_CALL\",\"solver_id\":"@, "{\"type\":\"CREATE_SOLVER_CAST\",\"solver_id\":"@, 9);
    lemma_at_distinct(s, 0, "{\"type\":\"TELL_CALL\",\"solver_id\":"@, "{\"type\":\"DROP_SOLVER_CAST\",\"solver_id\":"@, 9);
    lemma_at_distinct(s, 0, "{\"type\":\"TELL_CALL\",\"solver_id\":"@, "{\"type\":\"ASK_CALL\",\"solver_id\":"@, 9);
    lemma_at_distinct(s, 0, "{\"type\":\"TELL_CALL\",\"solver_id\":"@, "{\"type\":\"ASK_REPLY\",\"trial\":"@, 9);
}

proof fn lemma_sm_tell_reply_round()
    ensures
        ({
            let m = crate::message::SolverMessageView::TellReply;
            spec_dec_solver_message(spec_enc_solver_message(m)) == Some(m)
        }),
{
    let m = crate::message::SolverMessageView::TellReply;
    let s = spec_enc_solver_message(m);
    reveal_strlit("{\"type\":\"ASK_CALL\",\"solver_id\":");
    reveal_strlit("{\"type\":\"ASK_REPLY\",\"trial\":");
    reveal_strlit("{\"type\":\"CREATE_SOLVER_CAST\",\"solver_id\":");
    reveal_strlit("{\"type\":\"DROP_SOLVER_CAST\",\"solver_id\":");
    reveal_strlit("{\"type\":\"SOLVER_SPEC_CAST\",\"spec\":");
    reveal_strlit("{\"type\":\"TELL_CALL\",\"solver_id\":");
    reveal_strlit("{\"type\":\"TELL_REPLY\"}");
    reveal_strlit("}");
    assert(s =~= "{\"type\":\"TELL_REPLY\"}"@);
    assert(at(s, 0, "{\"type\":\"TELL_REPLY\"}"@)) by {
        assert(s.subrange(0, "{\"type\":\"TELL_REPLY\"}"@.len() as int) =~= "{\"type\":\"TELL_REPLY\"}"@);
    }
    lemma_at_distinct(s, 0, "{\"type\":\"TELL_REPLY\"}"@, "{\"type\":\"SOLVER_SPEC_CAST\",\"spec\":"@, 9);
    lemma_at_distinct(s, 0, "{\"type\":\"TELL_REPLY\"}"@, "{\"type\":\"CREATE_SOLVER_CAST\",\"solver_id\":"@, 9);
    lemma_at_distinct(s, 0, "{\"type\":\"TELL_REPLY\"}"@, "{\"type\":\"DROP_SOLVER_CAST\",\"solver_id\":"@, 9);
    lemma_at_distinct(s, 0, "{\"type\":\"TELL_REPLY\"}"@, "{\"type\":\"ASK_CALL\",\"solver_id\":"@, 9);
    lemma_at_distinct(s, 0, "{\"type\":\"TELL_REPLY\"}"@, "{\"type\":\"ASK_REPLY\",\"trial\":"@, 9);
    lemma_at_distinct(s, 0, "{\"type\":\"TELL_REPLY\"}"@, "{\"type\":\"TELL_CALL\",\"solver_id\":"@, 14);
}

proof fn lemma_sm_error_reply_round(kind: crate::ErrorKind, message: Option<Seq<char>>)
    ensures
        ({
            let m = crate::message::SolverMessageView::ErrorReply {kind, message };
            spec_dec_solver_message(spec_enc_solver_message(m)) == Some(m)
        }),
{
    let m = crate::message::SolverMessageView::ErrorReply {kind, message };
    let s = spec_enc_solver_message(m);
    reveal_strlit(",\"message\":");
    reveal_strlit("{\"type\":\"ASK_CALL\",\"solver_id\":");
    reveal_strlit("{\"type\":\"ASK_REPLY\",\"trial\":");
    reveal_strlit("{\"type\":\"CREATE_SOLVER_CAST\",\"solver_id\":");
    reveal_strlit("{\"type\":\"DROP_SOLVER_CAST\",\"solver_id\":");
    reveal_strlit("{\"type\":\"ERROR_REPLY\",\"kind\":");
    reveal_strlit("{\"type\":\"SOLVER_SPEC_CAST\",\"spec\":");
    reveal_strlit("{\"type\":\"TELL_CALL\",\"solver_id\":");
    reveal_strlit("{\"type\":\"TELL_REPLY\"}");
    reveal_strlit("}");
    let l0 = "{\"type\":\"ERROR_REPLY\",\"kind\":"@;
    let l1 = ",\"message\":"@;
    let le = "}"@;
    let e0 = spec_enc_error_kind(kind);
    let e1 = spec_enc_opt_str(message);
    let rend = Seq::<char>::empty();
    let r4 = le + rend;
    let r3 = e1 + r4;
    let r2 = l1 + r3;
    let r1 = e0 + r2;
    assert(s == (l0) + r1 && s == (l0 + e0) + r2 && s == (l0 + e0 + l1) + r3 && s == (l0 + e0 + l1 + e1) + r4 && s =~= (l0 + e0 + l1 + e1 + le) + rend) by {
        assert(s =~= (l0 + e0 + l1 + e1 + le));
        assert(s =~= (l0 + e0 + l1 + e1 + le) + rend);
        lemma_concat_associative((l0 + e0 + l1 + e1), le, rend);
        lemma_concat_associative((l0 + e0 + l1), e1, r4);
        lemma_concat_associative((l0 + e0), l1, r3);
        lemma_concat_associative((l0), e0, r2);
    }
    assert(at(s, 0, l0)) by {
        assert(s.subrange(0, l0.len() as int) =~= l0);
    }
    lemma_error_kind_round((l0), kind, r2);
    lemma_at_concat((l0 + e0), l1, r3);
    lemma_opt_str_round((l0 + e0 + l1), message, r4);
    lemma_at_concat((l0 + e0 + l1 + e1), le, rend);
    lemma_at_distinct(s, 0, "{\"type\":\"ERROR_REPLY\",\"kind\":"@, "{\"type\":\"SOLVER_SPEC_CAST\",\"spec\":"@, 9);
    lemma_at_distinct(s, 0, "{\"type\":\"ERROR_REPLY\",\"kind\":"@, "{\"type\":\"CREATE_SOLVER_CAST\",\"solver_id\":"@, 9);
    lemma_at_distinct(s, 0, "{\"type\":\"ERROR_REPLY\",\"kind\":"@, "{\"type\":\"DROP_SOLVER_CAST\",\"solver_id\":"@, 9);
    lemma_at_distinct(s, 0, "{\"type\":\"ERROR_REPLY\",\"kind\":"@, "{\"type\":\"ASK_CALL\",\"solver_id\":"@, 9);
    lemma_at_distinct(s, 0, "{\"type\":\"ERROR_REPLY\",\"kind\":"@, "{\"type\":\"ASK_REPLY\",\"trial\":"@, 9);
    lemma_at_distinct(s, 0, "{\"type\":\"ERROR_REPLY\",\"kind\":"@, "{\"type\":\"TELL_CALL\",\"solver_id\":"@, 9);
    lemma_at_distinct(s, 0, "{\"type\":\"ERROR_REPLY\",\"kind\":"@, "{\"type\":\"TELL_REPLY\"}"@, 9);
}

/// Whether every number of the message fits its machine type on the wire.
pub open spec fn problem_message_fits(m: crate::message::ProblemMessageView) -> bool {
    match m {
        crate::message::ProblemMessageView::ProblemSpecCast { spec } => pspec_fits(spec),
        crate::message::ProblemMessageView::CreateProblemCast { problem_id, random_seed } => 0
            <= problem_id <= u64::MAX && 0 <= random_seed <= u64::MAX,
        crate::message::ProblemMessageView::DropProblemCast { problem_id } => 0 <= problem_id
            <= u64::MAX,
        crate::message::ProblemMessageView::CreateEvaluatorCall {
            problem_id,
            evaluator_id,
            params,
        } => 0 <= problem_id <= u64::MAX && 0 <= evaluator_id <= u64::MAX && params_fit(params),
        crate::message::ProblemMessageView::CreateEvaluatorReply => true,
        crate::message::ProblemMessageView::DropEvaluatorCast { problem_id, evaluator_id } => 0
            <= problem_id <= u64::MAX && 0 <= evaluator_id <= u64::MAX,
        crate::message::ProblemMessageView::EvaluateCall {
            problem_id,
            evaluator_id,
            next_step,
        } => 0 <= problem_id <= u64::MAX && 0 <= evaluator_id <= u64::MAX && 0 <= next_step
            <= u64::MAX,
        crate::message::ProblemMessageView::EvaluateReply { current_step, values } => 0
            <= current_step <= u64::MAX && ticks_fit(values),
        crate::message::ProblemMessageView::ErrorReply { kind, message } => true,
    }
}

/// Wire round trip of the problem protocol: decoding an encoded message
/// gives the message back, for every message variant.
pub proof fn lemma_problem_message_round(m: crate::message::ProblemMessageView)
    requires
        problem_message_fits(m),
    ensures
        spec_dec_problem_message(spec_enc_problem_message(m)) == Some(m),
{
    match m {
        crate::message::ProblemMessageView::ProblemSpecCast { spec } => {
            lemma_pm_problem_spec_cast_round(spec);
        },
        crate::message::ProblemMessageView::CreateProblemCast { problem_id, random_seed } => {
            lemma_pm_create_problem_cast_round(problem_id, random_seed);
        },
        crate::message::ProblemMessageView::DropProblemCast { problem_id } => {
            lemma_pm_drop_problem_cast_round(problem_id);
        },
        crate::message::ProblemMessageView::CreateEvaluatorCall {
            problem_id,
            evaluator_id,
            params,
        } => {
            lemma_pm_create_evaluator_call_round(problem_id, evaluator_id, params);
        },
        crate::message::ProblemMessageView::CreateEvaluatorReply => {
            lemma_pm_create_evaluator_reply_round();
        },
        crate::message::ProblemMessageView::DropEvaluatorCast { problem_id, evaluator_id } => {
            lemma_pm_drop_evaluator_cast_round(problem_id, evaluator_id);
        },
        crate::message::ProblemMessageView::EvaluateCall {
            problem_id,
            evaluator_id,
            next_step,
        } => {
            lemma_pm_evaluate_call_round(problem_id, evaluator_id, next_step);
        },
        crate::message::ProblemMessageView::EvaluateReply { current_step, values } => {
            lemma_pm_evaluate_reply_round(current_step, values);
        },
        crate::message::ProblemMessageView::ErrorReply { kind, message } => {
            lemma_pm_error_reply_round(kind, message);
        },
    }
}

/// Whether every number of the message fits its machine type on the wire.
pub open spec fn solver_message_fits(m: crate::message::SolverMessageView) -> bool {
    match m {
        crate::message::SolverMessageView::SolverSpecCast { spec } => true,
        crate::message::SolverMessageView::CreateSolverCast {
            solver_id,
            random_seed,
            problem,
        } => 0 <= solver_id <= u64::MAX && 0 <= random_seed <= u64::MAX && pspec_fits(problem),
        crate::message::SolverMessageView::DropSolverCast { solver_id } => 0 <= solver_id
            <= u64::MAX,
        crate::message::SolverMessageView::AskCall { solver_id, next_trial_id } => 0 <= solver_id
            <= u64::MAX && 0 <= next_trial_id <= u64::MAX,
        crate::message::SolverMessageView::AskReply { trial, next_trial_id } => next_trial_fits(
            trial,
        ) && 0 <= next_trial_id <= u64::MAX,
        crate::message::SolverMessageView::TellCall { solver_id, trial } => 0 <= solver_id
            <= u64::MAX && evaluated_trial_fits(trial),
        crate::message::SolverMessageView::TellReply => true,
        crate::message::SolverMessageView::ErrorReply { kind, message } => true,
    }
}

/// Wire round trip of the solver protocol: decoding an encoded message gives
/// the message back, for every message variant.
pub proof fn lemma_solver_message_round(m: crate::message::SolverMessageView)
    requires
        solver_message_fits(m),
    ensures
        spec_dec_solver_message(spec_enc_solver_message(m)) == Some(m),
{
    match m {
        crate::message::SolverMessageView::SolverSpecCast { spec } => {
            lemma_sm_solver_spec_cast_round(spec);
        },
        crate::message::SolverMessageView::CreateSolverCast {
            solver_id,
            random_seed,
            problem,
        } => {
            lemma_sm_create_solver_cast_round(solver_id, random_seed, problem);
        },
        crate::message::SolverMessageView::DropSolverCast { solver_id } => {
            lemma_sm_drop_solver_cast_round(solver_id);
        },
        crate::message::SolverMessageView::AskCall { solver_id, next_trial_id } => {
            lemma_sm_ask_call_round(solver_id, next_trial_id);
        },
        crate::message::SolverMessageView::AskReply { trial, next_trial_id } => {
            lemma_sm_ask_reply_round(trial, next_trial_id);
        },
        crate::message::SolverMessageView::TellCall { solver_id, trial } => {
            lemma_sm_tell_call_round(solver_id, trial);
        },
        crate::message::SolverMessageView::TellReply => {
            lemma_sm_tell_reply_round();
        },
        crate::message::SolverMessageView::ErrorReply { kind, message } => {
            lemma_sm_error_reply_round(kind, message);
        },
    }
}

/// An encoded string list item chain reads back as itself.
#[verifier::rlimit(100)]
#[verifier::spinoff_prover]
proof fn lemma_strs_items_round(pre: Seq<char>, v: Seq<Seq<char>>, rest: Seq<char>)
    requires
        v.len() >= 1,
    ensures
        spec_dec_strs_items(pre + spec_enc_strs_items(v) + seq![']'] + rest, pre.len() as int)
            == Some((v, pre.len() + spec_enc_strs_items(v).len() as int + 1)),
    decreases v.len(),
{
    let enc = spec_enc_strs_items(v);
    let s = pre + enc + seq![']'] + rest;
    if v.len() == 1 {
        let e0 = spec_enc_str(v[0]);
        assert(enc == e0);
        let rest2 = seq![']'] + rest;
        assert(s =~= pre + e0 + rest2);
        lemma_parse_str_round(pre, v[0], rest2);
        let p = pre.len() + e0.len() as int;
        assert(s[p] == ']') by {
            lemma_at_concat(pre + e0, rest2, Seq::empty());
            assert(pre + e0 + rest2 + Seq::<char>::empty() =~= s);
            assert((pre + e0 + rest2)[p + 0] == rest2[0]);
        }
        assert(seq![v[0]] =~= v);
    } else {
        let e0 = spec_enc_str(v[0]);
        let tail = v.subrange(1, v.len() as int);
        let etail = spec_enc_strs_items(tail);
        assert(enc == e0 + seq![','] + etail);
        let rest2 = seq![','] + etail + seq![']'] + rest;
        assert(s =~= pre + e0 + rest2);
        lemma_parse_str_round(pre, v[0], rest2);
        let p = pre.len() + e0.len() as int;
        assert(s[p] == ',') by {
            assert((pre + e0 + rest2)[p + 0] == rest2[0]) by {
                lemma_at_concat(pre + e0, rest2, Seq::empty());
                assert(pre + e0 + rest2 + Seq::<char>::empty() =~= pre + e0 + rest2);
            }
        }
        let pre2 = pre + e0 + seq![','];
        assert(s =~= pre2 + etail + seq![']'] + rest);
        lemma_strs_items_round(pre2, tail, rest);
        assert(seq![v[0]] + tail =~= v);
        assert(pre2.len() == p + 1);
    }
}

/// The text of a quoted string starts with its quote.
proof fn lemma_enc_str_first(v: Seq<char>)
    ensures
        spec_enc_str(v).len() >= 2,
        spec_enc_str(v)[0] == '"',
{
    assert(spec_enc_str(v) =~= seq!['"'] + crate::text::spec_escape(v) + seq!['"']);
}

/// An encoded string list surrounded by text reads back as itself.
#[verifier::rlimit(100)]
#[verifier::spinoff_prover]
pub proof fn lemma_strs_round(pre: Seq<char>, v: Seq<Seq<char>>, rest: Seq<char>)
    ensures
        spec_dec_strs(pre + spec_enc_strs(v) + rest, pre.len() as int) == Some(
            (v, pre.len() + spec_enc_strs(v).len() as int),
        ),
{
    let enc = spec_enc_strs(v);
    let s = pre + enc + rest;
    lemma_at_concat(pre, enc, rest);
    assert(s[pre.len() as int] == enc[0]);
    if v.len() == 0 {
        assert(enc =~= seq!['[', ']']);
        assert(s[pre.len() as int + 1] == enc[1]);
        assert(Seq::<Seq<char>>::empty() =~= v);
    } else {
        assert(enc =~= seq!['['] + spec_enc_strs_items(v) + seq![']']);
        let pre2 = pre + seq!['['];
        assert(s =~= pre2 + spec_enc_strs_items(v) + seq![']'] + rest);
        lemma_strs_items_round(pre2, v, rest);
        assert(s[pre.len() as int + 1] == spec_enc_strs_items(v)[0]) by {
            lemma_at_concat(pre2, spec_enc_strs_items(v), seq![']'] + rest);
            assert(pre2 + spec_enc_strs_items(v) + (seq![']'] + rest) =~= s);
        }
        assert(spec_enc_strs_items(v)[0] == spec_enc_str(v[0])[0]) by {
            if v.len() > 1 {
                lemma_at_concat(
                    Seq::empty(),
                    spec_enc_str(v[0]),
                    seq![','] + spec_enc_strs_items(v.subrange(1, v.len() as int)),
                );
                assert(Seq::<char>::empty() + spec_enc_str(v[0]) + (seq![',']
                    + spec_enc_strs_items(v.subrange(1, v.len() as int))) =~= spec_enc_strs_items(
                    v,
                ));
                lemma_enc_str_first(v[0]);
            }
        }
        lemma_enc_str_first(v[0]);
    }
}

/// An encoded attribute entry chain reads back as itself.
#[verifier::rlimit(100)]
#[verifier::spinoff_prover]
proof fn lemma_attrs_items_round(pre: Seq<char>, v: Seq<(Seq<char>, Seq<char>)>, rest: Seq<char>)
    requires
        v.len() >= 1,
    ensures
        spec_dec_attrs_items(pre + spec_enc_attrs_items(v) + seq!['}'] + rest, pre.len() as int)
            == Some((v, pre.len() + spec_enc_attrs_items(v).len() as int + 1)),
    decreases v.len(),
{
    let enc = spec_enc_attrs_items(v);
    let s = pre + enc + seq!['}'] + rest;
    let ek = spec_enc_str(v[0].0);
    let ev = spec_enc_str(v[0].1);
    if v.len() == 1 {
        assert(enc == ek + seq![':'] + ev);
        let rest1 = seq![':'] + ev + seq!['}'] + rest;
        assert(s =~= pre + ek + rest1);
        lemma_parse_str_round(pre, v[0].0, rest1);
        let p1 = pre.len() + ek.len() as int;
        assert(s[p1] == ':') by {
            lemma_at_concat(pre + ek, rest1, Seq::empty());
            assert(pre + ek + rest1 + Seq::<char>::empty() =~= s);
            assert((pre + ek + rest1)[p1 + 0] == rest1[0]);
        }
        let pre2 = pre + ek + seq![':'];
        let rest2 = seq!['}'] + rest;
        assert(s =~= pre2 + ev + rest2);
        lemma_parse_str_round(pre2, v[0].1, rest2);
        let p2 = pre2.len() + ev.len() as int;
        assert(s[p2] == '}') by {
            lemma_at_concat(pre2 + ev, rest2, Seq::empty());
            assert(pre2 + ev + rest2 + Seq::<char>::empty() =~= s);
            assert((pre2 + ev + rest2)[p2 + 0] == rest2[0]);
        }
        assert(seq![v[0]] =~= v);
        assert((v[0].0, v[0].1) == v[0]);
    } else {
        let tail = v.subrange(1, v.len() as int);
        let etail = spec_enc_attrs_items(tail);
        assert(enc == ek + seq![':'] + ev + seq![','] + etail);
        let rest1 = seq![':'] + ev + seq![','] + etail + seq!['}'] + rest;
        assert(s =~= pre + ek + rest1);
        lemma_parse_str_round(pre, v[0].0, rest1);
        let p1 = pre.len() + ek.len() as int;
        assert(s[p1] == ':') by {
            lemma_at_concat(pre + ek, rest1, Seq::empty());
            assert(pre + ek + rest1 + Seq::<char>::empty() =~= s);
            assert((pre + ek + rest1)[p1 + 0] == rest1[0]);
        }
        let pre2 = pre + ek + seq![':'];
        let rest2 = seq![','] + etail + seq!['}'] + rest;
        assert(s =~= pre2 + ev + rest2);
        lemma_parse_str_round(pre2, v[0].1, rest2);
        let p2 = pre2.len() + ev.len() as int;
        assert(s[p2] == ',') by {
            lemma_at_concat(pre2 + ev, rest2, Seq::empty());
            assert(pre2 + ev + rest2 + Seq::<char>::empty() =~= s);
            assert((pre2 + ev + rest2)[p2 + 0] == rest2[0]);
        }
        let pre3 = pre2 + ev + seq![','];
        assert(s =~= pre3 + etail + seq!['}'] + rest);
        lemma_attrs_items_round(pre3, tail, rest);
        assert(seq![v[0]] + tail =~= v);
        assert((v[0].0, v[0].1) == v[0]);
        assert(pre3.len() == p2 + 1);
    }
}

/// An encoded attribute map surrounded by text reads back as itself.
#[verifier::rlimit(100)]
#[verifier::spinoff_prover]
pub proof fn lemma_attrs_round(pre: Seq<char>, v: Seq<(Seq<char>, Seq<char>)>, rest: Seq<char>)
    ensures
        spec_dec_attrs(pre + spec_enc_attrs(v) + rest, pre.len() as int) == Some(
            (v, pre.len() + spec_enc_attrs(v).len() as int),
        ),
{
    let enc = spec_enc_attrs(v);
    let s = pre + enc + rest;
    lemma_at_concat(pre, enc, rest);
    assert(s[pre.len() as int] == enc[0]);
    if v.len() == 0 {
        assert(enc =~= seq!['{', '}']);
        assert(s[pre.len() as int + 1] == enc[1]);
        assert(Seq::<(Seq<char>, Seq<char>)>::empty() =~= v);
    } else {
        assert(enc =~= seq!['{'] + spec_enc_attrs_items(v) + seq!['}']);
        let pre2 = pre + seq!['{'];
        assert(s =~= pre2 + spec_enc_attrs_items(v) + seq!['}'] + rest);
        lemma_attrs_items_round(pre2, v, rest);
        assert(s[pre.len() as int + 1] == spec_enc_attrs_items(v)[0]) by {
            lemma_at_concat(pre2, spec_enc_attrs_items(v), seq!['}'] + rest);
            assert(pre2 + spec_enc_attrs_items(v) + (seq!['}'] + rest) =~= s);
        }
        assert(spec_enc_attrs_items(v)[0] == spec_enc_str(v[0].0)[0]) by {
            if v.len() > 1 {
                lemma_at_concat(
                    Seq::empty(),
                    spec_enc_str(v[0].0),
                    seq![':'] + spec_enc_str(v[0].1) + seq![','] + spec_enc_attrs_items(
                        v.subrange(1, v.len() as int),
                    ),
                );
                assert(Seq::<char>::empty() + spec_enc_str(v[0].0) + (seq![':'] + spec_enc_str(
                    v[0].1,
                ) + seq![','] + spec_enc_attrs_items(v.subrange(1, v.len() as int)))
                    =~= spec_enc_attrs_items(v));
                lemma_enc_str_first(v[0].0);
            } else {
                lemma_at_concat(
                    Seq::empty(),
                    spec_enc_str(v[0].0),
                    seq![':'] + spec_enc_str(v[0].1),
                );
                assert(Seq::<char>::empty() + spec_enc_str(v[0].0) + (seq![':'] + spec_enc_str(
                    v[0].1,
                )) =~= spec_enc_attrs_items(v));
                lemma_enc_str_first(v[0].0);
            }
        }
        lemma_enc_str_first(v[0].0);
    }
}

/// An encoded distribution name surrounded by text reads back as itself.
pub proof fn lemma_distribution_round(
    pre: Seq<char>,
    d: crate::domain::Distribution,
    rest: Seq<char>,
)
    ensures
        spec_dec_distribution(pre + spec_enc_distribution(d) + rest, pre.len() as int) == Some(
            (d, pre.len() + spec_enc_distribution(d).len() as int),
        ),
{
    reveal_strlit("\"UNIFORM\"");
    reveal_strlit("\"LOG_UNIFORM\"");
    let enc = spec_enc_distribution(d);
    let s = pre + enc + rest;
    lemma_at_concat(pre, enc, rest);
    match d {
        crate::domain::Distribution::Uniform => {},
        crate::domain::Distribution::LogUniform => {
            lemma_at_distinct(s, pre.len() as int, enc, "\"UNIFORM\""@, 1);
        },
    }
}

/// An encoded condition surrounded by text reads back as itself.
#[verifier::rlimit(100)]
#[verifier::spinoff_prover]
pub proof fn lemma_condition_round(
    pre: Seq<char>,
    c: crate::domain::ConditionView,
    rest: Seq<char>,
)
    requires
        i64::MIN <= c.value <= i64::MAX,
    ensures
        spec_dec_condition(pre + spec_enc_condition(c) + rest, pre.len() as int) == Some(
            (c, pre.len() + spec_enc_condition(c).len() as int),
        ),
{
    reveal_strlit("{\"EQ\":{\"target\":");
    reveal_strlit(",\"value\":");
    reveal_strlit("}}");
    let l0 = "{\"EQ\":{\"target\":"@;
    let l1 = ",\"value\":"@;
    let le = "}}"@;
    let e0 = spec_enc_str(c.target);
    let e1 = spec_enc_ticks(c.value);
    let enc = spec_enc_condition(c);
    let s = pre + enc + rest;
    let r4 = le + rest;
    let r3 = e1 + r4;
    let r2 = l1 + r3;
    let r1 = e0 + r2;
    let pa = pre + l0;
    let pb = pa + e0 + l1;
    assert(s == ((pre + l0) + r1) && s == ((pa + e0) + r2) && s == (((pa + e0) + l1) + r3) && s
        == ((pb + e1) + r4) && s == (((pb + e1) + le) + rest)) by {
        lemma_concat_associative(pre, enc, rest);
        lemma_concat_associative(l0 + e0 + l1 + e1, le, rest);
        lemma_concat_associative(l0 + e0 + l1, e1, r4);
        lemma_concat_associative(l0 + e0, l1, r3);
        lemma_concat_associative(l0, e0, r2);
        lemma_concat_associative(pre, l0, r1);
        lemma_concat_associative(pa, e0, r2);
        lemma_concat_associative(pa + e0, l1, r3);
        lemma_concat_associative(pb, e1, r4);
        lemma_concat_associative(pb + e1, le, rest);
    }
    lemma_at_concat(pre, l0, r1);
    lemma_parse_str_round(pa, c.target, r2);
    lemma_at_concat(pa + e0, l1, r3);
    assert(r4[0] == le[0]);
    assert(crate::text::non_numeric('}'));
    lemma_dec_ticks_round(pb, c.value, r4);
    lemma_at_concat(pb + e1, le, rest);
}

/// Whether a range's bounds fit the machine types on the wire.
pub open spec fn range_fits(r: crate::domain::RangeView) -> bool {
    match r {
        crate::domain::RangeView::Continuous { low, high } => i64::MIN <= low <= i64::MAX
            && i64::MIN <= high <= i64::MAX,
        crate::domain::RangeView::Discrete { low, high } => i64::MIN <= low <= i64::MAX
            && i64::MIN <= high <= i64::MAX,
        crate::domain::RangeView::Categorical { choices } => true,
    }
}

/// An encoded range surrounded by text reads back as itself.
#[verifier::rlimit(100)]
#[verifier::spinoff_prover]
pub proof fn lemma_range_round(pre: Seq<char>, r: crate::domain::RangeView, rest: Seq<char>)
    requires
        range_fits(r),
    ensures
        spec_dec_range(pre + spec_enc_range(r) + rest, pre.len() as int) == Some(
            (r, pre.len() + spec_enc_range(r).len() as int),
        ),
{
    reveal_strlit("{\"CONTINUOUS\":{\"low\":");
    reveal_strlit("{\"DISCRETE\":{\"low\":");
    reveal_strlit("{\"CATEGORICAL\":{\"choices\":");
    reveal_strlit(",\"high\":");
    reveal_strlit("}}");
    let enc = spec_enc_range(r);
    let s = pre + enc + rest;
    let l1 = ",\"high\":"@;
    let le = "}}"@;
    match r {
        crate::domain::RangeView::Continuous { low, high } => {
            let l0 = "{\"CONTINUOUS\":{\"low\":"@;
            let e0 = spec_enc_ticks(low);
            let e1 = spec_enc_ticks(high);
            let r4 = le + rest;
            let r3 = e1 + r4;
            let r2 = l1 + r3;
            let r1 = e0 + r2;
            let pa = pre + l0;
            let pb = pa + e0 + l1;
            assert(s == ((pre + l0) + r1) && s == ((pa + e0) + r2) && s == (((pa + e0) + l1) + r3)
                && s == ((pb + e1) + r4) && s == (((pb + e1) + le) + rest)) by {
                lemma_concat_associative(pre, enc, rest);
                lemma_concat_associative(l0 + e0 + l1 + e1, le, rest);
                lemma_concat_associative(l0 + e0 + l1, e1, r4);
                lemma_concat_associative(l0 + e0, l1, r3);
                lemma_concat_associative(l0, e0, r2);
                lemma_concat_associative(pre, l0, r1);
                lemma_concat_associative(pa, e0, r2);
                lemma_concat_associative(pa + e0, l1, r3);
                lemma_concat_associative(pb, e1, r4);
                lemma_concat_associative(pb + e1, le, rest);
            }
            lemma_at_concat(pre, l0, r1);
            assert(r2[0] == l1[0]);
            lemma_dec_ticks_round(pa, low, r2);
            lemma_at_concat(pa + e0, l1, r3);
            assert(r4[0] == le[0]);
            lemma_dec_ticks_round(pb, high, r4);
            lemma_at_concat(pb + e1, le, rest);
        },
        crate::domain::RangeView::Discrete { low, high } => {
            let l0 = "{\"DISCRETE\":{\"low\":"@;
            let e0 = crate::text::spec_enc_int(low);
            let e1 = crate::text::spec_enc_int(high);
            let r4 = le + rest;
            let r3 = e1 + r4;
            let r2 = l1 + r3;
            let r1 = e0 + r2;
            let pa = pre + l0;
            let pb = pa + e0 + l1;
            assert(s == ((pre + l0) + r1) && s == ((pa + e0) + r2) && s == (((pa + e0) + l1) + r3)
                && s == ((pb + e1) + r4) && s == (((pb + e1) + le) + rest)) by {
                lemma_concat_associative(pre, enc, rest);
                lemma_concat_associative(l0 + e0 + l1 + e1, le, rest);
                lemma_concat_associative(l0 + e0 + l1, e1, r4);
                lemma_concat_associative(l0 + e0, l1, r3);
                lemma_concat_associative(l0, e0, r2);
                lemma_concat_associative(pre, l0, r1);
                lemma_concat_associative(pa, e0, r2);
                lemma_concat_associative(pa + e0, l1, r3);
                lemma_concat_associative(pb, e1, r4);
                lemma_concat_associative(pb + e1, le, rest);
            }
            lemma_at_concat(pre, l0, r1);
            assert(r2[0] == l1[0]);
            crate::text::lemma_parse_int_round(pa, low, r2);
            lemma_at_concat(pa + e0, l1, r3);
            assert(r4[0] == le[0]);
            crate::text::lemma_parse_int_round(pb, high, r4);
            lemma_at_concat(pb + e1, le, rest);
            // the discrete tag is not the continuous tag
            lemma_at_distinct(s, pre.len() as int, l0, "{\"CONTINUOUS\":{\"low\":"@, 2);
        },
        crate::domain::RangeView::Categorical { choices } => {
            let l0 = "{\"CATEGORICAL\":{\"choices\":"@;
            let e0 = spec_enc_strs(choices);
            let r2 = le + rest;
            let r1 = e0 + r2;
            let pa = pre + l0;
            assert(s == ((pre + l0) + r1) && s == ((pa + e0) + r2) && s == (((pa + e0) + le)
                + rest)) by {
                lemma_concat_associative(pre, enc, rest);
                lemma_concat_associative(l0 + e0, le, rest);
                lemma_concat_associative(l0, e0, r2);
                lemma_concat_associative(pre, l0, r1);
                lemma_concat_associative(pa, e0, r2);
                lemma_concat_associative(pa + e0, le, rest);
            }
            lemma_at_concat(pre, l0, r1);
            lemma_strs_round(pa, choices, r2);
            lemma_at_concat(pa + e0, le, rest);
            lemma_at_distinct(s, pre.len() as int, l0, "{\"CONTINUOUS\":{\"low\":"@, 3);
            lemma_at_distinct(s, pre.len() as int, l0, "{\"DISCRETE\":{\"low\":"@, 2);
        },
    }
}

/// An encoded condition list item chain reads back as itself.
#[verifier::rlimit(100)]
#[verifier::spinoff_prover]
proof fn lemma_conditions_items_round(
    pre: Seq<char>,
    v: Seq<crate::domain::ConditionView>,
    rest: Seq<char>,
)
    requires
        v.len() >= 1,
        forall|i: int|
            0 <= i < v.len() ==> i64::MIN <= (#[trigger] v[i]).value <= i64::MAX,
    ensures
        spec_dec_conditions_items(
            pre + spec_enc_conditions_items(v) + seq![']'] + rest,
            pre.len() as int,
        ) == Some((v, pre.len() + spec_enc_conditions_items(v).len() as int + 1)),
    decreases v.len(),
{
    let enc = spec_enc_conditions_items(v);
    let s = pre + enc + seq![']'] + rest;
    if v.len() == 1 {
        let e0 = spec_enc_condition(v[0]);
        assert(enc == e0);
        let rest2 = seq![']'] + rest;
        assert(s =~= pre + e0 + rest2);
        lemma_condition_round(pre, v[0], rest2);
        let p = pre.len() + e0.len() as int;
        assert(s[p] == ']') by {
            lemma_at_concat(pre + e0, rest2, Seq::empty());
            assert(pre + e0 + rest2 + Seq::<char>::empty() =~= s);
            assert((pre + e0 + rest2)[p + 0] == rest2[0]);
        }
        assert(seq![v[0]] =~= v);
    } else {
        let e0 = spec_enc_condition(v[0]);
        let tail = v.subrange(1, v.len() as int);
        let etail = spec_enc_conditions_items(tail);
        assert(enc == e0 + seq![','] + etail);
        let rest2 = seq![','] + etail + seq![']'] + rest;
        assert(s =~= pre + e0 + rest2);
        lemma_condition_round(pre, v[0], rest2);
        let p = pre.len() + e0.len() as int;
        assert(s[p] == ',') by {
            assert((pre + e0 + rest2)[p + 0] == rest2[0]) by {
                lemma_at_concat(pre + e0, rest2, Seq::empty());
                assert(pre + e0 + rest2 + Seq::<char>::empty() =~= pre + e0 + rest2);
            }
        }
        let pre2 = pre + e0 + seq![','];
        assert(s =~= pre2 + etail + seq![']'] + rest);
        assert(forall|i: int| 0 <= i < tail.len() ==> tail[i] == v[i + 1]);
        lemma_conditions_items_round(pre2, tail, rest);
        assert(seq![v[0]] + tail =~= v);
        assert(pre2.len() == p + 1);
    }
}

/// The text of a condition starts with its tag brace.
proof fn lemma_enc_condition_first(c: crate::domain::ConditionView)
    ensures
        spec_enc_condition(c).len() >= 1,
        spec_enc_condition(c)[0] == '{',
{
    reveal_strlit("{\"EQ\":{\"target\":");
    let l0 = "{\"EQ\":{\"target\":"@;
    lemma_at_concat(
        Seq::empty(),
        l0,
        spec_enc_str(c.target) + ",\"value\":"@ + spec_enc_ticks(c.value) + "}}"@,
    );
    assert(Seq::<char>::empty() + l0 + (spec_enc_str(c.target) + ",\"value\":"@ + spec_enc_ticks(
        c.value,
    ) + "}}"@) =~= spec_enc_condition(c));
    assert(spec_enc_condition(c)[0] == l0[0]);
}

/// An encoded condition list surrounded by text reads back as itself.
#[verifier::rlimit(100)]
#[verifier::spinoff_prover]
pub proof fn lemma_conditions_round(
    pre: Seq<char>,
    v: Seq<crate::domain::ConditionView>,
    rest: Seq<char>,
)
    requires
        forall|i: int|
            0 <= i < v.len() ==> i64::MIN <= (#[trigger] v[i]).value <= i64::MAX,
    ensures
        spec_dec_conditions(pre + spec_enc_conditions(v) + rest, pre.len() as int) == Some(
            (v, pre.len() + spec_enc_conditions(v).len() as int),
        ),
{
    let enc = spec_enc_conditions(v);
    let s = pre + enc + rest;
    lemma_at_concat(pre, enc, rest);
    assert(s[pre.len() as int] == enc[0]);
    if v.len() == 0 {
        assert(enc =~= seq!['[', ']']);
        assert(s[pre.len() as int + 1] == enc[1]);
        assert(Seq::<crate::domain::ConditionView>::empty() =~= v);
    } else {
        assert(enc =~= seq!['['] + spec_enc_conditions_items(v) + seq![']']);
        let pre2 = pre + seq!['['];
        assert(s =~= pre2 + spec_enc_conditions_items(v) + seq![']'] + rest);
        lemma_conditions_items_round(pre2, v, rest);
        assert(s[pre.len() as int + 1] == spec_enc_conditions_items(v)[0]) by {
            lemma_at_concat(pre2, spec_enc_conditions_items(v), seq![']'] + rest);
            assert(pre2 + spec_enc_conditions_items(v) + (seq![']'] + rest) =~= s);
        }
        assert(spec_enc_conditions_items(v)[0] == spec_enc_condition(v[0])[0]) by {
            if v.len() > 1 {
                lemma_at_concat(
                    Seq::empty(),
                    spec_enc_condition(v[0]),
                    seq![','] + spec_enc_conditions_items(v.subrange(1, v.len() as int)),
                );
                assert(Seq::<char>::empty() + spec_enc_condition(v[0]) + (seq![',']
                    + spec_enc_conditions_items(v.subrange(1, v.len() as int)))
                    =~= spec_enc_conditions_items(v));
                lemma_enc_condition_first(v[0]);
            }
        }
        lemma_enc_condition_first(v[0]);
    }
}

/// Whether a variable's numbers fit the machine types on the wire.
pub open spec fn variable_fits(v: crate::domain::VariableView) -> bool {
    &&& range_fits(v.range)
    &&& forall|i: int|
        0 <= i < v.conditions.len() ==> i64::MIN <= (#[trigger] v.conditions[i]).value
            <= i64::MAX
}

/// An encoded variable surrounded by text reads back as itself.
#[verifier::rlimit(100)]
#[verifier::spinoff_prover]
pub proof fn lemma_variable_round(pre: Seq<char>, v: crate::domain::VariableView, rest: Seq<char>)
    requires
        variable_fits(v),
    ensures
        spec_dec_variable(pre + spec_enc_variable(v) + rest, pre.len() as int) == Some(
            (v, pre.len() + spec_enc_variable(v).len() as int),
        ),
{
    reveal_strlit("{\"name\":");
    reveal_strlit(",\"range\":");
    reveal_strlit(",\"distribution\":");
    reveal_strlit(",\"conditions\":");
    reveal_strlit("}");
    let l0 = "{\"name\":"@;
    let l1 = ",\"range\":"@;
    let l2 = ",\"distribution\":"@;
    let l3 = ",\"conditions\":"@;
    let le = "}"@;
    reveal(spec_enc_variable);
    reveal(spec_dec_variable);
    let e0 = spec_enc_str(v.name);
    let e1 = spec_enc_range(v.range);
    let e2 = spec_enc_distribution(v.distribution);
    let e3 = spec_enc_conditions(v.conditions);
    let enc = spec_enc_variable(v);
    let s = pre + enc + rest;
    let r8 = le + rest;
    let r7 = e3 + r8;
    let r6 = l3 + r7;
    let r5 = e2 + r6;
    let r4 = l2 + r5;
    let r3 = e1 + r4;
    let r2 = l1 + r3;
    let r1 = e0 + r2;
    let pa = pre + l0;
    let pb = pa + e0 + l1;
    let pc = pb + e1 + l2;
    let pd = pc + e2 + l3;
    assert(s == ((pre + l0) + r1)) by {
        lemma_concat_associative(pre, enc, rest);
        lemma_concat_associative(l0 + e0 + l1 + e1 + l2 + e2 + l3 + e3, le, rest);
        lemma_concat_associative(l0 + e0 + l1 + e1 + l2 + e2 + l3, e3, r8);
        lemma_concat_associative(l0 + e0 + l1 + e1 + l2 + e2, l3, r7);
        lemma_concat_associative(l0 + e0 + l1 + e1 + l2, e2, r6);
        lemma_concat_associative(l0 + e0 + l1 + e1, l2, r5);
        lemma_concat_associative(l0 + e0 + l1, e1, r4);
        lemma_concat_associative(l0 + e0, l1, r3);
        lemma_concat_associative(l0, e0, r2);
        lemma_concat_associative(pre, l0, r1);
    }
    assert(s == ((pa + e0) + r2) && s == (((pa + e0) + l1) + r3) && s == ((pb + e1) + r4) && s
        == (((pb + e1) + l2) + r5) && s == ((pc + e2) + r6) && s == (((pc + e2) + l3) + r7) && s
        == ((pd + e3) + r8) && s == (((pd + e3) + le) + rest)) by {
        lemma_concat_associative(pa, e0, r2);
        lemma_concat_associative(pa + e0, l1, r3);
        lemma_concat_associative(pb, e1, r4);
        lemma_concat_associative(pb + e1, l2, r5);
        lemma_concat_associative(pc, e2, r6);
        lemma_concat_associative(pc + e2, l3, r7);
        lemma_concat_associative(pd, e3, r8);
        lemma_concat_associative(pd + e3, le, rest);
    }
    lemma_at_concat(pre, l0, r1);
    lemma_parse_str_round(pa, v.name, r2);
    lemma_at_concat(pa + e0, l1, r3);
    lemma_range_round(pb, v.range, r4);
    lemma_at_concat(pb + e1, l2, r5);
    lemma_distribution_round(pc, v.distribution, r6);
    lemma_at_concat(pc + e2, l3, r7);
    lemma_conditions_round(pd, v.conditions, r8);
    lemma_at_concat(pd + e3, le, rest);
}

/// An encoded variable list item chain reads back as itself.
#[verifier::rlimit(100)]
#[verifier::spinoff_prover]
proof fn lemma_domain_items_round(
    pre: Seq<char>,
    v: Seq<crate::domain::VariableView>,
    rest: Seq<char>,
)
    requires
        v.len() >= 1,
        forall|i: int| 0 <= i < v.len() ==> variable_fits(#[trigger] v[i]),
    ensures
        spec_dec_domain_items(pre + spec_enc_domain_items(v) + seq![']'] + rest, pre.len() as int)
            == Some((v, pre.len() + spec_enc_domain_items(v).len() as int + 1)),
    decreases v.len(),
{
    let enc = spec_enc_domain_items(v);
    let s = pre + enc + seq![']'] + rest;
    lemma_enc_variable_first(v[0]);
    if v.len() == 1 {
        let e0 = spec_enc_variable(v[0]);
        assert(enc == e0);
        let rest2 = seq![']'] + rest;
        assert(s =~= pre + e0 + rest2);
        lemma_variable_round(pre, v[0], rest2);
        let p = pre.len() + e0.len() as int;
        assert(s[p] == ']') by {
            lemma_at_concat(pre + e0, rest2, Seq::empty());
            assert(pre + e0 + rest2 + Seq::<char>::empty() =~= s);
            assert((pre + e0 + rest2)[p + 0] == rest2[0]);
        }
        assert(seq![v[0]] =~= v);
        assert(spec_dec_variable(s, pre.len() as int) == Some((v[0], p)));
        assert(spec_dec_domain_items(s, pre.len() as int) == Some((seq![v[0]], p + 1)));
    } else {
        let e0 = spec_enc_variable(v[0]);
        let tail = v.subrange(1, v.len() as int);
        let etail = spec_enc_domain_items(tail);
        assert(enc == e0 + seq![','] + etail);
        let rest2 = seq![','] + etail + seq![']'] + rest;
        assert(s =~= pre + e0 + rest2);
        lemma_variable_round(pre, v[0], rest2);
        let p = pre.len() + e0.len() as int;
        assert(s[p] == ',') by {
            assert((pre + e0 + rest2)[p + 0] == rest2[0]) by {
                lemma_at_concat(pre + e0, rest2, Seq::empty());
                assert(pre + e0 + rest2 + Seq::<char>::empty() =~= pre + e0 + rest2);
            }
        }
        let pre2 = pre + e0 + seq![','];
        assert(s =~= pre2 + etail + seq![']'] + rest);
        assert(forall|i: int| 0 <= i < tail.len() ==> tail[i] == v[i + 1]);
        lemma_domain_items_round(pre2, tail, rest);
        assert(seq![v[0]] + tail =~= v);
        assert(pre2.len() == p + 1);
        assert(spec_dec_variable(s, pre.len() as int) == Some((v[0], p)));
        assert(spec_dec_domain_items(s, pre2.len() as int) == Some(
            (tail, pre2.len() + etail.len() as int + 1),
        ));
    }
}

/// The text of a variable starts with its opening brace.
proof fn lemma_enc_variable_first(v: crate::domain::VariableView)
    ensures
        spec_enc_variable(v).len() >= 1,
        spec_enc_variable(v)[0] == '{',
{
    reveal(spec_enc_variable);
    reveal_strlit("{\"name\":");
    let l0 = "{\"name\":"@;
    let tail = spec_enc_str(v.name) + ",\"range\":"@ + spec_enc_range(v.range)
        + ",\"distribution\":"@ + spec_enc_distribution(v.distribution) + ",\"conditions\":"@
        + spec_enc_conditions(v.conditions) + "}"@;
    lemma_at_concat(Seq::empty(), l0, tail);
    assert(Seq::<char>::empty() + l0 + tail =~= spec_enc_variable(v));
    assert(spec_enc_variable(v)[0] == l0[0]);
}

/// An encoded domain surrounded by text reads back as itself.
#[verifier::rlimit(100)]
#[verifier::spinoff_prover]
pub proof fn lemma_domain_round(
    pre: Seq<char>,
    v: Seq<crate::domain::VariableView>,
    rest: Seq<char>,
)
    requires
        forall|i: int| 0 <= i < v.len() ==> variable_fits(#[trigger] v[i]),
    ensures
        spec_dec_domain(pre + spec_enc_domain(v) + rest, pre.len() as int) == Some(
            (v, pre.len() + spec_enc_domain(v).len() as int),
        ),
{
    reveal(spec_enc_domain);
    reveal(spec_dec_domain);
    let enc = spec_enc_domain(v);
    let s = pre + enc + rest;
    lemma_at_concat(pre, enc, rest);
    assert(s[pre.len() as int] == enc[0]);
    if v.len() == 0 {
        assert(enc =~= seq!['[', ']']);
        assert(s[pre.len() as int + 1] == enc[1]);
        assert(Seq::<crate::domain::VariableView>::empty() =~= v);
    } else {
        assert(enc =~= seq!['['] + spec_enc_domain_items(v) + seq![']']);
        let pre2 = pre + seq!['['];
        assert(s =~= pre2 + spec_enc_domain_items(v) + seq![']'] + rest);
        lemma_domain_items_round(pre2, v, rest);
        lemma_enc_variable_first(v[0]);
        assert(spec_enc_domain_items(v).len() >= 1) by {
            if v.len() > 1 {
                lemma_at_concat(
                    Seq::empty(),
                    spec_enc_variable(v[0]),
                    seq![','] + spec_enc_domain_items(v.subrange(1, v.len() as int)),
                );
                assert(Seq::<char>::empty() + spec_enc_variable(v[0]) + (seq![',']
                    + spec_enc_domain_items(v.subrange(1, v.len() as int)))
                    =~= spec_enc_domain_items(v));
            }
        }
        assert(s[pre.len() as int + 1] == spec_enc_domain_items(v)[0]) by {
            lemma_at_concat(pre2, spec_enc_domain_items(v), seq![']'] + rest);
            assert(pre2 + spec_enc_domain_items(v) + (seq![']'] + rest) =~= s);
        }
        assert(spec_enc_domain_items(v)[0] == spec_enc_variable(v[0])[0]) by {
            if v.len() > 1 {
                lemma_at_concat(
                    Seq::empty(),
                    spec_enc_variable(v[0]),
                    seq![','] + spec_enc_domain_items(v.subrange(1, v.len() as int)),
                );
                assert(Seq::<char>::empty() + spec_enc_variable(v[0]) + (seq![',']
                    + spec_enc_domain_items(v.subrange(1, v.len() as int)))
                    =~= spec_enc_domain_items(v));
                lemma_enc_variable_first(v[0]);
            }
        }
        lemma_enc_variable_first(v[0]);
    }
}

/// The capability set that results from inserting every listed member.
pub open spec fn spec_fold_caps(
    acc: crate::capability::Capabilities,
    ms: Seq<crate::capability::Capability>,
) -> crate::capability::Capabilities
    decreases ms.len(),
{
    if ms.len() == 0 {
        acc
    } else {
        spec_fold_caps(spec_cap_insert(acc, ms[0]), ms.subrange(1, ms.len() as int))
    }
}

/// An encoded capability name surrounded by text reads back as itself.
pub proof fn lemma_capability_round(
    pre: Seq<char>,
    c: crate::capability::Capability,
    rest: Seq<char>,
)
    ensures
        spec_dec_capability(pre + spec_enc_capability(c) + rest, pre.len() as int) == Some(
            (c, pre.len() + spec_enc_capability(c).len() as int),
        ),
{
    reveal_strlit("\"UNIFORM_CONTINUOUS\"");
    reveal_strlit("\"UNIFORM_DISCRETE\"");
    reveal_strlit("\"LOG_UNIFORM_CONTINUOUS\"");
    reveal_strlit("\"LOG_UNIFORM_DISCRETE\"");
    reveal_strlit("\"CATEGORICAL\"");
    reveal_strlit("\"CONDITIONAL\"");
    reveal_strlit("\"MULTI_OBJECTIVE\"");
    let enc = spec_enc_capability(c);
    let s = pre + enc + rest;
    let pos = pre.len() as int;
    lemma_at_concat(pre, enc, rest);
    match c {
        crate::capability::Capability::UniformContinuous => {},
        crate::capability::Capability::UniformDiscrete => {
            lemma_at_distinct(s, pos, enc, "\"UNIFORM_CONTINUOUS\""@, 9);
        },
        crate::capability::Capability::LogUniformContinuous => {
            lemma_at_distinct(s, pos, enc, "\"UNIFORM_CONTINUOUS\""@, 1);
            lemma_at_distinct(s, pos, enc, "\"UNIFORM_DISCRETE\""@, 1);
        },
        crate::capability::Capability::LogUniformDiscrete => {
            lemma_at_distinct(s, pos, enc, "\"UNIFORM_CONTINUOUS\""@, 1);
            lemma_at_distinct(s, pos, enc, "\"UNIFORM_DISCRETE\""@, 1);
            lemma_at_distinct(s, pos, enc, "\"LOG_UNIFORM_CONTINUOUS\""@, 13);
        },
        crate::capability::Capability::Categorical => {
            lemma_at_distinct(s, pos, enc, "\"UNIFORM_CONTINUOUS\""@, 1);
            lemma_at_distinct(s, pos, enc, "\"UNIFORM_DISCRETE\""@, 1);
            lemma_at_distinct(s, pos, enc, "\"LOG_UNIFORM_CONTINUOUS\""@, 1);
            lemma_at_distinct(s, pos, enc, "\"LOG_UNIFORM_DISCRETE\""@, 1);
        },
        crate::capability::Capability::Conditional => {
            lemma_at_distinct(s, pos, enc, "\"UNIFORM_CONTINUOUS\""@, 1);
            lemma_at_distinct(s, pos, enc, "\"UNIFORM_DISCRETE\""@, 1);
            lemma_at_distinct(s, pos, enc, "\"LOG_UNIFORM_CONTINUOUS\""@, 1);
            lemma_at_distinct(s, pos, enc, "\"LOG_UNIFORM_DISCRETE\""@, 1);
            lemma_at_distinct(s, pos, enc, "\"CATEGORICAL\""@, 2);
        },
        crate::capability::Capability::MultiObjective => {
            lemma_at_distinct(s, pos, enc, "\"UNIFORM_CONTINUOUS\""@, 1);
            lemma_at_distinct(s, pos, enc, "\"UNIFORM_DISCRETE\""@, 1);
            lemma_at_distinct(s, pos, enc, "\"LOG_UNIFORM_CONTINUOUS\""@, 1);
            lemma_at_distinct(s, pos, enc, "\"LOG_UNIFORM_DISCRETE\""@, 1);
            lemma_at_distinct(s, pos, enc, "\"CATEGORICAL\""@, 1);
            lemma_at_distinct(s, pos, enc, "\"CONDITIONAL\""@, 1);
        },
    }
}

/// An encoded capability list item chain reads back as the fold of its
/// members.
#[verifier::rlimit(100)]
#[verifier::spinoff_prover]
proof fn lemma_caps_items_round(
    pre: Seq<char>,
    ms: Seq<crate::capability::Capability>,
    acc: crate::capability::Capabilities,
    rest: Seq<char>,
)
    requires
        ms.len() >= 1,
    ensures
        spec_dec_caps_items(pre + spec_enc_caps_items(ms) + seq![']'] + rest, pre.len() as int, acc)
            == Some((spec_fold_caps(acc, ms), pre.len() + spec_enc_caps_items(ms).len() as int + 1)),
    decreases ms.len(),
{
    let enc = spec_enc_caps_items(ms);
    let s = pre + enc + seq![']'] + rest;
    lemma_enc_capability_first(ms[0]);
    if ms.len() == 1 {
        let e0 = spec_enc_capability(ms[0]);
        assert(enc == e0);
        let rest2 = seq![']'] + rest;
        assert(s =~= pre + e0 + rest2);
        lemma_capability_round(pre, ms[0], rest2);
        let p = pre.len() + e0.len() as int;
        assert(s[p] == ']') by {
            lemma_at_concat(pre + e0, rest2, Seq::empty());
            assert(pre + e0 + rest2 + Seq::<char>::empty() =~= s);
            assert((pre + e0 + rest2)[p + 0] == rest2[0]);
        }
        assert(ms.subrange(1, 1) =~= Seq::<crate::capability::Capability>::empty());
        assert(spec_fold_caps(
            spec_cap_insert(acc, ms[0]),
            Seq::<crate::capability::Capability>::empty(),
        ) == spec_cap_insert(acc, ms[0]));
        assert(spec_fold_caps(acc, ms) == spec_cap_insert(acc, ms[0]));
    } else {
        let e0 = spec_enc_capability(ms[0]);
        let tail = ms.subrange(1, ms.len() as int);
        let etail = spec_enc_caps_items(tail);
        assert(enc == e0 + seq![','] + etail);
        let rest2 = seq![','] + etail + seq![']'] + rest;
        assert(s =~= pre + e0 + rest2);
        lemma_capability_round(pre, ms[0], rest2);
        let p = pre.len() + e0.len() as int;
        assert(s[p] == ',') by {
            assert((pre + e0 + rest2)[p + 0] == rest2[0]) by {
                lemma_at_concat(pre + e0, rest2, Seq::empty());
                assert(pre + e0 + rest2 + Seq::<char>::empty() =~= pre + e0 + rest2);
            }
        }
        let pre2 = pre + e0 + seq![','];
        assert(s =~= pre2 + etail + seq![']'] + rest);
        lemma_caps_items_round(pre2, tail, spec_cap_insert(acc, ms[0]), rest);
        assert(pre2.len() == p + 1);
    }
}

/// Folding the members of a capability set back into an empty set gives the
/// set.
proof fn lemma_fold_members(c: crate::capability::Capabilities)
    ensures
        spec_fold_caps(spec_caps_none(), spec_cap_members(c)) == c,
{
    reveal_with_fuel(spec_fold_caps, 9);
    let ms = spec_cap_members(c);
    assert(spec_fold_caps(spec_caps_none(), ms) == c) by {
        reveal_with_fuel(spec_fold_caps, 9);
        assert(ms == spec_cap_members(c));
        if c.uniform_continuous {
        } else {
        }
    }
}

/// An encoded capability set surrounded by text reads back as itself.
#[verifier::rlimit(100)]
#[verifier::spinoff_prover]
pub proof fn lemma_caps_round(pre: Seq<char>, c: crate::capability::Capabilities, rest: Seq<char>)
    ensures
        spec_dec_caps(pre + spec_enc_caps(c) + rest, pre.len() as int) == Some(
            (c, pre.len() + spec_enc_caps(c).len() as int),
        ),
{
    let enc = spec_enc_caps(c);
    let s = pre + enc + rest;
    let ms = spec_cap_members(c);
    lemma_at_concat(pre, enc, rest);
    assert(s[pre.len() as int] == enc[0]);
    lemma_fold_members(c);
    if ms.len() == 0 {
        assert(enc =~= seq!['[', ']']);
        assert(s[pre.len() as int + 1] == enc[1]);
    } else {
        assert(enc =~= seq!['['] + spec_enc_caps_items(ms) + seq![']']);
        let pre2 = pre + seq!['['];
        assert(s =~= pre2 + spec_enc_caps_items(ms) + seq![']'] + rest);
        lemma_caps_items_round(pre2, ms, spec_caps_none(), rest);
        lemma_enc_capability_first(ms[0]);
        assert(spec_enc_caps_items(ms).len() >= 1) by {
            if ms.len() > 1 {
                lemma_at_concat(
                    Seq::empty(),
                    spec_enc_capability(ms[0]),
                    seq![','] + spec_enc_caps_items(ms.subrange(1, ms.len() as int)),
                );
                assert(Seq::<char>::empty() + spec_enc_capability(ms[0]) + (seq![',']
                    + spec_enc_caps_items(ms.subrange(1, ms.len() as int)))
                    =~= spec_enc_caps_items(ms));
            }
        }
        assert(s[pre.len() as int + 1] == spec_enc_caps_items(ms)[0]) by {
            lemma_at_concat(pre2, spec_enc_caps_items(ms), seq![']'] + rest);
            assert(pre2 + spec_enc_caps_items(ms) + (seq![']'] + rest) =~= s);
        }
        assert(spec_enc_caps_items(ms)[0] == spec_enc_capability(ms[0])[0]) by {
            if ms.len() > 1 {
                lemma_at_concat(
                    Seq::empty(),
                    spec_enc_capability(ms[0]),
                    seq![','] + spec_enc_caps_items(ms.subrange(1, ms.len() as int)),
                );
                assert(Seq::<char>::empty() + spec_enc_capability(ms[0]) + (seq![',']
                    + spec_enc_caps_items(ms.subrange(1, ms.len() as int)))
                    =~= spec_enc_caps_items(ms));
                lemma_enc_capability_first(ms[0]);
            }
        }
        lemma_enc_capability_first(ms[0]);
    }
}

/// The text of a capability name starts with its quote.
proof fn lemma_enc_capability_first(c: crate::capability::Capability)
    ensures
        spec_enc_capability(c).len() >= 1,
        spec_enc_capability(c)[0] == '"',
{
    reveal_strlit("\"UNIFORM_CONTINUOUS\"");
    reveal_strlit("\"UNIFORM_DISCRETE\"");
    reveal_strlit("\"LOG_UNIFORM_CONTINUOUS\"");
    reveal_strlit("\"LOG_UNIFORM_DISCRETE\"");
    reveal_strlit("\"CATEGORICAL\"");
    reveal_strlit("\"CONDITIONAL\"");
    reveal_strlit("\"MULTI_OBJECTIVE\"");
}

/// Whether a problem specification's numbers fit the machine types on the
/// wire.
pub open spec fn pspec_fits(v: crate::problem::ProblemSpecView) -> bool {
    &&& 0 <= v.evaluation_steps <= u64::MAX
    &&& forall|i: int| 0 <= i < v.params_domain.len() ==> variable_fits(#[trigger] v.params_domain[i])
    &&& forall|i: int| 0 <= i < v.values_domain.len() ==> variable_fits(#[trigger] v.values_domain[i])
}

/// An encoded problem specification surrounded by text reads back as
/// itself.
#[verifier::rlimit(100)]
#[verifier::spinoff_prover]
pub proof fn lemma_pspec_round(
    pre: Seq<char>,
    v: crate::problem::ProblemSpecView,
    rest: Seq<char>,
)
    requires
        pspec_fits(v),
    ensures
        spec_dec_pspec(pre + spec_enc_pspec(v) + rest, pre.len() as int) == Some(
            (v, pre.len() + spec_enc_pspec(v).len() as int),
        ),
{
    reveal_strlit("{\"name\":");
    reveal_strlit(",\"attrs\":");
    reveal_strlit(",\"params_domain\":");
    reveal_strlit(",\"values_domain\":");
    reveal_strlit(",\"evaluation_steps\":");
    reveal_strlit("}");
    let l0 = "{\"name\":"@;
    let l1 = ",\"attrs\":"@;
    let l2 = ",\"params_domain\":"@;
    let l3 = ",\"values_domain\":"@;
    let l4 = ",\"evaluation_steps\":"@;
    let le = "}"@;
    let e0 = spec_enc_str(v.name);
    let e1 = spec_enc_attrs(v.attrs);
    let e2 = spec_enc_domain(v.params_domain);
    let e3 = spec_enc_domain(v.values_domain);
    let e4 = spec_digits(v.evaluation_steps);
    let enc = spec_enc_pspec(v);
    let s = pre + enc + rest;
    let r10 = le + rest;
    let r9 = e4 + r10;
    let r8 = l4 + r9;
    let r7 = e3 + r8;
    let r6 = l3 + r7;
    let r5 = e2 + r6;
    let r4 = l2 + r5;
    let r3 = e1 + r4;
    let r2 = l1 + r3;
    let r1 = e0 + r2;
    let pa = pre + l0;
    let pb = pa + e0 + l1;
    let pc = pb + e1 + l2;
    let pd = pc + e2 + l3;
    let pe = pd + e3 + l4;
    assert(s == ((pre + l0) + r1) && s == ((pa + e0) + r2) && s == (((pa + e0) + l1) + r3) && s
        == ((pb + e1) + r4) && s == (((pb + e1) + l2) + r5) && s == ((pc + e2) + r6) && s == (((
    pc + e2) + l3) + r7) && s == ((pd + e3) + r8) && s == (((pd + e3) + l4) + r9) && s == ((pe
        + e4) + r10) && s == (((pe + e4) + le) + rest)) by {
        lemma_concat_associative(pre, enc, rest);
        lemma_concat_associative(l0 + e0 + l1 + e1 + l2 + e2 + l3 + e3 + l4 + e4, le, rest);
        lemma_concat_associative(l0 + e0 + l1 + e1 + l2 + e2 + l3 + e3 + l4, e4, r10);
        lemma_concat_associative(l0 + e0 + l1 + e1 + l2 + e2 + l3 + e3, l4, r9);
        lemma_concat_associative(l0 + e0 + l1 + e1 + l2 + e2 + l3, e3, r8);
        lemma_concat_associative(l0 + e0 + l1 + e1 + l2 + e2, l3, r7);
        lemma_concat_associative(l0 + e0 + l1 + e1 + l2, e2, r6);
        lemma_concat_associative(l0 + e0 + l1 + e1, l2, r5);
        lemma_concat_associative(l0 + e0 + l1, e1, r4);
        lemma_concat_associative(l0 + e0, l1, r3);
        lemma_concat_associative(l0, e0, r2);
        lemma_concat_associative(pre, l0, r1);
        lemma_concat_associative(pa, e0, r2);
        lemma_concat_associative(pa + e0, l1, r3);
        lemma_concat_associative(pb, e1, r4);
        lemma_concat_associative(pb + e1, l2, r5);
        lemma_concat_associative(pc, e2, r6);
        lemma_concat_associative(pc + e2, l3, r7);
        lemma_concat_associative(pd, e3, r8);
        lemma_concat_associative(pd + e3, l4, r9);
        lemma_concat_associative(pe, e4, r10);
        lemma_concat_associative(pe + e4, le, rest);
    }
    lemma_at_concat(pre, l0, r1);
    lemma_parse_str_round(pa, v.name, r2);
    lemma_at_concat(pa + e0, l1, r3);
    lemma_attrs_round(pb, v.attrs, r4);
    lemma_at_concat(pb + e1, l2, r5);
    lemma_domain_round(pc, v.params_domain, r6);
    lemma_at_concat(pc + e2, l3, r7);
    lemma_domain_round(pd, v.values_domain, r8);
    lemma_at_concat(pd + e3, l4, r9);
    assert(r10[0] == le[0]);
    lemma_dec_u64_round(pe, v.evaluation_steps, r10);
    lemma_at_concat(pe + e4, le, rest);
}

/// An encoded solver specification surrounded by text reads back as itself.
#[verifier::rlimit(100)]
#[verifier::spinoff_prover]
pub proof fn lemma_sspec_round(
    pre: Seq<char>,
    v: crate::capability::SolverSpecView,
    rest: Seq<char>,
)
    ensures
        spec_dec_sspec(pre + spec_enc_sspec(v) + rest, pre.len() as int) == Some(
            (v, pre.len() + spec_enc_sspec(v).len() as int),
        ),
{
    reveal_strlit("{\"name\":");
    reveal_strlit(",\"attrs\":");
    reveal_strlit(",\"capabilities\":");
    reveal_strlit("}");
    let l0 = "{\"name\":"@;
    let l1 = ",\"attrs\":"@;
    let l2 = ",\"capabilities\":"@;
    let le = "}"@;
    let e0 = spec_enc_str(v.name);
    let e1 = spec_enc_attrs(v.attrs);
    let e2 = spec_enc_caps(v.capabilities);
    let enc = spec_enc_sspec(v);
    let s = pre + enc + rest;
    let r6 = le + rest;
    let r5 = e2 + r6;
    let r4 = l2 + r5;
    let r3 = e1 + r4;
    let r2 = l1 + r3;
    let r1 = e0 + r2;
    let pa = pre + l0;
    let pb = pa + e0 + l1;
    let pc = pb + e1 + l2;
    assert(s == ((pre + l0) + r1) && s == ((pa + e0) + r2) && s == (((pa + e0) + l1) + r3) && s
        == ((pb + e1) + r4) && s == (((pb + e1) + l2) + r5) && s == ((pc + e2) + r6) && s == (((
    pc + e2) + le) + rest)) by {
        lemma_concat_associative(pre, enc, rest);
        lemma_concat_associative(l0 + e0 + l1 + e1 + l2 + e2, le, rest);
        lemma_concat_associative(l0 + e0 + l1 + e1 + l2, e2, r6);
        lemma_concat_associative(l0 + e0 + l1 + e1, l2, r5);
        lemma_concat_associative(l0 + e0 + l1, e1, r4);
        lemma_concat_associative(l0 + e0, l1, r3);
        lemma_concat_associative(l0, e0, r2);
        lemma_concat_associative(pre, l0, r1);
        lemma_concat_associative(pa, e0, r2);
        lemma_concat_associative(pa + e0, l1, r3);
        lemma_concat_associative(pb, e1, r4);
        lemma_concat_associative(pb + e1, l2, r5);
        lemma_concat_associative(pc, e2, r6);
        lemma_concat_associative(pc + e2, le, rest);
    }
    lemma_at_concat(pre, l0, r1);
    lemma_parse_str_round(pa, v.name, r2);
    lemma_at_concat(pa + e0, l1, r3);
    lemma_attrs_round(pb, v.attrs, r4);
    lemma_at_concat(pb + e1, l2, r5);
    lemma_caps_round(pc, v.capabilities, r6);
    lemma_at_concat(pc + e2, le, rest);
}

/// The problem specification cast reads back as itself.
#[verifier::rlimit(100)]
#[verifier::spinoff_prover]
proof fn lemma_pm_problem_spec_cast_round(spec: crate::problem::ProblemSpecView)
    requires
        pspec_fits(spec),
    ensures
        ({
            let m = crate::message::ProblemMessageView::ProblemSpecCast { spec };
            spec_dec_problem_message(spec_enc_problem_message(m)) == Some(m)
        }),
{
    let m = crate::message::ProblemMessageView::ProblemSpecCast { spec };
    let s = spec_enc_problem_message(m);
    reveal_strlit("{\"type\":\"PROBLEM_SPEC_CAST\",\"spec\":");
    reveal_strlit("}");
    let l0 = "{\"type\":\"PROBLEM_SPEC_CAST\",\"spec\":"@;
    let le = "}"@;
    let e0 = spec_enc_pspec(spec);
    let rend = Seq::<char>::empty();
    let r2 = le + rend;
    let r1 = e0 + r2;
    assert(s == (l0) + r1 && s == (l0 + e0) + r2 && s =~= (l0 + e0 + le) + rend) by {
        assert(s =~= (l0 + e0 + le));
        assert(s =~= (l0 + e0 + le) + rend);
        lemma_concat_associative((l0 + e0), le, rend);
        lemma_concat_associative((l0), e0, r1.subrange(e0.len() as int, r1.len() as int));
        lemma_concat_associative(l0, e0, r2);
    }
    assert(at(s, 0, l0)) by {
        assert(s.subrange(0, l0.len() as int) =~= l0);
    }
    lemma_pspec_round((l0), spec, r2);
    lemma_at_concat((l0 + e0), le, rend);
}

/// The solver specification cast reads back as itself.
#[verifier::rlimit(100)]
#[verifier::spinoff_prover]
proof fn lemma_sm_solver_spec_cast_round(spec: crate::capability::SolverSpecView)
    ensures
        ({
            let m = crate::message::SolverMessageView::SolverSpecCast { spec };
            spec_dec_solver_message(spec_enc_solver_message(m)) == Some(m)
        }),
{
    let m = crate::message::SolverMessageView::SolverSpecCast { spec };
    let s = spec_enc_solver_message(m);
    reveal_strlit("{\"type\":\"SOLVER_SPEC_CAST\",\"spec\":");
    reveal_strlit("}");
    let l0 = "{\"type\":\"SOLVER_SPEC_CAST\",\"spec\":"@;
    let le = "}"@;
    let e0 = spec_enc_sspec(spec);
    let rend = Seq::<char>::empty();
    let r2 = le + rend;
    let r1 = e0 + r2;
    assert(s == (l0) + r1 && s == (l0 + e0) + r2 && s =~= (l0 + e0 + le) + rend) by {
        assert(s =~= (l0 + e0 + le));
        assert(s =~= (l0 + e0 + le) + rend);
        lemma_concat_associative((l0 + e0), le, rend);
        lemma_concat_associative(l0, e0, r2);
    }
    assert(at(s, 0, l0)) by {
        assert(s.subrange(0, l0.len() as int) =~= l0);
    }
    lemma_sspec_round((l0), spec, r2);
    lemma_at_concat((l0 + e0), le, rend);
}

/// The solver creation cast reads back as itself.
#[verifier::rlimit(100)]
#[verifier::spinoff_prover]
proof fn lemma_sm_create_solver_cast_round(
    solver_id: int,
    random_seed: int,
    problem: crate::problem::ProblemSpecView,
)
    requires
        0 <= solver_id <= u64::MAX,
        0 <= random_seed <= u64::MAX,
        pspec_fits(problem),
    ensures
        ({
            let m = crate::message::SolverMessageView::CreateSolverCast {
                solver_id,
                random_seed,
                problem,
            };
            spec_dec_solver_message(spec_enc_solver_message(m)) == Some(m)
        }),
{
    let m = crate::message::SolverMessageView::CreateSolverCast {
        solver_id,
        random_seed,
        problem,
    };
    let s = spec_enc_solver_message(m);
    reveal_strlit("{\"type\":\"SOLVER_SPEC_CAST\",\"spec\":");
    reveal_strlit("{\"type\":\"CREATE_SOLVER_CAST\",\"solver_id\":");
    reveal_strlit(",\"random_seed\":");
    reveal_strlit(",\"problem\":");
    reveal_strlit("}");
    let l0 = "{\"type\":\"CREATE_SOLVER_CAST\",\"solver_id\":"@;
    let l1 = ",\"random_seed\":"@;
    let l2 = ",\"problem\":"@;
    let le = "}"@;
    let e0 = spec_digits(solver_id);
    let e1 = spec_digits(random_seed);
    let e2 = spec_enc_pspec(problem);
    let rend = Seq::<char>::empty();
    let r6 = le + rend;
    let r5 = e2 + r6;
    let r4 = l2 + r5;
    let r3 = e1 + r4;
    let r2 = l1 + r3;
    let r1 = e0 + r2;
    assert(s == (l0) + r1 && s == (l0 + e0) + r2 && s == (l0 + e0 + l1) + r3 && s == (l0 + e0 + l1
        + e1) + r4 && s == (l0 + e0 + l1 + e1 + l2) + r5 && s == (l0 + e0 + l1 + e1 + l2 + e2)
        + r6 && s =~= (l0 + e0 + l1 + e1 + l2 + e2 + le) + rend) by {
        assert(s =~= (l0 + e0 + l1 + e1 + l2 + e2 + le));
        assert(s =~= (l0 + e0 + l1 + e1 + l2 + e2 + le) + rend);
        lemma_concat_associative((l0 + e0 + l1 + e1 + l2 + e2), le, rend);
        lemma_concat_associative((l0 + e0 + l1 + e1 + l2), e2, r6);
        lemma_concat_associative((l0 + e0 + l1 + e1), l2, r5);
        lemma_concat_associative((l0 + e0 + l1), e1, r4);
        lemma_concat_associative((l0 + e0), l1, r3);
        lemma_concat_associative((l0), e0, r2);
    }
    assert(at(s, 0, l0)) by {
        assert(s.subrange(0, l0.len() as int) =~= l0);
    }
    assert(r2[0] == l1[0]);
    lemma_dec_u64_round((l0), solver_id, r2);
    lemma_at_concat((l0 + e0), l1, r3);
    assert(r4[0] == l2[0]);
    lemma_dec_u64_round((l0 + e0 + l1), random_seed, r4);
    lemma_at_concat((l0 + e0 + l1 + e1), l2, r5);
    lemma_pspec_round((l0 + e0 + l1 + e1 + l2), problem, r6);
    lemma_at_concat((l0 + e0 + l1 + e1 + l2 + e2), le, rend);
    lemma_at_distinct(s, 0, l0, "{\"type\":\"SOLVER_SPEC_CAST\",\"spec\":"@, 9);
}

} // verus!

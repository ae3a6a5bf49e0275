//! Ratings as fixed-point decimals.
//!
//! A rating is a decimal in the bounded range [-1, 1], carried in text
//! form with at most nine fractional digits and stored canonically with
//! exactly nine ("0.990000000"). Internally a rating is the integer
//! number of billionths, so that every implementation of the blending
//! rules reproduces the same digits exactly; no floating point is
//! involved anywhere.
//!
//! The consensus weighting raises each contributing agent's trust
//! rating to the golden-ratio power. That power is computed here as a
//! deterministic fixed-point algorithm: the exponent 1.618 is
//! approximated by the dyadic rational 648020/2^20, and x^(2^-k) is
//! obtained by k iterated integer square roots, so the result is the
//! same on every machine.

use vstd::prelude::*;

use crate::codec::{all_digits, dec_chars, dec_val, digit_char, digit_val, is_digit};
use crate::TrustAtomError;

verus! {

/// One whole unit of rating: 10^9 billionths.
pub const RATING_SCALE: i64 = 1_000_000_000;

// ---------------------------------------------------------------------
// Decimal text parsing
// ---------------------------------------------------------------------

pub open spec fn pow10(k: nat) -> int
    decreases k,
{
    if k == 0 {
        1
    } else {
        10 * pow10((k - 1) as nat)
    }
}

pub proof fn lemma_pow10_nine()
    ensures
        pow10(9) == 1_000_000_000,
{
    reveal_with_fuel(pow10, 10);
}

pub proof fn lemma_pow10_pos(k: nat)
    ensures
        pow10(k) >= 1,
    decreases k,
{
    if k > 0 {
        lemma_pow10_pos((k - 1) as nat);
    }
}

pub proof fn lemma_dec_val_bound(s: Seq<char>)
    requires
        all_digits(s),
    ensures
        0 <= dec_val(s) < pow10(s.len()),
    decreases s.len(),
{
    if s.len() == 0 {
    } else {
        let p = s.drop_last();
        assert(all_digits(p)) by {
            assert(forall|i: int| 0 <= i < p.len() ==> p[i] == #[trigger] s[i]);
        }
        lemma_dec_val_bound(p);
        assert(is_digit(s.last()));
        assert(dec_val(s) == dec_val(p) * 10 + digit_val(s.last()));
        assert(dec_val(p) * 10 + 9 < pow10(p.len()) * 10) by (nonlinear_arith)
            requires
                dec_val(p) < pow10(p.len()),
        ;
        assert(pow10(s.len()) == 10 * pow10(p.len()));
        assert(dec_val(p) * 10 >= 0) by (nonlinear_arith)
            requires
                dec_val(p) >= 0,
        ;
    }
}

pub proof fn lemma_pow10_add(a: nat, b: nat)
    ensures
        pow10(a + b) == pow10(a) * pow10(b),
    decreases a,
{
    if a == 0 {
    } else {
        lemma_pow10_add((a - 1) as nat, b);
        assert(pow10(a + b) == 10 * pow10((a + b - 1) as nat));
        assert(pow10(a) * pow10(b) == 10 * (pow10((a - 1) as nat) * pow10(b)))
            by (nonlinear_arith)
            requires
                pow10(a) == 10 * pow10((a - 1) as nat),
        ;
    }
}

/// Index of the first decimal point in `s`, or `s.len()` if none.
pub open spec fn first_dot(s: Seq<char>) -> nat
    decreases s.len(),
{
    if s.len() == 0 {
        0
    } else if s[0] == '.' {
        0
    } else {
        1 + first_dot(s.drop_first())
    }
}

pub proof fn lemma_first_dot_at(s: Seq<char>, k: int)
    requires
        0 <= k <= s.len(),
        forall|j: int| 0 <= j < k ==> s[j] != '.',
        k < s.len() ==> s[k] == '.',
    ensures
        first_dot(s) == k,
    decreases s.len(),
{
    if s.len() == 0 {
    } else if k == 0 {
    } else {
        assert(s[0] != '.');
        let t = s.drop_first();
        assert(forall|j: int| 0 <= j < k - 1 ==> t[j] == #[trigger] s[j + 1]);
        assert(k - 1 < t.len() ==> t[k - 1] == s[k]);
        lemma_first_dot_at(t, k - 1);
    }
}

/// The accepted grammar of a rating in text form: an optional minus
/// sign, integer digits, and optionally a decimal point followed by
/// one to nine fractional digits; the integer digits may be absent
/// when a fraction is present (".8"), but not both; the value must
/// lie in [-1, 1]. Anything else — including any stored rating
/// outside the bounded range — is a numeric parse failure.
pub open spec fn spec_parse_rating(s: Seq<char>) -> Option<i64> {
    let neg = s.len() > 0 && s[0] == '-';
    let t = if neg {
        s.drop_first()
    } else {
        s
    };
    let k = first_dot(t);
    let ip = t.take(k as int);
    let has_dot = k < t.len();
    let fp = if has_dot {
        t.skip(k as int + 1)
    } else {
        Seq::<char>::empty()
    };
    if !all_digits(ip) {
        None
    } else if ip.len() == 0 && !has_dot {
        None
    } else if has_dot && (fp.len() == 0 || fp.len() > 9 || !all_digits(fp)) {
        None
    } else {
        let m = dec_val(ip) * (RATING_SCALE as int) + dec_val(fp) * pow10((9 - fp.len()) as nat);
        if m > RATING_SCALE as int {
            None
        } else if neg {
            Some((-m) as i64)
        } else {
            Some(m as i64)
        }
    }
}

/// Whatever parses as a rating lies in the bounded range.
pub proof fn lemma_parse_rating_bounds(s: Seq<char>)
    ensures
        match spec_parse_rating(s) {
            Some(v) => -RATING_SCALE <= v <= RATING_SCALE,
            None => true,
        },
{
    let neg = s.len() > 0 && s[0] == '-';
    let t = if neg {
        s.drop_first()
    } else {
        s
    };
    let k = first_dot(t);
    let ip = t.take(k as int);
    let has_dot = k < t.len();
    let fp = if has_dot {
        t.skip(k as int + 1)
    } else {
        Seq::<char>::empty()
    };
    if !all_digits(ip) {
    } else if ip.len() == 0 && !has_dot {
    } else if has_dot && (fp.len() == 0 || fp.len() > 9 || !all_digits(fp)) {
    } else {
        crate::codec::lemma_dec_val_nonneg(ip);
        crate::codec::lemma_dec_val_nonneg(fp);
        lemma_pow10_pos((9 - fp.len()) as nat);
        assert(dec_val(ip) * (RATING_SCALE as int) >= 0) by (nonlinear_arith)
            requires
                dec_val(ip) >= 0,
        ;
        assert(dec_val(fp) * pow10((9 - fp.len()) as nat) >= 0) by (nonlinear_arith)
            requires
                dec_val(fp) >= 0,
                pow10((9 - fp.len()) as nat) >= 1,
        ;
    }
}

fn pow10_u64(k: usize) -> (r: u64)
    requires
        k <= 9,
    ensures
        r == pow10(k as nat),
{
    proof {
        reveal_with_fuel(pow10, 10);
    }
    if k == 0 {
        1
    } else if k == 1 {
        10
    } else if k == 2 {
        100
    } else if k == 3 {
        1_000
    } else if k == 4 {
        10_000
    } else if k == 5 {
        100_000
    } else if k == 6 {
        1_000_000
    } else if k == 7 {
        10_000_000
    } else if k == 8 {
        100_000_000
    } else {
        1_000_000_000
    }
}

/// Parse a rating from text, failing with `NumericParseFailure` exactly
/// on the inputs that `spec_parse_rating` rejects.
pub fn parse_rating(s: &str) -> (r: Result<i64, TrustAtomError>)
    ensures
        match r {
            Ok(v) => spec_parse_rating(s@) == Some(v) && -RATING_SCALE <= v <= RATING_SCALE,
            Err(e) => spec_parse_rating(s@) is None && e == TrustAtomError::NumericParseFailure,
        },
{
    let n = s.unicode_len();
    if n == 0 {
        return Err(TrustAtomError::NumericParseFailure);
    }
    let neg = s.get_char(0) == '-';
    let start: usize = if neg {
        1
    } else {
        0
    };
    let ghost t = s@.skip(start as int);
    proof {
        if neg {
            assert(t =~= s@.drop_first());
        } else {
            assert(t =~= s@);
        }
    }
    let mut dot: usize = start;
    while dot < n && s.get_char(dot) != '.'
        invariant
            start <= dot <= n,
            n == s@.len(),
            forall|j: int| start <= j < dot ==> s@[j] != '.',
        decreases n - dot,
    {
        dot += 1;
    }
    proof {
        assert(forall|j: int| 0 <= j < dot - start ==> t[j] == #[trigger] s@[j + start]);
        lemma_first_dot_at(t, dot - start);
        assert(t.take(dot - start) =~= s@.subrange(start as int, dot as int));
    }
    if dot == start && dot >= n {
        // no integer digits and no fraction: "" or "-"
        return Err(TrustAtomError::NumericParseFailure);
    }
    let iv: u64 = if dot == start {
        // fraction-only form such as ".8": the integer part is empty
        proof {
            assert(t.take(0) =~= Seq::<char>::empty());
        }
        0
    } else {
        match crate::codec::parse_u64_digits(s.substring_char(start, dot)) {
        Some(v) => v,
        None => {
            proof {
                let k = first_dot(t);
                let ip = t.take(k as int);
                let has_dot = k < t.len();
                let fpx = if has_dot {
                    t.skip(k as int + 1)
                } else {
                    Seq::<char>::empty()
                };
                if ip.len() > 0 && all_digits(ip) {
                    assert(dec_val(ip) > u64::MAX);
                    if !(has_dot && (fpx.len() == 0 || fpx.len() > 9 || !all_digits(fpx))) {
                        crate::codec::lemma_dec_val_nonneg(fpx);
                        lemma_pow10_pos((9 - fpx.len()) as nat);
                        assert(dec_val(fpx) * pow10((9 - fpx.len()) as nat) >= 0)
                            by (nonlinear_arith)
                            requires
                                dec_val(fpx) >= 0,
                                pow10((9 - fpx.len()) as nat) >= 1,
                        ;
                        assert(dec_val(ip) * (RATING_SCALE as int) > RATING_SCALE as int)
                            by (nonlinear_arith)
                            requires
                                dec_val(ip) > u64::MAX,
                        ;
                    }
                }
            }
            return Err(TrustAtomError::NumericParseFailure);
        },
        }
    };
    let (fv, flen): (u64, usize) = if dot < n {
        let fl = n - dot - 1;
        if fl == 0 || fl > 9 {
            proof {
                assert(t.skip(dot - start + 1) =~= s@.subrange(dot + 1, n as int));
            }
            return Err(TrustAtomError::NumericParseFailure);
        }
        proof {
            assert(t.skip(dot - start + 1) =~= s@.subrange(dot + 1, n as int));
        }
        match crate::codec::parse_u64_digits(s.substring_char(dot + 1, n)) {
            Some(v) => (v, fl),
            None => {
                proof {
                    let fp = s@.subrange(dot + 1, n as int);
                    if all_digits(fp) {
                        lemma_dec_val_bound(fp);
                        lemma_pow10_add(fp.len() as nat, (9 - fp.len()) as nat);
                        lemma_pow10_pos((9 - fp.len()) as nat);
                        lemma_pow10_nine();
                        lemma_pow10_pos(fp.len() as nat);
                        assert(dec_val(fp) < pow10(fp.len()));
                        assert(pow10(fp.len()) <= pow10(9)) by (nonlinear_arith)
                            requires
                                pow10(fp.len()) * pow10((9 - fp.len()) as nat) == pow10(9),
                                pow10(fp.len()) >= 1,
                                pow10((9 - fp.len()) as nat) >= 1,
                        ;
                    }
                }
                return Err(TrustAtomError::NumericParseFailure);
            },
        }
    } else {
        proof {
            crate::codec::lemma_dec_val_nonneg(Seq::<char>::empty());
        }
        (0, 0)
    };
    let ghost fp = if dot < n {
        t.skip(dot - start + 1)
    } else {
        Seq::<char>::empty()
    };
    proof {
        if dot < n {
            assert(fp =~= s@.subrange(dot + 1, n as int));
        }
        assert(fv == dec_val(fp));
        assert(fp.len() == flen);
        if flen > 0 {
            lemma_dec_val_bound(fp);
        }
    }
    let rem = pow10_u64(9 - flen);
    proof {
        lemma_pow10_pos((9 - flen) as nat);
        lemma_pow10_add(flen as nat, (9 - flen) as nat);
        lemma_pow10_nine();
        assert(fv * rem <= (pow10(flen as nat) - 1) * pow10((9 - flen) as nat))
            by (nonlinear_arith)
            requires
                fv <= pow10(flen as nat) - 1,
                rem == pow10((9 - flen) as nat),
                rem >= 1,
        ;
        assert((pow10(flen as nat) - 1) * pow10((9 - flen) as nat) == pow10(9nat) - pow10(
            (9 - flen) as nat,
        )) by (nonlinear_arith)
            requires
                pow10(flen as nat) * pow10((9 - flen) as nat) == pow10(9nat),
        ;
        assert(fv * rem >= 0) by (nonlinear_arith)
            requires
                fv >= 0,
                rem >= 1,
        ;
    }
    let frac_scaled: u64 = fv * rem;
    if iv >= 2 {
        proof {
            assert(iv * (RATING_SCALE as int) >= 2 * (RATING_SCALE as int)) by (nonlinear_arith)
                requires
                    iv >= 2,
            ;
        }
        return Err(TrustAtomError::NumericParseFailure);
    }
    if iv == 1 && frac_scaled > 0 {
        return Err(TrustAtomError::NumericParseFailure);
    }
    let m: i64 = (iv as i64) * RATING_SCALE + (frac_scaled as i64);
    let v: i64 = if neg {
        -m
    } else {
        m
    };
    proof {
        let k = first_dot(t);
        let ip = t.take(k as int);
        let has_dot = k < t.len();
        assert(has_dot <==> dot < n);
        assert(dec_val(ip) == iv && all_digits(ip));
        assert(ip.len() > 0 || has_dot);
        let ms = dec_val(ip) * (RATING_SCALE as int) + dec_val(fp) * pow10((9 - flen) as nat);
        assert(dec_val(fp) * pow10((9 - flen) as nat) == fv * rem);
        assert(iv * (RATING_SCALE as int) == (iv as i64) * RATING_SCALE);
        assert(ms == m);
        assert(ms <= RATING_SCALE as int);
        assert(spec_parse_rating(s@) == Some(v));
    }
    Ok(v)
}

// ---------------------------------------------------------------------
// Canonical formatting
// ---------------------------------------------------------------------

/// Exactly `k` decimal digits of `r`, zero-padded on the left.
pub open spec fn fixed_chars(r: nat, k: nat) -> Seq<char>
    decreases k,
{
    if k == 0 {
        Seq::<char>::empty()
    } else {
        fixed_chars(r / 10, (k - 1) as nat).push(digit_char((r % 10) as int))
    }
}

/// The canonical text of a rating: sign, integer digits, a decimal
/// point, and exactly nine fractional digits. A zero integer part is
/// omitted (".800000000"), so every implementation formats a rating
/// identically.
pub open spec fn spec_format_rating(v: int) -> Seq<char> {
    let m = if v < 0 {
        -v
    } else {
        v
    };
    let sign: Seq<char> = if v < 0 {
        seq!['-']
    } else {
        Seq::<char>::empty()
    };
    let whole: Seq<char> = if m / (RATING_SCALE as int) == 0 {
        Seq::<char>::empty()
    } else {
        dec_chars((m / (RATING_SCALE as int)) as nat)
    };
    sign + whole + seq!['.'] + fixed_chars((m % (RATING_SCALE as int)) as nat, 9)
}

fn fixed_to_string(r: u64, k: usize) -> (s: String)
    ensures
        s@ == fixed_chars(r as nat, k as nat),
    decreases k,
{
    if k == 0 {
        let s = String::new();
        proof {
            assert(s@ =~= fixed_chars(r as nat, 0));
        }
        s
    } else {
        let mut s = fixed_to_string(r / 10, k - 1);
        crate::codec::push_digit(&mut s, r % 10);
        proof {
            assert(s@ =~= fixed_chars(r as nat, k as nat));
        }
        s
    }
}

/// Render a rating canonically. Total for every magnitude that fits in
/// an `i64`.
pub fn format_rating(v: i64) -> (s: String)
    requires
        v > i64::MIN,
    ensures
        s@ == spec_format_rating(v as int),
{
    proof {
        reveal_strlit("-");
        reveal_strlit(".");
    }
    let mut s = String::new();
    let mag: u64 = if v < 0 {
        (-v) as u64
    } else {
        v as u64
    };
    if v < 0 {
        s.append("-");
    }
    if mag / (RATING_SCALE as u64) > 0 {
        let whole = crate::codec::u64_to_string(mag / (RATING_SCALE as u64));
        s.append(whole.as_str());
    }
    s.append(".");
    let frac = fixed_to_string(mag % (RATING_SCALE as u64), 9);
    s.append(frac.as_str());
    proof {
        assert(s@ =~= spec_format_rating(v as int));
    }
    s
}

pub proof fn lemma_fixed_chars_wf(r: nat, k: nat)
    ensures
        fixed_chars(r, k).len() == k,
        all_digits(fixed_chars(r, k)),
        r < pow10(k) ==> dec_val(fixed_chars(r, k)) == r,
    decreases k,
{
    if k > 0 {
        lemma_fixed_chars_wf(r / 10, (k - 1) as nat);
        let p = fixed_chars(r / 10, (k - 1) as nat);
        let s = fixed_chars(r, k);
        assert(s =~= p.push(digit_char((r % 10) as int)));
        assert(s.drop_last() =~= p);
        assert(s.last() == digit_char((r % 10) as int));
        assert(all_digits(s)) by {
            assert(forall|i: int| 0 <= i < p.len() ==> #[trigger] s[i] == p[i]);
        }
        if r < pow10(k) {
            lemma_pow10_pos((k - 1) as nat);
            let x = pow10((k - 1) as nat);
            vstd::arithmetic::div_mod::lemma_fundamental_div_mod_converse(10 * x - 1, 10, x - 1, 9);
            vstd::arithmetic::div_mod::lemma_div_is_ordered(r as int, 10 * x - 1, 10);
            assert(r / 10 < x);
            assert(dec_val(s) == dec_val(p) * 10 + digit_val(s.last()));
            assert(digit_val(digit_char((r % 10) as int)) == r % 10);
            vstd::arithmetic::div_mod::lemma_fundamental_div_mod(r as int, 10);
        }
    }
}

/// Canonical text always parses back to the value it was formatted
/// from: a rating the library writes can never raise a numeric parse
/// failure when read again.
pub proof fn lemma_format_parse_round_trip(v: int)
    requires
        -(RATING_SCALE as int) <= v <= RATING_SCALE as int,
    ensures
        spec_parse_rating(spec_format_rating(v)) == Some(v as i64),
{
    let sc = RATING_SCALE as int;
    let m = if v < 0 {
        -v
    } else {
        v
    };
    vstd::arithmetic::div_mod::lemma_fundamental_div_mod(m, sc);
    let w = (m / sc) as nat;
    let r = (m % sc) as nat;
    let ip0: Seq<char> = if w == 0 {
        Seq::<char>::empty()
    } else {
        dec_chars(w)
    };
    let fp0 = fixed_chars(r, 9);
    let s = spec_format_rating(v);
    crate::codec::lemma_dec_chars_wf(w);
    lemma_pow10_nine();
    lemma_fixed_chars_wf(r, 9);
    assert(all_digits(ip0));
    assert(dec_val(ip0) == w);
    let neg = v < 0;
    let t = if neg {
        s.drop_first()
    } else {
        s
    };
    assert(t =~= ip0 + seq!['.'] + fp0);
    if !neg {
        if w == 0 {
            assert(s[0] == '.');
        } else {
            assert(s[0] == ip0[0]);
            assert(is_digit(ip0[0]));
        }
        assert(s[0] != '-');
    } else {
        assert(s[0] == '-');
    }
    assert(forall|j: int| 0 <= j < ip0.len() ==> #[trigger] t[j] == ip0[j]);
    assert(forall|j: int| 0 <= j < ip0.len() ==> t[j] != '.') by {
        assert(forall|j: int| 0 <= j < ip0.len() ==> is_digit(#[trigger] ip0[j]));
    }
    assert(t[ip0.len() as int] == '.');
    lemma_first_dot_at(t, ip0.len() as int);
    assert(t.take(ip0.len() as int) =~= ip0);
    assert(t.skip(ip0.len() as int + 1) =~= fp0);
    assert(pow10(0) == 1);
    assert(dec_val(ip0) * sc + dec_val(fp0) * pow10((9 - fp0.len()) as nat) == m);
}

// ---------------------------------------------------------------------
// Rounded division and blending
// ---------------------------------------------------------------------

/// Division rounded to the nearest integer, ties away from zero; the
/// rounding rule of every blending step.
pub open spec fn round_div(n: int, d: int) -> int
    recommends
        d > 0,
{
    if n >= 0 {
        (2 * n + d) / (2 * d)
    } else {
        -((2 * (-n) + d) / (2 * d))
    }
}

/// 2^100, a magnitude bound that every aggregation intermediate stays
/// far below.
pub const AGG_BOUND: i128 = 1267650600228229401496703205376;

pub proof fn lemma_round_div_bounds(n: int, d: int)
    requires
        d > 0,
        n >= 0,
    ensures
        0 <= round_div(n, d) <= n,
{
    let q = (2 * n + d) / (2 * d);
    vstd::arithmetic::div_mod::lemma_fundamental_div_mod(2 * n + d, 2 * d);
    let r = (2 * n + d) % (2 * d);
    assert(0 <= q <= n) by (nonlinear_arith)
        requires
            2 * n + d == (2 * d) * q + r,
            0 <= r < 2 * d,
            n >= 0,
            d > 0,
    ;
}

/// Rounded division of a value no larger than `d * b` in magnitude
/// stays within `b`: the weighted contributions never leave the
/// rating range.
pub proof fn lemma_round_div_scaled(n: int, d: int, b: int)
    requires
        d > 0,
        b >= 0,
        -(d * b) <= n <= d * b,
    ensures
        -b <= round_div(n, d) <= b,
{
    assert(2 * d * b + d == b * (2 * d) + d) by (nonlinear_arith);
    assert(0 <= d < 2 * d);
    vstd::arithmetic::div_mod::lemma_fundamental_div_mod_converse(2 * d * b + d, 2 * d, b, d);
    if n >= 0 {
        lemma_round_div_bounds(n, d);
        assert(2 * n + d <= 2 * d * b + d) by (nonlinear_arith)
            requires
                n <= d * b,
        ;
        vstd::arithmetic::div_mod::lemma_div_is_ordered(2 * n + d, 2 * d * b + d, 2 * d);
    } else {
        lemma_round_div_bounds(-n, d);
        assert(2 * (-n) + d <= 2 * d * b + d) by (nonlinear_arith)
            requires
                -(d * b) <= n < 0,
        ;
        vstd::arithmetic::div_mod::lemma_div_is_ordered(2 * (-n) + d, 2 * d * b + d, 2 * d);
    }
}

/// Executable rounded division on magnitudes bounded well below the
/// `i128` range.
pub fn div_round(n: i128, d: i128) -> (q: i128)
    requires
        0 < d <= AGG_BOUND,
        -AGG_BOUND <= n <= AGG_BOUND,
    ensures
        q == round_div(n as int, d as int),
        n >= 0 ==> 0 <= q <= n,
        n < 0 ==> n <= q <= 0,
{
    if n >= 0 {
        let nn = n as u128;
        let dd = d as u128;
        proof {
            lemma_round_div_bounds(nn as int, dd as int);
        }
        let q = (2 * nn + dd) / (2 * dd);
        q as i128
    } else {
        let nn = (-n) as u128;
        let dd = d as u128;
        proof {
            lemma_round_div_bounds(nn as int, dd as int);
        }
        let q = (2 * nn + dd) / (2 * dd);
        -(q as i128)
    }
}

/// Clamp a blended value back into the bounded rating range; exact
/// arithmetic keeps results inside it, only the final rounding step can
/// overshoot by a whisker.
pub open spec fn clamp_rating(v: int) -> int {
    if v > RATING_SCALE as int {
        RATING_SCALE as int
    } else if v < -(RATING_SCALE as int) {
        -(RATING_SCALE as int)
    } else {
        v
    }
}

/// Blending when the local agent holds its own rating: the own opinion
/// keeps 80% of the weight and the network consensus pulls the
/// remaining 20%.
pub open spec fn spec_blend_with_self(my: int, ws: int) -> int {
    clamp_rating(my + round_div(ws - my, 5))
}

/// Blending without an own rating: the arithmetic mean of the
/// contributing agents' weighted contributions.
pub open spec fn spec_blend_mean(ws: int, n: int) -> int
    recommends
        n > 0,
{
    clamp_rating(round_div(ws, n))
}

/// final value = my_rating + (weighted_sum - my_rating) * 0.20,
/// rounded to the nearest billionth and clamped to the rating range.
pub fn blend_with_self(my: i64, ws: i128) -> (v: i64)
    requires
        -RATING_SCALE <= my <= RATING_SCALE,
        -(AGG_BOUND / 2) <= ws <= AGG_BOUND / 2,
    ensures
        v == spec_blend_with_self(my as int, ws as int),
        -RATING_SCALE <= v <= RATING_SCALE,
{
    let diff: i128 = ws - (my as i128);
    let q = div_round(diff, 5);
    let raw: i128 = (my as i128) + q;
    let c: i128 = if raw > RATING_SCALE as i128 {
        RATING_SCALE as i128
    } else if raw < -(RATING_SCALE as i128) {
        -(RATING_SCALE as i128)
    } else {
        raw
    };
    c as i64
}

/// final value = weighted_sum / count, rounded to the nearest
/// billionth and clamped to the rating range.
pub fn blend_mean(ws: i128, n: usize) -> (v: i64)
    requires
        n > 0,
        -(AGG_BOUND / 2) <= ws <= AGG_BOUND / 2,
        n as i128 <= AGG_BOUND,
    ensures
        v == spec_blend_mean(ws as int, n as int),
        -RATING_SCALE <= v <= RATING_SCALE,
{
    let q = div_round(ws, n as i128);
    let c: i128 = if q > RATING_SCALE as i128 {
        RATING_SCALE as i128
    } else if q < -(RATING_SCALE as i128) {
        -(RATING_SCALE as i128)
    } else {
        q
    };
    c as i64
}

// ---------------------------------------------------------------------
// The golden-ratio power
// ---------------------------------------------------------------------

pub open spec fn is_sqrt(n: nat, r: nat) -> bool {
    r * r <= n < (r + 1) * (r + 1)
}

/// The integer square root, the unique `r` with `r*r <= n < (r+1)^2`.
pub open spec fn sqrt_nat(n: nat) -> nat {
    choose|r: nat| is_sqrt(n, r)
}

pub proof fn lemma_sqrt_exists(n: nat) -> (r: nat)
    ensures
        is_sqrt(n, r),
    decreases n,
{
    if n == 0 {
        assert(is_sqrt(0, 0)) by (nonlinear_arith);
        0
    } else {
        let p = lemma_sqrt_exists((n - 1) as nat);
        if (p + 1) * (p + 1) <= n {
            assert(is_sqrt(n, p + 1)) by (nonlinear_arith)
                requires
                    p * p <= n - 1 < (p + 1) * (p + 1),
                    (p + 1) * (p + 1) <= n,
            ;
            p + 1
        } else {
            assert(is_sqrt(n, p)) by (nonlinear_arith)
                requires
                    p * p <= n - 1 < (p + 1) * (p + 1),
                    (p + 1) * (p + 1) > n,
            ;
            p
        }
    }
}

pub proof fn lemma_sqrt_unique(n: nat, r: nat)
    requires
        is_sqrt(n, r),
    ensures
        sqrt_nat(n) == r,
{
    let s = lemma_sqrt_exists(n);
    assert(is_sqrt(n, sqrt_nat(n)));
    let q = sqrt_nat(n);
    assert(q == r) by (nonlinear_arith)
        requires
            r * r <= n < (r + 1) * (r + 1),
            q * q <= n < (q + 1) * (q + 1),
    ;
}

fn isqrt(n: u64) -> (r: u64)
    requires
        n <= 1_000_000_000_000_000_000,
    ensures
        r == sqrt_nat(n as nat),
        r <= 1_000_000_000,
{
    let mut lo: u64 = 0;
    let mut hi: u64 = 1_000_000_001;
    proof {
        assert((1_000_000_001u64 as int) * (1_000_000_001u64 as int) > n as int);
    }
    while hi - lo > 1
        invariant
            lo < hi <= 1_000_000_001,
            n <= 1_000_000_000_000_000_000,
            (lo as int) * (lo as int) <= n as int,
            (hi as int) * (hi as int) > n as int,
        decreases hi - lo,
    {
        let mid = lo + (hi - lo) / 2;
        proof {
            assert((mid as int) * (mid as int) <= 1_000_000_001i64 * 1_000_000_001i64)
                by (nonlinear_arith)
                requires
                    0 <= mid as int <= 1_000_000_001,
            ;
        }
        if mid * mid <= n {
            lo = mid;
        } else {
            hi = mid;
        }
    }
    proof {
        lemma_sqrt_unique(n as nat, lo as nat);
    }
    lo
}

/// Square root in fixed point: `fxsqrt(y)/S == sqrt(y/S)` up to
/// rounding, for `y` in [0, S].
pub open spec fn fxsqrt_spec(y: nat) -> nat {
    sqrt_nat(y * (RATING_SCALE as nat))
}

fn fxsqrt(y: u64) -> (r: u64)
    requires
        y <= 1_000_000_000,
    ensures
        r == fxsqrt_spec(y as nat),
        r <= 1_000_000_000,
{
    proof {
        assert((y as int) * 1_000_000_000 <= 1_000_000_000_000_000_000) by (nonlinear_arith)
            requires
                y <= 1_000_000_000,
        ;
    }
    let r = isqrt(y * 1_000_000_000);
    r
}

/// The set bits of 648020 = round(0.618 * 2^20): position `k` set means
/// the factor x^(2^-k) enters the product.
pub open spec fn phi_bit(k: nat) -> bool {
    k == 1 || k == 4 || k == 5 || k == 6 || k == 7 || k == 11 || k == 12 || k == 14 || k == 16
        || k == 18
}

fn phi_bit_exec(k: usize) -> (b: bool)
    ensures
        b == phi_bit(k as nat),
{
    k == 1 || k == 4 || k == 5 || k == 6 || k == 7 || k == 11 || k == 12 || k == 14 || k == 16
        || k == 18
}

/// One multiply-and-rescale step of the power product (truncating).
pub open spec fn mulfx_spec(a: nat, b: nat) -> nat {
    (a * b) / (RATING_SCALE as nat)
}

fn mulfx(a: u64, b: u64) -> (r: u64)
    requires
        a <= 1_000_000_000,
        b <= 1_000_000_000,
    ensures
        r == mulfx_spec(a as nat, b as nat),
        r <= 1_000_000_000,
{
    proof {
        assert((a as int) * (b as int) <= 1_000_000_000_000_000_000) by (nonlinear_arith)
            requires
                a <= 1_000_000_000,
                b <= 1_000_000_000,
        ;
        assert((a as int) * (b as int) / 1_000_000_000 <= 1_000_000_000) by (nonlinear_arith)
            requires
                0 <= (a as int) * (b as int) <= 1_000_000_000_000_000_000,
        ;
    }
    (a * b) / 1_000_000_000
}

/// The tail of the power computation: `k` square roots already taken,
/// partial product `acc`.
pub open spec fn phi_aux(y: nat, acc: nat, k: nat) -> nat
    decreases 19 - k,
{
    if k > 18 {
        acc
    } else {
        let y2 = fxsqrt_spec(y);
        let acc2 = if phi_bit(k) {
            mulfx_spec(acc, y2)
        } else {
            acc
        };
        phi_aux(y2, acc2, k + 1)
    }
}

/// r^1.618 in fixed point (billionths), deterministic on every machine.
pub open spec fn spec_pow_phi(r: nat) -> nat {
    phi_aux(r, r, 1)
}

/// Raise a positive rating to the golden-ratio power. Ratings at the
/// low end of the scale can round to zero weight.
pub fn pow_phi(r: u64) -> (p: u64)
    requires
        0 < r <= 1_000_000_000,
    ensures
        p == spec_pow_phi(r as nat),
        p <= 1_000_000_000,
{
    let mut y: u64 = r;
    let mut acc: u64 = r;
    let mut k: usize = 1;
    while k <= 18
        invariant
            1 <= k <= 19,
            y <= 1_000_000_000,
            acc <= 1_000_000_000,
            spec_pow_phi(r as nat) == phi_aux(y as nat, acc as nat, k as nat),
        decreases 19 - k,
    {
        let y2 = fxsqrt(y);
        if phi_bit_exec(k) {
            acc = mulfx(acc, y2);
        }
        y = y2;
        k += 1;
    }
    acc
}

} // verus!

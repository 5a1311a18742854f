//! The `.deslop-rules` file format: parsing into rules, checking for
//! errors, and merging the files found up the directory tree.

use vstd::prelude::*;
use vstd::string::*;
use vstd::utf8::*;
use crate::bindings::{glob_error_text, regex_error, regex_error_text};
use super::custom::glob_error;
use crate::text::{
    chars_of, comma_pieces, contains_seq, decimal, find_char, find_char_from, first_char, has_seq, join_with,
    last_seq, push_decimal, push_str, rfind_seq, split_commas, starts_with, str_eq, substring,
    text_of, trim_str, trimmed,
};
use super::code::{line_ranges, line_texts, lines_of, ranges_ok};
use super::custom::{
    is_regex_meta, is_regex_pattern, spec_strip_quotes, spec_suggest_field, strip_quotes,
    suggest_field, texts, DeslopRulesFile, DisableDirective, FixAction, FixView, ParsedRule,
    ParsedView, ValidationError, opt_text,
};
use super::Severity;

verus! {

// ---------------------------------------------------------------------------
// Confidence values
// ---------------------------------------------------------------------------

/// A decimal digit.
pub open spec fn is_digit(c: char) -> bool {
    '0' <= c <= '9'
}

/// Every character is a decimal digit.
pub open spec fn all_digits(s: Seq<char>) -> bool {
    forall|k: int| 0 <= k < s.len() ==> is_digit(#[trigger] s[k])
}

/// Every character is `0`.
pub open spec fn all_zeros(s: Seq<char>) -> bool {
    forall|k: int| 0 <= k < s.len() ==> #[trigger] s[k] == '0'
}

/// The numeric value of a string of decimal digits.
pub open spec fn digits_value(s: Seq<char>) -> int
    decreases s.len(),
{
    if s.len() == 0 {
        0
    } else {
        digits_value(s.drop_last()) * 10 + (s.last() as int - '0' as int)
    }
}

/// `n` zero digits.
pub open spec fn zeros(n: int) -> Seq<char> {
    Seq::new(n as nat, |k: int| '0')
}

/// The text, compared letter by letter, is `lower` in any mix of cases
/// (`upper` holds the same word in capitals).
pub open spec fn word_in_any_case(s: Seq<char>, lower: Seq<char>, upper: Seq<char>) -> bool {
    &&& s.len() == lower.len()
    &&& forall|k: int| 0 <= k < s.len() ==> #[trigger] s[k] == lower[k] || s[k] == upper[k]
}

/// The index of the first exponent mark (`e` or `E`) from `k` on, if any.
pub open spec fn find_exp_from(s: Seq<char>, k: int) -> Option<int>
    decreases s.len() - k,
{
    if k < 0 || k >= s.len() {
        None
    } else if s[k] == 'e' || s[k] == 'E' {
        Some(k)
    } else {
        find_exp_from(s, k + 1)
    }
}

/// A number as a floating-point field is written.
pub enum NumberText {
    /// Digits with an optional point, and an optional exponent: the number
    /// is `±(ip.fp) × 10^exp`.
    Finite { neg: bool, ip: Seq<char>, fp: Seq<char>, exp: int },
    /// `inf` or `infinity`, in any case.
    Infinite { neg: bool },
    /// `nan`, in any case.
    NotANumber,
}

/// The value of an exponent's text: an optional sign and at least one digit.
pub open spec fn parse_exponent(t: Seq<char>) -> Option<int> {
    let neg = t.len() > 0 && t[0] == '-';
    let ds = if t.len() > 0 && (t[0] == '-' || t[0] == '+') {
        t.skip(1)
    } else {
        t
    };
    if ds.len() > 0 && all_digits(ds) {
        Some(if neg {
            -digits_value(ds)
        } else {
            digits_value(ds)
        })
    } else {
        None
    }
}

/// A number in the grammar that the standard library's floating-point
/// parser accepts: an optional sign, then `inf`, `infinity` or `nan` in any
/// case, or digits with an optional point (at least one digit in all) and
/// an optional exponent (`e` or `E`, an optional sign, digits).
pub open spec fn parse_number(t: Seq<char>) -> Option<NumberText> {
    let neg = t.len() > 0 && t[0] == '-';
    let body = if t.len() > 0 && (t[0] == '-' || t[0] == '+') {
        t.skip(1)
    } else {
        t
    };
    if word_in_any_case(body, "inf"@, "INF"@) || word_in_any_case(body, "infinity"@, "INFINITY"@) {
        Some(NumberText::Infinite { neg })
    } else if word_in_any_case(body, "nan"@, "NAN"@) {
        Some(NumberText::NotANumber)
    } else {
        let (mant, exp) = match find_exp_from(body, 0) {
            Some(q) => (body.take(q), parse_exponent(body.skip(q + 1))),
            None => (body, Some(0int)),
        };
        match (parse_mantissa(mant), exp) {
            (Some((ip, fp)), Some(x)) => Some(
                NumberText::Finite { neg, ip, fp, exp: x },
            ),
            _ => None,
        }
    }
}

/// The digits of a number written without sign or exponent: digits with an
/// optional point, at least one digit in all; the digits before the point
/// and those after it.
pub open spec fn parse_mantissa(m: Seq<char>) -> Option<(Seq<char>, Seq<char>)> {
    match find_char(m, '.') {
        Some(p) => {
            let ip = m.take(p);
            let fp = m.skip(p + 1);
            if all_digits(ip) && all_digits(fp) && ip.len() + fp.len() > 0 {
                Some((ip, fp))
            } else {
                None
            }
        },
        None => if all_digits(m) && m.len() > 0 {
            Some((m, seq![]))
        } else {
            None
        },
    }
}

/// The integer digits of the number whose digits are `d` with the point
/// after the first `p` of them (`p` may lie outside the digits).
pub open spec fn plain_int(d: Seq<char>, p: int) -> Seq<char> {
    if p <= 0 {
        seq![]
    } else if p < d.len() {
        d.take(p)
    } else {
        d + zeros(p - d.len())
    }
}

/// The fraction digits of that number.
pub open spec fn plain_frac(d: Seq<char>, p: int) -> Seq<char> {
    if p <= 0 {
        zeros(-p) + d
    } else if p < d.len() {
        d.skip(p)
    } else {
        seq![]
    }
}

/// The fraction digit at `j`, `0` past the end.
pub open spec fn frac_char(f: Seq<char>, j: int) -> char {
    if 0 <= j < f.len() {
        f[j]
    } else {
        '0'
    }
}

/// Comparing the fractions `0.f` and `0.c` digit by digit from place `j`
/// on: whether the first is at most the second.
pub open spec fn frac_at_most_from(f: Seq<char>, c: Seq<char>, j: int) -> bool
    decreases f.len() + c.len() - j,
{
    if j < 0 || (j >= f.len() && j >= c.len()) {
        true
    } else if frac_char(f, j) < frac_char(c, j) {
        true
    } else if frac_char(f, j) > frac_char(c, j) {
        false
    } else {
        frac_at_most_from(f, c, j + 1)
    }
}

/// The fraction `0.f` is at most `0.c`.
pub open spec fn frac_at_most(f: Seq<char>, c: Seq<char>) -> bool {
    frac_at_most_from(f, c, 0)
}

/// The fraction digits of 2^-24, half the gap between 1 and the next
/// single-precision number: the parser rounds a number up to 1 + 2^-24 down
/// to 1.
pub open spec fn half_gap_above_one() -> Seq<char> {
    "000000059604644775390625"@
}

/// The fraction digits of 2^-150, half the smallest single-precision number
/// above zero: the parser rounds a negative number down to -2^-150 to zero.
pub open spec fn half_smallest() -> Seq<char> {
    "000000000000000000000000000000000000000000000700649232162408535461864791644958065640130970938257885878534141944895541342930300743319094181060791015625"@
}

/// The integer digits spell one: zeros and then a single `1`.
pub open spec fn is_one(ip: Seq<char>) -> bool {
    ip.len() > 0 && ip.last() == '1' && all_zeros(ip.drop_last())
}

/// The value of the fraction digit at `k` (0 past the end).
pub open spec fn frac_digit(fp: Seq<char>, k: int) -> int {
    if 0 <= k < fp.len() {
        fp[k] as int - '0' as int
    } else {
        0
    }
}

/// The place value of the fraction digit at `k`, in ten-thousandths.
pub open spec fn place(k: int) -> int {
    if k == 0 {
        1000
    } else if k == 1 {
        100
    } else if k == 2 {
        10
    } else {
        1
    }
}

/// The first `k` fraction digits, in ten-thousandths.
pub open spec fn frac_prefix(fp: Seq<char>, k: int) -> int
    decreases k,
{
    if k <= 0 {
        0
    } else {
        frac_prefix(fp, k - 1) + place(k - 1) * frac_digit(fp, k - 1)
    }
}

/// A number between 0 and 1 in ten-thousandths, rounded down.
pub open spec fn ten_thousandths(ip: Seq<char>, fp: Seq<char>) -> u32 {
    if is_one(ip) {
        10000
    } else {
        frac_prefix(fp, 4) as u32
    }
}

/// The digits without leading zeros.
pub open spec fn strip_leading_zeros(s: Seq<char>) -> Seq<char>
    decreases s.len(),
{
    if s.len() > 0 && s[0] == '0' {
        strip_leading_zeros(s.skip(1))
    } else {
        s
    }
}

/// The digits without trailing zeros.
pub open spec fn strip_trailing_zeros(s: Seq<char>) -> Seq<char>
    decreases s.len(),
{
    if s.len() > 0 && s.last() == '0' {
        strip_trailing_zeros(s.drop_last())
    } else {
        s
    }
}

/// How a number is shown: its sign, its integer digits without leading
/// zeros (at least `0`), and its fraction without trailing zeros, after a
/// point, when any is left.
pub open spec fn show_decimal(neg: bool, ip: Seq<char>, fp: Seq<char>) -> Seq<char> {
    let i = strip_leading_zeros(ip);
    let f = strip_trailing_zeros(fp);
    (if neg {
        "-"@
    } else {
        ""@
    }) + (if i.len() == 0 {
        "0"@
    } else {
        i
    }) + (if f.len() == 0 {
        ""@
    } else {
        "."@ + f
    })
}

/// What a confidence field holds.
pub enum ConfidenceValue {
    /// A number between 0 and 1, in ten-thousandths.
    Valid(u32),
    /// A number outside that range, as it is shown.
    OutOfRange(String),
    /// Not a number.
    Invalid,
}

/// The mathematical value of a [`ConfidenceValue`].
pub enum ConfidenceView {
    Valid(u32),
    OutOfRange(Seq<char>),
    Invalid,
}

impl View for ConfidenceValue {
    type V = ConfidenceView;

    open spec fn view(&self) -> ConfidenceView {
        match self {
            ConfidenceValue::Valid(v) => ConfidenceView::Valid(*v),
            ConfidenceValue::OutOfRange(s) => ConfidenceView::OutOfRange(s@),
            ConfidenceValue::Invalid => ConfidenceView::Invalid,
        }
    }
}

/// The least number that single-precision rounding sends to infinity:
/// 2^128 - 2^103, the largest finite value plus half its last place.
pub open spec fn float_overflow() -> int {
    340282356779733661637539395458142568448
}

/// How the parser's value of an out-of-range number with integer digits `i`
/// and fraction digits `f` is displayed: `inf` or `-inf` when it rounds to
/// infinity, else as a plain decimal.
pub open spec fn show_value(neg: bool, i: Seq<char>, f: Seq<char>) -> Seq<char> {
    if digits_value(i) >= float_overflow() {
        if neg {
            "-inf"@
        } else {
            "inf"@
        }
    } else {
        show_decimal(neg, i, f)
    }
}

/// Ten to the power `n`.
pub open spec fn pow10(n: nat) -> int
    decreases n,
{
    if n == 0 {
        1
    } else {
        10 * pow10((n - 1) as nat)
    }
}

/// Whether the confidence with the given sign, digits and point place lies
/// in range, and what it is worth in ten-thousandths.
pub open spec fn confidence_of(neg: bool, d: Seq<char>, p: int) -> (bool, u32) {
    let i = plain_int(d, p);
    let f = plain_frac(d, p);
    let ok = if neg {
        all_zeros(i) && frac_at_most(f, half_smallest())
    } else {
        all_zeros(i) || (is_one(i) && frac_at_most(f, half_gap_above_one()))
    };
    (ok, ten_thousandths(i, f))
}

/// What a confidence field's text holds: a number that the single-precision
/// parser accepts and rounds to a value between 0 and 1, in ten-thousandths
/// (rounded down; at least 1 counts as 10000); any other number is out of
/// range, shown as `inf`, `-inf` or `NaN` when the parser gives those, else
/// as the plain decimal of the number written.
pub open spec fn spec_confidence(t: Seq<char>) -> ConfidenceView {
    match parse_number(t) {
        None => ConfidenceView::Invalid,
        Some(NumberText::Infinite { neg }) => ConfidenceView::OutOfRange(
            if neg {
                "-inf"@
            } else {
                "inf"@
            },
        ),
        Some(NumberText::NotANumber) => ConfidenceView::OutOfRange("NaN"@),
        Some(NumberText::Finite { neg, ip, fp, exp }) => {
            let (ok, c) = confidence_of(neg, ip + fp, ip.len() + exp);
            if ok {
                ConfidenceView::Valid(c)
            } else {
                ConfidenceView::OutOfRange(
                    show_value(neg, plain_int(ip + fp, ip.len() + exp), plain_frac(ip + fp, ip.len() + exp)),
                )
            }
        },
    }
}

/// Whether the characters in `[a, z)` are all digits, and all zeros.
fn scan_digits(cs: &Vec<char>, a: usize, z: usize) -> (r: (bool, bool))
    requires
        a <= z <= cs@.len(),
    ensures
        r.0 == all_digits(cs@.subrange(a as int, z as int)),
        r.1 == all_zeros(cs@.subrange(a as int, z as int)),
{
    let mut digits = true;
    let mut zeros = true;
    let mut k: usize = a;
    while k < z
        invariant
            a <= k <= z <= cs@.len(),
            digits <==> (forall|q: int| a <= q < k ==> is_digit(#[trigger] cs@[q])),
            zeros <==> (forall|q: int| a <= q < k ==> #[trigger] cs@[q] == '0'),
        decreases z - k,
    {
        let c = cs[k];
        if !('0' <= c && c <= '9') {
            digits = false;
        }
        if c != '0' {
            zeros = false;
        }
        k = k + 1;
    }
    let ghost s = cs@.subrange(a as int, z as int);
    assert(forall|q: int| 0 <= q < s.len() ==> s[q] == cs@[a + q]);
    proof {
        if !digits {
            let q = choose|q: int| a <= q < z && !is_digit(#[trigger] cs@[q]);
            assert(s[q - a] == cs@[q]);
        }
        if !zeros {
            let q = choose|q: int| a <= q < z && #[trigger] cs@[q] != '0';
            assert(s[q - a] == cs@[q]);
        }
    }
    (digits, zeros)
}

/// The value of a digit character.
fn digit_value(c: char) -> (r: u32)
    requires
        is_digit(c),
    ensures
        r as int == c as int - '0' as int,
        r <= 9,
{
    (c as u32) - ('0' as u32)
}

/// The first four fraction digits in `[a, z)`, in ten-thousandths.
fn frac_value(cs: &Vec<char>, a: usize, z: usize) -> (r: u32)
    requires
        a <= z <= cs@.len(),
        all_digits(cs@.subrange(a as int, z as int)),
    ensures
        r as int == frac_prefix(cs@.subrange(a as int, z as int), 4),
        r <= 9999,
{
    let ghost fp = cs@.subrange(a as int, z as int);
    let mut v: u32 = 0;
    let mut k: usize = 0;
    while k < 4
        invariant
            k <= 4,
            a <= z <= cs@.len(),
            fp == cs@.subrange(a as int, z as int),
            all_digits(fp),
            v as int == frac_prefix(fp, k as int),
            k == 0 ==> v == 0,
            k == 1 ==> v <= 9000,
            k == 2 ==> v <= 9900,
            k == 3 ==> v <= 9990,
            k == 4 ==> v <= 9999,
        decreases 4 - k,
    {
        let d: u32 = if k < z - a {
            assert(fp[k as int] == cs@[a + k]);
            assert(is_digit(fp[k as int]));
            digit_value(cs[a + k])
        } else {
            0
        };
        assert(d as int == frac_digit(fp, k as int));
        let w: u32 = if k == 0 {
            1000
        } else if k == 1 {
            100
        } else if k == 2 {
            10
        } else {
            1
        };
        assert(w as int == place(k as int));
        v = v + d * w;
        k = k + 1;
    }
    v
}

/// Where the digits in `[a, z)` start once leading zeros are skipped.
fn skip_leading_zeros(cs: &Vec<char>, a: usize, z: usize) -> (r: usize)
    requires
        a <= z <= cs@.len(),
    ensures
        a <= r <= z,
        strip_leading_zeros(cs@.subrange(a as int, z as int)) == cs@.subrange(r as int, z as int),
{
    let mut p = a;
    while p < z && cs[p] == '0'
        invariant
            a <= p <= z <= cs@.len(),
            strip_leading_zeros(cs@.subrange(a as int, z as int)) == strip_leading_zeros(
                cs@.subrange(p as int, z as int),
            ),
        decreases z - p,
    {
        assert(cs@.subrange(p + 1, z as int) =~= cs@.subrange(p as int, z as int).skip(1));
        p = p + 1;
    }
    p
}

/// Where the digits in `[a, z)` end once trailing zeros are dropped.
fn drop_trailing_zeros(cs: &Vec<char>, a: usize, z: usize) -> (r: usize)
    requires
        a <= z <= cs@.len(),
    ensures
        a <= r <= z,
        strip_trailing_zeros(cs@.subrange(a as int, z as int)) == cs@.subrange(a as int, r as int),
{
    let mut p = z;
    while p > a && cs[p - 1] == '0'
        invariant
            a <= p <= z <= cs@.len(),
            strip_trailing_zeros(cs@.subrange(a as int, z as int)) == strip_trailing_zeros(
                cs@.subrange(a as int, p as int),
            ),
        decreases p - a,
    {
        assert(cs@.subrange(a as int, p - 1) =~= cs@.subrange(a as int, p as int).drop_last());
        p = p - 1;
    }
    p
}

/// Where the point is among the characters in `[a, z)` (`z` when there is
/// none).
fn point_in(cs: &Vec<char>, a: usize, z: usize) -> (r: usize)
    requires
        a <= z <= cs@.len(),
    ensures
        a <= r <= z,
        match find_char(cs@.subrange(a as int, z as int), '.') {
            Some(p) => p == r - a && r < z,
            None => r == z,
        },
{
    let ghost m = cs@.subrange(a as int, z as int);
    let mut p: usize = a;
    while p < z && cs[p] != '.'
        invariant
            a <= p <= z <= cs@.len(),
            m == cs@.subrange(a as int, z as int),
            find_char(m, '.') == find_char_from(m, '.', p - a),
        decreases z - p,
    {
        assert(m[p - a] == cs@[p as int]);
        p = p + 1;
    }
    proof {
        if p < z {
            assert(m[p - a] == cs@[p as int]);
        }
    }
    p
}

/// The digits of the mantissa in `[a, z)`: the ranges of its integer and
/// fraction digits; `None` when it is not digits with an optional point.
fn mantissa_parts(cs: &Vec<char>, a: usize, z: usize) -> (r: Option<(usize, usize, usize)>)
    requires
        a <= z <= cs@.len(),
    ensures
        match r {
            Some((p, fs, fe)) => a <= p <= fs <= fe == z && parse_mantissa(cs@.subrange(a as int, z as int))
                == Some((cs@.subrange(a as int, p as int), cs@.subrange(fs as int, fe as int))),
            None => parse_mantissa(cs@.subrange(a as int, z as int)) is None,
        },
{
    let ghost m = cs@.subrange(a as int, z as int);
    let p = point_in(cs, a, z);
    let fs = if p < z {
        p + 1
    } else {
        z
    };
    let ghost ip = cs@.subrange(a as int, p as int);
    let ghost fp = cs@.subrange(fs as int, z as int);
    proof {
        if p < z {
            assert(m.take(p - a) =~= ip);
            assert(m.skip(p - a + 1) =~= fp);
        } else {
            assert(fp =~= Seq::<char>::empty());
            assert(ip =~= m);
        }
    }
    let (ip_digits, _) = scan_digits(cs, a, p);
    let (fp_digits, _) = scan_digits(cs, fs, z);
    if !(ip_digits && fp_digits && (p - a) + (z - fs) > 0) {
        return None;
    }
    Some((p, fs, z))
}

/// Whether the characters in `[a, z)` spell the word in any mix of cases.
fn word_at(cs: &Vec<char>, a: usize, z: usize, lower: &str, upper: &str) -> (r: bool)
    requires
        a <= z <= cs@.len(),
        lower@.len() == upper@.len(),
    ensures
        r == word_in_any_case(cs@.subrange(a as int, z as int), lower@, upper@),
{
    let lo = crate::text::chars_of(lower);
    let up = crate::text::chars_of(upper);
    if z - a != lo.len() {
        return false;
    }
    let ghost s = cs@.subrange(a as int, z as int);
    let mut k: usize = 0;
    while k < lo.len()
        invariant
            a <= z <= cs@.len(),
            s == cs@.subrange(a as int, z as int),
            z - a == lo@.len() == up@.len(),
            lo@ == lower@,
            up@ == upper@,
            k <= lo@.len(),
            forall|q: int| 0 <= q < k ==> #[trigger] s[q] == lower@[q] || s[q] == upper@[q],
        decreases lo@.len() - k,
    {
        assert(s[k as int] == cs@[a + k]);
        if cs[a + k] != lo[k] && cs[a + k] != up[k] {
            return false;
        }
        k = k + 1;
    }
    true
}

/// The first exponent mark in `[a, z)` (`z` when there is none).
fn exp_mark(cs: &Vec<char>, a: usize, z: usize) -> (r: usize)
    requires
        a <= z <= cs@.len(),
    ensures
        a <= r <= z,
        match find_exp_from(cs@.subrange(a as int, z as int), 0) {
            Some(q) => q == r - a && r < z,
            None => r == z,
        },
{
    let ghost m = cs@.subrange(a as int, z as int);
    let mut q: usize = a;
    while q < z && cs[q] != 'e' && cs[q] != 'E'
        invariant
            a <= q <= z <= cs@.len(),
            m == cs@.subrange(a as int, z as int),
            find_exp_from(m, 0) == find_exp_from(m, q - a),
        decreases z - q,
    {
        assert(m[q - a] == cs@[q as int]);
        q = q + 1;
    }
    proof {
        if q < z {
            assert(m[q - a] == cs@[q as int]);
        }
    }
    q
}

proof fn lemma_digits_value_nonneg(s: Seq<char>)
    requires
        all_digits(s),
    ensures
        digits_value(s) >= 0,
    decreases s.len(),
{
    if s.len() > 0 {
        assert(all_digits(s.drop_last()));
        assert(is_digit(s.last()));
        lemma_digits_value_nonneg(s.drop_last());
    }
}

/// The exponent in `[a, z)`: its sign and its size, or `None` when it is not
/// an optional sign and digits. A size above `cap` comes back as `None` in
/// the last place (the sign is still given).
fn exponent_value(cs: &Vec<char>, a: usize, z: usize, cap: u128) -> (r: Option<(bool, Option<u128>)>)
    requires
        a <= z <= cs@.len(),
        cap < u128::MAX / 10 - 10,
    ensures
        match r {
            None => parse_exponent(cs@.subrange(a as int, z as int)) is None,
            Some((neg, size)) => parse_exponent(cs@.subrange(a as int, z as int)) matches Some(x) && (neg
                ==> x <= 0) && (!neg ==> x >= 0) && match size {
                Some(v) => v <= cap && (if neg {
                    x == -(v as int)
                } else {
                    x == v as int
                }),
                None => (if neg {
                    -x
                } else {
                    x
                }) > cap,
            },
        },
{
    let ghost t = cs@.subrange(a as int, z as int);
    let neg = z > a && cs[a] == '-';
    let d0 = if z > a && (cs[a] == '-' || cs[a] == '+') {
        a + 1
    } else {
        a
    };
    let ghost ds = cs@.subrange(d0 as int, z as int);
    proof {
        if z > a && (cs@[a as int] == '-' || cs@[a as int] == '+') {
            assert(t.skip(1) =~= ds);
        } else {
            assert(t =~= ds);
        }
    }
    let (digits, _) = scan_digits(cs, d0, z);
    if !(digits && z > d0) {
        return None;
    }
    let mut v: u128 = 0;
    let mut big = false;
    let mut k: usize = d0;
    while k < z
        invariant
            d0 <= k <= z <= cs@.len(),
            ds == cs@.subrange(d0 as int, z as int),
            all_digits(ds),
            cap < u128::MAX / 10 - 10,
            !big ==> v <= cap && v as int == digits_value(ds.take(k - d0)),
            big ==> digits_value(ds.take(k - d0)) > cap,
        decreases z - k,
    {
        proof {
            assert(ds.take(k - d0 + 1).drop_last() =~= ds.take(k - d0));
            assert(ds.take(k - d0 + 1).last() == cs@[k as int]);
            assert(is_digit(ds[k - d0]));
            lemma_digits_value_nonneg(ds.take(k - d0));
        }
        let d = digit_value(cs[k]);
        if !big {
            let w = v * 10 + d as u128;
            if w > cap {
                big = true;
            } else {
                v = w;
            }
        }
        k = k + 1;
    }
    proof {
        assert(ds.take(k - d0) =~= ds);
    }
    if big {
        Some((neg, None))
    } else {
        Some((neg, Some(v)))
    }
}

/// A fraction of zeros is at most any fraction.
proof fn lemma_zero_frac_at_most(f: Seq<char>, c: Seq<char>, j: int)
    requires
        0 <= j,
        forall|k: int| j <= k < f.len() ==> #[trigger] f[k] == '0',
        forall|k: int| 0 <= k < c.len() ==> is_digit(#[trigger] c[k]),
    ensures
        frac_at_most_from(f, c, j),
    decreases f.len() + c.len() - j,
{
    if !(j >= f.len() && j >= c.len()) {
        if j < c.len() {
            assert(is_digit(c[j]));
        }
        if frac_char(f, j) == frac_char(c, j) {
            lemma_zero_frac_at_most(f, c, j + 1);
        }
    }
}

/// The digits of 2^-150: 45 zeros, then a 7.
proof fn lemma_half_smallest_digits()
    ensures
        half_smallest().len() == 150,
        half_smallest()[45] == '7',
        forall|k: int| 0 <= k < 45 ==> #[trigger] half_smallest()[k] == '0',
        forall|k: int| 0 <= k < 150 ==> is_digit(#[trigger] half_smallest()[k]),
{
    reveal_strlit(
        "000000000000000000000000000000000000000000000700649232162408535461864791644958065640130970938257885878534141944895541342930300743319094181060791015625",
    );
}

/// A fraction whose first 46 digits are zeros is at most 2^-150.
proof fn lemma_below_half_smallest(f: Seq<char>, j: int)
    requires
        0 <= j <= 45,
        forall|k: int| j <= k <= 45 ==> #[trigger] frac_char(f, k) == '0',
    ensures
        frac_at_most_from(f, half_smallest(), j),
    decreases 45 - j,
{
    lemma_half_smallest_digits();
    assert(frac_char(f, j) == '0');
    if j < 45 {
        lemma_below_half_smallest(f, j + 1);
    }
}

/// The first four digits of a fraction that starts with four zeros are
/// worth nothing.
proof fn lemma_frac_prefix_zero(f: Seq<char>)
    requires
        forall|k: int| 0 <= k < 4 ==> #[trigger] frac_char(f, k) == '0',
    ensures
        frac_prefix(f, 4) == 0,
{
    reveal_with_fuel(frac_prefix, 5);
    assert(frac_char(f, 0) == '0');
    assert(frac_char(f, 1) == '0');
    assert(frac_char(f, 2) == '0');
    assert(frac_char(f, 3) == '0');
}

/// A point past the digits: the number is an integer, in range only when it
/// is zero.
proof fn lemma_point_past_digits(neg: bool, d: Seq<char>, p: int)
    requires
        all_digits(d),
        p >= d.len() + 1,
    ensures
        confidence_of(neg, d, p) == (all_zeros(d), 0u32),
{
    let i = plain_int(d, p);
    assert(i == d + zeros(p - d.len()));
    assert(i.last() == '0');
    assert(all_zeros(i) == all_zeros(d)) by {
        if all_zeros(d) {
            assert forall|k: int| 0 <= k < i.len() implies #[trigger] i[k] == '0' by {
                if k < d.len() {
                    assert(i[k] == d[k]);
                }
            }
        }
        if all_zeros(i) {
            assert forall|k: int| 0 <= k < d.len() implies #[trigger] d[k] == '0' by {
                assert(i[k] == d[k]);
            }
        }
    }
    assert(plain_frac(d, p) == Seq::<char>::empty());
    lemma_half_smallest_digits();
    lemma_zero_frac_at_most(Seq::<char>::empty(), half_smallest(), 0);
    lemma_frac_prefix_zero(Seq::<char>::empty());
}

/// A point far before the digits: the number is below 2^-150 and counts as
/// zero.
proof fn lemma_point_before_digits(neg: bool, d: Seq<char>, p: int)
    requires
        all_digits(d),
        p <= -151,
    ensures
        confidence_of(neg, d, p) == (true, 0u32),
{
    let f = plain_frac(d, p);
    assert(f == zeros(-p) + d);
    assert forall|k: int| 0 <= k <= 45 implies #[trigger] frac_char(f, k) == '0' by {
        assert(f[k] == '0');
    }
    lemma_below_half_smallest(f, 0);
    lemma_frac_prefix_zero(f);
    assert(plain_int(d, p).len() == 0);
}

proof fn lemma_digits_value_grows(s: Seq<char>, k: int)
    requires
        all_digits(s),
        0 <= k <= s.len(),
    ensures
        0 <= digits_value(s.take(k)) <= digits_value(s),
    decreases s.len() - k,
{
    if k < s.len() {
        lemma_digits_value_grows(s, k + 1);
        assert(s.take(k + 1).drop_last() =~= s.take(k));
        assert(is_digit(s[k]));
    } else {
        assert(s.take(k) =~= s);
    }
    lemma_digits_value_nonneg(s.take(k));
}

/// Appending zeros multiplies the value by a power of ten.
proof fn lemma_digits_value_zeros(s: Seq<char>, m: nat)
    ensures
        digits_value(s + zeros(m as int)) == digits_value(s) * pow10(m),
    decreases m,
{
    if m == 0 {
        assert(s + zeros(0) =~= s);
    } else {
        lemma_digits_value_zeros(s, (m - 1) as nat);
        assert((s + zeros(m as int)).drop_last() =~= s + zeros(m - 1));
        let a = digits_value(s);
        let b = pow10((m - 1) as nat);
        assert((a * b) * 10 == a * (10 * b)) by (nonlinear_arith);
    }
}

/// Digits that are not all zeros are worth at least one.
proof fn lemma_digits_value_positive(s: Seq<char>)
    requires
        all_digits(s),
        !all_zeros(s),
    ensures
        digits_value(s) >= 1,
    decreases s.len(),
{
    assert(s.len() > 0);
    assert(all_digits(s.drop_last()));
    lemma_digits_value_nonneg(s.drop_last());
    if all_zeros(s.drop_last()) {
        assert(s.last() != '0') by {
            if s.last() == '0' {
                assert forall|k: int| 0 <= k < s.len() implies #[trigger] s[k] == '0' by {
                    if k < s.len() - 1 {
                        assert(s.drop_last()[k] == s[k]);
                    }
                }
            }
        }
        assert(is_digit(s.last()));
    } else {
        lemma_digits_value_positive(s.drop_last());
        assert(is_digit(s.last()));
    }
}

proof fn lemma_pow10_grows(a: nat, b: nat)
    requires
        a <= b,
    ensures
        pow10(a) <= pow10(b),
        pow10(a) >= 1,
    decreases b,
{
    if a < b {
        lemma_pow10_grows(a, (b - 1) as nat);
    } else if a > 0 {
        lemma_pow10_grows((a - 1) as nat, (a - 1) as nat);
    }
}

/// A number whose point lies 39 or more places past its nonzero digits
/// rounds to infinity.
proof fn lemma_overflow_far(d: Seq<char>, p: int)
    requires
        all_digits(d),
        !all_zeros(d),
        p >= d.len() + 39,
    ensures
        digits_value(plain_int(d, p)) >= float_overflow(),
{
    let m = (p - d.len()) as nat;
    lemma_digits_value_zeros(d, m);
    lemma_digits_value_positive(d);
    lemma_pow10_grows(39, m);
    assert(pow10(39) == 1000000000000000000000000000000000000000) by {
        reveal_with_fuel(pow10, 40);
    }
    let a = digits_value(d);
    let b = pow10(m);
    assert(a * b >= b) by (nonlinear_arith)
        requires
            a >= 1,
            b >= 0,
    ;
}

/// Whether the integer digits are worth at least [`float_overflow`].
fn reaches_overflow(iv: &Vec<char>) -> (r: bool)
    requires
        all_digits(iv@),
    ensures
        r == (digits_value(iv@) >= float_overflow()),
{
    let n = iv.len();
    let big: u128 = 340282356779733661637539395458142568448;
    let lim: u128 = 34028236692093846346337460743176821144;
    let mut v: u128 = 0;
    let mut k: usize = 0;
    assert(iv@.take(0) =~= Seq::<char>::empty());
    while k < n
        invariant
            n == iv@.len(),
            all_digits(iv@),
            k <= n,
            big == float_overflow(),
            lim == 34028236692093846346337460743176821144u128,
            v as int == digits_value(iv@.take(k as int)),
            v < big,
        decreases n - k,
    {
        proof {
            assert(iv@.take(k + 1).drop_last() =~= iv@.take(k as int));
            assert(iv@.take(k + 1).last() == iv@[k as int]);
            assert(is_digit(iv@[k as int]));
            lemma_digits_value_grows(iv@, k + 1);
        }
        let d = digit_value(iv[k]);
        assert(digits_value(iv@.take(k + 1)) == v * 10 + d);
        if v > lim {
            assert(v * 10 + d >= float_overflow());
            return true;
        }
        v = v * 10 + d as u128;
        if v >= big {
            return true;
        }
        k = k + 1;
    }
    assert(iv@.take(n as int) =~= iv@);
    false
}

/// Appends the digits in `[a, z)`.
fn push_digits(out: &mut String, v: &Vec<char>, a: usize, z: usize)
    requires
        a <= z <= v@.len(),
        all_digits(v@),
    ensures
        final(out)@ == old(out)@ + v@.subrange(a as int, z as int),
{
    let ghost start = out@;
    let mut k: usize = a;
    while k < z
        invariant
            a <= k <= z <= v@.len(),
            all_digits(v@),
            out@ == start + v@.subrange(a as int, k as int),
        decreases z - k,
    {
        assert(is_digit(v@[k as int]));
        let d = digit_value(v[k]);
        push_str(out, crate::text::digit_text(d as usize));
        assert(((('0' as u32) + d) as char) == v@[k as int]);
        assert(out@ =~= start + v@.subrange(a as int, k + 1));
        k = k + 1;
    }
}

/// How an out-of-range number with these integer and fraction digits is
/// displayed.
fn show_plain(neg: bool, iv: &Vec<char>, fv: &Vec<char>) -> (r: String)
    requires
        all_digits(iv@),
        all_digits(fv@),
    ensures
        r@ == show_value(neg, iv@, fv@),
{
    proof {
        reveal_strlit("-inf");
        reveal_strlit("inf");
        reveal_strlit("-");
        reveal_strlit("");
        reveal_strlit("0");
        reveal_strlit(".");
    }
    if reaches_overflow(iv) {
        return if neg {
            "-inf".to_owned()
        } else {
            "inf".to_owned()
        };
    }
    let ni = iv.len();
    let nf = fv.len();
    let i0 = skip_leading_zeros(iv, 0, ni);
    let z = drop_trailing_zeros(fv, 0, nf);
    assert(iv@.subrange(0, ni as int) =~= iv@);
    assert(fv@.subrange(0, nf as int) =~= fv@);
    let mut shown = String::new();
    if neg {
        push_str(&mut shown, "-");
    } else {
        push_str(&mut shown, "");
    }
    if i0 == ni {
        push_str(&mut shown, "0");
    } else {
        push_digits(&mut shown, iv, i0, ni);
    }
    if z == 0 {
        push_str(&mut shown, "");
    } else {
        push_str(&mut shown, ".");
        push_digits(&mut shown, fv, 0, z);
    }
    assert(shown@ =~= show_decimal(neg, iv@, fv@));
    shown
}

/// Whether `0.f` is at most `0.c`.
fn frac_le(f: &Vec<char>, c: &str) -> (r: bool)
    ensures
        r == frac_at_most(f@, c@),
{
    let cv = chars_of(c);
    let mut j: usize = 0;
    while j < f.len() || j < cv.len()
        invariant
            cv@ == c@,
            j <= f@.len() || j <= cv@.len(),
            frac_at_most(f@, c@) == frac_at_most_from(f@, c@, j as int),
        decreases f@.len() + cv@.len() - j,
    {
        let a = if j < f.len() {
            f[j]
        } else {
            '0'
        };
        let b = if j < cv.len() {
            cv[j]
        } else {
            '0'
        };
        if a < b {
            return true;
        }
        if a > b {
            return false;
        }
        j = j + 1;
    }
    true
}

/// The integer and fraction digits of the number whose digits are `d` with
/// the point after the first `p` of them.
fn plain_parts(d: &Vec<char>, p: i128) -> (r: (Vec<char>, Vec<char>))
    requires
        all_digits(d@),
        -150 <= p <= d@.len() + 40,
    ensures
        r.0@ == plain_int(d@, p as int),
        r.1@ == plain_frac(d@, p as int),
        all_digits(r.0@),
        all_digits(r.1@),
{
    let mut iv: Vec<char> = Vec::new();
    let mut fv: Vec<char> = Vec::new();
    let dl = d.len();
    if p <= 0 {
        let z = (0 - p) as usize;
        let mut k: usize = 0;
        while k < z
            invariant
                k <= z,
                fv@ == zeros(k as int),
            decreases z - k,
        {
            fv.push('0');
            k = k + 1;
            assert(fv@ =~= zeros(k as int));
        }
        let mut k: usize = 0;
        while k < dl
            invariant
                dl == d@.len(),
                k <= dl,
                fv@ == zeros(z as int) + d@.take(k as int),
            decreases dl - k,
        {
            fv.push(d[k]);
            k = k + 1;
            assert(fv@ =~= zeros(z as int) + d@.take(k as int));
        }
        assert(d@.take(dl as int) =~= d@);
        assert(iv@ =~= plain_int(d@, p as int));
    } else if p <= dl as i128 {
        let pu = p as usize;
        let mut k: usize = 0;
        while k < pu
            invariant
                pu <= dl == d@.len(),
                k <= pu,
                iv@ == d@.take(k as int),
            decreases pu - k,
        {
            iv.push(d[k]);
            k = k + 1;
            assert(iv@ =~= d@.take(k as int));
        }
        let mut k: usize = pu;
        while k < dl
            invariant
                pu <= k <= dl == d@.len(),
                fv@ == d@.subrange(pu as int, k as int),
            decreases dl - k,
        {
            fv.push(d[k]);
            k = k + 1;
            assert(fv@ =~= d@.subrange(pu as int, k as int));
        }
        if pu == dl {
            assert(iv@ =~= plain_int(d@, p as int));
            assert(fv@ =~= plain_frac(d@, p as int));
        } else {
            assert(fv@ =~= d@.skip(pu as int));
        }
    } else {
        let mut k: usize = 0;
        while k < dl
            invariant
                dl == d@.len(),
                k <= dl,
                iv@ == d@.take(k as int),
            decreases dl - k,
        {
            iv.push(d[k]);
            k = k + 1;
            assert(iv@ =~= d@.take(k as int));
        }
        assert(d@.take(dl as int) =~= d@);
        let z = (p - dl as i128) as usize;
        let mut k: usize = 0;
        while k < z
            invariant
                k <= z,
                iv@ == d@ + zeros(k as int),
            decreases z - k,
        {
            iv.push('0');
            k = k + 1;
            assert(iv@ =~= d@ + zeros(k as int));
        }
        assert(fv@ =~= plain_frac(d@, p as int));
    }
    let ghost i = plain_int(d@, p as int);
    let ghost f = plain_frac(d@, p as int);
    assert(iv@ == i);
    assert(fv@ == f);
    assert(all_digits(f)) by {
        assert forall|k: int| 0 <= k < f.len() implies is_digit(#[trigger] f[k]) by {
            if p <= 0 {
                if k >= -p {
                    assert(f[k] == d@[k + p]);
                }
            } else {
                assert(f[k] == d@[k + p]);
            }
        }
    }
    assert(all_digits(i)) by {
        assert forall|k: int| 0 <= k < i.len() implies is_digit(#[trigger] i[k]) by {
            if k < d@.len() {
                assert(i[k] == d@[k]);
            }
        }
    }
    (iv, fv)
}

/// The confidence for a point inside the digits or close before them.
fn confidence_near(neg: bool, d: &Vec<char>, p: i128) -> (r: (bool, u32))
    requires
        all_digits(d@),
        -150 <= p <= d@.len(),
    ensures
        r == confidence_of(neg, d@, p as int),
{
    let (iv, fv) = plain_parts(d, p);
    let ghost i = plain_int(d@, p as int);
    let ghost f = plain_frac(d@, p as int);
    let n = iv.len();
    let (_, i_zeros) = scan_digits(&iv, 0, n);
    assert(iv@.subrange(0, n as int) =~= i);
    let one = n > 0 && iv[n - 1] == '1' && scan_digits(&iv, 0, n - 1).1;
    proof {
        if n > 0 {
            assert(i.drop_last() =~= iv@.subrange(0, n - 1));
        }
    }
    assert(one == is_one(i));
    let ok = if neg {
        i_zeros && frac_le(&fv, "000000000000000000000000000000000000000000000700649232162408535461864791644958065640130970938257885878534141944895541342930300743319094181060791015625")
    } else {
        i_zeros || (one && frac_le(&fv, "000000059604644775390625"))
    };
    let stored = if one {
        10000
    } else {
        assert(fv@.subrange(0, fv@.len() as int) =~= f);
        frac_value(&fv, 0, fv.len())
    };
    (ok, stored)
}

/// Parses what a confidence field holds.
#[verifier::spinoff_prover]
#[verifier::rlimit(40)]
pub fn parse_confidence(t: &str) -> (r: ConfidenceValue)
    ensures
        r@ == spec_confidence(t@),
{
    let cs = chars_of(t);
    let n = cs.len();
    let neg = n > 0 && cs[0] == '-';
    let b0: usize = if n > 0 && (cs[0] == '-' || cs[0] == '+') {
        1
    } else {
        0
    };
    let ghost body = if t@.len() > 0 && (t@[0] == '-' || t@[0] == '+') {
        t@.skip(1)
    } else {
        t@
    };
    assert(body =~= cs@.subrange(b0 as int, n as int));
    proof {
        reveal_strlit("inf");
        reveal_strlit("INF");
        reveal_strlit("infinity");
        reveal_strlit("INFINITY");
        reveal_strlit("nan");
        reveal_strlit("NAN");
        reveal_strlit("-inf");
        reveal_strlit("NaN");
    }
    if word_at(&cs, b0, n, "inf", "INF") || word_at(&cs, b0, n, "infinity", "INFINITY") {
        if neg {
            return ConfidenceValue::OutOfRange("-inf".to_owned());
        } else {
            return ConfidenceValue::OutOfRange("inf".to_owned());
        }
    }
    if word_at(&cs, b0, n, "nan", "NAN") {
        return ConfidenceValue::OutOfRange("NaN".to_owned());
    }
    let q = exp_mark(&cs, b0, n);
    proof {
        if q < n {
            assert(body.take(q - b0) =~= cs@.subrange(b0 as int, q as int));
            assert(body.skip(q - b0 + 1) =~= cs@.subrange(q + 1, n as int));
        } else {
            assert(body =~= cs@.subrange(b0 as int, q as int));
        }
    }
    let (p, fs, fe) = match mantissa_parts(&cs, b0, q) {
        None => {
            return ConfidenceValue::Invalid;
        },
        Some(x) => x,
    };
    let ghost ip = cs@.subrange(b0 as int, p as int);
    let ghost fp = cs@.subrange(fs as int, fe as int);
    let cap: u128 = (n as u128) + 200;
    let (eneg, size) = if q < n {
        match exponent_value(&cs, q + 1, n, cap) {
            None => {
                return ConfidenceValue::Invalid;
            },
            Some(e) => e,
        }
    } else {
        (false, Some(0u128))
    };
    let ghost x: int = if q < n {
        parse_exponent(cs@.subrange(q + 1, n as int))->0
    } else {
        0
    };
    let mut d: Vec<char> = Vec::new();
    let mut k: usize = b0;
    while k < p
        invariant
            b0 <= k <= p <= cs@.len(),
            d@ == cs@.subrange(b0 as int, k as int),
        decreases p - k,
    {
        d.push(cs[k]);
        k = k + 1;
        assert(d@ =~= cs@.subrange(b0 as int, k as int));
    }
    let mut k: usize = fs;
    while k < fe
        invariant
            b0 <= p <= fs <= k <= fe <= cs@.len(),
            d@ == ip + cs@.subrange(fs as int, k as int),
            ip == cs@.subrange(b0 as int, p as int),
        decreases fe - k,
    {
        d.push(cs[k]);
        k = k + 1;
        assert(d@ =~= ip + cs@.subrange(fs as int, k as int));
    }
    assert(d@ == ip + fp);
    assert(all_digits(d@)) by {
        assert forall|j: int| 0 <= j < d@.len() implies is_digit(#[trigger] d@[j]) by {
            if j < ip.len() {
                assert(d@[j] == ip[j]);
            } else {
                assert(d@[j] == fp[j - ip.len()]);
            }
        }
    }
    let ghost place = ip.len() + x;
    let dl = d.len();
    let ip_len = (p - b0) as i128;
    let ghost i_all = plain_int(ip + fp, place);
    let ghost f_all = plain_frac(ip + fp, place);
    let (ok, stored, shown) = match size {
        None => {
            if eneg {
                proof {
                    lemma_point_before_digits(neg, d@, place);
                }
                (true, 0u32, String::new())
            } else {
                proof {
                    lemma_point_past_digits(neg, d@, place);
                }
                let (_, z) = scan_digits(&d, 0, dl);
                assert(d@.subrange(0, dl as int) =~= d@);
                if z {
                    (true, 0u32, String::new())
                } else {
                    proof {
                        lemma_overflow_far(d@, place);
                        reveal_strlit("-inf");
                        reveal_strlit("inf");
                    }
                    let s = if neg {
                        "-inf".to_owned()
                    } else {
                        "inf".to_owned()
                    };
                    (false, 0u32, s)
                }
            }
        },
        Some(v) => {
            let pp: i128 = if eneg {
                ip_len - v as i128
            } else {
                ip_len + v as i128
            };
            assert(pp as int == place);
            if pp > dl as i128 {
                proof {
                    lemma_point_past_digits(neg, d@, place);
                }
                let (_, z) = scan_digits(&d, 0, dl);
                assert(d@.subrange(0, dl as int) =~= d@);
                if z {
                    (true, 0u32, String::new())
                } else if pp >= dl as i128 + 39 {
                    proof {
                        lemma_overflow_far(d@, place);
                        reveal_strlit("-inf");
                        reveal_strlit("inf");
                    }
                    let s = if neg {
                        "-inf".to_owned()
                    } else {
                        "inf".to_owned()
                    };
                    (false, 0u32, s)
                } else {
                    let (iv, fv) = plain_parts(&d, pp);
                    (false, 0u32, show_plain(neg, &iv, &fv))
                }
            } else if pp < -150 {
                proof {
                    lemma_point_before_digits(neg, d@, place);
                }
                (true, 0u32, String::new())
            } else {
                let (ok, stored) = confidence_near(neg, &d, pp);
                if ok {
                    (true, stored, String::new())
                } else {
                    let (iv, fv) = plain_parts(&d, pp);
                    (false, stored, show_plain(neg, &iv, &fv))
                }
            }
        },
    };
    assert(ok == confidence_of(neg, ip + fp, place).0);
    assert(ok ==> stored == confidence_of(neg, ip + fp, place).1);
    assert(!ok ==> shown@ == show_value(neg, i_all, f_all));
    if ok {
        ConfidenceValue::Valid(stored)
    } else {
        ConfidenceValue::OutOfRange(shown)
    }
}


// ---------------------------------------------------------------------------
// Field lines of a rule block
// ---------------------------------------------------------------------------

/// Three double quotes, which open and close a multi-line value.
pub open spec fn triple_quote() -> Seq<char> {
    seq!['"', '"', '"']
}

/// An error message about line `n`.
pub open spec fn line_msg(n: int, rest: Seq<char>) -> Seq<char> {
    "line "@ + decimal(n as nat) + ": "@ + rest
}

/// The line starts with a space or a tab.
pub open spec fn indented(line: Seq<char>) -> bool {
    line.len() > 0 && (line[0] == ' ' || line[0] == '\t')
}

/// A trimmed line that is blank or a comment.
pub open spec fn skippable(t: Seq<char>) -> bool {
    t.len() == 0 || t[0] == '#'
}

/// A multi-line value: the lines from `k` on, trimmed, are added to `parts`
/// up to and including the first that holds three double quotes; the parts
/// are joined by newlines. Also where reading goes on.
pub open spec fn multiline(ls: Seq<Seq<char>>, k: int, parts: Seq<Seq<char>>) -> (Seq<char>, int)
    decreases ls.len() - k,
{
    if k < 0 || k >= ls.len() {
        (join_with(parts, "\n"@), k)
    } else {
        let ml = trimmed(ls[k]);
        if contains_seq(ml, triple_quote()) {
            (join_with(parts.push(ml), "\n"@), k + 1)
        } else {
            multiline(ls, k + 1, parts.push(ml))
        }
    }
}

/// Reading a multi-line value does not go back.
pub proof fn lemma_multiline(ls: Seq<Seq<char>>, k: int, parts: Seq<Seq<char>>)
    ensures
        multiline(ls, k, parts).1 >= k,
        0 <= k <= ls.len() ==> multiline(ls, k, parts).1 <= ls.len(),
    decreases ls.len() - k,
{
    if 0 <= k < ls.len() && !contains_seq(trimmed(ls[k]), triple_quote()) {
        lemma_multiline(ls, k + 1, parts.push(trimmed(ls[k])));
    }
}

/// A field line of a rule block: its name, its value and its line number.
pub struct FieldView {
    pub name: Seq<char>,
    pub value: Seq<char>,
    pub line: int,
}

/// A field line of a rule block.
pub struct Field {
    pub name: String,
    pub value: String,
    pub line: usize,
}

impl View for Field {
    type V = FieldView;

    open spec fn view(&self) -> FieldView {
        FieldView { name: self.name@, value: self.value@, line: self.line as int }
    }
}

/// The views of a list of fields.
pub open spec fn field_views(fs: Seq<Field>) -> Seq<FieldView> {
    Seq::new(fs.len(), |k: int| fs[k]@)
}

/// The field lines of a rule block read from line `j` on, the errors found
/// among them, and the line where the block ends.
pub struct FieldsOut {
    pub fields: Seq<FieldView>,
    pub errors: Seq<Seq<char>>,
    pub next: int,
}

/// Reads the field lines of a rule block from line `j`: blank and comment
/// lines are skipped, the block ends at the first other line that is not
/// indented, a line `name: value` is a field (its value continues over the
/// following lines when it opens three double quotes it does not close),
/// and any other line is an error.
pub open spec fn fields_from(ls: Seq<Seq<char>>, j: int) -> FieldsOut
    decreases ls.len() - j,
{
    if j < 0 || j >= ls.len() {
        FieldsOut { fields: seq![], errors: seq![], next: j }
    } else {
        let line = ls[j];
        let ft = trimmed(line);
        if skippable(ft) {
            fields_from(ls, j + 1)
        } else if !indented(line) {
            FieldsOut { fields: seq![], errors: seq![], next: j }
        } else {
            match find_char(ft, ':') {
                Some(c) => {
                    let name = trimmed(ft.take(c));
                    let v0 = trimmed(ft.skip(c + 1));
                    let vn = if starts_with(v0, triple_quote()) && !contains_seq(
                        v0.skip(3),
                        triple_quote(),
                    ) {
                        multiline(ls, j + 1, seq![v0])
                    } else {
                        (v0, j + 1)
                    };
                    proof {
                        lemma_multiline(ls, j + 1, seq![v0]);
                        assert(j + 1 <= vn.1 <= ls.len());
                    }
                    let rest = fields_from(ls, vn.1);
                    FieldsOut {
                        fields: seq![FieldView { name, value: vn.0, line: j + 1 }] + rest.fields,
                        ..rest
                    }
                },
                None => {
                    let rest = fields_from(ls, j + 1);
                    FieldsOut {
                        errors: seq![line_msg(j + 1, "expected 'field: value', got: "@ + ft)]
                            + rest.errors,
                        ..rest
                    }
                },
            }
        }
    }
}

/// Whether the text starts with `p`.
pub fn str_starts_with(s: &str, p: &str) -> (r: bool)
    ensures
        r == starts_with(s@, p@),
{
    let cs = chars_of(s);
    let pc = chars_of(p);
    assert(cs@.skip(0) =~= cs@);
    crate::text::matches_at(&cs, 0, &pc)
}

/// Whether `p` occurs in the text.
pub fn str_contains(s: &str, p: &str) -> (r: bool)
    ensures
        r == contains_seq(s@, p@),
{
    let cs = chars_of(s);
    let pc = chars_of(p);
    has_seq(&cs, &pc)
}

/// Whether the text starts with the character `c`.
fn first_is(s: &str, c: char) -> (r: bool)
    ensures
        r == (s@.len() > 0 && s@[0] == c),
{
    let cs = chars_of(s);
    cs.len() > 0 && cs[0] == c
}

/// `line N: ` followed by nothing yet.
fn line_prefix(n: usize) -> (r: String)
    ensures
        r@ == "line "@ + decimal(n as nat) + ": "@,
{
    let mut s = String::new();
    push_str(&mut s, "line ");
    push_decimal(&mut s, n);
    push_str(&mut s, ": ");
    s
}

/// The texts of a list of string slices.
pub open spec fn slices_view(v: Seq<&str>) -> Seq<Seq<char>> {
    Seq::new(v.len(), |k: int| v[k]@)
}

/// Reads a multi-line value from line `k0` on, after its first part `first`.
fn read_multiline(lines: &Vec<&str>, k0: usize, first: &str) -> (r: (String, usize))
    requires
        k0 <= lines@.len(),
    ensures
        (r.0@, r.1 as int) == multiline(slices_view(lines@), k0 as int, seq![first@]),
{
    let ghost ls = slices_view(lines@);
    let mut acc = first.to_owned();
    let ghost mut parts: Seq<Seq<char>> = seq![first@];
    let mut k = k0;
    proof {
        reveal_strlit("\n");
        reveal_strlit("\"\"\"");
    }
    while k < lines.len()
        invariant
            ls == slices_view(lines@),
            k0 <= k <= lines@.len(),
            parts.len() > 0,
            acc@ == join_with(parts, "\n"@),
            multiline(ls, k0 as int, seq![first@]) == multiline(ls, k as int, parts),
            "\"\"\""@ == triple_quote(),
        decreases lines@.len() - k,
    {
        let ml = trim_str(lines[k]);
        assert(ls[k as int] == lines@[k as int]@);
        push_str(&mut acc, "\n");
        push_str(&mut acc, ml);
        proof {
            assert(parts.push(ml@).drop_last() =~= parts);
            parts = parts.push(ml@);
        }
        if str_contains(ml, "\"\"\"") {
            return (acc, k + 1);
        }
        k = k + 1;
    }
    (acc, k)
}


/// Reads the field lines of a rule block from line `j0`.
fn collect_fields(lines: &Vec<&str>, j0: usize) -> (r: (Vec<Field>, Vec<String>, usize))
    requires
        j0 <= lines@.len(),
    ensures
        field_views(r.0@) == fields_from(slices_view(lines@), j0 as int).fields,
        texts(r.1@) == fields_from(slices_view(lines@), j0 as int).errors,
        r.2 as int == fields_from(slices_view(lines@), j0 as int).next,
{
    let ghost ls = slices_view(lines@);
    let mut fields: Vec<Field> = Vec::new();
    let mut errors: Vec<String> = Vec::new();
    let mut j = j0;
    proof {
        reveal_strlit("\"\"\"");
    }
    while j < lines.len()
        invariant
            ls == slices_view(lines@),
            j0 <= j <= lines@.len(),
            "\"\"\""@ == triple_quote(),
            fields_from(ls, j0 as int).fields == field_views(fields@) + fields_from(ls, j as int).fields,
            fields_from(ls, j0 as int).errors == texts(errors@) + fields_from(ls, j as int).errors,
            fields_from(ls, j0 as int).next == fields_from(ls, j as int).next,
        decreases lines@.len() - j,
    {
        let line: &str = lines[j];
        assert(ls[j as int] == line@);
        let ft = trim_str(line);
        if ft.is_empty() || first_is(ft, '#') {
            j = j + 1;
        } else if !(first_is(line, ' ') || first_is(line, '\t')) {
            assert(fields_from(ls, j as int).fields =~= Seq::<FieldView>::empty());
            assert(fields_from(ls, j as int).errors =~= Seq::<Seq<char>>::empty());
            assert(field_views(fields@) =~= field_views(fields@) + Seq::<FieldView>::empty());
            assert(texts(errors@) =~= texts(errors@) + Seq::<Seq<char>>::empty());
            return (fields, errors, j);
        } else {
            let fcs = chars_of(ft);
            match first_char(&fcs, ':') {
                Some(c) => {
                    proof {
                        crate::text::lemma_find_char(ft@, ':', 0);
                    }
                    let nf = fcs.len();
                    assert(c < nf);
                    let offs = crate::text::char_offsets(ft);
                    let name = trim_str(crate::text::char_slice(ft, &offs, 0, c));
                    let v0 = trim_str(crate::text::char_slice(ft, &offs, c + 1, nf));
                    assert(ft@.take(c as int) =~= ft@.subrange(0, c as int));
                    assert(ft@.skip(c + 1) =~= ft@.subrange(c + 1, ft@.len() as int));
                    let multi = if str_starts_with(v0, "\"\"\"") {
                        let vcs = chars_of(v0);
                        let voffs = crate::text::char_offsets(v0);
                        let rest = crate::text::char_slice(v0, &voffs, 3, vcs.len());
                        assert(v0@.skip(3) =~= v0@.subrange(3, v0@.len() as int));
                        !str_contains(rest, "\"\"\"")
                    } else {
                        false
                    };
                    let (value, nj) = if multi {
                        read_multiline(lines, j + 1, v0)
                    } else {
                        (v0.to_owned(), j + 1)
                    };
                    proof {
                        lemma_multiline(ls, j + 1, seq![v0@]);
                    }
                    let ghost before = field_views(fields@);
                    let f = Field { name: name.to_owned(), value, line: j + 1 };
                    fields.push(f);
                    assert(field_views(fields@) =~= before.push(f@));
                    assert(fields_from(ls, j as int).fields =~= seq![f@] + fields_from(ls, nj as int).fields);
                    assert(fields_from(ls, j as int).errors == fields_from(ls, nj as int).errors);
                    assert(fields_from(ls, j as int).next == fields_from(ls, nj as int).next);
                    j = nj;
                },
                None => {
                    let mut e = line_prefix(j + 1);
                    push_str(&mut e, "expected 'field: value', got: ");
                    push_str(&mut e, ft);
                    let ghost before = texts(errors@);
                    assert(e@ =~= line_msg(j + 1, "expected 'field: value', got: "@ + ft@));
                    errors.push(e);
                    assert(texts(errors@) =~= before.push(e@));
                    assert(fields_from(ls, j as int).errors =~= seq![e@] + fields_from(ls, j + 1).errors);
                    j = j + 1;
                },
            }
        }
    }
    assert(fields_from(ls, j as int).fields =~= Seq::<FieldView>::empty());
    assert(fields_from(ls, j as int).errors =~= Seq::<Seq<char>>::empty());
    assert(field_views(fields@) =~= field_views(fields@) + Seq::<FieldView>::empty());
    assert(texts(errors@) =~= texts(errors@) + Seq::<Seq<char>>::empty());
    (fields, errors, j)
}


// ---------------------------------------------------------------------------
// The fields of a rule block
// ---------------------------------------------------------------------------

/// The texts one after the other.
pub open spec fn concat_all(ss: Seq<Seq<char>>) -> Seq<char>
    decreases ss.len(),
{
    if ss.len() == 0 {
        seq![]
    } else {
        concat_all(ss.drop_last()) + ss.last()
    }
}

/// The lines of a text, each trimmed, one after the other.
pub open spec fn joined_trimmed_lines(s: Seq<char>) -> Seq<char> {
    let ls = line_texts(encode_utf8(s));
    concat_all(Seq::new(ls.len(), |k: int| trimmed(ls[k])))
}

/// The pattern a `match` value gives: a triple-quoted value is the text up
/// to its last triple quote, its lines trimmed and joined; any other value
/// loses its surrounding quotes.
pub open spec fn match_value(v: Seq<char>) -> Seq<char> {
    if starts_with(v, triple_quote()) {
        let e = match rfind_seq(v, triple_quote()) {
            Some(e) => e,
            None => v.len() as int,
        };
        let inner = if e > 3 {
            v.subrange(3, e)
        } else {
            v.skip(3)
        };
        joined_trimmed_lines(inner)
    } else {
        spec_strip_quotes(v)
    }
}

/// The action a `fix` value names.
pub open spec fn fix_value(v: Seq<char>) -> FixView {
    if v == "delete"@ {
        FixView::Delete
    } else if v == "delete-line"@ {
        FixView::DeleteLine
    } else if v == "flag"@ {
        FixView::Flag
    } else {
        FixView::Replace(spec_strip_quotes(v))
    }
}

/// The message for a field name that is not known.
pub open spec fn unknown_field_msg(u: Seq<char>) -> Seq<char> {
    match spec_suggest_field(u) {
        Some(s) => "unknown field \""@ + u + "\" (did you mean \""@ + s + "\"?)"@,
        None => "unknown field \""@ + u + "\""@,
    }
}

/// What the fields of a rule block have set so far.
pub struct DraftView {
    pub pattern: Option<Seq<char>>,
    pub fix: Option<FixView>,
    pub message: Option<Seq<char>>,
    pub confidence: u32,
    pub globs: Seq<Seq<char>>,
    pub severity: Severity,
    pub errors: Seq<Seq<char>>,
}

/// Nothing set yet: confidence 0.75, severity warn.
pub open spec fn empty_draft() -> DraftView {
    DraftView {
        pattern: None,
        fix: None,
        message: None,
        confidence: 7500,
        globs: seq![],
        severity: Severity::Warn,
        errors: seq![],
    }
}

/// The draft after the first `n` glob pieces of a `files` field on line
/// `ln`: each non-blank piece, trimmed, is kept when it compiles and is an
/// error otherwise.
pub open spec fn add_globs(d: DraftView, ps: Seq<Seq<char>>, ln: int, n: int) -> DraftView
    decreases n,
{
    if n <= 0 {
        d
    } else {
        let p = add_globs(d, ps, ln, n - 1);
        let g = trimmed(ps[n - 1]);
        if g.len() == 0 {
            p
        } else {
            match glob_error_text(g) {
                None => DraftView { globs: p.globs.push(g), ..p },
                Some(e) => DraftView {
                    errors: p.errors.push(
                        line_msg(ln, "invalid glob pattern '"@ + g + "': "@ + e),
                    ),
                    ..p
                },
            }
        }
    }
}

/// What one field does to the draft.
pub open spec fn apply_field(d: DraftView, f: FieldView) -> DraftView {
    if f.name == "match"@ {
        DraftView { pattern: Some(match_value(f.value)), ..d }
    } else if f.name == "fix"@ {
        DraftView { fix: Some(fix_value(trimmed(f.value))), ..d }
    } else if f.name == "message"@ {
        DraftView { message: Some(spec_strip_quotes(f.value)), ..d }
    } else if f.name == "confidence"@ {
        match spec_confidence(f.value) {
            ConfidenceView::Valid(c) => DraftView { confidence: c, ..d },
            ConfidenceView::OutOfRange(shown) => DraftView {
                errors: d.errors.push(
                    line_msg(f.line, "confidence must be between 0.0 and 1.0, got "@ + shown),
                ),
                ..d
            },
            ConfidenceView::Invalid => DraftView {
                errors: d.errors.push(line_msg(f.line, "invalid confidence value: "@ + f.value)),
                ..d
            },
        }
    } else if f.name == "files"@ {
        let ps = split_commas(spec_strip_quotes(f.value));
        add_globs(d, ps, f.line, ps.len() as int)
    } else if f.name == "severity"@ {
        let v = trimmed(f.value);
        if v == "warn"@ {
            DraftView { severity: Severity::Warn, ..d }
        } else if v == "error"@ {
            DraftView { severity: Severity::Error, ..d }
        } else {
            DraftView {
                errors: d.errors.push(
                    line_msg(f.line, "invalid severity: "@ + v + " (expected 'warn' or 'error')"@),
                ),
                ..d
            }
        }
    } else {
        DraftView { errors: d.errors.push(line_msg(f.line, unknown_field_msg(f.name))), ..d }
    }
}

/// The draft after the first `n` fields.
pub open spec fn draft_after(fs: Seq<FieldView>, n: int) -> DraftView
    decreases n,
{
    if n <= 0 {
        empty_draft()
    } else {
        apply_field(draft_after(fs, n - 1), fs[n - 1])
    }
}

/// The pattern holds a regular-expression meta character.
pub open spec fn has_regex_meta(p: Seq<char>) -> bool {
    exists|k: int| 0 <= k < p.len() && is_regex_meta(#[trigger] p[k])
}

/// The rule a block named `name` on line `start` gives once its fields are
/// read, and the errors of the block: a rule needs a pattern and a fix, and
/// a pattern with meta characters must compile.
pub open spec fn finish_rule(name: Seq<char>, start: int, d: DraftView) -> (Option<ParsedView>, Seq<Seq<char>>) {
    let e1 = if d.pattern is None {
        d.errors.push(line_msg(start, "rule '"@ + name + "' missing required 'match' field"@))
    } else {
        d.errors
    };
    let e2 = if d.fix is None {
        e1.push(line_msg(start, "rule '"@ + name + "' missing required 'fix' field"@))
    } else {
        e1
    };
    match (d.pattern, d.fix) {
        (Some(p), Some(fix)) => {
            let is_regex = has_regex_meta(p);
            match regex_error_text(p) {
                Some(e) if is_regex => (
                    None,
                    e2.push(line_msg(start, "rule '"@ + name + "' has invalid regex: "@ + e)),
                ),
                _ => (
                    Some(
                        ParsedView {
                            name,
                            pattern: p,
                            is_regex,
                            fix,
                            message: d.message,
                            confidence: d.confidence,
                            file_globs: d.globs,
                            severity: d.severity,
                            source_line: start,
                        },
                    ),
                    e2,
                ),
            }
        },
        _ => (None, e2),
    }
}


/// The fields of a rule block read so far.
pub struct RuleDraft {
    pub pattern: Option<String>,
    pub fix: Option<FixAction>,
    pub message: Option<String>,
    pub confidence: u32,
    pub globs: Vec<String>,
    pub severity: Severity,
    pub errors: Vec<String>,
}

impl View for RuleDraft {
    type V = DraftView;

    open spec fn view(&self) -> DraftView {
        DraftView {
            pattern: opt_text(self.pattern),
            fix: match self.fix {
                Some(f) => Some(f@),
                None => None,
            },
            message: opt_text(self.message),
            confidence: self.confidence,
            globs: texts(self.globs@),
            severity: self.severity,
            errors: texts(self.errors@),
        }
    }
}

/// The lines of a text, each trimmed, one after the other.
fn join_trimmed(s: &str) -> (r: String)
    ensures
        r@ == joined_trimmed_lines(s@),
{
    let rs = lines_of(s);
    let ghost ls = line_texts(s.spec_bytes());
    let ghost tl = Seq::new(ls.len(), |k: int| trimmed(ls[k]));
    let mut out = String::new();
    let mut k: usize = 0;
    while k < rs.len()
        invariant
            rs@.len() == ls.len() == tl.len(),
            ls == line_texts(s.spec_bytes()),
            tl == Seq::new(ls.len(), |q: int| trimmed(ls[q])),
            ranges_ok(s.spec_bytes(), rs@),
            forall|q: int|
                0 <= q < rs@.len() ==> rs@[q].0 as int == line_ranges(s.spec_bytes())[q].0 && rs@[q].1 as int
                    == line_ranges(s.spec_bytes())[q].1,
            k <= rs@.len(),
            out@ == concat_all(tl.take(k as int)),
        decreases rs@.len() - k,
    {
        let (a, z) = rs[k];
        let line = substring(s, a, z);
        let t = trim_str(line);
        push_str(&mut out, t);
        assert(tl.take(k + 1).drop_last() =~= tl.take(k as int));
        assert(tl.take(k + 1).last() == t@);
        k = k + 1;
    }
    assert(tl.take(rs@.len() as int) =~= tl);
    out
}

/// The pattern a `match` value gives.
fn read_match_value(v: &str) -> (r: String)
    ensures
        r@ == match_value(v@),
{
    proof {
        reveal_strlit("\"\"\"");
        assert("\"\"\""@ =~= triple_quote());
    }
    if str_starts_with(v, "\"\"\"") {
        let vcs = chars_of(v);
        let tq = chars_of("\"\"\"");
        let offs = crate::text::char_offsets(v);
        let n = vcs.len();
        let e = match last_seq(&vcs, &tq) {
            Some(e) => e,
            None => n,
        };
        let inner = if e > 3 {
            crate::text::char_slice(v, &offs, 3, e)
        } else {
            assert(v@.skip(3) =~= v@.subrange(3, n as int));
            crate::text::char_slice(v, &offs, 3, n)
        };
        join_trimmed(inner)
    } else {
        strip_quotes(v).to_owned()
    }
}

/// A message `line N: ` followed by the parts.
fn line_error(n: usize, parts: &[&str]) -> (r: String)
    ensures
        r@ == "line "@ + decimal(n as nat) + ": "@ + concat_all(slices_view(parts@)),
{
    let mut s = line_prefix(n);
    let ghost start = s@;
    let mut k: usize = 0;
    while k < parts.len()
        invariant
            k <= parts@.len(),
            s@ == start + concat_all(slices_view(parts@).take(k as int)),
        decreases parts@.len() - k,
    {
        push_str(&mut s, parts[k]);
        assert(slices_view(parts@).take(k + 1).drop_last() =~= slices_view(parts@).take(k as int));
        assert(slices_view(parts@).take(k + 1).last() == parts@[k as int]@);
        k = k + 1;
    }
    assert(slices_view(parts@).take(parts@.len() as int) =~= slices_view(parts@));
    s
}

/// Adds the globs of a `files` value on line `ln` to the draft.
fn read_globs(d: &mut RuleDraft, v: &str, ln: usize)
    ensures
        final(d)@ == add_globs(
            old(d)@,
            split_commas(spec_strip_quotes(v@)),
            ln as int,
            split_commas(spec_strip_quotes(v@)).len() as int,
        ),
{
    let s = strip_quotes(v);
    let scs = chars_of(s);
    let offs = crate::text::char_offsets(s);
    let pieces = comma_pieces(&scs);
    let ghost ps = split_commas(scs@);
    assert(scs@ == s@);
    let ghost start = d@;
    let mut k: usize = 0;
    while k < pieces.len()
        invariant
            scs@ == s@,
            ps == split_commas(scs@),
            offs@.len() == s@.len() + 1,
            forall|q: int| 0 <= q <= s@.len() ==> offs@[q] as int == encode_utf8(s@.take(q)).len(),
            pieces@.len() == ps.len(),
            forall|q: int| 0 <= q < pieces@.len() ==> (#[trigger] pieces@[q]).0 <= pieces@[q].1 <= scs@.len(),
            forall|q: int|
                0 <= q < pieces@.len() ==> scs@.subrange(pieces@[q].0 as int, pieces@[q].1 as int)
                    == #[trigger] split_commas(scs@)[q],
            k <= pieces@.len(),
            d@ == add_globs(start, ps, ln as int, k as int),
        decreases pieces@.len() - k,
    {
        let (a, z) = pieces[k];
        assert(scs@.subrange(a as int, z as int) == split_commas(scs@)[k as int]);
        let g = trim_str(crate::text::char_slice(s, &offs, a, z));
        if !g.is_empty() {
            match glob_error(g) {
                None => {
                    let ghost before = d.globs@;
                    d.globs.push(g.to_owned());
                    assert(texts(d.globs@) =~= texts(before).push(g@));
                },
                Some(e) => {
                    let msg = line_error(ln, &["invalid glob pattern '", g, "': ", e.as_str()]);
                    proof {
                        reveal_with_fuel(concat_all, 5);
                    }
                    assert(msg@ =~= line_msg(ln as int, "invalid glob pattern '"@ + g@ + "': "@ + e@));
                    let ghost before = d.errors@;
                    d.errors.push(msg);
                    assert(texts(d.errors@) =~= texts(before).push(msg@));
                },
            }
        }
        k = k + 1;
    }
}

/// Reads one field into the draft.
fn read_field(d: &mut RuleDraft, f: &Field)
    ensures
        final(d)@ == apply_field(old(d)@, f@),
{
    let name = f.name.as_str();
    let v = f.value.as_str();
    if str_eq(name, "match") {
        d.pattern = Some(read_match_value(v));
    } else if str_eq(name, "fix") {
        let val = trim_str(v);
        let fix = if str_eq(val, "delete") {
            FixAction::Delete
        } else if str_eq(val, "delete-line") {
            FixAction::DeleteLine
        } else if str_eq(val, "flag") {
            FixAction::Flag
        } else {
            FixAction::Replace(strip_quotes(val).to_owned())
        };
        d.fix = Some(fix);
    } else if str_eq(name, "message") {
        d.message = Some(strip_quotes(v).to_owned());
    } else if str_eq(name, "confidence") {
        match parse_confidence(v) {
            ConfidenceValue::Valid(c) => {
                d.confidence = c;
            },
            ConfidenceValue::OutOfRange(shown) => {
                let msg = line_error(
                    f.line,
                    &["confidence must be between 0.0 and 1.0, got ", shown.as_str()],
                );
                proof {
                    reveal_with_fuel(concat_all, 3);
                }
                assert(msg@ =~= line_msg(f.line as int, "confidence must be between 0.0 and 1.0, got "@ + shown@));
                let ghost before = d.errors@;
                d.errors.push(msg);
                assert(texts(d.errors@) =~= texts(before).push(msg@));
            },
            ConfidenceValue::Invalid => {
                let msg = line_error(f.line, &["invalid confidence value: ", v]);
                proof {
                    reveal_with_fuel(concat_all, 3);
                }
                assert(msg@ =~= line_msg(f.line as int, "invalid confidence value: "@ + v@));
                let ghost before = d.errors@;
                d.errors.push(msg);
                assert(texts(d.errors@) =~= texts(before).push(msg@));
            },
        }
    } else if str_eq(name, "files") {
        read_globs(d, v, f.line);
    } else if str_eq(name, "severity") {
        let val = trim_str(v);
        if str_eq(val, "warn") {
            d.severity = Severity::Warn;
        } else if str_eq(val, "error") {
            d.severity = Severity::Error;
        } else {
            let msg = line_error(f.line, &["invalid severity: ", val, " (expected 'warn' or 'error')"]);
            proof {
                reveal_with_fuel(concat_all, 4);
            }
            assert(msg@ =~= line_msg(f.line as int, "invalid severity: "@ + val@ + " (expected 'warn' or 'error')"@));
            let ghost before = d.errors@;
            d.errors.push(msg);
            assert(texts(d.errors@) =~= texts(before).push(msg@));
        }
    } else {
        let msg = match suggest_field(name) {
            Some(s) => {
                let m = line_error(
                    f.line,
                    &["unknown field \"", name, "\" (did you mean \"", s.as_str(), "\"?)"],
                );
                proof {
                    reveal_with_fuel(concat_all, 6);
                }
                m
            },
            None => {
                let m = line_error(f.line, &["unknown field \"", name, "\""]);
                proof {
                    reveal_with_fuel(concat_all, 4);
                }
                m
            },
        };
        assert(msg@ =~= line_msg(f.line as int, unknown_field_msg(name@)));
        let ghost before = d.errors@;
        d.errors.push(msg);
        assert(texts(d.errors@) =~= texts(before).push(msg@));
    }
}


/// The rule a block gives once its fields are read, and the block's errors.
fn finish(name: &str, start: usize, d: RuleDraft) -> (r: (Option<ParsedRule>, Vec<String>))
    ensures
        match r.0 {
            Some(p) => finish_rule(name@, start as int, d@).0 == Some(p@),
            None => finish_rule(name@, start as int, d@).0 is None,
        },
        texts(r.1@) == finish_rule(name@, start as int, d@).1,
{
    let ghost dv = d@;
    let mut errors = d.errors;
    proof {
        reveal_with_fuel(concat_all, 4);
    }
    if d.pattern.is_none() {
        let msg = line_error(start, &["rule '", name, "' missing required 'match' field"]);
        assert(msg@ =~= line_msg(start as int, "rule '"@ + name@ + "' missing required 'match' field"@));
        let ghost before = errors@;
        errors.push(msg);
        assert(texts(errors@) =~= texts(before).push(msg@));
    }
    if d.fix.is_none() {
        let msg = line_error(start, &["rule '", name, "' missing required 'fix' field"]);
        assert(msg@ =~= line_msg(start as int, "rule '"@ + name@ + "' missing required 'fix' field"@));
        let ghost before = errors@;
        errors.push(msg);
        assert(texts(errors@) =~= texts(before).push(msg@));
    }
    match (d.pattern, d.fix) {
        (Some(p), Some(fix)) => {
            let is_regex = is_regex_pattern(p.as_str());
            if is_regex {
                if let Some(e) = regex_error(p.as_str()) {
                    let msg = line_error(start, &["rule '", name, "' has invalid regex: ", e.as_str()]);
                    proof {
                        reveal_with_fuel(concat_all, 5);
                    }
                    assert(msg@ =~= line_msg(start as int, "rule '"@ + name@ + "' has invalid regex: "@ + e@));
                    let ghost before = errors@;
                    errors.push(msg);
                    assert(texts(errors@) =~= texts(before).push(msg@));
                    return (None, errors);
                }
            }
            let rule = ParsedRule {
                name: name.to_owned(),
                pattern: p,
                is_regex,
                fix,
                message: d.message,
                confidence: d.confidence,
                file_globs: d.globs,
                severity: d.severity,
                source_line: start,
            };
            (Some(rule), errors)
        },
        _ => (None, errors),
    }
}

/// The draft after reading the fields.
fn read_fields(fields: &Vec<Field>) -> (r: RuleDraft)
    ensures
        r@ == draft_after(field_views(fields@), fields@.len() as int),
{
    let ghost fv = field_views(fields@);
    let mut d = RuleDraft {
        pattern: None,
        fix: None,
        message: None,
        confidence: 7500,
        globs: Vec::new(),
        severity: Severity::Warn,
        errors: Vec::new(),
    };
    assert(texts(d.globs@) =~= Seq::<Seq<char>>::empty());
    assert(texts(d.errors@) =~= Seq::<Seq<char>>::empty());
    assert(d@ == empty_draft());
    let mut k: usize = 0;
    while k < fields.len()
        invariant
            fv == field_views(fields@),
            k <= fields@.len(),
            d@ == draft_after(fv, k as int),
        decreases fields@.len() - k,
    {
        assert(fv[k as int] == fields@[k as int]@);
        read_field(&mut d, &fields[k]);
        k = k + 1;
    }
    d
}

/// What parsing the lines from `i` on gives: the rules, the disabled rule
/// ids and the errors, each in order.
pub struct ParseOut {
    pub rules: Seq<ParsedView>,
    pub disables: Seq<Seq<char>>,
    pub errors: Seq<Seq<char>>,
}

/// The rule a block gives, as a list of zero or one rules.
pub open spec fn opt_rule(r: Option<ParsedView>) -> Seq<ParsedView> {
    match r {
        Some(p) => seq![p],
        None => seq![],
    }
}

/// Where reading a block's fields ends: after the block's first line and
/// within the text.
pub proof fn lemma_fields_next(ls: Seq<Seq<char>>, j: int)
    requires
        0 <= j <= ls.len(),
    ensures
        j <= fields_from(ls, j).next <= ls.len(),
    decreases ls.len() - j,
{
    if j < ls.len() {
        let line = ls[j];
        let ft = trimmed(line);
        if skippable(ft) {
            lemma_fields_next(ls, j + 1);
        } else if indented(line) {
            match find_char(ft, ':') {
                Some(c) => {
                    let v0 = trimmed(ft.skip(c + 1));
                    lemma_multiline(ls, j + 1, seq![v0]);
                    let nj = if starts_with(v0, triple_quote()) && !contains_seq(
                        v0.skip(3),
                        triple_quote(),
                    ) {
                        multiline(ls, j + 1, seq![v0]).1
                    } else {
                        j + 1
                    };
                    lemma_fields_next(ls, nj);
                },
                None => {
                    lemma_fields_next(ls, j + 1);
                },
            }
        }
    }
}

/// Parses the lines from `i` on: blank and comment lines are skipped;
/// `disable ID` disables a rule; `rule NAME` opens a block whose indented
/// field lines follow; anything else is an error.
pub open spec fn parse_from(ls: Seq<Seq<char>>, i: int) -> ParseOut
    decreases ls.len() - i,
{
    if i < 0 || i >= ls.len() {
        ParseOut { rules: seq![], disables: seq![], errors: seq![] }
    } else {
        let t = trimmed(ls[i]);
        if skippable(t) {
            parse_from(ls, i + 1)
        } else if starts_with(t, "disable "@) {
            let id = trimmed(t.skip(8));
            let rest = parse_from(ls, i + 1);
            if id.len() == 0 {
                ParseOut {
                    errors: seq![line_msg(i + 1, "empty disable directive"@)] + rest.errors,
                    ..rest
                }
            } else {
                ParseOut { disables: seq![id] + rest.disables, ..rest }
            }
        } else if starts_with(t, "rule "@) {
            let name = trimmed(t.skip(5));
            if name.len() == 0 {
                let rest = parse_from(ls, i + 1);
                ParseOut { errors: seq![line_msg(i + 1, "rule has no name"@)] + rest.errors, ..rest }
            } else {
                let fo = fields_from(ls, i + 1);
                proof {
                    lemma_fields_next(ls, i + 1);
                }
                let fin = finish_rule(name, i + 1, draft_after(fo.fields, fo.fields.len() as int));
                let rest = parse_from(ls, fo.next);
                ParseOut {
                    rules: opt_rule(fin.0) + rest.rules,
                    disables: rest.disables,
                    errors: fo.errors + fin.1 + rest.errors,
                }
            }
        } else {
            let rest = parse_from(ls, i + 1);
            ParseOut { errors: seq![line_msg(i + 1, "unexpected line: "@ + t)] + rest.errors, ..rest }
        }
    }
}

/// What parsing a rules file's text gives.
pub open spec fn spec_parse(content: Seq<char>) -> ParseOut {
    parse_from(line_texts(encode_utf8(content)), 0)
}

/// The views of parsed rules.
pub open spec fn parsed_views(rs: Seq<ParsedRule>) -> Seq<ParsedView> {
    Seq::new(rs.len(), |k: int| rs[k]@)
}

/// The rule ids of disable directives.
pub open spec fn disable_ids(ds: Seq<DisableDirective>) -> Seq<Seq<char>> {
    Seq::new(ds.len(), |k: int| ds[k].rule_id@)
}

/// The lines of `content` as string slices.
fn line_slices(content: &str) -> (r: Vec<&str>)
    ensures
        slices_view(r@) == line_texts(content.spec_bytes()),
{
    let rs = lines_of(content);
    let mut out: Vec<&str> = Vec::new();
    let mut k: usize = 0;
    while k < rs.len()
        invariant
            rs@.len() == line_ranges(content.spec_bytes()).len(),
            ranges_ok(content.spec_bytes(), rs@),
            forall|q: int|
                0 <= q < rs@.len() ==> rs@[q].0 as int == line_ranges(content.spec_bytes())[q].0
                    && rs@[q].1 as int == line_ranges(content.spec_bytes())[q].1,
            k <= rs@.len(),
            out@.len() == k,
            forall|q: int| 0 <= q < k ==> #[trigger] out@[q]@ == line_texts(content.spec_bytes())[q],
        decreases rs@.len() - k,
    {
        let (a, z) = rs[k];
        out.push(substring(content, a, z));
        k = k + 1;
    }
    assert(slices_view(out@) =~= line_texts(content.spec_bytes()));
    out
}


/// The characters of `s` from index `a` on.
fn chars_from(s: &str, a: usize) -> (r: &str)
    requires
        a <= s@.len(),
    ensures
        r@ == s@.skip(a as int),
{
    let cs = chars_of(s);
    let offs = crate::text::char_offsets(s);
    assert(s@.skip(a as int) =~= s@.subrange(a as int, s@.len() as int));
    crate::text::char_slice(s, &offs, a, cs.len())
}

/// Parses the rule block opened on line `i` with name `name`: its rule
/// and errors are added; the result is where parsing goes on.
fn parse_block(
    lines: &Vec<&str>,
    i: usize,
    name: &str,
    rules: &mut Vec<ParsedRule>,
    errors: &mut Vec<String>,
) -> (r: usize)
    requires
        i < lines@.len(),
    ensures
        ({
            let ls = slices_view(lines@);
            let fo = fields_from(ls, i + 1);
            let fin = finish_rule(name@, i + 1, draft_after(fo.fields, fo.fields.len() as int));
            &&& r as int == fo.next && parsed_views(final(rules)@)
                == parsed_views(old(rules)@) + opt_rule(fin.0) && texts(final(errors)@) == texts(
                old(errors)@,
            ) + fo.errors + fin.1
        }),
{
    let ghost ls = slices_view(lines@);
    let n = lines.len();
    assert(i < n);
    let (fields, ferrs, nj) = collect_fields(lines, i + 1);
    let ghost fo0 = fields_from(ls, i + 1);
    assert(forall|k: int| 0 <= k < fields@.len() ==> #[trigger] fields@[k]@ == fo0.fields[k]) by {
        assert forall|k: int| 0 <= k < fields@.len() implies #[trigger] fields@[k]@ == fo0.fields[k] by {
            assert(field_views(fields@)[k] == fields@[k]@);
        }
    }
    let d = read_fields(&fields);
    {
        {
            let (rule, berrs) = finish(name, i + 1, d);
            let ghost before_e = texts(errors@);
            let mut ferrs = ferrs;
            let mut berrs = berrs;
            errors.append(&mut ferrs);
            errors.append(&mut berrs);
            let ghost fo = fields_from(ls, i + 1);
            let ghost fin = finish_rule(name@, i + 1, draft_after(fo.fields, fo.fields.len() as int));
            assert(texts(errors@) =~= before_e + fo.errors + fin.1);
            let ghost before_r = parsed_views(rules@);
            match rule {
                Some(r) => {
                    rules.push(r);
                    assert(parsed_views(rules@) =~= before_r + opt_rule(fin.0));
                },
                None => {
                    assert(parsed_views(rules@) =~= before_r + opt_rule(fin.0));
                },
            }
            nj
        }
    }
}

/// Appends the error `line N: text` to the list.
fn push_line_error(errors: &mut Vec<String>, n: usize, text: &str)
    ensures
        texts(final(errors)@) == texts(old(errors)@).push(line_msg(n as int, text@)),
{
    let msg = line_error(n, &[text]);
    proof {
        reveal_with_fuel(concat_all, 3);
    }
    assert(msg@ =~= line_msg(n as int, text@));
    let ghost before = texts(errors@);
    errors.push(msg);
    assert(texts(errors@) =~= before.push(msg@));
}

/// The effect of parsing from line `i` to line `ni` on the lists: what was
/// added to them, followed by what parsing from `ni` gives, is what parsing
/// from `i` gives after what they held.
pub open spec fn step_effect(
    ls: Seq<Seq<char>>,
    i: int,
    ni: int,
    rules0: Seq<ParsedView>,
    rules1: Seq<ParsedView>,
    dis0: Seq<Seq<char>>,
    dis1: Seq<Seq<char>>,
    err0: Seq<Seq<char>>,
    err1: Seq<Seq<char>>,
) -> bool {
    &&& rules1 + parse_from(ls, ni).rules == rules0 + parse_from(ls, i).rules
    &&& dis1 + parse_from(ls, ni).disables == dis0 + parse_from(ls, i).disables
    &&& err1 + parse_from(ls, ni).errors == err0 + parse_from(ls, i).errors
}

/// Parses a `rule` line `i` whose trimmed text is `t`, with the block it
/// opens.
fn parse_rule_line(
    lines: &Vec<&str>,
    i: usize,
    t: &str,
    rules: &mut Vec<ParsedRule>,
    errors: &mut Vec<String>,
) -> (r: usize)
    requires
        i < lines@.len(),
        t@ == trimmed(slices_view(lines@)[i as int]),
        !skippable(t@),
        !starts_with(t@, "disable "@),
        starts_with(t@, "rule "@),
    ensures
        ({
            let ls = slices_view(lines@);
            &&& i < r <= lines@.len()
            &&& step_effect(
                ls,
                i as int,
                r as int,
                parsed_views(old(rules)@),
                parsed_views(final(rules)@),
                seq![],
                seq![],
                texts(old(errors)@),
                texts(final(errors)@),
            )
        }),
{
    let ghost ls = slices_view(lines@);
    let n = lines.len();
    assert(i < n);
    proof {
        reveal_strlit("rule ");
    }
    let ghost rest = parse_from(ls, i + 1);
    let name = trim_str(chars_from(t, 5));
    if name.is_empty() {
        let ghost e0 = texts(errors@);
        push_line_error(errors, i + 1, "rule has no name");
        assert(texts(errors@) + rest.errors =~= e0 + parse_from(ls, i as int).errors);
        assert(Seq::<Seq<char>>::empty() + rest.disables =~= Seq::<Seq<char>>::empty() + parse_from(ls, i as int).disables);
        assert(parsed_views(rules@) + rest.rules == parsed_views(rules@) + parse_from(ls, i as int).rules);
        i + 1
    } else {
        proof {
            lemma_fields_next(ls, i + 1);
        }
        let ghost r0 = parsed_views(rules@);
        let ghost e0 = texts(errors@);
        let nj = parse_block(lines, i, name, rules, errors);
        {
            {
                let ghost fo = fields_from(ls, i + 1);
                let ghost fin = finish_rule(name@, i + 1, draft_after(fo.fields, fo.fields.len() as int));
                let ghost nrest = parse_from(ls, nj as int);
                assert(parse_from(ls, i as int).rules == opt_rule(fin.0) + nrest.rules);
                assert(parse_from(ls, i as int).errors == fo.errors + fin.1 + nrest.errors);
                assert(parsed_views(rules@) + nrest.rules =~= r0 + parse_from(ls, i as int).rules);
                assert(texts(errors@) + nrest.errors =~= e0 + parse_from(ls, i as int).errors);
                assert(Seq::<Seq<char>>::empty() + nrest.disables =~= Seq::<Seq<char>>::empty() + parse_from(ls, i as int).disables);
                nj
            }
        }
    }
}

/// Parses line `i`, and the rule block it opens: what it gives is added,
/// and the result is where parsing goes on.
fn parse_step(
    lines: &Vec<&str>,
    i: usize,
    rules: &mut Vec<ParsedRule>,
    disables: &mut Vec<DisableDirective>,
    errors: &mut Vec<String>,
) -> (r: usize)
    requires
        i < lines@.len(),
    ensures
        ({
            let ls = slices_view(lines@);
            &&& i < r <= lines@.len()
            &&& step_effect(
                ls,
                i as int,
                r as int,
                parsed_views(old(rules)@),
                parsed_views(final(rules)@),
                disable_ids(old(disables)@),
                disable_ids(final(disables)@),
                texts(old(errors)@),
                texts(final(errors)@),
            )
        }),
{
    let ghost ls = slices_view(lines@);
    let n = lines.len();
    assert(i < n);
    proof {
        reveal_strlit("disable ");
    }
    let line: &str = lines[i];
    assert(ls[i as int] == line@);
    let t = trim_str(line);
    let ghost rest = parse_from(ls, i + 1);
    let ghost r0 = parsed_views(rules@);
    let ghost d0 = disable_ids(disables@);
    let ghost e0 = texts(errors@);
    if t.is_empty() || first_is(t, '#') {
        i + 1
    } else if str_starts_with(t, "disable ") {
        let id = trim_str(chars_from(t, 8));
        if id.is_empty() {
            push_line_error(errors, i + 1, "empty disable directive");
            assert(texts(errors@) + rest.errors =~= e0 + parse_from(ls, i as int).errors);
        } else {
            disables.push(DisableDirective { rule_id: id.to_owned() });
            assert(disable_ids(disables@) =~= d0.push(id@));
            assert(disable_ids(disables@) + rest.disables =~= d0 + parse_from(ls, i as int).disables);
        }
        i + 1
    } else if str_starts_with(t, "rule ") {
        let r = parse_rule_line(lines, i, t, rules, errors);
        assert(disable_ids(disables@) + parse_from(ls, r as int).disables =~= d0 + parse_from(ls, i as int).disables);
        r
    } else {
        let msg = line_error(i + 1, &["unexpected line: ", t]);
        proof {
            reveal_with_fuel(concat_all, 4);
        }
        assert(msg@ =~= line_msg(i + 1, "unexpected line: "@ + t@));
        errors.push(msg);
        assert(texts(errors@) =~= e0.push(msg@));
        assert(texts(errors@) + rest.errors =~= e0 + parse_from(ls, i as int).errors);
        i + 1
    }
}

/// Parses the text of a rules file: its rules, the rule ids it disables and
/// its errors.
fn parse_lines(content: &str) -> (r: (Vec<ParsedRule>, Vec<DisableDirective>, Vec<String>))
    ensures
        parsed_views(r.0@) == spec_parse(content@).rules,
        disable_ids(r.1@) == spec_parse(content@).disables,
        texts(r.2@) == spec_parse(content@).errors,
{
    let lines = line_slices(content);
    let ghost ls = slices_view(lines@);
    let mut rules: Vec<ParsedRule> = Vec::new();
    let mut disables: Vec<DisableDirective> = Vec::new();
    let mut errors: Vec<String> = Vec::new();
    let mut i: usize = 0;
    assert(parsed_views(rules@) =~= Seq::<ParsedView>::empty());
    assert(disable_ids(disables@) =~= Seq::<Seq<char>>::empty());
    assert(texts(errors@) =~= Seq::<Seq<char>>::empty());
    while i < lines.len()
        invariant
            ls == slices_view(lines@),
            ls == line_texts(encode_utf8(content@)),
            i <= lines@.len(),
            parse_from(ls, 0).rules == parsed_views(rules@) + parse_from(ls, i as int).rules,
            parse_from(ls, 0).disables == disable_ids(disables@) + parse_from(ls, i as int).disables,
            parse_from(ls, 0).errors == texts(errors@) + parse_from(ls, i as int).errors,
        decreases lines@.len() - i,
    {
        i = parse_step(&lines, i, &mut rules, &mut disables, &mut errors);
    }
    assert(parsed_views(rules@) + Seq::<ParsedView>::empty() =~= parsed_views(rules@));
    assert(disable_ids(disables@) + Seq::<Seq<char>>::empty() =~= disable_ids(disables@));
    assert(texts(errors@) + Seq::<Seq<char>>::empty() =~= texts(errors@));
    (rules, disables, errors)
}

/// The error a rules file with errors is reported with: the path, the
/// count, and each error on a line of its own, indented.
pub open spec fn error_report(path: Seq<char>, errs: Seq<Seq<char>>) -> Seq<char> {
    path + ": "@ + decimal(errs.len()) + " error"@ + (if errs.len() == 1 {
        ""@
    } else {
        "s"@
    }) + " found\n"@ + join_with(Seq::new(errs.len(), |k: int| "  "@ + errs[k]), "\n"@)
}

/// What parsing a rules file at `path` with text `content` gives: the file
/// when there are no errors, else the error report.
pub open spec fn parse_result(path: Seq<char>, content: Seq<char>, r: Result<DeslopRulesFile, String>) -> bool {
    let o = spec_parse(content);
    match r {
        Ok(f) => o.errors.len() == 0 && f.path@ == path && parsed_views(f.rules@) == o.rules
            && disable_ids(f.disables@) == o.disables,
        Err(e) => o.errors.len() > 0 && e@ == error_report(path, o.errors),
    }
}

/// The report for a list of errors.
fn report_errors(path: &str, errors: &Vec<String>) -> (r: String)
    requires
        errors@.len() > 0,
    ensures
        r@ == error_report(path@, texts(errors@)),
{
    let ghost es = texts(errors@);
    let ghost lines = Seq::new(es.len(), |k: int| "  "@ + es[k]);
    let mut out = String::new();
    push_str(&mut out, path);
    push_str(&mut out, ": ");
    push_decimal(&mut out, errors.len());
    push_str(&mut out, " error");
    proof {
        reveal_strlit("");
        reveal_strlit("s");
        reveal_strlit("\n");
    }
    if errors.len() == 1 {
        push_str(&mut out, "");
    } else {
        push_str(&mut out, "s");
    }
    push_str(&mut out, " found\n");
    let ghost head = out@;
    let mut k: usize = 0;
    while k < errors.len()
        invariant
            es == texts(errors@),
            lines == Seq::new(es.len(), |q: int| "  "@ + es[q]),
            k <= errors@.len(),
            out@ == head + join_with(lines.take(k as int), "\n"@),
        decreases errors@.len() - k,
    {
        assert(lines.take(k + 1).drop_last() =~= lines.take(k as int));
        assert(lines.take(k + 1).last() == "  "@ + errors@[k as int]@);
        if k > 0 {
            push_str(&mut out, "\n");
        } else {
            assert(lines.take(0) =~= Seq::<Seq<char>>::empty());
        }
        push_str(&mut out, "  ");
        push_str(&mut out, errors[k].as_str());
        k = k + 1;
    }
    assert(lines.take(errors@.len() as int) =~= lines);
    out
}

/// Parse a .deslop-rules file's text, collecting all errors instead of
/// stopping at the first.
pub fn parse_deslop_rules(path: &str, content: &str) -> (r: Result<DeslopRulesFile, String>)
    ensures
        parse_result(path@, content@, r),
{
    let (rules, disables, errors) = parse_lines(content);
    if errors.len() > 0 {
        Err(report_errors(path, &errors))
    } else {
        Ok(DeslopRulesFile { path: path.to_owned(), rules, disables })
    }
}


// ---------------------------------------------------------------------------
// Checking a rules file
// ---------------------------------------------------------------------------

/// The mathematical value of a [`ValidationError`]: its line and message.
pub open spec fn verr(e: ValidationError) -> (int, Seq<char>) {
    (e.line as int, e.message@)
}

/// The values of a list of validation errors.
pub open spec fn verrs(es: Seq<ValidationError>) -> Seq<(int, Seq<char>)> {
    Seq::new(es.len(), |k: int| verr(es[k]))
}

/// The errors for a rule block that ends: a missing `match` or `fix`.
pub open spec fn close_rule(cur: Option<(Seq<char>, int)>, hm: bool, hf: bool) -> Seq<(int, Seq<char>)> {
    match cur {
        Some((name, start)) => (if !hm {
            seq![(start, "rule '"@ + name + "' missing required 'match' field"@)]
        } else {
            seq![]
        }) + (if !hf {
            seq![(start, "rule '"@ + name + "' missing required 'fix' field"@)]
        } else {
            seq![]
        }),
        None => seq![],
    }
}

/// The first line at or after `j` whose trimmed text holds three double
/// quotes.
pub open spec fn closing_line(ls: Seq<Seq<char>>, j: int) -> Option<int>
    decreases ls.len() - j,
{
    if j < 0 || j >= ls.len() {
        None
    } else if contains_seq(trimmed(ls[j]), triple_quote()) {
        Some(j)
    } else {
        closing_line(ls, j + 1)
    }
}

/// A `fix` value that check-rules accepts: a keyword or a quoted string.
pub open spec fn valid_fix(v: Seq<char>) -> bool {
    v == "delete"@ || v == "delete-line"@ || v == "flag"@ || (v.len() > 0 && v[0] == '"' && v.last()
        == '"') || (v.len() > 0 && v[0] == '\'' && v.last() == '\'')
}

/// The errors for the first `n` glob pieces of a `files` field on line `ln`.
pub open spec fn glob_errors(ps: Seq<Seq<char>>, ln: int, n: int) -> Seq<(int, Seq<char>)>
    decreases n,
{
    if n <= 0 {
        seq![]
    } else {
        let prev = glob_errors(ps, ln, n - 1);
        let g = trimmed(ps[n - 1]);
        if g.len() == 0 {
            prev
        } else {
            match glob_error_text(g) {
                Some(e) => prev.push((ln, "invalid glob pattern '"@ + g + "': "@ + e)),
                None => prev,
            }
        }
    }
}

/// The errors for a field other than `match` on line `ln`.
pub open spec fn field_errors(name: Seq<char>, v: Seq<char>, ln: int) -> Seq<(int, Seq<char>)> {
    if name == "fix"@ {
        let val = trimmed(v);
        if valid_fix(val) {
            seq![]
        } else {
            seq![(ln, "invalid fix value: "@ + val + " (expected delete, delete-line, flag, or a quoted string)"@)]
        }
    } else if name == "message"@ {
        seq![]
    } else if name == "confidence"@ {
        match spec_confidence(v) {
            ConfidenceView::Invalid => seq![(ln, "invalid confidence value: "@ + v)],
            ConfidenceView::OutOfRange(s) => seq![(ln, "confidence must be between 0.0 and 1.0, got "@ + s)],
            ConfidenceView::Valid(_) => seq![],
        }
    } else if name == "files"@ {
        let ps = split_commas(spec_strip_quotes(v));
        glob_errors(ps, ln, ps.len() as int)
    } else if name == "severity"@ {
        let val = trimmed(v);
        if val == "warn"@ || val == "error"@ {
            seq![]
        } else {
            seq![(ln, "invalid severity: "@ + val + " (expected 'warn' or 'error')"@)]
        }
    } else {
        seq![(ln, unknown_field_msg(name))]
    }
}

/// The errors for a one-line `match` value on line `ln`: a pattern with
/// meta characters must compile.
pub open spec fn match_errors(v: Seq<char>, ln: int) -> Seq<(int, Seq<char>)> {
    let p = spec_strip_quotes(v);
    match regex_error_text(p) {
        Some(e) if has_regex_meta(p) => seq![(ln, "invalid regex: "@ + e)],
        _ => seq![],
    }
}

/// Checks the lines from `i` on, inside the rule `cur` (its name and line)
/// whose `match` and `fix` have been seen or not: every error, in order.
pub open spec fn validate_from(
    ls: Seq<Seq<char>>,
    i: int,
    cur: Option<(Seq<char>, int)>,
    hm: bool,
    hf: bool,
) -> Seq<(int, Seq<char>)>
    decreases ls.len() - i,
{
    if i < 0 || i >= ls.len() {
        close_rule(cur, hm, hf)
    } else {
        let line = ls[i];
        let t = trimmed(line);
        if skippable(t) {
            validate_from(ls, i + 1, cur, hm, hf)
        } else if starts_with(t, "disable "@) {
            (if trimmed(t.skip(8)).len() == 0 {
                seq![(i + 1, "empty disable directive"@)]
            } else {
                seq![]
            }) + validate_from(ls, i + 1, cur, hm, hf)
        } else if starts_with(t, "rule "@) {
            let name = trimmed(t.skip(5));
            close_rule(cur, hm, hf) + (if name.len() == 0 {
                seq![(i + 1, "rule has no name"@)]
            } else {
                seq![]
            }) + validate_from(ls, i + 1, Some((name, i + 1)), false, false)
        } else if indented(line) && cur is Some {
            match find_char(t, ':') {
                None => seq![(i + 1, "expected 'field: value', got: "@ + t)] + validate_from(
                    ls,
                    i + 1,
                    cur,
                    hm,
                    hf,
                ),
                Some(c) => {
                    let name = trimmed(t.take(c));
                    let v = trimmed(t.skip(c + 1));
                    if name == "match"@ {
                        if starts_with(v, triple_quote()) {
                            match closing_line(ls, i + 1) {
                                Some(j) => {
                                    proof {
                                        lemma_closing_line(ls, i + 1);
                                    }
                                    validate_from(ls, j + 1, cur, true, hf)
                                },
                                None => seq![
                                    (i + 1, "unclosed multiline pattern (missing closing \"\"\")"@),
                                ] + validate_from(ls, i + 1, cur, true, hf),
                            }
                        } else {
                            match_errors(v, i + 1) + validate_from(ls, i + 1, cur, true, hf)
                        }
                    } else {
                        field_errors(name, v, i + 1) + validate_from(
                            ls,
                            i + 1,
                            cur,
                            hm,
                            hf || name == "fix"@,
                        )
                    }
                },
            }
        } else {
            seq![(i + 1, "unexpected line: "@ + t)] + validate_from(ls, i + 1, cur, hm, hf)
        }
    }
}

/// The closing line lies at or after where the search starts.
pub proof fn lemma_closing_line(ls: Seq<Seq<char>>, j: int)
    ensures
        closing_line(ls, j) matches Some(k) ==> j <= k < ls.len(),
    decreases ls.len() - j,
{
    if 0 <= j < ls.len() && !contains_seq(trimmed(ls[j]), triple_quote()) {
        lemma_closing_line(ls, j + 1);
    }
}

/// What check-rules reports for a rules file's text.
pub open spec fn spec_validate(content: Seq<char>) -> Seq<(int, Seq<char>)> {
    validate_from(line_texts(encode_utf8(content)), 0, None, false, false)
}


/// Appends an error on line `ln`.
fn push_verr(errors: &mut Vec<ValidationError>, ln: usize, message: String)
    ensures
        verrs(final(errors)@) == verrs(old(errors)@).push((ln as int, message@)),
{
    let ghost before = verrs(errors@);
    errors.push(ValidationError { line: ln, message });
    assert(verrs(errors@) =~= before.push((ln as int, message@)));
}

/// The parts one after the other.
fn cat(parts: &[&str]) -> (r: String)
    ensures
        r@ == concat_all(slices_view(parts@)),
{
    let mut s = String::new();
    let mut k: usize = 0;
    while k < parts.len()
        invariant
            k <= parts@.len(),
            s@ == concat_all(slices_view(parts@).take(k as int)),
        decreases parts@.len() - k,
    {
        push_str(&mut s, parts[k]);
        assert(slices_view(parts@).take(k + 1).drop_last() =~= slices_view(parts@).take(k as int));
        assert(slices_view(parts@).take(k + 1).last() == parts@[k as int]@);
        k = k + 1;
    }
    assert(slices_view(parts@).take(parts@.len() as int) =~= slices_view(parts@));
    s
}

/// Appends the errors for a field other than `match` on line `ln`.
fn push_field_errors(errors: &mut Vec<ValidationError>, name: &str, v: &str, ln: usize)
    ensures
        verrs(final(errors)@) == verrs(old(errors)@) + field_errors(name@, v@, ln as int),
{
    let ghost e0 = verrs(errors@);
    proof {
        reveal_with_fuel(concat_all, 4);
    }
    if str_eq(name, "fix") {
        let val = trim_str(v);
        let vcs = chars_of(val);
        let n = vcs.len();
        let ok = str_eq(val, "delete") || str_eq(val, "delete-line") || str_eq(val, "flag") || (n
            > 0 && vcs[0] == '"' && vcs[n - 1] == '"') || (n > 0 && vcs[0] == '\'' && vcs[n - 1]
            == '\'');
        if !ok {
            let m = cat(&["invalid fix value: ", val, " (expected delete, delete-line, flag, or a quoted string)"]);
            push_verr(errors, ln, m);
        }
        assert(verrs(errors@) =~= e0 + field_errors(name@, v@, ln as int));
    } else if str_eq(name, "message") {
        assert(verrs(errors@) =~= e0 + field_errors(name@, v@, ln as int));
    } else if str_eq(name, "confidence") {
        match parse_confidence(v) {
            ConfidenceValue::Invalid => {
                push_verr(errors, ln, cat(&["invalid confidence value: ", v]));
            },
            ConfidenceValue::OutOfRange(s) => {
                push_verr(errors, ln, cat(&["confidence must be between 0.0 and 1.0, got ", s.as_str()]));
            },
            ConfidenceValue::Valid(_) => {},
        }
        assert(verrs(errors@) =~= e0 + field_errors(name@, v@, ln as int));
    } else if str_eq(name, "files") {
        let s = strip_quotes(v);
        let scs = chars_of(s);
        let offs = crate::text::char_offsets(s);
        let pieces = comma_pieces(&scs);
        let ghost ps = split_commas(scs@);
        assert(scs@ == s@);
        let mut k: usize = 0;
        while k < pieces.len()
            invariant
                scs@ == s@,
                ps == split_commas(scs@),
                offs@.len() == s@.len() + 1,
                forall|q: int| 0 <= q <= s@.len() ==> offs@[q] as int == encode_utf8(s@.take(q)).len(),
                pieces@.len() == ps.len(),
                forall|q: int| 0 <= q < pieces@.len() ==> (#[trigger] pieces@[q]).0 <= pieces@[q].1 <= scs@.len(),
                forall|q: int|
                    0 <= q < pieces@.len() ==> scs@.subrange(pieces@[q].0 as int, pieces@[q].1 as int)
                        == #[trigger] split_commas(scs@)[q],
                k <= pieces@.len(),
                verrs(errors@) == e0 + glob_errors(ps, ln as int, k as int),
            decreases pieces@.len() - k,
        {
            let (a, z) = pieces[k];
            assert(scs@.subrange(a as int, z as int) == split_commas(scs@)[k as int]);
            let g = trim_str(crate::text::char_slice(s, &offs, a, z));
            if !g.is_empty() {
                if let Some(e) = glob_error(g) {
                    push_verr(errors, ln, cat(&["invalid glob pattern '", g, "': ", e.as_str()]));
                    proof {
                        reveal_with_fuel(concat_all, 5);
                    }
                }
            }
            k = k + 1;
        }
    } else if str_eq(name, "severity") {
        let val = trim_str(v);
        if !(str_eq(val, "warn") || str_eq(val, "error")) {
            push_verr(errors, ln, cat(&["invalid severity: ", val, " (expected 'warn' or 'error')"]));
        }
        assert(verrs(errors@) =~= e0 + field_errors(name@, v@, ln as int));
    } else {
        let m = match suggest_field(name) {
            Some(sg) => {
                let m = cat(&["unknown field \"", name, "\" (did you mean \"", sg.as_str(), "\"?)"]);
                proof {
                    reveal_with_fuel(concat_all, 6);
                }
                m
            },
            None => cat(&["unknown field \"", name, "\""]),
        };
        assert(m@ =~= unknown_field_msg(name@));
        push_verr(errors, ln, m);
        assert(verrs(errors@) =~= e0 + field_errors(name@, v@, ln as int));
    }
}

/// Appends the errors for a one-line `match` value on line `ln`.
fn push_match_errors(errors: &mut Vec<ValidationError>, v: &str, ln: usize)
    ensures
        verrs(final(errors)@) == verrs(old(errors)@) + match_errors(v@, ln as int),
{
    let ghost e0 = verrs(errors@);
    let p = strip_quotes(v);
    if is_regex_pattern(p) {
        if let Some(e) = regex_error(p) {
            let m = cat(&["invalid regex: ", e.as_str()]);
            proof {
                reveal_with_fuel(concat_all, 3);
            }
            push_verr(errors, ln, m);
        }
    }
    assert(verrs(errors@) =~= e0 + match_errors(v@, ln as int));
}

/// The first line at or after `j` whose trimmed text holds three double
/// quotes.
fn find_closing(lines: &Vec<&str>, j: usize) -> (r: Option<usize>)
    ensures
        match r {
            Some(k) => closing_line(slices_view(lines@), j as int) == Some(k as int),
            None => closing_line(slices_view(lines@), j as int) is None,
        },
{
    let ghost ls = slices_view(lines@);
    proof {
        reveal_strlit("\"\"\"");
        assert("\"\"\""@ =~= triple_quote());
    }
    let mut k = j;
    while k < lines.len()
        invariant
            ls == slices_view(lines@),
            j <= k,
            "\"\"\""@ == triple_quote(),
            closing_line(ls, j as int) == closing_line(ls, k as int),
        decreases lines@.len() - k,
    {
        assert(ls[k as int] == lines@[k as int]@);
        if str_contains(trim_str(lines[k]), "\"\"\"") {
            return Some(k);
        }
        k = k + 1;
    }
    None
}

/// The view of the current rule.
pub open spec fn cur_view(c: Option<(String, usize)>) -> Option<(Seq<char>, int)> {
    match c {
        Some((n, l)) => Some((n@, l as int)),
        None => None,
    }
}

/// Appends the errors of a rule block that ends.
fn push_close(errors: &mut Vec<ValidationError>, cur: &Option<(String, usize)>, hm: bool, hf: bool)
    ensures
        verrs(final(errors)@) == verrs(old(errors)@) + close_rule(cur_view(*cur), hm, hf),
{
    let ghost e0 = verrs(errors@);
    proof {
        reveal_with_fuel(concat_all, 4);
    }
    if let Some((name, start)) = cur {
        if !hm {
            push_verr(errors, *start, cat(&["rule '", name.as_str(), "' missing required 'match' field"]));
        }
        let ghost e1 = verrs(errors@);
        if !hf {
            push_verr(errors, *start, cat(&["rule '", name.as_str(), "' missing required 'fix' field"]));
        }
    }
    assert(verrs(errors@) =~= e0 + close_rule(cur_view(*cur), hm, hf));
}

/// Checks a field line `i` of the current rule, whose trimmed text is `t`.
#[verifier::spinoff_prover]
#[verifier::rlimit(40)]
fn validate_field_line(
    lines: &Vec<&str>,
    i: usize,
    t: &str,
    hm: &mut bool,
    hf: &mut bool,
    errors: &mut Vec<ValidationError>,
    Ghost(cur): Ghost<Option<(Seq<char>, int)>>,
) -> (r: usize)
    requires
        i < lines@.len(),
        t@ == trimmed(slices_view(lines@)[i as int]),
        !skippable(t@),
        !starts_with(t@, "disable "@),
        !starts_with(t@, "rule "@),
        indented(slices_view(lines@)[i as int]),
        cur is Some,
    ensures
        ({
            let ls = slices_view(lines@);
            &&& i < r <= lines@.len()
            &&& verrs(final(errors)@) + validate_from(
                ls,
                r as int,
                cur,
                *final(hm),
                *final(hf),
            ) == verrs(old(errors)@) + validate_from(ls, i as int, cur, *old(hm), *old(hf))
        }),
{
    let ghost ls = slices_view(lines@);
    let n = lines.len();
    assert(i < n);
    let ghost e0 = verrs(errors@);
    let ghost hm0 = *hm;
    let ghost hf0 = *hf;
    let tcs = chars_of(t);
    proof {
        reveal_strlit("\"\"\"");
        assert("\"\"\""@ =~= triple_quote());
        reveal_strlit("match");
        reveal_strlit("fix");
        reveal_strlit("files");
        assert("match"@[0] == 'm' && "files"@[0] == 'f' && "match"@ != "files"@);
        reveal_with_fuel(concat_all, 3);
    }
    match first_char(&tcs, ':') {
        None => {
            push_verr(errors, i + 1, cat(&["expected 'field: value', got: ", t]));
            assert(verrs(errors@) + validate_from(ls, i + 1, cur, *hm, *hf) =~= e0 + validate_from(ls, i as int, cur, hm0, hf0));
            i + 1
        },
        Some(c) => {
            proof {
                crate::text::lemma_find_char(t@, ':', 0);
            }
            let nt = tcs.len();
            assert(c < nt);
            let offs = crate::text::char_offsets(t);
            let name = trim_str(crate::text::char_slice(t, &offs, 0, c));
            let v = trim_str(crate::text::char_slice(t, &offs, c + 1, nt));
            assert(t@.take(c as int) =~= t@.subrange(0, c as int));
            assert(t@.skip(c + 1) =~= t@.subrange(c + 1, t@.len() as int));
            if str_eq(name, "match") {
                *hm = true;
                if str_starts_with(v, "\"\"\"") {
                    match find_closing(lines, i + 1) {
                        Some(j) => {
                            proof {
                                lemma_closing_line(ls, i + 1);
                            }
                            assert(verrs(errors@) + validate_from(ls, j + 1, cur, *hm, *hf) =~= e0 + validate_from(ls, i as int, cur, hm0, hf0));
                            j + 1
                        },
                        None => {
                            push_verr(errors, i + 1, "unclosed multiline pattern (missing closing \"\"\")".to_owned());
                            assert(verrs(errors@) + validate_from(ls, i + 1, cur, *hm, *hf) =~= e0 + validate_from(ls, i as int, cur, hm0, hf0));
                            i + 1
                        },
                    }
                } else {
                    push_match_errors(errors, v, i + 1);
                    assert(verrs(errors@) + validate_from(ls, i + 1, cur, *hm, *hf) =~= e0 + validate_from(ls, i as int, cur, hm0, hf0));
                    i + 1
                }
            } else {
                push_field_errors(errors, name, v, i + 1);
                if str_eq(name, "fix") {
                    *hf = true;
                }
                assert(verrs(errors@) + validate_from(ls, i + 1, cur, *hm, *hf) =~= e0 + validate_from(ls, i as int, cur, hm0, hf0));
                i + 1
            }
        },
    }
}


/// Checks line `i` (and, for a multi-line pattern, the lines up to its
/// end); the result is where checking goes on.
#[verifier::rlimit(50)]
fn validate_step(
    lines: &Vec<&str>,
    i: usize,
    cur: &mut Option<(String, usize)>,
    hm: &mut bool,
    hf: &mut bool,
    errors: &mut Vec<ValidationError>,
) -> (r: usize)
    requires
        i < lines@.len(),
    ensures
        ({
            let ls = slices_view(lines@);
            &&& i < r <= lines@.len()
            &&& verrs(final(errors)@)
                + validate_from(ls, r as int, cur_view(*final(cur)), *final(hm), *final(hf))
                == verrs(old(errors)@) + validate_from(
                ls,
                i as int,
                cur_view(*old(cur)),
                *old(hm),
                *old(hf),
            )
        }),
{
    let ghost ls = slices_view(lines@);
    let n = lines.len();
    assert(i < n);
    proof {
        reveal_strlit("disable ");
        reveal_strlit("rule ");
        reveal_with_fuel(concat_all, 3);
    }
    let line: &str = lines[i];
    assert(ls[i as int] == line@);
    let t = trim_str(line);
    let ghost e0 = verrs(errors@);
    let ghost c0 = cur_view(*cur);
    let ghost hm0 = *hm;
    let ghost hf0 = *hf;
    if t.is_empty() || first_is(t, '#') {
        i + 1
    } else if str_starts_with(t, "disable ") {
        let id = trim_str(chars_from(t, 8));
        if id.is_empty() {
            push_verr(errors, i + 1, "empty disable directive".to_owned());
        }
        assert(verrs(errors@) + validate_from(ls, i + 1, c0, hm0, hf0) =~= e0 + validate_from(ls, i as int, c0, hm0, hf0));
        i + 1
    } else if str_starts_with(t, "rule ") {
        push_close(errors, cur, *hm, *hf);
        let ghost e1 = verrs(errors@);
        let name = trim_str(chars_from(t, 5));
        if name.is_empty() {
            push_verr(errors, i + 1, "rule has no name".to_owned());
        }
        *cur = Some((name.to_owned(), i + 1));
        *hm = false;
        *hf = false;
        assert(verrs(errors@) + validate_from(ls, i + 1, cur_view(*cur), false, false) =~= e0 + validate_from(ls, i as int, c0, hm0, hf0));
        i + 1
    } else if (first_is(line, ' ') || first_is(line, '\t')) && cur.is_some() {
        validate_field_line(lines, i, t, hm, hf, errors, Ghost(c0))
    } else {
        push_verr(errors, i + 1, cat(&["unexpected line: ", t]));
        assert(verrs(errors@) + validate_from(ls, i + 1, c0, hm0, hf0) =~= e0 + validate_from(ls, i as int, c0, hm0, hf0));
        i + 1
    }
}

/// Validate a .deslop-rules file's text and return all errors found, each
/// with its line.
pub fn validate_deslop_rules(content: &str) -> (r: Vec<ValidationError>)
    ensures
        verrs(r@) == spec_validate(content@),
{
    let lines = line_slices(content);
    let ghost ls = slices_view(lines@);
    let mut errors: Vec<ValidationError> = Vec::new();
    let mut cur: Option<(String, usize)> = None;
    let mut hm = false;
    let mut hf = false;
    let mut i: usize = 0;
    assert(verrs(errors@) =~= Seq::<(int, Seq<char>)>::empty());
    while i < lines.len()
        invariant
            ls == slices_view(lines@),
            ls == line_texts(encode_utf8(content@)),
            i <= lines@.len(),
            validate_from(ls, 0, None, false, false) == verrs(errors@) + validate_from(
                ls,
                i as int,
                cur_view(cur),
                hm,
                hf,
            ),
        decreases lines@.len() - i,
    {
        i = validate_step(&lines, i, &mut cur, &mut hm, &mut hf, &mut errors);
    }
    push_close(&mut errors, &cur, hm, hf);
    errors
}


// ---------------------------------------------------------------------------
// Merging the rules files found up the directory tree
// ---------------------------------------------------------------------------

/// The rules of the files, from the last file (the shallowest) to the first
/// (the deepest), each file's rules in order.
pub open spec fn flat_rules(files: Seq<DeslopRulesFile>) -> Seq<ParsedView>
    decreases files.len(),
{
    if files.len() == 0 {
        seq![]
    } else {
        parsed_views(files.last().rules@) + flat_rules(files.drop_last())
    }
}

/// The disabled rule ids of the files, in the same order.
pub open spec fn flat_disables(files: Seq<DeslopRulesFile>) -> Seq<Seq<char>>
    decreases files.len(),
{
    if files.len() == 0 {
        seq![]
    } else {
        disable_ids(files.last().disables@) + flat_disables(files.drop_last())
    }
}

/// The index of the first rule named `n`.
pub open spec fn name_index(acc: Seq<ParsedView>, n: Seq<char>, k: int) -> Option<int>
    decreases acc.len() - k,
{
    if k < 0 || k >= acc.len() {
        None
    } else if acc[k].name == n {
        Some(k)
    } else {
        name_index(acc, n, k + 1)
    }
}

/// A rule added to the merged list: it takes the place of the rule with
/// its name, or comes last.
pub open spec fn merge_one(acc: Seq<ParsedView>, x: ParsedView) -> Seq<ParsedView> {
    match name_index(acc, x.name, 0) {
        Some(k) => acc.update(k, x),
        None => acc.push(x),
    }
}

/// The rules added one after the other.
pub open spec fn merge_all(acc: Seq<ParsedView>, xs: Seq<ParsedView>) -> Seq<ParsedView>
    decreases xs.len(),
{
    if xs.len() == 0 {
        acc
    } else {
        merge_all(merge_one(acc, xs[0]), xs.skip(1))
    }
}

/// The rule is the last of the list with its name.
pub open spec fn last_of_name(ys: Seq<ParsedView>, x: ParsedView) -> bool {
    exists|j: int|
        0 <= j < ys.len() && ys[j] == x && forall|q: int| j < q < ys.len() ==> ys[q].name != x.name
}

/// Some rule of the list has the name.
pub open spec fn has_name(acc: Seq<ParsedView>, n: Seq<char>) -> bool {
    exists|k: int| 0 <= k < acc.len() && acc[k].name == n
}

/// `acc` is what merging `ys` gives: no two of its rules share a name, each
/// is the last rule of `ys` with its name, and every name of `ys` is there.
pub open spec fn merged_from(acc: Seq<ParsedView>, ys: Seq<ParsedView>) -> bool {
    &&& forall|i: int, j: int| 0 <= i < j < acc.len() ==> acc[i].name != acc[j].name
    &&& forall|k: int| 0 <= k < acc.len() ==> #[trigger] last_of_name(ys, acc[k])
    &&& forall|j: int| 0 <= j < ys.len() ==> #[trigger] has_name(acc, ys[j].name)
}

proof fn lemma_name_index(acc: Seq<ParsedView>, n: Seq<char>, k: int)
    requires
        0 <= k,
    ensures
        match name_index(acc, n, k) {
            Some(i) => k <= i < acc.len() && acc[i].name == n,
            None => forall|i: int| k <= i < acc.len() ==> acc[i].name != n,
        },
    decreases acc.len() - k,
{
    if k < acc.len() && acc[k].name != n {
        lemma_name_index(acc, n, k + 1);
    }
}

proof fn lemma_merge_one(acc: Seq<ParsedView>, ys: Seq<ParsedView>, x: ParsedView)
    requires
        merged_from(acc, ys),
    ensures
        merged_from(merge_one(acc, x), ys.push(x)),
{
    lemma_name_index(acc, x.name, 0);
    let m = merge_one(acc, x);
    let zs = ys.push(x);
    let ni = name_index(acc, x.name, 0);
    assert forall|i: int, j: int| 0 <= i < j < m.len() implies m[i].name != m[j].name by {
        match ni {
            Some(p) => {
                if i == p {
                    assert(m[j] == acc[j]);
                } else if j == p {
                    assert(m[i] == acc[i]);
                } else {
                    assert(m[i] == acc[i] && m[j] == acc[j]);
                }
            },
            None => {
                if j == acc.len() {
                    assert(m[i] == acc[i]);
                } else {
                    assert(m[i] == acc[i] && m[j] == acc[j]);
                }
            },
        }
    }
    assert forall|k: int| 0 <= k < m.len() implies #[trigger] last_of_name(zs, m[k]) by {
        let is_new = match ni {
            Some(p) => k == p,
            None => k == acc.len(),
        };
        if is_new {
            assert(m[k] == x);
            assert(zs[ys.len() as int] == x);
        } else {
            assert(m[k] == acc[k]);
            assert(last_of_name(ys, acc[k]));
            let j = choose|j: int|
                0 <= j < ys.len() && ys[j] == acc[k] && forall|q: int|
                    j < q < ys.len() ==> ys[q].name != acc[k].name;
            assert(zs[j] == m[k]);
            assert(acc[k].name != x.name) by {
                match ni {
                    Some(p) => {
                        if acc[k].name == x.name {
                            assert(acc[p].name == acc[k].name);
                        }
                    },
                    None => {},
                }
            }
            assert forall|q: int| j < q < zs.len() implies zs[q].name != m[k].name by {
                if q < ys.len() {
                    assert(zs[q] == ys[q]);
                }
            }
        }
    }
    assert forall|j: int| 0 <= j < zs.len() implies #[trigger] has_name(m, zs[j].name) by {
        if j == ys.len() {
            match ni {
                Some(p) => {
                    assert(m[p].name == zs[j].name);
                },
                None => {
                    assert(m[acc.len() as int].name == zs[j].name);
                },
            }
        } else {
            assert(zs[j] == ys[j]);
            assert(has_name(acc, ys[j].name));
            let k = choose|k: int| 0 <= k < acc.len() && acc[k].name == ys[j].name;
            match ni {
                Some(p) => {
                    if k == p {
                        assert(m[k].name == x.name);
                        assert(acc[k].name == x.name);
                    } else {
                        assert(m[k] == acc[k]);
                    }
                },
                None => {
                    assert(m[k] == acc[k]);
                },
            }
        }
    }
}

proof fn lemma_merge_all(acc: Seq<ParsedView>, ys: Seq<ParsedView>, xs: Seq<ParsedView>)
    requires
        merged_from(acc, ys),
    ensures
        merged_from(merge_all(acc, xs), ys + xs),
    decreases xs.len(),
{
    if xs.len() == 0 {
        assert(ys + xs =~= ys);
    } else {
        lemma_merge_one(acc, ys, xs[0]);
        lemma_merge_all(merge_one(acc, xs[0]), ys.push(xs[0]), xs.skip(1));
        assert(ys.push(xs[0]) + xs.skip(1) =~= ys + xs);
    }
}

/// Merging the rules of the files keeps one rule per name, and it is the
/// rule of the deepest file that defines the name (the last definition in
/// that file): deeper files override same-name rules from parent
/// directories, and no name is lost.
pub proof fn lemma_merge_overrides(files: Seq<DeslopRulesFile>)
    ensures
        merged_from(merge_all(seq![], flat_rules(files)), flat_rules(files)),
{
    assert(merged_from(Seq::<ParsedView>::empty(), Seq::<ParsedView>::empty()));
    lemma_merge_all(seq![], seq![], flat_rules(files));
    assert(Seq::<ParsedView>::empty() + flat_rules(files) =~= flat_rules(files));
}

/// Adds a rule to the merged list.
fn merge_into(acc: &mut Vec<ParsedRule>, x: &ParsedRule)
    ensures
        parsed_views(final(acc)@) == merge_one(parsed_views(old(acc)@), x@),
{
    let ghost a = parsed_views(acc@);
    let mut k: usize = 0;
    while k < acc.len()
        invariant
            a == parsed_views(acc@),
            a == parsed_views(old(acc)@),
            k <= acc@.len(),
            name_index(a, x@.name, 0) == name_index(a, x@.name, k as int),
        decreases acc@.len() - k,
    {
        assert(a[k as int] == acc@[k as int]@);
        if str_eq(acc[k].name.as_str(), x.name.as_str()) {
            assert(name_index(a, x@.name, k as int) == Some(k as int));
            acc.set(k, x.duplicate());
            assert(parsed_views(acc@) =~= a.update(k as int, x@));
            return;
        }
        k = k + 1;
    }
    acc.push(x.duplicate());
    assert(parsed_views(acc@) =~= a.push(x@));
}

/// Merge all parsed rules. Deeper files (earlier in the list) override
/// same-name rules from parent directories; rules keep the place where
/// their name first appears, from the shallowest file down. The disable
/// directives of all files are kept, shallowest file first.
pub fn merge_rules(files: &[DeslopRulesFile]) -> (r: (Vec<ParsedRule>, Vec<DisableDirective>))
    ensures
        parsed_views(r.0@) == merge_all(seq![], flat_rules(files@)),
        disable_ids(r.1@) == flat_disables(files@),
{
    let mut rules: Vec<ParsedRule> = Vec::new();
    let mut disables: Vec<DisableDirective> = Vec::new();
    let mut f = files.len();
    assert(parsed_views(rules@) =~= Seq::<ParsedView>::empty());
    assert(disable_ids(disables@) =~= Seq::<Seq<char>>::empty());
    assert(files@.take(files@.len() as int) =~= files@);
    while f > 0
        invariant
            f <= files@.len(),
            merge_all(seq![], flat_rules(files@)) == merge_all(
                parsed_views(rules@),
                flat_rules(files@.take(f as int)),
            ),
            flat_disables(files@) == disable_ids(disables@) + flat_disables(files@.take(f as int)),
        decreases f,
    {
        let file = &files[f - 1];
        let ghost pre = files@.take(f as int);
        assert(pre.drop_last() =~= files@.take(f - 1));
        assert(pre.last() == *file);
        let ghost xs = parsed_views(file.rules@);
        assert(flat_rules(pre) == xs + flat_rules(files@.take(f - 1)));
        assert(xs.skip(0) =~= xs);
        let mut k: usize = 0;
        while k < file.rules.len()
            invariant
                xs == parsed_views(file.rules@),
                k <= file.rules@.len(),
                merge_all(seq![], flat_rules(files@)) == merge_all(
                    parsed_views(rules@),
                    xs.skip(k as int) + flat_rules(files@.take(f - 1)),
                ),
            decreases file.rules@.len() - k,
        {
            let ghost acc = parsed_views(rules@);
            let ghost tail = xs.skip(k as int) + flat_rules(files@.take(f - 1));
            assert(tail[0] == file.rules@[k as int]@);
            assert(tail.skip(1) =~= xs.skip(k + 1) + flat_rules(files@.take(f - 1)));
            merge_into(&mut rules, &file.rules[k]);
            k = k + 1;
        }
        assert(xs.skip(file.rules@.len() as int) =~= Seq::<ParsedView>::empty());
        assert(Seq::<ParsedView>::empty() + flat_rules(files@.take(f - 1)) =~= flat_rules(files@.take(f - 1)));
        let ghost d0 = disable_ids(disables@);
        let mut k: usize = 0;
        while k < file.disables.len()
            invariant
                k <= file.disables@.len(),
                disable_ids(disables@) == d0 + disable_ids(file.disables@).take(k as int),
            decreases file.disables@.len() - k,
        {
            let ghost before = disable_ids(disables@);
            let d = DisableDirective { rule_id: file.disables[k].rule_id.clone() };
            disables.push(d);
            assert(disable_ids(disables@) =~= before.push(file.disables@[k as int].rule_id@));
            assert(disable_ids(file.disables@).take(k + 1) =~= disable_ids(file.disables@).take(k as int).push(file.disables@[k as int].rule_id@));
            k = k + 1;
        }
        assert(disable_ids(file.disables@).take(file.disables@.len() as int) =~= disable_ids(file.disables@));
        assert(disable_ids(disables@) + flat_disables(files@.take(f - 1)) =~= d0 + flat_disables(pre));
        f = f - 1;
    }
    assert(files@.take(0) =~= Seq::<DeslopRulesFile>::empty());
    assert(parsed_views(rules@) == merge_all(parsed_views(rules@), Seq::<ParsedView>::empty()));
    assert(disable_ids(disables@) + Seq::<Seq<char>>::empty() =~= disable_ids(disables@));
    (rules, disables)
}

} // verus!

//! Coordinate notation: a magnitude, then one letter for the direction, as
//! in `12N` or `5.7w`.
//!
//! A magnitude is the text of a floating-point number. It is read as the
//! nearest single-precision number and then cut down to a whole number,
//! toward zero and within the range of a 16-bit signed integer. The nearest
//! single-precision number to a magnitude a little under a whole number may
//! be that whole number itself; how little is stated by [`half_gap`].

use crate::numeric::{
    all_digits, decimal_value, digit_run, is_digit, is_exponent, is_float_text, is_number,
    is_special, is_word,
    lemma_decimal_value_prefix, scan_digits, spells, word_inf, word_infinity, word_nan,
};
use crate::numeric::{DOT, LOWER_E, MINUS, PLUS, UPPER_E, ZERO};
use vstd::prelude::*;
use vstd::slice::{slice_subrange, slice_to_vec};
use vstd::string::StringSliceAdditionalSpecFns;

verus! {

/// The largest magnitude of a coordinate that counts upward.
pub const MAX_MAGNITUDE: i16 = 32767;

/// The magnitude of the lowest coordinate, at which the reading of
/// magnitudes stops.
pub const MAGNITUDE_CAP: u32 = 32768;

/// Ten to the power of 25: the number of units by which a fraction is
/// measured here.
pub const UNITS: u128 = 10_000_000_000_000_000_000_000_000;

/// Five to the power of 25, which is `UNITS` divided by two to the power of 25.
pub const UNITS_SHIFTED: u128 = 298_023_223_876_953_125;

/// The value at which the reading of an exponent stops: two to the power
/// of 100, which is more than the length of any text.
pub const EXPONENT_CAP: u128 = 0x1_0000_0000_0000_0000_0000_0000_0;

/// Why a token is no coordinate.
#[derive(Copy, Clone, Debug, PartialEq, Eq, Structural)]
pub enum CoordError {
    /// What stands before the last byte is no magnitude.
    Magnitude,
    /// The token is empty, or its last byte is none of the letters N, S, E
    /// and W in either case.
    Indicator,
    /// The magnitude stands for the lowest coordinate there is, and the
    /// direction asks for its opposite, which there is not.
    Range,
}

/// How many bytes the sign of a number takes: one or none.
pub open spec fn sign_len(s: Seq<u8>) -> int {
    if s.len() > 0 && (s[0] == PLUS || s[0] == MINUS) {
        1
    } else {
        0
    }
}

/// Whether a number begins with a minus sign.
pub open spec fn is_negative(s: Seq<u8>) -> bool {
    s.len() > 0 && s[0] == MINUS
}

/// Where the digits before the point end.
pub open spec fn whole_end(s: Seq<u8>) -> int {
    digit_run(s, sign_len(s))
}

/// Whether a point follows the digits before it.
pub open spec fn has_point(s: Seq<u8>) -> bool {
    whole_end(s) < s.len() && s[whole_end(s)] == DOT
}

/// Where the digits of a number end, those after the point included.
pub open spec fn mantissa_end(s: Seq<u8>) -> int {
    if has_point(s) {
        digit_run(s, whole_end(s) + 1)
    } else {
        whole_end(s)
    }
}

/// The digits of a number, those before the point and those after it,
/// without the point.
pub open spec fn mantissa(s: Seq<u8>) -> Seq<u8> {
    s.subrange(sign_len(s), whole_end(s)) + (if has_point(s) {
        s.subrange(whole_end(s) + 1, mantissa_end(s))
    } else {
        Seq::empty()
    })
}

/// The exponent of a number: what follows the letter `e`, as a whole
/// number with its sign; zero where there is no such letter.
pub open spec fn exponent(s: Seq<u8>) -> int {
    let first = mantissa_end(s) + 1;
    if first > s.len() {
        0
    } else if first < s.len() && s[first] == MINUS {
        -(decimal_value(s.subrange(first + 1, s.len() as int)) as int)
    } else if first < s.len() && s[first] == PLUS {
        decimal_value(s.subrange(first + 1, s.len() as int)) as int
    } else {
        decimal_value(s.subrange(first, s.len() as int)) as int
    }
}

/// How many digits of the mantissa stand before the point, once the point
/// is moved by the exponent. It may be negative, and more than there are
/// digits.
pub open spec fn point(s: Seq<u8>) -> int {
    whole_end(s) - sign_len(s) + exponent(s)
}

/// `n` zero digits; none where `n` is negative.
pub open spec fn zeros(n: int) -> Seq<u8> {
    Seq::new(
        if n > 0 {
            n as nat
        } else {
            0
        },
        |i: int| ZERO,
    )
}

/// The digits before the point, where `point` of the `digits` stand before
/// it: zeros fill what the digits do not reach.
pub open spec fn whole_digits(digits: Seq<u8>, point: int) -> Seq<u8> {
    if point <= 0 {
        Seq::empty()
    } else if point >= digits.len() {
        digits + zeros(point - digits.len())
    } else {
        digits.take(point)
    }
}

/// The digits after the point, where `point` of the `digits` stand before
/// it: zeros fill the places between the point and the digits.
pub open spec fn fraction_digits(digits: Seq<u8>, point: int) -> Seq<u8> {
    if point >= digits.len() {
        Seq::empty()
    } else if point >= 0 {
        digits.skip(point)
    } else {
        zeros(-point) + digits
    }
}

/// The first `n` digits of a fraction as a number, with zeros where the
/// fraction has fewer digits.
pub open spec fn fraction_units(frac: Seq<u8>, n: nat) -> nat
    decreases n,
{
    if n == 0 {
        0
    } else {
        10 * fraction_units(frac, (n - 1) as nat) + (if n - 1 < frac.len() {
            (frac[n - 1] - ZERO) as nat
        } else {
            0
        })
    }
}

/// Half the distance from the whole number `k + 1` down to the
/// single-precision number before it, in units of ten to the power of -25.
///
/// Below 1 the single-precision numbers lie two to the power of -24 apart,
/// and twice as far apart from each power of two on.
pub open spec fn half_gap(k: nat) -> nat
    decreases k,
{
    if k == 0 {
        UNITS_SHIFTED as nat
    } else if k == 1 {
        2 * UNITS_SHIFTED as nat
    } else {
        2 * half_gap(k / 2)
    }
}

/// The whole number that the nearest single-precision number to a
/// magnitude is cut down to, given the value of the digits before the point
/// and the digits after it; 32768 for every magnitude from there on.
///
/// It is the whole part, or the next whole number where the fraction comes
/// within [`half_gap`] of it.
pub open spec fn rounded(whole: nat, frac: Seq<u8>) -> nat {
    if whole >= MAGNITUDE_CAP {
        MAGNITUDE_CAP as nat
    } else if fraction_units(frac, 25) + half_gap(whole) >= UNITS {
        whole + 1
    } else {
        whole
    }
}

/// The whole number that the text of a floating-point number is cut down
/// to: zero for `nan`, the ends of the range for `inf`, and else the
/// rounded magnitude with its sign, held to the range.
pub open spec fn float_cut(s: Seq<u8>) -> int {
    let body = s.skip(sign_len(s));
    let m = rounded(
        decimal_value(whole_digits(mantissa(s), point(s))),
        fraction_digits(mantissa(s), point(s)),
    );
    if is_word(body, word_nan()) {
        0
    } else if is_special(body) {
        if is_negative(s) {
            i16::MIN as int
        } else {
            i16::MAX as int
        }
    } else if is_negative(s) {
        -(m as int)
    } else if m > MAX_MAGNITUDE {
        MAX_MAGNITUDE as int
    } else {
        m as int
    }
}

/// Whether `b` is the letter `upper`, in either case.
pub open spec fn is_letter(b: u8, upper: u8) -> bool {
    b == upper || b == upper + 32
}

/// Whether `b` points north or west, the directions that count upward.
pub open spec fn points_up(b: u8) -> bool {
    is_letter(b, 78) || is_letter(b, 87)
}

/// Whether `b` points south or east, the directions that count downward.
pub open spec fn points_down(b: u8) -> bool {
    is_letter(b, 83) || is_letter(b, 69)
}

/// The whole number that a coordinate token stands for, or why it stands
/// for none: what its magnitude is cut down to for north and west, the
/// opposite of that for south and east.
pub open spec fn coord_value(coord: Seq<u8>) -> Result<i16, CoordError> {
    if coord.len() == 0 {
        Err(CoordError::Indicator)
    } else if !is_float_text(coord.drop_last()) {
        Err(CoordError::Magnitude)
    } else if points_up(coord.last()) {
        Ok(float_cut(coord.drop_last()) as i16)
    } else if points_down(coord.last()) {
        if float_cut(coord.drop_last()) == i16::MIN {
            Err(CoordError::Range)
        } else {
            Ok((-float_cut(coord.drop_last())) as i16)
        }
    } else {
        Err(CoordError::Indicator)
    }
}

/// Ten to the power of `n`.
pub open spec fn pow10(n: nat) -> nat
    decreases n,
{
    if n == 0 {
        1
    } else {
        10 * pow10((n - 1) as nat)
    }
}

/// Every power of ten is at least one.
proof fn lemma_pow10_positive(a: nat)
    ensures
        pow10(a) >= 1,
    decreases a,
{
    if a > 0 {
        lemma_pow10_positive((a - 1) as nat);
    }
}

/// A higher power of ten is at least ten times a lower one.
proof fn lemma_pow10_monotone(a: nat, b: nat)
    requires
        a <= b,
    ensures
        a < b ==> pow10(a) * 10 <= pow10(b),
        pow10(a) >= 1,
        pow10(a) <= pow10(b),
    decreases b - a,
{
    if a < b {
        lemma_pow10_monotone(a + 1, b);
    }
    lemma_pow10_positive(a);
}

/// The powers of ten up to the 25th grow up to `UNITS`.
proof fn lemma_pow10_25(n: nat)
    requires
        n <= 25,
    ensures
        n < 25 ==> pow10(n) * 10 <= UNITS,
        n == 25 ==> pow10(n) == UNITS,
        pow10(n) >= 1,
{
    assert(pow10(5) == 100_000) by {
        reveal_with_fuel(pow10, 6);
    }
    assert(pow10(10) == 10_000_000_000) by {
        reveal_with_fuel(pow10, 6);
    }
    assert(pow10(15) == 1_000_000_000_000_000) by {
        reveal_with_fuel(pow10, 6);
    }
    assert(pow10(20) == 100_000_000_000_000_000_000) by {
        reveal_with_fuel(pow10, 6);
    }
    assert(pow10(25) == UNITS) by {
        reveal_with_fuel(pow10, 6);
    }
    lemma_pow10_monotone(n, 25);
}

/// A run of digits holds nothing but digits.
pub proof fn lemma_digit_run_all_digits(s: Seq<u8>, from: int)
    requires
        0 <= from <= s.len(),
    ensures
        from <= digit_run(s, from) <= s.len(),
        all_digits(s.subrange(from, digit_run(s, from))),
    decreases s.len() - from,
{
    if from < s.len() && is_digit(s[from]) {
        lemma_digit_run_all_digits(s, from + 1);
        let run = s.subrange(from, digit_run(s, from));
        let rest = s.subrange(from + 1, digit_run(s, from));
        assert forall|i: int| 0 <= i < run.len() implies is_digit(#[trigger] run[i]) by {
            if i > 0 {
                assert(run[i] == rest[i - 1]);
            }
        }
    }
}

/// Zeros at the end of a run of digits multiply its value by ten each.
proof fn lemma_value_with_zeros(digits: Seq<u8>, n: nat)
    ensures
        decimal_value(digits + zeros(n as int)) == decimal_value(digits) * pow10(n),
    decreases n,
{
    if n == 0 {
        assert(digits + zeros(0) =~= digits);
        assert(pow10(0) == 1);
        assert(decimal_value(digits) * 1 == decimal_value(digits)) by (nonlinear_arith);
    } else {
        let longer = digits + zeros(n as int);
        let shorter = digits + zeros(n - 1);
        assert(longer.drop_last() =~= shorter);
        assert(longer.last() == ZERO);
        assert(decimal_value(longer) == 10 * decimal_value(shorter));
        lemma_value_with_zeros(digits, (n - 1) as nat);
        assert(pow10(n) == 10 * pow10((n - 1) as nat));
        assert(decimal_value(digits) * (10 * pow10((n - 1) as nat)) == 10 * (decimal_value(digits)
            * pow10((n - 1) as nat))) by (nonlinear_arith);
    }
}

/// A fraction that begins with `n` zeros has no units in its first `n` digits.
proof fn lemma_fraction_of_zeros(frac: Seq<u8>, n: nat)
    requires
        forall|i: int| 0 <= i < n && i < frac.len() ==> frac[i] == ZERO,
    ensures
        fraction_units(frac, n) == 0,
    decreases n,
{
    if n > 0 {
        lemma_fraction_of_zeros(frac, (n - 1) as nat);
    }
}

/// The value of the digits of `s` from `from` up to `to`, or 32768 where it
/// is more than that.
fn whole_value(s: &[u8], from: usize, to: usize) -> (r: u32)
    requires
        from <= to <= s@.len(),
        all_digits(s@.subrange(from as int, to as int)),
    ensures
        r <= MAGNITUDE_CAP,
        r == (if decimal_value(s@.subrange(from as int, to as int)) >= MAGNITUDE_CAP {
            MAGNITUDE_CAP as nat
        } else {
            decimal_value(s@.subrange(from as int, to as int))
        }),
{
    let ghost digits = s@.subrange(from as int, to as int);
    let mut acc: u32 = 0;
    let mut i: usize = from;
    while i < to
        invariant
            from <= i <= to <= s@.len(),
            digits == s@.subrange(from as int, to as int),
            all_digits(digits),
            acc < MAGNITUDE_CAP,
            acc == decimal_value(digits.take(i - from)),
        decreases to - i,
    {
        let ghost next = digits.take(i - from + 1);
        assert(next.drop_last() =~= digits.take(i - from));
        assert(next.last() == s@[i as int]);
        assert(is_digit(digits[i - from]));
        acc = acc * 10 + (s[i] - ZERO) as u32;
        if acc >= MAGNITUDE_CAP {
            proof {
                lemma_decimal_value_prefix(digits, i - from + 1);
            }
            return MAGNITUDE_CAP;
        }
        i = i + 1;
    }
    assert(digits.take(i - from) =~= digits);
    acc
}

/// The value of the digits of `s` from `from` up to `to`, or
/// `EXPONENT_CAP` where it is more than that.
fn exponent_value(s: &[u8], from: usize, to: usize) -> (r: u128)
    requires
        from <= to <= s@.len(),
        all_digits(s@.subrange(from as int, to as int)),
    ensures
        r <= EXPONENT_CAP,
        r == (if decimal_value(s@.subrange(from as int, to as int)) >= EXPONENT_CAP {
            EXPONENT_CAP as nat
        } else {
            decimal_value(s@.subrange(from as int, to as int))
        }),
{
    let ghost digits = s@.subrange(from as int, to as int);
    let mut acc: u128 = 0;
    let mut i: usize = from;
    while i < to
        invariant
            from <= i <= to <= s@.len(),
            digits == s@.subrange(from as int, to as int),
            all_digits(digits),
            acc < EXPONENT_CAP,
            acc == decimal_value(digits.take(i - from)),
        decreases to - i,
    {
        let ghost next = digits.take(i - from + 1);
        assert(next.drop_last() =~= digits.take(i - from));
        assert(next.last() == s@[i as int]);
        assert(is_digit(digits[i - from]));
        acc = acc * 10 + (s[i] - ZERO) as u128;
        if acc >= EXPONENT_CAP {
            proof {
                lemma_decimal_value_prefix(digits, i - from + 1);
            }
            return EXPONENT_CAP;
        }
        i = i + 1;
    }
    assert(digits.take(i - from) =~= digits);
    acc
}

/// The first 25 digits of the fraction `frac`, as a number of units.
fn fraction_value(frac: &[u8]) -> (r: u128)
    requires
        all_digits(frac@),
    ensures
        r == fraction_units(frac@, 25),
        r < UNITS,
{
    let len: usize = frac.len();
    let mut acc: u128 = 0;
    let mut bound: u128 = 1;
    let mut n: usize = 0;
    while n < 25
        invariant
            0 <= n <= 25,
            len == frac@.len(),
            all_digits(frac@),
            acc == fraction_units(frac@, n as nat),
            acc < bound,
            pow10(n as nat) == bound,
            bound <= UNITS,
        decreases 25 - n,
    {
        proof {
            lemma_pow10_25(n as nat);
            lemma_pow10_25((n + 1) as nat);
        }
        let digit: u128 = if n < len {
            assert(is_digit(frac@[n as int]));
            (frac[n] - ZERO) as u128
        } else {
            0
        };
        acc = acc * 10 + digit;
        bound = bound * 10;
        n = n + 1;
    }
    proof {
        lemma_pow10_25(25);
    }
    acc
}

/// Half the gap below `k + 1`, for a whole number under 32768.
fn half_gap_of(k: u32) -> (r: u128)
    requires
        k < MAGNITUDE_CAP,
    ensures
        r == half_gap(k as nat),
        r <= 65536 * UNITS_SHIFTED,
{
    if k == 0 {
        return UNITS_SHIFTED;
    }
    let mut rest: u32 = k;
    let mut factor: u128 = 2;
    while rest >= 2
        invariant
            1 <= rest <= k,
            k < MAGNITUDE_CAP,
            2 <= factor <= 65536,
            factor * rest <= 2 * k,
            half_gap(k as nat) * 2 == factor * half_gap(rest as nat),
        decreases rest,
    {
        let ghost before = rest;
        assert(factor * 2 <= 65536) by (nonlinear_arith)
            requires
                factor * rest <= 2 * k,
                rest >= 2,
                k < 32768,
                factor >= 0,
        ;
        rest = rest / 2;
        factor = factor * 2;
        assert(half_gap(before as nat) == 2 * half_gap(rest as nat));
        assert(factor * rest <= 2 * k) by (nonlinear_arith)
            requires
                (factor / 2) * before <= 2 * k,
                rest * 2 <= before,
                factor % 2 == 0,
                factor >= 0,
        ;
        assert(half_gap(k as nat) * 2 == factor * half_gap(rest as nat)) by (nonlinear_arith)
            requires
                half_gap(k as nat) * 2 == (factor / 2) * half_gap(before as nat),
                half_gap(before as nat) == 2 * half_gap(rest as nat),
                factor % 2 == 0,
        ;
    }
    assert(rest == 1);
    assert(half_gap(1) == 2 * UNITS_SHIFTED);
    assert(factor * UNITS_SHIFTED <= 65536 * UNITS_SHIFTED) by (nonlinear_arith)
        requires
            factor <= 65536,
    ;
    assert(half_gap(k as nat) == factor * UNITS_SHIFTED) by (nonlinear_arith)
        requires
            half_gap(k as nat) * 2 == factor * (2 * UNITS_SHIFTED),
    ;
    factor * UNITS_SHIFTED
}

/// The whole number that a magnitude is cut down to, from the digits before
/// the point and the digits after it.
fn rounded_of(whole: &[u8], frac: &[u8]) -> (r: u32)
    requires
        all_digits(whole@),
        all_digits(frac@),
    ensures
        r == rounded(decimal_value(whole@), frac@),
        r <= MAGNITUDE_CAP,
{
    assert(whole@.subrange(0, whole@.len() as int) =~= whole@);
    let w: u32 = whole_value(whole, 0, whole.len());
    if w >= MAGNITUDE_CAP {
        return MAGNITUDE_CAP;
    }
    let units: u128 = fraction_value(frac);
    let gap: u128 = half_gap_of(w);
    if units + gap >= UNITS {
        w + 1
    } else {
        w
    }
}

/// `n` zero digits.
fn zeros_of(n: usize) -> (r: Vec<u8>)
    ensures
        r@ == zeros(n as int),
{
    let mut r: Vec<u8> = Vec::new();
    let mut i: usize = 0;
    while i < n
        invariant
            0 <= i <= n,
            r@ == zeros(i as int),
        decreases n - i,
    {
        r.push(ZERO);
        i = i + 1;
        assert(r@ =~= zeros(i as int));
    }
    assert(r@ =~= zeros(n as int));
    r
}

/// The bytes of `first`, then those of `second`.
fn joined(first: &[u8], second: &[u8]) -> (r: Vec<u8>)
    ensures
        r@ == first@ + second@,
{
    let mut r: Vec<u8> = slice_to_vec(first);
    let mut rest: Vec<u8> = slice_to_vec(second);
    r.append(&mut rest);
    r
}

/// The whole number that a magnitude is cut down to, from its digits and
/// the number of them that stand before the point.
fn rounded_at(digits: &[u8], point: i128) -> (r: u32)
    requires
        all_digits(digits@),
    ensures
        r == rounded(
            decimal_value(whole_digits(digits@, point as int)),
            fraction_digits(digits@, point as int),
        ),
        r <= MAGNITUDE_CAP,
{
    let len: usize = digits.len();
    let ghost whole = whole_digits(digits@, point as int);
    let ghost frac = fraction_digits(digits@, point as int);
    assert(digits@.subrange(0, len as int) =~= digits@);
    if point <= -25 {
        proof {
            assert(whole =~= Seq::<u8>::empty());
            lemma_fraction_of_zeros(frac, 25);
            assert(half_gap(0) < UNITS);
        }
        0
    } else if point >= len as i128 + 5 {
        let w: u32 = whole_value(digits, 0, len);
        proof {
            lemma_far_whole(digits@, point as int);
            assert(frac =~= Seq::<u8>::empty());
            lemma_fraction_of_zeros(frac, 25);
            assert(half_gap(0) < UNITS);
        }
        if w == 0 {
            0
        } else {
            MAGNITUDE_CAP
        }
    } else if point <= 0 {
        let filler: Vec<u8> = zeros_of((-point) as usize);
        let after: Vec<u8> = joined(filler.as_slice(), digits);
        assert(after@ =~= frac);
        assert(whole =~= Seq::<u8>::empty());
        let before: Vec<u8> = Vec::new();
        rounded_of(before.as_slice(), after.as_slice())
    } else if point >= len as i128 {
        let filler: Vec<u8> = zeros_of((point - len as i128) as usize);
        let before: Vec<u8> = joined(digits, filler.as_slice());
        assert(before@ =~= whole);
        assert(frac =~= Seq::<u8>::empty());
        let after: Vec<u8> = Vec::new();
        rounded_of(before.as_slice(), after.as_slice())
    } else {
        let at: usize = point as usize;
        let before = slice_subrange(digits, 0, at);
        let after = slice_subrange(digits, at, len);
        assert(before@ =~= whole);
        assert(after@ =~= frac);
        rounded_of(before, after)
    }
}

/// The place of the point held to where it makes a difference: from 25
/// places before the digits to 5 places past them.
pub open spec fn held(point: int, len: int) -> int {
    if point <= -25 {
        -25
    } else if point >= len + 5 {
        len + 5
    } else {
        point
    }
}

/// Where the point lies five places or more past the digits, the value of
/// the digits before it is zero or beyond every magnitude.
proof fn lemma_far_whole(digits: Seq<u8>, point: int)
    requires
        point >= digits.len() + 5,
    ensures
        decimal_value(digits) == 0 ==> decimal_value(whole_digits(digits, point)) == 0,
        decimal_value(digits) > 0 ==> decimal_value(whole_digits(digits, point)) >= 100_000,
{
    let n = (point - digits.len()) as nat;
    lemma_value_with_zeros(digits, n);
    lemma_pow10_monotone(5, n);
    assert(pow10(5) == 100_000) by {
        reveal_with_fuel(pow10, 6);
    }
    if decimal_value(digits) > 0 {
        assert(decimal_value(digits) * pow10(n) >= 100_000) by (nonlinear_arith)
            requires
                decimal_value(digits) >= 1,
                pow10(n) >= 100_000,
        ;
    } else {
        assert(decimal_value(digits) * pow10(n) == 0) by (nonlinear_arith)
            requires
                decimal_value(digits) == 0,
        ;
    }
}

/// A point that lies far from the digits may be taken to lie nearer: the
/// magnitude is cut down to the same whole number.
proof fn lemma_held_point(digits: Seq<u8>, point: int)
    ensures
        rounded(decimal_value(whole_digits(digits, point)), fraction_digits(digits, point))
            == rounded(
            decimal_value(whole_digits(digits, held(point, digits.len() as int))),
            fraction_digits(digits, held(point, digits.len() as int)),
        ),
{
    let near = held(point, digits.len() as int);
    if point <= -25 {
        assert(whole_digits(digits, point) =~= whole_digits(digits, near));
        lemma_fraction_of_zeros(fraction_digits(digits, point), 25);
        lemma_fraction_of_zeros(fraction_digits(digits, near), 25);
    } else if point >= digits.len() + 5 {
        lemma_far_whole(digits, point);
        lemma_far_whole(digits, near);
        assert(fraction_digits(digits, point) =~= fraction_digits(digits, near));
    }
}

/// The digits of the number in `text` whose digits before the point run
/// from `from` up to `a`, and whose digits after it end at `b`.
fn mantissa_of(text: &[u8], from: usize, a: usize, b: usize) -> (digits: Vec<u8>)
    requires
        from == sign_len(text@),
        a == whole_end(text@),
        b == mantissa_end(text@),
    ensures
        digits@ == mantissa(text@),
        all_digits(digits@),
{
    proof {
        lemma_digit_run_all_digits(text@, from as int);
    }
    let front = slice_subrange(text, from, a);
    if a < text.len() && text[a] == DOT {
        proof {
            lemma_digit_run_all_digits(text@, a + 1);
        }
        let back = slice_subrange(text, a + 1, b);
        let digits = joined(front, back);
        assert forall|i: int| 0 <= i < digits@.len() implies is_digit(#[trigger] digits@[i]) by {
            if i < front@.len() {
                assert(digits@[i] == front@[i]);
            } else {
                assert(digits@[i] == back@[i - front@.len()]);
            }
        }
        digits
    } else {
        let digits = slice_to_vec(front);
        assert(digits@ =~= mantissa(text@));
        digits
    }
}

/// The value of the exponent that stands at `first`, held to
/// `EXPONENT_CAP`, and whether it lowers the number; `None` where no
/// exponent stands there.
fn read_exponent(text: &[u8], first: usize) -> (r: Option<(bool, u128)>)
    requires
        first <= text@.len(),
    ensures
        r is Some == is_exponent(text@, first as int),
        r matches Some((lowers, power)) ==> {
            &&& lowers == (text@[first as int] == MINUS)
            &&& power <= EXPONENT_CAP
            &&& power == (if decimal_value(
                text@.subrange(
                    if text@[first as int] == PLUS || text@[first as int] == MINUS {
                        first + 1
                    } else {
                        first as int
                    },
                    text@.len() as int,
                ),
            ) >= EXPONENT_CAP {
                EXPONENT_CAP as nat
            } else {
                decimal_value(
                    text@.subrange(
                        if text@[first as int] == PLUS || text@[first as int] == MINUS {
                            first + 1
                        } else {
                            first as int
                        },
                        text@.len() as int,
                    ),
                )
            })
        },
{
    let len: usize = text.len();
    let signed: bool = first < len && (text[first] == PLUS || text[first] == MINUS);
    let digits: usize = if signed {
        first + 1
    } else {
        first
    };
    if digits >= len || scan_digits(text, digits) != len {
        return None;
    }
    proof {
        lemma_digit_run_all_digits(text@, digits as int);
    }
    Some((text[first] == MINUS, exponent_value(text, digits, len)))
}

/// Whether `text` from `from` on names a value that is no finite number,
/// and whether that value is `nan`.
fn read_special(text: &[u8], from: usize) -> (r: Option<bool>)
    requires
        from <= text@.len(),
    ensures
        r is Some == is_special(text@.skip(from as int)),
        r == Some(true) <==> is_word(text@.skip(from as int), word_nan()),
{
    let inf: [u8; 3] = [105, 110, 102];
    let infinity: [u8; 8] = [105, 110, 102, 105, 110, 105, 116, 121];
    let nan: [u8; 3] = [110, 97, 110];
    assert(inf@ =~= word_inf());
    assert(infinity@ =~= word_infinity());
    assert(nan@ =~= word_nan());
    if spells(text, from, nan.as_slice()) {
        Some(true)
    } else if spells(text, from, inf.as_slice()) || spells(text, from, infinity.as_slice()) {
        Some(false)
    } else {
        None
    }
}

/// The digits of the number that `text` holds after its sign, and the place
/// of the point among them, held to where it makes a difference; `None`
/// where `text` holds no number there.
fn read_number(text: &[u8], from: usize) -> (r: Option<(Vec<u8>, i128)>)
    requires
        from == sign_len(text@),
    ensures
        r is Some == is_number(text@, from as int),
        r matches Some((digits, at)) ==> {
            &&& digits@ == mantissa(text@)
            &&& all_digits(digits@)
            &&& at == held(point(text@), digits@.len() as int)
        },
{
    let len: usize = text.len();
    let a: usize = scan_digits(text, from);
    let b: usize = if a < len && text[a] == DOT {
        scan_digits(text, a + 1)
    } else {
        a
    };
    let count: usize = if a < len && text[a] == DOT {
        b - from - 1
    } else {
        b - from
    };
    if count == 0 {
        return None;
    }
    let (lowers, power): (bool, u128) = if b == len {
        (false, 0)
    } else if text[b] != LOWER_E && text[b] != UPPER_E {
        return None;
    } else {
        match read_exponent(text, b + 1) {
            None => {
                return None;
            },
            Some(found) => found,
        }
    };
    assert(is_number(text@, from as int));
    assert(b == mantissa_end(text@));
    let ghost e = exponent(text@);
    assert(!lowers ==> e >= 0 && power == (if e >= EXPONENT_CAP {
        EXPONENT_CAP as int
    } else {
        e
    }));
    assert(lowers ==> e <= 0 && power == (if -e >= EXPONENT_CAP {
        EXPONENT_CAP as int
    } else {
        -e
    }));
    let digits: Vec<u8> = mantissa_of(text, from, a, b);
    let before: i128 = (a - from) as i128;
    let shifted: i128 = if lowers {
        before - power as i128
    } else {
        before + power as i128
    };
    let at: i128 = if shifted <= -25 {
        -25
    } else if shifted >= digits.len() as i128 + 5 {
        digits.len() as i128 + 5
    } else {
        shifted
    };
    assert(point(text@) == before + e);
    Some((digits, at))
}

/// The whole number that the text of a floating-point number is cut down
/// to; `None` for a text that is none.
pub fn float_to_whole(text: &[u8]) -> (r: Option<i16>)
    ensures
        r == (if is_float_text(text@) {
            Some(float_cut(text@) as i16)
        } else {
            None
        }),
{
    let len: usize = text.len();
    let from: usize = if len > 0 && (text[0] == PLUS || text[0] == MINUS) {
        1
    } else {
        0
    };
    let negative: bool = len > 0 && text[0] == MINUS;
    match read_special(text, from) {
        Some(true) => {
            return Some(0);
        },
        Some(false) => {
            return Some(
                if negative {
                    i16::MIN
                } else {
                    i16::MAX
                },
            );
        },
        None => {},
    }
    let (digits, at): (Vec<u8>, i128) = match read_number(text, from) {
        None => {
            return None;
        },
        Some(found) => found,
    };
    proof {
        lemma_held_point(digits@, point(text@));
    }
    let m: u32 = rounded_at(digits.as_slice(), at);
    Some(
        if negative {
            (-(m as i32)) as i16
        } else if m > MAX_MAGNITUDE as u32 {
            MAX_MAGNITUDE
        } else {
            m as i16
        },
    )
}

/// Reads a coordinate token: a magnitude, then the letter of its direction.
pub fn coord_to_num(coord: &str) -> (r: Result<i16, CoordError>)
    ensures
        r == coord_value(coord.spec_bytes()),
{
    coord_from_bytes(coord.as_bytes())
}

/// Reads a coordinate token from its bytes.
pub fn coord_from_bytes(coord: &[u8]) -> (r: Result<i16, CoordError>)
    ensures
        r == coord_value(coord@),
{
    let n: usize = coord.len();
    if n == 0 {
        return Err(CoordError::Indicator);
    }
    let magnitude = slice_subrange(coord, 0, n - 1);
    assert(magnitude@ =~= coord@.drop_last());
    let value: i16 = match float_to_whole(magnitude) {
        None => {
            return Err(CoordError::Magnitude);
        },
        Some(value) => value,
    };
    let indicator: u8 = coord[n - 1];
    if indicator == 78 || indicator == 110 || indicator == 87 || indicator == 119 {
        Ok(value)
    } else if indicator == 83 || indicator == 115 || indicator == 69 || indicator == 101 {
        if value == i16::MIN {
            Err(CoordError::Range)
        } else {
            Ok(-value)
        }
    } else {
        Err(CoordError::Indicator)
    }
}

} // verus!

//! Numeric text: the decimal notation of the tokens that frame a record, and
//! the rules by which a token counts as a number.

use vstd::prelude::*;

verus! {

/// ASCII `+`.
pub const PLUS: u8 = 43;

/// ASCII `-`.
pub const MINUS: u8 = 45;

/// ASCII `.`.
pub const DOT: u8 = 46;

/// ASCII `0`.
pub const ZERO: u8 = 48;

/// ASCII `9`.
pub const NINE: u8 = 57;

/// Whether `b` is an ASCII decimal digit.
pub open spec fn is_digit(b: u8) -> bool {
    ZERO <= b <= NINE
}

/// Whether every byte of `s` is an ASCII decimal digit.
pub open spec fn all_digits(s: Seq<u8>) -> bool {
    forall|i: int| 0 <= i < s.len() ==> is_digit(#[trigger] s[i])
}

/// The number that the digits of `s` denote in base ten; zero for no digits.
pub open spec fn decimal_value(s: Seq<u8>) -> nat
    decreases s.len(),
{
    if s.len() == 0 {
        0
    } else {
        10 * decimal_value(s.drop_last()) + (s.last() - ZERO) as nat
    }
}

/// The index at which the run of digits that starts at `from` ends.
pub open spec fn digit_run(s: Seq<u8>, from: int) -> int
    decreases s.len() - from,
{
    if 0 <= from < s.len() && is_digit(s[from]) {
        digit_run(s, from + 1)
    } else {
        from
    }
}

/// Whether `s` begins with a sign: `+`, or `-` where a negative number is allowed.
pub open spec fn has_sign(s: Seq<u8>, signed: bool) -> bool {
    s.len() > 0 && (s[0] == PLUS || (signed && s[0] == MINUS))
}

/// The integer that `s` denotes: an optional sign, then one digit or more.
pub open spec fn integer_value(s: Seq<u8>, signed: bool) -> Option<int> {
    let body = if has_sign(s, signed) {
        s.skip(1)
    } else {
        s
    };
    if body.len() > 0 && all_digits(body) {
        if has_sign(s, signed) && s[0] == MINUS {
            Some(-(decimal_value(body) as int))
        } else {
            Some(decimal_value(body) as int)
        }
    } else {
        None
    }
}

/// The 32-bit signed integer that `s` denotes, if it denotes one.
pub open spec fn i32_of_text(s: Seq<u8>) -> Option<i32> {
    match integer_value(s, true) {
        Some(v) => if i32::MIN <= v <= i32::MAX {
            Some(v as i32)
        } else {
            None
        },
        None => None,
    }
}

/// The length that `s` denotes, if it denotes one that the machine can hold.
pub open spec fn usize_of_text(s: Seq<u8>) -> Option<usize> {
    match integer_value(s, false) {
        Some(v) => if v <= usize::MAX {
            Some(v as usize)
        } else {
            None
        },
        None => None,
    }
}

/// A prefix of a run of digits denotes no more than the whole run.
pub proof fn lemma_decimal_value_prefix(s: Seq<u8>, k: int)
    requires
        0 <= k <= s.len(),
    ensures
        decimal_value(s.take(k)) <= decimal_value(s),
    decreases s.len(),
{
    if k == s.len() {
        assert(s.take(k) =~= s);
    } else {
        assert(s.drop_last().take(k) =~= s.take(k));
        lemma_decimal_value_prefix(s.drop_last(), k);
    }
}

/// The digits of `s` from `from` on as a number, where there is one digit at
/// least, nothing but digits, and the number is no more than `limit`.
fn parse_digits(s: &[u8], from: usize, limit: u64) -> (r: Option<u64>)
    requires
        from <= s@.len(),
    ensures
        r == (if s@.skip(from as int).len() > 0 && all_digits(s@.skip(from as int))
            && decimal_value(s@.skip(from as int)) <= limit {
            Some(decimal_value(s@.skip(from as int)) as u64)
        } else {
            None
        }),
{
    let ghost body = s@.skip(from as int);
    if from == s.len() {
        return None;
    }
    let mut acc: u128 = 0;
    let mut i: usize = from;
    while i < s.len()
        invariant
            from <= i <= s@.len(),
            body == s@.skip(from as int),
            all_digits(body.take(i - from)),
            acc == decimal_value(body.take(i - from)),
            acc <= limit,
        decreases s@.len() - i,
    {
        let b: u8 = s[i];
        if b < ZERO || b > NINE {
            assert(!is_digit(body[i - from]));
            return None;
        }
        let ghost next = body.take(i - from + 1);
        assert(next.drop_last() =~= body.take(i - from));
        assert(next.last() == b);
        acc = acc * 10 + (b - ZERO) as u128;
        assert(acc == decimal_value(next));
        if acc > limit as u128 {
            proof {
                lemma_decimal_value_prefix(body, i - from + 1);
            }
            return None;
        }
        i = i + 1;
    }
    assert(body.take(i - from) =~= body);
    Some(acc as u64)
}

/// Reads `s` as a 32-bit signed integer: an optional sign, then digits.
pub fn parse_i32(s: &[u8]) -> (r: Option<i32>)
    ensures
        r == i32_of_text(s@),
{
    if s.len() == 0 {
        return None;
    }
    let first: u8 = s[0];
    if first == MINUS {
        match parse_digits(s, 1, 2147483648) {
            Some(m) => {
                if m == 2147483648 {
                    Some(i32::MIN)
                } else {
                    Some(-(m as i32))
                }
            },
            None => None,
        }
    } else if first == PLUS {
        match parse_digits(s, 1, 2147483647) {
            Some(m) => Some(m as i32),
            None => None,
        }
    } else {
        assert(s@.skip(0) =~= s@);
        match parse_digits(s, 0, 2147483647) {
            Some(m) => Some(m as i32),
            None => None,
        }
    }
}

/// Reads `s` as a length: an optional `+`, then digits.
pub fn parse_usize(s: &[u8]) -> (r: Option<usize>)
    ensures
        r == usize_of_text(s@),
{
    if s.len() == 0 {
        return None;
    }
    let first: u8 = s[0];
    let from: usize = if first == PLUS {
        1
    } else {
        0
    };
    assert(s@.skip(0) =~= s@);
    match parse_digits(s, from, usize::MAX as u64) {
        Some(m) => Some(m as usize),
        None => None,
    }
}

/// ASCII `E`.
pub const UPPER_E: u8 = 69;

/// ASCII `e`.
pub const LOWER_E: u8 = 101;

/// The lower-case form of an ASCII letter; any other byte is unchanged.
pub open spec fn lower(b: u8) -> u8 {
    if 65 <= b <= 90 {
        (b + 32) as u8
    } else {
        b
    }
}

/// Whether `s` spells the lower-case `word`, whatever the case of its letters.
pub open spec fn is_word(s: Seq<u8>, word: Seq<u8>) -> bool {
    s.len() == word.len() && forall|i: int| 0 <= i < s.len() ==> lower(#[trigger] s[i]) == word[i]
}

/// The letters `inf`.
pub open spec fn word_inf() -> Seq<u8> {
    seq![105u8, 110u8, 102u8]
}

/// The letters `infinity`.
pub open spec fn word_infinity() -> Seq<u8> {
    seq![105u8, 110u8, 102u8, 105u8, 110u8, 105u8, 116u8, 121u8]
}

/// The letters `nan`.
pub open spec fn word_nan() -> Seq<u8> {
    seq![110u8, 97u8, 110u8]
}

/// Whether `s` names a value that is no finite number: `inf`, `infinity` or `nan`.
pub open spec fn is_special(s: Seq<u8>) -> bool {
    is_word(s, word_inf()) || is_word(s, word_infinity()) || is_word(s, word_nan())
}

/// Whether `s` from `from` on is an exponent's value: an optional sign, then
/// one digit or more, up to the end of `s`.
pub open spec fn is_exponent(s: Seq<u8>, from: int) -> bool {
    let first = if from < s.len() && (s[from] == PLUS || s[from] == MINUS) {
        from + 1
    } else {
        from
    };
    first < s.len() && digit_run(s, first) == s.len()
}

/// Whether `s` from `from` on is a decimal number: digits with at most one
/// point among them, one digit at least, and then either the end of `s` or the
/// letter `e` and an exponent.
pub open spec fn is_number(s: Seq<u8>, from: int) -> bool {
    let a = digit_run(s, from);
    let pointed = a < s.len() && s[a] == DOT;
    let b = if pointed {
        digit_run(s, a + 1)
    } else {
        a
    };
    let digits = if pointed {
        b - from - 1
    } else {
        b - from
    };
    digits > 0 && (b == s.len() || ((s[b] == LOWER_E || s[b] == UPPER_E) && is_exponent(
        s,
        b + 1,
    )))
}

/// Whether `s` is the text of a floating-point number: an optional sign, then
/// a decimal number or one of the words `inf`, `infinity` and `nan`.
pub open spec fn is_float_text(s: Seq<u8>) -> bool {
    let from: int = if s.len() > 0 && (s[0] == PLUS || s[0] == MINUS) {
        1
    } else {
        0
    };
    is_special(s.skip(from)) || is_number(s, from)
}

/// The end of the run of digits that starts at `from`.
pub(crate) fn scan_digits(s: &[u8], from: usize) -> (end: usize)
    requires
        from <= s@.len(),
    ensures
        end == digit_run(s@, from as int),
        from <= end <= s@.len(),
{
    let mut i: usize = from;
    while i < s.len() && s[i] >= ZERO && s[i] <= NINE
        invariant
            from <= i <= s@.len(),
            digit_run(s@, from as int) == digit_run(s@, i as int),
        decreases s@.len() - i,
    {
        i = i + 1;
    }
    i
}

/// Whether `s` from `from` on spells `word`, whatever the case of its letters.
pub(crate) fn spells(s: &[u8], from: usize, word: &[u8]) -> (r: bool)
    requires
        from <= s@.len(),
    ensures
        r == is_word(s@.skip(from as int), word@),
{
    let n: usize = s.len();
    if n - from != word.len() {
        return false;
    }
    let ghost rest = s@.skip(from as int);
    let mut i: usize = 0;
    while i < word.len()
        invariant
            from <= s@.len(),
            n == s@.len(),
            rest == s@.skip(from as int),
            rest.len() == word@.len(),
            from + word@.len() == s@.len(),
            0 <= i <= word@.len(),
            forall|j: int| 0 <= j < i ==> lower(#[trigger] rest[j]) == word@[j],
        decreases word@.len() - i,
    {
        let b: u8 = s[from + i];
        let low: u8 = if 65 <= b && b <= 90 {
            b + 32
        } else {
            b
        };
        assert(rest[i as int] == b);
        if low != word[i] {
            return false;
        }
        i = i + 1;
    }
    true
}

/// Whether `s` from `from` on is `inf`, `infinity` or `nan`, in either case.
fn names_special(s: &[u8], from: usize) -> (r: bool)
    requires
        from <= s@.len(),
    ensures
        r == is_special(s@.skip(from as int)),
{
    let inf: [u8; 3] = [105, 110, 102];
    let infinity: [u8; 8] = [105, 110, 102, 105, 110, 105, 116, 121];
    let nan: [u8; 3] = [110, 97, 110];
    assert(inf@ =~= word_inf());
    assert(infinity@ =~= word_infinity());
    assert(nan@ =~= word_nan());
    spells(s, from, inf.as_slice()) || spells(s, from, infinity.as_slice()) || spells(
        s,
        from,
        nan.as_slice(),
    )
}

/// Whether the token `s` is the text of a floating-point number.
pub fn is_float(s: &[u8]) -> (r: bool)
    ensures
        r == is_float_text(s@),
{
    let from: usize = if s.len() > 0 && (s[0] == PLUS || s[0] == MINUS) {
        1
    } else {
        0
    };
    if names_special(s, from) {
        return true;
    }
    let a: usize = scan_digits(s, from);
    let pointed: bool = a < s.len() && s[a] == DOT;
    let b: usize = if pointed {
        scan_digits(s, a + 1)
    } else {
        a
    };
    let digits: usize = if pointed {
        b - from - 1
    } else {
        b - from
    };
    if digits == 0 {
        return false;
    }
    if b == s.len() {
        return true;
    }
    if s[b] != LOWER_E && s[b] != UPPER_E {
        return false;
    }
    let e: usize = b + 1;
    let first: usize = if e < s.len() && (s[e] == PLUS || s[e] == MINUS) {
        e + 1
    } else {
        e
    };
    first < s.len() && scan_digits(s, first) == s.len()
}

} // verus!

//! Numeric literals: decimal integers with their value, and the shape of a
//! floating-point literal.
use crate::chars::{digit, is_digit, lemma_span_end, scan_span, span_end, CharClass};
use vstd::prelude::*;
use vstd::slice::slice_subrange;

verus! {

/// The number that the decimal digit `c` stands for.
pub open spec fn digit_value(c: char) -> nat {
    (c as u32 - '0' as u32) as nat
}

/// Every character of `s` is a decimal digit.
pub open spec fn all_digits(s: Seq<char>) -> bool {
    forall|i: int| 0 <= i < s.len() ==> digit(#[trigger] s[i])
}

/// The number that the digits `s` write in base ten.
pub open spec fn decimal_value(s: Seq<char>) -> nat
    decreases s.len(),
{
    if s.len() == 0 {
        0
    } else {
        decimal_value(s.drop_last()) * 10 + digit_value(s.last())
    }
}

/// `+` or `-`.
pub open spec fn sign(c: char) -> bool {
    c == '+' || c == '-'
}

/// The value of an unsigned integer literal: one or more decimal digits and
/// nothing else. No sign is accepted.
pub open spec fn unsigned_value(s: Seq<char>) -> Option<nat> {
    if s.len() > 0 && all_digits(s) {
        Some(decimal_value(s))
    } else {
        None
    }
}

/// The value of a signed integer literal: an optional `+` or `-`, then one or
/// more decimal digits and nothing else.
pub open spec fn signed_value(s: Seq<char>) -> Option<int> {
    if s.len() > 0 && sign(s[0]) {
        match unsigned_value(s.drop_first()) {
            Some(n) => Some(
                if s[0] == '-' {
                    -(n as int)
                } else {
                    n as int
                },
            ),
            None => None,
        }
    } else {
        match unsigned_value(s) {
            Some(n) => Some(n as int),
            None => None,
        }
    }
}

/// The unsigned literal `s` as a number no greater than `max`.
pub open spec fn unsigned_within(s: Seq<char>, max: nat) -> Option<nat> {
    match unsigned_value(s) {
        Some(n) => if n <= max {
            Some(n)
        } else {
            None
        },
        None => None,
    }
}

/// The signed literal `s` as a number from `min` to `max`.
pub open spec fn signed_within(s: Seq<char>, min: int, max: int) -> Option<int> {
    match signed_value(s) {
        Some(n) => if min <= n <= max {
            Some(n)
        } else {
            None
        },
        None => None,
    }
}

/// More digits never write a smaller number.
pub proof fn lemma_decimal_value_grows(s: Seq<char>, k: int)
    requires
        0 <= k <= s.len(),
    ensures
        decimal_value(s.take(k)) <= decimal_value(s),
    decreases s.len(),
{
    if k < s.len() {
        assert(s.drop_last().take(k) =~= s.take(k));
        lemma_decimal_value_grows(s.drop_last(), k);
    } else {
        assert(s.take(k) =~= s);
    }
}

/// Reads an unsigned integer literal whose value is at most `max`.
fn parse_unsigned(text: &[char], max: u64) -> (r: Option<u64>)
    ensures
        match unsigned_within(text@, max as nat) {
            Some(n) => r == Some(n as u64),
            None => r is None,
        },
{
    let n: usize = text.len();
    if n == 0 {
        return None;
    }
    let mut acc: u64 = 0;
    let mut i: usize = 0;
    while i < n
        invariant
            i <= n == text@.len(),
            all_digits(text@.take(i as int)),
            acc == decimal_value(text@.take(i as int)),
            acc <= max,
        decreases n - i,
    {
        let c: char = text[i];
        if !is_digit(c) {
            return None;
        }
        let d: u64 = (c as u32 - '0' as u32) as u64;
        proof {
            assert(text@.take(i + 1).drop_last() =~= text@.take(i as int));
            assert(text@.take(i + 1).last() == c);
            assert(decimal_value(text@.take(i + 1)) == acc * 10 + d);
            lemma_decimal_value_grows(text@, i + 1);
        }
        if d > max || acc > (max - d) / 10 {
            return None;
        }
        acc = acc * 10 + d;
        i += 1;
    }
    assert(text@.take(n as int) =~= text@);
    Some(acc)
}

/// Reads a signed integer literal whose value lies from `min` to `max`.
fn parse_signed(text: &[char], min: i64, max: i64) -> (r: Option<i64>)
    requires
        min <= 0 <= max,
    ensures
        match signed_within(text@, min as int, max as int) {
            Some(n) => r == Some(n as i64),
            None => r is None,
        },
{
    let n: usize = text.len();
    if n == 0 {
        return None;
    }
    let first: char = text[0];
    if first == '-' {
        assert(text@.drop_first() =~= text@.subrange(1, n as int));
        let bound: u64 = if min == i64::MIN {
            0x8000_0000_0000_0000u64
        } else {
            (-min) as u64
        };
        match parse_unsigned(slice_subrange(text, 1, n), bound) {
            Some(m) => Some(
                if m == 0x8000_0000_0000_0000u64 {
                    i64::MIN
                } else {
                    -(m as i64)
                },
            ),
            None => None,
        }
    } else if first == '+' {
        assert(text@.drop_first() =~= text@.subrange(1, n as int));
        match parse_unsigned(slice_subrange(text, 1, n), max as u64) {
            Some(m) => Some(m as i64),
            None => None,
        }
    } else {
        match parse_unsigned(text, max as u64) {
            Some(m) => Some(m as i64),
            None => None,
        }
    }
}

/// The signed literal `s` as a 32-bit integer.
pub open spec fn i32_value(s: Seq<char>) -> Option<i32> {
    match signed_within(s, i32::MIN as int, i32::MAX as int) {
        Some(n) => Some(n as i32),
        None => None,
    }
}

/// The signed literal `s` as a 64-bit integer.
pub open spec fn i64_value(s: Seq<char>) -> Option<i64> {
    match signed_within(s, i64::MIN as int, i64::MAX as int) {
        Some(n) => Some(n as i64),
        None => None,
    }
}

/// The unsigned literal `s` as a 32-bit integer.
pub open spec fn u32_value(s: Seq<char>) -> Option<u32> {
    match unsigned_within(s, u32::MAX as nat) {
        Some(n) => Some(n as u32),
        None => None,
    }
}

/// The unsigned literal `s` as a 64-bit integer.
pub open spec fn u64_value(s: Seq<char>) -> Option<u64> {
    match unsigned_within(s, u64::MAX as nat) {
        Some(n) => Some(n as u64),
        None => None,
    }
}

/// Reads a signed integer literal that fits in 32 bits.
pub fn parse_i32(text: &[char]) -> (r: Option<i32>)
    ensures
        r == i32_value(text@),
{
    match parse_signed(text, i32::MIN as i64, i32::MAX as i64) {
        Some(n) => Some(n as i32),
        None => None,
    }
}

/// Reads a signed integer literal that fits in 64 bits.
pub fn parse_i64(text: &[char]) -> (r: Option<i64>)
    ensures
        r == i64_value(text@),
{
    parse_signed(text, i64::MIN, i64::MAX)
}

/// Reads an unsigned integer literal that fits in 32 bits.
pub fn parse_u32(text: &[char]) -> (r: Option<u32>)
    ensures
        r == u32_value(text@),
{
    match parse_unsigned(text, u32::MAX as u64) {
        Some(n) => Some(n as u32),
        None => None,
    }
}

/// Reads an unsigned integer literal that fits in 64 bits.
pub fn parse_u64(text: &[char]) -> (r: Option<u64>)
    ensures
        r == u64_value(text@),
{
    parse_unsigned(text, u64::MAX)
}

/// `c` in lower case, where it is an ASCII letter.
pub open spec fn lower(c: char) -> char {
    if 'A' <= c <= 'Z' {
        ((c as u32) + 32) as char
    } else {
        c
    }
}

/// `s` with its ASCII letters in lower case.
pub open spec fn folded(s: Seq<char>) -> Seq<char> {
    s.map_values(|c: char| lower(c))
}

/// One of the words `inf`, `infinity` and `nan`, in any mix of cases.
pub open spec fn special_word(s: Seq<char>) -> bool {
    ||| folded(s) == "inf"@
    ||| folded(s) == "infinity"@
    ||| folded(s) == "nan"@
}

/// An exponent: `e` or `E`, an optional sign, and one or more digits.
pub open spec fn exponent(s: Seq<char>) -> bool {
    &&& s.len() > 0
    &&& (s[0] == 'e' || s[0] == 'E')
    &&& {
        let rest = s.drop_first();
        let digits = if rest.len() > 0 && sign(rest[0]) {
            rest.drop_first()
        } else {
            rest
        };
        digits.len() > 0 && all_digits(digits)
    }
}

/// A decimal number: digits, optionally a point and more digits, with at
/// least one digit on one side of the point; then optionally an exponent.
pub open spec fn number(s: Seq<char>) -> bool {
    let whole_end = span_end(s, 0, CharClass::Digit);
    let has_point = whole_end < s.len() && s[whole_end] == '.';
    let fraction_start = if has_point {
        whole_end + 1
    } else {
        whole_end
    };
    let fraction_end = span_end(s, fraction_start, CharClass::Digit);
    &&& whole_end + (fraction_end - fraction_start) > 0
    &&& (fraction_end == s.len() || exponent(s.subrange(fraction_end, s.len() as int)))
}

/// The shape of a floating-point literal: an optional sign, then a decimal
/// number or one of the words `inf`, `infinity` and `nan`.
pub open spec fn float_literal(s: Seq<char>) -> bool {
    let body = if s.len() > 0 && sign(s[0]) {
        s.drop_first()
    } else {
        s
    };
    special_word(body) || number(body)
}

/// `c` in lower case, where it is an ASCII letter.
pub fn to_lower(c: char) -> (r: char)
    ensures
        r == lower(c),
{
    if 'A' <= c && c <= 'Z' {
        (c as u8 + 32) as char
    } else {
        c
    }
}

/// Tells whether `text`, with its ASCII letters in lower case, is `word`.
pub fn is_word_ignoring_case(text: &[char], word: &str) -> (r: bool)
    ensures
        r == (folded(text@) == word@),
{
    let n: usize = text.len();
    let mut same: bool = true;
    let mut i: usize = 0;
    for c in it: word.chars()
        invariant
            it.seq() == word@,
            i <= n == text@.len(),
            same ==> i == it.index(),
            same ==> forall|j: int| 0 <= j < i ==> lower(text@[j]) == #[trigger] word@[j],
            !same ==> folded(text@) != word@,
    {
        if same {
            if i < n && to_lower(text[i]) == c {
                i += 1;
            } else {
                same = false;
                proof {
                    if i < n {
                        assert(folded(text@)[i as int] != word@[i as int]);
                    }
                }
            }
        }
    }
    if same && i == n {
        assert(folded(text@) =~= word@);
        true
    } else {
        false
    }
}

/// Tells whether `text` is an exponent.
pub fn is_exponent(text: &[char]) -> (r: bool)
    ensures
        r == exponent(text@),
{
    let n: usize = text.len();
    if n == 0 || !(text[0] == 'e' || text[0] == 'E') {
        return false;
    }
    let start: usize = if n > 1 && (text[1] == '+' || text[1] == '-') {
        2
    } else {
        1
    };
    let end: usize = scan_span(text, start, CharClass::Digit);
    proof {
        let rest = text@.drop_first();
        let digits = text@.subrange(start as int, n as int);
        assert(digits =~= if rest.len() > 0 && sign(rest[0]) {
            rest.drop_first()
        } else {
            rest
        });
        lemma_span_end(text@, start as int, CharClass::Digit);
        if end == n {
            assert(all_digits(digits));
        } else {
            assert(!digit(digits[end - start]));
        }
    }
    start < n && end == n
}

/// Tells whether `text` is a decimal number.
pub fn is_number(text: &[char]) -> (r: bool)
    ensures
        r == number(text@),
{
    let n: usize = text.len();
    let whole_end: usize = scan_span(text, 0, CharClass::Digit);
    let fraction_start: usize = if whole_end < n && text[whole_end] == '.' {
        whole_end + 1
    } else {
        whole_end
    };
    let fraction_end: usize = scan_span(text, fraction_start, CharClass::Digit);
    if whole_end + (fraction_end - fraction_start) == 0 {
        return false;
    }
    fraction_end == n || is_exponent(slice_subrange(text, fraction_end, n))
}

/// Tells whether `text` has the shape of a floating-point literal.
pub fn is_float_literal(text: &[char]) -> (r: bool)
    ensures
        r == float_literal(text@),
{
    let n: usize = text.len();
    let body: &[char] = if n > 0 && (text[0] == '+' || text[0] == '-') {
        assert(text@.drop_first() =~= text@.subrange(1, n as int));
        slice_subrange(text, 1, n)
    } else {
        text
    };
    is_word_ignoring_case(body, "inf") || is_word_ignoring_case(body, "infinity")
        || is_word_ignoring_case(body, "nan") || is_number(body)
}

} // verus!

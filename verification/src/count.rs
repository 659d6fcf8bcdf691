use vstd::prelude::*;
use vstd::string::StrSliceExecFns;

use crate::bindings::texts;
use crate::error::{Error, ErrorView};

verus! {

/// Whether `c` is one of the ASCII digits `0` to `9`.
pub open spec fn is_digit(c: char) -> bool {
    '0' <= c <= '9'
}

/// The value of the ASCII digit `c`.
pub open spec fn digit_value(c: char) -> nat
    recommends
        is_digit(c),
{
    (c as u32 - '0' as u32) as nat
}

/// The number that a string of decimal digits writes, most significant digit
/// first. The empty string writes 0.
pub open spec fn digits_value(digits: Seq<char>) -> nat
    decreases digits.len(),
{
    if digits.len() == 0 {
        0
    } else {
        10 * digits_value(digits.drop_last()) + digit_value(digits.last())
    }
}

/// Every character is an ASCII digit.
pub open spec fn all_digits(text: Seq<char>) -> bool {
    forall|i: int| 0 <= i < text.len() ==> is_digit(#[trigger] text[i])
}

/// The digits of a decimal numeral: the text itself, or what follows one
/// leading `+`.
pub open spec fn numeral_digits(text: Seq<char>) -> Seq<char> {
    if text.len() > 0 && text[0] == '+' {
        text.drop_first()
    } else {
        text
    }
}

/// The number that `text` writes, if it is a decimal numeral: an optional `+`
/// followed by one or more ASCII digits. Leading zeros are allowed.
pub open spec fn decimal(text: Seq<char>) -> Option<nat> {
    let digits = numeral_digits(text);
    if digits.len() > 0 && all_digits(digits) {
        Some(digits_value(digits))
    } else {
        None
    }
}

/// The number that `text` writes, if it is a decimal numeral of a number that
/// fits in 64 bits.
pub open spec fn decimal_u64(text: Seq<char>) -> Option<u64> {
    match decimal(text) {
        Some(n) if n <= u64::MAX => Some(n as u64),
        _ => None,
    }
}

/// How often a `Measure` with the given operands samples the register: once
/// without an operand, else as often as its first operand says, which must be
/// a numeral of a number from 1 to 2^64 - 1.
pub open spec fn repeat_count(operands: Seq<Seq<char>>) -> Result<u64, ErrorView> {
    if operands.len() == 0 {
        Ok(1)
    } else {
        match decimal_u64(operands[0]) {
            Some(n) if n >= 1 => Ok(n),
            _ => Err(ErrorView::InvalidCount { text: operands[0] }),
        }
    }
}

/// A longer numeral writes a number at least as large as any of its prefixes
/// does.
proof fn lemma_digits_value_grows(digits: Seq<char>, n: int)
    requires
        0 <= n <= digits.len(),
    ensures
        digits_value(digits.take(n)) <= digits_value(digits),
    decreases digits.len() - n,
{
    if n == digits.len() {
        assert(digits.take(n) == digits);
    } else {
        lemma_digits_value_grows(digits, n + 1);
        assert(digits.take(n + 1).drop_last() == digits.take(n));
    }
}

/// Reads a decimal numeral: an optional `+` followed by one or more ASCII
/// digits.
///
/// Returns `None` when `text` is no such numeral or writes a number above
/// 2^64 - 1.
pub fn parse_uint(text: &str) -> (r: Option<u64>)
    ensures
        r == decimal_u64(text@),
{
    let len = text.unicode_len();
    let mut i: usize = 0;
    if len > 0 && text.get_char(0) == '+' {
        i = 1;
    }
    let start = i;
    let ghost digits = numeral_digits(text@);
    if i == len {
        return None;
    }
    let mut value: u64 = 0;
    while i < len
        invariant
            start <= i <= len,
            len == text@.len(),
            start < len,
            digits == text@.skip(start as int),
            digits == numeral_digits(text@),
            forall|j: int| 0 <= j < i - start ==> is_digit(#[trigger] digits[j]),
            value == digits_value(digits.take(i - start)),
        decreases len - i,
    {
        let c = text.get_char(i);
        if !('0' <= c && c <= '9') {
            assert(!is_digit(digits[i - start]));
            return None;
        }
        let d: u64 = (c as u32 - '0' as u32) as u64;
        proof {
            assert(digits.take(i - start + 1).drop_last() == digits.take(i - start));
            lemma_digits_value_grows(digits, i - start + 1);
        }
        if value > (u64::MAX - d) / 10 {
            return None;
        }
        value = value * 10 + d;
        i += 1;
    }
    assert(digits.take(len - start) == digits);
    Some(value)
}

/// How often a `Measure` with the given operands samples the register.
///
/// Without an operand the count is 1. Otherwise the first operand must be a
/// numeral of a number from 1 to 2^64 - 1.
pub fn parse_count(operands: &Vec<String>) -> (r: Result<u64, Error>)
    ensures
        match r {
            Ok(count) => repeat_count(texts(operands@)) == Ok::<u64, ErrorView>(count),
            Err(e) => repeat_count(texts(operands@)) == Err::<u64, ErrorView>(e@),
        },
{
    if operands.len() == 0 {
        return Ok(1);
    }
    match parse_uint(operands[0].as_str()) {
        Some(n) => {
            if n >= 1 {
                Ok(n)
            } else {
                Err(Error::InvalidCount { text: operands[0].clone() })
            }
        },
        None => Err(Error::InvalidCount { text: operands[0].clone() }),
    }
}

} // verus!

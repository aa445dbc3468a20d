//! Decimal numerals of one range component: reading and writing a `u8`.

use vstd::prelude::*;
use crate::error::ParseError;

verus! {

/// `c` is one of `0` to `9`.
pub open spec fn is_digit(c: char) -> bool {
    '0' <= c && c <= '9'
}

/// The value of a decimal digit.
pub open spec fn digit_value(c: char) -> nat {
    (c as u32 - '0' as u32) as nat
}

/// Every character of `s` is a decimal digit.
pub open spec fn all_digits(s: Seq<char>) -> bool {
    forall|i: int| 0 <= i < s.len() ==> is_digit(s[i])
}

/// The number that a sequence of decimal digits writes, most significant
/// digit first.
pub open spec fn decimal_value(s: Seq<char>) -> nat
    decreases s.len(),
{
    if s.len() == 0 {
        0
    } else {
        decimal_value(s.drop_last()) * 10 + digit_value(s.last())
    }
}

/// `s` without one leading plus sign, if it has one.
pub open spec fn unsigned(s: Seq<char>) -> Seq<char> {
    if s.len() > 0 && s[0] == '+' {
        s.drop_first()
    } else {
        s
    }
}

/// What one dot-separated component stands for: an optional plus sign and
/// then one or more decimal digits, whose value must fit eight bits.
pub open spec fn parse_component(s: Seq<char>) -> Result<u8, ParseError> {
    let digits = unsigned(s);
    if digits.len() == 0 || !all_digits(digits) {
        Err(ParseError::InvalidFormat)
    } else if decimal_value(digits) > 255 {
        Err(ParseError::ComponentOverflow)
    } else {
        Ok(decimal_value(digits) as u8)
    }
}

/// Whether `c` is a decimal digit.
pub fn is_ascii_digit(c: char) -> (b: bool)
    ensures
        b == is_digit(c),
{
    '0' <= c && c <= '9'
}

/// Reads the component held in `chars[start..end]`.
pub(crate) fn read_component(chars: &Vec<char>, start: usize, end: usize) -> (r: Result<u8, ParseError>)
    requires
        start <= end <= chars.len(),
    ensures
        r == parse_component(chars@.subrange(start as int, end as int)),
{
    let ghost whole = chars@.subrange(start as int, end as int);
    let first: usize = if start < end && chars[start] == '+' {
        start + 1
    } else {
        start
    };
    let ghost digits = chars@.subrange(first as int, end as int);
    assert(digits =~= unsigned(whole));
    if first == end {
        return Err(ParseError::InvalidFormat);
    }
    let mut value: u32 = 0;
    let mut overflow = false;
    let mut i: usize = first;
    while i < end
        invariant
            start <= first <= i <= end <= chars.len(),
            digits == chars@.subrange(first as int, end as int),
            digits == unsigned(chars@.subrange(start as int, end as int)),
            all_digits(digits.take(i - first)),
            !overflow ==> value == decimal_value(digits.take(i - first)) && value <= 255,
            overflow ==> decimal_value(digits.take(i - first)) > 255,
        decreases end - i,
    {
        let c = chars[i];
        let ghost before = digits.take(i - first);
        let ghost after = digits.take(i + 1 - first);
        proof {
            assert(after.drop_last() =~= before);
            assert(after.last() == c);
        }
        if !is_ascii_digit(c) {
            proof {
                assert(digits[i - first] == c);
            }
            return Err(ParseError::InvalidFormat);
        }
        if !overflow {
            value = value * 10 + (c as u32 - '0' as u32);
            if value > 255 {
                overflow = true;
            }
        }
        i += 1;
    }
    proof {
        assert(digits.take(end - first) =~= digits);
    }
    if overflow {
        Err(ParseError::ComponentOverflow)
    } else {
        Ok(value as u8)
    }
}

} // verus!

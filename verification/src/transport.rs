//! The header that frames a message on the wire.

use vstd::prelude::*;
use vstd::slice::slice_subrange;
use crate::text::{starts_with, to_chars, trim, trimmed};

verus! {

/// Whether `c` is one of the digits `0` to `9`.
pub open spec fn is_digit(c: char) -> bool {
    '0' <= c <= '9'
}

/// The number that the decimal digits `digits` write; nothing where one of
/// them is no digit. No digits write zero.
pub open spec fn digits_value(digits: Seq<char>) -> Option<nat>
    decreases digits.len(),
{
    if digits.len() == 0 {
        Some(0)
    } else {
        match digits_value(digits.drop_last()) {
            Some(front) => if is_digit(digits.last()) {
                Some(front * 10 + (digits.last() as nat - '0' as nat) as nat)
            } else {
                None
            },
            None => None,
        }
    }
}

/// The number that `text` writes in decimal: an optional `+`, then one or
/// more digits and nothing else.
pub open spec fn decimal_value(text: Seq<char>) -> Option<nat> {
    let digits = if text.len() > 0 && text[0] == '+' {
        text.drop_first()
    } else {
        text
    };
    if digits.len() == 0 {
        None
    } else {
        digits_value(digits)
    }
}

/// The length that a header line announces: the line starts with
/// `Content-Length: `, and the rest of it, trimmed, writes in decimal a
/// number that is not zero and fits the machine's word. Every other line
/// announces nothing.
pub open spec fn announced_length(line: Seq<char>) -> Option<usize> {
    if "Content-Length: "@.is_prefix_of(line) {
        match decimal_value(trimmed(line.skip("Content-Length: "@.len() as int))) {
            Some(length) => if 0 < length <= usize::MAX {
                Some(length as usize)
            } else {
                None
            },
            None => None,
        }
    } else {
        None
    }
}

/// The digits of a number start with the digits of a number that is not
/// greater.
proof fn lemma_digits_prefix(digits: Seq<char>, n: int)
    requires
        0 <= n <= digits.len(),
    ensures
        digits_value(digits.take(n)).is_none() ==> digits_value(digits).is_none(),
        digits_value(digits) matches Some(all) ==> digits_value(digits.take(n)) matches Some(front)
            && front <= all,
    decreases digits.len() - n,
{
    if n < digits.len() {
        lemma_digits_prefix(digits, n + 1);
        assert(digits.take(n + 1).drop_last() =~= digits.take(n));
    } else {
        assert(digits.take(n) =~= digits);
    }
}

/// The number that the digits `digits` write, where it fits the machine's
/// word.
fn read_digits(digits: &[char]) -> (r: Option<usize>)
    ensures
        match r {
            Some(value) => digits_value(digits@) == Some(value as nat),
            None => match digits_value(digits@) {
                Some(value) => value > usize::MAX,
                None => true,
            },
        },
{
    let mut value: usize = 0;
    let mut i: usize = 0;
    assert(digits@.take(0) =~= Seq::empty());
    while i < digits.len()
        invariant
            i <= digits.len(),
            digits_value(digits@.take(i as int)) == Some(value as nat),
        decreases digits.len() - i,
    {
        let c = digits[i];
        proof {
            assert(digits@.take(i + 1).drop_last() =~= digits@.take(i as int));
            lemma_digits_prefix(digits@, i + 1);
        }
        if !('0' <= c && c <= '9') {
            return None;
        }
        let digit: usize = (c as u32 - '0' as u32) as usize;
        let tens = match value.checked_mul(10) {
            Some(tens) => tens,
            None => {
                return None;
            },
        };
        value = match tens.checked_add(digit) {
            Some(sum) => sum,
            None => {
                return None;
            },
        };
        i += 1;
    }
    assert(digits@.take(digits.len() as int) =~= digits@);
    Some(value)
}

/// The length that the header line `line` announces.
pub fn content_length(line: &str) -> (r: Option<usize>)
    ensures
        r == announced_length(line@),
{
    let chars = to_chars(line);
    let name = to_chars("Content-Length: ");
    if !starts_with(chars.as_slice(), name.as_slice()) {
        return None;
    }
    let text = trim(slice_subrange(chars.as_slice(), name.len(), chars.len()));
    let digits = if text.len() > 0 && text[0] == '+' {
        slice_subrange(text, 1, text.len())
    } else {
        text
    };
    if digits.len() == 0 {
        return None;
    }
    match read_digits(digits) {
        Some(length) => if length > 0 {
            Some(length)
        } else {
            None
        },
        None => None,
    }
}

} // verus!

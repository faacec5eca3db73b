//! Reading stored text as typed values: text as it is, `true` and `false`, and
//! whole numbers in decimal notation.

use vstd::prelude::*;
use vstd::std_specs::iter::IteratorSpec;
use crate::order::{compare, lemma_rank_same, Rank};

verus! {

/// Whether a character is one of the decimal digits `0` to `9`.
pub open spec fn is_digit(c: char) -> bool {
    48 <= c as u32 <= 57
}

/// The number that a run of decimal digits stands for.
pub open spec fn digits_value(digits: Seq<char>) -> nat
    decreases digits.len(),
{
    if digits.len() == 0 {
        0
    } else {
        digits_value(digits.drop_last()) * 10 + (digits.last() as u32 - 48) as nat
    }
}

/// Whether a text is a run of at least one decimal digit.
pub open spec fn is_number(digits: Seq<char>) -> bool {
    digits.len() > 0 && forall|i: int| 0 <= i < digits.len() ==> is_digit(#[trigger] digits[i])
}

/// The whole number that a text stands for: decimal digits, which a `+` may
/// precede and, where `signed` says so, a `-`. Any other text stands for none.
pub open spec fn integer_of(text: Seq<char>, signed: bool) -> Option<int> {
    let negative = signed && text.len() > 0 && text[0] == '-';
    let digits = if text.len() > 0 && (text[0] == '+' || negative) {
        text.drop_first()
    } else {
        text
    };
    if !is_number(digits) {
        None
    } else if negative {
        Some(-(digits_value(digits) as int))
    } else {
        Some(digits_value(digits) as int)
    }
}

/// The whole number that a text stands for, where it lies between `min` and `max`;
/// a `-` is understood where `min` is negative.
pub open spec fn integer_within(text: Seq<char>, min: int, max: int) -> Option<int> {
    match integer_of(text, min < 0) {
        Some(value) => if min <= value <= max {
            Some(value)
        } else {
            None
        },
        None => None,
    }
}

/// What a text means as a truth value.
pub open spec fn bool_of(text: Seq<char>) -> Option<bool> {
    if text == "true"@ {
        Some(true)
    } else if text == "false"@ {
        Some(false)
    } else {
        None
    }
}

/// A run of digits is worth at least as much as any run that it starts with.
pub proof fn lemma_digits_grow(digits: Seq<char>, n: int)
    requires
        0 <= n <= digits.len(),
    ensures
        digits_value(digits.take(n)) <= digits_value(digits),
    decreases digits.len(),
{
    if n < digits.len() {
        lemma_digits_grow(digits.drop_last(), n);
        assert(digits.drop_last().take(n) =~= digits.take(n));
    } else {
        assert(digits.take(n) =~= digits);
    }
}

/// The characters of a string.
pub fn chars_of(text: &str) -> (r: Vec<char>)
    ensures
        r@ == text@,
{
    let mut out: Vec<char> = Vec::new();
    let mut rest = text.chars();
    let ghost mut n: int = 0;
    proof {
        assert(text@.skip(0) == text@);
    }
    loop
        invariant
            0 <= n <= text@.len(),
            rest.remaining() == text@.skip(n),
            out@ == text@.take(n),
        decreases text@.len() - n,
    {
        match rest.next() {
            Some(c) => {
                out.push(c);
                proof {
                    assert(text@.skip(n).drop_first() == text@.skip(n + 1));
                    assert(text@.take(n).push(text@[n]) =~= text@.take(n + 1));
                    n = n + 1;
                }
            },
            None => {
                proof {
                    assert(text@.take(n) =~= text@);
                }
                return out;
            },
        }
    }
}

/// The value of the digits from `start` to the end, where they are a number that
/// is no more than `limit`.
fn number_from(chars: &Vec<char>, start: usize, limit: u128) -> (r: Option<u128>)
    requires
        start <= chars.len(),
    ensures
        match r {
            Some(value) => is_number(chars@.skip(start as int)) && value == digits_value(
                chars@.skip(start as int),
            ) && value <= limit,
            None => !is_number(chars@.skip(start as int)) || digits_value(
                chars@.skip(start as int),
            ) > limit,
        },
{
    let ghost digits = chars@.skip(start as int);
    if start == chars.len() {
        return None;
    }
    let mut value: u128 = 0;
    let mut i: usize = start;
    proof {
        assert(digits.take(0) =~= Seq::<char>::empty());
    }
    while i < chars.len()
        invariant
            start <= i <= chars.len(),
            digits == chars@.skip(start as int),
            value == digits_value(digits.take(i - start)),
            value <= limit,
            forall|j: int| 0 <= j < i - start ==> is_digit(#[trigger] digits[j]),
        decreases chars.len() - i,
    {
        let c = chars[i];
        let code: u32 = c as u32;
        proof {
            assert(digits[i - start] == c);
            assert(digits.take(i - start + 1).drop_last() =~= digits.take(i - start));
            lemma_digits_grow(digits, i - start + 1);
        }
        if code < 48 || code > 57 {
            return None;
        }
        let digit: u128 = (code - 48) as u128;
        if value > limit / 10 {
            return None;
        }
        if digit > limit - value * 10 {
            return None;
        }
        value = value * 10 + digit;
        i += 1;
    }
    proof {
        assert(digits.take(chars.len() - start) =~= digits);
    }
    Some(value)
}

/// Reads a whole number without sign or with `+`, no more than `max`.
pub fn parse_unsigned(text: &str, max: u128) -> (r: Option<u128>)
    ensures
        match r {
            Some(value) => integer_within(text@, 0, max as int) == Some(value as int),
            None => integer_within(text@, 0, max as int) is None,
        },
{
    let chars = chars_of(text);
    let start: usize = if chars.len() > 0 && chars[0] == '+' {
        1
    } else {
        0
    };
    proof {
        assert(chars@.skip(0) =~= chars@);
        if start == 1 {
            assert(chars@.skip(1) =~= chars@.drop_first());
        }
    }
    number_from(&chars, start, max)
}

/// Reads a whole number between `min` and `max`, with `+` or without sign and,
/// where `min` is negative, with `-`.
pub fn parse_signed(text: &str, min: i128, max: i128) -> (r: Option<i128>)
    ensures
        match r {
            Some(value) => integer_within(text@, min as int, max as int) == Some(value as int),
            None => integer_within(text@, min as int, max as int) is None,
        },
{
    let chars = chars_of(text);
    let negative = min < 0 && chars.len() > 0 && chars[0] == '-';
    let start: usize = if chars.len() > 0 && (chars[0] == '+' || negative) {
        1
    } else {
        0
    };
    proof {
        assert(chars@.skip(0) =~= chars@);
        if start == 1 {
            assert(chars@.skip(1) =~= chars@.drop_first());
        }
    }
    if negative {
        let limit: u128 = if min == i128::MIN {
            0x8000_0000_0000_0000_0000_0000_0000_0000u128
        } else {
            (-min) as u128
        };
        match number_from(&chars, start, limit) {
            Some(value) => {
                let number: i128 = if value == 0x8000_0000_0000_0000_0000_0000_0000_0000u128 {
                    i128::MIN
                } else {
                    -(value as i128)
                };
                if number <= max {
                    Some(number)
                } else {
                    None
                }
            },
            None => None,
        }
    } else if max < 0 {
        None
    } else {
        match number_from(&chars, start, max as u128) {
            Some(value) => {
                let number: i128 = value as i128;
                if number >= min {
                    Some(number)
                } else {
                    None
                }
            },
            None => None,
        }
    }
}

/// Reads `true` or `false`.
pub fn parse_bool(text: &str) -> (r: Option<bool>)
    ensures
        r == bool_of(text@),
{
    proof {
        lemma_rank_same(text@, "true"@);
        lemma_rank_same(text@, "false"@);
    }
    match compare(text, "true") {
        Rank::Same => Some(true),
        _ => match compare(text, "false") {
            Rank::Same => Some(false),
            _ => None,
        },
    }
}

/// A type of values that stored text can be read as.
pub trait FromValue: View + Sized {
    /// What a text means as a value of this type; `None` where it means none.
    spec fn parsed(text: Seq<char>) -> Option<Self::V>;

    /// Reads `text` as a value of this type.
    fn from_value(text: &str) -> (r: Option<Self>)
        ensures
            reads(Self::parsed(text@), r),
    ;
}

/// `r` is the value that was to be read: it is there exactly where `meaning` is,
/// and then it stands for what `meaning` holds.
pub open spec fn reads<T: View>(meaning: Option<T::V>, r: Option<T>) -> bool {
    match r {
        Some(value) => meaning == Some(value@),
        None => meaning is None,
    }
}

impl FromValue for String {
    open spec fn parsed(text: Seq<char>) -> Option<Seq<char>> {
        Some(text)
    }

    fn from_value(text: &str) -> (r: Option<String>) {
        Some(text.to_string())
    }
}

impl FromValue for bool {
    open spec fn parsed(text: Seq<char>) -> Option<bool> {
        bool_of(text)
    }

    fn from_value(text: &str) -> (r: Option<bool>) {
        parse_bool(text)
    }
}

impl FromValue for u8 {
    open spec fn parsed(text: Seq<char>) -> Option<u8> {
        match integer_within(text, 0, u8::MAX as int) {
            Some(value) => Some(value as u8),
            None => None,
        }
    }

    fn from_value(text: &str) -> (r: Option<u8>) {
        match parse_unsigned(text, u8::MAX as u128) {
            Some(value) => Some(value as u8),
            None => None,
        }
    }
}

impl FromValue for u16 {
    open spec fn parsed(text: Seq<char>) -> Option<u16> {
        match integer_within(text, 0, u16::MAX as int) {
            Some(value) => Some(value as u16),
            None => None,
        }
    }

    fn from_value(text: &str) -> (r: Option<u16>) {
        match parse_unsigned(text, u16::MAX as u128) {
            Some(value) => Some(value as u16),
            None => None,
        }
    }
}

impl FromValue for u32 {
    open spec fn parsed(text: Seq<char>) -> Option<u32> {
        match integer_within(text, 0, u32::MAX as int) {
            Some(value) => Some(value as u32),
            None => None,
        }
    }

    fn from_value(text: &str) -> (r: Option<u32>) {
        match parse_unsigned(text, u32::MAX as u128) {
            Some(value) => Some(value as u32),
            None => None,
        }
    }
}

impl FromValue for u64 {
    open spec fn parsed(text: Seq<char>) -> Option<u64> {
        match integer_within(text, 0, u64::MAX as int) {
            Some(value) => Some(value as u64),
            None => None,
        }
    }

    fn from_value(text: &str) -> (r: Option<u64>) {
        match parse_unsigned(text, u64::MAX as u128) {
            Some(value) => Some(value as u64),
            None => None,
        }
    }
}

impl FromValue for u128 {
    open spec fn parsed(text: Seq<char>) -> Option<u128> {
        match integer_within(text, 0, u128::MAX as int) {
            Some(value) => Some(value as u128),
            None => None,
        }
    }

    fn from_value(text: &str) -> (r: Option<u128>) {
        match parse_unsigned(text, u128::MAX as u128) {
            Some(value) => Some(value as u128),
            None => None,
        }
    }
}

impl FromValue for usize {
    open spec fn parsed(text: Seq<char>) -> Option<usize> {
        match integer_within(text, 0, usize::MAX as int) {
            Some(value) => Some(value as usize),
            None => None,
        }
    }

    fn from_value(text: &str) -> (r: Option<usize>) {
        match parse_unsigned(text, usize::MAX as u128) {
            Some(value) => Some(value as usize),
            None => None,
        }
    }
}

impl FromValue for i8 {
    open spec fn parsed(text: Seq<char>) -> Option<i8> {
        match integer_within(text, i8::MIN as int, i8::MAX as int) {
            Some(value) => Some(value as i8),
            None => None,
        }
    }

    fn from_value(text: &str) -> (r: Option<i8>) {
        match parse_signed(text, i8::MIN as i128, i8::MAX as i128) {
            Some(value) => Some(value as i8),
            None => None,
        }
    }
}

impl FromValue for i16 {
    open spec fn parsed(text: Seq<char>) -> Option<i16> {
        match integer_within(text, i16::MIN as int, i16::MAX as int) {
            Some(value) => Some(value as i16),
            None => None,
        }
    }

    fn from_value(text: &str) -> (r: Option<i16>) {
        match parse_signed(text, i16::MIN as i128, i16::MAX as i128) {
            Some(value) => Some(value as i16),
            None => None,
        }
    }
}

impl FromValue for i32 {
    open spec fn parsed(text: Seq<char>) -> Option<i32> {
        match integer_within(text, i32::MIN as int, i32::MAX as int) {
            Some(value) => Some(value as i32),
            None => None,
        }
    }

    fn from_value(text: &str) -> (r: Option<i32>) {
        match parse_signed(text, i32::MIN as i128, i32::MAX as i128) {
            Some(value) => Some(value as i32),
            None => None,
        }
    }
}

impl FromValue for i64 {
    open spec fn parsed(text: Seq<char>) -> Option<i64> {
        match integer_within(text, i64::MIN as int, i64::MAX as int) {
            Some(value) => Some(value as i64),
            None => None,
        }
    }

    fn from_value(text: &str) -> (r: Option<i64>) {
        match parse_signed(text, i64::MIN as i128, i64::MAX as i128) {
            Some(value) => Some(value as i64),
            None => None,
        }
    }
}

impl FromValue for i128 {
    open spec fn parsed(text: Seq<char>) -> Option<i128> {
        match integer_within(text, i128::MIN as int, i128::MAX as int) {
            Some(value) => Some(value as i128),
            None => None,
        }
    }

    fn from_value(text: &str) -> (r: Option<i128>) {
        match parse_signed(text, i128::MIN as i128, i128::MAX as i128) {
            Some(value) => Some(value as i128),
            None => None,
        }
    }
}

impl FromValue for isize {
    open spec fn parsed(text: Seq<char>) -> Option<isize> {
        match integer_within(text, isize::MIN as int, isize::MAX as int) {
            Some(value) => Some(value as isize),
            None => None,
        }
    }

    fn from_value(text: &str) -> (r: Option<isize>) {
        match parse_signed(text, isize::MIN as i128, isize::MAX as i128) {
            Some(value) => Some(value as isize),
            None => None,
        }
    }
}

} // verus!

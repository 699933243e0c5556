//! Unsigned decimal numbers as text.

use vstd::prelude::*;

use crate::text::text_chars;

verus! {

/// Why a text is not an unsigned number in range.
#[derive(Debug, Clone, Copy, PartialEq, Eq, Structural)]
pub enum NumberError {
    Empty,
    InvalidDigit,
    Overflow,
}

impl NumberError {
    /// The reason in words.
    pub open spec fn text(self) -> Seq<char> {
        match self {
            NumberError::Empty => "cannot parse integer from empty string"@,
            NumberError::InvalidDigit => "invalid digit found in string"@,
            NumberError::Overflow => "number too large to fit in target type"@,
        }
    }

    /// The reason in words.
    pub fn message(self) -> (message: &'static str)
        ensures
            message@ == self.text(),
    {
        match self {
            NumberError::Empty => "cannot parse integer from empty string",
            NumberError::InvalidDigit => "invalid digit found in string",
            NumberError::Overflow => "number too large to fit in target type",
        }
    }
}

/// The character of one decimal digit.
pub open spec fn digit_char(digit: nat) -> char {
    (48 + digit) as u8 as char
}

/// Whether a character is one of the digits `0` to `9`.
pub open spec fn is_digit(ch: char) -> bool {
    48 <= ch as u32 <= 57
}

/// The decimal text of a number, without leading zeros.
pub open spec fn decimal(number: nat) -> Seq<char>
    decreases number,
{
    if number < 10 {
        seq![digit_char(number)]
    } else {
        decimal(number / 10).push(digit_char(number % 10))
    }
}

/// Reads digits from left to right on top of `seen`; the first bad character, or
/// the first digit that exceeds `max`, decides the error.
pub open spec fn scan_digits(digits: Seq<char>, seen: nat, max: nat) -> Result<nat, NumberError>
    decreases digits.len(),
{
    if digits.len() == 0 {
        Ok(seen)
    } else if !is_digit(digits[0]) {
        Err(NumberError::InvalidDigit)
    } else {
        let next = seen * 10 + (digits[0] as u32 - 48) as nat;
        if next > max {
            Err(NumberError::Overflow)
        } else {
            scan_digits(digits.drop_first(), next, max)
        }
    }
}

/// What an unsigned number text stands for: an optional `+` and one or more digits.
pub open spec fn parsed_number(text: Seq<char>, max: nat) -> Result<nat, NumberError> {
    if text.len() == 0 {
        Err(NumberError::Empty)
    } else if text[0] == '+' {
        if text.len() == 1 {
            Err(NumberError::InvalidDigit)
        } else {
            scan_digits(text.drop_first(), 0, max)
        }
    } else {
        scan_digits(text, 0, max)
    }
}

proof fn lemma_scan_append(left: Seq<char>, right: Seq<char>, seen: nat, max: nat)
    requires
        scan_digits(left, seen, max) is Ok,
    ensures
        scan_digits(left + right, seen, max) == scan_digits(
            right,
            scan_digits(left, seen, max)->Ok_0,
            max,
        ),
    decreases left.len(),
{
    if left.len() == 0 {
        assert(left + right =~= right);
    } else {
        let next = seen * 10 + (left[0] as u32 - 48) as nat;
        assert((left + right).drop_first() =~= left.drop_first() + right);
        lemma_scan_append(left.drop_first(), right, next, max);
    }
}

/// Decimal text is never empty and holds digits only.
pub proof fn lemma_decimal_digits(number: nat)
    ensures
        decimal(number).len() > 0,
        forall|i: int| 0 <= i < decimal(number).len() ==> is_digit(#[trigger] decimal(number)[i]),
    decreases number,
{
    if number >= 10 {
        lemma_decimal_digits(number / 10);
        let head = decimal(number / 10);
        assert forall|i: int| 0 <= i < decimal(number).len() implies is_digit(
            #[trigger] decimal(number)[i],
        ) by {
            if i < head.len() {
                assert(decimal(number)[i] == head[i]);
            }
        }
    }
}

proof fn lemma_scan_decimal(number: nat, max: nat)
    requires
        number <= max,
    ensures
        scan_digits(decimal(number), 0, max) == Ok::<nat, NumberError>(number),
    decreases number,
{
    reveal_with_fuel(scan_digits, 3);
    if number < 10 {
        assert(decimal(number).drop_first() =~= Seq::<char>::empty());
    } else {
        let head = decimal(number / 10);
        let last = seq![digit_char(number % 10)];
        lemma_scan_decimal(number / 10, max);
        lemma_scan_append(head, last, 0, max);
        assert(decimal(number) =~= head + last);
        assert(last.drop_first() =~= Seq::<char>::empty());
    }
}

/// Reading the decimal text of a number gives the number back.
pub proof fn lemma_parse_decimal(number: nat, max: nat)
    requires
        number <= max,
    ensures
        parsed_number(decimal(number), max) == Ok::<nat, NumberError>(number),
{
    lemma_decimal_digits(number);
    lemma_scan_decimal(number, max);
    assert(is_digit(decimal(number)[0]));
}

fn parse_number(text: &str, max: u64) -> (result: Result<u64, NumberError>)
    ensures
        match (result, parsed_number(text@, max as nat)) {
            (Ok(number), Ok(expected)) => number == expected,
            (Err(error), Err(expected)) => error == expected,
            _ => false,
        },
{
    let chars = text_chars(text);
    if chars.len() == 0 {
        return Err(NumberError::Empty);
    }
    let mut index: usize = 0;
    if chars[0] == '+' {
        if chars.len() == 1 {
            return Err(NumberError::InvalidDigit);
        }
        index = 1;
    }
    let mut seen: u64 = 0;
    proof {
        assert(chars@.skip(0) =~= chars@);
        assert(chars@.skip(1) =~= chars@.drop_first());
    }
    while index < chars.len()
        invariant
            chars@ == text@,
            index <= chars.len(),
            seen <= max,
            parsed_number(text@, max as nat) == scan_digits(
                chars@.skip(index as int),
                seen as nat,
                max as nat,
            ),
        decreases chars.len() - index,
    {
        let code: u32 = chars[index] as u32;
        proof {
            assert(chars@.skip(index as int)[0] == chars@[index as int]);
            assert(chars@.skip(index as int).drop_first() =~= chars@.skip(index + 1));
        }
        if code < 48 || code > 57 {
            return Err(NumberError::InvalidDigit);
        }
        let next: u128 = (seen as u128) * 10 + ((code - 48) as u128);
        if next > max as u128 {
            return Err(NumberError::Overflow);
        }
        seen = next as u64;
        index += 1;
    }
    assert(chars@.skip(index as int).len() == 0);
    Ok(seen)
}

/// Reads a text as a `u64`.
pub fn parse_u64(text: &str) -> (result: Result<u64, NumberError>)
    ensures
        match (result, parsed_number(text@, u64::MAX as nat)) {
            (Ok(number), Ok(expected)) => number == expected,
            (Err(error), Err(expected)) => error == expected,
            _ => false,
        },
{
    parse_number(text, u64::MAX)
}

/// Reads a text as a `u32`.
pub fn parse_u32(text: &str) -> (result: Result<u32, NumberError>)
    ensures
        match (result, parsed_number(text@, u32::MAX as nat)) {
            (Ok(number), Ok(expected)) => number == expected,
            (Err(error), Err(expected)) => error == expected,
            _ => false,
        },
{
    proof {
        lemma_parsed_bound(text@, u32::MAX as nat);
    }
    match parse_number(text, u32::MAX as u64) {
        Ok(number) => Ok(number as u32),
        Err(error) => Err(error),
    }
}

proof fn lemma_scan_bound(digits: Seq<char>, seen: nat, max: nat)
    requires
        seen <= max,
    ensures
        scan_digits(digits, seen, max) matches Ok(number) ==> number <= max,
    decreases digits.len(),
{
    if digits.len() > 0 && is_digit(digits[0]) {
        let next = seen * 10 + (digits[0] as u32 - 48) as nat;
        if next <= max {
            lemma_scan_bound(digits.drop_first(), next, max);
        }
    }
}

proof fn lemma_parsed_bound(text: Seq<char>, max: nat)
    ensures
        parsed_number(text, max) matches Ok(number) ==> number <= max,
{
    lemma_scan_bound(text, 0, max);
    if text.len() > 0 {
        lemma_scan_bound(text.drop_first(), 0, max);
    }
}

/// The decimal text of a number.
pub fn number_text(number: u64) -> (text: String)
    ensures
        text@ == decimal(number as nat),
    decreases number,
{
    let mut text = if number < 10 {
        String::new()
    } else {
        number_text(number / 10)
    };
    let digit: u8 = (48 + number % 10) as u8;
    text.push(digit as char);
    assert(number < 10 ==> text@ =~= seq![digit_char(number as nat)]);
    text
}

} // verus!

//! What holds of numbers as text.

use vstd::prelude::*;

use crate::number::decimal;
use crate::number::digit_char;
use crate::number::is_digit;
use crate::number::parsed_number;
use crate::number::scan_digits;
use crate::number::NumberError;

verus! {

/// The number that digits stand for, the last digit counting ones, each digit before it ten
/// times as much.
pub open spec fn digits_value(digits: Seq<char>) -> nat
    decreases digits.len(),
{
    if digits.len() == 0 {
        0
    } else {
        10 * digits_value(digits.drop_last()) + (digits.last() as u32 - '0' as u32) as nat
    }
}

/// Whether a text holds nothing but the characters from `0` to `9`.
pub open spec fn all_digits(text: Seq<char>) -> bool {
    forall|i: int| 0 <= i < text.len() ==> '0' as u32 <= (#[trigger] text[i]) as u32 <= '9' as u32
}

proof fn lemma_scan(digits: Seq<char>, seen: nat, max: nat)
    ensures
        scan_digits(digits, seen, max) matches Ok(number) ==> all_digits(digits) && number
            == seen * power_of_ten(digits.len()) + digits_value(digits),
        scan_digits(digits, seen, max) == Err::<nat, NumberError>(NumberError::InvalidDigit)
            ==> !all_digits(digits),
        scan_digits(digits, seen, max) == Err::<nat, NumberError>(NumberError::Overflow)
            && all_digits(digits) ==> seen * power_of_ten(digits.len()) + digits_value(digits)
            > max,
        !(scan_digits(digits, seen, max) == Err::<nat, NumberError>(NumberError::Empty)),
        seen <= max ==> (scan_digits(digits, seen, max) matches Ok(number) ==> number <= max),
    decreases digits.len(),
{
    if digits.len() == 0 {
        assert(power_of_ten(0) == 1);
        assert(seen * 1 == seen);
    } else {
        let rest = digits.drop_first();
        let first = (digits[0] as u32 - 48) as nat;
        let next = seen * 10 + first;
        lemma_scan(rest, next, max);
        assert(rest.len() == digits.len() - 1);
        if is_digit(digits[0]) {
            lemma_first_digit(digits);
            let power = power_of_ten(rest.len());
            assert(power_of_ten(digits.len()) == 10 * power);
            assert((seen * 10 + first) * power == seen * (10 * power) + first * power)
                by (nonlinear_arith);
            if all_digits(rest) {
                assert forall|i: int| 0 <= i < digits.len() implies '0' as u32 <= (
                #[trigger] digits[i]) as u32 <= '9' as u32 by {
                    if i > 0 {
                        assert(rest[i - 1] == digits[i]);
                    }
                }
            }
            if all_digits(digits) {
                assert forall|i: int| 0 <= i < rest.len() implies '0' as u32 <= (
                #[trigger] rest[i]) as u32 <= '9' as u32 by {
                    assert(rest[i] == digits[i + 1]);
                }
            }
            if next > max {
                lemma_power_positive(rest.len());
                assert(next * power >= next) by (nonlinear_arith)
                    requires
                        power >= 1,
                        next >= 0,
                ;
            }
        } else {
            assert(!('0' as u32 <= digits[0] as u32 <= '9' as u32));
        }
    }
}

proof fn lemma_power_positive(exponent: nat)
    ensures
        power_of_ten(exponent) >= 1,
    decreases exponent,
{
    if exponent > 0 {
        lemma_power_positive((exponent - 1) as nat);
    }
}

/// Ten to the power of a number.
pub open spec fn power_of_ten(exponent: nat) -> nat
    decreases exponent,
{
    if exponent == 0 {
        1
    } else {
        10 * power_of_ten((exponent - 1) as nat)
    }
}

proof fn lemma_first_digit(digits: Seq<char>)
    requires
        digits.len() > 0,
        '0' as u32 <= digits[0] as u32 <= '9' as u32,
    ensures
        digits_value(digits) == (digits[0] as u32 - '0' as u32) * power_of_ten(
            (digits.len() - 1) as nat,
        ) + digits_value(digits.drop_first()),
    decreases digits.len(),
{
    let first = digits[0] as u32 - '0' as u32;
    if digits.len() == 1 {
        assert(digits.drop_last() =~= Seq::<char>::empty());
        assert(digits.drop_first() =~= Seq::<char>::empty());
        let one = power_of_ten(0);
        assert(one == 1);
        assert(first * one == first) by (nonlinear_arith)
            requires
                one == 1,
        ;
        reveal_with_fuel(digits_value, 2);
    } else {
        let front = digits.drop_last();
        assert(front[0] == digits[0]);
        lemma_first_digit(front);
        assert(digits_value(digits) == 10 * digits_value(front) + (digits.last() as u32
            - '0' as u32) as nat);
        assert(digits_value(digits.drop_first()) == 10 * digits_value(
            digits.drop_first().drop_last(),
        ) + (digits.last() as u32 - '0' as u32) as nat);
        assert(front.drop_first() =~= digits.drop_first().drop_last());
        assert(digits.drop_first().last() == digits.last());
        let power = power_of_ten((front.len() - 1) as nat);
        let larger = power_of_ten((digits.len() - 1) as nat);
        assert(larger == 10 * power);
        assert(first * larger == 10 * (first * power)) by (nonlinear_arith)
            requires
                larger == 10 * power,
        ;
    }
}

/// A text is a number exactly where it holds digits, at least one, perhaps behind a `+`, and
/// what they stand for is in range; it then is that number.
pub proof fn numbers_are_what_their_digits_stand_for(text: Seq<char>, max: nat)
    ensures
        ({
            let digits = if text.len() > 0 && text[0] == '+' {
                text.drop_first()
            } else {
                text
            };
            &&& parsed_number(text, max) is Ok <==> digits.len() > 0 && all_digits(digits)
                && digits_value(digits) <= max
            &&& parsed_number(text, max) matches Ok(number) ==> number == digits_value(digits)
            &&& text.len() == 0 ==> parsed_number(text, max) == Err::<nat, NumberError>(
                NumberError::Empty,
            )
            &&& text.len() > 0 && (digits.len() == 0 || !all_digits(digits)) ==> parsed_number(
                text,
                max,
            ) == Err::<nat, NumberError>(NumberError::InvalidDigit) || parsed_number(text, max)
                == Err::<nat, NumberError>(NumberError::Overflow)
            &&& digits.len() > 0 && all_digits(digits) && digits_value(digits) > max
                ==> parsed_number(text, max) == Err::<nat, NumberError>(NumberError::Overflow)
        }),
{
    let digits = if text.len() > 0 && text[0] == '+' {
        text.drop_first()
    } else {
        text
    };
    lemma_scan(digits, 0, max);
    assert(0 * power_of_ten(digits.len()) == 0);
    if text.len() > 0 && digits.len() > 0 {
        assert(parsed_number(text, max) == scan_digits(digits, 0, max));
        match scan_digits(digits, 0, max) {
            Ok(number) => {
                assert(number == digits_value(digits));
            },
            Err(NumberError::Empty) => {
                assert(false);
            },
            Err(NumberError::InvalidDigit) => {},
            Err(NumberError::Overflow) => {},
        }
    }
}

/// No number is out of range.
pub proof fn numbers_are_in_range(text: Seq<char>, max: nat)
    ensures
        parsed_number(text, max) matches Ok(number) ==> number <= max,
{
    numbers_are_what_their_digits_stand_for(text, max);
}

/// A number is written in digits that stand for it, without a zero in front.
pub proof fn numbers_are_written_in_their_digits(number: nat)
    ensures
        decimal(number).len() > 0,
        all_digits(decimal(number)),
        digits_value(decimal(number)) == number,
        number > 0 ==> decimal(number)[0] != '0',
        decimal(0) == seq!['0'],
    decreases number,
{
    if number >= 10 {
        numbers_are_written_in_their_digits(number / 10);
        let front = decimal(number / 10);
        assert(decimal(number).drop_last() =~= front);
        assert(decimal(number).last() == digit_char(number % 10));
        assert forall|i: int| 0 <= i < decimal(number).len() implies '0' as u32 <= (
        #[trigger] decimal(number)[i]) as u32 <= '9' as u32 by {
            if i < front.len() {
                assert(decimal(number)[i] == front[i]);
            }
        }
        assert(decimal(number)[0] == front[0]);
    } else {
        assert(decimal(number).drop_last() =~= Seq::<char>::empty());
        reveal_with_fuel(digits_value, 2);
    }
    assert(decimal(0) =~= seq!['0']);
}

} // verus!

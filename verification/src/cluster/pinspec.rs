//! Pin names of the form `chip:line`.

use std::str::FromStr;

use vstd::prelude::*;
use vstd::string::StringExecFns;

use crate::number::decimal;
use crate::number::lemma_parse_decimal;
use crate::number::number_text;
use crate::number::parse_u32;
use crate::number::parsed_number;
use crate::text::blank;
use crate::text::is_blank;
use crate::text::text_chars;
use crate::text::text_of;

verus! {

/// Why a text names no pin.
#[derive(Debug, Clone, Copy, PartialEq, Eq, Structural)]
pub enum PinSpecParseError {
    /// No `:` stands in the text.
    InvalidFormat,
    /// Nothing but whitespace stands before the `:`.
    EmptyChipName,
    /// What follows the `:` is no line offset.
    InvalidLineOffset,
}

/// A line of a chip.
#[derive(Debug, PartialEq, Eq, Hash)]
pub struct PinSpec {
    pub chip_name: String,
    pub line_offset: u32,
}

/// The pin that a text names: the chip up to the first `:`, the line offset behind it.
pub open spec fn named_pin(text: Seq<char>) -> Result<(Seq<char>, u32), PinSpecParseError> {
    match text.index_of_first(':') {
        None => Err(PinSpecParseError::InvalidFormat),
        Some(at) => if blank(text.take(at)) {
            Err(PinSpecParseError::EmptyChipName)
        } else {
            match parsed_number(text.skip(at + 1), u32::MAX as nat) {
                Ok(offset) => Ok((text.take(at), offset as u32)),
                Err(_) => Err(PinSpecParseError::InvalidLineOffset),
            }
        },
    }
}

/// The name of a pin.
pub open spec fn pin_name(pin: (Seq<char>, u32)) -> Seq<char> {
    pin.0 + ":"@ + decimal(pin.1 as nat)
}

impl View for PinSpec {
    type V = (Seq<char>, u32);

    open spec fn view(&self) -> (Seq<char>, u32) {
        (self.chip_name@, self.line_offset)
    }
}

impl PinSpec {
    /// Reads a pin name.
    pub fn parse(value: &str) -> (result: Result<Self, PinSpecParseError>)
        ensures
            match (result, named_pin(value@)) {
                (Ok(pin), Ok(expected)) => pin@ == expected,
                (Err(error), Err(expected)) => error == expected,
                _ => false,
            },
    {
        let chars = text_chars(value);
        proof {
            value@.index_of_first_ensures(':');
        }
        let mut at: usize = 0;
        let mut chip: Vec<char> = Vec::new();
        while at < chars.len() && chars[at] != ':'
            invariant
                chars@ == value@,
                at <= chars.len(),
                chip@ == value@.take(at as int),
                forall|i: int| 0 <= i < at ==> value@[i] != ':',
            decreases chars.len() - at,
        {
            chip.push(chars[at]);
            at += 1;
            assert(value@.take(at as int) =~= value@.take(at - 1).push(value@[at - 1]));
        }
        if at == chars.len() {
            assert(!value@.contains(':'));
            return Err(PinSpecParseError::InvalidFormat);
        }
        assert(value@[at as int] == ':');
        assert(value@.index_of_first(':') == Some(at as int));
        let chip_name = text_of(&chip);
        if is_blank(chip_name.as_str()) {
            return Err(PinSpecParseError::EmptyChipName);
        }
        let mut index: usize = at + 1;
        let mut rest: Vec<char> = Vec::new();
        while index < chars.len()
            invariant
                chars@ == value@,
                at < index <= chars.len(),
                rest@ == value@.subrange(at + 1, index as int),
            decreases chars.len() - index,
        {
            rest.push(chars[index]);
            index += 1;
            assert(value@.subrange(at + 1, index as int) =~= value@.subrange(
                at + 1,
                index - 1,
            ).push(value@[index - 1]));
        }
        assert(rest@ =~= value@.skip(at + 1));
        match parse_u32(text_of(&rest).as_str()) {
            Ok(line_offset) => Ok(PinSpec { chip_name, line_offset }),
            Err(_) => Err(PinSpecParseError::InvalidLineOffset),
        }
    }

    /// The name of the pin.
    pub fn text(&self) -> (text: String)
        ensures
            text@ == pin_name(self@),
    {
        self.chip_name.clone().concat(":").concat(number_text(self.line_offset as u64).as_str())
    }
}

impl FromStr for PinSpec {
    type Err = PinSpecParseError;

    fn from_str(value: &str) -> Result<Self, PinSpecParseError> {
        PinSpec::parse(value)
    }
}

/// The name of a pin names that pin, where the chip is named without a `:` and not by
/// whitespace alone.
pub proof fn pin_name_reads_back(chip: Seq<char>, offset: u32)
    requires
        !chip.contains(':'),
        !blank(chip),
    ensures
        named_pin(pin_name((chip, offset))) == Ok::<(Seq<char>, u32), PinSpecParseError>(
            (chip, offset),
        ),
{
    let text = pin_name((chip, offset));
    reveal_strlit(":");
    text.index_of_first_ensures(':');
    assert(text[chip.len() as int] == ':');
    assert(text.contains(':'));
    let at = text.index_of_first(':').unwrap();
    assert(at == chip.len()) by {
        if at < chip.len() {
            assert(chip[at] == text[at]);
        }
    }
    assert(text.take(at) =~= chip);
    assert(text.skip(at + 1) =~= decimal(offset as nat));
    lemma_parse_decimal(offset as nat, u32::MAX as nat);
}

} // verus!

//! The persisted state of a mock chip.

use std::collections::BTreeMap;
use vstd::prelude::*;
use vstd::string::StringExecFns;

use crate::gpio::libgpiod::LineBias;
use crate::gpio::libgpiod::LineDirection;
use crate::gpio::libgpiod::LineDrive;
use crate::gpio::libgpiod::LineValue;
use crate::number::decimal;
use crate::number::number_text;
use crate::number::NumberError;
use crate::text::same_text;

verus! {

/// Physical line level, persisted as `H` or `L`.
#[derive(Debug, Clone, Copy, PartialEq, Eq, Structural)]
pub enum LineLevel {
    High,
    Low,
}

/// The level that a text stands for.
pub open spec fn level_of_text(text: Seq<char>) -> Option<LineLevel> {
    if text == "H"@ {
        Some(LineLevel::High)
    } else if text == "L"@ {
        Some(LineLevel::Low)
    } else {
        None
    }
}

/// The text that stands for a level.
pub open spec fn level_text(level: LineLevel) -> Seq<char> {
    match level {
        LineLevel::High => "H"@,
        LineLevel::Low => "L"@,
    }
}

impl LineLevel {
    /// Reads a level from the text of a `<line>` element.
    pub fn from_xml(text: &str) -> (result: Result<Self, LoadError>)
        ensures
            match level_of_text(text@) {
                Some(level) => result == Ok::<Self, LoadError>(level),
                None => result matches Err(error) && error@ == LoadErrorModel::InvalidLineLevel(
                    text@,
                ),
            },
    {
        if same_text(text, "H") {
            Ok(LineLevel::High)
        } else if same_text(text, "L") {
            Ok(LineLevel::Low)
        } else {
            Err(LoadError::InvalidLineLevel(text.to_owned()))
        }
    }

    /// The text of a level.
    pub fn as_xml(self) -> (text: &'static str)
        ensures
            text@ == level_text(self),
    {
        match self {
            LineLevel::High => "H",
            LineLevel::Low => "L",
        }
    }
}

/// The logical value of a level: a high line is active unless the line is active-low.
pub open spec fn logical_value(level: LineLevel, active_low: bool) -> LineValue {
    if (level == LineLevel::High) != active_low {
        LineValue::Active
    } else {
        LineValue::Inactive
    }
}

/// The level of a logical value: an active line is high unless the line is active-low.
pub open spec fn physical_level(value: LineValue, active_low: bool) -> LineLevel {
    if (value == LineValue::Active) != active_low {
        LineLevel::High
    } else {
        LineLevel::Low
    }
}

/// Converting a level to a value and back, under the same polarity, gives the level, and
/// the other way round; the opposite polarity gives the opposite value.
pub proof fn level_conversion_round_trips(level: LineLevel, value: LineValue, active_low: bool)
    ensures
        physical_level(logical_value(level, active_low), active_low) == level,
        logical_value(physical_level(value, active_low), active_low) == value,
        logical_value(level, active_low) != logical_value(level, !active_low),
{
}

/// The logical value of a physical level.
pub fn line_level_to_line_value(level: LineLevel, active_low: bool) -> (value: LineValue)
    ensures
        value == logical_value(level, active_low),
{
    match (level, active_low) {
        (LineLevel::High, false) | (LineLevel::Low, true) => LineValue::Active,
        (LineLevel::Low, false) | (LineLevel::High, true) => LineValue::Inactive,
    }
}

/// The physical level of a logical value.
pub fn line_value_to_line_level(value: LineValue, active_low: bool) -> (level: LineLevel)
    ensures
        level == physical_level(value, active_low),
{
    match (value, active_low) {
        (LineValue::Active, false) | (LineValue::Inactive, true) => LineLevel::High,
        (LineValue::Inactive, false) | (LineValue::Active, true) => LineLevel::Low,
    }
}

/// Why a chip document cannot be used.
#[derive(Debug, Clone, PartialEq, Eq)]
pub enum LoadError {
    XmlParseError(String),
    InvalidLineId(String, NumberError),
    InvalidLineDirection(String),
    InvalidLineBias(String),
    InvalidLineDrive(String),
    InvalidLineActiveLow(String),
    InvalidLineLevel(String),
    EmptyChipId,
    DuplicateLineId(u32),
    InputLineWithDrive,
    OutputLineWithBias,
    UnknownLineAttribute(String),
    UnknownChipAttribute(String),
    InvalidRootElement,
    InvalidXmlDocument,
}

/// A [`LoadError`] with its texts as character sequences.
pub ghost enum LoadErrorModel {
    XmlParseError(Seq<char>),
    InvalidLineId(Seq<char>, NumberError),
    InvalidLineDirection(Seq<char>),
    InvalidLineBias(Seq<char>),
    InvalidLineDrive(Seq<char>),
    InvalidLineActiveLow(Seq<char>),
    InvalidLineLevel(Seq<char>),
    EmptyChipId,
    DuplicateLineId(u32),
    InputLineWithDrive,
    OutputLineWithBias,
    UnknownLineAttribute(Seq<char>),
    UnknownChipAttribute(Seq<char>),
    InvalidRootElement,
    InvalidXmlDocument,
}

impl View for LoadError {
    type V = LoadErrorModel;

    open spec fn view(&self) -> LoadErrorModel {
        match *self {
            LoadError::XmlParseError(text) => LoadErrorModel::XmlParseError(text@),
            LoadError::InvalidLineId(text, error) => LoadErrorModel::InvalidLineId(text@, error),
            LoadError::InvalidLineDirection(text) => LoadErrorModel::InvalidLineDirection(text@),
            LoadError::InvalidLineBias(text) => LoadErrorModel::InvalidLineBias(text@),
            LoadError::InvalidLineDrive(text) => LoadErrorModel::InvalidLineDrive(text@),
            LoadError::InvalidLineActiveLow(text) => LoadErrorModel::InvalidLineActiveLow(text@),
            LoadError::InvalidLineLevel(text) => LoadErrorModel::InvalidLineLevel(text@),
            LoadError::EmptyChipId => LoadErrorModel::EmptyChipId,
            LoadError::DuplicateLineId(offset) => LoadErrorModel::DuplicateLineId(offset),
            LoadError::InputLineWithDrive => LoadErrorModel::InputLineWithDrive,
            LoadError::OutputLineWithBias => LoadErrorModel::OutputLineWithBias,
            LoadError::UnknownLineAttribute(name) => LoadErrorModel::UnknownLineAttribute(name@),
            LoadError::UnknownChipAttribute(name) => LoadErrorModel::UnknownChipAttribute(name@),
            LoadError::InvalidRootElement => LoadErrorModel::InvalidRootElement,
            LoadError::InvalidXmlDocument => LoadErrorModel::InvalidXmlDocument,
        }
    }
}

/// `start`, the text between backquotes, nothing more.
pub open spec fn quoted(start: Seq<char>, text: Seq<char>) -> Seq<char> {
    start + "`"@ + text + "`"@
}

fn quote(start: &str, text: &str) -> (result: String)
    ensures
        result@ == quoted(start@, text@),
{
    start.to_owned().concat("`").concat(text).concat("`")
}

impl LoadErrorModel {
    /// The error in words.
    pub open spec fn text(self) -> Seq<char> {
        match self {
            LoadErrorModel::XmlParseError(text) => "xml parse error: "@ + text,
            LoadErrorModel::InvalidLineId(text, error) => quoted("invalid line id "@, text) + ": "@
                + error.text(),
            LoadErrorModel::InvalidLineDirection(text) => quoted("invalid line direction "@, text),
            LoadErrorModel::InvalidLineBias(text) => quoted("invalid line bias "@, text),
            LoadErrorModel::InvalidLineDrive(text) => quoted("invalid line drive "@, text),
            LoadErrorModel::InvalidLineActiveLow(text) => quoted("invalid line active low "@, text),
            LoadErrorModel::InvalidLineLevel(text) => quoted("invalid line level "@, text),
            LoadErrorModel::EmptyChipId => "id must not be empty"@,
            LoadErrorModel::DuplicateLineId(offset) => quoted(
                "duplicate line id "@,
                decimal(offset as nat),
            ),
            LoadErrorModel::InputLineWithDrive => "input line must not define drive"@,
            LoadErrorModel::OutputLineWithBias => "output line must not define bias"@,
            LoadErrorModel::UnknownLineAttribute(name) => quoted("unknown line attribute "@, name),
            LoadErrorModel::UnknownChipAttribute(name) => quoted("unknown chip attribute "@, name),
            LoadErrorModel::InvalidRootElement =>
                "invalid root element; expected exactly one <gpiochip>, not a <gpiochips> wrapper"@,
            LoadErrorModel::InvalidXmlDocument => "invalid xml document"@,
        }
    }
}

impl LoadError {
    /// The error in words.
    pub fn message(&self) -> (message: String)
        ensures
            message@ == self@.text(),
    {
        match self {
            LoadError::XmlParseError(text) => "xml parse error: ".to_owned().concat(text.as_str()),
            LoadError::InvalidLineId(text, error) => quote(
                "invalid line id ",
                text.as_str(),
            ).concat(": ").concat(error.message()),
            LoadError::InvalidLineDirection(text) => quote(
                "invalid line direction ",
                text.as_str(),
            ),
            LoadError::InvalidLineBias(text) => quote("invalid line bias ", text.as_str()),
            LoadError::InvalidLineDrive(text) => quote("invalid line drive ", text.as_str()),
            LoadError::InvalidLineActiveLow(text) => quote(
                "invalid line active low ",
                text.as_str(),
            ),
            LoadError::InvalidLineLevel(text) => quote("invalid line level ", text.as_str()),
            LoadError::EmptyChipId => "id must not be empty".to_owned(),
            LoadError::DuplicateLineId(offset) => quote(
                "duplicate line id ",
                number_text(*offset as u64).as_str(),
            ),
            LoadError::InputLineWithDrive => "input line must not define drive".to_owned(),
            LoadError::OutputLineWithBias => "output line must not define bias".to_owned(),
            LoadError::UnknownLineAttribute(name) => quote(
                "unknown line attribute ",
                name.as_str(),
            ),
            LoadError::UnknownChipAttribute(name) => quote(
                "unknown chip attribute ",
                name.as_str(),
            ),
            LoadError::InvalidRootElement =>
                "invalid root element; expected exactly one <gpiochip>, not a <gpiochips> wrapper".to_owned(),
            LoadError::InvalidXmlDocument => "invalid xml document".to_owned(),
        }
    }
}

/// Persisted state of one line.
#[derive(Debug, Clone, PartialEq, Eq)]
pub struct MockLineSnapshot {
    pub name: String,
    pub consumer: String,
    pub direction: LineDirection,
    pub bias: LineBias,
    pub drive: LineDrive,
    pub active_low: bool,
    pub persisted_level: LineLevel,
}

/// A [`MockLineSnapshot`] with its texts as character sequences.
pub ghost struct LineModel {
    pub name: Seq<char>,
    pub consumer: Seq<char>,
    pub direction: LineDirection,
    pub bias: LineBias,
    pub drive: LineDrive,
    pub active_low: bool,
    pub level: LineLevel,
}

impl View for MockLineSnapshot {
    type V = LineModel;

    open spec fn view(&self) -> LineModel {
        LineModel {
            name: self.name@,
            consumer: self.consumer@,
            direction: self.direction,
            bias: self.bias,
            drive: self.drive,
            active_low: self.active_low,
            level: self.persisted_level,
        }
    }
}

impl MockLineSnapshot {
    /// An equal line.
    pub fn duplicate(&self) -> (line: Self)
        ensures
            line == *self,
    {
        MockLineSnapshot {
            name: self.name.clone(),
            consumer: self.consumer.clone(),
            direction: self.direction,
            bias: self.bias,
            drive: self.drive,
            active_low: self.active_low,
            persisted_level: self.persisted_level,
        }
    }
}

/// Persisted state of one chip: its name, its label and its lines by offset.
#[derive(Debug, Clone, PartialEq, Eq)]
pub struct MockChipSnapshot {
    pub name: String,
    pub label: String,
    pub lines: BTreeMap<u32, MockLineSnapshot>,
}

/// A [`MockChipSnapshot`] with its texts as character sequences.
pub ghost struct ChipModel {
    pub name: Seq<char>,
    pub label: Seq<char>,
    pub lines: Map<u32, LineModel>,
}

/// The models of lines by offset.
pub open spec fn line_models(lines: Map<u32, MockLineSnapshot>) -> Map<u32, LineModel> {
    lines.map_values(|line: MockLineSnapshot| line@)
}

impl View for MockChipSnapshot {
    type V = ChipModel;

    open spec fn view(&self) -> ChipModel {
        ChipModel { name: self.name@, label: self.label@, lines: line_models(self.lines@) }
    }
}

impl MockChipSnapshot {
    /// How many lines the chip has.
    pub fn num_lines(&self) -> (count: usize)
        ensures
            count == self@.lines.len(),
    {
        assert(self@.lines.dom() =~= self.lines@.dom());
        self.lines.len()
    }

    /// An equal chip.
    pub fn duplicate(&self) -> (chip: Self)
        ensures
            chip@ == self@,
    {
        MockChipSnapshot {
            name: self.name.clone(),
            label: self.label.clone(),
            lines: self.lines.clone(),
        }
    }
}

} // verus!

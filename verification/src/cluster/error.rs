//! What can go wrong in a cluster.

use vstd::prelude::*;
use vstd::string::StringExecFns;

use crate::cluster::pinspec::PinSpecParseError;
use crate::number::decimal;
use crate::number::number_text;
use crate::text::joined;

verus! {

/// Errors of a cluster, told apart by what a session does about them.
pub trait GPIOClusterError {
    /// The error in words.
    spec fn words(&self) -> Seq<char>;

    /// The cluster is closed.
    spec fn closed(&self) -> bool;

    /// No pin stands at an index.
    spec fn invalid_index(&self) -> bool;

    /// The numbers of pins and of values differ.
    spec fn unmatched_value(&self) -> bool;

    /// The error in words.
    fn message(&self) -> (message: String)
        ensures
            message@ == self.words(),
    ;

    /// Whether the cluster is closed.
    fn is_closed(&self) -> (result: bool)
        ensures
            result == self.closed(),
    ;

    /// Whether no pin stands at an index.
    fn is_invalid_index(&self) -> (result: bool)
        ensures
            result == self.invalid_index(),
    ;

    /// Whether the numbers of pins and of values differ.
    fn is_unmatched_value(&self) -> (result: bool)
        ensures
            result == self.unmatched_value(),
    ;
}

/// Why an operation of a mock cluster or of its backend fails.
#[derive(Debug, PartialEq, Eq)]
pub enum MockError {
    Closed,
    InvalidIndex,
    UnmatchedValue,
    LineNotFound { chip: String, line: u32 },
    DirectionMismatch { chip: String, line: u32, expected: &'static str, found: &'static str },
    TriggerNotSupported { chip: String, line: u32 },
    InvalidValue { chip: String, line: u32, value: String },
    WriteToInput { chip: String, line: u32 },
    InvalidPinName { pin: String, reason: PinSpecParseError },
    Parse(String),
    WatcherFailed(String),
    Io(String),
}

/// A [`MockError`] with its texts as character sequences.
pub ghost enum MockErrorModel {
    Closed,
    InvalidIndex,
    UnmatchedValue,
    LineNotFound { chip: Seq<char>, line: u32 },
    DirectionMismatch { chip: Seq<char>, line: u32, expected: Seq<char>, found: Seq<char> },
    TriggerNotSupported { chip: Seq<char>, line: u32 },
    InvalidValue { chip: Seq<char>, line: u32, value: Seq<char> },
    WriteToInput { chip: Seq<char>, line: u32 },
    InvalidPinName { pin: Seq<char>, reason: PinSpecParseError },
    Parse(Seq<char>),
    WatcherFailed(Seq<char>),
    Io(Seq<char>),
}

impl View for MockError {
    type V = MockErrorModel;

    open spec fn view(&self) -> MockErrorModel {
        match *self {
            MockError::Closed => MockErrorModel::Closed,
            MockError::InvalidIndex => MockErrorModel::InvalidIndex,
            MockError::UnmatchedValue => MockErrorModel::UnmatchedValue,
            MockError::LineNotFound { chip, line } => MockErrorModel::LineNotFound {
                chip: chip@,
                line,
            },
            MockError::DirectionMismatch { chip, line, expected, found } =>
                MockErrorModel::DirectionMismatch {
                    chip: chip@,
                    line,
                    expected: expected@,
                    found: found@,
                },
            MockError::TriggerNotSupported { chip, line } => MockErrorModel::TriggerNotSupported {
                chip: chip@,
                line,
            },
            MockError::InvalidValue { chip, line, value } => MockErrorModel::InvalidValue {
                chip: chip@,
                line,
                value: value@,
            },
            MockError::WriteToInput { chip, line } => MockErrorModel::WriteToInput {
                chip: chip@,
                line,
            },
            MockError::InvalidPinName { pin, reason } => MockErrorModel::InvalidPinName {
                pin: pin@,
                reason,
            },
            MockError::Parse(text) => MockErrorModel::Parse(text@),
            MockError::WatcherFailed(text) => MockErrorModel::WatcherFailed(text@),
            MockError::Io(text) => MockErrorModel::Io(text@),
        }
    }
}

/// A line in an error message.
pub open spec fn line_words(chip: Seq<char>, line: u32) -> Seq<char> {
    chip + ":line_"@ + decimal(line as nat)
}

impl MockErrorModel {
    /// The error in words.
    pub open spec fn text(self) -> Seq<char> {
        match self {
            MockErrorModel::Closed => "cluster closed"@,
            MockErrorModel::InvalidIndex => "invalid pin index"@,
            MockErrorModel::UnmatchedValue => "unmatched value count"@,
            MockErrorModel::LineNotFound { chip, line } => "line not found: "@ + line_words(
                chip,
                line,
            ),
            MockErrorModel::DirectionMismatch { chip, line, expected, found } =>
                "direction mismatch for "@ + line_words(chip, line) + ": expected "@ + expected
                    + ", found "@ + found,
            MockErrorModel::TriggerNotSupported { chip, line } => "trigger not enabled for "@
                + line_words(chip, line),
            MockErrorModel::InvalidValue { chip, line, value } => "invalid line value `"@ + value
                + "` at "@ + line_words(chip, line),
            MockErrorModel::WriteToInput { chip, line } => "write to input line: "@ + line_words(
                chip,
                line,
            ),
            MockErrorModel::InvalidPinName { pin, .. } => "invalid pin name `"@ + pin + "`"@,
            MockErrorModel::Parse(text) => "parse error: "@ + text,
            MockErrorModel::WatcherFailed(text) => "watcher failed: "@ + text,
            MockErrorModel::Io(text) => "io error: "@ + text,
        }
    }
}

fn line_text(chip: &String, line: u32) -> (text: String)
    ensures
        text@ == line_words(chip@, line),
{
    chip.clone().concat(":line_").concat(number_text(line as u64).as_str())
}

impl GPIOClusterError for MockError {
    open spec fn words(&self) -> Seq<char> {
        self@.text()
    }

    open spec fn closed(&self) -> bool {
        *self is Closed
    }

    open spec fn invalid_index(&self) -> bool {
        *self is InvalidIndex
    }

    open spec fn unmatched_value(&self) -> bool {
        *self is UnmatchedValue
    }

    fn message(&self) -> (message: String) {
        match self {
            MockError::Closed => "cluster closed".to_owned(),
            MockError::InvalidIndex => "invalid pin index".to_owned(),
            MockError::UnmatchedValue => "unmatched value count".to_owned(),
            MockError::LineNotFound { chip, line } => joined(
                "line not found: ",
                line_text(chip, *line).as_str(),
            ),
            MockError::DirectionMismatch { chip, line, expected, found } => joined(
                "direction mismatch for ",
                line_text(chip, *line).as_str(),
            ).concat(": expected ").concat(expected).concat(", found ").concat(found),
            MockError::TriggerNotSupported { chip, line } => joined(
                "trigger not enabled for ",
                line_text(chip, *line).as_str(),
            ),
            MockError::InvalidValue { chip, line, value } => joined(
                "invalid line value `",
                value.as_str(),
            ).concat("` at ").concat(line_text(chip, *line).as_str()),
            MockError::WriteToInput { chip, line } => joined(
                "write to input line: ",
                line_text(chip, *line).as_str(),
            ),
            MockError::InvalidPinName { pin, .. } => joined(
                "invalid pin name `",
                pin.as_str(),
            ).concat("`"),
            MockError::Parse(text) => joined("parse error: ", text.as_str()),
            MockError::WatcherFailed(text) => joined("watcher failed: ", text.as_str()),
            MockError::Io(text) => joined("io error: ", text.as_str()),
        }
    }

    fn is_closed(&self) -> (result: bool) {
        matches!(self, MockError::Closed)
    }

    fn is_invalid_index(&self) -> (result: bool) {
        matches!(self, MockError::InvalidIndex)
    }

    fn is_unmatched_value(&self) -> (result: bool) {
        matches!(self, MockError::UnmatchedValue)
    }
}

} // verus!

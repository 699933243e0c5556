//! The libgpiod vocabulary: line attributes, event kinds and errors.

use vstd::prelude::*;
use vstd::string::StringExecFns;

use crate::number::decimal;
use crate::number::number_text;

verus! {

/// Logical value of a line.
#[derive(Debug, Clone, Copy, PartialEq, Eq, Structural)]
pub enum LineValue {
    Inactive,
    Active,
}

/// Direction of a line.
#[derive(Debug, Clone, Copy, PartialEq, Eq, Structural)]
pub enum LineDirection {
    AsIs,
    Input,
    Output,
}

impl Default for LineDirection {
    fn default() -> (value: Self)
        ensures
            value == LineDirection::AsIs,
    {
        LineDirection::AsIs
    }
}

/// Edge detection of a line.
#[derive(Debug, Clone, Copy, PartialEq, Eq, Structural)]
pub enum LineEdge {
    NoEdge,
    Rising,
    Falling,
    Both,
}

impl Default for LineEdge {
    fn default() -> (value: Self)
        ensures
            value == LineEdge::NoEdge,
    {
        LineEdge::NoEdge
    }
}

/// Internal bias of a line.
#[derive(Debug, Clone, Copy, PartialEq, Eq, Structural)]
pub enum LineBias {
    AsIs,
    Unknown,
    Disabled,
    PullUp,
    PullDown,
}

impl Default for LineBias {
    fn default() -> (value: Self)
        ensures
            value == LineBias::AsIs,
    {
        LineBias::AsIs
    }
}

/// Drive of an output line.
#[derive(Debug, Clone, Copy, PartialEq, Eq, Structural)]
pub enum LineDrive {
    PushPull,
    OpenDrain,
    OpenSource,
}

impl Default for LineDrive {
    fn default() -> (value: Self)
        ensures
            value == LineDrive::PushPull,
    {
        LineDrive::PushPull
    }
}

/// Clock that stamps edge events.
#[derive(Debug, Clone, Copy, PartialEq, Eq, Structural)]
pub enum LineClock {
    Monotonic,
    Realtime,
    Hte,
}

impl Default for LineClock {
    fn default() -> (value: Self)
        ensures
            value == LineClock::Monotonic,
    {
        LineClock::Monotonic
    }
}

/// What happened to a watched line.
#[derive(Debug, Clone, Copy, PartialEq, Eq, Structural)]
pub enum InfoEventType {
    LineRequested,
    LineReleased,
    LineConfigChanged,
}

/// Direction of a detected edge.
#[derive(Debug, Clone, Copy, PartialEq, Eq, Structural)]
pub enum EdgeEventType {
    RisingEdge,
    FallingEdge,
}

/// Outcome of waiting for an event.
#[derive(Debug, Clone, Copy, PartialEq, Eq, Structural)]
pub enum WaitStatus {
    Timeout,
    EventPending,
}

/// What can go wrong on a chip or a line request.
#[derive(Debug, Clone, PartialEq, Eq)]
pub enum GPIOError {
    /// The chip or the request was closed.
    Closed,
    /// The chip has no line at this offset.
    InvalidOffset(u32),
    /// No line carries this name.
    LineNameNotFound(String),
    /// An argument is out of range.
    InvalidArgument(String),
    /// Two lists that go together differ in length.
    LengthMismatch { expected: usize, actual: usize },
    /// A request names no line.
    EmptyLineConfig,
    /// The offset is not part of the request or configuration.
    UnconfiguredOffset { offset: u32 },
    /// A raw code stands for neither an inactive nor an active line.
    InvalidLineValue(i32),
    /// Reading or writing failed.
    Io(String),
    /// Anything else, in words.
    Other(String),
}

/// A [`GPIOError`] with its texts as character sequences.
pub ghost enum GPIOErrorModel {
    Closed,
    InvalidOffset(u32),
    LineNameNotFound(Seq<char>),
    InvalidArgument(Seq<char>),
    LengthMismatch { expected: usize, actual: usize },
    EmptyLineConfig,
    UnconfiguredOffset { offset: u32 },
    InvalidLineValue(i32),
    Io(Seq<char>),
    Other(Seq<char>),
}

impl View for GPIOError {
    type V = GPIOErrorModel;

    open spec fn view(&self) -> GPIOErrorModel {
        match *self {
            GPIOError::Closed => GPIOErrorModel::Closed,
            GPIOError::InvalidOffset(offset) => GPIOErrorModel::InvalidOffset(offset),
            GPIOError::LineNameNotFound(name) => GPIOErrorModel::LineNameNotFound(name@),
            GPIOError::InvalidArgument(text) => GPIOErrorModel::InvalidArgument(text@),
            GPIOError::LengthMismatch { expected, actual } => GPIOErrorModel::LengthMismatch {
                expected,
                actual,
            },
            GPIOError::EmptyLineConfig => GPIOErrorModel::EmptyLineConfig,
            GPIOError::UnconfiguredOffset { offset } => GPIOErrorModel::UnconfiguredOffset {
                offset,
            },
            GPIOError::InvalidLineValue(raw) => GPIOErrorModel::InvalidLineValue(raw),
            GPIOError::Io(text) => GPIOErrorModel::Io(text@),
            GPIOError::Other(text) => GPIOErrorModel::Other(text@),
        }
    }
}

/// The decimal text of a signed number.
pub open spec fn signed_decimal(number: int) -> Seq<char> {
    if number < 0 {
        "-"@ + decimal((-number) as nat)
    } else {
        decimal(number as nat)
    }
}

impl GPIOErrorModel {
    /// The error in words.
    pub open spec fn text(self) -> Seq<char> {
        match self {
            GPIOErrorModel::Closed => "GPIO chip or line request is closed"@,
            GPIOErrorModel::InvalidOffset(offset) => "invalid line offset "@ + decimal(
                offset as nat,
            ),
            GPIOErrorModel::LineNameNotFound(name) => "line name not found: "@ + name,
            GPIOErrorModel::InvalidArgument(text) => "invalid argument: "@ + text,
            GPIOErrorModel::LengthMismatch { expected, actual } => "length mismatch: expected "@
                + decimal(expected as nat) + ", got "@ + decimal(actual as nat),
            GPIOErrorModel::EmptyLineConfig => "line config is empty"@,
            GPIOErrorModel::UnconfiguredOffset { offset } => "line offset "@ + decimal(
                offset as nat,
            ) + " is not configured"@,
            GPIOErrorModel::InvalidLineValue(raw) => "invalid line value "@ + signed_decimal(
                raw as int,
            ),
            GPIOErrorModel::Io(text) => "I/O error: "@ + text,
            GPIOErrorModel::Other(text) => text,
        }
    }
}

impl GPIOError {
    /// The error in words.
    pub fn message(&self) -> (message: String)
        ensures
            message@ == self@.text(),
    {
        match self {
            GPIOError::Closed => "GPIO chip or line request is closed".to_owned(),
            GPIOError::InvalidOffset(offset) => "invalid line offset ".to_owned().concat(
                number_text(*offset as u64).as_str(),
            ),
            GPIOError::LineNameNotFound(name) => "line name not found: ".to_owned().concat(
                name.as_str(),
            ),
            GPIOError::InvalidArgument(text) => "invalid argument: ".to_owned().concat(
                text.as_str(),
            ),
            GPIOError::LengthMismatch { expected, actual } => "length mismatch: expected ".to_owned().concat(
                number_text(*expected as u64).as_str(),
            ).concat(", got ").concat(number_text(*actual as u64).as_str()),
            GPIOError::EmptyLineConfig => "line config is empty".to_owned(),
            GPIOError::UnconfiguredOffset { offset } => "line offset ".to_owned().concat(
                number_text(*offset as u64).as_str(),
            ).concat(" is not configured"),
            GPIOError::InvalidLineValue(raw) => {
                let wide: i64 = *raw as i64;
                let prefix = "invalid line value ".to_owned();
                if wide < 0 {
                    let text = prefix.concat("-").concat(number_text((-wide) as u64).as_str());
                    assert(text@ =~= self@.text());
                    text
                } else {
                    prefix.concat(number_text(wide as u64).as_str())
                }
            },
            GPIOError::Io(text) => "I/O error: ".to_owned().concat(text.as_str()),
            GPIOError::Other(text) => text.clone(),
        }
    }
}

} // verus!

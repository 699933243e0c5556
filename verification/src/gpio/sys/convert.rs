//! Codes of the C library `libgpiod` and errors from its return values.

use vstd::prelude::*;
use vstd::string::StringExecFns;

use crate::gpio::libgpiod::EdgeEventType;
use crate::gpio::libgpiod::GPIOError;
use crate::gpio::libgpiod::GPIOErrorModel;
use crate::gpio::libgpiod::InfoEventType;
use crate::gpio::libgpiod::LineBias;
use crate::gpio::libgpiod::LineClock;
use crate::gpio::libgpiod::LineDirection;
use crate::gpio::libgpiod::LineDrive;
use crate::gpio::libgpiod::LineEdge;
use crate::gpio::libgpiod::LineValue;
use crate::gpio::libgpiod::WaitStatus;
use crate::number::decimal;
use crate::number::number_text;
use crate::text::contains_char;

verus! {

// ---------------------------------------------------------------------------
// Values
// ---------------------------------------------------------------------------

/// The code that stands for an error.
pub const LINE_VALUE_ERROR: i32 = -1;

/// The code of an inactive line.
pub const LINE_VALUE_INACTIVE: i32 = 0;

/// The code of an active line.
pub const LINE_VALUE_ACTIVE: i32 = 1;

/// A value as the C library gives it: inactive, active, the error sentinel, or anything else.
#[derive(Debug, Clone, Copy, PartialEq, Eq, Structural)]
pub struct RawLineValue {
    pub raw: i32,
}

impl RawLineValue {
    /// The value with a code.
    pub fn from_raw(raw: i32) -> (value: Self)
        ensures
            value.raw == raw,
    {
        RawLineValue { raw }
    }

    /// The code of the value.
    pub fn as_raw(self) -> (raw: i32)
        ensures
            raw == self.raw,
    {
        self.raw
    }

    /// Whether the value stands for an error.
    pub fn is_error(self) -> (error: bool)
        ensures
            error == (self.raw == LINE_VALUE_ERROR),
    {
        self.raw == LINE_VALUE_ERROR
    }
}

/// The code of a logical value.
pub open spec fn line_value_code(value: LineValue) -> i32 {
    match value {
        LineValue::Inactive => 0,
        LineValue::Active => 1,
    }
}

/// The code of a logical value.
pub fn line_value_to_c(value: LineValue) -> (code: i32)
    ensures
        code == line_value_code(value),
{
    match value {
        LineValue::Inactive => 0,
        LineValue::Active => 1,
    }
}

/// The value with a code.
pub fn line_value_from_c(code: i32) -> (value: RawLineValue)
    ensures
        value.raw == code,
{
    RawLineValue::from_raw(code)
}

/// What a call failed of, and why.
pub open spec fn failed_call(context: Seq<char>, cause: Seq<char>) -> GPIOErrorModel {
    GPIOErrorModel::Other(context + ": "@ + cause)
}

/// The error of a call that failed, given the last error of the operating system.
pub fn errno_error(context: &str, os_error: &str) -> (error: GPIOError)
    ensures
        error@ == failed_call(context@, os_error@),
{
    GPIOError::Other(context.to_owned().concat(": ").concat(os_error))
}

/// The logical value of a line that was read: the error sentinel is a failed call, and other
/// codes are not values.
pub fn require_inactive_or_active(value: RawLineValue, context: &str, os_error: &str) -> (result:
    Result<LineValue, GPIOError>)
    ensures
        match result {
            Ok(line) => line_value_code(line) == value.raw,
            Err(error) => {
                &&& value.raw != 0
                &&& value.raw != 1
                &&& error@ == if value.raw == -1 {
                    failed_call(context@, os_error@)
                } else {
                    GPIOErrorModel::InvalidLineValue(value.raw)
                }
            },
        },
{
    if value.is_error() {
        return Err(errno_error(context, os_error));
    }
    match value.raw {
        0 => Ok(LineValue::Inactive),
        1 => Ok(LineValue::Active),
        raw => Err(GPIOError::InvalidLineValue(raw)),
    }
}

// ---------------------------------------------------------------------------
// Return values
// ---------------------------------------------------------------------------

/// Whether a call succeeded: it returned zero.
pub fn check_status(ret: i32, context: &str, os_error: &str) -> (result: Result<(), GPIOError>)
    ensures
        match result {
            Ok(_) => ret == 0,
            Err(error) => ret != 0 && error@ == failed_call(context@, os_error@),
        },
{
    if ret == 0 {
        Ok(())
    } else {
        Err(errno_error(context, os_error))
    }
}

/// What waiting for an event came to.
pub fn wait_status(ret: i32, context: &str, os_error: &str) -> (result: Result<
    WaitStatus,
    GPIOError,
>)
    ensures
        match result {
            Ok(status) => match status {
                WaitStatus::Timeout => ret == 0,
                WaitStatus::EventPending => ret == 1,
            },
            Err(error) => ret != 0 && ret != 1 && error@ == failed_call(context@, os_error@),
        },
{
    match ret {
        0 => Ok(WaitStatus::Timeout),
        1 => Ok(WaitStatus::EventPending),
        _ => Err(errno_error(context, os_error)),
    }
}

/// A timeout in nanoseconds: none waits without end, and what does not fit waits as long as
/// can be said.
pub fn timeout_ns_to_c(timeout_ns: Option<u64>) -> (timeout: i64)
    ensures
        match timeout_ns {
            None => timeout == -1,
            Some(ns) => timeout == if ns <= i64::MAX {
                ns as int
            } else {
                i64::MAX as int
            },
        },
{
    match timeout_ns {
        None => -1,
        Some(ns) => if ns <= i64::MAX as u64 {
            ns as i64
        } else {
            i64::MAX
        },
    }
}

/// Whether a text can be a C string: it holds no NUL character.
pub fn check_c_text(value: &str, what: &str) -> (result: Result<(), GPIOError>)
    ensures
        match result {
            Ok(_) => !value@.contains('\0'),
            Err(error) => value@.contains('\0') && error@ == GPIOErrorModel::InvalidArgument(
                what@ + " contains an interior NUL byte"@,
            ),
        },
{
    if contains_char(value, '\0') {
        Err(
            GPIOError::InvalidArgument(
                what.to_owned().concat(" contains an interior NUL byte"),
            ),
        )
    } else {
        Ok(())
    }
}

/// The error of a search for a line by name: not found, or a failed call.
pub fn line_name_not_found_or_errno(
    name: &str,
    not_found: bool,
    context: &str,
    os_error: &str,
) -> (error: GPIOError)
    ensures
        error@ == if not_found {
            GPIOErrorModel::LineNameNotFound(name@)
        } else {
            failed_call(context@, os_error@)
        },
{
    if not_found {
        GPIOError::LineNameNotFound(name.to_owned())
    } else {
        errno_error(context, os_error)
    }
}

/// Whether two lists that go together have the same length.
pub fn check_lengths(expected: usize, actual: usize) -> (result: Result<(), GPIOError>)
    ensures
        match result {
            Ok(_) => expected == actual,
            Err(error) => expected != actual && error@ == (GPIOErrorModel::LengthMismatch {
                expected,
                actual,
            }),
        },
{
    if expected == actual {
        Ok(())
    } else {
        Err(GPIOError::LengthMismatch { expected, actual })
    }
}

/// Whether a read asks for no more events than its buffer can hold.
pub fn check_read_limit(max_events: usize, capacity: usize) -> (result: Result<(), GPIOError>)
    ensures
        match result {
            Ok(_) => max_events <= capacity,
            Err(error) => max_events > capacity && error@ == GPIOErrorModel::InvalidArgument(
                "max_events "@ + decimal(max_events as nat) + " exceeds edge buffer capacity "@
                    + decimal(capacity as nat),
            ),
        },
{
    if max_events <= capacity {
        Ok(())
    } else {
        Err(
            GPIOError::InvalidArgument(
                "max_events ".to_owned().concat(number_text(max_events as u64).as_str()).concat(
                    " exceeds edge buffer capacity ",
                ).concat(number_text(capacity as u64).as_str()),
            ),
        )
    }
}

/// Whether a buffer has an event at a position.
pub fn check_event_index(index: usize, count: usize) -> (result: Result<(), GPIOError>)
    ensures
        match result {
            Ok(_) => index < count,
            Err(error) => index >= count && error@ == GPIOErrorModel::InvalidArgument(
                "edge event index "@ + decimal(index as nat) + " out of range (len "@ + decimal(
                    count as nat,
                ) + ")"@,
            ),
        },
{
    if index < count {
        Ok(())
    } else {
        Err(
            GPIOError::InvalidArgument(
                "edge event index ".to_owned().concat(number_text(index as u64).as_str()).concat(
                    " out of range (len ",
                ).concat(number_text(count as u64).as_str()).concat(")"),
            ),
        )
    }
}

// ---------------------------------------------------------------------------
// Codes
// ---------------------------------------------------------------------------

/// The code of a direction.
pub open spec fn line_direction_code(value: LineDirection) -> i32 {
    match value {
        LineDirection::AsIs => 1,
        LineDirection::Input => 2,
        LineDirection::Output => 3,
    }
}

/// What a code says of a direction. Codes that there are not stand for `AsIs`.
pub open spec fn line_direction_of_code(code: i32) -> LineDirection {
    if code == 1 {
        LineDirection::AsIs
    } else if code == 2 {
        LineDirection::Input
    } else if code == 3 {
        LineDirection::Output
    } else {
        LineDirection::AsIs
    }
}

/// The code of a direction.
pub fn line_direction_to_c(value: LineDirection) -> (code: i32)
    ensures
        code == line_direction_code(value),
{
    match value {
        LineDirection::AsIs => 1,
        LineDirection::Input => 2,
        LineDirection::Output => 3,
    }
}

/// What a code says of a direction.
pub fn line_direction_from_c(code: i32) -> (value: LineDirection)
    ensures
        value == line_direction_of_code(code),
{
    match code {
        1 => LineDirection::AsIs,
        2 => LineDirection::Input,
        3 => LineDirection::Output,
        _ => LineDirection::AsIs,
    }
}

/// The code of edge detection.
pub open spec fn line_edge_code(value: LineEdge) -> i32 {
    match value {
        LineEdge::NoEdge => 1,
        LineEdge::Rising => 2,
        LineEdge::Falling => 3,
        LineEdge::Both => 4,
    }
}

/// What a code says of edge detection. Codes that there are not stand for `NoEdge`.
pub open spec fn line_edge_of_code(code: i32) -> LineEdge {
    if code == 1 {
        LineEdge::NoEdge
    } else if code == 2 {
        LineEdge::Rising
    } else if code == 3 {
        LineEdge::Falling
    } else if code == 4 {
        LineEdge::Both
    } else {
        LineEdge::NoEdge
    }
}

/// The code of edge detection.
pub fn line_edge_to_c(value: LineEdge) -> (code: i32)
    ensures
        code == line_edge_code(value),
{
    match value {
        LineEdge::NoEdge => 1,
        LineEdge::Rising => 2,
        LineEdge::Falling => 3,
        LineEdge::Both => 4,
    }
}

/// What a code says of edge detection.
pub fn line_edge_from_c(code: i32) -> (value: LineEdge)
    ensures
        value == line_edge_of_code(code),
{
    match code {
        1 => LineEdge::NoEdge,
        2 => LineEdge::Rising,
        3 => LineEdge::Falling,
        4 => LineEdge::Both,
        _ => LineEdge::NoEdge,
    }
}

/// The code of a bias.
pub open spec fn line_bias_code(value: LineBias) -> i32 {
    match value {
        LineBias::AsIs => 1,
        LineBias::Unknown => 2,
        LineBias::Disabled => 3,
        LineBias::PullUp => 4,
        LineBias::PullDown => 5,
    }
}

/// What a code says of a bias. Codes that there are not stand for `Unknown`.
pub open spec fn line_bias_of_code(code: i32) -> LineBias {
    if code == 1 {
        LineBias::AsIs
    } else if code == 2 {
        LineBias::Unknown
    } else if code == 3 {
        LineBias::Disabled
    } else if code == 4 {
        LineBias::PullUp
    } else if code == 5 {
        LineBias::PullDown
    } else {
        LineBias::Unknown
    }
}

/// The code of a bias.
pub fn line_bias_to_c(value: LineBias) -> (code: i32)
    ensures
        code == line_bias_code(value),
{
    match value {
        LineBias::AsIs => 1,
        LineBias::Unknown => 2,
        LineBias::Disabled => 3,
        LineBias::PullUp => 4,
        LineBias::PullDown => 5,
    }
}

/// What a code says of a bias.
pub fn line_bias_from_c(code: i32) -> (value: LineBias)
    ensures
        value == line_bias_of_code(code),
{
    match code {
        1 => LineBias::AsIs,
        2 => LineBias::Unknown,
        3 => LineBias::Disabled,
        4 => LineBias::PullUp,
        5 => LineBias::PullDown,
        _ => LineBias::Unknown,
    }
}

/// The code of a drive.
pub open spec fn line_drive_code(value: LineDrive) -> i32 {
    match value {
        LineDrive::PushPull => 1,
        LineDrive::OpenDrain => 2,
        LineDrive::OpenSource => 3,
    }
}

/// What a code says of a drive. Codes that there are not stand for `PushPull`.
pub open spec fn line_drive_of_code(code: i32) -> LineDrive {
    if code == 1 {
        LineDrive::PushPull
    } else if code == 2 {
        LineDrive::OpenDrain
    } else if code == 3 {
        LineDrive::OpenSource
    } else {
        LineDrive::PushPull
    }
}

/// The code of a drive.
pub fn line_drive_to_c(value: LineDrive) -> (code: i32)
    ensures
        code == line_drive_code(value),
{
    match value {
        LineDrive::PushPull => 1,
        LineDrive::OpenDrain => 2,
        LineDrive::OpenSource => 3,
    }
}

/// What a code says of a drive.
pub fn line_drive_from_c(code: i32) -> (value: LineDrive)
    ensures
        value == line_drive_of_code(code),
{
    match code {
        1 => LineDrive::PushPull,
        2 => LineDrive::OpenDrain,
        3 => LineDrive::OpenSource,
        _ => LineDrive::PushPull,
    }
}

/// The code of an event clock.
pub open spec fn line_clock_code(value: LineClock) -> i32 {
    match value {
        LineClock::Monotonic => 1,
        LineClock::Realtime => 2,
        LineClock::Hte => 3,
    }
}

/// What a code says of an event clock. Codes that there are not stand for `Monotonic`.
pub open spec fn line_clock_of_code(code: i32) -> LineClock {
    if code == 1 {
        LineClock::Monotonic
    } else if code == 2 {
        LineClock::Realtime
    } else if code == 3 {
        LineClock::Hte
    } else {
        LineClock::Monotonic
    }
}

/// The code of an event clock.
pub fn line_clock_to_c(value: LineClock) -> (code: i32)
    ensures
        code == line_clock_code(value),
{
    match value {
        LineClock::Monotonic => 1,
        LineClock::Realtime => 2,
        LineClock::Hte => 3,
    }
}

/// What a code says of an event clock.
pub fn line_clock_from_c(code: i32) -> (value: LineClock)
    ensures
        value == line_clock_of_code(code),
{
    match code {
        1 => LineClock::Monotonic,
        2 => LineClock::Realtime,
        3 => LineClock::Hte,
        _ => LineClock::Monotonic,
    }
}

/// What a code says of a change of a line. Codes that there are not stand for `LineConfigChanged`.
pub open spec fn info_event_type_of_code(code: i32) -> InfoEventType {
    if code == 1 {
        InfoEventType::LineRequested
    } else if code == 2 {
        InfoEventType::LineReleased
    } else if code == 3 {
        InfoEventType::LineConfigChanged
    } else {
        InfoEventType::LineConfigChanged
    }
}

/// What a code says of a change of a line.
pub fn info_event_type_from_c(code: i32) -> (value: InfoEventType)
    ensures
        value == info_event_type_of_code(code),
{
    match code {
        1 => InfoEventType::LineRequested,
        2 => InfoEventType::LineReleased,
        3 => InfoEventType::LineConfigChanged,
        _ => InfoEventType::LineConfigChanged,
    }
}

/// What a code says of an edge. Codes that there are not stand for `RisingEdge`.
pub open spec fn edge_event_type_of_code(code: i32) -> EdgeEventType {
    if code == 1 {
        EdgeEventType::RisingEdge
    } else if code == 2 {
        EdgeEventType::FallingEdge
    } else {
        EdgeEventType::RisingEdge
    }
}

/// What a code says of an edge.
pub fn edge_event_type_from_c(code: i32) -> (value: EdgeEventType)
    ensures
        value == edge_event_type_of_code(code),
{
    match code {
        1 => EdgeEventType::RisingEdge,
        2 => EdgeEventType::FallingEdge,
        _ => EdgeEventType::RisingEdge,
    }
}

/// Every attribute is read back from its code.
pub proof fn codes_read_back(
    direction: LineDirection,
    edge: LineEdge,
    bias: LineBias,
    drive: LineDrive,
    clock: LineClock,
)
    ensures
        line_direction_of_code(line_direction_code(direction)) == direction,
        line_edge_of_code(line_edge_code(edge)) == edge,
        line_bias_of_code(line_bias_code(bias)) == bias,
        line_drive_of_code(line_drive_code(drive)) == drive,
        line_clock_of_code(line_clock_code(clock)) == clock,
{
}

/// The codes of each attribute are counted from one in the order of its values, and a code that
/// is none of them means that nothing is known: no change of direction, no edges, an unknown
/// bias, push-pull, the monotonic clock.
pub proof fn codes_are_counted_from_one(code: i32)
    ensures
        line_value_code(LineValue::Inactive) == 0,
        line_value_code(LineValue::Active) == 1,
        line_direction_code(LineDirection::AsIs) == 1,
        line_direction_code(LineDirection::Input) == 2,
        line_direction_code(LineDirection::Output) == 3,
        line_edge_code(LineEdge::NoEdge) == 1,
        line_edge_code(LineEdge::Rising) == 2,
        line_edge_code(LineEdge::Falling) == 3,
        line_edge_code(LineEdge::Both) == 4,
        line_bias_code(LineBias::AsIs) == 1,
        line_bias_code(LineBias::Unknown) == 2,
        line_bias_code(LineBias::Disabled) == 3,
        line_bias_code(LineBias::PullUp) == 4,
        line_bias_code(LineBias::PullDown) == 5,
        line_drive_code(LineDrive::PushPull) == 1,
        line_drive_code(LineDrive::OpenDrain) == 2,
        line_drive_code(LineDrive::OpenSource) == 3,
        line_clock_code(LineClock::Monotonic) == 1,
        line_clock_code(LineClock::Realtime) == 2,
        line_clock_code(LineClock::Hte) == 3,
        info_event_type_of_code(1) == InfoEventType::LineRequested,
        info_event_type_of_code(2) == InfoEventType::LineReleased,
        info_event_type_of_code(3) == InfoEventType::LineConfigChanged,
        edge_event_type_of_code(1) == EdgeEventType::RisingEdge,
        edge_event_type_of_code(2) == EdgeEventType::FallingEdge,
        !(1 <= code <= 3) ==> {
            &&& line_direction_of_code(code) == LineDirection::AsIs
            &&& line_drive_of_code(code) == LineDrive::PushPull
            &&& line_clock_of_code(code) == LineClock::Monotonic
            &&& info_event_type_of_code(code) == InfoEventType::LineConfigChanged
            &&& edge_event_type_of_code(code) == EdgeEventType::RisingEdge
        },
        !(1 <= code <= 4) ==> line_edge_of_code(code) == LineEdge::NoEdge,
        !(1 <= code <= 5) ==> line_bias_of_code(code) == LineBias::Unknown,
{
}

} // verus!

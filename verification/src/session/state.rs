//! States of a session and what can go wrong in it.

use vstd::prelude::*;
use vstd::string::StringExecFns;

use crate::gpio::libgpiod::GPIOError;
use crate::gpio::libgpiod::GPIOErrorModel;
use crate::number::decimal;
use crate::number::number_text;
use crate::protocol::response::ResponseMessage;
use crate::protocol::response::ResponseModel;

verus! {

/// Where a session stands.
#[derive(Debug, Clone, Copy, PartialEq, Eq, Structural)]
pub enum SessionState {
    Connected,
    Initialized,
    SetSequenceRunning,
    Closing,
    Closed,
}

/// Why a request of a session fails.
#[derive(Debug, Clone, PartialEq, Eq)]
pub enum SessionError {
    AlreadyInitialized,
    NotInitialized,
    Closed,
    SetInProgress,
    UnknownTarget { target: String },
    TargetNotReadable { target: String },
    TargetNotWritable { target: String },
    TargetValueOutOfRange { target: String, value: u8, bits: usize },
    UnmappedPin { pin: String },
    UnavailableDeviceFile { device: String },
    MissingLine { device: String, line: u32 },
    DuplicatePhysicalLocation { pin: String },
    UnmappedTriggerPin { chip_index: u32, offset: u32 },
    GPIO(GPIOError),
    Other(String),
}

/// A [`SessionError`] with its texts as character sequences.
pub ghost enum SessionErrorModel {
    AlreadyInitialized,
    NotInitialized,
    Closed,
    SetInProgress,
    UnknownTarget { target: Seq<char> },
    TargetNotReadable { target: Seq<char> },
    TargetNotWritable { target: Seq<char> },
    TargetValueOutOfRange { target: Seq<char>, value: u8, bits: usize },
    UnmappedPin { pin: Seq<char> },
    UnavailableDeviceFile { device: Seq<char> },
    MissingLine { device: Seq<char>, line: u32 },
    DuplicatePhysicalLocation { pin: Seq<char> },
    UnmappedTriggerPin { chip_index: u32, offset: u32 },
    GPIO(GPIOErrorModel),
    Other(Seq<char>),
}

impl View for SessionError {
    type V = SessionErrorModel;

    open spec fn view(&self) -> SessionErrorModel {
        match *self {
            SessionError::AlreadyInitialized => SessionErrorModel::AlreadyInitialized,
            SessionError::NotInitialized => SessionErrorModel::NotInitialized,
            SessionError::Closed => SessionErrorModel::Closed,
            SessionError::SetInProgress => SessionErrorModel::SetInProgress,
            SessionError::UnknownTarget { target } => SessionErrorModel::UnknownTarget {
                target: target@,
            },
            SessionError::TargetNotReadable { target } => SessionErrorModel::TargetNotReadable {
                target: target@,
            },
            SessionError::TargetNotWritable { target } => SessionErrorModel::TargetNotWritable {
                target: target@,
            },
            SessionError::TargetValueOutOfRange { target, value, bits } =>
                SessionErrorModel::TargetValueOutOfRange { target: target@, value, bits },
            SessionError::UnmappedPin { pin } => SessionErrorModel::UnmappedPin { pin: pin@ },
            SessionError::UnavailableDeviceFile { device } =>
                SessionErrorModel::UnavailableDeviceFile { device: device@ },
            SessionError::MissingLine { device, line } => SessionErrorModel::MissingLine {
                device: device@,
                line,
            },
            SessionError::DuplicatePhysicalLocation { pin } =>
                SessionErrorModel::DuplicatePhysicalLocation { pin: pin@ },
            SessionError::UnmappedTriggerPin { chip_index, offset } =>
                SessionErrorModel::UnmappedTriggerPin { chip_index, offset },
            SessionError::GPIO(error) => SessionErrorModel::GPIO(error@),
            SessionError::Other(text) => SessionErrorModel::Other(text@),
        }
    }
}

impl SessionErrorModel {
    /// The error in words.
    pub open spec fn text(self) -> Seq<char> {
        match self {
            SessionErrorModel::AlreadyInitialized => "session is already initialized"@,
            SessionErrorModel::NotInitialized => "session is not initialized"@,
            SessionErrorModel::Closed => "session is closed"@,
            SessionErrorModel::SetInProgress => "a set request is already in progress"@,
            SessionErrorModel::UnknownTarget { target } => "unknown target `"@ + target + "`"@,
            SessionErrorModel::TargetNotReadable { target } => "target `"@ + target
                + "` is not readable"@,
            SessionErrorModel::TargetNotWritable { target } => "target `"@ + target
                + "` is not writable"@,
            SessionErrorModel::TargetValueOutOfRange { target, value, bits } => "target `"@
                + target + "` value "@ + decimal(value as nat) + " exceeds "@ + decimal(
                bits as nat,
            ) + " configured bits"@,
            SessionErrorModel::UnmappedPin { pin } => "unmapped pin `"@ + pin + "`"@,
            SessionErrorModel::UnavailableDeviceFile { device } => "device file `"@ + device
                + "` is unavailable"@,
            SessionErrorModel::MissingLine { device, line } => "line "@ + decimal(line as nat)
                + " is not available on device `"@ + device + "`"@,
            SessionErrorModel::DuplicatePhysicalLocation { pin } => "pin `"@ + pin
                + "` maps to a duplicate physical location"@,
            SessionErrorModel::UnmappedTriggerPin { chip_index, offset } =>
                "no trigger target is configured for chip "@ + decimal(chip_index as nat)
                    + " offset "@ + decimal(offset as nat),
            SessionErrorModel::GPIO(error) => error.text(),
            SessionErrorModel::Other(text) => text,
        }
    }
}

fn around(start: &str, middle: &str, end: &str) -> (text: String)
    ensures
        text@ == start@ + middle@ + end@,
{
    start.to_owned().concat(middle).concat(end)
}

impl SessionError {
    /// The error in words.
    pub fn message(&self) -> (message: String)
        ensures
            message@ == self@.text(),
    {
        match self {
            SessionError::AlreadyInitialized => "session is already initialized".to_owned(),
            SessionError::NotInitialized => "session is not initialized".to_owned(),
            SessionError::Closed => "session is closed".to_owned(),
            SessionError::SetInProgress => "a set request is already in progress".to_owned(),
            SessionError::UnknownTarget { target } => around(
                "unknown target `",
                target.as_str(),
                "`",
            ),
            SessionError::TargetNotReadable { target } => around(
                "target `",
                target.as_str(),
                "` is not readable",
            ),
            SessionError::TargetNotWritable { target } => around(
                "target `",
                target.as_str(),
                "` is not writable",
            ),
            SessionError::TargetValueOutOfRange { target, value, bits } => around(
                "target `",
                target.as_str(),
                "` value ",
            ).concat(number_text(*value as u64).as_str()).concat(" exceeds ").concat(
                number_text(*bits as u64).as_str(),
            ).concat(" configured bits"),
            SessionError::UnmappedPin { pin } => around("unmapped pin `", pin.as_str(), "`"),
            SessionError::UnavailableDeviceFile { device } => around(
                "device file `",
                device.as_str(),
                "` is unavailable",
            ),
            SessionError::MissingLine { device, line } => around(
                "line ",
                number_text(*line as u64).as_str(),
                " is not available on device `",
            ).concat(device.as_str()).concat("`"),
            SessionError::DuplicatePhysicalLocation { pin } => around(
                "pin `",
                pin.as_str(),
                "` maps to a duplicate physical location",
            ),
            SessionError::UnmappedTriggerPin { chip_index, offset } => around(
                "no trigger target is configured for chip ",
                number_text(*chip_index as u64).as_str(),
                " offset ",
            ).concat(number_text(*offset as u64).as_str()),
            SessionError::GPIO(error) => error.message(),
            SessionError::Other(text) => text.clone(),
        }
    }

    /// The reply to a request that failed.
    pub fn into_response(self, request_id: &str) -> (response: ResponseMessage)
        ensures
            response@ == (request_id@, ResponseModel::Error(self@.text())),
    {
        ResponseMessage::error(request_id, self.message())
    }
}

impl From<GPIOError> for SessionError {
    fn from(error: GPIOError) -> (result: Self) {
        SessionError::GPIO(error)
    }
}

impl vstd::std_specs::convert::FromSpecImpl<GPIOError> for SessionError {
    open spec fn obeys_from_spec() -> bool {
        true
    }

    open spec fn from_spec(error: GPIOError) -> Self {
        SessionError::GPIO(error)
    }
}

} // verus!

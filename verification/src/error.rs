//! What keeps the service from starting or running.

use vstd::prelude::*;
use vstd::string::StringExecFns;

use crate::config::ConfigError;
use crate::config::ConfigErrorModel;
use crate::number::decimal;
use crate::number::number_text;

verus! {

/// Why the service does not start or stops.
#[derive(Debug, Clone, PartialEq, Eq)]
pub enum AppError {
    Bootstrap(String),
    Usage(String),
    Config(ConfigError),
    RealBackendUnavailable,
    MockLogWithoutMock,
    MockWriteLogUnavailable { path: String, source: String },
    UnavailableDeviceFile { device: String, source: String },
    InvalidChipFile { device: String, message: String },
    MissingLine { pin: String, device: String, line: u32 },
    Io(String),
}

/// An [`AppError`] with its texts as character sequences.
pub ghost enum AppErrorModel {
    Bootstrap(Seq<char>),
    Usage(Seq<char>),
    Config(ConfigErrorModel),
    RealBackendUnavailable,
    MockLogWithoutMock,
    MockWriteLogUnavailable { path: Seq<char>, source: Seq<char> },
    UnavailableDeviceFile { device: Seq<char>, source: Seq<char> },
    InvalidChipFile { device: Seq<char>, message: Seq<char> },
    MissingLine { pin: Seq<char>, device: Seq<char>, line: u32 },
    Io(Seq<char>),
}

impl View for AppError {
    type V = AppErrorModel;

    open spec fn view(&self) -> AppErrorModel {
        match *self {
            AppError::Bootstrap(text) => AppErrorModel::Bootstrap(text@),
            AppError::Usage(text) => AppErrorModel::Usage(text@),
            AppError::Config(error) => AppErrorModel::Config(error@),
            AppError::RealBackendUnavailable => AppErrorModel::RealBackendUnavailable,
            AppError::MockLogWithoutMock => AppErrorModel::MockLogWithoutMock,
            AppError::MockWriteLogUnavailable { path, source } =>
                AppErrorModel::MockWriteLogUnavailable { path: path@, source: source@ },
            AppError::UnavailableDeviceFile { device, source } =>
                AppErrorModel::UnavailableDeviceFile { device: device@, source: source@ },
            AppError::InvalidChipFile { device, message } => AppErrorModel::InvalidChipFile {
                device: device@,
                message: message@,
            },
            AppError::MissingLine { pin, device, line } => AppErrorModel::MissingLine {
                pin: pin@,
                device: device@,
                line,
            },
            AppError::Io(text) => AppErrorModel::Io(text@),
        }
    }
}

impl AppErrorModel {
    /// The error in words.
    pub open spec fn text(self) -> Seq<char> {
        match self {
            AppErrorModel::Bootstrap(text) => "application bootstrap failed: "@ + text,
            AppErrorModel::Usage(text) => text,
            AppErrorModel::Config(error) => error.text(),
            AppErrorModel::RealBackendUnavailable => "real backend unavailable; use --mock"@,
            AppErrorModel::MockLogWithoutMock =>
                "GPIOJSONSVC_MOCK_LOG is set but --mock was not given"@,
            AppErrorModel::MockWriteLogUnavailable { path, source } => "mock write log `"@ + path
                + "` is unavailable: "@ + source,
            AppErrorModel::UnavailableDeviceFile { device, source } => "device file `"@ + device
                + "` is unavailable: "@ + source,
            AppErrorModel::InvalidChipFile { device, message } => "device file `"@ + device
                + "` is not a valid one-chip XML document: "@ + message,
            AppErrorModel::MissingLine { pin, device, line } => "line "@ + decimal(line as nat)
                + " is not available on device `"@ + device + "` (pin `"@ + pin + "`)"@,
            AppErrorModel::Io(text) => text,
        }
    }
}

impl AppError {
    /// The error in words.
    pub fn message(&self) -> (message: String)
        ensures
            message@ == self@.text(),
    {
        match self {
            AppError::Bootstrap(text) => "application bootstrap failed: ".to_owned().concat(
                text.as_str(),
            ),
            AppError::Usage(text) => text.clone(),
            AppError::Config(error) => error.message(),
            AppError::RealBackendUnavailable => "real backend unavailable; use --mock".to_owned(),
            AppError::MockLogWithoutMock =>
                "GPIOJSONSVC_MOCK_LOG is set but --mock was not given".to_owned(),
            AppError::MockWriteLogUnavailable { path, source } =>
                "mock write log `".to_owned().concat(path.as_str()).concat(
                    "` is unavailable: ",
                ).concat(source.as_str()),
            AppError::UnavailableDeviceFile { device, source } => "device file `".to_owned().concat(
                device.as_str(),
            ).concat("` is unavailable: ").concat(source.as_str()),
            AppError::InvalidChipFile { device, message } => "device file `".to_owned().concat(
                device.as_str(),
            ).concat("` is not a valid one-chip XML document: ").concat(message.as_str()),
            AppError::MissingLine { pin, device, line } => "line ".to_owned().concat(
                number_text(*line as u64).as_str(),
            ).concat(" is not available on device `").concat(device.as_str()).concat(
                "` (pin `",
            ).concat(pin.as_str()).concat("`)"),
            AppError::Io(text) => text.clone(),
        }
    }
}

} // verus!

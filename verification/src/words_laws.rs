//! The words in which errors are told.

use vstd::prelude::*;

use crate::cluster::cache::CacheErrorModel;
use crate::cluster::context::SessionStateError;
use crate::cluster::error::MockErrorModel;
use crate::cluster::pinspec::PinSpecParseError;
use crate::cluster::set::WriteFault;
use crate::cluster::snapshot::LineSnapshot;
use crate::cluster::snapshot::chip_fault;
use crate::cluster::snapshot::lines_fault;
use crate::config::ConfigErrorModel;
use crate::error::AppErrorModel;
use crate::gpio::libgpiod::GPIOErrorModel;
use crate::gpio::mock::diff::diff_begin;
use crate::gpio::mock::diff::diff_events;
use crate::gpio::mock::load::ChipAttributesModel;
use crate::gpio::mock::load::LineAttributesModel;
use crate::gpio::mock::load::chip_attribute;
use crate::gpio::mock::load::line_attribute;
use crate::gpio::mock::snapshot::LoadErrorModel;
use crate::gpio::mock::state::ChipStateModel;
use crate::gpio::mock::watch::externally_edited;
use crate::gpio::mock::watch::reloaded;
use crate::gpio::mock::xml::XmlAttributeModel;
use crate::gpio::mock::xml::XmlEventModel;
use crate::number::decimal;
use crate::number::NumberError;
use crate::protocol::line::ProtocolErrorModel;
use crate::protocol::request::RequestFault;
use crate::session::batch::CombinedOffsetsError;
use crate::session::state::SessionErrorModel;
use crate::transport::UdsConnectionErrorModel;

verus! {

/// A text between backquotes, behind some words.
pub open spec fn backquoted(words: Seq<char>, text: Seq<char>, more: Seq<char>) -> Seq<char> {
    words + "`"@ + text + "`"@ + more
}

/// Whatever goes wrong with the lines of a chip is told in these words, with the number or the
/// name that it is about.
pub proof fn chip_errors_are_told(offset: u32, expected: usize, actual: usize, text: Seq<char>)
    ensures
        GPIOErrorModel::Closed.text() == "GPIO chip or line request is closed"@,
        GPIOErrorModel::InvalidOffset(offset).text() == "invalid line offset "@ + decimal(
            offset as nat,
        ),
        GPIOErrorModel::LineNameNotFound(text).text() == "line name not found: "@ + text,
        GPIOErrorModel::InvalidArgument(text).text() == "invalid argument: "@ + text,
        (GPIOErrorModel::LengthMismatch { expected, actual }).text()
            == "length mismatch: expected "@ + decimal(expected as nat) + ", got "@ + decimal(
            actual as nat,
        ),
        GPIOErrorModel::EmptyLineConfig.text() == "line config is empty"@,
        (GPIOErrorModel::UnconfiguredOffset { offset }).text() == "line offset "@ + decimal(
            offset as nat,
        ) + " is not configured"@,
        GPIOErrorModel::Io(text).text() == "I/O error: "@ + text,
        GPIOErrorModel::Other(text).text() == text,
{
}

/// A raw value of a line is told in its digits, with a sign where it is negative.
pub proof fn raw_values_are_told_with_their_sign(raw: i32)
    ensures
        raw >= 0 ==> GPIOErrorModel::InvalidLineValue(raw).text() == "invalid line value "@
            + decimal(raw as nat),
        raw < 0 ==> GPIOErrorModel::InvalidLineValue(raw).text() == "invalid line value -"@
            + decimal((-raw) as nat),
{
    reveal_strlit("invalid line value ");
    reveal_strlit("invalid line value -");
    reveal_strlit("-");
    assert("invalid line value -"@ =~= "invalid line value "@ + "-"@);
    assert("invalid line value "@ + ("-"@ + decimal((-raw) as nat)) =~= "invalid line value -"@
        + decimal((-raw) as nat));
}

/// Whatever is wrong with the document of a chip is told in these words, with the text that is
/// wrong between backquotes.
pub proof fn document_errors_are_told(text: Seq<char>, offset: u32, error: NumberError)
    ensures
        LoadErrorModel::XmlParseError(text).text() == "xml parse error: "@ + text,
        LoadErrorModel::InvalidLineId(text, error).text() == backquoted(
            "invalid line id "@,
            text,
            ": "@,
        ) + error.text(),
        LoadErrorModel::InvalidLineDirection(text).text() =~= backquoted(
            "invalid line direction "@,
            text,
            Seq::empty(),
        ),
        LoadErrorModel::InvalidLineBias(text).text() =~= backquoted(
            "invalid line bias "@,
            text,
            Seq::empty(),
        ),
        LoadErrorModel::InvalidLineDrive(text).text() =~= backquoted(
            "invalid line drive "@,
            text,
            Seq::empty(),
        ),
        LoadErrorModel::InvalidLineActiveLow(text).text() =~= backquoted(
            "invalid line active low "@,
            text,
            Seq::empty(),
        ),
        LoadErrorModel::InvalidLineLevel(text).text() =~= backquoted(
            "invalid line level "@,
            text,
            Seq::empty(),
        ),
        LoadErrorModel::EmptyChipId.text() == "id must not be empty"@,
        LoadErrorModel::DuplicateLineId(offset).text() =~= backquoted(
            "duplicate line id "@,
            decimal(offset as nat),
            Seq::empty(),
        ),
        LoadErrorModel::InputLineWithDrive.text() == "input line must not define drive"@,
        LoadErrorModel::OutputLineWithBias.text() == "output line must not define bias"@,
        LoadErrorModel::UnknownLineAttribute(text).text() =~= backquoted(
            "unknown line attribute "@,
            text,
            Seq::empty(),
        ),
        LoadErrorModel::UnknownChipAttribute(text).text() =~= backquoted(
            "unknown chip attribute "@,
            text,
            Seq::empty(),
        ),
        LoadErrorModel::InvalidRootElement.text()
            == "invalid root element; expected exactly one <gpiochip>, not a <gpiochips> wrapper"@,
        LoadErrorModel::InvalidXmlDocument.text() == "invalid xml document"@,
        NumberError::Empty.text() == "cannot parse integer from empty string"@,
        NumberError::InvalidDigit.text() == "invalid digit found in string"@,
        NumberError::Overflow.text() == "number too large to fit in target type"@,
{
}

/// Whatever is wrong with a request is told in these words.
pub proof fn request_errors_are_told(text: Seq<char>, index: usize)
    ensures
        RequestFault::EmptyString.text() == "string value must not be empty"@,
        RequestFault::EmptyPinName.text() == "pin name must not be empty"@,
        RequestFault::TooManyPins.text() == "combined pin list must not contain more than 8 pins"@,
        RequestFault::EmptyPinList.text() == "combined pin list must not be empty"@,
        RequestFault::EmptyTargetName.text() == "target name must not be empty"@,
        RequestFault::EmptyTargetList.text() == "target list must not be empty"@,
        RequestFault::EmptySetObject.text()
            == "set target object must contain at least one target value"@,
        RequestFault::EmptySetSteps.text() == "set target steps must contain at least one step"@,
        RequestFault::FirstStepLag.text() == "set target[0] must not include lag"@,
        RequestFault::MissingStepLag(index).text() == "set target["@ + decimal(index as nat)
            + "] must include lag"@,
        RequestFault::EmptySetStep.text() == "set step must contain at least one target value"@,
        ProtocolErrorModel::InvalidFraming.text()
            == "request line must not contain line terminators"@,
        ProtocolErrorModel::UnknownAction(text).text() == "request action `"@ + text
            + "` is not supported"@,
        ProtocolErrorModel::InvalidJson(text).text() == "invalid JSON: "@ + text,
        ProtocolErrorModel::Validation(text).text() == "protocol validation failed: "@ + text,
        ProtocolErrorModel::Serialize(text).text() == "protocol serialization failed: "@ + text,
{
}

/// What goes wrong with a connection is told in the words of the protocol, or as it is.
pub proof fn connection_errors_are_told(error: ProtocolErrorModel, text: Seq<char>)
    ensures
        UdsConnectionErrorModel::Protocol(error).text() == error.text(),
        UdsConnectionErrorModel::Io(text).text() == text,
        UdsConnectionErrorModel::Transport(text).text() == "transport error: "@ + text,
{
}

/// What a session cannot put into one batch, and an edge that no target awaits, are told in
/// these words. Errors of a chip are told as they are.
pub proof fn session_errors_are_told(
    chip_index: u32,
    offset: u32,
    error: GPIOErrorModel,
    text: Seq<char>,
)
    ensures
        (CombinedOffsetsError::InvalidChipIndex { chip_index }).text() == "chip index "@ + decimal(
            chip_index as nat,
        ) + " is out of range"@,
        (CombinedOffsetsError::DuplicateSetOffset { chip_index, offset }).text()
            == "conflicting set values for chip "@ + decimal(chip_index as nat) + " offset "@
            + decimal(offset as nat),
        (SessionErrorModel::UnmappedTriggerPin { chip_index, offset }).text()
            == "no trigger target is configured for chip "@ + decimal(chip_index as nat)
            + " offset "@ + decimal(offset as nat),
        SessionErrorModel::GPIO(error).text() == error.text(),
        SessionErrorModel::Other(text).text() == text,
{
}

/// What stops the service is told in these words.
pub proof fn service_errors_are_told(
    name: Seq<char>,
    device: Seq<char>,
    line: u32,
    source: Seq<char>,
    config: ConfigErrorModel,
)
    ensures
        AppErrorModel::Bootstrap(source).text() == "application bootstrap failed: "@ + source,
        AppErrorModel::Usage(source).text() == source,
        AppErrorModel::Config(config).text() == config.text(),
        AppErrorModel::RealBackendUnavailable.text() == "real backend unavailable; use --mock"@,
        AppErrorModel::MockLogWithoutMock.text()
            == "GPIOJSONSVC_MOCK_LOG is set but --mock was not given"@,
        (AppErrorModel::MockWriteLogUnavailable { path: name, source }).text()
            == "mock write log `"@ + name + "` is unavailable: "@ + source,
        (AppErrorModel::UnavailableDeviceFile { device, source }).text() == "device file `"@
            + device + "` is unavailable: "@ + source,
        (AppErrorModel::InvalidChipFile { device, message: source }).text() == "device file `"@
            + device + "` is not a valid one-chip XML document: "@ + source,
        (AppErrorModel::MissingLine { pin: name, device, line }).text() == "line "@ + decimal(
            line as nat,
        ) + " is not available on device `"@ + device + "` (pin `"@ + name + "`)"@,
        AppErrorModel::Io(source).text() == source,
        (ConfigErrorModel::Read { path: name, source }).text() == "failed to read config file "@
            + name + ": "@ + source,
        (ConfigErrorModel::Parse { path: Some(name), source }).text() == "failed to parse config "@
            + name + ": "@ + source,
        (ConfigErrorModel::Parse { path: None, source }).text() == "failed to parse config: "@
            + source,
        ConfigErrorModel::EmptySocket.text() == "service.socket must be a non-empty path"@,
        (ConfigErrorModel::InvalidConsumer { consumer: name }).text() == "service.gpio-consumer `"@
            + name + "` is not valid"@,
        ConfigErrorModel::EmptyPinMap.text()
            == "config [pins.gpiod] must contain at least one mapping"@,
        ConfigErrorModel::EmptyPinKey.text() == "pin mapping keys must be non-empty"@,
        (ConfigErrorModel::EmptyDevice { pin: name }).text() == "pin `"@ + name
            + "` has an empty device path"@,
{
}

/// What goes wrong in a cluster is told in these words; a line is told as its chip, `:line_`
/// and its offset.
pub proof fn cluster_errors_are_told(
    chip: Seq<char>,
    line: u32,
    expected: Seq<char>,
    found: Seq<char>,
    reason: PinSpecParseError,
)
    ensures
        ({
            let place = chip + ":line_"@ + decimal(line as nat);
            &&& MockErrorModel::Closed.text() == "cluster closed"@
            &&& MockErrorModel::InvalidIndex.text() == "invalid pin index"@
            &&& MockErrorModel::UnmatchedValue.text() == "unmatched value count"@
            &&& (MockErrorModel::LineNotFound { chip, line }).text() == "line not found: "@ + place
            &&& (MockErrorModel::DirectionMismatch { chip, line, expected, found }).text()
                == "direction mismatch for "@ + place + ": expected "@ + expected + ", found "@
                + found
            &&& (MockErrorModel::TriggerNotSupported { chip, line }).text()
                == "trigger not enabled for "@ + place
            &&& (MockErrorModel::InvalidValue { chip, line, value: found }).text()
                == "invalid line value `"@ + found + "` at "@ + place
            &&& (MockErrorModel::WriteToInput { chip, line }).text() == "write to input line: "@
                + place
            &&& (MockErrorModel::InvalidPinName { pin: found, reason }).text()
                == "invalid pin name `"@ + found + "`"@
            &&& MockErrorModel::Parse(found).text() == "parse error: "@ + found
            &&& MockErrorModel::WatcherFailed(found).text() == "watcher failed: "@ + found
            &&& MockErrorModel::Io(found).text() == "io error: "@ + found
        }),
{
}

/// Why a session of a cluster refuses a request is told in these words.
pub proof fn cluster_refusals_are_told(
    target: Seq<char>,
    value: u8,
    number: usize,
    limit: usize,
    total_ms: u64,
    limit_ms: u32,
)
    ensures
        SessionStateError::AlreadyInitialized.text() == "session is already initialized"@,
        SessionStateError::NotInitialized.text() == "session is not initialized"@,
        SessionStateError::Closed.text() == "session is closed"@,
        SessionStateError::SetInProgress.text() == "a set request is already in progress"@,
        (CacheErrorModel::UnknownTarget { target }).text() == "unknown target `"@ + target + "`"@,
        (CacheErrorModel::TargetNotReadable { target }).text() == "target `"@ + target
            + "` is not readable"@,
        (CacheErrorModel::TargetNotWritable { target }).text() == "target `"@ + target
            + "` is not writable"@,
        (CacheErrorModel::ClusterPinMissing { pin: target }).text()
            == "cluster did not expose configured pin `"@ + target + "`"@,
        (CacheErrorModel::TargetValueOutOfRange { target, value, bits: number }).text()
            == "target `"@ + target + "` value "@ + decimal(value as nat) + " exceeds "@ + decimal(
            number as nat,
        ) + " configured bits"@,
        (CacheErrorModel::UnmappedEventIndex { index: number }).text() == "backend event index "@
            + decimal(number as nat) + " is not mapped to a trigger target"@,
        WriteFault::Cache(CacheErrorModel::UnknownTarget { target }).text() == "unknown target `"@
            + target + "`"@,
        (WriteFault::InvalidLag { target, step: number }).text() == "set target sequence step "@
            + decimal(number as nat) + " must include lag for target `"@ + target + "`"@,
        (WriteFault::SequenceStepLimitExceeded { target, steps: number, limit }).text()
            == "set target sequence for `"@ + target + "` has "@ + decimal(number as nat)
            + " steps, exceeding limit of "@ + decimal(limit as nat),
        (WriteFault::TotalExecutionTimeLimitExceeded { total_ms, limit: limit_ms }).text()
            == "set request total execution time "@ + decimal(total_ms as nat)
            + "ms exceeds limit of "@ + decimal(limit_ms as nat) + "ms"@,
{
}

/// Why a chip file is not followed any more is told with its path, or with what is wrong in it.
pub proof fn watcher_errors_are_told(
    state: ChipStateModel,
    previous: Seq<char>,
    error: Seq<char>,
    events: Seq<XmlEventModel>,
    timestamp_ns: u64,
)
    ensures
        state.watcher_error is None ==> reloaded(
            state,
            previous,
            Err::<Seq<char>, _>(error),
            timestamp_ns,
        ).0.watcher_error == Some("failed to reload "@ + state.path + ": "@ + error),
        diff_events(diff_begin(), events, state.chip) matches Err(fault) ==> externally_edited(
            state,
            events,
            timestamp_ns,
        ).watcher_error == Some("failed to diff external file: "@ + fault.text()),
{
}

/// An attribute whose value cannot be read is told in the words of the reader where its name is
/// known, and otherwise by its name. An attribute that cannot be read at all is told in the
/// words of the reader.
pub proof fn unread_attributes_are_told(
    line: LineAttributesModel,
    chip: ChipAttributesModel,
    key: Seq<char>,
    message: Seq<char>,
)
    ensures
        line_attribute(line, XmlAttributeModel::Malformed { message }) == Err::<
            LineAttributesModel,
            _,
        >(LoadErrorModel::XmlParseError(message)),
        line_attribute(line, XmlAttributeModel::BadValue { key, message }) == Err::<
            LineAttributesModel,
            _,
        >(
            if key == "id"@ || key == "name"@ || key == "consumer"@ || key == "direction"@ || key
                == "bias"@ || key == "drive"@ || key == "active_low"@ {
                LoadErrorModel::XmlParseError(message)
            } else {
                LoadErrorModel::UnknownLineAttribute(key)
            },
        ),
        chip_attribute(chip, XmlAttributeModel::Malformed { message }) == Err::<
            ChipAttributesModel,
            _,
        >(LoadErrorModel::XmlParseError(message)),
        chip_attribute(chip, XmlAttributeModel::BadValue { key, message }) == Err::<
            ChipAttributesModel,
            _,
        >(
            if key == "id"@ || key == "label"@ {
                LoadErrorModel::XmlParseError(message)
            } else {
                LoadErrorModel::UnknownChipAttribute(key)
            },
        ),
{
}

/// How a changed structure of the chips is told: a chip or a line that is gone, a chip with
/// another number of lines, a line with another direction.
pub proof fn changed_structures_are_told(
    chip: Seq<char>,
    line: u32,
    previous: Map<u32, LineSnapshot>,
    current: Map<u32, LineSnapshot>,
    chips: Map<Seq<char>, Map<u32, LineSnapshot>>,
)
    ensures
        !chips.contains_key(chip) ==> chip_fault(chip, previous, chips) == Some(
            "chip removed or renamed: "@ + chip,
        ),
        chips.contains_key(chip) && chips[chip].len() != previous.len() ==> chip_fault(
            chip,
            previous,
            chips,
        ) == Some("line structure changed for chip "@ + chip),
        !current.contains_key(line) ==> lines_fault(chip, seq![line], previous, current) == Some(
            "line removed or renamed: "@ + chip + ":"@ + decimal(line as nat),
        ),
        current.contains_key(line) && (previous[line].mode is Input) != (current[line].mode is Input)
            ==> lines_fault(chip, seq![line], previous, current) == Some(
            "line mode changed for "@ + chip + ":"@ + decimal(line as nat),
        ),
{
    let one = seq![line];
    assert(one.last() == line);
    assert(one.drop_last() =~= Seq::<u32>::empty());
    assert(lines_fault(chip, Seq::empty(), previous, current) is None);
}

} // verus!

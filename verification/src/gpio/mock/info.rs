//! What a mock chip says of itself and of its lines.

use vstd::prelude::*;

use crate::gpio::libgpiod::LineBias;
use crate::gpio::libgpiod::LineClock;
use crate::gpio::libgpiod::LineDirection;
use crate::gpio::libgpiod::LineDrive;
use crate::gpio::libgpiod::LineEdge;
use crate::gpio::mock::config::MockRequestLineState;
use crate::gpio::mock::snapshot::LineModel;
use crate::gpio::mock::snapshot::MockChipSnapshot;
use crate::gpio::mock::snapshot::MockLineSnapshot;
use crate::gpio::traits::ChipInfo;
use crate::gpio::traits::LineInfo;
use crate::gpio::traits::LineInfoModel;

verus! {

/// The direction of a requested line: the persisted one unless the request changes it.
pub open spec fn requested_direction(
    request: MockRequestLineState,
    persisted: LineDirection,
) -> LineDirection {
    if request.direction == LineDirection::AsIs {
        persisted
    } else {
        request.direction
    }
}

/// The direction of a requested line.
pub fn effective_direction(request: &MockRequestLineState, persisted: &MockLineSnapshot) -> (
    direction: LineDirection)
    ensures
        direction == requested_direction(*request, persisted@.direction),
{
    match request.direction {
        LineDirection::AsIs => persisted.direction,
        other => other,
    }
}

/// Name, label and number of lines of a chip.
#[derive(Debug, Clone, PartialEq, Eq)]
pub struct MockChipInfo {
    name: String,
    label: String,
    num_lines: usize,
}

impl MockChipInfo {
    /// What a snapshot says of its chip.
    pub fn from_snapshot(snapshot: &MockChipSnapshot) -> (info: Self)
        ensures
            info.name() == snapshot@.name,
            info.label() == snapshot@.label,
            info.line_count() == snapshot@.lines.len(),
    {
        MockChipInfo {
            name: snapshot.name.clone(),
            label: snapshot.label.clone(),
            num_lines: snapshot.num_lines(),
        }
    }
}

impl ChipInfo for MockChipInfo {
    closed spec fn name(&self) -> Seq<char> {
        self.name@
    }

    closed spec fn label(&self) -> Seq<char> {
        self.label@
    }

    closed spec fn line_count(&self) -> nat {
        self.num_lines as nat
    }

    fn get_name(&self) -> (name: &str) {
        self.name.as_str()
    }

    fn get_label(&self) -> (label: &str) {
        self.label.as_str()
    }

    fn get_num_lines(&self) -> (count: usize) {
        self.num_lines
    }
}

/// A text that counts as absent when it is empty.
pub open spec fn nonempty(text: Seq<char>) -> Option<Seq<char>> {
    if text.len() == 0 {
        None
    } else {
        Some(text)
    }
}

/// Only inputs have a bias to report.
pub open spec fn reported_bias(direction: LineDirection, bias: LineBias) -> LineBias {
    if direction == LineDirection::Input {
        bias
    } else {
        LineBias::Unknown
    }
}

/// What is said of a line that no request holds.
pub open spec fn free_line_info(offset: u32, line: LineModel) -> LineInfoModel {
    LineInfoModel {
        offset,
        name: nonempty(line.name),
        used: false,
        consumer: None,
        direction: line.direction,
        edge: LineEdge::NoEdge,
        bias: reported_bias(line.direction, line.bias),
        drive: line.drive,
        active_low: line.active_low,
        debounced: false,
        debounce_period_us: 0,
        event_clock: LineClock::Monotonic,
    }
}

/// What is said of a line that a request holds.
pub open spec fn held_line_info(
    free: LineInfoModel,
    consumer: Seq<char>,
    request: MockRequestLineState,
    line: LineModel,
) -> LineInfoModel {
    let direction = requested_direction(request, line.direction);
    LineInfoModel {
        used: true,
        consumer: nonempty(consumer),
        direction,
        edge: request.edge,
        bias: reported_bias(
            direction,
            if request.bias == LineBias::AsIs {
                line.bias
            } else {
                request.bias
            },
        ),
        drive: request.drive,
        active_low: request.active_low,
        debounced: request.debounce_period_us > 0,
        debounce_period_us: request.debounce_period_us,
        event_clock: request.event_clock,
        ..free
    }
}

/// What a mock chip says of one of its lines.
#[derive(Debug, Clone, PartialEq, Eq)]
pub struct MockLineInfo {
    offset: u32,
    name: Option<String>,
    used: bool,
    consumer: Option<String>,
    direction: LineDirection,
    edge: LineEdge,
    bias: LineBias,
    drive: LineDrive,
    active_low: bool,
    debounced: bool,
    debounce_period_us: u64,
    event_clock: LineClock,
}

fn nonempty_text(text: &str) -> (result: Option<String>)
    ensures
        match result {
            Some(inner) => nonempty(text@) == Some(inner@),
            None => nonempty(text@) is None,
        },
{
    if text.is_empty() {
        None
    } else {
        Some(text.to_owned())
    }
}

impl MockLineInfo {
    /// What is said of a line that no request holds.
    pub fn from_persisted_snapshot(offset: u32, line: &MockLineSnapshot) -> (info: Self)
        ensures
            info.info() == free_line_info(offset, line@),
    {
        MockLineInfo {
            offset,
            name: nonempty_text(line.name.as_str()),
            used: false,
            consumer: None,
            direction: line.direction,
            edge: LineEdge::NoEdge,
            bias: line.bias,
            drive: line.drive,
            active_low: line.active_low,
            debounced: false,
            debounce_period_us: 0,
            event_clock: LineClock::Monotonic,
        }
    }

    /// What is said of the line once a request holds it.
    pub fn with_request_state(
        self,
        consumer: &str,
        request: &MockRequestLineState,
        persisted: &MockLineSnapshot,
    ) -> (info: Self)
        ensures
            info.info() == held_line_info(self.info(), consumer@, *request, persisted@),
    {
        MockLineInfo {
            offset: self.offset,
            name: self.name,
            used: true,
            consumer: nonempty_text(consumer),
            direction: effective_direction(request, persisted),
            edge: request.edge,
            bias: match request.bias {
                LineBias::AsIs => persisted.bias,
                other => other,
            },
            drive: request.drive,
            active_low: request.active_low,
            debounced: request.debounce_period_us > 0,
            debounce_period_us: request.debounce_period_us,
            event_clock: request.event_clock,
        }
    }
}

impl LineInfo for MockLineInfo {
    closed spec fn info(&self) -> LineInfoModel {
        LineInfoModel {
            offset: self.offset,
            name: match self.name {
                Some(name) => Some(name@),
                None => None,
            },
            used: self.used,
            consumer: match self.consumer {
                Some(consumer) => Some(consumer@),
                None => None,
            },
            direction: self.direction,
            edge: self.edge,
            bias: reported_bias(self.direction, self.bias),
            drive: self.drive,
            active_low: self.active_low,
            debounced: self.debounced,
            debounce_period_us: self.debounce_period_us,
            event_clock: self.event_clock,
        }
    }

    fn get_offset(&self) -> (offset: u32) {
        self.offset
    }

    fn get_name(&self) -> (name: Option<&str>) {
        match &self.name {
            Some(name) => Some(name.as_str()),
            None => None,
        }
    }

    fn is_used(&self) -> (used: bool) {
        self.used
    }

    fn get_consumer(&self) -> (consumer: Option<&str>) {
        match &self.consumer {
            Some(consumer) => Some(consumer.as_str()),
            None => None,
        }
    }

    fn get_direction(&self) -> (direction: LineDirection) {
        self.direction
    }

    fn get_edge_detection(&self) -> (edge: LineEdge) {
        self.edge
    }

    fn get_bias(&self) -> (bias: LineBias) {
        if self.direction == LineDirection::Input {
            self.bias
        } else {
            LineBias::Unknown
        }
    }

    fn get_drive(&self) -> (drive: LineDrive) {
        self.drive
    }

    fn is_active_low(&self) -> (active_low: bool) {
        self.active_low
    }

    fn is_debounced(&self) -> (debounced: bool) {
        self.debounced
    }

    fn get_debounce_period_us(&self) -> (period: u64) {
        self.debounce_period_us
    }

    fn get_event_clock(&self) -> (clock: LineClock) {
        self.event_clock
    }
}

} // verus!

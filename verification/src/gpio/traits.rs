//! The libgpiod objects that a backend hands out, as traits.

use vstd::prelude::*;

use crate::gpio::libgpiod::EdgeEventType;
use crate::gpio::libgpiod::GPIOError;
use crate::gpio::libgpiod::LineBias;
use crate::gpio::libgpiod::LineClock;
use crate::gpio::libgpiod::LineDirection;
use crate::gpio::libgpiod::LineDrive;
use crate::gpio::libgpiod::LineEdge;
use crate::gpio::libgpiod::LineValue;

verus! {

/// What a chip says of itself.
pub trait ChipInfo {
    spec fn name(&self) -> Seq<char>;

    spec fn label(&self) -> Seq<char>;

    spec fn line_count(&self) -> nat;

    fn get_name(&self) -> (name: &str)
        ensures
            name@ == self.name(),
    ;

    fn get_label(&self) -> (label: &str)
        ensures
            label@ == self.label(),
    ;

    fn get_num_lines(&self) -> (count: usize)
        ensures
            count == self.line_count(),
    ;
}

/// What a chip says of one of its lines.
pub ghost struct LineInfoModel {
    pub offset: u32,
    pub name: Option<Seq<char>>,
    pub used: bool,
    pub consumer: Option<Seq<char>>,
    pub direction: LineDirection,
    pub edge: LineEdge,
    pub bias: LineBias,
    pub drive: LineDrive,
    pub active_low: bool,
    pub debounced: bool,
    pub debounce_period_us: u64,
    pub event_clock: LineClock,
}

/// The view of an optional text.
pub open spec fn option_view(text: Option<&str>) -> Option<Seq<char>> {
    match text {
        Some(inner) => Some(inner@),
        None => None,
    }
}

/// What a chip says of one of its lines.
pub trait LineInfo {
    spec fn info(&self) -> LineInfoModel;

    fn get_offset(&self) -> (offset: u32)
        ensures
            offset == self.info().offset,
    ;

    fn get_name(&self) -> (name: Option<&str>)
        ensures
            option_view(name) == self.info().name,
    ;

    fn is_used(&self) -> (used: bool)
        ensures
            used == self.info().used,
    ;

    fn get_consumer(&self) -> (consumer: Option<&str>)
        ensures
            option_view(consumer) == self.info().consumer,
    ;

    fn get_direction(&self) -> (direction: LineDirection)
        ensures
            direction == self.info().direction,
    ;

    fn get_edge_detection(&self) -> (edge: LineEdge)
        ensures
            edge == self.info().edge,
    ;

    fn get_bias(&self) -> (bias: LineBias)
        ensures
            bias == self.info().bias,
    ;

    fn get_drive(&self) -> (drive: LineDrive)
        ensures
            drive == self.info().drive,
    ;

    fn is_active_low(&self) -> (active_low: bool)
        ensures
            active_low == self.info().active_low,
    ;

    fn is_debounced(&self) -> (debounced: bool)
        ensures
            debounced == self.info().debounced,
    ;

    fn get_debounce_period_us(&self) -> (period: u64)
        ensures
            period == self.info().debounce_period_us,
    ;

    fn get_event_clock(&self) -> (clock: LineClock)
        ensures
            clock == self.info().event_clock,
    ;
}

/// The settings of one line in a request.
pub ghost struct SettingsModel {
    pub direction: LineDirection,
    pub edge: LineEdge,
    pub bias: LineBias,
    pub drive: LineDrive,
    pub active_low: bool,
    pub debounce_period_us: u64,
    pub event_clock: LineClock,
    pub output_value: LineValue,
}

/// The settings of a line of which nothing was asked.
pub open spec fn default_settings() -> SettingsModel {
    SettingsModel {
        direction: LineDirection::AsIs,
        edge: LineEdge::NoEdge,
        bias: LineBias::AsIs,
        drive: LineDrive::PushPull,
        active_low: false,
        debounce_period_us: 0,
        event_clock: LineClock::Monotonic,
        output_value: LineValue::Inactive,
    }
}

/// The settings of one line in a request. A setter that succeeds changes its own setting and
/// no other.
pub trait LineSettings: Sized {
    spec fn settings(&self) -> SettingsModel;

    fn reset(&mut self)
        ensures
            final(self).settings() == default_settings(),
    ;

    fn get_direction(&self) -> (direction: LineDirection)
        ensures
            direction == self.settings().direction,
    ;

    fn set_direction(&mut self, direction: LineDirection) -> (result: Result<(), GPIOError>)
        ensures
            result is Ok ==> final(self).settings() == (SettingsModel {
                direction,
                ..old(self).settings()
            }),
    ;

    fn get_edge_detection(&self) -> (edge: LineEdge)
        ensures
            edge == self.settings().edge,
    ;

    fn set_edge_detection(&mut self, edge: LineEdge) -> (result: Result<(), GPIOError>)
        ensures
            result is Ok ==> final(self).settings() == (SettingsModel {
                edge,
                ..old(self).settings()
            }),
    ;

    fn get_bias(&self) -> (bias: LineBias)
        ensures
            bias == self.settings().bias,
    ;

    fn set_bias(&mut self, bias: LineBias) -> (result: Result<(), GPIOError>)
        ensures
            result is Ok ==> final(self).settings() == (SettingsModel {
                bias,
                ..old(self).settings()
            }),
    ;

    fn get_drive(&self) -> (drive: LineDrive)
        ensures
            drive == self.settings().drive,
    ;

    fn set_drive(&mut self, drive: LineDrive) -> (result: Result<(), GPIOError>)
        ensures
            result is Ok ==> final(self).settings() == (SettingsModel {
                drive,
                ..old(self).settings()
            }),
    ;

    fn get_active_low(&self) -> (active_low: bool)
        ensures
            active_low == self.settings().active_low,
    ;

    fn set_active_low(&mut self, active_low: bool)
        ensures
            final(self).settings() == (SettingsModel { active_low, ..old(self).settings() }),
    ;

    fn get_debounce_period_us(&self) -> (period: u64)
        ensures
            period == self.settings().debounce_period_us,
    ;

    fn set_debounce_period_us(&mut self, period_us: u64)
        ensures
            final(self).settings() == (SettingsModel {
                debounce_period_us: period_us,
                ..old(self).settings()
            }),
    ;

    fn get_event_clock(&self) -> (clock: LineClock)
        ensures
            clock == self.settings().event_clock,
    ;

    fn set_event_clock(&mut self, clock: LineClock) -> (result: Result<(), GPIOError>)
        ensures
            result is Ok ==> final(self).settings() == (SettingsModel {
                event_clock: clock,
                ..old(self).settings()
            }),
    ;

    fn get_output_value(&self) -> (value: LineValue)
        ensures
            value == self.settings().output_value,
    ;

    fn set_output_value(&mut self, value: LineValue) -> (result: Result<(), GPIOError>)
        ensures
            result is Ok ==> final(self).settings() == (SettingsModel {
                output_value: value,
                ..old(self).settings()
            }),
    ;
}

/// Options of a line request.
pub trait RequestConfig: Sized {
    spec fn consumer(&self) -> Seq<char>;

    spec fn event_buffer_size(&self) -> usize;

    fn set_consumer(&mut self, consumer: &str)
        ensures
            final(self).consumer() == consumer@,
            final(self).event_buffer_size() == old(self).event_buffer_size(),
    ;

    fn get_consumer(&self) -> (consumer: &str)
        ensures
            consumer@ == self.consumer(),
    ;

    fn set_event_buffer_size(&mut self, event_buffer_size: usize)
        ensures
            final(self).event_buffer_size() == event_buffer_size,
            final(self).consumer() == old(self).consumer(),
    ;

    fn get_event_buffer_size(&self) -> (size: usize)
        ensures
            size == self.event_buffer_size(),
    ;
}

/// One edge of a line.
pub ghost struct EdgeModel {
    pub event_type: EdgeEventType,
    pub timestamp_ns: u64,
    pub line_offset: u32,
    pub global_seqno: u64,
    pub line_seqno: u64,
}

/// One edge of a line, as a request reports it.
pub trait EdgeEvent {
    spec fn record(&self) -> EdgeModel;

    fn get_event_type(&self) -> (event_type: EdgeEventType)
        ensures
            event_type == self.record().event_type,
    ;

    fn get_timestamp_ns(&self) -> (timestamp: u64)
        ensures
            timestamp == self.record().timestamp_ns,
    ;

    fn get_line_offset(&self) -> (offset: u32)
        ensures
            offset == self.record().line_offset,
    ;

    fn get_global_seqno(&self) -> (seqno: u64)
        ensures
            seqno == self.record().global_seqno,
    ;

    fn get_line_seqno(&self) -> (seqno: u64)
        ensures
            seqno == self.record().line_seqno,
    ;
}

/// A bounded list of edges that a request fills.
pub trait EdgeEventBuffer: Sized {
    type EdgeEvent: EdgeEvent;

    spec fn capacity(&self) -> usize;

    spec fn records(&self) -> Seq<EdgeModel>;

    fn get_capacity(&self) -> (capacity: usize)
        ensures
            capacity == self.capacity(),
    ;

    fn get_num_events(&self) -> (count: usize)
        ensures
            count == self.records().len(),
    ;

    fn get_event(&self, index: usize) -> (result: Result<Self::EdgeEvent, GPIOError>)
        ensures
            index < self.records().len() <==> result is Ok,
            result matches Ok(event) ==> event.record() == self.records()[index as int],
    ;

    fn clear(&mut self)
        ensures
            final(self).records() == Seq::<EdgeModel>::empty(),
            final(self).capacity() == old(self).capacity(),
    ;
}

/// The offsets with those that are new among `added` behind them, each once.
pub open spec fn with_offsets(offsets: Seq<u32>, added: Seq<u32>) -> Seq<u32>
    decreases added.len(),
{
    if added.len() == 0 {
        offsets
    } else {
        let front = with_offsets(offsets, added.drop_last());
        if front.contains(added.last()) {
            front
        } else {
            front.push(added.last())
        }
    }
}

/// The lines of a request in the order in which they were first named, each with the settings
/// that it was given last.
pub trait LineConfig: Sized {
    type LineSettings: LineSettings;

    spec fn offsets(&self) -> Seq<u32>;

    spec fn settings_at(&self, offset: u32) -> SettingsModel;

    fn reset(&mut self)
        ensures
            final(self).offsets() == Seq::<u32>::empty(),
    ;

    fn add_line_settings(&mut self, offsets: &[u32], settings: &Self::LineSettings) -> (result:
        Result<(), GPIOError>)
        ensures
            result is Ok ==> {
                &&& final(self).offsets() == with_offsets(old(self).offsets(), offsets@)
                &&& forall|offset: u32| #[trigger]
                    final(self).settings_at(offset) == if offsets@.contains(offset) {
                        settings.settings()
                    } else {
                        old(self).settings_at(offset)
                    }
            },
    ;

    fn get_line_settings(&self, offset: u32) -> (result: Result<Self::LineSettings, GPIOError>)
        ensures
            !self.offsets().contains(offset) ==> result is Err,
            result matches Ok(settings) ==> settings.settings() == self.settings_at(offset),
    ;

    fn set_output_values(&mut self, values: &[LineValue]) -> (result: Result<(), GPIOError>)
        ensures
            final(self).offsets() == old(self).offsets(),
    ;

    fn get_num_configured_offsets(&self) -> (count: usize)
        ensures
            count == self.offsets().len(),
    ;

    fn get_configured_offsets(&self, out: &mut [u32]) -> (count: usize)
        ensures
            count == if old(out)@.len() < self.offsets().len() {
                old(out)@.len()
            } else {
                self.offsets().len()
            },
            final(out)@ == self.offsets().take(count as int) + old(out)@.skip(count as int),
    ;
}

} // verus!

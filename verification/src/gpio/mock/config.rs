//! Request settings of the mock backend.

use vstd::prelude::*;

use crate::gpio::libgpiod::GPIOError;
use crate::gpio::libgpiod::GPIOErrorModel;
use crate::gpio::libgpiod::LineBias;
use crate::gpio::libgpiod::LineClock;
use crate::gpio::libgpiod::LineDirection;
use crate::gpio::libgpiod::LineDrive;
use crate::gpio::libgpiod::LineEdge;
use crate::gpio::libgpiod::LineValue;
use crate::gpio::traits::with_offsets;
use crate::gpio::traits::LineConfig;
use crate::gpio::traits::LineSettings;
use crate::gpio::traits::RequestConfig;
use crate::gpio::traits::SettingsModel;

verus! {

/// Capacity of an edge event buffer when none was asked for.
pub const DEFAULT_EDGE_EVENT_BUFFER_CAPACITY: usize = 64;

/// The capacity of an edge event buffer: zero asks for the default.
pub fn default_edge_event_buffer_capacity(capacity: usize) -> (result: usize)
    ensures
        result == if capacity == 0 {
            64usize
        } else {
            capacity
        },
{
    if capacity == 0 {
        DEFAULT_EDGE_EVENT_BUFFER_CAPACITY
    } else {
        capacity
    }
}

/// Settings of one line in a mock request.
#[derive(Debug, Clone, Copy, PartialEq, Eq, Structural)]
pub struct MockLineSettings {
    direction: LineDirection,
    edge: LineEdge,
    bias: LineBias,
    drive: LineDrive,
    active_low: bool,
    debounce_period_us: u64,
    event_clock: LineClock,
    /// When `None`, the request keeps the persisted output level.
    output_value: Option<LineValue>,
}

impl MockLineSettings {
    /// The effect of the settings on a requested line.
    pub closed spec fn state(&self) -> MockRequestLineState {
        MockRequestLineState {
            direction: self.direction,
            edge: self.edge,
            bias: self.bias,
            drive: self.drive,
            active_low: self.active_low,
            debounce_period_us: self.debounce_period_us,
            event_clock: self.event_clock,
            output_value: self.output_value,
        }
    }

    /// Settings that ask for nothing.
    pub fn new() -> (settings: Self)
        ensures
            settings.state() == default_line_state(),
    {
        MockLineSettings {
            direction: LineDirection::AsIs,
            edge: LineEdge::NoEdge,
            bias: LineBias::AsIs,
            drive: LineDrive::PushPull,
            active_low: false,
            debounce_period_us: 0,
            event_clock: LineClock::Monotonic,
            output_value: None,
        }
    }

    /// The output value that was asked for, if any.
    pub fn configured_output_value(&self) -> (value: Option<LineValue>)
        ensures
            value == self.state().output_value,
    {
        self.output_value
    }
}

impl Default for MockLineSettings {
    fn default() -> (settings: Self)
        ensures
            settings.state() == default_line_state(),
    {
        MockLineSettings::new()
    }
}

/// The settings of a requested line as the request reports them: an output value that was not
/// asked for reads as inactive.
pub open spec fn reported_settings(state: MockRequestLineState) -> SettingsModel {
    SettingsModel {
        direction: state.direction,
        edge: state.edge,
        bias: state.bias,
        drive: state.drive,
        active_low: state.active_low,
        debounce_period_us: state.debounce_period_us,
        event_clock: state.event_clock,
        output_value: match state.output_value {
            Some(value) => value,
            None => LineValue::Inactive,
        },
    }
}

impl LineSettings for MockLineSettings {
    open spec fn settings(&self) -> SettingsModel {
        reported_settings(self.state())
    }

    fn reset(&mut self)
        ensures
            final(self).state() == default_line_state(),
    {
        *self = MockLineSettings::new();
    }

    fn get_direction(&self) -> (direction: LineDirection) {
        self.direction
    }

    fn set_direction(&mut self, direction: LineDirection) -> (result: Result<(), GPIOError>)
        ensures
            result is Ok,
            final(self).state() == (MockRequestLineState { direction, ..old(self).state() }),
    {
        self.direction = direction;
        Ok(())
    }

    fn get_edge_detection(&self) -> (edge: LineEdge) {
        self.edge
    }

    fn set_edge_detection(&mut self, edge: LineEdge) -> (result: Result<(), GPIOError>)
        ensures
            result is Ok,
            final(self).state() == (MockRequestLineState { edge, ..old(self).state() }),
    {
        self.edge = edge;
        Ok(())
    }

    fn get_bias(&self) -> (bias: LineBias) {
        self.bias
    }

    fn set_bias(&mut self, bias: LineBias) -> (result: Result<(), GPIOError>)
        ensures
            result is Ok,
            final(self).state() == (MockRequestLineState { bias, ..old(self).state() }),
    {
        self.bias = bias;
        Ok(())
    }

    fn get_drive(&self) -> (drive: LineDrive) {
        self.drive
    }

    fn set_drive(&mut self, drive: LineDrive) -> (result: Result<(), GPIOError>)
        ensures
            result is Ok,
            final(self).state() == (MockRequestLineState { drive, ..old(self).state() }),
    {
        self.drive = drive;
        Ok(())
    }

    fn get_active_low(&self) -> (active_low: bool) {
        self.active_low
    }

    fn set_active_low(&mut self, active_low: bool)
        ensures
            final(self).state() == (MockRequestLineState { active_low, ..old(self).state() }),
    {
        self.active_low = active_low;
    }

    fn get_debounce_period_us(&self) -> (period: u64) {
        self.debounce_period_us
    }

    fn set_debounce_period_us(&mut self, period_us: u64)
        ensures
            final(self).state() == (MockRequestLineState {
                debounce_period_us: period_us,
                ..old(self).state()
            }),
    {
        self.debounce_period_us = period_us;
    }

    fn get_event_clock(&self) -> (clock: LineClock) {
        self.event_clock
    }

    fn set_event_clock(&mut self, clock: LineClock) -> (result: Result<(), GPIOError>)
        ensures
            result is Ok,
            final(self).state() == (MockRequestLineState {
                event_clock: clock,
                ..old(self).state()
            }),
    {
        self.event_clock = clock;
        Ok(())
    }

    fn get_output_value(&self) -> (value: LineValue) {
        self.output_value.unwrap_or(LineValue::Inactive)
    }

    fn set_output_value(&mut self, value: LineValue) -> (result: Result<(), GPIOError>)
        ensures
            result is Ok,
            final(self).state() == (MockRequestLineState {
                output_value: Some(value),
                ..old(self).state()
            }),
    {
        self.output_value = Some(value);
        Ok(())
    }
}

/// What a request asks of one line; not persisted as such.
#[derive(Debug, Clone, Copy, PartialEq, Eq, Structural)]
pub struct MockRequestLineState {
    pub direction: LineDirection,
    pub edge: LineEdge,
    pub bias: LineBias,
    pub drive: LineDrive,
    pub active_low: bool,
    pub debounce_period_us: u64,
    pub event_clock: LineClock,
    /// When `None`, the request keeps the persisted output level.
    pub output_value: Option<LineValue>,
}

/// A line of which nothing is asked.
pub open spec fn default_line_state() -> MockRequestLineState {
    MockRequestLineState {
        direction: LineDirection::AsIs,
        edge: LineEdge::NoEdge,
        bias: LineBias::AsIs,
        drive: LineDrive::PushPull,
        active_low: false,
        debounce_period_us: 0,
        event_clock: LineClock::Monotonic,
        output_value: None,
    }
}

impl MockRequestLineState {
    /// What settings ask of a line.
    pub fn from_settings(settings: &MockLineSettings) -> (state: Self)
        ensures
            state == settings.state(),
    {
        MockRequestLineState {
            direction: settings.get_direction(),
            edge: settings.get_edge_detection(),
            bias: settings.get_bias(),
            drive: settings.get_drive(),
            active_low: settings.get_active_low(),
            debounce_period_us: settings.get_debounce_period_us(),
            event_clock: settings.get_event_clock(),
            output_value: settings.configured_output_value(),
        }
    }
}

/// The offsets of a list of lines.
pub open spec fn line_offsets(lines: Seq<(u32, MockRequestLineState)>) -> Seq<u32> {
    Seq::new(lines.len(), |i: int| lines[i].0)
}

/// What the last entry for an offset asks of the line.
pub open spec fn state_at(
    lines: Seq<(u32, MockRequestLineState)>,
    offset: u32,
) -> MockRequestLineState
    decreases lines.len(),
{
    if lines.len() == 0 {
        default_line_state()
    } else if lines.last().0 == offset {
        lines.last().1
    } else {
        state_at(lines.drop_last(), offset)
    }
}

proof fn lemma_state_at(lines: Seq<(u32, MockRequestLineState)>, index: int)
    requires
        0 <= index < lines.len(),
        forall|i: int| index < i < lines.len() ==> (#[trigger] lines[i]).0 != lines[index].0,
    ensures
        state_at(lines, lines[index].0) == lines[index].1,
    decreases lines.len(),
{
    if index < lines.len() - 1 {
        assert(lines[lines.len() - 1].0 != lines[index].0);
        assert forall|i: int| index < i < lines.drop_last().len() implies (
        #[trigger] lines.drop_last()[i]).0 != lines[index].0 by {
            assert(lines[i].0 != lines[index].0);
        }
        lemma_state_at(lines.drop_last(), index);
    }
}

proof fn lemma_state_at_update(
    lines: Seq<(u32, MockRequestLineState)>,
    index: int,
    state: MockRequestLineState,
    offset: u32,
)
    requires
        0 <= index < lines.len(),
        forall|i: int| index < i < lines.len() ==> (#[trigger] lines[i]).0 != lines[index].0,
    ensures
        state_at(lines.update(index, (lines[index].0, state)), offset) == if offset
            == lines[index].0 {
            state
        } else {
            state_at(lines, offset)
        },
    decreases lines.len(),
{
    let updated = lines.update(index, (lines[index].0, state));
    if index < lines.len() - 1 {
        assert(updated.last() == lines.last());
        assert(lines[lines.len() - 1].0 != lines[index].0);
        assert(updated.drop_last() =~= lines.drop_last().update(index, (lines[index].0, state)));
        assert forall|i: int| index < i < lines.drop_last().len() implies (
        #[trigger] lines.drop_last()[i]).0 != lines.drop_last()[index].0 by {
            assert(lines[i].0 != lines[index].0);
        }
        lemma_state_at_update(lines.drop_last(), index, state, offset);
    } else {
        assert(updated.drop_last() =~= lines.drop_last());
    }
}

/// The lines of a mock request and the settings of each.
#[derive(Debug, Clone, PartialEq, Eq)]
pub struct MockLineConfig {
    entries: Vec<(u32, MockLineSettings)>,
    output_values: Option<Vec<LineValue>>,
}

impl MockLineConfig {
    /// The lines in the order in which they were first named, and what is asked of each.
    pub closed spec fn lines(&self) -> Seq<(u32, MockRequestLineState)> {
        Seq::new(self.entries@.len(), |i: int| (self.entries@[i].0, self.entries@[i].1.state()))
    }

    /// Output values for the first lines of the request, in place of those in the settings.
    pub closed spec fn overrides(&self) -> Option<Seq<LineValue>> {
        match self.output_values {
            Some(values) => Some(values@),
            None => None,
        }
    }

    /// No line is named twice.
    pub open spec fn wf(&self) -> bool {
        self.offsets().no_duplicates()
    }

    /// A request without lines.
    pub fn new() -> (config: Self)
        ensures
            config.lines() == Seq::<(u32, MockRequestLineState)>::empty(),
            config.overrides() is None,
            config.wf(),
    {
        let config = MockLineConfig { entries: Vec::new(), output_values: None };
        assert(config.lines() =~= Seq::<(u32, MockRequestLineState)>::empty());
        config
    }

    fn index_for_offset(&self, offset: u32) -> (found: Option<usize>)
        ensures
            match found {
                Some(index) => {
                    &&& index < self.entries@.len()
                    &&& self.entries@[index as int].0 == offset
                    &&& forall|i: int|
                        index < i < self.entries@.len() ==> (#[trigger] self.entries@[i]).0
                            != offset
                },
                None => !self.offsets().contains(offset),
            },
    {
        let mut index: usize = self.entries.len();
        while index > 0
            invariant
                index <= self.entries.len(),
                forall|i: int|
                    index <= i < self.entries@.len() ==> (#[trigger] self.entries@[i]).0 != offset,
            decreases index,
        {
            index -= 1;
            if self.entries[index].0 == offset {
                return Some(index);
            }
        }
        assert forall|i: int| 0 <= i < self.offsets().len() implies self.offsets()[i] != offset by {
            assert(self.offsets()[i] == self.entries@[i].0);
        }
        None
    }

    /// The output values that were set for the request as a whole.
    pub fn configured_output_values(&self) -> (values: Option<Vec<LineValue>>)
        ensures
            match (values, self.overrides()) {
                (Some(found), Some(expected)) => found@ == expected,
                (None, None) => true,
                _ => false,
            },
    {
        match &self.output_values {
            Some(values) => Some(copied_values(values.as_slice())),
            None => None,
        }
    }

    fn put(&mut self, offset: u32, settings: &MockLineSettings)
        ensures
            final(self).offsets() == with_offsets(old(self).offsets(), seq![offset]),
            final(self).overrides() == old(self).overrides(),
            forall|other: u32| #[trigger]
                state_at(final(self).lines(), other) == if other == offset {
                    settings.state()
                } else {
                    state_at(old(self).lines(), other)
                },
    {
        reveal_with_fuel(with_offsets, 2);
        assert(seq![offset].drop_last() =~= Seq::<u32>::empty());
        let ghost before = self.lines();
        let entry = (offset, *settings);
        match self.index_for_offset(offset) {
            Some(index) => {
                proof {
                    assert(self.offsets()[index as int] == offset);
                    assert forall|i: int| index < i < before.len() implies (
                    #[trigger] before[i]).0 != before[index as int].0 by {
                        assert(self.entries@[i].0 != offset);
                    }
                }
                self.entries.set(index, entry);
                proof {
                    assert(self.lines() =~= before.update(
                        index as int,
                        (before[index as int].0, settings.state()),
                    ));
                    assert(self.offsets() =~= old(self).offsets());
                    assert forall|other: u32| #[trigger]
                        state_at(self.lines(), other) == if other == offset {
                            settings.state()
                        } else {
                            state_at(before, other)
                        } by {
                        lemma_state_at_update(before, index as int, settings.state(), other);
                    }
                }
            },
            None => {
                self.entries.push(entry);
                proof {
                    assert(self.lines() =~= before.push((offset, settings.state())));
                    assert(self.lines().drop_last() =~= before);
                    assert(self.offsets() =~= old(self).offsets().push(offset));
                }
            },
        }
    }
}

/// A copy of a list of values.
pub fn copied_values(values: &[LineValue]) -> (copy: Vec<LineValue>)
    ensures
        copy@ == values@,
{
    let mut copy: Vec<LineValue> = Vec::new();
    let mut index: usize = 0;
    while index < values.len()
        invariant
            index <= values.len(),
            copy@ == values@.take(index as int),
        decreases values.len() - index,
    {
        copy.push(values[index]);
        index += 1;
        assert(values@.take(index as int) =~= values@.take(index - 1).push(values@[index - 1]));
    }
    assert(values@.take(index as int) =~= values@);
    copy
}

impl Default for MockLineConfig {
    fn default() -> (config: Self)
        ensures
            config.lines() == Seq::<(u32, MockRequestLineState)>::empty(),
            config.overrides() is None,
            config.wf(),
    {
        MockLineConfig::new()
    }
}

proof fn lemma_with_offsets_step(offsets: Seq<u32>, added: Seq<u32>, offset: u32)
    ensures
        with_offsets(offsets, added.push(offset)) == with_offsets(
            with_offsets(offsets, added),
            seq![offset],
        ),
{
    reveal_with_fuel(with_offsets, 2);
    assert(added.push(offset).drop_last() =~= added);
    assert(seq![offset].drop_last() =~= Seq::<u32>::empty());
}

/// Naming more lines keeps a list without duplicates free of them.
pub proof fn lemma_with_offsets_distinct(offsets: Seq<u32>, added: Seq<u32>)
    requires
        offsets.no_duplicates(),
    ensures
        with_offsets(offsets, added).no_duplicates(),
    decreases added.len(),
{
    if added.len() > 0 {
        lemma_with_offsets_distinct(offsets, added.drop_last());
    }
}

impl LineConfig for MockLineConfig {
    type LineSettings = MockLineSettings;

    open spec fn offsets(&self) -> Seq<u32> {
        line_offsets(self.lines())
    }

    open spec fn settings_at(&self, offset: u32) -> SettingsModel {
        reported_settings(state_at(self.lines(), offset))
    }

    fn reset(&mut self)
        ensures
            final(self).lines() == Seq::<(u32, MockRequestLineState)>::empty(),
            final(self).overrides() is None,
    {
        self.entries.clear();
        self.output_values = None;
        assert(self.lines() =~= Seq::<(u32, MockRequestLineState)>::empty());
        assert(self.offsets() =~= Seq::<u32>::empty());
    }

    fn add_line_settings(&mut self, offsets: &[u32], settings: &MockLineSettings) -> (result:
        Result<(), GPIOError>)
        ensures
            result is Ok,
            final(self).overrides() == old(self).overrides(),
            old(self).wf() ==> final(self).wf(),
            forall|offset: u32| #[trigger]
                state_at(final(self).lines(), offset) == if offsets@.contains(offset) {
                    settings.state()
                } else {
                    state_at(old(self).lines(), offset)
                },
    {
        let mut index: usize = 0;
        assert(offsets@.take(0) =~= Seq::<u32>::empty());
        while index < offsets.len()
            invariant
                index <= offsets.len(),
                self.offsets() == with_offsets(old(self).offsets(), offsets@.take(index as int)),
                self.overrides() == old(self).overrides(),
                forall|offset: u32| #[trigger]
                    state_at(self.lines(), offset) == if offsets@.take(index as int).contains(
                        offset,
                    ) {
                        settings.state()
                    } else {
                        state_at(old(self).lines(), offset)
                    },
            decreases offsets.len() - index,
        {
            let offset: u32 = offsets[index];
            let ghost seen = offsets@.take(index as int);
            let ghost before = self.lines();
            self.put(offset, settings);
            index += 1;
            proof {
                let now = offsets@.take(index as int);
                assert(now =~= seen.push(offset));
                lemma_with_offsets_step(old(self).offsets(), seen, offset);
                assert forall|other: u32| #[trigger]
                    state_at(self.lines(), other) == if now.contains(other) {
                        settings.state()
                    } else {
                        state_at(old(self).lines(), other)
                    } by {
                    assert(now[index - 1] == offset);
                    if seen.contains(other) {
                        let k = choose|k: int| 0 <= k < seen.len() && seen[k] == other;
                        assert(now[k] == other);
                    }
                    assert(state_at(before, other) == if seen.contains(other) {
                        settings.state()
                    } else {
                        state_at(old(self).lines(), other)
                    });
                }
            }
        }
        proof {
            assert(offsets@.take(index as int) =~= offsets@);
            if old(self).wf() {
                lemma_with_offsets_distinct(old(self).offsets(), offsets@);
            }
            assert forall|offset: u32| #[trigger]
                self.settings_at(offset) == if offsets@.contains(offset) {
                    settings.settings()
                } else {
                    old(self).settings_at(offset)
                } by {
                assert(self.settings_at(offset) == reported_settings(
                    state_at(self.lines(), offset),
                ));
                assert(old(self).settings_at(offset) == reported_settings(
                    state_at(old(self).lines(), offset),
                ));
                assert(settings.settings() == reported_settings(settings.state()));
            }
        }
        Ok(())
    }

    fn get_line_settings(&self, offset: u32) -> (result: Result<MockLineSettings, GPIOError>)
        ensures
            match result {
                Ok(settings) => self.offsets().contains(offset) && settings.state() == state_at(
                    self.lines(),
                    offset,
                ),
                Err(error) => !self.offsets().contains(offset) && error@
                    == GPIOErrorModel::UnconfiguredOffset { offset },
            },
    {
        match self.index_for_offset(offset) {
            Some(index) => {
                proof {
                    assert(self.offsets()[index as int] == offset);
                    let lines = self.lines();
                    assert forall|i: int| index < i < lines.len() implies (#[trigger] lines[i]).0
                        != lines[index as int].0 by {
                        assert(self.entries@[i].0 != offset);
                    }
                    lemma_state_at(lines, index as int);
                    let found = self.entries@[index as int].1;
                    assert(found.settings() == reported_settings(found.state()));
                    assert(self.settings_at(offset) == reported_settings(
                        state_at(lines, offset),
                    ));
                }
                Ok(self.entries[index].1)
            },
            None => Err(GPIOError::UnconfiguredOffset { offset }),
        }
    }

    fn set_output_values(&mut self, values: &[LineValue]) -> (result: Result<(), GPIOError>)
        ensures
            result is Ok,
            final(self).lines() == old(self).lines(),
            final(self).overrides() == Some(values@),
    {
        self.output_values = Some(copied_values(values));
        Ok(())
    }

    fn get_num_configured_offsets(&self) -> (count: usize) {
        self.entries.len()
    }

    fn get_configured_offsets(&self, out: &mut [u32]) -> (count: usize) {
        let count: usize = if out.len() < self.entries.len() {
            out.len()
        } else {
            self.entries.len()
        };
        let mut index: usize = 0;
        while index < count
            invariant
                index <= count,
                count <= self.entries.len(),
                count <= out@.len(),
                out@.len() == old(out)@.len(),
                out@ == self.offsets().take(index as int) + old(out)@.skip(index as int),
            decreases count - index,
        {
            out[index] = self.entries[index].0;
            index += 1;
            assert(out@ =~= self.offsets().take(index as int) + old(out)@.skip(index as int));
        }
        count
    }
}

/// Options of a mock line request.
#[derive(Debug, Clone, PartialEq, Eq)]
pub struct MockRequestConfig {
    consumer: String,
    event_buffer_size: usize,
}

impl MockRequestConfig {
    /// No consumer and the default buffer size.
    pub fn new() -> (config: Self)
        ensures
            config.consumer() == Seq::<char>::empty(),
            config.event_buffer_size() == 0,
    {
        MockRequestConfig { consumer: String::new(), event_buffer_size: 0 }
    }
}

impl Default for MockRequestConfig {
    fn default() -> (config: Self)
        ensures
            config.consumer() == Seq::<char>::empty(),
            config.event_buffer_size() == 0,
    {
        MockRequestConfig::new()
    }
}

impl RequestConfig for MockRequestConfig {
    closed spec fn consumer(&self) -> Seq<char> {
        self.consumer@
    }

    closed spec fn event_buffer_size(&self) -> usize {
        self.event_buffer_size
    }

    fn set_consumer(&mut self, consumer: &str) {
        self.consumer = consumer.to_owned();
    }

    fn get_consumer(&self) -> (consumer: &str) {
        self.consumer.as_str()
    }

    fn set_event_buffer_size(&mut self, event_buffer_size: usize) {
        self.event_buffer_size = event_buffer_size;
    }

    fn get_event_buffer_size(&self) -> (size: usize) {
        self.event_buffer_size
    }
}

} // verus!

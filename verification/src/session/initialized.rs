//! Setting up a session: resolving targets to lines and gathering what to request.

use vstd::prelude::*;

use crate::config::pin_models;
use crate::config::GPIODPinSpec;
use crate::config::ServiceConfig;
use crate::gpio::libgpiod::GPIOError;
use crate::gpio::libgpiod::GPIOErrorModel;
use crate::gpio::libgpiod::LineBias;
use crate::gpio::libgpiod::LineDirection;
use crate::gpio::libgpiod::LineDrive;
use crate::gpio::libgpiod::LineEdge;
use crate::gpio::mock::chip::request_settings;
use crate::gpio::mock::config::default_line_state;
use crate::gpio::mock::config::state_at;
use crate::gpio::mock::config::MockLineConfig;
use crate::gpio::mock::config::MockLineSettings;
use crate::gpio::mock::config::MockRequestLineState;
use crate::gpio::traits::LineConfig;
use crate::gpio::traits::LineSettings;
use crate::gpio::traits::with_offsets;
use crate::names::lemma_ascending_distinct;
use crate::names::NameMap;
use crate::protocol::request::BiasMode;
use crate::protocol::request::DriveMode;
use crate::protocol::request::EdgeMode;
use crate::protocol::request::PinSelector;
use crate::protocol::request::TargetConfigRequest;
use crate::session::compiled::with_device;
use crate::session::compiled::with_slot;
use crate::session::compiled::ChipIndices;
use crate::session::compiled::CompiledTarget;
use crate::session::compiled::CompiledTargets;
use crate::session::compiled::ResolvedPins;
use crate::session::compiled::TargetMode;
use crate::session::compiled::TargetModel;
use crate::session::execute::bit_of;
use crate::session::execute::bit_to_line_value;
use crate::session::execute::bit_value;
use crate::session::execute::exceeds_width;
use crate::session::execute::narrow;
use crate::session::execute::too_wide;
use crate::session::pins::PinList;
use crate::session::pins::ResolvedPin;
use crate::session::state::SessionError;
use crate::session::state::SessionErrorModel;

verus! {

/// Where pins are, by name.
pub trait SessionConfig {
    spec fn table(&self) -> Map<Seq<char>, (Seq<char>, u32)>;

    /// Where a pin is. The name must match exactly.
    fn resolve_gpiod_pin(&self, pin: &str) -> (found: Option<&GPIODPinSpec>)
        ensures
            match found {
                Some(spec) => self.table().contains_key(pin@) && spec@ == self.table()[pin@],
                None => !self.table().contains_key(pin@),
            },
    ;
}

impl SessionConfig for ServiceConfig {
    open spec fn table(&self) -> Map<Seq<char>, (Seq<char>, u32)> {
        self.pins()
    }

    fn resolve_gpiod_pin(&self, pin: &str) -> (found: Option<&GPIODPinSpec>) {
        ServiceConfig::resolve_gpiod_pin(self, pin)
    }
}

impl SessionConfig for NameMap<GPIODPinSpec> {
    open spec fn table(&self) -> Map<Seq<char>, (Seq<char>, u32)> {
        pin_models(self.contents())
    }

    fn resolve_gpiod_pin(&self, pin: &str) -> (found: Option<&GPIODPinSpec>) {
        self.get(pin)
    }
}

// ---------------------------------------------------------------------------
// Settings of requested lines
// ---------------------------------------------------------------------------

/// The line bias of a target's bias.
pub open spec fn bias_for(bias: BiasMode) -> LineBias {
    match bias {
        BiasMode::AsIs => LineBias::AsIs,
        BiasMode::Disabled => LineBias::Disabled,
        BiasMode::PullUp => LineBias::PullUp,
        BiasMode::PullDown => LineBias::PullDown,
    }
}

/// The line drive of a target's drive.
pub open spec fn drive_for(drive: DriveMode) -> LineDrive {
    match drive {
        DriveMode::PushPull => LineDrive::PushPull,
        DriveMode::OpenDrain => LineDrive::OpenDrain,
        DriveMode::OpenSource => LineDrive::OpenSource,
    }
}

/// The edge detection of a target's edges.
pub open spec fn edge_for(edge: EdgeMode) -> LineEdge {
    match edge {
        EdgeMode::Rising => LineEdge::Rising,
        EdgeMode::Falling => LineEdge::Falling,
        EdgeMode::Both => LineEdge::Both,
    }
}

/// The line bias of a target's bias.
pub fn protocol_bias_to_line_bias(bias: BiasMode) -> (result: LineBias)
    ensures
        result == bias_for(bias),
{
    match bias {
        BiasMode::AsIs => LineBias::AsIs,
        BiasMode::Disabled => LineBias::Disabled,
        BiasMode::PullUp => LineBias::PullUp,
        BiasMode::PullDown => LineBias::PullDown,
    }
}

/// The line drive of a target's drive.
pub fn protocol_drive_to_line_drive(drive: DriveMode) -> (result: LineDrive)
    ensures
        result == drive_for(drive),
{
    match drive {
        DriveMode::PushPull => LineDrive::PushPull,
        DriveMode::OpenDrain => LineDrive::OpenDrain,
        DriveMode::OpenSource => LineDrive::OpenSource,
    }
}

/// The edge detection of a target's edges.
pub fn protocol_edge_to_line_edge(edge: EdgeMode) -> (result: LineEdge)
    ensures
        result == edge_for(edge),
{
    match edge {
        EdgeMode::Rising => LineEdge::Rising,
        EdgeMode::Falling => LineEdge::Falling,
        EdgeMode::Both => LineEdge::Both,
    }
}

/// What a target asks of its pin at a position. An initial value gives its first pin the
/// highest bit.
pub open spec fn pin_state(config: TargetConfigRequest, index: int) -> MockRequestLineState {
    match config {
        TargetConfigRequest::Input { bias, .. } => MockRequestLineState {
            direction: LineDirection::Input,
            bias: match bias {
                Some(mode) => bias_for(mode),
                None => LineBias::AsIs,
            },
            ..default_line_state()
        },
        TargetConfigRequest::Output { drive, initial, .. } => MockRequestLineState {
            direction: LineDirection::Output,
            drive: match drive {
                Some(mode) => drive_for(mode),
                None => LineDrive::PushPull,
            },
            output_value: match initial {
                Some(value) => Some(
                    bit_value(bit_of(value, (config.pin_names().len() - 1 - index) as nat)),
                ),
                None => None,
            },
            ..default_line_state()
        },
        TargetConfigRequest::Trigger { edge, .. } => MockRequestLineState {
            direction: LineDirection::Input,
            edge: edge_for(edge),
            ..default_line_state()
        },
    }
}

/// What a target is for.
pub open spec fn target_mode(config: TargetConfigRequest) -> TargetMode {
    match config {
        TargetConfigRequest::Input { .. } => TargetMode::Input,
        TargetConfigRequest::Output { .. } => TargetMode::Output,
        TargetConfigRequest::Trigger { .. } => TargetMode::Trigger,
    }
}

/// The value of an output target that does not fit its pins, if there is one.
pub open spec fn wide_value(config: TargetConfigRequest) -> Option<u8> {
    match config {
        TargetConfigRequest::Output { initial, final_value, .. } => {
            let width = config.pin_names().len();
            if initial is Some && too_wide(width, initial->Some_0) {
                initial
            } else if final_value is Some && too_wide(width, final_value->Some_0) {
                final_value
            } else {
                None
            }
        },
        _ => None,
    }
}

// ---------------------------------------------------------------------------
// The plan of a session
// ---------------------------------------------------------------------------

/// The lines to request of one device and what is asked of each.
pub ghost struct RequestedLines {
    pub offsets: Seq<u32>,
    pub settings: Map<u32, MockRequestLineState>,
}

/// What a session is going to be: its targets, and the lines to request of each device.
pub ghost struct PlanModel {
    pub targets: Map<Seq<char>, TargetModel>,
    pub triggers: Map<(u32, u32), Seq<char>>,
    pub devices: Seq<Seq<char>>,
    pub requests: Seq<RequestedLines>,
    pub finals: Map<Seq<char>, u8>,
}

/// A session without targets.
pub open spec fn empty_plan() -> PlanModel {
    PlanModel {
        targets: Map::empty(),
        triggers: Map::empty(),
        devices: Seq::empty(),
        requests: Seq::empty(),
        finals: Map::empty(),
    }
}

/// The lines with one more, or with new settings for one of them.
pub open spec fn with_requested(
    lines: RequestedLines,
    offset: u32,
    state: MockRequestLineState,
) -> RequestedLines {
    RequestedLines {
        offsets: with_offsets(lines.offsets, seq![offset]),
        settings: lines.settings.insert(offset, state),
    }
}

/// The plan with a line of a device requested, and the pin that the line is.
pub open spec fn with_pin(
    plan: PlanModel,
    device: Seq<char>,
    line: u32,
    state: MockRequestLineState,
) -> (PlanModel, ResolvedPin) {
    let devices = with_device(plan.devices, device);
    let requests = if plan.devices.contains(device) {
        plan.requests
    } else {
        plan.requests.push(RequestedLines { offsets: Seq::empty(), settings: Map::empty() })
    };
    let index = devices.index_of(device);
    (
        PlanModel {
            devices,
            requests: requests.update(index, with_requested(requests[index], line, state)),
            ..plan
        },
        ResolvedPin { chip_index: index as u32, offset: line },
    )
}

/// Requests the first pins of a target, or says why one of them cannot be had: it is not
/// mapped, or it is a line that the target has already.
pub open spec fn pins_resolved(
    plan: PlanModel,
    table: Map<Seq<char>, (Seq<char>, u32)>,
    config: TargetConfigRequest,
    count: nat,
) -> Result<(PlanModel, Seq<ResolvedPin>), SessionErrorModel>
    decreases count,
{
    if count == 0 {
        Ok((plan, Seq::empty()))
    } else {
        match pins_resolved(plan, table, config, (count - 1) as nat) {
            Err(error) => Err(error),
            Ok((earlier, pins)) => {
                let name = config.pin_names()[count - 1];
                if !table.contains_key(name) {
                    Err(SessionErrorModel::UnmappedPin { pin: name })
                } else {
                    let (device, line) = table[name];
                    let (next, pin) = with_pin(
                        earlier,
                        device,
                        line,
                        pin_state(config, count - 1),
                    );
                    if pins.contains(pin) {
                        Err(SessionErrorModel::DuplicatePhysicalLocation { pin: name })
                    } else {
                        Ok((next, pins.push(pin)))
                    }
                }
            },
        }
    }
}

/// The plan with one more target, or why the target cannot be had.
pub open spec fn target_planned(
    plan: PlanModel,
    table: Map<Seq<char>, (Seq<char>, u32)>,
    name: Seq<char>,
    config: TargetConfigRequest,
) -> Result<PlanModel, SessionErrorModel> {
    match wide_value(config) {
        Some(value) => Err(
            SessionErrorModel::TargetValueOutOfRange {
                target: name,
                value,
                bits: config.pin_names().len() as usize,
            },
        ),
        None => match pins_resolved(plan, table, config, config.pin_names().len()) {
            Err(error) => Err(error),
            Ok((resolved, pins)) => Ok(
                PlanModel {
                    targets: resolved.targets.insert(
                        name,
                        TargetModel {
                            mode: target_mode(config),
                            pins,
                            single: config.names_one_pin(),
                        },
                    ),
                    triggers: if config is Trigger {
                        resolved.triggers.insert((pins[0].chip_index, pins[0].offset), name)
                    } else {
                        resolved.triggers
                    },
                    finals: match config {
                        TargetConfigRequest::Output { final_value: Some(value), .. } =>
                            resolved.finals.insert(name, value),
                        _ => resolved.finals,
                    },
                    ..resolved
                },
            ),
        },
    }
}

/// The plan of targets in order, or why the first of them that cannot be had cannot.
pub open spec fn targets_planned(
    table: Map<Seq<char>, (Seq<char>, u32)>,
    names: Seq<Seq<char>>,
    configs: Seq<TargetConfigRequest>,
) -> Result<PlanModel, SessionErrorModel>
    decreases names.len(),
{
    if names.len() == 0 {
        Ok(empty_plan())
    } else {
        match targets_planned(table, names.drop_last(), configs) {
            Err(error) => Err(error),
            Ok(plan) => target_planned(plan, table, names.last(), configs[names.len() - 1]),
        }
    }
}

proof fn lemma_pins_fault(
    plan: PlanModel,
    table: Map<Seq<char>, (Seq<char>, u32)>,
    config: TargetConfigRequest,
    count: nat,
    total: nat,
)
    requires
        count <= total,
        pins_resolved(plan, table, config, count) is Err,
    ensures
        pins_resolved(plan, table, config, total) == pins_resolved(plan, table, config, count),
    decreases total,
{
    if count < total {
        lemma_pins_fault(plan, table, config, count, (total - 1) as nat);
    }
}

proof fn lemma_targets_fault(
    table: Map<Seq<char>, (Seq<char>, u32)>,
    names: Seq<Seq<char>>,
    configs: Seq<TargetConfigRequest>,
    count: int,
)
    requires
        0 <= count <= names.len(),
        targets_planned(table, names.take(count), configs) is Err,
    ensures
        targets_planned(table, names, configs) == targets_planned(
            table,
            names.take(count),
            configs,
        ),
    decreases names.len(),
{
    if count == names.len() {
        assert(names.take(count) =~= names);
    } else {
        assert(names.drop_last().take(count) =~= names.take(count));
        lemma_targets_fault(table, names.drop_last(), configs, count);
    }
}

// ---------------------------------------------------------------------------
// Building the plan
// ---------------------------------------------------------------------------

/// The lines that a configuration requests.
pub open spec fn requested(config: MockLineConfig) -> RequestedLines {
    RequestedLines { offsets: config.offsets(), settings: request_settings(config.lines()) }
}

/// The lines that configurations request.
pub open spec fn all_requested(configs: Seq<MockLineConfig>) -> Seq<RequestedLines> {
    Seq::new(configs.len(), |i: int| requested(configs[i]))
}

/// The configurations in slots that hold one each.
pub open spec fn slot_configs(slots: Seq<Option<MockLineConfig>>) -> Seq<MockLineConfig> {
    Seq::new(slots.len(), |i: int| slots[i]->Some_0)
}

/// Whether a slot holds the configuration of a device: no line stands in it twice, and values
/// to drive stand only in the settings of its lines.
pub open spec fn holds_request(slot: Option<MockLineConfig>) -> bool {
    slot matches Some(config) && config.wf() && config.overrides() is None
}

/// Collects the targets of a session and the lines to request for them.
pub struct GPIODTargetsBuilder {
    chip_indices: ChipIndices<MockLineConfig>,
    compiled_targets: CompiledTargets,
    finals: NameMap<u8>,
}

proof fn lemma_with_one_offset(offsets: Seq<u32>, offset: u32)
    ensures
        with_offsets(offsets, seq![offset]) == if offsets.contains(offset) {
            offsets
        } else {
            offsets.push(offset)
        },
{
    reveal_with_fuel(with_offsets, 2);
    assert(seq![offset].drop_last() =~= Seq::<u32>::empty());
}

impl GPIODTargetsBuilder {
    /// The plan so far.
    pub closed spec fn view(&self) -> PlanModel {
        PlanModel {
            targets: self.compiled_targets.targets(),
            triggers: self.compiled_targets.triggers(),
            devices: self.chip_indices.devices(),
            requests: all_requested(slot_configs(self.chip_indices.slots())),
            finals: self.finals.contents(),
        }
    }

    /// Every device has one number and lines to request.
    pub closed spec fn wf(&self) -> bool {
        &&& self.chip_indices.wf()
        &&& forall|i: int|
            0 <= i < self.chip_indices.slots().len() ==> holds_request(
                #[trigger] self.chip_indices.slots()[i],
            )
    }

    /// No targets.
    pub fn new() -> (builder: Self)
        ensures
            builder.wf(),
            builder@ == empty_plan(),
    {
        let builder = GPIODTargetsBuilder {
            chip_indices: ChipIndices::new(),
            compiled_targets: CompiledTargets::new(),
            finals: NameMap::new(),
        };
        assert(builder@.requests =~= Seq::<RequestedLines>::empty());
        builder
    }

    fn resolve_mapped_pin<C: SessionConfig>(
        &mut self,
        config: &C,
        settings: &MockLineSettings,
        pin: &str,
    ) -> (result: Result<ResolvedPin, SessionError>)
        requires
            old(self).wf(),
            old(self)@.devices.len() < u32::MAX,
        ensures
            final(self).wf(),
            final(self)@.devices.len() <= old(self)@.devices.len() + 1,
            match result {
                Ok(found) => {
                    &&& config.table().contains_key(pin@)
                    &&& (final(self)@, found) == with_pin(
                        old(self)@,
                        config.table()[pin@].0,
                        config.table()[pin@].1,
                        settings.state(),
                    )
                },
                Err(error) => {
                    &&& !config.table().contains_key(pin@)
                    &&& error@ == (SessionErrorModel::UnmappedPin { pin: pin@ })
                    &&& final(self)@ == old(self)@
                },
            },
    {
        let spec = match config.resolve_gpiod_pin(pin) {
            Some(spec) => spec,
            None => return Err(SessionError::UnmappedPin { pin: pin.to_owned() }),
        };
        let ghost before = self@;
        let ghost device = spec.device@;
        let ghost line = spec.line;
        let ghost devices_before = self.chip_indices.devices();
        let ghost slots_before = self.chip_indices.slots();
        let ghost slots_between = with_slot(devices_before, slots_before, device);
        let (resolved, slot) = self.chip_indices.resolve(spec.device.as_str(), spec.line);
        let ghost at = resolved.chip_index as int;
        proof {
            let devices = with_device(devices_before, device);
            assert(devices.contains(device)) by {
                if !devices_before.contains(device) {
                    assert(devices[devices_before.len() as int] == device);
                }
            }
            assert(devices[at] == device);
            if devices_before.contains(device) {
                assert(holds_request(slots_before[at]));
            } else {
                assert(at == devices_before.len()) by {
                    if at < devices_before.len() {
                        assert(devices_before[at] == device);
                    }
                }
            }
        }
        let offsets: [u32; 1] = [resolved.offset];
        let mut line_config = match slot.take() {
            Some(line_config) => line_config,
            None => MockLineConfig::new(),
        };
        let ghost old_config = line_config;
        let _ = line_config.add_line_settings(&offsets, settings);
        let ghost new_config = line_config;
        *slot = Some(line_config);
        proof {
            assert(offsets@ =~= seq![line]);
            assert(offsets@.contains(line)) by {
                assert(offsets@[0] == line);
            }
            lemma_with_one_offset(old_config.offsets(), line);
            assert(requested(new_config) == with_requested(
                requested(old_config),
                line,
                settings.state(),
            )) by {
                let now = request_settings(new_config.lines());
                let expected = request_settings(old_config.lines()).insert(line, settings.state());
                assert forall|offset: u32| now.contains_key(offset) == expected.contains_key(
                    offset,
                ) by {
                    if old_config.offsets().contains(offset) {
                        let k = choose|k: int|
                            0 <= k < old_config.offsets().len() && old_config.offsets()[k]
                                == offset;
                        assert(new_config.offsets()[k] == offset);
                    }
                    if !old_config.offsets().contains(line) {
                        assert(new_config.offsets()[old_config.offsets().len() as int] == line);
                    }
                }
                assert forall|offset: u32| now.contains_key(offset) implies now[offset]
                    == expected[offset] by {
                    assert(state_at(new_config.lines(), offset) == if offsets@.contains(offset) {
                        settings.state()
                    } else {
                        state_at(old_config.lines(), offset)
                    });
                }
                assert(now =~= expected);
            }
        }
        proof {
            let after = self.chip_indices.slots();
            assert(after =~= slots_between.update(at, Some(new_config)));
            assert forall|i: int| 0 <= i < after.len() implies holds_request(
                #[trigger] after[i],
            ) by {
                if i != at {
                    assert(after[i] == slots_before[i]);
                }
            }
            let requests = if devices_before.contains(device) {
                before.requests
            } else {
                before.requests.push(
                    RequestedLines { offsets: Seq::empty(), settings: Map::empty() },
                )
            };
            assert(requests[at] == requested(old_config)) by {
                if !devices_before.contains(device) {
                    assert(requested(old_config).offsets =~= Seq::<u32>::empty());
                    assert(requested(old_config).settings
                        =~= Map::<u32, MockRequestLineState>::empty());
                }
            }
            assert(self@.requests =~= requests.update(
                at,
                with_requested(requests[at], line, settings.state()),
            ));
        }
        Ok(resolved)
    }
}

/// The settings of a target's pin at a position.
fn pin_settings(target: &TargetConfigRequest, index: usize) -> (settings: MockLineSettings)
    requires
        index < target.pin_names().len(),
        target.pin_names().len() <= 8,
    ensures
        settings.state() == pin_state(*target, index as int),
{
    let mut settings = MockLineSettings::new();
    match target {
        TargetConfigRequest::Input { pin: _, bias } => {
            let _ = settings.set_direction(LineDirection::Input);
            if let Some(mode) = bias {
                let _ = settings.set_bias(protocol_bias_to_line_bias(*mode));
            }
        },
        TargetConfigRequest::Output { pin, drive, initial, final_value: _ } => {
            let _ = settings.set_direction(LineDirection::Output);
            if let Some(mode) = drive {
                let _ = settings.set_drive(protocol_drive_to_line_drive(*mode));
            }
            if let Some(value) = initial {
                let byte: u8 = *value;
                let shift: u8 = (pin.len() - 1 - index) as u8;
                let bit: u8 = (byte >> shift) & 1;
                assert((byte >> shift) & 1 == 0 || (byte >> shift) & 1 == 1) by (bit_vector);
                let _ = settings.set_output_value(bit_to_line_value(bit));
            }
        },
        TargetConfigRequest::Trigger { pin: _, edge } => {
            let _ = settings.set_direction(LineDirection::Input);
            let _ = settings.set_edge_detection(protocol_edge_to_line_edge(*edge));
        },
    }
    settings
}

fn find_wide_value(target: &TargetConfigRequest) -> (value: Option<u8>)
    ensures
        value == wide_value(*target),
{
    match target {
        TargetConfigRequest::Output { pin, drive: _, initial, final_value } => {
            let width: usize = pin.len();
            if let Some(value) = initial {
                if exceeds_width(width, *value) {
                    return Some(*value);
                }
            }
            if let Some(value) = final_value {
                if exceeds_width(width, *value) {
                    return Some(*value);
                }
            }
            None
        },
        _ => None,
    }
}

fn pin_count(target: &TargetConfigRequest) -> (count: usize)
    ensures
        count == target.pin_names().len(),
{
    match target {
        TargetConfigRequest::Input { pin, .. } => pin.len(),
        TargetConfigRequest::Output { pin, .. } => pin.len(),
        TargetConfigRequest::Trigger { .. } => 1,
    }
}

fn pin_name(target: &TargetConfigRequest, index: usize) -> (name: &str)
    requires
        index < target.pin_names().len(),
    ensures
        name@ == target.pin_names()[index as int],
{
    match target {
        TargetConfigRequest::Input { pin, .. } => pin.name_at(index),
        TargetConfigRequest::Output { pin, .. } => pin.name_at(index),
        TargetConfigRequest::Trigger { pin, .. } => pin.as_str(),
    }
}

fn contains_pin(pins: &PinList, pin: ResolvedPin) -> (found: bool)
    ensures
        found == pins@.contains(pin),
{
    let slice = pins.as_slice();
    let mut index: usize = 0;
    while index < slice.len()
        invariant
            slice@ == pins@,
            index <= slice@.len(),
            forall|i: int| 0 <= i < index ==> slice@[i] != pin,
        decreases slice@.len() - index,
    {
        if slice[index] == pin {
            return true;
        }
        index += 1;
    }
    false
}

impl GPIODTargetsBuilder {
    fn handle_pin_selector<C: SessionConfig>(
        &mut self,
        config: &C,
        target: &TargetConfigRequest,
    ) -> (result: Result<PinList, SessionError>)
        requires
            old(self).wf(),
            target.pin_names().len() <= 8,
            old(self)@.devices.len() + 8 < u32::MAX,
        ensures
            final(self).wf(),
            final(self)@.devices.len() <= old(self)@.devices.len() + 8,
            match (
                result,
                pins_resolved(old(self)@, config.table(), *target, target.pin_names().len()),
            ) {
                (Ok(pins), Ok(expected)) => final(self)@ == expected.0 && pins@ == expected.1,
                (Err(error), Err(expected)) => error@ == expected,
                _ => false,
            },
    {
        let mut pins = PinList::new();
        let count: usize = pin_count(target);
        let ghost before = self@;
        let ghost table = config.table();
        let mut index: usize = 0;
        while index < count
            invariant
                index <= count,
                count == target.pin_names().len(),
                count <= 8,
                before == old(self)@,
                table == config.table(),
                self.wf(),
                self@.devices.len() <= before.devices.len() + index,
                before.devices.len() + 8 < u32::MAX,
                pins_resolved(before, table, *target, index as nat) == Ok::<
                    (PlanModel, Seq<ResolvedPin>),
                    SessionErrorModel,
                >((self@, pins@)),
            decreases count - index,
        {
            proof {
                if pins_resolved(before, table, *target, (index + 1) as nat) is Err {
                    lemma_pins_fault(before, table, *target, (index + 1) as nat, count as nat);
                }
            }
            let name = pin_name(target, index);
            let settings = pin_settings(target, index);
            let resolved = match self.resolve_mapped_pin(config, &settings, name) {
                Ok(resolved) => resolved,
                Err(error) => return Err(error),
            };
            if contains_pin(&pins, resolved) {
                return Err(SessionError::DuplicatePhysicalLocation { pin: name.to_owned() });
            }
            pins.push(resolved);
            index += 1;
        }
        Ok(pins)
    }

    /// Adds a target to the plan.
    pub fn handle_target<C: SessionConfig>(
        self,
        config: &C,
        target_name: &str,
        target: &TargetConfigRequest,
    ) -> (result: Result<Self, SessionError>)
        requires
            self.wf(),
            1 <= target.pin_names().len() <= 8,
            self@.devices.len() + 8 < u32::MAX,
        ensures
            match (result, target_planned(self@, config.table(), target_name@, *target)) {
                (Ok(builder), Ok(expected)) => {
                    &&& builder@ == expected
                    &&& builder.wf()
                    &&& builder@.devices.len() <= self@.devices.len() + 8
                },
                (Err(error), Err(expected)) => error@ == expected,
                _ => false,
            },
    {
        let mut builder = self;
        if let Some(value) = find_wide_value(target) {
            return Err(
                SessionError::TargetValueOutOfRange {
                    target: target_name.to_owned(),
                    value,
                    bits: pin_count(target),
                },
            );
        }
        let list = match builder.handle_pin_selector(config, target) {
            Ok(list) => list,
            Err(error) => return Err(error),
        };
        let ghost pins = list@;
        let ghost resolved = builder@;
        proof {
            lemma_pins_count(self@, config.table(), *target, target.pin_names().len());
        }
        let first = list.as_slice()[0];
        let mode = match target {
            TargetConfigRequest::Input { .. } => TargetMode::Input,
            TargetConfigRequest::Output { .. } => TargetMode::Output,
            TargetConfigRequest::Trigger { .. } => TargetMode::Trigger,
        };
        let single = match target {
            TargetConfigRequest::Input { pin: PinSelector::Combined(_), .. } => false,
            TargetConfigRequest::Output { pin: PinSelector::Combined(_), .. } => false,
            _ => true,
        };
        let resolved_pins = if single {
            assert(pins =~= seq![first]);
            ResolvedPins::Single(first)
        } else {
            ResolvedPins::Combined(list)
        };
        let GPIODTargetsBuilder { chip_indices, compiled_targets, finals } = builder;
        let CompiledTargets { by_name, mut trigger_by_pin } = compiled_targets;
        let ghost names_before = by_name.contents();
        let ghost triggers_before = trigger_by_pin@;
        if mode == TargetMode::Trigger {
            trigger_by_pin.insert((first.chip_index, first.offset), target_name.to_owned());
        }
        let compiled_target = CompiledTarget { mode, pins: resolved_pins };
        let by_name = by_name.with(target_name.to_owned(), compiled_target);
        let finals = match target {
            TargetConfigRequest::Output { final_value: Some(value), .. } => finals.with(
                target_name.to_owned(),
                *value,
            ),
            _ => finals,
        };
        let builder = GPIODTargetsBuilder {
            chip_indices,
            compiled_targets: CompiledTargets { by_name, trigger_by_pin },
            finals,
        };
        proof {
            assert(builder@.targets =~= resolved.targets.insert(
                target_name@,
                TargetModel { mode: target_mode(*target), pins, single },
            ));
            assert(builder@.triggers =~= target_planned(
                self@,
                config.table(),
                target_name@,
                *target,
            )->Ok_0.triggers);
        }
        Ok(builder)
    }
}

proof fn lemma_pins_count(
    plan: PlanModel,
    table: Map<Seq<char>, (Seq<char>, u32)>,
    config: TargetConfigRequest,
    count: nat,
)
    requires
        pins_resolved(plan, table, config, count) is Ok,
    ensures
        pins_resolved(plan, table, config, count)->Ok_0.1.len() == count,
    decreases count,
{
    if count > 0 {
        lemma_pins_count(plan, table, config, (count - 1) as nat);
    }
}

// ---------------------------------------------------------------------------
// The session
// ---------------------------------------------------------------------------

/// A session whose `init` succeeded.
#[derive(Debug, PartialEq, Eq)]
pub struct InitializedSession {
    pub init_request_id: String,
    pub compiled_targets: CompiledTargets,
    pub chips: usize,
    /// Values to write when the session closes.
    pub finals: NameMap<u8>,
}

/// Whether targets can be those of an `init`: each has one to eight pins, and there are not
/// more of them than chips can be numbered.
pub open spec fn valid_init(request: NameMap<TargetConfigRequest>) -> bool {
    &&& request.values().len() * 8 + 8 < u32::MAX
    &&& forall|i: int|
        0 <= i < request.values().len() ==> 1 <= (
        #[trigger] request.values()[i]).pin_names().len() <= 8
}

proof fn lemma_pins_keep_targets(
    plan: PlanModel,
    table: Map<Seq<char>, (Seq<char>, u32)>,
    config: TargetConfigRequest,
    count: nat,
)
    requires
        pins_resolved(plan, table, config, count) is Ok,
    ensures
        pins_resolved(plan, table, config, count)->Ok_0.0.targets == plan.targets,
        pins_resolved(plan, table, config, count)->Ok_0.0.triggers == plan.triggers,
        pins_resolved(plan, table, config, count)->Ok_0.0.finals == plan.finals,
    decreases count,
{
    if count > 0 {
        lemma_pins_keep_targets(plan, table, config, (count - 1) as nat);
    }
}

/// The targets of a plan are those that were asked for. Each has as many pins as it names, and
/// has a single pin exactly where it names one by itself.
pub proof fn planned_targets_are_those_asked_for(
    table: Map<Seq<char>, (Seq<char>, u32)>,
    names: Seq<Seq<char>>,
    configs: Seq<TargetConfigRequest>,
)
    requires
        names.len() <= configs.len(),
        targets_planned(table, names, configs) is Ok,
        names.no_duplicates(),
    ensures
        ({
            let plan = targets_planned(table, names, configs)->Ok_0;
            &&& plan.targets.dom() == names.to_set()
            &&& forall|i: int|
                #![trigger names[i]]
                0 <= i < names.len() ==> {
                    &&& plan.targets.contains_key(names[i])
                    &&& plan.targets[names[i]].mode == target_mode(configs[i])
                    &&& plan.targets[names[i]].pins.len() == configs[i].pin_names().len()
                    &&& plan.targets[names[i]].single == configs[i].names_one_pin()
                }
        }),
    decreases names.len(),
{
    let plan = targets_planned(table, names, configs)->Ok_0;
    if names.len() == 0 {
        assert(plan.targets.dom() =~= names.to_set());
    } else {
        let front = names.drop_last();
        planned_targets_are_those_asked_for(table, front, configs);
        let earlier = targets_planned(table, front, configs)->Ok_0;
        let config = configs[names.len() - 1];
        lemma_pins_count(earlier, table, config, config.pin_names().len());
        lemma_pins_keep_targets(earlier, table, config, config.pin_names().len());
        assert(plan.targets.dom() =~= names.to_set()) by {
            assert forall|name: Seq<char>| plan.targets.dom().contains(name)
                == names.to_set().contains(name) by {
                assert(front.to_set().contains(name) == front.contains(name));
                if front.contains(name) {
                    let k = choose|k: int| 0 <= k < front.len() && front[k] == name;
                    assert(names[k] == name);
                }
                if names.contains(name) && name != names.last() {
                    let k = choose|k: int| 0 <= k < names.len() && names[k] == name;
                    assert(front[k] == name);
                }
                assert(names[names.len() - 1] == names.last());
            }
        }
        assert forall|i: int| #![trigger names[i]] 0 <= i < names.len() implies {
            &&& plan.targets.contains_key(names[i])
            &&& plan.targets[names[i]].mode == target_mode(configs[i])
            &&& plan.targets[names[i]].pins.len() == configs[i].pin_names().len()
            &&& plan.targets[names[i]].single == configs[i].names_one_pin()
        } by {
            if i < front.len() {
                assert(front[i] == names[i]);
                assert(names[i] != names[names.len() - 1]);
            }
        }
    }
}

/// The devices with what their slots hold, none of which is empty.
fn filled(slots: Vec<(String, Option<MockLineConfig>)>) -> (devices: Vec<(String, MockLineConfig)>)
    requires
        forall|i: int| 0 <= i < slots@.len() ==> (#[trigger] slots@[i]).1 is Some,
    ensures
        devices@.len() == slots@.len(),
        forall|i: int|
            0 <= i < slots@.len() ==> (#[trigger] devices@[i]).0 == slots@[i].0 && slots@[i].1
                == Some(devices@[i].1),
{
    let ghost all = slots@;
    let mut devices: Vec<(String, MockLineConfig)> = Vec::new();
    for entry in iter: slots
        invariant
            iter.seq() == all,
            forall|i: int| 0 <= i < all.len() ==> (#[trigger] all[i]).1 is Some,
            devices@.len() == iter.index(),
            forall|i: int|
                0 <= i < devices@.len() ==> (#[trigger] devices@[i]).0 == all[i].0 && all[i].1
                    == Some(devices@[i].1),
    {
        assert(entry == all[iter.index()]);
        let (device, slot) = entry;
        if let Some(config) = slot {
            devices.push((device, config));
        }
    }
    devices
}

impl InitializedSession {
    /// The targets by name.
    pub open spec fn targets(&self) -> Map<Seq<char>, TargetModel> {
        self.compiled_targets.targets()
    }

    /// The session of a plan.
    pub open spec fn follows(&self, plan: PlanModel) -> bool {
        &&& self.compiled_targets.targets() == plan.targets
        &&& self.compiled_targets.triggers() == plan.triggers
        &&& self.chips == plan.devices.len()
        &&& self.finals.contents() == plan.finals
    }

    /// Every target fits a byte.
    pub open spec fn wf(&self) -> bool {
        narrow(self.targets())
    }

    /// Sets up a session: resolves its targets, in the order of their names, and gathers the
    /// lines to request of each device, in the order in which devices are first named.
    pub fn initialize<C: SessionConfig>(
        init_request_id: String,
        request: &NameMap<TargetConfigRequest>,
        config: &C,
    ) -> (result: Result<(Self, Vec<(String, MockLineConfig)>), SessionError>)
        requires
            valid_init(*request),
        ensures
            match (result, targets_planned(config.table(), request.names(), request.values())) {
                (Ok((session, devices)), Ok(plan)) => {
                    &&& session.init_request_id@ == init_request_id@
                    &&& session.follows(plan)
                    &&& session.wf()
                    &&& devices@.len() == plan.devices.len()
                    &&& devices@.len() == plan.requests.len()
                    &&& forall|i: int|
                        0 <= i < devices@.len() ==> {
                            &&& (#[trigger] devices@[i]).0@ == plan.devices[i]
                            &&& requested(devices@[i].1) == plan.requests[i]
                            &&& devices@[i].1.wf()
                            &&& devices@[i].1.overrides() is None
                        }
                },
                (Err(error), Err(expected)) => error@ == expected,
                _ => false,
            },
    {
        let count: usize = request.len();
        let ghost names = request.names();
        let ghost configs = request.values();
        let ghost table = config.table();
        let mut builder = GPIODTargetsBuilder::new();
        let mut index: usize = 0;
        assert(names.take(0) =~= Seq::<Seq<char>>::empty());
        while index < count
            invariant
                index <= count,
                count == names.len(),
                names == request.names(),
                configs == request.values(),
                names.len() == configs.len(),
                table == config.table(),
                valid_init(*request),
                builder.wf(),
                builder@.devices.len() <= 8 * index,
                targets_planned(table, names.take(index as int), configs) == Ok::<
                    PlanModel,
                    SessionErrorModel,
                >(builder@),
            decreases count - index,
        {
            let ghost prefix = names.take(index + 1);
            proof {
                assert(prefix.drop_last() =~= names.take(index as int));
                if targets_planned(table, prefix, configs) is Err {
                    lemma_targets_fault(table, names, configs, index + 1);
                }
            }
            let target = request.value_at(index);
            assert(*target == configs[index as int]);
            builder = match builder.handle_target(config, request.name_at(index).as_str(), target) {
                Ok(builder) => builder,
                Err(error) => return Err(error),
            };
            index += 1;
        }
        assert(names.take(index as int) =~= names);
        let ghost plan = builder@;
        proof {
            lemma_ascending_distinct(names);
            planned_targets_are_those_asked_for(table, names, configs);
            assert forall|name: Seq<char>| #[trigger] plan.targets.contains_key(name) implies
                plan.targets[name].pins.len() <= 8 by {
                assert(names.to_set().contains(name));
                let k = choose|k: int| 0 <= k < names.len() && names[k] == name;
                assert(1 <= configs[k].pin_names().len() <= 8);
            }
        }
        let GPIODTargetsBuilder { chip_indices, compiled_targets, finals } = builder;
        let slots = chip_indices.collect();
        proof {
            assert forall|i: int| 0 <= i < slots@.len() implies (#[trigger] slots@[i]).1 is Some by {
                assert(holds_request(chip_indices.slots()[i]));
            }
        }
        let devices = filled(slots);
        let session = InitializedSession {
            init_request_id,
            compiled_targets,
            chips: devices.len(),
            finals,
        };
        proof {
            assert forall|i: int| 0 <= i < devices@.len() implies {
                &&& (#[trigger] devices@[i]).0@ == plan.devices[i]
                &&& requested(devices@[i].1) == plan.requests[i]
                &&& devices@[i].1.wf()
                &&& devices@[i].1.overrides() is None
            } by {
                assert(holds_request(chip_indices.slots()[i]));
                assert(slots@[i].1 == Some(devices@[i].1));
            }
        }
        Ok((session, devices))
    }

    /// How many chips the session has.
    pub fn chip_count(&self) -> (count: usize)
        ensures
            count == self.chips,
    {
        self.chips
    }
}

/// Why a device cannot be opened, as an error of the session.
pub open spec fn open_fault(device: Seq<char>, error: GPIOErrorModel) -> SessionErrorModel {
    match error {
        GPIOErrorModel::Io(_) => SessionErrorModel::UnavailableDeviceFile { device },
        other => SessionErrorModel::GPIO(other),
    }
}

/// Why lines cannot be requested, as an error of the session.
pub open spec fn request_fault(device: Seq<char>, error: GPIOErrorModel) -> SessionErrorModel {
    match error {
        GPIOErrorModel::InvalidOffset(line) => SessionErrorModel::MissingLine { device, line },
        other => SessionErrorModel::GPIO(other),
    }
}

/// Why a device cannot be opened, as an error of the session.
pub fn map_open_chip_error(device: &str, error: GPIOError) -> (result: SessionError)
    ensures
        result@ == open_fault(device@, error@),
{
    match error {
        GPIOError::Io(_) => SessionError::UnavailableDeviceFile { device: device.to_owned() },
        other => SessionError::GPIO(other),
    }
}

/// Why lines cannot be requested, as an error of the session.
pub fn map_request_lines_error(device: &str, error: GPIOError) -> (result: SessionError)
    ensures
        result@ == request_fault(device@, error@),
{
    match error {
        GPIOError::InvalidOffset(line) => SessionError::MissingLine {
            device: device.to_owned(),
            line,
        },
        other => SessionError::GPIO(other),
    }
}

} // verus!

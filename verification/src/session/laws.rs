//! What holds of the plan of a session.

use vstd::prelude::*;

use crate::gpio::libgpiod::LineDirection;
use crate::gpio::libgpiod::LineValue;
use crate::gpio::mock::chip::held_line;
use crate::gpio::mock::chip::lemma_no_conflict;
use crate::gpio::mock::chip::request_outcome;
use crate::gpio::mock::chip::request_settings;
use crate::gpio::mock::config::MockLineConfig;
use crate::gpio::mock::config::MockRequestLineState;
use crate::gpio::mock::config::state_at;
use crate::gpio::mock::snapshot::level_conversion_round_trips;
use crate::gpio::mock::snapshot::logical_value;
use crate::gpio::mock::state::ChipStateModel;
use crate::gpio::traits::LineConfig;
use crate::gpio::traits::with_offsets;
use crate::protocol::request::TargetConfigRequest;
use crate::session::batch::write_added_keeps_writes;
use crate::session::batch::writes;
use crate::session::batch::writes_once;
use crate::session::batch::ChipBatch;
use crate::session::compiled::with_device;
use crate::session::compiled::TargetModel;
use crate::session::execute::bit_of;
use crate::session::execute::bit_value;
use crate::session::execute::empty_batch;
use crate::session::execute::set_batch;
use crate::session::execute::set_pins_added;
use crate::session::execute::too_wide;
use crate::session::initialized::pin_state;
use crate::session::initialized::pins_resolved;
use crate::session::initialized::requested;
use crate::session::initialized::target_planned;
use crate::session::initialized::targets_planned;
use crate::session::initialized::with_pin;
use crate::session::initialized::PlanModel;
use crate::session::initialized::RequestedLines;
use crate::session::pins::ResolvedPin;
use crate::session::state::SessionErrorModel;

verus! {

/// Whether a pin of a plan is the line that its name is mapped to, and is requested of its
/// device.
pub open spec fn pin_served(
    plan: PlanModel,
    table: Map<Seq<char>, (Seq<char>, u32)>,
    name: Seq<char>,
    pin: ResolvedPin,
) -> bool {
    &&& table.contains_key(name)
    &&& pin.chip_index < plan.devices.len()
    &&& plan.devices[pin.chip_index as int] == table[name].0
    &&& pin.offset == table[name].1
    &&& plan.requests[pin.chip_index as int].offsets.contains(pin.offset)
}

/// Whether a plan lists every device once, each with its lines.
pub open spec fn devices_once(plan: PlanModel) -> bool {
    &&& plan.devices.no_duplicates()
    &&& plan.devices.len() == plan.requests.len()
}

/// Whether a plan has the devices and the lines of an earlier one.
spec fn extends(before: PlanModel, after: PlanModel) -> bool {
    &&& before.devices.len() <= after.devices.len()
    &&& before.requests.len() <= after.requests.len()
    &&& forall|i: int|
        0 <= i < before.devices.len() ==> #[trigger] after.devices[i] == before.devices[i]
    &&& forall|i: int, offset: u32|
        0 <= i < before.requests.len() && before.requests[i].offsets.contains(offset)
            ==> #[trigger] after.requests[i].offsets.contains(offset)
}

proof fn lemma_extends_served(
    before: PlanModel,
    after: PlanModel,
    table: Map<Seq<char>, (Seq<char>, u32)>,
    name: Seq<char>,
    pin: ResolvedPin,
)
    requires
        devices_once(before),
        extends(before, after),
        pin_served(before, table, name, pin),
    ensures
        pin_served(after, table, name, pin),
{
    let chip = pin.chip_index as int;
    assert(after.devices[chip] == before.devices[chip]);
    assert(before.requests[chip].offsets.contains(pin.offset));
}

proof fn lemma_with_offset(offsets: Seq<u32>, offset: u32)
    ensures
        with_offsets(offsets, seq![offset]).contains(offset),
        forall|other: u32| offsets.contains(other) ==> #[trigger] with_offsets(
            offsets,
            seq![offset],
        ).contains(other),
{
    let one = seq![offset];
    assert(one.drop_last() =~= Seq::<u32>::empty());
    reveal_with_fuel(with_offsets, 3);
    let after = with_offsets(offsets, one);
    if !offsets.contains(offset) {
        assert(after =~= offsets.push(offset));
        assert(after[offsets.len() as int] == offset);
        assert forall|other: u32| offsets.contains(other) implies #[trigger] after.contains(
            other,
        ) by {
            let k = choose|k: int| 0 <= k < offsets.len() && offsets[k] == other;
            assert(after[k] == other);
        }
    }
}

proof fn lemma_with_pin(
    plan: PlanModel,
    table: Map<Seq<char>, (Seq<char>, u32)>,
    name: Seq<char>,
    state: MockRequestLineState,
)
    requires
        devices_once(plan),
        table.contains_key(name),
        with_pin(plan, table[name].0, table[name].1, state).0.devices.len() <= u32::MAX,
    ensures
        ({
            let (after, pin) = with_pin(plan, table[name].0, table[name].1, state);
            &&& devices_once(after)
            &&& extends(plan, after)
            &&& pin_served(after, table, name, pin)
        }),
{
    let (device, line) = table[name];
    let (after, pin) = with_pin(plan, device, line, state);
    let devices = with_device(plan.devices, device);
    if !plan.devices.contains(device) {
        assert(devices == plan.devices.push(device));
        assert(devices[plan.devices.len() as int] == device);
        assert forall|i: int, j: int| 0 <= i < devices.len() && 0 <= j < devices.len() && i
            != j implies devices[i] != devices[j] by {
            if i < plan.devices.len() && j < plan.devices.len() {
            } else if i < plan.devices.len() {
                assert(plan.devices.contains(plan.devices[i]));
            } else {
                assert(plan.devices.contains(plan.devices[j]));
            }
        }
    }
    assert(devices.contains(device));
    let index = devices.index_of(device);
    assert(0 <= index < devices.len() && devices[index] == device);
    let requests = if plan.devices.contains(device) {
        plan.requests
    } else {
        plan.requests.push(
            RequestedLines {
                offsets: Seq::empty(),
                settings: Map::empty(),
            },
        )
    };
    lemma_with_offset(requests[index].offsets, line);
    assert(after.requests[index].offsets == with_offsets(requests[index].offsets, seq![line]));
    assert forall|i: int, offset: u32|
        0 <= i < plan.requests.len() && plan.requests[i].offsets.contains(offset) implies
        #[trigger] after.requests[i].offsets.contains(offset) by {
        assert(requests[i] == plan.requests[i]);
        if i != index {
            assert(after.requests[i] == requests[i]);
        }
    }
}

proof fn lemma_pins_served(
    plan: PlanModel,
    table: Map<Seq<char>, (Seq<char>, u32)>,
    config: TargetConfigRequest,
    count: nat,
)
    requires
        devices_once(plan),
        count <= config.pin_names().len(),
        pins_resolved(plan, table, config, count) is Ok,
        pins_resolved(plan, table, config, count)->Ok_0.0.devices.len() <= u32::MAX,
    ensures
        ({
            let (after, pins) = pins_resolved(plan, table, config, count)->Ok_0;
            &&& devices_once(after)
            &&& extends(plan, after)
            &&& pins.len() == count
            &&& pins.no_duplicates()
            &&& forall|i: int|
                0 <= i < count ==> pin_served(
                    after,
                    table,
                    config.pin_names()[i],
                    #[trigger] pins[i],
                )
        }),
    decreases count,
{
    if count > 0 {
        let (earlier, before) = pins_resolved(plan, table, config, (count - 1) as nat)->Ok_0;
        let (after, pins) = pins_resolved(plan, table, config, count)->Ok_0;
        let name = config.pin_names()[count - 1];
        let state = pin_state(config, count - 1);
        assert(after == with_pin(earlier, table[name].0, table[name].1, state).0);
        assert(after.devices.len() >= earlier.devices.len());
        lemma_pins_served(plan, table, config, (count - 1) as nat);
        lemma_with_pin(earlier, table, name, state);
        assert forall|i: int| 0 <= i < count implies pin_served(
            after,
            table,
            config.pin_names()[i],
            #[trigger] pins[i],
        ) by {
            if i < count - 1 {
                assert(pins[i] == before[i]);
                lemma_extends_served(earlier, after, table, config.pin_names()[i], before[i]);
            }
        }
        lemma_extends_transitive(plan, earlier, after);
        assert forall|i: int, j: int| 0 <= i < pins.len() && 0 <= j < pins.len() && i
            != j implies pins[i] != pins[j] by {
            if i < count - 1 && j < count - 1 {
                assert(before[i] != before[j]);
            } else if i < count - 1 {
                assert(before.contains(before[i]));
            } else {
                assert(before.contains(before[j]));
            }
        }
    }
}

proof fn lemma_extends_transitive(a: PlanModel, b: PlanModel, c: PlanModel)
    requires
        extends(a, b),
        extends(b, c),
    ensures
        extends(a, c),
{
    assert forall|i: int| 0 <= i < a.devices.len() implies #[trigger] c.devices[i]
        == a.devices[i] by {
        assert(b.devices[i] == a.devices[i]);
    }
    assert forall|i: int, offset: u32|
        0 <= i < a.requests.len() && a.requests[i].offsets.contains(offset) implies
        #[trigger] c.requests[i].offsets.contains(offset) by {
        assert(b.requests[i].offsets.contains(offset));
    }
}

proof fn lemma_resolved_grows(
    plan: PlanModel,
    table: Map<Seq<char>, (Seq<char>, u32)>,
    config: TargetConfigRequest,
    count: nat,
)
    requires
        pins_resolved(plan, table, config, count) is Ok,
    ensures
        pins_resolved(plan, table, config, count)->Ok_0.0.devices.len() >= plan.devices.len(),
        pins_resolved(plan, table, config, count)->Ok_0.0.targets == plan.targets,
    decreases count,
{
    if count > 0 {
        lemma_resolved_grows(plan, table, config, (count - 1) as nat);
    }
}

/// Every pin of every target is the line that its name is mapped to, is requested of the
/// device of that line, and occurs once in its target. Every device is opened once.
pub proof fn planned_pins_are_requested_lines(
    table: Map<Seq<char>, (Seq<char>, u32)>,
    names: Seq<Seq<char>>,
    configs: Seq<TargetConfigRequest>,
)
    requires
        names.len() <= configs.len(),
        names.no_duplicates(),
        targets_planned(table, names, configs) is Ok,
        targets_planned(table, names, configs)->Ok_0.devices.len() <= u32::MAX,
    ensures
        ({
            let plan = targets_planned(table, names, configs)->Ok_0;
            &&& devices_once(plan)
            &&& forall|t: int|
                0 <= t < names.len() ==> {
                    &&& plan.targets[#[trigger] names[t]].pins.no_duplicates()
                    &&& plan.targets[names[t]].pins.len() == configs[t].pin_names().len()
                }
            &&& forall|t: int, i: int|
                #![trigger plan.targets[names[t]].pins[i]]
                0 <= t < names.len() && 0 <= i < configs[t].pin_names().len() ==> pin_served(
                    plan,
                    table,
                    configs[t].pin_names()[i],
                    plan.targets[names[t]].pins[i],
                )
        }),
    decreases names.len(),
{
    if names.len() > 0 {
        let front = names.drop_last();
        let last = names.len() - 1;
        let config = configs[last];
        let count = config.pin_names().len();
        let earlier = targets_planned(table, front, configs)->Ok_0;
        let plan = targets_planned(table, names, configs)->Ok_0;
        let (resolved, pins) = pins_resolved(earlier, table, config, count)->Ok_0;
        assert(target_planned(earlier, table, names.last(), config) is Ok);
        assert(plan.devices == resolved.devices && plan.requests == resolved.requests);
        lemma_resolved_grows(earlier, table, config, count);
        planned_pins_are_requested_lines(table, front, configs);
        lemma_pins_served(earlier, table, config, count);
        assert(plan.targets == earlier.targets.insert(names[last], plan.targets[names[last]]));
        assert(plan.targets[names[last]].pins == pins);
        assert forall|t: int| 0 <= t < names.len() implies {
            &&& plan.targets[#[trigger] names[t]].pins.no_duplicates()
            &&& plan.targets[names[t]].pins.len() == configs[t].pin_names().len()
        } by {
            if t < last {
                assert(front[t] == names[t]);
                assert(names[t] != names[last]);
                assert(plan.targets[names[t]] == earlier.targets[front[t]]);
            }
        }
        assert forall|t: int, i: int|
            #![trigger plan.targets[names[t]].pins[i]]
            0 <= t < names.len() && 0 <= i < configs[t].pin_names().len() implies pin_served(
            plan,
            table,
            configs[t].pin_names()[i],
            plan.targets[names[t]].pins[i],
        ) by {
            if t < last {
                assert(front[t] == names[t]);
                assert(names[t] != names[last]);
                let pin = earlier.targets[front[t]].pins[i];
                assert(pin_served(earlier, table, configs[t].pin_names()[i], pin));
                lemma_extends_served(earlier, resolved, table, configs[t].pin_names()[i], pin);
            }
        }
    }
}

// ---------------------------------------------------------------------------
// Settings and initial values
// ---------------------------------------------------------------------------

/// Whether a target names a line, given where pins are.
pub open spec fn names_line(
    table: Map<Seq<char>, (Seq<char>, u32)>,
    config: TargetConfigRequest,
    place: (Seq<char>, u32),
) -> bool {
    exists|i: int|
        0 <= i < config.pin_names().len() && table[#[trigger] config.pin_names()[i]] == place
}

/// Whether a plan asks these settings of the line that a pin is.
pub open spec fn pin_set_to(plan: PlanModel, pin: ResolvedPin, state: MockRequestLineState) -> bool {
    &&& pin.chip_index < plan.requests.len()
    &&& plan.requests[pin.chip_index as int].settings.contains_key(pin.offset)
    &&& plan.requests[pin.chip_index as int].settings[pin.offset] == state
}

proof fn lemma_with_pin_sets(
    plan: PlanModel,
    table: Map<Seq<char>, (Seq<char>, u32)>,
    name: Seq<char>,
    state: MockRequestLineState,
)
    requires
        devices_once(plan),
        table.contains_key(name),
        with_pin(plan, table[name].0, table[name].1, state).0.devices.len() <= u32::MAX,
    ensures
        ({
            let (after, pin) = with_pin(plan, table[name].0, table[name].1, state);
            &&& pin_set_to(after, pin, state)
            &&& forall|other: ResolvedPin, asked: MockRequestLineState|
                other != pin && pin_set_to(plan, other, asked) ==> #[trigger] pin_set_to(
                    after,
                    other,
                    asked,
                )
        }),
{
    let (device, line) = table[name];
    let (after, pin) = with_pin(plan, device, line, state);
    let devices = with_device(plan.devices, device);
    assert(devices.contains(device)) by {
        if !plan.devices.contains(device) {
            assert(devices[plan.devices.len() as int] == device);
        }
    }
    let index = devices.index_of(device);
    assert(0 <= index < devices.len() && devices[index] == device);
    assert forall|other: ResolvedPin, asked: MockRequestLineState|
        other != pin && pin_set_to(plan, other, asked) implies #[trigger] pin_set_to(
        after,
        other,
        asked,
    ) by {
        if other.chip_index as int == index {
            assert(other.offset != line);
        }
    }
}

proof fn lemma_pins_set(
    plan: PlanModel,
    table: Map<Seq<char>, (Seq<char>, u32)>,
    config: TargetConfigRequest,
    count: nat,
)
    requires
        devices_once(plan),
        count <= config.pin_names().len(),
        pins_resolved(plan, table, config, count) is Ok,
        pins_resolved(plan, table, config, count)->Ok_0.0.devices.len() <= u32::MAX,
    ensures
        ({
            let (after, pins) = pins_resolved(plan, table, config, count)->Ok_0;
            &&& pins.len() == count
            &&& forall|i: int|
                0 <= i < count ==> pin_set_to(after, #[trigger] pins[i], pin_state(config, i))
            &&& forall|other: ResolvedPin, asked: MockRequestLineState|
                !pins.contains(other) && pin_set_to(plan, other, asked) ==> #[trigger] pin_set_to(
                    after,
                    other,
                    asked,
                )
        }),
    decreases count,
{
    if count > 0 {
        let (earlier, before) = pins_resolved(plan, table, config, (count - 1) as nat)->Ok_0;
        let (after, pins) = pins_resolved(plan, table, config, count)->Ok_0;
        let name = config.pin_names()[count - 1];
        let state = pin_state(config, count - 1);
        let pin = with_pin(earlier, table[name].0, table[name].1, state).1;
        assert(after == with_pin(earlier, table[name].0, table[name].1, state).0);
        assert(after.devices.len() >= earlier.devices.len());
        lemma_pins_set(plan, table, config, (count - 1) as nat);
        lemma_pins_served(plan, table, config, (count - 1) as nat);
        lemma_with_pin_sets(earlier, table, name, state);
        assert(pins == before.push(pin));
        assert forall|i: int| 0 <= i < count implies pin_set_to(
            after,
            #[trigger] pins[i],
            pin_state(config, i),
        ) by {
            if i < count - 1 {
                assert(pins[i] == before[i]);
                assert(before.contains(before[i]));
                assert(pin_set_to(earlier, before[i], pin_state(config, i)));
            }
        }
        assert forall|other: ResolvedPin, asked: MockRequestLineState|
            !pins.contains(other) && pin_set_to(plan, other, asked) implies #[trigger] pin_set_to(
            after,
            other,
            asked,
        ) by {
            assert(other != pin) by {
                assert(pins[count - 1] == pin);
            }
            assert(!before.contains(other)) by {
                if before.contains(other) {
                    let k = choose|k: int| 0 <= k < before.len() && before[k] == other;
                    assert(pins[k] == other);
                }
            }
            assert(pin_set_to(earlier, other, asked));
        }
    }
}

/// A line is requested with the settings that its target asks of it; where several targets
/// name one line, with those of the last of them.
pub proof fn planned_settings_are_those_asked_for(
    table: Map<Seq<char>, (Seq<char>, u32)>,
    names: Seq<Seq<char>>,
    configs: Seq<TargetConfigRequest>,
    target: int,
    index: int,
)
    requires
        names.len() <= configs.len(),
        names.no_duplicates(),
        targets_planned(table, names, configs) is Ok,
        targets_planned(table, names, configs)->Ok_0.devices.len() <= u32::MAX,
        0 <= target < names.len(),
        0 <= index < configs[target].pin_names().len(),
        forall|later: int|
            target < later < names.len() ==> !names_line(
                table,
                #[trigger] configs[later],
                table[configs[target].pin_names()[index]],
            ),
    ensures
        ({
            let plan = targets_planned(table, names, configs)->Ok_0;
            pin_set_to(
                plan,
                plan.targets[names[target]].pins[index],
                pin_state(configs[target], index),
            )
        }),
    decreases names.len(),
{
    let front = names.drop_last();
    let last = names.len() - 1;
    let config = configs[last];
    let count = config.pin_names().len();
    let earlier = targets_planned(table, front, configs)->Ok_0;
    let plan = targets_planned(table, names, configs)->Ok_0;
    let (resolved, pins) = pins_resolved(earlier, table, config, count)->Ok_0;
    assert(target_planned(earlier, table, names.last(), config) is Ok);
    assert(plan.devices == resolved.devices && plan.requests == resolved.requests);
    lemma_resolved_grows(earlier, table, config, count);
    planned_pins_are_requested_lines(table, front, configs);
    lemma_pins_served(earlier, table, config, count);
    lemma_pins_set(earlier, table, config, count);
    if target < last {
        let state = pin_state(configs[target], index);
        assert(front[target] == names[target]);
        assert(names[target] != names[last]);
        planned_settings_are_those_asked_for(table, front, configs, target, index);
        let pin = earlier.targets[front[target]].pins[index];
        let place = table[configs[target].pin_names()[index]];
        assert(pin_served(earlier, table, configs[target].pin_names()[index], pin));
        assert(!pins.contains(pin)) by {
            if pins.contains(pin) {
                let k = choose|k: int| 0 <= k < pins.len() && pins[k] == pin;
                assert(pin_served(resolved, table, config.pin_names()[k], pins[k]));
                assert(resolved.devices[pin.chip_index as int]
                    == earlier.devices[pin.chip_index as int]);
                assert(table[config.pin_names()[k]] == place);
                assert(names_line(table, configs[last], place));
            }
        }
        assert(pin_set_to(resolved, pin, state));
    } else {
        assert(pin_set_to(resolved, pins[index], pin_state(config, index)));
    }
}

/// Once the lines of an `init` are held, a line of an output target has the bit of the initial
/// value that is its own, the first pin the highest; without an initial value it keeps its
/// level.
pub proof fn outputs_start_at_their_initial_value(
    table: Map<Seq<char>, (Seq<char>, u32)>,
    names: Seq<Seq<char>>,
    configs: Seq<TargetConfigRequest>,
    target: int,
    index: int,
    request: MockLineConfig,
    state: ChipStateModel,
    consumer: Seq<char>,
)
    requires
        names.len() <= configs.len(),
        names.no_duplicates(),
        targets_planned(table, names, configs) is Ok,
        targets_planned(table, names, configs)->Ok_0.devices.len() <= u32::MAX,
        0 <= target < names.len(),
        0 <= index < configs[target].pin_names().len(),
        configs[target] is Output,
        forall|later: int|
            target < later < names.len() ==> !names_line(
                table,
                #[trigger] configs[later],
                table[configs[target].pin_names()[index]],
            ),
        request.overrides() is None,
        ({
            let plan = targets_planned(table, names, configs)->Ok_0;
            requested(request)
                == plan.requests[plan.targets[names[target]].pins[index].chip_index as int]
        }),
        request_outcome(state, request, consumer).1 is Ok,
    ensures
        ({
            let offset =
                targets_planned(table, names, configs)->Ok_0.targets[names[target]].pins[index].offset;
            let before = state.chip.lines[offset];
            let after = request_outcome(state, request, consumer).0.chip.lines[offset];
            &&& after.direction == LineDirection::Output
            &&& match configs[target]->initial {
                Some(value) => logical_value(after.level, after.active_low) == bit_value(
                    bit_of(value, (configs[target].pin_names().len() - 1 - index) as nat),
                ),
                None => after.level == before.level,
            }
        }),
{
    planned_settings_are_those_asked_for(table, names, configs, target, index);
    let plan = targets_planned(table, names, configs)->Ok_0;
    let pin = plan.targets[names[target]].pins[index];
    let settings = request_settings(request.lines());
    assert(settings == plan.requests[pin.chip_index as int].settings);
    assert(settings.contains_key(pin.offset));
    let asked = state_at(request.lines(), pin.offset);
    assert(asked == pin_state(configs[target], index));
    assert(request.offsets().contains(pin.offset));
    lemma_no_conflict(state, request.offsets());
    let k = request.offsets().index_of(pin.offset);
    assert(request.offsets()[k] == pin.offset);
    let before = state.chip.lines[pin.offset];
    let after = request_outcome(state, request, consumer).0.chip.lines[pin.offset];
    assert(after == held_line(before, asked, asked.output_value, consumer));
    if let Some(value) = asked.output_value {
        level_conversion_round_trips(after.level, value, asked.active_low);
    }
}

// ---------------------------------------------------------------------------
// Final values
// ---------------------------------------------------------------------------

/// The final value that a configuration asks for.
pub open spec fn asked_final(config: TargetConfigRequest) -> Option<u8> {
    match config {
        TargetConfigRequest::Output { final_value, .. } => final_value,
        _ => None,
    }
}

proof fn lemma_resolved_finals(
    plan: PlanModel,
    table: Map<Seq<char>, (Seq<char>, u32)>,
    config: TargetConfigRequest,
    count: nat,
)
    requires
        pins_resolved(plan, table, config, count) is Ok,
    ensures
        pins_resolved(plan, table, config, count)->Ok_0.0.finals == plan.finals,
    decreases count,
{
    if count > 0 {
        lemma_resolved_finals(plan, table, config, (count - 1) as nat);
    }
}

/// The values that a session writes when it closes are those that its output targets ask for,
/// and no others.
pub proof fn planned_finals_are_those_asked_for(
    table: Map<Seq<char>, (Seq<char>, u32)>,
    names: Seq<Seq<char>>,
    configs: Seq<TargetConfigRequest>,
)
    requires
        names.len() <= configs.len(),
        names.no_duplicates(),
        targets_planned(table, names, configs) is Ok,
    ensures
        ({
            let plan = targets_planned(table, names, configs)->Ok_0;
            &&& forall|name: Seq<char>| #[trigger]
                plan.finals.contains_key(name) ==> names.contains(name)
            &&& forall|t: int|
                0 <= t < names.len() ==> match asked_final(configs[t]) {
                    Some(value) => plan.finals.contains_key(#[trigger] names[t])
                        && plan.finals[names[t]] == value,
                    None => !plan.finals.contains_key(names[t]),
                }
        }),
    decreases names.len(),
{
    if names.len() > 0 {
        let front = names.drop_last();
        let last = names.len() - 1;
        let config = configs[last];
        let earlier = targets_planned(table, front, configs)->Ok_0;
        let plan = targets_planned(table, names, configs)->Ok_0;
        planned_finals_are_those_asked_for(table, front, configs);
        assert(target_planned(earlier, table, names.last(), config) is Ok);
        lemma_resolved_finals(earlier, table, config, config.pin_names().len());
        assert(!front.contains(names[last])) by {
            if front.contains(names[last]) {
                let k = choose|k: int| 0 <= k < front.len() && front[k] == names[last];
                assert(names[k] == names[last]);
            }
        }
        assert(!earlier.finals.contains_key(names[last]));
        assert forall|name: Seq<char>| #[trigger] plan.finals.contains_key(name) implies
            names.contains(name) by {
            if earlier.finals.contains_key(name) {
                let k = choose|k: int| 0 <= k < front.len() && front[k] == name;
                assert(names[k] == name);
            } else {
                assert(names[last] == name);
            }
        }
        assert forall|t: int| 0 <= t < names.len() implies match asked_final(configs[t]) {
            Some(value) => plan.finals.contains_key(#[trigger] names[t]) && plan.finals[names[t]]
                == value,
            None => !plan.finals.contains_key(names[t]),
        } by {
            if t < last {
                assert(front[t] == names[t]);
                assert(names[t] != names[last]);
            }
        }
    }
}

/// Whether targets can take values at the same time: each is an output that the value fits,
/// and no two pins of them are the same line.
pub open spec fn values_fit(
    targets: Map<Seq<char>, TargetModel>,
    names: Seq<Seq<char>>,
    values: Seq<u8>,
    chip_count: nat,
) -> bool {
    &&& names.len() <= values.len()
    &&& forall|t: int|
        0 <= t < names.len() ==> {
            &&& targets.contains_key(#[trigger] names[t])
            &&& targets[names[t]].writable()
            &&& !too_wide(targets[names[t]].pins.len(), values[t])
        }
    &&& forall|t: int, i: int|
        0 <= t < names.len() && 0 <= i < targets[names[t]].pins.len()
            ==> (#[trigger] targets[names[t]].pins[i]).chip_index < chip_count
    &&& forall|t: int, i: int, u: int, j: int|
        0 <= t < names.len() && 0 <= i < targets[names[t]].pins.len() && 0 <= u < names.len() && 0
            <= j < targets[names[u]].pins.len() && (t != u || i != j)
            ==> #[trigger] targets[names[t]].pins[i] != #[trigger] targets[names[u]].pins[j]
}

/// Whether a batch writes only lines of the first targets, and of the first pins of the next.
spec fn writes_named(
    batch: Seq<ChipBatch<LineValue>>,
    targets: Map<Seq<char>, TargetModel>,
    names: Seq<Seq<char>>,
    target: int,
    count: int,
) -> bool {
    forall|c: int, o: u32, v: LineValue| #[trigger]
        writes(batch, c, o, v) ==> exists|t: int, i: int|
            named_line(targets, names, target, count, t, i, c, o)
}

spec fn named_line(
    targets: Map<Seq<char>, TargetModel>,
    names: Seq<Seq<char>>,
    target: int,
    count: int,
    t: int,
    i: int,
    c: int,
    o: u32,
) -> bool {
    let pins = targets[names[t]].pins;
    &&& 0 <= t < names.len()
    &&& 0 <= i < pins.len()
    &&& t < target || (t == target && i < count)
    &&& pins[i].chip_index == c
    &&& pins[i].offset == o
}

proof fn lemma_pins_fit(
    batch: Seq<ChipBatch<LineValue>>,
    targets: Map<Seq<char>, TargetModel>,
    names: Seq<Seq<char>>,
    values: Seq<u8>,
    target: int,
    count: nat,
)
    requires
        values_fit(targets, names, values, batch.len()),
        0 <= target < names.len(),
        count <= targets[names[target]].pins.len(),
        writes_once(batch),
        writes_named(batch, targets, names, target, 0),
    ensures
        ({
            let pins = targets[names[target]].pins;
            let added = set_pins_added(batch, pins, values[target], count);
            &&& added is Ok
            &&& added->Ok_0.len() == batch.len()
            &&& writes_once(added->Ok_0)
            &&& writes_named(added->Ok_0, targets, names, target, count as int)
        }),
    decreases count,
{
    let pins = targets[names[target]].pins;
    if count > 0 {
        let at = count - 1;
        lemma_pins_fit(batch, targets, names, values, target, at as nat);
        let earlier = set_pins_added(batch, pins, values[target], at as nat)->Ok_0;
        let pin = pins[at];
        let bit = bit_value(bit_of(values[target], (pins.len() - count) as nat));
        let chip = earlier[pin.chip_index as int];
        assert(targets[names[target]].pins[at].chip_index < batch.len());
        chip.offsets.index_of_first_ensures(pin.offset);
        if chip.offsets.contains(pin.offset) {
            let k = chip.offsets.index_of_first(pin.offset)->Some_0;
            assert(chip.offsets.len() == chip.attachments.len());
            assert(writes(earlier, pin.chip_index as int, pin.offset, chip.attachments[k]));
            let (t, i) = choose|t: int, i: int|
                named_line(
                    targets,
                    names,
                    target,
                    at as int,
                    t,
                    i,
                    pin.chip_index as int,
                    pin.offset,
                );
            assert(targets[names[t]].pins[i] == targets[names[target]].pins[at as int]);
        }
        let after = set_pins_added(batch, pins, values[target], count)->Ok_0;
        write_added_keeps_writes(earlier, pin.chip_index, pin.offset, bit);
        assert forall|c: int, o: u32, v: LineValue| #[trigger] writes(after, c, o, v) implies
            exists|t: int, i: int|
            named_line(targets, names, target, count as int, t, i, c, o) by {
            if writes(earlier, c, o, v) {
                let (t, i) = choose|t: int, i: int|
                    named_line(targets, names, target, at as int, t, i, c, o);
                assert(named_line(targets, names, target, count as int, t, i, c, o));
            } else {
                assert(named_line(targets, names, target, count as int, target, at as int, c, o));
            }
        }
    }
}

proof fn lemma_batch_fits(
    targets: Map<Seq<char>, TargetModel>,
    names: Seq<Seq<char>>,
    values: Seq<u8>,
    chip_count: nat,
    count: int,
)
    requires
        values_fit(targets, names, values, chip_count),
        0 <= count <= names.len(),
    ensures
        ({
            let batch = set_batch(targets, names.take(count), values, chip_count);
            &&& batch is Ok
            &&& batch->Ok_0.len() == chip_count
            &&& writes_once(batch->Ok_0)
            &&& writes_named(batch->Ok_0, targets, names, count, 0)
        }),
    decreases count,
{
    if count == 0 {
        let batch = empty_batch::<LineValue>(chip_count);
        assert(names.take(0) =~= Seq::<Seq<char>>::empty());
        assert(set_batch(targets, names.take(0), values, chip_count) == Ok::<
            Seq<ChipBatch<LineValue>>,
            SessionErrorModel,
        >(batch));
    } else {
        let at = count - 1;
        lemma_batch_fits(targets, names, values, chip_count, at);
        let earlier = set_batch(targets, names.take(at), values, chip_count)->Ok_0;
        let pins = targets[names[at]].pins;
        assert(names.take(count).drop_last() =~= names.take(at));
        assert(names.take(count).last() == names[at]);
        assert(targets.contains_key(names[at]));
        lemma_pins_fit(earlier, targets, names, values, at, pins.len());
        let after = set_batch(targets, names.take(count), values, chip_count)->Ok_0;
        assert forall|c: int, o: u32, v: LineValue| #[trigger] writes(after, c, o, v) implies
            exists|t: int, i: int| named_line(targets, names, count, 0, t, i, c, o) by {
            let (t, i) = choose|t: int, i: int|
                named_line(targets, names, at, pins.len() as int, t, i, c, o);
            assert(named_line(targets, names, count, 0, t, i, c, o));
        }
    }
}

/// Values that fit targets without a line in common are never refused: this is so of the
/// values that a session writes when it closes.
pub proof fn fitting_values_are_written(
    targets: Map<Seq<char>, TargetModel>,
    names: Seq<Seq<char>>,
    values: Seq<u8>,
    chip_count: nat,
)
    requires
        values_fit(targets, names, values, chip_count),
    ensures
        set_batch(targets, names, values, chip_count) is Ok,
{
    lemma_batch_fits(targets, names, values, chip_count, names.len() as int);
    assert(names.take(names.len() as int) =~= names);
}

} // verus!

//! What an `init` can have, and how it is refused what it cannot.

use vstd::prelude::*;

use crate::names::lemma_ascending_distinct;
use crate::names::lemma_paired;
use crate::protocol::request::TargetConfigRequest;
use crate::session::compiled::with_device;
use crate::session::execute::bit_of;
use crate::session::execute::too_wide;
use crate::session::fault_laws::wide_values_have_a_bit_too_many;
use crate::session::initialized::pins_resolved;
use crate::session::initialized::planned_targets_are_those_asked_for;
use crate::session::initialized::target_planned;
use crate::session::initialized::targets_planned;
use crate::session::initialized::wide_value;
use crate::session::initialized::PlanModel;
use crate::session::laws::fitting_values_are_written;
use crate::session::laws::planned_finals_are_those_asked_for;
use crate::session::laws::planned_pins_are_requested_lines;
use crate::session::pins::ResolvedPin;
use crate::session::reactor::SessionReactor;
use crate::session::state::SessionErrorModel;

verus! {

/// Whether a value has a set bit for which there is no pin.
pub open spec fn overflows(value: u8, width: nat) -> bool {
    exists|bit: nat| width <= bit < 8 && #[trigger] bit_of(value, bit)
}

/// The value of an output that does not fit its pins: the initial one, or else the final one.
pub open spec fn unfit_value(config: TargetConfigRequest, value: u8) -> bool {
    let width = config.pin_names().len();
    match config {
        TargetConfigRequest::Output { initial, final_value, .. } => {
            ||| initial == Some(value) && overflows(value, width)
            ||| {
                &&& final_value == Some(value)
                &&& overflows(value, width)
                &&& initial matches Some(first) ==> !overflows(first, width)
            }
        },
        _ => false,
    }
}

/// Whether the first pins of a target are mapped, each to a line of its own.
pub open spec fn pins_free(
    table: Map<Seq<char>, (Seq<char>, u32)>,
    config: TargetConfigRequest,
    count: nat,
) -> bool {
    &&& forall|i: int| 0 <= i < count ==> table.contains_key(#[trigger] config.pin_names()[i])
    &&& forall|i: int, j: int|
        0 <= i < j < count ==> table[#[trigger] config.pin_names()[i]]
            != table[#[trigger] config.pin_names()[j]]
}

/// Whether a pin is the first of its target that cannot be had: it is not mapped, or it is the
/// line of a pin in front of it.
pub open spec fn pin_refused(
    table: Map<Seq<char>, (Seq<char>, u32)>,
    config: TargetConfigRequest,
    pin: int,
    error: SessionErrorModel,
) -> bool {
    let name = config.pin_names()[pin];
    &&& 0 <= pin < config.pin_names().len()
    &&& pins_free(table, config, pin as nat)
    &&& if !table.contains_key(name) {
        error == (SessionErrorModel::UnmappedPin { pin: name })
    } else {
        &&& error == (SessionErrorModel::DuplicatePhysicalLocation { pin: name })
        &&& exists|i: int|
            0 <= i < pin && table[#[trigger] config.pin_names()[i]] == table[name]
    }
}

/// Whether a target can be had: its values fit its pins, and each pin is mapped to a line of
/// its own.
pub open spec fn target_possible(
    table: Map<Seq<char>, (Seq<char>, u32)>,
    config: TargetConfigRequest,
) -> bool {
    &&& forall|value: u8| !#[trigger] unfit_value(config, value)
    &&& pins_free(table, config, config.pin_names().len())
}

/// Whether a target cannot be had, and why.
pub open spec fn target_refused(
    table: Map<Seq<char>, (Seq<char>, u32)>,
    name: Seq<char>,
    config: TargetConfigRequest,
    error: SessionErrorModel,
) -> bool {
    ||| exists|value: u8|
        {
            &&& #[trigger] unfit_value(config, value)
            &&& error == (SessionErrorModel::TargetValueOutOfRange {
                target: name,
                value,
                bits: config.pin_names().len() as usize,
            })
        }
    ||| {
        &&& forall|value: u8| !#[trigger] unfit_value(config, value)
        &&& exists|pin: int| #[trigger] pin_refused(table, config, pin, error)
    }
}

proof fn lemma_wide(config: TargetConfigRequest)
    ensures
        wide_value(config) matches Some(value) ==> unfit_value(config, value),
        wide_value(config) is None ==> forall|value: u8| !#[trigger] unfit_value(config, value),
{
    let width = config.pin_names().len();
    if let TargetConfigRequest::Output { initial, final_value, .. } = config {
        if let Some(value) = initial {
            wide_values_have_a_bit_too_many(width, value);
        }
        if let Some(value) = final_value {
            wide_values_have_a_bit_too_many(width, value);
        }
    }
}

/// Whether pins are the lines that the names of a target are mapped to.
spec fn pins_mapped(
    plan: PlanModel,
    table: Map<Seq<char>, (Seq<char>, u32)>,
    config: TargetConfigRequest,
    pins: Seq<ResolvedPin>,
) -> bool {
    forall|i: int|
        #![trigger pins[i]]
        0 <= i < pins.len() ==> {
            let mapped = table[config.pin_names()[i]];
            &&& pins[i].chip_index < plan.devices.len()
            &&& plan.devices[pins[i].chip_index as int] == mapped.0
            &&& pins[i].offset == mapped.1
        }
}

proof fn lemma_pins(
    plan: PlanModel,
    table: Map<Seq<char>, (Seq<char>, u32)>,
    config: TargetConfigRequest,
    count: nat,
)
    requires
        plan.devices.no_duplicates(),
        plan.devices.len() + count <= u32::MAX,
        count <= config.pin_names().len(),
    ensures
        pins_resolved(plan, table, config, count) is Ok <==> pins_free(table, config, count),
        pins_resolved(plan, table, config, count) matches Err(error) ==> exists|pin: int|
            #[trigger] pin_refused(table, config, pin, error),
        pins_resolved(plan, table, config, count) matches Ok((next, pins)) ==> {
            &&& pins.len() == count
            &&& next.devices.no_duplicates()
            &&& next.devices.len() <= plan.devices.len() + count
            &&& pins_mapped(next, table, config, pins)
        },
    decreases count,
{
    if count > 0 {
        let last = count - 1;
        let names = config.pin_names();
        lemma_pins(plan, table, config, last as nat);
        match pins_resolved(plan, table, config, last as nat) {
            Err(error) => {
                if pins_free(table, config, count) {
                    assert(pins_free(table, config, last as nat));
                }
            },
            Ok((earlier, pins)) => {
                let name = names[last];
                if !table.contains_key(name) {
                    assert(pin_refused(
                        table,
                        config,
                        last,
                        SessionErrorModel::UnmappedPin { pin: name },
                    ));
                } else {
                    let (device, line) = table[name];
                    let devices = with_device(earlier.devices, device);
                    assert(devices.contains(device)) by {
                        if !earlier.devices.contains(device) {
                            assert(devices[earlier.devices.len() as int] == device);
                        }
                    }
                    let index = devices.index_of(device);
                    assert(0 <= index < devices.len() && devices[index] == device);
                    assert(devices.no_duplicates());
                    let pin = ResolvedPin { chip_index: index as u32, offset: line };
                    assert forall|i: int| #![trigger pins[i]] 0 <= i < pins.len() implies (pins[i]
                        == pin <==> table[names[i]] == table[name]) by {
                        assert(earlier.devices[pins[i].chip_index as int] == table[names[i]].0);
                        assert(devices[pins[i].chip_index as int]
                            == earlier.devices[pins[i].chip_index as int]);
                    }
                    if pins.contains(pin) {
                        let i = choose|i: int| 0 <= i < pins.len() && pins[i] == pin;
                        assert(pins[i] == pin);
                        assert(table[names[i]] == table[name]);
                        assert(pin_refused(
                            table,
                            config,
                            last,
                            SessionErrorModel::DuplicatePhysicalLocation { pin: name },
                        ));
                        assert(!pins_free(table, config, count));
                    } else {
                        let (next, all) = pins_resolved(plan, table, config, count)->Ok_0;
                        assert(next.devices == devices);
                        assert(all == pins.push(pin));
                        assert forall|i: int, j: int| 0 <= i < j < count implies table[
                            #[trigger] names[i]
                        ] != table[#[trigger] names[j]] by {
                            if j == last {
                                assert(pins[i] != pin);
                            }
                        }
                    }
                }
            },
        }
    }
}

proof fn lemma_devices(
    table: Map<Seq<char>, (Seq<char>, u32)>,
    names: Seq<Seq<char>>,
    configs: Seq<TargetConfigRequest>,
)
    requires
        names.len() <= configs.len(),
        8 * names.len() <= u32::MAX,
        forall|i: int| 0 <= i < configs.len() ==> (#[trigger] configs[i]).pin_names().len() <= 8,
    ensures
        targets_planned(table, names, configs) matches Ok(plan) ==> plan.devices.no_duplicates()
            && plan.devices.len() <= 8 * names.len(),
    decreases names.len(),
{
    if names.len() > 0 {
        let front = names.drop_last();
        lemma_devices(table, front, configs);
        let config = configs[names.len() - 1];
        if let Ok(plan) = targets_planned(table, front, configs) {
            lemma_pins(plan, table, config, config.pin_names().len());
        }
    }
}

/// An `init` is planned exactly where every target can be had. Otherwise the first that cannot
/// is refused, for a value that does not fit its pins, or for the first of its pins that is not
/// mapped or is the line of another.
pub proof fn only_possible_targets_are_planned(
    table: Map<Seq<char>, (Seq<char>, u32)>,
    names: Seq<Seq<char>>,
    configs: Seq<TargetConfigRequest>,
)
    requires
        names.len() <= configs.len(),
        8 * names.len() <= u32::MAX,
        forall|i: int| 0 <= i < configs.len() ==> (#[trigger] configs[i]).pin_names().len() <= 8,
    ensures
        targets_planned(table, names, configs) is Ok <==> forall|i: int|
            0 <= i < names.len() ==> target_possible(table, #[trigger] configs[i]),
        targets_planned(table, names, configs) matches Err(error) ==> exists|i: int|
            {
                &&& 0 <= i < names.len()
                &&& target_refused(table, names[i], #[trigger] configs[i], error)
                &&& forall|j: int| 0 <= j < i ==> target_possible(table, #[trigger] configs[j])
            },
    decreases names.len(),
{
    if names.len() > 0 {
        let front = names.drop_last();
        let last = names.len() - 1;
        let config = configs[last];
        only_possible_targets_are_planned(table, front, configs);
        lemma_devices(table, front, configs);
        lemma_wide(config);
        assert(names.last() == names[last]);
        match targets_planned(table, front, configs) {
            Ok(plan) => {
                lemma_pins(plan, table, config, config.pin_names().len());
                if let Err(error) = target_planned(plan, table, names[last], config) {
                    assert(target_refused(table, names[last], config, error));
                    assert(!target_possible(table, config)) by {
                        if wide_value(config) is None {
                            assert(!pins_free(table, config, config.pin_names().len()));
                        } else {
                            assert(unfit_value(config, wide_value(config)->Some_0));
                        }
                    }
                } else {
                    assert(target_possible(table, config));
                }
            },
            Err(error) => {
                let i = choose|i: int|
                    {
                        &&& 0 <= i < front.len()
                        &&& target_refused(table, front[i], #[trigger] configs[i], error)
                        &&& forall|j: int|
                            0 <= j < i ==> target_possible(table, #[trigger] configs[j])
                    };
                assert(front[i] == names[i]);
                assert(target_refused(table, names[i], configs[i], error));
                let k = choose|k: int|
                    0 <= k < front.len() && !target_possible(table, #[trigger] configs[k]);
                assert(!target_possible(table, configs[k]));
            },
        }
    }
}

/// A session that closes writes the final values that its targets ask for, where some target
/// asks for one and no two of these targets have a line in common.
pub proof fn asked_final_values_are_written(
    reactor: SessionReactor,
    table: Map<Seq<char>, (Seq<char>, u32)>,
    names: Seq<Seq<char>>,
    configs: Seq<TargetConfigRequest>,
    target: int,
)
    requires
        names.len() <= configs.len(),
        names.no_duplicates(),
        8 * names.len() <= u32::MAX,
        forall|i: int| 0 <= i < configs.len() ==> (#[trigger] configs[i]).pin_names().len() <= 8,
        targets_planned(table, names, configs) is Ok,
        reactor.initialized matches Some(session) && session.follows(
            targets_planned(table, names, configs)->Ok_0,
        ) && session.finals.wf(),
        0 <= target < names.len(),
        configs[target] matches TargetConfigRequest::Output { final_value: Some(_), .. },
        forall|t: int, i: int, u: int, j: int|
            #![trigger configs[t].pin_names()[i], configs[u].pin_names()[j]]
            {
                &&& 0 <= t < names.len() && 0 <= i < configs[t].pin_names().len()
                &&& 0 <= u < names.len() && 0 <= j < configs[u].pin_names().len()
                &&& t != u
                &&& configs[t] matches TargetConfigRequest::Output { final_value: Some(_), .. }
                &&& configs[u] matches TargetConfigRequest::Output { final_value: Some(_), .. }
            } ==> table[configs[t].pin_names()[i]] != table[configs[u].pin_names()[j]],
    ensures
        reactor.final_writes() is Some,
{
    let plan = targets_planned(table, names, configs)->Ok_0;
    let session = reactor.initialized->Some_0;
    let targets = session.targets();
    let asked = session.finals.names();
    let values = session.finals.values();
    planned_finals_are_those_asked_for(table, names, configs);
    planned_targets_are_those_asked_for(table, names, configs);
    only_possible_targets_are_planned(table, names, configs);
    lemma_devices(table, names, configs);
    planned_pins_are_requested_lines(table, names, configs);
    lemma_ascending_distinct(asked);
    lemma_paired(asked, values);
    assert(session.finals.contents().contains_key(names[target]));
    assert(asked.len() > 0);
    assert forall|k: int| #![trigger asked[k]] 0 <= k < asked.len() implies exists|t: int|
        0 <= t < names.len() && #[trigger] names[t] == asked[k] by {
        assert(session.finals.contents().contains_key(asked[k]));
        assert(names.contains(asked[k]));
    }
    assert forall|k: int| 0 <= k < asked.len() implies {
        &&& targets.contains_key(#[trigger] asked[k])
        &&& targets[asked[k]].writable()
        &&& !too_wide(targets[asked[k]].pins.len(), values[k])
    } by {
        assert(session.finals.contents().contains_key(asked[k]));
        let t = choose|t: int| 0 <= t < names.len() && #[trigger] names[t] == asked[k];
        assert(target_possible(table, configs[t]));
        wide_values_have_a_bit_too_many(configs[t].pin_names().len(), values[k]);
        assert(!unfit_value(configs[t], values[k]));
        if let Some(first) = configs[t]->Output_initial {
            assert(!unfit_value(configs[t], first));
        }
    }
    assert forall|k: int, i: int|
        0 <= k < asked.len() && 0 <= i < targets[asked[k]].pins.len() implies (
    #[trigger] targets[asked[k]].pins[i]).chip_index < session.chips by {
        let t = choose|t: int| 0 <= t < names.len() && #[trigger] names[t] == asked[k];
        assert(plan.targets[names[t]].pins[i] == targets[asked[k]].pins[i]);
    }
    assert forall|k: int, i: int, l: int, j: int|
        0 <= k < asked.len() && 0 <= i < targets[asked[k]].pins.len() && 0 <= l < asked.len() && 0
            <= j < targets[asked[l]].pins.len() && (k != l || i != j) implies
        #[trigger] targets[asked[k]].pins[i] != #[trigger] targets[asked[l]].pins[j] by {
        let t = choose|t: int| 0 <= t < names.len() && #[trigger] names[t] == asked[k];
        let u = choose|u: int| 0 <= u < names.len() && #[trigger] names[u] == asked[l];
        assert(session.finals.contents().contains_key(asked[k]));
        assert(session.finals.contents().contains_key(asked[l]));
        assert(plan.targets[names[t]].pins[i] == targets[asked[k]].pins[i]);
        assert(plan.targets[names[u]].pins[j] == targets[asked[l]].pins[j]);
        if k == l {
            assert(plan.targets[names[t]].pins.no_duplicates());
        } else {
            assert(asked[k] != asked[l]);
            assert(t != u);
            assert(table[configs[t].pin_names()[i]] != table[configs[u].pin_names()[j]]);
        }
    }
    fitting_values_are_written(targets, asked, values, session.chips as nat);
}

} // verus!

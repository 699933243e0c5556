//! What holds of the lines that an `init` requests.

use vstd::prelude::*;

use crate::gpio::libgpiod::LineBias;
use crate::gpio::libgpiod::LineClock;
use crate::gpio::libgpiod::LineDirection;
use crate::gpio::libgpiod::LineDrive;
use crate::gpio::libgpiod::LineEdge;
use crate::gpio::libgpiod::LineValue;
use crate::gpio::mock::config::MockRequestLineState;
use crate::protocol::request::BiasMode;
use crate::protocol::request::DriveMode;
use crate::protocol::request::EdgeMode;
use crate::protocol::request::TargetConfigRequest;
use crate::session::compiled::TargetMode;
use crate::session::execute::bit_of;
use crate::session::initialized::pins_resolved;
use crate::session::initialized::planned_targets_are_those_asked_for;
use crate::session::initialized::target_planned;
use crate::session::initialized::targets_planned;
use crate::session::initialized::PlanModel;
use crate::session::laws::names_line;
use crate::session::laws::planned_pins_are_requested_lines;
use crate::session::laws::planned_settings_are_those_asked_for;

verus! {

/// What a plan asks of the line that the pin of a target is.
pub open spec fn line_asked(plan: PlanModel, name: Seq<char>, index: int) -> MockRequestLineState {
    let pin = plan.targets[name].pins[index];
    plan.requests[pin.chip_index as int].settings[pin.offset]
}

/// Whether a pin of a target is a line that no later target names.
pub open spec fn last_of_its_line(
    table: Map<Seq<char>, (Seq<char>, u32)>,
    names: Seq<Seq<char>>,
    configs: Seq<TargetConfigRequest>,
    target: int,
    index: int,
) -> bool {
    &&& names.len() <= configs.len()
    &&& names.no_duplicates()
    &&& 0 <= target < names.len()
    &&& 0 <= index < configs[target].pin_names().len()
    &&& forall|later: int|
        target < later < names.len() ==> !names_line(
            table,
            #[trigger] configs[later],
            table[configs[target].pin_names()[index]],
        )
}

/// A line to read is requested as an input that is not inverted and reports no edges, with the
/// bias that its target asks for, and as it is where it asks for none.
pub proof fn inputs_are_requested_as_asked(
    table: Map<Seq<char>, (Seq<char>, u32)>,
    names: Seq<Seq<char>>,
    configs: Seq<TargetConfigRequest>,
    target: int,
    index: int,
)
    requires
        targets_planned(table, names, configs) is Ok,
        targets_planned(table, names, configs)->Ok_0.devices.len() <= u32::MAX,
        last_of_its_line(table, names, configs, target, index),
        configs[target] is Input,
    ensures
        ({
            let plan = targets_planned(table, names, configs)->Ok_0;
            let asked = line_asked(plan, names[target], index);
            let bias = configs[target]->Input_bias;
            &&& plan.targets[names[target]].mode == TargetMode::Input
            &&& asked.direction == LineDirection::Input
            &&& bias is None ==> asked.bias == LineBias::AsIs
            &&& bias == Some(BiasMode::AsIs) ==> asked.bias == LineBias::AsIs
            &&& bias == Some(BiasMode::Disabled) ==> asked.bias == LineBias::Disabled
            &&& bias == Some(BiasMode::PullUp) ==> asked.bias == LineBias::PullUp
            &&& bias == Some(BiasMode::PullDown) ==> asked.bias == LineBias::PullDown
            &&& asked.edge == LineEdge::NoEdge
            &&& asked.active_low == false
            &&& asked.output_value is None
            &&& asked.debounce_period_us == 0
            &&& asked.event_clock == LineClock::Monotonic
        }),
{
    planned_settings_are_those_asked_for(table, names, configs, target, index);
    planned_targets_are_those_asked_for(table, names, configs);
    assert(names[target] == names[target]);
}

/// A line to drive is requested as an output that is not inverted and reports no edges, with
/// the drive that its target asks for, push-pull where it asks for none, and with its own bit
/// of the initial value where there is one: the first pin has the highest bit, a set bit is
/// active.
pub proof fn outputs_are_requested_as_asked(
    table: Map<Seq<char>, (Seq<char>, u32)>,
    names: Seq<Seq<char>>,
    configs: Seq<TargetConfigRequest>,
    target: int,
    index: int,
)
    requires
        targets_planned(table, names, configs) is Ok,
        targets_planned(table, names, configs)->Ok_0.devices.len() <= u32::MAX,
        last_of_its_line(table, names, configs, target, index),
        configs[target] is Output,
    ensures
        ({
            let plan = targets_planned(table, names, configs)->Ok_0;
            let asked = line_asked(plan, names[target], index);
            let drive = configs[target]->Output_drive;
            let initial = configs[target]->Output_initial;
            let bit = (configs[target].pin_names().len() - 1 - index) as nat;
            &&& plan.targets[names[target]].mode == TargetMode::Output
            &&& asked.direction == LineDirection::Output
            &&& drive is None ==> asked.drive == LineDrive::PushPull
            &&& drive == Some(DriveMode::PushPull) ==> asked.drive == LineDrive::PushPull
            &&& drive == Some(DriveMode::OpenDrain) ==> asked.drive == LineDrive::OpenDrain
            &&& drive == Some(DriveMode::OpenSource) ==> asked.drive == LineDrive::OpenSource
            &&& initial is None ==> asked.output_value is None
            &&& initial matches Some(value) ==> asked.output_value == Some(
                if bit_of(value, bit) {
                    LineValue::Active
                } else {
                    LineValue::Inactive
                },
            )
            &&& asked.edge == LineEdge::NoEdge
            &&& asked.active_low == false
            &&& asked.bias == LineBias::AsIs
        }),
{
    planned_settings_are_those_asked_for(table, names, configs, target, index);
    planned_targets_are_those_asked_for(table, names, configs);
    assert(names[target] == names[target]);
}

/// The line of a trigger target is requested as an input that is not inverted and reports the
/// edges that its target asks for, and edges of that line are told under the name of the
/// target.
pub proof fn triggers_are_requested_as_asked(
    table: Map<Seq<char>, (Seq<char>, u32)>,
    names: Seq<Seq<char>>,
    configs: Seq<TargetConfigRequest>,
    target: int,
)
    requires
        targets_planned(table, names, configs) is Ok,
        targets_planned(table, names, configs)->Ok_0.devices.len() <= u32::MAX,
        last_of_its_line(table, names, configs, target, 0),
        configs[target] is Trigger,
    ensures
        ({
            let plan = targets_planned(table, names, configs)->Ok_0;
            let asked = line_asked(plan, names[target], 0);
            let edge = configs[target]->Trigger_edge;
            let pin = plan.targets[names[target]].pins[0];
            &&& plan.targets[names[target]].mode == TargetMode::Trigger
            &&& asked.direction == LineDirection::Input
            &&& edge == EdgeMode::Rising ==> asked.edge == LineEdge::Rising
            &&& edge == EdgeMode::Falling ==> asked.edge == LineEdge::Falling
            &&& edge == EdgeMode::Both ==> asked.edge == LineEdge::Both
            &&& asked.active_low == false
            &&& asked.bias == LineBias::AsIs
            &&& asked.output_value is None
            &&& asked.debounce_period_us == 0
            &&& plan.triggers.contains_key((pin.chip_index, pin.offset))
            &&& plan.triggers[(pin.chip_index, pin.offset)] == names[target]
        }),
{
    planned_settings_are_those_asked_for(table, names, configs, target, 0);
    planned_targets_are_those_asked_for(table, names, configs);
    assert(names[target] == names[target]);
    lemma_trigger_named(table, names, configs, target);
}

proof fn lemma_trigger_named(
    table: Map<Seq<char>, (Seq<char>, u32)>,
    names: Seq<Seq<char>>,
    configs: Seq<TargetConfigRequest>,
    target: int,
)
    requires
        targets_planned(table, names, configs) is Ok,
        targets_planned(table, names, configs)->Ok_0.devices.len() <= u32::MAX,
        last_of_its_line(table, names, configs, target, 0),
        configs[target] is Trigger,
    ensures
        ({
            let plan = targets_planned(table, names, configs)->Ok_0;
            let pin = plan.targets[names[target]].pins[0];
            &&& plan.triggers.contains_key((pin.chip_index, pin.offset))
            &&& plan.triggers[(pin.chip_index, pin.offset)] == names[target]
        }),
    decreases names.len(),
{
    let front = names.drop_last();
    let last = names.len() - 1;
    let config = configs[last];
    let count = config.pin_names().len();
    let earlier = targets_planned(table, front, configs)->Ok_0;
    let plan = targets_planned(table, names, configs)->Ok_0;
    assert(target_planned(earlier, table, names.last(), config) is Ok);
    lemma_pins_keep(earlier, table, config, count);
    if target < last {
        planned_pins_are_requested_lines(table, names, configs);
        assert(front[target] == names[target]);
        assert(names[target] != names[last]);
        lemma_trigger_named(table, front, configs, target);
        let pin = plan.targets[names[target]].pins[0];
        assert(plan.targets[names[target]] == earlier.targets[names[target]]);
        if config is Trigger {
            let other = plan.targets[names[last]].pins[0];
            assert(config.pin_names().len() == 1);
            assert(plan.targets[names[last]].pins[0] == other);
            assert(plan.targets[names[target]].pins[0] == pin);
            if (other.chip_index, other.offset) == (pin.chip_index, pin.offset) {
                assert(table[config.pin_names()[0]] == table[configs[target].pin_names()[0]]);
                assert(names_line(
                    table,
                    configs[last],
                    table[configs[target].pin_names()[0]],
                ));
            }
        }
    }
}

proof fn lemma_pins_keep(
    plan: PlanModel,
    table: Map<Seq<char>, (Seq<char>, u32)>,
    config: TargetConfigRequest,
    count: nat,
)
    requires
        pins_resolved(plan, table, config, count) is Ok,
    ensures
        pins_resolved(plan, table, config, count)->Ok_0.0.targets == plan.targets,
        pins_resolved(plan, table, config, count)->Ok_0.0.triggers == plan.triggers,
        pins_resolved(plan, table, config, count)->Ok_0.0.devices.len() >= plan.devices.len(),
        pins_resolved(plan, table, config, count)->Ok_0.1.len() == count,
    decreases count,
{
    if count > 0 {
        lemma_pins_keep(plan, table, config, (count - 1) as nat);
    }
}

} // verus!

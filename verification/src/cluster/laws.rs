//! What holds of a mock backend across its operations.

use vstd::prelude::*;

use crate::cluster::backend::levels_read;
use crate::cluster::backend::levels_written;
use crate::cluster::backend::pin_configured;
use crate::cluster::backend::pins_configured;
use crate::cluster::backend::read_outcome;
use crate::cluster::backend::reloaded;
use crate::cluster::backend::write_outcome;
use crate::cluster::backend::BackendModel;
use crate::cluster::backend::Chips;
use crate::cluster::backend::MockBackend;
use crate::cluster::cache::index_of_pin;
use crate::cluster::cache::indices_of_pins;
use crate::cluster::cache::targets_cached;
use crate::cluster::cache::CacheModel;
use crate::cluster::error::MockError;
use crate::cluster::error::MockErrorModel;
use crate::cluster::get::narrow;
use crate::cluster::init::all_pins;
use crate::cluster::init::target_pins;
use crate::cluster::mock::cluster_edges;
use crate::cluster::mock::ClusterPinModel;
use crate::cluster::properties::GPIOPinConfig;
use crate::cluster::properties::PinLevel;
use crate::cluster::set::steps_planned;
use crate::cluster::set::targets_planned;
use crate::cluster::set::SetStepRequest;
use crate::cluster::set::SetTargetValue;
use crate::cluster::set::WritePlan;
use crate::cluster::snapshot::line_of;
use crate::cluster::snapshot::BackendSnapshot;
use crate::protocol::request::TargetConfigRequest;
use crate::protocol::response::EventType;

verus! {

/// A line may have changed its level, and only as an output.
pub open spec fn line_kept(before: Chips, after: Chips, pin: (Seq<char>, u32)) -> bool {
    match (line_of(before, pin), line_of(after, pin)) {
        (Some(old_line), Some(new_line)) => new_line.mode == old_line.mode && (
        old_line.mode is Input ==> new_line.level == old_line.level),
        (None, None) => true,
        _ => false,
    }
}

/// Writing to a cluster adds and removes no line, changes no mode and no level of an input.
pub proof fn writes_reach_outputs_only(
    chips: Chips,
    pins: Seq<ClusterPinModel>,
    indices: Seq<usize>,
    values: Seq<PinLevel>,
    pin: (Seq<char>, u32),
)
    requires
        indices.len() == values.len(),
    ensures
        levels_written(chips, pins, indices, values) matches Ok(after) ==> line_kept(
            chips,
            after,
            pin,
        ),
    decreases indices.len(),
{
    if indices.len() > 0 {
        writes_reach_outputs_only(chips, pins, indices.drop_last(), values.drop_last(), pin);
    }
}

/// Indices that name different lines.
pub open spec fn different_lines(pins: Seq<ClusterPinModel>, indices: Seq<usize>) -> bool {
    forall|i: int, j: int|
        0 <= i < j < indices.len() ==> pins[#[trigger] indices[i] as int].pin
            != pins[#[trigger] indices[j] as int].pin
}

proof fn lemma_read_levels(
    chips: Chips,
    pins: Seq<ClusterPinModel>,
    indices: Seq<usize>,
    values: Seq<PinLevel>,
)
    requires
        indices.len() == values.len(),
        forall|i: int|
            0 <= i < indices.len() ==> (line_of(chips, pins[#[trigger] indices[i] as int].pin)
                matches Some(line) && line.level == values[i]),
    ensures
        levels_read(chips, pins, indices) == Ok::<Seq<PinLevel>, MockErrorModel>(values),
    decreases indices.len(),
{
    if indices.len() > 0 {
        assert(forall|i: int|
            0 <= i < indices.len() - 1 ==> indices.drop_last()[i] == indices[i]);
        lemma_read_levels(chips, pins, indices.drop_last(), values.drop_last());
        assert(indices.last() == indices[indices.len() - 1]);
        assert(values.drop_last().push(values.last()) =~= values);
    } else {
        assert(values =~= Seq::<PinLevel>::empty());
    }
}

/// Levels written to different lines of a cluster are read back.
pub proof fn written_levels_read_back(
    backend: BackendModel,
    id: u64,
    indices: Seq<usize>,
    values: Seq<PinLevel>,
)
    requires
        write_outcome(backend, id, indices, values) is Ok,
        different_lines(backend.clusters[id].pins, indices),
    ensures
        read_outcome(
            BackendModel {
                chips: Some(write_outcome(backend, id, indices, values)->Ok_0),
                ..backend
            },
            id,
            indices,
        ) == Ok::<Seq<PinLevel>, MockErrorModel>(values),
{
    let pins = backend.clusters[id].pins;
    let chips = backend.chips->Some_0;
    lemma_written_levels(chips, pins, indices, values);
    lemma_read_levels(levels_written(chips, pins, indices, values)->Ok_0, pins, indices, values);
}

proof fn lemma_written_levels(
    chips: Chips,
    pins: Seq<ClusterPinModel>,
    indices: Seq<usize>,
    values: Seq<PinLevel>,
)
    requires
        indices.len() == values.len(),
        different_lines(pins, indices),
        levels_written(chips, pins, indices, values) is Ok,
    ensures
        forall|i: int|
            0 <= i < indices.len() ==> (line_of(
                levels_written(chips, pins, indices, values)->Ok_0,
                pins[#[trigger] indices[i] as int].pin,
            ) matches Some(line) && line.level == values[i]),
    decreases indices.len(),
{
    if indices.len() > 0 {
        let count = indices.len() - 1;
        let rest = indices.drop_last();
        assert(forall|i: int| 0 <= i < count ==> rest[i] == indices[i]);
        assert(indices.last() == indices[count]);
        lemma_written_levels(chips, pins, rest, values.drop_last());
        let before = levels_written(chips, pins, rest, values.drop_last())->Ok_0;
        let after = levels_written(chips, pins, indices, values)->Ok_0;
        let last = pins[indices[count] as int].pin;
        assert forall|i: int| 0 <= i < indices.len() implies (line_of(
            after,
            pins[#[trigger] indices[i] as int].pin,
        ) matches Some(line) && line.level == values[i]) by {
            if i < count {
                assert(rest[i] == indices[i]);
                assert(pins[indices[i] as int].pin != last);
                assert(line_of(before, pins[rest[i] as int].pin) is Some);
                assert(values.drop_last()[i] == values[i]);
            }
        }
    }
}

/// A file that changes no level queues no edge, whatever else it changes.
pub proof fn equal_levels_give_no_edge(
    pins: Seq<ClusterPinModel>,
    previous: Chips,
    current: Chips,
)
    requires
        forall|pin: (Seq<char>, u32)| #[trigger]
            line_of(previous, pin) matches Some(before) ==> (line_of(current, pin) matches Some(
                after,
            ) ==> after.level == before.level),
    ensures
        cluster_edges(pins, previous, current).0 == Seq::<(usize, EventType)>::empty(),
    decreases pins.len(),
{
    if pins.len() > 0 {
        equal_levels_give_no_edge(pins.drop_last(), previous, current);
        let last = pins.last().pin;
        assert(line_of(previous, last) is Some || line_of(previous, last) is None);
    }
}

/// A queued edge is that of a trigger pin whose line went the way the edge says.
pub proof fn queued_edges_are_seen(
    pins: Seq<ClusterPinModel>,
    previous: Chips,
    current: Chips,
    event: int,
)
    requires
        pins.len() <= usize::MAX,
        0 <= event < cluster_edges(pins, previous, current).0.len(),
    ensures
        ({
            let (index, kind) = cluster_edges(pins, previous, current).0[event];
            let pin = pins[index as int];
            &&& index < pins.len()
            &&& pin.config is Trigger
            &&& line_of(previous, pin.pin) matches Some(before)
            &&& line_of(current, pin.pin) matches Some(after)
            &&& (kind == EventType::Rising <==> before.level == PinLevel::Low && after.level
                == PinLevel::High)
            &&& (kind == EventType::Falling <==> before.level == PinLevel::High && after.level
                == PinLevel::Low)
        }),
    decreases pins.len(),
{
    if pins.len() > 0 {
        let rest = pins.drop_last();
        if event < cluster_edges(rest, previous, current).0.len() {
            queued_edges_are_seen(rest, previous, current, event);
            let index = cluster_edges(rest, previous, current).0[event].0;
            assert(rest[index as int] == pins[index as int]);
        }
    }
}

/// Once the watcher has failed, no change of the file and no other failure alters the
/// backend.
pub proof fn first_failure_stays(
    backend: MockBackend,
    path: Seq<char>,
    loaded: Result<BackendSnapshot, MockError>,
)
    requires
        backend@.error is Some,
    ensures
        reloaded(backend, path, loaded) == backend@,
{
}

/// A closed cluster reads and writes nothing.
pub proof fn closed_cluster_stays_closed(
    backend: BackendModel,
    id: u64,
    indices: Seq<usize>,
    values: Seq<PinLevel>,
)
    ensures
        ({
            let closed = BackendModel { clusters: backend.clusters.remove(id), ..backend };
            &&& read_outcome(closed, id, indices) == Err::<Seq<PinLevel>, MockErrorModel>(
                MockErrorModel::Closed,
            )
            &&& write_outcome(closed, id, indices, values) == Err::<Chips, MockErrorModel>(
                MockErrorModel::Closed,
            )
        }),
{
}

proof fn lemma_indices_count(names: Seq<Seq<char>>, pins: Seq<Seq<char>>)
    ensures
        indices_of_pins(names, pins) matches Ok(indices) ==> indices.len() == pins.len(),
    decreases pins.len(),
{
    if pins.len() > 0 {
        lemma_indices_count(names, pins.drop_last());
    }
}

/// Targets of between one and eight pins stay so in the cache: their values fit a byte.
pub proof fn cached_targets_are_narrow(
    names: Seq<Seq<char>>,
    targets: Seq<Seq<char>>,
    configs: Seq<TargetConfigRequest>,
)
    requires
        targets.len() == configs.len(),
        forall|i: int|
            0 <= i < configs.len() ==> 1 <= (#[trigger] configs[i]).pin_names().len() <= 8,
    ensures
        targets_cached(names, targets, configs) matches Ok(cache) ==> narrow(cache),
    decreases targets.len(),
{
    if targets.len() > 0 {
        assert forall|i: int| 0 <= i < configs.drop_last().len() implies 1 <= (
        #[trigger] configs.drop_last()[i]).pin_names().len() <= 8 by {
            assert(configs.drop_last()[i] == configs[i]);
        }
        cached_targets_are_narrow(names, targets.drop_last(), configs.drop_last());
        assert(configs.last() == configs[configs.len() - 1]);
        lemma_indices_count(names, configs.last().pin_names());
    }
}

proof fn lemma_configured_names(chips: Chips, configs: Seq<(Seq<char>, GPIOPinConfig)>)
    ensures
        pins_configured(chips, configs) matches Ok(pins) ==> {
            &&& pins.len() == configs.len()
            &&& forall|i: int| 0 <= i < pins.len() ==> (#[trigger] pins[i]).name == configs[i].0
        },
    decreases configs.len(),
{
    if configs.len() > 0 {
        lemma_configured_names(chips, configs.drop_last());
        assert(pin_configured(chips, configs.last().0, configs.last().1) matches Ok(pin) ==> pin.name
            == configs.last().0);
    }
}

proof fn lemma_index_found(names: Seq<Seq<char>>, pin: Seq<char>)
    requires
        names.contains(pin),
    ensures
        index_of_pin(names, pin) is Some,
    decreases names.len(),
{
    if names.last() != pin {
        let i = choose|i: int| 0 <= i < names.len() && names[i] == pin;
        assert(names.drop_last()[i] == pin);
        lemma_index_found(names.drop_last(), pin);
    }
}

proof fn lemma_indices_found(names: Seq<Seq<char>>, pins: Seq<Seq<char>>)
    requires
        forall|i: int| 0 <= i < pins.len() ==> names.contains(#[trigger] pins[i]),
    ensures
        indices_of_pins(names, pins) is Ok,
    decreases pins.len(),
{
    if pins.len() > 0 {
        assert forall|i: int| 0 <= i < pins.drop_last().len() implies names.contains(
            #[trigger] pins.drop_last()[i],
        ) by {
            assert(pins.drop_last()[i] == pins[i]);
        }
        lemma_indices_found(names, pins.drop_last());
        assert(names.contains(pins[pins.len() - 1]));
        lemma_index_found(names, pins.last());
    }
}

proof fn lemma_pin_listed(configs: Seq<TargetConfigRequest>, target: int, pin: int)
    requires
        0 <= target < configs.len(),
        0 <= pin < configs[target].pin_names().len(),
    ensures
        exists|i: int|
            0 <= i < all_pins(configs).len() && (#[trigger] all_pins(configs)[i]).0
                == configs[target].pin_names()[pin],
    decreases configs.len(),
{
    let rest = all_pins(configs.drop_last());
    let added = target_pins(configs.last());
    if target == configs.len() - 1 {
        let i = rest.len() + pin;
        assert(all_pins(configs)[i] == added[pin]);
    } else {
        lemma_pin_listed(configs.drop_last(), target, pin);
        assert(configs.drop_last()[target] == configs[target]);
        let i = choose|i: int|
            0 <= i < rest.len() && (#[trigger] rest[i]).0 == configs[target].pin_names()[pin];
        assert(all_pins(configs)[i] == rest[i]);
    }
}

/// A cluster that opens has every pin of the request that it was opened for, so an `init`
/// whose cluster opens succeeds.
pub proof fn opened_cluster_serves_its_targets(
    chips: Chips,
    targets: Seq<Seq<char>>,
    configs: Seq<TargetConfigRequest>,
)
    requires
        targets.len() == configs.len(),
    ensures
        pins_configured(chips, all_pins(configs)) matches Ok(pins) ==> targets_cached(
            pins.map_values(|pin: ClusterPinModel| pin.name),
            targets,
            configs,
        ) is Ok,
{
    lemma_configured_names(chips, all_pins(configs));
    if let Ok(pins) = pins_configured(chips, all_pins(configs)) {
        let names = pins.map_values(|pin: ClusterPinModel| pin.name);
        assert forall|t: int, p: int|
            0 <= t < configs.len() && 0 <= p < configs[t].pin_names().len() implies names.contains(
            #[trigger] configs[t].pin_names()[p],
        ) by {
            lemma_pin_listed(configs, t, p);
            let i = choose|i: int|
                0 <= i < all_pins(configs).len() && (#[trigger] all_pins(configs)[i]).0
                    == configs[t].pin_names()[p];
            assert(pins[i].name == all_pins(configs)[i].0);
            assert(names[i] == configs[t].pin_names()[p]);
        }
        lemma_all_cached(names, targets, configs);
    }
}

proof fn lemma_all_cached(
    names: Seq<Seq<char>>,
    targets: Seq<Seq<char>>,
    configs: Seq<TargetConfigRequest>,
)
    requires
        targets.len() == configs.len(),
        forall|t: int, p: int|
            0 <= t < configs.len() && 0 <= p < configs[t].pin_names().len() ==> names.contains(
                #[trigger] configs[t].pin_names()[p],
            ),
    ensures
        targets_cached(names, targets, configs) is Ok,
    decreases targets.len(),
{
    if targets.len() > 0 {
        let rest = configs.drop_last();
        assert forall|t: int, p: int|
            0 <= t < rest.len() && 0 <= p < rest[t].pin_names().len() implies names.contains(
            #[trigger] rest[t].pin_names()[p],
        ) by {
            assert(rest[t] == configs[t]);
            assert(names.contains(configs[t].pin_names()[p]));
        }
        lemma_all_cached(names, targets.drop_last(), rest);
        let last = configs.len() - 1;
        assert forall|p: int| 0 <= p < configs.last().pin_names().len() implies names.contains(
            #[trigger] configs.last().pin_names()[p],
        ) by {
            assert(names.contains(configs[last].pin_names()[p]));
        }
        lemma_indices_found(names, configs.last().pin_names());
    }
}

/// Whether every delayed write comes after the start and within a limit.
pub open spec fn lags_within(plan: WritePlan, limit_ms: u32) -> bool {
    forall|lag: u32| #[trigger] plan.delayed.contains_key(lag) ==> 0 < lag <= limit_ms
}

proof fn lemma_step_lags(
    plan: WritePlan,
    target: Seq<char>,
    indices: Seq<usize>,
    steps: Seq<SetStepRequest>,
    limit_ms: u32,
    count: nat,
)
    requires
        lags_within(plan, limit_ms),
    ensures
        steps_planned(plan, target, indices, steps, limit_ms, count) matches Ok(planned)
            ==> lags_within(planned.0, limit_ms),
    decreases count,
{
    if count > 0 {
        lemma_step_lags(plan, target, indices, steps, limit_ms, (count - 1) as nat);
    }
}

/// A `set` that is accepted is done within the time limit.
pub proof fn planned_writes_are_within_the_limit(
    cache: CacheModel,
    targets: Seq<Seq<char>>,
    values: Seq<SetTargetValue>,
    limit_steps: usize,
    limit_ms: u32,
    count: nat,
)
    ensures
        targets_planned(cache, targets, values, limit_steps, limit_ms, count) matches Ok(plan)
            ==> lags_within(plan, limit_ms),
    decreases count,
{
    if count > 0 {
        let fewer = (count - 1) as nat;
        planned_writes_are_within_the_limit(cache, targets, values, limit_steps, limit_ms, fewer);
        if let Ok(plan) = targets_planned(cache, targets, values, limit_steps, limit_ms, fewer) {
            if let SetTargetValue::Sequence(steps) = values[count - 1] {
                lemma_step_lags(
                    plan,
                    targets[count - 1],
                    cache.targets[targets[count - 1]].1,
                    steps@,
                    limit_ms,
                    steps@.len(),
                );
            }
        }
    }
}

} // verus!

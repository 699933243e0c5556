//! What holds of the state of a backend: how documents, `init` requests, writes and reloads
//! make it what it is.

use vstd::prelude::*;
use vstd::std_specs::convert::FromSpec;

use crate::cluster::backend::levels_written;
use crate::cluster::backend::pins_configured;
use crate::cluster::backend::reloaded;
use crate::cluster::backend::BackendModel;
use crate::cluster::backend::Chips;
use crate::cluster::backend::MockBackend;
use crate::cluster::cache::index_of_pin;
use crate::cluster::cache::indices_of_pins;
use crate::cluster::cache::targets_cached;
use crate::cluster::cache::CacheErrorModel;
use crate::cluster::cache::CacheModel;
use crate::cluster::context::ContextModel;
use crate::cluster::document::chips_read;
use crate::cluster::document::line_read;
use crate::cluster::document::lines_read;
use crate::cluster::document::XmlChipModel;
use crate::cluster::document::XmlLineModel;
use crate::cluster::document::snapshot_read;
use crate::cluster::error::GPIOClusterError;
use crate::cluster::error::MockError;
use crate::cluster::error::MockErrorModel;
use crate::cluster::init::all_pins;
use crate::cluster::init::init_outcome;
use crate::cluster::init::target_pin_config;
use crate::cluster::mock::cluster_edges;
use crate::cluster::mock::ClusterPinModel;
use crate::cluster::pinspec::named_pin;
use crate::cluster::pinspec::PinSpecParseError;
use crate::cluster::properties::GPIOInputProperties;
use crate::cluster::properties::GPIOOutputProperties;
use crate::cluster::properties::GPIOPinConfig;
use crate::cluster::properties::GPIOProperties;
use crate::cluster::properties::PinLevel;
use crate::cluster::properties::PropertyBiasMode;
use crate::cluster::properties::PropertyDriveMode;
use crate::cluster::properties::PropertyEventMode;
use crate::cluster::request_laws::lag_up_to;
use crate::cluster::set::PinWriteInfo;
use crate::cluster::set::SetHandler;
use crate::cluster::set::set_begun;
use crate::cluster::set::steps_planned;
use crate::cluster::set::targets_planned;
use crate::cluster::set::SetStepRequest;
use crate::cluster::set::SetTargetValue;
use crate::cluster::set::WriteFault;
use crate::cluster::set::WritePlan;
use crate::cluster::set::write_indices;
use crate::cluster::set::write_levels;
use crate::cluster::snapshot::line_of;
use crate::cluster::snapshot::structure_fault;
use crate::cluster::snapshot::BackendSnapshot;
use crate::cluster::snapshot::LineMode;
use crate::cluster::snapshot::LineSnapshot;
use crate::cluster::watch::names_file;
use crate::number::parsed_number;
use crate::protocol::request::BiasMode;
use crate::protocol::request::DriveMode;
use crate::protocol::request::EdgeMode;
use crate::protocol::request::TargetConfigRequest;
use crate::protocol::response::ResponseModel;
use crate::session::compiled::TargetMode;
use crate::text::blank;

verus! {

// ---------------------------------------------------------------------------
// Modes
// ---------------------------------------------------------------------------

/// Modes of requests and of pins agree by name; a pin without a bias of its own has none. A
/// level is one bit, and any other byte than zero is high.
pub proof fn modes_keep_their_names(value: u8)
    ensures
        <PropertyBiasMode as FromSpec<BiasMode>>::from_spec(BiasMode::PullUp)
            == PropertyBiasMode::PullUp,
        <PropertyBiasMode as FromSpec<BiasMode>>::from_spec(BiasMode::PullDown)
            == PropertyBiasMode::PullDown,
        <PropertyBiasMode as FromSpec<BiasMode>>::from_spec(BiasMode::Disabled)
            == PropertyBiasMode::Disabled,
        <PropertyBiasMode as FromSpec<BiasMode>>::from_spec(BiasMode::AsIs)
            == PropertyBiasMode::Disabled,
        <PropertyDriveMode as FromSpec<DriveMode>>::from_spec(DriveMode::PushPull)
            == PropertyDriveMode::PushPull,
        <PropertyDriveMode as FromSpec<DriveMode>>::from_spec(DriveMode::OpenDrain)
            == PropertyDriveMode::OpenDrain,
        <PropertyDriveMode as FromSpec<DriveMode>>::from_spec(DriveMode::OpenSource)
            == PropertyDriveMode::OpenSource,
        <PropertyEventMode as FromSpec<EdgeMode>>::from_spec(EdgeMode::Rising)
            == PropertyEventMode::Rising,
        <PropertyEventMode as FromSpec<EdgeMode>>::from_spec(EdgeMode::Falling)
            == PropertyEventMode::Falling,
        <PropertyEventMode as FromSpec<EdgeMode>>::from_spec(EdgeMode::Both)
            == PropertyEventMode::Both,
        <PinLevel as FromSpec<u8>>::from_spec(value) == PinLevel::Low <==> value == 0,
        <u8 as FromSpec<PinLevel>>::from_spec(PinLevel::Low) == 0,
        <u8 as FromSpec<PinLevel>>::from_spec(PinLevel::High) == 1,
{
}

// ---------------------------------------------------------------------------
// set
// ---------------------------------------------------------------------------

/// Whether the steps of a sequence may be set: not too many, each but the first after a lag,
/// and all of them within the limit of time.
pub open spec fn steps_allowed(
    steps: Seq<SetStepRequest>,
    limit_steps: usize,
    limit_ms: u32,
) -> bool {
    &&& steps.len() <= limit_steps
    &&& forall|i: int| 0 < i < steps.len() ==> (#[trigger] steps[i]).lag > 0
    &&& forall|i: int| 0 <= i < steps.len() ==> #[trigger] lag_up_to(steps, i) <= limit_ms
}

/// Whether a value may be set on a target.
pub open spec fn value_allowed(
    cache: CacheModel,
    target: Seq<char>,
    value: SetTargetValue,
    limit_steps: usize,
    limit_ms: u32,
) -> bool {
    &&& cache.targets.contains_key(target)
    &&& cache.targets[target].0 == TargetMode::Output
    &&& value matches SetTargetValue::Sequence(steps) ==> steps_allowed(
        steps@,
        limit_steps,
        limit_ms,
    )
}

proof fn lemma_steps_allowed(
    plan: WritePlan,
    target: Seq<char>,
    indices: Seq<usize>,
    steps: Seq<SetStepRequest>,
    limit_ms: u32,
    count: nat,
)
    requires
        count <= steps.len(),
    ensures
        steps_planned(plan, target, indices, steps, limit_ms, count) is Ok <==> {
            &&& forall|i: int| 0 < i < count ==> (#[trigger] steps[i]).lag > 0
            &&& forall|i: int| 0 <= i < count ==> #[trigger] lag_up_to(steps, i) <= limit_ms
        },
        steps_planned(plan, target, indices, steps, limit_ms, count) matches Ok((_, lag)) ==> lag
            == lag_up_to(steps, count - 1),
        steps_planned(plan, target, indices, steps, limit_ms, count) matches Err(fault)
            ==> step_refused(target, steps, limit_ms, fault),
    decreases count,
{
    if count > 0 {
        let last = count - 1;
        lemma_steps_allowed(plan, target, indices, steps, limit_ms, last as nat);
        assert(lag_up_to(steps, last) == lag_up_to(steps, last - 1) + steps[last].lag as nat);
        let before = steps_planned(plan, target, indices, steps, limit_ms, last as nat);
        let now = steps_planned(plan, target, indices, steps, limit_ms, count);
        if before is Ok && now is Err {
            assert(step_refused_at(target, steps, limit_ms, now->Err_0, last));
        }
        if before is Ok {
            if count > 1 && steps[last].lag == 0 {
                assert(!(forall|i: int| 0 < i < count ==> (#[trigger] steps[i]).lag > 0));
            }
        }
    }
}

/// Whether a step is the first that is refused, and why.
pub open spec fn step_refused_at(
    target: Seq<char>,
    steps: Seq<SetStepRequest>,
    limit_ms: u32,
    fault: WriteFault,
    step: int,
) -> bool {
    &&& 0 <= step < steps.len()
    &&& forall|i: int| 0 < i < step ==> (#[trigger] steps[i]).lag > 0
    &&& forall|i: int| 0 <= i < step ==> #[trigger] lag_up_to(steps, i) <= limit_ms
    &&& if step > 0 && steps[step].lag == 0 {
        fault == (WriteFault::InvalidLag { target, step: step as usize })
    } else {
        lag_up_to(steps, step) > limit_ms && fault == (
        WriteFault::TotalExecutionTimeLimitExceeded {
            total_ms: lag_up_to(steps, step) as u64,
            limit: limit_ms,
        })
    }
}

/// Whether a sequence is refused for the first of its steps that has no lag or lies beyond the
/// limit of time.
pub open spec fn step_refused(
    target: Seq<char>,
    steps: Seq<SetStepRequest>,
    limit_ms: u32,
    fault: WriteFault,
) -> bool {
    exists|step: int| #[trigger] step_refused_at(target, steps, limit_ms, fault, step)
}

/// Whether a value is refused, and why.
pub open spec fn value_refused(
    cache: CacheModel,
    target: Seq<char>,
    value: SetTargetValue,
    limit_steps: usize,
    limit_ms: u32,
    fault: WriteFault,
) -> bool {
    if !cache.targets.contains_key(target) {
        fault == WriteFault::Cache(CacheErrorModel::UnknownTarget { target })
    } else if cache.targets[target].0 != TargetMode::Output {
        fault == WriteFault::Cache(CacheErrorModel::TargetNotWritable { target })
    } else {
        &&& value matches SetTargetValue::Sequence(steps)
        &&& if steps@.len() > limit_steps {
            fault == (WriteFault::SequenceStepLimitExceeded {
                target,
                steps: steps@.len() as usize,
                limit: limit_steps,
            })
        } else {
            step_refused(target, steps@, limit_ms, fault)
        }
    }
}

/// A `set` is planned exactly where every value may be set on its target; otherwise the first
/// that may not is named, with the reason.
pub proof fn only_allowed_values_are_set(
    cache: CacheModel,
    targets: Seq<Seq<char>>,
    values: Seq<SetTargetValue>,
    limit_steps: usize,
    limit_ms: u32,
    count: nat,
)
    requires
        count <= targets.len(),
        count <= values.len(),
    ensures
        targets_planned(cache, targets, values, limit_steps, limit_ms, count) is Ok <==> forall|
            t: int,
        |
            0 <= t < count ==> value_allowed(
                cache,
                #[trigger] targets[t],
                values[t],
                limit_steps,
                limit_ms,
            ),
        targets_planned(cache, targets, values, limit_steps, limit_ms, count) matches Err(fault)
            ==> exists|t: int|
            {
                &&& 0 <= t < count
                &&& value_refused(
                    cache,
                    #[trigger] targets[t],
                    values[t],
                    limit_steps,
                    limit_ms,
                    fault,
                )
                &&& forall|u: int|
                    0 <= u < t ==> value_allowed(
                        cache,
                        #[trigger] targets[u],
                        values[u],
                        limit_steps,
                        limit_ms,
                    )
            },
    decreases count,
{
    if count > 0 {
        let last = count - 1;
        only_allowed_values_are_set(cache, targets, values, limit_steps, limit_ms, last as nat);
        let before = targets_planned(cache, targets, values, limit_steps, limit_ms, last as nat);
        let target = targets[last];
        if let Ok(plan) = before {
            if let SetTargetValue::Sequence(steps) = values[last] {
                if cache.targets.contains_key(target) {
                    lemma_steps_allowed(
                        plan,
                        target,
                        cache.targets[target].1,
                        steps@,
                        limit_ms,
                        steps@.len(),
                    );
                }
            }
        }
    }
}

// ---------------------------------------------------------------------------
// init
// ---------------------------------------------------------------------------

/// Whether a pin of a cluster is the named line, configured as asked, with the properties that
/// the line has.
pub open spec fn pin_opened(
    chips: Chips,
    pin: ClusterPinModel,
    name: Seq<char>,
    config: GPIOPinConfig,
) -> bool {
    &&& pin.name == name
    &&& named_pin(name) == Ok::<_, PinSpecParseError>(pin.pin)
    &&& pin.config == config
    &&& line_of(chips, pin.pin) matches Some(line) && match line.mode {
        LineMode::Input { bias, event } => pin.props == GPIOProperties::Input(
            GPIOInputProperties { bias, event },
        ),
        LineMode::Output { drive } => pin.props == GPIOProperties::Output(
            GPIOOutputProperties { drive },
        ),
    }
}

proof fn lemma_pins_opened(chips: Chips, configs: Seq<(Seq<char>, GPIOPinConfig)>)
    requires
        pins_configured(chips, configs) is Ok,
    ensures
        pins_configured(chips, configs)->Ok_0.len() == configs.len(),
        forall|i: int|
            0 <= i < configs.len() ==> pin_opened(
                chips,
                #[trigger] pins_configured(chips, configs)->Ok_0[i],
                configs[i].0,
                configs[i].1,
            ),
    decreases configs.len(),
{
    if configs.len() > 0 {
        let front = configs.drop_last();
        lemma_pins_opened(chips, front);
        let before = pins_configured(chips, front)->Ok_0;
        let pins = pins_configured(chips, configs)->Ok_0;
        assert forall|i: int| 0 <= i < configs.len() implies pin_opened(
            chips,
            #[trigger] pins[i],
            configs[i].0,
            configs[i].1,
        ) by {
            if i < front.len() {
                assert(pins[i] == before[i]);
                assert(front[i] == configs[i]);
            }
        }
    }
}

/// Whether an index is that of the last pin of a name.
pub open spec fn last_of_name(names: Seq<Seq<char>>, index: usize, name: Seq<char>) -> bool {
    &&& index < names.len()
    &&& names[index as int] == name
    &&& forall|later: int| index < later < names.len() ==> #[trigger] names[later] != name
}

proof fn lemma_index(names: Seq<Seq<char>>, pin: Seq<char>)
    requires
        names.len() <= usize::MAX,
    ensures
        index_of_pin(names, pin) matches Some(index) ==> last_of_name(names, index, pin),
    decreases names.len(),
{
    if names.len() > 0 {
        let front = names.drop_last();
        lemma_index(front, pin);
        assert(forall|i: int| 0 <= i < front.len() ==> #[trigger] front[i] == names[i]);
        if let Some(index) = index_of_pin(names, pin) {
            if names.last() != pin {
                assert forall|later: int| index < later < names.len() implies
                    #[trigger] names[later] != pin by {
                    if later < front.len() {
                        assert(front[later] != pin);
                    }
                }
            }
        }
    }
}

proof fn lemma_indices(names: Seq<Seq<char>>, pins: Seq<Seq<char>>)
    requires
        names.len() <= usize::MAX,
    ensures
        indices_of_pins(names, pins) matches Ok(indices) ==> {
            &&& indices.len() == pins.len()
            &&& forall|i: int|
                0 <= i < pins.len() ==> last_of_name(names, #[trigger] indices[i], pins[i])
        },
    decreases pins.len(),
{
    if pins.len() > 0 {
        lemma_indices(names, pins.drop_last());
        lemma_index(names, pins.last());
    }
}

/// The direction that a target is asked to have.
pub open spec fn direction_asked(config: TargetConfigRequest, mode: TargetMode) -> bool {
    &&& config is Input <==> mode == TargetMode::Input
    &&& config is Output <==> mode == TargetMode::Output
    &&& config is Trigger <==> mode == TargetMode::Trigger
}

/// Whether a target is known with its direction, its pins, and whether it was named by one pin.
pub open spec fn target_known(
    cache: CacheModel,
    names: Seq<Seq<char>>,
    target: Seq<char>,
    config: TargetConfigRequest,
) -> bool {
    let (mode, indices, one) = cache.targets[target];
    &&& cache.targets.contains_key(target)
    &&& direction_asked(config, mode)
    &&& one == config.names_one_pin()
    &&& indices.len() == config.pin_names().len()
    &&& forall|p: int|
        0 <= p < indices.len() ==> last_of_name(
            names,
            #[trigger] indices[p],
            config.pin_names()[p],
        )
}

/// Every target of an `init` is known to the session that it leaves, with its direction and
/// with its pins in order; no other target is.
pub proof fn targets_are_known_as_asked(
    names: Seq<Seq<char>>,
    targets: Seq<Seq<char>>,
    configs: Seq<TargetConfigRequest>,
)
    requires
        names.len() <= usize::MAX,
        targets.len() == configs.len(),
        targets.no_duplicates(),
    ensures
        targets_cached(names, targets, configs) matches Ok(cache) ==> {
            &&& forall|t: int|
                0 <= t < targets.len() ==> target_known(
                    cache,
                    names,
                    #[trigger] targets[t],
                    configs[t],
                )
            &&& forall|target: Seq<char>| #[trigger]
                cache.targets.contains_key(target) ==> targets.contains(target)
        },
    decreases targets.len(),
{
    if targets.len() > 0 {
        let front = targets.drop_last();
        let last = targets.len() - 1;
        let earlier = configs.drop_last();
        targets_are_known_as_asked(names, front, earlier);
        lemma_indices(names, configs.last().pin_names());
        if let Ok(cache) = targets_cached(names, targets, configs) {
            let before = targets_cached(names, front, earlier)->Ok_0;
            assert forall|t: int| 0 <= t < targets.len() implies target_known(
                cache,
                names,
                #[trigger] targets[t],
                configs[t],
            ) by {
                if t < last {
                    assert(front[t] == targets[t]);
                    assert(earlier[t] == configs[t]);
                    assert(targets[t] != targets[last]);
                }
            }
            assert forall|target: Seq<char>| #[trigger]
                cache.targets.contains_key(target) implies targets.contains(target) by {
                if target == targets[last] {
                } else {
                    assert(before.targets.contains_key(target));
                    let i = choose|i: int| 0 <= i < front.len() && front[i] == target;
                    assert(targets[i] == target);
                }
            }
        }
    }
}

/// The edges of a pin belong to a trigger that names the pin. Every trigger has its pin
/// there, and nothing else has.
pub proof fn edges_belong_to_their_triggers(
    names: Seq<Seq<char>>,
    targets: Seq<Seq<char>>,
    configs: Seq<TargetConfigRequest>,
)
    requires
        names.len() <= usize::MAX,
        targets.len() == configs.len(),
    ensures
        targets_cached(names, targets, configs) matches Ok(cache) ==> {
            &&& forall|t: int|
                0 <= t < targets.len() && (#[trigger] configs[t]) is Trigger ==> exists|index: usize|
                    #[trigger] cache.triggers.contains_key(index) && last_of_name(
                        names,
                        index,
                        configs[t]->Trigger_pin@,
                    )
            &&& forall|index: usize| #[trigger]
                cache.triggers.contains_key(index) ==> exists|t: int|
                    #![trigger configs[t]]
                    {
                        &&& 0 <= t < targets.len()
                        &&& configs[t] is Trigger
                        &&& cache.triggers[index] == targets[t]
                        &&& last_of_name(names, index, configs[t]->Trigger_pin@)
                    }
        },
    decreases targets.len(),
{
    if targets.len() > 0 {
        let front = targets.drop_last();
        let earlier = configs.drop_last();
        let last = targets.len() - 1;
        edges_belong_to_their_triggers(names, front, earlier);
        lemma_indices(names, configs.last().pin_names());
        assert(configs.last() == configs[last]);
        if let Ok(cache) = targets_cached(names, targets, configs) {
            let before = targets_cached(names, front, earlier)->Ok_0;
            let indices = indices_of_pins(names, configs[last].pin_names())->Ok_0;
            if configs[last] is Trigger {
                assert(configs[last].pin_names()[0] == configs[last]->Trigger_pin@);
                assert(last_of_name(names, indices[0], configs[last]->Trigger_pin@));
                assert(cache.triggers.contains_key(indices[0]));
            }
            assert forall|t: int|
                0 <= t < targets.len() && (#[trigger] configs[t]) is Trigger implies exists|
                index: usize,
            | #[trigger]
                cache.triggers.contains_key(index) && last_of_name(
                    names,
                    index,
                    configs[t]->Trigger_pin@,
                ) by {
                if t < last {
                    assert(earlier[t] == configs[t]);
                    let index = choose|index: usize| #[trigger]
                        before.triggers.contains_key(index) && last_of_name(
                            names,
                            index,
                            earlier[t]->Trigger_pin@,
                        );
                    assert(cache.triggers.contains_key(index));
                }
            }
            assert forall|index: usize| #[trigger] cache.triggers.contains_key(index) implies exists|
                t: int,
            |
                #![trigger configs[t]]
                {
                    &&& 0 <= t < targets.len()
                    &&& configs[t] is Trigger
                    &&& cache.triggers[index] == targets[t]
                    &&& last_of_name(names, index, configs[t]->Trigger_pin@)
                } by {
                if configs[last] is Trigger && index == indices[0] {
                    assert(cache.triggers[index] == targets[last]);
                } else {
                    assert(before.triggers.contains_key(index));
                    let t = choose|t: int|
                        #![trigger earlier[t]]
                        {
                            &&& 0 <= t < front.len()
                            &&& earlier[t] is Trigger
                            &&& before.triggers[index] == front[t]
                            &&& last_of_name(names, index, earlier[t]->Trigger_pin@)
                        };
                    assert(configs[t] == earlier[t]);
                }
            }
        }
    }
}

/// A pin is named by its chip, a `:` and the offset of its line. The first `:` counts; what is
/// in front of it must hold more than whitespace, and what is behind it must be a number.
pub proof fn pins_are_named_by_chip_and_offset(chip: Seq<char>, rest: Seq<char>)
    requires
        !chip.contains(':'),
    ensures
        named_pin(chip) == Err::<(Seq<char>, u32), _>(PinSpecParseError::InvalidFormat),
        blank(chip) ==> named_pin(chip + ":"@ + rest) == Err::<(Seq<char>, u32), _>(
            PinSpecParseError::EmptyChipName,
        ),
        !blank(chip) ==> match parsed_number(rest, u32::MAX as nat) {
            Ok(offset) => named_pin(chip + ":"@ + rest) == Ok::<_, PinSpecParseError>(
                (chip, offset as u32),
            ),
            Err(_) => named_pin(chip + ":"@ + rest) == Err::<(Seq<char>, u32), _>(
                PinSpecParseError::InvalidLineOffset,
            ),
        },
{
    reveal_strlit(":");
    let text = chip + ":"@ + rest;
    chip.index_of_first_ensures(':');
    text.index_of_first_ensures(':');
    assert(text[chip.len() as int] == ':');
    assert(text.contains(':'));
    let at = text.index_of_first(':').unwrap();
    assert(at == chip.len()) by {
        if at < chip.len() {
            assert(chip[at] == text[at]);
            assert(chip.contains(chip[at]));
        }
    }
    assert(text.take(at) =~= chip);
    assert(text.skip(at + 1) =~= rest);
}

/// The names of the pins of a cluster.
pub open spec fn pin_names(pins: Seq<ClusterPinModel>) -> Seq<Seq<char>> {
    Seq::new(pins.len(), |i: int| pins[i].name)
}

/// An `init` that is done leaves a session with its targets and a new cluster, with no edge
/// pending. The cluster has the pins of the targets in order, each on the line that it names,
/// configured as its target asks. Other clusters and the chips stay as they are.
pub proof fn an_init_opens_what_it_asks_for(
    session: ContextModel,
    backend: BackendModel,
    request_id: Seq<char>,
    targets: Seq<Seq<char>>,
    configs: Seq<TargetConfigRequest>,
)
    requires
        targets.len() == configs.len(),
        targets.no_duplicates(),
        all_pins(configs).len() <= usize::MAX,
        backend.next_cluster_id < u64::MAX,
        init_outcome(session, backend, request_id, targets, configs).2 is Done,
    ensures
        ({
            let (after, opened, _) = init_outcome(session, backend, request_id, targets, configs);
            let left = after.initialized->Some_0;
            let cluster = opened.clusters[left.cluster];
            &&& session.initialized is None
            &&& backend.error is None
            &&& after.initialized is Some
            &&& after.setting == session.setting
            &&& left.init_request_id == request_id
            &&& left.cluster == backend.next_cluster_id
            &&& opened.next_cluster_id == backend.next_cluster_id + 1
            &&& opened.chips == backend.chips
            &&& opened.error == backend.error
            &&& opened.clusters.contains_key(left.cluster)
            &&& forall|other: u64|
                other != left.cluster ==> (#[trigger] opened.clusters.contains_key(other)
                    <==> backend.clusters.contains_key(other)) && opened.clusters[other]
                    == backend.clusters[other]
            &&& cluster.pending.len() == 0
            &&& cluster.pins.len() == all_pins(configs).len()
            &&& forall|i: int|
                0 <= i < cluster.pins.len() ==> pin_opened(
                    backend.chips->Some_0,
                    #[trigger] cluster.pins[i],
                    all_pins(configs)[i].0,
                    all_pins(configs)[i].1,
                )
            &&& forall|t: int|
                0 <= t < targets.len() ==> target_known(
                    left.cache,
                    pin_names(cluster.pins),
                    #[trigger] targets[t],
                    configs[t],
                )
        }),
{
    let chips = backend.chips->Some_0;
    lemma_pins_opened(chips, all_pins(configs));
    let pins = pins_configured(chips, all_pins(configs))->Ok_0;
    let names = pins.map_values(|pin: ClusterPinModel| pin.name);
    assert(names =~= pin_names(pins));
    targets_are_known_as_asked(names, targets, configs);
}

/// An `init` on a session that has had one is refused and changes nothing, and so is one whose
/// pins cannot be had.
pub proof fn a_refused_init_leaves_the_session(
    session: ContextModel,
    backend: BackendModel,
    request_id: Seq<char>,
    targets: Seq<Seq<char>>,
    configs: Seq<TargetConfigRequest>,
)
    ensures
        ({
            let (after, _, answer) = init_outcome(session, backend, request_id, targets, configs);
            &&& answer is Done || answer is Error
            &&& answer is Error ==> after == session
            &&& session.initialized is Some ==> answer == ResponseModel::Error(
                "session is already initialized"@,
            )
        }),
{
}

/// The pins of the targets of an `init` stand target by target in the cluster, each configured
/// as its target.
pub proof fn pins_stand_target_by_target(configs: Seq<TargetConfigRequest>, target: int, pin: int)
    requires
        0 <= target < configs.len(),
        0 <= pin < configs[target].pin_names().len(),
    ensures
        ({
            let place = all_pins(configs.take(target)).len() + pin;
            &&& 0 <= place < all_pins(configs).len()
            &&& all_pins(configs)[place].0 == configs[target].pin_names()[pin]
            &&& all_pins(configs)[place].1 == target_pin_config(configs[target])
        }),
    decreases configs.len(),
{
    let front = configs.drop_last();
    if target < configs.len() - 1 {
        assert(front[target] == configs[target]);
        assert(front.take(target) =~= configs.take(target));
        pins_stand_target_by_target(front, target, pin);
        let place = all_pins(configs.take(target)).len() + pin;
        assert(all_pins(configs)[place] == all_pins(front)[place]);
    } else {
        assert(configs.take(target) =~= front);
    }
}

// ---------------------------------------------------------------------------
// Documents
// ---------------------------------------------------------------------------

proof fn lemma_lines(chip: Seq<char>, lines: Seq<XmlLineModel>)
    requires
        lines_read(chip, lines) is Ok,
    ensures
        forall|l: int|
            0 <= l < lines.len() ==> lines_read(chip, lines)->Ok_0.contains_key(
                (#[trigger] lines[l]).id,
            ) && line_read(chip, lines[l]) == Ok::<LineSnapshot, MockErrorModel>(
                lines_read(chip, lines)->Ok_0[lines[l].id],
            ),
        forall|offset: u32| #[trigger]
            lines_read(chip, lines)->Ok_0.contains_key(offset) ==> exists|l: int|
                0 <= l < lines.len() && (#[trigger] lines[l]).id == offset,
    decreases lines.len(),
{
    if lines.len() > 0 {
        let front = lines.drop_last();
        let last = lines.len() - 1;
        lemma_lines(chip, front);
        let before = lines_read(chip, front)->Ok_0;
        let after = lines_read(chip, lines)->Ok_0;
        assert(lines.last() == lines[last]);
        assert forall|l: int| 0 <= l < lines.len() implies after.contains_key(
            (#[trigger] lines[l]).id,
        ) && line_read(chip, lines[l]) == Ok::<LineSnapshot, MockErrorModel>(
            after[lines[l].id],
        ) by {
            if l < last {
                assert(front[l] == lines[l]);
            }
        }
        assert forall|offset: u32| #[trigger] after.contains_key(offset) implies exists|l: int|
            0 <= l < lines.len() && (#[trigger] lines[l]).id == offset by {
            if before.contains_key(offset) {
                let l = choose|l: int| 0 <= l < front.len() && (#[trigger] front[l]).id == offset;
                assert(lines[l].id == offset);
            } else {
                assert(lines[last].id == offset);
            }
        }
    }
}

proof fn lemma_chips(chips: Seq<XmlChipModel>)
    requires
        chips_read(chips) is Ok,
    ensures
        forall|c: int|
            0 <= c < chips.len() ==> chips_read(chips)->Ok_0.contains_key((#[trigger] chips[c]).id)
                && lines_read(chips[c].id, chips[c].lines) == Ok::<
                Map<u32, LineSnapshot>,
                MockErrorModel,
            >(chips_read(chips)->Ok_0[chips[c].id]),
        forall|chip: Seq<char>| #[trigger]
            chips_read(chips)->Ok_0.contains_key(chip) ==> exists|c: int|
                0 <= c < chips.len() && (#[trigger] chips[c]).id == chip,
    decreases chips.len(),
{
    if chips.len() > 0 {
        let front = chips.drop_last();
        let last = chips.len() - 1;
        lemma_chips(front);
        let before = chips_read(front)->Ok_0;
        let after = chips_read(chips)->Ok_0;
        assert(chips.last() == chips[last]);
        assert forall|c: int| 0 <= c < chips.len() implies after.contains_key(
            (#[trigger] chips[c]).id,
        ) && lines_read(chips[c].id, chips[c].lines) == Ok::<
            Map<u32, LineSnapshot>,
            MockErrorModel,
        >(after[chips[c].id]) by {
            if c < last {
                assert(front[c] == chips[c]);
            }
        }
        assert forall|chip: Seq<char>| #[trigger] after.contains_key(chip) implies exists|c: int|
            0 <= c < chips.len() && (#[trigger] chips[c]).id == chip by {
            if before.contains_key(chip) {
                let c = choose|c: int| 0 <= c < front.len() && (#[trigger] front[c]).id == chip;
                assert(chips[c].id == chip);
            } else {
                assert(chips[last].id == chip);
            }
        }
    }
}

/// A document that is read describes the chips: each line of a chip is what its element says,
/// and there is no chip and no line without an element.
pub proof fn chips_are_what_their_document_says(chips: Seq<XmlChipModel>)
    requires
        chips_read(chips) is Ok,
    ensures
        forall|c: int, l: int|
            0 <= c < chips.len() && 0 <= l < chips[c].lines.len() ==> {
                let line = #[trigger] chips[c].lines[l];
                let read = line_of(chips_read(chips)->Ok_0, (chips[c].id, line.id));
                read is Some && line_read(chips[c].id, line) == Ok::<LineSnapshot, MockErrorModel>(
                    read->Some_0,
                )
            },
        forall|pin: (Seq<char>, u32)| #[trigger]
            line_of(chips_read(chips)->Ok_0, pin) is Some ==> exists|c: int, l: int|
                0 <= c < chips.len() && 0 <= l < chips[c].lines.len() && chips[c].id == pin.0 && (
                #[trigger] chips[c].lines[l]).id == pin.1,
{
    lemma_chips(chips);
    let read = chips_read(chips)->Ok_0;
    assert forall|c: int, l: int|
        0 <= c < chips.len() && 0 <= l < chips[c].lines.len() implies {
        let line = #[trigger] chips[c].lines[l];
        let found = line_of(read, (chips[c].id, line.id));
        found is Some && line_read(chips[c].id, line) == Ok::<LineSnapshot, MockErrorModel>(
            found->Some_0,
        )
    } by {
        let chip = chips[c];
        lemma_lines(chip.id, chip.lines);
    }
    assert forall|pin: (Seq<char>, u32)| #[trigger] line_of(read, pin) is Some implies exists|
        c: int,
        l: int,
    |
        0 <= c < chips.len() && 0 <= l < chips[c].lines.len() && chips[c].id == pin.0 && (
        #[trigger] chips[c].lines[l]).id == pin.1 by {
        assert(read.contains_key(pin.0));
        let c = choose|c: int| 0 <= c < chips.len() && (#[trigger] chips[c]).id == pin.0;
        let chip = chips[c];
        lemma_lines(chip.id, chip.lines);
        assert(read[chip.id].contains_key(pin.1));
        let l = choose|l: int| 0 <= l < chip.lines.len() && (#[trigger] chip.lines[l]).id == pin.1;
        assert(chips[c].lines[l].id == pin.1);
    }
}

// ---------------------------------------------------------------------------
// Writes and reloads
// ---------------------------------------------------------------------------

/// Writing to pins succeeds exactly where each has an output line, and changes no line but
/// theirs.
pub proof fn writes_change_no_other_line(
    chips: Chips,
    pins: Seq<ClusterPinModel>,
    indices: Seq<usize>,
    values: Seq<PinLevel>,
    pin: (Seq<char>, u32),
)
    requires
        indices.len() == values.len(),
    ensures
        levels_written(chips, pins, indices, values) is Ok <==> forall|i: int|
            0 <= i < indices.len() ==> (line_of(chips, pins[#[trigger] indices[i] as int].pin)
                matches Some(line) && line.mode is Output),
        levels_written(chips, pins, indices, values) matches Ok(after) ==> (forall|i: int|
            0 <= i < indices.len() ==> pins[#[trigger] indices[i] as int].pin != pin) ==> line_of(
            after,
            pin,
        ) == line_of(chips, pin),
    decreases indices.len(),
{
    if indices.len() > 0 {
        let front = indices.drop_last();
        let last = indices.len() - 1;
        let written = pins[indices[last] as int].pin;
        writes_change_no_other_line(chips, pins, front, values.drop_last(), pin);
        crate::cluster::laws::writes_reach_outputs_only(
            chips,
            pins,
            front,
            values.drop_last(),
            written,
        );
        assert(forall|i: int| 0 <= i < front.len() ==> #[trigger] front[i] == indices[i]);
        assert(indices.last() == indices[last]);
        let before = levels_written(chips, pins, front, values.drop_last());
        if before is Ok {
            assert forall|i: int| 0 <= i < last implies (line_of(
                chips,
                pins[#[trigger] indices[i] as int].pin,
            ) matches Some(line) && line.mode is Output) by {
                assert(front[i] == indices[i]);
            }
        } else {
            let i = choose|i: int|
                0 <= i < front.len() && !(line_of(chips, pins[#[trigger] front[i] as int].pin)
                    matches Some(line) && line.mode is Output);
            assert(indices[i] == front[i]);
        }
    }
}

/// A change of the file that keeps the structure makes its chips those of the backend. Every
/// cluster keeps its pins and the edges that are pending, and the new edges follow them.
pub proof fn reloads_queue_new_edges_last(
    backend: MockBackend,
    previous: BackendSnapshot,
    next: BackendSnapshot,
    path: Seq<char>,
    id: u64,
)
    requires
        backend@.error is None,
        backend.snapshot == Some(previous),
        structure_fault(previous, next) is None,
        backend@.clusters.contains_key(id),
    ensures
        ({
            let after = reloaded(backend, path, Ok::<BackendSnapshot, MockError>(next));
            let before = backend@.clusters[id];
            let cluster = after.clusters[id];
            &&& after.chips == Some(next@)
            &&& after.error is None
            &&& after.next_cluster_id == backend@.next_cluster_id
            &&& after.clusters.dom() == backend@.clusters.dom()
            &&& cluster.pins == before.pins
            &&& cluster.pending.len() >= before.pending.len()
            &&& cluster.pending.take(before.pending.len() as int) == before.pending
            &&& cluster.pending.skip(before.pending.len() as int) == cluster_edges(
                before.pins,
                previous@,
                next@,
            ).0
        }),
{
    let after = reloaded(backend, path, Ok::<BackendSnapshot, MockError>(next));
    let before = backend@.clusters[id];
    let cluster = after.clusters[id];
    assert(after.clusters.dom() =~= backend@.clusters.dom());
    assert(cluster.pending.take(before.pending.len() as int) =~= before.pending);
    assert(cluster.pending.skip(before.pending.len() as int) =~= cluster_edges(
        before.pins,
        previous@,
        next@,
    ).0);
}

/// A file that cannot be read, or whose structure has changed, fails the backend in words that
/// say so, and leaves its chips and clusters as they are.
pub proof fn broken_reloads_fail_the_backend(
    backend: MockBackend,
    path: Seq<char>,
    loaded: Result<BackendSnapshot, MockError>,
)
    requires
        backend@.error is None,
    ensures
        ({
            let after = reloaded(backend, path, loaded);
            &&& loaded matches Err(error) ==> after.error == Some(
                "failed to reload "@ + path + ": "@ + error@.text(),
            )
            &&& after.error is Some ==> after.chips == backend@.chips && after.clusters
                == backend@.clusters
            &&& after.error is Some && loaded is Ok ==> backend.snapshot is Some && ({
                let fault = structure_fault(backend.snapshot->Some_0, loaded->Ok_0);
                fault is Some && after.error == Some("watcher failed: "@ + fault->Some_0)
            })
        }),
{
}

/// A `set` begins exactly where the session is initialized, no other `set` is under way, and
/// its values can be planned.
pub proof fn sets_begin_where_they_can(
    handler: SetHandler,
    session: ContextModel,
    targets: Seq<Seq<char>>,
    values: Seq<SetTargetValue>,
)
    requires
        targets.len() == values.len(),
    ensures
        session.initialized is None ==> set_begun(handler, session, targets, values) == Err::<
            WritePlan,
            Seq<char>,
        >("session is not initialized"@),
        session.initialized is Some && session.setting ==> set_begun(
            handler,
            session,
            targets,
            values,
        ) == Err::<WritePlan, Seq<char>>("a set request is already in progress"@),
        set_begun(handler, session, targets, values) is Ok <==> {
            &&& session.initialized is Some
            &&& !session.setting
            &&& forall|t: int|
                0 <= t < targets.len() ==> value_allowed(
                    session.initialized->Some_0.cache,
                    #[trigger] targets[t],
                    values[t],
                    handler.max_sequence_steps,
                    handler.max_total_execution_time_ms,
                )
        },
        set_begun(handler, session, targets, values) matches Ok(plan) ==> targets_planned(
            session.initialized->Some_0.cache,
            targets,
            values,
            handler.max_sequence_steps,
            handler.max_total_execution_time_ms,
            targets.len(),
        ) == Ok::<_, WriteFault>(plan),
{
    if session.initialized is Some {
        only_allowed_values_are_set(
            session.initialized->Some_0.cache,
            targets,
            values,
            handler.max_sequence_steps,
            handler.max_total_execution_time_ms,
            targets.len(),
        );
    }
}

/// A document that cannot be parsed is refused in the words of its parser.
pub proof fn unparsed_documents_are_refused(error: Seq<char>)
    ensures
        snapshot_read(Err::<Seq<XmlChipModel>, _>(error)) matches Err(fault) && fault.text()
            =~= "parse error: xml parse error: "@ + error,
{
    reveal_strlit("parse error: ");
    reveal_strlit("xml parse error: ");
    reveal_strlit("parse error: xml parse error: ");
}

/// Levels are written to the pins that they are planned for.
pub proof fn writes_pair_pins_and_levels(writes: Seq<PinWriteInfo>)
    ensures
        write_indices(writes).len() == writes.len(),
        write_levels(writes).len() == writes.len(),
        forall|i: int|
            0 <= i < writes.len() ==> write_indices(writes)[i] == (#[trigger] writes[i]).index
                && write_levels(writes)[i] == writes[i].value,
{
}

/// The file is looked at again exactly where it is among those that changed.
pub proof fn changes_of_the_file_are_followed(changed: Seq<Option<String>>, name: Seq<char>)
    ensures
        names_file(changed, name) <==> exists|i: int|
            #![trigger changed[i]]
            0 <= i < changed.len() && changed[i] is Some && changed[i]->Some_0@ == name,
{
}

/// Errors of a cluster are told apart by what they are.
pub proof fn cluster_errors_are_told_apart(error: MockError)
    ensures
        error.closed() <==> error == MockError::Closed,
        error.invalid_index() <==> error == MockError::InvalidIndex,
        error.unmatched_value() <==> error == MockError::UnmatchedValue,
{
}

} // verus!

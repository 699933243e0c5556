//! What holds of the edges that a cluster sees and of the requests that it serves.

use vstd::prelude::*;

use crate::cluster::backend::levels_read;
use crate::cluster::backend::BackendModel;
use crate::cluster::backend::Chips;
use crate::cluster::backend::levels_written;
use crate::cluster::backend::read_outcome;
use crate::cluster::backend::write_outcome;
use crate::cluster::cache::CacheErrorModel;
use crate::cluster::cache::CacheModel;
use crate::cluster::context::set_fault;
use crate::cluster::context::ContextModel;
use crate::cluster::document::line_read;
use crate::cluster::document::line_written;
use crate::cluster::document::XmlBiasMode;
use crate::cluster::document::XmlDriveMode;
use crate::cluster::document::XmlEventMode;
use crate::cluster::document::XmlLineMode;
use crate::cluster::document::XmlLineModel;
use crate::cluster::error::MockErrorModel;
use crate::cluster::get::get_answer;
use crate::cluster::get::narrow;
use crate::cluster::get::packed_bit_is_high_pin;
use crate::cluster::get::paired_count;
use crate::cluster::get::read_indices;
use crate::cluster::get::reads_collected;
use crate::cluster::get::target_reads;
use crate::cluster::get::PinReadInfo;
use crate::cluster::init::target_pin_config;
use crate::cluster::mock::cluster_edges;
use crate::cluster::mock::ClusterPinModel;
use crate::cluster::properties::GPIOPinConfig;
use crate::cluster::properties::PinLevel;
use crate::cluster::properties::PropertyBiasMode;
use crate::cluster::properties::PropertyDriveMode;
use crate::cluster::properties::PropertyEventMode;
use crate::cluster::set::steps_planned;
use crate::cluster::set::targets_planned;
use crate::cluster::set::target_writes;
use crate::cluster::set::writes_at;
use crate::cluster::set::PinWriteInfo;
use crate::cluster::set::SetStepRequest;
use crate::cluster::set::SetTargetValue;
use crate::cluster::set::WritePlan;
use crate::cluster::snapshot::config_fault;
use crate::cluster::snapshot::line_of;
use crate::cluster::snapshot::LineMode;
use crate::cluster::snapshot::LineSnapshot;
use crate::number::decimal;
use crate::protocol::request::BiasMode;
use crate::protocol::request::DriveMode;
use crate::protocol::request::EdgeMode;
use crate::protocol::request::TargetConfigRequest;
use crate::protocol::response::EventType;
use crate::protocol::response::ResponseModel;
use crate::session::compiled::TargetMode;
use crate::session::execute::bit_of;
use crate::text::trimmed_text;

verus! {

// ---------------------------------------------------------------------------
// Edges
// ---------------------------------------------------------------------------

/// Whether a trigger asks for falling edges and its line reports them.
pub open spec fn sees_falling(edge: EdgeMode, mode: LineMode) -> bool {
    &&& edge == EdgeMode::Falling || edge == EdgeMode::Both
    &&& mode matches LineMode::Input { event, .. } && (event == PropertyEventMode::Falling || event
        == PropertyEventMode::Both)
}

/// Whether a trigger asks for rising edges and its line reports them.
pub open spec fn sees_rising(edge: EdgeMode, mode: LineMode) -> bool {
    &&& edge == EdgeMode::Rising || edge == EdgeMode::Both
    &&& mode matches LineMode::Input { event, .. } && (event == PropertyEventMode::Rising || event
        == PropertyEventMode::Both)
}

/// The edges of one pin among those of a cluster.
pub open spec fn edges_of(events: Seq<(usize, EventType)>, index: int) -> Seq<(usize, EventType)> {
    events.filter(|event: (usize, EventType)| event.0 == index)
}

/// Between two states of the chips a trigger pin sees exactly the change of its line that it
/// asks for and that the line reports: a falling edge where the line goes from high to low, a
/// rising edge where it goes from low to high. It is queued once. Other pins see nothing.
pub proof fn triggers_see_the_edges_they_ask_for(
    pins: Seq<ClusterPinModel>,
    previous: Chips,
    current: Chips,
    index: int,
)
    requires
        pins.len() <= usize::MAX,
        0 <= index < pins.len(),
        cluster_edges(pins, previous, current).1 is None,
    ensures
        ({
            let seen = edges_of(cluster_edges(pins, previous, current).0, index);
            let pin = pins[index];
            &&& !(pin.config is Trigger) ==> seen.len() == 0
            &&& pin.config matches GPIOPinConfig::Trigger { edge } ==> {
                let before = line_of(previous, pin.pin)->Some_0;
                let after = line_of(current, pin.pin)->Some_0;
                let fell = before.level == PinLevel::High && after.level == PinLevel::Low
                    && sees_falling(edge, before.mode);
                let rose = before.level == PinLevel::Low && after.level == PinLevel::High
                    && sees_rising(edge, before.mode);
                &&& line_of(previous, pin.pin) is Some
                &&& line_of(current, pin.pin) is Some
                &&& fell ==> seen == seq![(index as usize, EventType::Falling)]
                &&& rose ==> seen == seq![(index as usize, EventType::Rising)]
                &&& !fell && !rose ==> seen.len() == 0
            }
        }),
    decreases pins.len(),
{
    reveal(Seq::filter);
    let front = pins.drop_last();
    let last = pins.len() - 1;
    let (events, fault) = cluster_edges(front, previous, current);
    let all = cluster_edges(pins, previous, current).0;
    assert(fault is None);
    assert(pins.last() == pins[last]);
    if index < last {
        assert(front[index] == pins[index]);
        triggers_see_the_edges_they_ask_for(front, previous, current, index);
        if all != events {
            assert(all.drop_last() =~= events);
            assert(all.last().0 == last as usize);
        }
    } else {
        lemma_no_edge_yet(front, previous, current, last);
        if all != events {
            assert(all.drop_last() =~= events);
            assert(edges_of(all, index) =~= seq![all.last()]);
        }
    }
}

proof fn lemma_no_edge_yet(
    pins: Seq<ClusterPinModel>,
    previous: Chips,
    current: Chips,
    index: int,
)
    requires
        pins.len() <= index <= usize::MAX,
    ensures
        edges_of(cluster_edges(pins, previous, current).0, index).len() == 0,
    decreases pins.len(),
{
    reveal(Seq::filter);
    if pins.len() > 0 {
        lemma_no_edge_yet(pins.drop_last(), previous, current, index);
        let events = cluster_edges(pins.drop_last(), previous, current).0;
        let all = cluster_edges(pins, previous, current).0;
        if all != events {
            assert(all.drop_last() =~= events);
        }
    }
}

// ---------------------------------------------------------------------------
// init
// ---------------------------------------------------------------------------

/// The pins of a target are configured as it asks: inputs with its bias, as they are where it
/// asks for none, outputs with its drive, push-pull where it asks for none, triggers with its
/// edges.
pub proof fn pins_are_configured_as_asked(config: TargetConfigRequest)
    ensures
        config matches TargetConfigRequest::Input { bias: Some(bias), .. } ==> target_pin_config(
            config,
        ) == (GPIOPinConfig::Input { bias }),
        config matches TargetConfigRequest::Input { bias: None, .. } ==> target_pin_config(config)
            == (GPIOPinConfig::Input { bias: BiasMode::AsIs }),
        config matches TargetConfigRequest::Output { drive: Some(drive), .. } ==> target_pin_config(
            config,
        ) == (GPIOPinConfig::Output { drive }),
        config matches TargetConfigRequest::Output { drive: None, .. } ==> target_pin_config(config)
            == (GPIOPinConfig::Output { drive: DriveMode::PushPull }),
        config matches TargetConfigRequest::Trigger { edge, .. } ==> target_pin_config(config) == (
        GPIOPinConfig::Trigger { edge }),
{
}

/// A pin can be configured on a line exactly where their directions agree, and a trigger only
/// where the line reports edges.
pub proof fn directions_have_to_agree(
    pin: (Seq<char>, u32),
    config: GPIOPinConfig,
    mode: LineMode,
)
    ensures
        config_fault(pin, config, mode) is None <==> match config {
            GPIOPinConfig::Output { .. } => mode is Output,
            GPIOPinConfig::Input { .. } => mode is Input,
            GPIOPinConfig::Trigger { .. } => mode matches LineMode::Input { event, .. } && event
                != PropertyEventMode::NoEvent,
        },
        config is Output && mode is Input ==> config_fault(pin, config, mode) == Some(
            MockErrorModel::DirectionMismatch {
                chip: pin.0,
                line: pin.1,
                expected: "output"@,
                found: "input"@,
            },
        ),
        !(config is Output) && mode is Output ==> config_fault(pin, config, mode) == Some(
            MockErrorModel::DirectionMismatch {
                chip: pin.0,
                line: pin.1,
                expected: "input"@,
                found: "output"@,
            },
        ),
{
}

// ---------------------------------------------------------------------------
// get
// ---------------------------------------------------------------------------

proof fn lemma_levels(chips: Chips, pins: Seq<ClusterPinModel>, indices: Seq<usize>)
    requires
        levels_read(chips, pins, indices) is Ok,
    ensures
        ({
            let levels = levels_read(chips, pins, indices)->Ok_0;
            &&& levels.len() == indices.len()
            &&& forall|i: int|
                #![trigger indices[i]]
                0 <= i < indices.len() ==> (line_of(chips, pins[indices[i] as int].pin) matches Some(
                    line,
                ) && line.level == levels[i])
        }),
    decreases indices.len(),
{
    if indices.len() > 0 {
        let front = indices.drop_last();
        lemma_levels(chips, pins, front);
        assert(indices.last() == indices[indices.len() - 1]);
        let levels = levels_read(chips, pins, indices)->Ok_0;
        assert forall|i: int| #![trigger indices[i]] 0 <= i < indices.len() implies (line_of(
            chips,
            pins[indices[i] as int].pin,
        ) matches Some(line) && line.level == levels[i]) by {
            if i < front.len() {
                assert(front[i] == indices[i]);
            }
        }
    }
}

spec fn pin_read(reads: Seq<PinReadInfo>, indices: Seq<usize>, slot: int, pin: int) -> bool {
    exists|k: int| 0 <= k < reads.len() && #[trigger] read_at(reads[k], indices, slot, pin)
}

spec fn reads_a_pin(read: PinReadInfo, indices: Seq<usize>, slot: int) -> bool {
    exists|pin: int| 0 <= pin < indices.len() && #[trigger] read_at(read, indices, slot, pin)
}

proof fn lemma_reads(cache: CacheModel, names: Seq<Seq<char>>, slot: int)
    requires
        narrow(cache),
        reads_collected(cache, names) is Ok,
        names.len() <= usize::MAX,
        0 <= slot < names.len(),
    ensures
        forall|pin: int|
            0 <= pin < cache.targets[names[slot]].1.len() ==> #[trigger] pin_read(
                reads_collected(cache, names)->Ok_0,
                cache.targets[names[slot]].1,
                slot,
                pin,
            ),
        forall|k: int|
            0 <= k < reads_collected(cache, names)->Ok_0.len() && (
            #[trigger] reads_collected(cache, names)->Ok_0[k]).target_slot == slot ==> reads_a_pin(
                reads_collected(cache, names)->Ok_0[k],
                cache.targets[names[slot]].1,
                slot,
            ),
    decreases names.len(),
{
    let front = names.drop_last();
    let last = names.len() - 1;
    let earlier = reads_collected(cache, front)->Ok_0;
    let reads = reads_collected(cache, names)->Ok_0;
    let indices = cache.targets[names[slot]].1;
    assert(names.last() == names[last]);
    assert(cache.targets.contains_key(names.last()));
    let added = target_reads(cache.targets[names[last]].1, last as usize);
    assert(reads == earlier + added);
    lemma_slots(cache, front);
    if slot < last {
        assert(front[slot] == names[slot]);
        lemma_reads(cache, front, slot);
        assert forall|pin: int| 0 <= pin < indices.len() implies #[trigger] pin_read(
            reads,
            indices,
            slot,
            pin,
        ) by {
            assert(pin_read(earlier, indices, slot, pin));
            let k = choose|k: int|
                0 <= k < earlier.len() && #[trigger] read_at(earlier[k], indices, slot, pin);
            assert(read_at(reads[k], indices, slot, pin));
        }
        assert forall|k: int| 0 <= k < reads.len() && (#[trigger] reads[k]).target_slot
            == slot implies reads_a_pin(reads[k], indices, slot) by {
            if k < earlier.len() {
                assert(reads[k] == earlier[k]);
            } else {
                assert(reads[k] == added[k - earlier.len()]);
            }
        }
    } else {
        assert forall|pin: int| 0 <= pin < indices.len() implies #[trigger] pin_read(
            reads,
            indices,
            slot,
            pin,
        ) by {
            assert(reads[earlier.len() + pin] == added[pin]);
            assert(read_at(reads[earlier.len() + pin], indices, slot, pin));
        }
        assert forall|k: int| 0 <= k < reads.len() && (#[trigger] reads[k]).target_slot
            == slot implies reads_a_pin(reads[k], indices, slot) by {
            if k < earlier.len() {
                assert(reads[k] == earlier[k]);
            } else {
                assert(reads[k] == added[k - earlier.len()]);
                assert(read_at(reads[k], indices, slot, k - earlier.len()));
            }
        }
    }
}

proof fn lemma_slots(cache: CacheModel, names: Seq<Seq<char>>)
    requires
        reads_collected(cache, names) is Ok,
        names.len() <= usize::MAX,
    ensures
        forall|k: int|
            0 <= k < reads_collected(cache, names)->Ok_0.len() ==> (
            #[trigger] reads_collected(cache, names)->Ok_0[k]).target_slot < names.len(),
    decreases names.len(),
{
    if names.len() > 0 {
        lemma_slots(cache, names.drop_last());
    }
}

/// Whether a pin is read for a place among the targets: the first pin of a target is its
/// highest bit.
pub open spec fn read_at(read: PinReadInfo, indices: Seq<usize>, slot: int, pin: int) -> bool {
    &&& read.index == indices[pin]
    &&& read.target_slot == slot
    &&& read.bit_offset == indices.len() - 1 - pin
}

/// Whether the pins of targets have lines.
pub open spec fn lines_there(
    cache: CacheModel,
    chips: Chips,
    pins: Seq<ClusterPinModel>,
    names: Seq<Seq<char>>,
) -> bool {
    forall|t: int, i: int|
        0 <= t < names.len() && 0 <= i < cache.targets[names[t]].1.len() ==> (
        #[trigger] cache.targets[names[t]].1[i]) < pins.len() && line_of(
            chips,
            pins[cache.targets[names[t]].1[i] as int].pin,
        ) is Some
}

proof fn lemma_all_read(chips: Chips, pins: Seq<ClusterPinModel>, indices: Seq<usize>)
    requires
        forall|i: int|
            0 <= i < indices.len() ==> line_of(chips, pins[#[trigger] indices[i] as int].pin)
                is Some,
    ensures
        levels_read(chips, pins, indices) is Ok,
    decreases indices.len(),
{
    if indices.len() > 0 {
        let front = indices.drop_last();
        assert forall|i: int| 0 <= i < front.len() implies line_of(
            chips,
            pins[#[trigger] front[i] as int].pin,
        ) is Some by {
            assert(front[i] == indices[i]);
        }
        lemma_all_read(chips, pins, front);
        assert(indices.last() == indices[indices.len() - 1]);
    }
}

/// A `get` of inputs is answered with one value for each of them, in the order in which they
/// are named. Every bit of a value is the level of the pin at that place, the first pin being
/// the highest bit; the bits above are zero. A target that is named by itself is answered with
/// a value by itself.
pub proof fn gets_are_answered_with_levels(
    session: ContextModel,
    backend: BackendModel,
    single: bool,
    names: Seq<Seq<char>>,
    slot: int,
    bit: nat,
)
    requires
        names.len() <= usize::MAX,
        single ==> names.len() == 1,
        0 <= slot < names.len(),
        bit < 8,
        session.initialized is Some,
        narrow(session.initialized->Some_0.cache),
        forall|i: int|
            0 <= i < names.len() ==> session.initialized->Some_0.cache.targets.contains_key(
                #[trigger] names[i],
            ) && session.initialized->Some_0.cache.targets[names[i]].0 == TargetMode::Input,
        backend.error is None,
        backend.chips is Some,
        backend.clusters.contains_key(session.initialized->Some_0.cluster),
        lines_there(
            session.initialized->Some_0.cache,
            backend.chips->Some_0,
            backend.clusters[session.initialized->Some_0.cluster].pins,
            names,
        ),
    ensures
        ({
            let answer = get_answer(session, backend, single, names);
            let indices = session.initialized->Some_0.cache.targets[names[slot]].1;
            let pins = backend.clusters[session.initialized->Some_0.cluster].pins;
            let value = if single {
                answer->Value_0
            } else {
                answer->Values_0[slot]
            };
            &&& single ==> answer is Value
            &&& !single ==> answer is Values && answer->Values_0.len() == names.len()
            &&& bit_of(value, bit) <==> (bit < indices.len() && line_of(
                backend.chips->Some_0,
                pins[indices[indices.len() - 1 - bit] as int].pin,
            )->Some_0.level == PinLevel::High)
        }),
{
    let cache = session.initialized->Some_0.cache;
    let chips = backend.chips->Some_0;
    let pins = backend.clusters[session.initialized->Some_0.cluster].pins;
    only_inputs_are_read(cache, names);
    let reads = reads_collected(cache, names)->Ok_0;
    assert forall|k: int| 0 <= k < reads.len() implies (#[trigger] read_indices(reads)[k])
        < pins.len() && line_of(chips, pins[read_indices(reads)[k] as int].pin) is Some by {
        lemma_slots(cache, names);
        let t = reads[k].target_slot as int;
        lemma_reads(cache, names, t);
        assert(reads_a_pin(reads[k], cache.targets[names[t]].1, t));
        let i = choose|i: int|
            0 <= i < cache.targets[names[t]].1.len() && #[trigger] read_at(
                reads[k],
                cache.targets[names[t]].1,
                t,
                i,
            );
        assert(cache.targets[names[t]].1[i] < pins.len());
    }
    lemma_all_read(chips, pins, read_indices(reads));
    let levels = levels_read(chips, pins, read_indices(reads))->Ok_0;
    let indices = cache.targets[names[slot]].1;
    let counted = if single {
        None
    } else {
        Some(slot as usize)
    };
    lemma_levels(chips, pins, read_indices(reads));
    lemma_reads(cache, names, slot);
    lemma_slots(cache, names);
    lemma_bits(cache, names);
    assert(paired_count(reads, levels) == reads.len());
    packed_bit_is_high_pin(reads, levels, counted, reads.len(), bit);
    if exists|k: int|
        0 <= k < reads.len() && (#[trigger] reads[k]).bit_offset == bit && (counted is None
            || counted == Some(reads[k].target_slot)) && levels[k] == PinLevel::High {
        let k = choose|k: int|
            0 <= k < reads.len() && (#[trigger] reads[k]).bit_offset == bit && (counted is None
                || counted == Some(reads[k].target_slot)) && levels[k] == PinLevel::High;
        assert(reads[k].target_slot == slot);
        assert(reads_a_pin(reads[k], indices, slot));
        let i = choose|i: int|
            0 <= i < indices.len() && #[trigger] read_at(reads[k], indices, slot, i);
        assert(i == indices.len() - 1 - bit);
        assert(read_indices(reads)[k] == indices[i]);
    }
    if bit < indices.len() {
        let i = indices.len() - 1 - bit;
        assert(pin_read(reads, indices, slot, i));
        let k = choose|k: int|
            0 <= k < reads.len() && #[trigger] read_at(reads[k], indices, slot, i);
        assert(read_indices(reads)[k] == indices[i]);
        assert(reads[k].bit_offset == bit);
    }
}

/// Before its `init` a session reads nothing and sets nothing, and it sets nothing while a
/// `set` is under way.
pub proof fn sessions_begin_with_init(
    session: ContextModel,
    backend: BackendModel,
    single: bool,
    names: Seq<Seq<char>>,
)
    ensures
        session.initialized is None ==> get_answer(session, backend, single, names)
            == ResponseModel::Error("session is not initialized"@),
        set_fault(session) is None <==> session.initialized is Some && !session.setting,
{
}

proof fn lemma_bits(cache: CacheModel, names: Seq<Seq<char>>)
    requires
        narrow(cache),
        reads_collected(cache, names) is Ok,
    ensures
        forall|k: int|
            0 <= k < reads_collected(cache, names)->Ok_0.len() ==> (
            #[trigger] reads_collected(cache, names)->Ok_0[k]).bit_offset < 8,
    decreases names.len(),
{
    if names.len() > 0 {
        lemma_bits(cache, names.drop_last());
        assert(cache.targets[names.last()].1.len() <= 8);
    }
}

/// Targets are read together exactly where each is an input of the session; the first that is
/// none is named.
pub proof fn only_inputs_are_read(cache: CacheModel, names: Seq<Seq<char>>)
    ensures
        reads_collected(cache, names) is Ok <==> forall|i: int|
            0 <= i < names.len() ==> cache.targets.contains_key(#[trigger] names[i])
                && cache.targets[names[i]].0 == TargetMode::Input,
        reads_collected(cache, names) matches Err(fault) ==> exists|i: int|
            #![trigger names[i]]
            {
                &&& 0 <= i < names.len()
                &&& if cache.targets.contains_key(names[i]) {
                    cache.targets[names[i]].0 != TargetMode::Input && fault == (
                    CacheErrorModel::TargetNotReadable { target: names[i] })
                } else {
                    fault == (CacheErrorModel::UnknownTarget { target: names[i] })
                }
                &&& forall|j: int|
                    0 <= j < i ==> cache.targets.contains_key(#[trigger] names[j])
                        && cache.targets[names[j]].0 == TargetMode::Input
            },
    decreases names.len(),
{
    if names.len() > 0 {
        let front = names.drop_last();
        let last = names.len() - 1;
        only_inputs_are_read(cache, front);
        assert(names.last() == names[last]);
        assert(forall|i: int| 0 <= i < front.len() ==> #[trigger] front[i] == names[i]);
        match reads_collected(cache, front) {
            Ok(_) => {
                assert forall|i: int| 0 <= i < last implies cache.targets.contains_key(
                    #[trigger] names[i],
                ) && cache.targets[names[i]].0 == TargetMode::Input by {
                    assert(front[i] == names[i]);
                }
            },
            Err(fault) => {
                let i = choose|i: int|
                    #![trigger front[i]]
                    {
                        &&& 0 <= i < front.len()
                        &&& if cache.targets.contains_key(front[i]) {
                            cache.targets[front[i]].0 != TargetMode::Input && fault == (
                            CacheErrorModel::TargetNotReadable { target: front[i] })
                        } else {
                            fault == (CacheErrorModel::UnknownTarget { target: front[i] })
                        }
                        &&& forall|j: int|
                            0 <= j < i ==> cache.targets.contains_key(#[trigger] front[j])
                                && cache.targets[front[j]].0 == TargetMode::Input
                    };
                assert(names[i] == front[i]);
                assert forall|j: int| 0 <= j < i implies cache.targets.contains_key(
                    #[trigger] names[j],
                ) && cache.targets[names[j]].0 == TargetMode::Input by {
                    assert(front[j] == names[j]);
                }
            },
        }
    }
}

// ---------------------------------------------------------------------------
// set
// ---------------------------------------------------------------------------

/// Whether writes give a pin of a target the level of its bit: the first pin has the highest
/// bit, a set bit is high.
pub open spec fn bit_written(
    writes: Seq<PinWriteInfo>,
    indices: Seq<usize>,
    value: u8,
    pin: int,
) -> bool {
    exists|k: int|
        #![trigger writes[k]]
        {
            &&& 0 <= k < writes.len()
            &&& writes[k].index == indices[pin]
            &&& writes[k].bit_offset == (indices.len() - 1 - pin) as u32
            &&& writes[k].value == if bit_of(value, (indices.len() - 1 - pin) as nat) {
                PinLevel::High
            } else {
                PinLevel::Low
            }
        }
}

/// How long after the start of a sequence a step is due.
pub open spec fn lag_up_to(steps: Seq<SetStepRequest>, step: int) -> nat
    decreases step + 1,
{
    if step < 0 {
        0
    } else {
        lag_up_to(steps, step - 1) + steps[step].lag as nat
    }
}

/// Whether the writes of a step stand where they are due: at once for a first step without a
/// lag, and otherwise at the lags up to it together.
pub open spec fn step_written(
    plan: WritePlan,
    indices: Seq<usize>,
    steps: Seq<SetStepRequest>,
    step: int,
    pin: int,
) -> bool {
    let lag = lag_up_to(steps, step);
    if lag == 0 {
        bit_written(plan.immediate, indices, steps[step].value, pin)
    } else {
        plan.delayed.contains_key(lag as u32) && lag <= u32::MAX && bit_written(
            plan.delayed[lag as u32],
            indices,
            steps[step].value,
            pin,
        )
    }
}

/// Whether a plan holds all that another does.
pub open spec fn plan_grows(before: WritePlan, after: WritePlan) -> bool {
    &&& before.immediate.is_prefix_of(after.immediate)
    &&& forall|lag: u32| #[trigger]
        before.delayed.contains_key(lag) ==> after.delayed.contains_key(lag)
            && before.delayed[lag].is_prefix_of(after.delayed[lag])
}

proof fn lemma_written_stays(
    before: Seq<PinWriteInfo>,
    after: Seq<PinWriteInfo>,
    indices: Seq<usize>,
    value: u8,
    pin: int,
)
    requires
        before.is_prefix_of(after),
        bit_written(before, indices, value, pin),
    ensures
        bit_written(after, indices, value, pin),
{
    let k = choose|k: int|
        #![trigger before[k]]
        {
            &&& 0 <= k < before.len()
            &&& before[k].index == indices[pin]
            &&& before[k].bit_offset == (indices.len() - 1 - pin) as u32
            &&& before[k].value == if bit_of(value, (indices.len() - 1 - pin) as nat) {
                PinLevel::High
            } else {
                PinLevel::Low
            }
        };
    assert(after[k] == before[k]);
}

proof fn lemma_added_written(
    before: Seq<PinWriteInfo>,
    indices: Seq<usize>,
    value: u8,
    pin: int,
)
    requires
        0 <= pin < indices.len(),
    ensures
        bit_written(before + target_writes(indices, value), indices, value, pin),
        before.is_prefix_of(before + target_writes(indices, value)),
{
    let after = before + target_writes(indices, value);
    assert(after[before.len() + pin].index == indices[pin]);
    assert(after.take(before.len() as int) =~= before);
}

proof fn lemma_prefix(before: Seq<PinWriteInfo>, added: Seq<PinWriteInfo>)
    ensures
        before.is_prefix_of(before + added),
        before.is_prefix_of(before),
{
    assert((before + added).take(before.len() as int) =~= before);
    assert(before.take(before.len() as int) =~= before);
}

proof fn lemma_steps(
    plan: WritePlan,
    target: Seq<char>,
    indices: Seq<usize>,
    steps: Seq<SetStepRequest>,
    limit_ms: u32,
    count: nat,
)
    requires
        count <= steps.len(),
        steps_planned(plan, target, indices, steps, limit_ms, count) is Ok,
    ensures
        ({
            let (after, lag) = steps_planned(plan, target, indices, steps, limit_ms, count)->Ok_0;
            &&& lag == lag_up_to(steps, count - 1)
            &&& lag <= limit_ms
            &&& plan_grows(plan, after)
            &&& forall|step: int, pin: int|
                0 <= step < count && 0 <= pin < indices.len() ==> #[trigger] step_written(
                    after,
                    indices,
                    steps,
                    step,
                    pin,
                )
        }),
    decreases count,
{
    if count == 0 {
        lemma_prefix(plan.immediate, Seq::empty());
        assert forall|lag: u32| #[trigger] plan.delayed.contains_key(lag) implies plan.delayed[lag].is_prefix_of(
        plan.delayed[lag]) by {
            lemma_prefix(plan.delayed[lag], Seq::empty());
        }
    } else {
        let last = count - 1;
        lemma_steps(plan, target, indices, steps, limit_ms, last as nat);
        let (before, lag) = steps_planned(plan, target, indices, steps, limit_ms, last as nat)->Ok_0;
        let (after, total) = steps_planned(plan, target, indices, steps, limit_ms, count)->Ok_0;
        let step = steps[last];
        let writes = target_writes(indices, step.value);
        assert(lag_up_to(steps, last) == lag_up_to(steps, last - 1) + step.lag as nat);
        assert(plan_grows(before, after)) by {
            lemma_prefix(before.immediate, writes);
            assert forall|at: u32| #[trigger] before.delayed.contains_key(at) implies
                after.delayed.contains_key(at) && before.delayed[at].is_prefix_of(
                after.delayed[at],
            ) by {
                lemma_prefix(before.delayed[at], writes);
            }
        }
        lemma_grows(plan, before, after);
        assert forall|s: int, pin: int| 0 <= s < count && 0 <= pin < indices.len() implies
            #[trigger] step_written(after, indices, steps, s, pin) by {
            if s < last {
                assert(step_written(before, indices, steps, s, pin));
                let due = lag_up_to(steps, s);
                if due == 0 {
                    lemma_written_stays(
                        before.immediate,
                        after.immediate,
                        indices,
                        steps[s].value,
                        pin,
                    );
                } else {
                    lemma_written_stays(
                        before.delayed[due as u32],
                        after.delayed[due as u32],
                        indices,
                        steps[s].value,
                        pin,
                    );
                }
            } else if step.lag == 0 {
                assert(lag_up_to(steps, -1) == 0);
                lemma_added_written(before.immediate, indices, step.value, pin);
            } else {
                lemma_added_written(
                    writes_at(before.delayed, total as u32),
                    indices,
                    step.value,
                    pin,
                );
            }
        }
    }
}

proof fn lemma_grows(a: WritePlan, b: WritePlan, c: WritePlan)
    requires
        plan_grows(a, b),
        plan_grows(b, c),
    ensures
        plan_grows(a, c),
{
    assert(c.immediate.take(a.immediate.len() as int) =~= a.immediate) by {
        assert(c.immediate.take(b.immediate.len() as int) =~= b.immediate);
    }
    assert forall|lag: u32| #[trigger] a.delayed.contains_key(lag) implies c.delayed.contains_key(
        lag,
    ) && a.delayed[lag].is_prefix_of(c.delayed[lag]) by {
        assert(b.delayed.contains_key(lag));
        assert(c.delayed[lag].take(b.delayed[lag].len() as int) =~= b.delayed[lag]);
        assert(c.delayed[lag].take(a.delayed[lag].len() as int) =~= a.delayed[lag]);
    }
}

/// What a target is to be given stands in the plan of a `set`: a value at once, and every step
/// of a sequence when it is due, on every pin of the target.
pub open spec fn value_planned(
    plan: WritePlan,
    indices: Seq<usize>,
    value: SetTargetValue,
    pin: int,
) -> bool {
    match value {
        SetTargetValue::Immediate(byte) => bit_written(plan.immediate, indices, byte, pin),
        SetTargetValue::Sequence(steps) => forall|step: int|
            0 <= step < steps@.len() ==> #[trigger] step_written(
                plan,
                indices,
                steps@,
                step,
                pin,
            ),
    }
}

/// Every value of a `set` is planned for all pins of its target: at once, or step by step, each
/// step its own lag after the one before. The targets are outputs of the session.
pub proof fn values_are_planned_when_due(
    cache: CacheModel,
    targets: Seq<Seq<char>>,
    values: Seq<SetTargetValue>,
    limit_steps: usize,
    limit_ms: u32,
    count: nat,
)
    requires
        count <= targets.len(),
        count <= values.len(),
        targets_planned(cache, targets, values, limit_steps, limit_ms, count) is Ok,
    ensures
        ({
            let plan = targets_planned(cache, targets, values, limit_steps, limit_ms, count)->Ok_0;
            forall|t: int, pin: int|
                0 <= t < count && 0 <= pin < cache.targets[targets[t]].1.len()
                    ==> #[trigger] value_planned(
                    plan,
                    cache.targets[targets[t]].1,
                    values[t],
                    pin,
                )
        }),
        forall|t: int|
            0 <= t < count ==> cache.targets.contains_key(#[trigger] targets[t])
                && cache.targets[targets[t]].0 == TargetMode::Output,
    decreases count,
{
    if count > 0 {
        let last = count - 1;
        values_are_planned_when_due(cache, targets, values, limit_steps, limit_ms, last as nat);
        let before = targets_planned(
            cache,
            targets,
            values,
            limit_steps,
            limit_ms,
            last as nat,
        )->Ok_0;
        let after = targets_planned(cache, targets, values, limit_steps, limit_ms, count)->Ok_0;
        let indices = cache.targets[targets[last]].1;
        match values[last] {
            SetTargetValue::Immediate(byte) => {
                lemma_prefix(before.immediate, target_writes(indices, byte));
                assert forall|lag: u32| #[trigger] before.delayed.contains_key(lag) implies
                    before.delayed[lag].is_prefix_of(after.delayed[lag]) by {
                    lemma_prefix(before.delayed[lag], Seq::empty());
                }
            },
            SetTargetValue::Sequence(steps) => {
                lemma_steps(before, targets[last], indices, steps@, limit_ms, steps@.len());
            },
        }
        assert(plan_grows(before, after));
        assert forall|t: int, pin: int|
            0 <= t < count && 0 <= pin < cache.targets[targets[t]].1.len() implies
            #[trigger] value_planned(after, cache.targets[targets[t]].1, values[t], pin) by {
            let at = cache.targets[targets[t]].1;
            if t < last {
                assert(value_planned(before, at, values[t], pin));
                lemma_value_stays(before, after, at, values[t], pin);
            } else if let SetTargetValue::Immediate(byte) = values[last] {
                lemma_added_written(before.immediate, indices, byte, pin);
            }
        }
    }
}

proof fn lemma_value_stays(
    before: WritePlan,
    after: WritePlan,
    indices: Seq<usize>,
    value: SetTargetValue,
    pin: int,
)
    requires
        plan_grows(before, after),
        value_planned(before, indices, value, pin),
    ensures
        value_planned(after, indices, value, pin),
{
    match value {
        SetTargetValue::Immediate(byte) => {
            lemma_written_stays(before.immediate, after.immediate, indices, byte, pin);
        },
        SetTargetValue::Sequence(steps) => {
            assert forall|step: int| 0 <= step < steps@.len() implies #[trigger] step_written(
                after,
                indices,
                steps@,
                step,
                pin,
            ) by {
                assert(step_written(before, indices, steps@, step, pin));
                let due = lag_up_to(steps@, step);
                if due == 0 {
                    lemma_written_stays(
                        before.immediate,
                        after.immediate,
                        indices,
                        steps@[step].value,
                        pin,
                    );
                } else {
                    lemma_written_stays(
                        before.delayed[due as u32],
                        after.delayed[due as u32],
                        indices,
                        steps@[step].value,
                        pin,
                    );
                }
            }
        },
    }
}

// ---------------------------------------------------------------------------
// Documents
// ---------------------------------------------------------------------------

/// A line element means what it says: its direction, its level, high for `1` and low for `0`
/// with whatever whitespace around, the bias and edges of an input, none where it has none, the
/// drive of an output, push-pull where it has none.
pub proof fn line_elements_mean_what_they_say(chip: Seq<char>, line: XmlLineModel)
    ensures
        line_read(chip, line) is Ok <==> {
            &&& trimmed_text(line.level) == "0"@ || trimmed_text(line.level) == "1"@
            &&& line.mode == XmlLineMode::Input ==> line.drive is None
            &&& line.mode == XmlLineMode::Output ==> line.bias is None && line.event is None
        },
        line_read(chip, line) matches Ok(read) ==> {
            &&& trimmed_text(line.level) == "1"@ ==> read.level == PinLevel::High
            &&& trimmed_text(line.level) == "0"@ ==> read.level == PinLevel::Low
            &&& line.mode == XmlLineMode::Output ==> read.mode is Output
            &&& line.mode == XmlLineMode::Input ==> read.mode is Input
            &&& read.mode matches LineMode::Input { bias, event } ==> {
                &&& line.bias is None || line.bias == Some(XmlBiasMode::Disabled) ==> bias
                    == PropertyBiasMode::Disabled
                &&& line.bias == Some(XmlBiasMode::PullUp) ==> bias == PropertyBiasMode::PullUp
                &&& line.bias == Some(XmlBiasMode::PullDown) ==> bias == PropertyBiasMode::PullDown
                &&& line.event is None ==> event == PropertyEventMode::NoEvent
                &&& line.event == Some(XmlEventMode::Rising) ==> event == PropertyEventMode::Rising
                &&& line.event == Some(XmlEventMode::Falling) ==> event
                    == PropertyEventMode::Falling
                &&& line.event == Some(XmlEventMode::Both) ==> event == PropertyEventMode::Both
            }
            &&& read.mode matches LineMode::Output { drive } ==> {
                &&& line.drive is None || line.drive == Some(XmlDriveMode::PushPull) ==> drive
                    == PropertyDriveMode::PushPull
                &&& line.drive == Some(XmlDriveMode::OpenDrain) ==> drive
                    == PropertyDriveMode::OpenDrain
                &&& line.drive == Some(XmlDriveMode::OpenSource) ==> drive
                    == PropertyDriveMode::OpenSource
            }
        },
{
    reveal_strlit("0");
    reveal_strlit("1");
    assert("0"@[0] != "1"@[0]);
}

/// A line is written as an element with its offset, its direction, its level, and the bias and
/// edges of an input or the drive of an output, in the same words in which they are read.
pub proof fn lines_are_written_as_they_are(offset: u32, line: LineSnapshot)
    ensures
        ({
            let written = line_written(offset, line);
            &&& written.id == offset
            &&& line.level == PinLevel::High ==> written.level == "1"@
            &&& line.level == PinLevel::Low ==> written.level == "0"@
            &&& line.mode matches LineMode::Input { bias, event } ==> {
                &&& written.mode == XmlLineMode::Input
                &&& written.drive is None
                &&& bias == PropertyBiasMode::Disabled ==> written.bias == Some(
                    XmlBiasMode::Disabled,
                )
                &&& bias == PropertyBiasMode::PullUp ==> written.bias == Some(XmlBiasMode::PullUp)
                &&& bias == PropertyBiasMode::PullDown ==> written.bias == Some(
                    XmlBiasMode::PullDown,
                )
                &&& event == PropertyEventMode::NoEvent ==> written.event is None
                &&& event == PropertyEventMode::Rising ==> written.event == Some(
                    XmlEventMode::Rising,
                )
                &&& event == PropertyEventMode::Falling ==> written.event == Some(
                    XmlEventMode::Falling,
                )
                &&& event == PropertyEventMode::Both ==> written.event == Some(XmlEventMode::Both)
            }
            &&& line.mode matches LineMode::Output { drive } ==> {
                &&& written.mode == XmlLineMode::Output
                &&& written.bias is None
                &&& written.event is None
                &&& drive == PropertyDriveMode::PushPull ==> written.drive == Some(
                    XmlDriveMode::PushPull,
                )
                &&& drive == PropertyDriveMode::OpenDrain ==> written.drive == Some(
                    XmlDriveMode::OpenDrain,
                )
                &&& drive == PropertyDriveMode::OpenSource ==> written.drive == Some(
                    XmlDriveMode::OpenSource,
                )
            }
        }),
{
}

/// Pins are read only at places where the cluster has pins, and written only with as many
/// levels as pins; a cluster that is closed, and one whose watcher has failed, says so first.
pub proof fn requests_stay_within_the_cluster(
    backend: BackendModel,
    id: u64,
    indices: Seq<usize>,
    values: Seq<PinLevel>,
)
    ensures
        ({
            let pins = backend.clusters[id].pins;
            let beyond = exists|i: int| 0 <= i < indices.len() && #[trigger] indices[i] >= pins.len();
            let usable = backend.clusters.contains_key(id) && backend.error is None;
            let read = read_outcome(backend, id, indices);
            let written = write_outcome(backend, id, indices, values);
            &&& !backend.clusters.contains_key(id) ==> read == Err::<Seq<PinLevel>, _>(
                MockErrorModel::Closed,
            ) && written == Err::<Chips, _>(MockErrorModel::Closed)
            &&& backend.clusters.contains_key(id) && backend.error is Some ==> read == Err::<
                Seq<PinLevel>,
                _,
            >(MockErrorModel::WatcherFailed(backend.error->Some_0)) && written == Err::<Chips, _>(
                MockErrorModel::WatcherFailed(backend.error->Some_0),
            )
            &&& usable && beyond ==> read == Err::<Seq<PinLevel>, _>(MockErrorModel::InvalidIndex)
            &&& usable && indices.len() != values.len() ==> written == Err::<Chips, _>(
                MockErrorModel::UnmatchedValue,
            )
            &&& usable && beyond && indices.len() == values.len() ==> written == Err::<Chips, _>(
                MockErrorModel::InvalidIndex,
            )
            &&& read == Err::<Seq<PinLevel>, _>(MockErrorModel::InvalidIndex) ==> beyond
            &&& written == Err::<Chips, _>(MockErrorModel::InvalidIndex) ==> beyond
        }),
{
    let pins = backend.clusters[id].pins;
    if let Some(chips) = backend.chips {
        lemma_read_faults(chips, pins, indices);
        if indices.len() == values.len() {
            lemma_write_faults(chips, pins, indices, values);
        }
    }
}

proof fn lemma_read_faults(chips: Chips, pins: Seq<ClusterPinModel>, indices: Seq<usize>)
    ensures
        levels_read(chips, pins, indices) matches Err(fault) ==> fault is LineNotFound,
    decreases indices.len(),
{
    if indices.len() > 0 {
        lemma_read_faults(chips, pins, indices.drop_last());
    }
}

proof fn lemma_write_faults(
    chips: Chips,
    pins: Seq<ClusterPinModel>,
    indices: Seq<usize>,
    values: Seq<PinLevel>,
)
    ensures
        levels_written(chips, pins, indices, values) matches Err(fault) ==> fault is LineNotFound
            || fault is WriteToInput,
    decreases indices.len(),
{
    if indices.len() > 0 {
        lemma_write_faults(chips, pins, indices.drop_last(), values.drop_last());
    }
}

/// What is wrong with a line element is told with its chip and its offset.
pub proof fn faulty_line_elements_are_told(chip: Seq<char>, line: XmlLineModel)
    ensures
        ({
            let text = trimmed_text(line.level);
            let place = chip + ":"@ + decimal(line.id as nat);
            let fault = line_read(chip, line);
            &&& text != "0"@ && text != "1"@ ==> fault == Err::<LineSnapshot, _>(
                MockErrorModel::InvalidValue { chip, line: line.id, value: text },
            )
            &&& text == "0"@ && line.mode == XmlLineMode::Input && line.drive is Some ==> fault
                == Err::<LineSnapshot, _>(
                MockErrorModel::Parse("input line "@ + place + " must not define drive"@),
            )
            &&& text == "0"@ && line.mode == XmlLineMode::Output && (line.bias is Some
                || line.event is Some) ==> fault == Err::<LineSnapshot, _>(
                MockErrorModel::Parse("output line "@ + place + " must not define bias or event"@),
            )
        }),
{
}

} // verus!

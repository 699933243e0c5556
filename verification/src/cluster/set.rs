//! Writing targets of a session, at once or in steps.

use std::collections::BTreeMap;

use vstd::prelude::*;
use vstd::string::StringExecFns;

use crate::cluster::backend::write_outcome;
use crate::cluster::backend::MockBackend;
use crate::cluster::cache::CacheErrorModel;
use crate::cluster::cache::CacheModel;
use crate::cluster::cache::TargetsCache;
use crate::cluster::cache::TargetsCacheError;
use crate::cluster::context::set_fault;
use crate::cluster::context::ContextModel;
use crate::cluster::context::SessionContext;
use crate::cluster::context::SessionStateError;
use crate::cluster::get::cluster_error_response;
use crate::cluster::get::narrow;
use crate::cluster::indices::ResolvedPinIndices;
use crate::cluster::properties::PinLevel;
use crate::cluster::snapshot::BackendSnapshot;
use crate::keys::offsets_in_order;
use crate::keys::sorted_offsets;
use crate::names::NameMap;
use crate::number::decimal;
use crate::number::number_text;
use crate::protocol::response::ResponseMessage;
use crate::protocol::response::ResponseModel;
use crate::session::compiled::TargetMode;
use crate::session::execute::bit_of;
use crate::text::joined;

verus! {

/// What a target is set to: a value at once, or values in steps.
#[derive(Debug, PartialEq, Eq)]
pub enum SetTargetValue {
    Immediate(u8),
    Sequence(Vec<SetStepRequest>),
}

/// One step: a value, `lag` milliseconds after the step before it.
#[derive(Debug, Clone, Copy, PartialEq, Eq, Structural)]
pub struct SetStepRequest {
    pub lag: u32,
    pub value: u8,
}

/// A level to write to a pin.
#[derive(Debug, Clone, Copy, PartialEq, Eq, Structural)]
pub struct PinWriteInfo {
    pub index: usize,
    pub bit_offset: u32,
    pub value: PinLevel,
}

impl PinWriteInfo {
    /// The index of the pin.
    pub fn get_index(&self) -> (index: usize)
        ensures
            index == self.index,
    {
        self.index
    }

    /// The level to write.
    pub fn get_value(&self) -> (value: PinLevel)
        ensures
            value == self.value,
    {
        self.value
    }
}

/// Writes at a point in time, in milliseconds.
#[derive(Debug, PartialEq, Eq)]
pub struct ScheduleWriteTask {
    pub time: u64,
    pub writes: Vec<PinWriteInfo>,
}

// ---------------------------------------------------------------------------
// Errors
// ---------------------------------------------------------------------------

/// Why a `set` is refused.
#[derive(Debug, Clone, Copy, PartialEq, Eq)]
pub enum ExtractWriteInfoError<'a> {
    TargetsCacheError(TargetsCacheError<'a>),
    InvalidLag { target: &'a str, step: usize },
    SequenceStepLimitExceeded { target: &'a str, steps: usize, limit: usize },
    TotalExecutionTimeLimitExceeded { total_ms: u64, limit: u32 },
}

/// An [`ExtractWriteInfoError`] with its texts as character sequences.
pub ghost enum WriteFault {
    Cache(CacheErrorModel),
    InvalidLag { target: Seq<char>, step: usize },
    SequenceStepLimitExceeded { target: Seq<char>, steps: usize, limit: usize },
    TotalExecutionTimeLimitExceeded { total_ms: u64, limit: u32 },
}

impl View for ExtractWriteInfoError<'_> {
    type V = WriteFault;

    open spec fn view(&self) -> WriteFault {
        match *self {
            ExtractWriteInfoError::TargetsCacheError(error) => WriteFault::Cache(error@),
            ExtractWriteInfoError::InvalidLag { target, step } => WriteFault::InvalidLag {
                target: target@,
                step,
            },
            ExtractWriteInfoError::SequenceStepLimitExceeded { target, steps, limit } =>
                WriteFault::SequenceStepLimitExceeded { target: target@, steps, limit },
            ExtractWriteInfoError::TotalExecutionTimeLimitExceeded { total_ms, limit } =>
                WriteFault::TotalExecutionTimeLimitExceeded { total_ms, limit },
        }
    }
}

impl WriteFault {
    /// The error in words.
    pub open spec fn text(self) -> Seq<char> {
        match self {
            WriteFault::Cache(fault) => fault.text(),
            WriteFault::InvalidLag { target, step } => "set target sequence step "@ + decimal(
                step as nat,
            ) + " must include lag for target `"@ + target + "`"@,
            WriteFault::SequenceStepLimitExceeded { target, steps, limit } =>
                "set target sequence for `"@ + target + "` has "@ + decimal(steps as nat)
                    + " steps, exceeding limit of "@ + decimal(limit as nat),
            WriteFault::TotalExecutionTimeLimitExceeded { total_ms, limit } =>
                "set request total execution time "@ + decimal(total_ms as nat)
                    + "ms exceeds limit of "@ + decimal(limit as nat) + "ms"@,
        }
    }
}

impl<'a> ExtractWriteInfoError<'a> {
    /// The error in words.
    pub fn message(&self) -> (message: String)
        ensures
            message@ == self@.text(),
    {
        match self {
            ExtractWriteInfoError::TargetsCacheError(error) => error.message(),
            ExtractWriteInfoError::InvalidLag { target, step } => joined(
                "set target sequence step ",
                number_text(*step as u64).as_str(),
            ).concat(" must include lag for target `").concat(target).concat("`"),
            ExtractWriteInfoError::SequenceStepLimitExceeded { target, steps, limit } => joined(
                "set target sequence for `",
                target,
            ).concat("` has ").concat(number_text(*steps as u64).as_str()).concat(
                " steps, exceeding limit of ",
            ).concat(number_text(*limit as u64).as_str()),
            ExtractWriteInfoError::TotalExecutionTimeLimitExceeded { total_ms, limit } => joined(
                "set request total execution time ",
                number_text(*total_ms).as_str(),
            ).concat("ms exceeds limit of ").concat(number_text(*limit as u64).as_str()).concat(
                "ms",
            ),
        }
    }

    /// The answer to the request.
    pub fn into_response(self, id: &str) -> (response: ResponseMessage)
        ensures
            response@ == (id@, ResponseModel::Error(self@.text())),
    {
        ResponseMessage::error(id, self.message())
    }
}

// ---------------------------------------------------------------------------
// Plans
// ---------------------------------------------------------------------------

/// The writes of a `set`: at once, and by milliseconds after its start.
pub ghost struct WritePlan {
    pub immediate: Seq<PinWriteInfo>,
    pub delayed: Map<u32, Seq<PinWriteInfo>>,
}

/// The level of a bit.
pub open spec fn bit_level(bit: bool) -> PinLevel {
    if bit {
        PinLevel::High
    } else {
        PinLevel::Low
    }
}

/// The writes of a value to the pins of a target: the first pin takes the highest bit.
pub open spec fn target_writes(indices: Seq<usize>, value: u8) -> Seq<PinWriteInfo> {
    Seq::new(
        indices.len(),
        |i: int|
            PinWriteInfo {
                index: indices[i],
                bit_offset: (indices.len() - 1 - i) as u32,
                value: bit_level(bit_of(value, (indices.len() - 1 - i) as nat)),
            },
    )
}

/// The writes that stand at a lag so far.
pub open spec fn writes_at(delayed: Map<u32, Seq<PinWriteInfo>>, lag: u32) -> Seq<PinWriteInfo> {
    if delayed.contains_key(lag) {
        delayed[lag]
    } else {
        Seq::empty()
    }
}

/// The plan with the first steps of a sequence, and the lag of the last of them. Only the
/// first step may be without a lag.
pub open spec fn steps_planned(
    plan: WritePlan,
    target: Seq<char>,
    indices: Seq<usize>,
    steps: Seq<SetStepRequest>,
    limit_ms: u32,
    count: nat,
) -> Result<(WritePlan, nat), WriteFault>
    decreases count,
{
    if count == 0 {
        Ok((plan, 0))
    } else {
        let step = steps[count - 1];
        match steps_planned(plan, target, indices, steps, limit_ms, (count - 1) as nat) {
            Err(fault) => Err(fault),
            Ok((before, lag)) => {
                let writes = target_writes(indices, step.value);
                if step.lag == 0 {
                    if count > 1 {
                        Err(WriteFault::InvalidLag { target, step: (count - 1) as usize })
                    } else {
                        Ok((WritePlan { immediate: before.immediate + writes, ..before }, lag))
                    }
                } else {
                    let total = lag + step.lag as nat;
                    if total > limit_ms {
                        Err(
                            WriteFault::TotalExecutionTimeLimitExceeded {
                                total_ms: total as u64,
                                limit: limit_ms,
                            },
                        )
                    } else {
                        Ok(
                            (
                                WritePlan {
                                    delayed: before.delayed.insert(
                                        total as u32,
                                        writes_at(before.delayed, total as u32) + writes,
                                    ),
                                    ..before
                                },
                                total,
                            ),
                        )
                    }
                }
            },
        }
    }
}

/// The plan with one more target.
pub open spec fn target_planned(
    plan: WritePlan,
    cache: CacheModel,
    target: Seq<char>,
    value: SetTargetValue,
    limit_steps: usize,
    limit_ms: u32,
) -> Result<WritePlan, WriteFault> {
    if !cache.targets.contains_key(target) {
        Err(WriteFault::Cache(CacheErrorModel::UnknownTarget { target }))
    } else if cache.targets[target].0 != TargetMode::Output {
        Err(WriteFault::Cache(CacheErrorModel::TargetNotWritable { target }))
    } else {
        let indices = cache.targets[target].1;
        match value {
            SetTargetValue::Immediate(value) => Ok(
                WritePlan { immediate: plan.immediate + target_writes(indices, value), ..plan },
            ),
            SetTargetValue::Sequence(steps) => if steps@.len() > limit_steps {
                Err(
                    WriteFault::SequenceStepLimitExceeded {
                        target,
                        steps: steps@.len() as usize,
                        limit: limit_steps,
                    },
                )
            } else {
                match steps_planned(plan, target, indices, steps@, limit_ms, steps@.len()) {
                    Err(fault) => Err(fault),
                    Ok((planned, _)) => Ok(planned),
                }
            },
        }
    }
}

/// The plan of targets in the order of their names, the first that is refused deciding.
pub open spec fn targets_planned(
    cache: CacheModel,
    targets: Seq<Seq<char>>,
    values: Seq<SetTargetValue>,
    limit_steps: usize,
    limit_ms: u32,
    count: nat,
) -> Result<WritePlan, WriteFault>
    decreases count,
{
    if count == 0 {
        Ok(WritePlan { immediate: Seq::empty(), delayed: Map::empty() })
    } else {
        match targets_planned(cache, targets, values, limit_steps, limit_ms, (count - 1) as nat) {
            Err(fault) => Err(fault),
            Ok(before) => target_planned(
                before,
                cache,
                targets[count - 1],
                values[count - 1],
                limit_steps,
                limit_ms,
            ),
        }
    }
}

proof fn lemma_steps_prefix(
    plan: WritePlan,
    target: Seq<char>,
    indices: Seq<usize>,
    steps: Seq<SetStepRequest>,
    limit_ms: u32,
    fewer: nat,
    count: nat,
)
    requires
        fewer <= count,
        steps_planned(plan, target, indices, steps, limit_ms, fewer) is Err,
    ensures
        steps_planned(plan, target, indices, steps, limit_ms, count) == steps_planned(
            plan,
            target,
            indices,
            steps,
            limit_ms,
            fewer,
        ),
    decreases count,
{
    if fewer < count {
        lemma_steps_prefix(plan, target, indices, steps, limit_ms, fewer, (count - 1) as nat);
    }
}

proof fn lemma_targets_prefix(
    cache: CacheModel,
    targets: Seq<Seq<char>>,
    values: Seq<SetTargetValue>,
    limit_steps: usize,
    limit_ms: u32,
    fewer: nat,
    count: nat,
)
    requires
        fewer <= count,
        targets_planned(cache, targets, values, limit_steps, limit_ms, fewer) is Err,
    ensures
        targets_planned(cache, targets, values, limit_steps, limit_ms, count) == targets_planned(
            cache,
            targets,
            values,
            limit_steps,
            limit_ms,
            fewer,
        ),
    decreases count,
{
    if fewer < count {
        lemma_targets_prefix(
            cache,
            targets,
            values,
            limit_steps,
            limit_ms,
            fewer,
            (count - 1) as nat,
        );
    }
}

/// Appends the writes of a value to the pins of a target.
pub fn extract_write_info(
    target_pins: &ResolvedPinIndices,
    value: u8,
    storage: &mut Vec<PinWriteInfo>,
)
    requires
        1 <= target_pins@.len() <= 8,
    ensures
        final(storage)@ == old(storage)@ + target_writes(target_pins@, value),
{
    let ghost before = storage@;
    let ghost added = target_writes(target_pins@, value);
    let len: usize = target_pins.len();
    let mut index: usize = 0;
    assert(before + added.take(0) =~= before);
    while index < len
        invariant
            index <= len,
            len == target_pins@.len(),
            len <= 8,
            added == target_writes(target_pins@, value),
            storage@ == before + added.take(index as int),
        decreases len - index,
    {
        let shift: u8 = (len - 1 - index) as u8;
        let bit: u8 = (value >> shift) & 1;
        proof {
            assert((value >> shift) & 1 == 0 || (value >> shift) & 1 == 1) by (bit_vector);
        }
        let write = PinWriteInfo {
            index: target_pins.index_at(index),
            bit_offset: shift as u32,
            value: PinLevel::from(bit),
        };
        storage.push(write);
        assert(write == added[index as int]);
        index += 1;
        assert(added.take(index as int) =~= added.take(index - 1).push(write));
    }
    assert(added.take(index as int) =~= added);
}

/// The delayed writes in mathematical terms.
pub open spec fn delayed_model(delayed: Map<u32, Vec<PinWriteInfo>>) -> Map<
    u32,
    Seq<PinWriteInfo>,
> {
    delayed.map_values(|writes: Vec<PinWriteInfo>| writes@)
}

fn plan_steps<'a>(
    target: &'a str,
    pins: &ResolvedPinIndices,
    steps: &Vec<SetStepRequest>,
    limit_ms: u32,
    immediate: &mut Vec<PinWriteInfo>,
    delayed: &mut BTreeMap<u32, Vec<PinWriteInfo>>,
) -> (result: Result<(), ExtractWriteInfoError<'a>>)
    requires
        1 <= pins@.len() <= 8,
    ensures
        match (
            result,
            steps_planned(
                WritePlan { immediate: old(immediate)@, delayed: delayed_model(old(delayed)@) },
                target@,
                pins@,
                steps@,
                limit_ms,
                steps@.len(),
            ),
        ) {
            (Ok(_), Ok((plan, _))) => plan == (WritePlan {
                immediate: final(immediate)@,
                delayed: delayed_model(final(delayed)@),
            }),
            (Err(error), Err(expected)) => error@ == expected,
            _ => false,
        },
{
    let ghost plan = WritePlan { immediate: immediate@, delayed: delayed_model(delayed@) };
    let mut lag: u32 = 0;
    let mut index: usize = 0;
    while index < steps.len()
        invariant
            index <= steps@.len(),
            1 <= pins@.len() <= 8,
            lag <= limit_ms,
            plan == (WritePlan {
                immediate: old(immediate)@,
                delayed: delayed_model(old(delayed)@),
            }),
            steps_planned(plan, target@, pins@, steps@, limit_ms, index as nat) == Ok::<
                (WritePlan, nat),
                WriteFault,
            >(
                (
                    WritePlan { immediate: immediate@, delayed: delayed_model(delayed@) },
                    lag as nat,
                ),
            ),
        decreases steps@.len() - index,
    {
        let step = steps[index];
        proof {
            if steps_planned(plan, target@, pins@, steps@, limit_ms, (index + 1) as nat) is Err {
                lemma_steps_prefix(
                    plan,
                    target@,
                    pins@,
                    steps@,
                    limit_ms,
                    (index + 1) as nat,
                    steps@.len(),
                );
            }
        }
        if step.lag == 0 {
            if index > 0 {
                return Err(ExtractWriteInfoError::InvalidLag { target, step: index });
            }
            extract_write_info(pins, step.value, immediate);
        } else {
            let total: u64 = lag as u64 + step.lag as u64;
            if total > limit_ms as u64 {
                return Err(
                    ExtractWriteInfoError::TotalExecutionTimeLimitExceeded {
                        total_ms: total,
                        limit: limit_ms,
                    },
                );
            }
            lag = total as u32;
            let ghost before = delayed@;
            let mut writes = match delayed.remove(&lag) {
                Some(writes) => writes,
                None => Vec::new(),
            };
            assert(writes@ == writes_at(delayed_model(before), lag));
            extract_write_info(pins, step.value, &mut writes);
            delayed.insert(lag, writes);
            assert(delayed_model(delayed@) =~= delayed_model(before).insert(lag, writes@));
        }
        index += 1;
    }
    Ok(())
}

/// The writes of a `set`: at once, and by milliseconds after its start.
pub fn collect_write_plan<'a>(
    cache: &TargetsCache,
    targets: &'a NameMap<SetTargetValue>,
    max_sequence_steps: usize,
    max_total_execution_time_ms: u32,
) -> (result: Result<
    (Vec<PinWriteInfo>, BTreeMap<u32, Vec<PinWriteInfo>>),
    ExtractWriteInfoError<'a>,
>)
    requires
        narrow(cache@),
    ensures
        match (
            result,
            targets_planned(
                cache@,
                targets.names(),
                targets.values(),
                max_sequence_steps,
                max_total_execution_time_ms,
                targets.names().len(),
            ),
        ) {
            (Ok((immediate, delayed)), Ok(plan)) => plan == (WritePlan {
                immediate: immediate@,
                delayed: delayed_model(delayed@),
            }),
            (Err(error), Err(expected)) => error@ == expected,
            _ => false,
        },
{
    let mut immediate: Vec<PinWriteInfo> = Vec::new();
    let mut delayed: BTreeMap<u32, Vec<PinWriteInfo>> = BTreeMap::new();
    assert(delayed_model(delayed@) =~= Map::<u32, Seq<PinWriteInfo>>::empty());
    let count: usize = targets.len();
    let mut index: usize = 0;
    while index < count
        invariant
            index <= count,
            count == targets.names().len(),
            targets.wf(),
            narrow(cache@),
            targets_planned(
                cache@,
                targets.names(),
                targets.values(),
                max_sequence_steps,
                max_total_execution_time_ms,
                index as nat,
            ) == Ok::<WritePlan, WriteFault>(
                WritePlan { immediate: immediate@, delayed: delayed_model(delayed@) },
            ),
        decreases count - index,
    {
        let name = targets.name_at(index).as_str();
        let value = targets.value_at(index);
        proof {
            if targets_planned(
                cache@,
                targets.names(),
                targets.values(),
                max_sequence_steps,
                max_total_execution_time_ms,
                (index + 1) as nat,
            ) is Err {
                lemma_targets_prefix(
                    cache@,
                    targets.names(),
                    targets.values(),
                    max_sequence_steps,
                    max_total_execution_time_ms,
                    (index + 1) as nat,
                    count as nat,
                );
            }
        }
        let target = match cache.target(name) {
            Err(error) => {
                return Err(ExtractWriteInfoError::TargetsCacheError(error));
            },
            Ok(target) => target,
        };
        if target.mode != TargetMode::Output {
            return Err(
                ExtractWriteInfoError::TargetsCacheError(
                    TargetsCacheError::TargetNotWritable { target: name },
                ),
            );
        }
        match value {
            SetTargetValue::Immediate(value) => {
                extract_write_info(&target.indices, *value, &mut immediate);
            },
            SetTargetValue::Sequence(steps) => {
                if steps.len() > max_sequence_steps {
                    return Err(
                        ExtractWriteInfoError::SequenceStepLimitExceeded {
                            target: name,
                            steps: steps.len(),
                            limit: max_sequence_steps,
                        },
                    );
                }
                match plan_steps(
                    name,
                    &target.indices,
                    steps,
                    max_total_execution_time_ms,
                    &mut immediate,
                    &mut delayed,
                ) {
                    Err(error) => {
                        return Err(error);
                    },
                    Ok(()) => {},
                }
            },
        }
        index += 1;
    }
    Ok((immediate, delayed))
}

// ---------------------------------------------------------------------------
// Requests
// ---------------------------------------------------------------------------

/// Delayed writes as tasks, the earliest first, counted from a start in milliseconds.
pub fn build_scheduled_tasks(
    delayed_writes: &BTreeMap<u32, Vec<PinWriteInfo>>,
    schedule_base: u64,
) -> (tasks: Vec<ScheduleWriteTask>)
    requires
        schedule_base + u32::MAX <= u64::MAX,
    ensures
        tasks@.len() == sorted_offsets(delayed_writes@.dom()).len(),
        forall|i: int|
            0 <= i < tasks@.len() ==> {
                let lag = sorted_offsets(delayed_writes@.dom())[i];
                &&& delayed_writes@.contains_key(lag)
                &&& (#[trigger] tasks@[i]).time == schedule_base + lag
                &&& tasks@[i].writes@ == delayed_writes@[lag]@
            },
{
    let lags = offsets_in_order(delayed_writes);
    let mut tasks: Vec<ScheduleWriteTask> = Vec::new();
    let mut index: usize = 0;
    while index < lags.len()
        invariant
            index <= lags@.len(),
            schedule_base + u32::MAX <= u64::MAX,
            lags@ == sorted_offsets(delayed_writes@.dom()),
            lags@.to_set() == delayed_writes@.dom(),
            tasks@.len() == index,
            forall|i: int|
                0 <= i < index ==> {
                    &&& delayed_writes@.contains_key(lags@[i])
                    &&& (#[trigger] tasks@[i]).time == schedule_base + lags@[i]
                    &&& tasks@[i].writes@ == delayed_writes@[lags@[i]]@
                },
        decreases lags@.len() - index,
    {
        let lag: u32 = lags[index];
        assert(lags@.to_set().contains(lag));
        if let Some(found) = delayed_writes.get(&lag) {
            let writes = copied_writes(found);
            tasks.push(ScheduleWriteTask { time: schedule_base + lag as u64, writes });
        }
        index += 1;
    }
    tasks
}

fn copied_writes(writes: &Vec<PinWriteInfo>) -> (copied: Vec<PinWriteInfo>)
    ensures
        copied@ == writes@,
{
    let mut copied: Vec<PinWriteInfo> = Vec::new();
    let mut index: usize = 0;
    while index < writes.len()
        invariant
            index <= writes@.len(),
            copied@ == writes@.take(index as int),
        decreases writes@.len() - index,
    {
        copied.push(writes[index]);
        index += 1;
        assert(writes@.take(index as int) =~= writes@.take(index - 1).push(writes@[index - 1]));
    }
    assert(writes@.take(index as int) =~= writes@);
    copied
}

/// The pins of writes.
pub open spec fn write_indices(writes: Seq<PinWriteInfo>) -> Seq<usize> {
    writes.map_values(|write: PinWriteInfo| write.index)
}

/// The levels of writes.
pub open spec fn write_levels(writes: Seq<PinWriteInfo>) -> Seq<PinLevel> {
    writes.map_values(|write: PinWriteInfo| write.value)
}

fn indices_and_levels(writes: &Vec<PinWriteInfo>) -> (result: (Vec<usize>, Vec<PinLevel>))
    ensures
        result.0@ == write_indices(writes@),
        result.1@ == write_levels(writes@),
{
    let mut indices: Vec<usize> = Vec::new();
    let mut levels: Vec<PinLevel> = Vec::new();
    let mut index: usize = 0;
    while index < writes.len()
        invariant
            index <= writes@.len(),
            indices@ == write_indices(writes@).take(index as int),
            levels@ == write_levels(writes@).take(index as int),
        decreases writes@.len() - index,
    {
        indices.push(writes[index].get_index());
        levels.push(writes[index].get_value());
        index += 1;
        assert(write_indices(writes@).take(index as int) =~= write_indices(writes@).take(
            index - 1,
        ).push(writes@[index - 1].index));
        assert(write_levels(writes@).take(index as int) =~= write_levels(writes@).take(
            index - 1,
        ).push(writes@[index - 1].value));
    }
    assert(write_indices(writes@).take(index as int) =~= write_indices(writes@));
    assert(write_levels(writes@).take(index as int) =~= write_levels(writes@));
    (indices, levels)
}

/// Serves `set` requests within limits.
#[derive(Debug, Clone, Copy, PartialEq, Eq, Structural)]
pub struct SetHandler {
    pub max_sequence_steps: usize,
    pub max_total_execution_time_ms: u32,
}

impl Default for SetHandler {
    fn default() -> (handler: Self)
        ensures
            handler.max_sequence_steps == 32,
            handler.max_total_execution_time_ms == 60_000,
    {
        SetHandler { max_sequence_steps: 32, max_total_execution_time_ms: 60_000 }
    }
}

/// What a `set` begins with: its plan, or the words in which it is refused.
pub open spec fn set_begun(
    handler: SetHandler,
    session: ContextModel,
    targets: Seq<Seq<char>>,
    values: Seq<SetTargetValue>,
) -> Result<WritePlan, Seq<char>> {
    match set_fault(session) {
        Some(fault) => Err(fault.text()),
        None => match targets_planned(
            session.initialized->Some_0.cache,
            targets,
            values,
            handler.max_sequence_steps,
            handler.max_total_execution_time_ms,
            targets.len(),
        ) {
            Err(fault) => Err(fault.text()),
            Ok(plan) => Ok(plan),
        },
    }
}

impl SetHandler {
    /// Begins a `set`. Where it is refused, the session stays as it is.
    pub fn begin(
        &self,
        session: &mut SessionContext,
        request_id: &str,
        target: &NameMap<SetTargetValue>,
    ) -> (result: Result<(Vec<PinWriteInfo>, BTreeMap<u32, Vec<PinWriteInfo>>), ResponseMessage>)
        requires
            old(session)@.initialized matches Some(initialized) ==> narrow(initialized.cache),
        ensures
            match (result, set_begun(*self, old(session)@, target.names(), target.values())) {
                (Ok((immediate, delayed)), Ok(plan)) => {
                    &&& plan == (WritePlan {
                        immediate: immediate@,
                        delayed: delayed_model(delayed@),
                    })
                    &&& final(session)@ == (ContextModel { setting: true, ..old(session)@ })
                },
                (Err(response), Err(words)) => {
                    &&& response@ == (request_id@, ResponseModel::Error(words))
                    &&& final(session)@ == old(session)@
                },
                _ => false,
            },
    {
        if let Err(error) = session.enter_set() {
            return Err(error.into_response(request_id));
        }
        let planned = match &session.initialized {
            Some(initialized) => collect_write_plan(
                &initialized.cache,
                target,
                self.max_sequence_steps,
                self.max_total_execution_time_ms,
            ),
            None => {
                return Err(SessionStateError::NotInitialized.into_response(request_id));
            },
        };
        match planned {
            Ok(plan) => Ok(plan),
            Err(error) => {
                session.leave_set();
                Err(error.into_response(request_id))
            },
        }
    }

    /// The chips once the writes of a step are done. Where they cannot be done, the `set`
    /// ends.
    pub fn write(
        session: &mut SessionContext,
        backend: &MockBackend,
        request_id: &str,
        writes: &Vec<PinWriteInfo>,
    ) -> (result: Result<BackendSnapshot, ResponseMessage>)
        requires
            old(session)@.initialized is Some,
        ensures
            match (
                result,
                write_outcome(
                    backend@,
                    old(session)@.initialized->Some_0.cluster,
                    write_indices(writes@),
                    write_levels(writes@),
                ),
            ) {
                (Ok(snapshot), Ok(expected)) => snapshot@ == expected && final(session)@ == old(
                    session,
                )@,
                (Err(response), Err(fault)) => {
                    &&& response@ == (request_id@, ResponseModel::Error(fault.text()))
                    &&& final(session)@ == (ContextModel { setting: false, ..old(session)@ })
                },
                _ => false,
            },
    {
        let number: u64 = match &session.initialized {
            Some(initialized) => initialized.cluster,
            None => 0,
        };
        let (indices, levels) = indices_and_levels(writes);
        match backend.write(number, &indices, &levels) {
            Ok(snapshot) => Ok(snapshot),
            Err(error) => {
                session.leave_set();
                Err(cluster_error_response(request_id, error))
            },
        }
    }

    /// Ends a `set` whose writes are all done.
    pub fn finish(session: &mut SessionContext, request_id: &str) -> (response: ResponseMessage)
        ensures
            response@ == (request_id@, ResponseModel::Done),
            final(session)@ == (ContextModel { setting: false, ..old(session)@ }),
    {
        session.leave_set();
        ResponseMessage::ok(request_id)
    }
}

} // verus!

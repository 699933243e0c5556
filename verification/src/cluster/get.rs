//! Reading targets of a session.

use vstd::prelude::*;

use crate::cluster::backend::read_outcome;
use crate::cluster::backend::BackendModel;
use crate::cluster::backend::MockBackend;
use crate::cluster::cache::CacheErrorModel;
use crate::cluster::cache::CacheModel;
use crate::cluster::cache::TargetsCache;
use crate::cluster::cache::TargetsCacheError;
use crate::cluster::context::ContextModel;
use crate::cluster::context::SessionContext;
use crate::cluster::context::SessionStateError;
use crate::cluster::error::GPIOClusterError;
use crate::cluster::properties::level_bit;
use crate::cluster::properties::PinLevel;
use crate::protocol::request::TargetSelector;
use crate::protocol::response::PinValuePayload;
use crate::protocol::response::ResponseMessage;
use crate::protocol::response::ResponseModel;
use crate::session::compiled::TargetMode;
use crate::session::execute::bit_of;
use crate::session::execute::lemma_or_bit;
use crate::session::execute::name_models;

verus! {

/// The answer to a request that fails in the cluster.
pub fn cluster_error_response<E: GPIOClusterError>(request_id: &str, error: E) -> (response:
    ResponseMessage)
    ensures
        response@ == (request_id@, ResponseModel::Error(error.words())),
{
    ResponseMessage::error(request_id, error.message())
}

/// A pin to read: its index, the bit that its level goes to, and the place of its target.
#[derive(Debug, Clone, Copy, PartialEq, Eq, Structural)]
pub struct PinReadInfo {
    pub index: usize,
    pub bit_offset: u32,
    pub target_slot: usize,
}

impl PinReadInfo {
    /// The index of the pin.
    pub fn get_index(&self) -> (index: usize)
        ensures
            index == self.index,
    {
        self.index
    }
}

/// Whether the targets have between one and eight pins, so that a value fits a byte.
pub open spec fn narrow(cache: CacheModel) -> bool {
    forall|name: Seq<char>| #[trigger]
        cache.targets.contains_key(name) ==> 1 <= cache.targets[name].1.len() <= 8
}

/// The pins of a target to read: the first one takes the highest bit.
pub open spec fn target_reads(indices: Seq<usize>, slot: usize) -> Seq<PinReadInfo> {
    Seq::new(
        indices.len(),
        |i: int|
            PinReadInfo {
                index: indices[i],
                bit_offset: (indices.len() - 1 - i) as u32,
                target_slot: slot,
            },
    )
}

/// The pins of targets to read, the first target that cannot be read deciding.
pub open spec fn reads_collected(cache: CacheModel, names: Seq<Seq<char>>) -> Result<
    Seq<PinReadInfo>,
    CacheErrorModel,
>
    decreases names.len(),
{
    if names.len() == 0 {
        Ok(Seq::empty())
    } else {
        let target = names.last();
        match reads_collected(cache, names.drop_last()) {
            Err(fault) => Err(fault),
            Ok(before) => if !cache.targets.contains_key(target) {
                Err(CacheErrorModel::UnknownTarget { target })
            } else if cache.targets[target].0 != TargetMode::Input {
                Err(CacheErrorModel::TargetNotReadable { target })
            } else {
                Ok(before + target_reads(cache.targets[target].1, (names.len() - 1) as usize))
            },
        }
    }
}

proof fn lemma_reads_prefix(cache: CacheModel, names: Seq<Seq<char>>, count: int)
    requires
        0 <= count <= names.len(),
        reads_collected(cache, names.take(count)) is Err,
    ensures
        reads_collected(cache, names) == reads_collected(cache, names.take(count)),
    decreases names.len(),
{
    if count == names.len() {
        assert(names.take(count) =~= names);
    } else {
        assert(names.drop_last().take(count) =~= names.take(count));
        lemma_reads_prefix(cache, names.drop_last(), count);
    }
}

/// Whether reads go to bits of a byte and to one of the places.
pub open spec fn reads_fit(reads: Seq<PinReadInfo>, slots: nat) -> bool {
    forall|i: int|
        0 <= i < reads.len() ==> (#[trigger] reads[i]).bit_offset < 8 && reads[i].target_slot
            < slots
}

proof fn lemma_reads_fit(cache: CacheModel, names: Seq<Seq<char>>)
    requires
        narrow(cache),
        names.len() <= usize::MAX,
    ensures
        reads_collected(cache, names) matches Ok(reads) ==> reads_fit(reads, names.len()),
    decreases names.len(),
{
    if names.len() > 0 {
        lemma_reads_fit(cache, names.drop_last());
        assert(cache.targets.contains_key(names.last()) ==> cache.targets[names.last()].1.len()
            <= 8);
    }
}

/// The pins to read for targets in order.
pub fn collect_pin_reads<'a>(cache: &TargetsCache, targets: &Vec<&'a str>) -> (result: Result<
    Vec<PinReadInfo>,
    TargetsCacheError<'a>,
>)
    requires
        narrow(cache@),
    ensures
        match (result, reads_collected(cache@, name_models(targets@))) {
            (Ok(reads), Ok(expected)) => reads@ == expected,
            (Err(error), Err(expected)) => error@ == expected,
            _ => false,
        },
{
    let ghost names = name_models(targets@);
    let mut reads: Vec<PinReadInfo> = Vec::new();
    let mut slot: usize = 0;
    while slot < targets.len()
        invariant
            slot <= targets@.len(),
            narrow(cache@),
            names == name_models(targets@),
            reads_collected(cache@, names.take(slot as int)) == Ok::<
                Seq<PinReadInfo>,
                CacheErrorModel,
            >(reads@),
        decreases targets@.len() - slot,
    {
        let name = targets[slot];
        let ghost next = names.take(slot + 1);
        proof {
            assert(next.drop_last() =~= names.take(slot as int));
            assert(next.last() == name@);
            if reads_collected(cache@, next) is Err {
                lemma_reads_prefix(cache@, names, slot + 1);
            }
        }
        let target = match cache.target(name) {
            Err(error) => {
                return Err(error);
            },
            Ok(target) => target,
        };
        if target.mode != TargetMode::Input {
            return Err(TargetsCacheError::TargetNotReadable { target: name });
        }
        let ghost before = reads@;
        let ghost added = target_reads(target.indices@, slot);
        let len: usize = target.indices.len();
        let mut index: usize = 0;
        while index < len
            invariant
                index <= len,
                len == target.indices@.len(),
                len <= 8,
                added == target_reads(target.indices@, slot),
                reads@ == before + added.take(index as int),
            decreases len - index,
        {
            let read = PinReadInfo {
                index: target.indices.index_at(index),
                bit_offset: (len - 1 - index) as u32,
                target_slot: slot,
            };
            reads.push(read);
            index += 1;
            assert(added.take(index as int) =~= added.take(index - 1).push(read));
        }
        assert(added.take(index as int) =~= added);
        slot += 1;
    }
    assert(names.take(slot as int) =~= names);
    Ok(reads)
}

// ---------------------------------------------------------------------------
// Packing
// ---------------------------------------------------------------------------

/// A byte with the level of one more pin.
pub open spec fn with_level_bit(value: u8, bit_offset: u32, level: PinLevel) -> u8 {
    value | (level_bit(level) << (bit_offset as u8))
}

/// The byte that the first levels make up, each at the bit of its pin. With a place given,
/// only the pins of the target there count.
pub open spec fn levels_packed(
    reads: Seq<PinReadInfo>,
    levels: Seq<PinLevel>,
    slot: Option<usize>,
    count: nat,
) -> u8
    decreases count,
{
    if count == 0 {
        0u8
    } else {
        let earlier = levels_packed(reads, levels, slot, (count - 1) as nat);
        let read = reads[count - 1];
        if slot is None || slot == Some(read.target_slot) {
            with_level_bit(earlier, read.bit_offset, levels[count - 1])
        } else {
            earlier
        }
    }
}

/// How many pins have a level.
pub open spec fn paired_count(reads: Seq<PinReadInfo>, levels: Seq<PinLevel>) -> nat {
    if reads.len() <= levels.len() {
        reads.len()
    } else {
        levels.len()
    }
}

/// Puts the level of a pin into a byte.
pub fn accumulate_pin_level(value: u8, pin: &PinReadInfo, level: PinLevel) -> (result: u8)
    requires
        pin.bit_offset < 8,
    ensures
        result == with_level_bit(value, pin.bit_offset, level),
{
    let bit: u8 = u8::from(level);
    let shift: u8 = pin.bit_offset as u8;
    value | (bit << shift)
}

/// Packs the levels of one target.
pub fn fold_pin_reads(reads: &[PinReadInfo], levels: &Vec<PinLevel>) -> (value: u8)
    requires
        forall|i: int| 0 <= i < reads@.len() ==> (#[trigger] reads@[i]).bit_offset < 8,
    ensures
        value == levels_packed(reads@, levels@, None, paired_count(reads@, levels@)),
{
    let mut value: u8 = 0;
    let mut index: usize = 0;
    while index < reads.len() && index < levels.len()
        invariant
            index <= paired_count(reads@, levels@),
            forall|i: int| 0 <= i < reads@.len() ==> (#[trigger] reads@[i]).bit_offset < 8,
            value == levels_packed(reads@, levels@, None, index as nat),
        decreases reads@.len() - index,
    {
        value = accumulate_pin_level(value, &reads[index], levels[index]);
        index += 1;
    }
    value
}

/// Packs the levels of several targets, each at its place.
pub fn fold_target_reads(reads: &[PinReadInfo], levels: &Vec<PinLevel>, slots: usize) -> (values:
    Vec<u8>)
    requires
        reads_fit(reads@, slots as nat),
    ensures
        values@ == Seq::new(
            slots as nat,
            |slot: int|
                levels_packed(
                    reads@,
                    levels@,
                    Some(slot as usize),
                    paired_count(reads@, levels@),
                ),
        ),
{
    let mut values: Vec<u8> = Vec::new();
    while values.len() < slots
        invariant
            values@.len() <= slots,
            forall|s: int| 0 <= s < values@.len() ==> #[trigger] values@[s] == 0u8,
        decreases slots - values@.len(),
    {
        values.push(0);
    }
    let mut index: usize = 0;
    while index < reads.len() && index < levels.len()
        invariant
            index <= paired_count(reads@, levels@),
            reads_fit(reads@, slots as nat),
            values@.len() == slots,
            forall|s: int|
                0 <= s < slots ==> #[trigger] values@[s] == levels_packed(
                    reads@,
                    levels@,
                    Some(s as usize),
                    index as nat,
                ),
        decreases reads@.len() - index,
    {
        let read = reads[index];
        let value: u8 = accumulate_pin_level(values[read.target_slot], &read, levels[index]);
        values.set(read.target_slot, value);
        index += 1;
    }
    assert(values@ =~= Seq::new(
        slots as nat,
        |slot: int|
            levels_packed(reads@, levels@, Some(slot as usize), paired_count(reads@, levels@)),
    ));
    values
}

// ---------------------------------------------------------------------------
// Requests
// ---------------------------------------------------------------------------

/// The indices of pins to read.
pub open spec fn read_indices(reads: Seq<PinReadInfo>) -> Seq<usize> {
    reads.map_values(|read: PinReadInfo| read.index)
}

/// The values of targets, given the levels of their pins.
pub open spec fn values_read(
    single: bool,
    slots: nat,
    reads: Seq<PinReadInfo>,
    levels: Seq<PinLevel>,
) -> ResponseModel {
    let count = paired_count(reads, levels);
    if single {
        ResponseModel::Value(levels_packed(reads, levels, None, count))
    } else {
        ResponseModel::Values(
            Seq::new(
                slots,
                |slot: int| levels_packed(reads, levels, Some(slot as usize), count),
            ),
        )
    }
}

/// The answer to a `get`.
pub open spec fn get_answer(
    session: ContextModel,
    backend: BackendModel,
    single: bool,
    names: Seq<Seq<char>>,
) -> ResponseModel {
    match session.initialized {
        None => ResponseModel::Error(SessionStateError::NotInitialized.text()),
        Some(initialized) => match reads_collected(initialized.cache, names) {
            Err(fault) => ResponseModel::Error(fault.text()),
            Ok(reads) => match read_outcome(backend, initialized.cluster, read_indices(reads)) {
                Err(fault) => ResponseModel::Error(fault.text()),
                Ok(levels) => values_read(single, names.len(), reads, levels),
            },
        },
    }
}

fn indices_to_read(reads: &Vec<PinReadInfo>) -> (indices: Vec<usize>)
    ensures
        indices@ == read_indices(reads@),
{
    let mut indices: Vec<usize> = Vec::new();
    let mut index: usize = 0;
    while index < reads.len()
        invariant
            index <= reads@.len(),
            indices@ == read_indices(reads@).take(index as int),
        decreases reads@.len() - index,
    {
        indices.push(reads[index].get_index());
        index += 1;
        assert(read_indices(reads@).take(index as int) =~= read_indices(reads@).take(
            index - 1,
        ).push(reads@[index - 1].index));
    }
    assert(read_indices(reads@).take(index as int) =~= read_indices(reads@));
    indices
}

/// Serves `get` requests.
#[derive(Debug)]
pub struct GetHandler;

impl GetHandler {
    /// The cluster and the pins to read for a request, or the answer where nothing is read.
    pub fn plan(session: &SessionContext, request_id: &str, target: &TargetSelector) -> (result:
        Result<(u64, Vec<PinReadInfo>), ResponseMessage>)
        requires
            session@.initialized matches Some(initialized) ==> narrow(initialized.cache),
        ensures
            match session@.initialized {
                None => result matches Err(response) && response@ == (
                    request_id@,
                    ResponseModel::Error(SessionStateError::NotInitialized.text()),
                ),
                Some(initialized) => match (result, reads_collected(initialized.cache, target@)) {
                    (Ok((cluster, reads)), Ok(expected)) => {
                        &&& cluster == initialized.cluster
                        &&& reads@ == expected
                    },
                    (Err(response), Err(fault)) => response@ == (
                        request_id@,
                        ResponseModel::Error(fault.text()),
                    ),
                    _ => false,
                },
            },
    {
        let initialized = match session.enter_get() {
            Err(error) => {
                return Err(error.into_response(request_id));
            },
            Ok(initialized) => initialized,
        };
        let names = target.as_slice();
        assert(name_models(names@) =~= target@);
        match collect_pin_reads(&initialized.cache, &names) {
            Err(error) => Err(error.into_response(request_id)),
            Ok(reads) => Ok((initialized.cluster, reads)),
        }
    }

    /// Reads the targets of a request.
    pub fn handle(
        session: &SessionContext,
        backend: &MockBackend,
        request_id: &str,
        target: &TargetSelector,
    ) -> (response: ResponseMessage)
        requires
            session@.initialized matches Some(initialized) ==> narrow(initialized.cache),
        ensures
            response@ == (
                request_id@,
                get_answer(session@, backend@, *target is Single, target@),
            ),
    {
        let (cluster, reads) = match GetHandler::plan(session, request_id, target) {
            Err(response) => {
                return response;
            },
            Ok(plan) => plan,
        };
        let slots: usize = target.len();
        proof {
            lemma_reads_fit(session@.initialized->Some_0.cache, target@);
        }
        let levels = match backend.read(cluster, &indices_to_read(&reads)) {
            Err(error) => {
                return cluster_error_response(request_id, error);
            },
            Ok(levels) => levels,
        };
        let value = match target {
            TargetSelector::Single(_) => PinValuePayload::Value(
                fold_pin_reads(reads.as_slice(), &levels),
            ),
            TargetSelector::Multiple(_) => PinValuePayload::Values(
                fold_target_reads(reads.as_slice(), &levels, slots),
            ),
        };
        ResponseMessage::pin_value(request_id, value)
    }
}

/// A bit of a packed byte is set exactly where a counted pin at that bit is high.
pub proof fn packed_bit_is_high_pin(
    reads: Seq<PinReadInfo>,
    levels: Seq<PinLevel>,
    slot: Option<usize>,
    count: nat,
    bit: nat,
)
    requires
        count <= paired_count(reads, levels),
        bit < 8,
        forall|i: int| 0 <= i < reads.len() ==> (#[trigger] reads[i]).bit_offset < 8,
    ensures
        bit_of(levels_packed(reads, levels, slot, count), bit) <==> exists|i: int|
            0 <= i < count && (#[trigger] reads[i]).bit_offset == bit && (slot is None || slot
                == Some(reads[i].target_slot)) && levels[i] == PinLevel::High,
    decreases count,
{
    if count == 0 {
        let shift = bit as u8;
        assert((0u8 >> shift) & 1 == 0) by (bit_vector);
    } else {
        packed_bit_is_high_pin(reads, levels, slot, (count - 1) as nat, bit);
        let earlier = levels_packed(reads, levels, slot, (count - 1) as nat);
        let read = reads[count - 1];
        lemma_or_bit(earlier, read.bit_offset as u8, bit as u8);
        let now = bit_of(levels_packed(reads, levels, slot, count), bit);
        if now && !bit_of(earlier, bit) {
            assert(read.bit_offset == bit && levels[count - 1] == PinLevel::High);
        }
        if exists|i: int|
            0 <= i < count && (#[trigger] reads[i]).bit_offset == bit && (slot is None || slot
                == Some(reads[i].target_slot)) && levels[i] == PinLevel::High {
            let i = choose|i: int|
                0 <= i < count && (#[trigger] reads[i]).bit_offset == bit && (slot is None || slot
                    == Some(reads[i].target_slot)) && levels[i] == PinLevel::High;
            if i < count - 1 {
                assert(bit_of(earlier, bit));
            }
            assert(now);
        }
    }
}

} // verus!

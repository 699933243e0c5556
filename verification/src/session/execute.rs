//! Compiling requests into batches, and packing what was read.

use vstd::prelude::*;

use crate::gpio::libgpiod::LineValue;
use crate::names::NameMap;
use crate::protocol::request::TargetSelector;
use crate::protocol::response::PinValuePayload;
use crate::session::batch::line_added;
use crate::session::batch::write_added;
use crate::session::batch::write_added_keeps_writes;
use crate::session::batch::writes;
use crate::session::batch::writes_once;
use crate::session::batch::ChipBatch;
use crate::session::batch::CollectRule;
use crate::session::batch::CombinedOffsets;
use crate::session::batch::CombinedOffsetsError;
use crate::session::compiled::CompiledTargets;
use crate::session::compiled::ResolvedPins;
use crate::session::compiled::TargetModel;
use crate::session::pins::ResolvedPin;
use crate::session::state::SessionError;
use crate::session::state::SessionErrorModel;

verus! {

/// A batch without lines for this many chips.
pub open spec fn empty_batch<T>(chip_count: nat) -> Seq<ChipBatch<T>> {
    Seq::new(
        chip_count,
        |i: int| ChipBatch::<T> { offsets: Seq::empty(), attachments: Seq::empty() },
    )
}

/// The error of a batch as an error of the session.
pub open spec fn batch_fault(error: CombinedOffsetsError) -> SessionErrorModel {
    SessionErrorModel::Other(error.text())
}

fn batch_error_to_session_error(error: CombinedOffsetsError) -> (result: SessionError)
    ensures
        result@ == batch_fault(error),
{
    SessionError::Other(error.message())
}

// ---------------------------------------------------------------------------
// Reading
// ---------------------------------------------------------------------------

/// Adds the first pins of a target to a batch of reads. The first pin is the highest bit of
/// the target.
pub open spec fn get_pins_added(
    chips: Seq<ChipBatch<CollectRule>>,
    target_slot: usize,
    pins: Seq<ResolvedPin>,
    count: nat,
) -> Result<Seq<ChipBatch<CollectRule>>, SessionErrorModel>
    decreases count,
{
    if count == 0 {
        Ok(chips)
    } else {
        match get_pins_added(chips, target_slot, pins, (count - 1) as nat) {
            Err(error) => Err(error),
            Ok(earlier) => {
                let pin = pins[count - 1];
                let rule = CollectRule {
                    target_slot,
                    bit_index: (pins.len() - count) as usize,
                };
                match line_added(earlier, pin.chip_index, pin.offset, rule) {
                    Ok(next) => Ok(next),
                    Err(error) => Err(batch_fault(error)),
                }
            },
        }
    }
}

/// The batch of reads with the pins before the first that cannot be added.
pub open spec fn get_pins_kept(
    chips: Seq<ChipBatch<CollectRule>>,
    target_slot: usize,
    pins: Seq<ResolvedPin>,
    count: nat,
) -> Seq<ChipBatch<CollectRule>>
    decreases count,
{
    if count == 0 {
        chips
    } else {
        match get_pins_added(chips, target_slot, pins, count) {
            Ok(added) => added,
            Err(_) => get_pins_kept(chips, target_slot, pins, (count - 1) as nat),
        }
    }
}

/// Adds a target to a batch of reads.
pub open spec fn get_target_added(
    chips: Seq<ChipBatch<CollectRule>>,
    targets: Map<Seq<char>, TargetModel>,
    target_slot: usize,
    name: Seq<char>,
) -> Result<Seq<ChipBatch<CollectRule>>, SessionErrorModel> {
    if !targets.contains_key(name) {
        Err(SessionErrorModel::UnknownTarget { target: name })
    } else if !targets[name].readable() {
        Err(SessionErrorModel::TargetNotReadable { target: name })
    } else {
        get_pins_added(chips, target_slot, targets[name].pins, targets[name].pins.len())
    }
}

/// The batch of reads once a target was added as far as it can be.
pub open spec fn get_target_kept(
    chips: Seq<ChipBatch<CollectRule>>,
    targets: Map<Seq<char>, TargetModel>,
    target_slot: usize,
    name: Seq<char>,
) -> Seq<ChipBatch<CollectRule>> {
    if targets.contains_key(name) && targets[name].readable() {
        get_pins_kept(chips, target_slot, targets[name].pins, targets[name].pins.len())
    } else {
        chips
    }
}

/// The batch of reads of targets in order, or why the first of them that cannot be read
/// cannot.
pub open spec fn get_batch(
    targets: Map<Seq<char>, TargetModel>,
    names: Seq<Seq<char>>,
    chip_count: nat,
) -> Result<Seq<ChipBatch<CollectRule>>, SessionErrorModel>
    decreases names.len(),
{
    if names.len() == 0 {
        Ok(empty_batch(chip_count))
    } else {
        match get_batch(targets, names.drop_last(), chip_count) {
            Err(error) => Err(error),
            Ok(earlier) => get_target_added(
                earlier,
                targets,
                (names.len() - 1) as usize,
                names.last(),
            ),
        }
    }
}

proof fn lemma_get_pins_fault(
    chips: Seq<ChipBatch<CollectRule>>,
    target_slot: usize,
    pins: Seq<ResolvedPin>,
    count: nat,
    total: nat,
)
    requires
        count <= total,
        get_pins_added(chips, target_slot, pins, count) is Err,
    ensures
        get_pins_added(chips, target_slot, pins, total) == get_pins_added(
            chips,
            target_slot,
            pins,
            count,
        ),
        get_pins_kept(chips, target_slot, pins, total) == get_pins_kept(
            chips,
            target_slot,
            pins,
            count,
        ),
    decreases total,
{
    if count < total {
        lemma_get_pins_fault(chips, target_slot, pins, count, (total - 1) as nat);
    }
}

proof fn lemma_get_batch_fault(
    targets: Map<Seq<char>, TargetModel>,
    names: Seq<Seq<char>>,
    chip_count: nat,
    count: int,
)
    requires
        0 <= count <= names.len(),
        get_batch(targets, names.take(count), chip_count) is Err,
    ensures
        get_batch(targets, names, chip_count) == get_batch(targets, names.take(count), chip_count),
    decreases names.len(),
{
    if count == names.len() {
        assert(names.take(count) =~= names);
    } else {
        assert(names.drop_last().take(count) =~= names.take(count));
        lemma_get_batch_fault(targets, names.drop_last(), chip_count, count);
    }
}

fn append_get_pins(
    batch: &mut CombinedOffsets<CollectRule>,
    target_slot: usize,
    pins: &ResolvedPins,
) -> (result: Result<(), SessionError>)
    ensures
        match (result, get_pins_added(old(batch)@, target_slot, pins@, pins@.len())) {
            (Ok(_), Ok(expected)) => final(batch)@ == expected,
            (Err(error), Err(expected)) => error@ == expected,
            _ => false,
        },
        final(batch)@ == get_pins_kept(old(batch)@, target_slot, pins@, pins@.len()),
        old(batch).wf() ==> final(batch).wf(),
{
    let len: usize = pins.len();
    let ghost before = batch@;
    let mut index: usize = 0;
    while index < len
        invariant
            index <= len,
            len == pins@.len(),
            before == old(batch)@,
            get_pins_added(before, target_slot, pins@, index as nat) == Ok::<
                Seq<ChipBatch<CollectRule>>,
                SessionErrorModel,
            >(batch@),
            old(batch).wf() ==> batch.wf(),
        decreases len - index,
    {
        let pin = pins.pin_at(index);
        let rule = CollectRule { target_slot, bit_index: len - 1 - index };
        proof {
            if get_pins_added(before, target_slot, pins@, (index + 1) as nat) is Err {
                lemma_get_pins_fault(
                    before,
                    target_slot,
                    pins@,
                    (index + 1) as nat,
                    pins@.len(),
                );
            }
        }
        assert(get_pins_kept(before, target_slot, pins@, index as nat) == batch@);
        match batch.add(pin.chip_index, pin.offset, rule) {
            Ok(_) => {},
            Err(error) => return Err(batch_error_to_session_error(error)),
        }
        index += 1;
    }
    Ok(())
}

/// Adds a target to a batch of reads.
pub fn add_get_target(
    batch: &mut CombinedOffsets<CollectRule>,
    compiled: &CompiledTargets,
    target_slot: usize,
    target_name: &str,
) -> (result: Result<(), SessionError>)
    ensures
        match (
            result,
            get_target_added(old(batch)@, compiled.targets(), target_slot, target_name@),
        ) {
            (Ok(_), Ok(expected)) => final(batch)@ == expected,
            (Err(error), Err(expected)) => error@ == expected,
            _ => false,
        },
        final(batch)@ == get_target_kept(
            old(batch)@,
            compiled.targets(),
            target_slot,
            target_name@,
        ),
        old(batch).wf() ==> final(batch).wf(),
{
    let target = match compiled.target(target_name) {
        Some(target) => target,
        None => return Err(SessionError::UnknownTarget { target: target_name.to_owned() }),
    };
    if !target.is_readable() {
        return Err(SessionError::TargetNotReadable { target: target_name.to_owned() });
    }
    append_get_pins(batch, target_slot, &target.pins)
}

/// Compiles the reads of targets.
pub fn compile_get_batch(compiled: &CompiledTargets, targets: &Vec<&str>, chip_count: usize) -> (
    result: Result<CombinedOffsets<CollectRule>, SessionError>)
    ensures
        match (
            result,
            get_batch(compiled.targets(), name_models(targets@), chip_count as nat),
        ) {
            (Ok(batch), Ok(expected)) => batch@ == expected && batch.wf(),
            (Err(error), Err(expected)) => error@ == expected,
            _ => false,
        },
{
    let mut batch: CombinedOffsets<CollectRule> = CombinedOffsets::new(chip_count);
    let ghost names = name_models(targets@);
    let mut slot: usize = 0;
    assert(names.take(0) =~= Seq::<Seq<char>>::empty());
    assert(batch@ =~= empty_batch(chip_count as nat));
    while slot < targets.len()
        invariant
            slot <= targets@.len(),
            names == name_models(targets@),
            batch.wf(),
            get_batch(compiled.targets(), names.take(slot as int), chip_count as nat) == Ok::<
                Seq<ChipBatch<CollectRule>>,
                SessionErrorModel,
            >(batch@),
        decreases targets@.len() - slot,
    {
        let ghost prefix = names.take(slot + 1);
        proof {
            assert(prefix.drop_last() =~= names.take(slot as int));
            if get_batch(compiled.targets(), prefix, chip_count as nat) is Err {
                lemma_get_batch_fault(
                    compiled.targets(),
                    names,
                    chip_count as nat,
                    slot + 1,
                );
            }
        }
        match add_get_target(&mut batch, compiled, slot, targets[slot]) {
            Ok(_) => {},
            Err(error) => return Err(error),
        }
        slot += 1;
    }
    assert(names.take(slot as int) =~= names);
    Ok(batch)
}

/// The texts of a list of names.
pub open spec fn name_models(names: Seq<&str>) -> Seq<Seq<char>> {
    Seq::new(names.len(), |i: int| names[i]@)
}

// ---------------------------------------------------------------------------
// Writing
// ---------------------------------------------------------------------------

/// The bit of a value.
pub open spec fn bit_of(value: u8, index: nat) -> bool {
    (value >> (index as u8)) & 1 == 1
}

/// The line value of a bit.
pub open spec fn bit_value(bit: bool) -> LineValue {
    if bit {
        LineValue::Active
    } else {
        LineValue::Inactive
    }
}

/// Adds the first pins of a target to a batch of writes. The first pin takes the highest bit
/// of the value.
pub open spec fn set_pins_added(
    chips: Seq<ChipBatch<LineValue>>,
    pins: Seq<ResolvedPin>,
    value: u8,
    count: nat,
) -> Result<Seq<ChipBatch<LineValue>>, SessionErrorModel>
    decreases count,
{
    if count == 0 {
        Ok(chips)
    } else {
        match set_pins_added(chips, pins, value, (count - 1) as nat) {
            Err(error) => Err(error),
            Ok(earlier) => {
                let pin = pins[count - 1];
                let bit = bit_of(value, (pins.len() - count) as nat);
                match write_added(earlier, pin.chip_index, pin.offset, bit_value(bit)) {
                    Ok(next) => Ok(next),
                    Err(error) => Err(batch_fault(error)),
                }
            },
        }
    }
}

/// The batch of writes with the pins before the first that cannot be added.
pub open spec fn set_pins_kept(
    chips: Seq<ChipBatch<LineValue>>,
    pins: Seq<ResolvedPin>,
    value: u8,
    count: nat,
) -> Seq<ChipBatch<LineValue>>
    decreases count,
{
    if count == 0 {
        chips
    } else {
        match set_pins_added(chips, pins, value, count) {
            Ok(added) => added,
            Err(_) => set_pins_kept(chips, pins, value, (count - 1) as nat),
        }
    }
}

/// Two to the power of a number.
pub open spec fn power_of_two(exponent: nat) -> nat
    decreases exponent,
{
    if exponent == 0 {
        1
    } else {
        2 * power_of_two((exponent - 1) as nat)
    }
}

/// Whether a value has more bits than a target has pins.
pub open spec fn too_wide(width: nat, value: u8) -> bool {
    width < 8 && value >= power_of_two(width)
}

/// Adds the value of a target to a batch of writes.
pub open spec fn set_target_added(
    chips: Seq<ChipBatch<LineValue>>,
    targets: Map<Seq<char>, TargetModel>,
    name: Seq<char>,
    value: u8,
) -> Result<Seq<ChipBatch<LineValue>>, SessionErrorModel> {
    if !targets.contains_key(name) {
        Err(SessionErrorModel::UnknownTarget { target: name })
    } else if !targets[name].writable() {
        Err(SessionErrorModel::TargetNotWritable { target: name })
    } else {
        let pins = targets[name].pins;
        if too_wide(pins.len(), value) {
            Err(
                SessionErrorModel::TargetValueOutOfRange {
                    target: name,
                    value,
                    bits: pins.len() as usize,
                },
            )
        } else {
            set_pins_added(chips, pins, value, pins.len())
        }
    }
}

/// The batch of writes once a target was added as far as it can be.
pub open spec fn set_target_kept(
    chips: Seq<ChipBatch<LineValue>>,
    targets: Map<Seq<char>, TargetModel>,
    name: Seq<char>,
    value: u8,
) -> Seq<ChipBatch<LineValue>> {
    if targets.contains_key(name) && targets[name].writable() && !too_wide(
        targets[name].pins.len(),
        value,
    ) {
        set_pins_kept(chips, targets[name].pins, value, targets[name].pins.len())
    } else {
        chips
    }
}

/// The batch of writes of targets in order, or why the first of them that cannot be written
/// cannot.
pub open spec fn set_batch(
    targets: Map<Seq<char>, TargetModel>,
    names: Seq<Seq<char>>,
    values: Seq<u8>,
    chip_count: nat,
) -> Result<Seq<ChipBatch<LineValue>>, SessionErrorModel>
    decreases names.len(),
{
    if names.len() == 0 {
        Ok(empty_batch(chip_count))
    } else {
        match set_batch(targets, names.drop_last(), values, chip_count) {
            Err(error) => Err(error),
            Ok(earlier) => set_target_added(
                earlier,
                targets,
                names.last(),
                values[names.len() - 1],
            ),
        }
    }
}

proof fn lemma_set_pins_fault(
    chips: Seq<ChipBatch<LineValue>>,
    pins: Seq<ResolvedPin>,
    value: u8,
    count: nat,
    total: nat,
)
    requires
        count <= total,
        set_pins_added(chips, pins, value, count) is Err,
    ensures
        set_pins_added(chips, pins, value, total) == set_pins_added(chips, pins, value, count),
        set_pins_kept(chips, pins, value, total) == set_pins_kept(chips, pins, value, count),
    decreases total,
{
    if count < total {
        lemma_set_pins_fault(chips, pins, value, count, (total - 1) as nat);
    }
}

proof fn lemma_set_batch_fault(
    targets: Map<Seq<char>, TargetModel>,
    names: Seq<Seq<char>>,
    values: Seq<u8>,
    chip_count: nat,
    count: int,
)
    requires
        0 <= count <= names.len(),
        set_batch(targets, names.take(count), values, chip_count) is Err,
    ensures
        set_batch(targets, names, values, chip_count) == set_batch(
            targets,
            names.take(count),
            values,
            chip_count,
        ),
    decreases names.len(),
{
    if count == names.len() {
        assert(names.take(count) =~= names);
    } else {
        assert(names.drop_last().take(count) =~= names.take(count));
        lemma_set_batch_fault(targets, names.drop_last(), values, chip_count, count);
    }
}

/// The logical value of a bit.
pub fn bit_to_line_value(bit: u8) -> (value: LineValue)
    ensures
        value == bit_value(bit != 0),
{
    if bit != 0 {
        LineValue::Active
    } else {
        LineValue::Inactive
    }
}

/// The bit of a logical value.
pub fn line_value_to_bit(value: LineValue) -> (bit: u8)
    ensures
        bit == if value == LineValue::Active {
            1u8
        } else {
            0u8
        },
{
    match value {
        LineValue::Active => 1,
        LineValue::Inactive => 0,
    }
}

fn append_set_pins(batch: &mut CombinedOffsets<LineValue>, pins: &ResolvedPins, value: u8) -> (
    result: Result<(), SessionError>)
    requires
        old(batch).wf(),
        pins@.len() <= 8,
    ensures
        match (result, set_pins_added(old(batch)@, pins@, value, pins@.len())) {
            (Ok(_), Ok(expected)) => final(batch)@ == expected,
            (Err(error), Err(expected)) => error@ == expected,
            _ => false,
        },
        final(batch)@ == set_pins_kept(old(batch)@, pins@, value, pins@.len()),
        final(batch).wf(),
{
    let len: usize = pins.len();
    let ghost before = batch@;
    let mut index: usize = 0;
    while index < len
        invariant
            index <= len,
            len == pins@.len(),
            len <= 8,
            before == old(batch)@,
            set_pins_added(before, pins@, value, index as nat) == Ok::<
                Seq<ChipBatch<LineValue>>,
                SessionErrorModel,
            >(batch@),
            batch.wf(),
        decreases len - index,
    {
        let pin = pins.pin_at(index);
        let shift: u8 = (len - 1 - index) as u8;
        let bit: u8 = (value >> shift) & 1;
        proof {
            if set_pins_added(before, pins@, value, (index + 1) as nat) is Err {
                lemma_set_pins_fault(before, pins@, value, (index + 1) as nat, pins@.len());
            }
            assert((value >> shift) & 1 == 0 || (value >> shift) & 1 == 1) by (bit_vector);
        }
        assert(set_pins_kept(before, pins@, value, index as nat) == batch@);
        match batch.add_set(pin.chip_index, pin.offset, bit_to_line_value(bit)) {
            Ok(_) => {},
            Err(error) => return Err(batch_error_to_session_error(error)),
        }
        index += 1;
    }
    Ok(())
}

/// Whether a value has more bits than a target has pins.
pub fn exceeds_width(width: usize, value: u8) -> (result: bool)
    ensures
        result == too_wide(width as nat, value),
{
    proof {
        reveal_with_fuel(power_of_two, 9);
    }
    if width >= 8 {
        return false;
    }
    let limit: u16 = match width {
        0 => 1,
        1 => 2,
        2 => 4,
        3 => 8,
        4 => 16,
        5 => 32,
        6 => 64,
        _ => 128,
    };
    value as u16 >= limit
}

/// Whether every target has at most eight pins, so that its value fits a byte.
pub open spec fn narrow(targets: Map<Seq<char>, TargetModel>) -> bool {
    forall|name: Seq<char>| #[trigger]
        targets.contains_key(name) ==> targets[name].pins.len() <= 8
}

/// Adds the value of a target to a batch of writes.
pub fn add_set_target(
    batch: &mut CombinedOffsets<LineValue>,
    compiled: &CompiledTargets,
    target_name: &str,
    value: u8,
) -> (result: Result<(), SessionError>)
    requires
        old(batch).wf(),
        narrow(compiled.targets()),
    ensures
        match (
            result,
            set_target_added(old(batch)@, compiled.targets(), target_name@, value),
        ) {
            (Ok(_), Ok(expected)) => final(batch)@ == expected,
            (Err(error), Err(expected)) => error@ == expected,
            _ => false,
        },
        final(batch)@ == set_target_kept(old(batch)@, compiled.targets(), target_name@, value),
        final(batch).wf(),
{
    let target = match compiled.target(target_name) {
        Some(target) => target,
        None => return Err(SessionError::UnknownTarget { target: target_name.to_owned() }),
    };
    if !target.is_writable() {
        return Err(SessionError::TargetNotWritable { target: target_name.to_owned() });
    }
    let width: usize = target.width();
    if exceeds_width(width, value) {
        return Err(
            SessionError::TargetValueOutOfRange {
                target: target_name.to_owned(),
                value,
                bits: width,
            },
        );
    }
    append_set_pins(batch, &target.pins, value)
}

/// Compiles the writes of targets, in the order of their names.
pub fn compile_set_batch(compiled: &CompiledTargets, writes: &NameMap<u8>, chip_count: usize) -> (
    result: Result<CombinedOffsets<LineValue>, SessionError>)
    requires
        narrow(compiled.targets()),
    ensures
        match (
            result,
            set_batch(compiled.targets(), writes.names(), writes.values(), chip_count as nat),
        ) {
            (Ok(batch), Ok(expected)) => batch@ == expected && batch.wf(),
            (Err(error), Err(expected)) => error@ == expected,
            _ => false,
        },
{
    let mut batch: CombinedOffsets<LineValue> = CombinedOffsets::new(chip_count);
    let ghost names = writes.names();
    let ghost values = writes.values();
    let count: usize = writes.len();
    let mut index: usize = 0;
    assert(names.take(0) =~= Seq::<Seq<char>>::empty());
    assert(batch@ =~= empty_batch(chip_count as nat));
    while index < count
        invariant
            index <= count,
            count == names.len(),
            names == writes.names(),
            values == writes.values(),
            narrow(compiled.targets()),
            batch.wf(),
            set_batch(
                compiled.targets(),
                names.take(index as int),
                values,
                chip_count as nat,
            ) == Ok::<Seq<ChipBatch<LineValue>>, SessionErrorModel>(batch@),
        decreases count - index,
    {
        let ghost prefix = names.take(index + 1);
        proof {
            assert(prefix.drop_last() =~= names.take(index as int));
            if set_batch(compiled.targets(), prefix, values, chip_count as nat) is Err {
                lemma_set_batch_fault(
                    compiled.targets(),
                    names,
                    values,
                    chip_count as nat,
                    index + 1,
                );
            }
        }
        match add_set_target(
            &mut batch,
            compiled,
            writes.name_at(index).as_str(),
            *writes.value_at(index),
        ) {
            Ok(_) => {},
            Err(error) => return Err(error),
        }
        index += 1;
    }
    assert(names.take(index as int) =~= names);
    Ok(batch)
}

// ---------------------------------------------------------------------------
// Packing
// ---------------------------------------------------------------------------

/// Whether a reading belongs to a slot; without a slot every reading does.
pub open spec fn in_slot(rule: CollectRule, slot: Option<usize>) -> bool {
    match slot {
        Some(index) => rule.target_slot == index,
        None => true,
    }
}

/// The byte with one more bit.
pub open spec fn with_bit(byte: u8, index: usize, value: LineValue) -> u8 {
    byte | ((if value == LineValue::Active {
        1u8
    } else {
        0u8
    }) << (index as u8))
}

/// The byte that the readings of a slot make up: each goes to the bit of its rule.
pub open spec fn packed(readings: Seq<(CollectRule, LineValue)>, slot: Option<usize>) -> u8
    decreases readings.len(),
{
    if readings.len() == 0 {
        0u8
    } else {
        let earlier = packed(readings.drop_last(), slot);
        let (rule, value) = readings.last();
        if in_slot(rule, slot) {
            with_bit(earlier, rule.bit_index, value)
        } else {
            earlier
        }
    }
}

/// Puts a bit into a byte.
pub fn accumulate_bit(value: u8, bit_index: usize, bit: LineValue) -> (result: u8)
    requires
        bit_index < 8,
    ensures
        result == with_bit(value, bit_index, bit),
{
    let shift: u8 = bit_index as u8;
    value | (line_value_to_bit(bit) << shift)
}

/// Packs the readings of one target, or of several in order.
pub fn fold_get_results(
    targets: &TargetSelector,
    rules_and_values: &[(CollectRule, LineValue)],
) -> (payload: PinValuePayload)
    requires
        forall|i: int|
            0 <= i < rules_and_values@.len() ==> (#[trigger] rules_and_values@[i]).0.bit_index < 8,
        targets is Multiple ==> forall|i: int|
            0 <= i < rules_and_values@.len() ==> (#[trigger] rules_and_values@[i]).0.target_slot
                < targets@.len(),
    ensures
        match *targets {
            TargetSelector::Single(_) => payload == PinValuePayload::Value(
                packed(rules_and_values@, None),
            ),
            TargetSelector::Multiple(_) => payload matches PinValuePayload::Values(values)
                && values@ == Seq::new(
                targets@.len(),
                |slot: int| packed(rules_and_values@, Some(slot as usize)),
            ),
        },
{
    let ghost readings = rules_and_values@;
    match targets {
        TargetSelector::Single(_) => {
            let mut value: u8 = 0;
            let mut index: usize = 0;
            assert(readings.take(0) =~= Seq::<(CollectRule, LineValue)>::empty());
            while index < rules_and_values.len()
                invariant
                    index <= readings.len(),
                    readings == rules_and_values@,
                    value == packed(readings.take(index as int), None),
                    forall|i: int|
                        0 <= i < readings.len() ==> (#[trigger] readings[i]).0.bit_index < 8,
                decreases readings.len() - index,
            {
                let (rule, line_value) = rules_and_values[index];
                assert(readings[index as int].0.bit_index < 8);
                assert(readings.take(index + 1).drop_last() =~= readings.take(index as int));
                value = accumulate_bit(value, rule.bit_index, line_value);
                index += 1;
            }
            assert(readings.take(index as int) =~= readings);
            PinValuePayload::Value(value)
        },
        TargetSelector::Multiple(names) => {
            let count: usize = names.len();
            let mut values: Vec<u8> = Vec::new();
            while values.len() < count
                invariant
                    values@.len() <= count,
                    forall|i: int| 0 <= i < values@.len() ==> values@[i] == 0,
                decreases count - values@.len(),
            {
                values.push(0);
            }
            let mut index: usize = 0;
            assert(readings.take(0) =~= Seq::<(CollectRule, LineValue)>::empty());
            while index < rules_and_values.len()
                invariant
                    index <= readings.len(),
                    readings == rules_and_values@,
                    values@.len() == count,
                    forall|slot: int|
                        0 <= slot < count ==> #[trigger] values@[slot] == packed(
                            readings.take(index as int),
                            Some(slot as usize),
                        ),
                    forall|i: int|
                        0 <= i < readings.len() ==> (#[trigger] readings[i]).0.bit_index < 8
                            && readings[i].0.target_slot < count,
                decreases readings.len() - index,
            {
                let (rule, line_value) = rules_and_values[index];
                assert(readings[index as int].0.bit_index < 8);
                assert(readings.take(index + 1).drop_last() =~= readings.take(index as int));
                let slot: usize = rule.target_slot;
                let packed_value: u8 = accumulate_bit(values[slot], rule.bit_index, line_value);
                values.set(slot, packed_value);
                index += 1;
            }
            assert(readings.take(index as int) =~= readings);
            assert(values@ =~= Seq::new(
                targets@.len(),
                |slot: int| packed(readings, Some(slot as usize)),
            ));
            PinValuePayload::Values(values)
        },
    }
}

/// Pairs what was read from the lines of a chip with where it goes.
pub fn pair_readings(
    readings: &mut Vec<(CollectRule, LineValue)>,
    rules: &[CollectRule],
    values: &Vec<LineValue>,
)
    requires
        rules@.len() == values@.len(),
    ensures
        final(readings)@ == old(readings)@ + Seq::new(
            rules@.len(),
            |i: int| (rules@[i], values@[i]),
        ),
{
    let ghost before = readings@;
    let ghost pairs = Seq::new(rules@.len(), |i: int| (rules@[i], values@[i]));
    let mut index: usize = 0;
    assert(readings@ =~= before + pairs.take(0));
    while index < rules.len()
        invariant
            index <= rules@.len(),
            rules@.len() == values@.len(),
            before == old(readings)@,
            pairs == Seq::new(rules@.len(), |i: int| (rules@[i], values@[i])),
            readings@ == before + pairs.take(index as int),
        decreases rules@.len() - index,
    {
        readings.push((rules[index], values[index]));
        index += 1;
        assert(readings@ =~= before + pairs.take(index as int));
    }
    assert(pairs.take(index as int) =~= pairs);
}

// ---------------------------------------------------------------------------
// What packing means
// ---------------------------------------------------------------------------

/// Whether a reading of a slot says that a bit is active.
pub open spec fn reads_active(
    readings: Seq<(CollectRule, LineValue)>,
    slot: Option<usize>,
    bit: nat,
) -> bool {
    exists|i: int|
        0 <= i < readings.len() && in_slot((#[trigger] readings[i]).0, slot)
            && readings[i].0.bit_index == bit && readings[i].1 == LineValue::Active
}

/// A bit once another has been put into the byte.
pub proof fn lemma_or_bit(byte: u8, index: u8, bit: u8)
    requires
        index < 8,
        bit < 8,
    ensures
        (((byte | (1u8 << index)) >> bit) & 1 == 1) == (((byte >> bit) & 1 == 1) || index == bit),
        (byte | (0u8 << index)) == byte,
{
    assert((((byte | (1u8 << index)) >> bit) & 1 == 1) == (((byte >> bit) & 1 == 1) || index
        == bit)) by (bit_vector)
        requires
            index < 8,
            bit < 8,
    ;
    assert((byte | (0u8 << index)) == byte) by (bit_vector)
        requires
            index < 8,
    ;
}

/// A bit of the packed byte is set exactly where some reading for it is active.
pub proof fn packed_bit_is_active_reading(
    readings: Seq<(CollectRule, LineValue)>,
    slot: Option<usize>,
    bit: nat,
)
    requires
        bit < 8,
        forall|i: int| 0 <= i < readings.len() ==> (#[trigger] readings[i]).0.bit_index < 8,
    ensures
        bit_of(packed(readings, slot), bit) == reads_active(readings, slot, bit),
    decreases readings.len(),
{
    if readings.len() == 0 {
        let shift = bit as u8;
        assert((0u8 >> shift) & 1 == 0) by (bit_vector);
    } else {
        let front = readings.drop_last();
        assert forall|i: int| 0 <= i < front.len() implies (#[trigger] front[i]).0.bit_index < 8 by {
            assert(front[i] == readings[i]);
        }
        packed_bit_is_active_reading(front, slot, bit);
        let (rule, value) = readings.last();
        let earlier = packed(front, slot);
        assert(readings[readings.len() - 1] == readings.last());
        lemma_or_bit(earlier, rule.bit_index as u8, bit as u8);
        if reads_active(front, slot, bit) {
            let i = choose|i: int|
                0 <= i < front.len() && in_slot((#[trigger] front[i]).0, slot)
                    && front[i].0.bit_index == bit && front[i].1 == LineValue::Active;
            assert(readings[i] == front[i]);
        }
        if reads_active(readings, slot, bit) && !reads_active(front, slot, bit) {
            let i = choose|i: int|
                0 <= i < readings.len() && in_slot((#[trigger] readings[i]).0, slot)
                    && readings[i].0.bit_index == bit && readings[i].1 == LineValue::Active;
            if i < front.len() {
                assert(front[i] == readings[i]);
            }
        }
    }
}

/// Bytes with the same bits are equal.
pub proof fn lemma_bytes_equal(a: u8, b: u8)
    requires
        forall|bit: nat| bit < 8 ==> (#[trigger] bit_of(a, bit)) == bit_of(b, bit),
    ensures
        a == b,
{
    assert(bit_of(a, 0) == bit_of(b, 0));
    assert(bit_of(a, 1) == bit_of(b, 1));
    assert(bit_of(a, 2) == bit_of(b, 2));
    assert(bit_of(a, 3) == bit_of(b, 3));
    assert(bit_of(a, 4) == bit_of(b, 4));
    assert(bit_of(a, 5) == bit_of(b, 5));
    assert(bit_of(a, 6) == bit_of(b, 6));
    assert(bit_of(a, 7) == bit_of(b, 7));
    assert(a == b) by (bit_vector)
        requires
            ((a >> 0u8) & 1 == 1) == ((b >> 0u8) & 1 == 1),
            ((a >> 1u8) & 1 == 1) == ((b >> 1u8) & 1 == 1),
            ((a >> 2u8) & 1 == 1) == ((b >> 2u8) & 1 == 1),
            ((a >> 3u8) & 1 == 1) == ((b >> 3u8) & 1 == 1),
            ((a >> 4u8) & 1 == 1) == ((b >> 4u8) & 1 == 1),
            ((a >> 5u8) & 1 == 1) == ((b >> 5u8) & 1 == 1),
            ((a >> 6u8) & 1 == 1) == ((b >> 6u8) & 1 == 1),
            ((a >> 7u8) & 1 == 1) == ((b >> 7u8) & 1 == 1),
    ;
}

proof fn lemma_narrow_value(width: nat, value: u8, bit: nat)
    requires
        !too_wide(width, value),
        width <= bit < 8,
    ensures
        !bit_of(value, bit),
{
    reveal_with_fuel(power_of_two, 9);
    assert(value < 1 ==> (value >> 0u8) & 1 == 0) by (bit_vector);
    assert(value < 2 ==> (value >> 1u8) & 1 == 0) by (bit_vector);
    assert(value < 4 ==> (value >> 2u8) & 1 == 0) by (bit_vector);
    assert(value < 8 ==> (value >> 3u8) & 1 == 0) by (bit_vector);
    assert(value < 16 ==> (value >> 4u8) & 1 == 0) by (bit_vector);
    assert(value < 32 ==> (value >> 5u8) & 1 == 0) by (bit_vector);
    assert(value < 64 ==> (value >> 6u8) & 1 == 0) by (bit_vector);
    assert(value < 128 ==> (value >> 7u8) & 1 == 0) by (bit_vector);
}

/// Reading back the lines of a target, each at the bit that it was written from, gives the
/// value that was written: the first pin is the highest bit both ways.
pub proof fn written_value_reads_back(
    value: u8,
    readings: Seq<(CollectRule, LineValue)>,
    slot: Option<usize>,
)
    requires
        readings.len() <= 8,
        !too_wide(readings.len(), value),
        forall|i: int|
            0 <= i < readings.len() ==> {
                &&& in_slot((#[trigger] readings[i]).0, slot)
                &&& readings[i].0.bit_index == readings.len() - 1 - i
                &&& readings[i].1 == bit_value(bit_of(value, (readings.len() - 1 - i) as nat))
            },
    ensures
        packed(readings, slot) == value,
{
    assert forall|bit: nat| bit < 8 implies (#[trigger] bit_of(packed(readings, slot), bit))
        == bit_of(value, bit) by {
        packed_bit_is_active_reading(readings, slot, bit);
        if bit < readings.len() {
            let i = readings.len() - 1 - bit;
            assert(readings[i].0.bit_index == bit);
            if reads_active(readings, slot, bit) {
                let k = choose|k: int|
                    0 <= k < readings.len() && in_slot((#[trigger] readings[k]).0, slot)
                        && readings[k].0.bit_index == bit && readings[k].1 == LineValue::Active;
                assert(k == i);
            }
        } else {
            lemma_narrow_value(readings.len(), value, bit);
            if reads_active(readings, slot, bit) {
                let k = choose|k: int|
                    0 <= k < readings.len() && in_slot((#[trigger] readings[k]).0, slot)
                        && readings[k].0.bit_index == bit && readings[k].1 == LineValue::Active;
                assert(readings[k].0.bit_index == readings.len() - 1 - k);
            }
        }
    }
    lemma_bytes_equal(packed(readings, slot), value);
}

// ---------------------------------------------------------------------------
// What batches hold
// ---------------------------------------------------------------------------

/// Whether every line of a batch of reads has a place, and every place is a bit of a byte and
/// one of so many targets.
pub open spec fn rules_fit(chips: Seq<ChipBatch<CollectRule>>, slots: nat) -> bool {
    forall|c: int|
        #![trigger chips[c]]
        0 <= c < chips.len() ==> {
            &&& chips[c].offsets.len() == chips[c].attachments.len()
            &&& forall|k: int|
                0 <= k < chips[c].attachments.len() ==> (
                #[trigger] chips[c].attachments[k]).bit_index < 8
                    && chips[c].attachments[k].target_slot < slots
        }
}

proof fn lemma_get_pins_fit(
    chips: Seq<ChipBatch<CollectRule>>,
    target_slot: usize,
    pins: Seq<ResolvedPin>,
    count: nat,
    slots: nat,
)
    requires
        rules_fit(chips, slots),
        target_slot < slots,
        count <= pins.len() <= 8,
        get_pins_added(chips, target_slot, pins, count) is Ok,
    ensures
        rules_fit(get_pins_added(chips, target_slot, pins, count)->Ok_0, slots),
        get_pins_added(chips, target_slot, pins, count)->Ok_0.len() == chips.len(),
    decreases count,
{
    if count > 0 {
        lemma_get_pins_fit(chips, target_slot, pins, (count - 1) as nat, slots);
        let earlier = get_pins_added(chips, target_slot, pins, (count - 1) as nat)->Ok_0;
        let after = get_pins_added(chips, target_slot, pins, count)->Ok_0;
        assert forall|c: int| #![trigger after[c]] 0 <= c < after.len() implies {
            &&& after[c].offsets.len() == after[c].attachments.len()
            &&& forall|k: int|
                0 <= k < after[c].attachments.len() ==> (
                #[trigger] after[c].attachments[k]).bit_index < 8
                    && after[c].attachments[k].target_slot < slots
        } by {
            assert(earlier[c].offsets.len() == earlier[c].attachments.len());
            assert forall|k: int| 0 <= k < after[c].attachments.len() implies (
            #[trigger] after[c].attachments[k]).bit_index < 8
                && after[c].attachments[k].target_slot < slots by {
                if k < earlier[c].attachments.len() {
                    assert(after[c].attachments[k] == earlier[c].attachments[k]);
                }
            }
        }
    }
}

/// A batch of reads has a place for every line: a bit below eight and one of the targets that
/// were asked for.
pub proof fn get_batch_has_places(
    targets: Map<Seq<char>, TargetModel>,
    names: Seq<Seq<char>>,
    chip_count: nat,
)
    requires
        narrow(targets),
        names.len() <= usize::MAX,
        get_batch(targets, names, chip_count) is Ok,
    ensures
        rules_fit(get_batch(targets, names, chip_count)->Ok_0, names.len()),
        get_batch(targets, names, chip_count)->Ok_0.len() == chip_count,
    decreases names.len(),
{
    if names.len() > 0 {
        get_batch_has_places(targets, names.drop_last(), chip_count);
        let earlier = get_batch(targets, names.drop_last(), chip_count)->Ok_0;
        assert(rules_fit(earlier, names.len())) by {
            assert forall|c: int| #![trigger earlier[c]] 0 <= c < earlier.len() implies {
                &&& earlier[c].offsets.len() == earlier[c].attachments.len()
                &&& forall|k: int|
                    0 <= k < earlier[c].attachments.len() ==> (
                    #[trigger] earlier[c].attachments[k]).bit_index < 8
                        && earlier[c].attachments[k].target_slot < names.len()
            } by {}
        }
        let pins = targets[names.last()].pins;
        lemma_get_pins_fit(
            earlier,
            (names.len() - 1) as usize,
            pins,
            pins.len(),
            names.len(),
        );
    }
}

proof fn lemma_set_pins_write(
    chips: Seq<ChipBatch<LineValue>>,
    pins: Seq<ResolvedPin>,
    value: u8,
    count: nat,
)
    requires
        writes_once(chips),
        count <= pins.len(),
        set_pins_added(chips, pins, value, count) is Ok,
    ensures
        ({
            let after = set_pins_added(chips, pins, value, count)->Ok_0;
            &&& writes_once(after)
            &&& after.len() == chips.len()
            &&& forall|i: int|
                0 <= i < count ==> writes(
                    after,
                    (#[trigger] pins[i]).chip_index as int,
                    pins[i].offset,
                    bit_value(bit_of(value, (pins.len() - 1 - i) as nat)),
                )
            &&& forall|c: int, o: u32, v: LineValue| writes(chips, c, o, v) ==> #[trigger] writes(
                after,
                c,
                o,
                v,
            )
        }),
    decreases count,
{
    if count > 0 {
        lemma_set_pins_write(chips, pins, value, (count - 1) as nat);
        let earlier = set_pins_added(chips, pins, value, (count - 1) as nat)->Ok_0;
        let pin = pins[count - 1];
        let bit = bit_value(bit_of(value, (pins.len() - count) as nat));
        write_added_keeps_writes(earlier, pin.chip_index, pin.offset, bit);
    }
}

/// A batch of writes names every line once, and holds the bit of every pin of every target
/// that was asked for: nothing is left out and nothing is written twice.
pub proof fn set_batch_writes_every_pin(
    targets: Map<Seq<char>, TargetModel>,
    names: Seq<Seq<char>>,
    values: Seq<u8>,
    chip_count: nat,
)
    requires
        set_batch(targets, names, values, chip_count) is Ok,
    ensures
        ({
            let batch = set_batch(targets, names, values, chip_count)->Ok_0;
            &&& writes_once(batch)
            &&& batch.len() == chip_count
            &&& forall|t: int, i: int|
                #![trigger targets[names[t]].pins[i]]
                0 <= t < names.len() && 0 <= i < targets[names[t]].pins.len() ==> {
                    let pins = targets[names[t]].pins;
                    writes(
                        batch,
                        pins[i].chip_index as int,
                        pins[i].offset,
                        bit_value(bit_of(values[t], (pins.len() - 1 - i) as nat)),
                    )
                }
        }),
    decreases names.len(),
{
    if names.len() > 0 {
        let front = names.drop_last();
        set_batch_writes_every_pin(targets, front, values, chip_count);
        let earlier = set_batch(targets, front, values, chip_count)->Ok_0;
        let batch = set_batch(targets, names, values, chip_count)->Ok_0;
        let last = targets[names.last()].pins;
        let value = values[names.len() - 1];
        lemma_set_pins_write(earlier, last, value, last.len());
        assert forall|t: int, i: int|
            #![trigger targets[names[t]].pins[i]]
            0 <= t < names.len() && 0 <= i < targets[names[t]].pins.len() implies {
            let pins = targets[names[t]].pins;
            writes(
                batch,
                pins[i].chip_index as int,
                pins[i].offset,
                bit_value(bit_of(values[t], (pins.len() - 1 - i) as nat)),
            )
        } by {
            let pins = targets[names[t]].pins;
            if t < front.len() {
                assert(front[t] == names[t]);
                assert(targets[front[t]].pins[i] == pins[i]);
                assert(writes(
                    earlier,
                    pins[i].chip_index as int,
                    pins[i].offset,
                    bit_value(bit_of(values[t], (pins.len() - 1 - i) as nat)),
                ));
            } else {
                assert(last[i] == pins[i]);
            }
        }
    }
}

} // verus!

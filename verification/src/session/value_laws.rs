//! What the values of a `get` and of a `set` say of the lines of their targets.

use vstd::prelude::*;

use crate::gpio::libgpiod::GPIOErrorModel;
use crate::gpio::libgpiod::LineValue;
use crate::gpio::mock::request::levels_for;
use crate::gpio::mock::request::value_at;
use crate::gpio::mock::request::values_at;
use crate::gpio::mock::request::write_outcome;
use crate::gpio::mock::state::ChipStateModel;
use crate::gpio::mock::state_laws::driven_values_read_back;
use crate::session::apply::batch_read;
use crate::session::apply::paired_readings;
use crate::session::batch::lemma_used_chips;
use crate::session::batch::used_chips;
use crate::session::batch::with_line;
use crate::session::batch::ChipBatch;
use crate::session::batch::CollectRule;
use crate::session::batch::writes;
use crate::session::compiled::TargetModel;
use crate::session::execute::bit_of;
use crate::session::execute::bit_value;
use crate::session::execute::empty_batch;
use crate::session::execute::get_batch;
use crate::session::execute::get_batch_has_places;
use crate::session::execute::get_pins_added;
use crate::session::execute::get_target_added;
use crate::session::execute::in_slot;
use crate::session::execute::narrow;
use crate::session::execute::packed;
use crate::session::execute::packed_bit_is_active_reading;
use crate::session::execute::reads_active;
use crate::session::execute::set_batch;
use crate::session::execute::set_batch_writes_every_pin;
use crate::session::pins::ResolvedPin;

verus! {

/// Whether the entry of a batch at a position of a chip reads a line for a bit of a target.
spec fn reads_at(
    batch: Seq<ChipBatch<CollectRule>>,
    chip: int,
    k: int,
    offset: u32,
    rule: CollectRule,
) -> bool {
    &&& 0 <= chip < batch.len()
    &&& 0 <= k < batch[chip].offsets.len()
    &&& batch[chip].offsets[k] == offset
    &&& batch[chip].attachments[k] == rule
}

/// Whether a batch reads a line of a chip for a bit of a target.
spec fn reads(
    batch: Seq<ChipBatch<CollectRule>>,
    chip: int,
    offset: u32,
    rule: CollectRule,
) -> bool {
    exists|k: int| reads_at(batch, chip, k, offset, rule)
}

/// Where the reading of a pin goes: the first pin is the highest bit.
spec fn pin_rule(slot: int, pins: Seq<ResolvedPin>, pin: int) -> CollectRule {
    CollectRule { target_slot: slot as usize, bit_index: (pins.len() - 1 - pin) as usize }
}

/// Whether a batch has as many places as lines on every chip.
spec fn even(batch: Seq<ChipBatch<CollectRule>>) -> bool {
    forall|c: int|
        0 <= c < batch.len() ==> (#[trigger] batch[c]).offsets.len() == batch[c].attachments.len()
}

/// Whether an entry is that of one of the first pins of a target.
spec fn of_pin(
    slot: int,
    pins: Seq<ResolvedPin>,
    count: int,
    pin: int,
    chip: int,
    offset: u32,
    rule: CollectRule,
) -> bool {
    &&& 0 <= pin < count
    &&& pins[pin].chip_index == chip
    &&& pins[pin].offset == offset
    &&& rule == pin_rule(slot, pins, pin)
}

spec fn of_pins(
    slot: int,
    pins: Seq<ResolvedPin>,
    count: int,
    chip: int,
    offset: u32,
    rule: CollectRule,
) -> bool {
    exists|pin: int| of_pin(slot, pins, count, pin, chip, offset, rule)
}

/// Whether a batch reads the first pins of a target.
spec fn pins_read(
    batch: Seq<ChipBatch<CollectRule>>,
    slot: int,
    pins: Seq<ResolvedPin>,
    count: int,
) -> bool {
    forall|i: int|
        0 <= i < count ==> reads(
            batch,
            (#[trigger] pins[i]).chip_index as int,
            pins[i].offset,
            pin_rule(slot, pins, i),
        )
}

/// Whether a batch reads all that another reads.
spec fn reads_all_of(
    after: Seq<ChipBatch<CollectRule>>,
    before: Seq<ChipBatch<CollectRule>>,
) -> bool {
    forall|c: int, o: u32, r: CollectRule| reads(before, c, o, r) ==> #[trigger] reads(after, c, o, r)
}

/// Whether a batch reads no more than another and the first pins of a target.
spec fn reads_only(
    after: Seq<ChipBatch<CollectRule>>,
    before: Seq<ChipBatch<CollectRule>>,
    slot: int,
    pins: Seq<ResolvedPin>,
    count: int,
) -> bool {
    forall|c: int, o: u32, r: CollectRule| #[trigger]
        reads(after, c, o, r) ==> reads(before, c, o, r) || of_pins(slot, pins, count, c, o, r)
}

proof fn lemma_line_added(
    batch: Seq<ChipBatch<CollectRule>>,
    chip_index: u32,
    offset: u32,
    rule: CollectRule,
)
    requires
        even(batch),
        chip_index < batch.len(),
    ensures
        ({
            let after = with_line(batch, chip_index, offset, rule);
            &&& even(after)
            &&& after.len() == batch.len()
            &&& reads(after, chip_index as int, offset, rule)
            &&& reads_all_of(after, batch)
            &&& forall|c: int, o: u32, r: CollectRule| #[trigger]
                reads(after, c, o, r) ==> reads(batch, c, o, r) || (c == chip_index && o == offset
                    && r == rule)
        }),
{
    let after = with_line(batch, chip_index, offset, rule);
    let at = batch[chip_index as int].offsets.len() as int;
    assert(reads_at(after, chip_index as int, at, offset, rule));
    assert forall|c: int| 0 <= c < after.len() implies (#[trigger] after[c]).offsets.len()
        == after[c].attachments.len() by {
        assert(batch[c].offsets.len() == batch[c].attachments.len());
    }
    assert forall|c: int, o: u32, r: CollectRule| reads(batch, c, o, r) implies #[trigger] reads(
        after,
        c,
        o,
        r,
    ) by {
        let k = choose|k: int| reads_at(batch, c, k, o, r);
        assert(reads_at(after, c, k, o, r));
    }
    assert forall|c: int, o: u32, r: CollectRule| #[trigger] reads(after, c, o, r) implies reads(
        batch,
        c,
        o,
        r,
    ) || (c == chip_index && o == offset && r == rule) by {
        let k = choose|k: int| reads_at(after, c, k, o, r);
        if c != chip_index || k < at {
            assert(reads_at(batch, c, k, o, r));
        }
    }
}

proof fn lemma_pins_added(
    batch: Seq<ChipBatch<CollectRule>>,
    slot: int,
    pins: Seq<ResolvedPin>,
    count: nat,
)
    requires
        even(batch),
        count <= pins.len(),
        0 <= slot <= usize::MAX,
        get_pins_added(batch, slot as usize, pins, count) is Ok,
    ensures
        ({
            let after = get_pins_added(batch, slot as usize, pins, count)->Ok_0;
            &&& even(after)
            &&& after.len() == batch.len()
            &&& pins_read(after, slot, pins, count as int)
            &&& reads_all_of(after, batch)
            &&& reads_only(after, batch, slot, pins, count as int)
        }),
    decreases count,
{
    if count > 0 {
        let at = count - 1;
        lemma_pins_added(batch, slot, pins, at as nat);
        let earlier = get_pins_added(batch, slot as usize, pins, at as nat)->Ok_0;
        let after = get_pins_added(batch, slot as usize, pins, count)->Ok_0;
        let pin = pins[at];
        let rule = pin_rule(slot, pins, at);
        lemma_line_added(earlier, pin.chip_index, pin.offset, rule);
        assert(after == with_line(earlier, pin.chip_index, pin.offset, rule));
        assert forall|i: int| 0 <= i < count implies reads(
            after,
            (#[trigger] pins[i]).chip_index as int,
            pins[i].offset,
            pin_rule(slot, pins, i),
        ) by {
            if i < at {
                assert(reads(
                    earlier,
                    pins[i].chip_index as int,
                    pins[i].offset,
                    pin_rule(slot, pins, i),
                ));
            }
        }
        assert forall|c: int, o: u32, r: CollectRule| reads(batch, c, o, r) implies
            #[trigger] reads(after, c, o, r) by {
            assert(reads(earlier, c, o, r));
        }
        assert forall|c: int, o: u32, r: CollectRule| #[trigger] reads(after, c, o, r) implies
            reads(batch, c, o, r) || of_pins(slot, pins, count as int, c, o, r) by {
            if reads(earlier, c, o, r) {
                if !reads(batch, c, o, r) {
                    let i = choose|i: int| of_pin(slot, pins, at as int, i, c, o, r);
                    assert(of_pin(slot, pins, count as int, i, c, o, r));
                }
            } else {
                assert(of_pin(slot, pins, count as int, at as int, c, o, r));
            }
        }
    }
}

/// Whether an entry is that of a pin of one of the targets.
spec fn of_targets(
    targets: Map<Seq<char>, TargetModel>,
    names: Seq<Seq<char>>,
    chip: int,
    offset: u32,
    rule: CollectRule,
) -> bool {
    exists|slot: int|
        0 <= slot < names.len() && #[trigger] of_pins(
            slot,
            targets[names[slot]].pins,
            targets[names[slot]].pins.len() as int,
            chip,
            offset,
            rule,
        )
}

proof fn lemma_get_batch(
    targets: Map<Seq<char>, TargetModel>,
    names: Seq<Seq<char>>,
    chip_count: nat,
)
    requires
        names.len() <= usize::MAX,
        get_batch(targets, names, chip_count) is Ok,
    ensures
        ({
            let batch = get_batch(targets, names, chip_count)->Ok_0;
            &&& even(batch)
            &&& batch.len() == chip_count
            &&& forall|t: int|
                0 <= t < names.len() ==> pins_read(
                    batch,
                    t,
                    targets[#[trigger] names[t]].pins,
                    targets[names[t]].pins.len() as int,
                )
            &&& forall|c: int, o: u32, r: CollectRule| #[trigger]
                reads(batch, c, o, r) ==> of_targets(targets, names, c, o, r)
        }),
    decreases names.len(),
{
    if names.len() == 0 {
        let batch = empty_batch::<CollectRule>(chip_count);
        assert(get_batch(targets, names, chip_count)->Ok_0 == batch);
        assert forall|c: int, o: u32, r: CollectRule| #[trigger] reads(batch, c, o, r) implies
            of_targets(targets, names, c, o, r) by {
            let k = choose|k: int| reads_at(batch, c, k, o, r);
        }
    } else {
        let front = names.drop_last();
        let slot = names.len() - 1;
        lemma_get_batch(targets, front, chip_count);
        let earlier = get_batch(targets, front, chip_count)->Ok_0;
        let batch = get_batch(targets, names, chip_count)->Ok_0;
        let pins = targets[names[slot]].pins;
        assert(get_target_added(earlier, targets, slot as usize, names.last()) is Ok);
        lemma_pins_added(earlier, slot, pins, pins.len());
        assert forall|t: int| 0 <= t < names.len() implies pins_read(
            batch,
            t,
            targets[#[trigger] names[t]].pins,
            targets[names[t]].pins.len() as int,
        ) by {
            if t < slot {
                assert(front[t] == names[t]);
                let own = targets[front[t]].pins;
                assert(pins_read(earlier, t, own, own.len() as int));
                assert forall|i: int| 0 <= i < own.len() implies reads(
                    batch,
                    (#[trigger] own[i]).chip_index as int,
                    own[i].offset,
                    pin_rule(t, own, i),
                ) by {
                    assert(reads(
                        earlier,
                        own[i].chip_index as int,
                        own[i].offset,
                        pin_rule(t, own, i),
                    ));
                }
            }
        }
        assert forall|c: int, o: u32, r: CollectRule| #[trigger] reads(batch, c, o, r) implies
            of_targets(targets, names, c, o, r) by {
            if reads(earlier, c, o, r) {
                let t = choose|t: int|
                    0 <= t < front.len() && #[trigger] of_pins(
                        t,
                        targets[front[t]].pins,
                        targets[front[t]].pins.len() as int,
                        c,
                        o,
                        r,
                    );
                assert(front[t] == names[t]);
                assert(of_pins(
                    t,
                    targets[names[t]].pins,
                    targets[names[t]].pins.len() as int,
                    c,
                    o,
                    r,
                ));
            } else {
                assert(of_pins(slot, pins, pins.len() as int, c, o, r));
            }
        }
    }
}

proof fn lemma_values_each(state: ChipStateModel, id: u64, offsets: Seq<u32>)
    ensures
        values_at(state, id, offsets) matches Ok(values) ==> {
            &&& values.len() == offsets.len()
            &&& forall|k: int|
                0 <= k < offsets.len() ==> value_at(state, id, #[trigger] offsets[k]) == Ok::<
                    LineValue,
                    GPIOErrorModel,
                >(values[k])
        },
    decreases offsets.len(),
{
    if offsets.len() > 0 {
        lemma_values_each(state, id, offsets.drop_last());
        if let Ok(values) = values_at(state, id, offsets) {
            assert forall|k: int| 0 <= k < offsets.len() implies value_at(
                state,
                id,
                #[trigger] offsets[k],
            ) == Ok::<LineValue, GPIOErrorModel>(values[k]) by {
                if k < offsets.len() - 1 {
                    assert(offsets.drop_last()[k] == offsets[k]);
                }
            }
        }
    }
}

/// Whether a reading is that of an entry of a batch.
spec fn reading_of(
    chips: Seq<(ChipStateModel, u64)>,
    batch: Seq<ChipBatch<CollectRule>>,
    reading: (CollectRule, LineValue),
    c: int,
    k: int,
) -> bool {
    &&& 0 <= c < batch.len()
    &&& 0 <= k < batch[c].offsets.len()
    &&& reading.0 == batch[c].attachments[k]
    &&& value_at(chips[c].0, chips[c].1, batch[c].offsets[k]) == Ok::<LineValue, GPIOErrorModel>(
        reading.1,
    )
}

/// Whether a reading is that of some entry of a batch.
spec fn sourced(
    chips: Seq<(ChipStateModel, u64)>,
    batch: Seq<ChipBatch<CollectRule>>,
    reading: (CollectRule, LineValue),
) -> bool {
    exists|c: int, k: int| reading_of(chips, batch, reading, c, k)
}

/// Whether an entry of a batch is among the readings.
spec fn obtained(
    chips: Seq<(ChipStateModel, u64)>,
    batch: Seq<ChipBatch<CollectRule>>,
    readings: Seq<(CollectRule, LineValue)>,
    c: int,
    k: int,
) -> bool {
    exists|n: int|
        0 <= n < readings.len() && reading_of(chips, batch, #[trigger] readings[n], c, k)
}

/// Whether all entries of a chip are among the readings.
spec fn chip_obtained(
    chips: Seq<(ChipStateModel, u64)>,
    batch: Seq<ChipBatch<CollectRule>>,
    readings: Seq<(CollectRule, LineValue)>,
    c: int,
) -> bool {
    forall|k: int|
        0 <= k < batch[c].offsets.len() ==> #[trigger] obtained(chips, batch, readings, c, k)
}

proof fn lemma_batch_read(
    chips: Seq<(ChipStateModel, u64)>,
    batch: Seq<ChipBatch<CollectRule>>,
    used: Seq<int>,
)
    requires
        even(batch),
        batch_read(chips, batch, used) is Ok,
        forall|u: int| 0 <= u < used.len() ==> 0 <= #[trigger] used[u] < batch.len(),
    ensures
        ({
            let readings = batch_read(chips, batch, used)->Ok_0;
            &&& forall|n: int|
                0 <= n < readings.len() ==> sourced(chips, batch, #[trigger] readings[n])
            &&& forall|u: int|
                0 <= u < used.len() ==> chip_obtained(chips, batch, readings, #[trigger] used[u])
        }),
    decreases used.len(),
{
    if used.len() > 0 {
        let front = used.drop_last();
        let last = used.len() - 1;
        let c = used[last];
        assert forall|u: int| 0 <= u < front.len() implies 0 <= #[trigger] front[u]
            < batch.len() by {
            assert(front[u] == used[u]);
        }
        lemma_batch_read(chips, batch, front);
        let earlier = batch_read(chips, batch, front)->Ok_0;
        let readings = batch_read(chips, batch, used)->Ok_0;
        let state = chips[c].0;
        let id = chips[c].1;
        let values = values_at(state, id, batch[c].offsets)->Ok_0;
        lemma_values_each(state, id, batch[c].offsets);
        let added = paired_readings(batch[c].attachments, values);
        assert(readings == earlier + added);
        assert(batch[c].offsets.len() == batch[c].attachments.len());
        assert forall|k: int| 0 <= k < batch[c].offsets.len() implies #[trigger] reading_of(
            chips,
            batch,
            added[k],
            c,
            k,
        ) by {
            assert(value_at(state, id, batch[c].offsets[k]) == Ok::<LineValue, GPIOErrorModel>(
                values[k],
            ));
        }
        assert forall|n: int| 0 <= n < readings.len() implies sourced(
            chips,
            batch,
            #[trigger] readings[n],
        ) by {
            if n < earlier.len() {
                assert(readings[n] == earlier[n]);
            } else {
                let k = n - earlier.len();
                assert(readings[n] == added[k]);
                assert(reading_of(chips, batch, added[k], c, k));
            }
        }
        assert forall|u: int| 0 <= u < used.len() implies chip_obtained(
            chips,
            batch,
            readings,
            #[trigger] used[u],
        ) by {
            assert forall|k: int| 0 <= k < batch[used[u]].offsets.len() implies #[trigger] obtained(
                chips,
                batch,
                readings,
                used[u],
                k,
            ) by {
                if u < last {
                    assert(front[u] == used[u]);
                    assert(chip_obtained(chips, batch, earlier, front[u]));
                    assert(obtained(chips, batch, earlier, front[u], k));
                    let n = choose|n: int|
                        0 <= n < earlier.len() && reading_of(
                            chips,
                            batch,
                            #[trigger] earlier[n],
                            front[u],
                            k,
                        );
                    assert(readings[n] == earlier[n]);
                } else {
                    let n = earlier.len() + k;
                    assert(reading_of(chips, batch, added[k], c, k));
                    assert(readings[n] == added[k]);
                }
            }
        }
    }
}

proof fn lemma_active_is_line(
    chips: Seq<(ChipStateModel, u64)>,
    batch: Seq<ChipBatch<CollectRule>>,
    targets: Map<Seq<char>, TargetModel>,
    names: Seq<Seq<char>>,
    reading: (CollectRule, LineValue),
    slot: int,
    bit: nat,
)
    requires
        even(batch),
        names.len() <= usize::MAX,
        0 <= slot < names.len(),
        narrow(targets),
        forall|t: int| 0 <= t < names.len() ==> targets.contains_key(#[trigger] names[t]),
        forall|c: int, o: u32, r: CollectRule| #[trigger]
            reads(batch, c, o, r) ==> of_targets(targets, names, c, o, r),
        sourced(chips, batch, reading),
        reading.0.target_slot == slot,
        reading.0.bit_index == bit,
    ensures
        ({
            let pins = targets[names[slot]].pins;
            let pin = pins[pins.len() - 1 - bit];
            let chip = chips[pin.chip_index as int];
            &&& bit < pins.len()
            &&& value_at(chip.0, chip.1, pin.offset) == Ok::<LineValue, GPIOErrorModel>(reading.1)
        }),
{
    let (c, k) = choose|c: int, k: int| reading_of(chips, batch, reading, c, k);
    let offset = batch[c].offsets[k];
    assert(reads_at(batch, c, k, offset, reading.0));
    assert(reads(batch, c, offset, reading.0));
    let t = choose|t: int|
        0 <= t < names.len() && #[trigger] of_pins(
            t,
            targets[names[t]].pins,
            targets[names[t]].pins.len() as int,
            c,
            offset,
            reading.0,
        );
    let own = targets[names[t]].pins;
    let i = choose|i: int| of_pin(t, own, own.len() as int, i, c, offset, reading.0);
    assert(targets.contains_key(names[t]));
    assert(t == slot);
    assert(i == own.len() - 1 - bit);
}

proof fn lemma_get_targets_known(
    targets: Map<Seq<char>, TargetModel>,
    names: Seq<Seq<char>>,
    chip_count: nat,
)
    requires
        get_batch(targets, names, chip_count) is Ok,
    ensures
        forall|t: int| 0 <= t < names.len() ==> targets.contains_key(#[trigger] names[t]),
    decreases names.len(),
{
    if names.len() > 0 {
        let front = names.drop_last();
        lemma_get_targets_known(targets, front, chip_count);
        assert forall|t: int| 0 <= t < names.len() implies targets.contains_key(
            #[trigger] names[t],
        ) by {
            if t < front.len() {
                assert(front[t] == names[t]);
            }
        }
    }
}

/// Every bit of the value that a `get` gives for a target is the logical value of the pin at
/// that place, the first pin being the highest bit, and the bits above are zero.
pub proof fn value_bits_are_line_values(
    chips: Seq<(ChipStateModel, u64)>,
    targets: Map<Seq<char>, TargetModel>,
    names: Seq<Seq<char>>,
    slot: int,
    bit: nat,
)
    requires
        narrow(targets),
        names.len() <= usize::MAX,
        0 <= slot < names.len(),
        bit < 8,
        get_batch(targets, names, chips.len()) is Ok,
        batch_read(
            chips,
            get_batch(targets, names, chips.len())->Ok_0,
            used_chips(get_batch(targets, names, chips.len())->Ok_0),
        ) is Ok,
    ensures
        ({
            let batch = get_batch(targets, names, chips.len())->Ok_0;
            let readings = batch_read(chips, batch, used_chips(batch))->Ok_0;
            let pins = targets[names[slot]].pins;
            let pin = pins[pins.len() - 1 - bit];
            let chip = chips[pin.chip_index as int];
            bit_of(packed(readings, Some(slot as usize)), bit) <==> (bit < pins.len() && value_at(
                chip.0,
                chip.1,
                pin.offset,
            ) == Ok::<LineValue, GPIOErrorModel>(LineValue::Active))
        }),
{
    let batch = get_batch(targets, names, chips.len())->Ok_0;
    let used = used_chips(batch);
    let readings = batch_read(chips, batch, used)->Ok_0;
    let pins = targets[names[slot]].pins;
    let place = Some(slot as usize);
    lemma_get_batch(targets, names, chips.len());
    lemma_get_targets_known(targets, names, chips.len());
    lemma_used_chips(batch);
    lemma_batch_read(chips, batch, used);
    get_batch_has_places(targets, names, chips.len());
    assert forall|n: int| 0 <= n < readings.len() implies (#[trigger] readings[n]).0.bit_index
        < 8 by {
        assert(sourced(chips, batch, readings[n]));
        let (c, k) = choose|c: int, k: int| reading_of(chips, batch, readings[n], c, k);
        assert(batch[c].offsets.len() == batch[c].attachments.len());
        assert(batch[c].attachments[k].bit_index < 8);
    }
    packed_bit_is_active_reading(readings, place, bit);
    if reads_active(readings, place, bit) {
        let n = choose|n: int|
            0 <= n < readings.len() && in_slot((#[trigger] readings[n]).0, place)
                && readings[n].0.bit_index == bit && readings[n].1 == LineValue::Active;
        lemma_active_is_line(chips, batch, targets, names, readings[n], slot, bit);
    }
    if bit < pins.len() {
        let i = pins.len() - 1 - bit;
        let pin = pins[i];
        let c = pin.chip_index as int;
        let rule = pin_rule(slot, pins, i);
        assert(targets.contains_key(names[slot]));
        assert(pins_read(batch, slot, pins, pins.len() as int));
        assert(reads(batch, c, pin.offset, rule));
        let k = choose|k: int| reads_at(batch, c, k, pin.offset, rule);
        assert(batch[c].offsets.len() > 0);
        assert(used.contains(c));
        let u = choose|u: int| 0 <= u < used.len() && used[u] == c;
        assert(chip_obtained(chips, batch, readings, used[u]));
        assert(obtained(chips, batch, readings, c, k));
        let n = choose|n: int|
            0 <= n < readings.len() && reading_of(chips, batch, #[trigger] readings[n], c, k);
        assert(readings[n].0 == rule);
        assert(in_slot(readings[n].0, place));
        assert(rule.bit_index == bit);
        if value_at(chips[c].0, chips[c].1, pin.offset) == Ok::<LineValue, GPIOErrorModel>(
            LineValue::Active,
        ) {
            assert(readings[n].1 == LineValue::Active);
            assert(reads_active(readings, place, bit));
        }
    }
}

proof fn lemma_one_slot(readings: Seq<(CollectRule, LineValue)>)
    requires
        forall|n: int| 0 <= n < readings.len() ==> (#[trigger] readings[n]).0.target_slot == 0,
    ensures
        packed(readings, None) == packed(readings, Some(0)),
    decreases readings.len(),
{
    if readings.len() > 0 {
        let front = readings.drop_last();
        assert forall|n: int| 0 <= n < front.len() implies (#[trigger] front[n]).0.target_slot
            == 0 by {
            assert(front[n] == readings[n]);
        }
        lemma_one_slot(front);
        assert(readings.last() == readings[readings.len() - 1]);
    }
}

/// The value of a `get` of one target is the same whether it is asked for alone or in a list.
pub proof fn one_target_has_one_value(
    chips: Seq<(ChipStateModel, u64)>,
    targets: Map<Seq<char>, TargetModel>,
    name: Seq<char>,
)
    requires
        narrow(targets),
        get_batch(targets, seq![name], chips.len()) is Ok,
        batch_read(
            chips,
            get_batch(targets, seq![name], chips.len())->Ok_0,
            used_chips(get_batch(targets, seq![name], chips.len())->Ok_0),
        ) is Ok,
    ensures
        ({
            let batch = get_batch(targets, seq![name], chips.len())->Ok_0;
            let readings = batch_read(chips, batch, used_chips(batch))->Ok_0;
            packed(readings, None) == packed(readings, Some(0))
        }),
{
    let names = seq![name];
    let batch = get_batch(targets, names, chips.len())->Ok_0;
    let used = used_chips(batch);
    let readings = batch_read(chips, batch, used)->Ok_0;
    lemma_get_batch(targets, names, chips.len());
    lemma_used_chips(batch);
    lemma_batch_read(chips, batch, used);
    get_batch_has_places(targets, names, chips.len());
    assert forall|n: int| 0 <= n < readings.len() implies (#[trigger] readings[n]).0.target_slot
        == 0 by {
        assert(sourced(chips, batch, readings[n]));
        let (c, k) = choose|c: int, k: int| reading_of(chips, batch, readings[n], c, k);
        assert(batch[c].offsets.len() == batch[c].attachments.len());
        assert(batch[c].attachments[k].target_slot < names.len());
    }
    lemma_one_slot(readings);
}

/// Once the writes of a `set` have been done on a chip, every pin of its targets on that chip
/// has the value of its bit, the first pin of a target taking the highest.
pub proof fn written_bits_are_line_values(
    state: ChipStateModel,
    id: u64,
    targets: Map<Seq<char>, TargetModel>,
    names: Seq<Seq<char>>,
    values: Seq<u8>,
    chip_count: nat,
    chip: int,
    target: int,
    pin: int,
)
    requires
        set_batch(targets, names, values, chip_count) is Ok,
        0 <= chip < chip_count,
        levels_for(
            state,
            id,
            set_batch(targets, names, values, chip_count)->Ok_0[chip].offsets,
            set_batch(targets, names, values, chip_count)->Ok_0[chip].attachments,
        ) is Ok,
        0 <= target < names.len(),
        0 <= pin < targets[names[target]].pins.len(),
        targets[names[target]].pins[pin].chip_index == chip,
    ensures
        ({
            let writes = set_batch(targets, names, values, chip_count)->Ok_0[chip];
            let after = write_outcome(state, id, writes.offsets, writes.attachments).0;
            let pins = targets[names[target]].pins;
            value_at(after, id, pins[pin].offset) == Ok::<LineValue, GPIOErrorModel>(
                bit_value(bit_of(values[target], (pins.len() - 1 - pin) as nat)),
            )
        }),
{
    let batch = set_batch(targets, names, values, chip_count)->Ok_0;
    let pins = targets[names[target]].pins;
    let bit = bit_value(bit_of(values[target], (pins.len() - 1 - pin) as nat));
    set_batch_writes_every_pin(targets, names, values, chip_count);
    assert(writes(batch, targets[names[target]].pins[pin].chip_index as int, pins[pin].offset, bit));
    assert(batch[chip].offsets.no_duplicates());
    let k = choose|k: int|
        0 <= k < batch[chip].offsets.len() && batch[chip].offsets[k] == pins[pin].offset
            && batch[chip].attachments[k] == bit;
    driven_values_read_back(state, id, batch[chip].offsets, batch[chip].attachments);
    let after = write_outcome(state, id, batch[chip].offsets, batch[chip].attachments).0;
    lemma_values_each(after, id, batch[chip].offsets);
    assert(value_at(after, id, batch[chip].offsets[k]) == Ok::<LineValue, GPIOErrorModel>(bit));
}

} // verus!

//! What holds of the lines that a session writes.

use vstd::prelude::*;

use crate::gpio::libgpiod::LineValue;
use crate::names::lemma_ascending_distinct;
use crate::names::lemma_paired;
use crate::protocol::request::TargetConfigRequest;
use crate::session::batch::writes;
use crate::session::batch::ChipBatch;
use crate::session::compiled::TargetModel;
use crate::session::execute::bit_of;
use crate::session::execute::set_batch;
use crate::session::execute::set_batch_writes_every_pin;
use crate::session::execute::set_pins_added;
use crate::session::initialized::targets_planned;
use crate::session::laws::planned_finals_are_those_asked_for;
use crate::session::pins::ResolvedPin;
use crate::session::reactor::SessionReactor;

verus! {

/// Whether a line is a pin of a target and a value is that of its bit: the first pin has the
/// highest bit, a set bit is active.
pub open spec fn bit_on_line(
    pins: Seq<ResolvedPin>,
    value: u8,
    index: int,
    chip: int,
    offset: u32,
    line: LineValue,
) -> bool {
    &&& 0 <= index < pins.len()
    &&& pins[index].chip_index == chip
    &&& pins[index].offset == offset
    &&& line == LineValue::Active <==> bit_of(value, (pins.len() - 1 - index) as nat)
}

proof fn lemma_pins_only(
    chips: Seq<ChipBatch<LineValue>>,
    pins: Seq<ResolvedPin>,
    value: u8,
    count: nat,
    chip: int,
    offset: u32,
    line: LineValue,
)
    requires
        count <= pins.len(),
        forall|c: int|
            0 <= c < chips.len() ==> (#[trigger] chips[c]).offsets.len()
                == chips[c].attachments.len(),
        set_pins_added(chips, pins, value, count) is Ok,
        writes(set_pins_added(chips, pins, value, count)->Ok_0, chip, offset, line),
    ensures
        writes(chips, chip, offset, line) || exists|i: int|
            bit_on_line(pins, value, i, chip, offset, line),
    decreases count,
{
    if count > 0 {
        let earlier = set_pins_added(chips, pins, value, (count - 1) as nat)->Ok_0;
        let after = set_pins_added(chips, pins, value, count)->Ok_0;
        lemma_pairs(chips, pins, value, (count - 1) as nat);
        let k = choose|k: int|
            0 <= k < after[chip].offsets.len() && after[chip].offsets[k] == offset
                && after[chip].attachments[k] == line;
        if writes(earlier, chip, offset, line) {
            lemma_pins_only(chips, pins, value, (count - 1) as nat, chip, offset, line);
        } else {
            let pin = pins[count - 1];
            assert(after != earlier);
            assert(chip == pin.chip_index);
            if k < earlier[chip].offsets.len() && k < earlier[chip].attachments.len() {
                assert(earlier[chip].offsets[k] == offset);
                assert(earlier[chip].attachments[k] == line);
                assert(false);
            }
            assert(bit_on_line(pins, value, count - 1, chip, offset, line));
        }
    }
}

proof fn lemma_pairs(
    chips: Seq<ChipBatch<LineValue>>,
    pins: Seq<ResolvedPin>,
    value: u8,
    count: nat,
)
    requires
        set_pins_added(chips, pins, value, count) is Ok,
        forall|c: int|
            0 <= c < chips.len() ==> (#[trigger] chips[c]).offsets.len()
                == chips[c].attachments.len(),
    ensures
        ({
            let after = set_pins_added(chips, pins, value, count)->Ok_0;
            forall|c: int|
                0 <= c < after.len() ==> (#[trigger] after[c]).offsets.len()
                    == after[c].attachments.len()
        }),
    decreases count,
{
    if count > 0 {
        lemma_pairs(chips, pins, value, (count - 1) as nat);
    }
}

/// Nothing is written but what was asked for: every line that is written is a pin of one of
/// the named targets, and has the value of its bit.
pub proof fn nothing_else_is_written(
    targets: Map<Seq<char>, TargetModel>,
    names: Seq<Seq<char>>,
    values: Seq<u8>,
    chip_count: nat,
    chip: int,
    offset: u32,
    line: LineValue,
)
    requires
        set_batch(targets, names, values, chip_count) is Ok,
        writes(set_batch(targets, names, values, chip_count)->Ok_0, chip, offset, line),
    ensures
        exists|t: int, i: int|
            #![trigger bit_on_line(targets[names[t]].pins, values[t], i, chip, offset, line)]
            0 <= t < names.len() && targets.contains_key(names[t]) && bit_on_line(
                targets[names[t]].pins,
                values[t],
                i,
                chip,
                offset,
                line,
            ),
    decreases names.len(),
{
    if names.len() > 0 {
        let front = names.drop_last();
        let last = names.len() - 1;
        let earlier = set_batch(targets, front, values, chip_count)->Ok_0;
        let pins = targets[names.last()].pins;
        assert(names.last() == names[last]);
        set_batch_writes_every_pin(targets, front, values, chip_count);
        lemma_pins_only(earlier, pins, values[last], pins.len(), chip, offset, line);
        if writes(earlier, chip, offset, line) {
            nothing_else_is_written(targets, front, values, chip_count, chip, offset, line);
            let (t, i) = choose|t: int, i: int|
                #![trigger bit_on_line(targets[front[t]].pins, values[t], i, chip, offset, line)]
                0 <= t < front.len() && targets.contains_key(front[t]) && bit_on_line(
                    targets[front[t]].pins,
                    values[t],
                    i,
                    chip,
                    offset,
                    line,
                );
            assert(front[t] == names[t]);
            assert(bit_on_line(targets[names[t]].pins, values[t], i, chip, offset, line));
        } else {
            let i = choose|i: int| bit_on_line(pins, values[last], i, chip, offset, line);
            assert(bit_on_line(targets[names[last]].pins, values[last], i, chip, offset, line));
        }
    }
}

/// When a session closes, every line of an output target that asks for a final value is given
/// the bit of that value, the first pin the highest.
pub proof fn closing_leaves_final_values(
    reactor: SessionReactor,
    table: Map<Seq<char>, (Seq<char>, u32)>,
    names: Seq<Seq<char>>,
    configs: Seq<TargetConfigRequest>,
    target: int,
    index: int,
)
    requires
        names.len() <= configs.len(),
        names.no_duplicates(),
        targets_planned(table, names, configs) is Ok,
        reactor.initialized matches Some(session) && session.follows(
            targets_planned(table, names, configs)->Ok_0,
        ) && session.finals.wf(),
        reactor.final_writes() is Some,
        0 <= target < names.len(),
        configs[target] matches TargetConfigRequest::Output { final_value: Some(_), .. },
        0 <= index < reactor.initialized->Some_0.targets()[names[target]].pins.len(),
    ensures
        ({
            let batch = reactor.final_writes()->Some_0;
            let pins = reactor.initialized->Some_0.targets()[names[target]].pins;
            let value = configs[target]->Output_final_value->Some_0;
            writes(
                batch,
                pins[index].chip_index as int,
                pins[index].offset,
                if bit_of(value, (pins.len() - 1 - index) as nat) {
                    LineValue::Active
                } else {
                    LineValue::Inactive
                },
            )
        }),
{
    let session = reactor.initialized->Some_0;
    let finals = session.finals;
    planned_finals_are_those_asked_for(table, names, configs);
    lemma_ascending_distinct(finals.names());
    lemma_paired(finals.names(), finals.values());
    assert(finals.contents().contains_key(names[target]));
    let k = choose|k: int| 0 <= k < finals.names().len() && finals.names()[k] == names[target];
    set_batch_writes_every_pin(
        session.targets(),
        finals.names(),
        finals.values(),
        session.chips as nat,
    );
    assert(session.targets()[finals.names()[k]].pins[index]
        == session.targets()[names[target]].pins[index]);
}

/// When a session closes, no line is written but those of targets that ask for a final value:
/// none at all, where no target does.
pub proof fn closing_leaves_other_lines_alone(
    reactor: SessionReactor,
    table: Map<Seq<char>, (Seq<char>, u32)>,
    names: Seq<Seq<char>>,
    configs: Seq<TargetConfigRequest>,
    chip: int,
    offset: u32,
    line: LineValue,
)
    requires
        names.len() <= configs.len(),
        names.no_duplicates(),
        targets_planned(table, names, configs) is Ok,
        reactor.initialized matches Some(session) && session.follows(
            targets_planned(table, names, configs)->Ok_0,
        ) && session.finals.wf(),
        reactor.final_writes() matches Some(batch) && writes(batch, chip, offset, line),
    ensures
        exists|t: int, i: int|
            #![trigger reactor.initialized->Some_0.targets()[names[t]].pins[i]]
            {
                &&& 0 <= t < names.len()
                &&& configs[t] matches TargetConfigRequest::Output { final_value: Some(_), .. }
                &&& bit_on_line(
                    reactor.initialized->Some_0.targets()[names[t]].pins,
                    configs[t]->Output_final_value->Some_0,
                    i,
                    chip,
                    offset,
                    line,
                )
                &&& reactor.initialized->Some_0.targets()[names[t]].pins[i].offset == offset
            },
{
    let session = reactor.initialized->Some_0;
    let finals = session.finals;
    planned_finals_are_those_asked_for(table, names, configs);
    lemma_ascending_distinct(finals.names());
    lemma_paired(finals.names(), finals.values());
    nothing_else_is_written(
        session.targets(),
        finals.names(),
        finals.values(),
        session.chips as nat,
        chip,
        offset,
        line,
    );
    let (k, i) = choose|k: int, i: int|
        #![trigger bit_on_line(session.targets()[finals.names()[k]].pins, finals.values()[k], i, chip, offset, line)]
        0 <= k < finals.names().len() && session.targets().contains_key(finals.names()[k])
            && bit_on_line(
            session.targets()[finals.names()[k]].pins,
            finals.values()[k],
            i,
            chip,
            offset,
            line,
        );
    let name = finals.names()[k];
    assert(finals.contents().contains_key(name));
    assert(names.contains(name));
    let t = choose|t: int| 0 <= t < names.len() && names[t] == name;
    assert(names[t] == name);
    assert(session.targets()[names[t]].pins[i].offset == offset);
}

} // verus!

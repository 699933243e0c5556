//! What holds of an open chip whose file is edited from outside.

use vstd::prelude::*;

use crate::gpio::libgpiod::EdgeEventType;
use crate::gpio::libgpiod::LineDirection;
use crate::gpio::libgpiod::LineEdge;
use crate::gpio::libgpiod::LineValue;
use crate::gpio::mock::laws::changed_inputs;
use crate::gpio::mock::laws::diff_reports_changed_inputs;
use crate::gpio::mock::load::load_begin;
use crate::gpio::mock::load::load_events;
use crate::gpio::mock::snapshot::ChipModel;
use crate::gpio::mock::snapshot::LineLevel;
use crate::gpio::mock::snapshot::LineModel;
use crate::gpio::mock::state::ChipStateModel;
use crate::gpio::mock::state::RegistrationModel;
use crate::gpio::mock::watch::after_change;
use crate::gpio::mock::watch::after_changes;
use crate::gpio::mock::watch::externally_edited;
use crate::gpio::mock::watch::input_edge;
use crate::gpio::mock::watch::room_for;
use crate::gpio::mock::watch::wants;
use crate::gpio::mock::xml::XmlEventModel;
use crate::gpio::traits::EdgeModel;
use crate::keys::lemma_sorted_offsets;
use crate::keys::sorted_offsets;

verus! {

/// Whether a document holds a chip, all of whose lines the open chip has.
pub open spec fn known_document(state: ChipStateModel, events: Seq<XmlEventModel>) -> bool {
    &&& load_events(load_begin(), events) is Ok
    &&& state.chip.lines.dom().finite()
    &&& forall|offset: u32| #[trigger]
        load_events(load_begin(), events)->Ok_0.lines.contains_key(offset)
            ==> state.chip.lines.contains_key(offset)
}

/// Whether a line goes from active to inactive: a line that is not inverted is active while it
/// is high, an inverted one while it is low.
pub open spec fn falls(active_low: bool, before: LineLevel, after: LineLevel) -> bool {
    if active_low {
        before == LineLevel::Low && after == LineLevel::High
    } else {
        before == LineLevel::High && after == LineLevel::Low
    }
}

/// Whether a line goes from inactive to active.
pub open spec fn rises(active_low: bool, before: LineLevel, after: LineLevel) -> bool {
    falls(active_low, after, before)
}

/// The events of a line that were added to a queue.
pub open spec fn added_events(
    before: RegistrationModel,
    after: RegistrationModel,
    offset: u32,
) -> Seq<EdgeModel> {
    after.pending.skip(before.pending.len() as int).filter(
        |record: EdgeModel| record.line_offset == offset,
    )
}

proof fn lemma_added_events(
    before: RegistrationModel,
    between: RegistrationModel,
    record: EdgeModel,
    offset: u32,
)
    requires
        before.pending.is_prefix_of(between.pending),
    ensures
        ({
            let after = RegistrationModel { pending: between.pending.push(record), ..between };
            &&& before.pending.is_prefix_of(after.pending)
            &&& added_events(before, after, offset) == if record.line_offset == offset {
                added_events(before, between, offset).push(record)
            } else {
                added_events(before, between, offset)
            }
        }),
{
    let length = before.pending.len() as int;
    let tail = between.pending.skip(length);
    assert(between.pending.push(record).skip(length) =~= tail.push(record));
    assert(tail.push(record).drop_last() =~= tail);
    assert(before.pending.is_prefix_of(between.pending.push(record))) by {
        assert(between.pending.push(record).take(length) =~= between.pending.take(length));
    }
    reveal(Seq::filter);
}

proof fn lemma_queue(
    requests: Map<u64, RegistrationModel>,
    baseline: ChipModel,
    changes: Map<u32, LineValue>,
    offsets: Seq<u32>,
    timestamp_ns: u64,
    id: u64,
    offset: u32,
)
    requires
        requests.contains_key(id),
        offsets.no_duplicates(),
        room_for(requests, offsets.len()),
    ensures
        ({
            let before = requests[id];
            let after = after_changes(requests, baseline, changes, offsets, timestamp_ns)[id];
            let added = added_events(before, after, offset);
            let edge = input_edge(baseline, offset, changes[offset]);
            &&& after_changes(requests, baseline, changes, offsets, timestamp_ns).contains_key(id)
            &&& after.offsets == before.offsets
            &&& after.settings == before.settings
            &&& after.closed == before.closed
            &&& after.consumer == before.consumer
            &&& before.pending.is_prefix_of(after.pending)
            &&& after.global_seqno == before.global_seqno + after.pending.len()
                - before.pending.len()
            &&& after.global_seqno <= before.global_seqno + offsets.len()
            &&& forall|i: int|
                before.pending.len() <= i < after.pending.len() ==> (
                #[trigger] after.pending[i]).global_seqno == before.global_seqno + 1 + i
                    - before.pending.len() && after.pending[i].timestamp_ns == timestamp_ns
            &&& if offsets.contains(offset) && edge is Some && wants(
                before,
                offset,
                edge->Some_0,
                LineDirection::Input,
            ) {
                &&& added.len() == 1
                &&& added[0].event_type == edge->Some_0
                &&& added[0].line_offset == offset
                &&& added[0].timestamp_ns == timestamp_ns
                &&& added[0].line_seqno == before.last_seqno(offset) + 1
                &&& after.last_seqno(offset) == before.last_seqno(offset) + 1
            } else {
                &&& added.len() == 0
                &&& after.last_seqno(offset) == before.last_seqno(offset)
            }
        }),
    decreases offsets.len(),
{
    let before = requests[id];
    let after = after_changes(requests, baseline, changes, offsets, timestamp_ns)[id];
    if offsets.len() == 0 {
        reveal(Seq::filter);
        assert(after.pending.skip(before.pending.len() as int) =~= Seq::<EdgeModel>::empty());
        assert(before.pending.take(before.pending.len() as int) =~= before.pending);
    } else {
        let front = offsets.drop_last();
        let last = offsets.last();
        assert(offsets[offsets.len() - 1] == last);
        assert(room_for(requests, front.len()));
        assert(front.no_duplicates());
        assert(!front.contains(last)) by {
            if front.contains(last) {
                let k = choose|k: int| 0 <= k < front.len() && front[k] == last;
                assert(offsets[k] == offsets[offsets.len() - 1]);
            }
        }
        assert(offsets.contains(offset) == (front.contains(offset) || offset == last)) by {
            if front.contains(offset) {
                let k = choose|k: int| 0 <= k < front.len() && front[k] == offset;
                assert(offsets[k] == offset);
            }
            if offsets.contains(offset) && offset != last {
                let k = choose|k: int| 0 <= k < offsets.len() && offsets[k] == offset;
                assert(front[k] == offset);
            }
        }
        lemma_queue(requests, baseline, changes, front, timestamp_ns, id, offset);
        lemma_queue(requests, baseline, changes, front, timestamp_ns, id, last);
        let middle_all = after_changes(requests, baseline, changes, front, timestamp_ns);
        let middle = middle_all[id];
        assert(after_changes(requests, baseline, changes, offsets, timestamp_ns) == after_change(
            middle_all,
            baseline,
            last,
            changes[last],
            timestamp_ns,
        ));
        if let Some(event_type) = input_edge(baseline, last, changes[last]) {
            if wants(middle, last, event_type, LineDirection::Input) {
                let record = after.pending.last();
                assert(after.pending == middle.pending.push(record));
                lemma_added_events(before, middle, record, offset);
                assert(added_events(
                    before,
                    RegistrationModel { pending: middle.pending.push(record), ..middle },
                    offset,
                ) == added_events(before, after, offset));
                assert forall|i: int| before.pending.len() <= i < after.pending.len() implies (
                #[trigger] after.pending[i]).global_seqno == before.global_seqno + 1 + i
                    - before.pending.len() && after.pending[i].timestamp_ns == timestamp_ns by {
                    if i < middle.pending.len() {
                        assert(after.pending[i] == middle.pending[i]);
                    }
                }
            }
        }
    }
}

/// An edit of the file tells a request of an input that it holds exactly where it detects the
/// change: falling edges where the input goes from active to inactive, rising edges where it
/// goes from inactive to active, both in either case. It is told once, with an event of the
/// kind of that change, at the time of the edit, numbered next for the line. A closed request,
/// one that does not hold the line or holds it as an output, and one that detects no edges are
/// told nothing, and nobody is told of a line that is no input.
pub proof fn edited_inputs_are_told_as_detected(
    state: ChipStateModel,
    events: Seq<XmlEventModel>,
    timestamp_ns: u64,
    id: u64,
    offset: u32,
)
    requires
        known_document(state, events),
        state.requests.contains_key(id),
        room_for(state.requests, state.chip.lines.len()),
    ensures
        ({
            let document = load_events(load_begin(), events)->Ok_0;
            let before = state.requests[id];
            let after = externally_edited(state, events, timestamp_ns).requests[id];
            let added = added_events(before, after, offset);
            let line = state.chip.lines[offset];
            let settings = before.settings[offset];
            let level = document.lines[offset].level;
            let watched = {
                &&& !before.closed
                &&& before.offsets.contains(offset)
                &&& before.settings.contains_key(offset)
                &&& settings.direction != LineDirection::Output
                &&& document.lines.contains_key(offset)
                &&& line.direction == LineDirection::Input
            };
            let fallen = watched && falls(line.active_low, line.level, level) && (settings.edge
                == LineEdge::Falling || settings.edge == LineEdge::Both);
            let risen = watched && rises(line.active_low, line.level, level) && (settings.edge
                == LineEdge::Rising || settings.edge == LineEdge::Both);
            &&& before.pending.is_prefix_of(after.pending)
            &&& fallen || risen ==> {
                &&& added.len() == 1
                &&& added[0].line_offset == offset
                &&& added[0].timestamp_ns == timestamp_ns
                &&& added[0].line_seqno == before.last_seqno(offset) + 1
            }
            &&& fallen ==> added[0].event_type == EdgeEventType::FallingEdge
            &&& risen ==> added[0].event_type == EdgeEventType::RisingEdge
            &&& !fallen && !risen ==> added.len() == 0
        }),
{
    let document = load_events(load_begin(), events)->Ok_0;
    diff_reports_changed_inputs(events, state.chip);
    let changes = changed_inputs(document.lines, state.chip);
    let offsets = sorted_offsets(changes.dom());
    lemma_changes(state, events);
    lemma_queue(state.requests, state.chip, changes, offsets, timestamp_ns, id, offset);
    assert(offsets.contains(offset) == offsets.to_set().contains(offset));
}

proof fn lemma_changes(state: ChipStateModel, events: Seq<XmlEventModel>)
    requires
        known_document(state, events),
        room_for(state.requests, state.chip.lines.len()),
    ensures
        ({
            let document = load_events(load_begin(), events)->Ok_0;
            let changes = changed_inputs(document.lines, state.chip);
            let offsets = sorted_offsets(changes.dom());
            &&& offsets.no_duplicates()
            &&& offsets.to_set() == changes.dom()
            &&& offsets.len() <= state.chip.lines.len()
            &&& room_for(state.requests, offsets.len())
        }),
{
    let document = load_events(load_begin(), events)->Ok_0;
    let changes = changed_inputs(document.lines, state.chip);
    let offsets = sorted_offsets(changes.dom());
    assert(changes.dom().subset_of(state.chip.lines.dom()));
    vstd::set_lib::lemma_len_subset(changes.dom(), state.chip.lines.dom());
    lemma_sorted_offsets(changes.dom());
    offsets.unique_seq_to_set();
}

/// The events that an edit adds to the queue of a request are numbered one after the other,
/// behind the last event of the request, and what stood in the queue stays in front.
pub proof fn added_events_are_numbered_on(
    state: ChipStateModel,
    events: Seq<XmlEventModel>,
    timestamp_ns: u64,
    id: u64,
)
    requires
        known_document(state, events),
        state.requests.contains_key(id),
        room_for(state.requests, state.chip.lines.len()),
    ensures
        ({
            let before = state.requests[id];
            let after = externally_edited(state, events, timestamp_ns).requests[id];
            &&& before.pending.is_prefix_of(after.pending)
            &&& after.global_seqno == before.global_seqno + after.pending.len()
                - before.pending.len()
            &&& forall|i: int|
                before.pending.len() <= i < after.pending.len() ==> (
                #[trigger] after.pending[i]).global_seqno == before.global_seqno + 1 + i
                    - before.pending.len()
            &&& after.offsets == before.offsets
            &&& after.settings == before.settings
            &&& after.closed == before.closed
            &&& after.consumer == before.consumer
        }),
{
    let document = load_events(load_begin(), events)->Ok_0;
    diff_reports_changed_inputs(events, state.chip);
    let changes = changed_inputs(document.lines, state.chip);
    lemma_changes(state, events);
    lemma_queue(
        state.requests,
        state.chip,
        changes,
        sorted_offsets(changes.dom()),
        timestamp_ns,
        id,
        0,
    );
}

/// An edit of the file gives every input the level that the file says, and changes nothing
/// else of the chip: no output, no line that the file does not have, and of an input nothing
/// but the level.
pub proof fn edits_take_over_input_levels_only(
    state: ChipStateModel,
    events: Seq<XmlEventModel>,
    timestamp_ns: u64,
    offset: u32,
)
    requires
        known_document(state, events),
    ensures
        ({
            let document = load_events(load_begin(), events)->Ok_0;
            let after = externally_edited(state, events, timestamp_ns);
            &&& after.chip.name == state.chip.name
            &&& after.chip.label == state.chip.label
            &&& after.path == state.path
            &&& after.next_request_id == state.next_request_id
            &&& after.watcher_error == state.watcher_error
            &&& after.chip.lines.dom() == state.chip.lines.dom()
            &&& state.chip.lines.contains_key(offset) ==> after.chip.lines[offset] == (
            LineModel {
                level: if state.chip.lines[offset].direction == LineDirection::Input
                    && document.lines.contains_key(offset) {
                    document.lines[offset].level
                } else {
                    state.chip.lines[offset].level
                },
                ..state.chip.lines[offset]
            })
        }),
{
    diff_reports_changed_inputs(events, state.chip);
    assert(externally_edited(state, events, timestamp_ns).chip.lines.dom()
        =~= state.chip.lines.dom());
}

} // verus!

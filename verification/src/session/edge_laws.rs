//! What holds of the events that a client is told.

use vstd::prelude::*;

use crate::gpio::libgpiod::EdgeEventType;
use crate::gpio::libgpiod::LineDirection;
use crate::gpio::libgpiod::LineEdge;
use crate::gpio::mock::load::load_begin;
use crate::gpio::mock::load::load_events;
use crate::gpio::mock::request_laws::active_at;
use crate::gpio::mock::request_laws::held_by;
use crate::gpio::mock::state::ChipStateModel;
use crate::gpio::mock::watch::externally_edited;
use crate::gpio::mock::watch::room_for;
use crate::gpio::mock::watch_laws::edited_inputs_are_told_as_detected;
use crate::gpio::mock::watch_laws::known_document;
use crate::gpio::mock::xml::XmlEventModel;
use crate::gpio::traits::EdgeModel;
use crate::protocol::response::EventType;
use crate::protocol::response::ResponseModel;
use crate::session::reactor::edge_events;

verus! {

/// The edges on lines of trigger targets, in order.
pub open spec fn trigger_edges(
    triggers: Map<(u32, u32), Seq<char>>,
    chip_index: u32,
    records: Seq<EdgeModel>,
) -> Seq<EdgeModel> {
    records.filter(|record: EdgeModel| triggers.contains_key((chip_index, record.line_offset)))
}

/// A client is told of every edge on a line of a trigger target, in order, and of nothing
/// else. Each event carries the identifier of the `init` request and the target of the line; a
/// falling edge is told as falling, and a rising edge as rising.
pub proof fn edges_are_told_as_they_are(
    id: Seq<char>,
    triggers: Map<(u32, u32), Seq<char>>,
    chip_index: u32,
    records: Seq<EdgeModel>,
)
    ensures
        ({
            let seen = trigger_edges(triggers, chip_index, records);
            let told = edge_events(id, triggers, chip_index, records);
            &&& told.len() == seen.len()
            &&& forall|i: int|
                #![trigger told[i]]
                #![trigger seen[i]]
                0 <= i < seen.len() ==> {
                    &&& told[i].0 == id
                    &&& told[i].1 is Event
                    &&& told[i].1->Event_0 == triggers[(chip_index, seen[i].line_offset)]
                    &&& seen[i].event_type == EdgeEventType::FallingEdge ==> told[i].1->Event_1
                        == EventType::Falling
                    &&& seen[i].event_type == EdgeEventType::RisingEdge ==> told[i].1->Event_1
                        == EventType::Rising
                }
        }),
    decreases records.len(),
{
    let on_trigger = |record: EdgeModel|
        triggers.contains_key((chip_index, record.line_offset));
    reveal(Seq::filter);
    if records.len() > 0 {
        let front = records.drop_last();
        edges_are_told_as_they_are(id, triggers, chip_index, front);
        assert(trigger_edges(triggers, chip_index, records) =~= if on_trigger(records.last()) {
            trigger_edges(triggers, chip_index, front).push(records.last())
        } else {
            trigger_edges(triggers, chip_index, front)
        });
    }
}

/// An edge on the line of a trigger target is told wherever it stands among the edges: as
/// falling where it is a falling edge, as rising where it is a rising edge.
pub proof fn no_edge_of_a_trigger_is_lost(
    id: Seq<char>,
    triggers: Map<(u32, u32), Seq<char>>,
    chip_index: u32,
    records: Seq<EdgeModel>,
    index: int,
)
    requires
        0 <= index < records.len(),
        triggers.contains_key((chip_index, records[index].line_offset)),
    ensures
        ({
            let told = edge_events(id, triggers, chip_index, records);
            let place = trigger_edges(triggers, chip_index, records.take(index)).len() as int;
            &&& place < told.len()
            &&& told[place] == (
                id,
                ResponseModel::Event(
                    triggers[(chip_index, records[index].line_offset)],
                    if records[index].event_type == EdgeEventType::FallingEdge {
                        EventType::Falling
                    } else {
                        EventType::Rising
                    },
                ),
            )
        }),
    decreases records.len(),
{
    let last = records.len() - 1;
    let front = records.drop_last();
    edges_are_told_as_they_are(id, triggers, chip_index, front);
    edges_are_told_as_they_are(id, triggers, chip_index, records);
    let told = edge_events(id, triggers, chip_index, records);
    if index < last {
        assert(front.take(index) =~= records.take(index));
        assert(front[index] == records[index]);
        no_edge_of_a_trigger_is_lost(id, triggers, chip_index, front, index);
    } else {
        assert(records.take(index) =~= front);
        assert(told.last() == told[told.len() - 1]);
    }
}

proof fn lemma_filtered_stands_there(
    records: Seq<EdgeModel>,
    keep: spec_fn(EdgeModel) -> bool,
    index: int,
)
    requires
        0 <= index < records.filter(keep).len(),
    ensures
        exists|k: int|
            0 <= k < records.len() && #[trigger] records[k] == records.filter(keep)[index],
    decreases records.len(),
{
    reveal(Seq::filter);
    if records.len() > 0 {
        let front = records.drop_last();
        if index < front.filter(keep).len() {
            lemma_filtered_stands_there(front, keep, index);
            let k = choose|k: int|
                0 <= k < front.len() && #[trigger] front[k] == front.filter(keep)[index];
            assert(records[k] == front[k]);
        } else {
            assert(records[records.len() - 1] == records.last());
        }
    }
}

/// A client is told that a trigger input falls where an edit of the chip file takes it from
/// active to inactive, and that it rises where the edit takes it from inactive to active,
/// provided that the target detects such edges.
pub proof fn edited_trigger_inputs_are_told(
    state: ChipStateModel,
    events: Seq<XmlEventModel>,
    timestamp_ns: u64,
    request: u64,
    offset: u32,
    id: Seq<char>,
    triggers: Map<(u32, u32), Seq<char>>,
    chip_index: u32,
)
    requires
        known_document(state, events),
        room_for(state.requests, state.chip.lines.len()),
        held_by(state, request, offset),
        state.requests[request].settings[offset].direction == LineDirection::Input,
        state.chip.lines[offset].direction == LineDirection::Input,
        load_events(load_begin(), events)->Ok_0.lines.contains_key(offset),
        triggers.contains_key((chip_index, offset)),
    ensures
        ({
            let line = state.chip.lines[offset];
            let level = load_events(load_begin(), events)->Ok_0.lines[offset].level;
            let edge = state.requests[request].settings[offset].edge;
            let before = state.requests[request].pending;
            let after = externally_edited(state, events, timestamp_ns).requests[request].pending;
            let told = edge_events(id, triggers, chip_index, after.skip(before.len() as int));
            &&& (edge == LineEdge::Falling || edge == LineEdge::Both) && active_at(
                line.level,
                line.active_low,
            ) && !active_at(level, line.active_low) ==> told.contains(
                (id, ResponseModel::Event(triggers[(chip_index, offset)], EventType::Falling)),
            )
            &&& (edge == LineEdge::Rising || edge == LineEdge::Both) && !active_at(
                line.level,
                line.active_low,
            ) && active_at(level, line.active_low) ==> told.contains(
                (id, ResponseModel::Event(triggers[(chip_index, offset)], EventType::Rising)),
            )
        }),
{
    edited_inputs_are_told_as_detected(state, events, timestamp_ns, request, offset);
    let before = state.requests[request];
    let after = externally_edited(state, events, timestamp_ns).requests[request];
    let fresh = after.pending.skip(before.pending.len() as int);
    let on_line = |record: EdgeModel| record.line_offset == offset;
    let told = edge_events(id, triggers, chip_index, fresh);
    if fresh.filter(on_line).len() > 0 {
        let record = fresh.filter(on_line)[0];
        lemma_filtered_stands_there(fresh, on_line, 0);
        let k = choose|k: int| 0 <= k < fresh.len() && #[trigger] fresh[k] == record;
        if record.line_offset == offset {
            no_edge_of_a_trigger_is_lost(id, triggers, chip_index, fresh, k);
            let place = trigger_edges(triggers, chip_index, fresh.take(k)).len() as int;
            assert(told.contains(told[place]));
        }
    }
}

} // verus!

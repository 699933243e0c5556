//! What an edit of a chip file from outside does to the open chip.

use std::collections::BTreeMap;
use vstd::prelude::*;
use vstd::string::StringExecFns;

use crate::gpio::libgpiod::EdgeEventType;
use crate::gpio::libgpiod::LineDirection;
use crate::gpio::libgpiod::LineValue;
use crate::gpio::mock::diff::diff_attribute;
use crate::gpio::mock::diff::diff_attributes;
use crate::gpio::mock::diff::diff_begin;
use crate::gpio::mock::diff::diff_events;
use crate::gpio::mock::diff::diff_snapshot;
use crate::gpio::mock::diff::diff_step;
use crate::gpio::mock::diff::DiffModel;
use crate::gpio::mock::info::requested_direction;
use crate::gpio::mock::snapshot::line_level_to_line_value;
use crate::gpio::mock::snapshot::line_value_to_line_level;
use crate::gpio::mock::snapshot::logical_value;
use crate::gpio::mock::snapshot::physical_level;
use crate::gpio::mock::snapshot::ChipModel;
use crate::gpio::mock::snapshot::LineModel;
use crate::gpio::mock::snapshot::MockChipSnapshot;
use crate::gpio::mock::state::contains_offset;
use crate::gpio::mock::state::detects;
use crate::gpio::mock::state::edge_matches_detection;
use crate::gpio::mock::state::enqueue_edge_event;
use crate::gpio::mock::state::enqueued;
use crate::gpio::mock::state::level_transition_event;
use crate::gpio::mock::state::request_models;
use crate::gpio::mock::state::transition;
use crate::gpio::mock::state::ChipStateModel;
use crate::gpio::mock::state::MockChipState;
use crate::gpio::mock::state::RegistrationModel;
use crate::gpio::mock::state::RequestId;
use crate::gpio::mock::state::RequestRegistration;
use crate::gpio::mock::xml::xml_events;
use crate::gpio::mock::xml::XmlAttributeModel;
use crate::gpio::mock::xml::XmlEventModel;
use crate::gpio::mock::xml::XmlSource;
use crate::keys::keys_in_order;
use crate::keys::offsets_in_order;
use crate::keys::sorted_offsets;
use crate::text::same_text;

verus! {

/// Whether a request is to be told of an edge on a line: it is open, holds the line as an
/// input and detects such edges.
pub open spec fn wants(
    registration: RegistrationModel,
    offset: u32,
    event_type: EdgeEventType,
    persisted: LineDirection,
) -> bool {
    &&& registration.holds(offset)
    &&& registration.settings.contains_key(offset)
    &&& requested_direction(registration.settings[offset], persisted) == LineDirection::Input
    &&& detects(registration.settings[offset].edge, event_type)
}

/// The request once it has been told of an edge, if it is to be told.
pub open spec fn notified(
    registration: RegistrationModel,
    offset: u32,
    event_type: EdgeEventType,
    persisted: LineDirection,
    timestamp_ns: u64,
) -> RegistrationModel {
    if wants(registration, offset, event_type, persisted) {
        enqueued(registration, event_type, offset, timestamp_ns)
    } else {
        registration
    }
}

/// The requests once all of them have been told of an edge.
pub open spec fn all_notified(
    requests: Map<u64, RegistrationModel>,
    offset: u32,
    event_type: EdgeEventType,
    persisted: LineDirection,
    timestamp_ns: u64,
) -> Map<u64, RegistrationModel> {
    requests.map_values(
        |registration: RegistrationModel|
            notified(registration, offset, event_type, persisted, timestamp_ns),
    )
}

/// Whether every request can number `events` more events.
pub open spec fn room_for(requests: Map<u64, RegistrationModel>, events: nat) -> bool {
    forall|id: u64| #[trigger]
        requests.contains_key(id) ==> {
            &&& requests[id].global_seqno + events <= u64::MAX
            &&& forall|offset: u32| #[trigger]
                requests[id].last_seqno(offset) <= requests[id].global_seqno
        }
}

fn notify(
    registration: &mut RequestRegistration,
    offset: u32,
    event_type: EdgeEventType,
    persisted: LineDirection,
    timestamp_ns: u64,
) -> (told: bool)
    requires
        old(registration)@.global_seqno < u64::MAX,
        old(registration)@.last_seqno(offset) <= old(registration)@.global_seqno,
    ensures
        told == wants(old(registration)@, offset, event_type, persisted),
        final(registration)@ == notified(
            old(registration)@,
            offset,
            event_type,
            persisted,
            timestamp_ns,
        ),
{
    if registration.closed || !contains_offset(&registration.offsets_in_order, offset) {
        return false;
    }
    let told = match registration.line_settings.get(&offset) {
        Some(request) => {
            let direction = match request.direction {
                LineDirection::AsIs => persisted,
                other => other,
            };
            direction == LineDirection::Input && edge_matches_detection(request.edge, event_type)
        },
        None => false,
    };
    if told {
        enqueue_edge_event(registration, event_type, offset, timestamp_ns);
    }
    told
}

proof fn lemma_room_after(
    registration: RegistrationModel,
    offset: u32,
    event_type: EdgeEventType,
    persisted: LineDirection,
    timestamp_ns: u64,
)
    requires
        registration.global_seqno < u64::MAX,
        forall|other: u32| #[trigger] registration.last_seqno(other) <= registration.global_seqno,
    ensures
        ({
            let after = notified(registration, offset, event_type, persisted, timestamp_ns);
            &&& after.global_seqno <= registration.global_seqno + 1
            &&& after.offsets == registration.offsets
            &&& after.settings == registration.settings
            &&& after.closed == registration.closed
            &&& forall|other: u32| #[trigger] after.last_seqno(other) <= after.global_seqno
        }),
{
    let after = notified(registration, offset, event_type, persisted, timestamp_ns);
    assert forall|other: u32| #[trigger] after.last_seqno(other) <= after.global_seqno by {
        assert(registration.last_seqno(other) <= registration.global_seqno);
        assert(registration.last_seqno(offset) <= registration.global_seqno);
    }
}

/// Tells every request of an edge. The result numbers the requests that were told.
fn notify_requests(
    requests: &mut BTreeMap<RequestId, RequestRegistration>,
    offset: u32,
    event_type: EdgeEventType,
    persisted: LineDirection,
    timestamp_ns: u64,
) -> (told: Vec<RequestId>)
    requires
        room_for(request_models(old(requests)@), 1),
    ensures
        request_models(final(requests)@) == all_notified(
            request_models(old(requests)@),
            offset,
            event_type,
            persisted,
            timestamp_ns,
        ),
        forall|id: u64| #[trigger]
            told@.contains(id) <==> old(requests)@.contains_key(id) && wants(
                old(requests)@[id]@,
                offset,
                event_type,
                persisted,
            ),
{
    let ids = keys_in_order(requests);
    let mut told: Vec<RequestId> = Vec::new();
    let ghost before = requests@;
    let mut index: usize = 0;
    while index < ids.len()
        invariant
            index <= ids.len(),
            before == old(requests)@,
            ids@.to_set() == before.dom(),
            ids@.no_duplicates(),
            requests@.dom() == before.dom(),
            room_for(request_models(before), 1),
            forall|i: int|
                index <= i < ids@.len() ==> requests@[#[trigger] ids@[i]] == before[ids@[i]],
            forall|i: int|
                0 <= i < index ==> requests@[#[trigger] ids@[i]]@ == notified(
                    before[ids@[i]]@,
                    offset,
                    event_type,
                    persisted,
                    timestamp_ns,
                ),
            forall|id: u64| #[trigger]
                told@.contains(id) <==> ids@.take(index as int).contains(id) && wants(
                    before[id]@,
                    offset,
                    event_type,
                    persisted,
                ),
        decreases ids.len() - index,
    {
        let id: u64 = ids[index];
        proof {
            assert(ids@.to_set().contains(id));
            assert(request_models(before).contains_key(id));
            assert(before[id]@.last_seqno(offset) <= before[id]@.global_seqno);
        }
        let mut registration = requests.remove(&id).unwrap();
        let ghost told_before = told@;
        let wanted = notify(&mut registration, offset, event_type, persisted, timestamp_ns);
        if wanted {
            told.push(id);
        }
        requests.insert(id, registration);
        index += 1;
        proof {
            assert(requests@.dom() =~= before.dom());
            let now = ids@.take(index as int);
            let earlier = ids@.take(index - 1);
            assert(now =~= earlier.push(id));
            assert forall|other: u64| #[trigger]
                told@.contains(other) <==> now.contains(other) && wants(
                    before[other]@,
                    offset,
                    event_type,
                    persisted,
                ) by {
                assert(told_before.contains(other) <==> earlier.contains(other) && wants(
                    before[other]@,
                    offset,
                    event_type,
                    persisted,
                ));
                if earlier.contains(other) {
                    let k = choose|k: int| 0 <= k < earlier.len() && earlier[k] == other;
                    assert(now[k] == other);
                }
                assert(now[index - 1] == id);
                if wanted {
                    assert(told@[told_before.len() as int] == id);
                    if told_before.contains(other) {
                        let k = choose|k: int|
                            0 <= k < told_before.len() && told_before[k] == other;
                        assert(told@[k] == other);
                    }
                }
            }
        }
    }
    proof {
        assert(ids@.take(index as int) =~= ids@);
        let expected = all_notified(
            request_models(before),
            offset,
            event_type,
            persisted,
            timestamp_ns,
        );
        assert forall|id: u64| expected.contains_key(id) implies request_models(requests@)[id]
            == expected[id] by {
            assert(ids@.to_set().contains(id));
            let k = choose|k: int| 0 <= k < ids@.len() && ids@[k] == id;
            assert(requests@[ids@[k]]@ == notified(
                before[ids@[k]]@,
                offset,
                event_type,
                persisted,
                timestamp_ns,
            ));
        }
        assert(request_models(requests@) =~= expected);
        assert forall|id: u64| #[trigger]
            told@.contains(id) <==> before.contains_key(id) && wants(
                before[id]@,
                offset,
                event_type,
                persisted,
            ) by {
            assert(ids@.to_set().contains(id) == ids@.contains(id));
        }
    }
    told
}

/// The edge that a new logical value means for a line: only inputs of the baseline have one.
pub open spec fn input_edge(baseline: ChipModel, offset: u32, value: LineValue) -> Option<
    EdgeEventType,
> {
    if baseline.lines.contains_key(offset) {
        let line = baseline.lines[offset];
        if line.direction == LineDirection::Input {
            transition(logical_value(line.level, line.active_low), value)
        } else {
            None
        }
    } else {
        None
    }
}

/// The requests once all of them have been told of the new value of one line.
pub open spec fn after_change(
    requests: Map<u64, RegistrationModel>,
    baseline: ChipModel,
    offset: u32,
    value: LineValue,
    timestamp_ns: u64,
) -> Map<u64, RegistrationModel> {
    match input_edge(baseline, offset, value) {
        Some(event_type) => all_notified(
            requests,
            offset,
            event_type,
            LineDirection::Input,
            timestamp_ns,
        ),
        None => requests,
    }
}

/// The requests once all of them have been told of the new values of the lines at the given
/// offsets, one after the other.
pub open spec fn after_changes(
    requests: Map<u64, RegistrationModel>,
    baseline: ChipModel,
    changes: Map<u32, LineValue>,
    offsets: Seq<u32>,
    timestamp_ns: u64,
) -> Map<u64, RegistrationModel>
    decreases offsets.len(),
{
    if offsets.len() == 0 {
        requests
    } else {
        after_change(
            after_changes(requests, baseline, changes, offsets.drop_last(), timestamp_ns),
            baseline,
            offsets.last(),
            changes[offsets.last()],
            timestamp_ns,
        )
    }
}

/// Telling requests of edges leaves what they hold alone, numbers at most one event of each
/// request per line, and only ever adds to the queues.
pub proof fn lemma_after_changes(
    requests: Map<u64, RegistrationModel>,
    baseline: ChipModel,
    changes: Map<u32, LineValue>,
    offsets: Seq<u32>,
    timestamp_ns: u64,
)
    requires
        room_for(requests, offsets.len()),
    ensures
        after_changes(requests, baseline, changes, offsets, timestamp_ns).dom() == requests.dom(),
        forall|id: u64| #[trigger]
            requests.contains_key(id) ==> {
                let after = after_changes(requests, baseline, changes, offsets, timestamp_ns)[id];
                &&& after.offsets == requests[id].offsets
                &&& after.settings == requests[id].settings
                &&& after.closed == requests[id].closed
                &&& after.global_seqno <= requests[id].global_seqno + offsets.len()
                &&& after.pending.len() >= requests[id].pending.len()
                &&& forall|offset: u32| #[trigger]
                    after.last_seqno(offset) <= after.global_seqno
            },
    decreases offsets.len(),
{
    let after = after_changes(requests, baseline, changes, offsets, timestamp_ns);
    if offsets.len() > 0 {
        let offset = offsets.last();
        assert forall|id: u64| #[trigger] requests.contains_key(id) implies {
            &&& requests[id].global_seqno + offsets.drop_last().len() <= u64::MAX
            &&& forall|offset: u32| #[trigger]
                requests[id].last_seqno(offset) <= requests[id].global_seqno
        } by {}
        lemma_after_changes(requests, baseline, changes, offsets.drop_last(), timestamp_ns);
        let earlier = after_changes(
            requests,
            baseline,
            changes,
            offsets.drop_last(),
            timestamp_ns,
        );
        assert(after.dom() =~= requests.dom());
        if let Some(event_type) = input_edge(baseline, offset, changes[offset]) {
            assert forall|id: u64| #[trigger] requests.contains_key(id) implies {
                &&& after[id].offsets == requests[id].offsets
                &&& after[id].settings == requests[id].settings
                &&& after[id].closed == requests[id].closed
                &&& after[id].global_seqno <= requests[id].global_seqno + offsets.len()
                &&& after[id].pending.len() >= requests[id].pending.len()
                &&& forall|offset: u32| #[trigger]
                    after[id].last_seqno(offset) <= after[id].global_seqno
            } by {
                assert(earlier.contains_key(id));
                assert(after[id] == notified(
                    earlier[id],
                    offset,
                    event_type,
                    LineDirection::Input,
                    timestamp_ns,
                ));
                lemma_room_after(
                    earlier[id],
                    offset,
                    event_type,
                    LineDirection::Input,
                    timestamp_ns,
                );
            }
        }
    }
}

/// Tells the requests of a chip of new values of its inputs, in the order of the offsets. The
/// result numbers the requests whose queues grew.
pub fn dispatch_input_level_changes(
    state: &mut MockChipState,
    baseline: &MockChipSnapshot,
    changes: &BTreeMap<u32, LineValue>,
    timestamp_ns: u64,
) -> (told: Vec<RequestId>)
    requires
        room_for(old(state)@.requests, changes@.len()),
    ensures
        final(state)@ == (ChipStateModel {
            requests: after_changes(
                old(state)@.requests,
                baseline@,
                changes@,
                sorted_offsets(changes@.dom()),
                timestamp_ns,
            ),
            ..old(state)@
        }),
        forall|id: u64| #[trigger]
            told@.contains(id) <==> old(state)@.requests.contains_key(id)
                && final(state)@.requests[id].pending.len() > old(state)@.requests[id].pending.len(),
{
    let offsets = offsets_in_order(changes);
    let mut told: Vec<RequestId> = Vec::new();
    let ghost before = state@.requests;
    proof {
        offsets@.unique_seq_to_set();
        assert(offsets@.len() == changes@.len());
        assert(offsets@.take(0) =~= Seq::<u32>::empty());
    }
    let mut index: usize = 0;
    while index < offsets.len()
        invariant
            index <= offsets.len(),
            before == old(state)@.requests,
            offsets@.to_set() == changes@.dom(),
            offsets@.len() == changes@.len(),
            room_for(before, changes@.len()),
            state@ == (ChipStateModel {
                requests: after_changes(
                    before,
                    baseline@,
                    changes@,
                    offsets@.take(index as int),
                    timestamp_ns,
                ),
                ..old(state)@
            }),
            forall|id: u64| #[trigger]
                told@.contains(id) <==> before.contains_key(id) && state@.requests[id].pending.len()
                    > before[id].pending.len(),
        decreases offsets.len() - index,
    {
        let offset: u32 = offsets[index];
        let ghost earlier = state@.requests;
        let ghost told_before = told@;
        proof {
            assert(offsets@.to_set().contains(offset));
            let seen = offsets@.take(index as int);
            let now = offsets@.take(index + 1);
            assert(now.drop_last() =~= seen);
            assert forall|id: u64| #[trigger] before.contains_key(id) implies {
                &&& before[id].global_seqno + seen.len() <= u64::MAX
                &&& forall|offset: u32| #[trigger]
                    before[id].last_seqno(offset) <= before[id].global_seqno
            } by {}
            lemma_after_changes(before, baseline@, changes@, seen, timestamp_ns);
            assert(earlier == after_changes(before, baseline@, changes@, seen, timestamp_ns));
            assert forall|id: u64| #[trigger] earlier.contains_key(id) implies {
                &&& earlier[id].global_seqno + 1 <= u64::MAX
                &&& forall|offset: u32| #[trigger]
                    earlier[id].last_seqno(offset) <= earlier[id].global_seqno
            } by {
                assert(before.contains_key(id));
            }
        }
        let value = *changes.get(&offset).unwrap();
        let event = match baseline.lines.get(&offset) {
            Some(line) => {
                if line.direction == LineDirection::Input {
                    level_transition_event(
                        line_level_to_line_value(line.persisted_level, line.active_low),
                        value,
                    )
                } else {
                    None
                }
            },
            None => None,
        };
        assert(event == input_edge(baseline@, offset, value));
        if let Some(event_type) = event {
            let ghost models = request_models(state.requests@);
            let mut more = notify_requests(
                &mut state.requests,
                offset,
                event_type,
                LineDirection::Input,
                timestamp_ns,
            );
            let ghost added = more@;
            told.append(&mut more);
            proof {
                assert forall|id: u64| #[trigger]
                    told@.contains(id) <==> before.contains_key(id)
                        && state@.requests[id].pending.len() > before[id].pending.len() by {
                    assert(told@ == told_before + added);
                    if told_before.contains(id) {
                        let k = choose|k: int| 0 <= k < told_before.len() && told_before[k] == id;
                        assert(told@[k] == id);
                    }
                    if added.contains(id) {
                        let k = choose|k: int| 0 <= k < added.len() && added[k] == id;
                        assert(told@[told_before.len() + k] == id);
                    }
                    if told@.contains(id) {
                        let k = choose|k: int| 0 <= k < told@.len() && told@[k] == id;
                        if k < told_before.len() {
                            assert(told_before[k] == id);
                        } else {
                            assert(added[k - told_before.len()] == id);
                        }
                    }
                    if before.contains_key(id) {
                        assert(earlier.contains_key(id));
                        assert(state@.requests[id] == notified(
                            earlier[id],
                            offset,
                            event_type,
                            LineDirection::Input,
                            timestamp_ns,
                        ));
                    }
                }
            }
        }
        index += 1;
    }
    assert(offsets@.take(index as int) =~= offsets@);
    told
}

/// The lines with the levels that new logical values give them.
pub open spec fn with_levels(lines: Map<u32, LineModel>, changes: Map<u32, LineValue>) -> Map<
    u32,
    LineModel,
> {
    Map::new(
        |offset: u32| lines.contains_key(offset),
        |offset: u32|
            if changes.contains_key(offset) {
                LineModel {
                    level: physical_level(changes[offset], lines[offset].active_low),
                    ..lines[offset]
                }
            } else {
                lines[offset]
            },
    )
}

/// What a file with these events makes of an open chip: the inputs that differ take over
/// their level and the requests are told; nothing else of the file is taken over. A file that
/// cannot be compared leaves an error behind.
pub open spec fn externally_edited(
    state: ChipStateModel,
    events: Seq<XmlEventModel>,
    timestamp_ns: u64,
) -> ChipStateModel {
    match diff_events(diff_begin(), events, state.chip) {
        Err(error) => ChipStateModel {
            watcher_error: Some("failed to diff external file: "@ + error.text()),
            ..state
        },
        Ok(changes) => ChipStateModel {
            chip: ChipModel { lines: with_levels(state.chip.lines, changes), ..state.chip },
            requests: after_changes(
                state.requests,
                state.chip,
                changes,
                sorted_offsets(changes.dom()),
                timestamp_ns,
            ),
            ..state
        },
    }
}

spec fn diff_known(state: DiffModel, baseline: ChipModel) -> bool {
    &&& state.line is Some ==> state.offset is Some && baseline.lines.contains_key(
        state.offset->Some_0,
    )
    &&& state.changes.dom().subset_of(baseline.lines.dom())
}

proof fn lemma_diff_attributes_known(
    state: DiffModel,
    attributes: Seq<XmlAttributeModel>,
    baseline: ChipModel,
)
    requires
        diff_known(state, baseline),
    ensures
        diff_attributes(state, attributes, baseline) matches Ok(next) ==> diff_known(
            next,
            baseline,
        ),
    decreases attributes.len(),
{
    if attributes.len() > 0 {
        if let Ok(next) = diff_attribute(state, attributes[0], baseline) {
            lemma_diff_attributes_known(next, attributes.drop_first(), baseline);
        }
    }
}

/// A comparison reports lines in memory only.
proof fn lemma_diff_known(state: DiffModel, events: Seq<XmlEventModel>, baseline: ChipModel)
    requires
        diff_known(state, baseline),
    ensures
        diff_events(state, events, baseline) matches Ok(changes) ==> changes.dom().subset_of(
            baseline.lines.dom(),
        ),
    decreases events.len(),
{
    if events.len() > 0 {
        if let XmlEventModel::Start { name, attributes } = events[0] {
            lemma_diff_attributes_known(state, attributes, baseline);
        }
        if let Ok(next) = diff_step(state, events[0], baseline) {
            lemma_diff_known(next, events.drop_first(), baseline);
        }
    }
}

fn set_levels(snapshot: &mut MockChipSnapshot, changes: &BTreeMap<u32, LineValue>)
    ensures
        final(snapshot)@ == (ChipModel {
            lines: with_levels(old(snapshot)@.lines, changes@),
            ..old(snapshot)@
        }),
{
    let offsets = offsets_in_order(changes);
    let ghost before = snapshot@.lines;
    let mut index: usize = 0;
    while index < offsets.len()
        invariant
            index <= offsets.len(),
            offsets@.to_set() == changes@.dom(),
            offsets@.no_duplicates(),
            before == old(snapshot)@.lines,
            snapshot.name == old(snapshot).name,
            snapshot.label == old(snapshot).label,
            snapshot@.lines.dom() == before.dom(),
            forall|offset: u32|
                before.contains_key(offset) ==> #[trigger] snapshot@.lines[offset] == if offsets@.take(
                    index as int,
                ).contains(offset) {
                    with_levels(before, changes@)[offset]
                } else {
                    before[offset]
                },
        decreases offsets.len() - index,
    {
        let offset: u32 = offsets[index];
        let ghost earlier = snapshot@.lines;
        assert(offsets@.to_set().contains(offset));
        let value = *changes.get(&offset).unwrap();
        let ghost held = snapshot.lines@;
        let removed = snapshot.lines.remove(&offset);
        proof {
            let seen = offsets@.take(index as int);
            let now = offsets@.take(index + 1);
            assert(now =~= seen.push(offset));
            assert(now[index as int] == offset);
            assert(!seen.contains(offset)) by {
                if seen.contains(offset) {
                    let k = choose|k: int| 0 <= k < seen.len() && seen[k] == offset;
                    assert(offsets@[k] == offsets@[index as int]);
                }
            }
            assert forall|other: u32| other != offset implies now.contains(other)
                == seen.contains(other) by {
                if seen.contains(other) {
                    let k = choose|k: int| 0 <= k < seen.len() && seen[k] == other;
                    assert(now[k] == other);
                }
                if now.contains(other) {
                    let k = choose|k: int| 0 <= k < now.len() && now[k] == other;
                    assert(seen[k] == other);
                }
            }
        }
        match removed {
            Some(mut line) => {
                line.persisted_level = line_value_to_line_level(value, line.active_low);
                snapshot.lines.insert(offset, line);
                proof {
                    assert(before.contains_key(offset));
                    assert(snapshot@.lines =~= earlier.insert(offset, line@));
                    assert(earlier[offset] == before[offset]);
                    assert(snapshot@.lines.dom() =~= before.dom());
                }
            },
            None => {
                assert(!before.contains_key(offset));
                assert(snapshot@.lines =~= earlier);
            },
        }
        index += 1;
    }
    proof {
        assert(offsets@.take(index as int) =~= offsets@);
        assert forall|offset: u32| before.contains_key(offset) implies snapshot@.lines[offset]
            == with_levels(before, changes@)[offset] by {
            assert(offsets@.to_set().contains(offset) == offsets@.contains(offset));
        }
        assert(snapshot@.lines =~= with_levels(before, changes@));
    }
}

/// Takes a file with new content into account: inputs take over their level and the requests
/// that detect the edges are told. The result numbers the requests whose queues grew.
pub fn apply_external_file_diff(state: &mut MockChipState, content: &str, timestamp_ns: u64) -> (
    told: Vec<RequestId>)
    requires
        room_for(old(state)@.requests, old(state)@.chip.lines.len()),
    ensures
        final(state)@ == externally_edited(old(state)@, xml_events(content@), timestamp_ns),
        forall|id: u64| #[trigger]
            told@.contains(id) <==> old(state)@.requests.contains_key(id)
                && final(state)@.requests[id].pending.len() > old(state)@.requests[id].pending.len(),
{
    let baseline = state.snapshot.duplicate();
    let mut source = XmlSource::open(content);
    let ghost events = xml_events(content@);
    let changes = match diff_snapshot(&mut source, &baseline) {
        Ok(changes) => changes,
        Err(error) => {
            state.watcher_error = Some(
                "failed to diff external file: ".to_owned().concat(error.message().as_str()),
            );
            return Vec::new();
        },
    };
    proof {
        lemma_diff_known(diff_begin(), events, baseline@);
        assert(state@.chip.lines.dom() =~= state.snapshot.lines@.dom());
        vstd::set_lib::lemma_len_subset(changes@.dom(), state@.chip.lines.dom());
        assert forall|id: u64| #[trigger] state@.requests.contains_key(id) implies {
            &&& state@.requests[id].global_seqno + changes@.len() <= u64::MAX
            &&& forall|offset: u32| #[trigger]
                state@.requests[id].last_seqno(offset) <= state@.requests[id].global_seqno
        } by {}
    }
    let told = dispatch_input_level_changes(state, &baseline, &changes, timestamp_ns);
    set_levels(&mut state.snapshot, &changes);
    told
}

/// The message for a chip file that cannot be read any more.
pub open spec fn reload_failure(path: Seq<char>, error: Seq<char>) -> Seq<char> {
    "failed to reload "@ + path + ": "@ + error
}

/// What one look at the chip file makes of an open chip: nothing once there is an error, an
/// error where the file cannot be read, nothing where the content is the same as last time.
pub open spec fn reloaded(
    state: ChipStateModel,
    previous: Seq<char>,
    content: Result<Seq<char>, Seq<char>>,
    timestamp_ns: u64,
) -> (ChipStateModel, Seq<char>) {
    if state.watcher_error is Some {
        (state, previous)
    } else {
        match content {
            Err(error) => (
                ChipStateModel {
                    watcher_error: Some(reload_failure(state.path, error)),
                    ..state
                },
                previous,
            ),
            Ok(text) => if text == previous {
                (state, previous)
            } else {
                (externally_edited(state, xml_events(text), timestamp_ns), text)
            },
        }
    }
}

/// The view of what reading a file gave.
pub open spec fn content_model(content: Result<String, String>) -> Result<Seq<char>, Seq<char>> {
    match content {
        Ok(text) => Ok(text@),
        Err(error) => Err(error@),
    }
}

/// Takes one look at the chip file into account. The result numbers the requests whose queues
/// grew.
pub fn reload_from_disk(
    state: &mut MockChipState,
    previous_content: &mut String,
    content: Result<String, String>,
    timestamp_ns: u64,
) -> (told: Vec<RequestId>)
    requires
        room_for(old(state)@.requests, old(state)@.chip.lines.len()),
    ensures
        (final(state)@, final(previous_content)@) == reloaded(
            old(state)@,
            old(previous_content)@,
            content_model(content),
            timestamp_ns,
        ),
        forall|id: u64| #[trigger]
            told@.contains(id) <==> old(state)@.requests.contains_key(id)
                && final(state)@.requests[id].pending.len() > old(state)@.requests[id].pending.len(),
{
    if state.watcher_error.is_some() {
        return Vec::new();
    }
    let text = match content {
        Ok(text) => text,
        Err(error) => {
            state.watcher_error = Some(
                "failed to reload ".to_owned().concat(state.path_string.as_str()).concat(
                    ": ",
                ).concat(error.as_str()),
            );
            return Vec::new();
        },
    };
    if same_text(text.as_str(), previous_content.as_str()) {
        return Vec::new();
    }
    *previous_content = text.clone();
    apply_external_file_diff(state, text.as_str(), timestamp_ns)
}

/// Whether every request can number as many more events as the chip has lines.
pub fn has_event_room(state: &MockChipState) -> (room: bool)
    requires
        state@.wf(),
    ensures
        room == room_for(state@.requests, state@.chip.lines.len()),
{
    let ids = keys_in_order(&state.requests);
    let lines: usize = state.snapshot.num_lines();
    let mut index: usize = 0;
    while index < ids.len()
        invariant
            index <= ids.len(),
            state@.wf(),
            lines == state@.chip.lines.len(),
            ids@.to_set() == state.requests@.dom(),
            forall|i: int|
                0 <= i < index ==> state@.requests[#[trigger] ids@[i]].global_seqno + lines
                    <= u64::MAX,
        decreases ids.len() - index,
    {
        let id: u64 = ids[index];
        assert(ids@.to_set().contains(id));
        let registration = state.requests.get(&id).unwrap();
        if registration.global_seqno_cursor > u64::MAX - lines as u64 {
            assert(state@.requests.contains_key(id));
            return false;
        }
        index += 1;
    }
    proof {
        assert forall|id: u64| #[trigger] state@.requests.contains_key(id) implies {
            &&& state@.requests[id].global_seqno + lines <= u64::MAX
            &&& forall|offset: u32| #[trigger]
                state@.requests[id].last_seqno(offset) <= state@.requests[id].global_seqno
        } by {
            assert(ids@.to_set().contains(id));
            let k = choose|k: int| 0 <= k < ids@.len() && ids@[k] == id;
            assert(state@.requests[ids@[k]].global_seqno + lines <= u64::MAX);
            assert(state@.requests[id].wf());
        }
    }
    true
}

} // verus!

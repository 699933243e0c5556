//! What holds of an open chip across its operations.

use vstd::prelude::*;

use crate::gpio::libgpiod::GPIOErrorModel;
use crate::gpio::libgpiod::LineDirection;
use crate::gpio::libgpiod::LineValue;
use crate::gpio::mock::chip::first_conflict;
use crate::gpio::mock::chip::lemma_no_conflict;
use crate::gpio::mock::chip::released_state;
use crate::gpio::mock::chip::request_outcome;
use crate::gpio::mock::config::MockLineConfig;
use crate::gpio::mock::diff::diff_begin;
use crate::gpio::mock::diff::diff_events;
use crate::gpio::mock::document::plain_chip;
use crate::gpio::mock::document::saved_chip_loads_back;
use crate::gpio::mock::laws::changed_inputs;
use crate::gpio::mock::laws::diff_reports_changed_inputs;
use crate::gpio::mock::laws::loaded_chip_is_normal;
use crate::gpio::mock::laws::normal_chip;
use crate::gpio::mock::laws::normal_line;
use crate::gpio::mock::load::load_begin;
use crate::gpio::mock::load::load_events;
use crate::gpio::mock::request::levels_for;
use crate::gpio::mock::request::value_at;
use crate::gpio::mock::request::values_at;
use crate::gpio::mock::request::with_all_levels;
use crate::gpio::mock::request::write_outcome;
use crate::gpio::mock::request::write_target;
use crate::gpio::mock::save::chip_nodes;
use crate::gpio::mock::save::line_elements;
use crate::gpio::mock::snapshot::level_conversion_round_trips;
use crate::gpio::mock::snapshot::logical_value;
use crate::gpio::mock::snapshot::physical_level;
use crate::gpio::mock::snapshot::ChipModel;
use crate::gpio::mock::snapshot::LineLevel;
use crate::gpio::mock::snapshot::LineModel;
use crate::gpio::mock::snapshot::LoadErrorModel;
use crate::gpio::mock::state::ChipStateModel;
use crate::gpio::mock::watch::externally_edited;
use crate::gpio::mock::watch::lemma_after_changes;
use crate::gpio::mock::watch::reloaded;
use crate::gpio::mock::watch::room_for;
use crate::gpio::mock::watch::with_levels;
use crate::gpio::mock::xml::read_back;
use crate::gpio::mock::xml::XmlEventModel;
use crate::gpio::traits::LineConfig;
use crate::keys::lemma_sorted_offsets;
use crate::keys::sorted_offsets;

verus! {

// ---------------------------------------------------------------------------
// Documents
// ---------------------------------------------------------------------------

proof fn lemma_normal_lines(lines: Map<u32, LineModel>, offsets: Seq<u32>)
    requires
        forall|i: int|
            0 <= i < offsets.len() ==> normal_line(
                lines[#[trigger] offsets[i]],
            ),
    ensures
        line_elements(lines, offsets) is Ok,
    decreases offsets.len(),
{
    if offsets.len() > 0 {
        assert forall|i: int| 0 <= i < offsets.drop_last().len() implies
            normal_line(lines[#[trigger] offsets.drop_last()[i]]) by {
            assert(offsets.drop_last()[i] == offsets[i]);
        }
        lemma_normal_lines(lines, offsets.drop_last());
        assert(offsets.last() == offsets[offsets.len() - 1]);
    }
}

/// A chip in normal form can be written.
pub proof fn normal_chip_can_be_written(chip: ChipModel)
    requires
        normal_chip(chip),
    ensures
        chip_nodes(chip) is Ok,
{
    let offsets = sorted_offsets(chip.lines.dom());
    lemma_sorted_offsets(chip.lines.dom());
    assert forall|i: int| 0 <= i < offsets.len() implies normal_line(
        chip.lines[#[trigger] offsets[i]],
    ) by {
        assert(offsets.to_set().contains(offsets[i]));
        assert(chip.lines.contains_key(offsets[i]));
    }
    lemma_normal_lines(chip.lines, offsets);
}

/// A chip that was read can be written, and what is written is read as the same chip, where
/// its texts hold no tab and no line break.
pub proof fn loaded_chip_is_kept_by_saving(events: Seq<XmlEventModel>)
    requires
        load_events(load_begin(), events) matches Ok(chip) && plain_chip(chip),
    ensures
        ({
            let chip = load_events(load_begin(), events)->Ok_0;
            &&& chip_nodes(chip) is Ok
            &&& load_events(load_begin(), read_back(chip_nodes(chip)->Ok_0, 0, false)) == Ok::<
                ChipModel,
                LoadErrorModel,
            >(chip)
        }),
{
    let chip = load_events(load_begin(), events)->Ok_0;
    loaded_chip_is_normal(events);
    normal_chip_can_be_written(chip);
    saved_chip_loads_back(chip);
}

// ---------------------------------------------------------------------------
// Exclusive use
// ---------------------------------------------------------------------------

/// A request for a line that another request holds is refused and changes nothing.
pub proof fn held_line_is_refused(
    state: ChipStateModel,
    config: MockLineConfig,
    consumer: Seq<char>,
    offset: u32,
)
    requires
        state.in_use(offset),
        config.offsets().contains(offset),
    ensures
        request_outcome(state, config, consumer).0 == state,
        request_outcome(state, config, consumer).1 is Err,
{
    if first_conflict(state, config.offsets()) is None {
        lemma_no_conflict(state, config.offsets());
        let i = choose|i: int| 0 <= i < config.offsets().len() && config.offsets()[i] == offset;
        assert(!state.in_use(config.offsets()[i]));
    }
}

/// The lines of a request are free once it is released, and have no consumer.
pub proof fn released_line_is_free(state: ChipStateModel, id: u64, offset: u32)
    requires
        state.wf(),
        state.requests.contains_key(id),
        state.requests[id].holds(offset),
    ensures
        !released_state(state, id).in_use(offset),
        released_state(state, id).chip.lines.contains_key(offset),
        released_state(state, id).chip.lines[offset].consumer == Seq::<char>::empty(),
{
    let after = released_state(state, id);
    if after.in_use(offset) {
        let other = choose|other: u64| #[trigger]
            after.requests.contains_key(other) && after.requests[other].holds(offset);
        assert(state.requests.contains_key(other) && state.requests[other].holds(offset));
        assert(state.requests[id].holds(offset) && state.requests[other].holds(offset));
    }
    assert(state.chip.lines.contains_key(offset));
}

// ---------------------------------------------------------------------------
// Driven values
// ---------------------------------------------------------------------------

proof fn lemma_levels_for(
    state: ChipStateModel,
    id: u64,
    offsets: Seq<u32>,
    values: Seq<LineValue>,
)
    requires
        levels_for(state, id, offsets, values) is Ok,
    ensures
        levels_for(state, id, offsets, values)->Ok_0.len() == offsets.len(),
        forall|i: int|
            0 <= i < offsets.len() ==> {
                &&& write_target(state, id, #[trigger] offsets[i]) is Ok
                &&& levels_for(state, id, offsets, values)->Ok_0[i] == physical_level(
                    values[i],
                    write_target(state, id, offsets[i])->Ok_0.active_low,
                )
            },
    decreases offsets.len(),
{
    if offsets.len() > 0 {
        lemma_levels_for(state, id, offsets.drop_last(), values);
        let levels = levels_for(state, id, offsets, values)->Ok_0;
        assert forall|i: int| 0 <= i < offsets.len() implies {
            &&& write_target(state, id, #[trigger] offsets[i]) is Ok
            &&& levels[i] == physical_level(
                values[i],
                write_target(state, id, offsets[i])->Ok_0.active_low,
            )
        } by {
            if i < offsets.len() - 1 {
                assert(offsets.drop_last()[i] == offsets[i]);
            }
        }
    }
}

proof fn lemma_all_levels(chip: ChipModel, offsets: Seq<u32>, levels: Seq<LineLevel>)
    requires
        levels.len() >= offsets.len(),
        forall|i: int| 0 <= i < offsets.len() ==> chip.lines.contains_key(#[trigger] offsets[i]),
    ensures
        with_all_levels(chip, offsets, levels).lines.dom() == chip.lines.dom(),
        forall|offset: u32| #[trigger]
            chip.lines.contains_key(offset) ==> with_all_levels(
                chip,
                offsets,
                levels,
            ).lines[offset] == (LineModel {
                level: with_all_levels(chip, offsets, levels).lines[offset].level,
                ..chip.lines[offset]
            }),
        forall|offset: u32| #[trigger]
            chip.lines.contains_key(offset) && !offsets.contains(offset) ==> with_all_levels(
                chip,
                offsets,
                levels,
            ).lines[offset] == chip.lines[offset],
        offsets.no_duplicates() ==> forall|i: int|
            0 <= i < offsets.len() ==> with_all_levels(
                chip,
                offsets,
                levels,
            ).lines[#[trigger] offsets[i]].level == levels[i],
    decreases offsets.len(),
{
    if offsets.len() > 0 {
        let count = offsets.len() - 1;
        let rest = offsets.drop_last();
        let last = offsets[count];
        assert(forall|i: int| 0 <= i < count ==> rest[i] == offsets[i]);
        lemma_all_levels(chip, rest, levels);
        let before = with_all_levels(chip, rest, levels);
        let after = with_all_levels(chip, offsets, levels);
        assert(offsets.last() == last);
        assert(chip.lines.contains_key(last));
        assert(after.lines == before.lines.insert(
            last,
            LineModel { level: levels[count], ..before.lines[last] },
        ));
        assert(after.lines.dom() =~= chip.lines.dom());
        assert forall|offset: u32| #[trigger]
            chip.lines.contains_key(offset) && !offsets.contains(offset) implies after.lines[offset]
            == chip.lines[offset] by {
            assert(offsets.contains(last)) by {
                assert(offsets[count] == last);
            }
            if rest.contains(offset) {
                let i = choose|i: int| 0 <= i < rest.len() && rest[i] == offset;
                assert(offsets[i] == offset);
            }
        }
        if offsets.no_duplicates() {
            assert forall|i: int| 0 <= i < offsets.len() implies after.lines[#[trigger] offsets[i]].level
                == levels[i] by {
                if i < count {
                    assert(rest[i] == offsets[i]);
                    assert(offsets[i] != last);
                }
            }
        }
    }
}

/// Driving lines changes no line but these, and of these only the level.
pub proof fn driving_changes_levels_only(
    state: ChipStateModel,
    id: u64,
    offsets: Seq<u32>,
    values: Seq<LineValue>,
    offset: u32,
)
    requires
        levels_for(state, id, offsets, values) is Ok,
        state.chip.lines.contains_key(offset),
    ensures
        ({
            let after = write_outcome(state, id, offsets, values).0;
            &&& after.requests == state.requests
            &&& after.chip.lines.dom() == state.chip.lines.dom()
            &&& after.chip.lines[offset] == (LineModel {
                level: after.chip.lines[offset].level,
                ..state.chip.lines[offset]
            })
            &&& !offsets.contains(offset) ==> after.chip.lines[offset]
                == state.chip.lines[offset]
        }),
{
    lemma_levels_for(state, id, offsets, values);
    assert forall|i: int| 0 <= i < offsets.len() implies state.chip.lines.contains_key(
        #[trigger] offsets[i],
    ) by {
        assert(write_target(state, id, offsets[i]) is Ok);
    }
    lemma_all_levels(state.chip, offsets, levels_for(state, id, offsets, values)->Ok_0);
}

proof fn lemma_values_at(
    state: ChipStateModel,
    id: u64,
    offsets: Seq<u32>,
    values: Seq<LineValue>,
)
    requires
        offsets.len() == values.len(),
        forall|i: int|
            0 <= i < offsets.len() ==> value_at(state, id, #[trigger] offsets[i]) == Ok::<
                LineValue,
                GPIOErrorModel,
            >(values[i]),
    ensures
        values_at(state, id, offsets) == Ok::<Seq<LineValue>, GPIOErrorModel>(values),
    decreases offsets.len(),
{
    if offsets.len() > 0 {
        assert forall|i: int| 0 <= i < offsets.drop_last().len() implies value_at(
            state,
            id,
            #[trigger] offsets.drop_last()[i],
        ) == Ok::<LineValue, GPIOErrorModel>(values.drop_last()[i]) by {
            assert(offsets.drop_last()[i] == offsets[i]);
        }
        lemma_values_at(state, id, offsets.drop_last(), values.drop_last());
        assert(offsets.last() == offsets[offsets.len() - 1]);
        assert(values.drop_last().push(values.last()) =~= values);
    } else {
        assert(values =~= Seq::<LineValue>::empty());
    }
}

/// Values driven onto different lines of a request are read back, whatever the polarity of
/// the lines.
pub proof fn driven_values_read_back(
    state: ChipStateModel,
    id: u64,
    offsets: Seq<u32>,
    values: Seq<LineValue>,
)
    requires
        offsets.len() == values.len(),
        offsets.no_duplicates(),
        levels_for(state, id, offsets, values) is Ok,
    ensures
        values_at(write_outcome(state, id, offsets, values).0, id, offsets) == Ok::<
            Seq<LineValue>,
            GPIOErrorModel,
        >(values),
{
    let after = write_outcome(state, id, offsets, values).0;
    lemma_levels_for(state, id, offsets, values);
    let levels = levels_for(state, id, offsets, values)->Ok_0;
    assert forall|i: int| 0 <= i < offsets.len() implies state.chip.lines.contains_key(
        #[trigger] offsets[i],
    ) by {
        assert(write_target(state, id, offsets[i]) is Ok);
    }
    lemma_all_levels(state.chip, offsets, levels);
    assert forall|i: int| 0 <= i < offsets.len() implies value_at(
        after,
        id,
        #[trigger] offsets[i],
    ) == Ok::<LineValue, GPIOErrorModel>(values[i]) by {
        let request = write_target(state, id, offsets[i])->Ok_0;
        level_conversion_round_trips(levels[i], values[i], request.active_low);
        assert(state.chip.lines.contains_key(offsets[i]));
        assert(after.chip.lines.contains_key(offsets[i]));
    }
    lemma_values_at(after, id, offsets, values);
}

// ---------------------------------------------------------------------------
// Edits of the file
// ---------------------------------------------------------------------------

/// A file that cannot be compared, or cannot be read, leaves an error and nothing else; from
/// then on the file is not looked at any more.
pub proof fn refused_file_leaves_an_error_only(
    state: ChipStateModel,
    previous: Seq<char>,
    content: Result<Seq<char>, Seq<char>>,
    timestamp_ns: u64,
)
    ensures
        ({
            let after = reloaded(state, previous, content, timestamp_ns).0;
            &&& after.watcher_error is Some ==> after.chip == state.chip && after.requests
                == state.requests
            &&& state.watcher_error is Some ==> after == state
        }),
{
}

/// An edit of the file keeps an open chip valid: what the requests hold stays as it is.
pub proof fn edited_chip_stays_valid(
    state: ChipStateModel,
    events: Seq<XmlEventModel>,
    timestamp_ns: u64,
)
    requires
        state.wf(),
        diff_events(diff_begin(), events, state.chip) matches Ok(changes) ==> room_for(
            state.requests,
            sorted_offsets(changes.dom()).len(),
        ),
    ensures
        externally_edited(state, events, timestamp_ns).wf(),
{
    let after = externally_edited(state, events, timestamp_ns);
    if let Ok(changes) = diff_events(diff_begin(), events, state.chip) {
        let offsets = sorted_offsets(changes.dom());
        lemma_after_changes(state.requests, state.chip, changes, offsets, timestamp_ns);
        assert forall|id: u64| #[trigger] after.requests.contains_key(id) implies {
            &&& after.requests[id].wf()
            &&& id < after.next_request_id
            &&& forall|offset: u32|
                after.requests[id].offsets.contains(offset)
                    ==> #[trigger] after.chip.lines.contains_key(offset)
        } by {
            assert(state.requests.contains_key(id));
            assert(state.requests[id].wf());
            assert forall|offset: u32| after.requests[id].offsets.contains(offset) implies
                #[trigger] after.chip.lines.contains_key(offset) by {
                assert(state.chip.lines.contains_key(offset));
            }
        }
        assert forall|a: u64, b: u64, offset: u32|
            #![trigger after.requests[a].holds(offset), after.requests[b].holds(offset)]
            after.requests.contains_key(a) && after.requests.contains_key(b)
                && after.requests[a].holds(offset) && after.requests[b].holds(offset) implies a
            == b by {
            assert(state.requests.contains_key(a) && state.requests.contains_key(b));
            assert(state.requests[a].holds(offset) && state.requests[b].holds(offset));
        }
    } else {
        assert(after.exclusive()) by {
            assert(state.exclusive());
            assert forall|a: u64, b: u64, offset: u32|
                #![trigger after.requests[a].holds(offset), after.requests[b].holds(offset)]
                after.requests.contains_key(a) && after.requests.contains_key(b)
                    && after.requests[a].holds(offset) && after.requests[b].holds(offset) implies a
                == b by {
                assert(state.requests[a].holds(offset) && state.requests[b].holds(offset));
            }
        }
        assert forall|id: u64| #[trigger] after.requests.contains_key(id) implies {
            &&& after.requests[id].wf()
            &&& id < after.next_request_id
            &&& forall|offset: u32|
                after.requests[id].offsets.contains(offset)
                    ==> #[trigger] after.chip.lines.contains_key(offset)
        } by {
            assert(state.requests.contains_key(id));
            assert forall|offset: u32| after.requests[id].offsets.contains(offset) implies
                #[trigger] after.chip.lines.contains_key(offset) by {
                assert(state.chip.lines.contains_key(offset));
            }
        }
    }
}

/// Once an edit has been taken over, the same file holds no further change: looking at it
/// again alters nothing.
pub proof fn edit_is_taken_over_once(
    state: ChipStateModel,
    events: Seq<XmlEventModel>,
    first_ns: u64,
    second_ns: u64,
)
    requires
        load_events(load_begin(), events) is Ok,
        forall|offset: u32| #[trigger]
            load_events(load_begin(), events)->Ok_0.lines.contains_key(offset)
                ==> state.chip.lines.contains_key(offset),
    ensures
        externally_edited(externally_edited(state, events, first_ns), events, second_ns)
            == externally_edited(state, events, first_ns),
{
    let after = externally_edited(state, events, first_ns);
    let document = load_events(load_begin(), events)->Ok_0;
    diff_reports_changed_inputs(events, state.chip);
    let changes = changed_inputs(document.lines, state.chip);
    assert(after.chip.lines == with_levels(state.chip.lines, changes));
    assert forall|offset: u32| #[trigger] document.lines.contains_key(offset) implies
        after.chip.lines.contains_key(offset) by {
        assert(state.chip.lines.contains_key(offset));
    }
    diff_reports_changed_inputs(events, after.chip);
    let again = changed_inputs(document.lines, after.chip);
    assert forall|offset: u32| document.lines.contains_key(offset) && state.chip.lines[offset].direction
        == LineDirection::Input implies after.chip.lines[offset].level
        == document.lines[offset].level by {
        let line = state.chip.lines[offset];
        assert(state.chip.lines.contains_key(offset));
        level_conversion_round_trips(
            document.lines[offset].level,
            logical_value(document.lines[offset].level, line.active_low),
            line.active_low,
        );
    }
    assert(again =~= Map::<u32, LineValue>::empty());
    assert(again.dom() =~= Set::<u32>::empty());
    lemma_sorted_offsets(again.dom());
    assert(sorted_offsets(again.dom()) =~= Seq::<u32>::empty()) by {
        if sorted_offsets(again.dom()).len() > 0 {
            assert(sorted_offsets(again.dom()).to_set().contains(sorted_offsets(again.dom())[0]));
        }
    }
    assert(with_levels(after.chip.lines, again) =~= after.chip.lines);
}

} // verus!

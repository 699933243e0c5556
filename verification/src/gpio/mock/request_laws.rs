//! What holds of requests for lines of a mock chip.

use vstd::prelude::*;

use crate::gpio::libgpiod::GPIOErrorModel;
use crate::gpio::libgpiod::LineBias;
use crate::gpio::libgpiod::LineDirection;
use crate::gpio::libgpiod::LineEdge;
use crate::gpio::libgpiod::LineValue;
use crate::gpio::mock::chip::first_conflict;
use crate::gpio::mock::chip::lemma_no_conflict;
use crate::gpio::mock::chip::line_info_of;
use crate::gpio::mock::chip::released_state;
use crate::gpio::mock::chip::request_consumer;
use crate::gpio::mock::chip::request_outcome;
use crate::gpio::mock::config::MockRequestConfig;
use crate::gpio::mock::config::state_at;
use crate::gpio::mock::config::MockLineConfig;
use crate::gpio::mock::document::plain_chip;
use crate::gpio::mock::document::saved_chip_loads_back;
use crate::gpio::mock::load::load_begin;
use crate::gpio::mock::load::load_events;
use crate::gpio::mock::request::drained;
use crate::gpio::mock::request::first_foreign;
use crate::gpio::mock::request::levels_for;
use crate::gpio::mock::request::read_count;
use crate::gpio::mock::request::subset_outcome;
use crate::gpio::mock::request::value_at;
use crate::gpio::mock::request::values_at;
use crate::gpio::mock::request::values_kept;
use crate::gpio::mock::request::with_all_levels;
use crate::gpio::mock::request::write_target;
use crate::gpio::mock::request::MockLineRequest;
use crate::gpio::mock::save::chip_nodes;
use crate::gpio::mock::snapshot::level_of_text;
use crate::gpio::mock::snapshot::level_text;
use crate::gpio::mock::snapshot::logical_value;
use crate::gpio::mock::snapshot::physical_level;
use crate::gpio::mock::snapshot::ChipModel;
use crate::gpio::mock::snapshot::LineLevel;
use crate::gpio::mock::snapshot::LineModel;
use crate::gpio::mock::state::ChipStateModel;
use crate::gpio::mock::state::RegistrationModel;
use crate::gpio::mock::xml::read_back;
use crate::gpio::traits::LineConfig;
use crate::gpio::traits::LineInfoModel;
use crate::gpio::traits::RequestConfig;
use crate::number::decimal;

verus! {

// ---------------------------------------------------------------------------
// Levels and values
// ---------------------------------------------------------------------------

/// Whether a value is active at a level: at the high level, and at the low level where the line
/// is inverted.
pub open spec fn active_at(level: LineLevel, active_low: bool) -> bool {
    match level {
        LineLevel::High => !active_low,
        LineLevel::Low => active_low,
    }
}

/// A high line is active and a low line is inactive, and the other way round where the line is
/// inverted. The levels are written `H` and `L`, and no other text is a level.
pub proof fn levels_are_values(level: LineLevel, value: LineValue, active_low: bool)
    ensures
        logical_value(level, active_low) == LineValue::Active <==> active_at(level, active_low),
        value == LineValue::Active <==> active_at(physical_level(value, active_low), active_low),
        level_text(LineLevel::High) == "H"@,
        level_text(LineLevel::Low) == "L"@,
        level_of_text("H"@) == Some(LineLevel::High),
        level_of_text("L"@) == Some(LineLevel::Low),
        forall|text: Seq<char>| #[trigger] level_of_text(text) is Some ==> text == "H"@ || text
            == "L"@,
{
    reveal_strlit("H");
    reveal_strlit("L");
    assert("H"@[0] != "L"@[0]);
}

// ---------------------------------------------------------------------------
// Requesting lines
// ---------------------------------------------------------------------------

/// Once lines are requested, each has what was asked of it: its polarity and its consumer, the
/// direction, where one was asked for, the drive of an output, the bias of an input, where one
/// was asked for. An output that is given a value is at the level of that value. Its name, and
/// what was not asked for, stay. Lines that were not requested stay as they are.
pub proof fn requested_lines_have_what_was_asked(
    state: ChipStateModel,
    config: MockLineConfig,
    consumer: Seq<char>,
    offset: u32,
)
    requires
        request_outcome(state, config, consumer).1 is Ok,
        state.chip.lines.contains_key(offset),
    ensures
        ({
            let before = state.chip.lines[offset];
            let outcome = request_outcome(state, config, consumer).0;
            let after = outcome.chip.lines[offset];
            let asked = state_at(config.lines(), offset);
            &&& outcome.chip.lines.dom() == state.chip.lines.dom()
            &&& outcome.chip.name == state.chip.name
            &&& outcome.chip.label == state.chip.label
            &&& outcome.requests == state.requests
            &&& !config.offsets().contains(offset) ==> after == before
            &&& config.offsets().contains(offset) ==> {
                &&& after.name == before.name
                &&& after.consumer == consumer
                &&& after.active_low == asked.active_low
                &&& asked.direction == LineDirection::Output ==> after.direction
                    == LineDirection::Output
                &&& asked.direction == LineDirection::Input ==> after.direction
                    == LineDirection::Input
                &&& asked.direction == LineDirection::AsIs ==> after.direction == before.direction
                &&& after.direction == LineDirection::Output ==> after.drive == asked.drive
                    && after.bias == before.bias
                &&& after.direction != LineDirection::Output ==> after.drive == before.drive
                &&& after.direction == LineDirection::Input && asked.bias != LineBias::AsIs
                    ==> after.bias == asked.bias
                &&& asked.bias == LineBias::AsIs ==> after.bias == before.bias
                &&& after.direction == LineDirection::Output && config.overrides() is None && (
                asked.output_value matches Some(value)) ==> active_at(
                    after.level,
                    asked.active_low,
                ) == (asked.output_value == Some(LineValue::Active))
                &&& after.direction != LineDirection::Output ==> after.level == before.level
                &&& config.overrides() is None && asked.output_value is None ==> after.level
                    == before.level
            }
        }),
{
    let outcome = request_outcome(state, config, consumer).0;
    assert(outcome.chip.lines.dom() =~= state.chip.lines.dom());
    lemma_no_conflict(state, config.offsets());
}

/// Values that are given with a request as a whole are driven onto its lines in the order of
/// the lines, in place of those in the settings of the lines.
pub proof fn values_of_a_request_come_first(
    state: ChipStateModel,
    config: MockLineConfig,
    consumer: Seq<char>,
    index: int,
)
    requires
        request_outcome(state, config, consumer).1 is Ok,
        config.offsets().no_duplicates(),
        0 <= index < config.offsets().len(),
        config.overrides() matches Some(values) && index < values.len(),
        state_at(config.lines(), config.offsets()[index]).direction == LineDirection::Output,
    ensures
        ({
            let offset = config.offsets()[index];
            let after = request_outcome(state, config, consumer).0.chip.lines[offset];
            active_at(after.level, state_at(config.lines(), offset).active_low) == (
            config.overrides()->Some_0[index] == LineValue::Active)
        }),
{
    lemma_no_conflict(state, config.offsets());
    let offset = config.offsets()[index];
    assert(config.offsets().contains(offset));
    let first = config.offsets().index_of(offset);
    assert(config.offsets()[first] == offset);
}

/// The document that is written for a request says of each requested line what was asked of it:
/// direction and drive of an output, direction and bias of an input, polarity and consumer.
pub proof fn request_is_written_to_the_document(
    state: ChipStateModel,
    config: MockLineConfig,
    consumer: Seq<char>,
    offset: u32,
)
    requires
        request_outcome(state, config, consumer).1 is Ok,
        state.chip.lines.dom().finite(),
        state.chip.lines.contains_key(offset),
        state.chip.name.len() > 0,
        plain_chip(request_outcome(state, config, consumer).0.chip),
        config.offsets().contains(offset),
    ensures
        ({
            let chip = request_outcome(state, config, consumer).0.chip;
            let loaded = load_events(load_begin(), read_back(chip_nodes(chip)->Ok_0, 0, false));
            let written = loaded->Ok_0.lines[offset];
            let asked = state_at(config.lines(), offset);
            &&& loaded is Ok
            &&& loaded->Ok_0.lines.contains_key(offset)
            &&& written.consumer == consumer
            &&& written.active_low == asked.active_low
            &&& written.name == state.chip.lines[offset].name
            &&& asked.direction == LineDirection::Output ==> written.direction
                == LineDirection::Output && written.drive == asked.drive
            &&& asked.direction == LineDirection::Input ==> written.direction
                == LineDirection::Input
            &&& asked.direction == LineDirection::Input && asked.bias != LineBias::AsIs
                ==> written.bias == asked.bias
            &&& written.level == chip.lines[offset].level
        }),
{
    let chip = request_outcome(state, config, consumer).0.chip;
    requested_lines_have_what_was_asked(state, config, consumer, offset);
    assert(chip.lines.dom() == state.chip.lines.dom());
    saved_chip_loads_back(chip);
    assert(chip.lines.contains_key(offset));
}

/// A request is granted only for lines of the chip that no other request holds, and it holds
/// these lines in the order of its configuration, under its consumer, with an empty queue. A
/// request for no line is refused.
pub proof fn granted_requests_hold_free_lines(
    state: ChipStateModel,
    config: MockLineConfig,
    consumer: Seq<char>,
)
    requires
        request_outcome(state, config, consumer).1 is Ok,
    ensures
        ({
            let granted = request_outcome(state, config, consumer).1->Ok_0;
            &&& config.offsets().len() > 0
            &&& forall|i: int|
                #![trigger config.offsets()[i]]
                0 <= i < config.offsets().len() ==> state.chip.lines.contains_key(
                    config.offsets()[i],
                ) && !state.in_use(config.offsets()[i])
            &&& granted.offsets == config.offsets()
            &&& granted.consumer == consumer
            &&& granted.pending.len() == 0
            &&& granted.global_seqno == 0
            &&& granted.line_seqno.dom() == Set::<u32>::empty()
            &&& !granted.closed
            &&& forall|i: int|
                #![trigger config.offsets()[i]]
                0 <= i < config.offsets().len() ==> granted.settings.contains_key(
                    config.offsets()[i],
                ) && granted.settings[config.offsets()[i]] == state_at(
                    config.lines(),
                    config.offsets()[i],
                )
        }),
{
    lemma_no_conflict(state, config.offsets());
    let granted = request_outcome(state, config, consumer).1->Ok_0;
    assert(granted.line_seqno.dom() =~= Set::<u32>::empty());
    assert forall|i: int| #![trigger config.offsets()[i]] 0 <= i < config.offsets().len() implies
        granted.settings.contains_key(config.offsets()[i]) by {
        assert(config.offsets().contains(config.offsets()[i]));
    }
}

/// A request is refused as it should be: for no line at all, for the first of its lines that
/// the chip does not have or that another request holds. Nothing changes then. Otherwise only
/// a chip that cannot be written stands in its way.
pub proof fn refused_requests_name_their_fault(
    state: ChipStateModel,
    config: MockLineConfig,
    consumer: Seq<char>,
)
    ensures
        ({
            let (after, result) = request_outcome(state, config, consumer);
            let offsets = config.offsets();
            &&& offsets.len() == 0 ==> result == Err::<RegistrationModel, GPIOErrorModel>(
                GPIOErrorModel::EmptyLineConfig,
            )
            &&& (exists|i: int|
                #![trigger offsets[i]]
                0 <= i < offsets.len() && (!state.chip.lines.contains_key(offsets[i])
                    || state.in_use(offsets[i]))) ==> {
                &&& after == state
                &&& exists|i: int|
                    #![trigger offsets[i]]
                    {
                        &&& 0 <= i < offsets.len()
                        &&& forall|j: int|
                            #![trigger offsets[j]]
                            0 <= j < i ==> state.chip.lines.contains_key(offsets[j])
                                && !state.in_use(offsets[j])
                        &&& if !state.chip.lines.contains_key(offsets[i]) {
                            result == Err::<RegistrationModel, GPIOErrorModel>(
                                GPIOErrorModel::InvalidOffset(offsets[i]),
                            )
                        } else {
                            state.in_use(offsets[i]) && result == Err::<RegistrationModel, GPIOErrorModel>(
                                GPIOErrorModel::Other(
                                    "line offset "@ + decimal(offsets[i] as nat)
                                        + " is already requested"@,
                                ),
                            )
                        }
                    }
            }
            &&& offsets.len() > 0 && (forall|i: int|
                #![trigger offsets[i]]
                0 <= i < offsets.len() ==> state.chip.lines.contains_key(offsets[i])
                    && !state.in_use(offsets[i])) ==> (result is Ok <==> chip_nodes(
                after.chip,
            ) is Ok)
        }),
{
    let offsets = config.offsets();
    lemma_conflict(state, offsets);
    if first_conflict(state, offsets) is None {
        lemma_no_conflict(state, offsets);
    }
}

proof fn lemma_conflict(state: ChipStateModel, offsets: Seq<u32>)
    ensures
        first_conflict(state, offsets) matches Some(error) ==> exists|i: int|
            #![trigger offsets[i]]
            {
                &&& 0 <= i < offsets.len()
                &&& forall|j: int|
                    #![trigger offsets[j]]
                    0 <= j < i ==> state.chip.lines.contains_key(offsets[j]) && !state.in_use(
                        offsets[j],
                    )
                &&& if !state.chip.lines.contains_key(offsets[i]) {
                    error == GPIOErrorModel::InvalidOffset(offsets[i])
                } else {
                    state.in_use(offsets[i]) && error == GPIOErrorModel::Other(
                        "line offset "@ + decimal(offsets[i] as nat) + " is already requested"@,
                    )
                }
            },
    decreases offsets.len(),
{
    if offsets.len() > 0 {
        let front = offsets.drop_last();
        lemma_conflict(state, front);
        if let Some(error) = first_conflict(state, front) {
            let i = choose|i: int|
                #![trigger front[i]]
                {
                    &&& 0 <= i < front.len()
                    &&& forall|j: int|
                        #![trigger front[j]]
                        0 <= j < i ==> state.chip.lines.contains_key(front[j]) && !state.in_use(
                            front[j],
                        )
                    &&& if !state.chip.lines.contains_key(front[i]) {
                        error == GPIOErrorModel::InvalidOffset(front[i])
                    } else {
                        state.in_use(front[i]) && error == GPIOErrorModel::Other(
                            "line offset "@ + decimal(front[i] as nat)
                                + " is already requested"@,
                        )
                    }
                };
            assert(offsets[i] == front[i]);
            assert forall|j: int| #![trigger offsets[j]] 0 <= j < i implies
                state.chip.lines.contains_key(offsets[j]) && !state.in_use(offsets[j]) by {
                assert(front[j] == offsets[j]);
            }
        } else {
            lemma_no_conflict(state, front);
            let i = offsets.len() - 1;
            assert forall|j: int| #![trigger offsets[j]] 0 <= j < i implies
                state.chip.lines.contains_key(offsets[j]) && !state.in_use(offsets[j]) by {
                assert(front[j] == offsets[j]);
            }
            assert(offsets[i] == offsets.last());
        }
    }
}

/// Releasing a request takes it off the chip and clears the consumer of its lines. Nothing else
/// changes: no other request, no other line, and of its lines nothing but the consumer.
/// Releasing what is no request changes nothing.
pub proof fn releasing_changes_consumers_only(state: ChipStateModel, id: u64, offset: u32)
    requires
        state.chip.lines.contains_key(offset),
    ensures
        ({
            let after = released_state(state, id);
            &&& !state.requests.contains_key(id) ==> after == state
            &&& after.requests == state.requests.remove(id)
            &&& after.next_request_id == state.next_request_id
            &&& after.chip.lines.dom() == state.chip.lines.dom()
            &&& after.chip.lines[offset] == if state.requests.contains_key(id)
                && state.requests[id].offsets.contains(offset) {
                LineModel { consumer: Seq::empty(), ..state.chip.lines[offset] }
            } else {
                state.chip.lines[offset]
            }
        }),
{
    let after = released_state(state, id);
    assert(after.chip.lines.dom() =~= state.chip.lines.dom());
    assert(after.requests =~= state.requests.remove(id));
}

// ---------------------------------------------------------------------------
// Reading and driving
// ---------------------------------------------------------------------------

/// Whether an open request holds a line of the chip.
pub open spec fn held_by(state: ChipStateModel, id: u64, offset: u32) -> bool {
    &&& state.requests.contains_key(id)
    &&& !state.requests[id].closed
    &&& state.requests[id].offsets.contains(offset)
    &&& state.requests[id].settings.contains_key(offset)
    &&& state.chip.lines.contains_key(offset)
}

/// A line can be read through a request exactly where the request is open and holds it, and
/// reads as active exactly where its level is that of an active line under the polarity that
/// the request asked for. A closed request reads nothing, and a line that it does not hold is
/// not configured.
pub proof fn lines_read_as_their_levels(state: ChipStateModel, id: u64, offset: u32)
    ensures
        value_at(state, id, offset) is Ok <==> held_by(state, id, offset),
        held_by(state, id, offset) ==> (value_at(state, id, offset)->Ok_0 == LineValue::Active
            <==> active_at(
            state.chip.lines[offset].level,
            state.requests[id].settings[offset].active_low,
        )),
        !state.requests.contains_key(id) || state.requests[id].closed ==> value_at(
            state,
            id,
            offset,
        ) == Err::<LineValue, GPIOErrorModel>(GPIOErrorModel::Closed),
        state.requests.contains_key(id) && !state.requests[id].closed
            && !state.requests[id].offsets.contains(offset) ==> value_at(state, id, offset)
            == Err::<LineValue, GPIOErrorModel>(GPIOErrorModel::UnconfiguredOffset { offset }),
{
}

/// Lines are read one by one, in the order in which they are named.
pub proof fn many_lines_read_as_one_by_one(state: ChipStateModel, id: u64, offsets: Seq<u32>)
    ensures
        values_at(state, id, offsets) matches Ok(values) ==> {
            &&& values.len() == offsets.len()
            &&& forall|i: int|
                #![trigger offsets[i]]
                0 <= i < offsets.len() ==> value_at(state, id, offsets[i]) == Ok::<
                    LineValue,
                    GPIOErrorModel,
                >(values[i])
        },
        values_at(state, id, offsets) is Ok <==> forall|i: int|
            #![trigger offsets[i]]
            0 <= i < offsets.len() ==> value_at(state, id, offsets[i]) is Ok,
    decreases offsets.len(),
{
    if offsets.len() > 0 {
        let front = offsets.drop_last();
        many_lines_read_as_one_by_one(state, id, front);
        assert(offsets.last() == offsets[offsets.len() - 1]);
        assert(forall|i: int| #![trigger front[i]] 0 <= i < front.len() ==> front[i] == offsets[i]);
        if values_at(state, id, offsets) is Ok {
            assert forall|i: int| #![trigger offsets[i]] 0 <= i < offsets.len() implies value_at(
                state,
                id,
                offsets[i],
            ) == Ok::<LineValue, GPIOErrorModel>(values_at(state, id, offsets)->Ok_0[i]) by {
                if i < front.len() {
                    assert(front[i] == offsets[i]);
                }
            }
        }
        if forall|i: int|
            #![trigger offsets[i]]
            0 <= i < offsets.len() ==> value_at(state, id, offsets[i]) is Ok {
            assert forall|i: int| #![trigger front[i]] 0 <= i < front.len() implies value_at(
                state,
                id,
                front[i],
            ) is Ok by {
                assert(front[i] == offsets[i]);
            }
        }
    }
}

/// Whether an open request holds a line as an output.
pub open spec fn drivable_by(state: ChipStateModel, id: u64, offset: u32) -> bool {
    &&& held_by(state, id, offset)
    &&& state.requests[id].settings[offset].direction == LineDirection::Output || (
    state.requests[id].settings[offset].direction == LineDirection::AsIs
        && state.chip.lines[offset].direction == LineDirection::Output)
}

proof fn lemma_levels(state: ChipStateModel, id: u64, offsets: Seq<u32>, values: Seq<LineValue>)
    ensures
        levels_for(state, id, offsets, values) is Ok <==> forall|i: int|
            #![trigger offsets[i]]
            0 <= i < offsets.len() ==> drivable_by(state, id, offsets[i]),
        levels_for(state, id, offsets, values) matches Ok(levels) ==> {
            &&& levels.len() == offsets.len()
            &&& forall|i: int|
                #![trigger offsets[i]]
                0 <= i < offsets.len() ==> (active_at(
                    levels[i],
                    state.requests[id].settings[offsets[i]].active_low,
                ) <==> values[i] == LineValue::Active)
        },
    decreases offsets.len(),
{
    if offsets.len() > 0 {
        let front = offsets.drop_last();
        lemma_levels(state, id, front, values);
        assert(offsets.last() == offsets[offsets.len() - 1]);
        assert(write_target(state, id, offsets.last()) is Ok <==> drivable_by(
            state,
            id,
            offsets.last(),
        ));
        assert(forall|i: int| #![trigger front[i]] 0 <= i < front.len() ==> front[i] == offsets[i]);
        if levels_for(state, id, offsets, values) is Ok {
            let levels = levels_for(state, id, offsets, values)->Ok_0;
            assert forall|i: int| #![trigger offsets[i]] 0 <= i < offsets.len() implies drivable_by(
                state,
                id,
                offsets[i],
            ) && (active_at(levels[i], state.requests[id].settings[offsets[i]].active_low)
                <==> values[i] == LineValue::Active) by {
                if i < front.len() {
                    assert(front[i] == offsets[i]);
                }
            }
        }
        if forall|i: int|
            #![trigger offsets[i]]
            0 <= i < offsets.len() ==> drivable_by(state, id, offsets[i]) {
            assert forall|i: int| #![trigger front[i]] 0 <= i < front.len() implies drivable_by(
                state,
                id,
                front[i],
            ) by {
                assert(front[i] == offsets[i]);
            }
        }
    }
}

proof fn lemma_put(chip: ChipModel, offsets: Seq<u32>, levels: Seq<LineLevel>, index: int)
    requires
        0 <= index < offsets.len(),
        offsets.len() <= levels.len(),
        forall|j: int| index < j < offsets.len() ==> #[trigger] offsets[j] != offsets[index],
    ensures
        with_all_levels(chip, offsets, levels).lines[offsets[index]].level == levels[index],
    decreases offsets.len(),
{
    let last = offsets.len() - 1;
    if index < last {
        let front = offsets.drop_last();
        assert(front[index] == offsets[index]);
        assert(forall|j: int| index < j < front.len() ==> #[trigger] front[j] == offsets[j]);
        lemma_put(chip, front, levels, index);
        assert(offsets[last] != offsets[index]);
    }
}

/// Lines can be driven through a request exactly where the request is open and holds all of
/// them as outputs; otherwise nothing changes. A driven line is at the level of its value under
/// the polarity that the request asked for. Where a line is named more than once its last value
/// counts.
pub proof fn driven_lines_are_at_their_values(
    state: ChipStateModel,
    request: MockLineRequest,
    offsets: Seq<u32>,
    values: Seq<LineValue>,
    index: int,
)
    requires
        offsets.len() == values.len(),
        0 <= index < offsets.len(),
        forall|j: int| index < j < offsets.len() ==> #[trigger] offsets[j] != offsets[index],
        state.requests.contains_key(request.request_id) ==> request.offsets@
            == state.requests[request.request_id].offsets,
    ensures
        ({
            let id = request.request_id;
            let (after, result) = subset_outcome(state, request, offsets, values);
            let drivable = forall|i: int|
                #![trigger offsets[i]]
                0 <= i < offsets.len() ==> drivable_by(state, id, offsets[i]);
            &&& !drivable ==> after == state && result is Err
            &&& drivable ==> {
                &&& result is Ok <==> chip_nodes(after.chip) is Ok
                &&& active_at(
                    after.chip.lines[offsets[index]].level,
                    state.requests[id].settings[offsets[index]].active_low,
                ) <==> values[index] == LineValue::Active
            }
        }),
{
    let id = request.request_id;
    lemma_levels(state, id, offsets, values);
    lemma_foreign(offsets, request.offsets@);
    let drivable = forall|i: int|
        #![trigger offsets[i]]
        0 <= i < offsets.len() ==> drivable_by(state, id, offsets[i]);
    if drivable {
        assert(drivable_by(state, id, offsets[index]));
        assert forall|i: int| 0 <= i < offsets.len() implies request.offsets@.contains(
            #[trigger] offsets[i],
        ) by {
            assert(drivable_by(state, id, offsets[i]));
        }
        let levels = levels_for(state, id, offsets, values)->Ok_0;
        lemma_put(state.chip, offsets, levels, index);
    }
}

proof fn lemma_foreign(offsets: Seq<u32>, known: Seq<u32>)
    ensures
        first_foreign(offsets, known) is None <==> forall|i: int|
            0 <= i < offsets.len() ==> known.contains(#[trigger] offsets[i]),
        first_foreign(offsets, known) matches Some(offset) ==> exists|i: int|
            #![trigger offsets[i]]
            0 <= i < offsets.len() && offsets[i] == offset && !known.contains(offset),
    decreases offsets.len(),
{
    if offsets.len() > 0 {
        let rest = offsets.drop_first();
        lemma_foreign(rest, known);
        assert(forall|i: int| 0 <= i < rest.len() ==> #[trigger] rest[i] == offsets[i + 1]);
        if known.contains(offsets[0]) {
            if let Some(offset) = first_foreign(rest, known) {
                let i = choose|i: int|
                    #![trigger rest[i]]
                    0 <= i < rest.len() && rest[i] == offset && !known.contains(offset);
                assert(offsets[i + 1] == offset);
            } else {
                assert forall|i: int| 0 <= i < offsets.len() implies known.contains(
                    #[trigger] offsets[i],
                ) by {
                    if i > 0 {
                        assert(rest[i - 1] == offsets[i]);
                    }
                }
            }
        }
    }
}

/// A write is refused for what is wrong with it: for a number of values that is not that of the
/// lines, for a line that is not of the request, for a request that is closed, for a line that
/// is no output.
pub proof fn refused_writes_name_their_fault(
    state: ChipStateModel,
    request: MockLineRequest,
    offsets: Seq<u32>,
    values: Seq<LineValue>,
)
    ensures
        ({
            let id = request.request_id;
            let (after, result) = subset_outcome(state, request, offsets, values);
            &&& offsets.len() != values.len() ==> after == state && result == Err::<
                Seq<char>,
                GPIOErrorModel,
            >(
                GPIOErrorModel::LengthMismatch {
                    expected: offsets.len() as usize,
                    actual: values.len() as usize,
                },
            )
            &&& offsets.len() == values.len() && (exists|i: int|
                0 <= i < offsets.len() && !request.offsets@.contains(#[trigger] offsets[i])) ==> {
                &&& after == state
                &&& exists|i: int|
                    #![trigger offsets[i]]
                    0 <= i < offsets.len() && !request.offsets@.contains(offsets[i]) && result
                        == Err::<Seq<char>, GPIOErrorModel>(
                        GPIOErrorModel::UnconfiguredOffset { offset: offsets[i] },
                    )
            }
            &&& offsets.len() == values.len() && (forall|i: int|
                0 <= i < offsets.len() ==> request.offsets@.contains(#[trigger] offsets[i])) && (
            !state.requests.contains_key(id) || state.requests[id].closed) ==> after == state
                && result == Err::<Seq<char>, GPIOErrorModel>(GPIOErrorModel::Closed)
            &&& offsets.len() == 1 && values.len() == 1 && request.offsets@.contains(offsets[0])
                && held_by(state, id, offsets[0]) && !drivable_by(state, id, offsets[0]) ==> after
                == state && result == Err::<Seq<char>, GPIOErrorModel>(
                GPIOErrorModel::Other(
                    "write to non-output line at offset "@ + decimal(offsets[0] as nat),
                ),
            )
        }),
{
    lemma_foreign(offsets, request.offsets@);
    if offsets.len() == 1 {
        assert(offsets.drop_last() =~= Seq::<u32>::empty());
        reveal_with_fuel(levels_for, 2);
        assert(offsets.last() == offsets[0]);
        assert forall|i: int| 0 <= i < offsets.len() && request.offsets@.contains(
            offsets[0],
        ) implies request.offsets@.contains(#[trigger] offsets[i]) by {}
    }
    if let Some(offset) = first_foreign(offsets, request.offsets@) {
        let i = choose|i: int|
            #![trigger offsets[i]]
            0 <= i < offsets.len() && offsets[i] == offset && !request.offsets@.contains(offset);
        assert(!request.offsets@.contains(offsets[i]));
    }
}

/// What is written after lines were driven is a document of the chip as it then is.
pub proof fn driven_levels_are_written_to_the_document(
    state: ChipStateModel,
    request: MockLineRequest,
    offsets: Seq<u32>,
    values: Seq<LineValue>,
    offset: u32,
)
    requires
        subset_outcome(state, request, offsets, values).1 is Ok,
        state.chip.lines.contains_key(offset),
        state.chip.lines.dom().finite(),
        state.chip.name.len() > 0,
        plain_chip(subset_outcome(state, request, offsets, values).0.chip),
    ensures
        ({
            let chip = subset_outcome(state, request, offsets, values).0.chip;
            let loaded = load_events(load_begin(), read_back(chip_nodes(chip)->Ok_0, 0, false));
            &&& loaded is Ok
            &&& loaded->Ok_0.lines.contains_key(offset)
            &&& loaded->Ok_0.lines[offset].level == chip.lines[offset].level
            &&& loaded->Ok_0.lines[offset].direction == state.chip.lines[offset].direction
            &&& loaded->Ok_0.lines[offset].name == state.chip.lines[offset].name
            &&& loaded->Ok_0.lines[offset].consumer == state.chip.lines[offset].consumer
            &&& loaded->Ok_0.lines[offset].active_low == state.chip.lines[offset].active_low
        }),
{
    let chip = subset_outcome(state, request, offsets, values).0.chip;
    crate::gpio::mock::state_laws::driving_changes_levels_only(
        state,
        request.request_id,
        offsets,
        values,
        offset,
    );
    assert(chip.name == state.chip.name) by {
        lemma_same_name(
            state.chip,
            offsets,
            levels_for(state, request.request_id, offsets, values)->Ok_0,
        );
    }
    saved_chip_loads_back(chip);
    assert(chip.lines.contains_key(offset));
}

proof fn lemma_same_name(chip: ChipModel, offsets: Seq<u32>, levels: Seq<LineLevel>)
    ensures
        with_all_levels(chip, offsets, levels).name == chip.name,
        with_all_levels(chip, offsets, levels).label == chip.label,
    decreases offsets.len(),
{
    if offsets.len() > 0 {
        lemma_same_name(chip, offsets.drop_last(), levels);
    }
}

/// A read of events takes as many as it can: no more than there are, than were asked for and
/// than fit, and one of these three many.
pub proof fn reads_take_as_many_events_as_they_can(
    pending: nat,
    max_events: usize,
    capacity: usize,
)
    ensures
        read_count(pending, max_events, capacity) <= pending,
        read_count(pending, max_events, capacity) <= max_events,
        read_count(pending, max_events, capacity) <= capacity,
        read_count(pending, max_events, capacity) == pending || read_count(
            pending,
            max_events,
            capacity,
        ) == max_events || read_count(pending, max_events, capacity) == capacity,
{
}

// ---------------------------------------------------------------------------
// What is said of a line
// ---------------------------------------------------------------------------

/// What a chip says of a line that nobody holds is what is persisted of it; only inputs have a
/// bias.
pub proof fn free_lines_are_described_as_persisted(
    state: ChipStateModel,
    offset: u32,
    info: LineInfoModel,
)
    requires
        state.chip.lines.contains_key(offset),
        !state.in_use(offset),
        line_info_of(state, offset, info),
    ensures
        ({
            let line = state.chip.lines[offset];
            &&& info.offset == offset
            &&& info.name == if line.name.len() == 0 {
                None
            } else {
                Some(line.name)
            }
            &&& !info.used
            &&& info.consumer is None
            &&& info.direction == line.direction
            &&& info.edge == LineEdge::NoEdge
            &&& line.direction == LineDirection::Input ==> info.bias == line.bias
            &&& line.direction != LineDirection::Input ==> info.bias == LineBias::Unknown
            &&& info.drive == line.drive
            &&& info.active_low == line.active_low
            &&& !info.debounced
            &&& info.debounce_period_us == 0
        }),
{
}

/// What a chip says of a line that a request holds is what the request asks of it, and what is
/// persisted where the request leaves it as it is.
pub proof fn held_lines_are_described_as_requested(
    state: ChipStateModel,
    id: u64,
    offset: u32,
    info: LineInfoModel,
)
    requires
        state.wf(),
        state.chip.lines.contains_key(offset),
        state.requests.contains_key(id),
        !state.requests[id].closed,
        state.requests[id].offsets.contains(offset),
        line_info_of(state, offset, info),
    ensures
        ({
            let line = state.chip.lines[offset];
            let asked = state.requests[id].settings[offset];
            let consumer = state.requests[id].consumer;
            &&& info.offset == offset
            &&& info.name == if line.name.len() == 0 {
                None
            } else {
                Some(line.name)
            }
            &&& info.used
            &&& info.consumer == if consumer.len() == 0 {
                None
            } else {
                Some(consumer)
            }
            &&& info.direction == if asked.direction == LineDirection::AsIs {
                line.direction
            } else {
                asked.direction
            }
            &&& info.edge == asked.edge
            &&& info.direction != LineDirection::Input ==> info.bias == LineBias::Unknown
            &&& info.direction == LineDirection::Input && asked.bias == LineBias::AsIs
                ==> info.bias == line.bias
            &&& info.direction == LineDirection::Input && asked.bias != LineBias::AsIs
                ==> info.bias == asked.bias
            &&& info.drive == asked.drive
            &&& info.active_low == asked.active_low
            &&& info.debounced <==> asked.debounce_period_us > 0
            &&& info.debounce_period_us == asked.debounce_period_us
            &&& info.event_clock == asked.event_clock
        }),
{
    assert(state.requests[id].holds(offset));
    assert(state.in_use(offset));
}

/// Events are taken from the front of the queue of a request, in order; what is left stays, and
/// so do the other requests and the chip.
pub proof fn events_are_taken_from_the_front(state: ChipStateModel, id: u64, count: int)
    requires
        state.requests.contains_key(id),
        0 <= count <= state.requests[id].pending.len(),
    ensures
        ({
            let after = drained(state, id, count);
            let before = state.requests[id];
            &&& state.requests[id].pending.take(count) + after.requests[id].pending
                == before.pending
            &&& after.requests[id].offsets == before.offsets
            &&& after.requests[id].settings == before.settings
            &&& after.requests[id].closed == before.closed
            &&& forall|other: u64|
                other != id ==> (#[trigger] after.requests.contains_key(other)
                    <==> state.requests.contains_key(other)) && after.requests[other]
                    == state.requests[other]
            &&& after.chip == state.chip
        }),
{
    let before = state.requests[id];
    assert(before.pending.take(count) + before.pending.skip(count) =~= before.pending);
}

/// A read that fails leaves the values of the lines in front of the first that cannot be read,
/// and what stood there before for the others.
pub proof fn failed_reads_keep_what_was_read(
    state: ChipStateModel,
    id: u64,
    offsets: Seq<u32>,
    values: Seq<LineValue>,
    index: int,
)
    requires
        offsets.len() <= values.len(),
        0 <= index < values.len(),
    ensures
        values_kept(state, id, offsets, values).len() == values.len(),
        index < offsets.len() && values_at(state, id, offsets.take(index + 1)) is Ok
            ==> value_at(state, id, offsets[index]) == Ok::<LineValue, GPIOErrorModel>(
            values_kept(state, id, offsets, values)[index],
        ),
        index >= offsets.len() || values_at(state, id, offsets.take(index + 1)) is Err
            ==> values_kept(state, id, offsets, values)[index] == values[index],
    decreases offsets.len(),
{
    many_lines_read_as_one_by_one(state, id, offsets);
    let front = offsets.drop_last();
    match values_at(state, id, offsets) {
        Ok(read) => {
            if index < offsets.len() {
                many_lines_read_as_one_by_one(state, id, offsets.take(index + 1));
                assert(forall|i: int|
                    0 <= i < index + 1 ==> #[trigger] offsets.take(index + 1)[i] == offsets[i]);
                assert(value_at(state, id, offsets[index]) is Ok);
            }
        },
        Err(_) => {
            if offsets.len() > 0 {
                failed_reads_keep_what_was_read(state, id, front, values, index);
                if index < front.len() {
                    assert(front.take(index + 1) =~= offsets.take(index + 1));
                } else if index == front.len() {
                    assert(offsets.take(index + 1) =~= offsets);
                }
            }
        },
    }
}

/// A request without a configuration of its own has no consumer.
pub proof fn consumers_come_from_the_configuration(config: &MockRequestConfig)
    ensures
        request_consumer(None) == Seq::<char>::empty(),
        request_consumer(Some(config)) == config.consumer(),
{
}

} // verus!

//! Requesting and describing the lines of an open mock chip.

use std::collections::BTreeMap;
use std::collections::VecDeque;
use vstd::prelude::*;
use vstd::string::StringExecFns;

use crate::gpio::libgpiod::GPIOError;
use crate::gpio::libgpiod::GPIOErrorModel;
use crate::gpio::libgpiod::LineDirection;
use crate::gpio::libgpiod::LineValue;
use crate::gpio::mock::config::line_offsets;
use crate::gpio::mock::config::state_at;
use crate::gpio::mock::config::MockLineConfig;
use crate::gpio::mock::config::MockRequestConfig;
use crate::gpio::mock::config::MockRequestLineState;
use crate::gpio::mock::document::serialize_chip_xml;
use crate::gpio::mock::info::effective_direction;
use crate::gpio::mock::info::free_line_info;
use crate::gpio::mock::info::held_line_info;
use crate::gpio::mock::info::requested_direction;
use crate::gpio::mock::info::MockLineInfo;
use crate::gpio::mock::request::MockLineRequest;
use crate::gpio::mock::save::chip_nodes;
use crate::gpio::mock::snapshot::physical_level;
use crate::gpio::mock::snapshot::ChipModel;
use crate::gpio::mock::snapshot::LineModel;
use crate::gpio::mock::snapshot::MockChipSnapshot;
use crate::gpio::mock::state::apply_persisted_metadata;
use crate::gpio::mock::state::find_request_for_offset;
use crate::gpio::mock::state::offset_in_use;
use crate::gpio::mock::state::requested_line;
use crate::gpio::mock::state::to_physical_value;
use crate::gpio::mock::state::ChipStateModel;
use crate::gpio::mock::state::MockChipState;
use crate::gpio::mock::state::RegistrationModel;
use crate::gpio::mock::state::RequestId;
use crate::gpio::mock::state::RequestRegistration;
use crate::gpio::mock::xml::xml_text;
use crate::gpio::traits::EdgeModel;
use crate::gpio::traits::LineConfig;
use crate::gpio::traits::LineInfo;
use crate::gpio::traits::LineInfoModel;
use crate::gpio::traits::RequestConfig;
use crate::keys::ascending_offsets;
use crate::keys::offsets_in_order;
use crate::number::decimal;
use crate::number::number_text;
use crate::text::same_text;

verus! {

// ---------------------------------------------------------------------------
// Output values at request time
// ---------------------------------------------------------------------------

/// The output value that a request asks of its line at `index`: that set for the request as a
/// whole comes before that in the settings of the line.
pub open spec fn asked_value(
    overrides: Option<Seq<LineValue>>,
    index: int,
    request: MockRequestLineState,
) -> Option<LineValue> {
    match overrides {
        Some(values) => if index < values.len() {
            Some(values[index])
        } else {
            request.output_value
        },
        None => request.output_value,
    }
}

/// The line with the output value that a request asks of it. Only outputs take a value.
pub open spec fn driven_line(
    line: LineModel,
    request: MockRequestLineState,
    value: Option<LineValue>,
) -> LineModel {
    if requested_direction(request, line.direction) != LineDirection::Output {
        line
    } else {
        match value {
            Some(logical) => LineModel { level: physical_level(logical, request.active_low), ..line },
            None => line,
        }
    }
}

/// The lines once the first lines of a request have taken their output values, or why one of
/// them cannot.
pub open spec fn driven_lines(
    lines: Map<u32, LineModel>,
    offsets: Seq<u32>,
    overrides: Option<Seq<LineValue>>,
    settings: Map<u32, MockRequestLineState>,
) -> Result<Map<u32, LineModel>, GPIOErrorModel>
    decreases offsets.len(),
{
    if offsets.len() == 0 {
        Ok(lines)
    } else {
        match driven_lines(lines, offsets.drop_last(), overrides, settings) {
            Err(error) => Err(error),
            Ok(earlier) => {
                let offset = offsets.last();
                if !settings.contains_key(offset) {
                    Err(GPIOErrorModel::UnconfiguredOffset { offset })
                } else if !earlier.contains_key(offset) {
                    Err(GPIOErrorModel::InvalidOffset(offset))
                } else {
                    let request = settings[offset];
                    let value = asked_value(overrides, offsets.len() - 1, request);
                    Ok(earlier.insert(offset, driven_line(earlier[offset], request, value)))
                }
            },
        }
    }
}

proof fn lemma_driven_fault(
    lines: Map<u32, LineModel>,
    offsets: Seq<u32>,
    count: int,
    overrides: Option<Seq<LineValue>>,
    settings: Map<u32, MockRequestLineState>,
)
    requires
        0 <= count <= offsets.len(),
        driven_lines(lines, offsets.take(count), overrides, settings) is Err,
    ensures
        driven_lines(lines, offsets, overrides, settings) == driven_lines(
            lines,
            offsets.take(count),
            overrides,
            settings,
        ),
    decreases offsets.len(),
{
    if count == offsets.len() {
        assert(offsets.take(count) =~= offsets);
    } else {
        assert(offsets.drop_last().take(count) =~= offsets.take(count));
        lemma_driven_fault(lines, offsets.drop_last(), count, overrides, settings);
    }
}

/// The offsets of a request.
pub fn requested_offsets(line_cfg: &MockLineConfig) -> (offsets: Vec<u32>)
    ensures
        offsets@ == line_cfg.offsets(),
{
    let count: usize = line_cfg.get_num_configured_offsets();
    let mut offsets: Vec<u32> = Vec::new();
    let mut index: usize = 0;
    while index < count
        invariant
            index <= count,
            offsets@.len() == index,
        decreases count - index,
    {
        offsets.push(0);
        index += 1;
    }
    let filled: usize = line_cfg.get_configured_offsets(offsets.as_mut_slice());
    assert(offsets@ =~= line_cfg.offsets());
    offsets
}

/// Gives the output lines of a request the values that it asks of them. Says whether a level
/// changed.
pub fn apply_request_output_values(
    snapshot: &mut MockChipSnapshot,
    line_cfg: &MockLineConfig,
    line_settings: &BTreeMap<u32, MockRequestLineState>,
) -> (result: Result<bool, GPIOError>)
    requires
        line_cfg.wf(),
    ensures
        final(snapshot)@.name == old(snapshot)@.name,
        final(snapshot)@.label == old(snapshot)@.label,
        match (
            result,
            driven_lines(
                old(snapshot)@.lines,
                line_cfg.offsets(),
                line_cfg.overrides(),
                line_settings@,
            ),
        ) {
            (Ok(changed), Ok(lines)) => {
                &&& final(snapshot)@.lines == lines
                &&& changed == (lines != old(snapshot)@.lines)
            },
            (Err(error), Err(expected)) => error@ == expected && exists|count: int|
                0 <= count < line_cfg.offsets().len() && driven_lines(
                    old(snapshot)@.lines,
                    #[trigger] line_cfg.offsets().take(count),
                    line_cfg.overrides(),
                    line_settings@,
                ) == Ok::<Map<u32, LineModel>, GPIOErrorModel>(final(snapshot)@.lines),
            _ => false,
        },
{
    let offsets = requested_offsets(line_cfg);
    let override_values = line_cfg.configured_output_values();
    let ghost before = snapshot@.lines;
    let ghost overrides = line_cfg.overrides();
    let mut changed = false;
    let mut index: usize = 0;
    assert(offsets@.take(0) =~= Seq::<u32>::empty());
    while index < offsets.len()
        invariant
            index <= offsets.len(),
            offsets@ == line_cfg.offsets(),
            offsets@.no_duplicates(),
            overrides == line_cfg.overrides(),
            match (override_values, overrides) {
                (Some(found), Some(expected)) => found@ == expected,
                (None, None) => true,
                _ => false,
            },
            before == old(snapshot)@.lines,
            snapshot.name == old(snapshot).name,
            snapshot.label == old(snapshot).label,
            driven_lines(before, offsets@.take(index as int), overrides, line_settings@) == Ok::<
                Map<u32, LineModel>,
                GPIOErrorModel,
            >(snapshot@.lines),
            snapshot@.lines.dom() == before.dom(),
            forall|i: int|
                index <= i < offsets@.len() && before.contains_key(offsets@[i])
                    ==> snapshot@.lines[#[trigger] offsets@[i]] == before[offsets@[i]],
            !changed ==> snapshot@.lines == before,
            changed ==> exists|i: int|
                0 <= i < index && before.contains_key(offsets@[i])
                    && snapshot@.lines[#[trigger] offsets@[i]] != before[offsets@[i]],
        decreases offsets.len() - index,
    {
        let offset: u32 = offsets[index];
        let ghost earlier = snapshot@.lines;
        let ghost prefix = offsets@.take(index + 1);
        proof {
            assert(prefix.drop_last() =~= offsets@.take(index as int));
            if driven_lines(before, prefix, overrides, line_settings@) is Err {
                lemma_driven_fault(before, offsets@, index + 1, overrides, line_settings@);
            }
            assert(offsets@.take(offsets@.len() as int) =~= offsets@);
        }
        let request: MockRequestLineState = match line_settings.get(&offset) {
            Some(request) => *request,
            None => return Err(GPIOError::UnconfiguredOffset { offset }),
        };
        let mut line = match snapshot.lines.remove(&offset) {
            Some(line) => line,
            None => {
                assert(snapshot@.lines =~= earlier);
                return Err(GPIOError::InvalidOffset(offset));
            },
        };
        assert(before.contains_key(offsets@[index as int]));
        let ghost old_line = line@;
        let mut flipped = false;
        if effective_direction(&request, &line) == LineDirection::Output {
            let logical_value = match &override_values {
                Some(values) => if index < values.len() {
                    Some(values[index])
                } else {
                    request.output_value
                },
                None => request.output_value,
            };
            if let Some(logical) = logical_value {
                let physical = to_physical_value(logical, request.active_low);
                if line.persisted_level != physical {
                    line.persisted_level = physical;
                    flipped = true;
                }
            }
        }
        snapshot.lines.insert(offset, line);
        proof {
            let now = snapshot@.lines;
            assert(line@ == driven_line(
                old_line,
                request,
                asked_value(overrides, index as int, request),
            ));
            assert(now =~= earlier.insert(offset, line@));
            assert(now.dom() =~= before.dom());
            assert forall|i: int|
                index + 1 <= i < offsets@.len() && before.contains_key(
                    offsets@[i],
                ) implies now[#[trigger] offsets@[i]] == before[offsets@[i]] by {
                assert(offsets@[i] != offsets@[index as int]);
            }
            if flipped {
                assert(now[offsets@[index as int]] != before[offsets@[index as int]]);
            } else {
                assert(line@ == old_line);
                assert(now =~= earlier);
            }
            if changed {
                let i = choose|i: int|
                    0 <= i < index && before.contains_key(offsets@[i])
                        && earlier[#[trigger] offsets@[i]] != before[offsets@[i]];
                assert(offsets@[i] != offsets@[index as int]);
                assert(now[offsets@[i]] != before[offsets@[i]]);
            }
        }
        if flipped {
            changed = true;
        }
        index += 1;
    }
    assert(offsets@.take(index as int) =~= offsets@);
    Ok(changed)
}

// ---------------------------------------------------------------------------
// Requests
// ---------------------------------------------------------------------------

/// What a request asks of each of its lines.
pub open spec fn request_settings(lines: Seq<(u32, MockRequestLineState)>) -> Map<
    u32,
    MockRequestLineState,
> {
    Map::new(
        |offset: u32| line_offsets(lines).contains(offset),
        |offset: u32| state_at(lines, offset),
    )
}

/// Why a line cannot be requested, if it cannot.
pub open spec fn line_conflict(state: ChipStateModel, offset: u32) -> Option<GPIOErrorModel> {
    if !state.chip.lines.contains_key(offset) {
        Some(GPIOErrorModel::InvalidOffset(offset))
    } else if state.in_use(offset) {
        Some(
            GPIOErrorModel::Other(
                "line offset "@ + decimal(offset as nat) + " is already requested"@,
            ),
        )
    } else {
        None
    }
}

/// Why the first of these lines that cannot be requested cannot.
pub open spec fn first_conflict(state: ChipStateModel, offsets: Seq<u32>) -> Option<
    GPIOErrorModel,
>
    decreases offsets.len(),
{
    if offsets.len() == 0 {
        None
    } else {
        match first_conflict(state, offsets.drop_last()) {
            Some(error) => Some(error),
            None => line_conflict(state, offsets.last()),
        }
    }
}

proof fn lemma_first_conflict(state: ChipStateModel, offsets: Seq<u32>, count: int)
    requires
        0 <= count <= offsets.len(),
        first_conflict(state, offsets.take(count)) is Some,
    ensures
        first_conflict(state, offsets) == first_conflict(state, offsets.take(count)),
    decreases offsets.len(),
{
    if count == offsets.len() {
        assert(offsets.take(count) =~= offsets);
    } else {
        assert(offsets.drop_last().take(count) =~= offsets.take(count));
        lemma_first_conflict(state, offsets.drop_last(), count);
    }
}

/// Without a conflict every line exists and is free.
pub proof fn lemma_no_conflict(state: ChipStateModel, offsets: Seq<u32>)
    requires
        first_conflict(state, offsets) is None,
    ensures
        forall|i: int|
            0 <= i < offsets.len() ==> state.chip.lines.contains_key(#[trigger] offsets[i])
                && !state.in_use(offsets[i]),
    decreases offsets.len(),
{
    if offsets.len() > 0 {
        lemma_no_conflict(state, offsets.drop_last());
        assert forall|i: int| 0 <= i < offsets.len() implies state.chip.lines.contains_key(
            #[trigger] offsets[i],
        ) && !state.in_use(offsets[i]) by {
            if i < offsets.len() - 1 {
                assert(offsets.drop_last()[i] == offsets[i]);
            }
        }
    }
}

/// The persisted state of a line once a request holds it.
pub open spec fn held_line(
    line: LineModel,
    request: MockRequestLineState,
    value: Option<LineValue>,
    consumer: Seq<char>,
) -> LineModel {
    LineModel { consumer, ..driven_line(requested_line(line, request), request, value) }
}

/// The lines of a chip once a request holds some of them.
pub open spec fn held_lines(
    lines: Map<u32, LineModel>,
    config: MockLineConfig,
    consumer: Seq<char>,
) -> Map<u32, LineModel> {
    let offsets = config.offsets();
    Map::new(
        |offset: u32| lines.contains_key(offset),
        |offset: u32|
            if offsets.contains(offset) {
                let request = state_at(config.lines(), offset);
                held_line(
                    lines[offset],
                    request,
                    asked_value(config.overrides(), offsets.index_of(offset), request),
                    consumer,
                )
            } else {
                lines[offset]
            },
    )
}

/// A new request for the lines of a configuration.
pub open spec fn new_registration(config: MockLineConfig, consumer: Seq<char>) -> RegistrationModel {
    RegistrationModel {
        offsets: config.offsets(),
        settings: request_settings(config.lines()),
        consumer,
        pending: Seq::empty(),
        global_seqno: 0,
        line_seqno: Map::empty(),
        closed: false,
    }
}

/// The consumer that a request names.
pub open spec fn request_consumer(req_cfg: Option<&MockRequestConfig>) -> Seq<char> {
    match req_cfg {
        Some(config) => config.consumer(),
        None => Seq::empty(),
    }
}

/// Whether a request can be added to the chip: its lines exist and are free.
pub open spec fn admits(state: ChipStateModel, registration: RegistrationModel) -> bool {
    &&& registration.wf()
    &&& forall|i: int|
        0 <= i < registration.offsets.len() ==> state.chip.lines.contains_key(
            #[trigger] registration.offsets[i],
        ) && !state.in_use(registration.offsets[i])
}

proof fn lemma_driven_pointwise(
    lines: Map<u32, LineModel>,
    offsets: Seq<u32>,
    overrides: Option<Seq<LineValue>>,
    settings: Map<u32, MockRequestLineState>,
)
    requires
        offsets.no_duplicates(),
        forall|i: int|
            0 <= i < offsets.len() ==> lines.contains_key(#[trigger] offsets[i])
                && settings.contains_key(offsets[i]),
    ensures
        driven_lines(lines, offsets, overrides, settings) is Ok,
        ({
            let driven = driven_lines(lines, offsets, overrides, settings)->Ok_0;
            &&& driven.dom() == lines.dom()
            &&& forall|i: int|
                0 <= i < offsets.len() ==> driven[#[trigger] offsets[i]] == driven_line(
                    lines[offsets[i]],
                    settings[offsets[i]],
                    asked_value(overrides, i, settings[offsets[i]]),
                )
            &&& forall|offset: u32|
                lines.contains_key(offset) && !offsets.contains(offset)
                    ==> #[trigger] driven[offset] == lines[offset]
        }),
    decreases offsets.len(),
{
    if offsets.len() > 0 {
        let front = offsets.drop_last();
        assert forall|i: int| 0 <= i < front.len() implies lines.contains_key(#[trigger] front[i])
            && settings.contains_key(front[i]) by {
            assert(front[i] == offsets[i]);
        }
        lemma_driven_pointwise(lines, front, overrides, settings);
        let earlier = driven_lines(lines, front, overrides, settings)->Ok_0;
        let last = offsets.last();
        assert(offsets[offsets.len() - 1] == last);
        assert(!front.contains(last)) by {
            if front.contains(last) {
                let k = choose|k: int| 0 <= k < front.len() && front[k] == last;
                assert(offsets[k] == offsets[offsets.len() - 1]);
            }
        }
        assert(earlier[last] == lines[last]);
        let driven = driven_lines(lines, offsets, overrides, settings)->Ok_0;
        assert(driven.dom() =~= lines.dom());
        assert forall|i: int| 0 <= i < offsets.len() implies driven[#[trigger] offsets[i]]
            == driven_line(
            lines[offsets[i]],
            settings[offsets[i]],
            asked_value(overrides, i, settings[offsets[i]]),
        ) by {
            if i < front.len() {
                assert(front[i] == offsets[i]);
                assert(earlier[front[i]] == driven_line(
                    lines[front[i]],
                    settings[front[i]],
                    asked_value(overrides, i, settings[front[i]]),
                ));
            }
        }
        assert forall|offset: u32|
            lines.contains_key(offset) && !offsets.contains(offset) implies #[trigger] driven[offset]
            == lines[offset] by {
            if front.contains(offset) {
                let k = choose|k: int| 0 <= k < front.len() && front[k] == offset;
                assert(offsets[k] == offset);
            }
        }
    }
}

/// The settings of the lines of a configuration by offset.
fn collect_settings(line_cfg: &MockLineConfig, offsets: &Vec<u32>) -> (settings: BTreeMap<
    u32,
    MockRequestLineState,
>)
    requires
        offsets@ == line_cfg.offsets(),
    ensures
        settings@ == request_settings(line_cfg.lines()),
{
    let mut settings: BTreeMap<u32, MockRequestLineState> = BTreeMap::new();
    let mut index: usize = 0;
    while index < offsets.len()
        invariant
            index <= offsets.len(),
            offsets@ == line_cfg.offsets(),
            forall|offset: u32| #[trigger]
                settings@.contains_key(offset) <==> offsets@.take(index as int).contains(offset),
            forall|offset: u32|
                settings@.contains_key(offset) ==> #[trigger] settings@[offset] == state_at(
                    line_cfg.lines(),
                    offset,
                ),
        decreases offsets.len() - index,
    {
        let offset: u32 = offsets[index];
        let ghost before = settings@;
        assert(offsets@.contains(offset));
        let found = line_cfg.get_line_settings(offset);
        let line = found.unwrap();
        settings.insert(offset, MockRequestLineState::from_settings(&line));
        index += 1;
        proof {
            let seen = offsets@.take(index - 1);
            let now = offsets@.take(index as int);
            assert(now =~= seen.push(offset));
            assert forall|other: u32| #[trigger]
                settings@.contains_key(other) <==> now.contains(other) by {
                assert(now[index - 1] == offset);
                assert(before.contains_key(other) <==> seen.contains(other));
                if seen.contains(other) {
                    let k = choose|k: int| 0 <= k < seen.len() && seen[k] == other;
                    assert(now[k] == other);
                }
            }
        }
    }
    assert(offsets@.take(index as int) =~= offsets@);
    assert(settings@ =~= request_settings(line_cfg.lines()));
    settings
}

/// Applies the settings of a request to the persisted state of its lines.
fn apply_settings(
    snapshot: &mut MockChipSnapshot,
    offsets: &Vec<u32>,
    settings: &BTreeMap<u32, MockRequestLineState>,
)
    requires
        offsets@.no_duplicates(),
        forall|i: int|
            0 <= i < offsets@.len() ==> old(snapshot)@.lines.contains_key(#[trigger] offsets@[i])
                && settings@.contains_key(offsets@[i]),
    ensures
        final(snapshot)@.name == old(snapshot)@.name,
        final(snapshot)@.label == old(snapshot)@.label,
        final(snapshot)@.lines.dom() == old(snapshot)@.lines.dom(),
        forall|offset: u32|
            old(snapshot)@.lines.contains_key(offset) ==> #[trigger] final(snapshot)@.lines[offset]
                == if offsets@.contains(offset) {
                requested_line(old(snapshot)@.lines[offset], settings@[offset])
            } else {
                old(snapshot)@.lines[offset]
            },
{
    let ghost before = snapshot@.lines;
    let mut index: usize = 0;
    while index < offsets.len()
        invariant
            index <= offsets.len(),
            offsets@.no_duplicates(),
            before == old(snapshot)@.lines,
            snapshot.name == old(snapshot).name,
            snapshot.label == old(snapshot).label,
            snapshot@.lines.dom() == before.dom(),
            forall|i: int|
                0 <= i < offsets@.len() ==> before.contains_key(#[trigger] offsets@[i])
                    && settings@.contains_key(offsets@[i]),
            forall|offset: u32|
                before.contains_key(offset) ==> #[trigger] snapshot@.lines[offset]
                    == if offsets@.take(index as int).contains(offset) {
                    requested_line(before[offset], settings@[offset])
                } else {
                    before[offset]
                },
        decreases offsets.len() - index,
    {
        let offset: u32 = offsets[index];
        let ghost earlier = snapshot@.lines;
        assert(before.contains_key(offsets@[index as int]));
        assert(snapshot@.lines.contains_key(offset));
        let request: MockRequestLineState = *settings.get(&offset).unwrap();
        let mut line = snapshot.lines.remove(&offset).unwrap();
        apply_persisted_metadata(&mut line, &request);
        snapshot.lines.insert(offset, line);
        index += 1;
        proof {
            let seen = offsets@.take(index - 1);
            let now = offsets@.take(index as int);
            lemma_take_step(offsets@, index - 1);
            assert(snapshot@.lines =~= earlier.insert(offset, line@));
            assert(snapshot@.lines.dom() =~= before.dom());
            assert(earlier[offset] == before[offset]);
        }
    }
    assert(offsets@.take(index as int) =~= offsets@);
}

/// Of distinct offsets, taking one more adds exactly that one.
pub proof fn lemma_take_step(offsets: Seq<u32>, index: int)
    requires
        0 <= index < offsets.len(),
        offsets.no_duplicates(),
    ensures
        !offsets.take(index).contains(offsets[index]),
        offsets.take(index + 1).contains(offsets[index]),
        forall|other: u32|
            other != offsets[index] ==> (#[trigger] offsets.take(index + 1).contains(other)
                == offsets.take(index).contains(other)),
{
    let seen = offsets.take(index);
    let now = offsets.take(index + 1);
    let offset = offsets[index];
    assert(now[index] == offset);
    if seen.contains(offset) {
        let k = choose|k: int| 0 <= k < seen.len() && seen[k] == offset;
        assert(offsets[k] == offsets[index]);
    }
    assert forall|other: u32| other != offset implies (#[trigger] now.contains(other)
        == seen.contains(other)) by {
        if seen.contains(other) {
            let k = choose|k: int| 0 <= k < seen.len() && seen[k] == other;
            assert(now[k] == other);
        }
        if now.contains(other) {
            let k = choose|k: int| 0 <= k < now.len() && now[k] == other;
            assert(seen[k] == other);
        }
    }
}

/// Writes a consumer onto lines.
pub fn set_consumer(snapshot: &mut MockChipSnapshot, offsets: &Vec<u32>, consumer: &str)
    ensures
        final(snapshot)@.name == old(snapshot)@.name,
        final(snapshot)@.label == old(snapshot)@.label,
        final(snapshot)@.lines.dom() == old(snapshot)@.lines.dom(),
        forall|offset: u32|
            old(snapshot)@.lines.contains_key(offset) ==> #[trigger] final(snapshot)@.lines[offset]
                == if offsets@.contains(offset) {
                (LineModel { consumer: consumer@, ..old(snapshot)@.lines[offset] })
            } else {
                old(snapshot)@.lines[offset]
            },
{
    let ghost before = snapshot@.lines;
    let mut index: usize = 0;
    while index < offsets.len()
        invariant
            index <= offsets.len(),
            before == old(snapshot)@.lines,
            snapshot.name == old(snapshot).name,
            snapshot.label == old(snapshot).label,
            snapshot@.lines.dom() == before.dom(),
            forall|offset: u32|
                before.contains_key(offset) ==> #[trigger] snapshot@.lines[offset]
                    == if offsets@.take(index as int).contains(offset) {
                    (LineModel { consumer: consumer@, ..before[offset] })
                } else {
                    before[offset]
                },
        decreases offsets.len() - index,
    {
        let offset: u32 = offsets[index];
        let ghost earlier = snapshot@.lines;
        let removed = snapshot.lines.remove(&offset);
        match removed {
            Some(mut line) => {
                line.consumer = consumer.to_owned();
                snapshot.lines.insert(offset, line);
                proof {
                    assert(snapshot@.lines =~= earlier.insert(offset, line@));
                    assert(earlier.contains_key(offset));
                    assert(before.contains_key(offset));
                    assert(snapshot@.lines.dom() =~= before.dom());
                }
            },
            None => {
                assert(snapshot@.lines =~= earlier);
                assert(!before.contains_key(offset));
            },
        }
        index += 1;
        proof {
            let seen = offsets@.take(index - 1);
            let now = offsets@.take(index as int);
            assert(now =~= seen.push(offset));
            assert forall|other: u32| before.contains_key(other) implies #[trigger] snapshot@.lines[other]
                == if now.contains(other) {
                (LineModel { consumer: consumer@, ..before[other] })
            } else {
                before[other]
            } by {
                assert(now[index - 1] == offset);
                if seen.contains(other) {
                    let k = choose|k: int| 0 <= k < seen.len() && seen[k] == other;
                    assert(now[k] == other);
                }
                if now.contains(other) && other != offset {
                    let k = choose|k: int| 0 <= k < now.len() && now[k] == other;
                    assert(seen[k] == other);
                }
                assert(earlier[other] == if seen.contains(other) {
                    (LineModel { consumer: consumer@, ..before[other] })
                } else {
                    before[other]
                });
            }
        }
    }
    assert(offsets@.take(index as int) =~= offsets@);
}

/// What a request makes of the chip, or why it is refused. A refused request changes nothing,
/// unless the chip cannot be written any more with what the request asks.
pub open spec fn request_outcome(
    state: ChipStateModel,
    config: MockLineConfig,
    consumer: Seq<char>,
) -> (ChipStateModel, Result<RegistrationModel, GPIOErrorModel>) {
    if config.offsets().len() == 0 {
        (state, Err(GPIOErrorModel::EmptyLineConfig))
    } else {
        match first_conflict(state, config.offsets()) {
            Some(error) => (state, Err(error)),
            None => {
                let chip = ChipModel {
                    lines: held_lines(state.chip.lines, config, consumer),
                    ..state.chip
                };
                let after = ChipStateModel { chip, ..state };
                match chip_nodes(chip) {
                    Ok(nodes) => (after, Ok(new_registration(config, consumer))),
                    Err(text) => (after, Err(GPIOErrorModel::Io(text))),
                }
            },
        }
    }
}

impl MockChipState {
    fn check_lines(&self, offsets: &Vec<u32>) -> (result: Result<(), GPIOError>)
        ensures
            match result {
                Ok(_) => first_conflict(self@, offsets@) is None,
                Err(error) => first_conflict(self@, offsets@) == Some(error@),
            },
    {
        let mut index: usize = 0;
        assert(offsets@.take(0) =~= Seq::<u32>::empty());
        while index < offsets.len()
            invariant
                index <= offsets.len(),
                first_conflict(self@, offsets@.take(index as int)) is None,
            decreases offsets.len() - index,
        {
            let offset: u32 = offsets[index];
            let ghost prefix = offsets@.take(index + 1);
            proof {
                assert(prefix.drop_last() =~= offsets@.take(index as int));
                if first_conflict(self@, prefix) is Some {
                    lemma_first_conflict(self@, offsets@, index + 1);
                }
                assert(self@.chip.lines.dom() =~= self.snapshot.lines@.dom());
            }
            if !self.snapshot.lines.contains_key(&offset) {
                return Err(GPIOError::InvalidOffset(offset));
            }
            if offset_in_use(self, offset) {
                return Err(
                    GPIOError::Other(
                        "line offset ".to_owned().concat(
                            number_text(offset as u64).as_str(),
                        ).concat(" is already requested"),
                    ),
                );
            }
            index += 1;
        }
        assert(offsets@.take(index as int) =~= offsets@);
        Ok(())
    }

    /// Prepares a request: checks that its lines exist and are free, applies what it asks to
    /// the persisted state, and gives the document to persist. The request takes effect with
    /// [`MockChipState::register_request`].
    pub fn request_lines(
        &mut self,
        req_cfg: Option<&MockRequestConfig>,
        line_cfg: &MockLineConfig,
    ) -> (result: Result<(RequestRegistration, String), GPIOError>)
        requires
            line_cfg.wf(),
        ensures
            final(self)@ == request_outcome(
                old(self)@,
                *line_cfg,
                request_consumer(req_cfg),
            ).0,
            match (result, request_outcome(old(self)@, *line_cfg, request_consumer(req_cfg)).1) {
                (Ok(prepared), Ok(registration)) => {
                    &&& prepared.0@ == registration
                    &&& prepared.1@ == xml_text(chip_nodes(final(self)@.chip)->Ok_0)
                    &&& admits(final(self)@, registration)
                },
                (Err(error), Err(expected)) => error@ == expected,
                _ => false,
            },
            old(self)@.wf() ==> final(self)@.wf(),
    {
        if line_cfg.get_num_configured_offsets() == 0 {
            return Err(GPIOError::EmptyLineConfig);
        }
        let consumer: String = match req_cfg {
            Some(config) => config.get_consumer().to_owned(),
            None => String::new(),
        };
        let offsets = requested_offsets(line_cfg);
        let line_settings = collect_settings(line_cfg, &offsets);
        let ghost before = self@;
        let ghost settings = line_settings@;
        match self.check_lines(&offsets) {
            Ok(_) => {},
            Err(error) => return Err(error),
        }
        proof {
            lemma_no_conflict(before, offsets@);
            assert forall|i: int| 0 <= i < offsets@.len() implies before.chip.lines.contains_key(
                #[trigger] offsets@[i],
            ) && settings.contains_key(offsets@[i]) by {
                assert(offsets@.contains(offsets@[i]));
            }
        }
        apply_settings(&mut self.snapshot, &offsets, &line_settings);
        let ghost configured = self@.chip.lines;
        proof {
            assert forall|i: int| 0 <= i < offsets@.len() implies configured.contains_key(
                #[trigger] offsets@[i],
            ) && settings.contains_key(offsets@[i]) by {
                assert(before.chip.lines.contains_key(offsets@[i]));
            }
            lemma_driven_pointwise(configured, offsets@, line_cfg.overrides(), settings);
        }
        match apply_request_output_values(&mut self.snapshot, line_cfg, &line_settings) {
            Ok(_) => {},
            Err(error) => return Err(error),
        }
        let ghost driven = self@.chip.lines;
        set_consumer(&mut self.snapshot, &offsets, consumer.as_str());
        proof {
            let expected = held_lines(before.chip.lines, *line_cfg, consumer@);
            assert forall|offset: u32| expected.contains_key(offset) implies
                self@.chip.lines[offset] == expected[offset] by {
                if offsets@.contains(offset) {
                    let k = offsets@.index_of(offset);
                    assert(offsets@[k] == offset);
                    assert(driven[offsets@[k]] == driven_line(
                        configured[offsets@[k]],
                        settings[offsets@[k]],
                        asked_value(line_cfg.overrides(), k, settings[offsets@[k]]),
                    ));
                }
            }
            assert(self@.chip.lines =~= expected);
        }
        let xml = match serialize_chip_xml(&self.snapshot) {
            Ok(xml) => xml,
            Err(error) => return Err(error),
        };
        let registration = RequestRegistration {
            offsets_in_order: offsets,
            line_settings,
            consumer,
            pending_edge_events: VecDeque::new(),
            global_seqno_cursor: 0,
            per_line_seqno: BTreeMap::new(),
            closed: false,
        };
        proof {
            assert(registration@.pending =~= Seq::<EdgeModel>::empty());
            assert(registration@.settings.dom() =~= registration@.offsets.to_set());
            assert forall|i: int| 0 <= i < registration@.offsets.len() implies
                self@.chip.lines.contains_key(#[trigger] registration@.offsets[i])
                && !self@.in_use(registration@.offsets[i]) by {
                assert(before.chip.lines.contains_key(registration@.offsets[i]));
            }
        }
        Ok((registration, xml))
    }

    /// Adds a prepared request to the chip under the next number.
    pub fn register_request(&mut self, registration: RequestRegistration) -> (request:
        MockLineRequest)
        requires
            old(self)@.next_request_id < u64::MAX,
        ensures
            final(self)@ == (ChipStateModel {
                requests: old(self)@.requests.insert(
                    old(self)@.next_request_id,
                    registration@,
                ),
                next_request_id: (old(self)@.next_request_id + 1) as u64,
                ..old(self)@
            }),
            request.request_id == old(self)@.next_request_id,
            request.chip_name@ == old(self)@.chip.name,
            request.offsets@ == registration@.offsets,
            old(self)@.wf() && admits(old(self)@, registration@) && !registration@.closed
                ==> final(self)@.wf(),
    {
        let request_id: u64 = self.next_request_id;
        let ghost before = self@;
        let offsets = registration.offsets_in_order.clone();
        assert(offsets@ =~= registration.offsets_in_order@);
        let request = MockLineRequest {
            request_id,
            chip_name: self.snapshot.name.clone(),
            offsets,
        };
        self.next_request_id = self.next_request_id + 1;
        self.requests.insert(request_id, registration);
        proof {
            assert(self@.requests =~= before.requests.insert(request_id, registration@));
            if before.wf() && admits(before, registration@) && !registration@.closed {
                lemma_registered(before, registration@);
            }
        }
        request
    }

    /// Takes a request off the chip and clears the consumer of its lines. Says whether there
    /// was such a request.
    pub fn release_request(&mut self, request_id: RequestId) -> (released: bool)
        ensures
            final(self)@ == released_state(old(self)@, request_id),
            released == old(self)@.requests.contains_key(request_id),
            old(self)@.wf() ==> final(self)@.wf(),
    {
        let ghost before = self@;
        match self.requests.remove(&request_id) {
            Some(registration) => {
                set_consumer(&mut self.snapshot, &registration.offsets_in_order, "");
                proof {
                    reveal_strlit("");
                    assert(""@ =~= Seq::<char>::empty());
                    assert(self@.requests =~= before.requests.remove(request_id));
                    assert(self@.chip.lines =~= released_state(before, request_id).chip.lines);
                    if before.wf() {
                        lemma_released(before, request_id);
                    }
                }
                true
            },
            None => {
                assert(self@.requests =~= before.requests);
                false
            },
        }
    }

    /// What the chip says of one of its lines.
    pub fn get_line_info(&self, offset: u32) -> (result: Result<MockLineInfo, GPIOError>)
        ensures
            match result {
                Ok(info) => {
                    &&& self@.chip.lines.contains_key(offset)
                    &&& line_info_of(self@, offset, info.info())
                },
                Err(error) => !self@.chip.lines.contains_key(offset) && error@
                    == GPIOErrorModel::InvalidOffset(offset),
            },
    {
        assert(self@.chip.lines.dom() =~= self.snapshot.lines@.dom());
        let line = match self.snapshot.lines.get(&offset) {
            Some(line) => line,
            None => return Err(GPIOError::InvalidOffset(offset)),
        };
        let info = MockLineInfo::from_persisted_snapshot(offset, line);
        match find_request_for_offset(self, offset) {
            Some(id) => {
                let registration = self.requests.get(&id).unwrap();
                match registration.line_settings.get(&offset) {
                    Some(request) => Ok(
                        info.with_request_state(registration.consumer.as_str(), request, line),
                    ),
                    None => Ok(info),
                }
            },
            None => Ok(info),
        }
    }

    /// The first offset whose line carries a name.
    pub fn get_line_offset_from_name(&self, name: &str) -> (result: Result<u32, GPIOError>)
        ensures
            match result {
                Ok(offset) => {
                    &&& self@.chip.lines.contains_key(offset)
                    &&& self@.chip.lines[offset].name == name@
                    &&& forall|other: u32| #[trigger]
                        self@.chip.lines.contains_key(other) && self@.chip.lines[other].name
                            == name@ ==> offset <= other
                },
                Err(error) => {
                    &&& forall|other: u32| #[trigger]
                        self@.chip.lines.contains_key(other) ==> self@.chip.lines[other].name
                            != name@
                    &&& error@ == GPIOErrorModel::LineNameNotFound(name@)
                },
            },
    {
        let offsets = offsets_in_order(&self.snapshot.lines);
        assert(self@.chip.lines.dom() =~= self.snapshot.lines@.dom());
        let mut index: usize = 0;
        while index < offsets.len()
            invariant
                index <= offsets.len(),
                ascending_offsets(offsets@),
                offsets@.to_set() == self@.chip.lines.dom(),
                self@.chip.lines.dom() == self.snapshot.lines@.dom(),
                forall|i: int|
                    0 <= i < index ==> self@.chip.lines[#[trigger] offsets@[i]].name != name@,
            decreases offsets.len() - index,
        {
            let offset: u32 = offsets[index];
            assert(offsets@.to_set().contains(offset));
            let line = self.snapshot.lines.get(&offset).unwrap();
            if same_text(line.name.as_str(), name) {
                proof {
                    assert forall|other: u32| #[trigger] self@.chip.lines.contains_key(other)
                        && self@.chip.lines[other].name == name@ implies offset <= other by {
                        assert(offsets@.to_set().contains(other));
                        let k = choose|k: int| 0 <= k < offsets@.len() && offsets@[k] == other;
                        if k > index {
                            assert(offsets@[index as int] < offsets@[k]);
                        }
                    }
                }
                return Ok(offset);
            }
            index += 1;
        }
        proof {
            assert forall|other: u32| #[trigger] self@.chip.lines.contains_key(other) implies
                self@.chip.lines[other].name != name@ by {
                assert(offsets@.to_set().contains(other));
                let k = choose|k: int| 0 <= k < offsets@.len() && offsets@[k] == other;
                assert(self@.chip.lines[offsets@[k]].name != name@);
            }
        }
        Err(GPIOError::LineNameNotFound(name.to_owned()))
    }
}

/// What a chip with valid requests says of one of its lines: what a request that holds it
/// asks, or what is persisted.
pub open spec fn line_info_of(state: ChipStateModel, offset: u32, info: LineInfoModel) -> bool {
    let line = state.chip.lines[offset];
    let free = free_line_info(offset, line);
    &&& !state.in_use(offset) ==> info == free
    &&& state.wf() && state.in_use(offset) ==> forall|id: u64| #[trigger]
        state.requests.contains_key(id) && state.requests[id].holds(offset) ==> info
            == held_line_info(
            free,
            state.requests[id].consumer,
            state.requests[id].settings[offset],
            line,
        )
}

/// The chip once a request is released: its lines are free and have no consumer.
pub open spec fn released_state(state: ChipStateModel, request_id: u64) -> ChipStateModel {
    if state.requests.contains_key(request_id) {
        let offsets = state.requests[request_id].offsets;
        ChipStateModel {
            chip: ChipModel {
                lines: Map::new(
                    |offset: u32| state.chip.lines.contains_key(offset),
                    |offset: u32|
                        if offsets.contains(offset) {
                            LineModel { consumer: Seq::empty(), ..state.chip.lines[offset] }
                        } else {
                            state.chip.lines[offset]
                        },
                ),
                ..state.chip
            },
            requests: state.requests.remove(request_id),
            ..state
        }
    } else {
        state
    }
}

/// A valid chip stays valid when it takes a request that it admits.
proof fn lemma_registered(state: ChipStateModel, registration: RegistrationModel)
    requires
        state.wf(),
        admits(state, registration),
        !registration.closed,
        state.next_request_id < u64::MAX,
    ensures
        (ChipStateModel {
            requests: state.requests.insert(state.next_request_id, registration),
            next_request_id: (state.next_request_id + 1) as u64,
            ..state
        }).wf(),
{
    let after = ChipStateModel {
        requests: state.requests.insert(state.next_request_id, registration),
        next_request_id: (state.next_request_id + 1) as u64,
        ..state
    };
    let new = state.next_request_id;
    assert forall|id: u64| #[trigger] after.requests.contains_key(id) implies {
        &&& after.requests[id].wf()
        &&& id < after.next_request_id
        &&& forall|offset: u32|
            after.requests[id].offsets.contains(offset)
                ==> #[trigger] after.chip.lines.contains_key(offset)
    } by {
        if id == new {
            assert forall|offset: u32| after.requests[id].offsets.contains(offset) implies
                #[trigger] after.chip.lines.contains_key(offset) by {
                let k = choose|k: int|
                    0 <= k < registration.offsets.len() && registration.offsets[k] == offset;
                assert(state.chip.lines.contains_key(registration.offsets[k]));
            }
        } else {
            assert(state.requests.contains_key(id));
        }
    }
    assert forall|a: u64, b: u64, offset: u32|
        #![trigger after.requests[a].holds(offset), after.requests[b].holds(offset)]
        after.requests.contains_key(a) && after.requests.contains_key(b)
            && after.requests[a].holds(offset) && after.requests[b].holds(offset) implies a
        == b by {
        if a != b && (a == new || b == new) {
            let k = choose|k: int|
                0 <= k < registration.offsets.len() && registration.offsets[k] == offset;
            assert(!state.in_use(registration.offsets[k]));
            let other = if a == new {
                b
            } else {
                a
            };
            assert(state.requests.contains_key(other) && state.requests[other].holds(offset));
        } else if a != b {
            assert(state.requests[a].holds(offset) && state.requests[b].holds(offset));
        }
    }
}

/// A valid chip stays valid when a request is released.
proof fn lemma_released(state: ChipStateModel, request_id: u64)
    requires
        state.wf(),
    ensures
        released_state(state, request_id).wf(),
{
    let after = released_state(state, request_id);
    assert forall|id: u64| #[trigger] after.requests.contains_key(id) implies {
        &&& after.requests[id].wf()
        &&& id < after.next_request_id
        &&& forall|offset: u32|
            after.requests[id].offsets.contains(offset)
                ==> #[trigger] after.chip.lines.contains_key(offset)
    } by {
        assert(state.requests.contains_key(id));
        assert forall|offset: u32| after.requests[id].offsets.contains(offset) implies
            #[trigger] after.chip.lines.contains_key(offset) by {
            assert(state.chip.lines.contains_key(offset));
        }
    }
    assert forall|a: u64, b: u64, offset: u32|
        #![trigger after.requests[a].holds(offset), after.requests[b].holds(offset)]
        after.requests.contains_key(a) && after.requests.contains_key(b)
            && after.requests[a].holds(offset) && after.requests[b].holds(offset) implies a
        == b by {
        assert(state.requests[a].holds(offset) && state.requests[b].holds(offset));
    }
}

} // verus!

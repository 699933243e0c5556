//! What holds of chip documents as a whole.

use vstd::prelude::*;

use crate::gpio::libgpiod::LineBias;
use crate::gpio::libgpiod::LineDirection;
use crate::gpio::libgpiod::LineDrive;
use crate::gpio::libgpiod::LineValue;
use crate::gpio::mock::diff::baseline_at;
use crate::gpio::mock::diff::diff_attribute;
use crate::gpio::mock::diff::diff_attributes;
use crate::gpio::mock::diff::diff_begin;
use crate::gpio::mock::diff::diff_events;
use crate::gpio::mock::diff::diff_step;
use crate::gpio::mock::diff::DiffModel;
use crate::gpio::mock::document::normalized_chip;
use crate::gpio::mock::document::normalized_line;
use crate::gpio::mock::load::line_attributes;
use crate::gpio::mock::load::load_begin;
use crate::gpio::mock::load::load_events;
use crate::gpio::mock::load::load_step;
use crate::gpio::mock::load::LoaderModel;
use crate::gpio::mock::snapshot::logical_value;
use crate::gpio::mock::snapshot::ChipModel;
use crate::gpio::mock::snapshot::LineLevel;
use crate::gpio::mock::snapshot::LineModel;
use crate::gpio::mock::snapshot::LoadErrorModel;
use crate::gpio::mock::xml::XmlAttributeModel;
use crate::gpio::mock::xml::XmlEventModel;

verus! {

// ---------------------------------------------------------------------------
// Loaded chips are in normal form
// ---------------------------------------------------------------------------

/// A line in the form in which lines are read: an input with a known bias or an output, what
/// the direction does not use at its default.
pub open spec fn normal_line(line: LineModel) -> bool {
    &&& line.direction != LineDirection::AsIs
    &&& line.bias != LineBias::AsIs
    &&& line.bias != LineBias::Unknown
    &&& line.direction == LineDirection::Input ==> line.drive == LineDrive::PushPull
    &&& line.direction == LineDirection::Output ==> line.bias == LineBias::Disabled
}

/// A named chip whose lines are all in normal form.
pub open spec fn normal_chip(chip: ChipModel) -> bool {
    &&& chip.name.len() > 0
    &&& chip.lines.dom().finite()
    &&& forall|offset: u32| #[trigger]
        chip.lines.contains_key(offset) ==> normal_line(chip.lines[offset])
}

spec fn normal_state(state: LoaderModel) -> bool {
    &&& state.chip matches Some(chip) ==> normal_chip(chip)
    &&& state.current matches Some((offset, line)) ==> normal_line(line)
}

proof fn lemma_attributes_normal(attributes: Seq<XmlAttributeModel>)
    ensures
        line_attributes(attributes) matches Ok(attr) ==> {
            &&& attr.direction != Some(LineDirection::AsIs)
            &&& attr.bias != Some(LineBias::AsIs)
            &&& attr.bias != Some(LineBias::Unknown)
        },
    decreases attributes.len(),
{
    if attributes.len() > 0 {
        lemma_attributes_normal(attributes.drop_last());
    }
}

proof fn lemma_step_normal(state: LoaderModel, event: XmlEventModel)
    requires
        normal_state(state),
    ensures
        load_step(state, event) matches Ok(next) ==> normal_state(next),
{
    if let XmlEventModel::Start { name, attributes } = event {
        lemma_attributes_normal(attributes);
    }
}

proof fn lemma_load_normal(state: LoaderModel, events: Seq<XmlEventModel>)
    requires
        normal_state(state),
    ensures
        load_events(state, events) matches Ok(chip) ==> normal_chip(chip),
    decreases events.len(),
{
    if events.len() > 0 {
        lemma_step_normal(state, events[0]);
        if let Ok(next) = load_step(state, events[0]) {
            lemma_load_normal(next, events.drop_first());
        }
    }
}

/// Every chip that a document holds is named and in normal form, so that writing it succeeds
/// and normalizing it changes nothing.
pub proof fn loaded_chip_is_normal(events: Seq<XmlEventModel>)
    ensures
        load_events(load_begin(), events) matches Ok(chip) ==> normal_chip(chip)
            && normalized_chip(chip) == chip,
{
    lemma_load_normal(load_begin(), events);
    if let Ok(chip) = load_events(load_begin(), events) {
        assert forall|offset: u32| #[trigger] chip.lines.contains_key(offset) implies
            normalized_line(chip.lines[offset]) == chip.lines[offset] by {}
        assert(normalized_chip(chip).lines =~= chip.lines);
    }
}

// ---------------------------------------------------------------------------
// What a comparison reports
// ---------------------------------------------------------------------------

/// The inputs in memory whose level differs from that of another chip, with the other level
/// as a logical value under the polarity in memory.
pub open spec fn changed_inputs(lines: Map<u32, LineModel>, baseline: ChipModel) -> Map<
    u32,
    LineValue,
> {
    Map::new(
        |offset: u32|
            lines.contains_key(offset) && baseline.lines.contains_key(offset)
                && baseline.lines[offset].direction == LineDirection::Input
                && lines[offset].level != baseline.lines[offset].level,
        |offset: u32| logical_value(lines[offset].level, baseline.lines[offset].active_low),
    )
}

proof fn lemma_diff_push(
    state: DiffModel,
    attributes: Seq<XmlAttributeModel>,
    last: XmlAttributeModel,
    baseline: ChipModel,
)
    ensures
        diff_attributes(state, attributes.push(last), baseline) == (match diff_attributes(
            state,
            attributes,
            baseline,
        ) {
            Ok(next) => diff_attribute(next, last, baseline),
            Err(error) => Err::<DiffModel, LoadErrorModel>(error),
        }),
    decreases attributes.len(),
{
    let all = attributes.push(last);
    if attributes.len() == 0 {
        assert(all.drop_first() =~= attributes);
        if let Ok(next) = diff_attribute(state, last, baseline) {
            assert(diff_attributes(next, attributes, baseline) == Ok::<DiffModel, LoadErrorModel>(
                next,
            ));
        }
    } else {
        assert(all.drop_first() =~= attributes.drop_first().push(last));
        assert(all[0] == attributes[0]);
        if let Ok(next) = diff_attribute(state, attributes[0], baseline) {
            lemma_diff_push(next, attributes.drop_first(), last, baseline);
        }
    }
}

/// Attributes that describe a line give the comparison its offset.
proof fn lemma_diff_attributes(
    state: DiffModel,
    attributes: Seq<XmlAttributeModel>,
    baseline: ChipModel,
)
    requires
        line_attributes(attributes) is Ok,
    ensures
        diff_attributes(state, attributes, baseline) == Ok::<DiffModel, LoadErrorModel>(
            match line_attributes(attributes)->Ok_0.offset {
                Some(offset) => DiffModel {
                    offset: Some(offset),
                    line: baseline_at(baseline, offset),
                    ..state
                },
                None => state,
            },
        ),
    decreases attributes.len(),
{
    if attributes.len() > 0 {
        lemma_diff_attributes(state, attributes.drop_last(), baseline);
        assert(attributes.drop_last().push(attributes.last()) =~= attributes);
        lemma_diff_push(state, attributes.drop_last(), attributes.last(), baseline);
    }
}

/// Lines that were read stay, and the line that is open becomes one of them.
proof fn lemma_lines_stay(state: LoaderModel, events: Seq<XmlEventModel>)
    requires
        load_events(state, events) is Ok,
    ensures
        state.chip matches Some(chip) ==> forall|offset: u32| #[trigger]
            chip.lines.contains_key(offset) ==> load_events(
                state,
                events,
            )->Ok_0.lines.contains_key(offset),
        state.current matches Some((offset, line)) ==> load_events(
            state,
            events,
        )->Ok_0.lines.contains_key(offset),
    decreases events.len(),
{
    if events.len() > 0 {
        let next = load_step(state, events[0])->Ok_0;
        lemma_lines_stay(next, events.drop_first());
        if let Some((offset, line)) = state.current {
            if next.current is None {
                assert(next.chip->Some_0.lines.contains_key(offset));
            }
        }
        if let Some(chip) = state.chip {
            assert forall|offset: u32| #[trigger] chip.lines.contains_key(offset) implies
                load_events(state, events)->Ok_0.lines.contains_key(offset) by {
                assert(next.chip->Some_0.lines.contains_key(offset));
            }
        }
    }
}

spec fn in_step(loader: LoaderModel, diff: DiffModel, baseline: ChipModel) -> bool {
    &&& diff.seen_chip == (loader.chip is Some)
    &&& loader.chip is None ==> loader.current is None && !loader.chip_closed
    &&& diff.changes == changed_inputs(
        match loader.chip {
            Some(chip) => chip.lines,
            None => Map::empty(),
        },
        baseline,
    )
    &&& match loader.current {
        Some((offset, line)) => {
            &&& diff.offset == Some(offset)
            &&& diff.line == baseline_at(baseline, offset)
            &&& line.level == (match diff.level {
                Some(level) => level,
                None => LineLevel::Low,
            })
        },
        None => diff.offset is None && diff.line is None && diff.level is None,
    }
}

proof fn lemma_in_step(
    loader: LoaderModel,
    diff: DiffModel,
    event: XmlEventModel,
    baseline: ChipModel,
)
    requires
        in_step(loader, diff, baseline),
        load_step(loader, event) is Ok,
        loader.current matches Some((offset, line)) ==> baseline.lines.contains_key(offset),
    ensures
        diff_step(diff, event, baseline) is Ok,
        in_step(
            load_step(loader, event)->Ok_0,
            diff_step(diff, event, baseline)->Ok_0,
            baseline,
        ),
{
    reveal_strlit("gpiochip");
    reveal_strlit("line");
    assert("gpiochip"@.len() == 8);
    assert("line"@.len() == 4);
    match event {
        XmlEventModel::Start { name, attributes } => {
            if name == "line"@ {
                lemma_diff_attributes(diff, attributes, baseline);
            } else {
                assert(changed_inputs(Map::empty(), baseline) =~= Map::<u32, LineValue>::empty());
            }
        },
        XmlEventModel::End { name } => {
            if name == "line"@ {
                let (offset, line) = loader.current->Some_0;
                let chip = loader.chip->Some_0;
                let next = diff_step(diff, event, baseline)->Ok_0;
                assert(next.changes =~= changed_inputs(
                    chip.lines.insert(offset, line),
                    baseline,
                ));
            }
        },
        _ => {},
    }
}

proof fn lemma_diff_follows(
    loader: LoaderModel,
    diff: DiffModel,
    events: Seq<XmlEventModel>,
    baseline: ChipModel,
)
    requires
        in_step(loader, diff, baseline),
        load_events(loader, events) is Ok,
        forall|offset: u32| #[trigger]
            load_events(loader, events)->Ok_0.lines.contains_key(offset)
                ==> baseline.lines.contains_key(offset),
    ensures
        diff_events(diff, events, baseline) == Ok::<Map<u32, LineValue>, LoadErrorModel>(
            changed_inputs(load_events(loader, events)->Ok_0.lines, baseline),
        ),
    decreases events.len(),
{
    if events.len() > 0 {
        lemma_lines_stay(loader, events);
        lemma_in_step(loader, diff, events[0], baseline);
        lemma_diff_follows(
            load_step(loader, events[0])->Ok_0,
            diff_step(diff, events[0], baseline)->Ok_0,
            events.drop_first(),
            baseline,
        );
    }
}

/// A document that holds a chip, all of whose lines are known in memory, is compared without
/// error, and the comparison reports exactly the inputs in memory whose level differs.
pub proof fn diff_reports_changed_inputs(events: Seq<XmlEventModel>, baseline: ChipModel)
    requires
        load_events(load_begin(), events) is Ok,
        forall|offset: u32| #[trigger]
            load_events(load_begin(), events)->Ok_0.lines.contains_key(offset)
                ==> baseline.lines.contains_key(offset),
    ensures
        diff_events(diff_begin(), events, baseline) == Ok::<Map<u32, LineValue>, LoadErrorModel>(
            changed_inputs(load_events(load_begin(), events)->Ok_0.lines, baseline),
        ),
{
    assert(changed_inputs(Map::empty(), baseline) =~= Map::<u32, LineValue>::empty());
    lemma_diff_follows(load_begin(), diff_begin(), events, baseline);
}

/// Editing names, labels, directions, biases, drives or polarities in a document, or the
/// level of an output, is not a change: where every input in memory keeps its level, the
/// comparison reports nothing.
pub proof fn metadata_edits_are_not_changes(events: Seq<XmlEventModel>, baseline: ChipModel)
    requires
        load_events(load_begin(), events) is Ok,
        forall|offset: u32| #[trigger]
            load_events(load_begin(), events)->Ok_0.lines.contains_key(offset)
                ==> baseline.lines.contains_key(offset),
        forall|offset: u32| #[trigger]
            load_events(load_begin(), events)->Ok_0.lines.contains_key(offset)
                && baseline.lines[offset].direction == LineDirection::Input ==> load_events(
                load_begin(),
                events,
            )->Ok_0.lines[offset].level == baseline.lines[offset].level,
    ensures
        diff_events(diff_begin(), events, baseline) == Ok::<Map<u32, LineValue>, LoadErrorModel>(
            Map::empty(),
        ),
{
    diff_reports_changed_inputs(events, baseline);
    let chip = load_events(load_begin(), events)->Ok_0;
    assert(changed_inputs(chip.lines, baseline) =~= Map::<u32, LineValue>::empty());
}

} // verus!

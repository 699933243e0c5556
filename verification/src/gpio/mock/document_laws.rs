//! What holds of chip documents: what their words mean, and which documents are refused.

use vstd::prelude::*;

use crate::gpio::libgpiod::LineBias;
use crate::gpio::libgpiod::LineDirection;
use crate::gpio::libgpiod::LineDrive;
use crate::gpio::mock::diff::diff_begin;
use crate::gpio::mock::diff::diff_events;
use crate::gpio::mock::diff::diff_step;
use crate::gpio::mock::diff::DiffModel;
use crate::gpio::mock::document::lemma_vocabulary;
use crate::gpio::mock::load::chip_attributes;
use crate::gpio::mock::load::chip_start;
use crate::gpio::mock::load::line_attribute;
use crate::gpio::mock::load::line_attributes;
use crate::gpio::mock::load::line_start;
use crate::gpio::mock::load::load_begin;
use crate::gpio::mock::load::load_events;
use crate::gpio::mock::load::load_step;
use crate::gpio::mock::load::LoaderModel;
use crate::gpio::mock::save::chip_nodes;
use crate::gpio::mock::save::line_elements;
use crate::gpio::mock::save::written_attributes;
use crate::gpio::mock::snapshot::ChipModel;
use crate::gpio::mock::snapshot::LineLevel;
use crate::gpio::mock::snapshot::LineModel;
use crate::gpio::mock::xml::XmlAttributeModel;
use crate::gpio::mock::xml::XmlEventModel;
use crate::gpio::mock::xml::XmlNodeModel;
use crate::keys::sorted_offsets;
use crate::number::decimal;
use crate::number::parsed_number;

verus! {

// ---------------------------------------------------------------------------
// Tags
// ---------------------------------------------------------------------------

/// The value of an attribute, the last one where it stands more than once.
pub open spec fn value_of(attributes: Seq<XmlAttributeModel>, key: Seq<char>) -> Option<Seq<char>>
    decreases attributes.len(),
{
    if attributes.len() == 0 {
        None
    } else {
        match attributes.last() {
            XmlAttributeModel::Pair { key: found, value } => if found == key {
                Some(value)
            } else {
                value_of(attributes.drop_last(), key)
            },
            _ => value_of(attributes.drop_last(), key),
        }
    }
}

/// Whether an attribute can stand in a `<line>` tag with its value.
pub open spec fn line_can_have(attribute: XmlAttributeModel) -> bool {
    attribute matches XmlAttributeModel::Pair { key, value } && {
        ||| key == "id"@ && parsed_number(value, u32::MAX as nat) is Ok
        ||| key == "name"@
        ||| key == "consumer"@
        ||| key == "direction"@ && (value == "input"@ || value == "output"@)
        ||| key == "bias"@ && (value == "disabled"@ || value == "pull_up"@ || value
            == "pull_down"@)
        ||| key == "drive"@ && (value == "push_pull"@ || value == "open_drain"@ || value
            == "open_source"@)
        ||| key == "active_low"@ && (value == "true"@ || value == "false"@)
    }
}

proof fn lemma_line_attributes(attributes: Seq<XmlAttributeModel>)
    ensures
        line_attributes(attributes) is Ok <==> forall|i: int|
            0 <= i < attributes.len() ==> line_can_have(#[trigger] attributes[i]),
        line_attributes(attributes) matches Ok(attr) ==> {
            &&& attr.offset is Some <==> value_of(attributes, "id"@) is Some
            &&& value_of(attributes, "id"@) matches Some(text) ==> parsed_number(
                text,
                u32::MAX as nat,
            ) == Ok::<nat, crate::number::NumberError>(attr.offset->Some_0 as nat)
            &&& attr.name == value_of(attributes, "name"@)
            &&& attr.consumer == value_of(attributes, "consumer"@)
            &&& attr.direction is Some <==> value_of(attributes, "direction"@) is Some
            &&& value_of(attributes, "direction"@) == Some("input"@) <==> attr.direction == Some(
                LineDirection::Input,
            )
            &&& value_of(attributes, "direction"@) == Some("output"@) <==> attr.direction == Some(
                LineDirection::Output,
            )
            &&& attr.direction != Some(LineDirection::AsIs)
            &&& attr.bias is Some <==> value_of(attributes, "bias"@) is Some
            &&& value_of(attributes, "bias"@) == Some("disabled"@) <==> attr.bias == Some(
                LineBias::Disabled,
            )
            &&& value_of(attributes, "bias"@) == Some("pull_up"@) <==> attr.bias == Some(
                LineBias::PullUp,
            )
            &&& value_of(attributes, "bias"@) == Some("pull_down"@) <==> attr.bias == Some(
                LineBias::PullDown,
            )
            &&& attr.drive is Some <==> value_of(attributes, "drive"@) is Some
            &&& value_of(attributes, "drive"@) == Some("push_pull"@) <==> attr.drive == Some(
                LineDrive::PushPull,
            )
            &&& value_of(attributes, "drive"@) == Some("open_drain"@) <==> attr.drive == Some(
                LineDrive::OpenDrain,
            )
            &&& value_of(attributes, "drive"@) == Some("open_source"@) <==> attr.drive == Some(
                LineDrive::OpenSource,
            )
            &&& attr.active_low is Some <==> value_of(attributes, "active_low"@) is Some
            &&& value_of(attributes, "active_low"@) == Some("true"@) <==> attr.active_low == Some(
                true,
            )
            &&& value_of(attributes, "active_low"@) == Some("false"@) <==> attr.active_low == Some(
                false,
            )
        },
    decreases attributes.len(),
{
    lemma_vocabulary();
    lemma_range();
    if attributes.len() > 0 {
        let front = attributes.drop_last();
        lemma_line_attributes(front);
        assert(attributes.last() == attributes[attributes.len() - 1]);
        assert(forall|i: int| 0 <= i < front.len() ==> #[trigger] front[i] == attributes[i]);
        if line_attributes(front) is Ok {
            assert(line_attribute(line_attributes(front)->Ok_0, attributes.last()) is Ok
                <==> line_can_have(attributes.last()));
        }
        if forall|i: int| 0 <= i < attributes.len() ==> line_can_have(#[trigger] attributes[i]) {
            assert forall|i: int| 0 <= i < front.len() implies line_can_have(
                #[trigger] front[i],
            ) by {
                assert(front[i] == attributes[i]);
            }
        }
        if line_attributes(attributes) is Ok {
            assert forall|i: int| 0 <= i < attributes.len() implies line_can_have(
                #[trigger] attributes[i],
            ) by {
                if i < front.len() {
                    assert(front[i] == attributes[i]);
                }
            }
        }
    }
}

proof fn lemma_range()
    ensures
        forall|text: Seq<char>|
            #![trigger parsed_number(text, u32::MAX as nat)]
            parsed_number(text, u32::MAX as nat) matches Ok(number) ==> number <= u32::MAX,
{
    assert forall|text: Seq<char>|
        #![trigger parsed_number(text, u32::MAX as nat)]
        parsed_number(text, u32::MAX as nat) matches Ok(number) implies parsed_number(
        text,
        u32::MAX as nat,
    )->Ok_0 <= u32::MAX by {
        crate::number_laws::numbers_are_in_range(text, u32::MAX as nat);
    }
}

/// A `<line>` tag is accepted exactly where all its attributes are known and have a value that
/// they can have, it has an `id`, an input has no `drive` and an output has no `bias`.
pub proof fn well_formed_line_tags_are_accepted(attributes: Seq<XmlAttributeModel>)
    ensures
        line_start(attributes) is Ok <==> {
            &&& forall|i: int|
                0 <= i < attributes.len() ==> line_can_have(#[trigger] attributes[i])
            &&& value_of(attributes, "id"@) is Some
            &&& value_of(attributes, "direction"@) != Some("output"@) ==> value_of(
                attributes,
                "drive"@,
            ) is None
            &&& value_of(attributes, "direction"@) == Some("output"@) ==> value_of(
                attributes,
                "bias"@,
            ) is None
        },
{
    lemma_vocabulary();
    lemma_line_attributes(attributes);
}

/// A `<line>` tag means what it says: the line at its `id`, with its `name` and `consumer`,
/// empty where it has none; an output where `direction` is `output` and otherwise an input; the
/// bias, drive and polarity that it names, and otherwise no bias, push-pull and not inverted.
/// The line is low until its text says otherwise.
pub proof fn line_tags_mean_what_they_say(attributes: Seq<XmlAttributeModel>)
    requires
        line_start(attributes) is Ok,
    ensures
        ({
            let (offset, line) = line_start(attributes)->Ok_0;
            let bias = value_of(attributes, "bias"@);
            let drive = value_of(attributes, "drive"@);
            &&& value_of(attributes, "id"@) matches Some(text) && parsed_number(
                text,
                u32::MAX as nat,
            ) == Ok::<nat, crate::number::NumberError>(offset as nat)
            &&& line.name == match value_of(attributes, "name"@) {
                Some(text) => text,
                None => Seq::empty(),
            }
            &&& line.consumer == match value_of(attributes, "consumer"@) {
                Some(text) => text,
                None => Seq::empty(),
            }
            &&& value_of(attributes, "direction"@) == Some("output"@) ==> line.direction
                == LineDirection::Output
            &&& value_of(attributes, "direction"@) != Some("output"@) ==> line.direction
                == LineDirection::Input
            &&& bias is None || bias == Some("disabled"@) ==> line.bias == LineBias::Disabled
            &&& bias == Some("pull_up"@) ==> line.bias == LineBias::PullUp
            &&& bias == Some("pull_down"@) ==> line.bias == LineBias::PullDown
            &&& drive is None || drive == Some("push_pull"@) ==> line.drive == LineDrive::PushPull
            &&& drive == Some("open_drain"@) ==> line.drive == LineDrive::OpenDrain
            &&& drive == Some("open_source"@) ==> line.drive == LineDrive::OpenSource
            &&& line.active_low <==> value_of(attributes, "active_low"@) == Some("true"@)
            &&& line.level == LineLevel::Low
        }),
{
    lemma_vocabulary();
    lemma_line_attributes(attributes);
}

proof fn lemma_chip_attributes(attributes: Seq<XmlAttributeModel>)
    ensures
        chip_attributes(attributes) is Ok <==> forall|i: int|
            #![trigger attributes[i]]
            0 <= i < attributes.len() ==> (attributes[i] matches XmlAttributeModel::Pair {
                key,
                value,
            } && (key == "id"@ || key == "label"@)),
        chip_attributes(attributes) matches Ok(attr) ==> attr.id == value_of(attributes, "id"@)
            && attr.label == value_of(attributes, "label"@),
    decreases attributes.len(),
{
    lemma_vocabulary();
    if attributes.len() > 0 {
        let front = attributes.drop_last();
        lemma_chip_attributes(front);
        assert(attributes.last() == attributes[attributes.len() - 1]);
        assert(forall|i: int| 0 <= i < front.len() ==> #[trigger] front[i] == attributes[i]);
        if chip_attributes(attributes) is Ok {
            assert forall|i: int| #![trigger attributes[i]] 0 <= i < attributes.len() implies (
            attributes[i] matches XmlAttributeModel::Pair { key, value } && (key == "id"@ || key
                == "label"@)) by {
                if i < front.len() {
                    assert(front[i] == attributes[i]);
                }
            }
        }
        if forall|i: int|
            #![trigger attributes[i]]
            0 <= i < attributes.len() ==> (attributes[i] matches XmlAttributeModel::Pair {
                key,
                value,
            } && (key == "id"@ || key == "label"@)) {
            assert forall|i: int| #![trigger front[i]] 0 <= i < front.len() implies (
            front[i] matches XmlAttributeModel::Pair { key, value } && (key == "id"@ || key
                == "label"@)) by {
                assert(front[i] == attributes[i]);
            }
        }
    }
}

/// A `<gpiochip>` tag is accepted exactly where it has an `id` that is not empty and nothing but
/// that and a `label`. The chip is named by its `id`, has its `label`, and has no lines yet.
pub proof fn chip_tags_mean_what_they_say(attributes: Seq<XmlAttributeModel>)
    ensures
        chip_start(attributes) is Ok <==> {
            &&& forall|i: int|
                #![trigger attributes[i]]
                0 <= i < attributes.len() ==> (attributes[i] matches XmlAttributeModel::Pair {
                    key,
                    value,
                } && (key == "id"@ || key == "label"@))
            &&& value_of(attributes, "id"@) matches Some(id) && id.len() > 0
        },
        chip_start(attributes) matches Ok(chip) ==> {
            &&& value_of(attributes, "id"@) == Some(chip.name)
            &&& chip.label == match value_of(attributes, "label"@) {
                Some(text) => text,
                None => Seq::empty(),
            }
            &&& chip.lines.dom() == Set::<u32>::empty()
        },
{
    lemma_chip_attributes(attributes);
    if let Ok(chip) = chip_start(attributes) {
        assert(chip.lines.dom() =~= Set::<u32>::empty());
    }
}

// ---------------------------------------------------------------------------
// Documents
// ---------------------------------------------------------------------------

/// The name of a tag that opens an element.
pub open spec fn opens(event: XmlEventModel) -> Option<Seq<char>> {
    match event {
        XmlEventModel::Start { name, .. } => Some(name),
        XmlEventModel::Empty { name, .. } => Some(name),
        _ => None,
    }
}

proof fn lemma_accepted(state: LoaderModel, events: Seq<XmlEventModel>, index: int)
    requires
        load_events(state, events) is Ok,
        0 <= index < events.len(),
    ensures
        !(events[index] is Malformed),
        opens(events[index]) matches Some(name) ==> name == "gpiochip"@ || name == "line"@,
        events[index] matches XmlEventModel::Empty { name, .. } ==> name == "gpiochip"@,
        events[index] matches XmlEventModel::Start { name, attributes } ==> {
            &&& name == "gpiochip"@ ==> chip_start(attributes) is Ok
            &&& name == "line"@ ==> line_start(attributes) is Ok
        },
        opens(events[index]) == Some("gpiochip"@) ==> state.chip is None && !state.chip_closed,
    decreases events.len(),
{
    lemma_vocabulary();
    if index > 0 {
        let next = load_step(state, events[0])->Ok_0;
        assert(events.drop_first()[index - 1] == events[index]);
        lemma_accepted(next, events.drop_first(), index - 1);
    }
}

/// A document that is accepted is well formed, holds no tags but `<gpiochip>` and `<line>`, no
/// line without an end, and tags that are accepted themselves.
pub proof fn accepted_documents_hold_known_tags(events: Seq<XmlEventModel>, index: int)
    requires
        load_events(load_begin(), events) is Ok,
        0 <= index < events.len(),
    ensures
        !(events[index] is Malformed),
        opens(events[index]) matches Some(name) ==> name == "gpiochip"@ || name == "line"@,
        events[index] matches XmlEventModel::Empty { name, .. } ==> name == "gpiochip"@,
        events[index] matches XmlEventModel::Start { name, attributes } ==> {
            &&& name == "gpiochip"@ ==> chip_start(attributes) is Ok
            &&& name == "line"@ ==> line_start(attributes) is Ok
        },
{
    lemma_accepted(load_begin(), events, index);
}

proof fn lemma_one_chip(state: LoaderModel, events: Seq<XmlEventModel>, first: int, second: int)
    requires
        load_events(state, events) is Ok,
        0 <= first < second < events.len(),
    ensures
        opens(events[first]) == Some("gpiochip"@) ==> opens(events[second]) != Some("gpiochip"@),
    decreases events.len(),
{
    lemma_vocabulary();
    let next = load_step(state, events[0])->Ok_0;
    let rest = events.drop_first();
    assert(rest[second - 1] == events[second]);
    if first > 0 {
        assert(rest[first - 1] == events[first]);
        lemma_one_chip(next, rest, first - 1, second - 1);
    } else {
        lemma_accepted(next, rest, second - 1);
    }
}

proof fn lemma_some_chip(state: LoaderModel, events: Seq<XmlEventModel>)
    requires
        load_events(state, events) is Ok,
        state.chip is None,
    ensures
        exists|i: int|
            #![trigger events[i]]
            0 <= i < events.len() && opens(events[i]) == Some("gpiochip"@),
    decreases events.len(),
{
    lemma_vocabulary();
    if events.len() > 0 {
        let next = load_step(state, events[0])->Ok_0;
        let rest = events.drop_first();
        if next.chip is None {
            lemma_some_chip(next, rest);
            let i = choose|i: int|
                #![trigger rest[i]]
                0 <= i < rest.len() && opens(rest[i]) == Some("gpiochip"@);
            assert(events[i + 1] == rest[i]);
        } else {
            assert(opens(events[0]) == Some("gpiochip"@));
        }
    }
}

/// A document that is accepted holds exactly one chip.
pub proof fn accepted_documents_hold_one_chip(events: Seq<XmlEventModel>)
    requires
        load_events(load_begin(), events) is Ok,
    ensures
        exists|i: int|
            #![trigger events[i]]
            0 <= i < events.len() && opens(events[i]) == Some("gpiochip"@),
        forall|first: int, second: int|
            #![trigger events[first], events[second]]
            0 <= first < second < events.len() && opens(events[first]) == Some("gpiochip"@)
                ==> opens(events[second]) != Some("gpiochip"@),
{
    lemma_some_chip(load_begin(), events);
    assert forall|first: int, second: int|
        #![trigger events[first], events[second]]
        0 <= first < second < events.len() && opens(events[first]) == Some("gpiochip"@) implies
        opens(events[second]) != Some("gpiochip"@) by {
        lemma_one_chip(load_begin(), events, first, second);
    }
}

proof fn lemma_kept(state: LoaderModel, events: Seq<XmlEventModel>, offset: u32)
    requires
        load_events(state, events) is Ok,
        state.chip matches Some(chip) && chip.lines.contains_key(offset),
    ensures
        load_events(state, events)->Ok_0.lines.contains_key(offset),
        load_events(state, events)->Ok_0.lines[offset] == state.chip->Some_0.lines[offset],
    decreases events.len(),
{
    if events.len() > 0 {
        lemma_kept(load_step(state, events[0])->Ok_0, events.drop_first(), offset);
    }
}

proof fn lemma_line(state: LoaderModel, events: Seq<XmlEventModel>, index: int)
    requires
        load_events(state, events) is Ok,
        0 <= index,
        index + 2 < events.len(),
        events[index] matches XmlEventModel::Start { name, .. } && name == "line"@,
        events[index + 1] is Text,
        events[index + 2] == (XmlEventModel::End { name: "line"@ }),
    ensures
        ({
            let (offset, line) = line_start(events[index]->Start_attributes)->Ok_0;
            let chip = load_events(state, events)->Ok_0;
            let text = events[index + 1]->Text_text;
            &&& chip.lines.contains_key(offset)
            &&& text == "H"@ || text == "L"@
            &&& chip.lines[offset] == (LineModel {
                level: if text == "H"@ {
                    LineLevel::High
                } else {
                    LineLevel::Low
                },
                ..line
            })
        }),
    decreases events.len(),
{
    lemma_vocabulary();
    reveal_with_fuel(load_events, 4);
    let rest = events.drop_first();
    let next = load_step(state, events[0])->Ok_0;
    if index > 0 {
        assert(rest[index - 1] == events[index]);
        assert(rest[index] == events[index + 1]);
        assert(rest[index + 1] == events[index + 2]);
        lemma_line(next, rest, index - 1);
    } else {
        let (offset, line) = line_start(events[0]->Start_attributes)->Ok_0;
        assert(rest[0] == events[1]);
        let second = load_step(next, rest[0])->Ok_0;
        let tail = rest.drop_first();
        assert(tail[0] == events[2]);
        let third = load_step(second, tail[0])->Ok_0;
        lemma_kept(third, tail.drop_first(), offset);
    }
}

/// Every `<line>` element of a document that is accepted is a line of its chip, as its tag says,
/// at the level of its text: high for `H`, low for `L`.
pub proof fn line_elements_are_lines(events: Seq<XmlEventModel>, index: int)
    requires
        load_events(load_begin(), events) is Ok,
        0 <= index,
        index + 2 < events.len(),
        events[index] matches XmlEventModel::Start { name, .. } && name == "line"@,
        events[index + 1] is Text,
        events[index + 2] == (XmlEventModel::End { name: "line"@ }),
    ensures
        ({
            let (offset, line) = line_start(events[index]->Start_attributes)->Ok_0;
            let chip = load_events(load_begin(), events)->Ok_0;
            let text = events[index + 1]->Text_text;
            &&& chip.lines.contains_key(offset)
            &&& text == "H"@ || text == "L"@
            &&& chip.lines[offset] == (LineModel {
                level: if text == "H"@ {
                    LineLevel::High
                } else {
                    LineLevel::Low
                },
                ..line
            })
        }),
{
    lemma_line(load_begin(), events, index);
}

proof fn lemma_bare_line(state: LoaderModel, events: Seq<XmlEventModel>, index: int)
    requires
        load_events(state, events) is Ok,
        0 <= index,
        index + 1 < events.len(),
        events[index] matches XmlEventModel::Start { name, .. } && name == "line"@,
        events[index + 1] == (XmlEventModel::End { name: "line"@ }),
    ensures
        ({
            let (offset, line) = line_start(events[index]->Start_attributes)->Ok_0;
            let chip = load_events(state, events)->Ok_0;
            chip.lines.contains_key(offset) && chip.lines[offset] == line
        }),
    decreases events.len(),
{
    lemma_vocabulary();
    reveal_with_fuel(load_events, 4);
    let rest = events.drop_first();
    let next = load_step(state, events[0])->Ok_0;
    if index > 0 {
        assert(rest[index - 1] == events[index]);
        assert(rest[index] == events[index + 1]);
        lemma_bare_line(next, rest, index - 1);
    } else {
        let (offset, line) = line_start(events[0]->Start_attributes)->Ok_0;
        assert(rest[0] == events[1]);
        lemma_kept(load_step(next, rest[0])->Ok_0, rest.drop_first(), offset);
    }
}

/// A `<line>` element without text is a low line.
pub proof fn lines_without_text_are_low(events: Seq<XmlEventModel>, index: int)
    requires
        load_events(load_begin(), events) is Ok,
        0 <= index,
        index + 1 < events.len(),
        events[index] matches XmlEventModel::Start { name, .. } && name == "line"@,
        events[index + 1] == (XmlEventModel::End { name: "line"@ }),
    ensures
        ({
            let offset = line_start(events[index]->Start_attributes)->Ok_0.0;
            let chip = load_events(load_begin(), events)->Ok_0;
            chip.lines.contains_key(offset) && chip.lines[offset].level == LineLevel::Low
        }),
{
    lemma_bare_line(load_begin(), events, index);
    lemma_accepted(load_begin(), events, index);
    line_tags_mean_what_they_say(events[index]->Start_attributes);
}

/// How many lines the tags of a document open.
pub open spec fn line_tags(events: Seq<XmlEventModel>) -> nat
    decreases events.len(),
{
    if events.len() == 0 {
        0
    } else {
        line_tags(events.drop_first()) + if opens(events[0]) == Some("line"@) {
            1nat
        } else {
            0nat
        }
    }
}

proof fn lemma_count(state: LoaderModel, events: Seq<XmlEventModel>)
    requires
        load_events(state, events) is Ok,
        state.chip matches Some(chip) ==> chip.lines.dom().finite(),
        state.current is Some ==> state.chip is Some,
    ensures
        load_events(state, events)->Ok_0.lines.dom().finite(),
        load_events(state, events)->Ok_0.lines.len() == line_tags(events) + (match state.chip {
            Some(chip) => chip.lines.len(),
            None => 0,
        }) + if state.current is Some {
            1int
        } else {
            0int
        },
    decreases events.len(),
{
    lemma_vocabulary();
    if events.len() > 0 {
        lemma_count(load_step(state, events[0])->Ok_0, events.drop_first());
    }
}

/// A chip has as many lines as its document has `<line>` elements: no two of them have the same
/// `id`, and no line comes from elsewhere.
pub proof fn every_line_has_its_element(events: Seq<XmlEventModel>)
    requires
        load_events(load_begin(), events) is Ok,
    ensures
        load_events(load_begin(), events)->Ok_0.lines.len() == line_tags(events),
{
    lemma_count(load_begin(), events);
}

// ---------------------------------------------------------------------------
// Written documents
// ---------------------------------------------------------------------------

/// A line is written with its offset, its name and its consumer where it has one, `input` with
/// its bias or `output` with its drive, and its polarity, in this order.
pub proof fn lines_are_written_in_these_words(offset: u32, line: LineModel)
    requires
        written_attributes(offset, line) is Ok,
    ensures
        ({
            let written = written_attributes(offset, line)->Ok_0;
            let named = if line.name.len() == 0 {
                Seq::empty()
            } else {
                seq![("name"@, line.name)]
            };
            let consumed = if line.consumer.len() == 0 {
                Seq::empty()
            } else {
                seq![("consumer"@, line.consumer)]
            };
            let front = seq![("id"@, decimal(offset as nat))] + named + consumed;
            let last = ("active_low"@, if line.active_low {
                "true"@
            } else {
                "false"@
            });
            &&& line.direction != LineDirection::AsIs
            &&& line.direction == LineDirection::Input && line.bias == LineBias::Disabled
                ==> written == front + seq![("direction"@, "input"@), ("bias"@, "disabled"@), last]
            &&& line.direction == LineDirection::Input && line.bias == LineBias::PullUp ==> written
                == front + seq![("direction"@, "input"@), ("bias"@, "pull_up"@), last]
            &&& line.direction == LineDirection::Input && line.bias == LineBias::PullDown
                ==> written == front + seq![
                ("direction"@, "input"@),
                ("bias"@, "pull_down"@),
                last,
            ]
            &&& line.direction == LineDirection::Input ==> line.bias != LineBias::AsIs && line.bias
                != LineBias::Unknown
            &&& line.direction == LineDirection::Output && line.drive == LineDrive::PushPull
                ==> written == front + seq![
                ("direction"@, "output"@),
                ("drive"@, "push_pull"@),
                last,
            ]
            &&& line.direction == LineDirection::Output && line.drive == LineDrive::OpenDrain
                ==> written == front + seq![
                ("direction"@, "output"@),
                ("drive"@, "open_drain"@),
                last,
            ]
            &&& line.direction == LineDirection::Output && line.drive == LineDrive::OpenSource
                ==> written == front + seq![
                ("direction"@, "output"@),
                ("drive"@, "open_source"@),
                last,
            ]
        }),
{
}

/// A line can be written exactly where it is an output, or an input with a bias that is known.
pub proof fn lines_with_a_direction_can_be_written(offset: u32, line: LineModel)
    ensures
        written_attributes(offset, line) is Ok <==> (line.direction == LineDirection::Output || (
        line.direction == LineDirection::Input && line.bias != LineBias::AsIs && line.bias
            != LineBias::Unknown)),
{
}

proof fn lemma_elements(lines: Map<u32, LineModel>, offsets: Seq<u32>)
    requires
        line_elements(lines, offsets) is Ok,
    ensures
        ({
            let nodes = line_elements(lines, offsets)->Ok_0;
            &&& nodes.len() == 3 * offsets.len()
            &&& forall|i: int|
                #![trigger offsets[i]]
                0 <= i < offsets.len() ==> {
                    &&& written_attributes(offsets[i], lines[offsets[i]]) is Ok
                    &&& nodes[3 * i] == (XmlNodeModel::Start {
                        name: "line"@,
                        attributes: written_attributes(offsets[i], lines[offsets[i]])->Ok_0,
                    })
                    &&& nodes[3 * i + 1] == (XmlNodeModel::Text {
                        text: if lines[offsets[i]].level == LineLevel::High {
                            "H"@
                        } else {
                            "L"@
                        },
                    })
                    &&& nodes[3 * i + 2] == (XmlNodeModel::End { name: "line"@ })
                }
        }),
    decreases offsets.len(),
{
    if offsets.len() > 0 {
        let front = offsets.drop_last();
        lemma_elements(lines, front);
        let earlier = line_elements(lines, front)->Ok_0;
        let nodes = line_elements(lines, offsets)->Ok_0;
        assert(offsets.last() == offsets[offsets.len() - 1]);
        assert forall|i: int| #![trigger offsets[i]] 0 <= i < offsets.len() implies {
            &&& written_attributes(offsets[i], lines[offsets[i]]) is Ok
            &&& nodes[3 * i] == (XmlNodeModel::Start {
                name: "line"@,
                attributes: written_attributes(offsets[i], lines[offsets[i]])->Ok_0,
            })
            &&& nodes[3 * i + 1] == (XmlNodeModel::Text {
                text: if lines[offsets[i]].level == LineLevel::High {
                    "H"@
                } else {
                    "L"@
                },
            })
            &&& nodes[3 * i + 2] == (XmlNodeModel::End { name: "line"@ })
        } by {
            if i < front.len() {
                assert(front[i] == offsets[i]);
                assert(nodes[3 * i] == earlier[3 * i]);
                assert(nodes[3 * i + 1] == earlier[3 * i + 1]);
                assert(nodes[3 * i + 2] == earlier[3 * i + 2]);
            }
        }
    }
}

/// A chip is written as one `<gpiochip>` element with its name as `id`, its label where it has
/// one, and one `<line>` element for each line in the order of their offsets, with `H` in a high
/// line and `L` in a low one.
pub proof fn chips_are_written_line_by_line(chip: ChipModel)
    requires
        chip_nodes(chip) is Ok,
    ensures
        ({
            let nodes = chip_nodes(chip)->Ok_0;
            let offsets = sorted_offsets(chip.lines.dom());
            &&& nodes.len() == 3 * offsets.len() + 2
            &&& nodes[0] == (XmlNodeModel::Start {
                name: "gpiochip"@,
                attributes: seq![("id"@, chip.name)] + if chip.label.len() == 0 {
                    Seq::empty()
                } else {
                    seq![("label"@, chip.label)]
                },
            })
            &&& nodes[nodes.len() - 1] == (XmlNodeModel::End { name: "gpiochip"@ })
            &&& forall|i: int|
                #![trigger offsets[i]]
                0 <= i < offsets.len() ==> {
                    &&& written_attributes(offsets[i], chip.lines[offsets[i]]) is Ok
                    &&& nodes[1 + 3 * i] == (XmlNodeModel::Start {
                        name: "line"@,
                        attributes: written_attributes(offsets[i], chip.lines[offsets[i]])->Ok_0,
                    })
                    &&& nodes[2 + 3 * i] == (XmlNodeModel::Text {
                        text: if chip.lines[offsets[i]].level == LineLevel::High {
                            "H"@
                        } else {
                            "L"@
                        },
                    })
                    &&& nodes[3 + 3 * i] == (XmlNodeModel::End { name: "line"@ })
                }
        }),
{
    let offsets = sorted_offsets(chip.lines.dom());
    lemma_elements(chip.lines, offsets);
    let elements = line_elements(chip.lines, offsets)->Ok_0;
    let nodes = chip_nodes(chip)->Ok_0;
    assert forall|i: int| 0 <= i < elements.len() implies #[trigger] elements[i] == nodes[1 + i] by {
    }
    assert forall|i: int| #![trigger offsets[i]] 0 <= i < offsets.len() implies nodes[1 + 3 * i]
        == elements[3 * i] && nodes[2 + 3 * i] == elements[3 * i + 1] && nodes[3 + 3 * i]
        == elements[3 * i + 2] by {
        assert(elements[3 * i] == nodes[1 + 3 * i]);
        assert(elements[3 * i + 1] == nodes[1 + (3 * i + 1)]);
        assert(elements[3 * i + 2] == nodes[1 + (3 * i + 2)]);
    }
}

// ---------------------------------------------------------------------------
// Comparing
// ---------------------------------------------------------------------------

proof fn lemma_compared(
    state: DiffModel,
    events: Seq<XmlEventModel>,
    baseline: ChipModel,
    index: int,
)
    requires
        diff_events(state, events, baseline) is Ok,
        0 <= index < events.len(),
    ensures
        !(events[index] is Malformed),
        opens(events[index]) != Some("gpiochips"@),
    decreases events.len(),
{
    lemma_vocabulary();
    if index > 0 {
        assert(events.drop_first()[index - 1] == events[index]);
        lemma_compared(
            diff_step(state, events[0], baseline)->Ok_0,
            events.drop_first(),
            baseline,
            index - 1,
        );
    }
}

/// A file that is not well formed, or that holds several chips in a `<gpiochips>` element, is
/// not compared with a chip.
pub proof fn broken_documents_are_not_compared(
    events: Seq<XmlEventModel>,
    baseline: ChipModel,
    index: int,
)
    requires
        0 <= index < events.len(),
        events[index] is Malformed || opens(events[index]) == Some("gpiochips"@),
    ensures
        diff_events(diff_begin(), events, baseline) is Err,
        load_events(load_begin(), events) is Err,
{
    lemma_vocabulary();
    if diff_events(diff_begin(), events, baseline) is Ok {
        lemma_compared(diff_begin(), events, baseline, index);
    }
    if load_events(load_begin(), events) is Ok {
        lemma_accepted(load_begin(), events, index);
    }
}

} // verus!

//! Chip documents as text, and what reading one back gives.

use vstd::prelude::*;
use vstd::string::StringExecFns;

use crate::gpio::libgpiod::GPIOError;
use crate::gpio::libgpiod::GPIOErrorModel;
use crate::gpio::libgpiod::LineBias;
use crate::gpio::libgpiod::LineDirection;
use crate::gpio::libgpiod::LineDrive;
use crate::gpio::mock::load::chip_attributes;
use crate::gpio::mock::load::chip_start;
use crate::gpio::mock::load::line_attribute;
use crate::gpio::mock::load::line_attributes;
use crate::gpio::mock::load::line_start;
use crate::gpio::mock::load::load_begin;
use crate::gpio::mock::load::load_events;
use crate::gpio::mock::load::load_snapshot;
use crate::gpio::mock::load::load_step;
use crate::gpio::mock::load::LineAttributesModel;
use crate::gpio::mock::load::LoaderModel;
use crate::gpio::mock::save::bias_text;
use crate::gpio::mock::save::bool_text;
use crate::gpio::mock::save::chip_nodes;
use crate::gpio::mock::save::drive_text;
use crate::gpio::mock::save::line_element;
use crate::gpio::mock::save::line_elements;
use crate::gpio::mock::save::optional_attribute;
use crate::gpio::mock::save::save_snapshot;
use crate::gpio::mock::save::written_attributes;
use crate::gpio::mock::snapshot::level_text;
use crate::gpio::mock::snapshot::ChipModel;
use crate::gpio::mock::snapshot::LineLevel;
use crate::gpio::mock::snapshot::LineModel;
use crate::gpio::mock::snapshot::LoadErrorModel;
use crate::gpio::mock::snapshot::MockChipSnapshot;
use crate::gpio::mock::xml::attribute_pairs;
use crate::gpio::mock::xml::break_before;
use crate::gpio::mock::xml::plain_attributes;
use crate::gpio::mock::xml::plain_document;
use crate::gpio::mock::xml::plain_name;
use crate::gpio::mock::xml::plain_value;
use crate::gpio::mock::xml::read_back;
use crate::gpio::mock::xml::xml_events;
use crate::gpio::mock::xml::xml_text;
use crate::gpio::mock::xml::XmlAttributeModel;
use crate::gpio::mock::xml::XmlEventModel;
use crate::gpio::mock::xml::XmlNodeModel;
use crate::gpio::mock::xml::XmlSource;
use crate::keys::ascending_offsets;
use crate::keys::lemma_sorted_offsets;
use crate::keys::sorted_offsets;
use crate::number::decimal;
use crate::number::is_digit;
use crate::number::lemma_decimal_digits;
use crate::number::lemma_parse_decimal;

verus! {

/// The texts of the documents' vocabulary are all different where they are compared.
pub(crate) proof fn lemma_vocabulary()
    ensures
        "id"@ != "name"@,
        "id"@ != "consumer"@,
        "id"@ != "direction"@,
        "id"@ != "bias"@,
        "id"@ != "drive"@,
        "id"@ != "active_low"@,
        "id"@ != "label"@,
        "name"@ != "consumer"@,
        "name"@ != "direction"@,
        "name"@ != "bias"@,
        "name"@ != "drive"@,
        "name"@ != "active_low"@,
        "consumer"@ != "direction"@,
        "consumer"@ != "bias"@,
        "consumer"@ != "drive"@,
        "consumer"@ != "active_low"@,
        "direction"@ != "bias"@,
        "direction"@ != "drive"@,
        "direction"@ != "active_low"@,
        "bias"@ != "drive"@,
        "bias"@ != "active_low"@,
        "drive"@ != "active_low"@,
        "input"@ != "output"@,
        "disabled"@ != "pull_up"@,
        "disabled"@ != "pull_down"@,
        "pull_up"@ != "pull_down"@,
        "push_pull"@ != "open_drain"@,
        "push_pull"@ != "open_source"@,
        "open_drain"@ != "open_source"@,
        "true"@ != "false"@,
        "H"@ != "L"@,
        "gpiochips"@ != "gpiochip"@,
        "gpiochips"@ != "line"@,
        "gpiochip"@ != "line"@,
{
    reveal_strlit("id");
    reveal_strlit("name");
    reveal_strlit("consumer");
    reveal_strlit("direction");
    reveal_strlit("bias");
    reveal_strlit("drive");
    reveal_strlit("active_low");
    reveal_strlit("label");
    reveal_strlit("input");
    reveal_strlit("output");
    reveal_strlit("disabled");
    reveal_strlit("pull_up");
    reveal_strlit("pull_down");
    reveal_strlit("push_pull");
    reveal_strlit("open_drain");
    reveal_strlit("open_source");
    reveal_strlit("true");
    reveal_strlit("false");
    reveal_strlit("H");
    reveal_strlit("L");
    reveal_strlit("gpiochips");
    reveal_strlit("gpiochip");
    reveal_strlit("line");
    assert("id"@.len() == 2);
    assert("name"@.len() == 4);
    assert("consumer"@.len() == 8);
    assert("direction"@.len() == 9);
    assert("bias"@.len() == 4);
    assert("drive"@.len() == 5);
    assert("active_low"@.len() == 10);
    assert("label"@.len() == 5);
    assert("input"@.len() == 5);
    assert("output"@.len() == 6);
    assert("disabled"@.len() == 8);
    assert("pull_up"@.len() == 7);
    assert("pull_down"@.len() == 9);
    assert("push_pull"@.len() == 9);
    assert("open_drain"@.len() == 10);
    assert("open_source"@.len() == 11);
    assert("true"@.len() == 4);
    assert("false"@.len() == 5);
    assert("H"@.len() == 1);
    assert("L"@.len() == 1);
    assert("gpiochips"@.len() == 9);
    assert("gpiochip"@.len() == 8);
    assert("line"@.len() == 4);
    assert("name"@[0] == 'n');
    assert("bias"@[0] == 'b');
    assert("H"@[0] == 'H');
    assert("L"@[0] == 'L');
}

proof fn lemma_plain_words()
    ensures
        plain_name("id"@),
        plain_name("name"@),
        plain_name("consumer"@),
        plain_name("direction"@),
        plain_name("bias"@),
        plain_name("drive"@),
        plain_name("active_low"@),
        plain_name("label"@),
        plain_name("gpiochip"@),
        plain_name("line"@),
        plain_value("input"@),
        plain_value("output"@),
        plain_value("disabled"@),
        plain_value("pull_up"@),
        plain_value("pull_down"@),
        plain_value("push_pull"@),
        plain_value("open_drain"@),
        plain_value("open_source"@),
        plain_value("true"@),
        plain_value("false"@),
{
    reveal_strlit("id");
    reveal_strlit("name");
    reveal_strlit("consumer");
    reveal_strlit("direction");
    reveal_strlit("bias");
    reveal_strlit("drive");
    reveal_strlit("active_low");
    reveal_strlit("label");
    reveal_strlit("input");
    reveal_strlit("output");
    reveal_strlit("disabled");
    reveal_strlit("pull_up");
    reveal_strlit("pull_down");
    reveal_strlit("push_pull");
    reveal_strlit("open_drain");
    reveal_strlit("open_source");
    reveal_strlit("true");
    reveal_strlit("false");
    reveal_strlit("gpiochip");
    reveal_strlit("line");
}

/// The line that a written line is read back as: what its direction does not use takes its
/// default.
pub open spec fn normalized_line(line: LineModel) -> LineModel {
    if line.direction == LineDirection::Output {
        LineModel { bias: LineBias::Disabled, ..line }
    } else {
        LineModel { drive: LineDrive::PushPull, ..line }
    }
}

/// The chip that a written chip is read back as.
pub open spec fn normalized_chip(chip: ChipModel) -> ChipModel {
    ChipModel { lines: chip.lines.map_values(|line: LineModel| normalized_line(line)), ..chip }
}

/// A chip whose texts hold no tab and no line break.
pub open spec fn plain_chip(chip: ChipModel) -> bool {
    &&& plain_value(chip.name)
    &&& plain_value(chip.label)
    &&& forall|offset: u32| #[trigger]
        chip.lines.contains_key(offset) ==> plain_line(chip.lines[offset])
}

/// A line whose texts hold no tab and no line break.
pub open spec fn plain_line(line: LineModel) -> bool {
    plain_value(line.name) && plain_value(line.consumer)
}

proof fn lemma_written_attributes_plain(offset: u32, line: LineModel)
    requires
        plain_line(line),
        written_attributes(offset, line) is Ok,
    ensures
        plain_attributes(written_attributes(offset, line)->Ok_0),
{
    lemma_vocabulary();
    lemma_plain_words();
    lemma_decimal_digits(offset as nat);
    assert(plain_value(decimal(offset as nat))) by {
        assert forall|i: int| 0 <= i < decimal(offset as nat).len() implies {
            let ch = #[trigger] decimal(offset as nat)[i];
            ch != '\t' && ch != '\n' && ch != '\r'
        } by {
            assert(is_digit(decimal(offset as nat)[i]));
        }
    }
}

proof fn lemma_attributes_push(attributes: Seq<XmlAttributeModel>, attribute: XmlAttributeModel)
    ensures
        line_attributes(attributes.push(attribute)) == (match line_attributes(attributes) {
            Err(error) => Err::<LineAttributesModel, LoadErrorModel>(error),
            Ok(seen) => line_attribute(seen, attribute),
        }),
{
    assert(attributes.push(attribute).drop_last() =~= attributes);
}

/// The attributes of a written line describe that line, at low level.
proof fn lemma_written_line_start(offset: u32, line: LineModel)
    requires
        written_attributes(offset, line) is Ok,
    ensures
        line_start(attribute_pairs(written_attributes(offset, line)->Ok_0)) == Ok::<
            (u32, LineModel),
            LoadErrorModel,
        >((offset, LineModel { level: LineLevel::Low, ..normalized_line(line) })),
{
    lemma_vocabulary();
    lemma_parse_decimal(offset as nat, u32::MAX as nat);
    let pair = |key: Seq<char>, value: Seq<char>| XmlAttributeModel::Pair { key, value };
    let s0 = Seq::<XmlAttributeModel>::empty();
    let s1 = s0.push(pair("id"@, decimal(offset as nat)));
    lemma_attributes_push(s0, pair("id"@, decimal(offset as nat)));
    let s2 = if line.name.len() == 0 {
        s1
    } else {
        s1.push(pair("name"@, line.name))
    };
    lemma_attributes_push(s1, pair("name"@, line.name));
    let s3 = if line.consumer.len() == 0 {
        s2
    } else {
        s2.push(pair("consumer"@, line.consumer))
    };
    lemma_attributes_push(s2, pair("consumer"@, line.consumer));
    let direction = if line.direction == LineDirection::Input {
        "input"@
    } else {
        "output"@
    };
    let s4 = s3.push(pair("direction"@, direction));
    lemma_attributes_push(s3, pair("direction"@, direction));
    let detail = if line.direction == LineDirection::Input {
        pair("bias"@, bias_text(line.bias)->Ok_0)
    } else {
        pair("drive"@, drive_text(line.drive))
    };
    let s5 = s4.push(detail);
    lemma_attributes_push(s4, detail);
    let polarity = pair("active_low"@, bool_text(line.active_low));
    let s6 = s5.push(polarity);
    lemma_attributes_push(s5, polarity);
    assert(attribute_pairs(written_attributes(offset, line)->Ok_0) =~= s6);
    assert(line.name.len() == 0 ==> line.name =~= Seq::<char>::empty());
    assert(line.consumer.len() == 0 ==> line.consumer =~= Seq::<char>::empty());
}

/// The nodes of one line, followed by others, are a document where the others are.
proof fn lemma_line_plain(
    attributes: Seq<(Seq<char>, Seq<char>)>,
    line: LineModel,
    tail: Seq<XmlNodeModel>,
    open: Seq<Seq<char>>,
)
    requires
        plain_attributes(attributes),
    ensures
        plain_document(line_element(attributes, line) + tail, open) == plain_document(tail, open),
{
    lemma_plain_words();
    reveal_strlit("H");
    reveal_strlit("L");
    reveal_with_fuel(plain_document, 4);
    let all = line_element(attributes, line) + tail;
    let after_start = all.drop_first();
    let after_text = after_start.drop_first();
    assert(after_text.drop_first() =~= tail);
    assert(all[0] == line_element(attributes, line)[0]);
    assert(after_start[0] == line_element(attributes, line)[1]);
    assert(after_text[0] == line_element(attributes, line)[2]);
    assert(open.push("line"@).drop_last() =~= open);
}

/// One line of a document, followed by others, is read as that line.
proof fn lemma_line_read(
    offset: u32,
    line: LineModel,
    tail: Seq<XmlNodeModel>,
    chip: ChipModel,
)
    requires
        written_attributes(offset, line) is Ok,
        !chip.lines.contains_key(offset),
    ensures
        ({
            let attributes = written_attributes(offset, line)->Ok_0;
            let before = LoaderModel { chip: Some(chip), chip_closed: false, current: None };
            let after = LoaderModel {
                chip: Some(
                    ChipModel { lines: chip.lines.insert(offset, normalized_line(line)), ..chip },
                ),
                ..before
            };
            load_events(before, read_back(line_element(attributes, line) + tail, 1, true))
                == load_events(after, read_back(tail, 1, true))
        }),
{
    lemma_vocabulary();
    lemma_written_line_start(offset, line);
    let attributes = written_attributes(offset, line)->Ok_0;
    let nodes = line_element(attributes, line) + tail;
    let after_start = nodes.drop_first();
    let after_text = after_start.drop_first();
    assert(after_text.drop_first() =~= tail);
    assert(nodes[0] == line_element(attributes, line)[0]);
    assert(after_start[0] == line_element(attributes, line)[1]);
    assert(after_text[0] == line_element(attributes, line)[2]);
    let rest = read_back(tail, 1, true);
    let e0 = break_before(1, true)[0];
    let e1 = XmlEventModel::Start { name: "line"@, attributes: attribute_pairs(attributes) };
    let e2 = XmlEventModel::Text { text: level_text(line.level) };
    let e3 = XmlEventModel::End { name: "line"@ };
    let events = seq![e0, e1, e2, e3] + rest;
    assert(read_back(after_text, 2, false) =~= seq![e3] + rest);
    assert(read_back(after_start, 2, true) =~= seq![e2, e3] + rest);
    assert(read_back(nodes, 1, true) =~= events);
    let s0 = LoaderModel { chip: Some(chip), chip_closed: false, current: None };
    let low = LineModel { level: LineLevel::Low, ..normalized_line(line) };
    let s1 = LoaderModel { current: Some((offset, low)), ..s0 };
    let s2 = LoaderModel { current: Some((offset, normalized_line(line))), ..s0 };
    assert(load_step(s0, e0) == Ok::<LoaderModel, LoadErrorModel>(s0));
    assert(load_step(s0, e1) == Ok::<LoaderModel, LoadErrorModel>(s1));
    assert(load_step(s1, e2) == Ok::<LoaderModel, LoadErrorModel>(s2));
    let t1 = events.drop_first();
    let t2 = t1.drop_first();
    let t3 = t2.drop_first();
    assert(t3.drop_first() =~= rest);
    assert(events[0] == e0 && t1[0] == e1 && t2[0] == e2 && t3[0] == e3);
    assert(load_events(s0, events) == load_events(s0, t1));
    assert(load_events(s0, t1) == load_events(s1, t2));
    assert(load_events(s1, t2) == load_events(s2, t3));
}

/// The lines at the given offsets, normalized.
pub open spec fn normalized_lines(lines: Map<u32, LineModel>, offsets: Seq<u32>) -> Map<
    u32,
    LineModel,
>
    decreases offsets.len(),
{
    if offsets.len() == 0 {
        Map::empty()
    } else {
        normalized_lines(lines, offsets.drop_last()).insert(
            offsets.last(),
            normalized_line(lines[offsets.last()]),
        )
    }
}

proof fn lemma_normalized_lines(lines: Map<u32, LineModel>, offsets: Seq<u32>)
    ensures
        forall|offset: u32|
            normalized_lines(lines, offsets).contains_key(offset) <==> offsets.contains(offset),
        forall|offset: u32|
            offsets.contains(offset) ==> #[trigger] normalized_lines(lines, offsets)[offset]
                == normalized_line(lines[offset]),
    decreases offsets.len(),
{
    if offsets.len() > 0 {
        lemma_normalized_lines(lines, offsets.drop_last());
        assert forall|offset: u32|
            normalized_lines(lines, offsets).contains_key(offset) <==> offsets.contains(
                offset,
            ) by {
            if offsets.contains(offset) && offset != offsets.last() {
                let i = choose|i: int| 0 <= i < offsets.len() && offsets[i] == offset;
                assert(offsets.drop_last()[i] == offset);
            }
            if offsets.drop_last().contains(offset) {
                let i = choose|i: int|
                    0 <= i < offsets.drop_last().len() && offsets.drop_last()[i] == offset;
                assert(offsets[i] == offset);
            }
            assert(offsets[offsets.len() - 1] == offsets.last());
        }
        assert forall|offset: u32| offsets.contains(offset) implies #[trigger] normalized_lines(
            lines,
            offsets,
        )[offset] == normalized_line(lines[offset]) by {
            if offset != offsets.last() {
                let i = choose|i: int| 0 <= i < offsets.len() && offsets[i] == offset;
                assert(offsets.drop_last()[i] == offset);
            }
        }
    }
}

/// The lines of a document, followed by other nodes, are read as those lines.
proof fn lemma_lines_read(
    lines: Map<u32, LineModel>,
    offsets: Seq<u32>,
    tail: Seq<XmlNodeModel>,
    chip: ChipModel,
    open: Seq<Seq<char>>,
)
    requires
        line_elements(lines, offsets) is Ok,
        ascending_offsets(offsets),
        chip.lines == Map::<u32, LineModel>::empty(),
        forall|i: int| 0 <= i < offsets.len() ==> plain_line(lines[#[trigger] offsets[i]]),
    ensures
        ({
            let nodes = line_elements(lines, offsets)->Ok_0;
            let before = LoaderModel { chip: Some(chip), chip_closed: false, current: None };
            let after = LoaderModel {
                chip: Some(ChipModel { lines: normalized_lines(lines, offsets), ..chip }),
                ..before
            };
            &&& plain_document(nodes + tail, open) == plain_document(tail, open)
            &&& load_events(before, read_back(nodes + tail, 1, true)) == load_events(
                after,
                read_back(tail, 1, true),
            )
        }),
    decreases offsets.len(),
{
    let nodes = line_elements(lines, offsets)->Ok_0;
    if offsets.len() == 0 {
        assert(nodes + tail =~= tail);
    } else {
        let offset = offsets.last();
        let line = lines[offset];
        let front = line_elements(lines, offsets.drop_last())->Ok_0;
        let attributes = written_attributes(offset, line)->Ok_0;
        let element = line_element(attributes, line);
        assert(nodes + tail =~= front + (element + tail));
        assert forall|i: int| 0 <= i < offsets.drop_last().len() implies plain_line(
            lines[#[trigger] offsets.drop_last()[i]],
        ) by {
            assert(offsets.drop_last()[i] == offsets[i]);
        }
        lemma_lines_read(lines, offsets.drop_last(), element + tail, chip, open);
        assert(offsets[offsets.len() - 1] == offset);
        lemma_written_attributes_plain(offset, line);
        lemma_line_plain(attributes, line, tail, open);
        lemma_normalized_lines(lines, offsets.drop_last());
        let seen = ChipModel { lines: normalized_lines(lines, offsets.drop_last()), ..chip };
        assert(!seen.lines.contains_key(offset)) by {
            if offsets.drop_last().contains(offset) {
                let i = choose|i: int|
                    0 <= i < offsets.drop_last().len() && offsets.drop_last()[i] == offset;
                assert(offsets[i] < offsets[offsets.len() - 1]);
            }
        }
        lemma_line_read(offset, line, tail, seen);
    }
}

/// A chip that can be written is read back as it was, up to normal form, provided that it has
/// a name and that its texts hold no tab and no line break.
pub proof fn saved_chip_loads_back(chip: ChipModel)
    requires
        chip_nodes(chip) is Ok,
        chip.name.len() > 0,
        plain_chip(chip),
        chip.lines.dom().finite(),
    ensures
        plain_document(chip_nodes(chip)->Ok_0, Seq::empty()),
        load_events(load_begin(), read_back(chip_nodes(chip)->Ok_0, 0, false)) == Ok::<
            ChipModel,
            LoadErrorModel,
        >(normalized_chip(chip)),
{
    lemma_vocabulary();
    lemma_plain_words();
    lemma_sorted_offsets(chip.lines.dom());
    let nodes = chip_nodes(chip)->Ok_0;
    let offsets = sorted_offsets(chip.lines.dom());
    let elements = line_elements(chip.lines, offsets)->Ok_0;
    let close = seq![XmlNodeModel::End { name: "gpiochip"@ }];
    let opened = ChipModel { lines: Map::empty(), ..chip };
    assert forall|i: int| 0 <= i < offsets.len() implies plain_line(
        chip.lines[#[trigger] offsets[i]],
    ) by {
        assert(offsets.to_set().contains(offsets[i]));
    }
    let open = Seq::<Seq<char>>::empty().push("gpiochip"@);
    lemma_lines_read(chip.lines, offsets, close, opened, open);
    assert(nodes.drop_first() =~= elements + close);
    // The document is well nested.
    reveal_with_fuel(plain_document, 3);
    assert(close.drop_first() =~= Seq::<XmlNodeModel>::empty());
    assert(plain_document(close, open));
    // The opening tag is read as the chip without lines.
    let attributes = seq![("id"@, chip.name)] + optional_attribute("label"@, chip.label);
    let pairs = attribute_pairs(attributes);
    assert(chip_start(pairs) == Ok::<ChipModel, LoadErrorModel>(opened)) by {
        reveal_with_fuel(chip_attributes, 4);
        if chip.label.len() == 0 {
            assert(chip.label =~= Seq::<char>::empty());
            assert(pairs.drop_last() =~= Seq::<XmlAttributeModel>::empty());
        } else {
            assert(pairs.drop_last().drop_last() =~= Seq::<XmlAttributeModel>::empty());
        }
    }
    let start = XmlEventModel::Start { name: "gpiochip"@, attributes: pairs };
    let rest = read_back(elements + close, 1, true);
    assert(read_back(nodes, 0, false) =~= seq![start] + rest);
    assert((seq![start] + rest).drop_first() =~= rest);
    let after_open = LoaderModel { chip: Some(opened), chip_closed: false, current: None };
    assert(load_events(load_begin(), seq![start] + rest) == load_events(after_open, rest));
    // The closing tag ends the document.
    let loaded = ChipModel { lines: normalized_lines(chip.lines, offsets), ..chip };
    let after_lines = LoaderModel { chip: Some(loaded), chip_closed: false, current: None };
    let e0 = break_before(0, true)[0];
    let e1 = XmlEventModel::End { name: "gpiochip"@ };
    let last = seq![e0, e1, XmlEventModel::Eof];
    assert(read_back(close, 1, true) =~= last) by {
        reveal_with_fuel(read_back, 3);
    }
    assert(load_events(after_lines, last) == Ok::<ChipModel, LoadErrorModel>(loaded)) by {
        reveal_with_fuel(load_events, 5);
        assert(last.drop_first().drop_first().drop_first() =~= Seq::<XmlEventModel>::empty());
    }
    lemma_normalized_lines(chip.lines, offsets);
    assert(loaded.lines =~= normalized_chip(chip).lines) by {
        assert forall|offset: u32|
            loaded.lines.contains_key(offset) == normalized_chip(chip).lines.contains_key(
                offset,
            ) by {
            assert(offsets.to_set().contains(offset) == offsets.contains(offset));
        }
    }
}

/// Reads a one-chip document.
pub fn parse_chip_xml(content: &str) -> (result: Result<MockChipSnapshot, GPIOError>)
    ensures
        match (result, load_events(load_begin(), xml_events(content@))) {
            (Ok(chip), Ok(expected)) => chip@ == expected,
            (Err(error), Err(expected)) => error@ == GPIOErrorModel::Other(
                "xml parse error: "@ + expected.text(),
            ),
            _ => false,
        },
{
    let mut source = XmlSource::open(content);
    match load_snapshot(&mut source) {
        Ok(chip) => Ok(chip),
        Err(error) => Err(
            GPIOError::Other("xml parse error: ".to_owned().concat(error.message().as_str())),
        ),
    }
}

/// Writes a chip as a one-chip document. Reading the document gives the chip back in normal
/// form where the chip has a name and its texts hold no tab and no line break.
pub fn serialize_chip_xml(snapshot: &MockChipSnapshot) -> (result: Result<String, GPIOError>)
    ensures
        match (result, chip_nodes(snapshot@)) {
            (Ok(text), Ok(nodes)) => {
                &&& text@ == xml_text(nodes)
                &&& snapshot@.name.len() > 0 && plain_chip(snapshot@) ==> load_events(
                    load_begin(),
                    xml_events(text@),
                ) == Ok::<ChipModel, LoadErrorModel>(normalized_chip(snapshot@))
            },
            (Err(error), Err(expected)) => error@ == GPIOErrorModel::Io(expected),
            _ => false,
        },
{
    proof {
        if chip_nodes(snapshot@) is Ok && snapshot@.name.len() > 0 && plain_chip(snapshot@) {
            assert(snapshot@.lines.dom() =~= snapshot.lines@.dom());
            saved_chip_loads_back(snapshot@);
        }
    }
    match save_snapshot(snapshot) {
        Ok(text) => Ok(text),
        Err(error) => Err(GPIOError::Io(error)),
    }
}

} // verus!

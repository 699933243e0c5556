//! Writing a chip document.

use vstd::prelude::*;

use crate::gpio::libgpiod::LineBias;
use crate::gpio::libgpiod::LineDirection;
use crate::gpio::libgpiod::LineDrive;
use crate::gpio::mock::snapshot::level_text;
use crate::gpio::mock::snapshot::ChipModel;
use crate::gpio::mock::snapshot::LineModel;
use crate::gpio::mock::snapshot::MockChipSnapshot;
use crate::gpio::mock::snapshot::MockLineSnapshot;
use crate::gpio::mock::xml::node_models;
use crate::gpio::mock::xml::pair_models;
use crate::gpio::mock::xml::plain_document;
use crate::gpio::mock::xml::read_back;
use crate::gpio::mock::xml::render_nodes;
use crate::gpio::mock::xml::xml_events;
use crate::gpio::mock::xml::xml_text;
use crate::gpio::mock::xml::XmlNode;
use crate::gpio::mock::xml::XmlNodeModel;
use crate::keys::offsets_in_order;
use crate::keys::sorted_offsets;
use crate::number::decimal;
use crate::number::number_text;

verus! {

/// The text of a bias, where it has one.
pub open spec fn bias_text(bias: LineBias) -> Result<Seq<char>, Seq<char>> {
    match bias {
        LineBias::AsIs => Err("invalid line bias `as_is`"@),
        LineBias::Unknown => Err("invalid line bias `unknown`"@),
        LineBias::Disabled => Ok("disabled"@),
        LineBias::PullUp => Ok("pull_up"@),
        LineBias::PullDown => Ok("pull_down"@),
    }
}

/// The text of a drive.
pub open spec fn drive_text(drive: LineDrive) -> Seq<char> {
    match drive {
        LineDrive::PushPull => "push_pull"@,
        LineDrive::OpenDrain => "open_drain"@,
        LineDrive::OpenSource => "open_source"@,
    }
}

/// The text of a truth value.
pub open spec fn bool_text(flag: bool) -> Seq<char> {
    if flag {
        "true"@
    } else {
        "false"@
    }
}

/// An attribute that is left out when its text is empty.
pub open spec fn optional_attribute(key: Seq<char>, value: Seq<char>) -> Seq<
    (Seq<char>, Seq<char>),
> {
    if value.len() == 0 {
        Seq::empty()
    } else {
        seq![(key, value)]
    }
}

/// The attributes that depend on the direction: `bias` of an input, `drive` of an output.
pub open spec fn direction_attributes(line: LineModel) -> Result<
    Seq<(Seq<char>, Seq<char>)>,
    Seq<char>,
> {
    match line.direction {
        LineDirection::Input => match bias_text(line.bias) {
            Ok(bias) => Ok(seq![("direction"@, "input"@), ("bias"@, bias)]),
            Err(text) => Err(text),
        },
        LineDirection::Output => Ok(
            seq![("direction"@, "output"@), ("drive"@, drive_text(line.drive))],
        ),
        LineDirection::AsIs => Err("invalid line direction `as_is`"@),
    }
}

/// The attributes of a line, in the order in which they are written.
pub open spec fn written_attributes(offset: u32, line: LineModel) -> Result<
    Seq<(Seq<char>, Seq<char>)>,
    Seq<char>,
> {
    match direction_attributes(line) {
        Ok(middle) => Ok(
            seq![("id"@, decimal(offset as nat))] + optional_attribute("name"@, line.name)
                + optional_attribute("consumer"@, line.consumer) + middle + seq![
                ("active_low"@, bool_text(line.active_low)),
            ],
        ),
        Err(text) => Err(text),
    }
}

/// The nodes of a line with the given attributes.
pub open spec fn line_element(attributes: Seq<(Seq<char>, Seq<char>)>, line: LineModel) -> Seq<
    XmlNodeModel,
> {
    seq![
        XmlNodeModel::Start { name: "line"@, attributes },
        XmlNodeModel::Text { text: level_text(line.level) },
        XmlNodeModel::End { name: "line"@ },
    ]
}

/// The nodes of the lines at the given offsets, or why one of them cannot be written.
pub open spec fn line_elements(lines: Map<u32, LineModel>, offsets: Seq<u32>) -> Result<
    Seq<XmlNodeModel>,
    Seq<char>,
>
    decreases offsets.len(),
{
    if offsets.len() == 0 {
        Ok(Seq::empty())
    } else {
        match line_elements(lines, offsets.drop_last()) {
            Err(text) => Err(text),
            Ok(nodes) => {
                let line = lines[offsets.last()];
                match written_attributes(offsets.last(), line) {
                    Err(text) => Err(text),
                    Ok(attributes) => Ok(nodes + line_element(attributes, line)),
                }
            },
        }
    }
}

/// The opening tag of a chip: `label` is left out when it is empty.
pub open spec fn chip_open(chip: ChipModel) -> XmlNodeModel {
    XmlNodeModel::Start {
        name: "gpiochip"@,
        attributes: seq![("id"@, chip.name)] + optional_attribute("label"@, chip.label),
    }
}

/// The nodes of a chip, its lines in the order of their offsets, or why one of them cannot be
/// written.
pub open spec fn chip_nodes(chip: ChipModel) -> Result<Seq<XmlNodeModel>, Seq<char>> {
    match line_elements(chip.lines, sorted_offsets(chip.lines.dom())) {
        Ok(nodes) => Ok(
            seq![chip_open(chip)] + nodes + seq![XmlNodeModel::End { name: "gpiochip"@ }],
        ),
        Err(text) => Err(text),
    }
}

/// A line that cannot be written stops the whole document.
proof fn lemma_line_fault(lines: Map<u32, LineModel>, offsets: Seq<u32>, count: int)
    requires
        0 <= count <= offsets.len(),
        line_elements(lines, offsets.take(count)) is Err,
    ensures
        line_elements(lines, offsets) == line_elements(lines, offsets.take(count)),
    decreases offsets.len(),
{
    if count == offsets.len() {
        assert(offsets.take(count) =~= offsets);
    } else {
        assert(offsets.drop_last().take(count) =~= offsets.take(count));
        lemma_line_fault(lines, offsets.drop_last(), count);
    }
}

fn push_attribute(attributes: &mut Vec<(String, String)>, key: &str, value: &str)
    ensures
        pair_models(final(attributes)@) == pair_models(old(attributes)@).push((key@, value@)),
{
    attributes.push((key.to_owned(), value.to_owned()));
    assert(pair_models(attributes@) =~= pair_models(old(attributes)@).push((key@, value@)));
}

fn push_optional(attributes: &mut Vec<(String, String)>, key: &str, value: &str)
    ensures
        pair_models(final(attributes)@) == pair_models(old(attributes)@) + optional_attribute(
            key@,
            value@,
        ),
{
    if !value.is_empty() {
        push_attribute(attributes, key, value);
    }
    assert(pair_models(attributes@) =~= pair_models(old(attributes)@) + optional_attribute(
        key@,
        value@,
    ));
}

/// The opening tag, level and closing tag of one line.
pub fn write_line_element(offset: u32, line: &MockLineSnapshot) -> (result: Result<
    Vec<XmlNode>,
    String,
>)
    ensures
        match (result, written_attributes(offset, line@)) {
            (Ok(nodes), Ok(attributes)) => node_models(nodes@) == line_element(attributes, line@),
            (Err(error), Err(expected)) => error@ == expected,
            _ => false,
        },
{
    let mut attributes: Vec<(String, String)> = Vec::new();
    assert(pair_models(attributes@) =~= Seq::<(Seq<char>, Seq<char>)>::empty());
    push_attribute(&mut attributes, "id", number_text(offset as u64).as_str());
    push_optional(&mut attributes, "name", line.name.as_str());
    push_optional(&mut attributes, "consumer", line.consumer.as_str());
    match line.direction {
        LineDirection::Input => {
            push_attribute(&mut attributes, "direction", "input");
            let bias = match line.bias {
                LineBias::AsIs => return Err("invalid line bias `as_is`".to_owned()),
                LineBias::Unknown => return Err("invalid line bias `unknown`".to_owned()),
                LineBias::Disabled => "disabled",
                LineBias::PullUp => "pull_up",
                LineBias::PullDown => "pull_down",
            };
            push_attribute(&mut attributes, "bias", bias);
        },
        LineDirection::Output => {
            push_attribute(&mut attributes, "direction", "output");
            let drive = match line.drive {
                LineDrive::PushPull => "push_pull",
                LineDrive::OpenDrain => "open_drain",
                LineDrive::OpenSource => "open_source",
            };
            push_attribute(&mut attributes, "drive", drive);
        },
        LineDirection::AsIs => return Err("invalid line direction `as_is`".to_owned()),
    }
    push_attribute(
        &mut attributes,
        "active_low",
        if line.active_low {
            "true"
        } else {
            "false"
        },
    );
    assert(pair_models(attributes@) =~= written_attributes(offset, line@)->Ok_0);
    let mut nodes: Vec<XmlNode> = Vec::new();
    nodes.push(XmlNode::Start { name: "line".to_owned(), attributes });
    nodes.push(XmlNode::Text { text: line.persisted_level.as_xml().to_owned() });
    nodes.push(XmlNode::End { name: "line".to_owned() });
    assert(node_models(nodes@) =~= line_element(written_attributes(offset, line@)->Ok_0, line@));
    Ok(nodes)
}

/// The nodes of a chip document.
pub fn snapshot_nodes(snapshot: &MockChipSnapshot) -> (result: Result<Vec<XmlNode>, String>)
    ensures
        match (result, chip_nodes(snapshot@)) {
            (Ok(nodes), Ok(expected)) => node_models(nodes@) == expected,
            (Err(error), Err(expected)) => error@ == expected,
            _ => false,
        },
{
    let mut attributes: Vec<(String, String)> = Vec::new();
    assert(pair_models(attributes@) =~= Seq::<(Seq<char>, Seq<char>)>::empty());
    push_attribute(&mut attributes, "id", snapshot.name.as_str());
    push_optional(&mut attributes, "label", snapshot.label.as_str());
    assert(pair_models(attributes@) =~= seq![("id"@, snapshot@.name)] + optional_attribute(
        "label"@,
        snapshot@.label,
    ));
    let mut nodes: Vec<XmlNode> = Vec::new();
    nodes.push(XmlNode::Start { name: "gpiochip".to_owned(), attributes });
    let offsets = offsets_in_order(&snapshot.lines);
    let ghost lines = snapshot@.lines;
    let ghost open = chip_open(snapshot@);
    assert(lines.dom() =~= snapshot.lines@.dom());
    assert(node_models(nodes@) =~= seq![open] + Seq::<XmlNodeModel>::empty());
    let mut index: usize = 0;
    assert(offsets@.take(0) =~= Seq::<u32>::empty());
    while index < offsets.len()
        invariant
            index <= offsets.len(),
            lines == snapshot@.lines,
            offsets@ == sorted_offsets(lines.dom()),
            offsets@.to_set() == snapshot.lines@.dom(),
            line_elements(lines, offsets@.take(index as int)) is Ok,
            node_models(nodes@) == seq![open] + line_elements(
                lines,
                offsets@.take(index as int),
            )->Ok_0,
        decreases offsets.len() - index,
    {
        let offset: u32 = offsets[index];
        let ghost prefix = offsets@.take(index + 1);
        proof {
            assert(offsets@.to_set().contains(offset));
            assert(prefix.drop_last() =~= offsets@.take(index as int));
            if line_elements(lines, prefix) is Err {
                lemma_line_fault(lines, offsets@, index + 1);
            }
        }
        let line = snapshot.lines.get(&offset).unwrap();
        match write_line_element(offset, line) {
            Ok(mut element) => {
                let ghost before = nodes@;
                let ghost added = element@;
                nodes.append(&mut element);
                assert(node_models(nodes@) =~= node_models(before) + node_models(added));
                assert(seq![open] + line_elements(lines, prefix)->Ok_0 =~= node_models(nodes@));
            },
            Err(error) => return Err(error),
        }
        index += 1;
    }
    assert(offsets@.take(index as int) =~= offsets@);
    let ghost before = nodes@;
    nodes.push(XmlNode::End { name: "gpiochip".to_owned() });
    assert(node_models(nodes@) =~= node_models(before) + seq![
        XmlNodeModel::End { name: "gpiochip"@ },
    ]);
    Ok(nodes)
}

/// The document of a chip.
pub fn save_snapshot(snapshot: &MockChipSnapshot) -> (result: Result<String, String>)
    ensures
        match (result, chip_nodes(snapshot@)) {
            (Ok(text), Ok(nodes)) => {
                &&& text@ == xml_text(nodes)
                &&& plain_document(nodes, Seq::empty()) ==> xml_events(text@) == read_back(
                    nodes,
                    0,
                    false,
                )
            },
            (Err(error), Err(expected)) => error@ == expected,
            _ => false,
        },
{
    match snapshot_nodes(snapshot) {
        Ok(nodes) => Ok(render_nodes(&nodes)),
        Err(error) => Err(error),
    }
}

} // verus!

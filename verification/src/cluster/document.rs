//! The document that describes the chips of a backend.

use std::collections::BTreeMap;

use vstd::prelude::*;
use vstd::string::StringExecFns;

use crate::cluster::error::MockError;
use crate::cluster::error::MockErrorModel;
use crate::cluster::properties::PinLevel;
use crate::cluster::properties::PropertyBiasMode;
use crate::cluster::properties::PropertyDriveMode;
use crate::cluster::properties::PropertyEventMode;
use crate::cluster::snapshot::chip_lines;
use crate::cluster::snapshot::BackendSnapshot;
use crate::cluster::snapshot::ChipSnapshot;
use crate::cluster::snapshot::LineMode;
use crate::cluster::snapshot::LineSnapshot;
use crate::keys::lemma_sorted_offsets;
use crate::keys::offsets_in_order;
use crate::keys::sorted_offsets;
use crate::names::lemma_ascending_distinct;
use crate::names::lemma_paired;
use crate::names::NameMap;
use crate::number::decimal;
use crate::number::number_text;
use crate::text::blank;
use crate::text::is_blank;
use crate::text::joined;
use crate::text::left_trimmed;
use crate::text::right_trimmed;
use crate::text::same_text;
use crate::text::trimmed;
use crate::text::trimmed_text;
use crate::text::white_space;

verus! {

/// The root element: one element for each chip.
#[derive(Debug, PartialEq, Eq)]
pub struct XmlDocument {
    pub chips: Vec<XmlChip>,
}

/// A chip element.
#[derive(Debug, PartialEq, Eq)]
pub struct XmlChip {
    pub id: String,
    pub lines: Vec<XmlLine>,
}

/// A line element: its attributes and its text.
#[derive(Debug, PartialEq, Eq)]
pub struct XmlLine {
    pub id: u32,
    pub mode: XmlLineMode,
    pub bias: Option<XmlBiasMode>,
    pub drive: Option<XmlDriveMode>,
    pub event: Option<XmlEventMode>,
    pub level: String,
}

/// Direction of a line element.
#[derive(Debug, Clone, Copy, PartialEq, Eq, Structural)]
pub enum XmlLineMode {
    Input,
    Output,
}

/// Bias of a line element.
#[derive(Debug, Clone, Copy, PartialEq, Eq, Structural)]
pub enum XmlBiasMode {
    Disabled,
    PullUp,
    PullDown,
}

/// Drive of a line element.
#[derive(Debug, Clone, Copy, PartialEq, Eq, Structural)]
pub enum XmlDriveMode {
    PushPull,
    OpenDrain,
    OpenSource,
}

/// Edges of a line element.
#[derive(Debug, Clone, Copy, PartialEq, Eq, Structural)]
pub enum XmlEventMode {
    Rising,
    Falling,
    Both,
}

/// An [`XmlLine`] with its text as a character sequence.
pub ghost struct XmlLineModel {
    pub id: u32,
    pub mode: XmlLineMode,
    pub bias: Option<XmlBiasMode>,
    pub drive: Option<XmlDriveMode>,
    pub event: Option<XmlEventMode>,
    pub level: Seq<char>,
}

/// An [`XmlChip`] with its texts as character sequences.
pub ghost struct XmlChipModel {
    pub id: Seq<char>,
    pub lines: Seq<XmlLineModel>,
}

impl View for XmlLine {
    type V = XmlLineModel;

    open spec fn view(&self) -> XmlLineModel {
        XmlLineModel {
            id: self.id,
            mode: self.mode,
            bias: self.bias,
            drive: self.drive,
            event: self.event,
            level: self.level@,
        }
    }
}

impl View for XmlChip {
    type V = XmlChipModel;

    open spec fn view(&self) -> XmlChipModel {
        XmlChipModel {
            id: self.id@,
            lines: self.lines@.map_values(|line: XmlLine| line@),
        }
    }
}

impl View for XmlDocument {
    type V = Seq<XmlChipModel>;

    open spec fn view(&self) -> Seq<XmlChipModel> {
        self.chips@.map_values(|chip: XmlChip| chip@)
    }
}

// ---------------------------------------------------------------------------
// Attribute values
// ---------------------------------------------------------------------------

/// The bias that an attribute stands for.
pub open spec fn bias_read(mode: XmlBiasMode) -> PropertyBiasMode {
    match mode {
        XmlBiasMode::Disabled => PropertyBiasMode::Disabled,
        XmlBiasMode::PullUp => PropertyBiasMode::PullUp,
        XmlBiasMode::PullDown => PropertyBiasMode::PullDown,
    }
}

/// The drive that an attribute stands for.
pub open spec fn drive_read(mode: XmlDriveMode) -> PropertyDriveMode {
    match mode {
        XmlDriveMode::PushPull => PropertyDriveMode::PushPull,
        XmlDriveMode::OpenDrain => PropertyDriveMode::OpenDrain,
        XmlDriveMode::OpenSource => PropertyDriveMode::OpenSource,
    }
}

/// The edges that an attribute, or its absence, stands for.
pub open spec fn event_read(mode: Option<XmlEventMode>) -> PropertyEventMode {
    match mode {
        None => PropertyEventMode::NoEvent,
        Some(XmlEventMode::Rising) => PropertyEventMode::Rising,
        Some(XmlEventMode::Falling) => PropertyEventMode::Falling,
        Some(XmlEventMode::Both) => PropertyEventMode::Both,
    }
}

/// The text of a level.
pub open spec fn level_text(level: PinLevel) -> Seq<char> {
    match level {
        PinLevel::Low => "0"@,
        PinLevel::High => "1"@,
    }
}

/// The text of a level.
pub fn format_pin_level(level: PinLevel) -> (text: String)
    ensures
        text@ == level_text(level),
{
    match level {
        PinLevel::Low => "0".to_owned(),
        PinLevel::High => "1".to_owned(),
    }
}

/// The bias that an attribute stands for.
pub fn xml_bias_to_property(mode: XmlBiasMode) -> (bias: PropertyBiasMode)
    ensures
        bias == bias_read(mode),
{
    match mode {
        XmlBiasMode::Disabled => PropertyBiasMode::Disabled,
        XmlBiasMode::PullUp => PropertyBiasMode::PullUp,
        XmlBiasMode::PullDown => PropertyBiasMode::PullDown,
    }
}

/// The drive that an attribute stands for.
pub fn xml_drive_to_property(mode: XmlDriveMode) -> (drive: PropertyDriveMode)
    ensures
        drive == drive_read(mode),
{
    match mode {
        XmlDriveMode::PushPull => PropertyDriveMode::PushPull,
        XmlDriveMode::OpenDrain => PropertyDriveMode::OpenDrain,
        XmlDriveMode::OpenSource => PropertyDriveMode::OpenSource,
    }
}

/// The edges that an attribute, or its absence, stands for.
pub fn xml_event_to_property(mode: Option<XmlEventMode>) -> (event: PropertyEventMode)
    ensures
        event == event_read(mode),
{
    match mode {
        None => PropertyEventMode::NoEvent,
        Some(XmlEventMode::Rising) => PropertyEventMode::Rising,
        Some(XmlEventMode::Falling) => PropertyEventMode::Falling,
        Some(XmlEventMode::Both) => PropertyEventMode::Both,
    }
}

/// The attribute of a bias.
pub open spec fn bias_written(mode: PropertyBiasMode) -> XmlBiasMode {
    match mode {
        PropertyBiasMode::Disabled => XmlBiasMode::Disabled,
        PropertyBiasMode::PullUp => XmlBiasMode::PullUp,
        PropertyBiasMode::PullDown => XmlBiasMode::PullDown,
    }
}

/// The attribute of a drive.
pub open spec fn drive_written(mode: PropertyDriveMode) -> XmlDriveMode {
    match mode {
        PropertyDriveMode::PushPull => XmlDriveMode::PushPull,
        PropertyDriveMode::OpenDrain => XmlDriveMode::OpenDrain,
        PropertyDriveMode::OpenSource => XmlDriveMode::OpenSource,
    }
}

/// The attribute of reported edges, if any are reported.
pub open spec fn event_written(mode: PropertyEventMode) -> Option<XmlEventMode> {
    match mode {
        PropertyEventMode::NoEvent => None,
        PropertyEventMode::Rising => Some(XmlEventMode::Rising),
        PropertyEventMode::Falling => Some(XmlEventMode::Falling),
        PropertyEventMode::Both => Some(XmlEventMode::Both),
    }
}

/// The attribute of a bias.
pub fn property_bias_to_xml(mode: PropertyBiasMode) -> (bias: XmlBiasMode)
    ensures
        bias == bias_written(mode),
{
    match mode {
        PropertyBiasMode::Disabled => XmlBiasMode::Disabled,
        PropertyBiasMode::PullUp => XmlBiasMode::PullUp,
        PropertyBiasMode::PullDown => XmlBiasMode::PullDown,
    }
}

/// The attribute of a drive.
pub fn property_drive_to_xml(mode: PropertyDriveMode) -> (drive: XmlDriveMode)
    ensures
        drive == drive_written(mode),
{
    match mode {
        PropertyDriveMode::PushPull => XmlDriveMode::PushPull,
        PropertyDriveMode::OpenDrain => XmlDriveMode::OpenDrain,
        PropertyDriveMode::OpenSource => XmlDriveMode::OpenSource,
    }
}

/// The attribute of reported edges, if any are reported.
pub fn property_event_to_xml(mode: PropertyEventMode) -> (event: Option<XmlEventMode>)
    ensures
        event == event_written(mode),
{
    match mode {
        PropertyEventMode::NoEvent => None,
        PropertyEventMode::Rising => Some(XmlEventMode::Rising),
        PropertyEventMode::Falling => Some(XmlEventMode::Falling),
        PropertyEventMode::Both => Some(XmlEventMode::Both),
    }
}

// ---------------------------------------------------------------------------
// Reading
// ---------------------------------------------------------------------------

/// A pin in a message about the document.
pub open spec fn pin_words(chip: Seq<char>, line: u32) -> Seq<char> {
    chip + ":"@ + decimal(line as nat)
}

/// The line that an element describes. The text is checked first, then the attributes
/// against the direction.
pub open spec fn line_read(chip: Seq<char>, line: XmlLineModel) -> Result<
    LineSnapshot,
    MockErrorModel,
> {
    let text = trimmed_text(line.level);
    if text != "0"@ && text != "1"@ {
        Err(MockErrorModel::InvalidValue { chip, line: line.id, value: text })
    } else {
        let level = if text == "0"@ {
            PinLevel::Low
        } else {
            PinLevel::High
        };
        match line.mode {
            XmlLineMode::Input => if line.drive is Some {
                Err(
                    MockErrorModel::Parse(
                        "input line "@ + pin_words(chip, line.id) + " must not define drive"@,
                    ),
                )
            } else {
                let bias = match line.bias {
                    Some(bias) => bias_read(bias),
                    None => PropertyBiasMode::Disabled,
                };
                Ok(
                    LineSnapshot {
                        level,
                        mode: LineMode::Input { bias, event: event_read(line.event) },
                    },
                )
            },
            XmlLineMode::Output => if line.bias is Some || line.event is Some {
                Err(
                    MockErrorModel::Parse(
                        "output line "@ + pin_words(chip, line.id)
                            + " must not define bias or event"@,
                    ),
                )
            } else {
                let drive = match line.drive {
                    Some(drive) => drive_read(drive),
                    None => PropertyDriveMode::PushPull,
                };
                Ok(LineSnapshot { level, mode: LineMode::Output { drive } })
            },
        }
    }
}

/// The lines of a chip element by offset; an offset may stand once.
pub open spec fn lines_read(chip: Seq<char>, lines: Seq<XmlLineModel>) -> Result<
    Map<u32, LineSnapshot>,
    MockErrorModel,
>
    decreases lines.len(),
{
    if lines.len() == 0 {
        Ok(Map::empty())
    } else {
        let line = lines.last();
        match lines_read(chip, lines.drop_last()) {
            Err(fault) => Err(fault),
            Ok(before) => match line_read(chip, line) {
                Err(fault) => Err(fault),
                Ok(read) => if before.contains_key(line.id) {
                    Err(
                        MockErrorModel::Parse(
                            "duplicate line id "@ + decimal(line.id as nat) + " in chip "@ + chip,
                        ),
                    )
                } else {
                    Ok(before.insert(line.id, read))
                },
            },
        }
    }
}

/// The chips of a document by name; a name is not blank and may stand once.
pub open spec fn chips_read(chips: Seq<XmlChipModel>) -> Result<
    Map<Seq<char>, Map<u32, LineSnapshot>>,
    MockErrorModel,
>
    decreases chips.len(),
{
    if chips.len() == 0 {
        Ok(Map::empty())
    } else {
        let chip = chips.last();
        match chips_read(chips.drop_last()) {
            Err(fault) => Err(fault),
            Ok(before) => if blank(chip.id) {
                Err(MockErrorModel::Parse("gpiochip id must not be empty"@))
            } else {
                match lines_read(chip.id, chip.lines) {
                    Err(fault) => Err(fault),
                    Ok(lines) => if before.contains_key(chip.id) {
                        Err(MockErrorModel::Parse("duplicate gpiochip id "@ + chip.id))
                    } else {
                        Ok(before.insert(chip.id, lines))
                    },
                }
            },
        }
    }
}

proof fn lemma_lines_read_prefix(chip: Seq<char>, lines: Seq<XmlLineModel>, count: int)
    requires
        0 <= count <= lines.len(),
        lines_read(chip, lines.take(count)) is Err,
    ensures
        lines_read(chip, lines) == lines_read(chip, lines.take(count)),
    decreases lines.len(),
{
    if count == lines.len() {
        assert(lines.take(count) =~= lines);
    } else {
        assert(lines.drop_last().take(count) =~= lines.take(count));
        lemma_lines_read_prefix(chip, lines.drop_last(), count);
    }
}

proof fn lemma_chips_read_prefix(chips: Seq<XmlChipModel>, count: int)
    requires
        0 <= count <= chips.len(),
        chips_read(chips.take(count)) is Err,
    ensures
        chips_read(chips) == chips_read(chips.take(count)),
    decreases chips.len(),
{
    if count == chips.len() {
        assert(chips.take(count) =~= chips);
    } else {
        assert(chips.drop_last().take(count) =~= chips.take(count));
        lemma_chips_read_prefix(chips.drop_last(), count);
    }
}

fn pin_text(lead: &str, chip: &str, line: u32) -> (text: String)
    ensures
        text@ == lead@ + pin_words(chip@, line),
{
    let pin = joined(chip, ":").concat(number_text(line as u64).as_str());
    joined(lead, pin.as_str())
}

fn read_line(chip: &str, line: &XmlLine) -> (result: Result<LineSnapshot, MockError>)
    ensures
        match (result, line_read(chip@, line@)) {
            (Ok(read), Ok(expected)) => read == expected,
            (Err(error), Err(expected)) => error@ == expected,
            _ => false,
        },
{
    let text = trimmed(line.level.as_str());
    let level = if same_text(text.as_str(), "0") {
        PinLevel::Low
    } else if same_text(text.as_str(), "1") {
        PinLevel::High
    } else {
        return Err(MockError::InvalidValue { chip: chip.to_owned(), line: line.id, value: text });
    };
    match line.mode {
        XmlLineMode::Input => {
            if line.drive.is_some() {
                return Err(
                    MockError::Parse(
                        pin_text("input line ", chip, line.id).concat(" must not define drive"),
                    ),
                );
            }
            let bias = match line.bias {
                Some(bias) => xml_bias_to_property(bias),
                None => PropertyBiasMode::Disabled,
            };
            let event = xml_event_to_property(line.event);
            Ok(LineSnapshot { level, mode: LineMode::Input { bias, event } })
        },
        XmlLineMode::Output => {
            if line.bias.is_some() || line.event.is_some() {
                return Err(
                    MockError::Parse(
                        pin_text("output line ", chip, line.id).concat(
                            " must not define bias or event",
                        ),
                    ),
                );
            }
            let drive = match line.drive {
                Some(drive) => xml_drive_to_property(drive),
                None => PropertyDriveMode::PushPull,
            };
            Ok(LineSnapshot { level, mode: LineMode::Output { drive } })
        },
    }
}

fn read_lines(chip: &XmlChip) -> (result: Result<BTreeMap<u32, LineSnapshot>, MockError>)
    ensures
        match (result, lines_read(chip@.id, chip@.lines)) {
            (Ok(lines), Ok(expected)) => lines@ == expected,
            (Err(error), Err(expected)) => error@ == expected,
            _ => false,
        },
{
    let mut lines: BTreeMap<u32, LineSnapshot> = BTreeMap::new();
    let ghost all = chip@.lines;
    let mut index: usize = 0;
    while index < chip.lines.len()
        invariant
            index <= chip.lines@.len(),
            all == chip@.lines,
            all.len() == chip.lines@.len(),
            lines_read(chip@.id, all.take(index as int)) == Ok::<
                Map<u32, LineSnapshot>,
                MockErrorModel,
            >(lines@),
        decreases chip.lines@.len() - index,
    {
        let line = &chip.lines[index];
        let ghost next = all.take(index + 1);
        assert(next.drop_last() =~= all.take(index as int));
        assert(next.last() == line@);
        proof {
            if lines_read(chip@.id, next) is Err {
                lemma_lines_read_prefix(chip@.id, all, index + 1);
            }
        }
        match read_line(chip.id.as_str(), line) {
            Err(error) => {
                return Err(error);
            },
            Ok(read) => {
                if lines.insert(line.id, read).is_some() {
                    let lead = joined("duplicate line id ", number_text(line.id as u64).as_str());
                    return Err(
                        MockError::Parse(lead.concat(" in chip ").concat(chip.id.as_str())),
                    );
                }
            },
        }
        index += 1;
    }
    assert(all.take(index as int) =~= all);
    Ok(lines)
}

/// What a parsed document, or the failure to parse it, makes of the state of a backend.
pub open spec fn snapshot_read(document: Result<Seq<XmlChipModel>, Seq<char>>) -> Result<
    Map<Seq<char>, Map<u32, LineSnapshot>>,
    MockErrorModel,
> {
    match document {
        Ok(chips) => chips_read(chips),
        Err(error) => Err(MockErrorModel::Parse("xml parse error: "@ + error)),
    }
}

/// A parsed document, or the failure to parse it, in mathematical terms.
pub open spec fn document_model(document: Result<XmlDocument, String>) -> Result<
    Seq<XmlChipModel>,
    Seq<char>,
> {
    match document {
        Ok(document) => Ok(document@),
        Err(error) => Err(error@),
    }
}

/// Reads the chips of a backend from a parsed document, or from the words in which its
/// parser failed.
pub fn parse_xml_snapshot(parsed: Result<XmlDocument, String>) -> (result: Result<
    BackendSnapshot,
    MockError,
>)
    ensures
        match (result, snapshot_read(document_model(parsed))) {
            (Ok(snapshot), Ok(expected)) => snapshot@ == expected,
            (Err(error), Err(expected)) => error@ == expected,
            _ => false,
        },
{
    let document = match parsed {
        Ok(document) => document,
        Err(error) => {
            return Err(MockError::Parse(joined("xml parse error: ", error.as_str())));
        },
    };
    let mut chips: NameMap<ChipSnapshot> = NameMap::new();
    let ghost all = document@;
    assert(chip_lines(chips.contents()) =~= Map::<Seq<char>, Map<u32, LineSnapshot>>::empty());
    let mut index: usize = 0;
    while index < document.chips.len()
        invariant
            index <= document.chips@.len(),
            all == document@,
            snapshot_read(document_model(parsed)) == chips_read(all),
            all.len() == document.chips@.len(),
            chips_read(all.take(index as int)) == Ok::<
                Map<Seq<char>, Map<u32, LineSnapshot>>,
                MockErrorModel,
            >(chip_lines(chips.contents())),
        decreases document.chips@.len() - index,
    {
        let chip = &document.chips[index];
        let ghost next = all.take(index + 1);
        assert(next.drop_last() =~= all.take(index as int));
        assert(next.last() == chip@);
        proof {
            if chips_read(next) is Err {
                lemma_chips_read_prefix(all, index + 1);
            }
        }
        if is_blank(chip.id.as_str()) {
            return Err(MockError::Parse("gpiochip id must not be empty".to_owned()));
        }
        match read_lines(chip) {
            Err(error) => {
                return Err(error);
            },
            Ok(lines) => {
                if chips.contains_key(chip.id.as_str()) {
                    return Err(
                        MockError::Parse(joined("duplicate gpiochip id ", chip.id.as_str())),
                    );
                }
                let ghost before = chips.contents();
                chips = chips.with(chip.id.clone(), ChipSnapshot { lines });
                assert(chip_lines(chips.contents()) =~= chip_lines(before).insert(
                    chip.id@,
                    lines@,
                ));
            },
        }
        index += 1;
    }
    assert(all.take(index as int) =~= all);
    Ok(BackendSnapshot { chips })
}

// ---------------------------------------------------------------------------
// Writing
// ---------------------------------------------------------------------------

/// The element of a line. An input always states its bias, an output its drive.
pub open spec fn line_written(offset: u32, line: LineSnapshot) -> XmlLineModel {
    match line.mode {
        LineMode::Input { bias, event } => XmlLineModel {
            id: offset,
            mode: XmlLineMode::Input,
            bias: Some(bias_written(bias)),
            drive: None,
            event: event_written(event),
            level: level_text(line.level),
        },
        LineMode::Output { drive } => XmlLineModel {
            id: offset,
            mode: XmlLineMode::Output,
            bias: None,
            drive: Some(drive_written(drive)),
            event: None,
            level: level_text(line.level),
        },
    }
}

/// The element of a chip: its lines in ascending order.
pub open spec fn chip_written(name: Seq<char>, lines: Map<u32, LineSnapshot>) -> XmlChipModel {
    let offsets = sorted_offsets(lines.dom());
    XmlChipModel {
        id: name,
        lines: Seq::new(offsets.len(), |i: int| line_written(offsets[i], lines[offsets[i]])),
    }
}

/// The document of a backend: its chips in the order of their names.
pub open spec fn snapshot_written(snapshot: BackendSnapshot) -> Seq<XmlChipModel> {
    let names = snapshot.chips.names();
    Seq::new(names.len(), |i: int| chip_written(names[i], snapshot@[names[i]]))
}

fn write_line(offset: u32, line: &LineSnapshot) -> (element: XmlLine)
    ensures
        element@ == line_written(offset, *line),
{
    match line.mode {
        LineMode::Input { bias, event } => XmlLine {
            id: offset,
            mode: XmlLineMode::Input,
            bias: Some(property_bias_to_xml(bias)),
            drive: None,
            event: property_event_to_xml(event),
            level: format_pin_level(line.level),
        },
        LineMode::Output { drive } => XmlLine {
            id: offset,
            mode: XmlLineMode::Output,
            bias: None,
            drive: Some(property_drive_to_xml(drive)),
            event: None,
            level: format_pin_level(line.level),
        },
    }
}

fn write_chip(name: &str, chip: &ChipSnapshot) -> (element: XmlChip)
    ensures
        element@ == chip_written(name@, chip.lines@),
{
    let offsets = offsets_in_order(&chip.lines);
    let ghost expected = chip_written(name@, chip.lines@).lines;
    let mut lines: Vec<XmlLine> = Vec::new();
    let mut index: usize = 0;
    while index < offsets.len()
        invariant
            index <= offsets@.len(),
            offsets@ == sorted_offsets(chip.lines@.dom()),
            offsets@.to_set() == chip.lines@.dom(),
            expected == chip_written(name@, chip.lines@).lines,
            lines@.len() == index,
            forall|i: int| 0 <= i < index ==> (#[trigger] lines@[i])@ == expected[i],
        decreases offsets@.len() - index,
    {
        let offset: u32 = offsets[index];
        assert(offsets@.to_set().contains(offset));
        if let Some(line) = chip.lines.get(&offset) {
            lines.push(write_line(offset, line));
        }
        index += 1;
    }
    let element = XmlChip { id: name.to_owned(), lines };
    assert(element@.lines =~= expected);
    element
}

/// The document that describes the chips of a backend.
pub fn serialize_xml_snapshot(snapshot: &BackendSnapshot) -> (document: XmlDocument)
    ensures
        document@ == snapshot_written(*snapshot),
{
    let count: usize = snapshot.chips.len();
    let ghost names = snapshot.chips.names();
    proof {
        lemma_ascending_distinct(names);
        lemma_paired(names, snapshot.chips.values());
    }
    let mut chips: Vec<XmlChip> = Vec::new();
    let mut index: usize = 0;
    while index < count
        invariant
            count == names.len(),
            index <= count,
            names == snapshot.chips.names(),
            snapshot.chips.wf(),
            forall|i: int|
                0 <= i < names.len() ==> snapshot.chips.contents().contains_key(
                    #[trigger] names[i],
                ) && snapshot.chips.contents()[names[i]] == snapshot.chips.values()[i],
            chips@.len() == index,
            forall|i: int|
                0 <= i < index ==> (#[trigger] chips@[i])@ == snapshot_written(*snapshot)[i],
        decreases count - index,
    {
        let name = snapshot.chips.name_at(index);
        let chip = snapshot.chips.value_at(index);
        assert(snapshot@[name@] == chip.lines@);
        chips.push(write_chip(name.as_str(), chip));
        index += 1;
    }
    let document = XmlDocument { chips };
    assert(document@ =~= snapshot_written(*snapshot));
    document
}

// ---------------------------------------------------------------------------
// Laws
// ---------------------------------------------------------------------------

proof fn lemma_level_text(level: PinLevel)
    ensures
        trimmed_text(level_text(level)) == level_text(level),
        "0"@ != "1"@,
{
    reveal_strlit("0");
    reveal_strlit("1");
    assert("0"@[0] == '0' && "1"@[0] == '1');
    assert(!white_space('0') && !white_space('1'));
    let text = level_text(level);
    assert(text.len() == 1 && !white_space(text[0]));
    assert(left_trimmed(text) == text);
    assert(right_trimmed(text) == text);
}

proof fn lemma_line_reads_back(chip: Seq<char>, offset: u32, line: LineSnapshot)
    ensures
        line_read(chip, line_written(offset, line)) == Ok::<LineSnapshot, MockErrorModel>(line),
{
    lemma_level_text(line.level);
}

proof fn lemma_lines_read_back(
    chip: Seq<char>,
    lines: Map<u32, LineSnapshot>,
    elements: Seq<XmlLineModel>,
    offsets: Seq<u32>,
)
    requires
        offsets.no_duplicates(),
        elements.len() == offsets.len(),
        forall|i: int|
            0 <= i < offsets.len() ==> #[trigger] elements[i] == line_written(
                offsets[i],
                lines[offsets[i]],
            ),
    ensures
        lines_read(chip, elements) is Ok,
        lines_read(chip, elements)->Ok_0.dom() =~= offsets.to_set(),
        forall|i: int|
            0 <= i < offsets.len() ==> lines_read(chip, elements)->Ok_0[#[trigger] offsets[i]]
                == lines[offsets[i]],
    decreases offsets.len(),
{
    if offsets.len() > 0 {
        let count = offsets.len() - 1;
        let rest = offsets.drop_last();
        assert(forall|i: int| 0 <= i < count ==> rest[i] == offsets[i]);
        assert(forall|i: int| 0 <= i < count ==> elements.drop_last()[i] == elements[i]);
        lemma_lines_read_back(chip, lines, elements.drop_last(), rest);
        let before = lines_read(chip, elements.drop_last())->Ok_0;
        let last = offsets[count];
        assert(elements.last() == line_written(last, lines[last]));
        lemma_line_reads_back(chip, last, lines[last]);
        assert(!rest.to_set().contains(last)) by {
            if rest.contains(last) {
                let i = choose|i: int| 0 <= i < rest.len() && rest[i] == last;
                assert(offsets[i] == offsets[count]);
            }
        }
        assert(!before.contains_key(last));
        let after = lines_read(chip, elements)->Ok_0;
        assert(after == before.insert(last, lines[last]));
        assert(offsets =~= rest.push(last));
        assert(after.dom() =~= offsets.to_set()) by {
            assert forall|offset: u32| after.dom().contains(offset) == offsets.to_set().contains(
                offset,
            ) by {
                if offsets.contains(offset) {
                    let i = choose|i: int| 0 <= i < offsets.len() && offsets[i] == offset;
                    if i < count {
                        assert(rest[i] == offset);
                        assert(rest.to_set().contains(offset));
                    }
                }
                if rest.contains(offset) {
                    let i = choose|i: int| 0 <= i < rest.len() && rest[i] == offset;
                    assert(offsets[i] == offset);
                }
                if offset == last {
                    assert(offsets[count] == offset);
                }
            }
        }
        assert forall|i: int| 0 <= i < offsets.len() implies after[#[trigger] offsets[i]]
            == lines[offsets[i]] by {
            if i < count {
                assert(rest[i] == offsets[i]);
                assert(offsets[i] != last);
            }
        }
    } else {
        assert(lines_read(chip, elements)->Ok_0.dom() =~= offsets.to_set());
    }
}

proof fn lemma_chip_reads_back(chip: Seq<char>, lines: Map<u32, LineSnapshot>)
    requires
        lines.dom().finite(),
    ensures
        lines_read(chip, chip_written(chip, lines).lines) == Ok::<
            Map<u32, LineSnapshot>,
            MockErrorModel,
        >(lines),
{
    let offsets = sorted_offsets(lines.dom());
    lemma_sorted_offsets(lines.dom());
    let elements = chip_written(chip, lines).lines;
    lemma_lines_read_back(chip, lines, elements, offsets);
    let read = lines_read(chip, elements)->Ok_0;
    assert forall|offset: u32| lines.contains_key(offset) implies read[offset]
        == lines[offset] by {
        assert(offsets.to_set().contains(offset));
        let i = choose|i: int| 0 <= i < offsets.len() && offsets[i] == offset;
        assert(read[offsets[i]] == lines[offsets[i]]);
    }
    assert(read =~= lines);
}

proof fn lemma_chips_read_back(
    names: Seq<Seq<char>>,
    chips: Map<Seq<char>, Map<u32, LineSnapshot>>,
    elements: Seq<XmlChipModel>,
)
    requires
        names.no_duplicates(),
        elements.len() == names.len(),
        forall|i: int|
            0 <= i < names.len() ==> #[trigger] elements[i] == chip_written(
                names[i],
                chips[names[i]],
            ),
        forall|i: int|
            0 <= i < names.len() ==> !blank(#[trigger] names[i]) && chips[names[i]].dom().finite(),
    ensures
        chips_read(elements) is Ok,
        forall|name: Seq<char>| #[trigger]
            chips_read(elements)->Ok_0.contains_key(name) <==> names.contains(name),
        forall|i: int|
            0 <= i < names.len() ==> chips_read(elements)->Ok_0[#[trigger] names[i]]
                == chips[names[i]],
    decreases names.len(),
{
    if names.len() > 0 {
        let count = names.len() - 1;
        let rest = names.drop_last();
        assert(forall|i: int| 0 <= i < count ==> rest[i] == names[i]);
        assert(forall|i: int| 0 <= i < count ==> elements.drop_last()[i] == elements[i]);
        lemma_chips_read_back(rest, chips, elements.drop_last());
        let before = chips_read(elements.drop_last())->Ok_0;
        let last = names[count];
        assert(elements.last() == chip_written(last, chips[last]));
        lemma_chip_reads_back(last, chips[last]);
        assert(!before.contains_key(last)) by {
            if rest.contains(last) {
                let i = choose|i: int| 0 <= i < rest.len() && rest[i] == last;
                assert(names[i] == names[count]);
            }
        }
        let after = chips_read(elements)->Ok_0;
        assert(after == before.insert(last, chips[last]));
        assert forall|name: Seq<char>| #[trigger] after.contains_key(name) <==> names.contains(
            name,
        ) by {
            if names.contains(name) {
                let i = choose|i: int| 0 <= i < names.len() && names[i] == name;
                if i < count {
                    assert(rest[i] == name);
                    assert(rest.contains(name));
                }
            }
            if rest.contains(name) {
                let i = choose|i: int| 0 <= i < rest.len() && rest[i] == name;
                assert(names[i] == name);
            }
            if name == last {
                assert(names[count] == name);
            }
        }
        assert forall|i: int| 0 <= i < names.len() implies after[#[trigger] names[i]]
            == chips[names[i]] by {
            if i < count {
                assert(rest[i] == names[i]);
                assert(names[i] != last);
            }
        }
    }
}

/// The document of a backend describes that backend, where no chip has a blank name.
pub proof fn written_snapshot_reads_back(snapshot: BackendSnapshot)
    requires
        snapshot.chips.wf(),
        forall|name: Seq<char>| #[trigger]
            snapshot@.contains_key(name) ==> !blank(name) && snapshot@[name].dom().finite(),
    ensures
        chips_read(snapshot_written(snapshot)) == Ok::<
            Map<Seq<char>, Map<u32, LineSnapshot>>,
            MockErrorModel,
        >(snapshot@),
{
    let names = snapshot.chips.names();
    lemma_ascending_distinct(names);
    lemma_paired(names, snapshot.chips.values());
    assert forall|i: int| 0 <= i < names.len() implies !blank(#[trigger] names[i])
        && snapshot@[names[i]].dom().finite() by {
        assert(snapshot.chips.contents().contains_key(names[i]));
        assert(snapshot@.contains_key(names[i]));
    }
    lemma_chips_read_back(names, snapshot@, snapshot_written(snapshot));
    let read = chips_read(snapshot_written(snapshot))->Ok_0;
    assert forall|name: Seq<char>| read.contains_key(name) == snapshot@.contains_key(name) by {
        assert(snapshot@.contains_key(name) == names.contains(name));
    }
    assert forall|name: Seq<char>| read.contains_key(name) implies read[name]
        == snapshot@[name] by {
        let i = choose|i: int| 0 <= i < names.len() && names[i] == name;
        assert(read[names[i]] == snapshot@[names[i]]);
    }
    assert(read =~= snapshot@);
}

/// The chips of a document that is read have names that are not blank, so what is read can
/// be written and read again.
pub proof fn read_chips_are_named(chips: Seq<XmlChipModel>)
    ensures
        chips_read(chips) matches Ok(read) ==> forall|name: Seq<char>| #[trigger]
            read.contains_key(name) ==> !blank(name) && read[name].dom().finite(),
    decreases chips.len(),
{
    if chips.len() > 0 {
        read_chips_are_named(chips.drop_last());
        lemma_lines_read_finite(chips.last().id, chips.last().lines);
    }
}

proof fn lemma_lines_read_finite(chip: Seq<char>, lines: Seq<XmlLineModel>)
    ensures
        lines_read(chip, lines) matches Ok(read) ==> read.dom().finite(),
    decreases lines.len(),
{
    if lines.len() > 0 {
        lemma_lines_read_finite(chip, lines.drop_last());
    }
}

} // verus!

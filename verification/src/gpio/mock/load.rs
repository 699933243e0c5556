//! Reading a chip document.

use std::collections::BTreeMap;
use vstd::prelude::*;

use crate::gpio::libgpiod::LineBias;
use crate::gpio::libgpiod::LineDirection;
use crate::gpio::libgpiod::LineDrive;
use crate::gpio::mock::snapshot::level_of_text;
use crate::gpio::mock::snapshot::ChipModel;
use crate::gpio::mock::snapshot::LineLevel;
use crate::gpio::mock::snapshot::LineModel;
use crate::gpio::mock::snapshot::LoadError;
use crate::gpio::mock::snapshot::LoadErrorModel;
use crate::gpio::mock::snapshot::MockChipSnapshot;
use crate::gpio::mock::snapshot::MockLineSnapshot;
use crate::gpio::mock::xml::attribute_models;
use crate::gpio::mock::xml::XmlAttribute;
use crate::gpio::mock::xml::XmlAttributeModel;
use crate::gpio::mock::xml::XmlEvent;
use crate::gpio::mock::xml::XmlEventModel;
use crate::gpio::mock::xml::XmlSource;
use crate::number::parse_u32;
use crate::number::parsed_number;
use crate::text::same_text;

verus! {

// ---------------------------------------------------------------------------
// Attributes of <gpiochip>
// ---------------------------------------------------------------------------

/// The attributes of a `<gpiochip>` tag.
pub ghost struct ChipAttributesModel {
    pub id: Option<Seq<char>>,
    pub label: Option<Seq<char>>,
}

/// Takes one more chip attribute into account.
pub open spec fn chip_attribute(
    seen: ChipAttributesModel,
    attribute: XmlAttributeModel,
) -> Result<ChipAttributesModel, LoadErrorModel> {
    match attribute {
        XmlAttributeModel::Malformed { message } => Err(LoadErrorModel::XmlParseError(message)),
        XmlAttributeModel::BadValue { key, message } => if key == "id"@ || key == "label"@ {
            Err(LoadErrorModel::XmlParseError(message))
        } else {
            Err(LoadErrorModel::UnknownChipAttribute(key))
        },
        XmlAttributeModel::Pair { key, value } => if key == "id"@ {
            Ok(ChipAttributesModel { id: Some(value), ..seen })
        } else if key == "label"@ {
            Ok(ChipAttributesModel { label: Some(value), ..seen })
        } else {
            Err(LoadErrorModel::UnknownChipAttribute(key))
        },
    }
}

/// What a list of chip attributes says; the first fault decides the error.
pub open spec fn chip_attributes(attributes: Seq<XmlAttributeModel>) -> Result<
    ChipAttributesModel,
    LoadErrorModel,
>
    decreases attributes.len(),
{
    if attributes.len() == 0 {
        Ok(ChipAttributesModel { id: None, label: None })
    } else {
        match chip_attributes(attributes.drop_last()) {
            Err(error) => Err(error),
            Ok(seen) => chip_attribute(seen, attributes.last()),
        }
    }
}

/// A fault in a prefix of the attributes is the fault of the whole list.
pub proof fn lemma_chip_attributes_fault(attributes: Seq<XmlAttributeModel>, count: int)
    requires
        0 <= count <= attributes.len(),
        chip_attributes(attributes.take(count)) is Err,
    ensures
        chip_attributes(attributes) == chip_attributes(attributes.take(count)),
    decreases attributes.len(),
{
    if count == attributes.len() {
        assert(attributes.take(count) =~= attributes);
    } else {
        assert(attributes.drop_last().take(count) =~= attributes.take(count));
        lemma_chip_attributes_fault(attributes.drop_last(), count);
    }
}

/// The view of an optional text.
pub open spec fn option_text(text: Option<String>) -> Option<Seq<char>> {
    match text {
        Some(inner) => Some(inner@),
        None => None,
    }
}

/// The optional text, or the empty text.
pub open spec fn text_or_empty(text: Option<Seq<char>>) -> Seq<char> {
    match text {
        Some(inner) => inner,
        None => Seq::empty(),
    }
}

fn or_empty(text: Option<String>) -> (result: String)
    ensures
        result@ == text_or_empty(option_text(text)),
{
    match text {
        Some(inner) => inner,
        None => String::new(),
    }
}

/// The attributes of a `<gpiochip>` tag.
pub struct ParsedChipAttributes {
    pub id: Option<String>,
    pub label: Option<String>,
}

impl View for ParsedChipAttributes {
    type V = ChipAttributesModel;

    open spec fn view(&self) -> ChipAttributesModel {
        ChipAttributesModel { id: option_text(self.id), label: option_text(self.label) }
    }
}

impl ParsedChipAttributes {
    /// Reads the attributes of a `<gpiochip>` tag.
    pub fn parse(attributes: &Vec<XmlAttribute>) -> (result: Result<Self, LoadError>)
        ensures
            match (result, chip_attributes(attribute_models(attributes@))) {
                (Ok(parsed), Ok(expected)) => parsed@ == expected,
                (Err(error), Err(expected)) => error@ == expected,
                _ => false,
            },
    {
        let ghost models = attribute_models(attributes@);
        let mut parsed = ParsedChipAttributes { id: None, label: None };
        let mut index: usize = 0;
        while index < attributes.len()
            invariant
                index <= attributes.len(),
                models == attribute_models(attributes@),
                chip_attributes(models.take(index as int)) == Ok::<
                    ChipAttributesModel,
                    LoadErrorModel,
                >(parsed@),
            decreases attributes.len() - index,
        {
            let ghost prefix = models.take(index + 1);
            proof {
                assert(prefix.drop_last() =~= models.take(index as int));
                assert(prefix.last() == attributes@[index as int]@);
                if chip_attributes(prefix) is Err {
                    lemma_chip_attributes_fault(models, index + 1);
                }
            }
            match &attributes[index] {
                XmlAttribute::Malformed { message } => {
                    return Err(LoadError::XmlParseError(message.clone()));
                },
                XmlAttribute::BadValue { key, message } => {
                    if same_text(key.as_str(), "id") || same_text(key.as_str(), "label") {
                        return Err(LoadError::XmlParseError(message.clone()));
                    }
                    return Err(LoadError::UnknownChipAttribute(key.clone()));
                },
                XmlAttribute::Pair { key, value } => {
                    if same_text(key.as_str(), "id") {
                        parsed.id = Some(value.clone());
                    } else if same_text(key.as_str(), "label") {
                        parsed.label = Some(value.clone());
                    } else {
                        return Err(LoadError::UnknownChipAttribute(key.clone()));
                    }
                },
            }
            index += 1;
        }
        assert(models.take(index as int) =~= models);
        Ok(parsed)
    }
}

// ---------------------------------------------------------------------------
// Attributes of <line>
// ---------------------------------------------------------------------------

/// The attributes of a `<line>` tag.
pub ghost struct LineAttributesModel {
    pub offset: Option<u32>,
    pub name: Option<Seq<char>>,
    pub consumer: Option<Seq<char>>,
    pub direction: Option<LineDirection>,
    pub bias: Option<LineBias>,
    pub drive: Option<LineDrive>,
    pub active_low: Option<bool>,
}

/// The line offset that a text stands for.
pub open spec fn offset_of_text(text: Seq<char>) -> Result<u32, LoadErrorModel> {
    match parsed_number(text, u32::MAX as nat) {
        Ok(number) => Ok(number as u32),
        Err(error) => Err(LoadErrorModel::InvalidLineId(text, error)),
    }
}

/// The names that a line attribute can have.
pub open spec fn line_attribute_name(key: Seq<char>) -> bool {
    ||| key == "id"@
    ||| key == "name"@
    ||| key == "consumer"@
    ||| key == "direction"@
    ||| key == "bias"@
    ||| key == "drive"@
    ||| key == "active_low"@
}

/// The direction that a text stands for.
pub open spec fn direction_of_text(text: Seq<char>) -> Option<LineDirection> {
    if text == "input"@ {
        Some(LineDirection::Input)
    } else if text == "output"@ {
        Some(LineDirection::Output)
    } else {
        None
    }
}

/// The bias that a text stands for.
pub open spec fn bias_of_text(text: Seq<char>) -> Option<LineBias> {
    if text == "disabled"@ {
        Some(LineBias::Disabled)
    } else if text == "pull_up"@ {
        Some(LineBias::PullUp)
    } else if text == "pull_down"@ {
        Some(LineBias::PullDown)
    } else {
        None
    }
}

/// The drive that a text stands for.
pub open spec fn drive_of_text(text: Seq<char>) -> Option<LineDrive> {
    if text == "push_pull"@ {
        Some(LineDrive::PushPull)
    } else if text == "open_drain"@ {
        Some(LineDrive::OpenDrain)
    } else if text == "open_source"@ {
        Some(LineDrive::OpenSource)
    } else {
        None
    }
}

/// The truth value that a text stands for.
pub open spec fn bool_of_text(text: Seq<char>) -> Option<bool> {
    if text == "true"@ {
        Some(true)
    } else if text == "false"@ {
        Some(false)
    } else {
        None
    }
}

fn read_direction(text: &str) -> (result: Option<LineDirection>)
    ensures
        result == direction_of_text(text@),
{
    if same_text(text, "input") {
        Some(LineDirection::Input)
    } else if same_text(text, "output") {
        Some(LineDirection::Output)
    } else {
        None
    }
}

fn read_bias(text: &str) -> (result: Option<LineBias>)
    ensures
        result == bias_of_text(text@),
{
    if same_text(text, "disabled") {
        Some(LineBias::Disabled)
    } else if same_text(text, "pull_up") {
        Some(LineBias::PullUp)
    } else if same_text(text, "pull_down") {
        Some(LineBias::PullDown)
    } else {
        None
    }
}

fn read_drive(text: &str) -> (result: Option<LineDrive>)
    ensures
        result == drive_of_text(text@),
{
    if same_text(text, "push_pull") {
        Some(LineDrive::PushPull)
    } else if same_text(text, "open_drain") {
        Some(LineDrive::OpenDrain)
    } else if same_text(text, "open_source") {
        Some(LineDrive::OpenSource)
    } else {
        None
    }
}

fn read_bool(text: &str) -> (result: Option<bool>)
    ensures
        result == bool_of_text(text@),
{
    if same_text(text, "true") {
        Some(true)
    } else if same_text(text, "false") {
        Some(false)
    } else {
        None
    }
}

fn is_line_attribute(key: &str) -> (result: bool)
    ensures
        result == line_attribute_name(key@),
{
    same_text(key, "id") || same_text(key, "name") || same_text(key, "consumer") || same_text(
        key,
        "direction",
    ) || same_text(key, "bias") || same_text(key, "drive") || same_text(key, "active_low")
}

/// Takes the value of one more line attribute into account.
pub open spec fn line_pair(
    seen: LineAttributesModel,
    key: Seq<char>,
    value: Seq<char>,
) -> Result<LineAttributesModel, LoadErrorModel> {
    if key == "id"@ {
        match offset_of_text(value) {
            Ok(offset) => Ok(LineAttributesModel { offset: Some(offset), ..seen }),
            Err(error) => Err(error),
        }
    } else if key == "name"@ {
        Ok(LineAttributesModel { name: Some(value), ..seen })
    } else if key == "consumer"@ {
        Ok(LineAttributesModel { consumer: Some(value), ..seen })
    } else if key == "direction"@ {
        match direction_of_text(value) {
            Some(direction) => Ok(LineAttributesModel { direction: Some(direction), ..seen }),
            None => Err(LoadErrorModel::InvalidLineDirection(value)),
        }
    } else if key == "bias"@ {
        match bias_of_text(value) {
            Some(bias) => Ok(LineAttributesModel { bias: Some(bias), ..seen }),
            None => Err(LoadErrorModel::InvalidLineBias(value)),
        }
    } else if key == "drive"@ {
        match drive_of_text(value) {
            Some(drive) => Ok(LineAttributesModel { drive: Some(drive), ..seen }),
            None => Err(LoadErrorModel::InvalidLineDrive(value)),
        }
    } else if key == "active_low"@ {
        match bool_of_text(value) {
            Some(flag) => Ok(LineAttributesModel { active_low: Some(flag), ..seen }),
            None => Err(LoadErrorModel::InvalidLineActiveLow(value)),
        }
    } else {
        Err(LoadErrorModel::UnknownLineAttribute(key))
    }
}

/// Takes one more line attribute into account.
pub open spec fn line_attribute(
    seen: LineAttributesModel,
    attribute: XmlAttributeModel,
) -> Result<LineAttributesModel, LoadErrorModel> {
    match attribute {
        XmlAttributeModel::Malformed { message } => Err(LoadErrorModel::XmlParseError(message)),
        XmlAttributeModel::BadValue { key, message } => if line_attribute_name(key) {
            Err(LoadErrorModel::XmlParseError(message))
        } else {
            Err(LoadErrorModel::UnknownLineAttribute(key))
        },
        XmlAttributeModel::Pair { key, value } => line_pair(seen, key, value),
    }
}

/// What a list of line attributes says; the first fault decides the error.
pub open spec fn line_attributes(attributes: Seq<XmlAttributeModel>) -> Result<
    LineAttributesModel,
    LoadErrorModel,
>
    decreases attributes.len(),
{
    if attributes.len() == 0 {
        Ok(
            LineAttributesModel {
                offset: None,
                name: None,
                consumer: None,
                direction: None,
                bias: None,
                drive: None,
                active_low: None,
            },
        )
    } else {
        match line_attributes(attributes.drop_last()) {
            Err(error) => Err(error),
            Ok(seen) => line_attribute(seen, attributes.last()),
        }
    }
}

/// A fault in a prefix of the attributes is the fault of the whole list.
pub proof fn lemma_line_attributes_fault(attributes: Seq<XmlAttributeModel>, count: int)
    requires
        0 <= count <= attributes.len(),
        line_attributes(attributes.take(count)) is Err,
    ensures
        line_attributes(attributes) == line_attributes(attributes.take(count)),
    decreases attributes.len(),
{
    if count == attributes.len() {
        assert(attributes.take(count) =~= attributes);
    } else {
        assert(attributes.drop_last().take(count) =~= attributes.take(count));
        lemma_line_attributes_fault(attributes.drop_last(), count);
    }
}

/// The attributes of a `<line>` tag.
pub struct ParsedLineAttributes {
    pub offset: Option<u32>,
    pub name: Option<String>,
    pub consumer: Option<String>,
    pub direction: Option<LineDirection>,
    pub bias: Option<LineBias>,
    pub drive: Option<LineDrive>,
    pub active_low: Option<bool>,
}

impl View for ParsedLineAttributes {
    type V = LineAttributesModel;

    open spec fn view(&self) -> LineAttributesModel {
        LineAttributesModel {
            offset: self.offset,
            name: option_text(self.name),
            consumer: option_text(self.consumer),
            direction: self.direction,
            bias: self.bias,
            drive: self.drive,
            active_low: self.active_low,
        }
    }
}

impl ParsedLineAttributes {
    /// Reads the attributes of a `<line>` tag.
    pub fn parse(attributes: &Vec<XmlAttribute>) -> (result: Result<Self, LoadError>)
        ensures
            match (result, line_attributes(attribute_models(attributes@))) {
                (Ok(parsed), Ok(expected)) => parsed@ == expected,
                (Err(error), Err(expected)) => error@ == expected,
                _ => false,
            },
    {
        let ghost models = attribute_models(attributes@);
        let mut parsed = ParsedLineAttributes {
            offset: None,
            name: None,
            consumer: None,
            direction: None,
            bias: None,
            drive: None,
            active_low: None,
        };
        let mut index: usize = 0;
        while index < attributes.len()
            invariant
                index <= attributes.len(),
                models == attribute_models(attributes@),
                line_attributes(models.take(index as int)) == Ok::<
                    LineAttributesModel,
                    LoadErrorModel,
                >(parsed@),
            decreases attributes.len() - index,
        {
            let ghost prefix = models.take(index + 1);
            proof {
                assert(prefix.drop_last() =~= models.take(index as int));
                assert(prefix.last() == attributes@[index as int]@);
                if line_attributes(prefix) is Err {
                    lemma_line_attributes_fault(models, index + 1);
                }
            }
            match &attributes[index] {
                XmlAttribute::Malformed { message } => {
                    return Err(LoadError::XmlParseError(message.clone()));
                },
                XmlAttribute::BadValue { key, message } => {
                    if is_line_attribute(key.as_str()) {
                        return Err(LoadError::XmlParseError(message.clone()));
                    }
                    return Err(LoadError::UnknownLineAttribute(key.clone()));
                },
                XmlAttribute::Pair { key, value } => {
                    let key_text = key.as_str();
                    let text = value.as_str();
                    if same_text(key_text, "id") {
                        match parse_u32(text) {
                            Ok(offset) => parsed.offset = Some(offset),
                            Err(error) => {
                                return Err(LoadError::InvalidLineId(value.clone(), error));
                            },
                        }
                    } else if same_text(key_text, "name") {
                        parsed.name = Some(value.clone());
                    } else if same_text(key_text, "consumer") {
                        parsed.consumer = Some(value.clone());
                    } else if same_text(key_text, "direction") {
                        match read_direction(text) {
                            Some(direction) => parsed.direction = Some(direction),
                            None => return Err(LoadError::InvalidLineDirection(value.clone())),
                        }
                    } else if same_text(key_text, "bias") {
                        match read_bias(text) {
                            Some(bias) => parsed.bias = Some(bias),
                            None => return Err(LoadError::InvalidLineBias(value.clone())),
                        }
                    } else if same_text(key_text, "drive") {
                        match read_drive(text) {
                            Some(drive) => parsed.drive = Some(drive),
                            None => return Err(LoadError::InvalidLineDrive(value.clone())),
                        }
                    } else if same_text(key_text, "active_low") {
                        match read_bool(text) {
                            Some(flag) => parsed.active_low = Some(flag),
                            None => return Err(LoadError::InvalidLineActiveLow(value.clone())),
                        }
                    } else {
                        return Err(LoadError::UnknownLineAttribute(key.clone()));
                    }
                },
            }
            index += 1;
        }
        assert(models.take(index as int) =~= models);
        Ok(parsed)
    }
}

// ---------------------------------------------------------------------------
// Elements
// ---------------------------------------------------------------------------

/// The chip that a `<gpiochip>` tag opens.
pub open spec fn chip_start(attributes: Seq<XmlAttributeModel>) -> Result<
    ChipModel,
    LoadErrorModel,
> {
    match chip_attributes(attributes) {
        Err(error) => Err(error),
        Ok(attr) => match attr.id {
            None => Err(LoadErrorModel::InvalidXmlDocument),
            Some(id) => if id.len() == 0 {
                Err(LoadErrorModel::EmptyChipId)
            } else {
                Ok(ChipModel { name: id, label: text_or_empty(attr.label), lines: Map::empty() })
            },
        },
    }
}

/// The optional value, or a default.
pub open spec fn or_default<T>(value: Option<T>, default: T) -> T {
    match value {
        Some(inner) => inner,
        None => default,
    }
}

/// The line, at low level, that the attributes of a `<line>` tag describe. Lines are inputs
/// by default. Only inputs have a bias, only outputs a drive.
pub open spec fn described_line(attr: LineAttributesModel) -> Result<
    (u32, LineModel),
    LoadErrorModel,
> {
    let direction = or_default(attr.direction, LineDirection::Input);
    if attr.offset is None {
        Err(LoadErrorModel::InvalidXmlDocument)
    } else if direction == LineDirection::AsIs {
        Err(LoadErrorModel::InvalidLineDirection("as_is"@))
    } else if direction == LineDirection::Input && attr.drive is Some {
        Err(LoadErrorModel::InputLineWithDrive)
    } else if direction == LineDirection::Output && attr.bias is Some {
        Err(LoadErrorModel::OutputLineWithBias)
    } else {
        Ok(
            (
                attr.offset->Some_0,
                LineModel {
                    name: text_or_empty(attr.name),
                    consumer: text_or_empty(attr.consumer),
                    direction,
                    bias: or_default(attr.bias, LineBias::Disabled),
                    drive: or_default(attr.drive, LineDrive::PushPull),
                    active_low: or_default(attr.active_low, false),
                    level: LineLevel::Low,
                },
            ),
        )
    }
}

/// The offset and line that a `<line>` tag opens.
pub open spec fn line_start(attributes: Seq<XmlAttributeModel>) -> Result<
    (u32, LineModel),
    LoadErrorModel,
> {
    match line_attributes(attributes) {
        Err(error) => Err(error),
        Ok(attr) => described_line(attr),
    }
}

/// The chip that a `<gpiochip>` tag opens.
pub fn parse_chip_start(attributes: &Vec<XmlAttribute>) -> (result: Result<
    MockChipSnapshot,
    LoadError,
>)
    ensures
        match (result, chip_start(attribute_models(attributes@))) {
            (Ok(chip), Ok(expected)) => chip@ == expected,
            (Err(error), Err(expected)) => error@ == expected,
            _ => false,
        },
{
    let attr = match ParsedChipAttributes::parse(attributes) {
        Ok(attr) => attr,
        Err(error) => return Err(error),
    };
    let id = match attr.id {
        Some(id) => id,
        None => return Err(LoadError::InvalidXmlDocument),
    };
    if id.as_str().is_empty() {
        return Err(LoadError::EmptyChipId);
    }
    let chip = MockChipSnapshot { name: id, label: or_empty(attr.label), lines: BTreeMap::new() };
    assert(chip@.lines =~= Map::<u32, LineModel>::empty());
    Ok(chip)
}

/// The offset and line that a `<line>` tag opens.
pub fn parse_line_start(attributes: &Vec<XmlAttribute>) -> (result: Result<
    (u32, MockLineSnapshot),
    LoadError,
>)
    ensures
        match (result, line_start(attribute_models(attributes@))) {
            (Ok(parsed), Ok(expected)) => parsed.0 == expected.0 && parsed.1@ == expected.1,
            (Err(error), Err(expected)) => error@ == expected,
            _ => false,
        },
{
    let attr = match ParsedLineAttributes::parse(attributes) {
        Ok(attr) => attr,
        Err(error) => return Err(error),
    };
    let offset: u32 = match attr.offset {
        Some(offset) => offset,
        None => return Err(LoadError::InvalidXmlDocument),
    };
    let direction = attr.direction.unwrap_or(LineDirection::Input);
    match direction {
        LineDirection::Input => {
            if attr.drive.is_some() {
                return Err(LoadError::InputLineWithDrive);
            }
        },
        LineDirection::Output => {
            if attr.bias.is_some() {
                return Err(LoadError::OutputLineWithBias);
            }
        },
        LineDirection::AsIs => {
            return Err(LoadError::InvalidLineDirection("as_is".to_owned()));
        },
    }
    let line = MockLineSnapshot {
        name: or_empty(attr.name),
        consumer: or_empty(attr.consumer),
        direction,
        bias: attr.bias.unwrap_or(LineBias::Disabled),
        drive: attr.drive.unwrap_or(LineDrive::PushPull),
        active_low: attr.active_low.unwrap_or(false),
        persisted_level: LineLevel::Low,
    };
    Ok((offset, line))
}

/// How far the reading of a chip document has come.
pub ghost struct LoaderModel {
    pub chip: Option<ChipModel>,
    pub chip_closed: bool,
    pub current: Option<(u32, LineModel)>,
}

/// Nothing read yet.
pub open spec fn load_begin() -> LoaderModel {
    LoaderModel { chip: None, chip_closed: false, current: None }
}

/// Opens the chip: there is exactly one.
pub open spec fn begin_chip(
    state: LoaderModel,
    attributes: Seq<XmlAttributeModel>,
    closed: bool,
) -> Result<LoaderModel, LoadErrorModel> {
    if state.chip is Some || state.chip_closed {
        Err(LoadErrorModel::InvalidRootElement)
    } else {
        match chip_start(attributes) {
            Ok(chip) => Ok(LoaderModel { chip: Some(chip), chip_closed: closed, ..state }),
            Err(error) => Err(error),
        }
    }
}

/// Opens a line: inside the open chip and outside other lines.
pub open spec fn begin_line(state: LoaderModel, attributes: Seq<XmlAttributeModel>) -> Result<
    LoaderModel,
    LoadErrorModel,
> {
    if state.chip_closed || state.chip is None {
        Err(LoadErrorModel::InvalidRootElement)
    } else if state.current is Some {
        Err(LoadErrorModel::InvalidXmlDocument)
    } else {
        match line_start(attributes) {
            Ok(line) => Ok(LoaderModel { current: Some(line), ..state }),
            Err(error) => Err(error),
        }
    }
}

/// Closes a line: it becomes part of the chip, under an offset of its own.
pub open spec fn end_line(state: LoaderModel) -> Result<LoaderModel, LoadErrorModel> {
    match (state.chip, state.current) {
        (Some(chip), Some((offset, line))) => if chip.lines.contains_key(offset) {
            Err(LoadErrorModel::DuplicateLineId(offset))
        } else {
            Ok(
                LoaderModel {
                    chip: Some(ChipModel { lines: chip.lines.insert(offset, line), ..chip }),
                    current: None,
                    ..state
                },
            )
        },
        _ => Err(LoadErrorModel::InvalidXmlDocument),
    }
}

/// What one event makes of the state of reading.
pub open spec fn load_step(state: LoaderModel, event: XmlEventModel) -> Result<
    LoaderModel,
    LoadErrorModel,
> {
    match event {
        XmlEventModel::Start { name, attributes } => if name == "gpiochips"@ {
            Err(LoadErrorModel::InvalidRootElement)
        } else if name == "gpiochip"@ {
            begin_chip(state, attributes, false)
        } else if name == "line"@ {
            begin_line(state, attributes)
        } else if state.chip is None {
            Err(LoadErrorModel::InvalidRootElement)
        } else {
            Err(LoadErrorModel::InvalidXmlDocument)
        },
        XmlEventModel::Empty { name, attributes } => if name == "gpiochips"@ {
            Err(LoadErrorModel::InvalidRootElement)
        } else if name == "gpiochip"@ {
            begin_chip(state, attributes, true)
        } else if state.chip is None {
            Err(LoadErrorModel::InvalidRootElement)
        } else {
            Err(LoadErrorModel::InvalidXmlDocument)
        },
        XmlEventModel::End { name } => if name == "gpiochip"@ {
            if state.chip is None || state.current is Some {
                Err(LoadErrorModel::InvalidXmlDocument)
            } else {
                Ok(LoaderModel { chip_closed: true, ..state })
            }
        } else if name == "line"@ {
            end_line(state)
        } else {
            Ok(state)
        },
        XmlEventModel::Text { text } => match state.current {
            None => Ok(state),
            Some((offset, line)) => match level_of_text(text) {
                Some(level) => Ok(
                    LoaderModel { current: Some((offset, LineModel { level, ..line })), ..state },
                ),
                None => Err(LoadErrorModel::InvalidLineLevel(text)),
            },
        },
        XmlEventModel::Other | XmlEventModel::Eof => Ok(state),
        XmlEventModel::Malformed { message } => Err(LoadErrorModel::XmlParseError(message)),
    }
}

/// The chip, once the document is over.
pub open spec fn load_finish(state: LoaderModel) -> Result<ChipModel, LoadErrorModel> {
    if state.current is Some {
        Err(LoadErrorModel::InvalidXmlDocument)
    } else {
        match state.chip {
            Some(chip) => Ok(chip),
            None => Err(LoadErrorModel::InvalidRootElement),
        }
    }
}

/// The chip that the rest of a document makes of the state of reading.
pub open spec fn load_events(state: LoaderModel, events: Seq<XmlEventModel>) -> Result<
    ChipModel,
    LoadErrorModel,
>
    decreases events.len(),
{
    if events.len() == 0 {
        load_finish(state)
    } else {
        match load_step(state, events[0]) {
            Ok(next) => load_events(next, events.drop_first()),
            Err(error) => Err(error),
        }
    }
}

/// The events that reading a chip leaves: none, or those behind the first that is refused.
pub open spec fn load_unread(state: LoaderModel, events: Seq<XmlEventModel>) -> Seq<XmlEventModel>
    decreases events.len(),
{
    if events.len() == 0 {
        events
    } else {
        match load_step(state, events[0]) {
            Ok(next) => load_unread(next, events.drop_first()),
            Err(_) => events.drop_first(),
        }
    }
}

/// Reads a chip document event by event.
pub struct SnapshotLoader {
    chip: Option<MockChipSnapshot>,
    chip_closed: bool,
    current: Option<(u32, MockLineSnapshot)>,
}

impl View for SnapshotLoader {
    type V = LoaderModel;

    closed spec fn view(&self) -> LoaderModel {
        LoaderModel {
            chip: match self.chip {
                Some(chip) => Some(chip@),
                None => None,
            },
            chip_closed: self.chip_closed,
            current: match self.current {
                Some((offset, line)) => Some((offset, line@)),
                None => None,
            },
        }
    }
}

impl SnapshotLoader {
    /// Nothing read yet.
    pub fn new() -> (loader: Self)
        ensures
            loader@ == load_begin(),
    {
        SnapshotLoader { chip: None, chip_closed: false, current: None }
    }

    fn begin_chip_element(&mut self, attributes: &Vec<XmlAttribute>, closed: bool) -> (result:
        Result<(), LoadError>)
        ensures
            match (result, begin_chip(old(self)@, attribute_models(attributes@), closed)) {
                (Ok(_), Ok(expected)) => final(self)@ == expected,
                (Err(error), Err(expected)) => error@ == expected && final(self)@ == old(self)@,
                _ => false,
            },
    {
        if self.chip.is_some() || self.chip_closed {
            return Err(LoadError::InvalidRootElement);
        }
        match parse_chip_start(attributes) {
            Ok(chip) => {
                self.chip = Some(chip);
                self.chip_closed = closed;
                Ok(())
            },
            Err(error) => Err(error),
        }
    }

    fn begin_line_element(&mut self, attributes: &Vec<XmlAttribute>) -> (result: Result<
        (),
        LoadError,
    >)
        ensures
            match (result, begin_line(old(self)@, attribute_models(attributes@))) {
                (Ok(_), Ok(expected)) => final(self)@ == expected,
                (Err(error), Err(expected)) => error@ == expected && final(self)@ == old(self)@,
                _ => false,
            },
    {
        if self.chip_closed || self.chip.is_none() {
            return Err(LoadError::InvalidRootElement);
        }
        if self.current.is_some() {
            return Err(LoadError::InvalidXmlDocument);
        }
        match parse_line_start(attributes) {
            Ok(line) => {
                self.current = Some(line);
                Ok(())
            },
            Err(error) => Err(error),
        }
    }

    fn end_line_element(&mut self) -> (result: Result<(), LoadError>)
        ensures
            match (result, end_line(old(self)@)) {
                (Ok(_), Ok(expected)) => final(self)@ == expected,
                (Err(error), Err(expected)) => error@ == expected && final(self)@ == old(self)@,
                _ => false,
            },
    {
        if self.chip.is_none() || self.current.is_none() {
            return Err(LoadError::InvalidXmlDocument);
        }
        let mut chip = self.chip.take().unwrap();
        let (offset, line) = self.current.take().unwrap();
        let ghost before = chip;
        assert(before@.lines.dom() =~= before.lines@.dom());
        if chip.lines.contains_key(&offset) {
            self.chip = Some(chip);
            self.current = Some((offset, line));
            return Err(LoadError::DuplicateLineId(offset));
        }
        chip.lines.insert(offset, line);
        assert(chip@.lines =~= before@.lines.insert(offset, line@));
        self.chip = Some(chip);
        Ok(())
    }

    /// Takes one more event of the document into account.
    pub fn feed(&mut self, event: &XmlEvent) -> (result: Result<(), LoadError>)
        ensures
            match (result, load_step(old(self)@, event@)) {
                (Ok(_), Ok(expected)) => final(self)@ == expected,
                (Err(error), Err(expected)) => error@ == expected && final(self)@ == old(self)@,
                _ => false,
            },
    {
        match event {
            XmlEvent::Start { name, attributes } => {
                if same_text(name.as_str(), "gpiochips") {
                    Err(LoadError::InvalidRootElement)
                } else if same_text(name.as_str(), "gpiochip") {
                    self.begin_chip_element(attributes, false)
                } else if same_text(name.as_str(), "line") {
                    self.begin_line_element(attributes)
                } else if self.chip.is_none() {
                    Err(LoadError::InvalidRootElement)
                } else {
                    Err(LoadError::InvalidXmlDocument)
                }
            },
            XmlEvent::Empty { name, attributes } => {
                if same_text(name.as_str(), "gpiochips") {
                    Err(LoadError::InvalidRootElement)
                } else if same_text(name.as_str(), "gpiochip") {
                    self.begin_chip_element(attributes, true)
                } else if self.chip.is_none() {
                    Err(LoadError::InvalidRootElement)
                } else {
                    Err(LoadError::InvalidXmlDocument)
                }
            },
            XmlEvent::End { name } => {
                if same_text(name.as_str(), "gpiochip") {
                    if self.chip.is_none() || self.current.is_some() {
                        return Err(LoadError::InvalidXmlDocument);
                    }
                    self.chip_closed = true;
                    Ok(())
                } else if same_text(name.as_str(), "line") {
                    self.end_line_element()
                } else {
                    Ok(())
                }
            },
            XmlEvent::Text { text } => {
                match self.current.take() {
                    None => Ok(()),
                    Some((offset, mut line)) => match LineLevel::from_xml(text.as_str()) {
                        Ok(level) => {
                            line.persisted_level = level;
                            self.current = Some((offset, line));
                            Ok(())
                        },
                        Err(error) => {
                            self.current = Some((offset, line));
                            Err(error)
                        },
                    },
                }
            },
            XmlEvent::Other => Ok(()),
            XmlEvent::Eof => Ok(()),
            XmlEvent::Malformed { message } => Err(LoadError::XmlParseError(message.clone())),
        }
    }

    /// The chip, once the document is over.
    pub fn finish(self) -> (result: Result<MockChipSnapshot, LoadError>)
        ensures
            match (result, load_finish(self@)) {
                (Ok(chip), Ok(expected)) => chip@ == expected,
                (Err(error), Err(expected)) => error@ == expected,
                _ => false,
            },
    {
        if self.current.is_some() {
            return Err(LoadError::InvalidXmlDocument);
        }
        match self.chip {
            Some(chip) => Ok(chip),
            None => Err(LoadError::InvalidRootElement),
        }
    }
}

/// Reads the rest of a document as one chip.
pub fn load_snapshot(source: &mut XmlSource) -> (result: Result<MockChipSnapshot, LoadError>)
    requires
        old(source).pending().len() > 0,
    ensures
        match (result, load_events(load_begin(), old(source).pending())) {
            (Ok(chip), Ok(expected)) => chip@ == expected,
            (Err(error), Err(expected)) => error@ == expected,
            _ => false,
        },
        final(source).pending() == load_unread(load_begin(), old(source).pending()),
{
    let mut loader = SnapshotLoader::new();
    let ghost events = source.pending();
    let mut reading = true;
    while reading
        invariant
            reading <==> source.pending().len() > 0,
            events == old(source).pending(),
            load_events(load_begin(), events) == load_events(loader@, source.pending()),
            load_unread(load_begin(), events) == load_unread(loader@, source.pending()),
        decreases source.pending().len(),
    {
        let event = source.next();
        match loader.feed(&event) {
            Ok(_) => {},
            Err(error) => return Err(error),
        }
        match event {
            XmlEvent::Eof => reading = false,
            _ => {},
        }
    }
    loader.finish()
}

} // verus!

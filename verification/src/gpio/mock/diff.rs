//! Comparing a chip document with the state in memory.

use std::collections::BTreeMap;
use vstd::prelude::*;

use crate::gpio::libgpiod::LineDirection;
use crate::gpio::libgpiod::LineValue;
use crate::gpio::mock::load::offset_of_text;
use crate::gpio::mock::snapshot::level_of_text;
use crate::gpio::mock::snapshot::line_level_to_line_value;
use crate::gpio::mock::snapshot::logical_value;
use crate::gpio::mock::snapshot::ChipModel;
use crate::gpio::mock::snapshot::LineLevel;
use crate::gpio::mock::snapshot::LineModel;
use crate::gpio::mock::snapshot::LoadError;
use crate::gpio::mock::snapshot::LoadErrorModel;
use crate::gpio::mock::snapshot::MockChipSnapshot;
use crate::gpio::mock::xml::attribute_models;
use crate::gpio::mock::xml::XmlAttribute;
use crate::gpio::mock::xml::XmlAttributeModel;
use crate::gpio::mock::xml::XmlEvent;
use crate::gpio::mock::xml::XmlEventModel;
use crate::gpio::mock::xml::XmlSource;
use crate::number::parse_u32;
use crate::text::same_text;

verus! {

/// What the comparison needs of a line in memory.
#[derive(Debug, Clone, Copy, PartialEq, Eq, Structural)]
pub struct BaselineLine {
    pub direction: LineDirection,
    pub active_low: bool,
    pub level: LineLevel,
}

/// What the comparison needs of a line in memory.
pub open spec fn baseline_line(line: LineModel) -> BaselineLine {
    BaselineLine { direction: line.direction, active_low: line.active_low, level: line.level }
}

/// The line in memory at an offset.
pub open spec fn baseline_at(baseline: ChipModel, offset: u32) -> Option<BaselineLine> {
    if baseline.lines.contains_key(offset) {
        Some(baseline_line(baseline.lines[offset]))
    } else {
        None
    }
}

/// How far the comparison has come.
pub ghost struct DiffModel {
    pub changes: Map<u32, LineValue>,
    pub seen_chip: bool,
    pub offset: Option<u32>,
    pub line: Option<BaselineLine>,
    pub level: Option<LineLevel>,
}

/// Nothing read yet.
pub open spec fn diff_begin() -> DiffModel {
    DiffModel {
        changes: Map::empty(),
        seen_chip: false,
        offset: None,
        line: None,
        level: None,
    }
}

/// Takes one more attribute of a `<line>` tag into account: only `id` counts.
pub open spec fn diff_attribute(
    state: DiffModel,
    attribute: XmlAttributeModel,
    baseline: ChipModel,
) -> Result<DiffModel, LoadErrorModel> {
    match attribute {
        XmlAttributeModel::Malformed { message } => Err(LoadErrorModel::XmlParseError(message)),
        XmlAttributeModel::BadValue { key, message } => if key == "id"@ {
            Err(LoadErrorModel::XmlParseError(message))
        } else {
            Ok(state)
        },
        XmlAttributeModel::Pair { key, value } => if key == "id"@ {
            match offset_of_text(value) {
                Ok(offset) => Ok(
                    DiffModel {
                        offset: Some(offset),
                        line: baseline_at(baseline, offset),
                        ..state
                    },
                ),
                Err(error) => Err(error),
            }
        } else {
            Ok(state)
        },
    }
}

/// Takes the attributes of a `<line>` tag into account, from left to right.
pub open spec fn diff_attributes(
    state: DiffModel,
    attributes: Seq<XmlAttributeModel>,
    baseline: ChipModel,
) -> Result<DiffModel, LoadErrorModel>
    decreases attributes.len(),
{
    if attributes.len() == 0 {
        Ok(state)
    } else {
        match diff_attribute(state, attributes[0], baseline) {
            Ok(next) => diff_attributes(next, attributes.drop_first(), baseline),
            Err(error) => Err(error),
        }
    }
}

/// Opens the chip: there is exactly one.
pub open spec fn diff_chip(state: DiffModel) -> Result<DiffModel, LoadErrorModel> {
    if state.seen_chip {
        Err(LoadErrorModel::InvalidRootElement)
    } else {
        Ok(DiffModel { seen_chip: true, ..state })
    }
}

/// The changes with that of one more line: the level of an input that differs from the one in
/// memory, as a logical value under the polarity in memory. A line without text is low.
pub open spec fn with_change(
    changes: Map<u32, LineValue>,
    offset: u32,
    line: BaselineLine,
    level: Option<LineLevel>,
) -> Map<u32, LineValue> {
    let now = match level {
        Some(level) => level,
        None => LineLevel::Low,
    };
    if line.direction == LineDirection::Input && now != line.level {
        changes.insert(offset, logical_value(now, line.active_low))
    } else {
        changes
    }
}

/// Closes a line, which must be known in memory.
pub open spec fn diff_line_end(state: DiffModel) -> Result<DiffModel, LoadErrorModel> {
    match (state.offset, state.line) {
        (Some(offset), Some(line)) => Ok(
            DiffModel {
                changes: with_change(state.changes, offset, line, state.level),
                offset: None,
                line: None,
                level: None,
                ..state
            },
        ),
        _ => Err(LoadErrorModel::InvalidXmlDocument),
    }
}

/// What one event makes of the state of the comparison.
pub open spec fn diff_step(state: DiffModel, event: XmlEventModel, baseline: ChipModel) -> Result<
    DiffModel,
    LoadErrorModel,
> {
    match event {
        XmlEventModel::Start { name, attributes } => if name == "gpiochips"@ {
            Err(LoadErrorModel::InvalidRootElement)
        } else if name == "gpiochip"@ {
            diff_chip(state)
        } else if !state.seen_chip {
            Err(LoadErrorModel::InvalidRootElement)
        } else if name == "line"@ {
            diff_attributes(state, attributes, baseline)
        } else {
            Ok(state)
        },
        XmlEventModel::Empty { name, attributes } => if name == "gpiochips"@ {
            Err(LoadErrorModel::InvalidRootElement)
        } else if name == "gpiochip"@ {
            diff_chip(state)
        } else if !state.seen_chip {
            Err(LoadErrorModel::InvalidRootElement)
        } else {
            Err(LoadErrorModel::InvalidXmlDocument)
        },
        XmlEventModel::End { name } => if name == "line"@ {
            diff_line_end(state)
        } else {
            Ok(state)
        },
        XmlEventModel::Text { text } => if state.line is None {
            Ok(state)
        } else {
            match level_of_text(text) {
                Some(level) => Ok(DiffModel { level: Some(level), ..state }),
                None => Err(LoadErrorModel::InvalidLineLevel(text)),
            }
        },
        XmlEventModel::Other | XmlEventModel::Eof => Ok(state),
        XmlEventModel::Malformed { message } => Err(LoadErrorModel::XmlParseError(message)),
    }
}

/// The changes that the rest of a document makes of the state of the comparison.
pub open spec fn diff_events(
    state: DiffModel,
    events: Seq<XmlEventModel>,
    baseline: ChipModel,
) -> Result<Map<u32, LineValue>, LoadErrorModel>
    decreases events.len(),
{
    if events.len() == 0 {
        if state.seen_chip {
            Ok(state.changes)
        } else {
            Err(LoadErrorModel::InvalidRootElement)
        }
    } else {
        match diff_step(state, events[0], baseline) {
            Ok(next) => diff_events(next, events.drop_first(), baseline),
            Err(error) => Err(error),
        }
    }
}

/// The events that a comparison leaves: none, or those behind the first that is refused.
pub open spec fn diff_unread(
    state: DiffModel,
    events: Seq<XmlEventModel>,
    baseline: ChipModel,
) -> Seq<XmlEventModel>
    decreases events.len(),
{
    if events.len() == 0 {
        events
    } else {
        match diff_step(state, events[0], baseline) {
            Ok(next) => diff_unread(next, events.drop_first(), baseline),
            Err(_) => events.drop_first(),
        }
    }
}

/// Compares a chip document with the state in memory, event by event.
pub struct SnapshotDiff {
    changes: BTreeMap<u32, LineValue>,
    seen_chip: bool,
    offset: Option<u32>,
    line: Option<BaselineLine>,
    level: Option<LineLevel>,
}

impl View for SnapshotDiff {
    type V = DiffModel;

    closed spec fn view(&self) -> DiffModel {
        DiffModel {
            changes: self.changes@,
            seen_chip: self.seen_chip,
            offset: self.offset,
            line: self.line,
            level: self.level,
        }
    }
}

fn find_baseline(baseline: &MockChipSnapshot, offset: u32) -> (line: Option<BaselineLine>)
    ensures
        line == baseline_at(baseline@, offset),
{
    match baseline.lines.get(&offset) {
        Some(line) => Some(
            BaselineLine {
                direction: line.direction,
                active_low: line.active_low,
                level: line.persisted_level,
            },
        ),
        None => None,
    }
}

impl SnapshotDiff {
    /// Nothing read yet.
    pub fn new() -> (diff: Self)
        ensures
            diff@ == diff_begin(),
    {
        SnapshotDiff {
            changes: BTreeMap::new(),
            seen_chip: false,
            offset: None,
            line: None,
            level: None,
        }
    }

    fn begin_chip_element(&mut self) -> (result: Result<(), LoadError>)
        ensures
            match (result, diff_chip(old(self)@)) {
                (Ok(_), Ok(expected)) => final(self)@ == expected,
                (Err(error), Err(expected)) => error@ == expected && final(self)@ == old(self)@,
                _ => false,
            },
    {
        if self.seen_chip {
            return Err(LoadError::InvalidRootElement);
        }
        self.seen_chip = true;
        Ok(())
    }

    fn begin_line_element(
        &mut self,
        attributes: &Vec<XmlAttribute>,
        baseline: &MockChipSnapshot,
    ) -> (result: Result<(), LoadError>)
        ensures
            match (
                result,
                diff_attributes(old(self)@, attribute_models(attributes@), baseline@),
            ) {
                (Ok(_), Ok(expected)) => final(self)@ == expected,
                (Err(error), Err(expected)) => error@ == expected && final(self)@ == old(self)@,
                _ => false,
            },
    {
        let ghost models = attribute_models(attributes@);
        let ghost before = self@;
        let mut found_offset: Option<u32> = self.offset;
        let mut found_line = self.line;
        let mut index: usize = 0;
        assert(models.skip(0) =~= models);
        while index < attributes.len()
            invariant
                index <= attributes.len(),
                models == attribute_models(attributes@),
                before == old(self)@,
                self@ == before,
                diff_attributes(before, models, baseline@) == diff_attributes(
                    (DiffModel { offset: found_offset, line: found_line, ..before }),
                    models.skip(index as int),
                    baseline@,
                ),
            decreases attributes.len() - index,
        {
            proof {
                assert(models.skip(index as int)[0] == attributes@[index as int]@);
                assert(models.skip(index as int).drop_first() =~= models.skip(index + 1));
            }
            match &attributes[index] {
                XmlAttribute::Malformed { message } => {
                    return Err(LoadError::XmlParseError(message.clone()));
                },
                XmlAttribute::BadValue { key, message } => {
                    if same_text(key.as_str(), "id") {
                        return Err(LoadError::XmlParseError(message.clone()));
                    }
                },
                XmlAttribute::Pair { key, value } => {
                    if same_text(key.as_str(), "id") {
                        match parse_u32(value.as_str()) {
                            Ok(offset) => {
                                found_offset = Some(offset);
                                found_line = find_baseline(baseline, offset);
                            },
                            Err(error) => {
                                return Err(LoadError::InvalidLineId(value.clone(), error));
                            },
                        }
                    }
                },
            }
            index += 1;
        }
        assert(models.skip(index as int).len() == 0);
        self.offset = found_offset;
        self.line = found_line;
        Ok(())
    }

    fn end_line_element(&mut self) -> (result: Result<(), LoadError>)
        ensures
            match (result, diff_line_end(old(self)@)) {
                (Ok(_), Ok(expected)) => final(self)@ == expected,
                (Err(error), Err(expected)) => error@ == expected && final(self)@ == old(self)@,
                _ => false,
            },
    {
        let offset: u32 = match self.offset {
            Some(offset) => offset,
            None => return Err(LoadError::InvalidXmlDocument),
        };
        let line = match self.line {
            Some(line) => line,
            None => return Err(LoadError::InvalidXmlDocument),
        };
        let level = self.level.unwrap_or(LineLevel::Low);
        if line.direction == LineDirection::Input && level != line.level {
            self.changes.insert(offset, line_level_to_line_value(level, line.active_low));
        }
        self.offset = None;
        self.line = None;
        self.level = None;
        Ok(())
    }

    /// Takes one more event of the document into account.
    pub fn feed(&mut self, event: &XmlEvent, baseline: &MockChipSnapshot) -> (result: Result<
        (),
        LoadError,
    >)
        ensures
            match (result, diff_step(old(self)@, event@, baseline@)) {
                (Ok(_), Ok(expected)) => final(self)@ == expected,
                (Err(error), Err(expected)) => error@ == expected && final(self)@ == old(self)@,
                _ => false,
            },
    {
        match event {
            XmlEvent::Start { name, attributes } => {
                if same_text(name.as_str(), "gpiochips") {
                    Err(LoadError::InvalidRootElement)
                } else if same_text(name.as_str(), "gpiochip") {
                    self.begin_chip_element()
                } else if !self.seen_chip {
                    Err(LoadError::InvalidRootElement)
                } else if same_text(name.as_str(), "line") {
                    self.begin_line_element(attributes, baseline)
                } else {
                    Ok(())
                }
            },
            XmlEvent::Empty { name, attributes } => {
                if same_text(name.as_str(), "gpiochips") {
                    Err(LoadError::InvalidRootElement)
                } else if same_text(name.as_str(), "gpiochip") {
                    self.begin_chip_element()
                } else if !self.seen_chip {
                    Err(LoadError::InvalidRootElement)
                } else {
                    Err(LoadError::InvalidXmlDocument)
                }
            },
            XmlEvent::End { name } => {
                if same_text(name.as_str(), "line") {
                    self.end_line_element()
                } else {
                    Ok(())
                }
            },
            XmlEvent::Text { text } => {
                if self.line.is_none() {
                    return Ok(());
                }
                match LineLevel::from_xml(text.as_str()) {
                    Ok(level) => {
                        self.level = Some(level);
                        Ok(())
                    },
                    Err(error) => Err(error),
                }
            },
            XmlEvent::Other => Ok(()),
            XmlEvent::Eof => Ok(()),
            XmlEvent::Malformed { message } => Err(LoadError::XmlParseError(message.clone())),
        }
    }

    /// The changes, once the document is over.
    pub fn finish(self) -> (result: Result<BTreeMap<u32, LineValue>, LoadError>)
        ensures
            match result {
                Ok(changes) => self@.seen_chip && changes@ == self@.changes,
                Err(error) => !self@.seen_chip && error@ == LoadErrorModel::InvalidRootElement,
            },
    {
        if self.seen_chip {
            Ok(self.changes)
        } else {
            Err(LoadError::InvalidRootElement)
        }
    }
}

/// The logical values of the input lines whose level in the rest of a document differs from
/// the one in memory.
pub fn diff_snapshot(source: &mut XmlSource, baseline: &MockChipSnapshot) -> (result: Result<
    BTreeMap<u32, LineValue>,
    LoadError,
>)
    requires
        old(source).pending().len() > 0,
    ensures
        match (result, diff_events(diff_begin(), old(source).pending(), baseline@)) {
            (Ok(changes), Ok(expected)) => changes@ == expected,
            (Err(error), Err(expected)) => error@ == expected,
            _ => false,
        },
        final(source).pending() == diff_unread(diff_begin(), old(source).pending(), baseline@),
{
    let mut diff = SnapshotDiff::new();
    let ghost events = source.pending();
    let mut reading = true;
    while reading
        invariant
            reading <==> source.pending().len() > 0,
            events == old(source).pending(),
            diff_events(diff_begin(), events, baseline@) == diff_events(
                diff@,
                source.pending(),
                baseline@,
            ),
            diff_unread(diff_begin(), events, baseline@) == diff_unread(
                diff@,
                source.pending(),
                baseline@,
            ),
        decreases source.pending().len(),
    {
        let event = source.next();
        match diff.feed(&event, baseline) {
            Ok(_) => {},
            Err(error) => return Err(error),
        }
        match event {
            XmlEvent::Eof => reading = false,
            _ => {},
        }
    }
    diff.finish()
}

} // verus!

//! The chips of a mock backend: which lines they have and at which level each stands.

use std::collections::BTreeMap;

use vstd::prelude::*;
use vstd::string::StringExecFns;

use crate::cluster::error::MockError;
use crate::cluster::error::MockErrorModel;
use crate::cluster::pinspec::PinSpec;
use crate::cluster::properties::GPIOInputProperties;
use crate::cluster::properties::GPIOOutputProperties;
use crate::cluster::properties::GPIOPinConfig;
use crate::cluster::properties::GPIOProperties;
use crate::cluster::properties::PinLevel;
use crate::cluster::properties::PropertyBiasMode;
use crate::cluster::properties::PropertyDriveMode;
use crate::cluster::properties::PropertyEventMode;
use crate::keys::lemma_sorted_offsets;
use crate::keys::offsets_in_order;
use crate::keys::sorted_offsets;
use crate::names::lemma_ascending_distinct;
use crate::names::lemma_paired;
use crate::names::NameMap;
use crate::number::decimal;
use crate::number::number_text;
use crate::protocol::response::EventType;
use crate::text::joined;
use crate::text::same_text;

verus! {

/// Direction of a line and what goes with it.
#[derive(Debug, Clone, Copy, PartialEq, Eq, Structural)]
pub enum LineMode {
    Input { bias: PropertyBiasMode, event: PropertyEventMode },
    Output { drive: PropertyDriveMode },
}

/// A line: its level and its mode.
#[derive(Debug, Clone, Copy, PartialEq, Eq, Structural)]
pub struct LineSnapshot {
    pub level: PinLevel,
    pub mode: LineMode,
}

/// The lines of a chip by offset.
#[derive(Debug, PartialEq, Eq)]
pub struct ChipSnapshot {
    pub lines: BTreeMap<u32, LineSnapshot>,
}

/// The chips of a backend by name.
#[derive(Debug, PartialEq, Eq)]
pub struct BackendSnapshot {
    pub chips: NameMap<ChipSnapshot>,
}

/// The lines of chips.
pub open spec fn chip_lines(chips: Map<Seq<char>, ChipSnapshot>) -> Map<
    Seq<char>,
    Map<u32, LineSnapshot>,
> {
    chips.map_values(|chip: ChipSnapshot| chip.lines@)
}

impl View for BackendSnapshot {
    type V = Map<Seq<char>, Map<u32, LineSnapshot>>;

    open spec fn view(&self) -> Map<Seq<char>, Map<u32, LineSnapshot>> {
        chip_lines(self.chips.contents())
    }
}

/// The line at an offset of a chip.
pub open spec fn line_of(
    chips: Map<Seq<char>, Map<u32, LineSnapshot>>,
    pin: (Seq<char>, u32),
) -> Option<LineSnapshot> {
    if chips.contains_key(pin.0) && chips[pin.0].contains_key(pin.1) {
        Some(chips[pin.0][pin.1])
    } else {
        None
    }
}

/// The chips with one line at another level.
pub open spec fn with_level(
    chips: Map<Seq<char>, Map<u32, LineSnapshot>>,
    pin: (Seq<char>, u32),
    level: PinLevel,
) -> Map<Seq<char>, Map<u32, LineSnapshot>> {
    chips.insert(
        pin.0,
        chips[pin.0].insert(
            pin.1,
            LineSnapshot { level, mode: chips[pin.0][pin.1].mode },
        ),
    )
}

impl BackendSnapshot {
    /// The line at an offset of a chip.
    pub fn line(&self, chip: &str, line: u32) -> (found: Option<&LineSnapshot>)
        ensures
            match (found, line_of(self@, (chip@, line))) {
                (Some(found), Some(expected)) => *found == expected,
                (None, None) => true,
                _ => false,
            },
    {
        match self.chips.get(chip) {
            Some(lines) => {
                assert(self@[chip@] == lines.lines@);
                lines.lines.get(&line)
            },
            None => None,
        }
    }

    /// Equal chips.
    pub fn duplicate(&self) -> (snapshot: Self)
        ensures
            snapshot@ == self@,
    {
        let count: usize = self.chips.len();
        proof {
            lemma_ascending_distinct(self.chips.names());
            lemma_paired(self.chips.names(), self.chips.values());
        }
        let mut chips: NameMap<ChipSnapshot> = NameMap::new();
        let mut index: usize = 0;
        while index < count
            invariant
                count == self.chips.names().len(),
                index <= count,
                self.chips.wf(),
                self.chips.names().no_duplicates(),
                forall|i: int|
                    0 <= i < self.chips.names().len() ==> self.chips.contents().contains_key(
                        #[trigger] self.chips.names()[i],
                    ) && self.chips.contents()[self.chips.names()[i]] == self.chips.values()[i],
                forall|name: Seq<char>| #[trigger]
                    chips.contents().contains_key(name) <==> exists|i: int|
                        0 <= i < index && self.chips.names()[i] == name,
                forall|i: int|
                    0 <= i < index ==> chips.contents()[#[trigger] self.chips.names()[i]].lines@
                        == self.chips.values()[i].lines@,
            decreases count - index,
        {
            let chip = ChipSnapshot { lines: self.chips.value_at(index).lines.clone() };
            let ghost before = chips.contents();
            chips = chips.with(self.chips.name_at(index).clone(), chip);
            index += 1;
            assert forall|name: Seq<char>| #[trigger]
                chips.contents().contains_key(name) implies exists|i: int|
                0 <= i < index && self.chips.names()[i] == name by {
                if before.contains_key(name) {
                    let i = choose|i: int| 0 <= i < index - 1 && self.chips.names()[i] == name;
                    assert(0 <= i < index && self.chips.names()[i] == name);
                } else {
                    assert(self.chips.names()[index - 1] == name);
                }
            }
        }
        let snapshot = BackendSnapshot { chips };
        proof {
            assert forall|name: Seq<char>| self@.contains_key(name) implies
                snapshot@.contains_key(name) by {
                assert(self.chips.contents().contains_key(name));
                let i = choose|i: int|
                    0 <= i < self.chips.names().len() && self.chips.names()[i] == name;
                assert(0 <= i < index && self.chips.names()[i] == name);
                assert(chips.contents().contains_key(name));
            }
            assert(snapshot@ =~= self@);
        }
        snapshot
    }

    /// Puts one line at a level.
    pub fn set_level(self, chip: &str, line: u32, level: PinLevel) -> (snapshot: Self)
        requires
            line_of(self@, (chip@, line)) is Some,
        ensures
            snapshot@ == with_level(self@, (chip@, line), level),
    {
        let ghost before = self@;
        match self.chips.get(chip) {
            Some(found) => {
                let mut lines = found.lines.clone();
                assert(before[chip@] == lines@);
                if let Some(current) = found.lines.get(&line) {
                    lines.insert(line, LineSnapshot { level, mode: current.mode });
                }
                let snapshot = BackendSnapshot {
                    chips: self.chips.with(chip.to_owned(), ChipSnapshot { lines }),
                };
                assert(snapshot@ =~= with_level(before, (chip@, line), level));
                snapshot
            },
            None => self,
        }
    }
}

// ---------------------------------------------------------------------------
// Lines
// ---------------------------------------------------------------------------

/// What is wrong with a configuration for a line.
pub open spec fn config_fault(
    pin: (Seq<char>, u32),
    config: GPIOPinConfig,
    mode: LineMode,
) -> Option<MockErrorModel> {
    match (config, mode) {
        (GPIOPinConfig::Output { .. }, LineMode::Input { .. }) => Some(
            MockErrorModel::DirectionMismatch {
                chip: pin.0,
                line: pin.1,
                expected: "output"@,
                found: "input"@,
            },
        ),
        (GPIOPinConfig::Output { .. }, LineMode::Output { .. }) => None,
        (_, LineMode::Output { .. }) => Some(
            MockErrorModel::DirectionMismatch {
                chip: pin.0,
                line: pin.1,
                expected: "input"@,
                found: "output"@,
            },
        ),
        (GPIOPinConfig::Trigger { .. }, LineMode::Input { event, .. }) => if event
            == PropertyEventMode::NoEvent {
            Some(MockErrorModel::TriggerNotSupported { chip: pin.0, line: pin.1 })
        } else {
            None
        },
        (GPIOPinConfig::Input { .. }, LineMode::Input { .. }) => None,
    }
}

/// The edge between two levels.
pub open spec fn level_edge(before: PinLevel, after: PinLevel) -> Option<EventType> {
    match (before, after) {
        (PinLevel::Low, PinLevel::High) => Some(EventType::Rising),
        (PinLevel::High, PinLevel::Low) => Some(EventType::Falling),
        _ => None,
    }
}

impl LineSnapshot {
    /// The properties of the pin on the line.
    pub open spec fn pin_properties(self) -> GPIOProperties {
        match self.mode {
            LineMode::Input { bias, event } => GPIOProperties::Input(
                GPIOInputProperties { bias, event },
            ),
            LineMode::Output { drive } => GPIOProperties::Output(GPIOOutputProperties { drive }),
        }
    }

    /// The edges that the line reports.
    pub open spec fn reported_edges(self) -> PropertyEventMode {
        match self.mode {
            LineMode::Input { event, .. } => event,
            LineMode::Output { .. } => PropertyEventMode::NoEvent,
        }
    }

    /// The properties of the pin on the line.
    pub fn properties(&self) -> (properties: GPIOProperties)
        ensures
            properties == self.pin_properties(),
    {
        match self.mode {
            LineMode::Input { bias, event } => GPIOProperties::input(bias, event),
            LineMode::Output { drive } => GPIOProperties::output(drive),
        }
    }

    /// Whether a pin may be configured in this way on the line: the directions agree, and a
    /// trigger needs a line that reports edges.
    pub fn validate_config(&self, spec: &PinSpec, config: &GPIOPinConfig) -> (result: Result<
        (),
        MockError,
    >)
        ensures
            match (result, config_fault(spec@, *config, self.mode)) {
                (Ok(_), None) => true,
                (Err(error), Some(expected)) => error@ == expected,
                _ => false,
            },
    {
        match (config, &self.mode) {
            (GPIOPinConfig::Output { .. }, LineMode::Output { .. }) => Ok(()),
            (GPIOPinConfig::Output { .. }, LineMode::Input { .. }) => Err(
                MockError::DirectionMismatch {
                    chip: spec.chip_name.clone(),
                    line: spec.line_offset,
                    expected: "output",
                    found: "input",
                },
            ),
            (GPIOPinConfig::Input { .. }, LineMode::Input { .. }) => Ok(()),
            (GPIOPinConfig::Trigger { .. }, LineMode::Input { event, .. }) => if *event
                != PropertyEventMode::NoEvent {
                Ok(())
            } else {
                Err(
                    MockError::TriggerNotSupported {
                        chip: spec.chip_name.clone(),
                        line: spec.line_offset,
                    },
                )
            },
            (_, LineMode::Output { .. }) => Err(
                MockError::DirectionMismatch {
                    chip: spec.chip_name.clone(),
                    line: spec.line_offset,
                    expected: "input",
                    found: "output",
                },
            ),
        }
    }

    /// The edge from this line to the next state of it.
    pub fn level_transition(&self, next: &Self) -> (event: Option<EventType>)
        ensures
            event == level_edge(self.level, next.level),
    {
        match (self.level, next.level) {
            (PinLevel::Low, PinLevel::High) => Some(EventType::Rising),
            (PinLevel::High, PinLevel::Low) => Some(EventType::Falling),
            _ => None,
        }
    }

    /// The edges that the line reports.
    pub fn event_capability(&self) -> (event: PropertyEventMode)
        ensures
            event == self.reported_edges(),
    {
        match self.mode {
            LineMode::Input { event, .. } => event,
            LineMode::Output { .. } => PropertyEventMode::NoEvent,
        }
    }

    /// The direction of the line in words.
    pub fn structure_kind(&self) -> (kind: &'static str)
        ensures
            kind@ == if self.mode is Input {
                "input"@
            } else {
                "output"@
            },
    {
        match self.mode {
            LineMode::Input { .. } => "input",
            LineMode::Output { .. } => "output",
        }
    }
}

// ---------------------------------------------------------------------------
// Structure
// ---------------------------------------------------------------------------

/// What is wrong with the lines of a chip after a reload, with the first line that is gone
/// or has changed direction deciding.
pub open spec fn lines_fault(
    chip: Seq<char>,
    offsets: Seq<u32>,
    previous: Map<u32, LineSnapshot>,
    current: Map<u32, LineSnapshot>,
) -> Option<Seq<char>>
    decreases offsets.len(),
{
    if offsets.len() == 0 {
        None
    } else {
        let line = offsets.last();
        match lines_fault(chip, offsets.drop_last(), previous, current) {
            Some(fault) => Some(fault),
            None => if !current.contains_key(line) {
                Some("line removed or renamed: "@ + chip + ":"@ + decimal(line as nat))
            } else if (previous[line].mode is Input) != (current[line].mode is Input) {
                Some("line mode changed for "@ + chip + ":"@ + decimal(line as nat))
            } else {
                None
            },
        }
    }
}

/// What is wrong with a chip after a reload.
pub open spec fn chip_fault(
    chip: Seq<char>,
    previous: Map<u32, LineSnapshot>,
    current: Map<Seq<char>, Map<u32, LineSnapshot>>,
) -> Option<Seq<char>> {
    if !current.contains_key(chip) {
        Some("chip removed or renamed: "@ + chip)
    } else if previous.len() != current[chip].len() {
        Some("line structure changed for chip "@ + chip)
    } else {
        lines_fault(chip, sorted_offsets(previous.dom()), previous, current[chip])
    }
}

/// What is wrong with chips after a reload, the first chip deciding.
pub open spec fn chips_fault(
    names: Seq<Seq<char>>,
    previous: Map<Seq<char>, Map<u32, LineSnapshot>>,
    current: Map<Seq<char>, Map<u32, LineSnapshot>>,
) -> Option<Seq<char>>
    decreases names.len(),
{
    if names.len() == 0 {
        None
    } else {
        match chips_fault(names.drop_last(), previous, current) {
            Some(fault) => Some(fault),
            None => chip_fault(names.last(), previous[names.last()], current),
        }
    }
}

/// What is wrong with the structure of a backend after a reload.
pub open spec fn structure_fault(previous: BackendSnapshot, current: BackendSnapshot) -> Option<
    Seq<char>,
> {
    if previous.chips.names().len() != current.chips.names().len() {
        Some("gpiochip structure changed"@)
    } else {
        chips_fault(previous.chips.names(), previous@, current@)
    }
}

proof fn lemma_lines_fault_prefix(
    chip: Seq<char>,
    offsets: Seq<u32>,
    previous: Map<u32, LineSnapshot>,
    current: Map<u32, LineSnapshot>,
    count: int,
)
    requires
        0 <= count <= offsets.len(),
        lines_fault(chip, offsets.take(count), previous, current) is Some,
    ensures
        lines_fault(chip, offsets, previous, current) == lines_fault(
            chip,
            offsets.take(count),
            previous,
            current,
        ),
    decreases offsets.len(),
{
    if count == offsets.len() {
        assert(offsets.take(count) =~= offsets);
    } else {
        assert(offsets.drop_last().take(count) =~= offsets.take(count));
        lemma_lines_fault_prefix(chip, offsets.drop_last(), previous, current, count);
    }
}

proof fn lemma_chips_fault_prefix(
    names: Seq<Seq<char>>,
    previous: Map<Seq<char>, Map<u32, LineSnapshot>>,
    current: Map<Seq<char>, Map<u32, LineSnapshot>>,
    count: int,
)
    requires
        0 <= count <= names.len(),
        chips_fault(names.take(count), previous, current) is Some,
    ensures
        chips_fault(names, previous, current) == chips_fault(names.take(count), previous, current),
    decreases names.len(),
{
    if count == names.len() {
        assert(names.take(count) =~= names);
    } else {
        assert(names.drop_last().take(count) =~= names.take(count));
        lemma_chips_fault_prefix(names.drop_last(), previous, current, count);
    }
}

fn pin_words(lead: &str, chip: &str, line: u32) -> (words: String)
    ensures
        words@ == lead@ + chip@ + ":"@ + decimal(line as nat),
{
    joined(lead, chip).concat(":").concat(number_text(line as u64).as_str())
}

fn check_lines(chip: &str, previous: &ChipSnapshot, current: &ChipSnapshot) -> (result: Result<
    (),
    String,
>)
    ensures
        match (
            result,
            lines_fault(chip@, sorted_offsets(previous.lines@.dom()), previous.lines@, current.lines@),
        ) {
            (Ok(_), None) => true,
            (Err(error), Some(expected)) => error@ == expected,
            _ => false,
        },
{
    let offsets = offsets_in_order(&previous.lines);
    let mut index: usize = 0;
    while index < offsets.len()
        invariant
            index <= offsets@.len(),
            offsets@ == sorted_offsets(previous.lines@.dom()),
            offsets@.to_set() == previous.lines@.dom(),
            lines_fault(chip@, offsets@.take(index as int), previous.lines@, current.lines@)
                is None,
        decreases offsets@.len() - index,
    {
        let line: u32 = offsets[index];
        let ghost next = offsets@.take(index + 1);
        assert(next.drop_last() =~= offsets@.take(index as int));
        assert(next.last() == line);
        assert(offsets@.to_set().contains(line));
        proof {
            if lines_fault(chip@, next, previous.lines@, current.lines@) is Some {
                lemma_lines_fault_prefix(
                    chip@,
                    offsets@,
                    previous.lines@,
                    current.lines@,
                    index + 1,
                );
            }
        }
        match (previous.lines.get(&line), current.lines.get(&line)) {
            (Some(before), Some(after)) => {
                let same = same_text(before.structure_kind(), after.structure_kind());
                proof {
                    reveal_strlit("input");
                    reveal_strlit("output");
                    assert("input"@.len() == 5 && "output"@.len() == 6);
                }
                if !same {
                    return Err(pin_words("line mode changed for ", chip, line));
                }
            },
            _ => {
                return Err(pin_words("line removed or renamed: ", chip, line));
            },
        }
        index += 1;
    }
    assert(offsets@.take(index as int) =~= offsets@);
    Ok(())
}

/// Whether two states of a backend have the same chips with the same lines in the same
/// directions.
pub fn ensure_structure_compatible(
    previous: &BackendSnapshot,
    current: &BackendSnapshot,
) -> (result: Result<(), MockError>)
    ensures
        match (result, structure_fault(*previous, *current)) {
            (Ok(_), None) => true,
            (Err(error), Some(expected)) => error@ == MockErrorModel::WatcherFailed(expected),
            _ => false,
        },
{
    if previous.chips.len() != current.chips.len() {
        return Err(MockError::WatcherFailed("gpiochip structure changed".to_owned()));
    }
    let count: usize = previous.chips.len();
    let ghost names = previous.chips.names();
    proof {
        lemma_ascending_distinct(names);
        lemma_paired(names, previous.chips.values());
    }
    let mut index: usize = 0;
    while index < count
        invariant
            count == names.len(),
            index <= count,
            names == previous.chips.names(),
            previous.chips.wf(),
            forall|i: int|
                0 <= i < names.len() ==> previous.chips.contents().contains_key(
                    #[trigger] names[i],
                ) && previous.chips.contents()[names[i]] == previous.chips.values()[i],
            structure_fault(*previous, *current) == chips_fault(names, previous@, current@),
            chips_fault(names.take(index as int), previous@, current@) is None,
        decreases count - index,
    {
        let name = previous.chips.name_at(index);
        let chip = previous.chips.value_at(index);
        let ghost next = names.take(index + 1);
        assert(next.drop_last() =~= names.take(index as int));
        assert(next.last() == name@);
        assert(previous@[name@] == chip.lines@);
        proof {
            if chips_fault(next, previous@, current@) is Some {
                lemma_chips_fault_prefix(names, previous@, current@, index + 1);
            }
        }
        match current.chips.get(name.as_str()) {
            None => {
                return Err(
                    MockError::WatcherFailed(joined("chip removed or renamed: ", name.as_str())),
                );
            },
            Some(now) => {
                assert(current@[name@] == now.lines@);
                if chip.lines.len() != now.lines.len() {
                    return Err(
                        MockError::WatcherFailed(
                            joined("line structure changed for chip ", name.as_str()),
                        ),
                    );
                }
                match check_lines(name.as_str(), chip, now) {
                    Err(fault) => {
                        return Err(MockError::WatcherFailed(fault));
                    },
                    Ok(()) => {},
                }
            },
        }
        index += 1;
    }
    assert(names.take(index as int) =~= names);
    Ok(())
}

/// The same chips, with the same lines in the same directions.
pub open spec fn same_structure(
    previous: Map<Seq<char>, Map<u32, LineSnapshot>>,
    current: Map<Seq<char>, Map<u32, LineSnapshot>>,
) -> bool {
    &&& previous.dom() == current.dom()
    &&& forall|chip: Seq<char>| #[trigger]
        previous.contains_key(chip) ==> same_lines(previous[chip], current[chip])
}

/// The same lines in the same directions.
pub open spec fn same_lines(
    previous: Map<u32, LineSnapshot>,
    current: Map<u32, LineSnapshot>,
) -> bool {
    &&& previous.dom() == current.dom()
    &&& forall|line: u32| #[trigger]
        previous.contains_key(line) ==> (previous[line].mode is Input) == (current[line].mode is Input)
}

/// Finitely many lines on every chip.
pub open spec fn finite_chips(chips: Map<Seq<char>, Map<u32, LineSnapshot>>) -> bool {
    forall|chip: Seq<char>| #[trigger] chips.contains_key(chip) ==> chips[chip].dom().finite()
}

proof fn lemma_no_lines_fault(
    chip: Seq<char>,
    offsets: Seq<u32>,
    previous: Map<u32, LineSnapshot>,
    current: Map<u32, LineSnapshot>,
)
    ensures
        lines_fault(chip, offsets, previous, current) is None <==> forall|i: int|
            0 <= i < offsets.len() ==> current.contains_key(#[trigger] offsets[i]) && (
            previous[offsets[i]].mode is Input) == (current[offsets[i]].mode is Input),
    decreases offsets.len(),
{
    if offsets.len() > 0 {
        let rest = offsets.drop_last();
        lemma_no_lines_fault(chip, rest, previous, current);
        assert(forall|i: int| 0 <= i < rest.len() ==> rest[i] == offsets[i]);
        assert(offsets.last() == offsets[offsets.len() - 1]);
    }
}

proof fn lemma_no_chips_fault(
    names: Seq<Seq<char>>,
    previous: Map<Seq<char>, Map<u32, LineSnapshot>>,
    current: Map<Seq<char>, Map<u32, LineSnapshot>>,
)
    ensures
        chips_fault(names, previous, current) is None <==> forall|i: int|
            0 <= i < names.len() ==> chip_fault(#[trigger] names[i], previous[names[i]], current)
                is None,
    decreases names.len(),
{
    if names.len() > 0 {
        let rest = names.drop_last();
        lemma_no_chips_fault(rest, previous, current);
        assert(forall|i: int| 0 <= i < rest.len() ==> rest[i] == names[i]);
        assert(names.last() == names[names.len() - 1]);
    }
}

proof fn lemma_no_chip_fault(
    chip: Seq<char>,
    previous: Map<u32, LineSnapshot>,
    current: Map<Seq<char>, Map<u32, LineSnapshot>>,
)
    requires
        previous.dom().finite(),
        current.contains_key(chip) ==> current[chip].dom().finite(),
    ensures
        chip_fault(chip, previous, current) is None <==> current.contains_key(chip) && same_lines(
            previous,
            current[chip],
        ),
{
    if current.contains_key(chip) {
        let offsets = sorted_offsets(previous.dom());
        lemma_sorted_offsets(previous.dom());
        lemma_no_lines_fault(chip, offsets, previous, current[chip]);
        assert forall|line: u32| #[trigger] previous.contains_key(line) implies exists|i: int|
            0 <= i < offsets.len() && offsets[i] == line by {
            assert(offsets.to_set().contains(line));
        }
        assert forall|i: int| 0 <= i < offsets.len() implies previous.contains_key(
            #[trigger] offsets[i],
        ) by {
            assert(offsets.to_set().contains(offsets[i]));
        }
        if chip_fault(chip, previous, current) is None {
            assert(previous.dom().subset_of(current[chip].dom()));
            vstd::set_lib::lemma_subset_equality(previous.dom(), current[chip].dom());
        }
    }
}

/// A reload is accepted exactly where it keeps every chip, every line and its direction.
pub proof fn compatible_is_same_structure(previous: BackendSnapshot, current: BackendSnapshot)
    requires
        previous.chips.wf(),
        current.chips.wf(),
        finite_chips(previous@),
        finite_chips(current@),
    ensures
        structure_fault(previous, current) is None <==> same_structure(previous@, current@),
{
    let before = previous.chips.names();
    let after = current.chips.names();
    lemma_ascending_distinct(before);
    lemma_ascending_distinct(after);
    lemma_paired(before, previous.chips.values());
    lemma_paired(after, current.chips.values());
    assert(before.to_set() =~= previous@.dom());
    assert(after.to_set() =~= current@.dom());
    before.unique_seq_to_set();
    after.unique_seq_to_set();
    lemma_no_chips_fault(before, previous@, current@);
    assert forall|chip: Seq<char>| #[trigger] previous@.contains_key(chip) implies (chip_fault(
        chip,
        previous@[chip],
        current@,
    ) is None <==> current@.contains_key(chip) && same_lines(previous@[chip], current@[chip])) by {
        lemma_no_chip_fault(chip, previous@[chip], current@);
    }
    assert forall|i: int| 0 <= i < before.len() implies previous@.contains_key(
        #[trigger] before[i],
    ) by {
        assert(previous.chips.contents().contains_key(before[i]));
    }
    if structure_fault(previous, current) is None {
        assert(previous@.dom().subset_of(current@.dom())) by {
            assert forall|chip: Seq<char>| previous@.contains_key(chip) implies
                current@.contains_key(chip) by {
                assert(before.to_set().contains(chip));
                let i = choose|i: int| 0 <= i < before.len() && before[i] == chip;
                assert(chip_fault(before[i], previous@[before[i]], current@) is None);
            }
        }
        vstd::set_lib::lemma_subset_equality(previous@.dom(), current@.dom());
        assert forall|chip: Seq<char>| #[trigger] previous@.contains_key(chip) implies same_lines(
            previous@[chip],
            current@[chip],
        ) by {
            assert(before.to_set().contains(chip));
            let i = choose|i: int| 0 <= i < before.len() && before[i] == chip;
            assert(chip_fault(before[i], previous@[before[i]], current@) is None);
        }
    }
    if same_structure(previous@, current@) {
        assert forall|i: int| 0 <= i < before.len() implies chip_fault(
            #[trigger] before[i],
            previous@[before[i]],
            current@,
        ) is None by {
            assert(previous@.contains_key(before[i]));
            assert(current@.dom().contains(before[i]));
        }
        assert(before.len() == after.len());
    }
}

} // verus!

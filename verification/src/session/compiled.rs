//! Targets of a session, resolved to lines of its chips.

use std::collections::BTreeMap;
use vstd::prelude::*;

use crate::names::NameMap;
use crate::session::pins::PinList;
use crate::session::pins::ResolvedPin;
use crate::text::same_text;

verus! {

/// What a target is for.
#[derive(Debug, Clone, Copy, PartialEq, Eq, Structural)]
pub enum TargetMode {
    Input,
    Output,
    Trigger,
}

/// The pins of a target: one, or several that are packed into one value.
#[derive(Debug, PartialEq, Eq)]
pub enum ResolvedPins {
    Single(ResolvedPin),
    Combined(PinList),
}

impl View for ResolvedPins {
    type V = Seq<ResolvedPin>;

    open spec fn view(&self) -> Seq<ResolvedPin> {
        match *self {
            ResolvedPins::Single(pin) => seq![pin],
            ResolvedPins::Combined(pins) => pins@,
        }
    }
}

impl ResolvedPins {
    /// How many pins there are.
    pub fn len(&self) -> (len: usize)
        ensures
            len == self@.len(),
    {
        match self {
            ResolvedPins::Single(_) => 1,
            ResolvedPins::Combined(pins) => pins.len(),
        }
    }

    /// How many bits the value of the pins has.
    pub fn width(&self) -> (width: usize)
        ensures
            width == self@.len(),
    {
        self.len()
    }

    /// The pin at a position.
    pub fn pin_at(&self, index: usize) -> (pin: ResolvedPin)
        requires
            index < self@.len(),
        ensures
            pin == self@[index as int],
    {
        match self {
            ResolvedPins::Single(pin) => *pin,
            ResolvedPins::Combined(pins) => pins.as_slice()[index],
        }
    }

    /// Walks over the pins in order.
    pub fn iter<'a>(&'a self) -> (iter: ResolvedPinIter<'a>)
        ensures
            iter.all() == self@,
            iter.position() == 0,
    {
        ResolvedPinIter::new(self)
    }
}

/// Walks over the pins of a target in order.
pub struct ResolvedPinIter<'a> {
    pins: &'a ResolvedPins,
    index: usize,
}

impl<'a> ResolvedPinIter<'a> {
    /// All pins of the target.
    pub closed spec fn all(&self) -> Seq<ResolvedPin> {
        self.pins@
    }

    /// How many pins lie behind the walk.
    pub closed spec fn position(&self) -> usize {
        self.index
    }

    /// A walk before the first pin.
    pub fn new(pins: &'a ResolvedPins) -> (iter: Self)
        ensures
            iter.all() == pins@,
            iter.position() == 0,
    {
        ResolvedPinIter { pins, index: 0 }
    }

    /// How many pins the target has, wherever the walk stands.
    pub fn len(&self) -> (len: usize)
        ensures
            len == self.all().len(),
    {
        self.pins.len()
    }

    /// How many pins the target has, as a lower and an upper bound.
    pub fn size_hint(&self) -> (hint: (usize, Option<usize>))
        ensures
            hint.0 == self.all().len(),
            hint.1 == Some(hint.0),
    {
        let len: usize = self.len();
        (len, Some(len))
    }

    /// Goes back before the first pin.
    pub fn reset(&mut self)
        ensures
            final(self).all() == old(self).all(),
            final(self).position() == 0,
    {
        self.index = 0;
    }

    /// The next pin.
    pub fn next(&mut self) -> (pin: Option<ResolvedPin>)
        ensures
            final(self).all() == old(self).all(),
            match pin {
                Some(found) => {
                    &&& old(self).position() < old(self).all().len()
                    &&& found == old(self).all()[old(self).position() as int]
                    &&& final(self).position() == old(self).position() + 1
                },
                None => {
                    &&& old(self).position() >= old(self).all().len()
                    &&& final(self).position() == old(self).position()
                },
            },
    {
        if self.index < self.pins.len() {
            let pin = self.pins.pin_at(self.index);
            self.index = self.index + 1;
            Some(pin)
        } else {
            None
        }
    }
}

/// Walks over packed pins in order, each with its bit: the first pin is the highest bit.
pub struct CombinedResolvedPinsIter<'a> {
    pins: &'a [ResolvedPin],
    index: usize,
}

impl<'a> CombinedResolvedPinsIter<'a> {
    /// All pins.
    pub closed spec fn all(&self) -> Seq<ResolvedPin> {
        self.pins@
    }

    /// How many pins lie behind the walk.
    pub closed spec fn position(&self) -> usize {
        self.index
    }

    /// A walk before the first pin.
    pub fn new(pins: &'a [ResolvedPin]) -> (iter: Self)
        ensures
            iter.all() == pins@,
            iter.position() == 0,
    {
        CombinedResolvedPinsIter { pins, index: 0 }
    }

    /// The next pin and its bit.
    pub fn next(&mut self) -> (item: Option<(ResolvedPin, usize)>)
        ensures
            final(self).all() == old(self).all(),
            match item {
                Some((pin, bit)) => {
                    &&& old(self).position() < old(self).all().len()
                    &&& pin == old(self).all()[old(self).position() as int]
                    &&& bit == old(self).all().len() - 1 - old(self).position()
                    &&& final(self).position() == old(self).position() + 1
                },
                None => {
                    &&& old(self).position() >= old(self).all().len()
                    &&& final(self).position() == old(self).position()
                },
            },
    {
        if self.index < self.pins.len() {
            let pin = self.pins[self.index];
            let bit: usize = self.pins.len() - 1 - self.index;
            self.index = self.index + 1;
            Some((pin, bit))
        } else {
            None
        }
    }
}

/// A target of a session.
#[derive(Debug, PartialEq, Eq)]
pub struct CompiledTarget {
    pub mode: TargetMode,
    pub pins: ResolvedPins,
}

/// A [`CompiledTarget`] in mathematical terms.
pub ghost struct TargetModel {
    pub mode: TargetMode,
    pub pins: Seq<ResolvedPin>,
    /// Whether its pin stands by itself, rather than in a list of pins that are packed.
    pub single: bool,
}

impl View for CompiledTarget {
    type V = TargetModel;

    open spec fn view(&self) -> TargetModel {
        TargetModel { mode: self.mode, pins: self.pins@, single: self.pins is Single }
    }
}

impl TargetModel {
    /// Inputs and triggers can be read.
    pub open spec fn readable(self) -> bool {
        self.mode == TargetMode::Input || self.mode == TargetMode::Trigger
    }

    /// Outputs can be written.
    pub open spec fn writable(self) -> bool {
        self.mode == TargetMode::Output
    }
}

impl CompiledTarget {
    /// How many bits the value of the target has.
    pub fn width(&self) -> (width: usize)
        ensures
            width == self@.pins.len(),
    {
        self.pins.width()
    }

    /// Whether the target can be read.
    pub fn is_readable(&self) -> (readable: bool)
        ensures
            readable == self@.readable(),
    {
        match self.mode {
            TargetMode::Input => true,
            TargetMode::Trigger => true,
            TargetMode::Output => false,
        }
    }

    /// Whether the target can be written.
    pub fn is_writable(&self) -> (writable: bool)
        ensures
            writable == self@.writable(),
    {
        match self.mode {
            TargetMode::Output => true,
            _ => false,
        }
    }

    /// Whether the target reports edges.
    pub fn is_event_capable(&self) -> (capable: bool)
        ensures
            capable == (self@.mode == TargetMode::Trigger),
    {
        match self.mode {
            TargetMode::Trigger => true,
            _ => false,
        }
    }
}

/// The targets of a session by name, and its trigger targets by line.
#[derive(Debug, PartialEq, Eq)]
pub struct CompiledTargets {
    pub by_name: NameMap<CompiledTarget>,
    pub trigger_by_pin: BTreeMap<(u32, u32), String>,
}

/// The targets of a map.
pub open spec fn target_models(targets: Map<Seq<char>, CompiledTarget>) -> Map<
    Seq<char>,
    TargetModel,
> {
    targets.map_values(|target: CompiledTarget| target@)
}

/// The names of trigger targets by line.
pub open spec fn trigger_models(triggers: Map<(u32, u32), String>) -> Map<(u32, u32), Seq<char>> {
    triggers.map_values(|name: String| name@)
}

impl CompiledTargets {
    /// The targets by name.
    pub open spec fn targets(&self) -> Map<Seq<char>, TargetModel> {
        target_models(self.by_name.contents())
    }

    /// The names of the trigger targets by chip and offset.
    pub open spec fn triggers(&self) -> Map<(u32, u32), Seq<char>> {
        trigger_models(self.trigger_by_pin@)
    }

    /// No targets.
    pub fn new() -> (compiled: Self)
        ensures
            compiled.targets() == Map::<Seq<char>, TargetModel>::empty(),
            compiled.triggers() == Map::<(u32, u32), Seq<char>>::empty(),
    {
        let compiled = CompiledTargets {
            by_name: NameMap::new(),
            trigger_by_pin: BTreeMap::new(),
        };
        assert(compiled.targets() =~= Map::<Seq<char>, TargetModel>::empty());
        assert(compiled.triggers() =~= Map::<(u32, u32), Seq<char>>::empty());
        compiled
    }

    /// The target with a name.
    pub fn target(&self, name: &str) -> (found: Option<&CompiledTarget>)
        ensures
            match found {
                Some(target) => self.targets().contains_key(name@) && target@
                    == self.targets()[name@],
                None => !self.targets().contains_key(name@),
            },
    {
        self.by_name.get(name)
    }

    /// The name of the trigger target on a line.
    pub fn trigger_target_name(&self, chip_index: u32, offset: u32) -> (found: Option<&str>)
        ensures
            match found {
                Some(name) => self.triggers().contains_key((chip_index, offset)) && name@
                    == self.triggers()[(chip_index, offset)],
                None => !self.triggers().contains_key((chip_index, offset)),
            },
    {
        match self.trigger_by_pin.get(&(chip_index, offset)) {
            Some(name) => Some(name.as_str()),
            None => None,
        }
    }
}

// ---------------------------------------------------------------------------
// Numbering of chips
// ---------------------------------------------------------------------------

/// The devices of a session in the order in which they were first named, which numbers their
/// chips, each with a slot for data of its own.
pub struct ChipIndices<T> {
    devices: Vec<(String, Option<T>)>,
}

/// The devices with one more, unless it is there already.
pub open spec fn with_device(devices: Seq<Seq<char>>, device: Seq<char>) -> Seq<Seq<char>> {
    if devices.contains(device) {
        devices
    } else {
        devices.push(device)
    }
}

/// The slots once a device was named: a device that was not there gets an empty one.
pub open spec fn with_slot<T>(
    devices: Seq<Seq<char>>,
    slots: Seq<Option<T>>,
    device: Seq<char>,
) -> Seq<Option<T>> {
    if devices.contains(device) {
        slots
    } else {
        slots.push(None)
    }
}

impl<T> ChipIndices<T> {
    /// The devices in the order of their numbers.
    pub closed spec fn devices(&self) -> Seq<Seq<char>> {
        Seq::new(self.devices@.len(), |i: int| self.devices@[i].0@)
    }

    /// The slots of the devices in the order of their numbers.
    pub closed spec fn slots(&self) -> Seq<Option<T>> {
        Seq::new(self.devices@.len(), |i: int| self.devices@[i].1)
    }

    /// No device has two numbers, every device has a slot, and every number is a `u32`.
    pub open spec fn wf(&self) -> bool {
        &&& self.devices().no_duplicates()
        &&& self.devices().len() == self.slots().len()
        &&& self.devices().len() <= u32::MAX + 1
    }

    /// No devices.
    pub fn new() -> (indices: Self)
        ensures
            indices.wf(),
            indices.devices() == Seq::<Seq<char>>::empty(),
            indices.slots() == Seq::<Option<T>>::empty(),
    {
        let indices = ChipIndices { devices: Vec::new() };
        assert(indices.devices() =~= Seq::<Seq<char>>::empty());
        assert(indices.slots() =~= Seq::<Option<T>>::empty());
        indices
    }

    /// The number of a device, whether it has one or not: the next, if not.
    fn number(&self, device: &str) -> (number: usize)
        requires
            self.wf(),
        ensures
            number == with_device(self.devices(), device@).index_of(device@),
            number <= self.devices().len(),
            number == self.devices().len() <==> !self.devices().contains(device@),
    {
        let mut number: usize = 0;
        while number < self.devices.len()
            invariant
                number <= self.devices@.len(),
                self.wf(),
                forall|i: int| 0 <= i < number ==> self.devices()[i] != device@,
            decreases self.devices@.len() - number,
        {
            if same_text(self.devices[number].0.as_str(), device) {
                proof {
                    assert(self.devices()[number as int] == device@);
                    let first = self.devices().index_of(device@);
                    assert(self.devices()[first] == device@);
                }
                return number;
            }
            assert(self.devices()[number as int] != device@);
            number += 1;
        }
        proof {
            let devices = self.devices().push(device@);
            assert(devices[number as int] == device@);
            let first = devices.index_of(device@);
            assert(devices[first] == device@);
        }
        number
    }

    fn slot_mut(&mut self, number: usize) -> (slot: &mut Option<T>)
        requires
            number < old(self).devices().len(),
        ensures
            *slot == old(self).slots()[number as int],
            final(self).devices() == old(self).devices(),
            final(self).slots() == old(self).slots().update(number as int, *final(slot)),
    {
        let ghost before = *self;
        let slot = &mut self.devices[number].1;
        proof {
            assert(before.slots()[number as int] == *slot);
        }
        slot
    }

    /// The number of a device and its slot. A device without a number gets the next one and
    /// an empty slot.
    pub fn get_chip_index(&mut self, device: &str) -> (found: (u32, &mut Option<T>))
        requires
            old(self).wf(),
            old(self).devices().contains(device@) || old(self).devices().len() <= u32::MAX,
        ensures
            final(self).wf(),
            final(self).devices() == with_device(old(self).devices(), device@),
            found.0 == final(self).devices().index_of(device@),
            found.0 < final(self).devices().len(),
            *found.1 == with_slot(old(self).devices(), old(self).slots(), device@)[found.0 as int],
            final(self).slots() == with_slot(
                old(self).devices(),
                old(self).slots(),
                device@,
            ).update(found.0 as int, *final(found.1)),
    {
        let number: usize = self.number(device);
        if number == self.devices.len() {
            self.devices.push((device.to_owned(), None));
        }
        proof {
            assert(self.devices() =~= with_device(old(self).devices(), device@));
            assert(self.slots() =~= with_slot(old(self).devices(), old(self).slots(), device@));
        }
        let slot = self.slot_mut(number);
        (number as u32, slot)
    }

    /// The line of a device as a pin of the session, and the slot of the device.
    pub fn resolve(&mut self, device: &str, line: u32) -> (found: (ResolvedPin, &mut Option<T>))
        requires
            old(self).wf(),
            old(self).devices().contains(device@) || old(self).devices().len() <= u32::MAX,
        ensures
            final(self).wf(),
            final(self).devices() == with_device(old(self).devices(), device@),
            found.0.chip_index == final(self).devices().index_of(device@),
            found.0.chip_index < final(self).devices().len(),
            found.0.offset == line,
            *found.1 == with_slot(
                old(self).devices(),
                old(self).slots(),
                device@,
            )[found.0.chip_index as int],
            final(self).slots() == with_slot(
                old(self).devices(),
                old(self).slots(),
                device@,
            ).update(found.0.chip_index as int, *final(found.1)),
    {
        let (chip_index, slot) = self.get_chip_index(device);
        (ResolvedPin { chip_index, offset: line }, slot)
    }

    /// The devices and their slots in the order of their numbers.
    pub fn collect(self) -> (devices: Vec<(String, Option<T>)>)
        ensures
            devices@.len() == self.devices().len(),
            devices@.len() == self.slots().len(),
            forall|i: int|
                0 <= i < devices@.len() ==> (#[trigger] devices@[i]).0@ == self.devices()[i]
                    && devices@[i].1 == self.slots()[i],
    {
        self.devices
    }
}

} // verus!

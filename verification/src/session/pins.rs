//! Pins of a session, and short lists of them kept inline by `smallvec`.

use smallvec::SmallVec;
use vstd::prelude::*;

verus! {

/// A line of one of the chips of a session.
#[derive(Debug, Clone, Copy, PartialEq, Eq, Structural)]
pub struct ResolvedPin {
    pub chip_index: u32,
    pub offset: u32,
}

/// A list of pins with room for eight of them inline.
#[verifier::external_body]
#[derive(Debug, PartialEq, Eq)]
pub struct PinList {
    pins: SmallVec<[ResolvedPin; 8]>,
}

/// The pins in a list.
pub uninterp spec fn listed_pins(list: PinList) -> Seq<ResolvedPin>;

/// `SmallVec::new`: a list without pins.
#[verifier::external_body]
fn no_pins() -> (list: PinList)
    ensures
        listed_pins(list) == Seq::<ResolvedPin>::empty(),
{
    PinList { pins: SmallVec::new() }
}

/// `SmallVec::push`: appends one pin.
#[verifier::external_body]
fn push_pin(list: &mut PinList, pin: ResolvedPin)
    ensures
        listed_pins(*final(list)) == listed_pins(*old(list)).push(pin),
{
    list.pins.push(pin)
}

/// `SmallVec::as_slice`: the pins in order.
#[verifier::external_body]
fn pins_in(list: &PinList) -> (pins: &[ResolvedPin])
    ensures
        pins@ == listed_pins(*list),
{
    list.pins.as_slice()
}

impl View for PinList {
    type V = Seq<ResolvedPin>;

    open spec fn view(&self) -> Seq<ResolvedPin> {
        listed_pins(*self)
    }
}

impl PinList {
    /// A list without pins.
    pub fn new() -> (list: Self)
        ensures
            list@ == Seq::<ResolvedPin>::empty(),
    {
        no_pins()
    }

    /// Appends one pin.
    pub fn push(&mut self, pin: ResolvedPin)
        ensures
            final(self)@ == old(self)@.push(pin),
    {
        push_pin(self, pin);
    }

    /// The pins in order.
    pub fn as_slice(&self) -> (pins: &[ResolvedPin])
        ensures
            pins@ == self@,
    {
        pins_in(self)
    }

    /// How many pins the list has.
    pub fn len(&self) -> (len: usize)
        ensures
            len == self@.len(),
    {
        self.as_slice().len()
    }

    /// A list of the given pins.
    pub fn of(pins: &[ResolvedPin]) -> (list: Self)
        ensures
            list@ == pins@,
    {
        let mut list = PinList::new();
        let mut index: usize = 0;
        assert(pins@.take(0) =~= Seq::<ResolvedPin>::empty());
        while index < pins.len()
            invariant
                index <= pins@.len(),
                list@ == pins@.take(index as int),
            decreases pins@.len() - index,
        {
            list.push(pins[index]);
            index += 1;
            assert(pins@.take(index as int) =~= pins@.take(index - 1).push(pins@[index - 1]));
        }
        assert(pins@.take(index as int) =~= pins@);
        list
    }
}

} // verus!

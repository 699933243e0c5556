//! Short lists of pin names, kept inline by `smallvec`.

use smallvec::SmallVec;
use vstd::prelude::*;

verus! {

/// A list of pin names with room for eight of them inline.
#[verifier::external_body]
#[derive(Debug, PartialEq, Eq)]
pub struct PinNames {
    names: SmallVec<[String; 8]>,
}

/// The names in a list.
pub uninterp spec fn listed_names(list: PinNames) -> Seq<Seq<char>>;

/// The texts of a list of strings.
pub open spec fn texts(strings: Seq<String>) -> Seq<Seq<char>> {
    Seq::new(strings.len(), |i: int| strings[i]@)
}

/// `SmallVec::new`: a list without names.
#[verifier::external_body]
fn no_names() -> (list: PinNames)
    ensures
        listed_names(list) == Seq::<Seq<char>>::empty(),
{
    PinNames { names: SmallVec::new() }
}

/// `SmallVec::push`: appends one name.
#[verifier::external_body]
fn push_name(list: &mut PinNames, name: String)
    ensures
        listed_names(*final(list)) == listed_names(*old(list)).push(name@),
{
    list.names.push(name)
}

/// `SmallVec::as_slice`: the names in order.
#[verifier::external_body]
fn names_in(list: &PinNames) -> (names: &[String])
    ensures
        texts(names@) == listed_names(*list),
{
    list.names.as_slice()
}

impl View for PinNames {
    type V = Seq<Seq<char>>;

    open spec fn view(&self) -> Seq<Seq<char>> {
        listed_names(*self)
    }
}

impl PinNames {
    /// A list without names.
    pub fn new() -> (list: Self)
        ensures
            list@ == Seq::<Seq<char>>::empty(),
    {
        no_names()
    }

    /// Appends one name.
    pub fn push(&mut self, name: String)
        ensures
            final(self)@ == old(self)@.push(name@),
    {
        push_name(self, name);
    }

    /// The names in order.
    pub fn as_slice(&self) -> (names: &[String])
        ensures
            texts(names@) == self@,
            names@.len() == self@.len(),
    {
        let names = names_in(self);
        assert(texts(names@).len() == names@.len());
        names
    }

    /// How many names the list has.
    pub fn len(&self) -> (len: usize)
        ensures
            len == self@.len(),
    {
        self.as_slice().len()
    }
}

} // verus!

//! Indices of pins in a cluster, and short lists of them kept inline by `smallvec`.

use smallvec::SmallVec;
use vstd::prelude::*;

verus! {

/// A list of indices with room for eight of them inline.
#[verifier::external_body]
#[derive(Debug, PartialEq, Eq)]
pub struct IndexList {
    indices: SmallVec<[usize; 8]>,
}

/// The indices in a list.
pub uninterp spec fn listed_indices(list: IndexList) -> Seq<usize>;

/// `SmallVec::new`: a list without indices.
#[verifier::external_body]
fn no_indices() -> (list: IndexList)
    ensures
        listed_indices(list) == Seq::<usize>::empty(),
{
    IndexList { indices: SmallVec::new() }
}

/// `SmallVec::push`: appends one index.
#[verifier::external_body]
fn push_index(list: &mut IndexList, index: usize)
    ensures
        listed_indices(*final(list)) == listed_indices(*old(list)).push(index),
{
    list.indices.push(index)
}

/// `SmallVec::as_slice`: the indices in order.
#[verifier::external_body]
fn indices_in(list: &IndexList) -> (indices: &[usize])
    ensures
        indices@ == listed_indices(*list),
{
    list.indices.as_slice()
}

impl View for IndexList {
    type V = Seq<usize>;

    open spec fn view(&self) -> Seq<usize> {
        listed_indices(*self)
    }
}

impl IndexList {
    /// A list without indices.
    pub fn new() -> (list: Self)
        ensures
            list@ == Seq::<usize>::empty(),
    {
        no_indices()
    }

    /// Appends one index.
    pub fn push(&mut self, index: usize)
        ensures
            final(self)@ == old(self)@.push(index),
    {
        push_index(self, index);
    }

    /// The indices in order.
    pub fn as_slice(&self) -> (indices: &[usize])
        ensures
            indices@ == self@,
    {
        indices_in(self)
    }

    /// How many indices the list has.
    pub fn len(&self) -> (len: usize)
        ensures
            len == self@.len(),
    {
        self.as_slice().len()
    }

    /// A list of the given indices.
    pub fn of(indices: &[usize]) -> (list: Self)
        ensures
            list@ == indices@,
    {
        let mut list = IndexList::new();
        let mut index: usize = 0;
        assert(indices@.take(0) =~= Seq::<usize>::empty());
        while index < indices.len()
            invariant
                index <= indices@.len(),
                list@ == indices@.take(index as int),
            decreases indices@.len() - index,
        {
            list.push(indices[index]);
            index += 1;
            assert(indices@.take(index as int) =~= indices@.take(index - 1).push(indices@[index - 1]));
        }
        assert(indices@.take(index as int) =~= indices@);
        list
    }
}

/// The pins of a target in its cluster: one, or several that are packed into one value.
#[derive(Debug, PartialEq, Eq)]
pub enum ResolvedPinIndices {
    Single(usize),
    Combined(IndexList),
}

impl View for ResolvedPinIndices {
    type V = Seq<usize>;

    open spec fn view(&self) -> Seq<usize> {
        match *self {
            ResolvedPinIndices::Single(index) => seq![index],
            ResolvedPinIndices::Combined(indices) => indices@,
        }
    }
}

impl ResolvedPinIndices {
    /// How many pins there are.
    pub fn len(&self) -> (len: usize)
        ensures
            len == self@.len(),
    {
        match self {
            ResolvedPinIndices::Single(_) => 1,
            ResolvedPinIndices::Combined(indices) => indices.len(),
        }
    }

    /// The index of the pin at a position.
    pub fn index_at(&self, position: usize) -> (index: usize)
        requires
            position < self@.len(),
        ensures
            index == self@[position as int],
    {
        match self {
            ResolvedPinIndices::Single(index) => *index,
            ResolvedPinIndices::Combined(indices) => indices.as_slice()[position],
        }
    }

    /// The index of the first pin.
    pub fn first(&self) -> (index: Option<usize>)
        ensures
            index == if self@.len() > 0 {
                Some(self@[0])
            } else {
                None
            },
    {
        if self.len() > 0 {
            Some(self.index_at(0))
        } else {
            None
        }
    }

    /// Walks over the indices in order.
    pub fn iter<'a>(&'a self) -> (iter: ResolvedPinIndicesIter<'a>)
        ensures
            iter.all() == self@,
            iter.position() == 0,
    {
        ResolvedPinIndicesIter::new(self)
    }
}

/// Walks over the indices of a target in order.
pub struct ResolvedPinIndicesIter<'a> {
    indices: &'a ResolvedPinIndices,
    index: usize,
}

impl<'a> ResolvedPinIndicesIter<'a> {
    /// All indices of the target.
    pub closed spec fn all(&self) -> Seq<usize> {
        self.indices@
    }

    /// How many indices lie behind the walk.
    pub closed spec fn position(&self) -> usize {
        self.index
    }

    /// A walk before the first index.
    pub fn new(indices: &'a ResolvedPinIndices) -> (iter: Self)
        ensures
            iter.all() == indices@,
            iter.position() == 0,
    {
        ResolvedPinIndicesIter { indices, index: 0 }
    }

    /// How many indices the target has, wherever the walk stands.
    pub fn len(&self) -> (len: usize)
        ensures
            len == self.all().len(),
    {
        self.indices.len()
    }

    /// How many indices the target has, as a lower and an upper bound.
    pub fn size_hint(&self) -> (hint: (usize, Option<usize>))
        ensures
            hint.0 == self.all().len(),
            hint.1 == Some(hint.0),
    {
        let len: usize = self.len();
        (len, Some(len))
    }

    /// Goes back before the first index.
    pub fn reset(&mut self)
        ensures
            final(self).all() == old(self).all(),
            final(self).position() == 0,
    {
        self.index = 0;
    }

    /// The next index.
    pub fn next(&mut self) -> (index: Option<usize>)
        ensures
            final(self).all() == old(self).all(),
            match index {
                Some(found) => {
                    &&& old(self).position() < old(self).all().len()
                    &&& found == old(self).all()[old(self).position() as int]
                    &&& final(self).position() == old(self).position() + 1
                },
                None => {
                    &&& old(self).position() >= old(self).all().len()
                    &&& final(self).position() == old(self).position()
                },
            },
    {
        if self.index < self.indices.len() {
            let index: usize = self.indices.index_at(self.index);
            self.index = self.index + 1;
            Some(index)
        } else {
            None
        }
    }

    /// The next index behind the next `n`.
    pub fn nth(&mut self, n: usize) -> (index: Option<usize>)
        requires
            old(self).position() + n <= usize::MAX,
        ensures
            final(self).all() == old(self).all(),
            match index {
                Some(found) => {
                    &&& old(self).position() + n < old(self).all().len()
                    &&& found == old(self).all()[old(self).position() + n]
                    &&& final(self).position() == old(self).position() + n + 1
                },
                None => {
                    &&& old(self).position() + n >= old(self).all().len()
                    &&& final(self).position() == old(self).position() + n
                },
            },
    {
        self.index = self.index + n;
        self.next()
    }
}

} // verus!

//! Maps keyed by name, walked in the order of the names.

use vstd::prelude::*;

use crate::text::precedes;
use crate::text::same_text;
use crate::text::text_precedes;
use crate::text::text_precedes_irreflexive;
use crate::text::text_precedes_total;
use crate::text::text_precedes_transitive;

verus! {

/// A map from names to values. Names are unique and kept in ascending order.
#[derive(Debug, PartialEq, Eq)]
pub struct NameMap<V> {
    entries: Vec<(String, V)>,
}

/// Names in strictly ascending order.
pub open spec fn ascending(names: Seq<Seq<char>>) -> bool {
    forall|i: int, j: int|
        0 <= i < j < names.len() ==> text_precedes(#[trigger] names[i], #[trigger] names[j])
}

/// Ascending names are all different.
pub proof fn lemma_ascending_distinct(names: Seq<Seq<char>>)
    requires
        ascending(names),
    ensures
        names.no_duplicates(),
{
    assert forall|i: int, j: int| 0 <= i < names.len() && 0 <= j < names.len() && i != j implies
        names[i] != names[j] by {
        text_precedes_irreflexive(names[i]);
        if i < j {
            assert(text_precedes(names[i], names[j]));
        } else {
            assert(text_precedes(names[j], names[i]));
        }
    }
}

/// The value that stands at the position of a name.
pub open spec fn paired<V>(names: Seq<Seq<char>>, values: Seq<V>) -> Map<Seq<char>, V> {
    Map::new(
        |name: Seq<char>| names.contains(name),
        |name: Seq<char>| values[names.index_of(name)],
    )
}

/// Among distinct names, the one at a position is paired with the value at that position.
pub proof fn lemma_paired<V>(names: Seq<Seq<char>>, values: Seq<V>)
    requires
        names.no_duplicates(),
    ensures
        forall|i: int|
            0 <= i < names.len() ==> paired(names, values).contains_key(#[trigger] names[i])
                && paired(names, values)[names[i]] == values[i],
        forall|name: Seq<char>| #[trigger]
            paired(names, values).contains_key(name) ==> exists|i: int|
                0 <= i < names.len() && names[i] == name,
{
    assert forall|i: int| 0 <= i < names.len() implies paired(names, values).contains_key(
        #[trigger] names[i],
    ) && paired(names, values)[names[i]] == values[i] by {
        let k = names.index_of(names[i]);
        assert(names[k] == names[i]);
    }
}

proof fn lemma_insert_order(names: Seq<Seq<char>>, index: int, name: Seq<char>)
    requires
        ascending(names),
        0 <= index <= names.len(),
        forall|i: int| 0 <= i < index ==> text_precedes(#[trigger] names[i], name),
        index < names.len() ==> !text_precedes(names[index], name) && names[index] != name,
    ensures
        ascending(names.insert(index, name)),
        forall|i: int| 0 <= i < names.len() ==> #[trigger] names[i] != name,
{
    if index < names.len() {
        text_precedes_total(names[index], name);
    }
    assert forall|i: int| index <= i < names.len() implies text_precedes(
        name,
        #[trigger] names[i],
    ) by {
        if i > index {
            assert(text_precedes(names[index], names[i]));
            text_precedes_transitive(name, names[index], names[i]);
        }
    }
    text_precedes_irreflexive(name);
}

impl<V> NameMap<V> {
    /// The names in ascending order.
    pub closed spec fn names(&self) -> Seq<Seq<char>> {
        Seq::new(self.entries@.len(), |i: int| self.entries@[i].0@)
    }

    /// The values in the order of their names.
    pub closed spec fn values(&self) -> Seq<V> {
        Seq::new(self.entries@.len(), |i: int| self.entries@[i].1)
    }

    /// What every map satisfies: ascending names, one value for each.
    pub open spec fn wf(&self) -> bool {
        &&& ascending(self.names())
        &&& self.names().len() == self.values().len()
    }

    #[verifier::type_invariant]
    closed spec fn in_order(&self) -> bool {
        ascending(self.names())
    }

    /// What the map holds.
    pub open spec fn contents(&self) -> Map<Seq<char>, V> {
        paired(self.names(), self.values())
    }

    /// A map without entries.
    pub fn new() -> (map: Self)
        ensures
            map.wf(),
            map.names() == Seq::<Seq<char>>::empty(),
            map.values() == Seq::<V>::empty(),
            map.contents() == Map::<Seq<char>, V>::empty(),
    {
        let map = NameMap { entries: Vec::new() };
        proof {
            assert(map.names() =~= Seq::<Seq<char>>::empty());
            assert(map.values() =~= Seq::<V>::empty());
            assert(map.contents() =~= Map::<Seq<char>, V>::empty());
        }
        map
    }

    /// How many entries the map has.
    pub fn len(&self) -> (len: usize)
        ensures
            self.wf(),
            len == self.names().len(),
    {
        proof {
            use_type_invariant(self);
        }
        self.entries.len()
    }

    /// Whether the map has no entries.
    pub fn is_empty(&self) -> (empty: bool)
        ensures
            empty == (self.names().len() == 0),
    {
        self.entries.len() == 0
    }

    /// The name at a position in ascending order.
    pub fn name_at(&self, index: usize) -> (name: &String)
        requires
            index < self.names().len(),
        ensures
            name@ == self.names()[index as int],
    {
        &self.entries[index].0
    }

    /// The value at a position in the order of the names.
    pub fn value_at(&self, index: usize) -> (value: &V)
        requires
            index < self.names().len(),
        ensures
            *value == self.values()[index as int],
    {
        &self.entries[index].1
    }

    /// The value under exactly this name.
    pub fn get(&self, name: &str) -> (found: Option<&V>)
        ensures
            found is Some <==> self.contents().contains_key(name@),
            found matches Some(value) ==> *value == self.contents()[name@],
    {
        proof {
            use_type_invariant(self);
            lemma_ascending_distinct(self.names());
            lemma_paired(self.names(), self.values());
        }
        let mut index: usize = 0;
        while index < self.entries.len()
            invariant
                index <= self.entries.len(),
                forall|i: int|
                    0 <= i < self.names().len() ==> self.contents().contains_key(
                        #[trigger] self.names()[i],
                    ) && self.contents()[self.names()[i]] == self.values()[i],
                forall|i: int| 0 <= i < index ==> self.names()[i] != name@,
            decreases self.entries.len() - index,
        {
            if same_text(self.entries[index].0.as_str(), name) {
                assert(self.names()[index as int] == name@);
                return Some(&self.entries[index].1);
            }
            assert(self.names()[index as int] != name@);
            index += 1;
        }
        None
    }

    /// Whether the map has this name.
    pub fn contains_key(&self, name: &str) -> (found: bool)
        ensures
            found == self.contents().contains_key(name@),
    {
        self.get(name).is_some()
    }

    /// The map with a value under a name, in place of the one that stood there.
    pub fn with(self, name: String, value: V) -> (map: Self)
        ensures
            map.wf(),
            map.contents() == self.contents().insert(name@, value),
    {
        proof {
            use_type_invariant(&self);
            lemma_ascending_distinct(self.names());
            lemma_paired(self.names(), self.values());
        }
        let ghost names = self.names();
        let ghost values = self.values();
        let mut entries = self.entries;
        let ghost key = name@;
        let mut index: usize = 0;
        while index < entries.len() && precedes(entries[index].0.as_str(), name.as_str())
            invariant
                index <= entries.len(),
                entries == self.entries,
                names == self.names(),
                forall|i: int| 0 <= i < index ==> text_precedes(#[trigger] names[i], name@),
            decreases entries.len() - index,
        {
            assert(names[index as int] == entries@[index as int].0@);
            index += 1;
        }
        if index < entries.len() && same_text(entries[index].0.as_str(), name.as_str()) {
            let entry = (name, value);
            assert(names[index as int] == name@);
            entries.set(index, entry);
            assert(Seq::new(entries@.len(), |i: int| entries@[i].0@) =~= names);
            let map = NameMap { entries };
            proof {
                assert(map.names() =~= names);
                assert(map.values() =~= values.update(index as int, value));
                lemma_paired(map.names(), map.values());
                assert(map.contents() =~= paired(names, values).insert(key, value));
            }
            map
        } else {
            proof {
                if index < entries.len() {
                    assert(names[index as int] == entries@[index as int].0@);
                }
                lemma_insert_order(names, index as int, name@);
            }
            entries.insert(index, (name, value));
            assert(Seq::new(entries@.len(), |i: int| entries@[i].0@) =~= names.insert(
                index as int,
                key,
            ));
            let map = NameMap { entries };
            proof {
                assert(map.names() =~= names.insert(index as int, key));
                assert(map.values() =~= values.insert(index as int, value));
                lemma_ascending_distinct(map.names());
                lemma_paired(map.names(), map.values());
                let before = paired(names, values);
                assert forall|other: Seq<char>|
                    map.contents().contains_key(other) == before.insert(key, value).contains_key(
                        other,
                    ) by {
                    if before.contains_key(other) {
                        let i = choose|i: int| 0 <= i < names.len() && names[i] == other;
                        let j = if i < index { i } else { i + 1 };
                        assert(map.names()[j] == other);
                    }
                    assert(map.names()[index as int] == key);
                }
                assert forall|other: Seq<char>| map.contents().contains_key(other) implies
                    map.contents()[other] == before.insert(key, value)[other] by {
                    let j = choose|j: int| 0 <= j < map.names().len() && map.names()[j] == other;
                    if j == index {
                    } else {
                        let i = if j < index { j } else { j - 1 };
                        assert(names[i] == other);
                    }
                }
                assert(map.contents() =~= before.insert(key, value));
            }
            map
        }
    }
}

} // verus!

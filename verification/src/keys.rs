//! The keys of ordered maps, in ascending order.

use std::collections::BTreeMap;
use vstd::prelude::*;
use vstd::std_specs::btree::increasing_seq;
use vstd::std_specs::cmp::OrdSpec;
use vstd::std_specs::iter::IteratorSpec;

verus! {

/// Numbers in strictly ascending order.
pub open spec fn ascending_keys(keys: Seq<u64>) -> bool {
    forall|i: int, j: int| 0 <= i < j < keys.len() ==> #[trigger] keys[i] < #[trigger] keys[j]
}

/// Numbers in strictly ascending order.
pub open spec fn ascending_offsets(offsets: Seq<u32>) -> bool {
    forall|i: int, j: int|
        0 <= i < j < offsets.len() ==> #[trigger] offsets[i] < #[trigger] offsets[j]
}

/// The members of a finite set of offsets in ascending order.
pub open spec fn sorted_offsets(offsets: Set<u32>) -> Seq<u32> {
    choose|sorted: Seq<u32>| ascending_offsets(sorted) && sorted.to_set() == offsets
}

spec fn insert_sorted(offsets: Seq<u32>, offset: u32) -> Seq<u32>
    decreases offsets.len(),
{
    if offsets.len() == 0 || offsets.last() < offset {
        offsets.push(offset)
    } else {
        insert_sorted(offsets.drop_last(), offset).push(offsets.last())
    }
}

proof fn lemma_insert_sorted(offsets: Seq<u32>, offset: u32)
    requires
        ascending_offsets(offsets),
        !offsets.contains(offset),
    ensures
        ascending_offsets(insert_sorted(offsets, offset)),
        forall|x: u32|
            insert_sorted(offsets, offset).contains(x) <==> offsets.contains(x) || x == offset,
    decreases offsets.len(),
{
    let sorted = insert_sorted(offsets, offset);
    if offsets.len() == 0 || offsets.last() < offset {
        assert forall|x: u32| sorted.contains(x) <==> offsets.contains(x) || x == offset by {
            assert(sorted[offsets.len() as int] == offset);
            if offsets.contains(x) {
                let i = choose|i: int| 0 <= i < offsets.len() && offsets[i] == x;
                assert(sorted[i] == x);
            }
        }
        assert forall|i: int, j: int| 0 <= i < j < sorted.len() implies #[trigger] sorted[i]
            < #[trigger] sorted[j] by {
            if j == offsets.len() && i < offsets.len() - 1 {
                assert(offsets[i] < offsets[offsets.len() - 1]);
            }
        }
    } else {
        let front = offsets.drop_last();
        let last = offsets.last();
        assert(offsets[offsets.len() - 1] == last);
        assert(!front.contains(offset)) by {
            if front.contains(offset) {
                let i = choose|i: int| 0 <= i < front.len() && front[i] == offset;
                assert(offsets[i] == offset);
            }
        }
        lemma_insert_sorted(front, offset);
        let inner = insert_sorted(front, offset);
        assert forall|i: int, j: int| 0 <= i < j < sorted.len() implies #[trigger] sorted[i]
            < #[trigger] sorted[j] by {
            if j == inner.len() {
                assert(inner.contains(inner[i]));
                if front.contains(inner[i]) {
                    let k = choose|k: int| 0 <= k < front.len() && front[k] == inner[i];
                    assert(offsets[k] < offsets[offsets.len() - 1]);
                }
            }
        }
        assert forall|x: u32| sorted.contains(x) <==> offsets.contains(x) || x == offset by {
            assert(sorted[inner.len() as int] == last);
            if sorted.contains(x) {
                let i = choose|i: int| 0 <= i < sorted.len() && sorted[i] == x;
                if i < inner.len() {
                    assert(inner.contains(inner[i]));
                    if front.contains(x) {
                        let k = choose|k: int| 0 <= k < front.len() && front[k] == x;
                        assert(offsets[k] == x);
                    }
                }
            }
            if offsets.contains(x) || x == offset {
                if x != last {
                    if offsets.contains(x) {
                        let k = choose|k: int| 0 <= k < offsets.len() && offsets[k] == x;
                        assert(front[k] == x);
                        assert(front.contains(x));
                    }
                    assert(insert_sorted(front, offset).contains(x));
                    let i = choose|i: int| 0 <= i < inner.len() && inner[i] == x;
                    assert(sorted[i] == x);
                }
            }
        }
    }
}

/// A finite set of offsets has an ascending list of its members.
pub proof fn lemma_sorted_offsets(offsets: Set<u32>)
    requires
        offsets.finite(),
    ensures
        ascending_offsets(sorted_offsets(offsets)),
        sorted_offsets(offsets).to_set() == offsets,
    decreases offsets.len(),
{
    if offsets.len() == 0 {
        let none = Seq::<u32>::empty();
        assert(none.to_set() =~= offsets);
        assert(ascending_offsets(none) && none.to_set() == offsets);
    } else {
        let offset = offsets.choose();
        let fewer = offsets.remove(offset);
        lemma_sorted_offsets(fewer);
        let sorted = sorted_offsets(fewer);
        assert(!sorted.contains(offset)) by {
            assert(sorted.to_set().contains(offset) == sorted.contains(offset));
        }
        lemma_insert_sorted(sorted, offset);
        let all = insert_sorted(sorted, offset);
        assert(all.to_set() =~= offsets) by {
            assert forall|x: u32| all.to_set().contains(x) == offsets.contains(x) by {
                assert(sorted.to_set().contains(x) == sorted.contains(x));
            }
        }
        assert(ascending_offsets(all) && all.to_set() == offsets);
    }
}

/// A set has only one ascending list of its members.
pub proof fn lemma_sorted_unique(left: Seq<u32>, right: Seq<u32>)
    requires
        ascending_offsets(left),
        ascending_offsets(right),
        left.to_set() == right.to_set(),
    ensures
        left == right,
    decreases left.len(),
{
    if left.len() == 0 {
        if right.len() > 0 {
            assert(right.to_set().contains(right[0]));
            assert(left.to_set().contains(right[0]));
        }
        assert(left =~= right);
    } else {
        assert(left.to_set().contains(left.last()));
        assert(right.to_set().contains(left.last()));
        assert(right.contains(left.last()));
        assert(right.to_set().contains(right.last()));
        assert(left.contains(right.last()));
        let i = choose|i: int| 0 <= i < left.len() && left[i] == right.last();
        let j = choose|j: int| 0 <= j < right.len() && right[j] == left.last();
        assert(left.last() == right.last()) by {
            if i < left.len() - 1 && j < right.len() - 1 {
                assert(left[i] < left[left.len() - 1]);
                assert(right[j] < right[right.len() - 1]);
            }
        }
        let a = left.drop_last();
        let b = right.drop_last();
        assert(a.to_set() =~= left.to_set().remove(left.last())) by {
            assert forall|x: u32| a.to_set().contains(x) == left.to_set().remove(
                left.last(),
            ).contains(x) by {
                if a.contains(x) {
                    let k = choose|k: int| 0 <= k < a.len() && a[k] == x;
                    assert(left[k] == x);
                    assert(left[k] < left[left.len() - 1]);
                }
                if left.contains(x) && x != left.last() {
                    let k = choose|k: int| 0 <= k < left.len() && left[k] == x;
                    assert(a[k] == x);
                }
            }
        }
        assert(b.to_set() =~= right.to_set().remove(right.last())) by {
            assert forall|x: u32| b.to_set().contains(x) == right.to_set().remove(
                right.last(),
            ).contains(x) by {
                if b.contains(x) {
                    let k = choose|k: int| 0 <= k < b.len() && b[k] == x;
                    assert(right[k] == x);
                    assert(right[k] < right[right.len() - 1]);
                }
                if right.contains(x) && x != right.last() {
                    let k = choose|k: int| 0 <= k < right.len() && right[k] == x;
                    assert(b[k] == x);
                }
            }
        }
        lemma_sorted_unique(a, b);
        assert(left =~= a.push(left.last()));
        assert(right =~= b.push(right.last()));
    }
}

proof fn lemma_increasing_offsets(offsets: Seq<u32>)
    requires
        increasing_seq(offsets),
    ensures
        ascending_offsets(offsets),
{
    assert forall|i: int, j: int| 0 <= i < j < offsets.len() implies #[trigger] offsets[i]
        < #[trigger] offsets[j] by {
        assert(offsets[i].cmp_spec(&offsets[j]) is Less);
    }
}

proof fn lemma_increasing_keys(keys: Seq<u64>)
    requires
        increasing_seq(keys),
    ensures
        ascending_keys(keys),
{
    assert forall|i: int, j: int| 0 <= i < j < keys.len() implies #[trigger] keys[i]
        < #[trigger] keys[j] by {
        assert(keys[i].cmp_spec(&keys[j]) is Less);
    }
}

/// The offsets of a map in ascending order.
pub fn offsets_in_order<V>(map: &BTreeMap<u32, V>) -> (offsets: Vec<u32>)
    ensures
        ascending_offsets(offsets@),
        offsets@.to_set() == map@.dom(),
        offsets@ == sorted_offsets(map@.dom()),
{
    let mut offsets: Vec<u32> = Vec::new();
    let entries = map.iter();
    let ghost all = entries.remaining();
    let ghost order = all.map_values(|kv: (&u32, &V)| *kv.0);
    proof {
        assert(increasing_seq(order));
        lemma_increasing_offsets(order);
        assert(order.to_set() =~= map@.dom()) by {
            assert forall|key: u32| map@.dom().contains(key) == order.to_set().contains(key) by {
                if map@.contains_key(key) {
                    assert(all.contains((&key, &map@[key])));
                    let i = choose|i: int| 0 <= i < all.len() && all[i] == (&key, &map@[key]);
                    assert(order[i] == key);
                }
                if order.contains(key) {
                    let i = choose|i: int| 0 <= i < order.len() && order[i] == key;
                    assert(map@.contains_key(*all[i].0));
                }
            }
        }
    }
    for entry in iter: entries
        invariant
            iter.seq() == all,
            order == all.map_values(|kv: (&u32, &V)| *kv.0),
            offsets@ == order.take(iter.index()),
    {
        offsets.push(*entry.0);
        assert(order.take(iter.index() + 1) =~= order.take(iter.index()).push(*entry.0));
    }
    proof {
        assert(order.take(order.len() as int) =~= order);
        lemma_sorted_unique(order, sorted_offsets(map@.dom()));
    }
    offsets
}

/// The keys of a map in ascending order.
pub fn keys_in_order<V>(map: &BTreeMap<u64, V>) -> (keys: Vec<u64>)
    ensures
        ascending_keys(keys@),
        keys@.to_set() == map@.dom(),
{
    let mut keys: Vec<u64> = Vec::new();
    let entries = map.iter();
    let ghost all = entries.remaining();
    let ghost order = all.map_values(|kv: (&u64, &V)| *kv.0);
    proof {
        assert(increasing_seq(order));
        lemma_increasing_keys(order);
        assert(order.to_set() =~= map@.dom()) by {
            assert forall|key: u64| map@.dom().contains(key) == order.to_set().contains(key) by {
                if map@.contains_key(key) {
                    assert(all.contains((&key, &map@[key])));
                    let i = choose|i: int| 0 <= i < all.len() && all[i] == (&key, &map@[key]);
                    assert(order[i] == key);
                }
                if order.contains(key) {
                    let i = choose|i: int| 0 <= i < order.len() && order[i] == key;
                    assert(map@.contains_key(*all[i].0));
                }
            }
        }
    }
    for entry in iter: entries
        invariant
            iter.seq() == all,
            order == all.map_values(|kv: (&u64, &V)| *kv.0),
            keys@ == order.take(iter.index()),
    {
        keys.push(*entry.0);
        assert(order.take(iter.index() + 1) =~= order.take(iter.index()).push(*entry.0));
    }
    proof {
        assert(order.take(order.len() as int) =~= order);
    }
    keys
}

} // verus!

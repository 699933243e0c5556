//! What holds of the numbers and slots of devices, however often and in whatever order they
//! are named.

use vstd::prelude::*;

use crate::session::compiled::with_device;
use crate::session::compiled::with_slot;

verus! {

/// A call of `ChipIndices::get_chip_index` or `ChipIndices::resolve`, which name a device, and
/// what its caller leaves in the slot that it gets.
pub ghost struct Naming<T> {
    pub device: Seq<char>,
    pub left: Option<T>,
}

/// The devices after a sequence of calls on no devices, in the order of their numbers.
pub open spec fn devices_after<T>(namings: Seq<Naming<T>>) -> Seq<Seq<char>>
    decreases namings.len(),
{
    if namings.len() == 0 {
        Seq::empty()
    } else {
        with_device(devices_after(namings.drop_last()), namings.last().device)
    }
}

/// The slots after a sequence of calls on no devices, in the order of their numbers.
pub open spec fn slots_after<T>(namings: Seq<Naming<T>>) -> Seq<Option<T>>
    decreases namings.len(),
{
    if namings.len() == 0 {
        Seq::empty()
    } else {
        let front = namings.drop_last();
        let device = namings.last().device;
        with_slot(devices_after(front), slots_after(front), device).update(
            devices_after(namings).index_of(device),
            namings.last().left,
        )
    }
}

/// The number that a call gets.
pub open spec fn number_given<T>(namings: Seq<Naming<T>>, call: int) -> int {
    devices_after(namings.take(call + 1)).index_of(namings[call].device)
}

/// What a call finds in the slot that it gets.
pub open spec fn slot_found<T>(namings: Seq<Naming<T>>, call: int) -> Option<T> {
    let earlier = namings.take(call);
    with_slot(devices_after(earlier), slots_after(earlier), namings[call].device)[number_given(
        namings,
        call,
    )]
}

/// The devices that calls name.
pub open spec fn named<T>(namings: Seq<Naming<T>>) -> Set<Seq<char>> {
    namings.map_values(|naming: Naming<T>| naming.device).to_set()
}

/// What the last of the calls that name a device left in its slot; nothing, if none does.
pub open spec fn last_left<T>(namings: Seq<Naming<T>>, device: Seq<char>) -> Option<T>
    decreases namings.len(),
{
    if namings.len() == 0 {
        None
    } else if namings.last().device == device {
        namings.last().left
    } else {
        last_left(namings.drop_last(), device)
    }
}

proof fn lemma_named<T>(namings: Seq<Naming<T>>)
    requires
        namings.len() > 0,
    ensures
        named(namings) == named(namings.drop_last()).insert(namings.last().device),
{
    let devices = namings.map_values(|naming: Naming<T>| naming.device);
    let front = namings.drop_last().map_values(|naming: Naming<T>| naming.device);
    assert(devices =~= front.push(namings.last().device));
    assert forall|device: Seq<char>| devices.contains(device) == (front.contains(device)
        || device == namings.last().device) by {
        if front.contains(device) {
            let k = choose|k: int| 0 <= k < front.len() && front[k] == device;
            assert(devices[k] == device);
        }
        assert(devices[front.len() as int] == namings.last().device);
    }
    assert(named(namings) =~= named(namings.drop_last()).insert(namings.last().device));
}

proof fn lemma_devices<T>(namings: Seq<Naming<T>>)
    ensures
        devices_after(namings).no_duplicates(),
        devices_after(namings).to_set() == named(namings),
    decreases namings.len(),
{
    let devices = devices_after(namings);
    if namings.len() == 0 {
        assert(devices.to_set() =~= named(namings));
    } else {
        let front = devices_after(namings.drop_last());
        let device = namings.last().device;
        lemma_devices(namings.drop_last());
        lemma_named(namings);
        assert forall|other: Seq<char>| devices.contains(other) == (front.contains(other) || other
            == device) by {
            if front.contains(other) {
                let k = choose|k: int| 0 <= k < front.len() && front[k] == other;
                assert(devices[k] == other);
            }
            if !front.contains(device) {
                assert(devices[front.len() as int] == device);
            }
        }
        assert(devices.to_set() =~= named(namings));
    }
}

proof fn lemma_earlier_devices<T>(namings: Seq<Naming<T>>, count: int)
    requires
        0 <= count <= namings.len(),
    ensures
        devices_after(namings.take(count)).is_prefix_of(devices_after(namings)),
    decreases namings.len(),
{
    if count == namings.len() {
        assert(namings.take(count) =~= namings);
    } else {
        assert(namings.drop_last().take(count) =~= namings.take(count));
        lemma_earlier_devices(namings.drop_last(), count);
    }
}

proof fn lemma_number<T>(namings: Seq<Naming<T>>, call: int)
    requires
        0 <= call < namings.len(),
    ensures
        0 <= number_given(namings, call) < devices_after(namings).len(),
        devices_after(namings)[number_given(namings, call)] == namings[call].device,
        !named(namings.take(call)).contains(namings[call].device) ==> number_given(namings, call)
            == named(namings.take(call)).len(),
{
    let upto = namings.take(call + 1);
    let earlier = namings.take(call);
    let device = namings[call].device;
    let devices = devices_after(upto);
    assert(upto.drop_last() =~= earlier);
    lemma_devices(earlier);
    lemma_devices(upto);
    lemma_named(upto);
    assert(devices.to_set().contains(device));
    assert(devices.contains(device));
    lemma_earlier_devices(namings, call + 1);
    if !named(earlier).contains(device) {
        assert(!devices_after(earlier).to_set().contains(device));
        let number = devices.index_of(device);
        assert(devices[number] == device);
        assert(devices[devices_after(earlier).len() as int] == device);
        devices_after(earlier).unique_seq_to_set();
    }
}

/// A device has one number, whichever call names it, and no other device has that number. The
/// numbers follow the order in which devices are first named: a device that is named for the
/// first time gets the number of the devices that were named before it.
pub proof fn devices_are_numbered_in_order_of_first_use<T>(namings: Seq<Naming<T>>)
    ensures
        devices_after(namings).no_duplicates(),
        devices_after(namings).to_set() == named(namings),
        forall|call: int|
            #![trigger number_given(namings, call)]
            0 <= call < namings.len() ==> {
                &&& 0 <= number_given(namings, call) < devices_after(namings).len()
                &&& devices_after(namings)[number_given(namings, call)] == namings[call].device
                &&& !named(namings.take(call)).contains(namings[call].device) ==> number_given(
                    namings,
                    call,
                ) == named(namings.take(call)).len()
            },
        forall|call: int, other: int|
            #![trigger number_given(namings, call), number_given(namings, other)]
            0 <= call < namings.len() && 0 <= other < namings.len() ==> (number_given(namings, call)
                == number_given(namings, other) <==> namings[call].device == namings[other].device),
{
    lemma_devices(namings);
    assert forall|call: int| #![trigger number_given(namings, call)] 0 <= call < namings.len()
        implies {
        &&& 0 <= number_given(namings, call) < devices_after(namings).len()
        &&& devices_after(namings)[number_given(namings, call)] == namings[call].device
        &&& !named(namings.take(call)).contains(namings[call].device) ==> number_given(namings, call)
            == named(namings.take(call)).len()
    } by {
        lemma_number(namings, call);
    }
}

/// One more call on what calls have led to is one more call in their sequence: it gets the
/// number and finds the slot that `ChipIndices::get_chip_index` and `ChipIndices::resolve`
/// promise, and leads to the devices and slots that they promise.
pub proof fn calls_go_on<T>(namings: Seq<Naming<T>>, naming: Naming<T>)
    ensures
        ({
            let devices = devices_after(namings);
            let slots = slots_after(namings);
            let after = namings.push(naming);
            let number = with_device(devices, naming.device).index_of(naming.device);
            &&& devices_after(after) == with_device(devices, naming.device)
            &&& slots_after(after) == with_slot(devices, slots, naming.device).update(
                number,
                naming.left,
            )
            &&& number_given(after, namings.len() as int) == number
            &&& slot_found(after, namings.len() as int) == with_slot(
                devices,
                slots,
                naming.device,
            )[number]
        }),
{
    let after = namings.push(naming);
    assert(after.drop_last() =~= namings);
    assert(after.take(namings.len() as int) =~= namings);
    assert(after.take(namings.len() as int + 1) =~= after);
}

proof fn lemma_slots<T>(namings: Seq<Naming<T>>)
    ensures
        slots_after(namings).len() == devices_after(namings).len(),
        forall|number: int|
            #![trigger slots_after(namings)[number]]
            0 <= number < devices_after(namings).len() ==> slots_after(namings)[number] == last_left(
                namings,
                devices_after(namings)[number],
            ),
    decreases namings.len(),
{
    if namings.len() > 0 {
        let front = namings.drop_last();
        let device = namings.last().device;
        let devices = devices_after(namings);
        lemma_slots(front);
        lemma_devices(namings);
        lemma_named(namings);
        assert(devices.to_set().contains(device));
        assert(devices.contains(device));
        let at = devices.index_of(device);
        assert(devices[at] == device);
        assert forall|number: int| #![trigger slots_after(namings)[number]]
            0 <= number < devices.len() implies slots_after(namings)[number] == last_left(
            namings,
            devices[number],
        ) by {
            if number != at {
                assert(devices[number] != device);
                assert(number < devices_after(front).len());
                assert(devices_after(front)[number] == devices[number]);
                assert(slots_after(front)[number] == last_left(front, devices[number]));
            }
        }
    }
}

proof fn lemma_unnamed<T>(namings: Seq<Naming<T>>, device: Seq<char>)
    requires
        !named(namings).contains(device),
    ensures
        last_left(namings, device) is None,
    decreases namings.len(),
{
    if namings.len() > 0 {
        lemma_named(namings);
        lemma_unnamed(namings.drop_last(), device);
    }
}

/// Every device has a slot of its own. A call that names a device finds there what the last
/// call that named it left, whatever calls named other devices since; the first finds it
/// empty.
pub proof fn slots_hold_what_was_last_left<T>(namings: Seq<Naming<T>>)
    ensures
        slots_after(namings).len() == devices_after(namings).len(),
        forall|number: int|
            #![trigger slots_after(namings)[number]]
            0 <= number < devices_after(namings).len() ==> slots_after(namings)[number] == last_left(
                namings,
                devices_after(namings)[number],
            ),
        forall|call: int|
            #![trigger slot_found(namings, call)]
            0 <= call < namings.len() ==> {
                &&& slot_found(namings, call) == last_left(
                    namings.take(call),
                    namings[call].device,
                )
                &&& !named(namings.take(call)).contains(namings[call].device) ==> slot_found(
                    namings,
                    call,
                ) is None
            },
{
    lemma_slots(namings);
    assert forall|call: int| #![trigger slot_found(namings, call)] 0 <= call < namings.len() implies {
        &&& slot_found(namings, call) == last_left(namings.take(call), namings[call].device)
        &&& !named(namings.take(call)).contains(namings[call].device) ==> slot_found(
            namings,
            call,
        ) is None
    } by {
        let earlier = namings.take(call);
        let upto = namings.take(call + 1);
        let device = namings[call].device;
        let number = number_given(namings, call);
        assert(upto.drop_last() =~= earlier);
        lemma_slots(earlier);
        lemma_devices(earlier);
        lemma_number(upto, call);
        assert(upto.take(call + 1) =~= upto);
        assert(upto.take(call) =~= earlier);
        assert(devices_after(upto)[number] == device);
        if named(earlier).contains(device) {
            assert(devices_after(earlier).to_set().contains(device));
            assert(slots_after(earlier)[number] == last_left(earlier, device));
        } else {
            assert(!devices_after(earlier).to_set().contains(device));
            lemma_unnamed(earlier, device);
            devices_after(earlier).unique_seq_to_set();
        }
    }
}

} // verus!

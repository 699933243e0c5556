//! What holds of the bits of values, and of reads and writes that are refused.

use vstd::prelude::*;

use crate::gpio::libgpiod::GPIOErrorModel;
use crate::gpio::libgpiod::LineValue;
use crate::session::batch::ChipBatch;
use crate::session::batch::CollectRule;
use crate::session::compiled::TargetMode;
use crate::session::compiled::TargetModel;
use crate::session::execute::bit_of;
use crate::session::execute::bit_value;
use crate::session::execute::get_batch;
use crate::session::execute::get_pins_added;
use crate::session::execute::power_of_two;
use crate::session::execute::set_batch;
use crate::session::execute::set_batch_writes_every_pin;
use crate::session::execute::set_pins_added;
use crate::session::execute::too_wide;
use crate::session::initialized::open_fault;
use crate::session::initialized::request_fault;
use crate::session::pins::ResolvedPin;
use crate::session::reactor::failure;
use crate::session::reactor::outcome_reply;
use crate::session::reactor::success;
use crate::session::state::SessionError;
use crate::session::state::SessionErrorModel;
use crate::protocol::response::ResponseModel;
use crate::number::decimal;

verus! {

// ---------------------------------------------------------------------------
// Bits
// ---------------------------------------------------------------------------

/// What a bit adds to a value.
pub open spec fn bit_weight(value: u8, bit: nat, weight: nat) -> nat {
    if bit_of(value, bit) {
        weight
    } else {
        0
    }
}

/// The bits of a value make it up: the lowest counts one, each next one twice as much. A set
/// bit is an active line.
pub proof fn bits_make_up_a_value(value: u8)
    ensures
        value == bit_weight(value, 0, 1) + bit_weight(value, 1, 2) + bit_weight(value, 2, 4)
            + bit_weight(value, 3, 8) + bit_weight(value, 4, 16) + bit_weight(value, 5, 32)
            + bit_weight(value, 6, 64) + bit_weight(value, 7, 128),
        bit_value(true) == LineValue::Active,
        bit_value(false) == LineValue::Inactive,
{
    assert(value == (value >> 0u8 & 1) * 1 + (value >> 1u8 & 1) * 2 + (value >> 2u8 & 1) * 4 + (
    value >> 3u8 & 1) * 8 + (value >> 4u8 & 1) * 16 + (value >> 5u8 & 1) * 32 + (value >> 6u8 & 1)
        * 64 + (value >> 7u8 & 1) * 128) by (bit_vector);
    assert(value >> 0u8 & 1 == 0 || value >> 0u8 & 1 == 1) by (bit_vector);
    assert(value >> 1u8 & 1 == 0 || value >> 1u8 & 1 == 1) by (bit_vector);
    assert(value >> 2u8 & 1 == 0 || value >> 2u8 & 1 == 1) by (bit_vector);
    assert(value >> 3u8 & 1 == 0 || value >> 3u8 & 1 == 1) by (bit_vector);
    assert(value >> 4u8 & 1 == 0 || value >> 4u8 & 1 == 1) by (bit_vector);
    assert(value >> 5u8 & 1 == 0 || value >> 5u8 & 1 == 1) by (bit_vector);
    assert(value >> 6u8 & 1 == 0 || value >> 6u8 & 1 == 1) by (bit_vector);
    assert(value >> 7u8 & 1 == 0 || value >> 7u8 & 1 == 1) by (bit_vector);
}

/// A value is too wide for a number of pins exactly where it has a set bit for which there is
/// no pin.
pub proof fn wide_values_have_a_bit_too_many(width: nat, value: u8)
    ensures
        too_wide(width, value) <==> exists|bit: nat|
            width <= bit < 8 && #[trigger] bit_of(value, bit),
        too_wide(0, value) <==> value > 0,
        too_wide(1, value) <==> value > 1,
        too_wide(2, value) <==> value > 3,
        too_wide(3, value) <==> value > 7,
        too_wide(4, value) <==> value > 15,
        too_wide(5, value) <==> value > 31,
        too_wide(6, value) <==> value > 63,
        too_wide(7, value) <==> value > 127,
        !too_wide(8, value),
{
    bits_make_up_a_value(value);
    reveal_with_fuel(power_of_two, 9);
    if too_wide(width, value) {
        assert(bit_of(value, 0) || bit_of(value, 1) || bit_of(value, 2) || bit_of(value, 3)
            || bit_of(value, 4) || bit_of(value, 5) || bit_of(value, 6) || bit_of(value, 7));
        if !(exists|bit: nat| width <= bit < 8 && #[trigger] bit_of(value, bit)) {
            assert(width <= 0 ==> !bit_of(value, 0));
            assert(width <= 1 ==> !bit_of(value, 1));
            assert(width <= 2 ==> !bit_of(value, 2));
            assert(width <= 3 ==> !bit_of(value, 3));
            assert(width <= 4 ==> !bit_of(value, 4));
            assert(width <= 5 ==> !bit_of(value, 5));
            assert(width <= 6 ==> !bit_of(value, 6));
            assert(width <= 7 ==> !bit_of(value, 7));
            assert(false);
        }
    }
}

// ---------------------------------------------------------------------------
// Refused reads and writes
// ---------------------------------------------------------------------------

/// Whether the pins of targets are lines of the chips of a session.
pub open spec fn on_chips(targets: Map<Seq<char>, TargetModel>, chip_count: nat) -> bool {
    forall|name: Seq<char>, i: int|
        #![trigger targets[name].pins[i]]
        targets.contains_key(name) && 0 <= i < targets[name].pins.len()
            ==> targets[name].pins[i].chip_index < chip_count
}

/// Why a target cannot be read, if it cannot: there is none of that name, or it is an output.
pub open spec fn unreadable(targets: Map<Seq<char>, TargetModel>, name: Seq<char>) -> Option<
    SessionErrorModel,
> {
    if !targets.contains_key(name) {
        Some(SessionErrorModel::UnknownTarget { target: name })
    } else if targets[name].mode == TargetMode::Output {
        Some(SessionErrorModel::TargetNotReadable { target: name })
    } else {
        None
    }
}

proof fn lemma_get_pins(
    chips: Seq<ChipBatch<CollectRule>>,
    target_slot: usize,
    pins: Seq<ResolvedPin>,
    count: nat,
)
    requires
        count <= pins.len(),
        forall|i: int| 0 <= i < pins.len() ==> (#[trigger] pins[i]).chip_index < chips.len(),
    ensures
        get_pins_added(chips, target_slot, pins, count) matches Ok(after) && after.len()
            == chips.len(),
    decreases count,
{
    if count > 0 {
        lemma_get_pins(chips, target_slot, pins, (count - 1) as nat);
        assert(pins[count - 1].chip_index < chips.len());
    }
}

/// Targets can be read together exactly where each of them can be read: it is a target of the
/// session and no output. Otherwise the first that cannot be read is named.
pub proof fn outputs_and_strangers_are_not_read(
    targets: Map<Seq<char>, TargetModel>,
    names: Seq<Seq<char>>,
    chip_count: nat,
)
    requires
        on_chips(targets, chip_count),
    ensures
        get_batch(targets, names, chip_count) is Ok <==> forall|i: int|
            0 <= i < names.len() ==> unreadable(targets, #[trigger] names[i]) is None,
        get_batch(targets, names, chip_count) matches Err(error) ==> exists|i: int|
            #![trigger names[i]]
            {
                &&& 0 <= i < names.len()
                &&& unreadable(targets, names[i]) == Some(error)
                &&& forall|j: int|
                    0 <= j < i ==> unreadable(targets, #[trigger] names[j]) is None
            },
        get_batch(targets, names, chip_count) matches Ok(batch) ==> batch.len() == chip_count,
    decreases names.len(),
{
    if names.len() > 0 {
        let front = names.drop_last();
        let last = names.len() - 1;
        outputs_and_strangers_are_not_read(targets, front, chip_count);
        assert(names[last] == names.last());
        assert(forall|i: int| 0 <= i < front.len() ==> #[trigger] front[i] == names[i]);
        match get_batch(targets, front, chip_count) {
            Ok(earlier) => {
                assert forall|i: int| 0 <= i < last implies unreadable(
                    targets,
                    #[trigger] names[i],
                ) is None by {
                    assert(front[i] == names[i]);
                }
                if unreadable(targets, names[last]) is None {
                    let pins = targets[names[last]].pins;
                    assert forall|i: int| 0 <= i < pins.len() implies (
                    #[trigger] pins[i]).chip_index < earlier.len() by {
                        assert(targets[names[last]].pins[i].chip_index < chip_count);
                    }
                    lemma_get_pins(earlier, last as usize, pins, pins.len());
                }
            },
            Err(error) => {
                let i = choose|i: int|
                    #![trigger front[i]]
                    {
                        &&& 0 <= i < front.len()
                        &&& unreadable(targets, front[i]) == Some(error)
                        &&& forall|j: int|
                            0 <= j < i ==> unreadable(targets, #[trigger] front[j]) is None
                    };
                assert(names[i] == front[i]);
                assert forall|j: int| 0 <= j < i implies unreadable(
                    targets,
                    #[trigger] names[j],
                ) is None by {
                    assert(front[j] == names[j]);
                }
            },
        }
    }
}

/// Why a value cannot be written to a target, if it cannot: there is none of that name, it is
/// no output, or the value has a bit for which there is no pin.
pub open spec fn unwritable(
    targets: Map<Seq<char>, TargetModel>,
    name: Seq<char>,
    value: u8,
) -> Option<SessionErrorModel> {
    if !targets.contains_key(name) {
        Some(SessionErrorModel::UnknownTarget { target: name })
    } else if targets[name].mode != TargetMode::Output {
        Some(SessionErrorModel::TargetNotWritable { target: name })
    } else if exists|bit: nat|
        targets[name].pins.len() <= bit < 8 && #[trigger] bit_of(value, bit) {
        Some(
            SessionErrorModel::TargetValueOutOfRange {
                target: name,
                value,
                bits: targets[name].pins.len() as usize,
            },
        )
    } else {
        None
    }
}

/// Values are written together only where each of them can be written: its target is an output
/// of the session and has a pin for every set bit. The first that cannot be written is named,
/// unless a line that two of them share gets two values before.
pub proof fn only_fitting_values_are_written(
    targets: Map<Seq<char>, TargetModel>,
    names: Seq<Seq<char>>,
    values: Seq<u8>,
    chip_count: nat,
)
    ensures
        set_batch(targets, names, values, chip_count) is Ok ==> forall|i: int|
            #![trigger names[i]]
            0 <= i < names.len() ==> unwritable(targets, names[i], values[i]) is None,
        set_batch(targets, names, values, chip_count) matches Err(error) ==> error is Other
            || exists|i: int|
            #![trigger names[i]]
            {
                &&& 0 <= i < names.len()
                &&& unwritable(targets, names[i], values[i]) == Some(error)
                &&& forall|j: int|
                    #![trigger names[j]]
                    0 <= j < i ==> unwritable(targets, names[j], values[j]) is None
            },
    decreases names.len(),
{
    if names.len() > 0 {
        let front = names.drop_last();
        let last = names.len() - 1;
        only_fitting_values_are_written(targets, front, values, chip_count);
        assert(names[last] == names.last());
        assert(forall|i: int| #![trigger front[i]] 0 <= i < front.len() ==> front[i] == names[i]);
        wide_values_have_a_bit_too_many(targets[names[last]].pins.len(), values[last]);
        match set_batch(targets, front, values, chip_count) {
            Ok(earlier) => {
                assert forall|i: int| #![trigger names[i]] 0 <= i < last implies unwritable(
                    targets,
                    names[i],
                    values[i],
                ) is None by {
                    assert(front[i] == names[i]);
                }
                if unwritable(targets, names[last], values[last]) is None {
                    let pins = targets[names[last]].pins;
                    lemma_set_pins(earlier, pins, values[last], pins.len());
                }
            },
            Err(error) => {
                if !(error is Other) {
                    let i = choose|i: int|
                        #![trigger front[i]]
                        {
                            &&& 0 <= i < front.len()
                            &&& unwritable(targets, front[i], values[i]) == Some(error)
                            &&& forall|j: int|
                                #![trigger front[j]]
                                0 <= j < i ==> unwritable(targets, front[j], values[j]) is None
                        };
                    assert(names[i] == front[i]);
                    assert forall|j: int| #![trigger names[j]] 0 <= j < i implies unwritable(
                        targets,
                        names[j],
                        values[j],
                    ) is None by {
                        assert(front[j] == names[j]);
                    }
                }
            },
        }
    }
}

proof fn lemma_set_pins(
    chips: Seq<ChipBatch<LineValue>>,
    pins: Seq<ResolvedPin>,
    value: u8,
    count: nat,
)
    ensures
        set_pins_added(chips, pins, value, count) matches Err(error) ==> error is Other,
    decreases count,
{
    if count > 0 {
        lemma_set_pins(chips, pins, value, (count - 1) as nat);
    }
}

/// A line that two targets, or two pins of one, share is never given two values: values are
/// written together only where they agree on it.
pub proof fn shared_lines_get_one_value(
    targets: Map<Seq<char>, TargetModel>,
    names: Seq<Seq<char>>,
    values: Seq<u8>,
    chip_count: nat,
    first: int,
    i: int,
    second: int,
    j: int,
)
    requires
        set_batch(targets, names, values, chip_count) is Ok,
        0 <= first < names.len(),
        0 <= second < names.len(),
        0 <= i < targets[names[first]].pins.len(),
        0 <= j < targets[names[second]].pins.len(),
        targets[names[first]].pins[i] == targets[names[second]].pins[j],
    ensures
        bit_of(values[first], (targets[names[first]].pins.len() - 1 - i) as nat) == bit_of(
            values[second],
            (targets[names[second]].pins.len() - 1 - j) as nat,
        ),
{
    set_batch_writes_every_pin(targets, names, values, chip_count);
    let batch = set_batch(targets, names, values, chip_count)->Ok_0;
    let pin = targets[names[first]].pins[i];
    let chip = pin.chip_index as int;
    assert(targets[names[second]].pins[j] == pin);
    let one = bit_value(
        bit_of(values[first], (targets[names[first]].pins.len() - 1 - i) as nat),
    );
    let two = bit_value(
        bit_of(values[second], (targets[names[second]].pins.len() - 1 - j) as nat),
    );
    let a = choose|a: int|
        0 <= a < batch[chip].offsets.len() && batch[chip].offsets[a] == pin.offset
            && batch[chip].attachments[a] == one;
    let b = choose|b: int|
        0 <= b < batch[chip].offsets.len() && batch[chip].offsets[b] == pin.offset
            && batch[chip].attachments[b] == two;
    assert(batch[chip].offsets.no_duplicates());
    assert(a == b);
}

// ---------------------------------------------------------------------------
// Replies
// ---------------------------------------------------------------------------

/// A failure is replied to under the identifier of its request, in these words; success is
/// replied to with nothing but the identifier.
pub proof fn replies_are_in_plain_words(id: Seq<char>, name: Seq<char>, number: u32, value: u8)
    ensures
        success(id) == (id, ResponseModel::Done),
        failure(id, SessionErrorModel::AlreadyInitialized) == (
            id,
            ResponseModel::Error("session is already initialized"@),
        ),
        failure(id, SessionErrorModel::NotInitialized) == (
            id,
            ResponseModel::Error("session is not initialized"@),
        ),
        failure(id, SessionErrorModel::Closed) == (id, ResponseModel::Error("session is closed"@)),
        failure(id, SessionErrorModel::SetInProgress) == (
            id,
            ResponseModel::Error("a set request is already in progress"@),
        ),
        failure(id, SessionErrorModel::UnknownTarget { target: name }) == (
            id,
            ResponseModel::Error("unknown target `"@ + name + "`"@),
        ),
        failure(id, SessionErrorModel::TargetNotReadable { target: name }) == (
            id,
            ResponseModel::Error("target `"@ + name + "` is not readable"@),
        ),
        failure(id, SessionErrorModel::TargetNotWritable { target: name }) == (
            id,
            ResponseModel::Error("target `"@ + name + "` is not writable"@),
        ),
        failure(
            id,
            SessionErrorModel::TargetValueOutOfRange { target: name, value, bits: number as usize },
        ) == (
            id,
            ResponseModel::Error(
                "target `"@ + name + "` value "@ + decimal(value as nat) + " exceeds "@ + decimal(
                    number as nat,
                ) + " configured bits"@,
            ),
        ),
        failure(id, SessionErrorModel::UnmappedPin { pin: name }) == (
            id,
            ResponseModel::Error("unmapped pin `"@ + name + "`"@),
        ),
        failure(id, SessionErrorModel::UnavailableDeviceFile { device: name }) == (
            id,
            ResponseModel::Error("device file `"@ + name + "` is unavailable"@),
        ),
        failure(id, SessionErrorModel::MissingLine { device: name, line: number }) == (
            id,
            ResponseModel::Error(
                "line "@ + decimal(number as nat) + " is not available on device `"@ + name
                    + "`"@,
            ),
        ),
        failure(id, SessionErrorModel::DuplicatePhysicalLocation { pin: name }) == (
            id,
            ResponseModel::Error("pin `"@ + name + "` maps to a duplicate physical location"@),
        ),
{
}

/// The outcome of a request is replied to as success exactly where it succeeded.
pub proof fn outcomes_are_replied_to(id: Seq<char>, outcome: Result<(), SessionError>)
    ensures
        outcome_reply(id, outcome).0 == id,
        outcome_reply(id, outcome).1 is Done <==> outcome is Ok,
        outcome matches Err(error) ==> outcome_reply(id, outcome).1 == ResponseModel::Error(
            error@.text(),
        ),
{
}

/// A device that cannot be read is unavailable, and a line that it does not have is missing;
/// any other failure of the device is told as it is.
pub proof fn device_failures_are_told(device: Seq<char>, error: GPIOErrorModel)
    ensures
        error is Io ==> open_fault(device, error) == (SessionErrorModel::UnavailableDeviceFile {
            device,
        }),
        !(error is Io) ==> open_fault(device, error) == SessionErrorModel::GPIO(error),
        error matches GPIOErrorModel::InvalidOffset(offset) ==> request_fault(device, error) == (
        SessionErrorModel::MissingLine { device, line: offset }),
        !(error is InvalidOffset) ==> request_fault(device, error) == SessionErrorModel::GPIO(
            error,
        ),
{
}

} // verus!

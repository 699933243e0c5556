//! What holds of the replies to reads, and of when a session serves requests.

use vstd::prelude::*;

use crate::gpio::libgpiod::LineValue;
use crate::protocol::request::SetStepRequest;
use crate::protocol::request::TargetSelector;
use crate::session::batch::CollectRule;
use crate::session::execute::bit_of;
use crate::session::execute::packed_bit_is_active_reading;
use crate::session::execute::reads_active;
use crate::session::initialized::InitializedSession;
use crate::session::reactor::planned_steps;
use crate::session::reactor::read_reply;
use crate::session::reactor::readings_fit;
use crate::session::reactor::SessionReactor;
use crate::session::sequence::compiled_steps;
use crate::session::state::SessionErrorModel;
use crate::session::state::SessionState;

verus! {

/// Whether a line was read as active for a bit of the target at a place.
pub open spec fn read_as_active(
    readings: Seq<(CollectRule, LineValue)>,
    slot: int,
    bit: nat,
) -> bool {
    exists|i: int|
        #![trigger readings[i]]
        0 <= i < readings.len() && readings[i].0.target_slot == slot && readings[i].0.bit_index
            == bit && readings[i].1 == LineValue::Active
}

/// A `get` is replied to under its identifier: with a value by itself for a target that is
/// named by itself, and otherwise with one value for each target in order. A bit of a value is
/// set exactly where a line was read as active for it.
pub proof fn reads_are_replied_to_by_target(
    id: Seq<char>,
    target: TargetSelector,
    readings: Seq<(CollectRule, LineValue)>,
    slot: int,
    bit: nat,
)
    requires
        readings_fit(target, readings),
        target@.len() <= usize::MAX,
        0 <= slot < target@.len(),
        bit < 8,
    ensures
        ({
            let (under, reply) = read_reply(id, target, readings);
            let value = if target is Single {
                reply->Value_0
            } else {
                reply->Values_0[slot]
            };
            &&& under == id
            &&& target is Single ==> reply is Value
            &&& target is Multiple ==> reply is Values && reply->Values_0.len() == target@.len()
            &&& bit_of(value, bit) <==> read_as_active(readings, slot, bit)
        }),
{
    let place = if target is Single {
        None
    } else {
        Some(slot as usize)
    };
    packed_bit_is_active_reading(readings, place, bit);
    if read_as_active(readings, slot, bit) {
        let i = choose|i: int|
            #![trigger readings[i]]
            0 <= i < readings.len() && readings[i].0.target_slot == slot && readings[i].0.bit_index
                == bit && readings[i].1 == LineValue::Active;
        assert(reads_active(readings, place, bit)) by {
            assert(readings[i].0.bit_index == bit);
        }
    }
}

/// A session serves reads and writes once it is initialized and until it closes.
pub proof fn sessions_serve_between_init_and_close(reactor: SessionReactor)
    ensures
        reactor.not_ready() is None <==> reactor.state == SessionState::Initialized
            || reactor.state == SessionState::SetSequenceRunning,
        reactor.state == SessionState::Connected ==> reactor.not_ready() == Some(
            SessionErrorModel::NotInitialized,
        ),
        reactor.state == SessionState::Closing || reactor.state == SessionState::Closed
            ==> reactor.not_ready() == Some(SessionErrorModel::Closed),
{
}

/// A session without its sequence takes the next one, and is otherwise what it was. Only the
/// token of a sequence that is there is awaited.
pub proof fn ended_sequences_make_room(reactor: SessionReactor, token: u64)
    requires
        reactor.wf(),
    ensures
        ({
            let after = reactor.without_sequence();
            &&& after.wf()
            &&& after.pending_set is None
            &&& after.state != SessionState::SetSequenceRunning
            &&& reactor.state == SessionState::SetSequenceRunning ==> after.state
                == SessionState::Initialized
            &&& reactor.state != SessionState::SetSequenceRunning ==> after == reactor
            &&& after.initialized == reactor.initialized
            &&& after.session_id == reactor.session_id
            &&& after.next_sequence_token == reactor.next_sequence_token
            &&& !after.awaits(token)
            &&& reactor.awaits(token) ==> reactor.state == SessionState::SetSequenceRunning
            &&& reactor.pending_set matches Some(pending) ==> (reactor.awaits(token) <==> token
                == pending@.token)
        }),
{
}

/// A `set` without steps is refused; any other is compiled step by step.
pub proof fn sets_have_steps(session: InitializedSession, steps: Seq<SetStepRequest>)
    ensures
        steps.len() == 0 ==> (planned_steps(session, steps) matches Err(error) && error.text()
            == "set target steps must contain at least one step"@),
        steps.len() > 0 ==> planned_steps(session, steps) == compiled_steps(
            session.targets(),
            steps,
            session.chips as nat,
        ),
{
}

} // verus!

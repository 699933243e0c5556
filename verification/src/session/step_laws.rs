//! What holds of set requests in steps.

use vstd::prelude::*;

use crate::protocol::request::SetStepRequest;
use crate::session::compiled::TargetModel;
use crate::session::sequence::compiled_steps;
use crate::session::sequence::SequenceModel;

verus! {

/// The first step lies at its own lag, and every other step lies behind the one before it by
/// its own lag, whatever the lags are.
pub proof fn steps_lie_their_lags_apart(
    targets: Map<Seq<char>, TargetModel>,
    steps: Seq<SetStepRequest>,
    chip_count: nat,
)
    requires
        compiled_steps(targets, steps, chip_count) is Ok,
    ensures
        ({
            let compiled = compiled_steps(targets, steps, chip_count)->Ok_0;
            &&& compiled.len() == steps.len()
            &&& steps.len() > 0 ==> compiled[0].lag == steps[0].lag
            &&& forall|i: int|
                #![trigger compiled[i]]
                0 < i < steps.len() ==> compiled[i].lag == compiled[i - 1].lag + steps[i].lag
        }),
    decreases steps.len(),
{
    if steps.len() > 0 {
        let front = steps.drop_last();
        steps_lie_their_lags_apart(targets, front, chip_count);
        let earlier = compiled_steps(targets, front, chip_count)->Ok_0;
        let compiled = compiled_steps(targets, steps, chip_count)->Ok_0;
        let last = steps.len() - 1;
        assert(compiled.drop_last() =~= earlier);
        if last == 0 {
            reveal_with_fuel(crate::session::sequence::total_lag, 2);
            assert(compiled[0] == compiled.last());
        } else {
            assert(compiled[last] == compiled.last());
            assert(compiled[last - 1] == earlier[last - 1]);
            lemma_last_lag(targets, front, chip_count);
            assert(compiled[0] == earlier[0]);
            assert(front[0] == steps[0]);
        }
        assert forall|i: int| #![trigger compiled[i]] 0 < i < steps.len() implies compiled[i].lag
            == compiled[i - 1].lag + steps[i].lag by {
            if i < last {
                assert(compiled[i] == earlier[i]);
                assert(compiled[i - 1] == earlier[i - 1]);
                assert(front[i] == steps[i]);
            }
        }
    }
}

proof fn lemma_last_lag(
    targets: Map<Seq<char>, TargetModel>,
    steps: Seq<SetStepRequest>,
    chip_count: nat,
)
    requires
        steps.len() > 0,
        compiled_steps(targets, steps, chip_count) is Ok,
    ensures
        compiled_steps(targets, steps, chip_count)->Ok_0.len() > 0,
        compiled_steps(targets, steps, chip_count)->Ok_0.last().lag
            == crate::session::sequence::total_lag(steps),
{
}

/// When a sequence that just started goes on step by step, the step at `index` is due `lag`
/// milliseconds after the start, where `lag` is how far it lies from the start; behind the last
/// step nothing is due.
pub proof fn steps_fall_due_one_after_the_other(sequence: SequenceModel, index: nat)
    requires
        sequence.next == 1,
        1 <= index,
    ensures
        ({
            let after = steps_on(sequence, (index - 1) as nat);
            &&& after.steps == sequence.steps
            &&& after.started_at == sequence.started_at
            &&& after.token == sequence.token
            &&& after.request_id == sequence.request_id
            &&& if index < sequence.steps.len() {
                &&& after.next == index
                &&& after.deadline() == Some(
                    (sequence.started_at + sequence.steps[index as int].lag) as nat,
                )
            } else {
                after.complete() && after.deadline() is None
            }
        }),
    decreases index,
{
    if index > 1 {
        steps_fall_due_one_after_the_other(sequence, (index - 1) as nat);
    }
}

/// A sequence once a number of steps were applied.
pub open spec fn steps_on(sequence: SequenceModel, count: nat) -> SequenceModel
    decreases count,
{
    if count == 0 {
        sequence
    } else {
        steps_on(sequence, (count - 1) as nat).advanced()
    }
}

} // verus!

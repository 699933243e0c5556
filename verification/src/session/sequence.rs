//! Set requests in steps: all steps are compiled first, then applied one after the other.

use vstd::prelude::*;

use crate::gpio::libgpiod::LineValue;
use crate::protocol::request::SetStepRequest;
use crate::session::batch::ChipBatch;
use crate::session::batch::CombinedOffsets;
use crate::session::compiled::CompiledTargets;
use crate::session::compiled::TargetModel;
use crate::session::execute::compile_set_batch;
use crate::session::execute::narrow;
use crate::session::execute::set_batch;
use crate::session::state::SessionError;
use crate::session::state::SessionErrorModel;

verus! {

/// One compiled step of a sequence.
#[derive(Debug, PartialEq, Eq)]
pub struct PendingCompiledStep {
    /// Milliseconds from the start of the sequence to this step.
    pub accumulated_lag: u128,
    pub batch: CombinedOffsets<LineValue>,
}

/// A [`PendingCompiledStep`] in mathematical terms.
pub ghost struct StepModel {
    pub lag: nat,
    pub batch: Seq<ChipBatch<LineValue>>,
}

impl View for PendingCompiledStep {
    type V = StepModel;

    open spec fn view(&self) -> StepModel {
        StepModel { lag: self.accumulated_lag as nat, batch: self.batch@ }
    }
}

/// The compiled steps of a sequence.
#[derive(Debug, PartialEq, Eq)]
pub struct PendingCompiledSteps(pub Vec<PendingCompiledStep>);

/// The models of compiled steps.
pub open spec fn step_models(steps: Seq<PendingCompiledStep>) -> Seq<StepModel> {
    Seq::new(steps.len(), |i: int| steps[i]@)
}

impl View for PendingCompiledSteps {
    type V = Seq<StepModel>;

    open spec fn view(&self) -> Seq<StepModel> {
        step_models(self.0@)
    }
}

/// The lags of the first steps together.
pub open spec fn total_lag(steps: Seq<SetStepRequest>) -> nat
    decreases steps.len(),
{
    if steps.len() == 0 {
        0
    } else {
        total_lag(steps.drop_last()) + steps.last().lag as nat
    }
}

/// The compiled steps of a request, or why the first of them that cannot be compiled cannot.
/// Lags are relative to the previous step and add up.
pub open spec fn compiled_steps(
    targets: Map<Seq<char>, TargetModel>,
    steps: Seq<SetStepRequest>,
    chip_count: nat,
) -> Result<Seq<StepModel>, SessionErrorModel>
    decreases steps.len(),
{
    if steps.len() == 0 {
        Ok(Seq::empty())
    } else {
        match compiled_steps(targets, steps.drop_last(), chip_count) {
            Err(error) => Err(error),
            Ok(earlier) => match set_batch(
                targets,
                steps.last().target.names(),
                steps.last().target.values(),
                chip_count,
            ) {
                Err(error) => Err(error),
                Ok(batch) => Ok(earlier.push(StepModel { lag: total_lag(steps), batch })),
            },
        }
    }
}

proof fn lemma_steps_fault(
    targets: Map<Seq<char>, TargetModel>,
    steps: Seq<SetStepRequest>,
    chip_count: nat,
    count: int,
)
    requires
        0 <= count <= steps.len(),
        compiled_steps(targets, steps.take(count), chip_count) is Err,
    ensures
        compiled_steps(targets, steps, chip_count) == compiled_steps(
            targets,
            steps.take(count),
            chip_count,
        ),
    decreases steps.len(),
{
    if count == steps.len() {
        assert(steps.take(count) =~= steps);
    } else {
        assert(steps.drop_last().take(count) =~= steps.take(count));
        lemma_steps_fault(targets, steps.drop_last(), chip_count, count);
    }
}

proof fn lemma_total_lag_bound(steps: Seq<SetStepRequest>)
    ensures
        total_lag(steps) <= steps.len() * u32::MAX,
    decreases steps.len(),
{
    if steps.len() > 0 {
        lemma_total_lag_bound(steps.drop_last());
        assert((steps.len() - 1) * u32::MAX + u32::MAX == steps.len() * u32::MAX) by (nonlinear_arith);
    }
}

/// Compiled steps lie at the sums of the lags up to them, there are as many of them as steps
/// in the request, and later steps never lie before earlier ones.
pub proof fn compiled_steps_are_in_order(
    targets: Map<Seq<char>, TargetModel>,
    steps: Seq<SetStepRequest>,
    chip_count: nat,
)
    requires
        compiled_steps(targets, steps, chip_count) is Ok,
    ensures
        ({
            let compiled = compiled_steps(targets, steps, chip_count)->Ok_0;
            &&& compiled.len() == steps.len()
            &&& forall|i: int|
                0 <= i < steps.len() ==> (#[trigger] compiled[i]).lag == total_lag(
                    steps.take(i + 1),
                )
            &&& forall|i: int|
                0 <= i < steps.len() ==> set_batch(
                    targets,
                    (#[trigger] steps[i]).target.names(),
                    steps[i].target.values(),
                    chip_count,
                ) == Ok::<Seq<ChipBatch<LineValue>>, SessionErrorModel>(compiled[i].batch)
            &&& forall|i: int, j: int|
                0 <= i <= j < steps.len() ==> (#[trigger] compiled[i]).lag <= (
                #[trigger] compiled[j]).lag
        }),
    decreases steps.len(),
{
    if steps.len() > 0 {
        let front = steps.drop_last();
        compiled_steps_are_in_order(targets, front, chip_count);
        let earlier = compiled_steps(targets, front, chip_count)->Ok_0;
        let compiled = compiled_steps(targets, steps, chip_count)->Ok_0;
        assert(steps.take(steps.len() as int) =~= steps);
        assert forall|i: int| 0 <= i < steps.len() implies (#[trigger] compiled[i]).lag
            == total_lag(steps.take(i + 1)) by {
            if i < front.len() {
                assert(compiled[i] == earlier[i]);
                assert(front.take(i + 1) =~= steps.take(i + 1));
            }
        }
        assert forall|i: int| 0 <= i < steps.len() implies set_batch(
            targets,
            (#[trigger] steps[i]).target.names(),
            steps[i].target.values(),
            chip_count,
        ) == Ok::<Seq<ChipBatch<LineValue>>, SessionErrorModel>(compiled[i].batch) by {
            if i < front.len() {
                assert(front[i] == steps[i]);
                assert(compiled[i] == earlier[i]);
            }
        }
        assert forall|i: int, j: int| 0 <= i <= j < steps.len() implies (
        #[trigger] compiled[i]).lag <= (#[trigger] compiled[j]).lag by {
            if j < front.len() {
                assert(compiled[i] == earlier[i]);
                assert(compiled[j] == earlier[j]);
            } else if i < front.len() {
                assert(compiled[i] == earlier[i]);
                let k = front.len() - 1;
                assert(earlier[i].lag <= earlier[k].lag);
                assert(front.take(k + 1) =~= front);
            }
        }
    }
}

/// An unfinished sequence.
#[derive(Debug, PartialEq, Eq)]
pub struct PendingSetSequence {
    token: u64,
    request_id: String,
    sequence_started_at: u64,
    steps: Vec<PendingCompiledStep>,
    next_step_index: usize,
}

/// A [`PendingSetSequence`] in mathematical terms.
pub ghost struct SequenceModel {
    pub token: u64,
    pub request_id: Seq<char>,
    pub started_at: u64,
    pub steps: Seq<StepModel>,
    pub next: nat,
}

impl SequenceModel {
    /// Whether every step was applied.
    pub open spec fn complete(self) -> bool {
        self.next >= self.steps.len()
    }

    /// When the next step is due, in milliseconds.
    pub open spec fn deadline(self) -> Option<nat> {
        if self.complete() {
            None
        } else {
            Some(self.started_at as nat + self.steps[self.next as int].lag)
        }
    }

    /// The sequence behind its next step.
    pub open spec fn advanced(self) -> SequenceModel {
        if self.complete() {
            self
        } else {
            SequenceModel { next: self.next + 1, ..self }
        }
    }

    /// Lags stay far below what a deadline can hold.
    pub open spec fn wf(self) -> bool {
        &&& self.steps.len() > 0
        &&& self.next >= 1
        &&& forall|i: int|
            0 <= i < self.steps.len() ==> (#[trigger] self.steps[i]).lag <= u64::MAX * u32::MAX
    }
}

impl PendingSetSequence {
    /// The sequence in mathematical terms.
    pub closed spec fn view(&self) -> SequenceModel {
        SequenceModel {
            token: self.token,
            request_id: self.request_id@,
            started_at: self.sequence_started_at,
            steps: step_models(self.steps@),
            next: self.next_step_index as nat,
        }
    }

    /// Compiles every step before anything is written.
    pub fn compile_steps(
        compiled: &CompiledTargets,
        steps: &Vec<SetStepRequest>,
        chip_count: usize,
    ) -> (result: Result<PendingCompiledSteps, SessionError>)
        requires
            narrow(compiled.targets()),
        ensures
            if steps@.len() == 0 {
                result matches Err(error) && error@ == SessionErrorModel::Other(
                    "set target steps must contain at least one step"@,
                )
            } else {
                match (
                    result,
                    compiled_steps(compiled.targets(), steps@, chip_count as nat),
                ) {
                    (Ok(pending), Ok(expected)) => {
                        &&& pending@ == expected
                        &&& pending@.len() == steps@.len()
                        &&& forall|i: int|
                            0 <= i < pending@.len() ==> (#[trigger] pending@[i]).lag <= u64::MAX
                                * u32::MAX
                    },
                    (Err(error), Err(expected)) => error@ == expected,
                    _ => false,
                }
            },
    {
        if steps.len() == 0 {
            return Err(
                SessionError::Other("set target steps must contain at least one step".to_owned()),
            );
        }
        let ghost targets = compiled.targets();
        let mut pending: Vec<PendingCompiledStep> = Vec::new();
        let mut accumulated: u128 = 0;
        let mut index: usize = 0;
        assert(steps@.take(0) =~= Seq::<SetStepRequest>::empty());
        assert(step_models(pending@) =~= Seq::<StepModel>::empty());
        while index < steps.len()
            invariant
                index <= steps@.len(),
                targets == compiled.targets(),
                narrow(compiled.targets()),
                pending@.len() == index,
                accumulated == total_lag(steps@.take(index as int)),
                compiled_steps(targets, steps@.take(index as int), chip_count as nat) == Ok::<
                    Seq<StepModel>,
                    SessionErrorModel,
                >(step_models(pending@)),
                forall|i: int|
                    0 <= i < pending@.len() ==> (#[trigger] step_models(pending@)[i]).lag
                        <= u64::MAX * u32::MAX,
            decreases steps@.len() - index,
        {
            let ghost prefix = steps@.take(index + 1);
            proof {
                assert(prefix.drop_last() =~= steps@.take(index as int));
                assert(prefix.last() == steps@[index as int]);
                if compiled_steps(targets, prefix, chip_count as nat) is Err {
                    lemma_steps_fault(targets, steps@, chip_count as nat, index + 1);
                }
                lemma_total_lag_bound(prefix);
                assert(prefix.len() * u32::MAX <= u64::MAX * u32::MAX) by (nonlinear_arith)
                    requires
                        prefix.len() <= u64::MAX,
                ;
            }
            let batch = match compile_set_batch(compiled, &steps[index].target, chip_count) {
                Ok(batch) => batch,
                Err(error) => return Err(error),
            };
            accumulated = accumulated + steps[index].lag as u128;
            let ghost before = pending@;
            pending.push(PendingCompiledStep { accumulated_lag: accumulated, batch });
            proof {
                assert(step_models(pending@) =~= step_models(before).push(
                    StepModel { lag: total_lag(prefix), batch: batch@ },
                ));
                assert forall|i: int| 0 <= i < pending@.len() implies (
                #[trigger] step_models(pending@)[i]).lag <= u64::MAX * u32::MAX by {
                    if i < before.len() {
                        assert(step_models(pending@)[i] == step_models(before)[i]);
                    }
                }
            }
            index += 1;
        }
        assert(steps@.take(index as int) =~= steps@);
        Ok(PendingCompiledSteps(pending))
    }

    /// A sequence whose first step is about to be applied. Its deadline is that of the second.
    pub fn start(
        token: u64,
        request_id: String,
        steps: PendingCompiledSteps,
        sequence_started_at: u64,
    ) -> (sequence: Self)
        ensures
            sequence@ == (SequenceModel {
                token,
                request_id: request_id@,
                started_at: sequence_started_at,
                steps: steps@,
                next: 1,
            }),
    {
        PendingSetSequence {
            token,
            request_id,
            sequence_started_at,
            steps: steps.0,
            next_step_index: 1,
        }
    }

    /// The number of the sequence in its session.
    pub fn token(&self) -> (token: u64)
        ensures
            token == self@.token,
    {
        self.token
    }

    /// Whether a token is that of the sequence.
    pub fn matches_token(&self, token: u64) -> (matched: bool)
        ensures
            matched == (self@.token == token),
    {
        self.token == token
    }

    /// The identifier of the request.
    pub fn request_id(&self) -> (id: &str)
        ensures
            id@ == self@.request_id,
    {
        self.request_id.as_str()
    }

    /// The writes of the first step.
    pub fn first_batch(&self) -> (batch: &CombinedOffsets<LineValue>)
        requires
            self@.steps.len() > 0,
        ensures
            batch@ == self@.steps[0].batch,
    {
        &self.steps[0].batch
    }

    /// The writes of the next step, if there is one.
    pub fn batch(&self) -> (batch: Option<&CombinedOffsets<LineValue>>)
        ensures
            match batch {
                Some(found) => !self@.complete() && found@ == self@.steps[self@.next as int].batch,
                None => self@.complete(),
            },
    {
        if self.next_step_index < self.steps.len() {
            Some(&self.steps[self.next_step_index].batch)
        } else {
            None
        }
    }

    /// When the next step is due, in milliseconds.
    pub fn deadline(&self) -> (deadline: Option<u128>)
        requires
            self@.wf(),
        ensures
            match (deadline, self@.deadline()) {
                (Some(found), Some(expected)) => found == expected,
                (None, None) => true,
                _ => false,
            },
    {
        if self.next_step_index < self.steps.len() {
            let lag: u128 = self.steps[self.next_step_index].accumulated_lag;
            assert(self@.steps[self.next_step_index as int].lag == lag);
            Some(self.sequence_started_at as u128 + lag)
        } else {
            None
        }
    }

    /// Goes on behind the next step, once it was applied. Says whether steps are left.
    pub fn advance(&mut self) -> (more: bool)
        ensures
            final(self)@ == old(self)@.advanced(),
            more == !final(self)@.complete(),
    {
        if self.next_step_index >= self.steps.len() {
            return false;
        }
        self.next_step_index = self.next_step_index + 1;
        !self.is_complete()
    }

    /// Whether every step was applied.
    pub fn is_complete(&self) -> (complete: bool)
        ensures
            complete == self@.complete(),
    {
        self.next_step_index >= self.steps.len()
    }
}

} // verus!

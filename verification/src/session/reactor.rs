//! The state machine of a session: what each request, wake-up and closing does.
//!
//! Reading and writing lines happens outside. A request is planned here, carried out there,
//! and finished here with what came of it.

use vstd::prelude::*;
use vstd::std_specs::iter::IteratorSpec;

use crate::gpio::libgpiod::EdgeEventType;
use crate::gpio::libgpiod::LineValue;
use crate::gpio::mock::config::MockLineConfig;
use crate::gpio::mock::state::contains_offset;
use crate::gpio::traits::EdgeEvent;
use crate::gpio::traits::EdgeEventBuffer;
use crate::gpio::traits::EdgeModel;
use crate::names::NameMap;
use crate::protocol::request::SetRequest;
use crate::protocol::request::SetStepRequest;
use crate::protocol::request::TargetConfigRequest;
use crate::protocol::request::TargetSelector;
use crate::protocol::response::EventPayload;
use crate::protocol::response::EventType;
use crate::protocol::response::ResponseMessage;
use crate::protocol::response::ResponseModel;
use crate::session::batch::ChipBatch;
use crate::session::batch::CollectRule;
use crate::session::batch::CombinedOffsets;
use crate::session::execute::compile_get_batch;
use crate::session::execute::compile_set_batch;
use crate::session::execute::fold_get_results;
use crate::session::execute::get_batch;
use crate::session::execute::get_batch_has_places;
use crate::session::execute::name_models;
use crate::session::execute::packed;
use crate::session::execute::rules_fit;
use crate::session::execute::set_batch;
use crate::session::initialized::requested;
use crate::session::initialized::targets_planned;
use crate::session::initialized::valid_init;
use crate::session::initialized::InitializedSession;
use crate::session::initialized::SessionConfig;
use crate::session::sequence::compiled_steps;
use crate::session::sequence::PendingSetSequence;
use crate::session::sequence::SequenceModel;
use crate::session::sequence::StepModel;
use crate::session::state::SessionError;
use crate::session::state::SessionErrorModel;
use crate::session::state::SessionState;

verus! {

/// Most edge events that are taken from a chip at a time.
pub const EDGE_EVENTS_PER_READ: usize = 16;

/// One session: where it stands, its targets once it is initialized, and the sequence that is
/// running.
pub struct SessionReactor {
    pub session_id: u64,
    pub state: SessionState,
    pub initialized: Option<InitializedSession>,
    pub pending_set: Option<PendingSetSequence>,
    pub next_sequence_token: u64,
}

/// What to do for an `init`.
pub enum InitStep {
    /// Reply at once.
    Reply(ResponseMessage),
    /// Open these devices in order and request these lines of each.
    Open { session: InitializedSession, devices: Vec<(String, MockLineConfig)> },
}

/// What to do for a `get`.
pub enum GetStep {
    /// Reply at once.
    Reply(ResponseMessage),
    /// Read these lines.
    Read(CombinedOffsets<CollectRule>),
}

/// What to do for a `set`.
pub enum SetStep {
    /// Reply at once.
    Reply(ResponseMessage),
    /// Write these lines.
    Write(CombinedOffsets<LineValue>),
    /// Write the first step of this sequence.
    Start(PendingSetSequence),
}

/// A failure as a reply.
pub open spec fn failure(id: Seq<char>, error: SessionErrorModel) -> (Seq<char>, ResponseModel) {
    (id, ResponseModel::Error(error.text()))
}

/// Success as a reply.
pub open spec fn success(id: Seq<char>) -> (Seq<char>, ResponseModel) {
    (id, ResponseModel::Done)
}

/// A reply to a request of which only the failure matters.
pub open spec fn outcome_reply(id: Seq<char>, outcome: Result<(), SessionError>) -> (
    Seq<char>,
    ResponseModel,
) {
    match outcome {
        Ok(_) => success(id),
        Err(error) => failure(id, error@),
    }
}

impl SessionReactor {
    /// What every session satisfies: it has targets exactly while it is initialized, and a
    /// sequence exactly while one is running, with steps left.
    pub open spec fn wf(&self) -> bool {
        &&& match self.state {
            SessionState::Initialized => self.initialized is Some && self.pending_set is None,
            SessionState::SetSequenceRunning => self.initialized is Some && self.pending_set is Some,
            _ => self.initialized is None && self.pending_set is None,
        }
        &&& self.initialized matches Some(session) ==> session.wf()
        &&& self.pending_set matches Some(pending) ==> pending@.wf() && !pending@.complete()
    }

    /// Why the session takes no reads and writes, if it takes none.
    pub open spec fn not_ready(&self) -> Option<SessionErrorModel> {
        match self.state {
            SessionState::Initialized | SessionState::SetSequenceRunning => None,
            SessionState::Connected => Some(SessionErrorModel::NotInitialized),
            SessionState::Closing | SessionState::Closed => Some(SessionErrorModel::Closed),
        }
    }

    /// A session of a client that just connected.
    pub fn new(session_id: u64) -> (reactor: Self)
        ensures
            reactor.wf(),
            reactor.session_id == session_id,
            reactor.state == SessionState::Connected,
            reactor.next_sequence_token == 1,
    {
        SessionReactor {
            session_id,
            state: SessionState::Connected,
            initialized: None,
            pending_set: None,
            next_sequence_token: 1,
        }
    }

    fn require_initialized(&self) -> (result: Result<(), SessionError>)
        ensures
            match result {
                Ok(_) => self.not_ready() is None,
                Err(error) => self.not_ready() == Some(error@),
            },
    {
        match self.state {
            SessionState::Initialized => Ok(()),
            SessionState::SetSequenceRunning => Ok(()),
            SessionState::Connected => Err(SessionError::NotInitialized),
            SessionState::Closing => Err(SessionError::Closed),
            SessionState::Closed => Err(SessionError::Closed),
        }
    }

    // -----------------------------------------------------------------------
    // init
    // -----------------------------------------------------------------------

    /// Plans an `init`: only a session that just connected takes one.
    pub fn plan_init<C: SessionConfig>(
        &self,
        request_id: &str,
        target: &NameMap<TargetConfigRequest>,
        config: &C,
    ) -> (step: InitStep)
        requires
            valid_init(*target),
        ensures
            match self.state {
                SessionState::Connected => match (
                    step,
                    targets_planned(config.table(), target.names(), target.values()),
                ) {
                    (InitStep::Open { session, devices }, Ok(plan)) => {
                        &&& session.init_request_id@ == request_id@
                        &&& session.follows(plan)
                        &&& session.wf()
                        &&& devices@.len() == plan.devices.len()
                        &&& devices@.len() == plan.requests.len()
                        &&& forall|i: int|
                            0 <= i < devices@.len() ==> {
                                &&& (#[trigger] devices@[i]).0@ == plan.devices[i]
                                &&& requested(devices@[i].1) == plan.requests[i]
                                &&& devices@[i].1.wf()
                                &&& devices@[i].1.overrides() is None
                            }
                    },
                    (InitStep::Reply(response), Err(error)) => response@ == failure(
                        request_id@,
                        error,
                    ),
                    _ => false,
                },
                SessionState::Initialized | SessionState::SetSequenceRunning => step matches InitStep::Reply(
                    response,
                ) && response@ == failure(request_id@, SessionErrorModel::AlreadyInitialized),
                SessionState::Closing | SessionState::Closed => step matches InitStep::Reply(
                    response,
                ) && response@ == failure(request_id@, SessionErrorModel::Closed),
            },
    {
        match self.state {
            SessionState::Connected => {
                match InitializedSession::initialize(request_id.to_owned(), target, config) {
                    Ok((session, devices)) => InitStep::Open { session, devices },
                    Err(error) => InitStep::Reply(error.into_response(request_id)),
                }
            },
            SessionState::Initialized => InitStep::Reply(
                SessionError::AlreadyInitialized.into_response(request_id),
            ),
            SessionState::SetSequenceRunning => InitStep::Reply(
                SessionError::AlreadyInitialized.into_response(request_id),
            ),
            SessionState::Closing => InitStep::Reply(SessionError::Closed.into_response(request_id)),
            SessionState::Closed => InitStep::Reply(SessionError::Closed.into_response(request_id)),
        }
    }

    /// Finishes an `init` once the devices were opened, or one of them was not.
    pub fn finish_init(
        &mut self,
        session: InitializedSession,
        outcome: Result<(), SessionError>,
    ) -> (response: ResponseMessage)
        requires
            old(self).wf(),
            old(self).state == SessionState::Connected,
            session.wf(),
        ensures
            final(self).wf(),
            response@ == outcome_reply(session.init_request_id@, outcome),
            final(self).session_id == old(self).session_id,
            final(self).next_sequence_token == old(self).next_sequence_token,
            match outcome {
                Ok(_) => final(self).state == SessionState::Initialized
                    && final(self).initialized == Some(session),
                Err(_) => *final(self) == *old(self),
            },
    {
        match outcome {
            Ok(_) => {
                let response = ResponseMessage::ok(session.init_request_id.as_str());
                self.initialized = Some(session);
                self.state = SessionState::Initialized;
                response
            },
            Err(error) => error.into_response(session.init_request_id.as_str()),
        }
    }

    // -----------------------------------------------------------------------
    // get
    // -----------------------------------------------------------------------

    /// Plans a `get`. Reading is allowed while a sequence is running.
    pub fn plan_get(&self, request_id: &str, target: &TargetSelector) -> (step: GetStep)
        requires
            self.wf(),
        ensures
            match self.not_ready() {
                Some(error) => step matches GetStep::Reply(response) && response@ == failure(
                    request_id@,
                    error,
                ),
                None => {
                    let session = self.initialized->Some_0;
                    match (step, get_batch(session.targets(), target@, session.chips as nat)) {
                        (GetStep::Read(batch), Ok(expected)) => batch@ == expected && rules_fit(
                            batch@,
                            target@.len(),
                        ),
                        (GetStep::Reply(response), Err(error)) => response@ == failure(
                            request_id@,
                            error,
                        ),
                        _ => false,
                    }
                },
            },
    {
        match self.require_initialized() {
            Ok(_) => {},
            Err(error) => return GetStep::Reply(error.into_response(request_id)),
        }
        let session = match &self.initialized {
            Some(session) => session,
            None => {
                return GetStep::Reply(SessionError::NotInitialized.into_response(request_id));
            },
        };
        let names = target.as_slice();
        proof {
            assert(name_models(names@) =~= target@);
            if get_batch(session.targets(), target@, session.chips as nat) is Ok {
                get_batch_has_places(session.targets(), target@, session.chips as nat);
            }
        }
        match compile_get_batch(&session.compiled_targets, &names, session.chip_count()) {
            Ok(batch) => GetStep::Read(batch),
            Err(error) => GetStep::Reply(error.into_response(request_id)),
        }
    }
}

/// The reply to a `get` whose lines were read.
pub open spec fn read_reply(
    id: Seq<char>,
    target: TargetSelector,
    readings: Seq<(CollectRule, LineValue)>,
) -> (Seq<char>, ResponseModel) {
    match target {
        TargetSelector::Single(_) => (id, ResponseModel::Value(packed(readings, None))),
        TargetSelector::Multiple(_) => (
            id,
            ResponseModel::Values(
                Seq::new(target@.len(), |slot: int| packed(readings, Some(slot as usize))),
            ),
        ),
    }
}

/// Whether readings go to bits and targets that there are.
pub open spec fn readings_fit(
    target: TargetSelector,
    readings: Seq<(CollectRule, LineValue)>,
) -> bool {
    forall|i: int|
        0 <= i < readings.len() ==> (#[trigger] readings[i]).0.bit_index < 8
            && readings[i].0.target_slot < target@.len()
}

/// Finishes a `get` once its lines were read, or one of them was not.
pub fn finish_get(
    request_id: &str,
    target: &TargetSelector,
    outcome: Result<Vec<(CollectRule, LineValue)>, SessionError>,
) -> (response: ResponseMessage)
    requires
        outcome matches Ok(readings) ==> readings_fit(*target, readings@),
    ensures
        response@ == (match outcome {
            Ok(readings) => read_reply(request_id@, *target, readings@),
            Err(error) => failure(request_id@, error@),
        }),
{
    match outcome {
        Ok(readings) => {
            let payload = fold_get_results(target, readings.as_slice());
            ResponseMessage::pin_value(request_id, payload)
        },
        Err(error) => error.into_response(request_id),
    }
}

/// The compiled steps of a `set`, of which there must be at least one.
pub open spec fn planned_steps(session: InitializedSession, steps: Seq<SetStepRequest>) -> Result<
    Seq<StepModel>,
    SessionErrorModel,
> {
    if steps.len() == 0 {
        Err(SessionErrorModel::Other("set target steps must contain at least one step"@))
    } else {
        compiled_steps(session.targets(), steps, session.chips as nat)
    }
}

impl SessionReactor {
    // -----------------------------------------------------------------------
    // set
    // -----------------------------------------------------------------------

    /// Plans a `set`. All of it is compiled before anything is written. A session takes no
    /// second `set` while a sequence is running.
    pub fn plan_set(&mut self, request_id: &str, request: &SetRequest, now_ms: u64) -> (step:
        SetStep)
        requires
            old(self).wf(),
        ensures
            final(self).wf(),
            final(self).session_id == old(self).session_id,
            final(self).state == old(self).state,
            final(self).initialized == old(self).initialized,
            final(self).pending_set == old(self).pending_set,
            final(self).next_sequence_token == if step is Start {
                old(self).next_sequence_token.wrapping_add(1)
            } else {
                old(self).next_sequence_token
            },
            match old(self).not_ready() {
                Some(error) => step matches SetStep::Reply(response) && response@ == failure(
                    request_id@,
                    error,
                ),
                None => if old(self).state == SessionState::SetSequenceRunning {
                    step matches SetStep::Reply(response) && response@ == failure(
                        request_id@,
                        SessionErrorModel::SetInProgress,
                    )
                } else {
                    let session = old(self).initialized->Some_0;
                    match *request {
                        SetRequest::Immediate(target) => match (
                            step,
                            set_batch(
                                session.targets(),
                                target.names(),
                                target.values(),
                                session.chips as nat,
                            ),
                        ) {
                            (SetStep::Write(batch), Ok(expected)) => batch@ == expected,
                            (SetStep::Reply(response), Err(error)) => response@ == failure(
                                request_id@,
                                error,
                            ),
                            _ => false,
                        },
                        SetRequest::Steps(steps) => match (
                            step,
                            planned_steps(session, steps@),
                        ) {
                            (SetStep::Start(pending), Ok(compiled)) => {
                                &&& pending@ == (SequenceModel {
                                    token: old(self).next_sequence_token,
                                    request_id: request_id@,
                                    started_at: now_ms,
                                    steps: compiled,
                                    next: 1,
                                })
                                &&& pending@.wf()
                            },
                            (SetStep::Reply(response), Err(error)) => response@ == failure(
                                request_id@,
                                error,
                            ),
                            _ => false,
                        },
                    }
                },
            },
    {
        match self.require_initialized() {
            Ok(_) => {},
            Err(error) => return SetStep::Reply(error.into_response(request_id)),
        }
        if self.state == SessionState::SetSequenceRunning || self.pending_set.is_some() {
            return SetStep::Reply(SessionError::SetInProgress.into_response(request_id));
        }
        let session = match &self.initialized {
            Some(session) => session,
            None => {
                return SetStep::Reply(SessionError::NotInitialized.into_response(request_id));
            },
        };
        match request {
            SetRequest::Immediate(target) => match compile_set_batch(
                &session.compiled_targets,
                target,
                session.chip_count(),
            ) {
                Ok(batch) => SetStep::Write(batch),
                Err(error) => SetStep::Reply(error.into_response(request_id)),
            },
            SetRequest::Steps(steps) => match PendingSetSequence::compile_steps(
                &session.compiled_targets,
                steps,
                session.chip_count(),
            ) {
                Ok(compiled) => {
                    let token: u64 = self.next_sequence_token;
                    self.next_sequence_token = self.next_sequence_token.wrapping_add(1);
                    SetStep::Start(
                        PendingSetSequence::start(token, request_id.to_owned(), compiled, now_ms),
                    )
                },
                Err(error) => SetStep::Reply(error.into_response(request_id)),
            },
        }
    }

    /// Finishes a `set` in one step once its lines were written, or one of them was not.
    pub fn finish_set(request_id: &str, outcome: Result<(), SessionError>) -> (response:
        ResponseMessage)
        ensures
            response@ == outcome_reply(request_id@, outcome),
    {
        match outcome {
            Ok(_) => ResponseMessage::ok(request_id),
            Err(error) => error.into_response(request_id),
        }
    }

    /// Goes on with a sequence once its first step was written, or was not. The reply to a
    /// sequence with steps left comes with its last step.
    pub fn start_sequence(
        &mut self,
        pending: PendingSetSequence,
        outcome: Result<(), SessionError>,
    ) -> (response: Option<ResponseMessage>)
        requires
            old(self).wf(),
            old(self).state == SessionState::Initialized,
            pending@.wf(),
        ensures
            final(self).wf(),
            final(self).session_id == old(self).session_id,
            final(self).initialized == old(self).initialized,
            final(self).next_sequence_token == old(self).next_sequence_token,
            if outcome is Err || pending@.complete() {
                &&& response matches Some(reply) && reply@ == outcome_reply(
                    pending@.request_id,
                    outcome,
                )
                &&& *final(self) == *old(self)
            } else {
                &&& response is None
                &&& final(self).state == SessionState::SetSequenceRunning
                &&& final(self).pending_set == Some(pending)
            },
    {
        match outcome {
            Err(error) => Some(error.into_response(pending.request_id())),
            Ok(_) => {
                if pending.is_complete() {
                    Some(ResponseMessage::ok(pending.request_id()))
                } else {
                    self.pending_set = Some(pending);
                    self.state = SessionState::SetSequenceRunning;
                    None
                }
            },
        }
    }

    /// When the running sequence is due next, in milliseconds, and its token.
    pub fn next_wake(&self) -> (wake: Option<(u128, u64)>)
        requires
            self.wf(),
        ensures
            match (wake, self.pending_set) {
                (Some((deadline, token)), Some(pending)) => {
                    &&& pending@.deadline() == Some(deadline as nat)
                    &&& token == pending@.token
                },
                (None, None) => true,
                _ => false,
            },
    {
        match &self.pending_set {
            Some(pending) => {
                let deadline = pending.deadline();
                match deadline {
                    Some(deadline) => Some((deadline, pending.token())),
                    None => None,
                }
            },
            None => None,
        }
    }

    /// The session without its sequence.
    pub open spec fn without_sequence(&self) -> SessionReactor {
        SessionReactor {
            pending_set: None,
            state: if self.state == SessionState::SetSequenceRunning {
                SessionState::Initialized
            } else {
                self.state
            },
            ..*self
        }
    }

    fn clear_sequence(&mut self)
        ensures
            *final(self) == old(self).without_sequence(),
    {
        self.pending_set = None;
        if self.state == SessionState::SetSequenceRunning {
            self.state = SessionState::Initialized;
        }
    }

    /// Whether a token is that of the running sequence.
    pub open spec fn awaits(&self, token: u64) -> bool {
        self.pending_set matches Some(pending) && pending@.token == token
    }

    /// The writes of the step that is due. A wake-up for another sequence is ignored.
    pub fn due_batch(&self, token: u64) -> (batch: Option<&CombinedOffsets<LineValue>>)
        requires
            self.wf(),
        ensures
            match batch {
                Some(found) => {
                    let pending = self.pending_set->Some_0;
                    &&& self.awaits(token)
                    &&& found@ == pending@.steps[pending@.next as int].batch
                },
                None => !self.awaits(token),
            },
    {
        match &self.pending_set {
            Some(pending) => {
                if pending.matches_token(token) {
                    pending.batch()
                } else {
                    None
                }
            },
            None => None,
        }
    }

    /// Goes on with a sequence once the step that was due was written, or was not. A failure
    /// and the last step end the sequence and are replied to.
    pub fn finish_wake(&mut self, token: u64, outcome: Result<(), SessionError>) -> (response:
        Option<ResponseMessage>)
        requires
            old(self).wf(),
        ensures
            final(self).wf(),
            if !old(self).awaits(token) {
                response is None && *final(self) == *old(self)
            } else {
                let pending = old(self).pending_set->Some_0@;
                if outcome is Err || pending.advanced().complete() {
                    &&& response matches Some(reply) && reply@ == outcome_reply(
                        pending.request_id,
                        outcome,
                    )
                    &&& *final(self) == old(self).without_sequence()
                } else {
                    &&& response is None
                    &&& final(self).pending_set matches Some(after) && after@ == pending.advanced()
                    &&& final(self).state == old(self).state
                    &&& final(self).initialized == old(self).initialized
                    &&& final(self).session_id == old(self).session_id
                    &&& final(self).next_sequence_token == old(self).next_sequence_token
                }
            },
    {
        let mut pending = match self.pending_set.take() {
            Some(pending) => pending,
            None => return None,
        };
        if !pending.matches_token(token) {
            self.pending_set = Some(pending);
            return None;
        }
        match outcome {
            Err(error) => {
                self.clear_sequence();
                Some(error.into_response(pending.request_id()))
            },
            Ok(_) => {
                if pending.advance() {
                    self.pending_set = Some(pending);
                    None
                } else {
                    self.clear_sequence();
                    Some(ResponseMessage::ok(pending.request_id()))
                }
            },
        }
    }

    // -----------------------------------------------------------------------
    // Closing
    // -----------------------------------------------------------------------

    /// The values that closing leaves on the lines, where the session has any.
    pub open spec fn final_writes(&self) -> Option<Seq<ChipBatch<LineValue>>> {
        match self.initialized {
            Some(session) => if session.finals.names().len() == 0 {
                None
            } else {
                match set_batch(
                    session.targets(),
                    session.finals.names(),
                    session.finals.values(),
                    session.chips as nat,
                ) {
                    Ok(batch) => Some(batch),
                    Err(_) => None,
                }
            },
            None => None,
        }
    }

    /// Begins to close: a running sequence is dropped without a reply, and so are the targets.
    /// The result is what to write before the lines are let go.
    pub fn begin_close(&mut self) -> (batch: Option<CombinedOffsets<LineValue>>)
        requires
            old(self).wf(),
        ensures
            final(self).wf(),
            final(self).state == SessionState::Closing,
            final(self).initialized is None,
            final(self).pending_set is None,
            final(self).session_id == old(self).session_id,
            final(self).next_sequence_token == old(self).next_sequence_token,
            match (batch, old(self).final_writes()) {
                (Some(found), Some(expected)) => found@ == expected,
                (None, None) => true,
                _ => false,
            },
    {
        let batch = match self.initialized.take() {
            Some(session) => {
                if session.finals.is_empty() {
                    None
                } else {
                    match compile_set_batch(
                        &session.compiled_targets,
                        &session.finals,
                        session.chip_count(),
                    ) {
                        Ok(batch) => Some(batch),
                        Err(_) => None,
                    }
                }
            },
            None => None,
        };
        self.state = SessionState::Closing;
        self.clear_sequence();
        batch
    }

    /// Ends the session.
    pub fn close(&mut self)
        requires
            old(self).wf(),
            old(self).state == SessionState::Closing,
        ensures
            final(self).wf(),
            *final(self) == (SessionReactor { state: SessionState::Closed, ..*old(self) }),
    {
        self.state = SessionState::Closed;
    }
}

// ---------------------------------------------------------------------------
// Edge events
// ---------------------------------------------------------------------------

/// The kind of an edge in a response.
pub open spec fn event_kind(event_type: EdgeEventType) -> EventType {
    match event_type {
        EdgeEventType::RisingEdge => EventType::Rising,
        EdgeEventType::FallingEdge => EventType::Falling,
    }
}

/// The responses to edges of a chip: one for each edge on the line of a trigger target, in
/// order, under the identifier of the `init` request. Edges of other lines are passed over.
pub open spec fn edge_events(
    id: Seq<char>,
    triggers: Map<(u32, u32), Seq<char>>,
    chip_index: u32,
    records: Seq<EdgeModel>,
) -> Seq<(Seq<char>, ResponseModel)>
    decreases records.len(),
{
    if records.len() == 0 {
        Seq::empty()
    } else {
        let earlier = edge_events(id, triggers, chip_index, records.drop_last());
        let record = records.last();
        let pin = (chip_index, record.line_offset);
        if triggers.contains_key(pin) {
            earlier.push(
                (id, ResponseModel::Event(triggers[pin], event_kind(record.event_type))),
            )
        } else {
            earlier
        }
    }
}

/// The models of responses.
pub open spec fn response_models(responses: Seq<ResponseMessage>) -> Seq<
    (Seq<char>, ResponseModel),
> {
    Seq::new(responses.len(), |i: int| responses[i]@)
}

impl SessionReactor {
    /// The responses to the first `count` edges in a buffer.
    pub fn edge_responses<B: EdgeEventBuffer>(
        &self,
        chip_index: u32,
        buffer: &B,
        count: usize,
    ) -> (responses: Vec<ResponseMessage>)
        requires
            count <= buffer.records().len(),
        ensures
            response_models(responses@) == (match self.initialized {
                Some(session) => edge_events(
                    session.init_request_id@,
                    session.compiled_targets.triggers(),
                    chip_index,
                    buffer.records().take(count as int),
                ),
                None => Seq::empty(),
            }),
    {
        let mut responses: Vec<ResponseMessage> = Vec::new();
        assert(response_models(responses@) =~= Seq::<(Seq<char>, ResponseModel)>::empty());
        let session = match &self.initialized {
            Some(session) => session,
            None => return responses,
        };
        let ghost id = session.init_request_id@;
        let ghost triggers = session.compiled_targets.triggers();
        let ghost records = buffer.records();
        let mut index: usize = 0;
        assert(records.take(0) =~= Seq::<EdgeModel>::empty());
        while index < count
            invariant
                index <= count,
                count <= records.len(),
                records == buffer.records(),
                id == session.init_request_id@,
                triggers == session.compiled_targets.triggers(),
                response_models(responses@) == edge_events(
                    id,
                    triggers,
                    chip_index,
                    records.take(index as int),
                ),
            decreases count - index,
        {
            let ghost prefix = records.take(index + 1);
            assert(prefix.drop_last() =~= records.take(index as int));
            let ghost before = responses@;
            match buffer.get_event(index) {
                Ok(event) => {
                    let offset: u32 = event.get_line_offset();
                    let event_type = event.get_event_type();
                    if let Some(target) = session.compiled_targets.trigger_target_name(
                        chip_index,
                        offset,
                    ) {
                        let kind = match event_type {
                            EdgeEventType::RisingEdge => EventType::Rising,
                            EdgeEventType::FallingEdge => EventType::Falling,
                        };
                        let event = EventPayload { target: target.to_owned(), kind };
                        let response = ResponseMessage::event(
                            session.init_request_id.as_str(),
                            event,
                        );
                        responses.push(response);
                        assert(response_models(responses@) =~= response_models(before).push(
                            response@,
                        ));
                    }
                },
                Err(_) => {
                    assert(false);
                },
            }
            index += 1;
        }
        responses
    }

    /// The chips with trigger targets, each once.
    pub fn trigger_chips(&self) -> (chips: Vec<u32>)
        ensures
            chips@.no_duplicates(),
            forall|chip: u32| #[trigger]
                chips@.contains(chip) <==> (self.initialized matches Some(session) && exists|
                    offset: u32,
                |
                    session.compiled_targets.triggers().contains_key((chip, offset))),
    {
        let mut chips: Vec<u32> = Vec::new();
        let session = match &self.initialized {
            Some(session) => session,
            None => return chips,
        };
        let ghost triggers = session.compiled_targets.triggers();
        let keys = session.compiled_targets.trigger_by_pin.keys();
        let ghost all = keys.remaining();
        for key in iter: keys
            invariant
                iter.seq() == all,
                chips@.no_duplicates(),
                forall|chip: u32| #[trigger]
                    chips@.contains(chip) <==> exists|i: int|
                        0 <= i < iter.index() && (#[trigger] all[i]).0 == chip,
        {
            let ghost before = chips@;
            let chip: u32 = key.0;
            if !contains_offset(&chips, chip) {
                chips.push(chip);
            }
            proof {
                let at = iter.index();
                assert(all[at] == key);
                assert forall|other: u32| #[trigger]
                    chips@.contains(other) <==> exists|i: int|
                        0 <= i < at + 1 && (#[trigger] all[i]).0 == other by {
                    if before.contains(other) {
                        let i = choose|i: int| 0 <= i < at && (#[trigger] all[i]).0 == other;
                        assert(all[i].0 == other);
                        let k = choose|k: int| 0 <= k < before.len() && before[k] == other;
                        assert(chips@[k] == other);
                    }
                    if chips@.contains(other) && !before.contains(other) {
                        assert(other == chip);
                        assert(all[at].0 == other);
                    }
                    if exists|i: int| 0 <= i < at + 1 && (#[trigger] all[i]).0 == other {
                        let i = choose|i: int| 0 <= i < at + 1 && (#[trigger] all[i]).0 == other;
                        if i < at {
                            assert(before.contains(other));
                        } else if !before.contains(other) {
                            assert(chips@[before.len() as int] == other);
                        }
                    }
                }
            }
        }
        proof {
            assert forall|chip: u32| #[trigger]
                chips@.contains(chip) <==> exists|offset: u32|
                    triggers.contains_key((chip, offset)) by {
                if chips@.contains(chip) {
                    let i = choose|i: int| 0 <= i < all.len() && (#[trigger] all[i]).0 == chip;
                    assert(all.unref().to_set().contains(all.unref()[i]));
                    assert(triggers.contains_key((chip, all[i].1)));
                }
                if exists|offset: u32| triggers.contains_key((chip, offset)) {
                    let offset = choose|offset: u32| triggers.contains_key((chip, offset));
                    assert(all.unref().to_set().contains((chip, offset)));
                    let i = choose|i: int|
                        0 <= i < all.unref().len() && all.unref()[i] == (chip, offset);
                    assert(all[i].0 == chip);
                }
            }
        }
        chips
    }
}

} // verus!

use gpiojsonsvc::config::GPIODPinSpec;
use gpiojsonsvc::gpio::mock::document::parse_chip_xml;
use gpiojsonsvc::gpio::mock::events::MockEdgeEventBuffer;
use gpiojsonsvc::gpio::mock::request::MockLineRequest;
use gpiojsonsvc::gpio::mock::snapshot::LineLevel;
use gpiojsonsvc::gpio::mock::state::open_chip_state;
use gpiojsonsvc::gpio::mock::state::MockChipState;
use gpiojsonsvc::gpio::mock::watch::apply_external_file_diff;
use gpiojsonsvc::names::NameMap;
use gpiojsonsvc::protocol::request::EdgeMode;
use gpiojsonsvc::protocol::request::PinSelector;
use gpiojsonsvc::protocol::request::SetRequest;
use gpiojsonsvc::protocol::request::SetStepRequest;
use gpiojsonsvc::protocol::request::TargetConfigRequest;
use gpiojsonsvc::protocol::request::TargetSelector;
use gpiojsonsvc::protocol::response::EventType;
use gpiojsonsvc::protocol::response::PinValuePayload;
use gpiojsonsvc::protocol::response::ResponseMessage;
use gpiojsonsvc::protocol::response::ResponseStatus;
use gpiojsonsvc::session::apply::apply_get_batch;
use gpiojsonsvc::session::apply::SessionChip;
use gpiojsonsvc::session::batch::CombinedOffsets;
use gpiojsonsvc::session::initialized::map_request_lines_error;
use gpiojsonsvc::session::reactor::finish_get;
use gpiojsonsvc::session::reactor::GetStep;
use gpiojsonsvc::session::reactor::InitStep;
use gpiojsonsvc::session::reactor::SessionReactor;
use gpiojsonsvc::session::reactor::SetStep;
use gpiojsonsvc::session::state::SessionError;
use gpiojsonsvc::session::state::SessionState;

const PATH: &str = "/tmp/gpiochip0.xml";

const SAMPLE_XML: &str = r#"<gpiochip id="gpiochip0" label="mock gpiochip0">
    <line id="0" name="line0" direction="input" bias="pull_up">L</line>
    <line id="1" name="line1" direction="input" bias="pull_down">H</line>
    <line id="2" name="line2" direction="output" drive="push_pull">L</line>
    <line id="3" name="line3" direction="output" drive="push_pull">H</line>
</gpiochip>"#;

fn line0_xml(level: &str) -> String {
    SAMPLE_XML.replacen(">L<", &format!(">{level}<"), 1)
}

/// A session over a chip in memory.
struct Driver {
    reactor: SessionReactor,
    pins: NameMap<GPIODPinSpec>,
    chips: Vec<(MockChipState, MockLineRequest)>,
    dumps: Vec<String>,
}

impl Driver {
    fn new() -> Self {
        let spec = |line| GPIODPinSpec {
            device: PATH.to_owned(),
            line,
        };
        Driver {
            reactor: SessionReactor::new(1),
            pins: NameMap::new()
                .with("gpiochip0:0".to_owned(), spec(0))
                .with("gpiochip0:2".to_owned(), spec(2))
                .with("gpiochip0:9".to_owned(), spec(9)),
            chips: Vec::new(),
            dumps: Vec::new(),
        }
    }

    fn open(&mut self, device: &str, step: &InitStep) -> Result<(), SessionError> {
        let InitStep::Open { devices, .. } = step else {
            panic!("nothing to open");
        };
        for (path, config) in devices {
            assert_eq!(path, device);
            let snapshot = parse_chip_xml(SAMPLE_XML).expect("chip");
            let mut state = open_chip_state(path, snapshot);
            let (registration, _) = state
                .request_lines(None, config)
                .map_err(|error| map_request_lines_error(path, error))?;
            let request = state.register_request(registration);
            self.chips.push((state, request));
        }
        Ok(())
    }

    fn init(&mut self, id: &str, targets: &NameMap<TargetConfigRequest>) -> ResponseMessage {
        let step = self.reactor.plan_init(id, targets, &self.pins);
        if let InitStep::Reply(response) = step {
            return response;
        }
        let outcome = self.open(PATH, &step);
        match step {
            InitStep::Open { session, .. } => self.reactor.finish_init(session, outcome),
            InitStep::Reply(response) => response,
        }
    }

    fn get(&self, id: &str, target: &str) -> ResponseMessage {
        let target = TargetSelector::single(target.to_owned()).expect("target");
        match self.reactor.plan_get(id, &target) {
            GetStep::Reply(response) => response,
            GetStep::Read(batch) => {
                let views = self
                    .chips
                    .iter()
                    .map(|(state, request)| SessionChip { state, request })
                    .collect();
                finish_get(id, &target, apply_get_batch(&views, &batch))
            }
        }
    }

    fn apply(
        &mut self,
        batch: &CombinedOffsets<gpiojsonsvc::gpio::libgpiod::LineValue>,
    ) -> Result<(), SessionError> {
        for (chip_index, offsets, values) in batch.iter() {
            let (state, request) = &mut self.chips[chip_index as usize];
            let xml = request.set_values_subset(state, offsets, values)?;
            self.dumps.push(xml);
        }
        Ok(())
    }

    fn set(&mut self, id: &str, request: &SetRequest, now_ms: u64) -> Option<ResponseMessage> {
        match self.reactor.plan_set(id, request, now_ms) {
            SetStep::Reply(response) => Some(response),
            SetStep::Write(batch) => {
                let outcome = self.apply(&batch);
                Some(SessionReactor::finish_set(id, outcome))
            }
            SetStep::Start(pending) => {
                let outcome = self.apply(pending.first_batch());
                self.reactor.start_sequence(pending, outcome)
            }
        }
    }

    fn wake(&mut self, token: u64) -> Option<ResponseMessage> {
        let outcome = match self.reactor.due_batch(token) {
            Some(batch) => {
                let mut outcome = Ok(());
                for (chip_index, offsets, values) in batch.iter() {
                    let (state, request) = &mut self.chips[chip_index as usize];
                    match request.set_values_subset(state, offsets, values) {
                        Ok(xml) => self.dumps.push(xml),
                        Err(error) => outcome = Err(SessionError::GPIO(error)),
                    }
                }
                outcome
            }
            None => Ok(()),
        };
        self.reactor.finish_wake(token, outcome)
    }

    fn out_level(&self) -> LineLevel {
        self.chips[0].0.snapshot.lines[&2].persisted_level
    }
}

fn input_target(pin: &str) -> TargetConfigRequest {
    TargetConfigRequest::Input {
        pin: PinSelector::single(pin.to_owned()).expect("pin"),
        bias: None,
    }
}

fn output_target(final_value: Option<u8>) -> TargetConfigRequest {
    TargetConfigRequest::Output {
        pin: PinSelector::single("gpiochip0:2".to_owned()).expect("pin"),
        drive: None,
        initial: None,
        final_value,
    }
}

fn sample_init_targets() -> NameMap<TargetConfigRequest> {
    NameMap::new()
        .with("IN".to_owned(), input_target("gpiochip0:0"))
        .with("OUT".to_owned(), output_target(None))
}

fn trigger_init_targets() -> NameMap<TargetConfigRequest> {
    NameMap::new()
        .with(
            "TRIG".to_owned(),
            TargetConfigRequest::Trigger {
                pin: "gpiochip0:0".to_owned(),
                edge: EdgeMode::Both,
            },
        )
        .with("OUT".to_owned(), output_target(None))
}

fn immediate(value: u8) -> SetRequest {
    SetRequest::immediate(NameMap::new().with("OUT".to_owned(), value)).expect("set")
}

fn steps(values: &[(u32, u8)]) -> SetRequest {
    let steps = values
        .iter()
        .map(|(lag, value)| {
            SetStepRequest::new(*lag, NameMap::new().with("OUT".to_owned(), *value)).expect("step")
        })
        .collect();
    SetRequest::steps(steps).expect("steps")
}

fn error_of(response: ResponseMessage) -> String {
    match response.status {
        ResponseStatus::Error { error } => error,
        other => panic!("expected error, got {other:?}"),
    }
}

#[test]
fn get_before_init_returns_not_initialized_then_init_succeeds() {
    let mut driver = Driver::new();
    let response = driver.get("get-1", "IN");
    assert_eq!(response.id, "get-1");
    assert!(error_of(response).contains("not initialized"));
    assert_eq!(
        driver.init("init-1", &sample_init_targets()),
        ResponseMessage::ok("init-1")
    );
}

#[test]
fn init_get_immediate_set_round_trip() {
    let mut driver = Driver::new();
    assert_eq!(
        driver.init("init-1", &sample_init_targets()),
        ResponseMessage::ok("init-1")
    );
    assert_eq!(
        driver.get("get-1", "IN"),
        ResponseMessage::pin_value("get-1", PinValuePayload::Value(0))
    );
    assert_eq!(
        driver.set("set-1", &immediate(1), 0),
        Some(ResponseMessage::ok("set-1"))
    );
    let snapshot = parse_chip_xml(driver.dumps.last().expect("dump")).expect("parse chip xml");
    assert_eq!(
        snapshot.lines.get(&2).expect("line 2").persisted_level,
        LineLevel::High
    );
}

#[test]
fn second_init_is_rejected() {
    let mut driver = Driver::new();
    assert_eq!(
        driver.init("init-1", &sample_init_targets()),
        ResponseMessage::ok("init-1")
    );
    let response = driver.init("init-2", &sample_init_targets());
    assert_eq!(response.id, "init-2");
    assert!(error_of(response).contains("already initialized"));
    assert_eq!(
        driver.get("get-1", "IN"),
        ResponseMessage::pin_value("get-1", PinValuePayload::Value(0))
    );
}

#[test]
fn set_with_steps_runs_to_completion() {
    let mut driver = Driver::new();
    driver.init("init-1", &sample_init_targets());
    let request = steps(&[(0, 1), (30, 0), (30, 1)]);
    assert_eq!(driver.set("set-steps", &request, 1_000), None);
    assert_eq!(driver.reactor.next_wake(), Some((1_030, 1)));
    assert_eq!(driver.wake(1), None);
    assert_eq!(driver.reactor.next_wake(), Some((1_060, 1)));
    assert_eq!(driver.wake(1), Some(ResponseMessage::ok("set-steps")));
    assert_eq!(driver.reactor.next_wake(), None);

    assert_eq!(driver.dumps.len(), 3, "one dump per set step");
    let expected = [LineLevel::High, LineLevel::Low, LineLevel::High];
    for (index, (xml, expected_level)) in driver.dumps.iter().zip(expected).enumerate() {
        let snapshot = parse_chip_xml(xml).expect("parse write-log dump");
        assert_eq!(
            snapshot.lines.get(&2).expect("line 2").persisted_level,
            expected_level,
            "step {index} OUT level"
        );
    }
}

#[test]
fn set_while_sequence_running_is_rejected() {
    let mut driver = Driver::new();
    driver.init("init-1", &sample_init_targets());
    assert_eq!(driver.set("set-steps", &steps(&[(0, 1), (200, 0)]), 0), None);
    let response = driver.set("set-2", &immediate(0), 1).expect("refused");
    assert_eq!(response.id, "set-2");
    assert!(error_of(response).contains("already in progress"));
    assert_eq!(
        driver.get("get-1", "IN"),
        ResponseMessage::pin_value("get-1", PinValuePayload::Value(0))
    );
    assert_eq!(driver.wake(7), None);
    assert_eq!(driver.out_level(), LineLevel::High);
    assert_eq!(driver.wake(1), Some(ResponseMessage::ok("set-steps")));
    assert_eq!(driver.out_level(), LineLevel::Low);
}

#[test]
fn a_sequence_of_one_step_is_answered_at_once() {
    let mut driver = Driver::new();
    driver.init("init-1", &sample_init_targets());
    assert_eq!(
        driver.set("set-1", &steps(&[(0, 1)]), 0),
        Some(ResponseMessage::ok("set-1"))
    );
    assert_eq!(driver.reactor.state, SessionState::Initialized);
}

#[test]
fn a_step_that_fails_ends_its_sequence() {
    let mut driver = Driver::new();
    driver.init("init-1", &sample_init_targets());
    assert_eq!(driver.set("set-1", &steps(&[(0, 1), (5, 0)]), 0), None);
    let id = driver.chips[0].1.request_id;
    driver.chips[0].0.release_request(id);
    let response = driver.wake(1).expect("answered");
    assert_eq!(response.id, "set-1");
    error_of(response);
    assert_eq!(driver.reactor.state, SessionState::Initialized);
    assert_eq!(driver.reactor.next_wake(), None);
}

#[test]
fn steps_are_checked_before_the_first_is_written() {
    let mut driver = Driver::new();
    driver.init("init-1", &sample_init_targets());
    let response = driver
        .set("set-1", &steps(&[(0, 1), (5, 2)]), 0)
        .expect("refused");
    assert_eq!(
        error_of(response),
        "target `OUT` value 2 exceeds 1 configured bits"
    );
    assert_eq!(driver.out_level(), LineLevel::Low);
}

#[test]
fn trigger_edge_emits_event_with_init_request_id() {
    let mut driver = Driver::new();
    assert_eq!(
        driver.init("init-trig", &trigger_init_targets()),
        ResponseMessage::ok("init-trig")
    );
    assert_eq!(driver.reactor.trigger_chips(), vec![0]);
    let (state, request) = &mut driver.chips[0];
    apply_external_file_diff(state, &line0_xml("H"), 3);
    let mut buffer = MockEdgeEventBuffer::with_capacity(64);
    let count = request
        .read_edge_events(state, &mut buffer, 16)
        .expect("events");
    let responses = driver.reactor.edge_responses(0, &buffer, count);
    assert_eq!(responses.len(), 1);
    assert_eq!(responses[0].id, "init-trig");
    match &responses[0].status {
        ResponseStatus::Event { event } => {
            assert_eq!(event.target, "TRIG");
            assert_eq!(event.kind, EventType::Rising);
        }
        other => panic!("unexpected response while waiting for event: {other:?}"),
    }
    assert!(driver.reactor.edge_responses(1, &buffer, count).is_empty());
}

#[test]
fn an_init_that_fails_can_be_repeated() {
    let mut driver = Driver::new();
    let missing = NameMap::new().with("X".to_owned(), input_target("gpiochip0:9"));
    assert_eq!(
        error_of(driver.init("init-1", &missing)),
        "line 9 is not available on device `/tmp/gpiochip0.xml`"
    );
    let unmapped = NameMap::new().with("X".to_owned(), input_target("other"));
    assert_eq!(
        error_of(driver.init("init-2", &unmapped)),
        "unmapped pin `other`"
    );
    assert_eq!(
        driver.init("init-3", &sample_init_targets()),
        ResponseMessage::ok("init-3")
    );
}

#[test]
fn closing_writes_the_final_values() {
    let mut driver = Driver::new();
    let targets = NameMap::new().with("OUT".to_owned(), output_target(Some(1)));
    driver.init("init-1", &targets);
    let batch = driver.reactor.begin_close().expect("final values");
    driver.apply(&batch).expect("written");
    assert_eq!(driver.out_level(), LineLevel::High);
    assert_eq!(driver.reactor.state, SessionState::Closing);
    driver.reactor.close();
    assert_eq!(driver.reactor.state, SessionState::Closed);
    assert_eq!(
        error_of(driver.init("init-2", &targets)),
        "session is closed"
    );
    assert_eq!(error_of(driver.get("get-1", "OUT")), "session is closed");
    assert_eq!(
        error_of(driver.set("set-1", &immediate(0), 0).expect("refused")),
        "session is closed"
    );
    assert!(Driver::new().reactor.begin_close().is_none());
}

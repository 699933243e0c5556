use std::collections::BTreeMap;
use std::collections::VecDeque;

use gpiojsonsvc::gpio::libgpiod::EdgeEventType;
use gpiojsonsvc::gpio::libgpiod::LineBias;
use gpiojsonsvc::gpio::libgpiod::LineClock;
use gpiojsonsvc::gpio::libgpiod::LineDirection;
use gpiojsonsvc::gpio::libgpiod::LineDrive;
use gpiojsonsvc::gpio::libgpiod::LineEdge;
use gpiojsonsvc::gpio::mock::config::MockRequestLineState;
use gpiojsonsvc::gpio::mock::document::serialize_chip_xml;
use gpiojsonsvc::gpio::mock::snapshot::LineLevel;
use gpiojsonsvc::gpio::mock::snapshot::MockChipSnapshot;
use gpiojsonsvc::gpio::mock::snapshot::MockLineSnapshot;
use gpiojsonsvc::gpio::mock::state::find_open;
use gpiojsonsvc::gpio::mock::state::MockChipState;
use gpiojsonsvc::gpio::mock::state::RequestId;
use gpiojsonsvc::gpio::mock::state::RequestRegistration;
use gpiojsonsvc::gpio::mock::watch::apply_external_file_diff;


fn input_snapshot(level: LineLevel) -> MockChipSnapshot {
    MockChipSnapshot {
        name: "gpiochip0".to_owned(),
        label: String::new(),
        lines: BTreeMap::from([(
            0,
            MockLineSnapshot {
                name: String::new(),
                consumer: String::new(),
                persisted_level: level,
                direction: LineDirection::Input,
                bias: LineBias::Disabled,
                drive: LineDrive::PushPull,
                active_low: false,
            },
        )]),
    }
}

fn register_input_request(state: &mut MockChipState, edge: LineEdge) -> RequestId {
    let request_id = state.next_request_id;
    state.next_request_id += 1;
    let mut line_settings = BTreeMap::new();
    line_settings.insert(
        0,
        MockRequestLineState {
            direction: LineDirection::Input,
            edge,
            bias: LineBias::AsIs,
            drive: LineDrive::PushPull,
            active_low: false,
            debounce_period_us: 0,
            event_clock: LineClock::Monotonic,
            output_value: None,
        },
    );
    state.requests.insert(
        request_id,
        RequestRegistration {
            offsets_in_order: vec![0],
            line_settings,
            consumer: String::new(),
            pending_edge_events: VecDeque::new(),
            global_seqno_cursor: 0,
            per_line_seqno: BTreeMap::new(),
            closed: false,
        },
    );
    request_id
}

fn snapshot_to_xml(snapshot: &MockChipSnapshot) -> String {
    serialize_chip_xml(snapshot).expect("serialize")
}

#[test]
fn external_file_diff_enqueues_matching_input_transition() {
    let mut state = MockChipState {
        path_string: "/tmp/unused.xml".to_owned(),
        snapshot: input_snapshot(LineLevel::Low),
        requests: BTreeMap::new(),
        next_request_id: 1,
        watcher_error: None,
    };
    let request_id = register_input_request(&mut state, LineEdge::Both);

    let updated = input_snapshot(LineLevel::High);
    apply_external_file_diff(&mut state, &snapshot_to_xml(&updated), 7);

    let registration = state.requests.get(&request_id).expect("request");
    assert_eq!(registration.pending_edge_events.len(), 1);
    assert_eq!(
        registration.pending_edge_events[0].event_type,
        EdgeEventType::RisingEdge
    );
    assert_eq!(registration.pending_edge_events[0].line_offset, 0);
    assert_eq!(
        state
            .snapshot
            .lines
            .get(&0)
            .expect("line 0")
            .persisted_level,
        LineLevel::High
    );
}

#[test]
fn external_file_diff_respects_edge_detection_filter() {
    let mut state = MockChipState {
        path_string: "/tmp/unused.xml".to_owned(),
        snapshot: input_snapshot(LineLevel::High),
        requests: BTreeMap::new(),
        next_request_id: 1,
        watcher_error: None,
    };
    let request_id = register_input_request(&mut state, LineEdge::Rising);

    apply_external_file_diff(
        &mut state,
        &snapshot_to_xml(&input_snapshot(LineLevel::Low)),
        7,
    );

    let registration = state.requests.get(&request_id).expect("request");
    assert!(registration.pending_edge_events.is_empty());

    apply_external_file_diff(
        &mut state,
        &snapshot_to_xml(&input_snapshot(LineLevel::High)),
        7,
    );

    let registration = state.requests.get(&request_id).expect("request");
    assert_eq!(registration.pending_edge_events.len(), 1);
    assert_eq!(
        registration.pending_edge_events[0].event_type,
        EdgeEventType::RisingEdge
    );
}

#[test]
fn external_file_diff_ignores_output_line_changes() {
    let mut state = MockChipState {
        path_string: "/tmp/unused.xml".to_owned(),
        snapshot: MockChipSnapshot {
            name: "gpiochip0".to_owned(),
            label: String::new(),
            lines: BTreeMap::from([(
                1,
                MockLineSnapshot {
                    name: String::new(),
                    consumer: String::new(),
                    persisted_level: LineLevel::Low,
                    direction: LineDirection::Output,
                    bias: LineBias::Disabled,
                    drive: LineDrive::PushPull,
                    active_low: false,
                },
            )]),
        },
        requests: BTreeMap::new(),
        next_request_id: 1,
        watcher_error: None,
    };

    let request_id = state.next_request_id;
    state.next_request_id += 1;
    let mut line_settings = BTreeMap::new();
    line_settings.insert(
        1,
        MockRequestLineState {
            direction: LineDirection::Output,
            edge: LineEdge::Both,
            bias: LineBias::AsIs,
            drive: LineDrive::PushPull,
            active_low: false,
            debounce_period_us: 0,
            event_clock: LineClock::Monotonic,
            output_value: None,
        },
    );
    state.requests.insert(
        request_id,
        RequestRegistration {
            offsets_in_order: vec![1],
            line_settings,
            consumer: String::new(),
            pending_edge_events: VecDeque::new(),
            global_seqno_cursor: 0,
            per_line_seqno: BTreeMap::new(),
            closed: false,
        },
    );

    let mut updated = state.snapshot.clone();
    updated.lines.get_mut(&1).expect("line 1").persisted_level = LineLevel::High;
    apply_external_file_diff(&mut state, &snapshot_to_xml(&updated), 7);

    let registration = state.requests.get(&request_id).expect("request");
    assert!(registration.pending_edge_events.is_empty());
    assert_eq!(
        state
            .snapshot
            .lines
            .get(&1)
            .expect("line 1")
            .persisted_level,
        LineLevel::Low
    );
}

#[test]
fn external_file_diff_ignores_metadata_only_changes() {
    let mut state = MockChipState {
        path_string: "/tmp/unused.xml".to_owned(),
        snapshot: input_snapshot(LineLevel::Low),
        requests: BTreeMap::new(),
        next_request_id: 1,
        watcher_error: None,
    };
    let _request_id = register_input_request(&mut state, LineEdge::Both);

    let mut metadata_edit = state.snapshot.clone();
    metadata_edit.lines.get_mut(&0).expect("line 0").bias = LineBias::PullDown;
    metadata_edit.lines.get_mut(&0).expect("line 0").direction = LineDirection::Output;
    apply_external_file_diff(&mut state, &snapshot_to_xml(&metadata_edit), 7);

    assert!(state.watcher_error.is_none());
    let line = state.snapshot.lines.get(&0).expect("line 0");
    assert_eq!(line.direction, LineDirection::Input);
    assert_eq!(line.bias, LineBias::Disabled);
    assert_eq!(line.persisted_level, LineLevel::Low);
    let registration = state.requests.get(&_request_id).expect("request");
    assert!(registration.pending_edge_events.is_empty());
}

#[test]
fn external_file_diff_records_watcher_error_on_unknown_line() {
    let mut state = MockChipState {
        path_string: "/tmp/unused.xml".to_owned(),
        snapshot: input_snapshot(LineLevel::Low),
        requests: BTreeMap::new(),
        next_request_id: 1,
        watcher_error: None,
    };

    let unknown_line_xml = r#"<gpiochip id="gpiochip0">
<line id="0" direction="input" bias="disabled">L</line>
<line id="99" direction="input" bias="disabled">L</line>
</gpiochip>"#;
    apply_external_file_diff(&mut state, unknown_line_xml, 7);

    assert!(state.watcher_error.is_some());
}

#[test]
fn one_path_is_one_open_chip() {
    let paths = vec!["/tmp/a.xml".to_owned(), "/tmp/b.xml".to_owned()];
    assert_eq!(find_open(&paths, "/tmp/a.xml"), Some(0));
    assert_eq!(find_open(&paths, "/tmp/b.xml"), Some(1));
    assert_eq!(find_open(&paths, "/tmp/../tmp/a.xml"), None);
    assert_eq!(find_open(&Vec::new(), "/tmp/a.xml"), None);
}

use gpiojsonsvc::cluster::backend::MockBackend;
use gpiojsonsvc::cluster::document::parse_xml_snapshot;
use gpiojsonsvc::cluster::document::serialize_xml_snapshot;
use gpiojsonsvc::cluster::document::XmlBiasMode;
use gpiojsonsvc::cluster::document::XmlChip;
use gpiojsonsvc::cluster::document::XmlDocument;
use gpiojsonsvc::cluster::document::XmlDriveMode;
use gpiojsonsvc::cluster::document::XmlEventMode;
use gpiojsonsvc::cluster::document::XmlLine;
use gpiojsonsvc::cluster::document::XmlLineMode;
use gpiojsonsvc::cluster::error::GPIOClusterError;
use gpiojsonsvc::cluster::error::MockError;
use gpiojsonsvc::cluster::mock::GPIOCluster;
use gpiojsonsvc::cluster::pinspec::PinSpec;
use gpiojsonsvc::cluster::pinspec::PinSpecParseError;
use gpiojsonsvc::cluster::properties::GPIOPinConfig;
use gpiojsonsvc::cluster::properties::GPIOProperties;
use gpiojsonsvc::cluster::properties::PinLevel;
use gpiojsonsvc::cluster::properties::PropertyBiasMode;
use gpiojsonsvc::cluster::properties::PropertyDriveMode;
use gpiojsonsvc::cluster::properties::PropertyEventMode;
use gpiojsonsvc::cluster::schedule::disable;
use gpiojsonsvc::cluster::schedule::enable;
use gpiojsonsvc::cluster::schedule::generation_of;
use gpiojsonsvc::cluster::schedule::wait_step;
use gpiojsonsvc::cluster::schedule::WaitStep;
use gpiojsonsvc::cluster::snapshot::BackendSnapshot;
use gpiojsonsvc::cluster::snapshot::LineMode;
use gpiojsonsvc::cluster::watch::should_reload;
use gpiojsonsvc::protocol::request::BiasMode;
use gpiojsonsvc::protocol::request::DriveMode;
use gpiojsonsvc::protocol::request::EdgeMode;
use gpiojsonsvc::protocol::response::EventType;

const AS_IS: GPIOPinConfig = GPIOPinConfig::Input {
    bias: BiasMode::AsIs,
};
const PUSH_PULL: GPIOPinConfig = GPIOPinConfig::Output {
    drive: DriveMode::PushPull,
};
const BOTH_EDGES: GPIOPinConfig = GPIOPinConfig::Trigger {
    edge: EdgeMode::Both,
};

fn input(
    id: u32,
    bias: Option<XmlBiasMode>,
    event: Option<XmlEventMode>,
    level: &str,
) -> XmlLine {
    XmlLine {
        id,
        mode: XmlLineMode::Input,
        bias,
        drive: None,
        event,
        level: level.to_owned(),
    }
}

fn output(id: u32, drive: Option<XmlDriveMode>, level: &str) -> XmlLine {
    XmlLine {
        id,
        mode: XmlLineMode::Output,
        bias: None,
        drive,
        event: None,
        level: level.to_owned(),
    }
}

fn chip(id: &str, lines: Vec<XmlLine>) -> XmlChip {
    XmlChip {
        id: id.to_owned(),
        lines,
    }
}

fn document(chips: Vec<XmlChip>) -> XmlDocument {
    XmlDocument { chips }
}

fn sample_document(line0: &str, bias: XmlBiasMode) -> XmlDocument {
    document(vec![chip(
        "gpiochip0",
        vec![
            input(0, Some(bias), Some(XmlEventMode::Both), line0),
            output(1, Some(XmlDriveMode::PushPull), "1"),
        ],
    )])
}

fn parse(document: XmlDocument) -> BackendSnapshot {
    parse_xml_snapshot(Ok(document)).expect("parse")
}

fn sample_backend() -> MockBackend {
    let mut backend = MockBackend::new();
    assert_eq!(backend.needs_snapshot(), Ok(true));
    backend.store_snapshot(parse(sample_document("0", XmlBiasMode::PullUp)));
    assert_eq!(backend.needs_snapshot(), Ok(false));
    backend
}

fn change_file(backend: &mut MockBackend, document: XmlDocument) {
    backend.reload_from_disk("/tmp/gpiochips.xml", parse_xml_snapshot(Ok(document)));
}

#[test]
fn parses_valid_pin_spec() {
    let pin = "gpiochip0:12".parse::<PinSpec>().expect("pin should parse");
    assert_eq!(pin.chip_name, "gpiochip0");
    assert_eq!(pin.line_offset, 12);
}

#[test]
fn rejects_pin_spec_without_separator() {
    let error = "gpiochip0-12"
        .parse::<PinSpec>()
        .expect_err("pin should fail");
    assert_eq!(error, PinSpecParseError::InvalidFormat);
}

#[test]
fn pin_spec_splits_at_the_first_separator() {
    assert_eq!(
        PinSpec::parse(" :1"),
        Err(PinSpecParseError::EmptyChipName)
    );
    assert_eq!(
        PinSpec::parse("a:1:2"),
        Err(PinSpecParseError::InvalidLineOffset)
    );
    assert_eq!(
        PinSpec::parse("a:4294967296"),
        Err(PinSpecParseError::InvalidLineOffset)
    );
    let pin = PinSpec::parse("a:+7").expect("pin");
    assert_eq!(pin.text(), "a:7");
    assert_eq!(PinSpec::parse(&pin.text()), Ok(pin));
}

#[test]
fn parses_valid_xml_snapshot() {
    let snapshot = parse(sample_document("0", XmlBiasMode::PullUp));
    let line0 = snapshot.line("gpiochip0", 0).expect("line 0");
    assert_eq!(line0.level, PinLevel::Low);
    assert!(matches!(
        line0.mode,
        LineMode::Input {
            bias: PropertyBiasMode::PullUp,
            event: PropertyEventMode::Both
        }
    ));
    let line1 = snapshot.line("gpiochip0", 1).expect("line 1");
    assert_eq!(line1.level, PinLevel::High);
    assert!(matches!(
        line1.mode,
        LineMode::Output {
            drive: PropertyDriveMode::PushPull
        }
    ));
}

#[test]
fn rejects_invalid_line_values() {
    let error = parse_xml_snapshot(Ok(document(vec![chip(
        "gpiochip0",
        vec![input(0, None, None, "2")],
    )])))
    .expect_err("invalid value");
    assert!(matches!(error, MockError::InvalidValue { .. }));
}

#[test]
fn round_trips_serialized_xml() {
    let snapshot = parse(sample_document("0", XmlBiasMode::PullUp));
    let restored = parse(serialize_xml_snapshot(&snapshot));
    assert_eq!(snapshot, restored);
}

#[test]
fn documents_are_checked_line_by_line() {
    let cases = [
        (vec![chip(" ", vec![])], "parse error: gpiochip id must not be empty"),
        (
            vec![chip("a", vec![]), chip("a", vec![])],
            "parse error: duplicate gpiochip id a",
        ),
        (
            vec![chip(
                "a",
                vec![output(3, None, " 1\n"), output(3, None, "0")],
            )],
            "parse error: duplicate line id 3 in chip a",
        ),
        (
            vec![chip("a", vec![output(3, None, " x ")])],
            "invalid line value `x` at a:line_3",
        ),
    ];
    for (chips, message) in cases {
        let error = parse_xml_snapshot(Ok(document(chips))).expect_err("refused");
        assert_eq!(error.message(), message);
    }
    let mut driven = input(2, None, None, "0");
    driven.drive = Some(XmlDriveMode::OpenDrain);
    let error = parse_xml_snapshot(Ok(document(vec![chip("a", vec![driven])]))).expect_err("drive");
    assert_eq!(
        error.message(),
        "parse error: input line a:2 must not define drive"
    );
    let mut biased = output(2, None, "0");
    biased.bias = Some(XmlBiasMode::PullUp);
    let error = parse_xml_snapshot(Ok(document(vec![chip("a", vec![biased])]))).expect_err("bias");
    assert_eq!(
        error.message(),
        "parse error: output line a:2 must not define bias or event"
    );
    let error = parse_xml_snapshot(Err("bad syntax".to_owned())).expect_err("syntax");
    assert_eq!(error.message(), "parse error: xml parse error: bad syntax");
}

#[test]
fn cluster_rejects_missing_line() {
    let error = sample_backend()
        .cluster(&vec![("gpiochip0:9", AS_IS)])
        .expect_err("missing line");
    assert!(matches!(error, MockError::LineNotFound { .. }));
}

#[test]
fn cluster_rejects_direction_mismatch() {
    let mut backend = sample_backend();
    let input_on_output = backend
        .cluster(&vec![("gpiochip0:1", AS_IS)])
        .expect_err("input on output");
    assert!(matches!(
        input_on_output,
        MockError::DirectionMismatch { .. }
    ));
    assert_eq!(
        input_on_output.message(),
        "direction mismatch for gpiochip0:line_1: expected input, found output"
    );
    let output_on_input = backend
        .cluster(&vec![("gpiochip0:0", PUSH_PULL)])
        .expect_err("output on input");
    assert!(matches!(
        output_on_input,
        MockError::DirectionMismatch { .. }
    ));
}

#[test]
fn cluster_rejects_trigger_on_non_event_line() {
    let mut backend = MockBackend::new();
    backend.store_snapshot(parse(document(vec![chip(
        "gpiochip0",
        vec![input(0, None, None, "0")],
    )])));
    let error = backend
        .cluster(&vec![(
            "gpiochip0:0",
            GPIOPinConfig::Trigger {
                edge: EdgeMode::Rising,
            },
        )])
        .expect_err("trigger without event");
    assert!(matches!(error, MockError::TriggerNotSupported { .. }));
}

#[test]
fn cluster_rejects_bad_pin_names_and_missing_chips() {
    let error = sample_backend()
        .cluster(&vec![("gpiochip0", AS_IS)])
        .expect_err("bad name");
    assert_eq!(
        error,
        MockError::InvalidPinName {
            pin: "gpiochip0".to_owned(),
            reason: PinSpecParseError::InvalidFormat
        }
    );
    let error = MockBackend::new()
        .cluster(&vec![("gpiochip0:0", AS_IS)])
        .expect_err("not loaded");
    assert_eq!(error.message(), "parse error: snapshot missing after load");
}

#[test]
fn cluster_knows_its_pins() {
    let mut backend = sample_backend();
    let id = backend
        .cluster(&vec![("gpiochip0:1", PUSH_PULL), ("gpiochip0:0", BOTH_EDGES)])
        .expect("cluster");
    let cluster = &backend.clusters[&id];
    assert_eq!(cluster.pin_count(), 2);
    assert_eq!(cluster.pin_name(0), Some("gpiochip0:1"));
    assert_eq!(cluster.pin_name(2), None);
    assert_eq!(
        cluster.pin_props(0),
        Some(GPIOProperties::output(PropertyDriveMode::PushPull))
    );
    assert_eq!(
        cluster.pin_props(1),
        Some(GPIOProperties::input(
            PropertyBiasMode::PullUp,
            PropertyEventMode::Both
        ))
    );
    assert_eq!(
        GPIOProperties::from_config(&BOTH_EDGES),
        GPIOProperties::input(PropertyBiasMode::Disabled, PropertyEventMode::Both)
    );
    assert_eq!(
        GPIOProperties::from_config(&AS_IS),
        GPIOProperties::input(PropertyBiasMode::Disabled, PropertyEventMode::NoEvent)
    );
    assert_eq!(u8::from(PinLevel::High), 1);
    assert_eq!(PinLevel::from(7), PinLevel::High);
    assert_eq!(PinLevel::from(0), PinLevel::Low);
}

#[test]
fn read_returns_levels_in_requested_order() {
    let mut backend = MockBackend::new();
    backend.store_snapshot(parse(document(vec![chip(
        "gpiochip0",
        vec![
            input(0, None, None, "0"),
            input(1, None, None, "1"),
            output(2, None, "1"),
        ],
    )])));
    let cluster = backend
        .cluster(&vec![("gpiochip0:0", AS_IS), ("gpiochip0:1", AS_IS)])
        .expect("cluster");
    let levels = backend.read(cluster, &vec![1, 0]).expect("read");
    assert_eq!(levels, vec![PinLevel::High, PinLevel::Low]);
    let error = backend.read(cluster, &vec![2]).expect_err("no such pin");
    assert!(error.is_invalid_index());
}

#[test]
fn write_updates_output_lines_only() {
    let mut backend = sample_backend();
    let cluster = backend
        .cluster(&vec![("gpiochip0:0", AS_IS), ("gpiochip0:1", PUSH_PULL)])
        .expect("cluster");
    let next = backend
        .write(cluster, &vec![1], &vec![PinLevel::Low])
        .expect("write output");
    assert_eq!(
        next.line("gpiochip0", 1).expect("line 1").level,
        PinLevel::Low
    );
    assert_eq!(
        backend.read(cluster, &vec![1]).expect("not stored yet"),
        vec![PinLevel::High]
    );
    backend.store_snapshot(next);
    assert_eq!(
        backend.read(cluster, &vec![1]).expect("stored"),
        vec![PinLevel::Low]
    );
    let write_input = backend
        .write(cluster, &vec![0], &vec![PinLevel::High])
        .expect_err("write input");
    assert!(matches!(write_input, MockError::WriteToInput { .. }));
}

#[test]
fn write_rejects_unmatched_values() {
    let mut backend = sample_backend();
    let cluster = backend
        .cluster(&vec![("gpiochip0:1", PUSH_PULL)])
        .expect("cluster");
    let error = backend
        .write(cluster, &vec![0, 0], &vec![PinLevel::High])
        .expect_err("unmatched");
    assert!(error.is_unmatched_value());
}

#[test]
fn watcher_detects_rising_and_falling_edges() {
    let mut backend = sample_backend();
    let cluster = backend
        .cluster(&vec![("gpiochip0:0", BOTH_EDGES)])
        .expect("cluster");
    assert_eq!(backend.poll_event(cluster), Ok(None));
    change_file(&mut backend, sample_document("1", XmlBiasMode::PullUp));
    assert_eq!(
        backend.poll_event(cluster),
        Ok(Some((0, EventType::Rising)))
    );
    change_file(&mut backend, sample_document("0", XmlBiasMode::PullUp));
    assert_eq!(
        backend.poll_event(cluster),
        Ok(Some((0, EventType::Falling)))
    );
    assert_eq!(backend.poll_event(cluster), Ok(None));
}

#[test]
fn watcher_ignores_property_only_changes() {
    let mut backend = sample_backend();
    let cluster = backend
        .cluster(&vec![("gpiochip0:0", BOTH_EDGES)])
        .expect("cluster");
    change_file(&mut backend, sample_document("0", XmlBiasMode::PullDown));
    assert_eq!(backend.poll_event(cluster), Ok(None));
}

#[test]
fn watcher_rejects_structural_changes() {
    let mut backend = sample_backend();
    let cluster = backend
        .cluster(&vec![("gpiochip0:0", BOTH_EDGES)])
        .expect("cluster");
    change_file(
        &mut backend,
        document(vec![chip(
            "gpiochip0",
            vec![
                input(
                    4,
                    Some(XmlBiasMode::PullUp),
                    Some(XmlEventMode::Both),
                    "0",
                ),
                output(1, Some(XmlDriveMode::PushPull), "1"),
            ],
        )]),
    );
    let error = backend.poll_event(cluster).expect_err("watcher failed");
    assert!(matches!(error, MockError::WatcherFailed(_)));
    assert_eq!(
        error.message(),
        "watcher failed: watcher failed: line removed or renamed: gpiochip0:0"
    );
    backend.set_error("later".to_owned());
    assert_eq!(
        backend.needs_snapshot().expect_err("failed"),
        error
    );
}

#[test]
fn watcher_names_what_changed() {
    let sample = || {
        document(vec![
            chip("a", vec![input(0, None, None, "0")]),
            chip("b", vec![output(0, None, "0")]),
        ])
    };
    let cases = [
        (document(vec![]), "gpiochip structure changed"),
        (
            document(vec![
                chip("a", vec![input(0, None, None, "0")]),
                chip("c", vec![]),
            ]),
            "chip removed or renamed: b",
        ),
        (
            document(vec![chip("a", vec![]), chip("b", vec![])]),
            "line structure changed for chip a",
        ),
        (
            document(vec![
                chip("a", vec![output(0, None, "0")]),
                chip("b", vec![output(0, None, "0")]),
            ]),
            "line mode changed for a:0",
        ),
    ];
    for (changed, message) in cases {
        let mut backend = MockBackend::new();
        backend.store_snapshot(parse(sample()));
        change_file(&mut backend, changed);
        assert_eq!(
            backend.error,
            Some(format!("watcher failed: {message}"))
        );
    }
    let mut backend = MockBackend::new();
    backend.reload_from_disk("/tmp/x.xml", Err(MockError::Io("gone".to_owned())));
    assert_eq!(
        backend.error.as_deref(),
        Some("failed to reload /tmp/x.xml: io error: gone")
    );
}

#[test]
fn watcher_fans_out_events_to_multiple_clusters() {
    let mut backend = sample_backend();
    let cluster_a = backend
        .cluster(&vec![("gpiochip0:0", BOTH_EDGES)])
        .expect("cluster a");
    let cluster_b = backend
        .cluster(&vec![("gpiochip0:0", BOTH_EDGES)])
        .expect("cluster b");
    change_file(&mut backend, sample_document("1", XmlBiasMode::PullUp));
    assert_eq!(
        backend.poll_event(cluster_a),
        Ok(Some((0, EventType::Rising)))
    );
    assert_eq!(
        backend.poll_event(cluster_b),
        Ok(Some((0, EventType::Rising)))
    );
}

#[test]
fn triggers_see_the_edges_that_they_ask_for() {
    let mut backend = sample_backend();
    let rising = backend
        .cluster(&vec![(
            "gpiochip0:0",
            GPIOPinConfig::Trigger {
                edge: EdgeMode::Rising,
            },
        )])
        .expect("cluster");
    change_file(&mut backend, sample_document("1", XmlBiasMode::PullUp));
    change_file(&mut backend, sample_document("0", XmlBiasMode::PullUp));
    assert_eq!(backend.poll_event(rising), Ok(Some((0, EventType::Rising))));
    assert_eq!(backend.poll_event(rising), Ok(None));
}

#[test]
fn closed_cluster_returns_error() {
    let mut backend = sample_backend();
    let cluster = backend
        .cluster(&vec![("gpiochip0:0", AS_IS)])
        .expect("cluster");
    assert_eq!(backend.ensure_open(cluster), Ok(()));
    backend.close(cluster);
    let error = match backend.read(cluster, &vec![0]) {
        Err(error) => error,
        Ok(_) => panic!("expected closed error"),
    };
    assert!(error.is_closed());
    assert_eq!(backend.poll_event(cluster), Err(MockError::Closed));
}

#[test]
fn a_reload_follows_changes_that_name_the_file() {
    let changed = vec![None, Some("other.xml".to_owned())];
    assert!(!should_reload(&changed, "gpiochips.xml"));
    let changed = vec![None, Some("gpiochips.xml".to_owned())];
    assert!(should_reload(&changed, "gpiochips.xml"));
    assert!(!should_reload(&vec![], "gpiochips.xml"));
}

#[test]
fn schedule_word_counts_stops() {
    let running = enable(0).expect("was stopped");
    assert_eq!(enable(running), None);
    assert_eq!(generation_of(running), 0);
    let stopped = disable(running).expect("was running");
    assert_eq!(stopped, 2);
    assert_eq!(generation_of(stopped), 1);
    assert_eq!(disable(stopped), None);
    assert_eq!(disable(u64::MAX), Some(0));
    assert_eq!(wait_step(running, running), WaitStep::Sleep);
    assert_eq!(wait_step(running, stopped), WaitStep::Again);
    assert_eq!(wait_step(running, 3), WaitStep::Again);
    assert_eq!(wait_step(stopped, running), WaitStep::Stopped);
}

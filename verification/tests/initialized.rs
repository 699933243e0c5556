use gpiojsonsvc::config::GPIODPinSpec;
use gpiojsonsvc::gpio::libgpiod::GPIOError;
use gpiojsonsvc::gpio::libgpiod::LineBias;
use gpiojsonsvc::gpio::libgpiod::LineDirection;
use gpiojsonsvc::gpio::libgpiod::LineDrive;
use gpiojsonsvc::gpio::libgpiod::LineEdge;
use gpiojsonsvc::gpio::libgpiod::LineValue;
use gpiojsonsvc::gpio::mock::config::MockLineConfig;
use gpiojsonsvc::gpio::mock::document::parse_chip_xml;
use gpiojsonsvc::gpio::mock::info::MockChipInfo;
use gpiojsonsvc::gpio::mock::request::MockLineRequest;
use gpiojsonsvc::gpio::mock::state::open_chip_state;
use gpiojsonsvc::gpio::mock::state::MockChipState;
use gpiojsonsvc::gpio::traits::ChipInfo;
use gpiojsonsvc::gpio::traits::LineConfig;
use gpiojsonsvc::gpio::traits::LineSettings;
use gpiojsonsvc::names::NameMap;
use gpiojsonsvc::protocol::request::BiasMode;
use gpiojsonsvc::protocol::request::DriveMode;
use gpiojsonsvc::protocol::request::EdgeMode;
use gpiojsonsvc::protocol::request::PinSelector;
use gpiojsonsvc::protocol::request::TargetConfigRequest;
use gpiojsonsvc::session::compiled::ResolvedPins;
use gpiojsonsvc::session::initialized::map_open_chip_error;
use gpiojsonsvc::session::initialized::map_request_lines_error;
use gpiojsonsvc::session::initialized::InitializedSession;
use gpiojsonsvc::session::pins::ResolvedPin;
use gpiojsonsvc::session::state::SessionError;

const SAMPLE_XML: &str = r#"<gpiochip id="gpiochip0" label="mock gpiochip0">
<line id="0" name="line0" direction="input" bias="pull_up">L</line>
<line id="1" name="line1" direction="input" bias="pull_down">L</line>
<line id="2" name="line2" direction="output" drive="push_pull">L</line>
<line id="3" name="line3" direction="output" drive="push_pull">H</line>
<line id="4" name="line4" direction="input">L</line>
</gpiochip>"#;

const CHIP0_XML: &str = r#"<gpiochip id="gpiochip0">
<line id="0" direction="input">L</line>
</gpiochip>"#;

const CHIP1_XML: &str = r#"<gpiochip id="gpiochip1">
<line id="0" direction="input">H</line>
<line id="13" direction="input">L</line>
</gpiochip>"#;

fn pin_map(mappings: &[(&str, &str, u32)]) -> NameMap<GPIODPinSpec> {
    let mut pins = NameMap::new();
    for (pin, device, line) in mappings {
        let spec = GPIODPinSpec {
            device: (*device).to_owned(),
            line: *line,
        };
        pins = pins.with((*pin).to_owned(), spec);
    }
    pins
}

fn input(pin: &str) -> TargetConfigRequest {
    TargetConfigRequest::Input {
        pin: PinSelector::single(pin.to_owned()).expect("pin"),
        bias: None,
    }
}

fn outputs(pins: &[&str], initial: Option<u8>, final_value: Option<u8>) -> TargetConfigRequest {
    TargetConfigRequest::Output {
        pin: PinSelector::combined(pins.iter().map(|pin| (*pin).to_owned()).collect())
            .expect("pins"),
        drive: None,
        initial,
        final_value,
    }
}

fn sample_init_request() -> NameMap<TargetConfigRequest> {
    NameMap::new()
        .with("IN".to_owned(), input("gpiochip0:0"))
        .with(
            "OUT2".to_owned(),
            outputs(&["gpiochip0:2", "gpiochip0:3"], None, None),
        )
        .with(
            "TRIG".to_owned(),
            TargetConfigRequest::Trigger {
                pin: "gpiochip0:4".to_owned(),
                edge: EdgeMode::Both,
            },
        )
}

fn open_and_request(
    device: &str,
    xml: &str,
    config: &MockLineConfig,
) -> Result<(MockChipState, MockLineRequest), SessionError> {
    let snapshot =
        parse_chip_xml(xml).map_err(|error| map_open_chip_error(device, error))?;
    let mut state = open_chip_state(device, snapshot);
    let (registration, _) = state
        .request_lines(None, config)
        .map_err(|error| map_request_lines_error(device, error))?;
    let request = state.register_request(registration);
    Ok((state, request))
}

#[test]
fn initialize_opens_chip_and_requests_configured_lines() {
    let path = "/tmp/gpiochip0.xml";
    let pins = pin_map(&[
        ("gpiochip0:0", path, 0),
        ("gpiochip0:2", path, 2),
        ("gpiochip0:3", path, 3),
        ("gpiochip0:4", path, 4),
    ]);

    let (session, devices) =
        InitializedSession::initialize("init-1".to_owned(), &sample_init_request(), &pins)
            .expect("initialize");

    assert_eq!(session.init_request_id, "init-1");
    assert_eq!(session.chip_count(), 1);
    assert_eq!(devices.len(), 1);
    assert_eq!(devices[0].0, path);

    let (state, request) =
        open_and_request(path, SAMPLE_XML, &devices[0].1).expect("request lines");
    let info = MockChipInfo::from_snapshot(&state.snapshot);
    assert_eq!(info.get_name(), "gpiochip0");

    assert_eq!(request.get_num_requested_lines(), 4);
    assert_eq!(
        request.get_value(&state, 0).expect("read input"),
        LineValue::Inactive
    );
    assert_eq!(
        request.get_value(&state, 3).expect("read output"),
        LineValue::Active
    );
    assert_eq!(
        session.compiled_targets.trigger_target_name(0, 4),
        Some("TRIG")
    );
}

#[test]
fn initialize_opens_two_configured_device_paths_as_independent_chips() {
    let path0 = "/tmp/chip0.xml";
    let path1 = "/tmp/chip1.xml";
    let pins = pin_map(&[("gpiochip0:0", path0, 0), ("GPIO1_B5", path1, 13)]);
    let init_request = NameMap::new()
        .with("A".to_owned(), input("gpiochip0:0"))
        .with("B".to_owned(), input("GPIO1_B5"));

    let (session, devices) =
        InitializedSession::initialize("init-multi".to_owned(), &init_request, &pins)
            .expect("initialize");

    assert_eq!(session.chip_count(), 2);
    assert_eq!(devices[0].0, path0);
    assert_eq!(devices[1].0, path1);
    let (_, request0) = open_and_request(path0, CHIP0_XML, &devices[0].1).expect("chip 0");
    let (_, request1) = open_and_request(path1, CHIP1_XML, &devices[1].1).expect("chip 1");
    assert_eq!(request0.get_num_requested_lines(), 1);
    assert_eq!(request1.get_num_requested_lines(), 1);
    assert_eq!(
        session.compiled_targets.target("A").expect("A").pins,
        ResolvedPins::Single(ResolvedPin {
            chip_index: 0,
            offset: 0,
        })
    );
    assert_eq!(
        session.compiled_targets.target("B").expect("B").pins,
        ResolvedPins::Single(ResolvedPin {
            chip_index: 1,
            offset: 13,
        })
    );
}

#[test]
fn initialize_reuses_one_session_chip_for_pins_sharing_a_device_path() {
    let path = "/tmp/chip1.xml";
    let pins = pin_map(&[("gpiochip1:0", path, 0), ("GPIO1_B5", path, 13)]);
    let init_request = NameMap::new()
        .with("A".to_owned(), input("gpiochip1:0"))
        .with("B".to_owned(), input("GPIO1_B5"));

    let (session, devices) =
        InitializedSession::initialize("init-shared".to_owned(), &init_request, &pins)
            .expect("initialize");

    assert_eq!(session.chip_count(), 1);
    assert_eq!(devices[0].0, path);
    let (_, request) = open_and_request(path, CHIP1_XML, &devices[0].1).expect("chip");
    assert_eq!(request.get_num_requested_lines(), 2);
    assert_eq!(
        session.compiled_targets.target("A").expect("A").pins,
        ResolvedPins::Single(ResolvedPin {
            chip_index: 0,
            offset: 0,
        })
    );
    assert_eq!(
        session.compiled_targets.target("B").expect("B").pins,
        ResolvedPins::Single(ResolvedPin {
            chip_index: 0,
            offset: 13,
        })
    );
}

#[test]
fn initialize_rejects_unmapped_pin() {
    let request = NameMap::new().with("IN".to_owned(), input("gpiochip0:0"));
    let pins: NameMap<GPIODPinSpec> = NameMap::new();

    let error = InitializedSession::initialize("init-1".to_owned(), &request, &pins)
        .err()
        .expect("unmapped pin");
    assert_eq!(
        error,
        SessionError::UnmappedPin {
            pin: "gpiochip0:0".to_owned()
        }
    );
}

#[test]
fn initialize_rejects_unavailable_device_file() {
    let error = map_open_chip_error(
        "/no/such/gpiochip0.xml",
        GPIOError::Io("No such file or directory".to_owned()),
    );
    match error {
        SessionError::UnavailableDeviceFile { device } => {
            assert_eq!(device, "/no/such/gpiochip0.xml");
        }
        other => panic!("unexpected error: {other:?}"),
    }
}

#[test]
fn initialize_rejects_missing_line() {
    let path = "/tmp/chip0.xml";
    let pins = pin_map(&[("gpiochip0:0", path, 99)]);
    let request = NameMap::new().with("IN".to_owned(), input("gpiochip0:0"));

    let (_, devices) = InitializedSession::initialize("init-1".to_owned(), &request, &pins)
        .expect("initialize");
    let error = open_and_request(path, CHIP0_XML, &devices[0].1).expect_err("missing line");
    match error {
        SessionError::MissingLine { device, line } => {
            assert_eq!(device, path);
            assert_eq!(line, 99);
        }
        other => panic!("unexpected error: {other:?}"),
    }
}

#[test]
fn initialize_rejects_duplicate_physical_location_in_combined_target() {
    let path = "/tmp/chip1.xml";
    let pins = pin_map(&[("gpiochip1:13", path, 13), ("GPIO1_B5", path, 13)]);
    let request = NameMap::new().with(
        "OUT".to_owned(),
        outputs(&["gpiochip1:13", "GPIO1_B5"], None, None),
    );

    let error = InitializedSession::initialize("init-1".to_owned(), &request, &pins)
        .err()
        .expect("duplicate location");
    assert_eq!(
        error,
        SessionError::DuplicatePhysicalLocation {
            pin: "GPIO1_B5".to_owned()
        }
    );
}

#[test]
fn initial_values_are_driven_bit_by_bit() {
    let path = "/tmp/gpiochip0.xml";
    let pins = pin_map(&[("gpiochip0:2", path, 2), ("gpiochip0:3", path, 3)]);
    let request = NameMap::new().with(
        "OUT2".to_owned(),
        outputs(&["gpiochip0:2", "gpiochip0:3"], Some(0b10), Some(0b01)),
    );
    let (session, devices) = InitializedSession::initialize("init-1".to_owned(), &request, &pins)
        .expect("initialize");
    let (state, request) = open_and_request(path, SAMPLE_XML, &devices[0].1).expect("request");
    assert_eq!(request.get_value(&state, 2), Ok(LineValue::Active));
    assert_eq!(request.get_value(&state, 3), Ok(LineValue::Inactive));
    assert_eq!(session.finals.get("OUT2"), Some(&0b01));
}

#[test]
fn initial_and_final_values_fit_the_pins() {
    let path = "/tmp/gpiochip0.xml";
    let pins = pin_map(&[("gpiochip0:2", path, 2), ("gpiochip0:3", path, 3)]);
    for (initial, final_value) in [(Some(4), None), (None, Some(4))] {
        let request = NameMap::new().with(
            "OUT2".to_owned(),
            outputs(&["gpiochip0:2", "gpiochip0:3"], initial, final_value),
        );
        let error = InitializedSession::initialize("init-1".to_owned(), &request, &pins)
            .err()
            .expect("out of range");
        assert_eq!(
            error,
            SessionError::TargetValueOutOfRange {
                target: "OUT2".to_owned(),
                value: 4,
                bits: 2
            }
        );
        assert_eq!(
            error.message(),
            "target `OUT2` value 4 exceeds 2 configured bits"
        );
    }
}

#[test]
fn settings_follow_the_request() {
    let path = "/tmp/gpiochip0.xml";
    let pins = pin_map(&[("a", path, 0), ("b", path, 1), ("c", path, 2)]);
    let request = NameMap::new()
        .with(
            "A".to_owned(),
            TargetConfigRequest::Input {
                pin: PinSelector::single("a".to_owned()).expect("pin"),
                bias: Some(BiasMode::PullDown),
            },
        )
        .with(
            "B".to_owned(),
            TargetConfigRequest::Trigger {
                pin: "b".to_owned(),
                edge: EdgeMode::Falling,
            },
        )
        .with(
            "C".to_owned(),
            TargetConfigRequest::Output {
                pin: PinSelector::single("c".to_owned()).expect("pin"),
                drive: Some(DriveMode::OpenDrain),
                initial: None,
                final_value: None,
            },
        );
    let (_, devices) = InitializedSession::initialize("init-1".to_owned(), &request, &pins)
        .expect("initialize");
    let config = &devices[0].1;
    let a = config.get_line_settings(0).expect("line 0");
    assert_eq!(a.get_direction(), LineDirection::Input);
    assert_eq!(a.get_bias(), LineBias::PullDown);
    assert_eq!(a.get_edge_detection(), LineEdge::NoEdge);
    let b = config.get_line_settings(1).expect("line 1");
    assert_eq!(b.get_direction(), LineDirection::Input);
    assert_eq!(b.get_edge_detection(), LineEdge::Falling);
    let c = config.get_line_settings(2).expect("line 2");
    assert_eq!(c.get_direction(), LineDirection::Output);
    assert_eq!(c.get_drive(), LineDrive::OpenDrain);
}

#[test]
fn outputs_without_initial_value_keep_their_levels() {
    let path = "/tmp/gpiochip0.xml";
    let pins = pin_map(&[("gpiochip0:2", path, 2), ("gpiochip0:3", path, 3)]);
    let request = NameMap::new().with(
        "OUT2".to_owned(),
        outputs(&["gpiochip0:2", "gpiochip0:3"], None, None),
    );
    let (_, devices) = InitializedSession::initialize("init-1".to_owned(), &request, &pins)
        .expect("initialize");
    let (state, request) = open_and_request(path, SAMPLE_XML, &devices[0].1).expect("request");
    assert_eq!(request.get_value(&state, 2), Ok(LineValue::Inactive));
    assert_eq!(request.get_value(&state, 3), Ok(LineValue::Active));
}

#[test]
fn the_last_target_of_a_line_sets_it() {
    let path = "/tmp/gpiochip0.xml";
    let pins = pin_map(&[("gpiochip0:2", path, 2)]);
    let request = NameMap::new()
        .with("A".to_owned(), outputs(&["gpiochip0:2"], Some(1), None))
        .with("B".to_owned(), outputs(&["gpiochip0:2"], Some(0), None));
    let (_, devices) = InitializedSession::initialize("init-1".to_owned(), &request, &pins)
        .expect("initialize");
    let (state, request) = open_and_request(path, SAMPLE_XML, &devices[0].1).expect("request");
    assert_eq!(request.get_value(&state, 2), Ok(LineValue::Inactive));
}

#[test]
fn a_list_of_one_pin_stays_a_list() {
    let path = "/tmp/gpiochip0.xml";
    let pins = pin_map(&[("gpiochip0:0", path, 0), ("gpiochip0:2", path, 2)]);
    let request = NameMap::new()
        .with("IN".to_owned(), input("gpiochip0:0"))
        .with("OUT".to_owned(), outputs(&["gpiochip0:2"], None, None));
    let (session, _) = InitializedSession::initialize("init-1".to_owned(), &request, &pins)
        .expect("initialize");
    let single = session.compiled_targets.target("IN").expect("IN");
    let listed = session.compiled_targets.target("OUT").expect("OUT");
    assert!(matches!(single.pins, ResolvedPins::Single(_)));
    assert!(matches!(listed.pins, ResolvedPins::Combined(_)));
}

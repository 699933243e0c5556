use gpiojsonsvc::names::NameMap;
use gpiojsonsvc::protocol::line::check_framing;
use gpiojsonsvc::protocol::line::parse_request_line;
use gpiojsonsvc::protocol::line::ProtocolError;
use gpiojsonsvc::protocol::line::RequestEnvelope;
use gpiojsonsvc::protocol::request::default_edge_mode;
use gpiojsonsvc::protocol::request::non_empty_string;
use gpiojsonsvc::protocol::request::EdgeMode;
use gpiojsonsvc::protocol::request::PinSelector;
use gpiojsonsvc::protocol::request::RequestFault;
use gpiojsonsvc::protocol::request::RequestMessage;
use gpiojsonsvc::protocol::request::RequestPayload;
use gpiojsonsvc::protocol::request::SetRequest;
use gpiojsonsvc::protocol::request::SetStepRequest;
use gpiojsonsvc::protocol::request::TargetConfigRequest;
use gpiojsonsvc::protocol::request::TargetListBuilder;
use gpiojsonsvc::protocol::request::TargetSelector;
use gpiojsonsvc::protocol::response::EventPayload;
use gpiojsonsvc::protocol::response::EventType;
use gpiojsonsvc::protocol::response::PinValuePayload;
use gpiojsonsvc::protocol::response::ResponseMessage;
use gpiojsonsvc::protocol::response::ResponseStatus;
use gpiojsonsvc::transport::describe_connection;
use gpiojsonsvc::transport::map_lines_codec_error;
use gpiojsonsvc::transport::LineFault;
use gpiojsonsvc::transport::ConnectionError;
use gpiojsonsvc::transport::UdsConnectionError;

fn names(values: &[&str]) -> Vec<String> {
    values.iter().map(|value| (*value).to_owned()).collect()
}

fn writes(values: &[(&str, u8)]) -> NameMap<u8> {
    let mut map = NameMap::new();
    for (name, value) in values {
        map = map.with((*name).to_owned(), *value);
    }
    map
}

fn envelope(id: &str, action: &str) -> Result<RequestEnvelope, String> {
    Ok(RequestEnvelope {
        id: id.to_owned(),
        action: action.to_owned(),
    })
}

fn get_message() -> RequestMessage {
    RequestMessage {
        id: "get-1".to_owned(),
        payload: RequestPayload::Get {
            target: TargetSelector::single("IN".to_owned()).expect("target"),
        },
    }
}

#[test]
fn combined_pins_are_kept_in_order() {
    let pin = PinSelector::combined(names(&["gpiochip0:3", "gpiochip1:4"])).expect("pins");
    match pin {
        PinSelector::Combined(pins) => {
            assert_eq!(pins.len(), 2);
            assert_eq!(pins.as_slice()[0], "gpiochip0:3");
            assert_eq!(pins.as_slice()[1], "gpiochip1:4");
        }
        other => panic!("expected combined pin selector, got {other:?}"),
    }
}

#[test]
fn at_most_eight_pins_are_combined() {
    let pins: Vec<String> = (0..9).map(|line| format!("gpiochip0:{line}")).collect();
    let error = PinSelector::combined(pins.clone()).expect_err("too many pins");
    assert!(error.message().contains("more than 8 pins"));
    let eight = PinSelector::combined(pins[..8].to_vec()).expect("eight pins");
    assert_eq!(eight.len(), 8);
    assert_eq!(
        PinSelector::combined(vec![]).expect_err("no pins"),
        RequestFault::EmptyPinList
    );
    assert_eq!(
        PinSelector::combined(names(&["a", ""])).expect_err("blank pin"),
        RequestFault::EmptyPinName
    );
    assert!(PinSelector::single(String::new()).is_err());
}

#[test]
fn steps_after_the_first_have_a_lag() {
    let step = |lag| SetStepRequest::new(lag, writes(&[("GPIO4_B6", 1)])).expect("step");
    let error = SetRequest::steps(vec![step(0), step(0)]).expect_err("missing lag");
    assert_eq!(error, RequestFault::MissingStepLag(1));
    assert_eq!(error.message(), "set target[1] must include lag");
    assert_eq!(
        SetRequest::steps(vec![step(5)]).expect_err("first lag"),
        RequestFault::FirstStepLag
    );
    assert_eq!(
        SetRequest::steps(vec![]).expect_err("no steps"),
        RequestFault::EmptySetSteps
    );
    assert_eq!(
        SetStepRequest::new(0, NameMap::new()).expect_err("no values"),
        RequestFault::EmptySetStep
    );
    match SetRequest::steps(vec![step(0), step(100)]).expect("steps") {
        SetRequest::Steps(steps) => {
            assert_eq!(steps.len(), 2);
            assert_eq!(steps[0].lag, 0);
            assert_eq!(steps[1].lag, 100);
            assert_eq!(steps[1].target.get("GPIO4_B6"), Some(&1));
        }
        other => panic!("expected steps request, got {other:?}"),
    }
}

#[test]
fn an_immediate_set_names_a_target() {
    let error = SetRequest::immediate(NameMap::new()).expect_err("empty");
    assert!(error
        .message()
        .contains("set target object must contain at least one target value"));
    match SetRequest::immediate(writes(&[("GPIO4_B5", 1), ("GPIO4_B6", 2)])).expect("set") {
        SetRequest::Immediate(target) => {
            assert_eq!(target.get("GPIO4_B5"), Some(&1));
            assert_eq!(target.get("GPIO4_B6"), Some(&2));
        }
        other => panic!("expected immediate request, got {other:?}"),
    }
}

#[test]
fn target_lists_are_checked_name_by_name() {
    let mut builder = TargetListBuilder::new();
    builder.push("GPIO4_B3".to_owned()).expect("first");
    builder.push("CombinedIN2".to_owned()).expect("second");
    assert_eq!(
        builder.push("  ".to_owned()),
        Err(RequestFault::EmptyTargetName)
    );
    let target = builder.finish().expect("targets");
    assert_eq!(target.as_slice(), vec!["GPIO4_B3", "CombinedIN2"]);
    assert_eq!(
        TargetListBuilder::new().finish().expect_err("no targets"),
        RequestFault::EmptyTargetList
    );
    assert!(TargetSelector::single(String::new()).is_err());
}

#[test]
fn trigger_pins_are_not_blank() {
    assert_eq!(non_empty_string("p".to_owned()), Ok("p".to_owned()));
    let error = non_empty_string(" \u{3000}".to_owned()).expect_err("blank");
    assert_eq!(error.message(), "string value must not be empty");
    assert_eq!(default_edge_mode(), EdgeMode::Rising);
    let trigger = TargetConfigRequest::Trigger {
        pin: "p".to_owned(),
        edge: EdgeMode::Both,
    };
    assert_eq!(trigger.pins(), vec!["p"]);
}

#[test]
fn a_line_is_checked_before_its_request() {
    let line = r#"{"id":"get-1","action":"get","target":"IN"}"#;
    let accepted = parse_request_line(line, envelope("get-1", "get"), Ok(get_message()));
    assert_eq!(accepted, Ok(get_message()));
    assert_eq!(accepted.expect("request").id(), "get-1");

    let broken = parse_request_line("{}\r", envelope("get-1", "get"), Ok(get_message()));
    assert_eq!(broken, Err(ProtocolError::InvalidFraming));
    assert_eq!(check_framing("a\nb"), Err(ProtocolError::InvalidFraming));

    let unread = parse_request_line("{", Err("EOF".to_owned()), Ok(get_message()));
    assert_eq!(
        unread.expect_err("not JSON").message(),
        "invalid JSON: EOF"
    );

    let unnamed = parse_request_line("{}", envelope(" ", "other"), Ok(get_message()));
    assert_eq!(
        unnamed.expect_err("no id").message(),
        "protocol validation failed: request id must not be empty"
    );

    let unknown = parse_request_line("{}", envelope("1", "Get"), Ok(get_message()));
    assert_eq!(
        unknown.expect_err("unknown action").message(),
        "request action `Get` is not supported"
    );

    let invalid = parse_request_line("{}", envelope("1", "set"), Err("missing".to_owned()));
    assert_eq!(
        invalid,
        Err(ProtocolError::InvalidJson("missing".to_owned()))
    );
}

#[test]
fn responses_carry_the_request_id() {
    assert_eq!(ResponseMessage::ok("req-1").status, ResponseStatus::Done);
    let value = ResponseMessage::pin_value("get-1", PinValuePayload::Value(1));
    assert_eq!(value.id, "get-1");
    let event = EventPayload {
        target: "TRIG".to_owned(),
        kind: EventType::Rising,
    };
    let response = ResponseMessage::event("init-1", event.clone());
    assert_eq!(response.status, ResponseStatus::Event { event });
}

#[test]
fn connection_errors_are_told_apart() {
    let protocol = UdsConnectionError::Protocol(ProtocolError::InvalidFraming);
    assert!(protocol.is_protocol_error());
    assert!(!protocol.is_transport_error());
    assert!(protocol.try_into_io_error().is_err());
    let too_long = map_lines_codec_error(LineFault::TooLong);
    assert_eq!(
        too_long.message(),
        "transport error: maximum line length exceeded"
    );
    let io = map_lines_codec_error(LineFault::Io("reset".to_owned()));
    assert!(io.is_transport_error());
    assert_eq!(io.try_into_io_error(), Ok("reset".to_owned()));
    assert_eq!(
        describe_connection(Some("/tmp/s".to_owned()), None),
        "uds local=/tmp/s peer=unnamed"
    );
}

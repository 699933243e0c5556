use gpiojsonsvc::gpio::libgpiod::GPIOError;
use gpiojsonsvc::gpio::libgpiod::LineBias;
use gpiojsonsvc::gpio::libgpiod::LineClock;
use gpiojsonsvc::gpio::libgpiod::LineDirection;
use gpiojsonsvc::gpio::libgpiod::LineDrive;
use gpiojsonsvc::gpio::libgpiod::LineEdge;
use gpiojsonsvc::gpio::libgpiod::LineValue;
use gpiojsonsvc::gpio::libgpiod::WaitStatus;
use gpiojsonsvc::gpio::sys::convert::check_c_text;
use gpiojsonsvc::gpio::sys::convert::check_event_index;
use gpiojsonsvc::gpio::sys::convert::check_lengths;
use gpiojsonsvc::gpio::sys::convert::check_read_limit;
use gpiojsonsvc::gpio::sys::convert::check_status;
use gpiojsonsvc::gpio::sys::convert::line_bias_from_c;
use gpiojsonsvc::gpio::sys::convert::line_bias_to_c;
use gpiojsonsvc::gpio::sys::convert::line_clock_from_c;
use gpiojsonsvc::gpio::sys::convert::line_clock_to_c;
use gpiojsonsvc::gpio::sys::convert::line_direction_from_c;
use gpiojsonsvc::gpio::sys::convert::line_direction_to_c;
use gpiojsonsvc::gpio::sys::convert::line_drive_from_c;
use gpiojsonsvc::gpio::sys::convert::line_drive_to_c;
use gpiojsonsvc::gpio::sys::convert::line_edge_from_c;
use gpiojsonsvc::gpio::sys::convert::line_edge_to_c;
use gpiojsonsvc::gpio::sys::convert::line_name_not_found_or_errno;
use gpiojsonsvc::gpio::sys::convert::line_value_from_c;
use gpiojsonsvc::gpio::sys::convert::line_value_to_c;
use gpiojsonsvc::gpio::sys::convert::require_inactive_or_active;
use gpiojsonsvc::gpio::sys::convert::timeout_ns_to_c;
use gpiojsonsvc::gpio::sys::convert::wait_status;
use gpiojsonsvc::gpio::sys::convert::RawLineValue;
use gpiojsonsvc::gpio::sys::convert::LINE_VALUE_ACTIVE;
use gpiojsonsvc::gpio::sys::convert::LINE_VALUE_ERROR;

#[test]
fn wait_status_maps_c_return_codes() {
    assert_eq!(wait_status(0, "wait", "os").unwrap(), WaitStatus::Timeout);
    assert_eq!(
        wait_status(1, "wait", "os").unwrap(),
        WaitStatus::EventPending
    );
    assert!(wait_status(-1, "wait", "os").is_err());
}

#[test]
fn timeout_none_is_negative_one() {
    assert_eq!(timeout_ns_to_c(None), -1);
    assert_eq!(timeout_ns_to_c(Some(0)), 0);
    assert_eq!(timeout_ns_to_c(Some(42)), 42);
}

#[test]
fn cstring_rejects_interior_nul() {
    let error = check_c_text("a\0b", "name").unwrap_err();
    assert!(matches!(error, GPIOError::InvalidArgument(_)));
}

#[test]
fn line_value_round_trips() {
    for value in [LineValue::Inactive, LineValue::Active] {
        assert_eq!(
            require_inactive_or_active(line_value_from_c(line_value_to_c(value)), "test", "os"),
            Ok(value)
        );
    }
    assert_eq!(
        line_value_from_c(LINE_VALUE_ERROR),
        RawLineValue::from_raw(LINE_VALUE_ERROR)
    );
    assert!(line_value_from_c(LINE_VALUE_ERROR).is_error());
    assert_eq!(line_value_from_c(2), RawLineValue::from_raw(2));
    assert_eq!(line_value_from_c(2).as_raw(), 2);
    assert!(
        require_inactive_or_active(RawLineValue::from_raw(LINE_VALUE_ERROR), "test", "os").is_err()
    );
    assert!(matches!(
        require_inactive_or_active(RawLineValue::from_raw(2), "test", "os"),
        Err(GPIOError::InvalidLineValue(2))
    ));
    assert_eq!(
        require_inactive_or_active(RawLineValue::from_raw(LINE_VALUE_ACTIVE), "test", "os")
            .unwrap(),
        LineValue::Active
    );
}

#[test]
fn direction_edge_bias_drive_clock_round_trip() {
    for value in [
        LineDirection::AsIs,
        LineDirection::Input,
        LineDirection::Output,
    ] {
        assert_eq!(line_direction_from_c(line_direction_to_c(value)), value);
    }
    for value in [
        LineEdge::NoEdge,
        LineEdge::Rising,
        LineEdge::Falling,
        LineEdge::Both,
    ] {
        assert_eq!(line_edge_from_c(line_edge_to_c(value)), value);
    }
    for value in [
        LineBias::AsIs,
        LineBias::Unknown,
        LineBias::Disabled,
        LineBias::PullUp,
        LineBias::PullDown,
    ] {
        assert_eq!(line_bias_from_c(line_bias_to_c(value)), value);
    }
    for value in [
        LineDrive::PushPull,
        LineDrive::OpenDrain,
        LineDrive::OpenSource,
    ] {
        assert_eq!(line_drive_from_c(line_drive_to_c(value)), value);
    }
    for value in [LineClock::Monotonic, LineClock::Realtime, LineClock::Hte] {
        assert_eq!(line_clock_from_c(line_clock_to_c(value)), value);
    }
}

#[test]
fn long_timeouts_are_the_longest_that_fit() {
    assert_eq!(timeout_ns_to_c(Some(i64::MAX as u64)), i64::MAX);
    assert_eq!(timeout_ns_to_c(Some(u64::MAX)), i64::MAX);
}

#[test]
fn failed_calls_name_what_failed() {
    assert_eq!(check_status(0, "set value", "EIO"), Ok(()));
    let error = check_status(-1, "set value", "EIO").unwrap_err();
    assert!(error.message().contains("set value"));
    assert!(error.message().contains("EIO"));
}

#[test]
fn lengths_and_limits_are_checked() {
    assert_eq!(check_lengths(2, 2), Ok(()));
    assert_eq!(
        check_lengths(2, 3),
        Err(GPIOError::LengthMismatch {
            expected: 2,
            actual: 3
        })
    );
    assert_eq!(check_read_limit(4, 4), Ok(()));
    assert!(check_read_limit(5, 4).is_err());
    assert_eq!(check_event_index(0, 1), Ok(()));
    assert!(check_event_index(1, 1).is_err());
    assert_eq!(check_c_text("name", "name"), Ok(()));
}

#[test]
fn missing_line_name_is_told_from_a_failed_call() {
    assert_eq!(
        line_name_not_found_or_errno("missing", true, "get line offset", "ENOENT"),
        GPIOError::LineNameNotFound("missing".to_owned())
    );
    let error = line_name_not_found_or_errno("missing", false, "get line offset", "EIO");
    assert!(error.message().contains("EIO"));
}

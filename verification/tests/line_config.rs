use gpiojsonsvc::gpio::libgpiod::EdgeEventType;
use gpiojsonsvc::gpio::libgpiod::LineDirection;
use gpiojsonsvc::gpio::libgpiod::LineValue;
use gpiojsonsvc::gpio::mock::config::default_edge_event_buffer_capacity;
use gpiojsonsvc::gpio::mock::config::MockLineConfig;
use gpiojsonsvc::gpio::mock::config::MockLineSettings;
use gpiojsonsvc::gpio::mock::events::MockEdgeEventBuffer;
use gpiojsonsvc::gpio::mock::events::MockEdgeEventRecord;
use gpiojsonsvc::gpio::traits::LineConfig;
use gpiojsonsvc::gpio::traits::LineSettings;


#[test]
fn line_config_preserves_assignment_order() {
    let mut config = MockLineConfig::new();
    let mut settings_a = MockLineSettings::new();
    settings_a.set_direction(LineDirection::Input).unwrap();
    let mut settings_b = MockLineSettings::new();
    settings_b.set_direction(LineDirection::Output).unwrap();

    config.add_line_settings(&[2, 0], &settings_a).unwrap();
    config.add_line_settings(&[1], &settings_b).unwrap();

    let mut offsets = [0; 3];
    let count = config.get_configured_offsets(&mut offsets);
    assert_eq!(count, 3);
    assert_eq!(offsets, [2, 0, 1]);
}

#[test]
fn default_output_value_is_unset() {
    let settings = MockLineSettings::new();
    assert_eq!(settings.configured_output_value(), None);
    assert_eq!(settings.get_output_value(), LineValue::Inactive);
}

#[test]
fn set_output_values_accepts_partial_and_extra_lengths() {
    let mut config = MockLineConfig::new();
    let settings = MockLineSettings::new();
    config.add_line_settings(&[0, 1, 2], &settings).unwrap();

    config
        .set_output_values(&[LineValue::Active])
        .expect("partial override");
    assert_eq!(
        config.configured_output_values(),
        Some(vec![LineValue::Active])
    );

    config
        .set_output_values(&[
            LineValue::Inactive,
            LineValue::Active,
            LineValue::Inactive,
            LineValue::Active,
        ])
        .expect("extra override values are stored");
    assert_eq!(
        config.configured_output_values(),
        Some(vec![
            LineValue::Inactive,
            LineValue::Active,
            LineValue::Inactive,
            LineValue::Active,
        ])
    );
}

#[test]
fn duplicate_offset_last_mapping_wins() {
    let mut config = MockLineConfig::new();
    let mut input = MockLineSettings::new();
    input.set_direction(LineDirection::Input).unwrap();
    let mut output = MockLineSettings::new();
    output.set_direction(LineDirection::Output).unwrap();

    config.add_line_settings(&[3], &input).unwrap();
    config.add_line_settings(&[3], &output).unwrap();

    assert_eq!(
        config.get_line_settings(3).unwrap().get_direction(),
        LineDirection::Output
    );

    let mut offsets = [0; 1];
    assert_eq!(config.get_configured_offsets(&mut offsets), 1);
    assert_eq!(offsets, [3]);
}


#[test]
fn edge_event_buffer_respects_capacity() {
    let mut buffer = MockEdgeEventBuffer::with_capacity(1);
    let record = MockEdgeEventRecord {
        event_type: EdgeEventType::RisingEdge,
        timestamp_ns: 1,
        line_offset: 0,
        global_seqno: 1,
        line_seqno: 1,
    };

    buffer.push_record(&record).unwrap();
    assert!(buffer.push_record(&record).is_err());
}

#[test]
fn default_buffer_capacity_matches_libgpiod_default() {
    assert_eq!(default_edge_event_buffer_capacity(0), 64);
    assert_eq!(default_edge_event_buffer_capacity(16), 16);
}

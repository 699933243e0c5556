use gpiojsonsvc::config::GPIODPinSpec;
use gpiojsonsvc::gpio::libgpiod::LineValue;
use gpiojsonsvc::gpio::mock::document::parse_chip_xml;
use gpiojsonsvc::gpio::mock::request::MockLineRequest;
use gpiojsonsvc::gpio::mock::state::open_chip_state;
use gpiojsonsvc::gpio::mock::state::MockChipState;
use gpiojsonsvc::names::NameMap;
use gpiojsonsvc::protocol::request::EdgeMode;
use gpiojsonsvc::protocol::request::PinSelector;
use gpiojsonsvc::protocol::request::TargetConfigRequest;
use gpiojsonsvc::protocol::request::TargetSelector;
use gpiojsonsvc::protocol::response::PinValuePayload;
use gpiojsonsvc::session::apply::apply_get_batch;
use gpiojsonsvc::session::apply::SessionChip;
use gpiojsonsvc::session::batch::CollectRule;
use gpiojsonsvc::session::batch::CombinedOffsets;
use gpiojsonsvc::session::execute::add_get_target;
use gpiojsonsvc::session::execute::add_set_target;
use gpiojsonsvc::session::execute::compile_get_batch;
use gpiojsonsvc::session::execute::compile_set_batch;
use gpiojsonsvc::session::execute::exceeds_width;
use gpiojsonsvc::session::execute::fold_get_results;
use gpiojsonsvc::session::initialized::InitializedSession;
use gpiojsonsvc::session::state::SessionError;

const SAMPLE_XML: &str = r#"<gpiochip id="gpiochip0" label="mock gpiochip0">
<line id="0" name="line0" direction="input" bias="pull_up">L</line>
<line id="1" name="line1" direction="input" bias="pull_down">H</line>
<line id="2" name="line2" direction="output" drive="push_pull">L</line>
<line id="3" name="line3" direction="output" drive="push_pull">H</line>
<line id="4" name="line4" direction="input">L</line>
</gpiochip>"#;

fn pin_map(path: &str, mappings: &[(&str, u32)]) -> NameMap<GPIODPinSpec> {
    let mut pins = NameMap::new();
    for (pin, line) in mappings {
        let spec = GPIODPinSpec {
            device: path.to_owned(),
            line: *line,
        };
        pins = pins.with((*pin).to_owned(), spec);
    }
    pins
}

fn writes(values: &[(&str, u8)]) -> NameMap<u8> {
    let mut map = NameMap::new();
    for (name, value) in values {
        map = map.with((*name).to_owned(), *value);
    }
    map
}

fn single(pin: &str) -> PinSelector {
    PinSelector::single(pin.to_owned()).expect("pin")
}

fn combined(pins: &[&str]) -> PinSelector {
    PinSelector::combined(pins.iter().map(|pin| (*pin).to_owned()).collect()).expect("pins")
}

fn sample_session() -> (InitializedSession, Vec<(MockChipState, MockLineRequest)>) {
    let path = "/tmp/gpiochip0.xml";
    let pins = pin_map(
        path,
        &[
            ("gpiochip0:0", 0),
            ("gpiochip0:1", 1),
            ("gpiochip0:2", 2),
            ("gpiochip0:3", 3),
            ("gpiochip0:4", 4),
        ],
    );
    let init_request = NameMap::new()
        .with(
            "IN".to_owned(),
            TargetConfigRequest::Input {
                pin: single("gpiochip0:0"),
                bias: None,
            },
        )
        .with(
            "IN2".to_owned(),
            TargetConfigRequest::Input {
                pin: combined(&["gpiochip0:1", "gpiochip0:0"]),
                bias: None,
            },
        )
        .with(
            "OUT".to_owned(),
            TargetConfigRequest::Output {
                pin: single("gpiochip0:2"),
                drive: None,
                initial: None,
                final_value: None,
            },
        )
        .with(
            "OUT2".to_owned(),
            TargetConfigRequest::Output {
                pin: combined(&["gpiochip0:2", "gpiochip0:3"]),
                drive: None,
                initial: None,
                final_value: None,
            },
        )
        .with(
            "TRIG".to_owned(),
            TargetConfigRequest::Trigger {
                pin: "gpiochip0:4".to_owned(),
                edge: EdgeMode::Both,
            },
        );
    let (session, devices) =
        InitializedSession::initialize("init-1".to_owned(), &init_request, &pins)
            .expect("initialize");
    let mut chips = Vec::new();
    for (device, config) in devices {
        let snapshot = parse_chip_xml(SAMPLE_XML).expect("chip xml");
        let mut state = open_chip_state(&device, snapshot);
        let (registration, _) = state.request_lines(None, &config).expect("request lines");
        let request = state.register_request(registration);
        chips.push((state, request));
    }
    (session, chips)
}

#[test]
fn compile_get_batch_collects_rules_for_single_and_combined_targets() {
    let (session, _) = sample_session();
    let batch = compile_get_batch(
        &session.compiled_targets,
        &vec!["IN", "IN2"],
        session.chip_count(),
    )
    .expect("compile get batch");

    assert_eq!(batch.offsets(0).expect("offsets"), &[0, 1, 0]);
    let rules = batch.attachments(0).expect("rules");
    assert_eq!(
        rules,
        &[
            CollectRule {
                target_slot: 0,
                bit_index: 0,
            },
            CollectRule {
                target_slot: 1,
                bit_index: 1,
            },
            CollectRule {
                target_slot: 1,
                bit_index: 0,
            },
        ]
    );
}

#[test]
fn compile_get_batch_rejects_unknown_and_non_readable_targets() {
    let (session, _) = sample_session();
    assert!(matches!(
        compile_get_batch(&session.compiled_targets, &vec!["MISSING"], session.chip_count(),),
        Err(SessionError::UnknownTarget { .. })
    ));
    assert!(matches!(
        compile_get_batch(&session.compiled_targets, &vec!["OUT"], session.chip_count(),),
        Err(SessionError::TargetNotReadable { .. })
    ));
}

#[test]
fn compile_get_batch_allows_trigger_targets() {
    let (session, _) = sample_session();
    let batch = compile_get_batch(&session.compiled_targets, &vec!["TRIG"], session.chip_count())
        .expect("compile trigger get");
    assert_eq!(batch.offsets(0).expect("offsets"), &[4]);
    let target = session.compiled_targets.target("TRIG").expect("TRIG");
    assert!(target.is_event_capable());
    assert!(target.is_readable());
    assert!(!target.is_writable());
}

#[test]
fn compile_set_batch_packs_bits_for_combined_output_target() {
    let (session, _) = sample_session();
    let batch = compile_set_batch(
        &session.compiled_targets,
        &writes(&[("OUT2", 0b10)]),
        session.chip_count(),
    )
    .expect("compile set batch");

    assert_eq!(batch.offsets(0).expect("offsets"), &[2, 3]);
    assert_eq!(
        batch.attachments(0).expect("values"),
        &[LineValue::Active, LineValue::Inactive]
    );
}

#[test]
fn compile_set_batch_accumulates_multiple_targets_into_one_batch() {
    let (session, _) = sample_session();
    let batch = compile_set_batch(
        &session.compiled_targets,
        &writes(&[("OUT", 1), ("OUT2", 0b10)]),
        session.chip_count(),
    )
    .expect("compile set batch");

    assert_eq!(batch.offsets(0).expect("offsets"), &[2, 3]);
    assert_eq!(
        batch.attachments(0).expect("values"),
        &[LineValue::Active, LineValue::Inactive]
    );
}

#[test]
fn compile_set_batch_rejects_conflicting_writes_across_targets() {
    let (session, _) = sample_session();
    let error = compile_set_batch(
        &session.compiled_targets,
        &writes(&[("OUT", 0), ("OUT2", 0b10)]),
        session.chip_count(),
    )
    .expect_err("conflicting writes");
    assert!(matches!(error, SessionError::Other(_)));
    assert!(error.message().contains("conflicting set values"));
}

#[test]
fn add_set_target_appends_to_existing_batch() {
    let (session, _) = sample_session();
    let mut batch = CombinedOffsets::new(session.chip_count());
    add_set_target(&mut batch, &session.compiled_targets, "OUT", 1).expect("first write");
    add_set_target(&mut batch, &session.compiled_targets, "OUT2", 0b10).expect("second write");
    assert_eq!(batch.offsets(0).expect("offsets"), &[2, 3]);
}

#[test]
fn add_get_target_appends_to_existing_batch() {
    let (session, _) = sample_session();
    let mut batch = CombinedOffsets::new(session.chip_count());
    add_get_target(&mut batch, &session.compiled_targets, 0, "IN").expect("first");
    add_get_target(&mut batch, &session.compiled_targets, 1, "IN2").expect("second");
    assert_eq!(batch.offsets(0).expect("offsets"), &[0, 1, 0]);
}

#[test]
fn compile_set_batch_rejects_out_of_range_values() {
    let (session, _) = sample_session();
    assert!(matches!(
        compile_set_batch(
            &session.compiled_targets,
            &writes(&[("OUT2", 0b100)]),
            session.chip_count(),
        ),
        Err(SessionError::TargetValueOutOfRange { .. })
    ));
}

#[test]
fn fold_get_results_packs_single_and_multiple_targets() {
    let single = fold_get_results(
        &TargetSelector::Single("IN".to_owned()),
        &[(
            CollectRule {
                target_slot: 0,
                bit_index: 0,
            },
            LineValue::Inactive,
        )],
    );
    assert_eq!(single, PinValuePayload::Value(0));

    let combined = fold_get_results(
        &TargetSelector::Single("IN2".to_owned()),
        &[
            (
                CollectRule {
                    target_slot: 0,
                    bit_index: 1,
                },
                LineValue::Active,
            ),
            (
                CollectRule {
                    target_slot: 0,
                    bit_index: 0,
                },
                LineValue::Inactive,
            ),
        ],
    );
    assert_eq!(combined, PinValuePayload::Value(0b10));

    let multiple = fold_get_results(
        &TargetSelector::Multiple(vec!["IN".to_owned(), "IN2".to_owned()]),
        &[
            (
                CollectRule {
                    target_slot: 0,
                    bit_index: 0,
                },
                LineValue::Inactive,
            ),
            (
                CollectRule {
                    target_slot: 1,
                    bit_index: 1,
                },
                LineValue::Active,
            ),
            (
                CollectRule {
                    target_slot: 1,
                    bit_index: 0,
                },
                LineValue::Inactive,
            ),
        ],
    );
    assert_eq!(multiple, PinValuePayload::Values(vec![0, 0b10]));
}

#[test]
fn get_batch_reads_and_folds_mock_session_values() {
    let (session, chips) = sample_session();
    let selector = TargetSelector::Multiple(vec!["IN".to_owned(), "IN2".to_owned()]);
    let batch = compile_get_batch(
        &session.compiled_targets,
        &selector.as_slice(),
        session.chip_count(),
    )
    .expect("compile get batch");
    let views = chips
        .iter()
        .map(|(state, request)| SessionChip { state, request })
        .collect();
    let readings = apply_get_batch(&views, &batch).expect("apply get batch");
    let payload = fold_get_results(&selector, &readings);
    assert_eq!(payload, PinValuePayload::Values(vec![0, 0b10]));
}

#[test]
fn set_batch_writes_mock_session_outputs() {
    let (session, mut chips) = sample_session();
    let batch = compile_set_batch(
        &session.compiled_targets,
        &writes(&[("OUT2", 0b01)]),
        session.chip_count(),
    )
    .expect("compile set batch");

    for (chip_index, offsets, values) in batch.iter() {
        let (state, request) = &mut chips[chip_index as usize];
        request
            .set_values_subset(state, offsets, values)
            .expect("apply set batch");
    }

    assert_eq!(
        chips[0].1.get_value(&chips[0].0, 2).expect("line 2"),
        LineValue::Inactive
    );
    assert_eq!(
        chips[0].1.get_value(&chips[0].0, 3).expect("line 3"),
        LineValue::Active
    );
}

#[test]
fn values_fit_as_many_bits_as_there_are_pins() {
    assert!(!exceeds_width(1, 1));
    assert!(exceeds_width(1, 2));
    assert!(!exceeds_width(7, 127));
    assert!(exceeds_width(7, 128));
    assert!(!exceeds_width(8, 255));
}

#[test]
fn reading_a_line_of_a_released_request_fails() {
    let (session, mut chips) = sample_session();
    let batch = compile_get_batch(&session.compiled_targets, &vec!["IN"], session.chip_count())
        .expect("compile get batch");
    let id = chips[0].1.request_id;
    assert!(chips[0].0.release_request(id));
    let views = chips
        .iter()
        .map(|(state, request)| SessionChip { state, request })
        .collect();
    assert!(matches!(
        apply_get_batch(&views, &batch),
        Err(SessionError::GPIO(_))
    ));
}

use std::cell::RefCell;
use std::rc::Rc;

use gpiojsonsvc::gpio::libgpiod::EdgeEventType;
use gpiojsonsvc::gpio::libgpiod::GPIOError;
use gpiojsonsvc::gpio::libgpiod::LineBias;
use gpiojsonsvc::gpio::libgpiod::LineDirection;
use gpiojsonsvc::gpio::libgpiod::LineDrive;
use gpiojsonsvc::gpio::libgpiod::LineEdge;
use gpiojsonsvc::gpio::libgpiod::LineValue;
use gpiojsonsvc::gpio::mock::config::default_edge_event_buffer_capacity;
use gpiojsonsvc::gpio::mock::config::MockLineConfig;
use gpiojsonsvc::gpio::mock::config::MockLineSettings;
use gpiojsonsvc::gpio::mock::config::MockRequestConfig;
use gpiojsonsvc::gpio::mock::document::parse_chip_xml;
use gpiojsonsvc::gpio::mock::document::serialize_chip_xml;
use gpiojsonsvc::gpio::mock::events::MockEdgeEventBuffer;
use gpiojsonsvc::gpio::mock::info::MockChipInfo;
use gpiojsonsvc::gpio::mock::info::MockLineInfo;
use gpiojsonsvc::gpio::mock::log::parse_write_log_blocks;
use gpiojsonsvc::gpio::mock::log::write_dump_block;
use gpiojsonsvc::gpio::mock::request::MockLineRequest;
use gpiojsonsvc::gpio::mock::snapshot::LineLevel;
use gpiojsonsvc::gpio::mock::state::open_chip_state;
use gpiojsonsvc::gpio::mock::state::MockChipState;
use gpiojsonsvc::gpio::mock::watch::apply_external_file_diff;
use gpiojsonsvc::gpio::mock::watch::has_event_room;
use gpiojsonsvc::gpio::mock::watch::reload_from_disk;
use gpiojsonsvc::gpio::traits::ChipInfo;
use gpiojsonsvc::gpio::traits::EdgeEvent;
use gpiojsonsvc::gpio::traits::EdgeEventBuffer;
use gpiojsonsvc::gpio::traits::LineConfig;
use gpiojsonsvc::gpio::traits::LineInfo;
use gpiojsonsvc::gpio::traits::LineSettings;
use gpiojsonsvc::gpio::traits::RequestConfig;

const PATH: &str = "/tmp/gpiochip0.xml";

const SAMPLE_XML: &str = r#"<gpiochip id="gpiochip0" label="mock gpiochip0">
<line id="0" name="line0" direction="input" bias="pull_up">L</line>
<line id="1" name="line1" direction="output" drive="push_pull">H</line>
</gpiochip>"#;

/// The content of a chip file.
type ChipFile = Rc<RefCell<String>>;

/// An open chip over a file.
struct Chip {
    state: Rc<RefCell<MockChipState>>,
    file: ChipFile,
}

/// A request that is released when it goes out of scope.
#[derive(Debug)]
struct Request {
    state: Rc<RefCell<MockChipState>>,
    file: ChipFile,
    handle: MockLineRequest,
}

fn chip_file(contents: &str) -> ChipFile {
    Rc::new(RefCell::new(contents.to_owned()))
}

fn open_chip(file: &ChipFile) -> Chip {
    let snapshot = parse_chip_xml(&file.borrow()).expect("open chip");
    Chip {
        state: Rc::new(RefCell::new(open_chip_state(PATH, snapshot))),
        file: file.clone(),
    }
}

impl Chip {
    fn get_path(&self) -> String {
        self.state.borrow().path_string.clone()
    }

    fn get_info(&self) -> MockChipInfo {
        MockChipInfo::from_snapshot(&self.state.borrow().snapshot)
    }

    fn get_line_info(&self, offset: u32) -> Result<MockLineInfo, GPIOError> {
        self.state.borrow().get_line_info(offset)
    }

    fn request_lines(
        &self,
        req_cfg: Option<&MockRequestConfig>,
        line_cfg: &MockLineConfig,
    ) -> Result<Request, GPIOError> {
        let mut state = self.state.borrow_mut();
        let (registration, xml) = state.request_lines(req_cfg, line_cfg)?;
        *self.file.borrow_mut() = xml;
        let handle = state.register_request(registration);
        Ok(Request {
            state: self.state.clone(),
            file: self.file.clone(),
            handle,
        })
    }

    fn apply_external_file(&self, content: &str) {
        apply_external_file_diff(&mut self.state.borrow_mut(), content, 7);
    }
}

impl Request {
    fn get_chip_name(&self) -> &str {
        self.handle.get_chip_name()
    }

    fn get_num_requested_lines(&self) -> usize {
        self.handle.get_num_requested_lines()
    }

    fn get_requested_offsets(&self, out: &mut [u32]) -> usize {
        self.handle.get_requested_offsets(out)
    }

    fn get_value(&self, offset: u32) -> Result<LineValue, GPIOError> {
        self.handle.get_value(&self.state.borrow(), offset)
    }

    fn get_values_subset(&self, offsets: &[u32], values: &mut [LineValue]) -> Result<(), GPIOError> {
        self.handle
            .get_values_subset(&self.state.borrow(), offsets, values)
    }

    fn set_value(&self, offset: u32, value: LineValue) -> Result<(), GPIOError> {
        let xml = self
            .handle
            .set_value(&mut self.state.borrow_mut(), offset, value)?;
        *self.file.borrow_mut() = xml;
        Ok(())
    }

    fn set_values_subset(&self, offsets: &[u32], values: &[LineValue]) -> Result<(), GPIOError> {
        let xml = self
            .handle
            .set_values_subset(&mut self.state.borrow_mut(), offsets, values)?;
        *self.file.borrow_mut() = xml;
        Ok(())
    }

    fn read_edge_events(
        &self,
        buffer: &mut MockEdgeEventBuffer,
        max_events: usize,
    ) -> Result<usize, GPIOError> {
        self.handle
            .read_edge_events(&mut self.state.borrow_mut(), buffer, max_events)
    }
}

impl Drop for Request {
    fn drop(&mut self) {
        let mut state = self.state.borrow_mut();
        if state.release_request(self.handle.request_id) {
            if let Ok(xml) = serialize_chip_xml(&state.snapshot) {
                *self.file.borrow_mut() = xml;
            }
        }
    }
}

fn new_buffer() -> MockEdgeEventBuffer {
    MockEdgeEventBuffer::with_capacity(default_edge_event_buffer_capacity(0))
}

fn read_queued_events(request: &Request) -> (usize, MockEdgeEventBuffer) {
    let mut buffer = new_buffer();
    let count = request
        .read_edge_events(&mut buffer, 16)
        .expect("queued events");
    (count, buffer)
}

fn request_outputs(chip: &Chip, offsets: &[u32]) -> Request {
    let mut line_cfg = MockLineConfig::new();
    let mut output_settings = MockLineSettings::new();
    output_settings
        .set_direction(LineDirection::Output)
        .expect("direction");
    line_cfg
        .add_line_settings(offsets, &output_settings)
        .expect("configure outputs");
    chip.request_lines(None, &line_cfg).expect("request lines")
}

fn input_xml_with_level(level: &str) -> String {
    format!(
        r#"<gpiochip id="gpiochip0" label="mock gpiochip0">
<line id="0" name="line0" direction="input" bias="pull_up">{level}</line>
<line id="1" name="line1" direction="output" drive="push_pull">H</line>
</gpiochip>"#
    )
}

fn request_input_with_edge(chip: &Chip, edge: LineEdge) -> Request {
    let mut line_cfg = MockLineConfig::new();
    let mut settings = MockLineSettings::new();
    settings.set_edge_detection(edge).expect("edge detection");
    line_cfg
        .add_line_settings(&[0], &settings)
        .expect("configure input");
    chip.request_lines(None, &line_cfg).expect("request lines")
}

fn apply_external_input_level(chip: &Chip, level: &str) {
    chip.apply_external_file(&input_xml_with_level(level));
}

#[test]
fn parse_and_round_trip_sample_chip() {
    let snapshot = parse_chip_xml(SAMPLE_XML).expect("sample xml should parse");
    assert_eq!(snapshot.name, "gpiochip0");
    assert_eq!(snapshot.label, "mock gpiochip0");
    assert_eq!(snapshot.lines.len(), 2);

    let line0 = snapshot.lines.get(&0).expect("line 0");
    assert_eq!(line0.name, "line0");
    assert_eq!(line0.direction, LineDirection::Input);
    assert_eq!(line0.bias, LineBias::PullUp);
    assert_eq!(line0.persisted_level, LineLevel::Low);

    let line1 = snapshot.lines.get(&1).expect("line 1");
    assert_eq!(line1.direction, LineDirection::Output);
    assert_eq!(line1.drive, LineDrive::PushPull);
    assert_eq!(line1.persisted_level, LineLevel::High);

    let xml = serialize_chip_xml(&snapshot).expect("serialize");
    let round_trip = parse_chip_xml(&xml).expect("round trip");
    assert_eq!(round_trip, snapshot);
}

#[test]
fn reject_duplicate_line_ids() {
    let xml = r#"<gpiochip id="gpiochip0">
<line id="0" direction="input">L</line>
<line id="0" direction="output">H</line>
</gpiochip>"#;
    let error = parse_chip_xml(xml).unwrap_err();
    assert!(matches!(error, GPIOError::Other(_)));
}

#[test]
fn reject_input_line_with_drive() {
    let xml = r#"<gpiochip id="gpiochip0">
<line id="0" direction="input" drive="push_pull">L</line>
</gpiochip>"#;
    let error = parse_chip_xml(xml).unwrap_err();
    assert!(matches!(error, GPIOError::Other(_)));
}

#[test]
fn reject_output_line_with_bias() {
    let xml = r#"<gpiochip id="gpiochip0">
<line id="0" direction="output" bias="pull_up">L</line>
</gpiochip>"#;
    let error = parse_chip_xml(xml).unwrap_err();
    assert!(matches!(error, GPIOError::Other(_)));
}

#[test]
fn reject_invalid_level_text() {
    let xml = r#"<gpiochip id="gpiochip0">
<line id="0" direction="input">2</line>
</gpiochip>"#;
    let error = parse_chip_xml(xml).unwrap_err();
    assert!(matches!(error, GPIOError::Other(_)));
}

#[test]
fn reject_empty_chip_id() {
    let xml = r#"<gpiochip id="">
<line id="0" direction="input">L</line>
</gpiochip>"#;
    let error = parse_chip_xml(xml).unwrap_err();
    assert!(matches!(
        error,
        GPIOError::Other(message) if message.contains("id must not be empty")
    ));
}

#[test]
fn reject_unknown_root_element() {
    let xml = r#"<gpiochips>
<gpiochip id="gpiochip0">
    <line id="0" direction="input">L</line>
</gpiochip>
</gpiochips>"#;
    let error = parse_chip_xml(xml).unwrap_err();
    assert!(matches!(error, GPIOError::Other(_)));
}

#[test]
fn reject_unknown_line_attribute() {
    let xml = r#"<gpiochip id="gpiochip0">
<line id="0" direction="input" event="both">L</line>
</gpiochip>"#;
    let error = parse_chip_xml(xml).unwrap_err();
    assert!(matches!(error, GPIOError::Other(_)));
}

#[test]
fn normalize_missing_optional_attributes() {
    let xml = r#"<gpiochip id="gpiochip0">
<line id="0" direction="input">H</line>
<line id="1" direction="output">L</line>
</gpiochip>"#;
    let snapshot = parse_chip_xml(xml).expect("parse");
    let input = snapshot.lines.get(&0).expect("input line");
    assert!(input.name.is_empty());
    assert_eq!(input.bias, LineBias::Disabled);

    let output = snapshot.lines.get(&1).expect("output line");
    assert_eq!(output.drive, LineDrive::PushPull);
}

#[test]
fn open_chip_exposes_metadata_and_path() {
    let file = chip_file(SAMPLE_XML);
    let chip = open_chip(&file);

    assert_eq!(chip.get_path(), PATH);
    let info = chip.get_info();
    assert_eq!(info.get_name(), "gpiochip0");
    assert_eq!(info.get_label(), "mock gpiochip0");
    assert_eq!(info.get_num_lines(), 2);
}

#[test]
fn request_read_write_and_persist_output() {
    let file = chip_file(SAMPLE_XML);
    let chip = open_chip(&file);

    let mut line_cfg = MockLineConfig::new();
    let mut output_settings = MockLineSettings::new();
    output_settings
        .set_direction(LineDirection::Output)
        .expect("direction");
    line_cfg
        .add_line_settings(&[1], &output_settings)
        .expect("configure output");

    let request = chip.request_lines(None, &line_cfg).expect("request lines");
    assert_eq!(request.get_chip_name(), "gpiochip0");
    assert_eq!(request.get_num_requested_lines(), 1);

    let mut offsets = [0u32; 1];
    assert_eq!(request.get_requested_offsets(&mut offsets), 1);
    assert_eq!(offsets, [1]);

    assert_eq!(request.get_value(1).expect("read"), LineValue::Active);
    request
        .set_value(1, LineValue::Active)
        .expect("write output");
    assert_eq!(request.get_value(1).expect("read again"), LineValue::Active);

    let persisted = file.borrow().clone();
    let snapshot = parse_chip_xml(&persisted).expect("parse persisted");
    assert_eq!(
        snapshot.lines.get(&1).expect("line 1").persisted_level,
        LineLevel::High
    );
}

#[test]
fn request_lines_materializes_per_line_output_value_without_set_output_values() {
    let file = chip_file(SAMPLE_XML);
    let chip = open_chip(&file);

    let mut line_cfg = MockLineConfig::new();
    let mut output_settings = MockLineSettings::new();
    output_settings
        .set_direction(LineDirection::Output)
        .expect("direction");
    output_settings
        .set_output_value(LineValue::Active)
        .expect("output value");
    line_cfg
        .add_line_settings(&[1], &output_settings)
        .expect("configure output");

    let request = chip.request_lines(None, &line_cfg).expect("request lines");
    assert_eq!(request.get_value(1).expect("read"), LineValue::Active);

    let persisted = file.borrow().clone();
    let snapshot = parse_chip_xml(&persisted).expect("parse persisted");
    assert_eq!(
        snapshot.lines.get(&1).expect("line 1").persisted_level,
        LineLevel::High
    );
}

#[test]
fn set_output_values_override_per_line_output_value_defaults() {
    let file = chip_file(SAMPLE_XML);
    let chip = open_chip(&file);

    let mut line_cfg = MockLineConfig::new();
    let mut output_settings = MockLineSettings::new();
    output_settings
        .set_direction(LineDirection::Output)
        .expect("direction");
    output_settings
        .set_output_value(LineValue::Active)
        .expect("output value");
    line_cfg
        .add_line_settings(&[1], &output_settings)
        .expect("configure output");
    line_cfg
        .set_output_values(&[LineValue::Inactive])
        .expect("override output values");

    let request = chip.request_lines(None, &line_cfg).expect("request lines");
    assert_eq!(request.get_value(1).expect("read"), LineValue::Inactive);

    let persisted = file.borrow().clone();
    let snapshot = parse_chip_xml(&persisted).expect("parse persisted");
    assert_eq!(
        snapshot.lines.get(&1).expect("line 1").persisted_level,
        LineLevel::Low
    );
}

#[test]
fn request_keeps_stored_output_level_without_output_value() {
    let file = chip_file(SAMPLE_XML);
    let chip = open_chip(&file);

    let mut line_cfg = MockLineConfig::new();
    let mut output_settings = MockLineSettings::new();
    output_settings
        .set_direction(LineDirection::Output)
        .expect("direction");
    line_cfg
        .add_line_settings(&[1], &output_settings)
        .expect("configure output");

    let request = chip.request_lines(None, &line_cfg).expect("request lines");
    assert_eq!(request.get_value(1).expect("read"), LineValue::Active);

    let persisted = file.borrow().clone();
    let snapshot = parse_chip_xml(&persisted).expect("parse persisted");
    assert_eq!(
        snapshot.lines.get(&1).expect("line 1").persisted_level,
        LineLevel::High
    );
}

#[test]
fn partial_set_output_values_falls_back_to_per_line_defaults() {
    let xml = r#"<gpiochip id="gpiochip0" label="mock gpiochip0">
<line id="0" name="line0" direction="output" drive="push_pull">L</line>
<line id="1" name="line1" direction="output" drive="push_pull">H</line>
</gpiochip>"#;
    let file = chip_file(xml);
    let chip = open_chip(&file);

    let mut line_cfg = MockLineConfig::new();
    let mut first_output = MockLineSettings::new();
    first_output
        .set_direction(LineDirection::Output)
        .expect("direction");
    let mut second_output = MockLineSettings::new();
    second_output
        .set_direction(LineDirection::Output)
        .expect("direction");
    second_output
        .set_output_value(LineValue::Inactive)
        .expect("output value");
    line_cfg
        .add_line_settings(&[0, 1], &first_output)
        .expect("configure first output");
    line_cfg
        .add_line_settings(&[1], &second_output)
        .expect("configure second output");
    line_cfg
        .set_output_values(&[LineValue::Active])
        .expect("override first output only");

    let request = chip.request_lines(None, &line_cfg).expect("request lines");
    assert_eq!(request.get_value(0).expect("line 0"), LineValue::Active);
    assert_eq!(request.get_value(1).expect("line 1"), LineValue::Inactive);

    let persisted = file.borrow().clone();
    let snapshot = parse_chip_xml(&persisted).expect("parse persisted");
    assert_eq!(
        snapshot.lines.get(&0).expect("line 0").persisted_level,
        LineLevel::High
    );
    assert_eq!(
        snapshot.lines.get(&1).expect("line 1").persisted_level,
        LineLevel::Low
    );
}

#[test]
fn active_low_inverts_materialized_output_default() {
    let file = chip_file(SAMPLE_XML);
    let chip = open_chip(&file);

    let mut line_cfg = MockLineConfig::new();
    let mut output_settings = MockLineSettings::new();
    output_settings
        .set_direction(LineDirection::Output)
        .expect("direction");
    output_settings.set_active_low(true);
    output_settings
        .set_output_value(LineValue::Active)
        .expect("output value");
    line_cfg
        .add_line_settings(&[1], &output_settings)
        .expect("configure output");

    let request = chip.request_lines(None, &line_cfg).expect("request lines");
    assert_eq!(request.get_value(1).expect("read"), LineValue::Active);

    let persisted = file.borrow().clone();
    let snapshot = parse_chip_xml(&persisted).expect("parse persisted");
    assert_eq!(
        snapshot.lines.get(&1).expect("line 1").persisted_level,
        LineLevel::Low
    );
}

#[test]
fn set_values_subset_persists_output_levels() {
    let xml = r#"<gpiochip id="gpiochip0" label="mock gpiochip0">
<line id="0" name="line0" direction="output" drive="push_pull">L</line>
<line id="1" name="line1" direction="output" drive="push_pull">H</line>
</gpiochip>"#;
    let file = chip_file(xml);
    let chip = open_chip(&file);

    let mut line_cfg = MockLineConfig::new();
    let mut output_settings = MockLineSettings::new();
    output_settings
        .set_direction(LineDirection::Output)
        .expect("direction");
    line_cfg
        .add_line_settings(&[0, 1], &output_settings)
        .expect("configure outputs");

    let request = chip.request_lines(None, &line_cfg).expect("request lines");

    request
        .set_values_subset(&[1, 0], &[LineValue::Inactive, LineValue::Active])
        .expect("write subset");

    let mut values = [LineValue::Inactive; 2];
    request
        .get_values_subset(&[1, 0], &mut values)
        .expect("read subset");
    assert_eq!(values, [LineValue::Inactive, LineValue::Active]);

    let persisted = file.borrow().clone();
    let snapshot = parse_chip_xml(&persisted).expect("parse persisted");
    assert_eq!(
        snapshot.lines.get(&0).expect("line 0").persisted_level,
        LineLevel::High
    );
    assert_eq!(
        snapshot.lines.get(&1).expect("line 1").persisted_level,
        LineLevel::Low
    );
}

#[test]
fn line_info_reports_consumer_while_requested() {
    let file = chip_file(SAMPLE_XML);
    let chip = open_chip(&file);

    let mut line_cfg = MockLineConfig::new();
    let settings = MockLineSettings::new();
    line_cfg
        .add_line_settings(&[0], &settings)
        .expect("configure line 0");

    let mut req_cfg = MockRequestConfig::new();
    req_cfg.set_consumer("test-consumer");

    {
        let _request = chip
            .request_lines(Some(&req_cfg), &line_cfg)
            .expect("request lines");

        let line_info = chip.get_line_info(0).expect("line info");
        assert!(line_info.is_used());
        assert_eq!(line_info.get_consumer(), Some("test-consumer"));

        let persisted = file.borrow().clone();
        let snapshot = parse_chip_xml(&persisted).expect("parse persisted");
        assert_eq!(
            snapshot.lines.get(&0).expect("line 0").consumer,
            "test-consumer"
        );
    }

    let persisted = file.borrow().clone();
    let snapshot = parse_chip_xml(&persisted).expect("parse persisted after drop");
    assert!(snapshot.lines.get(&0).expect("line 0").consumer.is_empty());
}

#[test]
fn overlapping_requests_are_rejected() {
    let file = chip_file(SAMPLE_XML);
    let chip = open_chip(&file);

    let mut line_cfg = MockLineConfig::new();
    let settings = MockLineSettings::new();
    line_cfg
        .add_line_settings(&[0], &settings)
        .expect("configure line 0");

    let _first = chip.request_lines(None, &line_cfg).expect("first request");
    let error = chip.request_lines(None, &line_cfg).unwrap_err();
    assert!(matches!(
        error,
        GPIOError::Other(message) if message.contains("already requested")
    ));
}

#[test]
fn partial_overlap_requests_are_rejected() {
    let file = chip_file(SAMPLE_XML);
    let chip = open_chip(&file);

    let mut first_cfg = MockLineConfig::new();
    let settings = MockLineSettings::new();
    first_cfg
        .add_line_settings(&[0], &settings)
        .expect("configure line 0");
    let _first = chip.request_lines(None, &first_cfg).expect("first request");

    let mut second_cfg = MockLineConfig::new();
    second_cfg
        .add_line_settings(&[0, 1], &settings)
        .expect("configure lines 0 and 1");
    let error = chip.request_lines(None, &second_cfg).unwrap_err();
    assert!(matches!(
        error,
        GPIOError::Other(message) if message.contains("already requested")
    ));
}

#[test]
fn dropped_request_releases_exclusive_lines() {
    let file = chip_file(SAMPLE_XML);
    let chip = open_chip(&file);

    let mut line_cfg = MockLineConfig::new();
    let settings = MockLineSettings::new();
    line_cfg
        .add_line_settings(&[0], &settings)
        .expect("configure line 0");

    {
        let _first = chip.request_lines(None, &line_cfg).expect("first request");
        let line_info = chip.get_line_info(0).expect("line info");
        assert!(line_info.is_used());
    }

    let line_info = chip.get_line_info(0).expect("line info after drop");
    assert!(!line_info.is_used());

    chip.request_lines(None, &line_cfg)
        .expect("second request after drop");
}

#[test]
fn empty_line_config_is_rejected() {
    let file = chip_file(SAMPLE_XML);
    let chip = open_chip(&file);
    let line_cfg = MockLineConfig::new();
    let error = chip.request_lines(None, &line_cfg).unwrap_err();
    assert!(matches!(error, GPIOError::EmptyLineConfig));
}

#[test]
fn get_requested_offsets_follows_line_config_order() {
    let file = chip_file(SAMPLE_XML);
    let chip = open_chip(&file);

    let mut line_cfg = MockLineConfig::new();
    let mut input_settings = MockLineSettings::new();
    input_settings
        .set_direction(LineDirection::Input)
        .expect("direction");
    let mut output_settings = MockLineSettings::new();
    output_settings
        .set_direction(LineDirection::Output)
        .expect("direction");
    line_cfg
        .add_line_settings(&[1], &output_settings)
        .expect("configure output");
    line_cfg
        .add_line_settings(&[0], &input_settings)
        .expect("configure input");

    let request = chip.request_lines(None, &line_cfg).expect("request lines");

    let mut offsets = [0u32; 2];
    assert_eq!(request.get_requested_offsets(&mut offsets), 2);
    assert_eq!(offsets, [1, 0]);
}

#[test]
fn request_lines_persists_property_changes_without_output_values() {
    let file = chip_file(SAMPLE_XML);
    let chip = open_chip(&file);

    let mut line_cfg = MockLineConfig::new();
    let mut input_settings = MockLineSettings::new();
    input_settings
        .set_direction(LineDirection::Input)
        .expect("direction");
    input_settings.set_bias(LineBias::PullDown).expect("bias");
    line_cfg
        .add_line_settings(&[0], &input_settings)
        .expect("configure input");

    let _request = chip.request_lines(None, &line_cfg).expect("request lines");

    let persisted = file.borrow().clone();
    let snapshot = parse_chip_xml(&persisted).expect("parse persisted");
    let line = snapshot.lines.get(&0).expect("line 0");
    assert_eq!(line.direction, LineDirection::Input);
    assert_eq!(line.bias, LineBias::PullDown);
}

#[test]
fn active_low_inverts_logical_values() {
    let file = chip_file(SAMPLE_XML);
    let chip = open_chip(&file);

    let mut line_cfg = MockLineConfig::new();
    let mut settings = MockLineSettings::new();
    settings.set_active_low(true);
    line_cfg
        .add_line_settings(&[0], &settings)
        .expect("configure input");

    let request = chip.request_lines(None, &line_cfg).expect("request lines");
    assert_eq!(request.get_value(0).expect("read"), LineValue::Active);

    let persisted = file.borrow().clone();
    let snapshot = parse_chip_xml(&persisted).expect("parse persisted");
    assert!(snapshot.lines.get(&0).expect("line 0").active_low);
}

#[test]
fn external_file_reload_ignores_metadata_and_active_low_edits() {
    let xml = r#"<gpiochip id="gpiochip0" label="mock gpiochip0">
<line id="0" name="line0" direction="input" bias="pull_up" active_low="false">L</line>
<line id="1" name="line1" direction="output" drive="push_pull" active_low="false">H</line>
</gpiochip>"#;
    let file = chip_file(xml);
    let chip = open_chip(&file);
    let request = request_input_with_edge(&chip, LineEdge::Both);

    let metadata_edit = r#"<gpiochip id="gpiochip0" label="renamed chip">
<line id="0" name="renamed" direction="output" drive="push_pull" active_low="true">L</line>
<line id="1" name="renamed-out" direction="input" bias="pull_down" active_low="true">H</line>
</gpiochip>"#;
    chip.apply_external_file(metadata_edit);

    let mut buffer = new_buffer();
    let error = request.read_edge_events(&mut buffer, 16).unwrap_err();
    assert!(matches!(error, GPIOError::Other(message) if message.contains("no edge events")));

    let snapshot = parse_chip_xml(&file.borrow().clone()).expect("parse");
    let line0 = snapshot.lines.get(&0).expect("line 0");
    assert_eq!(line0.name, "line0");
    assert_eq!(line0.direction, LineDirection::Input);
    assert_eq!(line0.bias, LineBias::PullUp);
    assert!(!line0.active_low);
    assert_eq!(line0.persisted_level, LineLevel::Low);
    let line1 = snapshot.lines.get(&1).expect("line 1");
    assert_eq!(line1.direction, LineDirection::Output);
    assert!(!line1.active_low);
    assert_eq!(line1.persisted_level, LineLevel::High);
}

#[test]
fn active_low_xml_load_and_persist_round_trip() {
    let xml = r#"<gpiochip id="gpiochip0">
<line id="0" direction="input" bias="disabled" active_low="true">L</line>
<line id="1" direction="output" drive="push_pull" active_low="true">L</line>
</gpiochip>"#;
    let snapshot = parse_chip_xml(xml).expect("parse");
    assert!(snapshot.lines.get(&0).expect("line 0").active_low);
    assert_eq!(
        snapshot.lines.get(&0).expect("line 0").persisted_level,
        LineLevel::Low
    );
    assert!(snapshot.lines.get(&1).expect("line 1").active_low);
    assert_eq!(
        snapshot.lines.get(&1).expect("line 1").persisted_level,
        LineLevel::Low
    );

    let serialized = serialize_chip_xml(&snapshot).expect("serialize");
    assert!(serialized.contains(r#"active_low="true"#));
    let round_trip = parse_chip_xml(&serialized).expect("round trip");
    assert_eq!(round_trip, snapshot);
}

#[test]
fn read_edge_events_errors_when_queue_empty() {
    let file = chip_file(SAMPLE_XML);
    let chip = open_chip(&file);
    let request = request_input_with_edge(&chip, LineEdge::Both);

    let mut buffer = new_buffer();
    let error = request.read_edge_events(&mut buffer, 16).unwrap_err();
    assert!(matches!(error, GPIOError::Other(message) if message.contains("no edge events")));
}

#[test]
fn external_input_change_produces_edge_event() {
    let file = chip_file(&input_xml_with_level("L"));
    let chip = open_chip(&file);
    let request = request_input_with_edge(&chip, LineEdge::Both);

    *file.borrow_mut() = input_xml_with_level("H");
    apply_external_input_level(&chip, "H");

    let (count, _) = read_queued_events(&request);
    assert_eq!(count, 1);

    let mut buffer = new_buffer();
    let error = request.read_edge_events(&mut buffer, 16).unwrap_err();
    assert!(matches!(error, GPIOError::Other(message) if message.contains("no edge events")));
}

#[test]
fn edge_detection_filters_transitions() {
    let file = chip_file(&input_xml_with_level("H"));
    let chip = open_chip(&file);
    let request = request_input_with_edge(&chip, LineEdge::Rising);

    *file.borrow_mut() = input_xml_with_level("L");
    apply_external_input_level(&chip, "L");

    let mut buffer = new_buffer();
    let error = request.read_edge_events(&mut buffer, 16).unwrap_err();
    assert!(matches!(error, GPIOError::Other(message) if message.contains("no edge events")));

    *file.borrow_mut() = input_xml_with_level("H");
    apply_external_input_level(&chip, "H");
    let (count, buffer) = read_queued_events(&request);
    assert_eq!(count, 1);
    let event = buffer.get_event(0).expect("event");
    assert_eq!(event.get_event_type(), EdgeEventType::RisingEdge);
    assert_eq!(event.get_line_offset(), 0);
}

#[test]
fn write_log_records_set_value_and_set_values_subset() {
    let xml = r#"<gpiochip id="gpiochip0" label="mock gpiochip0">
<line id="0" name="line0" direction="output" drive="push_pull">L</line>
<line id="1" name="line1" direction="output" drive="push_pull">H</line>
</gpiochip>"#;
    let file = chip_file(xml);
    let chip = open_chip(&file);
    let request = request_outputs(&chip, &[0, 1]);

    request.set_value(0, LineValue::Active).expect("set_value");
    let mut content = write_dump_block(1, &file.borrow());
    request
        .set_values_subset(&[1], &[LineValue::Inactive])
        .expect("set_values_subset");
    content.push_str(&write_dump_block(2, &file.borrow()));

    let blocks = parse_write_log_blocks(&content).expect("blocks");
    assert_eq!(blocks.len(), 2, "expected one dump per line write");
    assert!(
        blocks[0].0 <= blocks[1].0,
        "timestamps must be non-decreasing"
    );

    let first = parse_chip_xml(&blocks[0].1).expect("parse first dump");
    assert_eq!(
        first.lines.get(&0).expect("line 0").persisted_level,
        LineLevel::High
    );
    assert_eq!(
        first.lines.get(&1).expect("line 1").persisted_level,
        LineLevel::High
    );
    assert!(
        blocks[0].1.contains(">H</line>"),
        "first dump should reflect updated high level"
    );

    let second = parse_chip_xml(&blocks[1].1).expect("parse second dump");
    assert_eq!(
        second.lines.get(&0).expect("line 0").persisted_level,
        LineLevel::High
    );
    assert_eq!(
        second.lines.get(&1).expect("line 1").persisted_level,
        LineLevel::Low
    );
    assert!(
        blocks[1].1.contains(">L</line>"),
        "second dump should reflect updated low level"
    );
}

#[test]
fn edges_are_numbered_and_timed() {
    let file = chip_file(&input_xml_with_level("L"));
    let chip = open_chip(&file);
    let request = request_input_with_edge(&chip, LineEdge::Both);
    assert!(has_event_room(&chip.state.borrow()));
    apply_external_input_level(&chip, "H");
    apply_external_input_level(&chip, "L");
    assert!(request.handle.has_pending_events(&chip.state.borrow()));
    let (count, buffer) = read_queued_events(&request);
    assert_eq!(count, 2);
    let rising = buffer.get_event(0).expect("first");
    let falling = buffer.get_event(1).expect("second");
    assert_eq!(rising.get_event_type(), EdgeEventType::RisingEdge);
    assert_eq!(falling.get_event_type(), EdgeEventType::FallingEdge);
    assert_eq!(rising.get_timestamp_ns(), 7);
    assert_eq!((rising.get_global_seqno(), rising.get_line_seqno()), (1, 1));
    assert_eq!((falling.get_global_seqno(), falling.get_line_seqno()), (2, 2));
    assert!(!request.handle.has_pending_events(&chip.state.borrow()));
}

#[test]
fn the_same_file_is_taken_over_once() {
    let file = chip_file(&input_xml_with_level("L"));
    let chip = open_chip(&file);
    let _request = request_input_with_edge(&chip, LineEdge::Both);
    let mut state = chip.state.borrow_mut();
    let mut previous = file.borrow().clone();
    let changed = input_xml_with_level("H");
    let told = reload_from_disk(&mut state, &mut previous, Ok(changed.clone()), 1);
    assert_eq!(told, vec![1]);
    assert_eq!(previous, changed);
    assert!(apply_external_file_diff(&mut state, &changed, 2).is_empty());
    assert!(reload_from_disk(&mut state, &mut previous, Ok(changed), 3).is_empty());
    assert_eq!(state.watcher_error, None);
    drop(state);
}

#[test]
fn an_unreadable_file_leaves_an_error() {
    let file = chip_file(&input_xml_with_level("L"));
    let chip = open_chip(&file);
    let mut state = chip.state.borrow_mut();
    let mut previous = file.borrow().clone();
    let told = reload_from_disk(&mut state, &mut previous, Err("gone".to_owned()), 1);
    assert!(told.is_empty());
    assert_eq!(
        state.watcher_error.as_deref(),
        Some("failed to reload /tmp/gpiochip0.xml: gone")
    );
    let changed = input_xml_with_level("H");
    reload_from_disk(&mut state, &mut previous, Ok(changed), 2);
    assert_eq!(state.snapshot.lines[&0].persisted_level, LineLevel::Low);
}

#[test]
fn inputs_are_not_driven() {
    let file = chip_file(SAMPLE_XML);
    let chip = open_chip(&file);
    let request = request_input_with_edge(&chip, LineEdge::NoEdge);
    assert_eq!(
        request.set_value(0, LineValue::Active),
        Err(GPIOError::Other(
            "write to non-output line at offset 0".to_owned()
        ))
    );
    assert_eq!(
        request.get_value(1),
        Err(GPIOError::UnconfiguredOffset { offset: 1 })
    );
    assert_eq!(
        request.set_values_subset(&[0], &[]),
        Err(GPIOError::LengthMismatch {
            expected: 1,
            actual: 0
        })
    );
}

#[test]
fn texts_with_markup_are_kept() {
    let xml = "<gpiochip id=\"a&amp;b\" label=\"&lt;&quot;x&quot;&gt;\"><line id=\"3\" name=\"n'1\" direction=\"input\">L</line></gpiochip>";
    let snapshot = parse_chip_xml(xml).expect("parse");
    assert_eq!(snapshot.name, "a&b");
    assert_eq!(snapshot.label, "<\"x\">");
    assert_eq!(snapshot.lines[&3].name, "n'1");
    let written = serialize_chip_xml(&snapshot).expect("serialize");
    assert_eq!(parse_chip_xml(&written).expect("parse again"), snapshot);
}

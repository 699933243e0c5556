use std::collections::BTreeMap;

use gpiojsonsvc::gpio::libgpiod::LineBias;
use gpiojsonsvc::gpio::libgpiod::LineDirection;
use gpiojsonsvc::gpio::libgpiod::LineDrive;
use gpiojsonsvc::gpio::libgpiod::LineValue;
use gpiojsonsvc::gpio::mock::diff::diff_snapshot;
use gpiojsonsvc::gpio::mock::load::load_snapshot;
use gpiojsonsvc::gpio::mock::save::save_snapshot;
use gpiojsonsvc::gpio::mock::snapshot::line_level_to_line_value;
use gpiojsonsvc::gpio::mock::snapshot::LineLevel;
use gpiojsonsvc::gpio::mock::snapshot::LoadError;
use gpiojsonsvc::gpio::mock::snapshot::MockChipSnapshot;
use gpiojsonsvc::gpio::mock::snapshot::MockLineSnapshot;
use gpiojsonsvc::gpio::mock::xml::XmlSource;





fn load_xml(content: &str) -> MockChipSnapshot {
    try_load_xml(content).expect("load snapshot")
}

fn try_load_xml(content: &str) -> Result<MockChipSnapshot, LoadError> {
    let mut source = XmlSource::open(content);
    load_snapshot(&mut source)
}

fn try_diff_xml(
    baseline: &MockChipSnapshot,
    content: &str,
) -> Result<BTreeMap<u32, LineValue>, LoadError> {
    let mut source = XmlSource::open(content);
    diff_snapshot(&mut source, baseline)
}

fn save_xml(snapshot: &MockChipSnapshot) -> String {
    save_snapshot(snapshot).expect("save snapshot")
}

fn diff_xml(baseline: &MockChipSnapshot, content: &str) -> BTreeMap<u32, LineValue> {
    try_diff_xml(baseline, content).expect("diff snapshot")
}

fn sample_snapshot() -> MockChipSnapshot {
    MockChipSnapshot {
        name: "gpiochip0".to_owned(),
        label: "mock gpiochip0".to_owned(),
        lines: BTreeMap::from([
            (
                0,
                MockLineSnapshot {
                    name: "line0".to_owned(),
                    consumer: String::new(),
                    direction: LineDirection::Input,
                    bias: LineBias::PullUp,
                    drive: LineDrive::PushPull,
                    active_low: false,
                    persisted_level: LineLevel::Low,
                },
            ),
            (
                1,
                MockLineSnapshot {
                    name: "line1".to_owned(),
                    consumer: String::new(),
                    direction: LineDirection::Output,
                    bias: LineBias::Disabled,
                    drive: LineDrive::OpenDrain,
                    active_low: true,
                    persisted_level: LineLevel::Low,
                },
            ),
        ]),
    }
}

#[test]
fn load_save_round_trip_preserves_normalized_snapshot() {
    let snapshot = sample_snapshot();
    let xml = save_xml(&snapshot);
    let loaded = load_xml(&xml);
    assert_eq!(loaded, snapshot);
    assert!(xml.contains("<gpiochip "));
    assert!(!xml.contains("<gpiochips"));
}

#[test]
fn load_snapshot_rejects_gpiochips_wrapper() {
    let xml = r#"<gpiochips>
<gpiochip id="gpiochip0">
    <line id="0" direction="input">L</line>
</gpiochip>
</gpiochips>"#;
    assert!(matches!(
        try_load_xml(xml),
        Err(LoadError::InvalidRootElement)
    ));
}

#[test]
fn load_snapshot_rejects_a_second_gpiochip() {
    let xml = r#"<gpiochip id="gpiochip0">
<line id="0" direction="input">L</line>
</gpiochip>
<gpiochip id="gpiochip1">
<line id="0" direction="input">L</line>
</gpiochip>"#;
    assert!(matches!(
        try_load_xml(xml),
        Err(LoadError::InvalidRootElement)
    ));
}

#[test]
fn load_snapshot_keeps_chip_id_as_metadata() {
    let snapshot = load_xml(
        r#"<gpiochip id="gpiochip0" label="mock gpiochip0">
<line id="0" direction="input">L</line>
</gpiochip>"#,
    );
    assert_eq!(snapshot.name, "gpiochip0");
    assert_eq!(snapshot.label, "mock gpiochip0");
}

#[test]
fn diff_snapshot_rejects_gpiochips_wrapper() {
    let baseline = sample_snapshot();
    let xml = r#"<gpiochips>
<gpiochip id="gpiochip0">
    <line id="0" direction="input" bias="pull_up">H</line>
    <line id="1" direction="output" drive="open_drain" active_low="true">L</line>
</gpiochip>
</gpiochips>"#;
    assert!(matches!(
        try_diff_xml(&baseline, xml),
        Err(LoadError::InvalidRootElement)
    ));
}

#[test]
fn load_save_round_trip_through_reader_writer_handles() {
    let snapshot = sample_snapshot();
    let xml = save_xml(&snapshot);

    let mut source = XmlSource::open(&xml);
    let loaded = load_snapshot(&mut source).expect("load");

    let round_trip_xml = save_snapshot(&loaded).expect("save");
    assert_eq!(load_xml(&round_trip_xml), snapshot);
}

#[test]
fn load_snapshot_stores_physical_levels_without_active_low_conversion() {
    let xml = r#"<gpiochip id="gpiochip0">
<line id="0" direction="input" bias="disabled" active_low="true">H</line>
<line id="1" direction="input" bias="disabled" active_low="true">L</line>
<line id="2" direction="input" bias="disabled" active_low="false">L</line>
<line id="3" direction="input" bias="disabled" active_low="false">H</line>
</gpiochip>"#;
    let snapshot = load_xml(xml);

    assert_eq!(
        snapshot.lines.get(&0).expect("line 0").persisted_level,
        LineLevel::High
    );
    assert_eq!(
        snapshot.lines.get(&1).expect("line 1").persisted_level,
        LineLevel::Low
    );
    assert_eq!(
        snapshot.lines.get(&2).expect("line 2").persisted_level,
        LineLevel::Low
    );
    assert_eq!(
        snapshot.lines.get(&3).expect("line 3").persisted_level,
        LineLevel::High
    );
}

#[test]
fn save_snapshot_writes_physical_levels_directly() {
    let snapshot = MockChipSnapshot {
        name: "gpiochip0".to_owned(),
        label: String::new(),
        lines: BTreeMap::from([
            (
                0,
                MockLineSnapshot {
                    name: String::new(),
                    consumer: String::new(),
                    direction: LineDirection::Input,
                    bias: LineBias::Disabled,
                    drive: LineDrive::PushPull,
                    active_low: true,
                    persisted_level: LineLevel::High,
                },
            ),
            (
                1,
                MockLineSnapshot {
                    name: String::new(),
                    consumer: String::new(),
                    direction: LineDirection::Input,
                    bias: LineBias::Disabled,
                    drive: LineDrive::PushPull,
                    active_low: true,
                    persisted_level: LineLevel::Low,
                },
            ),
            (
                2,
                MockLineSnapshot {
                    name: String::new(),
                    consumer: String::new(),
                    direction: LineDirection::Output,
                    bias: LineBias::Disabled,
                    drive: LineDrive::PushPull,
                    active_low: false,
                    persisted_level: LineLevel::High,
                },
            ),
        ]),
    };

    let xml = save_xml(&snapshot);
    assert!(xml.contains(r#"active_low="true"#));
    assert!(xml.contains(r#"active_low="false"#));
    assert!(xml.contains(">H</line>"));
    assert!(xml.contains(">L</line>"));

    let round_trip = load_xml(&xml);
    assert_eq!(
        round_trip.lines.get(&0).expect("line 0").persisted_level,
        LineLevel::High
    );
    assert_eq!(
        round_trip.lines.get(&1).expect("line 1").persisted_level,
        LineLevel::Low
    );
    assert_eq!(
        round_trip.lines.get(&2).expect("line 2").persisted_level,
        LineLevel::High
    );
}

#[test]
fn diff_snapshot_reports_only_changed_input_values() {
    let baseline = sample_snapshot();

    let unchanged = diff_xml(
        &baseline,
        r#"<gpiochip id="gpiochip0">
<line id="0" direction="input" bias="pull_up">L</line>
<line id="1" direction="output" drive="open_drain" active_low="true">L</line>
</gpiochip>"#,
    );
    assert!(unchanged.is_empty());

    let input_change = diff_xml(
        &baseline,
        r#"<gpiochip id="gpiochip0">
<line id="0" direction="input" bias="pull_up">H</line>
<line id="1" direction="output" drive="open_drain" active_low="true">L</line>
</gpiochip>"#,
    );
    assert_eq!(input_change.len(), 1);
    assert_eq!(input_change.get(&0), Some(&LineValue::Active));

    let output_only_change = diff_xml(
        &baseline,
        r#"<gpiochip id="gpiochip0">
<line id="0" direction="input" bias="pull_up">L</line>
<line id="1" direction="output" drive="open_drain" active_low="true">H</line>
</gpiochip>"#,
    );
    assert!(output_only_change.is_empty());
}

#[test]
fn diff_snapshot_ignores_metadata_only_edits() {
    let baseline = sample_snapshot();

    let metadata_edit = diff_xml(
        &baseline,
        r#"<gpiochip id="gpiochip0" label="renamed">
<line id="0" name="renamed-input" direction="output" drive="push_pull" active_low="true">L</line>
<line id="1" name="renamed-output" direction="input" bias="pull_down" active_low="false">L</line>
</gpiochip>"#,
    );
    assert!(metadata_edit.is_empty());
}

#[test]
fn diff_snapshot_converts_physical_changes_with_baseline_active_low() {
    let baseline = MockChipSnapshot {
        name: "gpiochip0".to_owned(),
        label: String::new(),
        lines: BTreeMap::from([(
            0,
            MockLineSnapshot {
                name: String::new(),
                consumer: String::new(),
                direction: LineDirection::Input,
                bias: LineBias::Disabled,
                drive: LineDrive::PushPull,
                active_low: true,
                persisted_level: LineLevel::Low,
            },
        )]),
    };

    let same_physical_level = diff_xml(
        &baseline,
        r#"<gpiochip id="gpiochip0">
<line id="0" direction="input" bias="disabled" active_low="false">L</line>
</gpiochip>"#,
    );
    assert!(same_physical_level.is_empty());

    let changed_logical_level = diff_xml(
        &baseline,
        r#"<gpiochip id="gpiochip0">
<line id="0" direction="input" bias="disabled" active_low="false">H</line>
</gpiochip>"#,
    );
    assert_eq!(changed_logical_level.get(&0), Some(&LineValue::Inactive));
}

#[test]
fn line_level_conversion_respects_active_low() {
    assert_eq!(
        line_level_to_line_value(LineLevel::High, false),
        LineValue::Active
    );
    assert_eq!(
        line_level_to_line_value(LineLevel::High, true),
        LineValue::Inactive
    );
    assert_eq!(
        line_level_to_line_value(LineLevel::Low, true),
        LineValue::Active
    );
    assert_eq!(
        line_level_to_line_value(LineLevel::Low, false),
        LineValue::Inactive
    );
}

#[test]
fn active_low_xml_round_trip_preserves_attribute_and_levels() {
    let xml = r#"<gpiochip id="gpiochip0" label="mock">
<line id="0" name="in" direction="input" bias="pull_up" active_low="true">L</line>
<line id="1" name="out" direction="output" drive="open_drain" active_low="true">L</line>
</gpiochip>"#;
    let loaded = load_xml(xml);
    assert!(loaded.lines.get(&0).expect("line 0").active_low);
    assert!(loaded.lines.get(&1).expect("line 1").active_low);
    assert_eq!(
        loaded.lines.get(&0).expect("line 0").persisted_level,
        LineLevel::Low
    );
    assert_eq!(
        loaded.lines.get(&1).expect("line 1").persisted_level,
        LineLevel::Low
    );

    let round_trip = load_xml(&save_xml(&loaded));
    assert_eq!(round_trip, loaded);
}

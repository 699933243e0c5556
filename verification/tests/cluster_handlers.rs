use std::collections::BTreeMap;

use gpiojsonsvc::cluster::backend::MockBackend;
use gpiojsonsvc::cluster::cache::TargetsCache;
use gpiojsonsvc::cluster::cache::TargetsCacheError;
use gpiojsonsvc::cluster::context::SessionContext;
use gpiojsonsvc::cluster::context::SessionStateError;
use gpiojsonsvc::cluster::document::parse_xml_snapshot;
use gpiojsonsvc::cluster::document::XmlChip;
use gpiojsonsvc::cluster::document::XmlDocument;
use gpiojsonsvc::cluster::document::XmlEventMode;
use gpiojsonsvc::cluster::document::XmlLine;
use gpiojsonsvc::cluster::document::XmlLineMode;
use gpiojsonsvc::cluster::get::collect_pin_reads;
use gpiojsonsvc::cluster::get::fold_pin_reads;
use gpiojsonsvc::cluster::get::GetHandler;
use gpiojsonsvc::cluster::get::PinReadInfo;
use gpiojsonsvc::cluster::indices::IndexList;
use gpiojsonsvc::cluster::indices::ResolvedPinIndices;
use gpiojsonsvc::cluster::init::InitHandler;
use gpiojsonsvc::cluster::mock::MockCluster;
use gpiojsonsvc::cluster::properties::GPIOPinConfig;
use gpiojsonsvc::cluster::properties::PinLevel;
use gpiojsonsvc::cluster::set::build_scheduled_tasks;
use gpiojsonsvc::cluster::set::collect_write_plan;
use gpiojsonsvc::cluster::set::ExtractWriteInfoError;
use gpiojsonsvc::cluster::set::PinWriteInfo;
use gpiojsonsvc::cluster::set::SetHandler;
use gpiojsonsvc::cluster::set::SetStepRequest;
use gpiojsonsvc::cluster::set::SetTargetValue;
use gpiojsonsvc::names::NameMap;
use gpiojsonsvc::protocol::request::BiasMode;
use gpiojsonsvc::protocol::request::DriveMode;
use gpiojsonsvc::protocol::request::EdgeMode;
use gpiojsonsvc::protocol::request::PinSelector;
use gpiojsonsvc::protocol::request::TargetConfigRequest;
use gpiojsonsvc::protocol::request::TargetSelector;
use gpiojsonsvc::protocol::response::PinValuePayload;
use gpiojsonsvc::protocol::response::ResponseMessage;
use gpiojsonsvc::session::compiled::TargetMode;

const DEFAULT_MAX_SEQUENCE_STEPS: usize = 32;
const DEFAULT_MAX_TOTAL_EXECUTION_TIME_MS: u32 = 60_000;

fn line(id: u32, mode: XmlLineMode, event: Option<XmlEventMode>, level: &str) -> XmlLine {
    XmlLine {
        id,
        mode,
        bias: None,
        drive: None,
        event,
        level: level.to_owned(),
    }
}

fn sample_backend() -> MockBackend {
    let lines = vec![
        line(0, XmlLineMode::Input, None, "1"),
        line(1, XmlLineMode::Input, None, "0"),
        line(2, XmlLineMode::Output, None, "0"),
        line(3, XmlLineMode::Output, None, "1"),
        line(4, XmlLineMode::Input, Some(XmlEventMode::Both), "0"),
    ];
    let document = XmlDocument {
        chips: vec![XmlChip {
            id: "gpiochip0".to_owned(),
            lines,
        }],
    };
    let mut backend = MockBackend::new();
    backend.store_snapshot(parse_xml_snapshot(Ok(document)).expect("parse"));
    backend
}

fn input(pins: &[&str]) -> TargetConfigRequest {
    TargetConfigRequest::Input {
        pin: selector(pins),
        bias: None,
    }
}

fn output(pins: &[&str]) -> TargetConfigRequest {
    TargetConfigRequest::Output {
        pin: selector(pins),
        drive: None,
        initial: None,
        final_value: None,
    }
}

fn selector(pins: &[&str]) -> PinSelector {
    if pins.len() == 1 {
        PinSelector::single(pins[0].to_owned()).expect("pin")
    } else {
        PinSelector::combined(pins.iter().map(|pin| (*pin).to_owned()).collect()).expect("pins")
    }
}

fn sample_request() -> NameMap<TargetConfigRequest> {
    NameMap::new()
        .with("IN".to_owned(), input(&["gpiochip0:0"]))
        .with("IN2".to_owned(), input(&["gpiochip0:1", "gpiochip0:0"]))
        .with("OUT".to_owned(), output(&["gpiochip0:2"]))
        .with("OUT2".to_owned(), output(&["gpiochip0:2", "gpiochip0:3"]))
        .with(
            "TRIG".to_owned(),
            TargetConfigRequest::Trigger {
                pin: "gpiochip0:4".to_owned(),
                edge: EdgeMode::Both,
            },
        )
}

fn sample_session() -> (MockBackend, SessionContext) {
    let mut backend = sample_backend();
    let mut session = SessionContext::new();
    let response = InitHandler::handle(&mut session, &mut backend, "init-1", &sample_request());
    assert_eq!(response, ResponseMessage::ok("init-1"));
    (backend, session)
}

const AS_IS: GPIOPinConfig = GPIOPinConfig::Input {
    bias: BiasMode::AsIs,
};
const PUSH_PULL: GPIOPinConfig = GPIOPinConfig::Output {
    drive: DriveMode::PushPull,
};
const BOTH_EDGES: GPIOPinConfig = GPIOPinConfig::Trigger {
    edge: EdgeMode::Both,
};

fn sample_cluster() -> MockCluster {
    let mut backend = sample_backend();
    let id = backend
        .cluster(&vec![
            ("gpiochip0:0", AS_IS),
            ("gpiochip0:1", AS_IS),
            ("gpiochip0:2", PUSH_PULL),
            ("gpiochip0:3", PUSH_PULL),
            ("gpiochip0:4", BOTH_EDGES),
        ])
        .expect("cluster");
    backend.clusters.remove(&id).expect("open cluster")
}

fn sample_init_request() -> NameMap<TargetConfigRequest> {
    NameMap::new()
        .with("IN".to_owned(), input(&["gpiochip0:0"]))
        .with("OUT2".to_owned(), output(&["gpiochip0:2", "gpiochip0:3"]))
        .with(
            "TRIG".to_owned(),
            TargetConfigRequest::Trigger {
                pin: "gpiochip0:4".to_owned(),
                edge: EdgeMode::Both,
            },
        )
}

fn read_cache() -> TargetsCache {
    let request = NameMap::new()
        .with("IN".to_owned(), input(&["gpiochip0:0"]))
        .with("IN2".to_owned(), input(&["gpiochip0:1", "gpiochip0:0"]))
        .with("OUT".to_owned(), output(&["gpiochip0:2"]));
    TargetsCache::build(&sample_cluster(), &request).expect("build cache")
}

fn write_cache() -> TargetsCache {
    let mut backend = sample_backend();
    let id = backend
        .cluster(&vec![
            ("gpiochip0:0", AS_IS),
            ("gpiochip0:2", PUSH_PULL),
            ("gpiochip0:3", PUSH_PULL),
        ])
        .expect("cluster");
    let request = NameMap::new()
        .with("IN".to_owned(), input(&["gpiochip0:0"]))
        .with("OUT".to_owned(), output(&["gpiochip0:2"]))
        .with("OUT2".to_owned(), output(&["gpiochip0:2", "gpiochip0:3"]));
    TargetsCache::build(&backend.clusters[&id], &request).expect("build cache")
}

fn sequence(target: &str, steps: &[(u32, u8)]) -> NameMap<SetTargetValue> {
    let steps = steps
        .iter()
        .map(|(lag, value)| SetStepRequest {
            lag: *lag,
            value: *value,
        })
        .collect();
    NameMap::new().with(target.to_owned(), SetTargetValue::Sequence(steps))
}

fn immediate(target: &str, value: u8) -> NameMap<SetTargetValue> {
    NameMap::new().with(target.to_owned(), SetTargetValue::Immediate(value))
}

fn write(index: usize, bit_offset: u32, value: PinLevel) -> PinWriteInfo {
    PinWriteInfo {
        index,
        bit_offset,
        value,
    }
}

fn collect_plan<'a>(
    cache: &TargetsCache,
    targets: &'a NameMap<SetTargetValue>,
) -> Result<(Vec<PinWriteInfo>, BTreeMap<u32, Vec<PinWriteInfo>>), ExtractWriteInfoError<'a>> {
    collect_write_plan(
        cache,
        targets,
        DEFAULT_MAX_SEQUENCE_STEPS,
        DEFAULT_MAX_TOTAL_EXECUTION_TIME_MS,
    )
}

#[test]
fn build_resolves_input_output_and_trigger_targets() {
    let cache = TargetsCache::build(&sample_cluster(), &sample_init_request())
        .expect("build");

    let input = cache.target("IN").expect("IN");
    assert_eq!(input.mode, TargetMode::Input);
    assert_eq!(input.indices, ResolvedPinIndices::Single(0));

    let output = cache.target("OUT2").expect("OUT2");
    assert_eq!(output.mode, TargetMode::Output);
    assert_eq!(
        output.indices,
        ResolvedPinIndices::Combined(IndexList::of(&[2, 3]))
    );

    let trigger = cache.target("TRIG").expect("TRIG");
    assert_eq!(trigger.mode, TargetMode::Trigger);
    assert_eq!(cache.event_target_by_index(4), Ok("TRIG"));
}

#[test]
fn of_pins_with_the_same_name_the_last_counts() {
    let (_, session) = sample_session();
    let cache = &session.initialized.as_ref().expect("initialized").cache;
    assert_eq!(
        cache.target("IN").expect("IN").indices,
        ResolvedPinIndices::Single(2)
    );
    assert_eq!(cache.event_target_by_index(6), Ok("TRIG"));
    assert_eq!(cache.targets_by_name().len(), 5);
}

#[test]
fn build_reports_missing_pin_by_name() {
    let request = NameMap::new().with("BAD".to_owned(), input(&["gpiochip0:99"]));
    assert_eq!(
        TargetsCache::build(&sample_cluster(), &request).unwrap_err(),
        TargetsCacheError::ClusterPinMissing {
            pin: "gpiochip0:99"
        }
    );
}

#[test]
fn event_target_by_index_reports_unmapped_index() {
    let cache = TargetsCache::build(&sample_cluster(), &sample_init_request())
        .expect("build");
    assert_eq!(
        cache.event_target_by_index(0),
        Err(TargetsCacheError::UnmappedEventIndex { index: 0 })
    );
}

#[test]
fn collect_pin_reads_for_single_input_target() {
    let cache = read_cache();
    let reads = collect_pin_reads(&cache, &vec!["IN"]).expect("collect pin reads");
    assert_eq!(
        reads,
        vec![PinReadInfo {
            index: 0,
            bit_offset: 0,
            target_slot: 0,
        }]
    );
}

#[test]
fn collect_pin_reads_for_combined_input_target() {
    let cache = read_cache();
    let reads = collect_pin_reads(&cache, &vec!["IN2"]).expect("collect pin reads");
    assert_eq!(
        reads,
        vec![
            PinReadInfo {
                index: 1,
                bit_offset: 1,
                target_slot: 0,
            },
            PinReadInfo {
                index: 0,
                bit_offset: 0,
                target_slot: 0,
            },
        ]
    );
}

#[test]
fn collect_pin_reads_assigns_target_slots() {
    let cache = read_cache();
    let reads = collect_pin_reads(&cache, &vec!["IN", "IN2"]).expect("collect");
    assert_eq!(reads.len(), 3);
    assert_eq!(reads[0].target_slot, 0);
    assert_eq!(reads[1].target_slot, 1);
    assert_eq!(reads[2].target_slot, 1);
}

#[test]
fn collect_pin_reads_rejects_unknown_target() {
    let cache = read_cache();
    assert_eq!(
        collect_pin_reads(&cache, &vec!["MISSING"]).unwrap_err(),
        TargetsCacheError::UnknownTarget { target: "MISSING" }
    );
}

#[test]
fn collect_pin_reads_rejects_non_input_target() {
    let cache = read_cache();
    assert_eq!(
        collect_pin_reads(&cache, &vec!["OUT"]).unwrap_err(),
        TargetsCacheError::TargetNotReadable { target: "OUT" }
    );
}

#[test]
fn accumulate_pin_level_uses_bit_offsets() {
    let pin_reads = [
        PinReadInfo {
            target_slot: 0,
            index: 3,
            bit_offset: 0,
        },
        PinReadInfo {
            target_slot: 0,
            index: 2,
            bit_offset: 1,
        },
    ];
    let levels = vec![PinLevel::Low, PinLevel::High];
    let value = fold_pin_reads(&pin_reads, &levels);
    assert_eq!(value, 0b10);
}

#[test]
fn get_packs_levels() {
    let (backend, session) = sample_session();
    let single = TargetSelector::Single("IN2".to_owned());
    assert_eq!(
        GetHandler::handle(&session, &backend, "get-1", &single),
        ResponseMessage::pin_value("get-1", PinValuePayload::Value(0b01))
    );
    let both = TargetSelector::Multiple(vec!["IN2".to_owned(), "IN".to_owned()]);
    assert_eq!(
        GetHandler::handle(&session, &backend, "get-2", &both),
        ResponseMessage::pin_value("get-2", PinValuePayload::Values(vec![0b01, 1]))
    );
    assert_eq!(
        GetHandler::handle(&SessionContext::new(), &backend, "get-3", &single),
        ResponseMessage::error("get-3", "session is not initialized".to_owned())
    );
}

#[test]
fn init_is_served_once() {
    let (mut backend, mut session) = sample_session();
    assert_eq!(
        InitHandler::handle(&mut session, &mut backend, "init-2", &sample_request()),
        ResponseMessage::error("init-2", "session is already initialized".to_owned())
    );
    let mut other = SessionContext::new();
    let request = NameMap::new().with("A".to_owned(), input(&["gpiochip0:9"]));
    assert_eq!(
        InitHandler::handle(&mut other, &mut backend, "init-3", &request),
        ResponseMessage::error("init-3", "line not found: gpiochip0:line_9".to_owned())
    );
    assert_eq!(other.enter_init(), Ok(()));
    assert_eq!(backend.clusters.len(), 1);
}

#[test]
fn collect_write_plan_for_immediate_value() {
    let cache = write_cache();
    let targets = immediate("OUT", 1);
    let (now, delayed) = collect_plan(&cache, &targets).expect("collect write plan");
    assert!(delayed.is_empty());
    assert_eq!(now, vec![write(1, 0, PinLevel::High)]);
}

#[test]
fn collect_write_plan_for_sequence_with_delayed_steps() {
    let cache = write_cache();
    let targets = sequence("OUT2", &[(0, 0b10), (100, 0b01), (50, 0b11)]);
    let (now, delayed) = collect_plan(&cache, &targets).expect("collect write plan");
    assert_eq!(
        now,
        vec![write(1, 1, PinLevel::High), write(2, 0, PinLevel::Low)]
    );
    assert_eq!(delayed.len(), 2);
    assert_eq!(
        delayed.get(&100).expect("lag 100"),
        &vec![write(1, 1, PinLevel::Low), write(2, 0, PinLevel::High)]
    );
    assert_eq!(
        delayed.get(&150).expect("lag 150"),
        &vec![write(1, 1, PinLevel::High), write(2, 0, PinLevel::High)]
    );
}

#[test]
fn collect_write_plan_rejects_unknown_target() {
    let cache = write_cache();
    let targets = immediate("MISSING", 0);
    assert_eq!(
        collect_plan(&cache, &targets).unwrap_err(),
        ExtractWriteInfoError::TargetsCacheError(TargetsCacheError::UnknownTarget {
            target: "MISSING"
        })
    );
}

#[test]
fn collect_write_plan_rejects_non_output_target() {
    let cache = write_cache();
    let targets = immediate("IN", 0);
    assert_eq!(
        collect_plan(&cache, &targets).unwrap_err(),
        ExtractWriteInfoError::TargetsCacheError(TargetsCacheError::TargetNotWritable {
            target: "IN"
        })
    );
}

#[test]
fn collect_write_plan_rejects_sequence_step_missing_lag() {
    let cache = write_cache();
    let targets = sequence("OUT", &[(0, 1), (0, 0)]);
    assert_eq!(
        collect_plan(&cache, &targets).unwrap_err(),
        ExtractWriteInfoError::InvalidLag {
            target: "OUT",
            step: 1,
        }
    );
}

#[test]
fn collect_write_plan_rejects_sequence_step_limit() {
    let cache = write_cache();
    let targets = sequence("OUT", &[(0, 1), (10, 0), (10, 1)]);
    assert_eq!(
        collect_write_plan(
            &cache,
            &targets,
            2,
            DEFAULT_MAX_TOTAL_EXECUTION_TIME_MS
        )
        .unwrap_err(),
        ExtractWriteInfoError::SequenceStepLimitExceeded {
            target: "OUT",
            steps: 3,
            limit: 2,
        }
    );
}

#[test]
fn collect_write_plan_rejects_total_execution_time_limit() {
    let cache = write_cache();
    let targets = sequence("OUT", &[(0, 1), (100, 0), (100, 1)]);
    let error = collect_write_plan(&cache, &targets, DEFAULT_MAX_SEQUENCE_STEPS, 150)
        .unwrap_err();
    assert_eq!(
        error,
        ExtractWriteInfoError::TotalExecutionTimeLimitExceeded {
            total_ms: 200,
            limit: 150,
        }
    );
    assert_eq!(
        error.into_response("set-1"),
        ResponseMessage::error(
            "set-1",
            "set request total execution time 200ms exceeds limit of 150ms".to_owned()
        )
    );
    let long = sequence("OUT", &[(u32::MAX, 1), (u32::MAX, 0)]);
    assert_eq!(
        collect_write_plan(&cache, &long, 2, u32::MAX).unwrap_err(),
        ExtractWriteInfoError::TotalExecutionTimeLimitExceeded {
            total_ms: 8_589_934_590,
            limit: u32::MAX,
        }
    );
}

#[test]
fn build_scheduled_tasks_from_delayed_writes_only() {
    let schedule_base = 1_000;
    let mut delayed = BTreeMap::new();
    delayed.insert(150, vec![write(1, 0, PinLevel::High)]);
    delayed.insert(100, vec![write(1, 0, PinLevel::Low)]);

    let tasks = build_scheduled_tasks(&delayed, schedule_base);

    assert_eq!(tasks.len(), 2);
    assert_eq!(tasks[0].time, schedule_base + 100);
    assert_eq!(tasks[0].writes[0].value, PinLevel::Low);
    assert_eq!(tasks[1].time, schedule_base + 150);
    assert_eq!(tasks[1].writes[0].value, PinLevel::High);
}

#[test]
fn set_runs_its_steps_in_order() {
    let (mut backend, mut session) = sample_session();
    let handler = SetHandler::default();
    let targets = sequence("OUT", &[(0, 1), (20, 0)]);
    let (now, delayed) = handler
        .begin(&mut session, "set-1", &targets)
        .expect("begin");
    assert_eq!(
        handler.begin(&mut session, "set-2", &targets),
        Err(ResponseMessage::error(
            "set-2",
            "a set request is already in progress".to_owned()
        ))
    );
    let first = SetHandler::write(&mut session, &backend, "set-1", &now).expect("first");
    backend.store_snapshot(first);
    assert_eq!(backend.read(1, &vec![4]), Ok(vec![PinLevel::High]));
    for task in build_scheduled_tasks(&delayed, 0) {
        assert_eq!(task.time, 20);
        let next = SetHandler::write(&mut session, &backend, "set-1", &task.writes).expect("next");
        backend.store_snapshot(next);
    }
    assert_eq!(backend.read(1, &vec![4]), Ok(vec![PinLevel::Low]));
    assert_eq!(
        SetHandler::finish(&mut session, "set-1"),
        ResponseMessage::ok("set-1")
    );
    assert!(!session.setting);
}

#[test]
fn a_failed_write_ends_the_set() {
    let (mut backend, mut session) = sample_session();
    let targets = immediate("OUT", 1);
    let (now, _) = SetHandler::default()
        .begin(&mut session, "set-1", &targets)
        .expect("begin");
    backend.close(1);
    assert_eq!(
        SetHandler::write(&mut session, &backend, "set-1", &now),
        Err(ResponseMessage::error("set-1", "cluster closed".to_owned()))
    );
    assert_eq!(session.enter_set(), Ok(()));
    assert_eq!(
        SessionContext::new().enter_set(),
        Err(SessionStateError::NotInitialized)
    );
}

#[test]
fn a_get_is_planned_before_it_reads() {
    let (_, session) = sample_session();
    let single = TargetSelector::Single("IN2".to_owned());
    let (_, reads) = GetHandler::plan(&session, "get-1", &single).expect("plan");
    assert_eq!(reads.len(), 2);
    assert_eq!(
        GetHandler::plan(&SessionContext::new(), "get-2", &single),
        Err(ResponseMessage::error("get-2", "session is not initialized".to_owned()))
    );
    let unknown = TargetSelector::Single("NONE".to_owned());
    assert!(GetHandler::plan(&session, "get-3", &unknown).is_err());
}

use gpiojsonsvc::gpio::libgpiod::LineValue;
use gpiojsonsvc::names::NameMap;
use gpiojsonsvc::protocol::request::SetStepRequest;
use gpiojsonsvc::session::compiled::CompiledTarget;
use gpiojsonsvc::session::compiled::CompiledTargets;
use gpiojsonsvc::session::compiled::ResolvedPins;
use gpiojsonsvc::session::compiled::TargetMode;
use gpiojsonsvc::session::pins::ResolvedPin;
use gpiojsonsvc::session::sequence::PendingSetSequence;





fn output_targets() -> CompiledTargets {
    let mut compiled = CompiledTargets::new();
    compiled.by_name = NameMap::new().with(
        "OUT".to_owned(),
        CompiledTarget {
            pins: ResolvedPins::Single(ResolvedPin {
                chip_index: 0,
                offset: 2,
            }),
            mode: TargetMode::Output,
        },
    );
    compiled
}

fn step(lag: u32, value: u8) -> SetStepRequest {
    SetStepRequest::new(lag, NameMap::new().with("OUT".to_owned(), value)).expect("step")
}

#[test]
fn compile_steps_builds_per_step_batches() {
    let compiled = output_targets();
    let steps = vec![
        step(0, 1),
        step(100, 0),
    ];

    let compiled_steps =
        PendingSetSequence::compile_steps(&compiled, &steps, 1).expect("compile");
    let compiled_steps = compiled_steps.0;
    assert_eq!(compiled_steps.len(), 2);
    assert_eq!(compiled_steps[0].accumulated_lag, 0);
    assert_eq!(
        compiled_steps[1].accumulated_lag,
        100
    );
    assert_eq!(
        compiled_steps[0].batch.attachments(0).unwrap(),
        &[LineValue::Active]
    );
    assert_eq!(
        compiled_steps[1].batch.attachments(0).unwrap(),
        &[LineValue::Inactive]
    );
}

#[test]
fn start_computes_cumulative_deadlines_from_relative_lags() {
    let compiled = output_targets();
    let steps = vec![
        step(0, 1),
        step(100, 0),
        step(300, 1),
    ];
    let compiled_steps =
        PendingSetSequence::compile_steps(&compiled, &steps, 1).expect("compile");
    let started: u64 = 5;
    let mut pending = PendingSetSequence::start(7, "set-1".to_owned(), compiled_steps, started);

    assert!(pending.matches_token(7));
    assert_eq!(
        pending.first_batch().attachments(0).unwrap(),
        &[LineValue::Active]
    );
    assert_eq!(
        pending.deadline(),
        Some(u128::from(started) + 100)
    );
    assert!(!pending.is_complete());

    assert_eq!(
        pending.batch().unwrap().attachments(0).unwrap(),
        &[LineValue::Inactive]
    );
    assert!(pending.advance());
    assert_eq!(
        pending.deadline(),
        Some(u128::from(started) + 400)
    );
    assert_eq!(
        pending.batch().unwrap().attachments(0).unwrap(),
        &[LineValue::Active]
    );
    assert!(!pending.advance());
    assert!(pending.is_complete());
    assert!(pending.deadline().is_none());
    assert!(pending.batch().is_none());
}

#[test]
fn single_step_sequence_is_complete_after_start() {
    let compiled = output_targets();
    let steps = vec![step(0, 1)];
    let compiled_steps =
        PendingSetSequence::compile_steps(&compiled, &steps, 1).expect("compile");
    let mut pending =
        PendingSetSequence::start(1, "set-1".to_owned(), compiled_steps, 5);
    assert!(pending.is_complete());
    assert!(pending.deadline().is_none());
    assert!(!pending.advance());
}

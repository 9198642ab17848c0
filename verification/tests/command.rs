//! The states of a component, the commands between them, and how a component answers.

use tpcdaq::command::{
    socket_timeout_ms, Command, CommandResponse, CommandTask, ComponentState, Handler, Metric,
    Metrics, Outcome, RunConfig, TaskEvent, TaskStep, Verdict, Work,
};

const ALL_STATES: [ComponentState; 5] = [
    ComponentState::Idle,
    ComponentState::Configured,
    ComponentState::Armed,
    ComponentState::Running,
    ComponentState::Error,
];

/// Rows are the states that a transition leaves, columns those that it reaches.
const LEGAL: [[bool; 5]; 5] = [
    [false, true, false, false, false],
    [true, false, true, false, true],
    [true, false, false, true, true],
    [true, true, false, false, true],
    [true, false, false, false, false],
];

fn configure(run_number: u32, comment: &str, config: &[(&str, &str)]) -> Command {
    Command::Configure(RunConfig {
        run_number,
        comment: comment.to_string(),
        config: config.iter().map(|(k, v)| (k.to_string(), v.to_string())).collect(),
    })
}

#[test]
fn every_state_pair_matches_the_transition_table() {
    for (i, from) in ALL_STATES.iter().enumerate() {
        for (j, to) in ALL_STATES.iter().enumerate() {
            assert_eq!(
                from.can_transition_to(*to),
                LEGAL[i][j],
                "transition {from:?} -> {to:?}"
            );
        }
    }
}

#[test]
fn no_state_transitions_to_itself() {
    for state in ALL_STATES {
        assert!(!state.can_transition_to(state), "{state:?} -> {state:?}");
    }
}

#[test]
fn error_is_only_escapable_by_reset_to_idle() {
    for to in ALL_STATES {
        assert_eq!(
            ComponentState::Error.can_transition_to(to),
            to == ComponentState::Idle
        );
    }
}

#[test]
fn commands_map_to_their_target_states() {
    let cfg = configure(17, "beam on", &[("workers", "4")]);
    assert_eq!(cfg.target_state(), Some(ComponentState::Configured));
    assert_eq!(Command::Arm.target_state(), Some(ComponentState::Armed));
    assert_eq!(
        Command::Start { run_number: 17 }.target_state(),
        Some(ComponentState::Running)
    );
    assert_eq!(
        Command::Stop.target_state(),
        Some(ComponentState::Configured)
    );
    assert_eq!(Command::Reset.target_state(), Some(ComponentState::Idle));
    assert_eq!(Command::GetStatus.target_state(), None);
}

#[test]
fn the_full_run_sequence_is_legal() {
    let sequence = [
        configure(17, "", &[]),
        Command::Arm,
        Command::Start { run_number: 17 },
        Command::Stop,
        Command::Reset,
    ];
    let mut state = ComponentState::Idle;
    for cmd in &sequence {
        let target = cmd.target_state().unwrap();
        assert!(state.can_transition_to(target), "{state:?} -> {target:?}");
        state = target;
    }
    assert_eq!(state, ComponentState::Idle);
}

#[test]
fn command_response_has_the_spec_shape() {
    let resp = CommandResponse::success(ComponentState::Running, "started");
    assert!(resp.success);
    assert_eq!(resp.state.name(), "Running");
    assert_eq!(resp.message, "started");
    assert_eq!(resp.run_number, None);
    assert!(resp.metrics.is_none());
}

#[test]
fn command_response_carries_run_number_and_metrics() {
    let mut metrics = Metrics::new();
    metrics.put_u64("frames", 108);
    metrics.put_u64("bytes", 15_040_512);
    metrics.put_u64("drops", 0);
    let resp = CommandResponse::success(ComponentState::Configured, "stopped")
        .with_run_number(17)
        .with_metrics(metrics);
    assert_eq!(resp.run_number, Some(17));
    assert_eq!(resp.metrics.as_ref().unwrap().get_u64("frames"), Some(108));
    assert!(resp.success);
}

#[test]
fn error_response_reports_the_unchanged_state() {
    let resp = CommandResponse::error(ComponentState::Configured, "illegal transition");
    assert!(!resp.success);
    assert_eq!(resp.state.name(), "Configured");
    assert_eq!(resp.state, ComponentState::Configured);
}

#[test]
fn component_state_displays_as_its_json_name() {
    for state in ALL_STATES {
        assert_eq!(state.name(), format!("{state:?}"));
    }
}

#[test]
fn a_command_is_named_with_its_run() {
    assert_eq!(configure(17, "x", &[]).text(), "Configure(run=17)");
    assert_eq!(Command::Start { run_number: 42 }.text(), "Start(run=42)");
    assert_eq!(Command::Arm.text(), "Arm");
    assert_eq!(Command::Stop.text(), "Stop");
    assert_eq!(Command::Reset.text(), "Reset");
    assert_eq!(Command::GetStatus.text(), "GetStatus");
}

#[test]
fn the_first_metric_of_a_name_is_found() {
    let mut metrics = Metrics::new();
    metrics.put_u64("a", 1);
    metrics.put_u64("a", 2);
    metrics.put("t", Metric::Text("x".to_string()));
    assert_eq!(metrics.get_u64("a"), Some(1));
    assert_eq!(metrics.get_u64("t"), None);
    assert_eq!(metrics.get_text("t").map(|s| s.as_str()), Some("x"));
    assert!(metrics.get("b").is_none());
}

#[test]
fn a_timeout_fits_the_socket() {
    assert_eq!(socket_timeout_ms(5000), 5000);
    assert_eq!(socket_timeout_ms(1 << 40), i32::MAX);
}

#[test]
fn the_command_task_binds_again_after_a_failure_and_ends_only_at_a_shutdown() {
    let mut task = CommandTask::new();
    assert_eq!(task.step, TaskStep::Bind);
    for (event, next) in [
        (TaskEvent::Failed, TaskStep::Wait),
        (TaskEvent::Done, TaskStep::Bind),
        (TaskEvent::Done, TaskStep::Receive),
        (TaskEvent::Done, TaskStep::Answer),
        (TaskEvent::Shutdown, TaskStep::Answer),
        (TaskEvent::Failed, TaskStep::Bind),
        (TaskEvent::Done, TaskStep::Receive),
        (TaskEvent::Failed, TaskStep::Bind),
        (TaskEvent::Done, TaskStep::Receive),
        (TaskEvent::Shutdown, TaskStep::Stop),
        (TaskEvent::Done, TaskStep::Stop),
    ] {
        task.advance(event);
        assert_eq!(task.step, next);
    }
}

#[test]
fn a_command_that_cannot_be_read_is_answered_with_the_last_state() {
    let mut task = CommandTask::new();
    let answer = task.answer_invalid("expected value");
    assert!(!answer.success);
    assert_eq!(answer.state, ComponentState::Idle);
    assert_eq!(answer.message, "invalid command: expected value");
    task.remember(&CommandResponse::success(ComponentState::Armed, "ok"));
    let answer = task.answer_empty();
    assert!(!answer.success);
    assert_eq!(answer.state, ComponentState::Armed);
    assert_eq!(answer.message, "empty command message");
}

fn perform(handler: &mut Handler, command: &Command, outcome: Outcome) -> CommandResponse {
    match handler.handle(command, false) {
        Verdict::Answer(answer) => answer,
        Verdict::Perform(_) => handler.finish(command, outcome),
    }
}

#[test]
fn a_component_goes_through_a_whole_run() {
    let mut handler = Handler::new();
    let configured = perform(&mut handler, &configure(57, "", &[]), Outcome::Done);
    assert!(configured.success);
    assert_eq!(configured.message, "Configure(run=57) ok");
    assert_eq!((configured.state, configured.run_number), (ComponentState::Configured, Some(57)));
    let armed = perform(
        &mut handler,
        &Command::Arm,
        Outcome::Bound("tcp://0.0.0.0:47001".to_string()),
    );
    assert_eq!(armed.state, ComponentState::Armed);
    assert_eq!(handler.bind_address.as_deref(), Some("tcp://0.0.0.0:47001"));
    let reported = handler.with_report(armed, None);
    let metrics = reported.metrics.unwrap();
    assert_eq!(
        metrics.get_text("bind_address").map(|s| s.as_str()),
        Some("tcp://0.0.0.0:47001")
    );
    match handler.handle(&Command::Start { run_number: 57 }, false) {
        Verdict::Perform(work) => assert_eq!(work, Work::Start { run_number: 57 }),
        Verdict::Answer(_) => panic!("a start is performed"),
    }
    let started = handler.finish(&Command::Start { run_number: 57 }, Outcome::Done);
    assert_eq!(started.state, ComponentState::Running);
    assert!(!handler.armed);
    let stopped = perform(&mut handler, &Command::Stop, Outcome::Done);
    assert_eq!(stopped.state, ComponentState::Configured);
    assert_eq!(handler.bind_address, None);
    let reset = perform(&mut handler, &Command::Reset, Outcome::Done);
    assert_eq!((reset.state, reset.run_number), (ComponentState::Idle, None));
}

#[test]
fn a_command_that_the_state_does_not_allow_is_refused() {
    let mut handler = Handler::new();
    let refused = perform(&mut handler, &Command::Arm, Outcome::Done);
    assert!(!refused.success);
    assert_eq!(refused.message, "illegal transition Idle -> Armed");
    assert_eq!(refused.state, ComponentState::Idle);
    let status = perform(&mut handler, &Command::GetStatus, Outcome::Done);
    assert!(status.success);
    assert_eq!(status.message, "status");
}

#[test]
fn a_start_without_an_input_socket_is_refused() {
    let mut handler = Handler::new();
    perform(&mut handler, &configure(1, "", &[]), Outcome::Done);
    perform(&mut handler, &Command::Arm, Outcome::Bound("tcp://a:1".to_string()));
    let start = Command::Start { run_number: 1 };
    let lost = perform(&mut handler, &start, Outcome::Lost("no thread".to_string()));
    assert!(!lost.success);
    assert_eq!(lost.message, "no thread");
    assert_eq!(lost.state, ComponentState::Armed);
    let refused = perform(&mut handler, &start, Outcome::Done);
    assert_eq!(refused.message, "no PULL socket: Arm again before Start");
}

#[test]
fn work_that_fails_leaves_the_state_alone() {
    let mut handler = Handler::new();
    perform(&mut handler, &configure(1, "", &[]), Outcome::Done);
    let failed = perform(&mut handler, &Command::Arm, Outcome::Failed("in use".to_string()));
    assert!(!failed.success);
    assert_eq!((failed.message.as_str(), failed.state), ("in use", ComponentState::Configured));
}

#[test]
fn a_fault_of_the_worker_shows_as_an_error_and_is_left_by_a_reset() {
    let mut handler = Handler::new();
    handler.latch_error(true);
    assert_eq!(handler.state, ComponentState::Idle);
    perform(&mut handler, &configure(1, "", &[]), Outcome::Done);
    match handler.handle(&Command::GetStatus, true) {
        Verdict::Answer(answer) => assert_eq!(answer.state, ComponentState::Error),
        Verdict::Perform(_) => panic!("a question is answered"),
    }
    let refused = perform(&mut handler, &Command::Stop, Outcome::Done);
    assert!(!refused.success);
    assert_eq!(refused.message, "illegal transition Error -> Configured");
    assert!(perform(&mut handler, &Command::Reset, Outcome::Done).success);
    assert_eq!(handler.state, ComponentState::Idle);
}

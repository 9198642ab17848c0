//! Run control: starting and stopping runs, and who may do it.

use std::collections::{BTreeMap, BTreeSet};

use tpcdaq::command::{
    Command, CommandResponse, ComponentState, FileEntry, Metric, Metrics,
};
use tpcdaq::config::{CoboConfig, Config, ConfigIds, ControllerConfig};
use tpcdaq::config::{
    DecoderConfig, GrawWriterConfig, MonitorConfig, ReceiverConfig, RootSinkConfig, SystemConfig,
};
use tpcdaq::controller::{
    configure_request, counters_fit, counters_from, ecc_request, files_from, knows_action,
    router_ip, run_start_config_fields, stop_mode, ActiveRun, CoboSpec, ComponentEndpoint,
    ComponentKind, ComponentStatus, Control, ControllerParams, EccReply, EccRequest, LinkItem,
    OutputFile, Phase, Refusal, RouterLink, StopMode, TimeSpan, ARM_MAX_ATTEMPTS,
};
use tpcdaq::sequencer::{Sequencer, StartFailure, Transport};

/// One thing that was asked of a component, or of the electronics.
#[derive(Debug, Clone, PartialEq, Eq)]
struct Call {
    component: String,
    action: String,
}

impl Call {
    fn new(component: &str, action: &str) -> Self {
        Self {
            component: component.to_string(),
            action: action.to_string(),
        }
    }
}

fn counts(items: &[(&str, u64)]) -> Metrics {
    let mut metrics = Metrics::new();
    for (key, n) in items {
        metrics.put_u64(key, *n);
    }
    metrics
}

fn files_report(open: u64, files: &[(&str, u64)]) -> Metrics {
    let mut metrics = counts(&[("files_open", open)]);
    let entries = files
        .iter()
        .map(|(path, bytes)| FileEntry {
            path: Some(path.to_string()),
            bytes: Some(*bytes),
            detail: None,
        })
        .collect();
    metrics.put("files", Metric::Files(entries));
    metrics
}

/// Components and electronics that follow a script.
struct MockTransport {
    calls: Vec<Call>,
    names: BTreeMap<String, String>,
    fail: Vec<(String, String)>,
    refuse_arm: BTreeMap<String, u32>,
    metrics: BTreeMap<String, Metrics>,
    ecc_requests: Vec<EccRequest>,
    ecc_fail: Vec<String>,
    ecc_state: String,
    ecc_ignores: Vec<String>,
    /// After how many questions for a status all streams have ended.
    eos_after_polls: Option<usize>,
    eos_polls: usize,
    slept: u64,
}

impl MockTransport {
    fn new(params: &ControllerParams) -> Self {
        let mut names = BTreeMap::new();
        let mut metrics = BTreeMap::new();
        for (i, component) in params.components.iter().enumerate() {
            names.insert(component.endpoint.clone(), component.name.clone());
            let value = match component.kind {
                ComponentKind::Receiver { cobo_id } => {
                    let port = 46100 + u64::from(cobo_id);
                    let mut m = counts(&[
                        ("router_port", port),
                        ("frames", 3000 + i as u64),
                        ("overflow_frames", 0),
                    ]);
                    m.put("bind_address", Metric::Text(format!("0.0.0.0:{port}")));
                    m
                }
                ComponentKind::Decoder => counts(&[("eos_in", 0), ("malformed", 7)]),
                ComponentKind::GrawWriter => {
                    files_report(1, &[("run0001/CoBo0_AsAd0_ts_0000.graw", 30_108_672)])
                }
            };
            metrics.insert(component.name.clone(), value);
        }
        Self {
            calls: Vec::new(),
            names,
            fail: Vec::new(),
            refuse_arm: BTreeMap::new(),
            metrics,
            ecc_requests: Vec::new(),
            ecc_fail: Vec::new(),
            ecc_state: "Idle".to_string(),
            ecc_ignores: Vec::new(),
            eos_after_polls: None,
            eos_polls: 0,
            slept: 0,
        }
    }

    fn with_eos_closed(mut self) -> Self {
        self.eos_after_polls = Some(0);
        self
    }

    fn fail_on(mut self, component: &str, command: &str) -> Self {
        self.fail.push((component.to_string(), command.to_string()));
        self
    }

    fn refuse_arm_times(mut self, component: &str, times: u32) -> Self {
        self.refuse_arm.insert(component.to_string(), times);
        self
    }

    fn fail_ecc(mut self, action: &str) -> Self {
        self.ecc_fail.push(action.to_string());
        self
    }

    fn ecc_in(mut self, state: &str) -> Self {
        self.ecc_state = state.to_string();
        self
    }

    fn ecc_ignores(mut self, action: &str) -> Self {
        self.ecc_ignores.push(action.to_string());
        self
    }

    fn name_of(&self, endpoint: &str) -> String {
        self.names
            .get(endpoint)
            .cloned()
            .unwrap_or_else(|| endpoint.to_string())
    }

    fn actions(&self, component: &str) -> Vec<String> {
        self.calls
            .iter()
            .filter(|c| c.component == component && c.action != "GetStatus")
            .map(|c| c.action.clone())
            .collect()
    }

    fn commands(&self) -> Vec<Call> {
        self.calls
            .iter()
            .filter(|c| c.action != "GetStatus")
            .cloned()
            .collect()
    }

    fn index_of(&self, component: &str, action: &str) -> Option<usize> {
        self.calls
            .iter()
            .position(|c| c.component == component && c.action == action)
    }

    fn ecc_request(&self, action: &str) -> Option<&EccRequest> {
        self.ecc_requests.iter().find(|r| r.action == action)
    }
}

/// The transitions of the real electronics: what has none is ignored without a word.
fn ecc_transition(state: &str, action: &str) -> Option<&'static str> {
    match (action, state) {
        ("describe", "Off" | "Idle" | "Described") => Some("Described"),
        ("prepare", "Described" | "Prepared") => Some("Prepared"),
        ("configure", "Prepared") => Some("Ready"),
        ("start", "Ready") => Some("Running"),
        ("stop", "Running" | "Paused") => Some("Ready"),
        ("breakup", "Ready" | "Running" | "Paused") => Some("Prepared"),
        ("reset", "Described") => Some("Idle"),
        ("reset", "Prepared") => Some("Described"),
        _ => None,
    }
}

fn action_name(command: &Command) -> String {
    match command {
        Command::Configure(_) => "Configure".to_string(),
        Command::Arm => "Arm".to_string(),
        Command::Start { .. } => "Start".to_string(),
        Command::Stop => "Stop".to_string(),
        Command::Reset => "Reset".to_string(),
        Command::GetStatus => "GetStatus".to_string(),
    }
}

impl Transport for MockTransport {
    fn command(&mut self, endpoint: &str, command: &Command) -> Result<CommandResponse, String> {
        let name = self.name_of(endpoint);
        let action = action_name(command);
        self.calls.push(Call::new(&name, &action));

        let mut metrics = self.metrics.get(&name).cloned().unwrap_or(Metrics::new());
        if matches!(command, Command::GetStatus) {
            self.eos_polls += 1;
            let closed = self
                .eos_after_polls
                .is_some_and(|after| self.eos_polls > after);
            if closed {
                for (key, value) in metrics.entries.iter_mut() {
                    if key == "eos_in" {
                        *value = Metric::Uint(9);
                    }
                    if key == "files_open" {
                        *value = Metric::Uint(0);
                    }
                }
            }
        }

        let mut refused = self.fail.iter().any(|(c, a)| c == &name && a == &action);
        if action == "Arm" {
            if let Some(left) = self.refuse_arm.get_mut(&name) {
                if *left > 0 {
                    *left -= 1;
                    refused = true;
                }
            }
        }
        let state = ComponentState::Running;
        let response = if refused {
            CommandResponse::error(state, &format!("mock refuses {action}"))
        } else {
            CommandResponse::success(state, &format!("{action} ok"))
        };
        Ok(response.with_metrics(metrics))
    }

    fn ecc(&mut self, request: &EccRequest) -> Result<EccReply, String> {
        let action = request.action.clone();
        self.calls.push(Call::new("ecc", &action));
        self.ecc_requests.push(request.clone());
        if self.ecc_fail.contains(&action) {
            return Ok(EccReply {
                ok: false,
                state: self.ecc_state.clone(),
                error: format!("mock refuses {action}"),
            });
        }
        if !self.ecc_ignores.contains(&action) {
            if let Some(next) = ecc_transition(&self.ecc_state, &action) {
                self.ecc_state = next.to_string();
            }
        }
        Ok(EccReply {
            ok: true,
            state: self.ecc_state.clone(),
            error: String::new(),
        })
    }

    fn sleep(&mut self, ms: u64) {
        self.slept += ms;
    }

    fn now_ms(&mut self) -> u64 {
        self.slept
    }
}

fn params_with(cobo_ids: &[u32]) -> ControllerParams {
    let mut components = vec![
        ComponentEndpoint {
            name: "graw-writer".to_string(),
            endpoint: "inproc://gw".to_string(),
            kind: ComponentKind::GrawWriter,
        },
        ComponentEndpoint {
            name: "decoder".to_string(),
            endpoint: "inproc://dec".to_string(),
            kind: ComponentKind::Decoder,
        },
    ];
    let mut cobos = Vec::new();
    for &id in cobo_ids {
        components.push(ComponentEndpoint {
            name: format!("receiver{id}"),
            endpoint: format!("inproc://rx{id}"),
            kind: ComponentKind::Receiver { cobo_id: id },
        });
        cobos.push(CoboSpec {
            id,
            listen: format!("0.0.0.0:{}", 46005 + id),
            data_sender_id: format!("CoBo[{id}]"),
        });
    }
    ControllerParams {
        rest_listen: "127.0.0.1:0".to_string(),
        passphrase: "secret".to_string(),
        log_pull_bind: "inproc://logpost".to_string(),
        ui_dir: None,
        config_ids: ConfigIds::same("mock"),
        output_root: "/tmp/tpcdaq-mock".to_string(),
        geometry_path: "/tmp/tpcdaq-mock/geometry.dat".to_string(),
        cobos,
        components,
        ecc_endpoint: "inproc://ecc".to_string(),
        router_ip: None,
        eos_timeout: TimeSpan::from_secs(5),
        eos_poll_ms: 200,
        command_timeout_ms: 1000,
        ecc_timeout_ms: 1000,
        status_timeout_ms: 1000,
    }
}

#[test]
fn start_follows_the_spec_order_and_collects_router_ports() {
    let params = params_with(&[0, 1]);
    let mut mock = MockTransport::new(&params).ecc_in("Idle");
    let report = Sequencer::new(&params).start_run(&mut mock, 57, "gas test", "2026-08-14T10:00:00.000").unwrap();

    let expected = vec![
        Call::new("ecc", "status"),
        Call::new("graw-writer", "Configure"),
        Call::new("decoder", "Configure"),
        Call::new("receiver0", "Configure"),
        Call::new("receiver1", "Configure"),
        Call::new("graw-writer", "Arm"),
        Call::new("decoder", "Arm"),
        Call::new("receiver0", "Arm"),
        Call::new("receiver1", "Arm"),
        Call::new("graw-writer", "Start"),
        Call::new("decoder", "Start"),
        Call::new("receiver0", "Start"),
        Call::new("receiver1", "Start"),
        Call::new("ecc", "describe"),
        Call::new("ecc", "prepare"),
        Call::new("ecc", "configure"),
        Call::new("ecc", "start"),
    ];
    assert_eq!(mock.commands(), expected);

    assert_eq!(
        report.links,
        vec![
            RouterLink {
                cobo_id: 0,
                router_ip: "127.0.0.1".to_string(),
                router_port: 46100,
            },
            RouterLink {
                cobo_id: 1,
                router_ip: "127.0.0.1".to_string(),
                router_port: 46101,
            },
        ]
    );
    assert!(
        report.arm_retries.is_empty());
}

#[test]
fn the_start_sequence_walks_the_ecc_back_to_idle_before_touching_any_component() {
    let params = params_with(&[0]);
    let mut mock = MockTransport::new(&params).ecc_in("Ready");
    Sequencer::new(&params).start_run(&mut mock, 57, "", "2026-08-14T10:00:00.000").unwrap();

    let calls = mock.commands();
    let first_component = calls
        .iter()
        .position(|c| c.component != "ecc")
        .unwrap();
    assert_eq!(
        &calls[..first_component],
        &[
            Call::new("ecc", "status"),
            Call::new("ecc", "breakup"),
            Call::new("ecc", "reset"),
            Call::new("ecc", "reset"),
        ]);
}

#[test]
fn a_ready_ecc_is_walked_back_to_idle_before_the_run_starts() {
    let params = params_with(&[0]);
    let mut mock = MockTransport::new(&params).ecc_in("Ready");
    let report = Sequencer::new(&params).start_run(&mut mock, 57, "", "2026-08-14T10:00:00.000").unwrap();

    assert_eq!(
        &mock.commands()[..4],
        &[
            Call::new("ecc", "status"),
            Call::new("ecc", "breakup"),
            Call::new("ecc", "reset"),
            Call::new("ecc", "reset"),
        ]
    );

    assert_eq!(
        report.ecc_walk_back,
        vec![
            "status->Ready",
            "breakup->Prepared",
            "reset->Described",
            "reset->Idle",
        ]
    );
    assert_eq!(report.ecc_state_after_reset, "Idle");
}

#[test]
fn an_idle_ecc_is_left_alone() {
    let params = params_with(&[0]);
    let mut mock = MockTransport::new(&params).ecc_in("Idle");
    let report = Sequencer::new(&params).start_run(&mut mock, 57, "", "2026-08-14T10:00:00.000").unwrap();

    assert_eq!(
        mock.commands().first(),
        Some(&Call::new("ecc", "status")));
    for action in ["breakup", "reset", "stop"] {
        assert!(
            !mock.commands().contains(&Call::new("ecc", action)));
    }
    assert_eq!(report.ecc_walk_back, vec!["status->Idle"]);
    assert_eq!(report.ecc_state_after_reset, "Idle");
}

#[test]
fn a_running_ecc_is_stopped_first_and_then_walked_back_to_idle() {
    let params = params_with(&[0]);
    let mut mock = MockTransport::new(&params).ecc_in("Running");
    let report = Sequencer::new(&params).start_run(&mut mock, 57, "", "2026-08-14T10:00:00.000").unwrap();

    assert_eq!(
        &mock.commands()[..5],
        &[
            Call::new("ecc", "status"),
            Call::new("ecc", "stop"),
            Call::new("ecc", "breakup"),
            Call::new("ecc", "reset"),
            Call::new("ecc", "reset"),
        ]
    );
    assert_eq!(
        report.ecc_walk_back,
        vec![
            "status->Running",
            "stop->Ready",
            "breakup->Prepared",
            "reset->Described",
            "reset->Idle",
        ]
    );
}

#[test]
fn an_ecc_in_an_unknown_state_refuses_to_start_the_run() {
    let params = params_with(&[0]);
    let mut mock = MockTransport::new(&params).ecc_in("Unknown");
    let failure = Sequencer::new(&params).start_run(&mut mock, 57, "", "2026-08-14T10:00:00.000").unwrap_err();

    assert_eq!(failure.stage, "ecc");
    assert!(failure.detail.contains("Unknown"), "{}", failure.detail);
    assert_eq!(mock.commands(), vec![Call::new("ecc", "status")]);
}

#[test]
fn an_ecc_that_ignores_a_walk_back_step_in_silence_refuses_to_start_the_run() {
    let params = params_with(&[0]);
    let mut mock = MockTransport::new(&params)
        .ecc_in("Ready")
        .ecc_ignores("breakup");
    let failure = Sequencer::new(&params).start_run(&mut mock, 57, "", "2026-08-14T10:00:00.000").unwrap_err();

    assert_eq!(failure.stage, "ecc");
    assert!(failure.detail.contains("breakup"), "{}", failure.detail);
    assert!(failure.detail.contains("Ready"), "{}", failure.detail);

    assert_eq!(
        mock.commands(),
        vec![Call::new("ecc", "status"), Call::new("ecc", "breakup")]
    );
}

#[test]
fn a_failing_ecc_status_stops_the_run_before_any_component_is_configured() {
    let params = params_with(&[0]);
    let mut mock = MockTransport::new(&params).fail_ecc("status");
    let failure = Sequencer::new(&params).start_run(&mut mock, 57, "", "2026-08-14T10:00:00.000").unwrap_err();

    assert_eq!(failure.stage, "ecc");
    assert!(failure.detail.contains("status"), "{}", failure.detail);
    assert_eq!(mock.commands(), vec![Call::new("ecc", "status")]);
}

#[test]
fn a_failing_ecc_reset_stops_the_run_before_any_component_is_configured() {
    let params = params_with(&[0]);
    let mut mock = MockTransport::new(&params)
        .ecc_in("Ready")
        .fail_ecc("reset");
    let failure = Sequencer::new(&params).start_run(&mut mock, 57, "", "2026-08-14T10:00:00.000").unwrap_err();

    assert_eq!(failure.stage, "ecc");
    assert!(failure.detail.contains("reset"), "{}", failure.detail);
    assert_eq!(
        mock.commands(),
        vec![
            Call::new("ecc", "status"),
            Call::new("ecc", "breakup"),
            Call::new("ecc", "reset"),
        ]
    );
}

#[test]
fn arm_retries_with_exponential_backoff_and_records_the_attempts() {
    let params = params_with(&[0]);

    let mut mock = MockTransport::new(&params).refuse_arm_times("decoder", 2);
    let report = Sequencer::new(&params).start_run(&mut mock, 57, "", "2026-08-14T10:00:00.000").unwrap();

    assert_eq!(report.arm_retries.len(), 1, "{:?}", report.arm_retries);
    assert_eq!(report.arm_retries[0].component, "decoder");
    assert_eq!(report.arm_retries[0].attempts, 3);
    assert_eq!(
        mock.slept,
        60);

    assert_eq!(
        mock.actions("decoder"),
        vec!["Configure", "Arm", "Arm", "Arm", "Start"]
    );
    assert_eq!(
        mock.actions("graw-writer"),
        vec!["Configure", "Arm", "Start"]
    );
}

#[test]
fn arm_gives_up_after_the_retry_budget_and_says_how_hard_it_tried() {
    let params = params_with(&[0]);
    let mut mock = MockTransport::new(&params).fail_on("decoder", "Arm");
    let failure = Sequencer::new(&params).start_run(&mut mock, 57, "", "2026-08-14T10:00:00.000").unwrap_err();

    assert_eq!(failure.stage, "Arm");
    assert!(
        failure.detail.contains("6 attempts"));
    assert_eq!(mock.slept, 620);
    assert_eq!(
        mock.actions("decoder")
            .iter()
            .filter(|a| *a == "Arm")
            .count(),
        ARM_MAX_ATTEMPTS as usize
    );
}

fn per_phase_ids() -> ConfigIds {
    ConfigIds {
        describe: "zCobo-ZC706".to_string(),
        prepare: "prep-xcfg".to_string(),
        configure: "pulser".to_string(),
    }
}

#[test]
fn the_run_sequence_sends_the_id_of_each_phase() {
    let params = ControllerParams {
        config_ids: per_phase_ids(),
        ..params_with(&[0])
    };
    let mut mock = MockTransport::new(&params);
    Sequencer::new(&params).start_run(&mut mock, 57, "", "2026-08-14T10:00:00.000").unwrap();

    assert_eq!(mock.ecc_request("describe").unwrap().config_id.as_deref(), Some("zCobo-ZC706"));
    assert_eq!(mock.ecc_request("prepare").unwrap().config_id.as_deref(), Some("prep-xcfg"));
    assert_eq!(mock.ecc_request("configure").unwrap().config_id.as_deref(), Some("pulser"));
    assert_eq!(mock.ecc_request("start").unwrap().config_id, None);
}

#[test]
fn configure_request_uses_the_configure_phase_id() {
    let params = ControllerParams {
        config_ids: per_phase_ids(),
        ..params_with(&[0])
    };
    let links = vec![RouterLink {
        cobo_id: 0,
        router_ip: "10.0.0.1".to_string(),
        router_port: 46005,
    }];
    assert_eq!(
        configure_request(&params, &links).config_id.as_deref(),
        Some("pulser")
    );
}

#[test]
fn run_start_config_fields_follow_the_nullable_rule() {
    assert_eq!(
        run_start_config_fields(&ConfigIds::same("default")),
        ("default".to_string(), None)
    );
    assert_eq!(
        run_start_config_fields(&per_phase_ids()),
        ("pulser".to_string(), Some(per_phase_ids()))
    );
}

#[test]
fn configure_request_carries_the_real_wire_quirks() {
    let params = params_with(&[0, 1]);
    let links = vec![
        RouterLink {
            cobo_id: 0,
            router_ip: "10.0.0.1".to_string(),
            router_port: 46005,
        },
        RouterLink {
            cobo_id: 1,
            router_ip: "10.0.0.1".to_string(),
            router_port: 46006,
        },
    ];
    let item = |sender: &str, router_port: u16| LinkItem {
        sender: sender.to_string(),
        router_ip: "10.0.0.1".to_string(),
        router_port,
        flow_type: "TCP".to_string(),
    };
    assert_eq!(
        configure_request(&params, &links),
        EccRequest {
            action: "configure".to_string(),
            config_id: Some("mock".to_string()),
            links: Some(vec![item("CoBo[0]", 46005), item("CoBo[1]", 46006)]),
        }
    );
}

#[test]
fn configure_failure_rolls_back_only_the_components_already_commanded() {
    let params = params_with(&[0, 1]);
    let mut mock = MockTransport::new(&params).fail_on("receiver0", "Configure");
    let failure = Sequencer::new(&params).start_run(&mut mock, 57, "", "2026-08-14T10:00:00.000").unwrap_err();

    assert_eq!(failure.stage, "Configure");
    assert_eq!(
        mock.commands(),
        vec![

            Call::new("ecc", "status"),
            Call::new("graw-writer", "Configure"),
            Call::new("decoder", "Configure"),
            Call::new("receiver0", "Configure"),

            Call::new("decoder", "Stop"),
            Call::new("decoder", "Reset"),
            Call::new("graw-writer", "Stop"),
            Call::new("graw-writer", "Reset"),
        ]
    );
    assert!(
        mock.actions("receiver1").is_empty());
}

#[test]
fn arm_failure_stops_every_component_it_already_commanded_and_never_starts() {
    let params = params_with(&[0, 1]);
    let mut mock = MockTransport::new(&params).fail_on("receiver1", "Arm");
    let failure = Sequencer::new(&params).start_run(&mut mock, 57, "", "2026-08-14T10:00:00.000").unwrap_err();

    assert_eq!(failure.stage, "Arm");
    let calls = mock.commands();
    assert!(
        !calls.iter().any(|c| c.action == "Start"));

    assert!(
        !calls
            .iter()
            .any(|c| c.component == "ecc" && c.action != "status"));

    for name in ["receiver1", "receiver0", "decoder", "graw-writer"] {
        let actions = mock.actions(name);
        assert!(
            actions.ends_with(&["Stop".to_string(), "Reset".to_string()]));
    }
}

#[test]
fn ecc_failure_rolls_back_every_started_component() {
    let params = params_with(&[0]);
    let mut mock = MockTransport::new(&params).fail_ecc("start");
    let failure = Sequencer::new(&params).start_run(&mut mock, 57, "", "2026-08-14T10:00:00.000").unwrap_err();

    assert_eq!(failure.stage, "ecc");
    for name in ["graw-writer", "decoder", "receiver0"] {
        let actions = mock.actions(name);
        assert_eq!(
            actions,
            vec!["Configure", "Arm", "Start", "Stop", "Reset"],
            "{name}"
        );
    }
}

#[test]
fn a_receiver_without_a_router_port_fails_the_arm_stage() {
    let params = params_with(&[0]);
    let mut mock = MockTransport::new(&params);
    mock.metrics
        .insert("receiver0".to_string(), counts(&[("frames", 0)]));
    let failure = Sequencer::new(&params).start_run(&mut mock, 57, "", "2026-08-14T10:00:00.000").unwrap_err();
    assert_eq!(failure.stage, "Arm");
    assert!(failure.detail.contains("router_port"), "{}", failure.detail);
}

#[test]
fn normal_stop_waits_for_eos_and_does_not_force_it() {
    let params = params_with(&[0]);
    let mut mock = MockTransport::new(&params).with_eos_closed();
    let report = Sequencer::new(&params).stop_run(&mut mock, StopMode::Normal).unwrap();

    assert!(report.eos_closed);
    assert!(!report.forced_eos);
    assert_eq!(report.reason, "normal");
    assert!(report.ok);
    assert_eq!(mock.slept, 0);

    assert_eq!(
        mock.commands(),
        vec![
            Call::new("ecc", "stop"),
            Call::new("receiver0", "Stop"),
            Call::new("receiver0", "Reset"),
            Call::new("decoder", "Stop"),
            Call::new("decoder", "Reset"),
            Call::new("graw-writer", "Stop"),
            Call::new("graw-writer", "Reset"),
        ]
    );
}

#[test]
fn stop_forces_eos_through_the_receivers_after_the_timeout() {
    let params = params_with(&[0]);

    let mut mock = MockTransport::new(&params);
    mock.eos_after_polls = Some(26);
    let report = Sequencer::new(&params).stop_run(&mut mock, StopMode::Normal).unwrap();

    assert!(report.forced_eos);
    assert!(report.eos_closed);
    assert_eq!(u128::from(mock.slept), params.eos_timeout.as_millis());

    let commands = mock.commands();
    assert_eq!(commands[0], Call::new("ecc", "stop"));
    assert_eq!(commands[1], Call::new("receiver0", "Stop"));

    assert_eq!(
        mock.actions("receiver0"),
        vec!["Stop", "Reset"]);
}

#[test]
fn abort_closes_with_eos_before_resetting_the_decoder() {
    let params = params_with(&[0]);
    let mut mock = MockTransport::new(&params).with_eos_closed();
    let report =
        Sequencer::new(&params).stop_run(&mut mock, StopMode::Abort("overflow".to_string())).unwrap();

    assert!(!report.ok);
    assert_eq!(report.reason, "abort:overflow");
    assert!(report.forced_eos);

    let forced_stop = mock.index_of("receiver0", "Stop").unwrap();
    let decoder_reset = mock.index_of("decoder", "Reset").unwrap();
    let eos_observed = mock
        .calls
        .iter()
        .enumerate()
        .position(|(i, c)| {
            i > forced_stop && c.component == "decoder" && c.action == "GetStatus"
        }).unwrap();
    assert!(
        eos_observed < decoder_reset);

    let decoder_stop = mock.index_of("decoder", "Stop").unwrap();
    assert!(eos_observed < decoder_stop);

    assert_eq!(mock.commands()[0], Call::new("ecc", "stop"));
}

#[test]
fn abort_continues_even_when_ecc_stop_fails() {
    let params = params_with(&[0]);
    let mut mock = MockTransport::new(&params)
        .with_eos_closed()
        .fail_ecc("stop");
    let report =
        Sequencer::new(&params).stop_run(&mut mock, StopMode::Abort("ecc-dead".to_string())).unwrap();

    assert_eq!(report.reason, "abort:ecc-dead");
    assert!(
        !report.notes.is_empty());
    for name in ["receiver0", "decoder", "graw-writer"] {
        assert_eq!(mock.actions(name), vec!["Stop", "Reset"], "{name}");
    }
}

#[test]
fn a_normal_stop_whose_ecc_stop_fails_is_reported_as_an_abort() {
    let params = params_with(&[0]);
    let mut mock = MockTransport::new(&params)
        .with_eos_closed()
        .fail_ecc("stop");
    let report = Sequencer::new(&params).stop_run(&mut mock, StopMode::Normal).unwrap();
    assert!(!report.ok);
    assert_eq!(report.reason, "abort:ecc-stop-failed");
}

#[test]
fn stop_reports_an_error_when_eos_never_propagates() {
    let params = params_with(&[0]);
    let mut mock = MockTransport::new(&params);
    let report = Sequencer::new(&params).stop_run(&mut mock, StopMode::Normal).unwrap();
    assert!(!report.ok);
    assert_eq!(report.reason, "error:eos-timeout");
    assert!(!report.eos_closed);
    assert!(report
        .notes
        .iter()
        .any(|n| n.contains("EOS did not propagate")));
}

#[test]
fn stop_fills_counters_and_files_from_get_status() {
    let params = params_with(&[0, 1]);
    let mut mock = MockTransport::new(&params).with_eos_closed();

    mock.metrics.insert(
        "receiver0".to_string(),
        counts(&[("frames", 3852), ("overflow_frames", 3), ("router_port", 46100)]),
    );
    mock.metrics.insert(
        "receiver1".to_string(),
        counts(&[("frames", 3849), ("overflow_frames", 5), ("router_port", 46101)]),
    );
    mock.metrics
        .insert("decoder".to_string(), counts(&[("eos_in", 9), ("malformed", 4)]));
    mock.metrics.insert(
        "graw-writer".to_string(),
        files_report(
            0,
            &[
                ("run0057/CoBo0_AsAd0_ts_0000.graw", 30_108_672),
                ("run0057/CoBo0_AsAd1_ts_0000.graw", 30_108_100),
            ],
        ),
    );

    let report = Sequencer::new(&params).stop_run(&mut mock, StopMode::Normal).unwrap();

    assert_eq!(report.counters.frames, vec![(0, 3852), (1, 3849)]);
    assert_eq!(report.counters.overflow_frames, Some(8));
    assert_eq!(report.counters.malformed, Some(4));

    assert_eq!(report.counters.events_built, None);
    assert_eq!(report.counters.events_incomplete, None);
    assert_eq!(report.counters.late_fragments, None);
    assert_eq!(
        report.files,
        vec![
            OutputFile {
                path: "run0057/CoBo0_AsAd0_ts_0000.graw".to_string(),
                bytes: 30_108_672,
            },
            OutputFile {
                path: "run0057/CoBo0_AsAd1_ts_0000.graw".to_string(),
                bytes: 30_108_100,
            },
        ]
    );
}

#[test]
fn counters_keep_a_key_for_every_configured_cobo() {
    let params = params_with(&[0, 1]);
    let statuses = vec![];
    let counters = counters_from(&params, &statuses);
    assert_eq!(counters.frames, vec![(0, 0), (1, 0)]);
}


#[test]
fn router_ip_prefers_the_config_then_the_actual_bind_address() {
    let address = |s: &str| s.to_string();
    assert_eq!(
        router_ip(&Some("192.168.1.10".to_string()), Some(&address("0.0.0.0:46005"))),
        "192.168.1.10"
    );
    assert_eq!(router_ip(&None, Some(&address("10.0.0.7:46005"))), "10.0.0.7");
    assert_eq!(router_ip(&None, Some(&address("0.0.0.0:46005"))), "127.0.0.1");
    assert_eq!(router_ip(&None, None), "127.0.0.1");
}

fn acquire(control: &mut Control, operator: &str, token: &str) -> Option<String> {
    control.acquire("secret", "secret", operator, token).unwrap()
}

#[test]
fn acquire_always_preempts_and_names_the_previous_holder() {
    let mut control = Control::new();
    let preempted = acquire(&mut control, "aogaki", "a");
    assert_eq!(preempted, None);
    assert_eq!(control.authorize("a").unwrap(), "aogaki");

    let preempted = acquire(&mut control, "student", "b");
    assert_eq!(preempted.as_deref(), Some("aogaki"));

    assert!(control.authorize("a").is_err());
    assert_eq!(control.authorize("b").unwrap(), "student");
}

#[test]
fn authorize_rejects_an_empty_or_unknown_token() {
    let mut control = Control::new();
    assert_eq!(control.authorize(""), Err("no operator holds the control token"));
    acquire(&mut control, "aogaki", "a");
    assert_eq!(control.authorize("bogus"), Err("stale or unknown token"));
}

#[test]
fn params_from_config_uses_the_spec_default_endpoint_table() {
    let config = Config {
        system: SystemConfig {
            experiment: "mini_eTPC".to_string(),
            output_root: "/data/tpcdaq".to_string(),
            geometry: "/data/geometry.dat".to_string(),
        },
        cobo: [0u32, 1]
            .iter()
            .map(|id| CoboConfig {
                id: *id,
                listen: format!("0.0.0.0:{}", 46005 + id),
                data_sender_id: format!("CoBo[{id}]"),
            })
            .collect(),
        receiver: ReceiverConfig {
            batch_max_bytes: 1,
            batch_max_ms: 1,
            queue_frames: 1,
            heartbeat_ms: 1,
            hwm: 1,
            graw_writer_endpoint: "g".to_string(),
            decoder_endpoint: "d".to_string(),
        },
        graw_writer: GrawWriterConfig {
            pull_bind: "p".to_string(),
            max_file_bytes: 1,
            flush_interval_ms: 1,
        },
        decoder: DecoderConfig {
            workers: 1,
            pull_bind: "p".to_string(),
            push_connect: "c".to_string(),
            batch_max_bytes: 1,
            batch_max_ms: 1,
        },
        root_sink: RootSinkConfig {
            snapshot_hz: "1.0".to_string(),
            event_publish_hz: "20.0".to_string(),
            build_timeout_ms: 1000,
        },
        monitor: MonitorConfig {
            ws_listen: "0.0.0.0:9000".to_string(),
            sub_endpoint: "s".to_string(),
            geometry: "/data/geometry.dat".to_string(),
            live_queue: 64,
        },
        controller: ControllerConfig {
            rest_listen: "0.0.0.0:8080".to_string(),
            passphrase: "change-me".to_string(),
            ecc_proxy: "Ecc:tcp -h 127.0.0.1 -p 46002".to_string(),
            config_id: ConfigIds::same("default"),
            log_pull_bind: "tcp://*:47005".to_string(),
            eos_timeout_s: 5,
            eos_quiesce_ms: 500,
            ui_dir: None,
            graw_writer_command: "tcp://127.0.0.1:47100".to_string(),
            decoder_command: "tcp://127.0.0.1:47101".to_string(),
            receiver_commands: vec![
                "tcp://127.0.0.1:47110".to_string(),
                "tcp://127.0.0.1:47111".to_string(),
            ],
            ecc_command: "tcp://127.0.0.1:47200".to_string(),
            router_ip: None,
        },
    };
    let params = ControllerParams::from_config(&config);

    assert_eq!(
        params
            .components
            .iter()
            .map(|c| (c.name.as_str(), c.endpoint.as_str()))
            .collect::<Vec<_>>(),
        vec![
            ("graw-writer", "tcp://127.0.0.1:47100"),
            ("decoder", "tcp://127.0.0.1:47101"),
            ("receiver0", "tcp://127.0.0.1:47110"),
            ("receiver1", "tcp://127.0.0.1:47111"),
        ]
    );
    assert_eq!(params.ecc_endpoint, "tcp://127.0.0.1:47200");
    assert_eq!(params.log_pull_bind, "tcp://*:47005");
    assert_eq!(params.eos_timeout, TimeSpan::from_secs(5));
    assert_eq!(params.rest_listen, "0.0.0.0:8080");
    assert_eq!(params.ui_dir, None);
    assert_eq!(params.cobos[1].data_sender_id, "CoBo[1]");
    assert_eq!(
        params.cobo_listens(),
        vec![(0, "0.0.0.0:46005".to_string()), (1, "0.0.0.0:46006".to_string())]
    );
    assert_eq!(params.data_sender_id(1), "CoBo[1]");
}

fn refusal<T: std::fmt::Debug>(r: Result<T, Refusal>) -> (u16, String) {
    let e = r.unwrap_err();
    (e.code(), e.why().clone())
}

#[test]
fn a_wrong_passphrase_changes_nothing() {
    let mut control = Control::new();
    acquire(&mut control, "aogaki", "a");
    let refused = control.acquire("secret", "guess", "other", "b");
    assert_eq!(refusal(refused), (403, "wrong passphrase".to_string()));
    assert_eq!(control.operator().map(|s| s.as_str()), Some("aogaki"));
}

#[test]
fn one_run_is_on_at_a_time() {
    let mut control = Control::new();
    assert_eq!(refusal(control.begin_start("a")).0, 401);
    acquire(&mut control, "aogaki", "a");
    assert_eq!(refusal(control.begin_stop("a")).0, 409);
    assert_eq!(control.begin_start("a").unwrap(), "aogaki");
    assert_eq!(control.phase().name(), "Starting");
    assert_eq!(refusal(control.begin_start("a")).0, 409);
    control.started(ActiveRun {
        run: 57,
        operator: "aogaki".to_string(),
        comment: "gas".to_string(),
        started_ts: "t".to_string(),
        started_ns: 1,
    });
    assert_eq!(control.phase(), Phase::Running);
    assert_eq!(control.active().as_ref().unwrap().run, 57);
    assert_eq!(refusal(control.check_next("a", Some(3), "3")).0, 409);
    assert_eq!(control.begin_stop("a").unwrap(), "aogaki");
    assert_eq!(control.phase(), Phase::Stopping);
    control.ended();
    assert_eq!(control.phase(), Phase::default());
    assert!(control.active().is_none());
}

#[test]
fn the_number_of_the_next_run_has_to_make_sense() {
    let mut control = Control::new();
    assert_eq!(refusal(control.check_next("a", Some(3), "3")).0, 401);
    acquire(&mut control, "aogaki", "a");
    assert_eq!(control.check_next("a", Some(3), "3").unwrap(), ("aogaki".to_string(), 3));
    assert_eq!(refusal(control.check_next("a", None, "\"x\"")).0, 400);
    assert_eq!(refusal(control.check_next("a", Some(1 << 32), "4294967296")).0, 400);
}

#[test]
fn only_known_actions_reach_the_electronics() {
    let mut control = Control::new();
    acquire(&mut control, "aogaki", "a");
    for action in ["describe", "prepare", "configure", "start", "stop", "breakup", "reset"] {
        assert!(knows_action(action));
        assert!(control.check_ecc("a", action).is_ok());
    }
    let refused = control.check_ecc("a", "explode");
    assert_eq!(refusal(refused), (400, "unknown ecc action: explode".to_string()));
    assert_eq!(refusal(control.check_ecc("b", "reset")).0, 401);
    let ids = per_phase_ids();
    assert_eq!(ecc_request(&ids, "prepare").config_id.as_deref(), Some("prep-xcfg"));
    assert_eq!(ecc_request(&ids, "reset"), EccRequest::plain("reset"));
}

#[test]
fn giving_up_control_ends_the_token() {
    let mut control = Control::new();
    acquire(&mut control, "aogaki", "a");
    assert_eq!(refusal(control.release("b")).0, 401);
    assert_eq!(control.release("a").unwrap(), "aogaki");
    assert!(control.operator().is_none());
    assert!(control.authorize("a").is_err());
}

fn survey(params: &ControllerParams, mock: &mut MockTransport) -> Vec<ComponentStatus> {
    Sequencer::new(params).collect_status(mock, &mut Vec::new())
}

#[test]
fn a_component_in_error_turns_a_stop_into_an_abort() {
    let params = params_with(&[0]);
    let mut mock = MockTransport::new(&params);
    let mut statuses = survey(&params, &mut mock);
    assert!(matches!(stop_mode(&statuses), StopMode::Normal));
    statuses[1].state = Some(ComponentState::Error);
    statuses[2].state = Some(ComponentState::Error);
    match stop_mode(&statuses) {
        StopMode::Abort(why) => assert_eq!(why, "component-error:decoder,receiver0"),
        StopMode::Normal => panic!("an error aborts"),
    }
}

#[test]
fn every_component_is_asked_once_and_silence_is_noted_once() {
    struct Dead;
    impl Transport for Dead {
        fn command(&mut self, _: &str, _: &Command) -> Result<CommandResponse, String> {
            Err("no answer".to_string())
        }
        fn ecc(&mut self, _: &EccRequest) -> Result<EccReply, String> {
            Err("no answer".to_string())
        }
        fn sleep(&mut self, _: u64) {}
        fn now_ms(&mut self) -> u64 {
            0
        }
    }
    let params = params_with(&[0]);
    let mut notes = vec!["decoder: GetStatus failed: no answer".to_string()];
    let statuses = Sequencer::new(&params).collect_status(&mut Dead, &mut notes);
    assert_eq!(statuses.len(), 3);
    assert!(statuses.iter().all(|s| !s.reachable && s.state.is_none()));
    assert_eq!(statuses[0].error.as_deref(), Some("no answer"));
    assert_eq!(
        notes,
        vec![
            "decoder: GetStatus failed: no answer",
            "graw-writer: GetStatus failed: no answer",
            "receiver0: GetStatus failed: no answer",
        ]
    );
    assert_eq!(
        Sequencer::new(&params).configure_request_now(&mut Dead),
        Err("receiver0: GetStatus unreachable: no answer".to_string())
    );
    let failure = Sequencer::new(&params).start_run(&mut Dead, 1, "", "t").unwrap_err();
    assert_eq!(failure.stage, "ecc");
}

#[test]
fn totals_that_are_too_large_are_told_apart() {
    let params = params_with(&[0, 1]);
    let mut mock = MockTransport::new(&params).with_eos_closed();
    mock.metrics.insert("receiver0".to_string(), counts(&[("overflow_frames", u64::MAX)]));
    let statuses = survey(&params, &mut mock);
    assert!(counters_fit(&statuses));
    mock.metrics.insert("receiver1".to_string(), counts(&[("overflow_frames", 1)]));
    let statuses = survey(&params, &mut mock);
    assert!(!counters_fit(&statuses));
    assert!(Sequencer::new(&params).stop_run(&mut mock, StopMode::Normal).is_none());
}

#[test]
fn files_without_a_path_or_a_length_are_left_out() {
    let params = params_with(&[0]);
    let mut mock = MockTransport::new(&params);
    let mut metrics = Metrics::new();
    metrics.put(
        "files",
        Metric::Files(vec![
            FileEntry { path: Some("a".to_string()), bytes: None, detail: None },
            FileEntry { path: None, bytes: Some(1), detail: None },
            FileEntry { path: Some("b".to_string()), bytes: Some(2), detail: None },
        ]),
    );
    mock.metrics.insert("graw-writer".to_string(), metrics);
    let statuses = survey(&params, &mut mock);
    assert_eq!(files_from(&statuses), vec![OutputFile { path: "b".to_string(), bytes: 2 }]);
    assert_eq!(statuses[1].metric_u64("malformed"), Some(7));
}

#[test]
fn the_links_of_armed_receivers_can_be_asked_for() {
    let params = params_with(&[0, 1]);
    let mut mock = MockTransport::new(&params);
    let request = Sequencer::new(&params).configure_request_now(&mut mock).unwrap();
    let links = request.links.unwrap();
    assert_eq!(
        links.iter().map(|l| (l.sender.as_str(), l.router_port)).collect::<Vec<_>>(),
        vec![("CoBo[0]", 46100), ("CoBo[1]", 46101)]
    );
    assert_eq!(
        mock.calls,
        vec![Call::new("receiver0", "GetStatus"), Call::new("receiver1", "GetStatus")]
    );
    mock.metrics.insert("receiver1".to_string(), counts(&[("frames", 0)]));
    let why = Sequencer::new(&params).configure_request_now(&mut mock).unwrap_err();
    assert!(why.starts_with("receiver1: "), "{why}");
    assert!(why.ends_with(" (Arm the receivers first)"), "{why}");
}

#[test]
fn a_failed_start_is_told_with_what_went_wrong_while_undoing_it() {
    let failure = StartFailure {
        stage: "Arm",
        detail: "decoder: in use".to_string(),
        rollback_notes: vec!["a".to_string(), "b".to_string()],
    };
    assert_eq!(failure.text(), "Arm stage failed: decoder: in use (rollback: a; b)");
    let failure = StartFailure { rollback_notes: vec![], ..failure };
    assert_eq!(failure.text(), "Arm stage failed: decoder: in use");
}

#[test]
fn the_tokens_of_a_session_need_not_be_remembered_once_it_is_over() {
    let mut control = Control::new();
    let mut seen = BTreeSet::new();
    for n in 0..100 {
        let token = format!("{n}");
        acquire(&mut control, "aogaki", &token);
        seen.insert(token.clone());
        let valid = seen.iter().filter(|t| control.authorize(t).is_ok()).count();
        assert_eq!(valid, 1);
        assert!(control.authorize(&token).is_ok());
    }
}

#[test]
fn tokens_are_unique_per_acquire() {
    let mut control = Control::new();
    let mut seen = std::collections::BTreeSet::new();
    for n in 0..100 {
        let token = tpcdaq::controller::new_token(4660, 1_700_000_000_123_456_789, n);
        control.acquire("secret", "secret", "aogaki", &token).unwrap();
        assert!(control.authorize(&token).is_ok());
        assert!(seen.insert(token), "token が重複した");
    }
    assert_eq!(
        tpcdaq::controller::new_token(4660, 1_700_000_000_123_456_789, 10),
        format!("{:x}-{:x}-{:x}", 4660, 1_700_000_000_123_456_789u128, 10)
    );
    // The number tells them apart even where the time does not go on.
    assert_ne!(
        tpcdaq::controller::new_token(1, 0x23, 4),
        tpcdaq::controller::new_token(1, 0x2, 0x34)
    );
    assert_eq!(tpcdaq::controller::new_token(0, 0, u64::MAX), "0-0-ffffffffffffffff");
}

#[test]
fn a_timeout_may_be_less_than_a_second() {
    let params = ControllerParams {
        eos_timeout: TimeSpan { secs: 0, millis: 600 },
        ..params_with(&[0])
    };
    assert_eq!(TimeSpan { secs: 3, millis: 1500 }.as_millis(), 4500);
    let mut mock = MockTransport::new(&params);
    mock.eos_after_polls = None;
    let report = Sequencer::new(&params).stop_run(&mut mock, StopMode::Normal).unwrap();
    assert!(report.forced_eos);
    assert!(report.notes.iter().any(|n| n == "EOS did not propagate within 600 ms"));
    assert_eq!(mock.slept, 1200);
}

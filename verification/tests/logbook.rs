//! What is recorded of runs.

use tpcdaq::config::ConfigIds;
use tpcdaq::controller::{Counters, ControllerParams, CoboSpec, Refusal, RouterLink, TimeSpan};
use tpcdaq::logbook::{
    expected_fragments, geometry_record, refused, run_not_numbered, run_not_started,
    run_start_record, run_started, run_stopped, AuditValue, StartStep, NOBODY,
};
use tpcdaq::sequencer::{ArmRetry, StartFailure, StartReport, StopReport};

const TWO_COBOS: &str = "U 0 1 0 0 0 0 0.0 0.0 10\nV 0 2 1 1 2 3 0.0 0.0 10\nW 0 3 1 0 1 4 0.0 0.0 10\n";

#[test]
fn geometry_record_reports_the_sha256_and_the_expected_fragments() {
    let (record, fragments) = geometry_record("/data/geometry.dat", TWO_COBOS.as_bytes()).unwrap();
    assert_eq!(record.path, "/data/geometry.dat");
    assert_eq!(record.sha256.len(), 64);
    assert!(record.sha256.chars().all(|c| c.is_ascii_hexdigit()));
    assert_eq!(
        record.sha256,
        "2af42de71fa20a8aba69c82b2086895ed4fefac816df4a86df25bd6368e8b671"
    );
    assert_eq!(fragments, vec![(0, 0), (1, 0), (1, 1)]);
    assert_eq!(expected_fragments(TWO_COBOS), fragments);
}

#[test]
fn geometry_sha256_changes_with_the_file_content() {
    let digest = |content: &str| geometry_record("g", content.as_bytes()).unwrap().0.sha256;
    let sha_a = digest("0\t0\t0\t0\tU\t1\t2\n");
    let sha_b = digest("0\t0\t0\t1\tU\t1\t2\n");
    assert_eq!(sha_a, digest("0\t0\t0\t0\tU\t1\t2\n"));
    assert_ne!(sha_a, sha_b);
    assert_eq!(sha_a, "f55daa2e9e6974d888286e5c8cf96613caacce25ddd2f3e095b3abcf588c093b");
    assert_eq!(
        digest(""),
        "e3b0c44298fc1c149afbf4c8996fb92427ae41e4649b934ca495991b7852b855"
    );
}

#[test]
fn bytes_that_are_no_text_do_not_hide_the_lines_around_them() {
    let mut data = b"# \xFF\xFE\n".to_vec();
    data.extend_from_slice(TWO_COBOS.as_bytes());
    let (_, fragments) = geometry_record("g", &data).unwrap();
    assert_eq!(fragments, vec![(0, 0), (1, 0), (1, 1)]);
    let (_, fragments) = geometry_record("g", b"A\xFFB 0 0 0 1\n").unwrap();
    assert_eq!(fragments, vec![(0, 0)]);
}

#[test]
fn a_geometry_that_is_too_large_is_not_recorded() {
    assert!(geometry_record("g", b"U 0 1 0 4294967295 0 0 0.0 0.0 1\n").is_none());
}

fn params(config_ids: ConfigIds) -> ControllerParams {
    ControllerParams {
        rest_listen: "r".to_string(),
        passphrase: "p".to_string(),
        log_pull_bind: "l".to_string(),
        ui_dir: None,
        config_ids,
        output_root: "/data".to_string(),
        geometry_path: "/data/geometry.dat".to_string(),
        cobos: vec![CoboSpec {
            id: 3,
            listen: "0.0.0.0:46008".to_string(),
            data_sender_id: "CoBo[3]".to_string(),
        }],
        components: vec![],
        ecc_endpoint: "e".to_string(),
        router_ip: None,
        eos_timeout: TimeSpan::from_secs(5),
        eos_poll_ms: 200,
        command_timeout_ms: 1,
        ecc_timeout_ms: 1,
        status_timeout_ms: 1,
    }
}

#[test]
fn the_start_of_a_run_is_recorded_with_its_configuration() {
    let (geometry, fragments) = geometry_record("g", TWO_COBOS.as_bytes()).unwrap();
    let record = run_start_record(
        &params(ConfigIds::same("pulser")),
        57,
        "aogaki",
        "gas",
        geometry.clone(),
        fragments.clone(),
    );
    assert_eq!((record.run, record.config_id.as_str()), (57, "pulser"));
    assert_eq!(record.config_ids, None);
    assert_eq!(record.geometry.sha256, geometry.sha256);
    assert_eq!(record.cobos, vec![(3, "0.0.0.0:46008".to_string())]);
    assert_eq!((record.operator.as_str(), record.comment.as_str()), ("aogaki", "gas"));
    assert_eq!(record.expected_fragments, fragments);

    let differing = ConfigIds {
        describe: "d".to_string(),
        prepare: "p".to_string(),
        configure: "c".to_string(),
    };
    let record = run_start_record(&params(differing.clone()), 1, "", "", geometry, fragments);
    assert_eq!(record.config_id, "c");
    assert_eq!(record.config_ids, Some(differing));
}

fn keys(params: &[(String, AuditValue)]) -> Vec<&str> {
    params.iter().map(|(key, _)| key.as_str()).collect()
}

#[test]
fn an_entry_says_who_asked_for_what() {
    let entry = run_started(
        StartReport {
            run: 57,
            links: vec![RouterLink {
                cobo_id: 0,
                router_ip: "10.0.0.1".to_string(),
                router_port: 46100,
            }],
            arm_retries: vec![ArmRetry {
                component: "decoder".to_string(),
                attempts: 3,
                waited_ms: 60,
            }],
            ecc_state_after_reset: "Idle".to_string(),
            ecc_walk_back: vec!["status->Idle".to_string()],
        },
        "gas",
        "aogaki",
    );
    assert_eq!((entry.action.as_str(), entry.operator.as_str()), ("run/start", "aogaki"));
    assert!(entry.ok);
    assert_eq!(entry.error, None);
    assert_eq!(
        keys(&entry.params),
        vec!["run", "comment", "links", "arm_retries", "ecc_state_after_reset", "ecc_walk_back"]
    );
}

#[test]
fn a_run_that_was_not_started_is_told_too() {
    let failure = StartFailure {
        stage: "Arm",
        detail: "decoder: in use".to_string(),
        rollback_notes: vec![],
    };
    let entry = run_not_started(&failure, 57, "gas", true, "aogaki");
    assert!(!entry.ok);
    assert!(entry.error.unwrap().contains("decoder: in use"));
    assert_eq!(entry.action, "run/start");

    let entry = run_not_numbered("no geometry", "gas", "aogaki");
    assert!(!entry.ok);
    assert_eq!(entry.error.as_deref(), Some("no geometry"));
    assert_eq!(keys(&entry.params), vec!["comment"]);
}

#[test]
fn a_stop_is_told_with_its_reason() {
    let report = StopReport {
        ok: false,
        reason: "error:eos-timeout".to_string(),
        counters: Counters {
            events_built: None,
            events_incomplete: None,
            late_fragments: None,
            frames: vec![],
            overflow_frames: None,
            malformed: None,
        },
        files: vec![],
        forced_eos: true,
        eos_closed: false,
        notes: vec!["a".to_string(), "b".to_string()],
    };
    let entry = run_stopped(&report, 57, "aogaki");
    assert_eq!(entry.action, "run/stop");
    assert!(!entry.ok);
    assert_eq!(entry.error.as_deref(), Some("a; b"));
    assert_eq!(keys(&entry.params), vec!["run", "reason", "forced_eos", "eos_closed"]);
}

#[test]
fn a_refusal_is_told_with_its_reason() {
    let refusal = Refusal::Unauthorized("stale or unknown token".to_string());
    let entry = refused("run/stop", vec![], NOBODY, &refusal);
    assert!(!entry.ok);
    assert_eq!(entry.error.as_deref(), Some("stale or unknown token"));
    assert_eq!(entry.operator, NOBODY);
}

fn walk(mut step: StartStep, works: &[bool]) -> Vec<StartStep> {
    let mut steps = vec![step];
    for ok in works {
        step = step.next(*ok);
        steps.push(step);
    }
    steps
}

#[test]
fn a_recorded_number_is_kept_and_an_unused_one_given_back() {
    let first = StartStep::ReadGeometry;
    let well = walk(first, &[true, true, true, false, true]);
    assert_eq!(
        well,
        vec![
            StartStep::ReadGeometry,
            StartStep::TakeRun,
            StartStep::Sequence,
            StartStep::Record,
            StartStep::AuditStarted,
            StartStep::Started,
        ]
    );
    let badly = walk(first, &[true, true, false, false, false]);
    assert_eq!(
        badly[3..],
        [StartStep::Rewind, StartStep::AuditFailed, StartStep::Failed]
    );
    let early = walk(first, &[false, true, true]);
    assert_eq!(early[1..], [StartStep::AuditEarly, StartStep::Failed, StartStep::Failed]);
}

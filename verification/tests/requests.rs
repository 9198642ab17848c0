//! What operators ask for and what is written down of it.

use tpcdaq::controller::{
    ActiveRun, Control, Counters, EccReply, EccRequest, LinkItem, Phase, Refusal,
};
use tpcdaq::logbook::{
    run_stop_record, AuditEntry, AuditValue, LogPosts, Post, NOBODY,
};
use tpcdaq::requests::{
    acquire, ecc, ecc_answered, ecc_not_asked, next_run_set, release, run_next, run_start, run_stop,
};
use tpcdaq::sequencer::StopReport;

fn operated() -> Control {
    let mut control = Control::new();
    let (r, _) = acquire(&mut control, "secret", "secret", "aogaki", "t1");
    assert!(r.is_ok());
    control
}

fn keys(entry: &AuditEntry) -> Vec<&str> {
    entry.params.iter().map(|p| p.0.as_str()).collect()
}

fn text(value: &AuditValue) -> &str {
    match value {
        AuditValue::Text(s) => s,
        _ => panic!("not a text"),
    }
}

#[test]
fn taking_control_is_written_down_with_who_had_it() {
    let mut control = Control::new();
    let (r, entry) = acquire(&mut control, "secret", "wrong", "aogaki", "t0");
    assert!(matches!(r, Err(Refusal::Forbidden(_))));
    assert_eq!((entry.action.as_str(), entry.ok), ("control/acquire", false));
    assert_eq!(entry.operator, "aogaki");
    assert_eq!(entry.error.as_deref(), Some("wrong passphrase"));
    assert_eq!(keys(&entry), vec!["operator"]);
    assert!(control.operator().is_none());

    let (r, entry) = acquire(&mut control, "secret", "secret", "aogaki", "t1");
    assert_eq!(r.unwrap(), None);
    assert!(entry.ok);
    assert_eq!(keys(&entry), vec!["operator", "preempted"]);
    assert!(matches!(entry.params[1].1, AuditValue::Null));

    let (r, entry) = acquire(&mut control, "secret", "secret", "kubo", "t2");
    assert_eq!(r.unwrap().as_deref(), Some("aogaki"));
    assert_eq!(text(&entry.params[1].1), "aogaki");
    assert!(control.authorize("t1").is_err());
    assert_eq!(control.authorize("t2").unwrap(), "kubo");
}

#[test]
fn letting_control_go_is_written_down() {
    let mut control = operated();
    let (r, entry) = release(&mut control, "other");
    assert!(matches!(r, Err(Refusal::Unauthorized(_))));
    assert_eq!(entry.operator, NOBODY);
    assert_eq!(entry.error.as_deref(), Some("stale or unknown token"));
    let (r, entry) = release(&mut control, "t1");
    assert_eq!(r.unwrap(), "aogaki");
    assert_eq!((entry.action.as_str(), entry.ok, entry.error), ("control/release", true, None));
    assert!(control.authorize("t1").is_err());
}

#[test]
fn a_start_or_stop_that_is_turned_down_is_written_down() {
    let mut control = operated();
    assert_eq!(run_start(&mut control, "t1", "gas").unwrap(), "aogaki");
    assert_eq!(control.phase(), Phase::Starting);
    let (refusal, entry) = run_start(&mut control, "t1", "gas").unwrap_err();
    assert_eq!(refusal.code(), 409);
    assert_eq!(entry.operator, "aogaki");
    assert_eq!(entry.error.as_deref(), Some("controller is Starting — not Idle"));
    assert_eq!(keys(&entry), vec!["comment"]);
    assert_eq!(text(&entry.params[0].1), "gas");

    let (refusal, entry) = run_stop(&mut control, "t1").unwrap_err();
    assert_eq!(refusal.code(), 409);
    assert_eq!(entry.error.as_deref(), Some("controller is Starting — no run to stop"));
    let (refusal, entry) = run_stop(&mut control, "").unwrap_err();
    assert_eq!((refusal.code(), entry.operator.as_str()), (401, NOBODY));

    control.started(active());
    assert_eq!(run_stop(&mut control, "t1").unwrap(), "aogaki");
    assert_eq!(control.phase(), Phase::Stopping);
}

#[test]
fn the_next_number_is_written_down_as_it_was_asked_for() {
    let mut control = operated();
    assert_eq!(run_next(&control, "t1", Some(7), "7").unwrap(), ("aogaki".to_string(), 7));
    let (refusal, entry) = run_next(&control, "t1", None, "\"x\"").unwrap_err();
    assert_eq!(refusal.code(), 400);
    assert_eq!(
        entry.error.as_deref(),
        Some("next_run must be a positive integer, got \"x\"")
    );
    assert!(matches!(&entry.params[0].1, AuditValue::Sent(s) if s == "\"x\""));
    assert_eq!(run_next(&control, "t1", Some(0), "0").unwrap_err().0.code(), 400);
    assert_eq!(run_next(&control, "no", Some(7), "7").unwrap_err().0.code(), 401);
    assert!(keys(&run_next(&control, "no", Some(7), "7").unwrap_err().1).is_empty());

    run_start(&mut control, "t1", "").unwrap();
    let (refusal, entry) = run_next(&control, "t1", Some(7), "7").unwrap_err();
    assert_eq!(refusal.code(), 409);
    assert!(matches!(entry.params[0].1, AuditValue::Uint(7)));

    let (entry, why) = next_run_set(7, "aogaki", None);
    assert!(entry.ok && why.is_none());
    let (entry, why) = next_run_set(7, "aogaki", Some("disk full"));
    assert!(!entry.ok);
    assert_eq!(why.as_deref(), Some("cannot persist next_run: disk full"));
    assert_eq!(entry.error, why);
}

#[test]
fn what_the_electronics_were_asked_is_written_down() {
    let control = operated();
    assert_eq!(ecc(&control, "t1", "start").unwrap(), "aogaki");
    let (refusal, entry) = ecc(&control, "t1", "explode").unwrap_err();
    assert_eq!(refusal.code(), 400);
    assert_eq!(entry.action, "ecc/explode");
    assert_eq!(entry.error.as_deref(), Some("unknown ecc action: explode"));

    let request = EccRequest {
        action: "configure".to_string(),
        config_id: Some("c1".to_string()),
        links: Some(vec![LinkItem {
            sender: "CoBo[0]".to_string(),
            router_ip: "10.0.0.1".to_string(),
            router_port: 46005,
            flow_type: "TCP".to_string(),
        }]),
    };
    let answer = |ok: bool, error: &str| -> Result<EccReply, String> {
        Ok(EccReply { ok, state: "Ready".to_string(), error: error.to_string() })
    };
    let entry = ecc_answered("configure", &request, "aogaki", &answer(true, ""));
    assert!(entry.ok && entry.error.is_none());
    assert_eq!(keys(&entry), vec!["action", "config_id", "links"]);
    assert!(matches!(&entry.params[2].1, AuditValue::Items(i) if i[0].sender == "CoBo[0]"));
    let entry = ecc_answered("configure", &request, "aogaki", &answer(false, "busy"));
    assert_eq!((entry.ok, entry.error.as_deref()), (false, Some("busy")));
    let silent: Result<EccReply, String> = Err("no reply".to_string());
    let entry = ecc_answered("start", &EccRequest::plain("start"), "aogaki", &silent);
    assert_eq!((entry.ok, entry.error.as_deref()), (false, Some("no reply")));
    assert_eq!(keys(&entry), vec!["action"]);
    let entry = ecc_not_asked("configure", "aogaki", "Arm the receivers first");
    assert_eq!(entry.error.as_deref(), Some("Arm the receivers first"));
    assert!(keys(&entry).is_empty());
}

fn active() -> ActiveRun {
    ActiveRun {
        run: 57,
        operator: "aogaki".to_string(),
        comment: "gas".to_string(),
        started_ts: "2026-01-01T00:00:00.000".to_string(),
        started_ns: 5,
    }
}

#[test]
fn the_end_of_a_run_is_recorded() {
    let report = || StopReport {
        ok: true,
        reason: "normal".to_string(),
        counters: Counters {
            events_built: None,
            events_incomplete: None,
            late_fragments: None,
            frames: vec![(0, 9)],
            overflow_frames: Some(0),
            malformed: Some(0),
        },
        files: vec![],
        forced_eos: false,
        eos_closed: true,
        notes: vec![],
    };
    let record = run_stop_record(&Some(active()), report());
    assert_eq!((record.run, record.ok, record.reason.as_str()), (57, true, "normal"));
    assert_eq!(record.counters.frames, vec![(0, 9)]);
    assert_eq!(run_stop_record(&None, report()).run, 0);
}

#[test]
fn every_message_counts_once() {
    let mut posts = LogPosts::new();
    for post in [Post::Written, Post::NoRecord, Post::NotWritten, Post::Written, Post::Written] {
        posts.count(post);
    }
    assert_eq!((posts.accepted, posts.rejected), (3, 2));
}

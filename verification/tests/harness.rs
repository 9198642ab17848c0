//! An endurance test from its first run to its verdict.

use tpcdaq::command::{Metric, Metrics};
use tpcdaq::harness::{run_name, totals, Event, Harness, Health, Left, Limits, Stage};
use tpcdaq::soak::{
    Snapshot, EVENTS_PER_LAP, FINAL_ZERO, GRAW_BYTES_PER_LAP, MUST_BE_ZERO, ZERO_SOURCES,
};

fn limits() -> Limits {
    Limits { max_runs: Some(2), rss_limit_mib: 100, min_free_gib: 20, keep_outputs: false }
}

fn clean_status() -> Snapshot {
    let of = |prefix: &str| -> Metrics {
        let mut m = Metrics::new();
        for source in ZERO_SOURCES {
            if let Some(key) = source.strip_prefix(prefix) {
                m.put_u64(key, 0);
            }
        }
        m.put_u64("frames", 5);
        m
    };
    Snapshot {
        components: vec![
            ("receiver0".to_string(), of("recv.")),
            ("decoder".to_string(), of("dec.")),
            ("graw-writer".to_string(), of("gw.")),
        ],
        monitor: None,
    }
}

fn left(run: u32, laps: u64) -> Left {
    let name = run_name(run);
    Left {
        sink_log: Some("/log/root_sink.log".to_string()),
        monitor_file: format!("/data/{name}/{name}_monitor.root"),
        monitor_made: true,
        root_file: format!("/data/{name}/{name}.root"),
        root_made: true,
        lines: vec![
            format!("finalized /data/{name}/{name}.root ({} entries)", laps * EVENTS_PER_LAP),
            "finalized /data/run9999/run9999.root (5 entries)".to_string(),
        ],
        prefix: format!("/data/{name}/{name}"),
        graw_bytes: laps * GRAW_BYTES_PER_LAP,
        fatals: None,
        seconds: "12.5".to_string(),
    }
}

fn well() -> Health {
    Health {
        dead: None,
        procs: vec![("decoder".to_string(), Some(1024)), ("monitor".to_string(), None)],
        free_kib: Some(21 * 1024 * 1024),
        free_shown: "21.0".to_string(),
    }
}

fn replayed(laps: u64) -> Event {
    Event::Replayed {
        failed: None,
        printed: format!("sent {} bytes", laps * GRAW_BYTES_PER_LAP),
        shown: "\"..\"".to_string(),
    }
}

fn started(run: u64) -> Event {
    Event::Started { run: Some(run), shown: "{}".to_string() }
}

fn address() -> Event {
    Event::Address { address: Some("127.0.0.1:46005".to_string()), shown: "{}".to_string() }
}

fn polled() -> Event {
    Event::Polled { status: Some((clean_status(), "{}".to_string())), expired: false }
}

fn stopped() -> Event {
    Event::Stopped { ok: true, reason: Some("normal".to_string()), shown: "{}".to_string() }
}

/// The events of a run up to where it is judged.
fn run_events(run: u32, laps: u64) -> Vec<Event> {
    vec![
        Event::Clock { time_left: true, interrupted: false },
        started(run as u64),
        address(),
        replayed(laps),
        polled(),
        stopped(),
    ]
}

fn counts(laps: u64) -> Metrics {
    let mut m = Metrics::new();
    for key in FINAL_ZERO {
        m.put_u64(key, 0);
    }
    m.entries.push(("fatal".to_string(), Metric::Text(String::new())));
    m.put_u64("events_complete", laps * EVENTS_PER_LAP);
    m.put_u64("entries_written", laps * EVENTS_PER_LAP);
    m
}

fn shut_down(laps: u64) -> Event {
    Event::ShutDown {
        counts: Some(counts(laps)),
        shown: "{..}".to_string(),
        fatal_shown: "\"\"".to_string(),
    }
}

fn feed(h: &mut Harness, events: Vec<Event>) {
    for e in events {
        h.handle(e);
    }
}

/// A test that has come to what is to be done after `events`.
fn at(events: Vec<Event>) -> Harness {
    let mut h = Harness::new(limits());
    h.handle(Event::Acquired { token: true });
    feed(&mut h, events);
    h
}

fn finish(mut h: Harness, laps: u64) -> Option<String> {
    assert_eq!(h.stage(), Stage::Sampler);
    h.handle(Event::SamplerStopped);
    assert_eq!(h.stage(), Stage::ShutDown);
    assert!(h.can_end());
    h.handle(shut_down(laps));
    assert_eq!(h.stage(), Stage::Report);
    h.handle(Event::Reported(None));
    assert_eq!(h.stage(), Stage::Over);
    h.verdict().clone()
}

#[test]
fn a_test_of_two_runs_passes() {
    let mut h = Harness::new(limits());
    assert_eq!(h.stage(), Stage::Acquire);
    h.handle(Event::Acquired { token: true });
    for (run, laps) in [(57u32, 3u64), (58, 2)] {
        assert_eq!(h.stage(), Stage::Clock);
        feed(&mut h, run_events(run, laps));
        assert_eq!(h.stage(), Stage::Evidence);
        assert_eq!(h.run(), run);
        assert_eq!(h.address(), "127.0.0.1:46005");
        let l = left(run, laps);
        assert!(Harness::can_judge(&l));
        h.handle(Event::Left(l));
        assert_eq!(h.stage(), Stage::Health);
        h.handle(Event::Health(well()));
        assert_eq!(h.stage(), Stage::Remove);
        h.handle(Event::Removed);
        assert_eq!(h.stage(), Stage::Flags);
        h.handle(Event::Flags { interrupted: false, stop: false });
    }
    assert_eq!(h.stage(), Stage::Probe, "two runs are wanted and no more");
    assert_eq!(h.results().len(), 2);
    assert_eq!(totals(h.results()), Some((5, 5 * GRAW_BYTES_PER_LAP)));
    assert!(h.results().iter().all(|r| r.entries == r.laps * EVENTS_PER_LAP));
    h.handle(Event::Probed { messages: 9 });
    assert_eq!(h.failure(), &None);
    assert_eq!(finish(h, 5), None);
}

#[test]
fn whatever_fails_is_told_and_everything_is_shut_down() {
    let failed = |h: Harness, why: &str| {
        assert_eq!(h.failure().as_deref(), Some(why));
        assert_eq!(finish(h, 0).as_deref(), Some(why));
    };

    let mut h = Harness::new(limits());
    h.handle(Event::Acquired { token: false });
    failed(h, "acquire が token を返さない");

    let mut h = Harness::new(limits());
    h.handle(Event::Failed("connect to the controller".to_string()));
    failed(h, "connect to the controller");

    let clock = || Event::Clock { time_left: true, interrupted: false };
    failed(
        at(vec![clock(), Event::Started { run: None, shown: "{\"x\":1}".to_string() }]),
        "run/start に run 番号が無い: {\"x\":1}",
    );
    failed(
        at(vec![
            clock(),
            started(1),
            Event::Address { address: None, shown: "{}".to_string() },
        ]),
        "receiver0 の bind_address が無い(Arm 済みか): {}",
    );
    let sent = |e: Event| at(vec![clock(), started(1), address(), e]);
    failed(
        sent(Event::Replayed {
            failed: Some("ExitStatus(1)".to_string()),
            printed: String::new(),
            shown: String::new(),
        }),
        "graw_replay が失敗した: ExitStatus(1)",
    );
    failed(
        sent(Event::Replayed {
            failed: None,
            printed: "nothing".to_string(),
            shown: "\"nothing\"".to_string(),
        }),
        "graw_replay の stdout が読めない: \"nothing\"",
    );
    failed(sent(replayed(0)), "1 周も送れていない(--run-minutes が短すぎる)");
    failed(
        sent(Event::Replayed {
            failed: None,
            printed: "sent 5 bytes".to_string(),
            shown: String::new(),
        }),
        "graw_replay が lap 境界で止まっていない: 5 B は 30108684 B の整数倍でない",
    );
    failed(
        at(vec![
            clock(),
            started(3),
            address(),
            replayed(1),
            polled(),
            Event::Stopped {
                ok: true,
                reason: Some("error:eos-timeout".to_string()),
                shown: "{}".to_string(),
            },
        ]),
        "run 3 の停止が正常でない: {}",
    );

    // Nothing came from the monitor.
    failed(
        at(vec![
            Event::Clock { time_left: false, interrupted: false },
            Event::Probed { messages: 0 },
        ]),
        "WS probe が 1 通も status を受けていない(モニタ経路が死んでいる)",
    );
}

#[test]
fn the_counters_are_asked_for_until_all_components_report() {
    let mut partial = clean_status();
    partial.components.pop();
    let ask = |status: Option<Snapshot>, expired: bool| Event::Polled {
        status: status.map(|s| (s, "{\"c\":2}".to_string())),
        expired,
    };
    let clock = Event::Clock { time_left: true, interrupted: false };
    let mut h = at(vec![clock, started(1), address(), replayed(1)]);
    assert_eq!(h.stage(), Stage::Metrics);
    h.handle(ask(None, false));
    h.handle(ask(Some(partial.clone()), false));
    assert_eq!(h.stage(), Stage::Metrics);
    h.handle(ask(Some(clean_status()), true));
    assert_eq!(h.stage(), Stage::Stop, "an answer that is complete counts at the last moment");

    let clock = Event::Clock { time_left: true, interrupted: false };
    let mut h = at(vec![clock, started(1), address(), replayed(1)]);
    h.handle(ask(Some(partial), false));
    h.handle(ask(None, true));
    assert_eq!(
        h.failure().as_deref(),
        Some("/api/status が 30s 以内に 3 コンポーネント分の metrics を揃えなかった: {\"c\":2}")
    );
}

#[test]
fn the_files_of_a_run_that_does_not_pass_are_kept() {
    let judged = |change: fn(&mut Left)| -> Harness {
        let mut h = at(run_events(57, 3));
        let mut l = left(57, 3);
        change(&mut l);
        h.handle(Event::Left(l));
        h
    };
    for (change, why) in [
        ((|l: &mut Left| l.sink_log = None) as fn(&mut Left), "root_sink が居ない"),
        (
            |l: &mut Left| l.monitor_made = false,
            "/data/run0057/run0057_monitor.root が出来なかった(log = /log/root_sink.log)",
        ),
        (|l: &mut Left| l.root_made = false, "/data/run0057/run0057.root が無い"),
        (
            |l: &mut Left| l.lines.clear(),
            "run 57: ROOT entries = 0(期待 324 = 3 laps × 108)",
        ),
        (
            |l: &mut Left| l.graw_bytes = 7,
            "run 57: 生 graw 出力 7 B ≠ 送出 90326052 B (3 laps × 30108684)",
        ),
        (
            |l: &mut Left| l.fatals = Some("[\"x\"]".to_string()),
            "run 57: root_sink FATAL: [\"x\"]",
        ),
    ] {
        let h = judged(change);
        assert_eq!(h.failure().as_deref(), Some(why));
        assert_eq!(h.stage(), Stage::Sampler, "nothing is removed");
        assert!(h.results().is_empty());
    }
    assert_eq!(judged(|_| {}).stage(), Stage::Health);
    assert_eq!(MUST_BE_ZERO.len(), 16);
}

#[test]
fn a_process_or_a_disk_that_is_not_well_ends_the_test() {
    let looked = |health: Health| -> Option<String> {
        let mut h = at(run_events(57, 3));
        h.handle(Event::Left(left(57, 3)));
        h.handle(Event::Health(health));
        h.failure().clone()
    };
    assert_eq!(looked(well()), None);
    assert_eq!(
        looked(Health {
            dead: Some(("decoder".to_string(), "/log/decoder.log".to_string())),
            ..well()
        })
        .as_deref(),
        Some("decoder が走行中に落ちた(log = /log/decoder.log)")
    );
    assert_eq!(
        looked(Health { procs: vec![("monitor".to_string(), Some(101 * 1024))], ..well() })
            .as_deref(),
        Some("monitor の RSS が 101 MiB(上限 100 MiB)を超えた")
    );
    assert_eq!(
        looked(Health { free_kib: Some(1024), free_shown: "0.0".to_string(), ..well() })
            .as_deref(),
        Some("空きディスク 0.0 GiB が床 20 GiB を割った(run 57 の直後)")
    );
}

#[test]
fn outputs_can_be_kept_and_a_test_can_be_interrupted() {
    let mut h = Harness::new(Limits { keep_outputs: true, max_runs: None, ..limits() });
    h.handle(Event::Acquired { token: true });
    feed(&mut h, run_events(1, 1));
    h.handle(Event::Left(left(1, 1)));
    h.handle(Event::Health(well()));
    assert_eq!(h.stage(), Stage::Flags, "nothing is removed");
    h.handle(Event::Flags { interrupted: true, stop: false });
    assert_eq!(h.stage(), Stage::Probe);
    h.handle(Event::Probed { messages: 1 });
    assert_eq!(finish(h, 1), None);

    let h = at(vec![Event::Clock { time_left: true, interrupted: true }]);
    assert_eq!(h.stage(), Stage::Probe);
}

#[test]
fn the_last_word_decides_a_test_that_did_not_fail() {
    let end = || {
        let mut h = at(vec![Event::Clock { time_left: false, interrupted: false }]);
        h.handle(Event::Probed { messages: 1 });
        h
    };
    assert_eq!(finish(end(), 0), None);
    assert_eq!(
        finish(end(), 1).as_deref(),
        Some("root_sink 終了 JSON の events_complete = 108(期待 0)")
    );
    let mut h = end();
    h.handle(Event::SamplerStopped);
    h.handle(shut_down(0));
    h.handle(Event::Reported(Some("disk full".to_string())));
    assert_eq!(h.verdict().as_deref(), Some("disk full"));
}

//! The endurance test: arguments, samples and what passes.

use tpcdaq::command::{Metric, Metrics};
use tpcdaq::soak::{
    below_floor, check_files, check_rss, check_run, check_unset, config_toml, count_entries, count_laps, counter_cell,
    counter_value, csv_header, has_all_metrics, is_last_run, parse, parse_fds, parse_free_kib,
    parse_proxy, parse_replayed, parse_rss, sample_header, split_response, verify_final, waited, Args, Mode, Needed, RunEvidence,
    Sign, Snapshot, COUNTER_NAMES, DEFAULT_METRICS_INTERVAL_S, DEFAULT_MIN_FREE_GIB,
    DEFAULT_RSS_LIMIT_MIB, EVENTS_PER_LAP, FINAL_ZERO, GRAW_BYTES_PER_LAP, MONITOR_NAMES,
    MUST_BE_ZERO, ZERO_SOURCES,
};

fn parse_all(items: &[&str]) -> Result<Args, String> {
    let raw: Vec<String> = items.iter().map(|s| s.to_string()).collect();
    let signs = raw
        .iter()
        .map(|s| match s.parse::<f64>() {
            Ok(v) if v.is_finite() && v > 0.0 => Sign::Positive,
            Ok(v) if v == 0.0 => Sign::Zero,
            _ => Sign::Unfit,
        })
        .collect();
    parse(&raw, &signs)
}

#[test]
fn only_the_mode_has_to_be_given() {
    let args = parse_all(&["--mode", "soak"]).unwrap();
    assert_eq!(args.mode, Mode::Soak);
    assert_eq!(args.duration_h, None);
    assert_eq!(args.rss_limit_mib, DEFAULT_RSS_LIMIT_MIB);
    assert_eq!(args.metrics_interval_s, DEFAULT_METRICS_INTERVAL_S);
    assert_eq!(args.min_free_gib, DEFAULT_MIN_FREE_GIB);
    assert!(!args.keep_outputs);
    assert_eq!(parse_all(&[]).unwrap_err(), "--mode is required");
}

#[test]
fn everything_can_be_set() {
    let args = parse_all(&[
        "--mode", "burst", "--burst-min", "2.5", "--run-minutes", "1", "--runs", "3",
        "--rss-limit-mib", "100", "--metrics-interval-s", "5", "--min-free-gib", "7",
        "--keep-outputs", "--out-dir", "/tmp/o", "--bin-dir", "/tmp/b", "--rate-mbps", "0",
        "--duration-h", "0.1",
    ])
    .unwrap();
    assert_eq!(args.mode, Mode::Burst);
    assert_eq!(args.burst_min.as_deref(), Some("2.5"));
    assert_eq!(args.run_minutes.as_deref(), Some("1"));
    assert_eq!(args.duration_h.as_deref(), Some("0.1"));
    assert_eq!(args.rate_mbps.as_deref(), Some("0"));
    assert_eq!(args.max_runs, Some(3));
    assert_eq!(
        (args.rss_limit_mib, args.metrics_interval_s, args.min_free_gib),
        (100, 5, 7)
    );
    assert!(args.keep_outputs);
    assert_eq!(args.out_dir.as_deref(), Some("/tmp/o"));
    assert_eq!(args.bin_dir.as_deref(), Some("/tmp/b"));
}

#[test]
fn what_makes_no_sense_is_refused() {
    assert!(parse_all(&["--mode", "sprint"]).is_err());
    assert!(parse_all(&["--mode"]).is_err());
    assert!(parse_all(&["--mode", "soak", "--duration-h", "0"]).is_err());
    assert!(parse_all(&["--mode", "soak", "--rate-mbps", "-1"]).is_err());
    assert!(parse_all(&["--mode", "soak", "--runs", "x"]).is_err());
    assert!(parse_all(&["--mode", "soak", "--bogus"]).is_err());
}

fn metrics(items: &[(&str, u64)]) -> Metrics {
    let mut m = Metrics::new();
    for (key, n) in items {
        m.put_u64(key, *n);
    }
    m
}

/// A status in which every counter that stands for a loss is zero.
fn clean() -> Snapshot {
    let of = |prefix: &str| -> Metrics {
        let mut m = Metrics::new();
        for source in ZERO_SOURCES {
            if let Some(key) = source.strip_prefix(prefix) {
                m.put_u64(key, 0);
            }
        }
        m.put_u64("frames", 5);
        m
    };
    Snapshot {
        components: vec![
            ("receiver0".to_string(), of("recv.")),
            ("decoder".to_string(), of("dec.")),
            ("graw-writer".to_string(), of("gw.")),
        ],
        monitor: Some(of("rs.")),
    }
}

fn evidence(laps: u64) -> RunEvidence {
    RunEvidence {
        run: 1,
        laps,
        replayed_bytes: laps * GRAW_BYTES_PER_LAP,
        entries: laps * EVENTS_PER_LAP,
        graw_bytes: laps * GRAW_BYTES_PER_LAP,
        fatals: None,
    }
}

#[test]
fn a_clean_run_passes() {
    assert!(has_all_metrics(&clean()));
    assert_eq!(check_run(&evidence(3), &clean()), Ok(()));
}

#[test]
fn a_missing_event_or_byte_fails_the_run() {
    let e = RunEvidence { entries: 3 * EVENTS_PER_LAP - 1, ..evidence(3) };
    assert!(check_run(&e, &clean()).is_err());
    let e = RunEvidence { graw_bytes: 1, ..evidence(3) };
    assert!(check_run(&e, &clean()).is_err());
    let e = RunEvidence { fatals: Some("fatal: x".to_string()), ..evidence(3) };
    assert!(check_run(&e, &clean()).is_err());
}

#[test]
fn every_loss_fails_the_run_and_so_does_an_unknown_counter() {
    assert_eq!(MUST_BE_ZERO.len(), ZERO_SOURCES.len());
    for source in ZERO_SOURCES {
        let (prefix, key) = source.split_once('.').unwrap();
        for gone in [false, true] {
            let mut status = clean();
            let part = match prefix {
                "recv" => &mut status.components[0].1,
                "dec" => &mut status.components[1].1,
                "gw" => &mut status.components[2].1,
                _ => status.monitor.as_mut().unwrap(),
            };
            if gone {
                part.entries.retain(|(k, _)| k != key);
            } else {
                for (k, v) in part.entries.iter_mut() {
                    if k == key {
                        *v = Metric::Uint(1);
                    }
                }
            }
            assert!(check_run(&evidence(1), &status).is_err(), "{source} {gone}");
        }
    }
}

#[test]
fn counters_are_found_by_component() {
    let status = Snapshot {
        components: vec![("decoder".to_string(), metrics(&[("frames_in", 9)]))],
        monitor: Some(metrics(&[("monitorGaps", 4)])),
    };
    assert_eq!(counter_value("dec.frames_in", &status), Some(9));
    assert_eq!(counter_value("mon.monitorGaps", &status), Some(4));
    assert_eq!(counter_value("recv.frames", &status), None);
    assert_eq!(counter_cell("dec.frames_in", &status), "9");
    assert_eq!(counter_cell("recv.frames", &status), "");
    assert!(!has_all_metrics(&status));
}

#[test]
fn the_header_of_the_samples_names_every_column() {
    let header = csv_header(&vec!["a".to_string(), "b".to_string()]);
    let columns: Vec<&str> = header.split(',').collect();
    assert_eq!(
        columns[..8],
        ["ts_unix", "elapsed_s", "run_index", "run_number", "rss_kib_a", "rss_kib_b", "fd_a", "fd_b"]
    );
    assert_eq!(columns[8..8 + COUNTER_NAMES.len()], COUNTER_NAMES);
    assert_eq!(columns[8 + COUNTER_NAMES.len()..], ["free_gib"]);
    let first = sample_header(&vec!["a".to_string(), "b".to_string()]);
    assert_eq!(first, format!("{header},{}", MONITOR_NAMES.join(",")));
}

#[test]
fn laps_are_whole() {
    assert_eq!(count_laps(2 * GRAW_BYTES_PER_LAP), Ok(2));
    assert!(count_laps(GRAW_BYTES_PER_LAP + 1).is_err());
    assert!(count_laps(0).is_err());
}

fn final_counts(laps: u64) -> Metrics {
    let mut m = Metrics::new();
    for key in FINAL_ZERO {
        m.put_u64(key, 0);
    }
    m.put("fatal", Metric::Text(String::new()));
    m.put_u64("events_complete", laps * EVENTS_PER_LAP);
    m.put_u64("entries_written", laps * EVENTS_PER_LAP);
    m
}

#[test]
fn the_last_word_of_the_event_builder_decides() {
    assert_eq!(verify_final(&Some(final_counts(2)), 2, "{}", ""), Ok(()));
    assert!(verify_final(&None, 2, "{}", "").is_err());
    assert!(verify_final(&Some(final_counts(2)), 3, "{}", "").is_err());
    for key in FINAL_ZERO {
        let mut m = final_counts(2);
        for (k, v) in m.entries.iter_mut() {
            if k == key {
                *v = Metric::Uint(1);
            }
        }
        assert!(verify_final(&Some(m), 2, "{}", "").unwrap_err().contains(key));
    }
    let mut m = final_counts(2);
    m.entries.retain(|(k, _)| k != "fatal");
    let why = verify_final(&Some(m), 2, "{}", "null").unwrap_err();
    assert!(why.contains("null"), "{why}");
}

#[test]
fn a_process_that_uses_too_much_memory_is_named() {
    let procs = vec![("a".to_string(), Some(1024 * 100)), ("b".to_string(), None)];
    assert_eq!(check_rss(&procs, 100), Ok(()));
    assert!(check_rss(&procs, 99).unwrap_err().starts_with("a "));
}

#[test]
fn the_free_space_has_a_floor() {
    assert!(below_floor(Some(20 * 1024 * 1024 - 1), 20));
    assert!(!below_floor(Some(20 * 1024 * 1024), 20));
    assert!(!below_floor(None, 20));
}

#[test]
fn the_last_run_is_known() {
    assert!(is_last_run(3, Some(3), false, false));
    assert!(!is_last_run(2, Some(3), false, false));
    assert!(is_last_run(0, None, true, false));
    assert!(is_last_run(0, None, false, true));
    assert!(!is_last_run(1000, None, false, false));
}

#[test]
fn what_other_programs_print_is_read() {
    let rss = parse_rss("  12   3400\n 13 x\nfoo\n 14 5\n");
    assert_eq!(rss.list(), vec![(12, 3400), (14, 5)]);
    let fds = parse_fds("p12\nf0\nf1\np13\nfcwd\n");
    assert_eq!(fds.list(), vec![(12, 2), (13, 1)]);
    let df = "Filesystem 1024-blocks Used Available Capacity\n/dev/x 100 40 60 40%\n";
    assert_eq!(parse_free_kib(df), Some(60));
    assert_eq!(parse_free_kib("x\n"), None);
    let free = |figure: &str| parse_free_kib(&format!("head\n/dev/x 100 40 {figure} 40%\n"));
    assert_eq!(free("-7"), Some(0));
    assert_eq!(free("60.9"), Some(60));
    assert_eq!(free("+6.05e1"), Some(60));
    assert_eq!(free("nan"), None);
    assert_eq!(free("inf"), None);
    assert_eq!(free("many"), None);
    assert_eq!(parse_replayed("replayed 30108684 bytes"), Some(30108684));
    assert_eq!(parse_replayed("replayed"), None);
    let lines: Vec<String> =
        ["wrote run1 (108 entries)", "wrote run2 (7 entries)", "run1 (x)", "wrote none"]
            .iter()
            .map(|s| s.to_string())
            .collect();
    assert_eq!(count_entries(&lines, "wrote"), Some(115));
}

#[test]
fn an_answer_is_split_into_code_and_body() {
    assert_eq!(
        split_response("HTTP/1.1 200 OK\r\nA: b\r\n\r\n{\"x\": 1}"),
        Some((200, "{\"x\": 1}".to_string()))
    );
    assert_eq!(split_response("HTTP/1.1 404 Not Found\r\n"), Some((404, String::new())));
    assert_eq!(split_response("garbage"), None);
}

#[test]
fn the_configuration_that_is_written_can_be_read() {
    let written = config_toml("/data/out", "/data/geo.dat");
    let table: toml::Table = written.parse().unwrap();
    assert_eq!(table["system"]["output_root"].as_str(), Some("/data/out"));
    assert_eq!(table["system"]["geometry"].as_str(), Some("/data/geo.dat"));
    assert_eq!(table["cobo"][0]["listen"].as_str(), Some("127.0.0.1:46005"));
    assert_eq!(table["controller"]["passphrase"].as_str(), Some("soak-harness-passphrase"));
}

#[test]
fn what_the_harness_needs_is_looked_for() {
    assert_eq!(parse_proxy("x PROXY  ecc:tcp -p 1 \n").as_deref(), Some("ecc:tcp -p 1"));
    assert_eq!(parse_proxy("PROXY"), None);
    assert_eq!(check_unset(&vec![]), Ok(()));
    assert_eq!(
        check_unset(&vec!["A".to_string(), "B".to_string()]).unwrap_err(),
        "未設定の env = A, B"
    );
    let file = |what: Option<&str>, path: &str, exists: bool| Needed {
        what: what.map(|s| s.to_string()),
        path: path.to_string(),
        exists,
    };
    assert_eq!(check_files(&vec![file(Some("A"), "/a", true), file(None, "/b", true)]), Ok(()));
    assert_eq!(
        check_files(&vec![file(Some("A"), "/a", false), file(None, "/b", false)]).unwrap_err(),
        "A が指すファイルが無い: /a"
    );
    assert_eq!(
        check_files(&vec![file(Some("A"), "/a", true), file(None, "/b", false)]).unwrap_err(),
        "/b が無い(--bin-dir を指定するか cargo build --release --bins)"
    );
}

#[test]
fn a_line_is_waited_for_until_it_comes_or_cannot_come_any_more() {
    let wait = |found: Option<&str>, alive: bool, expired: bool| {
        waited("decoder", "\"ready\"", "/d.log", found.map(|s| s.to_string()), alive, expired)
    };
    assert_eq!(wait(None, true, false), None);
    assert_eq!(wait(Some("ready!"), false, true), Some(Ok("ready!".to_string())));
    assert_eq!(
        wait(None, false, true),
        Some(Err("decoder が \"ready\" を出す前に終了した(log = /d.log)".to_string()))
    );
    assert_eq!(
        wait(None, true, true),
        Some(Err("decoder が 30s 以内に \"ready\" を出さなかった(log = /d.log)".to_string()))
    );
}

//! The report of an endurance test.

use tpcdaq::harness::RunResult;
use tpcdaq::report::{report, trend_columns, Drops, Findings, Span, Throughput, Trend, Verdict};
use tpcdaq::soak::Mode;

fn result(run: u32, laps: u64) -> RunResult {
    RunResult {
        run,
        laps,
        replayed_bytes: laps * 1000,
        graw_bytes: laps * 1000,
        entries: laps * 108,
        seconds: "12.5".to_string(),
    }
}

fn findings(runs: Vec<RunResult>) -> Findings {
    Findings {
        interrupted: false,
        mode: Mode::Soak,
        planned_h: "12.000".to_string(),
        run_min: "10.000".to_string(),
        rate_mbps: "224".to_string(),
        csv: "/out/metrics.csv".to_string(),
        samples: 3,
        columns: 40,
        runs,
        gib: "0.01".to_string(),
        seconds: "25.0".to_string(),
        throughput: None,
        trends: vec![],
        span: "60".to_string(),
        verdicts: vec![],
        drops: vec![],
        monitor_line: "bye".to_string(),
        counts: "{}".to_string(),
    }
}

#[test]
fn the_report_has_every_part_in_order() {
    let mut f = findings(vec![result(7, 2), result(12345, 3)]);
    f.throughput = Some(Throughput {
        mbps: "1.0".to_string(),
        megabytes: "0.1".to_string(),
        ratio: "0.00".to_string(),
    });
    f.trends = vec![
        Trend { column: "recv_bytes".to_string(), span: None },
        Trend {
            column: "free_gib".to_string(),
            span: Some(Span {
                first: "10.0".to_string(),
                last: "9.0".to_string(),
                slope: "-1.000".to_string(),
            }),
        },
    ];
    let verdict = |process: &str, ok: bool| Verdict {
        process: process.to_string(),
        first: "100".to_string(),
        last: "105".to_string(),
        slope: "0.5".to_string(),
        ok,
    };
    f.verdicts = vec![verdict("decoder", true), verdict("monitor", false)];
    f.drops = vec![
        Drops { name: "mon_gaps".to_string(), last: Some("4".to_string()) },
        Drops { name: "mon_clients".to_string(), last: None },
    ];
    let text = report(&f).unwrap();
    let lines: Vec<&str> = text.lines().collect();
    assert_eq!(lines[0], "===== soak_harness report =====");
    assert_eq!(
        lines[1],
        "mode=Soak 走行予定=12.000 h / 1 run=10.000 min / rate=224 Mbps(0=全速)"
    );
    assert_eq!(lines[2], "metrics CSV = /out/metrics.csv");
    assert_eq!(lines[3], "サンプル数 = 3 / 列数 = 40");
    assert_eq!(lines[5], "-- run --");
    assert_eq!(
        lines[6],
        "run 数 = 2 / 総 laps = 5 / 総送出 = 5000 B (0.01 GiB) / 総 run 時間 = 25.0 s"
    );
    assert_eq!(
        lines[7],
        "達成スループット = 1.0 Mbps(0.1 MB/s、100 Hz 相当 224 Mbps の 0.00×)"
    );
    assert_eq!(lines[8], "  run 0007: laps=2 bytes=2000 entries=216 12.5 s");
    assert_eq!(lines[9], "  run 12345: laps=3 bytes=3000 entries=324 12.5 s");
    assert_eq!(lines[11], "-- 全系列(始値 / 終値 / 傾き per h)--");
    assert_eq!(lines[12], format!("  {:<28} (データなし)", "recv_bytes"));
    assert_eq!(
        lines[13],
        format!("  {:<28} {:>14} -> {:>14}   slope/h = {:>12}", "free_gib", "10.0", "9.0", "-1.000")
    );
    assert!(lines[15].starts_with("-- RSS 単調性"));
    assert!(lines[15].contains("H = 実測 60 s"));
    assert_eq!(
        lines[16],
        format!(
            "  {:<12} 後半先頭窓 {:>10} KiB -> 末尾窓 {:>10} KiB  slope {:>10} KiB/h  OK",
            "decoder", "100", "105", "0.5"
        )
    );
    assert!(lines[17].ends_with("上昇トレンド(要調査)"));
    assert_eq!(lines[20], format!("  {:<20} 最終値 = 4", "mon_gaps"));
    assert_eq!(lines[21], format!("  {:<20} 最終値 = (なし)", "mon_clients"));
    assert_eq!(lines[22], "  monitor 終了ログ = bye");
    assert_eq!(lines[24], "-- root_sink 終了 JSON --");
    assert_eq!(lines[25], "{}");
    assert_eq!(lines.len(), 26);
}

#[test]
fn an_interrupted_test_says_so() {
    let mut f = findings(vec![]);
    f.interrupted = true;
    let text = report(&f).unwrap();
    assert!(text.lines().nth(1).unwrap().contains("SIGINT"));
    assert!(!report(&findings(vec![])).unwrap().contains("SIGINT"));
    assert!(!report(&findings(vec![])).unwrap().contains("達成スループット"));
}

#[test]
fn a_text_that_is_wider_than_its_column_is_not_cut() {
    let mut f = findings(vec![]);
    let long = "a_column_with_a_name_of_more_than_28_characters";
    f.trends = vec![Trend { column: long.to_string(), span: None }];
    assert!(report(&f).unwrap().contains(&format!("  {long} (データなし)\n")));
}

#[test]
fn totals_that_do_not_fit_are_not_reported() {
    let mut big = result(1, 1);
    big.replayed_bytes = u64::MAX;
    assert!(report(&findings(vec![big.clone(), result(2, 1)])).is_none());
    assert!(report(&findings(vec![big])).is_some());
}

#[test]
fn the_columns_of_the_time_have_no_course() {
    let columns: Vec<String> =
        ["ts_unix", "elapsed_s", "run_index", "free_gib"].iter().map(|s| s.to_string()).collect();
    assert_eq!(trend_columns(&columns), vec!["run_index", "free_gib"]);
}

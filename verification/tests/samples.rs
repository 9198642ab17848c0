//! The file of samples: what is written to it and what is read back.

use tpcdaq::command::Metrics;
use tpcdaq::samples::{column_of, read_table, sample_row, series, Sample};
use tpcdaq::soak::{parse_fds, parse_rss, sample_header, Snapshot};

fn snapshot() -> Snapshot {
    let mut recv = Metrics::new();
    recv.put_u64("bytes", 1000);
    recv.put_u64("frames", 7);
    let mut monitor = Metrics::new();
    monitor.put_u64("publish_drops", 3);
    monitor.put_u64("events_built", 5);
    Snapshot { components: vec![("receiver0".to_string(), recv)], monitor: Some(monitor) }
}

fn procs() -> Vec<String> {
    vec!["root_sink".to_string(), "decoder".to_string()]
}

fn row(elapsed: &str) -> String {
    let pids = vec![10, 20];
    sample_row(&Sample {
        time: "1700000000.123",
        elapsed,
        run_index: 2,
        run_number: 57,
        pids: &pids,
        rss: &parse_rss(" 10 2048\n 30 1\n"),
        fds: &parse_fds("p20\nf1\nf2\n"),
        status: &snapshot(),
        free: "12.50",
    })
}

#[test]
fn a_sample_has_a_cell_for_each_column() {
    let header = sample_header(&procs());
    let line = row("60.0");
    assert_eq!(line.split(',').count(), header.split(',').count());
    let cell = |name: &str| -> String {
        let at = header.split(',').position(|c| c == name).unwrap();
        line.split(',').nth(at).unwrap().to_string()
    };
    assert_eq!(cell("ts_unix"), "1700000000.123");
    assert_eq!(cell("elapsed_s"), "60.0");
    assert_eq!(cell("run_index"), "2");
    assert_eq!(cell("run_number"), "57");
    assert_eq!(cell("rss_kib_root_sink"), "2048");
    assert_eq!(cell("rss_kib_decoder"), "", "what is not known is no zero");
    assert_eq!(cell("fd_root_sink"), "");
    assert_eq!(cell("fd_decoder"), "2");
    assert_eq!(cell("recv_bytes"), "1000");
    assert_eq!(cell("recv_overflow_frames"), "");
    assert_eq!(cell("rs_events_built"), "5");
    assert_eq!(cell("free_gib"), "12.50");
    assert_eq!(cell("mon_publish_drops"), "3");
}

#[test]
fn written_samples_are_read_back() {
    let header = sample_header(&procs());
    let file = format!("{header}\n{}\n{}\n", row("0.0"), row("60.0"));
    let table = read_table(&file);
    assert_eq!(table.columns.join(","), header);
    assert_eq!(table.rows.len(), 2);
    assert_eq!(table.rows[0].join(","), row("0.0"));
    assert_eq!(table.rows[1].join(","), row("60.0"));
    assert_eq!(series(&table, "elapsed_s"), vec!["0.0", "60.0"]);
    assert_eq!(series(&table, "rss_kib_root_sink"), vec!["2048", "2048"]);
    assert!(series(&table, "rss_kib_decoder").is_empty());
}

#[test]
fn lines_with_too_few_or_too_many_cells_are_left_out() {
    let table = read_table("a,b\n1,2\n3\n4,5,6\n7,8");
    assert_eq!(table.columns, vec!["a", "b"]);
    assert_eq!(table.rows, vec![vec!["1", "2"], vec!["7", "8"]]);
    assert!(read_table("").columns.is_empty());
    assert_eq!(read_table("\n\n").columns, vec![""]);
    assert_eq!(read_table("\n\n").rows, vec![vec![""]]);
}

#[test]
fn cells_that_are_no_numbers_are_no_part_of_a_series() {
    let table = read_table("elapsed_s,x\n0,\n60,NaN\n120,abc\n180,-1e3\n");
    assert_eq!(series(&table, "x"), vec!["NaN", "-1e3"]);
    assert_eq!(
        column_of(&table, "x"),
        vec![None, Some("NaN".to_string()), None, Some("-1e3".to_string())]
    );
    assert!(series(&table, "y").is_empty());
    // Of two columns of one name the last that holds a number counts.
    let table = read_table("x,x\n1,2\n3,\n");
    assert_eq!(series(&table, "x"), vec!["2", "3"]);
}

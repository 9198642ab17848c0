//! The replay program: its arguments, laps and the merging of files.

use tpcdaq::decode::peek_event_idx;
use tpcdaq::replay::{
    lap_frame, parse, Args, FrameSource, Laps, Merge, MergeStep, SourceStep, DEFAULT_CHUNK_BYTES,
    USAGE,
};

fn strs(items: &[&str]) -> Vec<String> {
    items.iter().map(|s| s.to_string()).collect()
}

fn parse_all(items: &[&str]) -> Result<Args, String> {
    let raw = strs(items);
    let positive: Vec<bool> = raw
        .iter()
        .map(|s| s.parse::<f64>().is_ok_and(|v| v.is_finite() && v > 0.0))
        .collect();
    parse(&raw, &positive)
}

fn number(written: &Option<String>) -> Option<f64> {
    written.as_ref().map(|s| s.parse().unwrap())
}

#[test]
fn parse_minimal_positional_args_uses_defaults() {
    let got = parse_all(&["127.0.0.1:9000", "run.graw"]).unwrap();
    assert_eq!(
        got,
        Args {
            endpoint: "127.0.0.1:9000".to_string(),
            files: vec!["run.graw".to_string()],
            rate_mbps: None,
            loop_replay: false,
            chunk_bytes: 65536,
            laps: None,
            laps_until_s: None,
        }
    );
}

#[test]
fn parse_accepts_all_optional_flags_in_any_order() {
    let got = parse_all(&[
        "--loop",
        "host:1234",
        "--chunk-bytes",
        "4096",
        "run.graw",
        "--rate-mbps",
        "28.0",
    ])
    .unwrap();
    assert_eq!(number(&got.rate_mbps), Some(28.0));
    assert_eq!(
        got,
        Args {
            endpoint: "host:1234".to_string(),
            files: vec!["run.graw".to_string()],
            rate_mbps: Some("28.0".to_string()),
            loop_replay: true,
            chunk_bytes: 4096,
            laps: None,
            laps_until_s: None,
        }
    );
}

#[test]
fn parse_accepts_laps_option() {
    let got = parse_all(&["h:1", "f", "--laps", "3"]).unwrap();
    assert_eq!(got.laps, Some(3));
    assert_eq!(got.laps_until_s, None);
}

#[test]
fn parse_accepts_laps_until_s_option() {
    let got = parse_all(&["h:1", "f", "--laps-until-s", "1.5"]).unwrap();
    assert_eq!(number(&got.laps_until_s), Some(1.5));
    assert_eq!(got.laps, None);
}

#[test]
fn parse_rejects_zero_laps() {
    assert!(parse_all(&["h:1", "f", "--laps", "0"]).is_err());
}

#[test]
fn parse_rejects_non_positive_laps_until_s() {
    assert!(parse_all(&["h:1", "f", "--laps-until-s", "0"]).is_err());
    assert!(parse_all(&["h:1", "f", "--laps-until-s", "-1.0"]).is_err());
    assert!(parse_all(&["h:1", "f", "--laps-until-s", "nan"]).is_err());
    assert!(parse_all(&["h:1", "f", "--laps-until-s", "inf"]).is_err());
}

#[test]
fn parse_rejects_loop_combined_with_laps() {
    assert!(parse_all(&["h:1", "f", "--loop", "--laps", "3"]).is_err());
    assert!(parse_all(&["h:1", "f", "--loop", "--laps-until-s", "1.0"]).is_err());
}

#[test]
fn parse_rejects_dangling_laps_flags_without_value() {
    assert!(parse_all(&["h:1", "f", "--laps"]).is_err());
    assert!(parse_all(&["h:1", "f", "--laps-until-s"]).is_err());
}

#[test]
fn parse_accepts_multiple_files_in_argument_order() {
    let got = parse_all(&["h:1", "a0.graw", "a1.graw", "a2.graw", "a3.graw"]).unwrap();
    assert_eq!(
        got.files,
        vec![
            "a0.graw".to_string(),
            "a1.graw".to_string(),
            "a2.graw".to_string(),
            "a3.graw".to_string(),
        ]
    );
}

#[test]
fn parse_rejects_wrong_positional_count() {
    assert!(parse_all(&["only-one-arg"]).is_err());
    assert!(parse_all(&[]).is_err());
}

#[test]
fn parse_rejects_non_positive_rate() {
    assert!(parse_all(&["h:1", "f", "--rate-mbps", "0"]).is_err());
    assert!(parse_all(&["h:1", "f", "--rate-mbps", "-1.0"]).is_err());
    assert!(parse_all(&["h:1", "f", "--rate-mbps", "nope"]).is_err());
}

#[test]
fn parse_rejects_zero_chunk_bytes() {
    assert!(parse_all(&["h:1", "f", "--chunk-bytes", "0"]).is_err());
    assert!(parse_all(&["h:1", "f", "--chunk-bytes", "abc"]).is_err());
}

#[test]
fn parse_rejects_unknown_option() {
    assert!(parse_all(&["h:1", "f", "--bogus"]).is_err());
}

#[test]
fn parse_rejects_dangling_flag_without_value() {
    assert!(parse_all(&["h:1", "f", "--rate-mbps"]).is_err());
    assert!(parse_all(&["h:1", "f", "--chunk-bytes"]).is_err());
}

#[test]
fn what_is_wrong_with_the_arguments_of_a_replay_is_said() {
    let why = |items: &[&str]| parse_all(items).unwrap_err();
    assert_eq!(why(&["h:1", "f", "--laps"]), "--laps requires a value");
    assert_eq!(why(&["h:1", "f", "--rate-mbps"]), "--rate-mbps requires a value");
    assert_eq!(
        why(&["h:1"]),
        "expected at least 2 positional arguments (host:port, file.graw...), got 1"
    );
    assert!(USAGE.starts_with("usage: graw_replay <host:port> <file.graw>..."));
    assert_eq!(DEFAULT_CHUNK_BYTES, 65536);
}

/// A data frame of 28 bytes with the given event number.
fn data_frame(event: u32, fill: u8) -> Vec<u8> {
    let mut frame = vec![fill; 28];
    frame[..8].copy_from_slice(&[0, 0, 0, 28, 0, 0, 1, 0]);
    frame[22..26].copy_from_slice(&event.to_be_bytes());
    frame
}

fn control_frame() -> Vec<u8> {
    vec![0x40, 0, 0, 12, 0, 0, 7, 0, 0, 15, 0, 0]
}

#[test]
fn a_lap_shifts_the_event_number_and_nothing_else() {
    let frame = data_frame(3, 0xAA);
    let shifted = lap_frame(&frame, 2, 9);
    assert_eq!(peek_event_idx(&shifted), Some(23));
    let mut expected = frame.clone();
    expected[22..26].copy_from_slice(&23u32.to_be_bytes());
    assert_eq!(shifted, expected);

    let mut little = data_frame(0, 1);
    little[..8].copy_from_slice(&[0x80, 28, 0, 0, 0, 2, 0, 0]);
    little[22..26].copy_from_slice(&5u32.to_le_bytes());
    assert_eq!(peek_event_idx(&lap_frame(&little, 1, 5)), Some(11));
}

#[test]
fn the_first_lap_and_control_frames_are_sent_unchanged() {
    assert_eq!(lap_frame(&data_frame(7, 1), 0, 100), data_frame(7, 1));
    assert_eq!(lap_frame(&control_frame(), 3, 100), control_frame());
}

#[test]
fn an_event_number_past_the_end_wraps() {
    assert_eq!(peek_event_idx(&lap_frame(&data_frame(1, 0), 1, u32::MAX)), Some(1));
    assert_eq!(peek_event_idx(&lap_frame(&data_frame(2, 0), 1, u32::MAX - 1)), Some(1));
}

#[test]
fn laps_do_not_share_event_numbers() {
    let events = [4u32, 0, 9, 2];
    let mut laps = Laps::new();
    let mut seen = Vec::new();
    for lap in 0..3 {
        for event in events {
            seen.push(peek_event_idx(&laps.frame(&data_frame(event, 0))).unwrap());
        }
        assert_eq!(laps.lap_over(Some(3), false), lap == 2);
    }
    assert_eq!(seen, vec![4, 0, 9, 2, 14, 10, 19, 12, 24, 20, 29, 22]);
    assert_eq!((laps.lap, laps.max_idx), (3, 9));
}

#[test]
fn laps_end_when_their_time_is_over() {
    let mut laps = Laps::new();
    assert!(!laps.lap_over(None, false));
    assert!(laps.lap_over(None, true));
    assert!(laps.lap_over(Some(1), false));
}

#[test]
fn a_file_is_read_frame_by_frame_and_its_torn_end_is_told() {
    let mut source = FrameSource::new();
    assert!(matches!(source.next_frame(), SourceStep::Read));
    let mut file = data_frame(1, 2);
    file.extend_from_slice(&data_frame(2, 3)[..10]);
    source.feed(&file);
    match source.next_frame() {
        SourceStep::Frame(frame) => assert_eq!(frame, data_frame(1, 2)),
        _ => panic!("there is a frame"),
    }
    assert!(matches!(source.next_frame(), SourceStep::Read));
    source.feed(&[]);
    assert!(matches!(source.next_frame(), SourceStep::End(10)));
    assert_eq!(source.resets(), 0);
}

#[test]
fn a_corrupt_header_in_a_file_is_counted() {
    let mut source = FrameSource::new();
    source.feed(&[0u8; 16]);
    assert!(matches!(source.next_frame(), SourceStep::Read));
    assert_eq!(source.resets(), 1);
}

/// Sends the files merged, each read in chunks of `chunk` bytes.
fn merged(files: &[Vec<u8>], chunk: usize) -> (Vec<Vec<u8>>, Vec<usize>) {
    let mut merge = Merge::new(files.len());
    let mut at = vec![0usize; files.len()];
    let mut sent = Vec::new();
    loop {
        match merge.step() {
            MergeStep::Read(i) => {
                assert!(merge.can_fill(i));
                let end = files[i].len().min(at[i] + chunk);
                merge.feed(&files[i][at[i]..end]);
                at[i] = end;
            }
            MergeStep::Emit(i) => sent.push(merge.emit(i)),
            MergeStep::Finish => break,
        }
    }
    let left = (0..files.len()).map(|i| merge.leftover(i)).collect();
    (sent, left)
}

#[test]
fn merged_files_are_sent_in_ascending_event_order() {
    let files = [
        [data_frame(1, 0), data_frame(4, 0), data_frame(6, 0)].concat(),
        [data_frame(2, 1), data_frame(4, 1), data_frame(5, 1)].concat(),
    ];
    for chunk in [1, 7, 28, 1000] {
        let (sent, left) = merged(&files, chunk);
        assert_eq!(
            sent,
            vec![
                data_frame(1, 0),
                data_frame(2, 1),
                data_frame(4, 0),
                data_frame(4, 1),
                data_frame(5, 1),
                data_frame(6, 0),
            ]
        );
        assert_eq!(left, vec![0, 0]);
    }
}

#[test]
fn control_frames_are_sent_as_soon_as_they_are_met() {
    let files = [
        [data_frame(5, 0), control_frame(), data_frame(6, 0)].concat(),
        [control_frame(), data_frame(1, 1)].concat(),
    ];
    let (sent, _) = merged(&files, 64);
    assert_eq!(
        sent,
        vec![
            control_frame(),
            data_frame(1, 1),
            data_frame(5, 0),
            control_frame(),
            data_frame(6, 0),
        ]
    );
}

#[test]
fn a_torn_end_is_told_per_file() {
    let mut torn = data_frame(1, 0);
    torn.extend_from_slice(&[0x80, 1, 2]);
    let (sent, left) = merged(&[torn, data_frame(0, 1)], 16);
    assert_eq!(sent, vec![data_frame(0, 1), data_frame(1, 0)]);
    assert_eq!(left, vec![3, 0]);
}

#[test]
fn a_merge_is_ordered_by_event_and_then_by_file() {
    let file = |parts: &[Vec<u8>]| parts.concat();
    let files = [
        file(&[data_frame(2, 0), control_frame(), data_frame(2, 0), data_frame(7, 0)]),
        file(&[control_frame(), data_frame(1, 1), data_frame(2, 1), data_frame(9, 1)]),
        file(&[data_frame(2, 2), data_frame(3, 2)]),
    ];
    for chunk in [1, 13, 4096] {
        let (sent, _) = merged(&files, chunk);
        assert_eq!(sent.len(), 10);
        let order: Vec<(u32, u8)> = sent
            .iter()
            .filter_map(|f| peek_event_idx(f).map(|e| (e, f[f.len() - 1])))
            .collect();
        assert_eq!(
            order,
            [(1, 1), (2, 0), (2, 0), (2, 1), (2, 2), (3, 2), (7, 0), (9, 1)]
        );
    }
}

#[test]
fn laps_of_the_same_frames_send_shifted_copies() {
    let frames = [data_frame(4, 1), control_frame(), data_frame(9, 2), data_frame(0, 3)];
    let mut laps = Laps::new();
    let mut sent = Vec::new();
    for lap in 0..3 {
        for frame in &frames {
            sent.push(laps.frame(frame));
        }
        assert_eq!(laps.max_idx, 9);
        assert_eq!(laps.lap_over(Some(3), false), lap == 2);
    }
    assert_eq!(laps, Laps { lap: 3, max_idx: 9 });
    let copy = |shift: u32| {
        vec![data_frame(4 + shift, 1), control_frame(), data_frame(9 + shift, 2), data_frame(shift, 3)]
    };
    assert_eq!(sent, [copy(0), copy(10), copy(20)].concat());

    let mut laps = Laps::new();
    laps.frame(&control_frame());
    laps.lap_over(None, false);
    assert_eq!(laps.frame(&data_frame(7, 0)), data_frame(8, 0));
    assert_eq!(laps.max_idx, 0);
}

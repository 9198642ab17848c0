//! The raw file writer, on a disk in memory.

use std::collections::{BTreeMap, BTreeSet};

use tpcdaq::command::Metric;
use tpcdaq::graw_writer::{
    Arrival, FileKey, FileReport, RunWriter, Step, WriterAction, WriterLoop,
};

/// Directories, files and which file is open for which key.
#[derive(Default)]
struct Disk {
    dirs: BTreeSet<String>,
    files: BTreeMap<String, Vec<u8>>,
    open: Vec<(FileKey, String)>,
    /// How many stamps were given: each names another time.
    stamps: u32,
    /// Paths that cannot be made.
    broken: Vec<String>,
    full: bool,
}

impl Disk {
    fn path_of(&self, key: FileKey) -> String {
        self.open.iter().find(|(k, _)| *k == key).unwrap().1.clone()
    }

    fn close(&mut self, key: FileKey) {
        self.open.retain(|(k, _)| *k != key);
    }

    fn stamp(&mut self) -> String {
        self.stamps += 1;
        format!("2026-08-17T08:09:{:02}.852", self.stamps)
    }

    fn act(&mut self, action: &WriterAction, front: &[u8]) -> bool {
        match action {
            WriterAction::Idle | WriterAction::Stamp => unreachable!(),
            WriterAction::MakeDir(path) => {
                if self.broken.contains(path) {
                    return false;
                }
                self.dirs.insert(path.clone());
            }
            WriterAction::Sync(key) => self.close(*key),
            WriterAction::Create(key, path) => {
                let dir = path.rsplit_once('/').unwrap().0;
                assert!(self.dirs.contains(dir), "{path} has no directory");
                assert!(!self.files.contains_key(path), "{path} is made twice");
                self.files.insert(path.clone(), Vec::new());
                self.open.push((*key, path.clone()));
            }
            WriterAction::Write(key) => {
                if self.full {
                    return false;
                }
                let path = self.path_of(*key);
                self.files.get_mut(&path).unwrap().extend_from_slice(front);
            }
        }
        true
    }
}

fn handle(
    disk: &mut Disk,
    w: &mut RunWriter,
    source: u32,
    run: u32,
    seq: u64,
    frames: &[Vec<u8>],
) {
    assert!(w.can_take_batch(source, seq));
    w.handle_batch(source, run, seq, frames.to_vec());
    loop {
        let action = w.action();
        match action {
            WriterAction::Idle => break,
            WriterAction::Stamp => w.stamp(disk.stamp()),
            _ => {
                assert!(w.can_finish());
                let ok = disk.act(&action, w.front());
                w.done(ok);
            }
        }
    }
}

fn finalize(disk: &mut Disk, w: &mut RunWriter) {
    while let Some(key) = w.to_close() {
        disk.close(key);
        w.close_file(true);
    }
}

fn name(report: &FileReport) -> &str {
    report.path.rsplit_once('/').unwrap().1
}

fn dir(report: &FileReport) -> &str {
    let above = report.path.rsplit_once('/').unwrap().0;
    above.rsplit_once('/').unwrap().1
}

fn make_frame(asad: u8, extra_len: usize) -> Vec<u8> {
    let mut b = vec![0u8; 28 + extra_len];
    b[6] = 0x01;
    b[27] = asad;
    for (i, byte) in b.iter_mut().enumerate().skip(28) {
        *byte = (i % 251) as u8;
    }
    b
}

fn make_non_cobo_frame(frame_type: u16, len: usize, fill: u8) -> Vec<u8> {
    assert!(len >= 28);
    let mut b = vec![fill; len];
    b[0] = 0x00;
    b[5] = ((frame_type >> 8) & 0xFF) as u8;
    b[6] = (frame_type & 0xFF) as u8;
    b
}

fn assert_matches_ts_and_idx(ts: &str, idx_and_ext: &str) {
    assert!(
        chrono::NaiveDateTime::parse_from_str(ts, "%Y-%m-%dT%H:%M:%S%.3f").is_ok(),
        "{ts}"
    );
    let idx = idx_and_ext.strip_suffix(".graw").unwrap();
    assert_eq!(idx.len(), 4, "{idx_and_ext}");
    assert!(idx.bytes().all(|b| b.is_ascii_digit()), "{idx_and_ext}");
}

fn assert_matches_datarouter_naming(filename: &str) {
    let parts: Vec<&str> = filename.split('_').collect();
    assert_eq!(parts.len(), 4, "{filename}");
    let cobo = parts[0].strip_prefix("CoBo").unwrap();
    assert!(!cobo.is_empty() && cobo.bytes().all(|b| b.is_ascii_digit()), "{filename}");
    let asad = parts[1].strip_prefix("AsAd").unwrap();
    assert!(!asad.is_empty() && asad.bytes().all(|b| b.is_ascii_digit()), "{filename}");
    assert_matches_ts_and_idx(parts[2], parts[3]);
}

fn assert_matches_ctrl_naming(filename: &str) {
    let parts: Vec<&str> = filename.split('_').collect();
    assert_eq!(parts.len(), 3, "{filename}");
    let cobo = parts[0].strip_prefix("CoBo").unwrap();
    assert!(!cobo.is_empty() && cobo.bytes().all(|b| b.is_ascii_digit()), "{filename}");
    assert_matches_ts_and_idx(parts[1], parts[2]);
}

fn writer(run: u32, max_file_bytes: u64) -> (Disk, RunWriter) {
    (Disk::default(), RunWriter::new("/data".to_string(), run, max_file_bytes))
}

#[test]
fn file_naming_matches_the_real_datarouter_format() {
    let (mut disk, mut w) = writer(7, 10 * 1024 * 1024);
    handle(&mut disk, &mut w, 0, 7, 0, &[make_frame(1, 4)]);

    let files = w.file_report();
    assert_eq!(files.len(), 1);
    let name = name(&files[0]);
    assert_matches_datarouter_naming(name);
    assert!(name.starts_with("CoBo0_AsAd1_"), "{name}");
    assert!(name.ends_with("_0000.graw"), "{name}");
    assert_eq!(dir(&files[0]), "run0007");
}

#[test]
fn rotation_keeps_the_same_ts_and_increments_idx_only() {
    let one_frame = make_frame(0, 100);
    let max_file_bytes = one_frame.len() as u64;
    let (mut disk, mut w) = writer(3, max_file_bytes);

    for seq in 0..3u64 {
        handle(&mut disk, &mut w, 0, 3, seq, &[one_frame.clone()]);
    }

    let files = w.file_report();
    assert_eq!(files.len(), 3);
    let ts0 = name(&files[0]).split('_').nth(2).unwrap().to_string();
    for (i, f) in files.iter().enumerate() {
        let ts = name(f).split('_').nth(2).unwrap();
        assert_eq!(ts, ts0);
        assert_eq!(f.idx, i as u32);
    }
}

#[test]
fn ctrl_files_rotate_with_ts_unchanged_and_idx_incrementing_like_asad_files() {
    let ctrl = vec![0xCCu8; 20];
    let max_file_bytes = ctrl.len() as u64;
    let (mut disk, mut w) = writer(6, max_file_bytes);
    for seq in 0..3u64 {
        handle(&mut disk, &mut w, 0, 6, seq, &[ctrl.clone()]);
    }

    assert_eq!(w.ctrl_frames(), 3);
    assert!(!w.errored());
    let files = w.file_report();
    assert_eq!(files.len(), 3);
    let ts0 = name(&files[0]).split('_').nth(1).unwrap().to_string();
    for (i, f) in files.iter().enumerate() {
        let ts = name(f).split('_').nth(1).unwrap();
        assert_eq!(ts, ts0);
        assert_eq!(f.idx, i as u32);
        assert_eq!(f.asad, None);
    }
}

#[test]
fn frames_are_routed_by_asad_index_within_a_mixed_batch() {
    let (mut disk, mut w) = writer(1, 10 * 1024 * 1024);
    let f_a0 = make_frame(0, 10);
    let f_a1 = make_frame(1, 20);
    let f_a0b = make_frame(0, 10);
    handle(&mut disk, &mut w, 2, 1, 0, &[f_a0.clone(), f_a1.clone(), f_a0b.clone()]);
    w.flush_all(true);

    let files = w.file_report();
    assert_eq!(files.len(), 2);
    let asad0 = files.iter().find(|f| f.asad == Some(0)).unwrap();
    let asad1 = files.iter().find(|f| f.asad == Some(1)).unwrap();
    assert_eq!(asad0.frames, 2);
    assert_eq!(asad1.frames, 1);
    assert_eq!(asad0.bytes, (f_a0.len() + f_a0b.len()) as u64);
    assert_eq!(asad1.bytes, f_a1.len() as u64);

    let mut expected0 = f_a0.clone();
    expected0.extend_from_slice(&f_a0b);
    assert_eq!(disk.files[&asad0.path], expected0);
    assert_eq!(disk.files[&asad1.path], f_a1);
}

#[test]
fn a_non_asad_frame_is_preserved_under_ctrl_and_does_not_latch_error() {
    let (mut disk, mut w) = writer(1, 10 * 1024 * 1024);
    let ctrl = vec![0xEEu8; 12];
    handle(&mut disk, &mut w, 0, 1, 0, &[ctrl.clone()]);
    w.flush_all(true);

    assert_eq!(w.ctrl_frames(), 1);
    assert!(!w.errored());

    let files = w.file_report();
    assert_eq!(files.len(), 1);
    assert_eq!(files[0].asad, None);
    assert_eq!(disk.files[&files[0].path], ctrl);
    assert_eq!(dir(&files[0]), "ctrl");
    assert_matches_ctrl_naming(name(&files[0]));
}

#[test]
fn a_long_non_cobo_frame_is_routed_to_ctrl_not_misinterpreted_as_asad_data() {
    let (mut disk, mut w) = writer(3, 10 * 1024 * 1024);
    let ctrl = make_non_cobo_frame(7, 88, 0xAB);
    handle(&mut disk, &mut w, 0, 3, 0, &[ctrl.clone()]);
    w.flush_all(true);

    assert_eq!(w.ctrl_frames(), 1);
    assert!(!w.errored());
    let files = w.file_report();
    assert_eq!(files.len(), 1);
    assert_eq!(files[0].asad, None);
    assert_eq!(disk.files[&files[0].path], ctrl);
}

#[test]
fn rotation_boundary_frames_are_not_split_and_concatenation_matches() {
    let f1 = make_frame(0, 40);
    let f2 = make_frame(0, 40);
    let max_file_bytes = f1.len() as u64 + 10;
    let (mut disk, mut w) = writer(5, max_file_bytes);
    handle(&mut disk, &mut w, 0, 5, 0, &[f1.clone(), f2.clone()]);
    w.flush_all(true);

    let files = w.file_report();
    assert_eq!(files.len(), 2);
    let idx0 = files.iter().find(|f| f.idx == 0).unwrap();
    let idx1 = files.iter().find(|f| f.idx == 1).unwrap();
    assert_eq!(disk.files[&idx0.path], f1);
    assert_eq!(disk.files[&idx1.path], f2);

    let mut concatenated = disk.files[&idx0.path].clone();
    concatenated.extend_from_slice(&disk.files[&idx1.path]);
    let mut expected = f1.clone();
    expected.extend_from_slice(&f2);
    assert_eq!(concatenated, expected);
}

#[test]
fn a_single_frame_larger_than_the_rotation_limit_is_written_whole() {
    let max_file_bytes = 32u64;
    let huge = make_frame(0, 200);
    let (mut disk, mut w) = writer(9, max_file_bytes);
    handle(&mut disk, &mut w, 0, 9, 0, &[huge.clone()]);
    w.flush_all(true);

    let files = w.file_report();
    assert_eq!(files.len(), 1);
    assert_eq!(files[0].bytes, huge.len() as u64);
    assert_eq!(disk.files[&files[0].path], huge);

    let next = make_frame(0, 5);
    handle(&mut disk, &mut w, 0, 9, 1, &[next]);
    w.flush_all(true);
    assert_eq!(w.file_report().len(), 2);
}

#[test]
fn files_are_created_lazily_on_first_frame_of_each_asad() {
    let (mut disk, mut w) = writer(4, 10 * 1024 * 1024);
    assert!(disk.dirs.is_empty());

    handle(&mut disk, &mut w, 0, 4, 0, &[make_frame(2, 4)]);
    assert!(disk.dirs.contains("/data/run0004"));
    let files = w.file_report();
    assert_eq!(files.len(), 1);
    assert_eq!(files[0].asad, Some(2));
}

#[test]
fn finalize_closes_every_open_file_and_keeps_the_file_report() {
    let (mut disk, mut w) = writer(2, 10 * 1024 * 1024);
    let f = make_frame(0, 8);
    handle(&mut disk, &mut w, 0, 2, 0, &[f.clone()]);
    finalize(&mut disk, &mut w);

    let files = w.file_report();
    assert_eq!(files.len(), 1);
    assert_eq!(files[0].bytes, f.len() as u64);
    assert_eq!(disk.files[&files[0].path], f);
    assert!(files[0].closed);
    assert!(disk.open.is_empty());
}

#[test]
fn every_frame_is_on_the_disk_exactly_once_and_in_order() {
    let frames: Vec<Vec<u8>> = (0..40).map(|i| make_frame((i % 3) as u8, i * 3)).collect();
    let (mut disk, mut w) = writer(1, 200);
    for (seq, batch) in frames.chunks(7).enumerate() {
        handle(&mut disk, &mut w, 5, 1, seq as u64, batch);
    }
    finalize(&mut disk, &mut w);
    for asad in 0..3u8 {
        let expected: Vec<u8> =
            frames.iter().filter(|f| f[27] == asad).flatten().copied().collect();
        let written: Vec<u8> = w
            .file_report()
            .iter()
            .filter(|f| f.asad == Some(asad))
            .flat_map(|f| disk.files[&f.path].clone())
            .collect();
        assert_eq!(written, expected);
    }
    for f in w.file_report() {
        assert!(f.bytes <= 200 || f.frames == 1);
        assert_eq!(f.bytes, disk.files[&f.path].len() as u64);
        assert_eq!(f.cobo, 5);
    }
}

#[test]
fn files_are_told_by_cobo_board_and_number() {
    let (mut disk, mut w) = writer(1, 40);
    handle(&mut disk, &mut w, 1, 1, 0, &[make_frame(2, 9), make_frame(0, 9), make_frame(2, 9)]);
    handle(&mut disk, &mut w, 0, 1, 0, &[make_frame(3, 9), vec![0u8; 12]]);
    let order: Vec<(u32, Option<u8>, u32)> =
        w.file_report().iter().map(|f| (f.cobo, f.asad, f.idx)).collect();
    assert_eq!(
        order,
        vec![
            (0, None, 0),
            (0, Some(3), 0),
            (1, Some(0), 0),
            (1, Some(2), 0),
            (1, Some(2), 1),
        ]
    );
}

#[test]
fn a_gap_in_the_numbers_is_counted_and_its_frames_are_written() {
    let (mut disk, mut w) = writer(1, 1000);
    handle(&mut disk, &mut w, 0, 1, 0, &[make_frame(0, 1)]);
    handle(&mut disk, &mut w, 0, 1, 2, &[make_frame(0, 2)]);
    assert_eq!(w.seq_gaps(), 1);
    assert!(w.errored());
    assert_eq!(w.file_report()[0].frames, 2);
}

#[test]
fn a_batch_of_another_run_is_counted_and_its_frames_are_written() {
    let (mut disk, mut w) = writer(1, 1000);
    handle(&mut disk, &mut w, 0, 2, 0, &[make_frame(0, 1), vec![0xEE; 12]]);
    assert_eq!(w.run_mismatches(), 1);
    assert!(w.errored());
    assert_eq!(w.ctrl_frames(), 1);
    assert_eq!(w.seq_gaps(), 0);
    let report = w.file_report();
    assert_eq!(report.len(), 2);
    assert_eq!(report[0].asad, None);
    assert_eq!(report[0].bytes, 12);
    assert_eq!(report[1].asad, Some(0));
    assert_eq!(report[1].frames, 1);
    handle(&mut disk, &mut w, 0, 1, 1, &[make_frame(0, 2)]);
    assert_eq!(w.run_mismatches(), 1);
    assert_eq!(w.seq_gaps(), 0);
}

#[test]
fn a_directory_that_cannot_be_made_is_counted() {
    let (mut disk, mut w) = writer(1, 1000);
    disk.broken.push("/data/run0001".to_string());
    handle(&mut disk, &mut w, 0, 1, 0, &[make_frame(0, 1)]);
    assert_eq!(w.write_errors(), 1);
    assert!(w.errored());
}

#[test]
fn the_report_has_every_counter() {
    let (mut disk, mut w) = writer(1, 1000);
    handle(&mut disk, &mut w, 3, 1, 0, &[make_frame(1, 2), vec![0u8; 12]]);
    let m = w.metrics_json();
    for (key, value) in [
        ("seq_gaps", 0),
        ("run_mismatches", 0),
        ("ctrl_frames", 1),
        ("write_errors", 0),
        ("files_open", 2),
    ] {
        assert_eq!(m.get_u64(key), Some(value), "{key}");
    }
    match m.get("batches") {
        Some(Metric::Tally(batches)) => assert_eq!(batches, &vec![(3, 1)]),
        _ => panic!("batches are told by source"),
    }
    match m.get("files") {
        Some(Metric::Files(files)) => assert_eq!(files.len(), 2),
        _ => panic!("files are told"),
    }
}

/// Runs the thread until it wants a message or ends.
fn settle(disk: &mut Disk, thread: &mut WriterLoop, now: u64) -> bool {
    loop {
        match thread.step() {
            Step::Receive => return true,
            Step::Disk(WriterAction::Stamp) => thread.stamp(disk.stamp()),
            Step::Disk(action) => {
                assert!(thread.writer().can_finish());
                let ok = disk.act(&action, thread.writer().front());
                thread.disk_done(ok, now);
            }
            Step::Flush => thread.flushed(true, now),
            Step::Close(key) => {
                disk.close(key);
                thread.file_closed(true);
            }
            Step::Finish => return false,
        }
    }
}

fn data(source_id: u32, sequence_number: u64, frames: Vec<Vec<u8>>) -> Arrival {
    Arrival::Data { source_id, run_number: 1, sequence_number, frames }
}

#[test]
fn the_thread_ends_once_every_source_has_ended() {
    let (mut disk, w) = writer(1, 1000);
    let mut thread = WriterLoop::new(w, vec![0, 1], 1_000_000_000, 0);
    assert!(settle(&mut disk, &mut thread, 0));
    thread.arrived(data(0, 0, vec![make_frame(0, 3)]), 1);
    assert!(settle(&mut disk, &mut thread, 1));
    thread.arrived(Arrival::EndOfStream { source_id: 0, run_number: 1 }, 2);
    assert!(settle(&mut disk, &mut thread, 2));
    thread.arrived(Arrival::EndOfStream { source_id: 0, run_number: 1 }, 3);
    assert!(settle(&mut disk, &mut thread, 3));
    assert_eq!(disk.open.len(), 1);
    thread.arrived(Arrival::EndOfStream { source_id: 1, run_number: 1 }, 4);
    assert!(!settle(&mut disk, &mut thread, 4));
    assert!(disk.open.is_empty());
    assert_eq!(thread.writer().metrics_json().get_u64("files_open"), Some(0));
}

#[test]
fn a_stop_closes_the_files() {
    let (mut disk, w) = writer(1, 1000);
    let mut thread = WriterLoop::new(w, vec![0], 1_000_000_000, 0);
    thread.arrived(data(0, 0, vec![make_frame(0, 3)]), 1);
    assert!(settle(&mut disk, &mut thread, 1));
    thread.arrived(Arrival::Stopped, 2);
    assert!(!settle(&mut disk, &mut thread, 2));
    assert!(disk.open.is_empty());
    assert_eq!(disk.files.len(), 1);
}

#[test]
fn a_full_disk_ends_the_thread_with_a_fault() {
    let (mut disk, w) = writer(1, 1000);
    disk.full = true;
    let mut thread = WriterLoop::new(w, vec![0], 1_000_000_000, 0);
    thread.arrived(data(0, 0, vec![make_frame(0, 3)]), 1);
    assert!(!settle(&mut disk, &mut thread, 1));
    assert!(thread.writer().errored());
    assert_eq!(thread.writer().write_errors(), 1);
}

#[test]
fn files_are_flushed_at_the_interval() {
    let (mut disk, w) = writer(1, 1000);
    let mut thread = WriterLoop::new(w, vec![0], 1000, 0);
    thread.arrived(Arrival::Nothing, 999);
    assert!(matches!(thread.step(), Step::Receive));
    thread.arrived(Arrival::Nothing, 1000);
    assert!(matches!(thread.step(), Step::Flush));
    assert!(settle(&mut disk, &mut thread, 1000));
    thread.arrived(Arrival::Nothing, 1999);
    assert!(matches!(thread.step(), Step::Receive));
}

#[test]
fn the_files_of_a_key_are_numbered_from_zero_and_carry_one_time() {
    let (mut disk, mut w) = writer(1, 50);
    for seq in 0..5 {
        let frames = [make_frame(0, 4), vec![0xEE; 30], make_frame(3, 9)];
        handle(&mut disk, &mut w, 2, 1, seq, &frames);
    }
    finalize(&mut disk, &mut w);
    let report = w.file_report();
    for asad in [None, Some(0), Some(3)] {
        let files: Vec<&FileReport> = report.iter().filter(|f| f.asad == asad).collect();
        assert_eq!(files.len(), 5);
        let time = |f: &FileReport| {
            let at = name(f).find("2026-").unwrap();
            name(f)[at..at + 23].to_string()
        };
        for (i, f) in files.iter().enumerate() {
            assert_eq!(f.idx as usize, i);
            assert_eq!(time(f), time(files[0]));
        }
    }
}

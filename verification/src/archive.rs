//! What stands on the disk of a run, and what the counters of its writer tell.
//!
//! The laws here begin with all that has happened to a writer since its run began and with what a
//! file is named after, and say what its counters, its file names and its reports then hold.

use vstd::prelude::*;

use crate::command::MetricView;
use crate::decode;
use crate::graw_writer;
use crate::graw_writer::{
    Arrival, FileKey, FileModel, LoopState, ReportView, Stage, WriterEvent, WriterState,
};
use crate::tally;
use crate::text;

verus! {

// ---------------------------------------------------------------------
// Names
// ---------------------------------------------------------------------

proof fn lemma_digits_value_zeros(zeros: Seq<char>, d: Seq<char>)
    requires
        forall|i: int| 0 <= i < zeros.len() ==> #[trigger] zeros[i] == '0',
    ensures
        text::digits_value(zeros + d) == text::digits_value(d),
    decreases d.len(), zeros.len(),
{
    if d.len() == 0 {
        assert(zeros + d =~= zeros);
        if zeros.len() > 0 {
            lemma_digits_value_zeros(zeros.drop_last(), d);
            assert(zeros.drop_last() + d =~= zeros.drop_last());
            assert(zeros.last() == zeros[zeros.len() - 1]);
        }
    } else {
        lemma_digits_value_zeros(zeros, d.drop_last());
        assert((zeros + d).drop_last() =~= zeros + d.drop_last());
        assert((zeros + d).last() == d.last());
    }
}

proof fn lemma_decimal_digits(n: nat)
    ensures
        text::decimal(n).len() > 0,
        forall|i: int| 0 <= i < text::decimal(n).len() ==> text::is_digit(#[trigger] text::decimal(n)[i]),
    decreases n,
{
    if n >= 10 {
        lemma_decimal_digits(n / 10);
    }
}

/// A number that is written with leading zeros is read back, takes at least as many characters as
/// it has to, and has no leading zeros where it takes more.
pub proof fn law_padded_numbers_are_read_back(n: nat, width: nat)
    ensures
        text::unsigned(text::padded(n, width)) == Some(n),
        text::padded(n, width).len() >= width,
        text::padded(n, width).len() > width ==> text::padded(n, width) == text::decimal(n),
        forall|i: int|
            0 <= i < text::padded(n, width).len() ==> text::is_digit(
                #[trigger] text::padded(n, width)[i],
            ),
{
    let d = text::decimal(n);
    lemma_decimal_digits(n);
    text::law_decimal_round_trip(n);
    assert(text::is_digit(d[0]));
    if d.len() < width {
        let zeros = Seq::new((width - d.len()) as nat, |i: int| '0');
        lemma_digits_value_zeros(zeros, d);
        let p = text::padded(n, width);
        assert(p == zeros + d);
        assert forall|i: int| 0 <= i < p.len() implies text::is_digit(#[trigger] p[i]) by {
            if i >= zeros.len() {
                assert(p[i] == d[i - zeros.len()]);
            }
        }
        assert(p[0] == zeros[0]);
        assert(text::unsigned_digits(p) == p);
    }
}

/// The number of a file as it stands in its name, with what follows it.
pub open spec fn number_part(idx: nat) -> Seq<char> {
    text::padded(idx, 4) + seq!['.', 'g', 'r', 'a', 'w']
}

proof fn lemma_name_texts()
    ensures
        "CoBo"@ =~= seq!['C', 'o', 'B', 'o'],
        "_AsAd"@ =~= seq!['_', 'A', 's', 'A', 'd'],
        "_"@ =~= seq!['_'],
        ".graw"@ =~= seq!['.', 'g', 'r', 'a', 'w'],
        "/"@ =~= seq!['/'],
        "run"@ =~= seq!['r', 'u', 'n'],
        "ctrl"@ =~= seq!['c', 't', 'r', 'l'],
{
    reveal_strlit("CoBo");
    reveal_strlit("_AsAd");
    reveal_strlit("_");
    reveal_strlit(".graw");
    reveal_strlit("/");
    reveal_strlit("run");
    reveal_strlit("ctrl");
}

proof fn lemma_no_underscore(prefix: Seq<char>, digits: Seq<char>, suffix: Seq<char>)
    requires
        !prefix.contains('_'),
        !suffix.contains('_'),
        forall|i: int| 0 <= i < digits.len() ==> text::is_digit(#[trigger] digits[i]),
    ensures
        !(prefix + digits + suffix).contains('_'),
{
    let s = prefix + digits + suffix;
    if s.contains('_') {
        let i = choose|i: int| 0 <= i < s.len() && s[i] == '_';
        if i < prefix.len() {
            assert(prefix[i] == '_');
        } else if i < prefix.len() + digits.len() {
            assert(text::is_digit(digits[i - prefix.len()]));
        } else {
            assert(suffix[i - prefix.len() - digits.len()] == '_');
        }
    }
}

/// The name of a file of an AsAd board holds four parts between underscores: the CoBo, the AsAd
/// board, the time, and the number of the file.
pub proof fn law_a_board_file_names_its_board(cobo: u32, asad: u8, ts: Seq<char>, idx: nat)
    requires
        !ts.contains('_'),
    ensures
        text::split(graw_writer::file_name(FileKey::Asad(cobo, asad), ts, idx), '_') == seq![
            seq!['C', 'o', 'B', 'o'] + text::decimal(cobo as nat),
            seq!['A', 's', 'A', 'd'] + text::decimal(asad as nat),
            ts,
            number_part(idx),
        ],
{
    lemma_name_texts();
    lemma_decimal_digits(cobo as nat);
    lemma_decimal_digits(asad as nat);
    law_padded_numbers_are_read_back(idx, 4);
    let a = seq!['C', 'o', 'B', 'o'] + text::decimal(cobo as nat);
    let b = seq!['A', 's', 'A', 'd'] + text::decimal(asad as nat);
    let none = Seq::<char>::empty();
    lemma_no_underscore(seq!['C', 'o', 'B', 'o'], text::decimal(cobo as nat), none);
    lemma_no_underscore(seq!['A', 's', 'A', 'd'], text::decimal(asad as nat), none);
    lemma_no_underscore(none, text::padded(idx, 4), seq!['.', 'g', 'r', 'a', 'w']);
    assert(a + none =~= a);
    assert(b + none =~= b);
    assert(none + text::padded(idx, 4) + seq!['.', 'g', 'r', 'a', 'w'] =~= number_part(idx));
    let parts = seq![a, b, ts, number_part(idx)];
    lemma_join_four(parts, seq!['_']);
    assert(graw_writer::file_name(FileKey::Asad(cobo, asad), ts, idx) =~= text::join(
        parts,
        seq!['_'],
    ));
    text::law_joined_parts_are_split_again(parts, '_');
}

/// The name of a file of control frames holds three parts between underscores: the CoBo, the time,
/// and the number of the file.
pub proof fn law_a_control_file_names_its_source(cobo: u32, ts: Seq<char>, idx: nat)
    requires
        !ts.contains('_'),
    ensures
        text::split(graw_writer::file_name(FileKey::Ctrl(cobo), ts, idx), '_') == seq![
            seq!['C', 'o', 'B', 'o'] + text::decimal(cobo as nat),
            ts,
            number_part(idx),
        ],
{
    lemma_name_texts();
    lemma_decimal_digits(cobo as nat);
    law_padded_numbers_are_read_back(idx, 4);
    let a = seq!['C', 'o', 'B', 'o'] + text::decimal(cobo as nat);
    let none = Seq::<char>::empty();
    lemma_no_underscore(seq!['C', 'o', 'B', 'o'], text::decimal(cobo as nat), none);
    lemma_no_underscore(none, text::padded(idx, 4), seq!['.', 'g', 'r', 'a', 'w']);
    assert(a + none =~= a);
    assert(none + text::padded(idx, 4) + seq!['.', 'g', 'r', 'a', 'w'] =~= number_part(idx));
    let parts = seq![a, ts, number_part(idx)];
    lemma_join_three(parts, seq!['_']);
    assert(graw_writer::file_name(FileKey::Ctrl(cobo), ts, idx) =~= text::join(parts, seq!['_']));
    text::law_joined_parts_are_split_again(parts, '_');
}

proof fn lemma_join_three(a: Seq<Seq<char>>, c: Seq<char>)
    requires
        a.len() == 3,
    ensures
        text::join(a, c) == a[0] + c + a[1] + c + a[2],
{
    assert(a.drop_last().drop_last() =~= seq![a[0]]);
    assert(text::join(a.drop_last().drop_last(), c) == a[0]);
    assert(text::join(a.drop_last(), c) == a[0] + c + a[1]);
}

proof fn lemma_join_four(a: Seq<Seq<char>>, c: Seq<char>)
    requires
        a.len() == 4,
    ensures
        text::join(a, c) == a[0] + c + a[1] + c + a[2] + c + a[3],
{
    lemma_join_three(a.drop_last(), c);
}

/// Two files of a run that were begun at the same time have different names, unless they are of
/// the same board or source and have the same number.
pub proof fn law_names_tell_files_apart(a: FileKey, i: nat, b: FileKey, j: nat, ts: Seq<char>)
    requires
        !ts.contains('_'),
        graw_writer::file_name(a, ts, i) == graw_writer::file_name(b, ts, j),
    ensures
        a == b,
        i == j,
{
    lemma_parts(a, ts, i);
    lemma_parts(b, ts, j);
    let x = text::split(graw_writer::file_name(a, ts, i), '_');
    let y = text::split(graw_writer::file_name(b, ts, j), '_');
    assert(x[0].skip(4) =~= text::decimal(a.cobo_of() as nat));
    assert(y[0].skip(4) =~= text::decimal(b.cobo_of() as nat));
    text::law_decimal_is_injective(a.cobo_of() as nat, b.cobo_of() as nat);
    assert(x.len() == y.len());
    if let FileKey::Asad(_, p) = a {
        if let FileKey::Asad(_, q) = b {
            assert(x[1].skip(4) =~= text::decimal(p as nat));
            assert(y[1].skip(4) =~= text::decimal(q as nat));
            text::law_decimal_is_injective(p as nat, q as nat);
        }
    }
    law_padded_numbers_are_read_back(i, 4);
    law_padded_numbers_are_read_back(j, 4);
    assert(x.last() == number_part(i) && y.last() == number_part(j));
    assert(number_part(i).take(number_part(i).len() - 5) =~= text::padded(i, 4));
    assert(number_part(j).take(number_part(j).len() - 5) =~= text::padded(j, 4));
}

proof fn lemma_parts(key: FileKey, ts: Seq<char>, idx: nat)
    requires
        !ts.contains('_'),
    ensures
        ({
            let x = text::split(graw_writer::file_name(key, ts, idx), '_');
            &&& x[0] == seq!['C', 'o', 'B', 'o'] + text::decimal(key.cobo_of() as nat)
            &&& x.last() == number_part(idx)
            &&& match key {
                FileKey::Asad(_, asad) => x.len() == 4 && x[1] == seq!['A', 's', 'A', 'd']
                    + text::decimal(asad as nat),
                FileKey::Ctrl(_) => x.len() == 3,
            }
        }),
{
    match key {
        FileKey::Asad(cobo, asad) => {
            law_a_board_file_names_its_board(cobo, asad, ts, idx);
        },
        FileKey::Ctrl(cobo) => {
            law_a_control_file_names_its_source(cobo, ts, idx);
        },
    }
}

/// The files of the AsAd boards stand in the directory of their run, which is named after its
/// number, and those of control frames in a directory of their own below it.
pub proof fn law_files_stand_below_their_run(
    root: Seq<char>,
    run: u32,
    key: FileKey,
    ts: Seq<char>,
    idx: nat,
)
    requires
        root.len() > 0,
        root.last() != '/',
    ensures
        ({
            let dir = root + seq!['/', 'r', 'u', 'n'] + text::padded(run as nat, 4);
            let name = graw_writer::file_name(key, ts, idx);
            &&& graw_writer::run_dir(root, run) == dir
            &&& graw_writer::ctrl_dir(root, run) == dir + seq!['/', 'c', 't', 'r', 'l']
            &&& graw_writer::file_path(root, run, key, ts, idx) == match key {
                FileKey::Asad(_, _) => dir + seq!['/'] + name,
                FileKey::Ctrl(_) => dir + seq!['/', 'c', 't', 'r', 'l', '/'] + name,
            }
        }),
{
    lemma_name_texts();
    law_padded_numbers_are_read_back(run as nat, 4);
    let n = text::padded(run as nat, 4);
    let dir = root + seq!['/', 'r', 'u', 'n'] + n;
    assert(dir.last() == n[n.len() - 1]);
    assert(text::is_digit(dir.last()));
    assert(graw_writer::run_dir(root, run) =~= dir);
    assert(graw_writer::ctrl_dir(root, run) =~= dir + seq!['/', 'c', 't', 'r', 'l']);
    let name = graw_writer::file_name(key, ts, idx);
    assert(graw_writer::ctrl_dir(root, run).last() == 'l');
    match key {
        FileKey::Asad(_, _) => {
            assert(graw_writer::file_path(root, run, key, ts, idx) =~= dir + seq!['/'] + name);
        },
        FileKey::Ctrl(_) => {
            assert(graw_writer::file_path(root, run, key, ts, idx) =~= dir + seq![
                '/',
                'c',
                't',
                'r',
                'l',
                '/',
            ] + name);
        },
    }
}

/// A root that ends with a slash, or is empty, is followed by the name at once.
pub proof fn law_no_slash_is_doubled(root: Seq<char>, run: u32)
    requires
        root.len() == 0 || root.last() == '/',
    ensures
        graw_writer::run_dir(root, run) == root + seq!['r', 'u', 'n'] + text::padded(run as nat, 4),
{
    lemma_name_texts();
    assert(graw_writer::run_dir(root, run) =~= root + seq!['r', 'u', 'n'] + text::padded(
        run as nat,
        4,
    ));
}

// ---------------------------------------------------------------------
// Counters
// ---------------------------------------------------------------------

/// The number that the next batch of `source` should have: one more than that of its last.
pub open spec fn awaited(events: Seq<WriterEvent>, source: u32) -> nat
    decreases events.len(),
{
    if events.len() == 0 {
        0
    } else {
        match events.last() {
            WriterEvent::Batch { source: from, seq, .. } if from == source => seq as nat + 1,
            _ => awaited(events.drop_last(), source),
        }
    }
}

/// How many batches did not have the number that was awaited of their source.
pub open spec fn gaps(events: Seq<WriterEvent>) -> nat
    decreases events.len(),
{
    if events.len() == 0 {
        0
    } else {
        gaps(events.drop_last()) + match events.last() {
            WriterEvent::Batch { source, seq, .. } => if seq != awaited(
                events.drop_last(),
                source,
            ) {
                1nat
            } else {
                0nat
            },
            _ => 0nat,
        }
    }
}

/// How many batches were of another run.
pub open spec fn strays(run: u32, events: Seq<WriterEvent>) -> nat
    decreases events.len(),
{
    if events.len() == 0 {
        0
    } else {
        strays(run, events.drop_last()) + match events.last() {
            WriterEvent::Batch { run: said, .. } => if said != run {
                1nat
            } else {
                0nat
            },
            _ => 0nat,
        }
    }
}

/// How many batches came from a source.
pub open spec fn batches_from(events: Seq<WriterEvent>, source: u32) -> nat
    decreases events.len(),
{
    if events.len() == 0 {
        0
    } else {
        batches_from(events.drop_last(), source) + match events.last() {
            WriterEvent::Batch { source: from, .. } => if from == source {
                1nat
            } else {
                0nat
            },
            _ => 0nat,
        }
    }
}

/// How many of the frames are control frames, that is, have no AsAd number.
pub open spec fn control(frames: Seq<Seq<u8>>) -> nat
    decreases frames.len(),
{
    if frames.len() == 0 {
        0
    } else {
        control(frames.drop_first()) + if decode::is_routable(frames.first()) {
            0nat
        } else {
            1nat
        }
    }
}

/// How many control frames have come.
pub open spec fn control_in(events: Seq<WriterEvent>) -> nat
    decreases events.len(),
{
    if events.len() == 0 {
        0
    } else {
        control_in(events.drop_last()) + match events.last() {
            WriterEvent::Batch { frames, .. } => control(frames),
            _ => 0nat,
        }
    }
}

/// The counters of a writer tell what has come: the batches of every source, those out of turn,
/// those of another run, and the control frames, but for those that wait behind another frame. The
/// writer has a fault exactly where a batch was out of turn or of another run, as long as all that
/// is done to the disk succeeds.
pub proof fn law_the_counters_tell_what_has_come(
    root: Seq<char>,
    run: u32,
    max: u64,
    events: Seq<WriterEvent>,
    source: u32,
)
    requires
        WriterState::fresh_run(root, run, max).meets_all(events),
    ensures
        ({
            let s = WriterState::fresh_run(root, run, max).after_all(events);
            &&& s.root == root
            &&& s.run == run
            &&& s.max == max
            &&& s.seq_gaps == gaps(events)
            &&& s.run_mismatches == strays(run, events)
            &&& tally::count_in(s.next_seq, source as u64) == awaited(events, source)
            &&& tally::count_in(s.batches, source as u64) == batches_from(events, source)
            &&& s.write_errors == 0
            &&& s.errored <==> gaps(events) > 0 || strays(run, events) > 0
            &&& s.ctrl_frames + control(
                if s.queue.len() == 0 {
                    s.queue
                } else {
                    s.queue.drop_first()
                },
            ) == control_in(events)
        }),
    decreases events.len(),
{
    let fresh = WriterState::fresh_run(root, run, max);
    if events.len() > 0 {
        let before = events.drop_last();
        law_the_counters_tell_what_has_come(root, run, max, before, source);
        let s = fresh.after_all(before);
        match events.last() {
            WriterEvent::Batch { source: from, frames, .. } => {
                law_the_counters_tell_what_has_come(root, run, max, before, from);
            },
            WriterEvent::Done => {
                let t = s.after_done();
                assert(s.action() is Write ==> t.queue == s.queue.drop_first());
            },
            _ => {},
        }
    }
}

/// What cannot be done to the disk is counted and is a fault, and what is left of the batch is given
/// up; the files stay as they are.
pub proof fn law_failures_are_counted(s: WriterState)
    ensures
        s.after_failure().write_errors == s.write_errors + 1,
        s.after_failure().errored,
        s.after_failure().queue.len() == 0,
        s.after_failure().open == s.open,
        s.after_failure().closed == s.closed,
        s.after_flush(false).write_errors == s.write_errors + 1,
        s.after_flush(false).errored,
        s.after_flush(false).open == s.open,
        s.after_flush(true) == s,
        s.open.len() > 0 ==> s.after_close(false).write_errors == s.write_errors + 1
            && s.after_close(false).errored,
        s.open.len() > 0 ==> s.after_close(true).write_errors == s.write_errors,
{
}

/// A file is closed before its run ends only where the next frame would make it longer than it may
/// get, and an empty file never is.
pub proof fn law_files_are_filled(s: WriterState)
    requires
        s.action() is Sync,
    ensures
        s.queue.len() > 0,
        ({
            let f = s.open[graw_writer::index_for(s.open, s.front_key())];
            &&& graw_writer::total(f.content) > 0
            &&& graw_writer::total(f.content) + s.queue.first().len() > s.max
        }),
{
}

/// The number under which an AsAd board is counted tells CoBo and AsAd.
pub proof fn law_boards_are_counted_apart(cobo: u32, asad: u8)
    ensures
        graw_writer::board_number(cobo, asad) / 256 == cobo,
        graw_writer::board_number(cobo, asad) % 256 == asad as u64,
{
}

/// Every AsAd board that is counted is reported with its numbers, its bytes and its frames.
pub proof fn law_every_board_is_reported(s: WriterState, k: int)
    requires
        0 <= k < tally::listing(s.asad_bytes).len(),
    ensures
        ({
            let p = tally::listing(s.asad_bytes)[k];
            let b = s.boards()[k];
            &&& s.boards().len() == tally::listing(s.asad_bytes).len()
            &&& p.0 < 0x100_0000_0000 ==> graw_writer::board_number(b.cobo, b.asad) == p.0
            &&& b.bytes == p.1
            &&& b.frames == tally::count_in(s.asad_frames, p.0)
        }),
{
}

/// The report of a writer gives each of its counters, and its boards and files, under its name.
pub proof fn law_the_report_gives_every_counter(s: WriterState)
    ensures
        ({
            let r = s.report();
            &&& r.len() == 9
            &&& r[0] == ("seq_gaps"@, MetricView::Uint(s.seq_gaps as u64))
            &&& r[1] == ("run_mismatches"@, MetricView::Uint(s.run_mismatches as u64))
            &&& r[2] == ("ctrl_frames"@, MetricView::Uint(s.ctrl_frames as u64))
            &&& r[3] == ("write_errors"@, MetricView::Uint(s.write_errors as u64))
            &&& r[4] == ("batches"@, MetricView::Tally(tally::listing(s.batches)))
            &&& r[5] == ("asad"@, MetricView::Asads(s.boards()))
            &&& r[6].0 == "files"@
            &&& r[6].1 matches MetricView::Files(f) && f.len() == graw_writer::sorted(
                s.unsorted(),
            ).len()
            &&& r[7] == ("files_open"@, MetricView::Uint(s.open.len() as u64))
            &&& r[8] == ("files_closed"@, MetricView::Uint(s.closed.len() as u64))
        }),
{
}

/// A file is listed with its path, its bytes, the CoBo and the board that it is of, its number, its
/// frames, and whether it is closed.
pub proof fn law_a_file_is_listed(s: WriterState, f: FileModel, closed: bool)
    requires
        f.idx <= u32::MAX,
        graw_writer::total(f.content) <= u64::MAX,
        f.content.len() <= u64::MAX,
    ensures
        ({
            let v = graw_writer::listed_file(s.file_view(f, closed));
            let d = v.detail->0;
            &&& v.path == Some(graw_writer::file_path(s.root, s.run, f.key, f.ts, f.idx))
            &&& v.bytes matches Some(n) && n == graw_writer::total(f.content)
            &&& v.detail is Some
            &&& d.idx == f.idx
            &&& d.frames == f.content.len()
            &&& d.closed == closed
            &&& match f.key {
                FileKey::Asad(cobo, asad) => d.cobo == cobo && d.asad == Some(asad),
                FileKey::Ctrl(cobo) => d.cobo == cobo && d.asad is None,
            }
        }),
{
}

/// What the thread of a writer does with a message: it closes its files where it is stopped or where
/// every source has ended its stream of this run; it writes a batch that holds frames; and else it
/// brings its files to the disk where the interval is over, and takes the next message.
pub proof fn law_what_a_message_leads_to(s: LoopState, source: u32, run: u32, now: u64)
    requires
        now >= s.last_flush,
    ensures
        s.after_arrival(Arrival::Stopped, now).stage == Stage::Closing,
        s.after_arrival(Arrival::Closed, now).stage == Stage::Closing,
        s.after_arrival(Arrival::Nothing, now).stage == if now - s.last_flush >= s.flush_ns {
            Stage::Flushing
        } else {
            Stage::Receiving
        },
        s.after_arrival(Arrival::Nothing, now).writer == s.writer,
        ({
            let t = s.after_arrival(
                Arrival::EndOfStream { source_id: source, run_number: run },
                now,
            );
            &&& t.ended == if run == s.writer.run {
                s.ended.insert(source)
            } else {
                s.ended
            }
            &&& t.writer == s.writer
            &&& t.stage == Stage::Closing <==> forall|i: int|
                0 <= i < s.expected.len() ==> t.ended.contains(#[trigger] s.expected[i])
        }),
        s.after_flush(true, now).last_flush == now,
        s.after_flush(true, now).stage == Stage::Receiving,
{
}

/// Reports of files stand by CoBo; those of one CoBo with control frames first and then by AsAd; and
/// those of one board by number.
pub proof fn law_how_reports_are_ordered(a: ReportView, b: ReportView)
    ensures
        a.cobo != b.cobo ==> (graw_writer::precedes(a, b) <==> a.cobo < b.cobo),
        a.cobo == b.cobo && a.asad is None && b.asad is Some ==> graw_writer::precedes(a, b)
            && !graw_writer::precedes(b, a),
        a.cobo == b.cobo ==> (a.asad matches Some(x) ==> (b.asad matches Some(y) ==> (x != y ==> (
        graw_writer::precedes(a, b) <==> x < y)))),
        a.cobo == b.cobo && a.asad == b.asad ==> (graw_writer::precedes(a, b) <==> a.idx < b.idx),
{
}

/// Every file is reported, the closed ones as closed and the open ones as open.
pub proof fn law_every_file_is_reported(s: WriterState, k: int)
    ensures
        s.unsorted().len() == s.closed.len() + s.open.len(),
        0 <= k < s.closed.len() ==> s.unsorted()[k].closed && s.unsorted()[k].path
            == graw_writer::file_path(
            s.root,
            s.run,
            s.closed[k].key,
            s.closed[k].ts,
            s.closed[k].idx,
        ),
        0 <= k < s.open.len() ==> !s.unsorted()[s.closed.len() + k].closed && s.unsorted()[s.closed.len()
            + k].path == graw_writer::file_path(
            s.root,
            s.run,
            s.open[k].key,
            s.open[k].ts,
            s.open[k].idx,
        ),
{
}

} // verus!

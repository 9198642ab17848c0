//! Raw frames into files, byte for byte: one file for each AsAd board of each CoBo, and one for
//! the control frames of each CoBo, under `ctrl/`.
//!
//! [`RunWriter`] decides what is to be done to the disk for a run; the caller does it and reports
//! back. A file is made when its first frame comes. Where the next frame would make a file longer
//! than the limit, the file is finished and the next one of the same name is begun: the time in
//! the name stays, the number behind it grows by one. A frame is never split, and no frame is
//! left out: control frames are no fault, they have a place of their own.
//!
//! A failure to write, a gap in a source's batch numbers, and a batch of another run are faults.

use std::collections::HashSet;

use vstd::prelude::*;

use crate::command::{AsadEntry, FileDetail, FileEntry, FileView, Metric, MetricView, Metrics};
use crate::config::{Config, GRAW_WRITER_COMMAND_LISTEN};
use crate::decode;
use crate::decode::peek_asad;
use crate::tally;
use crate::tally::Tally;
use crate::text;
use crate::text::{chars_of, push_decimal, push_padded};

verus! {

broadcast use vstd::std_specs::hash::group_hash_axioms;

/// How long to wait for a message before looking at anything else, in milliseconds.
pub const POLL_TIMEOUT_MS: i32 = 200;

// ---------------------------------------------------------------------
// Parameters
// ---------------------------------------------------------------------

/// What a writer process is started with.
#[derive(Debug, Clone)]
pub struct GrawWriterParams {
    pub pull_bind: String,
    pub command_listen: String,
    pub output_root: String,
    /// How long a file may get, in bytes.
    pub max_file_bytes: u64,
    pub flush_interval_ms: u64,
    /// The CoBos whose streams have to end.
    pub expected_sources: Vec<u32>,
}

impl GrawWriterParams {
    /// What a configuration gives.
    pub fn from_config(config: &Config) -> (params: Self)
        ensures
            params.pull_bind@ == config.graw_writer.pull_bind@,
            params.command_listen@ == GRAW_WRITER_COMMAND_LISTEN@,
            params.output_root@ == config.system.output_root@,
            params.max_file_bytes == config.graw_writer.max_file_bytes,
            params.flush_interval_ms == config.graw_writer.flush_interval_ms,
            params.expected_sources@ == config.cobo_ids(),
    {
        GrawWriterParams {
            pull_bind: config.graw_writer.pull_bind.clone(),
            command_listen: GRAW_WRITER_COMMAND_LISTEN.to_string(),
            output_root: config.system.output_root.clone(),
            max_file_bytes: config.graw_writer.max_file_bytes,
            flush_interval_ms: config.graw_writer.flush_interval_ms,
            expected_sources: config.ids(),
        }
    }
}

// ---------------------------------------------------------------------
// Files
// ---------------------------------------------------------------------

/// Which file a frame goes to.
#[derive(Debug, Clone, Copy, PartialEq, Eq, Structural, Hash)]
pub enum FileKey {
    /// The file of an AsAd board: CoBo and AsAd.
    Asad(u32, u8),
    /// The file of a CoBo's control frames.
    Ctrl(u32),
}

impl FileKey {
    /// The CoBo.
    pub open spec fn cobo_of(self) -> u32 {
        match self {
            FileKey::Asad(cobo, _) => cobo,
            FileKey::Ctrl(cobo) => cobo,
        }
    }

    /// The AsAd board, if it is a board's file.
    pub open spec fn asad_of(self) -> Option<u8> {
        match self {
            FileKey::Asad(_, asad) => Some(asad),
            FileKey::Ctrl(_) => None,
        }
    }

    /// The CoBo.
    pub fn cobo(self) -> (cobo: u32)
        ensures
            cobo == self.cobo_of(),
    {
        match self {
            FileKey::Asad(cobo, _) => cobo,
            FileKey::Ctrl(cobo) => cobo,
        }
    }

    /// The AsAd board, if it is a board's file.
    pub fn asad(self) -> (asad: Option<u8>)
        ensures
            asad == self.asad_of(),
    {
        match self {
            FileKey::Asad(_, asad) => Some(asad),
            FileKey::Ctrl(_) => None,
        }
    }
}

/// The file that a frame of `source` goes to.
pub open spec fn key_of(source: u32, frame: Seq<u8>) -> FileKey {
    if decode::is_routable(frame) {
        FileKey::Asad(source, frame[27])
    } else {
        FileKey::Ctrl(source)
    }
}

fn key_for(source: u32, frame: &[u8]) -> (key: FileKey)
    ensures
        key == key_of(source, frame@),
{
    match peek_asad(frame) {
        Some(asad) => FileKey::Asad(source, asad),
        None => FileKey::Ctrl(source),
    }
}

/// `name` in directory `dir`.
pub open spec fn joined(dir: Seq<char>, name: Seq<char>) -> Seq<char> {
    if dir.len() == 0 || dir.last() == '/' {
        dir + name
    } else {
        dir + "/"@ + name
    }
}

fn join(dir: &String, name: &str) -> (s: String)
    ensures
        s@ == joined(dir@, name@),
{
    let chars: Vec<char> = chars_of(dir.as_str());
    let mut s: String = dir.clone();
    if chars.len() > 0 && chars[chars.len() - 1] != '/' {
        s.append("/");
    }
    s.append(name);
    s
}

/// The directory of a run.
pub open spec fn run_dir(root: Seq<char>, run: u32) -> Seq<char> {
    joined(root, "run"@ + text::padded(run as nat, 4))
}

/// The directory of a run's control frames.
pub open spec fn ctrl_dir(root: Seq<char>, run: u32) -> Seq<char> {
    joined(run_dir(root, run), "ctrl"@)
}

/// The name of a file.
pub open spec fn file_name(key: FileKey, ts: Seq<char>, idx: nat) -> Seq<char> {
    match key {
        FileKey::Asad(cobo, asad) => "CoBo"@ + text::decimal(cobo as nat) + "_AsAd"@
            + text::decimal(asad as nat) + "_"@ + ts + "_"@ + text::padded(idx, 4) + ".graw"@,
        FileKey::Ctrl(cobo) => "CoBo"@ + text::decimal(cobo as nat) + "_"@ + ts + "_"@
            + text::padded(idx, 4) + ".graw"@,
    }
}

/// Where a file is.
pub open spec fn file_path(
    root: Seq<char>,
    run: u32,
    key: FileKey,
    ts: Seq<char>,
    idx: nat,
) -> Seq<char> {
    match key {
        FileKey::Asad(_, _) => joined(run_dir(root, run), file_name(key, ts, idx)),
        FileKey::Ctrl(_) => joined(ctrl_dir(root, run), file_name(key, ts, idx)),
    }
}

fn run_dir_text(root: &String, run: u32) -> (s: String)
    ensures
        s@ == run_dir(root@, run),
{
    let mut name: String = "run".to_string();
    push_padded(&mut name, run as u64, 4);
    join(root, name.as_str())
}

fn ctrl_dir_text(root: &String, run: u32) -> (s: String)
    ensures
        s@ == ctrl_dir(root@, run),
{
    join(&run_dir_text(root, run), "ctrl")
}

fn file_path_text(root: &String, run: u32, key: FileKey, ts: &String, idx: u32) -> (s: String)
    ensures
        s@ == file_path(root@, run, key, ts@, idx as nat),
{
    let mut name: String = "CoBo".to_string();
    push_decimal(&mut name, key.cobo() as u64);
    if let FileKey::Asad(_, asad) = key {
        name.append("_AsAd");
        push_decimal(&mut name, asad as u64);
    }
    name.append("_");
    name.append(ts.as_str());
    name.append("_");
    push_padded(&mut name, idx as u64, 4);
    name.append(".graw");
    match key {
        FileKey::Asad(_, _) => join(&run_dir_text(root, run), name.as_str()),
        FileKey::Ctrl(_) => join(&ctrl_dir_text(root, run), name.as_str()),
    }
}

/// A file of a run and the frames in it.
pub struct FileModel {
    pub key: FileKey,
    /// The time in the name.
    pub ts: Seq<char>,
    /// The number in the name.
    pub idx: nat,
    pub content: Seq<Seq<u8>>,
}

/// The length of all frames together.
pub open spec fn total(frames: Seq<Seq<u8>>) -> nat
    decreases frames.len(),
{
    if frames.len() == 0 {
        0
    } else {
        total(frames.drop_last()) + frames.last().len()
    }
}

/// The place of the file for `key`, or the number of files if there is none.
pub open spec fn index_for(files: Seq<FileModel>, key: FileKey) -> int
    decreases files.len(),
{
    if files.len() == 0 {
        0
    } else {
        let i = index_for(files.drop_last(), key);
        if i < files.len() - 1 || files.last().key == key {
            i
        } else {
            files.len() as int
        }
    }
}

/// The frames in all files for `key`, in order.
pub open spec fn frames_in(files: Seq<FileModel>, key: FileKey) -> Seq<Seq<u8>>
    decreases files.len(),
{
    if files.len() == 0 {
        Seq::empty()
    } else if files.last().key == key {
        frames_in(files.drop_last(), key) + files.last().content
    } else {
        frames_in(files.drop_last(), key)
    }
}

/// The frames of `source` that go to `key`, in order.
pub open spec fn frames_for(source: u32, frames: Seq<Seq<u8>>, key: FileKey) -> Seq<Seq<u8>>
    decreases frames.len(),
{
    if frames.len() == 0 {
        Seq::empty()
    } else if key_of(source, frames.first()) == key {
        seq![frames.first()] + frames_for(source, frames.drop_first(), key)
    } else {
        frames_for(source, frames.drop_first(), key)
    }
}

/// Whether no two files have the same key.
pub open spec fn apart(files: Seq<FileModel>) -> bool {
    forall|i: int, j: int|
        0 <= i < j < files.len() ==> (#[trigger] files[i]).key != (#[trigger] files[j]).key
}

proof fn lemma_index_for(files: Seq<FileModel>, key: FileKey)
    ensures
        0 <= index_for(files, key) <= files.len(),
        index_for(files, key) < files.len() ==> files[index_for(files, key)].key == key,
        forall|k: int| 0 <= k < index_for(files, key) ==> (#[trigger] files[k]).key != key,
    decreases files.len(),
{
    if files.len() > 0 {
        lemma_index_for(files.drop_last(), key);
        let i = index_for(files.drop_last(), key);
        assert forall|k: int| 0 <= k < index_for(files, key) implies (#[trigger] files[k]).key
            != key by {
            if k < files.len() - 1 {
                assert(files.drop_last()[k] == files[k]);
            }
        }
    }
}

proof fn lemma_index_found(files: Seq<FileModel>, key: FileKey, i: int)
    requires
        0 <= i < files.len(),
        files[i].key == key,
        forall|k: int| 0 <= k < i ==> (#[trigger] files[k]).key != key,
    ensures
        index_for(files, key) == i,
{
    lemma_index_for(files, key);
}

// ---------------------------------------------------------------------
// The state of a run
// ---------------------------------------------------------------------

/// What is to be done to the disk next.
#[derive(Debug, Clone)]
pub enum WriterAction {
    /// Nothing: the batch is written.
    Idle,
    /// Make this directory and those above it.
    MakeDir(String),
    /// Say what time it is.
    Stamp,
    /// Bring the open file for this key to the disk and close it.
    Sync(FileKey),
    /// Make this file, for this key.
    Create(FileKey, String),
    /// Append the frame at the front to the open file for this key.
    Write(FileKey),
}

/// The value of a [`WriterAction`].
pub enum ActionView {
    Idle,
    MakeDir(Seq<char>),
    Stamp,
    Sync(FileKey),
    Create(FileKey, Seq<char>),
    Write(FileKey),
}

impl View for WriterAction {
    type V = ActionView;

    open spec fn view(&self) -> ActionView {
        match self {
            WriterAction::Idle => ActionView::Idle,
            WriterAction::MakeDir(path) => ActionView::MakeDir(path@),
            WriterAction::Stamp => ActionView::Stamp,
            WriterAction::Sync(key) => ActionView::Sync(*key),
            WriterAction::Create(key, path) => ActionView::Create(*key, path@),
            WriterAction::Write(key) => ActionView::Write(*key),
        }
    }
}

/// The state of a [`RunWriter`].
pub struct WriterState {
    pub root: Seq<char>,
    pub run: u32,
    pub max: u64,
    /// Whether the run's directory is made.
    pub run_dir: bool,
    /// Whether the directory of control frames is made.
    pub ctrl_dir: bool,
    pub open: Seq<FileModel>,
    pub closed: Seq<FileModel>,
    /// Time and number of the file that is to be made.
    pub fresh: Option<(Seq<char>, nat)>,
    /// The source of the batch at hand.
    pub source: u32,
    /// The frames of the batch at hand that are not written.
    pub queue: Seq<Seq<u8>>,
    pub asad_bytes: Map<u64, u64>,
    pub asad_frames: Map<u64, u64>,
    pub batches: Map<u64, u64>,
    pub next_seq: Map<u64, u64>,
    pub seq_gaps: nat,
    pub run_mismatches: nat,
    pub ctrl_frames: nat,
    pub write_errors: nat,
    pub errored: bool,
}

/// The number under which an AsAd board is counted.
pub open spec fn board_number(cobo: u32, asad: u8) -> u64 {
    (cobo * 256 + asad) as u64
}

impl WriterState {
    /// A run of which nothing has come.
    pub open spec fn fresh_run(root: Seq<char>, run: u32, max: u64) -> WriterState {
        WriterState {
            root,
            run,
            max,
            run_dir: false,
            ctrl_dir: false,
            open: Seq::empty(),
            closed: Seq::empty(),
            fresh: None,
            source: 0,
            queue: Seq::empty(),
            asad_bytes: Map::empty(),
            asad_frames: Map::empty(),
            batches: Map::empty(),
            next_seq: Map::empty(),
            seq_gaps: 0,
            run_mismatches: 0,
            ctrl_frames: 0,
            write_errors: 0,
            errored: false,
        }
    }

    /// The key of the frame at the front.
    pub open spec fn front_key(self) -> FileKey {
        key_of(self.source, self.queue.first())
    }

    /// The run once the frame at the front is looked at: control frames are counted.
    pub open spec fn taken_up(self) -> WriterState {
        if self.queue.len() > 0 && self.front_key() is Ctrl {
            WriterState { ctrl_frames: self.ctrl_frames + 1, ..self }
        } else {
            self
        }
    }

    /// The run once a batch has come. A batch of another run, or one whose number does not follow
    /// the last, is a fault, but its frames are kept like those of any other.
    pub open spec fn after_batch(
        self,
        source: u32,
        run: u32,
        seq: u64,
        frames: Seq<Seq<u8>>,
    ) -> WriterState {
        let stray = run != self.run;
        let gap = seq != tally::count_in(self.next_seq, source as u64);
        (WriterState {
            run_mismatches: self.run_mismatches + if stray {
                1nat
            } else {
                0nat
            },
            seq_gaps: self.seq_gaps + if gap {
                1nat
            } else {
                0nat
            },
            errored: self.errored || stray || gap,
            next_seq: self.next_seq.insert(source as u64, (seq + 1) as u64),
            batches: self.batches.insert(
                source as u64,
                (tally::count_in(self.batches, source as u64) + 1) as u64,
            ),
            source,
            queue: frames,
            fresh: None,
            ..self
        }).taken_up()
    }

    /// The place of the open file for the frame at the front.
    pub open spec fn at(self) -> int {
        index_for(self.open, self.front_key())
    }

    /// Whether the frame at the front would make its file longer than it may get.
    pub open spec fn overflows(self) -> bool {
        let used = total(self.open[self.at()].content);
        used > 0 && used + self.queue.first().len() > self.max
    }

    /// What is to be done to the disk next.
    pub open spec fn action(self) -> ActionView {
        if self.queue.len() == 0 {
            ActionView::Idle
        } else if !self.run_dir {
            ActionView::MakeDir(run_dir(self.root, self.run))
        } else if self.at() < self.open.len() {
            if self.overflows() {
                ActionView::Sync(self.front_key())
            } else {
                ActionView::Write(self.front_key())
            }
        } else {
            match self.fresh {
                None => ActionView::Stamp,
                Some((ts, idx)) => if self.front_key() is Ctrl && !self.ctrl_dir {
                    ActionView::MakeDir(ctrl_dir(self.root, self.run))
                } else {
                    ActionView::Create(
                        self.front_key(),
                        file_path(self.root, self.run, self.front_key(), ts, idx),
                    )
                },
            }
        }
    }

    /// The run once the frame at the front is appended to its file.
    pub open spec fn written(self) -> WriterState {
        let f = self.open[self.at()];
        let s = WriterState {
            open: self.open.update(
                self.at(),
                FileModel { content: f.content.push(self.queue.first()), ..f },
            ),
            queue: self.queue.drop_first(),
            ..self
        };
        (match self.front_key() {
            FileKey::Asad(cobo, asad) => WriterState {
                asad_bytes: s.asad_bytes.insert(
                    board_number(cobo, asad),
                    (tally::count_in(s.asad_bytes, board_number(cobo, asad))
                        + self.queue.first().len()) as u64,
                ),
                asad_frames: s.asad_frames.insert(
                    board_number(cobo, asad),
                    (tally::count_in(s.asad_frames, board_number(cobo, asad)) + 1) as u64,
                ),
                ..s
            },
            FileKey::Ctrl(_) => s,
        }).taken_up()
    }

    /// The run once the open file for the frame at the front is closed because it is full.
    pub open spec fn rotated(self) -> WriterState {
        let f = self.open[self.at()];
        WriterState {
            open: self.open.remove(self.at()),
            closed: self.closed.push(f),
            fresh: Some((f.ts, f.idx + 1)),
            ..self
        }
    }

    /// The run once the file that is to be made is made.
    pub open spec fn created(self) -> WriterState {
        let (ts, idx) = self.fresh->0;
        WriterState {
            open: self.open.push(
                FileModel { key: self.front_key(), ts, idx, content: Seq::empty() },
            ),
            fresh: None,
            ..self
        }
    }

    /// The run once what was to be done to the disk is done.
    pub open spec fn after_done(self) -> WriterState {
        match self.action() {
            ActionView::Idle => self,
            ActionView::MakeDir(_) => if !self.run_dir {
                WriterState { run_dir: true, ..self }
            } else {
                WriterState { ctrl_dir: true, ..self }
            },
            ActionView::Stamp => self,
            ActionView::Sync(_) => self.rotated(),
            ActionView::Create(_, _) => self.created(),
            ActionView::Write(_) => self.written(),
        }
    }

    /// The run once it is known what time it is.
    pub open spec fn after_stamp(self, ts: Seq<char>) -> WriterState {
        WriterState { fresh: Some((ts, 0)), ..self }
    }

    /// The run once something could not be done to the disk: what is left of the batch is given
    /// up.
    pub open spec fn after_failure(self) -> WriterState {
        WriterState {
            write_errors: self.write_errors + 1,
            errored: true,
            queue: Seq::empty(),
            fresh: None,
            ..self
        }
    }

    /// The run once all open files were brought to the disk, or could not be.
    pub open spec fn after_flush(self, ok: bool) -> WriterState {
        if ok {
            self
        } else {
            WriterState { write_errors: self.write_errors + 1, errored: true, ..self }
        }
    }

    /// The run once its first open file is closed, brought to the disk or not.
    pub open spec fn after_close(self, ok: bool) -> WriterState {
        (WriterState {
            open: self.open.drop_first(),
            closed: self.closed.push(self.open.first()),
            ..self
        }).after_flush(ok)
    }

    /// Whether every counter that a batch may raise has room.
    pub open spec fn room_for_batch(self, source: u32, seq: u64) -> bool {
        &&& seq < u64::MAX
        &&& self.run_mismatches < u64::MAX
        &&& self.seq_gaps < u64::MAX
        &&& self.ctrl_frames < u64::MAX
        &&& tally::count_in(self.batches, source as u64) < u64::MAX
    }

    /// Whether every counter that the end of an action may raise has room.
    pub open spec fn room_for_step(self) -> bool {
        &&& self.write_errors < u64::MAX
        &&& self.ctrl_frames < u64::MAX
        &&& self.fresh is Some ==> (self.fresh->0).1 <= u32::MAX
        &&& self.queue.len() > 0 ==> {
            &&& self.at() < self.open.len() ==> {
                &&& self.open[self.at()].idx < u32::MAX
                &&& self.open[self.at()].content.len() < u64::MAX
                &&& total(self.open[self.at()].content) + self.queue.first().len() <= u64::MAX
            }
            &&& self.front_key() matches FileKey::Asad(cobo, asad) ==> {
                &&& tally::count_in(self.asad_frames, board_number(cobo, asad)) < u64::MAX
                &&& tally::count_in(self.asad_bytes, board_number(cobo, asad))
                    + self.queue.first().len() <= u64::MAX
            }
        }
    }

    /// All frames for `key`: those in closed files, those in the open one, and those that are
    /// still to be written.
    pub open spec fn ledger(self, key: FileKey) -> Seq<Seq<u8>> {
        frames_in(self.closed, key) + frames_in(self.open, key) + frames_for(
            self.source,
            self.queue,
            key,
        )
    }

    /// Whether every file is within the limit, but for what a single frame makes too long.
    pub open spec fn limited(self) -> bool {
        &&& forall|i: int| 0 <= i < self.open.len() ==> within((#[trigger] self.open[i]).content, self.max)
        &&& forall|i: int|
            0 <= i < self.closed.len() ==> within((#[trigger] self.closed[i]).content, self.max)
    }
}

/// Whether the frames are no longer than `max` together, or all but the last are empty.
pub open spec fn within(content: Seq<Seq<u8>>, max: u64) -> bool {
    total(content) <= max || (content.len() > 0 && total(content.drop_last()) == 0)
}


// ---------------------------------------------------------------------
// Laws
// ---------------------------------------------------------------------

proof fn lemma_frames_in_push(files: Seq<FileModel>, f: FileModel, key: FileKey)
    ensures
        frames_in(files.push(f), key) == if f.key == key {
            frames_in(files, key) + f.content
        } else {
            frames_in(files, key)
        },
{
    assert(files.push(f).drop_last() =~= files);
}

proof fn lemma_frames_in_none(files: Seq<FileModel>, key: FileKey)
    requires
        forall|k: int| 0 <= k < files.len() ==> (#[trigger] files[k]).key != key,
    ensures
        frames_in(files, key) == Seq::<Seq<u8>>::empty(),
    decreases files.len(),
{
    if files.len() > 0 {
        assert(files[files.len() - 1].key != key);
        assert forall|k: int| 0 <= k < files.drop_last().len() implies (
        #[trigger] files.drop_last()[k]).key != key by {
            assert(files.drop_last()[k] == files[k]);
        }
        lemma_frames_in_none(files.drop_last(), key);
    }
}

/// With one file at most for each key, the frames for a key are those in its file.
proof fn lemma_frames_in_one(files: Seq<FileModel>, i: int)
    requires
        apart(files),
        0 <= i < files.len(),
    ensures
        frames_in(files, files[i].key) == files[i].content,
    decreases files.len(),
{
    let key = files[i].key;
    assert forall|a: int, b: int| 0 <= a < b < files.drop_last().len() implies (
    #[trigger] files.drop_last()[a]).key != (#[trigger] files.drop_last()[b]).key by {
        assert(files.drop_last()[a] == files[a] && files.drop_last()[b] == files[b]);
    }
    if i == files.len() - 1 {
        assert forall|k: int| 0 <= k < files.drop_last().len() implies (
        #[trigger] files.drop_last()[k]).key != key by {
            assert(files.drop_last()[k] == files[k]);
        }
        lemma_frames_in_none(files.drop_last(), key);
        assert(frames_in(files, key) =~= files[i].content);
    } else {
        assert(files.drop_last()[i] == files[i]);
        assert(files[i].key != files[files.len() - 1].key);
        lemma_frames_in_one(files.drop_last(), i);
    }
}

proof fn lemma_frames_in_same(a: Seq<FileModel>, b: Seq<FileModel>, key: FileKey)
    requires
        apart(a),
        apart(b),
        forall|k: int|
            0 <= k < a.len() && (#[trigger] a[k]).key == key ==> exists|m: int|
                0 <= m < b.len() && (#[trigger] b[m]).key == key && b[m].content == a[k].content,
        forall|m: int|
            0 <= m < b.len() && (#[trigger] b[m]).key == key ==> exists|k: int|
                0 <= k < a.len() && (#[trigger] a[k]).key == key && b[m].content == a[k].content,
    ensures
        frames_in(a, key) == frames_in(b, key),
{
    if exists|k: int| 0 <= k < a.len() && (#[trigger] a[k]).key == key {
        let k = choose|k: int| 0 <= k < a.len() && (#[trigger] a[k]).key == key;
        let m = choose|m: int|
            0 <= m < b.len() && (#[trigger] b[m]).key == key && b[m].content == a[k].content;
        lemma_frames_in_one(a, k);
        lemma_frames_in_one(b, m);
    } else {
        lemma_frames_in_none(a, key);
        if exists|m: int| 0 <= m < b.len() && (#[trigger] b[m]).key == key {
            let m = choose|m: int| 0 <= m < b.len() && (#[trigger] b[m]).key == key;
            let k = choose|k: int|
                0 <= k < a.len() && (#[trigger] a[k]).key == key && b[m].content == a[k].content;
            assert(a[k].key == key);
        }
        lemma_frames_in_none(b, key);
    }
}

/// Nothing that is done to the disk loses, repeats, splits or reorders a frame: for every key,
/// the frames in closed files, in the open file and still to be written, read in this order, stay
/// the same.
pub proof fn law_steps_keep_every_frame(s: WriterState, key: FileKey)
    requires
        apart(s.open),
        s.queue.len() > 0,
    ensures
        s.after_done().ledger(key) == s.ledger(key),
        apart(s.after_done().open),
{
    let t = s.after_done();
    lemma_index_for(s.open, s.front_key());
    let i = s.at();
    if s.action() is Write {
        let f = s.open[i];
        let g = FileModel { content: f.content.push(s.queue.first()), ..f };
        assert(t.open == s.open.update(i, g));
        assert(t.queue == s.queue.drop_first());
        assert(apart(t.open)) by {
            assert forall|a: int, b: int| 0 <= a < b < t.open.len() implies (#[trigger] t.open[a]).key
                != (#[trigger] t.open[b]).key by {
                assert(t.open[a].key == s.open[a].key && t.open[b].key == s.open[b].key);
            }
        }
        if key == s.front_key() {
            lemma_frames_in_one(s.open, i);
            lemma_frames_in_one(t.open, i);
            assert(t.open[i].key == key);
            assert(s.ledger(key) =~= t.ledger(key));
        } else {
            assert forall|k: int| 0 <= k < s.open.len() && (#[trigger] s.open[k]).key
                == key implies exists|m: int|
                0 <= m < t.open.len() && (#[trigger] t.open[m]).key == key && t.open[m].content
                    == s.open[k].content by {
                assert(t.open[k] == s.open[k]);
            }
            assert forall|m: int| 0 <= m < t.open.len() && (#[trigger] t.open[m]).key
                == key implies exists|k: int|
                0 <= k < s.open.len() && (#[trigger] s.open[k]).key == key && t.open[m].content
                    == s.open[k].content by {
                assert(t.open[m] == s.open[m]);
            }
            lemma_frames_in_same(s.open, t.open, key);
        }
    } else if s.action() is Sync {
        let f = s.open[i];
        assert(apart(t.open)) by {
            assert forall|a: int, b: int| 0 <= a < b < t.open.len() implies (#[trigger] t.open[a]).key
                != (#[trigger] t.open[b]).key by {
                let a2 = if a < i {
                    a
                } else {
                    a + 1
                };
                let b2 = if b < i {
                    b
                } else {
                    b + 1
                };
                assert(t.open[a] == s.open[a2] && t.open[b] == s.open[b2]);
            }
        }
        lemma_frames_in_push(s.closed, f, key);
        if key == f.key {
            lemma_frames_in_one(s.open, i);
            assert forall|k: int| 0 <= k < t.open.len() implies (#[trigger] t.open[k]).key
                != key by {
                let k2 = if k < i {
                    k
                } else {
                    k + 1
                };
                assert(t.open[k] == s.open[k2]);
            }
            lemma_frames_in_none(t.open, key);
            assert(s.ledger(key) =~= t.ledger(key));
        } else {
            assert forall|k: int| 0 <= k < s.open.len() && (#[trigger] s.open[k]).key
                == key implies exists|m: int|
                0 <= m < t.open.len() && (#[trigger] t.open[m]).key == key && t.open[m].content
                    == s.open[k].content by {
                let m = if k < i {
                    k
                } else {
                    k - 1
                };
                assert(t.open[m] == s.open[k]);
            }
            assert forall|m: int| 0 <= m < t.open.len() && (#[trigger] t.open[m]).key
                == key implies exists|k: int|
                0 <= k < s.open.len() && (#[trigger] s.open[k]).key == key && t.open[m].content
                    == s.open[k].content by {
                let k = if m < i {
                    m
                } else {
                    m + 1
                };
                assert(t.open[m] == s.open[k]);
            }
            lemma_frames_in_same(s.open, t.open, key);
        }
    } else if s.action() is Create {
        let f = FileModel {
            key: s.front_key(),
            ts: (s.fresh->0).0,
            idx: (s.fresh->0).1,
            content: Seq::empty(),
        };
        assert(t.open == s.open.push(f));
        assert(i == s.open.len());
        lemma_frames_in_push(s.open, f, key);
        assert(t.ledger(key) =~= s.ledger(key));
    }
}

/// A batch adds its frames, each to the end of what there is for its key.
pub proof fn law_a_batch_adds_its_frames(
    s: WriterState,
    source: u32,
    run: u32,
    seq: u64,
    frames: Seq<Seq<u8>>,
    key: FileKey,
)
    requires
        s.queue.len() == 0,
    ensures
        s.after_batch(source, run, seq, frames).ledger(key) == s.ledger(key) + frames_for(
            source,
            frames,
            key,
        ),
{
    assert(s.after_batch(source, run, seq, frames).ledger(key) =~= s.ledger(key) + frames_for(
        source,
        frames,
        key,
    ));
}

/// What happens to a writer in a run in which all that is done to the disk succeeds.
pub enum WriterEvent {
    /// A batch has come, of this run or of another.
    Batch { source: u32, run: u32, seq: u64, frames: Seq<Seq<u8>> },
    /// It is known what time it is.
    Stamp(Seq<char>),
    /// What was to be done to the disk is done.
    Done,
    /// All open files were brought to the disk.
    Flush,
    /// The first open file was closed.
    Close,
}

impl WriterState {
    /// The run once `event` has happened.
    pub open spec fn after(self, event: WriterEvent) -> WriterState {
        match event {
            WriterEvent::Batch { source, run, seq, frames } => self.after_batch(
                source,
                run,
                seq,
                frames,
            ),
            WriterEvent::Stamp(ts) => self.after_stamp(ts),
            WriterEvent::Done => self.after_done(),
            WriterEvent::Flush => self.after_flush(true),
            WriterEvent::Close => self.after_close(true),
        }
    }

    /// Whether `event` is one that can happen now.
    pub open spec fn meets(self, event: WriterEvent) -> bool {
        match event {
            WriterEvent::Batch { source, seq, .. } => self.queue.len() == 0 && self.room_for_batch(
                source,
                seq,
            ),
            WriterEvent::Stamp(_) => self.action() is Stamp,
            WriterEvent::Done => self.queue.len() > 0 && self.room_for_step(),
            WriterEvent::Flush => true,
            WriterEvent::Close => self.queue.len() == 0 && self.open.len() > 0,
        }
    }

    /// The run once all events have happened.
    pub open spec fn after_all(self, events: Seq<WriterEvent>) -> WriterState
        decreases events.len(),
    {
        if events.len() == 0 {
            self
        } else {
            self.after_all(events.drop_last()).after(events.last())
        }
    }

    /// Whether the events can happen one after the other.
    pub open spec fn meets_all(self, events: Seq<WriterEvent>) -> bool
        decreases events.len(),
    {
        events.len() > 0 ==> self.meets_all(events.drop_last()) && self.after_all(
            events.drop_last(),
        ).meets(events.last())
    }

    /// The frames for `key` that are in files, in their order.
    pub open spec fn on_disk(self, key: FileKey) -> Seq<Seq<u8>> {
        frames_in(self.closed, key) + frames_in(self.open, key)
    }
}

/// The frames for `key` in the batches that have come, in their order.
pub open spec fn sent(events: Seq<WriterEvent>, key: FileKey) -> Seq<Seq<u8>>
    decreases events.len(),
{
    if events.len() == 0 {
        Seq::empty()
    } else {
        sent(events.drop_last(), key) + match events.last() {
            WriterEvent::Batch { source, frames, .. } => frames_for(source, frames, key),
            _ => Seq::empty(),
        }
    }
}

proof fn lemma_closing_keeps_every_frame(s: WriterState, key: FileKey)
    requires
        apart(s.open),
        s.open.len() > 0,
    ensures
        s.after_close(true).on_disk(key) == s.on_disk(key),
        apart(s.after_close(true).open),
{
    let t = s.after_close(true);
    let f = s.open.first();
    assert(apart(t.open)) by {
        assert forall|a: int, b: int| 0 <= a < b < t.open.len() implies (#[trigger] t.open[a]).key
            != (#[trigger] t.open[b]).key by {
            assert(t.open[a] == s.open[a + 1] && t.open[b] == s.open[b + 1]);
        }
    }
    lemma_frames_in_push(s.closed, f, key);
    if key == f.key {
        lemma_frames_in_one(s.open, 0);
        assert forall|k: int| 0 <= k < t.open.len() implies (#[trigger] t.open[k]).key != key by {
            assert(t.open[k] == s.open[k + 1]);
        }
        lemma_frames_in_none(t.open, key);
        assert(s.on_disk(key) =~= t.on_disk(key));
    } else {
        assert forall|k: int| 0 <= k < s.open.len() && (#[trigger] s.open[k]).key
            == key implies exists|m: int|
            0 <= m < t.open.len() && (#[trigger] t.open[m]).key == key && t.open[m].content
                == s.open[k].content by {
            assert(t.open[k - 1] == s.open[k]);
        }
        assert forall|m: int| 0 <= m < t.open.len() && (#[trigger] t.open[m]).key
            == key implies exists|k: int|
            0 <= k < s.open.len() && (#[trigger] s.open[k]).key == key && t.open[m].content
                == s.open[k].content by {
            assert(t.open[m] == s.open[m + 1]);
        }
        lemma_frames_in_same(s.open, t.open, key);
    }
}

/// The files are a lossless split of what was sent: at every moment of a run in which all that is
/// done to the disk succeeds, the frames in the files of a key, followed by those that wait to be
/// written, are exactly those that were sent for the key, in the order in which they were sent.
/// Between two batches none wait.
pub proof fn law_the_files_are_a_lossless_split(
    root: Seq<char>,
    run: u32,
    max: u64,
    events: Seq<WriterEvent>,
    key: FileKey,
)
    requires
        WriterState::fresh_run(root, run, max).meets_all(events),
    ensures
        ({
            let s = WriterState::fresh_run(root, run, max).after_all(events);
            &&& s.ledger(key) == sent(events, key)
            &&& s.queue.len() == 0 ==> s.on_disk(key) == sent(events, key)
            &&& apart(s.open)
        }),
    decreases events.len(),
{
    let fresh = WriterState::fresh_run(root, run, max);
    let s = fresh.after_all(events);
    if events.len() == 0 {
        assert(s.ledger(key) =~= Seq::<Seq<u8>>::empty());
    } else {
        let before = events.drop_last();
        let t = fresh.after_all(before);
        law_the_files_are_a_lossless_split(root, run, max, before, key);
        match events.last() {
            WriterEvent::Batch { source, run, seq, frames } => {
                law_a_batch_adds_its_frames(t, source, run, seq, frames, key);
            },
            WriterEvent::Done => {
                law_steps_keep_every_frame(t, key);
                assert(sent(events, key) =~= sent(before, key));
            },
            WriterEvent::Close => {
                lemma_closing_keeps_every_frame(t, key);
                assert(s.ledger(key) =~= t.ledger(key));
                assert(sent(events, key) =~= sent(before, key));
            },
            _ => {
                assert(sent(events, key) =~= sent(before, key));
            },
        }
    }
    if s.queue.len() == 0 {
        assert(frames_for(s.source, s.queue, key) =~= Seq::<Seq<u8>>::empty());
        assert(s.on_disk(key) =~= s.ledger(key));
    }
}

proof fn lemma_total_add(a: Seq<Seq<u8>>, b: Seq<Seq<u8>>)
    ensures
        total(a + b) == total(a) + total(b),
    decreases b.len(),
{
    if b.len() == 0 {
        assert(a + b =~= a);
    } else {
        assert((a + b).drop_last() =~= a + b.drop_last());
        lemma_total_add(a, b.drop_last());
    }
}

proof fn lemma_a_step_counts_what_it_writes(s: WriterState, cobo: u32, asad: u8)
    requires
        apart(s.open),
        s.queue.len() > 0,
        s.room_for_step(),
    ensures
        ({
            let key = FileKey::Asad(cobo, asad);
            let board = board_number(cobo, asad);
            let t = s.after_done();
            let new = t.on_disk(key).len() - s.on_disk(key).len();
            &&& tally::count_in(t.asad_frames, board) - tally::count_in(s.asad_frames, board) == new
            &&& tally::count_in(t.asad_bytes, board) - tally::count_in(s.asad_bytes, board)
                == total(t.on_disk(key)) - total(s.on_disk(key))
        }),
{
    let key = FileKey::Asad(cobo, asad);
    let t = s.after_done();
    law_steps_keep_every_frame(s, key);
    if s.action() is Write {
        let rest = frames_for(s.source, s.queue.drop_first(), key);
        assert(t.queue == s.queue.drop_first());
        if s.front_key() == key {
            let one = seq![s.queue.first()];
            assert(frames_for(s.source, s.queue, key) == one + rest);
            assert(s.on_disk(key) + one + rest =~= t.on_disk(key) + rest);
            assert(t.on_disk(key) =~= (t.on_disk(key) + rest).take(
                (t.on_disk(key) + rest).len() - rest.len(),
            ));
            assert(s.on_disk(key) + one =~= (s.on_disk(key) + one + rest).take(
                (s.on_disk(key) + one + rest).len() - rest.len(),
            ));
            assert(t.on_disk(key) == s.on_disk(key) + one);
            lemma_total_add(s.on_disk(key), one);
            assert(one.drop_last() =~= Seq::<Seq<u8>>::empty());
            assert(total(one.drop_last()) == 0);
            assert(one.last() == s.queue.first());
            assert(total(one) == s.queue.first().len());
        } else {
            assert(s.ledger(key) =~= s.on_disk(key) + rest);
            assert(t.ledger(key) =~= t.on_disk(key) + rest);
            assert(t.on_disk(key) =~= t.ledger(key).take(t.ledger(key).len() - rest.len()));
            assert(s.on_disk(key) =~= s.ledger(key).take(s.ledger(key).len() - rest.len()));
            match s.front_key() {
                FileKey::Asad(c, a) => {
                    assert(c != cobo || a != asad);
                    assert(board_number(c, a) != board_number(cobo, asad));
                },
                _ => {},
            }
        }
    } else {
        let rest = frames_for(s.source, s.queue, key);
        assert(t.queue == s.queue && t.source == s.source);
        assert(t.on_disk(key) =~= t.ledger(key).take(t.ledger(key).len() - rest.len()));
        assert(s.on_disk(key) =~= s.ledger(key).take(s.ledger(key).len() - rest.len()));
    }
}

/// The totals that are reported for an AsAd board are those of its files: at every moment of a run
/// in which all that is done to the disk succeeds, the frames and the bytes counted for a board
/// are those in its files.
pub proof fn law_the_totals_are_those_of_the_files(
    root: Seq<char>,
    run: u32,
    max: u64,
    events: Seq<WriterEvent>,
    cobo: u32,
    asad: u8,
)
    requires
        WriterState::fresh_run(root, run, max).meets_all(events),
    ensures
        ({
            let s = WriterState::fresh_run(root, run, max).after_all(events);
            let files = s.on_disk(FileKey::Asad(cobo, asad));
            &&& tally::count_in(s.asad_frames, board_number(cobo, asad)) == files.len()
            &&& tally::count_in(s.asad_bytes, board_number(cobo, asad)) == total(files)
        }),
    decreases events.len(),
{
    let key = FileKey::Asad(cobo, asad);
    let fresh = WriterState::fresh_run(root, run, max);
    let s = fresh.after_all(events);
    if events.len() == 0 {
        assert(s.on_disk(key) =~= Seq::<Seq<u8>>::empty());
    } else {
        let before = events.drop_last();
        let t = fresh.after_all(before);
        law_the_totals_are_those_of_the_files(root, run, max, before, cobo, asad);
        law_the_files_are_a_lossless_split(root, run, max, before, key);
        match events.last() {
            WriterEvent::Done => {
                lemma_a_step_counts_what_it_writes(t, cobo, asad);
            },
            WriterEvent::Close => {
                lemma_closing_keeps_every_frame(t, key);
            },
            _ => {},
        }
    }
}

/// The files for `key` among `files`, in order.
pub open spec fn files_of(files: Seq<FileModel>, key: FileKey) -> Seq<FileModel>
    decreases files.len(),
{
    if files.len() == 0 {
        Seq::empty()
    } else if files.last().key == key {
        files_of(files.drop_last(), key).push(files.last())
    } else {
        files_of(files.drop_last(), key)
    }
}

/// Whether the files are numbered from 0 without a gap and all have the same time.
pub open spec fn is_series(files: Seq<FileModel>) -> bool {
    forall|i: int|
        0 <= i < files.len() ==> (#[trigger] files[i]).idx == i && files[i].ts == files.first().ts
}

/// Whether no batch comes once the closing of the files has begun.
pub open spec fn closes_last(events: Seq<WriterEvent>) -> bool {
    forall|i: int, j: int|
        0 <= i < j < events.len() && #[trigger] events[i] is Close ==> !(
        #[trigger] events[j] is Batch)
}

spec fn has_close(events: Seq<WriterEvent>) -> bool {
    exists|i: int| 0 <= i < events.len() && #[trigger] events[i] is Close
}

impl WriterState {
    /// The files for `key`: the closed ones in the order in which they were closed, and behind
    /// them the open one.
    pub open spec fn files_for(self, key: FileKey) -> Seq<FileModel> {
        files_of(self.closed, key) + files_of(self.open, key)
    }

    spec fn is_timed(self, key: FileKey) -> bool {
        let files = self.files_for(key);
        &&& is_series(files)
        &&& self.fresh is Some ==> self.queue.len() > 0 && self.at() == self.open.len()
        &&& self.fresh is Some && self.front_key() == key ==> (self.fresh->0).1 == files.len() && (
        files.len() > 0 ==> (self.fresh->0).0 == files.first().ts)
    }

    spec fn is_continued(self, key: FileKey) -> bool {
        files_of(self.open, key).len() == 0 && self.files_for(key).len() > 0 ==> self.fresh is Some
            && self.front_key() == key
    }
}

proof fn lemma_files_of_none(files: Seq<FileModel>, key: FileKey)
    requires
        forall|k: int| 0 <= k < files.len() ==> (#[trigger] files[k]).key != key,
    ensures
        files_of(files, key) == Seq::<FileModel>::empty(),
    decreases files.len(),
{
    if files.len() > 0 {
        assert(files[files.len() - 1].key != key);
        assert forall|k: int| 0 <= k < files.drop_last().len() implies (
        #[trigger] files.drop_last()[k]).key != key by {
            assert(files.drop_last()[k] == files[k]);
        }
        lemma_files_of_none(files.drop_last(), key);
    }
}

proof fn lemma_files_of_one(files: Seq<FileModel>, i: int)
    requires
        apart(files),
        0 <= i < files.len(),
    ensures
        files_of(files, files[i].key) == seq![files[i]],
    decreases files.len(),
{
    let key = files[i].key;
    let rest = files.drop_last();
    assert forall|a: int, b: int| 0 <= a < b < rest.len() implies (#[trigger] rest[a]).key != (
    #[trigger] rest[b]).key by {
        assert(rest[a] == files[a] && rest[b] == files[b]);
    }
    if i == files.len() - 1 {
        assert forall|k: int| 0 <= k < rest.len() implies (#[trigger] rest[k]).key != key by {
            assert(rest[k] == files[k]);
        }
        lemma_files_of_none(rest, key);
        assert(files_of(files, key) =~= seq![files[i]]);
    } else {
        assert(rest[i] == files[i]);
        assert(files[i].key != files[files.len() - 1].key);
        lemma_files_of_one(rest, i);
    }
}

/// With one file at most for each key, a file is found by its key.
proof fn lemma_files_of_open(files: Seq<FileModel>, key: FileKey)
    requires
        apart(files),
    ensures
        files_of(files, key) == if index_for(files, key) < files.len() {
            seq![files[index_for(files, key)]]
        } else {
            Seq::empty()
        },
{
    lemma_index_for(files, key);
    if index_for(files, key) < files.len() {
        lemma_files_of_one(files, index_for(files, key));
    } else {
        lemma_files_of_none(files, key);
    }
}

/// Where two lists have the same file for a key, or both have none, they are alike for the key.
proof fn lemma_files_of_same(a: Seq<FileModel>, b: Seq<FileModel>, key: FileKey)
    requires
        apart(a),
        apart(b),
        forall|k: int| 0 <= k < a.len() && (#[trigger] a[k]).key == key ==> b.contains(a[k]),
        forall|k: int| 0 <= k < b.len() && (#[trigger] b[k]).key == key ==> a.contains(b[k]),
    ensures
        files_of(a, key) == files_of(b, key),
{
    if exists|k: int| 0 <= k < a.len() && (#[trigger] a[k]).key == key {
        let k = choose|k: int| 0 <= k < a.len() && (#[trigger] a[k]).key == key;
        let m = choose|m: int| 0 <= m < b.len() && b[m] == a[k];
        lemma_files_of_one(a, k);
        lemma_files_of_one(b, m);
    } else {
        lemma_files_of_none(a, key);
        assert forall|m: int| 0 <= m < b.len() implies (#[trigger] b[m]).key != key by {
            if b[m].key == key {
                let k = choose|k: int| 0 <= k < a.len() && a[k] == b[m];
                assert(a[k].key == key);
            }
        }
        lemma_files_of_none(b, key);
    }
}

proof fn lemma_files_of_push(files: Seq<FileModel>, f: FileModel, key: FileKey)
    ensures
        files_of(files.push(f), key) == if f.key == key {
            files_of(files, key).push(f)
        } else {
            files_of(files, key)
        },
{
    assert(files.push(f).drop_last() =~= files);
}

proof fn lemma_writing_keeps_the_time(s: WriterState, key: FileKey)
    requires
        apart(s.open),
        s.action() is Write,
        s.is_timed(key),
        s.is_continued(key),
    ensures
        s.after_done().is_timed(key),
        s.after_done().is_continued(key),
{
    let t = s.after_done();
    let i = s.at();
    lemma_index_for(s.open, s.front_key());
    law_steps_keep_every_frame(s, key);
    let g = FileModel { content: s.open[i].content.push(s.queue.first()), ..s.open[i] };
    assert(t.open == s.open.update(i, g));
    assert(t.fresh is None);
    if key == s.front_key() {
        lemma_files_of_one(s.open, i);
        lemma_files_of_one(t.open, i);
        let a = s.files_for(key);
        let b = t.files_for(key);
        assert forall|k: int| 0 <= k < b.len() implies (#[trigger] b[k]).idx == k && b[k].ts
            == b.first().ts by {
            assert(a[k].idx == k && a[k].ts == a.first().ts);
            assert(b[k].idx == a[k].idx && b[k].ts == a[k].ts);
            assert(b[0].ts == a[0].ts);
        }
    } else {
        assert forall|k: int| 0 <= k < s.open.len() && (#[trigger] s.open[k]).key
            == key implies t.open.contains(s.open[k]) by {
            assert(t.open[k] == s.open[k]);
        }
        assert forall|k: int| 0 <= k < t.open.len() && (#[trigger] t.open[k]).key
            == key implies s.open.contains(t.open[k]) by {
            assert(t.open[k] == s.open[k]);
        }
        lemma_files_of_same(s.open, t.open, key);
        assert(t.files_for(key) == s.files_for(key));
    }
}

proof fn lemma_rotating_keeps_the_time(s: WriterState, key: FileKey)
    requires
        apart(s.open),
        s.action() is Sync,
        s.is_timed(key),
        s.is_continued(key),
    ensures
        s.after_done().is_timed(key),
        s.after_done().is_continued(key),
{
    let t = s.after_done();
    let i = s.at();
    let f = s.open[i];
    lemma_index_for(s.open, s.front_key());
    law_steps_keep_every_frame(s, key);
    lemma_files_of_push(s.closed, f, key);
    lemma_index_for(t.open, s.front_key());
    let j = t.at();
    if j < t.open.len() {
        assert(t.open[j] == s.open[if j < i {
            j
        } else {
            j + 1
        }]);
    }
    if key == f.key {
        lemma_files_of_one(s.open, i);
        lemma_files_of_open(t.open, key);
        assert(t.files_for(key) =~= s.files_for(key));
        let n = s.files_for(key).len() - 1;
        assert(s.files_for(key)[n] == f);
    } else {
        assert forall|k: int| 0 <= k < s.open.len() && (#[trigger] s.open[k]).key
            == key implies t.open.contains(s.open[k]) by {
            assert(t.open[if k < i {
                k
            } else {
                k - 1
            }] == s.open[k]);
        }
        assert forall|k: int| 0 <= k < t.open.len() && (#[trigger] t.open[k]).key
            == key implies s.open.contains(t.open[k]) by {
            assert(t.open[k] == s.open[if k < i {
                k
            } else {
                k + 1
            }]);
        }
        lemma_files_of_same(s.open, t.open, key);
    }
}

proof fn lemma_creating_keeps_the_time(s: WriterState, key: FileKey)
    requires
        apart(s.open),
        s.action() is Create,
        s.is_timed(key),
        s.is_continued(key),
    ensures
        s.after_done().is_timed(key),
        s.after_done().is_continued(key),
{
    let t = s.after_done();
    let f = FileModel {
        key: s.front_key(),
        ts: (s.fresh->0).0,
        idx: (s.fresh->0).1,
        content: Seq::empty(),
    };
    assert(t.open == s.open.push(f));
    lemma_files_of_push(s.open, f, key);
    if key == f.key {
        let a = s.files_for(key);
        let b = t.files_for(key);
        assert(b =~= a.push(f));
        assert forall|k: int| 0 <= k < b.len() implies (#[trigger] b[k]).idx == k && b[k].ts
            == b.first().ts by {
            if k < a.len() {
                assert(a[k].idx == k && a[k].ts == a.first().ts);
            }
        }
    }
}

proof fn lemma_the_time_is_kept(
    root: Seq<char>,
    run: u32,
    max: u64,
    events: Seq<WriterEvent>,
    key: FileKey,
)
    requires
        WriterState::fresh_run(root, run, max).meets_all(events),
        closes_last(events),
    ensures
        ({
            let s = WriterState::fresh_run(root, run, max).after_all(events);
            &&& s.is_timed(key)
            &&& has_close(events) ==> s.queue.len() == 0
            &&& !has_close(events) ==> s.is_continued(key)
        }),
    decreases events.len(),
{
    if events.len() > 0 {
        let before = events.drop_last();
        let last = events.last();
        let s = WriterState::fresh_run(root, run, max).after_all(before);
        let t = s.after(last);
        assert forall|i: int, j: int| 0 <= i < j < before.len() && #[trigger] before[i] is Close implies !(
        #[trigger] before[j] is Batch) by {
            assert(events[i] == before[i] && events[j] == before[j]);
        }
        lemma_the_time_is_kept(root, run, max, before, key);
        law_the_files_are_a_lossless_split(root, run, max, before, key);
        if has_close(before) {
            let i = choose|i: int| 0 <= i < before.len() && #[trigger] before[i] is Close;
            assert(events[i] is Close);
            assert(events[events.len() - 1] == last);
            assert(!(last is Batch));
        }
        if last is Close {
            assert(events[events.len() - 1] is Close);
        }
        if !(last is Close) && has_close(events) {
            let i = choose|i: int| 0 <= i < events.len() && #[trigger] events[i] is Close;
            assert(before[i] == events[i]);
        }
        match last {
            WriterEvent::Done => {
                if s.action() is Write {
                    lemma_writing_keeps_the_time(s, key);
                } else if s.action() is Sync {
                    lemma_rotating_keeps_the_time(s, key);
                } else if s.action() is Create {
                    lemma_creating_keeps_the_time(s, key);
                }
            },
            WriterEvent::Stamp(_) => {
                lemma_index_for(s.open, s.front_key());
                lemma_files_of_open(s.open, key);
            },
            WriterEvent::Close => {
                lemma_closing_keeps_every_frame(s, key);
                let f = s.open.first();
                lemma_files_of_push(s.closed, f, key);
                if key == f.key {
                    lemma_files_of_one(s.open, 0);
                    assert forall|k: int| 0 <= k < t.open.len() implies (#[trigger] t.open[k]).key
                        != key by {
                        assert(t.open[k] == s.open[k + 1]);
                    }
                    lemma_files_of_none(t.open, key);
                } else {
                    assert forall|k: int| 0 <= k < s.open.len() && (#[trigger] s.open[k]).key
                        == key implies t.open.contains(s.open[k]) by {
                        assert(t.open[k - 1] == s.open[k]);
                    }
                    assert forall|k: int| 0 <= k < t.open.len() && (#[trigger] t.open[k]).key
                        == key implies s.open.contains(t.open[k]) by {
                        assert(t.open[k] == s.open[k + 1]);
                    }
                    lemma_files_of_same(s.open, t.open, key);
                }
                assert(t.files_for(key) =~= s.files_for(key));
            },
            _ => {},
        }
    }
}

proof fn lemma_frames_in_files_of(files: Seq<FileModel>, key: FileKey)
    ensures
        frames_in(files_of(files, key), key) == frames_in(files, key),
    decreases files.len(),
{
    if files.len() > 0 {
        lemma_frames_in_files_of(files.drop_last(), key);
        if files.last().key == key {
            lemma_frames_in_push(files_of(files.drop_last(), key), files.last(), key);
        }
    }
}

proof fn lemma_frames_in_add(a: Seq<FileModel>, b: Seq<FileModel>, key: FileKey)
    ensures
        frames_in(a + b, key) == frames_in(a, key) + frames_in(b, key),
    decreases b.len(),
{
    if b.len() == 0 {
        assert(a + b =~= a);
        assert(frames_in(a, key) + frames_in(b, key) =~= frames_in(a, key));
    } else {
        assert((a + b).drop_last() =~= a + b.drop_last());
        lemma_frames_in_add(a, b.drop_last(), key);
        assert(frames_in(a + b, key) =~= frames_in(a, key) + frames_in(b, key));
    }
}

/// At every moment of a run in which all that is done to the disk succeeds, the files of a key are
/// numbered from 0 without a gap and carry one time, and what they hold, taken by these numbers, is
/// what is on the disk for the key. The files are closed at the end of a run: a batch that came
/// after that would begin another series.
pub proof fn law_files_of_a_key_share_one_time(
    root: Seq<char>,
    run: u32,
    max: u64,
    events: Seq<WriterEvent>,
    key: FileKey,
)
    requires
        WriterState::fresh_run(root, run, max).meets_all(events),
        closes_last(events),
    ensures
        ({
            let s = WriterState::fresh_run(root, run, max).after_all(events);
            &&& is_series(s.files_for(key))
            &&& frames_in(s.files_for(key), key) == s.on_disk(key)
        }),
{
    let s = WriterState::fresh_run(root, run, max).after_all(events);
    lemma_the_time_is_kept(root, run, max, events, key);
    lemma_frames_in_add(files_of(s.closed, key), files_of(s.open, key), key);
    lemma_frames_in_files_of(s.closed, key);
    lemma_frames_in_files_of(s.open, key);
}

/// A full file is followed by one with the same time and the next number, and what is closed
/// stays as it is.
pub proof fn law_rotation_keeps_the_time(s: WriterState)
    requires
        s.action() is Sync,
        apart(s.open),
    ensures
        ({
            let full = s.open[s.at()];
            let next = s.after_done();
            &&& next.action() == ActionView::Create(
                s.front_key(),
                file_path(s.root, s.run, s.front_key(), full.ts, full.idx + 1),
            ) || next.action() == ActionView::MakeDir(ctrl_dir(s.root, s.run))
            &&& next.closed == s.closed.push(full)
            &&& next.created().open.last() == (FileModel {
                key: s.front_key(),
                ts: full.ts,
                idx: full.idx + 1,
                content: Seq::empty(),
            })
        }),
{
    let i = s.at();
    let next = s.after_done();
    lemma_index_for(s.open, s.front_key());
    lemma_index_for(next.open, s.front_key());
    let j = index_for(next.open, s.front_key());
    if j < next.open.len() {
        let j2 = if j < i {
            j
        } else {
            j + 1
        };
        assert(next.open[j] == s.open[j2]);
    }
}

proof fn lemma_steps_stay_within_the_limit(s: WriterState)
    requires
        s.limited(),
        s.queue.len() > 0,
    ensures
        s.after_done().limited(),
        s.after_done().max == s.max,
{
    let t = s.after_done();
    lemma_index_for(s.open, s.front_key());
    let i = s.at();
    if s.action() is Write {
        let f = s.open[i];
        let content = f.content.push(s.queue.first());
        assert(content.drop_last() =~= f.content);
        assert forall|k: int| 0 <= k < t.open.len() implies within(
            (#[trigger] t.open[k]).content,
            t.max,
        ) by {
            if k == i {
                assert(t.open[k].content == content);
            } else {
                assert(t.open[k] == s.open[k]);
            }
        }
        assert(t.closed == s.closed);
    } else if s.action() is Sync {
        assert forall|k: int| 0 <= k < t.open.len() implies within(
            (#[trigger] t.open[k]).content,
            t.max,
        ) by {
            let k2 = if k < i {
                k
            } else {
                k + 1
            };
            assert(t.open[k] == s.open[k2]);
        }
        assert forall|k: int| 0 <= k < t.closed.len() implies within(
            (#[trigger] t.closed[k]).content,
            t.max,
        ) by {
            if k < s.closed.len() {
                assert(t.closed[k] == s.closed[k]);
            } else {
                assert(t.closed[k] == s.open[i]);
            }
        }
    } else if s.action() is Create {
        assert forall|k: int| 0 <= k < t.open.len() implies within(
            (#[trigger] t.open[k]).content,
            t.max,
        ) by {
            if k < s.open.len() {
                assert(t.open[k] == s.open[k]);
            }
        }
    }
}

/// No file of a run in which all that is done to the disk succeeds gets longer than the limit, but
/// for what one frame makes of an empty file.
pub proof fn law_files_stay_within_the_limit(
    root: Seq<char>,
    run: u32,
    max: u64,
    events: Seq<WriterEvent>,
)
    requires
        WriterState::fresh_run(root, run, max).meets_all(events),
    ensures
        WriterState::fresh_run(root, run, max).after_all(events).limited(),
        WriterState::fresh_run(root, run, max).after_all(events).max == max,
    decreases events.len(),
{
    if events.len() > 0 {
        let before = events.drop_last();
        law_files_stay_within_the_limit(root, run, max, before);
        let s = WriterState::fresh_run(root, run, max).after_all(before);
        let t = s.after(events.last());
        match events.last() {
            WriterEvent::Done => {
                lemma_steps_stay_within_the_limit(s);
            },
            WriterEvent::Close => {
                assert forall|i: int| 0 <= i < t.open.len() implies within(
                    (#[trigger] t.open[i]).content,
                    t.max,
                ) by {
                    assert(t.open[i] == s.open[i + 1]);
                }
                assert forall|i: int| 0 <= i < t.closed.len() implies within(
                    (#[trigger] t.closed[i]).content,
                    t.max,
                ) by {
                    if i < s.closed.len() {
                        assert(t.closed[i] == s.closed[i]);
                    } else {
                        assert(t.closed[i] == s.open[0]);
                    }
                }
            },
            _ => {},
        }
    }
}

/// A fault is never forgotten.
pub proof fn law_faults_are_kept(
    s: WriterState,
    source: u32,
    run: u32,
    seq: u64,
    frames: Seq<Seq<u8>>,
    ok: bool,
)
    requires
        s.errored,
    ensures
        s.after_batch(source, run, seq, frames).errored,
        s.after_done().errored,
        s.after_failure().errored,
        s.after_flush(ok).errored,
        s.after_close(ok).errored,
{
}

/// Without a gap and with all that is done to the disk succeeding, no frame of the run is a
/// fault, whatever it holds.
pub proof fn law_no_frame_is_a_fault(
    s: WriterState,
    source: u32,
    frames: Seq<Seq<u8>>,
    ts: Seq<char>,
)
    requires
        !s.errored,
    ensures
        !s.after_batch(
            source,
            s.run,
            tally::count_in(s.next_seq, source as u64),
            frames,
        ).errored,
        !s.after_done().errored,
        !s.after_stamp(ts).errored,
        !s.after_flush(true).errored,
{
}

/// A batch of another run is counted, and is a fault, but costs no frame: but for that, it is taken
/// like a batch of the run.
pub proof fn law_another_run_costs_no_frame(
    s: WriterState,
    source: u32,
    run: u32,
    seq: u64,
    frames: Seq<Seq<u8>>,
)
    requires
        run != s.run,
    ensures
        ({
            let t = s.after_batch(source, run, seq, frames);
            let own = s.after_batch(source, s.run, seq, frames);
            &&& t.errored
            &&& t.run_mismatches == s.run_mismatches + 1
            &&& t == WriterState { run_mismatches: t.run_mismatches, errored: true, ..own }
            &&& t.queue == frames
        }),
{
}

/// Nothing is made on the disk before the first frame comes, and the directory of control frames
/// is made only for one.
pub proof fn law_files_are_made_late(root: Seq<char>, run: u32, max: u64, s: WriterState)
    ensures
        WriterState::fresh_run(root, run, max).action() is Idle,
        s.action() matches ActionView::MakeDir(path) ==> s.queue.len() > 0 && (path == run_dir(
            s.root,
            s.run,
        ) || s.front_key() is Ctrl),
        s.action() matches ActionView::Create(key, _) ==> s.queue.len() > 0 && key == s.front_key(),
{
}

// ---------------------------------------------------------------------
// Reports
// ---------------------------------------------------------------------

/// What a writer says about one file.
#[derive(Debug, Clone, PartialEq)]
pub struct FileReport {
    pub cobo: u32,
    /// The AsAd board, or `None` for control frames.
    pub asad: Option<u8>,
    pub idx: u32,
    pub path: String,
    pub bytes: u64,
    pub frames: u64,
    /// Whether the file is closed.
    pub closed: bool,
}

/// The value of a [`FileReport`].
pub struct ReportView {
    pub cobo: u32,
    pub asad: Option<u8>,
    pub idx: u32,
    pub path: Seq<char>,
    pub bytes: u64,
    pub frames: u64,
    pub closed: bool,
}

impl View for FileReport {
    type V = ReportView;

    open spec fn view(&self) -> ReportView {
        ReportView {
            cobo: self.cobo,
            asad: self.asad,
            idx: self.idx,
            path: self.path@,
            bytes: self.bytes,
            frames: self.frames,
            closed: self.closed,
        }
    }
}

/// The place of an AsAd board in a list: control frames come first.
pub open spec fn rank(asad: Option<u8>) -> int {
    match asad {
        None => 0,
        Some(a) => a + 1,
    }
}

/// Whether `a` comes before `b` in a list: by CoBo, AsAd and number.
pub open spec fn precedes(a: ReportView, b: ReportView) -> bool {
    ||| a.cobo < b.cobo
    ||| a.cobo == b.cobo && rank(a.asad) < rank(b.asad)
    ||| a.cobo == b.cobo && rank(a.asad) == rank(b.asad) && a.idx < b.idx
}

/// `r` put into a sorted list, behind what it does not precede.
pub open spec fn insert_sorted(list: Seq<ReportView>, r: ReportView) -> Seq<ReportView>
    decreases list.len(),
{
    if list.len() > 0 && precedes(r, list.last()) {
        insert_sorted(list.drop_last(), r).push(list.last())
    } else {
        list.push(r)
    }
}

/// The list, sorted by CoBo, AsAd and number.
pub open spec fn sorted(list: Seq<ReportView>) -> Seq<ReportView>
    decreases list.len(),
{
    if list.len() == 0 {
        Seq::empty()
    } else {
        insert_sorted(sorted(list.drop_last()), list.last())
    }
}

/// Whether nothing in the list comes before something in front of it.
pub open spec fn in_order(list: Seq<ReportView>) -> bool {
    forall|i: int, j: int|
        0 <= i < j < list.len() ==> !precedes(#[trigger] list[j], #[trigger] list[i])
}

proof fn lemma_insert_sorted(list: Seq<ReportView>, r: ReportView)
    requires
        in_order(list),
    ensures
        in_order(insert_sorted(list, r)),
        insert_sorted(list, r).to_multiset() == list.to_multiset().insert(r),
        forall|k: int|
            0 <= k < insert_sorted(list, r).len() ==> #[trigger] insert_sorted(list, r)[k] == r
                || exists|m: int| 0 <= m < list.len() && list[m] == insert_sorted(list, r)[k],
    decreases list.len(),
{
    broadcast use vstd::seq_lib::group_to_multiset_ensures;

    let out = insert_sorted(list, r);
    if list.len() > 0 && precedes(r, list.last()) {
        let rest = list.drop_last();
        assert(in_order(rest));
        lemma_insert_sorted(rest, r);
        let inner = insert_sorted(rest, r);
        assert(list =~= rest.push(list.last()));
        assert(out.to_multiset() =~= list.to_multiset().insert(r));
        assert forall|i: int, j: int| 0 <= i < j < out.len() implies !precedes(
            #[trigger] out[j],
            #[trigger] out[i],
        ) by {
            if j < out.len() - 1 {
                assert(out[i] == inner[i] && out[j] == inner[j]);
            } else {
                assert(out[i] == inner[i]);
                if inner[i] != r {
                    let m = choose|m: int| 0 <= m < rest.len() && rest[m] == inner[i];
                    assert(list[m] == inner[i]);
                }
            }
        }
        assert forall|k: int| 0 <= k < out.len() implies #[trigger] out[k] == r || exists|m: int|
            0 <= m < list.len() && list[m] == out[k] by {
            if k < out.len() - 1 {
                assert(out[k] == inner[k]);
                if inner[k] != r {
                    let m = choose|m: int| 0 <= m < rest.len() && rest[m] == inner[k];
                    assert(list[m] == out[k]);
                }
            } else {
                assert(list[list.len() - 1] == out[k]);
            }
        }
    } else {
        assert forall|i: int, j: int| 0 <= i < j < out.len() implies !precedes(
            #[trigger] out[j],
            #[trigger] out[i],
        ) by {
            if j < list.len() {
                assert(out[i] == list[i] && out[j] == list[j]);
            } else if i < list.len() - 1 {
                assert(!precedes(list[list.len() - 1], list[i]));
                assert(out[i] == list[i]);
            }
        }
        assert forall|k: int| 0 <= k < out.len() implies #[trigger] out[k] == r || exists|m: int|
            0 <= m < list.len() && list[m] == out[k] by {
            if k < list.len() {
                assert(list[k] == out[k]);
            }
        }
    }
}

/// Sorting puts the reports in order and leaves out none.
pub proof fn law_sorted_reports_are_in_order(list: Seq<ReportView>)
    ensures
        in_order(sorted(list)),
        sorted(list).to_multiset() == list.to_multiset(),
    decreases list.len(),
{
    broadcast use vstd::seq_lib::group_to_multiset_ensures;

    if list.len() > 0 {
        law_sorted_reports_are_in_order(list.drop_last());
        lemma_insert_sorted(sorted(list.drop_last()), list.last());
        assert(list =~= list.drop_last().push(list.last()));
    } else {
        assert(sorted(list) =~= list);
    }
}

proof fn lemma_insert_at(list: Seq<ReportView>, r: ReportView, i: int)
    requires
        0 <= i <= list.len(),
        i > 0 ==> !precedes(r, list[i - 1]),
        forall|k: int| i <= k < list.len() ==> precedes(r, #[trigger] list[k]),
    ensures
        insert_sorted(list, r) == list.insert(i, r),
    decreases list.len(),
{
    if i < list.len() {
        lemma_insert_at(list.drop_last(), r, i);
        assert(insert_sorted(list, r) =~= list.insert(i, r));
    } else {
        assert(list.insert(i, r) =~= list.push(r));
    }
}

fn comes_before(a: &FileReport, b: &FileReport) -> (r: bool)
    ensures
        r == precedes(a@, b@),
{
    let ra: u16 = match a.asad {
        None => 0,
        Some(x) => x as u16 + 1,
    };
    let rb: u16 = match b.asad {
        None => 0,
        Some(x) => x as u16 + 1,
    };
    a.cobo < b.cobo || (a.cobo == b.cobo && ra < rb) || (a.cobo == b.cobo && ra == rb && a.idx
        < b.idx)
}

spec fn report_views(v: Seq<FileReport>) -> Seq<ReportView> {
    v.map_values(|r: FileReport| r@)
}

fn insert_report(list: &mut Vec<FileReport>, r: FileReport)
    ensures
        report_views(final(list)@) == insert_sorted(report_views(old(list)@), r@),
{
    let mut i: usize = list.len();
    while i > 0 && comes_before(&r, &list[i - 1])
        invariant
            i <= list@.len(),
            list@ == old(list)@,
            forall|k: int| i <= k < list@.len() ==> precedes(r@, (#[trigger] list@[k])@),
        decreases i,
    {
        i = i - 1;
    }
    list.insert(i, r);
    proof {
        let views = report_views(old(list)@);
        assert forall|k: int| i <= k < views.len() implies precedes(r@, #[trigger] views[k]) by {
            assert(views[k] == old(list)@[k]@);
        }
        if i > 0 {
            assert(views[i - 1] == old(list)@[i - 1]@);
        }
        lemma_insert_at(views, r@, i as int);
        assert(report_views(list@) =~= views.insert(i as int, r@));
    }
}

impl WriterState {
    /// What is said about a file.
    pub open spec fn file_view(self, f: FileModel, closed: bool) -> ReportView {
        ReportView {
            cobo: f.key.cobo_of(),
            asad: f.key.asad_of(),
            idx: f.idx as u32,
            path: file_path(self.root, self.run, f.key, f.ts, f.idx),
            bytes: total(f.content) as u64,
            frames: f.content.len() as u64,
            closed,
        }
    }

    /// What is said about the closed files, and behind them the open ones.
    pub open spec fn unsorted(self) -> Seq<ReportView> {
        self.closed.map_values(|f: FileModel| self.file_view(f, true)) + self.open.map_values(
            |f: FileModel| self.file_view(f, false),
        )
    }

    /// What is reported about each AsAd board.
    pub open spec fn boards(self) -> Seq<AsadEntry> {
        tally::listing(self.asad_bytes).map_values(
            |p: (u64, u64)|
                AsadEntry {
                    cobo: (p.0 / 256) as u32,
                    asad: (p.0 % 256) as u8,
                    bytes: p.1,
                    frames: tally::count_in(self.asad_frames, p.0),
                },
        )
    }

    /// The report.
    pub open spec fn report(self) -> Seq<(Seq<char>, MetricView)> {
        seq![
            ("seq_gaps"@, MetricView::Uint(self.seq_gaps as u64)),
            ("run_mismatches"@, MetricView::Uint(self.run_mismatches as u64)),
            ("ctrl_frames"@, MetricView::Uint(self.ctrl_frames as u64)),
            ("write_errors"@, MetricView::Uint(self.write_errors as u64)),
            ("batches"@, MetricView::Tally(tally::listing(self.batches))),
            ("asad"@, MetricView::Asads(self.boards())),
            (
                "files"@,
                MetricView::Files(
                    sorted(self.unsorted()).map_values(|r: ReportView| listed_file(r)),
                ),
            ),
            ("files_open"@, MetricView::Uint(self.open.len() as u64)),
            ("files_closed"@, MetricView::Uint(self.closed.len() as u64)),
        ]
    }
}

/// How a file is listed in a report.
pub open spec fn listed_file(r: ReportView) -> FileView {
    FileView {
        path: Some(r.path),
        bytes: Some(r.bytes),
        detail: Some(
            FileDetail { cobo: r.cobo, asad: r.asad, idx: r.idx, frames: r.frames, closed: r.closed },
        ),
    }
}

// ---------------------------------------------------------------------
// The writer
// ---------------------------------------------------------------------

struct OutputFile {
    key: FileKey,
    ts: String,
    idx: u32,
    bytes: u64,
    frames: u64,
    path: String,
    content: Ghost<Seq<Seq<u8>>>,
}

impl View for OutputFile {
    type V = FileModel;

    closed spec fn view(&self) -> FileModel {
        FileModel {
            key: self.key,
            ts: self.ts@,
            idx: self.idx as nat,
            content: self.content@,
        }
    }
}

impl OutputFile {
    spec fn wf(&self, root: Seq<char>, run: u32) -> bool {
        &&& self.bytes == total(self.content@)
        &&& self.frames == self.content@.len()
        &&& self.path@ == file_path(root, run, self.key, self.ts@, self.idx as nat)
    }

    fn report(&self, closed: bool, Ghost(s): Ghost<WriterState>) -> (r: FileReport)
        requires
            self.wf(s.root, s.run),
        ensures
            r@ == s.file_view(self@, closed),
    {
        FileReport {
            cobo: self.key.cobo(),
            asad: self.key.asad(),
            idx: self.idx,
            path: self.path.clone(),
            bytes: self.bytes,
            frames: self.frames,
            closed,
        }
    }
}

spec fn models(files: Seq<OutputFile>) -> Seq<FileModel> {
    files.map_values(|f: OutputFile| f@)
}

/// Decides what is to be done to the disk for one run.
pub struct RunWriter {
    output_root: String,
    run_number: u32,
    max_file_bytes: u64,
    run_dir_created: bool,
    ctrl_dir_created: bool,
    files: Vec<OutputFile>,
    closed_files: Vec<OutputFile>,
    fresh: Option<(String, u32)>,
    source: u32,
    frames: Vec<Vec<u8>>,
    at: usize,
    asad_bytes: Tally,
    asad_frames: Tally,
    batches: Tally,
    next_seq: Tally,
    seq_gaps: u64,
    run_mismatches: u64,
    ctrl_frames: u64,
    write_errors: u64,
    errored: bool,
}

spec fn bytes_of(frames: Seq<Vec<u8>>) -> Seq<Seq<u8>> {
    frames.map_values(|f: Vec<u8>| f@)
}

impl View for RunWriter {
    type V = WriterState;

    closed spec fn view(&self) -> WriterState {
        WriterState {
            root: self.output_root@,
            run: self.run_number,
            max: self.max_file_bytes,
            run_dir: self.run_dir_created,
            ctrl_dir: self.ctrl_dir_created,
            open: models(self.files@),
            closed: models(self.closed_files@),
            fresh: match self.fresh {
                Some((ts, idx)) => Some((ts@, idx as nat)),
                None => None,
            },
            source: self.source,
            queue: bytes_of(self.frames@.skip(self.at as int)),
            asad_bytes: self.asad_bytes@,
            asad_frames: self.asad_frames@,
            batches: self.batches@,
            next_seq: self.next_seq@,
            seq_gaps: self.seq_gaps as nat,
            run_mismatches: self.run_mismatches as nat,
            ctrl_frames: self.ctrl_frames as nat,
            write_errors: self.write_errors as nat,
            errored: self.errored,
        }
    }
}

impl RunWriter {
    /// Whether the parts of this value fit together: no two open files have the same key.
    pub closed spec fn wf(&self) -> bool {
        &&& self.asad_bytes.wf()
        &&& self.asad_frames.wf()
        &&& self.batches.wf()
        &&& self.next_seq.wf()
        &&& self.at <= self.frames@.len()
        &&& apart(self@.open)
        &&& forall|i: int|
            0 <= i < self.files@.len() ==> (#[trigger] self.files@[i]).wf(
                self.output_root@,
                self.run_number,
            )
        &&& forall|i: int|
            0 <= i < self.closed_files@.len() ==> (#[trigger] self.closed_files@[i]).wf(
                self.output_root@,
                self.run_number,
            )
    }

    /// A writer for a run of which nothing has come.
    pub fn new(output_root: String, run_number: u32, max_file_bytes: u64) -> (writer: Self)
        ensures
            writer.wf(),
            writer@ == WriterState::fresh_run(output_root@, run_number, max_file_bytes),
    {
        let writer = RunWriter {
            output_root,
            run_number,
            max_file_bytes,
            run_dir_created: false,
            ctrl_dir_created: false,
            files: Vec::new(),
            closed_files: Vec::new(),
            fresh: None,
            source: 0,
            frames: Vec::new(),
            at: 0,
            asad_bytes: Tally::new(),
            asad_frames: Tally::new(),
            batches: Tally::new(),
            next_seq: Tally::new(),
            seq_gaps: 0,
            run_mismatches: 0,
            ctrl_frames: 0,
            write_errors: 0,
            errored: false,
        };
        proof {
            let fresh = WriterState::fresh_run(output_root@, run_number, max_file_bytes);
            assert(writer@.open =~= fresh.open);
            assert(writer@.closed =~= fresh.closed);
            assert(writer@.queue =~= fresh.queue);
        }
        writer
    }

    fn find(&self, key: FileKey) -> (i: usize)
        ensures
            i == index_for(self@.open, key),
    {
        let mut i: usize = 0;
        while i < self.files.len()
            invariant
                i <= self.files@.len(),
                forall|k: int| 0 <= k < i ==> (#[trigger] self@.open[k]).key != key,
            decreases self.files@.len() - i,
        {
            assert(self@.open[i as int].key == self.files@[i as int].key);
            if self.files[i].key == key {
                proof {
                    lemma_index_found(self@.open, key, i as int);
                }
                return i;
            }
            i = i + 1;
        }
        proof {
            lemma_index_for(self@.open, key);
        }
        i
    }

    fn front_key(&self) -> (key: FileKey)
        requires
            self.wf(),
            self@.queue.len() > 0,
        ensures
            key == self@.front_key(),
    {
        assert(self@.queue.first() == self.frames@[self.at as int]@);
        key_for(self.source, self.frames[self.at].as_slice())
    }

    /// The frame at the front.
    pub fn front(&self) -> (frame: &[u8])
        requires
            self.wf(),
            self@.queue.len() > 0,
        ensures
            frame@ == self@.queue.first(),
    {
        assert(self@.queue.first() == self.frames@[self.at as int]@);
        self.frames[self.at].as_slice()
    }

    fn take_up(&mut self)
        requires
            old(self).wf(),
            old(self)@.ctrl_frames < u64::MAX,
        ensures
            final(self).wf(),
            final(self)@ == old(self)@.taken_up(),
    {
        if self.at < self.frames.len() {
            if let FileKey::Ctrl(_) = self.front_key() {
                self.ctrl_frames = self.ctrl_frames + 1;
            }
        }
    }

    /// Takes a batch. The frames of the batch before have to be written.
    pub fn handle_batch(
        &mut self,
        source_id: u32,
        run_number: u32,
        sequence_number: u64,
        frames: Vec<Vec<u8>>,
    )
        requires
            old(self).wf(),
            old(self)@.queue.len() == 0,
            old(self)@.room_for_batch(source_id, sequence_number),
        ensures
            final(self).wf(),
            final(self)@ == old(self)@.after_batch(
                source_id,
                run_number,
                sequence_number,
                frames@.map_values(|f: Vec<u8>| f@),
            ),
    {
        if run_number != self.run_number {
            self.run_mismatches = self.run_mismatches + 1;
            self.errored = true;
        }
        let expected: u64 = self.next_seq.get(source_id as u64);
        if sequence_number != expected {
            self.seq_gaps = self.seq_gaps + 1;
            self.errored = true;
        }
        self.next_seq.set(source_id as u64, sequence_number + 1);
        let n: u64 = self.batches.get(source_id as u64);
        self.batches.set(source_id as u64, n + 1);
        self.source = source_id;
        self.fresh = None;
        self.at = 0;
        let ghost given = frames@;
        self.frames = frames;
        assert(self.frames@.skip(0) =~= given);
        self.take_up();
    }

    /// What is to be done to the disk next.
    pub fn action(&self) -> (action: WriterAction)
        requires
            self.wf(),
        ensures
            action@ == self@.action(),
    {
        if self.at >= self.frames.len() {
            return WriterAction::Idle;
        }
        if !self.run_dir_created {
            return WriterAction::MakeDir(run_dir_text(&self.output_root, self.run_number));
        }
        let key: FileKey = self.front_key();
        let i: usize = self.find(key);
        if i < self.files.len() {
            let frame = self.front();
            let used: u64 = self.files[i].bytes;
            assert(self@.open[i as int] == self.files@[i as int]@);
            let full: bool = match used.checked_add(frame.len() as u64) {
                Some(sum) => sum > self.max_file_bytes,
                None => true,
            };
            if used > 0 && full {
                WriterAction::Sync(key)
            } else {
                WriterAction::Write(key)
            }
        } else {
            match &self.fresh {
                None => WriterAction::Stamp,
                Some((ts, idx)) => {
                    if let FileKey::Ctrl(_) = key {
                        if !self.ctrl_dir_created {
                            return WriterAction::MakeDir(
                                ctrl_dir_text(&self.output_root, self.run_number),
                            );
                        }
                    }
                    WriterAction::Create(
                        key,
                        file_path_text(&self.output_root, self.run_number, key, ts, *idx),
                    )
                },
            }
        }
    }

    /// Takes note of the time for the file that is to be made.
    pub fn stamp(&mut self, ts: String)
        requires
            old(self).wf(),
            old(self)@.action() is Stamp,
        ensures
            final(self).wf(),
            final(self)@ == old(self)@.after_stamp(ts@),
    {
        self.fresh = Some((ts, 0));
    }

    /// Takes note that what was to be done to the disk is done, or could not be done. In the
    /// second case what is left of the batch is given up.
    pub fn done(&mut self, ok: bool)
        requires
            old(self).wf(),
            old(self)@.room_for_step(),
            !(old(self)@.action() is Idle),
            !(old(self)@.action() is Stamp),
        ensures
            final(self).wf(),
            final(self)@ == if ok {
                old(self)@.after_done()
            } else {
                old(self)@.after_failure()
            },
    {
        if !ok {
            self.write_errors = self.write_errors + 1;
            self.errored = true;
            self.at = self.frames.len();
            self.fresh = None;
            assert(self@.queue =~= Seq::empty());
            return;
        }
        match self.action() {
            WriterAction::MakeDir(_) => {
                if !self.run_dir_created {
                    self.run_dir_created = true;
                } else {
                    self.ctrl_dir_created = true;
                }
            },
            WriterAction::Sync(key) => {
                self.rotate(key);
            },
            WriterAction::Create(key, path) => {
                self.open_new_file(key, path);
            },
            WriterAction::Write(key) => {
                self.frame_written(key);
            },
            _ => {},
        }
    }

    fn rotate(&mut self, key: FileKey)
        requires
            old(self).wf(),
            old(self)@.room_for_step(),
            old(self)@.action() == ActionView::Sync(key),
        ensures
            final(self).wf(),
            final(self)@ == old(self)@.rotated(),
    {
        let i: usize = self.find(key);
        let ghost before = self@;
        proof {
            assert(before.open[i as int] == self.files@[i as int]@);
            law_steps_keep_every_frame(before, key);
        }
        let finished: OutputFile = self.files.remove(i);
        self.fresh = Some((finished.ts.clone(), finished.idx + 1));
        self.closed_files.push(finished);
        assert(self@.open =~= before.open.remove(i as int));
        assert(self@.closed =~= before.closed.push(before.open[i as int]));
    }

    fn open_new_file(&mut self, key: FileKey, path: String)
        requires
            old(self).wf(),
            old(self)@.action() == ActionView::Create(key, path@),
        ensures
            final(self).wf(),
            final(self)@ == old(self)@.created(),
    {
        let ghost before = self@;
        proof {
            law_steps_keep_every_frame(before, key);
        }
        let fresh: Option<(String, u32)> = self.fresh.take();
        if let Some((ts, idx)) = fresh {
            self.files.push(
                OutputFile {
                    key,
                    ts,
                    idx,
                    bytes: 0,
                    frames: 0,
                    path,
                    content: Ghost(Seq::empty()),
                },
            );
            assert(self@.open =~= before.created().open);
        }
    }

    fn frame_written(&mut self, key: FileKey)
        requires
            old(self).wf(),
            old(self)@.room_for_step(),
            old(self)@.action() == ActionView::Write(key),
        ensures
            final(self).wf(),
            final(self)@ == old(self)@.written(),
    {
        let i: usize = self.find(key);
        let ghost before = self@;
        proof {
            law_steps_keep_every_frame(before, key);
            assert(before.open[i as int] == self.files@[i as int]@);
            assert(before.queue.len() == self.frames.len() - self.at);
        }
        let ghost frame = before.queue.first();
        let len: u64 = self.front().len() as u64;
        let mut entry: OutputFile = self.files.remove(i);
        let ghost content = entry.content@;
        entry.bytes = entry.bytes + len;
        entry.frames = entry.frames + 1;
        entry.content = Ghost(content.push(frame));
        assert(content.push(frame).drop_last() =~= content);
        self.files.insert(i, entry);
        assert(self@.open =~= before.open.update(
            i as int,
            FileModel { content: content.push(frame), ..before.open[i as int] },
        ));
        if let FileKey::Asad(cobo, asad) = key {
            let number: u64 = cobo as u64 * 256 + asad as u64;
            let b: u64 = self.asad_bytes.get(number);
            self.asad_bytes.set(number, b + len);
            let n: u64 = self.asad_frames.get(number);
            self.asad_frames.set(number, n + 1);
        }
        self.at = self.at + 1;
        assert(self@.queue =~= before.queue.drop_first());
        self.take_up();
    }

    /// Takes note that all open files were brought to the disk, or that one could not be.
    pub fn flush_all(&mut self, ok: bool)
        requires
            old(self).wf(),
            old(self)@.write_errors < u64::MAX,
        ensures
            final(self).wf(),
            final(self)@ == old(self)@.after_flush(ok),
    {
        if !ok {
            self.write_errors = self.write_errors + 1;
            self.errored = true;
        }
    }

    /// The open file that is to be brought to the disk and closed next, if there is one.
    pub fn to_close(&self) -> (key: Option<FileKey>)
        ensures
            key == if self@.open.len() > 0 {
                Some(self@.open.first().key)
            } else {
                None::<FileKey>
            },
    {
        if self.files.len() > 0 {
            assert(self@.open.first() == self.files@[0]@);
            Some(self.files[0].key)
        } else {
            None
        }
    }

    /// Takes note that the first open file is closed, brought to the disk or not.
    pub fn close_file(&mut self, ok: bool)
        requires
            old(self).wf(),
            old(self)@.open.len() > 0,
            old(self)@.write_errors < u64::MAX,
        ensures
            final(self).wf(),
            final(self)@ == old(self)@.after_close(ok),
    {
        let ghost before = self@;
        assert(before.open.first() == self.files@[0]@);
        let entry: OutputFile = self.files.remove(0);
        self.closed_files.push(entry);
        assert(self@.open =~= before.open.drop_first());
        assert(self@.closed =~= before.closed.push(before.open.first()));
        assert(apart(self@.open)) by {
            assert forall|a: int, b: int| 0 <= a < b < self@.open.len() implies (
            #[trigger] self@.open[a]).key != (#[trigger] self@.open[b]).key by {
                assert(self@.open[a] == before.open[a + 1]);
                assert(self@.open[b] == before.open[b + 1]);
            }
        }
        self.flush_all(ok);
    }

    /// Whether the counters have room for a batch.
    pub fn can_take_batch(&self, source_id: u32, sequence_number: u64) -> (r: bool)
        requires
            self.wf(),
        ensures
            r == self@.room_for_batch(source_id, sequence_number),
    {
        sequence_number < u64::MAX && self.run_mismatches < u64::MAX && self.seq_gaps < u64::MAX
            && self.ctrl_frames < u64::MAX && self.batches.get(source_id as u64) < u64::MAX
    }

    /// Whether the counters have room for the end of an action.
    pub fn can_finish(&self) -> (r: bool)
        requires
            self.wf(),
        ensures
            r == self@.room_for_step(),
    {
        if self.write_errors == u64::MAX || self.ctrl_frames == u64::MAX {
            return false;
        }
        if self.at >= self.frames.len() {
            return true;
        }
        let key: FileKey = self.front_key();
        let len: u64 = self.front().len() as u64;
        let i: usize = self.find(key);
        if i < self.files.len() {
            let f = &self.files[i];
            assert(self@.open[i as int] == f@);
            if f.idx == u32::MAX || f.frames == u64::MAX || f.bytes > u64::MAX - len {
                return false;
            }
        }
        if let FileKey::Asad(cobo, asad) = key {
            let number: u64 = cobo as u64 * 256 + asad as u64;
            if self.asad_frames.get(number) == u64::MAX || self.asad_bytes.get(number) > u64::MAX
                - len {
                return false;
            }
        }
        true
    }

    /// Whether there was a fault.
    pub fn errored(&self) -> (r: bool)
        ensures
            r == self@.errored,
    {
        self.errored
    }

    /// How many batches did not have the number that was due.
    pub fn seq_gaps(&self) -> (n: u64)
        ensures
            n == self@.seq_gaps,
    {
        self.seq_gaps
    }

    /// How many batches were of another run.
    pub fn run_mismatches(&self) -> (n: u64)
        ensures
            n == self@.run_mismatches,
    {
        self.run_mismatches
    }

    /// How many frames were control frames.
    pub fn ctrl_frames(&self) -> (n: u64)
        ensures
            n == self@.ctrl_frames,
    {
        self.ctrl_frames
    }

    /// How often something could not be done to the disk.
    pub fn write_errors(&self) -> (n: u64)
        ensures
            n == self@.write_errors,
    {
        self.write_errors
    }

    /// What there is to say about each file, by CoBo, AsAd and number; control frames come before
    /// the first AsAd board.
    pub fn file_report(&self) -> (list: Vec<FileReport>)
        requires
            self.wf(),
        ensures
            list@.map_values(|r: FileReport| r@) == sorted(self@.unsorted()),
    {
        let ghost all = self@.unsorted();
        let mut list: Vec<FileReport> = Vec::new();
        let mut i: usize = 0;
        assert(all.take(0) =~= Seq::empty());
        assert(report_views(list@) =~= Seq::empty());
        while i < self.closed_files.len()
            invariant
                self.wf(),
                all == self@.unsorted(),
                i <= self.closed_files@.len(),
                report_views(list@) == sorted(all.take(i as int)),
            decreases self.closed_files@.len() - i,
        {
            let r: FileReport = self.closed_files[i].report(true, Ghost(self@));
            proof {
                assert(all[i as int] == r@);
                assert(all.take(i + 1).drop_last() =~= all.take(i as int));
            }
            insert_report(&mut list, r);
            i = i + 1;
        }
        let mut j: usize = 0;
        while j < self.files.len()
            invariant
                self.wf(),
                all == self@.unsorted(),
                i == self.closed_files@.len(),
                j <= self.files@.len(),
                report_views(list@) == sorted(all.take(i + j)),
            decreases self.files@.len() - j,
        {
            let r: FileReport = self.files[j].report(false, Ghost(self@));
            proof {
                assert(all[i + j] == r@);
                assert(all.take(i + j + 1).drop_last() =~= all.take(i + j));
            }
            insert_report(&mut list, r);
            j = j + 1;
        }
        assert(all.take(i + j) =~= all);
        list
    }

    fn files_listed(&self) -> (out: Vec<FileEntry>)
        requires
            self.wf(),
        ensures
            out@.map_values(|e: FileEntry| e@) == sorted(self@.unsorted()).map_values(
                |r: ReportView| listed_file(r),
            ),
    {
        let list: Vec<FileReport> = self.file_report();
        let ghost all = sorted(self@.unsorted());
        let mut out: Vec<FileEntry> = Vec::new();
        let mut i: usize = 0;
        while i < list.len()
            invariant
                i <= list@.len(),
                list@.map_values(|r: FileReport| r@) == all,
                out@.len() == i,
                forall|k: int| 0 <= k < i ==> (#[trigger] out@[k])@ == listed_file(all[k]),
            decreases list@.len() - i,
        {
            let r = &list[i];
            assert(all[i as int] == r@);
            out.push(
                FileEntry {
                    path: Some(r.path.clone()),
                    bytes: Some(r.bytes),
                    detail: Some(
                        FileDetail {
                            cobo: r.cobo,
                            asad: r.asad,
                            idx: r.idx,
                            frames: r.frames,
                            closed: r.closed,
                        },
                    ),
                },
            );
            i = i + 1;
        }
        assert(all.len() == list@.len());
        assert(out@.map_values(|e: FileEntry| e@) =~= all.map_values(
            |r: ReportView| listed_file(r),
        ));
        out
    }

    fn boards_listed(&self) -> (out: Vec<AsadEntry>)
        requires
            self.wf(),
        ensures
            out@ == self@.boards(),
    {
        let list: Vec<(u64, u64)> = self.asad_bytes.list();
        let mut out: Vec<AsadEntry> = Vec::new();
        let mut i: usize = 0;
        while i < list.len()
            invariant
                self.wf(),
                i <= list@.len(),
                list@ == tally::listing(self@.asad_bytes),
                out@ == self@.boards().take(i as int),
            decreases list@.len() - i,
        {
            let number: u64 = list[i].0;
            out.push(
                AsadEntry {
                    cobo: (number / 256) as u32,
                    asad: (number % 256) as u8,
                    bytes: list[i].1,
                    frames: self.asad_frames.get(number),
                },
            );
            i = i + 1;
            assert(out@ =~= self@.boards().take(i as int));
        }
        assert(out@ =~= self@.boards());
        out
    }

    /// The report.
    pub fn metrics_json(&self) -> (m: Metrics)
        requires
            self.wf(),
        ensures
            m@ == self@.report(),
    {
        let mut m: Metrics = Metrics::new();
        m.put_u64("seq_gaps", self.seq_gaps);
        m.put_u64("run_mismatches", self.run_mismatches);
        m.put_u64("ctrl_frames", self.ctrl_frames);
        m.put_u64("write_errors", self.write_errors);
        m.put("batches", Metric::Tally(self.batches.list()));
        m.put("asad", Metric::Asads(self.boards_listed()));
        m.put("files", Metric::Files(self.files_listed()));
        m.put_u64("files_open", self.files.len() as u64);
        m.put_u64("files_closed", self.closed_files.len() as u64);
        assert(m@ =~= self@.report());
        m
    }
}

// ---------------------------------------------------------------------
// The writer thread
// ---------------------------------------------------------------------

/// What came of waiting for a message.
#[derive(Debug, Clone)]
pub enum Arrival {
    /// The process was told to stop before the wait.
    Stopped,
    /// A batch of frames.
    Data { source_id: u32, run_number: u32, sequence_number: u64, frames: Vec<Vec<u8>> },
    /// The end of a source's stream.
    EndOfStream { source_id: u32, run_number: u32 },
    /// A sign of life, a message that could not be read, a wait that was in vain or that failed.
    Nothing,
    /// The socket will give nothing more.
    Closed,
}

/// What the thread does next.
#[derive(Debug, Clone)]
pub enum Step {
    /// Stop if told to, else wait for a message.
    Receive,
    /// Do this to the disk.
    Disk(WriterAction),
    /// Bring all open files to the disk.
    Flush,
    /// Bring the open file for this key to the disk and close it.
    Close(FileKey),
    /// End.
    Finish,
}

/// What a thread is at.
#[derive(Debug, Clone, Copy, PartialEq, Eq, Structural)]
pub enum Stage {
    Receiving,
    Writing,
    Flushing,
    Closing,
}

/// The state of a [`WriterLoop`].
pub struct LoopState {
    pub writer: WriterState,
    pub stage: Stage,
    pub expected: Seq<u32>,
    /// The sources whose streams have ended.
    pub ended: Set<u32>,
    pub flush_ns: u64,
    pub last_flush: u64,
}

impl LoopState {
    /// Whether every stream that has to end has ended.
    pub open spec fn all_ended(self) -> bool {
        forall|i: int| 0 <= i < self.expected.len() ==> self.ended.contains(#[trigger] self.expected[i])
    }

    /// The thread once a message is dealt with: it flushes where that is due.
    pub open spec fn round_over(self, now: u64) -> LoopState {
        LoopState {
            stage: if now - self.last_flush >= self.flush_ns {
                Stage::Flushing
            } else {
                Stage::Receiving
            },
            ..self
        }
    }

    /// The thread once a batch is in the writer's hands.
    pub open spec fn writing(self, now: u64) -> LoopState {
        if self.writer.queue.len() == 0 {
            self.round_over(now)
        } else {
            LoopState { stage: Stage::Writing, ..self }
        }
    }

    /// The thread once a message came, or none did.
    pub open spec fn after_arrival(self, arrival: Arrival, now: u64) -> LoopState {
        match arrival {
            Arrival::Stopped => LoopState { stage: Stage::Closing, ..self },
            Arrival::Closed => LoopState { stage: Stage::Closing, ..self },
            Arrival::Nothing => self.round_over(now),
            Arrival::Data { source_id, run_number, sequence_number, frames } => (LoopState {
                writer: self.writer.after_batch(
                    source_id,
                    run_number,
                    sequence_number,
                    frames@.map_values(|f: Vec<u8>| f@),
                ),
                ..self
            }).writing(now),
            Arrival::EndOfStream { source_id, run_number } => {
                let s = if run_number == self.writer.run {
                    LoopState { ended: self.ended.insert(source_id), ..self }
                } else {
                    self
                };
                if s.all_ended() {
                    LoopState { stage: Stage::Closing, ..s }
                } else {
                    s.round_over(now)
                }
            },
        }
    }

    /// The thread once something is done to the disk, or could not be.
    pub open spec fn after_disk(self, ok: bool, now: u64) -> LoopState {
        if ok {
            (LoopState { writer: self.writer.after_done(), ..self }).writing(now)
        } else {
            LoopState { writer: self.writer.after_failure(), stage: Stage::Closing, ..self }
        }
    }

    /// The thread once all open files were brought to the disk, or one could not be.
    pub open spec fn after_flush(self, ok: bool, now: u64) -> LoopState {
        LoopState {
            writer: self.writer.after_flush(ok),
            stage: Stage::Receiving,
            last_flush: now,
            ..self
        }
    }

    /// Whether `step` is what the thread does next.
    pub open spec fn is_next(self, step: Step) -> bool {
        match self.stage {
            Stage::Receiving => step is Receive,
            Stage::Writing => step matches Step::Disk(action) && action@ == self.writer.action(),
            Stage::Flushing => step is Flush,
            Stage::Closing => if self.writer.open.len() > 0 {
                step matches Step::Close(key) && key == self.writer.open.first().key
            } else {
                step is Finish
            },
        }
    }
}

/// A thread that could not do something to the disk takes no more messages: it closes its files
/// and ends.
pub proof fn law_a_failure_ends_the_thread(
    s: LoopState,
    now: u64,
    closing: LoopState,
    step: Step,
    ok: bool,
)
    requires
        closing.stage == Stage::Closing,
        closing.is_next(step),
    ensures
        s.after_disk(false, now).stage == Stage::Closing,
        step is Close || step is Finish,
        step is Close ==> closing.writer.after_close(ok).open.len() < closing.writer.open.len(),
{
}

/// No thread ends with a file open.
pub proof fn law_files_are_closed_at_the_end(s: LoopState, step: Step)
    requires
        s.is_next(step),
        step is Finish,
    ensures
        s.writer.open.len() == 0,
{
}

/// The end of one stream ends the thread only where all that have to end have ended, and a
/// repeated end changes nothing.
pub proof fn law_the_thread_waits_for_every_source(s: LoopState, source: u32, now: u64)
    ensures
        ({
            let eos = Arrival::EndOfStream { source_id: source, run_number: s.writer.run };
            let t = s.after_arrival(eos, now);
            &&& t.stage == Stage::Closing <==> (LoopState {
                ended: s.ended.insert(source),
                ..s
            }).all_ended()
            &&& t.after_arrival(eos, now).ended == t.ended
        }),
{
    let t = s.after_arrival(
        Arrival::EndOfStream { source_id: source, run_number: s.writer.run },
        now,
    );
    assert(t.ended.insert(source) =~= t.ended);
}

/// Decides what the thread of a run's writer does next.
pub struct WriterLoop {
    writer: RunWriter,
    stage: Stage,
    expected: Vec<u32>,
    ended: HashSet<u32>,
    flush_ns: u64,
    last_flush: u64,
}

impl View for WriterLoop {
    type V = LoopState;

    closed spec fn view(&self) -> LoopState {
        LoopState {
            writer: self.writer@,
            stage: self.stage,
            expected: self.expected@,
            ended: self.ended@,
            flush_ns: self.flush_ns,
            last_flush: self.last_flush,
        }
    }
}

impl WriterLoop {
    /// Whether the parts of this value fit together.
    pub closed spec fn wf(&self) -> bool {
        &&& self.writer.wf()
        &&& self.stage == Stage::Writing <==> self@.writer.queue.len() > 0
    }

    /// A thread that is about to wait for its first message. Times are in nanoseconds.
    pub fn new(writer: RunWriter, expected: Vec<u32>, flush_ns: u64, now: u64) -> (r: Self)
        requires
            writer.wf(),
            writer@.queue.len() == 0,
        ensures
            r.wf(),
            r@ == (LoopState {
                writer: writer@,
                stage: Stage::Receiving,
                expected: expected@,
                ended: Set::empty(),
                flush_ns,
                last_flush: now,
            }),
    {
        WriterLoop {
            writer,
            stage: Stage::Receiving,
            expected,
            ended: HashSet::new(),
            flush_ns,
            last_flush: now,
        }
    }

    /// The writer.
    pub fn writer(&self) -> (writer: &RunWriter)
        requires
            self.wf(),
        ensures
            writer.wf(),
            writer@ == self@.writer,
    {
        &self.writer
    }

    /// What the thread does next.
    pub fn step(&self) -> (step: Step)
        requires
            self.wf(),
        ensures
            self@.is_next(step),
    {
        match self.stage {
            Stage::Receiving => Step::Receive,
            Stage::Writing => Step::Disk(self.writer.action()),
            Stage::Flushing => Step::Flush,
            Stage::Closing => match self.writer.to_close() {
                Some(key) => Step::Close(key),
                None => Step::Finish,
            },
        }
    }

    fn round_over(&mut self, now: u64)
        requires
            old(self)@.last_flush <= now,
        ensures
            final(self)@ == old(self)@.round_over(now),
            final(self).writer == old(self).writer,
    {
        if now - self.last_flush >= self.flush_ns {
            self.stage = Stage::Flushing;
        } else {
            self.stage = Stage::Receiving;
        }
    }

    fn go_on(&mut self, now: u64)
        requires
            old(self)@.last_flush <= now,
            old(self).writer.wf(),
        ensures
            final(self)@ == old(self)@.writing(now),
            final(self).wf(),
    {
        match self.writer.action() {
            WriterAction::Idle => self.round_over(now),
            _ => {
                self.stage = Stage::Writing;
            },
        }
    }

    fn have_all_ended(&self) -> (r: bool)
        ensures
            r == self@.all_ended(),
    {
        let mut i: usize = 0;
        while i < self.expected.len()
            invariant
                i <= self.expected@.len(),
                forall|k: int| 0 <= k < i ==> self.ended@.contains(#[trigger] self.expected@[k]),
            decreases self.expected@.len() - i,
        {
            if !self.ended.contains(&self.expected[i]) {
                assert(!self@.ended.contains(self@.expected[i as int]));
                return false;
            }
            i = i + 1;
        }
        true
    }

    /// Takes a message, or takes note that none came.
    pub fn arrived(&mut self, arrival: Arrival, now: u64)
        requires
            old(self).wf(),
            old(self)@.stage == Stage::Receiving,
            old(self)@.last_flush <= now,
            arrival matches Arrival::Data { source_id, sequence_number, .. }
                ==> old(self)@.writer.room_for_batch(source_id, sequence_number),
        ensures
            final(self).wf(),
            final(self)@ == old(self)@.after_arrival(arrival, now),
    {
        match arrival {
            Arrival::Stopped => {
                self.stage = Stage::Closing;
            },
            Arrival::Closed => {
                self.stage = Stage::Closing;
            },
            Arrival::Nothing => {
                self.round_over(now);
            },
            Arrival::Data { source_id, run_number, sequence_number, frames } => {
                self.writer.handle_batch(source_id, run_number, sequence_number, frames);
                self.go_on(now);
            },
            Arrival::EndOfStream { source_id, run_number } => {
                if run_number == self.writer.run_number {
                    self.ended.insert(source_id);
                }
                if self.have_all_ended() {
                    self.stage = Stage::Closing;
                } else {
                    self.round_over(now);
                }
            },
        }
    }

    /// Tells the writer what time it is.
    pub fn stamp(&mut self, ts: String)
        requires
            old(self).wf(),
            old(self)@.stage == Stage::Writing,
            old(self)@.writer.action() is Stamp,
        ensures
            final(self).wf(),
            final(self)@ == (LoopState {
                writer: old(self)@.writer.after_stamp(ts@),
                ..old(self)@
            }),
    {
        self.writer.stamp(ts);
    }

    /// Takes note that something was done to the disk, or could not be.
    pub fn disk_done(&mut self, ok: bool, now: u64)
        requires
            old(self).wf(),
            old(self)@.stage == Stage::Writing,
            !(old(self)@.writer.action() is Stamp),
            old(self)@.writer.room_for_step(),
            old(self)@.last_flush <= now,
        ensures
            final(self).wf(),
            final(self)@ == old(self)@.after_disk(ok, now),
    {
        self.writer.done(ok);
        if ok {
            self.go_on(now);
        } else {
            self.stage = Stage::Closing;
        }
    }

    /// Takes note that all open files were brought to the disk, or that one could not be.
    pub fn flushed(&mut self, ok: bool, now: u64)
        requires
            old(self).wf(),
            old(self)@.stage == Stage::Flushing,
            old(self)@.writer.write_errors < u64::MAX,
        ensures
            final(self).wf(),
            final(self)@ == old(self)@.after_flush(ok, now),
    {
        self.writer.flush_all(ok);
        self.stage = Stage::Receiving;
        self.last_flush = now;
    }

    /// Takes note that the first open file is closed, brought to the disk or not.
    pub fn file_closed(&mut self, ok: bool)
        requires
            old(self).wf(),
            old(self)@.stage == Stage::Closing,
            old(self)@.writer.open.len() > 0,
            old(self)@.writer.write_errors < u64::MAX,
        ensures
            final(self).wf(),
            final(self)@ == (LoopState {
                writer: old(self)@.writer.after_close(ok),
                ..old(self)@
            }),
    {
        self.writer.close_file(ok);
    }
}

} // verus!

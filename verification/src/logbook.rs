//! What is recorded of runs and of what operators ask for.
//!
//! A run whose start is recorded keeps its number, whatever happens later; a run that could not be
//! started gives its number back. Either way one entry says who asked for it and what came of it.

use sha2::{Digest, Sha256};

use vstd::prelude::*;

use crate::config::ConfigIds;
use crate::controller;
use crate::controller::{
    run_start_config_fields, ActiveRun, ControllerParams, Counters, ItemView, LinkItem, LinkView,
    OutputFile, Refusal, RouterLink,
};
use crate::geometry;
use crate::sequencer::{ArmRetry, RetryView, StartFailure, StartReport, StopReport};
use crate::text;
use crate::text::{hex_string, join_texts};

verus! {

// ---------------------------------------------------------------------
// The geometry of a run
// ---------------------------------------------------------------------

/// The SHA-256 digest of `data`, as `sha2::Sha256::digest` computes it.
pub uninterp spec fn sha256_of(data: Seq<u8>) -> Seq<u8>;

/// The text in `data`, as `String::from_utf8_lossy` reads it.
pub uninterp spec fn lossy_text_of(data: Seq<u8>) -> Seq<char>;

/// The most bytes whose number of bits fits in 64 bits.
pub const MAX_DIGEST_BYTES: u64 = 0x1FFF_FFFF_FFFF_FFFF;

/// Calls `sha2::Sha256::digest`. Its result depends on the data alone and has 32 bytes, the
/// output size that the type `Sha256` fixes. The digest counts the bits of the data in 64 bits:
/// longer data is left out.
#[verifier::external_body]
fn sha256(data: &[u8]) -> (digest: Vec<u8>)
    requires
        data@.len() <= MAX_DIGEST_BYTES,
    ensures
        digest@ == sha256_of(data@),
        digest@.len() == 32,
{
    Sha256::digest(data).to_vec()
}

/// Calls `String::from_utf8_lossy`, whose result depends on the data alone.
#[verifier::external_body]
fn lossy_text(data: &[u8]) -> (s: String)
    ensures
        s@ == lossy_text_of(data@),
{
    String::from_utf8_lossy(data).into_owned()
}

/// Which geometry file a run uses.
#[derive(Debug, Clone)]
pub struct GeometryRecord {
    pub path: String,
    /// The digest of the file, in hexadecimal digits.
    pub sha256: String,
}

/// The value of a [`GeometryRecord`].
pub struct GeometryView {
    pub path: Seq<char>,
    pub sha256: Seq<char>,
}

impl View for GeometryRecord {
    type V = GeometryView;

    open spec fn view(&self) -> GeometryView {
        GeometryView { path: self.path@, sha256: self.sha256@ }
    }
}

/// Whether the list holds the AsAd boards that a geometry file names: a fragment is expected from
/// each.
pub open spec fn are_expected(fragments: Seq<(u32, u32)>, content: Seq<char>) -> bool {
    geometry::lists_boards(fragments, geometry::reading(text::lines(content)).entries)
}

/// The AsAd boards that a geometry file names, in ascending order: a fragment is expected from
/// each.
pub fn expected_fragments(content: &str) -> (fragments: Vec<(u32, u32)>)
    requires
        geometry::fits(geometry::reading(text::lines(content@)).entries),
    ensures
        are_expected(fragments@, content@),
{
    geometry::parse(content).asad_inventory()
}

/// Whether a geometry file can be recorded: it is not too long, and the detector that it describes
/// can be laid out in memory.
pub open spec fn is_recordable(data: Seq<u8>) -> bool {
    data.len() <= MAX_DIGEST_BYTES && geometry::fits(
        geometry::reading(text::lines(lossy_text_of(data))).entries,
    )
}

/// What is recorded of a geometry file, and the fragments that are expected. `None` where it
/// cannot be recorded.
pub fn geometry_record(path: &str, data: &[u8]) -> (r: Option<(GeometryRecord, Vec<(u32, u32)>)>)
    ensures
        r is Some <==> is_recordable(data@),
        r matches Some(p) ==> p.0@ == (GeometryView {
            path: path@,
            sha256: text::hex(sha256_of(data@)),
        }) && are_expected(p.1@, lossy_text_of(data@)),
{
    if data.len() as u64 > MAX_DIGEST_BYTES {
        return None;
    }
    let content: String = lossy_text(data);
    if !geometry::fits_in_memory(content.as_str()) {
        return None;
    }
    let digest: Vec<u8> = sha256(data);
    let sha256: String = hex_string(digest.as_slice());
    Some(
        (
            GeometryRecord { path: path.to_string(), sha256 },
            expected_fragments(content.as_str()),
        ),
    )
}

// ---------------------------------------------------------------------
// Records
// ---------------------------------------------------------------------

/// What is recorded when a run has started.
#[derive(Debug, Clone)]
pub struct RunStartRecord {
    pub run: u32,
    pub config_id: String,
    /// The names for all three phases, where they differ.
    pub config_ids: Option<ConfigIds>,
    pub geometry: GeometryRecord,
    /// Number and listen address of each CoBo.
    pub cobos: Vec<(u32, String)>,
    pub operator: String,
    pub comment: String,
    pub expected_fragments: Vec<(u32, u32)>,
}

/// What is recorded when a run has started.
pub fn run_start_record(
    params: &ControllerParams,
    run: u32,
    operator: &str,
    comment: &str,
    geometry: GeometryRecord,
    expected_fragments: Vec<(u32, u32)>,
) -> (record: RunStartRecord)
    ensures
        record.run == run,
        match params.config_ids@.common() {
            Some(id) => record.config_id@ == id && record.config_ids is None,
            None => record.config_id@ == params.config_ids@.configure && (
            record.config_ids matches Some(all) && all@ == params.config_ids@),
        },
        record.geometry == geometry,
        record.cobos@.map_values(|p: (u32, String)| (p.0, p.1@))
            == params.cobo_views().map_values(|c: controller::CoboView| (c.id, c.listen)),
        record.operator@ == operator@,
        record.comment@ == comment@,
        record.expected_fragments == expected_fragments,
{
    let (config_id, config_ids) = run_start_config_fields(&params.config_ids);
    RunStartRecord {
        run,
        config_id,
        config_ids,
        geometry,
        cobos: params.cobo_listens(),
        operator: operator.to_string(),
        comment: comment.to_string(),
        expected_fragments,
    }
}

/// What is recorded when a run was stopped. How long it took is added when it is written.
#[derive(Debug, Clone)]
pub struct RunStopRecord {
    pub run: u32,
    pub ok: bool,
    pub reason: String,
    pub counters: Counters,
    pub files: Vec<OutputFile>,
}

/// The number of a run that is stopped; 0 where none is known.
pub open spec fn stopped_run(active: Option<ActiveRun>) -> u32 {
    match active {
        Some(a) => a.run,
        None => 0,
    }
}

/// What is recorded when a run was stopped.
pub fn run_stop_record(active: &Option<ActiveRun>, report: StopReport) -> (record: RunStopRecord)
    ensures
        record.run == stopped_run(*active),
        record.ok == report.ok,
        record.reason == report.reason,
        record.counters == report.counters,
        record.files == report.files,
{
    let run: u32 = match active {
        Some(a) => a.run,
        None => 0,
    };
    RunStopRecord {
        run,
        ok: report.ok,
        reason: report.reason,
        counters: report.counters,
        files: report.files,
    }
}

/// A value in an entry.
#[derive(Debug, Clone)]
pub enum AuditValue {
    Text(String),
    Uint(u64),
    Bool(bool),
    Texts(Vec<String>),
    Links(Vec<RouterLink>),
    Retries(Vec<ArmRetry>),
    Items(Vec<LinkItem>),
    /// Something that was sent, as it is written.
    Sent(String),
    /// Nothing.
    Null,
}

/// The value of an [`AuditValue`].
pub enum AuditView {
    Text(Seq<char>),
    Uint(u64),
    Bool(bool),
    Texts(Seq<Seq<char>>),
    Links(Seq<LinkView>),
    Retries(Seq<RetryView>),
    Items(Seq<ItemView>),
    Sent(Seq<char>),
    Null,
}

impl View for AuditValue {
    type V = AuditView;

    open spec fn view(&self) -> AuditView {
        match self {
            AuditValue::Text(s) => AuditView::Text(s@),
            AuditValue::Uint(n) => AuditView::Uint(*n),
            AuditValue::Bool(b) => AuditView::Bool(*b),
            AuditValue::Texts(t) => AuditView::Texts(text::values(t@)),
            AuditValue::Links(l) => AuditView::Links(l@.map_values(|l: RouterLink| l@)),
            AuditValue::Retries(r) => AuditView::Retries(r@.map_values(|r: ArmRetry| r@)),
            AuditValue::Items(i) => AuditView::Items(i@.map_values(|i: LinkItem| i@)),
            AuditValue::Sent(s) => AuditView::Sent(s@),
            AuditValue::Null => AuditView::Null,
        }
    }
}

/// Who asked for what, and what came of it.
#[derive(Debug, Clone)]
pub struct AuditEntry {
    pub action: String,
    pub params: Vec<(String, AuditValue)>,
    pub operator: String,
    pub ok: bool,
    pub error: Option<String>,
}

/// The value of an [`AuditEntry`].
pub struct EntryView {
    pub action: Seq<char>,
    pub params: Seq<(Seq<char>, AuditView)>,
    pub operator: Seq<char>,
    pub ok: bool,
    pub error: Option<Seq<char>>,
}

/// The values of the parameters of an entry.
pub open spec fn param_views(params: Seq<(String, AuditValue)>) -> Seq<(Seq<char>, AuditView)> {
    params.map_values(|p: (String, AuditValue)| (p.0@, p.1@))
}

impl View for AuditEntry {
    type V = EntryView;

    open spec fn view(&self) -> EntryView {
        EntryView {
            action: self.action@,
            params: param_views(self.params@),
            operator: self.operator@,
            ok: self.ok,
            error: controller::text_of(self.error),
        }
    }
}

/// Who is named where nobody may be.
pub const NOBODY: &'static str = "<unauthorized>";

/// The entry for a request that is turned down. Where the token did not count, nobody is named.
pub fn refused(
    action: &str,
    params: Vec<(String, AuditValue)>,
    operator: &str,
    refusal: &Refusal,
) -> (entry: AuditEntry)
    ensures
        entry@ == (EntryView {
            action: action@,
            params: param_views(params@),
            operator: if refusal@ is Unauthorized {
                NOBODY@
            } else {
                operator@
            },
            ok: false,
            error: Some(refusal@.why_of()),
        }),
{
    let unauthorized: bool = match refusal {
        Refusal::Unauthorized(_) => true,
        _ => false,
    };
    AuditEntry {
        action: action.to_string(),
        params,
        operator: if unauthorized {
            NOBODY.to_string()
        } else {
            operator.to_string()
        },
        ok: false,
        error: Some(refusal.why().clone()),
    }
}

/// The entry for a run that has started.
pub fn run_started(report: StartReport, comment: &str, operator: &str) -> (entry: AuditEntry)
    ensures
        entry@ == (EntryView {
            action: "run/start"@,
            params: seq![
                ("run"@, AuditView::Uint(report.run as u64)),
                ("comment"@, AuditView::Text(comment@)),
                ("links"@, AuditView::Links(report.links@.map_values(|l: RouterLink| l@))),
                (
                    "arm_retries"@,
                    AuditView::Retries(report.arm_retries@.map_values(|r: ArmRetry| r@)),
                ),
                ("ecc_state_after_reset"@, AuditView::Text(report.ecc_state_after_reset@)),
                ("ecc_walk_back"@, AuditView::Texts(text::values(report.ecc_walk_back@))),
            ],
            operator: operator@,
            ok: true,
            error: None,
        }),
{
    let mut params: Vec<(String, AuditValue)> = Vec::new();
    params.push(("run".to_string(), AuditValue::Uint(report.run as u64)));
    params.push(("comment".to_string(), AuditValue::Text(comment.to_string())));
    params.push(("links".to_string(), AuditValue::Links(report.links)));
    params.push(("arm_retries".to_string(), AuditValue::Retries(report.arm_retries)));
    params.push(
        ("ecc_state_after_reset".to_string(), AuditValue::Text(report.ecc_state_after_reset)),
    );
    params.push(("ecc_walk_back".to_string(), AuditValue::Texts(report.ecc_walk_back)));
    let entry = AuditEntry {
        action: "run/start".to_string(),
        params,
        operator: operator.to_string(),
        ok: true,
        error: None,
    };
    assert(entry@.params =~= seq![
        ("run"@, AuditView::Uint(report.run as u64)),
        ("comment"@, AuditView::Text(comment@)),
        ("links"@, AuditView::Links(report.links@.map_values(|l: RouterLink| l@))),
        ("arm_retries"@, AuditView::Retries(report.arm_retries@.map_values(|r: ArmRetry| r@))),
        ("ecc_state_after_reset"@, AuditView::Text(report.ecc_state_after_reset@)),
        ("ecc_walk_back"@, AuditView::Texts(text::values(report.ecc_walk_back@))),
    ]);
    entry
}

/// The entry for a run that was not started although it had a number.
pub fn run_not_started(
    failure: &StartFailure,
    run: u32,
    comment: &str,
    rewound: bool,
    operator: &str,
) -> (entry: AuditEntry)
    ensures
        entry@ == (EntryView {
            action: "run/start"@,
            params: seq![
                ("run"@, AuditView::Uint(run as u64)),
                ("comment"@, AuditView::Text(comment@)),
                ("stage"@, AuditView::Text(failure@.stage)),
                ("next_run_rewound"@, AuditView::Bool(rewound)),
            ],
            operator: operator@,
            ok: false,
            error: Some(failure@.text()),
        }),
{
    let mut params: Vec<(String, AuditValue)> = Vec::new();
    params.push(("run".to_string(), AuditValue::Uint(run as u64)));
    params.push(("comment".to_string(), AuditValue::Text(comment.to_string())));
    params.push(("stage".to_string(), AuditValue::Text(failure.stage.to_string())));
    params.push(("next_run_rewound".to_string(), AuditValue::Bool(rewound)));
    let entry = AuditEntry {
        action: "run/start".to_string(),
        params,
        operator: operator.to_string(),
        ok: false,
        error: Some(failure.text()),
    };
    assert(entry@.params =~= seq![
        ("run"@, AuditView::Uint(run as u64)),
        ("comment"@, AuditView::Text(comment@)),
        ("stage"@, AuditView::Text(failure@.stage)),
        ("next_run_rewound"@, AuditView::Bool(rewound)),
    ]);
    entry
}

/// The entry for a run that was not started and had no number.
pub fn run_not_numbered(detail: &str, comment: &str, operator: &str) -> (entry: AuditEntry)
    ensures
        entry@ == (EntryView {
            action: "run/start"@,
            params: seq![("comment"@, AuditView::Text(comment@))],
            operator: operator@,
            ok: false,
            error: Some(detail@),
        }),
{
    let mut params: Vec<(String, AuditValue)> = Vec::new();
    params.push(("comment".to_string(), AuditValue::Text(comment.to_string())));
    let entry = AuditEntry {
        action: "run/start".to_string(),
        params,
        operator: operator.to_string(),
        ok: false,
        error: Some(detail.to_string()),
    };
    assert(entry@.params =~= seq![("comment"@, AuditView::Text(comment@))]);
    entry
}

/// The entry for a run that was stopped.
pub fn run_stopped(report: &StopReport, run: u32, operator: &str) -> (entry: AuditEntry)
    ensures
        entry@ == (EntryView {
            action: "run/stop"@,
            params: seq![
                ("run"@, AuditView::Uint(run as u64)),
                ("reason"@, AuditView::Text(report.reason@)),
                ("forced_eos"@, AuditView::Bool(report.forced_eos)),
                ("eos_closed"@, AuditView::Bool(report.eos_closed)),
            ],
            operator: operator@,
            ok: report.ok,
            error: if report.notes@.len() == 0 {
                None
            } else {
                Some(text::join(text::values(report.notes@), "; "@))
            },
        }),
{
    let mut params: Vec<(String, AuditValue)> = Vec::new();
    params.push(("run".to_string(), AuditValue::Uint(run as u64)));
    params.push(("reason".to_string(), AuditValue::Text(report.reason.clone())));
    params.push(("forced_eos".to_string(), AuditValue::Bool(report.forced_eos)));
    params.push(("eos_closed".to_string(), AuditValue::Bool(report.eos_closed)));
    let entry = AuditEntry {
        action: "run/stop".to_string(),
        params,
        operator: operator.to_string(),
        ok: report.ok,
        error: if report.notes.len() == 0 {
            None
        } else {
            Some(join_texts(&report.notes, "; "))
        },
    };
    assert(entry@.params =~= seq![
        ("run"@, AuditView::Uint(run as u64)),
        ("reason"@, AuditView::Text(report.reason@)),
        ("forced_eos"@, AuditView::Bool(report.forced_eos)),
        ("eos_closed"@, AuditView::Bool(report.eos_closed)),
    ]);
    entry
}

// ---------------------------------------------------------------------
// The order of things at the start of a run
// ---------------------------------------------------------------------

/// What is done at the start of a run.
#[derive(Debug, Clone, Copy, PartialEq, Eq, Structural)]
pub enum StartStep {
    /// Read the geometry file.
    ReadGeometry,
    /// Take the number of the run.
    TakeRun,
    /// Run through the sequence.
    Sequence,
    /// Record that the run has started.
    Record,
    /// Write the entry for a run that has started.
    AuditStarted,
    /// Give the number back.
    Rewind,
    /// Write the entry for a run that was not started although it had a number.
    AuditFailed,
    /// Write the entry for a run that was not started and had no number.
    AuditEarly,
    /// The run is on.
    Started,
    /// No run is on.
    Failed,
}

/// What is done after a step that worked, or did not.
pub open spec fn step_after(step: StartStep, ok: bool) -> StartStep {
    match step {
        StartStep::ReadGeometry => if ok {
            StartStep::TakeRun
        } else {
            StartStep::AuditEarly
        },
        StartStep::TakeRun => if ok {
            StartStep::Sequence
        } else {
            StartStep::AuditEarly
        },
        StartStep::Sequence => if ok {
            StartStep::Record
        } else {
            StartStep::Rewind
        },
        StartStep::Record => StartStep::AuditStarted,
        StartStep::AuditStarted => StartStep::Started,
        StartStep::Rewind => StartStep::AuditFailed,
        StartStep::AuditFailed => StartStep::Failed,
        StartStep::AuditEarly => StartStep::Failed,
        StartStep::Started => StartStep::Started,
        StartStep::Failed => StartStep::Failed,
    }
}

impl StartStep {
    /// What is done after this step, whether it worked or not.
    pub fn next(self, ok: bool) -> (step: StartStep)
        ensures
            step == step_after(self, ok),
    {
        match self {
            StartStep::ReadGeometry => if ok {
                StartStep::TakeRun
            } else {
                StartStep::AuditEarly
            },
            StartStep::TakeRun => if ok {
                StartStep::Sequence
            } else {
                StartStep::AuditEarly
            },
            StartStep::Sequence => if ok {
                StartStep::Record
            } else {
                StartStep::Rewind
            },
            StartStep::Record => StartStep::AuditStarted,
            StartStep::AuditStarted => StartStep::Started,
            StartStep::Rewind => StartStep::AuditFailed,
            StartStep::AuditFailed => StartStep::Failed,
            StartStep::AuditEarly => StartStep::Failed,
            StartStep::Started => StartStep::Started,
            StartStep::Failed => StartStep::Failed,
        }
    }
}

/// The steps that a start takes, where the k-th works or not as `ok[k]` says.
pub open spec fn steps(ok: Seq<bool>) -> Seq<StartStep>
    decreases ok.len(),
{
    if ok.len() == 0 {
        seq![StartStep::ReadGeometry]
    } else {
        let before = steps(ok.drop_last());
        before.push(step_after(before.last(), ok.last()))
    }
}

/// Whether a step writes an entry.
pub open spec fn is_audit(step: StartStep) -> bool {
    step == StartStep::AuditStarted || step == StartStep::AuditFailed || step
        == StartStep::AuditEarly
}

/// A run whose start is recorded never has its number given back, and a number that is given back
/// was never recorded. No start writes two entries.
pub proof fn law_a_recorded_number_is_kept(ok: Seq<bool>, i: int, j: int)
    requires
        0 <= i < j < steps(ok).len(),
    ensures
        !(steps(ok)[i] == StartStep::Record && steps(ok)[j] == StartStep::Rewind),
        !(steps(ok)[i] == StartStep::Rewind && steps(ok)[j] == StartStep::Record),
        !(is_audit(steps(ok)[i]) && is_audit(steps(ok)[j])),
    decreases ok.len(),
{
    let before = steps(ok.drop_last());
    if j < before.len() {
        law_a_recorded_number_is_kept(ok.drop_last(), i, j);
    } else {
        lemma_rank_grows(ok, i, j);
    }
}

/// Every start that is over has written an entry.
pub proof fn law_every_start_is_told(ok: Seq<bool>) -> (i: int)
    requires
        steps(ok).last() == StartStep::Started || steps(ok).last() == StartStep::Failed,
    ensures
        0 <= i < steps(ok).len(),
        is_audit(steps(ok)[i]),
    decreases ok.len(),
{
    let before = steps(ok.drop_last());
    lemma_steps_len(ok.drop_last());
    if is_audit(before.last()) {
        before.len() - 1
    } else {
        law_every_start_is_told(ok.drop_last())
    }
}

/// How far along a step is on its way, by the branch that it is on.
spec fn far(step: StartStep) -> int {
    match step {
        StartStep::ReadGeometry => 0,
        StartStep::TakeRun => 1,
        StartStep::Sequence => 2,
        StartStep::Record => 10,
        StartStep::AuditStarted => 11,
        StartStep::Started => 12,
        StartStep::Rewind => 20,
        StartStep::AuditFailed => 21,
        StartStep::AuditEarly => 30,
        StartStep::Failed => 40,
    }
}

spec fn leads_to(a: StartStep, b: StartStep) -> bool {
    match a {
        StartStep::ReadGeometry => b != StartStep::ReadGeometry,
        StartStep::TakeRun => far(b) > 1,
        StartStep::Sequence => far(b) > 2 && b != StartStep::AuditEarly,
        StartStep::Record => b == StartStep::AuditStarted || b == StartStep::Started,
        StartStep::AuditStarted => b == StartStep::Started,
        StartStep::Started => b == StartStep::Started,
        StartStep::Rewind => b == StartStep::AuditFailed || b == StartStep::Failed,
        StartStep::AuditFailed => b == StartStep::Failed,
        StartStep::AuditEarly => b == StartStep::Failed,
        StartStep::Failed => b == StartStep::Failed,
    }
}

proof fn lemma_rank_grows(ok: Seq<bool>, i: int, j: int)
    requires
        0 <= i < j < steps(ok).len(),
    ensures
        leads_to(steps(ok)[i], steps(ok)[j]),
    decreases j,
{
    lemma_steps_len(ok);
    lemma_step_follows(ok, j);
    if i < j - 1 {
        lemma_rank_grows(ok, i, j - 1);
    }
}

proof fn lemma_steps_len(ok: Seq<bool>)
    ensures
        steps(ok).len() == ok.len() + 1,
    decreases ok.len(),
{
    if ok.len() > 0 {
        lemma_steps_len(ok.drop_last());
    }
}

proof fn lemma_step_follows(ok: Seq<bool>, j: int)
    requires
        0 < j < steps(ok).len(),
    ensures
        steps(ok)[j] == step_after(steps(ok)[j - 1], ok[j - 1]),
    decreases ok.len(),
{
    lemma_steps_len(ok);
    if ok.len() > 0 {
        lemma_steps_len(ok.drop_last());
        if j < steps(ok).len() - 1 {
            lemma_step_follows(ok.drop_last(), j);
        }
    }
}

// ---------------------------------------------------------------------
// Records that others send
// ---------------------------------------------------------------------

/// What came of a message that should hold a record.
#[derive(Debug, Clone, Copy, PartialEq, Eq, Structural)]
pub enum Post {
    /// It holds no record.
    NoRecord,
    /// Its record could not be written.
    NotWritten,
    /// Its record was written.
    Written,
}

/// How many messages brought a record, and how many did not.
#[derive(Debug, Clone, Copy, PartialEq, Eq, Structural)]
pub struct LogPosts {
    pub accepted: u64,
    pub rejected: u64,
}

impl LogPosts {
    /// The counts once `post` has come.
    pub open spec fn after(self, post: Post) -> LogPosts {
        if post == Post::Written {
            LogPosts { accepted: (self.accepted + 1) as u64, ..self }
        } else {
            LogPosts { rejected: (self.rejected + 1) as u64, ..self }
        }
    }

    /// The counts once all posts have come.
    pub open spec fn after_all(self, posts: Seq<Post>) -> LogPosts
        decreases posts.len(),
    {
        if posts.len() == 0 {
            self
        } else {
            self.after_all(posts.drop_last()).after(posts.last())
        }
    }

    /// Nothing has come.
    pub fn new() -> (posts: Self)
        ensures
            posts == (LogPosts { accepted: 0, rejected: 0 }),
    {
        LogPosts { accepted: 0, rejected: 0 }
    }

    /// Takes in what came of a message.
    pub fn count(&mut self, post: Post)
        requires
            old(self).accepted < u64::MAX,
            old(self).rejected < u64::MAX,
        ensures
            *final(self) == old(self).after(post),
    {
        match post {
            Post::Written => {
                self.accepted = self.accepted + 1;
            },
            Post::NoRecord | Post::NotWritten => {
                self.rejected = self.rejected + 1;
            },
        }
    }
}

/// Every message counts once: as accepted where its record was written, and as rejected where it
/// was not.
pub proof fn law_every_message_counts_once(posts: Seq<Post>)
    requires
        posts.len() <= u64::MAX,
    ensures
        ({
            let counts = (LogPosts { accepted: 0, rejected: 0 }).after_all(posts);
            &&& counts.accepted + counts.rejected == posts.len()
            &&& counts.accepted == posts.filter(|p: Post| p == Post::Written).len()
        }),
    decreases posts.len(),
{
    let written = |p: Post| p == Post::Written;
    reveal(Seq::filter);
    if posts.len() > 0 {
        law_every_message_counts_once(posts.drop_last());
        let before = (LogPosts { accepted: 0, rejected: 0 }).after_all(posts.drop_last());
        assert(before.accepted + before.rejected == posts.len() - 1);
        assert(posts.filter(written) == if posts.last() == Post::Written {
            posts.drop_last().filter(written).push(posts.last())
        } else {
            posts.drop_last().filter(written)
        });
    }
}

} // verus!

//! An endurance test from its first run to its verdict.
//!
//! ```text
//!   Acquire -> Clock -> Start -> Address -> Replay -> Metrics -> Stop -> Evidence -> Health
//!                ^ |                                                                    |
//!                | +-> Probe -> Sampler -> ShutDown -> Report -> Over                   v
//!                |       ^        ^                                                  Remove
//!                |       |        +--- anything that fails                              |
//!                +-------+-------------------------------------------------- Flags <----+
//! ```
//!
//! Whatever goes wrong, the processes are shut down and the report is written. The files of a run
//! are removed only where the run passed.

use vstd::prelude::*;

use crate::command;
use crate::command::Metrics;
use crate::soak;
use crate::soak::{
    below_floor, check_rss, check_run, count_entries, count_laps, has_all_metrics, is_last_run,
    parse_replayed, verify_final, RunEvidence, Snapshot, SnapshotView, EVENTS_PER_LAP,
    GRAW_BYTES_PER_LAP,
};
use crate::text;
use crate::text::{push_decimal, push_padded, same};

verus! {

/// What is to be done next.
#[derive(Debug, Clone, Copy, PartialEq, Eq, Structural)]
pub enum Stage {
    /// Take control.
    Acquire,
    /// Look whether there is time for another run.
    Clock,
    /// Start a run.
    Start,
    /// Ask where the receiver listens.
    Address,
    /// Send the recorded file, lap after lap.
    Replay,
    /// Ask for the counters, until every component reports.
    Metrics,
    /// Stop the run.
    Stop,
    /// Collect what the run has left behind.
    Evidence,
    /// Look whether the processes and the disk are well.
    Health,
    /// Remove the files of the run.
    Remove,
    /// Look whether the test is to stop.
    Flags,
    /// Look whether the monitor has sent anything.
    Probe,
    /// Stop sampling.
    Sampler,
    /// Stop the processes.
    ShutDown,
    /// Write the report.
    Report,
    /// Nothing: the test is over.
    Over,
}

/// What a run came to.
#[derive(Debug, Clone)]
pub struct RunResult {
    pub run: u32,
    pub laps: u64,
    pub replayed_bytes: u64,
    pub graw_bytes: u64,
    pub entries: u64,
    /// How long it took in seconds, as it is written.
    pub seconds: String,
}

/// The value of a [`RunResult`].
pub struct ResultView {
    pub run: u32,
    pub laps: u64,
    pub replayed_bytes: u64,
    pub graw_bytes: u64,
    pub entries: u64,
    pub seconds: Seq<char>,
}

impl View for RunResult {
    type V = ResultView;

    open spec fn view(&self) -> ResultView {
        ResultView {
            run: self.run,
            laps: self.laps,
            replayed_bytes: self.replayed_bytes,
            graw_bytes: self.graw_bytes,
            entries: self.entries,
            seconds: self.seconds@,
        }
    }
}

impl ResultView {
    /// Whether whole laps were sent.
    pub open spec fn is_laps(self) -> bool {
        &&& self.laps > 0
        &&& self.replayed_bytes == self.laps * GRAW_BYTES_PER_LAP
    }

    /// Whether every event and every byte that was sent is found again.
    pub open spec fn is_complete(self) -> bool {
        &&& self.is_laps()
        &&& self.entries == self.laps * EVENTS_PER_LAP
        &&& self.graw_bytes == self.replayed_bytes
    }
}

/// The values of results.
pub open spec fn result_views(results: Seq<RunResult>) -> Seq<ResultView> {
    results.map_values(|r: RunResult| r@)
}

/// The laps of all runs.
pub open spec fn total_laps(results: Seq<ResultView>) -> nat
    decreases results.len(),
{
    if results.len() == 0 {
        0
    } else {
        total_laps(results.drop_last()) + results.last().laps as nat
    }
}

/// The bytes that all runs sent.
pub open spec fn total_bytes(results: Seq<ResultView>) -> nat
    decreases results.len(),
{
    if results.len() == 0 {
        0
    } else {
        total_bytes(results.drop_last()) + results.last().replayed_bytes as nat
    }
}

proof fn lemma_totals_grow(results: Seq<ResultView>, n: int)
    requires
        0 <= n <= results.len(),
    ensures
        total_laps(results.take(n)) <= total_laps(results),
        total_bytes(results.take(n)) <= total_bytes(results),
    decreases results.len() - n,
{
    if n < results.len() {
        lemma_totals_grow(results, n + 1);
        assert(results.take(n + 1).drop_last() =~= results.take(n));
    } else {
        assert(results.take(n) =~= results);
    }
}

/// The laps and the bytes of all runs; `None` where they do not fit.
pub fn totals(results: &Vec<RunResult>) -> (r: Option<(u64, u64)>)
    ensures
        match r {
            Some((laps, bytes)) => laps == total_laps(result_views(results@)) && bytes
                == total_bytes(result_views(results@)),
            None => total_laps(result_views(results@)) > u64::MAX || total_bytes(
                result_views(results@),
            ) > u64::MAX,
        },
{
    let ghost all = result_views(results@);
    let mut laps: u64 = 0;
    let mut bytes: u64 = 0;
    let mut i: usize = 0;
    assert(all.take(0) =~= Seq::empty());
    while i < results.len()
        invariant
            i <= results@.len(),
            all == result_views(results@),
            laps == total_laps(all.take(i as int)),
            bytes == total_bytes(all.take(i as int)),
        decreases results@.len() - i,
    {
        proof {
            assert(all.take(i + 1).drop_last() =~= all.take(i as int));
            assert(all.take(i + 1).last() == results@[i as int]@);
            lemma_totals_grow(all, i + 1);
        }
        match (laps.checked_add(results[i].laps), bytes.checked_add(results[i].replayed_bytes)) {
            (Some(l), Some(b)) => {
                laps = l;
                bytes = b;
            },
            _ => {
                return None;
            },
        }
        i = i + 1;
    }
    assert(all.take(i as int) =~= all);
    Some((laps, bytes))
}

/// How the directory of a run is named.
pub fn run_name(run: u32) -> (s: String)
    ensures
        s@ == "run"@ + text::padded(run as nat, 4),
{
    let mut s: String = "run".to_string();
    push_padded(&mut s, run as u64, 4);
    s
}

/// What a run has left behind.
#[derive(Debug)]
pub struct Left {
    /// Where the last process writes what it has to say; `None` where there is no such process.
    pub sink_log: Option<String>,
    /// The file of pictures of a run, which is made last.
    pub monitor_file: String,
    pub monitor_made: bool,
    /// The file of events of a run.
    pub root_file: String,
    pub root_made: bool,
    /// The lines that say that a file of events is finished.
    pub lines: Vec<String>,
    /// What those of this run hold.
    pub prefix: String,
    /// The bytes in the files of raw frames.
    pub graw_bytes: u64,
    /// The lines in which the last process gave up, as they are shown; none where it did not.
    pub fatals: Option<String>,
    /// How long the run took in seconds, as it is written.
    pub seconds: String,
}

impl Left {
    /// The events in the files of events.
    pub open spec fn entries(&self) -> nat {
        soak::entries_in(text::values(self.lines@), self.prefix@)
    }

    /// What the run has to be judged by.
    pub open spec fn evidence(&self, current: ResultView) -> RunEvidence {
        RunEvidence {
            run: current.run,
            laps: current.laps,
            replayed_bytes: current.replayed_bytes,
            entries: self.entries() as u64,
            graw_bytes: self.graw_bytes,
            fatals: self.fatals,
        }
    }

    /// Why the run does not pass, if it does not.
    pub open spec fn problem(&self, current: ResultView, status: SnapshotView) -> Option<Seq<char>> {
        match self.sink_log {
            None => Some("root_sink が居ない"@),
            Some(log) => if !self.monitor_made {
                Some(self.monitor_file@ + " が出来なかった(log = "@ + log@ + ")"@)
            } else if !self.root_made {
                Some(self.root_file@ + " が無い"@)
            } else {
                soak::run_problem(self.evidence(current), status)
            },
        }
    }
}

/// How the processes and the disk are.
#[derive(Debug)]
pub struct Health {
    /// The first process that has ended, and where it writes what it has to say.
    pub dead: Option<(String, String)>,
    /// The memory of each process in kibibytes, where it is known.
    pub procs: Vec<(String, Option<u64>)>,
    /// The free space on the disk in kibibytes, where it is known.
    pub free_kib: Option<u64>,
    /// The free space on the disk in gibibytes, as it is written.
    pub free_shown: String,
}

impl Health {
    /// Why the test does not go on, if it does not.
    pub open spec fn problem(
        &self,
        run: u32,
        rss_limit_mib: u64,
        min_free_gib: u64,
    ) -> Option<Seq<char>> {
        let hog = soak::first_hog(self.procs@, rss_limit_mib, 0);
        match self.dead {
            Some((name, log)) => Some(name@ + " が走行中に落ちた(log = "@ + log@ + ")"@),
            None => if hog < self.procs@.len() {
                Some(
                    self.procs@[hog].0@ + " の RSS が "@ + text::decimal(
                        (self.procs@[hog].1->0 / 1024) as nat,
                    ) + " MiB(上限 "@ + text::decimal(rss_limit_mib as nat)
                        + " MiB)を超えた"@,
                )
            } else if self.free_kib matches Some(kib) && kib < min_free_gib * 1024 * 1024 {
                Some(
                    "空きディスク "@ + self.free_shown@ + " GiB が床 "@ + text::decimal(
                        min_free_gib as nat,
                    ) + " GiB を割った(run "@ + text::decimal(run as nat) + " の直後)"@,
                )
            } else {
                None
            },
        }
    }
}

/// What came of what was to be done. What is said of a thing `shown` is how the whole of it is
/// written.
#[derive(Debug)]
pub enum Event {
    /// It could not be done, and why.
    Failed(String),
    /// Control was taken, with or without a token.
    Acquired { token: bool },
    Clock { time_left: bool, interrupted: bool },
    Started { run: Option<u64>, shown: String },
    Address { address: Option<String>, shown: String },
    /// How the replay ended, unless well, and what it printed.
    Replayed { failed: Option<String>, printed: String, shown: String },
    /// What the components report, where they could be asked, and whether the time to ask is over.
    Polled { status: Option<(Snapshot, String)>, expired: bool },
    Stopped { ok: bool, reason: Option<String>, shown: String },
    Left(Left),
    Health(Health),
    Removed,
    Flags { interrupted: bool, stop: bool },
    Probed { messages: u64 },
    SamplerStopped,
    /// What the last process said at its end, where that could be read.
    ShutDown { counts: Option<Metrics>, shown: String, fatal_shown: String },
    /// Why the report could not be written, unless it was.
    Reported(Option<String>),
}

/// What the test is limited to.
#[derive(Debug, Clone, Copy)]
pub struct Limits {
    /// The most runs that are made.
    pub max_runs: Option<u64>,
    /// The most memory that a process may use.
    pub rss_limit_mib: u64,
    /// The free space on the disk that is never used.
    pub min_free_gib: u64,
    /// Whether the files of runs that passed stay.
    pub keep_outputs: bool,
}

/// The value of a [`Harness`].
pub struct HarnessView {
    pub limits: Limits,
    pub stage: Stage,
    /// What is known of the run.
    pub current: ResultView,
    /// Where the receiver listens.
    pub address: Seq<char>,
    /// What was reported last, as it is written.
    pub last: Seq<char>,
    /// What was reported before the run was stopped.
    pub status: SnapshotView,
    /// The runs that passed.
    pub results: Seq<ResultView>,
    /// Why the runs came to an end before their time, if they did.
    pub failure: Option<Seq<char>>,
    /// Why the test does not pass, if it does not.
    pub verdict: Option<Seq<char>>,
}

/// The value of what the last process said.
pub open spec fn counts_view(counts: Option<Metrics>) -> Option<
    Seq<(Seq<char>, command::MetricView)>,
> {
    match counts {
        Some(c) => Some(c@),
        None => None,
    }
}

/// A run of which nothing is known.
pub open spec fn no_run() -> ResultView {
    ResultView {
        run: 0,
        laps: 0,
        replayed_bytes: 0,
        graw_bytes: 0,
        entries: 0,
        seconds: Seq::empty(),
    }
}

impl HarnessView {
    /// The test at its beginning.
    pub open spec fn fresh(limits: Limits) -> HarnessView {
        HarnessView {
            limits,
            stage: Stage::Acquire,
            current: no_run(),
            address: Seq::empty(),
            last: Seq::empty(),
            status: SnapshotView { components: Seq::empty(), monitor: None },
            results: Seq::empty(),
            failure: None,
            verdict: None,
        }
    }

    /// The test once something has failed.
    pub open spec fn failed(self, why: Seq<char>) -> HarnessView {
        HarnessView { stage: Stage::Sampler, failure: Some(why), ..self }
    }

    /// Whether `event` can come of what was to be done.
    pub open spec fn meets(self, event: Event) -> bool {
        match event {
            Event::Failed(_) => {
                ||| self.stage == Stage::Acquire
                ||| self.stage == Stage::Start
                ||| self.stage == Stage::Address
                ||| self.stage == Stage::Replay
                ||| self.stage == Stage::Stop
                ||| self.stage == Stage::Remove
            },
            Event::Acquired { .. } => self.stage == Stage::Acquire,
            Event::Clock { .. } => self.stage == Stage::Clock,
            Event::Started { .. } => self.stage == Stage::Start,
            Event::Address { .. } => self.stage == Stage::Address,
            Event::Replayed { .. } => self.stage == Stage::Replay,
            Event::Polled { .. } => self.stage == Stage::Metrics,
            Event::Stopped { .. } => self.stage == Stage::Stop,
            Event::Left(left) => self.stage == Stage::Evidence && left.entries() <= u64::MAX,
            Event::Health(_) => self.stage == Stage::Health,
            Event::Removed => self.stage == Stage::Remove,
            Event::Flags { .. } => self.stage == Stage::Flags,
            Event::Probed { .. } => self.stage == Stage::Probe,
            Event::SamplerStopped => self.stage == Stage::Sampler,
            Event::ShutDown { .. } => self.stage == Stage::ShutDown && total_laps(self.results)
                * EVENTS_PER_LAP <= u64::MAX,
            Event::Reported(_) => self.stage == Stage::Report,
        }
    }

    /// The test once the recorded file was sent.
    pub open spec fn replayed(
        self,
        failed: Option<String>,
        printed: Seq<char>,
        shown: Seq<char>,
    ) -> HarnessView {
        match failed {
            Some(how) => self.failed("graw_replay が失敗した: "@ + how@),
            None => match soak::word_number(printed, 1, u64::MAX as nat) {
                None => self.failed("graw_replay の stdout が読めない: "@ + shown),
                Some(bytes) => match soak::laps_of(bytes as u64) {
                    None => self.failed(soak::no_laps(bytes as u64)),
                    Some(laps) => HarnessView {
                        stage: Stage::Metrics,
                        current: ResultView {
                            laps,
                            replayed_bytes: bytes as u64,
                            ..self.current
                        },
                        last: "null"@,
                        ..self
                    },
                },
            },
        }
    }

    /// The test once the components were asked for their counters.
    pub open spec fn polled(self, status: Option<(Snapshot, String)>, expired: bool) -> HarnessView {
        let last = match status {
            Some((_, shown)) => shown@,
            None => self.last,
        };
        if status matches Some((s, _)) && soak::all_report(s@) {
            HarnessView { stage: Stage::Stop, status: (status->0).0@, ..self }
        } else if expired {
            HarnessView { last, ..self }.failed(
                "/api/status が 30s 以内に 3 コンポーネント分の metrics を揃えなかった: "@ + last,
            )
        } else {
            HarnessView { last, ..self }
        }
    }

    /// The test once the run has passed and its files need not be looked at any more.
    pub open spec fn counted(self) -> HarnessView {
        HarnessView { stage: Stage::Flags, results: self.results.push(self.current), ..self }
    }

    /// The test once `event` has happened.
    pub open spec fn after(self, event: Event) -> HarnessView {
        match event {
            Event::Failed(why) => self.failed(why@),
            Event::Acquired { token } => if token {
                HarnessView { stage: Stage::Clock, ..self }
            } else {
                self.failed("acquire が token を返さない"@)
            },
            Event::Clock { time_left, interrupted } => if time_left && !interrupted {
                HarnessView { stage: Stage::Start, ..self }
            } else {
                HarnessView { stage: Stage::Probe, ..self }
            },
            Event::Started { run, shown } => match run {
                None => self.failed("run/start に run 番号が無い: "@ + shown@),
                Some(n) => HarnessView {
                    stage: Stage::Address,
                    current: ResultView { run: n as u32, ..no_run() },
                    ..self
                },
            },
            Event::Address { address, shown } => match address {
                None => self.failed(
                    "receiver0 の bind_address が無い(Arm 済みか): "@ + shown@,
                ),
                Some(a) => HarnessView { stage: Stage::Replay, address: a@, ..self },
            },
            Event::Replayed { failed, printed, shown } => self.replayed(failed, printed@, shown@),
            Event::Polled { status, expired } => self.polled(status, expired),
            Event::Stopped { ok, reason, shown } => if ok && (reason matches Some(r)
                && r@ == "normal"@) {
                HarnessView { stage: Stage::Evidence, ..self }
            } else {
                self.failed(
                    "run "@ + text::decimal(self.current.run as nat)
                        + " の停止が正常でない: "@ + shown@,
                )
            },
            Event::Left(left) => match left.problem(self.current, self.status) {
                Some(why) => self.failed(why),
                None => HarnessView {
                    stage: Stage::Health,
                    current: ResultView {
                        entries: left.entries() as u64,
                        graw_bytes: left.graw_bytes,
                        seconds: left.seconds@,
                        ..self.current
                    },
                    ..self
                },
            },
            Event::Health(health) => match health.problem(
                self.current.run,
                self.limits.rss_limit_mib,
                self.limits.min_free_gib,
            ) {
                Some(why) => self.failed(why),
                None => if self.limits.keep_outputs {
                    self.counted()
                } else {
                    HarnessView { stage: Stage::Remove, ..self }
                },
            },
            Event::Removed => self.counted(),
            Event::Flags { interrupted, stop } => if interrupted || stop || (
            self.limits.max_runs matches Some(n) && self.results.len() >= n) {
                HarnessView { stage: Stage::Probe, ..self }
            } else {
                HarnessView { stage: Stage::Clock, ..self }
            },
            Event::Probed { messages } => if messages == 0 {
                self.failed(
                    "WS probe が 1 通も status を受けていない(モニタ経路が死んでいる)"@,
                )
            } else {
                HarnessView { stage: Stage::Sampler, ..self }
            },
            Event::SamplerStopped => HarnessView { stage: Stage::ShutDown, ..self },
            Event::ShutDown { counts, shown, fatal_shown } => HarnessView {
                stage: Stage::Report,
                verdict: match self.failure {
                    Some(why) => Some(why),
                    None => soak::final_problem(
                        counts_view(counts),
                        total_laps(self.results) as u64,
                        shown@,
                        fatal_shown@,
                    ),
                },
                ..self
            },
            Event::Reported(problem) => HarnessView {
                stage: Stage::Over,
                verdict: match problem {
                    Some(why) => Some(why@),
                    None => self.verdict,
                },
                ..self
            },
        }
    }
}

// ---------------------------------------------------------------------
// What holds of every test
// ---------------------------------------------------------------------

/// Whether a run is under way of which whole laps were sent.
pub open spec fn is_sent(stage: Stage) -> bool {
    ||| stage == Stage::Metrics
    ||| stage == Stage::Stop
    ||| stage == Stage::Evidence
    ||| has_passed(stage)
}

/// Whether a run is under way that has passed.
pub open spec fn has_passed(stage: Stage) -> bool {
    stage == Stage::Health || stage == Stage::Remove
}

/// Whether runs are still being made.
pub open spec fn is_running(stage: Stage) -> bool {
    ||| stage == Stage::Acquire
    ||| stage == Stage::Clock
    ||| stage == Stage::Start
    ||| stage == Stage::Address
    ||| stage == Stage::Replay
    ||| is_sent(stage)
}

/// Whether the test winds down.
pub open spec fn is_winding_down(stage: Stage) -> bool {
    ||| stage == Stage::Sampler
    ||| stage == Stage::ShutDown
    ||| stage == Stage::Report
    ||| stage == Stage::Over
}

/// Whether no counter that stands for a loss is other than zero.
pub open spec fn is_lossless(status: SnapshotView) -> bool {
    forall|i: int|
        0 <= i < soak::MUST_BE_ZERO@.len() ==> soak::counter(
            (#[trigger] soak::ZERO_SOURCES@[i])@,
            status,
        ) == Some(0u64)
}

impl HarnessView {
    /// What holds of every test: the runs that count are complete, the one under way is as far as
    /// its stage says, there are no more runs than wanted, and nothing has failed before the test
    /// winds down.
    pub open spec fn is_sound(self) -> bool {
        &&& forall|i: int| 0 <= i < self.results.len() ==> (#[trigger] self.results[i]).is_complete()
        &&& is_sent(self.stage) ==> self.current.is_laps()
        &&& has_passed(self.stage) ==> self.current.is_complete() && is_lossless(self.status)
        &&& self.limits.max_runs matches Some(n) ==> {
            &&& self.results.len() <= n || self.results.len() <= 1
            &&& is_running(self.stage) ==> self.results.len() < n || self.results.len() == 0
        }
        &&& self.failure is Some ==> is_winding_down(self.stage)
    }

    /// The test once all events have happened.
    pub open spec fn after_all(self, events: Seq<Event>) -> HarnessView
        decreases events.len(),
    {
        if events.len() == 0 {
            self
        } else {
            self.after_all(events.drop_last()).after(events.last())
        }
    }

    /// Whether the events can happen one after the other.
    pub open spec fn meets_all(self, events: Seq<Event>) -> bool
        decreases events.len(),
    {
        events.len() > 0 ==> self.meets_all(events.drop_last()) && self.after_all(
            events.drop_last(),
        ).meets(events.last())
    }
}

proof fn lemma_soundness_is_kept(v: HarnessView, event: Event)
    requires
        v.is_sound(),
        v.meets(event),
    ensures
        v.after(event).is_sound(),
        v.stage == Stage::Evidence ==> v.current.laps * EVENTS_PER_LAP <= u64::MAX,
{
    let w = v.after(event);
    match event {
        Event::Left(left) => {
            assert(v.current.laps * EVENTS_PER_LAP <= v.current.laps * GRAW_BYTES_PER_LAP);
            if left.problem(v.current, v.status) is None {
                soak::law_problems_are_failures(left.evidence(v.current), v.status);
                assert(w.current.is_complete());
            }
        },
        Event::Replayed { failed, printed, shown } => {
            if let Some(bytes) = soak::word_number(printed@, 1, u64::MAX as nat) {
                if let Some(laps) = soak::laps_of(bytes as u64) {
                    assert(laps * GRAW_BYTES_PER_LAP == bytes as u64);
                }
            }
        },
        _ => {},
    }
    assert forall|i: int| 0 <= i < w.results.len() implies (
    #[trigger] w.results[i]).is_complete() by {
        if i < v.results.len() {
            assert(w.results[i] == v.results[i]);
        }
    }
}

/// Of every test: the runs that count have every event and every byte that was sent, files are
/// removed only of a run that has passed, and there are no more runs than wanted.
pub proof fn law_every_test_is_sound(limits: Limits, events: Seq<Event>)
    requires
        HarnessView::fresh(limits).meets_all(events),
    ensures
        ({
            let v = HarnessView::fresh(limits).after_all(events);
            &&& v.is_sound()
            &&& v.limits == limits
            &&& v.stage == Stage::Remove ==> !limits.keep_outputs
        }),
    decreases events.len(),
{
    if events.len() > 0 {
        law_every_test_is_sound(limits, events.drop_last());
        lemma_soundness_is_kept(
            HarnessView::fresh(limits).after_all(events.drop_last()),
            events.last(),
        );
    }
}

proof fn lemma_before_the_end(limits: Limits, events: Seq<Event>)
    requires
        HarnessView::fresh(limits).meets_all(events),
        HarnessView::fresh(limits).after_all(events).stage == Stage::Over,
    ensures
        events.len() > 0,
        events.last() is Reported,
        HarnessView::fresh(limits).meets_all(events.drop_last()),
        ({
            let v = HarnessView::fresh(limits).after_all(events.drop_last());
            let w = HarnessView::fresh(limits).after_all(events);
            &&& v.stage == Stage::Report
            &&& w.results == v.results
            &&& w.failure == v.failure
            &&& w.verdict is None ==> v.verdict is None
        }),
{
}

proof fn lemma_before_the_report(limits: Limits, events: Seq<Event>)
    requires
        HarnessView::fresh(limits).meets_all(events),
        HarnessView::fresh(limits).after_all(events).stage == Stage::Report,
    ensures
        events.len() > 0,
        events.last() is ShutDown,
        HarnessView::fresh(limits).meets_all(events.drop_last()),
        ({
            let v = HarnessView::fresh(limits).after_all(events.drop_last());
            let w = HarnessView::fresh(limits).after_all(events);
            &&& v.stage == Stage::ShutDown
            &&& w.results == v.results
            &&& w.failure == v.failure
            &&& w.verdict is None ==> w.failure is None && (
            events.last() matches Event::ShutDown { counts, shown, fatal_shown }
                && soak::final_problem(
                counts_view(counts),
                total_laps(w.results) as u64,
                shown@,
                fatal_shown@,
            ) is None)
        }),
{
}

proof fn lemma_before_the_shutdown(limits: Limits, events: Seq<Event>)
    requires
        HarnessView::fresh(limits).meets_all(events),
        HarnessView::fresh(limits).after_all(events).stage == Stage::ShutDown,
    ensures
        events.len() > 0,
        events.last() is SamplerStopped,
        HarnessView::fresh(limits).meets_all(events.drop_last()),
        ({
            let v = HarnessView::fresh(limits).after_all(events.drop_last());
            let w = HarnessView::fresh(limits).after_all(events);
            &&& v.stage == Stage::Sampler
            &&& w.failure == v.failure
        }),
{
}

proof fn lemma_before_the_sampler_stops(limits: Limits, events: Seq<Event>)
    requires
        HarnessView::fresh(limits).meets_all(events),
        HarnessView::fresh(limits).after_all(events).stage == Stage::Sampler,
        HarnessView::fresh(limits).after_all(events).failure is None,
    ensures
        events.len() > 0,
        events.last() matches Event::Probed { messages } && messages > 0,
{
}

/// Whatever happens, a test that is over has stopped its processes and has tried to write its
/// report.
pub proof fn law_every_test_is_shut_down(limits: Limits, events: Seq<Event>) -> (at: int)
    requires
        HarnessView::fresh(limits).meets_all(events),
        HarnessView::fresh(limits).after_all(events).stage == Stage::Over,
    ensures
        0 < at < events.len() - 1,
        events[at - 1] is SamplerStopped,
        events[at] is ShutDown,
        events[at + 1] is Reported,
{
    let n = events.len() as int;
    let e1 = events.drop_last();
    let e2 = e1.drop_last();
    lemma_before_the_end(limits, events);
    lemma_before_the_report(limits, e1);
    lemma_before_the_shutdown(limits, e2);
    assert(e1.last() == events[n - 2]);
    assert(e2.last() == events[n - 3]);
    n - 2
}

/// A failure is kept: once the runs have failed, the test does not pass, and says why they did
/// unless the report could not be written.
pub proof fn law_a_failure_is_kept(v: HarnessView, event: Event)
    requires
        v.is_sound(),
        v.meets(event),
        v.failure is Some,
        v.stage == Stage::Report ==> v.verdict == v.failure,
    ensures
        v.after(event).failure == v.failure,
        v.after(event).stage == Stage::Report ==> v.after(event).verdict == v.failure,
        v.after(event).stage == Stage::Over && event == Event::Reported(None)
            ==> v.after(event).verdict == v.failure,
        v.after(event).stage == Stage::Over ==> v.after(event).verdict is Some,
{
}

/// A test passes only where nothing failed, the monitor has sent something, and what the last
/// process says at its end is right for all the runs that count.
pub proof fn law_a_pass_is_earned(limits: Limits, events: Seq<Event>) -> (at: int)
    requires
        HarnessView::fresh(limits).meets_all(events),
        HarnessView::fresh(limits).after_all(events).stage == Stage::Over,
        HarnessView::fresh(limits).after_all(events).verdict is None,
    ensures
        1 < at < events.len() - 1,
        HarnessView::fresh(limits).after_all(events).failure is None,
        events[at] matches Event::ShutDown { counts, shown, fatal_shown } && soak::final_problem(
            counts_view(counts),
            total_laps(HarnessView::fresh(limits).after_all(events).results) as u64,
            shown@,
            fatal_shown@,
        ) is None,
        events[at - 2] matches Event::Probed { messages } && messages > 0,
{
    let n = events.len() as int;
    let e1 = events.drop_last();
    let e2 = e1.drop_last();
    let e3 = e2.drop_last();
    lemma_before_the_end(limits, events);
    lemma_before_the_report(limits, e1);
    lemma_before_the_shutdown(limits, e2);
    lemma_before_the_sampler_stops(limits, e3);
    assert(e1.last() == events[n - 2]);
    assert(e3.last() == events[n - 4]);
    n - 2
}

/// An endurance test from its first run to its verdict.
#[derive(Debug)]
pub struct Harness {
    limits: Limits,
    stage: Stage,
    current: RunResult,
    address: String,
    last: String,
    status: Snapshot,
    results: Vec<RunResult>,
    failure: Option<String>,
    verdict: Option<String>,
}

/// The value of a text that may be missing.
pub open spec fn text_of(s: Option<String>) -> Option<Seq<char>> {
    match s {
        Some(s) => Some(s@),
        None => None,
    }
}

impl View for Harness {
    type V = HarnessView;

    closed spec fn view(&self) -> HarnessView {
        HarnessView {
            limits: self.limits,
            stage: self.stage,
            current: self.current@,
            address: self.address@,
            last: self.last@,
            status: self.status@,
            results: result_views(self.results@),
            failure: text_of(self.failure),
            verdict: text_of(self.verdict),
        }
    }
}

/// A message with something behind it.
fn with(message: &str, more: &str) -> (s: String)
    ensures
        s@ == message@ + more@,
{
    let mut s: String = message.to_string();
    s.append(more);
    s
}

impl Health {
    fn check(&self, run: u32, rss_limit_mib: u64, min_free_gib: u64) -> (r: Result<(), String>)
        ensures
            match self.problem(run, rss_limit_mib, min_free_gib) {
                Some(why) => r matches Err(s) && s@ == why,
                None => r is Ok,
            },
    {
        if let Some((name, log)) = &self.dead {
            let mut s: String = with(name.as_str(), " が走行中に落ちた(log = ");
            s.append(log.as_str());
            s.append(")");
            return Err(s);
        }
        if let Err(why) = check_rss(&self.procs, rss_limit_mib) {
            return Err(why);
        }
        if below_floor(self.free_kib, min_free_gib) {
            let mut s: String = with("空きディスク ", self.free_shown.as_str());
            s.append(" GiB が床 ");
            push_decimal(&mut s, min_free_gib);
            s.append(" GiB を割った(run ");
            push_decimal(&mut s, run as u64);
            s.append(" の直後)");
            return Err(s);
        }
        Ok(())
    }
}

impl Harness {
    /// A test that is to begin.
    pub fn new(limits: Limits) -> (harness: Self)
        ensures
            harness@ == HarnessView::fresh(limits),
            harness@.is_sound(),
    {
        let harness = Harness {
            limits,
            stage: Stage::Acquire,
            current: RunResult {
                run: 0,
                laps: 0,
                replayed_bytes: 0,
                graw_bytes: 0,
                entries: 0,
                seconds: String::new(),
            },
            address: String::new(),
            last: String::new(),
            status: Snapshot { components: Vec::new(), monitor: None },
            results: Vec::new(),
            failure: None,
            verdict: None,
        };
        let ghost fresh = HarnessView::fresh(limits);
        assert(harness.current.seconds@ =~= Seq::empty());
        assert(harness@.address =~= fresh.address);
        assert(harness@.last =~= fresh.last);
        assert(harness@.status.components =~= fresh.status.components);
        assert(harness@.results =~= fresh.results);
        harness
    }

    /// What is to be done next.
    pub fn stage(&self) -> (stage: Stage)
        ensures
            stage == self@.stage,
    {
        self.stage
    }

    /// The number of the run.
    pub fn run(&self) -> (run: u32)
        ensures
            run == self@.current.run,
    {
        self.current.run
    }

    /// Where the receiver listens.
    pub fn address(&self) -> (address: &String)
        ensures
            address@ == self@.address,
    {
        &self.address
    }

    /// The runs that passed.
    pub fn results(&self) -> (results: &Vec<RunResult>)
        ensures
            result_views(results@) == self@.results,
    {
        &self.results
    }

    /// Why the runs came to an end before their time, if they did.
    pub fn failure(&self) -> (failure: &Option<String>)
        ensures
            text_of(*failure) == self@.failure,
    {
        &self.failure
    }

    /// Why the test does not pass, if it does not.
    pub fn verdict(&self) -> (verdict: &Option<String>)
        ensures
            text_of(*verdict) == self@.verdict,
    {
        &self.verdict
    }

    /// Whether the events of all runs can be counted.
    pub fn can_end(&self) -> (r: bool)
        ensures
            r ==> total_laps(self@.results) * EVENTS_PER_LAP <= u64::MAX && total_bytes(
                self@.results,
            ) <= u64::MAX,
            !r ==> total_laps(self@.results) * EVENTS_PER_LAP > u64::MAX || total_bytes(
                self@.results,
            ) > u64::MAX,
    {
        match totals(&self.results) {
            Some((laps, _)) => laps.checked_mul(EVENTS_PER_LAP).is_some(),
            None => false,
        }
    }

    /// Whether the events that a run has left behind can be counted.
    pub fn can_judge(left: &Left) -> (r: bool)
        ensures
            r == (left.entries() <= u64::MAX),
    {
        count_entries(&left.lines, left.prefix.as_str()).is_some()
    }

    fn fail(&mut self, why: String)
        ensures
            final(self)@ == old(self)@.failed(why@),
    {
        self.stage = Stage::Sampler;
        self.failure = Some(why);
    }

    fn replayed(&mut self, failed: Option<String>, printed: String, shown: String)
        ensures
            final(self)@ == old(self)@.replayed(failed, printed@, shown@),
    {
        if let Some(how) = failed {
            self.fail(with("graw_replay が失敗した: ", how.as_str()));
            return;
        }
        match parse_replayed(printed.as_str()) {
            None => self.fail(with("graw_replay の stdout が読めない: ", shown.as_str())),
            Some(bytes) => match count_laps(bytes) {
                Err(why) => self.fail(why),
                Ok(laps) => {
                    self.stage = Stage::Metrics;
                    self.current.laps = laps;
                    self.current.replayed_bytes = bytes;
                    self.last = "null".to_string();
                },
            },
        }
    }

    fn polled(&mut self, status: Option<(Snapshot, String)>, expired: bool)
        ensures
            final(self)@ == old(self)@.polled(status, expired),
    {
        if let Some((s, shown)) = status {
            if has_all_metrics(&s) {
                self.stage = Stage::Stop;
                self.status = s;
                return;
            }
            self.last = shown;
        }
        if expired {
            let why: String = with(
                "/api/status が 30s 以内に 3 コンポーネント分の metrics を揃えなかった: ",
                self.last.as_str(),
            );
            self.fail(why);
        }
    }

    fn judge(&mut self, left: Left)
        requires
            left.entries() <= u64::MAX,
            old(self)@.current.laps * EVENTS_PER_LAP <= u64::MAX,
        ensures
            final(self)@ == match left.problem(old(self)@.current, old(self)@.status) {
                Some(why) => old(self)@.failed(why),
                None => HarnessView {
                    stage: Stage::Health,
                    current: ResultView {
                        entries: left.entries() as u64,
                        graw_bytes: left.graw_bytes,
                        seconds: left.seconds@,
                        ..old(self)@.current
                    },
                    ..old(self)@
                },
            },
    {
        match &left.sink_log {
            None => {
                self.fail("root_sink が居ない".to_string());
                return;
            },
            Some(log) => {
                if !left.monitor_made {
                    let mut s: String = with(left.monitor_file.as_str(), " が出来なかった(log = ");
                    s.append(log.as_str());
                    s.append(")");
                    self.fail(s);
                    return;
                }
            },
        }
        if !left.root_made {
            self.fail(with(left.root_file.as_str(), " が無い"));
            return;
        }
        let entries: u64 = match count_entries(&left.lines, left.prefix.as_str()) {
            Some(n) => n,
            None => {
                assert(false);
                0
            },
        };
        let evidence = RunEvidence {
            run: self.current.run,
            laps: self.current.laps,
            replayed_bytes: self.current.replayed_bytes,
            entries,
            graw_bytes: left.graw_bytes,
            fatals: left.fatals,
        };
        match check_run(&evidence, &self.status) {
            Err(why) => self.fail(why),
            Ok(()) => {
                self.stage = Stage::Health;
                self.current.entries = entries;
                self.current.graw_bytes = left.graw_bytes;
                self.current.seconds = left.seconds;
            },
        }
    }

    fn count(&mut self)
        ensures
            final(self)@ == old(self)@.counted(),
    {
        let done = RunResult {
            run: self.current.run,
            laps: self.current.laps,
            replayed_bytes: self.current.replayed_bytes,
            graw_bytes: self.current.graw_bytes,
            entries: self.current.entries,
            seconds: self.current.seconds.clone(),
        };
        self.results.push(done);
        self.stage = Stage::Flags;
        assert(self@.results =~= old(self)@.results.push(old(self)@.current));
    }

    fn shut_down(&mut self, counts: Option<Metrics>, shown: String, fatal_shown: String)
        requires
            total_laps(old(self)@.results) * EVENTS_PER_LAP <= u64::MAX,
        ensures
            final(self)@ == old(self)@.after(Event::ShutDown { counts, shown, fatal_shown }),
    {
        self.stage = Stage::Report;
        match &self.failure {
            Some(why) => {
                self.verdict = Some(why.clone());
            },
            None => {
                let laps: u64 = self.count_laps_total();
                self.verdict = match verify_final(
                    &counts,
                    laps,
                    shown.as_str(),
                    fatal_shown.as_str(),
                ) {
                    Ok(()) => None,
                    Err(why) => Some(why),
                };
            },
        }
    }

    fn count_laps_total(&self) -> (n: u64)
        requires
            total_laps(self@.results) * EVENTS_PER_LAP <= u64::MAX,
        ensures
            n == total_laps(self@.results),
    {
        let ghost all = self@.results;
        let mut n: u64 = 0;
        let mut i: usize = 0;
        assert(all.take(0) =~= Seq::empty());
        while i < self.results.len()
            invariant
                i <= self.results@.len(),
                all == result_views(self.results@),
                total_laps(all) * EVENTS_PER_LAP <= u64::MAX,
                n == total_laps(all.take(i as int)),
            decreases self.results@.len() - i,
        {
            proof {
                assert(all.take(i + 1).drop_last() =~= all.take(i as int));
                assert(all.take(i + 1).last() == self.results@[i as int]@);
                lemma_totals_grow(all, i + 1);
            }
            n = n + self.results[i].laps;
            i = i + 1;
        }
        assert(all.take(i as int) =~= all);
        n
    }

    /// Takes in what came of what was to be done.
    pub fn handle(&mut self, event: Event)
        requires
            old(self)@.meets(event),
            old(self)@.is_sound(),
        ensures
            final(self)@ == old(self)@.after(event),
            final(self)@.is_sound(),
    {
        proof {
            lemma_soundness_is_kept(self@, event);
        }
        match event {
            Event::Failed(why) => self.fail(why),
            Event::Acquired { token } => {
                if token {
                    self.stage = Stage::Clock;
                } else {
                    self.fail("acquire が token を返さない".to_string());
                }
            },
            Event::Clock { time_left, interrupted } => {
                self.stage = if time_left && !interrupted {
                    Stage::Start
                } else {
                    Stage::Probe
                };
            },
            Event::Started { run, shown } => match run {
                None => self.fail(with("run/start に run 番号が無い: ", shown.as_str())),
                Some(n) => {
                    self.stage = Stage::Address;
                    self.current = RunResult {
                        run: n as u32,
                        laps: 0,
                        replayed_bytes: 0,
                        graw_bytes: 0,
                        entries: 0,
                        seconds: String::new(),
                    };
                    assert(self.current@.seconds =~= Seq::empty());
                },
            },
            Event::Address { address, shown } => match address {
                None => self.fail(
                    with(
                        "receiver0 の bind_address が無い(Arm 済みか): ",
                        shown.as_str(),
                    ),
                ),
                Some(a) => {
                    self.stage = Stage::Replay;
                    self.address = a;
                },
            },
            Event::Replayed { failed, printed, shown } => self.replayed(failed, printed, shown),
            Event::Polled { status, expired } => self.polled(status, expired),
            Event::Stopped { ok, reason, shown } => {
                let normal: bool = match &reason {
                    Some(r) => same(r.as_str(), "normal"),
                    None => false,
                };
                if ok && normal {
                    self.stage = Stage::Evidence;
                } else {
                    let mut s: String = "run ".to_string();
                    push_decimal(&mut s, self.current.run as u64);
                    s.append(" の停止が正常でない: ");
                    s.append(shown.as_str());
                    self.fail(s);
                }
            },
            Event::Left(left) => self.judge(left),
            Event::Health(health) => match health.check(
                self.current.run,
                self.limits.rss_limit_mib,
                self.limits.min_free_gib,
            ) {
                Err(why) => self.fail(why),
                Ok(()) => {
                    if self.limits.keep_outputs {
                        self.count();
                    } else {
                        self.stage = Stage::Remove;
                    }
                },
            },
            Event::Removed => self.count(),
            Event::Flags { interrupted, stop } => {
                let made: u64 = self.results.len() as u64;
                self.stage = if is_last_run(made, self.limits.max_runs, interrupted, stop) {
                    Stage::Probe
                } else {
                    Stage::Clock
                };
            },
            Event::Probed { messages } => {
                if messages == 0 {
                    self.fail(
                        "WS probe が 1 通も status を受けていない(モニタ経路が死んでいる)".to_string(),
                    );
                } else {
                    self.stage = Stage::Sampler;
                }
            },
            Event::SamplerStopped => {
                self.stage = Stage::ShutDown;
            },
            Event::ShutDown { counts, shown, fatal_shown } => self.shut_down(
                counts,
                shown,
                fatal_shown,
            ),
            Event::Reported(problem) => {
                self.stage = Stage::Over;
                if let Some(why) = problem {
                    self.verdict = Some(why);
                }
            },
        }
    }
}

} // verus!

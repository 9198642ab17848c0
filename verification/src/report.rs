//! The report of an endurance test.
//!
//! Figures that are computed in floating point come in as they are written; which of them the
//! report has, in what order and in what columns, is decided here.

use vstd::prelude::*;

use crate::harness;
use crate::harness::{totals, RunResult, ResultView};
use crate::soak::Mode;
use crate::text;
use crate::text::{chars_of, push_decimal, push_padded, push_text, same};

verus! {

/// So many blanks.
pub open spec fn blanks(n: int) -> Seq<char> {
    Seq::new(
        if n > 0 {
            n as nat
        } else {
            0
        },
        |i: int| ' ',
    )
}

/// `s` at the left of a column of so many characters.
pub open spec fn at_left(s: Seq<char>, width: int) -> Seq<char> {
    s + blanks(width - s.len())
}

/// `s` at the right of a column of so many characters.
pub open spec fn at_right(s: Seq<char>, width: int) -> Seq<char> {
    blanks(width - s.len()) + s
}

/// A text that does not fill its column is as wide as the column; none is cut.
pub proof fn law_columns_are_filled(s: Seq<char>, width: int)
    ensures
        s.len() <= width ==> at_left(s, width).len() == width && at_right(s, width).len() == width,
        s.len() >= width ==> at_left(s, width) == s && at_right(s, width) == s,
{
    if s.len() >= width {
        assert(at_left(s, width) =~= s);
        assert(at_right(s, width) =~= s);
    }
}

fn push_blanks(out: &mut String, s: &str, width: usize)
    ensures
        final(out)@ == old(out)@ + blanks(width - s@.len()),
{
    let chars: Vec<char> = chars_of(s);
    let ghost before = out@;
    let mut have: usize = chars.len();
    assert(out@ =~= before + blanks(0));
    while have < width
        invariant
            chars@ == s@,
            chars@.len() <= have,
            chars@.len() <= width ==> have <= width,
            chars@.len() > width ==> have == chars@.len(),
            out@ == before + blanks(have - chars@.len()),
        decreases width - have,
    {
        out.push(' ');
        have = have + 1;
        assert(out@ =~= before + blanks(have - chars@.len()));
    }
    assert(out@ =~= before + blanks(width - s@.len()));
}

fn push_at_left(out: &mut String, s: &str, width: usize)
    ensures
        final(out)@ == old(out)@ + at_left(s@, width as int),
{
    out.append(s);
    push_blanks(out, s, width);
    assert(out@ =~= old(out)@ + at_left(s@, width as int));
}

fn push_at_right(out: &mut String, s: &str, width: usize)
    ensures
        final(out)@ == old(out)@ + at_right(s@, width as int),
{
    push_blanks(out, s, width);
    out.append(s);
    assert(out@ =~= old(out)@ + at_right(s@, width as int));
}

/// How a column of the samples went: what it began and ended with, and how it rose in an hour.
#[derive(Debug)]
pub struct Span {
    pub first: String,
    pub last: String,
    pub slope: String,
}

/// A column of the samples, and how it went; nothing where it holds no number.
#[derive(Debug)]
pub struct Trend {
    pub column: String,
    pub span: Option<Span>,
}

impl Trend {
    /// The line of a column.
    pub open spec fn line(&self) -> Seq<char> {
        match self.span {
            None => "  "@ + at_left(self.column@, 28) + " (データなし)\n"@,
            Some(s) => "  "@ + at_left(self.column@, 28) + " "@ + at_right(s.first@, 14) + " -> "@
                + at_right(s.last@, 14) + "   slope/h = "@ + at_right(s.slope@, 12) + "\n"@,
        }
    }
}

/// Whether the memory of a process rises.
#[derive(Debug)]
pub struct Verdict {
    pub process: String,
    pub first: String,
    pub last: String,
    pub slope: String,
    pub ok: bool,
}

impl Verdict {
    /// The line of a process.
    pub open spec fn line(&self) -> Seq<char> {
        "  "@ + at_left(self.process@, 12) + " 後半先頭窓 "@ + at_right(self.first@, 10)
            + " KiB -> 末尾窓 "@ + at_right(self.last@, 10) + " KiB  slope "@ + at_right(
            self.slope@,
            10,
        ) + " KiB/h  "@ + if self.ok {
            "OK"@
        } else {
            "上昇トレンド(要調査)"@
        } + "\n"@
    }
}

/// The last value of a counter of what the monitor drops, where there is one.
#[derive(Debug)]
pub struct Drops {
    pub name: String,
    pub last: Option<String>,
}

impl Drops {
    /// The line of a counter.
    pub open spec fn line(&self) -> Seq<char> {
        "  "@ + at_left(self.name@, 20) + " 最終値 = "@ + match self.last {
            Some(v) => v@,
            None => "(なし)"@,
        } + "\n"@
    }
}

/// The line of a run.
pub open spec fn run_line(r: ResultView) -> Seq<char> {
    "  run "@ + text::padded(r.run as nat, 4) + ": laps="@ + text::decimal(r.laps as nat)
        + " bytes="@ + text::decimal(r.graw_bytes as nat) + " entries="@ + text::decimal(
        r.entries as nat,
    ) + " "@ + r.seconds + " s\n"@
}

/// The lines of runs.
pub open spec fn run_lines(runs: Seq<ResultView>) -> Seq<char>
    decreases runs.len(),
{
    if runs.len() == 0 {
        Seq::empty()
    } else {
        run_lines(runs.drop_last()) + run_line(runs.last())
    }
}

/// The lines of columns.
pub open spec fn trend_lines(trends: Seq<Trend>) -> Seq<char>
    decreases trends.len(),
{
    if trends.len() == 0 {
        Seq::empty()
    } else {
        trend_lines(trends.drop_last()) + trends.last().line()
    }
}

/// The lines of processes.
pub open spec fn verdict_lines(verdicts: Seq<Verdict>) -> Seq<char>
    decreases verdicts.len(),
{
    if verdicts.len() == 0 {
        Seq::empty()
    } else {
        verdict_lines(verdicts.drop_last()) + verdicts.last().line()
    }
}

/// The lines of counters of what the monitor drops.
pub open spec fn drop_lines(drops: Seq<Drops>) -> Seq<char>
    decreases drops.len(),
{
    if drops.len() == 0 {
        Seq::empty()
    } else {
        drop_lines(drops.drop_last()) + drops.last().line()
    }
}

/// How fast all runs together were.
#[derive(Debug)]
pub struct Throughput {
    pub mbps: String,
    pub megabytes: String,
    pub ratio: String,
}

/// What the report is made of.
#[derive(Debug)]
pub struct Findings {
    pub interrupted: bool,
    pub mode: Mode,
    /// The hours that were planned.
    pub planned_h: String,
    /// The minutes of a run.
    pub run_min: String,
    pub rate_mbps: String,
    /// Where the samples are.
    pub csv: String,
    /// How many samples there are.
    pub samples: u64,
    /// How many columns they have.
    pub columns: u64,
    /// The runs that passed.
    pub runs: Vec<RunResult>,
    /// All bytes in gibibytes.
    pub gib: String,
    /// The seconds of all runs.
    pub seconds: String,
    /// How fast they were, unless they took no time.
    pub throughput: Option<Throughput>,
    pub trends: Vec<Trend>,
    /// The seconds that the samples span.
    pub span: String,
    pub verdicts: Vec<Verdict>,
    pub drops: Vec<Drops>,
    /// What the monitor said at its end.
    pub monitor_line: String,
    /// What the last process said at its end.
    pub counts: String,
}

/// How a kind of test is named.
pub open spec fn mode_name(mode: Mode) -> Seq<char> {
    match mode {
        Mode::Soak => "Soak"@,
        Mode::Burst => "Burst"@,
    }
}

impl Findings {
    /// The part that says what was planned.
    pub open spec fn plan(&self) -> Seq<char> {
        "===== soak_harness report =====\n"@ + if self.interrupted {
            "**SIGINT で打ち切り**(現 run を完走してから畳んだ —— 走行時間は予定より短い)\n"@
        } else {
            ""@
        } + "mode="@ + mode_name(self.mode) + " 走行予定="@ + self.planned_h@ + " h / 1 run="@
            + self.run_min@ + " min / rate="@ + self.rate_mbps@ + " Mbps(0=全速)\nmetrics CSV = "@
            + self.csv@ + "\nサンプル数 = "@ + text::decimal(self.samples as nat)
            + " / 列数 = "@ + text::decimal(self.columns as nat) + "\n"@
    }

    /// The part on the runs.
    pub open spec fn all_runs(&self) -> Seq<char> {
        let runs = harness::result_views(self.runs@);
        "\n-- run --\nrun 数 = "@ + text::decimal(runs.len()) + " / 総 laps = "@ + text::decimal(
            harness::total_laps(runs),
        ) + " / 総送出 = "@ + text::decimal(harness::total_bytes(runs)) + " B ("@ + self.gib@
            + " GiB) / 総 run 時間 = "@ + self.seconds@ + " s\n"@ + match self.throughput {
            Some(t) => "達成スループット = "@ + t.mbps@ + " Mbps("@ + t.megabytes@
                + " MB/s、100 Hz 相当 224 Mbps の "@ + t.ratio@ + "×)\n"@,
            None => ""@,
        } + run_lines(runs)
    }

    /// The part on the samples.
    pub open spec fn all_columns(&self) -> Seq<char> {
        "\n-- 全系列(始値 / 終値 / 傾き per h)--\n"@ + trend_lines(self.trends@)
    }

    /// The part on memory.
    pub open spec fn memory(&self) -> Seq<char> {
        "\n-- RSS 単調性(後半 [H/2,H] の先頭窓 ×1.05 ≥ 末尾窓、窓 = H/12。H = 実測 "@ + self.span@
            + " s)--\n"@ + verdict_lines(self.verdicts@)
    }

    /// The part on what was dropped and on how the processes ended.
    pub open spec fn ending(&self) -> Seq<char> {
        "\n-- モニタ系 drop(落としてよいが silent にしない)--\n"@ + drop_lines(self.drops@)
            + "  monitor 終了ログ = "@ + self.monitor_line@ + "\n\n-- root_sink 終了 JSON --\n"@
            + self.counts@ + "\n"@
    }

    /// The whole report.
    pub open spec fn text(&self) -> Seq<char> {
        self.plan() + self.all_runs() + self.all_columns() + self.memory() + self.ending()
    }

    /// Whether the totals can be written.
    pub open spec fn fits(&self) -> bool {
        &&& harness::total_laps(harness::result_views(self.runs@)) <= u64::MAX
        &&& harness::total_bytes(harness::result_views(self.runs@)) <= u64::MAX
    }
}

fn line_of_run(r: &RunResult) -> (s: String)
    ensures
        s@ == run_line(r@),
{
    let mut s: String = "  run ".to_string();
    push_padded(&mut s, r.run as u64, 4);
    s.append(": laps=");
    push_decimal(&mut s, r.laps);
    s.append(" bytes=");
    push_decimal(&mut s, r.graw_bytes);
    s.append(" entries=");
    push_decimal(&mut s, r.entries);
    s.append(" ");
    s.append(r.seconds.as_str());
    s.append(" s\n");
    s
}

fn line_of_trend(t: &Trend) -> (s: String)
    ensures
        s@ == t.line(),
{
    let mut s: String = "  ".to_string();
    push_at_left(&mut s, t.column.as_str(), 28);
    match &t.span {
        None => {
            s.append(" (データなし)\n");
        },
        Some(span) => {
            s.append(" ");
            push_at_right(&mut s, span.first.as_str(), 14);
            s.append(" -> ");
            push_at_right(&mut s, span.last.as_str(), 14);
            s.append("   slope/h = ");
            push_at_right(&mut s, span.slope.as_str(), 12);
            s.append("\n");
        },
    }
    s
}

fn line_of_verdict(v: &Verdict) -> (s: String)
    ensures
        s@ == v.line(),
{
    let mut s: String = "  ".to_string();
    push_at_left(&mut s, v.process.as_str(), 12);
    s.append(" 後半先頭窓 ");
    push_at_right(&mut s, v.first.as_str(), 10);
    s.append(" KiB -> 末尾窓 ");
    push_at_right(&mut s, v.last.as_str(), 10);
    s.append(" KiB  slope ");
    push_at_right(&mut s, v.slope.as_str(), 10);
    s.append(" KiB/h  ");
    if v.ok {
        s.append("OK");
    } else {
        s.append("上昇トレンド(要調査)");
    }
    s.append("\n");
    s
}

fn line_of_drops(d: &Drops) -> (s: String)
    ensures
        s@ == d.line(),
{
    let mut s: String = "  ".to_string();
    push_at_left(&mut s, d.name.as_str(), 20);
    s.append(" 最終値 = ");
    match &d.last {
        Some(v) => s.append(v.as_str()),
        None => s.append("(なし)"),
    }
    s.append("\n");
    s
}

fn lines_of_runs(runs: &Vec<RunResult>) -> (s: String)
    ensures
        s@ == run_lines(harness::result_views(runs@)),
{
    let ghost all = harness::result_views(runs@);
    let mut s: String = String::new();
    let mut i: usize = 0;
    assert(all.take(0) =~= Seq::empty());
    assert(s@ =~= Seq::empty());
    while i < runs.len()
        invariant
            i <= runs@.len(),
            all == harness::result_views(runs@),
            s@ == run_lines(all.take(i as int)),
        decreases runs@.len() - i,
    {
        assert(all.take(i + 1).drop_last() =~= all.take(i as int));
        assert(all.take(i + 1).last() == runs@[i as int]@);
        s.append(line_of_run(&runs[i]).as_str());
        i = i + 1;
    }
    assert(all.take(i as int) =~= all);
    s
}

fn lines_of_trends(trends: &Vec<Trend>) -> (s: String)
    ensures
        s@ == trend_lines(trends@),
{
    let mut s: String = String::new();
    let mut i: usize = 0;
    assert(trends@.take(0) =~= Seq::empty());
    assert(s@ =~= Seq::empty());
    while i < trends.len()
        invariant
            i <= trends@.len(),
            s@ == trend_lines(trends@.take(i as int)),
        decreases trends@.len() - i,
    {
        assert(trends@.take(i + 1).drop_last() =~= trends@.take(i as int));
        s.append(line_of_trend(&trends[i]).as_str());
        i = i + 1;
    }
    assert(trends@.take(i as int) =~= trends@);
    s
}

fn lines_of_verdicts(verdicts: &Vec<Verdict>) -> (s: String)
    ensures
        s@ == verdict_lines(verdicts@),
{
    let mut s: String = String::new();
    let mut i: usize = 0;
    assert(verdicts@.take(0) =~= Seq::empty());
    assert(s@ =~= Seq::empty());
    while i < verdicts.len()
        invariant
            i <= verdicts@.len(),
            s@ == verdict_lines(verdicts@.take(i as int)),
        decreases verdicts@.len() - i,
    {
        assert(verdicts@.take(i + 1).drop_last() =~= verdicts@.take(i as int));
        s.append(line_of_verdict(&verdicts[i]).as_str());
        i = i + 1;
    }
    assert(verdicts@.take(i as int) =~= verdicts@);
    s
}

fn lines_of_drops(drops: &Vec<Drops>) -> (s: String)
    ensures
        s@ == drop_lines(drops@),
{
    let mut s: String = String::new();
    let mut i: usize = 0;
    assert(drops@.take(0) =~= Seq::empty());
    assert(s@ =~= Seq::empty());
    while i < drops.len()
        invariant
            i <= drops@.len(),
            s@ == drop_lines(drops@.take(i as int)),
        decreases drops@.len() - i,
    {
        assert(drops@.take(i + 1).drop_last() =~= drops@.take(i as int));
        s.append(line_of_drops(&drops[i]).as_str());
        i = i + 1;
    }
    assert(drops@.take(i as int) =~= drops@);
    s
}

fn plan(f: &Findings) -> (s: String)
    ensures
        s@ == f.plan(),
{
    let mut s: String = "===== soak_harness report =====\n".to_string();
    if f.interrupted {
        s.append(
            "**SIGINT で打ち切り**(現 run を完走してから畳んだ —— 走行時間は予定より短い)\n",
        );
    } else {
        s.append("");
    }
    s.append("mode=");
    match f.mode {
        Mode::Soak => s.append("Soak"),
        Mode::Burst => s.append("Burst"),
    }
    s.append(" 走行予定=");
    s.append(f.planned_h.as_str());
    s.append(" h / 1 run=");
    s.append(f.run_min.as_str());
    s.append(" min / rate=");
    s.append(f.rate_mbps.as_str());
    s.append(" Mbps(0=全速)\nmetrics CSV = ");
    s.append(f.csv.as_str());
    s.append("\nサンプル数 = ");
    push_decimal(&mut s, f.samples);
    s.append(" / 列数 = ");
    push_decimal(&mut s, f.columns);
    s.append("\n");
    s
}

fn all_runs(f: &Findings, laps: u64, bytes: u64) -> (s: String)
    requires
        laps == harness::total_laps(harness::result_views(f.runs@)),
        bytes == harness::total_bytes(harness::result_views(f.runs@)),
    ensures
        s@ == f.all_runs(),
{
    let mut s: String = "\n-- run --\nrun 数 = ".to_string();
    push_decimal(&mut s, f.runs.len() as u64);
    s.append(" / 総 laps = ");
    push_decimal(&mut s, laps);
    s.append(" / 総送出 = ");
    push_decimal(&mut s, bytes);
    s.append(" B (");
    s.append(f.gib.as_str());
    s.append(" GiB) / 総 run 時間 = ");
    s.append(f.seconds.as_str());
    s.append(" s\n");
    let mut speed: String = "".to_string();
    if let Some(t) = &f.throughput {
        speed = "達成スループット = ".to_string();
        speed.append(t.mbps.as_str());
        speed.append(" Mbps(");
        speed.append(t.megabytes.as_str());
        speed.append(" MB/s、100 Hz 相当 224 Mbps の ");
        speed.append(t.ratio.as_str());
        speed.append("×)\n");
    }
    s.append(speed.as_str());
    s.append(lines_of_runs(&f.runs).as_str());
    s
}

/// The report; `None` where the totals cannot be written.
pub fn report(f: &Findings) -> (r: Option<String>)
    ensures
        match r {
            Some(s) => f.fits() && s@ == f.text(),
            None => !f.fits(),
        },
{
    let (laps, bytes) = match totals(&f.runs) {
        Some(t) => t,
        None => {
            return None;
        },
    };
    let mut s: String = plan(f);
    s.append(all_runs(f, laps, bytes).as_str());
    let mut part: String = "\n-- 全系列(始値 / 終値 / 傾き per h)--\n".to_string();
    part.append(lines_of_trends(&f.trends).as_str());
    s.append(part.as_str());
    let mut part: String =
        "\n-- RSS 単調性(後半 [H/2,H] の先頭窓 ×1.05 ≥ 末尾窓、窓 = H/12。H = 実測 ".to_string();
    part.append(f.span.as_str());
    part.append(" s)--\n");
    part.append(lines_of_verdicts(&f.verdicts).as_str());
    s.append(part.as_str());
    let mut part: String =
        "\n-- モニタ系 drop(落としてよいが silent にしない)--\n".to_string();
    part.append(lines_of_drops(&f.drops).as_str());
    part.append("  monitor 終了ログ = ");
    part.append(f.monitor_line.as_str());
    part.append("\n\n-- root_sink 終了 JSON --\n");
    part.append(f.counts.as_str());
    part.append("\n");
    s.append(part.as_str());
    Some(s)
}

/// The columns whose course is reported: all but those of the time.
pub open spec fn reported_columns(columns: Seq<Seq<char>>) -> Seq<Seq<char>>
    decreases columns.len(),
{
    if columns.len() == 0 {
        Seq::empty()
    } else {
        let before = reported_columns(columns.drop_last());
        if columns.last() == "ts_unix"@ || columns.last() == "elapsed_s"@ {
            before
        } else {
            before.push(columns.last())
        }
    }
}

/// The columns whose course is reported: all but those of the time.
pub fn trend_columns(columns: &Vec<String>) -> (out: Vec<String>)
    ensures
        text::values(out@) == reported_columns(text::values(columns@)),
{
    let ghost all = text::values(columns@);
    let mut out: Vec<String> = Vec::new();
    let mut i: usize = 0;
    assert(all.take(0) =~= Seq::empty());
    assert(text::values(out@) =~= Seq::empty());
    while i < columns.len()
        invariant
            i <= columns@.len(),
            all == text::values(columns@),
            text::values(out@) == reported_columns(all.take(i as int)),
        decreases columns@.len() - i,
    {
        assert(all.take(i + 1).drop_last() =~= all.take(i as int));
        assert(all.take(i + 1).last() == columns@[i as int]@);
        if !same(columns[i].as_str(), "ts_unix") && !same(columns[i].as_str(), "elapsed_s") {
            push_text(&mut out, columns[i].clone());
        }
        i = i + 1;
    }
    assert(all.take(i as int) =~= all);
    out
}

} // verus!

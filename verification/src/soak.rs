//! Endurance runs: what the harness is asked to do, what it samples, and what makes a run pass.
//!
//! One run sends a recorded file lap after lap. It passes where every event and every byte that
//! was sent is found again, and no counter that stands for a loss is other than zero. A counter
//! that cannot be read is no zero.

use vstd::prelude::*;

use crate::command;
use crate::command::Metrics;
use crate::controller;
use crate::replay;
use crate::replay::{check_fraction, check_integer};
use crate::tally;
use crate::tally::Tally;
use crate::text;
use crate::text::{
    chars_of, decimal_string, find_text, join_texts, parse_unsigned, parse_whole_part, push_decimal,
    push_text, same, split_lines, split_words,
};

verus! {

/// The bytes of one lap.
pub const GRAW_BYTES_PER_LAP: u64 = 30_108_684;

/// The events of one lap.
pub const EVENTS_PER_LAP: u64 = 108;

/// Who operates the controller.
pub const OPERATOR: &'static str = "soak-harness";

/// The passphrase that the harness configures and uses.
pub const PASSPHRASE: &'static str = "soak-harness-passphrase";

/// Where the controller listens.
pub const REST_LISTEN: &'static str = "127.0.0.1:18080";

/// Where the monitor listens.
pub const WS_LISTEN: &'static str = "127.0.0.1:19000";

/// Where the receiver listens for data.
pub const COBO_LISTEN: &'static str = "127.0.0.1:46005";

/// The hours that an endurance test takes, unless set otherwise.
pub const DEFAULT_DURATION_H: u64 = 12;

/// The minutes that a test at full speed takes, unless set otherwise.
pub const DEFAULT_BURST_MIN: u64 = 10;

/// The minutes that a run takes, unless set otherwise.
pub const DEFAULT_RUN_MINUTES: u64 = 10;

/// The rate of an endurance test in megabits per second, unless set otherwise.
pub const DEFAULT_SOAK_MBPS: u64 = 224;

/// The memory that a process may use, in mebibytes, unless set otherwise.
pub const DEFAULT_RSS_LIMIT_MIB: u64 = 4096;

/// The seconds between two samples, unless set otherwise.
pub const DEFAULT_METRICS_INTERVAL_S: u64 = 60;

/// The free space on the disk that is never used, in gibibytes, unless set otherwise.
pub const DEFAULT_MIN_FREE_GIB: u64 = 20;

// ---------------------------------------------------------------------
// Arguments
// ---------------------------------------------------------------------

/// What kind of test is made.
#[derive(Debug, Clone, Copy, PartialEq, Eq, Structural)]
pub enum Mode {
    /// For a long time, at a given rate.
    Soak,
    /// As fast as possible.
    Burst,
}

/// What an argument is, read as a floating-point number.
#[derive(Debug, Clone, Copy, PartialEq, Eq, Structural)]
pub enum Sign {
    /// Finite and greater than zero.
    Positive,
    /// Zero.
    Zero,
    /// Negative, not finite, or no number.
    Unfit,
}

/// What the harness is asked to do. Fractions are as they are written.
#[derive(Debug, Clone)]
pub struct Args {
    pub mode: Mode,
    pub duration_h: Option<String>,
    pub burst_min: Option<String>,
    pub rate_mbps: Option<String>,
    pub run_minutes: Option<String>,
    pub max_runs: Option<u64>,
    pub rss_limit_mib: u64,
    pub metrics_interval_s: u64,
    pub min_free_gib: u64,
    pub keep_outputs: bool,
    pub out_dir: Option<String>,
    pub bin_dir: Option<String>,
}

/// What is known of the arguments so far.
pub struct Scan {
    pub mode: Option<Mode>,
    pub duration_h: Option<Seq<char>>,
    pub burst_min: Option<Seq<char>>,
    pub rate_mbps: Option<Seq<char>>,
    pub run_minutes: Option<Seq<char>>,
    pub max_runs: Option<u64>,
    pub rss_limit_mib: u64,
    pub metrics_interval_s: u64,
    pub min_free_gib: u64,
    pub keep_outputs: bool,
    pub out_dir: Option<Seq<char>>,
    pub bin_dir: Option<Seq<char>>,
}

impl Args {
    /// What the arguments are once all are known.
    pub open spec fn scanned(&self) -> Scan {
        Scan {
            mode: Some(self.mode),
            duration_h: controller::text_of(self.duration_h),
            burst_min: controller::text_of(self.burst_min),
            rate_mbps: controller::text_of(self.rate_mbps),
            run_minutes: controller::text_of(self.run_minutes),
            max_runs: self.max_runs,
            rss_limit_mib: self.rss_limit_mib,
            metrics_interval_s: self.metrics_interval_s,
            min_free_gib: self.min_free_gib,
            keep_outputs: self.keep_outputs,
            out_dir: controller::text_of(self.out_dir),
            bin_dir: controller::text_of(self.bin_dir),
        }
    }
}

impl Scan {
    /// What is known before any argument is read.
    pub open spec fn nothing() -> Scan {
        Scan {
            mode: None,
            duration_h: None,
            burst_min: None,
            rate_mbps: None,
            run_minutes: None,
            max_runs: None,
            rss_limit_mib: DEFAULT_RSS_LIMIT_MIB,
            metrics_interval_s: DEFAULT_METRICS_INTERVAL_S,
            min_free_gib: DEFAULT_MIN_FREE_GIB,
            keep_outputs: false,
            out_dir: None,
            bin_dir: None,
        }
    }
}

/// Whether an argument is an option whose value is a positive fraction.
pub open spec fn takes_fraction(arg: Seq<char>) -> bool {
    arg == "--duration-h"@ || arg == "--burst-min"@ || arg == "--run-minutes"@
}

/// Whether an argument is an option whose value is a positive whole number.
pub open spec fn takes_integer(arg: Seq<char>) -> bool {
    arg == "--runs"@ || arg == "--rss-limit-mib"@ || arg == "--metrics-interval-s"@ || arg
        == "--min-free-gib"@
}

/// Whether an argument is an option with a value.
pub open spec fn takes_value(arg: Seq<char>) -> bool {
    takes_fraction(arg) || takes_integer(arg) || arg == "--mode"@ || arg == "--rate-mbps"@ || arg
        == "--out-dir"@ || arg == "--bin-dir"@
}

/// Why a value is not accepted, if it is not.
pub open spec fn value_problem(option: Seq<char>, value: Seq<char>, sign: Sign) -> Option<Seq<char>> {
    if takes_fraction(option) {
        replay::fraction_problem(option, value, sign == Sign::Positive)
    } else if takes_integer(option) {
        replay::integer_problem(option, value, u64::MAX as nat)
    } else if option == "--mode"@ {
        if value == "soak"@ || value == "burst"@ {
            None
        } else {
            Some("--mode must be soak|burst, got "@ + value)
        }
    } else if option == "--rate-mbps"@ {
        if !text::is_fraction(value) {
            Some(option + " value is not a number: "@ + value)
        } else if sign == Sign::Unfit {
            Some(option + " must be >= 0 and finite, got "@ + value)
        } else {
            None
        }
    } else {
        None
    }
}

/// What is known once an option with a value that is accepted is read.
pub open spec fn with_value(s: Scan, option: Seq<char>, value: Seq<char>) -> Scan {
    let number = text::unsigned(value)->0 as u64;
    if option == "--mode"@ {
        Scan {
            mode: Some(
                if value == "soak"@ {
                    Mode::Soak
                } else {
                    Mode::Burst
                },
            ),
            ..s
        }
    } else if option == "--duration-h"@ {
        Scan { duration_h: Some(value), ..s }
    } else if option == "--burst-min"@ {
        Scan { burst_min: Some(value), ..s }
    } else if option == "--rate-mbps"@ {
        Scan { rate_mbps: Some(value), ..s }
    } else if option == "--run-minutes"@ {
        Scan { run_minutes: Some(value), ..s }
    } else if option == "--runs"@ {
        Scan { max_runs: Some(number), ..s }
    } else if option == "--rss-limit-mib"@ {
        Scan { rss_limit_mib: number, ..s }
    } else if option == "--metrics-interval-s"@ {
        Scan { metrics_interval_s: number, ..s }
    } else if option == "--min-free-gib"@ {
        Scan { min_free_gib: number, ..s }
    } else if option == "--out-dir"@ {
        Scan { out_dir: Some(value), ..s }
    } else {
        Scan { bin_dir: Some(value), ..s }
    }
}

/// What is known once all arguments from `i` on are read, or why one is not accepted.
pub open spec fn scan(raw: Seq<Seq<char>>, signs: Seq<Sign>, i: int, s: Scan) -> Result<
    Scan,
    Seq<char>,
>
    decreases raw.len() - i,
{
    if i >= raw.len() {
        Ok(s)
    } else if raw[i] == "--keep-outputs"@ {
        scan(raw, signs, i + 1, Scan { keep_outputs: true, ..s })
    } else if !takes_value(raw[i]) {
        Err("unknown option: "@ + raw[i])
    } else if i + 1 >= raw.len() {
        Err(raw[i] + " requires a value"@)
    } else {
        match value_problem(raw[i], raw[i + 1], signs[i + 1]) {
            Some(e) => Err(e),
            None => scan(raw, signs, i + 2, with_value(s, raw[i], raw[i + 1])),
        }
    }
}

/// What the arguments ask for, or why they are not accepted. `signs` says of each argument what
/// it is, read as a floating-point number.
pub open spec fn parsed(raw: Seq<Seq<char>>, signs: Seq<Sign>) -> Result<Scan, Seq<char>> {
    match scan(raw, signs, 0, Scan::nothing()) {
        Err(e) => Err(e),
        Ok(s) => if s.mode is None {
            Err("--mode is required"@)
        } else {
            Ok(s)
        },
    }
}

struct Found {
    mode: Option<Mode>,
    duration_h: Option<String>,
    burst_min: Option<String>,
    rate_mbps: Option<String>,
    run_minutes: Option<String>,
    max_runs: Option<u64>,
    rss_limit_mib: u64,
    metrics_interval_s: u64,
    min_free_gib: u64,
    keep_outputs: bool,
    out_dir: Option<String>,
    bin_dir: Option<String>,
}

impl View for Found {
    type V = Scan;

    closed spec fn view(&self) -> Scan {
        Scan {
            mode: self.mode,
            duration_h: controller::text_of(self.duration_h),
            burst_min: controller::text_of(self.burst_min),
            rate_mbps: controller::text_of(self.rate_mbps),
            run_minutes: controller::text_of(self.run_minutes),
            max_runs: self.max_runs,
            rss_limit_mib: self.rss_limit_mib,
            metrics_interval_s: self.metrics_interval_s,
            min_free_gib: self.min_free_gib,
            keep_outputs: self.keep_outputs,
            out_dir: controller::text_of(self.out_dir),
            bin_dir: controller::text_of(self.bin_dir),
        }
    }
}

fn needs_fraction(arg: &str) -> (r: bool)
    ensures
        r == takes_fraction(arg@),
{
    same(arg, "--duration-h") || same(arg, "--burst-min") || same(arg, "--run-minutes")
}

fn needs_integer(arg: &str) -> (r: bool)
    ensures
        r == takes_integer(arg@),
{
    same(arg, "--runs") || same(arg, "--rss-limit-mib") || same(arg, "--metrics-interval-s")
        || same(arg, "--min-free-gib")
}

fn needs_value(arg: &str) -> (r: bool)
    ensures
        r == takes_value(arg@),
{
    needs_fraction(arg) || needs_integer(arg) || same(arg, "--mode") || same(arg, "--rate-mbps")
        || same(arg, "--out-dir") || same(arg, "--bin-dir")
}

fn refuse(option: &str, what: &str, value: &str) -> (s: String)
    ensures
        s@ == option@ + what@ + value@,
{
    let mut s: String = option.to_string();
    s.append(what);
    s.append(value);
    s
}

/// Checks a value. Where the option takes a whole number, this is what it is.
fn check_value(option: &str, value: &str, sign: Sign) -> (r: Result<u64, String>)
    requires
        takes_value(option@),
    ensures
        match value_problem(option@, value@, sign) {
            Some(e) => r matches Err(s) && s@ == e,
            None => r matches Ok(n) && (takes_integer(option@) ==> text::unsigned(value@) == Some(
                n as nat,
            )),
        },
{
    proof {
        lemma_options_differ();
    }
    if needs_fraction(option) {
        match check_fraction(option, value, sign == Sign::Positive) {
            Err(e) => Err(e),
            Ok(_) => Ok(0),
        }
    } else if needs_integer(option) {
        check_integer(option, value, u64::MAX)
    } else if same(option, "--mode") {
        if same(value, "soak") || same(value, "burst") {
            Ok(0)
        } else {
            let mut s: String = "--mode must be soak|burst, got ".to_string();
            s.append(value);
            Err(s)
        }
    } else if same(option, "--rate-mbps") {
        match check_fraction(option, value, true) {
            Err(e) => Err(e),
            Ok(_) => if sign == Sign::Unfit {
                Err(refuse(option, " must be >= 0 and finite, got ", value))
            } else {
                Ok(0)
            },
        }
    } else {
        Ok(0)
    }
}

proof fn lemma_options_differ()
    ensures
        !takes_fraction("--mode"@),
        !takes_integer("--mode"@),
        !takes_fraction("--rate-mbps"@),
        !takes_integer("--rate-mbps"@),
        !takes_fraction("--out-dir"@),
        !takes_integer("--out-dir"@),
        !takes_fraction("--bin-dir"@),
        !takes_integer("--bin-dir"@),
        forall|a: Seq<char>| #[trigger] takes_fraction(a) ==> !takes_integer(a),
{
    reveal_strlit("--mode");
    reveal_strlit("--duration-h");
    reveal_strlit("--burst-min");
    reveal_strlit("--rate-mbps");
    reveal_strlit("--run-minutes");
    reveal_strlit("--runs");
    reveal_strlit("--rss-limit-mib");
    reveal_strlit("--metrics-interval-s");
    reveal_strlit("--min-free-gib");
    reveal_strlit("--out-dir");
    reveal_strlit("--bin-dir");
    assert("--mode"@[2] == 'm');
    assert("--runs"@[3] == 'u' && "--runs"@.len() == 6);
    assert("--mode"@.len() == 6);
    assert("--duration-h"@[2] == 'd');
    assert("--burst-min"@[2] == 'b' && "--burst-min"@.len() == 11);
    assert("--rate-mbps"@[2] == 'r' && "--rate-mbps"@.len() == 11);
    assert("--run-minutes"@[2] == 'r' && "--run-minutes"@.len() == 13);
    assert("--rss-limit-mib"@.len() == 15);
    assert("--metrics-interval-s"@.len() == 20);
    assert("--min-free-gib"@.len() == 14);
    assert("--out-dir"@.len() == 9 && "--bin-dir"@.len() == 9);
    assert("--duration-h"@.len() == 12);
}

impl Found {
    fn set(&mut self, option: &str, value: &String, number: u64)
        requires
            takes_value(option@),
            takes_integer(option@) ==> text::unsigned(value@) == Some(number as nat),
        ensures
            final(self)@ == with_value(old(self)@, option@, value@),
    {
        if same(option, "--mode") {
            self.mode = if same(value.as_str(), "soak") {
                Some(Mode::Soak)
            } else {
                Some(Mode::Burst)
            };
        } else if same(option, "--duration-h") {
            self.duration_h = Some(value.clone());
        } else if same(option, "--burst-min") {
            self.burst_min = Some(value.clone());
        } else if same(option, "--rate-mbps") {
            self.rate_mbps = Some(value.clone());
        } else if same(option, "--run-minutes") {
            self.run_minutes = Some(value.clone());
        } else if same(option, "--runs") {
            self.max_runs = Some(number);
        } else if same(option, "--rss-limit-mib") {
            self.rss_limit_mib = number;
        } else if same(option, "--metrics-interval-s") {
            self.metrics_interval_s = number;
        } else if same(option, "--min-free-gib") {
            self.min_free_gib = number;
        } else if same(option, "--out-dir") {
            self.out_dir = Some(value.clone());
        } else {
            self.bin_dir = Some(value.clone());
        }
    }
}

/// What the arguments ask for, or why they are not accepted. `signs` says of each argument what
/// it is, read as a floating-point number.
pub fn parse(raw: &Vec<String>, signs: &Vec<Sign>) -> (r: Result<Args, String>)
    requires
        signs@.len() == raw@.len(),
    ensures
        match parsed(text::values(raw@), signs@) {
            Err(e) => r matches Err(s) && s@ == e,
            Ok(s) => r matches Ok(args) && args.scanned() == s,
        },
{
    let ghost all = text::values(raw@);
    let mut found = Found {
        mode: None,
        duration_h: None,
        burst_min: None,
        rate_mbps: None,
        run_minutes: None,
        max_runs: None,
        rss_limit_mib: DEFAULT_RSS_LIMIT_MIB,
        metrics_interval_s: DEFAULT_METRICS_INTERVAL_S,
        min_free_gib: DEFAULT_MIN_FREE_GIB,
        keep_outputs: false,
        out_dir: None,
        bin_dir: None,
    };
    let n: usize = raw.len();
    let mut i: usize = 0;
    while i < n
        invariant
            i <= n == raw@.len() == signs@.len(),
            all == text::values(raw@),
            scan(all, signs@, i as int, found@) == scan(all, signs@, 0, Scan::nothing()),
        decreases n - i,
    {
        let arg = raw[i].as_str();
        assert(all[i as int] == arg@);
        if same(arg, "--keep-outputs") {
            found.keep_outputs = true;
            i = i + 1;
        } else {
            if !needs_value(arg) {
                let mut e: String = "unknown option: ".to_string();
                e.append(arg);
                return Err(e);
            }
            if i + 1 >= n {
                let mut e: String = arg.to_string();
                e.append(" requires a value");
                return Err(e);
            }
            assert(all[i + 1] == raw@[i + 1]@);
            match check_value(arg, raw[i + 1].as_str(), signs[i + 1]) {
                Err(e) => {
                    return Err(e);
                },
                Ok(number) => found.set(arg, &raw[i + 1], number),
            }
            i = i + 2;
        }
    }
    match found.mode {
        None => Err("--mode is required".to_string()),
        Some(mode) => Ok(
            Args {
                mode,
                duration_h: found.duration_h,
                burst_min: found.burst_min,
                rate_mbps: found.rate_mbps,
                run_minutes: found.run_minutes,
                max_runs: found.max_runs,
                rss_limit_mib: found.rss_limit_mib,
                metrics_interval_s: found.metrics_interval_s,
                min_free_gib: found.min_free_gib,
                keep_outputs: found.keep_outputs,
                out_dir: found.out_dir,
                bin_dir: found.bin_dir,
            },
        ),
    }
}

// ---------------------------------------------------------------------
// Samples
// ---------------------------------------------------------------------

/// The columns of counters.
pub const COUNTER_NAMES: [&'static str; 26] = [
    "recv_bytes",
    "recv_frames",
    "recv_overflow_frames",
    "recv_framer_resets",
    "recv_messages_abandoned",
    "recv_encode_errors",
    "recv_send_errors",
    "recv_extra_connections",
    "recv_empty_connections",
    "dec_frames_in",
    "dec_fragments_out",
    "dec_malformed",
    "dec_seq_gaps",
    "dec_run_mismatches",
    "dec_batches_abandoned",
    "dec_eos_abandoned",
    "dec_cobo_mismatch",
    "gw_seq_gaps",
    "gw_run_mismatches",
    "gw_write_errors",
    "gw_unexpected_sources",
    "gw_decode_errors",
    "rs_events_built",
    "rs_events_incomplete",
    "rs_late_fragments",
    "rs_pending_events",
];

/// Where the counters of [`COUNTER_NAMES`] come from: who reports it, and under which name.
pub const COUNTER_SOURCES: [&'static str; 26] = [
    "recv.bytes",
    "recv.frames",
    "recv.overflow_frames",
    "recv.framer_resets",
    "recv.messages_abandoned",
    "recv.encode_errors",
    "recv.send_errors",
    "recv.extra_connections",
    "recv.empty_connections",
    "dec.frames_in",
    "dec.fragments_out",
    "dec.malformed",
    "dec.seq_gaps",
    "dec.run_mismatches",
    "dec.batches_abandoned",
    "dec.eos_abandoned",
    "dec.cobo_mismatch",
    "gw.seq_gaps",
    "gw.run_mismatches",
    "gw.write_errors",
    "gw.unexpected_sources",
    "gw.decode_errors",
    "rs.events_built",
    "rs.events_incomplete",
    "rs.late_fragments",
    "rs.pending_events",
];

/// The columns of what the monitor drops.
pub const MONITOR_NAMES: [&'static str; 4] = [
    "mon_publish_drops",
    "mon_gaps",
    "mon_ws_dropped",
    "mon_clients",
];

/// Where the counters of [`MONITOR_NAMES`] come from.
pub const MONITOR_SOURCES: [&'static str; 4] = [
    "rs.publish_drops",
    "mon.monitorGaps",
    "mon.wsDropped",
    "mon.clients",
];

/// The counters that stand for a loss.
pub const MUST_BE_ZERO: [&'static str; 16] = [
    "recv_overflow_frames",
    "recv_framer_resets",
    "recv_messages_abandoned",
    "recv_encode_errors",
    "recv_send_errors",
    "recv_extra_connections",
    "dec_malformed",
    "dec_seq_gaps",
    "dec_run_mismatches",
    "dec_batches_abandoned",
    "dec_eos_abandoned",
    "dec_cobo_mismatch",
    "gw_seq_gaps",
    "gw_run_mismatches",
    "gw_write_errors",
    "gw_unexpected_sources",
];

/// Where the counters of [`MUST_BE_ZERO`] come from.
pub const ZERO_SOURCES: [&'static str; 16] = [
    "recv.overflow_frames",
    "recv.framer_resets",
    "recv.messages_abandoned",
    "recv.encode_errors",
    "recv.send_errors",
    "recv.extra_connections",
    "dec.malformed",
    "dec.seq_gaps",
    "dec.run_mismatches",
    "dec.batches_abandoned",
    "dec.eos_abandoned",
    "dec.cobo_mismatch",
    "gw.seq_gaps",
    "gw.run_mismatches",
    "gw.write_errors",
    "gw.unexpected_sources",
];

/// The values of names.
pub open spec fn names_of(names: Seq<&'static str>) -> Seq<Seq<char>> {
    names.map_values(|n: &'static str| n@)
}

/// Names with something in front of each.
pub open spec fn prefixed(prefix: Seq<char>, names: Seq<Seq<char>>) -> Seq<Seq<char>> {
    names.map_values(|n: Seq<char>| prefix + n)
}

/// The columns of a sample up to the free space on the disk: memory and open files of each
/// process, and the counters.
pub open spec fn csv_columns(procs: Seq<Seq<char>>) -> Seq<Seq<char>> {
    seq!["ts_unix"@, "elapsed_s"@, "run_index"@, "run_number"@] + prefixed("rss_kib_"@, procs)
        + prefixed("fd_"@, procs) + names_of(COUNTER_NAMES@) + seq!["free_gib"@]
}

/// The columns of a sample: behind those of [`csv_columns`] stands what the monitor drops.
pub open spec fn columns(procs: Seq<Seq<char>>) -> Seq<Seq<char>> {
    csv_columns(procs) + names_of(MONITOR_NAMES@)
}

fn push_prefixed(cols: &mut Vec<String>, prefix: &str, procs: &Vec<String>)
    ensures
        text::values(final(cols)@) == text::values(old(cols)@) + prefixed(
            prefix@,
            text::values(procs@),
        ),
{
    let ghost start = text::values(cols@);
    let ghost all = prefixed(prefix@, text::values(procs@));
    let mut i: usize = 0;
    assert(text::values(cols@) =~= start + all.take(0));
    while i < procs.len()
        invariant
            i <= procs@.len(),
            all == prefixed(prefix@, text::values(procs@)),
            text::values(cols@) == start + all.take(i as int),
        decreases procs@.len() - i,
    {
        let mut c: String = prefix.to_string();
        c.append(procs[i].as_str());
        push_text(cols, c);
        i = i + 1;
        assert(text::values(cols@) =~= start + all.take(i as int));
    }
    assert(all.take(i as int) =~= all);
}

fn push_names(cols: &mut Vec<String>, names: &[&'static str])
    ensures
        text::values(final(cols)@) == text::values(old(cols)@) + names_of(names@),
{
    let ghost start = text::values(cols@);
    let ghost all = names_of(names@);
    let mut i: usize = 0;
    assert(text::values(cols@) =~= start + all.take(0));
    while i < names.len()
        invariant
            i <= names@.len(),
            all == names_of(names@),
            text::values(cols@) == start + all.take(i as int),
        decreases names@.len() - i,
    {
        push_text(cols, names[i].to_string());
        i = i + 1;
        assert(text::values(cols@) =~= start + all.take(i as int));
    }
    assert(all.take(i as int) =~= all);
}

/// The names of the columns up to the free space on the disk.
pub fn csv_header(procs: &Vec<String>) -> (s: String)
    ensures
        s@ == text::join(csv_columns(text::values(procs@)), ","@),
{
    let mut cols: Vec<String> = Vec::new();
    cols.push("ts_unix".to_string());
    cols.push("elapsed_s".to_string());
    cols.push("run_index".to_string());
    cols.push("run_number".to_string());
    assert(text::values(cols@) =~= seq!["ts_unix"@, "elapsed_s"@, "run_index"@, "run_number"@]);
    push_prefixed(&mut cols, "rss_kib_", procs);
    push_prefixed(&mut cols, "fd_", procs);
    push_names(&mut cols, &COUNTER_NAMES);
    let ghost before = text::values(cols@);
    push_text(&mut cols, "free_gib".to_string());
    assert(text::values(cols@) =~= before + seq!["free_gib"@]);
    join_texts(&cols, ",")
}

/// The first line of the file of samples: the names of all columns.
pub fn sample_header(procs: &Vec<String>) -> (s: String)
    ensures
        s@ == text::join(columns(text::values(procs@)), ","@),
{
    let ghost before = csv_columns(text::values(procs@));
    let ghost all = names_of(MONITOR_NAMES@);
    let mut s: String = csv_header(procs);
    let mut i: usize = 0;
    assert(before + all.take(0) =~= before);
    while i < MONITOR_NAMES.len()
        invariant
            i <= MONITOR_NAMES@.len(),
            before.len() > 0,
            all == names_of(MONITOR_NAMES@),
            s@ == text::join(before + all.take(i as int), ","@),
        decreases MONITOR_NAMES@.len() - i,
    {
        proof {
            let now = before + all.take(i as int);
            let then = before + all.take(i + 1);
            assert(then.drop_last() =~= now);
            assert(then.last() == MONITOR_NAMES@[i as int]@);
        }
        s.append(",");
        s.append(MONITOR_NAMES[i]);
        i = i + 1;
    }
    assert(all.take(i as int) =~= all);
    s
}

/// What was reported at one time.
#[derive(Debug, Clone)]
pub struct Snapshot {
    /// What each component reports.
    pub components: Vec<(String, Metrics)>,
    /// What the monitor reports.
    pub monitor: Option<Metrics>,
}

/// The value of a [`Snapshot`].
pub struct SnapshotView {
    pub components: Seq<(Seq<char>, Seq<(Seq<char>, command::MetricView)>)>,
    pub monitor: Option<Seq<(Seq<char>, command::MetricView)>>,
}

impl View for Snapshot {
    type V = SnapshotView;

    open spec fn view(&self) -> SnapshotView {
        SnapshotView {
            components: self.components@.map_values(|c: (String, Metrics)| (c.0@, c.1@)),
            monitor: match self.monitor {
                Some(m) => Some(m@),
                None => None,
            },
        }
    }
}

/// A number that the first component of a name reports.
pub open spec fn reported(
    components: Seq<(Seq<char>, Seq<(Seq<char>, command::MetricView)>)>,
    name: Seq<char>,
    key: Seq<char>,
) -> Option<u64>
    decreases components.len(),
{
    if components.len() == 0 {
        None
    } else if components.first().0 == name {
        command::metric_u64(components.first().1, key)
    } else {
        reported(components.drop_first(), name, key)
    }
}

/// A number that the first component of a name reports.
pub fn component_metric(status: &Snapshot, name: &str, key: &str) -> (n: Option<u64>)
    ensures
        n == reported(status@.components, name@, key@),
{
    let ghost all = status@.components;
    let mut i: usize = 0;
    assert(all.skip(0) =~= all);
    while i < status.components.len()
        invariant
            i <= status.components@.len(),
            all == status@.components,
            reported(all.skip(i as int), name@, key@) == reported(all, name@, key@),
        decreases status.components@.len() - i,
    {
        assert(all.skip(i as int).first() == (
            status.components@[i as int].0@,
            status.components@[i as int].1@,
        ));
        assert(all.skip(i as int).drop_first() =~= all.skip(i + 1));
        if same(status.components[i].0.as_str(), name) {
            return status.components[i].1.get_u64(key);
        }
        i = i + 1;
    }
    None
}

/// The place of the first dot, or the length if there is none.
pub open spec fn dot(s: Seq<char>) -> int
    decreases s.len(),
{
    if s.len() == 0 {
        0
    } else if s.first() == '.' {
        0
    } else {
        1 + dot(s.drop_first())
    }
}

/// The counter that `source` names: who reports it, a dot, and under which name.
pub open spec fn counter(source: Seq<char>, status: SnapshotView) -> Option<u64> {
    let at = dot(source);
    if at >= source.len() {
        None
    } else {
        let who = source.take(at);
        let key = source.skip(at + 1);
        if who == "recv"@ {
            reported(status.components, "receiver0"@, key)
        } else if who == "dec"@ {
            reported(status.components, "decoder"@, key)
        } else if who == "gw"@ {
            reported(status.components, "graw-writer"@, key)
        } else if who == "rs"@ || who == "mon"@ {
            match status.monitor {
                Some(m) => command::metric_u64(m, key),
                None => None,
            }
        } else {
            None
        }
    }
}

/// How a counter is written: in decimal, or not at all where it is not known.
pub open spec fn cell(n: Option<u64>) -> Seq<char> {
    match n {
        Some(n) => text::decimal(n as nat),
        None => Seq::empty(),
    }
}

/// A counter that is not known is not written as a zero.
pub proof fn law_an_unknown_counter_is_no_zero(n: Option<u64>)
    ensures
        cell(n) == text::decimal(0) <==> n == Some(0u64),
        cell(n).len() == 0 <==> n is None,
{
    text::law_decimal_round_trip(0);
    match n {
        Some(k) => {
            text::law_decimal_round_trip(k as nat);
            if text::decimal(k as nat) == text::decimal(0) {
                text::law_decimal_is_injective(k as nat, 0);
            }
        },
        None => {},
    }
}

/// The counter that `source` names: who reports it, a dot, and under which name.
pub fn counter_value(source: &str, status: &Snapshot) -> (n: Option<u64>)
    ensures
        n == counter(source@, status@),
{
    let chars: Vec<char> = chars_of(source);
    let mut at: usize = 0;
    assert(source@.skip(0) =~= source@);
    while at < chars.len() && chars[at] != '.'
        invariant
            at <= chars@.len(),
            chars@ == source@,
            at + dot(source@.skip(at as int)) == dot(source@),
        decreases chars@.len() - at,
    {
        assert(source@.skip(at as int).drop_first() =~= source@.skip(at + 1));
        at = at + 1;
    }
    if at >= chars.len() {
        assert(source@.skip(at as int) =~= Seq::empty());
        return None;
    }
    assert(source@.skip(at as int).first() == '.');
    let who: String = text::string_of(&chars.as_slice()[0..at]);
    let key: String = text::string_of(&chars.as_slice()[at + 1..chars.len()]);
    assert(who@ =~= source@.take(at as int));
    assert(key@ =~= source@.skip(at + 1));
    let w = who.as_str();
    if same(w, "recv") {
        component_metric(status, "receiver0", key.as_str())
    } else if same(w, "dec") {
        component_metric(status, "decoder", key.as_str())
    } else if same(w, "gw") {
        component_metric(status, "graw-writer", key.as_str())
    } else if same(w, "rs") || same(w, "mon") {
        match &status.monitor {
            Some(m) => m.get_u64(key.as_str()),
            None => None,
        }
    } else {
        None
    }
}

/// How the counter that `source` names is written.
pub fn counter_cell(source: &str, status: &Snapshot) -> (s: String)
    ensures
        s@ == cell(counter(source@, status@)),
{
    match counter_value(source, status) {
        Some(n) => decimal_string(n),
        None => {
            let s: String = String::new();
            assert(s@ =~= Seq::empty());
            s
        },
    }
}

/// Whether a component reports anything of a run.
pub open spec fn reports_run(status: SnapshotView, name: Seq<char>) -> bool {
    reported(status.components, name, "heartbeats_in"@) is Some || reported(
        status.components,
        name,
        "frames"@,
    ) is Some
}

/// Whether all three components report something of a run.
pub open spec fn all_report(status: SnapshotView) -> bool {
    &&& reports_run(status, "receiver0"@)
    &&& reports_run(status, "decoder"@)
    &&& reports_run(status, "graw-writer"@)
}

/// Whether all three components report something of a run.
pub fn has_all_metrics(status: &Snapshot) -> (r: bool)
    ensures
        r == all_report(status@),
{
    let recv: bool = component_metric(status, "receiver0", "heartbeats_in").is_some()
        || component_metric(status, "receiver0", "frames").is_some();
    let dec: bool = component_metric(status, "decoder", "heartbeats_in").is_some()
        || component_metric(status, "decoder", "frames").is_some();
    let gw: bool = component_metric(status, "graw-writer", "heartbeats_in").is_some()
        || component_metric(status, "graw-writer", "frames").is_some();
    recv && dec && gw
}

// ---------------------------------------------------------------------
// What makes a run pass
// ---------------------------------------------------------------------

/// The number of laps that so many bytes are.
pub open spec fn laps_of(replayed_bytes: u64) -> Option<u64> {
    if replayed_bytes > 0 && replayed_bytes % GRAW_BYTES_PER_LAP == 0 {
        Some(replayed_bytes / GRAW_BYTES_PER_LAP)
    } else {
        None
    }
}

/// Why so many bytes are no laps.
pub open spec fn no_laps(replayed_bytes: u64) -> Seq<char> {
    if replayed_bytes == 0 {
        "1 周も送れていない(--run-minutes が短すぎる)"@
    } else {
        "graw_replay が lap 境界で止まっていない: "@ + text::decimal(replayed_bytes as nat)
            + " B は 30108684 B の整数倍でない"@
    }
}

/// The number of laps that so many bytes are, or why they are no laps.
pub fn count_laps(replayed_bytes: u64) -> (r: Result<u64, String>)
    ensures
        match laps_of(replayed_bytes) {
            Some(n) => r matches Ok(laps) && laps == n && laps > 0,
            None => r matches Err(s) && s@ == no_laps(replayed_bytes),
        },
{
    if replayed_bytes % GRAW_BYTES_PER_LAP != 0 {
        let mut s: String = "graw_replay が lap 境界で止まっていない: ".to_string();
        push_decimal(&mut s, replayed_bytes);
        s.append(" B は 30108684 B の整数倍でない");
        return Err(s);
    }
    let laps: u64 = replayed_bytes / GRAW_BYTES_PER_LAP;
    if laps == 0 {
        return Err("1 周も送れていない(--run-minutes が短すぎる)".to_string());
    }
    Ok(laps)
}

/// The first of the counters from `i` on that stand for a loss and are not known to be zero.
pub open spec fn first_loss(status: SnapshotView, i: int) -> int
    decreases MUST_BE_ZERO@.len() - i,
{
    if i >= MUST_BE_ZERO@.len() {
        MUST_BE_ZERO@.len() as int
    } else if counter(ZERO_SOURCES@[i]@, status) != Some(0u64) {
        i
    } else {
        first_loss(status, i + 1)
    }
}

/// What a run has left behind.
#[derive(Debug, Clone)]
pub struct RunEvidence {
    pub run: u32,
    pub laps: u64,
    pub replayed_bytes: u64,
    /// The events in the files that were written of them.
    pub entries: u64,
    /// The bytes in the files of raw frames.
    pub graw_bytes: u64,
    /// The lines in which the last process gave up, as they are shown; none where it did not.
    pub fatals: Option<String>,
}

/// Whether a run passes: all events and all bytes are there, no counter that stands for a loss is
/// other than zero, and nothing gave up.
pub open spec fn passes(e: RunEvidence, status: SnapshotView) -> bool {
    &&& e.entries == e.laps * EVENTS_PER_LAP
    &&& e.graw_bytes == e.replayed_bytes
    &&& forall|i: int|
        0 <= i < MUST_BE_ZERO@.len() ==> counter((#[trigger] ZERO_SOURCES@[i])@, status) == Some(
            0u64,
        )
    &&& e.fatals is None
}

proof fn lemma_first_loss(status: SnapshotView, i: int)
    requires
        0 <= i <= MUST_BE_ZERO@.len(),
    ensures
        i <= first_loss(status, i) <= MUST_BE_ZERO@.len(),
        first_loss(status, i) == MUST_BE_ZERO@.len() <==> forall|k: int|
            i <= k < MUST_BE_ZERO@.len() ==> counter((#[trigger] ZERO_SOURCES@[k])@, status)
                == Some(0u64),
    decreases MUST_BE_ZERO@.len() - i,
{
    if i < MUST_BE_ZERO@.len() && counter(ZERO_SOURCES@[i]@, status) == Some(0u64) {
        lemma_first_loss(status, i + 1);
        assert forall|k: int| first_loss(status, i) == MUST_BE_ZERO@.len() && i <= k
            < MUST_BE_ZERO@.len() implies counter((#[trigger] ZERO_SOURCES@[k])@, status) == Some(
            0u64,
        ) by {
            if k > i {
                assert(counter(ZERO_SOURCES@[k]@, status) == Some(0u64));
            }
        }
    } else if i < MUST_BE_ZERO@.len() {
        assert(counter(ZERO_SOURCES@[i]@, status) != Some(0u64));
    }
}

/// What is said of a counter that stands for a loss and is not known to be zero.
pub open spec fn loss_message(run: u32, i: int, status: SnapshotView) -> Seq<char> {
    let n = counter(ZERO_SOURCES@[i]@, status);
    "run "@ + text::decimal(run as nat) + if n is None {
        ": カウンタ "@ + MUST_BE_ZERO@[i]@ + " が読めない(コンポーネント応答が欠けた)"@
    } else {
        ": ロスレスカウンタ "@ + MUST_BE_ZERO@[i]@ + " = "@ + cell(n)
            + "(0 でなければ不合格)"@
    }
}

/// Why a run does not pass, if it does not.
pub open spec fn run_problem(e: RunEvidence, status: SnapshotView) -> Option<Seq<char>> {
    let run = "run "@ + text::decimal(e.run as nat);
    let i = first_loss(status, 0);
    if e.entries != e.laps * EVENTS_PER_LAP {
        Some(
            run + ": ROOT entries = "@ + text::decimal(e.entries as nat) + "(期待 "@ + text::decimal(
                (e.laps * EVENTS_PER_LAP) as nat,
            ) + " = "@ + text::decimal(e.laps as nat) + " laps × 108)"@,
        )
    } else if e.graw_bytes != e.replayed_bytes {
        Some(
            run + ": 生 graw 出力 "@ + text::decimal(e.graw_bytes as nat) + " B ≠ 送出 "@
                + text::decimal(e.replayed_bytes as nat) + " B ("@ + text::decimal(e.laps as nat)
                + " laps × 30108684)"@,
        )
    } else if i < MUST_BE_ZERO@.len() {
        Some(loss_message(e.run, i, status))
    } else {
        match e.fatals {
            Some(lines) => Some(run + ": root_sink FATAL: "@ + lines@),
            None => None,
        }
    }
}

/// A run has a problem exactly where it does not pass.
pub proof fn law_problems_are_failures(e: RunEvidence, status: SnapshotView)
    ensures
        run_problem(e, status) is None <==> passes(e, status),
{
    lemma_first_loss(status, 0);
}

fn run_text(run: u32) -> (s: String)
    ensures
        s@ == "run "@ + text::decimal(run as nat),
{
    let mut s: String = "run ".to_string();
    push_decimal(&mut s, run as u64);
    s
}

fn check_losses(run: u32, status: &Snapshot) -> (r: Result<(), String>)
    ensures
        match first_loss(status@, 0) {
            i => if i < MUST_BE_ZERO@.len() {
                r matches Err(s) && s@ == loss_message(run, i, status@)
            } else {
                r is Ok
            },
        },
{
    let mut i: usize = 0;
    while i < 16
        invariant
            i <= 16 == MUST_BE_ZERO@.len(),
            first_loss(status@, i as int) == first_loss(status@, 0),
        decreases 16 - i,
    {
        let n: Option<u64> = counter_value(ZERO_SOURCES[i], status);
        match n {
            None => {
                let mut s: String = run_text(run);
                let mut tail: String = ": カウンタ ".to_string();
                tail.append(MUST_BE_ZERO[i]);
                tail.append(" が読めない(コンポーネント応答が欠けた)");
                s.append(tail.as_str());
                return Err(s);
            },
            Some(v) => {
                if v != 0 {
                    let mut s: String = run_text(run);
                    let mut tail: String = ": ロスレスカウンタ ".to_string();
                    tail.append(MUST_BE_ZERO[i]);
                    tail.append(" = ");
                    push_decimal(&mut tail, v);
                    tail.append("(0 でなければ不合格)");
                    s.append(tail.as_str());
                    return Err(s);
                }
            },
        }
        i = i + 1;
    }
    Ok(())
}

/// Decides whether a run passes, and says why if it does not.
pub fn check_run(e: &RunEvidence, status: &Snapshot) -> (r: Result<(), String>)
    requires
        e.laps * EVENTS_PER_LAP <= u64::MAX,
    ensures
        match run_problem(*e, status@) {
            Some(why) => r matches Err(s) && s@ == why,
            None => r is Ok,
        },
        r is Ok <==> passes(*e, status@),
{
    proof {
        law_problems_are_failures(*e, status@);
    }
    if e.entries != e.laps * EVENTS_PER_LAP {
        let mut s: String = run_text(e.run);
        s.append(": ROOT entries = ");
        push_decimal(&mut s, e.entries);
        s.append("(期待 ");
        push_decimal(&mut s, e.laps * EVENTS_PER_LAP);
        s.append(" = ");
        push_decimal(&mut s, e.laps);
        s.append(" laps × 108)");
        return Err(s);
    }
    if e.graw_bytes != e.replayed_bytes {
        let mut s: String = run_text(e.run);
        s.append(": 生 graw 出力 ");
        push_decimal(&mut s, e.graw_bytes);
        s.append(" B ≠ 送出 ");
        push_decimal(&mut s, e.replayed_bytes);
        s.append(" B (");
        push_decimal(&mut s, e.laps);
        s.append(" laps × 30108684)");
        return Err(s);
    }
    if let Err(why) = check_losses(e.run, status) {
        return Err(why);
    }
    match &e.fatals {
        Some(lines) => {
            let mut s: String = run_text(e.run);
            s.append(": root_sink FATAL: ");
            s.append(lines.as_str());
            Err(s)
        },
        None => Ok(()),
    }
}

/// The counters that have to be zero at the end.
pub const FINAL_ZERO: [&'static str; 12] = [
    "events_incomplete",
    "late_fragments",
    "unexpected_fragments",
    "duplicate_fragments",
    "unexpected_sources",
    "run_number_mismatch",
    "stale_eos",
    "unknown",
    "duplicate_event_ids",
    "items_out_of_range",
    "charge_keys_out_of_range",
    "frames_outside_geometry",
];

/// The first of the counters from `i` on that have to be zero at the end and are not.
pub open spec fn first_final(counts: Seq<(Seq<char>, command::MetricView)>, i: int) -> int
    decreases FINAL_ZERO@.len() - i,
{
    if i >= FINAL_ZERO@.len() {
        FINAL_ZERO@.len() as int
    } else if command::metric_u64(counts, FINAL_ZERO@[i]@) != Some(0u64) {
        i
    } else {
        first_final(counts, i + 1)
    }
}

/// A total that is said at the end; what is not said counts as the highest number.
pub open spec fn final_total(counts: Seq<(Seq<char>, command::MetricView)>, key: Seq<char>) -> u64 {
    match command::metric_u64(counts, key) {
        Some(n) => n,
        None => u64::MAX,
    }
}

/// What is said of a total that is wrong.
pub open spec fn total_message(key: Seq<char>, got: u64, want: nat) -> Seq<char> {
    "root_sink 終了 JSON の "@ + key + " = "@ + text::decimal(got as nat) + "(期待 "@
        + text::decimal(want) + ")"@
}

/// Why the end does not pass, if it does not. `shown` is how everything that was said is written,
/// and `fatal_shown` how the reason to give up is.
pub open spec fn final_problem(
    counts: Option<Seq<(Seq<char>, command::MetricView)>>,
    laps_total: u64,
    shown: Seq<char>,
    fatal_shown: Seq<char>,
) -> Option<Seq<char>> {
    match counts {
        None => Some("root_sink の終了 JSON を回収できなかった"@),
        Some(c) => {
            let i = first_final(c, 0);
            let want = (laps_total * EVENTS_PER_LAP) as nat;
            if i < FINAL_ZERO@.len() {
                let key = FINAL_ZERO@[i]@;
                match command::metric_u64(c, key) {
                    None => Some("終了 JSON に "@ + key + " が無い: "@ + shown),
                    Some(n) => Some(
                        "root_sink 終了 JSON の "@ + key + " = "@ + text::decimal(n as nat)
                            + "(0 でなければ不合格)"@,
                    ),
                }
            } else if command::metric_text(c, "fatal"@) != Some(""@) {
                Some("root_sink が fatal で終わった: "@ + fatal_shown)
            } else if final_total(c, "events_complete"@) != want {
                Some(
                    total_message(
                        "events_complete"@,
                        final_total(c, "events_complete"@),
                        want,
                    ),
                )
            } else if final_total(c, "entries_written"@) != want {
                Some(
                    total_message(
                        "entries_written"@,
                        final_total(c, "entries_written"@),
                        want,
                    ),
                )
            } else {
                None
            }
        },
    }
}

fn check_total(counts: &Metrics, key: &str, want: u64) -> (r: Result<(), String>)
    ensures
        if final_total(counts@, key@) != want {
            r matches Err(s) && s@ == total_message(
                key@,
                final_total(counts@, key@),
                want as nat,
            )
        } else {
            r is Ok
        },
{
    let got: u64 = match counts.get_u64(key) {
        Some(n) => n,
        None => u64::MAX,
    };
    if got != want {
        let mut s: String = "root_sink 終了 JSON の ".to_string();
        s.append(key);
        s.append(" = ");
        push_decimal(&mut s, got);
        s.append("(期待 ");
        push_decimal(&mut s, want);
        s.append(")");
        return Err(s);
    }
    Ok(())
}

/// Decides whether the end passes, and says why if it does not. `shown` is how everything that was
/// said is written, and `fatal_shown` how the reason to give up is.
pub fn verify_final(
    counts: &Option<Metrics>,
    laps_total: u64,
    shown: &str,
    fatal_shown: &str,
) -> (r: Result<(), String>)
    requires
        laps_total * EVENTS_PER_LAP <= u64::MAX,
    ensures
        match final_problem(
            match *counts {
                Some(c) => Some(c@),
                None => None,
            },
            laps_total,
            shown@,
            fatal_shown@,
        ) {
            Some(why) => r matches Err(s) && s@ == why,
            None => r is Ok,
        },
{
    let c = match counts {
        None => {
            return Err("root_sink の終了 JSON を回収できなかった".to_string());
        },
        Some(c) => c,
    };
    let mut i: usize = 0;
    while i < 12
        invariant
            i <= 12 == FINAL_ZERO@.len(),
            *counts == Some(*c),
            first_final(c@, i as int) == first_final(c@, 0),
        decreases 12 - i,
    {
        match c.get_u64(FINAL_ZERO[i]) {
            None => {
                let mut s: String = "終了 JSON に ".to_string();
                s.append(FINAL_ZERO[i]);
                s.append(" が無い: ");
                s.append(shown);
                return Err(s);
            },
            Some(n) => {
                if n != 0 {
                    let mut s: String = "root_sink 終了 JSON の ".to_string();
                    s.append(FINAL_ZERO[i]);
                    s.append(" = ");
                    push_decimal(&mut s, n);
                    s.append("(0 でなければ不合格)");
                    return Err(s);
                }
            },
        }
        i = i + 1;
    }
    let clean: bool = match c.get_text("fatal") {
        Some(why) => same(why.as_str(), ""),
        None => false,
    };
    if !clean {
        let mut s: String = "root_sink が fatal で終わった: ".to_string();
        s.append(fatal_shown);
        return Err(s);
    }
    let want: u64 = laps_total * EVENTS_PER_LAP;
    if let Err(why) = check_total(c, "events_complete", want) {
        return Err(why);
    }
    check_total(c, "entries_written", want)
}

/// The first of the processes from `i` on that uses more memory than it may.
pub open spec fn first_hog(procs: Seq<(String, Option<u64>)>, limit_mib: u64, i: int) -> int
    decreases procs.len() - i,
{
    if i >= procs.len() {
        procs.len() as int
    } else if procs[i].1 is Some && procs[i].1->0 / 1024 > limit_mib {
        i
    } else {
        first_hog(procs, limit_mib, i + 1)
    }
}

/// Decides whether every process uses no more memory than it may, and names the first that does
/// not. A process of which nothing is known is passed over.
pub fn check_rss(procs: &Vec<(String, Option<u64>)>, limit_mib: u64) -> (r: Result<(), String>)
    ensures
        match first_hog(procs@, limit_mib, 0) {
            i => if i < procs@.len() {
                r matches Err(s) && s@ == procs@[i].0@ + " の RSS が "@ + text::decimal(
                    (procs@[i].1->0 / 1024) as nat,
                ) + " MiB(上限 "@ + text::decimal(limit_mib as nat) + " MiB)を超えた"@
            } else {
                r is Ok
            },
        },
{
    let mut i: usize = 0;
    while i < procs.len()
        invariant
            i <= procs@.len(),
            first_hog(procs@, limit_mib, i as int) == first_hog(procs@, limit_mib, 0),
        decreases procs@.len() - i,
    {
        if let Some(kib) = procs[i].1 {
            if kib / 1024 > limit_mib {
                let mut s: String = procs[i].0.clone();
                s.append(" の RSS が ");
                push_decimal(&mut s, kib / 1024);
                s.append(" MiB(上限 ");
                push_decimal(&mut s, limit_mib);
                s.append(" MiB)を超えた");
                return Err(s);
            }
        }
        i = i + 1;
    }
    Ok(())
}

/// Whether the free space on the disk, where it is known, is less than is never to be used.
pub fn below_floor(free_kib: Option<u64>, min_free_gib: u64) -> (r: bool)
    ensures
        r == (free_kib matches Some(kib) && kib < min_free_gib * 1024 * 1024),
{
    match free_kib {
        Some(kib) => (kib as u128) < min_free_gib as u128 * 1024 * 1024,
        None => false,
    }
}

/// Whether a run is the last: the harness was interrupted or told to stop, or has made as many
/// runs as are wanted.
pub fn is_last_run(index: u64, max_runs: Option<u64>, interrupted: bool, stop: bool) -> (r: bool)
    ensures
        r == (interrupted || stop || (max_runs matches Some(n) && index >= n)),
{
    interrupted || stop || match max_runs {
        Some(n) => index >= n,
        None => false,
    }
}

// ---------------------------------------------------------------------
// What other programs print
// ---------------------------------------------------------------------

/// The numbers of a line of `ps`: a process and its memory in kibibytes.
pub open spec fn rss_line(line: Seq<char>) -> Option<(nat, nat)> {
    let w = text::words(line);
    if w.len() < 2 {
        None
    } else {
        match (
            text::unsigned_upto(w[0], u32::MAX as nat),
            text::unsigned_upto(w[1], u64::MAX as nat),
        ) {
            (Some(pid), Some(kib)) => Some((pid, kib)),
            _ => None,
        }
    }
}

/// The memory of each process that the lines name.
pub open spec fn rss_of(lines: Seq<Seq<char>>) -> Map<u64, u64>
    decreases lines.len(),
{
    if lines.len() == 0 {
        Map::empty()
    } else {
        let before = rss_of(lines.drop_last());
        match rss_line(lines.last()) {
            Some((pid, kib)) => before.insert(pid as u64, kib as u64),
            None => before,
        }
    }
}

/// Reads what `ps` prints: the memory of each process, in kibibytes.
pub fn parse_rss(printed: &str) -> (rss: Tally)
    ensures
        rss.wf(),
        rss@ == rss_of(text::lines(printed@)),
{
    let chars: Vec<char> = chars_of(printed);
    let lines: Vec<Vec<char>> = split_lines(chars.as_slice());
    let ghost all = text::lines(printed@);
    let mut rss: Tally = Tally::new();
    let mut i: usize = 0;
    assert(all.take(0) =~= Seq::empty());
    while i < lines.len()
        invariant
            i <= lines@.len() == all.len(),
            forall|k: int| 0 <= k < lines@.len() ==> (#[trigger] lines@[k])@ == all[k],
            rss.wf(),
            rss@ == rss_of(all.take(i as int)),
        decreases lines@.len() - i,
    {
        assert(all.take(i + 1).drop_last() =~= all.take(i as int));
        assert(all.take(i + 1).last() == lines@[i as int]@);
        let words: Vec<Vec<char>> = split_words(lines[i].as_slice());
        if words.len() >= 2 {
            match (
                parse_unsigned(words[0].as_slice(), 0xFFFF_FFFF),
                parse_unsigned(words[1].as_slice(), u64::MAX),
            ) {
                (Some(pid), Some(kib)) => rss.set(pid, kib),
                _ => {},
            }
        }
        i = i + 1;
    }
    assert(all.take(i as int) =~= all);
    rss
}

/// The process that the lines so far speak of, and how many open files each process has.
pub open spec fn fds_of(lines: Seq<Seq<char>>) -> (Option<nat>, Map<u64, u64>)
    decreases lines.len(),
{
    if lines.len() == 0 {
        (None, Map::empty())
    } else {
        let (pid, counts) = fds_of(lines.drop_last());
        let line = lines.last();
        if line.len() > 0 && line[0] == 'p' {
            (text::unsigned_upto(line.drop_first(), u32::MAX as nat), counts)
        } else if line.len() > 0 && line[0] == 'f' && pid is Some {
            (
                pid,
                counts.insert(
                    pid->0 as u64,
                    (tally::count_in(counts, pid->0 as u64) + 1) as u64,
                ),
            )
        } else {
            (pid, counts)
        }
    }
}

proof fn lemma_fds_bound(lines: Seq<Seq<char>>, key: u64)
    ensures
        tally::count_in(fds_of(lines).1, key) <= lines.len(),
    decreases lines.len(),
{
    if lines.len() > 0 {
        lemma_fds_bound(lines.drop_last(), key);
        if fds_of(lines.drop_last()).0 is Some {
            lemma_fds_bound(lines.drop_last(), fds_of(lines.drop_last()).0->0 as u64);
        }
    }
}

/// Reads what `lsof` prints: how many open files each process has.
pub fn parse_fds(printed: &str) -> (fds: Tally)
    ensures
        fds.wf(),
        fds@ == fds_of(text::lines(printed@)).1,
{
    let chars: Vec<char> = chars_of(printed);
    let lines: Vec<Vec<char>> = split_lines(chars.as_slice());
    let ghost all = text::lines(printed@);
    let mut fds: Tally = Tally::new();
    let mut pid: Option<u64> = None;
    let mut i: usize = 0;
    assert(all.take(0) =~= Seq::empty());
    while i < lines.len()
        invariant
            i <= lines@.len() == all.len(),
            forall|k: int| 0 <= k < lines@.len() ==> (#[trigger] lines@[k])@ == all[k],
            fds.wf(),
            fds@ == fds_of(all.take(i as int)).1,
            pid is Some <==> fds_of(all.take(i as int)).0 is Some,
            pid matches Some(p) ==> fds_of(all.take(i as int)).0 == Some(p as nat),
        decreases lines@.len() - i,
    {
        assert(all.take(i + 1).drop_last() =~= all.take(i as int));
        assert(all.take(i + 1).last() == lines@[i as int]@);
        let line = lines[i].as_slice();
        if line.len() > 0 && line[0] == 'p' {
            let rest = &line[1..line.len()];
            assert(rest@ =~= line@.drop_first());
            pid = parse_unsigned(rest, 0xFFFF_FFFF);
        } else if line.len() > 0 && line[0] == 'f' {
            if let Some(p) = pid {
                proof {
                    lemma_fds_bound(all.take(i as int), p);
                }
                let n: u64 = fds.get(p);
                fds.set(p, n + 1);
            }
        }
        i = i + 1;
    }
    assert(all.take(i as int) =~= all);
    fds
}

/// Word `i` of a text, read as a number that is at most `max`.
pub open spec fn word_number(s: Seq<char>, i: int, max: nat) -> Option<nat> {
    let w = text::words(s);
    if i < w.len() {
        text::unsigned_upto(w[i], max)
    } else {
        None
    }
}

fn number_in_word(s: &[char], i: usize, max: u64) -> (n: Option<u64>)
    ensures
        n == match word_number(s@, i as int, max as nat) {
            Some(v) => Some(v as u64),
            None => None::<u64>,
        },
        n matches Some(v) ==> v <= max,
{
    let words: Vec<Vec<char>> = split_words(s);
    if i < words.len() {
        parse_unsigned(words[i].as_slice(), max)
    } else {
        None
    }
}

/// The free space that `df` prints, in whole kibibytes: a fraction of one is cut off, a negative
/// figure counts as 0, and one that is infinite or no number is none.
pub open spec fn free_kib_in(printed: Seq<char>) -> Option<nat> {
    let lines = text::lines(printed);
    if lines.len() < 2 || text::words(lines[1]).len() < 4 {
        None
    } else {
        text::whole_part(text::words(lines[1])[3])
    }
}

/// Reads what `df` prints: the free space, in kibibytes, or the largest number where it is larger.
pub fn parse_free_kib(printed: &str) -> (kib: Option<u64>)
    ensures
        kib == match free_kib_in(printed@) {
            Some(v) => Some(text::at_most(v, u64::MAX as nat) as u64),
            None => None::<u64>,
        },
{
    let chars: Vec<char> = chars_of(printed);
    let lines: Vec<Vec<char>> = split_lines(chars.as_slice());
    if lines.len() < 2 {
        return None;
    }
    let words: Vec<Vec<char>> = split_words(lines[1].as_slice());
    if words.len() < 4 {
        return None;
    }
    parse_whole_part(words[3].as_slice())
}

/// Reads what the replay prints: how many bytes it sent.
pub fn parse_replayed(printed: &str) -> (bytes: Option<u64>)
    ensures
        bytes == match word_number(printed@, 1, u64::MAX as nat) {
            Some(v) => Some(v as u64),
            None => None::<u64>,
        },
{
    let chars: Vec<char> = chars_of(printed);
    number_in_word(chars.as_slice(), 1, u64::MAX)
}

/// The events that a line says were written: the first word behind the first parenthesis.
pub open spec fn entries_in_line(line: Seq<char>) -> nat {
    match text::first_place(line, "("@, 0) {
        Some(i) => match word_number(line.skip(i + 1), 0, u64::MAX as nat) {
            Some(n) => n,
            None => 0,
        },
        None => 0,
    }
}

/// The events that the lines which hold `prefix` say were written.
pub open spec fn entries_in(lines: Seq<Seq<char>>, prefix: Seq<char>) -> nat
    decreases lines.len(),
{
    if lines.len() == 0 {
        0
    } else {
        entries_in(lines.drop_last(), prefix) + if text::first_place(lines.last(), prefix, 0)
            is Some {
            entries_in_line(lines.last())
        } else {
            0
        }
    }
}

proof fn lemma_entries_grow(lines: Seq<Seq<char>>, prefix: Seq<char>, n: int)
    requires
        0 <= n <= lines.len(),
    ensures
        entries_in(lines.take(n), prefix) <= entries_in(lines, prefix),
    decreases lines.len() - n,
{
    if n < lines.len() {
        lemma_entries_grow(lines, prefix, n + 1);
        assert(lines.take(n + 1).drop_last() =~= lines.take(n));
    } else {
        assert(lines.take(n) =~= lines);
    }
}

/// Reads the lines in which files of events are said to be finished: how many events they hold, of
/// those whose line holds `prefix`. `None` where the number does not fit.
pub fn count_entries(lines: &Vec<String>, prefix: &str) -> (n: Option<u64>)
    ensures
        n == if entries_in(text::values(lines@), prefix@) <= u64::MAX {
            Some(entries_in(text::values(lines@), prefix@) as u64)
        } else {
            None::<u64>
        },
{
    let ghost all = text::values(lines@);
    let mut sum: u64 = 0;
    let mut i: usize = 0;
    assert(all.take(0) =~= Seq::empty());
    proof {
        reveal_strlit("(");
    }
    while i < lines.len()
        invariant
            i <= lines@.len(),
            all == text::values(lines@),
            "("@.len() == 1,
            sum == entries_in(all.take(i as int), prefix@),
        decreases lines@.len() - i,
    {
        proof {
            assert(all.take(i + 1).drop_last() =~= all.take(i as int));
            assert(all.take(i + 1).last() == lines@[i as int]@);
            lemma_entries_grow(all, prefix@, i + 1);
        }
        let chars: Vec<char> = chars_of(lines[i].as_str());
        if find_text(chars.as_slice(), prefix).is_some() {
            let here: u64 = match find_text(chars.as_slice(), "(") {
                Some(at) => {
                    assert(chars@.len() == chars.len());
                    let rest = &chars.as_slice()[at + 1..chars.len()];
                    assert(rest@ =~= chars@.skip(at + 1));
                    match number_in_word(rest, 0, u64::MAX) {
                        Some(n) => n,
                        None => 0,
                    }
                },
                None => 0,
            };
            match sum.checked_add(here) {
                Some(s) => {
                    sum = s;
                },
                None => {
                    return None;
                },
            }
        }
        i = i + 1;
    }
    assert(all.take(i as int) =~= all);
    Some(sum)
}

/// Reads an answer of a web server: its code, and what follows the first empty line. `None` where
/// there is no code.
pub fn split_response(answer: &str) -> (r: Option<(u16, String)>)
    ensures
        match word_number(answer@, 1, u16::MAX as nat) {
            None => r is None,
            Some(code) => r matches Some(p) && p.0 == code && p.1@ == match text::first_place(
                answer@,
                "\r\n\r\n"@,
                0,
            ) {
                Some(i) => answer@.skip(i + 4),
                None => Seq::empty(),
            },
        },
{
    let chars: Vec<char> = chars_of(answer);
    match number_in_word(chars.as_slice(), 1, 65535) {
        None => None,
        Some(code) => {
            proof {
                reveal_strlit("\r\n\r\n");
            }
            let body: String = match find_text(chars.as_slice(), "\r\n\r\n") {
                Some(at) => {
                    assert(chars@.len() == chars.len());
                    let rest = &chars.as_slice()[at + 4..chars.len()];
                    assert(rest@ =~= answer@.skip(at + 4));
                    text::string_of(rest)
                },
                None => {
                    let s: String = String::new();
                    assert(s@ =~= Seq::empty());
                    s
                },
            };
            Some((code as u16, body))
        },
    }
}

/// Reads the line in which the electronics say where they are: what follows the first mark, without
/// the white space at its ends.
pub fn parse_proxy(line: &str) -> (proxy: Option<String>)
    ensures
        match text::first_place(line@, "PROXY "@, 0) {
            Some(i) => proxy matches Some(s) && s@ == text::trimmed(line@.skip(i + 6)),
            None => proxy is None,
        },
{
    let chars: Vec<char> = chars_of(line);
    proof {
        reveal_strlit("PROXY ");
    }
    match find_text(chars.as_slice(), "PROXY ") {
        Some(at) => {
            assert(chars@.len() == chars.len());
            let rest = &chars.as_slice()[at + 6..chars.len()];
            assert(rest@ =~= line@.skip(at + 6));
            Some(text::string_of(text::trim(rest)))
        },
        None => None,
    }
}

/// What waiting for a line that a process is to write comes to, if it is over: the line where it
/// was `found`, and else why it will not come. `shown` is how what is waited for is written.
pub open spec fn wait_result(
    name: Seq<char>,
    shown: Seq<char>,
    log: Seq<char>,
    found: Option<Seq<char>>,
    alive: bool,
    expired: bool,
) -> Option<Result<Seq<char>, Seq<char>>> {
    if let Some(line) = found {
        Some(Ok(line))
    } else if !alive {
        Some(Err(name + " が "@ + shown + " を出す前に終了した(log = "@ + log + ")"@))
    } else if expired {
        Some(
            Err(
                name + " が 30s 以内に "@ + shown + " を出さなかった(log = "@ + log + ")"@,
            ),
        )
    } else {
        None
    }
}

/// Decides whether waiting for a line that a process is to write is over, and what it comes to.
pub fn waited(
    name: &str,
    shown: &str,
    log: &str,
    found: Option<String>,
    alive: bool,
    expired: bool,
) -> (r: Option<Result<String, String>>)
    ensures
        match wait_result(name@, shown@, log@, controller::text_of(found), alive, expired) {
            None => r is None,
            Some(Ok(line)) => r matches Some(Ok(s)) && s@ == line,
            Some(Err(why)) => r matches Some(Err(s)) && s@ == why,
        },
{
    if let Some(line) = found {
        return Some(Ok(line));
    }
    if alive && !expired {
        return None;
    }
    let mut s: String = name.to_string();
    if !alive {
        s.append(" が ");
        s.append(shown);
        s.append(" を出す前に終了した(log = ");
    } else {
        s.append(" が 30s 以内に ");
        s.append(shown);
        s.append(" を出さなかった(log = ");
    }
    s.append(log);
    s.append(")");
    Some(Err(s))
}

/// Decides whether everything that the harness is told by its surroundings is told.
pub fn check_unset(unset: &Vec<String>) -> (r: Result<(), String>)
    ensures
        if unset@.len() == 0 {
            r is Ok
        } else {
            r matches Err(s) && s@ == "未設定の env = "@ + text::join(text::values(unset@), ", "@)
        },
{
    if unset.len() == 0 {
        return Ok(());
    }
    let mut s: String = "未設定の env = ".to_string();
    s.append(join_texts(unset, ", ").as_str());
    Err(s)
}

/// A file that the harness needs.
#[derive(Debug, Clone)]
pub struct Needed {
    /// Who says where it is; nothing for a program of this project.
    pub what: Option<String>,
    pub path: String,
    pub exists: bool,
}

/// The first of the files from `i` on that is missing.
pub open spec fn first_missing(files: Seq<Needed>, i: int) -> int
    decreases files.len() - i,
{
    if i >= files.len() {
        files.len() as int
    } else if !files[i].exists {
        i
    } else {
        first_missing(files, i + 1)
    }
}

/// Decides whether every file that the harness needs is there, and names the first that is not.
pub fn check_files(files: &Vec<Needed>) -> (r: Result<(), String>)
    ensures
        match first_missing(files@, 0) {
            i => if i < files@.len() {
                r matches Err(s) && s@ == match files@[i].what {
                    Some(what) => what@ + " が指すファイルが無い: "@ + files@[i].path@,
                    None => files@[i].path@
                        + " が無い(--bin-dir を指定するか cargo build --release --bins)"@,
                }
            } else {
                r is Ok
            },
        },
{
    let mut i: usize = 0;
    while i < files.len()
        invariant
            i <= files@.len(),
            first_missing(files@, i as int) == first_missing(files@, 0),
        decreases files@.len() - i,
    {
        if !files[i].exists {
            match &files[i].what {
                Some(what) => {
                    let mut s: String = what.clone();
                    s.append(" が指すファイルが無い: ");
                    s.append(files[i].path.as_str());
                    return Err(s);
                },
                None => {
                    let mut s: String = files[i].path.clone();
                    s.append(" が無い(--bin-dir を指定するか cargo build --release --bins)");
                    return Err(s);
                },
            }
        }
        i = i + 1;
    }
    Ok(())
}

/// The configuration that the harness runs with.
pub open spec fn config_text(output_root: Seq<char>, geometry: Seq<char>) -> Seq<char> {
    "# soak_harness が生成(手で直さない)。\n[system]\nexperiment = \"mini_eTPC (soak)\"\noutput_root = \""@
        + output_root + "\"\ngeometry = \""@ + geometry
        + "\"\n\n[[cobo]]\nid = 0\nlisten = \""@ + COBO_LISTEN@
        + "\"\ndata_sender_id = \"CoBo[0]\"\n\n[decoder]\nworkers = 1\n\n[root_sink]\nsnapshot_hz = 1.0\nevent_publish_hz = 20.0\nbuild_timeout_ms = 1000\n\n[monitor]\nws_listen = \""@
        + WS_LISTEN@ + "\"\n\n[controller]\nrest_listen = \""@ + REST_LISTEN@
        + "\"\npassphrase = \""@ + PASSPHRASE@
        + "\"\necc_proxy = \"unused-by-the-controller\"\nconfig_id = \"soak\"\nrouter_ip = \"127.0.0.1\"\n"@
}

/// The configuration that the harness runs with.
pub fn config_toml(output_root: &str, geometry: &str) -> (s: String)
    ensures
        s@ == config_text(output_root@, geometry@),
{
    let mut s: String =
        "# soak_harness が生成(手で直さない)。\n[system]\nexperiment = \"mini_eTPC (soak)\"\noutput_root = \"".to_string();
    s.append(output_root);
    s.append("\"\ngeometry = \"");
    s.append(geometry);
    s.append("\"\n\n[[cobo]]\nid = 0\nlisten = \"");
    s.append(COBO_LISTEN);
    s.append(
        "\"\ndata_sender_id = \"CoBo[0]\"\n\n[decoder]\nworkers = 1\n\n[root_sink]\nsnapshot_hz = 1.0\nevent_publish_hz = 20.0\nbuild_timeout_ms = 1000\n\n[monitor]\nws_listen = \"",
    );
    s.append(WS_LISTEN);
    s.append("\"\n\n[controller]\nrest_listen = \"");
    s.append(REST_LISTEN);
    s.append("\"\npassphrase = \"");
    s.append(PASSPHRASE);
    s.append(
        "\"\necc_proxy = \"unused-by-the-controller\"\nconfig_id = \"soak\"\nrouter_ip = \"127.0.0.1\"\n",
    );
    s
}

} // verus!

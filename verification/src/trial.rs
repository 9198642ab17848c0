//! When an endurance test goes on, and what its arguments ask for.

use vstd::prelude::*;

use crate::command;
use crate::command::MetricView;
use crate::harness;
use crate::harness::{Event, HarnessView, Left, Stage};
use crate::replay;
use crate::soak;
use crate::soak::{Mode, Needed, RunEvidence, Scan, Sign, SnapshotView};
use crate::tally;
use crate::text;

verus! {

// ---------------------------------------------------------------------
// Arguments
// ---------------------------------------------------------------------

proof fn lemma_options()
    ensures
        "--mode"@.len() == 6,
        "--mode"@[2] == 'm',
        "--duration-h"@.len() == 12,
        "--burst-min"@.len() == 11,
        "--burst-min"@[2] == 'b',
        "--rate-mbps"@.len() == 11,
        "--rate-mbps"@[2] == 'r',
        "--run-minutes"@.len() == 13,
        "--runs"@.len() == 6,
        "--runs"@[2] == 'r',
        "--rss-limit-mib"@.len() == 15,
        "--metrics-interval-s"@.len() == 20,
        "--min-free-gib"@.len() == 14,
        "--min-free-gib"@[2] == 'm',
        "--out-dir"@.len() == 9,
        "--out-dir"@[2] == 'o',
        "--bin-dir"@.len() == 9,
        "--bin-dir"@[2] == 'b',
        "--chunk-bytes"@.len() == 13,
        "--laps"@.len() == 6,
        "--laps-until-s"@.len() == 14,
        "--keep-outputs"@.len() == 14,
        "--keep-outputs"@[2] == 'k',
        "soak"@ != "burst"@,
{
    reveal_strlit("--mode");
    reveal_strlit("--duration-h");
    reveal_strlit("--burst-min");
    reveal_strlit("--rate-mbps");
    reveal_strlit("--run-minutes");
    reveal_strlit("--runs");
    reveal_strlit("--rss-limit-mib");
    reveal_strlit("--metrics-interval-s");
    reveal_strlit("--min-free-gib");
    reveal_strlit("--out-dir");
    reveal_strlit("--bin-dir");
    reveal_strlit("--chunk-bytes");
    reveal_strlit("--laps");
    reveal_strlit("--laps-until-s");
    reveal_strlit("--keep-outputs");
    reveal_strlit("soak");
    reveal_strlit("burst");
    assert("soak"@.len() == 4 && "burst"@.len() == 5);
}

/// Every option of an endurance test sets what it is named after, and nothing else.
pub proof fn law_every_option_sets_its_own(s: Scan, value: Seq<char>, n: u64)
    requires
        text::unsigned(value) == Some(n as nat),
    ensures
        soak::with_value(s, "--mode"@, "soak"@) == (Scan { mode: Some(Mode::Soak), ..s }),
        soak::with_value(s, "--mode"@, "burst"@) == (Scan { mode: Some(Mode::Burst), ..s }),
        soak::with_value(s, "--duration-h"@, value) == (Scan { duration_h: Some(value), ..s }),
        soak::with_value(s, "--burst-min"@, value) == (Scan { burst_min: Some(value), ..s }),
        soak::with_value(s, "--rate-mbps"@, value) == (Scan { rate_mbps: Some(value), ..s }),
        soak::with_value(s, "--run-minutes"@, value) == (Scan { run_minutes: Some(value), ..s }),
        soak::with_value(s, "--runs"@, value) == (Scan { max_runs: Some(n), ..s }),
        soak::with_value(s, "--rss-limit-mib"@, value) == (Scan { rss_limit_mib: n, ..s }),
        soak::with_value(s, "--metrics-interval-s"@, value) == (Scan {
            metrics_interval_s: n,
            ..s
        }),
        soak::with_value(s, "--min-free-gib"@, value) == (Scan { min_free_gib: n, ..s }),
        soak::with_value(s, "--out-dir"@, value) == (Scan { out_dir: Some(value), ..s }),
        soak::with_value(s, "--bin-dir"@, value) == (Scan { bin_dir: Some(value), ..s }),
{
    lemma_options();
}

/// Which values the options of an endurance test take: times are positive, a rate is not negative,
/// numbers are whole and positive, and there are two modes.
pub proof fn law_which_values_are_taken(value: Seq<char>, sign: Sign)
    ensures
        soak::value_problem("--mode"@, value, sign) is None <==> value == "soak"@ || value
            == "burst"@,
        soak::value_problem("--duration-h"@, value, sign) is None <==> text::is_fraction(value)
            && sign == Sign::Positive,
        soak::value_problem("--burst-min"@, value, sign) is None <==> text::is_fraction(value) && sign
            == Sign::Positive,
        soak::value_problem("--run-minutes"@, value, sign) is None <==> text::is_fraction(value)
            && sign == Sign::Positive,
        soak::value_problem("--rate-mbps"@, value, sign) is None <==> text::is_fraction(value) && (
        sign == Sign::Positive || sign == Sign::Zero),
        soak::value_problem("--runs"@, value, sign) is None <==> (text::unsigned(value) matches Some(
            n,
        ) && 0 < n <= u64::MAX),
        soak::value_problem("--rss-limit-mib"@, value, sign) is None <==> (text::unsigned(
            value,
        ) matches Some(n) && 0 < n <= u64::MAX),
        soak::value_problem("--metrics-interval-s"@, value, sign) is None <==> (text::unsigned(
            value,
        ) matches Some(n) && 0 < n <= u64::MAX),
        soak::value_problem("--min-free-gib"@, value, sign) is None <==> (text::unsigned(
            value,
        ) matches Some(n) && 0 < n <= u64::MAX),
        soak::value_problem("--out-dir"@, value, sign) is None,
        soak::value_problem("--bin-dir"@, value, sign) is None,
{
    lemma_options();
}

/// Every option of a replay sets what it is named after, and nothing else; a rate and a time are
/// positive, and numbers are whole and positive.
pub proof fn law_every_option_of_a_replay_sets_its_own(
    s: replay::Scan,
    value: Seq<char>,
    positive: bool,
)
    ensures
        replay::with_option(s, "--rate-mbps"@, value, positive) is Ok <==> text::is_fraction(value)
            && positive,
        replay::with_option(s, "--rate-mbps"@, value, positive) matches Ok(t) ==> t == (
        replay::Scan { rate: Some(value), ..s }),
        replay::with_option(s, "--laps-until-s"@, value, positive) is Ok <==> text::is_fraction(
            value,
        ) && positive,
        replay::with_option(s, "--laps-until-s"@, value, positive) matches Ok(t) ==> t == (
        replay::Scan { until: Some(value), ..s }),
        replay::with_option(s, "--chunk-bytes"@, value, positive) is Ok <==> (text::unsigned(
            value,
        ) matches Some(n) && 0 < n <= usize::MAX),
        replay::with_option(s, "--chunk-bytes"@, value, positive) matches Ok(t) ==> t == (
        replay::Scan { chunk: text::unsigned(value)->0, ..s }),
        replay::with_option(s, "--laps"@, value, positive) is Ok <==> (text::unsigned(
            value,
        ) matches Some(n) && 0 < n <= u32::MAX),
        replay::with_option(s, "--laps"@, value, positive) matches Ok(t) ==> (t.laps matches Some(n)
            && Some(n as nat) == text::unsigned(value)) && t == (replay::Scan { laps: t.laps, ..s }),
{
    lemma_options();
}

// ---------------------------------------------------------------------
// Counters
// ---------------------------------------------------------------------

proof fn lemma_dot(who: Seq<char>, key: Seq<char>)
    requires
        !who.contains('.'),
    ensures
        soak::dot(who + seq!['.'] + key) == who.len(),
    decreases who.len(),
{
    let s = who + seq!['.'] + key;
    if who.len() > 0 {
        assert(who[0] != '.') by {
            if who[0] == '.' {
                assert(who.contains('.'));
            }
        }
        assert(!who.drop_first().contains('.')) by {
            if who.drop_first().contains('.') {
                let i = choose|i: int| 0 <= i < who.drop_first().len() && who.drop_first()[i] == '.';
                assert(who[i + 1] == '.');
            }
        }
        assert(s.drop_first() =~= who.drop_first() + seq!['.'] + key);
        lemma_dot(who.drop_first(), key);
    }
}

proof fn lemma_reporters()
    ensures
        !"recv"@.contains('.'),
        !"dec"@.contains('.'),
        !"gw"@.contains('.'),
        !"rs"@.contains('.'),
        !"mon"@.contains('.'),
        "recv"@.len() == 4,
        "dec"@.len() == 3,
        "dec"@[0] == 'd',
        "gw"@.len() == 2,
        "gw"@[0] == 'g',
        "rs"@.len() == 2,
        "rs"@[0] == 'r',
        "mon"@.len() == 3,
        "mon"@[0] == 'm',
{
    reveal_strlit("recv");
    reveal_strlit("dec");
    reveal_strlit("gw");
    reveal_strlit("rs");
    reveal_strlit("mon");
}

/// The source of a counter names who reports it and under which key: the receiver, the decoder, the
/// writer of raw data, or the monitor.
pub proof fn law_counters_come_from_their_reporters(status: SnapshotView, key: Seq<char>)
    ensures
        soak::counter("recv"@ + seq!['.'] + key, status) == soak::reported(
            status.components,
            "receiver0"@,
            key,
        ),
        soak::counter("dec"@ + seq!['.'] + key, status) == soak::reported(
            status.components,
            "decoder"@,
            key,
        ),
        soak::counter("gw"@ + seq!['.'] + key, status) == soak::reported(
            status.components,
            "graw-writer"@,
            key,
        ),
        status.monitor matches Some(m) ==> soak::counter("rs"@ + seq!['.'] + key, status)
            == command::metric_u64(m, key) && soak::counter("mon"@ + seq!['.'] + key, status)
            == command::metric_u64(m, key),
        status.monitor is None ==> soak::counter("rs"@ + seq!['.'] + key, status) is None
            && soak::counter("mon"@ + seq!['.'] + key, status) is None,
{
    lemma_reporters();
    lemma_source("recv"@, key);
    lemma_source("dec"@, key);
    lemma_source("gw"@, key);
    lemma_source("rs"@, key);
    lemma_source("mon"@, key);
}

proof fn lemma_source(who: Seq<char>, key: Seq<char>)
    requires
        !who.contains('.'),
    ensures
        ({
            let s = who + seq!['.'] + key;
            &&& soak::dot(s) == who.len()
            &&& s.len() > who.len()
            &&& s.take(who.len() as int) == who
            &&& s.skip((who.len() + 1) as int) == key
        }),
{
    lemma_dot(who, key);
    let s = who + seq!['.'] + key;
    assert(s.take(who.len() as int) =~= who);
    assert(s.skip((who.len() + 1) as int) =~= key);
}

/// Whether a name is that of its source with an underscore in place of the dot.
pub open spec fn is_named_after(name: Seq<char>, source: Seq<char>) -> bool {
    &&& soak::dot(source) < source.len()
    &&& name == source.update(soak::dot(source), '_')
}

proof fn lemma_named(who: Seq<char>, name: Seq<char>, source: Seq<char>)
    requires
        who.len() < source.len(),
        !who.contains('.'),
        who == source.take(who.len() as int),
        source[who.len() as int] == '.',
        name == source.update(who.len() as int, '_'),
    ensures
        is_named_after(name, source),
{
    lemma_dot(who, source.skip((who.len() + 1) as int));
    assert(who + seq!['.'] + source.skip((who.len() + 1) as int) =~= source);
}

proof fn lemma_recv_names()
    ensures
        is_named_after("recv_bytes"@, "recv.bytes"@),
        is_named_after("recv_frames"@, "recv.frames"@),
        is_named_after("recv_overflow_frames"@, "recv.overflow_frames"@),
        is_named_after("recv_framer_resets"@, "recv.framer_resets"@),
        is_named_after("recv_messages_abandoned"@, "recv.messages_abandoned"@),
        is_named_after("recv_encode_errors"@, "recv.encode_errors"@),
        is_named_after("recv_send_errors"@, "recv.send_errors"@),
        is_named_after("recv_extra_connections"@, "recv.extra_connections"@),
        is_named_after("recv_empty_connections"@, "recv.empty_connections"@),
{
    lemma_reporters();
    reveal_strlit("recv");
    reveal_strlit("recv_bytes");
    reveal_strlit("recv.bytes");
    assert("recv"@ =~= "recv.bytes"@.take(4));
    assert("recv_bytes"@ =~= "recv.bytes"@.update(4, '_'));
    lemma_named("recv"@, "recv_bytes"@, "recv.bytes"@);
    reveal_strlit("recv_frames");
    reveal_strlit("recv.frames");
    assert("recv"@ =~= "recv.frames"@.take(4));
    assert("recv_frames"@ =~= "recv.frames"@.update(4, '_'));
    lemma_named("recv"@, "recv_frames"@, "recv.frames"@);
    reveal_strlit("recv_overflow_frames");
    reveal_strlit("recv.overflow_frames");
    assert("recv"@ =~= "recv.overflow_frames"@.take(4));
    assert("recv_overflow_frames"@ =~= "recv.overflow_frames"@.update(4, '_'));
    lemma_named("recv"@, "recv_overflow_frames"@, "recv.overflow_frames"@);
    reveal_strlit("recv_framer_resets");
    reveal_strlit("recv.framer_resets");
    assert("recv"@ =~= "recv.framer_resets"@.take(4));
    assert("recv_framer_resets"@ =~= "recv.framer_resets"@.update(4, '_'));
    lemma_named("recv"@, "recv_framer_resets"@, "recv.framer_resets"@);
    reveal_strlit("recv_messages_abandoned");
    reveal_strlit("recv.messages_abandoned");
    assert("recv"@ =~= "recv.messages_abandoned"@.take(4));
    assert("recv_messages_abandoned"@ =~= "recv.messages_abandoned"@.update(4, '_'));
    lemma_named("recv"@, "recv_messages_abandoned"@, "recv.messages_abandoned"@);
    reveal_strlit("recv_encode_errors");
    reveal_strlit("recv.encode_errors");
    assert("recv"@ =~= "recv.encode_errors"@.take(4));
    assert("recv_encode_errors"@ =~= "recv.encode_errors"@.update(4, '_'));
    lemma_named("recv"@, "recv_encode_errors"@, "recv.encode_errors"@);
    reveal_strlit("recv_send_errors");
    reveal_strlit("recv.send_errors");
    assert("recv"@ =~= "recv.send_errors"@.take(4));
    assert("recv_send_errors"@ =~= "recv.send_errors"@.update(4, '_'));
    lemma_named("recv"@, "recv_send_errors"@, "recv.send_errors"@);
    reveal_strlit("recv_extra_connections");
    reveal_strlit("recv.extra_connections");
    assert("recv"@ =~= "recv.extra_connections"@.take(4));
    assert("recv_extra_connections"@ =~= "recv.extra_connections"@.update(4, '_'));
    lemma_named("recv"@, "recv_extra_connections"@, "recv.extra_connections"@);
    reveal_strlit("recv_empty_connections");
    reveal_strlit("recv.empty_connections");
    assert("recv"@ =~= "recv.empty_connections"@.take(4));
    assert("recv_empty_connections"@ =~= "recv.empty_connections"@.update(4, '_'));
    lemma_named("recv"@, "recv_empty_connections"@, "recv.empty_connections"@);
}

proof fn lemma_dec_names()
    ensures
        is_named_after("dec_frames_in"@, "dec.frames_in"@),
        is_named_after("dec_fragments_out"@, "dec.fragments_out"@),
        is_named_after("dec_malformed"@, "dec.malformed"@),
        is_named_after("dec_seq_gaps"@, "dec.seq_gaps"@),
        is_named_after("dec_run_mismatches"@, "dec.run_mismatches"@),
        is_named_after("dec_batches_abandoned"@, "dec.batches_abandoned"@),
        is_named_after("dec_eos_abandoned"@, "dec.eos_abandoned"@),
        is_named_after("dec_cobo_mismatch"@, "dec.cobo_mismatch"@),
{
    lemma_reporters();
    reveal_strlit("dec");
    reveal_strlit("dec_frames_in");
    reveal_strlit("dec.frames_in");
    assert("dec"@ =~= "dec.frames_in"@.take(3));
    assert("dec_frames_in"@ =~= "dec.frames_in"@.update(3, '_'));
    lemma_named("dec"@, "dec_frames_in"@, "dec.frames_in"@);
    reveal_strlit("dec_fragments_out");
    reveal_strlit("dec.fragments_out");
    assert("dec"@ =~= "dec.fragments_out"@.take(3));
    assert("dec_fragments_out"@ =~= "dec.fragments_out"@.update(3, '_'));
    lemma_named("dec"@, "dec_fragments_out"@, "dec.fragments_out"@);
    reveal_strlit("dec_malformed");
    reveal_strlit("dec.malformed");
    assert("dec"@ =~= "dec.malformed"@.take(3));
    assert("dec_malformed"@ =~= "dec.malformed"@.update(3, '_'));
    lemma_named("dec"@, "dec_malformed"@, "dec.malformed"@);
    reveal_strlit("dec_seq_gaps");
    reveal_strlit("dec.seq_gaps");
    assert("dec"@ =~= "dec.seq_gaps"@.take(3));
    assert("dec_seq_gaps"@ =~= "dec.seq_gaps"@.update(3, '_'));
    lemma_named("dec"@, "dec_seq_gaps"@, "dec.seq_gaps"@);
    reveal_strlit("dec_run_mismatches");
    reveal_strlit("dec.run_mismatches");
    assert("dec"@ =~= "dec.run_mismatches"@.take(3));
    assert("dec_run_mismatches"@ =~= "dec.run_mismatches"@.update(3, '_'));
    lemma_named("dec"@, "dec_run_mismatches"@, "dec.run_mismatches"@);
    reveal_strlit("dec_batches_abandoned");
    reveal_strlit("dec.batches_abandoned");
    assert("dec"@ =~= "dec.batches_abandoned"@.take(3));
    assert("dec_batches_abandoned"@ =~= "dec.batches_abandoned"@.update(3, '_'));
    lemma_named("dec"@, "dec_batches_abandoned"@, "dec.batches_abandoned"@);
    reveal_strlit("dec_eos_abandoned");
    reveal_strlit("dec.eos_abandoned");
    assert("dec"@ =~= "dec.eos_abandoned"@.take(3));
    assert("dec_eos_abandoned"@ =~= "dec.eos_abandoned"@.update(3, '_'));
    lemma_named("dec"@, "dec_eos_abandoned"@, "dec.eos_abandoned"@);
    reveal_strlit("dec_cobo_mismatch");
    reveal_strlit("dec.cobo_mismatch");
    assert("dec"@ =~= "dec.cobo_mismatch"@.take(3));
    assert("dec_cobo_mismatch"@ =~= "dec.cobo_mismatch"@.update(3, '_'));
    lemma_named("dec"@, "dec_cobo_mismatch"@, "dec.cobo_mismatch"@);
}

proof fn lemma_gw_names()
    ensures
        is_named_after("gw_seq_gaps"@, "gw.seq_gaps"@),
        is_named_after("gw_run_mismatches"@, "gw.run_mismatches"@),
        is_named_after("gw_write_errors"@, "gw.write_errors"@),
        is_named_after("gw_unexpected_sources"@, "gw.unexpected_sources"@),
        is_named_after("gw_decode_errors"@, "gw.decode_errors"@),
{
    lemma_reporters();
    reveal_strlit("gw");
    reveal_strlit("gw_seq_gaps");
    reveal_strlit("gw.seq_gaps");
    assert("gw"@ =~= "gw.seq_gaps"@.take(2));
    assert("gw_seq_gaps"@ =~= "gw.seq_gaps"@.update(2, '_'));
    lemma_named("gw"@, "gw_seq_gaps"@, "gw.seq_gaps"@);
    reveal_strlit("gw_run_mismatches");
    reveal_strlit("gw.run_mismatches");
    assert("gw"@ =~= "gw.run_mismatches"@.take(2));
    assert("gw_run_mismatches"@ =~= "gw.run_mismatches"@.update(2, '_'));
    lemma_named("gw"@, "gw_run_mismatches"@, "gw.run_mismatches"@);
    reveal_strlit("gw_write_errors");
    reveal_strlit("gw.write_errors");
    assert("gw"@ =~= "gw.write_errors"@.take(2));
    assert("gw_write_errors"@ =~= "gw.write_errors"@.update(2, '_'));
    lemma_named("gw"@, "gw_write_errors"@, "gw.write_errors"@);
    reveal_strlit("gw_unexpected_sources");
    reveal_strlit("gw.unexpected_sources");
    assert("gw"@ =~= "gw.unexpected_sources"@.take(2));
    assert("gw_unexpected_sources"@ =~= "gw.unexpected_sources"@.update(2, '_'));
    lemma_named("gw"@, "gw_unexpected_sources"@, "gw.unexpected_sources"@);
    reveal_strlit("gw_decode_errors");
    reveal_strlit("gw.decode_errors");
    assert("gw"@ =~= "gw.decode_errors"@.take(2));
    assert("gw_decode_errors"@ =~= "gw.decode_errors"@.update(2, '_'));
    lemma_named("gw"@, "gw_decode_errors"@, "gw.decode_errors"@);
}

proof fn lemma_rs_names()
    ensures
        is_named_after("rs_events_built"@, "rs.events_built"@),
        is_named_after("rs_events_incomplete"@, "rs.events_incomplete"@),
        is_named_after("rs_late_fragments"@, "rs.late_fragments"@),
        is_named_after("rs_pending_events"@, "rs.pending_events"@),
{
    lemma_reporters();
    reveal_strlit("rs");
    reveal_strlit("rs_events_built");
    reveal_strlit("rs.events_built");
    assert("rs"@ =~= "rs.events_built"@.take(2));
    assert("rs_events_built"@ =~= "rs.events_built"@.update(2, '_'));
    lemma_named("rs"@, "rs_events_built"@, "rs.events_built"@);
    reveal_strlit("rs_events_incomplete");
    reveal_strlit("rs.events_incomplete");
    assert("rs"@ =~= "rs.events_incomplete"@.take(2));
    assert("rs_events_incomplete"@ =~= "rs.events_incomplete"@.update(2, '_'));
    lemma_named("rs"@, "rs_events_incomplete"@, "rs.events_incomplete"@);
    reveal_strlit("rs_late_fragments");
    reveal_strlit("rs.late_fragments");
    assert("rs"@ =~= "rs.late_fragments"@.take(2));
    assert("rs_late_fragments"@ =~= "rs.late_fragments"@.update(2, '_'));
    lemma_named("rs"@, "rs_late_fragments"@, "rs.late_fragments"@);
    reveal_strlit("rs_pending_events");
    reveal_strlit("rs.pending_events");
    assert("rs"@ =~= "rs.pending_events"@.take(2));
    assert("rs_pending_events"@ =~= "rs.pending_events"@.update(2, '_'));
    lemma_named("rs"@, "rs_pending_events"@, "rs.pending_events"@);
}

/// Every counter is named after its source: its column, and the counters that stand for a loss.
pub proof fn law_counters_are_named_after_their_sources(k: int)
    ensures
        0 <= k < 26 ==> is_named_after(soak::COUNTER_NAMES@[k]@, soak::COUNTER_SOURCES@[k]@),
        0 <= k < 16 ==> is_named_after(soak::MUST_BE_ZERO@[k]@, soak::ZERO_SOURCES@[k]@),
        soak::COUNTER_NAMES@.len() == 26,
        soak::MUST_BE_ZERO@.len() == 16,
{
    lemma_recv_names();
    lemma_dec_names();
    lemma_gw_names();
    lemma_rs_names();
    if k == 0 {
        assert(soak::COUNTER_NAMES@[0]@ == "recv_bytes"@ && soak::COUNTER_SOURCES@[0]@ == "recv.bytes"@);
    }
    if k == 1 {
        assert(soak::COUNTER_NAMES@[1]@ == "recv_frames"@ && soak::COUNTER_SOURCES@[1]@ == "recv.frames"@);
    }
    if k == 2 {
        assert(soak::COUNTER_NAMES@[2]@ == "recv_overflow_frames"@ && soak::COUNTER_SOURCES@[2]@ == "recv.overflow_frames"@);
    }
    if k == 3 {
        assert(soak::COUNTER_NAMES@[3]@ == "recv_framer_resets"@ && soak::COUNTER_SOURCES@[3]@ == "recv.framer_resets"@);
    }
    if k == 4 {
        assert(soak::COUNTER_NAMES@[4]@ == "recv_messages_abandoned"@ && soak::COUNTER_SOURCES@[4]@ == "recv.messages_abandoned"@);
    }
    if k == 5 {
        assert(soak::COUNTER_NAMES@[5]@ == "recv_encode_errors"@ && soak::COUNTER_SOURCES@[5]@ == "recv.encode_errors"@);
    }
    if k == 6 {
        assert(soak::COUNTER_NAMES@[6]@ == "recv_send_errors"@ && soak::COUNTER_SOURCES@[6]@ == "recv.send_errors"@);
    }
    if k == 7 {
        assert(soak::COUNTER_NAMES@[7]@ == "recv_extra_connections"@ && soak::COUNTER_SOURCES@[7]@ == "recv.extra_connections"@);
    }
    if k == 8 {
        assert(soak::COUNTER_NAMES@[8]@ == "recv_empty_connections"@ && soak::COUNTER_SOURCES@[8]@ == "recv.empty_connections"@);
    }
    if k == 9 {
        assert(soak::COUNTER_NAMES@[9]@ == "dec_frames_in"@ && soak::COUNTER_SOURCES@[9]@ == "dec.frames_in"@);
    }
    if k == 10 {
        assert(soak::COUNTER_NAMES@[10]@ == "dec_fragments_out"@ && soak::COUNTER_SOURCES@[10]@ == "dec.fragments_out"@);
    }
    if k == 11 {
        assert(soak::COUNTER_NAMES@[11]@ == "dec_malformed"@ && soak::COUNTER_SOURCES@[11]@ == "dec.malformed"@);
    }
    if k == 12 {
        assert(soak::COUNTER_NAMES@[12]@ == "dec_seq_gaps"@ && soak::COUNTER_SOURCES@[12]@ == "dec.seq_gaps"@);
    }
    if k == 13 {
        assert(soak::COUNTER_NAMES@[13]@ == "dec_run_mismatches"@ && soak::COUNTER_SOURCES@[13]@ == "dec.run_mismatches"@);
    }
    if k == 14 {
        assert(soak::COUNTER_NAMES@[14]@ == "dec_batches_abandoned"@ && soak::COUNTER_SOURCES@[14]@ == "dec.batches_abandoned"@);
    }
    if k == 15 {
        assert(soak::COUNTER_NAMES@[15]@ == "dec_eos_abandoned"@ && soak::COUNTER_SOURCES@[15]@ == "dec.eos_abandoned"@);
    }
    if k == 16 {
        assert(soak::COUNTER_NAMES@[16]@ == "dec_cobo_mismatch"@ && soak::COUNTER_SOURCES@[16]@ == "dec.cobo_mismatch"@);
    }
    if k == 17 {
        assert(soak::COUNTER_NAMES@[17]@ == "gw_seq_gaps"@ && soak::COUNTER_SOURCES@[17]@ == "gw.seq_gaps"@);
    }
    if k == 18 {
        assert(soak::COUNTER_NAMES@[18]@ == "gw_run_mismatches"@ && soak::COUNTER_SOURCES@[18]@ == "gw.run_mismatches"@);
    }
    if k == 19 {
        assert(soak::COUNTER_NAMES@[19]@ == "gw_write_errors"@ && soak::COUNTER_SOURCES@[19]@ == "gw.write_errors"@);
    }
    if k == 20 {
        assert(soak::COUNTER_NAMES@[20]@ == "gw_unexpected_sources"@ && soak::COUNTER_SOURCES@[20]@ == "gw.unexpected_sources"@);
    }
    if k == 21 {
        assert(soak::COUNTER_NAMES@[21]@ == "gw_decode_errors"@ && soak::COUNTER_SOURCES@[21]@ == "gw.decode_errors"@);
    }
    if k == 22 {
        assert(soak::COUNTER_NAMES@[22]@ == "rs_events_built"@ && soak::COUNTER_SOURCES@[22]@ == "rs.events_built"@);
    }
    if k == 23 {
        assert(soak::COUNTER_NAMES@[23]@ == "rs_events_incomplete"@ && soak::COUNTER_SOURCES@[23]@ == "rs.events_incomplete"@);
    }
    if k == 24 {
        assert(soak::COUNTER_NAMES@[24]@ == "rs_late_fragments"@ && soak::COUNTER_SOURCES@[24]@ == "rs.late_fragments"@);
    }
    if k == 25 {
        assert(soak::COUNTER_NAMES@[25]@ == "rs_pending_events"@ && soak::COUNTER_SOURCES@[25]@ == "rs.pending_events"@);
    }
    if k == 0 {
        assert(soak::MUST_BE_ZERO@[0]@ == "recv_overflow_frames"@ && soak::ZERO_SOURCES@[0]@ == "recv.overflow_frames"@);
    }
    if k == 1 {
        assert(soak::MUST_BE_ZERO@[1]@ == "recv_framer_resets"@ && soak::ZERO_SOURCES@[1]@ == "recv.framer_resets"@);
    }
    if k == 2 {
        assert(soak::MUST_BE_ZERO@[2]@ == "recv_messages_abandoned"@ && soak::ZERO_SOURCES@[2]@ == "recv.messages_abandoned"@);
    }
    if k == 3 {
        assert(soak::MUST_BE_ZERO@[3]@ == "recv_encode_errors"@ && soak::ZERO_SOURCES@[3]@ == "recv.encode_errors"@);
    }
    if k == 4 {
        assert(soak::MUST_BE_ZERO@[4]@ == "recv_send_errors"@ && soak::ZERO_SOURCES@[4]@ == "recv.send_errors"@);
    }
    if k == 5 {
        assert(soak::MUST_BE_ZERO@[5]@ == "recv_extra_connections"@ && soak::ZERO_SOURCES@[5]@ == "recv.extra_connections"@);
    }
    if k == 6 {
        assert(soak::MUST_BE_ZERO@[6]@ == "dec_malformed"@ && soak::ZERO_SOURCES@[6]@ == "dec.malformed"@);
    }
    if k == 7 {
        assert(soak::MUST_BE_ZERO@[7]@ == "dec_seq_gaps"@ && soak::ZERO_SOURCES@[7]@ == "dec.seq_gaps"@);
    }
    if k == 8 {
        assert(soak::MUST_BE_ZERO@[8]@ == "dec_run_mismatches"@ && soak::ZERO_SOURCES@[8]@ == "dec.run_mismatches"@);
    }
    if k == 9 {
        assert(soak::MUST_BE_ZERO@[9]@ == "dec_batches_abandoned"@ && soak::ZERO_SOURCES@[9]@ == "dec.batches_abandoned"@);
    }
    if k == 10 {
        assert(soak::MUST_BE_ZERO@[10]@ == "dec_eos_abandoned"@ && soak::ZERO_SOURCES@[10]@ == "dec.eos_abandoned"@);
    }
    if k == 11 {
        assert(soak::MUST_BE_ZERO@[11]@ == "dec_cobo_mismatch"@ && soak::ZERO_SOURCES@[11]@ == "dec.cobo_mismatch"@);
    }
    if k == 12 {
        assert(soak::MUST_BE_ZERO@[12]@ == "gw_seq_gaps"@ && soak::ZERO_SOURCES@[12]@ == "gw.seq_gaps"@);
    }
    if k == 13 {
        assert(soak::MUST_BE_ZERO@[13]@ == "gw_run_mismatches"@ && soak::ZERO_SOURCES@[13]@ == "gw.run_mismatches"@);
    }
    if k == 14 {
        assert(soak::MUST_BE_ZERO@[14]@ == "gw_write_errors"@ && soak::ZERO_SOURCES@[14]@ == "gw.write_errors"@);
    }
    if k == 15 {
        assert(soak::MUST_BE_ZERO@[15]@ == "gw_unexpected_sources"@ && soak::ZERO_SOURCES@[15]@ == "gw.unexpected_sources"@);
    }
}

/// What is reported of a component is what the first of its name reports.
pub proof fn law_the_first_component_reports(
    components: Seq<(Seq<char>, Seq<(Seq<char>, MetricView)>)>,
    name: Seq<char>,
    key: Seq<char>,
    k: int,
)
    requires
        0 <= k <= components.len(),
        forall|j: int| 0 <= j < k ==> (#[trigger] components[j]).0 != name,
        k < components.len() ==> components[k].0 == name,
    ensures
        soak::reported(components, name, key) == if k < components.len() {
            command::metric_u64(components[k].1, key)
        } else {
            None
        },
    decreases components.len(),
{
    if k > 0 {
        assert(components[0].0 != name);
        let rest = components.drop_first();
        assert forall|j: int| 0 <= j < k - 1 implies (#[trigger] rest[j]).0 != name by {
            assert(rest[j] == components[j + 1]);
        }
        law_the_first_component_reports(rest, name, key, k - 1);
    }
}

/// Bytes are laps where they are a positive multiple of what a lap has.
pub proof fn law_bytes_are_whole_laps(bytes: u64, laps: u64)
    ensures
        soak::laps_of(bytes) == Some(laps) <==> laps > 0 && bytes == laps * 30_108_684,
{
}

/// Whether every counter that stands for a loss is known to be zero.
pub open spec fn is_lossless(status: SnapshotView) -> bool {
    &&& soak::counter("recv.overflow_frames"@, status) == Some(0u64)
    &&& soak::counter("recv.framer_resets"@, status) == Some(0u64)
    &&& soak::counter("recv.messages_abandoned"@, status) == Some(0u64)
    &&& soak::counter("recv.encode_errors"@, status) == Some(0u64)
    &&& soak::counter("recv.send_errors"@, status) == Some(0u64)
    &&& soak::counter("recv.extra_connections"@, status) == Some(0u64)
    &&& soak::counter("dec.malformed"@, status) == Some(0u64)
    &&& soak::counter("dec.seq_gaps"@, status) == Some(0u64)
    &&& soak::counter("dec.run_mismatches"@, status) == Some(0u64)
    &&& soak::counter("dec.batches_abandoned"@, status) == Some(0u64)
    &&& soak::counter("dec.eos_abandoned"@, status) == Some(0u64)
    &&& soak::counter("dec.cobo_mismatch"@, status) == Some(0u64)
    &&& soak::counter("gw.seq_gaps"@, status) == Some(0u64)
    &&& soak::counter("gw.run_mismatches"@, status) == Some(0u64)
    &&& soak::counter("gw.write_errors"@, status) == Some(0u64)
    &&& soak::counter("gw.unexpected_sources"@, status) == Some(0u64)
}

/// A run passes exactly where every lap has left 108 events and all of its bytes, nothing gave up,
/// and every counter that stands for a loss is known to be zero; there are sixteen of those.
pub proof fn law_what_a_run_has_to_leave(e: RunEvidence, status: SnapshotView)
    ensures
        soak::run_problem(e, status) is None <==> {
            &&& e.entries == e.laps * 108
            &&& e.graw_bytes == e.replayed_bytes
            &&& e.fatals is None
            &&& is_lossless(status)
        },
{
    soak::law_problems_are_failures(e, status);
    let z = soak::ZERO_SOURCES@;
    assert(z[0]@ == "recv.overflow_frames"@);
    assert(z[1]@ == "recv.framer_resets"@);
    assert(z[2]@ == "recv.messages_abandoned"@);
    assert(z[3]@ == "recv.encode_errors"@);
    assert(z[4]@ == "recv.send_errors"@);
    assert(z[5]@ == "recv.extra_connections"@);
    assert(z[6]@ == "dec.malformed"@);
    assert(z[7]@ == "dec.seq_gaps"@);
    assert(z[8]@ == "dec.run_mismatches"@);
    assert(z[9]@ == "dec.batches_abandoned"@);
    assert(z[10]@ == "dec.eos_abandoned"@);
    assert(z[11]@ == "dec.cobo_mismatch"@);
    assert(z[12]@ == "gw.seq_gaps"@);
    assert(z[13]@ == "gw.run_mismatches"@);
    assert(z[14]@ == "gw.write_errors"@);
    assert(z[15]@ == "gw.unexpected_sources"@);
    if is_lossless(status) {
        assert forall|i: int| 0 <= i < soak::MUST_BE_ZERO@.len() implies soak::counter(
            (#[trigger] soak::ZERO_SOURCES@[i])@,
            status,
        ) == Some(0u64) by {
            assert(i == 0 || i == 1 || i == 2 || i == 3 || i == 4 || i == 5 || i == 6 || i == 7 || i
                == 8 || i == 9 || i == 10 || i == 11 || i == 12 || i == 13 || i == 14 || i == 15);
        }
    }
}

proof fn lemma_final(counts: Seq<(Seq<char>, MetricView)>, i: int)
    requires
        0 <= i <= soak::FINAL_ZERO@.len(),
    ensures
        soak::first_final(counts, i) == soak::FINAL_ZERO@.len() <==> forall|k: int|
            i <= k < soak::FINAL_ZERO@.len() ==> command::metric_u64(
                counts,
                (#[trigger] soak::FINAL_ZERO@[k])@,
            ) == Some(0u64),
        i <= soak::first_final(counts, i) <= soak::FINAL_ZERO@.len(),
    decreases soak::FINAL_ZERO@.len() - i,
{
    if i < soak::FINAL_ZERO@.len() {
        lemma_final(counts, i + 1);
        if command::metric_u64(counts, soak::FINAL_ZERO@[i]@) == Some(0u64) {
            if forall|k: int|
                i < k < soak::FINAL_ZERO@.len() ==> command::metric_u64(
                    counts,
                    (#[trigger] soak::FINAL_ZERO@[k])@,
                ) == Some(0u64) {
                assert(soak::first_final(counts, i + 1) == soak::FINAL_ZERO@.len());
            }
        }
    }
}

/// The end passes exactly where the last process has said that nothing gave up, that every lap gave
/// 108 events, all of them complete and written, and that every counter of what must not be is zero.
pub proof fn law_what_the_end_has_to_say(
    counts: Seq<(Seq<char>, MetricView)>,
    laps: u64,
    shown: Seq<char>,
    fatal_shown: Seq<char>,
)
    requires
        laps * 108 < u64::MAX,
    ensures
        soak::final_problem(None, laps, shown, fatal_shown) is Some,
        soak::final_problem(Some(counts), laps, shown, fatal_shown) is None <==> {
            &&& command::metric_text(counts, "fatal"@) == Some(""@)
            &&& command::metric_u64(counts, "events_complete"@) == Some((laps * 108) as u64)
            &&& command::metric_u64(counts, "entries_written"@) == Some((laps * 108) as u64)
            &&& forall|k: int|
                0 <= k < soak::FINAL_ZERO@.len() ==> command::metric_u64(
                    counts,
                    (#[trigger] soak::FINAL_ZERO@[k])@,
                ) == Some(0u64)
        },
{
    lemma_final(counts, 0);
}

/// Every process is within its memory exactly where none of those of which it is known uses more
/// mebibytes than it may; else the first that does is named.
pub proof fn law_the_first_hog_is_named(procs: Seq<(String, Option<u64>)>, limit_mib: u64, from: int)
    requires
        0 <= from <= procs.len(),
    ensures
        ({
            let i = soak::first_hog(procs, limit_mib, from);
            &&& from <= i <= procs.len()
            &&& i < procs.len() ==> is_hog(procs[i], limit_mib)
            &&& forall|j: int| from <= j < i ==> !is_hog(#[trigger] procs[j], limit_mib)
        }),
    decreases procs.len() - from,
{
    if from < procs.len() && !is_hog(procs[from], limit_mib) {
        law_the_first_hog_is_named(procs, limit_mib, from + 1);
    }
}

/// Whether a process is known to use more mebibytes than it may.
pub open spec fn is_hog(process: (String, Option<u64>), limit_mib: u64) -> bool {
    process.1 matches Some(kib) && kib >= (limit_mib + 1) * 1024
}

/// The first file that is missing is named.
pub proof fn law_the_first_missing_file_is_named(files: Seq<Needed>, from: int)
    requires
        0 <= from <= files.len(),
    ensures
        ({
            let i = soak::first_missing(files, from);
            &&& from <= i <= files.len()
            &&& i < files.len() ==> !files[i].exists
            &&& forall|j: int| from <= j < i ==> (#[trigger] files[j]).exists
        }),
    decreases files.len() - from,
{
    if from < files.len() && files[from].exists {
        law_the_first_missing_file_is_named(files, from + 1);
    }
}

/// A line that names a process and its memory sets the memory of that process and of no other.
pub proof fn law_a_line_tells_the_memory(lines: Seq<Seq<char>>, line: Seq<char>, pid: u32, kib: u64)
    requires
        text::words(line).len() >= 2,
        text::unsigned(text::words(line)[0]) == Some(pid as nat),
        text::unsigned(text::words(line)[1]) == Some(kib as nat),
    ensures
        soak::rss_of(lines.push(line)) == soak::rss_of(lines).insert(pid as u64, kib),
{
    assert(lines.push(line).drop_last() =~= lines);
}

/// A line of a process begins its open files, and every line of a file behind it adds one to them.
pub proof fn law_lines_tell_the_open_files(
    lines: Seq<Seq<char>>,
    process: Seq<char>,
    file: Seq<char>,
    pid: u32,
)
    requires
        process.len() > 0,
        process[0] == 'p',
        text::unsigned(process.drop_first()) == Some(pid as nat),
        file.len() > 0,
        file[0] == 'f',
        tally::count_in(soak::fds_of(lines).1, pid as u64) < u64::MAX,
    ensures
        ({
            let one = lines.push(process);
            let two = one.push(file);
            &&& soak::fds_of(one).1 == soak::fds_of(lines).1
            &&& tally::count_in(soak::fds_of(two).1, pid as u64) == tally::count_in(
                soak::fds_of(lines).1,
                pid as u64,
            ) + 1
            &&& soak::fds_of(two).0 == Some(pid as nat)
            &&& forall|other: u64|
                other != pid ==> #[trigger] tally::count_in(soak::fds_of(two).1, other)
                    == tally::count_in(soak::fds_of(lines).1, other)
        }),
{
    let one = lines.push(process);
    assert(one.drop_last() =~= lines);
    let two = one.push(file);
    assert(two.drop_last() =~= one);
    assert(one.last() == process && two.last() == file);
    assert(soak::fds_of(one) == (Some(pid as nat), soak::fds_of(lines).1));
    assert(soak::fds_of(two).1 == soak::fds_of(lines).1.insert(
        pid as u64,
        (tally::count_in(soak::fds_of(lines).1, pid as u64) + 1) as u64,
    ));
}

// ---------------------------------------------------------------------
// The test
// ---------------------------------------------------------------------

/// What a run has left passes only where the last process is there and both its files were made.
pub proof fn law_what_has_to_be_left(
    left: Left,
    current: harness::ResultView,
    status: SnapshotView,
)
    requires
        left.problem(current, status) is None,
        left.entries() <= u64::MAX,
    ensures
        left.sink_log is Some,
        left.monitor_made,
        left.root_made,
        left.fatals is None,
        left.entries() == current.laps * 108,
        left.graw_bytes == current.replayed_bytes,
{
    soak::law_problems_are_failures(left.evidence(current), status);
}

/// Whether a test goes on to a stage, without a failure.
pub open spec fn goes_to(v: HarnessView, event: Event, stage: Stage) -> bool {
    v.after(event).stage == stage && v.after(event).failure == v.failure
}

/// Whether a test fails and winds down.
pub open spec fn fails(v: HarnessView, event: Event) -> bool {
    v.after(event).stage == Stage::Sampler && v.after(event).failure is Some
}

/// When a test goes on to its next run, and when it fails: it needs a token, a number of the run and
/// an address; it makes runs while there is time, unless it is interrupted, told to stop or has made
/// as many as are wanted; a run has to be stopped normally; and the monitor has to have sent
/// something.
pub proof fn law_when_a_test_goes_on(
    v: HarnessView,
    yes: bool,
    other: bool,
    run: Option<u64>,
    address: Option<String>,
    reason: Option<String>,
    messages: u64,
    shown: String,
)
    ensures
        ({
            let e = Event::Acquired { token: yes };
            if yes {
                goes_to(v, e, Stage::Clock)
            } else {
                fails(v, e)
            }
        }),
        goes_to(
            v,
            Event::Clock { time_left: yes, interrupted: other },
            if yes && !other {
                Stage::Start
            } else {
                Stage::Probe
            },
        ),
        ({
            let e = Event::Started { run, shown };
            match run {
                Some(n) => goes_to(v, e, Stage::Address) && (n <= u32::MAX ==> v.after(
                    e,
                ).current.run == n) && v.after(e).current.laps == 0,
                None => fails(v, e),
            }
        }),
        ({
            let e = Event::Address { address, shown };
            match address {
                Some(a) => goes_to(v, e, Stage::Replay) && v.after(e).address == a@,
                None => fails(v, e),
            }
        }),
        ({
            let e = Event::Stopped { ok: yes, reason, shown };
            if yes && (reason matches Some(r) && r@ == "normal"@) {
                goes_to(v, e, Stage::Evidence)
            } else {
                fails(v, e)
            }
        }),
        goes_to(
            v,
            Event::Flags { interrupted: yes, stop: other },
            if yes || other || (v.limits.max_runs matches Some(n) && v.results.len() >= n) {
                Stage::Probe
            } else {
                Stage::Clock
            },
        ),
        ({
            let e = Event::Probed { messages };
            if messages > 0 {
                goes_to(v, e, Stage::Sampler)
            } else {
                fails(v, e)
            }
        }),
        fails(v, Event::Failed(shown)),
        goes_to(v, Event::SamplerStopped, Stage::ShutDown),
{
}

/// What was sent counts where the replay ended well and has printed how many bytes it sent, and
/// these are whole laps.
pub proof fn law_what_was_sent_counts(v: HarnessView, printed: String, shown: String, laps: u64)
    requires
        laps > 0,
        laps * 30_108_684 <= u64::MAX,
        text::words(printed@).len() >= 2,
        text::unsigned(text::words(printed@)[1]) == Some((laps * 30_108_684) as nat),
    ensures
        ({
            let e = Event::Replayed { failed: None, printed, shown };
            &&& goes_to(v, e, Stage::Metrics)
            &&& v.after(e).current.laps == laps
            &&& v.after(e).current.replayed_bytes == laps * 30_108_684
            &&& v.after(e).current.run == v.current.run
        }),
        fails(v, Event::Replayed { failed: Some(shown), printed, shown }),
{
    law_bytes_are_whole_laps((laps * 30_108_684) as u64, laps);
}

/// A run that has passed is counted once its files are removed, or at once where they are kept.
pub proof fn law_a_run_that_has_passed_is_counted(v: HarnessView, health: harness::Health)
    ensures
        goes_to(v, Event::Removed, Stage::Flags),
        v.after(Event::Removed).results == v.results.push(v.current),
        ({
            let e = Event::Health(health);
            let problem = health.problem(
                v.current.run,
                v.limits.rss_limit_mib,
                v.limits.min_free_gib,
            );
            &&& problem is Some ==> fails(v, e) && v.after(e).results == v.results
            &&& problem is None && v.limits.keep_outputs ==> goes_to(v, e, Stage::Flags) && v.after(
                e,
            ).results == v.results.push(v.current)
            &&& problem is None && !v.limits.keep_outputs ==> goes_to(v, e, Stage::Remove)
                && v.after(e).results == v.results
        }),
{
}

/// The processes and the disk are well exactly where no process has ended, none uses more memory
/// than it may, and the free space, where it is known, is not below what is never used.
pub proof fn law_when_processes_and_disk_are_well(
    health: harness::Health,
    run: u32,
    rss_limit_mib: u64,
    min_free_gib: u64,
)
    ensures
        health.problem(run, rss_limit_mib, min_free_gib) is None <==> {
            &&& health.dead is None
            &&& forall|j: int|
                0 <= j < health.procs@.len() ==> !is_hog(#[trigger] health.procs@[j], rss_limit_mib)
            &&& health.free_kib matches Some(kib) ==> kib >= min_free_gib * 1048576
        },
{
    law_the_first_hog_is_named(health.procs@, rss_limit_mib, 0);
}

/// The components are asked until all three report, or until the time is over.
pub proof fn law_how_long_components_are_asked(
    v: HarnessView,
    snapshot: soak::Snapshot,
    shown: String,
    expired: bool,
)
    requires
        v.stage == Stage::Metrics,
    ensures
        ({
            let e = Event::Polled { status: Some((snapshot, shown)), expired };
            let s = snapshot@.components;
            let all = (soak::reported(s, "receiver0"@, "heartbeats_in"@) is Some || soak::reported(
                s,
                "receiver0"@,
                "frames"@,
            ) is Some) && (soak::reported(s, "decoder"@, "heartbeats_in"@) is Some || soak::reported(
                s,
                "decoder"@,
                "frames"@,
            ) is Some) && (soak::reported(s, "graw-writer"@, "heartbeats_in"@) is Some
                || soak::reported(s, "graw-writer"@, "frames"@) is Some);
            &&& all ==> goes_to(v, e, Stage::Stop) && v.after(e).status == snapshot@
            &&& !all && expired ==> fails(v, e)
            &&& !all && !expired ==> goes_to(v, e, Stage::Metrics)
        }),
        ({
            let e = Event::Polled { status: None, expired };
            if expired {
                fails(v, e)
            } else {
                goes_to(v, e, Stage::Metrics)
            }
        }),
{
}

/// The laps and the bytes of all runs are the sums of theirs.
pub proof fn law_totals_are_sums(results: Seq<harness::ResultView>, r: harness::ResultView)
    ensures
        harness::total_laps(Seq::empty()) == 0,
        harness::total_bytes(Seq::empty()) == 0,
        harness::total_laps(results.push(r)) == harness::total_laps(results) + r.laps,
        harness::total_bytes(results.push(r)) == harness::total_bytes(results) + r.replayed_bytes,
{
    assert(results.push(r).drop_last() =~= results);
}

/// Where every run sent whole laps, all bytes are those of all laps.
pub proof fn law_all_bytes_are_those_of_all_laps(results: Seq<harness::ResultView>)
    requires
        forall|i: int| 0 <= i < results.len() ==> (#[trigger] results[i]).is_laps(),
    ensures
        harness::total_bytes(results) == harness::total_laps(results) * 30_108_684,
    decreases results.len(),
{
    if results.len() > 0 {
        let before = results.drop_last();
        assert forall|i: int| 0 <= i < before.len() implies (#[trigger] before[i]).is_laps() by {
            assert(before[i] == results[i]);
        }
        law_all_bytes_are_those_of_all_laps(before);
        assert(results[results.len() - 1].is_laps());
    }
}

/// What waiting for a line comes to: the line where it was found, a failure where the process has
/// ended or the time is over, and nothing yet else.
pub proof fn law_what_waiting_comes_to(
    name: Seq<char>,
    shown: Seq<char>,
    log: Seq<char>,
    line: Seq<char>,
    alive: bool,
    expired: bool,
)
    ensures
        soak::wait_result(name, shown, log, Some(line), alive, expired) == Some(
            Ok::<Seq<char>, Seq<char>>(line),
        ),
        soak::wait_result(name, shown, log, None, alive, expired) is None <==> alive && !expired,
        !alive || expired ==> (soak::wait_result(name, shown, log, None, alive, expired) matches Some(
            r,
        ) && r is Err),
{
}

/// The events that lines say were written are the sums of those of the lines that hold the prefix:
/// the number behind the first parenthesis.
pub proof fn law_events_are_summed_up(
    lines: Seq<Seq<char>>,
    line: Seq<char>,
    prefix: Seq<char>,
    i: int,
    n: u64,
)
    requires
        text::first_place(line, prefix, 0) is Some,
        text::first_place(line, "("@, 0) == Some(i),
        text::words(line.skip(i + 1)).len() > 0,
        text::unsigned(text::words(line.skip(i + 1))[0]) == Some(n as nat),
    ensures
        soak::entries_in(lines.push(line), prefix) == soak::entries_in(lines, prefix) + n,
        soak::entries_in(Seq::empty(), prefix) == 0,
{
    assert(lines.push(line).drop_last() =~= lines);
}

/// A line says of no events where it does not hold the prefix, has no parenthesis, or has no number
/// behind the first one.
pub proof fn law_other_lines_say_of_no_events(
    lines: Seq<Seq<char>>,
    line: Seq<char>,
    prefix: Seq<char>,
    i: int,
)
    requires
        ({
            ||| text::first_place(line, prefix, 0) is None
            ||| text::first_place(line, "("@, 0) is None
            ||| text::first_place(line, "("@, 0) == Some(i) && (text::words(line.skip(i + 1)).len()
                == 0 || text::unsigned(text::words(line.skip(i + 1))[0]) is None)
        }),
    ensures
        soak::entries_in(lines.push(line), prefix) == soak::entries_in(lines, prefix),
{
    assert(lines.push(line).drop_last() =~= lines);
}

/// The free space is the fourth word of the second line.
pub proof fn law_the_free_space_is_the_fourth_word(printed: Seq<char>, n: nat)
    requires
        text::lines(printed).len() >= 2,
        text::words(text::lines(printed)[1]).len() >= 4,
        text::words(text::lines(printed)[1])[3] == text::decimal(n),
        text::whole_part(text::decimal(n)) == Some(n),
    ensures
        soak::free_kib_in(printed) == Some(n),
{
}

proof fn lemma_positional(raw: Seq<Seq<char>>, positive: Seq<bool>, i: int, s: replay::Scan)
    requires
        0 <= i <= raw.len(),
        forall|k: int| 0 <= k < raw.len() ==> !text::begins(#[trigger] raw[k], "--"@),
    ensures
        replay::scan(raw, positive, i, s) == Ok::<replay::Scan, Seq<char>>(
            replay::Scan { positional: s.positional + raw.skip(i), ..s },
        ),
    decreases raw.len() - i,
{
    if i < raw.len() {
        lemma_dashes();
        assert(!text::begins(raw[i], "--"@));
        let t = replay::Scan { positional: s.positional.push(raw[i]), ..s };
        lemma_positional(raw, positive, i + 1, t);
        assert(t.positional + raw.skip(i + 1) =~= s.positional + raw.skip(i));
    } else {
        assert(s.positional + raw.skip(i) =~= s.positional);
    }
}

proof fn lemma_dashes()
    ensures
        text::begins("--rate-mbps"@, "--"@),
        text::begins("--chunk-bytes"@, "--"@),
        text::begins("--laps"@, "--"@),
        text::begins("--laps-until-s"@, "--"@),
        text::begins("--loop"@, "--"@),
{
    reveal_strlit("--");
    reveal_strlit("--rate-mbps");
    reveal_strlit("--chunk-bytes");
    reveal_strlit("--laps");
    reveal_strlit("--laps-until-s");
    reveal_strlit("--loop");
    assert("--rate-mbps"@.take(2) =~= "--"@);
    assert("--chunk-bytes"@.take(2) =~= "--"@);
    assert("--laps"@.take(2) =~= "--"@);
    assert("--laps-until-s"@.take(2) =~= "--"@);
    assert("--loop"@.take(2) =~= "--"@);
}

/// A replay without options goes to the first argument and sends the files that the others name,
/// once, as fast as possible.
pub proof fn law_a_replay_without_options(raw: Seq<Seq<char>>, positive: Seq<bool>)
    requires
        raw.len() >= 2,
        forall|k: int| 0 <= k < raw.len() ==> !text::begins(#[trigger] raw[k], "--"@),
    ensures
        replay::parsed(raw, positive) matches Ok(a) && {
            &&& a.endpoint == raw[0]
            &&& a.files == raw.skip(1)
            &&& a.rate_mbps is None
            &&& !a.loop_replay
            &&& a.laps is None
            &&& a.laps_until_s is None
        },
{
    lemma_positional(raw, positive, 0, replay::Scan::nothing());
    let none = replay::Scan::nothing().positional;
    assert(none + raw.skip(0) =~= raw);
}

/// An endurance test takes no argument that is not one of its options, and no option without its
/// value; and it needs a mode.
pub proof fn law_which_arguments_are_refused(raw: Seq<Seq<char>>, signs: Seq<Sign>, i: int, s: Scan)
    requires
        0 <= i < raw.len(),
    ensures
        raw[i] == "--keep-outputs"@ ==> soak::scan(raw, signs, i, s) == soak::scan(
            raw,
            signs,
            i + 1,
            Scan { keep_outputs: true, ..s },
        ),
        raw[i] != "--keep-outputs"@ && !soak::takes_value(raw[i]) ==> soak::scan(raw, signs, i, s)
            == Err::<Scan, Seq<char>>("unknown option: "@ + raw[i]),
        raw[i] != "--keep-outputs"@ && soak::takes_value(raw[i]) && i + 1 == raw.len() ==> soak::scan(
            raw,
            signs,
            i,
            s,
        ) == Err::<Scan, Seq<char>>(raw[i] + " requires a value"@),
        soak::parsed(Seq::empty(), signs) == Err::<Scan, Seq<char>>("--mode is required"@),
{
}

} // verus!

//! The decoder: it turns the raw batches of all sources into one stream of fragments.
//!
//! [`RunDecoder`] checks what comes in, decodes it, and decides what to send; [`DecoderLoop`]
//! decides what its thread does next. Sending is lossless: a send that finds the receiving side
//! full is tried again, and only a reset may give it up. What is given up is counted.

use std::collections::HashMap;
use std::collections::HashSet;

use vstd::prelude::*;

use crate::command::{Metric, MetricView, Metrics};
use crate::config::{
    Config, DECODER_COMMAND_LISTEN, DEFAULT_DECODER_SEND_TIMEOUT_MS, DEFAULT_HEARTBEAT_MS,
};
use crate::decode;
use crate::decode::{parse_topology, Decoder};
use crate::msg::{Batch, Fragment, FragmentView};
use crate::tally;
use crate::tally::Tally;

verus! {

broadcast use vstd::std_specs::hash::group_hash_axioms;

/// The longest that the decoder thread waits for input, in milliseconds.
pub const POLL_TIMEOUT_MS: u64 = 100;

/// Nanoseconds in a millisecond.
pub const NANOS_PER_MS: u64 = 1_000_000;

/// What a decoder process is started with.
#[derive(Debug, Clone)]
pub struct DecoderParams {
    pub pull_bind: String,
    pub push_connect: String,
    pub command_listen: String,
    pub batch_max_bytes: usize,
    pub batch_max_ms: u64,
    pub heartbeat_ms: u64,
    pub send_timeout_ms: i32,
    /// The number of threads that are wanted.
    pub workers: u32,
    /// The CoBos whose streams have to end.
    pub expected_sources: Vec<u32>,
}

impl DecoderParams {
    /// What a configuration gives.
    pub fn from_config(config: &Config) -> (params: Self)
        ensures
            params.pull_bind@ == config.decoder.pull_bind@,
            params.push_connect@ == config.decoder.push_connect@,
            params.command_listen@ == DECODER_COMMAND_LISTEN@,
            params.batch_max_bytes == config.decoder.batch_max_bytes,
            params.batch_max_ms == config.decoder.batch_max_ms,
            params.heartbeat_ms == DEFAULT_HEARTBEAT_MS,
            params.send_timeout_ms == DEFAULT_DECODER_SEND_TIMEOUT_MS,
            params.workers == config.decoder.workers,
            params.expected_sources@ == config.cobo_ids(),
    {
        DecoderParams {
            pull_bind: config.decoder.pull_bind.clone(),
            push_connect: config.decoder.push_connect.clone(),
            command_listen: DECODER_COMMAND_LISTEN.to_string(),
            batch_max_bytes: config.decoder.batch_max_bytes,
            batch_max_ms: config.decoder.batch_max_ms,
            heartbeat_ms: DEFAULT_HEARTBEAT_MS,
            send_timeout_ms: DEFAULT_DECODER_SEND_TIMEOUT_MS,
            workers: config.decoder.workers,
            expected_sources: config.ids(),
        }
    }
}

/// What the decoder is to send.
#[derive(Debug, Clone, Copy, PartialEq, Eq, Structural)]
pub enum Emit {
    /// Nothing.
    Nothing,
    /// The pending fragments, as one batch.
    Batch,
    /// The pending fragments, if there are any, and then the end of the stream.
    FlushAndEndOfStream,
}

// ---------------------------------------------------------------------
// What a batch of frames holds
// ---------------------------------------------------------------------

/// The bytes of each frame.
pub open spec fn frame_bytes(frames: Seq<Vec<u8>>) -> Seq<Seq<u8>> {
    frames.map_values(|f: Vec<u8>| f@)
}

/// The fragments in `frames`, in order.
pub open spec fn fragments_of(frames: Seq<Seq<u8>>) -> Seq<FragmentView>
    decreases frames.len(),
{
    if frames.len() == 0 {
        Seq::empty()
    } else {
        match decode::verdict(frames.last()) {
            decode::Verdict::Decoded(f) => fragments_of(frames.drop_last()).push(f),
            _ => fragments_of(frames.drop_last()),
        }
    }
}

/// How many of `frames` satisfy `p`.
pub open spec fn how_many(frames: Seq<Seq<u8>>, p: spec_fn(Seq<u8>) -> bool) -> nat
    decreases frames.len(),
{
    if frames.len() == 0 {
        0
    } else {
        how_many(frames.drop_last(), p) + if p(frames.last()) {
            1nat
        } else {
            0nat
        }
    }
}

/// Whether `frame` is a data frame of another CoBo than `source`.
pub open spec fn is_foreign(source: u32) -> spec_fn(Seq<u8>) -> bool {
    |frame: Seq<u8>|
        decode::verdict(frame) is Decoded && decode::verdict(frame)->Decoded_0.cobo != source
}

/// Whether `frame` is a control frame that describes the topology.
pub open spec fn tells_topology() -> spec_fn(Seq<u8>) -> bool {
    |frame: Seq<u8>| decode::verdict(frame) is Unsupported && decode::is_topology(frame)
}

/// Whether `frame` is malformed.
pub open spec fn is_malformed() -> spec_fn(Seq<u8>) -> bool {
    |frame: Seq<u8>| decode::verdict(frame) is Malformed
}

/// The decoder's counts once `frames` are counted in.
pub open spec fn counts_after(counts: decode::Counts, frames: Seq<Seq<u8>>) -> decode::Counts
    decreases frames.len(),
{
    if frames.len() == 0 {
        counts
    } else {
        counts_after(counts, frames.drop_last()).with(frames.last())
    }
}

/// The bytes of all samples in `fragments`.
pub open spec fn item_total(fragments: Seq<FragmentView>) -> nat
    decreases fragments.len(),
{
    if fragments.len() == 0 {
        0
    } else {
        item_total(fragments.drop_last()) + fragments.last().items.len()
    }
}

/// The bytes of all `frames`.
pub open spec fn byte_total(frames: Seq<Seq<u8>>) -> nat
    decreases frames.len(),
{
    if frames.len() == 0 {
        0
    } else {
        byte_total(frames.drop_last()) + frames.last().len()
    }
}

proof fn lemma_item_total_add(a: Seq<FragmentView>, b: Seq<FragmentView>)
    ensures
        item_total(a + b) == item_total(a) + item_total(b),
    decreases b.len(),
{
    if b.len() == 0 {
        assert(a + b =~= a);
    } else {
        lemma_item_total_add(a, b.drop_last());
        assert((a + b).drop_last() =~= a + b.drop_last());
    }
}

proof fn lemma_fragments_fit(frames: Seq<Seq<u8>>)
    ensures
        item_total(fragments_of(frames)) <= 2 * byte_total(frames),
        fragments_of(frames).len() <= frames.len(),
    decreases frames.len(),
{
    if frames.len() > 0 {
        lemma_fragments_fit(frames.drop_last());
        if let decode::Verdict::Decoded(f) = decode::verdict(frames.last()) {
            decode::lemma_fragment_size(frames.last());
            let front = fragments_of(frames.drop_last());
            assert(front.push(f).drop_last() =~= front);
        }
    }
}

proof fn lemma_how_many_bound(frames: Seq<Seq<u8>>, p: spec_fn(Seq<u8>) -> bool)
    ensures
        how_many(frames, p) <= frames.len(),
    decreases frames.len(),
{
    if frames.len() > 0 {
        lemma_how_many_bound(frames.drop_last(), p);
    }
}

proof fn lemma_counts_room(counts: decode::Counts, frames: Seq<Seq<u8>>, k: int)
    requires
        0 <= k < frames.len(),
        counts.room_for(frames.len(), byte_total(frames)),
        counts.wf(),
    ensures
        counts_after(counts, frames.take(k)).room_for(1, frames[k].len()),
        counts_after(counts, frames.take(k)).wf(),
{
    lemma_counts_grow(counts, frames.take(k));
    lemma_byte_total_take(frames, k + 1);
    assert(frames.take(k + 1).drop_last() =~= frames.take(k));
}

proof fn lemma_byte_total_take(frames: Seq<Seq<u8>>, k: int)
    requires
        0 <= k <= frames.len(),
    ensures
        byte_total(frames.take(k)) <= byte_total(frames),
    decreases frames.len(),
{
    if k == frames.len() {
        assert(frames.take(k) =~= frames);
    } else {
        lemma_byte_total_take(frames.drop_last(), k);
        assert(frames.drop_last().take(k) =~= frames.take(k));
    }
}

proof fn lemma_counts_grow(counts: decode::Counts, frames: Seq<Seq<u8>>)
    requires
        counts.wf(),
    ensures
        ({
            let after = counts_after(counts, frames);
            &&& after.frames <= counts.frames + frames.len()
            &&& after.malformed <= counts.malformed + frames.len()
            &&& after.unsupported <= counts.unsupported + frames.len()
            &&& after.items <= counts.items + byte_total(frames)
            &&& after.wf()
        }),
    decreases frames.len(),
{
    if frames.len() > 0 {
        lemma_counts_grow(counts, frames.drop_last());
        if decode::verdict(frames.last()) is Decoded {
            decode::lemma_fragment_size(frames.last());
        }
    }
}

// ---------------------------------------------------------------------
// The state of one run
// ---------------------------------------------------------------------

/// The counters of a decoder.
pub struct Tallies {
    pub frames_in: nat,
    pub fragments_out: nat,
    pub batches_out: nat,
    pub items_out: nat,
    pub seq_gaps: nat,
    pub run_mismatches: nat,
    pub eos_in: nat,
    pub heartbeats_in: nat,
    pub heartbeats_out: nat,
    pub heartbeats_abandoned: nat,
    pub eos_out: nat,
    pub eos_abandoned: nat,
    pub batches_abandoned: nat,
    pub cobo_mismatch: nat,
    pub topology_frames: nat,
}

/// The value of a [`RunDecoder`].
pub struct RunState {
    pub run_number: u32,
    /// Whether the next message's run number is taken over.
    pub awaiting_run: bool,
    pub expected: Set<u32>,
    /// The sources whose stream has ended.
    pub ended: Set<u32>,
    pub counts: decode::Counts,
    pub pending: Seq<FragmentView>,
    /// When the pending batch is to be closed.
    pub deadline: Option<u64>,
    pub batch_max_bytes: nat,
    pub batch_max_ns: nat,
    pub out_seq: nat,
    pub next_seq: Map<u32, u64>,
    pub batches_in: Map<u64, u64>,
    pub tallies: Tallies,
    pub errored: bool,
}

impl RunState {
    /// The start of run `run_number`.
    pub open spec fn fresh(
        run_number: u32,
        expected: Set<u32>,
        batch_max_bytes: nat,
        batch_max_ns: nat,
    ) -> RunState {
        RunState {
            run_number,
            awaiting_run: false,
            expected,
            ended: Set::empty(),
            counts: decode::Counts {
                frames: 0,
                items: 0,
                malformed: 0,
                unsupported: 0,
                topology: 0,
            },
            pending: Seq::empty(),
            deadline: None,
            batch_max_bytes,
            batch_max_ns,
            out_seq: 0,
            next_seq: Map::empty(),
            batches_in: Map::empty(),
            tallies: Tallies {
                frames_in: 0,
                fragments_out: 0,
                batches_out: 0,
                items_out: 0,
                seq_gaps: 0,
                run_mismatches: 0,
                eos_in: 0,
                heartbeats_in: 0,
                heartbeats_out: 0,
                heartbeats_abandoned: 0,
                eos_out: 0,
                eos_abandoned: 0,
                batches_abandoned: 0,
                cobo_mismatch: 0,
                topology_frames: 0,
            },
            errored: false,
        }
    }

    /// The sequence number that the next batch of `source` should have.
    pub open spec fn expected_seq(self, source: u32) -> u64 {
        if self.next_seq.contains_key(source) {
            self.next_seq[source]
        } else {
            0
        }
    }

    /// Whether a message of run `run` contradicts the run in progress.
    pub open spec fn contradicts(self, run: u32) -> bool {
        !self.awaiting_run && run != self.run_number
    }

    /// The state once a message's run number is checked: after the end of a stream the number is
    /// taken over; in the middle of a run another number is a fault, and is not taken over.
    pub open spec fn checked(self, run: u32) -> RunState {
        RunState {
            awaiting_run: false,
            run_number: if self.awaiting_run {
                run
            } else {
                self.run_number
            },
            errored: self.errored || self.contradicts(run),
            tallies: Tallies {
                run_mismatches: self.tallies.run_mismatches + if self.contradicts(run) {
                    1nat
                } else {
                    0nat
                },
                ..self.tallies
            },
            ..self
        }
    }

    /// The state once a batch is taken in.
    pub open spec fn after_batch(
        self,
        source: u32,
        run: u32,
        seq: u64,
        frames: Seq<Seq<u8>>,
        now: u64,
    ) -> RunState {
        let s = self.checked(run);
        let gap = seq != s.expected_seq(source);
        let found = fragments_of(frames);
        RunState {
            counts: counts_after(s.counts, frames),
            pending: s.pending + found,
            deadline: if s.deadline is None && found.len() > 0 {
                Some((now + s.batch_max_ns) as u64)
            } else {
                s.deadline
            },
            next_seq: s.next_seq.insert(source, (seq + 1) as u64),
            batches_in: s.batches_in.insert(
                source as u64,
                (tally::count_in(s.batches_in, source as u64) + 1) as u64,
            ),
            errored: s.errored || gap || how_many(frames, is_malformed()) > 0,
            tallies: Tallies {
                frames_in: s.tallies.frames_in + frames.len(),
                seq_gaps: s.tallies.seq_gaps + if gap {
                    1nat
                } else {
                    0nat
                },
                cobo_mismatch: s.tallies.cobo_mismatch + how_many(frames, is_foreign(source)),
                topology_frames: s.tallies.topology_frames + how_many(frames, tells_topology()),
                ..s.tallies
            },
            ..s
        }
    }

    /// What is to be sent once a batch is taken in.
    pub open spec fn emit_after_batch(self) -> Emit {
        if item_total(self.pending) >= self.batch_max_bytes {
            Emit::Batch
        } else {
            Emit::Nothing
        }
    }

    /// Whether the counters have room for a batch, and its close can be timed.
    pub open spec fn room_for_batch(
        self,
        source: u32,
        seq: u64,
        frames: Seq<Seq<u8>>,
        now: u64,
    ) -> bool {
        &&& seq < u64::MAX
        &&& now + self.batch_max_ns <= u64::MAX
        &&& self.counts.room_for(frames.len(), byte_total(frames))
        &&& item_total(self.pending) + 2 * byte_total(frames) <= usize::MAX
        &&& tally::count_in(self.batches_in, source as u64) < u64::MAX
        &&& self.tallies.frames_in + frames.len() <= u64::MAX
        &&& self.tallies.cobo_mismatch + frames.len() <= u64::MAX
        &&& self.tallies.topology_frames + frames.len() <= u64::MAX
        &&& self.tallies.seq_gaps < u64::MAX
        &&& self.tallies.run_mismatches < u64::MAX
    }

    /// The state once a source has ended its stream.
    pub open spec fn after_eos(self, source: u32, run: u32) -> RunState {
        let s = self.checked(run);
        RunState {
            ended: s.ended.insert(source),
            tallies: Tallies { eos_in: s.tallies.eos_in + 1, ..s.tallies },
            ..s
        }
    }

    /// What is to be sent once a source has ended its stream.
    pub open spec fn emit_after_eos(self) -> Emit {
        if self.expected.subset_of(self.ended) {
            Emit::FlushAndEndOfStream
        } else {
            Emit::Nothing
        }
    }

    /// The state once a heartbeat has come in.
    pub open spec fn after_heartbeat(self) -> RunState {
        RunState {
            tallies: Tallies { heartbeats_in: self.tallies.heartbeats_in + 1, ..self.tallies },
            ..self
        }
    }

    /// The state once a heartbeat was sent.
    pub open spec fn after_heartbeat_sent(self) -> RunState {
        RunState {
            tallies: Tallies { heartbeats_out: self.tallies.heartbeats_out + 1, ..self.tallies },
            ..self
        }
    }

    /// The state once a heartbeat was given up.
    pub open spec fn after_heartbeat_abandoned(self) -> RunState {
        RunState {
            tallies: Tallies {
                heartbeats_abandoned: self.tallies.heartbeats_abandoned + 1,
                ..self.tallies
            },
            ..self
        }
    }

    /// The state without pending fragments.
    pub open spec fn cleared(self) -> RunState {
        RunState { pending: Seq::empty(), deadline: None, ..self }
    }

    /// The state once the pending batch was sent.
    pub open spec fn after_batch_sent(self) -> RunState {
        RunState {
            out_seq: self.out_seq + 1,
            tallies: Tallies {
                batches_out: self.tallies.batches_out + 1,
                fragments_out: self.tallies.fragments_out + self.pending.len(),
                items_out: self.tallies.items_out + item_total(self.pending) / 4,
                ..self.tallies
            },
            ..self
        }.cleared()
    }

    /// The state once the pending batch was given up.
    pub open spec fn after_batch_abandoned(self) -> RunState {
        RunState {
            out_seq: self.out_seq + 1,
            tallies: Tallies {
                batches_abandoned: self.tallies.batches_abandoned + 1,
                ..self.tallies
            },
            ..self
        }.cleared()
    }

    /// The state ready for the next run.
    pub open spec fn rearmed(self) -> RunState {
        RunState {
            ended: Set::empty(),
            next_seq: Map::empty(),
            out_seq: 0,
            awaiting_run: true,
            ..self
        }.cleared()
    }

    /// The state once the decoder's own end of stream was sent.
    pub open spec fn after_eos_sent(self) -> RunState {
        RunState {
            tallies: Tallies { eos_out: self.tallies.eos_out + 1, ..self.tallies },
            ..self
        }.rearmed()
    }

    /// The state once the decoder's own end of stream was given up.
    pub open spec fn after_eos_abandoned(self) -> RunState {
        RunState {
            tallies: Tallies { eos_abandoned: self.tallies.eos_abandoned + 1, ..self.tallies },
            ..self
        }.rearmed()
    }

    /// A batch is due exactly while fragments are pending.
    pub open spec fn wf(self) -> bool {
        &&& self.counts.wf()
        &&& self.deadline is Some <==> self.pending.len() > 0
    }
}

/// A fault, once seen, is never forgotten, whatever comes in or is sent.
pub proof fn law_faults_are_never_forgotten(
    s: RunState,
    source: u32,
    run: u32,
    seq: u64,
    frames: Seq<Seq<u8>>,
    now: u64,
)
    requires
        s.errored,
    ensures
        s.after_batch(source, run, seq, frames, now).errored,
        s.after_eos(source, run).errored,
        s.after_batch_sent().errored,
        s.after_batch_abandoned().errored,
        s.after_eos_sent().errored,
        s.after_eos_abandoned().errored,
{
}

/// Batches that a source numbers without a gap, all of the run in progress and without malformed
/// frames, raise no fault: after a batch, the next number is the one expected.
pub proof fn law_gapless_batches_raise_no_fault(
    s: RunState,
    source: u32,
    seq: u64,
    frames: Seq<Seq<u8>>,
    more: Seq<Seq<u8>>,
    now: u64,
    later: u64,
)
    requires
        !s.errored,
        seq < u64::MAX - 1,
        seq == s.expected_seq(source),
        how_many(frames, is_malformed()) == 0,
        how_many(more, is_malformed()) == 0,
    ensures
        ({
            let one = s.after_batch(source, s.run_number, seq, frames, now);
            let two = one.after_batch(source, s.run_number, (seq + 1) as u64, more, later);
            &&& !one.errored
            &&& !two.errored
            &&& two.tallies.seq_gaps == s.tallies.seq_gaps
            &&& two.tallies.run_mismatches == s.tallies.run_mismatches
        }),
{
}

/// The sources do not interfere: a batch of one source changes neither the number expected of
/// another nor its count of batches.
pub proof fn law_sources_are_numbered_apart(
    s: RunState,
    source: u32,
    other: u32,
    run: u32,
    seq: u64,
    frames: Seq<Seq<u8>>,
    now: u64,
)
    requires
        source != other,
    ensures
        s.after_batch(source, run, seq, frames, now).expected_seq(other) == s.expected_seq(other),
        tally::count_in(s.after_batch(source, run, seq, frames, now).batches_in, other as u64)
            == tally::count_in(s.batches_in, other as u64),
{
}

/// A control frame costs no event: the fragments of a batch are those of the same batch without
/// its control frames.
pub proof fn law_control_frames_cost_no_fragments(
    before: Seq<Seq<u8>>,
    control: Seq<u8>,
    after: Seq<Seq<u8>>,
)
    requires
        decode::verdict(control) is Unsupported,
    ensures
        fragments_of(before.push(control) + after) == fragments_of(before + after),
        how_many(before.push(control) + after, is_malformed()) == how_many(
            before + after,
            is_malformed(),
        ),
    decreases after.len(),
{
    let with = before.push(control) + after;
    let without = before + after;
    if after.len() == 0 {
        assert(with =~= before.push(control));
        assert(without =~= before);
        assert(with.drop_last() =~= before);
    } else {
        law_control_frames_cost_no_fragments(before, control, after.drop_last());
        assert(with.drop_last() =~= before.push(control) + after.drop_last());
        assert(without.drop_last() =~= before + after.drop_last());
        assert(with.last() == after.last());
        assert(without.last() == after.last());
    }
}

/// After its own end of stream the decoder starts over: whatever run number comes next is taken
/// over without a fault, the sources count from 0 again, and none of them has ended.
pub proof fn law_the_next_run_starts_from_zero(s: RunState, source: u32, run: u32)
    ensures
        ({
            let next = s.after_eos_sent();
            &&& next.out_seq == 0
            &&& next.expected_seq(source) == 0
            &&& next.ended == Set::<u32>::empty()
            &&& next.pending.len() == 0
            &&& next.run_number == s.run_number
            &&& next.checked(run).run_number == run
            &&& next.checked(run).tallies.run_mismatches == s.tallies.run_mismatches
            &&& next.checked(run).errored == s.errored
        }),
{
}

/// A batch that is given up leaves a gap in the numbers that are sent.
pub proof fn law_an_abandoned_batch_leaves_a_gap(s: RunState)
    ensures
        s.after_batch_abandoned().out_seq == s.out_seq + 1,
        s.after_batch_abandoned().tallies.batches_out == s.tallies.batches_out,
        s.after_batch_abandoned().tallies.fragments_out == s.tallies.fragments_out,
        s.after_batch_abandoned().tallies.batches_abandoned == s.tallies.batches_abandoned + 1,
{
}

/// What is done to a decoder.
pub enum RunCall {
    /// A batch came in.
    Batch { source: u32, run: u32, seq: u64, frames: Seq<Seq<u8>>, now: u64 },
    /// A source has ended its stream.
    EndOfStream { source: u32, run: u32 },
    /// A heartbeat came in.
    Heartbeat,
    /// The pending batch was sent.
    BatchSent,
    /// The pending batch was given up.
    BatchAbandoned,
    /// The decoder's own end of stream was sent.
    EosSent,
    /// The decoder's own end of stream was given up.
    EosAbandoned,
    /// A heartbeat was sent.
    HeartbeatSent,
    /// A heartbeat was given up.
    HeartbeatAbandoned,
}

impl RunState {
    /// The state once `call` is done.
    pub open spec fn after(self, call: RunCall) -> RunState {
        match call {
            RunCall::Batch { source, run, seq, frames, now } => self.after_batch(
                source,
                run,
                seq,
                frames,
                now,
            ),
            RunCall::EndOfStream { source, run } => self.after_eos(source, run),
            RunCall::Heartbeat => self.after_heartbeat(),
            RunCall::BatchSent => self.after_batch_sent(),
            RunCall::BatchAbandoned => self.after_batch_abandoned(),
            RunCall::EosSent => self.after_eos_sent(),
            RunCall::EosAbandoned => self.after_eos_abandoned(),
            RunCall::HeartbeatSent => self.after_heartbeat_sent(),
            RunCall::HeartbeatAbandoned => self.after_heartbeat_abandoned(),
        }
    }

    /// Whether the counters have room for `call`.
    pub open spec fn meets(self, call: RunCall) -> bool {
        match call {
            RunCall::Batch { source, seq, frames, now, .. } => self.room_for_batch(
                source,
                seq,
                frames,
                now,
            ),
            RunCall::EndOfStream { .. } => self.tallies.eos_in < u64::MAX
                && self.tallies.run_mismatches < u64::MAX,
            RunCall::Heartbeat => self.tallies.heartbeats_in < u64::MAX,
            RunCall::BatchSent => self.room_for_sent(),
            RunCall::BatchAbandoned => self.tallies.batches_abandoned < u64::MAX && self.out_seq
                < u64::MAX,
            RunCall::EosSent => self.tallies.eos_out < u64::MAX,
            RunCall::EosAbandoned => self.tallies.eos_abandoned < u64::MAX,
            RunCall::HeartbeatSent => self.tallies.heartbeats_out < u64::MAX,
            RunCall::HeartbeatAbandoned => self.tallies.heartbeats_abandoned < u64::MAX,
        }
    }

    /// The state once all calls are done.
    pub open spec fn after_all(self, calls: Seq<RunCall>) -> RunState
        decreases calls.len(),
    {
        if calls.len() == 0 {
            self
        } else {
            self.after_all(calls.drop_last()).after(calls.last())
        }
    }

    /// Whether the counters have room for the calls, one after the other.
    pub open spec fn meets_all(self, calls: Seq<RunCall>) -> bool
        decreases calls.len(),
    {
        calls.len() > 0 ==> self.meets_all(calls.drop_last()) && self.after_all(
            calls.drop_last(),
        ).meets(calls.last())
    }
}

/// The number that the next batch of `source` should have: one more than that of its last batch
/// since the start or the decoder's last own end of stream, and 0 if there was none.
pub open spec fn awaited(calls: Seq<RunCall>, source: u32) -> nat
    decreases calls.len(),
{
    if calls.len() == 0 {
        0
    } else {
        match calls.last() {
            RunCall::Batch { source: from, seq, .. } if from == source => seq as nat + 1,
            RunCall::EosSent => 0,
            RunCall::EosAbandoned => 0,
            _ => awaited(calls.drop_last(), source),
        }
    }
}

/// The sources that have ended their streams since the start or the decoder's last own end of
/// stream.
pub open spec fn ended_in(calls: Seq<RunCall>) -> Set<u32>
    decreases calls.len(),
{
    if calls.len() == 0 {
        Set::empty()
    } else {
        match calls.last() {
            RunCall::EndOfStream { source, .. } => ended_in(calls.drop_last()).insert(source),
            RunCall::EosSent => Set::empty(),
            RunCall::EosAbandoned => Set::empty(),
            _ => ended_in(calls.drop_last()),
        }
    }
}

/// Whatever is done to a decoder, it awaits from each source the number that follows the last one,
/// knows which sources have ended, expects the sources that it was made with, and has a deadline
/// exactly while fragments are pending.
pub proof fn law_the_history_is_kept(start: RunState, calls: Seq<RunCall>, source: u32)
    requires
        start == RunState::fresh(
            start.run_number,
            start.expected,
            start.batch_max_bytes,
            start.batch_max_ns,
        ),
        start.meets_all(calls),
    ensures
        ({
            let s = start.after_all(calls);
            &&& s.expected_seq(source) == awaited(calls, source)
            &&& s.ended == ended_in(calls)
            &&& s.expected == start.expected
            &&& s.deadline is Some <==> s.pending.len() > 0
        }),
    decreases calls.len(),
{
    if calls.len() > 0 {
        law_the_history_is_kept(start, calls.drop_last(), source);
    }
}

/// Whatever was done before, a batch whose number is not the one awaited is counted as one gap and
/// is a fault, and no other batch is counted; its frames are decoded all the same. The number that
/// is awaited then follows the one that came, so a gap is counted once, and no other source is
/// concerned.
pub proof fn law_a_gap_is_counted_once(
    start: RunState,
    calls: Seq<RunCall>,
    source: u32,
    run: u32,
    seq: u64,
    frames: Seq<Seq<u8>>,
    now: u64,
)
    requires
        start == RunState::fresh(
            start.run_number,
            start.expected,
            start.batch_max_bytes,
            start.batch_max_ns,
        ),
        start.meets_all(calls.push(RunCall::Batch { source, run, seq, frames, now })),
    ensures
        ({
            let s = start.after_all(calls);
            let t = s.after_batch(source, run, seq, frames, now);
            let gap = seq != awaited(calls, source);
            &&& t.tallies.seq_gaps == s.tallies.seq_gaps + if gap {
                1nat
            } else {
                0nat
            }
            &&& gap ==> t.errored
            &&& t.pending == s.pending + fragments_of(frames)
            &&& t.expected_seq(source) == seq + 1
            &&& forall|other: u32|
                other != source ==> #[trigger] t.expected_seq(other) == awaited(calls, other)
        }),
{
    let call = RunCall::Batch { source, run, seq, frames, now };
    assert(calls.push(call).drop_last() =~= calls);
    let s = start.after_all(calls);
    let t = s.after_batch(source, run, seq, frames, now);
    law_the_history_is_kept(start, calls, source);
    assert forall|other: u32| other != source implies #[trigger] t.expected_seq(other) == awaited(
        calls,
        other,
    ) by {
        law_the_history_is_kept(start, calls, other);
        law_sources_are_numbered_apart(s, source, other, run, seq, frames, now);
    }
}

/// Whatever was done before, the end of a source's stream makes the decoder end its own exactly
/// where every expected source has ended its stream since the start or the decoder's last own end
/// of stream. It is counted, and what is pending and what was sent stay as they are.
pub proof fn law_the_stream_ends_with_its_sources(
    start: RunState,
    calls: Seq<RunCall>,
    source: u32,
    run: u32,
)
    requires
        start == RunState::fresh(
            start.run_number,
            start.expected,
            start.batch_max_bytes,
            start.batch_max_ns,
        ),
        start.meets_all(calls.push(RunCall::EndOfStream { source, run })),
    ensures
        ({
            let s = start.after_all(calls);
            let t = s.after_eos(source, run);
            let ended = ended_in(calls.push(RunCall::EndOfStream { source, run }));
            &&& t.emit_after_eos() == if start.expected.subset_of(ended) {
                Emit::FlushAndEndOfStream
            } else {
                Emit::Nothing
            }
            &&& t.tallies.eos_in == s.tallies.eos_in + 1
            &&& t.pending == s.pending
            &&& t.out_seq == s.out_seq
            &&& t.tallies.eos_out == s.tallies.eos_out
        }),
{
    let call = RunCall::EndOfStream { source, run };
    assert(calls.push(call).drop_last() =~= calls);
    law_the_history_is_kept(start, calls.push(call), source);
}

/// Decodes the batches of one run.
///
/// It knows neither sockets nor clocks: times are nanoseconds since an origin of the caller's
/// choice.
pub struct RunDecoder {
    run_number: u32,
    awaiting_run: bool,
    expected_sources: Vec<u32>,
    eos_received: HashSet<u32>,
    decoder: Decoder,
    pending: Vec<Fragment>,
    pending_bytes: usize,
    batch_deadline: Option<u64>,
    batch_max_bytes: usize,
    batch_max_ns: u64,
    out_seq: u64,
    next_seq: HashMap<u32, u64>,
    batches_in: Tally,
    frames_in: u64,
    fragments_out: u64,
    batches_out: u64,
    items_out: u64,
    seq_gaps: u64,
    run_mismatches: u64,
    eos_in: u64,
    heartbeats_in: u64,
    heartbeats_out: u64,
    heartbeats_abandoned: u64,
    eos_out: u64,
    eos_abandoned: u64,
    batches_abandoned: u64,
    cobo_mismatch: u64,
    topology_frames: u64,
    errored: bool,
}

impl View for RunDecoder {
    type V = RunState;

    closed spec fn view(&self) -> RunState {
        RunState {
            run_number: self.run_number,
            awaiting_run: self.awaiting_run,
            expected: self.expected_sources@.to_set(),
            ended: self.eos_received@,
            counts: self.decoder@,
            pending: self.pending@.map_values(|f: Fragment| f@),
            deadline: self.batch_deadline,
            batch_max_bytes: self.batch_max_bytes as nat,
            batch_max_ns: self.batch_max_ns as nat,
            out_seq: self.out_seq as nat,
            next_seq: self.next_seq@,
            batches_in: self.batches_in@,
            tallies: Tallies {
                frames_in: self.frames_in as nat,
                fragments_out: self.fragments_out as nat,
                batches_out: self.batches_out as nat,
                items_out: self.items_out as nat,
                seq_gaps: self.seq_gaps as nat,
                run_mismatches: self.run_mismatches as nat,
                eos_in: self.eos_in as nat,
                heartbeats_in: self.heartbeats_in as nat,
                heartbeats_out: self.heartbeats_out as nat,
                heartbeats_abandoned: self.heartbeats_abandoned as nat,
                eos_out: self.eos_out as nat,
                eos_abandoned: self.eos_abandoned as nat,
                batches_abandoned: self.batches_abandoned as nat,
                cobo_mismatch: self.cobo_mismatch as nat,
                topology_frames: self.topology_frames as nat,
            },
            errored: self.errored,
        }
    }
}

impl RunDecoder {
    /// The pending bytes are those of the pending fragments, and the state is well formed.
    pub closed spec fn wf(&self) -> bool {
        &&& self@.wf()
        &&& self.batches_in.wf()
        &&& self.pending_bytes == item_total(self@.pending)
    }

    /// A deadline stands exactly while fragments are pending.
    pub proof fn law_a_deadline_stands_while_fragments_wait(&self)
        requires
            self.wf(),
        ensures
            self@.wf(),
            self@.deadline is Some <==> self@.pending.len() > 0,
    {
    }

    /// A decoder at the start of run `run_number`. It closes a batch at `batch_max_bytes` bytes of
    /// samples, or `batch_max_ns` nanoseconds after its first fragment.
    pub fn new(
        run_number: u32,
        expected_sources: Vec<u32>,
        batch_max_bytes: usize,
        batch_max_ns: u64,
    ) -> (decoder: Self)
        ensures
            decoder.wf(),
            decoder@ == RunState::fresh(
                run_number,
                expected_sources@.to_set(),
                batch_max_bytes as nat,
                batch_max_ns as nat,
            ),
    {
        let decoder = RunDecoder {
            run_number,
            awaiting_run: false,
            expected_sources,
            eos_received: HashSet::new(),
            decoder: Decoder::new(),
            pending: Vec::new(),
            pending_bytes: 0,
            batch_deadline: None,
            batch_max_bytes,
            batch_max_ns,
            out_seq: 0,
            next_seq: HashMap::new(),
            batches_in: Tally::new(),
            frames_in: 0,
            fragments_out: 0,
            batches_out: 0,
            items_out: 0,
            seq_gaps: 0,
            run_mismatches: 0,
            eos_in: 0,
            heartbeats_in: 0,
            heartbeats_out: 0,
            heartbeats_abandoned: 0,
            eos_out: 0,
            eos_abandoned: 0,
            batches_abandoned: 0,
            cobo_mismatch: 0,
            topology_frames: 0,
            errored: false,
        };
        assert(decoder@.pending =~= Seq::empty());
        decoder
    }

    /// Takes in one batch of raw frames, and says whether the pending batch is full.
    ///
    /// A gap in the source's numbers, a change of run and a malformed frame are counted and
    /// remembered as a fault, but nothing is dropped on their account.
    pub fn handle_batch(
        &mut self,
        source_id: u32,
        run_number: u32,
        sequence_number: u64,
        frames: &[Vec<u8>],
        now: u64,
    ) -> (emit: Emit)
        requires
            old(self).wf(),
            old(self)@.room_for_batch(source_id, sequence_number, frame_bytes(frames@), now),
        ensures
            final(self).wf(),
            final(self)@ == old(self)@.after_batch(
                source_id,
                run_number,
                sequence_number,
                frame_bytes(frames@),
                now,
            ),
            emit == final(self)@.emit_after_batch(),
    {
        self.check_run(run_number);
        let ghost checked = self@;
        let expected: u64 = match self.next_seq.get(&source_id) {
            Some(n) => *n,
            None => 0,
        };
        assert(expected == checked.expected_seq(source_id));
        if sequence_number != expected {
            self.seq_gaps = self.seq_gaps + 1;
            self.errored = true;
        }
        self.next_seq.insert(source_id, sequence_number + 1);
        let batches: u64 = self.batches_in.get(source_id as u64);
        self.batches_in.set(source_id as u64, batches + 1);
        let ghost start = self@;
        let ghost all = frame_bytes(frames@);
        let mut i: usize = 0;
        proof {
            assert(all.take(0) =~= Seq::empty());
            assert(start.pending + Seq::<FragmentView>::empty() =~= start.pending);
            assert(self@ =~= start.after_frames(source_id, all.take(0), now));
        }
        while i < frames.len()
            invariant
                i <= frames@.len(),
                all == frame_bytes(frames@),
                all.len() == frames@.len(),
                start.counts.wf(),
                start.counts.room_for(all.len(), byte_total(all)),
                item_total(start.pending) + 2 * byte_total(all) <= usize::MAX,
                start.tallies.frames_in + all.len() <= u64::MAX,
                start.tallies.cobo_mismatch + all.len() <= u64::MAX,
                start.tallies.topology_frames + all.len() <= u64::MAX,
                now + start.batch_max_ns <= u64::MAX,
                start.wf(),
                self.wf(),
                self@ == start.after_frames(source_id, all.take(i as int), now),
            decreases frames@.len() - i,
        {
            proof {
                lemma_counts_room(start.counts, all, i as int);
                lemma_frames_room(start, source_id, all, i as int, now);
                assert(all[i as int] == frames@[i as int]@);
            }
            self.take_frame(source_id, &frames[i], now);
            assert(all.take(i + 1).drop_last() =~= all.take(i as int));
            assert(all.take(i + 1).last() == all[i as int]);
            proof {
                lemma_after_frames_step(start, source_id, all.take(i + 1), now);
            }
            i = i + 1;
        }
        assert(all.take(i as int) =~= all);
        assert(self@ == old(self)@.after_batch(
            source_id,
            run_number,
            sequence_number,
            all,
            now,
        ));
        if self.pending_bytes >= self.batch_max_bytes {
            Emit::Batch
        } else {
            Emit::Nothing
        }
    }

    /// Decodes one frame and keeps its fragment.
    fn take_frame(&mut self, source_id: u32, frame: &Vec<u8>, now: u64)
        requires
            old(self).wf(),
            old(self)@.counts.room_for(1, frame@.len()),
            item_total(old(self)@.pending) + 2 * frame@.len() <= usize::MAX,
            old(self)@.tallies.frames_in < u64::MAX,
            old(self)@.tallies.cobo_mismatch < u64::MAX,
            old(self)@.tallies.topology_frames < u64::MAX,
            now + old(self)@.batch_max_ns <= u64::MAX,
        ensures
            final(self).wf(),
            final(self)@ == old(self)@.after_frame(source_id, frame@, now),
    {
        self.frames_in = self.frames_in + 1;
        let malformed_before: u64 = self.decoder.malformed();
        match self.decoder.decode(frame.as_slice()) {
            Some(fragment) => {
                if fragment.cobo as u32 != source_id {
                    self.cobo_mismatch = self.cobo_mismatch + 1;
                }
                proof {
                    decode::lemma_fragment_size(frame@);
                    let p = old(self)@.pending;
                    assert(p.push(fragment@).drop_last() =~= p);
                }
                self.pending_bytes = self.pending_bytes + fragment.items.len();
                self.pending.push(fragment);
                assert(self@.pending =~= old(self)@.pending.push(fragment@));
                if self.batch_deadline.is_none() {
                    self.batch_deadline = Some(now + self.batch_max_ns);
                }
            },
            None => {
                if self.decoder.malformed() > malformed_before {
                    self.errored = true;
                } else if parse_topology(frame.as_slice()).is_some() {
                    self.topology_frames = self.topology_frames + 1;
                }
            },
        }
        proof {
            let one = seq![frame@];
            assert(one.drop_last() =~= Seq::empty());
            reveal_with_fuel(fragments_of, 2);
            reveal_with_fuel(how_many, 2);
            reveal_with_fuel(counts_after, 2);
            assert(self@.pending =~= old(self)@.pending + fragments_of(one));
        }
    }

    /// Takes note that a source has ended its stream. Once every expected source has, the
    /// decoder is to send what is pending and end its own stream.
    pub fn handle_eos(&mut self, source_id: u32, run_number: u32) -> (emit: Emit)
        requires
            old(self).wf(),
            old(self)@.tallies.eos_in < u64::MAX,
            old(self)@.tallies.run_mismatches < u64::MAX,
        ensures
            final(self).wf(),
            final(self)@ == old(self)@.after_eos(source_id, run_number),
            emit == final(self)@.emit_after_eos(),
    {
        self.eos_in = self.eos_in + 1;
        self.check_run(run_number);
        self.eos_received.insert(source_id);
        let mut i: usize = 0;
        while i < self.expected_sources.len()
            invariant
                i <= self.expected_sources@.len(),
                self.wf(),
                self@ == old(self)@.after_eos(source_id, run_number),
                forall|k: int|
                    0 <= k < i ==> self.eos_received@.contains(
                        #[trigger] self.expected_sources@[k],
                    ),
            decreases self.expected_sources@.len() - i,
        {
            if !self.eos_received.contains(&self.expected_sources[i]) {
                assert(self@.expected.contains(self.expected_sources@[i as int]));
                return Emit::Nothing;
            }
            i = i + 1;
        }
        assert(self@.expected.subset_of(self@.ended));
        Emit::FlushAndEndOfStream
    }

    /// Counts a heartbeat of a source, and passes nothing on.
    pub fn handle_heartbeat(&mut self, source_id: u32)
        requires
            old(self).wf(),
            old(self)@.tallies.heartbeats_in < u64::MAX,
        ensures
            final(self).wf(),
            final(self)@ == old(self)@.after_heartbeat(),
    {
        let _ = source_id;
        self.heartbeats_in = self.heartbeats_in + 1;
    }

    /// Says whether the pending batch is due at `now`.
    pub fn tick(&mut self, now: u64) -> (emit: Emit)
        requires
            old(self).wf(),
        ensures
            *final(self) == *old(self),
            emit == match old(self)@.deadline {
                Some(deadline) if now >= deadline => Emit::Batch,
                _ => Emit::Nothing,
            },
    {
        match self.batch_deadline {
            Some(deadline) if now >= deadline => Emit::Batch,
            _ => Emit::Nothing,
        }
    }

    /// The fragments that wait to be sent.
    pub fn pending(&self) -> (fragments: &[Fragment])
        ensures
            fragments@.map_values(|f: Fragment| f@) == self@.pending,
    {
        self.pending.as_slice()
    }

    /// Whether fragments wait to be sent.
    pub fn has_pending(&self) -> (r: bool)
        ensures
            r == (self@.pending.len() > 0),
    {
        !self.pending.is_empty()
    }

    /// When the pending batch is due, if there is one.
    pub fn next_deadline(&self) -> (deadline: Option<u64>)
        ensures
            deadline == self@.deadline,
    {
        self.batch_deadline
    }

    /// The number of the next batch to send.
    pub fn out_sequence_number(&self) -> (n: u64)
        ensures
            n == self@.out_seq,
    {
        self.out_seq
    }

    /// The run in progress.
    pub fn run_number(&self) -> (n: u32)
        ensures
            n == self@.run_number,
    {
        self.run_number
    }

    /// Takes note that the pending batch was sent.
    pub fn batch_sent(&mut self)
        requires
            old(self).wf(),
            old(self)@.room_for_sent(),
        ensures
            final(self).wf(),
            final(self)@ == old(self)@.after_batch_sent(),
    {
        self.batches_out = self.batches_out + 1;
        self.fragments_out = self.fragments_out + self.pending.len() as u64;
        self.items_out = self.items_out + (self.pending_bytes / 4) as u64;
        self.out_seq = self.out_seq + 1;
        self.clear_pending();
    }

    /// Takes note that the pending batch was given up: it is counted, and its number is not used
    /// again, so that the loss shows as a gap.
    pub fn batch_abandoned(&mut self)
        requires
            old(self).wf(),
            old(self)@.tallies.batches_abandoned < u64::MAX,
            old(self)@.out_seq < u64::MAX,
        ensures
            final(self).wf(),
            final(self)@ == old(self)@.after_batch_abandoned(),
    {
        self.batches_abandoned = self.batches_abandoned + 1;
        self.out_seq = self.out_seq + 1;
        self.clear_pending();
    }

    /// Takes note that the decoder's own end of stream was sent, and gets ready for the next run.
    pub fn eos_sent(&mut self)
        requires
            old(self).wf(),
            old(self)@.tallies.eos_out < u64::MAX,
        ensures
            final(self).wf(),
            final(self)@ == old(self)@.after_eos_sent(),
    {
        self.eos_out = self.eos_out + 1;
        self.rearm();
    }

    /// Takes note that the decoder's own end of stream was given up, and gets ready for the next
    /// run.
    pub fn eos_abandoned(&mut self)
        requires
            old(self).wf(),
            old(self)@.tallies.eos_abandoned < u64::MAX,
        ensures
            final(self).wf(),
            final(self)@ == old(self)@.after_eos_abandoned(),
    {
        self.eos_abandoned = self.eos_abandoned + 1;
        self.rearm();
    }

    /// Takes note that a heartbeat was sent.
    pub fn heartbeat_sent(&mut self)
        requires
            old(self).wf(),
            old(self)@.tallies.heartbeats_out < u64::MAX,
        ensures
            final(self).wf(),
            final(self)@ == old(self)@.after_heartbeat_sent(),
    {
        self.heartbeats_out = self.heartbeats_out + 1;
    }

    /// Takes note that a heartbeat was given up.
    pub fn heartbeat_abandoned(&mut self)
        requires
            old(self).wf(),
            old(self)@.tallies.heartbeats_abandoned < u64::MAX,
        ensures
            final(self).wf(),
            final(self)@ == old(self)@.after_heartbeat_abandoned(),
    {
        self.heartbeats_abandoned = self.heartbeats_abandoned + 1;
    }

    /// Whether a fault was ever seen.
    pub fn errored(&self) -> (r: bool)
        ensures
            r == self@.errored,
    {
        self.errored
    }

    /// Frames that came in.
    pub fn frames_in(&self) -> (n: u64)
        ensures
            n == self@.tallies.frames_in,
    {
        self.frames_in
    }

    /// Batches that came in from a source.
    pub fn batches_in_for(&self, source_id: u32) -> (n: u64)
        requires
            self.wf(),
        ensures
            n == tally::count_in(self@.batches_in, source_id as u64),
    {
        self.batches_in.get(source_id as u64)
    }

    /// Fragments that were sent.
    pub fn fragments_out(&self) -> (n: u64)
        ensures
            n == self@.tallies.fragments_out,
    {
        self.fragments_out
    }

    /// Batches that were sent.
    pub fn batches_out(&self) -> (n: u64)
        ensures
            n == self@.tallies.batches_out,
    {
        self.batches_out
    }

    /// Samples that were sent.
    pub fn items_out(&self) -> (n: u64)
        ensures
            n == self@.tallies.items_out,
    {
        self.items_out
    }

    /// Control frames that came in.
    pub fn unsupported(&self) -> (n: u64)
        ensures
            n == self@.counts.unsupported,
    {
        self.decoder.unsupported()
    }

    /// Topology frames that came in.
    pub fn topology_frames(&self) -> (n: u64)
        ensures
            n == self@.tallies.topology_frames,
    {
        self.topology_frames
    }

    /// Malformed frames that came in.
    pub fn malformed(&self) -> (n: u64)
        ensures
            n == self@.counts.malformed,
    {
        self.decoder.malformed()
    }

    /// Gaps in the sources' numbers.
    pub fn seq_gaps(&self) -> (n: u64)
        ensures
            n == self@.tallies.seq_gaps,
    {
        self.seq_gaps
    }

    /// Messages of another run than the one in progress.
    pub fn run_mismatches(&self) -> (n: u64)
        ensures
            n == self@.tallies.run_mismatches,
    {
        self.run_mismatches
    }

    /// Ends of stream that came in.
    pub fn eos_in(&self) -> (n: u64)
        ensures
            n == self@.tallies.eos_in,
    {
        self.eos_in
    }

    /// The decoder's own ends of stream that were sent.
    pub fn eos_out(&self) -> (n: u64)
        ensures
            n == self@.tallies.eos_out,
    {
        self.eos_out
    }

    /// Batches that were given up.
    pub fn batches_abandoned(&self) -> (n: u64)
        ensures
            n == self@.tallies.batches_abandoned,
    {
        self.batches_abandoned
    }

    /// Heartbeats that were sent.
    pub fn heartbeats_out(&self) -> (n: u64)
        ensures
            n == self@.tallies.heartbeats_out,
    {
        self.heartbeats_out
    }

    /// Heartbeats that were given up.
    pub fn heartbeats_abandoned(&self) -> (n: u64)
        ensures
            n == self@.tallies.heartbeats_abandoned,
    {
        self.heartbeats_abandoned
    }

    /// Data frames of another CoBo than their batch's source.
    pub fn cobo_mismatch(&self) -> (n: u64)
        ensures
            n == self@.tallies.cobo_mismatch,
    {
        self.cobo_mismatch
    }

    /// The decoder's report.
    pub fn metrics_json(&self) -> (m: Metrics)
        requires
            self.wf(),
        ensures
            m@ == self@.report(),
    {
        let mut m: Metrics = Metrics::new();
        m.put_u64("run_number", self.run_number as u64);
        m.put("batches_in", Metric::Tally(self.batches_in.list()));
        m.put_u64("frames_in", self.frames_in);
        m.put_u64("fragments_out", self.fragments_out);
        m.put_u64("batches_out", self.batches_out);
        m.put_u64("items_out", self.items_out);
        m.put_u64("unsupported", self.decoder.unsupported());
        m.put_u64("topology_frames", self.topology_frames);
        m.put_u64("malformed", self.decoder.malformed());
        m.put_u64("seq_gaps", self.seq_gaps);
        m.put_u64("run_mismatches", self.run_mismatches);
        m.put_u64("eos_in", self.eos_in);
        m.put_u64("heartbeats_in", self.heartbeats_in);
        m.put_u64("heartbeats_out", self.heartbeats_out);
        m.put_u64("heartbeats_abandoned", self.heartbeats_abandoned);
        m.put_u64("eos_out", self.eos_out);
        m.put_u64("eos_abandoned", self.eos_abandoned);
        m.put_u64("batches_abandoned", self.batches_abandoned);
        m.put_u64("cobo_mismatch", self.cobo_mismatch);
        assert(m@ =~= self@.report());
        m
    }

    /// Whether the counters have room for a batch, and its close can be timed.
    pub fn can_take_batch(
        &self,
        source_id: u32,
        sequence_number: u64,
        frames: &[Vec<u8>],
        now: u64,
    ) -> (r: bool)
        requires
            self.wf(),
        ensures
            r == self@.room_for_batch(source_id, sequence_number, frame_bytes(frames@), now),
    {
        let ghost all = frame_bytes(frames@);
        let mut total: u64 = 0;
        let mut i: usize = 0;
        assert(all.take(0) =~= Seq::empty());
        while i < frames.len()
            invariant
                i <= frames@.len(),
                all == frame_bytes(frames@),
                total == byte_total(all.take(i as int)),
            decreases frames@.len() - i,
        {
            proof {
                assert(all.take(i + 1).drop_last() =~= all.take(i as int));
                lemma_byte_total_take(all, i + 1);
            }
            match total.checked_add(frames[i].len() as u64) {
                Some(sum) => {
                    total = sum;
                },
                None => {
                    assert(byte_total(all) > u64::MAX);
                    return false;
                },
            }
            i = i + 1;
        }
        assert(all.take(i as int) =~= all);
        let n: u64 = frames.len() as u64;
        sequence_number < u64::MAX && now.checked_add(self.batch_max_ns).is_some()
            && self.decoder.frames().checked_add(n).is_some() && self.decoder.items().checked_add(
            total,
        ).is_some() && self.decoder.malformed().checked_add(n).is_some()
            && self.decoder.unsupported().checked_add(n).is_some() && self.pending_bytes as u128
            + 2 * total as u128 <= usize::MAX as u128 && self.batches_in.get(source_id as u64)
            < u64::MAX && self.frames_in.checked_add(n).is_some()
            && self.cobo_mismatch.checked_add(n).is_some() && self.topology_frames.checked_add(
            n,
        ).is_some() && self.seq_gaps < u64::MAX && self.run_mismatches < u64::MAX
    }

    /// Whether the counters have room for any other message, and for whatever is sent next.
    pub fn can_count(&self) -> (r: bool)
        requires
            self.wf(),
        ensures
            r == self@.room_for_step(),
    {
        self.out_seq < u64::MAX && self.batches_out < u64::MAX && self.fragments_out.checked_add(
            self.pending.len() as u64,
        ).is_some() && self.items_out.checked_add((self.pending_bytes / 4) as u64).is_some()
            && self.run_mismatches < u64::MAX && self.eos_in < u64::MAX && self.heartbeats_in
            < u64::MAX && self.heartbeats_out < u64::MAX && self.heartbeats_abandoned < u64::MAX
            && self.eos_out < u64::MAX && self.eos_abandoned < u64::MAX && self.batches_abandoned
            < u64::MAX
    }

    /// Checks a message's run number against the run in progress.
    fn check_run(&mut self, run_number: u32)
        requires
            old(self).wf(),
            old(self)@.tallies.run_mismatches < u64::MAX,
        ensures
            final(self).wf(),
            final(self)@ == old(self)@.checked(run_number),
    {
        if self.awaiting_run {
            self.awaiting_run = false;
            self.run_number = run_number;
            return ;
        }
        if run_number != self.run_number {
            self.run_mismatches = self.run_mismatches + 1;
            self.errored = true;
        }
    }

    fn clear_pending(&mut self)
        requires
            old(self).wf(),
        ensures
            final(self).wf(),
            final(self)@ == old(self)@.cleared(),
    {
        self.pending.clear();
        self.pending_bytes = 0;
        self.batch_deadline = None;
        assert(self@.pending =~= Seq::empty());
    }

    fn rearm(&mut self)
        requires
            old(self).wf(),
        ensures
            final(self).wf(),
            final(self)@ == old(self)@.rearmed(),
    {
        self.eos_received.clear();
        self.next_seq.clear();
        self.out_seq = 0;
        self.awaiting_run = true;
        self.clear_pending();
    }
}

impl RunState {
    /// What the decoder reports.
    pub open spec fn report(self) -> Seq<(Seq<char>, MetricView)> {
        seq![
            ("run_number"@, MetricView::Uint(self.run_number as u64)),
            ("batches_in"@, MetricView::Tally(tally::listing(self.batches_in))),
            ("frames_in"@, MetricView::Uint(self.tallies.frames_in as u64)),
            ("fragments_out"@, MetricView::Uint(self.tallies.fragments_out as u64)),
            ("batches_out"@, MetricView::Uint(self.tallies.batches_out as u64)),
            ("items_out"@, MetricView::Uint(self.tallies.items_out as u64)),
            ("unsupported"@, MetricView::Uint(self.counts.unsupported as u64)),
            ("topology_frames"@, MetricView::Uint(self.tallies.topology_frames as u64)),
            ("malformed"@, MetricView::Uint(self.counts.malformed as u64)),
            ("seq_gaps"@, MetricView::Uint(self.tallies.seq_gaps as u64)),
            ("run_mismatches"@, MetricView::Uint(self.tallies.run_mismatches as u64)),
            ("eos_in"@, MetricView::Uint(self.tallies.eos_in as u64)),
            ("heartbeats_in"@, MetricView::Uint(self.tallies.heartbeats_in as u64)),
            ("heartbeats_out"@, MetricView::Uint(self.tallies.heartbeats_out as u64)),
            ("heartbeats_abandoned"@, MetricView::Uint(self.tallies.heartbeats_abandoned as u64)),
            ("eos_out"@, MetricView::Uint(self.tallies.eos_out as u64)),
            ("eos_abandoned"@, MetricView::Uint(self.tallies.eos_abandoned as u64)),
            ("batches_abandoned"@, MetricView::Uint(self.tallies.batches_abandoned as u64)),
            ("cobo_mismatch"@, MetricView::Uint(self.tallies.cobo_mismatch as u64)),
        ]
    }

    /// Whether the counters have room for any message but a batch, and for whatever is sent next.
    pub open spec fn room_for_step(self) -> bool {
        &&& self.room_for_sent()
        &&& self.tallies.run_mismatches < u64::MAX
        &&& self.tallies.eos_in < u64::MAX
        &&& self.tallies.heartbeats_in < u64::MAX
        &&& self.tallies.heartbeats_out < u64::MAX
        &&& self.tallies.heartbeats_abandoned < u64::MAX
        &&& self.tallies.eos_out < u64::MAX
        &&& self.tallies.eos_abandoned < u64::MAX
        &&& self.tallies.batches_abandoned < u64::MAX
    }

    /// Whether the counters have room for a batch that is sent.
    pub open spec fn room_for_sent(self) -> bool {
        &&& self.out_seq < u64::MAX
        &&& self.tallies.batches_out < u64::MAX
        &&& self.tallies.fragments_out + self.pending.len() <= u64::MAX
        &&& self.tallies.items_out + item_total(self.pending) / 4 <= u64::MAX
    }

    /// The state once one frame is taken in.
    spec fn after_frame(self, source: u32, frame: Seq<u8>, now: u64) -> RunState {
        self.after_frames(source, seq![frame], now)
    }

    /// The state once `frames` are taken in.
    spec fn after_frames(self, source: u32, frames: Seq<Seq<u8>>, now: u64) -> RunState {
        let found = fragments_of(frames);
        RunState {
            counts: counts_after(self.counts, frames),
            pending: self.pending + found,
            deadline: if self.deadline is None && found.len() > 0 {
                Some((now + self.batch_max_ns) as u64)
            } else {
                self.deadline
            },
            errored: self.errored || how_many(frames, is_malformed()) > 0,
            tallies: Tallies {
                frames_in: self.tallies.frames_in + frames.len(),
                cobo_mismatch: self.tallies.cobo_mismatch + how_many(frames, is_foreign(source)),
                topology_frames: self.tallies.topology_frames + how_many(frames, tells_topology()),
                ..self.tallies
            },
            ..self
        }
    }
}

proof fn lemma_frames_room(
    start: RunState,
    source: u32,
    all: Seq<Seq<u8>>,
    k: int,
    now: u64,
)
    requires
        0 <= k < all.len(),
        item_total(start.pending) + 2 * byte_total(all) <= usize::MAX,
        start.tallies.frames_in + all.len() <= u64::MAX,
        start.tallies.cobo_mismatch + all.len() <= u64::MAX,
        start.tallies.topology_frames + all.len() <= u64::MAX,
    ensures
        ({
            let s = start.after_frames(source, all.take(k), now);
            &&& item_total(s.pending) + 2 * all[k].len() <= usize::MAX
            &&& s.tallies.frames_in < u64::MAX
            &&& s.tallies.cobo_mismatch < u64::MAX
            &&& s.tallies.topology_frames < u64::MAX
        }),
{
    let some = all.take(k);
    lemma_item_total_add(start.pending, fragments_of(some));
    lemma_fragments_fit(some);
    lemma_byte_total_take(all, k + 1);
    assert(all.take(k + 1).drop_last() =~= some);
    lemma_how_many_bound(some, is_foreign(source));
    lemma_how_many_bound(some, tells_topology());
}

proof fn lemma_after_frames_step(start: RunState, source: u32, frames: Seq<Seq<u8>>, now: u64)
    requires
        frames.len() > 0,
    ensures
        start.after_frames(source, frames, now) == start.after_frames(
            source,
            frames.drop_last(),
            now,
        ).after_frame(source, frames.last(), now),
{
    let one = seq![frames.last()];
    assert(one.drop_last() =~= Seq::empty());
    let a = start.after_frames(source, frames, now);
    let b = start.after_frames(source, frames.drop_last(), now).after_frame(
        source,
        frames.last(),
        now,
    );
    reveal_with_fuel(fragments_of, 2);
    reveal_with_fuel(how_many, 2);
    reveal_with_fuel(counts_after, 2);
    assert(a.pending =~= b.pending);
}

// ---------------------------------------------------------------------
// The decoder thread
// ---------------------------------------------------------------------

/// How long to wait for input: until the pending batch is due, rounded up to whole milliseconds,
/// and no longer than [`POLL_TIMEOUT_MS`].
pub open spec fn poll_wait(deadline: Option<u64>, now: u64) -> int {
    match deadline {
        None => POLL_TIMEOUT_MS as int,
        Some(deadline) => {
            let left = if deadline > now {
                deadline - now
            } else {
                0
            };
            let ms = (left + NANOS_PER_MS - 1) / NANOS_PER_MS as int;
            if ms < POLL_TIMEOUT_MS {
                ms
            } else {
                POLL_TIMEOUT_MS as int
            }
        },
    }
}

/// How long to wait for input, in milliseconds.
pub fn poll_wait_ms(deadline: Option<u64>, now: u64) -> (ms: u64)
    ensures
        ms == poll_wait(deadline, now),
{
    match deadline {
        None => POLL_TIMEOUT_MS,
        Some(deadline) => {
            let left: u64 = deadline.saturating_sub(now);
            let whole: u64 = left / NANOS_PER_MS;
            let ms: u64 = if left % NANOS_PER_MS == 0 {
                whole
            } else {
                whole + 1
            };
            if ms < POLL_TIMEOUT_MS {
                ms
            } else {
                POLL_TIMEOUT_MS
            }
        },
    }
}

/// Waiting as long as [`poll_wait`] says, where that is less than the longest wait, is long
/// enough for the pending batch to be due, and never a whole millisecond too long.
pub proof fn law_the_wait_ends_at_the_deadline(deadline: u64, now: u64)
    requires
        poll_wait(Some(deadline), now) < POLL_TIMEOUT_MS,
        deadline >= now,
    ensures
        now + poll_wait(Some(deadline), now) * NANOS_PER_MS >= deadline,
        now + poll_wait(Some(deadline), now) * NANOS_PER_MS < deadline + NANOS_PER_MS,
{
}

/// What a socket says to a send.
#[derive(Debug, Clone, Copy, PartialEq, Eq, Structural)]
pub enum SendReply {
    /// The message is on its way.
    Accepted,
    /// The receiving side is full, or absent.
    Full,
    /// The context is closing down.
    Closing,
    /// Something else went wrong.
    Broken,
}

/// What became of a message.
#[derive(Debug, Clone, Copy, PartialEq, Eq, Structural)]
pub enum SendOutcome {
    Sent,
    /// It was given up.
    Abandoned,
}

/// What becomes of a message at a socket's reply, or `None` where it is sent again: while the
/// receiving side is full, unless a reset asks to give up.
pub open spec fn outcome_of(reply: SendReply, give_up: bool) -> Option<SendOutcome> {
    match reply {
        SendReply::Accepted => Some(SendOutcome::Sent),
        SendReply::Full => if give_up {
            Some(SendOutcome::Abandoned)
        } else {
            None
        },
        _ => Some(SendOutcome::Abandoned),
    }
}

/// What becomes of a message at a socket's reply, or `None` where it is to be sent again.
pub fn send_lossless(reply: SendReply, give_up: bool) -> (outcome: Option<SendOutcome>)
    ensures
        outcome == outcome_of(reply, give_up),
{
    match reply {
        SendReply::Accepted => Some(SendOutcome::Sent),
        SendReply::Full => if give_up {
            Some(SendOutcome::Abandoned)
        } else {
            None
        },
        _ => Some(SendOutcome::Abandoned),
    }
}

/// A full receiving side never costs a message unless a reset asks for it.
pub proof fn law_backpressure_loses_nothing(reply: SendReply, give_up: bool)
    requires
        reply == SendReply::Accepted || reply == SendReply::Full,
        outcome_of(reply, give_up) == Some(SendOutcome::Abandoned),
    ensures
        give_up,
{
}

/// What the decoder thread received.
#[derive(Debug)]
pub enum Received {
    /// Nothing in the time it waited.
    Nothing,
    /// A message that cannot be read, which is skipped.
    Unreadable,
    /// Raw frames.
    Data(Batch),
    /// The end of a source's stream.
    EndOfStream { source_id: u32, run_number: u32 },
    /// A sign of life.
    Heartbeat { source_id: u32 },
    /// A command to stop.
    Stop,
}

/// What the decoder thread does next.
#[derive(Debug, Clone, Copy, PartialEq, Eq, Structural)]
pub enum Action {
    /// Wait for input.
    Poll { wait_ms: u64 },
    /// Send the pending fragments.
    SendBatch,
    /// Send the end of the stream.
    SendEndOfStream,
    /// Send a sign of life.
    SendHeartbeat { counter: u64 },
    /// End.
    Finish,
}

/// Where the decoder thread stands.
#[derive(Debug, Clone, Copy, PartialEq, Eq, Structural)]
pub enum Phase {
    Polling,
    /// A batch goes out, and the end of the stream behind it where `end` is set.
    SendingBatch { end: bool },
    SendingEndOfStream,
    SendingHeartbeat,
    /// What is left goes out before the thread ends.
    SendingLast,
    Finished,
}

/// The value of a [`DecoderLoop`].
pub struct LoopState {
    pub core: RunState,
    pub phase: Phase,
    pub last_send: u64,
    pub heartbeats: u64,
    pub heartbeat_ns: u64,
}

impl LoopState {
    /// The core once `received` is taken in, with what it then asks to send.
    pub open spec fn taken(self, received: Received, now: u64) -> (RunState, Emit) {
        match received {
            Received::Data(b) => {
                let core = self.core.after_batch(
                    b.source_id,
                    b.run_number,
                    b.sequence_number,
                    frame_bytes(b.payload@),
                    now,
                );
                (core, core.emit_after_batch())
            },
            Received::EndOfStream { source_id, run_number } => {
                let core = self.core.after_eos(source_id, run_number);
                (
                    core,
                    if core.expected.subset_of(core.ended) {
                        Emit::FlushAndEndOfStream
                    } else {
                        Emit::Nothing
                    },
                )
            },
            Received::Heartbeat { .. } => (
                RunState {
                    tallies: Tallies {
                        heartbeats_in: self.core.tallies.heartbeats_in + 1,
                        ..self.core.tallies
                    },
                    ..self.core
                },
                Emit::Nothing,
            ),
            _ => (self.core, Emit::Nothing),
        }
    }

    /// Where the thread goes when there is nothing left to send: a sign of life is due where
    /// nothing is pending and nothing was sent for the interval.
    pub open spec fn settled(self, now: u64) -> LoopState {
        let idle = if now > self.last_send {
            now - self.last_send
        } else {
            0
        };
        LoopState {
            phase: if idle >= self.heartbeat_ns && self.core.pending.len() == 0 {
                Phase::SendingHeartbeat
            } else {
                Phase::Polling
            },
            ..self
        }
    }

    /// The thread once `received` is taken in.
    pub open spec fn after_received(self, received: Received, now: u64) -> LoopState {
        if received is Stop {
            LoopState {
                phase: if self.core.pending.len() > 0 {
                    Phase::SendingLast
                } else {
                    Phase::Finished
                },
                ..self
            }
        } else {
            let (core, asked) = self.taken(received, now);
            let due = core.deadline is Some && now >= core.deadline->0;
            let emit = if asked == Emit::Nothing && due {
                Emit::Batch
            } else {
                asked
            };
            let next = LoopState { core, ..self };
            match emit {
                Emit::Nothing => next.settled(now),
                Emit::Batch => if core.pending.len() > 0 {
                    LoopState { phase: Phase::SendingBatch { end: false }, ..next }
                } else {
                    LoopState { last_send: now, ..next }.settled(now)
                },
                Emit::FlushAndEndOfStream => if core.pending.len() > 0 {
                    LoopState { phase: Phase::SendingBatch { end: true }, ..next }
                } else {
                    LoopState { phase: Phase::SendingEndOfStream, ..next }
                },
            }
        }
    }

    /// The core once a batch was sent or given up.
    pub open spec fn core_after_batch(self, outcome: SendOutcome) -> RunState {
        match outcome {
            SendOutcome::Sent => self.core.after_batch_sent(),
            SendOutcome::Abandoned => self.core.after_batch_abandoned(),
        }
    }

    /// The thread once what it was sending was sent or given up.
    pub open spec fn after_sent(self, outcome: SendOutcome, now: u64) -> LoopState {
        match self.phase {
            Phase::SendingBatch { end } => {
                let next = LoopState { core: self.core_after_batch(outcome), ..self };
                if end {
                    LoopState { phase: Phase::SendingEndOfStream, ..next }
                } else {
                    LoopState { last_send: now, ..next }.settled(now)
                }
            },
            Phase::SendingEndOfStream => LoopState {
                core: match outcome {
                    SendOutcome::Sent => self.core.after_eos_sent(),
                    SendOutcome::Abandoned => self.core.after_eos_abandoned(),
                },
                last_send: now,
                ..self
            }.settled(now),
            Phase::SendingHeartbeat => LoopState {
                core: RunState {
                    tallies: match outcome {
                        SendOutcome::Sent => Tallies {
                            heartbeats_out: self.core.tallies.heartbeats_out + 1,
                            ..self.core.tallies
                        },
                        SendOutcome::Abandoned => Tallies {
                            heartbeats_abandoned: self.core.tallies.heartbeats_abandoned + 1,
                            ..self.core.tallies
                        },
                    },
                    ..self.core
                },
                heartbeats: (self.heartbeats + 1) as u64,
                last_send: now,
                phase: Phase::Polling,
                ..self
            },
            Phase::SendingLast => LoopState {
                core: self.core_after_batch(outcome),
                phase: Phase::Finished,
                ..self
            },
            _ => self,
        }
    }

    /// The action that the phase calls for.
    pub open spec fn action(self, now: u64) -> Action {
        match self.phase {
            Phase::Polling => Action::Poll {
                wait_ms: poll_wait(self.core.deadline, now) as u64,
            },
            Phase::SendingBatch { .. } => Action::SendBatch,
            Phase::SendingEndOfStream => Action::SendEndOfStream,
            Phase::SendingHeartbeat => Action::SendHeartbeat { counter: self.heartbeats },
            Phase::SendingLast => Action::SendBatch,
            Phase::Finished => Action::Finish,
        }
    }

    /// A batch goes out only while fragments are pending.
    pub open spec fn wf(self) -> bool {
        &&& self.core.wf()
        &&& (self.phase is SendingBatch || self.phase is SendingLast) ==> self.core.pending.len()
            > 0
    }

    /// Whether the counters have room for `received`.
    pub open spec fn room_for(self, received: Received, now: u64) -> bool {
        match received {
            Received::Data(b) => self.core.room_for_batch(
                b.source_id,
                b.sequence_number,
                frame_bytes(b.payload@),
                now,
            ),
            Received::EndOfStream { .. } => self.core.tallies.eos_in < u64::MAX
                && self.core.tallies.run_mismatches < u64::MAX,
            Received::Heartbeat { .. } => self.core.tallies.heartbeats_in < u64::MAX,
            _ => true,
        }
    }
}

/// A stop loses nothing: while fragments are pending, they are sent before the thread ends.
pub proof fn law_stop_flushes_what_is_pending(s: LoopState, now: u64)
    requires
        s.core.pending.len() > 0,
    ensures
        s.after_received(Received::Stop, now).action(now) == Action::SendBatch,
        s.after_received(Received::Stop, now).core == s.core,
{
}

/// The end of the stream goes out only behind everything that came in before it: when it is
/// sent, nothing is pending, and every expected source has ended.
pub proof fn law_end_of_stream_follows_all_data(
    s: LoopState,
    received: Received,
    outcome: SendOutcome,
    now: u64,
    later: u64,
)
    requires
        s.phase == Phase::Polling,
    ensures
        ({
            let one = s.after_received(received, now);
            let two = one.after_sent(outcome, later);
            &&& one.action(now) == Action::SendEndOfStream ==> one.core.pending.len() == 0
                && one.core.expected.subset_of(one.core.ended)
            &&& one.phase is SendingBatch && two.action(later) == Action::SendEndOfStream
                ==> two.core.pending.len() == 0 && two.core.expected.subset_of(two.core.ended)
        }),
{
}

/// What happens to a decoder thread whose messages all get through.
pub enum ThreadEvent {
    /// Something came in, at this time.
    In(Received, u64),
    /// What was to be sent was sent, at this time.
    Out(u64),
}

/// A message that a decoder thread sends.
pub enum Message {
    Fragments(Seq<FragmentView>),
    EndOfStream,
    Heartbeat,
}

impl LoopState {
    /// The message that the phase sends.
    pub open spec fn message(self) -> Message {
        match self.phase {
            Phase::SendingEndOfStream => Message::EndOfStream,
            Phase::SendingHeartbeat => Message::Heartbeat,
            _ => Message::Fragments(self.core.pending),
        }
    }

    /// The thread once `event` has happened.
    pub open spec fn after(self, event: ThreadEvent) -> LoopState {
        match event {
            ThreadEvent::In(received, now) => self.after_received(received, now),
            ThreadEvent::Out(now) => self.after_sent(SendOutcome::Sent, now),
        }
    }

    /// Whether `event` can happen now: something comes in where the thread waits for it, and
    /// something is sent where it sends.
    pub open spec fn meets(self, event: ThreadEvent) -> bool {
        match event {
            ThreadEvent::In(received, now) => self.phase == Phase::Polling && self.room_for(
                received,
                now,
            ),
            ThreadEvent::Out(_) => self.phase != Phase::Polling && self.phase != Phase::Finished,
        }
    }

    /// The thread once all events have happened.
    pub open spec fn after_all(self, events: Seq<ThreadEvent>) -> LoopState
        decreases events.len(),
    {
        if events.len() == 0 {
            self
        } else {
            self.after_all(events.drop_last()).after(events.last())
        }
    }

    /// Whether the events can happen one after the other.
    pub open spec fn meets_all(self, events: Seq<ThreadEvent>) -> bool
        decreases events.len(),
    {
        events.len() > 0 ==> self.meets_all(events.drop_last()) && self.after_all(
            events.drop_last(),
        ).meets(events.last())
    }

    /// The messages that are sent while the events happen.
    pub open spec fn sent_while(self, events: Seq<ThreadEvent>) -> Seq<Message>
        decreases events.len(),
    {
        if events.len() == 0 {
            Seq::empty()
        } else {
            let before = self.sent_while(events.drop_last());
            if events.last() is Out {
                before.push(self.after_all(events.drop_last()).message())
            } else {
                before
            }
        }
    }
}

/// The fragments in messages, in their order.
pub open spec fn fragments_in(messages: Seq<Message>) -> Seq<FragmentView>
    decreases messages.len(),
{
    if messages.len() == 0 {
        Seq::empty()
    } else {
        fragments_in(messages.drop_last()) + match messages.last() {
            Message::Fragments(f) => f,
            _ => Seq::empty(),
        }
    }
}

/// The fragments of all data frames that come in while the events happen, in their order.
pub open spec fn decoded_in(events: Seq<ThreadEvent>) -> Seq<FragmentView>
    decreases events.len(),
{
    if events.len() == 0 {
        Seq::empty()
    } else {
        decoded_in(events.drop_last()) + match events.last() {
            ThreadEvent::In(Received::Data(b), _) => fragments_of(frame_bytes(b.payload@)),
            _ => Seq::empty(),
        }
    }
}

/// Every data frame that comes in is sent on exactly once, decoded and in order: at every moment,
/// the fragments sent so far, followed by those that are pending, are those of the frames that
/// came in. While the end of the stream is sent, and once the thread has ended, none is pending.
pub proof fn law_every_fragment_is_sent_once(s: LoopState, events: Seq<ThreadEvent>)
    requires
        s.wf(),
        s.phase == Phase::Polling,
        s.core.pending.len() == 0,
        s.meets_all(events),
    ensures
        ({
            let t = s.after_all(events);
            &&& fragments_in(s.sent_while(events)) + t.core.pending == decoded_in(events)
            &&& t.phase == Phase::SendingEndOfStream || t.phase == Phase::Finished || t.phase
                == Phase::SendingHeartbeat ==> t.core.pending.len() == 0
            &&& t.wf()
        }),
    decreases events.len(),
{
    let t = s.after_all(events);
    if events.len() == 0 {
        assert(fragments_in(s.sent_while(events)) + t.core.pending =~= decoded_in(events));
    } else {
        let before = events.drop_last();
        let u = s.after_all(before);
        law_every_fragment_is_sent_once(s, before);
        let sent = s.sent_while(before);
        match events.last() {
            ThreadEvent::In(received, now) => {
                if let Received::Data(b) = received {
                    lemma_counts_grow(u.core.counts, frame_bytes(b.payload@));
                }
                assert(s.sent_while(events) == sent);
                assert(fragments_in(sent) + t.core.pending =~= decoded_in(events));
            },
            ThreadEvent::Out(now) => {
                assert(s.sent_while(events) == sent.push(u.message()));
                assert(sent.push(u.message()).drop_last() =~= sent);
                assert(fragments_in(s.sent_while(events)) + t.core.pending =~= decoded_in(events));
            },
        }
    }
}

/// What the decoder thread does, step by step.
pub struct DecoderLoop {
    core: RunDecoder,
    phase: Phase,
    last_send: u64,
    heartbeats: u64,
    heartbeat_ns: u64,
}

impl View for DecoderLoop {
    type V = LoopState;

    closed spec fn view(&self) -> LoopState {
        LoopState {
            core: self.core@,
            phase: self.phase,
            last_send: self.last_send,
            heartbeats: self.heartbeats,
            heartbeat_ns: self.heartbeat_ns,
        }
    }
}

impl DecoderLoop {
    /// The decoder and the phase are well formed.
    pub closed spec fn wf(&self) -> bool {
        self.core.wf() && self@.wf()
    }

    /// A thread that has just started.
    pub fn new(core: RunDecoder, heartbeat_ns: u64, now: u64) -> (r: Self)
        requires
            core.wf(),
        ensures
            r.wf(),
            r@ == (LoopState {
                core: core@,
                phase: Phase::Polling,
                last_send: now,
                heartbeats: 0,
                heartbeat_ns,
            }),
    {
        DecoderLoop { core, phase: Phase::Polling, last_send: now, heartbeats: 0, heartbeat_ns }
    }

    /// The decoder.
    pub fn decoder(&self) -> (decoder: &RunDecoder)
        requires
            self.wf(),
        ensures
            decoder.wf(),
            decoder@ == self@.core,
    {
        &self.core
    }

    /// What to do next.
    pub fn action(&self, now: u64) -> (action: Action)
        requires
            self.wf(),
        ensures
            action == self@.action(now),
    {
        match self.phase {
            Phase::Polling => Action::Poll { wait_ms: poll_wait_ms(self.core.next_deadline(), now) },
            Phase::SendingBatch { .. } => Action::SendBatch,
            Phase::SendingEndOfStream => Action::SendEndOfStream,
            Phase::SendingHeartbeat => Action::SendHeartbeat { counter: self.heartbeats },
            Phase::SendingLast => Action::SendBatch,
            Phase::Finished => Action::Finish,
        }
    }

    /// Whether the counters have room for `received`.
    pub fn can_take(&self, received: &Received, now: u64) -> (r: bool)
        requires
            self.wf(),
        ensures
            r ==> self@.room_for(*received, now),
            !r && received !is Data ==> !self@.core.room_for_step(),
            received is Data ==> r == self@.room_for(*received, now),
    {
        match received {
            Received::Data(b) => self.core.can_take_batch(
                b.source_id,
                b.sequence_number,
                b.payload.as_slice(),
                now,
            ),
            _ => self.core.can_count(),
        }
    }

    /// Takes in what came in while waiting.
    pub fn received(&mut self, received: Received, now: u64)
        requires
            old(self).wf(),
            old(self)@.phase == Phase::Polling,
            old(self)@.room_for(received, now),
        ensures
            final(self).wf(),
            final(self)@ == old(self)@.after_received(received, now),
    {
        let asked: Emit = match received {
            Received::Stop => {
                self.phase = if self.core.has_pending() {
                    Phase::SendingLast
                } else {
                    Phase::Finished
                };
                return ;
            },
            Received::Data(b) => self.core.handle_batch(
                b.source_id,
                b.run_number,
                b.sequence_number,
                b.payload.as_slice(),
                now,
            ),
            Received::EndOfStream { source_id, run_number } => self.core.handle_eos(
                source_id,
                run_number,
            ),
            Received::Heartbeat { source_id } => {
                self.core.handle_heartbeat(source_id);
                Emit::Nothing
            },
            _ => Emit::Nothing,
        };
        let emit: Emit = match asked {
            Emit::Nothing => self.core.tick(now),
            other => other,
        };
        match emit {
            Emit::Nothing => {
                self.settle(now);
            },
            Emit::Batch => {
                if self.core.has_pending() {
                    self.phase = Phase::SendingBatch { end: false };
                } else {
                    self.last_send = now;
                    self.settle(now);
                }
            },
            Emit::FlushAndEndOfStream => {
                self.phase = if self.core.has_pending() {
                    Phase::SendingBatch { end: true }
                } else {
                    Phase::SendingEndOfStream
                };
            },
        }
    }

    /// Takes note of what became of a message.
    pub fn sent(&mut self, outcome: SendOutcome, now: u64)
        requires
            old(self).wf(),
            old(self)@.core.room_for_step(),
            old(self)@.heartbeats < u64::MAX,
        ensures
            final(self).wf(),
            final(self)@ == old(self)@.after_sent(outcome, now),
    {
        match self.phase {
            Phase::SendingBatch { end } => {
                self.batch_over(outcome);
                if end {
                    self.phase = Phase::SendingEndOfStream;
                } else {
                    self.last_send = now;
                    self.settle(now);
                }
            },
            Phase::SendingEndOfStream => {
                match outcome {
                    SendOutcome::Sent => self.core.eos_sent(),
                    SendOutcome::Abandoned => self.core.eos_abandoned(),
                }
                self.last_send = now;
                self.settle(now);
            },
            Phase::SendingHeartbeat => {
                match outcome {
                    SendOutcome::Sent => self.core.heartbeat_sent(),
                    SendOutcome::Abandoned => self.core.heartbeat_abandoned(),
                }
                self.heartbeats = self.heartbeats + 1;
                self.last_send = now;
                self.phase = Phase::Polling;
            },
            Phase::SendingLast => {
                self.batch_over(outcome);
                self.phase = Phase::Finished;
            },
            _ => {},
        }
    }

    /// Whether the counters have room for what is sent next.
    pub fn can_send(&self) -> (r: bool)
        requires
            self.wf(),
        ensures
            r == (self@.core.room_for_step() && self@.heartbeats < u64::MAX),
    {
        self.core.can_count() && self.heartbeats < u64::MAX
    }

    fn batch_over(&mut self, outcome: SendOutcome)
        requires
            old(self).core.wf(),
            old(self).core@.room_for_step(),
        ensures
            final(self).core.wf(),
            final(self).core@ == old(self)@.core_after_batch(outcome),
            final(self).phase == old(self).phase,
            final(self).last_send == old(self).last_send,
            final(self).heartbeats == old(self).heartbeats,
            final(self).heartbeat_ns == old(self).heartbeat_ns,
    {
        match outcome {
            SendOutcome::Sent => self.core.batch_sent(),
            SendOutcome::Abandoned => self.core.batch_abandoned(),
        }
    }

    fn settle(&mut self, now: u64)
        requires
            old(self).core.wf(),
        ensures
            final(self).wf(),
            final(self)@ == old(self)@.settled(now),
    {
        let idle: u64 = now.saturating_sub(self.last_send);
        self.phase = if idle >= self.heartbeat_ns && !self.core.has_pending() {
            Phase::SendingHeartbeat
        } else {
            Phase::Polling
        };
    }
}

} // verus!

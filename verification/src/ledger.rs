//! What the counters of a decoder tell.
//!
//! The laws here begin with all that was done to a decoder since it was made, and say what its
//! counters then are.

use vstd::prelude::*;

use crate::command::MetricView;
use crate::decode;
use crate::decoder;
use crate::decoder::{
    Action, Emit, LoopState, Phase, Received, RunCall, RunState, SendOutcome, SendReply,
};
use crate::msg::FragmentView;
use crate::tally;

verus! {

/// The frames that came in, each with the source that it came from, in order.
pub open spec fn came_in(calls: Seq<RunCall>) -> Seq<(u32, Seq<u8>)>
    decreases calls.len(),
{
    if calls.len() == 0 {
        Seq::empty()
    } else {
        came_in(calls.drop_last()) + match calls.last() {
            RunCall::Batch { source, frames, .. } => frames.map_values(|f: Seq<u8>| (source, f)),
            _ => Seq::empty(),
        }
    }
}

/// How many of the frames that came in satisfy `p`.
pub open spec fn frames_that(
    frames: Seq<(u32, Seq<u8>)>,
    p: spec_fn(u32, Seq<u8>) -> bool,
) -> nat
    decreases frames.len(),
{
    if frames.len() == 0 {
        0
    } else {
        frames_that(frames.drop_last(), p) + if p(frames.last().0, frames.last().1) {
            1nat
        } else {
            0nat
        }
    }
}

/// How many of the calls satisfy `p`.
pub open spec fn calls_that(calls: Seq<RunCall>, p: spec_fn(RunCall) -> bool) -> nat
    decreases calls.len(),
{
    if calls.len() == 0 {
        0
    } else {
        calls_that(calls.drop_last(), p) + if p(calls.last()) {
            1nat
        } else {
            0nat
        }
    }
}

/// Whether a frame is malformed.
pub open spec fn malformed() -> spec_fn(u32, Seq<u8>) -> bool {
    |source: u32, frame: Seq<u8>| decode::verdict(frame) is Malformed
}

/// Whether a frame is a control frame.
pub open spec fn unsupported() -> spec_fn(u32, Seq<u8>) -> bool {
    |source: u32, frame: Seq<u8>| decode::verdict(frame) is Unsupported
}

/// Whether a frame is a control frame that describes the topology.
pub open spec fn topology() -> spec_fn(u32, Seq<u8>) -> bool {
    |source: u32, frame: Seq<u8>|
        decode::verdict(frame) is Unsupported && decode::is_topology(frame)
}

/// Whether a frame names another CoBo than the source that it came from.
pub open spec fn foreign() -> spec_fn(u32, Seq<u8>) -> bool {
    |source: u32, frame: Seq<u8>|
        decode::verdict(frame) matches decode::Verdict::Decoded(f) && f.cobo != source
}

/// Whether a frame holds a fragment.
pub open spec fn decoded() -> spec_fn(u32, Seq<u8>) -> bool {
    |source: u32, frame: Seq<u8>| decode::verdict(frame) is Decoded
}

/// The number of the run in progress, and whether that of the next message is taken over: it is
/// behind the decoder's own end of stream.
pub open spec fn run_in(first: u32, calls: Seq<RunCall>) -> (u32, bool)
    decreases calls.len(),
{
    if calls.len() == 0 {
        (first, false)
    } else {
        let (run, open) = run_in(first, calls.drop_last());
        match calls.last() {
            RunCall::Batch { run: said, .. } => (
                if open {
                    said
                } else {
                    run
                },
                false,
            ),
            RunCall::EndOfStream { run: said, .. } => (
                if open {
                    said
                } else {
                    run
                },
                false,
            ),
            RunCall::EosSent => (run, true),
            RunCall::EosAbandoned => (run, true),
            _ => (run, open),
        }
    }
}

/// How many messages named another run than the one in progress.
pub open spec fn strays(first: u32, calls: Seq<RunCall>) -> nat
    decreases calls.len(),
{
    if calls.len() == 0 {
        0
    } else {
        let before = calls.drop_last();
        let (run, open) = run_in(first, before);
        strays(first, before) + match calls.last() {
            RunCall::Batch { run: said, .. } => if !open && said != run {
                1nat
            } else {
                0nat
            },
            RunCall::EndOfStream { run: said, .. } => if !open && said != run {
                1nat
            } else {
                0nat
            },
            _ => 0nat,
        }
    }
}

/// How many batches did not have the number that was awaited of their source.
pub open spec fn gaps(calls: Seq<RunCall>) -> nat
    decreases calls.len(),
{
    if calls.len() == 0 {
        0
    } else {
        gaps(calls.drop_last()) + match calls.last() {
            RunCall::Batch { source, seq, .. } => if seq != decoder::awaited(
                calls.drop_last(),
                source,
            ) {
                1nat
            } else {
                0nat
            },
            _ => 0nat,
        }
    }
}

/// How many batches were sent or given up since the decoder's last own end of stream.
pub open spec fn numbered(calls: Seq<RunCall>) -> nat
    decreases calls.len(),
{
    if calls.len() == 0 {
        0
    } else {
        match calls.last() {
            RunCall::BatchSent | RunCall::BatchAbandoned => numbered(calls.drop_last()) + 1,
            RunCall::EosSent | RunCall::EosAbandoned => 0,
            _ => numbered(calls.drop_last()),
        }
    }
}

/// When the fragments that wait are due: so many nanoseconds after the batch that brought the first
/// of them.
pub open spec fn due(calls: Seq<RunCall>, span: nat) -> Option<nat>
    decreases calls.len(),
{
    if calls.len() == 0 {
        None
    } else {
        match calls.last() {
            RunCall::Batch { frames, now, .. } => match due(calls.drop_last(), span) {
                Some(t) => Some(t),
                None => if decoder::fragments_of(frames).len() > 0 {
                    Some(now as nat + span)
                } else {
                    None
                },
            },
            RunCall::BatchSent | RunCall::BatchAbandoned | RunCall::EosSent
            | RunCall::EosAbandoned => None,
            _ => due(calls.drop_last(), span),
        }
    }
}

/// Whether nothing that came in was given up.
pub open spec fn keeps_all(calls: Seq<RunCall>) -> bool {
    forall|i: int|
        0 <= i < calls.len() ==> !(#[trigger] calls[i] is BatchAbandoned) && !(calls[i] is EosSent)
            && !(calls[i] is EosAbandoned)
}

proof fn lemma_frames(
    before: Seq<(u32, Seq<u8>)>,
    source: u32,
    frames: Seq<Seq<u8>>,
    p: spec_fn(u32, Seq<u8>) -> bool,
    q: spec_fn(Seq<u8>) -> bool,
)
    requires
        forall|f: Seq<u8>| #[trigger] q(f) == p(source, f),
    ensures
        frames_that(before + frames.map_values(|f: Seq<u8>| (source, f)), p) == frames_that(before, p)
            + decoder::how_many(frames, q),
    decreases frames.len(),
{
    let new = frames.map_values(|f: Seq<u8>| (source, f));
    let all = before + new;
    if frames.len() == 0 {
        assert(all =~= before);
    } else {
        let fewer = frames.drop_last();
        lemma_frames(before, source, fewer, p, q);
        assert(all.drop_last() =~= before + fewer.map_values(|f: Seq<u8>| (source, f)));
        assert(q(frames.last()) == p(source, frames.last()));
    }
}

proof fn lemma_counts(counts: decode::Counts, frames: Seq<Seq<u8>>)
    ensures
        ({
            let after = decoder::counts_after(counts, frames);
            &&& after.malformed == counts.malformed + decoder::how_many(
                frames,
                |f: Seq<u8>| decode::verdict(f) is Malformed,
            )
            &&& after.unsupported == counts.unsupported + decoder::how_many(
                frames,
                |f: Seq<u8>| decode::verdict(f) is Unsupported,
            )
        }),
        decoder::fragments_of(frames).len() == decoder::how_many(
            frames,
            |f: Seq<u8>| decode::verdict(f) is Decoded,
        ),
    decreases frames.len(),
{
    if frames.len() > 0 {
        lemma_counts(counts, frames.drop_last());
    }
}

/// The counters of a decoder tell what was done to it: the frames that came in, of each kind; the
/// batches of every source, and those out of turn; the messages of another run; the ends of streams
/// and the signs of life, in and out; and what was sent and given up. The decoder has a fault
/// exactly where a batch was out of turn, a message was of another run or a frame was malformed.
#[verifier::rlimit(60)]
pub proof fn law_the_counters_tell_what_was_done(start: RunState, calls: Seq<RunCall>, source: u32)
    requires
        start == RunState::fresh(
            start.run_number,
            start.expected,
            start.batch_max_bytes,
            start.batch_max_ns,
        ),
        start.meets_all(calls),
    ensures
        ({
            let s = start.after_all(calls);
            let frames = came_in(calls);
            let t = s.tallies;
            &&& t.frames_in == frames.len()
            &&& s.counts.malformed == frames_that(frames, malformed())
            &&& s.counts.unsupported == frames_that(frames, unsupported())
            &&& t.topology_frames == frames_that(frames, topology())
            &&& t.cobo_mismatch == frames_that(frames, foreign())
            &&& t.seq_gaps == gaps(calls)
            &&& (s.run_number, s.awaiting_run) == run_in(start.run_number, calls)
            &&& t.run_mismatches == strays(start.run_number, calls)
            &&& s.errored <==> gaps(calls) > 0 || strays(start.run_number, calls) > 0
                || frames_that(frames, malformed()) > 0
            &&& tally::count_in(s.batches_in, source as u64) == calls_that(
                calls,
                |c: RunCall| c matches RunCall::Batch { source: from, .. } && from == source,
            )
            &&& t.eos_in == calls_that(calls, |c: RunCall| c is EndOfStream)
            &&& t.heartbeats_in == calls_that(calls, |c: RunCall| c is Heartbeat)
            &&& t.batches_out == calls_that(calls, |c: RunCall| c is BatchSent)
            &&& t.batches_abandoned == calls_that(calls, |c: RunCall| c is BatchAbandoned)
            &&& t.eos_out == calls_that(calls, |c: RunCall| c is EosSent)
            &&& t.eos_abandoned == calls_that(calls, |c: RunCall| c is EosAbandoned)
            &&& t.heartbeats_out == calls_that(calls, |c: RunCall| c is HeartbeatSent)
            &&& t.heartbeats_abandoned == calls_that(calls, |c: RunCall| c is HeartbeatAbandoned)
            &&& s.out_seq == numbered(calls)
        }),
    decreases calls.len(),
{
    if calls.len() > 0 {
        let before = calls.drop_last();
        law_the_counters_tell_what_was_done(start, before, source);
        let s = start.after_all(before);
        if let RunCall::Batch { source: from, run, seq, frames, now } = calls.last() {
            decoder::law_the_history_is_kept(start, before, from);
            let old = came_in(before);
            let m = |f: Seq<u8>| decode::verdict(f) is Malformed;
            let u = |f: Seq<u8>| decode::verdict(f) is Unsupported;
            lemma_counts(s.counts, frames);
            lemma_frames(old, from, frames, malformed(), m);
            lemma_frames(old, from, frames, malformed(), decoder::is_malformed());
            lemma_frames(old, from, frames, unsupported(), u);
            lemma_frames(old, from, frames, topology(), decoder::tells_topology());
            lemma_frames(old, from, frames, foreign(), decoder::is_foreign(from));
        } else {
            assert(came_in(calls) =~= came_in(before));
        }
    }
}

proof fn lemma_totals(a: Seq<FragmentView>, b: Seq<FragmentView>)
    ensures
        decoder::item_total(a + b) == decoder::item_total(a) + decoder::item_total(b),
    decreases b.len(),
{
    if b.len() == 0 {
        assert(a + b =~= a);
    } else {
        lemma_totals(a, b.drop_last());
        assert((a + b).drop_last() =~= a + b.drop_last());
        assert((a + b).last() == b.last());
    }
}

proof fn lemma_one_more(fragments: Seq<FragmentView>, f: FragmentView, count: nat)
    requires
        decoder::item_total(fragments) % 4 == 0,
        f.items.len() == 4 * count,
    ensures
        decoder::item_total(fragments.push(f)) % 4 == 0,
{
    assert(fragments.push(f).drop_last() =~= fragments);
}

proof fn lemma_fragments(frames: Seq<Seq<u8>>)
    ensures
        decoder::item_total(decoder::fragments_of(frames)) % 4 == 0,
    decreases frames.len(),
{
    if frames.len() > 0 {
        let last = frames.last();
        lemma_fragments(frames.drop_last());
        if decode::verdict(last) is Decoded {
            decode::lemma_fragment_size(last);
            lemma_one_more(
                decoder::fragments_of(frames.drop_last()),
                decode::verdict(last)->Decoded_0,
                decode::field(last, 12, 16),
            );
        }
    }
}

/// The bytes of all samples that came in.
pub open spec fn sample_bytes(frames: Seq<(u32, Seq<u8>)>) -> nat
    decreases frames.len(),
{
    if frames.len() == 0 {
        0
    } else {
        sample_bytes(frames.drop_last()) + match decode::verdict(frames.last().1) {
            decode::Verdict::Decoded(f) => f.items.len(),
            _ => 0,
        }
    }
}

proof fn lemma_sample_bytes(before: Seq<(u32, Seq<u8>)>, source: u32, frames: Seq<Seq<u8>>)
    ensures
        sample_bytes(before + frames.map_values(|f: Seq<u8>| (source, f))) == sample_bytes(before)
            + decoder::item_total(decoder::fragments_of(frames)),
    decreases frames.len(),
{
    let new = frames.map_values(|f: Seq<u8>| (source, f));
    let all = before + new;
    if frames.len() == 0 {
        assert(all =~= before);
    } else {
        let fewer = frames.drop_last();
        lemma_sample_bytes(before, source, fewer);
        assert(all.drop_last() =~= before + fewer.map_values(|f: Seq<u8>| (source, f)));
        if let decode::Verdict::Decoded(f) = decode::verdict(frames.last()) {
            assert(decoder::fragments_of(fewer).push(f).drop_last() =~= decoder::fragments_of(
                fewer,
            ));
        }
    }
}

/// Where nothing is given up, every fragment that was decoded was sent or waits, and so was every
/// sample, of which each takes four bytes.
pub proof fn law_nothing_is_lost(start: RunState, calls: Seq<RunCall>)
    requires
        start == RunState::fresh(
            start.run_number,
            start.expected,
            start.batch_max_bytes,
            start.batch_max_ns,
        ),
        start.meets_all(calls),
        keeps_all(calls),
    ensures
        ({
            let s = start.after_all(calls);
            &&& s.tallies.fragments_out + s.pending.len() == frames_that(came_in(calls), decoded())
            &&& 4 * s.tallies.items_out + decoder::item_total(s.pending) == sample_bytes(
                came_in(calls),
            )
            &&& decoder::item_total(s.pending) % 4 == 0
        }),
    decreases calls.len(),
{
    if calls.len() > 0 {
        let before = calls.drop_last();
        assert forall|i: int| 0 <= i < before.len() implies !(#[trigger] before[i] is BatchAbandoned)
            && !(before[i] is EosSent) && !(before[i] is EosAbandoned) by {
            assert(before[i] == calls[i]);
        }
        law_nothing_is_lost(start, before);
        let s = start.after_all(before);
        assert(calls[calls.len() - 1] == calls.last());
        if let RunCall::Batch { source: from, frames, .. } = calls.last() {
            let found = decoder::fragments_of(frames);
            lemma_counts(s.counts, frames);
            lemma_frames(
                came_in(before),
                from,
                frames,
                decoded(),
                |f: Seq<u8>| decode::verdict(f) is Decoded,
            );
            lemma_totals(s.pending, found);
            lemma_fragments(frames);
            lemma_sample_bytes(came_in(before), from, frames);
        } else {
            assert(came_in(calls) =~= came_in(before));
        }
    }
}

/// The fragments that wait are due so long after the batch that brought the first of them as the
/// decoder was told when it was made.
pub proof fn law_fragments_wait_so_long(start: RunState, calls: Seq<RunCall>)
    requires
        start == RunState::fresh(
            start.run_number,
            start.expected,
            start.batch_max_bytes,
            start.batch_max_ns,
        ),
        start.meets_all(calls),
    ensures
        ({
            let s = start.after_all(calls);
            &&& s.batch_max_ns == start.batch_max_ns
            &&& s.batch_max_bytes == start.batch_max_bytes
            &&& match due(calls, start.batch_max_ns) {
                Some(t) => s.deadline == Some(t as u64) && t <= u64::MAX,
                None => s.deadline is None,
            }
        }),
    decreases calls.len(),
{
    if calls.len() > 0 {
        law_fragments_wait_so_long(start, calls.drop_last());
    }
}

/// A batch is sent as soon as the samples that wait take so many bytes as the decoder was told, and
/// not before.
pub proof fn law_full_batches_are_sent(s: RunState)
    ensures
        s.emit_after_batch() == Emit::Batch <==> decoder::item_total(s.pending) >= s.batch_max_bytes,
        s.emit_after_batch() == Emit::Nothing <==> decoder::item_total(s.pending)
            < s.batch_max_bytes,
{
}

/// What a decoder thread does where nothing comes in: fragments that are due are sent; a sign of
/// life is sent where none wait and nothing was sent for the interval; else the thread waits, and
/// no longer than until the fragments are due.
pub proof fn law_the_thread_keeps_time(s: LoopState, now: u64)
    requires
        s.wf(),
        s.phase == Phase::Polling,
        now >= s.last_send,
    ensures
        ({
            let t = s.after_received(Received::Nothing, now);
            let is_due = s.core.deadline is Some && now >= s.core.deadline->0;
            let is_quiet = now - s.last_send >= s.heartbeat_ns && s.core.pending.len() == 0;
            &&& t.core == s.core
            &&& t.action(now) == Action::SendBatch <==> is_due
            &&& !is_due ==> (t.action(now) is SendHeartbeat <==> is_quiet)
            &&& !is_due && !is_quiet ==> t.action(now) is Poll
            &&& t.action(now) matches Action::SendHeartbeat { counter } ==> counter == s.heartbeats
        }),
{
}

/// The report of a decoder gives each of its counters, and the number of its run, under its name.
pub proof fn law_the_report_gives_every_counter(s: RunState)
    ensures
        ({
            let r = s.report();
            let t = s.tallies;
            &&& r.len() == 19
            &&& r[0] == ("run_number"@, MetricView::Uint(s.run_number as u64))
            &&& r[1] == ("batches_in"@, MetricView::Tally(tally::listing(s.batches_in)))
            &&& r[2] == ("frames_in"@, MetricView::Uint(t.frames_in as u64))
            &&& r[3] == ("fragments_out"@, MetricView::Uint(t.fragments_out as u64))
            &&& r[4] == ("batches_out"@, MetricView::Uint(t.batches_out as u64))
            &&& r[5] == ("items_out"@, MetricView::Uint(t.items_out as u64))
            &&& r[6] == ("unsupported"@, MetricView::Uint(s.counts.unsupported as u64))
            &&& r[7] == ("topology_frames"@, MetricView::Uint(t.topology_frames as u64))
            &&& r[8] == ("malformed"@, MetricView::Uint(s.counts.malformed as u64))
            &&& r[9] == ("seq_gaps"@, MetricView::Uint(t.seq_gaps as u64))
            &&& r[10] == ("run_mismatches"@, MetricView::Uint(t.run_mismatches as u64))
            &&& r[11] == ("eos_in"@, MetricView::Uint(t.eos_in as u64))
            &&& r[12] == ("heartbeats_in"@, MetricView::Uint(t.heartbeats_in as u64))
            &&& r[13] == ("heartbeats_out"@, MetricView::Uint(t.heartbeats_out as u64))
            &&& r[14] == ("heartbeats_abandoned"@, MetricView::Uint(t.heartbeats_abandoned as u64))
            &&& r[15] == ("eos_out"@, MetricView::Uint(t.eos_out as u64))
            &&& r[16] == ("eos_abandoned"@, MetricView::Uint(t.eos_abandoned as u64))
            &&& r[17] == ("batches_abandoned"@, MetricView::Uint(t.batches_abandoned as u64))
            &&& r[18] == ("cobo_mismatch"@, MetricView::Uint(t.cobo_mismatch as u64))
        }),
{
}

/// What the decoder itself counts: the frames that it decoded, their samples, the frames that it
/// could not read, those that it does not support, and among these the ones of type 7.
pub proof fn law_the_decoder_counts_every_frame(counts: decode::Counts, frame: Seq<u8>)
    ensures
        ({
            let after = counts.with(frame);
            match decode::verdict(frame) {
                decode::Verdict::Decoded(f) => {
                    &&& after.frames == counts.frames + 1
                    &&& 4 * (after.items - counts.items) == f.items.len()
                    &&& after.malformed == counts.malformed
                    &&& after.unsupported == counts.unsupported
                    &&& after.topology == counts.topology
                },
                decode::Verdict::Malformed => {
                    &&& after.frames == counts.frames
                    &&& after.items == counts.items
                    &&& after.malformed == counts.malformed + 1
                    &&& after.unsupported == counts.unsupported
                    &&& after.topology == counts.topology
                },
                decode::Verdict::Unsupported => {
                    &&& after.frames == counts.frames
                    &&& after.items == counts.items
                    &&& after.malformed == counts.malformed
                    &&& after.unsupported == counts.unsupported + 1
                    &&& decode::field(frame, 5, 7) == 7 ==> after.topology == counts.topology + 1
                    &&& decode::field(frame, 5, 7) != 7 ==> after.topology == counts.topology
                },
            }
        }),
{
    if decode::verdict(frame) is Decoded {
        decode::lemma_fragment_size(frame);
    }
}

/// What becomes of a message: it is sent where the socket takes it, tried again while the other side
/// is full and nobody asks to give up, and given up else.
pub proof fn law_what_becomes_of_a_message(give_up: bool)
    ensures
        decoder::outcome_of(SendReply::Accepted, give_up) == Some(SendOutcome::Sent),
        decoder::outcome_of(SendReply::Full, true) == Some(SendOutcome::Abandoned),
        decoder::outcome_of(SendReply::Full, false) is None,
        decoder::outcome_of(SendReply::Closing, give_up) == Some(SendOutcome::Abandoned),
        decoder::outcome_of(SendReply::Broken, give_up) == Some(SendOutcome::Abandoned),
{
}

/// What the thread does once its message was sent or given up: behind the last batch of a stream goes
/// its end, and the end of the stream is counted; a sign of life has the next number; and the thread
/// ends behind the batch that it sends last.
pub proof fn law_what_follows_a_message(s: LoopState, outcome: SendOutcome, now: u64)
    ensures
        ({
            let t = s.after_sent(outcome, now);
            let was_sent = outcome == SendOutcome::Sent;
            &&& s.phase == (Phase::SendingBatch { end: true }) ==> t.phase
                == Phase::SendingEndOfStream && t.last_send == s.last_send
            &&& s.phase == (Phase::SendingBatch { end: false }) ==> t.last_send == now && (t.phase
                == Phase::Polling || t.phase == Phase::SendingHeartbeat)
            &&& s.phase is SendingBatch || s.phase == Phase::SendingLast ==> {
                &&& t.core.pending.len() == 0
                &&& t.core.out_seq == s.core.out_seq + 1
                &&& t.core.tallies.batches_out == s.core.tallies.batches_out + (if was_sent {
                    1int
                } else {
                    0
                })
                &&& t.core.tallies.batches_abandoned == s.core.tallies.batches_abandoned + (
                if was_sent {
                    0int
                } else {
                    1
                })
            }
            &&& s.phase == Phase::SendingEndOfStream ==> {
                &&& t.last_send == now
                &&& t.core.out_seq == 0
                &&& t.core.tallies.eos_out == s.core.tallies.eos_out + (if was_sent {
                    1int
                } else {
                    0
                })
                &&& t.core.tallies.eos_abandoned == s.core.tallies.eos_abandoned + (if was_sent {
                    0int
                } else {
                    1
                })
            }
            &&& s.phase == Phase::SendingHeartbeat && s.heartbeats < u64::MAX ==> {
                &&& t.heartbeats == s.heartbeats + 1
                &&& t.last_send == now
                &&& t.phase == Phase::Polling
                &&& t.core.tallies.heartbeats_out == s.core.tallies.heartbeats_out + (if was_sent {
                    1int
                } else {
                    0
                })
                &&& t.core.tallies.heartbeats_abandoned == s.core.tallies.heartbeats_abandoned + (
                if was_sent {
                    0int
                } else {
                    1
                })
            }
            &&& s.phase == Phase::SendingLast ==> t.phase == Phase::Finished
        }),
{
}

/// What the thread does with what it receives: it takes it in, sends a batch that is full or due,
/// and where every source has ended its stream sends what waits and then the end of its own.
pub proof fn law_what_follows_what_is_received(s: LoopState, received: Received, now: u64)
    requires
        s.phase == Phase::Polling,
    ensures
        ({
            let t = s.after_received(received, now);
            match received {
                Received::Data(b) => {
                    let frames = decoder::frame_bytes(b.payload@);
                    &&& t.core == s.core.after_batch(
                        b.source_id,
                        b.run_number,
                        b.sequence_number,
                        frames,
                        now,
                    )
                    &&& decoder::item_total(t.core.pending) >= t.core.batch_max_bytes
                        && t.core.pending.len() > 0 ==> t.phase == (Phase::SendingBatch {
                        end: false,
                    })
                    &&& !(t.phase == (Phase::SendingBatch { end: true })) && t.phase
                        != Phase::SendingEndOfStream && t.phase != Phase::Finished
                },
                Received::EndOfStream { source_id, run_number } => {
                    &&& t.core == s.core.after_eos(source_id, run_number)
                    &&& t.core.expected.subset_of(t.core.ended) ==> t.phase == if t.core.pending.len()
                        > 0 {
                        Phase::SendingBatch { end: true }
                    } else {
                        Phase::SendingEndOfStream
                    }
                    &&& !t.core.expected.subset_of(t.core.ended) ==> t.phase
                        != Phase::SendingEndOfStream && t.phase != (Phase::SendingBatch {
                        end: true,
                    })
                },
                Received::Heartbeat { .. } => t.core.tallies.heartbeats_in
                    == s.core.tallies.heartbeats_in + 1 && t.core.pending == s.core.pending,
                Received::Stop => t.core == s.core && t.phase == if s.core.pending.len() > 0 {
                    Phase::SendingLast
                } else {
                    Phase::Finished
                },
                _ => t.core == s.core,
            }
        }),
{
}

} // verus!

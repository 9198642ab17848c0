//! The decoder: batches in, fragments and the end of the stream out.

use tpcdaq::command::{ComponentState, Handler, Metric};
use tpcdaq::config::{DEFAULT_HEARTBEAT_MS, DECODER_COMMAND_LISTEN};
use tpcdaq::decoder::{
    poll_wait_ms, send_lossless, Action, DecoderLoop, Emit, Received, RunDecoder, SendOutcome,
    SendReply, NANOS_PER_MS, POLL_TIMEOUT_MS,
};
use tpcdaq::msg::Batch;

const HEADER_BYTES: usize = 88;

fn write_uint(buf: &mut [u8], offset: usize, value: u64, n: usize) {
    for (i, b) in buf[offset..offset + n].iter_mut().enumerate() {
        *b = ((value >> (8 * (n - 1 - i))) & 0xFF) as u8;
    }
}

fn make_frame(cobo: u8, asad: u8, event_idx: u32, items: &[(u8, u8, u16, u16)]) -> Vec<u8> {
    let total = HEADER_BYTES + items.len() * 4;
    let mut b = vec![0u8; total];
    b[0] = 0x00;
    write_uint(&mut b, 1, total as u64, 3);
    write_uint(&mut b, 5, 1, 2);
    write_uint(&mut b, 8, HEADER_BYTES as u64, 2);
    write_uint(&mut b, 10, 4, 2);
    write_uint(&mut b, 12, items.len() as u64, 4);
    write_uint(&mut b, 22, u64::from(event_idx), 4);
    b[26] = cobo;
    b[27] = asad;
    for (i, &(aget, chan, bucket, adc)) in items.iter().enumerate() {
        let w = (u32::from(aget & 0x3) << 30)
            | (u32::from(chan & 0x7F) << 23)
            | (u32::from(bucket & 0x1FF) << 14)
            | u32::from(adc & 0xFFF);
        write_uint(&mut b, HEADER_BYTES + i * 4, u64::from(w), 4);
    }
    b
}

fn frame_with_8_items(cobo: u8, event_idx: u32) -> Vec<u8> {
    let items: Vec<(u8, u8, u16, u16)> =
        (0..8u16).map(|i| (0u8, i as u8, i, 100 + i * 7)).collect();
    make_frame(cobo, 0, event_idx, &items)
}

fn buf(bytes: &[u8]) -> Vec<u8> {
    bytes.to_vec()
}

fn control_frame() -> Vec<u8> {
    let mut b = vec![0u8; 12];
    b[0] = 0x00;
    write_uint(&mut b, 5, 7, 2);
    b
}

fn decoder_for(run: u32, sources: &[u32]) -> RunDecoder {
    RunDecoder::new(
        run,
        sources.iter().copied().collect(),
        8 * 1024 * 1024,
        10 * NANOS_PER_MS,
    )
}

#[test]
fn eos_is_emitted_only_after_every_expected_source_has_reported() {
    let mut c = decoder_for(4, &[0, 1]);
    let now: u64 = 7_000_000_000;
    c.handle_batch(0, 4, 0, &[buf(&frame_with_8_items(0, 1))], now);
    c.handle_batch(1, 4, 0, &[buf(&frame_with_8_items(1, 1))], now);

    assert_eq!(
        c.handle_eos(0, 4),
        Emit::Nothing);
    assert_eq!(
        c.handle_eos(1, 4),
        Emit::FlushAndEndOfStream);
    assert_eq!(c.eos_in(), 2);
}

#[test]
fn a_repeated_eos_does_not_emit_a_second_one() {
    let mut c = decoder_for(4, &[0, 1]);
    assert_eq!(c.handle_eos(0, 4), Emit::Nothing);
    assert_eq!(
        c.handle_eos(0, 4),
        Emit::Nothing);
    assert_eq!(c.handle_eos(1, 4), Emit::FlushAndEndOfStream);
    c.eos_sent();
    assert_eq!(
        c.handle_eos(0, 4),
        Emit::Nothing);
}

#[test]
fn the_run_state_rearms_after_the_eos_so_the_next_run_starts_from_zero() {
    let mut c = decoder_for(4, &[0, 1]);
    let now: u64 = 7_000_000_000;
    c.handle_batch(0, 4, 0, &[buf(&frame_with_8_items(0, 1))], now);
    c.handle_batch(1, 4, 0, &[buf(&frame_with_8_items(1, 1))], now);
    c.handle_eos(0, 4);
    assert_eq!(c.handle_eos(1, 4), Emit::FlushAndEndOfStream);
    c.batch_sent();
    assert_eq!(c.out_sequence_number(), 1);
    c.eos_sent();

    assert_eq!(c.out_sequence_number(), 0);
    assert_eq!(
        c.run_number(),
        4);
    c.handle_batch(0, 5, 0, &[buf(&frame_with_8_items(0, 2))], now);
    assert_eq!(c.run_number(), 5);
    assert_eq!(c.run_mismatches(), 0);
    c.handle_batch(1, 5, 0, &[buf(&frame_with_8_items(1, 2))], now);
    c.handle_eos(0, 5);
    assert_eq!(
        c.handle_eos(1, 5),
        Emit::FlushAndEndOfStream);
}

#[test]
fn a_batch_closes_when_the_pending_items_reach_the_size_limit() {

    let mut c = RunDecoder::new(1, vec![0], 64, 10 * NANOS_PER_MS);
    let now: u64 = 7_000_000_000;
    assert_eq!(
        c.handle_batch(0, 1, 0, &[buf(&frame_with_8_items(0, 1))], now),
        Emit::Nothing
    );
    assert_eq!(c.pending().len(), 1);
    assert_eq!(
        c.handle_batch(0, 1, 1, &[buf(&frame_with_8_items(0, 2))], now),
        Emit::Batch
    );
    assert_eq!(c.pending().len(), 2);
}

#[test]
fn a_batch_closes_when_the_time_limit_elapses() {
    let mut c = RunDecoder::new(
        1,
        vec![0],
        8 * 1024 * 1024,
        10 * NANOS_PER_MS,
    );
    let t0: u64 = 7_000_000_000;
    assert_eq!(
        c.handle_batch(0, 1, 0, &[buf(&frame_with_8_items(0, 1))], t0),
        Emit::Nothing
    );
    assert_eq!(
        c.tick(t0 + 9 * NANOS_PER_MS),
        Emit::Nothing);
    assert_eq!(
        c.tick(t0 + 10 * NANOS_PER_MS),
        Emit::Batch);
}

#[test]
fn an_empty_buffer_never_closes_on_a_tick() {
    let mut c = decoder_for(1, &[0]);
    let t0: u64 = 7_000_000_000;
    assert_eq!(c.tick(t0 + 1000 * NANOS_PER_MS), Emit::Nothing);
}

#[test]
fn a_sequence_gap_is_counted_latches_error_and_keeps_consuming() {
    let mut c = decoder_for(1, &[0]);
    let now: u64 = 7_000_000_000;
    c.handle_batch(0, 1, 0, &[buf(&frame_with_8_items(0, 1))], now);

    c.handle_batch(0, 1, 2, &[buf(&frame_with_8_items(0, 2))], now);

    assert_eq!(c.seq_gaps(), 1);
    assert!(c.errored());
    assert_eq!(c.pending().len(), 2);
}

#[test]
fn sequence_numbers_are_verified_per_source() {
    let mut c = decoder_for(1, &[0, 1]);
    let now: u64 = 7_000_000_000;

    c.handle_batch(0, 1, 0, &[buf(&frame_with_8_items(0, 1))], now);
    c.handle_batch(1, 1, 0, &[buf(&frame_with_8_items(1, 1))], now);
    c.handle_batch(0, 1, 1, &[buf(&frame_with_8_items(0, 2))], now);
    c.handle_batch(1, 1, 1, &[buf(&frame_with_8_items(1, 2))], now);
    assert_eq!(c.seq_gaps(), 0);
    assert!(!c.errored());
}

#[test]
fn a_run_number_change_before_eos_is_counted_and_latches_error() {
    let mut c = decoder_for(1, &[0]);
    let now: u64 = 7_000_000_000;
    c.handle_batch(0, 1, 0, &[buf(&frame_with_8_items(0, 1))], now);
    c.handle_batch(0, 2, 1, &[buf(&frame_with_8_items(0, 2))], now);

    assert_eq!(c.run_mismatches(), 1);
    assert!(c.errored());
    assert_eq!(c.run_number(), 1);
    assert_eq!(c.pending().len(), 2);
}

#[test]
fn unsupported_frames_are_counted_without_latching_error() {
    let mut c = decoder_for(1, &[0]);
    let now: u64 = 7_000_000_000;
    c.handle_batch(
        0,
        1,
        0,
        &[buf(&control_frame()), buf(&frame_with_8_items(0, 1))],
        now,
    );

    assert_eq!(
        c.unsupported(),
        1);
    assert_eq!(c.malformed(), 0);
    assert!(
        !c.errored());
    assert_eq!(
        c.pending().len(),
        1);
    assert_eq!(c.frames_in(), 2);
}

const REAL_TOPOLOGY_FRAME: [u8; 12] = [
    0x40, 0x00, 0x00, 0x0c, 0x00, 0x00, 0x07, 0x00, 0x00, 0x0f, 0x00, 0x00,
];

#[test]
fn a_topology_frame_at_the_head_of_a_run_costs_no_events() {
    let mut c = decoder_for(7, &[0]);
    let now: u64 = 7_000_000_000;
    let frames = vec![
        buf(&REAL_TOPOLOGY_FRAME),
        buf(&frame_with_8_items(0, 1)),
        buf(&frame_with_8_items(0, 2)),
        buf(&frame_with_8_items(0, 3)),
        buf(&frame_with_8_items(0, 4)),
    ];
    c.handle_batch(0, 7, 0, &frames, now);

    assert_eq!(c.frames_in(), 5);
    assert_eq!(
        c.pending().len(),
        4);
    let event_idxs: Vec<u32> = c.pending().iter().map(|f| f.event_idx).collect();
    assert_eq!(event_idxs, vec![1, 2, 3, 4]);
    assert_eq!(c.topology_frames(), 1);
    assert_eq!(c.unsupported(), 1);
    assert_eq!(c.malformed(), 0);
    assert!(!c.errored());
}

#[test]
fn topology_frames_are_visible_in_metrics() {
    let mut c = decoder_for(7, &[0]);
    c.handle_batch(0, 7, 0, &[buf(&REAL_TOPOLOGY_FRAME)], 0);
    let metrics = c.metrics_json();
    assert_eq!(metrics.get_u64("topology_frames"), Some(1));
    assert_eq!(metrics.get_u64("unsupported"), Some(1));
}

#[test]
fn other_control_frames_do_not_count_as_topology() {
    let mut c = decoder_for(1, &[0]);
    c.handle_batch(0, 1, 0, &[buf(&control_frame())], 0);
    assert_eq!(
        c.unsupported(),
        1);

    assert_eq!(c.topology_frames(), 1);

    let mut c5 = decoder_for(1, &[0]);
    let h_none = {
        let mut b = vec![0u8; 12];
        b[0] = 0x00;
        b[3] = 12;
        write_uint(&mut b, 5, 5, 2);
        b
    };
    c5.handle_batch(0, 1, 0, &[buf(&h_none)], 0);
    assert_eq!(c5.unsupported(), 1);
    assert_eq!(c5.topology_frames(), 0);
}

#[test]
fn malformed_frames_are_counted_and_latch_error() {
    let mut c = decoder_for(1, &[0]);
    let now: u64 = 7_000_000_000;

    let mut broken = frame_with_8_items(0, 1);
    broken.truncate(40);
    c.handle_batch(0, 1, 0, &[buf(&broken)], now);

    assert_eq!(c.malformed(), 1);
    assert_eq!(c.unsupported(), 0);
    assert!(c.errored());
    assert_eq!(c.pending().len(), 0);
}

#[test]
fn sending_a_batch_advances_the_output_sequence_and_counters() {
    let mut c = decoder_for(1, &[0]);
    let now: u64 = 7_000_000_000;
    c.handle_batch(
        0,
        1,
        0,
        &[
            buf(&frame_with_8_items(0, 1)),
            buf(&frame_with_8_items(0, 2)),
        ],
        now,
    );
    assert_eq!(c.out_sequence_number(), 0);
    c.batch_sent();

    assert_eq!(c.out_sequence_number(), 1);
    assert_eq!(c.batches_out(), 1);
    assert_eq!(c.fragments_out(), 2);

    assert_eq!(c.items_out(), 16);
    assert_eq!(c.pending().len(), 0);
    assert_eq!(c.batches_in_for(0), 1);
}

#[test]
fn an_abandoned_batch_is_counted_and_leaves_a_visible_sequence_gap() {
    let mut c = decoder_for(1, &[0]);
    let now: u64 = 7_000_000_000;
    c.handle_batch(0, 1, 0, &[buf(&frame_with_8_items(0, 1))], now);
    c.batch_abandoned();

    assert_eq!(c.batches_abandoned(), 1);
    assert_eq!(c.batches_out(), 0);
    assert_eq!(c.fragments_out(), 0);
    assert_eq!(c.out_sequence_number(), 1);
    assert_eq!(c.pending().len(), 0);
}

#[test]
fn a_cobo_header_that_disagrees_with_the_batch_source_is_counted_but_is_not_an_error() {
    let mut c = decoder_for(1, &[0, 1]);
    let now: u64 = 7_000_000_000;

    c.handle_batch(
        0,
        1,
        0,
        &[
            buf(&frame_with_8_items(1, 1)),
            buf(&frame_with_8_items(0, 2)),
            buf(&frame_with_8_items(1, 3)),
        ],
        now,
    );

    assert_eq!(c.cobo_mismatch(), 2);
    assert!(!c.errored());
    assert_eq!(
        c.pending().len(),
        3);
    assert_eq!(c.metrics_json().get_u64("cobo_mismatch"), Some(2));
}

#[test]
fn matching_cobo_headers_never_count_a_mismatch() {
    let mut c = decoder_for(1, &[0, 1]);
    let now: u64 = 7_000_000_000;
    c.handle_batch(0, 1, 0, &[buf(&frame_with_8_items(0, 1))], now);
    c.handle_batch(1, 1, 0, &[buf(&frame_with_8_items(1, 1))], now);

    c.handle_batch(0, 1, 1, &[buf(&control_frame())], now);

    assert_eq!(c.cobo_mismatch(), 0);
    assert_eq!(c.unsupported(), 1);
}

#[test]
fn heartbeat_send_outcomes_are_counted_separately() {
    let mut c = decoder_for(1, &[0]);

    c.heartbeat_sent();
    c.heartbeat_sent();
    c.heartbeat_abandoned();

    assert_eq!(c.heartbeats_out(), 2);
    assert_eq!(c.heartbeats_abandoned(), 1);
    let m = c.metrics_json();
    assert_eq!(m.get_u64("heartbeats_out"), Some(2));
    assert_eq!(m.get_u64("heartbeats_abandoned"), Some(1));
    assert_eq!(m.get_u64("heartbeats_in"), Some(0));
}

#[test]
fn eos_out_counts_only_the_decoders_own_sent_eos() {
    let mut c = decoder_for(4, &[0, 1]);
    assert_eq!(c.eos_out(), 0);

    c.handle_eos(0, 4);
    assert_eq!(c.handle_eos(1, 4), Emit::FlushAndEndOfStream);
    assert_eq!(c.eos_in(), 2);
    assert_eq!(c.eos_out(), 0);
    assert_eq!(c.metrics_json().get_u64("eos_out"), Some(0));

    c.eos_sent();
    assert_eq!(c.eos_out(), 1);
    assert_eq!(c.metrics_json().get_u64("eos_out"), Some(1));
    assert_eq!(
        c.metrics_json().get_u64("eos_abandoned"),
        Some(0));

    c.eos_abandoned();
    assert_eq!(c.eos_out(), 1);
    assert_eq!(c.metrics_json().get_u64("eos_abandoned"), Some(1));
}

#[test]
fn metrics_json_carries_every_counter_of_the_ticket() {
    let mut c = decoder_for(1, &[0]);
    let now: u64 = 7_000_000_000;
    c.handle_batch(0, 1, 0, &[buf(&frame_with_8_items(0, 1))], now);
    c.handle_heartbeat(0);
    c.batch_sent();
    let m = c.metrics_json();

    for key in [
        "frames_in",
        "fragments_out",
        "batches_out",
        "items_out",
        "unsupported",
        "malformed",
        "seq_gaps",
        "run_mismatches",
        "eos_in",
        "heartbeats_in",
        "heartbeats_out",
        "heartbeats_abandoned",
        "eos_out",
        "eos_abandoned",
        "batches_abandoned",
        "cobo_mismatch",
    ] {
        assert!(m.get(key).is_some(), "{key}");
    }
    match m.get("batches_in") {
        Some(Metric::Tally(batches)) => assert_eq!(batches, &vec![(0, 1)]),
        _ => panic!("batches are told by source"),
    }
    assert_eq!(m.get_u64("heartbeats_in"), Some(1));
    assert_eq!(m.get_u64("items_out"), Some(8));
}

#[test]
fn a_healthy_core_without_violations_stays_running() {
    let mut handler = Handler::new();
    let core = decoder_for(1, &[0]);
    handler.state = ComponentState::Running;

    handler.latch_error(core.errored());
    assert_eq!(handler.state, ComponentState::Running);
}

#[test]
fn a_core_with_a_violation_enters_error() {
    let mut handler = Handler::new();
    let mut core = decoder_for(1, &[0]);
    core.handle_batch(0, 1, 5, &[], 0);
    handler.state = ComponentState::Running;

    handler.latch_error(core.errored());
    assert_eq!(handler.state, ComponentState::Error);
}

#[test]
fn the_wait_for_input_ends_at_the_deadline_of_the_batch() {
    assert_eq!(poll_wait_ms(None, 5), POLL_TIMEOUT_MS);
    assert_eq!(poll_wait_ms(Some(9), 10), 0);
    assert_eq!(poll_wait_ms(Some(10 * NANOS_PER_MS), 0), 10);
    assert_eq!(poll_wait_ms(Some(10 * NANOS_PER_MS + 1), 0), 11);
    assert_eq!(poll_wait_ms(Some(500 * NANOS_PER_MS), 0), POLL_TIMEOUT_MS);
}

#[test]
fn a_full_receiving_side_is_waited_for_unless_a_reset_gives_up() {
    assert_eq!(send_lossless(SendReply::Accepted, true), Some(SendOutcome::Sent));
    assert_eq!(send_lossless(SendReply::Full, false), None);
    assert_eq!(send_lossless(SendReply::Full, true), Some(SendOutcome::Abandoned));
    assert_eq!(send_lossless(SendReply::Closing, false), Some(SendOutcome::Abandoned));
    assert_eq!(send_lossless(SendReply::Broken, false), Some(SendOutcome::Abandoned));
}

fn data(source_id: u32, sequence_number: u64, payload: Vec<Vec<u8>>) -> Received {
    Received::Data(Batch { source_id, run_number: 4, sequence_number, created_ns: 0, payload })
}

fn take(thread: &mut DecoderLoop, received: Received, now: u64) {
    assert!(thread.can_take(&received, now));
    thread.received(received, now);
}

#[test]
fn the_end_of_the_stream_follows_all_fragments() {
    let mut thread = DecoderLoop::new(decoder_for(4, &[0]), 1000 * NANOS_PER_MS, 0);
    assert_eq!(thread.action(0), Action::Poll { wait_ms: POLL_TIMEOUT_MS });
    take(&mut thread, data(0, 0, vec![frame_with_8_items(0, 1)]), NANOS_PER_MS);
    assert_eq!(thread.action(NANOS_PER_MS), Action::Poll { wait_ms: 10 });
    take(&mut thread, Received::EndOfStream { source_id: 0, run_number: 4 }, 2 * NANOS_PER_MS);
    assert_eq!(thread.action(0), Action::SendBatch);
    assert!(thread.can_send());
    thread.sent(SendOutcome::Sent, 3 * NANOS_PER_MS);
    assert_eq!(thread.action(0), Action::SendEndOfStream);
    thread.sent(SendOutcome::Sent, 3 * NANOS_PER_MS);
    assert_eq!((thread.decoder().eos_out(), thread.decoder().fragments_out()), (1, 1));
    assert!(matches!(thread.action(3 * NANOS_PER_MS), Action::Poll { .. }));
}

#[test]
fn a_stop_flushes_what_is_pending_and_ends_the_thread() {
    let mut thread = DecoderLoop::new(decoder_for(4, &[0]), 1000 * NANOS_PER_MS, 0);
    take(&mut thread, data(0, 0, vec![frame_with_8_items(0, 1)]), 0);
    take(&mut thread, Received::Stop, 0);
    assert_eq!(thread.action(0), Action::SendBatch);
    thread.sent(SendOutcome::Sent, 0);
    assert_eq!(thread.action(0), Action::Finish);
    assert_eq!(thread.decoder().batches_out(), 1);
}

#[test]
fn a_silent_decoder_gives_a_sign_of_life() {
    let mut thread = DecoderLoop::new(decoder_for(4, &[0]), 1000 * NANOS_PER_MS, 0);
    take(&mut thread, Received::Nothing, 999 * NANOS_PER_MS);
    assert!(matches!(thread.action(999 * NANOS_PER_MS), Action::Poll { .. }));
    take(&mut thread, Received::Nothing, 1000 * NANOS_PER_MS);
    assert_eq!(thread.action(1000 * NANOS_PER_MS), Action::SendHeartbeat { counter: 0 });
    thread.sent(SendOutcome::Sent, 1000 * NANOS_PER_MS);
    assert_eq!(thread.decoder().heartbeats_out(), 1);
}

#[test]
fn a_decoder_listens_where_the_port_table_says() {
    assert_eq!(DECODER_COMMAND_LISTEN, "tcp://*:47101");
    assert_eq!(DEFAULT_HEARTBEAT_MS, 1000);
}

#[test]
fn what_is_expected_follows_from_all_that_was_done() {
    let mut c = decoder_for(4, &[0, 1]);
    c.handle_batch(0, 4, 0, &[], 0);
    c.handle_batch(0, 4, 5, &[frame_with_8_items(0, 1)], 0);
    assert_eq!((c.seq_gaps(), c.errored(), c.pending().len()), (1, true, 1));
    assert!(c.next_deadline().is_some());
    c.handle_batch(1, 4, 0, &[], 0);
    c.handle_batch(0, 4, 6, &[], 0);
    assert_eq!(c.seq_gaps(), 1);
    assert_eq!(c.handle_eos(7, 4), Emit::Nothing);
    assert_eq!(c.handle_eos(1, 4), Emit::Nothing);
    c.batch_sent();
    assert!(c.next_deadline().is_none());
    c.handle_heartbeat(0);
    assert_eq!(c.handle_eos(0, 4), Emit::FlushAndEndOfStream);
    assert_eq!((c.eos_in(), c.eos_out()), (3, 0));
    c.eos_abandoned();
    c.handle_batch(0, 5, 0, &[], 0);
    c.handle_batch(1, 5, 1, &[], 0);
    assert_eq!(c.seq_gaps(), 2);
    assert_eq!(c.handle_eos(0, 5), Emit::Nothing);
    assert_eq!(c.handle_eos(1, 5), Emit::FlushAndEndOfStream);
}

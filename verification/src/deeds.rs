//! What single functions return.
//!
//! Each law here speaks of a call: of what went in and of what came out.

use vstd::prelude::*;

use crate::command;
use crate::command::{CommandResponse, ComponentState, Metrics};
use crate::config::{Config, ConfigIds};
use crate::controller;
use crate::controller::{
    ActiveRun, ComponentStatus, ControllerParams, EccRequest, ModeView, Refusal, StopMode, TimeSpan,
};
use crate::decode;
use crate::decode::Topology;
use crate::decoder::DecoderParams;
use crate::desk;
use crate::framer;
use crate::geometry;
use crate::graw_writer::GrawWriterParams;
use crate::layout;
use crate::logbook;
use crate::logbook::{AuditEntry, AuditValue, AuditView, GeometryRecord, RunStartRecord, RunStopRecord};
use crate::msg;
use crate::msg::{Item, ItemOutOfRange};
use crate::replay;
use crate::sequencer::{StartFailure, StartReport, StopReport};
use crate::sheet;
use crate::soak;
use crate::text;
use crate::websocket;
use crate::websocket::{Handshake, WsKind};

verus! {

// ---------------------------------------------------------------------
// Frames and samples
// ---------------------------------------------------------------------

/// Peeking at a frame tells what decoding it does: the AsAd board and the event of its fragment.
pub proof fn law_peeking_agrees_with_decoding(
    frame: &[u8],
    asad: Option<u8>,
    idx: Option<u32>,
)
    requires
        call_ensures(decode::peek_asad, (frame,), asad),
        call_ensures(decode::peek_event_idx, (frame,), idx),
    ensures
        decode::verdict(frame@) matches decode::Verdict::Decoded(f) ==> asad == Some(f.asad) && idx
            == Some(f.event_idx),
        asad is Some <==> idx is Some,
        replay::event_of(frame@) == match idx {
            Some(n) => Some(n as nat),
            None => None,
        },
{
}

/// A topology frame tells in bytes 8 to 10 the CoBo, the boards that take part, and whether two
/// windows are read.
pub proof fn law_what_a_topology_frame_tells(frame: &[u8], kind: nat, t: Option<Topology>)
    requires
        call_ensures(decode::parse_topology, (frame,), t),
        frame@.len() >= 12 ==> layout::holds(frame@, 5, 7, kind) && kind < 0x1_0000,
    ensures
        t is Some <==> frame@.len() >= 12 && kind == 7,
        t matches Some(t) ==> t.cobo == frame@[8] && t.asad_mask == frame@[9] && (t.two_p_mode
            <==> frame@[10] != 0),
{
    layout::law_topology_frames_are_known(frame@, kind);
}

/// The length that a header says is read of it, unless it is shorter than the header itself.
pub proof fn law_what_a_header_says(header: &[u8], blocks: nat, n: Option<u64>)
    requires
        header@.len() >= 8,
        call_ensures(framer::parse_frame_size, (header,), n),
        blocks < 0x100_0000,
        layout::holds(header@, 1, 4, blocks),
    ensures
        ({
            let bytes = blocks * vstd::arithmetic::power2::pow2((header@[0] & 0x0F) as nat);
            &&& n is None <==> bytes < 8
            &&& n matches Some(k) ==> k == bytes
        }),
{
    layout::law_lengths_are_read(header@, blocks);
}

/// A sample is packed exactly where each of its parts fits, and taking the word apart gives it back.
pub proof fn law_packing_is_undone(
    aget: u8,
    chan: u8,
    bucket: u16,
    adc: u16,
    r: Result<u32, ItemOutOfRange>,
    item: Item,
)
    requires
        call_ensures(msg::pack_item, (aget, chan, bucket, adc), r),
        r matches Ok(w) ==> call_ensures(msg::unpack_item, (w,), item),
    ensures
        r is Ok <==> aget < 4 && chan < 128 && bucket < 512 && adc < 4096,
        r matches Ok(w) ==> item == (Item { aget, chan, bucket, adc }) && w == layout::packed(
            aget as nat,
            chan as nat,
            bucket as nat,
            adc as nat,
        ),
{
    if aget < 4 && chan < 128 && bucket < 512 && adc < 4096 {
        layout::law_words_are_taken_apart(aget, chan, bucket, adc);
    }
}

/// A signal channel has a raw channel exactly where there is such a channel.
pub proof fn law_signal_channels_are_reordered(signal_ch: u32, raw_ch: Option<u32>)
    requires
        call_ensures(geometry::reorder, (signal_ch,), raw_ch),
    ensures
        raw_ch is Some <==> signal_ch < 64,
        raw_ch matches Some(c) ==> sheet::reads_out(c as int, signal_ch as nat),
{
}

// ---------------------------------------------------------------------
// Parameters
// ---------------------------------------------------------------------

/// A decoder, a writer and a controller are started with what the configuration gives them, and the
/// first two expect the end of every CoBo's stream.
pub proof fn law_processes_get_their_settings(
    config: &Config,
    d: DecoderParams,
    w: GrawWriterParams,
    c: ControllerParams,
)
    requires
        call_ensures(DecoderParams::from_config, (config,), d),
        call_ensures(GrawWriterParams::from_config, (config,), w),
        call_ensures(ControllerParams::from_config, (config,), c),
    ensures
        d.pull_bind@ == config.decoder.pull_bind@,
        d.push_connect@ == config.decoder.push_connect@,
        d.command_listen@ == "tcp://*:47101"@,
        d.batch_max_bytes == config.decoder.batch_max_bytes,
        d.batch_max_ms == config.decoder.batch_max_ms,
        d.heartbeat_ms == 1000,
        d.send_timeout_ms == 1000,
        d.workers == config.decoder.workers,
        w.pull_bind@ == config.graw_writer.pull_bind@,
        w.command_listen@ == "tcp://*:47100"@,
        w.output_root@ == config.system.output_root@,
        w.max_file_bytes == config.graw_writer.max_file_bytes,
        w.flush_interval_ms == config.graw_writer.flush_interval_ms,
        d.expected_sources@.len() == config.cobo@.len(),
        w.expected_sources@.len() == config.cobo@.len(),
        forall|i: int|
            0 <= i < config.cobo@.len() ==> d.expected_sources@[i] == (#[trigger] config.cobo@[i]).id
                && w.expected_sources@[i] == config.cobo@[i].id,
        c.rest_listen@ == config.controller.rest_listen@,
        c.passphrase@ == config.controller.passphrase@,
        c.log_pull_bind@ == config.controller.log_pull_bind@,
        c.output_root@ == config.system.output_root@,
        c.geometry_path@ == config.system.geometry@,
        c.ecc_endpoint@ == config.controller.ecc_command@,
        c.config_ids@ == config.controller.config_id@,
        c.eos_timeout.secs == config.controller.eos_timeout_s,
        c.eos_timeout.millis == 0,
        c.eos_poll_ms == 200,
        c.command_timeout_ms == 5000,
        c.ecc_timeout_ms == 60000,
        c.status_timeout_ms == 1000,
        controller::text_of(c.router_ip) == controller::text_of(config.controller.router_ip),
        controller::text_of(c.ui_dir) == controller::text_of(config.controller.ui_dir),
        c.components@.len() == controller::components_of(*config).len(),
        c.cobos@.len() == config.cobo@.len(),
{
    assert(c.parts().len() == c.components@.len());
    assert(c.cobo_views().len() == c.cobos@.len());
}

/// A span of so many seconds has a thousand times as many milliseconds.
pub proof fn law_seconds_are_milliseconds(secs: u64, span: TimeSpan, ms: u128)
    requires
        call_ensures(TimeSpan::from_secs, (secs,), span),
        call_ensures(TimeSpan::as_millis, (span,), ms),
    ensures
        ms == 1000 * secs,
{
}

/// A timeout is handed to a socket as it is, and one that is too long as the longest.
pub proof fn law_timeouts_fit_a_socket(timeout_ms: u64, ms: i32)
    requires
        call_ensures(command::socket_timeout_ms, (timeout_ms,), ms),
    ensures
        timeout_ms <= 2_147_483_647 ==> ms == timeout_ms,
        timeout_ms > 2_147_483_647 ==> ms == 2_147_483_647,
{
}

// ---------------------------------------------------------------------
// Answers and requests
// ---------------------------------------------------------------------

/// An answer carries what it is made with, and nothing else.
pub proof fn law_answers_carry_what_they_are_given(
    state: ComponentState,
    message: &str,
    run: u32,
    metrics: Metrics,
    yes: CommandResponse,
    no: CommandResponse,
    numbered: CommandResponse,
    reporting: CommandResponse,
)
    requires
        call_ensures(CommandResponse::success, (state, message), yes),
        call_ensures(CommandResponse::error, (state, message), no),
        call_ensures(CommandResponse::with_run_number, (yes, run), numbered),
        call_ensures(CommandResponse::with_metrics, (numbered, metrics), reporting),
    ensures
        yes@.success && yes@.state == state && yes@.message == message@,
        yes@.run_number is None && yes@.metrics is None,
        !no@.success && no@.state == state && no@.message == message@,
        no@.run_number is None && no@.metrics is None,
        reporting@.success && reporting@.state == state && reporting@.message == message@,
        reporting@.run_number == Some(run) && reporting@.metrics == Some(metrics@),
{
}

/// A run is stopped in the normal way exactly where no component is in error and every one answers.
pub proof fn law_how_a_run_is_to_be_stopped(statuses: &Vec<ComponentStatus>, mode: StopMode)
    requires
        call_ensures(controller::stop_mode, (statuses,), mode),
    ensures
        mode@ is Normal <==> forall|i: int|
            0 <= i < statuses@.len() ==> !desk::fails((#[trigger] statuses@[i])@),
{
    let all = controller::status_views(statuses@);
    desk::law_failing_components_are_named(all, 0);
    assert forall|i: int| 0 <= i < statuses@.len() implies all[i] == (#[trigger] statuses@[i])@ by {}
    if mode@ is Normal {
        assert forall|i: int| 0 <= i < statuses@.len() implies !desk::fails(
            (#[trigger] statuses@[i])@,
        ) by {
            assert(!desk::fails(all[i]));
        }
    } else if forall|i: int| 0 <= i < statuses@.len() ==> !desk::fails((#[trigger] statuses@[i])@) {
        assert forall|i: int| 0 <= i < all.len() implies !desk::fails(#[trigger] all[i]) by {
            assert(all[i] == statuses@[i]@);
        }
    }
}

/// An action of the electronics is asked for with the configuration that it needs, and without any
/// where it needs none.
pub proof fn law_actions_get_their_configuration(
    ids: &ConfigIds,
    describe: EccRequest,
    prepare: EccRequest,
    start: EccRequest,
)
    requires
        call_ensures(controller::ecc_request, (ids, "describe"), describe),
        call_ensures(controller::ecc_request, (ids, "prepare"), prepare),
        call_ensures(controller::ecc_request, (ids, "start"), start),
    ensures
        describe@.action == "describe"@ && describe@.config_id == Some(ids.describe@)
            && describe@.links is None,
        prepare@.action == "prepare"@ && prepare@.config_id == Some(ids.prepare@)
            && prepare@.links is None,
        start@.action == "start"@ && start@.config_id is None && start@.links is None,
{
    crate::config::law_each_action_gets_its_own_name(ids@);
}

// ---------------------------------------------------------------------
// Records
// ---------------------------------------------------------------------

/// What is recorded of a run tells its number, its configuration, its geometry, its CoBos, who
/// started it and why, and the fragments that are expected.
pub proof fn law_what_is_recorded_of_a_start(
    params: &ControllerParams,
    run: u32,
    operator: &str,
    comment: &str,
    geometry: GeometryRecord,
    expected: Vec<(u32, u32)>,
    r: RunStartRecord,
)
    requires
        call_ensures(
            logbook::run_start_record,
            (params, run, operator, comment, geometry, expected),
            r,
        ),
    ensures
        r.run == run,
        r.operator@ == operator@,
        r.comment@ == comment@,
        r.geometry == geometry,
        r.expected_fragments == expected,
        r.config_id@ == params.config_ids.configure@,
        r.config_ids is None <==> params.config_ids.describe@ == params.config_ids.prepare@
            && params.config_ids.prepare@ == params.config_ids.configure@,
        r.config_ids matches Some(ids) ==> ids@ == params.config_ids@,
        r.cobos@.len() == params.cobos@.len(),
{
    assert(r.cobos@.map_values(|p: (u32, String)| (p.0, p.1@)).len() == r.cobos@.len());
    assert(params.cobo_views().map_values(|c: controller::CoboView| (c.id, c.listen)).len()
        == params.cobos@.len());
}

/// What is recorded of a stop is what its report tells, of the run that is on.
pub proof fn law_what_is_recorded_of_a_stop(
    active: &Option<ActiveRun>,
    report: StopReport,
    r: RunStopRecord,
)
    requires
        call_ensures(logbook::run_stop_record, (active, report), r),
    ensures
        active matches Some(a) ==> r.run == a.run,
        active is None ==> r.run == 0,
        r.ok == report.ok,
        r.reason == report.reason,
        r.counters == report.counters,
        r.files == report.files,
{
}

/// The entry of a run that has started names its number, its comment, its links, the components that
/// had to be told to arm again, and how the electronics were led back.
pub proof fn law_what_is_entered_of_a_started_run(
    report: StartReport,
    comment: &str,
    operator: &str,
    e: AuditEntry,
)
    requires
        call_ensures(logbook::run_started, (report, comment, operator), e),
    ensures
        e@.action == "run/start"@,
        e@.operator == operator@,
        e@.ok && e@.error is None,
        e@.params.len() == 6,
        e@.params[0] == ("run"@, AuditView::Uint(report.run as u64)),
        e@.params[1] == ("comment"@, AuditView::Text(comment@)),
        e@.params[2].0 == "links"@,
        e@.params[2].1 matches AuditView::Links(l) && l.len() == report.links@.len(),
        e@.params[3].0 == "arm_retries"@,
        e@.params[3].1 matches AuditView::Retries(l) && l.len() == report.arm_retries@.len(),
        e@.params[4] == (
            "ecc_state_after_reset"@,
            AuditView::Text(report.ecc_state_after_reset@),
        ),
        e@.params[5] == ("ecc_walk_back"@, AuditView::Texts(text::values(report.ecc_walk_back@))),
{
}

/// The entry of a run that was not started names its number, its comment, what failed, and whether
/// the number was given back; without a number, only the comment and the reason.
pub proof fn law_what_is_entered_of_a_failed_run(
    failure: &StartFailure,
    run: u32,
    comment: &str,
    rewound: bool,
    operator: &str,
    detail: &str,
    e: AuditEntry,
    early: AuditEntry,
)
    requires
        call_ensures(logbook::run_not_started, (failure, run, comment, rewound, operator), e),
        call_ensures(logbook::run_not_numbered, (detail, comment, operator), early),
    ensures
        e@.action == "run/start"@ && e@.operator == operator@ && !e@.ok,
        e@.error == Some(failure@.text()),
        e@.params == seq![
            ("run"@, AuditView::Uint(run as u64)),
            ("comment"@, AuditView::Text(comment@)),
            ("stage"@, AuditView::Text(failure.stage@)),
            ("next_run_rewound"@, AuditView::Bool(rewound)),
        ],
        early@.action == "run/start"@ && early@.operator == operator@ && !early@.ok,
        early@.error == Some(detail@),
        early@.params == seq![("comment"@, AuditView::Text(comment@))],
{
}

/// The entry of a run that was stopped names its number, why it ended, whether its streams were made
/// to end, and whether they were seen to have ended; its notes are told as an error.
pub proof fn law_what_is_entered_of_a_stopped_run(
    report: &StopReport,
    run: u32,
    operator: &str,
    e: AuditEntry,
)
    requires
        call_ensures(logbook::run_stopped, (report, run, operator), e),
    ensures
        e@.action == "run/stop"@ && e@.operator == operator@ && e@.ok == report.ok,
        e@.params == seq![
            ("run"@, AuditView::Uint(run as u64)),
            ("reason"@, AuditView::Text(report.reason@)),
            ("forced_eos"@, AuditView::Bool(report.forced_eos)),
            ("eos_closed"@, AuditView::Bool(report.eos_closed)),
        ],
        report.notes@.len() == 0 ==> e@.error is None,
        report.notes@.len() > 0 ==> e@.error == Some(
            text::join(text::values(report.notes@), "; "@),
        ),
{
}

/// The entry of a request that is turned down names the operator, unless the token did not count.
pub proof fn law_what_is_entered_of_a_refusal(
    action: &str,
    params: Vec<(String, AuditValue)>,
    operator: &str,
    refusal: &Refusal,
    e: AuditEntry,
)
    requires
        call_ensures(logbook::refused, (action, params, operator, refusal), e),
    ensures
        e@.action == action@,
        e@.params == logbook::param_views(params@),
        !e@.ok,
        e@.error == Some(refusal@.why_of()),
        e@.operator == if refusal is Unauthorized {
            "<unauthorized>"@
        } else {
            operator@
        },
{
}

// ---------------------------------------------------------------------
// The endurance test
// ---------------------------------------------------------------------

/// The free space is too little exactly where it is known and has fewer kibibytes than the gibibytes
/// that are never used.
pub proof fn law_when_the_disk_is_too_full(free_kib: Option<u64>, min_free_gib: u64, r: bool)
    requires
        call_ensures(soak::below_floor, (free_kib, min_free_gib), r),
    ensures
        r <==> (free_kib matches Some(kib) && kib < min_free_gib * 1048576),
{
}

/// A run is the last where the test is interrupted or told to stop, or has made as many as wanted.
pub proof fn law_which_run_is_the_last(
    index: u64,
    max_runs: Option<u64>,
    interrupted: bool,
    stop: bool,
    r: bool,
)
    requires
        call_ensures(soak::is_last_run, (index, max_runs, interrupted, stop), r),
    ensures
        interrupted || stop ==> r,
        !interrupted && !stop ==> (r <==> (max_runs matches Some(n) && index >= n)),
{
}

/// The laps that bytes are and the bytes that laps have agree.
pub proof fn law_laps_are_counted(bytes: u64, r: Result<u64, String>)
    requires
        call_ensures(soak::count_laps, (bytes,), r),
    ensures
        r is Ok <==> bytes > 0 && bytes % 30_108_684 == 0,
        r matches Ok(laps) ==> laps * 30_108_684 == bytes,
{
}

/// What is no number of laps is told: that not one was sent, or how many bytes were.
pub proof fn law_missing_laps_are_told(bytes: u64, r: Result<u64, String>)
    requires
        call_ensures(soak::count_laps, (bytes,), r),
    ensures
        bytes == 0 ==> (r matches Err(s) && s@
            == "1 周も送れていない(--run-minutes が短すぎる)"@),
        bytes > 0 && bytes % 30_108_684 != 0 ==> (r matches Err(s) && s@
            == "graw_replay が lap 境界で止まっていない: "@ + text::decimal(bytes as nat)
            + " B は 30108684 B の整数倍でない"@),
{
}

/// The configuration of the test gives the folder as the output and the geometry as the geometry.
pub proof fn law_the_test_is_configured(output_root: &str, geometry: &str, s: String)
    requires
        call_ensures(soak::config_toml, (output_root, geometry), s),
    ensures
        ({
            let front =
                "# soak_harness が生成(手で直さない)。\n[system]\nexperiment = \"mini_eTPC (soak)\"\noutput_root = \""@;
            text::begins(s@, front + output_root@ + "\"\ngeometry = \""@ + geometry@)
        }),
{
    let front =
        "# soak_harness が生成(手で直さない)。\n[system]\nexperiment = \"mini_eTPC (soak)\"\noutput_root = \""@;
    let told = front + output_root@ + "\"\ngeometry = \""@ + geometry@;
    assert(s@.take(told.len() as int) =~= told);
}

/// An answer of a web server has its code in its second word, and its body behind the first empty
/// line.
pub proof fn law_what_a_web_server_answers(
    answer: &str,
    code: u16,
    i: int,
    r: Option<(u16, String)>,
)
    requires
        call_ensures(soak::split_response, (answer,), r),
        text::words(answer@).len() >= 2,
        text::unsigned(text::words(answer@)[1]) == Some(code as nat),
        text::first_place(answer@, "\r\n\r\n"@, 0) == Some(i),
    ensures
        r matches Some(p) && p.0 == code && p.1@ == answer@.skip(i + 4),
{
}

/// What is missing is named, and nothing is where nothing is missing.
pub proof fn law_what_is_not_set_is_named(unset: &Vec<String>, r: Result<(), String>)
    requires
        call_ensures(soak::check_unset, (unset,), r),
    ensures
        r is Ok <==> unset@.len() == 0,
        r matches Err(s) ==> s@ == "未設定の env = "@ + text::join(text::values(unset@), ", "@),
{
}

/// The answer to a handshake is complete where it ends with an empty line, and too long where it has
/// more than 8192 bytes.
pub proof fn law_when_a_handshake_is_complete(header: &Vec<u8>, r: Handshake)
    requires
        call_ensures(websocket::handshake, (header,), r),
    ensures
        r == Handshake::TooLong <==> header@.len() > 8192,
        r == Handshake::Complete <==> 4 <= header@.len() <= 8192 && header@.skip(
            header@.len() - 4,
        ) == seq![13u8, 10u8, 13u8, 10u8],
{
}

/// A handshake is accepted exactly where the answer begins with the code for it.
pub proof fn law_when_a_handshake_is_accepted(answer: &str, r: Result<(), String>)
    requires
        call_ensures(websocket::check_upgrade, (answer,), r),
    ensures
        r is Ok <==> text::begins(answer@, "HTTP/1.1 101"@),
{
}

/// Messages of number 1 are text, of number 2 binary, and of number 8 close the connection.
pub proof fn law_what_a_message_is_for(opcode: u8, kind: WsKind)
    requires
        call_ensures(websocket::ws_kind, (opcode,), kind),
    ensures
        kind == WsKind::Text <==> opcode == 1,
        kind == WsKind::Binary <==> opcode == 2,
        kind == WsKind::Close <==> opcode == 8,
{
}

} // verus!

//! What a controller makes of what its components report, and who may ask it for what.

use vstd::prelude::*;

use crate::command;
use crate::command::{ComponentState, FileView, MetricView};
use crate::config::Config;
use crate::controller;
use crate::controller::{
    CoboView, ComponentKind, ControlView, EndpointView, LinkView, OutputView, Phase, RefusalView,
    StatusView,
};
use crate::text;

verus! {

/// What a report gives under a key is the first value that it holds under it.
pub proof fn law_the_first_value_counts(report: Seq<(Seq<char>, MetricView)>, key: Seq<char>, k: int)
    requires
        0 <= k <= report.len(),
        forall|j: int| 0 <= j < k ==> (#[trigger] report[j]).0 != key,
        k < report.len() ==> report[k].0 == key,
    ensures
        command::metric(report, key) == if k < report.len() {
            Some(report[k].1)
        } else {
            None
        },
    decreases report.len(),
{
    if k > 0 {
        assert(report[0].0 != key);
        let rest = report.drop_first();
        assert forall|j: int| 0 <= j < k - 1 implies (#[trigger] rest[j]).0 != key by {
            assert(rest[j] == report[j + 1]);
        }
        law_the_first_value_counts(rest, key, k - 1);
    }
}

// ---------------------------------------------------------------------
// Data links
// ---------------------------------------------------------------------

/// A data link leads to the port that the receiver reports, if that is a port; it is the link of
/// the CoBo that was asked for; and it leads to the configured address where there is one.
pub proof fn law_a_link_leads_to_its_receiver(
    configured: Option<Seq<char>>,
    cobo_id: u32,
    report: Seq<(Seq<char>, MetricView)>,
)
    ensures
        ({
            let link = controller::link_of(configured, cobo_id, Some(report));
            &&& link is Some <==> (command::metric(report, "router_port"@) matches Some(
                MetricView::Uint(p),
            ) && p <= 65535)
            &&& link matches Some(l) ==> {
                &&& l.cobo_id == cobo_id
                &&& command::metric(report, "router_port"@) == Some(
                    MetricView::Uint(l.router_port as u64),
                )
                &&& configured matches Some(ip) ==> l.router_ip == ip
                &&& configured is None && !(command::metric(
                    report,
                    "bind_address"@,
                ) is Some) ==> l.router_ip == "127.0.0.1"@
                &&& configured is None ==> (command::metric(report, "bind_address"@) matches Some(
                    MetricView::Text(address),
                ) ==> l.router_ip == controller::router_ip_of(None, Some(address)))
            }
        }),
        controller::link_of(configured, cobo_id, None) is None,
{
}

proof fn lemma_last_colon(host: Seq<char>, port: Seq<char>)
    requires
        !port.contains(':'),
    ensures
        controller::last_at(host + seq![':'] + port, ':') == host.len(),
    decreases port.len(),
{
    let s = host + seq![':'] + port;
    if port.len() == 0 {
        assert(s.last() == ':');
    } else {
        assert(s.last() == port.last());
        assert(port[port.len() - 1] != ':') by {
            if port[port.len() - 1] == ':' {
                assert(port.contains(':'));
            }
        }
        assert(s.drop_last() =~= host + seq![':'] + port.drop_last());
        assert(!port.drop_last().contains(':')) by {
            if port.drop_last().contains(':') {
                let i = choose|i: int| 0 <= i < port.drop_last().len() && port.drop_last()[i] == ':';
                assert(port[i] == ':');
            }
        }
        lemma_last_colon(host, port.drop_last());
    }
}

/// A receiver that is bound to every address, or to none that can be told, is reached at this
/// machine; one that is bound to an address is reached there.
pub proof fn law_where_a_receiver_is_reached(host: Seq<char>, port: Seq<char>)
    requires
        !port.contains(':'),
        host.len() > 0 ==> !controller::is_bracket(host.first()) && !controller::is_bracket(
            host.last(),
        ),
    ensures
        ({
            let ip = controller::router_ip_of(None, Some(host + seq![':'] + port));
            if host.len() == 0 || host == "0.0.0.0"@ || host == "*"@ || host == "::"@ {
                ip == "127.0.0.1"@
            } else {
                ip == host
            }
        }),
{
    lemma_last_colon(host, port);
    assert((host + seq![':'] + port).take(host.len() as int) =~= host);
}

/// Every CoBo is told about its data link: the link's address and port, as a link over TCP, under
/// the name that the electronics have for the CoBo.
pub proof fn law_every_link_is_told(cobos: Seq<CoboView>, links: Seq<LinkView>, k: int)
    requires
        0 <= k < links.len(),
    ensures
        controller::items_of(cobos, links).len() == links.len(),
        ({
            let item = controller::items_of(cobos, links)[k];
            &&& item.sender == controller::sender_of(cobos, links[k].cobo_id)
            &&& item.router_ip == links[k].router_ip
            &&& item.router_port == links[k].router_port
            &&& item.flow_type == "TCP"@
        }),
{
}

/// The electronics have for a CoBo the name that its first entry gives, and for one that has no
/// entry the usual one.
pub proof fn law_names_of_cobos(cobos: Seq<CoboView>, id: u32, k: int)
    requires
        0 <= k <= cobos.len(),
        forall|j: int| 0 <= j < k ==> (#[trigger] cobos[j]).id != id,
        k < cobos.len() ==> cobos[k].id == id,
    ensures
        controller::sender_of(cobos, id) == if k < cobos.len() {
            cobos[k].data_sender_id
        } else {
            seq!['C', 'o', 'B', 'o', '['] + text::decimal(id as nat) + seq![']']
        },
    decreases cobos.len(),
{
    if cobos.len() == 0 {
        reveal_strlit("CoBo[");
        reveal_strlit("]");
        assert("CoBo["@ =~= seq!['C', 'o', 'B', 'o', '[']);
        assert("]"@ =~= seq![']']);
    } else if k > 0 {
        assert(cobos[0].id != id);
        let rest = cobos.drop_first();
        assert forall|j: int| 0 <= j < k - 1 implies (#[trigger] rest[j]).id != id by {
            assert(rest[j] == cobos[j + 1]);
        }
        law_names_of_cobos(rest, id, k - 1);
    }
}

// ---------------------------------------------------------------------
// Counters and files
// ---------------------------------------------------------------------

/// What a component reports under a key, as a number; 0 where it reports none.
pub open spec fn says(status: StatusView, key: Seq<char>) -> u64 {
    match status.metrics {
        Some(m) => match command::metric(m, key) {
            Some(MetricView::Uint(n)) => n,
            _ => 0,
        },
        None => 0,
    }
}

/// Whether a status is of the receiver of a CoBo.
pub open spec fn is_receiver_of(status: StatusView, cobo: u32) -> bool {
    status.kind == (ComponentKind::Receiver { cobo_id: cobo })
}

/// The frames of a CoBo are those that its receiver reports, the last one if there are several; a
/// CoBo without a receiver has none.
pub proof fn law_frames_are_those_of_the_receiver(
    statuses: Seq<StatusView>,
    cobos: Seq<CoboView>,
    cobo: u32,
    k: int,
)
    requires
        -1 <= k < statuses.len(),
        forall|j: int| k < j < statuses.len() ==> !is_receiver_of(#[trigger] statuses[j], cobo),
        k >= 0 ==> is_receiver_of(statuses[k], cobo),
    ensures
        ({
            let counts = controller::with_cobos(controller::reported_frames(statuses), cobos);
            &&& k >= 0 ==> counts.contains_key(cobo as u64) && counts[cobo as u64] == says(
                statuses[k],
                "frames"@,
            )
            &&& k < 0 ==> (counts.contains_key(cobo as u64) <==> exists|i: int|
                0 <= i < cobos.len() && (#[trigger] cobos[i]).id == cobo)
            &&& k < 0 && counts.contains_key(cobo as u64) ==> counts[cobo as u64] == 0
        }),
{
    lemma_reported(statuses, cobo, k);
    lemma_with_cobos(controller::reported_frames(statuses), cobos, cobo);
}

proof fn lemma_reported(statuses: Seq<StatusView>, cobo: u32, k: int)
    requires
        -1 <= k < statuses.len(),
        forall|j: int| k < j < statuses.len() ==> !is_receiver_of(#[trigger] statuses[j], cobo),
        k >= 0 ==> is_receiver_of(statuses[k], cobo),
    ensures
        ({
            let counts = controller::reported_frames(statuses);
            &&& counts.contains_key(cobo as u64) <==> k >= 0
            &&& k >= 0 ==> counts[cobo as u64] == says(statuses[k], "frames"@)
        }),
    decreases statuses.len(),
{
    if statuses.len() > 0 && k < statuses.len() - 1 {
        let before = statuses.drop_last();
        assert(!is_receiver_of(statuses[statuses.len() - 1], cobo));
        assert forall|j: int| k < j < before.len() implies !is_receiver_of(
            #[trigger] before[j],
            cobo,
        ) by {
            assert(before[j] == statuses[j]);
        }
        lemma_reported(before, cobo, k);
    }
}

proof fn lemma_with_cobos(counts: Map<u64, u64>, cobos: Seq<CoboView>, cobo: u32)
    ensures
        ({
            let all = controller::with_cobos(counts, cobos);
            &&& counts.contains_key(cobo as u64) ==> all.contains_key(cobo as u64)
                && all[cobo as u64] == counts[cobo as u64]
            &&& !counts.contains_key(cobo as u64) ==> (all.contains_key(cobo as u64)
                <==> exists|i: int| 0 <= i < cobos.len() && (#[trigger] cobos[i]).id == cobo)
            &&& !counts.contains_key(cobo as u64) && all.contains_key(cobo as u64)
                ==> all[cobo as u64] == 0
        }),
    decreases cobos.len(),
{
    if cobos.len() > 0 {
        let before = cobos.drop_last();
        lemma_with_cobos(counts, before, cobo);
        let all = controller::with_cobos(counts, cobos);
        if exists|i: int| 0 <= i < before.len() && (#[trigger] before[i]).id == cobo {
            let i = choose|i: int| 0 <= i < before.len() && (#[trigger] before[i]).id == cobo;
            assert(cobos[i].id == cobo);
        }
        if cobos.last().id == cobo {
            assert(cobos[cobos.len() - 1].id == cobo);
        }
        assert forall|i: int| 0 <= i < cobos.len() && (#[trigger] cobos[i]).id == cobo
            && i < before.len() implies before[i].id == cobo by {}
    }
}

/// One more status adds to the frames without room what a receiver reports of them, and to the
/// malformed frames what a decoder does; nothing else adds to either.
pub proof fn law_what_a_status_adds(statuses: Seq<StatusView>, s: StatusView)
    ensures
        controller::overflow_total(Seq::empty()) == 0,
        controller::malformed_total(Seq::empty()) == 0,
        controller::overflow_total(statuses.push(s)) == controller::overflow_total(statuses) + (
        match s.kind {
            ComponentKind::Receiver { .. } => says(s, "overflow_frames"@) as nat,
            _ => 0nat,
        }),
        controller::malformed_total(statuses.push(s)) == controller::malformed_total(statuses) + (
        match s.kind {
            ComponentKind::Decoder => says(s, "malformed"@) as nat,
            _ => 0nat,
        }),
{
    assert(statuses.push(s).drop_last() =~= statuses);
}

/// Whether a component lists a file of this path and length.
pub open spec fn lists(status: StatusView, path: Seq<char>, bytes: u64) -> bool {
    status.kind is GrawWriter && (status.metrics matches Some(m) && (command::metric(
        m,
        "files"@,
    ) matches Some(MetricView::Files(entries)) && exists|i: int|
        0 <= i < entries.len() && is_entry(#[trigger] entries[i], path, bytes)))
}

/// Whether an entry gives this path and this length.
pub open spec fn is_entry(entry: FileView, path: Seq<char>, bytes: u64) -> bool {
    entry.path == Some(path) && entry.bytes == Some(bytes)
}

proof fn lemma_complete(entries: Seq<FileView>, path: Seq<char>, bytes: u64)
    ensures
        controller::complete_files(entries).contains(OutputView { path, bytes }) <==> exists|i: int|
            0 <= i < entries.len() && is_entry(#[trigger] entries[i], path, bytes),
    decreases entries.len(),
{
    let f = OutputView { path, bytes };
    let all = controller::complete_files(entries);
    if entries.len() > 0 {
        let before = entries.drop_last();
        let old = controller::complete_files(before);
        lemma_complete(before, path, bytes);
        if exists|i: int| 0 <= i < entries.len() && is_entry(#[trigger] entries[i], path, bytes) {
            let i = choose|i: int|
                0 <= i < entries.len() && is_entry(#[trigger] entries[i], path, bytes);
            if i < before.len() {
                assert(is_entry(before[i], path, bytes));
                let j = old.index_of(f);
                assert(all[j] == f);
            } else {
                assert(all[old.len() as int] == f);
            }
        }
        if all.contains(f) {
            let j = choose|j: int| 0 <= j < all.len() && all[j] == f;
            if j < old.len() {
                assert(old[j] == f);
                let i = choose|i: int|
                    0 <= i < before.len() && is_entry(#[trigger] before[i], path, bytes);
                assert(is_entry(entries[i], path, bytes));
            } else {
                assert(is_entry(entries[entries.len() - 1], path, bytes));
            }
        }
    }
}

/// The files of a run are those that a writer of raw data lists with path and length, and no
/// others.
pub proof fn law_files_are_those_listed(statuses: Seq<StatusView>, path: Seq<char>, bytes: u64)
    ensures
        controller::files_of(statuses).contains(OutputView { path, bytes }) <==> exists|i: int|
            0 <= i < statuses.len() && lists(#[trigger] statuses[i], path, bytes),
    decreases statuses.len(),
{
    let f = OutputView { path, bytes };
    let all = controller::files_of(statuses);
    if statuses.len() > 0 {
        let before = statuses.drop_last();
        let old = controller::files_of(before);
        let new = controller::files_listed(statuses.last());
        law_files_are_those_listed(before, path, bytes);
        if let Some(m) = statuses.last().metrics {
            if let Some(MetricView::Files(entries)) = command::metric(m, "files"@) {
                lemma_complete(entries, path, bytes);
            }
        }
        assert(new.contains(f) <==> lists(statuses.last(), path, bytes));
        if all.contains(f) {
            let j = choose|j: int| 0 <= j < all.len() && all[j] == f;
            if j < old.len() {
                assert(old[j] == f);
                let i = choose|i: int| 0 <= i < before.len() && lists(#[trigger] before[i], path, bytes);
                assert(lists(statuses[i], path, bytes));
            } else {
                assert(new[j - old.len()] == f);
                assert(lists(statuses[statuses.len() - 1], path, bytes));
            }
        }
        if exists|i: int| 0 <= i < statuses.len() && lists(#[trigger] statuses[i], path, bytes) {
            let i = choose|i: int|
                0 <= i < statuses.len() && lists(#[trigger] statuses[i], path, bytes);
            if i < before.len() {
                assert(lists(before[i], path, bytes));
                let j = old.index_of(f);
                assert(all[j] == f);
            } else {
                let j = new.index_of(f);
                assert(all[old.len() + j] == f);
            }
        }
    }
}

/// Whether a component keeps a run from being stopped in the normal way.
pub open spec fn fails(status: StatusView) -> bool {
    status.state == Some(ComponentState::Error) || !status.reachable
}

/// A run is stopped in the normal way exactly where no component is in error and every one answers.
pub proof fn law_failing_components_are_named(statuses: Seq<StatusView>, k: int)
    ensures
        controller::broken(statuses).len() == 0 <==> forall|i: int|
            0 <= i < statuses.len() ==> !fails(#[trigger] statuses[i]),
        0 <= k < statuses.len() && fails(statuses[k]) ==> controller::broken(statuses).contains(
            statuses[k].name,
        ),
        controller::broken(statuses).len() <= statuses.len(),
    decreases statuses.len(),
{
    if statuses.len() > 0 {
        let before = statuses.drop_last();
        law_failing_components_are_named(before, k);
        let all = controller::broken(statuses);
        let old = controller::broken(before);
        if 0 <= k < statuses.len() && fails(statuses[k]) {
            if k < before.len() {
                assert(before[k] == statuses[k]);
                let j = old.index_of(statuses[k].name);
                assert(all[j] == statuses[k].name);
            } else {
                assert(all[old.len() as int] == statuses[k].name);
            }
        }
        if all.len() == 0 {
            assert forall|i: int| 0 <= i < statuses.len() implies !fails(#[trigger] statuses[i]) by {
                if i < before.len() {
                    assert(!fails(before[i]));
                }
            }
        } else if forall|i: int| 0 <= i < statuses.len() ==> !fails(#[trigger] statuses[i]) {
            assert(!fails(statuses[statuses.len() - 1]));
            assert forall|i: int| 0 <= i < before.len() implies !fails(#[trigger] before[i]) by {
                assert(before[i] == statuses[i]);
            }
        }
    }
}

// ---------------------------------------------------------------------
// Requests
// ---------------------------------------------------------------------

/// Whether a token is the one of the operator.
pub open spec fn counts(control: ControlView, token: Seq<char>) -> bool {
    control.session matches Some((current, _)) && current == token
}

/// Whether a request is answered with this code.
pub open spec fn is_answered(refusal: Option<RefusalView>, code: u16) -> bool {
    refusal matches Some(r) && r.code_of() == code
}

/// What a request needs. Without the operator's token every request is answered with 401. With it, a
/// run can be started only where the controller is idle, and stopped only where one is on, else the
/// answer is 409; a number of the next run has to be positive and to fit, else it is 400, and can be
/// set only where the controller is idle; and an action has to be known, else it is 400.
pub proof fn law_what_a_request_needs(
    control: ControlView,
    token: Seq<char>,
    next_run: Option<u64>,
    shown: Seq<char>,
    action: Seq<char>,
)
    ensures
        control.objection(token) is None <==> counts(control, token),
        !counts(control, token) ==> is_answered(control.start_refusal(token), 401) && is_answered(
            control.stop_refusal(token),
            401,
        ) && is_answered(control.next_refusal(token, next_run, shown), 401) && is_answered(
            control.ecc_refusal(token, action),
            401,
        ),
        counts(control, token) ==> {
            let is_number = next_run matches Some(n) && 0 < n <= 0xFFFF_FFFF;
            &&& control.start_refusal(token) is None <==> control.phase == Phase::Idle
            &&& control.phase != Phase::Idle ==> is_answered(control.start_refusal(token), 409)
            &&& control.stop_refusal(token) is None <==> control.phase == Phase::Running
            &&& control.phase != Phase::Running ==> is_answered(control.stop_refusal(token), 409)
            &&& control.next_refusal(token, next_run, shown) is None <==> is_number && control.phase
                == Phase::Idle
            &&& !is_number ==> is_answered(control.next_refusal(token, next_run, shown), 400)
            &&& is_number && control.phase != Phase::Idle ==> is_answered(
                control.next_refusal(token, next_run, shown),
                409,
            )
            &&& control.ecc_refusal(token, action) is None <==> (action == "describe"@ || action
                == "prepare"@ || action == "configure"@ || action == "start"@ || action == "stop"@
                || action == "breakup"@ || action == "reset"@)
            &&& control.ecc_refusal(token, action) is Some ==> is_answered(
                control.ecc_refusal(token, action),
                400,
            )
        },
        RefusalView::Forbidden(shown).code_of() == 403,
{
}

// ---------------------------------------------------------------------
// Components
// ---------------------------------------------------------------------

/// The components that a configuration names stand from the end of the data stream to its
/// beginning: the writer of raw data, the decoder, and behind them the receivers in the order of
/// their CoBos, each with the endpoint that the configuration gives it.
pub proof fn law_components_stand_in_order(config: Config, k: int)
    requires
        0 <= k < config.cobo@.len(),
        config.cobo@.len() == config.controller.receiver_commands@.len(),
    ensures
        ({
            let parts = controller::components_of(config);
            &&& parts.len() == 2 + config.cobo@.len()
            &&& parts[0] == (EndpointView {
                name: "graw-writer"@,
                endpoint: config.controller.graw_writer_command@,
                kind: ComponentKind::GrawWriter,
            })
            &&& parts[1] == (EndpointView {
                name: "decoder"@,
                endpoint: config.controller.decoder_command@,
                kind: ComponentKind::Decoder,
            })
            &&& parts[2 + k].endpoint == config.controller.receiver_commands@[k]@
            &&& parts[2 + k].kind == (ComponentKind::Receiver { cobo_id: config.cobo@[k].id })
            &&& parts[2 + k].name == "receiver"@ + text::decimal(config.cobo@[k].id as nat)
        }),
        ({
            let cobos = controller::cobos_of(config.cobo@);
            &&& cobos.len() == config.cobo@.len()
            &&& cobos[k].id == config.cobo@[k].id
            &&& cobos[k].listen == config.cobo@[k].listen@
            &&& cobos[k].data_sender_id == config.cobo@[k].data_sender_id@
        }),
{
}

/// An address in square brackets is used without them.
pub proof fn law_brackets_are_left_out(host: Seq<char>, port: Seq<char>)
    requires
        !port.contains(':'),
        host.len() > 0,
        !controller::is_bracket(host.first()),
        !controller::is_bracket(host.last()),
        host != "0.0.0.0"@,
        host != "*"@,
        host != "::"@,
    ensures
        controller::router_ip_of(None, Some(seq!['['] + host + seq![']'] + seq![':'] + port)) == host,
{
    let boxed = seq!['['] + host + seq![']'];
    lemma_last_colon(boxed, port);
    assert((boxed + seq![':'] + port).take(boxed.len() as int) =~= boxed);
    assert(boxed.drop_first() =~= host + seq![']']);
    assert((host + seq![']']).drop_last() =~= host);
    assert((host + seq![']']).first() == host.first());
    assert(controller::unbracketed(host) == host);
    assert(controller::unbracketed(host + seq![']']) == host);
}

/// Why a request is refused is said: that nobody holds the token, that it is not the one that
/// counts, or what the controller is at.
pub proof fn law_why_requests_are_refused(
    control: ControlView,
    token: Seq<char>,
    n: u64,
    shown: Seq<char>,
    action: Seq<char>,
)
    ensures
        control.session is None ==> control.objection(token) == Some(
            "no operator holds the control token"@,
        ),
        control.session is Some && !counts(control, token) ==> control.objection(token) == Some(
            "stale or unknown token"@,
        ),
        counts(control, token) && control.phase == Phase::Starting ==> control.start_refusal(token)
            == Some(RefusalView::Conflict("controller is "@ + "Starting"@ + " — not Idle"@)),
        counts(control, token) && control.phase == Phase::Running ==> control.start_refusal(token)
            == Some(RefusalView::Conflict("controller is "@ + "Running"@ + " — not Idle"@)),
        counts(control, token) && control.phase == Phase::Stopping ==> control.start_refusal(token)
            == Some(RefusalView::Conflict("controller is "@ + "Stopping"@ + " — not Idle"@)),
        counts(control, token) && control.phase == Phase::Idle ==> control.stop_refusal(token)
            == Some(RefusalView::Conflict("controller is "@ + "Idle"@ + " — no run to stop"@)),
        counts(control, token) ==> control.next_refusal(token, None, shown) == Some(
            RefusalView::BadRequest("next_run must be a positive integer, got "@ + shown),
        ),
        counts(control, token) && !controller::is_ecc_action(action) ==> control.ecc_refusal(
            token,
            action,
        ) == Some(RefusalView::BadRequest("unknown ecc action: "@ + action)),
{
}

} // verus!

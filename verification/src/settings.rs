//! What a configuration comes to, and which one is valid.

use vstd::prelude::*;

use crate::config;
use crate::config::{Config, ErrorView, RawConfig, ReceiverConfig};
use crate::text;

verus! {

/// What is written of the receivers, the writer of raw data and the decoder counts; what is left
/// out has its usual value.
pub proof fn law_what_is_written_counts(raw: RawConfig, c: Config)
    requires
        config::filled(raw, c),
    ensures
        c.receiver.batch_max_bytes == match raw.receiver.batch_max_bytes {
            Some(n) => n,
            None => 8_388_608,
        },
        c.receiver.batch_max_ms == match raw.receiver.batch_max_ms {
            Some(n) => n,
            None => 10,
        },
        c.receiver.queue_frames == match raw.receiver.queue_frames {
            Some(n) => n,
            None => 512,
        },
        c.receiver.heartbeat_ms == match raw.receiver.heartbeat_ms {
            Some(n) => n,
            None => 1000,
        },
        c.receiver.hwm == match raw.receiver.hwm {
            Some(n) => n,
            None => 1000,
        },
        c.receiver.graw_writer_endpoint@ == match raw.receiver.graw_writer_endpoint {
            Some(s) => s@,
            None => "tcp://127.0.0.1:47001"@,
        },
        c.receiver.decoder_endpoint@ == match raw.receiver.decoder_endpoint {
            Some(s) => s@,
            None => "tcp://127.0.0.1:47002"@,
        },
        c.graw_writer.pull_bind@ == match raw.graw_writer.pull_bind {
            Some(s) => s@,
            None => "tcp://*:47001"@,
        },
        c.graw_writer.max_file_bytes == match raw.graw_writer.max_file_bytes {
            Some(n) => n,
            None => 1_073_741_824,
        },
        c.graw_writer.flush_interval_ms == match raw.graw_writer.flush_interval_ms {
            Some(n) => n,
            None => 1000,
        },
        c.decoder.workers == raw.decoder.workers,
        c.decoder.pull_bind@ == match raw.decoder.pull_bind {
            Some(s) => s@,
            None => "tcp://*:47002"@,
        },
        c.decoder.push_connect@ == match raw.decoder.push_connect {
            Some(s) => s@,
            None => "tcp://127.0.0.1:47003"@,
        },
        c.decoder.batch_max_bytes == match raw.decoder.batch_max_bytes {
            Some(n) => n,
            None => 8_388_608,
        },
        c.decoder.batch_max_ms == match raw.decoder.batch_max_ms {
            Some(n) => n,
            None => 10,
        },
        c.system == raw.system,
        c.root_sink == raw.root_sink,
{
}

/// What is written of the monitor and the controller counts; what is left out has its usual value,
/// and the monitor's geometry is then the system's.
pub proof fn law_what_is_written_of_the_controller_counts(raw: RawConfig, c: Config)
    requires
        config::filled(raw, c),
    ensures
        c.monitor.geometry@ == match raw.monitor.geometry {
            Some(s) => s@,
            None => raw.system.geometry@,
        },
        c.monitor.ws_listen@ == match raw.monitor.ws_listen {
            Some(s) => s@,
            None => "0.0.0.0:9000"@,
        },
        c.monitor.sub_endpoint@ == match raw.monitor.sub_endpoint {
            Some(s) => s@,
            None => "tcp://127.0.0.1:47004"@,
        },
        c.monitor.live_queue == match raw.monitor.live_queue {
            Some(n) => n,
            None => 64,
        },
        c.controller.rest_listen@ == match raw.controller.rest_listen {
            Some(s) => s@,
            None => "0.0.0.0:8080"@,
        },
        c.controller.log_pull_bind@ == match raw.controller.log_pull_bind {
            Some(s) => s@,
            None => "tcp://*:47005"@,
        },
        c.controller.eos_timeout_s == match raw.controller.eos_timeout_s {
            Some(n) => n,
            None => 5,
        },
        c.controller.eos_quiesce_ms == match raw.controller.eos_quiesce_ms {
            Some(n) => n,
            None => 500,
        },
        c.controller.graw_writer_command@ == match raw.controller.graw_writer_command {
            Some(s) => s@,
            None => "tcp://127.0.0.1:47100"@,
        },
        c.controller.decoder_command@ == match raw.controller.decoder_command {
            Some(s) => s@,
            None => "tcp://127.0.0.1:47101"@,
        },
        c.controller.ecc_command@ == match raw.controller.ecc_command {
            Some(s) => s@,
            None => "tcp://127.0.0.1:47200"@,
        },
        c.controller.passphrase == raw.controller.passphrase,
        c.controller.ecc_proxy == raw.controller.ecc_proxy,
        c.controller.ui_dir == raw.controller.ui_dir,
        c.controller.router_ip == raw.controller.router_ip,
        c.controller.config_id@ == raw.controller.config_id@,
{
}

/// Every CoBo keeps its number and its name. Where its address is left out, its receiver listens
/// at a port of its own; and where the addresses of the receivers are left out, each takes commands
/// at a port of its own.
pub proof fn law_every_cobo_is_filled_in(raw: RawConfig, c: Config, k: int)
    requires
        config::filled(raw, c),
        0 <= k < raw.cobo@.len(),
    ensures
        c.cobo@.len() == raw.cobo@.len(),
        c.cobo@[k].id == raw.cobo@[k].id,
        c.cobo@[k].data_sender_id == raw.cobo@[k].data_sender_id,
        c.cobo@[k].listen@ == match raw.cobo@[k].listen {
            Some(s) => s@,
            None => "0.0.0.0:"@ + text::decimal(
                (46005 + raw.cobo@[k].id) as nat,
            ),
        },
        match raw.controller.receiver_commands {
            Some(written) => c.controller.receiver_commands@ == written@,
            None => c.controller.receiver_commands@.len() == raw.cobo@.len()
                && c.controller.receiver_commands@[k]@ == "tcp://127.0.0.1:"@ + text::decimal(
                (47110 + raw.cobo@[k].id) as nat,
            ),
        },
{
    assert(config::cobo_filled(raw.cobo@[k], c.cobo@[k]));
}

proof fn lemma_first(from: int, to: int, p: spec_fn(int) -> bool)
    ensures
        match config::first_from(from, to, p) {
            Some(k) => from <= k < to && p(k) && forall|m: int| from <= m < k ==> !(#[trigger] p(m)),
            None => forall|m: int| from <= m < to ==> !(#[trigger] p(m)),
        },
    decreases to - from,
{
    if from < to && !p(from) {
        lemma_first(from + 1, to, p);
    }
}

/// Whether a configuration is in order.
pub open spec fn is_valid(c: Config, geometry_exists: bool, monitor_geometry_exists: bool) -> bool {
    &&& forall|i: int, j: int|
        0 <= i < j < c.cobo@.len() ==> (#[trigger] c.cobo@[i]).id != (#[trigger] c.cobo@[j]).id
    &&& forall|i: int, j: int|
        0 <= i < j < c.cobo@.len() ==> (#[trigger] c.cobo@[i]).listen@ != (
        #[trigger] c.cobo@[j]).listen@
    &&& geometry_exists
    &&& c.receiver.batch_max_bytes > 0
    &&& c.receiver.batch_max_ms > 0
    &&& c.receiver.queue_frames > 0
    &&& c.receiver.heartbeat_ms > 0
    &&& c.receiver.hwm > 0
    &&& c.monitor.live_queue > 0
    &&& monitor_geometry_exists
    &&& c.controller.receiver_commands@.len() == c.cobo@.len()
    &&& c.controller.eos_timeout_s > 0
}

/// A configuration has no problem exactly where it is in order: the CoBos have different numbers
/// and addresses, the geometry files exist, there is an address for every receiver, and nothing is
/// zero that must not be.
pub proof fn law_valid_configurations_have_no_problem(
    c: Config,
    geometry_exists: bool,
    monitor_geometry_exists: bool,
)
    ensures
        config::problem(c, geometry_exists, monitor_geometry_exists) is None <==> is_valid(
            c,
            geometry_exists,
            monitor_geometry_exists,
        ),
{
    let cobos = c.cobo@;
    let n = cobos.len() as int;
    let ids = |j: int| config::repeats_id(cobos, j);
    let listens = |j: int| config::repeats_listen(cobos, j);
    lemma_first(0, n, ids);
    lemma_first(0, n, listens);
    if config::problem(c, geometry_exists, monitor_geometry_exists) is None {
        assert forall|i: int, j: int| 0 <= i < j < cobos.len() implies (#[trigger] cobos[i]).id != (
        #[trigger] cobos[j]).id by {
            assert(!ids(j));
        }
        assert forall|i: int, j: int| 0 <= i < j < cobos.len() implies (#[trigger] cobos[i]).listen@
            != (#[trigger] cobos[j]).listen@ by {
            assert(!listens(j));
        }
    }
    if is_valid(c, geometry_exists, monitor_geometry_exists) {
        assert forall|j: int| 0 <= j < n implies !(#[trigger] ids(j)) && !listens(j) by {
            assert forall|i: int| 0 <= i < j implies (#[trigger] cobos[i]).id != cobos[j].id
                && cobos[i].listen@ != cobos[j].listen@ by {}
        }
        assert forall|j: int| 0 <= j < n implies !(#[trigger] listens(j)) by {
            assert(!ids(j));
        }
    }
}

/// A problem is named: the number or the address that two CoBos share, the file that does not
/// exist, or the part of the configuration that is wrong.
pub proof fn law_problems_are_named(c: Config, geometry_exists: bool, monitor_geometry_exists: bool)
    ensures
        config::problem(c, geometry_exists, monitor_geometry_exists) matches Some(e) ==> match e {
            ErrorView::DuplicateCoboId(id) => exists|i: int, j: int|
                0 <= i < j < c.cobo@.len() && (#[trigger] c.cobo@[i]).id == id && (
                #[trigger] c.cobo@[j]).id == id,
            ErrorView::DuplicateListen(s) => exists|i: int, j: int|
                0 <= i < j < c.cobo@.len() && (#[trigger] c.cobo@[i]).listen@ == s && (
                #[trigger] c.cobo@[j]).listen@ == s,
            ErrorView::GeometryNotFound(s) => !geometry_exists && s == c.system.geometry@
                || !monitor_geometry_exists && s == c.monitor.geometry@,
            ErrorView::InvalidReceiver(_) => c.receiver.batch_max_bytes == 0
                || c.receiver.batch_max_ms == 0 || c.receiver.queue_frames == 0
                || c.receiver.heartbeat_ms == 0 || c.receiver.hwm <= 0,
            ErrorView::InvalidMonitor(_) => c.monitor.live_queue == 0,
            ErrorView::InvalidController(_) => c.controller.receiver_commands@.len()
                != c.cobo@.len() || c.controller.eos_timeout_s == 0,
        },
{
    let cobos = c.cobo@;
    let n = cobos.len() as int;
    let ids = |j: int| config::repeats_id(cobos, j);
    let listens = |j: int| config::repeats_listen(cobos, j);
    lemma_first(0, n, ids);
    lemma_first(0, n, listens);
    if let Some(j) = config::first_from(0, n, ids) {
        let i = choose|i: int| 0 <= i < j && (#[trigger] cobos[i]).id == cobos[j].id;
        assert(0 <= i < j < cobos.len() && cobos[i].id == cobos[j].id);
    } else if let Some(j) = config::first_from(0, n, listens) {
        let i = choose|i: int| 0 <= i < j && (#[trigger] cobos[i]).listen@ == cobos[j].listen@;
        assert(0 <= i < j < cobos.len() && cobos[i].listen@ == cobos[j].listen@);
    }
}

/// What a problem is called.
pub proof fn law_what_a_problem_is_called(id: u32, s: Seq<char>)
    ensures
        ErrorView::DuplicateCoboId(id).text() == "duplicate cobo id: "@ + text::decimal(id as nat),
        ErrorView::DuplicateListen(s).text() == "duplicate cobo listen address: "@ + s,
        ErrorView::GeometryNotFound(s).text() == "geometry file not found: "@ + s,
        ErrorView::InvalidReceiver(s).text() == "invalid [receiver] setting: "@ + s,
        ErrorView::InvalidMonitor(s).text() == "invalid [monitor] setting: "@ + s,
        ErrorView::InvalidController(s).text() == "invalid [controller] setting: "@ + s,
        config::must_be_positive(s) == s + " must be greater than 0"@,
{
}

/// A setting of the receivers that must not be zero is named where it is: the first of them.
pub proof fn law_a_zero_is_named(r: ReceiverConfig)
    ensures
        r.batch_max_bytes == 0 ==> config::receiver_problem(r) == Some(
            ErrorView::InvalidReceiver("batch_max_bytes"@ + " must be greater than 0"@),
        ),
        r.batch_max_bytes > 0 && r.batch_max_ms == 0 ==> config::receiver_problem(r) == Some(
            ErrorView::InvalidReceiver("batch_max_ms"@ + " must be greater than 0"@),
        ),
        r.batch_max_bytes > 0 && r.batch_max_ms > 0 && r.queue_frames == 0
            ==> config::receiver_problem(r) == Some(
            ErrorView::InvalidReceiver("queue_frames"@ + " must be greater than 0"@),
        ),
        r.batch_max_bytes > 0 && r.batch_max_ms > 0 && r.queue_frames > 0 && r.heartbeat_ms == 0
            ==> config::receiver_problem(r) == Some(
            ErrorView::InvalidReceiver("heartbeat_ms"@ + " must be greater than 0"@),
        ),
{
}

} // verus!

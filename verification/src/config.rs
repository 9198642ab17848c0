//! The configuration: default ports and identifiers, filling in what is left out, and the
//! checks that a configuration has to pass.

use std::collections::HashSet;

use vstd::prelude::*;

use crate::text;
use crate::text::{push_decimal, push_signed, same};

verus! {

broadcast use vstd::std_specs::hash::group_hash_axioms;

/// CoBo `k` sends its data to this port plus `k`, unless set otherwise.
pub const COBO_LISTEN_PORT_BASE: u32 = 46005;

/// Where the monitor serves its web socket.
pub const DEFAULT_MONITOR_WS_LISTEN: &'static str = "0.0.0.0:9000";

/// Where the monitor subscribes.
pub const DEFAULT_MONITOR_SUB_ENDPOINT: &'static str = "tcp://127.0.0.1:47004";

/// How many live messages the monitor keeps for a slow client.
pub const DEFAULT_MONITOR_LIVE_QUEUE: usize = 64;

/// Where the controller serves its REST interface.
pub const DEFAULT_CONTROLLER_REST_LISTEN: &'static str = "0.0.0.0:8080";

/// Where the controller takes log posts.
pub const DEFAULT_CONTROLLER_LOG_PULL_BIND: &'static str = "tcp://*:47005";

/// How long the controller waits for the end of the stream, in seconds.
pub const DEFAULT_CONTROLLER_EOS_TIMEOUT_S: u64 = 5;

/// How long the receivers must have been quiet at a stop, in milliseconds.
pub const DEFAULT_CONTROLLER_EOS_QUIESCE_MS: u64 = 500;

/// The source number of the decoder.
pub const DECODER_SOURCE_ID: u32 = 100;

/// The source number of the power supplies.
pub const PSU_SOURCE_ID: u32 = 200;

/// Receiver `k` takes commands at this port plus `k`.
pub const RECEIVER_COMMAND_PORT_BASE: u32 = 47110;

/// Where a receiver sends raw frames for the raw file writer.
pub const DEFAULT_GRAW_WRITER_ENDPOINT: &'static str = "tcp://127.0.0.1:47001";

/// Where a receiver sends raw frames for the decoder.
pub const DEFAULT_DECODER_ENDPOINT: &'static str = "tcp://127.0.0.1:47002";

/// Where the raw file writer takes raw frames.
pub const DEFAULT_GRAW_WRITER_PULL_BIND: &'static str = "tcp://*:47001";

/// How long a raw file grows before the next one is begun.
pub const DEFAULT_GRAW_WRITER_MAX_FILE_BYTES: u64 = 1_073_741_824;

/// How often the raw file writer flushes, in milliseconds.
pub const DEFAULT_GRAW_WRITER_FLUSH_INTERVAL_MS: u64 = 1000;

/// Where the raw file writer takes commands.
pub const GRAW_WRITER_COMMAND_LISTEN: &'static str = "tcp://*:47100";

/// Where the decoder takes raw frames.
pub const DEFAULT_DECODER_PULL_BIND: &'static str = "tcp://*:47002";

/// Where the decoder sends fragments.
pub const DEFAULT_ROOT_SINK_ENDPOINT: &'static str = "tcp://127.0.0.1:47003";

/// Where the decoder takes commands.
pub const DECODER_COMMAND_LISTEN: &'static str = "tcp://*:47101";

/// Where the controller reaches the raw file writer.
pub const DEFAULT_GRAW_WRITER_COMMAND_ENDPOINT: &'static str = "tcp://127.0.0.1:47100";

/// Where the controller reaches the decoder.
pub const DEFAULT_DECODER_COMMAND_ENDPOINT: &'static str = "tcp://127.0.0.1:47101";

/// Where the controller reaches the ECC bridge.
pub const DEFAULT_ECC_COMMAND_ENDPOINT: &'static str = "tcp://127.0.0.1:47200";

/// How long the decoder's socket tries to send before it asks again, in milliseconds.
pub const DEFAULT_DECODER_SEND_TIMEOUT_MS: i32 = 1000;

/// How long a receiver's socket tries to send before it asks again, in milliseconds.
pub const DEFAULT_RECEIVER_SEND_TIMEOUT_MS: i32 = DEFAULT_DECODER_SEND_TIMEOUT_MS;

/// The size at which a batch is closed.
pub const DEFAULT_BATCH_MAX_BYTES: usize = 8_388_608;

/// The age at which a batch is closed, in milliseconds.
pub const DEFAULT_BATCH_MAX_MS: u64 = 10;

/// How many frames a receiver keeps for its sender.
pub const DEFAULT_QUEUE_FRAMES: usize = 512;

/// How often an idle component gives a sign of life, in milliseconds.
pub const DEFAULT_HEARTBEAT_MS: u64 = 1000;

/// How many messages a socket keeps.
pub const DEFAULT_HWM: i32 = 1000;

/// Where the controller reaches receiver `cobo_id`, unless set otherwise.
pub open spec fn receiver_endpoint(cobo_id: u32) -> Seq<char> {
    "tcp://127.0.0.1:"@ + text::decimal((RECEIVER_COMMAND_PORT_BASE + cobo_id) as nat)
}

/// Where the controller reaches receiver `cobo_id`, unless set otherwise.
pub fn default_receiver_command_endpoint(cobo_id: u32) -> (s: String)
    requires
        RECEIVER_COMMAND_PORT_BASE + cobo_id <= u32::MAX,
    ensures
        s@ == receiver_endpoint(cobo_id),
{
    let mut s: String = "tcp://127.0.0.1:".to_string();
    push_decimal(&mut s, (RECEIVER_COMMAND_PORT_BASE + cobo_id) as u64);
    s
}

/// Where receiver `cobo_id` listens for its CoBo, unless set otherwise.
pub open spec fn cobo_listen(cobo_id: u32) -> Seq<char> {
    "0.0.0.0:"@ + text::decimal((COBO_LISTEN_PORT_BASE + cobo_id) as nat)
}

fn default_cobo_listen(cobo_id: u32) -> (s: String)
    requires
        COBO_LISTEN_PORT_BASE + cobo_id <= u32::MAX,
    ensures
        s@ == cobo_listen(cobo_id),
{
    let mut s: String = "0.0.0.0:".to_string();
    push_decimal(&mut s, (COBO_LISTEN_PORT_BASE + cobo_id) as u64);
    s
}

/// Receivers of different CoBos have different default ports.
pub proof fn law_default_receiver_ports_differ(a: u32, b: u32)
    requires
        receiver_endpoint(a) == receiver_endpoint(b) || cobo_listen(a) == cobo_listen(b),
    ensures
        a == b,
{
    let x = (RECEIVER_COMMAND_PORT_BASE + a) as nat;
    let y = (RECEIVER_COMMAND_PORT_BASE + b) as nat;
    let p = (COBO_LISTEN_PORT_BASE + a) as nat;
    let q = (COBO_LISTEN_PORT_BASE + b) as nat;
    if receiver_endpoint(a) == receiver_endpoint(b) {
        lemma_same_prefix("tcp://127.0.0.1:"@, text::decimal(x), text::decimal(y));
        text::law_decimal_is_injective(x, y);
    } else {
        lemma_same_prefix("0.0.0.0:"@, text::decimal(p), text::decimal(q));
        text::law_decimal_is_injective(p, q);
    }
}

proof fn lemma_same_prefix(prefix: Seq<char>, a: Seq<char>, b: Seq<char>)
    requires
        prefix + a == prefix + b,
    ensures
        a == b,
{
    let x = prefix + a;
    let y = prefix + b;
    assert(a =~= x.skip(prefix.len() as int));
    assert(b =~= y.skip(prefix.len() as int));
}

/// What is wrong with a configuration.
#[derive(Debug, Clone, PartialEq, Eq)]
pub enum ConfigError {
    DuplicateCoboId(u32),
    DuplicateListen(String),
    GeometryNotFound(String),
    InvalidReceiver(String),
    InvalidMonitor(String),
    InvalidController(String),
}

/// The value of a [`ConfigError`].
pub enum ErrorView {
    DuplicateCoboId(u32),
    DuplicateListen(Seq<char>),
    GeometryNotFound(Seq<char>),
    InvalidReceiver(Seq<char>),
    InvalidMonitor(Seq<char>),
    InvalidController(Seq<char>),
}

impl View for ConfigError {
    type V = ErrorView;

    open spec fn view(&self) -> ErrorView {
        match self {
            ConfigError::DuplicateCoboId(id) => ErrorView::DuplicateCoboId(*id),
            ConfigError::DuplicateListen(s) => ErrorView::DuplicateListen(s@),
            ConfigError::GeometryNotFound(s) => ErrorView::GeometryNotFound(s@),
            ConfigError::InvalidReceiver(s) => ErrorView::InvalidReceiver(s@),
            ConfigError::InvalidMonitor(s) => ErrorView::InvalidMonitor(s@),
            ConfigError::InvalidController(s) => ErrorView::InvalidController(s@),
        }
    }
}

impl ErrorView {
    /// What the error says.
    pub open spec fn text(self) -> Seq<char> {
        match self {
            ErrorView::DuplicateCoboId(id) => "duplicate cobo id: "@ + text::decimal(id as nat),
            ErrorView::DuplicateListen(s) => "duplicate cobo listen address: "@ + s,
            ErrorView::GeometryNotFound(s) => "geometry file not found: "@ + s,
            ErrorView::InvalidReceiver(s) => "invalid [receiver] setting: "@ + s,
            ErrorView::InvalidMonitor(s) => "invalid [monitor] setting: "@ + s,
            ErrorView::InvalidController(s) => "invalid [controller] setting: "@ + s,
        }
    }
}

impl ConfigError {
    /// What the error says.
    pub fn text(&self) -> (s: String)
        ensures
            s@ == self@.text(),
    {
        match self {
            ConfigError::DuplicateCoboId(id) => {
                let mut s: String = "duplicate cobo id: ".to_string();
                push_decimal(&mut s, *id as u64);
                s
            },
            ConfigError::DuplicateListen(what) => prefixed("duplicate cobo listen address: ", what),
            ConfigError::GeometryNotFound(what) => prefixed("geometry file not found: ", what),
            ConfigError::InvalidReceiver(what) => prefixed("invalid [receiver] setting: ", what),
            ConfigError::InvalidMonitor(what) => prefixed("invalid [monitor] setting: ", what),
            ConfigError::InvalidController(what) => prefixed(
                "invalid [controller] setting: ",
                what,
            ),
        }
    }
}

fn prefixed(prefix: &str, what: &String) -> (s: String)
    ensures
        s@ == prefix@ + what@,
{
    let mut s: String = prefix.to_string();
    s.append(what.as_str());
    s
}

// ---------------------------------------------------------------------
// The configuration with everything filled in
// ---------------------------------------------------------------------

/// The whole configuration.
#[derive(Debug, Clone, PartialEq)]
pub struct Config {
    pub system: SystemConfig,
    pub cobo: Vec<CoboConfig>,
    pub receiver: ReceiverConfig,
    pub graw_writer: GrawWriterConfig,
    pub decoder: DecoderConfig,
    pub root_sink: RootSinkConfig,
    pub monitor: MonitorConfig,
    pub controller: ControllerConfig,
}

/// The experiment as a whole.
#[derive(Debug, Clone, PartialEq)]
pub struct SystemConfig {
    pub experiment: String,
    pub output_root: String,
    pub geometry: String,
}

/// One CoBo.
#[derive(Debug, Clone, PartialEq)]
pub struct CoboConfig {
    pub id: u32,
    pub listen: String,
    pub data_sender_id: String,
}

/// The receivers.
#[derive(Debug, Clone, PartialEq)]
pub struct ReceiverConfig {
    pub batch_max_bytes: usize,
    pub batch_max_ms: u64,
    pub queue_frames: usize,
    pub heartbeat_ms: u64,
    /// How many messages a sending socket keeps; none must be unlimited.
    pub hwm: i32,
    pub graw_writer_endpoint: String,
    pub decoder_endpoint: String,
}

/// The raw file writer.
#[derive(Debug, Clone, PartialEq)]
pub struct GrawWriterConfig {
    pub pull_bind: String,
    pub max_file_bytes: u64,
    pub flush_interval_ms: u64,
}

/// The decoder.
#[derive(Debug, Clone, PartialEq)]
pub struct DecoderConfig {
    /// Accepted, and not used.
    pub workers: u32,
    pub pull_bind: String,
    pub push_connect: String,
    pub batch_max_bytes: usize,
    pub batch_max_ms: u64,
}

/// The event builder. The rates are the decimal numbers as they are written.
#[derive(Debug, Clone, PartialEq)]
pub struct RootSinkConfig {
    pub snapshot_hz: String,
    pub event_publish_hz: String,
    pub build_timeout_ms: u64,
}

/// The monitor.
#[derive(Debug, Clone, PartialEq)]
pub struct MonitorConfig {
    pub ws_listen: String,
    pub sub_endpoint: String,
    pub geometry: String,
    pub live_queue: usize,
}

/// The names of the ECC's configurations, one for each of its three phases.
#[derive(Debug, Clone, PartialEq, Eq)]
pub struct ConfigIds {
    pub describe: String,
    pub prepare: String,
    pub configure: String,
}

/// The controller.
#[derive(Debug, Clone, PartialEq)]
pub struct ControllerConfig {
    pub rest_listen: String,
    pub passphrase: String,
    /// The ECC's proxy, which the controller only passes on.
    pub ecc_proxy: String,
    pub config_id: ConfigIds,
    pub log_pull_bind: String,
    pub eos_timeout_s: u64,
    pub eos_quiesce_ms: u64,
    pub ui_dir: Option<String>,
    pub graw_writer_command: String,
    pub decoder_command: String,
    /// One for each CoBo, in the same order.
    pub receiver_commands: Vec<String>,
    pub ecc_command: String,
    pub router_ip: Option<String>,
}

impl Config {
    /// The numbers of the CoBos, in the order of the configuration.
    pub open spec fn cobo_ids(&self) -> Seq<u32> {
        self.cobo@.map_values(|c: CoboConfig| c.id)
    }

    /// The numbers of the CoBos, in the order of the configuration.
    pub fn ids(&self) -> (ids: Vec<u32>)
        ensures
            ids@ == self.cobo_ids(),
    {
        let mut ids: Vec<u32> = Vec::new();
        let mut i: usize = 0;
        while i < self.cobo.len()
            invariant
                i <= self.cobo@.len(),
                ids@ == self.cobo_ids().take(i as int),
            decreases self.cobo@.len() - i,
        {
            ids.push(self.cobo[i].id);
            i = i + 1;
            assert(ids@ =~= self.cobo_ids().take(i as int));
        }
        assert(ids@ =~= self.cobo_ids());
        ids
    }
}

/// The value of a [`ConfigIds`].
pub struct IdsView {
    pub describe: Seq<char>,
    pub prepare: Seq<char>,
    pub configure: Seq<char>,
}

impl View for ConfigIds {
    type V = IdsView;

    open spec fn view(&self) -> IdsView {
        IdsView {
            describe: self.describe@,
            prepare: self.prepare@,
            configure: self.configure@,
        }
    }
}

impl IdsView {
    /// One name for all three phases.
    pub open spec fn all(id: Seq<char>) -> IdsView {
        IdsView { describe: id, prepare: id, configure: id }
    }

    /// The name of all three phases, if they have the same.
    pub open spec fn common(self) -> Option<Seq<char>> {
        if self.describe == self.prepare && self.prepare == self.configure {
            Some(self.describe)
        } else {
            None
        }
    }

    /// The name that an ECC action takes, if it takes one.
    pub open spec fn of_action(self, action: Seq<char>) -> Option<Seq<char>> {
        if action == "describe"@ {
            Some(self.describe)
        } else if action == "prepare"@ {
            Some(self.prepare)
        } else if action == "configure"@ {
            Some(self.configure)
        } else {
            None
        }
    }
}

impl ConfigIds {
    /// One name for all three phases.
    pub fn same(id: &str) -> (ids: Self)
        ensures
            ids@ == IdsView::all(id@),
    {
        ConfigIds {
            describe: id.to_string(),
            prepare: id.to_string(),
            configure: id.to_string(),
        }
    }

    /// The name of all three phases, if they have the same.
    pub fn same_value(&self) -> (id: Option<&str>)
        ensures
            id is Some <==> self@.common() is Some,
            id matches Some(s) ==> self@.common() == Some(s@),
    {
        if same(self.describe.as_str(), self.prepare.as_str()) && same(
            self.prepare.as_str(),
            self.configure.as_str(),
        ) {
            Some(self.describe.as_str())
        } else {
            None
        }
    }

    /// The name that an ECC action takes, if it takes one.
    pub fn for_action(&self, action: &str) -> (id: Option<&str>)
        ensures
            id is Some <==> self@.of_action(action@) is Some,
            id matches Some(s) ==> self@.of_action(action@) == Some(s@),
    {
        if same(action, "describe") {
            Some(self.describe.as_str())
        } else if same(action, "prepare") {
            Some(self.prepare.as_str())
        } else if same(action, "configure") {
            Some(self.configure.as_str())
        } else {
            None
        }
    }

    /// A copy.
    pub fn copy(&self) -> (ids: Self)
        ensures
            ids@ == self@,
    {
        ConfigIds {
            describe: self.describe.clone(),
            prepare: self.prepare.clone(),
            configure: self.configure.clone(),
        }
    }
}

impl PartialEq<&str> for ConfigIds {
    fn eq(&self, other: &&str) -> (r: bool) {
        match self.same_value() {
            Some(id) => same(id, *other),
            None => false,
        }
    }
}

impl vstd::std_specs::cmp::PartialEqSpecImpl<&str> for ConfigIds {
    open spec fn obeys_eq_spec() -> bool {
        true
    }

    open spec fn eq_spec(&self, other: &&str) -> bool {
        self@.common() == Some(other@)
    }
}

/// One name for all phases is what all phases have in common, and the only names in common are
/// of that kind.
pub proof fn law_common_name_round_trip(ids: IdsView, id: Seq<char>)
    ensures
        IdsView::all(id).common() == Some(id),
        ids.common() == Some(id) ==> ids == IdsView::all(id),
{
}

/// Each phase gets its own name, and an action that takes none gets none.
pub proof fn law_each_action_gets_its_own_name(ids: IdsView)
    ensures
        ids.of_action("describe"@) == Some(ids.describe),
        ids.of_action("prepare"@) == Some(ids.prepare),
        ids.of_action("configure"@) == Some(ids.configure),
        ids.of_action("start"@) is None,
        ids.of_action("stop"@) is None,
        ids.of_action("breakup"@) is None,
        ids.of_action("reset"@) is None,
        ids.of_action("status"@) is None,
{
    reveal_strlit("describe");
    reveal_strlit("prepare");
    reveal_strlit("configure");
    reveal_strlit("start");
    reveal_strlit("stop");
    reveal_strlit("breakup");
    reveal_strlit("reset");
    reveal_strlit("status");
    assert("describe"@.len() == 8);
    assert("prepare"@.len() == 7);
    assert("configure"@.len() == 9);
    assert("start"@.len() == 5);
    assert("stop"@.len() == 4);
    assert("breakup"@.len() == 7);
    assert("breakup"@[0] == 'b' && "prepare"@[0] == 'p');
    assert("reset"@.len() == 5);
    assert("status"@.len() == 6);
}

// ---------------------------------------------------------------------
// The configuration as it is written
// ---------------------------------------------------------------------

/// The whole configuration as it is written.
#[derive(Debug)]
pub struct RawConfig {
    pub system: SystemConfig,
    pub cobo: Vec<RawCobo>,
    pub receiver: RawReceiver,
    pub graw_writer: RawGrawWriter,
    pub decoder: RawDecoder,
    pub root_sink: RootSinkConfig,
    pub monitor: RawMonitor,
    pub controller: RawController,
}

/// One CoBo as it is written.
#[derive(Debug)]
pub struct RawCobo {
    pub id: u32,
    pub listen: Option<String>,
    pub data_sender_id: String,
}

/// The receivers as they are written.
#[derive(Debug)]
pub struct RawReceiver {
    pub batch_max_bytes: Option<usize>,
    pub batch_max_ms: Option<u64>,
    pub queue_frames: Option<usize>,
    pub heartbeat_ms: Option<u64>,
    pub hwm: Option<i32>,
    pub graw_writer_endpoint: Option<String>,
    pub decoder_endpoint: Option<String>,
}

/// The raw file writer as it is written.
#[derive(Debug)]
pub struct RawGrawWriter {
    pub pull_bind: Option<String>,
    pub max_file_bytes: Option<u64>,
    pub flush_interval_ms: Option<u64>,
}

/// The decoder as it is written.
#[derive(Debug)]
pub struct RawDecoder {
    pub workers: u32,
    pub pull_bind: Option<String>,
    pub push_connect: Option<String>,
    pub batch_max_bytes: Option<usize>,
    pub batch_max_ms: Option<u64>,
}

/// The monitor as it is written.
#[derive(Debug)]
pub struct RawMonitor {
    pub ws_listen: Option<String>,
    pub sub_endpoint: Option<String>,
    pub geometry: Option<String>,
    pub live_queue: Option<usize>,
}

/// The controller as it is written.
#[derive(Debug)]
pub struct RawController {
    pub rest_listen: Option<String>,
    pub passphrase: String,
    pub ecc_proxy: String,
    pub config_id: RawConfigId,
    pub log_pull_bind: Option<String>,
    pub eos_timeout_s: Option<u64>,
    pub eos_quiesce_ms: Option<u64>,
    pub ui_dir: Option<String>,
    pub graw_writer_command: Option<String>,
    pub decoder_command: Option<String>,
    pub receiver_commands: Option<Vec<String>>,
    pub ecc_command: Option<String>,
    pub router_ip: Option<String>,
}

/// The names of the ECC's configurations as they are written.
#[derive(Debug)]
pub enum RawConfigId {
    /// One name for all phases.
    Same(String),
    /// A name for each phase.
    PerPhase(ConfigIds),
}

impl View for RawConfigId {
    type V = IdsView;

    open spec fn view(&self) -> IdsView {
        match self {
            RawConfigId::Same(id) => IdsView::all(id@),
            RawConfigId::PerPhase(ids) => ids@,
        }
    }
}

impl RawConfigId {
    /// A name for each phase.
    pub fn expand(self) -> (ids: ConfigIds)
        ensures
            ids@ == self@,
    {
        match self {
            RawConfigId::Same(id) => ConfigIds::same(id.as_str()),
            RawConfigId::PerPhase(ids) => ids,
        }
    }
}

// ---------------------------------------------------------------------
// Filling in
// ---------------------------------------------------------------------

/// The text in `written`, or `default` where it was left out.
pub open spec fn text_or(written: Option<String>, default: Seq<char>) -> Seq<char> {
    match written {
        Some(s) => s@,
        None => default,
    }
}

fn take_text(written: Option<String>, default: &str) -> (s: String)
    ensures
        s@ == text_or(written, default@),
{
    match written {
        Some(s) => s,
        None => default.to_string(),
    }
}

/// The number in `written`, or `default` where it was left out.
pub open spec fn number_or<T>(written: Option<T>, default: T) -> T {
    match written {
        Some(n) => n,
        None => default,
    }
}

/// Whether `cobo` is `raw` with its listening address filled in.
pub open spec fn cobo_filled(raw: RawCobo, cobo: CoboConfig) -> bool {
    &&& cobo.id == raw.id
    &&& cobo.listen@ == text_or(raw.listen, cobo_listen(raw.id))
    &&& cobo.data_sender_id == raw.data_sender_id
}

/// Whether `receiver` is `raw` filled in.
pub open spec fn receiver_filled(raw: RawReceiver, receiver: ReceiverConfig) -> bool {
    &&& receiver.batch_max_bytes == number_or(raw.batch_max_bytes, DEFAULT_BATCH_MAX_BYTES)
    &&& receiver.batch_max_ms == number_or(raw.batch_max_ms, DEFAULT_BATCH_MAX_MS)
    &&& receiver.queue_frames == number_or(raw.queue_frames, DEFAULT_QUEUE_FRAMES)
    &&& receiver.heartbeat_ms == number_or(raw.heartbeat_ms, DEFAULT_HEARTBEAT_MS)
    &&& receiver.hwm == number_or(raw.hwm, DEFAULT_HWM)
    &&& receiver.graw_writer_endpoint@ == text_or(
        raw.graw_writer_endpoint,
        DEFAULT_GRAW_WRITER_ENDPOINT@,
    )
    &&& receiver.decoder_endpoint@ == text_or(raw.decoder_endpoint, DEFAULT_DECODER_ENDPOINT@)
}

/// Whether `writer` is `raw` filled in.
pub open spec fn graw_writer_filled(raw: RawGrawWriter, writer: GrawWriterConfig) -> bool {
    &&& writer.pull_bind@ == text_or(raw.pull_bind, DEFAULT_GRAW_WRITER_PULL_BIND@)
    &&& writer.max_file_bytes == number_or(raw.max_file_bytes, DEFAULT_GRAW_WRITER_MAX_FILE_BYTES)
    &&& writer.flush_interval_ms == number_or(
        raw.flush_interval_ms,
        DEFAULT_GRAW_WRITER_FLUSH_INTERVAL_MS,
    )
}

/// Whether `decoder` is `raw` filled in.
pub open spec fn decoder_filled(raw: RawDecoder, decoder: DecoderConfig) -> bool {
    &&& decoder.workers == raw.workers
    &&& decoder.pull_bind@ == text_or(raw.pull_bind, DEFAULT_DECODER_PULL_BIND@)
    &&& decoder.push_connect@ == text_or(raw.push_connect, DEFAULT_ROOT_SINK_ENDPOINT@)
    &&& decoder.batch_max_bytes == number_or(raw.batch_max_bytes, DEFAULT_BATCH_MAX_BYTES)
    &&& decoder.batch_max_ms == number_or(raw.batch_max_ms, DEFAULT_BATCH_MAX_MS)
}

/// Whether `monitor` is `raw` filled in; its geometry is the system's where it has none.
pub open spec fn monitor_filled(
    raw: RawMonitor,
    geometry: Seq<char>,
    monitor: MonitorConfig,
) -> bool {
    &&& monitor.ws_listen@ == text_or(raw.ws_listen, DEFAULT_MONITOR_WS_LISTEN@)
    &&& monitor.sub_endpoint@ == text_or(raw.sub_endpoint, DEFAULT_MONITOR_SUB_ENDPOINT@)
    &&& monitor.geometry@ == text_or(raw.geometry, geometry)
    &&& monitor.live_queue == number_or(raw.live_queue, DEFAULT_MONITOR_LIVE_QUEUE)
}

/// Whether `commands` are the addresses of the receivers: those written, or the default ones of
/// the CoBos.
pub open spec fn receiver_commands_filled(
    raw: Option<Vec<String>>,
    cobos: Seq<CoboConfig>,
    commands: Seq<String>,
) -> bool {
    match raw {
        Some(written) => commands == written@,
        None => {
            &&& commands.len() == cobos.len()
            &&& forall|i: int|
                0 <= i < cobos.len() ==> (#[trigger] commands[i])@ == receiver_endpoint(
                    cobos[i].id,
                )
        },
    }
}

/// Whether `controller` is `raw` filled in.
pub open spec fn controller_filled(
    raw: RawController,
    cobos: Seq<CoboConfig>,
    controller: ControllerConfig,
) -> bool {
    &&& controller.rest_listen@ == text_or(raw.rest_listen, DEFAULT_CONTROLLER_REST_LISTEN@)
    &&& controller.passphrase == raw.passphrase
    &&& controller.ecc_proxy == raw.ecc_proxy
    &&& controller.config_id@ == raw.config_id@
    &&& controller.log_pull_bind@ == text_or(raw.log_pull_bind, DEFAULT_CONTROLLER_LOG_PULL_BIND@)
    &&& controller.eos_timeout_s == number_or(raw.eos_timeout_s, DEFAULT_CONTROLLER_EOS_TIMEOUT_S)
    &&& controller.eos_quiesce_ms == number_or(
        raw.eos_quiesce_ms,
        DEFAULT_CONTROLLER_EOS_QUIESCE_MS,
    )
    &&& controller.ui_dir == raw.ui_dir
    &&& controller.graw_writer_command@ == text_or(
        raw.graw_writer_command,
        DEFAULT_GRAW_WRITER_COMMAND_ENDPOINT@,
    )
    &&& controller.decoder_command@ == text_or(
        raw.decoder_command,
        DEFAULT_DECODER_COMMAND_ENDPOINT@,
    )
    &&& receiver_commands_filled(raw.receiver_commands, cobos, controller.receiver_commands@)
    &&& controller.ecc_command@ == text_or(raw.ecc_command, DEFAULT_ECC_COMMAND_ENDPOINT@)
    &&& controller.router_ip == raw.router_ip
}

/// Whether `config` is `raw` filled in.
pub open spec fn filled(raw: RawConfig, config: Config) -> bool {
    &&& config.system == raw.system
    &&& config.cobo@.len() == raw.cobo@.len()
    &&& forall|i: int|
        0 <= i < raw.cobo@.len() ==> cobo_filled(raw.cobo@[i], #[trigger] config.cobo@[i])
    &&& receiver_filled(raw.receiver, config.receiver)
    &&& graw_writer_filled(raw.graw_writer, config.graw_writer)
    &&& decoder_filled(raw.decoder, config.decoder)
    &&& config.root_sink == raw.root_sink
    &&& monitor_filled(raw.monitor, raw.system.geometry@, config.monitor)
    &&& controller_filled(raw.controller, config.cobo@, config.controller)
}

/// Whether every port that is to be filled in is a number of 32 bits.
pub open spec fn ports_fit(raw: RawConfig) -> bool {
    forall|i: int|
        0 <= i < raw.cobo@.len() ==> {
            let c = #[trigger] raw.cobo@[i];
            &&& c.listen is None ==> COBO_LISTEN_PORT_BASE + c.id <= u32::MAX
            &&& raw.controller.receiver_commands is None ==> RECEIVER_COMMAND_PORT_BASE + c.id
                <= u32::MAX
        }
}

/// Whether every port that is to be filled in is a number of 32 bits.
pub fn ports_in_range(raw: &RawConfig) -> (r: bool)
    ensures
        r == ports_fit(*raw),
{
    let mut i: usize = 0;
    while i < raw.cobo.len()
        invariant
            i <= raw.cobo@.len(),
            forall|k: int|
                0 <= k < i ==> {
                    let c = #[trigger] raw.cobo@[k];
                    &&& c.listen is None ==> COBO_LISTEN_PORT_BASE + c.id <= u32::MAX
                    &&& raw.controller.receiver_commands is None ==> RECEIVER_COMMAND_PORT_BASE
                        + c.id <= u32::MAX
                },
        decreases raw.cobo@.len() - i,
    {
        let c: &RawCobo = &raw.cobo[i];
        if c.listen.is_none() && COBO_LISTEN_PORT_BASE.checked_add(c.id).is_none() {
            assert(!ports_fit(*raw)) by {
                let c = raw.cobo@[i as int];
            }
            return false;
        }
        if raw.controller.receiver_commands.is_none() && RECEIVER_COMMAND_PORT_BASE.checked_add(
            c.id,
        ).is_none() {
            assert(!ports_fit(*raw)) by {
                let c = raw.cobo@[i as int];
            }
            return false;
        }
        i = i + 1;
    }
    true
}

/// Fills in everything that was left out.
pub fn resolve(raw: RawConfig) -> (config: Config)
    requires
        ports_fit(raw),
    ensures
        filled(raw, config),
{
    let ghost written = raw;
    let RawConfig { system, cobo, receiver, graw_writer, decoder, root_sink, monitor, controller } =
        raw;
    let cobo: Vec<CoboConfig> = resolve_cobos(cobo);
    let receiver = ReceiverConfig {
        batch_max_bytes: receiver.batch_max_bytes.unwrap_or(DEFAULT_BATCH_MAX_BYTES),
        batch_max_ms: receiver.batch_max_ms.unwrap_or(DEFAULT_BATCH_MAX_MS),
        queue_frames: receiver.queue_frames.unwrap_or(DEFAULT_QUEUE_FRAMES),
        heartbeat_ms: receiver.heartbeat_ms.unwrap_or(DEFAULT_HEARTBEAT_MS),
        hwm: receiver.hwm.unwrap_or(DEFAULT_HWM),
        graw_writer_endpoint: take_text(
            receiver.graw_writer_endpoint,
            DEFAULT_GRAW_WRITER_ENDPOINT,
        ),
        decoder_endpoint: take_text(receiver.decoder_endpoint, DEFAULT_DECODER_ENDPOINT),
    };
    let graw_writer = GrawWriterConfig {
        pull_bind: take_text(graw_writer.pull_bind, DEFAULT_GRAW_WRITER_PULL_BIND),
        max_file_bytes: graw_writer.max_file_bytes.unwrap_or(DEFAULT_GRAW_WRITER_MAX_FILE_BYTES),
        flush_interval_ms: graw_writer.flush_interval_ms.unwrap_or(
            DEFAULT_GRAW_WRITER_FLUSH_INTERVAL_MS,
        ),
    };
    let decoder = DecoderConfig {
        workers: decoder.workers,
        pull_bind: take_text(decoder.pull_bind, DEFAULT_DECODER_PULL_BIND),
        push_connect: take_text(decoder.push_connect, DEFAULT_ROOT_SINK_ENDPOINT),
        batch_max_bytes: decoder.batch_max_bytes.unwrap_or(DEFAULT_BATCH_MAX_BYTES),
        batch_max_ms: decoder.batch_max_ms.unwrap_or(DEFAULT_BATCH_MAX_MS),
    };
    let monitor = MonitorConfig {
        ws_listen: take_text(monitor.ws_listen, DEFAULT_MONITOR_WS_LISTEN),
        sub_endpoint: take_text(monitor.sub_endpoint, DEFAULT_MONITOR_SUB_ENDPOINT),
        geometry: take_text(monitor.geometry, system.geometry.as_str()),
        live_queue: monitor.live_queue.unwrap_or(DEFAULT_MONITOR_LIVE_QUEUE),
    };
    let controller = resolve_controller(controller, &cobo);
    Config { system, cobo, receiver, graw_writer, decoder, root_sink, monitor, controller }
}

fn resolve_cobos(raw: Vec<RawCobo>) -> (cobos: Vec<CoboConfig>)
    requires
        forall|i: int|
            0 <= i < raw@.len() ==> ((#[trigger] raw@[i]).listen is None ==> COBO_LISTEN_PORT_BASE
                + raw@[i].id <= u32::MAX),
    ensures
        cobos@.len() == raw@.len(),
        forall|i: int| 0 <= i < raw@.len() ==> cobo_filled(raw@[i], #[trigger] cobos@[i]),
{
    let mut cobos: Vec<CoboConfig> = Vec::new();
    let mut i: usize = 0;
    while i < raw.len()
        invariant
            i <= raw@.len(),
            cobos@.len() == i,
            forall|k: int|
                0 <= k < raw@.len() ==> ((#[trigger] raw@[k]).listen is None
                    ==> COBO_LISTEN_PORT_BASE + raw@[k].id <= u32::MAX),
            forall|k: int| 0 <= k < i ==> cobo_filled(raw@[k], #[trigger] cobos@[k]),
        decreases raw@.len() - i,
    {
        let c: &RawCobo = &raw[i];
        let listen: String = match &c.listen {
            Some(listen) => listen.clone(),
            None => default_cobo_listen(c.id),
        };
        cobos.push(CoboConfig { id: c.id, listen, data_sender_id: c.data_sender_id.clone() });
        i = i + 1;
    }
    cobos
}

fn resolve_controller(raw: RawController, cobos: &Vec<CoboConfig>) -> (controller: ControllerConfig)
    requires
        raw.receiver_commands is None ==> forall|i: int|
            0 <= i < cobos@.len() ==> RECEIVER_COMMAND_PORT_BASE + (#[trigger] cobos@[i]).id
                <= u32::MAX,
    ensures
        controller_filled(raw, cobos@, controller),
{
    let receiver_commands: Vec<String> = match raw.receiver_commands {
        Some(commands) => commands,
        None => {
            let mut commands: Vec<String> = Vec::new();
            let mut i: usize = 0;
            while i < cobos.len()
                invariant
                    i <= cobos@.len(),
                    commands@.len() == i,
                    forall|k: int|
                        0 <= k < cobos@.len() ==> RECEIVER_COMMAND_PORT_BASE + (
                        #[trigger] cobos@[k]).id <= u32::MAX,
                    forall|k: int|
                        0 <= k < i ==> (#[trigger] commands@[k])@ == receiver_endpoint(cobos@[k].id),
                decreases cobos@.len() - i,
            {
                commands.push(default_receiver_command_endpoint(cobos[i].id));
                i = i + 1;
            }
            commands
        },
    };
    ControllerConfig {
        rest_listen: take_text(raw.rest_listen, DEFAULT_CONTROLLER_REST_LISTEN),
        passphrase: raw.passphrase,
        ecc_proxy: raw.ecc_proxy,
        config_id: raw.config_id.expand(),
        log_pull_bind: take_text(raw.log_pull_bind, DEFAULT_CONTROLLER_LOG_PULL_BIND),
        eos_timeout_s: raw.eos_timeout_s.unwrap_or(DEFAULT_CONTROLLER_EOS_TIMEOUT_S),
        eos_quiesce_ms: raw.eos_quiesce_ms.unwrap_or(DEFAULT_CONTROLLER_EOS_QUIESCE_MS),
        ui_dir: raw.ui_dir,
        graw_writer_command: take_text(
            raw.graw_writer_command,
            DEFAULT_GRAW_WRITER_COMMAND_ENDPOINT,
        ),
        decoder_command: take_text(raw.decoder_command, DEFAULT_DECODER_COMMAND_ENDPOINT),
        receiver_commands,
        ecc_command: take_text(raw.ecc_command, DEFAULT_ECC_COMMAND_ENDPOINT),
        router_ip: raw.router_ip,
    }
}

// ---------------------------------------------------------------------
// Checking
// ---------------------------------------------------------------------

/// Whether the CoBo at `j` has the number of an earlier one.
pub open spec fn repeats_id(cobos: Seq<CoboConfig>, j: int) -> bool {
    exists|i: int| 0 <= i < j && (#[trigger] cobos[i]).id == cobos[j].id
}

/// Whether the CoBo at `j` listens where an earlier one does.
pub open spec fn repeats_listen(cobos: Seq<CoboConfig>, j: int) -> bool {
    exists|i: int| 0 <= i < j && (#[trigger] cobos[i]).listen@ == cobos[j].listen@
}

/// The first of the positions from `from` on that `p` holds of.
pub open spec fn first_from(from: int, to: int, p: spec_fn(int) -> bool) -> Option<int>
    decreases to - from,
{
    if from >= to {
        None
    } else if p(from) {
        Some(from)
    } else {
        first_from(from + 1, to, p)
    }
}

/// What is wrong with the numbers of the CoBos: the first that repeats an earlier one.
pub open spec fn cobo_id_problem(cobos: Seq<CoboConfig>) -> Option<ErrorView> {
    match first_from(0, cobos.len() as int, |j: int| repeats_id(cobos, j)) {
        Some(j) => Some(ErrorView::DuplicateCoboId(cobos[j].id)),
        None => None,
    }
}

/// What is wrong with the addresses of the CoBos: the first that repeats an earlier one.
pub open spec fn cobo_listen_problem(cobos: Seq<CoboConfig>) -> Option<ErrorView> {
    match first_from(0, cobos.len() as int, |j: int| repeats_listen(cobos, j)) {
        Some(j) => Some(ErrorView::DuplicateListen(cobos[j].listen@)),
        None => None,
    }
}

/// What is wrong with a geometry file: that it does not exist.
pub open spec fn geometry_problem(path: Seq<char>, present: bool) -> Option<ErrorView> {
    if present {
        None
    } else {
        Some(ErrorView::GeometryNotFound(path))
    }
}

/// What a setting that must not be zero is told.
pub open spec fn must_be_positive(field: Seq<char>) -> Seq<char> {
    field + " must be greater than 0"@
}

/// What is wrong with the receivers.
pub open spec fn receiver_problem(receiver: ReceiverConfig) -> Option<ErrorView> {
    if receiver.batch_max_bytes == 0 {
        Some(ErrorView::InvalidReceiver(must_be_positive("batch_max_bytes"@)))
    } else if receiver.batch_max_ms == 0 {
        Some(ErrorView::InvalidReceiver(must_be_positive("batch_max_ms"@)))
    } else if receiver.queue_frames == 0 {
        Some(ErrorView::InvalidReceiver(must_be_positive("queue_frames"@)))
    } else if receiver.heartbeat_ms == 0 {
        Some(ErrorView::InvalidReceiver(must_be_positive("heartbeat_ms"@)))
    } else if receiver.hwm <= 0 {
        Some(
            ErrorView::InvalidReceiver(
                "hwm must be greater than 0 (0 means unlimited buffering), got "@
                    + text::signed_decimal(receiver.hwm as int),
            ),
        )
    } else {
        None
    }
}

/// What is wrong with the monitor.
pub open spec fn monitor_problem(monitor: MonitorConfig, geometry_exists: bool) -> Option<
    ErrorView,
> {
    if monitor.live_queue == 0 {
        Some(ErrorView::InvalidMonitor("live_queue must be greater than 0"@))
    } else {
        geometry_problem(monitor.geometry@, geometry_exists)
    }
}

/// What is wrong with the controller.
pub open spec fn controller_problem(controller: ControllerConfig, cobo_count: nat) -> Option<
    ErrorView,
> {
    if controller.receiver_commands@.len() != cobo_count {
        Some(
            ErrorView::InvalidController(
                "receiver_commands has "@ + text::decimal(controller.receiver_commands@.len())
                    + " entries but there are "@ + text::decimal(cobo_count)
                    + " [[cobo]] blocks"@,
            ),
        )
    } else if controller.eos_timeout_s == 0 {
        Some(ErrorView::InvalidController("eos_timeout_s must be greater than 0"@))
    } else {
        None
    }
}

/// `first`, or `second` where there is no first.
pub open spec fn either(first: Option<ErrorView>, second: Option<ErrorView>) -> Option<ErrorView> {
    match first {
        Some(e) => Some(e),
        None => second,
    }
}

/// The first thing that is wrong with a configuration, if anything is.
pub open spec fn problem(
    config: Config,
    geometry_exists: bool,
    monitor_geometry_exists: bool,
) -> Option<ErrorView> {
    either(
        cobo_id_problem(config.cobo@),
        either(
            cobo_listen_problem(config.cobo@),
            either(
                geometry_problem(config.system.geometry@, geometry_exists),
                either(
                    receiver_problem(config.receiver),
                    either(
                        monitor_problem(config.monitor, monitor_geometry_exists),
                        controller_problem(config.controller, config.cobo@.len()),
                    ),
                ),
            ),
        ),
    )
}

/// Whether `r` reports exactly `expected`.
pub open spec fn reports(r: Result<(), ConfigError>, expected: Option<ErrorView>) -> bool {
    match expected {
        Some(e) => r matches Err(got) && got@ == e,
        None => r is Ok,
    }
}

/// A configuration that passes the checks has CoBos with different numbers and addresses, and
/// one receiver address for each.
pub proof fn law_valid_configurations_tell_cobos_apart(
    config: Config,
    geometry_exists: bool,
    monitor_geometry_exists: bool,
    i: int,
    j: int,
)
    requires
        problem(config, geometry_exists, monitor_geometry_exists) is None,
        0 <= i < j < config.cobo@.len(),
    ensures
        config.cobo@[i].id != config.cobo@[j].id,
        config.cobo@[i].listen@ != config.cobo@[j].listen@,
        config.controller.receiver_commands@.len() == config.cobo@.len(),
{
    let cobos = config.cobo@;
    lemma_first_from_none(0, cobos.len() as int, |k: int| repeats_id(cobos, k), j);
    lemma_first_from_none(0, cobos.len() as int, |k: int| repeats_listen(cobos, k), j);
}

proof fn lemma_first_from_none(from: int, to: int, p: spec_fn(int) -> bool, k: int)
    requires
        first_from(from, to, p) is None,
        from <= k < to,
    ensures
        !p(k),
    decreases to - from,
{
    if from < k {
        lemma_first_from_none(from + 1, to, p, k);
    }
}

proof fn lemma_first_from_some(from: int, to: int, p: spec_fn(int) -> bool, k: int)
    requires
        from <= k < to,
        p(k),
        forall|m: int| from <= m < k ==> !(#[trigger] p(m)),
    ensures
        first_from(from, to, p) == Some(k),
    decreases to - from,
{
    if from < k {
        lemma_first_from_some(from + 1, to, p, k);
    }
}

proof fn lemma_first_from_all(from: int, to: int, p: spec_fn(int) -> bool)
    requires
        forall|m: int| from <= m < to ==> !(#[trigger] p(m)),
    ensures
        first_from(from, to, p) is None,
    decreases to - from,
{
    if from < to {
        lemma_first_from_all(from + 1, to, p);
    }
}

/// Checks a configuration. Whether the two geometry files exist is for the caller to find out.
pub fn validate(
    config: &Config,
    geometry_exists: bool,
    monitor_geometry_exists: bool,
) -> (r: Result<(), ConfigError>)
    ensures
        reports(r, problem(*config, geometry_exists, monitor_geometry_exists)),
{
    match validate_cobo_ids(&config.cobo) {
        Err(e) => {
            return Err(e);
        },
        Ok(()) => {},
    }
    match validate_cobo_listen_unique(&config.cobo) {
        Err(e) => {
            return Err(e);
        },
        Ok(()) => {},
    }
    match validate_geometry_path(&config.system.geometry, geometry_exists) {
        Err(e) => {
            return Err(e);
        },
        Ok(()) => {},
    }
    match validate_receiver(&config.receiver) {
        Err(e) => {
            return Err(e);
        },
        Ok(()) => {},
    }
    match validate_monitor(&config.monitor, monitor_geometry_exists) {
        Err(e) => {
            return Err(e);
        },
        Ok(()) => {},
    }
    validate_controller(&config.controller, config.cobo.len())
}

/// Checks that the CoBos have different numbers.
pub fn validate_cobo_ids(cobos: &Vec<CoboConfig>) -> (r: Result<(), ConfigError>)
    ensures
        reports(r, cobo_id_problem(cobos@)),
{
    let mut seen: HashSet<u32> = HashSet::new();
    let mut j: usize = 0;
    let ghost p = |k: int| repeats_id(cobos@, k);
    while j < cobos.len()
        invariant
            j <= cobos@.len(),
            p == |k: int| repeats_id(cobos@, k),
            forall|m: int| 0 <= m < j ==> !(#[trigger] p(m)),
            forall|id: u32|
                seen@.contains(id) <==> exists|i: int| 0 <= i < j && (#[trigger] cobos@[i]).id == id,
        decreases cobos@.len() - j,
    {
        let id: u32 = cobos[j].id;
        let fresh: bool = seen.insert(id);
        if !fresh {
            assert(p(j as int));
            proof {
                lemma_first_from_some(0, cobos@.len() as int, p, j as int);
            }
            return Err(ConfigError::DuplicateCoboId(id));
        }
        assert(!p(j as int));
        assert forall|x: u32|
            seen@.contains(x) <==> exists|i: int|
                0 <= i < j + 1 && (#[trigger] cobos@[i]).id == x by {
            if x == id {
                assert(cobos@[j as int].id == x);
            }
        }
        j = j + 1;
    }
    proof {
        lemma_first_from_all(0, cobos@.len() as int, p);
    }
    Ok(())
}

/// Checks that the CoBos have different addresses.
pub fn validate_cobo_listen_unique(cobos: &Vec<CoboConfig>) -> (r: Result<(), ConfigError>)
    ensures
        reports(r, cobo_listen_problem(cobos@)),
{
    let mut j: usize = 0;
    let ghost p = |k: int| repeats_listen(cobos@, k);
    while j < cobos.len()
        invariant
            j <= cobos@.len(),
            p == |k: int| repeats_listen(cobos@, k),
            forall|m: int| 0 <= m < j ==> !(#[trigger] p(m)),
        decreases cobos@.len() - j,
    {
        let mut i: usize = 0;
        while i < j
            invariant
                i <= j < cobos@.len(),
                p == |k: int| repeats_listen(cobos@, k),
                forall|m: int| 0 <= m < j ==> !(#[trigger] p(m)),
                forall|m: int|
                    0 <= m < i ==> (#[trigger] cobos@[m]).listen@ != cobos@[j as int].listen@,
            decreases j - i,
        {
            if same(cobos[i].listen.as_str(), cobos[j].listen.as_str()) {
                proof {
                    assert(cobos@[i as int].listen@ == cobos@[j as int].listen@);
                    assert(p(j as int));
                    lemma_first_from_some(0, cobos@.len() as int, p, j as int);
                }
                return Err(ConfigError::DuplicateListen(cobos[j].listen.clone()));
            }
            i = i + 1;
        }
        assert(!p(j as int));
        j = j + 1;
    }
    proof {
        lemma_first_from_all(0, cobos@.len() as int, p);
    }
    Ok(())
}

/// Checks that a geometry file exists.
pub fn validate_geometry_path(path: &String, present: bool) -> (r: Result<(), ConfigError>)
    ensures
        reports(r, geometry_problem(path@, present)),
{
    if present {
        Ok(())
    } else {
        Err(ConfigError::GeometryNotFound(path.clone()))
    }
}

fn not_positive(field: &str) -> (s: String)
    ensures
        s@ == must_be_positive(field@),
{
    let mut s: String = field.to_string();
    s.append(" must be greater than 0");
    s
}

/// Checks the receivers' settings.
pub fn validate_receiver(receiver: &ReceiverConfig) -> (r: Result<(), ConfigError>)
    ensures
        reports(r, receiver_problem(*receiver)),
{
    if receiver.batch_max_bytes == 0 {
        return Err(ConfigError::InvalidReceiver(not_positive("batch_max_bytes")));
    }
    if receiver.batch_max_ms == 0 {
        return Err(ConfigError::InvalidReceiver(not_positive("batch_max_ms")));
    }
    if receiver.queue_frames == 0 {
        return Err(ConfigError::InvalidReceiver(not_positive("queue_frames")));
    }
    if receiver.heartbeat_ms == 0 {
        return Err(ConfigError::InvalidReceiver(not_positive("heartbeat_ms")));
    }
    if receiver.hwm <= 0 {
        let mut s: String =
            "hwm must be greater than 0 (0 means unlimited buffering), got ".to_string();
        push_signed(&mut s, receiver.hwm);
        return Err(ConfigError::InvalidReceiver(s));
    }
    Ok(())
}

/// Checks the monitor's settings.
pub fn validate_monitor(monitor: &MonitorConfig, geometry_exists: bool) -> (r: Result<
    (),
    ConfigError,
>)
    ensures
        reports(r, monitor_problem(*monitor, geometry_exists)),
{
    if monitor.live_queue == 0 {
        return Err(
            ConfigError::InvalidMonitor("live_queue must be greater than 0".to_string()),
        );
    }
    validate_geometry_path(&monitor.geometry, geometry_exists)
}

/// Checks the controller's settings.
pub fn validate_controller(controller: &ControllerConfig, cobo_count: usize) -> (r: Result<
    (),
    ConfigError,
>)
    ensures
        reports(r, controller_problem(*controller, cobo_count as nat)),
{
    if controller.receiver_commands.len() != cobo_count {
        let mut s: String = "receiver_commands has ".to_string();
        push_decimal(&mut s, controller.receiver_commands.len() as u64);
        s.append(" entries but there are ");
        push_decimal(&mut s, cobo_count as u64);
        s.append(" [[cobo]] blocks");
        return Err(ConfigError::InvalidController(s));
    }
    if controller.eos_timeout_s == 0 {
        return Err(
            ConfigError::InvalidController("eos_timeout_s must be greater than 0".to_string()),
        );
    }
    Ok(())
}

} // verus!

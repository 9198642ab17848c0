//! The controller: which components there are, what they report, who may operate them, and what
//! each request of an operator is answered.
//!
//! The sequences that start and stop a run are in [`crate::sequencer`].

use vstd::prelude::*;

use crate::command::{CommandResponse, ComponentState, FileEntry, FileView, Metric, Metrics};
use crate::command;
use crate::config::{CoboConfig, Config, ConfigIds};
use crate::config;
use crate::tally;
use crate::tally::Tally;
use crate::text;
use crate::text::{
    chars_of, join_texts, push_decimal, push_hexadecimal, push_text, same, string_of,
};

verus! {

/// How long a component may take to answer a command, in milliseconds.
pub const DEFAULT_COMMAND_TIMEOUT: u64 = 5000;

/// How long the bridge to the electronics may take to answer, in milliseconds.
pub const DEFAULT_ECC_TIMEOUT: u64 = 60000;

/// How long a component may take to answer where only its status is asked for, in milliseconds.
pub const DEFAULT_STATUS_TIMEOUT: u64 = 1000;

/// How long to wait between two looks at whether all streams have ended, in milliseconds.
pub const DEFAULT_EOS_POLL: u64 = 200;

/// How long to wait before a component is told to arm a second time, in milliseconds. Every
/// further wait is twice as long.
pub const ARM_RETRY_BACKOFF: u64 = 20;

/// How often a component is told to arm at most.
pub const ARM_MAX_ATTEMPTS: u32 = 6;

/// How long to wait for a log post before looking at anything else, in milliseconds.
pub const LOG_PULL_POLL_MS: i32 = 200;

/// Who writes the logbook.
pub const ACTOR: &'static str = "controller";

/// The kind of data link that is asked for.
pub const FLOW_TYPE: &'static str = "TCP";

// ---------------------------------------------------------------------
// Parameters
// ---------------------------------------------------------------------

/// A CoBo.
#[derive(Debug, Clone)]
pub struct CoboSpec {
    pub id: u32,
    /// Where its receiver is configured to listen.
    pub listen: String,
    /// What the electronics call it.
    pub data_sender_id: String,
}

/// The value of a [`CoboSpec`].
pub struct CoboView {
    pub id: u32,
    pub listen: Seq<char>,
    pub data_sender_id: Seq<char>,
}

impl View for CoboSpec {
    type V = CoboView;

    open spec fn view(&self) -> CoboView {
        CoboView { id: self.id, listen: self.listen@, data_sender_id: self.data_sender_id@ }
    }
}

/// What a component is.
#[derive(Debug, Clone, Copy, PartialEq, Eq, Structural)]
pub enum ComponentKind {
    GrawWriter,
    Decoder,
    Receiver { cobo_id: u32 },
}

/// A component and where it takes commands.
#[derive(Debug, Clone)]
pub struct ComponentEndpoint {
    /// What it is called in messages.
    pub name: String,
    pub endpoint: String,
    pub kind: ComponentKind,
}

/// The value of a [`ComponentEndpoint`].
pub struct EndpointView {
    pub name: Seq<char>,
    pub endpoint: Seq<char>,
    pub kind: ComponentKind,
}

impl View for ComponentEndpoint {
    type V = EndpointView;

    open spec fn view(&self) -> EndpointView {
        EndpointView { name: self.name@, endpoint: self.endpoint@, kind: self.kind }
    }
}

/// A span of time: seconds, and milliseconds on top of them.
#[derive(Debug, Clone, Copy, PartialEq, Eq, Structural)]
pub struct TimeSpan {
    pub secs: u64,
    pub millis: u32,
}

impl TimeSpan {
    /// The span in milliseconds.
    pub open spec fn ms(self) -> nat {
        (self.secs * 1000 + self.millis) as nat
    }

    /// So many seconds.
    pub fn from_secs(secs: u64) -> (span: Self)
        ensures
            span == (TimeSpan { secs, millis: 0 }),
    {
        TimeSpan { secs, millis: 0 }
    }

    /// The span in milliseconds.
    pub fn as_millis(self) -> (ms: u128)
        ensures
            ms == self.ms(),
    {
        self.secs as u128 * 1000 + self.millis as u128
    }
}

/// What a controller process is started with.
#[derive(Debug, Clone)]
pub struct ControllerParams {
    pub rest_listen: String,
    pub passphrase: String,
    pub log_pull_bind: String,
    pub ui_dir: Option<String>,
    pub config_ids: ConfigIds,
    pub output_root: String,
    pub geometry_path: String,
    pub cobos: Vec<CoboSpec>,
    /// The components, from the end of the data stream to its beginning.
    pub components: Vec<ComponentEndpoint>,
    pub ecc_endpoint: String,
    /// The address that the CoBos are to connect to, where it is given.
    pub router_ip: Option<String>,
    /// How long to wait for all streams to end.
    pub eos_timeout: TimeSpan,
    pub eos_poll_ms: u64,
    pub command_timeout_ms: u64,
    pub ecc_timeout_ms: u64,
    pub status_timeout_ms: u64,
}

/// The receivers that a configuration names: one for each CoBo that has a command endpoint.
pub open spec fn receivers_of(cobos: Seq<CoboConfig>, commands: Seq<String>) -> Seq<EndpointView> {
    Seq::new(
        if cobos.len() <= commands.len() {
            cobos.len()
        } else {
            commands.len()
        },
        |i: int|
            EndpointView {
                name: "receiver"@ + text::decimal(cobos[i].id as nat),
                endpoint: commands[i]@,
                kind: ComponentKind::Receiver { cobo_id: cobos[i].id },
            },
    )
}

/// The components that a configuration names, from the end of the data stream to its beginning.
pub open spec fn components_of(config: Config) -> Seq<EndpointView> {
    seq![
        EndpointView {
            name: "graw-writer"@,
            endpoint: config.controller.graw_writer_command@,
            kind: ComponentKind::GrawWriter,
        },
        EndpointView {
            name: "decoder"@,
            endpoint: config.controller.decoder_command@,
            kind: ComponentKind::Decoder,
        },
    ] + receivers_of(config.cobo@, config.controller.receiver_commands@)
}

/// The CoBos that a configuration names.
pub open spec fn cobos_of(cobos: Seq<CoboConfig>) -> Seq<CoboView> {
    cobos.map_values(
        |c: CoboConfig|
            CoboView { id: c.id, listen: c.listen@, data_sender_id: c.data_sender_id@ },
    )
}

/// A text, if there is one.
pub open spec fn text_of(s: Option<String>) -> Option<Seq<char>> {
    match s {
        Some(s) => Some(s@),
        None => None,
    }
}

fn copy_text(s: &Option<String>) -> (t: Option<String>)
    ensures
        text_of(t) == text_of(*s),
{
    match s {
        Some(s) => Some(s.clone()),
        None => None,
    }
}

impl ControllerParams {
    /// The values of the components.
    pub open spec fn parts(&self) -> Seq<EndpointView> {
        self.components@.map_values(|c: ComponentEndpoint| c@)
    }

    /// The values of the CoBos.
    pub open spec fn cobo_views(&self) -> Seq<CoboView> {
        self.cobos@.map_values(|c: CoboSpec| c@)
    }

    /// What a configuration gives.
    pub fn from_config(config: &Config) -> (params: Self)
        ensures
            params.rest_listen@ == config.controller.rest_listen@,
            params.passphrase@ == config.controller.passphrase@,
            params.log_pull_bind@ == config.controller.log_pull_bind@,
            text_of(params.ui_dir) == text_of(config.controller.ui_dir),
            params.config_ids@ == config.controller.config_id@,
            params.output_root@ == config.system.output_root@,
            params.geometry_path@ == config.system.geometry@,
            params.cobo_views() == cobos_of(config.cobo@),
            params.parts() == components_of(*config),
            params.ecc_endpoint@ == config.controller.ecc_command@,
            text_of(params.router_ip) == text_of(config.controller.router_ip),
            params.eos_timeout == (TimeSpan { secs: config.controller.eos_timeout_s, millis: 0 }),
            params.eos_poll_ms == DEFAULT_EOS_POLL,
            params.command_timeout_ms == DEFAULT_COMMAND_TIMEOUT,
            params.ecc_timeout_ms == DEFAULT_ECC_TIMEOUT,
            params.status_timeout_ms == DEFAULT_STATUS_TIMEOUT,
    {
        let mut components: Vec<ComponentEndpoint> = Vec::new();
        components.push(
            ComponentEndpoint {
                name: "graw-writer".to_string(),
                endpoint: config.controller.graw_writer_command.clone(),
                kind: ComponentKind::GrawWriter,
            },
        );
        components.push(
            ComponentEndpoint {
                name: "decoder".to_string(),
                endpoint: config.controller.decoder_command.clone(),
                kind: ComponentKind::Decoder,
            },
        );
        let ghost all = components_of(*config);
        let mut cobos: Vec<CoboSpec> = Vec::new();
        let mut i: usize = 0;
        while i < config.cobo.len()
            invariant
                i <= config.cobo@.len(),
                cobos@.len() == i,
                forall|k: int| 0 <= k < i ==> (#[trigger] cobos@[k])@ == cobos_of(config.cobo@)[k],
            decreases config.cobo@.len() - i,
        {
            let c = &config.cobo[i];
            cobos.push(
                CoboSpec {
                    id: c.id,
                    listen: c.listen.clone(),
                    data_sender_id: c.data_sender_id.clone(),
                },
            );
            i = i + 1;
        }
        let mut i: usize = 0;
        while i < config.cobo.len() && i < config.controller.receiver_commands.len()
            invariant
                i <= config.cobo@.len(),
                i <= config.controller.receiver_commands@.len(),
                all == components_of(*config),
                components@.len() == i + 2,
                forall|k: int| 0 <= k < i + 2 ==> (#[trigger] components@[k])@ == all[k],
            decreases config.cobo@.len() - i,
        {
            let mut name: String = "receiver".to_string();
            push_decimal(&mut name, config.cobo[i].id as u64);
            components.push(
                ComponentEndpoint {
                    name,
                    endpoint: config.controller.receiver_commands[i].clone(),
                    kind: ComponentKind::Receiver { cobo_id: config.cobo[i].id },
                },
            );
            i = i + 1;
        }
        let params = ControllerParams {
            rest_listen: config.controller.rest_listen.clone(),
            passphrase: config.controller.passphrase.clone(),
            log_pull_bind: config.controller.log_pull_bind.clone(),
            ui_dir: copy_text(&config.controller.ui_dir),
            config_ids: config.controller.config_id.copy(),
            output_root: config.system.output_root.clone(),
            geometry_path: config.system.geometry.clone(),
            cobos,
            components,
            ecc_endpoint: config.controller.ecc_command.clone(),
            router_ip: copy_text(&config.controller.router_ip),
            eos_timeout: TimeSpan::from_secs(config.controller.eos_timeout_s),
            eos_poll_ms: DEFAULT_EOS_POLL,
            command_timeout_ms: DEFAULT_COMMAND_TIMEOUT,
            ecc_timeout_ms: DEFAULT_ECC_TIMEOUT,
            status_timeout_ms: DEFAULT_STATUS_TIMEOUT,
        };
        assert(params.parts() =~= all);
        assert(params.cobo_views() =~= cobos_of(config.cobo@));
        params
    }

    /// Number and listen address of each CoBo.
    pub fn cobo_listens(&self) -> (out: Vec<(u32, String)>)
        ensures
            out@.map_values(|p: (u32, String)| (p.0, p.1@)) == self.cobo_views().map_values(
                |c: CoboView| (c.id, c.listen),
            ),
    {
        let mut out: Vec<(u32, String)> = Vec::new();
        let mut i: usize = 0;
        while i < self.cobos.len()
            invariant
                i <= self.cobos@.len(),
                out@.len() == i,
                forall|k: int|
                    0 <= k < i ==> (#[trigger] out@[k]).0 == self.cobo_views()[k].id && out@[k].1@
                        == self.cobo_views()[k].listen,
            decreases self.cobos@.len() - i,
        {
            out.push((self.cobos[i].id, self.cobos[i].listen.clone()));
            i = i + 1;
        }
        assert(out@.map_values(|p: (u32, String)| (p.0, p.1@)) =~= self.cobo_views().map_values(
            |c: CoboView| (c.id, c.listen),
        ));
        out
    }

    /// What the electronics call a CoBo: what the first entry for it says, or its usual name.
    pub fn data_sender_id(&self, cobo_id: u32) -> (s: String)
        ensures
            s@ == sender_of(self.cobo_views(), cobo_id),
    {
        let mut i: usize = 0;
        assert(self.cobo_views().skip(0) =~= self.cobo_views());
        while i < self.cobos.len()
            invariant
                i <= self.cobos@.len(),
                sender_of(self.cobo_views().skip(i as int), cobo_id) == sender_of(
                    self.cobo_views(),
                    cobo_id,
                ),
            decreases self.cobos@.len() - i,
        {
            assert(self.cobo_views().skip(i as int).first() == self.cobos@[i as int]@);
            assert(self.cobo_views().skip(i as int).drop_first() =~= self.cobo_views().skip(i + 1));
            if self.cobos[i].id == cobo_id {
                return self.cobos[i].data_sender_id.clone();
            }
            i = i + 1;
        }
        let mut s: String = "CoBo[".to_string();
        push_decimal(&mut s, cobo_id as u64);
        s.append("]");
        s
    }
}

/// What the electronics call a CoBo: what the first entry for it says, or its usual name.
pub open spec fn sender_of(cobos: Seq<CoboView>, cobo_id: u32) -> Seq<char>
    decreases cobos.len(),
{
    if cobos.len() == 0 {
        "CoBo["@ + text::decimal(cobo_id as nat) + "]"@
    } else if cobos.first().id == cobo_id {
        cobos.first().data_sender_id
    } else {
        sender_of(cobos.drop_first(), cobo_id)
    }
}

// ---------------------------------------------------------------------
// Data links
// ---------------------------------------------------------------------

/// What the bridge to the electronics answers.
#[derive(Debug, Clone, PartialEq, Eq)]
pub struct EccReply {
    pub ok: bool,
    /// The state that the electronics are in.
    pub state: String,
    pub error: String,
}

/// The value of an [`EccReply`].
pub struct EccView {
    pub ok: bool,
    pub state: Seq<char>,
    pub error: Seq<char>,
}

impl View for EccReply {
    type V = EccView;

    open spec fn view(&self) -> EccView {
        EccView { ok: self.ok, state: self.state@, error: self.error@ }
    }
}

/// Where a CoBo is to connect to.
#[derive(Debug, Clone, PartialEq, Eq)]
pub struct RouterLink {
    pub cobo_id: u32,
    pub router_ip: String,
    pub router_port: u16,
}

/// The value of a [`RouterLink`].
pub struct LinkView {
    pub cobo_id: u32,
    pub router_ip: Seq<char>,
    pub router_port: u16,
}

impl View for RouterLink {
    type V = LinkView;

    open spec fn view(&self) -> LinkView {
        LinkView {
            cobo_id: self.cobo_id,
            router_ip: self.router_ip@,
            router_port: self.router_port,
        }
    }
}

/// The place of the last `c` in `s`, or -1 if there is none.
pub open spec fn last_at(s: Seq<char>, c: char) -> int
    decreases s.len(),
{
    if s.len() == 0 {
        -1
    } else if s.last() == c {
        s.len() - 1
    } else {
        last_at(s.drop_last(), c)
    }
}

/// Whether `c` is a square bracket.
pub open spec fn is_bracket(c: char) -> bool {
    c == '[' || c == ']'
}

/// `s` without the square brackets at its ends.
pub open spec fn unbracketed(s: Seq<char>) -> Seq<char>
    decreases s.len(),
{
    if s.len() == 0 {
        s
    } else if is_bracket(s.first()) {
        unbracketed(s.drop_first())
    } else if is_bracket(s.last()) {
        unbracketed(s.drop_last())
    } else {
        s
    }
}

/// The host in `host:port`, if there is a colon.
pub open spec fn host_of(address: Seq<char>) -> Option<Seq<char>> {
    let at = last_at(address, ':');
    if at < 0 {
        None
    } else {
        Some(unbracketed(address.take(at)))
    }
}

/// Whether a host names a machine that can be connected to.
pub open spec fn is_definite(host: Seq<char>) -> bool {
    host.len() > 0 && host != "0.0.0.0"@ && host != "*"@ && host != "::"@
}

/// The address that a CoBo is to connect to: the one that is configured, else the one that the
/// receiver is bound to, else this machine.
pub open spec fn router_ip_of(configured: Option<Seq<char>>, bind_address: Option<Seq<char>>) -> Seq<
    char,
> {
    match configured {
        Some(ip) => ip,
        None => match bind_address {
            Some(address) => match host_of(address) {
                Some(host) => if is_definite(host) {
                    host
                } else {
                    "127.0.0.1"@
                },
                None => "127.0.0.1"@,
            },
            None => "127.0.0.1"@,
        },
    }
}

/// An address that is bound in full is used as it stands, whatever its port.
pub proof fn law_a_definite_host_is_used(host: Seq<char>, port: Seq<char>)
    requires
        is_definite(host),
        !is_bracket(host.first()),
        !is_bracket(host.last()),
        forall|i: int| 0 <= i < port.len() ==> port[i] != ':',
    ensures
        router_ip_of(None, Some(host + seq![':'] + port)) == host,
{
    let address = host + seq![':'] + port;
    lemma_last_at(host, port);
    assert(address.take(host.len() as int) =~= host);
    assert(unbracketed(host) == host);
}

proof fn lemma_last_at(host: Seq<char>, port: Seq<char>)
    requires
        forall|i: int| 0 <= i < port.len() ==> port[i] != ':',
    ensures
        last_at(host + seq![':'] + port, ':') == host.len(),
    decreases port.len(),
{
    let address = host + seq![':'] + port;
    if port.len() > 0 {
        assert(address.drop_last() =~= host + seq![':'] + port.drop_last());
        assert(address.last() == port.last());
        lemma_last_at(host, port.drop_last());
    } else {
        assert(address.last() == ':');
    }
}

fn host_text(address: &str) -> (host: Option<String>)
    ensures
        text_of(host) == host_of(address@),
{
    let chars: Vec<char> = chars_of(address);
    let mut at: usize = chars.len();
    assert(address@.take(at as int) =~= address@);
    while at > 0 && chars[at - 1] != ':'
        invariant
            at <= chars@.len(),
            chars@ == address@,
            last_at(address@.take(at as int), ':') == last_at(address@, ':'),
        decreases at,
    {
        assert(address@.take(at as int).drop_last() =~= address@.take(at - 1));
        at = at - 1;
    }
    if at == 0 {
        assert(address@.take(0) =~= Seq::empty());
        return None;
    }
    assert(address@.take(at as int).last() == ':');
    let mut from: usize = 0;
    let mut to: usize = at - 1;
    let ghost host = address@.take(at - 1);
    assert(chars@.subrange(0, at - 1) =~= host);
    while from < to && (chars[from] == '[' || chars[from] == ']' || chars[to - 1] == '['
        || chars[to - 1] == ']')
        invariant
            from <= to < chars@.len(),
            unbracketed(chars@.subrange(from as int, to as int)) == unbracketed(host),
        decreases to - from,
    {
        let ghost s = chars@.subrange(from as int, to as int);
        if chars[from] == '[' || chars[from] == ']' {
            assert(s.drop_first() =~= chars@.subrange(from + 1, to as int));
            from = from + 1;
        } else {
            assert(s.drop_last() =~= chars@.subrange(from as int, to - 1));
            to = to - 1;
        }
    }
    let rest = &chars.as_slice()[from..to];
    assert(rest@ =~= chars@.subrange(from as int, to as int));
    Some(string_of(rest))
}

/// The address that a CoBo is to connect to: the one that is configured, else the one that the
/// receiver is bound to, else this machine.
pub fn router_ip(configured: &Option<String>, bind_address: Option<&String>) -> (ip: String)
    ensures
        ip@ == router_ip_of(
            text_of(*configured),
            match bind_address {
                Some(a) => Some(a@),
                None => None,
            },
        ),
{
    if let Some(ip) = configured {
        return ip.clone();
    }
    match bind_address {
        Some(address) => match host_text(address.as_str()) {
            Some(host) => {
                let h = host.as_str();
                assert(""@.len() == 0) by {
                    reveal_strlit("");
                }
                assert(h@.len() == 0 ==> h@ =~= ""@);
                if !same(h, "") && !same(h, "0.0.0.0") && !same(h, "*") && !same(h, "::") {
                    host
                } else {
                    "127.0.0.1".to_string()
                }
            },
            None => "127.0.0.1".to_string(),
        },
        None => "127.0.0.1".to_string(),
    }
}

/// Where a CoBo is to connect to, as its receiver's answer says it; `None` where the answer names
/// no port.
pub open spec fn link_of(
    configured: Option<Seq<char>>,
    cobo_id: u32,
    metrics: Option<Seq<(Seq<char>, command::MetricView)>>,
) -> Option<LinkView> {
    match metrics {
        None => None,
        Some(m) => match command::metric_u64(m, "router_port"@) {
            Some(port) => if port <= u16::MAX {
                Some(
                    LinkView {
                        cobo_id,
                        router_ip: router_ip_of(
                            configured,
                            command::metric_text(m, "bind_address"@),
                        ),
                        router_port: port as u16,
                    },
                )
            } else {
                None
            },
            None => None,
        },
    }
}

/// What is said where a receiver's answer names no port.
pub open spec fn no_port_message() -> Seq<char> {
    "Arm response carries no router_port"@
}

/// Where a CoBo is to connect to, as its receiver's answer says it; `None` where the answer names
/// no port.
pub fn router_link(configured: &Option<String>, cobo_id: u32, response: &CommandResponse) -> (link:
    Option<RouterLink>)
    ensures
        match link_of(text_of(*configured), cobo_id, response@.metrics) {
            Some(l) => link matches Some(r) && r@ == l,
            None => link is None,
        },
{
    match &response.metrics {
        None => None,
        Some(m) => match m.get_u64("router_port") {
            Some(port) => {
                if port > 65535 {
                    return None;
                }
                Some(
                    RouterLink {
                        cobo_id,
                        router_ip: router_ip(configured, m.get_text("bind_address")),
                        router_port: port as u16,
                    },
                )
            },
            None => None,
        },
    }
}

/// What a CoBo is told about its data link.
#[derive(Debug, Clone, PartialEq, Eq)]
pub struct LinkItem {
    /// What the electronics call the CoBo.
    pub sender: String,
    pub router_ip: String,
    pub router_port: u16,
    /// The kind of link.
    pub flow_type: String,
}

/// The value of a [`LinkItem`].
pub struct ItemView {
    pub sender: Seq<char>,
    pub router_ip: Seq<char>,
    pub router_port: u16,
    pub flow_type: Seq<char>,
}

impl View for LinkItem {
    type V = ItemView;

    open spec fn view(&self) -> ItemView {
        ItemView {
            sender: self.sender@,
            router_ip: self.router_ip@,
            router_port: self.router_port,
            flow_type: self.flow_type@,
        }
    }
}

/// What the electronics are asked to do.
#[derive(Debug, Clone, PartialEq, Eq)]
pub struct EccRequest {
    pub action: String,
    /// The configuration to use, where the action needs one.
    pub config_id: Option<String>,
    /// The data links, where the action sets them up.
    pub links: Option<Vec<LinkItem>>,
}

/// The value of an [`EccRequest`].
pub struct EccRequestView {
    pub action: Seq<char>,
    pub config_id: Option<Seq<char>>,
    pub links: Option<Seq<ItemView>>,
}

impl View for EccRequest {
    type V = EccRequestView;

    open spec fn view(&self) -> EccRequestView {
        EccRequestView {
            action: self.action@,
            config_id: text_of(self.config_id),
            links: match self.links {
                Some(l) => Some(l@.map_values(|i: LinkItem| i@)),
                None => None,
            },
        }
    }
}

impl EccRequest {
    /// A request for an action that needs no configuration.
    pub fn plain(action: &str) -> (r: Self)
        ensures
            r@ == (EccRequestView { action: action@, config_id: None, links: None }),
    {
        EccRequest { action: action.to_string(), config_id: None, links: None }
    }

    /// A request for an action with a configuration.
    pub fn with_config(action: &str, config_id: &str) -> (r: Self)
        ensures
            r@ == (EccRequestView {
                action: action@,
                config_id: Some(config_id@),
                links: None,
            }),
    {
        EccRequest {
            action: action.to_string(),
            config_id: Some(config_id.to_string()),
            links: None,
        }
    }
}

/// What the CoBos are told about their data links.
pub open spec fn items_of(cobos: Seq<CoboView>, links: Seq<LinkView>) -> Seq<ItemView> {
    links.map_values(
        |l: LinkView|
            ItemView {
                sender: sender_of(cobos, l.cobo_id),
                router_ip: l.router_ip,
                router_port: l.router_port,
                flow_type: FLOW_TYPE@,
            },
    )
}

/// The request that sets up the data links.
pub open spec fn configure_of(params: ControllerParams, links: Seq<LinkView>) -> EccRequestView {
    EccRequestView {
        action: "configure"@,
        config_id: Some(params.config_ids@.configure),
        links: Some(items_of(params.cobo_views(), links)),
    }
}

/// The request that sets up the data links.
pub fn configure_request(params: &ControllerParams, links: &Vec<RouterLink>) -> (r: EccRequest)
    ensures
        r@ == configure_of(*params, links@.map_values(|l: RouterLink| l@)),
{
    let ghost all = items_of(params.cobo_views(), links@.map_values(|l: RouterLink| l@));
    let mut items: Vec<LinkItem> = Vec::new();
    let mut i: usize = 0;
    while i < links.len()
        invariant
            i <= links@.len(),
            all == items_of(params.cobo_views(), links@.map_values(|l: RouterLink| l@)),
            items@.len() == i,
            forall|k: int| 0 <= k < i ==> (#[trigger] items@[k])@ == all[k],
        decreases links@.len() - i,
    {
        items.push(
            LinkItem {
                sender: params.data_sender_id(links[i].cobo_id),
                router_ip: links[i].router_ip.clone(),
                router_port: links[i].router_port,
                flow_type: FLOW_TYPE.to_string(),
            },
        );
        i = i + 1;
    }
    assert(items@.map_values(|i: LinkItem| i@) =~= all);
    EccRequest {
        action: "configure".to_string(),
        config_id: Some(params.config_ids.configure.clone()),
        links: Some(items),
    }
}

// ---------------------------------------------------------------------
// What the components report
// ---------------------------------------------------------------------

/// What is known of a component.
#[derive(Debug, Clone)]
pub struct ComponentStatus {
    pub name: String,
    pub kind: ComponentKind,
    pub endpoint: String,
    pub reachable: bool,
    pub state: Option<ComponentState>,
    pub run_number: Option<u32>,
    pub metrics: Option<Metrics>,
    pub error: Option<String>,
}

/// The value of a [`ComponentStatus`].
pub struct StatusView {
    pub name: Seq<char>,
    pub kind: ComponentKind,
    pub endpoint: Seq<char>,
    pub reachable: bool,
    pub state: Option<ComponentState>,
    pub run_number: Option<u32>,
    pub metrics: Option<Seq<(Seq<char>, command::MetricView)>>,
    pub error: Option<Seq<char>>,
}

impl View for ComponentStatus {
    type V = StatusView;

    open spec fn view(&self) -> StatusView {
        StatusView {
            name: self.name@,
            kind: self.kind,
            endpoint: self.endpoint@,
            reachable: self.reachable,
            state: self.state,
            run_number: self.run_number,
            metrics: match self.metrics {
                Some(m) => Some(m@),
                None => None,
            },
            error: text_of(self.error),
        }
    }
}

/// What an answer says of a component.
pub open spec fn status_of(part: EndpointView, response: command::ResponseView) -> StatusView {
    StatusView {
        name: part.name,
        kind: part.kind,
        endpoint: part.endpoint,
        reachable: true,
        state: Some(response.state),
        run_number: response.run_number,
        metrics: response.metrics,
        error: if response.success {
            None
        } else {
            Some(response.message)
        },
    }
}

/// What is known of a component that does not answer.
pub open spec fn status_unreachable(part: EndpointView, error: Seq<char>) -> StatusView {
    StatusView {
        name: part.name,
        kind: part.kind,
        endpoint: part.endpoint,
        reachable: false,
        state: None,
        run_number: None,
        metrics: None,
        error: Some(error),
    }
}

impl StatusView {
    /// A number that the component reports.
    pub open spec fn number(self, key: Seq<char>) -> Option<u64> {
        match self.metrics {
            Some(m) => command::metric_u64(m, key),
            None => None,
        }
    }

    /// A number that the component reports, or 0 where it reports none.
    pub open spec fn count(self, key: Seq<char>) -> u64 {
        match self.number(key) {
            Some(n) => n,
            None => 0,
        }
    }
}

impl ComponentStatus {
    /// What an answer says of a component.
    pub fn from_response(component: &ComponentEndpoint, response: CommandResponse) -> (status: Self)
        ensures
            status@ == status_of(component@, response@),
    {
        ComponentStatus {
            name: component.name.clone(),
            kind: component.kind,
            endpoint: component.endpoint.clone(),
            reachable: true,
            state: Some(response.state),
            run_number: response.run_number,
            metrics: response.metrics,
            error: if response.success {
                None
            } else {
                Some(response.message)
            },
        }
    }

    /// What is known of a component that does not answer.
    pub fn unreachable(component: &ComponentEndpoint, error: String) -> (status: Self)
        ensures
            status@ == status_unreachable(component@, error@),
    {
        ComponentStatus {
            name: component.name.clone(),
            kind: component.kind,
            endpoint: component.endpoint.clone(),
            reachable: false,
            state: None,
            run_number: None,
            metrics: None,
            error: Some(error),
        }
    }

    /// A number that the component reports.
    pub fn metric_u64(&self, key: &str) -> (n: Option<u64>)
        ensures
            n == self@.number(key@),
    {
        match &self.metrics {
            Some(m) => m.get_u64(key),
            None => None,
        }
    }

    fn count(&self, key: &str) -> (n: u64)
        ensures
            n == self@.count(key@),
    {
        match self.metric_u64(key) {
            Some(n) => n,
            None => 0,
        }
    }
}

/// What is counted in a run. What no component reports is `None`.
#[derive(Debug, Clone)]
pub struct Counters {
    pub events_built: Option<u64>,
    pub events_incomplete: Option<u64>,
    pub late_fragments: Option<u64>,
    /// Frames for each CoBo, in ascending order.
    pub frames: Vec<(u64, u64)>,
    pub overflow_frames: Option<u64>,
    pub malformed: Option<u64>,
}

/// The frames that the receivers report, for each CoBo.
pub open spec fn reported_frames(statuses: Seq<StatusView>) -> Map<u64, u64>
    decreases statuses.len(),
{
    if statuses.len() == 0 {
        Map::empty()
    } else {
        match statuses.last().kind {
            ComponentKind::Receiver { cobo_id } => reported_frames(statuses.drop_last()).insert(
                cobo_id as u64,
                statuses.last().count("frames"@),
            ),
            _ => reported_frames(statuses.drop_last()),
        }
    }
}

/// Counts with an entry for every CoBo.
pub open spec fn with_cobos(counts: Map<u64, u64>, cobos: Seq<CoboView>) -> Map<u64, u64>
    decreases cobos.len(),
{
    if cobos.len() == 0 {
        counts
    } else {
        let before = with_cobos(counts, cobos.drop_last());
        if before.contains_key(cobos.last().id as u64) {
            before
        } else {
            before.insert(cobos.last().id as u64, 0)
        }
    }
}

/// The frames that the receivers had no room for.
pub open spec fn overflow_total(statuses: Seq<StatusView>) -> nat
    decreases statuses.len(),
{
    if statuses.len() == 0 {
        0
    } else {
        overflow_total(statuses.drop_last()) + if statuses.last().kind is Receiver {
            statuses.last().count("overflow_frames"@) as nat
        } else {
            0nat
        }
    }
}

/// The frames that the decoder could not read.
pub open spec fn malformed_total(statuses: Seq<StatusView>) -> nat
    decreases statuses.len(),
{
    if statuses.len() == 0 {
        0
    } else {
        malformed_total(statuses.drop_last()) + if statuses.last().kind is Decoder {
            statuses.last().count("malformed"@) as nat
        } else {
            0nat
        }
    }
}

/// The values of statuses.
pub open spec fn status_views(statuses: Seq<ComponentStatus>) -> Seq<StatusView> {
    statuses.map_values(|s: ComponentStatus| s@)
}

/// Whether the sums over all components fit.
pub open spec fn totals_fit(statuses: Seq<StatusView>) -> bool {
    overflow_total(statuses) <= u64::MAX && malformed_total(statuses) <= u64::MAX
}

/// Both sums, where they fit.
fn totals(statuses: &Vec<ComponentStatus>) -> (sums: Option<(u64, u64)>)
    ensures
        sums == if totals_fit(status_views(statuses@)) {
            Some(
                (
                    overflow_total(status_views(statuses@)) as u64,
                    malformed_total(status_views(statuses@)) as u64,
                ),
            )
        } else {
            None::<(u64, u64)>
        },
{
    let ghost all = status_views(statuses@);
    let mut overflow: u64 = 0;
    let mut malformed: u64 = 0;
    let mut i: usize = 0;
    assert(all.take(0) =~= Seq::empty());
    while i < statuses.len()
        invariant
            i <= statuses@.len(),
            all == status_views(statuses@),
            overflow == overflow_total(all.take(i as int)),
            malformed == malformed_total(all.take(i as int)),
        decreases statuses@.len() - i,
    {
        proof {
            assert(all.take(i + 1).drop_last() =~= all.take(i as int));
            assert(all.take(i + 1).last() == statuses@[i as int]@);
            lemma_totals_grow(all, i + 1);
        }
        match statuses[i].kind {
            ComponentKind::Receiver { .. } => {
                match overflow.checked_add(statuses[i].count("overflow_frames")) {
                    Some(sum) => {
                        overflow = sum;
                    },
                    None => {
                        return None;
                    },
                }
            },
            ComponentKind::Decoder => {
                match malformed.checked_add(statuses[i].count("malformed")) {
                    Some(sum) => {
                        malformed = sum;
                    },
                    None => {
                        return None;
                    },
                }
            },
            ComponentKind::GrawWriter => {},
        }
        i = i + 1;
    }
    assert(all.take(i as int) =~= all);
    Some((overflow, malformed))
}

proof fn lemma_totals_grow(statuses: Seq<StatusView>, n: int)
    requires
        0 <= n <= statuses.len(),
    ensures
        overflow_total(statuses.take(n)) <= overflow_total(statuses),
        malformed_total(statuses.take(n)) <= malformed_total(statuses),
    decreases statuses.len() - n,
{
    if n < statuses.len() {
        lemma_totals_grow(statuses, n + 1);
        assert(statuses.take(n + 1).drop_last() =~= statuses.take(n));
    } else {
        assert(statuses.take(n) =~= statuses);
    }
}

/// Whether the sums over all components fit.
pub fn counters_fit(statuses: &Vec<ComponentStatus>) -> (r: bool)
    ensures
        r == totals_fit(status_views(statuses@)),
{
    totals(statuses).is_some()
}

/// What is counted in a run, as far as the components report it. Every CoBo has an entry, whether
/// its receiver reports or not.
pub open spec fn counters_tell(c: Counters, cobos: Seq<CoboView>, statuses: Seq<StatusView>) -> bool {
    &&& c.events_built is None
    &&& c.events_incomplete is None
    &&& c.late_fragments is None
    &&& c.frames@ == tally::listing(with_cobos(reported_frames(statuses), cobos))
    &&& c.overflow_frames == Some(overflow_total(statuses) as u64)
    &&& c.malformed == Some(malformed_total(statuses) as u64)
}

/// What is counted in a run, as far as the components report it. Every CoBo has an entry, whether
/// its receiver reports or not.
pub fn counters_from(params: &ControllerParams, statuses: &Vec<ComponentStatus>) -> (c: Counters)
    requires
        totals_fit(status_views(statuses@)),
    ensures
        counters_tell(c, params.cobo_views(), status_views(statuses@)),
{
    let ghost all = status_views(statuses@);
    let mut frames: Tally = Tally::new();
    let mut i: usize = 0;
    assert(all.take(0) =~= Seq::empty());
    while i < statuses.len()
        invariant
            i <= statuses@.len(),
            all == status_views(statuses@),
            frames.wf(),
            frames@ == reported_frames(all.take(i as int)),
        decreases statuses@.len() - i,
    {
        proof {
            assert(all.take(i + 1).drop_last() =~= all.take(i as int));
            assert(all.take(i + 1).last() == statuses@[i as int]@);
        }
        if let ComponentKind::Receiver { cobo_id } = statuses[i].kind {
            frames.set(cobo_id as u64, statuses[i].count("frames"));
        }
        i = i + 1;
    }
    assert(all.take(i as int) =~= all);
    let ghost cobos = params.cobo_views();
    let mut j: usize = 0;
    assert(cobos.take(0) =~= Seq::empty());
    while j < params.cobos.len()
        invariant
            j <= params.cobos@.len(),
            cobos == params.cobo_views(),
            frames.wf(),
            frames@ == with_cobos(reported_frames(all), cobos.take(j as int)),
        decreases params.cobos@.len() - j,
    {
        proof {
            assert(cobos.take(j + 1).drop_last() =~= cobos.take(j as int));
            assert(cobos.take(j + 1).last() == params.cobos@[j as int]@);
        }
        let id: u64 = params.cobos[j].id as u64;
        if !frames.has(id) {
            frames.set(id, 0);
        }
        j = j + 1;
    }
    assert(cobos.take(j as int) =~= cobos);
    let (overflow, malformed) = match totals(statuses) {
        Some(sums) => sums,
        None => (0, 0),
    };
    Counters {
        events_built: None,
        events_incomplete: None,
        late_fragments: None,
        frames: frames.list(),
        overflow_frames: Some(overflow),
        malformed: Some(malformed),
    }
}

/// A file that a run has left.
#[derive(Debug, Clone, PartialEq, Eq)]
pub struct OutputFile {
    pub path: String,
    pub bytes: u64,
}

/// The value of an [`OutputFile`].
pub struct OutputView {
    pub path: Seq<char>,
    pub bytes: u64,
}

impl View for OutputFile {
    type V = OutputView;

    open spec fn view(&self) -> OutputView {
        OutputView { path: self.path@, bytes: self.bytes }
    }
}

/// The entries that tell both a path and a length.
pub open spec fn complete_files(entries: Seq<FileView>) -> Seq<OutputView>
    decreases entries.len(),
{
    if entries.len() == 0 {
        Seq::empty()
    } else {
        let before = complete_files(entries.drop_last());
        match (entries.last().path, entries.last().bytes) {
            (Some(path), Some(bytes)) => before.push(OutputView { path, bytes }),
            _ => before,
        }
    }
}

/// The files that a component lists.
pub open spec fn files_listed(status: StatusView) -> Seq<OutputView> {
    if status.kind is GrawWriter {
        match status.metrics {
            Some(m) => match command::metric(m, "files"@) {
                Some(command::MetricView::Files(entries)) => complete_files(entries),
                _ => Seq::empty(),
            },
            None => Seq::empty(),
        }
    } else {
        Seq::empty()
    }
}

/// The files that the writers of raw data list.
pub open spec fn files_of(statuses: Seq<StatusView>) -> Seq<OutputView>
    decreases statuses.len(),
{
    if statuses.len() == 0 {
        Seq::empty()
    } else {
        files_of(statuses.drop_last()) + files_listed(statuses.last())
    }
}

spec fn output_views(files: Seq<OutputFile>) -> Seq<OutputView> {
    files.map_values(|f: OutputFile| f@)
}

fn push_files(files: &mut Vec<OutputFile>, entries: &Vec<FileEntry>)
    ensures
        output_views(final(files)@) == output_views(old(files)@) + complete_files(
            entries@.map_values(|e: FileEntry| e@),
        ),
{
    let ghost all = entries@.map_values(|e: FileEntry| e@);
    let ghost start = output_views(files@);
    let mut i: usize = 0;
    assert(all.take(0) =~= Seq::empty());
    assert(output_views(files@) =~= start + complete_files(all.take(0)));
    while i < entries.len()
        invariant
            i <= entries@.len(),
            all == entries@.map_values(|e: FileEntry| e@),
            output_views(files@) == start + complete_files(all.take(i as int)),
        decreases entries@.len() - i,
    {
        proof {
            assert(all.take(i + 1).drop_last() =~= all.take(i as int));
            assert(all.take(i + 1).last() == entries@[i as int]@);
        }
        let ghost before = files@;
        match (&entries[i].path, entries[i].bytes) {
            (Some(path), Some(bytes)) => {
                files.push(OutputFile { path: path.clone(), bytes });
                assert(output_views(files@) =~= output_views(before).push(
                    OutputView { path: path@, bytes },
                ));
            },
            _ => {},
        }
        i = i + 1;
        assert(output_views(files@) =~= start + complete_files(all.take(i as int)));
    }
    assert(all.take(i as int) =~= all);
}

/// The files that the writers of raw data list.
pub fn files_from(statuses: &Vec<ComponentStatus>) -> (files: Vec<OutputFile>)
    ensures
        files@.map_values(|f: OutputFile| f@) == files_of(status_views(statuses@)),
{
    let ghost all = status_views(statuses@);
    let mut files: Vec<OutputFile> = Vec::new();
    let mut i: usize = 0;
    assert(all.take(0) =~= Seq::empty());
    assert(output_views(files@) =~= Seq::empty());
    while i < statuses.len()
        invariant
            i <= statuses@.len(),
            all == status_views(statuses@),
            output_views(files@) == files_of(all.take(i as int)),
        decreases statuses@.len() - i,
    {
        proof {
            assert(all.take(i + 1).drop_last() =~= all.take(i as int));
            assert(all.take(i + 1).last() == statuses@[i as int]@);
        }
        let ghost before = output_views(files@);
        if statuses[i].kind == ComponentKind::GrawWriter {
            if let Some(m) = &statuses[i].metrics {
                if let Some(Metric::Files(entries)) = m.get("files") {
                    push_files(&mut files, entries);
                }
            }
        }
        assert(output_views(files@) =~= before + files_listed(all[i as int]));
        i = i + 1;
    }
    assert(all.take(i as int) =~= all);
    files
}

// ---------------------------------------------------------------------
// How a run is stopped, and what is recorded of its configuration
// ---------------------------------------------------------------------

/// How a run is stopped.
#[derive(Debug, Clone)]
pub enum StopMode {
    /// All streams are given time to end.
    Normal,
    /// All streams are ended at once, for this reason.
    Abort(String),
}

/// The value of a [`StopMode`].
pub enum ModeView {
    Normal,
    Abort(Seq<char>),
}

impl View for StopMode {
    type V = ModeView;

    open spec fn view(&self) -> ModeView {
        match self {
            StopMode::Normal => ModeView::Normal,
            StopMode::Abort(why) => ModeView::Abort(why@),
        }
    }
}

/// The names of the components that are in error or do not answer.
pub open spec fn broken(statuses: Seq<StatusView>) -> Seq<Seq<char>>
    decreases statuses.len(),
{
    if statuses.len() == 0 {
        Seq::empty()
    } else {
        let before = broken(statuses.drop_last());
        if statuses.last().state == Some(ComponentState::Error) || !statuses.last().reachable {
            before.push(statuses.last().name)
        } else {
            before
        }
    }
}

/// How a run is to be stopped: where a component is in error or does not answer, it is aborted.
pub fn stop_mode(statuses: &Vec<ComponentStatus>) -> (mode: StopMode)
    ensures
        mode@ == if broken(status_views(statuses@)).len() == 0 {
            ModeView::Normal
        } else {
            ModeView::Abort(
                "component-error:"@ + text::join(broken(status_views(statuses@)), ","@),
            )
        },
{
    let ghost all = status_views(statuses@);
    let mut names: Vec<String> = Vec::new();
    let mut i: usize = 0;
    assert(all.take(0) =~= Seq::empty());
    assert(text::values(names@) =~= Seq::empty());
    while i < statuses.len()
        invariant
            i <= statuses@.len(),
            all == status_views(statuses@),
            text::values(names@) == broken(all.take(i as int)),
        decreases statuses@.len() - i,
    {
        proof {
            assert(all.take(i + 1).drop_last() =~= all.take(i as int));
            assert(all.take(i + 1).last() == statuses@[i as int]@);
        }
        let in_error: bool = match statuses[i].state {
            Some(state) => state == ComponentState::Error,
            None => false,
        };
        if in_error || !statuses[i].reachable {
            push_text(&mut names, statuses[i].name.clone());
        }
        i = i + 1;
    }
    assert(all.take(i as int) =~= all);
    assert(text::values(names@).len() == names@.len());
    if names.len() == 0 {
        StopMode::Normal
    } else {
        let mut why: String = "component-error:".to_string();
        let list: String = join_texts(&names, ",");
        why.append(list.as_str());
        StopMode::Abort(why)
    }
}

/// What is recorded of the configuration of a run: the one name that all three phases share, or,
/// where they differ, the name of the last phase and all three.
pub fn run_start_config_fields(ids: &ConfigIds) -> (fields: (String, Option<ConfigIds>))
    ensures
        match ids@.common() {
            Some(id) => fields.0@ == id && fields.1 is None,
            None => fields.0@ == ids@.configure && (fields.1 matches Some(all) && all@ == ids@),
        },
{
    match ids.same_value() {
        Some(id) => (id.to_string(), None),
        None => (ids.configure.clone(), Some(ids.copy())),
    }
}

// ---------------------------------------------------------------------
// Who may operate the controller
// ---------------------------------------------------------------------

/// What the controller is at.
#[derive(Debug, Clone, Copy, PartialEq, Eq, Structural)]
pub enum Phase {
    Idle,
    Starting,
    Running,
    Stopping,
}

impl Default for Phase {
    fn default() -> (phase: Self)
        ensures
            phase == Phase::Idle,
    {
        Phase::Idle
    }
}

/// The name of a phase.
pub open spec fn phase_name(phase: Phase) -> Seq<char> {
    match phase {
        Phase::Idle => "Idle"@,
        Phase::Starting => "Starting"@,
        Phase::Running => "Running"@,
        Phase::Stopping => "Stopping"@,
    }
}

impl Phase {
    /// The phase's name.
    pub fn name(&self) -> (s: &'static str)
        ensures
            s@ == phase_name(*self),
    {
        match self {
            Phase::Idle => "Idle",
            Phase::Starting => "Starting",
            Phase::Running => "Running",
            Phase::Stopping => "Stopping",
        }
    }
}

/// A run that was started.
#[derive(Debug, Clone)]
pub struct ActiveRun {
    pub run: u32,
    pub operator: String,
    pub comment: String,
    /// When it was started, as it is recorded.
    pub started_ts: String,
    /// When it was started, in nanoseconds of the process's clock.
    pub started_ns: u64,
}

struct Session {
    token: String,
    operator: String,
}

/// The token of an operator: the process, the time, and a number that is given only once.
pub open spec fn token_text(pid: u32, nanos: u128, n: u64) -> Seq<char> {
    text::hexadecimal(pid as nat) + "-"@ + text::hexadecimal(nanos as nat) + "-"@
        + text::hexadecimal(n as nat)
}

/// The token of an operator: the process, the time, and a number that is given only once.
pub fn new_token(pid: u32, nanos: u128, n: u64) -> (token: String)
    ensures
        token@ == token_text(pid, nanos, n),
{
    let mut s: String = String::new();
    push_hexadecimal(&mut s, pid as u128);
    assert(s@ =~= text::hexadecimal(pid as nat));
    s.append("-");
    push_hexadecimal(&mut s, nanos);
    s.append("-");
    push_hexadecimal(&mut s, n as u128);
    s
}

/// Tokens with different numbers differ, whatever the process and the time are.
pub proof fn law_tokens_are_unique(
    pid: u32,
    nanos: u128,
    n: u64,
    other_pid: u32,
    other_nanos: u128,
    m: u64,
)
    requires
        n != m,
    ensures
        token_text(pid, nanos, n) != token_text(other_pid, other_nanos, m),
{
    reveal_strlit("-");
    let a = token_text(pid, nanos, n);
    let b = token_text(other_pid, other_nanos, m);
    let x = text::hexadecimal(n as nat);
    let y = text::hexadecimal(m as nat);
    text::law_hexadecimal_holds_no_hyphen(n as nat);
    text::law_hexadecimal_holds_no_hyphen(m as nat);
    if a == b {
        let i = a.len() - x.len() - 1;
        let j = b.len() - y.len() - 1;
        assert(a[i] == '-');
        assert(b[j] == '-');
        if i < j {
            assert(a[j] == x[j - i - 1]);
            assert(x.contains(x[j - i - 1]));
        } else if j < i {
            assert(b[i] == y[i - j - 1]);
            assert(y.contains(y[i - j - 1]));
        }
        assert(a.skip(i + 1) =~= x);
        assert(b.skip(j + 1) =~= y);
        text::law_hexadecimal_is_injective(n as nat, m as nat);
    }
}

/// Why a request is turned down.
#[derive(Debug, Clone)]
pub enum Refusal {
    /// The passphrase is wrong.
    Forbidden(String),
    /// The token is not the one that counts.
    Unauthorized(String),
    /// The request makes no sense.
    BadRequest(String),
    /// The request cannot be met now.
    Conflict(String),
}

/// The value of a [`Refusal`].
pub enum RefusalView {
    Forbidden(Seq<char>),
    Unauthorized(Seq<char>),
    BadRequest(Seq<char>),
    Conflict(Seq<char>),
}

impl View for Refusal {
    type V = RefusalView;

    open spec fn view(&self) -> RefusalView {
        match self {
            Refusal::Forbidden(why) => RefusalView::Forbidden(why@),
            Refusal::Unauthorized(why) => RefusalView::Unauthorized(why@),
            Refusal::BadRequest(why) => RefusalView::BadRequest(why@),
            Refusal::Conflict(why) => RefusalView::Conflict(why@),
        }
    }
}

impl RefusalView {
    /// The code with which the request is answered.
    pub open spec fn code_of(self) -> u16 {
        match self {
            RefusalView::Forbidden(_) => 403,
            RefusalView::Unauthorized(_) => 401,
            RefusalView::BadRequest(_) => 400,
            RefusalView::Conflict(_) => 409,
        }
    }

    /// The reason.
    pub open spec fn why_of(self) -> Seq<char> {
        match self {
            RefusalView::Forbidden(why) => why,
            RefusalView::Unauthorized(why) => why,
            RefusalView::BadRequest(why) => why,
            RefusalView::Conflict(why) => why,
        }
    }
}

impl Refusal {
    /// The code with which the request is answered.
    pub fn code(&self) -> (code: u16)
        ensures
            code == self@.code_of(),
    {
        match self {
            Refusal::Forbidden(_) => 403,
            Refusal::Unauthorized(_) => 401,
            Refusal::BadRequest(_) => 400,
            Refusal::Conflict(_) => 409,
        }
    }

    /// The reason.
    pub fn why(&self) -> (why: &String)
        ensures
            why@ == self@.why_of(),
    {
        match self {
            Refusal::Forbidden(why) => why,
            Refusal::Unauthorized(why) => why,
            Refusal::BadRequest(why) => why,
            Refusal::Conflict(why) => why,
        }
    }
}

/// The value of a [`Control`].
pub struct ControlView {
    /// Token and name of the operator.
    pub session: Option<(Seq<char>, Seq<char>)>,
    pub phase: Phase,
    pub active: Option<ActiveRun>,
}

impl ControlView {
    /// The name of the operator.
    pub open spec fn operator(self) -> Option<Seq<char>> {
        match self.session {
            Some((_, operator)) => Some(operator),
            None => None,
        }
    }

    /// Why `token` does not count, if it does not.
    pub open spec fn objection(self, token: Seq<char>) -> Option<Seq<char>> {
        match self.session {
            None => Some("no operator holds the control token"@),
            Some((current, _)) => if current == token {
                None
            } else {
                Some("stale or unknown token"@)
            },
        }
    }

    /// Why a run cannot be started, if it cannot.
    pub open spec fn start_refusal(self, token: Seq<char>) -> Option<RefusalView> {
        match self.objection(token) {
            Some(why) => Some(RefusalView::Unauthorized(why)),
            None => if self.phase != Phase::Idle {
                Some(
                    RefusalView::Conflict(
                        "controller is "@ + phase_name(self.phase) + " — not Idle"@,
                    ),
                )
            } else {
                None
            },
        }
    }

    /// Why a run cannot be stopped, if it cannot.
    pub open spec fn stop_refusal(self, token: Seq<char>) -> Option<RefusalView> {
        match self.objection(token) {
            Some(why) => Some(RefusalView::Unauthorized(why)),
            None => if self.phase != Phase::Running {
                Some(
                    RefusalView::Conflict(
                        "controller is "@ + phase_name(self.phase) + " — no run to stop"@,
                    ),
                )
            } else {
                None
            },
        }
    }

    /// Why the number of the next run cannot be set, if it cannot.
    pub open spec fn next_refusal(
        self,
        token: Seq<char>,
        next_run: Option<u64>,
        shown: Seq<char>,
    ) -> Option<RefusalView> {
        match self.objection(token) {
            Some(why) => Some(RefusalView::Unauthorized(why)),
            None => if next_run is None || next_run->0 == 0 || next_run->0 > u32::MAX {
                Some(
                    RefusalView::BadRequest("next_run must be a positive integer, got "@ + shown),
                )
            } else if self.phase != Phase::Idle {
                Some(
                    RefusalView::Conflict(
                        "controller is "@ + phase_name(self.phase)
                            + " — cannot set next_run while a run is active"@,
                    ),
                )
            } else {
                None
            },
        }
    }

    /// Why an action of the electronics cannot be asked for, if it cannot.
    pub open spec fn ecc_refusal(self, token: Seq<char>, action: Seq<char>) -> Option<RefusalView> {
        match self.objection(token) {
            Some(why) => Some(RefusalView::Unauthorized(why)),
            None => if !is_ecc_action(action) {
                Some(RefusalView::BadRequest("unknown ecc action: "@ + action))
            } else {
                None
            },
        }
    }
}

/// Whether the electronics know an action of this name.
pub open spec fn is_ecc_action(action: Seq<char>) -> bool {
    ||| action == "describe"@
    ||| action == "prepare"@
    ||| action == "configure"@
    ||| action == "start"@
    ||| action == "stop"@
    ||| action == "breakup"@
    ||| action == "reset"@
}

/// Whether the electronics know an action of this name.
pub fn knows_action(action: &str) -> (r: bool)
    ensures
        r == is_ecc_action(action@),
{
    same(action, "describe") || same(action, "prepare") || same(action, "configure") || same(
        action,
        "start",
    ) || same(action, "stop") || same(action, "breakup") || same(action, "reset")
}

/// The request for an action other than setting up the data links.
pub fn ecc_request(ids: &ConfigIds, action: &str) -> (r: EccRequest)
    ensures
        r@ == (EccRequestView {
            action: action@,
            config_id: ids@.of_action(action@),
            links: None,
        }),
{
    match ids.for_action(action) {
        Some(id) => EccRequest::with_config(action, id),
        None => EccRequest::plain(action),
    }
}

/// Who operates the controller, and what it is at.
pub struct Control {
    session: Option<Session>,
    phase: Phase,
    active: Option<ActiveRun>,
}

impl View for Control {
    type V = ControlView;

    closed spec fn view(&self) -> ControlView {
        ControlView {
            session: match self.session {
                Some(s) => Some((s.token@, s.operator@)),
                None => None,
            },
            phase: self.phase,
            active: self.active,
        }
    }
}

fn conflict(phase: Phase, what: &str) -> (r: Refusal)
    ensures
        r@ == RefusalView::Conflict("controller is "@ + phase_name(phase) + what@),
{
    let mut why: String = "controller is ".to_string();
    why.append(phase.name());
    why.append(what);
    Refusal::Conflict(why)
}

impl Control {
    /// A controller at rest that nobody operates.
    pub fn new() -> (control: Self)
        ensures
            control@ == (ControlView { session: None, phase: Phase::Idle, active: None }),
    {
        Control { session: None, phase: Phase::Idle, active: None }
    }

    /// The phase.
    pub fn phase(&self) -> (phase: Phase)
        ensures
            phase == self@.phase,
    {
        self.phase
    }

    /// The run that is on.
    pub fn active(&self) -> (active: &Option<ActiveRun>)
        ensures
            *active == self@.active,
    {
        &self.active
    }

    /// The operator.
    pub fn operator(&self) -> (operator: Option<&String>)
        ensures
            operator is Some <==> self@.operator() is Some,
            operator matches Some(name) ==> self@.operator() == Some(name@),
    {
        match &self.session {
            Some(s) => Some(&s.operator),
            None => None,
        }
    }

    /// Makes `operator` the one who operates, with `token`, whoever did before. Returns who that
    /// was. A wrong passphrase changes nothing.
    pub fn acquire(
        &mut self,
        expected: &str,
        passphrase: &str,
        operator: &str,
        token: &str,
    ) -> (r: Result<Option<String>, Refusal>)
        ensures
            expected@ != passphrase@ ==> *final(self) == *old(self) && (r matches Err(e) && e@
                == RefusalView::Forbidden("wrong passphrase"@)),
            expected@ == passphrase@ ==> final(self)@ == (ControlView {
                session: Some((token@, operator@)),
                ..old(self)@
            }) && (r matches Ok(before) && text_of(before) == old(self)@.operator()),
    {
        if !same(expected, passphrase) {
            return Err(Refusal::Forbidden("wrong passphrase".to_string()));
        }
        let before: Option<String> = match &self.session {
            Some(s) => Some(s.operator.clone()),
            None => None,
        };
        self.session = Some(Session { token: token.to_string(), operator: operator.to_string() });
        Ok(before)
    }

    /// The operator, where `token` is the one that counts.
    pub fn authorize(&self, token: &str) -> (r: Result<String, &'static str>)
        ensures
            match self@.objection(token@) {
                None => r matches Ok(operator) && Some(operator@) == self@.operator(),
                Some(why) => r matches Err(e) && e@ == why,
            },
    {
        match &self.session {
            None => Err("no operator holds the control token"),
            Some(s) => if same(s.token.as_str(), token) {
                Ok(s.operator.clone())
            } else {
                Err("stale or unknown token")
            },
        }
    }

    fn holder(&self, token: &str) -> (r: Result<String, Refusal>)
        ensures
            match self@.objection(token@) {
                None => r matches Ok(operator) && Some(operator@) == self@.operator(),
                Some(why) => r matches Err(e) && e@ == RefusalView::Unauthorized(why),
            },
    {
        match self.authorize(token) {
            Ok(operator) => Ok(operator),
            Err(why) => Err(Refusal::Unauthorized(why.to_string())),
        }
    }

    /// Lets the controller go. Returns who operated it.
    pub fn release(&mut self, token: &str) -> (r: Result<String, Refusal>)
        ensures
            match old(self)@.objection(token@) {
                None => (r matches Ok(operator) && Some(operator@) == old(self)@.operator())
                    && final(self)@ == (ControlView { session: None, ..old(self)@ }),
                Some(why) => (r matches Err(e) && e@ == RefusalView::Unauthorized(why))
                    && *final(self) == *old(self),
            },
    {
        let r: Result<String, Refusal> = self.holder(token);
        if r.is_ok() {
            self.session = None;
        }
        r
    }

    /// Begins to start a run. Returns who starts it.
    pub fn begin_start(&mut self, token: &str) -> (r: Result<String, Refusal>)
        ensures
            match old(self)@.start_refusal(token@) {
                None => (r matches Ok(operator) && Some(operator@) == old(self)@.operator())
                    && final(self)@ == (ControlView { phase: Phase::Starting, ..old(self)@ }),
                Some(refusal) => (r matches Err(e) && e@ == refusal) && *final(self) == *old(self),
            },
    {
        let r: Result<String, Refusal> = self.holder(token);
        if r.is_ok() {
            if self.phase != Phase::Idle {
                return Err(conflict(self.phase, " — not Idle"));
            }
            self.phase = Phase::Starting;
        }
        r
    }

    /// Takes note that the run is on.
    pub fn started(&mut self, active: ActiveRun)
        ensures
            final(self)@ == (ControlView {
                phase: Phase::Running,
                active: Some(active),
                ..old(self)@
            }),
    {
        self.phase = Phase::Running;
        self.active = Some(active);
    }

    /// Takes note that no run is on.
    pub fn ended(&mut self)
        ensures
            final(self)@ == (ControlView { phase: Phase::Idle, active: None, ..old(self)@ }),
    {
        self.phase = Phase::Idle;
        self.active = None;
    }

    /// Begins to stop the run. Returns who stops it.
    pub fn begin_stop(&mut self, token: &str) -> (r: Result<String, Refusal>)
        ensures
            match old(self)@.stop_refusal(token@) {
                None => (r matches Ok(operator) && Some(operator@) == old(self)@.operator())
                    && final(self)@ == (ControlView { phase: Phase::Stopping, ..old(self)@ }),
                Some(refusal) => (r matches Err(e) && e@ == refusal) && *final(self) == *old(self),
            },
    {
        let r: Result<String, Refusal> = self.holder(token);
        if r.is_ok() {
            if self.phase != Phase::Running {
                return Err(conflict(self.phase, " — no run to stop"));
            }
            self.phase = Phase::Stopping;
        }
        r
    }

    /// Decides whether the number of the next run may be set. `next_run` is what was asked for,
    /// where that is a whole number that is not negative, and `shown` is how it was written.
    /// Returns who sets it, and to what.
    pub fn check_next(&self, token: &str, next_run: Option<u64>, shown: &str) -> (r: Result<
        (String, u32),
        Refusal,
    >)
        ensures
            match self@.next_refusal(token@, next_run, shown@) {
                None => r matches Ok(p) && Some(p.0@) == self@.operator() && next_run == Some(
                    p.1 as u64,
                ),
                Some(refusal) => r matches Err(e) && e@ == refusal,
            },
    {
        let operator: String = match self.holder(token) {
            Ok(operator) => operator,
            Err(refusal) => {
                return Err(refusal);
            },
        };
        match next_run {
            Some(n) => {
                if n > 0 && n <= 0xFFFF_FFFF {
                    if self.phase != Phase::Idle {
                        return Err(
                            conflict(
                                self.phase,
                                " — cannot set next_run while a run is active",
                            ),
                        );
                    }
                    return Ok((operator, n as u32));
                }
            },
            None => {},
        }
        let mut why: String = "next_run must be a positive integer, got ".to_string();
        why.append(shown);
        Err(Refusal::BadRequest(why))
    }

    /// Decides whether an action of the electronics may be asked for. Returns who asks.
    pub fn check_ecc(&self, token: &str, action: &str) -> (r: Result<String, Refusal>)
        ensures
            match self@.ecc_refusal(token@, action@) {
                None => r matches Ok(operator) && Some(operator@) == self@.operator(),
                Some(refusal) => r matches Err(e) && e@ == refusal,
            },
    {
        let r: Result<String, Refusal> = self.holder(token);
        if r.is_ok() && !knows_action(action) {
            let mut why: String = "unknown ecc action: ".to_string();
            why.append(action);
            return Err(Refusal::BadRequest(why));
        }
        r
    }
}

/// Whoever takes the controller over makes every other token worthless.
pub proof fn law_taking_over_ends_other_tokens(
    control: ControlView,
    operator: Seq<char>,
    token: Seq<char>,
    other: Seq<char>,
)
    requires
        token != other,
    ensures
        ({
            let after = ControlView { session: Some((token, operator)), ..control };
            &&& after.objection(token) is None
            &&& after.objection(other) == Some("stale or unknown token"@)
            &&& after.start_refusal(other) is Some
            &&& after.stop_refusal(other) is Some
        }),
{
}

/// While a run is being started, is on, or is being stopped, no other can be started, and the
/// number of the next one cannot be set; and only a run that is on can be stopped.
pub proof fn law_one_run_at_a_time(
    control: ControlView,
    token: Seq<char>,
    next_run: Option<u64>,
    shown: Seq<char>,
)
    ensures
        control.phase != Phase::Idle ==> control.start_refusal(token) is Some,
        control.phase != Phase::Idle ==> control.next_refusal(token, next_run, shown) is Some,
        control.stop_refusal(token) is None ==> control.phase == Phase::Running,
        (ControlView { phase: Phase::Starting, ..control }).start_refusal(token) is Some,
{
}

} // verus!

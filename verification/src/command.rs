//! Commands, the component state machine, and what a component answers.
//!
//! ```text
//!   Idle --Configure--> Configured --Arm--> Armed --Start--> Running
//!                            ^                                  |
//!                            +--------------- Stop -------------+
//!   Configured / Armed / Running --Reset--> Idle
//!   Configured / Armed / Running --(fault)--> Error --Reset--> Idle
//! ```

use vstd::prelude::*;

use crate::text;
use crate::text::{push_decimal, same};

verus! {

/// The state of a component.
#[derive(Debug, Clone, Copy, PartialEq, Eq, Structural)]
pub enum ComponentState {
    /// Nothing is configured.
    Idle,
    /// A run is configured.
    Configured,
    /// Resources are held; a receiver listens.
    Armed,
    /// Data is taken.
    Running,
    /// Something went wrong; only a reset leads out.
    Error,
}

impl Default for ComponentState {
    fn default() -> (state: Self)
        ensures
            state == ComponentState::Idle,
    {
        ComponentState::Idle
    }
}

/// Whether a component in state `from` may go to state `to`.
pub open spec fn legal(from: ComponentState, to: ComponentState) -> bool {
    match from {
        ComponentState::Idle => to == ComponentState::Configured,
        ComponentState::Configured => to == ComponentState::Armed || to == ComponentState::Idle
            || to == ComponentState::Error,
        ComponentState::Armed => to == ComponentState::Running || to == ComponentState::Idle || to
            == ComponentState::Error,
        ComponentState::Running => to == ComponentState::Configured || to == ComponentState::Idle
            || to == ComponentState::Error,
        ComponentState::Error => to == ComponentState::Idle,
    }
}

/// The name of a state.
pub open spec fn state_name(state: ComponentState) -> Seq<char> {
    match state {
        ComponentState::Idle => "Idle"@,
        ComponentState::Configured => "Configured"@,
        ComponentState::Armed => "Armed"@,
        ComponentState::Running => "Running"@,
        ComponentState::Error => "Error"@,
    }
}

impl ComponentState {
    /// Whether the component may go to `target`.
    pub fn can_transition_to(&self, target: ComponentState) -> (r: bool)
        ensures
            r == legal(*self, target),
    {
        match self {
            ComponentState::Idle => target == ComponentState::Configured,
            ComponentState::Configured => target == ComponentState::Armed || target
                == ComponentState::Idle || target == ComponentState::Error,
            ComponentState::Armed => target == ComponentState::Running || target
                == ComponentState::Idle || target == ComponentState::Error,
            ComponentState::Running => target == ComponentState::Configured || target
                == ComponentState::Idle || target == ComponentState::Error,
            ComponentState::Error => target == ComponentState::Idle,
        }
    }

    /// The state's name.
    pub fn name(&self) -> (s: &'static str)
        ensures
            s@ == state_name(*self),
    {
        match self {
            ComponentState::Idle => "Idle",
            ComponentState::Configured => "Configured",
            ComponentState::Armed => "Armed",
            ComponentState::Running => "Running",
            ComponentState::Error => "Error",
        }
    }
}

/// No state leads to itself.
pub proof fn law_no_self_transition(state: ComponentState)
    ensures
        !legal(state, state),
{
}

/// The only way out of `Error` is to `Idle`.
pub proof fn law_error_leads_only_to_idle(to: ComponentState)
    ensures
        legal(ComponentState::Error, to) <==> to == ComponentState::Idle,
{
}

/// Every state but `Idle` can be reset, and every state that does work can fail.
pub proof fn law_reset_and_fault_are_always_possible(state: ComponentState)
    ensures
        legal(state, ComponentState::Idle) <==> state != ComponentState::Idle,
        legal(state, ComponentState::Error) <==> state != ComponentState::Idle && state
            != ComponentState::Error,
{
}

/// What `Configure` carries.
#[derive(Debug, Clone)]
pub struct RunConfig {
    pub run_number: u32,
    /// A comment for the logbook.
    pub comment: String,
    /// Named settings for the component, which it may ignore.
    pub config: Vec<(String, String)>,
}

/// What the controller asks of a component.
#[derive(Debug, Clone)]
pub enum Command {
    Configure(RunConfig),
    Arm,
    Start { run_number: u32 },
    Stop,
    Reset,
    /// Asks for the state and changes nothing.
    GetStatus,
}

/// The value of a [`Command`].
pub enum CommandView {
    Configure { run_number: u32, comment: Seq<char>, config: Seq<(Seq<char>, Seq<char>)> },
    Arm,
    Start { run_number: u32 },
    Stop,
    Reset,
    GetStatus,
}

impl View for Command {
    type V = CommandView;

    open spec fn view(&self) -> CommandView {
        match self {
            Command::Configure(cfg) => CommandView::Configure {
                run_number: cfg.run_number,
                comment: cfg.comment@,
                config: cfg.config@.map_values(|p: (String, String)| (p.0@, p.1@)),
            },
            Command::Arm => CommandView::Arm,
            Command::Start { run_number } => CommandView::Start { run_number: *run_number },
            Command::Stop => CommandView::Stop,
            Command::Reset => CommandView::Reset,
            Command::GetStatus => CommandView::GetStatus,
        }
    }
}

impl CommandView {
    /// The state that a command leads to, or `None` where it changes nothing.
    pub open spec fn target(self) -> Option<ComponentState> {
        match self {
            CommandView::Configure { .. } => Some(ComponentState::Configured),
            CommandView::Arm => Some(ComponentState::Armed),
            CommandView::Start { .. } => Some(ComponentState::Running),
            CommandView::Stop => Some(ComponentState::Configured),
            CommandView::Reset => Some(ComponentState::Idle),
            CommandView::GetStatus => None,
        }
    }

    /// How a command is named in messages.
    pub open spec fn text(self) -> Seq<char> {
        match self {
            CommandView::Configure { run_number, .. } => "Configure(run="@ + text::decimal(
                run_number as nat,
            ) + ")"@,
            CommandView::Arm => "Arm"@,
            CommandView::Start { run_number } => "Start(run="@ + text::decimal(run_number as nat)
                + ")"@,
            CommandView::Stop => "Stop"@,
            CommandView::Reset => "Reset"@,
            CommandView::GetStatus => "GetStatus"@,
        }
    }
}

impl Command {
    /// The state that the command leads to, or `None` where it changes nothing.
    pub fn target_state(&self) -> (target: Option<ComponentState>)
        ensures
            target == self@.target(),
    {
        match self {
            Command::Configure(_) => Some(ComponentState::Configured),
            Command::Arm => Some(ComponentState::Armed),
            Command::Start { .. } => Some(ComponentState::Running),
            Command::Stop => Some(ComponentState::Configured),
            Command::Reset => Some(ComponentState::Idle),
            Command::GetStatus => None,
        }
    }

    /// How the command is named in messages.
    pub fn text(&self) -> (s: String)
        ensures
            s@ == self@.text(),
    {
        match self {
            Command::Configure(cfg) => run_text("Configure(run=", cfg.run_number),
            Command::Arm => "Arm".to_string(),
            Command::Start { run_number } => run_text("Start(run=", *run_number),
            Command::Stop => "Stop".to_string(),
            Command::Reset => "Reset".to_string(),
            Command::GetStatus => "GetStatus".to_string(),
        }
    }
}

fn run_text(prefix: &str, run_number: u32) -> (s: String)
    ensures
        s@ == prefix@ + text::decimal(run_number as nat) + ")"@,
{
    let mut s: String = prefix.to_string();
    push_decimal(&mut s, run_number as u64);
    s.append(")");
    s
}

/// Configuring, arming, starting, stopping and resetting leads from `Idle` through every
/// working state and back, each step being legal.
pub proof fn law_a_whole_run_is_legal(
    run_number: u32,
    comment: Seq<char>,
    config: Seq<(Seq<char>, Seq<char>)>,
)
    ensures
        ({
            let configured = (CommandView::Configure { run_number, comment, config }).target()->0;
            let armed = CommandView::Arm.target()->0;
            let running = (CommandView::Start { run_number }).target()->0;
            let stopped = CommandView::Stop.target()->0;
            let idle = CommandView::Reset.target()->0;
            &&& legal(ComponentState::Idle, configured)
            &&& legal(configured, armed)
            &&& legal(armed, running)
            &&& legal(running, stopped)
            &&& legal(stopped, idle)
            &&& idle == ComponentState::Idle
        }),
{
}

// ---------------------------------------------------------------------
// What a component reports
// ---------------------------------------------------------------------

/// A file that a component lists in its report.
#[derive(Debug, Clone)]
pub struct FileEntry {
    /// Where the file is, if the entry says so.
    pub path: Option<String>,
    /// How long it is, if the entry says so.
    pub bytes: Option<u64>,
    /// What a raw file's own writer says about it.
    pub detail: Option<FileDetail>,
}

/// What the writer of a raw file says about it.
#[derive(Debug, Clone, Copy, PartialEq, Eq, Structural)]
pub struct FileDetail {
    pub cobo: u32,
    /// The AsAd board, or `None` for control frames.
    pub asad: Option<u8>,
    pub idx: u32,
    pub frames: u64,
    pub closed: bool,
}

/// What was written for one AsAd board.
#[derive(Debug, Clone, Copy, PartialEq, Eq, Structural)]
pub struct AsadEntry {
    pub cobo: u32,
    pub asad: u8,
    pub bytes: u64,
    pub frames: u64,
}

/// One value in a component's report.
#[derive(Debug, Clone)]
pub enum Metric {
    /// A number that is not negative.
    Uint(u64),
    /// A text.
    Text(String),
    /// A list of files.
    Files(Vec<FileEntry>),
    /// Counts per number.
    Tally(Vec<(u64, u64)>),
    /// Counts per AsAd board.
    Asads(Vec<AsadEntry>),
    /// Anything else.
    Other,
}

/// A component's report: named values, in which the first of a name counts.
#[derive(Debug, Clone)]
pub struct Metrics {
    pub entries: Vec<(String, Metric)>,
}

/// The value of a [`Metric`].
pub enum MetricView {
    Uint(u64),
    Text(Seq<char>),
    Files(Seq<FileView>),
    Tally(Seq<(u64, u64)>),
    Asads(Seq<AsadEntry>),
    Other,
}

/// The value of a [`FileEntry`].
pub struct FileView {
    pub path: Option<Seq<char>>,
    pub bytes: Option<u64>,
    pub detail: Option<FileDetail>,
}

impl View for FileEntry {
    type V = FileView;

    open spec fn view(&self) -> FileView {
        FileView {
            path: match self.path {
                Some(p) => Some(p@),
                None => None,
            },
            bytes: self.bytes,
            detail: self.detail,
        }
    }
}

impl View for Metric {
    type V = MetricView;

    open spec fn view(&self) -> MetricView {
        match self {
            Metric::Uint(n) => MetricView::Uint(*n),
            Metric::Text(s) => MetricView::Text(s@),
            Metric::Files(f) => MetricView::Files(f@.map_values(|e: FileEntry| e@)),
            Metric::Tally(t) => MetricView::Tally(t@),
            Metric::Asads(a) => MetricView::Asads(a@),
            Metric::Other => MetricView::Other,
        }
    }
}

impl View for Metrics {
    type V = Seq<(Seq<char>, MetricView)>;

    open spec fn view(&self) -> Seq<(Seq<char>, MetricView)> {
        self.entries@.map_values(|e: (String, Metric)| (e.0@, e.1@))
    }
}

/// The value that a report gives under `key`, if it gives one.
pub open spec fn metric(report: Seq<(Seq<char>, MetricView)>, key: Seq<char>) -> Option<MetricView>
    decreases report.len(),
{
    if report.len() == 0 {
        None
    } else if report.first().0 == key {
        Some(report.first().1)
    } else {
        metric(report.drop_first(), key)
    }
}

/// The number that a report gives under `key`, if it gives one.
pub open spec fn metric_u64(report: Seq<(Seq<char>, MetricView)>, key: Seq<char>) -> Option<u64> {
    match metric(report, key) {
        Some(MetricView::Uint(n)) => Some(n),
        _ => None,
    }
}

/// The text that a report gives under `key`, if it gives one.
pub open spec fn metric_text(report: Seq<(Seq<char>, MetricView)>, key: Seq<char>) -> Option<
    Seq<char>,
> {
    match metric(report, key) {
        Some(MetricView::Text(s)) => Some(s),
        _ => None,
    }
}

impl Metrics {
    /// An empty report.
    pub fn new() -> (metrics: Self)
        ensures
            metrics@ == Seq::<(Seq<char>, MetricView)>::empty(),
    {
        let metrics = Metrics { entries: Vec::new() };
        assert(metrics@ =~= Seq::<(Seq<char>, MetricView)>::empty());
        metrics
    }

    /// Adds a value under `key`.
    pub fn put(&mut self, key: &str, value: Metric)
        ensures
            final(self)@ == old(self)@.push((key@, value@)),
    {
        self.entries.push((key.to_string(), value));
        assert(self@ =~= old(self)@.push((key@, value@)));
    }

    /// Adds a number under `key`.
    pub fn put_u64(&mut self, key: &str, n: u64)
        ensures
            final(self)@ == old(self)@.push((key@, MetricView::Uint(n))),
    {
        self.put(key, Metric::Uint(n));
    }

    /// The value under `key`, if there is one.
    pub fn get(&self, key: &str) -> (found: Option<&Metric>)
        ensures
            found is Some <==> metric(self@, key@) is Some,
            found matches Some(m) ==> metric(self@, key@) == Some(m@),
    {
        let mut i: usize = 0;
        assert(self@.skip(0) =~= self@);
        while i < self.entries.len()
            invariant
                i <= self.entries@.len(),
                metric(self@.skip(i as int), key@) == metric(self@, key@),
            decreases self.entries@.len() - i,
        {
            assert(self@.skip(i as int).first() == self@[i as int]);
            assert(self@.skip(i as int).drop_first() =~= self@.skip(i + 1));
            if same(self.entries[i].0.as_str(), key) {
                return Some(&self.entries[i].1);
            }
            i = i + 1;
        }
        None
    }

    /// The number under `key`, if there is one.
    pub fn get_u64(&self, key: &str) -> (n: Option<u64>)
        ensures
            n == metric_u64(self@, key@),
    {
        match self.get(key) {
            Some(Metric::Uint(n)) => Some(*n),
            _ => None,
        }
    }

    /// The text under `key`, if there is one.
    pub fn get_text(&self, key: &str) -> (s: Option<&String>)
        ensures
            s is Some <==> metric_text(self@, key@) is Some,
            s matches Some(t) ==> metric_text(self@, key@) == Some(t@),
    {
        match self.get(key) {
            Some(Metric::Text(s)) => Some(s),
            _ => None,
        }
    }
}

/// What a component answers to a command.
#[derive(Debug, Clone)]
pub struct CommandResponse {
    pub success: bool,
    pub state: ComponentState,
    pub message: String,
    pub run_number: Option<u32>,
    pub metrics: Option<Metrics>,
}

/// The value of a [`CommandResponse`].
pub struct ResponseView {
    pub success: bool,
    pub state: ComponentState,
    pub message: Seq<char>,
    pub run_number: Option<u32>,
    pub metrics: Option<Seq<(Seq<char>, MetricView)>>,
}

impl View for CommandResponse {
    type V = ResponseView;

    open spec fn view(&self) -> ResponseView {
        ResponseView {
            success: self.success,
            state: self.state,
            message: self.message@,
            run_number: self.run_number,
            metrics: match self.metrics {
                Some(m) => Some(m@),
                None => None,
            },
        }
    }
}

impl CommandResponse {
    /// A positive answer.
    pub fn success(state: ComponentState, message: &str) -> (r: Self)
        ensures
            r@ == (ResponseView {
                success: true,
                state,
                message: message@,
                run_number: None,
                metrics: None,
            }),
    {
        CommandResponse {
            success: true,
            state,
            message: message.to_string(),
            run_number: None,
            metrics: None,
        }
    }

    /// A negative answer. `state` is the state that the component stays in.
    pub fn error(state: ComponentState, message: &str) -> (r: Self)
        ensures
            r@ == (ResponseView {
                success: false,
                state,
                message: message@,
                run_number: None,
                metrics: None,
            }),
    {
        CommandResponse {
            success: false,
            state,
            message: message.to_string(),
            run_number: None,
            metrics: None,
        }
    }

    /// The answer with a run number.
    pub fn with_run_number(self, run_number: u32) -> (r: Self)
        ensures
            r@ == (ResponseView { run_number: Some(run_number), ..self@ }),
    {
        CommandResponse { run_number: Some(run_number), ..self }
    }

    /// The answer with a report.
    pub fn with_metrics(self, metrics: Metrics) -> (r: Self)
        ensures
            r@ == (ResponseView { metrics: Some(metrics@), ..self@ }),
    {
        CommandResponse { metrics: Some(metrics), ..self }
    }
}

// ---------------------------------------------------------------------
// The command task
// ---------------------------------------------------------------------

/// What the command task does next.
#[derive(Debug, Clone, Copy, PartialEq, Eq, Structural)]
pub enum TaskStep {
    /// Bind the reply socket.
    Bind,
    /// Wait a second, then bind again.
    Wait,
    /// Receive a command.
    Receive,
    /// Answer the command that was received.
    Answer,
    /// End.
    Stop,
}

/// What happened to the command task.
#[derive(Debug, Clone, Copy, PartialEq, Eq, Structural)]
pub enum TaskEvent {
    /// The work of the step was done.
    Done,
    /// The work of the step failed.
    Failed,
    /// The process is shutting down.
    Shutdown,
}

/// What the command task does after `event` in `step`: the steps follow one another; a failure
/// drops the socket and binds a new one, after a pause where binding itself failed; only a
/// shutdown ends the task, and not while an answer is due.
pub open spec fn step_after(step: TaskStep, event: TaskEvent) -> TaskStep {
    match event {
        TaskEvent::Shutdown => if step == TaskStep::Receive || step == TaskStep::Wait || step
            == TaskStep::Stop {
            TaskStep::Stop
        } else {
            step
        },
        TaskEvent::Done => match step {
            TaskStep::Bind => TaskStep::Receive,
            TaskStep::Wait => TaskStep::Bind,
            TaskStep::Receive => TaskStep::Answer,
            TaskStep::Answer => TaskStep::Receive,
            TaskStep::Stop => TaskStep::Stop,
        },
        TaskEvent::Failed => match step {
            TaskStep::Bind => TaskStep::Wait,
            TaskStep::Wait => TaskStep::Bind,
            TaskStep::Receive => TaskStep::Bind,
            TaskStep::Answer => TaskStep::Bind,
            TaskStep::Stop => TaskStep::Stop,
        },
    }
}

/// No failure ends the command task: a task that has not stopped stops only at a shutdown.
pub proof fn law_only_shutdown_ends_the_command_task(step: TaskStep, event: TaskEvent)
    requires
        step != TaskStep::Stop,
        step_after(step, event) == TaskStep::Stop,
    ensures
        event == TaskEvent::Shutdown,
{
}

/// The command task: its step, and the state that it answers with where a command cannot be
/// read.
#[derive(Debug)]
pub struct CommandTask {
    pub step: TaskStep,
    pub last_state: ComponentState,
}

impl CommandTask {
    /// A task that has yet to bind its socket.
    pub fn new() -> (task: Self)
        ensures
            task.step == TaskStep::Bind,
            task.last_state == ComponentState::Idle,
    {
        CommandTask { step: TaskStep::Bind, last_state: ComponentState::Idle }
    }

    /// Goes to the next step.
    pub fn advance(&mut self, event: TaskEvent)
        ensures
            final(self).step == step_after(old(self).step, event),
            final(self).last_state == old(self).last_state,
    {
        self.step = match event {
            TaskEvent::Shutdown => match self.step {
                TaskStep::Receive => TaskStep::Stop,
                TaskStep::Wait => TaskStep::Stop,
                step => step,
            },
            TaskEvent::Done => match self.step {
                TaskStep::Bind => TaskStep::Receive,
                TaskStep::Wait => TaskStep::Bind,
                TaskStep::Receive => TaskStep::Answer,
                TaskStep::Answer => TaskStep::Receive,
                TaskStep::Stop => TaskStep::Stop,
            },
            TaskEvent::Failed => match self.step {
                TaskStep::Bind => TaskStep::Wait,
                TaskStep::Stop => TaskStep::Stop,
                _ => TaskStep::Bind,
            },
        };
    }

    /// The answer to a message that is no command.
    pub fn answer_invalid(&self, reason: &str) -> (r: CommandResponse)
        ensures
            r@ == (ResponseView {
                success: false,
                state: self.last_state,
                message: "invalid command: "@ + reason@,
                run_number: None,
                metrics: None,
            }),
    {
        let mut message: String = "invalid command: ".to_string();
        message.append(reason);
        CommandResponse::error(self.last_state, message.as_str())
    }

    /// The answer to a message without content.
    pub fn answer_empty(&self) -> (r: CommandResponse)
        ensures
            r@ == (ResponseView {
                success: false,
                state: self.last_state,
                message: "empty command message"@,
                run_number: None,
                metrics: None,
            }),
    {
        CommandResponse::error(self.last_state, "empty command message")
    }

    /// Remembers the state that an answer gave.
    pub fn remember(&mut self, response: &CommandResponse)
        ensures
            final(self).step == old(self).step,
            final(self).last_state == response@.state,
    {
        self.last_state = response.state;
    }
}

/// A timeout in milliseconds as a socket takes it: what does not fit becomes the longest.
pub fn socket_timeout_ms(timeout_ms: u64) -> (ms: i32)
    ensures
        ms == if timeout_ms <= i32::MAX {
            timeout_ms as int
        } else {
            i32::MAX as int
        },
{
    if timeout_ms <= 2_147_483_647 {
        timeout_ms as i32
    } else {
        i32::MAX
    }
}

// ---------------------------------------------------------------------
// The command handler of a component
// ---------------------------------------------------------------------

/// What a command makes a component do.
#[derive(Debug, Clone, Copy, PartialEq, Eq, Structural)]
pub enum Work {
    /// Take note of the run.
    Configure,
    /// Bind the input socket.
    Arm,
    /// Start the worker thread.
    Start { run_number: u32 },
    /// Tell the worker thread to finish.
    Stop,
    /// Tell the worker thread to give up, and let everything go.
    Reset,
}

/// What came of a component's work.
#[derive(Debug, Clone)]
pub enum Outcome {
    /// It was done.
    Done,
    /// The input socket is bound, at this address.
    Bound(String),
    /// It failed before the input socket was given away.
    Failed(String),
    /// It failed, and the input socket is gone.
    Lost(String),
}

/// What a component does about a command.
#[derive(Debug, Clone)]
pub enum Verdict {
    /// Answer at once.
    Answer(CommandResponse),
    /// Do this work, then answer.
    Perform(Work),
}

/// The state machine that a component's command handler runs.
#[derive(Debug, Clone)]
pub struct Handler {
    pub state: ComponentState,
    pub run_number: Option<u32>,
    /// Whether a bound input socket is waiting for a start.
    pub armed: bool,
    /// Where the input socket is bound.
    pub bind_address: Option<String>,
}

/// The value of a [`Handler`].
pub struct HandlerView {
    pub state: ComponentState,
    pub run_number: Option<u32>,
    pub armed: bool,
    pub bind_address: Option<Seq<char>>,
}

impl View for Handler {
    type V = HandlerView;

    open spec fn view(&self) -> HandlerView {
        HandlerView {
            state: self.state,
            run_number: self.run_number,
            armed: self.armed,
            bind_address: match self.bind_address {
                Some(a) => Some(a@),
                None => None,
            },
        }
    }
}

impl HandlerView {
    /// The handler once a fault of its worker is taken note of.
    pub open spec fn latched(self, errored: bool) -> HandlerView {
        if errored && legal(self.state, ComponentState::Error) {
            HandlerView { state: ComponentState::Error, ..self }
        } else {
            self
        }
    }

    /// The answer that a handler gives in its present state.
    pub open spec fn answer(self, success: bool, message: Seq<char>) -> ResponseView {
        ResponseView {
            success,
            state: self.state,
            message,
            run_number: self.run_number,
            metrics: None,
        }
    }

    /// The handler once the work of `command` has come to `outcome`.
    pub open spec fn after(self, command: CommandView, outcome: Outcome) -> HandlerView {
        match outcome {
            Outcome::Failed(_) => self,
            Outcome::Lost(_) => HandlerView {
                armed: false,
                run_number: match command {
                    CommandView::Start { run_number } => Some(run_number),
                    _ => self.run_number,
                },
                ..self
            },
            _ => match command {
                CommandView::Configure { run_number, .. } => HandlerView {
                    state: ComponentState::Configured,
                    run_number: Some(run_number),
                    ..self
                },
                CommandView::Arm => HandlerView {
                    state: ComponentState::Armed,
                    armed: true,
                    bind_address: match outcome {
                        Outcome::Bound(address) => Some(address@),
                        _ => self.bind_address,
                    },
                    ..self
                },
                CommandView::Start { run_number } => HandlerView {
                    state: ComponentState::Running,
                    run_number: Some(run_number),
                    armed: false,
                    ..self
                },
                CommandView::Stop => HandlerView {
                    state: ComponentState::Configured,
                    bind_address: None,
                    ..self
                },
                CommandView::Reset => HandlerView {
                    state: ComponentState::Idle,
                    run_number: None,
                    armed: false,
                    bind_address: None,
                },
                CommandView::GetStatus => self,
            },
        }
    }
}

/// The work that a command asks for.
pub open spec fn work_of(command: CommandView) -> Work {
    match command {
        CommandView::Configure { .. } => Work::Configure,
        CommandView::Arm => Work::Arm,
        CommandView::Start { run_number } => Work::Start { run_number },
        CommandView::Stop => Work::Stop,
        _ => Work::Reset,
    }
}

/// What is answered where a start finds no input socket.
pub open spec fn no_socket_message() -> Seq<char> {
    "no PULL socket: Arm again before Start"@
}

/// What is answered to a command that the state does not allow.
pub open spec fn illegal_message(from: ComponentState, to: ComponentState) -> Seq<char> {
    "illegal transition "@ + state_name(from) + " -> "@ + state_name(to)
}

impl Handler {
    /// A handler with nothing configured.
    pub fn new() -> (handler: Self)
        ensures
            handler@ == (HandlerView {
                state: ComponentState::Idle,
                run_number: None,
                armed: false,
                bind_address: None,
            }),
    {
        Handler { state: ComponentState::Idle, run_number: None, armed: false, bind_address: None }
    }

    /// Takes note of a worker's fault: a state that can fail becomes `Error`.
    pub fn latch_error(&mut self, errored: bool)
        ensures
            final(self)@ == old(self)@.latched(errored),
    {
        if errored && self.state.can_transition_to(ComponentState::Error) {
            self.state = ComponentState::Error;
        }
    }

    /// The answer in the present state.
    pub fn respond(&self, success: bool, message: &str) -> (r: CommandResponse)
        ensures
            r@ == self@.answer(success, message@),
    {
        let response = if success {
            CommandResponse::success(self.state, message)
        } else {
            CommandResponse::error(self.state, message)
        };
        match self.run_number {
            Some(run_number) => response.with_run_number(run_number),
            None => response,
        }
    }

    /// Decides on a command: a question is answered, a command that the state does not allow is
    /// refused, and anything else is to be performed.
    pub fn handle(&mut self, command: &Command, errored: bool) -> (verdict: Verdict)
        ensures
            final(self)@ == old(self)@.latched(errored),
            ({
                let now = old(self)@.latched(errored);
                match command@.target() {
                    None => verdict matches Verdict::Answer(r) && r@ == now.answer(
                        true,
                        "status"@,
                    ),
                    Some(target) => if !legal(now.state, target) {
                        verdict matches Verdict::Answer(r) && r@ == now.answer(
                            false,
                            illegal_message(now.state, target),
                        )
                    } else if command@ is Start && !now.armed {
                        verdict matches Verdict::Answer(r) && r@ == now.answer(
                            false,
                            no_socket_message(),
                        )
                    } else {
                        verdict matches Verdict::Perform(w) && w == work_of(command@)
                    },
                }
            }),
    {
        self.latch_error(errored);
        let target: ComponentState = match command.target_state() {
            None => {
                return Verdict::Answer(self.respond(true, "status"));
            },
            Some(target) => target,
        };
        if !self.state.can_transition_to(target) {
            let mut message: String = "illegal transition ".to_string();
            message.append(self.state.name());
            message.append(" -> ");
            message.append(target.name());
            return Verdict::Answer(self.respond(false, message.as_str()));
        }
        match command {
            Command::Configure(_) => Verdict::Perform(Work::Configure),
            Command::Arm => Verdict::Perform(Work::Arm),
            Command::Start { run_number } => if self.armed {
                Verdict::Perform(Work::Start { run_number: *run_number })
            } else {
                Verdict::Answer(self.respond(false, "no PULL socket: Arm again before Start"))
            },
            Command::Stop => Verdict::Perform(Work::Stop),
            _ => Verdict::Perform(Work::Reset),
        }
    }

    /// Answers a command once its work is over, and goes to the state that it leads to where the
    /// work was done.
    pub fn finish(&mut self, command: &Command, outcome: Outcome) -> (r: CommandResponse)
        requires
            command@ !is GetStatus,
        ensures
            final(self)@ == old(self)@.after(command@, outcome),
            r@ == match outcome {
                Outcome::Failed(message) => final(self)@.answer(false, message@),
                Outcome::Lost(message) => final(self)@.answer(false, message@),
                _ => final(self)@.answer(true, command@.text() + " ok"@),
            },
    {
        match outcome {
            Outcome::Failed(message) => {
                return self.respond(false, message.as_str());
            },
            Outcome::Lost(message) => {
                self.armed = false;
                if let Command::Start { run_number } = command {
                    self.run_number = Some(*run_number);
                }
                return self.respond(false, message.as_str());
            },
            Outcome::Bound(address) => {
                if let Command::Arm = command {
                    self.bind_address = Some(address);
                }
            },
            Outcome::Done => {},
        }
        match command {
            Command::Configure(cfg) => {
                self.state = ComponentState::Configured;
                self.run_number = Some(cfg.run_number);
            },
            Command::Arm => {
                self.state = ComponentState::Armed;
                self.armed = true;
            },
            Command::Start { run_number } => {
                self.state = ComponentState::Running;
                self.run_number = Some(*run_number);
                self.armed = false;
            },
            Command::Stop => {
                self.state = ComponentState::Configured;
                self.bind_address = None;
            },
            Command::Reset => {
                self.state = ComponentState::Idle;
                self.run_number = None;
                self.armed = false;
                self.bind_address = None;
            },
            Command::GetStatus => {},
        }
        let mut message: String = command.text();
        message.append(" ok");
        self.respond(true, message.as_str())
    }
}

impl HandlerView {
    /// A worker's report with the address of the input socket behind it.
    pub open spec fn addressed(
        self,
        report: Seq<(Seq<char>, MetricView)>,
    ) -> Seq<(Seq<char>, MetricView)> {
        report.push(
            (
                "bind_address"@,
                match self.bind_address {
                    Some(address) => MetricView::Text(address),
                    None => MetricView::Other,
                },
            ),
        )
    }
}

impl Handler {
    /// Puts a worker's report, where there is a worker, and the address of the input socket into
    /// an answer.
    pub fn with_report(&self, response: CommandResponse, report: Option<Metrics>) -> (r:
        CommandResponse)
        ensures
            r@ == (ResponseView {
                metrics: Some(
                    self@.addressed(
                        match report {
                            Some(m) => m@,
                            None => Seq::empty(),
                        },
                    ),
                ),
                ..response@
            }),
    {
        let mut metrics: Metrics = match report {
            Some(m) => m,
            None => Metrics::new(),
        };
        match &self.bind_address {
            Some(address) => metrics.put("bind_address", Metric::Text(address.clone())),
            None => metrics.put("bind_address", Metric::Other),
        }
        response.with_metrics(metrics)
    }
}

/// A command that is performed and succeeds leaves the component in the state that the command
/// leads to.
pub proof fn law_success_reaches_the_target(
    handler: HandlerView,
    command: CommandView,
    outcome: Outcome,
)
    requires
        command.target() is Some,
        outcome is Done || outcome is Bound,
    ensures
        handler.after(command, outcome).state == command.target()->0,
{
}

/// A command whose work fails leaves the component in the state it was in.
pub proof fn law_failure_changes_no_state(
    handler: HandlerView,
    command: CommandView,
    outcome: Outcome,
)
    requires
        outcome is Failed || outcome is Lost,
    ensures
        handler.after(command, outcome).state == handler.state,
{
}

} // verus!

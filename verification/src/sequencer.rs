//! The sequences that start and stop a run.
//!
//! [`StartRun`] and [`StopRun`] say what is to be asked next, of a component or of the
//! electronics, and are told what was answered.
//!
//! A run starts with the electronics being led back to `Idle`, one state at a time. Then the
//! components are configured, armed and started, from the end of the data stream to its beginning,
//! and at last the electronics. Where a step fails, every component that was touched is stopped
//! and reset, in the opposite order.
//!
//! A run stops with the electronics. Then all streams are given time to end, and are made to end
//! where they do not. What the components have to report is collected, and only then are they
//! stopped and reset.

use vstd::prelude::*;

use crate::command;
use crate::command::{Command, CommandResponse, CommandView, RunConfig};
use crate::controller;
use crate::controller::{
    configure_request, counters_fit, counters_from, files_from, router_link, ComponentEndpoint,
    ComponentKind, ComponentStatus, ControllerParams, Counters, EccReply, EccRequest, EccRequestView, LinkView,
    OutputFile, OutputView, RouterLink, StatusView, StopMode, ARM_MAX_ATTEMPTS, ARM_RETRY_BACKOFF,
};
use crate::text;
use crate::text::{contains_text, join_texts, push_decimal, push_text, push_wide_decimal, same};

verus! {

/// How many steps the electronics are led back at most.
pub const ECC_WALK_BACK_MAX_STEPS: usize = 4;

// ---------------------------------------------------------------------
// Questions and answers
// ---------------------------------------------------------------------

/// What is to be done next.
#[derive(Debug, Clone)]
pub enum Request {
    /// Send a command to a component.
    Command { component: usize, command: Command },
    /// Ask something of the electronics.
    Ecc(EccRequest),
    /// Wait for so many milliseconds.
    Sleep(u64),
    /// Nothing: the sequence is over.
    Done,
}

/// The value of a [`Request`].
pub enum RequestView {
    Command { component: int, command: CommandView },
    Ecc(EccRequestView),
    Sleep(nat),
    Done,
}

impl View for Request {
    type V = RequestView;

    open spec fn view(&self) -> RequestView {
        match self {
            Request::Command { component, command } => RequestView::Command {
                component: *component as int,
                command: command@,
            },
            Request::Ecc(r) => RequestView::Ecc(r@),
            Request::Sleep(ms) => RequestView::Sleep(*ms as nat),
            Request::Done => RequestView::Done,
        }
    }
}

/// What came back. Errors are those of getting through.
#[derive(Debug)]
pub enum Reply {
    Command(Result<CommandResponse, String>),
    Ecc(Result<EccReply, String>),
    /// The wait is over.
    Slept,
}

/// The value of a [`Reply`].
pub enum ReplyView {
    Command(Result<command::ResponseView, Seq<char>>),
    Ecc(Result<controller::EccView, Seq<char>>),
    Slept,
}

impl View for Reply {
    type V = ReplyView;

    open spec fn view(&self) -> ReplyView {
        match self {
            Reply::Command(r) => ReplyView::Command(
                match r {
                    Ok(r) => Ok(r@),
                    Err(e) => Err(e@),
                },
            ),
            Reply::Ecc(r) => ReplyView::Ecc(
                match r {
                    Ok(r) => Ok(r@),
                    Err(e) => Err(e@),
                },
            ),
            Reply::Slept => ReplyView::Slept,
        }
    }
}

impl ReplyView {
    /// Whether this is the kind of answer that a request gets.
    pub open spec fn answers(self, request: RequestView) -> bool {
        match request {
            RequestView::Command { .. } => self is Command,
            RequestView::Ecc(_) => self is Ecc,
            RequestView::Sleep(_) => self is Slept,
            RequestView::Done => false,
        }
    }
}

/// What a command came to: the answer, or why there is none that helps.
pub open spec fn command_result(
    name: Seq<char>,
    command: CommandView,
    reply: ReplyView,
) -> Result<command::ResponseView, Seq<char>> {
    match reply {
        ReplyView::Command(Ok(r)) => if r.success {
            Ok(r)
        } else {
            Err(
                name + ": "@ + command.text() + " refused in state "@ + command::state_name(r.state)
                    + ": "@ + r.message,
            )
        },
        ReplyView::Command(Err(e)) => Err(name + ": "@ + command.text() + " unreachable: "@ + e),
        _ => Err(Seq::empty()),
    }
}

/// What a request to the electronics came to: the state they are in, or why it did not work.
pub open spec fn ecc_result(action: Seq<char>, reply: ReplyView) -> Result<Seq<char>, Seq<char>> {
    match reply {
        ReplyView::Ecc(Ok(r)) => if r.ok {
            Ok(r.state)
        } else {
            Err("ecc "@ + action + " failed in state "@ + r.state + ": "@ + r.error)
        },
        ReplyView::Ecc(Err(e)) => Err("ecc "@ + action + " unreachable: "@ + e),
        _ => Err(Seq::empty()),
    }
}

/// The value of a result.
pub open spec fn result_view(r: Result<CommandResponse, String>) -> Result<
    command::ResponseView,
    Seq<char>,
> {
    match r {
        Ok(r) => Ok(r@),
        Err(e) => Err(e@),
    }
}

/// The value of a result.
pub open spec fn text_result(r: Result<String, String>) -> Result<Seq<char>, Seq<char>> {
    match r {
        Ok(s) => Ok(s@),
        Err(e) => Err(e@),
    }
}

/// What a command came to: the answer, or why there is none that helps. A component that does
/// not answer and one that refuses are both failures.
pub fn apply(name: &String, command: &Command, reply: Reply) -> (r: Result<CommandResponse, String>)
    ensures
        result_view(r) == command_result(name@, command@, reply@),
{
    match reply {
        Reply::Command(Ok(response)) => {
            if response.success {
                return Ok(response);
            }
            let mut s: String = name.clone();
            s.append(": ");
            let c: String = command.text();
            s.append(c.as_str());
            s.append(" refused in state ");
            s.append(response.state.name());
            s.append(": ");
            s.append(response.message.as_str());
            Err(s)
        },
        Reply::Command(Err(e)) => {
            let mut s: String = name.clone();
            s.append(": ");
            let c: String = command.text();
            s.append(c.as_str());
            s.append(" unreachable: ");
            s.append(e.as_str());
            Err(s)
        },
        _ => {
            let s: String = String::new();
            assert(s@ =~= Seq::empty());
            Err(s)
        },
    }
}

/// What a request to the electronics came to: the state they are in, or why it did not work.
pub fn apply_ecc(action: &str, reply: Reply) -> (r: Result<String, String>)
    ensures
        text_result(r) == ecc_result(action@, reply@),
{
    match reply {
        Reply::Ecc(Ok(response)) => {
            if response.ok {
                return Ok(response.state);
            }
            let mut s: String = "ecc ".to_string();
            s.append(action);
            s.append(" failed in state ");
            s.append(response.state.as_str());
            s.append(": ");
            s.append(response.error.as_str());
            Err(s)
        },
        Reply::Ecc(Err(e)) => {
            let mut s: String = "ecc ".to_string();
            s.append(action);
            s.append(" unreachable: ");
            s.append(e.as_str());
            Err(s)
        },
        _ => {
            let s: String = String::new();
            assert(s@ =~= Seq::empty());
            Err(s)
        },
    }
}

// ---------------------------------------------------------------------
// Leading the electronics back
// ---------------------------------------------------------------------

/// Whether a run can be started with the electronics in this state.
pub open spec fn is_bottom(state: Seq<char>) -> bool {
    state == "Idle"@ || state == "Off"@
}

/// The action that leads the electronics one state back, if there is one.
pub open spec fn step_back(state: Seq<char>) -> Option<Seq<char>> {
    if state == "Running"@ || state == "Paused"@ {
        Some("stop"@)
    } else if state == "Ready"@ {
        Some("breakup"@)
    } else if state == "Prepared"@ || state == "Described"@ {
        Some("reset"@)
    } else {
        None
    }
}

fn at_bottom(state: &String) -> (r: bool)
    ensures
        r == is_bottom(state@),
{
    same(state.as_str(), "Idle") || same(state.as_str(), "Off")
}

fn back_action(state: &String) -> (action: Option<&'static str>)
    ensures
        match step_back(state@) {
            Some(a) => action matches Some(s) && s@ == a,
            None => action is None,
        },
{
    let s = state.as_str();
    if same(s, "Running") || same(s, "Paused") {
        Some("stop")
    } else if same(s, "Ready") {
        Some("breakup")
    } else if same(s, "Prepared") || same(s, "Described") {
        Some("reset")
    } else {
        None
    }
}

/// How a step is noted: what was asked, and the state that came of it.
pub open spec fn step_note(action: Seq<char>, state: Seq<char>) -> Seq<char> {
    action + "->"@ + state
}

fn note_of(action: &str, state: &String) -> (s: String)
    ensures
        s@ == step_note(action@, state@),
{
    let mut s: String = action.to_string();
    s.append("->");
    s.append(state.as_str());
    s
}

/// Why no run is started from a state that there is no way back from.
pub open spec fn lost_message(state: Seq<char>) -> Seq<char> {
    "ecc is in state "@ + state
        + " — refusing to start a run (cannot walk this state back to Idle)"@
}

/// Why no run is started where a step back has no effect.
pub open spec fn stuck_message(action: Seq<char>, state: Seq<char>) -> Seq<char> {
    "ecc "@ + action + " left the ECC in "@ + state
        + " — the real ECC ignores undefined transitions in silence; refusing to start a run"@
}

/// Texts in quotation marks.
pub open spec fn quoted(parts: Seq<Seq<char>>) -> Seq<Seq<char>> {
    parts.map_values(|p: Seq<char>| "\""@ + p + "\""@)
}

/// Why no run is started where the way back has no end.
pub open spec fn endless_message(state: Seq<char>, trail: Seq<Seq<char>>) -> Seq<char> {
    "ecc did not reach Idle within 4 steps (stuck in "@ + state + "; walked ["@ + text::join(
        quoted(trail),
        ", "@,
    ) + "]) — refusing to start a run"@
}

fn lost_text(state: &String) -> (s: String)
    ensures
        s@ == lost_message(state@),
{
    let mut s: String = "ecc is in state ".to_string();
    s.append(state.as_str());
    s.append(" — refusing to start a run (cannot walk this state back to Idle)");
    s
}

fn stuck_text(action: &str, state: &String) -> (s: String)
    ensures
        s@ == stuck_message(action@, state@),
{
    let mut s: String = "ecc ".to_string();
    s.append(action);
    s.append(" left the ECC in ");
    s.append(state.as_str());
    s.append(" — the real ECC ignores undefined transitions in silence; refusing to start a run");
    s
}

fn endless_text(state: &String, trail: &Vec<String>) -> (s: String)
    ensures
        s@ == endless_message(state@, text::values(trail@)),
{
    let ghost all = quoted(text::values(trail@));
    let mut parts: Vec<String> = Vec::new();
    let mut i: usize = 0;
    while i < trail.len()
        invariant
            i <= trail@.len(),
            all == quoted(text::values(trail@)),
            parts@.len() == i,
            forall|k: int| 0 <= k < i ==> (#[trigger] parts@[k])@ == all[k],
        decreases trail@.len() - i,
    {
        let mut p: String = "\"".to_string();
        p.append(trail[i].as_str());
        p.append("\"");
        parts.push(p);
        i = i + 1;
    }
    assert(text::values(parts@) =~= all);
    let list: String = join_texts(&parts, ", ");
    let mut s: String = "ecc did not reach Idle within 4 steps (stuck in ".to_string();
    s.append(state.as_str());
    s.append("; walked [");
    s.append(list.as_str());
    s.append("]) — refusing to start a run");
    s
}

/// What a step does to electronics that know only the transitions that are defined and take no
/// notice of any other.
pub open spec fn obedient(state: Seq<char>, action: Seq<char>) -> Seq<char> {
    if action == "stop"@ && (state == "Running"@ || state == "Paused"@) {
        "Ready"@
    } else if action == "breakup"@ && state == "Ready"@ {
        "Prepared"@
    } else if action == "reset"@ && state == "Prepared"@ {
        "Described"@
    } else if action == "reset"@ && state == "Described"@ {
        "Idle"@
    } else {
        state
    }
}

/// How many steps lie between a state and `Idle`.
pub open spec fn distance(state: Seq<char>) -> nat {
    if state == "Running"@ || state == "Paused"@ {
        4
    } else if state == "Ready"@ {
        3
    } else if state == "Prepared"@ {
        2
    } else if state == "Described"@ {
        1
    } else {
        0
    }
}

proof fn lemma_names_differ()
    ensures
        "Running"@ != "Paused"@,
        "Running"@ != "Ready"@,
        "Running"@ != "Prepared"@,
        "Running"@ != "Described"@,
        "Running"@ != "Idle"@,
        "Running"@ != "Off"@,
        "Paused"@ != "Ready"@,
        "Paused"@ != "Prepared"@,
        "Paused"@ != "Described"@,
        "Paused"@ != "Idle"@,
        "Paused"@ != "Off"@,
        "Ready"@ != "Prepared"@,
        "Ready"@ != "Described"@,
        "Ready"@ != "Idle"@,
        "Ready"@ != "Off"@,
        "Prepared"@ != "Described"@,
        "Prepared"@ != "Idle"@,
        "Prepared"@ != "Off"@,
        "Described"@ != "Idle"@,
        "Described"@ != "Off"@,
        "stop"@ != "breakup"@,
        "stop"@ != "reset"@,
        "breakup"@ != "reset"@,
{
    reveal_strlit("Running");
    reveal_strlit("Paused");
    reveal_strlit("Ready");
    reveal_strlit("Prepared");
    reveal_strlit("Described");
    reveal_strlit("Idle");
    reveal_strlit("Off");
    reveal_strlit("stop");
    reveal_strlit("breakup");
    reveal_strlit("reset");
    assert("Running"@[0] == 'R' && "Paused"@[0] == 'P' && "Prepared"@[0] == 'P');
    assert("Ready"@.len() == 5 && "Idle"@.len() == 4 && "Off"@.len() == 3);
    assert("Described"@.len() == 9 && "Prepared"@.len() == 8 && "Running"@.len() == 7);
    assert("Paused"@.len() == 6);
    assert("stop"@.len() == 4 && "breakup"@.len() == 7 && "reset"@.len() == 5);
}

/// Each step back leads electronics that know the defined transitions one state nearer to `Idle`,
/// and from no state is it more than four steps. So the way back never ends in a state where a
/// step has no effect, nor is it too long.
pub proof fn law_the_way_back_reaches_idle(state: Seq<char>)
    ensures
        distance(state) <= ECC_WALK_BACK_MAX_STEPS,
        step_back(state) matches Some(action) ==> {
            &&& distance(obedient(state, action)) == distance(state) - 1
            &&& obedient(state, action) != state
            &&& distance(obedient(state, action)) == 0 ==> is_bottom(obedient(state, action))
        },
{
    lemma_names_differ();
}

// ---------------------------------------------------------------------
// Starting a run
// ---------------------------------------------------------------------

/// A component that had to be told to arm more than once.
#[derive(Debug, Clone, PartialEq, Eq)]
pub struct ArmRetry {
    pub component: String,
    pub attempts: u32,
    pub waited_ms: u64,
}

/// The value of an [`ArmRetry`].
pub struct RetryView {
    pub component: Seq<char>,
    pub attempts: u32,
    pub waited_ms: u64,
}

impl View for ArmRetry {
    type V = RetryView;

    open spec fn view(&self) -> RetryView {
        RetryView {
            component: self.component@,
            attempts: self.attempts,
            waited_ms: self.waited_ms,
        }
    }
}

/// What came of starting a run.
#[derive(Debug, Clone)]
pub struct StartReport {
    pub run: u32,
    /// Where the CoBos connect to.
    pub links: Vec<RouterLink>,
    /// The components that had to be told to arm more than once.
    pub arm_retries: Vec<ArmRetry>,
    /// The state that the electronics were led back to.
    pub ecc_state_after_reset: String,
    /// The steps that led there.
    pub ecc_walk_back: Vec<String>,
}

/// Why a run was not started.
#[derive(Debug, Clone)]
pub struct StartFailure {
    /// The part of the sequence that failed.
    pub stage: &'static str,
    pub detail: String,
    /// What went wrong while the components were stopped and reset.
    pub rollback_notes: Vec<String>,
}

/// The value of a [`StartFailure`].
pub struct FailureView {
    pub stage: Seq<char>,
    pub detail: Seq<char>,
    pub notes: Seq<Seq<char>>,
}

impl View for StartFailure {
    type V = FailureView;

    open spec fn view(&self) -> FailureView {
        FailureView {
            stage: self.stage@,
            detail: self.detail@,
            notes: text::values(self.rollback_notes@),
        }
    }
}

impl FailureView {
    /// The message.
    pub open spec fn text(self) -> Seq<char> {
        let head = self.stage + " stage failed: "@ + self.detail;
        if self.notes.len() == 0 {
            head
        } else {
            head + " (rollback: "@ + text::join(self.notes, "; "@) + ")"@
        }
    }
}

impl StartFailure {
    /// The message.
    pub fn text(&self) -> (s: String)
        ensures
            s@ == self@.text(),
    {
        let mut s: String = self.stage.to_string();
        s.append(" stage failed: ");
        s.append(self.detail.as_str());
        assert(self@.notes.len() == self.rollback_notes@.len());
        if self.rollback_notes.len() > 0 {
            s.append(" (rollback: ");
            let notes: String = join_texts(&self.rollback_notes, "; ");
            s.append(notes.as_str());
            s.append(")");
        }
        s
    }
}

/// The part of the sequence that a start is in. Components are counted from the end of the data
/// stream.
pub enum StartStage {
    /// The electronics are asked for their state.
    Ask,
    /// The electronics are led back from this state, after so many steps.
    Walk { state: Seq<char>, steps: nat },
    Configure { i: int },
    /// Component `i` is told to arm for the `attempt`-th time, for the first time at `began`.
    Arm { i: int, attempt: int, began: u64 },
    /// Component `i` is given time before it is told to arm again.
    Pause { i: int, attempt: int, began: u64 },
    Start { i: int },
    /// The electronics are described, prepared, configured and started.
    Ecc { step: int },
    /// Component `i` is stopped, or reset.
    Rollback { i: int, reset: bool },
    Started,
    Failed,
}

/// The state of a [`StartRun`].
pub struct StartState {
    pub run: u32,
    pub comment: Seq<char>,
    pub ts: Seq<char>,
    pub stage: StartStage,
    /// The steps that the electronics were led back.
    pub trail: Seq<Seq<char>>,
    /// The state that the electronics were led back to.
    pub landed: Seq<char>,
    pub links: Seq<LinkView>,
    pub retries: Seq<RetryView>,
    /// How many components were touched.
    pub touched: int,
    pub failed_stage: Seq<char>,
    pub detail: Seq<char>,
    pub notes: Seq<Seq<char>>,
}

/// How long a component is given after an attempt, in milliseconds.
pub open spec fn backoff(attempt: int) -> nat
    decreases attempt,
{
    if attempt <= 1 {
        ARM_RETRY_BACKOFF as nat
    } else {
        2 * backoff(attempt - 1)
    }
}

/// The time from `began` to `now`.
pub open spec fn elapsed(began: u64, now: u64) -> u64 {
    if now >= began {
        (now - began) as u64
    } else {
        0
    }
}

/// The request that a step of the electronics needs.
pub open spec fn ecc_step(params: ControllerParams, step: int, links: Seq<LinkView>) -> EccRequestView {
    if step == 0 {
        EccRequestView {
            action: "describe"@,
            config_id: Some(params.config_ids@.describe),
            links: None,
        }
    } else if step == 1 {
        EccRequestView {
            action: "prepare"@,
            config_id: Some(params.config_ids@.prepare),
            links: None,
        }
    } else if step == 2 {
        controller::configure_of(params, links)
    } else {
        EccRequestView { action: "start"@, config_id: None, links: None }
    }
}

/// Why a start is given up where a component does not arm.
pub open spec fn gave_up(last: Seq<char>, waited_ms: u64) -> Seq<char> {
    last + " (gave up after 6 attempts over "@ + text::decimal(waited_ms as nat) + " ms)"@
}

impl StartState {
    /// The command that configures a component.
    pub open spec fn configuration(self) -> CommandView {
        CommandView::Configure {
            run_number: self.run,
            comment: self.comment,
            config: seq![("run_start_ts"@, self.ts)],
        }
    }

    /// What is to be asked next.
    pub open spec fn request(self, params: ControllerParams) -> RequestView {
        match self.stage {
            StartStage::Ask => RequestView::Ecc(
                EccRequestView { action: "status"@, config_id: None, links: None },
            ),
            StartStage::Walk { state, .. } => RequestView::Ecc(
                EccRequestView { action: step_back(state)->0, config_id: None, links: None },
            ),
            StartStage::Configure { i } => RequestView::Command {
                component: i,
                command: self.configuration(),
            },
            StartStage::Arm { i, .. } => RequestView::Command {
                component: i,
                command: CommandView::Arm,
            },
            StartStage::Pause { attempt, .. } => RequestView::Sleep(backoff(attempt)),
            StartStage::Start { i } => RequestView::Command {
                component: i,
                command: CommandView::Start { run_number: self.run },
            },
            StartStage::Ecc { step } => RequestView::Ecc(ecc_step(params, step, self.links)),
            StartStage::Rollback { i, reset } => RequestView::Command {
                component: i,
                command: if reset {
                    CommandView::Reset
                } else {
                    CommandView::Stop
                },
            },
            StartStage::Started => RequestView::Done,
            StartStage::Failed => RequestView::Done,
        }
    }

    /// The start with the failure of a part: the components that were touched are to be stopped
    /// and reset, beginning with the one that was touched last.
    pub open spec fn fails(self, stage: Seq<char>, detail: Seq<char>) -> StartState {
        StartState {
            failed_stage: stage,
            detail,
            stage: if self.touched > 0 {
                StartStage::Rollback { i: self.touched - 1, reset: false }
            } else {
                StartStage::Failed
            },
            ..self
        }
    }

    /// The start once the electronics are in `state`, after so many steps back.
    pub open spec fn walked(self, n: int, state: Seq<char>, steps: nat) -> StartState {
        if is_bottom(state) {
            StartState {
                landed: state,
                stage: if n > 0 {
                    StartStage::Configure { i: 0 }
                } else {
                    StartStage::Ecc { step: 0 }
                },
                ..self
            }
        } else if step_back(state) is None {
            self.fails("ecc"@, lost_message(state))
        } else if steps == ECC_WALK_BACK_MAX_STEPS {
            self.fails("ecc"@, endless_message(state, self.trail))
        } else {
            StartState { stage: StartStage::Walk { state, steps }, ..self }
        }
    }

    /// The start with one more step noted.
    pub open spec fn noted(self, action: Seq<char>, state: Seq<char>) -> StartState {
        StartState { trail: self.trail.push(step_note(action, state)), ..self }
    }

    /// The start once component `i` is armed.
    pub open spec fn armed(
        self,
        params: ControllerParams,
        i: int,
        metrics: Option<Seq<(Seq<char>, command::MetricView)>>,
        now: u64,
    ) -> StartState {
        let next = if i + 1 < params.components@.len() {
            StartStage::Arm { i: i + 1, attempt: 1, began: now }
        } else {
            StartStage::Start { i: 0 }
        };
        match params.components@[i].kind {
            ComponentKind::Receiver { cobo_id } => match controller::link_of(
                controller::text_of(params.router_ip),
                cobo_id,
                metrics,
            ) {
                Some(link) => StartState { links: self.links.push(link), stage: next, ..self },
                None => self.fails(
                    "Arm"@,
                    params.components@[i].name@ + ": "@ + controller::no_port_message(),
                ),
            },
            _ => StartState { stage: next, ..self },
        }
    }

    /// The start with a retry noted.
    pub open spec fn retried(self, name: Seq<char>, attempts: int, waited_ms: u64) -> StartState {
        StartState {
            retries: self.retries.push(
                RetryView { component: name, attempts: attempts as u32, waited_ms },
            ),
            ..self
        }
    }

    /// The start once an answer has come.
    pub open spec fn after(self, params: ControllerParams, reply: ReplyView, now: u64) -> StartState {
        let n = params.components@.len() as int;
        match self.stage {
            StartStage::Ask => match ecc_result("status"@, reply) {
                Err(e) => self.fails("ecc"@, e),
                Ok(state) => self.noted("status"@, state).walked(n, state, 0),
            },
            StartStage::Walk { state, steps } => match ecc_result(step_back(state)->0, reply) {
                Err(e) => self.fails("ecc"@, e),
                Ok(landed) => {
                    let s = self.noted(step_back(state)->0, landed);
                    if landed == state {
                        s.fails("ecc"@, stuck_message(step_back(state)->0, state))
                    } else {
                        s.walked(n, landed, steps + 1)
                    }
                },
            },
            StartStage::Configure { i } => match command_result(
                params.components@[i].name@,
                self.configuration(),
                reply,
            ) {
                Err(e) => self.fails("Configure"@, e),
                Ok(_) => StartState {
                    touched: i + 1,
                    stage: if i + 1 < n {
                        StartStage::Configure { i: i + 1 }
                    } else {
                        StartStage::Arm { i: 0, attempt: 1, began: now }
                    },
                    ..self
                },
            },
            StartStage::Arm { i, attempt, began } => match command_result(
                params.components@[i].name@,
                CommandView::Arm,
                reply,
            ) {
                Ok(r) => {
                    let s = if attempt > 1 {
                        self.retried(params.components@[i].name@, attempt, elapsed(began, now))
                    } else {
                        self
                    };
                    s.armed(params, i, r.metrics, now)
                },
                Err(e) => if attempt < ARM_MAX_ATTEMPTS {
                    StartState { stage: StartStage::Pause { i, attempt, began }, ..self }
                } else {
                    self.retried(
                        params.components@[i].name@,
                        attempt,
                        elapsed(began, now),
                    ).fails("Arm"@, gave_up(e, elapsed(began, now)))
                },
            },
            StartStage::Pause { i, attempt, began } => StartState {
                stage: StartStage::Arm { i, attempt: attempt + 1, began },
                ..self
            },
            StartStage::Start { i } => match command_result(
                params.components@[i].name@,
                CommandView::Start { run_number: self.run },
                reply,
            ) {
                Err(e) => self.fails("Start"@, e),
                Ok(_) => StartState {
                    stage: if i + 1 < n {
                        StartStage::Start { i: i + 1 }
                    } else {
                        StartStage::Ecc { step: 0 }
                    },
                    ..self
                },
            },
            StartStage::Ecc { step } => match ecc_result(
                ecc_step(params, step, self.links).action,
                reply,
            ) {
                Err(e) => self.fails("ecc"@, e),
                Ok(_) => StartState {
                    stage: if step < 3 {
                        StartStage::Ecc { step: step + 1 }
                    } else {
                        StartStage::Started
                    },
                    ..self
                },
            },
            StartStage::Rollback { i, reset } => {
                let command = if reset {
                    CommandView::Reset
                } else {
                    CommandView::Stop
                };
                StartState {
                    notes: match command_result(params.components@[i].name@, command, reply) {
                        Err(e) => self.notes.push(e),
                        Ok(_) => self.notes,
                    },
                    stage: if !reset {
                        StartStage::Rollback { i, reset: true }
                    } else if i > 0 {
                        StartStage::Rollback { i: i - 1, reset: false }
                    } else {
                        StartStage::Failed
                    },
                    ..self
                }
            },
            StartStage::Started => self,
            StartStage::Failed => self,
        }
    }

    /// Whether the parts of the state fit together and fit the parameters.
    pub open spec fn wf(self, params: ControllerParams) -> bool {
        let n = params.components@.len() as int;
        &&& 0 <= self.touched <= n
        &&& match self.stage {
            StartStage::Ask => self.touched == 0,
            StartStage::Walk { state, steps } => self.touched == 0 && step_back(state) is Some
                && steps < ECC_WALK_BACK_MAX_STEPS,
            StartStage::Configure { i } => 0 <= i < n && self.touched == i,
            StartStage::Arm { i, attempt, .. } => 0 <= i < n && self.touched == n && 1 <= attempt
                <= ARM_MAX_ATTEMPTS,
            StartStage::Pause { i, attempt, .. } => 0 <= i < n && self.touched == n && 1 <= attempt
                < ARM_MAX_ATTEMPTS,
            StartStage::Start { i } => 0 <= i < n && self.touched == n,
            StartStage::Ecc { step } => 0 <= step < 4 && self.touched == n,
            StartStage::Rollback { i, .. } => 0 <= i < self.touched,
            StartStage::Started => self.touched == n,
            StartStage::Failed => true,
        }
        &&& self.stage is Ask || self.stage is Walk || self.failed() || is_bottom(self.landed)
    }

    /// Whether something has failed.
    pub open spec fn failed(self) -> bool {
        self.stage is Rollback || self.stage is Failed
    }
}

// ---------------------------------------------------------------------
// Laws of starting a run
// ---------------------------------------------------------------------

/// Every answer leads from one proper state to another.
pub proof fn law_starting_stays_in_order(
    s: StartState,
    params: ControllerParams,
    reply: ReplyView,
    now: u64,
)
    requires
        s.wf(params),
        reply.answers(s.request(params)),
    ensures
        s.after(params, reply, now).wf(params),
{
}

/// No component is sent a command before the electronics are led back.
pub proof fn law_components_wait_for_the_electronics(s: StartState, params: ControllerParams)
    requires
        s.wf(params),
        s.request(params) is Command,
        !s.failed(),
    ensures
        is_bottom(s.landed),
{
}

/// A run is started only with every component touched and every stage passed, the electronics
/// last.
pub proof fn law_a_started_run_touched_everything(
    s: StartState,
    params: ControllerParams,
    reply: ReplyView,
    now: u64,
)
    requires
        s.wf(params),
        !(s.stage is Started),
        s.after(params, reply, now).stage is Started,
    ensures
        s.stage == (StartStage::Ecc { step: 3 }),
        s.touched == params.components@.len(),
        is_bottom(s.landed),
{
}

/// A component is told to arm as often as [`ARM_MAX_ATTEMPTS`] says at most, and a pause follows
/// every attempt but the last at most.
pub proof fn law_arming_is_bounded(s: StartState, params: ControllerParams, reply: ReplyView, now: u64)
    requires
        s.wf(params),
        s.stage is Arm,
    ensures
        1 <= s.stage->Arm_attempt <= ARM_MAX_ATTEMPTS,
        s.after(params, reply, now).stage matches StartStage::Pause { attempt, .. } ==> attempt
            == s.stage->Arm_attempt && attempt < ARM_MAX_ATTEMPTS,
{
}

/// The waits between the attempts to arm a component are 20, 40, 80, 160 and 320 milliseconds,
/// 620 in all.
pub proof fn law_waits_double()
    ensures
        backoff(1) == 20,
        backoff(2) == 40,
        backoff(3) == 80,
        backoff(4) == 160,
        backoff(5) == 320,
        backoff(1) + backoff(2) + backoff(3) + backoff(4) + backoff(5) == 620,
{
    reveal_with_fuel(backoff, 6);
}

/// Whatever a component answers while the start is undone, each that was touched is stopped and
/// then reset, in the opposite order, and no other is sent anything.
pub proof fn law_undoing_goes_back_step_by_step(
    s: StartState,
    params: ControllerParams,
    reply: ReplyView,
    now: u64,
)
    requires
        s.wf(params),
        s.stage is Rollback,
    ensures
        ({
            let i = s.stage->Rollback_i;
            let next = s.after(params, reply, now);
            if !s.stage->Rollback_reset {
                next.request(params) == (RequestView::Command {
                    component: i,
                    command: CommandView::Reset,
                })
            } else if i > 0 {
                next.request(params) == (RequestView::Command {
                    component: i - 1,
                    command: CommandView::Stop,
                })
            } else {
                next.stage is Failed
            }
        }),
        s.after(params, reply, now).touched == s.touched,
{
}

/// What fails is undone: the last component that was touched is stopped first; and where none was
/// touched, nothing is sent.
pub proof fn law_failure_is_undone(
    s: StartState,
    params: ControllerParams,
    stage: Seq<char>,
    detail: Seq<char>,
)
    requires
        s.wf(params),
    ensures
        s.touched > 0 ==> s.fails(stage, detail).request(params) == (RequestView::Command {
            component: s.touched - 1,
            command: CommandView::Stop,
        }),
        s.touched == 0 ==> s.fails(stage, detail).request(params) is Done,
{
}

/// Once something has failed, the start never succeeds, and the reason stays.
pub proof fn law_failure_is_final(s: StartState, params: ControllerParams, reply: ReplyView, now: u64)
    requires
        s.failed(),
    ensures
        s.after(params, reply, now).failed(),
        s.after(params, reply, now).failed_stage == s.failed_stage,
        s.after(params, reply, now).detail == s.detail,
{
}

// ---------------------------------------------------------------------
// The start
// ---------------------------------------------------------------------

enum Stage {
    Ask,
    Walk { state: String, steps: usize },
    Configure { i: usize },
    Arm { i: usize, attempt: u32, began: u64 },
    Pause { i: usize, attempt: u32, began: u64 },
    Start { i: usize },
    Ecc { step: usize },
    Rollback { i: usize, reset: bool },
    Started,
    Failed,
}

impl View for Stage {
    type V = StartStage;

    closed spec fn view(&self) -> StartStage {
        match self {
            Stage::Ask => StartStage::Ask,
            Stage::Walk { state, steps } => StartStage::Walk { state: state@, steps: *steps as nat },
            Stage::Configure { i } => StartStage::Configure { i: *i as int },
            Stage::Arm { i, attempt, began } => StartStage::Arm {
                i: *i as int,
                attempt: *attempt as int,
                began: *began,
            },
            Stage::Pause { i, attempt, began } => StartStage::Pause {
                i: *i as int,
                attempt: *attempt as int,
                began: *began,
            },
            Stage::Start { i } => StartStage::Start { i: *i as int },
            Stage::Ecc { step } => StartStage::Ecc { step: *step as int },
            Stage::Rollback { i, reset } => StartStage::Rollback { i: *i as int, reset: *reset },
            Stage::Started => StartStage::Started,
            Stage::Failed => StartStage::Failed,
        }
    }
}

spec fn link_views(links: Seq<RouterLink>) -> Seq<LinkView> {
    links.map_values(|l: RouterLink| l@)
}

spec fn retry_views(retries: Seq<ArmRetry>) -> Seq<RetryView> {
    retries.map_values(|r: ArmRetry| r@)
}

fn backoff_ms(attempt: u32) -> (ms: u64)
    requires
        1 <= attempt < ARM_MAX_ATTEMPTS,
    ensures
        ms == backoff(attempt as int),
{
    proof {
        law_waits_double();
    }
    let mut ms: u64 = ARM_RETRY_BACKOFF;
    let mut k: u32 = 1;
    while k < attempt
        invariant
            1 <= k <= attempt < ARM_MAX_ATTEMPTS,
            ms == backoff(k as int),
            backoff(1) == 20,
            backoff(2) == 40,
            backoff(3) == 80,
            backoff(4) == 160,
            backoff(5) == 320,
        decreases attempt - k,
    {
        ms = 2 * ms;
        k = k + 1;
    }
    ms
}

fn since(began: u64, now: u64) -> (ms: u64)
    ensures
        ms == elapsed(began, now),
{
    if now >= began {
        now - began
    } else {
        0
    }
}

/// The sequence that starts a run.
pub struct StartRun {
    run: u32,
    comment: String,
    ts: String,
    stage: Stage,
    trail: Vec<String>,
    landed: String,
    links: Vec<RouterLink>,
    retries: Vec<ArmRetry>,
    touched: usize,
    failed_stage: &'static str,
    detail: String,
    notes: Vec<String>,
}

impl View for StartRun {
    type V = StartState;

    closed spec fn view(&self) -> StartState {
        StartState {
            run: self.run,
            comment: self.comment@,
            ts: self.ts@,
            stage: self.stage@,
            trail: text::values(self.trail@),
            landed: self.landed@,
            links: link_views(self.links@),
            retries: retry_views(self.retries@),
            touched: self.touched as int,
            failed_stage: self.failed_stage@,
            detail: self.detail@,
            notes: text::values(self.notes@),
        }
    }
}

impl StartState {
    /// A start of which nothing is done.
    pub open spec fn fresh(run: u32, comment: Seq<char>, ts: Seq<char>) -> StartState {
        StartState {
            run,
            comment,
            ts,
            stage: StartStage::Ask,
            trail: Seq::empty(),
            landed: ""@,
            links: Seq::empty(),
            retries: Seq::empty(),
            touched: 0,
            failed_stage: ""@,
            detail: ""@,
            notes: Seq::empty(),
        }
    }
}

impl StartRun {
    /// A start of which nothing is done. `ts` is the time that the run is said to have started.
    pub fn new(run: u32, comment: &str, ts: &str) -> (start: Self)
        ensures
            start@ == StartState::fresh(run, comment@, ts@),
    {
        let start = StartRun {
            run,
            comment: comment.to_string(),
            ts: ts.to_string(),
            stage: Stage::Ask,
            trail: Vec::new(),
            landed: "".to_string(),
            links: Vec::new(),
            retries: Vec::new(),
            touched: 0,
            failed_stage: "",
            detail: "".to_string(),
            notes: Vec::new(),
        };
        proof {
            let fresh = StartState::fresh(run, comment@, ts@);
            assert(start@.trail =~= fresh.trail);
            assert(start@.links =~= fresh.links);
            assert(start@.retries =~= fresh.retries);
            assert(start@.notes =~= fresh.notes);
        }
        start
    }

    fn configuration(&self) -> (command: Command)
        ensures
            command@ == self@.configuration(),
    {
        let mut config: Vec<(String, String)> = Vec::new();
        config.push(("run_start_ts".to_string(), self.ts.clone()));
        let command = Command::Configure(
            RunConfig { run_number: self.run, comment: self.comment.clone(), config },
        );
        assert(config@.map_values(|p: (String, String)| (p.0@, p.1@)) =~= seq![
            ("run_start_ts"@, self.ts@),
        ]);
        command
    }

    fn ecc_request(&self, params: &ControllerParams, step: usize) -> (r: EccRequest)
        ensures
            r@ == ecc_step(*params, step as int, self@.links),
    {
        if step == 0 {
            EccRequest::with_config("describe", params.config_ids.describe.as_str())
        } else if step == 1 {
            EccRequest::with_config("prepare", params.config_ids.prepare.as_str())
        } else if step == 2 {
            configure_request(params, &self.links)
        } else {
            EccRequest::plain("start")
        }
    }

    /// What is to be asked next.
    pub fn request(&self, params: &ControllerParams) -> (request: Request)
        requires
            self@.wf(*params),
        ensures
            request@ == self@.request(*params),
    {
        match &self.stage {
            Stage::Ask => Request::Ecc(EccRequest::plain("status")),
            Stage::Walk { state, .. } => match back_action(state) {
                Some(action) => Request::Ecc(EccRequest::plain(action)),
                None => Request::Done,
            },
            Stage::Configure { i } => Request::Command {
                component: *i,
                command: self.configuration(),
            },
            Stage::Arm { i, .. } => Request::Command { component: *i, command: Command::Arm },
            Stage::Pause { attempt, .. } => Request::Sleep(backoff_ms(*attempt)),
            Stage::Start { i } => Request::Command {
                component: *i,
                command: Command::Start { run_number: self.run },
            },
            Stage::Ecc { step } => Request::Ecc(self.ecc_request(params, *step)),
            Stage::Rollback { i, reset } => Request::Command {
                component: *i,
                command: if *reset {
                    Command::Reset
                } else {
                    Command::Stop
                },
            },
            Stage::Started => Request::Done,
            Stage::Failed => Request::Done,
        }
    }

    fn fails(&mut self, stage: &'static str, detail: String)
        ensures
            final(self)@ == old(self)@.fails(stage@, detail@),
    {
        self.failed_stage = stage;
        self.detail = detail;
        self.stage = if self.touched > 0 {
            Stage::Rollback { i: self.touched - 1, reset: false }
        } else {
            Stage::Failed
        };
    }

    fn walked(&mut self, n: usize, state: String, steps: usize)
        ensures
            final(self)@ == old(self)@.walked(n as int, state@, steps as nat),
    {
        if at_bottom(&state) {
            self.landed = state;
            self.stage = if n > 0 {
                Stage::Configure { i: 0 }
            } else {
                Stage::Ecc { step: 0 }
            };
        } else if back_action(&state).is_none() {
            self.fails("ecc", lost_text(&state));
        } else if steps == ECC_WALK_BACK_MAX_STEPS {
            self.fails("ecc", endless_text(&state, &self.trail));
        } else {
            self.stage = Stage::Walk { state, steps };
        }
    }

    fn note(&mut self, action: &str, state: &String)
        ensures
            final(self)@ == old(self)@.noted(action@, state@),
    {
        push_text(&mut self.trail, note_of(action, state));
    }

    fn retried(&mut self, name: &String, attempts: u32, waited_ms: u64)
        ensures
            final(self)@ == old(self)@.retried(name@, attempts as int, waited_ms),
    {
        self.retries.push(ArmRetry { component: name.clone(), attempts, waited_ms });
        assert(retry_views(self.retries@) =~= retry_views(old(self).retries@).push(
            RetryView { component: name@, attempts, waited_ms },
        ));
    }

    fn armed(&mut self, params: &ControllerParams, i: usize, response: &CommandResponse, now: u64)
        requires
            i < params.components@.len(),
        ensures
            final(self)@ == old(self)@.armed(*params, i as int, response@.metrics, now),
    {
        if let ComponentKind::Receiver { cobo_id } = params.components[i].kind {
            match router_link(&params.router_ip, cobo_id, response) {
                Some(link) => {
                    self.links.push(link);
                    assert(link_views(self.links@) =~= link_views(old(self).links@).push(link@));
                },
                None => {
                    let mut detail: String = params.components[i].name.clone();
                    detail.append(": ");
                    detail.append("Arm response carries no router_port");
                    self.fails("Arm", detail);
                    return;
                },
            }
        }
        let n: usize = params.components.len();
        self.stage = if i + 1 < n {
            Stage::Arm { i: i + 1, attempt: 1, began: now }
        } else {
            Stage::Start { i: 0 }
        };
    }

    /// Takes an answer. `now` is the time in milliseconds.
    pub fn reply(&mut self, params: &ControllerParams, reply: Reply, now: u64)
        requires
            old(self)@.wf(*params),
            reply@.answers(old(self)@.request(*params)),
        ensures
            final(self)@ == old(self)@.after(*params, reply@, now),
            final(self)@.wf(*params),
    {
        proof {
            law_starting_stays_in_order(self@, *params, reply@, now);
        }
        let n: usize = params.components.len();
        match &self.stage {
            Stage::Ask => match apply_ecc("status", reply) {
                Err(e) => self.fails("ecc", e),
                Ok(state) => {
                    self.note("status", &state);
                    self.walked(n, state, 0);
                },
            },
            Stage::Walk { state, steps } => {
                let state: String = state.clone();
                let steps: usize = *steps;
                if let Some(action) = back_action(&state) {
                    match apply_ecc(action, reply) {
                        Err(e) => self.fails("ecc", e),
                        Ok(landed) => {
                            self.note(action, &landed);
                            if same(landed.as_str(), state.as_str()) {
                                self.fails("ecc", stuck_text(action, &state));
                            } else {
                                self.walked(n, landed, steps + 1);
                            }
                        },
                    }
                }
            },
            Stage::Configure { i } => {
                let i: usize = *i;
                match apply(&params.components[i].name, &self.configuration(), reply) {
                    Err(e) => self.fails("Configure", e),
                    Ok(_) => {
                        self.touched = i + 1;
                        self.stage = if i + 1 < n {
                            Stage::Configure { i: i + 1 }
                        } else {
                            Stage::Arm { i: 0, attempt: 1, began: now }
                        };
                    },
                }
            },
            Stage::Arm { i, attempt, began } => {
                let i: usize = *i;
                let attempt: u32 = *attempt;
                let began: u64 = *began;
                self.arm_answered(params, i, attempt, began, reply, now);
            },
            Stage::Pause { i, attempt, began } => {
                self.stage = Stage::Arm { i: *i, attempt: *attempt + 1, began: *began };
            },
            Stage::Start { i } => {
                let i: usize = *i;
                let command = Command::Start { run_number: self.run };
                match apply(&params.components[i].name, &command, reply) {
                    Err(e) => self.fails("Start", e),
                    Ok(_) => {
                        self.stage = if i + 1 < n {
                            Stage::Start { i: i + 1 }
                        } else {
                            Stage::Ecc { step: 0 }
                        };
                    },
                }
            },
            Stage::Ecc { step } => {
                let step: usize = *step;
                let request: EccRequest = self.ecc_request(params, step);
                match apply_ecc(request.action.as_str(), reply) {
                    Err(e) => self.fails("ecc", e),
                    Ok(_) => {
                        self.stage = if step < 3 {
                            Stage::Ecc { step: step + 1 }
                        } else {
                            Stage::Started
                        };
                    },
                }
            },
            Stage::Rollback { i, reset } => {
                let i: usize = *i;
                let reset: bool = *reset;
                let command = if reset {
                    Command::Reset
                } else {
                    Command::Stop
                };
                if let Err(e) = apply(&params.components[i].name, &command, reply) {
                    push_text(&mut self.notes, e);
                }
                self.stage = if !reset {
                    Stage::Rollback { i, reset: true }
                } else if i > 0 {
                    Stage::Rollback { i: i - 1, reset: false }
                } else {
                    Stage::Failed
                };
            },
            Stage::Started => {},
            Stage::Failed => {},
        }
    }

    fn arm_answered(
        &mut self,
        params: &ControllerParams,
        i: usize,
        attempt: u32,
        began: u64,
        reply: Reply,
        now: u64,
    )
        requires
            old(self)@.wf(*params),
            old(self)@.stage == (StartStage::Arm { i: i as int, attempt: attempt as int, began }),
        ensures
            final(self)@ == old(self)@.after(*params, reply@, now),
    {
        let name: String = params.components[i].name.clone();
        match apply(&name, &Command::Arm, reply) {
            Ok(response) => {
                if attempt > 1 {
                    self.retried(&name, attempt, since(began, now));
                }
                self.armed(params, i, &response, now);
            },
            Err(e) => {
                if attempt < ARM_MAX_ATTEMPTS {
                    self.stage = Stage::Pause { i, attempt, began };
                } else {
                    let waited_ms: u64 = since(began, now);
                    self.retried(&name, attempt, waited_ms);
                    let mut detail: String = e;
                    detail.append(" (gave up after 6 attempts over ");
                    push_decimal(&mut detail, waited_ms);
                    detail.append(" ms)");
                    self.fails("Arm", detail);
                }
            },
        }
    }

    /// Whether the sequence is over.
    pub fn is_over(&self) -> (r: bool)
        ensures
            r == (self@.stage is Started || self@.stage is Failed),
    {
        match &self.stage {
            Stage::Started => true,
            Stage::Failed => true,
            _ => false,
        }
    }

    /// What came of the start.
    pub fn outcome(self) -> (r: Result<StartReport, StartFailure>)
        requires
            self@.stage is Started || self@.stage is Failed,
        ensures
            self@.stage is Started ==> (r matches Ok(report) && report.run == self@.run
                && report.links@.map_values(|l: RouterLink| l@) == self@.links
                && report.arm_retries@.map_values(|a: ArmRetry| a@) == self@.retries
                && report.ecc_state_after_reset@ == self@.landed && text::values(
                report.ecc_walk_back@,
            ) == self@.trail),
            self@.stage is Failed ==> (r matches Err(failure) && failure@ == (FailureView {
                stage: self@.failed_stage,
                detail: self@.detail,
                notes: self@.notes,
            })),
    {
        let started: bool = match &self.stage {
            Stage::Started => true,
            _ => false,
        };
        if started {
            Ok(
                StartReport {
                    run: self.run,
                    links: self.links,
                    arm_retries: self.retries,
                    ecc_state_after_reset: self.landed,
                    ecc_walk_back: self.trail,
                },
            )
        } else {
            Err(
                StartFailure {
                    stage: self.failed_stage,
                    detail: self.detail,
                    rollback_notes: self.notes,
                },
            )
        }
    }
}

// ---------------------------------------------------------------------
// Stopping a run
// ---------------------------------------------------------------------

/// The part of the sequence that a stop is in.
pub enum StopStage {
    /// The electronics are stopped.
    EccStop,
    /// Component `i` is asked whether all streams have ended, after `waited` milliseconds.
    Watch { i: int, waited: nat },
    /// The streams are given time.
    Sleep { waited: nat },
    /// Receiver `i` is made to end its stream.
    Force { i: int },
    /// Component `i` is asked what it has to report.
    Collect { i: int },
    /// Component `i` is stopped, or reset.
    Fold { i: int, reset: bool },
    Done,
}

/// The state of a [`StopRun`].
pub struct StopState {
    pub mode: controller::ModeView,
    pub stage: StopStage,
    /// Whether the electronics could not be stopped.
    pub ecc_failed: bool,
    /// Whether the streams were made to end.
    pub forced_eos: bool,
    /// Whether all streams were seen to have ended.
    pub eos_closed: bool,
    pub statuses: Seq<StatusView>,
    pub notes: Seq<Seq<char>>,
}

/// The first of the components from `i` on that is a receiver, or is none, as `receiver` says; or
/// the number of components if there is none such.
pub open spec fn next_of(params: ControllerParams, i: int, receiver: bool) -> int
    decreases params.components@.len() - i,
{
    if i >= params.components@.len() {
        params.components@.len() as int
    } else if (params.components@[i].kind is Receiver) == receiver {
        i
    } else {
        next_of(params, i + 1, receiver)
    }
}

/// What tells whether a component has seen all streams end.
pub open spec fn eos_key(kind: ComponentKind) -> Seq<char> {
    if kind is Decoder {
        "eos_in"@
    } else {
        "files_open"@
    }
}

/// Whether a component has seen all streams end: the decoder counts them, and the writer of raw
/// data has closed its files.
pub open spec fn has_seen_all(kind: ComponentKind, cobos: nat, value: u64) -> bool {
    if kind is Decoder {
        value >= cobos
    } else {
        value == 0
    }
}

/// `note` added to notes that do not have it.
pub open spec fn with_note(notes: Seq<Seq<char>>, note: Seq<char>) -> Seq<Seq<char>> {
    if notes.contains(note) {
        notes
    } else {
        notes.push(note)
    }
}

/// How long all streams are given to end, in milliseconds.
pub open spec fn patience(params: ControllerParams) -> nat {
    params.eos_timeout.ms()
}

/// What is noted where the streams have not ended in time.
pub open spec fn timeout_note(params: ControllerParams) -> Seq<char> {
    "EOS did not propagate within "@ + text::decimal(patience(params)) + " ms"@
}

/// What is noted where a component does not say how it is.
pub open spec fn silent_note(name: Seq<char>, e: Seq<char>) -> Seq<char> {
    name + ": GetStatus failed: "@ + e
}

/// What is noted where a component does not say whether all streams have ended.
pub open spec fn vague_note(name: Seq<char>, key: Seq<char>) -> Seq<char> {
    name + ": GetStatus metrics has no "@ + key
}

impl StopState {
    /// A stop of which nothing is done.
    pub open spec fn fresh(mode: controller::ModeView) -> StopState {
        StopState {
            mode,
            stage: StopStage::EccStop,
            ecc_failed: false,
            forced_eos: false,
            eos_closed: false,
            statuses: Seq::empty(),
            notes: Seq::empty(),
        }
    }

    /// What is to be asked next.
    pub open spec fn request(self, params: ControllerParams) -> RequestView {
        match self.stage {
            StopStage::EccStop => RequestView::Ecc(
                EccRequestView { action: "stop"@, config_id: None, links: None },
            ),
            StopStage::Watch { i, .. } => RequestView::Command {
                component: i,
                command: CommandView::GetStatus,
            },
            StopStage::Sleep { .. } => RequestView::Sleep(params.eos_poll_ms as nat),
            StopStage::Force { i } => RequestView::Command {
                component: i,
                command: CommandView::Stop,
            },
            StopStage::Collect { i } => RequestView::Command {
                component: i,
                command: CommandView::GetStatus,
            },
            StopStage::Fold { i, reset } => RequestView::Command {
                component: i,
                command: if reset {
                    CommandView::Reset
                } else {
                    CommandView::Stop
                },
            },
            StopStage::Done => RequestView::Done,
        }
    }

    /// The stop with a note.
    pub open spec fn noted(self, note: Seq<char>) -> StopState {
        StopState { notes: self.notes.push(note), ..self }
    }

    /// The stop with a note that it may have already.
    pub open spec fn noted_once(self, note: Seq<char>) -> StopState {
        StopState { notes: with_note(self.notes, note), ..self }
    }

    /// The stop once component `i` is next to be stopped and reset. A receiver that was made to
    /// end its stream is stopped already.
    pub open spec fn folding(self, params: ControllerParams, i: int) -> StopState {
        StopState {
            stage: if i < 0 {
                StopStage::Done
            } else {
                StopStage::Fold {
                    i,
                    reset: self.forced_eos && params.components@[i].kind is Receiver,
                }
            },
            ..self
        }
    }

    /// The stop once the components from `i` on are to be asked what they have to report.
    pub open spec fn collecting(self, params: ControllerParams, i: int) -> StopState {
        if i < params.components@.len() {
            StopState { stage: StopStage::Collect { i }, ..self }
        } else {
            self.folding(params, params.components@.len() - 1)
        }
    }

    /// The stop once the components from `i` on are to be asked whether all streams have ended.
    pub open spec fn watching(self, params: ControllerParams, i: int, waited: nat) -> StopState {
        let j = next_of(params, i, false);
        if j < params.components@.len() {
            StopState { stage: StopStage::Watch { i: j, waited }, ..self }
        } else {
            (StopState { eos_closed: true, ..self }).collecting(params, 0)
        }
    }

    /// The stop once the receivers from `i` on are to be made to end their streams.
    pub open spec fn forcing(self, params: ControllerParams, i: int) -> StopState {
        let j = next_of(params, i, true);
        let s = StopState { forced_eos: true, ..self };
        if j < params.components@.len() {
            StopState { stage: StopStage::Force { i: j }, ..s }
        } else {
            s.watching(params, 0, 0)
        }
    }

    /// The stop once the streams were seen not to have ended.
    pub open spec fn not_yet(self, params: ControllerParams, waited: nat) -> StopState {
        if waited < patience(params) {
            StopState { stage: StopStage::Sleep { waited }, ..self }
        } else {
            let s = self.noted_once(timeout_note(params));
            if s.forced_eos {
                s.collecting(params, 0)
            } else {
                s.forcing(params, 0)
            }
        }
    }

    /// The stop once an answer has come.
    pub open spec fn after(self, params: ControllerParams, reply: ReplyView) -> StopState {
        match self.stage {
            StopStage::EccStop => {
                let s = match ecc_result("stop"@, reply) {
                    Ok(_) => self,
                    Err(e) => StopState { ecc_failed: true, ..self.noted(e) },
                };
                if self.mode is Normal {
                    s.watching(params, 0, 0)
                } else {
                    s.forcing(params, 0)
                }
            },
            StopStage::Watch { i, waited } => {
                let c = params.components@[i];
                match reply {
                    ReplyView::Command(Ok(r)) => match (match r.metrics {
                        Some(m) => command::metric_u64(m, eos_key(c.kind)),
                        None => None,
                    }) {
                        Some(value) => if has_seen_all(c.kind, params.cobos@.len(), value) {
                            self.watching(params, i + 1, waited)
                        } else {
                            self.not_yet(params, waited)
                        },
                        None => self.noted_once(vague_note(c.name@, eos_key(c.kind))).not_yet(
                            params,
                            waited,
                        ),
                    },
                    ReplyView::Command(Err(e)) => self.noted_once(silent_note(c.name@, e)).not_yet(
                        params,
                        waited,
                    ),
                    _ => self,
                }
            },
            StopStage::Sleep { waited } => self.watching(params, 0, waited + params.eos_poll_ms as nat),
            StopStage::Force { i } => {
                let s = match command_result(
                    params.components@[i].name@,
                    CommandView::Stop,
                    reply,
                ) {
                    Ok(_) => self,
                    Err(e) => self.noted(e),
                };
                s.forcing(params, i + 1)
            },
            StopStage::Collect { i } => {
                let c = params.components@[i];
                let s = match reply {
                    ReplyView::Command(Ok(r)) => StopState {
                        statuses: self.statuses.push(controller::status_of(c@, r)),
                        ..self
                    },
                    ReplyView::Command(Err(e)) => StopState {
                        statuses: self.statuses.push(controller::status_unreachable(c@, e)),
                        ..self.noted_once(silent_note(c.name@, e))
                    },
                    _ => self,
                };
                s.collecting(params, i + 1)
            },
            StopStage::Fold { i, reset } => {
                let command = if reset {
                    CommandView::Reset
                } else {
                    CommandView::Stop
                };
                let s = match command_result(params.components@[i].name@, command, reply) {
                    Ok(_) => self,
                    Err(e) => self.noted(e),
                };
                if reset {
                    s.folding(params, i - 1)
                } else {
                    StopState { stage: StopStage::Fold { i, reset: true }, ..s }
                }
            },
            StopStage::Done => self,
        }
    }

    /// Whether the parts of the state fit together and fit the parameters.
    pub open spec fn wf(self, params: ControllerParams) -> bool {
        let n = params.components@.len() as int;
        &&& self.mode is Abort && !(self.stage is EccStop) ==> self.forced_eos
        &&& match self.stage {
            StopStage::EccStop => self.statuses.len() == 0 && !self.forced_eos && !self.eos_closed,
            StopStage::Watch { i, waited } => 0 <= i < n && !(params.components@[i].kind is Receiver)
                && waited < patience(params) + params.eos_poll_ms + 1 && self.statuses.len() == 0
                && !self.eos_closed,
            StopStage::Sleep { waited } => waited < patience(params) && self.statuses.len() == 0
                && !self.eos_closed,
            StopStage::Force { i } => 0 <= i < n && params.components@[i].kind is Receiver
                && self.forced_eos && self.statuses.len() == 0 && !self.eos_closed,
            StopStage::Collect { i } => 0 <= i < n && self.statuses.len() == i && (self.eos_closed
                || self.forced_eos),
            StopStage::Fold { i, .. } => 0 <= i < n && self.statuses.len() == n && (self.eos_closed
                || self.forced_eos),
            StopStage::Done => self.statuses.len() == n && (self.eos_closed || self.forced_eos),
        }
    }

    /// Why the run ended.
    pub open spec fn reason(self) -> Seq<char> {
        match self.mode {
            controller::ModeView::Abort(why) => "abort:"@ + why,
            controller::ModeView::Normal => if !self.eos_closed {
                "error:eos-timeout"@
            } else if self.ecc_failed {
                "abort:ecc-stop-failed"@
            } else {
                "normal"@
            },
        }
    }
}

proof fn lemma_next_of(params: ControllerParams, i: int, receiver: bool)
    requires
        0 <= i <= params.components@.len(),
    ensures
        i <= next_of(params, i, receiver) <= params.components@.len(),
        next_of(params, i, receiver) < params.components@.len() ==> (
        params.components@[next_of(params, i, receiver)].kind is Receiver) == receiver,
    decreases params.components@.len() - i,
{
    if i < params.components@.len() && (params.components@[i].kind is Receiver) != receiver {
        lemma_next_of(params, i + 1, receiver);
    }
}

/// Every answer leads from one proper state to another.
pub proof fn law_stopping_stays_in_order(s: StopState, params: ControllerParams, reply: ReplyView)
    requires
        s.wf(params),
        reply.answers(s.request(params)),
    ensures
        s.after(params, reply).wf(params),
{
    lemma_next_of(params, 0, true);
    lemma_next_of(params, 0, false);
    match s.stage {
        StopStage::Watch { i, .. } => {
            lemma_next_of(params, i + 1, false);
        },
        StopStage::Force { i } => {
            lemma_next_of(params, i + 1, true);
        },
        _ => {},
    }
}

/// While the streams are not closed, no component is reset, and none but a receiver is stopped;
/// and every component is asked what it has to report before that.
pub proof fn law_nothing_is_folded_before_the_run_is_closed(s: StopState, params: ControllerParams)
    requires
        s.wf(params),
    ensures
        s.request(params) matches RequestView::Command { component, command } ==> {
            &&& command == CommandView::Reset ==> s.statuses.len() == params.components@.len() && (
            s.eos_closed || s.forced_eos)
            &&& command == CommandView::Stop && !(
            params.components@[component].kind is Receiver) ==> s.statuses.len()
                == params.components@.len() && (s.eos_closed || s.forced_eos)
        },
{
}

/// A run that is aborted is not given time: its streams are made to end at once.
pub proof fn law_an_abort_does_not_wait(
    s: StopState,
    params: ControllerParams,
    reply: ReplyView,
)
    requires
        s.wf(params),
        s.stage is EccStop,
        s.mode is Abort,
    ensures
        s.after(params, reply).forced_eos,
        next_of(params, 0, true) < params.components@.len() ==> s.after(params, reply).stage == (
        StopStage::Force { i: next_of(params, 0, true) }),
{
}

/// A run ends well only where it was not aborted, the electronics stopped, and all streams were
/// seen to have ended.
pub proof fn law_a_normal_end(s: StopState)
    ensures
        s.reason() == "normal"@ <==> s.mode is Normal && s.eos_closed && !s.ecc_failed,
{
    reveal_strlit("normal");
    reveal_strlit("abort:");
    reveal_strlit("error:eos-timeout");
    reveal_strlit("abort:ecc-stop-failed");
    assert("normal"@[0] == 'n');
    assert("error:eos-timeout"@[0] == 'e');
    assert("abort:ecc-stop-failed"@[0] == 'a');
    if let controller::ModeView::Abort(why) = s.mode {
        assert(("abort:"@ + why)[0] == 'a');
    }
}

/// Whatever a component answers, each is reset once all are asked to report, from the beginning of
/// the data stream to its end.
pub proof fn law_folding_resets_each_component(
    s: StopState,
    params: ControllerParams,
    reply: ReplyView,
)
    requires
        s.wf(params),
        s.stage is Fold,
    ensures
        ({
            let i = s.stage->Fold_i;
            let next = s.after(params, reply);
            if !s.stage->Fold_reset {
                next.request(params) == (RequestView::Command {
                    component: i,
                    command: CommandView::Reset,
                })
            } else if i > 0 {
                next.stage matches StopStage::Fold { i: j, .. } && j == i - 1
            } else {
                next.stage is Done
            }
        }),
        s.after(params, reply).statuses == s.statuses,
{
}

// ---------------------------------------------------------------------
// The stop
// ---------------------------------------------------------------------

#[derive(Clone, Copy)]
enum StopAt {
    EccStop,
    Watch { i: usize, waited: u128 },
    Sleep { waited: u128 },
    Force { i: usize },
    Collect { i: usize },
    Fold { i: usize, reset: bool },
    Done,
}

impl View for StopAt {
    type V = StopStage;

    closed spec fn view(&self) -> StopStage {
        match self {
            StopAt::EccStop => StopStage::EccStop,
            StopAt::Watch { i, waited } => StopStage::Watch { i: *i as int, waited: *waited as nat },
            StopAt::Sleep { waited } => StopStage::Sleep { waited: *waited as nat },
            StopAt::Force { i } => StopStage::Force { i: *i as int },
            StopAt::Collect { i } => StopStage::Collect { i: *i as int },
            StopAt::Fold { i, reset } => StopStage::Fold { i: *i as int, reset: *reset },
            StopAt::Done => StopStage::Done,
        }
    }
}

/// What came of stopping a run.
#[derive(Debug, Clone)]
pub struct StopReport {
    /// Whether the run ended well.
    pub ok: bool,
    pub reason: String,
    pub counters: Counters,
    pub files: Vec<OutputFile>,
    /// Whether the streams were made to end.
    pub forced_eos: bool,
    /// Whether all streams were seen to have ended.
    pub eos_closed: bool,
    /// What went wrong on the way.
    pub notes: Vec<String>,
}

fn find_next(params: &ControllerParams, from: usize, receiver: bool) -> (i: usize)
    requires
        from <= params.components@.len(),
    ensures
        i == next_of(*params, from as int, receiver),
{
    let mut i: usize = from;
    while i < params.components.len()
        invariant
            from <= i <= params.components@.len(),
            next_of(*params, i as int, receiver) == next_of(*params, from as int, receiver),
        decreases params.components@.len() - i,
    {
        let is_receiver: bool = match params.components[i].kind {
            ComponentKind::Receiver { .. } => true,
            _ => false,
        };
        if is_receiver == receiver {
            return i;
        }
        i = i + 1;
    }
    i
}

/// The sequence that stops a run.
pub struct StopRun {
    mode: StopMode,
    stage: StopAt,
    ecc_failed: bool,
    forced_eos: bool,
    eos_closed: bool,
    statuses: Vec<ComponentStatus>,
    notes: Vec<String>,
}

impl View for StopRun {
    type V = StopState;

    closed spec fn view(&self) -> StopState {
        StopState {
            mode: self.mode@,
            stage: self.stage@,
            ecc_failed: self.ecc_failed,
            forced_eos: self.forced_eos,
            eos_closed: self.eos_closed,
            statuses: controller::status_views(self.statuses@),
            notes: text::values(self.notes@),
        }
    }
}

impl StopRun {
    /// A stop of which nothing is done.
    pub fn new(mode: StopMode) -> (stop: Self)
        ensures
            stop@ == StopState::fresh(mode@),
    {
        let stop = StopRun {
            mode,
            stage: StopAt::EccStop,
            ecc_failed: false,
            forced_eos: false,
            eos_closed: false,
            statuses: Vec::new(),
            notes: Vec::new(),
        };
        assert(stop@.statuses =~= Seq::empty());
        assert(stop@.notes =~= Seq::empty());
        stop
    }

    /// What is to be asked next.
    pub fn request(&self, params: &ControllerParams) -> (request: Request)
        ensures
            request@ == self@.request(*params),
    {
        match self.stage {
            StopAt::EccStop => Request::Ecc(EccRequest::plain("stop")),
            StopAt::Watch { i, .. } => Request::Command {
                component: i,
                command: Command::GetStatus,
            },
            StopAt::Sleep { .. } => Request::Sleep(params.eos_poll_ms),
            StopAt::Force { i } => Request::Command { component: i, command: Command::Stop },
            StopAt::Collect { i } => Request::Command {
                component: i,
                command: Command::GetStatus,
            },
            StopAt::Fold { i, reset } => Request::Command {
                component: i,
                command: if reset {
                    Command::Reset
                } else {
                    Command::Stop
                },
            },
            StopAt::Done => Request::Done,
        }
    }

    fn note(&mut self, note: String)
        ensures
            final(self)@ == old(self)@.noted(note@),
    {
        push_text(&mut self.notes, note);
    }

    fn push_once(&mut self, note: String)
        ensures
            final(self)@ == old(self)@.noted_once(note@),
    {
        if !contains_text(&self.notes, note.as_str()) {
            push_text(&mut self.notes, note);
        }
    }

    fn fold_from(&mut self, params: &ControllerParams, count: usize)
        requires
            count <= params.components@.len(),
        ensures
            final(self)@ == old(self)@.folding(*params, count - 1),
    {
        if count == 0 {
            self.stage = StopAt::Done;
        } else {
            let is_receiver: bool = match params.components[count - 1].kind {
                ComponentKind::Receiver { .. } => true,
                _ => false,
            };
            self.stage = StopAt::Fold { i: count - 1, reset: self.forced_eos && is_receiver };
        }
    }

    fn collect_from(&mut self, params: &ControllerParams, i: usize)
        ensures
            final(self)@ == old(self)@.collecting(*params, i as int),
    {
        if i < params.components.len() {
            self.stage = StopAt::Collect { i };
        } else {
            self.fold_from(params, params.components.len());
        }
    }

    fn watch_from(&mut self, params: &ControllerParams, i: usize, waited: u128)
        requires
            i <= params.components@.len(),
        ensures
            final(self)@ == old(self)@.watching(*params, i as int, waited as nat),
    {
        let j: usize = find_next(params, i, false);
        if j < params.components.len() {
            self.stage = StopAt::Watch { i: j, waited };
        } else {
            self.eos_closed = true;
            self.collect_from(params, 0);
        }
    }

    fn force_from(&mut self, params: &ControllerParams, i: usize)
        requires
            i <= params.components@.len(),
        ensures
            final(self)@ == old(self)@.forcing(*params, i as int),
    {
        self.forced_eos = true;
        let j: usize = find_next(params, i, true);
        if j < params.components.len() {
            self.stage = StopAt::Force { i: j };
        } else {
            self.watch_from(params, 0, 0);
        }
    }

    fn not_yet(&mut self, params: &ControllerParams, waited: u128)
        ensures
            final(self)@ == old(self)@.not_yet(*params, waited as nat),
    {
        let patience: u128 = params.eos_timeout.as_millis();
        if waited < patience {
            self.stage = StopAt::Sleep { waited };
        } else {
            let mut note: String = "EOS did not propagate within ".to_string();
            push_wide_decimal(&mut note, patience);
            note.append(" ms");
            self.push_once(note);
            if self.forced_eos {
                self.collect_from(params, 0);
            } else {
                self.force_from(params, 0);
            }
        }
    }

    fn watched(&mut self, params: &ControllerParams, i: usize, waited: u128, reply: Reply)
        requires
            i < params.components@.len(),
            reply@ is Command,
            old(self)@.stage == (StopStage::Watch { i: i as int, waited: waited as nat }),
        ensures
            final(self)@ == old(self)@.after(*params, reply@),
    {
        let n: usize = params.components.len();
        let c = &params.components[i];
        let key = match c.kind {
            ComponentKind::Decoder => "eos_in",
            _ => "files_open",
        };
        match reply {
            Reply::Command(Ok(response)) => {
                let value: Option<u64> = match &response.metrics {
                    Some(m) => m.get_u64(key),
                    None => None,
                };
                match value {
                    Some(v) => {
                        let done: bool = match c.kind {
                            ComponentKind::Decoder => v >= params.cobos.len() as u64,
                            _ => v == 0,
                        };
                        if done {
                            self.watch_from(params, i + 1, waited);
                        } else {
                            self.not_yet(params, waited);
                        }
                    },
                    None => {
                        let mut note: String = c.name.clone();
                        note.append(": GetStatus metrics has no ");
                        note.append(key);
                        self.push_once(note);
                        self.not_yet(params, waited);
                    },
                }
            },
            Reply::Command(Err(e)) => {
                let mut note: String = c.name.clone();
                note.append(": GetStatus failed: ");
                note.append(e.as_str());
                self.push_once(note);
                self.not_yet(params, waited);
            },
            _ => {},
        }
    }

    fn collected(&mut self, params: &ControllerParams, i: usize, reply: Reply)
        requires
            i < params.components@.len(),
            reply@ is Command,
            old(self)@.stage == (StopStage::Collect { i: i as int }),
        ensures
            final(self)@ == old(self)@.after(*params, reply@),
    {
        let n: usize = params.components.len();
        let c = &params.components[i];
        let ghost before = self@.statuses;
        let status: ComponentStatus = collect_status(c, reply, &mut self.notes);
        self.statuses.push(status);
        assert(self@.statuses =~= before.push(status@));
        self.collect_from(params, i + 1);
    }

    /// Takes an answer.
    pub fn reply(&mut self, params: &ControllerParams, reply: Reply)
        requires
            old(self)@.wf(*params),
            reply@.answers(old(self)@.request(*params)),
        ensures
            final(self)@ == old(self)@.after(*params, reply@),
            final(self)@.wf(*params),
    {
        proof {
            law_stopping_stays_in_order(self@, *params, reply@);
        }
        let n: usize = params.components.len();
        match self.stage {
            StopAt::EccStop => {
                if let Err(e) = apply_ecc("stop", reply) {
                    self.note(e);
                    self.ecc_failed = true;
                }
                let normal: bool = match &self.mode {
                    StopMode::Normal => true,
                    StopMode::Abort(_) => false,
                };
                if normal {
                    self.watch_from(params, 0, 0);
                } else {
                    self.force_from(params, 0);
                }
            },
            StopAt::Watch { i, waited } => {
                self.watched(params, i, waited, reply);
            },
            StopAt::Sleep { waited } => {
                self.watch_from(params, 0, waited + params.eos_poll_ms as u128);
            },
            StopAt::Force { i } => {
                if let Err(e) = apply(&params.components[i].name, &Command::Stop, reply) {
                    self.note(e);
                }
                self.force_from(params, i + 1);
            },
            StopAt::Collect { i } => {
                self.collected(params, i, reply);
            },
            StopAt::Fold { i, reset } => {
                let command = if reset {
                    Command::Reset
                } else {
                    Command::Stop
                };
                if let Err(e) = apply(&params.components[i].name, &command, reply) {
                    self.note(e);
                }
                if reset {
                    self.fold_from(params, i);
                } else {
                    self.stage = StopAt::Fold { i, reset: true };
                }
            },
            StopAt::Done => {},
        }
    }

    /// Whether the sequence is over.
    pub fn is_over(&self) -> (r: bool)
        ensures
            r == (self@.stage is Done),
    {
        match self.stage {
            StopAt::Done => true,
            _ => false,
        }
    }

    /// What the components had to report.
    pub fn statuses(&self) -> (statuses: &Vec<ComponentStatus>)
        ensures
            controller::status_views(statuses@) == self@.statuses,
    {
        &self.statuses
    }

    /// Whether the counters of all components can be summed up.
    pub fn can_report(&self) -> (r: bool)
        ensures
            r == controller::totals_fit(self@.statuses),
    {
        counters_fit(&self.statuses)
    }

    /// What came of the stop.
    pub fn report(self, params: &ControllerParams) -> (report: StopReport)
        requires
            self@.stage is Done,
            controller::totals_fit(self@.statuses),
        ensures
            report.ok == (self@.reason() == "normal"@),
            report.reason@ == self@.reason(),
            controller::counters_tell(report.counters, params.cobo_views(), self@.statuses),
            report.files@.map_values(|f: OutputFile| f@) == controller::files_of(self@.statuses),
            report.forced_eos == self@.forced_eos,
            report.eos_closed == self@.eos_closed,
            text::values(report.notes@) == self@.notes,
    {
        let reason: String = match &self.mode {
            StopMode::Abort(why) => {
                let mut s: String = "abort:".to_string();
                s.append(why.as_str());
                s
            },
            StopMode::Normal => if !self.eos_closed {
                "error:eos-timeout".to_string()
            } else if self.ecc_failed {
                "abort:ecc-stop-failed".to_string()
            } else {
                "normal".to_string()
            },
        };
        StopReport {
            ok: same(reason.as_str(), "normal"),
            reason,
            counters: counters_from(params, &self.statuses),
            files: files_from(&self.statuses),
            forced_eos: self.forced_eos,
            eos_closed: self.eos_closed,
            notes: self.notes,
        }
    }
}

// ---------------------------------------------------------------------
// Single questions
// ---------------------------------------------------------------------

/// What a component's answer to `GetStatus` says of it.
pub open spec fn surveyed(part: controller::EndpointView, reply: ReplyView) -> StatusView {
    match reply {
        ReplyView::Command(Ok(r)) => controller::status_of(part, r),
        ReplyView::Command(Err(e)) => controller::status_unreachable(part, e),
        _ => controller::status_unreachable(part, Seq::empty()),
    }
}

/// What a component's answer to `GetStatus` says of it. That it does not answer is noted, once.
pub fn collect_status(
    component: &ComponentEndpoint,
    reply: Reply,
    notes: &mut Vec<String>,
) -> (status: ComponentStatus)
    requires
        reply@ is Command,
    ensures
        status@ == surveyed(component@, reply@),
        text::values(final(notes)@) == match reply@ {
            ReplyView::Command(Err(e)) => with_note(
                text::values(old(notes)@),
                silent_note(component@.name, e),
            ),
            _ => text::values(old(notes)@),
        },
{
    match reply {
        Reply::Command(Ok(response)) => ComponentStatus::from_response(component, response),
        Reply::Command(Err(e)) => {
            let mut note: String = component.name.clone();
            note.append(": GetStatus failed: ");
            note.append(e.as_str());
            if !contains_text(notes, note.as_str()) {
                push_text(notes, note);
            }
            ComponentStatus::unreachable(component, e)
        },
        _ => {
            let e: String = String::new();
            assert(e@ =~= Seq::empty());
            ComponentStatus::unreachable(component, e)
        },
    }
}

/// Where a CoBo is to connect to, as its receiver's answer to `GetStatus` says it, or why that is
/// not known.
pub open spec fn link_now_of(
    configured: Option<Seq<char>>,
    name: Seq<char>,
    cobo_id: u32,
    reply: ReplyView,
) -> Result<LinkView, Seq<char>> {
    match command_result(name, CommandView::GetStatus, reply) {
        Err(e) => Err(e),
        Ok(r) => match controller::link_of(configured, cobo_id, r.metrics) {
            Some(link) => Ok(link),
            None => Err(
                name + ": "@ + controller::no_port_message() + " (Arm the receivers first)"@,
            ),
        },
    }
}

/// Where a CoBo is to connect to, as its receiver's answer to `GetStatus` says it, or why that is
/// not known.
pub fn link_now(configured: &Option<String>, name: &String, cobo_id: u32, reply: Reply) -> (r: Result<
    RouterLink,
    String,
>)
    ensures
        match link_now_of(controller::text_of(*configured), name@, cobo_id, reply@) {
            Ok(link) => r matches Ok(l) && l@ == link,
            Err(e) => r matches Err(s) && s@ == e,
        },
{
    match apply(name, &Command::GetStatus, reply) {
        Err(e) => Err(e),
        Ok(response) => match router_link(configured, cobo_id, &response) {
            Some(link) => Ok(link),
            None => {
                let mut s: String = name.clone();
                s.append(": ");
                s.append("Arm response carries no router_port");
                s.append(" (Arm the receivers first)");
                Err(s)
            },
        },
    }
}

// ---------------------------------------------------------------------
// Running through the sequences
// ---------------------------------------------------------------------

/// One thing that was done on the way to the components and to the electronics.
pub enum Exchange {
    /// A command was sent to the component at `endpoint`, and this came of it.
    Command {
        endpoint: Seq<char>,
        command: CommandView,
        reply: Result<command::ResponseView, Seq<char>>,
    },
    /// Something was asked of the electronics, and this came of it.
    Ecc { request: EccRequestView, reply: Result<controller::EccView, Seq<char>> },
    /// A wait, in milliseconds.
    Sleep(nat),
    /// The time was asked for, and this was said.
    Clock(u64),
}

/// The way to the components and to the electronics. Every call adds what was done to the history,
/// and nothing else does.
pub trait Transport {
    /// All that was done, in order. An implementation that is to be verified has to define it: the
    /// value given here stands for an unknown one, and no implementation can keep the promises of
    /// the methods with it.
    closed spec fn history(&self) -> Seq<Exchange> {
        vstd::pervasive::arbitrary()
    }

    /// Sends a command to the component at `endpoint`. An error means that it does not answer.
    fn command(&mut self, endpoint: &str, command: &Command) -> (reply: Result<
        CommandResponse,
        String,
    >)
        ensures
            final(self).history() == old(self).history().push(
                commanded(endpoint@, command@, reply),
            ),
    ;

    /// Asks something of the electronics. An error means that they do not answer.
    fn ecc(&mut self, request: &EccRequest) -> (reply: Result<EccReply, String>)
        ensures
            final(self).history() == old(self).history().push(asked(request@, reply)),
    ;

    /// Waits for so many milliseconds.
    fn sleep(&mut self, ms: u64)
        ensures
            final(self).history() == old(self).history().push(Exchange::Sleep(ms as nat)),
    ;

    /// The time, in milliseconds.
    fn now_ms(&mut self) -> (ms: u64)
        ensures
            final(self).history() == old(self).history().push(Exchange::Clock(ms)),
    ;
}

/// A command to the component at `endpoint` and what came of it.
pub open spec fn commanded(
    endpoint: Seq<char>,
    command: CommandView,
    reply: Result<CommandResponse, String>,
) -> Exchange {
    Exchange::Command {
        endpoint,
        command,
        reply: match reply {
            Ok(r) => Ok(r@),
            Err(e) => Err(e@),
        },
    }
}

/// A question to the electronics and what came of it.
pub open spec fn asked(request: EccRequestView, reply: Result<EccReply, String>) -> Exchange {
    Exchange::Ecc {
        request,
        reply: match reply {
            Ok(r) => Ok(r@),
            Err(e) => Err(e@),
        },
    }
}

/// What is done where `request` gets `reply`.
pub open spec fn exchange(
    params: ControllerParams,
    request: RequestView,
    reply: ReplyView,
) -> Exchange {
    match request {
        RequestView::Command { component, command } => Exchange::Command {
            endpoint: params.parts()[component].endpoint,
            command,
            reply: reply->Command_0,
        },
        RequestView::Ecc(request) => Exchange::Ecc { request, reply: reply->Ecc_0 },
        RequestView::Sleep(ms) => Exchange::Sleep(ms),
        RequestView::Done => Exchange::Sleep(0),
    }
}

/// All that is done for a start that gets these answers: what the sequence asks for, in its order.
pub open spec fn start_talk(
    params: ControllerParams,
    s: StartState,
    replies: Seq<(ReplyView, u64)>,
) -> Seq<Exchange>
    decreases replies.len(),
{
    if replies.len() == 0 {
        Seq::empty()
    } else {
        let before = replies.drop_last();
        start_talk(params, s, before).push(
            exchange(params, start_after(params, s, before).request(params), replies.last().0),
        ).push(Exchange::Clock(replies.last().1))
    }
}

/// All that is done for a stop that gets these answers: what the sequence asks for, in its order.
pub open spec fn stop_talk(
    params: ControllerParams,
    s: StopState,
    replies: Seq<ReplyView>,
) -> Seq<Exchange>
    decreases replies.len(),
{
    if replies.len() == 0 {
        Seq::empty()
    } else {
        let before = replies.drop_last();
        stop_talk(params, s, before).push(
            exchange(params, stop_after(params, s, before).request(params), replies.last()),
        )
    }
}

/// A start once the answers have come, each with its time.
pub open spec fn start_after(
    params: ControllerParams,
    s: StartState,
    replies: Seq<(ReplyView, u64)>,
) -> StartState
    decreases replies.len(),
{
    if replies.len() == 0 {
        s
    } else {
        start_after(params, s, replies.drop_last()).after(
            params,
            replies.last().0,
            replies.last().1,
        )
    }
}

/// Whether each answer is one to what was asked then.
pub open spec fn start_answered(
    params: ControllerParams,
    s: StartState,
    replies: Seq<(ReplyView, u64)>,
) -> bool
    decreases replies.len(),
{
    replies.len() > 0 ==> start_answered(params, s, replies.drop_last())
        && replies.last().0.answers(start_after(params, s, replies.drop_last()).request(params))
}

/// A stop once the answers have come.
pub open spec fn stop_after(params: ControllerParams, s: StopState, replies: Seq<ReplyView>) -> StopState
    decreases replies.len(),
{
    if replies.len() == 0 {
        s
    } else {
        stop_after(params, s, replies.drop_last()).after(params, replies.last())
    }
}

/// Whether each answer is one to what was asked then.
pub open spec fn stop_answered(params: ControllerParams, s: StopState, replies: Seq<ReplyView>) -> bool
    decreases replies.len(),
{
    replies.len() > 0 ==> stop_answered(params, s, replies.drop_last()) && replies.last().answers(
        stop_after(params, s, replies.drop_last()).request(params),
    )
}

/// How many answers a start still needs at most.
pub open spec fn start_distance(s: StartState, n: int) -> int {
    match s.stage {
        StartStage::Ask => 17 * n + 20,
        StartStage::Walk { steps, .. } => 17 * n + 19 - steps,
        StartStage::Configure { i } => 16 * n + 10 + (n - i),
        StartStage::Arm { i, attempt, .. } => 3 * n + 9 + 12 * (n - i) + 2 * (6 - attempt) - 10,
        StartStage::Pause { i, attempt, .. } => 3 * n + 9 + 12 * (n - i) + 2 * (6 - attempt) - 11,
        StartStage::Start { i } => 2 * n + 5 + (n - i),
        StartStage::Ecc { step } => 2 * n + 5 - step,
        StartStage::Rollback { i, reset } => 2 * i + if reset {
            1int
        } else {
            2int
        },
        StartStage::Started => 0,
        StartStage::Failed => 0,
    }
}

/// Every start comes to an end, whatever is answered: each answer brings it nearer to its end, and
/// with `n` components it is never more than `17 n + 20` answers away.
pub proof fn law_every_start_ends(
    s: StartState,
    params: ControllerParams,
    reply: ReplyView,
    now: u64,
)
    requires
        s.wf(params),
        reply.answers(s.request(params)),
    ensures
        ({
            let n = params.components@.len() as int;
            0 <= start_distance(s.after(params, reply, now), n) < start_distance(s, n) <= 17 * n + 20
        }),
{
}

/// How many more milliseconds the streams are given.
pub open spec fn left(params: ControllerParams, waited: nat) -> nat {
    if waited < patience(params) {
        (patience(params) - waited) as nat
    } else {
        0
    }
}

/// How many parts of the sequence a stop has before it.
pub open spec fn stop_parts(s: StopState) -> nat {
    match s.stage {
        StopStage::EccStop => 6,
        StopStage::Watch { .. } | StopStage::Sleep { .. } => if s.forced_eos {
            3
        } else {
            5
        },
        StopStage::Force { .. } => 4,
        StopStage::Collect { .. } => 2,
        StopStage::Fold { .. } => 1,
        StopStage::Done => 0,
    }
}

/// How many more milliseconds a stop waits at most in its part of the sequence.
pub open spec fn stop_wait(s: StopState, params: ControllerParams) -> nat {
    match s.stage {
        StopStage::Watch { waited, .. } => left(params, waited),
        StopStage::Sleep { waited } => left(params, waited),
        _ => 0,
    }
}

/// How many questions a stop has before it until it waits or comes to the next part.
pub open spec fn stop_questions(s: StopState, params: ControllerParams) -> int {
    let n = params.components@.len() as int;
    match s.stage {
        StopStage::Watch { i, .. } => n - i,
        StopStage::Force { i } => n - i,
        StopStage::Collect { i } => n - i,
        StopStage::Fold { i, reset } => 2 * i + if reset {
            0int
        } else {
            1int
        },
        _ => 0,
    }
}

/// Every stop comes to an end, whatever is answered: each answer leads to a later part of the
/// sequence, or uses up time that the streams are given, or leaves fewer questions.
pub proof fn law_every_stop_ends(s: StopState, params: ControllerParams, reply: ReplyView)
    requires
        s.wf(params),
        reply.answers(s.request(params)),
        params.eos_poll_ms > 0,
    ensures
        ({
            let t = s.after(params, reply);
            ||| stop_parts(t) < stop_parts(s)
            ||| stop_parts(t) == stop_parts(s) && stop_wait(t, params) < stop_wait(s, params)
            ||| stop_parts(t) == stop_parts(s) && stop_wait(t, params) == stop_wait(s, params)
                && 0 <= stop_questions(t, params) < stop_questions(s, params)
        }),
{
    lemma_next_of(params, 0, true);
    lemma_next_of(params, 0, false);
    match s.stage {
        StopStage::Watch { i, .. } => {
            lemma_next_of(params, i + 1, false);
        },
        StopStage::Force { i } => {
            lemma_next_of(params, i + 1, true);
        },
        _ => {},
    }
}

/// Runs through the sequences with the components that the parameters name.
pub struct Sequencer<'a> {
    pub params: &'a ControllerParams,
}

/// Whether a result of a start tells what came of it.
pub open spec fn tells_start(r: Result<StartReport, StartFailure>, end: StartState) -> bool {
    &&& end.stage is Started ==> (r matches Ok(report) && report.run == end.run
        && report.links@.map_values(|l: RouterLink| l@) == end.links
        && report.arm_retries@.map_values(|a: ArmRetry| a@) == end.retries
        && report.ecc_state_after_reset@ == end.landed && text::values(report.ecc_walk_back@)
        == end.trail)
    &&& end.stage is Failed ==> (r matches Err(failure) && failure@ == (FailureView {
        stage: end.failed_stage,
        detail: end.detail,
        notes: end.notes,
    }))
    &&& end.stage is Started || end.stage is Failed
}

/// Whether a report tells what came of a stop.
pub open spec fn tells_stop(report: StopReport, params: ControllerParams, end: StopState) -> bool {
    &&& end.stage is Done
    &&& report.ok == (end.reason() == "normal"@)
    &&& report.reason@ == end.reason()
    &&& controller::counters_tell(report.counters, params.cobo_views(), end.statuses)
    &&& report.files@.map_values(|f: OutputFile| f@) == controller::files_of(end.statuses)
    &&& report.forced_eos == end.forced_eos
    &&& report.eos_closed == end.eos_closed
    &&& text::values(report.notes@) == end.notes
}

/// Whether a result of a stop tells what came of it: there is a report unless a total is too
/// large to be held.
pub open spec fn tells_stopped(
    r: Option<StopReport>,
    params: ControllerParams,
    end: StopState,
) -> bool {
    &&& end.stage is Done
    &&& r is Some <==> controller::totals_fit(end.statuses)
    &&& r matches Some(report) ==> tells_stop(report, params, end)
}

/// Puts a request to those it is for, and returns what came back.
fn ask<T: Transport>(params: &ControllerParams, transport: &mut T, request: &Request) -> (reply:
    Reply)
    requires
        request matches Request::Command { component, .. } ==> component < params.components@.len(),
        !(request is Done),
    ensures
        reply@.answers(request@),
        final(transport).history() == old(transport).history().push(
            exchange(*params, request@, reply@),
        ),
{
    match request {
        Request::Command { component, command } => Reply::Command(
            transport.command(params.components[*component].endpoint.as_str(), command),
        ),
        Request::Ecc(r) => Reply::Ecc(transport.ecc(r)),
        Request::Sleep(ms) => {
            transport.sleep(*ms);
            Reply::Slept
        },
        Request::Done => Reply::Slept,
    }
}

impl<'a> Sequencer<'a> {
    /// A sequencer for these parameters.
    pub fn new(params: &'a ControllerParams) -> (sequencer: Self)
        ensures
            sequencer.params == params,
    {
        Sequencer { params }
    }

    /// Starts a run. What comes of it is what the sequence makes of the answers.
    pub fn start_run<T: Transport>(
        &self,
        transport: &mut T,
        run: u32,
        comment: &str,
        run_start_ts: &str,
    ) -> (r: Result<StartReport, StartFailure>)
        ensures
            exists|replies: Seq<(ReplyView, u64)>|
                #[trigger] start_answered(
                    *self.params,
                    StartState::fresh(run, comment@, run_start_ts@),
                    replies,
                ) && tells_start(
                    r,
                    start_after(
                        *self.params,
                        StartState::fresh(run, comment@, run_start_ts@),
                        replies,
                    ),
                ) && final(transport).history() == old(transport).history() + start_talk(
                    *self.params,
                    StartState::fresh(run, comment@, run_start_ts@),
                    replies,
                ),
    {
        let params = self.params;
        let ghost fresh = StartState::fresh(run, comment@, run_start_ts@);
        let ghost mut replies: Seq<(ReplyView, u64)> = Seq::empty();
        let mut start: StartRun = StartRun::new(run, comment, run_start_ts);
        while !start.is_over()
            invariant
                params == self.params,
                start@.wf(*params),
                start@ == start_after(*params, fresh, replies),
                start_answered(*params, fresh, replies),
                transport.history() == old(transport).history() + start_talk(*params, fresh, replies),
            decreases start_distance(start@, params.components@.len() as int),
        {
            let request: Request = start.request(params);
            let reply: Reply = ask(params, transport, &request);
            let now: u64 = transport.now_ms();
            proof {
                law_every_start_ends(start@, *params, reply@, now);
                let more = replies.push((reply@, now));
                assert(more.drop_last() =~= replies);
                replies = more;
            }
            start.reply(params, reply, now);
        }
        start.outcome()
    }

    /// Stops a run. What comes of it is what the sequence makes of the answers. `None` where the
    /// counters of all components cannot be summed up.
    pub fn stop_run<T: Transport>(&self, transport: &mut T, mode: StopMode) -> (r: Option<StopReport>)
        requires
            self.params.eos_poll_ms > 0,
        ensures
            exists|replies: Seq<ReplyView>|
                #[trigger] stop_answered(*self.params, StopState::fresh(mode@), replies)
                    && tells_stopped(
                    r,
                    *self.params,
                    stop_after(*self.params, StopState::fresh(mode@), replies),
                ) && final(transport).history() == old(transport).history() + stop_talk(
                    *self.params,
                    StopState::fresh(mode@),
                    replies,
                ),
    {
        let params = self.params;
        let ghost fresh = StopState::fresh(mode@);
        let ghost mut replies: Seq<ReplyView> = Seq::empty();
        let mut stop: StopRun = StopRun::new(mode);
        while !stop.is_over()
            invariant
                params == self.params,
                params.eos_poll_ms > 0,
                stop@.wf(*params),
                stop@ == stop_after(*params, fresh, replies),
                stop_answered(*params, fresh, replies),
                transport.history() == old(transport).history() + stop_talk(*params, fresh, replies),
            decreases stop_parts(stop@), stop_wait(stop@, *params), stop_questions(stop@, *params),
        {
            let request: Request = stop.request(params);
            let reply: Reply = ask(params, transport, &request);
            proof {
                law_every_stop_ends(stop@, *params, reply@);
                let more = replies.push(reply@);
                assert(more.drop_last() =~= replies);
                replies = more;
            }
            stop.reply(params, reply);
        }
        assert(stop_answered(*params, fresh, replies));
        if stop.can_report() {
            Some(stop.report(params))
        } else {
            None
        }
    }

    /// Asks every component what it has to report. That one does not answer is noted, once.
    pub fn collect_status<T: Transport>(&self, transport: &mut T, notes: &mut Vec<String>) -> (
    statuses: Vec<ComponentStatus>)
        ensures
            exists|replies: Seq<ReplyView>|
                {
                    &&& #[trigger] replies.len() == self.params.components@.len()
                    &&& forall|i: int| 0 <= i < replies.len() ==> (#[trigger] replies[i]) is Command
                    &&& controller::status_views(statuses@) == Seq::new(
                        replies.len(),
                        |i: int| surveyed(self.params.components@[i]@, replies[i]),
                    )
                    &&& text::values(final(notes)@) == survey_notes(
                        self.params.parts(),
                        text::values(old(notes)@),
                        replies,
                    )
                    &&& final(transport).history() == old(transport).history() + survey_talk(
                        self.params.parts(),
                        replies,
                    )
                },
    {
        let params = self.params;
        let ghost mut replies: Seq<ReplyView> = Seq::empty();
        let ghost start = text::values(notes@);
        let mut statuses: Vec<ComponentStatus> = Vec::new();
        let mut i: usize = 0;
        while i < params.components.len()
            invariant
                params == self.params,
                i <= params.components@.len(),
                statuses@.len() == i,
                replies.len() == i,
                forall|k: int| 0 <= k < i ==> (#[trigger] replies[k]) is Command,
                forall|k: int|
                    0 <= k < i ==> (#[trigger] statuses@[k])@ == surveyed(
                        params.components@[k]@,
                        replies[k],
                    ),
                text::values(notes@) == survey_notes(params.parts(), start, replies),
                transport.history() == old(transport).history() + survey_talk(params.parts(), replies),
            decreases params.components@.len() - i,
        {
            let component = &params.components[i];
            let reply = Reply::Command(
                transport.command(component.endpoint.as_str(), &Command::GetStatus),
            );
            proof {
                let more = replies.push(reply@);
                assert(more.drop_last() =~= replies);
                assert(params.parts()[i as int] == component@);
                replies = more;
            }
            statuses.push(collect_status(component, reply, notes));
            i = i + 1;
        }
        assert(controller::status_views(statuses@) =~= Seq::new(
            replies.len(),
            |i: int| surveyed(params.components@[i]@, replies[i]),
        ));
        statuses
    }

    /// Asks every receiver where its CoBo is to connect to, and returns the request that sets up
    /// the data links, or why a link is not known.
    pub fn configure_request_now<T: Transport>(&self, transport: &mut T) -> (r: Result<
        EccRequest,
        String,
    >)
        ensures
            exists|replies: Seq<ReplyView>|
                {
                    &&& #[trigger] replies.len() <= self.params.components@.len()
                    &&& links_told(*self.params, replies, r)
                    &&& final(transport).history() == old(transport).history() + link_talk(
                        self.params.parts(),
                        replies,
                    )
                },
    {
        let params = self.params;
        let ghost mut replies: Seq<ReplyView> = Seq::empty();
        let mut links: Vec<RouterLink> = Vec::new();
        let mut i: usize = 0;
        assert(link_views(links@) =~= Seq::empty());
        while i < params.components.len()
            invariant
                params == self.params,
                i <= params.components@.len(),
                replies.len() == i,
                links_upto(*params, replies) == Ok::<Seq<LinkView>, Seq<char>>(link_views(links@)),
                transport.history() == old(transport).history() + link_talk(params.parts(), replies),
            decreases params.components@.len() - i,
        {
            let component = &params.components[i];
            let ghost parts = params.parts();
            assert(parts[i as int] == component@);
            if let ComponentKind::Receiver { cobo_id } = component.kind {
                let reply = Reply::Command(
                    transport.command(component.endpoint.as_str(), &Command::GetStatus),
                );
                let ghost more = replies.push(reply@);
                assert(more.drop_last() =~= replies);
                match link_now(&params.router_ip, &component.name, cobo_id, reply) {
                    Err(why) => {
                        assert(links_told(*params, more, Err::<EccRequest, String>(why)));
                        assert(more.len() <= params.components@.len());
                        return Err(why);
                    },
                    Ok(link) => {
                        let ghost before = link_views(links@);
                        links.push(link);
                        assert(link_views(links@) =~= before.push(link@));
                    },
                }
                proof {
                    replies = more;
                }
            } else {
                proof {
                    let more = replies.push(ReplyView::Slept);
                    assert(more.drop_last() =~= replies);
                    replies = more;
                }
            }
            i = i + 1;
        }
        let request: EccRequest = configure_request(params, &links);
        assert(links_told(*params, replies, Ok::<EccRequest, String>(request)));
        Ok(request)
    }
}

/// The data links that the first components' answers tell of, or why one is not known. Only a
/// receiver's answer counts.
pub open spec fn links_upto(
    params: ControllerParams,
    replies: Seq<ReplyView>,
) -> Result<Seq<LinkView>, Seq<char>>
    decreases replies.len(),
{
    if replies.len() == 0 {
        Ok(Seq::empty())
    } else {
        let part = params.parts()[replies.len() - 1];
        match links_upto(params, replies.drop_last()) {
            Err(e) => Err(e),
            Ok(links) => match part.kind {
                ComponentKind::Receiver { cobo_id } => match link_now_of(
                    controller::text_of(params.router_ip),
                    part.name,
                    cobo_id,
                    replies.last(),
                ) {
                    Ok(link) => Ok(links.push(link)),
                    Err(e) => Err(e),
                },
                _ => Ok(links),
            },
        }
    }
}

/// Whether `r` is what the answers come to: the request for all data links, or the first reason
/// why one is not known.
pub open spec fn links_told(
    params: ControllerParams,
    replies: Seq<ReplyView>,
    r: Result<EccRequest, String>,
) -> bool {
    match links_upto(params, replies) {
        Ok(links) => {
            &&& replies.len() == params.components@.len()
            &&& r matches Ok(request) && request@ == controller::configure_of(params, links)
        },
        Err(e) => {
            &&& links_upto(params, replies.drop_last()) is Ok
            &&& r matches Err(why) && why@ == e
        },
    }
}

/// All that is done to ask the receivers among the first components for their status.
pub open spec fn link_talk(
    parts: Seq<controller::EndpointView>,
    replies: Seq<ReplyView>,
) -> Seq<Exchange>
    decreases replies.len(),
{
    if replies.len() == 0 {
        Seq::empty()
    } else {
        let part = parts[replies.len() - 1];
        let before = link_talk(parts, replies.drop_last());
        if part.kind is Receiver {
            before.push(
                Exchange::Command {
                    endpoint: part.endpoint,
                    command: CommandView::GetStatus,
                    reply: replies.last()->Command_0,
                },
            )
        } else {
            before
        }
    }
}

/// All that is done to ask the first components for their status.
pub open spec fn survey_talk(
    parts: Seq<controller::EndpointView>,
    replies: Seq<ReplyView>,
) -> Seq<Exchange> {
    Seq::new(
        replies.len(),
        |i: int|
            Exchange::Command {
                endpoint: parts[i].endpoint,
                command: CommandView::GetStatus,
                reply: replies[i]->Command_0,
            },
    )
}

/// What is noted once the components have answered.
pub open spec fn survey_notes(
    parts: Seq<controller::EndpointView>,
    notes: Seq<Seq<char>>,
    replies: Seq<ReplyView>,
) -> Seq<Seq<char>>
    decreases replies.len(),
{
    if replies.len() == 0 {
        notes
    } else {
        let before = survey_notes(parts, notes, replies.drop_last());
        match replies.last() {
            ReplyView::Command(Err(e)) => with_note(
                before,
                silent_note(parts[replies.len() - 1].name, e),
            ),
            _ => before,
        }
    }
}

} // verus!

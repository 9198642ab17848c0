//! What is said while a run is started and stopped.
//!
//! A start and a stop of a run leave a talk behind: all that was sent to the components and asked
//! of the electronics, with the answers. The laws here speak of such a talk alone. They say which
//! words may follow which, what a talk has come to at its end, and that this holds whatever is
//! answered.

use vstd::arithmetic::power2;
use vstd::prelude::*;

use crate::command;
use crate::command::CommandView;
use crate::controller;
use crate::controller::{ComponentKind, ControllerParams, EccRequestView, LinkView};
use crate::sequencer;
use crate::sequencer::{Exchange, ReplyView, StartStage, StartState, StopStage, StopState};
use crate::text;

verus! {

// ---------------------------------------------------------------------
// Starting a run
// ---------------------------------------------------------------------

/// What a run is started with.
pub struct Order {
    pub run: u32,
    pub comment: Seq<char>,
    /// When the run starts.
    pub ts: Seq<char>,
}

/// What a talk of a start has come to.
pub struct StartTold {
    /// How many questions were put to the electronics before they were set up.
    pub asks: nat,
    /// The state that the electronics gave last before they were set up.
    pub base: Option<Seq<char>>,
    /// Whether their last step back left them in the state that they were in.
    pub stuck: bool,
    /// The questions that led there, each with the state that came of it.
    pub steps: Seq<Seq<char>>,
    /// The commands that were obeyed, but for those that stop and reset.
    pub obeyed: Seq<(Seq<char>, CommandView)>,
    /// How often the next component refused to arm.
    pub refused: nat,
    /// How many waits there were since.
    pub waits: nat,
    /// Where the CoBos connect to, as the receivers said when they armed.
    pub links: Seq<LinkView>,
    /// The components that refused to arm and did so in the end, with the attempts they took.
    pub retried: Seq<(Seq<char>, nat)>,
    /// How many requests that set the electronics up have worked.
    pub setup: nat,
    /// Whether something did not work.
    pub broken: bool,
    /// What the last word was about, but for those that stop and reset.
    pub about: Seq<char>,
    /// The commands that stop and reset.
    pub undone: Seq<(Seq<char>, CommandView)>,
    /// How many of those did not work.
    pub complaints: nat,
}

/// A talk in which nothing was said.
pub open spec fn nothing_told() -> StartTold {
    StartTold {
        asks: 0,
        base: None,
        stuck: false,
        steps: Seq::empty(),
        obeyed: Seq::empty(),
        refused: 0,
        waits: 0,
        links: Seq::empty(),
        retried: Seq::empty(),
        setup: 0,
        broken: false,
        about: Seq::empty(),
        undone: Seq::empty(),
        complaints: 0,
    }
}

/// Whether a component obeyed.
pub open spec fn obeys(reply: Result<command::ResponseView, Seq<char>>) -> bool {
    reply matches Ok(r) && r.success
}

/// Whether a request to the electronics worked.
pub open spec fn works(reply: Result<controller::EccView, Seq<char>>) -> bool {
    reply matches Ok(r) && r.ok
}

/// Whether a request is one of those that set the electronics up.
pub open spec fn sets_up(action: Seq<char>) -> bool {
    action == "describe"@ || action == "prepare"@ || action == "configure"@ || action == "start"@
}

/// What the components are told, in order: each is configured, beginning with the first; then each
/// is armed; then each is started.
pub open spec fn orders(params: ControllerParams, order: Order) -> Seq<(Seq<char>, CommandView)> {
    let n = params.components@.len() as int;
    Seq::new(
        (3 * n) as nat,
        |j: int|
            if j < n {
                (
                    params.components@[j].endpoint@,
                    CommandView::Configure {
                        run_number: order.run,
                        comment: order.comment,
                        config: seq![("run_start_ts"@, order.ts)],
                    },
                )
            } else if j < 2 * n {
                (params.components@[j - n].endpoint@, CommandView::Arm)
            } else {
                (
                    params.components@[j - 2 * n].endpoint@,
                    CommandView::Start { run_number: order.run },
                )
            },
    )
}

/// How the first `k` components are undone: each is stopped and then reset, beginning with the
/// last.
pub open spec fn undoing(params: ControllerParams, k: int) -> Seq<(Seq<char>, CommandView)> {
    Seq::new(
        (2 * k) as nat,
        |j: int|
            (
                params.components@[k - 1 - j / 2].endpoint@,
                if j % 2 == 0 {
                    CommandView::Stop
                } else {
                    CommandView::Reset
                },
            ),
    )
}

/// How the electronics are set up.
pub open spec fn set_up(params: ControllerParams, links: Seq<LinkView>, k: int) -> EccRequestView {
    if k == 0 {
        EccRequestView {
            action: "describe"@,
            config_id: Some(params.config_ids.describe@),
            links: None,
        }
    } else if k == 1 {
        EccRequestView {
            action: "prepare"@,
            config_id: Some(params.config_ids.prepare@),
            links: None,
        }
    } else if k == 2 {
        EccRequestView {
            action: "configure"@,
            config_id: Some(params.config_ids.configure@),
            links: Some(controller::items_of(params.cobo_views(), links)),
        }
    } else {
        EccRequestView { action: "start"@, config_id: None, links: None }
    }
}

/// How many components the first `k` words of the orders touch.
pub open spec fn reached(params: ControllerParams, k: nat) -> int {
    if k < params.components@.len() {
        k as int
    } else {
        params.components@.len() as int
    }
}

impl StartTold {
    /// What the talk has come to with one more word.
    pub open spec fn with(self, params: ControllerParams, e: Exchange) -> StartTold {
        let n = params.components@.len() as int;
        match e {
            Exchange::Clock(_) => self,
            Exchange::Sleep(_) => StartTold { waits: self.waits + 1, ..self },
            Exchange::Ecc { request, reply } => if sets_up(request.action) {
                StartTold {
                    about: "ecc"@,
                    setup: if works(reply) {
                        self.setup + 1
                    } else {
                        self.setup
                    },
                    broken: !works(reply),
                    ..self
                }
            } else if works(reply) {
                StartTold {
                    about: "ecc"@,
                    asks: self.asks + 1,
                    stuck: self.base == Some(reply->Ok_0.state),
                    base: Some(reply->Ok_0.state),
                    steps: self.steps.push(request.action + "->"@ + reply->Ok_0.state),
                    ..self
                }
            } else {
                StartTold { about: "ecc"@, asks: self.asks + 1, broken: true, ..self }
            },
            Exchange::Command { endpoint, command, reply } => match command {
                CommandView::Stop | CommandView::Reset => StartTold {
                    undone: self.undone.push((endpoint, command)),
                    complaints: if obeys(reply) {
                        self.complaints
                    } else {
                        self.complaints + 1
                    },
                    ..self
                },
                CommandView::Arm => if obeys(reply) {
                    let c = params.components@[self.obeyed.len() - n];
                    let link = match c.kind {
                        ComponentKind::Receiver { cobo_id } => controller::link_of(
                            controller::text_of(params.router_ip),
                            cobo_id,
                            reply->Ok_0.metrics,
                        ),
                        _ => None,
                    };
                    StartTold {
                        about: "Arm"@,
                        obeyed: self.obeyed.push((endpoint, command)),
                        retried: if self.refused > 0 {
                            self.retried.push((c.name@, self.refused + 1))
                        } else {
                            self.retried
                        },
                        refused: 0,
                        waits: 0,
                        links: match link {
                            Some(l) => self.links.push(l),
                            None => self.links,
                        },
                        broken: c.kind is Receiver && link is None,
                        ..self
                    }
                } else {
                    StartTold {
                        about: "Arm"@,
                        refused: self.refused + 1,
                        broken: self.refused + 1 == 6,
                        ..self
                    }
                },
                CommandView::Configure { .. } => StartTold {
                    about: "Configure"@,
                    obeyed: if obeys(reply) {
                        self.obeyed.push((endpoint, command))
                    } else {
                        self.obeyed
                    },
                    broken: !obeys(reply),
                    ..self
                },
                _ => StartTold {
                    about: "Start"@,
                    obeyed: if obeys(reply) {
                        self.obeyed.push((endpoint, command))
                    } else {
                        self.obeyed
                    },
                    broken: !obeys(reply),
                    ..self
                },
            },
        }
    }

    /// Whether the electronics were led back to where a run can be started from.
    pub open spec fn led_back(self) -> bool {
        self.base == Some("Idle"@) || self.base == Some("Off"@)
    }

    /// Whether `e` may be the next word of a start with this order.
    pub open spec fn allows(self, params: ControllerParams, order: Order, e: Exchange) -> bool {
        let n = params.components@.len() as int;
        match e {
            Exchange::Clock(_) => true,
            // A component that refused to arm is given 20 ms, and twice as long each time.
            Exchange::Sleep(ms) => !self.broken && self.undone.len() == 0 && 1 <= self.refused <= 5
                && self.refused == self.waits + 1 && ms == 10 * power2::pow2(self.refused),
            Exchange::Ecc { request, .. } => {
                &&& !self.broken
                &&& self.undone.len() == 0
                &&& if sets_up(request.action) {
                    // The electronics are set up last.
                    &&& self.led_back()
                    &&& self.obeyed == orders(params, order)
                    &&& self.setup < 4
                    &&& request == set_up(params, self.links, self.setup as int)
                } else {
                    // Before any component is told anything, the electronics are led back.
                    &&& self.obeyed.len() == 0
                    &&& self.setup == 0
                    &&& self.asks <= 4
                    &&& !self.led_back()
                    &&& !self.stuck
                    &&& request.config_id is None
                    &&& request.links is None
                    &&& if self.asks == 0 {
                        request.action == "status"@
                    } else {
                        self.base matches Some(state) && leads_back(state, request.action)
                    }
                }
            },
            Exchange::Command { endpoint, command, .. } => match command {
                CommandView::Stop | CommandView::Reset => {
                    // What was touched is undone once something did not work.
                    &&& self.broken
                    &&& self.undone.len() < 2 * reached(params, self.obeyed.len())
                    &&& (endpoint, command) == undoing(
                        params,
                        reached(params, self.obeyed.len()),
                    )[self.undone.len() as int]
                },
                _ => {
                    &&& !self.broken
                    &&& self.undone.len() == 0
                    &&& self.setup == 0
                    &&& self.led_back()
                    &&& self.obeyed.len() < 3 * n
                    &&& (endpoint, command) == orders(params, order)[self.obeyed.len() as int]
                    &&& self.waits == self.refused <= 5
                },
            },
        }
    }
}

/// Whether an action leads the electronics from a state towards `Idle`.
pub open spec fn leads_back(state: Seq<char>, action: Seq<char>) -> bool {
    ||| (state == "Running"@ || state == "Paused"@) && action == "stop"@
    ||| state == "Ready"@ && action == "breakup"@
    ||| (state == "Prepared"@ || state == "Described"@) && action == "reset"@
}

/// Whether there is a way back from a state.
pub open spec fn has_way_back(state: Seq<char>) -> bool {
    state == "Running"@ || state == "Paused"@ || state == "Ready"@ || state == "Prepared"@ || state
        == "Described"@
}

/// What a talk of a start has come to.
pub open spec fn start_told(params: ControllerParams, talk: Seq<Exchange>) -> StartTold
    decreases talk.len(),
{
    if talk.len() == 0 {
        nothing_told()
    } else {
        start_told(params, talk.drop_last()).with(params, talk.last())
    }
}

/// Whether every word of a talk is one that may follow those before it.
pub open spec fn goes_by_the_order(params: ControllerParams, order: Order, talk: Seq<Exchange>) -> bool {
    forall|p: int|
        0 <= p < talk.len() ==> start_told(params, talk.take(p)).allows(
            params,
            order,
            #[trigger] talk[p],
        )
}

// How the state of a start stands to its talk.
spec fn keeps(params: ControllerParams, order: Order, s: StartState, t: StartTold) -> bool {
    let n = params.components@.len() as int;
    let plan = orders(params, order);
    &&& s.wf(params)
    &&& s.run == order.run
    &&& s.comment == order.comment
    &&& s.ts == order.ts
    &&& s.links == t.links
    &&& s.trail == t.steps
    &&& s.touched == reached(params, t.obeyed.len())
    &&& s.notes.len() == t.complaints
    &&& s.retries.len() >= t.retried.len()
    &&& forall|k: int|
        0 <= k < t.retried.len() ==> (#[trigger] s.retries[k]).component == t.retried[k].0
            && s.retries[k].attempts == t.retried[k].1
    &&& t.obeyed.len() <= 3 * n
    &&& t.obeyed == plan.take(t.obeyed.len() as int)
    &&& !s.failed() ==> !t.broken && t.undone.len() == 0 && s.retries.len() == t.retried.len()
    &&& !(s.stage is Ask || s.stage is Walk || s.failed()) ==> t.led_back() && t.base == Some(
        s.landed,
    )
    &&& !(s.stage is Arm || s.stage is Pause || s.failed()) ==> t.refused == 0 && t.waits == 0
    &&& match s.stage {
        StartStage::Ask => t == nothing_told(),
        StartStage::Walk { state, steps } => t.base == Some(state) && t.asks == steps + 1
            && t.obeyed.len() == 0 && t.setup == 0 && !t.stuck && !t.led_back(),
        StartStage::Configure { i } => t.obeyed.len() == i && t.setup == 0,
        StartStage::Arm { i, attempt, .. } => t.obeyed.len() == n + i && t.setup == 0 && t.refused
            == attempt - 1 && t.waits == t.refused,
        StartStage::Pause { i, attempt, .. } => t.obeyed.len() == n + i && t.setup == 0 && t.refused
            == attempt && t.waits + 1 == t.refused,
        StartStage::Start { i } => t.obeyed.len() == 2 * n + i && t.setup == 0,
        StartStage::Ecc { step } => t.obeyed == plan && t.setup == step,
        StartStage::Started => t.obeyed == plan && t.setup == 4,
        StartStage::Rollback { i, reset } => {
            &&& t.broken
            &&& t.setup < 4
            &&& s.failed_stage == t.about
            &&& t.undone == undoing(params, s.touched).take(
                2 * (s.touched - 1 - i) + if reset {
                    1int
                } else {
                    0int
                },
            )
        },
        StartStage::Failed => {
            &&& s.failed_stage == t.about
            &&& t.setup < 4
            &&& t.undone == undoing(params, s.touched)
            &&& t.broken || t.obeyed.len() == 0 && t.setup == 0 && !t.led_back() && (t.base matches Some(st)
                && (!has_way_back(st) || t.stuck || t.asks == 5))
        },
    }
}

proof fn lemma_actions_differ()
    ensures
        !sets_up("status"@),
        !sets_up("stop"@),
        !sets_up("breakup"@),
        !sets_up("reset"@),
        "Idle"@ != "Off"@,
        !has_way_back("Idle"@),
        !has_way_back("Off"@),
{
    reveal_strlit("status");
    reveal_strlit("stop");
    reveal_strlit("breakup");
    reveal_strlit("reset");
    reveal_strlit("describe");
    reveal_strlit("prepare");
    reveal_strlit("configure");
    reveal_strlit("start");
    assert("status"@.len() == 6 && "stop"@.len() == 4 && "breakup"@.len() == 7);
    assert("describe"@.len() == 8 && "prepare"@.len() == 7 && "configure"@.len() == 9);
    assert("start"@.len() == 5 && "reset"@.len() == 5);
    assert("breakup"@[0] == 'b' && "prepare"@[0] == 'p');
    assert("reset"@[0] == 'r' && "start"@[0] == 's');
    reveal_strlit("Running");
    reveal_strlit("Paused");
    reveal_strlit("Ready");
    reveal_strlit("Prepared");
    reveal_strlit("Described");
    reveal_strlit("Idle");
    reveal_strlit("Off");
    assert("Ready"@.len() == 5 && "Idle"@.len() == 4 && "Off"@.len() == 3);
    assert("Described"@.len() == 9 && "Prepared"@.len() == 8 && "Running"@.len() == 7);
    assert("Paused"@.len() == 6);
}

proof fn lemma_waits(k: nat)
    requires
        1 <= k <= 5,
    ensures
        sequencer::backoff(k as int) == 10 * power2::pow2(k),
{
    sequencer::law_waits_double();
    power2::lemma2_to64();
}

#[verifier::rlimit(60)]
proof fn lemma_start_step(
    params: ControllerParams,
    order: Order,
    s: StartState,
    t: StartTold,
    reply: ReplyView,
    now: u64,
)
    requires
        keeps(params, order, s, t),
        reply.answers(s.request(params)),
    ensures
        ({
            let e = sequencer::exchange(params, s.request(params), reply);
            &&& t.allows(params, order, e)
            &&& keeps(params, order, s.after(params, reply, now), t.with(params, e))
        }),
{
    lemma_actions_differ();
    sequencer::law_starting_stays_in_order(s, params, reply, now);
    let n = params.components@.len() as int;
    let e = sequencer::exchange(params, s.request(params), reply);
    let next = s.after(params, reply, now);
    let u = t.with(params, e);
    let plan = orders(params, order);
    assert(forall|j: int| 0 <= j < n ==> (#[trigger] params.parts()[j]) == params.components@[j]@);
    match s.stage {
        StartStage::Ask => {
            assert(u.obeyed =~= plan.take(0));
            assert(n == 0 ==> u.obeyed =~= plan);
            assert(u.undone =~= undoing(params, next.touched));
        },
        StartStage::Walk { state, .. } => {
            assert(u.obeyed =~= plan.take(0));
            assert(n == 0 ==> u.obeyed =~= plan);
            assert(u.undone =~= undoing(params, next.touched));
        },
        StartStage::Configure { i } => {
            assert(obeys(e->Command_reply) ==> u.obeyed =~= plan.take(i + 1));
            assert(u.undone =~= undoing(params, i).take(0));
            assert(i == 0 ==> u.undone =~= undoing(params, 0));
        },
        StartStage::Arm { i, .. } => {
            assert(obeys(e->Command_reply) ==> u.obeyed =~= plan.take(n + i + 1));
            assert(u.undone =~= undoing(params, n).take(0));
        },
        StartStage::Pause { attempt, .. } => {
            lemma_waits(attempt as nat);
        },
        StartStage::Start { i } => {
            assert(obeys(e->Command_reply) ==> u.obeyed =~= plan.take(2 * n + i + 1));
            assert(plan.take(3 * n) =~= plan);
            assert(u.undone =~= undoing(params, n).take(0));
        },
        StartStage::Ecc { step } => {
            assert(plan.take(3 * n) =~= plan);
            assert(u.undone =~= undoing(params, n).take(0));
            assert(n == 0 ==> u.undone =~= undoing(params, 0));
        },
        StartStage::Rollback { i, reset } => {
            let k = t.undone.len() as int;
            let all = undoing(params, s.touched);
            assert(u.undone =~= all.take(k + 1));
            assert(all.take(2 * s.touched) =~= all);
        },
        _ => {},
    }
}

proof fn lemma_start(
    params: ControllerParams,
    order: Order,
    replies: Seq<(ReplyView, u64)>,
)
    requires
        sequencer::start_answered(
            params,
            StartState::fresh(order.run, order.comment, order.ts),
            replies,
        ),
    ensures
        ({
            let fresh = StartState::fresh(order.run, order.comment, order.ts);
            let talk = sequencer::start_talk(params, fresh, replies);
            &&& goes_by_the_order(params, order, talk)
            &&& keeps(
                params,
                order,
                sequencer::start_after(params, fresh, replies),
                start_told(params, talk),
            )
        }),
    decreases replies.len(),
{
    let fresh = StartState::fresh(order.run, order.comment, order.ts);
    let talk = sequencer::start_talk(params, fresh, replies);
    if replies.len() == 0 {
        assert(orders(params, order).take(0) =~= Seq::empty());
    } else {
        let before = replies.drop_last();
        lemma_start(params, order, before);
        let earlier = sequencer::start_talk(params, fresh, before);
        let s = sequencer::start_after(params, fresh, before);
        let t = start_told(params, earlier);
        let e = sequencer::exchange(params, s.request(params), replies.last().0);
        lemma_start_step(params, order, s, t, replies.last().0, replies.last().1);
        assert(talk.drop_last() =~= earlier.push(e));
        assert(earlier.push(e).drop_last() =~= earlier);
        assert forall|p: int| 0 <= p < talk.len() implies start_told(params, talk.take(p)).allows(
            params,
            order,
            #[trigger] talk[p],
        ) by {
            if p < earlier.len() {
                assert(talk.take(p) =~= earlier.take(p));
                assert(talk[p] == earlier[p]);
            } else if p == earlier.len() {
                assert(talk.take(p) =~= earlier);
            }
        }
    }
}

/// Whatever is answered, every word of a start is one that may follow those before it. So every
/// component is configured with the number of the run, its comment and its time, and started with
/// the number of the run; the components are told in order; none is told anything before the
/// electronics are led back; the electronics are set up last; and what was touched is undone in the
/// opposite order once something does not work.
pub proof fn law_a_start_goes_by_the_order(
    params: ControllerParams,
    order: Order,
    replies: Seq<(ReplyView, u64)>,
)
    requires
        sequencer::start_answered(
            params,
            StartState::fresh(order.run, order.comment, order.ts),
            replies,
        ),
    ensures
        goes_by_the_order(
            params,
            order,
            sequencer::start_talk(
                params,
                StartState::fresh(order.run, order.comment, order.ts),
                replies,
            ),
        ),
{
    lemma_start(params, order, replies);
}

/// Every command of a start that carries a number of a run carries that of the run that is
/// started, and no component is asked for its status.
pub proof fn law_a_start_is_of_its_run(
    params: ControllerParams,
    order: Order,
    replies: Seq<(ReplyView, u64)>,
    p: int,
)
    requires
        sequencer::start_answered(
            params,
            StartState::fresh(order.run, order.comment, order.ts),
            replies,
        ),
        0 <= p < sequencer::start_talk(
            params,
            StartState::fresh(order.run, order.comment, order.ts),
            replies,
        ).len(),
    ensures
        sequencer::start_talk(
            params,
            StartState::fresh(order.run, order.comment, order.ts),
            replies,
        )[p] matches Exchange::Command { command, .. } ==> match command {
            CommandView::Configure { run_number, comment, config } => run_number == order.run
                && comment == order.comment && config == seq![("run_start_ts"@, order.ts)],
            CommandView::Start { run_number } => run_number == order.run,
            CommandView::GetStatus => false,
            _ => true,
        },
{
    lemma_start(params, order, replies);
    let talk = sequencer::start_talk(
        params,
        StartState::fresh(order.run, order.comment, order.ts),
        replies,
    );
    assert(start_told(params, talk.take(p)).allows(params, order, talk[p]));
}

/// A run is started where every order was obeyed and every request that sets the electronics up
/// has worked, and then nothing is undone. The start tells where the CoBos connect to, as the
/// receivers said, which components had to be told to arm again, and how the electronics were led
/// back.
pub proof fn law_a_run_is_started(
    params: ControllerParams,
    order: Order,
    replies: Seq<(ReplyView, u64)>,
)
    requires
        sequencer::start_answered(
            params,
            StartState::fresh(order.run, order.comment, order.ts),
            replies,
        ),
    ensures
        ({
            let fresh = StartState::fresh(order.run, order.comment, order.ts);
            let end = sequencer::start_after(params, fresh, replies);
            let t = start_told(params, sequencer::start_talk(params, fresh, replies));
            &&& end.stage is Started <==> t.setup == 4
            &&& end.stage is Started ==> {
                &&& t.obeyed == orders(params, order)
                &&& t.undone.len() == 0
                &&& t.led_back()
                &&& end.run == order.run
                &&& end.links == t.links
                &&& end.landed == t.base->0
                &&& end.trail == t.steps
                &&& end.retries.len() == t.retried.len()
                &&& forall|k: int|
                    0 <= k < t.retried.len() ==> (#[trigger] end.retries[k]).component
                        == t.retried[k].0 && end.retries[k].attempts == t.retried[k].1
            }
        }),
{
    lemma_start(params, order, replies);
}

/// A start fails where something did not work, or where the electronics cannot be led back: from
/// no state that has no way back, where a step leaves them where they were, or where four steps do
/// not suffice. Then every component that was configured is stopped and reset, beginning with the
/// last, and no other. The failure names what was spoken about last, and notes every component that
/// did not obey.
pub proof fn law_a_start_fails(
    params: ControllerParams,
    order: Order,
    replies: Seq<(ReplyView, u64)>,
)
    requires
        sequencer::start_answered(
            params,
            StartState::fresh(order.run, order.comment, order.ts),
            replies,
        ),
    ensures
        ({
            let fresh = StartState::fresh(order.run, order.comment, order.ts);
            let end = sequencer::start_after(params, fresh, replies);
            let t = start_told(params, sequencer::start_talk(params, fresh, replies));
            end.stage is Failed ==> {
                &&& t.setup < 4
                &&& t.undone == undoing(params, reached(params, t.obeyed.len()))
                &&& end.failed_stage == t.about
                &&& end.notes.len() == t.complaints
                &&& t.broken || (t.base matches Some(st) && t.obeyed.len() == 0 && st != "Idle"@
                    && st != "Off"@ && (!has_way_back(st) || t.stuck || t.asks == 5))
            }
        }),
{
    lemma_start(params, order, replies);
}

// ---------------------------------------------------------------------
// Stopping a run
// ---------------------------------------------------------------------

/// The numbers of the first `k` components that are receivers, or that are none, in order.
pub open spec fn chosen(params: ControllerParams, k: int, receivers: bool) -> Seq<int>
    decreases k,
{
    if k <= 0 {
        Seq::empty()
    } else if (params.components@[k - 1].kind is Receiver) == receivers {
        chosen(params, k - 1, receivers).push(k - 1)
    } else {
        chosen(params, k - 1, receivers)
    }
}

/// The components that tell whether all streams have ended.
pub open spec fn watchers(params: ControllerParams) -> Seq<int> {
    chosen(params, params.components@.len() as int, false)
}

/// The components that can be made to end their streams.
pub open spec fn sources(params: ControllerParams) -> Seq<int> {
    chosen(params, params.components@.len() as int, true)
}

/// Whether an answer of component `i` shows that all streams have ended: a decoder has counted the
/// end of as many streams as there are CoBos, and a writer of raw data has no file open.
pub open spec fn shows_the_end(
    params: ControllerParams,
    i: int,
    reply: Result<command::ResponseView, Seq<char>>,
) -> bool {
    reply matches Ok(r) && (r.metrics matches Some(m) && match params.components@[i].kind {
        ComponentKind::Decoder => command::metric_u64(m, "eos_in"@) matches Some(v) && v
            >= params.cobos@.len(),
        ComponentKind::GrawWriter => command::metric_u64(m, "files_open"@) == Some(0u64),
        ComponentKind::Receiver { .. } => false,
    })
}

/// How the first `k` components are stopped and reset, beginning with the last. A receiver that
/// was made to end its stream is stopped already.
pub open spec fn folds(params: ControllerParams, forced: bool, k: int) -> Seq<(Seq<char>, CommandView)>
    decreases k,
{
    if k <= 0 {
        Seq::empty()
    } else {
        let endpoint = params.components@[k - 1].endpoint@;
        if forced && params.components@[k - 1].kind is Receiver {
            seq![(endpoint, CommandView::Reset)] + folds(params, forced, k - 1)
        } else {
            seq![(endpoint, CommandView::Stop), (endpoint, CommandView::Reset)] + folds(
                params,
                forced,
                k - 1,
            )
        }
    }
}

/// What a talk of a stop has come to.
pub struct StopTold {
    /// Whether the electronics were stopped, once they were told to.
    pub ecc: Option<bool>,
    /// Whether the streams are made to end.
    pub forced: bool,
    /// How many receivers were made to end their streams.
    pub ended: nat,
    /// How many components in a row have shown that all streams have ended.
    pub shown: nat,
    /// Whether the last that was asked has not.
    pub late: bool,
    /// How long the streams were given, in milliseconds.
    pub waited: nat,
    /// Whether they are given no more time.
    pub given_up: bool,
    /// What the components had to report.
    pub reports: Seq<Result<command::ResponseView, Seq<char>>>,
    /// The commands that stop and reset the components after that.
    pub folded: Seq<(Seq<char>, CommandView)>,
}

/// A talk in which nothing was said.
pub open spec fn nothing_stopped() -> StopTold {
    StopTold {
        ecc: None,
        forced: false,
        ended: 0,
        shown: 0,
        late: false,
        waited: 0,
        given_up: false,
        reports: Seq::empty(),
        folded: Seq::empty(),
    }
}

impl StopTold {
    /// Whether the streams are to be watched.
    pub open spec fn is_watching(self, params: ControllerParams) -> bool {
        self.ecc is Some && (self.forced ==> self.ended == sources(params).len())
    }

    /// Whether all components that tell have shown that all streams have ended.
    pub open spec fn is_closed(self, params: ControllerParams) -> bool {
        self.is_watching(params) && self.shown == watchers(params).len() && !self.given_up
    }

    /// Whether the streams are no more watched.
    pub open spec fn is_settled(self, params: ControllerParams) -> bool {
        self.is_closed(params) || self.given_up
    }

    /// What the talk has come to with one more word.
    pub open spec fn with(self, params: ControllerParams, abort: bool, e: Exchange) -> StopTold {
        match e {
            Exchange::Clock(_) => self,
            Exchange::Sleep(ms) => StopTold { waited: self.waited + ms, late: false, ..self },
            Exchange::Ecc { reply, .. } => StopTold {
                ecc: Some(works(reply)),
                forced: abort,
                ..self
            },
            Exchange::Command { endpoint, command, reply } => if command is GetStatus {
                if self.is_settled(params) {
                    StopTold { reports: self.reports.push(reply), ..self }
                } else if shows_the_end(params, watchers(params)[self.shown as int], reply) {
                    StopTold { shown: self.shown + 1, ..self }
                } else if self.waited < 1000 * params.eos_timeout.secs + params.eos_timeout.millis {
                    StopTold { shown: 0, late: true, ..self }
                } else if self.forced {
                    StopTold { shown: 0, given_up: true, ..self }
                } else {
                    StopTold { shown: 0, forced: true, waited: 0, ..self }
                }
            } else if self.is_settled(params) {
                StopTold { folded: self.folded.push((endpoint, command)), ..self }
            } else {
                StopTold { ended: self.ended + 1, ..self }
            },
        }
    }

    /// Whether `e` may be the next word of a stop.
    pub open spec fn allows(self, params: ControllerParams, e: Exchange) -> bool {
        let n = params.components@.len() as int;
        match e {
            Exchange::Clock(_) => false,
            // The electronics are stopped first.
            Exchange::Ecc { request, .. } => self.ecc is None && request == (EccRequestView {
                action: "stop"@,
                config_id: None,
                links: None,
            }),
            Exchange::Sleep(ms) => self.is_watching(params) && !self.is_settled(params) && self.late
                && ms == params.eos_poll_ms,
            Exchange::Command { endpoint, command, .. } => if command is GetStatus {
                if self.is_settled(params) {
                    // Every component reports before any is stopped or reset.
                    &&& self.folded.len() == 0
                    &&& self.reports.len() < n
                    &&& endpoint == params.components@[self.reports.len() as int].endpoint@
                } else {
                    &&& self.is_watching(params)
                    &&& !self.late
                    &&& self.shown < watchers(params).len()
                    &&& endpoint == params.components@[watchers(
                        params,
                    )[self.shown as int]].endpoint@
                }
            } else if self.is_settled(params) {
                &&& self.reports.len() == n
                &&& self.folded.push((endpoint, command)).is_prefix_of(
                    folds(params, self.forced, n),
                )
            } else {
                &&& self.ecc is Some
                &&& self.forced
                &&& command == CommandView::Stop
                &&& self.ended < sources(params).len()
                &&& endpoint == params.components@[sources(params)[self.ended as int]].endpoint@
            },
        }
    }
}

/// What a talk of a stop has come to.
pub open spec fn stop_told(params: ControllerParams, abort: bool, talk: Seq<Exchange>) -> StopTold
    decreases talk.len(),
{
    if talk.len() == 0 {
        nothing_stopped()
    } else {
        stop_told(params, abort, talk.drop_last()).with(params, abort, talk.last())
    }
}

/// Whether every word of a talk is one that may follow those before it.
pub open spec fn goes_by_the_rules(params: ControllerParams, abort: bool, talk: Seq<Exchange>) -> bool {
    forall|p: int|
        0 <= p < talk.len() ==> stop_told(params, abort, talk.take(p)).allows(
            params,
            #[trigger] talk[p],
        )
}

/// Whether a status tells what component `i` had to report.
pub open spec fn tells_report(
    params: ControllerParams,
    i: int,
    status: controller::StatusView,
    reply: Result<command::ResponseView, Seq<char>>,
) -> bool {
    &&& status.name == params.components@[i].name@
    &&& status.kind == params.components@[i].kind
    &&& status.endpoint == params.components@[i].endpoint@
    &&& match reply {
        Ok(r) => status.reachable && status.state == Some(r.state) && status.run_number
            == r.run_number && status.metrics == r.metrics && status.error == if r.success {
            None
        } else {
            Some(r.message)
        },
        Err(e) => !status.reachable && status.state is None && status.run_number is None
            && status.metrics is None && status.error == Some(e),
    }
}

proof fn lemma_chosen(params: ControllerParams, i: int, k: int, receivers: bool)
    requires
        0 <= i <= k <= params.components@.len(),
    ensures
        chosen(params, i, receivers).is_prefix_of(chosen(params, k, receivers)),
        chosen(params, i, receivers).len() <= i,
    decreases k,
{
    if i < k {
        lemma_chosen(params, i, k - 1, receivers);
    } else if k > 0 {
        lemma_chosen(params, k - 1, k - 1, receivers);
    }
}

proof fn lemma_next(params: ControllerParams, i: int, receivers: bool)
    requires
        0 <= i <= params.components@.len(),
    ensures
        ({
            let n = params.components@.len() as int;
            let j = sequencer::next_of(params, i, receivers);
            let all = chosen(params, n, receivers);
            &&& i <= j <= n
            &&& chosen(params, j, receivers) == chosen(params, i, receivers)
            &&& j == n ==> all.len() == chosen(params, i, receivers).len()
            &&& j < n ==> {
                &&& (params.components@[j].kind is Receiver) == receivers
                &&& chosen(params, j + 1, receivers).len() == chosen(params, i, receivers).len() + 1
                &&& chosen(params, i, receivers).len() < all.len()
                &&& all[chosen(params, i, receivers).len() as int] == j
            }
        }),
    decreases params.components@.len() - i,
{
    let n = params.components@.len() as int;
    if i < n {
        if (params.components@[i].kind is Receiver) == receivers {
            lemma_chosen(params, i + 1, n, receivers);
            let k = chosen(params, i, receivers).len() as int;
            assert(chosen(params, n, receivers)[k] == chosen(params, i + 1, receivers)[k]);
        } else {
            lemma_next(params, i + 1, receivers);
        }
    }
}

// How the state of a stop stands to its talk, but for the part of the sequence that it is in.
spec fn agrees(params: ControllerParams, mode: controller::ModeView, s: StopState, t: StopTold) -> bool {
    &&& s.mode == mode
    &&& s.ecc_failed == (t.ecc == Some(false))
    &&& s.forced_eos == t.forced
    &&& s.statuses.len() == t.reports.len()
    &&& forall|i: int|
        0 <= i < t.reports.len() ==> tells_report(
            params,
            i,
            #[trigger] s.statuses[i],
            t.reports[i],
        )
}

// How the part of the sequence that a stop is in stands to its talk.
spec fn stands(params: ControllerParams, s: StopState, t: StopTold) -> bool {
    let n = params.components@.len() as int;
    let all = folds(params, t.forced, n);
    match s.stage {
        StopStage::EccStop => t == nothing_stopped(),
        StopStage::Watch { i, waited } => {
            &&& t.is_watching(params) && !t.is_settled(params) && !t.late && !s.eos_closed
            &&& waited == t.waited
            &&& t.shown == chosen(params, i, false).len() < watchers(params).len()
            &&& watchers(params)[t.shown as int] == i
            &&& chosen(params, i + 1, false).len() == t.shown + 1
            &&& t.folded.len() == 0 && t.reports.len() == 0
            &&& t.forced || t.ended == 0
        },
        StopStage::Sleep { waited } => {
            &&& t.is_watching(params) && !t.is_settled(params) && t.late && !s.eos_closed
            &&& waited == t.waited
            &&& t.shown == 0
            &&& t.folded.len() == 0 && t.reports.len() == 0
            &&& t.forced || t.ended == 0
        },
        StopStage::Force { i } => {
            &&& t.ecc is Some && t.forced && !t.is_settled(params) && !t.late && !s.eos_closed
            &&& t.shown == 0 && t.waited == 0
            &&& t.ended == chosen(params, i, true).len() < sources(params).len()
            &&& sources(params)[t.ended as int] == i
            &&& chosen(params, i + 1, true).len() == t.ended + 1
            &&& t.folded.len() == 0 && t.reports.len() == 0
        },
        StopStage::Collect { i } => {
            &&& t.is_settled(params) && s.eos_closed == t.is_closed(params)
            &&& 0 <= i < n
            &&& t.reports.len() == i
            &&& t.folded.len() == 0
        },
        StopStage::Fold { i, reset } => {
            &&& t.is_settled(params) && s.eos_closed == t.is_closed(params)
            &&& 0 <= i < n
            &&& t.reports.len() == n
            &&& all == t.folded + if reset {
                seq![(params.components@[i].endpoint@, CommandView::Reset)] + folds(
                    params,
                    t.forced,
                    i,
                )
            } else {
                seq![
                    (params.components@[i].endpoint@, CommandView::Stop),
                    (params.components@[i].endpoint@, CommandView::Reset),
                ] + folds(params, t.forced, i)
            }
        },
        StopStage::Done => {
            &&& t.is_settled(params) && s.eos_closed == t.is_closed(params)
            &&& t.reports.len() == n
            &&& t.folded == all
        },
    }
}

proof fn lemma_folding(params: ControllerParams, s: StopState, t: StopTold, i: int)
    requires
        s.forced_eos == t.forced,
        t.is_settled(params),
        s.eos_closed == t.is_closed(params),
        t.reports.len() == params.components@.len(),
        -1 <= i < params.components@.len(),
        folds(params, t.forced, params.components@.len() as int) == t.folded + folds(
            params,
            t.forced,
            i + 1,
        ),
    ensures
        stands(params, s.folding(params, i), t),
{
    if i < 0 {
        assert(t.folded + folds(params, t.forced, 0) =~= t.folded);
    }
}

proof fn lemma_collecting(params: ControllerParams, s: StopState, t: StopTold, i: int)
    requires
        s.forced_eos == t.forced,
        t.is_settled(params),
        s.eos_closed == t.is_closed(params),
        t.reports.len() == i,
        0 <= i <= params.components@.len(),
        t.folded.len() == 0,
    ensures
        stands(params, s.collecting(params, i), t),
{
    let n = params.components@.len() as int;
    if i == n {
        assert(t.folded + folds(params, t.forced, n) =~= folds(params, t.forced, n));
        lemma_folding(params, s, t, n - 1);
    }
}

proof fn lemma_watching(params: ControllerParams, s: StopState, t: StopTold, i: int, waited: nat)
    requires
        s.forced_eos == t.forced,
        !s.eos_closed,
        t.is_watching(params),
        !t.given_up,
        !t.late,
        t.waited == waited,
        0 <= i <= params.components@.len(),
        t.shown == chosen(params, i, false).len(),
        t.folded.len() == 0,
        t.reports.len() == 0,
        t.forced || t.ended == 0,
    ensures
        stands(params, s.watching(params, i, waited), t),
{
    lemma_next(params, i, false);
    let j = sequencer::next_of(params, i, false);
    if j == params.components@.len() {
        lemma_collecting(params, StopState { eos_closed: true, ..s }, t, 0);
    }
}

proof fn lemma_forcing(params: ControllerParams, s: StopState, t: StopTold, i: int)
    requires
        t.forced,
        !s.eos_closed,
        t.ecc is Some,
        !t.given_up,
        !t.late,
        t.waited == 0,
        t.shown == 0,
        0 <= i <= params.components@.len(),
        t.ended == chosen(params, i, true).len(),
        t.folded.len() == 0,
        t.reports.len() == 0,
    ensures
        stands(params, s.forcing(params, i), t),
{
    lemma_next(params, i, true);
    let j = sequencer::next_of(params, i, true);
    if j == params.components@.len() {
        assert(chosen(params, 0, false).len() == 0);
        lemma_watching(params, StopState { forced_eos: true, ..s }, t, 0, 0);
    }
}

#[verifier::rlimit(60)]
proof fn lemma_stop_step(
    params: ControllerParams,
    mode: controller::ModeView,
    s: StopState,
    t: StopTold,
    reply: ReplyView,
)
    requires
        s.wf(params),
        agrees(params, mode, s, t),
        stands(params, s, t),
        reply.answers(s.request(params)),
    ensures
        ({
            let e = sequencer::exchange(params, s.request(params), reply);
            let next = s.after(params, reply);
            let u = t.with(params, mode is Abort, e);
            &&& t.allows(params, e)
            &&& next.wf(params)
            &&& agrees(params, mode, next, u)
            &&& stands(params, next, u)
        }),
{
    sequencer::law_stopping_stays_in_order(s, params, reply);
    let n = params.components@.len() as int;
    let e = sequencer::exchange(params, s.request(params), reply);
    let next = s.after(params, reply);
    let u = t.with(params, mode is Abort, e);
    let all = folds(params, t.forced, n);
    assert(forall|j: int| 0 <= j < n ==> (#[trigger] params.parts()[j]) == params.components@[j]@);
    assert(chosen(params, 0, false).len() == 0);
    assert(chosen(params, 0, true).len() == 0);
    match s.stage {
        StopStage::EccStop => {
            let s1 = match sequencer::ecc_result("stop"@, reply) {
                Ok(_) => s,
                Err(e) => StopState { ecc_failed: true, ..s.noted(e) },
            };
            if mode is Abort {
                lemma_forcing(params, s1, u, 0);
            } else {
                lemma_watching(params, s1, u, 0, 0);
            }
        },
        StopStage::Watch { i, waited } => {
            lemma_watch_step(params, mode, s, t, reply);
        },
        StopStage::Sleep { waited } => {
            lemma_watching(params, s, u, 0, u.waited);
        },
        StopStage::Force { i } => {
            let s1 = match sequencer::command_result(
                params.components@[i].name@,
                CommandView::Stop,
                reply,
            ) {
                Ok(_) => s,
                Err(e) => s.noted(e),
            };
            lemma_forcing(params, s1, u, i + 1);
        },
        StopStage::Collect { i } => {
            let c = params.components@[i];
            let s1 = match reply {
                ReplyView::Command(Ok(r)) => StopState {
                    statuses: s.statuses.push(controller::status_of(c@, r)),
                    ..s
                },
                ReplyView::Command(Err(e)) => StopState {
                    statuses: s.statuses.push(controller::status_unreachable(c@, e)),
                    ..s.noted_once(sequencer::silent_note(c.name@, e))
                },
                _ => s,
            };
            assert(u.is_closed(params) == t.is_closed(params));
            lemma_collecting(params, s1, u, i + 1);
        },
        StopStage::Fold { i, reset } => {
            let command = if reset {
                CommandView::Reset
            } else {
                CommandView::Stop
            };
            let s1 = match sequencer::command_result(params.components@[i].name@, command, reply) {
                Ok(_) => s,
                Err(e) => s.noted(e),
            };
            let endpoint = params.components@[i].endpoint@;
            assert(u.is_closed(params) == t.is_closed(params));
            assert(u.folded.is_prefix_of(all));
            if reset {
                assert(all =~= u.folded + folds(params, t.forced, i));
                lemma_folding(params, s1, u, i - 1);
            } else {
                assert(all =~= u.folded + (seq![(endpoint, CommandView::Reset)] + folds(
                    params,
                    t.forced,
                    i,
                )));
            }
        },
        StopStage::Done => {},
    }
}

proof fn lemma_watch_step(
    params: ControllerParams,
    mode: controller::ModeView,
    s: StopState,
    t: StopTold,
    reply: ReplyView,
)
    requires
        s.wf(params),
        s.stage is Watch,
        agrees(params, mode, s, t),
        stands(params, s, t),
        reply.answers(s.request(params)),
    ensures
        ({
            let e = sequencer::exchange(params, s.request(params), reply);
            let next = s.after(params, reply);
            let u = t.with(params, mode is Abort, e);
            &&& t.allows(params, e)
            &&& agrees(params, mode, next, u)
            &&& stands(params, next, u)
        }),
{
    let i = s.stage->Watch_i;
    let waited = s.stage->Watch_waited;
    let e = sequencer::exchange(params, s.request(params), reply);
    let u = t.with(params, mode is Abort, e);
    let c = params.components@[i];
    let r = reply->Command_0;
    assert(params.parts()[i] == c@);
    assert(chosen(params, 0, true).len() == 0);
    let s1 = match r {
        Err(e) => s.noted_once(sequencer::silent_note(c.name@, e)),
        Ok(r) => if (match r.metrics {
            Some(m) => command::metric_u64(m, sequencer::eos_key(c.kind)),
            None => None,
        }) is Some {
            s
        } else {
            s.noted_once(sequencer::vague_note(c.name@, sequencer::eos_key(c.kind)))
        },
    };
    if shows_the_end(params, i, r) {
        lemma_watching(params, s, u, i + 1, waited);
    } else {
        assert(s.after(params, reply) == s1.not_yet(params, waited));
        if waited < sequencer::patience(params) {
        } else {
            let s2 = s1.noted_once(sequencer::timeout_note(params));
            if s.forced_eos {
                lemma_collecting(params, s2, u, 0);
            } else {
                lemma_forcing(params, s2, u, 0);
            }
        }
    }
}

proof fn lemma_stop(params: ControllerParams, mode: controller::ModeView, replies: Seq<ReplyView>)
    requires
        sequencer::stop_answered(params, StopState::fresh(mode), replies),
    ensures
        ({
            let talk = sequencer::stop_talk(params, StopState::fresh(mode), replies);
            let s = sequencer::stop_after(params, StopState::fresh(mode), replies);
            let t = stop_told(params, mode is Abort, talk);
            &&& goes_by_the_rules(params, mode is Abort, talk)
            &&& s.wf(params)
            &&& agrees(params, mode, s, t)
            &&& stands(params, s, t)
        }),
    decreases replies.len(),
{
    let fresh = StopState::fresh(mode);
    let abort = mode is Abort;
    let talk = sequencer::stop_talk(params, fresh, replies);
    if replies.len() > 0 {
        let before = replies.drop_last();
        lemma_stop(params, mode, before);
        let earlier = sequencer::stop_talk(params, fresh, before);
        let s = sequencer::stop_after(params, fresh, before);
        let t = stop_told(params, abort, earlier);
        lemma_stop_step(params, mode, s, t, replies.last());
        assert(talk.drop_last() =~= earlier);
        assert forall|p: int| 0 <= p < talk.len() implies stop_told(
            params,
            abort,
            talk.take(p),
        ).allows(params, #[trigger] talk[p]) by {
            if p < earlier.len() {
                assert(talk.take(p) =~= earlier.take(p));
                assert(talk[p] == earlier[p]);
            } else {
                assert(talk.take(p) =~= earlier);
            }
        }
    }
}

/// Whatever is answered, every word of a stop is one that may follow those before it. So the
/// electronics are stopped first; the streams are watched, and are made to end where they do not
/// end in time or where the run is aborted; then every component reports; and only then are the
/// components stopped and reset, beginning with the last.
pub proof fn law_a_stop_goes_by_the_rules(
    params: ControllerParams,
    mode: controller::ModeView,
    replies: Seq<ReplyView>,
)
    requires
        sequencer::stop_answered(params, StopState::fresh(mode), replies),
    ensures
        goes_by_the_rules(
            params,
            mode is Abort,
            sequencer::stop_talk(params, StopState::fresh(mode), replies),
        ),
{
    lemma_stop(params, mode, replies);
}

/// What a stop has come to at its end: it has heard every component's report and has stopped and
/// reset every component; it tells what each had to report, whether the streams were made to end,
/// whether all streams were shown to have ended, and whether the electronics were stopped.
pub proof fn law_a_run_is_stopped(
    params: ControllerParams,
    mode: controller::ModeView,
    replies: Seq<ReplyView>,
)
    requires
        sequencer::stop_answered(params, StopState::fresh(mode), replies),
    ensures
        ({
            let n = params.components@.len();
            let end = sequencer::stop_after(params, StopState::fresh(mode), replies);
            let talk = sequencer::stop_talk(params, StopState::fresh(mode), replies);
            let t = stop_told(params, mode is Abort, talk);
            &&& end.stage is Done <==> t.is_settled(params) && t.reports.len() == n && t.folded
                == folds(params, t.forced, n as int)
            &&& end.stage is Done ==> {
                &&& end.eos_closed == t.is_closed(params)
                &&& end.forced_eos == t.forced
                &&& end.ecc_failed == (t.ecc == Some(false))
                &&& end.statuses.len() == n
                &&& forall|i: int|
                    0 <= i < n ==> tells_report(
                        params,
                        i,
                        #[trigger] end.statuses[i],
                        t.reports[i],
                    )
            }
        }),
{
    lemma_stop(params, mode, replies);
    let end = sequencer::stop_after(params, StopState::fresh(mode), replies);
    let talk = sequencer::stop_talk(params, StopState::fresh(mode), replies);
    let t = stop_told(params, mode is Abort, talk);
    if end.stage is Fold {
        let n = params.components@.len() as int;
        assert(folds(params, t.forced, n).len() > t.folded.len());
    }
}

/// Whether a word is an answer of component `i` that shows that all streams have ended.
pub open spec fn is_end_of(params: ControllerParams, i: int, e: Exchange) -> bool {
    e matches Exchange::Command { endpoint, command, reply } && endpoint
        == params.components@[i].endpoint@ && command == CommandView::GetStatus && shows_the_end(
        params,
        i,
        reply,
    )
}

proof fn lemma_shown(params: ControllerParams, abort: bool, talk: Seq<Exchange>, k: int)
    requires
        goes_by_the_rules(params, abort, talk),
        0 <= k < stop_told(params, abort, talk).shown,
    ensures
        exists|q: int|
            0 <= q < talk.len() && is_end_of(params, watchers(params)[k], #[trigger] talk[q]),
    decreases talk.len(),
{
    let before = talk.drop_last();
    let p = talk.len() - 1;
    assert(talk.take(p) =~= before);
    let t = stop_told(params, abort, before);
    assert(t.allows(params, talk[p]));
    assert forall|q: int| 0 <= q < before.len() implies stop_told(
        params,
        abort,
        before.take(q),
    ).allows(params, #[trigger] before[q]) by {
        assert(before.take(q) =~= talk.take(q));
        assert(before[q] == talk[q]);
    }
    if k < t.shown {
        lemma_shown(params, abort, before, k);
        let q = choose|q: int|
            0 <= q < before.len() && is_end_of(params, watchers(params)[k], #[trigger] before[q]);
        assert(talk[q] == before[q]);
    } else {
        assert(is_end_of(params, watchers(params)[k], talk[p]));
    }
}

proof fn lemma_watcher(params: ControllerParams, i: int, k: int) -> (w: int)
    requires
        0 <= i < k <= params.components@.len(),
        !(params.components@[i].kind is Receiver),
    ensures
        0 <= w < chosen(params, k, false).len(),
        chosen(params, k, false)[w] == i,
    decreases k,
{
    if i == k - 1 {
        chosen(params, k - 1, false).len() as int
    } else {
        lemma_watcher(params, i, k - 1)
    }
}

/// The streams count as closed only where every decoder has answered that the end of as many
/// streams as there are CoBos has come in, and every writer of raw data that it has no file open.
pub proof fn law_closed_streams_were_seen_to_end(
    params: ControllerParams,
    mode: controller::ModeView,
    replies: Seq<ReplyView>,
    i: int,
)
    requires
        sequencer::stop_answered(params, StopState::fresh(mode), replies),
        sequencer::stop_after(params, StopState::fresh(mode), replies).eos_closed,
        0 <= i < params.components@.len(),
        !(params.components@[i].kind is Receiver),
    ensures
        ({
            let talk = sequencer::stop_talk(params, StopState::fresh(mode), replies);
            exists|q: int| 0 <= q < talk.len() && is_end_of(params, i, #[trigger] talk[q])
        }),
{
    lemma_stop(params, mode, replies);
    let talk = sequencer::stop_talk(params, StopState::fresh(mode), replies);
    let w = lemma_watcher(params, i, params.components@.len() as int);
    lemma_shown(params, mode is Abort, talk, w);
}

// ---------------------------------------------------------------------
// Answers, links and waits
// ---------------------------------------------------------------------

/// A command has worked exactly where the component answered that it obeyed; else it is said which
/// component and which command it was, and why.
pub proof fn law_what_a_command_came_to(
    name: Seq<char>,
    command: CommandView,
    response: command::ResponseView,
    why: Seq<char>,
)
    ensures
        ({
            let r = sequencer::command_result(name, command, ReplyView::Command(Ok(response)));
            &&& response.success ==> r == Ok::<command::ResponseView, Seq<char>>(response)
            &&& !response.success ==> r == Err::<command::ResponseView, Seq<char>>(
                name + ": "@ + command.text() + " refused in state "@ + command::state_name(
                    response.state,
                ) + ": "@ + response.message,
            )
        }),
        sequencer::command_result(name, command, ReplyView::Command(Err(why))) == Err::<
            command::ResponseView,
            Seq<char>,
        >(name + ": "@ + command.text() + " unreachable: "@ + why),
{
}

/// A request to the electronics has worked exactly where they answered so, and then tells their
/// state; else it is said which request it was, and why.
pub proof fn law_what_the_electronics_came_to(
    action: Seq<char>,
    answer: controller::EccView,
    why: Seq<char>,
)
    ensures
        ({
            let r = sequencer::ecc_result(action, ReplyView::Ecc(Ok(answer)));
            &&& answer.ok ==> r == Ok::<Seq<char>, Seq<char>>(answer.state)
            &&& !answer.ok ==> r == Err::<Seq<char>, Seq<char>>(
                "ecc "@ + action + " failed in state "@ + answer.state + ": "@ + answer.error,
            )
        }),
        sequencer::ecc_result(action, ReplyView::Ecc(Err(why))) == Err::<Seq<char>, Seq<char>>(
            "ecc "@ + action + " unreachable: "@ + why,
        ),
{
}

/// The time that a component takes to arm counts from the answer before its first attempt to the
/// answer to its last, whatever lies between.
pub proof fn law_waits_are_timed(s: StartState, params: ControllerParams, reply: ReplyView, now: u64)
    requires
        s.wf(params),
        reply.answers(s.request(params)),
    ensures
        ({
            let t = s.after(params, reply, now);
            &&& (s.stage is Configure || s.stage is Arm) && (t.stage matches StartStage::Arm {
                began,
                attempt,
                ..
            } && attempt == 1) ==> t.stage->Arm_began == now
            &&& s.stage is Arm && t.stage is Pause ==> t.stage->Pause_began == s.stage->Arm_began
            &&& s.stage is Pause ==> t.stage is Arm && t.stage->Arm_began == s.stage->Pause_began
                && t.stage->Arm_i == s.stage->Pause_i
            &&& s.stage is Arm && t.retries.len() > s.retries.len() ==> {
                let r = t.retries.last();
                &&& t.retries == s.retries.push(r)
                &&& r.component == params.components@[s.stage->Arm_i].name@
                &&& now >= s.stage->Arm_began ==> r.waited_ms == now - s.stage->Arm_began
                &&& now < s.stage->Arm_began ==> r.waited_ms == 0
            }
        }),
{
}

/// The data links that the receivers' answers tell of are one for each receiver, in their order, as
/// each has answered; there are none where one has not.
pub proof fn law_links_are_those_of_the_receivers(params: ControllerParams, replies: Seq<ReplyView>)
    requires
        replies.len() <= params.components@.len(),
        sequencer::links_upto(params, replies) is Ok,
    ensures
        ({
            let links = sequencer::links_upto(params, replies)->Ok_0;
            let asked = chosen(params, replies.len() as int, true);
            &&& links.len() == asked.len()
            &&& forall|k: int|
                0 <= k < links.len() ==> is_link_of(
                    params,
                    #[trigger] asked[k],
                    replies,
                    links[k],
                )
        }),
    decreases replies.len(),
{
    if replies.len() > 0 {
        let before = replies.drop_last();
        let i = replies.len() - 1;
        law_links_are_those_of_the_receivers(params, before);
        let links = sequencer::links_upto(params, replies)->Ok_0;
        let old = sequencer::links_upto(params, before)->Ok_0;
        let asked = chosen(params, replies.len() as int, true);
        let fewer = chosen(params, before.len() as int, true);
        assert(params.parts()[i] == params.components@[i]@);
        lemma_chosen_below(params, before.len() as int, true);
        assert forall|k: int| 0 <= k < links.len() implies is_link_of(
            params,
            #[trigger] asked[k],
            replies,
            links[k],
        ) by {
            if k < old.len() {
                assert(is_link_of(params, fewer[k], before, old[k]));
                assert(asked[k] == fewer[k]);
                assert(links[k] == old[k]);
                assert(before[fewer[k]] == replies[fewer[k]]);
            }
        }
    }
}

/// Whether a link is what receiver `i` has answered.
pub open spec fn is_link_of(
    params: ControllerParams,
    i: int,
    replies: Seq<ReplyView>,
    link: LinkView,
) -> bool {
    &&& replies[i] matches ReplyView::Command(Ok(r)) && r.success && (
    params.components@[i].kind matches ComponentKind::Receiver { cobo_id } && controller::link_of(
        controller::text_of(params.router_ip),
        cobo_id,
        r.metrics,
    ) == Some(link))
}

proof fn lemma_chosen_below(params: ControllerParams, k: int, receivers: bool)
    requires
        0 <= k <= params.components@.len(),
    ensures
        forall|j: int|
            0 <= j < chosen(params, k, receivers).len() ==> 0 <= #[trigger] chosen(
                params,
                k,
                receivers,
            )[j] < k,
    decreases k,
{
    if k > 0 {
        lemma_chosen_below(params, k - 1, receivers);
        let all = chosen(params, k, receivers);
        let fewer = chosen(params, k - 1, receivers);
        assert forall|j: int| 0 <= j < all.len() implies 0 <= #[trigger] all[j] < k by {
            if j < fewer.len() {
                assert(all[j] == fewer[j]);
            }
        }
    }
}

/// Every component is asked for its status once, in order, and what it answers is what is told of
/// it; that one does not answer is noted, and noted once.
pub proof fn law_a_survey_asks_every_component(
    params: ControllerParams,
    replies: Seq<ReplyView>,
    i: int,
)
    requires
        replies.len() <= params.components@.len(),
        0 <= i < replies.len(),
        replies[i] is Command,
    ensures
        ({
            let talk = sequencer::survey_talk(params.parts(), replies);
            &&& talk.len() == replies.len()
            &&& talk[i] == (Exchange::Command {
                endpoint: params.components@[i].endpoint@,
                command: CommandView::GetStatus,
                reply: replies[i]->Command_0,
            })
            &&& tells_report(
                params,
                i,
                sequencer::surveyed(params.components@[i]@, replies[i]),
                replies[i]->Command_0,
            )
        }),
{
    assert(params.parts()[i] == params.components@[i]@);
}

/// A note is made once: where it is there already, nothing is added.
pub proof fn law_notes_are_made_once(notes: Seq<Seq<char>>, note: Seq<char>, other: Seq<char>)
    ensures
        sequencer::with_note(notes, note).contains(note),
        notes.contains(note) ==> sequencer::with_note(notes, note) == notes,
        !notes.contains(note) ==> sequencer::with_note(notes, note) == notes.push(note),
        notes.contains(other) ==> sequencer::with_note(notes, note).contains(other),
{
    let all = sequencer::with_note(notes, note);
    if !notes.contains(note) {
        assert(all[notes.len() as int] == note);
        if notes.contains(other) {
            let i = notes.index_of(other);
            assert(all[i] == other);
        }
    }
}

/// Why a run ended: an abort is told with its reason; a run whose streams were not shown to have
/// ended with that; one whose electronics did not stop with that; and any other ended normally.
pub proof fn law_why_a_run_ended(s: StopState, why: Seq<char>)
    ensures
        s.mode == controller::ModeView::Abort(why) ==> s.reason() == "abort:"@ + why,
        s.mode is Normal && !s.eos_closed ==> s.reason() == "error:eos-timeout"@,
        s.mode is Normal && s.eos_closed && s.ecc_failed ==> s.reason() == "abort:ecc-stop-failed"@,
        s.mode is Normal && s.eos_closed && !s.ecc_failed ==> s.reason() == "normal"@,
{
}

/// Streams that have not ended in time are noted, and are made to end; where they were made to
/// already, they are given no more time.
pub proof fn law_late_streams_are_noted(s: StopState, params: ControllerParams, waited: nat)
    requires
        !s.eos_closed,
    ensures
        ({
            let t = s.not_yet(params, waited);
            let limit = 1000 * params.eos_timeout.secs + params.eos_timeout.millis;
            let note = "EOS did not propagate within "@ + text::decimal(limit as nat) + " ms"@;
            &&& waited < limit ==> t.stage == (StopStage::Sleep { waited }) && t.notes == s.notes
            &&& waited >= limit ==> t.notes.contains(note) && t.forced_eos
        }),
{
    let limit = 1000 * params.eos_timeout.secs + params.eos_timeout.millis;
    let note = "EOS did not propagate within "@ + text::decimal(limit as nat) + " ms"@;
    law_notes_are_made_once(s.notes, note, note);
}

/// A component that does not answer while the streams are watched is noted by its name, and so is
/// one that does not say what it was asked for.
pub proof fn law_silent_components_are_noted(
    s: StopState,
    params: ControllerParams,
    i: int,
    waited: nat,
    why: Seq<char>,
    response: command::ResponseView,
)
    requires
        s.stage == (StopStage::Watch { i, waited }),
    ensures
        s.after(params, ReplyView::Command(Err(why))).notes.contains(
            params.components@[i].name@ + ": GetStatus failed: "@ + why,
        ),
        response.metrics is None ==> s.after(
            params,
            ReplyView::Command(Ok(response)),
        ).notes.contains(
            params.components@[i].name@ + ": GetStatus metrics has no "@ + (
            if params.components@[i].kind is Decoder {
                "eos_in"@
            } else {
                "files_open"@
            }),
        ),
{
    let name = params.components@[i].name@;
    let limit = 1000 * params.eos_timeout.secs + params.eos_timeout.millis;
    let late = "EOS did not propagate within "@ + text::decimal(limit as nat) + " ms"@;
    let a = name + ": GetStatus failed: "@ + why;
    let b = name + ": GetStatus metrics has no "@ + (if params.components@[i].kind is Decoder {
        "eos_in"@
    } else {
        "files_open"@
    });
    law_notes_are_made_once(s.notes, a, a);
    law_notes_are_made_once(s.notes, b, b);
    law_notes_are_made_once(sequencer::with_note(s.notes, a), late, a);
    law_notes_are_made_once(sequencer::with_note(s.notes, b), late, b);
}

/// What is said where no run is started: which part failed and why, and behind it what went wrong
/// while it was undone.
pub proof fn law_what_a_failed_start_says(f: sequencer::FailureView)
    ensures
        f.notes.len() == 0 ==> f.text() == f.stage + " stage failed: "@ + f.detail,
        f.notes.len() > 0 ==> f.text() == f.stage + " stage failed: "@ + f.detail + " (rollback: "@
            + text::join(f.notes, "; "@) + ")"@,
{
}

/// What is said where the electronics cannot be led back, or a component does not arm.
pub proof fn law_what_is_said_of_a_way_back(
    state: Seq<char>,
    action: Seq<char>,
    last: Seq<char>,
    ms: u64,
    trail: Seq<Seq<char>>,
)
    ensures
        sequencer::lost_message(state) == "ecc is in state "@ + state
            + " — refusing to start a run (cannot walk this state back to Idle)"@,
        sequencer::stuck_message(action, state) == "ecc "@ + action + " left the ECC in "@ + state
            + " — the real ECC ignores undefined transitions in silence; refusing to start a run"@,
        sequencer::gave_up(last, ms) == last + " (gave up after 6 attempts over "@ + text::decimal(
            ms as nat,
        ) + " ms)"@,
        sequencer::endless_message(state, trail) == "ecc did not reach Idle within 4 steps (stuck in "@
            + state + "; walked ["@ + text::join(
            trail.map_values(|p: Seq<char>| "\""@ + p + "\""@),
            ", "@,
        ) + "]) — refusing to start a run"@,
{
    assert(sequencer::quoted(trail) =~= trail.map_values(|p: Seq<char>| "\""@ + p + "\""@));
}

/// The reason of a failed start is that of the step that failed: a refusal by a component, a request
/// to the electronics that did not work, a state that there is no way back from, or a receiver that
/// names no port.
pub proof fn law_why_a_start_failed(s: StartState, params: ControllerParams, reply: ReplyView, now: u64)
    requires
        s.wf(params),
        !s.failed(),
        reply.answers(s.request(params)),
        s.after(params, reply, now).failed(),
    ensures
        ({
            let t = s.after(params, reply, now);
            match s.stage {
                StartStage::Configure { i } => Err::<command::ResponseView, Seq<char>>(t.detail)
                    == sequencer::command_result(
                    params.components@[i].name@,
                    s.request(params)->Command_command,
                    reply,
                ),
                StartStage::Start { i } => Err::<command::ResponseView, Seq<char>>(t.detail)
                    == sequencer::command_result(
                    params.components@[i].name@,
                    s.request(params)->Command_command,
                    reply,
                ),
                StartStage::Ecc { .. } => Err::<Seq<char>, Seq<char>>(t.detail)
                    == sequencer::ecc_result(s.request(params)->Ecc_0.action, reply),
                StartStage::Arm { i, attempt, began } => if obeys(reply->Command_0) {
                    t.detail == params.components@[i].name@
                        + ": "@ + "Arm response carries no router_port"@
                } else {
                    let why = sequencer::command_result(
                        params.components@[i].name@,
                        CommandView::Arm,
                        reply,
                    )->Err_0;
                    let waited = if now >= began {
                        (now - began) as nat
                    } else {
                        0
                    };
                    attempt == 6 && t.detail == why + " (gave up after 6 attempts over "@
                        + text::decimal(waited) + " ms)"@
                },
                _ => true,
            }
        }),
{
}

} // verus!

//! How a component answers to commands.

use vstd::prelude::*;

use crate::command;
use crate::command::{
    CommandView, ComponentState, HandlerView, MetricView, Outcome, TaskEvent, TaskStep, Work,
};
use crate::text;

verus! {

/// Which commands a state allows: a component is configured where it is idle or running, armed
/// where it is configured, started where it is armed, stopped where it is running or idle, and reset
/// where it is not idle.
pub proof fn law_which_commands_a_state_allows(
    state: ComponentState,
    run: u32,
    comment: Seq<char>,
    settings: Seq<(Seq<char>, Seq<char>)>,
)
    ensures
        ({
            let configure = CommandView::Configure { run_number: run, comment, config: settings };
            let start = CommandView::Start { run_number: run };
            let is_idle = state == ComponentState::Idle;
            let is_running = state == ComponentState::Running;
            &&& configure.target() matches Some(t) && (command::legal(state, t) <==> is_idle
                || is_running)
            &&& CommandView::Arm.target() matches Some(t) && (command::legal(state, t) <==> state
                == ComponentState::Configured)
            &&& start.target() matches Some(t) && (command::legal(state, t) <==> state
                == ComponentState::Armed)
            &&& CommandView::Stop.target() matches Some(t) && (command::legal(state, t)
                <==> is_idle || is_running)
            &&& CommandView::Reset.target() matches Some(t) && (command::legal(state, t)
                <==> !is_idle)
            &&& CommandView::GetStatus.target() is None
            &&& command::legal(state, ComponentState::Error) <==> !is_idle && state
                != ComponentState::Error
        }),
{
}

/// What a command leaves behind where its work is done: the state that it leads to; the number of
/// the run that it names, until the component is reset; a socket from the moment that it is armed
/// until it is started; and the address of the socket until it is stopped.
pub proof fn law_what_a_command_leaves(
    h: HandlerView,
    run: u32,
    comment: Seq<char>,
    settings: Seq<(Seq<char>, Seq<char>)>,
    address: String,
)
    ensures
        ({
            let configure = CommandView::Configure { run_number: run, comment, config: settings };
            let t = h.after(configure, Outcome::Done);
            &&& t.state == ComponentState::Configured
            &&& t.run_number == Some(run)
            &&& t.armed == h.armed
            &&& t.bind_address == h.bind_address
        }),
        ({
            let t = h.after(CommandView::Arm, Outcome::Bound(address));
            &&& t.state == ComponentState::Armed
            &&& t.run_number == h.run_number
            &&& t.armed
            &&& t.bind_address == Some(address@)
        }),
        ({
            let t = h.after(CommandView::Arm, Outcome::Done);
            &&& t.state == ComponentState::Armed
            &&& t.run_number == h.run_number
            &&& t.armed
            &&& t.bind_address == h.bind_address
        }),
        ({
            let t = h.after(CommandView::Start { run_number: run }, Outcome::Done);
            &&& t.state == ComponentState::Running
            &&& t.run_number == Some(run)
            &&& !t.armed
            &&& t.bind_address == h.bind_address
        }),
        ({
            let t = h.after(CommandView::Stop, Outcome::Done);
            &&& t.state == ComponentState::Configured
            &&& t.run_number == h.run_number
            &&& t.armed == h.armed
            &&& t.bind_address is None
        }),
        ({
            let t = h.after(CommandView::Reset, Outcome::Done);
            &&& t.state == ComponentState::Idle
            &&& t.run_number is None
            &&& !t.armed
            &&& t.bind_address is None
        }),
{
}

/// A command whose work fails changes nothing. One whose socket is lost leaves the component without
/// it, and a start then leaves the number of its run.
pub proof fn law_what_a_failure_leaves(h: HandlerView, command: CommandView, why: String)
    ensures
        h.after(command, Outcome::Failed(why)) == h,
        ({
            let t = h.after(command, Outcome::Lost(why));
            &&& t.state == h.state
            &&& !t.armed
            &&& t.bind_address == h.bind_address
            &&& t.run_number == match command {
                CommandView::Start { run_number } => Some(run_number),
                _ => h.run_number,
            }
        }),
{
}

/// A fault of the worker puts the component in error, unless it is idle.
pub proof fn law_faults_are_taken_note_of(h: HandlerView, errored: bool)
    ensures
        ({
            let t = h.latched(errored);
            &&& t.state == if errored && h.state != ComponentState::Idle {
                ComponentState::Error
            } else {
                h.state
            }
            &&& t.run_number == h.run_number
            &&& t.armed == h.armed
            &&& t.bind_address == h.bind_address
        }),
{
}

/// An answer tells the state and the run of the component, and carries no report of its own.
pub proof fn law_an_answer_tells_the_state(h: HandlerView, success: bool, message: Seq<char>)
    ensures
        ({
            let r = h.answer(success, message);
            &&& r.success == success
            &&& r.state == h.state
            &&& r.message == message
            &&& r.run_number == h.run_number
            &&& r.metrics is None
        }),
{
}

/// A report has the address of the socket behind what it held, where there is one.
pub proof fn law_a_report_has_the_address(h: HandlerView, report: Seq<(Seq<char>, MetricView)>)
    ensures
        ({
            let r = h.addressed(report);
            &&& r.len() == report.len() + 1
            &&& forall|i: int| 0 <= i < report.len() ==> r[i] == #[trigger] report[i]
            &&& r.last().0 == "bind_address"@
            &&& h.bind_address matches Some(a) ==> r.last().1 == MetricView::Text(a)
            &&& h.bind_address is None ==> r.last().1 is Other
        }),
{
}

/// Every command has work of its own, and a start the number of its run.
pub proof fn law_every_command_has_its_work(
    run: u32,
    comment: Seq<char>,
    settings: Seq<(Seq<char>, Seq<char>)>,
)
    ensures
        command::work_of(
            CommandView::Configure { run_number: run, comment, config: settings },
        ) == Work::Configure,
        command::work_of(CommandView::Arm) == Work::Arm,
        command::work_of(CommandView::Start { run_number: run }) == (Work::Start {
            run_number: run,
        }),
        command::work_of(CommandView::Stop) == Work::Stop,
        command::work_of(CommandView::Reset) == Work::Reset,
{
}

/// Commands are named in messages, and those that name a run with its number.
pub proof fn law_commands_are_named(
    run: u32,
    comment: Seq<char>,
    settings: Seq<(Seq<char>, Seq<char>)>,
)
    ensures
        (CommandView::Configure { run_number: run, comment, config: settings }).text()
            == "Configure(run="@ + text::decimal(run as nat) + ")"@,
        CommandView::Arm.text() == "Arm"@,
        (CommandView::Start { run_number: run }).text() == "Start(run="@ + text::decimal(run as nat)
            + ")"@,
        CommandView::Stop.text() == "Stop"@,
        CommandView::Reset.text() == "Reset"@,
        CommandView::GetStatus.text() == "GetStatus"@,
        command::state_name(ComponentState::Idle) == "Idle"@,
        command::state_name(ComponentState::Configured) == "Configured"@,
        command::state_name(ComponentState::Armed) == "Armed"@,
        command::state_name(ComponentState::Running) == "Running"@,
        command::state_name(ComponentState::Error) == "Error"@,
{
}

/// How the command task goes on: a command that was received is answered before the next is taken;
/// a socket that failed is bound anew; and a binding that failed is tried again after a pause.
pub proof fn law_how_the_command_task_goes_on()
    ensures
        command::step_after(TaskStep::Bind, TaskEvent::Done) == TaskStep::Receive,
        command::step_after(TaskStep::Receive, TaskEvent::Done) == TaskStep::Answer,
        command::step_after(TaskStep::Answer, TaskEvent::Done) == TaskStep::Receive,
        command::step_after(TaskStep::Answer, TaskEvent::Shutdown) == TaskStep::Answer,
        command::step_after(TaskStep::Receive, TaskEvent::Shutdown) == TaskStep::Stop,
        command::step_after(TaskStep::Wait, TaskEvent::Shutdown) == TaskStep::Stop,
        command::step_after(TaskStep::Bind, TaskEvent::Shutdown) == TaskStep::Bind,
        command::step_after(TaskStep::Receive, TaskEvent::Failed) == TaskStep::Bind,
        command::step_after(TaskStep::Answer, TaskEvent::Failed) == TaskStep::Bind,
        command::step_after(TaskStep::Bind, TaskEvent::Failed) == TaskStep::Wait,
        command::step_after(TaskStep::Wait, TaskEvent::Done) == TaskStep::Bind,
{
}

/// What is said to a command that the state does not allow, and to a start without a socket.
pub proof fn law_what_a_refused_command_is_told(from: ComponentState, to: ComponentState)
    ensures
        command::illegal_message(from, to) == "illegal transition "@ + command::state_name(from)
            + " -> "@ + command::state_name(to),
        command::no_socket_message() == "no PULL socket: Arm again before Start"@,
{
}

} // verus!

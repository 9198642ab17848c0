//! What operators ask for, what they are answered, and what is written down of it.
//!
//! Every request leaves one entry, whether it is met or turned down.

use vstd::prelude::*;

use crate::controller;
use crate::controller::{
    Control, ControlView, EccReply, EccRequest, EccRequestView, EccView, Phase, Refusal,
    RefusalView,
};
use crate::logbook;
use crate::logbook::{refused, AuditEntry, AuditValue, AuditView, EntryView};

verus! {

/// The entry for a request that was met, or of which it is said why it was not.
pub open spec fn told(
    action: Seq<char>,
    params: Seq<(Seq<char>, AuditView)>,
    operator: Seq<char>,
    error: Option<Seq<char>>,
) -> EntryView {
    EntryView { action, params, operator, ok: error is None, error }
}

/// The entry for a request that is turned down. Where the token did not count, nobody is named.
pub open spec fn turned_down(
    action: Seq<char>,
    params: Seq<(Seq<char>, AuditView)>,
    control: ControlView,
    refusal: RefusalView,
) -> EntryView {
    EntryView {
        action,
        params,
        operator: if refusal is Unauthorized {
            logbook::NOBODY@
        } else {
            match control.operator() {
                Some(name) => name,
                None => Seq::empty(),
            }
        },
        ok: false,
        error: Some(refusal.why_of()),
    }
}

fn no_params() -> (params: Vec<(String, AuditValue)>)
    ensures
        logbook::param_views(params@) == Seq::<(Seq<char>, AuditView)>::empty(),
{
    let params: Vec<(String, AuditValue)> = Vec::new();
    assert(logbook::param_views(params@) =~= Seq::empty());
    params
}

fn one_param(name: &str, value: AuditValue) -> (params: Vec<(String, AuditValue)>)
    ensures
        logbook::param_views(params@) == seq![(name@, value@)],
{
    let mut params: Vec<(String, AuditValue)> = Vec::new();
    params.push((name.to_string(), value));
    assert(logbook::param_views(params@) =~= seq![(name@, value@)]);
    params
}

fn deny(
    control: &Control,
    action: &str,
    params: Vec<(String, AuditValue)>,
    refusal: &Refusal,
) -> (entry: AuditEntry)
    ensures
        entry@ == turned_down(
            action@,
            logbook::param_views(params@),
            control@,
            refusal@,
        ),
{
    match control.operator() {
        Some(name) => refused(action, params, name.as_str(), refusal),
        None => {
            let nobody: String = String::new();
            assert(nobody@ =~= Seq::empty());
            refused(action, params, nobody.as_str(), refusal)
        },
    }
}

/// Who operated before, as it is written down.
pub open spec fn preempted_view(before: Option<Seq<char>>) -> AuditView {
    match before {
        Some(name) => AuditView::Text(name),
        None => AuditView::Null,
    }
}

/// A request to take control. Whoever knows the passphrase gets it, with `token`, and takes it from
/// whoever had it.
pub fn acquire(
    control: &mut Control,
    expected: &str,
    passphrase: &str,
    operator: &str,
    token: &str,
) -> (r: (Result<Option<String>, Refusal>, AuditEntry))
    ensures
        expected@ != passphrase@ ==> {
            &&& *final(control) == *old(control)
            &&& r.0 matches Err(e) && e@ == RefusalView::Forbidden("wrong passphrase"@)
            &&& r.1@ == told(
                "control/acquire"@,
                seq![("operator"@, AuditView::Text(operator@))],
                operator@,
                Some("wrong passphrase"@),
            )
        },
        expected@ == passphrase@ ==> {
            &&& final(control)@ == (ControlView {
                session: Some((token@, operator@)),
                ..old(control)@
            })
            &&& r.0 matches Ok(before) && controller::text_of(before) == old(control)@.operator()
            &&& r.1@ == told(
                "control/acquire"@,
                seq![
                    ("operator"@, AuditView::Text(operator@)),
                    ("preempted"@, preempted_view(old(control)@.operator())),
                ],
                operator@,
                None,
            )
        },
{
    let mut params: Vec<(String, AuditValue)> = one_param(
        "operator",
        AuditValue::Text(operator.to_string()),
    );
    match control.acquire(expected, passphrase, operator, token) {
        Err(refusal) => {
            let entry = AuditEntry {
                action: "control/acquire".to_string(),
                params,
                operator: operator.to_string(),
                ok: false,
                error: Some(refusal.why().clone()),
            };
            (Err(refusal), entry)
        },
        Ok(before) => {
            let value: AuditValue = match &before {
                Some(name) => AuditValue::Text(name.clone()),
                None => AuditValue::Null,
            };
            let ghost first = logbook::param_views(params@);
            params.push(("preempted".to_string(), value));
            assert(logbook::param_views(params@) =~= first.push(("preempted"@, value@)));
            assert(logbook::param_views(params@) =~= seq![
                ("operator"@, AuditView::Text(operator@)),
                ("preempted"@, preempted_view(old(control)@.operator())),
            ]);
            let entry = AuditEntry {
                action: "control/acquire".to_string(),
                params,
                operator: operator.to_string(),
                ok: true,
                error: None,
            };
            (Ok(before), entry)
        },
    }
}

/// A request to let control go.
pub fn release(control: &mut Control, token: &str) -> (r: (Result<String, Refusal>, AuditEntry))
    ensures
        match old(control)@.objection(token@) {
            None => {
                &&& final(control)@ == (ControlView { session: None, ..old(control)@ })
                &&& r.0 matches Ok(name) && Some(name@) == old(control)@.operator()
                &&& r.1@ == told(
                    "control/release"@,
                    Seq::empty(),
                    old(control)@.operator()->0,
                    None,
                )
            },
            Some(why) => {
                &&& *final(control) == *old(control)
                &&& r.0 matches Err(e) && e@ == RefusalView::Unauthorized(why)
                &&& r.1@ == turned_down(
                    "control/release"@,
                    Seq::empty(),
                    old(control)@,
                    RefusalView::Unauthorized(why),
                )
            },
        },
{
    match control.release(token) {
        Err(refusal) => {
            let entry = deny(control, "control/release", no_params(), &refusal);
            (Err(refusal), entry)
        },
        Ok(operator) => {
            let entry = AuditEntry {
                action: "control/release".to_string(),
                params: no_params(),
                operator: operator.clone(),
                ok: true,
                error: None,
            };
            (Ok(operator), entry)
        },
    }
}

/// A request to start a run. What comes of the start is written down when it is over.
pub fn run_start(control: &mut Control, token: &str, comment: &str) -> (r: Result<
    String,
    (Refusal, AuditEntry),
>)
    ensures
        match old(control)@.start_refusal(token@) {
            None => {
                &&& final(control)@ == (ControlView { phase: Phase::Starting, ..old(control)@ })
                &&& r matches Ok(name) && Some(name@) == old(control)@.operator()
            },
            Some(refusal) => {
                &&& *final(control) == *old(control)
                &&& r matches Err(e) && e.0@ == refusal && e.1@ == turned_down(
                    "run/start"@,
                    seq![("comment"@, AuditView::Text(comment@))],
                    old(control)@,
                    refusal,
                )
            },
        },
{
    match control.begin_start(token) {
        Ok(operator) => Ok(operator),
        Err(refusal) => {
            let params = one_param("comment", AuditValue::Text(comment.to_string()));
            let entry = deny(control, "run/start", params, &refusal);
            Err((refusal, entry))
        },
    }
}

/// A request to stop the run. What comes of the stop is written down when it is over.
pub fn run_stop(control: &mut Control, token: &str) -> (r: Result<String, (Refusal, AuditEntry)>)
    ensures
        match old(control)@.stop_refusal(token@) {
            None => {
                &&& final(control)@ == (ControlView { phase: Phase::Stopping, ..old(control)@ })
                &&& r matches Ok(name) && Some(name@) == old(control)@.operator()
            },
            Some(refusal) => {
                &&& *final(control) == *old(control)
                &&& r matches Err(e) && e.0@ == refusal && e.1@ == turned_down(
                    "run/stop"@,
                    Seq::empty(),
                    old(control)@,
                    refusal,
                )
            },
        },
{
    match control.begin_stop(token) {
        Ok(operator) => Ok(operator),
        Err(refusal) => {
            let entry = deny(control, "run/stop", no_params(), &refusal);
            Err((refusal, entry))
        },
    }
}

/// What is written down of the number that was asked for: nothing where the token did not count,
/// the number where it is one, and what was sent where it is none.
pub open spec fn next_params(
    refusal: RefusalView,
    next_run: Option<u64>,
    shown: Seq<char>,
) -> Seq<(Seq<char>, AuditView)> {
    match refusal {
        RefusalView::Unauthorized(_) => Seq::empty(),
        RefusalView::BadRequest(_) => seq![("next_run"@, AuditView::Sent(shown))],
        _ => seq![("next_run"@, AuditView::Uint(next_run->0))],
    }
}

/// A request to set the number of the next run. `next_run` is what was asked for, where that is a
/// whole number that is not negative, and `shown` is how it was written. What comes of setting it
/// is for [`next_run_set`] to write down.
pub fn run_next(control: &Control, token: &str, next_run: Option<u64>, shown: &str) -> (r: Result<
    (String, u32),
    (Refusal, AuditEntry),
>)
    ensures
        match control@.next_refusal(token@, next_run, shown@) {
            None => r matches Ok(p) && Some(p.0@) == control@.operator() && next_run == Some(
                p.1 as u64,
            ),
            Some(refusal) => r matches Err(e) && e.0@ == refusal && e.1@ == turned_down(
                "run/next"@,
                next_params(refusal, next_run, shown@),
                control@,
                refusal,
            ),
        },
{
    match control.check_next(token, next_run, shown) {
        Ok(p) => Ok(p),
        Err(refusal) => {
            let params: Vec<(String, AuditValue)> = match &refusal {
                Refusal::Unauthorized(_) => no_params(),
                Refusal::BadRequest(_) => one_param(
                    "next_run",
                    AuditValue::Sent(shown.to_string()),
                ),
                _ => match next_run {
                    Some(n) => one_param("next_run", AuditValue::Uint(n)),
                    None => no_params(),
                },
            };
            let entry = deny(control, "run/next", params, &refusal);
            Err((refusal, entry))
        },
    }
}

/// The entry for a number that was set, or could not be for the reason `problem`. With it comes the
/// reason as the operator is told.
pub fn next_run_set(next_run: u32, operator: &str, problem: Option<&str>) -> (r: (
    AuditEntry,
    Option<String>,
))
    ensures
        ({
            let why = match problem {
                Some(p) => Some("cannot persist next_run: "@ + p@),
                None => None,
            };
            &&& r.0@ == told(
                "run/next"@,
                seq![("next_run"@, AuditView::Uint(next_run as u64))],
                operator@,
                why,
            )
            &&& controller::text_of(r.1) == why
        }),
{
    let why: Option<String> = match problem {
        Some(p) => {
            let mut s: String = "cannot persist next_run: ".to_string();
            s.append(p);
            Some(s)
        },
        None => None,
    };
    let entry = AuditEntry {
        action: "run/next".to_string(),
        params: one_param("next_run", AuditValue::Uint(next_run as u64)),
        operator: operator.to_string(),
        ok: why.is_none(),
        error: why.clone(),
    };
    (entry, why)
}

/// How a request to the electronics is named.
pub open spec fn ecc_name(action: Seq<char>) -> Seq<char> {
    "ecc/"@ + action
}

fn ecc_name_of(action: &str) -> (s: String)
    ensures
        s@ == ecc_name(action@),
{
    let mut s: String = "ecc/".to_string();
    s.append(action);
    s
}

/// A request to the electronics.
pub fn ecc(control: &Control, token: &str, action: &str) -> (r: Result<
    String,
    (Refusal, AuditEntry),
>)
    ensures
        match control@.ecc_refusal(token@, action@) {
            None => r matches Ok(name) && Some(name@) == control@.operator(),
            Some(refusal) => r matches Err(e) && e.0@ == refusal && e.1@ == turned_down(
                ecc_name(action@),
                Seq::empty(),
                control@,
                refusal,
            ),
        },
{
    match control.check_ecc(token, action) {
        Ok(operator) => Ok(operator),
        Err(refusal) => {
            let name: String = ecc_name_of(action);
            let entry = deny(control, name.as_str(), no_params(), &refusal);
            Err((refusal, entry))
        },
    }
}

/// A request to the electronics, as it is written down.
pub open spec fn request_params(request: EccRequestView) -> Seq<(Seq<char>, AuditView)> {
    seq![("action"@, AuditView::Text(request.action))] + match request.config_id {
        Some(id) => seq![("config_id"@, AuditView::Text(id))],
        None => Seq::empty(),
    } + match request.links {
        Some(links) => seq![("links"@, AuditView::Items(links))],
        None => Seq::empty(),
    }
}

fn params_of_request(request: &EccRequest) -> (params: Vec<(String, AuditValue)>)
    ensures
        logbook::param_views(params@) == request_params(request@),
{
    let mut params: Vec<(String, AuditValue)> = one_param(
        "action",
        AuditValue::Text(request.action.clone()),
    );
    let ghost first = logbook::param_views(params@);
    if let Some(id) = &request.config_id {
        params.push(("config_id".to_string(), AuditValue::Text(id.clone())));
    }
    let ghost second = logbook::param_views(params@);
    assert(second =~= first + match request@.config_id {
        Some(id) => seq![("config_id"@, AuditView::Text(id))],
        None => Seq::empty(),
    });
    if let Some(links) = &request.links {
        let items: Vec<controller::LinkItem> = copy_items(links);
        params.push(("links".to_string(), AuditValue::Items(items)));
    }
    assert(logbook::param_views(params@) =~= second + match request@.links {
        Some(links) => seq![("links"@, AuditView::Items(links))],
        None => Seq::empty(),
    });
    params
}

fn copy_items(links: &Vec<controller::LinkItem>) -> (out: Vec<controller::LinkItem>)
    ensures
        out@.map_values(|i: controller::LinkItem| i@) == links@.map_values(
            |i: controller::LinkItem| i@,
        ),
{
    let mut out: Vec<controller::LinkItem> = Vec::new();
    let mut i: usize = 0;
    while i < links.len()
        invariant
            i <= links@.len(),
            out@.len() == i,
            forall|k: int| 0 <= k < i ==> (#[trigger] out@[k])@ == links@[k]@,
        decreases links@.len() - i,
    {
        out.push(
            controller::LinkItem {
                sender: links[i].sender.clone(),
                router_ip: links[i].router_ip.clone(),
                router_port: links[i].router_port,
                flow_type: links[i].flow_type.clone(),
            },
        );
        i = i + 1;
    }
    assert(out@.map_values(|i: controller::LinkItem| i@) =~= links@.map_values(
        |i: controller::LinkItem| i@,
    ));
    out
}

/// Why a request to the electronics came to nothing, if it did.
pub open spec fn ecc_problem(reply: Result<EccView, Seq<char>>) -> Option<Seq<char>> {
    match reply {
        Ok(answer) => if answer.ok {
            None
        } else {
            Some(answer.error)
        },
        Err(why) => Some(why),
    }
}

/// The value of what the electronics answer.
pub open spec fn reply_view(reply: Result<EccReply, String>) -> Result<EccView, Seq<char>> {
    match reply {
        Ok(answer) => Ok(answer@),
        Err(why) => Err(why@),
    }
}

/// The entry for a request that the electronics answered, or did not.
pub fn ecc_answered(
    action: &str,
    request: &EccRequest,
    operator: &str,
    reply: &Result<EccReply, String>,
) -> (entry: AuditEntry)
    ensures
        entry@ == told(
            ecc_name(action@),
            request_params(request@),
            operator@,
            ecc_problem(reply_view(*reply)),
        ),
{
    let error: Option<String> = match reply {
        Ok(answer) => if answer.ok {
            None
        } else {
            Some(answer.error.clone())
        },
        Err(why) => Some(why.clone()),
    };
    AuditEntry {
        action: ecc_name_of(action),
        params: params_of_request(request),
        operator: operator.to_string(),
        ok: error.is_none(),
        error,
    }
}

/// The entry for a request that could not be put to the electronics.
pub fn ecc_not_asked(action: &str, operator: &str, why: &str) -> (entry: AuditEntry)
    ensures
        entry@ == told(ecc_name(action@), Seq::empty(), operator@, Some(why@)),
{
    AuditEntry {
        action: ecc_name_of(action),
        params: no_params(),
        operator: operator.to_string(),
        ok: false,
        error: Some(why.to_string()),
    }
}

/// What is turned down is answered with a code of its own for each reason, and never with that of
/// success; it is written down as turned down, with the reason that the operator is told.
pub proof fn law_refusals_are_told(
    action: Seq<char>,
    params: Seq<(Seq<char>, AuditView)>,
    control: ControlView,
    refusal: RefusalView,
)
    ensures
        refusal.code_of() != 200,
        refusal.code_of() == 401 <==> refusal is Unauthorized,
        refusal.code_of() == 409 <==> refusal is Conflict,
        !turned_down(action, params, control, refusal).ok,
        turned_down(action, params, control, refusal).error == Some(refusal.why_of()),
{
}

} // verus!

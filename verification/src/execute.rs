//! Dispatch decisions for one tool call: its wall-clock budget, the gates
//! it must pass, and the answer when a signal or the deadline ends it
//! before the tool does. Racing the futures stays with the caller.

use vstd::prelude::*;
use crate::bash::BASH_TIMEOUT_SECS;
use crate::latent::{is_latent, latent_execution_allowed, opt_view, unlocked_tools_of};
use crate::text::{decimal, push_str, str_eq};

verus! {

/// Safety-net deadline of a leaf tool, in seconds.
pub const DEFAULT_TOOL_TIMEOUT_SECS: u64 = 600;

/// The budget of tool `name` in seconds: none for `bash` (it has its own
/// deadline and backgrounds long commands) and `question` (it waits for a
/// human); the bash budget for `read`, `edit`, `search`; the safety net
/// otherwise.
pub open spec fn leaf_timeout(name: Seq<char>) -> Option<u64> {
    if name == "bash"@ || name == "question"@ {
        None
    } else if name == "read"@ || name == "edit"@ || name == "search"@ {
        Some(BASH_TIMEOUT_SECS)
    } else {
        Some(DEFAULT_TOOL_TIMEOUT_SECS)
    }
}

pub fn leaf_tool_timeout(name: &str) -> (r: Option<u64>)
    ensures
        r == leaf_timeout(name@),
{
    if str_eq(name, "bash") || str_eq(name, "question") {
        None
    } else if str_eq(name, "read") || str_eq(name, "edit") || str_eq(name, "search") {
        Some(BASH_TIMEOUT_SECS)
    } else {
        Some(DEFAULT_TOOL_TIMEOUT_SECS)
    }
}

/// A duration of `ms` milliseconds, compactly: whole seconds from one
/// second up, milliseconds below.
pub open spec fn dur_text(ms: u64) -> Seq<char> {
    if ms >= 1000 {
        decimal((ms / 1000) as nat) + "s"@
    } else {
        decimal(ms as nat) + "ms"@
    }
}

pub fn fmt_dur(ms: u64) -> (r: String)
    ensures
        r@ == dur_text(ms),
{
    let mut out = String::new();
    if ms >= 1000 {
        crate::text::push_decimal(&mut out, ms / 1000);
        push_str(&mut out, "s");
    } else {
        crate::text::push_decimal(&mut out, ms);
        push_str(&mut out, "ms");
    }
    out
}

/// Refusal for a latent tool whose owning skill is not active.
pub open spec fn latent_refusal(name: Seq<char>) -> Seq<char> {
    "tool `"@ + name + "` is latent and its owning skill is not active; activate the skill (e.g. `$task-plan`) before calling it"@
}

/// The latent gate: a latent tool runs only while the skill body unlocks
/// it, except a `question` asked on a hub with a listener attached (a
/// live human channel). `Some` holds the refusal.
pub fn latent_gate(name: &str, skill_body: Option<&str>, question_attached: bool) -> (r: Option<String>)
    ensures
        r is None <==> ((!is_latent(name@) || unlocked_tools_of(opt_view(skill_body)).contains(name@)) || (
        name@ == "question"@ && question_attached)),
        r matches Some(m) ==> m@ == latent_refusal(name@),
{
    let unlocked = latent_execution_allowed(name, skill_body);
    let interactive_ask = str_eq(name, "question") && question_attached;
    if !unlocked && !interactive_ask {
        let mut m = String::new();
        push_str(&mut m, "tool `");
        push_str(&mut m, name);
        push_str(&mut m, "` is latent and its owning skill is not active; activate the skill (e.g. `$task-plan`) before calling it");
        Some(m)
    } else {
        None
    }
}

/// Answer for a call of a tool the registry does not hold.
pub fn unknown_tool(name: &str) -> (r: String)
    ensures
        r@ == "unknown tool: "@ + name@,
{
    let mut m = String::new();
    push_str(&mut m, "unknown tool: ");
    push_str(&mut m, name);
    m
}

/// What ends a leaf tool call first, in priority order.
#[derive(Debug, Clone, Copy, PartialEq, Eq)]
pub enum LeafEnd {
    Interrupted,
    TurnInterrupted,
    TimedOut,
    Finished,
}

/// The signals that are ready when the call is polled, resolved in the
/// order hard cancel, turn cancel, deadline, the tool itself.
pub fn leaf_winner(cancelled: bool, turn_cancelled: bool, deadline_passed: bool) -> (r: LeafEnd)
    ensures
        cancelled ==> r == LeafEnd::Interrupted,
        !cancelled && turn_cancelled ==> r == LeafEnd::TurnInterrupted,
        !cancelled && !turn_cancelled && deadline_passed ==> r == LeafEnd::TimedOut,
        !cancelled && !turn_cancelled && !deadline_passed ==> r == LeafEnd::Finished,
{
    if cancelled {
        LeafEnd::Interrupted
    } else if turn_cancelled {
        LeafEnd::TurnInterrupted
    } else if deadline_passed {
        LeafEnd::TimedOut
    } else {
        LeafEnd::Finished
    }
}

/// The error answer of a leaf call that a signal or its deadline ended.
pub open spec fn leaf_error_text(end: LeafEnd, name: Seq<char>, budget_ms: u64) -> Option<Seq<char>> {
    match end {
        LeafEnd::Interrupted => Some("interrupted"@),
        LeafEnd::TurnInterrupted => Some("turn interrupted"@),
        LeafEnd::TimedOut => Some("tool `"@ + name + "` timed out after "@ + dur_text(budget_ms)
            + " without producing a result"@),
        LeafEnd::Finished => None,
    }
}

pub fn leaf_error(end: LeafEnd, name: &str, budget_ms: u64) -> (r: Option<String>)
    ensures
        match r {
            Some(m) => leaf_error_text(end, name@, budget_ms) == Some(m@),
            None => leaf_error_text(end, name@, budget_ms) is None,
        },
{
    match end {
        LeafEnd::Interrupted => Some("interrupted".to_string()),
        LeafEnd::TurnInterrupted => Some("turn interrupted".to_string()),
        LeafEnd::TimedOut => {
            let mut m = String::new();
            push_str(&mut m, "tool `");
            push_str(&mut m, name);
            push_str(&mut m, "` timed out after ");
            let d = fmt_dur(budget_ms);
            push_str(&mut m, d.as_str());
            push_str(&mut m, " without producing a result");
            Some(m)
        },
        LeafEnd::Finished => None,
    }
}

/// The signal that stopped waiting on a running subagent.
#[derive(Debug, Clone, Copy, PartialEq, Eq)]
pub enum TaskSignal {
    HardCancel,
    TurnCancel,
    Timeout,
}

/// The child's turn token is fired explicitly only for a turn interrupt
/// (a hard cancel already cascades to the child).
pub fn fires_child_turn_cancel(signal: TaskSignal) -> (b: bool)
    ensures
        b == (signal == TaskSignal::TurnCancel),
{
    match signal {
        TaskSignal::TurnCancel => true,
        _ => false,
    }
}

/// A timeout fires the child's hard token and marks the run as timed out
/// (not as redirected by the parent).
pub fn fires_child_cancel(signal: TaskSignal) -> (b: bool)
    ensures
        b == (signal == TaskSignal::Timeout),
{
    match signal {
        TaskSignal::Timeout => true,
        _ => false,
    }
}

/// The answer once the grace window after a signal is over: `None` keeps
/// the subagent's own answer (it finished its cleanup and was not timed
/// out); otherwise the error to return.
pub open spec fn task_end_text(signal: TaskSignal, drained: bool, task_ms: u64) -> Option<Seq<char>> {
    match signal {
        TaskSignal::Timeout => Some("subagent timed out after "@ + dur_text(task_ms) + " without completing"@),
        TaskSignal::TurnCancel => if drained { None } else { Some("turn interrupted"@) },
        TaskSignal::HardCancel => if drained { None } else { Some("interrupted"@) },
    }
}

pub fn task_end(signal: TaskSignal, drained: bool, task_ms: u64) -> (r: Option<String>)
    ensures
        match r {
            Some(m) => task_end_text(signal, drained, task_ms) == Some(m@),
            None => task_end_text(signal, drained, task_ms) is None,
        },
{
    match signal {
        TaskSignal::Timeout => {
            let mut m = String::new();
            push_str(&mut m, "subagent timed out after ");
            let d = fmt_dur(task_ms);
            push_str(&mut m, d.as_str());
            push_str(&mut m, " without completing");
            Some(m)
        },
        TaskSignal::TurnCancel => if drained { None } else { Some("turn interrupted".to_string()) },
        TaskSignal::HardCancel => if drained { None } else { Some("interrupted".to_string()) },
    }
}

} // verus!

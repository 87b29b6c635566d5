//! Decisions at the edges of a run: what a leading control command leaves
//! to run, the verbatim echo of a prompt, whether the active skill must be
//! persisted, how the run-end skill clear retries, and when the
//! repository-memory pass runs after a task and what it passes on.

use vstd::prelude::*;
use crate::event::{event_view, EventView, SessionEvent};
use crate::text::{chars_of, push_str, str_eq, trim, trim_range, starts_with, starts_with_in_range};

verus! {

/// What a run does after applying a leading control command.
#[derive(Debug, Clone)]
pub enum ControlOutcome {
    /// A bare command: clear the run's skill, send `Done`, stop.
    Stop,
    /// Go on with `prompt` (the command's rest, or empty); images are kept
    /// unless the command cleared the context with nothing to run.
    Run { prompt: String, keep_images: bool, handoff_pending: bool },
}

/// The run after a control command: a context clear that preserved a seed
/// (or plan directive) always goes on to a provider turn, with the rest of
/// the input when there is one and with nothing (images dropped) when
/// there is not; any other command with a rest runs the rest; a bare
/// command stops.
pub fn after_control_command(clears_context: bool, seed_preserved: bool, rest: Option<String>) -> (r: ControlOutcome)
    ensures
        (clears_context && seed_preserved) ==> (match rest {
            Some(t) => r matches ControlOutcome::Run { prompt, keep_images, handoff_pending } && prompt@ == t@ && keep_images
                && handoff_pending,
            None => r matches ControlOutcome::Run { prompt, keep_images, handoff_pending } && prompt@.len() == 0 && !keep_images
                && handoff_pending,
        }),
        !(clears_context && seed_preserved) ==> (match rest {
            Some(t) => r matches ControlOutcome::Run { prompt, keep_images, handoff_pending } && prompt@ == t@ && keep_images
                && !handoff_pending,
            None => r is Stop,
        }),
{
    if clears_context && seed_preserved {
        match rest {
            Some(t) => ControlOutcome::Run { prompt: t, keep_images: true, handoff_pending: true },
            None => ControlOutcome::Run { prompt: String::new(), keep_images: false, handoff_pending: true },
        }
    } else {
        match rest {
            Some(t) => ControlOutcome::Run { prompt: t, keep_images: true, handoff_pending: false },
            None => ControlOutcome::Stop,
        }
    }
}

/// The prompt as typed, kept for echoing when it is not blank.
pub fn verbatim_echo(raw: &str) -> (r: Option<String>)
    ensures
        trim(raw@).len() > 0 ==> (r matches Some(v) && v@ == raw@),
        trim(raw@).len() == 0 ==> r is None,
{
    let v = chars_of(raw);
    proof {
        assert(v@.subrange(0, v@.len() as int) =~= v@);
    }
    let (a, b) = trim_range(&v, 0, v.len());
    if a < b {
        Some(raw.to_string())
    } else {
        None
    }
}

pub open spec fn opt_view(o: Option<&str>) -> Option<Seq<char>> {
    match o {
        Some(s) => Some(s@),
        None => None,
    }
}

/// The active skill is written to the store only when it differs from the
/// skill before the step.
pub fn skill_changed(prev: Option<&str>, cur: Option<&str>) -> (b: bool)
    ensures
        b == (opt_view(prev) != opt_view(cur)),
{
    match (prev, cur) {
        (Some(p), Some(c)) => !str_eq(p, c),
        (None, None) => false,
        _ => true,
    }
}

/// What the run-end clear has to do.
#[derive(Debug, Clone, Copy, PartialEq, Eq)]
pub enum ClearWork {
    /// No active skill: nothing, not even a store write.
    Nothing,
    /// Clear the skill in memory (no store is attached).
    MemoryOnly,
    /// Clear it in memory and in the store.
    MemoryAndStore,
}

pub fn run_end_clear(has_skill: bool, has_store: bool) -> (r: ClearWork)
    ensures
        r == (if !has_skill {
            ClearWork::Nothing
        } else if has_store {
            ClearWork::MemoryAndStore
        } else {
            ClearWork::MemoryOnly
        }),
{
    if !has_skill {
        ClearWork::Nothing
    } else if has_store {
        ClearWork::MemoryAndStore
    } else {
        ClearWork::MemoryOnly
    }
}

/// The durable clear is tried this many times.
pub const CLEAR_ATTEMPTS: u32 = 3;

/// The pause after failed attempt `attempt`: 100 ms doubled per attempt,
/// none after the last.
pub fn clear_retry_delay_ms(attempt: u32) -> (r: Option<u64>)
    requires
        attempt < CLEAR_ATTEMPTS,
    ensures
        attempt + 1 < CLEAR_ATTEMPTS ==> r == Some((if attempt == 0 { 100u64 } else { 200u64 })),
        attempt + 1 >= CLEAR_ATTEMPTS ==> r is None,
{
    if attempt + 1 < CLEAR_ATTEMPTS {
        if attempt == 0 {
            Some(100)
        } else {
            Some(200)
        }
    } else {
        None
    }
}

/// The status shown when the durable clear could not land.
pub open spec fn clear_failed_status(err: Seq<char>) -> Seq<char> {
    "[skill] run ended but the persisted skill clear failed after retries: "@ + err
}

pub fn clear_failed_text(err: &str) -> (r: String)
    ensures
        r@ == clear_failed_status(err@),
{
    let mut r = String::new();
    push_str(&mut r, "[skill] run ended but the persisted skill clear failed after retries: ");
    push_str(&mut r, err);
    r
}

/// The skill the memory pass runs with.
pub const MEMORY_SKILL: &'static str = "repo-local-memory";

/// Statuses around the memory pass.
pub const MEMORY_STARTED: &'static str = "updating local memory";
pub const MEMORY_DONE: &'static str = "local memory updated";

/// The error when the memory skill is not installed.
pub const MEMORY_SKILL_MISSING: &'static str = "local-memory is enabled but repo-local-memory skill is missing";

/// Sessions of the memory pass carry this id prefix.
pub const MEMORY_SESSION_PREFIX: &'static str = "memory-";

/// A session may run the memory pass: enabled in the config, a primary
/// agent other than the workflow agent, and not itself a memory session.
pub fn memory_eligible(local_memory: bool, primary_agent: bool, agent_name: &str, session_id: &str) -> (b: bool)
    ensures
        b == (local_memory && primary_agent && agent_name@ != "workflow"@ && !starts_with(session_id@, MEMORY_SESSION_PREFIX@)),
{
    if !local_memory || !primary_agent || str_eq(agent_name, "workflow") {
        return false;
    }
    let v = chars_of(session_id);
    let p = chars_of(MEMORY_SESSION_PREFIX);
    proof {
        assert(v@.subrange(0, v@.len() as int) =~= v@);
    }
    !starts_with_in_range(&v, 0, v.len(), p.as_slice())
}

/// The memory pass runs after a task that was not cancelled and produced
/// an assistant message since `baseline` (clamped to the transcript).
pub fn memory_due(eligible: bool, cancelled: bool, assistant: &[bool], baseline: usize) -> (b: bool)
    ensures
        b == (eligible && !cancelled && exists|k: int|
            (if baseline <= assistant@.len() { baseline as int } else { assistant@.len() as int }) <= k < assistant@.len()
                && assistant@[k]),
{
    if !eligible || cancelled {
        return false;
    }
    let mut k: usize = if baseline <= assistant.len() {
        baseline
    } else {
        assistant.len()
    };
    let ghost start = k;
    while k < assistant.len()
        invariant
            eligible && !cancelled,
            start <= k <= assistant@.len(),
            start == (if baseline <= assistant@.len() { baseline as int } else { assistant@.len() as int }),
            forall|j: int| start <= j < k ==> !assistant@[j],
        decreases assistant.len() - k,
    {
        if assistant[k] {
            proof {
                assert(assistant@[k as int]);
            }
            return true;
        }
        k += 1;
    }
    false
}

/// What the memory pass does with an event of its child run.
#[derive(Debug, Clone)]
pub enum ChildRoute {
    /// Pass token usage on to the parent.
    Forward,
    /// Keep the error: the pass then fails with it.
    Capture(String),
    /// Everything else stays inside the pass.
    Drop,
}

pub fn memory_child_route(ev: &SessionEvent) -> (r: ChildRoute)
    ensures
        event_view(*ev) is LlmUsage ==> r is Forward,
        event_view(*ev) matches EventView::Error(e) ==> (r matches ChildRoute::Capture(m) && m@ == e),
        !(event_view(*ev) is LlmUsage) && !(event_view(*ev) is Error) ==> r is Drop,
{
    match ev {
        SessionEvent::LlmUsage { .. } => ChildRoute::Forward,
        SessionEvent::Error(e) => ChildRoute::Capture(e.clone()),
        _ => ChildRoute::Drop,
    }
}

/// The error a failed memory pass ends with.
pub open spec fn memory_failed(err: Seq<char>) -> Seq<char> {
    "local-memory update failed: "@ + err
}

pub fn memory_failed_text(err: &str) -> (r: String)
    ensures
        r@ == memory_failed(err@),
{
    let mut r = String::new();
    push_str(&mut r, "local-memory update failed: ");
    push_str(&mut r, err);
    r
}

} // verus!

//! Turn-boundary decisions of the run loop: matching promoted inputs to
//! their rows, whether a drain step proceeds to the model, loops or goes
//! idle, and whether a run starts in drain mode. Reading and writing the
//! store stay with the caller.

use vstd::prelude::*;
use crate::sidecar::Role;
use crate::steer_gate::IdleDecision;
use crate::text::{push_str, starts_with_in_range, chars_of};

verus! {

/// Consecutive drain steps that consume without a model call before the
/// loop stops.
pub const MAX_CONSUME_STREAK: u32 = 32;

/// Re-checks for inputs admitted while the loop was going idle.
pub const MAX_RECHECKS: u32 = 3;

/// A pending input row: its sequence number (when stored), prompt and
/// images.
#[derive(Debug, Clone)]
pub struct SessionInput {
    pub seq: Option<i64>,
    pub prompt: String,
    pub images: Vec<String>,
}

/// The first row of `pending` with sequence number `seq`.
pub open spec fn row_with(pending: Seq<SessionInput>, seq: i64) -> Option<int> {
    if exists|k: int| 0 <= k < pending.len() && pending[k].seq == Some(seq) {
        Some(choose|k: int|
            0 <= k < pending.len() && pending[k].seq == Some(seq) && forall|j: int| 0 <= j < k ==> pending[j].seq != Some(seq))
    } else {
        None
    }
}

/// Each promoted sequence number paired with its row's prompt and images,
/// in promotion order; numbers whose row vanished are skipped.
pub open spec fn matched(pending: Seq<SessionInput>, promoted: Seq<i64>) -> Seq<(i64, Seq<char>, Seq<String>)>
    decreases promoted.len(),
{
    if promoted.len() == 0 {
        Seq::empty()
    } else {
        let rest = matched(pending, promoted.drop_last());
        let seq = promoted.last();
        match row_with(pending, seq) {
            Some(k) => rest.push((seq, pending[k].prompt@, pending[k].images@)),
            None => rest,
        }
    }
}

fn find_row(pending: &[SessionInput], seq: i64) -> (r: Option<usize>)
    ensures
        match r {
            Some(k) => row_with(pending@, seq) == Some(k as int) && k < pending@.len(),
            None => row_with(pending@, seq) is None,
        },
{
    let mut k: usize = 0;
    while k < pending.len()
        invariant
            k <= pending@.len(),
            forall|j: int| 0 <= j < k ==> pending@[j].seq != Some(seq),
        decreases pending.len() - k,
    {
        let hit = match pending[k].seq {
            Some(s) => s == seq,
            None => false,
        };
        if hit {
            proof {
                let w = choose|w: int|
                    0 <= w < pending@.len() && pending@[w].seq == Some(seq) && forall|j: int| 0 <= j < w ==> pending@[j].seq != Some(seq);
                if w < k {
                } else if w > k {
                }
            }
            return Some(k);
        }
        k += 1;
    }
    None
}

fn clone_images(v: &Vec<String>) -> (r: Vec<String>)
    ensures
        r@ == v@,
{
    let mut r: Vec<String> = Vec::new();
    let mut i: usize = 0;
    while i < v.len()
        invariant
            i <= v@.len(),
            r@ == v@.take(i as int),
        decreases v.len() - i,
    {
        r.push(v[i].clone());
        assert(r@ =~= v@.take(i + 1));
        i += 1;
    }
    assert(v@.take(v@.len() as int) =~= v@);
    r
}

/// Match promoted sequence numbers to their rows by identity, not position.
pub fn match_promoted(pending: &[SessionInput], promoted_seqs: &[i64]) -> (r: Vec<(i64, String, Vec<String>)>)
    ensures
        r@.len() == matched(pending@, promoted_seqs@).len(),
        forall|k: int|
            0 <= k < r@.len() ==> (#[trigger] r@[k]).0 == matched(pending@, promoted_seqs@)[k].0 && r@[k].1@
                == matched(pending@, promoted_seqs@)[k].1 && r@[k].2@ == matched(pending@, promoted_seqs@)[k].2,
{
    let mut r: Vec<(i64, String, Vec<String>)> = Vec::new();
    let mut i: usize = 0;
    while i < promoted_seqs.len()
        invariant
            i <= promoted_seqs@.len(),
            r@.len() == matched(pending@, promoted_seqs@.take(i as int)).len(),
            forall|k: int|
                0 <= k < r@.len() ==> (#[trigger] r@[k]).0 == matched(pending@, promoted_seqs@.take(i as int))[k].0
                    && r@[k].1@ == matched(pending@, promoted_seqs@.take(i as int))[k].1 && r@[k].2@ == matched(
                    pending@,
                    promoted_seqs@.take(i as int),
                )[k].2,
        decreases promoted_seqs.len() - i,
    {
        let seq = promoted_seqs[i];
        assert(promoted_seqs@.take(i + 1).drop_last() =~= promoted_seqs@.take(i as int));
        match find_row(pending, seq) {
            Some(k) => {
                let prompt = pending[k].prompt.clone();
                let images = clone_images(&pending[k].images);
                r.push((seq, prompt, images));
            },
            None => {},
        }
        i += 1;
    }
    assert(promoted_seqs@.take(promoted_seqs@.len() as int) =~= promoted_seqs@);
    r
}

/// What a drain-mode step does next.
#[derive(Debug, Clone, Copy, PartialEq, Eq)]
pub enum DrainModeAction {
    /// Call the model.
    Proceed,
    /// Loop back and consume the next input.
    ConsumeNext,
    /// Go idle.
    Idle,
}

/// What popping one queued input found.
#[derive(Debug, Clone, Copy, PartialEq, Eq)]
pub enum DrainOutcome {
    /// A prompt was recorded.
    Prompt,
    /// A bare control command was applied.
    ControlCmd,
    /// The queue was empty.
    Empty,
}

/// The transcript awaits a model answer: it ends with a tool result, or
/// with a user message that is not the fresh-start sentinel of a cleared
/// context.
pub open spec fn awaits_answer(last: Option<Role>, clear_context_handoff: bool) -> bool {
    match last {
        Some(Role::Tool) => true,
        Some(Role::User) => !clear_context_handoff,
        _ => false,
    }
}

/// A drain-mode step after popping found `outcome`: a prompt goes to the
/// model and a bare command loops back; on an empty queue a late steer or
/// queued input loops back first, then an unanswered transcript goes to the
/// model, then a subagent's steer barrier decides (no barrier: idle).
pub open spec fn drain_mode_action(
    outcome: DrainOutcome,
    last: Option<Role>,
    clear_context_handoff: bool,
    late_pending: bool,
    settle: Option<IdleDecision>,
) -> DrainModeAction {
    match outcome {
        DrainOutcome::Prompt => DrainModeAction::Proceed,
        DrainOutcome::ControlCmd => DrainModeAction::ConsumeNext,
        DrainOutcome::Empty => if late_pending {
            DrainModeAction::ConsumeNext
        } else if awaits_answer(last, clear_context_handoff) {
            DrainModeAction::Proceed
        } else {
            match settle {
                Some(IdleDecision::Continue) => DrainModeAction::ConsumeNext,
                _ => DrainModeAction::Idle,
            }
        },
    }
}

pub fn drain_mode_step(
    outcome: DrainOutcome,
    last: Option<Role>,
    clear_context_handoff: bool,
    late_pending: bool,
    settle: Option<IdleDecision>,
) -> (r: DrainModeAction)
    ensures
        r == drain_mode_action(outcome, last, clear_context_handoff, late_pending, settle),
{
    match outcome {
        DrainOutcome::Prompt => DrainModeAction::Proceed,
        DrainOutcome::ControlCmd => DrainModeAction::ConsumeNext,
        DrainOutcome::Empty => {
            let needs_llm = match last {
                Some(Role::Tool) => true,
                Some(Role::User) => !clear_context_handoff,
                _ => false,
            };
            if late_pending {
                DrainModeAction::ConsumeNext
            } else if needs_llm {
                DrainModeAction::Proceed
            } else {
                match settle {
                    Some(IdleDecision::Continue) => DrainModeAction::ConsumeNext,
                    _ => DrainModeAction::Idle,
                }
            }
        },
    }
}

/// What the loop does after draining at an idle boundary.
#[derive(Debug, Clone, Copy, PartialEq, Eq)]
pub enum IdleAction {
    Continue,
    SkipLlm,
    Done,
}

/// The idle boundary after popping found `first`: a prompt continues and a
/// bare command skips the model call; on an empty queue a late steer
/// continues, a late queued input is popped (`second`) and counts like the
/// first, and otherwise a subagent's steer barrier decides (no barrier:
/// done).
pub open spec fn idle_action(
    first: DrainOutcome,
    late_steer: bool,
    second: Option<DrainOutcome>,
    settle: Option<IdleDecision>,
) -> IdleAction {
    match first {
        DrainOutcome::Prompt => IdleAction::Continue,
        DrainOutcome::ControlCmd => IdleAction::SkipLlm,
        DrainOutcome::Empty => if late_steer {
            IdleAction::Continue
        } else {
            match second {
                Some(DrainOutcome::Prompt) => IdleAction::Continue,
                Some(DrainOutcome::ControlCmd) => IdleAction::SkipLlm,
                _ => match settle {
                    Some(IdleDecision::Continue) => IdleAction::Continue,
                    _ => IdleAction::Done,
                },
            }
        },
    }
}

pub fn idle_step(first: DrainOutcome, late_steer: bool, second: Option<DrainOutcome>, settle: Option<IdleDecision>) -> (r:
    IdleAction)
    ensures
        r == idle_action(first, late_steer, second, settle),
{
    match first {
        DrainOutcome::Prompt => IdleAction::Continue,
        DrainOutcome::ControlCmd => IdleAction::SkipLlm,
        DrainOutcome::Empty => if late_steer {
            IdleAction::Continue
        } else {
            match second {
                Some(DrainOutcome::Prompt) => IdleAction::Continue,
                Some(DrainOutcome::ControlCmd) => IdleAction::SkipLlm,
                _ => match settle {
                    Some(IdleDecision::Continue) => IdleAction::Continue,
                    _ => IdleAction::Done,
                },
            }
        },
    }
}

/// A run starts in drain mode when the submit carries no text, no images
/// and no pending handoff, and either no skill is active or inputs are
/// already pending (pending input wins over re-triggering the skill). An
/// active skill with no text outside drain mode gets a synthetic trigger.
pub open spec fn entry_mode(has_text: bool, has_images: bool, handoff_pending: bool, has_skill: bool, pending: bool) -> (bool, bool) {
    let drain = !has_text && !has_images && !handoff_pending && (!has_skill || pending);
    (drain, has_skill && !has_text && !drain)
}

pub fn entry_drain_mode(has_text: bool, has_images: bool, handoff_pending: bool, has_skill: bool, pending: bool) -> (r: (
    bool,
    bool,
))
    ensures
        r == entry_mode(has_text, has_images, handoff_pending, has_skill, pending),
{
    let drain = !has_text && !has_images && !handoff_pending && (!has_skill || pending);
    (drain, has_skill && !has_text && !drain)
}

/// A pending input is never both consumed by drain mode and answered by a
/// re-triggered skill: the trigger fires only outside drain mode.
pub proof fn trigger_and_drain_exclude(has_text: bool, has_images: bool, handoff_pending: bool, has_skill: bool, pending: bool)
    ensures
        !(entry_mode(has_text, has_images, handoff_pending, has_skill, pending).0 && entry_mode(
            has_text,
            has_images,
            handoff_pending,
            has_skill,
            pending,
        ).1),
        !has_text && !has_images && !handoff_pending && pending ==> entry_mode(
            has_text,
            has_images,
            handoff_pending,
            has_skill,
            pending,
        ).0,
{
}

/// A step that found a late steer or queued input never goes idle: the
/// input is consumed before the model is called or the loop stops.
pub proof fn late_input_is_never_stranded(
    last: Option<Role>,
    clear_context_handoff: bool,
    settle: Option<IdleDecision>,
)
    ensures
        drain_mode_action(DrainOutcome::Empty, last, clear_context_handoff, true, settle) == DrainModeAction::ConsumeNext,
        idle_action(DrainOutcome::Empty, true, None, settle) == IdleAction::Continue,
{
}

/// The MCP tool-name prefix of server `name`: `mcp__<name>__`, with `-`
/// and `.` in the name turned into `_`.
pub open spec fn mcp_prefix(name: Seq<char>) -> Seq<char> {
    "mcp__"@ + name.map_values(|c: char| if c == '-' || c == '.' { '_' } else { c }) + "__"@
}

pub fn mcp_tool_prefix(name: &str) -> (r: String)
    ensures
        r@ == mcp_prefix(name@),
{
    let mut s = String::new();
    push_str(&mut s, "mcp__");
    let mut mapped: Vec<char> = Vec::new();
    for c in it: name.chars()
        invariant
            it.seq() == name@,
            mapped@ == it.seq().take(it.index() as int).map_values(|c: char| if c == '-' || c == '.' { '_' } else { c }),
    {
        mapped.push(if c == '-' || c == '.' { '_' } else { c });
        assert(mapped@ =~= it.seq().take(it.index() + 1).map_values(|c: char| if c == '-' || c == '.' { '_' } else { c }));
    }
    assert(name@.take(name@.len() as int) =~= name@);
    let m = crate::text::string_from_chars(&mapped);
    push_str(&mut s, m.as_str());
    push_str(&mut s, "__");
    s
}

/// An MCP tool is allowed when it carries the prefix of one of the servers
/// enabled for the agent.
pub fn mcp_tool_allowed(enabled_servers: &[String], tool_name: &str) -> (b: bool)
    ensures
        b == exists|k: int|
            0 <= k < enabled_servers@.len() && crate::text::starts_with(tool_name@, mcp_prefix(#[trigger] enabled_servers@[k]@)),
{
    let v = chars_of(tool_name);
    assert(v@.subrange(0, v@.len() as int) =~= v@);
    let mut k: usize = 0;
    while k < enabled_servers.len()
        invariant
            k <= enabled_servers@.len(),
            v@ == tool_name@,
            v@.subrange(0, v@.len() as int) == v@,
            forall|j: int| 0 <= j < k ==> !crate::text::starts_with(tool_name@, mcp_prefix(#[trigger] enabled_servers@[j]@)),
        decreases enabled_servers.len() - k,
    {
        let p = mcp_tool_prefix(enabled_servers[k].as_str());
        let pv = chars_of(p.as_str());
        if starts_with_in_range(&v, 0, v.len(), pv.as_slice()) {
            return true;
        }
        k += 1;
    }
    false
}

} // verus!

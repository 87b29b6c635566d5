//! The `/sidecar` command: a side question answered in a temporary,
//! read-only loop beside the main task.

use vstd::prelude::*;
use crate::event::SessionEvent;
use crate::text::{chars_of, is_unicode_ws, range_eq, string_from_range, trim, trim_range, unicode_ws};

verus! {

/// Summary of one sidecar question.
#[derive(Debug, Clone)]
pub struct SidecarTurn {
    pub ok: bool,
    /// Final assistant text of the turn (the error message when the loop
    /// failed without text).
    pub answer: String,
    pub elapsed_ms: u64,
    /// Token cost of the turn.
    pub total_tokens: u64,
    /// LLM rounds consumed by the turn.
    pub rounds: usize,
}

pub open spec fn sidecar_command() -> Seq<char> {
    seq!['/', 's', 'i', 'd', 'e', 'c', 'a', 'r']
}

/// The question of a `/sidecar` command line: the trimmed text after the
/// token, which must stand alone (end of text or whitespace after it).
pub open spec fn sidecar_question(text: Seq<char>) -> Option<Seq<char>> {
    let t = trim(text);
    let n = sidecar_command().len();
    if t.len() < n || t.subrange(0, n as int) != sidecar_command() {
        None
    } else {
        let rest = t.subrange(n as int, t.len() as int);
        if rest.len() > 0 && !is_unicode_ws(rest[0]) {
            None
        } else {
            Some(trim(rest))
        }
    }
}

/// Recognise the `/sidecar` command. Returns the trimmed question (empty
/// for a bare `/sidecar`); anything else, look-alikes such as `/sidecarX`
/// included, is `None`.
pub fn parse_sidecar_question(text: &str) -> (r: Option<String>)
    ensures
        match r {
            Some(q) => sidecar_question(text@) == Some(q@),
            None => sidecar_question(text@) is None,
        },
{
    let v = chars_of(text);
    assert(v@.subrange(0, v@.len() as int) =~= v@);
    let (a, b) = trim_range(&v, 0, v.len());
    let ghost t = v@.subrange(a as int, b as int);
    let cmd = ['/', 's', 'i', 'd', 'e', 'c', 'a', 'r'];
    assert(cmd@ =~= sidecar_command());
    if b - a < 8 {
        return None;
    }
    if !range_eq(&v, a, a + 8, &cmd) {
        assert(t.subrange(0, 8) =~= v@.subrange(a as int, a + 8));
        return None;
    }
    assert(t.subrange(0, 8) =~= v@.subrange(a as int, a + 8));
    let rest = a + 8;
    assert(t.subrange(8, t.len() as int) =~= v@.subrange(rest as int, b as int));
    if rest < b && !unicode_ws(v[rest]) {
        return None;
    }
    let (c, d) = trim_range(&v, rest, b);
    Some(string_from_range(&v, c, d))
}

/// Prefix of every sidecar conversation id.
pub const SIDECAR_ID_PREFIX: &'static str = "sidecar-";

/// Answer when the sidecar question is a control command.
pub const CONTROL_COMMAND_REFUSAL: &'static str = "sidecar question must not be a control command";

/// The turn a sidecar question ends with before any loop runs: refused,
/// with nothing spent, when the question is a control command (as the
/// command parser decides); `None` when the question may run.
pub fn refuse_control_question(is_control_command: bool) -> (t: Option<SidecarTurn>)
    ensures
        t is Some <==> is_control_command,
        t matches Some(turn) ==> !turn.ok && turn.answer@ == CONTROL_COMMAND_REFUSAL@ && turn.elapsed_ms == 0
            && turn.total_tokens == 0 && turn.rounds == 0,
{
    if is_control_command {
        Some(SidecarTurn {
            ok: false,
            answer: CONTROL_COMMAND_REFUSAL.to_string(),
            elapsed_ms: 0,
            total_tokens: 0,
            rounds: 0,
        })
    } else {
        None
    }
}

/// A transcript message's author.
#[derive(Debug, Clone, Copy, PartialEq, Eq)]
pub enum Role {
    System,
    User,
    Assistant,
    Tool,
}

/// What one sidecar turn observed of its child loop's events: tokens and
/// rounds of its usage reports, and the first error it raised.
#[derive(Debug, Clone)]
pub struct TurnAcc {
    pub total_tokens: u64,
    pub rounds: usize,
    pub error: Option<String>,
}

impl TurnAcc {
    pub fn new() -> (a: Self)
        ensures
            a.total_tokens == 0,
            a.rounds == 0,
            a.error is None,
    {
        TurnAcc { total_tokens: 0, rounds: 0, error: None }
    }

    /// A usage report of one round: its tokens add up, the round counts.
    pub fn add_usage(&mut self, total_tokens: u64)
        requires
            old(self).total_tokens + total_tokens <= u64::MAX,
            old(self).rounds < usize::MAX,
        ensures
            final(self).total_tokens == old(self).total_tokens + total_tokens,
            final(self).rounds == old(self).rounds + 1,
            final(self).error == old(self).error,
    {
        self.total_tokens = self.total_tokens + total_tokens;
        self.rounds = self.rounds + 1;
    }

    /// An error of the child loop: only the first one is kept.
    pub fn record_error(&mut self, e: String)
        ensures
            final(self).total_tokens == old(self).total_tokens,
            final(self).rounds == old(self).rounds,
            old(self).error is Some ==> final(self).error == old(self).error,
            old(self).error is None ==> final(self).error == Some(e),
    {
        if self.error.is_none() {
            self.error = Some(e);
        }
    }
}

/// An event of the child loop that the sidecar passes on.
#[derive(Debug)]
pub enum ChildEmit {
    /// Forwarded as is, so its cost is counted like a main-task round.
    Bare(SessionEvent),
    /// Wrapped as a sidecar child frame for display.
    Wrapped(SessionEvent),
}

/// Route one event of the child loop: a usage report adds to the turn and
/// is forwarded bare; the child's `Done` is dropped (the turn boundary is
/// the sidecar's own); an error is kept (the first one only) and not
/// forwarded, so it cannot fail the parent run; everything else is passed
/// on wrapped.
pub fn on_child_event(acc: &mut TurnAcc, ev: SessionEvent) -> (r: Option<ChildEmit>)
    requires
        ev matches SessionEvent::LlmUsage { total_tokens, .. } ==> old(acc).total_tokens + total_tokens
            <= u64::MAX && old(acc).rounds < usize::MAX,
    ensures
        match ev {
            SessionEvent::LlmUsage { total_tokens, .. } => {
                &&& r == Some(ChildEmit::Bare(ev))
                &&& final(acc).total_tokens == old(acc).total_tokens + total_tokens
                &&& final(acc).rounds == old(acc).rounds + 1
                &&& final(acc).error == old(acc).error
            },
            SessionEvent::Done => r is None && *final(acc) == *old(acc),
            SessionEvent::Error(e) => {
                &&& r is None
                &&& final(acc).total_tokens == old(acc).total_tokens
                &&& final(acc).rounds == old(acc).rounds
                &&& old(acc).error is Some ==> final(acc).error == old(acc).error
                &&& old(acc).error is None ==> final(acc).error == Some(e)
            },
            _ => r == Some(ChildEmit::Wrapped(ev)) && *final(acc) == *old(acc),
        },
{
    match ev {
        SessionEvent::LlmUsage { total_tokens, input_tokens, output_tokens } => {
            acc.add_usage(total_tokens);
            Some(ChildEmit::Bare(SessionEvent::LlmUsage { total_tokens, input_tokens, output_tokens }))
        },
        SessionEvent::Done => None,
        SessionEvent::Error(e) => {
            acc.record_error(e);
            None
        },
        other => Some(ChildEmit::Wrapped(other)),
    }
}

/// The answer of a turn: the last non-blank assistant text among the
/// messages from `baseline` on (earlier ones belong to the snapshot), else
/// the turn's first error, else empty.
pub open spec fn turn_answer(msgs: Seq<(Role, String)>, baseline: int, error: Option<String>) -> Seq<char> {
    if exists|k: int| baseline <= k < msgs.len() && msgs[k].0 == Role::Assistant && trim(msgs[k].1@).len() > 0 {
        let k = choose|k: int|
            baseline <= k < msgs.len() && msgs[k].0 == Role::Assistant && trim(msgs[k].1@).len() > 0 && forall|j: int|
                k < j < msgs.len() ==> !(msgs[j].0 == Role::Assistant && trim(msgs[j].1@).len() > 0);
        msgs[k].1@
    } else {
        match error {
            Some(e) => e@,
            None => Seq::empty(),
        }
    }
}

fn non_blank(s: &str) -> (b: bool)
    ensures
        b == (trim(s@).len() > 0),
{
    let v = chars_of(s);
    assert(v@.subrange(0, v@.len() as int) =~= v@);
    let (a, b) = trim_range(&v, 0, v.len());
    a < b
}

/// The summary of a finished turn: it succeeded when the loop returned
/// normally and raised no error.
pub fn finish_turn(loop_ok: bool, acc: TurnAcc, msgs: &[(Role, String)], baseline: usize, elapsed_ms: u64) -> (t: SidecarTurn)
    ensures
        t.ok == (loop_ok && acc.error is None),
        t.answer@ == turn_answer(msgs@, baseline as int, acc.error),
        t.elapsed_ms == elapsed_ms,
        t.total_tokens == acc.total_tokens,
        t.rounds == acc.rounds,
{
    let ok = loop_ok && acc.error.is_none();
    let mut k = msgs.len();
    let mut found: Option<usize> = None;
    while k > baseline && found.is_none()
        invariant
            k <= msgs@.len(),
            found is None ==> forall|j: int|
                k <= j < msgs@.len() && j >= baseline ==> !(msgs@[j].0 == Role::Assistant && trim(msgs@[j].1@).len() > 0),
            found matches Some(f) ==> baseline <= f < msgs@.len() && msgs@[f as int].0 == Role::Assistant && trim(
                msgs@[f as int].1@,
            ).len() > 0 && forall|j: int| f < j < msgs@.len() ==> !(msgs@[j].0 == Role::Assistant && trim(msgs@[j].1@).len() > 0),
        decreases k,
    {
        k -= 1;
        let is_assistant = match msgs[k].0 {
            Role::Assistant => true,
            _ => false,
        };
        if is_assistant && non_blank(msgs[k].1.as_str()) {
            found = Some(k);
        }
    }
    let answer = match found {
        Some(f) => {
            proof {
                let w = choose|j: int|
                    baseline <= j < msgs@.len() && msgs@[j].0 == Role::Assistant && trim(msgs@[j].1@).len() > 0 && forall|i: int|
                        j < i < msgs@.len() ==> !(msgs@[i].0 == Role::Assistant && trim(msgs@[i].1@).len() > 0);
                if w < f {
                } else if w > f {
                }
                assert(w == f);
            }
            msgs[f].1.clone()
        },
        None => {
            proof {
                if exists|j: int| baseline <= j < msgs@.len() && msgs@[j].0 == Role::Assistant && trim(msgs@[j].1@).len() > 0 {
                    let j = choose|j: int| baseline <= j < msgs@.len() && msgs@[j].0 == Role::Assistant && trim(msgs@[j].1@).len() > 0;
                    assert(false);
                }
            }
            match &acc.error {
                Some(e) => e.clone(),
                None => String::new(),
            }
        },
    };
    SidecarTurn { ok, answer, elapsed_ms, total_tokens: acc.total_tokens, rounds: acc.rounds }
}

} // verus!

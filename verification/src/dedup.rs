//! Collapsing repeated bash-timeout results: while the model keeps
//! re-running the same long command, only the first timeout's full answer
//! is shown, so every repeat points at the same pid and output file.

use vstd::prelude::*;
use crate::text::{chars_of, starts_with, starts_with_in_range, str_eq};

verus! {

/// A tool result.
#[derive(Debug, Clone)]
pub struct ToolOutput {
    pub content: String,
    pub is_error: bool,
    pub images: Vec<String>,
}

impl ToolOutput {
    pub fn ok(content: String) -> (o: Self)
        ensures
            o.content@ == content@,
            !o.is_error,
            o.images@.len() == 0,
    {
        ToolOutput { content, is_error: false, images: Vec::new() }
    }

    pub fn err(content: String) -> (o: Self)
        ensures
            o.content@ == content@,
            o.is_error,
            o.images@.len() == 0,
    {
        ToolOutput { content, is_error: true, images: Vec::new() }
    }
}

/// A tool call as the model completed it; `input` is its arguments as
/// canonical JSON text.
#[derive(Debug, Clone)]
pub struct CompletedToolCall {
    pub id: String,
    pub name: String,
    pub input: String,
}

/// The streak state: the content and input of the timeout that started
/// the current streak of timeouts of one command.
pub type Streak = Option<(Seq<char>, Seq<char>)>;

pub open spec fn streak_view(f: Option<(String, String)>) -> Streak {
    match f {
        Some((c, i)) => Some((c@, i@)),
        None => None,
    }
}

/// One result, answering call `call` (when there is one): the content it
/// keeps and the streak after it. A bash timeout of the streak's command
/// takes the streak's content; a bash timeout of another command starts a
/// new streak; any other bash result ends the streak; other tools leave it.
pub open spec fn dedup_step(call: Option<CompletedToolCall>, content: Seq<char>, first: Streak) -> (Seq<char>, Streak) {
    let is_bash = match call {
        Some(tc) => tc.name@ == "bash"@,
        None => false,
    };
    if is_bash && starts_with(content, "[bash-timeout:"@) {
        let input = call->0.input@;
        match first {
            Some((fc, fi)) => if fi == input {
                (fc, first)
            } else {
                (content, Some((content, input)))
            },
            None => (content, Some((content, input))),
        }
    } else if is_bash {
        (content, None)
    } else {
        (content, first)
    }
}

pub open spec fn call_at(calls: Seq<CompletedToolCall>, i: int) -> Option<CompletedToolCall> {
    if 0 <= i < calls.len() {
        Some(calls[i])
    } else {
        None
    }
}

/// The streak after the first `n` results.
pub open spec fn streak_after(calls: Seq<CompletedToolCall>, results: Seq<(usize, ToolOutput)>, first: Streak, n: nat) -> Streak
    decreases n,
{
    if n == 0 {
        first
    } else {
        let prev = streak_after(calls, results, first, (n - 1) as nat);
        dedup_step(call_at(calls, results[n - 1].0 as int), results[n - 1].1.content@, prev).1
    }
}

/// The content result `k` keeps.
pub open spec fn kept_content(calls: Seq<CompletedToolCall>, results: Seq<(usize, ToolOutput)>, first: Streak, k: int) -> Seq<char> {
    dedup_step(call_at(calls, results[k].0 as int), results[k].1.content@, streak_after(calls, results, first, k as nat)).0
}

fn is_timeout_answer(content: &str) -> (b: bool)
    ensures
        b == starts_with(content@, "[bash-timeout:"@),
{
    let v = chars_of(content);
    let m = chars_of(crate::bash::BASH_TIMEOUT_MARKER);
    proof {
        reveal_strlit("[bash-timeout:");
    }
    assert(v@.subrange(0, v@.len() as int) =~= v@);
    starts_with_in_range(&v, 0, v.len(), m.as_slice())
}

/// Collapse consecutive bash timeouts of the same command: each keeps the
/// first one's content. `first` carries the streak across batches.
pub fn dedup_consecutive_bash_timeouts(
    tool_calls: &[CompletedToolCall],
    results: &mut Vec<(usize, ToolOutput)>,
    first: &mut Option<(String, String)>,
)
    ensures
        final(results)@.len() == old(results)@.len(),
        forall|k: int|
            0 <= k < old(results)@.len() ==> (#[trigger] final(results)@[k]).0 == old(results)@[k].0
                && final(results)@[k].1.is_error == old(results)@[k].1.is_error
                && final(results)@[k].1.images == old(results)@[k].1.images
                && final(results)@[k].1.content@ == kept_content(tool_calls@, old(results)@, streak_view(*old(first)), k),
        streak_view(*final(first)) == streak_after(tool_calls@, old(results)@, streak_view(*old(first)), old(results)@.len() as nat),
{
    let ghost orig = results@;
    let ghost f0 = streak_view(*first);
    let mut j: usize = 0;
    while j < results.len()
        invariant
            results@.len() == orig.len(),
            j <= orig.len(),
            forall|k: int|
                j <= k < orig.len() ==> #[trigger] results@[k] == orig[k],
            forall|k: int|
                0 <= k < j ==> (#[trigger] results@[k]).0 == orig[k].0 && results@[k].1.is_error == orig[k].1.is_error
                    && results@[k].1.images == orig[k].1.images
                    && results@[k].1.content@ == kept_content(tool_calls@, orig, f0, k),
            streak_view(*first) == streak_after(tool_calls@, orig, f0, j as nat),
        decreases orig.len() - j,
    {
        let i = results[j].0;
        let is_bash = i < tool_calls.len() && str_eq(tool_calls[i].name.as_str(), "bash");
        let ghost call = call_at(tool_calls@, i as int);
        let timeout = is_timeout_answer(results[j].1.content.as_str());
        if is_bash && timeout {
            let input = tool_calls[i].input.clone();
            let cur = first.take();
            match cur {
                Some((fc, fi)) => {
                    if str_eq(fi.as_str(), input.as_str()) {
                        let (idx, out) = results.remove(j);
                        let out2 = ToolOutput { content: fc.clone(), is_error: out.is_error, images: out.images };
                        results.insert(j, (idx, out2));
                        *first = Some((fc, fi));
                    } else {
                        let c = results[j].1.content.clone();
                        *first = Some((c, input));
                    }
                },
                None => {
                    let c = results[j].1.content.clone();
                    *first = Some((c, input));
                },
            }
        } else if is_bash {
            *first = None;
        }
        proof {
            assert(streak_after(tool_calls@, orig, f0, (j + 1) as nat) == dedup_step(call, orig[j as int].1.content@, streak_after(tool_calls@, orig, f0, j as nat)).1);
        }
        j += 1;
    }
}

/// Only a bash timeout that repeats the command of the current streak is
/// rewritten, and then to the streak's first content; every other result
/// keeps its own content.
pub proof fn only_repeated_timeouts_are_rewritten(
    calls: Seq<CompletedToolCall>,
    results: Seq<(usize, ToolOutput)>,
    first: Streak,
    k: int,
)
    requires
        0 <= k < results.len(),
    ensures
        kept_content(calls, results, first, k) != results[k].1.content@ ==> ({
            let call = call_at(calls, results[k].0 as int);
            let streak = streak_after(calls, results, first, k as nat);
            &&& call matches Some(tc) && tc.name@ == "bash"@
            &&& starts_with(results[k].1.content@, "[bash-timeout:"@)
            &&& streak matches Some((fc, fi)) && fi == call->0.input@ && kept_content(calls, results, first, k) == fc
        }),
{
}

} // verus!

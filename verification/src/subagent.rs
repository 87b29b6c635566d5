//! The `task` tool's subagent decisions: which requests are run, what the
//! parent sees of the child's progress, and how a finished, failed or
//! cancelled child is reported. Running the child loop stays outside.

use vstd::prelude::*;
use crate::dedup::ToolOutput;
use crate::search::{utf8_len, utf8_size};
use crate::text::{chars_of, decimal, push_char, push_decimal, push_str, str_eq, string_from_range};

verus! {

broadcast use vstd::seq::group_seq_axioms;

/// The subagent kinds a parent may spawn, as named in a rejection: plan
/// mode offers only the read-only `explore`.
pub open spec fn options_text(plan: bool) -> Seq<char> {
    if plan {
        "'explore' (read-only)"@
    } else {
        "'explore' (read-only)"@ + " or "@ + "'build' (full tools)"@
    }
}

pub fn valid_subagent_options(plan: bool) -> (r: String)
    ensures
        r@ == options_text(plan),
{
    let mut s = "'explore' (read-only)".to_string();
    if !plan {
        push_str(&mut s, " or ");
        push_str(&mut s, "'build' (full tools)");
    }
    s
}

pub open spec fn unknown_kind_text(kind: Seq<char>, plan: bool) -> Seq<char> {
    "Unknown subagent_type '"@ + kind + "'. Valid options: "@ + options_text(plan)
}

/// The refusal of an unknown (or, in plan mode, non-read-only) kind.
pub fn unknown_kind(kind: &str, plan: bool) -> (r: String)
    ensures
        r@ == unknown_kind_text(kind@, plan),
{
    let mut s = String::new();
    push_str(&mut s, "Unknown subagent_type '");
    push_str(&mut s, kind);
    push_str(&mut s, "'. Valid options: ");
    let o = valid_subagent_options(plan);
    push_str(&mut s, o.as_str());
    s
}

/// A `task` call's request: its kind (default `explore`) when it may run,
/// else the refusal. A prompt is required; plan mode runs only `explore`.
pub open spec fn request_kind(prompt: Seq<char>, kind: Option<Seq<char>>, plan: bool) -> Result<Seq<char>, Seq<char>> {
    let k = match kind {
        Some(k) => k,
        None => "explore"@,
    };
    if prompt.len() == 0 {
        Err("task requires a prompt"@)
    } else if plan && k != "explore"@ {
        Err(unknown_kind_text(k, plan))
    } else {
        Ok(k)
    }
}

pub fn check_request(prompt: &str, kind: Option<&str>, plan: bool) -> (r: Result<String, String>)
    ensures
        match r {
            Ok(k) => request_kind(prompt@, crate::latent::opt_view(kind), plan) == Ok::<Seq<char>, Seq<char>>(k@),
            Err(e) => request_kind(prompt@, crate::latent::opt_view(kind), plan) == Err::<Seq<char>, Seq<char>>(e@),
        },
{
    let k = match kind {
        Some(k) => k,
        None => "explore",
    };
    if prompt.is_empty() {
        return Err("task requires a prompt".to_string());
    }
    if plan && !str_eq(k, "explore") {
        return Err(unknown_kind(k, plan));
    }
    Ok(k.to_string())
}

/// The first `n` characters of `s`.
pub fn preview(s: &str, n: usize) -> (r: String)
    ensures
        r@ == s@.take(if s@.len() < n { s@.len() as int } else { n as int }),
{
    let v = chars_of(s);
    let e = if v.len() < n { v.len() } else { n };
    string_from_range(&v, 0, e)
}

/// The encoded size of `s`, counted up to 240 bytes.
pub open spec fn capped_size(s: Seq<char>) -> nat {
    if utf8_size(s) < 240 {
        utf8_size(s)
    } else {
        240
    }
}

/// What the parent tracks of a running child: the tool calls it started
/// and the start of its streamed text (taken while under 240 bytes).
pub struct ChildProgress {
    tool_calls: u32,
    chars: String,
    bytes: usize,
}

impl ChildProgress {
    pub closed spec fn tools(&self) -> nat {
        self.tool_calls as nat
    }

    pub fn tool_calls(&self) -> (n: u32)
        ensures
            n == self.tools(),
    {
        self.tool_calls
    }

    pub closed spec fn text(&self) -> Seq<char> {
        self.chars@
    }

    pub open spec fn wf(&self) -> bool {
        self.bytes_spec() == capped_size(self.text())
    }

    pub closed spec fn bytes_spec(&self) -> nat {
        self.bytes as nat
    }

    pub fn new() -> (p: Self)
        ensures
            p.wf(),
            p.tools() == 0,
            p.text().len() == 0,
    {
        ChildProgress { tool_calls: 0, chars: String::new(), bytes: 0 }
    }

    /// The child started a tool call.
    pub fn on_tool_start(&mut self)
        requires
            old(self).tools() < u32::MAX,
        ensures
            final(self).tools() == old(self).tools() + 1,
            final(self).text() == old(self).text(),
            final(self).bytes_spec() == old(self).bytes_spec(),
    {
        self.tool_calls = self.tool_calls + 1;
    }

    /// The child streamed `t`: kept while the text so far is under 240
    /// bytes.
    pub fn on_text_delta(&mut self, t: &str)
        requires
            old(self).wf(),
        ensures
            final(self).wf(),
            final(self).tools() == old(self).tools(),
            utf8_size(old(self).text()) < 240 ==> final(self).text() == old(self).text() + t@,
            utf8_size(old(self).text()) >= 240 ==> final(self).text() == old(self).text(),
    {
        if self.bytes < 240 {
            let v = chars_of(t);
            let mut i: usize = 0;
            let ghost start = self.chars@;
            let ghost tools = self.tool_calls;
            while i < v.len()
                invariant
                    i <= v@.len(),
                    self.chars@ == start + v@.take(i as int),
                    self.bytes_spec() == capped_size(self.chars@),
                    self.tool_calls == tools,
                    v@ == t@,
                decreases v.len() - i,
            {
                let n = crate::search::char_utf8_len(v[i]);
                push_char(&mut self.chars, v[i]);
                assert(self.chars@.drop_last() =~= start + v@.take(i as int));
                assert(v@.take(i + 1) =~= v@.take(i as int).push(v@[i as int]));
                self.bytes = if n >= 240 - self.bytes { 240 } else { self.bytes + n };
                i += 1;
            }
            assert(v@.take(v@.len() as int) =~= v@);
        }
    }

    /// The summary shown when the child ends: its tool-call count and the
    /// first 120 characters of its streamed text (of its final text when
    /// it streamed none).
    pub fn end_summary(&self, final_text: &str) -> (r: String)
        ensures
            r@ == "("@ + decimal(self.tools()) + " tool calls) "@ + (if self.text().len() == 0 {
                final_text@.take(if final_text@.len() < 120 { final_text@.len() as int } else { 120 })
            } else {
                self.text().take(if self.text().len() < 120 { self.text().len() as int } else { 120 })
            }),
    {
        let mut s = String::new();
        push_str(&mut s, "(");
        push_decimal(&mut s, self.tool_calls as u64);
        push_str(&mut s, " tool calls) ");
        let p = if self.chars.as_str().is_empty() {
            preview(final_text, 120)
        } else {
            preview(self.chars.as_str(), 120)
        };
        push_str(&mut s, p.as_str());
        s
    }
}

/// How a cancelled child is reported.
#[derive(Debug, Clone, Copy, PartialEq, Eq)]
pub enum ChildCancel {
    /// The parent's deadline fired: the task is cancelled.
    TimedOut,
    /// The parent redirected away from the child: the task ends as failed
    /// with a real result, so it is never replayed.
    Redirected,
    /// The parent itself was interrupted: the task stays cancelled, to be
    /// replayed on the next turn.
    Interrupted,
}

/// A timeout is told apart first (it also fires the child's token), then a
/// steer (the parent's own token is intact) from a hard interrupt.
pub fn classify_cancel(timed_out: bool, parent_aborted: bool) -> (c: ChildCancel)
    ensures
        timed_out ==> c == ChildCancel::TimedOut,
        !timed_out && !parent_aborted ==> c == ChildCancel::Redirected,
        !timed_out && parent_aborted ==> c == ChildCancel::Interrupted,
{
    if timed_out {
        ChildCancel::TimedOut
    } else if !parent_aborted {
        ChildCancel::Redirected
    } else {
        ChildCancel::Interrupted
    }
}

/// The summary shown and the tool error returned for a cancelled child.
pub open spec fn cancel_texts(c: ChildCancel) -> (Seq<char>, Seq<char>) {
    match c {
        ChildCancel::TimedOut => ("cancelled: timed out"@, "cancelled: timed out"@),
        ChildCancel::Redirected => ("cancelled: redirected by parent steer"@, "cancelled: redirected by parent steer"@),
        ChildCancel::Interrupted => ("(cancelled)"@, "cancelled"@),
    }
}

pub fn cancel_report(c: ChildCancel) -> (r: (String, String))
    ensures
        (r.0@, r.1@) == cancel_texts(c),
{
    match c {
        ChildCancel::TimedOut => ("cancelled: timed out".to_string(), "cancelled: timed out".to_string()),
        ChildCancel::Redirected => (
            "cancelled: redirected by parent steer".to_string(),
            "cancelled: redirected by parent steer".to_string(),
        ),
        ChildCancel::Interrupted => ("(cancelled)".to_string(), "cancelled".to_string()),
    }
}

/// The answer of a child that ran to the end with final text `text`: the
/// text on success; on failure the error (with the text after it when
/// there is any), or the text, or a bare notice.
pub open spec fn child_answer(error: Option<Seq<char>>, text: Seq<char>) -> (Seq<char>, bool) {
    match error {
        None => (text, false),
        Some(e) => (if text.len() == 0 {
            "subagent failed: "@ + e
        } else {
            "subagent failed: "@ + e + "\n\n"@ + text
        }, true),
    }
}

/// The answer when the child loop returned normally (`error` is `None`)
/// or failed with `error`.
pub fn finished_child(error: Option<String>, text: String) -> (o: ToolOutput)
    ensures
        (o.content@, o.is_error) == child_answer(crate::web::opt_string_view(error), text@),
{
    match error {
        None => ToolOutput::ok(text),
        Some(e) => {
            let mut s = String::new();
            push_str(&mut s, "subagent failed: ");
            push_str(&mut s, e.as_str());
            if !text.as_str().is_empty() {
                push_str(&mut s, "\n\n");
                push_str(&mut s, text.as_str());
            }
            ToolOutput::err(s)
        },
    }
}

} // verus!

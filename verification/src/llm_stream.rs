//! One provider call, event by event: what each streamed event shows to
//! the session, the reasoning kept across mid-stream retries, and the turn
//! the stream completes with. Which tools the call offers is decided here
//! too. Sending the request and awaiting events stay with the caller.

use vstd::prelude::*;
use crate::dedup::CompletedToolCall;
use crate::drain::mcp_prefix;
use crate::event::{event_view, EventView, SessionEvent};
use crate::text::{chars_of, decimal, push_decimal, push_str, starts_with, starts_with_in_range};

verus! {

/// Token usage a provider reports for a round.
#[derive(Debug, Clone, Copy, PartialEq, Eq)]
pub struct Usage {
    pub input_tokens: u64,
    pub output_tokens: u64,
    pub total_tokens: u64,
    pub cache_read_tokens: u64,
    pub cache_creation_tokens: u64,
}

/// An event of a provider's response stream.
#[derive(Debug)]
pub enum LlmEvent {
    TextDelta(String),
    ReasoningDelta(String),
    ToolCallStart,
    ToolCallDelta,
    Completed { text: String, tool_calls: Vec<CompletedToolCall>, usage: Option<Usage> },
    /// The client dropped its partial response and is regenerating.
    Retrying { attempt: u32, max: u32 },
    Error(String),
}

/// A completed turn: text, reasoning, tool calls, usage.
pub type Turn = (String, String, Vec<CompletedToolCall>, Option<Usage>);

/// A retry badge is showing: the last retry came after every content event.
pub open spec fn retry_pending(evs: Seq<LlmEvent>) -> bool
    decreases evs.len(),
{
    if evs.len() == 0 {
        false
    } else {
        match evs.last() {
            LlmEvent::Retrying { .. } => true,
            LlmEvent::TextDelta(_) | LlmEvent::ReasoningDelta(_) | LlmEvent::Completed { .. } => false,
            _ => retry_pending(evs.drop_last()),
        }
    }
}

/// The reasoning of the current attempt: the reasoning deltas since the
/// last retry, concatenated.
pub open spec fn reasoning_of(evs: Seq<LlmEvent>) -> Seq<char>
    decreases evs.len(),
{
    if evs.len() == 0 {
        Seq::empty()
    } else {
        match evs.last() {
            LlmEvent::ReasoningDelta(r) => reasoning_of(evs.drop_last()) + r@,
            LlmEvent::Retrying { .. } => Seq::empty(),
            _ => reasoning_of(evs.drop_last()),
        }
    }
}

/// The last completion of the stream.
pub open spec fn completion_of(evs: Seq<LlmEvent>) -> Option<(String, Vec<CompletedToolCall>, Option<Usage>)>
    decreases evs.len(),
{
    if evs.len() == 0 {
        None
    } else {
        match evs.last() {
            LlmEvent::Completed { text, tool_calls, usage } => Some((text, tool_calls, usage)),
            _ => completion_of(evs.drop_last()),
        }
    }
}

/// The status a retry shows: `↻ retry <attempt>/<max>`.
pub open spec fn retry_status(attempt: u32, max: u32) -> Seq<char> {
    "\u{21bb} retry "@ + decimal(attempt as nat) + "/"@ + decimal(max as nat)
}

/// What one stream event shows, given whether a retry badge was showing:
/// the first content after a retry first clears the badge.
pub open spec fn shown(badge: bool, ev: LlmEvent) -> Seq<EventView> {
    let clear: Seq<EventView> = if badge {
        seq![EventView::Status(Seq::empty())]
    } else {
        Seq::empty()
    };
    match ev {
        LlmEvent::TextDelta(t) => clear.push(EventView::TextDelta(t@)),
        LlmEvent::ReasoningDelta(r) => clear.push(EventView::ReasoningDelta(r@)),
        LlmEvent::Completed { .. } => clear,
        LlmEvent::Retrying { attempt, max } => seq![EventView::Status(retry_status(attempt, max))],
        _ => Seq::empty(),
    }
}

pub open spec fn event_views(v: Seq<SessionEvent>) -> Seq<EventView> {
    v.map_values(|e: SessionEvent| event_view(e))
}

/// The consumer of one provider stream.
pub struct LlmStream {
    badge: bool,
    reasoning: String,
    completed: Option<(String, Vec<CompletedToolCall>, Option<Usage>)>,
    seen: Ghost<Seq<LlmEvent>>,
}

impl LlmStream {
    /// The stream events consumed so far (an error ends the stream).
    pub closed spec fn events(&self) -> Seq<LlmEvent> {
        self.seen@
    }

    /// A retry badge is showing.
    pub closed spec fn badge(&self) -> bool {
        self.badge
    }

    pub closed spec fn wf(&self) -> bool {
        &&& self.badge == retry_pending(self.seen@)
        &&& self.reasoning@ == reasoning_of(self.seen@)
        &&& self.completed == completion_of(self.seen@)
    }

    pub fn new() -> (s: Self)
        ensures
            s.wf(),
            s.events() == Seq::<LlmEvent>::empty(),
    {
        LlmStream { badge: false, reasoning: String::new(), completed: None, seen: Ghost(Seq::empty()) }
    }

    /// Consume one stream event: the session events to show, or the
    /// provider's error, which ends the call.
    pub fn on_event(&mut self, ev: LlmEvent) -> (r: Result<Vec<SessionEvent>, String>)
        requires
            old(self).wf(),
        ensures
            final(self).wf(),
            final(self).events() == old(self).events().push(ev),
            match ev {
                LlmEvent::Error(e) => r matches Err(m) && m@ == e@,
                _ => r matches Ok(v) && event_views(v@) == shown(old(self).badge(), ev),
            },
    {
        let ghost evs = self.seen@.push(ev);
        let ghost badge0 = self.badge;
        let mut out: Vec<SessionEvent> = Vec::new();
        let clears = match &ev {
            LlmEvent::TextDelta(_) | LlmEvent::ReasoningDelta(_) | LlmEvent::Completed { .. } => true,
            _ => false,
        };
        if clears && self.badge {
            self.badge = false;
            out.push(SessionEvent::Status(String::new()));
        }
        proof {
            assert(evs.drop_last() =~= self.seen@);
        }
        let r = match ev {
            LlmEvent::TextDelta(t) => {
                out.push(SessionEvent::TextDelta(t));
                Ok(out)
            },
            LlmEvent::ReasoningDelta(t) => {
                push_str(&mut self.reasoning, t.as_str());
                out.push(SessionEvent::ReasoningDelta(t));
                Ok(out)
            },
            LlmEvent::ToolCallStart | LlmEvent::ToolCallDelta => Ok(out),
            LlmEvent::Completed { text, tool_calls, usage } => {
                self.completed = Some((text, tool_calls, usage));
                Ok(out)
            },
            LlmEvent::Retrying { attempt, max } => {
                self.reasoning = String::new();
                self.badge = true;
                let mut s = String::new();
                push_str(&mut s, "\u{21bb} retry ");
                push_decimal(&mut s, attempt as u64);
                push_str(&mut s, "/");
                push_decimal(&mut s, max as u64);
                out.push(SessionEvent::Status(s));
                Ok(out)
            },
            LlmEvent::Error(e) => Err(e),
        };
        self.seen = Ghost(evs);
        proof {
            if r is Ok {
                assert(event_views(r->Ok_0@) =~= shown(badge0, evs.last()));
            }
        }
        r
    }

    /// The turn the stream ended with: its completion and the reasoning of
    /// the last attempt, or an error when it never completed.
    pub fn finish(self) -> (r: Result<Turn, String>)
        requires
            self.wf(),
        ensures
            match completion_of(self.events()) {
                Some((text, calls, usage)) => r matches Ok((t, re, c, u)) && t == text && re@ == reasoning_of(self.events())
                    && c == calls && u == usage,
                None => r matches Err(m) && m@ == "stream ended without completion"@,
            },
    {
        match self.completed {
            Some((text, calls, usage)) => Ok((text, self.reasoning, calls, usage)),
            None => Err("stream ended without completion".to_string()),
        }
    }
}

/// The empty turn an interrupted call returns, and the status it shows: a
/// hard cancel reports `interrupted`, a steer's turn cancel shows nothing.
pub fn interrupted_turn(hard: bool) -> (r: (Option<SessionEvent>, Turn))
    ensures
        hard ==> (r.0 matches Some(e) && event_view(e) == EventView::Status("interrupted"@)),
        !hard ==> r.0 is None,
        r.1.0@.len() == 0 && r.1.1@.len() == 0 && r.1.2@.len() == 0 && r.1.3 is None,
{
    let status = if hard {
        Some(SessionEvent::Status("interrupted".to_string()))
    } else {
        None
    };
    (status, (String::new(), String::new(), Vec::new(), None))
}

/// Whether a registered tool is offered to the model: an MCP tool when
/// the agent is not the workflow agent and one of its servers is enabled;
/// any other tool when it is visible to the agent.
pub fn offer_tool(is_mcp: bool, workflow_agent: bool, mcp_enabled: bool, visible: bool) -> (b: bool)
    ensures
        b == (if is_mcp {
            !workflow_agent && mcp_enabled
        } else {
            visible
        }),
{
    if is_mcp {
        !workflow_agent && mcp_enabled
    } else {
        visible
    }
}

/// The tool choice sent with a request: `auto` when any tool is offered.
pub fn tool_choice(n_offered: usize) -> (r: Option<&'static str>)
    ensures
        n_offered > 0 ==> (r matches Some(c) && c@ == "auto"@),
        n_offered == 0 ==> r is None,
{
    if n_offered > 0 {
        Some("auto")
    } else {
        None
    }
}

/// How many of `names` carry prefix `p`.
pub open spec fn count_with_prefix(names: Seq<Seq<char>>, p: Seq<char>) -> nat
    decreases names.len(),
{
    if names.len() == 0 {
        0
    } else {
        count_with_prefix(names.drop_last(), p) + if starts_with(names.last(), p) {
            1nat
        } else {
            0nat
        }
    }
}

pub open spec fn views(v: Seq<String>) -> Seq<Seq<char>> {
    v.map_values(|s: String| s@)
}

/// The tool count reported for an MCP server with no live status: the
/// registered tools under its prefix.
pub fn mcp_tool_count(server: &str, tool_names: &[String]) -> (n: usize)
    ensures
        n == count_with_prefix(views(tool_names@), mcp_prefix(server@)),
{
    let p = crate::drain::mcp_tool_prefix(server);
    let pv = chars_of(p.as_str());
    let mut n: usize = 0;
    let mut i: usize = 0;
    while i < tool_names.len()
        invariant
            i <= tool_names@.len(),
            pv@ == mcp_prefix(server@),
            n == count_with_prefix(views(tool_names@.take(i as int)), mcp_prefix(server@)),
            n <= i,
        decreases tool_names.len() - i,
    {
        let v = chars_of(tool_names[i].as_str());
        let hit = starts_with_in_range(&v, 0, v.len(), pv.as_slice());
        proof {
            assert(v@.subrange(0, v@.len() as int) =~= v@);
            assert(views(tool_names@.take(i + 1)).drop_last() =~= views(tool_names@.take(i as int)));
            assert(views(tool_names@.take(i + 1)).last() == tool_names@[i as int]@);
        }
        if hit {
            n = n + 1;
        }
        i += 1;
    }
    proof {
        assert(tool_names@.take(tool_names@.len() as int) =~= tool_names@);
    }
    n
}

/// Law: after a mid-stream retry, the reasoning kept is exactly what the
/// new attempt streamed; nothing of the abandoned attempt is stitched on.
pub proof fn reasoning_restarts_at_retry(evs: Seq<LlmEvent>, attempt: u32, max: u32, rest: Seq<LlmEvent>)
    requires
        forall|i: int| 0 <= i < rest.len() ==> !(rest[i] is Retrying),
    ensures
        reasoning_of(evs.push(LlmEvent::Retrying { attempt, max }) + rest) == reasoning_of(rest),
    decreases rest.len(),
{
    let s = evs.push(LlmEvent::Retrying { attempt, max }) + rest;
    if rest.len() == 0 {
        assert(s =~= evs.push(LlmEvent::Retrying { attempt, max }));
    } else {
        reasoning_restarts_at_retry(evs, attempt, max, rest.drop_last());
        assert(s.drop_last() =~= evs.push(LlmEvent::Retrying { attempt, max }) + rest.drop_last());
        assert(s.last() == rest.last());
    }
}

/// The order tool schemas are sent in: by name, each name once, whatever
/// order the registry yields them in, so requests are reproducible.
pub fn schema_order(names: &[&str]) -> (r: Vec<String>)
    ensures
        crate::skill_context::strictly_sorted(views(r@)),
        views(r@).to_set() == names@.map_values(|s: &str| s@).to_set(),
{
    let sorted = crate::skill_context::sorted_unique(names);
    let mut r: Vec<String> = Vec::new();
    let mut i: usize = 0;
    while i < sorted.len()
        invariant
            i <= sorted@.len(),
            r@.len() == i,
            forall|k: int| 0 <= k < i ==> (#[trigger] r@[k])@ == sorted@[k]@,
        decreases sorted.len() - i,
    {
        let s = crate::text::string_from_chars(&sorted[i]);
        r.push(s);
        i += 1;
    }
    proof {
        assert(views(r@) =~= sorted@.map_values(|v: Vec<char>| v@));
    }
    r
}

} // verus!

//! Session events and their server-sent-event wire form: the event name of
//! each variant, its payload fields, the coarse kind the event log stores,
//! and the decoding of a name and payload back into an event. JSON text is
//! read and written by the caller; here a payload is the list of its
//! top-level fields, each a [`WireValue`].

use vstd::prelude::*;
use crate::text::str_eq;

verus! {

/// A JSON value as an event payload carries it.
#[derive(Debug)]
pub enum WireValue {
    Null,
    Bool(bool),
    /// An integer that fits `i64`.
    Int(i64),
    /// An integer above `i64::MAX`.
    BigUInt(u64),
    /// Any other number, as its JSON text.
    Number(String),
    Str(String),
    /// An array whose items are all strings.
    Strs(Vec<String>),
    /// Any other array, or an object, as its JSON text.
    Json(String),
    /// An embedded session event (serialized as the event itself).
    Event(Box<SessionEvent>),
}

/// A session event.
#[derive(Debug)]
pub enum SessionEvent {
    LlmRoundStart { started_at_ms: i64 },
    LlmRoundEnd,
    LlmUsage { total_tokens: u64, input_tokens: u64, output_tokens: u64 },
    TextDelta(String),
    ReasoningDelta(String),
    ToolStart { id: String, name: String, input: WireValue },
    ToolEnd { id: String, name: String, output: String, is_error: bool, images: Vec<String> },
    AgentSwitch(String),
    ModelSwitch(String),
    Compaction(String),
    CompactionDelta(String),
    Status(String),
    SubagentStart { id: String, kind: String, prompt: String, child_session_id: String },
    SubagentEnd { id: String, ok: bool, cancelled: bool, summary: String },
    SubagentChild { id: String, ev: Box<SessionEvent> },
    /// The rebuilt transcript, each message as its JSON text.
    TranscriptReset(Vec<String>),
    QueueConsumed { seq: i64, text: String },
    SteerConsumed { seq: i64, text: String },
    /// Autopilot progress: the phase (as the JSON value it serializes to)
    /// and the 0-based iteration.
    AutoPilot { phase: WireValue, iteration: u32 },
    Done,
    Error(String),
}

/// The coarse kind an event is logged under.
#[derive(Debug, Clone, Copy, PartialEq, Eq)]
pub enum EventKind {
    Step,
    TextDelta,
    ToolStart,
    ToolEnd,
    AgentSwitched,
    ModelSwitched,
    Compaction,
    Done,
    Error,
}

/// The mathematical value of a [`WireValue`].
pub enum WireView {
    Null,
    Bool(bool),
    Int(i64),
    BigUInt(u64),
    Number(Seq<char>),
    Str(Seq<char>),
    Strs(Seq<Seq<char>>),
    Json(Seq<char>),
    Event(Box<EventView>),
}

/// The mathematical value of a [`SessionEvent`].
pub enum EventView {
    LlmRoundStart { started_at_ms: i64 },
    LlmRoundEnd,
    LlmUsage { total_tokens: u64, input_tokens: u64, output_tokens: u64 },
    TextDelta(Seq<char>),
    ReasoningDelta(Seq<char>),
    ToolStart { id: Seq<char>, name: Seq<char>, input: WireView },
    ToolEnd { id: Seq<char>, name: Seq<char>, output: Seq<char>, is_error: bool, images: Seq<Seq<char>> },
    AgentSwitch(Seq<char>),
    ModelSwitch(Seq<char>),
    Compaction(Seq<char>),
    CompactionDelta(Seq<char>),
    Status(Seq<char>),
    SubagentStart { id: Seq<char>, kind: Seq<char>, prompt: Seq<char>, child_session_id: Seq<char> },
    SubagentEnd { id: Seq<char>, ok: bool, cancelled: bool, summary: Seq<char> },
    SubagentChild { id: Seq<char>, ev: Box<EventView> },
    TranscriptReset(Seq<Seq<char>>),
    QueueConsumed { seq: i64, text: Seq<char> },
    SteerConsumed { seq: i64, text: Seq<char> },
    AutoPilot { phase: WireView, iteration: u32 },
    Done,
    Error(Seq<char>),
}

pub open spec fn views(v: Seq<String>) -> Seq<Seq<char>> {
    v.map_values(|s: String| s@)
}

pub open spec fn wire_view(v: WireValue) -> WireView
    decreases v,
{
    match v {
        WireValue::Null => WireView::Null,
        WireValue::Bool(b) => WireView::Bool(b),
        WireValue::Int(n) => WireView::Int(n),
        WireValue::BigUInt(n) => WireView::BigUInt(n),
        WireValue::Number(t) => WireView::Number(t@),
        WireValue::Str(s) => WireView::Str(s@),
        WireValue::Strs(v) => WireView::Strs(views(v@)),
        WireValue::Json(t) => WireView::Json(t@),
        WireValue::Event(b) => WireView::Event(Box::new(event_view(*b))),
    }
}

pub open spec fn event_view(e: SessionEvent) -> EventView
    decreases e,
{
    match e {
        SessionEvent::LlmRoundStart { started_at_ms } => EventView::LlmRoundStart { started_at_ms },
        SessionEvent::LlmRoundEnd => EventView::LlmRoundEnd,
        SessionEvent::LlmUsage { total_tokens, input_tokens, output_tokens } => EventView::LlmUsage {
            total_tokens,
            input_tokens,
            output_tokens,
        },
        SessionEvent::TextDelta(t) => EventView::TextDelta(t@),
        SessionEvent::ReasoningDelta(t) => EventView::ReasoningDelta(t@),
        SessionEvent::ToolStart { id, name, input } => EventView::ToolStart { id: id@, name: name@, input: wire_view(input) },
        SessionEvent::ToolEnd { id, name, output, is_error, images } => EventView::ToolEnd {
            id: id@,
            name: name@,
            output: output@,
            is_error,
            images: views(images@),
        },
        SessionEvent::AgentSwitch(a) => EventView::AgentSwitch(a@),
        SessionEvent::ModelSwitch(m) => EventView::ModelSwitch(m@),
        SessionEvent::Compaction(s) => EventView::Compaction(s@),
        SessionEvent::CompactionDelta(t) => EventView::CompactionDelta(t@),
        SessionEvent::Status(s) => EventView::Status(s@),
        SessionEvent::SubagentStart { id, kind, prompt, child_session_id } => EventView::SubagentStart {
            id: id@,
            kind: kind@,
            prompt: prompt@,
            child_session_id: child_session_id@,
        },
        SessionEvent::SubagentEnd { id, ok, cancelled, summary } => EventView::SubagentEnd {
            id: id@,
            ok,
            cancelled,
            summary: summary@,
        },
        SessionEvent::SubagentChild { id, ev } => EventView::SubagentChild { id: id@, ev: Box::new(event_view(*ev)) },
        SessionEvent::TranscriptReset(ms) => EventView::TranscriptReset(views(ms@)),
        SessionEvent::QueueConsumed { seq, text } => EventView::QueueConsumed { seq, text: text@ },
        SessionEvent::SteerConsumed { seq, text } => EventView::SteerConsumed { seq, text: text@ },
        SessionEvent::AutoPilot { phase, iteration } => EventView::AutoPilot { phase: wire_view(phase), iteration },
        SessionEvent::Done => EventView::Done,
        SessionEvent::Error(e) => EventView::Error(e@),
    }
}

/// The event name of each variant on the wire.
pub open spec fn kind_name(e: EventView) -> Seq<char> {
    match e {
        EventView::LlmRoundStart { .. } => "llm_round_start"@,
        EventView::LlmRoundEnd => "llm_round_end"@,
        EventView::LlmUsage { .. } => "llm_usage"@,
        EventView::TextDelta(_) => "text_delta"@,
        EventView::ReasoningDelta(_) => "reasoning_delta"@,
        EventView::ToolStart { .. } => "tool_start"@,
        EventView::ToolEnd { .. } => "tool_end"@,
        EventView::AgentSwitch(_) => "agent_switched"@,
        EventView::ModelSwitch(_) => "model_switched"@,
        EventView::Compaction(_) => "compaction"@,
        EventView::CompactionDelta(_) => "compaction_delta"@,
        EventView::Status(_) => "status"@,
        EventView::Done => "done"@,
        EventView::Error(_) => "error"@,
        EventView::SubagentStart { .. } => "subagent_start"@,
        EventView::SubagentEnd { .. } => "subagent_end"@,
        EventView::SubagentChild { .. } => "subagent_child"@,
        EventView::AutoPilot { .. } => "autopilot"@,
        EventView::TranscriptReset(_) => "transcript_reset"@,
        EventView::QueueConsumed { .. } => "queue_consumed"@,
        EventView::SteerConsumed { .. } => "steer_consumed"@,
    }
}

/// Every event name.
pub open spec fn kind_names() -> Seq<Seq<char>> {
    seq![
        "llm_round_start"@,
        "llm_round_end"@,
        "llm_usage"@,
        "text_delta"@,
        "reasoning_delta"@,
        "tool_start"@,
        "tool_end"@,
        "agent_switched"@,
        "model_switched"@,
        "compaction"@,
        "compaction_delta"@,
        "status"@,
        "subagent_start"@,
        "subagent_end"@,
        "subagent_child"@,
        "transcript_reset"@,
        "queue_consumed"@,
        "steer_consumed"@,
        "autopilot"@,
        "done"@,
        "error"@,
    ]
}

/// The coarse kind of each variant.
pub open spec fn coarse_of(e: EventView) -> EventKind {
    match e {
        EventView::LlmRoundStart { .. } | EventView::LlmRoundEnd | EventView::LlmUsage { .. } => EventKind::Step,
        EventView::TextDelta(_) => EventKind::TextDelta,
        EventView::ReasoningDelta(_) => EventKind::TextDelta,
        EventView::ToolStart { .. } => EventKind::ToolStart,
        EventView::ToolEnd { .. } => EventKind::ToolEnd,
        EventView::AgentSwitch(_) => EventKind::AgentSwitched,
        EventView::ModelSwitch(_) => EventKind::ModelSwitched,
        EventView::Compaction(_) => EventKind::Compaction,
        EventView::CompactionDelta(_) => EventKind::Compaction,
        EventView::Status(_) => EventKind::Step,
        EventView::Done => EventKind::Done,
        EventView::Error(_) => EventKind::Error,
        EventView::SubagentStart { .. } | EventView::SubagentEnd { .. } | EventView::SubagentChild { .. }
        | EventView::AutoPilot { .. } | EventView::QueueConsumed { .. } | EventView::SteerConsumed { .. } => EventKind::Step,
        EventView::TranscriptReset(_) => EventKind::Compaction,
    }
}

/// A payload: its top-level fields in order.
pub type DataView = Seq<(Seq<char>, WireView)>;

pub open spec fn data_view(d: Seq<(String, WireValue)>) -> DataView {
    d.map_values(|p: (String, WireValue)| (p.0@, wire_view(p.1)))
}

/// An unsigned integer as a payload number.
pub open spec fn num_u64(n: u64) -> WireView {
    if n <= i64::MAX {
        WireView::Int(n as i64)
    } else {
        WireView::BigUInt(n)
    }
}

/// The payload of each variant.
pub open spec fn payload(e: EventView) -> DataView {
    match e {
        EventView::LlmRoundStart { started_at_ms } => seq![("started_at_ms"@, WireView::Int(started_at_ms))],
        EventView::LlmRoundEnd => seq![],
        EventView::LlmUsage { total_tokens, input_tokens, output_tokens } => seq![
            ("total_tokens"@, num_u64(total_tokens)),
            ("input_tokens"@, num_u64(input_tokens)),
            ("output_tokens"@, num_u64(output_tokens)),
        ],
        EventView::TextDelta(t) => seq![("text"@, WireView::Str(t))],
        EventView::ReasoningDelta(t) => seq![("text"@, WireView::Str(t))],
        EventView::ToolStart { id, name, input } => seq![
            ("id"@, WireView::Str(id)),
            ("name"@, WireView::Str(name)),
            ("input"@, input),
        ],
        EventView::ToolEnd { id, name, output, is_error, images } => seq![
            ("id"@, WireView::Str(id)),
            ("name"@, WireView::Str(name)),
            ("output"@, WireView::Str(output)),
            ("is_error"@, WireView::Bool(is_error)),
            ("images"@, WireView::Strs(images)),
        ],
        EventView::AgentSwitch(a) => seq![("agent"@, WireView::Str(a))],
        EventView::ModelSwitch(m) => seq![("model"@, WireView::Str(m))],
        EventView::Compaction(s) => seq![("summary"@, WireView::Str(s))],
        EventView::CompactionDelta(t) => seq![("text"@, WireView::Str(t))],
        EventView::Status(s) => seq![("status"@, WireView::Str(s))],
        EventView::Done => seq![],
        EventView::Error(e) => seq![("error"@, WireView::Str(e))],
        EventView::SubagentStart { id, kind, prompt, child_session_id } => seq![
            ("id"@, WireView::Str(id)),
            ("kind"@, WireView::Str(kind)),
            ("prompt"@, WireView::Str(prompt)),
            ("child_session_id"@, WireView::Str(child_session_id)),
        ],
        EventView::SubagentEnd { id, ok, cancelled, summary } => seq![
            ("id"@, WireView::Str(id)),
            ("ok"@, WireView::Bool(ok)),
            ("cancelled"@, WireView::Bool(cancelled)),
            ("summary"@, WireView::Str(summary)),
        ],
        EventView::SubagentChild { id, ev } => seq![("id"@, WireView::Str(id)), ("event"@, WireView::Event(ev))],
        EventView::AutoPilot { phase, iteration } => seq![
            ("phase"@, phase),
            ("iteration"@, WireView::Int(iteration as i64)),
        ],
        EventView::TranscriptReset(_) => seq![],
        EventView::QueueConsumed { seq, text } => seq![("seq"@, WireView::Int(seq)), ("text"@, WireView::Str(text))],
        EventView::SteerConsumed { seq, text } => seq![("seq"@, WireView::Int(seq)), ("text"@, WireView::Str(text))],
    }
}

/// The first field named `key`.
pub open spec fn field(d: DataView, key: Seq<char>) -> Option<WireView>
    decreases d.len(),
{
    if d.len() == 0 {
        None
    } else if d[0].0 == key {
        Some(d[0].1)
    } else {
        field(d.drop_first(), key)
    }
}

/// The field as a string, when it is one.
pub open spec fn field_str(d: DataView, key: Seq<char>) -> Option<Seq<char>> {
    match field(d, key) {
        Some(WireView::Str(s)) => Some(s),
        _ => None,
    }
}

/// The field as an `i64`, when it is an integer in range.
pub open spec fn field_i64(d: DataView, key: Seq<char>) -> Option<i64> {
    match field(d, key) {
        Some(WireView::Int(n)) => Some(n),
        _ => None,
    }
}

/// The field as a `u64`, when it is a non-negative integer in range.
pub open spec fn field_u64(d: DataView, key: Seq<char>) -> Option<u64> {
    match field(d, key) {
        Some(WireView::Int(n)) => if n >= 0 {
            Some(n as u64)
        } else {
            None
        },
        Some(WireView::BigUInt(n)) => Some(n),
        _ => None,
    }
}

/// A `u64` field, 0 when absent or not one.
pub open spec fn field_u64_or_zero(d: DataView, key: Seq<char>) -> u64 {
    match field_u64(d, key) {
        Some(n) => n,
        None => 0,
    }
}

/// A string field, empty when absent or not one.
pub open spec fn field_str_or_empty(d: DataView, key: Seq<char>) -> Seq<char> {
    match field_str(d, key) {
        Some(s) => s,
        None => Seq::empty(),
    }
}

/// A required flag: absent is a failure, a non-boolean value reads false.
pub open spec fn field_flag(d: DataView, key: Seq<char>) -> Option<bool> {
    match field(d, key) {
        Some(WireView::Bool(b)) => Some(b),
        Some(_) => Some(false),
        None => None,
    }
}

/// A string-array field, empty when absent or not one.
pub open spec fn field_strs_or_empty(d: DataView, key: Seq<char>) -> Seq<Seq<char>> {
    match field(d, key) {
        Some(WireView::Strs(v)) => v,
        _ => Seq::empty(),
    }
}

/// An iteration count saturated to `u32`.
pub open spec fn saturate_u32(n: u64) -> u32 {
    if n <= u32::MAX {
        n as u32
    } else {
        u32::MAX
    }
}

/// The event an event name and payload decode to.
pub open spec fn decode(kind: Seq<char>, d: DataView) -> Option<EventView> {
    if kind == "llm_round_start"@ {
        match field_i64(d, "started_at_ms"@) {
            Some(t) => Some(EventView::LlmRoundStart { started_at_ms: t }),
            None => None,
        }
    } else if kind == "llm_round_end"@ {
        Some(EventView::LlmRoundEnd)
    } else if kind == "llm_usage"@ {
        match field_u64(d, "total_tokens"@) {
            Some(t) => Some(EventView::LlmUsage {
                total_tokens: t,
                input_tokens: field_u64_or_zero(d, "input_tokens"@),
                output_tokens: field_u64_or_zero(d, "output_tokens"@),
            }),
            None => None,
        }
    } else if kind == "text_delta"@ {
        match field_str(d, "text"@) {
            Some(t) => Some(EventView::TextDelta(t)),
            None => None,
        }
    } else if kind == "reasoning_delta"@ {
        match field_str(d, "text"@) {
            Some(t) => Some(EventView::ReasoningDelta(t)),
            None => None,
        }
    } else if kind == "tool_start"@ {
        match (field_str(d, "id"@), field_str(d, "name"@), field(d, "input"@)) {
            (Some(id), Some(name), Some(input)) => Some(EventView::ToolStart { id, name, input }),
            _ => None,
        }
    } else if kind == "tool_end"@ {
        match (field_str(d, "id"@), field_str(d, "name"@), field_str(d, "output"@), field_flag(d, "is_error"@)) {
            (Some(id), Some(name), Some(output), Some(is_error)) => Some(EventView::ToolEnd {
                id,
                name,
                output,
                is_error,
                images: field_strs_or_empty(d, "images"@),
            }),
            _ => None,
        }
    } else if kind == "agent_switched"@ {
        match field_str(d, "agent"@) {
            Some(a) => Some(EventView::AgentSwitch(a)),
            None => None,
        }
    } else if kind == "model_switched"@ {
        match field_str(d, "model"@) {
            Some(m) => Some(EventView::ModelSwitch(m)),
            None => None,
        }
    } else if kind == "compaction"@ {
        match field_str(d, "summary"@) {
            Some(s) => Some(EventView::Compaction(s)),
            None => None,
        }
    } else if kind == "compaction_delta"@ {
        match field_str(d, "text"@) {
            Some(t) => Some(EventView::CompactionDelta(t)),
            None => None,
        }
    } else if kind == "status"@ {
        match field_str(d, "status"@) {
            Some(s) => Some(EventView::Status(s)),
            None => None,
        }
    } else if kind == "subagent_start"@ {
        match (field_str(d, "id"@), field_str(d, "kind"@), field_str(d, "prompt"@), field_str(d, "child_session_id"@)) {
            (Some(id), Some(k), Some(prompt), Some(child_session_id)) => Some(EventView::SubagentStart {
                id,
                kind: k,
                prompt,
                child_session_id,
            }),
            _ => None,
        }
    } else if kind == "subagent_end"@ {
        match (field_str(d, "id"@), field_flag(d, "ok"@), field_flag(d, "cancelled"@), field_str(d, "summary"@)) {
            (Some(id), Some(ok), Some(cancelled), Some(summary)) => Some(EventView::SubagentEnd { id, ok, cancelled, summary }),
            _ => None,
        }
    } else if kind == "subagent_child"@ {
        match (field(d, "event"@), field_str(d, "id"@)) {
            (Some(WireView::Event(ev)), Some(id)) => Some(EventView::SubagentChild { id, ev }),
            _ => None,
        }
    } else if kind == "transcript_reset"@ {
        Some(EventView::TranscriptReset(Seq::empty()))
    } else if kind == "queue_consumed"@ {
        match field_i64(d, "seq"@) {
            Some(seq) => Some(EventView::QueueConsumed { seq, text: field_str_or_empty(d, "text"@) }),
            None => None,
        }
    } else if kind == "steer_consumed"@ {
        match field_i64(d, "seq"@) {
            Some(seq) => Some(EventView::SteerConsumed { seq, text: field_str_or_empty(d, "text"@) }),
            None => None,
        }
    } else if kind == "autopilot"@ {
        match (field_u64(d, "iteration"@), field(d, "phase"@)) {
            (Some(n), Some(phase)) => Some(EventView::AutoPilot { phase, iteration: saturate_u32(n) }),
            _ => None,
        }
    } else if kind == "done"@ {
        Some(EventView::Done)
    } else if kind == "error"@ {
        match field_str(d, "error"@) {
            Some(e) => Some(EventView::Error(e)),
            None => None,
        }
    } else {
        None
    }
}

fn copy_strings(v: &Vec<String>) -> (r: Vec<String>)
    ensures
        views(r@) == views(v@),
{
    let mut r: Vec<String> = Vec::new();
    let mut i: usize = 0;
    while i < v.len()
        invariant
            i <= v@.len(),
            r@.len() == i,
            forall|k: int| 0 <= k < i ==> (#[trigger] r@[k])@ == v@[k]@,
        decreases v.len() - i,
    {
        r.push(v[i].clone());
        i += 1;
    }
    proof {
        assert(views(r@) =~= views(v@));
    }
    r
}

/// A copy of a payload value.
pub fn copy_wire(v: &WireValue) -> (r: WireValue)
    ensures
        wire_view(r) == wire_view(*v),
    decreases v,
{
    match v {
        WireValue::Null => WireValue::Null,
        WireValue::Bool(b) => WireValue::Bool(*b),
        WireValue::Int(n) => WireValue::Int(*n),
        WireValue::BigUInt(n) => WireValue::BigUInt(*n),
        WireValue::Number(t) => WireValue::Number(t.clone()),
        WireValue::Str(s) => WireValue::Str(s.clone()),
        WireValue::Strs(v) => WireValue::Strs(copy_strings(v)),
        WireValue::Json(t) => WireValue::Json(t.clone()),
        WireValue::Event(b) => WireValue::Event(Box::new(copy_event(&**b))),
    }
}

/// A copy of an event.
pub fn copy_event(e: &SessionEvent) -> (r: SessionEvent)
    ensures
        event_view(r) == event_view(*e),
    decreases e,
{
    match e {
        SessionEvent::LlmRoundStart { started_at_ms } => SessionEvent::LlmRoundStart { started_at_ms: *started_at_ms },
        SessionEvent::LlmRoundEnd => SessionEvent::LlmRoundEnd,
        SessionEvent::LlmUsage { total_tokens, input_tokens, output_tokens } => SessionEvent::LlmUsage {
            total_tokens: *total_tokens,
            input_tokens: *input_tokens,
            output_tokens: *output_tokens,
        },
        SessionEvent::TextDelta(t) => SessionEvent::TextDelta(t.clone()),
        SessionEvent::ReasoningDelta(t) => SessionEvent::ReasoningDelta(t.clone()),
        SessionEvent::ToolStart { id, name, input } => SessionEvent::ToolStart {
            id: id.clone(),
            name: name.clone(),
            input: copy_wire(input),
        },
        SessionEvent::ToolEnd { id, name, output, is_error, images } => SessionEvent::ToolEnd {
            id: id.clone(),
            name: name.clone(),
            output: output.clone(),
            is_error: *is_error,
            images: copy_strings(images),
        },
        SessionEvent::AgentSwitch(a) => SessionEvent::AgentSwitch(a.clone()),
        SessionEvent::ModelSwitch(m) => SessionEvent::ModelSwitch(m.clone()),
        SessionEvent::Compaction(s) => SessionEvent::Compaction(s.clone()),
        SessionEvent::CompactionDelta(t) => SessionEvent::CompactionDelta(t.clone()),
        SessionEvent::Status(s) => SessionEvent::Status(s.clone()),
        SessionEvent::SubagentStart { id, kind, prompt, child_session_id } => SessionEvent::SubagentStart {
            id: id.clone(),
            kind: kind.clone(),
            prompt: prompt.clone(),
            child_session_id: child_session_id.clone(),
        },
        SessionEvent::SubagentEnd { id, ok, cancelled, summary } => SessionEvent::SubagentEnd {
            id: id.clone(),
            ok: *ok,
            cancelled: *cancelled,
            summary: summary.clone(),
        },
        SessionEvent::SubagentChild { id, ev } => SessionEvent::SubagentChild {
            id: id.clone(),
            ev: Box::new(copy_event(&**ev)),
        },
        SessionEvent::TranscriptReset(ms) => SessionEvent::TranscriptReset(copy_strings(ms)),
        SessionEvent::QueueConsumed { seq, text } => SessionEvent::QueueConsumed { seq: *seq, text: text.clone() },
        SessionEvent::SteerConsumed { seq, text } => SessionEvent::SteerConsumed { seq: *seq, text: text.clone() },
        SessionEvent::AutoPilot { phase, iteration } => SessionEvent::AutoPilot {
            phase: copy_wire(phase),
            iteration: *iteration,
        },
        SessionEvent::Done => SessionEvent::Done,
        SessionEvent::Error(e) => SessionEvent::Error(e.clone()),
    }
}

proof fn field_step(dv: DataView, key: Seq<char>, i: int)
    requires
        0 <= i < dv.len(),
    ensures
        field(dv.skip(i), key) == (if dv[i].0 == key {
            Some(dv[i].1)
        } else {
            field(dv.skip(i + 1), key)
        }),
{
    assert(dv.skip(i).drop_first() =~= dv.skip(i + 1));
}

/// The first field named `key`.
pub fn get_field<'a>(data: &'a [(String, WireValue)], key: &str) -> (r: Option<&'a WireValue>)
    ensures
        match r {
            Some(v) => field(data_view(data@), key@) == Some(wire_view(*v)),
            None => field(data_view(data@), key@) is None,
        },
{
    let ghost dv = data_view(data@);
    let mut i: usize = 0;
    proof {
        assert(dv.skip(0) =~= dv);
    }
    while i < data.len()
        invariant
            i <= data@.len(),
            dv == data_view(data@),
            field(dv, key@) == field(dv.skip(i as int), key@),
        decreases data.len() - i,
    {
        proof {
            field_step(dv, key@, i as int);
        }
        if str_eq(data[i].0.as_str(), key) {
            return Some(&data[i].1);
        }
        i += 1;
    }
    None
}

pub fn get_str(data: &[(String, WireValue)], key: &str) -> (r: Option<String>)
    ensures
        match r {
            Some(s) => field_str(data_view(data@), key@) == Some(s@),
            None => field_str(data_view(data@), key@) is None,
        },
{
    match get_field(data, key) {
        Some(WireValue::Str(s)) => Some(s.clone()),
        _ => None,
    }
}

pub fn get_str_or_empty(data: &[(String, WireValue)], key: &str) -> (r: String)
    ensures
        r@ == field_str_or_empty(data_view(data@), key@),
{
    match get_field(data, key) {
        Some(WireValue::Str(s)) => s.clone(),
        _ => String::new(),
    }
}

pub fn get_i64(data: &[(String, WireValue)], key: &str) -> (r: Option<i64>)
    ensures
        r == field_i64(data_view(data@), key@),
{
    match get_field(data, key) {
        Some(WireValue::Int(n)) => Some(*n),
        _ => None,
    }
}

pub fn get_u64(data: &[(String, WireValue)], key: &str) -> (r: Option<u64>)
    ensures
        r == field_u64(data_view(data@), key@),
{
    match get_field(data, key) {
        Some(WireValue::Int(n)) => if *n >= 0 {
            Some(*n as u64)
        } else {
            None
        },
        Some(WireValue::BigUInt(n)) => Some(*n),
        _ => None,
    }
}

pub fn get_flag(data: &[(String, WireValue)], key: &str) -> (r: Option<bool>)
    ensures
        r == field_flag(data_view(data@), key@),
{
    match get_field(data, key) {
        Some(WireValue::Bool(b)) => Some(*b),
        Some(_) => Some(false),
        None => None,
    }
}

pub fn get_strs_or_empty(data: &[(String, WireValue)], key: &str) -> (r: Vec<String>)
    ensures
        views(r@) == field_strs_or_empty(data_view(data@), key@),
{
    match get_field(data, key) {
        Some(WireValue::Strs(v)) => copy_strings(v),
        _ => {
            let r: Vec<String> = Vec::new();
            proof {
                assert(views(r@) =~= Seq::<Seq<char>>::empty());
            }
            r
        },
    }
}

pub fn get_any(data: &[(String, WireValue)], key: &str) -> (r: Option<WireValue>)
    ensures
        match r {
            Some(v) => field(data_view(data@), key@) == Some(wire_view(v)),
            None => field(data_view(data@), key@) is None,
        },
{
    match get_field(data, key) {
        Some(v) => Some(copy_wire(v)),
        None => None,
    }
}

pub fn get_event(data: &[(String, WireValue)], key: &str) -> (r: Option<SessionEvent>)
    ensures
        match r {
            Some(e) => field(data_view(data@), key@) == Some(WireView::Event(Box::new(event_view(e)))),
            None => !(field(data_view(data@), key@) matches Some(WireView::Event(_))),
        },
{
    match get_field(data, key) {
        Some(WireValue::Event(b)) => Some(copy_event(&**b)),
        _ => None,
    }
}

/// An unsigned integer as a payload value.
pub fn wire_u64(n: u64) -> (r: WireValue)
    ensures
        wire_view(r) == num_u64(n),
{
    if n <= i64::MAX as u64 {
        WireValue::Int(n as i64)
    } else {
        WireValue::BigUInt(n)
    }
}

fn entry(key: &str, v: WireValue) -> (r: (String, WireValue))
    ensures
        r.0@ == key@,
        r.1 == v,
{
    (key.to_string(), v)
}

impl SessionEvent {
    /// The event name of this variant on the wire.
    pub fn sse_kind(&self) -> (r: &'static str)
        ensures
            r@ == kind_name(event_view(*self)),
    {
        match self {
            SessionEvent::LlmRoundStart { .. } => "llm_round_start",
            SessionEvent::LlmRoundEnd => "llm_round_end",
            SessionEvent::LlmUsage { .. } => "llm_usage",
            SessionEvent::TextDelta(_) => "text_delta",
            SessionEvent::ReasoningDelta(_) => "reasoning_delta",
            SessionEvent::ToolStart { .. } => "tool_start",
            SessionEvent::ToolEnd { .. } => "tool_end",
            SessionEvent::AgentSwitch(_) => "agent_switched",
            SessionEvent::ModelSwitch(_) => "model_switched",
            SessionEvent::Compaction(_) => "compaction",
            SessionEvent::CompactionDelta(_) => "compaction_delta",
            SessionEvent::Status(_) => "status",
            SessionEvent::Done => "done",
            SessionEvent::Error(_) => "error",
            SessionEvent::SubagentStart { .. } => "subagent_start",
            SessionEvent::SubagentEnd { .. } => "subagent_end",
            SessionEvent::SubagentChild { .. } => "subagent_child",
            SessionEvent::AutoPilot { .. } => "autopilot",
            SessionEvent::TranscriptReset(_) => "transcript_reset",
            SessionEvent::QueueConsumed { .. } => "queue_consumed",
            SessionEvent::SteerConsumed { .. } => "steer_consumed",
        }
    }

    /// The coarse kind this event is logged under.
    pub fn coarse_kind(&self) -> (r: EventKind)
        ensures
            r == coarse_of(event_view(*self)),
    {
        match self {
            SessionEvent::LlmRoundStart { .. } | SessionEvent::LlmRoundEnd | SessionEvent::LlmUsage { .. } => EventKind::Step,
            SessionEvent::TextDelta(_) => EventKind::TextDelta,
            SessionEvent::ReasoningDelta(_) => EventKind::TextDelta,
            SessionEvent::ToolStart { .. } => EventKind::ToolStart,
            SessionEvent::ToolEnd { .. } => EventKind::ToolEnd,
            SessionEvent::AgentSwitch(_) => EventKind::AgentSwitched,
            SessionEvent::ModelSwitch(_) => EventKind::ModelSwitched,
            SessionEvent::Compaction(_) => EventKind::Compaction,
            SessionEvent::CompactionDelta(_) => EventKind::Compaction,
            SessionEvent::Status(_) => EventKind::Step,
            SessionEvent::Done => EventKind::Done,
            SessionEvent::Error(_) => EventKind::Error,
            SessionEvent::SubagentStart { .. } | SessionEvent::SubagentEnd { .. } | SessionEvent::SubagentChild { .. }
            | SessionEvent::AutoPilot { .. } | SessionEvent::QueueConsumed { .. } | SessionEvent::SteerConsumed { .. } => EventKind::Step,
            SessionEvent::TranscriptReset(_) => EventKind::Compaction,
        }
    }

    /// The payload of this event on the wire.
    pub fn sse_data(&self) -> (r: Vec<(String, WireValue)>)
        ensures
            data_view(r@) == payload(event_view(*self)),
    {
        let mut r: Vec<(String, WireValue)> = Vec::new();
        match self {
            SessionEvent::LlmRoundStart { started_at_ms } => {
                r.push(entry("started_at_ms", WireValue::Int(*started_at_ms)));
            },
            SessionEvent::LlmRoundEnd => {},
            SessionEvent::LlmUsage { total_tokens, input_tokens, output_tokens } => {
                r.push(entry("total_tokens", wire_u64(*total_tokens)));
                r.push(entry("input_tokens", wire_u64(*input_tokens)));
                r.push(entry("output_tokens", wire_u64(*output_tokens)));
            },
            SessionEvent::TextDelta(t) => {
                r.push(entry("text", WireValue::Str(t.clone())));
            },
            SessionEvent::ReasoningDelta(t) => {
                r.push(entry("text", WireValue::Str(t.clone())));
            },
            SessionEvent::ToolStart { id, name, input } => {
                r.push(entry("id", WireValue::Str(id.clone())));
                r.push(entry("name", WireValue::Str(name.clone())));
                r.push(entry("input", copy_wire(input)));
            },
            SessionEvent::ToolEnd { id, name, output, is_error, images } => {
                r.push(entry("id", WireValue::Str(id.clone())));
                r.push(entry("name", WireValue::Str(name.clone())));
                r.push(entry("output", WireValue::Str(output.clone())));
                r.push(entry("is_error", WireValue::Bool(*is_error)));
                r.push(entry("images", WireValue::Strs(copy_strings(images))));
            },
            SessionEvent::AgentSwitch(a) => {
                r.push(entry("agent", WireValue::Str(a.clone())));
            },
            SessionEvent::ModelSwitch(m) => {
                r.push(entry("model", WireValue::Str(m.clone())));
            },
            SessionEvent::Compaction(s) => {
                r.push(entry("summary", WireValue::Str(s.clone())));
            },
            SessionEvent::CompactionDelta(t) => {
                r.push(entry("text", WireValue::Str(t.clone())));
            },
            SessionEvent::Status(s) => {
                r.push(entry("status", WireValue::Str(s.clone())));
            },
            SessionEvent::Done => {},
            SessionEvent::Error(e) => {
                r.push(entry("error", WireValue::Str(e.clone())));
            },
            SessionEvent::SubagentStart { id, kind, prompt, child_session_id } => {
                r.push(entry("id", WireValue::Str(id.clone())));
                r.push(entry("kind", WireValue::Str(kind.clone())));
                r.push(entry("prompt", WireValue::Str(prompt.clone())));
                r.push(entry("child_session_id", WireValue::Str(child_session_id.clone())));
            },
            SessionEvent::SubagentEnd { id, ok, cancelled, summary } => {
                r.push(entry("id", WireValue::Str(id.clone())));
                r.push(entry("ok", WireValue::Bool(*ok)));
                r.push(entry("cancelled", WireValue::Bool(*cancelled)));
                r.push(entry("summary", WireValue::Str(summary.clone())));
            },
            SessionEvent::SubagentChild { id, ev } => {
                r.push(entry("id", WireValue::Str(id.clone())));
                r.push(entry("event", WireValue::Event(Box::new(copy_event(&**ev)))));
            },
            SessionEvent::AutoPilot { phase, iteration } => {
                r.push(entry("phase", copy_wire(phase)));
                r.push(entry("iteration", WireValue::Int(*iteration as i64)));
            },
            SessionEvent::TranscriptReset(_) => {},
            SessionEvent::QueueConsumed { seq, text } => {
                r.push(entry("seq", WireValue::Int(*seq)));
                r.push(entry("text", WireValue::Str(text.clone())));
            },
            SessionEvent::SteerConsumed { seq, text } => {
                r.push(entry("seq", WireValue::Int(*seq)));
                r.push(entry("text", WireValue::Str(text.clone())));
            },
        }
        proof {
            assert(data_view(r@) =~= payload(event_view(*self)));
        }
        r
    }

    /// Rebuild an event from its wire name and payload; `None` for an
    /// unknown name or a payload missing a required field.
    pub fn from_sse(kind: &str, data: &[(String, WireValue)]) -> (r: Option<SessionEvent>)
        ensures
            match r {
                Some(e) => decode(kind@, data_view(data@)) == Some(event_view(e)),
                None => decode(kind@, data_view(data@)) is None,
            },
    {
        if str_eq(kind, "llm_round_start") {
            match get_i64(data, "started_at_ms") {
                Some(t) => Some(SessionEvent::LlmRoundStart { started_at_ms: t }),
                None => None,
            }
        } else if str_eq(kind, "llm_round_end") {
            Some(SessionEvent::LlmRoundEnd)
        } else if str_eq(kind, "llm_usage") {
            match get_u64(data, "total_tokens") {
                Some(t) => {
                    let i = match get_u64(data, "input_tokens") {
                        Some(n) => n,
                        None => 0,
                    };
                    let o = match get_u64(data, "output_tokens") {
                        Some(n) => n,
                        None => 0,
                    };
                    Some(SessionEvent::LlmUsage { total_tokens: t, input_tokens: i, output_tokens: o })
                },
                None => None,
            }
        } else if str_eq(kind, "text_delta") {
            match get_str(data, "text") {
                Some(t) => Some(SessionEvent::TextDelta(t)),
                None => None,
            }
        } else if str_eq(kind, "reasoning_delta") {
            match get_str(data, "text") {
                Some(t) => Some(SessionEvent::ReasoningDelta(t)),
                None => None,
            }
        } else if str_eq(kind, "tool_start") {
            match (get_str(data, "id"), get_str(data, "name"), get_any(data, "input")) {
                (Some(id), Some(name), Some(input)) => Some(SessionEvent::ToolStart { id, name, input }),
                _ => None,
            }
        } else if str_eq(kind, "tool_end") {
            match (get_str(data, "id"), get_str(data, "name"), get_str(data, "output"), get_flag(data, "is_error")) {
                (Some(id), Some(name), Some(output), Some(is_error)) => Some(SessionEvent::ToolEnd {
                    id,
                    name,
                    output,
                    is_error,
                    images: get_strs_or_empty(data, "images"),
                }),
                _ => None,
            }
        } else if str_eq(kind, "agent_switched") {
            match get_str(data, "agent") {
                Some(a) => Some(SessionEvent::AgentSwitch(a)),
                None => None,
            }
        } else if str_eq(kind, "model_switched") {
            match get_str(data, "model") {
                Some(m) => Some(SessionEvent::ModelSwitch(m)),
                None => None,
            }
        } else if str_eq(kind, "compaction") {
            match get_str(data, "summary") {
                Some(s) => Some(SessionEvent::Compaction(s)),
                None => None,
            }
        } else if str_eq(kind, "compaction_delta") {
            match get_str(data, "text") {
                Some(t) => Some(SessionEvent::CompactionDelta(t)),
                None => None,
            }
        } else if str_eq(kind, "status") {
            match get_str(data, "status") {
                Some(s) => Some(SessionEvent::Status(s)),
                None => None,
            }
        } else if str_eq(kind, "subagent_start") {
            match (get_str(data, "id"), get_str(data, "kind"), get_str(data, "prompt"), get_str(data, "child_session_id")) {
                (Some(id), Some(k), Some(prompt), Some(child_session_id)) => Some(SessionEvent::SubagentStart {
                    id,
                    kind: k,
                    prompt,
                    child_session_id,
                }),
                _ => None,
            }
        } else if str_eq(kind, "subagent_end") {
            match (get_str(data, "id"), get_flag(data, "ok"), get_flag(data, "cancelled"), get_str(data, "summary")) {
                (Some(id), Some(ok), Some(cancelled), Some(summary)) => Some(SessionEvent::SubagentEnd { id, ok, cancelled, summary }),
                _ => None,
            }
        } else if str_eq(kind, "subagent_child") {
            match (get_event(data, "event"), get_str(data, "id")) {
                (Some(ev), Some(id)) => Some(SessionEvent::SubagentChild { id, ev: Box::new(ev) }),
                _ => None,
            }
        } else if str_eq(kind, "transcript_reset") {
            let ms: Vec<String> = Vec::new();
            proof {
                assert(views(ms@) =~= Seq::<Seq<char>>::empty());
            }
            Some(SessionEvent::TranscriptReset(ms))
        } else if str_eq(kind, "queue_consumed") {
            match get_i64(data, "seq") {
                Some(seq) => Some(SessionEvent::QueueConsumed { seq, text: get_str_or_empty(data, "text") }),
                None => None,
            }
        } else if str_eq(kind, "steer_consumed") {
            match get_i64(data, "seq") {
                Some(seq) => Some(SessionEvent::SteerConsumed { seq, text: get_str_or_empty(data, "text") }),
                None => None,
            }
        } else if str_eq(kind, "autopilot") {
            match (get_u64(data, "iteration"), get_any(data, "phase")) {
                (Some(n), Some(phase)) => {
                    let iteration: u32 = if n <= u32::MAX as u64 {
                        n as u32
                    } else {
                        u32::MAX
                    };
                    Some(SessionEvent::AutoPilot { phase, iteration })
                },
                _ => None,
            }
        } else if str_eq(kind, "done") {
            Some(SessionEvent::Done)
        } else if str_eq(kind, "error") {
            match get_str(data, "error") {
                Some(e) => Some(SessionEvent::Error(e)),
                None => None,
            }
        } else {
            None
        }
    }
}

/// Law: decoding an event's wire name and payload gives the event back.
/// The one exception is a transcript reset that carries messages: its
/// payload is empty, so it comes back without them.
#[verifier::rlimit(80)]
#[verifier::spinoff_prover]
pub proof fn sse_roundtrip(e: EventView)
    requires
        e matches EventView::TranscriptReset(ms) ==> ms.len() == 0,
    ensures
        decode(kind_name(e), payload(e)) == Some(e),
{
    reveal_strlit("agent");
    reveal_strlit("agent_switched");
    reveal_strlit("autopilot");
    reveal_strlit("cancelled");
    reveal_strlit("child_session_id");
    reveal_strlit("compaction");
    reveal_strlit("compaction_delta");
    reveal_strlit("done");
    reveal_strlit("error");
    reveal_strlit("event");
    reveal_strlit("id");
    reveal_strlit("images");
    reveal_strlit("input");
    reveal_strlit("input_tokens");
    reveal_strlit("is_error");
    reveal_strlit("iteration");
    reveal_strlit("kind");
    reveal_strlit("llm_round_end");
    reveal_strlit("llm_round_start");
    reveal_strlit("llm_usage");
    reveal_strlit("model");
    reveal_strlit("model_switched");
    reveal_strlit("name");
    reveal_strlit("ok");
    reveal_strlit("output");
    reveal_strlit("output_tokens");
    reveal_strlit("phase");
    reveal_strlit("prompt");
    reveal_strlit("queue_consumed");
    reveal_strlit("reasoning_delta");
    reveal_strlit("seq");
    reveal_strlit("started_at_ms");
    reveal_strlit("status");
    reveal_strlit("steer_consumed");
    reveal_strlit("subagent_child");
    reveal_strlit("subagent_end");
    reveal_strlit("subagent_start");
    reveal_strlit("summary");
    reveal_strlit("text");
    reveal_strlit("text_delta");
    reveal_strlit("tool_end");
    reveal_strlit("tool_start");
    reveal_strlit("total_tokens");
    reveal_strlit("transcript_reset");
    reveal_with_fuel(field, 6);
    match e {
        EventView::LlmRoundStart { .. } => {

        },
        EventView::LlmRoundEnd => {
            assert("llm_round_end"@.len() != "llm_round_start"@.len());
        },
        EventView::LlmUsage { total_tokens, input_tokens, output_tokens } => {
            assert("llm_usage"@.len() != "llm_round_start"@.len());
            assert("llm_usage"@.len() != "llm_round_end"@.len());
            assert("input_tokens"@[0] != "total_tokens"@[0]);
            assert("output_tokens"@.len() != "total_tokens"@.len());
            assert("output_tokens"@.len() != "input_tokens"@.len());
            let d = payload(e);
            assert(field(d, "input_tokens"@) == Some(num_u64(input_tokens)));
            assert(field(d, "output_tokens"@) == Some(num_u64(output_tokens)));
        },
        EventView::TextDelta(_) => {
            assert("text_delta"@.len() != "llm_round_start"@.len());
            assert("text_delta"@.len() != "llm_round_end"@.len());
            assert("text_delta"@.len() != "llm_usage"@.len());
        },
        EventView::ReasoningDelta(_) => {
            assert("reasoning_delta"@[0] != "llm_round_start"@[0]);
            assert("reasoning_delta"@.len() != "llm_round_end"@.len());
            assert("reasoning_delta"@.len() != "llm_usage"@.len());
            assert("reasoning_delta"@.len() != "text_delta"@.len());
        },
        EventView::ToolStart { .. } => {
            assert("tool_start"@.len() != "llm_round_start"@.len());
            assert("tool_start"@.len() != "llm_round_end"@.len());
            assert("tool_start"@.len() != "llm_usage"@.len());
            assert("tool_start"@[1] != "text_delta"@[1]);
            assert("tool_start"@.len() != "reasoning_delta"@.len());
            assert("name"@.len() != "id"@.len());
            assert("input"@.len() != "id"@.len());
            assert("input"@.len() != "name"@.len());
        },
        EventView::ToolEnd { .. } => {
            assert("tool_end"@.len() != "llm_round_start"@.len());
            assert("tool_end"@.len() != "llm_round_end"@.len());
            assert("tool_end"@.len() != "llm_usage"@.len());
            assert("tool_end"@.len() != "text_delta"@.len());
            assert("tool_end"@.len() != "reasoning_delta"@.len());
            assert("tool_end"@.len() != "tool_start"@.len());
            assert("name"@.len() != "id"@.len());
            assert("output"@.len() != "id"@.len());
            assert("output"@.len() != "name"@.len());
            assert("is_error"@.len() != "id"@.len());
            assert("is_error"@.len() != "name"@.len());
            assert("is_error"@.len() != "output"@.len());
            assert("images"@.len() != "id"@.len());
            assert("images"@.len() != "name"@.len());
            assert("images"@[0] != "output"@[0]);
            assert("images"@.len() != "is_error"@.len());
        },
        EventView::AgentSwitch(_) => {
            assert("agent_switched"@.len() != "llm_round_start"@.len());
            assert("agent_switched"@.len() != "llm_round_end"@.len());
            assert("agent_switched"@.len() != "llm_usage"@.len());
            assert("agent_switched"@.len() != "text_delta"@.len());
            assert("agent_switched"@.len() != "reasoning_delta"@.len());
            assert("agent_switched"@.len() != "tool_start"@.len());
            assert("agent_switched"@.len() != "tool_end"@.len());
        },
        EventView::ModelSwitch(_) => {
            assert("model_switched"@.len() != "llm_round_start"@.len());
            assert("model_switched"@.len() != "llm_round_end"@.len());
            assert("model_switched"@.len() != "llm_usage"@.len());
            assert("model_switched"@.len() != "text_delta"@.len());
            assert("model_switched"@.len() != "reasoning_delta"@.len());
            assert("model_switched"@.len() != "tool_start"@.len());
            assert("model_switched"@.len() != "tool_end"@.len());
            assert("model_switched"@[0] != "agent_switched"@[0]);
        },
        EventView::Compaction(_) => {
            assert("compaction"@.len() != "llm_round_start"@.len());
            assert("compaction"@.len() != "llm_round_end"@.len());
            assert("compaction"@.len() != "llm_usage"@.len());
            assert("compaction"@[0] != "text_delta"@[0]);
            assert("compaction"@.len() != "reasoning_delta"@.len());
            assert("compaction"@[0] != "tool_start"@[0]);
            assert("compaction"@.len() != "tool_end"@.len());
            assert("compaction"@.len() != "agent_switched"@.len());
            assert("compaction"@.len() != "model_switched"@.len());
        },
        EventView::CompactionDelta(_) => {
            assert("compaction_delta"@.len() != "llm_round_start"@.len());
            assert("compaction_delta"@.len() != "llm_round_end"@.len());
            assert("compaction_delta"@.len() != "llm_usage"@.len());
            assert("compaction_delta"@.len() != "text_delta"@.len());
            assert("compaction_delta"@.len() != "reasoning_delta"@.len());
            assert("compaction_delta"@.len() != "tool_start"@.len());
            assert("compaction_delta"@.len() != "tool_end"@.len());
            assert("compaction_delta"@.len() != "agent_switched"@.len());
            assert("compaction_delta"@.len() != "model_switched"@.len());
            assert("compaction_delta"@.len() != "compaction"@.len());
        },
        EventView::Status(_) => {
            assert("status"@.len() != "llm_round_start"@.len());
            assert("status"@.len() != "llm_round_end"@.len());
            assert("status"@.len() != "llm_usage"@.len());
            assert("status"@.len() != "text_delta"@.len());
            assert("status"@.len() != "reasoning_delta"@.len());
            assert("status"@.len() != "tool_start"@.len());
            assert("status"@.len() != "tool_end"@.len());
            assert("status"@.len() != "agent_switched"@.len());
            assert("status"@.len() != "model_switched"@.len());
            assert("status"@.len() != "compaction"@.len());
            assert("status"@.len() != "compaction_delta"@.len());
        },
        EventView::SubagentStart { .. } => {
            assert("subagent_start"@.len() != "llm_round_start"@.len());
            assert("subagent_start"@.len() != "llm_round_end"@.len());
            assert("subagent_start"@.len() != "llm_usage"@.len());
            assert("subagent_start"@.len() != "text_delta"@.len());
            assert("subagent_start"@.len() != "reasoning_delta"@.len());
            assert("subagent_start"@.len() != "tool_start"@.len());
            assert("subagent_start"@.len() != "tool_end"@.len());
            assert("subagent_start"@[0] != "agent_switched"@[0]);
            assert("subagent_start"@[0] != "model_switched"@[0]);
            assert("subagent_start"@.len() != "compaction"@.len());
            assert("subagent_start"@.len() != "compaction_delta"@.len());
            assert("subagent_start"@.len() != "status"@.len());
            assert("kind"@.len() != "id"@.len());
            assert("prompt"@.len() != "id"@.len());
            assert("prompt"@.len() != "kind"@.len());
            assert("child_session_id"@.len() != "id"@.len());
            assert("child_session_id"@.len() != "kind"@.len());
            assert("child_session_id"@.len() != "prompt"@.len());
        },
        EventView::SubagentEnd { .. } => {
            assert("subagent_end"@.len() != "llm_round_start"@.len());
            assert("subagent_end"@.len() != "llm_round_end"@.len());
            assert("subagent_end"@.len() != "llm_usage"@.len());
            assert("subagent_end"@.len() != "text_delta"@.len());
            assert("subagent_end"@.len() != "reasoning_delta"@.len());
            assert("subagent_end"@.len() != "tool_start"@.len());
            assert("subagent_end"@.len() != "tool_end"@.len());
            assert("subagent_end"@.len() != "agent_switched"@.len());
            assert("subagent_end"@.len() != "model_switched"@.len());
            assert("subagent_end"@.len() != "compaction"@.len());
            assert("subagent_end"@.len() != "compaction_delta"@.len());
            assert("subagent_end"@.len() != "status"@.len());
            assert("subagent_end"@.len() != "subagent_start"@.len());
            assert("ok"@[0] != "id"@[0]);
            assert("cancelled"@.len() != "id"@.len());
            assert("cancelled"@.len() != "ok"@.len());
            assert("summary"@.len() != "id"@.len());
            assert("summary"@.len() != "ok"@.len());
            assert("summary"@.len() != "cancelled"@.len());
        },
        EventView::SubagentChild { .. } => {
            assert("subagent_child"@.len() != "llm_round_start"@.len());
            assert("subagent_child"@.len() != "llm_round_end"@.len());
            assert("subagent_child"@.len() != "llm_usage"@.len());
            assert("subagent_child"@.len() != "text_delta"@.len());
            assert("subagent_child"@.len() != "reasoning_delta"@.len());
            assert("subagent_child"@.len() != "tool_start"@.len());
            assert("subagent_child"@.len() != "tool_end"@.len());
            assert("subagent_child"@[0] != "agent_switched"@[0]);
            assert("subagent_child"@[0] != "model_switched"@[0]);
            assert("subagent_child"@.len() != "compaction"@.len());
            assert("subagent_child"@.len() != "compaction_delta"@.len());
            assert("subagent_child"@.len() != "status"@.len());
            assert("subagent_child"@[9] != "subagent_start"@[9]);
            assert("subagent_child"@.len() != "subagent_end"@.len());
            assert("event"@.len() != "id"@.len());
        },
        EventView::TranscriptReset(ms) => {
            assert("transcript_reset"@.len() != "llm_round_start"@.len());
            assert("transcript_reset"@.len() != "llm_round_end"@.len());
            assert("transcript_reset"@.len() != "llm_usage"@.len());
            assert("transcript_reset"@.len() != "text_delta"@.len());
            assert("transcript_reset"@.len() != "reasoning_delta"@.len());
            assert("transcript_reset"@.len() != "tool_start"@.len());
            assert("transcript_reset"@.len() != "tool_end"@.len());
            assert("transcript_reset"@.len() != "agent_switched"@.len());
            assert("transcript_reset"@.len() != "model_switched"@.len());
            assert("transcript_reset"@.len() != "compaction"@.len());
            assert("transcript_reset"@[0] != "compaction_delta"@[0]);
            assert("transcript_reset"@.len() != "status"@.len());
            assert("transcript_reset"@.len() != "subagent_start"@.len());
            assert("transcript_reset"@.len() != "subagent_end"@.len());
            assert("transcript_reset"@.len() != "subagent_child"@.len());
            assert(ms =~= Seq::<Seq<char>>::empty());
        },
        EventView::QueueConsumed { .. } => {
            assert("queue_consumed"@.len() != "llm_round_start"@.len());
            assert("queue_consumed"@.len() != "llm_round_end"@.len());
            assert("queue_consumed"@.len() != "llm_usage"@.len());
            assert("queue_consumed"@.len() != "text_delta"@.len());
            assert("queue_consumed"@.len() != "reasoning_delta"@.len());
            assert("queue_consumed"@.len() != "tool_start"@.len());
            assert("queue_consumed"@.len() != "tool_end"@.len());
            assert("queue_consumed"@[0] != "agent_switched"@[0]);
            assert("queue_consumed"@[0] != "model_switched"@[0]);
            assert("queue_consumed"@.len() != "compaction"@.len());
            assert("queue_consumed"@.len() != "compaction_delta"@.len());
            assert("queue_consumed"@.len() != "status"@.len());
            assert("queue_consumed"@[0] != "subagent_start"@[0]);
            assert("queue_consumed"@.len() != "subagent_end"@.len());
            assert("queue_consumed"@[0] != "subagent_child"@[0]);
            assert("queue_consumed"@.len() != "transcript_reset"@.len());
            assert("text"@.len() != "seq"@.len());
        },
        EventView::SteerConsumed { .. } => {
            assert("steer_consumed"@.len() != "llm_round_start"@.len());
            assert("steer_consumed"@.len() != "llm_round_end"@.len());
            assert("steer_consumed"@.len() != "llm_usage"@.len());
            assert("steer_consumed"@.len() != "text_delta"@.len());
            assert("steer_consumed"@.len() != "reasoning_delta"@.len());
            assert("steer_consumed"@.len() != "tool_start"@.len());
            assert("steer_consumed"@.len() != "tool_end"@.len());
            assert("steer_consumed"@[0] != "agent_switched"@[0]);
            assert("steer_consumed"@[0] != "model_switched"@[0]);
            assert("steer_consumed"@.len() != "compaction"@.len());
            assert("steer_consumed"@.len() != "compaction_delta"@.len());
            assert("steer_consumed"@.len() != "status"@.len());
            assert("steer_consumed"@[1] != "subagent_start"@[1]);
            assert("steer_consumed"@.len() != "subagent_end"@.len());
            assert("steer_consumed"@[1] != "subagent_child"@[1]);
            assert("steer_consumed"@.len() != "transcript_reset"@.len());
            assert("steer_consumed"@[0] != "queue_consumed"@[0]);
            assert("text"@.len() != "seq"@.len());
        },
        EventView::AutoPilot { phase, iteration } => {
            assert("autopilot"@.len() != "llm_round_start"@.len());
            assert("autopilot"@.len() != "llm_round_end"@.len());
            assert("autopilot"@[0] != "llm_usage"@[0]);
            assert("autopilot"@.len() != "text_delta"@.len());
            assert("autopilot"@.len() != "reasoning_delta"@.len());
            assert("autopilot"@.len() != "tool_start"@.len());
            assert("autopilot"@.len() != "tool_end"@.len());
            assert("autopilot"@.len() != "agent_switched"@.len());
            assert("autopilot"@.len() != "model_switched"@.len());
            assert("autopilot"@.len() != "compaction"@.len());
            assert("autopilot"@.len() != "compaction_delta"@.len());
            assert("autopilot"@.len() != "status"@.len());
            assert("autopilot"@.len() != "subagent_start"@.len());
            assert("autopilot"@.len() != "subagent_end"@.len());
            assert("autopilot"@.len() != "subagent_child"@.len());
            assert("autopilot"@.len() != "transcript_reset"@.len());
            assert("autopilot"@.len() != "queue_consumed"@.len());
            assert("autopilot"@.len() != "steer_consumed"@.len());
            assert("iteration"@.len() != "phase"@.len());
            let d = payload(e);
            assert(field(d, "iteration"@) == Some(WireView::Int(iteration as i64)));
            assert(field(d, "phase"@) == Some(phase));
            assert(((iteration as i64) as u64) == iteration as u64);
            assert(saturate_u32(iteration as u64) == iteration);
        },
        EventView::Done => {
            assert("done"@.len() != "llm_round_start"@.len());
            assert("done"@.len() != "llm_round_end"@.len());
            assert("done"@.len() != "llm_usage"@.len());
            assert("done"@.len() != "text_delta"@.len());
            assert("done"@.len() != "reasoning_delta"@.len());
            assert("done"@.len() != "tool_start"@.len());
            assert("done"@.len() != "tool_end"@.len());
            assert("done"@.len() != "agent_switched"@.len());
            assert("done"@.len() != "model_switched"@.len());
            assert("done"@.len() != "compaction"@.len());
            assert("done"@.len() != "compaction_delta"@.len());
            assert("done"@.len() != "status"@.len());
            assert("done"@.len() != "subagent_start"@.len());
            assert("done"@.len() != "subagent_end"@.len());
            assert("done"@.len() != "subagent_child"@.len());
            assert("done"@.len() != "transcript_reset"@.len());
            assert("done"@.len() != "queue_consumed"@.len());
            assert("done"@.len() != "steer_consumed"@.len());
            assert("done"@.len() != "autopilot"@.len());
        },
        EventView::Error(_) => {
            assert("error"@.len() != "llm_round_start"@.len());
            assert("error"@.len() != "llm_round_end"@.len());
            assert("error"@.len() != "llm_usage"@.len());
            assert("error"@.len() != "text_delta"@.len());
            assert("error"@.len() != "reasoning_delta"@.len());
            assert("error"@.len() != "tool_start"@.len());
            assert("error"@.len() != "tool_end"@.len());
            assert("error"@.len() != "agent_switched"@.len());
            assert("error"@.len() != "model_switched"@.len());
            assert("error"@.len() != "compaction"@.len());
            assert("error"@.len() != "compaction_delta"@.len());
            assert("error"@.len() != "status"@.len());
            assert("error"@.len() != "subagent_start"@.len());
            assert("error"@.len() != "subagent_end"@.len());
            assert("error"@.len() != "subagent_child"@.len());
            assert("error"@.len() != "transcript_reset"@.len());
            assert("error"@.len() != "queue_consumed"@.len());
            assert("error"@.len() != "steer_consumed"@.len());
            assert("error"@.len() != "autopilot"@.len());
            assert("error"@.len() != "done"@.len());
        },
    }
}

/// Law: every event name is one of the known names.
pub proof fn kind_name_is_known(e: EventView)
    ensures
        kind_names().contains(kind_name(e)),
{
    assert(kind_names()[0] == "llm_round_start"@);
    assert(kind_names()[1] == "llm_round_end"@);
    assert(kind_names()[2] == "llm_usage"@);
    assert(kind_names()[3] == "text_delta"@);
    assert(kind_names()[4] == "reasoning_delta"@);
    assert(kind_names()[5] == "tool_start"@);
    assert(kind_names()[6] == "tool_end"@);
    assert(kind_names()[7] == "agent_switched"@);
    assert(kind_names()[8] == "model_switched"@);
    assert(kind_names()[9] == "compaction"@);
    assert(kind_names()[10] == "compaction_delta"@);
    assert(kind_names()[11] == "status"@);
    assert(kind_names()[12] == "subagent_start"@);
    assert(kind_names()[13] == "subagent_end"@);
    assert(kind_names()[14] == "subagent_child"@);
    assert(kind_names()[15] == "transcript_reset"@);
    assert(kind_names()[16] == "queue_consumed"@);
    assert(kind_names()[17] == "steer_consumed"@);
    assert(kind_names()[18] == "autopilot"@);
    assert(kind_names()[19] == "done"@);
    assert(kind_names()[20] == "error"@);
}

/// Law: a name that is not an event name decodes to nothing, whatever
/// the payload.
pub proof fn unknown_kind_is_rejected(kind: Seq<char>, d: DataView)
    requires
        !kind_names().contains(kind),
    ensures
        decode(kind, d) is None,
{
    assert(kind_names()[0] == "llm_round_start"@);
    assert(kind_names()[1] == "llm_round_end"@);
    assert(kind_names()[2] == "llm_usage"@);
    assert(kind_names()[3] == "text_delta"@);
    assert(kind_names()[4] == "reasoning_delta"@);
    assert(kind_names()[5] == "tool_start"@);
    assert(kind_names()[6] == "tool_end"@);
    assert(kind_names()[7] == "agent_switched"@);
    assert(kind_names()[8] == "model_switched"@);
    assert(kind_names()[9] == "compaction"@);
    assert(kind_names()[10] == "compaction_delta"@);
    assert(kind_names()[11] == "status"@);
    assert(kind_names()[12] == "subagent_start"@);
    assert(kind_names()[13] == "subagent_end"@);
    assert(kind_names()[14] == "subagent_child"@);
    assert(kind_names()[15] == "transcript_reset"@);
    assert(kind_names()[16] == "queue_consumed"@);
    assert(kind_names()[17] == "steer_consumed"@);
    assert(kind_names()[18] == "autopilot"@);
    assert(kind_names()[19] == "done"@);
    assert(kind_names()[20] == "error"@);
}


/// The position of each variant's name in [`kind_names`]: two events
/// have the same position exactly when they are the same variant.
pub open spec fn variant_index(e: EventView) -> int {
    match e {
        EventView::LlmRoundStart { .. } => 0,
        EventView::LlmRoundEnd => 1,
        EventView::LlmUsage { .. } => 2,
        EventView::TextDelta(_) => 3,
        EventView::ReasoningDelta(_) => 4,
        EventView::ToolStart { .. } => 5,
        EventView::ToolEnd { .. } => 6,
        EventView::AgentSwitch(_) => 7,
        EventView::ModelSwitch(_) => 8,
        EventView::Compaction(_) => 9,
        EventView::CompactionDelta(_) => 10,
        EventView::Status(_) => 11,
        EventView::SubagentStart { .. } => 12,
        EventView::SubagentEnd { .. } => 13,
        EventView::SubagentChild { .. } => 14,
        EventView::TranscriptReset(_) => 15,
        EventView::QueueConsumed { .. } => 16,
        EventView::SteerConsumed { .. } => 17,
        EventView::AutoPilot { .. } => 18,
        EventView::Done => 19,
        EventView::Error(_) => 20,
    }
}

proof fn lemma_kind_name_at_index(e: EventView)
    ensures
        0 <= variant_index(e) < kind_names().len(),
        kind_names()[variant_index(e)] == kind_name(e),
{
    assert(kind_names()[0] == "llm_round_start"@);
    assert(kind_names()[1] == "llm_round_end"@);
    assert(kind_names()[2] == "llm_usage"@);
    assert(kind_names()[3] == "text_delta"@);
    assert(kind_names()[4] == "reasoning_delta"@);
    assert(kind_names()[5] == "tool_start"@);
    assert(kind_names()[6] == "tool_end"@);
    assert(kind_names()[7] == "agent_switched"@);
    assert(kind_names()[8] == "model_switched"@);
    assert(kind_names()[9] == "compaction"@);
    assert(kind_names()[10] == "compaction_delta"@);
    assert(kind_names()[11] == "status"@);
    assert(kind_names()[12] == "subagent_start"@);
    assert(kind_names()[13] == "subagent_end"@);
    assert(kind_names()[14] == "subagent_child"@);
    assert(kind_names()[15] == "transcript_reset"@);
    assert(kind_names()[16] == "queue_consumed"@);
    assert(kind_names()[17] == "steer_consumed"@);
    assert(kind_names()[18] == "autopilot"@);
    assert(kind_names()[19] == "done"@);
    assert(kind_names()[20] == "error"@);
}

proof fn lemma_kind_names_distinct()
    ensures
        forall|i: int, j: int|
            0 <= i < j < kind_names().len() ==> #[trigger] kind_names()[i] != #[trigger] kind_names()[j],
{
    reveal_strlit("llm_round_start");
    reveal_strlit("llm_round_end");
    reveal_strlit("llm_usage");
    reveal_strlit("text_delta");
    reveal_strlit("reasoning_delta");
    reveal_strlit("tool_start");
    reveal_strlit("tool_end");
    reveal_strlit("agent_switched");
    reveal_strlit("model_switched");
    reveal_strlit("compaction");
    reveal_strlit("compaction_delta");
    reveal_strlit("status");
    reveal_strlit("subagent_start");
    reveal_strlit("subagent_end");
    reveal_strlit("subagent_child");
    reveal_strlit("transcript_reset");
    reveal_strlit("queue_consumed");
    reveal_strlit("steer_consumed");
    reveal_strlit("autopilot");
    reveal_strlit("done");
    reveal_strlit("error");
    assert(kind_names()[0] == "llm_round_start"@);
    assert(kind_names()[1] == "llm_round_end"@);
    assert(kind_names()[2] == "llm_usage"@);
    assert(kind_names()[3] == "text_delta"@);
    assert(kind_names()[4] == "reasoning_delta"@);
    assert(kind_names()[5] == "tool_start"@);
    assert(kind_names()[6] == "tool_end"@);
    assert(kind_names()[7] == "agent_switched"@);
    assert(kind_names()[8] == "model_switched"@);
    assert(kind_names()[9] == "compaction"@);
    assert(kind_names()[10] == "compaction_delta"@);
    assert(kind_names()[11] == "status"@);
    assert(kind_names()[12] == "subagent_start"@);
    assert(kind_names()[13] == "subagent_end"@);
    assert(kind_names()[14] == "subagent_child"@);
    assert(kind_names()[15] == "transcript_reset"@);
    assert(kind_names()[16] == "queue_consumed"@);
    assert(kind_names()[17] == "steer_consumed"@);
    assert(kind_names()[18] == "autopilot"@);
    assert(kind_names()[19] == "done"@);
    assert(kind_names()[20] == "error"@);
    assert("llm_round_start"@.len() == 15);
    assert("llm_round_end"@.len() == 13);
    assert("llm_usage"@.len() == 9);
    assert("text_delta"@.len() == 10);
    assert("reasoning_delta"@.len() == 15);
    assert("tool_start"@.len() == 10);
    assert("tool_end"@.len() == 8);
    assert("agent_switched"@.len() == 14);
    assert("model_switched"@.len() == 14);
    assert("compaction"@.len() == 10);
    assert("compaction_delta"@.len() == 16);
    assert("status"@.len() == 6);
    assert("subagent_start"@.len() == 14);
    assert("subagent_end"@.len() == 12);
    assert("subagent_child"@.len() == 14);
    assert("transcript_reset"@.len() == 16);
    assert("queue_consumed"@.len() == 14);
    assert("steer_consumed"@.len() == 14);
    assert("autopilot"@.len() == 9);
    assert("done"@.len() == 4);
    assert("error"@.len() == 5);
    assert("llm_round_start"@[0] == 'l');
    assert("llm_round_start"@[1] == 'l');
    assert("llm_round_start"@[9] == '_');
    assert("llm_round_end"@[0] == 'l');
    assert("llm_round_end"@[1] == 'l');
    assert("llm_round_end"@[9] == '_');
    assert("llm_usage"@[0] == 'l');
    assert("llm_usage"@[1] == 'l');
    assert("text_delta"@[0] == 't');
    assert("text_delta"@[1] == 'e');
    assert("text_delta"@[9] == 'a');
    assert("reasoning_delta"@[0] == 'r');
    assert("reasoning_delta"@[1] == 'e');
    assert("reasoning_delta"@[9] == '_');
    assert("tool_start"@[0] == 't');
    assert("tool_start"@[1] == 'o');
    assert("tool_start"@[9] == 't');
    assert("tool_end"@[0] == 't');
    assert("tool_end"@[1] == 'o');
    assert("agent_switched"@[0] == 'a');
    assert("agent_switched"@[1] == 'g');
    assert("agent_switched"@[9] == 't');
    assert("model_switched"@[0] == 'm');
    assert("model_switched"@[1] == 'o');
    assert("model_switched"@[9] == 't');
    assert("compaction"@[0] == 'c');
    assert("compaction"@[1] == 'o');
    assert("compaction"@[9] == 'n');
    assert("compaction_delta"@[0] == 'c');
    assert("compaction_delta"@[1] == 'o');
    assert("compaction_delta"@[9] == 'n');
    assert("status"@[0] == 's');
    assert("status"@[1] == 't');
    assert("subagent_start"@[0] == 's');
    assert("subagent_start"@[1] == 'u');
    assert("subagent_start"@[9] == 's');
    assert("subagent_end"@[0] == 's');
    assert("subagent_end"@[1] == 'u');
    assert("subagent_end"@[9] == 'e');
    assert("subagent_child"@[0] == 's');
    assert("subagent_child"@[1] == 'u');
    assert("subagent_child"@[9] == 'c');
    assert("transcript_reset"@[0] == 't');
    assert("transcript_reset"@[1] == 'r');
    assert("transcript_reset"@[9] == 't');
    assert("queue_consumed"@[0] == 'q');
    assert("queue_consumed"@[1] == 'u');
    assert("queue_consumed"@[9] == 's');
    assert("steer_consumed"@[0] == 's');
    assert("steer_consumed"@[1] == 't');
    assert("steer_consumed"@[9] == 's');
    assert("autopilot"@[0] == 'a');
    assert("autopilot"@[1] == 'u');
    assert("done"@[0] == 'd');
    assert("done"@[1] == 'o');
    assert("error"@[0] == 'e');
    assert("error"@[1] == 'r');
}

/// Law: events of different variants get different SSE names, and events
/// of the same variant the same name, whatever their fields hold.
pub proof fn distinct_variants_have_distinct_names(a: EventView, b: EventView)
    ensures
        (kind_name(a) == kind_name(b)) <==> (variant_index(a) == variant_index(b)),
{
    lemma_kind_name_at_index(a);
    lemma_kind_name_at_index(b);
    lemma_kind_names_distinct();
    if variant_index(a) < variant_index(b) {
        assert(kind_names()[variant_index(a)] != kind_names()[variant_index(b)]);
    } else if variant_index(b) < variant_index(a) {
        assert(kind_names()[variant_index(b)] != kind_names()[variant_index(a)]);
    }
}

} // verus!

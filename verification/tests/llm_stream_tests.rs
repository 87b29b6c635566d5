use session::dedup::CompletedToolCall;
use session::event::SessionEvent;
use session::llm_stream::{interrupted_turn, mcp_tool_count, offer_tool, tool_choice, LlmEvent, LlmStream, Usage};

fn drive(events: Vec<LlmEvent>) -> (Result<(String, String, Vec<CompletedToolCall>, Option<Usage>), String>, Vec<SessionEvent>) {
    let mut st = LlmStream::new();
    let mut shown = Vec::new();
    for ev in events {
        match st.on_event(ev) {
            Ok(mut v) => shown.append(&mut v),
            Err(e) => return (Err(e), shown),
        }
    }
    (st.finish(), shown)
}

#[test]
fn busy_stream_completes() {
    let (r, shown) = drive(vec![
        LlmEvent::TextDelta("hello".into()),
        LlmEvent::Completed { text: "hello".into(), tool_calls: vec![], usage: None },
    ]);
    let (text, _, _, _) = r.expect("completed");
    assert_eq!(text, "hello");
    assert_eq!(shown.len(), 1);
    assert!(matches!(&shown[0], SessionEvent::TextDelta(t) if t == "hello"));
}

#[test]
fn mid_stream_retry_clears_accumulated_state() {
    let (r, shown) = drive(vec![
        LlmEvent::TextDelta("partial ".into()),
        LlmEvent::ReasoningDelta("dead-thought".into()),
        LlmEvent::Retrying { attempt: 1, max: 3 },
        LlmEvent::TextDelta("final".into()),
        LlmEvent::ReasoningDelta("live-thought".into()),
        LlmEvent::Completed { text: "final".into(), tool_calls: vec![], usage: None },
    ]);
    let (text, reasoning, _, _) = r.expect("completed");
    assert_eq!(text, "final");
    assert_eq!(reasoning, "live-thought");
    let saw_retry = shown.iter().any(|e| matches!(e, SessionEvent::Status(s) if s.contains("retry")));
    assert!(saw_retry, "consumer should surface the retry status");
}

#[test]
fn retry_badge_text_and_single_clear() {
    let (_, shown) = drive(vec![
        LlmEvent::Retrying { attempt: 2, max: 5 },
        LlmEvent::ToolCallStart,
        LlmEvent::TextDelta("a".into()),
        LlmEvent::TextDelta("b".into()),
        LlmEvent::Completed { text: "ab".into(), tool_calls: vec![], usage: None },
    ]);
    assert!(matches!(&shown[0], SessionEvent::Status(s) if s == "\u{21bb} retry 2/5"));
    assert!(matches!(&shown[1], SessionEvent::Status(s) if s.is_empty()));
    assert!(matches!(&shown[2], SessionEvent::TextDelta(t) if t == "a"));
    assert!(matches!(&shown[3], SessionEvent::TextDelta(t) if t == "b"));
    assert_eq!(shown.len(), 4);
}

#[test]
fn stream_without_completion_fails() {
    let (r, _) = drive(vec![LlmEvent::TextDelta("x".into())]);
    assert_eq!(r.unwrap_err(), "stream ended without completion");
}

#[test]
fn provider_error_ends_the_call() {
    let (r, _) = drive(vec![LlmEvent::TextDelta("x".into()), LlmEvent::Error("rate limited".into())]);
    assert_eq!(r.unwrap_err(), "rate limited");
}

#[test]
fn completion_carries_calls_and_usage() {
    let usage = Usage { input_tokens: 1, output_tokens: 2, total_tokens: 3, cache_read_tokens: 0, cache_creation_tokens: 0 };
    let call = CompletedToolCall { id: "c1".into(), name: "bash".into(), input: "{}".into() };
    let (r, _) = drive(vec![LlmEvent::Completed { text: String::new(), tool_calls: vec![call], usage: Some(usage) }]);
    let (_, _, calls, u) = r.unwrap();
    assert_eq!(calls.len(), 1);
    assert_eq!(calls[0].id, "c1");
    assert_eq!(u, Some(usage));
}

#[test]
fn interrupted_turn_shapes() {
    let (status, turn) = interrupted_turn(true);
    assert!(matches!(status, Some(SessionEvent::Status(s)) if s == "interrupted"));
    assert!(turn.0.is_empty() && turn.1.is_empty() && turn.2.is_empty() && turn.3.is_none());
    assert!(interrupted_turn(false).0.is_none());
}

#[test]
fn tool_offering() {
    assert!(offer_tool(true, false, true, false));
    assert!(!offer_tool(true, true, true, true), "workflow agent never sees MCP tools");
    assert!(!offer_tool(true, false, false, true));
    assert!(offer_tool(false, true, false, true));
    assert!(!offer_tool(false, false, true, false));
    assert_eq!(tool_choice(3), Some("auto"));
    assert_eq!(tool_choice(0), None);
}

#[test]
fn mcp_fallback_tool_count() {
    let names: Vec<String> = vec!["mcp__my_srv__a".into(), "mcp__my_srv__b".into(), "mcp__other__c".into(), "bash".into()];
    assert_eq!(mcp_tool_count("my-srv", &names), 2);
    assert_eq!(mcp_tool_count("none", &names), 0);
}

#[test]
fn schemas_are_sent_in_name_order() {
    assert_eq!(
        session::llm_stream::schema_order(&["read", "bash", "task", "edit", "bash"]),
        vec!["bash".to_string(), "edit".to_string(), "read".to_string(), "task".to_string()]
    );
}

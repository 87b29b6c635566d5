use session::event::{EventKind, SessionEvent, WireValue};

fn s(x: &str) -> String {
    x.to_string()
}

fn field(k: &str, v: WireValue) -> (String, WireValue) {
    (k.to_string(), v)
}

fn get<'a>(data: &'a [(String, WireValue)], key: &str) -> &'a WireValue {
    &data.iter().find(|(k, _)| k == key).expect("field present").1
}

fn all_cases() -> Vec<SessionEvent> {
    vec![
        SessionEvent::LlmRoundStart { started_at_ms: 1234 },
        SessionEvent::LlmRoundEnd,
        SessionEvent::LlmUsage { total_tokens: 123_456, input_tokens: 100_000, output_tokens: 23_456 },
        SessionEvent::TextDelta(s("hi")),
        SessionEvent::ReasoningDelta(s("think")),
        SessionEvent::ToolStart { id: s("t1"), name: s("bash"), input: WireValue::Json(s("{\"command\":\"ls\"}")) },
        SessionEvent::ToolEnd { id: s("t1"), name: s("bash"), output: s("done"), is_error: false, images: Vec::new() },
        SessionEvent::ToolEnd { id: s("t2"), name: s("bash"), output: s("boom"), is_error: true, images: Vec::new() },
        SessionEvent::AgentSwitch(s("sandbox")),
        SessionEvent::ModelSwitch(s("openai/gpt-4o")),
        SessionEvent::Compaction(s("summary")),
        SessionEvent::CompactionDelta(s("cdelta")),
        SessionEvent::Status(s("running")),
        SessionEvent::SubagentStart { id: s("s1"), kind: s("explore"), prompt: s("find x"), child_session_id: s("child-1") },
        SessionEvent::SubagentEnd { id: s("s1"), ok: true, cancelled: false, summary: s("found") },
        SessionEvent::SubagentChild { id: s("s1"), ev: Box::new(SessionEvent::TextDelta(s("child text"))) },
        SessionEvent::TranscriptReset(vec![s("{\"id\":\"m1\",\"role\":\"assistant\"}")]),
        SessionEvent::QueueConsumed { seq: 7, text: s("q") },
        SessionEvent::SteerConsumed { seq: 9, text: s("s") },
        SessionEvent::AutoPilot { phase: WireValue::Str(s("plan")), iteration: 0 },
        SessionEvent::Done,
        SessionEvent::Error(s("kaboom")),
    ]
}

#[test]
fn event_from_sse_roundtrips_all_variants() {
    let cases = all_cases();
    let mut kinds: Vec<&str> = cases.iter().map(|e| e.sse_kind()).collect();
    kinds.sort();
    kinds.dedup();
    assert_eq!(kinds.len(), 21, "expected all 21 unique kinds, got {kinds:?}");
    for ev in &cases {
        let kind = ev.sse_kind();
        let data = ev.sse_data();
        let back = SessionEvent::from_sse(kind, &data)
            .unwrap_or_else(|| panic!("from_sse returned None for kind={kind}"));
        if matches!(ev, SessionEvent::TranscriptReset(_)) {
            assert!(matches!(back, SessionEvent::TranscriptReset(ref v) if v.is_empty()));
        } else {
            assert_eq!(format!("{back:?}"), format!("{ev:?}"), "roundtrip mismatch for kind={kind}");
        }
    }
}

#[test]
fn event_from_sse_unknown_kind_is_none() {
    assert!(SessionEvent::from_sse("no_such_kind", &[]).is_none());
}

#[test]
fn event_llm_usage_old_payload_defaults_split_fields_to_zero() {
    let ev = SessionEvent::from_sse("llm_usage", &[field("total_tokens", WireValue::Int(42))])
        .expect("old llm_usage payload must parse");
    match ev {
        SessionEvent::LlmUsage { total_tokens, input_tokens, output_tokens } => {
            assert_eq!(total_tokens, 42);
            assert_eq!(input_tokens, 0);
            assert_eq!(output_tokens, 0);
        }
        other => panic!("expected LlmUsage, got {other:?}"),
    }
}

#[test]
fn event_from_sse_missing_field_is_none() {
    assert!(SessionEvent::from_sse("tool_start", &[field("id", WireValue::Str(s("x")))]).is_none());
}

#[test]
fn event_queue_consumed_carries_text_through_sse() {
    let ev = SessionEvent::QueueConsumed { seq: 5, text: s("hello queued") };
    let kind = ev.sse_kind();
    assert_eq!(kind, "queue_consumed");
    let data = ev.sse_data();
    assert!(matches!(get(&data, "text"), WireValue::Str(t) if t == "hello queued"));
    assert!(matches!(get(&data, "seq"), WireValue::Int(5)));
    let back = SessionEvent::from_sse(kind, &data).expect("roundtrip");
    match back {
        SessionEvent::QueueConsumed { seq, text } => {
            assert_eq!(seq, 5);
            assert_eq!(text, "hello queued");
        }
        other => panic!("expected QueueConsumed, got {other:?}"),
    }
}

#[test]
fn event_steer_consumed_carries_text_through_sse() {
    let ev = SessionEvent::SteerConsumed { seq: 9, text: s("steered away") };
    let kind = ev.sse_kind();
    assert_eq!(kind, "steer_consumed");
    let data = ev.sse_data();
    assert!(matches!(get(&data, "text"), WireValue::Str(t) if t == "steered away"));
    assert!(matches!(get(&data, "seq"), WireValue::Int(9)));
    let back = SessionEvent::from_sse(kind, &data).expect("roundtrip");
    match back {
        SessionEvent::SteerConsumed { seq, text } => {
            assert_eq!(seq, 9);
            assert_eq!(text, "steered away");
        }
        other => panic!("expected SteerConsumed, got {other:?}"),
    }
}

#[test]
fn event_queue_consumed_without_text_field_is_backward_compatible() {
    let ev = SessionEvent::from_sse("queue_consumed", &[field("seq", WireValue::Int(11))]).expect("old event");
    match ev {
        SessionEvent::QueueConsumed { seq, text } => {
            assert_eq!(seq, 11);
            assert!(text.is_empty(), "missing text must default to empty");
        }
        other => panic!("expected QueueConsumed, got {other:?}"),
    }
}

#[test]
fn event_steer_consumed_without_text_field_is_backward_compatible() {
    let ev = SessionEvent::from_sse("steer_consumed", &[field("seq", WireValue::Int(13))]).expect("old event");
    match ev {
        SessionEvent::SteerConsumed { seq, text } => {
            assert_eq!(seq, 13);
            assert!(text.is_empty());
        }
        other => panic!("expected SteerConsumed, got {other:?}"),
    }
}

#[test]
fn event_tool_end_images_roundtrip_through_sse() {
    let ev = SessionEvent::ToolEnd {
        id: s("img-1"),
        name: s("view_image"),
        output: s("Loaded image: cat.png"),
        is_error: false,
        images: vec![s("data:image/png;base64,iVBORw0KGgo="), s("https://example.com/photo.jpg")],
    };
    let kind = ev.sse_kind();
    let data = ev.sse_data();
    let back = SessionEvent::from_sse(kind, &data).expect("roundtrip");
    match back {
        SessionEvent::ToolEnd { images, .. } => {
            assert_eq!(images.len(), 2, "images must survive roundtrip");
            assert_eq!(images[0], "data:image/png;base64,iVBORw0KGgo=");
            assert_eq!(images[1], "https://example.com/photo.jpg");
        }
        other => panic!("expected ToolEnd, got {other:?}"),
    }
}

#[test]
fn event_tool_end_without_images_field_is_backward_compatible() {
    let data = vec![
        field("id", WireValue::Str(s("old"))),
        field("name", WireValue::Str(s("bash"))),
        field("output", WireValue::Str(s("done"))),
        field("is_error", WireValue::Bool(false)),
    ];
    let ev = SessionEvent::from_sse("tool_end", &data).expect("old event");
    match ev {
        SessionEvent::ToolEnd { images, .. } => {
            assert!(images.is_empty(), "missing images field must default to empty");
        }
        other => panic!("expected ToolEnd, got {other:?}"),
    }
}

#[test]
fn event_from_sse_autopilot_large_iteration_saturates() {
    let data = vec![field("phase", WireValue::Str(s("act"))), field("iteration", WireValue::BigUInt(u64::MAX))];
    let ev = SessionEvent::from_sse("autopilot", &data).expect("must parse");
    match ev {
        SessionEvent::AutoPilot { iteration, .. } => {
            assert_eq!(iteration, u32::MAX, "iteration must saturate to u32::MAX, not wrap");
        }
        other => panic!("expected AutoPilot, got {other:?}"),
    }
}

#[test]
fn large_token_counts_use_the_unsigned_form() {
    let ev = SessionEvent::LlmUsage { total_tokens: u64::MAX, input_tokens: 1, output_tokens: 2 };
    let data = ev.sse_data();
    assert!(matches!(get(&data, "total_tokens"), WireValue::BigUInt(n) if *n == u64::MAX));
    assert!(matches!(get(&data, "input_tokens"), WireValue::Int(1)));
    let back = SessionEvent::from_sse("llm_usage", &data).expect("roundtrip");
    assert_eq!(format!("{back:?}"), format!("{ev:?}"));
}

#[test]
fn negative_token_count_is_rejected() {
    assert!(SessionEvent::from_sse("llm_usage", &[field("total_tokens", WireValue::Int(-1))]).is_none());
}

#[test]
fn non_bool_flag_reads_false_but_must_be_present() {
    let mut data = vec![
        field("id", WireValue::Str(s("a"))),
        field("name", WireValue::Str(s("bash"))),
        field("output", WireValue::Str(s("o"))),
        field("is_error", WireValue::Str(s("yes"))),
    ];
    match SessionEvent::from_sse("tool_end", &data) {
        Some(SessionEvent::ToolEnd { is_error, .. }) => assert!(!is_error),
        other => panic!("expected ToolEnd, got {other:?}"),
    }
    data.pop();
    assert!(SessionEvent::from_sse("tool_end", &data).is_none());
}

#[test]
fn subagent_child_needs_an_embedded_event() {
    let data = vec![field("id", WireValue::Str(s("s1"))), field("event", WireValue::Json(s("{}")))];
    assert!(SessionEvent::from_sse("subagent_child", &data).is_none());
}

#[test]
fn coarse_kinds() {
    assert_eq!(SessionEvent::LlmRoundEnd.coarse_kind(), EventKind::Step);
    assert_eq!(SessionEvent::ReasoningDelta(s("r")).coarse_kind(), EventKind::TextDelta);
    assert_eq!(SessionEvent::CompactionDelta(s("c")).coarse_kind(), EventKind::Compaction);
    assert_eq!(SessionEvent::TranscriptReset(Vec::new()).coarse_kind(), EventKind::Compaction);
    assert_eq!(SessionEvent::Status(s("x")).coarse_kind(), EventKind::Step);
    assert_eq!(SessionEvent::AgentSwitch(s("a")).coarse_kind(), EventKind::AgentSwitched);
    assert_eq!(SessionEvent::Done.coarse_kind(), EventKind::Done);
    assert_eq!(SessionEvent::Error(s("e")).coarse_kind(), EventKind::Error);
}

// The same cases, as the split-out event test file states them.

#[test]
fn tests_from_sse_unknown_kind_is_none() {
    event_from_sse_unknown_kind_is_none();
}

#[test]
fn tests_llm_usage_old_payload_defaults_split_fields_to_zero() {
    event_llm_usage_old_payload_defaults_split_fields_to_zero();
}

#[test]
fn tests_from_sse_missing_field_is_none() {
    event_from_sse_missing_field_is_none();
}

#[test]
fn tests_queue_consumed_carries_text_through_sse() {
    event_queue_consumed_carries_text_through_sse();
}

#[test]
fn tests_steer_consumed_carries_text_through_sse() {
    event_steer_consumed_carries_text_through_sse();
}

#[test]
fn tests_queue_consumed_without_text_field_is_backward_compatible() {
    event_queue_consumed_without_text_field_is_backward_compatible();
}

#[test]
fn tests_steer_consumed_without_text_field_is_backward_compatible() {
    event_steer_consumed_without_text_field_is_backward_compatible();
}

#[test]
fn tests_tool_end_images_roundtrip_through_sse() {
    event_tool_end_images_roundtrip_through_sse();
}

#[test]
fn tests_tool_end_without_images_field_is_backward_compatible() {
    event_tool_end_without_images_field_is_backward_compatible();
}

#[test]
fn tests_from_sse_autopilot_large_iteration_saturates() {
    event_from_sse_autopilot_large_iteration_saturates();
}

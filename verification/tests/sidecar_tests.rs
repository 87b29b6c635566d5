use session::event::SessionEvent;
use session::sidecar::{finish_turn, on_child_event, parse_sidecar_question, refuse_control_question, ChildEmit, Role, TurnAcc, CONTROL_COMMAND_REFUSAL};

#[test]
fn bare_command_gives_an_empty_question() {
    assert_eq!(parse_sidecar_question("/sidecar"), Some(String::new()));
    assert_eq!(parse_sidecar_question("  /sidecar  "), Some(String::new()));
}

#[test]
fn question_is_trimmed() {
    assert_eq!(parse_sidecar_question("/sidecar   why is CI red?  "), Some("why is CI red?".to_string()));
    assert_eq!(parse_sidecar_question("/sidecar\twhat now"), Some("what now".to_string()));
}

#[test]
fn lookalikes_and_other_text_are_not_sidecar() {
    assert_eq!(parse_sidecar_question("/sidecarX hi"), None);
    assert_eq!(parse_sidecar_question("hello /sidecar"), None);
    assert_eq!(parse_sidecar_question(""), None);
}

#[test]
fn turn_answer_is_the_last_assistant_text_of_this_turn() {
    let msgs = vec![
        (Role::Assistant, "old answer".to_string()),
        (Role::User, "q".to_string()),
        (Role::Assistant, "first".to_string()),
        (Role::Assistant, "   ".to_string()),
        (Role::Tool, "tool".to_string()),
    ];
    let mut acc = TurnAcc::new();
    acc.add_usage(10);
    acc.add_usage(5);
    let t = finish_turn(true, acc, &msgs, 1, 42);
    assert!(t.ok);
    assert_eq!(t.answer, "first");
    assert_eq!(t.total_tokens, 15);
    assert_eq!(t.rounds, 2);
    assert_eq!(t.elapsed_ms, 42);
}

#[test]
fn failed_turn_without_text_answers_with_its_first_error() {
    let msgs = vec![(Role::Assistant, "snapshot".to_string())];
    let mut acc = TurnAcc::new();
    acc.record_error("boom".to_string());
    acc.record_error("later".to_string());
    let t = finish_turn(true, acc, &msgs, 1, 0);
    assert!(!t.ok);
    assert_eq!(t.answer, "boom");
}

#[test]
fn child_events_are_routed() {
    let mut acc = TurnAcc::new();
    let usage = SessionEvent::LlmUsage { total_tokens: 10, input_tokens: 7, output_tokens: 3 };
    assert!(matches!(
        on_child_event(&mut acc, usage),
        Some(ChildEmit::Bare(SessionEvent::LlmUsage { total_tokens: 10, input_tokens: 7, output_tokens: 3 }))
    ));
    assert_eq!((acc.total_tokens, acc.rounds), (10, 1));
    assert!(on_child_event(&mut acc, SessionEvent::Done).is_none());
    assert!(on_child_event(&mut acc, SessionEvent::Error("boom".to_string())).is_none());
    assert!(on_child_event(&mut acc, SessionEvent::Error("later".to_string())).is_none());
    assert_eq!(acc.error.as_deref(), Some("boom"));
    assert!(matches!(
        on_child_event(&mut acc, SessionEvent::TextDelta("hi".to_string())),
        Some(ChildEmit::Wrapped(SessionEvent::TextDelta(t))) if t == "hi"
    ));
    assert_eq!((acc.total_tokens, acc.rounds), (10, 1));
}

#[test]
fn control_command_question_is_refused() {
    let t = refuse_control_question(true).expect("refused");
    assert!(!t.ok);
    assert_eq!(t.answer, CONTROL_COMMAND_REFUSAL);
    assert_eq!((t.elapsed_ms, t.total_tokens, t.rounds), (0, 0, 0));
    assert!(refuse_control_question(false).is_none());
}

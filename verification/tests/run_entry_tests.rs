use session::event::SessionEvent;
use session::run_entry::{
    after_control_command, clear_failed_text, clear_retry_delay_ms, memory_child_route, memory_due,
    memory_eligible, memory_failed_text, run_end_clear, skill_changed, verbatim_echo, ChildRoute, ClearWork,
    ControlOutcome,
};

#[test]
fn bare_control_command_stops() {
    assert!(matches!(after_control_command(false, false, None), ControlOutcome::Stop));
    assert!(matches!(after_control_command(true, false, None), ControlOutcome::Stop), "blank sentinel stops");
}

#[test]
fn compound_control_command_runs_the_rest() {
    match after_control_command(false, false, Some("review".into())) {
        ControlOutcome::Run { prompt, keep_images, handoff_pending } => {
            assert_eq!(prompt, "review");
            assert!(keep_images);
            assert!(!handoff_pending);
        }
        other => panic!("{other:?}"),
    }
}

#[test]
fn context_clear_with_seed_runs_a_turn() {
    match after_control_command(true, true, None) {
        ControlOutcome::Run { prompt, keep_images, handoff_pending } => {
            assert!(prompt.is_empty());
            assert!(!keep_images);
            assert!(handoff_pending);
        }
        other => panic!("{other:?}"),
    }
    match after_control_command(true, true, Some("go".into())) {
        ControlOutcome::Run { prompt, keep_images, handoff_pending } => {
            assert_eq!(prompt, "go");
            assert!(keep_images && handoff_pending);
        }
        other => panic!("{other:?}"),
    }
}

#[test]
fn verbatim_echo_skips_blank_prompts() {
    assert_eq!(verbatim_echo("  $review  ").as_deref(), Some("  $review  "));
    assert_eq!(verbatim_echo(" \n\t"), None);
}

#[test]
fn skill_persisted_only_on_change() {
    assert!(!skill_changed(None, None));
    assert!(!skill_changed(Some("a"), Some("a")));
    assert!(skill_changed(None, Some("a")));
    assert!(skill_changed(Some("a"), Some("b")));
    assert!(skill_changed(Some("a"), None));
}

#[test]
fn run_end_clear_work() {
    assert_eq!(run_end_clear(false, true), ClearWork::Nothing);
    assert_eq!(run_end_clear(true, false), ClearWork::MemoryOnly);
    assert_eq!(run_end_clear(true, true), ClearWork::MemoryAndStore);
    assert_eq!(clear_retry_delay_ms(0), Some(100));
    assert_eq!(clear_retry_delay_ms(1), Some(200));
    assert_eq!(clear_retry_delay_ms(2), None);
    assert_eq!(
        clear_failed_text("database is locked"),
        "[skill] run ended but the persisted skill clear failed after retries: database is locked"
    );
}

#[test]
fn memory_pass_eligibility() {
    assert!(memory_eligible(true, true, "act", "sess-1"));
    assert!(!memory_eligible(false, true, "act", "sess-1"));
    assert!(!memory_eligible(true, false, "act", "sess-1"));
    assert!(!memory_eligible(true, true, "workflow", "sess-1"));
    assert!(!memory_eligible(true, true, "act", "memory-01H"));
}

#[test]
fn memory_pass_needs_an_assistant_reply_since_baseline() {
    assert!(memory_due(true, false, &[false, true], 1));
    assert!(!memory_due(true, false, &[true, false], 1));
    assert!(!memory_due(true, false, &[true], 5), "baseline past the end is clamped");
    assert!(!memory_due(true, true, &[false, true], 0));
    assert!(!memory_due(false, false, &[true], 0));
}

#[test]
fn memory_child_events() {
    assert!(matches!(memory_child_route(&SessionEvent::LlmUsage { total_tokens: 1, input_tokens: 0, output_tokens: 1 }), ChildRoute::Forward));
    assert!(matches!(memory_child_route(&SessionEvent::Error("x".into())), ChildRoute::Capture(e) if e == "x"));
    assert!(matches!(memory_child_route(&SessionEvent::Done), ChildRoute::Drop));
    assert_eq!(memory_failed_text("boom"), "local-memory update failed: boom");
}

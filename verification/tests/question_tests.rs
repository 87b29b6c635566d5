use session::question::{
    AskOutcome, QuestionHub, QuestionStep, QuestionTool, Resolution, NO_LISTENER_REPLY,
    SKIPPED_REPLY,
};

#[test]
fn ask_then_resolve_delivers_the_answer() {
    let mut hub: QuestionHub<u32> = QuestionHub::new();
    assert_eq!(hub.ask("q1", 7), AskOutcome::Pending);
    match hub.resolve("q1", "use sqlite".into()) {
        Resolution::Deliver(handle, answer) => {
            assert_eq!(handle, 7);
            assert_eq!(answer, "use sqlite");
        }
        Resolution::Parked => panic!("expected Deliver"),
    }
    assert_eq!(hub.waiting_count(), 0);
}

#[test]
fn resolve_before_ask_is_parked_and_consumed_once() {
    let mut hub: QuestionHub<u32> = QuestionHub::new();
    assert!(matches!(hub.resolve("q2", "early".into()), Resolution::Parked));
    match hub.ask("q2", 1) {
        AskOutcome::Answered(a) => assert_eq!(a, "early"),
        _ => panic!("expected Answered"),
    }
    assert!(matches!(hub.ask("q2", 2), AskOutcome::Pending));
}

#[test]
fn abandon_closes_the_channel_without_early_residue() {
    let mut hub: QuestionHub<u32> = QuestionHub::new();
    assert_eq!(hub.ask("q3", 3), AskOutcome::Pending);
    hub.abandon("q3");
    assert_eq!(hub.waiting_count(), 0);
    assert!(matches!(hub.ask("q3", 4), AskOutcome::Pending));
}

#[test]
fn attach_flag_toggles() {
    let mut hub: QuestionHub<u32> = QuestionHub::new();
    assert!(!hub.is_attached());
    hub.attach();
    assert!(hub.is_attached());
}

#[test]
fn description_allows_several_questions_per_turn() {
    let tool = QuestionTool {};
    let d = tool.description();
    assert!(!d.contains("at most one"), "per-turn cap must be gone: {d}");
    assert!(d.contains("several in one turn"), "batched wording must be advertised: {d}");
    assert!(d.contains("genuinely ambiguous"), "gate wording must survive: {d}");
}

#[test]
fn execute_without_listener_returns_fallback_immediately() {
    assert_eq!(QuestionTool::first_step(Some("which db?"), false), QuestionStep::NoListener);
    assert!(NO_LISTENER_REPLY.starts_with("No interactive user is attached"));
}

#[test]
fn execute_missing_question_is_an_error() {
    assert_eq!(QuestionTool::first_step(None, true), QuestionStep::MissingQuestion);
    assert_eq!(QuestionTool::first_step(Some("   "), true), QuestionStep::MissingQuestion);
    assert_eq!(QuestionTool::first_step(Some("which db?"), true), QuestionStep::Ask);
}

#[test]
fn closed_channel_reads_as_skipped() {
    assert_eq!(QuestionTool::reply_for(None), SKIPPED_REPLY);
    assert_eq!(QuestionTool::reply_for(Some("postgres".into())), "postgres");
}

#[test]
fn answers_for_other_ids_stay_parked() {
    let mut hub: QuestionHub<u32> = QuestionHub::new();
    assert!(matches!(hub.resolve("a", "for a".into()), Resolution::Parked));
    assert_eq!(hub.ask("b", 1), AskOutcome::Pending);
    assert_eq!(hub.waiting_count(), 1);
    assert_eq!(hub.ask("a", 2), AskOutcome::Answered("for a".into()));
    assert_eq!(QuestionTool {}.name(), "question");
}

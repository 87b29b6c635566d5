use session::bash::BASH_TIMEOUT_SECS;
use session::execute::{
    fires_child_cancel, fires_child_turn_cancel, fmt_dur, latent_gate, leaf_error, leaf_tool_timeout,
    leaf_winner, task_end, unknown_tool, LeafEnd, TaskSignal, DEFAULT_TOOL_TIMEOUT_SECS,
};

#[test]
fn leaf_tool_timeout_routes_read_edit_search_to_bash_budget() {
    let expected = Some(BASH_TIMEOUT_SECS);
    assert_eq!(leaf_tool_timeout("read"), expected);
    assert_eq!(leaf_tool_timeout("edit"), expected);
    assert_eq!(leaf_tool_timeout("search"), expected);
}

#[test]
fn leaf_tool_timeout_exempts_bash() {
    assert_eq!(leaf_tool_timeout("bash"), None);
}

#[test]
fn leaf_tool_timeout_exempts_question() {
    assert_eq!(leaf_tool_timeout("question"), None);
}

#[test]
fn leaf_tool_timeout_defaults_unknown_tools() {
    assert_eq!(leaf_tool_timeout("ls"), Some(DEFAULT_TOOL_TIMEOUT_SECS));
    assert_eq!(leaf_tool_timeout("not_a_real_tool"), Some(DEFAULT_TOOL_TIMEOUT_SECS));
}

#[test]
fn durations_render_compactly() {
    assert_eq!(fmt_dur(600_000), "600s");
    assert_eq!(fmt_dur(1_999), "1s");
    assert_eq!(fmt_dur(50), "50ms");
    assert_eq!(fmt_dur(0), "0ms");
}

#[test]
fn hung_tool_returns_timeout_error() {
    let end = leaf_winner(false, false, true);
    assert_eq!(end, LeafEnd::TimedOut);
    assert_eq!(
        leaf_error(end, "hang", 50),
        Some("tool `hang` timed out after 50ms without producing a result".to_string())
    );
}

#[test]
fn signals_are_resolved_in_priority_order() {
    assert_eq!(leaf_winner(true, true, true), LeafEnd::Interrupted);
    assert_eq!(leaf_winner(false, true, true), LeafEnd::TurnInterrupted);
    assert_eq!(leaf_winner(false, false, false), LeafEnd::Finished);
    assert_eq!(leaf_error(LeafEnd::Interrupted, "x", 1), Some("interrupted".to_string()));
    assert_eq!(leaf_error(LeafEnd::TurnInterrupted, "x", 1), Some("turn interrupted".to_string()));
    assert_eq!(leaf_error(LeafEnd::Finished, "x", 1), None);
}

#[test]
fn latent_calls_need_their_skill_or_a_live_question() {
    let refusal = latent_gate("question", None, false).unwrap();
    assert!(refusal.starts_with("tool `question` is latent"), "{refusal}");
    assert_eq!(latent_gate("question", None, true), None);
    assert_eq!(latent_gate("bash", None, false), None);
    assert!(latent_gate("ssh_pty", None, true).is_some());
    assert_eq!(
        latent_gate("question", Some("> Source: /h/skills/task-plan/SKILL.md\n\nbody"), false),
        None
    );
    assert_eq!(unknown_tool("zzz"), "unknown tool: zzz");
}

#[test]
fn subagent_signals_and_their_answers() {
    assert!(fires_child_turn_cancel(TaskSignal::TurnCancel));
    assert!(!fires_child_turn_cancel(TaskSignal::Timeout));
    assert!(fires_child_cancel(TaskSignal::Timeout));
    assert!(!fires_child_cancel(TaskSignal::HardCancel));
    assert_eq!(
        task_end(TaskSignal::Timeout, true, 1_800_000),
        Some("subagent timed out after 1800s without completing".to_string())
    );
    assert_eq!(task_end(TaskSignal::TurnCancel, true, 1), None);
    assert_eq!(task_end(TaskSignal::TurnCancel, false, 1), Some("turn interrupted".to_string()));
    assert_eq!(task_end(TaskSignal::HardCancel, false, 1), Some("interrupted".to_string()));
}

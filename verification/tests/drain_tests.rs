use session::drain::{
    drain_mode_step, entry_drain_mode, idle_step, match_promoted, mcp_tool_allowed,
    mcp_tool_prefix, DrainModeAction, DrainOutcome, IdleAction, SessionInput,
};
use session::sidecar::Role;
use session::steer_gate::IdleDecision;

fn input(seq: i64, prompt: &str) -> SessionInput {
    SessionInput {
        seq: Some(seq),
        prompt: prompt.into(),
        images: vec![],
    }
}

#[test]
fn match_promoted_aligns_by_seq_not_position() {
    let pending = vec![input(1, "alpha"), input(2, "beta"), input(3, "gamma")];
    let promoted = vec![1_i64, 3];
    let result = match_promoted(&pending, &promoted);
    assert_eq!(result.len(), 2);
    assert_eq!(result[0], (1, "alpha".into(), vec![]));
    assert_eq!(result[1], (3, "gamma".into(), vec![]));
}

#[test]
fn match_promoted_skips_missing_seqs() {
    let pending = vec![input(1, "alpha")];
    let promoted = vec![1_i64, 2];
    let result = match_promoted(&pending, &promoted);
    assert_eq!(result.len(), 1);
    assert_eq!(result[0], (1, "alpha".into(), vec![]));
}

#[test]
fn match_promoted_preserves_happy_path_order() {
    let pending = vec![input(1, "alpha"), input(2, "beta"), input(3, "gamma")];
    let promoted = vec![1_i64, 2, 3];
    let result = match_promoted(&pending, &promoted);
    assert_eq!(result.len(), 3);
    assert_eq!(result[0].0, 1);
    assert_eq!(result[1].0, 2);
    assert_eq!(result[2].0, 3);
}

#[test]
fn drain_mode_step_idles_when_transcript_ends_with_assistant() {
    assert_eq!(
        drain_mode_step(DrainOutcome::Empty, Some(Role::Assistant), false, false, None),
        DrainModeAction::Idle
    );
}

#[test]
fn drain_mode_step_proceeds_when_transcript_ends_with_tool_result() {
    assert_eq!(
        drain_mode_step(DrainOutcome::Empty, Some(Role::Tool), false, false, None),
        DrainModeAction::Proceed
    );
}

#[test]
fn drain_mode_step_other_cases() {
    assert_eq!(drain_mode_step(DrainOutcome::Prompt, None, false, false, None), DrainModeAction::Proceed);
    assert_eq!(drain_mode_step(DrainOutcome::ControlCmd, None, false, false, None), DrainModeAction::ConsumeNext);
    assert_eq!(drain_mode_step(DrainOutcome::Empty, Some(Role::User), true, false, None), DrainModeAction::Idle);
    assert_eq!(drain_mode_step(DrainOutcome::Empty, Some(Role::User), false, false, None), DrainModeAction::Proceed);
    assert_eq!(drain_mode_step(DrainOutcome::Empty, Some(Role::Tool), false, true, None), DrainModeAction::ConsumeNext);
    assert_eq!(
        drain_mode_step(DrainOutcome::Empty, None, false, false, Some(IdleDecision::Continue)),
        DrainModeAction::ConsumeNext
    );
}

#[test]
fn idle_drain_empty_queue_no_gate_returns_done() {
    assert_eq!(idle_step(DrainOutcome::Empty, false, None, None), IdleAction::Done);
}

#[test]
fn idle_drain_consumes_pending_queue() {
    assert_eq!(idle_step(DrainOutcome::Empty, false, Some(DrainOutcome::Prompt), None), IdleAction::Continue);
    assert_eq!(idle_step(DrainOutcome::Empty, false, Some(DrainOutcome::ControlCmd), None), IdleAction::SkipLlm);
    assert_eq!(idle_step(DrainOutcome::Empty, true, None, None), IdleAction::Continue);
    assert_eq!(idle_step(DrainOutcome::ControlCmd, false, None, None), IdleAction::SkipLlm);
    assert_eq!(
        idle_step(DrainOutcome::Empty, false, Some(DrainOutcome::Empty), Some(IdleDecision::Close)),
        IdleAction::Done
    );
}

#[test]
fn entry_drain_mode_prefers_pending_input_over_the_skill() {
    assert_eq!(entry_drain_mode(false, false, false, true, true), (true, false));
    assert_eq!(entry_drain_mode(false, false, false, true, false), (false, true));
    assert_eq!(entry_drain_mode(true, false, false, true, true), (false, false));
    assert_eq!(entry_drain_mode(false, false, false, false, false), (true, false));
}

#[test]
fn mcp_prefixes_normalise_server_names() {
    assert_eq!(mcp_tool_prefix("my-server.v2"), "mcp__my_server_v2__");
    let servers = vec!["my-server".to_string()];
    assert!(mcp_tool_allowed(&servers, "mcp__my_server__read"));
    assert!(!mcp_tool_allowed(&servers, "mcp__other__read"));
    assert!(!mcp_tool_allowed(&[], "mcp__my_server__read"));
}

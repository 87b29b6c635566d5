use session::dedup::{CompletedToolCall, ToolOutput};
use session::turn::{
    after_llm_turn, after_record, after_tool_batch, assistant_blocks, bump_consume_streak,
    compaction_action, compaction_retry_text, doom_results, doom_signature, doom_texts,
    failure_guard_texts, idle_before_turn, non_replayable, result_blocks, AfterBatch, AfterRecord,
    AfterTurn, Block, CompactAction, CompactResult, DoomWindow, TurnGuards, DOOM_SKIPPED,
    DOOM_THRESHOLD,
};

fn call(id: &str, name: &str, input: &str) -> CompletedToolCall {
    CompletedToolCall { id: id.to_string(), name: name.to_string(), input: input.to_string() }
}

#[test]
fn signature_is_name_colon_input() {
    assert_eq!(doom_signature(&call("1", "bash", "{\"command\":\"ls\"}")), "bash:{\"command\":\"ls\"}");
}

#[test]
fn doom_trips_on_the_twentieth_identical_call() {
    let mut w = DoomWindow::new();
    for _ in 0..DOOM_THRESHOLD - 1 {
        assert!(!w.push("bash:{}".to_string()));
    }
    assert!(w.push("bash:{}".to_string()));
}

#[test]
fn doom_window_resets_on_a_different_call() {
    let mut w = DoomWindow::new();
    for _ in 0..DOOM_THRESHOLD - 1 {
        assert!(!w.push("a".to_string()));
    }
    assert!(!w.push("b".to_string()));
    for _ in 0..DOOM_THRESHOLD - 1 {
        assert!(!w.push("a".to_string()));
    }
    assert!(w.push("a".to_string()), "twenty a's since the b");
}

#[test]
fn doom_clear_forgets_history() {
    let mut w = DoomWindow::new();
    for _ in 0..DOOM_THRESHOLD - 1 {
        w.push("a".to_string());
    }
    w.clear();
    assert!(!w.push("a".to_string()));
}

#[test]
fn check_batch_reports_first_tripping_call() {
    let mut w = DoomWindow::new();
    let calls: Vec<CompletedToolCall> = (0..25).map(|i| call(&i.to_string(), "read", "{}")).collect();
    assert_eq!(w.check_batch(&calls), Some(DOOM_THRESHOLD - 1));
    let mut w2 = DoomWindow::new();
    let mixed = vec![call("1", "read", "{}"), call("2", "ls", "{}")];
    assert_eq!(w2.check_batch(&mixed), None);
}

#[test]
fn doom_texts_name_the_threshold() {
    let (ev, err) = doom_texts();
    assert_eq!(ev, "doom-loop: same tool repeated 20x, stopping");
    assert_eq!(err, "doom-loop: same tool repeated 20x");
}

#[test]
fn doom_results_answer_every_call() {
    let calls = vec![call("a", "bash", "{}"), call("b", "read", "{}")];
    let r = doom_results(&calls);
    assert_eq!(r.len(), 2);
    for (b, c) in r.iter().zip(calls.iter()) {
        match b {
            Block::ToolResult { tool_use_id, content, is_error, images } => {
                assert_eq!(tool_use_id, &c.id);
                assert_eq!(content, DOOM_SKIPPED);
                assert!(*is_error);
                assert!(images.is_empty());
            }
            _ => panic!("expected a tool result"),
        }
    }
}

#[test]
fn assistant_blocks_reasoning_only_with_tools() {
    let calls = vec![call("1", "bash", "{}")];
    let r = assistant_blocks(true, "think".into(), "text".into(), &calls);
    assert_eq!(r.len(), 3);
    assert!(matches!(&r[0], Block::Reasoning(t) if t == "think"));
    assert!(matches!(&r[1], Block::Text(t) if t == "text"));
    assert!(matches!(&r[2], Block::ToolUse { id, .. } if id == "1"));
    let no_tools = assistant_blocks(true, "think".into(), "text".into(), &[]);
    assert_eq!(no_tools.len(), 1);
    assert!(matches!(&no_tools[0], Block::Text(t) if t == "text"));
    let off = assistant_blocks(false, "think".into(), String::new(), &calls);
    assert_eq!(off.len(), 1);
    assert!(matches!(&off[0], Block::ToolUse { .. }));
}

#[test]
fn result_blocks_follow_result_order() {
    let calls = vec![call("a", "bash", "{}"), call("b", "read", "{}")];
    let results = vec![(0usize, ToolOutput::ok("A".into())), (1usize, ToolOutput::err("B".into()))];
    let r = result_blocks(&calls, results);
    assert!(matches!(&r[0], Block::ToolResult { tool_use_id, content, is_error: false, .. } if tool_use_id == "a" && content == "A"));
    assert!(matches!(&r[1], Block::ToolResult { tool_use_id, content, is_error: true, .. } if tool_use_id == "b" && content == "B"));
}

#[test]
fn cancel_keeps_only_non_replayable_results() {
    let calls = vec![call("t1", "task", "{}"), call("b1", "bash", "{}")];
    let results = vec![(0usize, ToolOutput::ok("sub".into())), (1usize, ToolOutput::ok("ls".into()))];
    let blocks = result_blocks(&calls, results);
    let kept = non_replayable(blocks, &["t1".to_string()]);
    assert_eq!(kept.len(), 1);
    assert!(matches!(&kept[0], Block::ToolResult { tool_use_id, .. } if tool_use_id == "b1"));
}

#[test]
fn failure_guard_texts_name_worst_tool() {
    let (ev, err) = failure_guard_texts(Some(("bash", 3)));
    assert_eq!(ev, "tool-failure guard: 'bash' failed 3x consecutively, stopping");
    assert_eq!(err, "tool-failure guard: 'bash' failed 3x consecutively");
    let (ev2, _) = failure_guard_texts(None);
    assert_eq!(ev2, "tool-failure guard: threshold reached, stopping");
}

#[test]
fn guards_reset_clears_everything() {
    let mut g = TurnGuards::new();
    g.doom.push("x".into());
    g.failures.insert("bash".into(), 2);
    g.timeout_first = Some(("c".into(), "i".into()));
    g.reset();
    assert_eq!(g.failures.len(), 0);
    assert!(g.timeout_first.is_none());
}

#[test]
fn compaction_policy() {
    assert_eq!(compaction_action(0, CompactResult::Summarized, false), CompactAction::Announce);
    assert_eq!(compaction_action(0, CompactResult::NothingToSummarize, true), CompactAction::Proceed);
    assert_eq!(compaction_action(1, CompactResult::NothingToSummarize, false), CompactAction::TooLarge);
    assert_eq!(compaction_action(0, CompactResult::Failed, true), CompactAction::Retry);
    assert_eq!(compaction_action(1, CompactResult::Failed, true), CompactAction::Retry);
    assert_eq!(compaction_action(2, CompactResult::Failed, true), CompactAction::Fail);
    assert_eq!(compaction_retry_text(0), "compaction retry 1/2");
    assert_eq!(compaction_retry_text(1), "compaction retry 2/2");
}

#[test]
fn loop_decisions() {
    assert_eq!(after_llm_turn(true, true), AfterTurn::Resume);
    assert_eq!(after_llm_turn(false, true), AfterTurn::Stop);
    assert_eq!(after_llm_turn(false, false), AfterTurn::Record);
    assert_eq!(after_record(true, true), AfterRecord::RunTools);
    assert_eq!(after_record(false, true), AfterRecord::Resume);
    assert_eq!(after_record(false, false), AfterRecord::IdleDrain);
    assert_eq!(after_tool_batch(true, true, true), AfterBatch::StopCancelled);
    assert_eq!(after_tool_batch(false, true, true), AfterBatch::Resume);
    assert_eq!(after_tool_batch(false, false, true), AfterBatch::GuardTripped);
    assert_eq!(after_tool_batch(false, false, false), AfterBatch::Next);
    assert_eq!(bump_consume_streak(0), (1, false));
    assert_eq!(bump_consume_streak(31), (32, true));
    assert!(idle_before_turn(true, false));
    assert!(!idle_before_turn(true, true));
}

use session::dedup::{dedup_consecutive_bash_timeouts, CompletedToolCall, ToolOutput};

fn bash_tc(id: &str, command: &str) -> CompletedToolCall {
    CompletedToolCall {
        id: id.into(),
        name: "bash".into(),
        input: format!("{{\"command\":\"{command}\"}}"),
    }
}

fn other_tc(name: &str, id: &str) -> CompletedToolCall {
    CompletedToolCall {
        id: id.into(),
        name: name.into(),
        input: "{}".into(),
    }
}

fn timeout_output(pid: u32) -> ToolOutput {
    ToolOutput {
        content: format!(
            "[bash-timeout: command timed out after 1s \u{2014} moved to background]\n\
             pid: {pid}\noutput: /tmp/opencoder_bg_{pid}.output\n\n"
        ),
        is_error: false,
        images: vec![],
    }
}

fn normal_output(text: &str) -> ToolOutput {
    ToolOutput::ok(text.to_string())
}

#[test]
fn first_timeout_stored_subsequent_replaced() {
    let tool_calls = vec![bash_tc("1", "sleep 10"), bash_tc("2", "sleep 10")];
    let mut results = vec![(0, timeout_output(100)), (1, timeout_output(200))];
    let mut first = None;
    dedup_consecutive_bash_timeouts(&tool_calls, &mut results, &mut first);
    assert_eq!(results[0].1.content, results[1].1.content, "second timeout content must match first");
    assert!(results[0].1.content.contains("pid: 100"));
    assert!(results[1].1.content.contains("pid: 100"), "second must be replaced with first content (pid 100)");
}

#[test]
fn non_timeout_bash_resets_count() {
    let tool_calls = vec![bash_tc("1", "sleep 10"), bash_tc("2", "ls"), bash_tc("3", "sleep 10")];
    let mut results = vec![(0, timeout_output(100)), (1, normal_output("done")), (2, timeout_output(300))];
    let mut first = None;
    dedup_consecutive_bash_timeouts(&tool_calls, &mut results, &mut first);
    assert!(results[0].1.content.contains("pid: 100"));
    assert!(results[1].1.content.contains("done"));
    assert!(results[2].1.content.contains("pid: 300"), "third timeout must have own content after reset");
}

#[test]
fn non_bash_tool_does_not_reset_count() {
    let tool_calls = vec![bash_tc("1", "sleep 10"), other_tc("edit", "2"), bash_tc("3", "sleep 10")];
    let mut results = vec![(0, timeout_output(100)), (1, normal_output("edited")), (2, timeout_output(300))];
    let mut first = None;
    dedup_consecutive_bash_timeouts(&tool_calls, &mut results, &mut first);
    assert!(results[0].1.content.contains("pid: 100"));
    assert!(results[1].1.content.contains("edited"));
    assert!(results[2].1.content.contains("pid: 100"), "third timeout must reuse first content (non-bash didn't reset)");
}

#[test]
fn first_persists_across_batches() {
    let tool_calls_a = vec![bash_tc("1", "sleep 10")];
    let mut results_a = vec![(0, timeout_output(100))];
    let mut first = None;
    dedup_consecutive_bash_timeouts(&tool_calls_a, &mut results_a, &mut first);

    let tool_calls_b = vec![bash_tc("2", "sleep 10")];
    let mut results_b = vec![(0, timeout_output(200))];
    dedup_consecutive_bash_timeouts(&tool_calls_b, &mut results_b, &mut first);

    assert!(results_b[0].1.content.contains("pid: 100"), "second-batch timeout must reuse first-batch content");
}

#[test]
fn different_commands_not_deduped() {
    let tool_calls = vec![bash_tc("1", "cargo build"), bash_tc("2", "npm test")];
    let mut results = vec![(0, timeout_output(100)), (1, timeout_output(200))];
    let mut first = None;
    dedup_consecutive_bash_timeouts(&tool_calls, &mut results, &mut first);
    assert!(results[0].1.content.contains("pid: 100"), "first timeout keeps its own pid");
    assert!(results[1].1.content.contains("pid: 200"), "different-command timeout must keep its own pid (not deduped)");
    assert!(!results[1].1.content.contains("pid: 100"), "different-command timeout must not inherit the first's pid");
}

#[test]
fn command_mismatch_starts_new_streak() {
    let tool_calls = vec![bash_tc("1", "cargo build"), bash_tc("2", "npm test"), bash_tc("3", "npm test")];
    let mut results = vec![(0, timeout_output(100)), (1, timeout_output(200)), (2, timeout_output(300))];
    let mut first = None;
    dedup_consecutive_bash_timeouts(&tool_calls, &mut results, &mut first);
    assert!(results[0].1.content.contains("pid: 100"));
    assert!(results[1].1.content.contains("pid: 200"), "mismatched command keeps its own pid (new streak)");
    assert!(results[2].1.content.contains("pid: 200"), "third dedups against the second (same command, same streak)");
}

#[test]
fn result_without_its_call_changes_nothing() {
    let tool_calls = vec![];
    let mut results = vec![(3, timeout_output(100))];
    let mut first = None;
    dedup_consecutive_bash_timeouts(&tool_calls, &mut results, &mut first);
    assert!(first.is_none());
    assert!(results[0].1.content.contains("pid: 100"));
}

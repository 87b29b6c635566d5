use session::subagent::{
    cancel_report, check_request, classify_cancel, finished_child, valid_subagent_options, ChildCancel,
    ChildProgress,
};

#[test]
fn valid_options_depend_on_plan_mode() {
    assert_eq!(valid_subagent_options(true), "'explore' (read-only)");
    assert_eq!(valid_subagent_options(false), "'explore' (read-only) or 'build' (full tools)");
}

#[test]
fn plan_mode_runs_only_explore() {
    assert_eq!(check_request("look", None, true), Ok("explore".to_string()));
    assert_eq!(
        check_request("look", Some("build"), true),
        Err("Unknown subagent_type 'build'. Valid options: 'explore' (read-only)".to_string())
    );
    assert_eq!(check_request("look", Some("build"), false), Ok("build".to_string()));
    assert_eq!(check_request("", None, false), Err("task requires a prompt".to_string()));
}

#[test]
fn cancellations_are_told_apart() {
    assert_eq!(classify_cancel(true, true), ChildCancel::TimedOut);
    assert_eq!(classify_cancel(false, false), ChildCancel::Redirected);
    assert_eq!(classify_cancel(false, true), ChildCancel::Interrupted);
    assert_eq!(cancel_report(ChildCancel::Interrupted), ("(cancelled)".to_string(), "cancelled".to_string()));
    assert_eq!(
        cancel_report(ChildCancel::Redirected).1,
        "cancelled: redirected by parent steer"
    );
}

#[test]
fn failures_surface_the_cause_and_the_text() {
    let o = finished_child(Some("boom".to_string()), "partial".to_string());
    assert!(o.is_error);
    assert_eq!(o.content, "subagent failed: boom\n\npartial");
    let ok = finished_child(None, "done".to_string());
    assert!(!ok.is_error);
    assert_eq!(ok.content, "done");
}

#[test]
fn progress_summary_counts_tools_and_previews_text() {
    let mut p = ChildProgress::new();
    p.on_tool_start();
    p.on_tool_start();
    p.on_text_delta("hello ");
    p.on_text_delta("world");
    assert_eq!(p.end_summary("final"), "(2 tool calls) hello world");
    let q = ChildProgress::new();
    assert_eq!(q.end_summary(&"x".repeat(200)), format!("(0 tool calls) {}", "x".repeat(120)));
    let mut r = ChildProgress::new();
    r.on_text_delta(&"y".repeat(300));
    r.on_text_delta("dropped");
    assert!(!r.end_summary("").contains("dropped"));
}

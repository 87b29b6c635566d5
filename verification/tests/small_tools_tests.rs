use session::computer_use::{ComputerUseTool, LoopOutcome, RecordedAction};
use session::edit::{apply_edit, edit_summary, EditTool};
use session::grep::{glob_to_regex, grep_row, GrepTool};
use session::ls::{entry_label, listing, ListTool};
use session::plan::{plan_file_name, sanitize, PlanExitTool};

#[test]
fn edit_replaces_a_unique_match() {
    assert_eq!(apply_edit("a = 1;\nb = 2;\n", "b = 2", "b = 3", false), Ok(("a = 1;\nb = 3;\n".to_string(), 1)));
}

#[test]
fn edit_refuses_ambiguous_and_missing_matches() {
    assert_eq!(apply_edit("x x x", "x", "y", false), Err("old_string matches 3 times; set replace_all=true or add context".to_string()));
    assert_eq!(apply_edit("abc", "z", "y", false), Err("old_string not found in file".to_string()));
    assert_eq!(apply_edit("abc", "", "y", false), Err("old_string is empty".to_string()));
}

#[test]
fn edit_replace_all_counts_non_overlapping_matches() {
    assert_eq!(apply_edit("aaaa", "aa", "b", true), Ok(("bb".to_string(), 2)));
    assert_eq!(apply_edit("aaa", "aa", "b", true), Ok(("ba".to_string(), 1)));
    assert_eq!(edit_summary("/w/f", 2, true), "edited /w/f (2 replacements)");
    assert_eq!(edit_summary("/w/f", 1, false), "edited /w/f (1 replacement)");
    assert_eq!(edit_summary("/w/f", 3, false), "edited /w/f (1 replacements)");
    assert_eq!(EditTool {}.name(), "edit");
}

#[test]
fn ls_lists_directory_contents() {
    let labels = vec![entry_label("file.txt", false), entry_label("subdir", true)];
    let refs: Vec<&str> = labels.iter().map(|s| s.as_str()).collect();
    let out = listing(&refs);
    assert!(out.contains("file.txt"));
    assert!(out.contains("subdir/"));
    assert_eq!(out, "file.txt\nsubdir/");
}

#[test]
fn ls_empty_directory() {
    assert_eq!(listing(&[]), "(empty)");
    assert_eq!(ListTool {}.name(), "ls");
}

#[test]
fn ls_sorts_labels() {
    assert_eq!(listing(&["b", "a/", "C"]), "C\na/\nb");
}

#[test]
fn plan_names_are_sanitized() {
    assert_eq!(sanitize("my plan: v2!"), "my-plan--v2");
    assert_eq!(sanitize("--x--"), "x");
    assert_eq!(plan_file_name(None), "plan.md");
    assert_eq!(plan_file_name(Some("计划 1")), "计划-1.md");
    assert_eq!(
        PlanExitTool::written("/w/.opencode/plans/plan.md"),
        "plan written to /w/.opencode/plans/plan.md; switching to act mode"
    );
}

#[test]
fn computer_use_report_lists_actions() {
    let actions = vec![RecordedAction { kind: "click".into(), fields: "{\"x\":1}".into() }];
    let r = ComputerUseTool::report("open", LoopOutcome::Done, "ok", &actions, true);
    assert_eq!(r, "task: open\noutcome: done\nfinal: ok\nactions_executed: 1\n  [0] click {\"x\":1}\n");
    let empty = ComputerUseTool::report("open", LoopOutcome::MaxStepsReached, "", &[], false);
    assert!(empty.contains("outcome: max_steps_reached"));
    assert!(empty.contains("note: no `actions` plan supplied."));
    assert_eq!(ComputerUseTool::max_steps_of(None), 25);
    assert_eq!(ComputerUseTool::max_steps_of(Some(0)), 1);
    assert_eq!(ComputerUseTool::max_steps_of(Some(1000)), 200);
    assert_eq!(ComputerUseTool::prompt_of(Some("  ")), None);
}

#[test]
fn grep_include_globs_become_anchored_regexes() {
    assert_eq!(glob_to_regex("*.rs"), "^.*\\.rs$");
    assert_eq!(glob_to_regex("a?(b)"), "^a.\\(b\\)$");
    assert_eq!(grep_row("/w/a.rs", 3, "let x = 1;   "), "/w/a.rs:3: let x = 1;");
    assert_eq!(GrepTool {}.name(), "grep");
}

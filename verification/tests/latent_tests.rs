use session::latent::{
    active_skill_names, is_latent_tool, is_visible, latent_execution_allowed,
    latent_tools_for_skill, task_plan_active, unlocked_from_body, unlocked_tools, ToolNames,
};

#[test]
fn ssh_pty_is_latent() {
    assert!(is_latent_tool("ssh_pty"));
}

#[test]
fn question_is_latent() {
    assert!(is_latent_tool("question"));
}

#[test]
fn normal_tools_not_latent() {
    assert!(!is_latent_tool("bash"));
    assert!(!is_latent_tool("read"));
    assert!(!is_latent_tool("task"));
}

#[test]
fn skill_to_tool_mapping() {
    assert_eq!(latent_tools_for_skill("ssh-pty"), &["ssh_pty"]);
    assert_eq!(latent_tools_for_skill("task-plan"), &["question"]);
    assert!(
        latent_tools_for_skill("review").is_empty(),
        "review must not unlock any latent tool (question is task-plan-only)"
    );
    assert!(latent_tools_for_skill("unknown").is_empty());
}

#[test]
fn unlocked_tools_from_skill_names() {
    let names = vec!["ssh-pty".to_string(), "task-plan".to_string()];
    let unlocked = unlocked_tools(&names);
    assert!(unlocked.contains("ssh_pty"));
    assert!(unlocked.contains("question"));
}

#[test]
fn unknown_skill_unlocks_nothing() {
    let names = vec!["bogus".to_string()];
    assert!(unlocked_tools(&names).is_empty());
}

#[test]
fn unlocked_from_body_detects_ssh_pty() {
    let body = Some("# ssh-pty skill\n\nYou have ssh_pty...");
    let unlocked = unlocked_from_body(body);
    assert!(unlocked.contains("ssh_pty"));
}

#[test]
fn unlocked_from_body_detects_plan_skill_only() {
    let plan_body = Some("# task-plan\n\n## Overview\n\nMulti-phase planning...");
    assert!(unlocked_from_body(plan_body).contains("question"));
}

#[test]
fn task_plan_active_via_source_line() {
    let body = Some("> Source: /home/u/.opencoder/skills/task-plan/SKILL.md\n\nbody");
    assert!(task_plan_active(body));
    let flat = Some("> Source: /skills/task-plan.md\n\nbody");
    assert!(task_plan_active(flat));
}

#[test]
fn task_plan_active_rejects_lookalike_and_other_skills() {
    let lookalike = Some("> Source: /skills/my-task-plan/SKILL.md\n\nbody");
    assert!(!task_plan_active(lookalike));
    let review = Some("> Source: /skills/review/SKILL.md\n\nbody");
    assert!(!task_plan_active(review));
    assert!(!task_plan_active(None));
}

#[test]
fn task_plan_active_legacy_prefix_fallback() {
    assert!(task_plan_active(Some("# task-plan\nplan the work")));
    let filler = "x".repeat(600);
    let late = format!("{filler} task-plan");
    assert!(!task_plan_active(Some(&late)));
}

#[test]
fn unlocked_from_body_review_skill_unlocks_nothing() {
    let review_body = Some("# review\n\nEvidence-driven assessment of shipped work.");
    assert!(unlocked_from_body(review_body).is_empty());
}

#[test]
fn body_mention_beyond_prefix_unlocks_nothing() {
    let filler = "x".repeat(600);
    let late = format!("{filler} task-plan question");
    assert!(unlocked_from_body(Some(&late)).is_empty());
}

#[test]
fn question_tool_name_alone_does_not_unlock() {
    let body = Some("ask via the question tool whenever blocked");
    assert!(!unlocked_from_body(body).contains("question"));
}

#[test]
fn execution_gate_refuses_calls_the_body_does_not_unlock() {
    assert!(latent_execution_allowed("bash", None));
    assert!(latent_execution_allowed("read", Some("# task-plan")));
    assert!(!latent_execution_allowed("question", None));
    assert!(!latent_execution_allowed("ssh_pty", None));
    assert!(latent_execution_allowed(
        "question",
        Some("# task-plan\n\nask via question when blocked")
    ));
    assert!(latent_execution_allowed(
        "ssh_pty",
        Some("> Source: /h/skills/ssh-pty/SKILL.md\n\nattach with ssh_pty")
    ));
    assert!(!latent_execution_allowed(
        "question",
        Some("> Source: /h/skills/my-task-plan/SKILL.md\n\nplan")
    ));
}

#[test]
fn compound_source_sections_unlock_in_both_orders() {
    let filler = format!("phase one detail. {}\n\n", "x".repeat(600));
    let plan = "> Source: /home/u/.opencoder/skills/task-plan/SKILL.md\n\n\
                plan the launch; ask via question when blocked.";
    let ssh = "> Source: /home/u/.opencoder/skills/ssh-pty/SKILL.md\n\n\
               attach terminals with ssh_pty.";
    let plan_first = format!("{filler}{plan}\n\n{ssh}");
    let ssh_first = format!("{filler}{ssh}\n\n{plan}");
    for (label, body) in [("plan-first", &plan_first), ("ssh-first", &ssh_first)] {
        let unlocked = unlocked_from_body(Some(body));
        assert!(unlocked.contains("question"), "{label} must still unlock question: {unlocked:?}");
        assert!(unlocked.contains("ssh_pty"), "{label} must still unlock ssh_pty: {unlocked:?}");
    }
}

#[test]
fn lookalike_user_skill_source_line_unlocks_nothing() {
    let body = "> Source: /home/u/skills/my-task-plan/SKILL.md\n\n\
                plan carefully; ask via question when blocked.";
    assert!(unlocked_from_body(Some(body)).is_empty());
}

#[test]
fn flat_source_file_stem_unlocks_ssh_pty() {
    let body = "> Source: /etc/opencoder/skills/ssh-pty.md\n\nopen terminals.";
    assert!(unlocked_from_body(Some(body)).contains("ssh_pty"));
}

#[test]
fn legacy_body_without_source_lines_still_scans_prefix() {
    assert!(
        unlocked_from_body(Some("# task-plan\n\nask via question")).contains("question"),
        "legacy bare task-plan body must keep unlocking question"
    );
    assert!(
        unlocked_from_body(Some("# ssh-pty\n\nuse ssh_pty")).contains("ssh_pty"),
        "legacy bare ssh-pty body must keep unlocking ssh_pty"
    );
    let filler = "x".repeat(600);
    let late = format!("{filler} task-plan question");
    assert!(
        unlocked_from_body(Some(&late)).is_empty(),
        "the legacy 500-char window still applies without a Source line"
    );
}

#[test]
fn act_without_skill_unlocks_nothing() {
    assert!(unlocked_from_body(None).is_empty());
    assert!(unlocked_from_body(Some("plain execution prompt")).is_empty());
}

#[test]
fn unlocked_from_body_none_when_no_skill() {
    assert!(unlocked_from_body(None).is_empty());
    assert!(unlocked_from_body(Some("random text")).is_empty());
}

#[test]
fn long_source_path_keeps_question_within_unlock_window() {
    // A deep skills root: the Source line alone fills the 500-char window,
    // so the body's own `question` mention lies outside it.
    let deep = "/lvl".repeat(130);
    let body = format!("> Source: {deep}/skills/task-plan/SKILL.md\n\n# Task plan\nAsk via question when ambiguous.");
    let prefix: String = body.chars().take(500).collect();
    assert!(prefix.starts_with("> Source: "));
    assert!(!prefix.contains("question"));
    assert!(unlocked_from_body(Some(&body)).contains("question"));
}

#[test]
fn long_source_path_review_body_still_unlocks_nothing() {
    let deep = "/lvl".repeat(60);
    let body = format!(
        "> Source: {deep}/skills/review/SKILL.md\n\n# Review\nNever call the question tool; report findings."
    );
    assert!(unlocked_from_body(Some(&body)).is_empty());
}

#[test]
fn unknown_source_line_disables_the_legacy_scan() {
    // A resolvable Source line naming a user skill still suppresses the
    // 500-char fallback.
    let body = "> Source: /s/skills/review/SKILL.md\n\n# task-plan";
    assert!(active_skill_names(Some(body)).is_empty());
    // A Source line without a `skills/` segment does not count.
    let body = "> Source: /tmp/notes.md\n\n# task-plan";
    assert!(active_skill_names(Some(body)).contains("task-plan"));
}

// Agent allowlists: `plan` and `act` admit `question`; `command` and
// `explore` do not; a custom agent may admit `ssh_pty`.

#[test]
fn visibility_plan_always_sees_question() {
    let none = ToolNames { question: false, ssh_pty: false };
    let unlocked = ToolNames { question: true, ssh_pty: false };
    // plan: sees question with no skill at all
    assert!(is_visible("question", true, true, &none));
    // act: only with the task-plan unlock
    assert!(!is_visible("question", false, true, &none));
    assert!(is_visible("question", false, true, &unlocked));
    // command: not allowlisted
    assert!(!is_visible("question", false, false, &unlocked));
}

#[test]
fn visibility_act_needs_skill_unlock() {
    let none = ToolNames { question: false, ssh_pty: false };
    assert!(!is_visible("question", false, true, &none));
    let unlocked = ToolNames { question: true, ssh_pty: false };
    assert!(is_visible("question", false, true, &unlocked));
}

#[test]
fn visibility_ssh_pty_unchanged() {
    // A custom act agent that allowlists ssh_pty.
    let none = ToolNames { question: false, ssh_pty: false };
    assert!(!is_visible("ssh_pty", false, true, &none));
    let unlocked = ToolNames { question: false, ssh_pty: true };
    assert!(is_visible("ssh_pty", false, true, &unlocked));
}

#[test]
fn visibility_allowlist_still_applies() {
    // explore: unlocked but not allowlisted stays hidden.
    let unlocked = ToolNames { question: true, ssh_pty: true };
    assert!(!is_visible("question", false, false, &unlocked));
}

#[test]
fn visibility_rules() {
    let none = ToolNames { question: false, ssh_pty: false };
    let q = ToolNames { question: true, ssh_pty: false };
    assert!(is_visible("question", true, false, &none));
    assert!(!is_visible("question", false, true, &none));
    assert!(is_visible("question", false, true, &q));
    assert!(!is_visible("question", false, false, &q));
    assert!(!is_visible("ssh_pty", true, true, &q));
    assert!(is_visible("bash", false, true, &none));
}

use session::skill_context::{
    body_message_text, injectable_body, should_deliver_body, skill_body_of, skill_payload,
    PrefixSearch, SkillPayload,
};
use session::skill_context::source_paths_from_body;

/// The body message for an armed prompt, measuring size by characters
/// (`budget` of them) in place of the model's token estimate.
fn body_message(agent: &str, prompt: &str, budget: usize) -> Option<String> {
    match skill_payload(true, agent, Some(prompt)) {
        SkillPayload::Body(body) => {
            let paths = source_paths_from_body(prompt);
            let fits_whole = body.chars().count() <= budget;
            let kept = if fits_whole {
                0
            } else {
                let lines: Vec<&str> = body.lines().collect();
                let mut search = PrefixSearch::new(lines.len());
                while let Some(mid) = search.probe() {
                    let fits = lines[..mid].join("\n").chars().count() <= budget;
                    search.record(mid, fits);
                }
                search.result()
            };
            let first = paths[0];
            let injected = injectable_body(&body, first, fits_whole, kept);
            Some(body_message_text(&paths, &injected))
        }
        _ => None,
    }
}

#[test]
fn body_message_gating() {
    assert_eq!(skill_payload(true, "act", None), SkillPayload::Nothing);
    assert_eq!(skill_payload(false, "explore", Some("> Source: /skills/x/SKILL.md\n\nX-BODY")), SkillPayload::Nothing);
    assert_eq!(skill_payload(true, "workflow", Some("> Source: /skills/x/SKILL.md\n\nX-BODY")), SkillPayload::Nothing);
}

#[test]
fn body_message_none_for_legacy_or_empty_body() {
    assert_eq!(skill_payload(true, "act", Some("LEGACY-BODY-WITHOUT-PREFIX")), SkillPayload::Nothing);
    assert_eq!(
        skill_payload(true, "act", Some("> Source: /skills/e/SKILL.md\n\n   \n")),
        SkillPayload::Pointer("/skills/e/SKILL.md".to_string())
    );
}

#[test]
fn body_message_single_skill_shape() {
    assert_eq!(
        body_message("act", "> Source: /skills/rev/SKILL.md\n\nREV-STEP-1\nREV-STEP-2", 20_000).unwrap(),
        "[skill loaded] /skills/rev/SKILL.md\n\nREV-STEP-1\nREV-STEP-2"
    );
}

#[test]
fn body_message_compound_shape_is_set_canonical() {
    let text = body_message(
        "act",
        "> Source: /skills/alpha/SKILL.md\n\nALPHA-BODY\n\n> Source: /skills/beta/SKILL.md\n\nBETA-BODY",
        20_000,
    )
    .unwrap();
    assert_eq!(
        text,
        "[skill loaded] /skills/alpha/SKILL.md\n[skill loaded] /skills/beta/SKILL.md\n\nALPHA-BODY\n\n> Source: /skills/beta/SKILL.md\n\nBETA-BODY"
    );
    let flipped = body_message(
        "act",
        "> Source: /skills/beta/SKILL.md\n\nBETA-BODY\n\n> Source: /skills/alpha/SKILL.md\n\nALPHA-BODY",
        20_000,
    )
    .unwrap();
    let block = "[skill loaded] /skills/alpha/SKILL.md\n[skill loaded] /skills/beta/SKILL.md\n\n";
    assert!(text.starts_with(block) && flipped.starts_with(block));
}

#[test]
fn body_message_oversized_truncates_with_continuation_notice() {
    let line = |n: usize| format!("BIG-{n:02} {}", "x".repeat(19_000));
    let body = (0..5usize).map(line).collect::<Vec<_>>().join("\n");
    let prompt = format!("> Source: /skills/big/SKILL.md\n\n{body}");
    let text = body_message("act", &prompt, 80_000).unwrap();
    assert!(text.starts_with("[skill loaded] /skills/big/SKILL.md\n\n"));
    assert!(text.contains(
        "[INCOMPLETE SKILL] truncated at ~20K tokens; 1 lines remain; read the rest with the read tool: read(path=\"/skills/big/SKILL.md\", offset=5)."
    ));
}

#[test]
fn injectable_body_small_is_verbatim() {
    assert_eq!(injectable_body("a\nb", "/p", true, 0), "a\nb");
}

#[test]
fn injectable_body_single_oversized_line_degrades_to_notice_only() {
    assert_eq!(
        injectable_body("huge", "/p", false, 0),
        "[INCOMPLETE SKILL] truncated at ~20K tokens; 1 lines remain; read the rest with the read tool: read(path=\"/p\", offset=1)."
    );
}

#[test]
fn injectable_body_truncates_on_whole_lines_with_continuation_notice() {
    assert_eq!(
        injectable_body("l1\nl2\nl3", "/p", false, 2),
        "l1\nl2\n[INCOMPLETE SKILL] truncated at ~20K tokens; 1 lines remain; read the rest with the read tool: read(path=\"/p\", offset=3)."
    );
}

#[test]
fn prefix_search_settles_on_the_longest_fit() {
    let sizes = [3usize, 7, 12, 20, 31];
    for budget in 0..40 {
        let mut s = PrefixSearch::new(sizes.len());
        while let Some(mid) = s.probe() {
            s.record(mid, sizes[mid - 1] <= budget);
        }
        let expected = sizes.iter().filter(|&&x| x <= budget).count();
        assert_eq!(s.result(), expected, "budget {budget}");
    }
}

#[test]
fn skill_body_strips_the_leading_source_block() {
    assert_eq!(skill_body_of("> Source: /a\n\nBODY"), "BODY");
    assert_eq!(skill_body_of("> Source: /a"), "> Source: /a");
    assert_eq!(skill_body_of("plain"), "plain");
}

#[test]
fn deliver_body_once_is_one_shot_per_activation() {
    assert!(should_deliver_body(true, "act", false));
    assert!(!should_deliver_body(true, "act", true));
    assert!(!should_deliver_body(true, "workflow", false));
    assert!(!should_deliver_body(false, "explore", false));
}

#[test]
fn catalog_keeps_only_enabled_skills() {
    let found = vec![("alpha".to_string(), "A".to_string()), ("beta".to_string(), "B".to_string())];
    assert!(session::skill_context::catalog_filter(&[], &found).is_empty(), "nothing enabled");
    let only_beta = session::skill_context::catalog_filter(&["beta".to_string(), "zeta".to_string()], &found);
    assert_eq!(only_beta, vec![("beta".to_string(), "B".to_string())]);
}

#[test]
fn tail_reminder_gating() {
    use_tail();
}

fn use_tail() {
    let cat = vec![("alpha".to_string(), String::new())];
    assert!(session::skill_context::tail_reminder_text(false, "act", &cat, None, None).is_none(), "subagents get none");
    assert!(session::skill_context::tail_reminder_text(true, "workflow", &cat, None, None).is_none(), "workflow excluded");
    assert!(session::skill_context::tail_reminder_text(true, "act", &[], None, None).is_none(), "nothing to remind");
    let t = session::skill_context::tail_reminder_text(true, "act", &[], Some("/skills/bare/SKILL.md"), None).unwrap();
    assert!(t.starts_with("[active skill]\nAn active skill is in effect: /skills/bare/SKILL.md"));
    let c = session::skill_context::tail_reminder_text(true, "act", &cat, None, Some("/home/u/.opencoder/skills")).unwrap();
    assert!(c.starts_with("[skills]\nEnabled skills live under /home/u/.opencoder/skills:\n- alpha\n"));
}

/// The pointer the tail reminder carries for an armed prompt, as
/// `skill_payload` decides it.
fn tail_for(primary: bool, agent: &str, prompt: Option<&str>) -> Option<String> {
    let pointer = match skill_payload(primary, agent, prompt) {
        SkillPayload::Pointer(p) => Some(p),
        _ => None,
    };
    session::skill_context::tail_reminder_text(primary, agent, &[], pointer.as_deref(), None)
}

#[test]
fn tail_reminder_pointer_reserved_for_bodyless_skill() {
    assert!(
        tail_for(true, "act", Some("> Source: /skills/rev/SKILL.md\n\nREV")).is_none(),
        "armed with a body -> pointer suppressed (body ships adjacent)"
    );
    let text = tail_for(true, "act", Some("> Source: /skills/bare/SKILL.md\n\n"))
        .expect("bodyless skill keeps the pointer");
    assert!(
        text.contains("[active skill]") && text.contains("/skills/bare/SKILL.md"),
        "pointer names the source path: {text}"
    );
    assert!(tail_for(true, "act", None).is_none(), "skill-less -> no tail");
}

#[test]
fn tail_reminder_gating_and_content() {
    let bare = Some("> Source: /skills/bare/SKILL.md\n\n");
    let msg = tail_for(true, "act", bare).expect("primary + Source prefix");
    assert!(msg.contains("[active skill]"));
    assert!(tail_for(true, "workflow", bare).is_none(), "workflow excluded");
    assert!(tail_for(false, "explore", bare).is_none(), "subagent excluded");
}

#[test]
fn injectable_body_exactly_at_budget_is_verbatim() {
    // A body whose size equals the budget fits whole: the boundary is
    // inclusive, so the caller passes `fits_whole` and nothing is cut.
    let body = "a".repeat(80_000);
    let out = injectable_body(&body, "/s/SKILL.md", body.chars().count() <= 80_000, 0);
    assert_eq!(out, body, "boundary is inclusive");
}

#[test]
fn body_gate_delivers_once_per_activation() {
    let mut gate = session::skill_context::BodyGate::new();
    assert!(!gate.deliver(true, "act", false), "no message, nothing spent");
    assert!(gate.deliver(true, "act", true), "first delivery");
    assert!(!gate.deliver(true, "act", true), "already spent");
    gate.reset();
    assert!(!gate.deliver(false, "explore", true), "subagents never");
    assert!(!gate.deliver(true, "workflow", true), "workflow never");
    assert!(gate.deliver(true, "act", true), "a new activation delivers again");
}

#[test]
fn truncated_body_keeps_the_longest_fitting_prefix() {
    let body: String = (0..5usize).map(|i| format!("L{i}-{}", "x".repeat(10))).collect::<Vec<_>>().join("\n");
    // The first four lines fit the budget, the fifth does not.
    let fits = [true, true, true, true, true, false];
    let out = session::skill_context::truncated_body(&body, "/skills/big/SKILL.md", &fits);
    assert!(out.starts_with("L0-") && out.contains("L3-") && !out.contains("L4-"));
    assert!(out.ends_with(
        "\n[INCOMPLETE SKILL] truncated at ~20K tokens; 1 lines remain; read the rest with the read tool: read(path=\"/skills/big/SKILL.md\", offset=5)."
    ));
    // A single line over the budget: only the notice, pointing at line 1.
    let one = session::skill_context::truncated_body("huge", "/s/SKILL.md", &[true, false]);
    assert_eq!(
        one,
        "[INCOMPLETE SKILL] truncated at ~20K tokens; 1 lines remain; read the rest with the read tool: read(path=\"/s/SKILL.md\", offset=1)."
    );
    assert_eq!(session::skill_context::longest_fitting_prefix(&[true, true, false, false]), 1);
    assert_eq!(session::skill_context::longest_fitting_prefix(&[false, false]), 0);
}

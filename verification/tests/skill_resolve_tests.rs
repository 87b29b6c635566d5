use session::skill_resolve::{
    body_with_source, record_action, resolve_skill_names, KnownSkill, RecordAction, SKILL_TRIGGER,
};

fn skill(name: &str, body: &str) -> KnownSkill {
    KnownSkill {
        name: name.to_string(),
        body: body.to_string(),
        source: format!("/skills/{name}/SKILL.md"),
    }
}

fn names(v: &[&str]) -> Vec<String> {
    v.iter().map(|s| s.to_string()).collect()
}

#[test]
fn no_names_resolves_nothing() {
    let r = resolve_skill_names(&[], &[skill("review", "R")]);
    assert!(r.body.is_none());
    assert!(r.resolved.is_empty());
    assert!(r.unresolved.is_empty());
}

#[test]
fn resolves_single_skill_with_source_line() {
    let skills = vec![skill("review", "REVIEW BODY")];
    let r = resolve_skill_names(&names(&["review"]), &skills);
    assert!(r.unresolved.is_empty());
    assert_eq!(r.resolved, vec!["review".to_string()]);
    assert_eq!(
        r.body.as_deref(),
        Some("> Source: /skills/review/SKILL.md\n\nREVIEW BODY")
    );
}

#[test]
fn unresolved_skill_reported_and_skill_untouched() {
    let r = resolve_skill_names(&names(&["bogus"]), &[]);
    assert_eq!(r.unresolved, vec!["bogus".to_string()]);
    assert!(r.body.is_none(), "no resolved skill -> untouched");
}

#[test]
fn multiple_skills_joined() {
    let skills = vec![skill("review", "R"), skill("submit", "S")];
    let r = resolve_skill_names(&names(&["review", "submit"]), &skills);
    assert!(r.unresolved.is_empty());
    assert_eq!(
        r.body.as_deref(),
        Some("> Source: /skills/review/SKILL.md\n\nR\n\n> Source: /skills/submit/SKILL.md\n\nS")
    );
}

#[test]
fn mixed_resolved_and_unresolved() {
    let skills = vec![skill("review", "R")];
    let r = resolve_skill_names(&names(&["review", "bogus"]), &skills);
    assert_eq!(r.unresolved, vec!["bogus".to_string()]);
    assert_eq!(r.resolved, vec!["review".to_string()]);
    assert_eq!(r.body.as_deref(), Some("> Source: /skills/review/SKILL.md\n\nR"));
}

#[test]
fn dedupes_repeated_skill_name() {
    let skills = vec![skill("review", "R")];
    let r = resolve_skill_names(&names(&["review", "review"]), &skills);
    assert!(r.unresolved.is_empty());
    assert_eq!(r.body.as_deref(), Some("> Source: /skills/review/SKILL.md\n\nR"));
}

#[test]
fn repeated_unresolved_name_reported_once() {
    let r = resolve_skill_names(&names(&["bogus", "x", "bogus"]), &[]);
    assert_eq!(r.unresolved, vec!["bogus".to_string(), "x".to_string()]);
}

#[test]
fn first_skill_of_a_name_wins() {
    let skills = vec![skill("review", "FIRST"), skill("review", "SECOND")];
    let r = resolve_skill_names(&names(&["review"]), &skills);
    assert_eq!(r.body.as_deref(), Some("> Source: /skills/review/SKILL.md\n\nFIRST"));
}

#[test]
fn body_with_source_shape() {
    assert_eq!(body_with_source(&skill("a", "BODY")), "> Source: /skills/a/SKILL.md\n\nBODY");
}

#[test]
fn pure_skill_prompt_records_trigger() {
    assert_eq!(record_action(true, false, true), RecordAction::Trigger);
    assert_eq!(SKILL_TRIGGER, "The active skill is now in effect. Begin executing it now.");
}

#[test]
fn empty_prompt_without_resolution_records_nothing() {
    assert_eq!(record_action(true, false, false), RecordAction::Nothing);
}

#[test]
fn text_or_images_record_message() {
    assert_eq!(record_action(false, false, true), RecordAction::Message);
    assert_eq!(record_action(true, true, false), RecordAction::Message);
    assert_eq!(record_action(false, true, true), RecordAction::Message);
}

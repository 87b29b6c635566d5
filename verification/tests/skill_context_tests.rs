use session::skill_context::{
    full_body_marker, full_body_marker_block, reminder_text, source_path_from_body,
    source_paths_from_body,
};

#[test]
fn source_path_from_body_variants() {
    let body = "> Source: /skills/review/SKILL.md\n\nbody";
    assert_eq!(source_path_from_body(body), Some("/skills/review/SKILL.md"));
    assert_eq!(source_path_from_body("no prefix"), None);
    assert_eq!(source_path_from_body("> Source: \n\nb"), None);
}

#[test]
fn full_body_marker_and_block_are_canonical() {
    assert_eq!(full_body_marker("/a/SKILL.md"), "[skill loaded] /a/SKILL.md");
    assert_eq!(
        full_body_marker_block(&["/b/SKILL.md", "/a/SKILL.md", "/b/SKILL.md"]),
        "[skill loaded] /a/SKILL.md\n[skill loaded] /b/SKILL.md"
    );
}

#[test]
fn source_paths_from_body_variants() {
    let compound = "> Source: /s/alpha/SKILL.md\n\nA\n\n> Source: /s/beta/SKILL.md\n\nB";
    assert_eq!(
        source_paths_from_body(compound),
        vec!["/s/alpha/SKILL.md", "/s/beta/SKILL.md"]
    );
    assert_eq!(
        source_paths_from_body("> Source: /s/a/SKILL.md\n\nkeep\n> Source: mid"),
        vec!["/s/a/SKILL.md"]
    );
}

#[test]
fn source_paths_keep_spaces_and_dedup() {
    let body = "> Source: /my skills/a b/SKILL.md  \n\nx\n\n> Source: /my skills/a b/SKILL.md\n\ny";
    assert_eq!(source_paths_from_body(body), vec!["/my skills/a b/SKILL.md"]);
}

#[test]
fn marker_block_order_is_independent_of_input_order() {
    let a = full_body_marker_block(&["/b", "/a", "/c"]);
    let b = full_body_marker_block(&["/c", "/b", "/a", "/a"]);
    assert_eq!(a, b);
    assert_eq!(a, "[skill loaded] /a\n[skill loaded] /b\n[skill loaded] /c");
    assert_eq!(full_body_marker_block(&[]), "");
}

#[test]
fn reminder_text_sections() {
    assert_eq!(reminder_text(&[], None, None), "", "neither section -> empty");
    let catalog = vec![
        ("alpha".to_string(), "A skill".to_string()),
        ("plain".to_string(), String::new()),
    ];
    let both = reminder_text(&catalog, Some("/skills/x/SKILL.md"), None);
    let head = "[skills]\nEnabled skills live under";
    assert!(both.starts_with(head) && both.contains("- alpha: A skill\n- plain\n"), "{both}");
    assert!(both.contains("read its SKILL.md file"), "guidance line: {both}");
    let active = "\n\n[active skill]\nAn active skill is in effect: /skills/x/SKILL.md";
    assert!(both.contains(active), "sections joined by a blank line: {both}");
    assert!(both.contains("as a `[skill loaded]` message"), "{both}");
    assert!(both.contains("read that file, then follow it"), "{both}");
    let catalog_only = reminder_text(&catalog, None, Some("/home/u/.opencoder/skills"));
    assert!(catalog_only.contains("[skills]") && !catalog_only.contains("[active skill]"));
    assert!(catalog_only.contains("live under /home/u/.opencoder/skills:"));
    let active_only = reminder_text(&[], Some("/p"), None);
    assert!(active_only.starts_with("[active skill]\n"), "{active_only}");
}

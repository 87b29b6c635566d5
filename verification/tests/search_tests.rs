use session::search::{rel_path, Collector, MAX_MATCHES, OUTPUT_BYTES};

#[test]
fn matching_long_lines_stop_at_the_collector_byte_budget() {
    let mut collector = Collector::new(MAX_MATCHES);
    collector.set_rel("large.txt".into());
    let text = format!("{}\n", "needle中文".repeat(10000));
    let more = collector.matched(1, text.as_bytes());
    assert!(!more);
    assert!(collector.is_truncated());
    assert!(collector.results().iter().map(String::len).sum::<usize>() <= OUTPUT_BYTES);
    assert_eq!(collector.results().len(), 1);
    // Nothing more is taken once the budget is spent.
    assert!(!collector.matched(2, b"needle"));
    assert_eq!(collector.results().len(), 1);
}

#[test]
fn rows_carry_path_line_and_text_without_line_end() {
    let mut c = Collector::new(MAX_MATCHES);
    c.set_rel("src/main.rs".into());
    assert!(c.matched(1, b"fn main() {\r\n"));
    assert_eq!(c.results()[0], "src/main.rs:1: fn main() {");
    assert_eq!(c.answer(), "src/main.rs:1: fn main() {");
}

#[test]
fn match_cap_is_reported() {
    let mut c = Collector::new(2);
    c.set_rel("f".into());
    assert!(c.matched(1, b"a"));
    assert!(!c.matched(2, b"b"));
    assert_eq!(c.answer(), "f:1: a\nf:2: b\n(truncated at 1000 matches)");
}

#[test]
fn no_rows_reads_as_no_matches() {
    let c = Collector::new(MAX_MATCHES);
    assert_eq!(c.answer(), "no matches");
}

#[test]
fn search_finds_matching_content() {
    let mut c = Collector::new(MAX_MATCHES);
    c.set_rel("main.rs".into());
    c.matched(2, b"    println!(\"hello world\");\n");
    assert!(c.answer().contains("main.rs:2:"));
}

#[test]
fn invalid_utf8_is_replaced() {
    let mut c = Collector::new(MAX_MATCHES);
    c.set_rel("b".into());
    c.matched(1, &[0x66, 0xff, 0x6f]);
    assert_eq!(c.results()[0], "b:1: f\u{fffd}o");
}

#[test]
fn result_paths_are_relative_to_the_root() {
    assert_eq!(rel_path("/w", "/w/src/a.rs"), "src/a.rs");
    assert_eq!(rel_path("/w", "/elsewhere/a.rs"), "/elsewhere/a.rs");
}

#[test]
fn directories_are_entered_once() {
    let mut v = session::search::VisitedDirs::new();
    assert!(v.first_visit(1, 10));
    assert!(v.first_visit(1, 11));
    assert!(!v.first_visit(1, 10), "same physical directory through another link");
    assert!(v.first_visit(2, 10), "same inode on another device is another directory");
}

#[test]
fn empty_pattern_is_refused() {
    assert_eq!(session::search::pattern_refusal(""), Some("search requires a non-empty 'pattern'"));
    assert_eq!(session::search::pattern_refusal(" "), None);
}

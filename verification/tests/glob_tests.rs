use session::glob::{is_doublestar_terminal, is_literal, is_pruned, literal_root, GlobTool};
use std::path::PathBuf;

#[test]
fn literal_root_stops_at_first_glob_component() {
    let base = "/work";
    assert_eq!(PathBuf::from(literal_root("/work/src/**/*.rs", base)), PathBuf::from("/work/src"));
    assert_eq!(PathBuf::from(literal_root("/work/a/b/c.rs", base)), PathBuf::from("/work/a/b/c.rs"));
    assert_eq!(PathBuf::from(literal_root("/work/*.rs", base)), PathBuf::from("/work"));
    assert_eq!(PathBuf::from(literal_root("*.rs", base)), PathBuf::from("/work"));
}

#[test]
fn is_doublestar_terminal_detects_trailing_recursive() {
    assert!(is_doublestar_terminal("/w/**"));
    assert!(is_doublestar_terminal("/w/sub/**"));
    assert!(!is_doublestar_terminal("/w/**/*.rs"));
    assert!(!is_doublestar_terminal("/w/*.rs"));
    assert!(is_doublestar_terminal("/w/sub/**/"));
}

#[test]
fn is_literal_detects_wildcards() {
    assert!(is_literal("/work/a.rs"));
    assert!(is_literal("/work/sub/b.rs"));
    assert!(!is_literal("/work/*.rs"));
    assert!(!is_literal("/work/**/*.rs"));
    assert!(!is_literal("/work/[abc].rs"));
    assert!(!is_literal("/work/a?b"));
}

#[test]
fn relative_literal_prefix_is_kept() {
    assert_eq!(literal_root("src/**/*.rs", "/base"), "src");
}

#[test]
fn pruned_directories() {
    assert!(is_pruned("node_modules"));
    assert!(is_pruned(".git"));
    assert!(!is_pruned("src"));
    assert_eq!(GlobTool {}.name(), "glob");
}

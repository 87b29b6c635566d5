use session::read::{expand_tabs, finish_read, ReadPage};

#[test]
fn expand_leading_tab() {
    assert_eq!(expand_tabs("\tcode"), "        code");
}

#[test]
fn expand_mid_line_tab_advances_to_next_stop() {
    assert_eq!(expand_tabs("ab\tcd"), "ab      cd");
}

#[test]
fn expand_consecutive_tabs() {
    assert_eq!(expand_tabs("\t\tend"), "                end");
}

#[test]
fn no_tab_returns_unchanged() {
    assert_eq!(expand_tabs("plain text"), "plain text");
}

#[test]
fn tab_at_eighth_column_adds_eight_spaces() {
    assert_eq!(expand_tabs("12345678\tx"), "12345678        x");
}

#[test]
fn empty_string_unchanged() {
    assert_eq!(expand_tabs(""), "");
}

fn metadata(out: &str, key: &str) -> Option<String> {
    for line in out.lines().rev() {
        if line == "--- metadata ---" {
            break;
        }
        if let Some((k, v)) = line.split_once(": ") {
            if k.trim() == key {
                return Some(v.trim().to_string());
            }
        }
    }
    None
}

/// Page through `lines` the way the tool does, with a budget check that
/// refuses any trial longer than `max_chars`.
fn page(lines: &[&str], offset: Option<u64>, limit: Option<u64>, max_chars: usize) -> String {
    let lines: Vec<String> = lines.iter().map(|s| s.to_string()).collect();
    let (start, end) = ReadPage::window(lines.len(), offset, limit);
    let mut p = ReadPage::new(&lines, start, end);
    while let Some(trial) = p.trial(&lines) {
        let over = trial.chars().count() > max_chars;
        p.offer(&lines, trial, over);
    }
    p.finish(lines.len())
}

#[test]
fn test_default_limit_200() {
    let owned: Vec<String> = (0..500).map(|i| format!("line {i}")).collect();
    let lines: Vec<&str> = owned.iter().map(|s| s.as_str()).collect();
    let out = page(&lines, None, None, usize::MAX);
    assert_eq!(metadata(&out, "total_lines").as_deref(), Some("500"));
    assert_eq!(metadata(&out, "lines_read").as_deref(), Some("200"));
    assert!(!out.contains("[INCOMPLETE READ]"));
}

#[test]
fn test_max_limit_1000() {
    let owned: Vec<String> = (0..2000).map(|i| format!("line {i}")).collect();
    let lines: Vec<&str> = owned.iter().map(|s| s.as_str()).collect();
    let out = page(&lines, None, Some(5000), usize::MAX);
    assert_eq!(metadata(&out, "lines_read").as_deref(), Some("1000"));
}

#[test]
fn test_offset_pagination() {
    let owned: Vec<String> = (0..300).map(|i| format!("line {i}")).collect();
    let lines: Vec<&str> = owned.iter().map(|s| s.as_str()).collect();
    let out = page(&lines, Some(201), None, usize::MAX);
    assert_eq!(metadata(&out, "offset").as_deref(), Some("201"));
    let first_line = out.lines().next().unwrap();
    assert!(first_line.starts_with("  201:"), "{first_line}");
    assert!(!out.contains("[INCOMPLETE READ]"));
}

#[test]
fn test_oversized_first_line_skipped_no_loop() {
    let big = "x".repeat(25_000);
    let lines = vec![big.as_str(), "small 0", "small 1"];
    let out = page(&lines, Some(1), None, 20_000);
    assert_eq!(metadata(&out, "offset").as_deref(), Some("1"));
    assert_eq!(metadata(&out, "lines_read").as_deref(), Some("1"), "{out}");
    let notice = out.lines().find(|l| l.starts_with("[INCOMPLETE READ]")).expect("notice");
    assert!(notice.contains("exceeded the token limit and was skipped"), "{notice}");
    assert!(notice.contains("offset=2"), "{notice}");
    assert!(!notice.contains("offset=1"), "{notice}");
}

#[test]
fn test_oversized_line_mid_read_keeps_wording() {
    let big = "y".repeat(25_000);
    let lines = vec!["small first line", big.as_str(), "tail 0"];
    let out = page(&lines, Some(1), None, 20_000);
    assert_eq!(metadata(&out, "lines_read").as_deref(), Some("1"), "{out}");
    let notice = out.lines().find(|l| l.starts_with("[INCOMPLETE READ]")).expect("notice");
    assert!(notice.contains("output truncated at token limit"), "{notice}");
    assert!(notice.contains("offset=2"), "{notice}");
}

#[test]
fn test_offset_remaining_content_no_notice() {
    let owned: Vec<String> = (0..500).map(|i| format!("line {i}")).collect();
    let lines: Vec<&str> = owned.iter().map(|s| s.as_str()).collect();
    let out = page(&lines, Some(51), Some(100), usize::MAX);
    assert_eq!(metadata(&out, "offset").as_deref(), Some("51"));
    assert_eq!(metadata(&out, "lines_read").as_deref(), Some("100"));
    assert!(!out.contains("[INCOMPLETE READ]"));
}

#[test]
fn test_metadata_no_more() {
    let owned: Vec<String> = (0..10).map(|i| format!("line {i}")).collect();
    let lines: Vec<&str> = owned.iter().map(|s| s.as_str()).collect();
    let out = page(&lines, None, None, usize::MAX);
    assert_eq!(metadata(&out, "lines_read").as_deref(), Some("10"));
    assert_eq!(metadata(&out, "total_lines").as_deref(), Some("10"));
}

#[test]
fn empty_file_reads_as_empty() {
    assert_eq!(
        finish_read(String::new(), 0, 0, 0, 0),
        "(empty)\n\n--- metadata ---\ntotal_lines: 0\noffset: 1\nlines_read: 0\n"
    );
}

#[test]
fn lines_are_numbered_in_five_columns_with_tabs_expanded() {
    let out = page(&["a\tb"], None, None, usize::MAX);
    assert!(out.starts_with("    1: a       b\n"), "{out}");
}

#[test]
fn window_clamps_offset_and_limit() {
    assert_eq!(ReadPage::window(10, Some(0), None), (0, 10));
    assert_eq!(ReadPage::window(10, Some(50), None), (10, 10));
    assert_eq!(ReadPage::window(3000, Some(2), Some(5000)), (1, 1001));
}

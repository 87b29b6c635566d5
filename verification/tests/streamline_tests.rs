use session::streamline::{streamline, OutputStreamlineConfig};

fn cfg() -> OutputStreamlineConfig {
    OutputStreamlineConfig::default()
}

fn off() -> OutputStreamlineConfig {
    OutputStreamlineConfig {
        enabled: false,
        ..Default::default()
    }
}

#[test]
fn clean_text_is_unchanged() {
    let t = "Hello world.\nSecond line.\n";
    assert_eq!(streamline(t, &cfg()), t);
}

#[test]
fn disabled_is_verbatim() {
    let t = "a   \n\n\n\nb   \n";
    assert_eq!(streamline(t, &off()), t);
}

#[test]
fn empty_is_empty() {
    assert_eq!(streamline("", &cfg()), "");
}

#[test]
fn trims_trailing_whitespace_per_prose_line() {
    let t = "keep\t  \n   \ntrim too   \n";
    let got = streamline(t, &cfg());
    assert_eq!(got, "keep\n\ntrim too\n");
}

#[test]
fn collapses_blank_runs_to_one() {
    let t = "a\n\n\n\n\nb\n";
    assert_eq!(streamline(t, &cfg()), "a\n\nb\n");
}

#[test]
fn trims_outer_blank_lines() {
    let t = "\n\n\nhello\n\nworld\n\n\n";
    assert_eq!(streamline(t, &cfg()), "hello\n\nworld\n");
}

#[test]
fn preserves_leading_indentation() {
    let t = "  - item\n    - nested\n";
    assert_eq!(streamline(t, &cfg()), t);
}

#[test]
fn code_fence_preserved_verbatim() {
    let t = "intro\n```rust\nfn main() {   \n\n\n    let x = 1;   \n}\n```\noutro\n";
    assert_eq!(streamline(t, &cfg()), t);
}

#[test]
fn tildo_fence_preserved_verbatim() {
    let t = "txt\n~~~\n  spaced   \n\n~~~\nend\n";
    assert_eq!(streamline(t, &cfg()), t);
}

#[test]
fn prose_around_fence_is_normalized() {
    let t = "prose a   \n\n\n\n```rust\nx   \n```\n\n\n\nprose b   \n";
    let got = streamline(t, &cfg());
    assert_eq!(got, "prose a\n\n```rust\nx   \n```\n\nprose b\n");
}

#[test]
fn collapse_inline_ws_optin_preserves_indent() {
    let on = OutputStreamlineConfig {
        collapse_inline_ws: true,
        ..Default::default()
    };
    assert_eq!(streamline("    hello    world\t\there", &on), "    hello world here");
}

#[test]
fn collapse_inline_ws_off_by_default() {
    assert_eq!(streamline("a    b\t\tc", &cfg()), "a    b\t\tc");
}

#[test]
fn fence_info_string_kept() {
    let t = "```python\nprint('x')   \n```\n";
    assert_eq!(streamline(t, &cfg()), t);
}

#[test]
fn no_trailing_newline_handled() {
    let t = "line one\n\n\n\nline two";
    assert_eq!(streamline(t, &cfg()), "line one\n\nline two");
}

#[test]
fn streamlining_twice_changes_nothing_more() {
    let t = "\n\nprose   \n\n\n\n```\nx  \n\n\n```\n\n\nend  \n\n";
    let once = streamline(t, &cfg());
    assert_eq!(streamline(&once, &cfg()), once);
}

#[test]
fn outer_trim_off_keeps_leading_blank_lines() {
    let c = OutputStreamlineConfig {
        trim_outer: false,
        ..Default::default()
    };
    assert_eq!(streamline("\n\n\na\n", &c), "\na\n");
}

#[test]
fn each_rule_is_a_no_op_on_its_own_output() {
    let all = OutputStreamlineConfig { collapse_inline_ws: true, ..cfg() };
    let texts = [
        "\n\n  Title  \n\n\n\nbody   with\t\truns  \n```\n  code  \n\n\n```\n\n\ntail \n\n",
        "a\n  ",
        "```\nunclosed\n\n",
    ];
    for t in texts {
        for c in [cfg(), all] {
            let once = streamline(t, &c);
            assert_eq!(streamline(&once, &c), once, "{t:?}");
        }
    }
    let once = streamline(texts[0], &all);
    assert_eq!(once, "  Title\n\nbody with runs\n```\n  code  \n\n\n```\n\ntail\n");
}

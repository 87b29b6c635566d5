use session::bash::{
    backgrounded_message, captured_output, completion, merge_streams, script_with_tools_path,
    BashTool, BASH_TIMEOUT_DISPLAY_SECS, BASH_TIMEOUT_MARKER, BASH_TIMEOUT_SECS,
};

#[test]
fn bash_normal_completion() {
    assert_eq!(completion(0, "hello\n".to_string()), ("hello\n".to_string(), false));
}

#[test]
fn bash_failure_appends_exit_code() {
    assert_eq!(completion(3, "oops".to_string()), ("oops\n[exit code: 3]".to_string(), true));
    assert_eq!(completion(-1, String::new()), ("(no output)\n[exit code: -1]".to_string(), true));
    assert_eq!(completion(0, String::new()), ("(no output)".to_string(), false));
}

#[test]
fn streams_are_merged_with_a_stderr_marker() {
    assert_eq!(merge_streams("out", "err"), "out\n[stderr]\nerr");
    assert_eq!(merge_streams("", "err"), "[stderr]\nerr");
    assert_eq!(merge_streams("out", ""), "out");
    assert_eq!(merge_streams("", ""), "");
    assert_eq!(captured_output(b"a", &[0xff]), "a\n[stderr]\n\u{fffd}");
}

#[test]
fn tools_path_is_exported_unless_unsafe() {
    assert_eq!(script_with_tools_path("ls", Some("/a:/b")), "export PATH=\"/a:/b\":$PATH\nls");
    assert_eq!(script_with_tools_path("ls", Some("/a\"b")), "ls");
    assert_eq!(script_with_tools_path("ls", Some("$HOME")), "ls");
    assert_eq!(script_with_tools_path("ls", Some("")), "ls");
    assert_eq!(script_with_tools_path("ls", None), "ls");
}

#[test]
fn bash_timeout_message_uses_display_constant() {
    let m = backgrounded_message(BASH_TIMEOUT_DISPLAY_SECS, 77, "partial");
    assert!(m.starts_with(BASH_TIMEOUT_MARKER));
    assert_eq!(
        m,
        "[bash-timeout: command timed out after 120s \u{2014} moved to background]\npid: 77\noutput: /tmp/opencoder_bg_77.output\n\npartial"
    );
    assert!(BASH_TIMEOUT_DISPLAY_SECS < BASH_TIMEOUT_SECS);
}

#[test]
fn blank_commands_are_refused() {
    assert!(BashTool::is_blank("  \n\t"));
    assert!(!BashTool::is_blank(" ls "));
    assert_eq!(BashTool {}.name(), "bash");
}

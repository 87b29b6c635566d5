use session::timeout::{resolve, resolve_with_legacy_floor, try_resolve, ResolvedTimeout, LEGACY_PROD_MIN_TIMEOUT_SECS};

const DEFAULT_TIMEOUT: u64 = 130;
const DEFAULT_DISPLAY: u64 = 120;

/// These cases run with a legacy floor of one second, as a test build does.
fn resolved(command: &str) -> ResolvedTimeout {
    resolve_with_legacy_floor(command, DEFAULT_TIMEOUT, DEFAULT_DISPLAY, 1)
}

#[test]
fn legacy_prefix_is_stripped_and_uses_compatible_test_floor() {
    assert_eq!(LEGACY_PROD_MIN_TIMEOUT_SECS, 120);
    assert_eq!(
        resolved("timeout 2; sleep 5"),
        ResolvedTimeout {
            command: " sleep 5".to_string(),
            timeout_secs: 2,
            display_secs: 2,
        }
    );
    assert_eq!(resolved("timeout 7;").command, "");
}

#[test]
fn real_timeout_is_clamped_and_command_is_retained() {
    assert_eq!(resolved("timeout 10 cargo test").timeout_secs, 30);
    assert_eq!(resolved("echo begin; timeout 300 task").timeout_secs, 300);
    assert_eq!(resolved("timeout 900 task").timeout_secs, 600);
    assert_eq!(resolved("timeout 45 task").command, "timeout 45 task");
}

#[test]
fn largest_command_position_hint_wins() {
    assert_eq!(resolved("timeout 45 a; timeout 240 b").timeout_secs, 240);
    assert_eq!(resolved("sleep 30; sleep 90").timeout_secs, 210);
}

#[test]
fn sleep_clamps_x_then_adds_the_full_padding() {
    assert_eq!(resolved("sleep 0").timeout_secs, 150);
    assert_eq!(resolved("sleep 500").timeout_secs, 620);
    assert_eq!(resolved("sleep 600").timeout_secs, 720);
    assert_eq!(resolved("sleep 700").timeout_secs, 720);
}

#[test]
fn explicit_timeout_wins_over_sleep() {
    assert_eq!(resolved("sleep 500; timeout 45 command").timeout_secs, 45);
}

#[test]
fn quotes_comments_and_arguments_do_not_extend_timeout() {
    for command in [
        "echo 'sleep 500'",
        "echo \"timeout 500\"",
        "echo sleep 500",
        "echo ok # timeout 500",
    ] {
        assert_eq!(resolved(command).timeout_secs, DEFAULT_TIMEOUT, "{command}");
    }
}

#[test]
fn grouped_commands_terminate_the_scan() {
    assert_eq!(resolved("(echo hi 2>&1) | head").timeout_secs, DEFAULT_TIMEOUT);
    assert_eq!(resolved("{ sleep 40; }").timeout_secs, 160);
}

#[test]
fn invalid_or_non_integer_hints_are_ignored() {
    for command in ["timeout command", "timeout 5m command", "sleep 0.2", "sleep 5s"] {
        assert_eq!(resolved(command).timeout_secs, DEFAULT_TIMEOUT, "{command}");
    }
}

#[test]
fn huge_values_saturate_then_cap() {
    assert_eq!(resolved("sleep 999999999999999999999999999").timeout_secs, 720);
}

#[test]
fn production_legacy_floor_is_120() {
    let r = resolve("timeout 2; sleep 5", DEFAULT_TIMEOUT, DEFAULT_DISPLAY);
    assert_eq!(r.timeout_secs, 120);
    assert_eq!(r.display_secs, 120);
    assert_eq!(r.command, " sleep 5");
    let r = resolve("timeout 900; x", DEFAULT_TIMEOUT, DEFAULT_DISPLAY);
    assert_eq!(r.timeout_secs, 600);
}

#[test]
fn defaults_keep_their_distinct_display_value() {
    let r = resolve("ls -la", DEFAULT_TIMEOUT, DEFAULT_DISPLAY);
    assert_eq!((r.timeout_secs, r.display_secs), (130, 120));
    assert_eq!(r.command, "ls -la");
}

#[test]
fn zero_legacy_value_is_not_a_prefix() {
    // `timeout 0;` is not the legacy prefix; it is a command-position hint.
    let r = resolved("timeout 0; ls");
    assert_eq!(r.command, "timeout 0; ls");
    assert_eq!(r.timeout_secs, 30);
}

#[test]
fn unquoted_form_feed_has_no_deadline() {
    assert!(try_resolve("echo\u{c}hi", 130, 120).is_none());
    assert!(try_resolve("echo '\u{c}'", 130, 120).is_some());
    assert!(try_resolve("timeout 5;\u{c}", 130, 120).is_some());
}

#[test]
fn escaped_and_quoted_words_still_scan() {
    assert_eq!(resolved("echo \"a \\\" b\"; sleep 40").timeout_secs, 160);
    assert_eq!(resolved("x\\ y; timeout 50 z").timeout_secs, 50);
    assert_eq!(resolved("ls\n# sleep 900\nsleep 35").timeout_secs, 155);
}

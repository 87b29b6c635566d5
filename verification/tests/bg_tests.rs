use session::bg::{
    begin_background_lifecycle, cleanup_all, kill_all, list, output_path, prune_completed_outputs,
    register, register_supervised, release_supervisor, reserve_supervisor,
    retain_completed_output, stop, unregister, BgLifecycle, BgState, COMPLETED_OUTPUT_TTL_MS,
    MAX_ACTIVE_HANDOFFS, MAX_RETAINED_OUTPUTS, STREAM_OUTPUT_LIMIT_BYTES,
};

#[test]
fn output_path_format() {
    let p = output_path(12345);
    assert_eq!(p.as_str(), "/tmp/opencoder_bg_12345.output");
}

#[test]
fn bg_state_push_buffers_when_no_file() {
    let mut st = BgState::new();
    assert!(st.push_stdout(b"hello"));
    assert!(st.push_stderr(b"world"));
    assert_eq!(&st.stdout_buf, b"hello");
    assert_eq!(&st.stderr_buf, b"world");
}

#[test]
fn capture_accepts_exact_limit_and_rejects_next_byte() {
    let mut stdout = BgState::new();
    assert!(stdout.push_stdout(&vec![b'x'; STREAM_OUTPUT_LIMIT_BYTES]));
    assert_eq!(stdout.stdout_buf.len(), STREAM_OUTPUT_LIMIT_BYTES);
    assert!(!stdout.push_stdout(b"x"));
    assert_eq!(stdout.stdout_buf.len(), STREAM_OUTPUT_LIMIT_BYTES);
    assert_eq!(
        stdout.output_limit_error(),
        Some("output_limit_exceeded: bash stdout exceeds 8388608 bytes")
    );

    let mut stderr = BgState::new();
    assert!(stderr.push_stderr(&vec![b'x'; STREAM_OUTPUT_LIMIT_BYTES]));
    assert!(!stderr.push_stderr(b"x"));
    assert_eq!(stderr.stderr_buf.len(), STREAM_OUTPUT_LIMIT_BYTES);
    assert_eq!(
        stderr.output_limit_error(),
        Some("output_limit_exceeded: bash stderr exceeds 8388608 bytes")
    );
}

#[test]
fn overflow_keeps_the_first_error() {
    let mut st = BgState::new();
    assert!(!st.push_stdout(&vec![b'x'; STREAM_OUTPUT_LIMIT_BYTES + 1]));
    assert!(!st.push_stderr(&vec![b'y'; STREAM_OUTPUT_LIMIT_BYTES + 1]));
    assert_eq!(
        st.output_limit_error(),
        Some("output_limit_exceeded: bash stdout exceeds 8388608 bytes")
    );
}

#[test]
fn register_unregister_roundtrip() {
    let mut st = BgLifecycle::new();
    register(&mut st, 4242, 4242, "test".to_string());
    assert!(list(&st).iter().any(|info| info.pid == 4242));
    assert_eq!(list(&st)[0].output_path, "/tmp/opencoder_bg_4242.output");
    unregister(&mut st, 4242);
    assert!(!list(&st).iter().any(|info| info.pid == 4242));
    unregister(&mut st, 4242);
    assert!(list(&st).is_empty());
}

#[test]
fn stop_takes_the_entry_once() {
    let mut st = BgLifecycle::new();
    register(&mut st, 7, 7, "s".to_string());
    let e = stop(&mut st, 7).expect("registered");
    assert_eq!(e.pgid, 7);
    assert!(!e.supervised);
    assert!(stop(&mut st, 7).is_none());
}

#[test]
fn kill_all_takes_every_entry() {
    let mut st = BgLifecycle::new();
    register(&mut st, 1, 1, "a".to_string());
    register_supervised(&mut st, 2, "b".to_string());
    let all = kill_all(&mut st);
    assert_eq!(all.len(), 2);
    assert!(all.iter().any(|(pid, e)| *pid == 2 && e.supervised));
    assert!(list(&st).is_empty());
}

#[test]
fn handoff_limit_rejects_past_the_cap() {
    let mut st = BgLifecycle::new();
    let mut ids = Vec::new();
    for i in 0..MAX_ACTIVE_HANDOFFS {
        ids.push(reserve_supervisor(&mut st, format!("/tmp/{i}.output"), MAX_ACTIVE_HANDOFFS).unwrap());
    }
    let err = reserve_supervisor(&mut st, "/tmp/x.output".to_string(), MAX_ACTIVE_HANDOFFS).unwrap_err();
    assert!(err.contains("32"), "{err}");
    release_supervisor(&mut st, ids[0]);
    assert!(reserve_supervisor(&mut st, "/tmp/y.output".to_string(), MAX_ACTIVE_HANDOFFS).is_ok());
}

#[test]
fn completed_output_retention_is_count_and_time_bounded() {
    let mut st = BgLifecycle::new();
    begin_background_lifecycle(&mut st);
    let now = 1_000u64;
    let mut removed = Vec::new();
    for index in 0..(MAX_RETAINED_OUTPUTS + 2) {
        removed.extend(retain_completed_output(&mut st, format!("/tmp/{index}.output"), now));
    }
    assert_eq!(st.retained_len(), MAX_RETAINED_OUTPUTS);
    assert_eq!(removed, vec!["/tmp/0.output".to_string(), "/tmp/1.output".to_string()]);
    let expired = prune_completed_outputs(&mut st, now + COMPLETED_OUTPUT_TTL_MS + 1);
    assert_eq!(expired.len(), MAX_RETAINED_OUTPUTS);
    assert_eq!(st.retained_len(), 0);
}

#[test]
fn cleanup_removes_each_path_once() {
    let mut st = BgLifecycle::new();
    begin_background_lifecycle(&mut st);
    register(&mut st, 9, 9, "s".to_string());
    let _ = retain_completed_output(&mut st, "/tmp/opencoder_bg_9.output".to_string(), 5);
    let plan = cleanup_all(&mut st);
    assert_eq!(plan.terminate.len(), 1);
    assert!(list(&st).is_empty());
    let count = plan.remove.iter().filter(|p| p.as_str() == "/tmp/opencoder_bg_9.output").count();
    assert_eq!(count, 1);
    // During shutdown a completed output is removed at once.
    let now_removed = retain_completed_output(&mut st, "/tmp/late.output".to_string(), 6);
    assert_eq!(now_removed, vec!["/tmp/late.output".to_string()]);
}

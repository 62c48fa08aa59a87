use claude_supervisor::errors::{SpawnError, SupervisorError};
use claude_supervisor::launcher::{
    launch_step, LaunchEvent, LaunchPhase, PipeFlags, SpawnedInfo, SpawnFailure,
};
use claude_supervisor::supervisor::Supervisor;

fn piped_info(pid: u32) -> SpawnedInfo {
    SpawnedInfo {
        pid,
        pipes: PipeFlags { stdin: true, stdout: true, stderr: true },
    }
}

fn detached_info(pid: u32) -> SpawnedInfo {
    SpawnedInfo {
        pid,
        pipes: PipeFlags { stdin: false, stdout: true, stderr: true },
    }
}

#[test]
fn successful_start_reports_pid_and_running() {
    let mut sup = Supervisor::new();
    assert!(!sup.status());
    sup.begin_start().unwrap();
    let msg = sup.finish_start(Ok(piped_info(4242))).unwrap();
    assert_eq!(msg, "started pid 4242");
    assert!(sup.status());
}

#[test]
fn failed_start_returns_error_and_stays_idle() {
    let mut sup = Supervisor::new();
    sup.begin_start().unwrap();
    let err = sup.finish_start(Err(SpawnError::NotFound)).unwrap_err();
    assert_eq!(err, SpawnError::NotFound);
    assert!(!sup.status());
    assert!(matches!(sup.stop(), Err(SupervisorError::NotRunning)));
}

#[test]
fn missing_executable_with_no_shell_fallback_leaves_idle() {
    let fail = |f: SpawnFailure, m: &str| LaunchEvent::SpawnFailed {
        failure: f,
        message: String::from(m),
    };
    let (p1, _) = launch_step(LaunchPhase::Direct, fail(SpawnFailure::NotFound, "absent"), 4);
    let (p2, _) = launch_step(p1, fail(SpawnFailure::NotFound, "no cmd"), 4);
    let (p3, _) = launch_step(p2, fail(SpawnFailure::NotFound, "no sh"), 4);
    let terminal = match p3 {
        LaunchPhase::Failed(e) => e,
        other => panic!("launch should have failed, got {:?}", other),
    };
    let mut sup = Supervisor::new();
    sup.begin_start().unwrap();
    assert!(sup.finish_start(Err(terminal)).is_err());
    assert!(!sup.status());
}

#[test]
fn start_while_running_is_refused_and_harmless() {
    let mut sup = Supervisor::new();
    sup.begin_start().unwrap();
    sup.finish_start(Ok(piped_info(7))).unwrap();
    sup.push_stdout_line(String::from("working"));
    let before = sup.get_output();
    let err = sup.begin_start().unwrap_err();
    assert!(matches!(err, SupervisorError::AlreadyRunning));
    assert_eq!(err.message(), "session already running");
    assert!(sup.status(), "the running session must be untouched");
    assert_eq!(sup.get_output(), before, "buffers must be unaltered");
}

#[test]
fn start_then_stop_returns_to_idle() {
    let mut sup = Supervisor::new();
    sup.begin_start().unwrap();
    sup.finish_start(Ok(piped_info(31))).unwrap();
    let req = sup.stop().unwrap();
    assert_eq!(req.pid, 31);
    assert!(!sup.status());
    // The slot is free again: a new session can start.
    sup.begin_start().unwrap();
    sup.finish_start(Ok(piped_info(32))).unwrap();
    assert!(sup.status());
}

#[test]
fn stop_while_idle_fails_without_side_effects() {
    let mut sup = Supervisor::new();
    sup.push_stdout_line(String::from("leftover"));
    let before = sup.get_output();
    match sup.stop() {
        Err(SupervisorError::NotRunning) => {}
        other => panic!("expected NotRunning, got {:?}", other),
    }
    assert_eq!(sup.get_output(), before);
    assert!(!sup.status());
}

#[test]
fn send_input_appends_newline_for_piped_session() {
    let mut sup = Supervisor::new();
    sup.begin_start().unwrap();
    sup.finish_start(Ok(piped_info(9))).unwrap();
    let req = sup.send_input(String::from("hello")).unwrap();
    assert_eq!(req.pid, 9);
    assert_eq!(req.line, "hello\n");
}

#[test]
fn send_input_to_visible_session_is_refused() {
    let mut sup = Supervisor::new();
    sup.begin_start().unwrap();
    sup.finish_start(Ok(detached_info(9))).unwrap();
    match sup.send_input(String::from("hello")) {
        Err(SupervisorError::VisibilityUnavailable) => {}
        other => panic!("expected VisibilityUnavailable, got {:?}", other),
    }
}

#[test]
fn send_input_while_idle_is_refused() {
    let sup = Supervisor::new();
    assert!(matches!(
        sup.send_input(String::from("hi")),
        Err(SupervisorError::NotRunning)
    ));
}

#[test]
fn output_snapshot_reflects_pushed_lines() {
    let mut sup = Supervisor::new();
    sup.begin_start().unwrap();
    sup.finish_start(Ok(piped_info(3))).unwrap();
    sup.push_stdout_line(String::from("1.0.63"));
    sup.push_stderr_line(String::from("warning: slow disk"));
    let (out, err) = sup.get_output();
    assert_eq!(out, vec![String::from("1.0.63")]);
    assert_eq!(err, vec![String::from("warning: slow disk")]);
}

#[test]
fn version_output_flows_from_stream_to_snapshot() {
    // The path a `--version` run takes: the pump decodes the stream into
    // lines and hands them to the supervisor; the caller polls the
    // snapshot after the process has exited on its own.
    let mut sup = Supervisor::new();
    sup.begin_start().unwrap();
    let msg = sup.finish_start(Ok(piped_info(640))).unwrap();
    assert_eq!(msg, "started pid 640");
    assert!(sup.status());
    let mut acc = claude_supervisor::buffer::LineAccumulator::new();
    for chunk in [&b"2.1"[..], &b".0\n"[..]] {
        for raw in acc.feed(chunk) {
            sup.push_stdout_line(String::from_utf8(raw).unwrap());
        }
    }
    let (out, err) = sup.get_output();
    assert_eq!(out, vec![String::from("2.1.0")]);
    assert!(err.is_empty());
}

#[test]
fn clear_output_empties_then_appends_from_scratch() {
    let mut sup = Supervisor::new();
    sup.push_stdout_line(String::from("old out"));
    sup.push_stderr_line(String::from("old err"));
    sup.clear_output();
    let (out, err) = sup.get_output();
    assert!(out.is_empty());
    assert!(err.is_empty());
    sup.push_stdout_line(String::from("new out"));
    let (out2, err2) = sup.get_output();
    assert_eq!(out2, vec![String::from("new out")]);
    assert!(err2.is_empty());
}

#[test]
fn output_persists_across_sessions_until_cleared() {
    let mut sup = Supervisor::new();
    sup.begin_start().unwrap();
    sup.finish_start(Ok(piped_info(1))).unwrap();
    sup.push_stdout_line(String::from("session one"));
    sup.stop().unwrap();
    sup.begin_start().unwrap();
    sup.finish_start(Ok(piped_info(2))).unwrap();
    let (out, _) = sup.get_output();
    assert_eq!(out, vec![String::from("session one")]);
}

#[test]
fn error_messages_are_descriptive() {
    assert_eq!(SpawnError::NotFound.message(), "executable not found");
    assert_eq!(
        SpawnError::LaunchFailed(String::from("os error 5")).message(),
        "failed to launch: os error 5"
    );
    assert_eq!(
        SpawnError::AllFallbacksExhausted.message(),
        "all launch fallbacks exhausted"
    );
    assert_eq!(SupervisorError::NotRunning.message(), "session not running");
    assert_eq!(
        SupervisorError::VisibilityUnavailable.message(),
        "cannot send input: session started in visible/detached mode"
    );
    assert_eq!(SupervisorError::StdinUnavailable.message(), "stdin not available");
    assert_eq!(
        SupervisorError::IoError(String::from("broken pipe")).message(),
        "io error: broken pipe"
    );
    assert_eq!(SupervisorError::LockFailure.message(), "lock poisoned");
}

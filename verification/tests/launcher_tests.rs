use claude_supervisor::cmdline::tokenize_commandline;
use claude_supervisor::discovery::{
    descendants_of, discover_worker_after_spawn, first_pid_in_text, is_worker_candidate,
    worker_candidates, ProcessEntry,
};
use claude_supervisor::errors::SpawnError;
use claude_supervisor::launcher::{
    classify_spawn_failure, launch_outcome, launch_step, phase_action, LaunchAction,
    LaunchEvent, LaunchPhase, LaunchSpec, PipeFlags, SpawnedInfo, SpawnFailure,
};
use claude_supervisor::shim::resolve_shim_text;

fn piped(pid: u32) -> SpawnedInfo {
    SpawnedInfo {
        pid,
        pipes: PipeFlags { stdin: true, stdout: true, stderr: true },
    }
}

fn unpiped(pid: u32) -> SpawnedInfo {
    SpawnedInfo {
        pid,
        pipes: PipeFlags { stdin: false, stdout: false, stderr: false },
    }
}

#[test]
fn direct_spawn_with_all_pipes_finishes() {
    let (phase, kill) = launch_step(LaunchPhase::Direct, LaunchEvent::Spawned(piped(42)), 8);
    assert_eq!(phase, LaunchPhase::Done(piped(42)));
    assert_eq!(kill, None);
    assert_eq!(launch_outcome(phase), Some(Ok(piped(42))));
}

#[test]
fn direct_spawn_without_pipes_enters_discovery() {
    let (phase, kill) = launch_step(LaunchPhase::Direct, LaunchEvent::Spawned(unpiped(42)), 8);
    assert_eq!(
        phase,
        LaunchPhase::Discover { original_pid: 42, polls_left: 8 }
    );
    assert_eq!(kill, None);
    assert_eq!(
        phase_action(&phase),
        LaunchAction::PollDescendants { root_pid: 42 }
    );
}

#[test]
fn not_found_and_bad_format_fall_back_to_shell() {
    for failure in [SpawnFailure::NotFound, SpawnFailure::BadFormat] {
        let ev = LaunchEvent::SpawnFailed {
            failure,
            message: String::from("no such file"),
        };
        let (phase, _) = launch_step(LaunchPhase::Direct, ev, 8);
        assert_eq!(phase, LaunchPhase::ShellPrimary);
    }
}

#[test]
fn other_direct_failure_is_terminal() {
    let ev = LaunchEvent::SpawnFailed {
        failure: SpawnFailure::Other,
        message: String::from("access denied"),
    };
    let (phase, _) = launch_step(LaunchPhase::Direct, ev, 8);
    assert_eq!(
        phase,
        LaunchPhase::Failed(SpawnError::LaunchFailed(String::from("access denied")))
    );
}

#[test]
fn discovery_counts_down_then_gives_up_to_shell() {
    let mut phase = LaunchPhase::Discover { original_pid: 9, polls_left: 2 };
    let (p1, k1) = launch_step(phase, LaunchEvent::NoCandidate, 8);
    assert_eq!(p1, LaunchPhase::Discover { original_pid: 9, polls_left: 1 });
    assert_eq!(k1, None);
    phase = p1;
    let (p2, _) = launch_step(phase, LaunchEvent::NoCandidate, 8);
    assert_eq!(p2, LaunchPhase::Discover { original_pid: 9, polls_left: 0 });
    let (p3, k3) = launch_step(p2, LaunchEvent::NoCandidate, 8);
    assert_eq!(p3, LaunchPhase::ShellPrimary);
    assert_eq!(k3, Some(9), "the orphaned wrapper must be terminated");
}

#[test]
fn discovered_candidate_wins_and_wrapper_dies() {
    let phase = LaunchPhase::Discover { original_pid: 9, polls_left: 5 };
    let (next, kill) = launch_step(phase, LaunchEvent::CandidateFound(piped(77)), 8);
    assert_eq!(next, LaunchPhase::Done(piped(77)));
    assert_eq!(kill, Some(9));
    match launch_outcome(next) {
        Some(Ok(info)) => {
            assert!(info.pipes.stdin && info.pipes.stdout && info.pipes.stderr);
        }
        other => panic!("expected a spawned worker, got {:?}", other),
    }
}

#[test]
fn shell_chain_ends_in_terminal_errors() {
    let fail = |f: SpawnFailure| LaunchEvent::SpawnFailed {
        failure: f,
        message: String::from("shell missing"),
    };
    let (p1, _) = launch_step(LaunchPhase::ShellPrimary, fail(SpawnFailure::Other), 8);
    assert_eq!(p1, LaunchPhase::ShellAlternate);
    let (p2, _) = launch_step(LaunchPhase::ShellAlternate, fail(SpawnFailure::NotFound), 8);
    assert_eq!(p2, LaunchPhase::Failed(SpawnError::NotFound));
    let (p3, _) = launch_step(LaunchPhase::ShellAlternate, fail(SpawnFailure::Other), 8);
    assert_eq!(p3, LaunchPhase::Failed(SpawnError::AllFallbacksExhausted));
}

#[test]
fn shell_spawn_succeeds_directly() {
    let (phase, _) = launch_step(LaunchPhase::ShellPrimary, LaunchEvent::Spawned(piped(5)), 8);
    assert_eq!(phase, LaunchPhase::Done(piped(5)));
}

#[test]
fn failure_classification_matches_os_reports() {
    assert_eq!(classify_spawn_failure(Some(193), false), SpawnFailure::BadFormat);
    assert_eq!(classify_spawn_failure(Some(2), true), SpawnFailure::NotFound);
    assert_eq!(classify_spawn_failure(None, true), SpawnFailure::NotFound);
    assert_eq!(classify_spawn_failure(Some(5), false), SpawnFailure::Other);
    assert_eq!(classify_spawn_failure(None, false), SpawnFailure::Other);
}

#[test]
fn launch_spec_defaults_are_conservative() {
    let spec = LaunchSpec::from_options(None, None, None, None, None);
    assert_eq!(spec.executable, None);
    assert!(spec.args.is_empty());
    assert!(spec.envs.is_empty());
    assert_eq!(spec.working_dir, None);
    assert!(!spec.visible);
    assert_eq!(spec.program_name(), "cli");
}

#[test]
fn launch_spec_keeps_explicit_executable() {
    let spec = LaunchSpec::from_options(
        Some(String::from("C:\\tools\\agent.exe")),
        Some(vec![String::from("--version")]),
        None,
        Some(String::from("/tmp")),
        Some(true),
    );
    assert_eq!(spec.program_name(), "C:\\tools\\agent.exe");
    assert!(spec.visible);
}

#[test]
fn shim_script_delegating_to_node_resolves_to_node() {
    let script = b"@ECHO off\r\nnode \"%~dp0cli.js\" %*\r\n";
    let resolved = resolve_shim_text(script, b"C:\\bin");
    assert_eq!(resolved, Some(b"node".to_vec()));
}

#[test]
fn shim_script_with_exe_reference_extracts_path() {
    let script = b"rem wrapper\r\n\"%~dp0app.exe\" %*\r\n";
    let resolved = resolve_shim_text(script, b"C:\\bin");
    assert_eq!(resolved, Some(b"C:\\bin\\app.exe".to_vec()));
}

#[test]
fn shim_script_comments_and_labels_are_skipped() {
    let script = b"rem talks about node here\n:label with app.exe\n";
    assert_eq!(resolve_shim_text(script, b"D:\\x"), None);
}

#[test]
fn shim_script_without_delegation_resolves_to_nothing() {
    let script = b"@echo hello\nset X=1\n";
    assert_eq!(resolve_shim_text(script, b"C:\\bin"), None);
}

#[test]
fn descendants_follow_parent_links_transitively() {
    let snap = vec![
        ProcessEntry { pid: 20, ppid: 10 },
        ProcessEntry { pid: 30, ppid: 20 },
        ProcessEntry { pid: 40, ppid: 999 },
        ProcessEntry { pid: 50, ppid: 30 },
    ];
    let mut desc = descendants_of(&snap, 10);
    desc.sort();
    assert_eq!(desc, vec![20, 30, 50]);
}

#[test]
fn descendants_of_leaf_is_empty() {
    let snap = vec![ProcessEntry { pid: 2, ppid: 1 }];
    assert!(descendants_of(&snap, 2).is_empty());
}

#[test]
fn descendants_ignore_cycles_not_connected_to_root() {
    let snap = vec![
        ProcessEntry { pid: 7, ppid: 8 },
        ProcessEntry { pid: 8, ppid: 7 },
        ProcessEntry { pid: 9, ppid: 1 },
    ];
    assert!(descendants_of(&snap, 1) == vec![9]);
}

#[test]
fn worker_candidates_look_like_executables() {
    assert!(is_worker_candidate(b"node"));
    assert!(is_worker_candidate(b"C:\\nvm\\node"));
    assert!(is_worker_candidate(b"C:\\Tools\\App.EXE"));
    assert!(is_worker_candidate(b"worker.exe"));
    assert!(!is_worker_candidate(b"python"));
    assert!(!is_worker_candidate(b"nodejs"));
}

#[test]
fn worker_candidates_filter_a_tokenized_command_line() {
    let tokens = tokenize_commandline(b"cmd /c \"C:\\nvm\\node.exe\" cli.js --flag");
    let cands = worker_candidates(&tokens);
    assert_eq!(cands, vec![b"C:\\nvm\\node.exe".to_vec()]);
    let none = worker_candidates(&tokenize_commandline(b"echo hello world"));
    assert!(none.is_empty());
}

#[test]
fn first_pid_in_listing_text_is_found() {
    let text = b"ProcessId\r\n\r\n  1234  \r\nnot a pid\r\n77\r\n";
    assert_eq!(first_pid_in_text(text), Some(1234));
    assert_eq!(first_pid_in_text(b"header only\r\n"), None);
    assert_eq!(first_pid_in_text(b"42"), Some(42));
}

#[test]
fn worker_discovery_prefers_enumerated_descendants() {
    let listing = b"ProcessId\r\n88\r\n";
    assert_eq!(discover_worker_after_spawn(&vec![55, 66], listing), Some(55));
    assert_eq!(discover_worker_after_spawn(&Vec::new(), listing), Some(88));
    assert_eq!(discover_worker_after_spawn(&Vec::new(), b"nothing"), None);
}

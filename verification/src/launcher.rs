//! The spawn orchestrator's decision machine.
//!
//! Spawning runs in stages: a direct spawn of the (shim-resolved)
//! executable with all three standard streams piped; if the child comes
//! back without its pipes, bounded polling for a spawnable worker among
//! its descendants; if the spawn fails with a not-found or bad-format
//! class of error, or discovery finds nothing, a system-shell invocation
//! of the reconstructed command line, with one alternate shell after the
//! primary.  The platform layer performs each attempt and reports what
//! happened as a [`LaunchEvent`]; every decision about what to try next,
//! which process to terminate, and which error to surface is taken here.

use vstd::prelude::*;
use crate::errors::SpawnError;

verus! {

/// What to launch: the requested executable (or the well-known default),
/// its arguments, environment overrides merged over the inherited
/// environment, an optional working directory, and whether a
/// visible/detached presentation was requested.  Immutable once handed to
/// the launcher.
#[derive(Debug, Clone, PartialEq, Eq)]
pub struct LaunchSpec {
    pub executable: Option<String>,
    pub args: Vec<String>,
    pub envs: Vec<(String, String)>,
    pub working_dir: Option<String>,
    pub visible: bool,
}

impl LaunchSpec {
    /// Builds a spec from the bridge's optional fields: absent arguments
    /// and environment mean none, an absent visibility flag means not
    /// visible, and the executable stays optional for name resolution.
    pub fn from_options(
        executable: Option<String>,
        args: Option<Vec<String>>,
        envs: Option<Vec<(String, String)>>,
        working_dir: Option<String>,
        visible: Option<bool>,
    ) -> (r: LaunchSpec)
        ensures
            r.executable == executable,
            args matches Some(a) ==> r.args == a,
            args is None ==> r.args@ == Seq::<String>::empty(),
            envs matches Some(e) ==> r.envs == e,
            envs is None ==> r.envs@ == Seq::<(String, String)>::empty(),
            r.working_dir == working_dir,
            visible matches Some(v) ==> r.visible == v,
            visible is None ==> !r.visible,
    {
        LaunchSpec {
            executable,
            args: match args {
                Some(a) => a,
                None => Vec::new(),
            },
            envs: match envs {
                Some(e) => e,
                None => Vec::new(),
            },
            working_dir,
            visible: match visible {
                Some(v) => v,
                None => false,
            },
        }
    }

    /// The program to run: the explicitly requested executable, or the
    /// well-known CLI name resolved from the lookup path.
    pub fn program_name(&self) -> (r: &str)
        ensures
            self.executable matches Some(e) ==> r@ == e@,
            self.executable is None ==> r@ == "cli"@,
    {
        match &self.executable {
            Some(e) => e.as_str(),
            None => "cli",
        }
    }
}

/// Which of a spawned child's three standard streams got a pipe.
#[derive(Clone, Copy, Debug, PartialEq, Eq, Structural)]
pub struct PipeFlags {
    pub stdin: bool,
    pub stdout: bool,
    pub stderr: bool,
}

impl PipeFlags {
    /// All three streams are piped.
    pub open spec fn complete(&self) -> bool {
        self.stdin && self.stdout && self.stderr
    }

    /// Whether all three streams are piped, decided in executable code.
    pub fn is_complete(&self) -> (r: bool)
        ensures
            r == self.complete(),
    {
        self.stdin && self.stdout && self.stderr
    }
}

/// Plain facts about a process the platform layer has spawned: its id and
/// which pipes were attached.
#[derive(Clone, Copy, Debug, PartialEq, Eq, Structural)]
pub struct SpawnedInfo {
    pub pid: u32,
    pub pipes: PipeFlags,
}

/// The class of a failed spawn attempt, read off the OS error.
#[derive(Clone, Copy, Debug, PartialEq, Eq, Structural)]
pub enum SpawnFailure {
    /// The executable was not found.
    NotFound,
    /// The file exists but is not a runnable executable image.
    BadFormat,
    /// Any other process-creation failure.
    Other,
}

/// Where the launch stands.
#[derive(Debug, Clone, PartialEq, Eq)]
pub enum LaunchPhase {
    /// About to attempt the direct spawn.
    Direct,
    /// The direct child lacks pipes; polling its descendants for a
    /// spawnable worker, with `polls_left` rounds remaining.
    Discover { original_pid: u32, polls_left: u32 },
    /// About to invoke the primary system shell.
    ShellPrimary,
    /// The primary shell failed to spawn; about to invoke the alternate.
    ShellAlternate,
    /// A process with its pipe set, ready to supervise.
    Done(SpawnedInfo),
    /// Every stage exhausted.
    Failed(SpawnError),
}

/// What the platform layer reports after performing the current phase's
/// attempt.
#[derive(Debug, Clone, PartialEq, Eq)]
pub enum LaunchEvent {
    /// A spawn attempt produced a child.
    Spawned(SpawnedInfo),
    /// A spawn attempt failed, with its class and reported reason.
    SpawnFailed { failure: SpawnFailure, message: String },
    /// One polling round found a candidate worker spawned with all three
    /// pipes attached.
    CandidateFound(SpawnedInfo),
    /// One polling round found no spawnable candidate.
    NoCandidate,
}

/// What the platform layer should do next.
#[derive(Debug, Clone, Copy, PartialEq, Eq, Structural)]
pub enum LaunchAction {
    /// Spawn the resolved executable directly, requesting all pipes.
    AttemptDirect,
    /// Enumerate descendants of `root_pid` once and try to spawn a
    /// candidate from their command lines.
    PollDescendants { root_pid: u32 },
    /// Invoke the primary system shell on the joined command line.
    AttemptShellPrimary,
    /// Invoke the alternate system shell on the joined command line.
    AttemptShellAlternate,
    /// The launch is over; read the outcome.
    Finished,
}

/// The phase is not terminal.
pub open spec fn phase_active(phase: LaunchPhase) -> bool {
    !(phase is Done) && !(phase is Failed)
}

/// The event a phase can be answered with: spawn outcomes for the spawn
/// phases, poll outcomes for discovery.  A candidate counts only when all
/// three of its pipes are attached; discovery rejects and reaps anything
/// less.
pub open spec fn event_fits(phase: LaunchPhase, ev: LaunchEvent) -> bool {
    match phase {
        LaunchPhase::Direct => ev is Spawned || ev is SpawnFailed,
        LaunchPhase::ShellPrimary => ev is Spawned || ev is SpawnFailed,
        LaunchPhase::ShellAlternate => ev is Spawned || ev is SpawnFailed,
        LaunchPhase::Discover { .. } => (ev matches LaunchEvent::CandidateFound(i)
            && i.pipes.complete()) || ev is NoCandidate,
        _ => false,
    }
}

/// The next phase and the pid of a wrapper process to terminate and reap,
/// if the step orphans one.
pub open spec fn step_spec(phase: LaunchPhase, ev: LaunchEvent, poll_budget: u32) -> (
    LaunchPhase,
    Option<u32>,
) {
    match phase {
        LaunchPhase::Direct => match ev {
            LaunchEvent::Spawned(i) => if i.pipes.complete() {
                (LaunchPhase::Done(i), None)
            } else {
                (
                    LaunchPhase::Discover { original_pid: i.pid, polls_left: poll_budget },
                    None,
                )
            },
            LaunchEvent::SpawnFailed { failure, message } => if failure is NotFound || failure
                is BadFormat {
                (LaunchPhase::ShellPrimary, None)
            } else {
                (LaunchPhase::Failed(SpawnError::LaunchFailed(message)), None)
            },
            _ => (phase, None),
        },
        LaunchPhase::Discover { original_pid, polls_left } => match ev {
            LaunchEvent::CandidateFound(i) => (LaunchPhase::Done(i), Some(original_pid)),
            LaunchEvent::NoCandidate => if polls_left > 0 {
                (
                    LaunchPhase::Discover {
                        original_pid,
                        polls_left: (polls_left - 1) as u32,
                    },
                    None,
                )
            } else {
                (LaunchPhase::ShellPrimary, Some(original_pid))
            },
            _ => (phase, None),
        },
        LaunchPhase::ShellPrimary => match ev {
            LaunchEvent::Spawned(i) => (LaunchPhase::Done(i), None),
            LaunchEvent::SpawnFailed { .. } => (LaunchPhase::ShellAlternate, None),
            _ => (phase, None),
        },
        LaunchPhase::ShellAlternate => match ev {
            LaunchEvent::Spawned(i) => (LaunchPhase::Done(i), None),
            LaunchEvent::SpawnFailed { failure, .. } => if failure is NotFound {
                (LaunchPhase::Failed(SpawnError::NotFound), None)
            } else {
                (LaunchPhase::Failed(SpawnError::AllFallbacksExhausted), None)
            },
            _ => (phase, None),
        },
        _ => (phase, None),
    }
}

/// Advances the launch by one attempt's outcome.  Returns the next phase
/// and, when the step abandons the originally spawned wrapper, that
/// wrapper's pid, which the platform layer must terminate and reap
/// (best-effort).
pub fn launch_step(phase: LaunchPhase, ev: LaunchEvent, poll_budget: u32) -> (r: (
    LaunchPhase,
    Option<u32>,
))
    requires
        phase_active(phase),
        event_fits(phase, ev),
    ensures
        r == step_spec(phase, ev, poll_budget),
{
    match phase {
        LaunchPhase::Direct => match ev {
            LaunchEvent::Spawned(i) => if i.pipes.is_complete() {
                (LaunchPhase::Done(i), None)
            } else {
                (
                    LaunchPhase::Discover { original_pid: i.pid, polls_left: poll_budget },
                    None,
                )
            },
            LaunchEvent::SpawnFailed { failure, message } => match failure {
                SpawnFailure::NotFound | SpawnFailure::BadFormat => (
                    LaunchPhase::ShellPrimary,
                    None,
                ),
                SpawnFailure::Other => (
                    LaunchPhase::Failed(SpawnError::LaunchFailed(message)),
                    None,
                ),
            },
            _ => (LaunchPhase::Direct, None),
        },
        LaunchPhase::Discover { original_pid, polls_left } => match ev {
            LaunchEvent::CandidateFound(i) => (LaunchPhase::Done(i), Some(original_pid)),
            _ => if polls_left > 0 {
                (
                    LaunchPhase::Discover { original_pid, polls_left: polls_left - 1 },
                    None,
                )
            } else {
                (LaunchPhase::ShellPrimary, Some(original_pid))
            },
        },
        LaunchPhase::ShellPrimary => match ev {
            LaunchEvent::Spawned(i) => (LaunchPhase::Done(i), None),
            _ => (LaunchPhase::ShellAlternate, None),
        },
        LaunchPhase::ShellAlternate => match ev {
            LaunchEvent::Spawned(i) => (LaunchPhase::Done(i), None),
            LaunchEvent::SpawnFailed { failure, message: _ } => match failure {
                SpawnFailure::NotFound => (LaunchPhase::Failed(SpawnError::NotFound), None),
                _ => (LaunchPhase::Failed(SpawnError::AllFallbacksExhausted), None),
            },
            _ => (LaunchPhase::ShellAlternate, None),
        },
        _ => (phase, None),
    }
}

/// The action a phase calls for.
pub open spec fn action_spec(phase: LaunchPhase) -> LaunchAction {
    match phase {
        LaunchPhase::Direct => LaunchAction::AttemptDirect,
        LaunchPhase::Discover { original_pid, .. } => LaunchAction::PollDescendants {
            root_pid: original_pid,
        },
        LaunchPhase::ShellPrimary => LaunchAction::AttemptShellPrimary,
        LaunchPhase::ShellAlternate => LaunchAction::AttemptShellAlternate,
        _ => LaunchAction::Finished,
    }
}

/// Tells the platform layer what to do in the current phase.
pub fn phase_action(phase: &LaunchPhase) -> (a: LaunchAction)
    ensures
        a == action_spec(*phase),
{
    match phase {
        LaunchPhase::Direct => LaunchAction::AttemptDirect,
        LaunchPhase::Discover { original_pid, .. } => LaunchAction::PollDescendants {
            root_pid: *original_pid,
        },
        LaunchPhase::ShellPrimary => LaunchAction::AttemptShellPrimary,
        LaunchPhase::ShellAlternate => LaunchAction::AttemptShellAlternate,
        LaunchPhase::Done(_) => LaunchAction::Finished,
        LaunchPhase::Failed(_) => LaunchAction::Finished,
    }
}

/// Reads the outcome out of a terminal phase: the spawned process on
/// success, the terminal error on failure, nothing while the launch is
/// still under way.
pub fn launch_outcome(phase: LaunchPhase) -> (r: Option<Result<SpawnedInfo, SpawnError>>)
    ensures
        phase matches LaunchPhase::Done(i) ==> r == Some(Ok::<SpawnedInfo, SpawnError>(i)),
        phase matches LaunchPhase::Failed(e) ==> r == Some(Err::<SpawnedInfo, SpawnError>(e)),
        phase_active(phase) ==> r is None,
{
    match phase {
        LaunchPhase::Done(i) => Some(Ok(i)),
        LaunchPhase::Failed(e) => Some(Err(e)),
        _ => None,
    }
}

/// Classifies a failed spawn attempt from what the OS reported: a raw
/// error code equal to the bad-executable-format code is a bad format,
/// a not-found error kind is not-found, anything else is other.
pub fn classify_spawn_failure(raw_os_code: Option<i32>, not_found: bool) -> (r: SpawnFailure)
    ensures
        raw_os_code == Some(193int as i32) ==> r is BadFormat,
        raw_os_code != Some(193int as i32) && not_found ==> r is NotFound,
        raw_os_code != Some(193int as i32) && !not_found ==> r is Other,
{
    match raw_os_code {
        Some(code) => {
            if code == 193 {
                SpawnFailure::BadFormat
            } else if not_found {
                SpawnFailure::NotFound
            } else {
                SpawnFailure::Other
            }
        },
        None => {
            if not_found {
                SpawnFailure::NotFound
            } else {
                SpawnFailure::Other
            }
        },
    }
}

/// When the requested executable exists on no launch path, the fallback
/// chain runs to its end: the direct failure moves the launch to the
/// primary shell, a primary-shell failure to the alternate shell, and an
/// alternate-shell failure to a terminal error — never to a spawned
/// process.
pub proof fn lemma_missing_executable_exhausts_fallbacks(
    m1: String,
    f2: SpawnFailure,
    m2: String,
    f3: SpawnFailure,
    m3: String,
    budget: u32,
)
    ensures
        ({
            let e1 = LaunchEvent::SpawnFailed { failure: SpawnFailure::NotFound, message: m1 };
            let p1 = step_spec(LaunchPhase::Direct, e1, budget).0;
            let e2 = LaunchEvent::SpawnFailed { failure: f2, message: m2 };
            let p2 = step_spec(p1, e2, budget).0;
            let e3 = LaunchEvent::SpawnFailed { failure: f3, message: m3 };
            let p3 = step_spec(p2, e3, budget).0;
            &&& p1 == LaunchPhase::ShellPrimary
            &&& p2 == LaunchPhase::ShellAlternate
            &&& p3 matches LaunchPhase::Failed(_)
        }),
{
}

/// A worker accepted by discovery always carries all three pipes: the
/// step moves the launch to done with exactly that worker, and orders the
/// original wrapper terminated.
pub proof fn lemma_discovered_worker_has_pipes(
    original_pid: u32,
    polls_left: u32,
    i: SpawnedInfo,
    budget: u32,
)
    requires
        event_fits(
            LaunchPhase::Discover { original_pid, polls_left },
            LaunchEvent::CandidateFound(i),
        ),
    ensures
        step_spec(
            LaunchPhase::Discover { original_pid, polls_left },
            LaunchEvent::CandidateFound(i),
            budget,
        ) == (LaunchPhase::Done(i), Some(original_pid)),
        i.pipes.complete(),
{
}

/// Discovery polls a bounded number of rounds: each fruitless round
/// decrements the budget, and a fruitless round on an empty budget moves
/// the launch to the shell fallback, terminating the wrapper.
pub proof fn lemma_discovery_polling_bounded(original_pid: u32, polls_left: u32, budget: u32)
    ensures
        polls_left > 0 ==> step_spec(
            LaunchPhase::Discover { original_pid, polls_left },
            LaunchEvent::NoCandidate,
            budget,
        ) == (
            LaunchPhase::Discover { original_pid, polls_left: (polls_left - 1) as u32 },
            None::<u32>,
        ),
        polls_left == 0 ==> step_spec(
            LaunchPhase::Discover { original_pid, polls_left },
            LaunchEvent::NoCandidate,
            budget,
        ) == (LaunchPhase::ShellPrimary, Some(original_pid)),
{
}

} // verus!

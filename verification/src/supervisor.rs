//! The single-session supervisor: a facade over one supervised process.
//!
//! The supervisor owns the one active session slot and the two output
//! buffers, and guarantees at most one running session.  Its operations
//! are the decision half of the session lifecycle: `begin_start` reserves
//! the slot, `finish_start` records the launch outcome, `stop` releases
//! the slot and orders the child terminated, `send_input` gates writes on
//! the session's visibility.  The platform layer performs the process
//! calls these decisions ask for (spawning, killing, writing) and owns
//! the pump threads that feed lines back in through the push operations.

use vstd::prelude::*;
use vstd::string::*;
use crate::buffer::OutputBuffer;
use crate::errors::{SpawnError, SupervisorError};
use crate::launcher::SpawnedInfo;
use crate::text::{ascii_bytes_to_string, dec_rep, lemma_dec_rep_digits, u32_to_dec};

verus! {

/// The supervisor's lifecycle state.  `Starting` lives only between
/// `begin_start` and `finish_start` of one `start` operation; an error
/// while starting returns the state to `Idle`.
#[derive(Debug, Clone, Copy, PartialEq, Eq, Structural)]
pub enum SupState {
    /// No session; the slot is free.
    Idle,
    /// The slot is reserved while the launcher runs.
    Starting,
    /// A session is active.  `visible` records, once per launch, whether
    /// the child's stdin could not be attached (detached/visible mode).
    Running { pid: u32, visible: bool },
}

/// An order to terminate and reap the supervised process (best-effort:
/// a failure to kill does not reverse the state transition).
#[derive(Debug, Clone, Copy, PartialEq, Eq, Structural)]
pub struct StopRequest {
    pub pid: u32,
}

/// An order to write `line` to the child's stdin and flush.
#[derive(Debug, Clone, PartialEq, Eq)]
pub struct InputRequest {
    pub pid: u32,
    pub line: String,
}

/// `begin_start` reserves the slot only from `Idle`.
pub open spec fn begin_start_state(s: SupState) -> SupState {
    if s is Idle {
        SupState::Starting
    } else {
        s
    }
}

/// The state after `finish_start`: running on a successful launch, with
/// visibility recorded from the absence of a stdin pipe; idle again on a
/// failed one.
pub open spec fn finish_start_state(outcome: Result<SpawnedInfo, SpawnError>) -> SupState {
    match outcome {
        Ok(i) => SupState::Running { pid: i.pid, visible: !i.pipes.stdin },
        Err(_) => SupState::Idle,
    }
}

/// The state after `stop`: idle if a session was running, unchanged
/// otherwise.
pub open spec fn stop_state(s: SupState) -> SupState {
    if s is Running {
        SupState::Idle
    } else {
        s
    }
}

/// What `status` reports.
pub open spec fn status_spec(s: SupState) -> bool {
    s is Running
}

/// Whether input may be sent: the pid to write to when a non-visible
/// session runs, the refusal otherwise.
pub open spec fn input_gate(s: SupState) -> Result<u32, SupervisorError> {
    match s {
        SupState::Running { pid, visible } => if visible {
            Err(SupervisorError::VisibilityUnavailable)
        } else {
            Ok(pid)
        },
        _ => Err(SupervisorError::NotRunning),
    }
}

/// The start confirmation handed to the caller: `started pid ` and the
/// process id in decimal.
pub open spec fn start_confirmation(pid: u32) -> Seq<char> {
    "started pid "@ + dec_rep(pid as nat).map_values(|b: u8| b as char)
}

/// The supervisor: the single active-session slot and the session's two
/// output buffers.
pub struct Supervisor {
    state: SupState,
    output: OutputBuffer,
}

impl Supervisor {
    /// The lifecycle state.
    pub closed spec fn state_spec(&self) -> SupState {
        self.state
    }

    /// The stdout lines captured so far.
    pub closed spec fn stdout_view(&self) -> Seq<Seq<char>> {
        self.output.stdout_view()
    }

    /// The stderr lines captured so far.
    pub closed spec fn stderr_view(&self) -> Seq<Seq<char>> {
        self.output.stderr_view()
    }

    /// A fresh supervisor: idle, with empty buffers.
    pub fn new() -> (r: Self)
        ensures
            r.state_spec() is Idle,
            r.stdout_view() == Seq::<Seq<char>>::empty(),
            r.stderr_view() == Seq::<Seq<char>>::empty(),
    {
        Supervisor { state: SupState::Idle, output: OutputBuffer::new() }
    }

    /// Whether a session is running.
    pub fn status(&self) -> (r: bool)
        ensures
            r == status_spec(self.state_spec()),
    {
        match self.state {
            SupState::Running { .. } => true,
            _ => false,
        }
    }

    /// Reserves the session slot.  Refused — with no side effect of any
    /// kind — unless the supervisor is idle.
    pub fn begin_start(&mut self) -> (r: Result<(), SupervisorError>)
        ensures
            final(self).state_spec() == begin_start_state(old(self).state_spec()),
            final(self).stdout_view() == old(self).stdout_view(),
            final(self).stderr_view() == old(self).stderr_view(),
            old(self).state_spec() is Idle <==> r is Ok,
            !(old(self).state_spec() is Idle) ==> r == Err::<(), SupervisorError>(
                SupervisorError::AlreadyRunning,
            ) && *final(self) == *old(self),
    {
        match self.state {
            SupState::Idle => {
                self.state = SupState::Starting;
                Ok(())
            },
            _ => Err(SupervisorError::AlreadyRunning),
        }
    }

    /// Records the launcher's outcome for the reserved slot.  On success
    /// the session becomes running, visibility is set from the absence of
    /// the stdin pipe, and the caller receives the start confirmation
    /// with the process id; on failure the slot is released and the
    /// launch error handed back.  The buffers are untouched either way:
    /// they persist across sessions until explicitly cleared.
    pub fn finish_start(&mut self, outcome: Result<SpawnedInfo, SpawnError>) -> (r: Result<
        String,
        SpawnError,
    >)
        requires
            old(self).state_spec() is Starting,
        ensures
            final(self).state_spec() == finish_start_state(outcome),
            final(self).stdout_view() == old(self).stdout_view(),
            final(self).stderr_view() == old(self).stderr_view(),
            outcome matches Ok(i) ==> r matches Ok(msg) && msg@ == start_confirmation(i.pid),
            outcome matches Err(e) ==> r == Err::<String, SpawnError>(e),
    {
        match outcome {
            Ok(i) => {
                self.state = SupState::Running { pid: i.pid, visible: !i.pipes.stdin };
                let digits = u32_to_dec(i.pid);
                proof {
                    lemma_dec_rep_digits(i.pid as nat);
                }
                let rendered = ascii_bytes_to_string(digits);
                Ok(String::from_str("started pid ").concat(rendered.as_str()))
            },
            Err(e) => {
                self.state = SupState::Idle;
                Err(e)
            },
        }
    }

    /// Releases the slot and orders the child terminated and reaped.
    /// Valid only while a session runs; stopping an idle supervisor is an
    /// error and has no effect of any kind.
    pub fn stop(&mut self) -> (r: Result<StopRequest, SupervisorError>)
        ensures
            final(self).state_spec() == stop_state(old(self).state_spec()),
            final(self).stdout_view() == old(self).stdout_view(),
            final(self).stderr_view() == old(self).stderr_view(),
            old(self).state_spec() matches SupState::Running { pid, .. } ==> r matches Ok(s)
                && s.pid == pid,
            !(old(self).state_spec() is Running) ==> r == Err::<StopRequest, SupervisorError>(
                SupervisorError::NotRunning,
            ) && *final(self) == *old(self),
    {
        match self.state {
            SupState::Running { pid, .. } => {
                self.state = SupState::Idle;
                Ok(StopRequest { pid })
            },
            _ => Err(SupervisorError::NotRunning),
        }
    }

    /// Gates one line of input on the session's state and visibility.  A
    /// visible/detached session has no usable stdin, so the request is
    /// refused before any write is attempted; otherwise the caller
    /// receives the exact line to write: the text followed by a single
    /// newline.
    pub fn send_input(&self, text: String) -> (r: Result<InputRequest, SupervisorError>)
        ensures
            r matches Ok(req) ==> input_gate(self.state_spec()) == Ok::<u32, SupervisorError>(
                req.pid,
            ) && req.line@ == text@ + "\n"@,
            r matches Err(e) ==> input_gate(self.state_spec()) == Err::<u32, SupervisorError>(e),
    {
        match self.state {
            SupState::Running { pid, visible } => {
                if visible {
                    Err(SupervisorError::VisibilityUnavailable)
                } else {
                    Ok(InputRequest { pid, line: text.concat("\n") })
                }
            },
            _ => Err(SupervisorError::NotRunning),
        }
    }

    /// A snapshot of the captured stdout and stderr lines, in emission
    /// order, without disturbing the pumps.
    pub fn get_output(&self) -> (r: (Vec<String>, Vec<String>))
        ensures
            r.0.deep_view() == self.stdout_view(),
            r.1.deep_view() == self.stderr_view(),
    {
        self.output.snapshot()
    }

    /// Empties both buffers; captured lines then accumulate again from
    /// the empty state.
    pub fn clear_output(&mut self)
        ensures
            final(self).state_spec() == old(self).state_spec(),
            final(self).stdout_view() == Seq::<Seq<char>>::empty(),
            final(self).stderr_view() == Seq::<Seq<char>>::empty(),
    {
        self.output.clear();
    }

    /// Appends one captured stdout line.
    pub fn push_stdout_line(&mut self, line: String)
        ensures
            final(self).state_spec() == old(self).state_spec(),
            final(self).stdout_view() == old(self).stdout_view().push(line@),
            final(self).stderr_view() == old(self).stderr_view(),
    {
        self.output.push_stdout(line);
    }

    /// Appends one captured stderr line.
    pub fn push_stderr_line(&mut self, line: String)
        ensures
            final(self).state_spec() == old(self).state_spec(),
            final(self).stderr_view() == old(self).stderr_view().push(line@),
            final(self).stdout_view() == old(self).stdout_view(),
    {
        self.output.push_stderr(line);
    }
}

/// A failed launch leaves the supervisor idle: reserving the slot from
/// idle, then recording any launch error, ends where it began, with
/// status reporting no session.
pub proof fn lemma_failed_launch_leaves_idle(e: SpawnError)
    ensures
        begin_start_state(SupState::Idle) is Starting,
        finish_start_state(Err(e)) is Idle,
        !status_spec(finish_start_state(Err(e))),
{
}

/// When the requested executable exists nowhere and neither shell
/// fallback can spawn, the whole start operation fails and the supervisor
/// remains idle: the launch machine, fed the three failures, ends in a
/// terminal error, and recording that error releases the reserved slot.
pub proof fn lemma_missing_executable_start_fails(
    m1: String,
    f2: crate::launcher::SpawnFailure,
    m2: String,
    f3: crate::launcher::SpawnFailure,
    m3: String,
    budget: u32,
)
    ensures
        ({
            let e1 = crate::launcher::LaunchEvent::SpawnFailed {
                failure: crate::launcher::SpawnFailure::NotFound,
                message: m1,
            };
            let p1 = crate::launcher::step_spec(crate::launcher::LaunchPhase::Direct, e1, budget).0;
            let e2 = crate::launcher::LaunchEvent::SpawnFailed { failure: f2, message: m2 };
            let p2 = crate::launcher::step_spec(p1, e2, budget).0;
            let e3 = crate::launcher::LaunchEvent::SpawnFailed { failure: f3, message: m3 };
            let p3 = crate::launcher::step_spec(p2, e3, budget).0;
            &&& p3 matches crate::launcher::LaunchPhase::Failed(err) && finish_start_state(
                Err(err),
            ) is Idle
            &&& begin_start_state(SupState::Idle) is Starting
        }),
{
    crate::launcher::lemma_missing_executable_exhausts_fallbacks(m1, f2, m2, f3, m3, budget);
}

/// A start followed immediately by a stop returns the supervisor to
/// idle, whatever the launch outcome was and regardless of whether the
/// process has since exited on its own: the stop transition does not
/// depend on the child still being alive.
pub proof fn lemma_start_then_stop_idle(outcome: Result<SpawnedInfo, SpawnError>)
    ensures
        begin_start_state(SupState::Idle) is Starting,
        stop_state(finish_start_state(outcome)) is Idle,
{
}

/// Status reports a session exactly when the last start succeeded and no
/// stop has completed since: true right after a successful launch is
/// recorded, false right after a failed one, and false again once a stop
/// has run.
pub proof fn lemma_status_tracks_session(outcome: Result<SpawnedInfo, SpawnError>)
    ensures
        status_spec(finish_start_state(outcome)) == outcome is Ok,
        !status_spec(stop_state(finish_start_state(outcome))),
{
}

/// A session launched without a stdin pipe is visible/detached, and
/// sending input to it is always refused with the visibility error — the
/// gate never yields a pid to write to.
pub proof fn lemma_visible_launch_blocks_input(i: SpawnedInfo)
    requires
        !i.pipes.stdin,
    ensures
        finish_start_state(Ok(i)) matches SupState::Running { visible, .. } && visible,
        input_gate(finish_start_state(Ok(i))) == Err::<u32, SupervisorError>(
            SupervisorError::VisibilityUnavailable,
        ),
{
}

} // verus!

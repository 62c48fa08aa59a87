//! Error taxonomy of the launcher and the supervisor.

use vstd::prelude::*;
use vstd::string::*;

verus! {

/// A terminal failure of the launcher, surfaced only after every fallback
/// stage is exhausted.
#[derive(Debug, Clone, PartialEq, Eq)]
pub enum SpawnError {
    /// The executable was absent on every launch path.
    NotFound,
    /// Process creation itself failed for a reason other than not-found;
    /// the payload carries the reported reason.
    LaunchFailed(String),
    /// Every fallback stage was tried and none yielded a process.
    AllFallbacksExhausted,
}

/// A failure of a supervisor operation.
#[derive(Debug, Clone, PartialEq, Eq)]
pub enum SupervisorError {
    /// `start` was called while a session was already active.
    AlreadyRunning,
    /// `stop` or `send_input` was called while no session was active.
    NotRunning,
    /// `send_input` was called on a session launched in visible/detached
    /// mode, whose stdin is not connected to the supervisor.
    VisibilityUnavailable,
    /// The stdin handle was absent although the session was not visible.
    StdinUnavailable,
    /// A write to the child failed; the payload carries the reported reason.
    IoError(String),
    /// An exclusive-access primitive around a shared resource failed.
    LockFailure,
}

impl SpawnError {
    /// A human-readable diagnostic for the bridge layer.
    pub fn message(&self) -> (r: String)
        ensures
            self is NotFound ==> r@ == "executable not found"@,
            self matches SpawnError::LaunchFailed(m) ==> r@ == "failed to launch: "@ + m@,
            self is AllFallbacksExhausted ==> r@ == "all launch fallbacks exhausted"@,
    {
        match self {
            SpawnError::NotFound => String::from_str("executable not found"),
            SpawnError::LaunchFailed(m) => String::from_str("failed to launch: ").concat(
                m.as_str(),
            ),
            SpawnError::AllFallbacksExhausted => String::from_str(
                "all launch fallbacks exhausted",
            ),
        }
    }
}

impl SupervisorError {
    /// A human-readable diagnostic for the bridge layer.
    pub fn message(&self) -> (r: String)
        ensures
            self is AlreadyRunning ==> r@ == "session already running"@,
            self is NotRunning ==> r@ == "session not running"@,
            self is VisibilityUnavailable ==> r@
                == "cannot send input: session started in visible/detached mode"@,
            self is StdinUnavailable ==> r@ == "stdin not available"@,
            self matches SupervisorError::IoError(m) ==> r@ == "io error: "@ + m@,
            self is LockFailure ==> r@ == "lock poisoned"@,
    {
        match self {
            SupervisorError::AlreadyRunning => String::from_str("session already running"),
            SupervisorError::NotRunning => String::from_str("session not running"),
            SupervisorError::VisibilityUnavailable => String::from_str(
                "cannot send input: session started in visible/detached mode",
            ),
            SupervisorError::StdinUnavailable => String::from_str("stdin not available"),
            SupervisorError::IoError(m) => String::from_str("io error: ").concat(m.as_str()),
            SupervisorError::LockFailure => String::from_str("lock poisoned"),
        }
    }
}

} // verus!

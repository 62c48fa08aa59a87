//! Supervision of a single long-running, line-oriented child process.
//!
//! The crate models the logic of a process launcher and supervisor: a
//! multi-stage spawn strategy (direct launch, worker discovery, shell
//! fallback), a shim-script resolver, ordered output buffers fed by stream
//! pumps, a registry of discovered workers with monotonically increasing run
//! identifiers, and a single-slot supervisor state machine.  All decisions
//! are verified here; the operating-system calls themselves (spawning,
//! killing, reading pipes) are performed by a thin unverified driver that
//! feeds their outcomes back into these state machines as plain values.

pub mod buffer;
pub mod cmdline;
pub mod discovery;
pub mod errors;
pub mod launcher;
pub mod registry;
pub mod shim;
pub mod supervisor;
pub mod text;

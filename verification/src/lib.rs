//! Runs one command in a rootless Linux sandbox and limits it by the CPU
//! instructions it retires instead of by wall-clock time.
//!
//! This library holds what a run decides and computes; it makes no system call.
//! Where a decision hangs on what the system replies, it is a state machine: it
//! says what to do next, and is told what came of it.
//!
//! - [`cli`]: what the command line asks for.
//! - [`sandbox`]: the bubblewrap command line, and where the streams go.
//! - [`seccomp`]: the system-call filter.
//! - [`probe`]: whether a fresh procfs can be mounted.
//! - [`cgroup`]: per-run cgroups.
//! - [`limits`]: resource limits, and the descriptors that a child closes.
//! - [`perf`]: performance counters.
//! - [`launch`]: bringing a run up to its start.
//! - [`supervise`]: watching it, and killing it when it goes over its limits.
//! - [`report`]: its result, and the JSON line.
//! - [`sys`]: what is taken from the C library.
//! - [`json`]: what a JSON value is.
//! - [`text`], [`bytes`]: texts, and the bytes of numbers.

pub mod bytes;
pub mod cgroup;
pub mod cli;
pub mod json;
pub mod launch;
pub mod limits;
pub mod perf;
pub mod probe;
pub mod report;
pub mod sandbox;
pub mod seccomp;
pub mod supervise;
pub mod sys;
pub mod text;

pub use crate::launch::run;
pub use crate::limits::Limits;
pub use crate::report::{Counter, RunResult};
pub use crate::sandbox::{build_command, ProcMode, SandboxSpec};

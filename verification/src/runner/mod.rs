//! Managed runs: one local supervisor, one state machine, one owner of the
//! process groups it starts.
//!
//! Process-group cleanup is guaranteed on macOS and Linux, and nothing more. A
//! command that leaves its group (`setsid`, double fork, an external daemon) is
//! reported as an escape, not silently claimed as covered.

pub mod client;
pub mod launch;
pub mod logs;
pub mod requests;
pub mod run;
pub mod scheduler;
pub mod supervisor;
pub mod worker;

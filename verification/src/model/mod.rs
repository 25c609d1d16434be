//! The data that the library reasons about.

pub mod boot;
pub mod docker;
pub mod exit;
pub mod port;
pub mod process;
pub mod project;
pub mod run;
pub mod runtime;
pub mod session;
pub mod snapshot;

pub use boot::{BootEpoch, BootId};
pub use port::{IpAddr, ListeningPort, Protocol};
pub use process::{ProcessIdentity, ProcessInfo};
pub use project::Project;
pub use runtime::{Category, RuntimeItem, RuntimeState};
pub use snapshot::RuntimeSnapshot;

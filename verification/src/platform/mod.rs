//! What differs between operating systems, as far as it is decided and not
//! merely read.

pub mod boot;
pub mod cgroup;
pub mod linux;
pub mod pgroup;

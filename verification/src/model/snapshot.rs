//! One scan of the machine.

use crate::model::docker::DockerSnapshot;
use crate::model::process::ProcessInfo;
use crate::model::runtime::RuntimeItem;
use crate::model::session::SessionInfo;
use vstd::prelude::*;

verus! {

/// Immutable view of runtime state produced by the scanners.
#[derive(Debug)]
pub struct RuntimeSnapshot {
    pub processes: Vec<ProcessInfo>,
    pub logical_items: Vec<RuntimeItem>,
    pub docker: DockerSnapshot,
    pub sessions: Vec<SessionInfo>,
    pub total_memory_bytes: u64,
    pub used_memory_bytes: u64,
    /// Bumped on every scan so that redundant redraws can be skipped.
    pub version: u64,
}

impl Default for RuntimeSnapshot {
    fn default() -> (r: Self)
        ensures
            r.processes@.len() == 0,
            r.logical_items@.len() == 0,
            !r.docker.ok,
            r.docker.note@ == "not running"@,
            r.docker.disk_bytes == 0,
            r.docker.reclaimable_bytes == 0,
            r.docker.resources@.len() == 0,
            r.sessions@.len() == 0,
            r.total_memory_bytes == 0,
            r.used_memory_bytes == 0,
            r.version == 0,
    {
        RuntimeSnapshot {
            processes: Vec::new(),
            logical_items: Vec::new(),
            docker: DockerSnapshot::default(),
            sessions: Vec::new(),
            total_memory_bytes: 0,
            used_memory_bytes: 0,
            version: 0,
        }
    }
}

} // verus!

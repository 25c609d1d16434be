//! Processes as the scanner sees them.

use crate::model::boot::BootId;
use crate::path;
use crate::path::file_name;
use crate::text;
use crate::text::{join_of, lower_of};
use vstd::prelude::*;

verus! {

/// One observed process.
///
/// Platform backends expose different optional fields; missing values are
/// `None` and must be tolerated by all consumers. CPU load is measured and
/// shown by the program around the library and decides nothing here.
#[derive(Debug, Clone)]
pub struct ProcessInfo {
    pub pid: u32,
    pub parent_pid: Option<u32>,
    pub name: String,
    pub command: Vec<String>,
    pub executable: Option<String>,
    pub cwd: Option<String>,
    pub memory_bytes: u64,
    /// Seconds since Unix epoch. `0` means unknown.
    pub start_time: u64,
    pub tty: Option<String>,
}

impl ProcessInfo {
    /// Best short name: `name`, else first argv, else executable basename.
    pub open spec fn best_name(self) -> Seq<char> {
        if self.name@.len() > 0 {
            self.name@
        } else if self.command@.len() > 0 && self.command@[0]@.len() > 0 {
            self.command@[0]@
        } else {
            match self.executable {
                Some(e) => match path::base_name(e@) {
                    Some(b) => b,
                    None => "?"@,
                },
                None => "?"@,
            }
        }
    }

    /// Lowercased `name + cmd + exe`.
    pub open spec fn haystack(self) -> Seq<char> {
        text::lower(self.name@) + " "@ + text::lower(
            text::joined(text::texts(self.command@), " "@),
        ) + " "@ + match self.executable {
            Some(e) => text::lower(e@),
            None => Seq::empty(),
        }
    }

    /// Best short name: `name`, else first argv, else executable basename.
    pub fn label(&self) -> (r: String)
        ensures
            r@ == self.best_name(),
    {
        if !self.name.as_str().is_empty() {
            return self.name.clone();
        }
        if self.command.len() > 0 && !self.command[0].as_str().is_empty() {
            return self.command[0].clone();
        }
        match &self.executable {
            Some(e) => match file_name(e.as_str()) {
                Some(b) => b,
                None => "?".to_owned(),
            },
            None => "?".to_owned(),
        }
    }

    /// Lowercased `name + cmd + exe` for substring matching.
    pub fn hay(&self) -> (r: String)
        ensures
            r@ == self.haystack(),
    {
        let exe: String = match &self.executable {
            Some(e) => lower_of(e.as_str()),
            None => String::new(),
        };
        lower_of(self.name.as_str()).concat(" ").concat(
            lower_of(join_of(&self.command, " ").as_str()).as_str(),
        ).concat(" ").concat(exe.as_str())
    }
}

/// Stable identity of one observed process, valid only when `start_time != 0`.
///
/// Never identify a process by `pid` alone: PIDs are reused. `boot_id` +
/// `pid` + `start_time` uniquely identify one process invocation.
#[derive(Debug, Clone, Copy, PartialEq, Eq, Hash, Structural)]
pub struct ProcessIdentity {
    pub boot_id: BootId,
    pub pid: u32,
    pub start_time: u64,
}

impl ProcessIdentity {
    /// The identity of a process, where its start time is known.
    pub open spec fn of(boot_id: BootId, process: ProcessInfo) -> Option<ProcessIdentity> {
        if process.start_time == 0 {
            None
        } else {
            Some(
                ProcessIdentity { boot_id, pid: process.pid, start_time: process.start_time },
            )
        }
    }

    /// Construct from a live process. Returns `None` when `start_time == 0`
    /// (identity unavailable → live-only attribution, never persisted).
    pub fn from_process(boot_id: &BootId, process: &ProcessInfo) -> (r: Option<Self>)
        ensures
            r == ProcessIdentity::of(*boot_id, *process),
    {
        if process.start_time == 0 {
            None
        } else {
            Some(
                ProcessIdentity {
                    boot_id: *boot_id,
                    pid: process.pid,
                    start_time: process.start_time,
                },
            )
        }
    }
}

/// Two observations share an identity exactly when boot, pid and start time
/// agree: a reused pid, or another boot, is another process.
pub proof fn identity_is_boot_pid_start(
    boot_a: BootId,
    a: ProcessInfo,
    boot_b: BootId,
    b: ProcessInfo,
)
    requires
        a.start_time != 0,
        b.start_time != 0,
    ensures
        ProcessIdentity::of(boot_a, a) == ProcessIdentity::of(boot_b, b) <==> boot_a == boot_b
            && a.pid == b.pid && a.start_time == b.start_time,
{
}

} // verus!

//! System-source detection for processes with no recorded agent ownership.
//!
//! `wyd why` answers "which agent session owns this process" from durable
//! provenance. When no session is recorded, the agent that started it is
//! gone — but the process still has a *system* origin. This module walks the
//! live ancestry and names it: systemd, launchd, cron, tmux, screen, ssh,
//! snap, flatpak, or an interactive shell.
//!
//! Best effort with explicit uncertainty: no subprocess spawning, only the
//! process snapshot and, for the systemd unit name, the cgroup texts that the
//! program around the library has read.

use crate::actions::process;
use crate::classify::pids;
use crate::classify::pids::PidIndex;
use crate::model::process::ProcessInfo;
use crate::text;
use crate::text::{
    dec_of, lines_of, lower_of, same, split, text_ends, text_starts, Separator,
};
use vstd::prelude::*;

verus! {

/// The system-level source responsible for a process existing.
#[derive(Debug, Clone, PartialEq, Eq)]
pub enum SourceKind {
    /// Linux systemd (pid 1). `unit` is the innermost unit from cgroup, when
    /// readable.
    Systemd { unit: Option<String> },
    /// macOS launchd (pid 1).
    Launchd,
    /// cron / crond / anacron ancestor.
    Cron,
    /// tmux server ancestor.
    Tmux,
    /// GNU screen ancestor.
    Screen,
    /// sshd ancestor (remote login).
    Ssh,
    /// Snap package (executable under `/snap/`).
    Snap,
    /// Flatpak sandbox (executable under `/app/`).
    Flatpak,
    /// Interactive shell with a controlling terminal.
    InteractiveShell,
    /// No recognized source. `pid1` names pid 1 when it was reachable.
    Unknown { pid1: Option<String> },
}

/// The same as a model.
pub enum SourceModel {
    Systemd { unit: Option<Seq<char>> },
    Launchd,
    Cron,
    Tmux,
    Screen,
    Ssh,
    Snap,
    Flatpak,
    InteractiveShell,
    Unknown { pid1: Option<Seq<char>> },
}

impl View for SourceKind {
    type V = SourceModel;

    open spec fn view(&self) -> SourceModel {
        match self {
            SourceKind::Systemd { unit } => SourceModel::Systemd { unit: text::text_of(*unit) },
            SourceKind::Launchd => SourceModel::Launchd,
            SourceKind::Cron => SourceModel::Cron,
            SourceKind::Tmux => SourceModel::Tmux,
            SourceKind::Screen => SourceModel::Screen,
            SourceKind::Ssh => SourceModel::Ssh,
            SourceKind::Snap => SourceModel::Snap,
            SourceKind::Flatpak => SourceModel::Flatpak,
            SourceKind::InteractiveShell => SourceModel::InteractiveShell,
            SourceKind::Unknown { pid1 } => SourceModel::Unknown { pid1: text::text_of(*pid1) },
        }
    }
}

impl SourceModel {
    pub open spec fn label(self) -> Seq<char> {
        match self {
            SourceModel::Systemd { unit } => match unit {
                Some(u) => "systemd ("@ + u + ")"@,
                None => "systemd"@,
            },
            SourceModel::Launchd => "launchd"@,
            SourceModel::Cron => "cron"@,
            SourceModel::Tmux => "tmux"@,
            SourceModel::Screen => "screen"@,
            SourceModel::Ssh => "ssh"@,
            SourceModel::Snap => "snap"@,
            SourceModel::Flatpak => "flatpak"@,
            SourceModel::InteractiveShell => "interactive shell"@,
            SourceModel::Unknown { pid1 } => match pid1 {
                Some(s) => "unknown ("@ + s + ")"@,
                None => "unknown"@,
            },
        }
    }
}

impl SourceKind {
    pub fn label(&self) -> (r: String)
        ensures
            r@ == self@.label(),
    {
        match self {
            SourceKind::Systemd { unit } => match unit {
                Some(u) => "systemd (".to_owned().concat(u.as_str()).concat(")"),
                None => "systemd".to_owned(),
            },
            SourceKind::Launchd => "launchd".to_owned(),
            SourceKind::Cron => "cron".to_owned(),
            SourceKind::Tmux => "tmux".to_owned(),
            SourceKind::Screen => "screen".to_owned(),
            SourceKind::Ssh => "ssh".to_owned(),
            SourceKind::Snap => "snap".to_owned(),
            SourceKind::Flatpak => "flatpak".to_owned(),
            SourceKind::InteractiveShell => "interactive shell".to_owned(),
            SourceKind::Unknown { pid1 } => match pid1 {
                Some(s) => "unknown (".to_owned().concat(s.as_str()).concat(")"),
                None => "unknown".to_owned(),
            },
        }
    }
}

/// Ancestry chain plus the detected source for one target process.
///
/// `chain` is root-first: pid 1 (or the highest visible ancestor) at index 0,
/// the target's direct parent last. Empty when the target's parent is absent
/// from the snapshot (re-parented, or the parent already exited).
#[derive(Debug)]
pub struct SourceReport<'a> {
    pub chain: Vec<&'a ProcessInfo>,
    pub source: SourceKind,
}

/// A list of references as the list of what they refer to.
pub open spec fn listed(v: Seq<&ProcessInfo>) -> Seq<ProcessInfo> {
    Seq::new(v.len(), |i: int| *v[i])
}

pub open spec fn pids_of(ps: Seq<ProcessInfo>) -> Seq<u32> {
    Seq::new(ps.len(), |i: int| ps[i].pid)
}

// ---------------------------------------------------------------------------
// The ancestry
// ---------------------------------------------------------------------------

/// The processes from `cur` upwards, nearest first: up to and including pid
/// 1, as far as they are visible, and none twice.
pub open spec fn climb(ps: Seq<ProcessInfo>, cur: Option<u32>, seen: Seq<u32>) -> Seq<ProcessInfo>
    decreases process::left(pids_of(ps), seen),
    via climb_ends
{
    match cur {
        None => Seq::empty(),
        Some(pid) => if seen.contains(pid) {
            Seq::empty()
        } else {
            match pids::by_pid(ps, pid) {
                None => Seq::empty(),
                Some(p) => if pid == 1 {
                    seq![p]
                } else {
                    seq![p] + climb(ps, p.parent_pid, seen.push(pid))
                },
            }
        },
    }
}

#[via_fn]
proof fn climb_ends(ps: Seq<ProcessInfo>, cur: Option<u32>, seen: Seq<u32>) {
    if let Some(pid) = cur {
        if !seen.contains(pid) && pids::by_pid(ps, pid) is Some {
            step_shrinks(ps, pid, seen);
        }
    }
}

proof fn step_shrinks(ps: Seq<ProcessInfo>, pid: u32, seen: Seq<u32>)
    requires
        !seen.contains(pid),
        pids::by_pid(ps, pid) is Some,
    ensures
        process::left(pids_of(ps), seen.push(pid)) < process::left(pids_of(ps), seen),
{
    pids::last_index_range(ps, pid);
    let i = pids::last_index(ps, pid)->0;
    assert(pids_of(ps)[i] == pid);
    process::entering_shrinks(pids_of(ps), seen, pid);
}

/// The ancestry of a process, nearest first.
pub open spec fn ancestry(ps: Seq<ProcessInfo>, target: u32) -> Seq<ProcessInfo> {
    climb(ps, pids::parent_of(ps, target), Seq::empty())
}

/// Parent chain from the target's parent up to (and including) pid 1, nearest
/// first. Cycle-safe against malformed snapshots; stops where the parent is
/// no longer visible.
pub fn chain_up<'a>(target: u32, ps: &'a Vec<ProcessInfo>) -> (r: Vec<&'a ProcessInfo>)
    ensures
        listed(r@) == ancestry(ps@, target),
{
    let index: PidIndex = PidIndex::new(ps);
    let mut r: Vec<&'a ProcessInfo> = Vec::new();
    let mut seen: Vec<u32> = Vec::new();
    let mut cur: Option<u32> = index.parent(ps, target);
    assert(seen@ =~= Seq::<u32>::empty());
    assert(listed(r@) + climb(ps@, cur, seen@) =~= ancestry(ps@, target));
    loop
        invariant_except_break
            index.wf(ps@),
            listed(r@) + climb(ps@, cur, seen@) == ancestry(ps@, target),
        ensures
            listed(r@) == ancestry(ps@, target),
        decreases process::left(pids_of(ps@), seen@),
    {
        let ghost done = listed(r@);
        match cur {
            None => {
                assert(done + Seq::<ProcessInfo>::empty() =~= done);
                break;
            },
            Some(pid) => {
                if process::has_pid(&seen, pid) {
                    assert(done + Seq::<ProcessInfo>::empty() =~= done);
                    break;
                }
                match index.find(Ghost(ps@), pid) {
                    None => {
                        assert(done + Seq::<ProcessInfo>::empty() =~= done);
                        break;
                    },
                    Some(i) => {
                        let p: &'a ProcessInfo = &ps[i];
                        r.push(p);
                        assert(listed(r@) =~= done.push(*p));
                        if pid == 1 {
                            assert(done + seq![*p] =~= listed(r@));
                            break;
                        }
                        proof {
                            step_shrinks(ps@, pid, seen@);
                        }
                        let ghost rest = climb(ps@, p.parent_pid, seen@.push(pid));
                        assert(done + (seq![*p] + rest) =~= listed(r@) + rest);
                        seen.push(pid);
                        cur = p.parent_pid;
                    },
                }
            },
        }
    }
    r
}

/// The chain passes no process twice and ends at pid 1 at the latest, so a
/// malformed snapshot with a cycle of parents still has a chain.
pub proof fn chain_is_cycle_free(ps: Seq<ProcessInfo>, cur: Option<u32>, seen: Seq<u32>)
    ensures
        pids_of(climb(ps, cur, seen)).no_duplicates(),
        forall|i: int|
            0 <= i < climb(ps, cur, seen).len() ==> !seen.contains(
                (#[trigger] climb(ps, cur, seen)[i]).pid,
            ),
        forall|i: int|
            0 <= i < climb(ps, cur, seen).len() - 1 ==> (#[trigger] climb(ps, cur, seen)[i]).pid
                != 1,
    decreases process::left(pids_of(ps), seen),
{
    if let Some(pid) = cur {
        if !seen.contains(pid) && pids::by_pid(ps, pid) is Some {
            pids::last_index_range(ps, pid);
            let p = pids::by_pid(ps, pid)->0;
            let all = climb(ps, cur, seen);
            if pid != 1 {
                step_shrinks(ps, pid, seen);
                chain_is_cycle_free(ps, p.parent_pid, seen.push(pid));
                process::pushed(seen, pid);
                let rest = climb(ps, p.parent_pid, seen.push(pid));
                assert forall|i: int| 0 <= i < all.len() implies !seen.contains(
                    (#[trigger] all[i]).pid,
                ) by {
                    if i > 0 {
                        assert(all[i] == rest[i - 1]);
                        assert(!seen.push(pid).contains(rest[i - 1].pid));
                    }
                }
                assert forall|i: int, j: int|
                    0 <= i < pids_of(all).len() && 0 <= j < pids_of(all).len() && i
                        != j implies pids_of(all)[i] != pids_of(all)[j] by {
                    let a = if i < j {
                        i
                    } else {
                        j
                    };
                    let b = if i < j {
                        j
                    } else {
                        i
                    };
                    assert(all[b] == rest[b - 1]);
                    if a == 0 {
                        assert(!seen.push(pid).contains(rest[b - 1].pid));
                    } else {
                        assert(all[a] == rest[a - 1]);
                        assert(pids_of(rest)[a - 1] != pids_of(rest)[b - 1]);
                    }
                }
                assert forall|i: int| 0 <= i < all.len() - 1 implies (#[trigger] all[i]).pid
                    != 1 by {
                    if i > 0 {
                        assert(all[i] == rest[i - 1]);
                    }
                }
            }
        }
    }
}

// ---------------------------------------------------------------------------
// Markers
// ---------------------------------------------------------------------------

/// A sandbox the process itself runs in, from its executable path.
pub open spec fn sandbox_of(p: ProcessInfo) -> Option<SourceModel> {
    match p.executable {
        None => None,
        Some(e) => if text::starts_with(text::lower(e@), "/snap/"@) {
            Some(SourceModel::Snap)
        } else if text::starts_with(text::lower(e@), "/app/"@) {
            Some(SourceModel::Flatpak)
        } else {
            None
        },
    }
}

/// Snap and flatpak are properties of the process, not of what started it, so
/// they are checked on the target before the ancestor walk.
fn sandbox_marker(p: &ProcessInfo) -> (r: Option<SourceKind>)
    ensures
        opt_view(r) == sandbox_of(*p),
{
    match &p.executable {
        None => None,
        Some(e) => {
            let exe: String = lower_of(e.as_str());
            if text_starts(exe.as_str(), "/snap/") {
                Some(SourceKind::Snap)
            } else if text_starts(exe.as_str(), "/app/") {
                Some(SourceKind::Flatpak)
            } else {
                None
            }
        },
    }
}

pub open spec fn opt_view(o: Option<SourceKind>) -> Option<SourceModel> {
    match o {
        Some(k) => Some(k@),
        None => None,
    }
}

/// A recognized supervisor.
pub open spec fn supervisor_of(p: ProcessInfo) -> Option<SourceModel> {
    let name = text::lower(p.name@);
    match sandbox_of(p) {
        Some(m) => Some(m),
        None => if name == "sshd"@ {
            Some(SourceModel::Ssh)
        } else if name == "tmux"@ || text::starts_with(name, "tmux:"@) {
            Some(SourceModel::Tmux)
        } else if name == "screen"@ || text::starts_with(name, "screen-"@) {
            Some(SourceModel::Screen)
        } else if name == "cron"@ || name == "crond"@ || name == "anacron"@ {
            Some(SourceModel::Cron)
        } else {
            None
        },
    }
}

/// A recognized supervisor in the ancestry. Nearest (from the target) wins.
fn supervisor_marker(p: &ProcessInfo) -> (r: Option<SourceKind>)
    ensures
        opt_view(r) == supervisor_of(*p),
{
    let own: Option<SourceKind> = sandbox_marker(p);
    if own.is_some() {
        return own;
    }
    let lowered: String = lower_of(p.name.as_str());
    let name: &str = lowered.as_str();
    if same(name, "sshd") {
        Some(SourceKind::Ssh)
    } else if same(name, "tmux") || text_starts(name, "tmux:") {
        Some(SourceKind::Tmux)
    } else if same(name, "screen") || text_starts(name, "screen-") {
        Some(SourceKind::Screen)
    } else if same(name, "cron") || same(name, "crond") || same(name, "anacron") {
        Some(SourceKind::Cron)
    } else {
        None
    }
}

pub open spec fn is_shell_name(name: Seq<char>) -> bool {
    ||| name == "bash"@
    ||| name == "zsh"@
    ||| name == "sh"@
    ||| name == "dash"@
    ||| name == "fish"@
    ||| name == "ksh"@
    ||| name == "csh"@
    ||| name == "tcsh"@
    ||| name == "nu"@
    ||| name == "pwsh"@
    ||| name == "powershell"@
}

fn is_shell(name: &str) -> (r: bool)
    ensures
        r == is_shell_name(name@),
{
    same(name, "bash") || same(name, "zsh") || same(name, "sh") || same(name, "dash") || same(
        name,
        "fish",
    ) || same(name, "ksh") || same(name, "csh") || same(name, "tcsh") || same(name, "nu") || same(
        name,
        "pwsh",
    ) || same(name, "powershell")
}

/// An interactive shell: only a shell *with* a controlling terminal counts.
pub open spec fn shell_of(p: ProcessInfo) -> Option<SourceModel> {
    if is_shell_name(text::lower(p.name@)) && p.tty is Some {
        Some(SourceModel::InteractiveShell)
    } else {
        None
    }
}

fn shell_marker(p: &ProcessInfo) -> (r: Option<SourceKind>)
    ensures
        opt_view(r) == shell_of(*p),
{
    if is_shell(lower_of(p.name.as_str()).as_str()) && p.tty.is_some() {
        Some(SourceKind::InteractiveShell)
    } else {
        None
    }
}

/// What pid 1 says of the system.
pub open spec fn init_of(p: ProcessInfo) -> SourceModel {
    let name = text::lower(p.name@);
    if name == "systemd"@ {
        SourceModel::Systemd { unit: None }
    } else if name == "launchd"@ {
        SourceModel::Launchd
    } else {
        SourceModel::Unknown { pid1: Some(name) }
    }
}

fn pid1_of(p: &ProcessInfo) -> (r: SourceKind)
    ensures
        r@ == init_of(*p),
{
    let name: String = lower_of(p.name.as_str());
    if same(name.as_str(), "systemd") {
        SourceKind::Systemd { unit: None }
    } else if same(name.as_str(), "launchd") {
        SourceKind::Launchd
    } else {
        SourceKind::Unknown { pid1: Some(name) }
    }
}

/// The first supervisor of a list.
pub open spec fn first_supervisor(list: Seq<ProcessInfo>) -> Option<SourceModel>
    decreases list.len(),
{
    if list.len() == 0 {
        None
    } else {
        match supervisor_of(list[0]) {
            Some(m) => Some(m),
            None => first_supervisor(list.skip(1)),
        }
    }
}

/// The first interactive shell of a list.
pub open spec fn first_shell(list: Seq<ProcessInfo>) -> Option<SourceModel>
    decreases list.len(),
{
    if list.len() == 0 {
        None
    } else {
        match shell_of(list[0]) {
            Some(m) => Some(m),
            None => first_shell(list.skip(1)),
        }
    }
}

/// What the first pid 1 of a list says.
pub open spec fn first_init(list: Seq<ProcessInfo>) -> Option<SourceModel>
    decreases list.len(),
{
    if list.len() == 0 {
        None
    } else if list[0].pid == 1 {
        Some(init_of(list[0]))
    } else {
        first_init(list.skip(1))
    }
}

// ---------------------------------------------------------------------------
// Systemd units
// ---------------------------------------------------------------------------

/// The components of the paths in a cgroup file.
pub open spec fn cgroup_segments(lines: Seq<Seq<char>>) -> Seq<Seq<char>>
    decreases lines.len(),
{
    if lines.len() == 0 {
        Seq::empty()
    } else {
        cgroup_segments(lines.drop_last()) + text::nonempty(
            text::pieces(
                text::pieces(lines.last(), Separator::Char(':')).last(),
                Separator::Char('/'),
            ),
        )
    }
}

pub open spec fn is_leaf_unit(s: Seq<char>) -> bool {
    ||| text::ends_with(s, ".service"@)
    ||| text::ends_with(s, ".scope"@)
    ||| text::ends_with(s, ".socket"@)
    ||| text::ends_with(s, ".timer"@)
}

pub open spec fn last_leaf(segs: Seq<Seq<char>>) -> Option<Seq<char>>
    decreases segs.len(),
{
    if segs.len() == 0 {
        None
    } else if is_leaf_unit(segs.last()) {
        Some(segs.last())
    } else {
        last_leaf(segs.drop_last())
    }
}

pub open spec fn last_slice(segs: Seq<Seq<char>>) -> Option<Seq<char>>
    decreases segs.len(),
{
    if segs.len() == 0 {
        None
    } else if text::ends_with(segs.last(), ".slice"@) {
        Some(segs.last())
    } else {
        last_slice(segs.drop_last())
    }
}

/// The innermost unit that a cgroup file names: a leaf unit rather than its
/// parent slice.
pub open spec fn unit_in(cgroup: Seq<char>) -> Option<Seq<char>> {
    let segs = cgroup_segments(text::lines(cgroup));
    match last_leaf(segs) {
        Some(u) => Some(u),
        None => last_slice(segs),
    }
}

fn segments_of(cgroup: &str) -> (r: Vec<String>)
    ensures
        text::texts(r@) == cgroup_segments(text::lines(cgroup@)),
{
    let all: Vec<String> = lines_of(cgroup);
    let ghost list = text::texts(all@);
    let mut r: Vec<String> = Vec::new();
    let mut i: usize = 0;
    assert(list.take(0) =~= Seq::<Seq<char>>::empty());
    assert(text::texts(r@) =~= Seq::<Seq<char>>::empty());
    while i < all.len()
        invariant
            i <= all.len(),
            list == text::texts(all@),
            text::texts(r@) == cgroup_segments(list.take(i as int)),
        decreases all.len() - i,
    {
        assert(list.take(i + 1).drop_last() =~= list.take(i as int));
        assert(list.take(i + 1).last() == all@[i as int]@);
        let parts: Vec<String> = split(all[i].as_str(), Separator::Char(':'));
        let ghost colon = text::pieces(all@[i as int]@, Separator::Char(':'));
        proof {
            text::pieces_facts(all@[i as int]@, Separator::Char(':'));
            assert(text::texts(parts@).len() == parts@.len());
            assert(text::texts(parts@).last() == parts@[parts@.len() - 1]@);
        }
        let segs: Vec<String> = split(parts[parts.len() - 1].as_str(), Separator::Char('/'));
        let ghost slash = text::texts(segs@);
        let ghost before = text::texts(r@);
        let mut j: usize = 0;
        assert(slash.take(0) =~= Seq::<Seq<char>>::empty());
        assert(before + text::nonempty(slash.take(0)) =~= before);
        while j < segs.len()
            invariant
                j <= segs.len(),
                slash == text::texts(segs@),
                text::texts(r@) == before + text::nonempty(slash.take(j as int)),
            decreases segs.len() - j,
        {
            assert(slash.take(j + 1).drop_last() =~= slash.take(j as int));
            assert(slash.take(j + 1).last() == segs@[j as int]@);
            let ghost so_far = text::texts(r@);
            if segs[j].as_str().unicode_len() > 0 {
                r.push(segs[j].clone());
                assert(text::texts(r@) =~= so_far.push(segs@[j as int]@));
                assert(before + text::nonempty(slash.take(j + 1)) =~= so_far.push(
                    segs@[j as int]@,
                ));
            }
            j += 1;
        }
        assert(slash.take(slash.len() as int) =~= slash);
        i += 1;
    }
    assert(list.take(list.len() as int) =~= list);
    r
}

/// Extract the innermost unit from a cgroup path line
/// (`0::/system.slice/foo.service`). Prefers a leaf unit (`.service`,
/// `.scope`, `.socket`, `.timer`) over its parent slice.
pub fn unit_from_cgroup(cgroup: &str) -> (r: Option<String>)
    ensures
        text::text_of(r) == unit_in(cgroup@),
{
    let segs: Vec<String> = segments_of(cgroup);
    let ghost list = text::texts(segs@);
    let mut i: usize = segs.len();
    assert(list.take(list.len() as int) =~= list);
    while i > 0
        invariant
            i <= segs.len(),
            list == text::texts(segs@),
            list == cgroup_segments(text::lines(cgroup@)),
            last_leaf(list) == last_leaf(list.take(i as int)),
        decreases i,
    {
        assert(list.take(i as int).drop_last() =~= list.take(i - 1));
        assert(list.take(i as int).last() == segs@[i - 1]@);
        let s: &str = segs[i - 1].as_str();
        if text_ends(s, ".service") || text_ends(s, ".scope") || text_ends(s, ".socket")
            || text_ends(s, ".timer") {
            return Some(segs[i - 1].clone());
        }
        i -= 1;
    }
    let mut i: usize = segs.len();
    while i > 0
        invariant
            i <= segs.len(),
            list == text::texts(segs@),
            list == cgroup_segments(text::lines(cgroup@)),
            last_leaf(list) is None,
            last_slice(list) == last_slice(list.take(i as int)),
        decreases i,
    {
        assert(list.take(i as int).drop_last() =~= list.take(i - 1));
        assert(list.take(i as int).last() == segs@[i - 1]@);
        if text_ends(segs[i - 1].as_str(), ".slice") {
            return Some(segs[i - 1].clone());
        }
        i -= 1;
    }
    None
}

/// The cgroup texts of some processes: pid and content of
/// `/proc/<pid>/cgroup`. A process without an entry has no readable one.
pub open spec fn unit_for(cgroups: Seq<(u32, String)>, pid: u32) -> Option<Seq<char>>
    decreases cgroups.len(),
{
    if cgroups.len() == 0 {
        None
    } else if cgroups[0].0 == pid {
        unit_in(cgroups[0].1@)
    } else {
        unit_for(cgroups.skip(1), pid)
    }
}

fn systemd_unit_for(cgroups: &Vec<(u32, String)>, pid: u32) -> (r: Option<String>)
    ensures
        text::text_of(r) == unit_for(cgroups@, pid),
{
    let mut i: usize = 0;
    assert(cgroups@.skip(0) =~= cgroups@);
    while i < cgroups.len()
        invariant
            i <= cgroups.len(),
            unit_for(cgroups@, pid) == unit_for(cgroups@.skip(i as int), pid),
        decreases cgroups.len() - i,
    {
        assert(cgroups@.skip(i as int)[0] == cgroups@[i as int]);
        assert(cgroups@.skip(i as int).skip(1) =~= cgroups@.skip(i + 1));
        if cgroups[i].0 == pid {
            return unit_from_cgroup(cgroups[i].1.as_str());
        }
        i += 1;
    }
    None
}

/// The first unit of a list of processes, from its end.
pub open spec fn last_unit(cgroups: Seq<(u32, String)>, list: Seq<ProcessInfo>) -> Option<Seq<char>>
    decreases list.len(),
{
    if list.len() == 0 {
        None
    } else {
        match unit_for(cgroups, list.last().pid) {
            Some(u) => Some(u),
            None => last_unit(cgroups, list.drop_last()),
        }
    }
}

// ---------------------------------------------------------------------------
// Detection
// ---------------------------------------------------------------------------

/// The source before a systemd unit is looked up.
pub open spec fn plain_source(ps: Seq<ProcessInfo>, target: u32) -> SourceModel {
    let chain = ancestry(ps, target);
    let own = match pids::by_pid(ps, target) {
        Some(t) => sandbox_of(t),
        None => None,
    };
    match own {
        Some(m) => m,
        None => match first_supervisor(chain) {
            Some(m) => m,
            None => match first_shell(chain) {
                Some(m) => m,
                None => match first_init(chain) {
                    Some(m) => m,
                    None => SourceModel::Unknown { pid1: None },
                },
            },
        },
    }
}

/// What started a process: its own sandbox, else the nearest recognized
/// supervisor above it, else an interactive shell, else pid 1.
pub open spec fn source_of(
    ps: Seq<ProcessInfo>,
    target: u32,
    cgroups: Seq<(u32, String)>,
) -> SourceModel {
    match plain_source(ps, target) {
        SourceModel::Systemd { .. } => SourceModel::Systemd {
            unit: match unit_for(cgroups, target) {
                Some(u) => Some(u),
                None => last_unit(cgroups, ancestry(ps, target)),
            },
        },
        other => other,
    }
}

fn find_plain(target: u32, ps: &Vec<ProcessInfo>, chain: &Vec<&ProcessInfo>) -> (r: SourceKind)
    requires
        listed(chain@) == ancestry(ps@, target),
    ensures
        r@ == plain_source(ps@, target),
{
    let index: PidIndex = PidIndex::new(ps);
    if let Some(k) = index.find(Ghost(ps@), target) {
        if let Some(m) = sandbox_marker(&ps[k]) {
            return m;
        }
    }
    let ghost list = listed(chain@);
    let mut i: usize = 0;
    assert(list.skip(0) =~= list);
    while i < chain.len()
        invariant
            i <= chain.len(),
            list == listed(chain@),
            list == ancestry(ps@, target),
            match pids::by_pid(ps@, target) {
                Some(t) => sandbox_of(t) is None,
                None => true,
            },
            first_supervisor(list) == first_supervisor(list.skip(i as int)),
        decreases chain.len() - i,
    {
        assert(list.skip(i as int)[0] == *chain@[i as int]);
        assert(list.skip(i as int).skip(1) =~= list.skip(i + 1));
        if let Some(m) = supervisor_marker(chain[i]) {
            return m;
        }
        i += 1;
    }
    let mut i: usize = 0;
    while i < chain.len()
        invariant
            i <= chain.len(),
            list == listed(chain@),
            list == ancestry(ps@, target),
            match pids::by_pid(ps@, target) {
                Some(t) => sandbox_of(t) is None,
                None => true,
            },
            first_supervisor(list) is None,
            first_shell(list) == first_shell(list.skip(i as int)),
        decreases chain.len() - i,
    {
        assert(list.skip(i as int)[0] == *chain@[i as int]);
        assert(list.skip(i as int).skip(1) =~= list.skip(i + 1));
        if let Some(m) = shell_marker(chain[i]) {
            return m;
        }
        i += 1;
    }
    let mut i: usize = 0;
    while i < chain.len()
        invariant
            i <= chain.len(),
            list == listed(chain@),
            list == ancestry(ps@, target),
            match pids::by_pid(ps@, target) {
                Some(t) => sandbox_of(t) is None,
                None => true,
            },
            first_supervisor(list) is None,
            first_shell(list) is None,
            first_init(list) == first_init(list.skip(i as int)),
        decreases chain.len() - i,
    {
        assert(list.skip(i as int)[0] == *chain@[i as int]);
        assert(list.skip(i as int).skip(1) =~= list.skip(i + 1));
        if chain[i].pid == 1 {
            return pid1_of(chain[i]);
        }
        i += 1;
    }
    SourceKind::Unknown { pid1: None }
}

fn reversed<'a>(v: &Vec<&'a ProcessInfo>) -> (r: Vec<&'a ProcessInfo>)
    ensures
        listed(r@) == listed(v@).reverse(),
{
    let mut r: Vec<&'a ProcessInfo> = Vec::new();
    let mut i: usize = v.len();
    while i > 0
        invariant
            i <= v.len(),
            r@.len() == v@.len() - i,
            forall|k: int| 0 <= k < r@.len() ==> *#[trigger] r@[k] == *v@[v@.len() - 1 - k],
        decreases i,
    {
        r.push(v[i - 1]);
        i -= 1;
    }
    assert(listed(r@) =~= listed(v@).reverse());
    r
}

/// Detect the system source for `target_pid` by walking parent links.
///
/// A recognized supervisor (ssh, tmux, screen, cron, snap, flatpak) wins over
/// an interactive shell, because a shell is the weakest signal: it is usually
/// a human's terminal, not the thing keeping the process alive. pid 1
/// (systemd / launchd) is the final fallback. `cgroups` holds the cgroup
/// texts of the target and its ancestors where they could be read.
pub fn detect<'a>(
    target_pid: u32,
    processes: &'a Vec<ProcessInfo>,
    cgroups: &Vec<(u32, String)>,
) -> (r: SourceReport<'a>)
    ensures
        listed(r.chain@) == ancestry(processes@, target_pid).reverse(),
        r.source@ == source_of(processes@, target_pid, cgroups@),
{
    let chain: Vec<&'a ProcessInfo> = chain_up(target_pid, processes);
    let plain: SourceKind = find_plain(target_pid, processes, &chain);
    let source: SourceKind = match plain {
        SourceKind::Systemd { .. } => {
            let own: Option<String> = systemd_unit_for(cgroups, target_pid);
            if own.is_some() {
                SourceKind::Systemd { unit: own }
            } else {
                let ghost list = listed(chain@);
                let mut unit: Option<String> = None;
                let mut i: usize = chain.len();
                assert(list.take(list.len() as int) =~= list);
                while i > 0 && unit.is_none()
                    invariant
                        i <= chain.len(),
                        list == listed(chain@),
                        last_unit(cgroups@, list) == match text::text_of(unit) {
                            Some(u) => Some(u),
                            None => last_unit(cgroups@, list.take(i as int)),
                        },
                    decreases i,
                {
                    assert(list.take(i as int).drop_last() =~= list.take(i - 1));
                    assert(list.take(i as int).last() == *chain@[i - 1]);
                    unit = systemd_unit_for(cgroups, chain[i - 1].pid);
                    i -= 1;
                }
                SourceKind::Systemd { unit }
            }
        },
        other => other,
    };
    SourceReport { chain: reversed(&chain), source }
}

/// A supervisor above a process always wins over a shell above it.
pub proof fn supervisor_wins_over_shell(ps: Seq<ProcessInfo>, target: u32)
    requires
        first_supervisor(ancestry(ps, target)) is Some,
    ensures
        plain_source(ps, target) != SourceModel::InteractiveShell,
{
    supervisor_is_no_shell(ancestry(ps, target));
}

proof fn supervisor_is_no_shell(list: Seq<ProcessInfo>)
    ensures
        first_supervisor(list) != Some(SourceModel::InteractiveShell),
    decreases list.len(),
{
    if list.len() > 0 {
        supervisor_is_no_shell(list.skip(1));
    }
}

// ---------------------------------------------------------------------------
// The tree
// ---------------------------------------------------------------------------

/// Three blanks for each level.
pub open spec fn indent(n: nat) -> Seq<char>
    decreases n,
{
    if n == 0 {
        Seq::empty()
    } else {
        indent((n - 1) as nat) + "   "@
    }
}

/// What stands before an entry at a depth.
pub open spec fn branch_at(depth: nat) -> Seq<char> {
    if depth == 0 {
        Seq::empty()
    } else {
        indent((depth - 1) as nat) + "└─ "@
    }
}

pub open spec fn tree_label(p: ProcessInfo) -> Seq<char> {
    p.name@ + " ("@ + text::dec(p.pid as nat) + ")"@
}

/// The ancestors, one per line, root first.
pub open spec fn ancestor_lines(chain: Seq<ProcessInfo>) -> Seq<char>
    decreases chain.len(),
{
    if chain.len() == 0 {
        Seq::empty()
    } else {
        ancestor_lines(chain.drop_last()) + branch_at((chain.len() - 1) as nat) + tree_label(
            chain.last(),
        ) + "\n"@
    }
}

/// Inserts by pid, behind equal pids.
pub open spec fn by_pid_insert(s: Seq<ProcessInfo>, p: ProcessInfo) -> Seq<ProcessInfo>
    decreases s.len(),
{
    if s.len() == 0 || s.last().pid <= p.pid {
        s.push(p)
    } else {
        by_pid_insert(s.drop_last(), p).push(s.last())
    }
}

/// The children of a process by pid.
pub open spec fn children_by_pid(ps: Seq<ProcessInfo>, target: u32) -> Seq<ProcessInfo>
    decreases ps.len(),
{
    if ps.len() == 0 {
        Seq::empty()
    } else {
        let rest = children_by_pid(ps.drop_last(), target);
        if ps.last().parent_pid == Some(target) {
            by_pid_insert(rest, ps.last())
        } else {
            rest
        }
    }
}

/// The first `n` of a number of children. The last one closes the branch,
/// unless a line about further ones does.
pub open spec fn child_lines(children: Seq<ProcessInfo>, n: nat, depth: nat) -> Seq<char>
    decreases n,
{
    if n == 0 || n > children.len() {
        Seq::empty()
    } else {
        child_lines(children, (n - 1) as nat, depth) + indent(depth) + (if children.len() <= 10 && n
            == children.len() {
            "└─ "@
        } else {
            "├─ "@
        }) + tree_label(children[n - 1]) + "\n"@
    }
}

pub open spec fn shown_children(n: nat) -> nat {
    if n <= 10 {
        n
    } else {
        10
    }
}

/// The ancestry of a process and its children as a tree.
pub open spec fn tree_text(ps: Seq<ProcessInfo>, target: u32) -> Seq<char> {
    let chain = ancestry(ps, target).reverse();
    let children = children_by_pid(ps, target);
    ancestor_lines(chain) + branch_at(chain.len()) + (match pids::by_pid(ps, target) {
        Some(p) => tree_label(p),
        None => "pid "@ + text::dec(target as nat),
    }) + " ◀\n"@ + child_lines(children, shown_children(children.len()), chain.len()) + (
    if children.len() > 10 {
        indent(chain.len()) + "└─ … (+"@ + text::dec((children.len() - 10) as nat) + " more)\n"@
    } else {
        Seq::empty()
    })
}

fn indent_of(n: usize) -> (r: String)
    ensures
        r@ == indent(n as nat),
{
    let mut r: String = String::new();
    let mut i: usize = 0;
    assert(r@ =~= indent(0));
    while i < n
        invariant
            i <= n,
            r@ == indent(i as nat),
        decreases n - i,
    {
        r = r.concat("   ");
        i += 1;
    }
    r
}

fn branch_of(depth: usize) -> (r: String)
    ensures
        r@ == branch_at(depth as nat),
{
    if depth == 0 {
        let r: String = String::new();
        assert(r@ =~= Seq::<char>::empty());
        r
    } else {
        indent_of(depth - 1).concat("└─ ")
    }
}

fn label_of(p: &ProcessInfo) -> (r: String)
    ensures
        r@ == tree_label(*p),
{
    p.name.clone().concat(" (").concat(dec_of(p.pid as u64).as_str()).concat(")")
}

fn sorted_children<'a>(ps: &'a Vec<ProcessInfo>, target: u32) -> (r: Vec<&'a ProcessInfo>)
    ensures
        listed(r@) == children_by_pid(ps@, target),
{
    let mut r: Vec<&'a ProcessInfo> = Vec::new();
    let mut i: usize = 0;
    assert(ps@.take(0) =~= Seq::<ProcessInfo>::empty());
    assert(listed(r@) =~= Seq::<ProcessInfo>::empty());
    while i < ps.len()
        invariant
            i <= ps.len(),
            listed(r@) == children_by_pid(ps@.take(i as int), target),
        decreases ps.len() - i,
    {
        assert(ps@.take(i + 1).drop_last() =~= ps@.take(i as int));
        let p: &'a ProcessInfo = &ps[i];
        if p.parent_pid == Some(target) {
            let ghost s = listed(r@);
            let mut k: usize = r.len();
            assert(s.take(k as int) =~= s);
            assert(s.skip(k as int) =~= Seq::<ProcessInfo>::empty());
            assert(by_pid_insert(s, *p) =~= by_pid_insert(s.take(k as int), *p) + s.skip(k as int));
            while k > 0 && r[k - 1].pid > p.pid
                invariant
                    k <= r.len(),
                    s == listed(r@),
                    by_pid_insert(s, *p) == by_pid_insert(s.take(k as int), *p) + s.skip(k as int),
                decreases k,
            {
                let ghost t = s.take(k as int);
                assert(t.drop_last() =~= s.take(k - 1));
                assert(t.last() == s[k - 1]);
                assert(by_pid_insert(t, *p) + s.skip(k as int) =~= by_pid_insert(
                    s.take(k - 1),
                    *p,
                ) + s.skip(k - 1));
                k -= 1;
            }
            let ghost t = s.take(k as int);
            if k > 0 {
                assert(t.last() == s[k - 1]);
            }
            assert(by_pid_insert(t, *p) == t.push(*p));
            r.insert(k, p);
            assert(listed(r@) =~= t.push(*p) + s.skip(k as int));
        }
        i += 1;
    }
    assert(ps@.take(ps@.len() as int) =~= ps@);
    r
}

/// Render the ancestry path from pid 1 (or the highest visible ancestor) down
/// to `target_pid`, plus the target's children, as a box-drawing tree with
/// the target marked `◀`. Children are capped to keep the tree readable.
pub fn render_tree(target_pid: u32, processes: &Vec<ProcessInfo>) -> (r: String)
    ensures
        r@ == tree_text(processes@, target_pid),
{
    let nearest: Vec<&ProcessInfo> = chain_up(target_pid, processes);
    let chain: Vec<&ProcessInfo> = reversed(&nearest);
    let children: Vec<&ProcessInfo> = sorted_children(processes, target_pid);
    let ghost list = listed(chain@);
    let ghost kids = listed(children@);
    let mut out: String = String::new();
    let mut i: usize = 0;
    assert(list.take(0) =~= Seq::<ProcessInfo>::empty());
    assert(out@ =~= Seq::<char>::empty());
    while i < chain.len()
        invariant
            i <= chain.len(),
            list == listed(chain@),
            out@ == ancestor_lines(list.take(i as int)),
        decreases chain.len() - i,
    {
        assert(list.take(i + 1).drop_last() =~= list.take(i as int));
        assert(list.take(i + 1).last() == *chain@[i as int]);
        out = out.concat(branch_of(i).as_str()).concat(label_of(chain[i]).as_str()).concat("\n");
        i += 1;
    }
    assert(list.take(list.len() as int) =~= list);
    let depth: usize = chain.len();
    let index: PidIndex = PidIndex::new(processes);
    let target_label: String = match index.find(Ghost(processes@), target_pid) {
        Some(k) => label_of(&processes[k]),
        None => "pid ".to_owned().concat(dec_of(target_pid as u64).as_str()),
    };
    out = out.concat(branch_of(depth).as_str()).concat(target_label.as_str()).concat(" ◀\n");
    let ghost head = out@;
    let total: usize = children.len();
    let shown: usize = if total <= 10 {
        total
    } else {
        10
    };
    let mut j: usize = 0;
    assert(head + child_lines(kids, 0, depth as nat) =~= head);
    while j < shown
        invariant
            j <= shown <= children.len(),
            total == children.len(),
            kids == listed(children@),
            out@ == head + child_lines(kids, j as nat, depth as nat),
        decreases shown - j,
    {
        let branch: &str = if total <= 10 && j + 1 == total {
            "└─ "
        } else {
            "├─ "
        };
        let ghost before = out@;
        out = out.concat(indent_of(depth).as_str()).concat(branch).concat(
            label_of(children[j]).as_str(),
        ).concat("\n");
        assert(out@ =~= head + child_lines(kids, (j + 1) as nat, depth as nat));
        j += 1;
    }
    if total > 10 {
        out = out.concat(indent_of(depth).as_str()).concat("└─ … (+").concat(
            dec_of((total - 10) as u64).as_str(),
        ).concat(" more)\n");
    }
    assert(out@ =~= tree_text(processes@, target_pid));
    out
}

// ---------------------------------------------------------------------------
// What decides
// ---------------------------------------------------------------------------

proof fn climb_goes_up(ps: Seq<ProcessInfo>, cur: Option<u32>, seen: Seq<u32>, i: int)
    requires
        0 <= i < climb(ps, cur, seen).len(),
    ensures
        ({
            let c = climb(ps, cur, seen);
            &&& i == 0 ==> cur == Some(c[0].pid)
            &&& pids::by_pid(ps, c[i].pid) == Some(c[i])
            &&& i + 1 < c.len() ==> c[i].parent_pid == Some(c[i + 1].pid)
            &&& i + 1 == c.len() && c[i].pid != 1 ==> match c[i].parent_pid {
                None => true,
                Some(up) => !pids::present(ps, up) || seen.contains(up) || exists|j: int|
                    0 <= j <= i && (#[trigger] c[j]).pid == up,
            }
        }),
    decreases process::left(pids_of(ps), seen), i,
{
    let pid = cur->0;
    let p = pids::by_pid(ps, pid)->0;
    let c = climb(ps, cur, seen);
    pids::last_index_range(ps, pid);
    assert(c[0] == p);
    if pid != 1 {
        let rest = climb(ps, p.parent_pid, seen.push(pid));
        step_shrinks(ps, pid, seen);
        assert(c =~= seq![p] + rest);
        process::pushed(seen, pid);
        if i > 0 {
            climb_goes_up(ps, p.parent_pid, seen.push(pid), i - 1);
            assert(c[i] == rest[i - 1]);
            if i + 1 < c.len() {
                assert(c[i + 1] == rest[i]);
            }
            if i + 1 == c.len() && c[i].pid != 1 {
                if let Some(up) = c[i].parent_pid {
                    if pids::present(ps, up) && !seen.push(pid).contains(up) {
                        let j = choose|j: int| 0 <= j <= i - 1 && (#[trigger] rest[j]).pid == up;
                        assert(c[j + 1].pid == up);
                    } else if up == pid {
                        assert(c[0].pid == up);
                    }
                }
            }
        } else {
            if rest.len() > 0 {
                climb_goes_up(ps, p.parent_pid, seen.push(pid), 0);
                assert(c[1] == rest[0]);
            } else if let Some(up) = p.parent_pid {
                pids::last_index_range(ps, up);
                if up == pid {
                    assert(c[0].pid == up);
                }
            }
        }
    }
}

/// The ancestry goes from parent to parent: it starts with the parent of the
/// process, each entry names the next one as its parent, and it ends at pid 1,
/// at a parent that is not visible, or where it would go round.
pub proof fn ancestry_follows_the_parents(ps: Seq<ProcessInfo>, target: u32, i: int)
    requires
        0 <= i < ancestry(ps, target).len(),
    ensures
        ({
            let c = ancestry(ps, target);
            &&& pids::parent_of(ps, target) == Some(c[0].pid)
            &&& pids::by_pid(ps, c[i].pid) == Some(c[i])
            &&& i + 1 < c.len() ==> c[i].parent_pid == Some(c[i + 1].pid)
            &&& i + 1 == c.len() && c[i].pid != 1 ==> match c[i].parent_pid {
                None => true,
                Some(up) => !pids::present(ps, up) || exists|j: int|
                    0 <= j <= i && (#[trigger] c[j]).pid == up,
            }
        }),
{
    climb_goes_up(ps, pids::parent_of(ps, target), Seq::empty(), i);
    climb_goes_up(ps, pids::parent_of(ps, target), Seq::empty(), 0);
}

/// How a supervisor is told: by its executable below `/snap/` or `/app/`, and
/// else by its name.
pub proof fn a_supervisor_is_told_by_name(p: ProcessInfo)
    ensures
        ({
            let name = text::lower(p.name@);
            let boxed = p.executable is Some && (text::starts_with(
                text::lower(p.executable->0@),
                "/snap/"@,
            ) || text::starts_with(text::lower(p.executable->0@), "/app/"@));
            &&& p.executable is Some && text::starts_with(text::lower(p.executable->0@), "/snap/"@)
                ==> supervisor_of(p) == Some(SourceModel::Snap)
            &&& boxed && !text::starts_with(text::lower(p.executable->0@), "/snap/"@)
                ==> supervisor_of(p) == Some(SourceModel::Flatpak)
            &&& boxed ==> sandbox_of(p) == supervisor_of(p)
            &&& !boxed ==> sandbox_of(p) is None
            &&& !boxed && name == "sshd"@ ==> supervisor_of(p) == Some(SourceModel::Ssh)
            &&& !boxed && name != "sshd"@ && name == "tmux"@ ==> supervisor_of(p) == Some(
                SourceModel::Tmux,
            )
            &&& !boxed && name != "sshd"@ && text::starts_with(name, "tmux:"@) ==> supervisor_of(p)
                == Some(SourceModel::Tmux)
            &&& supervisor_of(p) is Some ==> boxed || name == "sshd"@ || name == "tmux"@
                || text::starts_with(name, "tmux:"@) || name == "screen"@ || text::starts_with(
                name,
                "screen-"@,
            ) || name == "cron"@ || name == "crond"@ || name == "anacron"@
            &&& name == "screen"@ || text::starts_with(name, "screen-"@) || name == "cron"@ || name
                == "crond"@ || name == "anacron"@ ==> supervisor_of(p) is Some
        }),
{
}

proof fn first_supervisor_at(list: Seq<ProcessInfo>, k: int)
    requires
        0 <= k < list.len(),
        supervisor_of(list[k]) is Some,
        forall|j: int| 0 <= j < k ==> supervisor_of(#[trigger] list[j]) is None,
    ensures
        first_supervisor(list) == supervisor_of(list[k]),
    decreases k,
{
    if k > 0 {
        let rest = list.skip(1);
        assert(rest[k - 1] == list[k]);
        assert forall|j: int| 0 <= j < k - 1 implies supervisor_of(#[trigger] rest[j]) is None by {
            assert(rest[j] == list[j + 1]);
        }
        assert(supervisor_of(list[0]) is None);
        first_supervisor_at(rest, k - 1);
    }
}

proof fn no_supervisor_at_all(list: Seq<ProcessInfo>)
    requires
        forall|j: int| 0 <= j < list.len() ==> supervisor_of(#[trigger] list[j]) is None,
    ensures
        first_supervisor(list) is None,
    decreases list.len(),
{
    if list.len() > 0 {
        let rest = list.skip(1);
        assert forall|j: int| 0 <= j < rest.len() implies supervisor_of(
            #[trigger] rest[j],
        ) is None by {
            assert(rest[j] == list[j + 1]);
        }
        assert(supervisor_of(list[0]) is None);
        no_supervisor_at_all(rest);
    }
}

proof fn some_shell(list: Seq<ProcessInfo>)
    ensures
        first_shell(list) is Some <==> exists|j: int|
            0 <= j < list.len() && is_shell_name(text::lower((#[trigger] list[j]).name@))
                && list[j].tty is Some,
        first_shell(list) is Some ==> first_shell(list) == Some(SourceModel::InteractiveShell),
    decreases list.len(),
{
    if list.len() > 0 {
        let rest = list.skip(1);
        some_shell(rest);
        if shell_of(list[0]) is None {
            if first_shell(rest) is Some {
                let j = choose|j: int|
                    0 <= j < rest.len() && is_shell_name(text::lower((#[trigger] rest[j]).name@))
                        && rest[j].tty is Some;
                assert(list[j + 1] == rest[j]);
            }
            if exists|j: int|
                0 <= j < list.len() && is_shell_name(text::lower((#[trigger] list[j]).name@))
                    && list[j].tty is Some {
                let j = choose|j: int|
                    0 <= j < list.len() && is_shell_name(text::lower((#[trigger] list[j]).name@))
                        && list[j].tty is Some;
                assert(rest[j - 1] == list[j]);
            }
        } else {
            assert(is_shell_name(text::lower(list[0].name@)));
        }
    }
}

/// What started a process. Its own sandbox comes first; then the nearest
/// supervisor above it; only without one a shell above it that has a
/// terminal.
pub proof fn the_nearest_supervisor_decides(ps: Seq<ProcessInfo>, target: u32, k: int)
    requires
        match pids::by_pid(ps, target) {
            Some(t) => sandbox_of(t) is None,
            None => true,
        },
    ensures
        ({
            let c = ancestry(ps, target);
            &&& 0 <= k < c.len() && supervisor_of(c[k]) is Some && (forall|j: int|
                0 <= j < k ==> supervisor_of(#[trigger] c[j]) is None) ==> plain_source(ps, target)
                == supervisor_of(c[k])->0
            &&& (forall|j: int| 0 <= j < c.len() ==> supervisor_of(#[trigger] c[j]) is None) && 0
                <= k < c.len() && is_shell_name(text::lower(c[k].name@)) && c[k].tty is Some
                ==> plain_source(ps, target) == SourceModel::InteractiveShell
        }),
{
    let c = ancestry(ps, target);
    if 0 <= k < c.len() && supervisor_of(c[k]) is Some && (forall|j: int|
        0 <= j < k ==> supervisor_of(#[trigger] c[j]) is None) {
        first_supervisor_at(c, k);
    }
    if (forall|j: int| 0 <= j < c.len() ==> supervisor_of(#[trigger] c[j]) is None) && 0 <= k
        < c.len() && is_shell_name(text::lower(c[k].name@)) && c[k].tty is Some {
        no_supervisor_at_all(c);
        some_shell(c);
        assert(is_shell_name(text::lower(c[k].name@)));
    }
}

proof fn init_is_the_last(list: Seq<ProcessInfo>)
    requires
        list.len() > 0,
        list.last().pid == 1,
        forall|j: int| 0 <= j < list.len() - 1 ==> (#[trigger] list[j]).pid != 1,
    ensures
        first_init(list) == Some(init_of(list.last())),
    decreases list.len(),
{
    if list.len() > 1 {
        let rest = list.skip(1);
        assert(list[0].pid != 1);
        assert(rest.last() == list.last());
        assert forall|j: int| 0 <= j < rest.len() - 1 implies (#[trigger] rest[j]).pid != 1 by {
            assert(rest[j] == list[j + 1]);
        }
        init_is_the_last(rest);
    }
}

/// Without a supervisor and without a shell pid 1 decides: systemd and launchd
/// by name, any other init is unknown under its own name. Without a visible
/// pid 1 nothing is known.
pub proof fn without_either_pid_1_decides(ps: Seq<ProcessInfo>, target: u32)
    requires
        match pids::by_pid(ps, target) {
            Some(t) => sandbox_of(t) is None,
            None => true,
        },
        forall|j: int|
            0 <= j < ancestry(ps, target).len() ==> supervisor_of(
                #[trigger] ancestry(ps, target)[j],
            ) is None && !(is_shell_name(text::lower(ancestry(ps, target)[j].name@)) && ancestry(
                ps,
                target,
            )[j].tty is Some),
        ancestry(ps, target).len() > 0,
        ancestry(ps, target).last().pid == 1,
    ensures
        ({
            let name = text::lower(ancestry(ps, target).last().name@);
            plain_source(ps, target) == (if name == "systemd"@ {
                SourceModel::Systemd { unit: None }
            } else if name == "launchd"@ {
                SourceModel::Launchd
            } else {
                SourceModel::Unknown { pid1: Some(name) }
            })
        }),
{
    let c = ancestry(ps, target);
    no_supervisor_at_all(c);
    some_shell(c);
    chain_is_cycle_free(ps, pids::parent_of(ps, target), Seq::empty());
    init_is_the_last(c);
}

/// Of the units that a cgroup names the innermost counts, and a slice only
/// where there is nothing but slices.
pub proof fn the_innermost_unit_counts(segs: Seq<Seq<char>>, k: int)
    requires
        0 <= k < segs.len(),
    ensures
        (text::ends_with(segs[k], ".service"@) || text::ends_with(segs[k], ".scope"@)
            || text::ends_with(segs[k], ".socket"@) || text::ends_with(segs[k], ".timer"@)) && (
        forall|j: int| k < j < segs.len() ==> !is_leaf_unit(#[trigger] segs[j])) ==> last_leaf(segs)
            == Some(segs[k]),
        text::ends_with(segs[k], ".slice"@) && (forall|j: int|
            k < j < segs.len() ==> !text::ends_with(#[trigger] segs[j], ".slice"@)) ==> last_slice(
            segs,
        ) == Some(segs[k]),
    decreases segs.len(),
{
    if k < segs.len() - 1 {
        let front = segs.drop_last();
        assert(segs.last() == segs[segs.len() - 1]);
        assert(front[k] == segs[k]);
        assert(forall|j: int| 0 <= j < front.len() ==> front[j] == #[trigger] segs[j]);
        the_innermost_unit_counts(front, k);
        if forall|j: int| k < j < segs.len() ==> !is_leaf_unit(#[trigger] segs[j]) {
            assert forall|j: int| k < j < front.len() implies !is_leaf_unit(#[trigger] front[j]) by {
                assert(segs[j] == front[j]);
            }
        }
        if forall|j: int| k < j < segs.len() ==> !text::ends_with(#[trigger] segs[j], ".slice"@) {
            assert forall|j: int| k < j < front.len() implies !text::ends_with(
                #[trigger] front[j],
                ".slice"@,
            ) by {
                assert(segs[j] == front[j]);
            }
        }
    }
}

/// A process that systemd started is shown with its own unit; only without
/// one with a unit from its ancestry. Any other source is shown as it is.
pub proof fn systemd_is_shown_with_the_own_unit(
    ps: Seq<ProcessInfo>,
    target: u32,
    cgroups: Seq<(u32, String)>,
)
    ensures
        plain_source(ps, target) !is Systemd ==> source_of(ps, target, cgroups) == plain_source(
            ps,
            target,
        ),
        plain_source(ps, target) is Systemd ==> source_of(ps, target, cgroups) is Systemd,
        plain_source(ps, target) is Systemd && unit_for(cgroups, target) is Some ==> source_of(
            ps,
            target,
            cgroups,
        )->unit == unit_for(cgroups, target),
        plain_source(ps, target) is Systemd && unit_for(cgroups, target) is None ==> source_of(
            ps,
            target,
            cgroups,
        )->unit == last_unit(cgroups, ancestry(ps, target)),
{
}

proof fn by_pid_insert_facts(s: Seq<ProcessInfo>, p: ProcessInfo)
    requires
        forall|i: int, j: int|
            0 <= i <= j < s.len() ==> (#[trigger] s[i]).pid <= (#[trigger] s[j]).pid,
    ensures
        ({
            let r = by_pid_insert(s, p);
            &&& r.len() == s.len() + 1
            &&& r.to_multiset() == s.to_multiset().insert(p)
            &&& forall|i: int, j: int|
                0 <= i <= j < r.len() ==> (#[trigger] r[i]).pid <= (#[trigger] r[j]).pid
            &&& forall|i: int|
                0 <= i < r.len() ==> (#[trigger] r[i]).pid <= p.pid || (s.len() > 0 && r[i].pid
                    <= s.last().pid)
        }),
    decreases s.len(),
{
    broadcast use vstd::seq_lib::group_to_multiset_ensures;

    let r = by_pid_insert(s, p);
    if s.len() == 0 || s.last().pid <= p.pid {
        assert forall|i: int, j: int| 0 <= i <= j < r.len() implies (#[trigger] r[i]).pid <= (
        #[trigger] r[j]).pid by {
            if j == s.len() && i < s.len() {
                assert(s[i].pid <= s[s.len() - 1].pid);
            }
        }
    } else {
        let front = s.drop_last();
        let f = by_pid_insert(front, p);
        assert forall|i: int, j: int| 0 <= i <= j < front.len() implies (#[trigger] front[i]).pid
            <= (#[trigger] front[j]).pid by {
            assert(s[i].pid <= s[j].pid);
        }
        by_pid_insert_facts(front, p);
        assert forall|i: int, j: int| 0 <= i <= j < r.len() implies (#[trigger] r[i]).pid <= (
        #[trigger] r[j]).pid by {
            if j < f.len() {
                assert(f[i].pid <= f[j].pid);
            } else if i < f.len() {
                assert(r[i] == f[i]);
                if front.len() > 0 {
                    assert(s[front.len() - 1].pid <= s[s.len() - 1].pid);
                }
            }
        }
        assert(s =~= front.push(s.last()));
        assert(r.to_multiset() =~= s.to_multiset().insert(p));
    }
}

/// The children of a process are all that name it as parent, by pid.
pub proof fn children_are_listed_by_pid(ps: Seq<ProcessInfo>, target: u32)
    ensures
        children_by_pid(ps, target).to_multiset() == ps.filter(
            |p: ProcessInfo| p.parent_pid == Some(target),
        ).to_multiset(),
        forall|i: int, j: int|
            0 <= i <= j < children_by_pid(ps, target).len() ==> (#[trigger] children_by_pid(
                ps,
                target,
            )[i]).pid <= (#[trigger] children_by_pid(ps, target)[j]).pid,
    decreases ps.len(),
{
    broadcast use vstd::seq_lib::group_to_multiset_ensures;

    reveal(Seq::filter);
    if ps.len() > 0 {
        children_are_listed_by_pid(ps.drop_last(), target);
        by_pid_insert_facts(children_by_pid(ps.drop_last(), target), ps.last());
    }
}

/// Each level of the tree is three blanks further in.
pub proof fn levels_are_three_blanks(n: nat)
    ensures
        indent(n) == Seq::new(3 * n, |i: int| ' '),
    decreases n,
{
    reveal_strlit("   ");
    if n > 0 {
        levels_are_three_blanks((n - 1) as nat);
    }
    assert(indent(n) =~= Seq::new(3 * n, |i: int| ' '));
}

/// Up to ten children are shown, each on its own line and the last of them
/// closing the branch; of more the first ten, and how many more there are.
pub proof fn up_to_ten_children_are_shown(ps: Seq<ProcessInfo>, target: u32)
    requires
        pids::by_pid(ps, target) is Some,
    ensures
        ({
            let chain = ancestry(ps, target).reverse();
            let kids = children_by_pid(ps, target);
            let head = ancestor_lines(chain) + branch_at(chain.len()) + tree_label(
                pids::by_pid(ps, target)->0,
            ) + " ◀\n"@;
            &&& kids.len() <= 10 ==> tree_text(ps, target) == head + child_lines(
                kids,
                kids.len(),
                chain.len(),
            )
            &&& kids.len() > 10 ==> tree_text(ps, target) == head + child_lines(
                kids,
                10,
                chain.len(),
            ) + (indent(chain.len()) + "└─ … (+"@ + text::dec((kids.len() - 10) as nat)
                + " more)\n"@)
        }),
{
    let chain = ancestry(ps, target).reverse();
    let kids = children_by_pid(ps, target);
    let head = ancestor_lines(chain) + branch_at(chain.len()) + tree_label(
        pids::by_pid(ps, target)->0,
    ) + " ◀\n"@;
    if kids.len() <= 10 {
        let all = head + child_lines(kids, kids.len(), chain.len());
        assert(all + Seq::<char>::empty() =~= all);
    }
}

} // verus!

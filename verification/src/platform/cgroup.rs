//! Linux cgroup v2 backend for managed runs.
//!
//! Runs live in their own cgroup under a **delegated** subtree. Delegation is
//! the whole point: nothing here asks for root or rewrites global OS
//! configuration. If no delegated subtree is available the capability is
//! reported unavailable and a hard request is refused before spawn — a limit
//! that does not exist is never promised.
//!
//! Cgroup membership is inherited by every descendant, so a child that calls
//! `setsid` or double-forks still cannot leave the run's cgroup, and
//! `cgroup.kill` reaches it.
//!
//! Files are read and written by the program around the library: what to
//! write is decided here, and so is what a content means.

use crate::path;
use crate::path::{join, parent, trim};
use crate::text;
use crate::text::{
    any_same, chars_of, dec_of, join_of, lines_of, parse_unsigned, same, split_once, string_of,
    strip_prefix, text_starts, trim_of, words_of,
};
use vstd::prelude::*;

verus! {

/// `cpu.max` period. One core is one full period of quota.
pub const CPU_PERIOD_US: u64 = 100_000;

/// `cpu.max` quota for a request in millicores: 1000 millicores is one core,
/// i.e. one full period.
pub fn quota_for_millicores(millicores: u32) -> (r: u64)
    ensures
        r * 1000 == millicores * CPU_PERIOD_US,
{
    let per_millicore: u64 = CPU_PERIOD_US / 1000;
    assert(per_millicore == 100);
    assert((millicores as u64) * per_millicore == millicores * 100) by (nonlinear_arith)
        requires
            per_millicore == 100,
    ;
    assert((millicores as u64) * CPU_PERIOD_US == millicores * 100_000) by (nonlinear_arith)
        requires
            CPU_PERIOD_US == 100_000,
    ;
    (millicores as u64) * per_millicore
}

/// The controllers a run wants, in the order they are enabled.
pub open spec fn wanted_controllers() -> Seq<Seq<char>> {
    seq!["memory"@, "pids"@, "cpu"@]
}

fn wanted() -> (r: Vec<String>)
    ensures
        text::texts(r@) == wanted_controllers(),
{
    let r: Vec<String> = vec!["memory".to_owned(), "pids".to_owned(), "cpu".to_owned()];
    assert(text::texts(r@) =~= wanted_controllers());
    r
}

/// A writable delegated subtree whose children may carry limits.
#[derive(Debug, Clone)]
pub struct CgroupRoot {
    path: String,
    controllers: Vec<String>,
}

/// Limits applied to one run's cgroup. `None` leaves the controller's own
/// default (i.e. unlimited) in place.
#[derive(Debug, Clone, Copy, PartialEq, Eq)]
pub struct CgroupLimits {
    pub memory_max_bytes: Option<u64>,
    pub memory_swap_max_bytes: Option<u64>,
    /// `cpu.max` in `$QUOTA $PERIOD` form, e.g. `200000 100000` for 2 CPUs.
    pub cpu_max: Option<(u64, u64)>,
    pub pids_max: Option<u64>,
}

impl Default for CgroupLimits {
    fn default() -> (r: Self)
        ensures
            r == (CgroupLimits {
                memory_max_bytes: None,
                memory_swap_max_bytes: None,
                cpu_max: None,
                pids_max: None,
            }),
    {
        CgroupLimits {
            memory_max_bytes: None,
            memory_swap_max_bytes: None,
            cpu_max: None,
            pids_max: None,
        }
    }
}

/// What was actually written, so effective values can be reported rather
/// than the request.
#[derive(Debug, Clone, Copy, PartialEq, Eq)]
pub struct AppliedLimits {
    pub memory_max_bytes: Option<u64>,
    pub memory_swap_max_bytes: Option<u64>,
    pub cpu_max: Option<(u64, u64)>,
    pub pids_max: Option<u64>,
}

/// Counters from `memory.events` / `cgroup.events`. An OOM claim is only made
/// when the kernel says so — never inferred from a SIGKILL.
#[derive(Debug, Clone, Copy, PartialEq, Eq, Structural)]
pub struct CgroupEvents {
    pub memory_max_hits: u64,
    pub oom: u64,
    pub oom_kill: u64,
    pub populated: bool,
}

/// One run's cgroup.
#[derive(Debug, Clone)]
pub struct Cgroup {
    path: String,
}

/// One file to write.
#[derive(Debug, Clone)]
pub struct FileWrite {
    pub path: String,
    pub value: String,
}

/// A write as a model: the file's path and what goes into it.
pub struct WriteModel {
    pub path: Seq<char>,
    pub value: Seq<char>,
}

impl View for FileWrite {
    type V = WriteModel;

    open spec fn view(&self) -> WriteModel {
        WriteModel { path: self.path@, value: self.value@ }
    }
}

pub open spec fn write_models(v: Seq<FileWrite>) -> Seq<WriteModel> {
    v.map_values(|w: FileWrite| w@)
}

impl CgroupRoot {
    pub closed spec fn path_view(self) -> Seq<char> {
        self.path@
    }

    pub closed spec fn controllers_view(self) -> Seq<Seq<char>> {
        text::texts(self.controllers@)
    }

    pub fn new(path: String, controllers: Vec<String>) -> (r: CgroupRoot)
        ensures
            r.path_view() == path@,
            r.controllers_view() == text::texts(controllers@),
    {
        CgroupRoot { path, controllers }
    }

    pub fn path(&self) -> (r: &str)
        ensures
            r@ == self.path_view(),
    {
        self.path.as_str()
    }

    pub fn controllers(&self) -> (r: &Vec<String>)
        ensures
            text::texts(r@) == self.controllers_view(),
    {
        &self.controllers
    }

    /// The leaf cgroup `name` directly under `dir` (one per run), to be
    /// created as a directory.
    pub fn create_leaf(dir: &str, name: &str) -> (r: Cgroup)
        ensures
            r.path_view() == path::joined(dir@, name@),
    {
        Cgroup { path: join(dir, name) }
    }

    /// The cgroup that will hold other cgroups (the aggregate one).
    pub fn prepare_parent(&self, name: &str) -> (r: Cgroup)
        ensures
            r.path_view() == path::joined(self.path_view(), name@),
    {
        Cgroup { path: join(self.path.as_str(), name) }
    }
}

/// The writes that put limits in force, one file per limit.
pub open spec fn limit_writes(dir: Seq<char>, l: CgroupLimits) -> Seq<WriteModel> {
    number_write(dir, "memory.max"@, l.memory_max_bytes) + number_write(
        dir,
        "memory.swap.max"@,
        l.memory_swap_max_bytes,
    ) + (match l.cpu_max {
        Some((quota, period)) => seq![
            WriteModel {
                path: path::joined(dir, "cpu.max"@),
                value: text::dec(quota as nat) + " "@ + text::dec(period as nat),
            },
        ],
        None => Seq::empty(),
    }) + number_write(dir, "pids.max"@, l.pids_max)
}

pub open spec fn number_write(dir: Seq<char>, file: Seq<char>, n: Option<u64>) -> Seq<WriteModel> {
    match n {
        Some(v) => seq![WriteModel { path: path::joined(dir, file), value: text::dec(v as nat) }],
        None => Seq::empty(),
    }
}

/// A cap as it is written: a number, or `max` for none.
pub open spec fn cap_text(n: Option<u64>) -> Seq<char> {
    match n {
        Some(v) => text::dec(v as nat),
        None => "max"@,
    }
}

/// A quota per period as it is written, or `max` for none.
pub open spec fn cpu_text(quota: Option<(u64, u64)>) -> Seq<char> {
    match quota {
        Some((quota, period)) => text::dec(quota as nat) + " "@ + text::dec(period as nat),
        None => "max"@,
    }
}

/// One write for each cap, also where it is cleared.
pub open spec fn cap_writes(dir: Seq<char>, l: CgroupLimits) -> Seq<WriteModel> {
    seq![
        WriteModel {
            path: path::joined(dir, "memory.max"@),
            value: cap_text(l.memory_max_bytes),
        },
        WriteModel {
            path: path::joined(dir, "memory.swap.max"@),
            value: cap_text(l.memory_swap_max_bytes),
        },
        WriteModel { path: path::joined(dir, "cpu.max"@), value: cpu_text(l.cpu_max) },
        WriteModel { path: path::joined(dir, "pids.max"@), value: cap_text(l.pids_max) },
    ]
}

fn number_or_max(n: Option<u64>) -> (r: String)
    ensures
        r@ == cap_text(n),
{
    match n {
        Some(v) => dec_of(v),
        None => "max".to_owned(),
    }
}

/// The wanted controllers among those that are there.
pub open spec fn enablable(wanted: Seq<Seq<char>>, available: Seq<Seq<char>>) -> Seq<Seq<char>>
    decreases wanted.len(),
{
    if wanted.len() == 0 {
        Seq::empty()
    } else {
        let rest = enablable(wanted.drop_last(), available);
        if available.contains(wanted.last()) {
            rest.push(wanted.last())
        } else {
            rest
        }
    }
}

/// The wanted controllers that are not there.
pub open spec fn lacking(wanted: Seq<Seq<char>>, enabled: Seq<Seq<char>>) -> Seq<Seq<char>>
    decreases wanted.len(),
{
    if wanted.len() == 0 {
        Seq::empty()
    } else {
        let rest = lacking(wanted.drop_last(), enabled);
        if enabled.contains(wanted.last()) {
            rest
        } else {
            rest.push(wanted.last())
        }
    }
}

/// `+memory +pids`: the controllers to switch on.
pub open spec fn switch_on(list: Seq<Seq<char>>) -> Seq<char> {
    text::joined(list.map_values(|c: Seq<char>| "+"@ + c), " "@)
}

/// The last value that a key has in a list of `key value` lines; lines
/// without a number do not count.
pub open spec fn kv_value(lines: Seq<Seq<char>>, key: Seq<char>) -> Option<nat>
    decreases lines.len(),
{
    if lines.len() == 0 {
        None
    } else {
        match kv_line(lines.last()) {
            Some((k, v)) if k == key => Some(v),
            _ => kv_value(lines.drop_last(), key),
        }
    }
}

pub open spec fn kv_line(line: Seq<char>) -> Option<(Seq<char>, nat)> {
    let i = text::first_at(line, ' ');
    if i < line.len() {
        match text::parsed(text::trimmed(line.skip(i + 1)), u64::MAX as nat) {
            Some(v) => Some((line.take(i), v)),
            None => None,
        }
    } else {
        None
    }
}

pub open spec fn kv(content: Seq<char>, key: Seq<char>) -> Option<nat> {
    kv_value(text::lines(content), key)
}

pub open spec fn or_zero(n: Option<nat>) -> nat {
    match n {
        Some(v) => v,
        None => 0,
    }
}

/// The value of a key in `key value` lines.
pub fn read_kv(content: &str, key: &str) -> (r: Option<u64>)
    ensures
        match r {
            Some(v) => kv(content@, key@) == Some(v as nat),
            None => kv(content@, key@) is None,
        },
{
    let all: Vec<String> = lines_of(content);
    let ghost list = text::texts(all@);
    let mut i: usize = all.len();
    assert(list.len() == all@.len());
    assert(list.take(list.len() as int) =~= list);
    while i > 0
        invariant
            i <= all.len(),
            list == text::texts(all@),
            list == text::lines(content@),
            kv_value(list, key@) == kv_value(list.take(i as int), key@),
        decreases i,
    {
        assert(list.take(i as int).last() == all@[i - 1]@);
        assert(list.take(i as int).drop_last() =~= list.take(i - 1));
        if let Some((k, v)) = split_once(all[i - 1].as_str(), ' ') {
            if let Some(n) = parse_unsigned(trim_of(v.as_str()).as_str(), u64::MAX) {
                if same(k.as_str(), key) {
                    return Some(n);
                }
            }
        }
        i -= 1;
    }
    None
}

/// A single number in a control file; `max` means none.
pub open spec fn number_in(content: Seq<char>, max: nat) -> Option<nat> {
    text::parsed(text::trimmed(content), max)
}

/// `cpu.max` in millicores.
pub open spec fn millicores_in(content: Seq<char>) -> Option<int> {
    let w = text::words(content);
    if w.len() < 2 {
        None
    } else {
        match (text::parsed(w[0], u64::MAX as nat), text::parsed(w[1], u64::MAX as nat)) {
            (Some(quota), Some(period)) => Some(
                millicores(quota as u64, period as u64) as int,
            ),
            _ => None,
        }
    }
}

/// A quota per period in millicores, the low 32 bits of it; a period of zero
/// counts as one.
pub open spec fn millicores(quota: u64, period: u64) -> u32 {
    let scaled: int = if quota * 1000 > u64::MAX {
        u64::MAX as int
    } else {
        quota * 1000
    };
    let p: int = if period == 0 {
        1
    } else {
        period as int
    };
    ((scaled / p) % 0x1_0000_0000) as u32
}

/// A quota per period in millicores.
pub fn millicores_of(quota: u64, period: u64) -> (r: u32)
    ensures
        r == millicores(quota, period),
{
    let scaled: u64 = if quota > u64::MAX / 1000 {
        u64::MAX
    } else {
        quota * 1000
    };
    let p: u64 = if period == 0 {
        1
    } else {
        period
    };
    ((scaled / p) % 0x1_0000_0000) as u32
}

impl Cgroup {
    pub closed spec fn path_view(self) -> Seq<char> {
        self.path@
    }

    pub fn at(path: String) -> (r: Cgroup)
        ensures
            r.path_view() == path@,
    {
        Cgroup { path }
    }

    pub fn path(&self) -> (r: &str)
        ensures
            r@ == self.path_view(),
    {
        self.path.as_str()
    }

    /// The leaf cgroup `name` below this one (one per run).
    pub fn create_child(&self, name: &str) -> (r: Cgroup)
        ensures
            r.path_view() == path::joined(self.path_view(), name@),
    {
        Cgroup { path: join(self.path.as_str(), name) }
    }

    /// The write that enables the wanted controllers for this cgroup's
    /// children, given what `cgroup.controllers` holds; none where there is
    /// nothing to enable.
    pub fn enable_controllers(&self, available: &str) -> (r: Option<FileWrite>)
        ensures
            ({
                let list = enablable(wanted_controllers(), text::words(available@));
                match r {
                    Some(w) => list.len() > 0 && w.path@ == path::joined(
                        self.path_view(),
                        "cgroup.subtree_control"@,
                    ) && w.value@ == switch_on(list),
                    None => list.len() == 0,
                }
            }),
    {
        let have: Vec<String> = words_of(available);
        let list: Vec<String> = common(&wanted(), &have);
        if list.len() == 0 {
            assert(text::texts(list@).len() == 0);
            return None;
        }
        assert(text::texts(list@).len() == list@.len());
        Some(
            FileWrite {
                path: join(self.path.as_str(), "cgroup.subtree_control"),
                value: plus_list(&list),
            },
        )
    }

    /// Current `cpu.max` quota in millicores, `None` when unlimited.
    pub fn cpu_max_millicores(content: &str) -> (r: Option<u32>)
        ensures
            match r {
                Some(n) => millicores_in(content@) == Some(n as int),
                None => millicores_in(content@) is None,
            },
    {
        let w: Vec<String> = words_of(content);
        assert(text::texts(w@).len() == w@.len());
        if w.len() < 2 {
            return None;
        }
        assert(text::texts(w@)[0] == w@[0]@ && text::texts(w@)[1] == w@[1]@);
        match (parse_unsigned(w[0].as_str(), u64::MAX), parse_unsigned(w[1].as_str(), u64::MAX)) {
            (Some(quota), Some(period)) => Some(millicores_of(quota, period)),
            _ => None,
        }
    }

    /// Current `pids.max`, `None` when unlimited.
    pub fn pids_max(content: &str) -> (r: Option<u32>)
        ensures
            match r {
                Some(n) => number_in(content@, u32::MAX as nat) == Some(n as nat),
                None => number_in(content@, u32::MAX as nat) is None,
            },
    {
        match parse_unsigned(trim_of(content).as_str(), 4294967295) {
            Some(n) => Some(n as u32),
            None => None,
        }
    }

    /// Current `memory.max`, `None` when the value is `max` (unlimited).
    pub fn memory_max(content: &str) -> (r: Option<u64>)
        ensures
            match r {
                Some(n) => number_in(content@, u64::MAX as nat) == Some(n as nat),
                None => number_in(content@, u64::MAX as nat) is None,
            },
    {
        parse_unsigned(trim_of(content).as_str(), u64::MAX)
    }

    /// Times the pids controller refused a fork, from `pids.events`.
    pub fn pids_max_hits(content: &str) -> (r: u64)
        ensures
            r == or_zero(kv(content@, "max"@)),
    {
        match read_kv(content, "max") {
            Some(n) => n,
            None => 0,
        }
    }

    /// CPU time charged, in microseconds, from `cpu.stat`.
    pub fn cpu_usage_usec(content: &str) -> (r: u64)
        ensures
            r == or_zero(kv(content@, "usage_usec"@)),
    {
        match read_kv(content, "usage_usec") {
            Some(n) => n,
            None => 0,
        }
    }

    /// What to write for the requested limits, in order, and what is in force
    /// once all of it is written. A write that fails is an error, not a silent
    /// skip: the caller asked for a hard limit.
    pub fn apply(&self, limits: &CgroupLimits) -> (r: (Vec<FileWrite>, AppliedLimits))
        ensures
            write_models(r.0@) == limit_writes(self.path_view(), *limits),
            r.1.memory_max_bytes == limits.memory_max_bytes,
            r.1.memory_swap_max_bytes == limits.memory_swap_max_bytes,
            r.1.cpu_max == limits.cpu_max,
            r.1.pids_max == limits.pids_max,
    {
        let mut v: Vec<FileWrite> = Vec::new();
        self.write_number(&mut v, "memory.max", limits.memory_max_bytes);
        self.write_number(&mut v, "memory.swap.max", limits.memory_swap_max_bytes);
        if let Some((quota, period)) = limits.cpu_max {
            let ghost before = write_models(v@);
            let w: FileWrite = FileWrite {
                path: join(self.path.as_str(), "cpu.max"),
                value: dec_of(quota).concat(" ").concat(dec_of(period).as_str()),
            };
            v.push(w);
            assert(write_models(v@) =~= before.push(w@));
        }
        self.write_number(&mut v, "pids.max", limits.pids_max);
        assert(write_models(v@) =~= limit_writes(self.path_view(), *limits));
        (
            v,
            AppliedLimits {
                memory_max_bytes: limits.memory_max_bytes,
                memory_swap_max_bytes: limits.memory_swap_max_bytes,
                cpu_max: limits.cpu_max,
                pids_max: limits.pids_max,
            },
        )
    }

    fn write_number(&self, v: &mut Vec<FileWrite>, file: &str, n: Option<u64>)
        ensures
            write_models(final(v)@) == write_models(old(v)@) + number_write(
                self.path_view(),
                file@,
                n,
            ),
    {
        let ghost before = write_models(v@);
        if let Some(value) = n {
            let w: FileWrite = FileWrite {
                path: join(self.path.as_str(), file),
                value: dec_of(value),
            };
            v.push(w);
            assert(write_models(v@) =~= before + number_write(self.path_view(), file@, n));
        } else {
            assert(before + number_write(self.path_view(), file@, n) =~= before);
        }
    }

    fn cap(&self, file: &str, value: String) -> (r: FileWrite)
        ensures
            r@ == (WriteModel { path: path::joined(self.path_view(), file@), value: value@ }),
    {
        FileWrite { path: join(self.path.as_str(), file), value }
    }

    /// What to write so that the kernel's caps on all runs together follow a
    /// change of the limits. A cap that was cleared is written as `max`.
    pub fn set_aggregate_caps(&self, caps: &CgroupLimits) -> (r: Vec<FileWrite>)
        ensures
            write_models(r@) == cap_writes(self.path_view(), *caps),
    {
        let mut v: Vec<FileWrite> = Vec::new();
        v.push(self.cap("memory.max", number_or_max(caps.memory_max_bytes)));
        v.push(self.cap("memory.swap.max", number_or_max(caps.memory_swap_max_bytes)));
        v.push(
            self.cap(
                "cpu.max",
                match caps.cpu_max {
                    Some((quota, period)) => dec_of(quota).concat(" ").concat(
                        dec_of(period).as_str(),
                    ),
                    None => "max".to_owned(),
                },
            ),
        );
        v.push(self.cap("pids.max", number_or_max(caps.pids_max)));
        assert(write_models(v@) =~= cap_writes(self.path_view(), *caps));
        v
    }

    /// Path of `cgroup.procs`, through which a process enters.
    pub fn procs_path(&self) -> (r: String)
        ensures
            r@ == path::joined(self.path_view(), "cgroup.procs"@),
    {
        join(self.path.as_str(), "cgroup.procs")
    }

    /// Kernel counters, from `memory.events` and, where it could be read,
    /// `cgroup.events`. Without the latter the cgroup counts as populated.
    pub fn events(memory: &str, cgroup: &Option<String>) -> (r: CgroupEvents)
        ensures
            r.memory_max_hits == or_zero(kv(memory@, "max"@)),
            r.oom == or_zero(kv(memory@, "oom"@)),
            r.oom_kill == or_zero(kv(memory@, "oom_kill"@)),
            r.populated == is_populated(text::text_of(*cgroup)),
    {
        CgroupEvents {
            memory_max_hits: match read_kv(memory, "max") {
                Some(n) => n,
                None => 0,
            },
            oom: match read_kv(memory, "oom") {
                Some(n) => n,
                None => 0,
            },
            oom_kill: match read_kv(memory, "oom_kill") {
                Some(n) => n,
                None => 0,
            },
            populated: Self::populated(cgroup),
        }
    }

    /// `cgroup.kill` (kernel 5.14+): kill every process in the subtree,
    /// including ones that left the process group.
    pub fn kill(&self) -> (r: FileWrite)
        ensures
            r.path@ == path::joined(self.path_view(), "cgroup.kill"@),
            r.value@ == "1"@,
    {
        FileWrite { path: join(self.path.as_str(), "cgroup.kill"), value: "1".to_owned() }
    }

    /// Whether processes are left, from `cgroup.events`.
    pub fn populated(cgroup: &Option<String>) -> (r: bool)
        ensures
            r == is_populated(text::text_of(*cgroup)),
    {
        match cgroup {
            None => true,
            Some(c) => match read_kv(c.as_str(), "populated") {
                Some(n) => n != 0,
                None => true,
            },
        }
    }
}

/// Populated unless the kernel says it is not.
pub open spec fn is_populated(cgroup: Option<Seq<char>>) -> bool {
    match cgroup {
        Some(c) => kv(c, "populated"@) != Some(0nat),
        None => true,
    }
}

fn common(list: &Vec<String>, have: &Vec<String>) -> (r: Vec<String>)
    ensures
        text::texts(r@) == enablable(text::texts(list@), text::texts(have@)),
{
    let mut r: Vec<String> = Vec::new();
    let ghost l = text::texts(list@);
    let mut i: usize = 0;
    assert(l.take(0) =~= Seq::<Seq<char>>::empty());
    assert(text::texts(r@) =~= Seq::<Seq<char>>::empty());
    while i < list.len()
        invariant
            i <= list.len(),
            l == text::texts(list@),
            text::texts(r@) == enablable(l.take(i as int), text::texts(have@)),
        decreases list.len() - i,
    {
        assert(l.take(i + 1).drop_last() =~= l.take(i as int));
        assert(l.take(i + 1).last() == list@[i as int]@);
        let ghost before = text::texts(r@);
        if any_same(have, list[i].as_str()) {
            r.push(list[i].clone());
            assert(text::texts(r@) =~= before.push(list@[i as int]@));
        }
        i += 1;
    }
    assert(l.take(l.len() as int) =~= l);
    r
}

fn missing(list: &Vec<String>, have: &Vec<String>) -> (r: Vec<String>)
    ensures
        text::texts(r@) == lacking(text::texts(list@), text::texts(have@)),
{
    let mut r: Vec<String> = Vec::new();
    let ghost l = text::texts(list@);
    let mut i: usize = 0;
    assert(l.take(0) =~= Seq::<Seq<char>>::empty());
    assert(text::texts(r@) =~= Seq::<Seq<char>>::empty());
    while i < list.len()
        invariant
            i <= list.len(),
            l == text::texts(list@),
            text::texts(r@) == lacking(l.take(i as int), text::texts(have@)),
        decreases list.len() - i,
    {
        assert(l.take(i + 1).drop_last() =~= l.take(i as int));
        assert(l.take(i + 1).last() == list@[i as int]@);
        let ghost before = text::texts(r@);
        if !any_same(have, list[i].as_str()) {
            r.push(list[i].clone());
            assert(text::texts(r@) =~= before.push(list@[i as int]@));
        }
        i += 1;
    }
    assert(l.take(l.len() as int) =~= l);
    r
}

fn plus_list(list: &Vec<String>) -> (r: String)
    ensures
        r@ == switch_on(text::texts(list@)),
{
    let mut marked: Vec<String> = Vec::new();
    let mut i: usize = 0;
    while i < list.len()
        invariant
            i <= list.len(),
            marked@.len() == i,
            forall|j: int| 0 <= j < i ==> (#[trigger] marked@[j])@ == "+"@ + list@[j]@,
        decreases list.len() - i,
    {
        marked.push("+".to_owned().concat(list[i].as_str()));
        i += 1;
    }
    assert(text::texts(marked@) =~= text::texts(list@).map_values(|c: Seq<char>| "+"@ + c));
    join_of(&marked, " ")
}

/// Where a unified hierarchy is mounted.
pub open spec fn mount() -> Seq<char> {
    "/sys/fs/cgroup"@
}

/// A path without leading separators.
pub open spec fn without_leading(s: Seq<char>) -> Seq<char>
    decreases s.len(),
{
    if s.len() > 0 && s[0] == '/' {
        without_leading(s.skip(1))
    } else {
        s
    }
}

/// The process's own cgroup directory named by the content of
/// `/proc/self/cgroup` (a line `0::/path`).
pub open spec fn own_dir(lines: Seq<Seq<char>>) -> Option<Seq<char>>
    decreases lines.len(),
{
    if lines.len() == 0 {
        None
    } else {
        match own_dir(lines.drop_last()) {
            Some(d) => Some(d),
            None => if text::starts_with(lines.last(), "0::"@) {
                Some(
                    path::joined(mount(), without_leading(text::trimmed(lines.last().skip(3)))),
                )
            } else {
                None
            },
        }
    }
}

/// Our own cgroup directory, from the content of `/proc/self/cgroup`.
pub fn own_cgroup_path(content: &str) -> (r: Option<String>)
    ensures
        text::text_of(r) == own_dir(text::lines(content@)),
{
    let all: Vec<String> = lines_of(content);
    let ghost list = text::texts(all@);
    let mut i: usize = 0;
    assert(list.take(0) =~= Seq::<Seq<char>>::empty());
    while i < all.len()
        invariant
            i <= all.len(),
            list == text::texts(all@),
            list == text::lines(content@),
            own_dir(list.take(i as int)) is None,
        decreases all.len() - i,
    {
        assert(list.take(i + 1).drop_last() =~= list.take(i as int));
        assert(list.take(i + 1).last() == all@[i as int]@);
        proof {
            reveal_strlit("0::");
        }
        if let Some(rest) = strip_prefix(all[i].as_str(), "0::") {
            let trimmed: String = trim_of(rest.as_str());
            let v: Vec<char> = chars_of(trimmed.as_str());
            let mut k: usize = 0;
            assert(v@.skip(0) =~= v@);
            while k < v.len() && v[k] == '/'
                invariant
                    k <= v.len(),
                    v@ == trimmed@,
                    without_leading(trimmed@) == without_leading(v@.skip(k as int)),
                decreases v.len() - k,
            {
                assert(v@.skip(k as int)[0] == v@[k as int]);
                assert(v@.skip(k as int).skip(1) =~= v@.skip(k + 1));
                k += 1;
            }
            assert(k < v.len() ==> v@.skip(k as int)[0] == v@[k as int]);
            let relative: String = string_of(&v, k, v.len());
            assert(relative@ =~= v@.skip(k as int));
            proof {
                own_dir_stays(list, i + 1);
            }
            return Some(join("/sys/fs/cgroup", relative.as_str()));
        }
        i += 1;
    }
    assert(list.take(list.len() as int) =~= list);
    None
}

proof fn own_dir_stays(lines: Seq<Seq<char>>, k: int)
    requires
        0 <= k <= lines.len(),
        own_dir(lines.take(k)) is Some,
    ensures
        own_dir(lines) == own_dir(lines.take(k)),
    decreases lines.len() - k,
{
    if k == lines.len() {
        assert(lines.take(k) =~= lines);
    } else {
        assert(lines.take(k + 1).drop_last() =~= lines.take(k));
        own_dir_stays(lines, k + 1);
    }
}

/// A directory at or below the mount point.
pub open spec fn under_mount(dir: Seq<char>) -> bool {
    path::trimmed(dir) == mount() || text::starts_with(dir, mount() + "/"@)
}

/// A directory and those above it that lie within the mount, nearest first.
pub open spec fn mounted_ancestors(dir: Seq<char>) -> Seq<Seq<char>>
    decreases dir.len(),
    via mounted_decreases
{
    let here = if under_mount(dir) {
        seq![dir]
    } else {
        Seq::empty()
    };
    match path::parent_of(dir) {
        Some(p) => here + mounted_ancestors(p),
        None => here,
    }
}

#[via_fn]
proof fn mounted_decreases(dir: Seq<char>) {
    path::parent_shorter(dir);
}

/// Where to look for a delegated subtree: an explicit directory first, then
/// the process's own cgroup and its ancestors, and at last the mount point.
pub open spec fn candidate_dirs(explicit: Option<Seq<char>>, own: Option<Seq<char>>) -> Seq<
    Seq<char>,
> {
    let first = match explicit {
        Some(e) if text::trimmed(e).len() > 0 => seq![e],
        _ => Seq::empty(),
    };
    let more = first + match own {
        Some(o) => mounted_ancestors(o),
        None => Seq::empty(),
    };
    if more.contains(mount()) {
        more
    } else {
        more.push(mount())
    }
}

/// Candidate directories, most specific first: `explicit` is the value of
/// `WYD_CGROUP_ROOT`, `own` the process's own cgroup.
pub fn candidates(explicit: &Option<String>, own: &Option<String>) -> (r: Vec<String>)
    ensures
        text::texts(r@) == candidate_dirs(text::text_of(*explicit), text::text_of(*own)),
{
    let mut r: Vec<String> = Vec::new();
    let ghost mut first = Seq::<Seq<char>>::empty();
    assert(text::texts(r@) =~= first);
    if let Some(e) = explicit {
        if !trim_of(e.as_str()).as_str().is_empty() {
            r.push(e.clone());
            proof {
                first = seq![e@];
            }
            assert(text::texts(r@) =~= first);
        }
    }
    if let Some(o) = own {
        let mut cur: String = o.clone();
        assert(first + mounted_ancestors(cur@) == first + mounted_ancestors(o@));
        loop
            invariant_except_break
                text::texts(r@) + mounted_ancestors(cur@) == first + mounted_ancestors(o@),
            ensures
                text::texts(r@) == first + mounted_ancestors(o@),
            decreases cur@.len(),
        {
            let ghost done = text::texts(r@);
            let ghost here = cur@;
            proof {
                path::parent_shorter(here);
            }
            let above: Option<String> = parent(cur.as_str());
            if is_mounted(cur.as_str()) {
                r.push(cur);
                assert(text::texts(r@) =~= done.push(here));
            }
            let ghost part = if under_mount(here) {
                seq![here]
            } else {
                Seq::<Seq<char>>::empty()
            };
            assert(text::texts(r@) =~= done + part);
            match above {
                Some(p) => {
                    assert(done + (part + mounted_ancestors(p@)) =~= (done + part)
                        + mounted_ancestors(p@));
                    cur = p;
                },
                None => {
                    break;
                },
            }
        }
    } else {
        assert(first + Seq::<Seq<char>>::empty() =~= first);
    }
    let ghost more = text::texts(r@);
    if !any_same(&r, "/sys/fs/cgroup") {
        r.push("/sys/fs/cgroup".to_owned());
        assert(text::texts(r@) =~= more.push(mount()));
    }
    r
}

fn is_mounted(dir: &str) -> (r: bool)
    ensures
        r == under_mount(dir@),
{
    same(trim(dir).as_str(), "/sys/fs/cgroup") || text_starts(
        dir,
        "/sys/fs/cgroup".to_owned().concat("/").as_str(),
    )
}

/// What a look at a candidate directory says.
#[derive(Debug, Clone)]
pub enum Qualification {
    /// The controllers a run needs are enabled for its children already.
    Ready(Vec<String>),
    /// They can be enabled; then look again.
    Enable(FileWrite),
    /// Not usable, and why.
    Refused(String),
}

/// A list of controllers as it stands in messages: `["memory", "pids"]`.
pub open spec fn quoted(list: Seq<Seq<char>>) -> Seq<char> {
    "["@ + text::joined(list.map_values(|c: Seq<char>| "\""@ + c + "\""@), ", "@) + "]"@
}

fn quote_list(list: &Vec<String>) -> (r: String)
    ensures
        r@ == quoted(text::texts(list@)),
{
    let mut q: Vec<String> = Vec::new();
    let mut i: usize = 0;
    while i < list.len()
        invariant
            i <= list.len(),
            q@.len() == i,
            forall|j: int|
                0 <= j < i ==> (#[trigger] q@[j])@ == "\""@ + list@[j]@ + "\""@,
        decreases list.len() - i,
    {
        q.push("\"".to_owned().concat(list[i].as_str()).concat("\""));
        i += 1;
    }
    assert(text::texts(q@) =~= text::texts(list@).map_values(
        |c: Seq<char>| "\""@ + c + "\""@,
    ));
    "[".to_owned().concat(join_of(&q, ", ").as_str()).concat("]")
}

/// Some controller of one list is in the other.
pub open spec fn overlap(a: Seq<Seq<char>>, b: Seq<Seq<char>>) -> bool {
    exists|i: int| 0 <= i < a.len() && b.contains(#[trigger] a[i])
}

fn overlaps(a: &Vec<String>, b: &Vec<String>) -> (r: bool)
    ensures
        r == overlap(text::texts(a@), text::texts(b@)),
{
    let ghost x = text::texts(a@);
    let mut i: usize = 0;
    while i < a.len()
        invariant
            i <= a.len(),
            x == text::texts(a@),
            forall|j: int| 0 <= j < i ==> !text::texts(b@).contains(#[trigger] x[j]),
        decreases a.len() - i,
    {
        assert(x[i as int] == a@[i as int]@);
        if any_same(b, a[i].as_str()) {
            assert(text::texts(b@).contains(x[i as int]));
            return true;
        }
        i += 1;
    }
    assert(x.len() == a@.len());
    false
}

/// Can `dir` be the parent of run cgroups? `available` and `enabled` are the
/// contents of `cgroup.controllers` and `cgroup.subtree_control`; `again` says
/// that enabling was tried already. Nobody else's processes are ever moved.
pub fn qualify(dir: &str, available: &str, enabled: &str, again: bool) -> (r: Qualification)
    ensures
        ({
            let have = text::words(available@);
            let on = text::words(enabled@);
            let lack = lacking(wanted_controllers(), on);
            match r {
                Qualification::Ready(list) => lack.len() == 0 && text::texts(list@) == on,
                Qualification::Enable(w) => {
                    &&& lack.len() > 0
                    &&& !again
                    &&& overlap(have, lack)
                    &&& w.path@ == path::joined(dir@, "cgroup.subtree_control"@)
                    &&& w.value@ == switch_on(enablable(wanted_controllers(), have))
                },
                Qualification::Refused(why) => {
                    &&& lack.len() > 0
                    &&& again || !overlap(have, lack)
                    &&& why@ == if again {
                        "controllers "@ + quoted(lack) + " still not enabled"@
                    } else {
                        "controllers "@ + quoted(lack) + " are not available here"@
                    }
                },
            }
        }),
{
    let on: Vec<String> = words_of(enabled);
    let lack: Vec<String> = missing(&wanted(), &on);
    assert(text::texts(lack@).len() == lack@.len());
    if lack.len() == 0 {
        return Qualification::Ready(on);
    }
    if again {
        return Qualification::Refused(
            "controllers ".to_owned().concat(quote_list(&lack).as_str()).concat(
                " still not enabled",
            ),
        );
    }
    let have: Vec<String> = words_of(available);
    if overlaps(&have, &lack) {
        proof {
            overlap_is_enablable(
                wanted_controllers(),
                text::words(enabled@),
                text::words(available@),
            );
        }
        match Cgroup::at(dir.to_owned()).enable_controllers(available) {
            Some(w) => {
                return Qualification::Enable(w);
            },
            None => {},
        }
    }
    Qualification::Refused(
        "controllers ".to_owned().concat(quote_list(&lack).as_str()).concat(
            " are not available here",
        ),
    )
}

proof fn lacking_is_wanted(wanted: Seq<Seq<char>>, on: Seq<Seq<char>>, c: Seq<char>)
    requires
        lacking(wanted, on).contains(c),
    ensures
        wanted.contains(c),
    decreases wanted.len(),
{
    let all = lacking(wanted, on);
    let k = choose|k: int| 0 <= k < all.len() && all[k] == c;
    let rest = lacking(wanted.drop_last(), on);
    if k < rest.len() {
        assert(rest[k] == c);
        lacking_is_wanted(wanted.drop_last(), on, c);
        let j = choose|j: int| 0 <= j < wanted.drop_last().len() && wanted.drop_last()[j] == c;
        assert(wanted[j] == c);
    } else {
        assert(wanted[wanted.len() - 1] == c);
    }
}

proof fn wanted_is_enablable(wanted: Seq<Seq<char>>, have: Seq<Seq<char>>, c: Seq<char>)
    requires
        wanted.contains(c),
        have.contains(c),
    ensures
        enablable(wanted, have).len() > 0,
    decreases wanted.len(),
{
    let k = choose|k: int| 0 <= k < wanted.len() && wanted[k] == c;
    if k < wanted.len() - 1 {
        assert(wanted.drop_last()[k] == c);
        wanted_is_enablable(wanted.drop_last(), have, c);
    }
}

proof fn overlap_is_enablable(wanted: Seq<Seq<char>>, on: Seq<Seq<char>>, have: Seq<Seq<char>>)
    requires
        overlap(have, lacking(wanted, on)),
    ensures
        enablable(wanted, have).len() > 0,
{
    let i = choose|i: int| 0 <= i < have.len() && lacking(wanted, on).contains(#[trigger] have[i]);
    lacking_is_wanted(wanted, on, have[i]);
    assert(have.contains(have[i]));
    wanted_is_enablable(wanted, have, have[i]);
}

/// What came of looking at each candidate.
#[derive(Debug)]
pub struct Tried {
    pub path: String,
    /// The enabled controllers, or why the directory is not usable.
    pub outcome: Result<Vec<String>, String>,
}

/// The reasons of the candidates that failed.
pub open spec fn failures(tried: Seq<Tried>) -> Seq<Seq<char>>
    decreases tried.len(),
{
    if tried.len() == 0 {
        Seq::empty()
    } else {
        let rest = failures(tried.drop_last());
        match tried.last().outcome {
            Ok(_) => rest,
            Err(why) => rest.push(tried.last().path@ + ": "@ + why@),
        }
    }
}

/// The first candidate that qualified.
pub open spec fn first_usable(tried: Seq<Tried>) -> Option<int>
    decreases tried.len(),
{
    if tried.len() == 0 {
        None
    } else {
        match first_usable(tried.drop_last()) {
            Some(i) => Some(i),
            None => if tried.last().outcome is Ok {
                Some(tried.len() - 1)
            } else {
                None
            },
        }
    }
}

/// What is said where no candidate qualifies.
pub open spec fn no_subtree(tried: Seq<Tried>) -> Seq<char> {
    "no delegated cgroup v2 subtree ("@ + text::joined(failures(tried), "; "@)
        + "). Run wyd under a systemd unit with Delegate=yes, or point WYD_CGROUP_ROOT at a directory you own inside a delegated subtree"@
}

/// Find a delegated subtree to create run cgroups in: the first candidate
/// that qualified. `mounted` says whether cgroup v2 is mounted at all.
pub fn discover(mounted: bool, tried: &Vec<Tried>) -> (r: Result<CgroupRoot, String>)
    ensures
        match r {
            Ok(root) => mounted && match first_usable(tried@) {
                Some(i) => {
                    &&& root.path_view() == tried@[i].path@
                    &&& tried@[i].outcome is Ok
                    &&& root.controllers_view() == text::texts(tried@[i].outcome->Ok_0@)
                },
                None => false,
            },
            Err(why) => if mounted {
                first_usable(tried@) is None && why@ == no_subtree(tried@)
            } else {
                why@ == "cgroup v2 is not mounted at /sys/fs/cgroup"@
            },
        },
{
    if !mounted {
        return Err("cgroup v2 is not mounted at /sys/fs/cgroup".to_owned());
    }
    let mut why: Vec<String> = Vec::new();
    let mut i: usize = 0;
    assert(tried@.take(0) =~= Seq::<Tried>::empty());
    assert(text::texts(why@) =~= Seq::<Seq<char>>::empty());
    while i < tried.len()
        invariant
            i <= tried.len(),
            mounted,
            first_usable(tried@.take(i as int)) is None,
            text::texts(why@) == failures(tried@.take(i as int)),
        decreases tried.len() - i,
    {
        assert(tried@.take(i + 1).drop_last() =~= tried@.take(i as int));
        match &tried[i].outcome {
            Ok(list) => {
                proof {
                    first_usable_stays(tried@, i + 1);
                }
                return Ok(
                    CgroupRoot {
                        path: tried[i].path.clone(),
                        controllers: text::copy_list(list),
                    },
                );
            },
            Err(e) => {
                let ghost before = text::texts(why@);
                why.push(tried[i].path.clone().concat(": ").concat(e.as_str()));
                assert(text::texts(why@) =~= before.push(
                    tried@[i as int].path@ + ": "@ + e@,
                ));
            },
        }
        i += 1;
    }
    assert(tried@.take(tried@.len() as int) =~= tried@);
    Err(
        "no delegated cgroup v2 subtree (".to_owned().concat(join_of(&why, "; ").as_str()).concat(
            "). Run wyd under a systemd unit with Delegate=yes, or point WYD_CGROUP_ROOT at a directory you own inside a delegated subtree",
        ),
    )
}

proof fn first_usable_stays(tried: Seq<Tried>, k: int)
    requires
        0 <= k <= tried.len(),
        first_usable(tried.take(k)) is Some,
    ensures
        first_usable(tried) == first_usable(tried.take(k)),
    decreases tried.len() - k,
{
    if k == tried.len() {
        assert(tried.take(k) =~= tried);
    } else {
        assert(tried.take(k + 1).drop_last() =~= tried.take(k));
        first_usable_stays(tried, k + 1);
    }
}

/// True when hard limits can be enforced through a cgroup subtree.
pub fn cgroup_delegated(root: &Option<CgroupRoot>) -> (r: bool)
    ensures
        r == (*root is Some),
{
    root.is_some()
}

/// The delegated subtree in use: what discovery found, if anything.
pub fn cgroup_root(found: Result<CgroupRoot, String>) -> (r: Option<CgroupRoot>)
    ensures
        match found {
            Ok(root) => r == Some(root),
            Err(_) => r is None,
        },
{
    found.ok()
}

/// Decimal digits of a pid as bytes.
pub open spec fn digits_of(n: nat) -> Seq<u8> {
    text::dec(n).map_values(|c: char| c as u8)
}

/// Decimal digits of `value` written to the end of `buf`, without
/// allocating; returns where they start.
pub fn itoa(value: u32, buf: &mut [u8; 12]) -> (start: usize)
    ensures
        start <= 12,
        final(buf)@.skip(start as int) == digits_of(value as nat),
{
    let mut rest: u32 = value;
    let mut i: usize = 12;
    let ghost done = Seq::<u8>::empty();
    assert(buf@.skip(12) =~= Seq::<u8>::empty());
    let ghost whole = digits_of(value as nat);
    proof {
        digit_count(value as nat);
    }
    loop
        invariant_except_break
            0 < i <= 12,
            digits_of(rest as nat) + buf@.skip(i as int) == whole,
            text::dec(rest as nat).len() <= i,
        ensures
            i <= 12,
            buf@.skip(i as int) == whole,
        decreases rest, i,
    {
        let ghost before = buf@.skip(i as int);
        i -= 1;
        let d: u8 = 48 + (rest % 10) as u8;
        buf[i] = d;
        assert(buf@.skip(i as int) =~= seq![d] + before);
        let ghost old_rest = rest as nat;
        rest = rest / 10;
        proof {
            assert(text::digit(old_rest % 10) as u8 == d);
            if old_rest >= 10 {
                assert(digits_of(old_rest) =~= digits_of(rest as nat).push(d));
                assert(digits_of(rest as nat).push(d) + before =~= digits_of(rest as nat) + (
                seq![d] + before));
                assert(text::dec(old_rest).len() == text::dec(rest as nat).len() + 1);
                assert(text::dec(rest as nat).len() > 0);
            } else {
                assert(digits_of(old_rest) =~= seq![d]);
            }
        }
        if rest == 0 {
            break;
        }
    }
    i
}

proof fn digit_count(n: nat)
    requires
        n <= u32::MAX,
    ensures
        text::dec(n).len() <= 10,
{
    reveal_with_fuel(text::dec, 11);
}

// ---------------------------------------------------------------------------
// Laws
// ---------------------------------------------------------------------------

proof fn digits_are_no_whitespace(s: Seq<char>)
    requires
        text::all_digits(s),
    ensures
        text::trimmed(s) == s,
        forall|i: int| 0 <= i < s.len() ==> !text::is_white(#[trigger] s[i]),
{
    assert forall|i: int| 0 <= i < s.len() implies !text::is_white(#[trigger] s[i]) by {
        assert(text::is_digit(s[i]));
    }
    if s.len() > 0 {
        assert(!text::is_white(s[0]) && !text::is_white(s[s.len() - 1]));
    }
}

/// Text without a separator goes to the last piece.
proof fn last_piece_grows(s: Seq<char>, w: Seq<char>)
    requires
        forall|i: int| 0 <= i < w.len() ==> !text::is_white(#[trigger] w[i]),
    ensures
        text::pieces(s + w, text::Separator::White) == text::pieces(s, text::Separator::White).update(
            text::pieces(s, text::Separator::White).len() - 1,
            text::pieces(s, text::Separator::White).last() + w,
        ),
    decreases w.len(),
{
    let before = text::pieces(s, text::Separator::White);
    text::pieces_facts(s, text::Separator::White);
    if w.len() == 0 {
        assert(s + w =~= s);
        assert(before.last() + w =~= before.last());
        assert(before.update(before.len() - 1, before.last()) =~= before);
    } else {
        let front = w.drop_last();
        assert forall|i: int| 0 <= i < front.len() implies !text::is_white(#[trigger] front[i]) by {
            assert(front[i] == w[i]);
        }
        last_piece_grows(s, front);
        assert((s + w).drop_last() =~= s + front);
        assert(!text::is_white(w[w.len() - 1]));
        assert((before.last() + front).push(w.last()) =~= before.last() + w);
        assert(text::pieces(s + w, text::Separator::White) =~= before.update(
            before.len() - 1,
            before.last() + w,
        ));
    }
}

/// Two words with a space between them are two words.
proof fn two_words(a: Seq<char>, b: Seq<char>)
    requires
        a.len() > 0,
        b.len() > 0,
        forall|i: int| 0 <= i < a.len() ==> !text::is_white(#[trigger] a[i]),
        forall|i: int| 0 <= i < b.len() ==> !text::is_white(#[trigger] b[i]),
    ensures
        text::words(a + " "@ + b) == seq![a, b],
{
    reveal_strlit(" ");
    let none = Seq::<char>::empty();
    last_piece_grows(none, a);
    assert(none + a =~= a);
    assert(text::pieces(a, text::Separator::White) =~= seq![a]);
    let mid = a + " "@;
    assert(mid.drop_last() =~= a);
    assert(mid.last() == ' ' && text::is_white(' '));
    assert(text::pieces(mid, text::Separator::White) =~= seq![a, none]);
    last_piece_grows(mid, b);
    assert(none + b =~= b);
    let all = text::pieces(mid + b, text::Separator::White);
    assert(all =~= seq![a, b]);
    reveal_with_fuel(text::nonempty, 3);
    assert(all.drop_last() =~= seq![a]);
    assert(seq![a].drop_last() =~= Seq::<Seq<char>>::empty());
    assert(text::nonempty(all) =~= seq![a, b]);
}

/// A cap that was written is read back as that cap, and a cleared one as none.
pub proof fn caps_read_back(n: u64)
    ensures
        number_in(cap_text(Some(n)), u64::MAX as nat) == Some(n as nat),
        number_in(cap_text(None), u64::MAX as nat) is None,
{
    text::decimal_reads_back(n as nat);
    digits_are_no_whitespace(text::dec(n as nat));
    assert(text::is_digit(text::dec(n as nat)[0]));
    max_is_no_number();
}

proof fn max_is_no_number()
    ensures
        text::trimmed("max"@) == "max"@,
        text::parsed("max"@, u64::MAX as nat) is None,
{
    reveal_strlit("max");
    let s = "max"@;
    assert(s.len() == 3 && s[0] == 'm' && s[1] == 'a' && s[2] == 'x');
    assert(!text::is_white('m') && !text::is_white('x'));
    assert(!text::is_digit('m'));
}

/// A CPU quota that was written for a number of millicores is read back as
/// that number, and a cleared one as none.
pub proof fn cpu_caps_read_back(m: u32)
    ensures
        millicores_in(
            cpu_text(Some(((m as int * 100) as u64, CPU_PERIOD_US))),
        ) == Some(m as int),
        millicores_in(cpu_text(None)) is None,
{
    let q = text::dec((m as int * 100) as nat);
    let p = text::dec(CPU_PERIOD_US as nat);
    text::decimal_reads_back((m as int * 100) as nat);
    text::decimal_reads_back(CPU_PERIOD_US as nat);
    digits_are_no_whitespace(q);
    digits_are_no_whitespace(p);
    two_words(q, p);
    reveal_strlit("max");
    let s = "max"@;
    assert(s.len() == 3 && s[0] == 'm' && s[1] == 'a' && s[2] == 'x');
    assert(!text::is_white('m') && !text::is_white('a') && !text::is_white('x'));
    last_piece_grows(Seq::empty(), s);
    assert(Seq::<char>::empty() + s =~= s);
    assert(text::pieces(s, text::Separator::White) =~= seq![s]);
    reveal_with_fuel(text::nonempty, 2);
    assert(seq![s].drop_last() =~= Seq::<Seq<char>>::empty());
    assert(text::words(s) =~= seq![s]);
}

// ---------------------------------------------------------------------------
// What is read, and what is written
// ---------------------------------------------------------------------------

/// A limit that was asked for is written, to its own file and as the number it
/// is; one that was not asked for is not written.
pub proof fn each_limit_goes_to_its_own_file(dir: Seq<char>, l: CgroupLimits)
    ensures
        ({
            let w = limit_writes(dir, l);
            let memory = if l.memory_max_bytes is Some {
                1int
            } else {
                0
            };
            let swap = if l.memory_swap_max_bytes is Some {
                1int
            } else {
                0
            };
            let cpu = if l.cpu_max is Some {
                1int
            } else {
                0
            };
            let pids = if l.pids_max is Some {
                1int
            } else {
                0
            };
            &&& w.len() == memory + swap + cpu + pids
            &&& l.memory_max_bytes is Some ==> w[0].path == path::joined(dir, "memory.max"@)
                && w[0].value == text::dec(l.memory_max_bytes->0 as nat)
            &&& l.memory_swap_max_bytes is Some ==> w[memory].path == path::joined(
                dir,
                "memory.swap.max"@,
            ) && w[memory].value == text::dec(l.memory_swap_max_bytes->0 as nat)
            &&& l.cpu_max is Some ==> w[memory + swap].path == path::joined(dir, "cpu.max"@)
                && w[memory + swap].value == text::dec(l.cpu_max->Some_0.0 as nat) + " "@
                + text::dec(l.cpu_max->Some_0.1 as nat)
            &&& l.pids_max is Some ==> w[memory + swap + cpu].path == path::joined(dir, "pids.max"@)
                && w[memory + swap + cpu].value == text::dec(l.pids_max->0 as nat)
        }),
{
}

/// The caps on all runs together are always written, all four of them; one
/// that was cleared is lifted.
pub proof fn a_cleared_cap_is_lifted(dir: Seq<char>, l: CgroupLimits)
    ensures
        cap_writes(dir, l).len() == 4,
        cap_writes(dir, l).map_values(|w: WriteModel| w.path) == seq![
            path::joined(dir, "memory.max"@),
            path::joined(dir, "memory.swap.max"@),
            path::joined(dir, "cpu.max"@),
            path::joined(dir, "pids.max"@),
        ],
        l.memory_max_bytes is None ==> cap_writes(dir, l)[0].value == "max"@,
        l.memory_swap_max_bytes is None ==> cap_writes(dir, l)[1].value == "max"@,
        l.cpu_max is None ==> cap_writes(dir, l)[2].value == "max"@,
        l.pids_max is None ==> cap_writes(dir, l)[3].value == "max"@,
        l.memory_max_bytes is Some ==> cap_writes(dir, l)[0].value == text::dec(
            l.memory_max_bytes->0 as nat,
        ),
        l.memory_swap_max_bytes is Some ==> cap_writes(dir, l)[1].value == text::dec(
            l.memory_swap_max_bytes->0 as nat,
        ),
        l.pids_max is Some ==> cap_writes(dir, l)[3].value == text::dec(l.pids_max->0 as nat),
{
    assert(cap_writes(dir, l).map_values(|w: WriteModel| w.path) =~= seq![
        path::joined(dir, "memory.max"@),
        path::joined(dir, "memory.swap.max"@),
        path::joined(dir, "cpu.max"@),
        path::joined(dir, "pids.max"@),
    ]);
}

/// What is switched on is what is wanted and there; what is lacking is what
/// is wanted and not on. Nothing else, and in the order it is wanted.
pub proof fn controllers_are_chosen_among_the_wanted(wanted: Seq<Seq<char>>, have: Seq<Seq<char>>)
    ensures
        enablable(wanted, have) == wanted.filter(|c: Seq<char>| have.contains(c)),
        lacking(wanted, have) == wanted.filter(|c: Seq<char>| !have.contains(c)),
    decreases wanted.len(),
{
    reveal(Seq::filter);
    if wanted.len() > 0 {
        controllers_are_chosen_among_the_wanted(wanted.drop_last(), have);
    }
}

/// A key has the value of the last line that gives it one.
pub proof fn the_last_line_with_the_key_counts(
    lines: Seq<Seq<char>>,
    key: Seq<char>,
    v: nat,
    k: int,
)
    requires
        0 <= k < lines.len(),
        kv_line(lines[k]) == Some((key, v)),
        forall|j: int|
            k < j < lines.len() ==> match kv_line(#[trigger] lines[j]) {
                Some((name, _)) => name != key,
                None => true,
            },
    ensures
        kv_value(lines, key) == Some(v),
    decreases lines.len(),
{
    if k < lines.len() - 1 {
        let front = lines.drop_last();
        assert(lines.last() == lines[lines.len() - 1]);
        assert(front[k] == lines[k]);
        assert forall|j: int| k < j < front.len() implies match kv_line(#[trigger] front[j]) {
            Some((name, _)) => name != key,
            None => true,
        } by {
            assert(front[j] == lines[j]);
        }
        the_last_line_with_the_key_counts(front, key, v, k);
    }
}

/// A key that no line gives a value has none.
pub proof fn without_a_line_there_is_no_value(lines: Seq<Seq<char>>, key: Seq<char>)
    requires
        forall|j: int|
            0 <= j < lines.len() ==> match kv_line(#[trigger] lines[j]) {
                Some((name, _)) => name != key,
                None => true,
            },
    ensures
        kv_value(lines, key) is None,
    decreases lines.len(),
{
    if lines.len() > 0 {
        let front = lines.drop_last();
        assert(lines.last() == lines[lines.len() - 1]);
        assert forall|j: int| 0 <= j < front.len() implies match kv_line(#[trigger] front[j]) {
            Some((name, _)) => name != key,
            None => true,
        } by {
            assert(front[j] == lines[j]);
        }
        without_a_line_there_is_no_value(front, key);
    }
}

/// A quota per period is so many thousandths of a core, rounded down.
pub proof fn a_core_is_a_thousand_millicores(quota: u64, period: u64)
    requires
        period > 0,
        quota * 1000 <= u64::MAX,
        quota * 1000 / period as int <= u32::MAX,
    ensures
        millicores(quota, period) * period <= quota * 1000 < (millicores(quota, period) + 1)
            * period,
{
    let scaled: int = quota * 1000;
    let p: int = period as int;
    let m = scaled / p;
    vstd::arithmetic::div_mod::lemma_fundamental_div_mod(scaled, p);
    vstd::arithmetic::div_mod::lemma_small_mod(m as nat, 0x1_0000_0000);
    assert(p * m == m * p) by (nonlinear_arith);
    assert((m + 1) * p == m * p + p) by (nonlinear_arith);
    assert(0 <= scaled % p < p) by {
        vstd::arithmetic::div_mod::lemma_mod_bound(scaled, p);
    }
}

/// The subtree in use is that of the first candidate that qualified: none
/// before it did.
pub proof fn the_first_that_qualified_is_used(tried: Seq<Tried>, k: int)
    requires
        0 <= k < tried.len(),
        tried[k].outcome is Ok,
        forall|j: int| 0 <= j < k ==> (#[trigger] tried[j]).outcome is Err,
    ensures
        first_usable(tried) == Some(k),
    decreases tried.len(),
{
    let front = tried.drop_last();
    if k < tried.len() - 1 {
        assert(front[k] == tried[k]);
        assert forall|j: int| 0 <= j < k implies (#[trigger] front[j]).outcome is Err by {
            assert(front[j] == tried[j]);
        }
        the_first_that_qualified_is_used(front, k);
    } else {
        assert forall|j: int| 0 <= j < front.len() implies (#[trigger] front[j]).outcome is Err by {
            assert(front[j] == tried[j]);
        }
        every_failure_is_named(front);
    }
}

/// Where none qualified, none is used, and each is named with its reason, in
/// the order they were tried.
pub proof fn every_failure_is_named(tried: Seq<Tried>)
    requires
        forall|j: int| 0 <= j < tried.len() ==> (#[trigger] tried[j]).outcome is Err,
    ensures
        first_usable(tried) is None,
        failures(tried) == tried.map_values(|t: Tried| t.path@ + ": "@ + t.outcome->Err_0@),
    decreases tried.len(),
{
    let f = |t: Tried| t.path@ + ": "@ + t.outcome->Err_0@;
    if tried.len() > 0 {
        let front = tried.drop_last();
        assert forall|j: int| 0 <= j < front.len() implies (#[trigger] front[j]).outcome is Err by {
            assert(front[j] == tried[j]);
        }
        every_failure_is_named(front);
        assert(tried[tried.len() - 1].outcome is Err);
        assert(failures(tried) =~= tried.map_values(f));
    }
}

/// Our own cgroup is named by the first `0::` line.
pub proof fn own_cgroup_is_on_the_first_unified_line(lines: Seq<Seq<char>>, k: int)
    requires
        0 <= k < lines.len(),
        text::starts_with(lines[k], "0::"@),
        forall|j: int| 0 <= j < k ==> !text::starts_with(#[trigger] lines[j], "0::"@),
    ensures
        own_dir(lines) == Some(
            path::joined(
                "/sys/fs/cgroup"@,
                without_leading(text::trimmed(lines[k].skip(3))),
            ),
        ),
    decreases lines.len(),
{
    let front = lines.drop_last();
    if k < lines.len() - 1 {
        assert(front[k] == lines[k]);
        assert forall|j: int| 0 <= j < k implies !text::starts_with(
            #[trigger] front[j],
            "0::"@,
        ) by {
            assert(front[j] == lines[j]);
        }
        own_cgroup_is_on_the_first_unified_line(front, k);
    } else {
        assert forall|j: int| 0 <= j < front.len() implies !text::starts_with(
            #[trigger] front[j],
            "0::"@,
        ) by {
            assert(front[j] == lines[j]);
        }
        without_a_unified_line_there_is_none(front);
    }
}

/// Without such a line it is not known.
pub proof fn without_a_unified_line_there_is_none(lines: Seq<Seq<char>>)
    requires
        forall|j: int| 0 <= j < lines.len() ==> !text::starts_with(#[trigger] lines[j], "0::"@),
    ensures
        own_dir(lines) is None,
    decreases lines.len(),
{
    if lines.len() > 0 {
        let front = lines.drop_last();
        assert(lines.last() == lines[lines.len() - 1]);
        assert forall|j: int| 0 <= j < front.len() implies !text::starts_with(
            #[trigger] front[j],
            "0::"@,
        ) by {
            assert(front[j] == lines[j]);
        }
        without_a_unified_line_there_is_none(front);
    }
}

/// A path loses its leading separators and nothing else.
pub proof fn only_leading_separators_go(s: Seq<char>, n: int)
    requires
        0 <= n <= s.len(),
        forall|j: int| 0 <= j < n ==> #[trigger] s[j] == '/',
        n < s.len() ==> s[n] != '/',
    ensures
        without_leading(s) == s.skip(n),
    decreases n,
{
    if n > 0 {
        let rest = s.skip(1);
        assert(s[0] == '/');
        assert forall|j: int| 0 <= j < n - 1 implies #[trigger] rest[j] == '/' by {
            assert(rest[j] == s[j + 1]);
        }
        if n - 1 < rest.len() {
            assert(rest[n - 1] == s[n]);
        }
        only_leading_separators_go(rest, n - 1);
        assert(rest.skip(n - 1) =~= s.skip(n));
    } else {
        assert(s.skip(0) =~= s);
    }
}

proof fn ancestors_lie_within(dir: Seq<char>, i: int)
    requires
        0 <= i < mounted_ancestors(dir).len(),
    ensures
        under_mount(mounted_ancestors(dir)[i]),
    decreases dir.len(),
{
    path::parent_shorter(dir);
    let here = if under_mount(dir) {
        seq![dir]
    } else {
        Seq::empty()
    };
    if i >= here.len() {
        let p = path::parent_of(dir)->0;
        assert(mounted_ancestors(dir) == here + mounted_ancestors(p));
        ancestors_lie_within(p, i - here.len());
    }
}

/// The explicit directory is tried first, the mount point is always among the
/// candidates, and everything else lies at or below the mount point.
pub proof fn candidates_go_from_explicit_to_the_mount(
    explicit: Option<Seq<char>>,
    own: Option<Seq<char>>,
)
    ensures
        ({
            let c = candidate_dirs(explicit, own);
            let given = explicit is Some && text::trimmed(explicit->0).len() > 0;
            let from: int = if given {
                1
            } else {
                0
            };
            &&& given ==> c[0] == explicit->0
            &&& c.contains("/sys/fs/cgroup"@)
            &&& own is Some && (path::trimmed(own->0) == "/sys/fs/cgroup"@ || text::starts_with(
                own->0,
                "/sys/fs/cgroup"@ + "/"@,
            )) ==> c[from] == own->0
            &&& forall|i: int|
                from <= i < c.len() ==> under_mount(#[trigger] c[i]) || c[i] == "/sys/fs/cgroup"@
        }),
{
    let c = candidate_dirs(explicit, own);
    let first = match explicit {
        Some(e) if text::trimmed(e).len() > 0 => seq![e],
        _ => Seq::empty(),
    };
    let tail = match own {
        Some(o) => mounted_ancestors(o),
        None => Seq::empty(),
    };
    let more = first + tail;
    if !more.contains(mount()) {
        assert(c.last() == mount());
    }
    assert forall|i: int| first.len() <= i < c.len() implies under_mount(#[trigger] c[i]) || c[i]
        == mount() by {
        if i < more.len() {
            ancestors_lie_within(own->0, i - first.len());
            assert(c[i] == tail[i - first.len()]);
        }
    }
    if own is Some {
        path::parent_shorter(own->0);
        if under_mount(own->0) {
            assert(tail[0] == own->0);
            assert(more[first.len() as int] == tail[0]);
        }
    }
}

} // verus!

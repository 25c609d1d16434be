//! One run as the supervisor sees it: what may be started, its lifecycle, and
//! the view of it that clients get.

use crate::model::boot::BootId;
use crate::model::process::ProcessIdentity;
use crate::model::run;
use crate::model::run::{
    copy_result, BackendCapabilities, Capability, CapabilityView, CleanupState, EffectiveLimits,
    Enforcement, LogState, QueueInfo, ResourceRequest, RunId, RunOutcome, RunRecord, RunResult,
    RunSpec, RunState, SessionOrigin, MAX_ENV_BYTES,
};
use crate::model::session::RuntimeSessionId;
use crate::path;
use crate::platform::cgroup;
use crate::platform::cgroup::{
    millicores_of, quota_for_millicores, Cgroup, CgroupLimits, CPU_PERIOD_US,
};
use crate::platform::pgroup::GroupUsage;
use crate::runner::scheduler;
use crate::runner::scheduler::{Limits, RejectReason};
use crate::text;
use crate::text::{copy_list, copy_opt, dec_of, dec_of_int, quoted, text_starts};
use crate::time::Duration;
use vstd::prelude::*;

verus! {

/// How often a running run re-checks its deadline and the cancel flag.
pub const TICK_MS: u64 = 100;

/// How often the group is sampled for new members, so a child that outlives
/// the leader is still identifiable before it is signaled.
pub const SAMPLE_INTERVAL_MS: u64 = 200;

/// How long to wait for the group to empty after SIGKILL before declaring
/// the cleanup incomplete.
pub const KILL_GRACE_MS: u64 = 2_000;

/// Upper bound on a single `get_run` long-poll.
pub const MAX_WAIT_MS: u64 = 60_000;

/// How often queued requests are checked for an expired queue deadline.
pub const QUEUE_TICK_MS: u64 = 250;

/// A deadline that also survives suspend: a machine that slept through its
/// timeout is overdue on the wall clock even though the monotonic clock
/// paused. A forward wall-clock jump can only make the stop earlier, never
/// later. `wall` is none where the wall clock went backwards.
pub fn elapsed(mono: Duration, wall: Option<Duration>) -> (r: Duration)
    ensures
        r@ == match wall {
            Some(w) => if mono@ >= w@ {
                mono@
            } else {
                w@
            },
            None => mono@,
        },
{
    match wall {
        Some(w) => mono.longest(w),
        None => mono,
    }
}

/// Project key used for per-project admission: the project root when known,
/// otherwise the working directory.
pub open spec fn project_of(spec: RunSpec) -> Seq<char> {
    match spec.project_root {
        Some(root) => root@,
        None => spec.cwd@,
    }
}

pub fn project_key(spec: &RunSpec) -> (r: String)
    ensures
        r@ == project_of(*spec),
{
    match &spec.project_root {
        Some(root) => root.clone(),
        None => spec.cwd.clone(),
    }
}

/// Session provenance for a run started by a caller that named a session.
pub fn caller_session(session: Option<RuntimeSessionId>) -> (r: SessionOrigin)
    ensures
        r == if session is Some {
            SessionOrigin::CallerReported
        } else {
            SessionOrigin::Unlinked
        },
{
    match session {
        Some(_) => SessionOrigin::CallerReported,
        None => SessionOrigin::Unlinked,
    }
}

// ---------------------------------------------------------------------------
// What may be started
// ---------------------------------------------------------------------------

/// A resource that a run can ask a limit for.
#[derive(Debug, Clone, Copy, PartialEq, Eq, Structural)]
pub enum Limited {
    Memory,
    Cpu,
    ProcessCount,
}

impl Limited {
    pub open spec fn name(self) -> Seq<char> {
        match self {
            Limited::Memory => "memory"@,
            Limited::Cpu => "cpu"@,
            Limited::ProcessCount => "process count"@,
        }
    }

    pub fn as_str(self) -> (r: &'static str)
        ensures
            r@ == self.name(),
    {
        match self {
            Limited::Memory => "memory",
            Limited::Cpu => "cpu",
            Limited::ProcessCount => "process count",
        }
    }
}

/// Why a run was not started.
#[derive(Debug, Clone)]
pub enum StartError {
    EmptyArgv,
    RelativeCwd,
    EnvironmentTooLarge,
    /// A hard limit that the backend cannot deliver.
    Unsupported(Limited, Capability),
    /// The key belongs to another command.
    Conflict { request_id: String, id: RunId },
    /// Admission refused it.
    Rejected(RejectReason),
}

/// The same as a model.
pub enum StartProblem {
    EmptyArgv,
    RelativeCwd,
    EnvironmentTooLarge,
    Unsupported(Limited, CapabilityView),
    Conflict { request_id: Seq<char>, id: RunId },
    Rejected(RejectReason),
}

impl View for StartError {
    type V = StartProblem;

    open spec fn view(&self) -> StartProblem {
        match self {
            StartError::EmptyArgv => StartProblem::EmptyArgv,
            StartError::RelativeCwd => StartProblem::RelativeCwd,
            StartError::EnvironmentTooLarge => StartProblem::EnvironmentTooLarge,
            StartError::Unsupported(what, c) => StartProblem::Unsupported(*what, c@),
            StartError::Conflict { request_id, id } => StartProblem::Conflict {
                request_id: request_id@,
                id: *id,
            },
            StartError::Rejected(reason) => StartProblem::Rejected(*reason),
        }
    }
}

/// What is said where admission refuses a request.
pub open spec fn reject_text(reason: RejectReason) -> Seq<char> {
    match reason {
        RejectReason::Impossible { requested, budget } => "requested "@ + text::dec(
            requested as nat,
        ) + " bytes of memory but the budget is "@ + text::dec(budget as nat),
        RejectReason::QueueFull { max_queued } => "queue is full ("@ + text::dec(max_queued as nat)
            + " waiting)"@,
    }
}

pub fn reject_message(reason: RejectReason) -> (r: String)
    ensures
        r@ == reject_text(reason),
{
    match reason {
        RejectReason::Impossible { requested, budget } => "requested ".to_owned().concat(
            dec_of(requested).as_str(),
        ).concat(" bytes of memory but the budget is ").concat(dec_of(budget).as_str()),
        RejectReason::QueueFull { max_queued } => "queue is full (".to_owned().concat(
            dec_of(max_queued as u64).as_str(),
        ).concat(" waiting)"),
    }
}

impl StartProblem {
    pub open spec fn message(self) -> Seq<char> {
        match self {
            StartProblem::EmptyArgv => "run needs a non-empty argv"@,
            StartProblem::RelativeCwd => "run cwd must be absolute"@,
            StartProblem::EnvironmentTooLarge => "run environment too large"@,
            StartProblem::Unsupported(what, c) => match c {
                CapabilityView::Monitored(note) => "hard "@ + what.name()
                    + " limit is not available on this backend; only monitoring is: "@ + note
                    + ". Ask for enforcement=monitored or drop the requirement."@,
                CapabilityView::Unavailable(why) => "hard "@ + what.name()
                    + " limit is not available on this backend: "@ + why,
                CapabilityView::Available => Seq::empty(),
            },
            StartProblem::Conflict { request_id, id } => "request_id "@ + text::quoted_text(request_id)
                + " already belongs to run "@ + text::dec_int(id.0 as int)
                + " with a different command"@,
            StartProblem::Rejected(reason) => reject_text(reason),
        }
    }
}

impl StartError {
    pub fn to_text(&self) -> (r: String)
        ensures
            r@ == self@.message(),
    {
        match self {
            StartError::EmptyArgv => "run needs a non-empty argv".to_owned(),
            StartError::RelativeCwd => "run cwd must be absolute".to_owned(),
            StartError::EnvironmentTooLarge => "run environment too large".to_owned(),
            StartError::Unsupported(what, c) => match c {
                Capability::Monitored(note) => "hard ".to_owned().concat(what.as_str()).concat(
                    " limit is not available on this backend; only monitoring is: ",
                ).concat(note.as_str()).concat(
                    ". Ask for enforcement=monitored or drop the requirement.",
                ),
                Capability::Unavailable(why) => "hard ".to_owned().concat(what.as_str()).concat(
                    " limit is not available on this backend: ",
                ).concat(why.as_str()),
                Capability::Available => {
                    let r: String = String::new();
                    assert(r@ =~= Seq::<char>::empty());
                    r
                },
            },
            StartError::Conflict { request_id, id } => "request_id ".to_owned().concat(
                quoted(request_id.as_str()).as_str(),
            ).concat(" already belongs to run ").concat(id.to_text().as_str()).concat(
                " with a different command",
            ),
            StartError::Rejected(reason) => reject_message(*reason),
        }
    }
}

/// The first hard requirement that the backend cannot deliver.
pub open spec fn unmet(res: ResourceRequest, caps: BackendCapabilities) -> Option<
    (Limited, CapabilityView),
> {
    if res.enforcement != Enforcement::Hard {
        None
    } else if res.memory_bytes is Some && caps.aggregate_memory_limit@ !is Available {
        Some((Limited::Memory, caps.aggregate_memory_limit@))
    } else if res.cpu_millicores is Some && caps.cpu_quota@ !is Available {
        Some((Limited::Cpu, caps.cpu_quota@))
    } else if res.processes is Some && caps.process_limit@ !is Available {
        Some((Limited::ProcessCount, caps.process_limit@))
    } else {
        None
    }
}

fn refused(requested: bool, capability: &Capability) -> (r: bool)
    ensures
        r == (requested && capability@ !is Available),
{
    requested && !matches!(capability, Capability::Available)
}

/// Refuse a hard requirement the backend cannot deliver, before any process
/// exists. A hard request is never silently downgraded to monitored.
pub fn check_capabilities(spec: &RunSpec, caps: &BackendCapabilities) -> (r: Result<(), StartError>)
    ensures
        match unmet(spec.resources, *caps) {
            None => r is Ok,
            Some((what, c)) => r is Err && r->Err_0@ == StartProblem::Unsupported(what, c),
        },
{
    if spec.resources.enforcement != Enforcement::Hard {
        return Ok(());
    }
    if refused(spec.resources.memory_bytes.is_some(), &caps.aggregate_memory_limit) {
        return Err(StartError::Unsupported(Limited::Memory, caps.aggregate_memory_limit.copy()));
    }
    if refused(spec.resources.cpu_millicores.is_some(), &caps.cpu_quota) {
        return Err(StartError::Unsupported(Limited::Cpu, caps.cpu_quota.copy()));
    }
    if refused(spec.resources.processes.is_some(), &caps.process_limit) {
        return Err(StartError::Unsupported(Limited::ProcessCount, caps.process_limit.copy()));
    }
    Ok(())
}

/// A hard request that passes the check has every limit that it asks for
/// enforced by the kernel.
pub proof fn hard_requests_are_never_downgraded(res: ResourceRequest, caps: BackendCapabilities)
    requires
        res.enforcement == Enforcement::Hard,
        unmet(res, caps) is None,
    ensures
        res.memory_bytes is Some ==> caps.aggregate_memory_limit@ is Available,
        res.cpu_millicores is Some ==> caps.cpu_quota@ is Available,
        res.processes is Some ==> caps.process_limit@ is Available,
{
}

/// Bytes that an environment takes: each name and value with their
/// separator and end.
pub open spec fn env_bytes(env: Seq<(String, String)>) -> nat
    decreases env.len(),
{
    if env.len() == 0 {
        0
    } else {
        env_bytes(env.drop_last()) + crate::bytes::utf8(env.last().0@).len() + crate::bytes::utf8(
            env.last().1@,
        ).len() + 2
    }
}

proof fn env_bytes_grow(env: Seq<(String, String)>, k: int)
    requires
        0 <= k <= env.len(),
    ensures
        env_bytes(env.take(k)) <= env_bytes(env),
    decreases env.len() - k,
{
    if k == env.len() {
        assert(env.take(k) =~= env);
    } else {
        assert(env.take(k + 1).drop_last() =~= env.take(k));
        env_bytes_grow(env, k + 1);
    }
}

fn env_fits(env: &Vec<(String, String)>) -> (r: bool)
    ensures
        r == (env_bytes(env@) <= MAX_ENV_BYTES),
{
    let mut total: u128 = 0;
    let mut i: usize = 0;
    assert(env@.take(0) =~= Seq::<(String, String)>::empty());
    while i < env.len()
        invariant
            i <= env.len(),
            total == env_bytes(env@.take(i as int)),
            total <= MAX_ENV_BYTES,
        decreases env.len() - i,
    {
        assert(env@.take(i + 1).drop_last() =~= env@.take(i as int));
        let k: usize = env[i].0.as_str().as_bytes().len();
        let v: usize = env[i].1.as_str().as_bytes().len();
        total = total + k as u128 + v as u128 + 2;
        proof {
            env_bytes_grow(env@, i + 1);
        }
        if total > MAX_ENV_BYTES as u128 {
            return false;
        }
        i += 1;
    }
    assert(env@.take(env@.len() as int) =~= env@);
    true
}

/// Why a request is refused before anything is recorded, if it is.
pub open spec fn start_problem(
    spec: RunSpec,
    env: Seq<(String, String)>,
    caps: BackendCapabilities,
) -> Option<StartProblem> {
    if spec.argv@.len() == 0 {
        Some(StartProblem::EmptyArgv)
    } else if !(spec.cwd@.len() > 0 && spec.cwd@[0] == '/') {
        Some(StartProblem::RelativeCwd)
    } else if env_bytes(env) > MAX_ENV_BYTES {
        Some(StartProblem::EnvironmentTooLarge)
    } else {
        match unmet(spec.resources, caps) {
            Some((what, c)) => Some(StartProblem::Unsupported(what, c)),
            None => None,
        }
    }
}

/// Whether a run may be started at all: `env` is the caller's environment,
/// held only in memory.
pub fn check_start(
    spec: &RunSpec,
    env: &Vec<(String, String)>,
    caps: &BackendCapabilities,
) -> (r: Result<(), StartError>)
    ensures
        match start_problem(*spec, env@, *caps) {
            None => r is Ok,
            Some(p) => r is Err && r->Err_0@ == p,
        },
{
    if spec.argv.len() == 0 {
        return Err(StartError::EmptyArgv);
    }
    proof {
        reveal_strlit("/");
    }
    if !text_starts(spec.cwd.as_str(), "/") {
        assert(!(spec.cwd@.len() > 0 && spec.cwd@[0] == '/')) by {
            if spec.cwd@.len() > 0 && spec.cwd@[0] == '/' {
                assert(spec.cwd@.subrange(0, 1) =~= "/"@);
            }
        }
        return Err(StartError::RelativeCwd);
    }
    assert(spec.cwd@.subrange(0, 1)[0] == '/');
    if !env_fits(env) {
        return Err(StartError::EnvironmentTooLarge);
    }
    check_capabilities(spec, caps)
}

// ---------------------------------------------------------------------------
// Limits in force
// ---------------------------------------------------------------------------

/// How a request is enforced: only a memory requirement is.
pub open spec fn enforcement_of(res: ResourceRequest) -> Enforcement {
    if res.memory_bytes is Some {
        res.enforcement
    } else {
        Enforcement::Off
    }
}

/// What the backend applies to a request, before a cgroup had its say.
pub open spec fn is_effective(e: EffectiveLimits, res: ResourceRequest) -> bool {
    &&& e.memory_bytes == res.memory_bytes
    &&& e.cpu_millicores == res.cpu_millicores
    &&& e.processes == res.processes
    &&& e.enforcement == enforcement_of(res)
    &&& text::text_of(e.metric) == if enforcement_of(res) == Enforcement::Monitored {
        Some("sum of RSS over the run's process group, sampled every 200 ms"@)
    } else {
        None
    }
    &&& e.backend@ == "process_group"@
}

/// What the backend applies to this run, as opposed to what it asked for.
pub fn effective_limits(res: &ResourceRequest) -> (r: EffectiveLimits)
    ensures
        is_effective(r, *res),
{
    let enforcement: Enforcement = if res.memory_bytes.is_some() {
        res.enforcement
    } else {
        Enforcement::Off
    };
    EffectiveLimits {
        memory_bytes: res.memory_bytes,
        cpu_millicores: res.cpu_millicores,
        processes: res.processes,
        enforcement,
        metric: if enforcement == Enforcement::Monitored {
            Some("sum of RSS over the run's process group, sampled every 200 ms".to_owned())
        } else {
            None
        },
        backend: "process_group".to_owned(),
    }
}

/// What a cgroup actually accepted, in a platform-neutral shape.
#[derive(Debug, Clone, Copy, PartialEq, Eq)]
pub struct CgroupApplied {
    pub memory_max_bytes: Option<u64>,
    pub cpu_max: Option<(u64, u64)>,
    pub pids_max: Option<u64>,
}

/// The low 32 bits of an optional number.
pub open spec fn low_bits(n: Option<u64>) -> Option<u32> {
    match n {
        Some(v) => Some((v as int % 0x1_0000_0000) as u32),
        None => None,
    }
}

/// The limits that are reported once a cgroup holds them. The kernel holds a
/// hard memory limit only; a threshold that is monitored stays what it was.
pub open spec fn is_applied(
    r: EffectiveLimits,
    e: EffectiveLimits,
    applied: Option<CgroupApplied>,
) -> bool {
    &&& r.enforcement == e.enforcement
    &&& r.metric == e.metric
    &&& match applied {
        Some(a) => {
            &&& r.backend@ == "cgroup_v2"@
            &&& r.memory_bytes == if e.enforcement == Enforcement::Hard {
                a.memory_max_bytes
            } else {
                e.memory_bytes
            }
            &&& r.cpu_millicores == match a.cpu_max {
                Some((quota, period)) => Some(cgroup::millicores(quota, period)),
                None => None,
            }
            &&& r.processes == low_bits(a.pids_max)
        },
        None => {
            &&& r.backend == e.backend
            &&& r.memory_bytes == e.memory_bytes
            &&& r.cpu_millicores == e.cpu_millicores
            &&& r.processes == e.processes
        },
    }
}

/// Names the backend that actually holds the limits, and reports what the
/// kernel accepted, not what was asked for. `applied` is none where no cgroup
/// is in use.
pub fn with_applied(e: EffectiveLimits, applied: &Option<CgroupApplied>) -> (r: EffectiveLimits)
    ensures
        is_applied(r, e, *applied),
{
    match applied {
        Some(a) => EffectiveLimits {
            memory_bytes: if e.enforcement == Enforcement::Hard {
                a.memory_max_bytes
            } else {
                e.memory_bytes
            },
            cpu_millicores: match a.cpu_max {
                Some((quota, period)) => Some(millicores_of(quota, period)),
                None => None,
            },
            processes: match a.pids_max {
                Some(v) => Some((v % 0x1_0000_0000) as u32),
                None => None,
            },
            enforcement: e.enforcement,
            metric: e.metric,
            backend: "cgroup_v2".to_owned(),
        },
        None => e,
    }
}

/// The threshold that stops a monitored run.
pub fn monitored_memory(e: &EffectiveLimits) -> (r: Option<u64>)
    ensures
        r == if e.enforcement == Enforcement::Monitored {
            e.memory_bytes
        } else {
            None
        },
{
    if e.enforcement == Enforcement::Monitored {
        e.memory_bytes
    } else {
        None
    }
}

/// The quota for a number of millicores, and its period.
pub open spec fn cpu_max_of(m: Option<u32>) -> Option<(u64, u64)> {
    match m {
        Some(v) => Some(((v * 100) as u64, CPU_PERIOD_US)),
        None => None,
    }
}

fn cpu_max(m: Option<u32>) -> (r: Option<(u64, u64)>)
    ensures
        r == cpu_max_of(m),
{
    match m {
        Some(v) => Some((quota_for_millicores(v), CPU_PERIOD_US)),
        None => None,
    }
}

pub open spec fn widened(n: Option<u32>) -> Option<u64> {
    match n {
        Some(v) => Some(v as u64),
        None => None,
    }
}

fn widen(n: Option<u32>) -> (r: Option<u64>)
    ensures
        r == widened(n),
{
    match n {
        Some(v) => Some(v as u64),
        None => None,
    }
}

/// The limits written to a run's own cgroup. Without a hard request none are:
/// the cgroup still earns its keep, since membership catches descendants that
/// leave the process group. A memory limit that swap can undo is not a hard
/// limit.
pub fn cgroup_limits(res: &ResourceRequest) -> (r: CgroupLimits)
    ensures
        res.enforcement == Enforcement::Hard ==> {
            &&& r.memory_max_bytes == res.memory_bytes
            &&& r.memory_swap_max_bytes == if res.memory_bytes is Some {
                Some(0u64)
            } else {
                None
            }
            &&& r.cpu_max == cpu_max_of(res.cpu_millicores)
            &&& r.pids_max == widened(res.processes)
        },
        res.enforcement != Enforcement::Hard ==> {
            &&& r.memory_max_bytes is None
            &&& r.memory_swap_max_bytes is None
            &&& r.cpu_max is None
            &&& r.pids_max is None
        },
{
    if res.enforcement == Enforcement::Hard {
        CgroupLimits {
            memory_max_bytes: res.memory_bytes,
            memory_swap_max_bytes: if res.memory_bytes.is_some() {
                Some(0)
            } else {
                None
            },
            cpu_max: cpu_max(res.cpu_millicores),
            pids_max: widen(res.processes),
        }
    } else {
        CgroupLimits::default()
    }
}

/// The limits of the aggregate cgroup that every run lives in: the run
/// budget, so the kernel enforces the total even if admission is bypassed.
/// Swap would let a run exceed the budget without the kernel saying so.
pub fn aggregate_limits(limits: &Limits) -> (r: CgroupLimits)
    ensures
        r.memory_max_bytes == Some(limits.memory_budget_bytes),
        r.memory_swap_max_bytes == Some(0u64),
        r.cpu_max == cpu_max_of(limits.cpu_budget_millicores),
        r.pids_max == widened(limits.pids_budget),
{
    CgroupLimits {
        memory_max_bytes: Some(limits.memory_budget_bytes),
        memory_swap_max_bytes: Some(0),
        cpu_max: cpu_max(limits.cpu_budget_millicores),
        pids_max: widen(limits.pids_budget),
    }
}

/// Name of the aggregate cgroup under the delegated subtree.
pub fn parent_cgroup_name() -> (r: &'static str)
    ensures
        r@ == "wyd.slice"@,
{
    "wyd.slice"
}

/// The name of a run's own cgroup.
pub fn run_cgroup_name(id: RunId) -> (r: String)
    ensures
        r@ == "run-"@ + text::dec_int(id.0 as int),
{
    "run-".to_owned().concat(dec_of_int(id.0).as_str())
}

/// Whether an entry of the aggregate cgroup is a run's, left behind by a
/// crashed supervisor.
pub fn is_run_cgroup(name: &str) -> (r: bool)
    ensures
        r == text::starts_with(name@, "run-"@),
{
    text_starts(name, "run-")
}

/// The run cgroups among the first `n` entries of the aggregate cgroup.
pub open spec fn stale_runs(parent: Seq<char>, names: Seq<Seq<char>>, n: nat) -> Seq<Seq<char>>
    decreases n,
{
    if n == 0 {
        Seq::empty()
    } else {
        let rest = stale_runs(parent, names, (n - 1) as nat);
        if text::starts_with(names[n - 1], "run-"@) {
            rest.push(path::joined(parent, names[n - 1]))
        } else {
            rest
        }
    }
}

/// The directories to remove, in order, of what a crashed supervisor left
/// behind: the run cgroups, then the aggregate cgroup that holds them, so that
/// a changed budget takes effect. `children` are the aggregate cgroup's
/// entries.
pub fn stale_cgroups(parent: &Cgroup, children: &Vec<String>) -> (r: Vec<String>)
    ensures
        text::texts(r@) == stale_runs(
            parent.path_view(),
            text::texts(children@),
            children@.len(),
        ).push(parent.path_view()),
{
    let ghost names = text::texts(children@);
    let mut out: Vec<String> = Vec::new();
    let mut i: usize = 0;
    assert(text::texts(out@) =~= Seq::<Seq<char>>::empty());
    while i < children.len()
        invariant
            i <= children.len(),
            names == text::texts(children@),
            text::texts(out@) == stale_runs(parent.path_view(), names, i as nat),
        decreases children.len() - i,
    {
        assert(names[i as int] == children@[i as int]@);
        if is_run_cgroup(children[i].as_str()) {
            let ghost before = text::texts(out@);
            let gone: String = path::join(parent.path(), children[i].as_str());
            let ghost g = gone@;
            out.push(gone);
            assert(text::texts(out@) =~= before.push(g));
        }
        i += 1;
    }
    let ghost before = text::texts(out@);
    let own: String = parent.path().to_owned();
    let ghost o = own@;
    out.push(own);
    assert(text::texts(out@) =~= before.push(o));
    out
}

// ---------------------------------------------------------------------------
// How a command ended
// ---------------------------------------------------------------------------

/// How the leader of a run ended, as far as the system told.
#[derive(Debug, Clone, Copy, PartialEq, Eq, Structural)]
pub enum LeaderEnd {
    /// Its exit status: the code of a command that exited, or the signal that
    /// ended it.
    Status { code: Option<i32>, signal: Option<i32> },
    /// Waiting for it failed.
    WaitFailed,
}

/// Whether a status is that of a command ended by a signal.
pub fn exit_outcome(signal: Option<i32>) -> (r: RunOutcome)
    ensures
        r == if signal is Some {
            RunOutcome::Signaled
        } else {
            RunOutcome::Exited
        },
{
    if signal.is_some() {
        RunOutcome::Signaled
    } else {
        RunOutcome::Exited
    }
}

pub open spec fn status_text(code: Option<i32>, signal: Option<i32>) -> Option<Seq<char>> {
    match (code, signal) {
        (Some(c), _) => Some("exit code "@ + text::dec_int(c as int)),
        (None, Some(s)) => Some("terminated by signal "@ + text::dec_int(s as int)),
        (None, None) => None,
    }
}

/// An exit status in words.
pub fn status_detail(code: Option<i32>, signal: Option<i32>) -> (r: Option<String>)
    ensures
        text::text_of(r) == status_text(code, signal),
{
    match (code, signal) {
        (Some(c), _) => Some("exit code ".to_owned().concat(dec_of_int(c as i64).as_str())),
        (None, Some(s)) => Some(
            "terminated by signal ".to_owned().concat(dec_of_int(s as i64).as_str()),
        ),
        (None, None) => None,
    }
}

// ---------------------------------------------------------------------------
// Lifecycle
// ---------------------------------------------------------------------------

/// The mutable state of a run.
#[derive(Debug, Clone)]
pub struct RunInner {
    pub state: RunState,
    pub cleanup: CleanupState,
    pub revision: i64,
    pub result: Option<RunResult>,
    pub pgid: Option<u32>,
    pub detail: Option<String>,
}

/// A result as a model.
pub struct ResultModel {
    pub outcome: RunOutcome,
    pub exit_code: Option<i32>,
    pub signal: Option<i32>,
    pub started_at: Option<u64>,
    pub finished_at: u64,
    pub duration_ms: u64,
    pub cleanup: CleanupState,
    pub detail: Option<Seq<char>>,
}

pub open spec fn result_model(r: RunResult) -> ResultModel {
    ResultModel {
        outcome: r.outcome,
        exit_code: r.exit_code,
        signal: r.signal,
        started_at: r.started_at,
        finished_at: r.finished_at,
        duration_ms: r.duration_ms,
        cleanup: r.cleanup,
        detail: text::text_of(r.detail),
    }
}

pub open spec fn result_view(r: Option<RunResult>) -> Option<ResultModel> {
    match r {
        Some(x) => Some(result_model(x)),
        None => None,
    }
}

/// The state of a run as a model.
pub struct InnerModel {
    pub state: RunState,
    pub cleanup: CleanupState,
    pub revision: int,
    pub result: Option<ResultModel>,
    pub pgid: Option<u32>,
    pub detail: Option<Seq<char>>,
}

impl View for RunInner {
    type V = InnerModel;

    open spec fn view(&self) -> InnerModel {
        InnerModel {
            state: self.state,
            cleanup: self.cleanup,
            revision: self.revision as int,
            result: result_view(self.result),
            pgid: self.pgid,
            detail: text::text_of(self.detail),
        }
    }
}

impl InnerModel {
    /// One step of the lifecycle; a finished run takes none.
    pub open spec fn advanced(
        self,
        state: RunState,
        cleanup: CleanupState,
        detail: Option<Seq<char>>,
    ) -> InnerModel {
        if self.state == RunState::Finished {
            self
        } else {
            InnerModel {
                state,
                cleanup,
                revision: self.revision + 1,
                detail: if detail is Some {
                    detail
                } else {
                    self.detail
                },
                ..self
            }
        }
    }

    /// The end of the lifecycle; a finished run keeps its result.
    pub open spec fn concluded(self, result: ResultModel) -> InnerModel {
        if self.state == RunState::Finished {
            self
        } else {
            InnerModel {
                state: RunState::Finished,
                cleanup: result.cleanup,
                revision: self.revision + 1,
                result: Some(result),
                ..self
            }
        }
    }
}

/// A finished run never changes again, and every other step strictly raises
/// the revision.
pub proof fn terminal_state_is_final(
    m: InnerModel,
    state: RunState,
    cleanup: CleanupState,
    detail: Option<Seq<char>>,
    result: ResultModel,
)
    ensures
        m.state == RunState::Finished ==> m.advanced(state, cleanup, detail) == m && m.concluded(
            result,
        ) == m,
        m.state != RunState::Finished ==> m.advanced(state, cleanup, detail).revision > m.revision
            && m.concluded(result).revision > m.revision,
        m.concluded(result).state == RunState::Finished,
        m.state != RunState::Finished ==> m.concluded(result).result == Some(result),
{
}

impl RunInner {
    /// Publish a transition. `false` where the run is finished already.
    pub fn transition(
        &mut self,
        state: RunState,
        cleanup: CleanupState,
        detail: Option<String>,
    ) -> (r: bool)
        requires
            old(self).revision < i64::MAX,
        ensures
            r == (old(self).state != RunState::Finished),
            final(self)@ == old(self)@.advanced(state, cleanup, text::text_of(detail)),
    {
        if self.state.is_terminal() {
            return false;
        }
        self.revision = self.revision + 1;
        self.state = state;
        self.cleanup = cleanup;
        if detail.is_some() {
            self.detail = detail;
        }
        true
    }

    /// Record the result. `false` where the run is finished already.
    pub fn finish(&mut self, result: RunResult) -> (r: bool)
        requires
            old(self).revision < i64::MAX,
        ensures
            r == (old(self).state != RunState::Finished),
            final(self)@ == old(self)@.concluded(result_model(result)),
    {
        if self.state.is_terminal() {
            return false;
        }
        self.revision = self.revision + 1;
        self.state = RunState::Finished;
        self.cleanup = result.cleanup;
        self.result = Some(result);
        true
    }
}

/// One run as the supervisor sees it: durable metadata plus live state.
#[derive(Debug, Clone)]
pub struct RunSlot {
    pub id: RunId,
    pub spec: RunSpec,
    pub inner: RunInner,
    pub cancel: bool,
    /// Identities this run may signal: every process ever observed in its
    /// group. Nothing outside this set is ever signaled.
    pub known: Vec<ProcessIdentity>,
    pub logs: LogState,
    /// Caller environment, held in memory until the run is admitted.
    pub env: Vec<(String, String)>,
    /// Logical time when the request entered the queue.
    pub queued_at: Option<Duration>,
    /// Final queue wait, where it is no longer in the queue's books.
    pub queue_wait_ms: u64,
    /// Last observed group usage, when the run is monitored.
    pub usage: Option<GroupUsage>,
    pub limit_event: Option<String>,
    /// True once the worker recorded what the backend really applied, so a
    /// later finish does not overwrite it with the request.
    pub effective_set: bool,
}

/// A run as a model.
pub struct SlotModel {
    pub id: RunId,
    pub spec: RunSpec,
    pub inner: InnerModel,
    pub cancel: bool,
    pub known: Seq<ProcessIdentity>,
    pub logs: LogState,
    pub env: Seq<(String, String)>,
    pub queued_at: Option<nat>,
    pub queue_wait_ms: u64,
    pub usage: Option<GroupUsage>,
    pub limit_event: Option<Seq<char>>,
    pub effective_set: bool,
}

impl View for RunSlot {
    type V = SlotModel;

    open spec fn view(&self) -> SlotModel {
        SlotModel {
            id: self.id,
            spec: self.spec,
            inner: self.inner@,
            cancel: self.cancel,
            known: self.known@,
            logs: self.logs,
            env: self.env@,
            queued_at: match self.queued_at {
                Some(d) => Some(d@),
                None => None,
            },
            queue_wait_ms: self.queue_wait_ms,
            usage: self.usage,
            limit_event: text::text_of(self.limit_event),
            effective_set: self.effective_set,
        }
    }
}

impl SlotModel {
    /// How long the run waited for a slot, in milliseconds.
    pub open spec fn wait_ms(self, now: nat) -> u64 {
        match self.queued_at {
            Some(since) => ((scheduler::waited(now, since) / 1_000_000) % 0x1_0000_0000_0000_0000)
                as u64,
            None => self.queue_wait_ms,
        }
    }

    /// The run once its command was started: its group and its leader are
    /// known, and the limits in force are recorded.
    pub open spec fn spawned(
        self,
        pgid: u32,
        leader: Option<ProcessIdentity>,
        now: nat,
    ) -> SlotModel {
        SlotModel {
            inner: InnerModel { pgid: Some(pgid), ..self.inner },
            known: match leader {
                Some(who) => self.known + fresh_members(self.known, seq![who]),
                None => self.known,
            },
            queue_wait_ms: self.wait_ms(now),
            effective_set: true,
            ..self
        }
    }

    /// The run after one more sample of its group.
    pub open spec fn sampled(self, seen: Seq<ProcessIdentity>, usage: GroupUsage) -> SlotModel {
        SlotModel {
            known: self.known + fresh_members(self.known, seen),
            usage: Some(usage),
            ..self
        }
    }

    /// The run after a resource limit was hit. A limit that stops the run is
    /// also what is said of it.
    pub open spec fn limited(self, event: Seq<char>, stops: bool) -> SlotModel {
        SlotModel {
            inner: if stops {
                InnerModel { detail: Some(event), ..self.inner }
            } else {
                self.inner
            },
            limit_event: Some(event),
            ..self
        }
    }

    /// A run that was just recorded.
    pub open spec fn fresh(id: RunId, spec: RunSpec, env: Seq<(String, String)>) -> SlotModel {
        SlotModel {
            id,
            spec,
            inner: InnerModel {
                state: RunState::Queued,
                cleanup: CleanupState::Pending,
                revision: 0,
                result: None,
                pgid: None,
                detail: None,
            },
            cancel: false,
            known: Seq::empty(),
            logs: LogState {
                stdout_bytes: 0,
                stderr_bytes: 0,
                stdout_truncated: false,
                stderr_truncated: false,
            },
            env,
            queued_at: None,
            queue_wait_ms: 0,
            usage: None,
            limit_event: None,
            effective_set: false,
        }
    }
}

impl RunSlot {
    pub fn new(id: RunId, spec: RunSpec, env: Vec<(String, String)>) -> (r: RunSlot)
        ensures
            r@ == SlotModel::fresh(id, spec, env@),
    {
        let r: RunSlot = RunSlot {
            id,
            spec,
            inner: RunInner {
                state: RunState::Queued,
                cleanup: CleanupState::Pending,
                revision: 0,
                result: None,
                pgid: None,
                detail: None,
            },
            cancel: false,
            known: Vec::new(),
            logs: LogState::default(),
            env,
            queued_at: None,
            queue_wait_ms: 0,
            usage: None,
            limit_event: None,
            effective_set: false,
        };
        assert(r@.known =~= Seq::<ProcessIdentity>::empty());
        r
    }

    /// Whether the slot holds a stored run, read-only.
    pub open spec fn holds(self, r: RunRecord) -> bool {
        &&& self.id == r.id
        &&& self.spec.same_as(r.spec)
        &&& self.inner@ == (InnerModel {
            state: r.state,
            cleanup: match r.result {
                Some(x) => x.cleanup,
                None => CleanupState::Unknown,
            },
            revision: r.revision as int,
            result: result_view(r.result),
            pgid: None,
            detail: match r.result {
                Some(x) => text::text_of(x.detail),
                None => None,
            },
        })
        &&& !self.cancel
        &&& self.known@.len() == 0
        &&& self.logs == r.logs
        &&& self.env@.len() == 0
        &&& self.queued_at is None
        &&& self.queue_wait_ms == r.queue_wait_ms
        &&& self.usage is None
        &&& text::text_of(self.limit_event) == text::text_of(r.limit_event)
        &&& self.effective_set
    }

    /// A read-only slot rebuilt from storage, for a finished run or one that
    /// another supervisor owns, so views and output still work.
    pub fn from_record(r: &RunRecord) -> (s: RunSlot)
        ensures
            s.holds(*r),
    {
        RunSlot {
            id: r.id,
            spec: r.spec.copy(),
            inner: RunInner {
                state: r.state,
                cleanup: match &r.result {
                    Some(x) => x.cleanup,
                    None => CleanupState::Unknown,
                },
                revision: r.revision,
                result: copy_result(&r.result),
                pgid: None,
                detail: match &r.result {
                    Some(x) => copy_opt(&x.detail),
                    None => None,
                },
            },
            cancel: false,
            known: Vec::new(),
            logs: r.logs,
            env: Vec::new(),
            queued_at: None,
            queue_wait_ms: r.queue_wait_ms,
            usage: None,
            limit_event: copy_opt(&r.limit_event),
            effective_set: true,
        }
    }

    /// How long the run waited for a slot, in milliseconds.
    pub fn queue_wait_ms(&self, now: Duration) -> (r: u64)
        ensures
            r == self@.wait_ms(now@),
    {
        match self.queued_at {
            Some(since) => now.saturating_sub(since).as_millis_u64(),
            None => self.queue_wait_ms,
        }
    }

    /// Remembers an identity seen in the run's group; `true` when it is new.
    pub fn remember(&mut self, who: ProcessIdentity) -> (r: bool)
        ensures
            r == !old(self).known@.contains(who),
            final(self)@ == (SlotModel {
                known: if old(self).known@.contains(who) {
                    old(self).known@
                } else {
                    old(self).known@.push(who)
                },
                ..old(self)@
            }),
    {
        if crate::platform::pgroup::is_known(&self.known, &who) {
            return false;
        }
        self.known.push(who);
        true
    }
}

/// The part that a member plays in its group.
pub fn member_role(who: &ProcessIdentity, pgid: u32) -> (r: &'static str)
    ensures
        r@ == if who.pid == pgid {
            "leader"@
        } else {
            "member"@
        },
{
    if who.pid == pgid {
        "leader"
    } else {
        "member"
    }
}

/// The identities that are new, each once, in the order they were seen.
pub open spec fn fresh_members(known: Seq<ProcessIdentity>, seen: Seq<ProcessIdentity>) -> Seq<
    ProcessIdentity,
>
    decreases seen.len(),
{
    if seen.len() == 0 {
        Seq::empty()
    } else {
        let rest = fresh_members(known, seen.drop_last());
        if known.contains(seen.last()) || rest.contains(seen.last()) {
            rest
        } else {
            rest.push(seen.last())
        }
    }
}

/// Records every live member of the group, so a child that outlives the
/// leader is still attributable when it is stopped. Returns those seen for
/// the first time.
pub fn sample_group(slot: &mut RunSlot, seen: &Vec<ProcessIdentity>) -> (r: Vec<ProcessIdentity>)
    ensures
        r@ == fresh_members(old(slot).known@, seen@),
        final(slot)@ == (SlotModel { known: old(slot).known@ + r@, ..old(slot)@ }),
{
    let mut r: Vec<ProcessIdentity> = Vec::new();
    let ghost start = slot@;
    let mut i: usize = 0;
    assert(seen@.take(0) =~= Seq::<ProcessIdentity>::empty());
    assert(r@ =~= Seq::<ProcessIdentity>::empty());
    assert(start.known + r@ =~= start.known);
    while i < seen.len()
        invariant
            i <= seen.len(),
            r@ == fresh_members(start.known, seen@.take(i as int)),
            slot@ == (SlotModel { known: start.known + r@, ..start }),
        decreases seen.len() - i,
    {
        assert(seen@.take(i + 1).drop_last() =~= seen@.take(i as int));
        let who: ProcessIdentity = seen[i];
        let ghost before = r@;
        proof {
            let all = start.known + before;
            if start.known.contains(who) {
                let k = choose|k: int| 0 <= k < start.known.len() && start.known[k] == who;
                assert(all[k] == who);
            }
            if before.contains(who) {
                let k = choose|k: int| 0 <= k < before.len() && before[k] == who;
                assert(all[start.known.len() + k] == who);
            }
            if all.contains(who) {
                let k = choose|k: int| 0 <= k < all.len() && all[k] == who;
                if k < start.known.len() {
                    assert(start.known[k] == who);
                } else {
                    assert(before[k - start.known.len()] == who);
                }
            }
        }
        if slot.remember(who) {
            r.push(who);
            assert((start.known + before).push(who) =~= start.known + r@);
        }
        i += 1;
    }
    assert(seen@.take(seen@.len() as int) =~= seen@);
    r
}

impl RunSlot {
    /// The command was started. Gives how long the request had waited.
    pub fn spawned(&mut self, pgid: u32, leader: Option<ProcessIdentity>, now: Duration) -> (r: u64)
        ensures
            r == old(self)@.wait_ms(now@),
            final(self)@ == old(self)@.spawned(pgid, leader, now@),
    {
        let ghost start = self@;
        let wait: u64 = self.queue_wait_ms(now);
        if let Some(who) = leader {
            let mut one: Vec<ProcessIdentity> = Vec::new();
            one.push(who);
            assert(one@ =~= seq![who]);
            sample_group(self, &one);
        }
        self.inner.pgid = Some(pgid);
        self.queue_wait_ms = wait;
        self.effective_set = true;
        assert(self@ == start.spawned(pgid, leader, now@));
        wait
    }

    /// One more sample of the group. Gives the members seen for the first
    /// time.
    pub fn sampled(&mut self, seen: &Vec<ProcessIdentity>, usage: GroupUsage) -> (r: Vec<
        ProcessIdentity,
    >)
        ensures
            r@ == fresh_members(old(self).known@, seen@),
            final(self)@ == old(self)@.sampled(seen@, usage),
    {
        let ghost start = self@;
        let r: Vec<ProcessIdentity> = sample_group(self, seen);
        self.usage = Some(usage);
        assert(self@ == start.sampled(seen@, usage));
        r
    }

    /// A resource limit was hit.
    pub fn limited(&mut self, event: &str, stops: bool)
        ensures
            final(self)@ == old(self)@.limited(event@, stops),
    {
        let ghost start = self@;
        if stops {
            self.inner.detail = Some(event.to_owned());
        }
        self.limit_event = Some(event.to_owned());
        assert(self@ == start.limited(event@, stops));
    }
}

/// Whether at least one live group member is a process this run actually
/// started (boot, pid and start time still match).
pub fn group_is_ours(slot: &RunSlot, live: &Vec<ProcessIdentity>) -> (r: bool)
    ensures
        r == crate::platform::pgroup::share_member(live@, slot.known@),
{
    crate::platform::pgroup::group_has_known_member(live, &slot.known)
}

/// A run that has recorded no process owns no group.
pub proof fn nothing_known_owns_nothing(live: Seq<ProcessIdentity>)
    ensures
        !crate::platform::pgroup::share_member(live, Seq::empty()),
{
}

// ---------------------------------------------------------------------------
// Views
// ---------------------------------------------------------------------------

/// One lifecycle event as the API shows it.
#[derive(Debug, Clone)]
pub struct EventView {
    pub revision: i64,
    pub at: u64,
    pub kind: String,
    pub detail: Option<String>,
}

/// The API-facing view of a run.
#[derive(Debug, Clone)]
pub struct RunView {
    pub run_id: String,
    pub request_id: String,
    pub argv: Vec<String>,
    pub cwd: String,
    pub project_root: Option<String>,
    pub session_id: Option<String>,
    pub state: RunState,
    pub outcome: Option<RunOutcome>,
    pub exit_code: Option<i32>,
    pub signal: Option<i32>,
    pub cleanup: CleanupState,
    pub revision: i64,
    pub created_at: u64,
    pub started_at: Option<u64>,
    pub finished_at: Option<u64>,
    pub duration_ms: Option<u64>,
    pub detail: Option<String>,
    pub logs: LogState,
    /// What the caller asked for.
    pub requested: ResourceRequest,
    /// What the backend applied. Both are reported so a refusal is visible.
    pub effective: EffectiveLimits,
    /// Queue position and wait, when the run waited for capacity.
    pub queue: QueueInfo,
    /// Last observed usage of the run's process group (monitored mode).
    pub observed_memory_bytes: Option<u64>,
    pub observed_processes: Option<usize>,
    /// Last resource limit event, e.g. the monitored threshold being crossed.
    pub limit_event: Option<String>,
    /// Identity of the supervisor that owns (or owned) the run.
    pub supervisor: Option<String>,
    pub capabilities: BackendCapabilities,
    /// Lifecycle events newer than the caller's `after_revision`, when asked
    /// for. Empty on a plain read.
    pub events: Vec<EventView>,
}

/// The text of an optional session id.
pub open spec fn session_text(id: Option<RuntimeSessionId>) -> Option<Seq<char>> {
    match id {
        Some(s) => Some(text::hex_fixed(s@ as nat, 16)),
        None => None,
    }
}

fn spell_session(id: Option<RuntimeSessionId>) -> (r: Option<String>)
    ensures
        text::text_of(r) == session_text(id),
{
    match id {
        Some(s) => Some(s.to_text()),
        None => None,
    }
}

impl RunView {
    /// What a view says of the request itself.
    pub open spec fn shows_spec(self, id: RunId, spec: RunSpec) -> bool {
        &&& self.run_id@ == text::dec_int(id.0 as int)
        &&& self.request_id@ == spec.request_id@
        &&& self.argv@ == spec.argv@
        &&& self.cwd@ == spec.cwd@
        &&& text::text_of(self.project_root) == text::text_of(spec.project_root)
        &&& text::text_of(self.session_id) == session_text(spec.session_id)
        &&& self.requested == spec.resources
    }

    /// What a view says of the result; nothing where there is none yet.
    pub open spec fn shows_result(self, r: Option<ResultModel>) -> bool {
        match r {
            Some(x) => {
                &&& self.outcome == Some(x.outcome)
                &&& self.exit_code == x.exit_code
                &&& self.signal == x.signal
                &&& self.started_at == x.started_at
                &&& self.finished_at == Some(x.finished_at)
                &&& self.duration_ms == Some(x.duration_ms)
            },
            None => {
                &&& self.outcome is None
                &&& self.exit_code is None
                &&& self.signal is None
                &&& self.started_at is None
                &&& self.finished_at is None
                &&& self.duration_ms is None
            },
        }
    }

    /// What a view says of a stored run, whether or not it is live.
    pub open spec fn shows_record(self, r: RunRecord, capabilities: BackendCapabilities) -> bool {
        &&& self.shows_spec(r.id, r.spec)
        &&& self.shows_result(result_view(r.result))
        &&& self.state == r.state
        &&& self.cleanup == match r.result {
            Some(x) => x.cleanup,
            None => CleanupState::Unknown,
        }
        &&& self.revision == r.revision
        &&& self.created_at == r.created_at
        &&& text::text_of(self.detail) == match r.result {
            Some(x) => text::text_of(x.detail),
            None => None,
        }
        &&& self.logs == r.logs
        &&& self.effective == r.effective
        &&& text::text_of(self.supervisor) == text::text_of(r.supervisor)
        &&& self.capabilities == capabilities
        &&& self.events@.len() == 0
    }

    /// What a view says of a run that nobody watches: it has no place in a
    /// queue, and nothing is observed of it.
    pub open spec fn shows_at_rest(self, r: RunRecord) -> bool {
        &&& self.queue.position is None
        &&& self.queue.waiting_ms == r.queue_wait_ms
        &&& self.queue.reason is None
        &&& self.observed_memory_bytes is None
        &&& self.observed_processes is None
        &&& text::text_of(self.limit_event) == text::text_of(r.limit_event)
    }

    /// Build a view straight from a durable record, for readers that have no
    /// supervisor. Identical to the live path except that there are no
    /// events: an event cursor is a live-supervisor concept.
    pub fn from_record(r: &RunRecord, capabilities: &BackendCapabilities) -> (v: RunView)
        ensures
            v.shows_record(*r, *capabilities),
            v.shows_at_rest(*r),
    {
        let spec: &RunSpec = &r.spec;
        RunView {
            run_id: r.id.to_text(),
            request_id: spec.request_id.clone(),
            argv: copy_list(&spec.argv),
            cwd: spec.cwd.clone(),
            project_root: copy_opt(&spec.project_root),
            session_id: spell_session(spec.session_id),
            state: r.state,
            outcome: match &r.result {
                Some(x) => Some(x.outcome),
                None => None,
            },
            exit_code: match &r.result {
                Some(x) => x.exit_code,
                None => None,
            },
            signal: match &r.result {
                Some(x) => x.signal,
                None => None,
            },
            cleanup: match &r.result {
                Some(x) => x.cleanup,
                None => CleanupState::Unknown,
            },
            revision: r.revision,
            created_at: r.created_at,
            started_at: match &r.result {
                Some(x) => x.started_at,
                None => None,
            },
            finished_at: match &r.result {
                Some(x) => Some(x.finished_at),
                None => None,
            },
            duration_ms: match &r.result {
                Some(x) => Some(x.duration_ms),
                None => None,
            },
            detail: match &r.result {
                Some(x) => copy_opt(&x.detail),
                None => None,
            },
            logs: r.logs,
            requested: spec.resources,
            effective: r.effective.copy(),
            queue: QueueInfo { position: None, waiting_ms: r.queue_wait_ms, reason: None },
            observed_memory_bytes: None,
            observed_processes: None,
            limit_event: copy_opt(&r.limit_event),
            supervisor: copy_opt(&r.supervisor),
            capabilities: capabilities.copy(),
            events: Vec::new(),
        }
    }
}

pub open spec fn usage_bytes(u: Option<GroupUsage>) -> Option<u64> {
    match u {
        Some(x) => Some(x.memory_bytes),
        None => None,
    }
}

pub open spec fn usage_processes(u: Option<GroupUsage>) -> Option<usize> {
    match u {
        Some(x) => Some(x.processes),
        None => None,
    }
}

/// What a view shows of a live run beyond what storage knows.
pub open spec fn shows_live(v: RunView, m: SlotModel, now: nat, position: Option<usize>) -> bool {
    &&& v.queue.position == position
    &&& v.queue.waiting_ms == m.wait_ms(now)
    &&& text::text_of(v.queue.reason) == m.inner.detail
    &&& v.observed_memory_bytes == usage_bytes(m.usage)
    &&& v.observed_processes == usage_processes(m.usage)
    &&& text::text_of(v.limit_event) == m.limit_event
}

impl RunSlot {
    /// What a view says of a live run. What the backend applied is in the
    /// row once it was recorded there.
    pub open spec fn shown_by(
        self,
        v: RunView,
        row: Option<RunRecord>,
        capabilities: BackendCapabilities,
    ) -> bool {
        &&& v.shows_spec(self.id, self.spec)
        &&& v.shows_result(result_view(self.inner.result))
        &&& v.state == self.inner.state
        &&& v.cleanup == self.inner.cleanup
        &&& v.revision == self.inner.revision
        &&& v.created_at == match row {
            Some(i) => i.created_at,
            None => 0,
        }
        &&& text::text_of(v.supervisor) == match row {
            Some(i) => text::text_of(i.supervisor),
            None => None,
        }
        &&& text::text_of(v.detail) == match result_view(self.inner.result) {
            Some(x) => if x.detail is Some {
                x.detail
            } else {
                self.inner@.detail
            },
            None => self.inner@.detail,
        }
        &&& v.logs == self.logs
        &&& if self.effective_set && row is Some {
            v.effective == row->Some_0.effective
        } else {
            is_effective(v.effective, self.spec.resources)
        }
        &&& v.capabilities == capabilities
    }

    /// The view of a live run. `row` is what the store says of it, if
    /// anything; `position` its place in the queue.
    pub fn show(
        &self,
        now: Duration,
        position: Option<usize>,
        row: &Option<RunRecord>,
        capabilities: &BackendCapabilities,
        events: Vec<EventView>,
    ) -> (v: RunView)
        ensures
            self.shown_by(v, *row, *capabilities),
            shows_live(v, self@, now@, position),
            v.events == events,
    {
        let spec: &RunSpec = &self.spec;
        let result: &Option<RunResult> = &self.inner.result;
        let own_detail: Option<String> = match result {
            Some(x) => copy_opt(&x.detail),
            None => None,
        };
        RunView {
            run_id: self.id.to_text(),
            request_id: spec.request_id.clone(),
            argv: copy_list(&spec.argv),
            cwd: spec.cwd.clone(),
            project_root: copy_opt(&spec.project_root),
            session_id: spell_session(spec.session_id),
            state: self.inner.state,
            outcome: match result {
                Some(x) => Some(x.outcome),
                None => None,
            },
            exit_code: match result {
                Some(x) => x.exit_code,
                None => None,
            },
            signal: match result {
                Some(x) => x.signal,
                None => None,
            },
            cleanup: self.inner.cleanup,
            revision: self.inner.revision,
            created_at: match row {
                Some(i) => i.created_at,
                None => 0,
            },
            started_at: match result {
                Some(x) => x.started_at,
                None => None,
            },
            finished_at: match result {
                Some(x) => Some(x.finished_at),
                None => None,
            },
            duration_ms: match result {
                Some(x) => Some(x.duration_ms),
                None => None,
            },
            detail: if own_detail.is_some() {
                own_detail
            } else {
                copy_opt(&self.inner.detail)
            },
            logs: self.logs,
            requested: spec.resources,
            effective: match row {
                Some(i) => if self.effective_set {
                    i.effective.copy()
                } else {
                    effective_limits(&spec.resources)
                },
                None => effective_limits(&spec.resources),
            },
            queue: QueueInfo {
                position,
                waiting_ms: self.queue_wait_ms(now),
                reason: copy_opt(&self.inner.detail),
            },
            observed_memory_bytes: match self.usage {
                Some(u) => Some(u.memory_bytes),
                None => None,
            },
            observed_processes: match self.usage {
                Some(u) => Some(u.processes),
                None => None,
            },
            limit_event: copy_opt(&self.limit_event),
            supervisor: match row {
                Some(i) => copy_opt(&i.supervisor),
                None => None,
            },
            capabilities: capabilities.copy(),
            events,
        }
    }

    /// Merges the live-only fields (observed usage, queue position, limit
    /// event) into a view built from storage.
    pub fn merge_into(&self, view: RunView, now: Duration, position: Option<usize>) -> (v: RunView)
        ensures
            shows_live(v, self@, now@, position),
            v == (RunView {
                queue: v.queue,
                observed_memory_bytes: v.observed_memory_bytes,
                observed_processes: v.observed_processes,
                limit_event: v.limit_event,
                ..view
            }),
    {
        let mut v: RunView = view;
        v.queue = QueueInfo {
            position,
            waiting_ms: self.queue_wait_ms(now),
            reason: copy_opt(&self.inner.detail),
        };
        v.observed_memory_bytes = match self.usage {
            Some(u) => Some(u.memory_bytes),
            None => None,
        };
        v.observed_processes = match self.usage {
            Some(u) => Some(u.processes),
            None => None,
        };
        v.limit_event = copy_opt(&self.limit_event);
        v
    }
}

/// A run that was loaded from storage is shown as a reader of the storage
/// shows it: a reader needs no supervisor.
pub proof fn a_loaded_run_is_shown_as_stored(
    s: RunSlot,
    r: RunRecord,
    v: RunView,
    now: nat,
    capabilities: BackendCapabilities,
)
    requires
        s.holds(r),
        s.shown_by(v, Some(r), capabilities),
        shows_live(v, s@, now, None),
        v.events@.len() == 0,
    ensures
        v.shows_record(r, capabilities),
        v.queue.position is None,
        v.queue.waiting_ms == r.queue_wait_ms,
        v.observed_memory_bytes is None,
        v.observed_processes is None,
        text::text_of(v.limit_event) == text::text_of(r.limit_event),
{
}

// ---------------------------------------------------------------------------
// Recovery
// ---------------------------------------------------------------------------

/// Whether an unfinished run was started during this boot.
pub fn is_same_boot(leader: &Option<ProcessIdentity>, boot: &BootId) -> (r: bool)
    ensures
        r == match leader {
            Some(l) => l.boot_id == *boot,
            None => false,
        },
{
    match leader {
        Some(l) => l.boot_id == *boot,
        None => false,
    }
}

/// What is said of a run whose supervisor is gone.
pub open spec fn lost_detail(same_boot: bool, signaled: nat, survivors: nat) -> Seq<char> {
    if same_boot {
        "supervisor lost; reaped "@ + text::dec(signaled) + " orphaned group(s), "@ + text::dec(
            survivors,
        ) + " survivor(s)"@
    } else {
        "supervisor lost before the machine rebooted; processes cannot be attributed"@
    }
}

/// The result of an unfinished run left behind by a dead supervisor, never
/// with a guessed exit code.
pub open spec fn lost_result(
    record: RunRecord,
    same_boot: bool,
    signaled: nat,
    survivors: nat,
    now: u64,
) -> ResultModel {
    ResultModel {
        outcome: RunOutcome::SupervisorLost,
        exit_code: None,
        signal: None,
        started_at: match record.result {
            Some(r) => r.started_at,
            None => None,
        },
        finished_at: now,
        duration_ms: 0,
        cleanup: if !same_boot {
            CleanupState::Unknown
        } else if survivors == 0 {
            CleanupState::Complete
        } else {
            CleanupState::Incomplete
        },
        detail: Some(lost_detail(same_boot, signaled, survivors)),
    }
}

/// Finishes an unfinished run left behind by a dead supervisor: `signaled`
/// groups were stopped and `survivors` of its processes are still there.
/// Gives the new revision and the result.
pub fn recover(
    record: &RunRecord,
    same_boot: bool,
    signaled: usize,
    survivors: usize,
    now: u64,
) -> (r: (i64, RunResult))
    requires
        record.revision < i64::MAX,
    ensures
        r.0 == record.revision + 1,
        result_model(r.1) == lost_result(
            *record,
            same_boot,
            signaled as nat,
            survivors as nat,
            now,
        ),
{
    let detail: String = if same_boot {
        "supervisor lost; reaped ".to_owned().concat(dec_of(signaled as u64).as_str()).concat(
            " orphaned group(s), ",
        ).concat(dec_of(survivors as u64).as_str()).concat(" survivor(s)")
    } else {
        "supervisor lost before the machine rebooted; processes cannot be attributed".to_owned()
    };
    (
        record.revision + 1,
        RunResult {
            outcome: RunOutcome::SupervisorLost,
            exit_code: None,
            signal: None,
            started_at: match &record.result {
                Some(r) => r.started_at,
                None => None,
            },
            finished_at: now,
            duration_ms: 0,
            cleanup: if !same_boot {
                CleanupState::Unknown
            } else if survivors == 0 {
                CleanupState::Complete
            } else {
                CleanupState::Incomplete
            },
            detail: Some(detail),
        },
    )
}

/// One process of the table that recovery reads.
#[derive(Debug, Clone, Copy, PartialEq, Eq, Structural)]
pub struct TableEntry {
    pub pid: u32,
    pub start: Option<u64>,
    pub pgid: Option<u32>,
}

/// The start time that the table gives for a pid.
pub open spec fn start_of(table: Seq<TableEntry>, pid: u32) -> Option<u64>
    decreases table.len(),
{
    if table.len() == 0 {
        None
    } else if table.last().pid == pid {
        table.last().start
    } else {
        start_of(table.drop_last(), pid)
    }
}

/// The group that the table gives for a pid; the pid itself where the table
/// does not tell.
pub open spec fn group_of(table: Seq<TableEntry>, pid: u32) -> u32
    decreases table.len(),
{
    if table.len() == 0 {
        pid
    } else if table.last().pid == pid {
        match table.last().pgid {
            Some(g) => g,
            None => pid,
        }
    } else {
        group_of(table.drop_last(), pid)
    }
}

/// Whether an identity still names the same live process.
pub open spec fn still_holds(table: Seq<TableEntry>, i: ProcessIdentity) -> bool {
    crate::platform::pgroup::live_identity(i.boot_id, i.pid, start_of(table, i.pid)) == Some(i)
}

/// Whether the entry at `k` is a member of a group that is on record.
pub open spec fn on_record(
    table: Seq<TableEntry>,
    k: int,
    pgid: u32,
    boot: BootId,
    known: Seq<ProcessIdentity>,
) -> bool {
    &&& table[k].pgid == Some(pgid)
    &&& match crate::platform::pgroup::live_identity(boot, table[k].pid, table[k].start) {
        Some(id) => known.contains(id),
        None => false,
    }
}

/// Whether some live member of a group is on record.
pub open spec fn has_recorded_member(
    table: Seq<TableEntry>,
    pgid: u32,
    boot: BootId,
    known: Seq<ProcessIdentity>,
) -> bool {
    exists|k: int| 0 <= k < table.len() && #[trigger] on_record(table, k, pgid, boot, known)
}

/// The groups to stop: those of recorded processes that are still alive and
/// that hold a member which can be verified, each once.
pub open spec fn recovery_targets(
    known: Seq<ProcessIdentity>,
    all: Seq<ProcessIdentity>,
    table: Seq<TableEntry>,
    boot: BootId,
) -> Seq<u32>
    decreases known.len(),
{
    if known.len() == 0 {
        Seq::empty()
    } else {
        let rest = recovery_targets(known.drop_last(), all, table, boot);
        let g = group_of(table, known.last().pid);
        if still_holds(table, known.last()) && has_recorded_member(table, g, boot, all)
            && !rest.contains(g) {
            rest.push(g)
        } else {
            rest
        }
    }
}

fn start_in(table: &Vec<TableEntry>, pid: u32) -> (r: Option<u64>)
    ensures
        r == start_of(table@, pid),
{
    let mut i: usize = table.len();
    assert(table@.take(table@.len() as int) =~= table@);
    while i > 0
        invariant
            i <= table.len(),
            start_of(table@, pid) == start_of(table@.take(i as int), pid),
        decreases i,
    {
        assert(table@.take(i as int).drop_last() =~= table@.take(i - 1));
        assert(table@.take(i as int).last() == table@[i - 1]);
        if table[i - 1].pid == pid {
            return table[i - 1].start;
        }
        i -= 1;
    }
    None
}

fn group_in(table: &Vec<TableEntry>, pid: u32) -> (r: u32)
    ensures
        r == group_of(table@, pid),
{
    let mut i: usize = table.len();
    assert(table@.take(table@.len() as int) =~= table@);
    while i > 0
        invariant
            i <= table.len(),
            group_of(table@, pid) == group_of(table@.take(i as int), pid),
        decreases i,
    {
        assert(table@.take(i as int).drop_last() =~= table@.take(i - 1));
        assert(table@.take(i as int).last() == table@[i - 1]);
        if table[i - 1].pid == pid {
            return match table[i - 1].pgid {
                Some(g) => g,
                None => pid,
            };
        }
        i -= 1;
    }
    pid
}

fn recorded_member(
    table: &Vec<TableEntry>,
    pgid: u32,
    boot: &BootId,
    known: &Vec<ProcessIdentity>,
) -> (r: bool)
    ensures
        r == has_recorded_member(table@, pgid, *boot, known@),
{
    let mut i: usize = 0;
    while i < table.len()
        invariant
            i <= table.len(),
            forall|k: int| 0 <= k < i ==> !#[trigger] on_record(table@, k, pgid, *boot, known@),
        decreases table.len() - i,
    {
        let e: TableEntry = table[i];
        if e.pgid == Some(pgid) {
            if let Some(id) = crate::platform::pgroup::identity_of_pid(e.pid, e.start, boot) {
                if crate::platform::pgroup::is_known(known, &id) {
                    assert(on_record(table@, i as int, pgid, *boot, known@));
                    return true;
                }
            }
        }
        assert(!on_record(table@, i as int, pgid, *boot, known@));
        i += 1;
    }
    false
}

fn holds_pid(list: &Vec<u32>, g: u32) -> (r: bool)
    ensures
        r == list@.contains(g),
{
    let mut i: usize = 0;
    while i < list.len()
        invariant
            i <= list.len(),
            forall|k: int| 0 <= k < i ==> list@[k] != g,
        decreases list.len() - i,
    {
        if list[i] == g {
            return true;
        }
        i += 1;
    }
    false
}

/// The process groups of a lost run that may be signaled: only groups with a
/// verifiable member ever are.
pub fn recovery_groups(
    known: &Vec<ProcessIdentity>,
    table: &Vec<TableEntry>,
    boot: &BootId,
) -> (r: Vec<u32>)
    ensures
        r@ == recovery_targets(known@, known@, table@, *boot),
{
    let mut r: Vec<u32> = Vec::new();
    let mut i: usize = 0;
    assert(known@.take(0) =~= Seq::<ProcessIdentity>::empty());
    assert(r@ =~= Seq::<u32>::empty());
    while i < known.len()
        invariant
            i <= known.len(),
            r@ == recovery_targets(known@.take(i as int), known@, table@, *boot),
        decreases known.len() - i,
    {
        assert(known@.take(i + 1).drop_last() =~= known@.take(i as int));
        let who: ProcessIdentity = known[i];
        if crate::platform::pgroup::identity_holds(&who, start_in(table, who.pid)) {
            let g: u32 = group_in(table, who.pid);
            if recorded_member(table, g, boot, known) && !holds_pid(&r, g) {
                r.push(g);
            }
        }
        i += 1;
    }
    assert(known@.take(known@.len() as int) =~= known@);
    r
}

/// How many recorded processes are still alive.
pub open spec fn survivors(known: Seq<ProcessIdentity>, table: Seq<TableEntry>) -> nat
    decreases known.len(),
{
    if known.len() == 0 {
        0
    } else {
        survivors(known.drop_last(), table) + if still_holds(table, known.last()) {
            1nat
        } else {
            0
        }
    }
}

/// How many recorded processes are still alive.
pub fn count_survivors(known: &Vec<ProcessIdentity>, table: &Vec<TableEntry>) -> (r: usize)
    ensures
        r == survivors(known@, table@),
{
    let mut r: usize = 0;
    let mut i: usize = 0;
    assert(known@.take(0) =~= Seq::<ProcessIdentity>::empty());
    while i < known.len()
        invariant
            i <= known.len(),
            r <= i,
            r == survivors(known@.take(i as int), table@),
        decreases known.len() - i,
    {
        assert(known@.take(i + 1).drop_last() =~= known@.take(i as int));
        let who: ProcessIdentity = known[i];
        if crate::platform::pgroup::identity_holds(&who, start_in(table, who.pid)) {
            r += 1;
        }
        i += 1;
    }
    assert(known@.take(known@.len() as int) =~= known@);
    r
}

/// Recovery signals no group without a live process that the lost run
/// recorded, and none twice.
pub proof fn recovery_signals_only_recorded_groups(
    known: Seq<ProcessIdentity>,
    all: Seq<ProcessIdentity>,
    table: Seq<TableEntry>,
    boot: BootId,
)
    ensures
        forall|i: int|
            0 <= i < recovery_targets(known, all, table, boot).len() ==> has_recorded_member(
                table,
                #[trigger] recovery_targets(known, all, table, boot)[i],
                boot,
                all,
            ),
        recovery_targets(known, all, table, boot).no_duplicates(),
    decreases known.len(),
{
    if known.len() > 0 {
        let rest = recovery_targets(known.drop_last(), all, table, boot);
        recovery_signals_only_recorded_groups(known.drop_last(), all, table, boot);
        let r = recovery_targets(known, all, table, boot);
        assert forall|i: int| 0 <= i < r.len() implies has_recorded_member(
            table,
            #[trigger] r[i],
            boot,
            all,
        ) by {
            if i < rest.len() {
                assert(r[i] == rest[i]);
            }
        }
        assert(r.no_duplicates());
    }
}

/// Runs older than this moment are dropped, rows and log directories both.
pub fn prune_before(now: u64) -> (r: u64)
    ensures
        r as int == if now >= run::RUN_RETENTION_SECS {
            now - run::RUN_RETENTION_SECS
        } else {
            0
        },
{
    if now >= run::RUN_RETENTION_SECS {
        now - run::RUN_RETENTION_SECS
    } else {
        0
    }
}

/// What of a run `get` waits for: a revision newer than `after`, or the end.
pub fn should_wait(inner: &RunInner, after: Option<i64>, wait_ms: u64) -> (r: Option<u64>)
    ensures
        match r {
            Some(ms) => {
                &&& after is Some
                &&& inner.revision <= after->0
                &&& inner.state != RunState::Finished
                &&& wait_ms > 0
                &&& ms == if wait_ms <= MAX_WAIT_MS {
                    wait_ms
                } else {
                    MAX_WAIT_MS
                }
            },
            None => after is None || inner.revision > after->0 || inner.state == RunState::Finished
                || wait_ms == 0,
        },
{
    match after {
        Some(a) => if inner.revision <= a && !inner.state.is_terminal() && wait_ms > 0 {
            Some(
                if wait_ms <= MAX_WAIT_MS {
                    wait_ms
                } else {
                    MAX_WAIT_MS
                },
            )
        } else {
            None
        },
        None => None,
    }
}

// ---------------------------------------------------------------------------
// Laws
// ---------------------------------------------------------------------------

/// What keeps a run from being started, in this order: an empty command, a
/// directory that is not absolute, an environment of more than 256 KiB with
/// two bytes for each variable, and a hard limit that the backend cannot
/// enforce.
pub proof fn start_is_refused_for_the_first_problem(
    spec: RunSpec,
    env: Seq<(String, String)>,
    caps: BackendCapabilities,
)
    ensures
        ({
            let p = start_problem(spec, env, caps);
            let command = spec.argv@.len() > 0;
            let absolute = spec.cwd@.len() > 0 && spec.cwd@[0] == '/';
            let small = env_bytes(env) <= 262_144;
            let res = spec.resources;
            let hard = res.enforcement == Enforcement::Hard;
            let memory = hard && res.memory_bytes is Some && caps.aggregate_memory_limit@
                !is Available;
            let cpu = hard && res.cpu_millicores is Some && caps.cpu_quota@ !is Available;
            let count = hard && res.processes is Some && caps.process_limit@ !is Available;
            &&& p is None <==> command && absolute && small && !memory && !cpu && !count
            &&& !command ==> p == Some(StartProblem::EmptyArgv)
            &&& command && !absolute ==> p == Some(StartProblem::RelativeCwd)
            &&& command && absolute && !small ==> p == Some(StartProblem::EnvironmentTooLarge)
            &&& command && absolute && small && memory ==> p == Some(
                StartProblem::Unsupported(Limited::Memory, caps.aggregate_memory_limit@),
            )
            &&& command && absolute && small && !memory && cpu ==> p == Some(
                StartProblem::Unsupported(Limited::Cpu, caps.cpu_quota@),
            )
            &&& command && absolute && small && !memory && !cpu && count ==> p == Some(
                StartProblem::Unsupported(Limited::ProcessCount, caps.process_limit@),
            )
        }),
{
}

/// An environment takes the bytes of its names and values, and two more for
/// each.
pub proof fn environment_is_counted_in_bytes(env: Seq<(String, String)>)
    ensures
        env_bytes(env) == env.fold_left(
            0nat,
            |n: nat, e: (String, String)|
                n + crate::bytes::utf8(e.0@).len() + crate::bytes::utf8(e.1@).len() + 2,
        ),
    decreases env.len(),
{
    if env.len() > 0 {
        environment_is_counted_in_bytes(env.drop_last());
    }
}

/// One step of an unfinished run sets its state and its cleanup, raises the
/// revision by one, replaces the detail only where there is a new one, and
/// leaves result and group alone.
pub proof fn a_step_publishes_the_state(
    m: InnerModel,
    state: RunState,
    cleanup: CleanupState,
    detail: Option<Seq<char>>,
)
    requires
        m.state != RunState::Finished,
    ensures
        ({
            let n = m.advanced(state, cleanup, detail);
            &&& n.state == state
            &&& n.cleanup == cleanup
            &&& n.revision == m.revision + 1
            &&& detail is Some ==> n.detail == detail
            &&& detail is None ==> n.detail == m.detail
            &&& n.result == m.result
            &&& n.pgid == m.pgid
        }),
{
}

/// The end of an unfinished run records the result as it is, takes over its
/// cleanup and raises the revision by one.
pub proof fn the_end_records_the_result(m: InnerModel, result: ResultModel)
    requires
        m.state != RunState::Finished,
    ensures
        ({
            let n = m.concluded(result);
            &&& n.state == RunState::Finished
            &&& n.result == Some(result)
            &&& n.cleanup == result.cleanup
            &&& n.revision == m.revision + 1
            &&& n.detail == m.detail
            &&& n.pgid == m.pgid
        }),
{
}

/// What is new of a group is what was seen and is not on record, each once.
pub proof fn new_members_are_those_not_on_record(
    known: Seq<ProcessIdentity>,
    seen: Seq<ProcessIdentity>,
)
    ensures
        fresh_members(known, seen).no_duplicates(),
        forall|id: ProcessIdentity|
            #[trigger] fresh_members(known, seen).contains(id) <==> seen.contains(id)
                && !known.contains(id),
    decreases seen.len(),
{
    if seen.len() > 0 {
        let front = seen.drop_last();
        let last = seen.last();
        let rest = fresh_members(known, front);
        let all = fresh_members(known, seen);
        new_members_are_those_not_on_record(known, front);
        assert forall|id: ProcessIdentity| #[trigger] all.contains(id) <==> seen.contains(id)
            && !known.contains(id) by {
            if all.contains(id) {
                let k = choose|k: int| 0 <= k < all.len() && all[k] == id;
                if k < rest.len() {
                    assert(rest[k] == id);
                    assert(rest.contains(id));
                    let j = choose|j: int| 0 <= j < front.len() && front[j] == id;
                    assert(seen[j] == id);
                } else {
                    assert(seen[seen.len() - 1] == id);
                }
            }
            if seen.contains(id) && !known.contains(id) {
                let j = choose|j: int| 0 <= j < seen.len() && seen[j] == id;
                if j < front.len() {
                    assert(front[j] == id);
                    assert(rest.contains(id));
                }
                if rest.contains(id) {
                    let k = choose|k: int| 0 <= k < rest.len() && rest[k] == id;
                    assert(all[k] == id);
                } else {
                    assert(all[rest.len() as int] == id);
                }
            }
        }
    }
}

/// After a sample every process that was seen is on record, together with
/// everything that was, and the usage is the one that was measured.
pub proof fn a_sample_records_everyone(
    m: SlotModel,
    seen: Seq<ProcessIdentity>,
    usage: GroupUsage,
    id: ProcessIdentity,
)
    ensures
        ({
            let n = m.sampled(seen, usage);
            &&& n.known.contains(id) <==> m.known.contains(id) || seen.contains(id)
            &&& n.usage == Some(usage)
            &&& n.inner == m.inner
            &&& n.id == m.id
        }),
{
    let fresh = fresh_members(m.known, seen);
    let n = m.sampled(seen, usage);
    new_members_are_those_not_on_record(m.known, seen);
    joined_lists(m.known, fresh, id);
    assert(n.known == m.known + fresh);
}

proof fn joined_lists(a: Seq<ProcessIdentity>, b: Seq<ProcessIdentity>, id: ProcessIdentity)
    ensures
        (a + b).contains(id) <==> a.contains(id) || b.contains(id),
{
    if (a + b).contains(id) {
        let k = choose|k: int| 0 <= k < (a + b).len() && (a + b)[k] == id;
        if k < a.len() {
            assert(a[k] == id);
        } else {
            assert(b[k - a.len()] == id);
        }
    }
    if a.contains(id) {
        let k = choose|k: int| 0 <= k < a.len() && a[k] == id;
        assert((a + b)[k] == id);
    }
    if b.contains(id) {
        let k = choose|k: int| 0 <= k < b.len() && b[k] == id;
        assert((a + b)[a.len() + k] == id);
    }
}

/// A run whose command was started knows its group and its leader, and its
/// wait for a slot is over; a limit that stops it is what is said of it.
pub proof fn a_started_run_knows_its_group(
    m: SlotModel,
    pgid: u32,
    leader: ProcessIdentity,
    now: nat,
    event: Seq<char>,
    stops: bool,
)
    ensures
        ({
            let n = m.spawned(pgid, Some(leader), now);
            &&& n.inner.pgid == Some(pgid)
            &&& n.known.contains(leader)
            &&& n.effective_set
            &&& n.inner.state == m.inner.state
            &&& m.queued_at is Some && now >= m.queued_at->0 && (now - m.queued_at->0) / 1_000_000
                <= u64::MAX ==> n.queue_wait_ms == (now - m.queued_at->0) / 1_000_000
            &&& m.queued_at is None ==> n.queue_wait_ms == m.queue_wait_ms
        }),
        m.limited(event, stops).limit_event == Some(event),
        m.limited(event, true).inner.detail == Some(event),
        m.limited(event, false).inner == m.inner,
{
    let one = seq![leader];
    assert(one[0] == leader);
    new_members_are_those_not_on_record(m.known, one);
    joined_lists(m.known, fresh_members(m.known, one), leader);
}

/// A view of a stored run carries the request and the result as they are
/// stored; without a result it carries none.
pub proof fn view_carries_the_stored_result(
    v: RunView,
    r: RunRecord,
    capabilities: BackendCapabilities,
)
    requires
        v.shows_record(r, capabilities),
    ensures
        v.run_id@ == text::dec_int(r.id.0 as int),
        v.request_id@ == r.spec.request_id@,
        v.argv@ == r.spec.argv@,
        v.cwd@ == r.spec.cwd@,
        v.requested == r.spec.resources,
        v.effective == r.effective,
        v.state == r.state,
        v.revision == r.revision,
        v.created_at == r.created_at,
        v.logs == r.logs,
        r.result is Some ==> {
            let x = r.result->0;
            &&& v.outcome == Some(x.outcome)
            &&& v.exit_code == x.exit_code
            &&& v.signal == x.signal
            &&& v.started_at == x.started_at
            &&& v.finished_at == Some(x.finished_at)
            &&& v.duration_ms == Some(x.duration_ms)
            &&& v.cleanup == x.cleanup
            &&& text::text_of(v.detail) == text::text_of(x.detail)
        },
        r.result is None ==> v.outcome is None && v.exit_code is None && v.signal is None
            && v.finished_at is None && v.duration_ms is None && v.detail is None,
{
}

/// A view of a live run carries its state, its result and what is observed of
/// it; what is said of it is the result's detail, or else its own.
pub proof fn view_carries_the_live_state(
    s: RunSlot,
    v: RunView,
    row: Option<RunRecord>,
    capabilities: BackendCapabilities,
    now: nat,
    position: Option<usize>,
)
    requires
        s.shown_by(v, row, capabilities),
        shows_live(v, s@, now, position),
    ensures
        v.run_id@ == text::dec_int(s.id.0 as int),
        v.state == s.inner.state,
        v.cleanup == s.inner.cleanup,
        v.revision == s.inner.revision,
        v.logs == s.logs,
        v.queue.position == position,
        s.usage is Some ==> v.observed_memory_bytes == Some(s.usage->0.memory_bytes)
            && v.observed_processes == Some(s.usage->0.processes),
        s.usage is None ==> v.observed_memory_bytes is None && v.observed_processes is None,
        text::text_of(v.limit_event) == text::text_of(s.limit_event),
        s.inner.result is Some ==> v.outcome == Some(s.inner.result->0.outcome) && v.exit_code
            == s.inner.result->0.exit_code && v.signal == s.inner.result->0.signal && v.duration_ms
            == Some(s.inner.result->0.duration_ms),
        s.inner.result is None ==> v.outcome is None && text::text_of(v.detail) == text::text_of(
            s.inner.detail,
        ),
        s.inner.result is Some && s.inner.result->0.detail is Some ==> text::text_of(v.detail)
            == text::text_of(s.inner.result->0.detail),
        row is Some && s.effective_set ==> v.effective == row->0.effective,
{
}

/// A run that lost its supervisor is finished as such, with no code and no
/// signal made up, and with a complete cleanup only where the machine was not
/// rebooted since and none of its processes is left.
pub proof fn a_lost_run_gets_no_status(
    record: RunRecord,
    same_boot: bool,
    signaled: nat,
    left: nat,
    now: u64,
)
    ensures
        ({
            let r = lost_result(record, same_boot, signaled, left, now);
            &&& r.outcome == RunOutcome::SupervisorLost
            &&& r.exit_code is None
            &&& r.signal is None
            &&& r.finished_at == now
            &&& r.cleanup == CleanupState::Complete <==> same_boot && left == 0
            &&& r.cleanup == CleanupState::Incomplete <==> same_boot && left > 0
            &&& r.cleanup == CleanupState::Unknown <==> !same_boot
            &&& same_boot ==> r.detail == Some(
                "supervisor lost; reaped "@ + text::dec(signaled) + " orphaned group(s), "@
                    + text::dec(left) + " survivor(s)"@,
            )
        }),
{
}

proof fn table_gives_the_last_entry(table: Seq<TableEntry>, pid: u32, k: int)
    requires
        0 <= k < table.len(),
        table[k].pid == pid,
        forall|j: int| k < j < table.len() ==> (#[trigger] table[j]).pid != pid,
    ensures
        start_of(table, pid) == table[k].start,
        group_of(table, pid) == (match table[k].pgid {
            Some(g) => g,
            None => pid,
        }),
    decreases table.len(),
{
    if k < table.len() - 1 {
        let front = table.drop_last();
        assert(table.last() == table[table.len() - 1]);
        assert(front[k] == table[k]);
        assert forall|j: int| k < j < front.len() implies (#[trigger] front[j]).pid != pid by {
            assert(front[j] == table[j]);
        }
        table_gives_the_last_entry(front, pid, k);
    }
}

proof fn target_of_a_survivor(
    known: Seq<ProcessIdentity>,
    all: Seq<ProcessIdentity>,
    table: Seq<TableEntry>,
    boot: BootId,
    i: int,
)
    requires
        0 <= i < known.len(),
        still_holds(table, known[i]),
        has_recorded_member(table, group_of(table, known[i].pid), boot, all),
    ensures
        recovery_targets(known, all, table, boot).contains(group_of(table, known[i].pid)),
    decreases known.len(),
{
    let front = known.drop_last();
    let rest = recovery_targets(front, all, table, boot);
    let r = recovery_targets(known, all, table, boot);
    let g = group_of(table, known[i].pid);
    if i < front.len() {
        assert(front[i] == known[i]);
        target_of_a_survivor(front, all, table, boot, i);
    }
    if rest.contains(g) {
        let k = choose|k: int| 0 <= k < rest.len() && rest[k] == g;
        assert(r[k] == g);
    } else {
        assert(r[rest.len() as int] == g);
    }
}

/// Recovery finds what was left behind: the group of every recorded process
/// that is still alive under the same start time is stopped.
pub proof fn recovery_stops_every_survivor(
    known: Seq<ProcessIdentity>,
    table: Seq<TableEntry>,
    boot: BootId,
    i: int,
    k: int,
    pgid: u32,
)
    requires
        0 <= i < known.len(),
        known[i].boot_id == boot,
        known[i].start_time != 0,
        0 <= k < table.len(),
        table[k].pid == known[i].pid,
        table[k].start == Some(known[i].start_time),
        table[k].pgid == Some(pgid),
        forall|j: int| k < j < table.len() ==> (#[trigger] table[j]).pid != known[i].pid,
    ensures
        recovery_targets(known, known, table, boot).contains(pgid),
        survivors(known, table) >= 1,
{
    table_gives_the_last_entry(table, known[i].pid, k);
    assert(known.contains(known[i]));
    assert(on_record(table, k, pgid, boot, known));
    target_of_a_survivor(known, known, table, boot, i);
    one_survivor_counts(known, table, i);
}

proof fn one_survivor_counts(known: Seq<ProcessIdentity>, table: Seq<TableEntry>, i: int)
    requires
        0 <= i < known.len(),
        still_holds(table, known[i]),
    ensures
        survivors(known, table) >= 1,
    decreases known.len(),
{
    if i < known.len() - 1 {
        assert(known.drop_last()[i] == known[i]);
        one_survivor_counts(known.drop_last(), table, i);
    }
}

/// The survivors are the recorded processes that still hold.
pub proof fn survivors_are_counted(known: Seq<ProcessIdentity>, table: Seq<TableEntry>)
    ensures
        survivors(known, table) == known.filter(
            |id: ProcessIdentity| still_holds(table, id),
        ).len(),
    decreases known.len(),
{
    reveal(Seq::filter);
    if known.len() > 0 {
        survivors_are_counted(known.drop_last(), table);
    }
}

/// A recorded process whose pid is gone, or was given to another process,
/// does not hold.
pub proof fn a_reused_pid_is_no_survivor(
    table: Seq<TableEntry>,
    id: ProcessIdentity,
    k: int,
)
    requires
        0 <= k < table.len(),
        table[k].pid == id.pid,
        forall|j: int| k < j < table.len() ==> (#[trigger] table[j]).pid != id.pid,
    ensures
        still_holds(table, id) <==> table[k].start == Some(id.start_time) && id.start_time != 0,
{
    table_gives_the_last_entry(table, id.pid, k);
}

/// The run cgroups that a crashed supervisor left are the entries named so,
/// in order.
pub proof fn stale_cgroups_are_those_of_runs(parent: Seq<char>, names: Seq<Seq<char>>)
    ensures
        stale_runs(parent, names, names.len()) == names.filter(
            |name: Seq<char>| text::starts_with(name, "run-"@),
        ).map_values(|name: Seq<char>| path::joined(parent, name)),
{
    stale_cgroups_among_the_first(parent, names, names.len());
    assert(names.take(names.len() as int) =~= names);
}

proof fn stale_cgroups_among_the_first(parent: Seq<char>, names: Seq<Seq<char>>, n: nat)
    requires
        n <= names.len(),
    ensures
        stale_runs(parent, names, n) == names.take(n as int).filter(
            |name: Seq<char>| text::starts_with(name, "run-"@),
        ).map_values(|name: Seq<char>| path::joined(parent, name)),
    decreases n,
{
    let of_run = |name: Seq<char>| text::starts_with(name, "run-"@);
    let place = |name: Seq<char>| path::joined(parent, name);
    reveal(Seq::filter);
    if n > 0 {
        stale_cgroups_among_the_first(parent, names, (n - 1) as nat);
        let some = names.take(n as int);
        assert(some.drop_last() =~= names.take(n - 1));
        assert(some.last() == names[n - 1]);
        if of_run(names[n - 1]) {
            assert(some.filter(of_run).map_values(place) =~= some.drop_last().filter(
                of_run,
            ).map_values(place).push(place(names[n - 1])));
        }
    }
    assert(stale_runs(parent, names, n) =~= names.take(n as int).filter(of_run).map_values(place));
}

/// A run that was just recorded waits, with nothing done, written or known
/// about it yet.
pub proof fn a_new_run_starts_with_nothing(id: RunId, spec: RunSpec, env: Seq<(String, String)>)
    ensures
        ({
            let m = SlotModel::fresh(id, spec, env);
            &&& m.id == id && m.spec == spec && m.env == env
            &&& m.inner.state == RunState::Queued
            &&& m.inner.cleanup == CleanupState::Pending
            &&& m.inner.revision == 0
            &&& m.inner.result is None && m.inner.pgid is None && m.inner.detail is None
            &&& !m.cancel
            &&& m.known.len() == 0
            &&& m.logs.stdout_bytes == 0 && m.logs.stderr_bytes == 0
            &&& !m.logs.stdout_truncated && !m.logs.stderr_truncated
            &&& m.queued_at is None && m.queue_wait_ms == 0
            &&& m.usage is None && m.limit_event is None && !m.effective_set
        }),
{
}

} // verus!

//! The run worker: everything after the row exists, as a state machine.
//!
//! The program around the library performs each action (create a directory,
//! spawn, sleep, signal) and reports what came of it as an event; what
//! happens next is decided here.

use crate::model::run::{
    CleanupState, EffectiveLimits, Enforcement, ResourceRequest, RunOutcome, RunSpec,
};
use crate::platform::cgroup;
use crate::platform::cgroup::CgroupLimits;
use crate::platform::pgroup::GroupUsage;
use crate::runner::run;
use crate::runner::run::{
    cgroup_limits, effective_limits, exit_outcome, monitored_memory, status_detail, with_applied,
    CgroupApplied, LeaderEnd, KILL_GRACE_MS,
};
use crate::text;
use crate::text::{copy_opt, dec_of};
use crate::time::Duration;
use vstd::prelude::*;

verus! {

/// How a run ends.
#[derive(Debug, Clone)]
pub struct FinishRequest {
    pub outcome: RunOutcome,
    pub exit_code: Option<i32>,
    pub signal: Option<i32>,
    pub cleanup: CleanupState,
    pub detail: Option<String>,
}

/// The same as a model.
pub struct FinishModel {
    pub outcome: RunOutcome,
    pub exit_code: Option<i32>,
    pub signal: Option<i32>,
    pub cleanup: CleanupState,
    pub detail: Option<Seq<char>>,
}

impl View for FinishRequest {
    type V = FinishModel;

    open spec fn view(&self) -> FinishModel {
        FinishModel {
            outcome: self.outcome,
            exit_code: self.exit_code,
            signal: self.signal,
            cleanup: self.cleanup,
            detail: text::text_of(self.detail),
        }
    }
}

impl FinishModel {
    /// A run that never had a process.
    pub open spec fn unspawned(outcome: RunOutcome, detail: Seq<char>) -> FinishModel {
        FinishModel {
            outcome,
            exit_code: None,
            signal: None,
            cleanup: CleanupState::Complete,
            detail: Some(detail),
        }
    }
}

impl FinishRequest {
    /// A run that never had a process.
    pub fn unspawned(outcome: RunOutcome, detail: String) -> (r: FinishRequest)
        ensures
            r@ == FinishModel::unspawned(outcome, detail@),
    {
        FinishRequest {
            outcome,
            exit_code: None,
            signal: None,
            cleanup: CleanupState::Complete,
            detail: Some(detail),
        }
    }
}

/// Where the worker stands.
#[derive(Debug, Clone, Copy, PartialEq, Eq, Structural)]
pub enum Phase {
    /// The run is being marked as starting.
    Begin,
    /// Its directory is being created.
    Preparing,
    /// Its cgroup is being set up.
    SettingUp,
    /// The command is being started.
    Spawning,
    /// The command runs.
    Watching,
    /// The command exited; its group is looked at.
    Checking,
    /// The group is being stopped.
    Stopping,
    /// The last output and the kernel's counters are collected.
    Collecting,
    Done,
}

/// What came of an action.
#[derive(Debug, Clone)]
pub enum Event {
    /// Whether the run could be marked as starting, and whether it had been
    /// cancelled by then.
    Begun { accepted: bool, cancelled: bool },
    /// The directory exists, or why it does not.
    Prepared { error: Option<String> },
    /// What the run's cgroup accepted: none where no cgroup is in use.
    CgroupReady { applied: Option<CgroupApplied> },
    /// Why the cgroup could not be set up.
    CgroupFailed { why: String },
    /// The command runs, or why it does not.
    Spawned { error: Option<String> },
    /// One look at a running command: its end, the usage of its group where a
    /// sample was due, the cancel flag and the time since the start.
    Ticked {
        leader: Option<LeaderEnd>,
        usage: Option<GroupUsage>,
        cancelled: bool,
        elapsed: Duration,
    },
    /// Whether the command left processes behind.
    Checked { left_behind: bool },
    /// What the stop sequence achieved, and the leader's end where it was
    /// still owed.
    Stopped { cleanup: CleanupState, leader: Option<LeaderEnd> },
    /// Kernel OOM kills in the run's cgroup.
    Collected { oom_kills: u64 },
}

/// The same as a model.
pub enum EventModel {
    Begun { accepted: bool, cancelled: bool },
    Prepared { error: Option<Seq<char>> },
    CgroupReady { applied: Option<CgroupApplied> },
    CgroupFailed { why: Seq<char> },
    Spawned { error: Option<Seq<char>> },
    Ticked {
        leader: Option<LeaderEnd>,
        usage: Option<GroupUsage>,
        cancelled: bool,
        elapsed: nat,
    },
    Checked { left_behind: bool },
    Stopped { cleanup: CleanupState, leader: Option<LeaderEnd> },
    Collected { oom_kills: u64 },
}

impl View for Event {
    type V = EventModel;

    open spec fn view(&self) -> EventModel {
        match self {
            Event::Begun { accepted, cancelled } => EventModel::Begun {
                accepted: *accepted,
                cancelled: *cancelled,
            },
            Event::Prepared { error } => EventModel::Prepared { error: text::text_of(*error) },
            Event::CgroupReady { applied } => EventModel::CgroupReady { applied: *applied },
            Event::CgroupFailed { why } => EventModel::CgroupFailed { why: why@ },
            Event::Spawned { error } => EventModel::Spawned { error: text::text_of(*error) },
            Event::Ticked { leader, usage, cancelled, elapsed } => EventModel::Ticked {
                leader: *leader,
                usage: *usage,
                cancelled: *cancelled,
                elapsed: elapsed@,
            },
            Event::Checked { left_behind } => EventModel::Checked { left_behind: *left_behind },
            Event::Stopped { cleanup, leader } => EventModel::Stopped {
                cleanup: *cleanup,
                leader: *leader,
            },
            Event::Collected { oom_kills } => EventModel::Collected { oom_kills: *oom_kills },
        }
    }
}

/// What to do next.
#[derive(Debug, Clone)]
pub enum Action {
    /// Nothing more: the run is someone else's, or over.
    Abandon,
    PrepareDirectory,
    /// Create the run's cgroup with these limits and arrange for the child to
    /// enter it between fork and exec.
    SetUpCgroup(CgroupLimits),
    Spawn,
    /// Record the limits in force and the leader, publish the run as running,
    /// start draining its output, then look at it every tick.
    Run(EffectiveLimits),
    /// Sleep one tick and look again.
    Wait,
    /// See whether the group or the cgroup still has processes.
    CheckGroup,
    /// Run the stop sequence.
    StopGroup { forced: bool },
    /// Stop storing output, wait briefly for the drains and read the kernel's
    /// counters.
    Collect,
    Finish(FinishRequest),
}

/// Limits in force, as a model.
pub struct EffectiveModel {
    pub memory_bytes: Option<u64>,
    pub cpu_millicores: Option<u32>,
    pub processes: Option<u32>,
    pub enforcement: Enforcement,
    pub metric: Option<Seq<char>>,
    pub backend: Seq<char>,
}

pub open spec fn effective_model(e: EffectiveLimits) -> EffectiveModel {
    EffectiveModel {
        memory_bytes: e.memory_bytes,
        cpu_millicores: e.cpu_millicores,
        processes: e.processes,
        enforcement: e.enforcement,
        metric: text::text_of(e.metric),
        backend: e.backend@,
    }
}

/// The limits in force for a request, given what its cgroup accepted. What the
/// kernel does not hold stays as it was asked for.
pub open spec fn limits_in_force(
    res: ResourceRequest,
    applied: Option<CgroupApplied>,
) -> EffectiveModel {
    EffectiveModel {
        memory_bytes: match applied {
            Some(a) if run::enforcement_of(res) == Enforcement::Hard => a.memory_max_bytes,
            _ => res.memory_bytes,
        },
        cpu_millicores: match applied {
            Some(a) => match a.cpu_max {
                Some((quota, period)) => Some(cgroup::millicores(quota, period)),
                None => None,
            },
            None => res.cpu_millicores,
        },
        processes: match applied {
            Some(a) => run::low_bits(a.pids_max),
            None => res.processes,
        },
        enforcement: run::enforcement_of(res),
        metric: if run::enforcement_of(res) == Enforcement::Monitored {
            Some("sum of RSS over the run's process group, sampled every 200 ms"@)
        } else {
            None
        },
        backend: if applied is Some {
            "cgroup_v2"@
        } else {
            "process_group"@
        },
    }
}

/// The same as a model.
pub enum ActionModel {
    Abandon,
    PrepareDirectory,
    SetUpCgroup(CgroupLimits),
    Spawn,
    Run(EffectiveModel),
    Wait,
    CheckGroup,
    StopGroup { forced: bool },
    Collect,
    Finish(FinishModel),
}

impl View for Action {
    type V = ActionModel;

    open spec fn view(&self) -> ActionModel {
        match self {
            Action::Abandon => ActionModel::Abandon,
            Action::PrepareDirectory => ActionModel::PrepareDirectory,
            Action::SetUpCgroup(limits) => ActionModel::SetUpCgroup(*limits),
            Action::Spawn => ActionModel::Spawn,
            Action::Run(e) => ActionModel::Run(effective_model(*e)),
            Action::Wait => ActionModel::Wait,
            Action::CheckGroup => ActionModel::CheckGroup,
            Action::StopGroup { forced } => ActionModel::StopGroup { forced: *forced },
            Action::Collect => ActionModel::Collect,
            Action::Finish(f) => ActionModel::Finish(f@),
        }
    }
}

/// One run's worker.
#[derive(Debug, Clone)]
pub struct Worker {
    phase: Phase,
    resources: ResourceRequest,
    timeout: Duration,
    applied: Option<CgroupApplied>,
    monitored: Option<u64>,
    stop_reason: Option<RunOutcome>,
    leader: Option<LeaderEnd>,
    cleanup: CleanupState,
    /// Why the run was stopped, where a limit stopped it.
    detail: Option<String>,
    limit_event: Option<String>,
}

/// The same as a model.
pub struct WorkerModel {
    pub phase: Phase,
    pub resources: ResourceRequest,
    pub timeout: nat,
    pub applied: Option<CgroupApplied>,
    pub monitored: Option<u64>,
    pub stop_reason: Option<RunOutcome>,
    pub leader: Option<LeaderEnd>,
    pub cleanup: CleanupState,
    pub detail: Option<Seq<char>>,
    pub limit_event: Option<Seq<char>>,
}

impl View for Worker {
    type V = WorkerModel;

    closed spec fn view(&self) -> WorkerModel {
        WorkerModel {
            phase: self.phase,
            resources: self.resources,
            timeout: self.timeout@,
            applied: self.applied,
            monitored: self.monitored,
            stop_reason: self.stop_reason,
            leader: self.leader,
            cleanup: self.cleanup,
            detail: text::text_of(self.detail),
            limit_event: text::text_of(self.limit_event),
        }
    }
}

/// What is said where a monitored run exceeds its threshold.
pub open spec fn over_limit_text(usage: GroupUsage, limit: u64) -> Seq<char> {
    "observed "@ + text::dec(usage.memory_bytes as nat) + " bytes of RSS over "@ + text::dec(
        usage.processes as nat,
    ) + " process(es), above the monitored limit of "@ + text::dec(limit as nat)
}

/// What is said where the kernel killed for memory.
pub open spec fn oom_text(oom_kills: u64) -> Seq<char> {
    "the kernel OOM-killed "@ + text::dec(oom_kills as nat)
        + " process(es) in the run's cgroup"@
}

/// The threshold that a sample exceeds.
pub open spec fn exceeded(monitored: Option<u64>, usage: Option<GroupUsage>) -> bool {
    match (monitored, usage) {
        (Some(limit), Some(u)) => u.memory_bytes > limit,
        _ => false,
    }
}

/// The limits that a request's cgroup gets.
pub open spec fn wanted_limits(res: ResourceRequest) -> CgroupLimits {
    if res.enforcement == Enforcement::Hard {
        CgroupLimits {
            memory_max_bytes: res.memory_bytes,
            memory_swap_max_bytes: if res.memory_bytes is Some {
                Some(0u64)
            } else {
                None
            },
            cpu_max: run::cpu_max_of(res.cpu_millicores),
            pids_max: run::widened(res.processes),
        }
    } else {
        CgroupLimits {
            memory_max_bytes: None,
            memory_swap_max_bytes: None,
            cpu_max: None,
            pids_max: None,
        }
    }
}

impl WorkerModel {
    /// A worker at its start.
    pub open spec fn start(resources: ResourceRequest, timeout: nat) -> WorkerModel {
        WorkerModel {
            phase: Phase::Begin,
            resources,
            timeout,
            applied: None,
            monitored: None,
            stop_reason: None,
            leader: None,
            cleanup: CleanupState::Complete,
            detail: None,
            limit_event: None,
        }
    }

    pub open spec fn at(self, phase: Phase) -> WorkerModel {
        WorkerModel { phase, ..self }
    }

    pub open spec fn hard(self) -> bool {
        self.resources.enforcement == Enforcement::Hard
    }

    /// The run ends without a process ever having existed.
    pub open spec fn fails(self, detail: Seq<char>) -> (WorkerModel, ActionModel) {
        (
            self.at(Phase::Done),
            ActionModel::Finish(FinishModel::unspawned(RunOutcome::SpawnFailed, detail)),
        )
    }

    /// The run is to be stopped.
    pub open spec fn stops(self, reason: RunOutcome) -> (WorkerModel, ActionModel) {
        (
            WorkerModel { stop_reason: Some(reason), ..self.at(Phase::Stopping) },
            ActionModel::StopGroup { forced: reason == RunOutcome::TimedOut },
        )
    }

    /// One look at a running command: its own end comes first, then the
    /// monitored limit, then a cancel, then the deadline.
    pub open spec fn ticked(
        self,
        leader: Option<LeaderEnd>,
        usage: Option<GroupUsage>,
        cancelled: bool,
        elapsed: nat,
    ) -> (WorkerModel, ActionModel) {
        if leader is Some {
            (WorkerModel { leader, ..self.at(Phase::Checking) }, ActionModel::CheckGroup)
        } else if exceeded(self.monitored, usage) {
            let why = Some(over_limit_text(usage->0, self.monitored->0));
            WorkerModel { detail: why, limit_event: why, ..self }.stops(RunOutcome::ResourceLimit)
        } else if cancelled {
            self.stops(RunOutcome::Cancelled)
        } else if elapsed >= self.timeout {
            self.stops(RunOutcome::TimedOut)
        } else {
            (self, ActionModel::Wait)
        }
    }

    /// Why the run ended, before the kernel's counters are known.
    pub open spec fn outcome(self) -> RunOutcome {
        match self.stop_reason {
            Some(reason) => reason,
            None => match self.leader {
                Some(LeaderEnd::Status { signal, .. }) => if signal is Some {
                    RunOutcome::Signaled
                } else {
                    RunOutcome::Exited
                },
                _ => RunOutcome::Signaled,
            },
        }
    }

    /// An OOM is attributed only when the kernel says so: a SIGKILL on its
    /// own is not evidence.
    pub open spec fn final_outcome(self, oom_kills: u64) -> RunOutcome {
        let o = self.outcome();
        if oom_kills > 0 && (o == RunOutcome::Signaled || o == RunOutcome::Exited) {
            RunOutcome::ResourceLimit
        } else {
            o
        }
    }

    pub open spec fn status(self) -> (Option<i32>, Option<i32>) {
        match self.leader {
            Some(LeaderEnd::Status { code, signal }) => (code, signal),
            _ => (None, None),
        }
    }

    pub open spec fn conclusion(self, oom_kills: u64) -> FinishModel {
        FinishModel {
            outcome: self.final_outcome(oom_kills),
            exit_code: self.status().0,
            signal: self.status().1,
            cleanup: self.cleanup,
            detail: match run::status_text(self.status().0, self.status().1) {
                Some(d) => Some(d),
                None => self.detail,
            },
        }
    }

    /// What follows an event. An event that does not belong to the phase
    /// changes nothing.
    pub open spec fn next(self, e: EventModel) -> (WorkerModel, ActionModel) {
        match (self.phase, e) {
            (Phase::Begin, EventModel::Begun { accepted, cancelled }) => if !accepted {
                (self.at(Phase::Done), ActionModel::Abandon)
            } else if cancelled {
                (
                    self.at(Phase::Done),
                    ActionModel::Finish(
                        FinishModel::unspawned(RunOutcome::Cancelled, "cancelled before spawn"@),
                    ),
                )
            } else {
                (self.at(Phase::Preparing), ActionModel::PrepareDirectory)
            },
            (Phase::Preparing, EventModel::Prepared { error }) => match error {
                Some(why) => self.fails("run directory: "@ + why),
                None => (
                    self.at(Phase::SettingUp),
                    ActionModel::SetUpCgroup(wanted_limits(self.resources)),
                ),
            },
            (Phase::SettingUp, EventModel::CgroupReady { applied }) => (
                WorkerModel { applied, ..self.at(Phase::Spawning) },
                ActionModel::Spawn,
            ),
            (Phase::SettingUp, EventModel::CgroupFailed { why: error }) => if self.hard() {
                self.fails("cgroup setup failed: "@ + error)
            } else {
                (WorkerModel { applied: None, ..self.at(Phase::Spawning) }, ActionModel::Spawn)
            },
            (Phase::Spawning, EventModel::Spawned { error }) => match error {
                Some(why) => self.fails("spawn failed: "@ + why),
                None => {
                    let limits = limits_in_force(self.resources, self.applied);
                    (
                        WorkerModel {
                            monitored: if limits.enforcement == Enforcement::Monitored {
                                limits.memory_bytes
                            } else {
                                None
                            },
                            ..self.at(Phase::Watching)
                        },
                        ActionModel::Run(limits),
                    )
                },
            },
            (Phase::Watching, EventModel::Ticked { leader, usage, cancelled, elapsed }) =>
                self.ticked(leader, usage, cancelled, elapsed),
            (Phase::Checking, EventModel::Checked { left_behind }) => if left_behind {
                (self.at(Phase::Stopping), ActionModel::StopGroup { forced: false })
            } else {
                (self.at(Phase::Collecting), ActionModel::Collect)
            },
            (Phase::Stopping, EventModel::Stopped { cleanup, leader }) => (
                WorkerModel {
                    cleanup,
                    leader: if self.leader is Some {
                        self.leader
                    } else {
                        leader
                    },
                    ..self.at(Phase::Collecting)
                },
                ActionModel::Collect,
            ),
            (Phase::Collecting, EventModel::Collected { oom_kills }) => (
                WorkerModel {
                    limit_event: if oom_kills > 0 {
                        Some(oom_text(oom_kills))
                    } else {
                        self.limit_event
                    },
                    ..self.at(Phase::Done)
                },
                ActionModel::Finish(self.conclusion(oom_kills)),
            ),
            _ => (
                self,
                if self.phase == Phase::Done {
                    ActionModel::Abandon
                } else {
                    ActionModel::Wait
                },
            ),
        }
    }

    /// The worker after a number of events.
    pub open spec fn after(self, events: Seq<EventModel>) -> WorkerModel
        decreases events.len(),
    {
        if events.len() == 0 {
            self
        } else {
            self.after(events.drop_last()).next(events.last()).0
        }
    }
}

/// A worker that is done stays done and does nothing more.
pub proof fn done_is_final(m: WorkerModel, events: Seq<EventModel>, e: EventModel)
    requires
        m.phase == Phase::Done,
    ensures
        m.after(events) == m,
        m.after(events).next(e) == (m, ActionModel::Abandon),
    decreases events.len(),
{
    if events.len() > 0 {
        done_is_final(m, events.drop_last(), events.last());
    }
}

/// A run is finished at most once: after the action that finishes it the
/// worker is done.
pub proof fn finish_comes_once(m: WorkerModel, e: EventModel)
    requires
        m.next(e).1 is Finish,
    ensures
        m.next(e).0.phase == Phase::Done,
{
}

/// A run that was superseded, or cancelled before its command was started,
/// never spawns anything, whatever else happens.
pub proof fn cancelled_before_spawn_never_spawns(
    res: ResourceRequest,
    timeout: nat,
    accepted: bool,
    cancelled: bool,
    events: Seq<EventModel>,
    e: EventModel,
)
    requires
        !accepted || cancelled,
    ensures
        ({
            let m = WorkerModel::start(res, timeout).next(
                EventModel::Begun { accepted, cancelled },
            ).0;
            m.after(events).next(e).1 !is Spawn
        }),
{
    let m = WorkerModel::start(res, timeout).next(EventModel::Begun { accepted, cancelled }).0;
    done_is_final(m, events, e);
}

/// A hard limit that could not be set up ends the run before its command is
/// started: a hard request never runs without its cgroup.
pub proof fn failed_hard_limit_never_spawns(
    m: WorkerModel,
    error: Seq<char>,
    events: Seq<EventModel>,
    e: EventModel,
)
    requires
        m.phase == Phase::SettingUp,
        m.hard(),
    ensures
        ({
            let n = m.next(EventModel::CgroupFailed { why: error });
            &&& n.1 is Finish
            &&& n.1->Finish_0.outcome == RunOutcome::SpawnFailed
            &&& n.0.after(events).next(e).1 !is Spawn
        }),
{
    done_is_final(m.next(EventModel::CgroupFailed { why: error }).0, events, e);
}

/// The command is started only once, and only after the directory exists and
/// the cgroup question is settled.
pub proof fn spawn_follows_setup(m: WorkerModel, e: EventModel)
    requires
        m.next(e).1 is Spawn,
    ensures
        m.phase == Phase::SettingUp,
        m.next(e).0.phase == Phase::Spawning,
        e is CgroupReady || (e is CgroupFailed && !m.hard()),
{
}

/// A resource limit is given as the reason only where a monitored threshold
/// was crossed or the kernel reported an OOM kill.
pub proof fn resource_limit_needs_evidence(m: WorkerModel, oom_kills: u64)
    requires
        m.final_outcome(oom_kills) == RunOutcome::ResourceLimit,
    ensures
        m.stop_reason == Some(RunOutcome::ResourceLimit) || oom_kills > 0,
{
}

/// A stop asked for, or a passed deadline, is never reported as something
/// else because of how the command then ended.
pub proof fn stop_reason_wins(m: WorkerModel, oom_kills: u64)
    requires
        m.stop_reason is Some,
        m.stop_reason != Some(RunOutcome::Signaled),
        m.stop_reason != Some(RunOutcome::Exited),
    ensures
        m.final_outcome(oom_kills) == m.stop_reason->0,
{
}

/// A command past its deadline is stopped at the next look, unless it has
/// ended by itself.
pub proof fn deadline_stops_the_run(
    m: WorkerModel,
    usage: Option<GroupUsage>,
    cancelled: bool,
    elapsed: nat,
)
    requires
        m.phase == Phase::Watching,
        elapsed >= m.timeout,
    ensures
        m.next(EventModel::Ticked { leader: None, usage, cancelled, elapsed }).1 is StopGroup,
{
}

/// The threshold of a request that is to be monitored.
pub open spec fn threshold(res: ResourceRequest) -> Option<u64> {
    if run::enforcement_of(res) == Enforcement::Monitored {
        res.memory_bytes
    } else {
        None
    }
}

/// A running command is held to the threshold that was asked for, whatever
/// cgroup it runs in and whatever came before.
pub proof fn the_threshold_is_kept(res: ResourceRequest, timeout: nat, events: Seq<EventModel>)
    ensures
        WorkerModel::start(res, timeout).after(events).resources == res,
        WorkerModel::start(res, timeout).after(events).phase == Phase::Watching
            ==> WorkerModel::start(res, timeout).after(events).monitored == threshold(res),
    decreases events.len(),
{
    if events.len() > 0 {
        the_threshold_is_kept(res, timeout, events.drop_last());
    }
}

/// A stop for a resource limit stays the reason to the end.
proof fn the_limit_stays_the_reason(m: WorkerModel, events: Seq<EventModel>)
    requires
        m.stop_reason == Some(RunOutcome::ResourceLimit),
        m.phase == Phase::Stopping,
    ensures
        ({
            let n = m.after(events);
            &&& n.stop_reason == Some(RunOutcome::ResourceLimit)
            &&& n.phase == Phase::Stopping || n.phase == Phase::Collecting || n.phase == Phase::Done
        }),
    decreases events.len(),
{
    if events.len() > 0 {
        the_limit_stays_the_reason(m, events.drop_last());
    }
}

/// A sample above the threshold of a monitored run stops it, and the run ends
/// with a resource limit, whatever happens on the way there.
pub proof fn a_crossed_threshold_stops_the_run(
    res: ResourceRequest,
    timeout: nat,
    before: Seq<EventModel>,
    limit: u64,
    usage: GroupUsage,
    cancelled: bool,
    elapsed: nat,
    after: Seq<EventModel>,
    e: EventModel,
)
    requires
        res.enforcement == Enforcement::Monitored,
        res.memory_bytes == Some(limit),
        WorkerModel::start(res, timeout).after(before).phase == Phase::Watching,
        usage.memory_bytes > limit,
    ensures
        ({
            let m = WorkerModel::start(res, timeout).after(before);
            let n = m.next(
                EventModel::Ticked { leader: None, usage: Some(usage), cancelled, elapsed },
            );
            &&& n.1 == (ActionModel::StopGroup { forced: false })
            &&& n.0.limit_event == Some(over_limit_text(usage, limit))
            &&& n.0.after(after).next(e).1 matches ActionModel::Finish(f)
                ==> f.outcome == RunOutcome::ResourceLimit
        }),
{
    let m = WorkerModel::start(res, timeout).after(before);
    the_threshold_is_kept(res, timeout, before);
    let n = m.next(EventModel::Ticked { leader: None, usage: Some(usage), cancelled, elapsed });
    the_limit_stays_the_reason(n.0, after);
}

/// A stopped run ends once its group is gone and its counters are read.
pub proof fn a_stopped_run_ends(
    m: WorkerModel,
    cleanup: CleanupState,
    leader: Option<LeaderEnd>,
    oom_kills: u64,
)
    requires
        m.phase == Phase::Stopping,
        m.stop_reason is Some,
        m.stop_reason != Some(RunOutcome::Signaled),
        m.stop_reason != Some(RunOutcome::Exited),
    ensures
        ({
            let n = m.next(EventModel::Stopped { cleanup, leader }).0.next(
                EventModel::Collected { oom_kills },
            );
            &&& n.1 is Finish
            &&& n.1->Finish_0.outcome == m.stop_reason->0
            &&& n.1->Finish_0.cleanup == cleanup
        }),
{
}

/// The status of a command is reported as it was seen: for a leader that
/// ended with a code and a signal, the finish carries exactly that code and
/// that signal, and its detail names the code, or the signal where there is
/// no code. Without either the detail is that of the stop.
pub proof fn status_is_reported_as_seen(
    m: WorkerModel,
    code: Option<i32>,
    signal: Option<i32>,
    oom_kills: u64,
)
    requires
        m.phase == Phase::Collecting,
        m.leader == Some(LeaderEnd::Status { code, signal }),
    ensures
        ({
            let n = m.next(EventModel::Collected { oom_kills });
            &&& n.0.phase == Phase::Done
            &&& n.1 is Finish
            &&& n.1->Finish_0.exit_code == code
            &&& n.1->Finish_0.signal == signal
            &&& n.1->Finish_0.cleanup == m.cleanup
            &&& code is Some ==> n.1->Finish_0.detail == Some(
                "exit code "@ + text::dec_int(code->0 as int),
            )
            &&& code is None && signal is Some ==> n.1->Finish_0.detail == Some(
                "terminated by signal "@ + text::dec_int(signal->0 as int),
            )
            &&& code is None && signal is None ==> n.1->Finish_0.detail == m.detail
        }),
{
}

/// Where no status was seen none is made up.
pub proof fn unseen_status_is_not_made_up(m: WorkerModel, oom_kills: u64)
    requires
        m.phase == Phase::Collecting,
        m.leader is None || m.leader == Some(LeaderEnd::WaitFailed),
    ensures
        ({
            let n = m.next(EventModel::Collected { oom_kills });
            &&& n.1 is Finish
            &&& n.1->Finish_0.exit_code is None
            &&& n.1->Finish_0.signal is None
            &&& n.1->Finish_0.detail == m.detail
            &&& n.1->Finish_0.cleanup == m.cleanup
        }),
{
}

/// A command that ends by itself is reported with the status it was seen
/// with, whether or not it left processes behind, and whatever status the
/// stop sequence then brought. It is signaled where a signal ended it and
/// exited where none did, unless the kernel killed for memory.
pub proof fn own_end_is_the_one_reported(
    m: WorkerModel,
    code: Option<i32>,
    signal: Option<i32>,
    usage: Option<GroupUsage>,
    cancelled: bool,
    elapsed: nat,
    cleanup: CleanupState,
    late: Option<LeaderEnd>,
    oom_kills: u64,
)
    requires
        m.phase == Phase::Watching,
        m.stop_reason is None,
    ensures
        ({
            let seen = m.next(
                EventModel::Ticked {
                    leader: Some(LeaderEnd::Status { code, signal }),
                    usage,
                    cancelled,
                    elapsed,
                },
            );
            let alone = seen.0.next(EventModel::Checked { left_behind: false });
            let busy = seen.0.next(EventModel::Checked { left_behind: true });
            let stopped = busy.0.next(EventModel::Stopped { cleanup, leader: late });
            let a = alone.0.next(EventModel::Collected { oom_kills }).1;
            let b = stopped.0.next(EventModel::Collected { oom_kills }).1;
            let outcome = if oom_kills > 0 {
                RunOutcome::ResourceLimit
            } else if signal is Some {
                RunOutcome::Signaled
            } else {
                RunOutcome::Exited
            };
            &&& seen.1 == ActionModel::CheckGroup
            &&& alone.1 == ActionModel::Collect
            &&& busy.1 == (ActionModel::StopGroup { forced: false })
            &&& stopped.1 == ActionModel::Collect
            &&& a is Finish && b is Finish
            &&& a->Finish_0.exit_code == code && a->Finish_0.signal == signal
            &&& b->Finish_0.exit_code == code && b->Finish_0.signal == signal
            &&& a->Finish_0.outcome == outcome && b->Finish_0.outcome == outcome
            &&& a->Finish_0.cleanup == m.cleanup
            &&& b->Finish_0.cleanup == cleanup
        }),
{
}

/// A run that is stopped is reported with the reason of the stop, with the
/// status that its leader then ended with, and with what the stop sequence
/// left of its group.
pub proof fn stopped_run_reports_reason_and_status(
    m: WorkerModel,
    cleanup: CleanupState,
    code: Option<i32>,
    signal: Option<i32>,
    oom_kills: u64,
)
    requires
        m.phase == Phase::Stopping,
        m.leader is None,
        m.stop_reason == Some(RunOutcome::Cancelled) || m.stop_reason == Some(RunOutcome::TimedOut)
            || m.stop_reason == Some(RunOutcome::ResourceLimit),
    ensures
        ({
            let n = m.next(
                EventModel::Stopped {
                    cleanup,
                    leader: Some(LeaderEnd::Status { code, signal }),
                },
            ).0.next(EventModel::Collected { oom_kills }).1;
            &&& n is Finish
            &&& Some(n->Finish_0.outcome) == m.stop_reason
            &&& n->Finish_0.exit_code == code
            &&& n->Finish_0.signal == signal
            &&& n->Finish_0.cleanup == cleanup
        }),
{
}

/// What one look at a running command leads to. Its own end comes first, then
/// a sample above the threshold, then a cancel, then the deadline; a run that
/// none of them concerns goes on unchanged. Only the deadline forces.
pub proof fn a_look_decides_in_order(
    m: WorkerModel,
    leader: Option<LeaderEnd>,
    usage: Option<GroupUsage>,
    cancelled: bool,
    elapsed: nat,
)
    requires
        m.phase == Phase::Watching,
    ensures
        ({
            let n = m.next(EventModel::Ticked { leader, usage, cancelled, elapsed });
            let over = m.monitored is Some && usage is Some && usage->0.memory_bytes
                > m.monitored->0;
            &&& leader is Some ==> n.1 == ActionModel::CheckGroup && n.0.phase == Phase::Checking
                && n.0.leader == leader && n.0.stop_reason == m.stop_reason
            &&& leader is None && over ==> n.1 == (ActionModel::StopGroup { forced: false })
                && n.0.phase == Phase::Stopping && n.0.stop_reason == Some(
                RunOutcome::ResourceLimit,
            ) && n.0.detail is Some && n.0.limit_event == n.0.detail && n.0.detail->0
                == "observed "@ + text::dec(usage->0.memory_bytes as nat) + " bytes of RSS over "@
                + text::dec(usage->0.processes as nat)
                + " process(es), above the monitored limit of "@ + text::dec(m.monitored->0 as nat)
            &&& leader is None && !over && cancelled ==> n.1 == (ActionModel::StopGroup {
                forced: false,
            }) && n.0.phase == Phase::Stopping && n.0.stop_reason == Some(RunOutcome::Cancelled)
            &&& leader is None && !over && !cancelled && elapsed >= m.timeout ==> n.1 == (
            ActionModel::StopGroup { forced: true }) && n.0.phase == Phase::Stopping
                && n.0.stop_reason == Some(RunOutcome::TimedOut)
            &&& leader is None && !over && !cancelled && elapsed < m.timeout ==> n.1
                == ActionModel::Wait && n.0 == m
        }),
{
}

/// The way to a running command, step by step: what is done next, and what a
/// failure is reported as.
pub proof fn the_way_to_a_running_command(m: WorkerModel, why: Seq<char>)
    ensures
        m.phase == Phase::Begin ==> {
            let n = m.next(EventModel::Begun { accepted: true, cancelled: false });
            &&& n.0 == WorkerModel { phase: Phase::Preparing, ..m }
            &&& n.1 == ActionModel::PrepareDirectory
        },
        m.phase == Phase::Begin ==> {
            let n = m.next(EventModel::Begun { accepted: true, cancelled: true });
            &&& n.0.phase == Phase::Done
            &&& n.1 is Finish
            &&& n.1->Finish_0.outcome == RunOutcome::Cancelled
            &&& n.1->Finish_0.detail == Some("cancelled before spawn"@)
            &&& n.1->Finish_0.cleanup == CleanupState::Complete
        },
        m.phase == Phase::Preparing ==> {
            let n = m.next(EventModel::Prepared { error: None });
            &&& n.0 == WorkerModel { phase: Phase::SettingUp, ..m }
            &&& n.1 is SetUpCgroup
        },
        m.phase == Phase::Preparing ==> {
            let n = m.next(EventModel::Prepared { error: Some(why) });
            &&& n.0.phase == Phase::Done
            &&& n.1 is Finish
            &&& n.1->Finish_0.outcome == RunOutcome::SpawnFailed
            &&& n.1->Finish_0.detail == Some("run directory: "@ + why)
            &&& n.1->Finish_0.cleanup == CleanupState::Complete
        },
        m.phase == Phase::SettingUp && m.resources.enforcement != Enforcement::Hard ==> {
            let n = m.next(EventModel::CgroupFailed { why });
            &&& n.0.phase == Phase::Spawning
            &&& n.0.applied is None
            &&& n.1 == ActionModel::Spawn
        },
        m.phase == Phase::SettingUp && m.resources.enforcement == Enforcement::Hard ==> {
            let n = m.next(EventModel::CgroupFailed { why });
            &&& n.1 is Finish
            &&& n.1->Finish_0.detail == Some("cgroup setup failed: "@ + why)
        },
        m.phase == Phase::Spawning ==> {
            let n = m.next(EventModel::Spawned { error: Some(why) });
            &&& n.0.phase == Phase::Done
            &&& n.1 is Finish
            &&& n.1->Finish_0.outcome == RunOutcome::SpawnFailed
            &&& n.1->Finish_0.detail == Some("spawn failed: "@ + why)
            &&& n.1->Finish_0.cleanup == CleanupState::Complete
        },
{
}

/// What a run's cgroup is asked for: with a hard request the memory that was
/// asked for and no swap beside it, a tenth of a millisecond per period for
/// each millicore, and the number of processes; without one nothing.
pub proof fn cgroup_holds_what_a_hard_request_asks(m: WorkerModel)
    requires
        m.phase == Phase::Preparing,
    ensures
        ({
            let limits = m.next(EventModel::Prepared { error: None }).1->SetUpCgroup_0;
            let res = m.resources;
            if res.enforcement == Enforcement::Hard {
                &&& limits.memory_max_bytes == res.memory_bytes
                &&& limits.memory_swap_max_bytes is Some <==> res.memory_bytes is Some
                &&& limits.memory_swap_max_bytes is Some ==> limits.memory_swap_max_bytes->0 == 0
                &&& limits.cpu_max is Some <==> res.cpu_millicores is Some
                &&& limits.cpu_max is Some ==> limits.cpu_max->Some_0.0 == res.cpu_millicores->0
                    * 100 && limits.cpu_max->Some_0.1 == 100_000
                &&& limits.pids_max is Some <==> res.processes is Some
                &&& limits.pids_max is Some ==> limits.pids_max->0 == res.processes->0
            } else {
                &&& limits.memory_max_bytes is None
                &&& limits.memory_swap_max_bytes is None
                &&& limits.cpu_max is None
                &&& limits.pids_max is None
            }
        }),
{
}

/// The limits that a started command is reported with: without a cgroup those
/// that were asked for, with one those that it accepted. A request without a
/// memory requirement is enforced in no way, and a monitored one keeps the
/// memory that was asked for.
pub proof fn started_command_reports_its_limits(m: WorkerModel)
    requires
        m.phase == Phase::Spawning,
    ensures
        ({
            let n = m.next(EventModel::Spawned { error: None });
            let limits = n.1->Run_0;
            let res = m.resources;
            &&& n.1 is Run
            &&& n.0.phase == Phase::Watching
            &&& limits.enforcement == (if res.memory_bytes is Some {
                res.enforcement
            } else {
                Enforcement::Off
            })
            &&& n.0.monitored == (if res.enforcement == Enforcement::Monitored {
                res.memory_bytes
            } else {
                None
            })
            &&& m.applied is None ==> limits.memory_bytes == res.memory_bytes
                && limits.cpu_millicores == res.cpu_millicores && limits.processes == res.processes
                && limits.backend == "process_group"@
            &&& m.applied is Some ==> limits.backend == "cgroup_v2"@ && limits.memory_bytes == (
            if res.memory_bytes is Some && res.enforcement == Enforcement::Hard {
                m.applied->0.memory_max_bytes
            } else {
                res.memory_bytes
            })
        }),
{
}

fn over_limit(usage: GroupUsage, limit: u64) -> (r: String)
    ensures
        r@ == over_limit_text(usage, limit),
{
    "observed ".to_owned().concat(dec_of(usage.memory_bytes).as_str()).concat(
        " bytes of RSS over ",
    ).concat(dec_of(usage.processes as u64).as_str()).concat(
        " process(es), above the monitored limit of ",
    ).concat(dec_of(limit).as_str())
}

impl Worker {
    /// A worker for a recorded run. Its first action is to mark the run as
    /// starting.
    pub fn new(spec: &RunSpec) -> (r: Worker)
        ensures
            r@ == WorkerModel::start(spec.resources, spec.timeout@),
    {
        Worker {
            phase: Phase::Begin,
            resources: spec.resources,
            timeout: spec.timeout,
            applied: None,
            monitored: None,
            stop_reason: None,
            leader: None,
            cleanup: CleanupState::Complete,
            detail: None,
            limit_event: None,
        }
    }

    /// The last limit event of the run, if any.
    pub fn limit_event(&self) -> (r: Option<String>)
        ensures
            text::text_of(r) == self@.limit_event,
    {
        copy_opt(&self.limit_event)
    }

    fn fail(&mut self, detail: String) -> (r: Action)
        ensures
            (final(self)@, r@) == old(self)@.fails(detail@),
    {
        self.phase = Phase::Done;
        Action::Finish(FinishRequest::unspawned(RunOutcome::SpawnFailed, detail))
    }

    fn stop(&mut self, reason: RunOutcome) -> (r: Action)
        ensures
            (final(self)@, r@) == old(self)@.stops(reason),
    {
        self.stop_reason = Some(reason);
        self.phase = Phase::Stopping;
        Action::StopGroup { forced: reason == RunOutcome::TimedOut }
    }

    fn tick(
        &mut self,
        leader: Option<LeaderEnd>,
        usage: Option<GroupUsage>,
        cancelled: bool,
        elapsed: Duration,
    ) -> (r: Action)
        requires
            old(self)@.phase == Phase::Watching,
        ensures
            (final(self)@, r@) == old(self)@.ticked(leader, usage, cancelled, elapsed@),
    {
        if leader.is_some() {
            self.leader = leader;
            self.phase = Phase::Checking;
            return Action::CheckGroup;
        }
        if let Some(limit) = self.monitored {
            if let Some(u) = usage {
                if u.memory_bytes > limit {
                    let why: String = over_limit(u, limit);
                    self.limit_event = Some(why.clone());
                    self.detail = Some(why);
                    return self.stop(RunOutcome::ResourceLimit);
                }
            }
        }
        if cancelled {
            return self.stop(RunOutcome::Cancelled);
        }
        if elapsed.at_least(self.timeout) {
            return self.stop(RunOutcome::TimedOut);
        }
        Action::Wait
    }

    fn conclude(&mut self, oom_kills: u64) -> (r: Action)
        requires
            old(self)@.phase == Phase::Collecting,
        ensures
            (final(self)@, r@) == old(self)@.next(EventModel::Collected { oom_kills }),
    {
        let (code, signal): (Option<i32>, Option<i32>) = match self.leader {
            Some(LeaderEnd::Status { code, signal }) => (code, signal),
            _ => (None, None),
        };
        let mut outcome: RunOutcome = match self.stop_reason {
            Some(reason) => reason,
            None => match self.leader {
                Some(LeaderEnd::Status { code: _, signal }) => exit_outcome(signal),
                _ => RunOutcome::Signaled,
            },
        };
        if oom_kills > 0 {
            self.limit_event = Some(
                "the kernel OOM-killed ".to_owned().concat(dec_of(oom_kills).as_str()).concat(
                    " process(es) in the run's cgroup",
                ),
            );
            if outcome == RunOutcome::Signaled || outcome == RunOutcome::Exited {
                outcome = RunOutcome::ResourceLimit;
            }
        }
        self.phase = Phase::Done;
        let own: Option<String> = status_detail(code, signal);
        Action::Finish(
            FinishRequest {
                outcome,
                exit_code: code,
                signal,
                cleanup: self.cleanup,
                detail: if own.is_some() {
                    own
                } else {
                    copy_opt(&self.detail)
                },
            },
        )
    }

    /// Takes what came of the last action and says what to do next.
    pub fn step(&mut self, event: Event) -> (r: Action)
        ensures
            (final(self)@, r@) == old(self)@.next(event@),
    {
        match (self.phase, event) {
            (Phase::Begin, Event::Begun { accepted, cancelled }) => {
                if !accepted {
                    self.phase = Phase::Done;
                    Action::Abandon
                } else if cancelled {
                    self.phase = Phase::Done;
                    Action::Finish(
                        FinishRequest::unspawned(
                            RunOutcome::Cancelled,
                            "cancelled before spawn".to_owned(),
                        ),
                    )
                } else {
                    self.phase = Phase::Preparing;
                    Action::PrepareDirectory
                }
            },
            (Phase::Preparing, Event::Prepared { error }) => match error {
                Some(why) => self.fail("run directory: ".to_owned().concat(why.as_str())),
                None => {
                    self.phase = Phase::SettingUp;
                    Action::SetUpCgroup(cgroup_limits(&self.resources))
                },
            },
            (Phase::SettingUp, Event::CgroupReady { applied }) => {
                self.applied = applied;
                self.phase = Phase::Spawning;
                Action::Spawn
            },
            (Phase::SettingUp, Event::CgroupFailed { why: error }) => {
                if self.resources.enforcement == Enforcement::Hard {
                    self.fail("cgroup setup failed: ".to_owned().concat(error.as_str()))
                } else {
                    // No hard limit was promised: run anyway, with
                    // process-group cleanup only.
                    self.applied = None;
                    self.phase = Phase::Spawning;
                    Action::Spawn
                }
            },
            (Phase::Spawning, Event::Spawned { error }) => match error {
                Some(why) => self.fail("spawn failed: ".to_owned().concat(why.as_str())),
                None => {
                    let limits: EffectiveLimits = with_applied(
                        effective_limits(&self.resources),
                        &self.applied,
                    );
                    assert(effective_model(limits) == limits_in_force(
                        self.resources,
                        self.applied,
                    ));
                    self.monitored = monitored_memory(&limits);
                    self.phase = Phase::Watching;
                    Action::Run(limits)
                },
            },
            (Phase::Watching, Event::Ticked { leader, usage, cancelled, elapsed }) => self.tick(
                leader,
                usage,
                cancelled,
                elapsed,
            ),
            (Phase::Checking, Event::Checked { left_behind }) => {
                if left_behind {
                    self.phase = Phase::Stopping;
                    Action::StopGroup { forced: false }
                } else {
                    self.phase = Phase::Collecting;
                    Action::Collect
                }
            },
            (Phase::Stopping, Event::Stopped { cleanup, leader }) => {
                self.cleanup = cleanup;
                if self.leader.is_none() {
                    self.leader = leader;
                }
                self.phase = Phase::Collecting;
                Action::Collect
            },
            (Phase::Collecting, Event::Collected { oom_kills }) => self.conclude(oom_kills),
            _ => {
                if self.phase == Phase::Done {
                    Action::Abandon
                } else {
                    Action::Wait
                }
            },
        }
    }
}

// ---------------------------------------------------------------------------
// The stop sequence
// ---------------------------------------------------------------------------

/// Where the stop sequence stands.
#[derive(Debug, Clone, Copy, PartialEq, Eq, Structural)]
pub enum StopPhase {
    /// The run is marked as stopping and its group sampled.
    Begin,
    /// The group was asked to end.
    Grace,
    /// The cgroup was killed; the group is next.
    Killing,
    /// The group was killed.
    Reaping,
    Done,
}

/// What the program around the library saw.
#[derive(Debug, Clone, Copy, PartialEq, Eq, Structural)]
pub enum StopEvent {
    /// Whether the group still holds a recorded process, and whether the run
    /// has a cgroup.
    Sampled { ours: bool, cgroup: bool },
    /// Whether group and cgroup are empty, and how long the present wait has
    /// lasted.
    Polled { gone: bool, waited: Duration },
    /// Whether the group still holds a recorded process.
    Rechecked { ours: bool },
}

/// What to do next.
#[derive(Debug, Clone, Copy, PartialEq, Eq, Structural)]
pub enum StopAction {
    /// Send SIGTERM to the group where `signal` is set, then poll.
    Terminate { signal: bool },
    /// Sleep briefly and poll again.
    Wait,
    /// Kill every process of the cgroup where there is one, then see whether
    /// the group is still the run's.
    KillCgroup { active: bool },
    /// Send SIGKILL to the group where `signal` is set, then poll.
    KillGroup { signal: bool },
    /// The sequence is over.
    Report(CleanupState),
}

/// The one stop algorithm used by timeout, cancel and group exit: SIGTERM the
/// group, escalate after the grace period, then report how much of the group
/// is really gone.
#[derive(Debug, Clone, Copy, PartialEq, Eq, Structural)]
pub struct Stopper {
    pub phase: StopPhase,
    pub grace: Duration,
    pub cgroup: bool,
    pub report: CleanupState,
}

/// The grace period in force: fifty milliseconds at the least.
pub open spec fn grace_of(grace: nat) -> nat {
    if grace >= 50_000_000 {
        grace
    } else {
        50_000_000
    }
}

impl Stopper {
    pub open spec fn ended(self, report: CleanupState) -> (Stopper, StopAction) {
        (Stopper { phase: StopPhase::Done, report, ..self }, StopAction::Report(report))
    }

    pub open spec fn at(self, phase: StopPhase) -> Stopper {
        Stopper { phase, ..self }
    }

    /// What follows an event. An event that does not belong to the phase
    /// changes nothing.
    pub open spec fn next(self, e: StopEvent) -> (Stopper, StopAction) {
        match (self.phase, e) {
            (StopPhase::Begin, StopEvent::Sampled { ours, cgroup }) => if !ours && !cgroup {
                // Nothing verifiable remains: the group id may have been
                // reused, so signalling it could hit an unrelated process.
                self.ended(CleanupState::Unknown)
            } else {
                (
                    Stopper { cgroup, ..self.at(StopPhase::Grace) },
                    StopAction::Terminate { signal: ours },
                )
            },
            (StopPhase::Grace, StopEvent::Polled { gone, waited }) => if waited@ >= self.grace@ {
                (self.at(StopPhase::Killing), StopAction::KillCgroup { active: self.cgroup })
            } else if gone {
                self.ended(CleanupState::Complete)
            } else {
                (self, StopAction::Wait)
            },
            (StopPhase::Killing, StopEvent::Rechecked { ours }) => (
                self.at(StopPhase::Reaping),
                StopAction::KillGroup { signal: ours },
            ),
            (StopPhase::Reaping, StopEvent::Polled { gone, waited }) => if waited@
                >= KILL_GRACE_MS * 1_000_000 {
                self.ended(CleanupState::Incomplete)
            } else if gone {
                self.ended(CleanupState::Complete)
            } else {
                (self, StopAction::Wait)
            },
            _ => (
                self,
                if self.phase == StopPhase::Done {
                    StopAction::Report(self.report)
                } else {
                    StopAction::Wait
                },
            ),
        }
    }

    pub fn new(grace: Duration) -> (r: Stopper)
        ensures
            r.phase == StopPhase::Begin,
            r.grace@ == grace_of(grace@),
            !r.cgroup,
            r.report == CleanupState::Pending,
    {
        Stopper {
            phase: StopPhase::Begin,
            grace: grace.longest(Duration::from_millis(50)),
            cgroup: false,
            report: CleanupState::Pending,
        }
    }

    fn end(&mut self, report: CleanupState) -> (r: StopAction)
        ensures
            (*final(self), r) == old(self).ended(report),
    {
        self.phase = StopPhase::Done;
        self.report = report;
        StopAction::Report(report)
    }

    /// Takes what was seen and says what to do next.
    pub fn step(&mut self, event: StopEvent) -> (r: StopAction)
        ensures
            (*final(self), r) == old(self).next(event),
    {
        match (self.phase, event) {
            (StopPhase::Begin, StopEvent::Sampled { ours, cgroup }) => {
                if !ours && !cgroup {
                    self.end(CleanupState::Unknown)
                } else {
                    self.cgroup = cgroup;
                    self.phase = StopPhase::Grace;
                    StopAction::Terminate { signal: ours }
                }
            },
            (StopPhase::Grace, StopEvent::Polled { gone, waited }) => {
                if waited.at_least(self.grace) {
                    self.phase = StopPhase::Killing;
                    StopAction::KillCgroup { active: self.cgroup }
                } else if gone {
                    self.end(CleanupState::Complete)
                } else {
                    StopAction::Wait
                }
            },
            (StopPhase::Killing, StopEvent::Rechecked { ours }) => {
                self.phase = StopPhase::Reaping;
                StopAction::KillGroup { signal: ours }
            },
            (StopPhase::Reaping, StopEvent::Polled { gone, waited }) => {
                if waited.at_least(Duration::from_millis(KILL_GRACE_MS)) {
                    self.end(CleanupState::Incomplete)
                } else if gone {
                    self.end(CleanupState::Complete)
                } else {
                    StopAction::Wait
                }
            },
            _ => {
                if self.phase == StopPhase::Done {
                    StopAction::Report(self.report)
                } else {
                    StopAction::Wait
                }
            },
        }
    }
}

/// The reason that is published when a run is being stopped.
pub fn stop_reason_name(forced: bool) -> (r: &'static str)
    ensures
        r@ == if forced {
            "timeout"@
        } else {
            "stop"@
        },
{
    if forced {
        "timeout"
    } else {
        "stop"
    }
}

/// The stop sequence step by step. The group is asked to end where it is the
/// run's own or a cgroup is in use; it has the grace period to do so; then
/// the cgroup and the group are killed, and two more seconds may pass.
pub proof fn the_stop_sequence_escalates(
    s: Stopper,
    ours: bool,
    cgroup: bool,
    gone: bool,
    waited: Duration,
)
    ensures
        s.phase == StopPhase::Begin && (ours || cgroup) ==> {
            let n = s.next(StopEvent::Sampled { ours, cgroup });
            &&& n.0 == Stopper { phase: StopPhase::Grace, cgroup, ..s }
            &&& n.1 == (StopAction::Terminate { signal: ours })
        },
        s.phase == StopPhase::Begin && !ours && !cgroup ==> s.next(
            StopEvent::Sampled { ours, cgroup },
        ).1 == StopAction::Report(CleanupState::Unknown),
        s.phase == StopPhase::Grace && waited@ < s.grace@ ==> s.next(
            StopEvent::Polled { gone, waited },
        ).1 == (if gone {
            StopAction::Report(CleanupState::Complete)
        } else {
            StopAction::Wait
        }),
        s.phase == StopPhase::Grace && waited@ >= s.grace@ ==> {
            let n = s.next(StopEvent::Polled { gone, waited });
            &&& n.0 == Stopper { phase: StopPhase::Killing, ..s }
            &&& n.1 == (StopAction::KillCgroup { active: s.cgroup })
        },
        s.phase == StopPhase::Killing ==> {
            let n = s.next(StopEvent::Rechecked { ours });
            &&& n.0 == Stopper { phase: StopPhase::Reaping, ..s }
            &&& n.1 == (StopAction::KillGroup { signal: ours })
        },
        s.phase == StopPhase::Reaping && waited@ < 2_000_000_000 ==> s.next(
            StopEvent::Polled { gone, waited },
        ).1 == (if gone {
            StopAction::Report(CleanupState::Complete)
        } else {
            StopAction::Wait
        }),
        s.phase == StopPhase::Reaping && waited@ >= 2_000_000_000 ==> s.next(
            StopEvent::Polled { gone, waited },
        ).1 == StopAction::Report(CleanupState::Incomplete),
{
}

/// The grace period of a stop is the one that was asked for, but never less
/// than fifty milliseconds.
pub proof fn grace_is_at_least_fifty_milliseconds(grace: nat)
    ensures
        grace_of(grace) >= 50_000_000,
        grace_of(grace) == grace || grace < 50_000_000 && grace_of(grace) == 50_000_000,
{
}

/// A group is signaled only where a process that the run recorded is still in
/// it.
pub proof fn only_own_groups_are_signaled(s: Stopper, e: StopEvent)
    ensures
        s.next(e).1 == (StopAction::Terminate { signal: true }) ==> e matches StopEvent::Sampled {
            ours: true,
            ..
        },
        s.next(e).1 == (StopAction::KillGroup { signal: true }) ==> e
            == (StopEvent::Rechecked { ours: true }),
{
}

/// A cleanup is called complete only where group and cgroup were seen empty,
/// and incomplete only after everything was killed.
pub proof fn cleanup_is_reported_honestly(s: Stopper, e: StopEvent)
    requires
        s.phase != StopPhase::Done,
    ensures
        s.next(e).1 == StopAction::Report(CleanupState::Complete) ==> e matches StopEvent::Polled {
            gone: true,
            ..
        },
        s.next(e).1 == StopAction::Report(CleanupState::Incomplete) ==> s.phase
            == StopPhase::Reaping,
        s.next(e).1 == StopAction::Report(CleanupState::Unknown) ==> e == (StopEvent::Sampled {
            ours: false,
            cgroup: false,
        }),
{
}

} // verus!

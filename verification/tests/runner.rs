use wyd::model::boot::BootId;
use wyd::model::process::ProcessIdentity;
use wyd::model::run::{
    backend_capabilities, CleanupState, EffectiveLimits, Enforcement, LogState, Platform, RunId,
    RunOutcome, RunRecord, RunSpec, RunState,
};
use wyd::platform::pgroup::GroupUsage;
use wyd::runner::logs::{read_chunk, GlobalBudget, LogSink, Stream};
use wyd::runner::run::{
    check_start, count_survivors, elapsed, is_same_boot, prune_before, recover, recovery_groups,
    CgroupApplied, LeaderEnd, Limited, RunView, StartError, TableEntry,
};
use wyd::runner::scheduler::{Limits, RejectReason};
use wyd::runner::supervisor::{AggregateCaps, Begun, CancelEffect, RunInsert, Supervisor};
use wyd::runner::worker::{
    Action, Event, FinishRequest, StopAction, StopEvent, Stopper, Worker,
};
use wyd::time::Duration;

const NOW: u64 = 1_750_000_000;

fn at(secs: u64) -> Duration {
    Duration::from_secs(secs)
}

fn limits() -> Limits {
    Limits {
        max_parallel: 1,
        max_parallel_per_project: 1,
        max_queued: 4,
        queue_timeout: Duration::from_secs(30),
        memory_budget_bytes: 100 * 1024 * 1024,
        default_run_memory_bytes: 10 * 1024 * 1024,
        starvation_after: Duration::from_secs(5),
        cpu_budget_millicores: None,
        pids_budget: None,
    }
}

fn sup_with(limits: Limits) -> Supervisor {
    Supervisor::new(
        limits,
        BootId::from_u128(7),
        "sup-1".into(),
        backend_capabilities(Platform::Linux, false),
    )
}

fn spec(name: &str, script: &str) -> RunSpec {
    let mut spec = RunSpec::new(
        &format!("req-{name}"),
        vec!["/bin/sh".into(), "-c".into(), script.into()],
        "/tmp".into(),
    );
    spec.timeout = Duration::from_secs(10);
    spec.grace = Duration::from_millis(300);
    spec
}

fn start(sup: &mut Supervisor, id: i64, spec: RunSpec, now: Duration) -> Begun {
    let (reply, begun) =
        sup.start(spec, Vec::new(), RunInsert::Created(RunId(id)), now, NOW);
    let started = reply.unwrap();
    assert!(started.created);
    assert_eq!(started.id, RunId(id));
    begun.unwrap()
}

fn view(sup: &Supervisor, id: i64, now: Duration) -> Option<RunView> {
    sup.get(RunId(id), now, &None, Vec::new())
}

fn exited(code: i32) -> FinishRequest {
    FinishRequest {
        outcome: RunOutcome::Exited,
        exit_code: Some(code),
        signal: None,
        cleanup: CleanupState::Complete,
        detail: None,
    }
}

/// A worker that has spawned its command.
fn spawned(spec: &RunSpec) -> (Worker, EffectiveLimits) {
    let mut w = Worker::new(spec);
    assert!(matches!(
        w.step(Event::Begun { accepted: true, cancelled: false }),
        Action::PrepareDirectory
    ));
    assert!(matches!(w.step(Event::Prepared { error: None }), Action::SetUpCgroup(_)));
    assert!(matches!(w.step(Event::CgroupReady { applied: None }), Action::Spawn));
    match w.step(Event::Spawned { error: None }) {
        Action::Run(limits) => (w, limits),
        other => panic!("a spawned command runs: {other:?}"),
    }
}

fn tick(w: &mut Worker, leader: Option<LeaderEnd>, cancelled: bool, secs: u64) -> Action {
    w.step(Event::Ticked { leader, usage: None, cancelled, elapsed: at(secs) })
}

fn finish(w: &mut Worker, oom_kills: u64) -> FinishRequest {
    match w.step(Event::Collected { oom_kills }) {
        Action::Finish(f) => f,
        other => panic!("the last step finishes: {other:?}"),
    }
}

#[test]
fn captures_exit_code_and_both_streams() {
    let (mut w, _) = spawned(&spec("streams", "echo out; echo err >&2; exit 3"));
    assert!(matches!(tick(&mut w, None, false, 0), Action::Wait));
    let end = LeaderEnd::Status { code: Some(3), signal: None };
    assert!(matches!(tick(&mut w, Some(end), false, 1), Action::CheckGroup));
    assert!(matches!(w.step(Event::Checked { left_behind: false }), Action::Collect));
    let f = finish(&mut w, 0);
    assert_eq!(f.outcome, RunOutcome::Exited);
    assert_eq!(f.exit_code, Some(3));
    assert_eq!(f.cleanup, CleanupState::Complete);
}

#[test]
fn timeout_escalates_past_ignored_term() {
    let mut s = spec("timeout", "trap '' TERM; sleep 30");
    s.timeout = Duration::from_millis(200);
    s.grace = Duration::from_millis(200);
    let (mut w, _) = spawned(&s);
    assert!(matches!(tick(&mut w, None, false, 1), Action::StopGroup { .. }));

    let mut stop = Stopper::new(s.grace);
    let ours = StopEvent::Sampled { ours: true, cgroup: false };
    assert_eq!(stop.step(ours), StopAction::Terminate { signal: true });
    let held = StopEvent::Polled { gone: false, waited: Duration::from_millis(100) };
    assert_eq!(stop.step(held), StopAction::Wait);
    // The grace period is over and TERM was ignored: the group is killed.
    let late = StopEvent::Polled { gone: false, waited: at(60) };
    assert_eq!(stop.step(late), StopAction::KillCgroup { active: false });
    assert_eq!(stop.step(StopEvent::Rechecked { ours: true }), StopAction::KillGroup { signal: true });
    let gone = StopEvent::Polled { gone: true, waited: Duration::from_millis(50) };
    assert_eq!(stop.step(gone), StopAction::Report(CleanupState::Complete));

    let killed = LeaderEnd::Status { code: None, signal: Some(9) };
    w.step(Event::Stopped { cleanup: CleanupState::Complete, leader: Some(killed) });
    let f = finish(&mut w, 0);
    assert_eq!(f.outcome, RunOutcome::TimedOut);
    assert_eq!(f.cleanup, CleanupState::Complete);
}

#[test]
fn cancel_stops_a_running_command() {
    let mut sup = sup_with(limits());
    start(&mut sup, 1, spec("cancel", "sleep 30"), at(0));
    sup.transition(RunId(1), RunState::Running, CleanupState::Pending, None);
    assert!(matches!(sup.cancel(RunId(1), at(1), NOW), CancelEffect::Flagged));

    let (mut w, _) = spawned(&spec("cancel", "sleep 30"));
    assert!(matches!(tick(&mut w, None, true, 1), Action::StopGroup { .. }));
    w.step(Event::Stopped { cleanup: CleanupState::Complete, leader: None });
    let f = finish(&mut w, 0);
    assert_eq!(f.outcome, RunOutcome::Cancelled);
    assert_eq!(f.cleanup, CleanupState::Complete);
    let done = sup.finish(RunId(1), f, None, at(2), NOW + 2).unwrap();
    assert_eq!(done.result.outcome, RunOutcome::Cancelled);
    // Cancelling again finds nothing live.
    assert!(matches!(sup.cancel(RunId(1), at(3), NOW), CancelEffect::NotLive));
}

#[test]
fn worker_that_outlives_its_leader_is_cleaned_up() {
    let (mut w, _) = spawned(&spec("orphan", "sleep 30 & echo $!; exit 0"));
    let end = LeaderEnd::Status { code: Some(0), signal: None };
    assert!(matches!(tick(&mut w, Some(end), false, 1), Action::CheckGroup));
    assert!(matches!(w.step(Event::Checked { left_behind: true }), Action::StopGroup { .. }));
    w.step(Event::Stopped { cleanup: CleanupState::Complete, leader: None });
    let f = finish(&mut w, 0);
    assert_eq!(f.outcome, RunOutcome::Exited);
    assert_eq!(f.cleanup, CleanupState::Complete);
}

#[test]
fn repeated_request_id_does_not_start_a_second_process() {
    let mut sup = sup_with(Limits::default());
    start(&mut sup, 1, spec("dedupe", "echo once"), at(0));
    let again = spec("dedupe", "echo once");
    let (second, begun) =
        sup.start(again, Vec::new(), RunInsert::Existing(RunId(1)), at(0), NOW);
    let second = second.unwrap();
    assert!(!second.created);
    assert_eq!(second.id, RunId(1));
    assert!(begun.is_none(), "nothing is started");
    assert_eq!(sup.active_runs(), 1);
    // A different command under the same key is a conflict, not a second run.
    let other = spec("dedupe", "echo different");
    assert_ne!(other.fingerprint(), spec("dedupe", "echo once").fingerprint());
    let (conflict, begun) =
        sup.start(other, Vec::new(), RunInsert::Conflict(RunId(1)), at(0), NOW);
    assert!(matches!(conflict, Err(StartError::Conflict { .. })));
    assert!(begun.is_none());
}

#[test]
fn output_beyond_the_limit_is_dropped_and_marked() {
    let mut logs = LogState::default();
    let mut budget = GlobalBudget::new(1 << 20, 0);
    let mut sink = LogSink::open(0, Stream::Stdout, 10, &mut logs);
    let data = b"0123456789abcdefghij";
    let kept = sink.write_all_bounded(data, &mut budget);
    sink.stored(kept.len() as u64, data.len(), &mut logs);
    assert!(logs.stdout_truncated, "truncation must be reported");
    assert_eq!(logs.stdout_bytes, 10);
    assert_eq!(read_chunk(&Some(kept), 0, 1 << 20).data, "0123456789");
}

#[test]
fn spawn_failure_is_reported_without_guessing_an_exit_code() {
    let mut w = Worker::new(&spec("spawnfail", "true"));
    w.step(Event::Begun { accepted: true, cancelled: false });
    w.step(Event::Prepared { error: None });
    w.step(Event::CgroupReady { applied: None });
    match w.step(Event::Spawned { error: Some("No such file or directory".into()) }) {
        Action::Finish(f) => {
            assert_eq!(f.outcome, RunOutcome::SpawnFailed);
            assert_eq!(f.exit_code, None);
            assert_eq!(f.cleanup, CleanupState::Complete);
            assert_eq!(f.detail.as_deref(), Some("spawn failed: No such file or directory"));
        },
        other => panic!("a failed spawn finishes the run: {other:?}"),
    }
}

#[test]
fn recovery_reaps_orphans_from_a_dead_supervisor() {
    let boot = BootId::from_u128(7);
    let worker = ProcessIdentity { boot_id: boot, pid: 500, start_time: 9000 };
    let table = vec![
        TableEntry { pid: 500, start: Some(9000), pgid: Some(499) },
        TableEntry { pid: 600, start: Some(9001), pgid: Some(600) },
    ];
    let record = RunRecord {
        id: RunId(4),
        spec: spec("recovery", "sleep 30"),
        state: RunState::Running,
        result: None,
        logs: LogState::default(),
        revision: 2,
        created_at: NOW,
        leader: Some(worker),
        supervisor: Some("dead".into()),
        effective: EffectiveLimits::default(),
        queue_wait_ms: 0,
        limit_event: None,
    };
    assert!(is_same_boot(&record.leader, &boot));
    assert_eq!(recovery_groups(&vec![worker], &table, &boot), vec![499]);
    assert_eq!(count_survivors(&vec![worker], &table), 1);
    // The group was stopped, and nothing of it is left.
    let (revision, result) = recover(&record, true, 1, 0, NOW + 5);
    assert_eq!(revision, 3);
    assert_eq!(result.outcome, RunOutcome::SupervisorLost);
    assert_eq!(result.exit_code, None, "no exit code may be invented");
    assert_eq!(result.cleanup, CleanupState::Complete);
    // After a reboot nothing can be said of its processes.
    assert!(!is_same_boot(&record.leader, &BootId::from_u128(8)));
    assert_eq!(recover(&record, false, 0, 0, NOW).1.cleanup, CleanupState::Unknown);
    assert_eq!(recover(&record, true, 0, 1, NOW).1.cleanup, CleanupState::Incomplete);
}

#[test]
fn a_reused_pid_is_not_recovered() {
    let boot = BootId::from_u128(7);
    let worker = ProcessIdentity { boot_id: boot, pid: 500, start_time: 9000 };
    let table = vec![TableEntry { pid: 500, start: Some(12345), pgid: Some(500) }];
    assert!(recovery_groups(&vec![worker], &table, &boot).is_empty());
    assert_eq!(count_survivors(&vec![worker], &table), 0);
}

#[test]
fn cancel_all_stops_every_live_run() {
    let mut sup = sup_with(Limits::default());
    let specs = [spec("cancel-all-1", "sleep 30"), spec("cancel-all-2", "sleep 30")];
    let mut workers = Vec::new();
    for (i, s) in specs.iter().enumerate() {
        let id = i as i64 + 1;
        assert!(matches!(start(&mut sup, id, s.clone(), at(0)), Begun::Worker(_)));
        workers.push((RunId(id), spawned(s).0));
        assert!(!sup.is_cancelled(RunId(id)));
    }
    let effects = sup.cancel_all(at(1), NOW);
    assert_eq!(effects.len(), 2);
    assert!(effects.iter().all(|e| matches!(e, CancelEffect::Flagged)));
    for (id, w) in &mut workers {
        let told = sup.is_cancelled(*id);
        assert!(matches!(tick(w, None, told, 1), Action::StopGroup { forced: false }));
        w.step(Event::Stopped { cleanup: CleanupState::Complete, leader: None });
        let done = sup.finish(*id, finish(w, 0), None, at(2), NOW + 2).unwrap();
        assert_eq!(done.result.outcome, RunOutcome::Cancelled);
        assert_eq!(done.result.cleanup, CleanupState::Complete);
    }
    assert_eq!(sup.active_runs(), 0);
}

#[test]
fn cancel_all_reaches_the_queue() {
    let mut sup = sup_with(limits());
    start(&mut sup, 1, spec("cancel-all-1", "sleep 30"), at(0));
    start(&mut sup, 2, spec("cancel-all-2", "sleep 30"), at(0));
    let effects = sup.cancel_all(at(1), NOW);
    assert_eq!(effects.len(), 2);
    assert!(effects.iter().all(|e| !matches!(e, CancelEffect::NotLive)));
    // The queued one is gone, the running one is told to stop.
    assert!(view(&sup, 2, at(1)).is_none());
    assert_eq!(sup.active_runs(), 1);
}

#[test]
fn a_full_slot_queues_the_next_run_then_admits_it() {
    let mut sup = sup_with(limits());
    assert!(matches!(start(&mut sup, 1, spec("q1", "sleep 1"), at(0)), Begun::Worker(_)));
    assert!(matches!(start(&mut sup, 2, spec("q2", "echo second"), at(0)), Begun::Queued(_)));
    let v = view(&sup, 2, at(0)).unwrap();
    assert_eq!(v.state, RunState::Queued);
    assert_eq!(v.queue.position, Some(1));
    assert!(v.queue.reason.is_some());

    let done = sup.finish(RunId(1), exited(0), None, at(1), NOW + 1).unwrap();
    assert_eq!(done.result.outcome, RunOutcome::Exited);
    assert_eq!(done.started.len(), 1);
    assert_eq!(done.started[0].0, RunId(2));

    let v = view(&sup, 2, at(1)).unwrap();
    assert_ne!(v.queue.position, Some(1));
    assert_eq!(v.queue.waiting_ms, 1000, "the wait must be reported");
    let second = sup.finish(RunId(2), exited(0), None, at(2), NOW + 2).unwrap();
    assert_eq!(second.result.outcome, RunOutcome::Exited);
    assert_eq!(second.result.cleanup, CleanupState::Complete);
    assert_eq!(sup.active_runs(), 0);
}

#[test]
fn queue_cancel_never_spawns_the_command() {
    let mut sup = sup_with(limits());
    start(&mut sup, 1, spec("qc1", "sleep 2"), at(0));
    start(&mut sup, 2, spec("qc2", "echo should-not-run"), at(0));
    assert_eq!(view(&sup, 2, at(0)).unwrap().state, RunState::Queued);
    match sup.cancel(RunId(2), at(1), NOW + 1) {
        CancelEffect::Dropped(f) => {
            assert_eq!(f.result.outcome, RunOutcome::Cancelled);
            assert_eq!(f.result.cleanup, CleanupState::Complete);
            assert_eq!(f.result.started_at, None);
        },
        other => panic!("a queued run is dropped: {other:?}"),
    }
    // The slot that run 1 gives back starts nothing.
    let done = sup.finish(RunId(1), exited(0), None, at(2), NOW + 2).unwrap();
    assert!(done.started.is_empty(), "a cancelled queued run must not execute");
}

#[test]
fn queue_timeout_finishes_without_consuming_execution_time() {
    let mut l = limits();
    l.queue_timeout = Duration::from_millis(300);
    let mut sup = sup_with(l);
    start(&mut sup, 1, spec("qt1", "sleep 2"), at(0));
    start(&mut sup, 2, spec("qt2", "echo never"), at(0));
    assert!(sup.expire(Duration::from_millis(299), NOW).is_empty());
    let gone = sup.expire(Duration::from_millis(300), NOW);
    assert_eq!(gone.len(), 1);
    assert_eq!(gone[0].id, RunId(2));
    assert_eq!(gone[0].result.outcome, RunOutcome::TimedOut);
    assert_eq!(gone[0].result.started_at, None);
    let detail = gone[0].result.detail.clone().unwrap_or_default();
    assert!(detail.contains("queue timeout"), "detail must name the queue: {detail}");
}

#[test]
fn an_impossible_memory_request_is_rejected() {
    let mut sup = sup_with(limits());
    let mut s = spec("impossible", "echo never");
    s.resources.memory_bytes = Some(10 * 1024 * 1024 * 1024);
    let (reply, begun) = sup.start(s, Vec::new(), RunInsert::Created(RunId(1)), at(0), NOW);
    let err = reply.err().unwrap();
    assert!(matches!(err, StartError::Rejected(RejectReason::Impossible { .. })));
    assert!(err.to_text().contains("budget"), "{}", err.to_text());
    assert!(!matches!(begun, Some(Begun::Worker(_))));
    assert_eq!(sup.scheduler.queued_count(), 0);
}

#[test]
fn a_hard_memory_request_is_refused_before_spawn() {
    let caps = backend_capabilities(Platform::Linux, false);
    let mut s = spec("hard", "echo never");
    s.resources.memory_bytes = Some(1024 * 1024);
    s.resources.enforcement = Enforcement::Hard;
    let err = check_start(&s, &Vec::new(), &caps).err().unwrap();
    assert!(matches!(err, StartError::Unsupported(Limited::Memory, _)));
    assert!(err.to_text().contains("hard memory"), "{}", err.to_text());
    assert!(check_start(&s, &Vec::new(), &backend_capabilities(Platform::Linux, true)).is_ok());
}

#[test]
fn a_run_needs_a_command_a_directory_and_a_small_environment() {
    let caps = backend_capabilities(Platform::Linux, false);
    let mut s = spec("x", "true");
    assert!(check_start(&s, &Vec::new(), &caps).is_ok());
    s.argv.clear();
    assert!(matches!(check_start(&s, &Vec::new(), &caps), Err(StartError::EmptyArgv)));
    let mut s = spec("x", "true");
    s.cwd = "relative".into();
    assert!(matches!(check_start(&s, &Vec::new(), &caps), Err(StartError::RelativeCwd)));
    let s = spec("x", "true");
    let big = vec![("K".to_string(), "v".repeat(300 * 1024))];
    assert!(matches!(check_start(&s, &big, &caps), Err(StartError::EnvironmentTooLarge)));
    let mut s = spec("x", "true");
    s.resources.enforcement = Enforcement::Hard;
    s.resources.cpu_millicores = Some(100);
    assert!(matches!(
        check_start(&s, &Vec::new(), &caps),
        Err(StartError::Unsupported(Limited::Cpu, _))
    ));
    s.resources.cpu_millicores = None;
    s.resources.processes = Some(8);
    assert!(matches!(
        check_start(&s, &Vec::new(), &caps),
        Err(StartError::Unsupported(Limited::ProcessCount, _))
    ));
}

#[test]
fn monitored_memory_stops_the_run_and_explains_itself() {
    let mut s = spec("monitored", "sleep 30");
    s.resources.memory_bytes = Some(1);
    s.resources.enforcement = Enforcement::Monitored;
    let (mut w, effective) = spawned(&s);
    assert_eq!(effective.enforcement, Enforcement::Monitored);
    assert!(effective.metric.is_some());
    let over = Event::Ticked {
        leader: None,
        usage: Some(GroupUsage { processes: 1, memory_bytes: 4096 }),
        cancelled: false,
        elapsed: at(0),
    };
    assert!(matches!(w.step(over), Action::StopGroup { .. }));
    w.step(Event::Stopped { cleanup: CleanupState::Complete, leader: None });
    let f = finish(&mut w, 0);
    assert_eq!(f.outcome, RunOutcome::ResourceLimit);
    assert_eq!(f.cleanup, CleanupState::Complete);
    let event = w.limit_event().unwrap_or_default();
    assert!(event.contains("above the"), "{event}");

    // A cgroup that holds no limits changes nothing about the threshold.
    let mut w = Worker::new(&s);
    w.step(Event::Begun { accepted: true, cancelled: false });
    w.step(Event::Prepared { error: None });
    let unlimited = CgroupApplied { memory_max_bytes: None, cpu_max: None, pids_max: None };
    w.step(Event::CgroupReady { applied: Some(unlimited) });
    match w.step(Event::Spawned { error: None }) {
        Action::Run(e) => {
            assert_eq!(e.memory_bytes, Some(1));
            assert_eq!(e.enforcement, Enforcement::Monitored);
            assert_eq!(e.backend, "cgroup_v2");
        },
        other => panic!("the command runs: {other:?}"),
    }
    let over = Event::Ticked {
        leader: None,
        usage: Some(GroupUsage { processes: 1, memory_bytes: 4096 }),
        cancelled: false,
        elapsed: at(0),
    };
    assert!(matches!(w.step(over), Action::StopGroup { forced: false }));
    w.step(Event::Stopped { cleanup: CleanupState::Complete, leader: None });
    assert_eq!(finish(&mut w, 0).outcome, RunOutcome::ResourceLimit);
}

#[test]
fn a_kill_by_the_kernel_is_told_from_any_other_kill() {
    let killed = LeaderEnd::Status { code: None, signal: Some(9) };
    let end = |oom: u64| {
        let (mut w, _) = spawned(&spec("oom", "x"));
        tick(&mut w, Some(killed), false, 1);
        w.step(Event::Checked { left_behind: false });
        finish(&mut w, oom).outcome
    };
    assert_eq!(end(0), RunOutcome::Signaled);
    assert_eq!(end(1), RunOutcome::ResourceLimit);
}

#[test]
fn a_failed_cgroup_stops_a_hard_run_only() {
    let mut s = spec("hard", "true");
    s.resources.memory_bytes = Some(1 << 20);
    s.resources.enforcement = Enforcement::Hard;
    let setup = |s: &RunSpec| {
        let mut w = Worker::new(s);
        w.step(Event::Begun { accepted: true, cancelled: false });
        w.step(Event::Prepared { error: None });
        w.step(Event::CgroupFailed { why: "denied".into() })
    };
    match setup(&s) {
        Action::Finish(f) => assert_eq!(f.outcome, RunOutcome::SpawnFailed),
        other => panic!("a hard run without its limit does not start: {other:?}"),
    }
    assert!(matches!(setup(&spec("soft", "true")), Action::Spawn));
}

#[test]
fn applied_limits_are_reported_as_in_force() {
    let mut s = spec("hard", "true");
    s.resources.memory_bytes = Some(1 << 20);
    s.resources.enforcement = Enforcement::Hard;
    let mut w = Worker::new(&s);
    w.step(Event::Begun { accepted: true, cancelled: false });
    match w.step(Event::Prepared { error: None }) {
        Action::SetUpCgroup(l) => assert_eq!(l.memory_max_bytes, Some(1 << 20)),
        other => panic!("limits come before the spawn: {other:?}"),
    }
    let applied =
        CgroupApplied { memory_max_bytes: Some(1 << 20), cpu_max: None, pids_max: None };
    w.step(Event::CgroupReady { applied: Some(applied) });
    match w.step(Event::Spawned { error: None }) {
        Action::Run(e) => {
            assert_eq!(e.memory_bytes, Some(1 << 20));
            assert_eq!(e.enforcement, Enforcement::Hard);
        },
        other => panic!("a spawned command runs: {other:?}"),
    }
}

#[test]
fn capacity_reports_slots_and_the_queue() {
    let mut sup = sup_with(limits());
    start(&mut sup, 1, spec("cap1", "sleep 2"), at(0));
    start(&mut sup, 2, spec("cap2", "echo later"), at(0));
    let none = AggregateCaps { memory_max: None, cpu_millicores: None, pids_max: None };
    let capacity = sup.capacity(&none, at(1));
    assert_eq!(capacity.running, 1);
    assert_eq!(capacity.queued, 1);
    assert_eq!(capacity.slots_free, 0);
    assert_eq!(capacity.queue[0].run_id, RunId(2).to_text());
    assert!(capacity.reserved_memory_bytes > 0);
    assert!(capacity.reservation_note.contains("not measured RAM"));
    assert!(matches!(capacity.limits.max_parallel, 1));
}

#[test]
fn a_repeated_request_id_does_not_reserve_capacity_twice() {
    let mut sup = sup_with(limits());
    start(&mut sup, 1, spec("dup", "sleep 1"), at(0));
    let (again, _) =
        sup.start(spec("dup", "sleep 1"), Vec::new(), RunInsert::Existing(RunId(1)), at(0), NOW);
    let again = again.unwrap();
    assert!(!again.created);
    assert_eq!(again.id, RunId(1));
    let none = AggregateCaps { memory_max: None, cpu_millicores: None, pids_max: None };
    let capacity = sup.capacity(&none, at(0));
    assert_eq!(capacity.running, 1, "one slot for one request");
    assert_eq!(capacity.queued, 0, "a retry must not queue a second time");
    assert_eq!(
        capacity.reserved_memory_bytes,
        limits().default_run_memory_bytes,
        "one reservation, not two"
    );
}

#[test]
fn a_wall_clock_jump_still_expires_a_deadline() {
    let barely = Duration::from_millis(1);
    let slept = elapsed(barely, Some(Duration::from_secs(3600)));
    assert!(
        slept.at_least(Duration::from_secs(3599)),
        "a monotonic clock that barely moved must not hide an hour of sleep"
    );
    // Without a jump the monotonic clock is the honest source.
    assert!(!elapsed(barely, Some(Duration::from_millis(1))).at_least(Duration::from_secs(1)));
    // A wall clock that went backwards says nothing.
    assert_eq!(elapsed(barely, None), barely);
}

#[test]
fn a_foreign_group_is_never_signaled() {
    let mut stop = Stopper::new(Duration::from_millis(200));
    let foreign = StopEvent::Sampled { ours: false, cgroup: false };
    assert_eq!(stop.step(foreign), StopAction::Report(CleanupState::Unknown));
    // A run in its own cgroup is stopped through it, not through a group that
    // may be another's by now.
    let mut stop = Stopper::new(Duration::from_millis(200));
    let contained = StopEvent::Sampled { ours: false, cgroup: true };
    assert_eq!(stop.step(contained), StopAction::Terminate { signal: false });
}

#[test]
fn records_are_kept_for_a_week() {
    assert_eq!(prune_before(NOW), NOW - 7 * 24 * 3600);
    assert_eq!(prune_before(5), 0);
}

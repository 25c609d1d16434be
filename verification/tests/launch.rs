use wyd::model::boot::BootId;
use wyd::model::process::ProcessIdentity;
use wyd::model::run::{
    backend_capabilities, CleanupState, EffectiveLimits, Enforcement, LogState, Platform, RunId,
    RunRecord, RunSpec, RunState,
};
use wyd::model::session::RuntimeSessionId;
use wyd::platform::cgroup::CgroupRoot;
use wyd::platform::pgroup::GroupUsage;
use wyd::runner::launch::{
    lock_path, log_path, never_ready, LaunchAction, LaunchEvent, Launcher,
};
use wyd::runner::requests::claim;
use wyd::runner::run::{stale_cgroups, RunSlot, RunView};
use wyd::runner::scheduler::Limits;
use wyd::runner::supervisor::{Begun, CancelEffect, RunInsert, Supervisor};
use wyd::server::RunFilter;
use wyd::time::Duration;

const NOW: u64 = 1_750_000_000;

fn at(secs: u64) -> Duration {
    Duration::from_secs(secs)
}

#[test]
fn an_answering_supervisor_is_left_alone() {
    let mut l = Launcher::new();
    assert_eq!(l.step(LaunchEvent::Answered(true)), LaunchAction::Ready);
    assert_eq!(l.step(LaunchEvent::Answered(false)), LaunchAction::Ready);

    let mut late = Launcher::new();
    assert_eq!(late.step(LaunchEvent::Answered(false)), LaunchAction::Lock);
    assert_eq!(late.step(LaunchEvent::Locked(true)), LaunchAction::Ping);
    assert_eq!(late.step(LaunchEvent::Answered(true)), LaunchAction::Ready);
}

#[test]
fn a_supervisor_is_started_under_the_lock_and_waited_for() {
    let mut l = Launcher::new();
    l.step(LaunchEvent::Answered(false));
    l.step(LaunchEvent::Locked(true));
    assert_eq!(l.step(LaunchEvent::Answered(false)), LaunchAction::Start);
    assert_eq!(l.step(LaunchEvent::Started(Some(77))), LaunchAction::Poll);
    assert_eq!(
        l.step(LaunchEvent::Polled { waited: at(9), answered: false }),
        LaunchAction::Poll
    );
    let mut slow = l;
    assert_eq!(l.step(LaunchEvent::Polled { waited: at(9), answered: true }), LaunchAction::Ready);
    assert_eq!(
        slow.step(LaunchEvent::Polled { waited: at(10), answered: true }),
        LaunchAction::TimedOut { pid: 77 }
    );
}

#[test]
fn a_launch_that_fails_is_given_up() {
    let mut l = Launcher::new();
    l.step(LaunchEvent::Answered(false));
    let mut other = l;
    assert_eq!(l.step(LaunchEvent::Locked(false)), LaunchAction::GiveUp);
    other.step(LaunchEvent::Locked(true));
    other.step(LaunchEvent::Answered(false));
    assert_eq!(other.step(LaunchEvent::Started(None)), LaunchAction::GiveUp);
    assert_eq!(lock_path("/state/wyd.sock"), "/state/wyd.lock");
    assert_eq!(log_path("/state/wyd.sock"), "/state/wyd-serve.log");
    assert_eq!(
        never_ready(77, "/state/wyd.sock"),
        "supervisor did not become ready (pid 77); see /state/wyd-serve.log"
    );
}

#[test]
fn stale_cgroups_go_before_their_parent() {
    let root = CgroupRoot::new("/sys/fs/cgroup/user".into(), vec!["memory".into()]);
    let parent = root.prepare_parent("wyd.slice");
    let children = vec!["cgroup.procs".into(), "run-3".into(), "run-4".into()];
    assert_eq!(
        stale_cgroups(&parent, &children),
        vec![
            "/sys/fs/cgroup/user/wyd.slice/run-3",
            "/sys/fs/cgroup/user/wyd.slice/run-4",
            "/sys/fs/cgroup/user/wyd.slice",
        ]
    );
}

fn spec() -> RunSpec {
    let mut s = RunSpec::new("req", vec!["/bin/true".into()], "/tmp".into());
    s.resources.memory_bytes = Some(1024);
    s.resources.enforcement = Enforcement::Monitored;
    s
}

fn supervisor(parallel: usize) -> Supervisor {
    let limits = Limits { max_parallel: parallel, max_parallel_per_project: parallel, ..Limits::default() };
    Supervisor::new(
        limits,
        BootId::from_u128(7),
        "sup".into(),
        backend_capabilities(Platform::Linux, true),
    )
}

fn record(id: i64) -> RunRecord {
    RunRecord {
        id: RunId(id),
        spec: spec(),
        state: RunState::Running,
        result: None,
        logs: LogState::default(),
        revision: 2,
        created_at: NOW,
        leader: None,
        supervisor: Some("sup".into()),
        effective: EffectiveLimits {
            memory_bytes: Some(4096),
            backend: "cgroup_v2".into(),
            ..EffectiveLimits::default()
        },
        queue_wait_ms: 12,
        limit_event: None,
    }
}

#[test]
fn a_live_view_names_what_the_backend_applied() {
    let mut sup = supervisor(1);
    let (_, begun) = sup.start(spec(), Vec::new(), RunInsert::Created(RunId(1)), at(0), NOW);
    assert!(matches!(begun, Some(Begun::Worker(_))));
    let row = Some(record(1));
    let before = sup.get(RunId(1), at(1), &row, Vec::new()).unwrap();
    assert_eq!(before.effective.memory_bytes, Some(1024));
    assert_eq!(before.effective.backend, "process_group");

    let leader = ProcessIdentity { boot_id: BootId::from_u128(7), pid: 50, start_time: 9 };
    assert_eq!(sup.spawned(RunId(1), 50, Some(leader), at(1)), Some(0));
    let after = sup.get(RunId(1), at(1), &row, Vec::new()).unwrap();
    assert_eq!(after.effective.memory_bytes, Some(4096));
    assert_eq!(after.effective.backend, "cgroup_v2");
    assert_eq!(after.created_at, NOW);
    assert_eq!(after.supervisor.as_deref(), Some("sup"));
    assert!(sup.spawned(RunId(2), 51, None, at(1)).is_none());
}

#[test]
fn samples_and_limits_show_in_the_view() {
    let mut sup = supervisor(1);
    sup.start(spec(), Vec::new(), RunInsert::Created(RunId(1)), at(0), NOW).0.unwrap();
    let who = |pid: u32| ProcessIdentity { boot_id: BootId::from_u128(7), pid, start_time: 9 };
    sup.spawned(RunId(1), 50, Some(who(50)), at(1));
    let usage = GroupUsage { processes: 2, memory_bytes: 2048 };
    assert_eq!(sup.sampled(RunId(1), &vec![who(50), who(51)], usage), vec![who(51)]);
    assert!(sup.sampled(RunId(1), &vec![who(50), who(51)], usage).is_empty());
    sup.limited(RunId(1), "observed 2048 bytes", true);
    sup.logged(RunId(1), LogState { stdout_bytes: 3, ..LogState::default() });
    let v = sup.get(RunId(1), at(2), &None, Vec::new()).unwrap();
    assert_eq!(v.observed_memory_bytes, Some(2048));
    assert_eq!(v.observed_processes, Some(2));
    assert_eq!(v.limit_event.as_deref(), Some("observed 2048 bytes"));
    assert_eq!(v.detail.as_deref(), Some("observed 2048 bytes"));
    assert_eq!(v.logs.stdout_bytes, 3);
}

#[test]
fn cancelling_twice_is_cancelling_once() {
    let mut sup = supervisor(1);
    sup.start(spec(), Vec::new(), RunInsert::Created(RunId(1)), at(0), NOW).0.unwrap();
    sup.start(spec(), Vec::new(), RunInsert::Created(RunId(2)), at(0), NOW).0.unwrap();
    assert!(!sup.is_cancelled(RunId(1)));
    for _ in 0..2 {
        assert!(matches!(sup.cancel(RunId(1), at(1), NOW), CancelEffect::Flagged));
        assert!(sup.is_cancelled(RunId(1)));
    }
    assert!(matches!(sup.cancel(RunId(2), at(1), NOW), CancelEffect::Dropped(_)));
    assert!(matches!(sup.cancel(RunId(2), at(1), NOW), CancelEffect::NotLive));
    assert_eq!(sup.active_runs(), 1);
}

#[test]
fn a_stored_run_reads_the_same_with_and_without_a_supervisor() {
    let r = record(5);
    let caps = backend_capabilities(Platform::Linux, true);
    let plain = RunView::from_record(&r, &caps);
    let live = RunSlot::from_record(&r).show(at(3), None, &Some(r.clone()), &caps, Vec::new());
    assert_eq!(plain.run_id, live.run_id);
    assert_eq!(plain.state, live.state);
    assert_eq!(plain.cleanup, CleanupState::Unknown);
    assert_eq!(live.cleanup, CleanupState::Unknown);
    assert_eq!(plain.effective.backend, live.effective.backend);
    assert_eq!(plain.queue.waiting_ms, 12);
    assert_eq!(live.queue.waiting_ms, 12);
    assert_eq!(plain.created_at, live.created_at);
}

#[test]
fn a_request_key_names_one_run_for_a_day() {
    let rows = vec![record(4), record(5)];
    let mut again = spec();
    again.timeout = at(9999);
    again.log_limit_bytes = 1;
    again.resources.memory_bytes = None;
    assert_eq!(claim(&rows, &again, NOW), Some(RunInsert::Existing(RunId(5))));
    assert_eq!(
        claim(&rows, &again, NOW + 24 * 3600 - 1),
        Some(RunInsert::Existing(RunId(5)))
    );
    assert_eq!(claim(&rows, &again, NOW + 24 * 3600), None);

    let mut other = spec();
    other.argv.push("--flag".into());
    assert_eq!(claim(&rows, &other, NOW), Some(RunInsert::Conflict(RunId(5))));
    let mut apart = record(6);
    apart.spec.argv = vec!["echo".into(), "hi/a".into()];
    apart.spec.cwd = "/b".into();
    let mut moved = spec();
    moved.argv = vec!["echo".into(), "hi".into()];
    moved.cwd = "/a/b".into();
    assert_eq!(claim(&vec![apart], &moved, NOW), Some(RunInsert::Conflict(RunId(6))));
    let mut free = spec();
    free.request_id = "another".into();
    assert_eq!(claim(&rows, &free, NOW), None);
    assert_eq!(claim(&Vec::new(), &again, NOW), None);
}

#[test]
fn a_listing_keeps_the_runs_asked_for() {
    let any = RunFilter { project: None, session: None, state: None, limit: None };
    assert!(any.admits(&record(1)));

    let mut row = record(2);
    row.spec.project_root = Some("/work/app".into());
    row.spec.session_id = Some(RuntimeSessionId::from_u64(11));
    let of = |project: &str, session: u64, state: RunState| RunFilter {
        project: Some(project.into()),
        session: Some(RuntimeSessionId::from_u64(session)),
        state: Some(state),
        limit: None,
    };
    assert!(of("/work/app", 11, RunState::Running).admits(&row));
    assert!(!of("/work", 11, RunState::Running).admits(&row));
    assert!(!of("/work/app", 12, RunState::Running).admits(&row));
    assert!(!of("/work/app", 11, RunState::Queued).admits(&row));
    assert!(!of("/work/app", 11, RunState::Running).admits(&record(2)));
}

use wyd::model::run::RunId;
use wyd::runner::scheduler::{Admission, Limits, RejectReason, Scheduler};
use wyd::time::Duration;

fn limits() -> Limits {
    Limits {
        max_parallel: 2,
        max_parallel_per_project: 1,
        max_queued: 3,
        queue_timeout: Duration::from_secs(60),
        memory_budget_bytes: 1000,
        default_run_memory_bytes: 100,
        starvation_after: Duration::from_secs(30),
        cpu_budget_millicores: None,
        pids_budget: None,
    }
}

fn sched() -> (Scheduler, Duration) {
    (Scheduler::new(limits()), Duration::from_secs(0))
}

#[test]
fn parallel_and_per_project_caps_are_respected() {
    let (mut s, t) = sched();
    assert!(matches!(s.submit(RunId(1), "a", 100, None, t), Admission::Start { .. }));
    assert_eq!(s.submit(RunId(2), "a", 100, None, t), Admission::Queued { position: 1 });
    assert!(matches!(s.submit(RunId(3), "b", 100, None, t), Admission::Start { .. }));
    assert_eq!(s.submit(RunId(4), "c", 100, None, t), Admission::Queued { position: 2 });
    assert_eq!(s.running_count(), 2);
    assert_eq!(s.slots_free(), 0);
}

#[test]
fn request_larger_than_the_budget_is_rejected_not_queued() {
    let (mut s, t) = sched();
    assert_eq!(
        s.submit(RunId(1), "a", 5000, None, t),
        Admission::Rejected(RejectReason::Impossible { requested: 5000, budget: 1000 })
    );
    assert_eq!(s.queued_count(), 0, "an impossible request must not queue");
}

#[test]
fn queue_is_bounded() {
    let (mut s, t) = sched();
    assert!(matches!(s.submit(RunId(1), "a", 100, None, t), Admission::Start { .. }));
    assert!(matches!(s.submit(RunId(2), "b", 100, None, t), Admission::Start { .. }));
    for i in 0..3 {
        assert!(matches!(
            s.submit(RunId(10 + i), "q", 100, None, t),
            Admission::Queued { .. }
        ));
    }
    assert_eq!(
        s.submit(RunId(20), "q", 100, None, t),
        Admission::Rejected(RejectReason::QueueFull { max_queued: 3 })
    );
}

#[test]
fn reservations_never_exceed_the_budget() {
    let (mut s, t) = sched();
    assert!(matches!(s.submit(RunId(1), "a", 600, None, t), Admission::Start { .. }));
    assert_eq!(s.submit(RunId(2), "b", 600, None, t), Admission::Queued { position: 1 });
    assert!(s.reserved() <= s.limits().memory_budget_bytes);
    assert_eq!(s.release(RunId(1), false, t), vec![RunId(2)]);
    assert_eq!(s.reserved(), 600);
}

#[test]
fn projects_do_not_starve_each_other() {
    let (mut s, t) = sched();
    assert!(matches!(s.submit(RunId(1), "a", 100, None, t), Admission::Start { .. }));
    assert!(matches!(s.submit(RunId(2), "b", 100, None, t), Admission::Start { .. }));
    s.submit(RunId(3), "a", 100, None, t);
    s.submit(RunId(4), "a", 100, None, t);
    s.submit(RunId(5), "b", 100, None, t);
    assert_eq!(s.release(RunId(1), false, t), vec![RunId(3)]);
    assert_eq!(s.release(RunId(2), false, t), vec![RunId(5)]);
    assert_eq!(s.release(RunId(3), false, t), vec![RunId(4)]);
}

#[test]
fn a_starved_request_wins_the_next_slot() {
    let (mut s, t) = sched();
    assert!(matches!(s.submit(RunId(1), "a", 100, None, t), Admission::Start { .. }));
    assert!(matches!(s.submit(RunId(2), "b", 100, None, t), Admission::Start { .. }));
    s.submit(RunId(3), "c", 100, None, t);
    s.submit(RunId(4), "d", 100, None, t);
    let later = t.plus(Duration::from_secs(31));
    assert_eq!(
        s.release(RunId(1), false, later),
        vec![RunId(3)],
        "the oldest request wins after the starvation window"
    );
    assert_eq!(s.release(RunId(2), false, later), vec![RunId(4)]);
}

#[test]
fn cancelling_a_queued_request_removes_it_without_admitting() {
    let (mut s, t) = sched();
    s.submit(RunId(1), "a", 100, None, t);
    s.submit(RunId(2), "b", 100, None, t);
    s.submit(RunId(3), "c", 100, None, t);
    assert!(s.cancel_queued(RunId(3)));
    assert!(!s.cancel_queued(RunId(3)), "already gone");
    assert_eq!(s.release(RunId(1), false, t), Vec::<RunId>::new());
    assert_eq!(s.queued_count(), 0);
}

#[test]
fn queue_timeout_expires_requests() {
    let (mut s, t) = sched();
    s.submit(RunId(1), "a", 100, None, t);
    s.submit(RunId(2), "b", 100, None, t);
    s.submit(RunId(3), "c", 100, None, t);
    assert!(s.expire(t.plus(Duration::from_secs(30))).is_empty());
    assert_eq!(s.expire(t.plus(Duration::from_secs(61))), vec![RunId(3)]);
    assert_eq!(s.queued_count(), 0);
}

#[test]
fn queue_entries_report_reason_and_wait_without_an_eta() {
    let (mut s, t) = sched();
    s.submit(RunId(1), "a", 100, None, t);
    s.submit(RunId(2), "a", 100, None, t);
    let entries = s.queue_entries(t.plus(Duration::from_secs(5)));
    assert_eq!(entries.len(), 1);
    assert_eq!(entries[0].position, 1);
    assert_eq!(entries[0].waiting_ms, 5000);
    assert!(entries[0].reason.contains("project a"), "{}", entries[0].reason);
}

#[test]
fn a_suspend_longer_than_the_queue_timeout_expires_the_request() {
    let (mut s, t) = sched();
    s.submit(RunId(1), "a", 100, None, t);
    s.submit(RunId(2), "b", 100, None, t);
    s.submit(RunId(3), "c", 100, None, t);
    let after_sleep = t.plus(Duration::from_secs(3600));
    assert_eq!(s.expire(after_sleep), vec![RunId(3)]);
    assert_eq!(s.queued_count(), 0);
}

#[test]
fn a_held_reservation_keeps_its_memory() {
    let (mut s, t) = sched();
    s.submit(RunId(1), "a", 600, None, t);
    s.submit(RunId(2), "b", 600, None, t);
    // Run 1 ended, but something of it may be alive: its slot is free, its
    // memory is not.
    assert_eq!(s.release(RunId(1), true, t), Vec::<RunId>::new());
    assert_eq!(s.held_reservations(), 1);
    assert_eq!(s.running_count(), 0);
    assert_eq!(s.reserved(), 600);
    assert_eq!(s.position(RunId(2)), Some(1));
    assert_eq!(s.position(RunId(9)), None);
}

#[test]
fn the_default_amount_is_reserved_for_a_request_of_none() {
    let d = Limits::default();
    assert_eq!(d.max_parallel, 4);
    assert_eq!(d.summary().default_run_memory_bytes, 512 << 20);
    assert_eq!(d.summary().queue_timeout_secs, 600);
}

#[test]
fn projects_in_use_are_listed_with_their_counts() {
    let mut l = limits();
    l.max_parallel = 3;
    l.max_parallel_per_project = 2;
    let mut s = Scheduler::new(l);
    let t = Duration::from_secs(0);
    s.submit(RunId(1), "a", 100, None, t);
    s.submit(RunId(2), "a", 100, None, t);
    s.submit(RunId(3), "b", 100, None, t);
    let mut used: Vec<(String, usize)> =
        s.projects().into_iter().map(|u| (u.project, u.running)).collect();
    used.sort();
    assert_eq!(used, vec![("a".to_string(), 2), ("b".to_string(), 1)]);
}

#[test]
fn new_limits_take_effect_on_the_next_request() {
    let (mut s, t) = sched();
    s.submit(RunId(1), "a", 100, None, t);
    let mut l = limits();
    l.max_parallel_per_project = 2;
    s.set_limits(l);
    assert!(matches!(s.submit(RunId(2), "a", 100, None, t), Admission::Start { .. }));
}

#[test]
fn a_request_can_bring_its_own_queue_timeout() {
    let (mut s, t) = sched();
    s.submit(RunId(1), "a", 100, None, t);
    s.submit(RunId(2), "a", 100, Some(Duration::from_secs(5)), t);
    assert!(s.expire(Duration::from_millis(4_999)).is_empty());
    assert_eq!(s.expire(Duration::from_secs(5)), vec![RunId(2)]);
}

#[test]
fn one_release_admits_a_project_in_order() {
    let mut l = limits();
    l.max_parallel = 3;
    l.max_parallel_per_project = 3;
    l.max_queued = 8;
    let mut s = Scheduler::new(l);
    let t = Duration::from_secs(0);
    assert!(matches!(s.submit(RunId(1), "a", 1000, None, t), Admission::Start { .. }));
    s.submit(RunId(2), "a", 100, None, t);
    s.submit(RunId(3), "b", 100, None, t);
    s.submit(RunId(4), "a", 200, None, t);
    let admitted = s.release(RunId(1), false, t);
    let place = |id: i64| admitted.iter().position(|r| *r == RunId(id)).unwrap();
    assert_eq!(admitted.len(), 3);
    assert!(place(2) < place(4));
}

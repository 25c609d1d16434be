//! Admission control: slots, memory reservations and a bounded, fair queue.
//!
//! Pure state machine — no OS calls and no clock of its own. Callers pass a
//! **logical** time (elapsed since the supervisor started), which the
//! supervisor computes as `max(monotonic, wall)` so a deadline still expires
//! after the machine sleeps.
//!
//! Ordering is FIFO inside a project and round-robin between projects, with
//! one exception: a request that has waited past `starvation_after` is
//! admitted ahead of later short runs, so a big job cannot be bypassed
//! forever by a stream of small ones.

use crate::model::run::{LimitSummary, ProjectUsage, QueueEntry, RunId};
use crate::text;
use crate::text::{before, dec_of, same};
use crate::time;
use crate::time::Duration;
use vstd::prelude::*;

verus! {

/// Capacity rules in force. Changes affect admission of new runs; a run
/// already admitted keeps its slot until it finishes.
#[derive(Debug, Clone, Copy, PartialEq, Eq, Structural)]
pub struct Limits {
    pub max_parallel: usize,
    pub max_parallel_per_project: usize,
    pub max_queued: usize,
    pub queue_timeout: Duration,
    /// Total memory that may be reserved by running runs.
    pub memory_budget_bytes: u64,
    /// Reservation used when a caller asks for no particular amount.
    pub default_run_memory_bytes: u64,
    /// How long a request may be bypassed before it wins the next slot.
    pub starvation_after: Duration,
    /// Aggregate CPU cap for all runs, in millicores. Admission does not use
    /// it; the cgroup backend turns it into a kernel limit.
    pub cpu_budget_millicores: Option<u32>,
    /// Aggregate process-count cap for all runs.
    pub pids_budget: Option<u32>,
}

impl Default for Limits {
    fn default() -> (r: Self)
        ensures
            r.max_parallel == 4,
            r.max_parallel_per_project == 2,
            r.max_queued == 32,
            r.queue_timeout@ == 600 * 1_000_000_000,
            r.memory_budget_bytes == 8 * 1024 * 1024 * 1024,
            r.default_run_memory_bytes == 512 * 1024 * 1024,
            r.starvation_after@ == 60 * 1_000_000_000,
            r.cpu_budget_millicores is None,
            r.pids_budget is None,
    {
        Limits {
            max_parallel: 4,
            max_parallel_per_project: 2,
            max_queued: 32,
            queue_timeout: Duration::from_secs(600),
            // Reservations are a budgeting device, not a memory measurement.
            memory_budget_bytes: 8 * 1024 * 1024 * 1024,
            default_run_memory_bytes: 512 * 1024 * 1024,
            starvation_after: Duration::from_secs(60),
            cpu_budget_millicores: None,
            pids_budget: None,
        }
    }
}

impl Limits {
    pub fn summary(&self) -> (r: LimitSummary)
        ensures
            r.max_parallel == self.max_parallel,
            r.max_parallel_per_project == self.max_parallel_per_project,
            r.max_queued == self.max_queued,
            r.queue_timeout_secs as nat == self.queue_timeout@ / 1_000_000_000,
            r.memory_budget_bytes == self.memory_budget_bytes,
            r.default_run_memory_bytes == self.default_run_memory_bytes,
            r.starvation_after_secs as nat == self.starvation_after@ / 1_000_000_000,
            r.cpu_budget_millicores == self.cpu_budget_millicores,
            r.pids_budget == self.pids_budget,
    {
        LimitSummary {
            max_parallel: self.max_parallel,
            max_parallel_per_project: self.max_parallel_per_project,
            max_queued: self.max_queued,
            queue_timeout_secs: self.queue_timeout.as_secs(),
            memory_budget_bytes: self.memory_budget_bytes,
            default_run_memory_bytes: self.default_run_memory_bytes,
            starvation_after_secs: self.starvation_after.as_secs(),
            cpu_budget_millicores: self.cpu_budget_millicores,
            pids_budget: self.pids_budget,
        }
    }
}

/// Why a request could not even be queued.
#[derive(Debug, Clone, Copy, PartialEq, Eq, Structural)]
pub enum RejectReason {
    /// Larger than the whole budget: queueing it would be a lie.
    Impossible { requested: u64, budget: u64 },
    /// The queue is full.
    QueueFull { max_queued: usize },
}

/// The admission decision for one request.
#[derive(Debug, Clone, Copy, PartialEq, Eq, Structural)]
pub enum Admission {
    /// Capacity reserved; the caller may spawn.
    Start { memory_bytes: u64 },
    /// Waiting for capacity. `position` is 1-based.
    Queued { position: usize },
    Rejected(RejectReason),
}

struct Queued {
    id: RunId,
    project: String,
    memory_bytes: u64,
    /// Logical time when the request entered the queue.
    enqueued_at: Duration,
    /// Logical time after which the request gives up.
    deadline: Duration,
}

struct Running {
    id: RunId,
    project: String,
    memory_bytes: u64,
}

/// Slots and reservations. One instance per supervisor, behind its lock.
pub struct Scheduler {
    limits: Limits,
    running: Vec<Running>,
    queue: Vec<Queued>,
    /// Reservations kept after a run finished with an incomplete cleanup:
    /// the processes may still be alive, so the capacity stays spent until a
    /// supervisor restart re-evaluates it.
    held: Vec<Running>,
}

// ---------------------------------------------------------------------------
// Model
// ---------------------------------------------------------------------------

/// A reservation: who holds it, for which project, and how much.
pub struct Slot {
    pub id: RunId,
    pub project: Seq<char>,
    pub memory: nat,
}

/// A waiting request.
pub struct Waiting {
    pub id: RunId,
    pub project: Seq<char>,
    pub memory: nat,
    pub enqueued_at: nat,
    pub deadline: nat,
}

/// Everything the scheduler decides by.
pub struct Book {
    pub limits: Limits,
    pub running: Seq<Slot>,
    pub queue: Seq<Waiting>,
    pub held: Seq<Slot>,
}

/// Memory reserved by a list of slots.
pub open spec fn total(slots: Seq<Slot>) -> nat
    decreases slots.len(),
{
    if slots.len() == 0 {
        0
    } else {
        total(slots.drop_last()) + slots.last().memory
    }
}

/// How many slots belong to a project.
pub open spec fn count_of(slots: Seq<Slot>, project: Seq<char>) -> nat
    decreases slots.len(),
{
    if slots.len() == 0 {
        0
    } else {
        count_of(slots.drop_last(), project) + if slots.last().project == project {
            1nat
        } else {
            0
        }
    }
}

/// Memory reserved by the slots of a project.
pub open spec fn total_of(slots: Seq<Slot>, project: Seq<char>) -> nat
    decreases slots.len(),
{
    if slots.len() == 0 {
        0
    } else {
        total_of(slots.drop_last(), project) + if slots.last().project == project {
            slots.last().memory
        } else {
            0
        }
    }
}

/// The slots that another run holds.
pub open spec fn without(slots: Seq<Slot>, id: RunId) -> Seq<Slot>
    decreases slots.len(),
{
    if slots.len() == 0 {
        Seq::empty()
    } else if slots.last().id == id {
        without(slots.drop_last(), id)
    } else {
        without(slots.drop_last(), id).push(slots.last())
    }
}

/// The first slot that a run holds.
pub open spec fn first_of(slots: Seq<Slot>, id: RunId) -> Option<Slot>
    decreases slots.len(),
{
    if slots.len() == 0 {
        None
    } else {
        match first_of(slots.drop_last(), id) {
            Some(s) => Some(s),
            None => if slots.last().id == id {
                Some(slots.last())
            } else {
                None
            },
        }
    }
}

/// The waiting requests of other runs.
pub open spec fn others(queue: Seq<Waiting>, id: RunId) -> Seq<Waiting>
    decreases queue.len(),
{
    if queue.len() == 0 {
        Seq::empty()
    } else if queue.last().id == id {
        others(queue.drop_last(), id)
    } else {
        others(queue.drop_last(), id).push(queue.last())
    }
}

/// The requests whose deadline has not passed.
pub open spec fn alive(queue: Seq<Waiting>, now: nat) -> Seq<Waiting>
    decreases queue.len(),
{
    if queue.len() == 0 {
        Seq::empty()
    } else if now >= queue.last().deadline {
        alive(queue.drop_last(), now)
    } else {
        alive(queue.drop_last(), now).push(queue.last())
    }
}

/// The requests whose deadline has passed, in queue order.
pub open spec fn expired(queue: Seq<Waiting>, now: nat) -> Seq<RunId>
    decreases queue.len(),
{
    if queue.len() == 0 {
        Seq::empty()
    } else if now >= queue.last().deadline {
        expired(queue.drop_last(), now).push(queue.last().id)
    } else {
        expired(queue.drop_last(), now)
    }
}

impl Book {
    /// Memory reserved by running runs plus what is still held.
    pub open spec fn reserved(self) -> nat {
        total(self.running) + total(self.held)
    }

    pub open spec fn slots_free(self) -> nat {
        if self.limits.max_parallel >= self.running.len() {
            (self.limits.max_parallel - self.running.len()) as nat
        } else {
            0
        }
    }

    pub open spec fn project_slots_free(self, project: Seq<char>) -> nat {
        if self.limits.max_parallel_per_project >= count_of(self.running, project) {
            (self.limits.max_parallel_per_project - count_of(self.running, project)) as nat
        } else {
            0
        }
    }

    /// The project has a slot left and the memory fits the budget.
    pub open spec fn room_for(self, project: Seq<char>, memory: nat) -> bool {
        self.project_slots_free(project) > 0 && self.reserved() + memory
            <= self.limits.memory_budget_bytes
    }

    pub open spec fn can_admit(self, project: Seq<char>, memory: nat) -> bool {
        self.slots_free() > 0 && self.room_for(project, memory)
    }

    /// The request at `i` could start now.
    pub open spec fn eligible(self, i: int) -> bool {
        0 <= i < self.queue.len() && self.room_for(self.queue[i].project, self.queue[i].memory)
    }

    /// An eligible request that has waited past the starvation window.
    pub open spec fn starved(self, now: nat, i: int) -> bool {
        self.eligible(i) && waited(now, self.queue[i].enqueued_at) >= self.limits.starvation_after@
    }

    /// An eligible request of a project that runs nothing.
    pub open spec fn idle(self, i: int) -> bool {
        self.eligible(i) && self.project_slots_free(self.queue[i].project)
            == self.limits.max_parallel_per_project
    }

    /// The request at `i` came no later than the one at `j`.
    pub open spec fn no_later(self, i: int, j: int) -> bool {
        self.queue[i].enqueued_at < self.queue[j].enqueued_at || (self.queue[i].enqueued_at
            == self.queue[j].enqueued_at && i <= j)
    }

    /// The request at `i` is the one to admit next: the first starved one;
    /// otherwise the oldest of an idle project; otherwise the oldest.
    pub open spec fn next(self, now: nat, i: int) -> bool {
        &&& self.slots_free() > 0
        &&& self.eligible(i)
        &&& if exists|j: int| self.starved(now, j) {
            self.starved(now, i) && forall|j: int| self.starved(now, j) ==> i <= j
        } else if exists|j: int| self.idle(j) {
            self.idle(i) && forall|j: int| #[trigger] self.idle(j) ==> self.no_later(i, j)
        } else {
            forall|j: int| #[trigger] self.eligible(j) ==> self.no_later(i, j)
        }
    }

    /// The index of the request to admit next, if there is one.
    pub open spec fn picked(self, now: nat) -> Option<int> {
        if exists|i: int| self.next(now, i) {
            Some(choose|i: int| self.next(now, i))
        } else {
            None
        }
    }

    /// The request at `i` leaves the queue and takes a slot.
    pub open spec fn started(self, i: int) -> Book {
        let q = self.queue[i];
        Book {
            running: self.running.push(Slot { id: q.id, project: q.project, memory: q.memory }),
            queue: self.queue.remove(i),
            ..self
        }
    }

    /// Admissions one after the other until nothing more fits: the ids in
    /// order, and the book that is left.
    pub open spec fn drained(self, now: nat) -> (Seq<RunId>, Book)
        decreases self.queue.len(),
        via Self::drained_decreases
    {
        match self.picked(now) {
            Some(i) => {
                let rest = self.started(i).drained(now);
                (seq![self.queue[i].id] + rest.0, rest.1)
            },
            None => (Seq::empty(), self),
        }
    }

    #[via_fn]
    proof fn drained_decreases(self, now: nat) {
        if exists|i: int| self.next(now, i) {
            let i = choose|i: int| self.next(now, i);
            assert(self.next(now, i));
        }
    }

    /// The book after a run gave up its slot, before anything is admitted.
    /// Its first reservation is kept where the cleanup was not complete.
    pub open spec fn released(self, id: RunId, hold: bool) -> Book {
        Book {
            running: without(self.running, id),
            held: match first_of(self.running, id) {
                Some(s) => if hold {
                    self.held.push(s)
                } else {
                    self.held
                },
                None => self.held,
            },
            ..self
        }
    }

    /// What a request gets.
    pub open spec fn decision(self, project: Seq<char>, memory: u64) -> Admission {
        if memory > self.limits.memory_budget_bytes {
            Admission::Rejected(
                RejectReason::Impossible {
                    requested: memory,
                    budget: self.limits.memory_budget_bytes,
                },
            )
        } else if self.can_admit(project, memory as nat) {
            Admission::Start { memory_bytes: memory }
        } else if self.queue.len() >= self.limits.max_queued {
            Admission::Rejected(RejectReason::QueueFull { max_queued: self.limits.max_queued })
        } else {
            Admission::Queued { position: (self.queue.len() + 1) as usize }
        }
    }

    /// The logical time at which a request submitted now gives up.
    pub open spec fn deadline_of(self, queue_timeout: Option<Duration>, now: nat) -> nat {
        now + match queue_timeout {
            Some(d) => d@,
            None => self.limits.queue_timeout@,
        }
    }

    /// The book after a request.
    pub open spec fn submitted(
        self,
        id: RunId,
        project: Seq<char>,
        memory: u64,
        queue_timeout: Option<Duration>,
        now: nat,
    ) -> Book {
        match self.decision(project, memory) {
            Admission::Start { .. } => Book {
                running: self.running.push(Slot { id, project, memory: memory as nat }),
                ..self
            },
            Admission::Queued { .. } => Book {
                queue: self.queue.push(
                    Waiting {
                        id,
                        project,
                        memory: memory as nat,
                        enqueued_at: now,
                        deadline: self.deadline_of(queue_timeout, now),
                    },
                ),
                ..self
            },
            Admission::Rejected(_) => self,
        }
    }

    /// Why the request of a project waits.
    pub open spec fn wait_reason(self, project: Seq<char>) -> Seq<char> {
        if self.project_slots_free(project) == 0 {
            "project "@ + project + " is at its "@ + text::dec(
                self.limits.max_parallel_per_project as nat,
            ) + "-run limit"@
        } else if self.slots_free() == 0 {
            "all "@ + text::dec(self.limits.max_parallel as nat) + " slots are busy"@
        } else {
            "waiting for a memory reservation"@
        }
    }

    /// The report of the request at `i`.
    pub open spec fn reports(self, i: int, now: nat, e: QueueEntry) -> bool {
        let q = self.queue[i];
        &&& e.run_id@ == text::dec_int(q.id.0 as int)
        &&& e.project@ == q.project
        &&& e.position == i + 1
        &&& e.waiting_ms as nat == (waited(now, q.enqueued_at) / 1_000_000)
            % 0x1_0000_0000_0000_0000
        &&& e.memory_bytes == q.memory
        &&& e.reason@ == self.wait_reason(q.project)
    }

    /// The queue holds requests in the order of their arrival.
    pub open spec fn in_arrival_order(self) -> bool {
        forall|i: int, j: int|
            0 <= i <= j < self.queue.len() ==> self.queue[i].enqueued_at
                <= self.queue[j].enqueued_at
    }

    /// No two requests wait under one id.
    pub open spec fn ids_are_distinct(self) -> bool {
        forall|i: int, j: int|
            0 <= i < j < self.queue.len() ==> (#[trigger] self.queue[i]).id != (
            #[trigger] self.queue[j]).id
    }

    /// Nothing admitted exceeds the limits in force.
    pub open spec fn within_limits(self) -> bool {
        &&& self.running.len() <= self.limits.max_parallel
        &&& self.reserved() <= self.limits.memory_budget_bytes
        &&& forall|p: Seq<char>| #[trigger]
            count_of(self.running, p) <= self.limits.max_parallel_per_project
    }
}

/// Time since `since`, zero where it lies ahead.
pub open spec fn waited(now: nat, since: nat) -> nat {
    if now >= since {
        (now - since) as nat
    } else {
        0
    }
}

// ---------------------------------------------------------------------------
// Laws
// ---------------------------------------------------------------------------

/// At most one request is next.
pub proof fn next_is_unique(b: Book, now: nat, i: int, j: int)
    requires
        b.next(now, i),
        b.next(now, j),
    ensures
        i == j,
{
    if !(exists|k: int| b.starved(now, k)) {
        if exists|k: int| b.idle(k) {
            assert(b.no_later(i, j) && b.no_later(j, i));
        } else {
            assert(b.no_later(i, j) && b.no_later(j, i));
        }
    }
}

/// A request that fits and has waited past the starvation window is never
/// passed over for one behind it.
pub proof fn starved_request_is_not_bypassed(b: Book, now: nat, i: int, j: int)
    requires
        b.next(now, i),
        b.starved(now, j),
    ensures
        i <= j,
        b.starved(now, i),
{
}

/// Inside a project requests that fit start in the order they came.
pub proof fn fifo_inside_a_project(b: Book, now: nat, i: int, j: int)
    requires
        b.in_arrival_order(),
        b.next(now, i),
        b.eligible(j),
        b.queue[j].project == b.queue[i].project,
    ensures
        i <= j,
{
    if exists|k: int| b.starved(now, k) {
        if j < i {
            assert(b.queue[j].enqueued_at <= b.queue[i].enqueued_at);
            assert(b.starved(now, j));
        }
    } else if exists|k: int| b.idle(k) {
        assert(b.idle(j));
        assert(b.no_later(i, j));
    } else {
        assert(b.no_later(i, j));
    }
}

/// Over all admissions of one moment, too, a project's requests start in the
/// order they came: one that was admitted came after every earlier request of
/// its project that needs no more memory.
pub proof fn fifo_over_all_admissions(b: Book, now: nat, x: int, y: int, k: int)
    requires
        b.in_arrival_order(),
        b.ids_are_distinct(),
        0 <= x < y < b.queue.len(),
        b.queue[x].project == b.queue[y].project,
        b.queue[x].memory <= b.queue[y].memory,
        0 <= k < b.drained(now).0.len(),
        b.drained(now).0[k] == b.queue[y].id,
    ensures
        exists|j: int| 0 <= j < k && #[trigger] b.drained(now).0[j] == b.queue[x].id,
    decreases b.queue.len(),
{
    let ids = b.drained(now).0;
    match b.picked(now) {
        Some(i) => {
            assert(b.next(now, i));
            let mid = b.started(i);
            let rest = mid.drained(now).0;
            assert(ids =~= seq![b.queue[i].id] + rest);
            if i == y {
                assert(b.eligible(x));
                fifo_inside_a_project(b, now, y, x);
            } else if i == x {
                assert(ids[0] == b.queue[x].id);
                assert(b.queue[x].id != b.queue[y].id);
            } else {
                let (x1, y1) = (
                    if x < i {
                        x
                    } else {
                        x - 1
                    },
                    if y < i {
                        y
                    } else {
                        y - 1
                    },
                );
                assert(mid.queue[x1] == b.queue[x] && mid.queue[y1] == b.queue[y]);
                assert(ids[0] == b.queue[i].id && b.queue[i].id != b.queue[y].id);
                assert(rest[k - 1] == ids[k]);
                fifo_over_all_admissions(mid, now, x1, y1, k - 1);
                let j = choose|j: int| 0 <= j < k - 1 && #[trigger] rest[j] == b.queue[x].id;
                assert(ids[j + 1] == rest[j]);
            }
        },
        None => {},
    }
}

/// The runs that a release admits keep that order.
pub proof fn a_release_is_first_come_first_served(
    b: Book,
    id: RunId,
    hold: bool,
    now: nat,
    x: int,
    y: int,
    k: int,
)
    requires
        b.in_arrival_order(),
        b.ids_are_distinct(),
        0 <= x < y < b.queue.len(),
        b.queue[x].project == b.queue[y].project,
        b.queue[x].memory <= b.queue[y].memory,
        0 <= k < b.released(id, hold).drained(now).0.len(),
        b.released(id, hold).drained(now).0[k] == b.queue[y].id,
    ensures
        exists|j: int|
            0 <= j < k && #[trigger] b.released(id, hold).drained(now).0[j] == b.queue[x].id,
{
    fifo_over_all_admissions(b.released(id, hold), now, x, y, k);
}

/// While no request is starved, one of a project that runs nothing goes
/// before any of a busy project.
pub proof fn idle_project_goes_first(b: Book, now: nat, i: int, j: int)
    requires
        b.next(now, i),
        b.idle(j),
        forall|k: int| !b.starved(now, k),
    ensures
        b.idle(i),
        b.no_later(i, j),
{
}

proof fn count_after_push(slots: Seq<Slot>, s: Slot, p: Seq<char>)
    ensures
        count_of(slots.push(s), p) == count_of(slots, p) + if s.project == p {
            1nat
        } else {
            0
        },
        total(slots.push(s)) == total(slots) + s.memory,
        total_of(slots.push(s), p) == total_of(slots, p) + if s.project == p {
            s.memory
        } else {
            0
        },
{
    assert(slots.push(s).drop_last() =~= slots);
}

/// Admitting a request keeps every limit: slots, slots of a project, and the
/// memory budget.
pub proof fn admission_keeps_limits(b: Book, id: RunId, project: Seq<char>, memory: nat)
    requires
        b.within_limits(),
        b.can_admit(project, memory),
    ensures
        (Book { running: b.running.push(Slot { id, project, memory }), ..b }).within_limits(),
{
    let s = Slot { id, project, memory };
    let after = Book { running: b.running.push(s), ..b };
    assert forall|p: Seq<char>| #[trigger] count_of(after.running, p)
        <= after.limits.max_parallel_per_project by {
        count_after_push(b.running, s, p);
        assert(count_of(b.running, p) <= b.limits.max_parallel_per_project);
    }
    count_after_push(b.running, s, project);
}

/// A request leaves the limits kept, whatever it is answered.
pub proof fn submit_keeps_limits(
    b: Book,
    id: RunId,
    project: Seq<char>,
    memory: u64,
    queue_timeout: Option<Duration>,
    now: nat,
)
    requires
        b.within_limits(),
    ensures
        b.submitted(id, project, memory, queue_timeout, now).within_limits(),
{
    if b.can_admit(project, memory as nat) {
        admission_keeps_limits(b, id, project, memory as nat);
    }
}

/// The queue never grows past its bound, and nothing larger than the whole
/// budget ever waits in it.
pub proof fn queue_stays_bounded(
    b: Book,
    id: RunId,
    project: Seq<char>,
    memory: u64,
    queue_timeout: Option<Duration>,
    now: nat,
)
    requires
        b.queue.len() <= b.limits.max_queued,
        forall|i: int|
            0 <= i < b.queue.len() ==> (#[trigger] b.queue[i]).memory
                <= b.limits.memory_budget_bytes,
    ensures
        ({
            let after = b.submitted(id, project, memory, queue_timeout, now);
            &&& after.queue.len() <= after.limits.max_queued
            &&& forall|i: int|
                0 <= i < after.queue.len() ==> (#[trigger] after.queue[i]).memory
                    <= after.limits.memory_budget_bytes
        }),
{
}

/// Arrivals stay in order while logical time does not run backwards.
pub proof fn submit_keeps_arrival_order(
    b: Book,
    id: RunId,
    project: Seq<char>,
    memory: u64,
    queue_timeout: Option<Duration>,
    now: nat,
)
    requires
        b.in_arrival_order(),
        forall|i: int| 0 <= i < b.queue.len() ==> (#[trigger] b.queue[i]).enqueued_at <= now,
    ensures
        b.submitted(id, project, memory, queue_timeout, now).in_arrival_order(),
{
}

/// Ids stay distinct while each request has one of its own.
pub proof fn submit_keeps_ids_distinct(
    b: Book,
    id: RunId,
    project: Seq<char>,
    memory: u64,
    queue_timeout: Option<Duration>,
    now: nat,
)
    requires
        b.ids_are_distinct(),
        forall|i: int| 0 <= i < b.queue.len() ==> (#[trigger] b.queue[i]).id != id,
    ensures
        b.submitted(id, project, memory, queue_timeout, now).ids_are_distinct(),
{
}

/// What a release admits comes from the queue, in limits, and leaves nothing
/// behind that could still start.
pub proof fn drained_facts(b: Book, now: nat)
    ensures
        ({
            let (ids, after) = b.drained(now);
            &&& after.limits == b.limits
            &&& after.held == b.held
            &&& after.picked(now) is None
            &&& ids.len() + after.queue.len() == b.queue.len()
            &&& after.running.len() == b.running.len() + ids.len()
            &&& after.running.take(b.running.len() as int) == b.running
            &&& forall|k: int|
                0 <= k < ids.len() ==> after.running[b.running.len() + k].id == #[trigger] ids[k]
            &&& b.within_limits() ==> after.within_limits()
            &&& b.reserved() <= b.limits.memory_budget_bytes ==> after.reserved()
                <= after.limits.memory_budget_bytes
        }),
    decreases b.queue.len(),
{
    match b.picked(now) {
        Some(i) => {
            assert(b.next(now, i));
            let q = b.queue[i];
            let mid = b.started(i);
            let s = Slot { id: q.id, project: q.project, memory: q.memory };
            count_after_push(b.running, s, q.project);
            if b.within_limits() {
                admission_keeps_limits(b, q.id, q.project, q.memory);
                assert(mid.within_limits()) by {
                    let w = Book { running: b.running.push(s), ..b };
                    assert(w.within_limits());
                    assert(mid.reserved() == w.reserved());
                }
            }
            drained_facts(mid, now);
            let (ids, after) = b.drained(now);
            let (more, _) = mid.drained(now);
            assert(ids =~= seq![q.id] + more);
            assert(after.running.take(b.running.len() as int) =~= b.running) by {
                assert(after.running.take(mid.running.len() as int) == mid.running);
                assert forall|k: int| 0 <= k < b.running.len() implies after.running[k]
                    == b.running[k] by {
                    assert(after.running.take(mid.running.len() as int)[k] == mid.running[k]);
                }
            }
            assert forall|k: int| 0 <= k < ids.len() implies after.running[b.running.len() + k].id
                == #[trigger] ids[k] by {
                if k == 0 {
                    assert(after.running.take(mid.running.len() as int)[b.running.len() as int]
                        == s);
                } else {
                    assert(ids[k] == more[k - 1]);
                }
            }
        },
        None => {
            assert(b.running.take(b.running.len() as int) =~= b.running);
        },
    }
}

/// A release gives up every slot of the run and nobody else's.
pub proof fn release_frees_only_that_run(slots: Seq<Slot>, id: RunId)
    ensures
        without(slots, id).len() <= slots.len(),
        total(without(slots, id)) + (match first_of(slots, id) {
            Some(s) => s.memory,
            None => 0,
        }) <= total(slots),
        first_of(slots, id) is None <==> without(slots, id).len() == slots.len(),
        first_of(slots, id) is None ==> without(slots, id) == slots,
        forall|k: int| 0 <= k < without(slots, id).len() ==> (#[trigger] without(slots, id)[k]).id != id,
        forall|k: int|
            0 <= k < slots.len() && (#[trigger] slots[k]).id != id ==> without(slots, id).contains(
                slots[k],
            ),
    decreases slots.len(),
{
    if slots.len() > 0 {
        let rest = slots.drop_last();
        release_frees_only_that_run(rest, id);
        if slots.last().id != id {
            assert(without(slots, id).drop_last() =~= without(rest, id));
        }
        assert forall|k: int|
            0 <= k < slots.len() && (#[trigger] slots[k]).id != id implies without(
            slots,
            id,
        ).contains(slots[k]) by {
            if k < slots.len() - 1 {
                assert(rest[k] == slots[k]);
                let w = without(rest, id);
                let m = choose|m: int| 0 <= m < w.len() && w[m] == slots[k];
                assert(without(slots, id)[m] == slots[k]);
            } else {
                assert(without(slots, id).last() == slots[k]);
            }
        }
        if first_of(slots, id) is None {
            assert(without(slots, id) =~= slots);
        }
    } else {
        assert(without(slots, id) =~= slots);
    }
}

/// A queue without a request stays as it is when that request is cancelled.
pub proof fn nothing_else_to_remove(queue: Seq<Waiting>, id: RunId)
    requires
        forall|k: int| 0 <= k < queue.len() ==> (#[trigger] queue[k]).id != id,
    ensures
        others(queue, id) == queue,
    decreases queue.len(),
{
    if queue.len() > 0 {
        let rest = queue.drop_last();
        assert forall|k: int| 0 <= k < rest.len() implies (#[trigger] rest[k]).id != id by {
            assert(rest[k] == queue[k]);
        }
        nothing_else_to_remove(rest, id);
        assert(rest.push(queue.last()) =~= queue);
    }
}

/// A cancelled request is gone from the queue, and only that one.
pub proof fn cancel_removes_only_that_request(queue: Seq<Waiting>, id: RunId)
    ensures
        others(queue, id).len() <= queue.len(),
        forall|k: int| 0 <= k < others(queue, id).len() ==> (#[trigger] others(queue, id)[k]).id != id,
        forall|k: int|
            0 <= k < queue.len() && (#[trigger] queue[k]).id != id ==> others(queue, id).contains(
                queue[k],
            ),
        others(queue, id).len() == queue.len() <==> forall|k: int|
            0 <= k < queue.len() ==> (#[trigger] queue[k]).id != id,
    decreases queue.len(),
{
    if queue.len() > 0 {
        let rest = queue.drop_last();
        cancel_removes_only_that_request(rest, id);
        assert forall|k: int|
            0 <= k < queue.len() && (#[trigger] queue[k]).id != id implies others(
            queue,
            id,
        ).contains(queue[k]) by {
            if k < queue.len() - 1 {
                assert(rest[k] == queue[k]);
                let w = others(rest, id);
                let m = choose|m: int| 0 <= m < w.len() && w[m] == queue[k];
                assert(others(queue, id)[m] == queue[k]);
            } else {
                assert(others(queue, id).last() == queue[k]);
            }
        }
        assert(forall|k: int| 0 <= k < rest.len() ==> rest[k] == queue[k]);
        if others(queue, id).len() == queue.len() {
            assert forall|k: int| 0 <= k < queue.len() implies (#[trigger] queue[k]).id != id by {
                if k < rest.len() {
                    assert(rest[k].id != id);
                }
            }
        }
        if forall|k: int| 0 <= k < queue.len() ==> (#[trigger] queue[k]).id != id {
            assert forall|k: int| 0 <= k < rest.len() implies (#[trigger] rest[k]).id != id by {
                assert(queue[k].id != id);
            }
            assert(queue.last() == queue[queue.len() - 1]);
        }
    }
}

/// Expiry removes exactly the requests whose deadline has passed.
pub proof fn expiry_is_exact(queue: Seq<Waiting>, now: nat)
    ensures
        alive(queue, now).len() + expired(queue, now).len() == queue.len(),
        forall|k: int|
            0 <= k < alive(queue, now).len() ==> now < (#[trigger] alive(queue, now)[k]).deadline,
        forall|k: int|
            0 <= k < queue.len() && now >= (#[trigger] queue[k]).deadline ==> expired(
                queue,
                now,
            ).contains(queue[k].id),
        forall|k: int|
            0 <= k < queue.len() && now < (#[trigger] queue[k]).deadline ==> alive(
                queue,
                now,
            ).contains(queue[k]),
    decreases queue.len(),
{
    if queue.len() > 0 {
        let rest = queue.drop_last();
        expiry_is_exact(rest, now);
        assert forall|k: int|
            0 <= k < queue.len() && now >= (#[trigger] queue[k]).deadline implies expired(
            queue,
            now,
        ).contains(queue[k].id) by {
            let e = expired(rest, now);
            if k < rest.len() {
                assert(rest[k] == queue[k]);
                let m = choose|m: int| 0 <= m < e.len() && e[m] == queue[k].id;
                assert(expired(queue, now)[m] == queue[k].id);
            } else {
                assert(expired(queue, now).last() == queue[k].id);
            }
        }
        assert forall|k: int|
            0 <= k < queue.len() && now < (#[trigger] queue[k]).deadline implies alive(
            queue,
            now,
        ).contains(queue[k]) by {
            let e = alive(rest, now);
            if k < rest.len() {
                assert(rest[k] == queue[k]);
                let m = choose|m: int| 0 <= m < e.len() && e[m] == queue[k];
                assert(alive(queue, now)[m] == queue[k]);
            } else {
                assert(alive(queue, now).last() == queue[k]);
            }
        }
    }
}

/// A sleep longer than the queue timeout expires a request on wake: once
/// `now` has reached the deadline it was queued with, it no longer waits.
pub proof fn passed_deadline_expires(
    b: Book,
    id: RunId,
    project: Seq<char>,
    memory: u64,
    queue_timeout: Option<Duration>,
    now: nat,
    later: nat,
)
    requires
        b.decision(project, memory) is Queued,
        later >= b.deadline_of(queue_timeout, now),
    ensures
        expired(b.submitted(id, project, memory, queue_timeout, now).queue, later).contains(id),
{
    let after = b.submitted(id, project, memory, queue_timeout, now);
    expiry_is_exact(after.queue, later);
    assert(after.queue[b.queue.len() as int].id == id);
}

// ---------------------------------------------------------------------------
// What the counts and sums decide
// ---------------------------------------------------------------------------

/// The sums and counts of slots are those of the slots themselves: how many
/// of a project there are, and what all of them reserve together.
pub proof fn slots_are_counted_one_by_one(slots: Seq<Slot>, project: Seq<char>)
    ensures
        count_of(slots, project) == slots.filter(|s: Slot| s.project == project).len(),
        total(slots) == slots.fold_left(0nat, |sum: nat, s: Slot| sum + s.memory),
        total_of(slots, project) == total(slots.filter(|s: Slot| s.project == project)),
    decreases slots.len(),
{
    let mine = |s: Slot| s.project == project;
    reveal(Seq::filter);
    if slots.len() > 0 {
        slots_are_counted_one_by_one(slots.drop_last(), project);
        if slots.last().project == project {
            let before = slots.drop_last().filter(mine);
            assert(slots.filter(mine) == before.push(slots.last()));
            assert(before.push(slots.last()).drop_last() =~= before);
        }
    }
}

/// A request fits by the numbers: its project runs less than it may, and what
/// is reserved or held leaves the memory that it asks for.
pub open spec fn fits(b: Book, i: int) -> bool {
    &&& 0 <= i < b.queue.len()
    &&& count_of(b.running, b.queue[i].project) < b.limits.max_parallel_per_project
    &&& total(b.running) + total(b.held) + b.queue[i].memory <= b.limits.memory_budget_bytes
}

/// It has waited for the whole starvation window.
pub open spec fn waited_long(b: Book, now: nat, i: int) -> bool {
    b.limits.starvation_after@ == 0 || now >= b.queue[i].enqueued_at + b.limits.starvation_after@
}

/// Whatever is admitted next has a slot to take, of the machine and of its
/// project, and memory that is left.
pub proof fn only_what_fits_is_admitted(b: Book, now: nat, i: int)
    requires
        b.next(now, i),
    ensures
        b.running.len() < b.limits.max_parallel,
        fits(b, i),
{
}

/// While nothing that fits has waited for the starvation window, and a
/// request fits whose project has no running slot, the one admitted next is
/// of a project without a running slot, and came no later.
pub proof fn project_without_a_run_goes_first(b: Book, now: nat, i: int, j: int)
    requires
        b.next(now, i),
        forall|k: int| #[trigger] fits(b, k) ==> !waited_long(b, now, k),
        fits(b, j),
        count_of(b.running, b.queue[j].project) == 0,
    ensures
        count_of(b.running, b.queue[i].project) == 0,
        forall|k: int|
            0 <= k < b.running.len() ==> (#[trigger] b.running[k]).project != b.queue[i].project,
        b.queue[i].enqueued_at < b.queue[j].enqueued_at || (b.queue[i].enqueued_at
            == b.queue[j].enqueued_at && i <= j),
{
    assert forall|k: int| !b.starved(now, k) by {
        if b.eligible(k) {
            assert(fits(b, k));
        }
    }
    assert(b.idle(j));
    assert(b.idle(i));
    assert(b.no_later(i, j));
    counted_slot_exists(b.running, b.queue[i].project);
}

/// The same of the first run that a release admits, counted after the run
/// that ended gave up its slots.
pub proof fn release_starts_with_a_project_without_a_run(
    b: Book,
    id: RunId,
    hold: bool,
    now: nat,
    j: int,
)
    requires
        ({
            let left = b.released(id, hold);
            &&& left.running.len() < left.limits.max_parallel
            &&& forall|k: int| #[trigger] fits(left, k) ==> !waited_long(left, now, k)
            &&& fits(left, j)
            &&& count_of(left.running, b.queue[j].project) == 0
        }),
    ensures
        ({
            let left = b.released(id, hold);
            exists|i: int|
                0 <= i < b.queue.len() && left.drained(now).0.len() > 0 && left.drained(now).0[0]
                    == (#[trigger] b.queue[i]).id && count_of(left.running, b.queue[i].project) == 0
        }),
{
    let left = b.released(id, hold);
    something_that_fits_starts(left, now, j);
    let i = left.picked(now)->0;
    assert(left.next(now, i));
    project_without_a_run_goes_first(left, now, i, j);
    let ids = left.drained(now).0;
    assert(ids[0] == b.queue[i].id);
}

/// Once something that fits has waited for the starvation window, the one
/// admitted next has too, and is the foremost of them in the queue.
pub proof fn long_wait_comes_first(b: Book, now: nat, i: int, j: int)
    requires
        b.next(now, i),
        fits(b, j),
        waited_long(b, now, j),
    ensures
        waited_long(b, now, i),
        i <= j,
{
    assert(b.starved(now, j));
}

/// Where nobody has waited for the starvation window and every request that
/// fits is of a project that runs something, the oldest goes first.
pub proof fn oldest_goes_first(b: Book, now: nat, i: int, j: int)
    requires
        b.next(now, i),
        forall|k: int| #[trigger] fits(b, k) ==> !waited_long(b, now, k),
        forall|k: int| #[trigger] fits(b, k) ==> count_of(b.running, b.queue[k].project) > 0,
        fits(b, j),
    ensures
        b.queue[i].enqueued_at < b.queue[j].enqueued_at || (b.queue[i].enqueued_at
            == b.queue[j].enqueued_at && i <= j),
{
    assert forall|k: int| !b.starved(now, k) by {
        if b.eligible(k) {
            assert(fits(b, k));
        }
    }
    assert forall|k: int| !(#[trigger] b.idle(k)) by {
        if b.eligible(k) {
            assert(fits(b, k));
        }
    }
    assert(b.eligible(j));
    assert(b.no_later(i, j));
}

/// Of the indices below `n` with a property, the first.
proof fn first_with(p: spec_fn(int) -> bool, n: nat) -> (i: int)
    requires
        exists|j: int| 0 <= j < n && #[trigger] p(j),
    ensures
        0 <= i < n,
        p(i),
        forall|j: int| 0 <= j < n && #[trigger] p(j) ==> i <= j,
    decreases n,
{
    let last = n - 1;
    if exists|j: int| 0 <= j < last && #[trigger] p(j) {
        first_with(p, last as nat)
    } else {
        last
    }
}

/// Of the requests below `n` with a property, the oldest.
proof fn oldest_with(b: Book, p: spec_fn(int) -> bool, n: nat) -> (i: int)
    requires
        exists|j: int| 0 <= j < n && #[trigger] p(j),
    ensures
        0 <= i < n,
        p(i),
        forall|j: int| 0 <= j < n && #[trigger] p(j) ==> b.no_later(i, j),
    decreases n,
{
    let last = n - 1;
    if exists|j: int| 0 <= j < last && #[trigger] p(j) {
        let i = oldest_with(b, p, last as nat);
        if p(last) && b.queue[last].enqueued_at < b.queue[i].enqueued_at {
            last
        } else {
            i
        }
    } else {
        last
    }
}

/// Capacity is not left idle: while a slot is free and a request fits,
/// something is admitted.
pub proof fn something_that_fits_starts(b: Book, now: nat, j: int)
    requires
        b.running.len() < b.limits.max_parallel,
        fits(b, j),
    ensures
        b.picked(now) is Some,
        b.next(now, b.picked(now)->0),
{
    let n = b.queue.len();
    assert(b.eligible(j));
    let i = if exists|k: int| b.starved(now, k) {
        let p = |k: int| b.starved(now, k);
        let k = choose|k: int| b.starved(now, k);
        assert(p(k));
        let i = first_with(p, n);
        assert forall|k: int| b.starved(now, k) implies i <= k by {
            assert(p(k));
        }
        i
    } else if exists|k: int| b.idle(k) {
        let p = |k: int| b.idle(k);
        let k = choose|k: int| b.idle(k);
        assert(p(k));
        let i = oldest_with(b, p, n);
        assert forall|k: int| #[trigger] b.idle(k) implies b.no_later(i, k) by {
            assert(p(k));
        }
        i
    } else {
        let p = |k: int| b.eligible(k);
        assert(p(j));
        let i = oldest_with(b, p, n);
        assert forall|k: int| #[trigger] b.eligible(k) implies b.no_later(i, k) by {
            assert(p(k));
        }
        i
    };
    assert(b.next(now, i));
}

/// After the admissions of a moment no slot is free, or nothing that still
/// waits fits.
pub proof fn nothing_that_fits_is_left_waiting(b: Book, now: nat, j: int)
    ensures
        ({
            let after = b.drained(now).1;
            after.running.len() >= after.limits.max_parallel || !fits(after, j)
        }),
{
    drained_facts(b, now);
    let after = b.drained(now).1;
    if after.running.len() < after.limits.max_parallel && fits(after, j) {
        something_that_fits_starts(after, now, j);
    }
}

/// What a request is answered, by the numbers: refused where it asks for more
/// than the whole budget; started where a slot of the machine, a slot of its
/// project and the memory are free; otherwise queued at the end, unless the
/// queue is full.
pub proof fn request_is_answered_by_the_numbers(b: Book, project: Seq<char>, memory: u64)
    ensures
        ({
            let free = b.running.len() < b.limits.max_parallel && count_of(b.running, project)
                < b.limits.max_parallel_per_project && total(b.running) + total(b.held) + memory
                <= b.limits.memory_budget_bytes;
            match b.decision(project, memory) {
                Admission::Rejected(RejectReason::Impossible { requested, budget }) => memory
                    > b.limits.memory_budget_bytes && requested == memory && budget
                    == b.limits.memory_budget_bytes,
                Admission::Start { memory_bytes } => free && memory_bytes == memory,
                Admission::Rejected(RejectReason::QueueFull { max_queued }) => memory
                    <= b.limits.memory_budget_bytes && !free && b.queue.len()
                    >= b.limits.max_queued && max_queued == b.limits.max_queued,
                Admission::Queued { position } => memory <= b.limits.memory_budget_bytes && !free
                    && b.queue.len() < b.limits.max_queued && (b.queue.len() < usize::MAX
                    ==> position == b.queue.len() + 1),
            }
        }),
{
}

/// What a request changes: a start adds one running slot of that run, project
/// and memory; queueing adds one request at the end, which gives up after its
/// own timeout or the configured one; a refusal changes nothing.
pub proof fn request_changes_one_entry(
    b: Book,
    id: RunId,
    project: Seq<char>,
    memory: u64,
    queue_timeout: Option<Duration>,
    now: nat,
)
    ensures
        ({
            let after = b.submitted(id, project, memory, queue_timeout, now);
            &&& after.limits == b.limits
            &&& after.held == b.held
            &&& match b.decision(project, memory) {
                Admission::Start { .. } => {
                    &&& after.queue == b.queue
                    &&& after.running.len() == b.running.len() + 1
                    &&& after.running.drop_last() == b.running
                    &&& after.running.last().id == id
                    &&& after.running.last().project == project
                    &&& after.running.last().memory == memory
                },
                Admission::Queued { .. } => {
                    &&& after.running == b.running
                    &&& after.queue.len() == b.queue.len() + 1
                    &&& after.queue.drop_last() == b.queue
                    &&& after.queue.last().id == id
                    &&& after.queue.last().project == project
                    &&& after.queue.last().memory == memory
                    &&& after.queue.last().enqueued_at == now
                    &&& after.queue.last().deadline == now + (match queue_timeout {
                        Some(own) => own@,
                        None => b.limits.queue_timeout@,
                    })
                },
                Admission::Rejected(_) => after.running == b.running && after.queue == b.queue,
            }
        }),
{
    let after = b.submitted(id, project, memory, queue_timeout, now);
    match b.decision(project, memory) {
        Admission::Start { .. } => {
            assert(after.running.drop_last() =~= b.running);
        },
        Admission::Queued { .. } => {
            assert(after.queue.drop_last() =~= b.queue);
        },
        Admission::Rejected(_) => {},
    }
}

/// What leaves a list leaves the rest in its order: the slots of a run that
/// ended, a cancelled request, the requests whose deadline has passed.
pub proof fn the_rest_stays_in_order(
    slots: Seq<Slot>,
    queue: Seq<Waiting>,
    id: RunId,
    now: nat,
)
    ensures
        without(slots, id) == slots.filter(|s: Slot| s.id != id),
        others(queue, id) == queue.filter(|q: Waiting| q.id != id),
        alive(queue, now) == queue.filter(|q: Waiting| now < q.deadline),
        expired(queue, now) == queue.filter(|q: Waiting| now >= q.deadline).map_values(
            |q: Waiting| q.id,
        ),
    decreases slots.len() + queue.len(),
{
    reveal(Seq::filter);
    if slots.len() > 0 {
        the_rest_stays_in_order(slots.drop_last(), Seq::empty(), id, now);
    }
    if queue.len() > 0 {
        the_rest_stays_in_order(Seq::empty(), queue.drop_last(), id, now);
    }
    let late = |q: Waiting| now >= q.deadline;
    assert(expired(queue, now) =~= queue.filter(late).map_values(|q: Waiting| q.id));
}

/// A release keeps what is reserved where the reservation is held, and gives
/// the run's memory back where it is not; either way its slot is free.
pub proof fn release_gives_back_what_is_not_held(b: Book, id: RunId, hold: bool, k: int)
    requires
        0 <= k < b.running.len(),
        b.running[k].id == id,
        forall|j: int|
            0 <= j < b.running.len() && j != k ==> (#[trigger] b.running[j]).id != id,
    ensures
        ({
            let left = b.released(id, hold);
            &&& left.running == b.running.remove(k)
            &&& left.queue == b.queue
            &&& left.limits == b.limits
            &&& left.held == (if hold {
                b.held.push(b.running[k])
            } else {
                b.held
            })
            &&& left.reserved() == b.reserved() - (if hold {
                0
            } else {
                b.running[k].memory as int
            })
        }),
{
    only_slot_is_removed(b.running, id, k);
    count_after_push(b.held, b.running[k], b.running[k].project);
}

proof fn only_slot_is_removed(slots: Seq<Slot>, id: RunId, k: int)
    requires
        0 <= k < slots.len(),
        slots[k].id == id,
        forall|j: int| 0 <= j < slots.len() && j != k ==> (#[trigger] slots[j]).id != id,
    ensures
        without(slots, id) == slots.remove(k),
        first_of(slots, id) == Some(slots[k]),
        total(slots.remove(k)) + slots[k].memory == total(slots),
    decreases slots.len(),
{
    let rest = slots.drop_last();
    if k == slots.len() - 1 {
        assert forall|j: int| 0 <= j < rest.len() implies (#[trigger] rest[j]).id != id by {
            assert(slots[j].id != id);
        }
        no_slot_of_another(rest, id);
        assert(slots.remove(k) =~= rest);
    } else {
        only_slot_is_removed(rest, id, k);
        assert(slots.last() == slots[slots.len() - 1]);
        assert(slots.remove(k) =~= rest.remove(k).push(slots.last()));
        assert(slots.remove(k).drop_last() =~= rest.remove(k));
    }
}

proof fn no_slot_of_another(slots: Seq<Slot>, id: RunId)
    requires
        forall|j: int| 0 <= j < slots.len() ==> (#[trigger] slots[j]).id != id,
    ensures
        first_of(slots, id) is None,
        without(slots, id) == slots,
    decreases slots.len(),
{
    if slots.len() > 0 {
        let rest = slots.drop_last();
        assert forall|j: int| 0 <= j < rest.len() implies (#[trigger] rest[j]).id != id by {
            assert(slots[j].id != id);
        }
        no_slot_of_another(rest, id);
        assert(slots.last() == slots[slots.len() - 1]);
    }
    release_frees_only_that_run(slots, id);
}

/// Why a request waits, by the numbers: its project is at its limit; if not,
/// every slot of the machine is taken; if not, memory is what is missing.
pub proof fn wait_is_explained_by_the_numbers(b: Book, project: Seq<char>)
    ensures
        b.wait_reason(project) == (if count_of(b.running, project)
            >= b.limits.max_parallel_per_project {
            "project "@ + project + " is at its "@ + text::dec(
                b.limits.max_parallel_per_project as nat,
            ) + "-run limit"@
        } else if b.running.len() >= b.limits.max_parallel {
            "all "@ + text::dec(b.limits.max_parallel as nat) + " slots are busy"@
        } else {
            "waiting for a memory reservation"@
        }),
{
}

// ---------------------------------------------------------------------------
// Sums
// ---------------------------------------------------------------------------

proof fn total_grows(slots: Seq<Slot>, i: int, j: int)
    requires
        0 <= i <= j <= slots.len(),
    ensures
        total(slots.take(i)) <= total(slots.take(j)),
    decreases j - i,
{
    if i < j {
        total_grows(slots, i, j - 1);
        assert(slots.take(j).drop_last() =~= slots.take(j - 1));
    }
}

proof fn project_total_bound(slots: Seq<Slot>, p: Seq<char>)
    ensures
        total_of(slots, p) <= total(slots),
        count_of(slots, p) <= slots.len(),
    decreases slots.len(),
{
    if slots.len() > 0 {
        project_total_bound(slots.drop_last(), p);
    }
}

proof fn counted_slot_exists(slots: Seq<Slot>, p: Seq<char>)
    ensures
        count_of(slots, p) > 0 <==> exists|k: int|
            0 <= k < slots.len() && (#[trigger] slots[k]).project == p,
    decreases slots.len(),
{
    if slots.len() > 0 {
        let rest = slots.drop_last();
        counted_slot_exists(rest, p);
        if count_of(slots, p) > 0 {
            if slots.last().project == p {
                assert(slots[slots.len() - 1].project == p);
            } else {
                let k = choose|k: int| 0 <= k < rest.len() && (#[trigger] rest[k]).project == p;
                assert(slots[k].project == p);
            }
        }
        if exists|k: int| 0 <= k < slots.len() && (#[trigger] slots[k]).project == p {
            let k = choose|k: int| 0 <= k < slots.len() && (#[trigger] slots[k]).project == p;
            if k < rest.len() {
                assert(rest[k].project == p);
            }
        }
    }
}

/// The usage report: every project that runs something, once, in dictionary
/// order, with its count and its reservations.
pub open spec fn is_usage_of(out: Seq<ProjectUsage>, slots: Seq<Slot>) -> bool {
    &&& forall|k: int|
        0 <= k < out.len() ==> {
            let u = #[trigger] out[k];
            &&& u.running > 0
            &&& u.running == count_of(slots, u.project@)
            &&& u.reserved_memory_bytes == total_of(slots, u.project@)
        }
    &&& forall|j: int, k: int|
        0 <= j < k < out.len() ==> text::precedes(
            (#[trigger] out[j]).project@,
            (#[trigger] out[k]).project@,
        )
    &&& forall|i: int|
        0 <= i < slots.len() ==> exists|k: int|
            0 <= k < out.len() && (#[trigger] out[k]).project@ == (#[trigger] slots[i]).project
}

// ---------------------------------------------------------------------------
// The scheduler
// ---------------------------------------------------------------------------

impl Running {
    spec fn slot(self) -> Slot {
        Slot { id: self.id, project: self.project@, memory: self.memory_bytes as nat }
    }
}

impl Queued {
    spec fn waiting(self) -> Waiting {
        Waiting {
            id: self.id,
            project: self.project@,
            memory: self.memory_bytes as nat,
            enqueued_at: self.enqueued_at@,
            deadline: self.deadline@,
        }
    }
}

spec fn slots_of(v: Seq<Running>) -> Seq<Slot> {
    v.map_values(|r: Running| r.slot())
}

spec fn waiting_of(v: Seq<Queued>) -> Seq<Waiting> {
    v.map_values(|q: Queued| q.waiting())
}

impl View for Scheduler {
    type V = Book;

    closed spec fn view(&self) -> Book {
        Book {
            limits: self.limits,
            running: slots_of(self.running@),
            queue: waiting_of(self.queue@),
            held: slots_of(self.held@),
        }
    }
}

fn sum_of(v: &Vec<Running>) -> (r: u64)
    requires
        total(slots_of(v@)) <= u64::MAX,
    ensures
        r == total(slots_of(v@)),
{
    let mut r: u64 = 0;
    let mut i: usize = 0;
    let ghost slots = slots_of(v@);
    assert(slots.take(0) =~= Seq::<Slot>::empty());
    while i < v.len()
        invariant
            i <= v.len(),
            slots == slots_of(v@),
            r == total(slots.take(i as int)),
            total(slots) <= u64::MAX,
        decreases v.len() - i,
    {
        assert(slots.take(i + 1).drop_last() =~= slots.take(i as int));
        proof {
            total_grows(slots, i + 1, slots.len() as int);
            assert(slots.take(slots.len() as int) =~= slots);
        }
        r += v[i].memory_bytes;
        i += 1;
    }
    assert(slots.take(slots.len() as int) =~= slots);
    r
}

impl Scheduler {
    /// The reservations of the book add up to a machine number.
    pub open spec fn wf(self) -> bool {
        self@.reserved() <= u64::MAX && self@.running.len() + self@.queue.len() <= usize::MAX
    }

    pub fn new(limits: Limits) -> (r: Self)
        ensures
            r.wf(),
            r@ == (Book {
                limits,
                running: Seq::empty(),
                queue: Seq::empty(),
                held: Seq::empty(),
            }),
    {
        let r: Scheduler = Scheduler {
            limits,
            running: Vec::new(),
            queue: Vec::new(),
            held: Vec::new(),
        };
        assert(r@.running =~= Seq::<Slot>::empty());
        assert(r@.queue =~= Seq::<Waiting>::empty());
        assert(r@.held =~= Seq::<Slot>::empty());
        r
    }

    pub fn limits(&self) -> (r: &Limits)
        ensures
            *r == self@.limits,
    {
        &self.limits
    }

    /// Replace the limits. Runs already admitted keep their slots and are not
    /// touched; the new numbers govern admission from here on. A temporary
    /// exceedance (more running than the new cap) is reported, not hidden.
    pub fn set_limits(&mut self, limits: Limits)
        ensures
            final(self)@ == (Book { limits, ..old(self)@ }),
            old(self).wf() ==> final(self).wf(),
    {
        self.limits = limits;
    }

    /// Admit, queue or reject one request. `memory_bytes` is already resolved
    /// against the default by the caller.
    pub fn submit(
        &mut self,
        id: RunId,
        project: &str,
        memory_bytes: u64,
        queue_timeout: Option<Duration>,
        now: Duration,
    ) -> (r: Admission)
        requires
            old(self).wf(),
            old(self)@.running.len() + old(self)@.queue.len() < usize::MAX,
            old(self)@.decision(project@, memory_bytes) is Queued ==> old(self)@.deadline_of(
                queue_timeout,
                now@,
            ) <= time::MAX_NANOS,
        ensures
            final(self).wf(),
            r == old(self)@.decision(project@, memory_bytes),
            final(self)@ == old(self)@.submitted(id, project@, memory_bytes, queue_timeout, now@),
    {
        let ghost b = self@;
        if memory_bytes > self.limits.memory_budget_bytes {
            return Admission::Rejected(
                RejectReason::Impossible {
                    requested: memory_bytes,
                    budget: self.limits.memory_budget_bytes,
                },
            );
        }
        if self.can_admit(project, memory_bytes) {
            let ghost s = Slot { id, project: project@, memory: memory_bytes as nat };
            proof {
                count_after_push(b.running, s, project@);
            }
            self.running.push(Running { id, project: project.to_owned(), memory_bytes });
            assert(self@.running =~= b.running.push(s));
            return Admission::Start { memory_bytes };
        }
        if self.queue.len() >= self.limits.max_queued {
            return Admission::Rejected(
                RejectReason::QueueFull { max_queued: self.limits.max_queued },
            );
        }
        let timeout: Duration = match queue_timeout {
            Some(d) => d,
            None => self.limits.queue_timeout,
        };
        self.queue.push(
            Queued {
                id,
                project: project.to_owned(),
                memory_bytes,
                enqueued_at: now,
                deadline: now.plus(timeout),
            },
        );
        assert(self@.queue =~= b.submitted(id, project@, memory_bytes, queue_timeout, now@).queue);
        Admission::Queued { position: self.queue.len() }
    }

    /// Release a slot, optionally holding the reservation because the
    /// cleanup was not complete. Returns the ids admitted as a result, in the
    /// order they were admitted; the caller starts them.
    pub fn release(&mut self, id: RunId, hold: bool, now: Duration) -> (r: Vec<RunId>)
        requires
            old(self).wf(),
        ensures
            final(self).wf(),
            match first_of(old(self)@.running, id) {
                Some(_) => {
                    &&& r@ == old(self)@.released(id, hold).drained(now@).0
                    &&& final(self)@ == old(self)@.released(id, hold).drained(now@).1
                },
                None => r@.len() == 0 && final(self)@ == old(self)@,
            },
    {
        let ghost b = self@;
        let mut kept: Vec<Running> = Vec::new();
        let mut first: Option<Running> = None;
        let mut i: usize = 0;
        assert(b.running.take(0) =~= Seq::<Slot>::empty());
        assert(slots_of(kept@) =~= Seq::<Slot>::empty());
        while i < self.running.len()
            invariant
                i <= self.running.len(),
                self@ == b,
                slots_of(kept@) == without(b.running.take(i as int), id),
                match first {
                    Some(r) => first_of(b.running.take(i as int), id) == Some(r.slot()),
                    None => first_of(b.running.take(i as int), id) is None,
                },
            decreases self.running.len() - i,
        {
            let ghost prefix = b.running.take(i as int);
            assert(b.running.take(i + 1).drop_last() =~= prefix);
            let r: &Running = &self.running[i];
            assert(b.running[i as int] == r.slot());
            assert(b.running.take(i + 1).last() == r.slot());
            let copy: Running = Running {
                id: r.id,
                project: r.project.clone(),
                memory_bytes: r.memory_bytes,
            };
            let ghost before_push = slots_of(kept@);
            if r.id == id {
                if first.is_none() {
                    first = Some(copy);
                }
            } else {
                kept.push(copy);
                assert(slots_of(kept@) =~= before_push.push(copy.slot()));
            }
            i += 1;
        }
        assert(b.running.take(b.running.len() as int) =~= b.running);
        proof {
            release_frees_only_that_run(b.running, id);
        }
        match first {
            None => {
                let none: Vec<RunId> = Vec::new();
                return none;
            },
            Some(f) => {
                self.running = kept;
                let ghost fs = f.slot();
                if hold {
                    self.held.push(f);
                    assert(slots_of(self.held@) =~= b.held.push(fs));
                    proof {
                        count_after_push(b.held, fs, fs.project);
                    }
                }
            },
        }
        let ghost start = b.released(id, hold);
        assert(self@ == start);
        let mut admitted: Vec<RunId> = Vec::new();
        assert(Seq::<RunId>::empty() + start.drained(now@).0 =~= start.drained(now@).0);
        assert(admitted@ =~= Seq::<RunId>::empty());
        loop
            invariant
                self.wf(),
                start.drained(now@).0 == admitted@ + self@.drained(now@).0,
                start.drained(now@).1 == self@.drained(now@).1,
            ensures
                self.wf(),
                start.drained(now@).0 == admitted@,
                start.drained(now@).1 == self@,
            decreases self@.queue.len(),
        {
            let ghost cur = self@;
            match self.pick_next(now) {
                Some(next) => {
                    proof {
                        let i = cur.picked(now@)->Some_0;
                        assert(cur.drained(now@).0 =~= seq![next] + self@.drained(now@).0);
                        assert(admitted@ + (seq![next] + self@.drained(now@).0) =~= admitted@.push(
                            next,
                        ) + self@.drained(now@).0);
                    }
                    admitted.push(next);
                },
                None => {
                    assert(admitted@ + Seq::<RunId>::empty() =~= admitted@);
                    break;
                },
            }
        }
        admitted
    }

    /// Drop a request that never started. `true` when it was in the queue.
    pub fn cancel_queued(&mut self, id: RunId) -> (r: bool)
        requires
            old(self).wf(),
        ensures
            final(self).wf(),
            final(self)@ == (Book { queue: others(old(self)@.queue, id), ..old(self)@ }),
            r == exists|k: int|
                0 <= k < old(self)@.queue.len() && (#[trigger] old(self)@.queue[k]).id == id,
    {
        let ghost b = self@;
        let before: usize = self.queue.len();
        let mut kept: Vec<Queued> = Vec::new();
        let mut i: usize = 0;
        assert(b.queue.take(0) =~= Seq::<Waiting>::empty());
        assert(waiting_of(kept@) =~= Seq::<Waiting>::empty());
        while i < self.queue.len()
            invariant
                i <= self.queue.len(),
                self@ == b,
                waiting_of(kept@) == others(b.queue.take(i as int), id),
            decreases self.queue.len() - i,
        {
            assert(b.queue.take(i + 1).drop_last() =~= b.queue.take(i as int));
            let q: &Queued = &self.queue[i];
            assert(b.queue.take(i + 1).last() == q.waiting());
            let ghost before_push = waiting_of(kept@);
            if q.id != id {
                let copy: Queued = Queued {
                    id: q.id,
                    project: q.project.clone(),
                    memory_bytes: q.memory_bytes,
                    enqueued_at: q.enqueued_at,
                    deadline: q.deadline,
                };
                kept.push(copy);
                assert(waiting_of(kept@) =~= before_push.push(copy.waiting()));
            }
            i += 1;
        }
        assert(b.queue.take(b.queue.len() as int) =~= b.queue);
        proof {
            cancel_removes_only_that_request(b.queue, id);
        }
        self.queue = kept;
        self.queue.len() != before
    }

    /// Queued requests whose deadline has passed, removed from the queue.
    pub fn expire(&mut self, now: Duration) -> (r: Vec<RunId>)
        requires
            old(self).wf(),
        ensures
            final(self).wf(),
            r@ == expired(old(self)@.queue, now@),
            final(self)@ == (Book { queue: alive(old(self)@.queue, now@), ..old(self)@ }),
    {
        let ghost b = self@;
        let mut gone: Vec<RunId> = Vec::new();
        let mut kept: Vec<Queued> = Vec::new();
        let mut i: usize = 0;
        assert(b.queue.take(0) =~= Seq::<Waiting>::empty());
        assert(waiting_of(kept@) =~= Seq::<Waiting>::empty());
        assert(gone@ =~= Seq::<RunId>::empty());
        while i < self.queue.len()
            invariant
                i <= self.queue.len(),
                self@ == b,
                waiting_of(kept@) == alive(b.queue.take(i as int), now@),
                gone@ == expired(b.queue.take(i as int), now@),
            decreases self.queue.len() - i,
        {
            assert(b.queue.take(i + 1).drop_last() =~= b.queue.take(i as int));
            let q: &Queued = &self.queue[i];
            assert(b.queue.take(i + 1).last() == q.waiting());
            let ghost before_push = waiting_of(kept@);
            if now.at_least(q.deadline) {
                gone.push(q.id);
            } else {
                let copy: Queued = Queued {
                    id: q.id,
                    project: q.project.clone(),
                    memory_bytes: q.memory_bytes,
                    enqueued_at: q.enqueued_at,
                    deadline: q.deadline,
                };
                kept.push(copy);
                assert(waiting_of(kept@) =~= before_push.push(copy.waiting()));
            }
            i += 1;
        }
        assert(b.queue.take(b.queue.len() as int) =~= b.queue);
        proof {
            expiry_is_exact(b.queue, now@);
        }
        self.queue = kept;
        gone
    }

    /// 1-based queue position, if the request is waiting.
    pub fn position(&self, id: RunId) -> (r: Option<usize>)
        requires
            self.wf(),
        ensures
            match r {
                Some(p) => {
                    &&& 1 <= p <= self@.queue.len()
                    &&& self@.queue[p - 1].id == id
                    &&& forall|k: int| 0 <= k < p - 1 ==> (#[trigger] self@.queue[k]).id != id
                },
                None => forall|k: int|
                    0 <= k < self@.queue.len() ==> (#[trigger] self@.queue[k]).id != id,
            },
    {
        let mut i: usize = 0;
        while i < self.queue.len()
            invariant
                i <= self.queue.len(),
                self.wf(),
                forall|k: int| 0 <= k < i ==> (#[trigger] self@.queue[k]).id != id,
            decreases self.queue.len() - i,
        {
            assert(self@.queue[i as int] == self.queue@[i as int].waiting());
            if self.queue[i].id == id {
                return Some(i + 1);
            }
            i += 1;
        }
        None
    }

    pub fn running_count(&self) -> (r: usize)
        ensures
            r == self@.running.len(),
    {
        self.running.len()
    }

    pub fn queued_count(&self) -> (r: usize)
        ensures
            r == self@.queue.len(),
    {
        self.queue.len()
    }

    pub fn slots_free(&self) -> (r: usize)
        ensures
            r == self@.slots_free(),
    {
        if self.limits.max_parallel >= self.running.len() {
            self.limits.max_parallel - self.running.len()
        } else {
            0
        }
    }

    /// Reserved memory held by running runs plus reservations still held
    /// after an incomplete cleanup.
    pub fn reserved(&self) -> (r: u64)
        requires
            self.wf(),
        ensures
            r == self@.reserved(),
    {
        sum_of(&self.running) + sum_of(&self.held)
    }

    /// Reservations held for runs whose cleanup was not complete.
    pub fn held_reservations(&self) -> (r: usize)
        ensures
            r == self@.held.len(),
    {
        self.held.len()
    }

    /// What every project uses, by name.
    pub fn projects(&self) -> (out: Vec<ProjectUsage>)
        requires
            self.wf(),
        ensures
            is_usage_of(out@, self@.running),
    {
        let mut out: Vec<ProjectUsage> = Vec::new();
        let mut i: usize = 0;
        let ghost slots = self@.running;
        assert(slots.take(0) =~= Seq::<Slot>::empty());
        while i < self.running.len()
            invariant
                i <= self.running.len(),
                self.wf(),
                slots == self@.running,
                is_usage_of(out@, slots.take(i as int)),
            decreases self.running.len() - i,
        {
            let run: &Running = &self.running[i];
            let ghost s = run.slot();
            let ghost prefix = slots.take(i as int);
            let ghost next = slots.take(i + 1);
            assert(next =~= prefix.push(s));
            proof {
                project_total_bound(next, s.project);
                total_grows(slots, i + 1, slots.len() as int);
                assert(slots.take(slots.len() as int) =~= slots);
                assert forall|p: Seq<char>| #![trigger count_of(next, p)] #![trigger total_of(next, p)]
                    count_of(next, p) == count_of(prefix, p) + (if s.project == p {
                        1nat
                    } else {
                        0
                    }) && total_of(next, p) == total_of(prefix, p) + (if s.project == p {
                        s.memory
                    } else {
                        0
                    }) by {
                    count_after_push(prefix, s, p);
                }
            }
            // The first entry that does not come before this project.
            let mut k: usize = 0;
            while k < out.len() && before(out[k].project.as_str(), run.project.as_str())
                invariant
                    k <= out.len(),
                    forall|j: int|
                        0 <= j < k ==> text::precedes((#[trigger] out@[j]).project@, run.project@),
                decreases out.len() - k,
            {
                k += 1;
            }
            let ghost old_out = out@;
            if k < out.len() && same(out[k].project.as_str(), run.project.as_str()) {
                let entry: ProjectUsage = ProjectUsage {
                    project: out[k].project.clone(),
                    running: out[k].running + 1,
                    reserved_memory_bytes: out[k].reserved_memory_bytes + run.memory_bytes,
                };
                out.set(k, entry);
                proof {
                    assert forall|j: int| 0 <= j < out@.len() implies {
                        let u = #[trigger] out@[j];
                        u.running > 0 && u.running == count_of(next, u.project@)
                            && u.reserved_memory_bytes == total_of(next, u.project@)
                    } by {
                        if j != k {
                            assert(out@[j] == old_out[j]);
                            text::precedes_irreflexive(s.project);
                        }
                    }
                    assert forall|m: int| 0 <= m < next.len() implies exists|j: int|
                        0 <= j < out@.len() && (#[trigger] out@[j]).project@ == (
                        #[trigger] next[m]).project by {
                        if m < i {
                            assert(prefix[m] == next[m]);
                            let j = choose|j: int|
                                0 <= j < old_out.len() && (#[trigger] old_out[j]).project@
                                    == prefix[m].project;
                            assert(out@[j].project@ == old_out[j].project@);
                        } else {
                            assert(out@[k as int].project@ == next[m].project);
                        }
                    }
                }
            } else {
                let entry: ProjectUsage = ProjectUsage {
                    project: run.project.clone(),
                    running: 1,
                    reserved_memory_bytes: run.memory_bytes,
                };
                proof {
                    // Nobody listed this project before.
                    assert forall|j: int| 0 <= j < old_out.len() implies (
                    #[trigger] old_out[j]).project@ != s.project by {
                        text::precedes_irreflexive(s.project);
                        if j > k {
                            assert(text::precedes(old_out[k as int].project@, old_out[j].project@));
                        }
                        if j == k {
                        }
                    }
                    text::precedes_irreflexive(s.project);
                    if k < old_out.len() {
                        text::precedes_total(old_out[k as int].project@, s.project);
                    }
                    counted_slot_exists(prefix, s.project);
                    if count_of(prefix, s.project) > 0 {
                        let m = choose|m: int|
                            0 <= m < prefix.len() && (#[trigger] prefix[m]).project == s.project;
                        assert(false);
                    }
                    zero_count_zero_total(prefix, s.project);
                }
                out.insert(k, entry);
                proof {
                    assert(out@ =~= old_out.insert(k as int, entry));
                    assert forall|j: int| 0 <= j < out@.len() implies {
                        let u = #[trigger] out@[j];
                        u.running > 0 && u.running == count_of(next, u.project@)
                            && u.reserved_memory_bytes == total_of(next, u.project@)
                    } by {
                        if j < k {
                            assert(out@[j] == old_out[j]);
                        } else if j > k {
                            assert(out@[j] == old_out[j - 1]);
                        }
                    }
                    assert forall|a: int, c: int| 0 <= a < c < out@.len() implies text::precedes(
                        (#[trigger] out@[a]).project@,
                        (#[trigger] out@[c]).project@,
                    ) by {
                        if a < k && c < k {
                            assert(out@[a] == old_out[a] && out@[c] == old_out[c]);
                        } else if a < k && c == k {
                            assert(out@[a] == old_out[a]);
                        } else if a < k {
                            assert(out@[a] == old_out[a] && out@[c] == old_out[c - 1]);
                        } else if a == k {
                            assert(out@[c] == old_out[c - 1]);
                            if c - 1 > k {
                                text::precedes_transitive(
                                    s.project,
                                    old_out[k as int].project@,
                                    old_out[c - 1].project@,
                                );
                            }
                        } else {
                            assert(out@[a] == old_out[a - 1] && out@[c] == old_out[c - 1]);
                        }
                    }
                    assert forall|m: int| 0 <= m < next.len() implies exists|j: int|
                        0 <= j < out@.len() && (#[trigger] out@[j]).project@ == (
                        #[trigger] next[m]).project by {
                        if m < i {
                            assert(prefix[m] == next[m]);
                            let j = choose|j: int|
                                0 <= j < old_out.len() && (#[trigger] old_out[j]).project@
                                    == prefix[m].project;
                            if j < k {
                                assert(out@[j] == old_out[j]);
                            } else {
                                assert(out@[j + 1] == old_out[j]);
                            }
                        } else {
                            assert(out@[k as int].project@ == next[m].project);
                        }
                    }
                }
            }
            i += 1;
        }
        assert(slots.take(slots.len() as int) =~= slots);
        out
    }

    /// The queue as reported to clients, with a reason but no invented ETA.
    pub fn queue_entries(&self, now: Duration) -> (out: Vec<QueueEntry>)
        requires
            self.wf(),
        ensures
            out@.len() == self@.queue.len(),
            forall|i: int| 0 <= i < out@.len() ==> self@.reports(i, now@, #[trigger] out@[i]),
    {
        let mut out: Vec<QueueEntry> = Vec::new();
        let mut i: usize = 0;
        while i < self.queue.len()
            invariant
                i <= self.queue.len(),
                self.wf(),
                out@.len() == i,
                forall|j: int| 0 <= j < i ==> self@.reports(j, now@, #[trigger] out@[j]),
            decreases self.queue.len() - i,
        {
            let q: &Queued = &self.queue[i];
            assert(self@.queue[i as int] == q.waiting());
            let reason: String = if self.project_slots_free(q.project.as_str()) == 0 {
                "project ".to_owned().concat(q.project.as_str()).concat(" is at its ").concat(
                    dec_of(self.limits.max_parallel_per_project as u64).as_str(),
                ).concat("-run limit")
            } else if self.slots_free() == 0 {
                "all ".to_owned().concat(dec_of(self.limits.max_parallel as u64).as_str()).concat(
                    " slots are busy",
                )
            } else {
                "waiting for a memory reservation".to_owned()
            };
            out.push(
                QueueEntry {
                    run_id: q.id.to_text(),
                    project: q.project.clone(),
                    position: i + 1,
                    waiting_ms: now.saturating_sub(q.enqueued_at).as_millis_u64(),
                    memory_bytes: q.memory_bytes,
                    reason,
                },
            );
            i += 1;
        }
        out
    }

    fn can_admit(&self, project: &str, memory_bytes: u64) -> (r: bool)
        requires
            self.wf(),
        ensures
            r == self@.can_admit(project@, memory_bytes as nat),
    {
        self.slots_free() > 0 && self.room_for(project, memory_bytes, self.reserved())
    }

    /// Whether a project may take one more run of this size, given what is
    /// reserved already.
    fn room_for(&self, project: &str, memory_bytes: u64, reserved: u64) -> (r: bool)
        requires
            self.wf(),
            reserved == self@.reserved(),
        ensures
            r == self@.room_for(project@, memory_bytes as nat),
    {
        let budget: u64 = self.limits.memory_budget_bytes;
        self.project_slots_free(project) > 0 && reserved <= budget && memory_bytes <= budget
            - reserved
    }

    fn project_slots_free(&self, project: &str) -> (r: usize)
        requires
            self.wf(),
        ensures
            r == self@.project_slots_free(project@),
    {
        let mut n: usize = 0;
        let mut i: usize = 0;
        let ghost slots = self@.running;
        assert(slots.take(0) =~= Seq::<Slot>::empty());
        while i < self.running.len()
            invariant
                i <= self.running.len(),
                slots == self@.running,
                n == count_of(slots.take(i as int), project@),
                n <= i,
            decreases self.running.len() - i,
        {
            assert(slots.take(i + 1).drop_last() =~= slots.take(i as int));
            assert(slots.take(i + 1).last() == self.running@[i as int].slot());
            if same(self.running[i].project.as_str(), project) {
                n += 1;
            }
            i += 1;
        }
        assert(slots.take(slots.len() as int) =~= slots);
        if self.limits.max_parallel_per_project >= n {
            self.limits.max_parallel_per_project - n
        } else {
            0
        }
    }

    /// Pick and admit one queued request that fits, or `None`.
    ///
    /// A starved request wins first. Otherwise a project with no running run
    /// is preferred, so one busy project cannot monopolize the queue; within
    /// that choice the oldest request goes first.
    fn pick_next(&mut self, now: Duration) -> (r: Option<RunId>)
        requires
            old(self).wf(),
        ensures
            final(self).wf(),
            match old(self)@.picked(now@) {
                Some(i) => {
                    &&& 0 <= i < old(self)@.queue.len()
                    &&& r == Some(old(self)@.queue[i].id)
                    &&& final(self)@ == old(self)@.started(i)
                },
                None => r is None && final(self)@ == old(self)@,
            },
    {
        let ghost b = self@;
        match self.candidate_index(now) {
            None => None,
            Some(index) => {
                proof {
                    let i = b.picked(now@)->Some_0;
                    assert(b.next(now@, i));
                    next_is_unique(b, now@, index as int, i);
                }
                let next: Queued = self.queue.remove(index);
                let ghost s = Slot {
                    id: next.id,
                    project: next.project@,
                    memory: next.memory_bytes as nat,
                };
                assert(next.waiting() == b.queue[index as int]);
                proof {
                    count_after_push(b.running, s, s.project);
                }
                let id: RunId = next.id;
                self.running.push(
                    Running { id, project: next.project, memory_bytes: next.memory_bytes },
                );
                assert(self@.running =~= b.running.push(s));
                assert(self@.queue =~= b.queue.remove(index as int));
                Some(id)
            },
        }
    }

    fn candidate_index(&self, now: Duration) -> (r: Option<usize>)
        requires
            self.wf(),
        ensures
            match r {
                Some(i) => self@.next(now@, i as int),
                None => forall|i: int| !self@.next(now@, i),
            },
    {
        if self.slots_free() == 0 {
            return None;
        }
        let ghost b = self@;
        let reserved: u64 = self.reserved();
        let mut idle: Option<usize> = None;
        let mut any: Option<usize> = None;
        let mut i: usize = 0;
        while i < self.queue.len()
            invariant
                i <= self.queue.len(),
                self.wf(),
                b == self@,
                b.slots_free() > 0,
                reserved == b.reserved(),
                forall|j: int| 0 <= j < i ==> !b.starved(now@, j),
                match idle {
                    Some(k) => k < i && b.idle(k as int) && forall|j: int|
                        0 <= j < i && #[trigger] b.idle(j) ==> b.no_later(k as int, j),
                    None => forall|j: int| 0 <= j < i ==> !b.idle(j),
                },
                match any {
                    Some(k) => k < i && b.eligible(k as int) && forall|j: int|
                        0 <= j < i && #[trigger] b.eligible(j) ==> b.no_later(k as int, j),
                    None => forall|j: int| 0 <= j < i ==> !b.eligible(j),
                },
            decreases self.queue.len() - i,
        {
            let q: &Queued = &self.queue[i];
            assert(b.queue[i as int] == q.waiting());
            if self.room_for(q.project.as_str(), q.memory_bytes, reserved) {
                assert(b.eligible(i as int));
                if now.saturating_sub(q.enqueued_at).at_least(self.limits.starvation_after) {
                    assert(b.starved(now@, i as int));
                    assert(forall|j: int| b.starved(now@, j) ==> i <= j);
                    return Some(i);
                }
                if self.project_slots_free(q.project.as_str())
                    == self.limits.max_parallel_per_project {
                    assert(b.idle(i as int));
                    match idle {
                        Some(k) => {
                            assert(b.queue[k as int] == self.queue@[k as int].waiting());
                            if !q.enqueued_at.at_least(self.queue[k].enqueued_at) {
                                idle = Some(i);
                            }
                        },
                        None => {
                            idle = Some(i);
                        },
                    }
                }
                match any {
                    Some(k) => {
                        assert(b.queue[k as int] == self.queue@[k as int].waiting());
                        if !q.enqueued_at.at_least(self.queue[k].enqueued_at) {
                            any = Some(i);
                        }
                    },
                    None => {
                        any = Some(i);
                    },
                }
            }
            i += 1;
        }
        assert(forall|j: int| !b.starved(now@, j));
        match idle {
            Some(k) => Some(k),
            None => {
                assert(forall|j: int| !b.idle(j));
                any
            },
        }
    }
}

proof fn zero_count_zero_total(slots: Seq<Slot>, p: Seq<char>)
    requires
        count_of(slots, p) == 0,
    ensures
        total_of(slots, p) == 0,
    decreases slots.len(),
{
    if slots.len() > 0 {
        zero_count_zero_total(slots.drop_last(), p);
    }
}

} // verus!

//! The supervisor: every live run, the admission books, and what each request
//! does to them.
//!
//! Storage, threads and processes belong to the program around the library:
//! each operation returns what there is to record, publish or start.

use crate::model::boot::BootId;
use crate::model::process::ProcessIdentity;
use crate::model::run::{
    BackendCapabilities, Capacity, CleanupState, EffectiveLimits, LogState, QueueEntry, RunId,
    RunOutcome, RunRecord, RunResult, RunSpec, RunState,
};
use crate::platform::cgroup::CgroupLimits;
use crate::platform::pgroup::GroupUsage;
use crate::runner::run;
use crate::runner::run::{
    aggregate_limits, effective_limits, project_key, EventView, InnerModel, ResultModel, RunSlot,
    RunView, SlotModel, StartError,
};
use crate::runner::scheduler;
use crate::runner::scheduler::{Admission, Book, Limits, RejectReason, Scheduler};
use crate::runner::worker;
use crate::runner::worker::{EffectiveModel, FinishModel, FinishRequest};
use crate::text;
use crate::text::{copy_opt, dec_of};
use crate::time;
use crate::time::Duration;
use vstd::prelude::*;

verus! {

/// Result of `start`: the run and whether this call created it.
#[derive(Debug, Clone, Copy, PartialEq, Eq, Structural)]
pub struct StartResult {
    pub id: RunId,
    pub created: bool,
}

/// What the store made of a request's idempotency key.
#[derive(Debug, Clone, Copy, PartialEq, Eq, Structural)]
pub enum RunInsert {
    /// A new run.
    Created(RunId),
    /// The same request as before.
    Existing(RunId),
    /// The key belongs to a run of another command.
    Conflict(RunId),
}

/// When a run's command ran and what it printed.
#[derive(Debug, Clone, Copy, PartialEq, Eq, Structural)]
pub struct Timing {
    pub started_at: u64,
    pub duration_ms: u64,
    pub logs: LogState,
}

/// What there is to record and to start when a run finished.
#[derive(Debug, Clone)]
pub struct Finished {
    pub id: RunId,
    pub revision: i64,
    pub result: RunResult,
    pub logs: LogState,
    /// The limits and the queue wait to record, for a run that never
    /// spawned: one that did has recorded the real ones already.
    pub effective: Option<(EffectiveLimits, u64)>,
    pub limit_event: Option<String>,
    /// Runs admitted in its place, with their environments.
    pub started: Vec<(RunId, Vec<(String, String)>)>,
    /// The run as it was left.
    pub slot: RunSlot,
}

/// The same as a model.
pub struct FinishedModel {
    pub id: RunId,
    pub revision: int,
    pub result: ResultModel,
    pub logs: LogState,
    pub effective: Option<(EffectiveModel, u64)>,
    pub limit_event: Option<Seq<char>>,
    pub started: Seq<(RunId, Seq<(String, String)>)>,
    pub slot: SlotModel,
}

pub open spec fn started_model(v: Seq<(RunId, Vec<(String, String)>)>) -> Seq<
    (RunId, Seq<(String, String)>),
> {
    Seq::new(v.len(), |i: int| (v[i].0, v[i].1@))
}

impl View for Finished {
    type V = FinishedModel;

    open spec fn view(&self) -> FinishedModel {
        FinishedModel {
            id: self.id,
            revision: self.revision as int,
            result: run::result_model(self.result),
            logs: self.logs,
            effective: match self.effective {
                Some((e, wait)) => Some((worker::effective_model(e), wait)),
                None => None,
            },
            limit_event: text::text_of(self.limit_event),
            started: started_model(self.started@),
            slot: self.slot@,
        }
    }
}

pub open spec fn finished_models(v: Seq<Finished>) -> Seq<FinishedModel> {
    Seq::new(v.len(), |i: int| v[i]@)
}

/// The place of the first run with an id.
pub open spec fn index_of(runs: Seq<SlotModel>, id: RunId) -> Option<int>
    decreases runs.len(),
{
    if runs.len() == 0 {
        None
    } else {
        match index_of(runs.drop_last(), id) {
            Some(i) => Some(i),
            None => if runs.last().id == id {
                Some(runs.len() - 1)
            } else {
                None
            },
        }
    }
}

/// A place found lies in the list and holds the id; none is found where no
/// run has the id.
pub proof fn index_of_facts(runs: Seq<SlotModel>, id: RunId)
    ensures
        match index_of(runs, id) {
            Some(i) => 0 <= i < runs.len() && runs[i].id == id && forall|k: int|
                0 <= k < i ==> (#[trigger] runs[k]).id != id,
            None => forall|k: int| 0 <= k < runs.len() ==> (#[trigger] runs[k]).id != id,
        },
    decreases runs.len(),
{
    if runs.len() > 0 {
        let rest = runs.drop_last();
        index_of_facts(rest, id);
        assert forall|k: int| 0 <= k < rest.len() implies rest[k] == #[trigger] runs[k] by {}
        if let Some(i) = index_of(rest, id) {
            assert(rest[i] == runs[i]);
        }
    }
}

proof fn index_is(runs: Seq<SlotModel>, id: RunId, i: int)
    requires
        0 <= i < runs.len(),
        runs[i].id == id,
        forall|k: int| 0 <= k < i ==> (#[trigger] runs[k]).id != id,
    ensures
        index_of(runs, id) == Some(i),
{
    index_of_facts(runs, id);
    if let Some(j) = index_of(runs, id) {
        if j < i {
            assert(runs[j].id != id);
        }
        if i < j {
            assert(runs[i].id != id);
        }
    }
}

proof fn index_none(runs: Seq<SlotModel>, id: RunId)
    requires
        forall|k: int| 0 <= k < runs.len() ==> (#[trigger] runs[k]).id != id,
    ensures
        index_of(runs, id) is None,
{
    index_of_facts(runs, id);
    if let Some(j) = index_of(runs, id) {
        assert(runs[j].id != id);
    }
}

/// A run that leaves the queue for a slot: its queue note is gone and its
/// environment handed to the worker.
pub open spec fn woken(s: SlotModel) -> SlotModel {
    SlotModel {
        inner: InnerModel { detail: None, ..s.inner },
        env: Seq::empty(),
        ..s
    }
}

/// Admitted runs are woken one after the other, with their environments; an
/// id that no live run has is passed over.
pub open spec fn wake(runs: Seq<SlotModel>, ids: Seq<RunId>) -> (
    Seq<SlotModel>,
    Seq<(RunId, Seq<(String, String)>)>,
)
    decreases ids.len(),
{
    if ids.len() == 0 {
        (runs, Seq::empty())
    } else {
        let before = wake(runs, ids.drop_last());
        match index_of(before.0, ids.last()) {
            Some(i) => (
                before.0.update(i, woken(before.0[i])),
                before.1.push((ids.last(), before.0[i].env)),
            ),
            None => before,
        }
    }
}

/// Whether a run waits in the queue.
pub open spec fn in_queue(queue: Seq<scheduler::Waiting>, id: RunId) -> bool {
    exists|k: int| 0 <= k < queue.len() && (#[trigger] queue[k]).id == id
}

/// The runs admitted when one gives up its slot, and the book that is left.
pub open spec fn admitted(book: Book, id: RunId, hold: bool, now: nat) -> (Seq<RunId>, Book) {
    match scheduler::first_of(book.running, id) {
        Some(_) => book.released(id, hold).drained(now),
        None => (Seq::empty(), book),
    }
}

/// The result that a run ends with.
pub open spec fn result_of(f: FinishModel, timing: Option<Timing>, now_secs: u64) -> ResultModel {
    ResultModel {
        outcome: f.outcome,
        exit_code: f.exit_code,
        signal: f.signal,
        started_at: match timing {
            Some(t) => Some(t.started_at),
            None => None,
        },
        finished_at: now_secs,
        duration_ms: match timing {
            Some(t) => t.duration_ms,
            None => 0,
        },
        cleanup: f.cleanup,
        detail: f.detail,
    }
}

/// The supervisor as a model: the admission book and the live runs.
pub struct SupervisorModel {
    pub book: Book,
    pub runs: Seq<SlotModel>,
}

/// The queue timeout in words.
pub open spec fn expired_text() -> Seq<char> {
    "queue timeout: waited for a slot too long"@
}

impl SupervisorModel {
    /// The supervisor once a run is over. An incomplete cleanup keeps its
    /// reservation: the processes may still be alive, and pretending the
    /// capacity is free would let the next run bypass the budget.
    pub open spec fn finished(self, id: RunId, f: FinishModel, now: nat) -> SupervisorModel {
        match index_of(self.runs, id) {
            Some(i) => {
                let a = admitted(self.book, id, f.cleanup != CleanupState::Complete, now);
                SupervisorModel { book: a.1, runs: wake(self.runs.remove(i), a.0).0 }
            },
            None => self,
        }
    }

    /// What there is to record and to start then.
    pub open spec fn finish_effect(
        self,
        id: RunId,
        f: FinishModel,
        timing: Option<Timing>,
        now: nat,
        now_secs: u64,
    ) -> FinishedModel {
        let i = index_of(self.runs, id)->0;
        let slot = self.runs[i];
        let result = result_of(f, timing, now_secs);
        let a = admitted(self.book, id, f.cleanup != CleanupState::Complete, now);
        FinishedModel {
            id,
            revision: slot.inner.revision + 1,
            result,
            logs: match timing {
                Some(t) => t.logs,
                None => slot.logs,
            },
            effective: if slot.effective_set {
                None
            } else {
                Some((worker::limits_in_force(slot.spec.resources, None), slot.wait_ms(now)))
            },
            limit_event: slot.limit_event,
            started: wake(self.runs.remove(i), a.0).1,
            slot: SlotModel { inner: slot.inner.concluded(result), ..slot },
        }
    }

    /// One request to stop: a queued run is dropped and finished at once;
    /// another gets its cancel flag.
    pub open spec fn cancelled(self, id: RunId, now: nat) -> SupervisorModel {
        match index_of(self.runs, id) {
            None => self,
            Some(i) => {
                let queued = self.runs[i].inner.state == RunState::Queued;
                let m = SupervisorModel {
                    book: if queued {
                        Book { queue: scheduler::others(self.book.queue, id), ..self.book }
                    } else {
                        self.book
                    },
                    ..self
                };
                if queued && in_queue(self.book.queue, id) {
                    m.finished(
                        id,
                        FinishModel::unspawned(
                            RunOutcome::Cancelled,
                            "cancelled while queued"@,
                        ),
                        now,
                    )
                } else {
                    SupervisorModel {
                        runs: self.runs.update(i, SlotModel { cancel: true, ..self.runs[i] }),
                        ..m
                    }
                }
            },
        }
    }

    /// What a request to stop does.
    pub open spec fn cancel_effect(self, id: RunId, now: nat, now_secs: u64) -> CancelModel {
        match index_of(self.runs, id) {
            None => CancelModel::NotLive,
            Some(i) => if self.runs[i].inner.state == RunState::Queued && in_queue(
                self.book.queue,
                id,
            ) {
                CancelModel::Dropped(
                    (SupervisorModel {
                        book: Book {
                            queue: scheduler::others(self.book.queue, id),
                            ..self.book
                        },
                        ..self
                    }).finish_effect(
                        id,
                        FinishModel::unspawned(
                            RunOutcome::Cancelled,
                            "cancelled while queued"@,
                        ),
                        None,
                        now,
                        now_secs,
                    ),
                )
            } else {
                CancelModel::Flagged
            },
        }
    }

    /// What requests to stop do, one after the other.
    pub open spec fn cancel_effects(self, ids: Seq<RunId>, now: nat, now_secs: u64) -> Seq<
        CancelModel,
    >
        decreases ids.len(),
    {
        if ids.len() == 0 {
            Seq::empty()
        } else {
            self.cancel_effects(ids.drop_last(), now, now_secs).push(
                self.cancelled_all(ids.drop_last(), now).cancel_effect(ids.last(), now, now_secs),
            )
        }
    }

    /// Requests to stop one after the other.
    pub open spec fn cancelled_all(self, ids: Seq<RunId>, now: nat) -> SupervisorModel
        decreases ids.len(),
    {
        if ids.len() == 0 {
            self
        } else {
            self.cancelled_all(ids.drop_last(), now).cancelled(ids.last(), now)
        }
    }

    /// The runs whose queue deadline passed are finished one after the other.
    pub open spec fn timed_out(self, ids: Seq<RunId>, now: nat, now_secs: u64) -> (
        SupervisorModel,
        Seq<FinishedModel>,
    )
        decreases ids.len(),
    {
        if ids.len() == 0 {
            (self, Seq::empty())
        } else {
            let before = self.timed_out(ids.drop_last(), now, now_secs);
            let f = FinishModel::unspawned(RunOutcome::TimedOut, expired_text());
            (
                before.0.finished(ids.last(), f, now),
                if index_of(before.0.runs, ids.last()) is Some {
                    before.1.push(before.0.finish_effect(ids.last(), f, None, now, now_secs))
                } else {
                    before.1
                },
            )
        }
    }

    /// The memory that a request reserves.
    pub open spec fn reservation(self, spec: RunSpec) -> u64 {
        match spec.resources.memory_bytes {
            Some(m) => m,
            None => self.book.limits.default_run_memory_bytes,
        }
    }

    /// What admission decides on a request.
    pub open spec fn admission(self, spec: RunSpec) -> Admission {
        self.book.decision(run::project_of(spec), self.reservation(spec))
    }

    /// The book after a request.
    pub open spec fn book_with(self, id: RunId, spec: RunSpec, now: nat) -> Book {
        self.book.submitted(
            id,
            run::project_of(spec),
            self.reservation(spec),
            spec.resources.queue_timeout,
            now,
        )
    }

    pub open spec fn with_run(self, i: int, run: SlotModel) -> SupervisorModel {
        SupervisorModel { runs: self.runs.update(i, run), ..self }
    }

    pub open spec fn ids(self) -> Seq<RunId> {
        Seq::new(self.runs.len(), |i: int| self.runs[i].id)
    }
}

/// No two live runs share an id.
pub open spec fn no_two_alike(runs: Seq<SlotModel>) -> bool {
    forall|i: int, j: int|
        0 <= i < j < runs.len() ==> (#[trigger] runs[i]).id != (#[trigger] runs[j]).id
}

/// What is said of a queued request.
pub open spec fn queued_text(position: nat, reason: Seq<char>) -> Seq<char> {
    "queued at position "@ + text::dec(position) + ": "@ + reason
}

/// The first queue entry of a run.
pub open spec fn first_waiting(queue: Seq<scheduler::Waiting>, id: RunId) -> int {
    choose|k: int|
        0 <= k < queue.len() && (#[trigger] queue[k]).id == id && forall|j: int|
            0 <= j < k ==> (#[trigger] queue[j]).id != id
}

/// What a request that was just recorded gets: a worker at once, a place in
/// the queue, or a refusal that is recorded as its end.
pub open spec fn begins(
    b: Begun,
    m: SupervisorModel,
    after: SupervisorModel,
    id: RunId,
    spec: RunSpec,
    env: Seq<(String, String)>,
    now: nat,
    now_secs: u64,
) -> bool {
    &&& after.book == m.book_with(id, spec, now)
    &&& match m.admission(spec) {
        Admission::Start { .. } => {
            &&& b matches Begun::Worker(e)
            &&& e@ == env
            &&& after.runs == m.runs.push(SlotModel::fresh(id, spec, Seq::empty()))
        },
        Admission::Queued { position } => {
            let queue = after.book.queue;
            let reason = after.book.wait_reason(queue[first_waiting(queue, id)].project);
            let fresh = SlotModel::fresh(id, spec, env);
            &&& b matches Begun::Queued(detail)
            &&& detail@ == queued_text(position as nat, reason)
            &&& after.runs == m.runs.push(
                SlotModel {
                    inner: InnerModel { detail: Some(detail@), ..fresh.inner },
                    queued_at: Some(now),
                    ..fresh
                },
            )
        },
        Admission::Rejected(reason) => {
            let with = SupervisorModel {
                book: m.book,
                runs: m.runs.push(SlotModel::fresh(id, spec, env)),
            };
            &&& b matches Begun::Refused(why, f)
            &&& why == reason
            &&& f@ == with.finish_effect(
                id,
                FinishModel::unspawned(RunOutcome::SpawnFailed, run::reject_text(reason)),
                None,
                now,
                now_secs,
            )
            &&& after.runs == m.runs
        },
    }
}

/// A queued run cancelled before it was admitted leaves queue and registry
/// without taking a slot: it can never be started.
pub proof fn queue_cancel_never_starts(m: SupervisorModel, id: RunId, now: nat)
    requires
        no_two_alike(m.runs),
        index_of(m.runs, id) is Some,
        m.runs[index_of(m.runs, id)->0].inner.state == RunState::Queued,
        in_queue(m.book.queue, id),
        scheduler::first_of(m.book.running, id) is None,
    ensures
        !in_queue(m.cancelled(id, now).book.queue, id),
        m.cancelled(id, now).book.running == m.book.running,
        index_of(m.cancelled(id, now).runs, id) is None,
{
    let i = index_of(m.runs, id)->0;
    index_of_facts(m.runs, id);
    scheduler::cancel_removes_only_that_request(m.book.queue, id);
    removal_keeps_distinct(m.runs, i);
    index_none(m.runs.remove(i), id);
}

/// Asking a run to stop again changes nothing.
pub proof fn cancelling_is_idempotent(m: SupervisorModel, id: RunId, now: nat, later: nat)
    requires
        no_two_alike(m.runs),
    ensures
        m.cancelled(id, now).cancelled(id, later) == m.cancelled(id, now),
{
    let once = m.cancelled(id, now);
    index_of_facts(m.runs, id);
    if let Some(i) = index_of(m.runs, id) {
        let queue = m.book.queue;
        let rest = scheduler::others(queue, id);
        scheduler::cancel_removes_only_that_request(queue, id);
        if m.runs[i].inner.state == RunState::Queued && in_queue(queue, id) {
            let left = m.runs.remove(i);
            removal_keeps_distinct(m.runs, i);
            let a = admitted(Book { queue: rest, ..m.book }, id, false, now);
            wake_keeps_live(left, a.0);
            assert forall|k: int| 0 <= k < once.runs.len() implies (#[trigger] once.runs[k]).id
                != id by {
                assert(once.runs[k].id == left[k].id);
            }
            index_none(once.runs, id);
        } else {
            index_is(once.runs, id, i);
            assert(once.runs.update(i, SlotModel { cancel: true, ..once.runs[i] }) =~= once.runs);
            scheduler::cancel_removes_only_that_request(rest, id);
            scheduler::nothing_else_to_remove(rest, id);
        }
    }
}

/// Live runs and the admission books.
pub struct Supervisor {
    pub scheduler: Scheduler,
    pub runs: Vec<RunSlot>,
    pub boot_id: BootId,
    pub identity: String,
    pub capabilities: BackendCapabilities,
}

pub open spec fn slots_of(v: Seq<RunSlot>) -> Seq<SlotModel> {
    Seq::new(v.len(), |i: int| v[i]@)
}

impl View for Supervisor {
    type V = SupervisorModel;

    open spec fn view(&self) -> SupervisorModel {
        SupervisorModel { book: self.scheduler@, runs: slots_of(self.runs@) }
    }
}

/// The limits that the kernel holds all runs to together, where it does.
#[derive(Debug, Clone, Copy, PartialEq, Eq, Structural)]
pub struct AggregateCaps {
    pub memory_max: Option<u64>,
    pub cpu_millicores: Option<u32>,
    pub pids_max: Option<u32>,
}

/// What a recorded request got.
#[derive(Debug, Clone)]
pub enum Begun {
    /// Capacity is reserved: start the worker with this environment.
    Worker(Vec<(String, String)>),
    /// Waiting, and why.
    Queued(String),
    /// Refused for good; there is a result to record.
    Refused(RejectReason, Finished),
}

/// What a request to stop did.
#[derive(Debug, Clone)]
pub enum CancelEffect {
    /// No live run has the id.
    NotLive,
    /// The run had no process yet and is finished.
    Dropped(Finished),
    /// The worker was told.
    Flagged,
}

/// The same as a model.
pub enum CancelModel {
    NotLive,
    Dropped(FinishedModel),
    Flagged,
}

impl View for CancelEffect {
    type V = CancelModel;

    open spec fn view(&self) -> CancelModel {
        match self {
            CancelEffect::NotLive => CancelModel::NotLive,
            CancelEffect::Dropped(f) => CancelModel::Dropped(f@),
            CancelEffect::Flagged => CancelModel::Flagged,
        }
    }
}

pub open spec fn cancel_models(v: Seq<CancelEffect>) -> Seq<CancelModel> {
    Seq::new(v.len(), |i: int| v[i]@)
}

/// Live runs that have not finished, each with room for another revision.
pub open spec fn all_live(runs: Seq<SlotModel>) -> bool {
    forall|i: int|
        0 <= i < runs.len() ==> (#[trigger] runs[i]).inner.state != RunState::Finished
            && runs[i].inner.revision < i64::MAX
}

proof fn wake_keeps_live(runs: Seq<SlotModel>, ids: Seq<RunId>)
    ensures
        all_live(runs) ==> all_live(wake(runs, ids).0),
        wake(runs, ids).0.len() == runs.len(),
        forall|k: int|
            0 <= k < runs.len() ==> (#[trigger] wake(runs, ids).0[k]).id == runs[k].id,
        no_two_alike(runs) ==> no_two_alike(wake(runs, ids).0),
    decreases ids.len(),
{
    if ids.len() > 0 {
        wake_keeps_live(runs, ids.drop_last());
        index_of_facts(wake(runs, ids.drop_last()).0, ids.last());
    }
}

proof fn removal_keeps_distinct(runs: Seq<SlotModel>, i: int)
    requires
        no_two_alike(runs),
        0 <= i < runs.len(),
    ensures
        no_two_alike(runs.remove(i)),
        forall|k: int| 0 <= k < runs.len() - 1 ==> (#[trigger] runs.remove(i)[k]).id != runs[i].id,
{
    let left = runs.remove(i);
    let at = |k: int|
        if k < i {
            k
        } else {
            k + 1
        };
    assert forall|k: int| 0 <= k < left.len() implies #[trigger] left[k] == runs[at(k)] by {}
    assert forall|k: int| 0 <= k < left.len() implies (#[trigger] left[k]).id != runs[i].id by {
        assert(left[k] == runs[at(k)]);
        if at(k) < i {
            assert(runs[at(k)].id != runs[i].id);
        } else {
            assert(runs[i].id != runs[at(k)].id);
        }
    }
    assert forall|j: int, k: int| 0 <= j < k < left.len() implies (#[trigger] left[j]).id != (
    #[trigger] left[k]).id by {
        assert(left[j] == runs[at(j)] && left[k] == runs[at(k)]);
    }
}

impl Supervisor {
    /// The books add up, only unfinished runs are live, and each of them is
    /// there once.
    pub open spec fn wf(self) -> bool {
        self.scheduler.wf() && all_live(self@.runs) && no_two_alike(self@.runs)
    }

    pub fn new(
        limits: Limits,
        boot_id: BootId,
        identity: String,
        capabilities: BackendCapabilities,
    ) -> (r: Supervisor)
        ensures
            r.wf(),
            r@.book == (Book {
                limits,
                running: Seq::empty(),
                queue: Seq::empty(),
                held: Seq::empty(),
            }),
            r@.runs.len() == 0,
            r.boot_id == boot_id,
            r.identity == identity,
            r.capabilities == capabilities,
    {
        Supervisor {
            scheduler: Scheduler::new(limits),
            runs: Vec::new(),
            boot_id,
            identity,
            capabilities,
        }
    }

    pub fn capabilities(&self) -> (r: &BackendCapabilities)
        ensures
            *r == self.capabilities,
    {
        &self.capabilities
    }

    pub fn identity(&self) -> (r: &str)
        ensures
            r@ == self.identity@,
    {
        self.identity.as_str()
    }

    /// Runs currently owned by this supervisor that have not finished.
    pub fn active_runs(&self) -> (r: usize)
        ensures
            r == self@.runs.len(),
    {
        self.runs.len()
    }

    /// The place of a live run.
    pub fn find(&self, id: RunId) -> (r: Option<usize>)
        ensures
            match r {
                Some(i) => index_of(self@.runs, id) == Some(i as int),
                None => index_of(self@.runs, id) is None,
            },
    {
        let mut i: usize = 0;
        while i < self.runs.len()
            invariant
                i <= self.runs.len(),
                forall|k: int| 0 <= k < i ==> (#[trigger] self@.runs[k]).id != id,
            decreases self.runs.len() - i,
        {
            assert(self@.runs[i as int] == self.runs@[i as int]@);
            if self.runs[i].id == id {
                proof {
                    index_is(self@.runs, id, i as int);
                }
                return Some(i);
            }
            i += 1;
        }
        proof {
            index_none(self@.runs, id);
        }
        None
    }

    fn wake_all(&mut self, ids: &Vec<RunId>) -> (r: Vec<(RunId, Vec<(String, String)>)>)
        requires
            old(self).wf(),
        ensures
            final(self).wf(),
            final(self)@.book == old(self)@.book,
            final(self)@.runs == wake(old(self)@.runs, ids@).0,
            started_model(r@) == wake(old(self)@.runs, ids@).1,
            final(self).boot_id == old(self).boot_id,
            final(self).identity == old(self).identity,
            final(self).capabilities == old(self).capabilities,
    {
        let ghost start = self@.runs;
        let ghost before_self = *self;
        let mut r: Vec<(RunId, Vec<(String, String)>)> = Vec::new();
        let mut n: usize = 0;
        assert(ids@.take(0) =~= Seq::<RunId>::empty());
        assert(started_model(r@) =~= Seq::<(RunId, Seq<(String, String)>)>::empty());
        while n < ids.len()
            invariant
                n <= ids.len(),
                all_live(start),
                self.scheduler == before_self.scheduler,
                self.boot_id == before_self.boot_id,
                self.identity == before_self.identity,
                self.capabilities == before_self.capabilities,
                self@.runs == wake(start, ids@.take(n as int)).0,
                started_model(r@) == wake(start, ids@.take(n as int)).1,
            decreases ids.len() - n,
        {
            assert(ids@.take(n + 1).drop_last() =~= ids@.take(n as int));
            let ghost runs_before = self@.runs;
            let ghost started_before = started_model(r@);
            if let Some(i) = self.find(ids[n]) {
                proof {
                    index_of_facts(runs_before, ids@[n as int]);
                }
                let ghost slot_before = self.runs@[i as int]@;
                let mut env: Vec<(String, String)> = Vec::new();
                std::mem::swap(&mut env, &mut self.runs[i].env);
                self.runs[i].inner.detail = None;
                assert(self.runs@[i as int]@.env =~= Seq::<(String, String)>::empty());
                assert(self.runs@[i as int]@ == woken(slot_before));
                assert(self@.runs =~= runs_before.update(i as int, woken(slot_before)));
                let ghost taken = env@;
                r.push((ids[n], env));
                assert(started_model(r@) =~= started_before.push((ids@[n as int], taken)));
            }
            n += 1;
        }
        assert(ids@.take(ids@.len() as int) =~= ids@);
        proof {
            wake_keeps_live(start, ids@);
        }
        r
    }

    /// The end of a run: records its result, gives up its slot and wakes what
    /// was admitted in its place. None where no live run has the id: a
    /// finished run is left alone.
    pub fn finish(
        &mut self,
        id: RunId,
        request: FinishRequest,
        timing: Option<Timing>,
        now: Duration,
        now_secs: u64,
    ) -> (r: Option<Finished>)
        requires
            old(self).wf(),
        ensures
            final(self).wf(),
            final(self)@ == old(self)@.finished(id, request@, now@),
            match r {
                Some(f) => index_of(old(self)@.runs, id) is Some && f@ == old(self)@.finish_effect(
                    id,
                    request@,
                    timing,
                    now@,
                    now_secs,
                ),
                None => index_of(old(self)@.runs, id) is None,
            },
            final(self).boot_id == old(self).boot_id,
            final(self).identity == old(self).identity,
            final(self).capabilities == old(self).capabilities,
    {
        let ghost m = self@;
        match self.find(id) {
            None => None,
            Some(i) => {
                proof {
                    index_of_facts(m.runs, id);
                }
                let mut slot: RunSlot = self.runs.remove(i);
                assert(slot@ == m.runs[i as int]);
                assert(self@.runs =~= m.runs.remove(i as int));
                assert(all_live(self@.runs)) by {
                    assert forall|k: int| 0 <= k < self@.runs.len() implies (
                    #[trigger] self@.runs[k]).inner.state != RunState::Finished
                        && self@.runs[k].inner.revision < i64::MAX by {
                        if k < i {
                            assert(self@.runs[k] == m.runs[k]);
                        } else {
                            assert(self@.runs[k] == m.runs[k + 1]);
                        }
                    }
                }
                let result: RunResult = RunResult {
                    outcome: request.outcome,
                    exit_code: request.exit_code,
                    signal: request.signal,
                    started_at: match timing {
                        Some(t) => Some(t.started_at),
                        None => None,
                    },
                    finished_at: now_secs,
                    duration_ms: match timing {
                        Some(t) => t.duration_ms,
                        None => 0,
                    },
                    cleanup: request.cleanup,
                    detail: request.detail,
                };
                let logs: LogState = match timing {
                    Some(t) => t.logs,
                    None => slot.logs,
                };
                let wait: u64 = slot.queue_wait_ms(now);
                let effective: Option<(EffectiveLimits, u64)> = if slot.effective_set {
                    None
                } else {
                    let e: EffectiveLimits = effective_limits(&slot.spec.resources);
                    assert(worker::effective_model(e) == worker::limits_in_force(
                        slot.spec.resources,
                        None,
                    ));
                    Some((e, wait))
                };
                let kept: RunResult = result.copy();
                slot.inner.finish(result);
                let hold: bool = request.cleanup != CleanupState::Complete;
                let ids: Vec<RunId> = self.scheduler.release(id, hold, now);
                let ghost a = admitted(m.book, id, hold, now@);
                assert(ids@ =~= a.0);
                let started: Vec<(RunId, Vec<(String, String)>)> = self.wake_all(&ids);
                Some(
                    Finished {
                        id,
                        revision: slot.inner.revision,
                        result: kept,
                        logs,
                        effective,
                        limit_event: copy_opt(&slot.limit_event),
                        started,
                        slot,
                    },
                )
            },
        }
    }

    /// A transition that the run's worker publishes. Gives the new revision;
    /// none where no live run has the id: a finished run takes no step.
    pub fn transition(
        &mut self,
        id: RunId,
        state: RunState,
        cleanup: CleanupState,
        detail: Option<String>,
    ) -> (r: Option<i64>)
        requires
            old(self).wf(),
            state != RunState::Finished,
            index_of(old(self)@.runs, id) is Some ==> old(self)@.runs[index_of(
                old(self)@.runs,
                id,
            )->0].inner.revision + 1 < i64::MAX,
        ensures
            final(self).wf(),
            match index_of(old(self)@.runs, id) {
                Some(i) => {
                    let slot = old(self)@.runs[i];
                    &&& r is Some
                    &&& r->0 as int == slot.inner.revision + 1
                    &&& final(self)@ == (SupervisorModel {
                        runs: old(self)@.runs.update(
                            i,
                            SlotModel {
                                inner: slot.inner.advanced(state, cleanup, text::text_of(detail)),
                                ..slot
                            },
                        ),
                        ..old(self)@
                    })
                },
                None => r is None && final(self)@ == old(self)@,
            },
            final(self).boot_id == old(self).boot_id,
            final(self).identity == old(self).identity,
            final(self).capabilities == old(self).capabilities,
    {
        let ghost m = self@;
        match self.find(id) {
            None => None,
            Some(i) => {
                proof {
                    index_of_facts(m.runs, id);
                }
                assert(m.runs[i as int] == self.runs@[i as int]@);
                self.runs[i].inner.transition(state, cleanup, detail);
                let ghost slot = m.runs[i as int];
                assert(self@.runs =~= m.runs.update(
                    i as int,
                    SlotModel {
                        inner: slot.inner.advanced(state, cleanup, text::text_of(detail)),
                        ..slot
                    },
                ));
                Some(self.runs[i].inner.revision)
            },
        }
    }

    /// The command of a live run was started. Gives how long the request had
    /// waited; none where no live run has the id.
    pub fn spawned(
        &mut self,
        id: RunId,
        pgid: u32,
        leader: Option<ProcessIdentity>,
        now: Duration,
    ) -> (r: Option<u64>)
        requires
            old(self).wf(),
        ensures
            final(self).wf(),
            match index_of(old(self)@.runs, id) {
                Some(i) => final(self)@ == old(self)@.with_run(i, old(self)@.runs[i].spawned(pgid, leader, now@)) && r == Some(
                    old(self)@.runs[i].wait_ms(now@),
                ),
                None => final(self)@ == old(self)@ && r is None,
            },
            final(self).boot_id == old(self).boot_id,
            final(self).identity == old(self).identity,
            final(self).capabilities == old(self).capabilities,
    {
        let ghost m = self@;
        match self.find(id) {
            None => None,
            Some(i) => {
                proof {
                    index_of_facts(m.runs, id);
                }
                assert(m.runs[i as int] == self.runs@[i as int]@);
                let wait: u64 = self.runs[i].spawned(pgid, leader, now);
                let ghost next = m.runs[i as int].spawned(pgid, leader, now@);
                assert(self@.runs =~= m.with_run(i as int, next).runs);
                Some(wait)
            },
        }
    }

    /// A live run's group was sampled. Gives the members seen for the first
    /// time.
    pub fn sampled(&mut self, id: RunId, seen: &Vec<ProcessIdentity>, usage: GroupUsage) -> (r: Vec<
        ProcessIdentity,
    >)
        requires
            old(self).wf(),
        ensures
            final(self).wf(),
            match index_of(old(self)@.runs, id) {
                Some(i) => final(self)@ == old(self)@.with_run(i, old(self)@.runs[i].sampled(seen@, usage)) && r@
                    == run::fresh_members(old(self)@.runs[i].known, seen@),
                None => final(self)@ == old(self)@ && r@.len() == 0,
            },
            final(self).boot_id == old(self).boot_id,
            final(self).identity == old(self).identity,
            final(self).capabilities == old(self).capabilities,
    {
        let ghost m = self@;
        match self.find(id) {
            None => Vec::new(),
            Some(i) => {
                proof {
                    index_of_facts(m.runs, id);
                }
                assert(m.runs[i as int] == self.runs@[i as int]@);
                let r: Vec<ProcessIdentity> = self.runs[i].sampled(seen, usage);
                let ghost next = m.runs[i as int].sampled(seen@, usage);
                assert(self@.runs =~= m.with_run(i as int, next).runs);
                r
            },
        }
    }

    /// A live run hit a resource limit; `stops` where it is stopped for it.
    pub fn limited(&mut self, id: RunId, event: &str, stops: bool)
        requires
            old(self).wf(),
        ensures
            final(self).wf(),
            match index_of(old(self)@.runs, id) {
                Some(i) => final(self)@ == old(self)@.with_run(i, old(self)@.runs[i].limited(event@, stops)),
                None => final(self)@ == old(self)@,
            },
            final(self).boot_id == old(self).boot_id,
            final(self).identity == old(self).identity,
            final(self).capabilities == old(self).capabilities,
    {
        let ghost m = self@;
        if let Some(i) = self.find(id) {
            proof {
                index_of_facts(m.runs, id);
            }
            assert(m.runs[i as int] == self.runs@[i as int]@);
            self.runs[i].limited(event, stops);
            let ghost next = m.runs[i as int].limited(event@, stops);
            assert(self@.runs =~= m.with_run(i as int, next).runs);
        }
    }

    /// What was stored of a live run's output so far.
    pub fn logged(&mut self, id: RunId, logs: LogState)
        requires
            old(self).wf(),
        ensures
            final(self).wf(),
            match index_of(old(self)@.runs, id) {
                Some(i) => final(self)@ == old(self)@.with_run(i, SlotModel { logs, ..old(self)@.runs[i] }),
                None => final(self)@ == old(self)@,
            },
            final(self).boot_id == old(self).boot_id,
            final(self).identity == old(self).identity,
            final(self).capabilities == old(self).capabilities,
    {
        let ghost m = self@;
        if let Some(i) = self.find(id) {
            proof {
                index_of_facts(m.runs, id);
            }
            assert(m.runs[i as int] == self.runs@[i as int]@);
            self.runs[i].logs = logs;
            let ghost next = SlotModel { logs, ..m.runs[i as int] };
            assert(self@.runs =~= m.with_run(i as int, next).runs);
        }
    }

    /// Whether a run was asked to stop. One that is no longer live was not.
    pub fn is_cancelled(&self, id: RunId) -> (r: bool)
        ensures
            r == match index_of(self@.runs, id) {
                Some(i) => self@.runs[i].cancel,
                None => false,
            },
    {
        match self.find(id) {
            Some(i) => {
                proof {
                    index_of_facts(self@.runs, id);
                }
                assert(self@.runs[i as int] == self.runs@[i as int]@);
                self.runs[i].cancel
            },
            None => false,
        }
    }

    /// Submits a request that was just recorded: start now, wait for a slot,
    /// or refuse. Only the supervisor decides admission; callers never
    /// reserve capacity.
    pub fn admit_run(
        &mut self,
        id: RunId,
        spec: RunSpec,
        env: Vec<(String, String)>,
        now: Duration,
        now_secs: u64,
    ) -> (r: Begun)
        requires
            old(self).wf(),
            index_of(old(self)@.runs, id) is None,
            scheduler::first_of(old(self)@.book.running, id) is None,
            old(self)@.book.running.len() + old(self)@.book.queue.len() < usize::MAX,
            old(self)@.admission(spec) is Queued ==> old(self)@.book.deadline_of(
                spec.resources.queue_timeout,
                now@,
            ) <= time::MAX_NANOS,
        ensures
            final(self).wf(),
            begins(r, old(self)@, final(self)@, id, spec, env@, now@, now_secs),
            final(self).boot_id == old(self).boot_id,
            final(self).identity == old(self).identity,
            final(self).capabilities == old(self).capabilities,
    {
        let ghost m = self@;
        proof {
            index_of_facts(m.runs, id);
        }
        let project: String = project_key(&spec);
        let memory: u64 = match spec.resources.memory_bytes {
            Some(b) => b,
            None => self.scheduler.limits().default_run_memory_bytes,
        };
        let timeout: Option<Duration> = spec.resources.queue_timeout;
        let decision: Admission = self.scheduler.submit(id, project.as_str(), memory, timeout, now);
        let ghost book = self@.book;
        let mut slot: RunSlot = RunSlot::new(id, spec, env);
        match decision {
            Admission::Start { .. } => {
                let mut env: Vec<(String, String)> = Vec::new();
                std::mem::swap(&mut env, &mut slot.env);
                assert(slot@.env =~= Seq::<(String, String)>::empty());
                self.runs.push(slot);
                assert(self@.runs =~= m.runs.push(SlotModel::fresh(id, spec, Seq::empty())));
                Begun::Worker(env)
            },
            Admission::Queued { position } => {
                proof {
                    assert(book.queue.last().id == id);
                }
                let reason: String = self.reason_of(id, now);
                let detail: String = "queued at position ".to_owned().concat(
                    dec_of(position as u64).as_str(),
                ).concat(": ").concat(reason.as_str());
                slot.queued_at = Some(now);
                slot.inner.detail = Some(detail.clone());
                let ghost queued = slot@;
                self.runs.push(slot);
                assert(self@.runs =~= m.runs.push(queued));
                Begun::Queued(detail)
            },
            Admission::Rejected(reason) => {
                self.runs.push(slot);
                assert(self@.runs =~= m.runs.push(SlotModel::fresh(id, spec, env@)));
                let ghost with = self@;
                proof {
                    index_of_facts(m.runs, id);
                    index_is(with.runs, id, m.runs.len() as int);
                    assert(with.runs.remove(m.runs.len() as int) =~= m.runs);
                }
                let f: Option<Finished> = self.finish(
                    id,
                    FinishRequest::unspawned(
                        RunOutcome::SpawnFailed,
                        run::reject_message(reason),
                    ),
                    None,
                    now,
                    now_secs,
                );
                match f {
                    Some(x) => Begun::Refused(reason, x),
                    None => {
                        assert(false);
                        Begun::Queued(String::new())
                    },
                }
            },
        }
    }

    /// Start a run that passed the checks and was handed to the store, or
    /// return the existing one for a repeated request. The second part is
    /// what a new run got. A repeated or conflicting request starts and
    /// reserves nothing.
    pub fn start(
        &mut self,
        spec: RunSpec,
        env: Vec<(String, String)>,
        inserted: RunInsert,
        now: Duration,
        now_secs: u64,
    ) -> (r: (Result<StartResult, StartError>, Option<Begun>))
        requires
            old(self).wf(),
            inserted matches RunInsert::Created(id) ==> {
                &&& index_of(old(self)@.runs, id) is None
                &&& scheduler::first_of(old(self)@.book.running, id) is None
                &&& old(self)@.book.running.len() + old(self)@.book.queue.len() < usize::MAX
                &&& old(self)@.admission(spec) is Queued ==> old(self)@.book.deadline_of(
                    spec.resources.queue_timeout,
                    now@,
                ) <= time::MAX_NANOS
            },
        ensures
            final(self).wf(),
            match inserted {
                RunInsert::Existing(id) => {
                    &&& r.0 == Ok::<StartResult, StartError>(StartResult { id, created: false })
                    &&& r.1 is None
                    &&& final(self)@ == old(self)@
                },
                RunInsert::Conflict(id) => {
                    &&& r.0 is Err
                    &&& r.0->Err_0@ == (run::StartProblem::Conflict {
                        request_id: spec.request_id@,
                        id,
                    })
                    &&& r.1 is None
                    &&& final(self)@ == old(self)@
                },
                RunInsert::Created(id) => {
                    &&& r.1 is Some
                    &&& begins(
                        r.1->0,
                        old(self)@,
                        final(self)@,
                        id,
                        spec,
                        env@,
                        now@,
                        now_secs,
                    )
                    &&& match old(self)@.admission(spec) {
                        Admission::Rejected(reason) => r.0 is Err && r.0->Err_0@
                            == run::StartProblem::Rejected(reason),
                        _ => r.0 == Ok::<StartResult, StartError>(
                            StartResult { id, created: true },
                        ),
                    }
                },
            },
            final(self).boot_id == old(self).boot_id,
            final(self).identity == old(self).identity,
            final(self).capabilities == old(self).capabilities,
    {
        match inserted {
            RunInsert::Existing(id) => (Ok(StartResult { id, created: false }), None),
            RunInsert::Conflict(id) => (
                Err(StartError::Conflict { request_id: spec.request_id, id }),
                None,
            ),
            RunInsert::Created(id) => {
                let b: Begun = self.admit_run(id, spec, env, now, now_secs);
                match b {
                    Begun::Refused(reason, f) => (
                        Err(StartError::Rejected(reason)),
                        Some(Begun::Refused(reason, f)),
                    ),
                    other => (Ok(StartResult { id, created: true }), Some(other)),
                }
            },
        }
    }

    fn reason_of(&self, id: RunId, now: Duration) -> (r: String)
        requires
            self.wf(),
            in_queue(self@.book.queue, id),
        ensures
            r@ == self@.book.wait_reason(
                self@.book.queue[first_waiting(self@.book.queue, id)].project,
            ),
    {
        let ghost queue = self@.book.queue;
        match self.scheduler.position(id) {
            Some(p) => {
                let mut entries: Vec<QueueEntry> = self.scheduler.queue_entries(now);
                proof {
                    let k = first_waiting(queue, id);
                    assert(queue[p - 1].id == id);
                    if k < p - 1 {
                        assert(queue[k].id != id);
                    }
                    if p - 1 < k {
                        assert(queue[p - 1].id != id);
                    }
                    assert(k == p - 1);
                    assert(self@.book.reports(p - 1, now@, entries@[p - 1]));
                }
                let e: QueueEntry = entries.remove(p - 1);
                e.reason
            },
            None => {
                proof {
                    let k = choose|k: int| 0 <= k < queue.len() && (#[trigger] queue[k]).id == id;
                    assert(queue[k].id != id);
                }
                String::new()
            },
        }
    }

    /// Ask a run to stop. Idempotent: repeating it only sets the flag again,
    /// and a run that already finished is left alone. A queued request has no
    /// process yet: it is dropped from the queue and finished directly.
    pub fn cancel(&mut self, id: RunId, now: Duration, now_secs: u64) -> (r: CancelEffect)
        requires
            old(self).wf(),
        ensures
            final(self).wf(),
            final(self)@ == old(self)@.cancelled(id, now@),
            r@ == old(self)@.cancel_effect(id, now@, now_secs),
            final(self).boot_id == old(self).boot_id,
            final(self).identity == old(self).identity,
            final(self).capabilities == old(self).capabilities,
    {
        let ghost m = self@;
        match self.find(id) {
            None => CancelEffect::NotLive,
            Some(i) => {
                proof {
                    index_of_facts(m.runs, id);
                }
                assert(m.runs[i as int] == self.runs@[i as int]@);
                if self.runs[i].inner.state == RunState::Queued {
                    if self.scheduler.cancel_queued(id) {
                        assert(self@.runs == m.runs);
                        let f: Option<Finished> = self.finish(
                            id,
                            FinishRequest::unspawned(
                                RunOutcome::Cancelled,
                                "cancelled while queued".to_owned(),
                            ),
                            None,
                            now,
                            now_secs,
                        );
                        return match f {
                            Some(x) => CancelEffect::Dropped(x),
                            None => {
                                assert(false);
                                CancelEffect::NotLive
                            },
                        };
                    }
                }
                self.runs[i].cancel = true;
                assert(self@.runs =~= m.runs.update(
                    i as int,
                    SlotModel { cancel: true, ..m.runs[i as int] },
                ));
                CancelEffect::Flagged
            },
        }
    }

    /// Ask every live run to stop. Used by a graceful supervisor shutdown so
    /// active runs end as cancelled with a real cleanup report instead of
    /// being discovered later as lost. Returns what each request did.
    pub fn cancel_all(&mut self, now: Duration, now_secs: u64) -> (r: Vec<CancelEffect>)
        requires
            old(self).wf(),
        ensures
            final(self).wf(),
            final(self)@ == old(self)@.cancelled_all(old(self)@.ids(), now@),
            cancel_models(r@) == old(self)@.cancel_effects(old(self)@.ids(), now@, now_secs),
            final(self).boot_id == old(self).boot_id,
            final(self).identity == old(self).identity,
            final(self).capabilities == old(self).capabilities,
    {
        let ghost m = self@;
        let mut ids: Vec<RunId> = Vec::new();
        let mut i: usize = 0;
        while i < self.runs.len()
            invariant
                i <= self.runs.len(),
                self@ == m,
                *self == *old(self),
                ids@.len() == i,
                forall|k: int| 0 <= k < i ==> ids@[k] == (#[trigger] m.runs[k]).id,
            decreases self.runs.len() - i,
        {
            assert(m.runs[i as int] == self.runs@[i as int]@);
            ids.push(self.runs[i].id);
            i += 1;
        }
        assert(ids@ =~= m.ids());
        let mut out: Vec<CancelEffect> = Vec::new();
        let mut n: usize = 0;
        assert(ids@.take(0) =~= Seq::<RunId>::empty());
        assert(cancel_models(out@) =~= Seq::<CancelModel>::empty());
        while n < ids.len()
            invariant
                n <= ids.len(),
                self.wf(),
                self.boot_id == old(self).boot_id,
                self.identity == old(self).identity,
                self.capabilities == old(self).capabilities,
                cancel_models(out@) == m.cancel_effects(ids@.take(n as int), now@, now_secs),
                self@ == m.cancelled_all(ids@.take(n as int), now@),
            decreases ids.len() - n,
        {
            assert(ids@.take(n + 1).drop_last() =~= ids@.take(n as int));
            let ghost before = cancel_models(out@);
            let e: CancelEffect = self.cancel(ids[n], now, now_secs);
            let ghost em = e@;
            out.push(e);
            assert(cancel_models(out@) =~= before.push(em));
            n += 1;
        }
        assert(ids@.take(ids@.len() as int) =~= ids@);
        out
    }

    /// Finish queued requests whose queue deadline passed. Separate from the
    /// execution timeout, which only starts at spawn.
    pub fn expire(&mut self, now: Duration, now_secs: u64) -> (r: Vec<Finished>)
        requires
            old(self).wf(),
        ensures
            final(self).wf(),
            ({
                let m = SupervisorModel {
                    book: Book {
                        queue: scheduler::alive(old(self)@.book.queue, now@),
                        ..old(self)@.book
                    },
                    ..old(self)@
                };
                let ids = scheduler::expired(old(self)@.book.queue, now@);
                &&& final(self)@ == m.timed_out(ids, now@, now_secs).0
                &&& finished_models(r@) == m.timed_out(ids, now@, now_secs).1
            }),
            final(self).boot_id == old(self).boot_id,
            final(self).identity == old(self).identity,
            final(self).capabilities == old(self).capabilities,
    {
        let ids: Vec<RunId> = self.scheduler.expire(now);
        let ghost m = self@;
        let mut out: Vec<Finished> = Vec::new();
        let mut n: usize = 0;
        assert(ids@.take(0) =~= Seq::<RunId>::empty());
        assert(finished_models(out@) =~= Seq::<FinishedModel>::empty());
        while n < ids.len()
            invariant
                n <= ids.len(),
                self.wf(),
                self.boot_id == old(self).boot_id,
                self.identity == old(self).identity,
                self.capabilities == old(self).capabilities,
                self@ == m.timed_out(ids@.take(n as int), now@, now_secs).0,
                finished_models(out@) == m.timed_out(ids@.take(n as int), now@, now_secs).1,
            decreases ids.len() - n,
        {
            assert(ids@.take(n + 1).drop_last() =~= ids@.take(n as int));
            let ghost before = finished_models(out@);
            let f: Option<Finished> = self.finish(
                ids[n],
                FinishRequest::unspawned(
                    RunOutcome::TimedOut,
                    "queue timeout: waited for a slot too long".to_owned(),
                ),
                None,
                now,
                now_secs,
            );
            if let Some(x) = f {
                let ghost xm = x@;
                out.push(x);
                assert(finished_models(out@) =~= before.push(xm));
            }
            n += 1;
        }
        assert(ids@.take(ids@.len() as int) =~= ids@);
        out
    }

    /// Replace admission limits at runtime. Active runs keep running. The
    /// kernel aggregate cap follows the budget: the limits to write are
    /// returned, so a lowered budget is enforced by the kernel too.
    pub fn set_limits(&mut self, limits: Limits) -> (r: CgroupLimits)
        requires
            old(self).wf(),
        ensures
            final(self).wf(),
            final(self)@ == (SupervisorModel {
                book: Book { limits, ..old(self)@.book },
                ..old(self)@
            }),
            r.memory_max_bytes == Some(limits.memory_budget_bytes),
            r.memory_swap_max_bytes == Some(0u64),
            r.cpu_max == run::cpu_max_of(limits.cpu_budget_millicores),
            r.pids_max == run::widened(limits.pids_budget),
            final(self).boot_id == old(self).boot_id,
            final(self).identity == old(self).identity,
            final(self).capabilities == old(self).capabilities,
    {
        self.scheduler.set_limits(limits);
        aggregate_limits(&limits)
    }

    /// Read-only view of admission capacity. Reserved bytes are a budget, not
    /// a measurement of RAM in use.
    pub fn capacity(&self, caps: &AggregateCaps, now: Duration) -> (r: Capacity)
        requires
            self.wf(),
        ensures
            r.limits.max_parallel == self@.book.limits.max_parallel,
            r.limits.max_parallel_per_project == self@.book.limits.max_parallel_per_project,
            r.limits.max_queued == self@.book.limits.max_queued,
            r.limits.queue_timeout_secs as nat == self@.book.limits.queue_timeout@ / 1_000_000_000,
            r.limits.memory_budget_bytes == self@.book.limits.memory_budget_bytes,
            r.limits.default_run_memory_bytes == self@.book.limits.default_run_memory_bytes,
            r.limits.starvation_after_secs as nat == self@.book.limits.starvation_after@
                / 1_000_000_000,
            r.limits.cpu_budget_millicores == self@.book.limits.cpu_budget_millicores,
            r.limits.pids_budget == self@.book.limits.pids_budget,
            r.running == self@.book.running.len(),
            r.queued == self@.book.queue.len(),
            r.slots_free == self@.book.slots_free(),
            r.over_parallel_limit == (self@.book.running.len() > self@.book.limits.max_parallel),
            r.reserved_memory_bytes == self@.book.reserved(),
            r.aggregate_memory_max_bytes == caps.memory_max,
            r.aggregate_cpu_millicores == caps.cpu_millicores,
            r.aggregate_pids_max == caps.pids_max,
            scheduler::is_usage_of(r.projects@, self@.book.running),
            r.queue@.len() == self@.book.queue.len(),
            forall|i: int|
                0 <= i < r.queue@.len() ==> self@.book.reports(i, now@, #[trigger] r.queue@[i]),
            r.reservation_note@ == reservation_text(self@.book, *caps),
            r.capabilities == self.capabilities,
    {
        let limits: &Limits = self.scheduler.limits();
        let running: usize = self.scheduler.running_count();
        Capacity {
            limits: limits.summary(),
            running,
            queued: self.scheduler.queued_count(),
            slots_free: self.scheduler.slots_free(),
            reserved_memory_bytes: self.scheduler.reserved(),
            projects: self.scheduler.projects(),
            queue: self.scheduler.queue_entries(now),
            over_parallel_limit: running > limits.max_parallel,
            aggregate_memory_max_bytes: caps.memory_max,
            aggregate_cpu_millicores: caps.cpu_millicores,
            aggregate_pids_max: caps.pids_max,
            reservation_note: self.reservation_note(caps),
            capabilities: self.capabilities.copy(),
        }
    }

    fn reservation_note(&self, caps: &AggregateCaps) -> (r: String)
        ensures
            r@ == reservation_text(self@.book, *caps),
    {
        let head: String = "reserved_memory_bytes is a budget held by ".to_owned().concat(
            dec_of(self.scheduler.running_count() as u64).as_str(),
        ).concat(" running run(s) plus ").concat(
            dec_of(self.scheduler.held_reservations() as u64).as_str(),
        ).concat(" held for incomplete cleanup; it is not measured RAM");
        match caps.memory_max {
            Some(cap) => {
                let mut r: String = head.concat(
                    ". The kernel also caps all runs together at ",
                ).concat(dec_of(cap).as_str()).concat(" bytes (parent cgroup memory.max)");
                if let Some(m) = caps.cpu_millicores {
                    r = r.concat(", ").concat(dec_of(m as u64).as_str()).concat(
                        " millicores of CPU",
                    );
                }
                if let Some(p) = caps.pids_max {
                    r = r.concat(" and ").concat(dec_of(p as u64).as_str()).concat(" processes");
                }
                assert(r@ =~= reservation_text(self@.book, *caps));
                r
            },
            None => head.concat(
                ", and no kernel aggregate cap is in place on this backend",
            ),
        }
    }

    /// The view of a live run: none where no live run has the id. `row` is
    /// what the store says of it.
    pub fn get(
        &self,
        id: RunId,
        now: Duration,
        row: &Option<RunRecord>,
        events: Vec<EventView>,
    ) -> (r: Option<RunView>)
        requires
            self.wf(),
        ensures
            match index_of(self@.runs, id) {
                None => r is None,
                Some(i) => {
                    let slot = self.runs@[i];
                    &&& r matches Some(v)
                    &&& slot.shown_by(v, *row, self.capabilities)
                    &&& v.events == events
                    &&& exists|position: Option<usize>|
                        self.is_position(id, position) && #[trigger] run::shows_live(
                            v,
                            slot@,
                            now@,
                            position,
                        )
                },
            },
    {
        match self.find(id) {
            None => None,
            Some(i) => {
                proof {
                    index_of_facts(self@.runs, id);
                }
                assert(self@.runs[i as int] == self.runs@[i as int]@);
                let position: Option<usize> = self.scheduler.position(id);
                let v: RunView = self.runs[i].show(now, position, row, &self.capabilities, events);
                assert(self.is_position(id, position));
                assert(run::shows_live(v, self.runs@[i as int]@, now@, position));
                Some(v)
            },
        }
    }

    /// The 1-based place of a run's first queue entry, if it waits.
    pub open spec fn is_position(self, id: RunId, position: Option<usize>) -> bool {
        let queue = self@.book.queue;
        match position {
            Some(p) => {
                &&& 1 <= p <= queue.len()
                &&& queue[p - 1].id == id
                &&& forall|k: int| 0 <= k < p - 1 ==> (#[trigger] queue[k]).id != id
            },
            None => forall|k: int| 0 <= k < queue.len() ==> (#[trigger] queue[k]).id != id,
        }
    }

    /// What a view says of a stored run: the live-only fields are those of a
    /// run that is live here.
    pub open spec fn shows(self, v: RunView, record: RunRecord, now: nat) -> bool {
        &&& v.shows_record(record, self.capabilities)
        &&& match index_of(self@.runs, record.id) {
            Some(i) => exists|position: Option<usize>|
                self.is_position(record.id, position) && #[trigger] run::shows_live(
                    v,
                    self@.runs[i],
                    now,
                    position,
                ),
            None => v.shows_at_rest(record),
        }
    }

    /// The view of one stored run.
    pub fn view_stored(&self, record: &RunRecord, now: Duration) -> (v: RunView)
        requires
            self.wf(),
        ensures
            self.shows(v, *record, now@),
    {
        let v: RunView = RunView::from_record(record, &self.capabilities);
        match self.find(record.id) {
            None => v,
            Some(i) => {
                proof {
                    index_of_facts(self@.runs, record.id);
                }
                assert(self@.runs[i as int] == self.runs@[i as int]@);
                let position: Option<usize> = self.scheduler.position(record.id);
                let merged: RunView = self.runs[i].merge_into(v, now, position);
                assert(self.is_position(record.id, position));
                assert(run::shows_live(merged, self@.runs[i as int], now@, position));
                merged
            },
        }
    }

    /// Stored runs as views, in the order of the records.
    pub fn list(&self, records: &Vec<RunRecord>, now: Duration) -> (r: Vec<RunView>)
        requires
            self.wf(),
        ensures
            r@.len() == records@.len(),
            forall|k: int| 0 <= k < r@.len() ==> self.shows(#[trigger] r@[k], records@[k], now@),
    {
        let mut r: Vec<RunView> = Vec::new();
        let mut n: usize = 0;
        while n < records.len()
            invariant
                n <= records.len(),
                self.wf(),
                r@.len() == n,
                forall|k: int| 0 <= k < n ==> self.shows(#[trigger] r@[k], records@[k], now@),
            decreases records.len() - n,
        {
            let v: RunView = self.view_stored(&records[n], now);
            r.push(v);
            n += 1;
        }
        r
    }
}

/// What a capacity report says of its reservations.
pub open spec fn reservation_text(book: Book, caps: AggregateCaps) -> Seq<char> {
    let head = "reserved_memory_bytes is a budget held by "@ + text::dec(book.running.len())
        + " running run(s) plus "@ + text::dec(book.held.len())
        + " held for incomplete cleanup; it is not measured RAM"@;
    match caps.memory_max {
        Some(cap) => head + ". The kernel also caps all runs together at "@ + text::dec(cap as nat)
            + " bytes (parent cgroup memory.max)"@ + (match caps.cpu_millicores {
            Some(m) => ", "@ + text::dec(m as nat) + " millicores of CPU"@,
            None => Seq::empty(),
        }) + (match caps.pids_max {
            Some(p) => " and "@ + text::dec(p as nat) + " processes"@,
            None => Seq::empty(),
        }),
        None => head + ", and no kernel aggregate cap is in place on this backend"@,
    }
}

// ---------------------------------------------------------------------------
// Laws
// ---------------------------------------------------------------------------

/// The end of a live run is recorded as it was reported: outcome, code,
/// signal, cleanup and detail are those of the finish, times and output those
/// that were measured, and the revision is one higher. The run leaves the
/// registry.
pub proof fn the_end_is_recorded_as_reported(
    m: SupervisorModel,
    id: RunId,
    f: FinishModel,
    timing: Option<Timing>,
    now: nat,
    now_secs: u64,
    i: int,
)
    requires
        no_two_alike(m.runs),
        0 <= i < m.runs.len(),
        m.runs[i].id == id,
        m.runs[i].inner.state != RunState::Finished,
    ensures
        ({
            let e = m.finish_effect(id, f, timing, now, now_secs);
            let after = m.finished(id, f, now);
            &&& e.id == id
            &&& e.revision == m.runs[i].inner.revision + 1
            &&& e.result.outcome == f.outcome
            &&& e.result.exit_code == f.exit_code
            &&& e.result.signal == f.signal
            &&& e.result.cleanup == f.cleanup
            &&& e.result.detail == f.detail
            &&& e.result.finished_at == now_secs
            &&& timing is Some ==> e.result.started_at == Some(timing->0.started_at)
                && e.result.duration_ms == timing->0.duration_ms && e.logs == timing->0.logs
            &&& timing is None ==> e.result.started_at is None && e.result.duration_ms == 0
                && e.logs == m.runs[i].logs
            &&& e.limit_event == m.runs[i].limit_event
            &&& e.effective is None <==> m.runs[i].effective_set
            &&& e.slot.inner.state == RunState::Finished
            &&& e.slot.inner.result == Some(e.result)
            &&& e.slot.id == id
            &&& after.runs.len() == m.runs.len() - 1
            &&& forall|k: int| 0 <= k < after.runs.len() ==> (#[trigger] after.runs[k]).id != id
        }),
{
    index_of_facts(m.runs, id);
    let at = index_of(m.runs, id)->0;
    assert(at == i) by {
        if at < i {
            assert(m.runs[at].id != m.runs[i].id);
        } else if i < at {
            assert(m.runs[i].id != m.runs[at].id);
        }
    }
    let left = m.runs.remove(i);
    let a = admitted(m.book, id, f.cleanup != CleanupState::Complete, now);
    waking_keeps_the_runs(left, a.0);
    let after = m.finished(id, f, now);
    assert forall|k: int| 0 <= k < after.runs.len() implies (#[trigger] after.runs[k]).id
        != id by {
        assert(after.runs[k].id == left[k].id);
        if k < i {
            assert(left[k] == m.runs[k]);
            assert(m.runs[k].id != m.runs[i].id);
        } else {
            assert(left[k] == m.runs[k + 1]);
            assert(m.runs[i].id != m.runs[k + 1].id);
        }
    }
}

/// Waking runs keeps every one of them, with its id, its spec and its state.
proof fn waking_keeps_the_runs(runs: Seq<SlotModel>, ids: Seq<RunId>)
    ensures
        wake(runs, ids).0.len() == runs.len(),
        forall|k: int|
            0 <= k < runs.len() ==> {
                let after = #[trigger] wake(runs, ids).0[k];
                &&& after.id == runs[k].id
                &&& after.spec == runs[k].spec
                &&& after.cancel == runs[k].cancel
                &&& after.known == runs[k].known
                &&& after.inner.state == runs[k].inner.state
                &&& after.inner.revision == runs[k].inner.revision
                &&& (after == runs[k] || after == woken(runs[k]))
            },
    decreases ids.len(),
{
    if ids.len() > 0 {
        waking_keeps_the_runs(runs, ids.drop_last());
        let before = wake(runs, ids.drop_last()).0;
        index_of_facts(before, ids.last());
    }
}

/// A cleanup that was not complete keeps the reservation of the run, a
/// complete one gives it back; the slot itself is free either way.
pub proof fn only_a_complete_cleanup_gives_memory_back(
    m: SupervisorModel,
    id: RunId,
    f: FinishModel,
    now: nat,
    k: int,
)
    requires
        index_of(m.runs, id) is Some,
        0 <= k < m.book.running.len(),
        m.book.running[k].id == id,
        forall|j: int|
            0 <= j < m.book.running.len() && j != k ==> (#[trigger] m.book.running[j]).id != id,
    ensures
        ({
            let after = m.finished(id, f, now).book;
            &&& f.cleanup == CleanupState::Complete ==> after.held == m.book.held
            &&& f.cleanup != CleanupState::Complete ==> after.held == m.book.held.push(
                m.book.running[k],
            )
            &&& after.running.len() >= m.book.running.len() - 1
            &&& after.running.take(m.book.running.len() - 1) == m.book.running.remove(k)
        }),
{
    let hold = f.cleanup != CleanupState::Complete;
    scheduler::release_gives_back_what_is_not_held(m.book, id, hold, k);
    scheduler::release_frees_only_that_run(m.book.running, id);
    let left = m.book.released(id, hold);
    scheduler::drained_facts(left, now);
    assert(scheduler::first_of(m.book.running, id) is Some) by {
        if scheduler::first_of(m.book.running, id) is None {
            assert(scheduler::without(m.book.running, id)[k].id != id);
        }
    }
}

/// A run that held no slot leaves the book as it is, and nobody is started in
/// its place.
pub proof fn a_run_without_a_slot_frees_none(
    m: SupervisorModel,
    id: RunId,
    f: FinishModel,
    timing: Option<Timing>,
    now: nat,
    now_secs: u64,
)
    requires
        index_of(m.runs, id) is Some,
        forall|j: int| 0 <= j < m.book.running.len() ==> (#[trigger] m.book.running[j]).id != id,
    ensures
        m.finished(id, f, now).book == m.book,
        m.finish_effect(id, f, timing, now, now_secs).started.len() == 0,
{
    scheduler::release_frees_only_that_run(m.book.running, id);
    if scheduler::first_of(m.book.running, id) is Some {
        nobody_is_first(m.book.running, id);
    }
}

proof fn nobody_is_first(slots: Seq<scheduler::Slot>, id: RunId)
    requires
        forall|j: int| 0 <= j < slots.len() ==> (#[trigger] slots[j]).id != id,
    ensures
        scheduler::first_of(slots, id) is None,
    decreases slots.len(),
{
    if slots.len() > 0 {
        let rest = slots.drop_last();
        assert forall|j: int| 0 <= j < rest.len() implies (#[trigger] rest[j]).id != id by {
            assert(slots[j].id != id);
        }
        nobody_is_first(rest, id);
        assert(slots.last() == slots[slots.len() - 1]);
    }
}

/// Every admitted run that is live is started with its environment, once; its
/// queue note is gone and the environment is kept no longer.
pub proof fn every_admitted_run_is_started(
    runs: Seq<SlotModel>,
    ids: Seq<RunId>,
    i: int,
    k: int,
)
    requires
        no_two_alike(runs),
        ids.no_duplicates(),
        0 <= i < runs.len(),
        0 <= k < ids.len(),
        ids[k] == runs[i].id,
    ensures
        wake(runs, ids).1.contains((runs[i].id, runs[i].env)),
        wake(runs, ids).0[i].inner.detail is None,
        wake(runs, ids).0[i].env.len() == 0,
    decreases ids.len(),
{
    let front = ids.drop_last();
    let before = wake(runs, front);
    let after = wake(runs, ids);
    waking_keeps_the_runs(runs, front);
    index_of_facts(before.0, ids.last());
    if k < front.len() {
        assert(front[k] == ids[k]);
        assert(front.no_duplicates()) by {
            assert forall|a: int, b: int| 0 <= a < front.len() && 0 <= b < front.len() && a
                != b implies front[a] != front[b] by {
                assert(ids[a] != ids[b]);
            }
        }
        every_admitted_run_is_started(runs, front, i, k);
        let x = (runs[i].id, runs[i].env);
        let n = choose|n: int| 0 <= n < before.1.len() && before.1[n] == x;
        assert(after.1[n] == x);
        assert(ids[k] != ids[ids.len() - 1]);
        if let Some(j) = index_of(before.0, ids.last()) {
            assert(before.0[j].id == ids.last());
            assert(before.0[i].id == runs[i].id);
        }
    } else {
        assert(ids.last() == runs[i].id);
        not_woken_before(runs, front, i);
        assert(before.0[i] == runs[i]);
        let j = index_of(before.0, ids.last())->0;
        assert(index_of(before.0, ids.last()) is Some) by {
            assert(before.0[i].id == ids.last());
        }
        assert(j == i) by {
            assert(before.0[j].id == runs[j].id);
            if j < i {
                assert(runs[j].id != runs[i].id);
            } else if i < j {
                assert(before.0[i].id != ids.last());
            }
        }
        assert(after.1[before.1.len() as int] == (runs[i].id, runs[i].env));
    }
}

/// A run whose id is not among those admitted stays as it is.
proof fn not_woken_before(runs: Seq<SlotModel>, ids: Seq<RunId>, i: int)
    requires
        0 <= i < runs.len(),
        forall|k: int| 0 <= k < ids.len() ==> #[trigger] ids[k] != runs[i].id,
    ensures
        wake(runs, ids).0[i] == runs[i],
    decreases ids.len(),
{
    if ids.len() > 0 {
        let front = ids.drop_last();
        assert forall|k: int| 0 <= k < front.len() implies #[trigger] front[k] != runs[i].id by {
            assert(front[k] == ids[k]);
        }
        not_woken_before(runs, front, i);
        waking_keeps_the_runs(runs, front);
        let before = wake(runs, front).0;
        index_of_facts(before, ids.last());
        assert(ids[ids.len() - 1] != runs[i].id);
        if let Some(j) = index_of(before, ids.last()) {
            assert(j != i);
        }
    }
}

/// A request to stop. A run that waits in the queue is finished at once as
/// cancelled, without a process; any other live run gets its cancel flag and
/// nothing else changes; an id that is not live changes nothing.
pub proof fn a_stop_drops_or_flags(
    m: SupervisorModel,
    id: RunId,
    now: nat,
    now_secs: u64,
    i: int,
)
    requires
        no_two_alike(m.runs),
        0 <= i < m.runs.len(),
        m.runs[i].id == id,
    ensures
        ({
            let e = m.cancel_effect(id, now, now_secs);
            let after = m.cancelled(id, now);
            let waits = m.runs[i].inner.state == RunState::Queued && exists|k: int|
                0 <= k < m.book.queue.len() && (#[trigger] m.book.queue[k]).id == id;
            &&& waits ==> e is Dropped && e->Dropped_0.id == id && e->Dropped_0.result.outcome
                == RunOutcome::Cancelled && e->Dropped_0.result.exit_code is None
                && e->Dropped_0.result.signal is None && e->Dropped_0.result.cleanup
                == CleanupState::Complete && e->Dropped_0.result.detail == Some(
                "cancelled while queued"@,
            )
            &&& !waits ==> e is Flagged && after.runs.len() == m.runs.len() && after.runs[i].cancel
                && after.runs[i].inner == m.runs[i].inner && after.book.running == m.book.running
                && forall|k: int|
                0 <= k < m.runs.len() && k != i ==> #[trigger] after.runs[k] == m.runs[k]
        }),
{
    index_of_facts(m.runs, id);
    let at = index_of(m.runs, id)->0;
    assert(at == i) by {
        if at < i {
            assert(m.runs[at].id != m.runs[i].id);
        } else if i < at {
            assert(m.runs[i].id != m.runs[at].id);
        }
    }
}

/// A request to stop what is not live changes nothing.
pub proof fn a_stop_of_nothing_changes_nothing(
    m: SupervisorModel,
    id: RunId,
    now: nat,
    now_secs: u64,
)
    requires
        forall|k: int| 0 <= k < m.runs.len() ==> (#[trigger] m.runs[k]).id != id,
    ensures
        m.cancelled(id, now) == m,
        m.cancel_effect(id, now, now_secs) is NotLive,
{
    index_none(m.runs, id);
}

/// Runs whose queue deadline passed end as timed out, without a process, and
/// say that they waited too long.
pub proof fn a_passed_deadline_ends_as_timed_out(
    m: SupervisorModel,
    ids: Seq<RunId>,
    now: nat,
    now_secs: u64,
)
    ensures
        forall|k: int|
            0 <= k < m.timed_out(ids, now, now_secs).1.len() ==> {
                let e = #[trigger] m.timed_out(ids, now, now_secs).1[k];
                &&& e.result.outcome == RunOutcome::TimedOut
                &&& e.result.exit_code is None
                &&& e.result.signal is None
                &&& e.result.started_at is None
                &&& e.result.detail == Some("queue timeout: waited for a slot too long"@)
                &&& ids.contains(e.id)
            },
    decreases ids.len(),
{
    if ids.len() > 0 {
        let front = ids.drop_last();
        a_passed_deadline_ends_as_timed_out(m, front, now, now_secs);
        let before = m.timed_out(front, now, now_secs);
        let after = m.timed_out(ids, now, now_secs);
        assert forall|k: int| 0 <= k < after.1.len() implies ({
            let e = #[trigger] after.1[k];
            &&& e.result.outcome == RunOutcome::TimedOut
            &&& e.result.exit_code is None
            &&& e.result.signal is None
            &&& e.result.started_at is None
            &&& e.result.detail == Some("queue timeout: waited for a slot too long"@)
            &&& ids.contains(e.id)
        }) by {
            if k < before.1.len() {
                assert(after.1[k] == before.1[k]);
                let j = choose|j: int| 0 <= j < front.len() && front[j] == after.1[k].id;
                assert(ids[j] == after.1[k].id);
            } else {
                assert(ids[ids.len() - 1] == after.1[k].id);
            }
        }
    }
}

/// One run whose deadline passed is ended where it is live.
pub proof fn a_live_run_past_its_deadline_is_ended(
    m: SupervisorModel,
    id: RunId,
    now: nat,
    now_secs: u64,
)
    ensures
        m.timed_out(seq![id], now, now_secs).1.len() == (if index_of(m.runs, id) is Some {
            1nat
        } else {
            0
        }),
{
    let one = seq![id];
    assert(one.drop_last() =~= Seq::<RunId>::empty());
    assert(one.last() == id);
    let before = m.timed_out(one.drop_last(), now, now_secs);
    assert(before.0 == m && before.1.len() == 0);
}

/// What admission is asked for: the memory that the request names or else the
/// default, for its project root or else its directory. The answer is that of
/// the numbers.
pub proof fn admission_goes_by_project_and_memory(m: SupervisorModel, spec: RunSpec)
    ensures
        ({
            let project = if spec.project_root is Some {
                spec.project_root->0@
            } else {
                spec.cwd@
            };
            let memory = if spec.resources.memory_bytes is Some {
                spec.resources.memory_bytes->0
            } else {
                m.book.limits.default_run_memory_bytes
            };
            let b = m.book;
            &&& m.admission(spec) is Start <==> memory <= b.limits.memory_budget_bytes
                && b.running.len() < b.limits.max_parallel && scheduler::count_of(
                b.running,
                project,
            ) < b.limits.max_parallel_per_project && scheduler::total(b.running)
                + scheduler::total(b.held) + memory <= b.limits.memory_budget_bytes
            &&& m.admission(spec) is Queued ==> b.queue.len() < b.limits.max_queued && memory
                <= b.limits.memory_budget_bytes
        }),
{
}

/// What a recorded request begins as. Admitted, it gets a worker with its
/// environment and nothing waits; queued, it waits at the end with its
/// environment and says where; refused, it is over at once with the reason,
/// and no run is added.
pub proof fn a_request_begins_as_it_was_answered(
    b: Begun,
    m: SupervisorModel,
    after: SupervisorModel,
    id: RunId,
    spec: RunSpec,
    env: Seq<(String, String)>,
    now: nat,
    now_secs: u64,
)
    requires
        begins(b, m, after, id, spec, env, now, now_secs),
        index_of(m.runs, id) is None,
    ensures
        m.admission(spec) is Start <==> b is Worker,
        m.admission(spec) is Queued <==> b is Queued,
        m.admission(spec) is Rejected <==> b is Refused,
        b is Worker ==> b->Worker_0@ == env && after.runs.len() == m.runs.len() + 1
            && after.runs.last().id == id && after.runs.last().spec == spec
            && after.runs.last().inner.state == RunState::Queued && after.runs.last().env.len()
            == 0,
        b is Queued ==> after.runs.len() == m.runs.len() + 1 && after.runs.last().id == id
            && after.runs.last().spec == spec && after.runs.last().env == env
            && after.runs.last().queued_at == Some(now) && after.runs.last().inner.state
            == RunState::Queued && after.runs.last().inner.detail == Some(b->Queued_0@),
        b is Refused ==> after.runs == m.runs && b->Refused_1@.id == id
            && b->Refused_1@.result.outcome == RunOutcome::SpawnFailed
            && b->Refused_1@.result.detail == Some(run::reject_text(b->Refused_0))
            && b->Refused_1@.result.exit_code is None,
        forall|k: int| 0 <= k < m.runs.len() ==> #[trigger] after.runs[k] == m.runs[k],
{
}

/// A run has one position: that of its first entry, counted from one, and
/// none where it has no entry.
pub proof fn positions_count_from_one(s: Supervisor, id: RunId, k: int, p: Option<usize>)
    requires
        s.is_position(id, p),
    ensures
        0 <= k < s@.book.queue.len() && s@.book.queue[k].id == id && (forall|j: int|
            0 <= j < k ==> (#[trigger] s@.book.queue[j]).id != id) ==> p is Some && p->0 == k + 1,
        p is None ==> forall|j: int|
            0 <= j < s@.book.queue.len() ==> (#[trigger] s@.book.queue[j]).id != id,
{
}

} // verus!

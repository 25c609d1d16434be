//! Executing a remembered plan.
//!
//! The plan is advisory: every id is resolved again against a fresh snapshot,
//! through the same decisions as a single action, and what persists by now is
//! left alone. Ids that were deselected are skipped.

use crate::barman::action;
use crate::barman::action::{find_docker, ActionOutcome, BarmanAction};
use crate::barman::document::{ContainerModel, ResourceDoc, RowModel, SnapshotDoc};
use crate::barman::ids;
use crate::barman::plan;
use crate::classify::group;
use crate::classify::group::sat_add;
use crate::model::docker::{DockerKind, DockerResource};
use crate::model::snapshot::RuntimeSnapshot;
use crate::sorting;
use crate::sorting::{sort, Keyed};
use crate::text;
use crate::text::{any_same, same, split, text_starts, trim_of, Separator};
use vstd::prelude::*;

verus! {

#[derive(Debug, Clone, PartialEq, Eq)]
pub struct ExecuteOutcome {
    pub ok: bool,
    pub plan_id: String,
    pub stopped: Vec<String>,
    pub killed: Vec<String>,
    pub failed: Vec<ExecuteFailure>,
    pub reclaimed_bytes: u64,
    pub error: Option<String>,
}

#[derive(Debug, Clone, PartialEq, Eq)]
pub struct ExecuteFailure {
    pub resource_id: String,
    pub error: String,
}

/// One id of a plan, and the action it calls for; none where the id is stale
/// or protected.
#[derive(Debug, Clone, PartialEq, Eq)]
pub struct ExecuteStep {
    pub id: String,
    pub action: Option<BarmanAction>,
    /// It persists, whatever the plan says.
    pub protected: bool,
}

// ---------------------------------------------------------------------------
// Which ids
// ---------------------------------------------------------------------------

/// The parts of a comma-separated list that are not blank, trimmed.
pub open spec fn listed_ids(s: Seq<char>) -> Seq<Seq<char>> {
    let parts = text::pieces(s, Separator::Char(','));
    text::nonempty(Seq::new(parts.len(), |i: int| text::trimmed(parts[i])))
}

/// A comma-separated list of ids.
pub fn only_ids(s: &str) -> (r: Vec<String>)
    ensures
        text::texts(r@) == listed_ids(s@),
{
    let parts: Vec<String> = split(s, Separator::Char(','));
    let ghost ps = text::pieces(s@, Separator::Char(','));
    let ghost want = Seq::new(ps.len(), |i: int| text::trimmed(ps[i]));
    let mut r: Vec<String> = Vec::new();
    let mut i: usize = 0;
    assert(want.take(0) =~= Seq::<Seq<char>>::empty());
    assert(text::texts(r@) =~= Seq::<Seq<char>>::empty());
    while i < parts.len()
        invariant
            i <= parts.len(),
            text::texts(parts@) == ps,
            want.len() == ps.len(),
            forall|k: int| 0 <= k < ps.len() ==> #[trigger] want[k] == text::trimmed(ps[k]),
            text::texts(r@) == text::nonempty(want.take(i as int)),
        decreases parts.len() - i,
    {
        assert(text::texts(parts@)[i as int] == parts@[i as int]@);
        assert(want.take(i + 1).drop_last() =~= want.take(i as int));
        assert(want.take(i + 1).last() == want[i as int]);
        let t: String = trim_of(parts[i].as_str());
        if t.as_str().unicode_len() > 0 {
            let ghost before = text::texts(r@);
            let ghost tv = t@;
            r.push(t);
            assert(text::texts(r@) =~= before.push(tv));
        }
        i += 1;
    }
    assert(want.take(want.len() as int) =~= want);
    r
}

/// The selected ids that are also in a filter.
pub open spec fn kept(selected: Seq<Seq<char>>, filter: Seq<Seq<char>>) -> Seq<Seq<char>>
    decreases selected.len(),
{
    if selected.len() == 0 {
        Seq::empty()
    } else {
        let rest = kept(selected.drop_last(), filter);
        if filter.contains(selected.last()) {
            rest.push(selected.last())
        } else {
            rest
        }
    }
}

pub open spec fn wanted_ids(selected: Seq<String>, only: Option<Vec<String>>) -> Seq<Seq<char>> {
    match only {
        Some(f) => kept(text::texts(selected), text::texts(f@)),
        None => text::texts(selected),
    }
}

fn wanted(selected: &Vec<String>, only: &Option<Vec<String>>) -> (r: Vec<String>)
    ensures
        text::texts(r@) == wanted_ids(selected@, *only),
{
    match only {
        None => text::copy_list(selected),
        Some(f) => {
            let ghost all = text::texts(selected@);
            let mut r: Vec<String> = Vec::new();
            let mut i: usize = 0;
            assert(all.take(0) =~= Seq::<Seq<char>>::empty());
            assert(text::texts(r@) =~= Seq::<Seq<char>>::empty());
            while i < selected.len()
                invariant
                    i <= selected.len(),
                    all == text::texts(selected@),
                    text::texts(r@) == kept(all.take(i as int), text::texts(f@)),
                decreases selected.len() - i,
            {
                assert(all.take(i + 1).drop_last() =~= all.take(i as int));
                assert(all.take(i + 1).last() == selected@[i as int]@);
                if any_same(f, selected[i].as_str()) {
                    let ghost before = text::texts(r@);
                    r.push(selected[i].clone());
                    assert(text::texts(r@) =~= before.push(selected@[i as int]@));
                }
                i += 1;
            }
            assert(all.take(all.len() as int) =~= all);
            r
        },
    }
}

/// Plan items are leftovers: processes and running containers are stopped,
/// stopped containers and Docker artifacts are removed. None: the id is stale.
pub open spec fn step_action(rs: Seq<DockerResource>, id: Seq<char>) -> Option<BarmanAction> {
    if text::starts_with(id, "container_"@) {
        match action::first_docker(rs, id) {
            Some(res) => if res.is_running() {
                Some(BarmanAction::Stop)
            } else {
                Some(BarmanAction::Kill)
            },
            None => None,
        }
    } else {
        Some(BarmanAction::Stop)
    }
}

fn action_for(snap: &RuntimeSnapshot, id: &str) -> (r: Option<BarmanAction>)
    ensures
        r == step_action(snap.docker.resources@, id@),
{
    if text_starts(id, "container_") {
        match find_docker(snap, id) {
            Some(res) => if res.running() {
                Some(BarmanAction::Stop)
            } else {
                Some(BarmanAction::Kill)
            },
            None => None,
        }
    } else {
        Some(BarmanAction::Stop)
    }
}

pub struct StepModel {
    pub id: Seq<char>,
    pub action: Option<BarmanAction>,
    pub protected: bool,
}

pub open spec fn step_models(steps: Seq<ExecuteStep>) -> Seq<StepModel> {
    Seq::new(
        steps.len(),
        |i: int|
            StepModel {
                id: steps[i].id@,
                action: steps[i].action,
                protected: steps[i].protected,
            },
    )
}

/// What an id calls for now. What persists is protected.
pub open spec fn step_of(rs: Seq<DockerResource>, rows: Seq<RowModel>, id: Seq<char>) -> StepModel {
    let protected = plan::is_classed(rows, "persistent"@, id);
    StepModel {
        id,
        action: if protected {
            None
        } else {
            step_action(rs, id)
        },
        protected,
    }
}

pub open spec fn steps_of(
    rs: Seq<DockerResource>,
    rows: Seq<RowModel>,
    list: Seq<Seq<char>>,
) -> Seq<StepModel> {
    Seq::new(list.len(), |i: int| step_of(rs, rows, list[i]))
}

fn persists(rows: &Vec<ResourceDoc>, id: &str) -> (r: bool)
    ensures
        r == plan::is_classed(sorting::all_modelled(rows@), "persistent"@, id@),
{
    let ghost ms = sorting::all_modelled(rows@);
    let mut i: usize = 0;
    while i < rows.len()
        invariant
            i <= rows.len(),
            ms == sorting::all_modelled(rows@),
            forall|k: int|
                0 <= k < i ==> !((#[trigger] ms[k]).classification == "persistent"@ && ms[k].id
                    == id@),
        decreases rows.len() - i,
    {
        assert(ms[i as int] == rows@[i as int].modelled());
        if same(rows[i].classification.as_str(), "persistent") && same(rows[i].id.as_str(), id) {
            return true;
        }
        i += 1;
    }
    false
}

/// The steps of a plan that was remembered; none for a plan that was not.
pub fn plan_steps(
    snap: &RuntimeSnapshot,
    doc: &SnapshotDoc,
    selected: &Option<Vec<String>>,
    only: &Option<Vec<String>>,
) -> (r: Option<Vec<ExecuteStep>>)
    ensures
        match *selected {
            Some(s) => r is Some && step_models(r->Some_0@) == steps_of(
                snap.docker.resources@,
                sorting::all_modelled(doc.resources@),
                wanted_ids(s@, *only),
            ),
            None => r is None,
        },
{
    let selected: &Vec<String> = match selected {
        Some(s) => s,
        None => {
            return None;
        },
    };
    let list: Vec<String> = wanted(selected, only);
    let ghost ids = text::texts(list@);
    let ghost rows = sorting::all_modelled(doc.resources@);
    let ghost want = steps_of(snap.docker.resources@, rows, ids);
    let mut r: Vec<ExecuteStep> = Vec::new();
    let mut i: usize = 0;
    assert(step_models(r@) =~= want.take(0));
    while i < list.len()
        invariant
            i <= list.len(),
            ids == text::texts(list@),
            rows == sorting::all_modelled(doc.resources@),
            want == steps_of(snap.docker.resources@, rows, ids),
            step_models(r@) == want.take(i as int),
        decreases list.len() - i,
    {
        let ghost before = step_models(r@);
        assert(ids[i as int] == list@[i as int]@);
        let protected: bool = persists(&doc.resources, list[i].as_str());
        let step: ExecuteStep = ExecuteStep {
            id: list[i].clone(),
            action: if protected {
                None
            } else {
                action_for(snap, list[i].as_str())
            },
            protected,
        };
        r.push(step);
        assert(step_models(r@) =~= before.push(want[i as int]));
        assert(want.take(i + 1) =~= before.push(want[i as int]));
        i += 1;
    }
    assert(want.take(want.len() as int) =~= want);
    Some(r)
}

// ---------------------------------------------------------------------------
// The outcome
// ---------------------------------------------------------------------------

/// The reclaim estimate of the last row with an id.
pub open spec fn row_bytes(rows: Seq<RowModel>, id: Seq<char>) -> Option<u64>
    decreases rows.len(),
{
    if rows.len() == 0 {
        None
    } else if rows.last().id == id {
        Some(rows.last().estimated_reclaim_bytes)
    } else {
        row_bytes(rows.drop_last(), id)
    }
}

pub open spec fn container_bytes(rows: Seq<ContainerModel>, id: Seq<char>) -> Option<u64>
    decreases rows.len(),
{
    if rows.len() == 0 {
        None
    } else if rows.last().id == id {
        Some(rows.last().estimated_reclaim_bytes)
    } else {
        container_bytes(rows.drop_last(), id)
    }
}

/// What an id would give back; a container's row goes before a resource's.
pub open spec fn reclaim_of(doc: SnapshotDoc, id: Seq<char>) -> u64 {
    match container_bytes(sorting::all_modelled(doc.containers@), id) {
        Some(n) => n,
        None => match row_bytes(sorting::all_modelled(doc.resources@), id) {
            Some(n) => n,
            None => 0,
        },
    }
}

#[verifier::ext_equal]
pub struct Tally {
    pub stopped: Seq<Seq<char>>,
    pub killed: Seq<Seq<char>>,
    pub failed: Seq<(Seq<char>, Seq<char>)>,
    pub bytes: u64,
}

/// Why a step without an action was not taken.
pub open spec fn refusal(step: StepModel) -> Seq<char> {
    if step.protected {
        "protected: it persists"@
    } else {
        "stale target: re-refresh"@
    }
}

/// What became of the first `n` steps.
pub open spec fn tally(
    doc: SnapshotDoc,
    steps: Seq<StepModel>,
    outcomes: Seq<ActionOutcome>,
    n: nat,
) -> Tally
    decreases n,
{
    if n == 0 || n > steps.len() || n > outcomes.len() {
        Tally { stopped: Seq::empty(), killed: Seq::empty(), failed: Seq::empty(), bytes: 0 }
    } else {
        let rest = tally(doc, steps, outcomes, (n - 1) as nat);
        let id = steps[n - 1].id;
        let o = outcomes[n - 1]@;
        match steps[n - 1].action {
            None => Tally { failed: rest.failed.push((id, refusal(steps[n - 1]))), ..rest },
            Some(a) => if !o.ok {
                Tally {
                    failed: rest.failed.push(
                        (
                            id,
                            match o.error {
                                Some(e) => e,
                                None => "failed"@,
                            },
                        ),
                    ),
                    ..rest
                }
            } else if a == BarmanAction::Kill {
                Tally {
                    killed: rest.killed.push(id),
                    bytes: group::sat(rest.bytes, reclaim_of(doc, id)),
                    ..rest
                }
            } else {
                Tally {
                    stopped: rest.stopped.push(id),
                    bytes: group::sat(rest.bytes, reclaim_of(doc, id)),
                    ..rest
                }
            },
        }
    }
}

pub open spec fn failures(v: Seq<ExecuteFailure>) -> Seq<(Seq<char>, Seq<char>)> {
    Seq::new(v.len(), |i: int| (v[i].resource_id@, v[i].error@))
}

/// An outcome tells what became of every step.
pub open spec fn reports(
    r: ExecuteOutcome,
    doc: SnapshotDoc,
    steps: Seq<StepModel>,
    outcomes: Seq<ActionOutcome>,
) -> bool {
    let t = tally(doc, steps, outcomes, steps.len());
    &&& r.ok == (t.failed.len() == 0)
    &&& text::texts(r.stopped@) == sorting::sorted::<String>(t.stopped)
    &&& text::texts(r.killed@) == sorting::sorted::<String>(t.killed)
    &&& failures(r.failed@) == t.failed
    &&& r.reclaimed_bytes == t.bytes
    &&& r.error is None
}

fn bytes_of(doc: &SnapshotDoc, id: &str) -> (r: u64)
    ensures
        r == reclaim_of(*doc, id@),
{
    let ghost cs = sorting::all_modelled(doc.containers@);
    let mut n: usize = doc.containers.len();
    assert(cs.take(cs.len() as int) =~= cs);
    while n > 0
        invariant
            n <= doc.containers.len(),
            cs == sorting::all_modelled(doc.containers@),
            container_bytes(cs, id@) == container_bytes(cs.take(n as int), id@),
        decreases n,
    {
        assert(cs.take(n as int).last() == doc.containers@[n - 1].modelled());
        assert(cs.take(n as int).drop_last() =~= cs.take(n - 1));
        n -= 1;
        if same(doc.containers[n].id.as_str(), id) {
            return doc.containers[n].estimated_reclaim_bytes;
        }
    }
    let ghost rs = sorting::all_modelled(doc.resources@);
    let mut n: usize = doc.resources.len();
    assert(rs.take(rs.len() as int) =~= rs);
    while n > 0
        invariant
            n <= doc.resources.len(),
            rs == sorting::all_modelled(doc.resources@),
            container_bytes(sorting::all_modelled(doc.containers@), id@) is None,
            row_bytes(rs, id@) == row_bytes(rs.take(n as int), id@),
        decreases n,
    {
        assert(rs.take(n as int).last() == doc.resources@[n - 1].modelled());
        assert(rs.take(n as int).drop_last() =~= rs.take(n - 1));
        n -= 1;
        if same(doc.resources[n].id.as_str(), id) {
            return doc.resources[n].estimated_reclaim_bytes;
        }
    }
    0
}

/// The outcome of a plan: of each step what its action came to. Without steps
/// the plan was not known, or past its time.
pub fn execute(
    plan_id: &str,
    steps: &Option<Vec<ExecuteStep>>,
    outcomes: &Vec<ActionOutcome>,
    doc: &SnapshotDoc,
) -> (r: ExecuteOutcome)
    requires
        steps matches Some(s) ==> s@.len() == outcomes@.len(),
    ensures
        r.plan_id@ == plan_id@,
        match *steps {
            None => !r.ok && r.stopped@.len() == 0 && r.killed@.len() == 0 && r.failed@.len() == 0
                && r.reclaimed_bytes == 0 && text::text_of(r.error) == Some(
                "unknown or expired plan"@,
            ),
            Some(s) => reports(r, *doc, step_models(s@), outcomes@),
        },
{
    let list: &Vec<ExecuteStep> = match steps {
        Some(s) => s,
        None => {
            return ExecuteOutcome {
                ok: false,
                plan_id: plan_id.to_owned(),
                stopped: Vec::new(),
                killed: Vec::new(),
                failed: Vec::new(),
                reclaimed_bytes: 0,
                error: Some("unknown or expired plan".to_owned()),
            };
        },
    };
    let ghost ms = step_models(list@);
    let mut stopped: Vec<String> = Vec::new();
    let mut killed: Vec<String> = Vec::new();
    let mut failed: Vec<ExecuteFailure> = Vec::new();
    let mut bytes: u64 = 0;
    let mut i: usize = 0;
    assert(text::texts(stopped@) =~= Seq::<Seq<char>>::empty());
    assert(text::texts(killed@) =~= Seq::<Seq<char>>::empty());
    assert(failures(failed@) =~= Seq::<(Seq<char>, Seq<char>)>::empty());
    while i < list.len()
        invariant
            i <= list.len(),
            list@.len() == outcomes@.len(),
            ms == step_models(list@),
            (Tally {
                stopped: text::texts(stopped@),
                killed: text::texts(killed@),
                failed: failures(failed@),
                bytes,
            }) == tally(*doc, ms, outcomes@, i as nat),
        decreases list.len() - i,
    {
        let step: &ExecuteStep = &list[i];
        let o: &ActionOutcome = &outcomes[i];
        assert(ms[i as int] == (StepModel {
            id: step.id@,
            action: step.action,
            protected: step.protected,
        }));
        let ghost s0 = text::texts(stopped@);
        let ghost k0 = text::texts(killed@);
        let ghost f0 = failures(failed@);
        match step.action {
            None => {
                let error: String = if step.protected {
                    "protected: it persists".to_owned()
                } else {
                    "stale target: re-refresh".to_owned()
                };
                let ghost ev = error@;
                failed.push(ExecuteFailure { resource_id: step.id.clone(), error });
                assert(failures(failed@) =~= f0.push((step.id@, ev)));
            },
            Some(a) => {
                if o.ok {
                    if a == BarmanAction::Kill {
                        killed.push(step.id.clone());
                        assert(text::texts(killed@) =~= k0.push(step.id@));
                    } else {
                        stopped.push(step.id.clone());
                        assert(text::texts(stopped@) =~= s0.push(step.id@));
                    }
                    bytes = sat_add(bytes, bytes_of(doc, step.id.as_str()));
                } else {
                    let error: String = match &o.error {
                        Some(e) => e.clone(),
                        None => "failed".to_owned(),
                    };
                    let ghost ev = error@;
                    failed.push(ExecuteFailure { resource_id: step.id.clone(), error });
                    assert(failures(failed@) =~= f0.push((step.id@, ev)));
                }
            },
        }
        i += 1;
    }
    assert(sorting::all_modelled(stopped@) =~= text::texts(stopped@));
    assert(sorting::all_modelled(killed@) =~= text::texts(killed@));
    let stopped: Vec<String> = sort(stopped);
    let killed: Vec<String> = sort(killed);
    assert(sorting::all_modelled(stopped@) =~= text::texts(stopped@));
    assert(sorting::all_modelled(killed@) =~= text::texts(killed@));
    assert(failures(failed@).len() == failed@.len());
    ExecuteOutcome {
        ok: failed.len() == 0,
        plan_id: plan_id.to_owned(),
        stopped,
        killed,
        failed,
        reclaimed_bytes: bytes,
        error: None,
    }
}

/// Deselected ids are never touched: what a filter leaves out is no step.
pub proof fn deselected_ids_are_skipped(
    selected: Seq<Seq<char>>,
    filter: Seq<Seq<char>>,
    id: Seq<char>,
)
    requires
        !filter.contains(id),
    ensures
        !kept(selected, filter).contains(id),
    decreases selected.len(),
{
    if selected.len() > 0 {
        deselected_ids_are_skipped(selected.drop_last(), filter, id);
        let rest = kept(selected.drop_last(), filter);
        let all = kept(selected, filter);
        assert forall|k: int| 0 <= k < all.len() implies all[k] != id by {
            if k < rest.len() {
                assert(all[k] == rest[k]);
            }
        }
    }
}

/// What persists is never touched by a plan, not even by one that was made
/// before it persisted.
pub proof fn what_persists_is_left_alone(
    rs: Seq<DockerResource>,
    rows: Seq<RowModel>,
    list: Seq<Seq<char>>,
)
    ensures
        forall|i: int|
            0 <= i < list.len() && plan::is_classed(rows, "persistent"@, #[trigger] list[i])
                ==> steps_of(rs, rows, list)[i].action is None,
{
}

/// The ids of steps.
pub open spec fn step_ids(steps: Seq<StepModel>) -> Seq<Seq<char>> {
    Seq::new(steps.len(), |i: int| steps[i].id)
}

/// The ids of failures.
pub open spec fn failed_ids(v: Seq<(Seq<char>, Seq<char>)>) -> Seq<Seq<char>> {
    Seq::new(v.len(), |i: int| v[i].0)
}

/// What ids would give back together.
pub open spec fn reclaim_sum(doc: SnapshotDoc, ids: Seq<Seq<char>>) -> int {
    ids.fold_left(0int, |n: int, id: Seq<char>| n + reclaim_of(doc, id))
}

proof fn tally_counts(
    doc: SnapshotDoc,
    steps: Seq<StepModel>,
    outcomes: Seq<ActionOutcome>,
    n: nat,
)
    requires
        n <= steps.len(),
        n <= outcomes.len(),
    ensures
        ({
            let t = tally(doc, steps, outcomes, n);
            let sum = reclaim_sum(doc, t.stopped) + reclaim_sum(doc, t.killed);
            &&& t.stopped.to_multiset().add(t.killed.to_multiset()).add(
                failed_ids(t.failed).to_multiset(),
            ) == step_ids(steps).take(n as int).to_multiset()
            &&& 0 <= reclaim_sum(doc, t.stopped)
            &&& 0 <= reclaim_sum(doc, t.killed)
            &&& t.bytes == if sum <= u64::MAX {
                sum
            } else {
                u64::MAX as int
            }
        }),
    decreases n,
{
    broadcast use vstd::seq_lib::group_to_multiset_ensures;

    let t = tally(doc, steps, outcomes, n);
    if n == 0 {
        assert(failed_ids(t.failed) =~= Seq::<Seq<char>>::empty());
        assert(step_ids(steps).take(0) =~= Seq::<Seq<char>>::empty());
        assert(t.stopped.to_multiset().add(t.killed.to_multiset()).add(
            failed_ids(t.failed).to_multiset(),
        ) =~= step_ids(steps).take(0).to_multiset());
    } else {
        tally_counts(doc, steps, outcomes, (n - 1) as nat);
        let rest = tally(doc, steps, outcomes, (n - 1) as nat);
        let id = steps[n - 1].id;
        assert(step_ids(steps).take(n as int) =~= step_ids(steps).take(n - 1).push(id));
        if t.failed.len() > rest.failed.len() {
            assert(failed_ids(t.failed) =~= failed_ids(rest.failed).push(id));
        } else if t.killed.len() > rest.killed.len() {
            assert(t.killed.drop_last() =~= rest.killed);
        } else {
            assert(t.stopped.drop_last() =~= rest.stopped);
        }
        assert(t.stopped.to_multiset().add(t.killed.to_multiset()).add(
            failed_ids(t.failed).to_multiset(),
        ) =~= step_ids(steps).take(n as int).to_multiset());
    }
}

proof fn sum_ignores_order(doc: SnapshotDoc, a: Seq<Seq<char>>, b: Seq<Seq<char>>)
    requires
        a.to_multiset() == b.to_multiset(),
    ensures
        reclaim_sum(doc, a) == reclaim_sum(doc, b),
{
    vstd::seq_lib::lemma_fold_left_permutation(
        a,
        b,
        |n: int, id: Seq<char>| n + reclaim_of(doc, id),
        0int,
    );
}

/// Every id of a plan ends up in one place: stopped, killed or failed, as
/// often as it was chosen. Only what was stopped or killed counts as given
/// back, and the whole is well where nothing failed.
pub proof fn every_id_is_accounted_for(
    r: ExecuteOutcome,
    doc: SnapshotDoc,
    steps: Seq<StepModel>,
    outcomes: Seq<ActionOutcome>,
)
    requires
        steps.len() == outcomes.len(),
        reports(r, doc, steps, outcomes),
    ensures
        text::texts(r.stopped@).to_multiset().add(text::texts(r.killed@).to_multiset()).add(
            failed_ids(failures(r.failed@)).to_multiset(),
        ) == step_ids(steps).to_multiset(),
        r.ok <==> r.failed@.len() == 0,
        r.error is None,
        sorting::in_order::<String>(text::texts(r.stopped@)),
        sorting::in_order::<String>(text::texts(r.killed@)),
        r.reclaimed_bytes == ({
            let sum = reclaim_sum(doc, text::texts(r.stopped@)) + reclaim_sum(
                doc,
                text::texts(r.killed@),
            );
            if sum <= u64::MAX {
                sum
            } else {
                u64::MAX as int
            }
        }),
{
    let t = tally(doc, steps, outcomes, steps.len());
    tally_counts(doc, steps, outcomes, steps.len());
    sorting::sorting_keeps_and_orders::<String>(t.stopped);
    sorting::sorting_keeps_and_orders::<String>(t.killed);
    sum_ignores_order(doc, text::texts(r.stopped@), t.stopped);
    sum_ignores_order(doc, text::texts(r.killed@), t.killed);
    assert(step_ids(steps).take(steps.len() as int) =~= step_ids(steps));
    assert(failures(r.failed@).len() == r.failed@.len());
}

/// The steps of a plan are its chosen ids, one step each.
pub proof fn steps_are_the_chosen_ids(
    rs: Seq<DockerResource>,
    rows: Seq<RowModel>,
    list: Seq<Seq<char>>,
)
    ensures
        step_ids(steps_of(rs, rows, list)) == list,
{
    assert(step_ids(steps_of(rs, rows, list)) =~= list);
}

/// Each step is reported as it went: what was refused or failed with its
/// error, a kill that succeeded as killed, any other success as stopped.
pub proof fn each_step_is_reported_as_it_went(
    doc: SnapshotDoc,
    steps: Seq<StepModel>,
    outcomes: Seq<ActionOutcome>,
    n: nat,
    i: int,
)
    requires
        0 <= i < n <= steps.len(),
        n <= outcomes.len(),
    ensures
        ({
            let t = tally(doc, steps, outcomes, n);
            let id = steps[i].id;
            let o = outcomes[i]@;
            match steps[i].action {
                None => t.failed.contains(
                    (
                        id,
                        if steps[i].protected {
                            "protected: it persists"@
                        } else {
                            "stale target: re-refresh"@
                        },
                    ),
                ),
                Some(a) => {
                    &&& !o.ok ==> t.failed.contains(
                        (
                            id,
                            if o.error is Some {
                                o.error->0
                            } else {
                                "failed"@
                            },
                        ),
                    )
                    &&& o.ok && a == BarmanAction::Kill ==> t.killed.contains(id)
                    &&& o.ok && a != BarmanAction::Kill ==> t.stopped.contains(id)
                },
            }
        }),
    decreases n,
{
    let t = tally(doc, steps, outcomes, n);
    let rest = tally(doc, steps, outcomes, (n - 1) as nat);
    if i < n - 1 {
        each_step_is_reported_as_it_went(doc, steps, outcomes, (n - 1) as nat, i);
        assert forall|x: (Seq<char>, Seq<char>)| rest.failed.contains(
            x,
        ) implies #[trigger] t.failed.contains(x) by {
            let k = choose|k: int| 0 <= k < rest.failed.len() && rest.failed[k] == x;
            assert(t.failed[k] == x);
        }
        assert forall|x: Seq<char>| rest.killed.contains(x) implies #[trigger] t.killed.contains(
            x,
        ) by {
            let k = choose|k: int| 0 <= k < rest.killed.len() && rest.killed[k] == x;
            assert(t.killed[k] == x);
        }
        assert forall|x: Seq<char>| rest.stopped.contains(x) implies #[trigger] t.stopped.contains(
            x,
        ) by {
            let k = choose|k: int| 0 <= k < rest.stopped.len() && rest.stopped[k] == x;
            assert(t.stopped[k] == x);
        }
    } else {
        if t.failed.len() > rest.failed.len() {
            assert(t.failed.last() == t.failed[rest.failed.len() as int]);
            assert(t.failed.contains(t.failed.last()));
        }
        if t.killed.len() > rest.killed.len() {
            assert(t.killed[rest.killed.len() as int] == steps[i].id);
        }
        if t.stopped.len() > rest.stopped.len() {
            assert(t.stopped[rest.stopped.len() as int] == steps[i].id);
        }
    }
}

/// What a leftover calls for. A process is stopped; a container that runs is
/// stopped too; any other Docker resource is removed; one that is gone calls
/// for nothing.
pub proof fn a_running_container_is_stopped_and_the_rest_removed(
    rs: Seq<DockerResource>,
    id: Seq<char>,
    k: int,
)
    requires
        text::starts_with(id, "container_"@),
        0 <= k < rs.len(),
        ids::container_key(rs[k].id@) == id,
        forall|j: int| 0 <= j < k ==> ids::container_key((#[trigger] rs[j]).id@) != id,
    ensures
        step_action(rs, id) == Some(
            if rs[k].kind == DockerKind::Container && rs[k].detail@ == "running"@ {
                BarmanAction::Stop
            } else {
                BarmanAction::Kill
            },
        ),
{
    action::docker_resource_is_found_by_its_id(rs, id);
    let r = action::first_docker(rs, id)->0;
    assert(action::first_docker(rs, id) is Some) by {
        assert(ids::container_key(rs[k].id@) == id);
    }
    let n = choose|n: int|
        0 <= n < rs.len() && #[trigger] rs[n] == r && ids::container_key(r.id@) == id && forall|
            j: int,
        |
            0 <= j < n ==> ids::container_key((#[trigger] rs[j]).id@) != id;
    assert(n == k) by {
        if n < k {
            assert(ids::container_key(rs[n].id@) != id);
        } else if k < n {
            assert(ids::container_key(rs[k].id@) != id);
        }
    }
}

/// Anything that is no container is stopped.
pub proof fn a_process_is_stopped(rs: Seq<DockerResource>, id: Seq<char>)
    requires
        !text::starts_with(id, "container_"@),
    ensures
        step_action(rs, id) == Some(BarmanAction::Stop),
{
}

/// A choice keeps those of the selected ids that were chosen, in their order.
pub proof fn a_choice_narrows_the_selection(selected: Seq<Seq<char>>, filter: Seq<Seq<char>>)
    ensures
        kept(selected, filter) == selected.filter(|id: Seq<char>| filter.contains(id)),
    decreases selected.len(),
{
    reveal(Seq::filter);
    if selected.len() > 0 {
        a_choice_narrows_the_selection(selected.drop_last(), filter);
    }
}

proof fn last_container_counts(rows: Seq<ContainerModel>, id: Seq<char>, k: int)
    requires
        0 <= k < rows.len(),
        rows[k].id == id,
        forall|j: int| k < j < rows.len() ==> (#[trigger] rows[j]).id != id,
    ensures
        container_bytes(rows, id) == Some(rows[k].estimated_reclaim_bytes),
    decreases rows.len(),
{
    if k < rows.len() - 1 {
        let front = rows.drop_last();
        assert(rows.last() == rows[rows.len() - 1]);
        assert(front[k] == rows[k]);
        assert forall|j: int| k < j < front.len() implies (#[trigger] front[j]).id != id by {
            assert(front[j] == rows[j]);
        }
        last_container_counts(front, id, k);
    }
}

proof fn no_container_counts(rows: Seq<ContainerModel>, id: Seq<char>)
    requires
        forall|j: int| 0 <= j < rows.len() ==> (#[trigger] rows[j]).id != id,
    ensures
        container_bytes(rows, id) is None,
    decreases rows.len(),
{
    if rows.len() > 0 {
        let front = rows.drop_last();
        assert(rows.last() == rows[rows.len() - 1]);
        assert forall|j: int| 0 <= j < front.len() implies (#[trigger] front[j]).id != id by {
            assert(front[j] == rows[j]);
        }
        no_container_counts(front, id);
    }
}

proof fn last_row_counts(rows: Seq<RowModel>, id: Seq<char>, k: int)
    requires
        0 <= k < rows.len(),
        rows[k].id == id,
        forall|j: int| k < j < rows.len() ==> (#[trigger] rows[j]).id != id,
    ensures
        row_bytes(rows, id) == Some(rows[k].estimated_reclaim_bytes),
    decreases rows.len(),
{
    if k < rows.len() - 1 {
        let front = rows.drop_last();
        assert(rows.last() == rows[rows.len() - 1]);
        assert(front[k] == rows[k]);
        assert forall|j: int| k < j < front.len() implies (#[trigger] front[j]).id != id by {
            assert(front[j] == rows[j]);
        }
        last_row_counts(front, id, k);
    }
}

/// A container gives back what its row says.
pub proof fn a_container_gives_back_what_its_row_says(doc: SnapshotDoc, id: Seq<char>, k: int)
    requires
        0 <= k < doc.containers@.len(),
        sorting::all_modelled(doc.containers@)[k].id == id,
        forall|j: int|
            k < j < doc.containers@.len() ==> (#[trigger] sorting::all_modelled(
                doc.containers@,
            )[j]).id != id,
    ensures
        reclaim_of(doc, id) == sorting::all_modelled(doc.containers@)[k].estimated_reclaim_bytes,
{
    last_container_counts(sorting::all_modelled(doc.containers@), id, k);
}

/// Anything else gives back what its own row says.
pub proof fn a_resource_gives_back_what_its_row_says(doc: SnapshotDoc, id: Seq<char>, k: int)
    requires
        forall|j: int|
            0 <= j < doc.containers@.len() ==> (#[trigger] sorting::all_modelled(
                doc.containers@,
            )[j]).id != id,
        0 <= k < doc.resources@.len(),
        sorting::all_modelled(doc.resources@)[k].id == id,
        forall|j: int|
            k < j < doc.resources@.len() ==> (#[trigger] sorting::all_modelled(doc.resources@)[j]).id
                != id,
    ensures
        reclaim_of(doc, id) == sorting::all_modelled(doc.resources@)[k].estimated_reclaim_bytes,
{
    no_container_counts(sorting::all_modelled(doc.containers@), id);
    last_row_counts(sorting::all_modelled(doc.resources@), id, k);
}

proof fn no_row_counts(rows: Seq<RowModel>, id: Seq<char>)
    requires
        forall|j: int| 0 <= j < rows.len() ==> (#[trigger] rows[j]).id != id,
    ensures
        row_bytes(rows, id) is None,
    decreases rows.len(),
{
    if rows.len() > 0 {
        let front = rows.drop_last();
        assert(rows.last() == rows[rows.len() - 1]);
        assert forall|j: int| 0 <= j < front.len() implies (#[trigger] front[j]).id != id by {
            assert(front[j] == rows[j]);
        }
        no_row_counts(front, id);
    }
}

/// What has no row gives nothing back.
pub proof fn what_has_no_row_gives_nothing_back(doc: SnapshotDoc, id: Seq<char>)
    requires
        forall|j: int|
            0 <= j < doc.containers@.len() ==> (#[trigger] sorting::all_modelled(
                doc.containers@,
            )[j]).id != id,
        forall|j: int|
            0 <= j < doc.resources@.len() ==> (#[trigger] sorting::all_modelled(doc.resources@)[j]).id
                != id,
    ensures
        reclaim_of(doc, id) == 0,
{
    no_container_counts(sorting::all_modelled(doc.containers@), id);
    no_row_counts(sorting::all_modelled(doc.resources@), id);
}

} // verus!

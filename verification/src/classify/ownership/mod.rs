//! Exact, observed resource ownership over the `RuntimeItem` forest.
//!
//! Grouping remains the source of logical resources; this module only reads
//! the produced tree and records which session each resource provably
//! originated from. No heuristic scoring — only directly observed ancestry.

pub mod resolver;
pub mod rules;

use crate::bytes;
use crate::bytes::{extend, fnv1a, le_bytes_of};
use crate::model::boot::BootId;
use crate::model::process::{ProcessIdentity, ProcessInfo};
use crate::model::runtime;
use crate::model::runtime::{Category, ItemModel, RuntimeItem};
use crate::model::session::{RuntimeSession, RuntimeSessionId};
use vstd::prelude::*;
use std::collections::HashMap;

verus! {

broadcast use vstd::std_specs::hash::group_hash_axioms;

/// Stable id of one runtime resource, derived from its root process identity.
///
/// The root identity is fixed at first observation: a re-parented survivor
/// keeps this id, and member churn does not mint a new resource.
#[derive(Debug, Clone, Copy, PartialEq, Eq, Hash, Structural)]
pub struct ResourceId(u64);

impl View for ResourceId {
    type V = u64;

    closed spec fn view(&self) -> u64 {
        self.0
    }
}

/// What the id of a resource is computed from.
pub open spec fn resource_bytes(root: ProcessIdentity) -> Seq<u8> {
    bytes::le_bytes(root.boot_id@ as nat, 16) + bytes::le_bytes(root.pid as nat, 4)
        + bytes::le_bytes(root.start_time as nat, 8)
}

impl ResourceId {
    pub fn of_root(root: &ProcessIdentity) -> (r: Self)
        ensures
            r@ == bytes::fnv(resource_bytes(*root)),
    {
        let mut v: Vec<u8> = le_bytes_of(root.boot_id.as_u128(), 16);
        extend(&mut v, le_bytes_of(root.pid as u128, 4).as_slice());
        extend(&mut v, le_bytes_of(root.start_time as u128, 8).as_slice());
        ResourceId(fnv1a(v.as_slice()))
    }

    pub fn as_u64(self) -> (r: u64)
        ensures
            r == self@,
    {
        self.0
    }
}

/// A resource exactly observed to originate from a session (via direct
/// process ancestry).
#[derive(Debug, Clone)]
pub struct OwnedResource {
    pub resource: ResourceId,
    pub kind: Category,
    pub root: ProcessIdentity,
    pub members: Vec<ProcessIdentity>,
    pub session: RuntimeSessionId,
}

/// Result of the exact-ownership pass over one snapshot.
#[derive(Debug, Clone)]
pub struct OwnershipResult {
    pub sessions: Vec<RuntimeSession>,
    pub owned: Vec<OwnedResource>,
}

// ---------------------------------------------------------------------------
// Model
// ---------------------------------------------------------------------------

/// A session that an agent started.
pub struct SessionModel {
    pub agent: Seq<char>,
    pub root: ProcessIdentity,
}

impl SessionModel {
    pub open spec fn id(self) -> u64 {
        bytes::fnv(RuntimeSessionId::id_bytes(self.root.boot_id, self.root, self.agent))
    }
}

/// A resource and the session it came from.
pub struct OwnedModel {
    pub kind: Category,
    pub root: ProcessIdentity,
    pub members: Seq<ProcessIdentity>,
    pub session: u64,
}

#[verifier::ext_equal]
pub struct Ownership {
    pub sessions: Seq<SessionModel>,
    pub owned: Seq<OwnedModel>,
}

pub open spec fn nothing() -> Ownership {
    Ownership { sessions: Seq::empty(), owned: Seq::empty() }
}

pub open spec fn both(a: Ownership, b: Ownership) -> Ownership {
    Ownership { sessions: a.sessions + b.sessions, owned: a.owned + b.owned }
}

/// The known identities among some pids, in order.
pub open spec fn known(pids: Seq<u32>, ids: Map<u32, ProcessIdentity>) -> Seq<ProcessIdentity>
    decreases pids.len(),
{
    if pids.len() == 0 {
        Seq::empty()
    } else if ids.contains_key(pids.last()) {
        known(pids.drop_last(), ids).push(ids[pids.last()])
    } else {
        known(pids.drop_last(), ids)
    }
}

pub open spec fn root_identity(m: ItemModel, ids: Map<u32, ProcessIdentity>) -> Option<
    ProcessIdentity,
> {
    match m.root {
        Some(pid) => if ids.contains_key(pid) {
            Some(ids[pid])
        } else {
            None
        },
        None => None,
    }
}

/// An agent with a valid identity starts a session.
pub open spec fn starts_session(m: ItemModel, ids: Map<u32, ProcessIdentity>) -> bool {
    m.category == Category::Agent && root_identity(m, ids) is Some
}

/// The session that an item and what lies below it belong to: its own, or
/// else the enclosing one.
pub open spec fn session_at(
    m: ItemModel,
    outer: Option<u64>,
    ids: Map<u32, ProcessIdentity>,
) -> Option<u64> {
    if starts_session(m, ids) {
        Some(SessionModel { agent: m.name, root: root_identity(m, ids)->Some_0 }.id())
    } else {
        outer
    }
}

/// What an item adds by itself.
pub open spec fn own_part(
    m: ItemModel,
    outer: Option<u64>,
    ids: Map<u32, ProcessIdentity>,
) -> Ownership {
    match root_identity(m, ids) {
        Some(root) => if m.category == Category::Agent {
            Ownership {
                sessions: seq![SessionModel { agent: m.name, root }],
                owned: Seq::empty(),
            }
        } else {
            match outer {
                Some(session) => Ownership {
                    sessions: Seq::empty(),
                    owned: seq![
                        OwnedModel { kind: m.category, root, members: known(m.pids, ids), session },
                    ],
                },
                None => nothing(),
            }
        },
        None => nothing(),
    }
}

/// What an item and everything below it add, top down.
pub open spec fn of_item(
    m: ItemModel,
    outer: Option<u64>,
    ids: Map<u32, ProcessIdentity>,
) -> Ownership
    decreases m,
{
    both(own_part(m, outer, ids), of_items(m.children, session_at(m, outer, ids), ids))
}

pub open spec fn of_items(
    ms: Seq<ItemModel>,
    outer: Option<u64>,
    ids: Map<u32, ProcessIdentity>,
) -> Ownership
    decreases ms,
{
    if ms.len() == 0 {
        nothing()
    } else {
        both(of_items(ms.drop_last(), outer, ids), of_item(ms.last(), outer, ids))
    }
}

impl RuntimeSession {
    pub open spec fn session_model(self) -> SessionModel {
        SessionModel { agent: self.agent@, root: self.root }
    }

    /// A session just observed at `now`.
    pub open spec fn is_fresh(self, now: u64) -> bool {
        &&& self.id@ == self.session_model().id()
        &&& self.project is None
        &&& self.started_at == self.root.start_time
        &&& self.last_seen_at == now
        &&& self.ended_at is None
    }
}

impl OwnedResource {
    pub open spec fn owned_model(self) -> OwnedModel {
        OwnedModel {
            kind: self.kind,
            root: self.root,
            members: self.members@,
            session: self.session@,
        }
    }
}

impl OwnershipResult {
    pub open spec fn model(self) -> Ownership {
        Ownership {
            sessions: self.sessions@.map_values(|s: RuntimeSession| s.session_model()),
            owned: self.owned@.map_values(|o: OwnedResource| o.owned_model()),
        }
    }

    /// Ids and times are those of a first observation at `now`.
    pub open spec fn is_consistent(self, now: u64) -> bool {
        &&& forall|i: int|
            0 <= i < self.sessions@.len() ==> (#[trigger] self.sessions@[i]).is_fresh(now)
        &&& forall|i: int|
            0 <= i < self.owned@.len() ==> (#[trigger] self.owned@[i]).resource@ == bytes::fnv(
                resource_bytes(self.owned@[i].root),
            )
    }
}

// ---------------------------------------------------------------------------
// Laws
// ---------------------------------------------------------------------------

/// A session that is among these.
pub open spec fn lists(sessions: Seq<SessionModel>, id: u64) -> bool {
    exists|k: int| 0 <= k < sessions.len() && (#[trigger] sessions[k]).id() == id
}

/// Nothing is owned without an observed session: every owned resource names
/// the enclosing session or one that the pass itself found.
pub proof fn owners_were_observed(
    ms: Seq<ItemModel>,
    outer: Option<u64>,
    ids: Map<u32, ProcessIdentity>,
)
    ensures
        forall|i: int|
            0 <= i < of_items(ms, outer, ids).owned.len() ==> (outer == Some(
                (#[trigger] of_items(ms, outer, ids).owned[i]).session,
            ) || lists(
                of_items(ms, outer, ids).sessions,
                of_items(ms, outer, ids).owned[i].session,
            )),
    decreases ms,
{
    if ms.len() > 0 {
        let front = ms.drop_last();
        let last = ms.last();
        let a = of_items(front, outer, ids);
        let inner = session_at(last, outer, ids);
        let own = own_part(last, outer, ids);
        let below = of_items(last.children, inner, ids);
        let b = of_item(last, outer, ids);
        owners_were_observed(front, outer, ids);
        owners_were_observed(last.children, inner, ids);
        let all = of_items(ms, outer, ids);
        assert(all.owned =~= a.owned + (own.owned + below.owned));
        assert(all.sessions =~= a.sessions + (own.sessions + below.sessions));
        assert forall|i: int| 0 <= i < all.owned.len() implies (outer == Some(
            (#[trigger] all.owned[i]).session,
        ) || lists(all.sessions, all.owned[i].session)) by {
            let o = all.owned[i];
            if i < a.owned.len() {
                assert(o == a.owned[i]);
                if lists(a.sessions, o.session) {
                    let k = choose|k: int|
                        0 <= k < a.sessions.len() && (#[trigger] a.sessions[k]).id() == o.session;
                    assert(all.sessions[k].id() == o.session);
                }
            } else if i < a.owned.len() + own.owned.len() {
                assert(o == own.owned[i - a.owned.len()]);
            } else {
                let n = i - a.owned.len() - own.owned.len();
                assert(o == below.owned[n]);
                if lists(below.sessions, o.session) {
                    let k = choose|k: int|
                        0 <= k < below.sessions.len() && (#[trigger] below.sessions[k]).id()
                            == o.session;
                    assert(all.sessions[a.sessions.len() + own.sessions.len() + k].id()
                        == o.session);
                } else {
                    assert(inner == Some(o.session));
                    if starts_session(last, ids) {
                        assert(own.sessions[0].id() == o.session);
                        assert(all.sessions[a.sessions.len() as int] == own.sessions[0]);
                    }
                }
            }
        }
    }
}

/// Without an agent whose identity is known there is nothing durable: no
/// session found means nothing owned.
pub proof fn no_session_no_ownership(ms: Seq<ItemModel>, ids: Map<u32, ProcessIdentity>)
    requires
        of_items(ms, None, ids).sessions.len() == 0,
    ensures
        of_items(ms, None, ids).owned.len() == 0,
{
    owners_were_observed(ms, None, ids);
    let r = of_items(ms, None, ids);
    if r.owned.len() > 0 {
        assert(r.owned[0] == r.owned[0]);
        assert(lists(r.sessions, r.owned[0].session));
    }
}

/// The item that a path of child indices leads to.
pub open spec fn item_at(ms: Seq<ItemModel>, path: Seq<int>) -> Option<ItemModel>
    decreases path.len(),
{
    if path.len() == 0 || !(0 <= path[0] < ms.len()) {
        None
    } else if path.len() == 1 {
        Some(ms[path[0]])
    } else {
        item_at(ms[path[0]].children, path.drop_first())
    }
}

/// An agent whose root process has an identity stands there.
pub open spec fn known_agent_at(
    ms: Seq<ItemModel>,
    path: Seq<int>,
    ids: Map<u32, ProcessIdentity>,
) -> bool {
    match item_at(ms, path) {
        Some(m) => m.category == Category::Agent && m.root is Some && ids.contains_key(m.root->0),
        None => false,
    }
}

/// Anything but an agent, with a root process that has an identity.
pub open spec fn known_resource_at(
    ms: Seq<ItemModel>,
    path: Seq<int>,
    ids: Map<u32, ProcessIdentity>,
) -> bool {
    match item_at(ms, path) {
        Some(m) => m.category != Category::Agent && m.root is Some && ids.contains_key(m.root->0),
        None => false,
    }
}

/// The agent at the first `j` steps of a path is the nearest one above its
/// end.
pub open spec fn nearest_agent(
    ms: Seq<ItemModel>,
    path: Seq<int>,
    j: int,
    ids: Map<u32, ProcessIdentity>,
) -> bool {
    &&& 0 < j < path.len()
    &&& known_agent_at(ms, path.take(j), ids)
    &&& forall|k: int|
        j < k < path.len() ==> !(#[trigger] known_agent_at(ms, path.take(k), ids))
}

/// The session in force where a path ends.
spec fn session_above(
    ms: Seq<ItemModel>,
    outer: Option<u64>,
    ids: Map<u32, ProcessIdentity>,
    path: Seq<int>,
) -> Option<u64>
    decreases path.len(),
{
    if path.len() <= 1 {
        outer
    } else {
        session_above(
            ms[path[0]].children,
            session_at(ms[path[0]], outer, ids),
            ids,
            path.drop_first(),
        )
    }
}

proof fn path_goes_on(ms: Seq<ItemModel>, path: Seq<int>, k: int)
    requires
        1 <= k < path.len(),
        0 <= path[0] < ms.len(),
    ensures
        item_at(ms, path.take(k + 1)) == item_at(
            ms[path[0]].children,
            path.drop_first().take(k),
        ),
        item_at(ms, path.take(1)) == Some(ms[path[0]]),
{
    assert(path.take(k + 1).drop_first() =~= path.drop_first().take(k));
    assert(path.take(k + 1)[0] == path[0]);
    assert(path.take(1)[0] == path[0]);
}

proof fn session_above_is_the_nearest(
    ms: Seq<ItemModel>,
    outer: Option<u64>,
    ids: Map<u32, ProcessIdentity>,
    path: Seq<int>,
    j: int,
)
    requires
        item_at(ms, path) is Some,
        0 <= j < path.len(),
        j > 0 ==> known_agent_at(ms, path.take(j), ids),
        forall|k: int|
            j < k < path.len() ==> !(#[trigger] known_agent_at(ms, path.take(k), ids)),
    ensures
        session_above(ms, outer, ids, path) == (if j == 0 {
            outer
        } else {
            let agent = item_at(ms, path.take(j))->0;
            Some(SessionModel { agent: agent.name, root: ids[agent.root->0] }.id())
        }),
    decreases path.len(),
{
    if path.len() > 1 {
        let first = ms[path[0]];
        let rest = path.drop_first();
        path_goes_on(ms, path, 1);
        if j == 0 {
            assert(!known_agent_at(ms, path.take(1), ids));
        }
        let j1 = if j == 0 {
            0
        } else {
            j - 1
        };
        assert forall|k: int| j1 < k < rest.len() implies !(#[trigger] known_agent_at(
            first.children,
            rest.take(k),
            ids,
        )) by {
            path_goes_on(ms, path, k);
            assert(!known_agent_at(ms, path.take(k + 1), ids));
        }
        if j1 > 0 {
            path_goes_on(ms, path, j1);
        }
        session_above_is_the_nearest(
            first.children,
            session_at(first, outer, ids),
            ids,
            rest,
            j1,
        );
    }
}

/// What one item of a forest adds stands in what the forest adds.
proof fn part_of_the_forest(
    ms: Seq<ItemModel>,
    outer: Option<u64>,
    ids: Map<u32, ProcessIdentity>,
    k: int,
)
    requires
        0 <= k < ms.len(),
    ensures
        forall|i: int|
            0 <= i < of_item(ms[k], outer, ids).owned.len() ==> of_items(
                ms,
                outer,
                ids,
            ).owned.contains(#[trigger] of_item(ms[k], outer, ids).owned[i]),
        forall|i: int|
            0 <= i < of_item(ms[k], outer, ids).sessions.len() ==> of_items(
                ms,
                outer,
                ids,
            ).sessions.contains(#[trigger] of_item(ms[k], outer, ids).sessions[i]),
    decreases ms.len(),
{
    let front = of_items(ms.drop_last(), outer, ids);
    let last = of_item(ms.last(), outer, ids);
    let all = of_items(ms, outer, ids);
    let one = of_item(ms[k], outer, ids);
    assert(all == both(front, last));
    if k < ms.len() - 1 {
        part_of_the_forest(ms.drop_last(), outer, ids, k);
        assert(ms.drop_last()[k] == ms[k]);
        assert forall|i: int| 0 <= i < one.owned.len() implies all.owned.contains(
            #[trigger] one.owned[i],
        ) by {
            assert(front.owned.contains(one.owned[i]));
            let n = choose|n: int| 0 <= n < front.owned.len() && front.owned[n] == one.owned[i];
            assert(all.owned[n] == one.owned[i]);
        }
        assert forall|i: int| 0 <= i < one.sessions.len() implies all.sessions.contains(
            #[trigger] one.sessions[i],
        ) by {
            assert(front.sessions.contains(one.sessions[i]));
            let n = choose|n: int|
                0 <= n < front.sessions.len() && front.sessions[n] == one.sessions[i];
            assert(all.sessions[n] == one.sessions[i]);
        }
    } else {
        assert forall|i: int| 0 <= i < one.owned.len() implies all.owned.contains(
            #[trigger] one.owned[i],
        ) by {
            assert(all.owned[front.owned.len() + i] == one.owned[i]);
        }
        assert forall|i: int| 0 <= i < one.sessions.len() implies all.sessions.contains(
            #[trigger] one.sessions[i],
        ) by {
            assert(all.sessions[front.sessions.len() + i] == one.sessions[i]);
        }
    }
}

/// What the forest below an item adds stands in what the item adds.
proof fn part_of_the_item(
    m: ItemModel,
    outer: Option<u64>,
    ids: Map<u32, ProcessIdentity>,
    owned: OwnedModel,
    session: SessionModel,
)
    ensures
        of_items(m.children, session_at(m, outer, ids), ids).owned.contains(owned) ==> of_item(
            m,
            outer,
            ids,
        ).owned.contains(owned),
        of_items(m.children, session_at(m, outer, ids), ids).sessions.contains(session) ==> of_item(
            m,
            outer,
            ids,
        ).sessions.contains(session),
{
    let own = own_part(m, outer, ids);
    let below = of_items(m.children, session_at(m, outer, ids), ids);
    let all = of_item(m, outer, ids);
    assert(all == both(own, below));
    if below.owned.contains(owned) {
        let n = choose|n: int| 0 <= n < below.owned.len() && below.owned[n] == owned;
        assert(all.owned[own.owned.len() + n] == owned);
    }
    if below.sessions.contains(session) {
        let n = choose|n: int| 0 <= n < below.sessions.len() && below.sessions[n] == session;
        assert(all.sessions[own.sessions.len() + n] == session);
    }
}

proof fn resource_below_a_session_is_owned(
    ms: Seq<ItemModel>,
    outer: Option<u64>,
    ids: Map<u32, ProcessIdentity>,
    path: Seq<int>,
)
    requires
        known_resource_at(ms, path, ids),
        session_above(ms, outer, ids, path) is Some,
    ensures
        ({
            let m = item_at(ms, path)->0;
            of_items(ms, outer, ids).owned.contains(
                OwnedModel {
                    kind: m.category,
                    root: ids[m.root->0],
                    members: known(m.pids, ids),
                    session: session_above(ms, outer, ids, path)->0,
                },
            )
        }),
    decreases path.len(),
{
    let m = item_at(ms, path)->0;
    let o = OwnedModel {
        kind: m.category,
        root: ids[m.root->0],
        members: known(m.pids, ids),
        session: session_above(ms, outer, ids, path)->0,
    };
    let k = path[0];
    let one = of_item(ms[k], outer, ids);
    part_of_the_forest(ms, outer, ids, k);
    if path.len() == 1 {
        assert(one.owned[0] == o);
    } else {
        let inner = session_at(ms[k], outer, ids);
        resource_below_a_session_is_owned(ms[k].children, inner, ids, path.drop_first());
        part_of_the_item(ms[k], outer, ids, o, arbitrary());
        let n = choose|n: int| 0 <= n < one.owned.len() && one.owned[n] == o;
        assert(one.owned[n] == o);
    }
}

/// The members of a resource are the identities of its processes, in order:
/// each pid that has one is among them, and nothing else is.
pub proof fn members_are_the_known_processes(pids: Seq<u32>, ids: Map<u32, ProcessIdentity>)
    ensures
        known(pids, ids) == pids.filter(|pid: u32| ids.contains_key(pid)).map_values(
            |pid: u32| ids[pid],
        ),
        forall|id: ProcessIdentity|
            #[trigger] known(pids, ids).contains(id) <==> exists|i: int|
                0 <= i < pids.len() && ids.contains_key(#[trigger] pids[i]) && ids[pids[i]] == id,
    decreases pids.len(),
{
    let has = |pid: u32| ids.contains_key(pid);
    let of = |pid: u32| ids[pid];
    reveal(Seq::filter);
    if pids.len() > 0 {
        let rest = pids.drop_last();
        members_are_the_known_processes(rest, ids);
        assert(known(pids, ids) =~= pids.filter(has).map_values(of));
        assert forall|id: ProcessIdentity|
            #[trigger] known(pids, ids).contains(id) <==> exists|i: int|
                0 <= i < pids.len() && ids.contains_key(#[trigger] pids[i]) && ids[pids[i]]
                    == id by {
            let all = known(pids, ids);
            let some = known(rest, ids);
            if all.contains(id) {
                let n = choose|n: int| 0 <= n < all.len() && all[n] == id;
                if n < some.len() {
                    assert(some[n] == id);
                    assert(some.contains(id));
                    let i = choose|i: int|
                        0 <= i < rest.len() && ids.contains_key(#[trigger] rest[i]) && ids[rest[i]]
                            == id;
                    assert(pids[i] == rest[i]);
                } else {
                    assert(pids[pids.len() - 1] == pids.last());
                }
            }
            if exists|i: int|
                0 <= i < pids.len() && ids.contains_key(#[trigger] pids[i]) && ids[pids[i]] == id {
                let i = choose|i: int|
                    0 <= i < pids.len() && ids.contains_key(#[trigger] pids[i]) && ids[pids[i]]
                        == id;
                if i < rest.len() {
                    assert(rest[i] == pids[i]);
                    assert(some.contains(id));
                    let n = choose|n: int| 0 <= n < some.len() && some[n] == id;
                    assert(all[n] == id);
                } else {
                    assert(all.last() == id);
                }
            }
        }
    } else {
        assert(known(pids, ids) =~= pids.filter(has).map_values(of));
    }
}

/// Everything below an agent with an identity is owned: for an item whose
/// own root identity is known there is a resource of its category, with that
/// root and the session of the nearest such agent above it, whose members are
/// the identities of the item's pids, every one that is known and no other.
pub proof fn item_below_an_agent_is_owned_with_all_its_processes(
    ms: Seq<ItemModel>,
    ids: Map<u32, ProcessIdentity>,
    path: Seq<int>,
    j: int,
)
    requires
        known_resource_at(ms, path, ids),
        nearest_agent(ms, path, j, ids),
    ensures
        ({
            let m = item_at(ms, path)->0;
            let agent = item_at(ms, path.take(j))->0;
            exists|i: int|
                0 <= i < of_items(ms, None, ids).owned.len() && {
                    let o = #[trigger] of_items(ms, None, ids).owned[i];
                    &&& o.kind == m.category
                    &&& o.root == ids[m.root->0]
                    &&& o.session == SessionModel {
                        agent: agent.name,
                        root: ids[agent.root->0],
                    }.id()
                    &&& forall|n: int|
                        0 <= n < m.pids.len() && ids.contains_key(#[trigger] m.pids[n])
                            ==> o.members.contains(ids[m.pids[n]])
                    &&& forall|id: ProcessIdentity| #[trigger]
                        o.members.contains(id) ==> exists|n: int|
                            0 <= n < m.pids.len() && ids.contains_key(#[trigger] m.pids[n])
                                && ids[m.pids[n]] == id
                    &&& o.members == m.pids.filter(|pid: u32| ids.contains_key(pid)).map_values(
                        |pid: u32| ids[pid],
                    )
                }
        }),
{
    let m = item_at(ms, path)->0;
    session_above_is_the_nearest(ms, None, ids, path, j);
    resource_below_a_session_is_owned(ms, None, ids, path);
    members_are_the_known_processes(m.pids, ids);
    let o = OwnedModel {
        kind: m.category,
        root: ids[m.root->0],
        members: known(m.pids, ids),
        session: session_above(ms, None, ids, path)->0,
    };
    let all = of_items(ms, None, ids).owned;
    let i = choose|i: int| 0 <= i < all.len() && all[i] == o;
    assert(all[i] == o);
    assert forall|n: int|
        0 <= n < m.pids.len() && ids.contains_key(#[trigger] m.pids[n]) implies o.members.contains(
        ids[m.pids[n]],
    ) by {}
}

/// Every agent with an identity, wherever it stands, starts a session of its
/// name and root.
pub proof fn known_agent_starts_a_session(
    ms: Seq<ItemModel>,
    outer: Option<u64>,
    ids: Map<u32, ProcessIdentity>,
    path: Seq<int>,
)
    requires
        known_agent_at(ms, path, ids),
    ensures
        of_items(ms, outer, ids).sessions.contains(
            SessionModel {
                agent: item_at(ms, path)->0.name,
                root: ids[item_at(ms, path)->0.root->0],
            },
        ),
    decreases path.len(),
{
    let m = item_at(ms, path)->0;
    let s = SessionModel { agent: m.name, root: ids[m.root->0] };
    let k = path[0];
    let one = of_item(ms[k], outer, ids);
    part_of_the_forest(ms, outer, ids, k);
    if path.len() == 1 {
        assert(one.sessions[0] == s);
    } else {
        known_agent_starts_a_session(
            ms[k].children,
            session_at(ms[k], outer, ids),
            ids,
            path.drop_first(),
        );
        part_of_the_item(ms[k], outer, ids, arbitrary(), s);
        let n = choose|n: int| 0 <= n < one.sessions.len() && one.sessions[n] == s;
        assert(one.sessions[n] == s);
    }
}

proof fn path_below(ms: Seq<ItemModel>, k: int, rest: Seq<int>)
    requires
        0 <= k < ms.len(),
        rest.len() > 0,
    ensures
        item_at(ms, seq![k] + rest) == item_at(ms[k].children, rest),
        (seq![k] + rest).drop_first() == rest,
{
    assert((seq![k] + rest).drop_first() =~= rest);
}

/// A resource that is owned stands somewhere in the forest.
proof fn owned_resource_has_a_place(
    ms: Seq<ItemModel>,
    outer: Option<u64>,
    ids: Map<u32, ProcessIdentity>,
    i: int,
) -> (path: Seq<int>)
    requires
        0 <= i < of_items(ms, outer, ids).owned.len(),
    ensures
        known_resource_at(ms, path, ids),
        ({
            let m = item_at(ms, path)->0;
            let o = of_items(ms, outer, ids).owned[i];
            &&& o.kind == m.category
            &&& o.root == ids[m.root->0]
            &&& o.members == known(m.pids, ids)
            &&& session_above(ms, outer, ids, path) == Some(o.session)
        }),
    decreases ms,
{
    let front = of_items(ms.drop_last(), outer, ids);
    let n = ms.len() - 1;
    if i < front.owned.len() {
        let path = owned_resource_has_a_place(ms.drop_last(), outer, ids, i);
        assert(ms.drop_last()[path[0]] == ms[path[0]]);
        path
    } else {
        let m = ms.last();
        let own = own_part(m, outer, ids);
        let inner = session_at(m, outer, ids);
        let at = i - front.owned.len();
        assert(of_items(ms, outer, ids).owned[i] == of_item(m, outer, ids).owned[at]);
        if at < own.owned.len() {
            assert(of_item(m, outer, ids).owned[at] == own.owned[at]);
            let path = seq![n];
            assert(item_at(ms, path) == Some(m));
            path
        } else {
            assert(of_item(m, outer, ids).owned[at] == of_items(
                m.children,
                inner,
                ids,
            ).owned[at - own.owned.len()]);
            let rest = owned_resource_has_a_place(m.children, inner, ids, at - own.owned.len());
            path_below(ms, n, rest);
            seq![n] + rest
        }
    }
}

/// The nearest agent on the way to a place that has a session.
proof fn session_comes_from_an_agent(
    ms: Seq<ItemModel>,
    outer: Option<u64>,
    ids: Map<u32, ProcessIdentity>,
    path: Seq<int>,
) -> (j: int)
    requires
        item_at(ms, path) is Some,
    ensures
        0 <= j < path.len(),
        j > 0 ==> known_agent_at(ms, path.take(j), ids),
        forall|k: int|
            j < k < path.len() ==> !(#[trigger] known_agent_at(ms, path.take(k), ids)),
    decreases path.len(),
{
    if path.len() == 1 {
        0
    } else {
        let first = ms[path[0]];
        let rest = path.drop_first();
        let j1 = session_comes_from_an_agent(
            first.children,
            session_at(first, outer, ids),
            ids,
            rest,
        );
        path_goes_on(ms, path, 1);
        if j1 > 0 {
            path_goes_on(ms, path, j1);
        }
        let j = if j1 > 0 {
            j1 + 1
        } else if known_agent_at(ms, path.take(1), ids) {
            1
        } else {
            0
        };
        assert forall|k: int| j < k < path.len() implies !(#[trigger] known_agent_at(
            ms,
            path.take(k),
            ids,
        )) by {
            if k > 1 {
                path_goes_on(ms, path, k - 1);
                assert(!known_agent_at(first.children, rest.take(k - 1), ids));
            }
        }
        j
    }
}

/// Nothing else is owned: every owned resource is an item of the forest with
/// a known root, below an agent with a known identity, and names the nearest
/// such agent's session.
pub proof fn owned_resource_is_an_item_below_an_agent(
    ms: Seq<ItemModel>,
    ids: Map<u32, ProcessIdentity>,
    i: int,
)
    requires
        0 <= i < of_items(ms, None, ids).owned.len(),
    ensures
        exists|path: Seq<int>, j: int|
            {
                let m = item_at(ms, path)->0;
                let agent = item_at(ms, path.take(j))->0;
                let o = of_items(ms, None, ids).owned[i];
                &&& known_resource_at(ms, path, ids)
                &&& #[trigger] nearest_agent(ms, path, j, ids)
                &&& o.kind == m.category
                &&& o.root == ids[m.root->0]
                &&& o.session == SessionModel {
                    agent: agent.name,
                    root: ids[agent.root->0],
                }.id()
            },
{
    let path = owned_resource_has_a_place(ms, None, ids, i);
    let j = session_comes_from_an_agent(ms, None, ids, path);
    session_above_is_the_nearest(ms, None, ids, path, j);
    assert(nearest_agent(ms, path, j, ids));
}

/// A re-parented survivor keeps its resource id, and so does a resource whose
/// members change: the id depends on the root identity alone.
pub proof fn resource_id_depends_on_root(a: OwnedModel, b: OwnedModel)
    requires
        a.root == b.root,
    ensures
        bytes::fnv(resource_bytes(a.root)) == bytes::fnv(resource_bytes(b.root)),
{
}

// ---------------------------------------------------------------------------
// Ownership
// ---------------------------------------------------------------------------

/// The identities of the processes whose start time is known. Of two entries
/// for one pid the later counts.
pub open spec fn identity_map(ps: Seq<ProcessInfo>, boot: BootId) -> Map<u32, ProcessIdentity>
    decreases ps.len(),
{
    if ps.len() == 0 {
        Map::empty()
    } else {
        match ProcessIdentity::of(boot, ps.last()) {
            Some(id) => identity_map(ps.drop_last(), boot).insert(ps.last().pid, id),
            None => identity_map(ps.drop_last(), boot),
        }
    }
}

/// Every pid that has a valid identity (`start_time != 0`), with it.
pub fn identities(ps: &Vec<ProcessInfo>, boot: &BootId) -> (r: HashMap<u32, ProcessIdentity>)
    ensures
        r@ == identity_map(ps@, *boot),
{
    let mut r: HashMap<u32, ProcessIdentity> = HashMap::new();
    let mut i: usize = 0;
    assert(ps@.take(0) =~= Seq::<ProcessInfo>::empty());
    assert(r@ =~= Map::<u32, ProcessIdentity>::empty());
    while i < ps.len()
        invariant
            i <= ps.len(),
            r@ == identity_map(ps@.take(i as int), *boot),
        decreases ps.len() - i,
    {
        assert(ps@.take(i + 1).drop_last() =~= ps@.take(i as int));
        if let Some(id) = ProcessIdentity::from_process(boot, &ps[i]) {
            r.insert(ps[i].pid, id);
        }
        i += 1;
    }
    assert(ps@.take(ps@.len() as int) =~= ps@);
    r
}

/// Assign exact ownership by walking the `RuntimeItem` forest.
///
/// `identities` maps every pid that has a valid `ProcessIdentity`
/// (`start_time != 0`) to it. An agent with an invalid identity has no
/// session, so its subtree can never be durably owned (live-only).
pub fn derive_ownership(
    items: &Vec<RuntimeItem>,
    identities: &HashMap<u32, ProcessIdentity>,
    now: u64,
) -> (r: OwnershipResult)
    ensures
        r.model() == of_items(runtime::models(items@), None, identities@),
        r.is_consistent(now),
{
    let mut out: OwnershipResult = OwnershipResult { sessions: Vec::new(), owned: Vec::new() };
    assert(out.model() =~= nothing());
    walk_all(items, None, identities, now, &mut out);
    assert(both(nothing(), of_items(runtime::models(items@), None, identities@)) =~= of_items(
        runtime::models(items@),
        None,
        identities@,
    ));
    out
}

pub open spec fn id_view(s: Option<RuntimeSessionId>) -> Option<u64> {
    match s {
        Some(s) => Some(s@),
        None => None,
    }
}

fn walk_all(
    items: &Vec<RuntimeItem>,
    outer: Option<RuntimeSessionId>,
    identities: &HashMap<u32, ProcessIdentity>,
    now: u64,
    out: &mut OwnershipResult,
)
    requires
        old(out).is_consistent(now),
    ensures
        final(out).model() == both(
            old(out).model(),
            of_items(runtime::models(items@), id_view(outer), identities@),
        ),
        final(out).is_consistent(now),
    decreases items@, 1nat,
{
    let ghost start = out.model();
    let ghost ms = runtime::models(items@);
    let mut i: usize = 0;
    assert(ms.take(0) =~= Seq::<ItemModel>::empty());
    assert(both(start, nothing()) =~= start);
    while i < items.len()
        invariant
            i <= items.len(),
            ms == runtime::models(items@),
            out.model() == both(start, of_items(ms.take(i as int), id_view(outer), identities@)),
            out.is_consistent(now),
        decreases items.len() - i,
    {
        proof {
            assert(ms.take(i + 1).drop_last() =~= ms.take(i as int));
            assert(ms.take(i + 1).last() == items@[i as int].model());
            assert(decreases_to!(items@ => items@[i as int]));
        }
        let ghost before = of_items(ms.take(i as int), id_view(outer), identities@);
        let ghost more = of_item(ms[i as int], id_view(outer), identities@);
        walk(&items[i], outer, identities, now, out);
        assert(both(both(start, before), more) =~= both(start, both(before, more)));
        i += 1;
    }
    assert(ms.take(ms.len() as int) =~= ms);
}

fn members_of(pids: &Vec<u32>, identities: &HashMap<u32, ProcessIdentity>) -> (r: Vec<
    ProcessIdentity,
>)
    ensures
        r@ == known(pids@, identities@),
{
    let mut r: Vec<ProcessIdentity> = Vec::new();
    let mut i: usize = 0;
    assert(pids@.take(0) =~= Seq::<u32>::empty());
    assert(r@ =~= Seq::<ProcessIdentity>::empty());
    while i < pids.len()
        invariant
            i <= pids.len(),
            r@ == known(pids@.take(i as int), identities@),
        decreases pids.len() - i,
    {
        assert(pids@.take(i + 1).drop_last() =~= pids@.take(i as int));
        if let Some(id) = identities.get(&pids[i]) {
            r.push(*id);
        }
        i += 1;
    }
    assert(pids@.take(pids@.len() as int) =~= pids@);
    r
}

fn walk(
    item: &RuntimeItem,
    outer: Option<RuntimeSessionId>,
    identities: &HashMap<u32, ProcessIdentity>,
    now: u64,
    out: &mut OwnershipResult,
)
    requires
        old(out).is_consistent(now),
    ensures
        final(out).model() == both(
            old(out).model(),
            of_item(item.model(), id_view(outer), identities@),
        ),
        final(out).is_consistent(now),
    decreases item, 0nat,
{
    let ghost m = item.model();
    let ghost start = out.model();
    let ghost ids = identities@;
    let root: Option<ProcessIdentity> = match item.root_pid {
        Some(pid) => match identities.get(&pid) {
            Some(id) => Some(*id),
            None => None,
        },
        None => None,
    };
    assert(root == root_identity(m, ids));
    let mut session: Option<RuntimeSessionId> = outer;
    let ghost own = own_part(m, id_view(outer), ids);
    assert(both(start, nothing()) =~= start);
    if let Some(root) = root {
        if item.category == Category::Agent {
            // A valid agent root starts a session; the nearest enclosing
            // session wins for nested agents.
            let s: RuntimeSession = RuntimeSession::new(
                item.display_name.as_str(),
                root,
                None,
                now,
            );
            session = Some(s.id);
            let ghost sm = s.session_model();
            assert(s.is_fresh(now));
            out.sessions.push(s);
            assert(out.model() =~= both(start, own));
        } else if let Some(sid) = outer {
            // Descendants under a session are exactly owned.
            let members: Vec<ProcessIdentity> = members_of(&item.process_ids, identities);
            let o: OwnedResource = OwnedResource {
                resource: ResourceId::of_root(&root),
                kind: item.category,
                root,
                members,
                session: sid,
            };
            let ghost om = o.owned_model();
            out.owned.push(o);
            assert(out.model() =~= both(start, own));
        }
    }
    assert(out.model() == both(start, own));
    assert(id_view(session) == session_at(m, id_view(outer), ids));
    let ghost below = of_items(m.children, id_view(session), ids);
    proof {
        runtime::model_children(*item);
        assert(decreases_to!(item => item.children@));
    }
    walk_all(&item.children, session, identities, now, out);
    assert(both(both(start, own), below) =~= both(start, both(own, below)));
}

/// A pid has an identity where an entry for it has a start time, and it is
/// that of the last such entry.
pub proof fn the_last_start_time_identifies(
    ps: Seq<ProcessInfo>,
    boot: BootId,
    pid: u32,
    i: int,
)
    requires
        0 <= i < ps.len(),
        ps[i].pid == pid,
        ps[i].start_time != 0,
        forall|j: int| i < j < ps.len() ==> (#[trigger] ps[j]).pid != pid || ps[j].start_time == 0,
    ensures
        identity_map(ps, boot).dom().contains(pid),
        identity_map(ps, boot)[pid].pid == pid,
        identity_map(ps, boot)[pid].start_time == ps[i].start_time,
        identity_map(ps, boot)[pid].boot_id == boot,
    decreases ps.len(),
{
    let front = ps.drop_last();
    assert(ps.last() == ps[ps.len() - 1]);
    if i < front.len() {
        assert(front[i] == ps[i]);
        assert forall|j: int| i < j < front.len() implies (#[trigger] front[j]).pid != pid
            || front[j].start_time == 0 by {
            assert(ps[j] == front[j]);
        }
        the_last_start_time_identifies(front, boot, pid, i);
    }
}

/// Without a start time there is no identity.
pub proof fn without_a_start_time_there_is_no_identity(
    ps: Seq<ProcessInfo>,
    boot: BootId,
    pid: u32,
)
    requires
        forall|j: int| 0 <= j < ps.len() ==> (#[trigger] ps[j]).pid != pid || ps[j].start_time == 0,
    ensures
        !identity_map(ps, boot).dom().contains(pid),
    decreases ps.len(),
{
    if ps.len() > 0 {
        let front = ps.drop_last();
        assert(ps.last() == ps[ps.len() - 1]);
        assert forall|j: int| 0 <= j < front.len() implies (#[trigger] front[j]).pid != pid
            || front[j].start_time == 0 by {
            assert(ps[j] == front[j]);
        }
        without_a_start_time_there_is_no_identity(front, boot, pid);
    }
}

} // verus!

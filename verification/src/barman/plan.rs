//! Cleanup plans.
//!
//! A plan is advisory and used once; it expires.

use crate::barman::document::{ResourceDoc, RowModel, SnapshotDoc};
use crate::barman::snapshot;
use crate::bytes;
use crate::bytes::le_bytes_of;
use crate::path;
use crate::random::random_bytes;
use crate::sorting;
use crate::sorting::{sort, Keyed};
use crate::text;
use crate::text::{chars_of, hex_of, same, text_starts};
use vstd::prelude::*;

verus! {

/// Plans are single-use; entries expire after this long.
pub const PLAN_TTL_SECS: u64 = 300;

#[derive(Debug, Clone)]
pub struct CleanupPlanDoc {
    pub plan_id: String,
    pub items: Vec<CleanupItemDoc>,
    pub protected: Vec<ProtectedDoc>,
    pub estimated_reclaim_bytes: u64,
}

#[derive(Debug, Clone)]
pub struct CleanupItemDoc {
    pub resource_id: String,
    pub selected: bool,
    pub safe: bool,
    pub reason: String,
}

#[derive(Debug, Clone)]
pub struct ProtectedDoc {
    pub resource_id: String,
    pub reason: String,
}

/// A plan's selection, kept across invocations.
#[derive(Debug, Clone, PartialEq, Eq)]
pub struct RememberedPlan {
    pub issued_at: u64,
    pub selected: Vec<String>,
}

#[verifier::ext_equal]
pub struct PlanItem {
    pub resource_id: Seq<char>,
    pub selected: bool,
    pub safe: bool,
    pub reason: Seq<char>,
}

#[verifier::ext_equal]
pub struct Guarded {
    pub resource_id: Seq<char>,
    pub reason: Seq<char>,
}

impl Keyed for CleanupItemDoc {
    type Model = PlanItem;

    open spec fn modelled(self) -> PlanItem {
        PlanItem {
            resource_id: self.resource_id@,
            selected: self.selected,
            safe: self.safe,
            reason: self.reason@,
        }
    }

    open spec fn key(m: PlanItem) -> Seq<char> {
        m.resource_id
    }

    fn sort_text(&self) -> (r: &str) {
        self.resource_id.as_str()
    }
}

impl Keyed for ProtectedDoc {
    type Model = Guarded;

    open spec fn modelled(self) -> Guarded {
        Guarded { resource_id: self.resource_id@, reason: self.reason@ }
    }

    open spec fn key(m: Guarded) -> Seq<char> {
        m.resource_id
    }

    fn sort_text(&self) -> (r: &str) {
        self.resource_id.as_str()
    }
}

// ---------------------------------------------------------------------------
// The plan
// ---------------------------------------------------------------------------

/// The first reason of the last row with an id.
pub open spec fn reason_of(rows: Seq<RowModel>, id: Seq<char>) -> Seq<char>
    decreases rows.len(),
{
    if rows.len() == 0 {
        "leftover candidate"@
    } else if rows.last().id == id {
        if rows.last().reasons.len() > 0 {
            rows.last().reasons[0]
        } else {
            "leftover candidate"@
        }
    } else {
        reason_of(rows.drop_last(), id)
    }
}

pub open spec fn plan_item(rows: Seq<RowModel>, id: Seq<char>) -> PlanItem {
    PlanItem { resource_id: id, selected: true, safe: true, reason: reason_of(rows, id) }
}

/// The leftovers of a document, all selected, by id.
pub open spec fn plan_items(rows: Seq<RowModel>, leftovers: Seq<Seq<char>>) -> Seq<PlanItem> {
    sorting::sorted::<CleanupItemDoc>(
        Seq::new(leftovers.len(), |i: int| plan_item(rows, leftovers[i])),
    )
}

pub open spec fn guard_reason(kind: Seq<char>) -> Seq<char> {
    if kind == "database"@ {
        "Persistent database service"@
    } else if kind == "container"@ {
        "Persistent volume"@
    } else {
        "Persistent service"@
    }
}

pub open spec fn guarded_rows(rows: Seq<RowModel>) -> Seq<Guarded>
    decreases rows.len(),
{
    if rows.len() == 0 {
        Seq::empty()
    } else {
        let rest = guarded_rows(rows.drop_last());
        if rows.last().classification == "persistent"@ {
            rest.push(
                Guarded { resource_id: rows.last().id, reason: guard_reason(rows.last().kind) },
            )
        } else {
            rest
        }
    }
}

/// What persists, by id.
pub open spec fn plan_guards(rows: Seq<RowModel>) -> Seq<Guarded> {
    sorting::sorted::<ProtectedDoc>(guarded_rows(rows))
}

fn why(rows: &Vec<ResourceDoc>, id: &str) -> (r: String)
    ensures
        r@ == reason_of(sorting::all_modelled(rows@), id@),
{
    let ghost ms = sorting::all_modelled(rows@);
    let mut n: usize = rows.len();
    assert(ms.take(ms.len() as int) =~= ms);
    while n > 0
        invariant
            n <= rows.len(),
            ms == sorting::all_modelled(rows@),
            reason_of(ms, id@) == reason_of(ms.take(n as int), id@),
        decreases n,
    {
        let row: &ResourceDoc = &rows[n - 1];
        assert(ms.take(n as int).last() == row.modelled());
        assert(ms.take(n as int).drop_last() =~= ms.take(n - 1));
        if same(row.id.as_str(), id) {
            if row.reasons.len() > 0 {
                assert(row.modelled().reasons[0] == row.reasons@[0]@);
                return row.reasons[0].clone();
            }
            return "leftover candidate".to_owned();
        }
        n -= 1;
    }
    "leftover candidate".to_owned()
}

fn selection(doc: &SnapshotDoc) -> (r: Vec<CleanupItemDoc>)
    ensures
        sorting::all_modelled(r@) == plan_items(
            sorting::all_modelled(doc.resources@),
            text::texts(doc.leftovers.resource_ids@),
        ),
{
    let list: &Vec<String> = &doc.leftovers.resource_ids;
    let ghost rows = sorting::all_modelled(doc.resources@);
    let ghost want = Seq::new(
        text::texts(list@).len(),
        |i: int| plan_item(rows, text::texts(list@)[i]),
    );
    let mut r: Vec<CleanupItemDoc> = Vec::new();
    let mut i: usize = 0;
    assert(sorting::all_modelled(r@) =~= want.take(0));
    while i < list.len()
        invariant
            i <= list.len(),
            list@ == doc.leftovers.resource_ids@,
            rows == sorting::all_modelled(doc.resources@),
            want.len() == list@.len(),
            forall|k: int|
                0 <= k < want.len() ==> #[trigger] want[k] == plan_item(rows, list@[k]@),
            sorting::all_modelled(r@) == want.take(i as int),
        decreases list.len() - i,
    {
        let ghost before = sorting::all_modelled(r@);
        let item: CleanupItemDoc = CleanupItemDoc {
            resource_id: list[i].clone(),
            selected: true,
            safe: true,
            reason: why(&doc.resources, list[i].as_str()),
        };
        let ghost im = item.modelled();
        assert(want[i as int] == im);
        r.push(item);
        assert(sorting::all_modelled(r@) =~= before.push(im));
        assert(want.take(i + 1) =~= before.push(im));
        i += 1;
    }
    assert(want.take(want.len() as int) =~= want);
    sort(r)
}

fn guards(rows: &Vec<ResourceDoc>) -> (r: Vec<ProtectedDoc>)
    ensures
        sorting::all_modelled(r@) == plan_guards(sorting::all_modelled(rows@)),
{
    let ghost ms = sorting::all_modelled(rows@);
    let mut r: Vec<ProtectedDoc> = Vec::new();
    let mut i: usize = 0;
    assert(ms.take(0) =~= Seq::<RowModel>::empty());
    assert(sorting::all_modelled(r@) =~= Seq::<Guarded>::empty());
    while i < rows.len()
        invariant
            i <= rows.len(),
            ms == sorting::all_modelled(rows@),
            sorting::all_modelled(r@) == guarded_rows(ms.take(i as int)),
        decreases rows.len() - i,
    {
        assert(ms.take(i + 1).drop_last() =~= ms.take(i as int));
        assert(ms.take(i + 1).last() == rows@[i as int].modelled());
        let row: &ResourceDoc = &rows[i];
        if same(row.classification.as_str(), "persistent") {
            let ghost before = sorting::all_modelled(r@);
            let reason: &'static str = if same(row.kind.as_str(), "database") {
                "Persistent database service"
            } else if same(row.kind.as_str(), "container") {
                "Persistent volume"
            } else {
                "Persistent service"
            };
            let p: ProtectedDoc = ProtectedDoc {
                resource_id: row.id.clone(),
                reason: reason.to_owned(),
            };
            let ghost pm = p.modelled();
            r.push(p);
            assert(sorting::all_modelled(r@) =~= before.push(pm));
        }
        i += 1;
    }
    assert(ms.take(ms.len() as int) =~= ms);
    sort(r)
}

/// Derive a cleanup plan strictly from the rows classified as leftovers.
/// Persistent databases and services are never selected: they are listed as
/// protected.
pub fn cleanup_plan(doc: &SnapshotDoc, now: u64) -> (r: CleanupPlanDoc)
    ensures
        is_plan_id(r.plan_id@),
        r.plan_id@.len() == 20,
        sorting::all_modelled(r.items@) == plan_items(
            sorting::all_modelled(doc.resources@),
            text::texts(doc.leftovers.resource_ids@),
        ),
        sorting::all_modelled(r.protected@) == plan_guards(sorting::all_modelled(doc.resources@)),
        r.estimated_reclaim_bytes == doc.leftovers.estimated_reclaim_bytes,
{
    CleanupPlanDoc {
        plan_id: new_plan_id(now),
        items: selection(doc),
        protected: guards(&doc.resources),
        estimated_reclaim_bytes: doc.leftovers.estimated_reclaim_bytes,
    }
}

// ---------------------------------------------------------------------------
// Plan ids
// ---------------------------------------------------------------------------

pub open spec fn is_hex(c: char) -> bool {
    ('0' <= c <= '9') || ('a' <= c <= 'f') || ('A' <= c <= 'F')
}

/// `cleanup_` and hexadecimal digits, nothing else: an id that is safe as a
/// file name.
pub open spec fn is_plan_id(s: Seq<char>) -> bool {
    text::starts_with(s, "cleanup_"@) && forall|i: int|
        8 <= i < s.len() ==> is_hex(#[trigger] s[i])
}

/// Two lowercase hexadecimal digits for each byte.
pub open spec fn hex_bytes(b: Seq<u8>) -> Seq<char>
    decreases b.len(),
{
    if b.len() == 0 {
        Seq::empty()
    } else {
        hex_bytes(b.drop_last()) + text::hex_fixed(b.last() as nat, 2)
    }
}

/// The bytes of a plan id: chance, or without it the clock.
pub open spec fn plan_bytes(chance: Option<Vec<u8>>, now: u64) -> Seq<u8> {
    match chance {
        Some(v) => v@,
        None => bytes::le_bytes(now as nat, 8).take(6),
    }
}

proof fn hex_of_byte(b: u8)
    ensures
        text::hex_fixed(b as nat, 2).len() == 2,
        is_hex(text::hex_fixed(b as nat, 2)[0]),
        is_hex(text::hex_fixed(b as nat, 2)[1]),
{
    reveal_with_fuel(text::hex_fixed, 3);
    let n = b as nat;
    let hi = n / 16;
    assert(hi < 16);
    assert(hi % 16 == hi);
    assert(text::hex_fixed(n, 2) =~= seq![text::hex_digit(hi % 16), text::hex_digit(n % 16)]);
    digit_is_hex(hi % 16);
    digit_is_hex(n % 16);
}

proof fn digit_is_hex(d: nat)
    requires
        d < 16,
    ensures
        is_hex(text::hex_digit(d)),
{
}

proof fn hex_bytes_are_hex(b: Seq<u8>)
    ensures
        hex_bytes(b).len() == 2 * b.len(),
        forall|i: int| 0 <= i < hex_bytes(b).len() ==> is_hex(#[trigger] hex_bytes(b)[i]),
    decreases b.len(),
{
    if b.len() > 0 {
        hex_bytes_are_hex(b.drop_last());
        hex_of_byte(b.last());
        let rest = hex_bytes(b.drop_last());
        let two = text::hex_fixed(b.last() as nat, 2);
        assert forall|i: int| 0 <= i < hex_bytes(b).len() implies is_hex(
            #[trigger] hex_bytes(b)[i],
        ) by {
            if i < rest.len() {
                assert(hex_bytes(b)[i] == rest[i]);
            } else {
                assert(hex_bytes(b)[i] == two[i - rest.len()]);
            }
        }
    }
}

/// Whatever its bytes are, an id that is made is an id that is accepted.
pub proof fn made_ids_are_accepted(b: Seq<u8>)
    ensures
        is_plan_id("cleanup_"@ + hex_bytes(b)),
{
    reveal_strlit("cleanup_");
    hex_bytes_are_hex(b);
    let s = "cleanup_"@ + hex_bytes(b);
    assert(s.subrange(0, 8) =~= "cleanup_"@);
    assert forall|i: int| 8 <= i < s.len() implies is_hex(#[trigger] s[i]) by {
        assert(s[i] == hex_bytes(b)[i - 8]);
    }
}

/// An accepted id holds neither a slash nor a dot behind its prefix, so it
/// names no other directory.
pub proof fn accepted_ids_stay_in_place(s: Seq<char>)
    requires
        is_plan_id(s),
    ensures
        forall|i: int| 0 <= i < s.len() ==> #[trigger] s[i] != '/' && s[i] != '.',
{
    reveal_strlit("cleanup_");
    assert forall|i: int| 0 <= i < s.len() implies #[trigger] s[i] != '/' && s[i] != '.' by {
        if i < 8 {
            assert(s.subrange(0, 8)[i] == s[i]);
            assert("cleanup_"@[i] == s[i]);
        }
    }
}

/// The plan id of some bytes.
pub fn plan_id_of(chance: &Option<Vec<u8>>, now: u64) -> (r: String)
    ensures
        r@ == "cleanup_"@ + hex_bytes(plan_bytes(*chance, now)),
{
    let clock: Vec<u8> = le_bytes_of(now as u128, 6);
    let b: &Vec<u8> = match chance {
        Some(v) => v,
        None => {
            proof {
                low_bytes(now as nat, 8, 6);
            }
            &clock
        },
    };
    let mut hex: String = String::new();
    let mut i: usize = 0;
    assert(b@.take(0) =~= Seq::<u8>::empty());
    assert(hex@ =~= Seq::<char>::empty());
    while i < b.len()
        invariant
            i <= b.len(),
            hex@ == hex_bytes(b@.take(i as int)),
        decreases b.len() - i,
    {
        assert(b@.take(i + 1).drop_last() =~= b@.take(i as int));
        hex = hex.concat(hex_of(b[i] as u128, 2).as_str());
        i += 1;
    }
    assert(b@.take(b@.len() as int) =~= b@);
    "cleanup_".to_owned().concat(hex.as_str())
}

/// Fewer bytes of a number are the first of its bytes.
proof fn low_bytes(n: nat, k: nat, j: nat)
    requires
        j <= k,
    ensures
        bytes::le_bytes(n, k).len() == k,
        bytes::le_bytes(n, k).take(j as int) == bytes::le_bytes(n, j),
    decreases k,
{
    if k > 0 {
        low_bytes(n / 256, (k - 1) as nat, if j > 0 {
            (j - 1) as nat
        } else {
            0
        });
        if j > 0 {
            let rest = bytes::le_bytes(n / 256, (k - 1) as nat);
            assert(bytes::le_bytes(n, k).take(j as int) =~= seq![(n % 256) as u8] + rest.take(
                j - 1,
            ));
        } else {
            assert(bytes::le_bytes(n, k).take(0) =~= bytes::le_bytes(n, 0));
        }
    } else {
        assert(bytes::le_bytes(n, 0).take(0) =~= bytes::le_bytes(n, 0));
    }
}

/// A fresh plan id: six bytes of chance, or of the clock where there is none.
pub fn new_plan_id(now: u64) -> (r: String)
    ensures
        is_plan_id(r@),
        r@.len() == 20,
{
    let chance: Option<Vec<u8>> = random_bytes(6);
    let r: String = plan_id_of(&chance, now);
    proof {
        let b = plan_bytes(chance, now);
        low_bytes(now as nat, 8, 6);
        made_ids_are_accepted(b);
        hex_bytes_are_hex(b);
        reveal_strlit("cleanup_");
    }
    r
}

// ---------------------------------------------------------------------------
// Remembering
// ---------------------------------------------------------------------------

/// Where plans are kept: below the state directory, or the directory of the
/// store, or else the temporary directory.
pub open spec fn plans_place(state_dir: Option<Seq<char>>, store_path: Seq<char>) -> Seq<char> {
    let base = match state_dir {
        Some(d) => Some(d),
        None => path::parent_of(store_path),
    };
    match base {
        Some(b) => path::joined(b, "barman-plans"@),
        None => "/tmp/wyd-barman-plans"@,
    }
}

pub fn plans_dir(state_dir: &Option<String>, store_path: &str) -> (r: String)
    ensures
        r@ == plans_place(text::text_of(*state_dir), store_path@),
{
    match state_dir {
        Some(d) => path::join(d.as_str(), "barman-plans"),
        None => match path::parent(store_path) {
            Some(p) => path::join(p.as_str(), "barman-plans"),
            None => "/tmp/wyd-barman-plans".to_owned(),
        },
    }
}

pub open spec fn is_expired(issued_at: u64, now: u64) -> bool {
    now >= issued_at + PLAN_TTL_SECS
}

/// A remembered plan is past its time. A clock that ran back does not expire
/// a plan.
pub fn expired(plan: &RememberedPlan, now: u64) -> (r: bool)
    ensures
        r == is_expired(plan.issued_at, now),
{
    now >= plan.issued_at && now - plan.issued_at >= PLAN_TTL_SECS
}

pub open spec fn item_ids(items: Seq<CleanupItemDoc>) -> Seq<Seq<char>> {
    Seq::new(items.len(), |i: int| items[i].resource_id@)
}

/// What is kept of a plan.
pub fn remember_plan(plan: &CleanupPlanDoc, now: u64) -> (r: RememberedPlan)
    ensures
        r.issued_at == now,
        text::texts(r.selected@) == item_ids(plan.items@),
{
    let mut selected: Vec<String> = Vec::new();
    let mut i: usize = 0;
    assert(text::texts(selected@) =~= item_ids(plan.items@).take(0));
    while i < plan.items.len()
        invariant
            i <= plan.items.len(),
            text::texts(selected@) == item_ids(plan.items@).take(i as int),
        decreases plan.items.len() - i,
    {
        let ghost before = text::texts(selected@);
        selected.push(plan.items[i].resource_id.clone());
        assert(text::texts(selected@) =~= before.push(plan.items@[i as int].resource_id@));
        assert(item_ids(plan.items@).take(i + 1) =~= before.push(
            plan.items@[i as int].resource_id@,
        ));
        i += 1;
    }
    assert(item_ids(plan.items@).take(plan.items@.len() as int) =~= item_ids(plan.items@));
    RememberedPlan { issued_at: now, selected }
}

/// The file that a plan is kept in; none for a text that is no plan id.
pub fn plan_file(plan_id: &str) -> (r: Option<String>)
    ensures
        r is Some <==> is_plan_id(plan_id@),
        r matches Some(f) ==> f@ == plan_id@ + ".json"@,
{
    proof {
        reveal_strlit("cleanup_");
    }
    if !text_starts(plan_id, "cleanup_") {
        return None;
    }
    let v: Vec<char> = chars_of(plan_id);
    let mut i: usize = 8;
    while i < v.len()
        invariant
            8 <= i <= v.len(),
            v@ == plan_id@,
            forall|k: int| 8 <= k < i ==> is_hex(#[trigger] plan_id@[k]),
        decreases v.len() - i,
    {
        let c: char = v[i];
        if !(('0' <= c && c <= '9') || ('a' <= c && c <= 'f') || ('A' <= c && c <= 'F')) {
            assert(!is_hex(plan_id@[i as int]));
            return None;
        }
        i += 1;
    }
    Some(plan_id.to_owned().concat(".json"))
}

/// The selection of a plan that was kept, unless it is past its time. A plan
/// is used once: nothing is kept of it afterwards, even where it was too late.
pub fn take_plan(kept: &mut Option<RememberedPlan>, now: u64) -> (r: Option<Vec<String>>)
    ensures
        *final(kept) is None,
        match *old(kept) {
            Some(p) => if is_expired(p.issued_at, now) {
                r is None
            } else {
                r is Some && r->Some_0@ == p.selected@
            },
            None => r is None,
        },
{
    match kept.take() {
        Some(p) => if expired(&p, now) {
            None
        } else {
            Some(p.selected)
        },
        None => None,
    }
}

// ---------------------------------------------------------------------------
// Laws
// ---------------------------------------------------------------------------

/// An id is selected.
pub open spec fn selects(items: Seq<PlanItem>, id: Seq<char>) -> bool {
    exists|k: int| 0 <= k < items.len() && (#[trigger] items[k]).resource_id == id
}

/// An id is that of a row of a classification.
pub open spec fn is_classed(rows: Seq<RowModel>, class: Seq<char>, id: Seq<char>) -> bool {
    exists|i: int|
        0 <= i < rows.len() && (#[trigger] rows[i]).classification == class && rows[i].id == id
}

/// The items of the plan for a table of rows.
pub open spec fn proposed(rows: Seq<RowModel>) -> Seq<PlanItem> {
    plan_items(rows, snapshot::ids_classed(rows, "leftover"@))
}

/// A plan selects the leftovers, all of them and nothing else.
pub proof fn plan_selects_the_leftovers(rows: Seq<RowModel>)
    ensures
        forall|id: Seq<char>| #[trigger]
            selects(proposed(rows), id) <==> is_classed(rows, "leftover"@, id),
{
    broadcast use vstd::seq_lib::group_to_multiset_ensures;

    let list = snapshot::ids_classed(rows, "leftover"@);
    let made = Seq::new(list.len(), |i: int| plan_item(rows, list[i]));
    let items = plan_items(rows, list);
    sorting::sorting_keeps_and_orders::<CleanupItemDoc>(made);
    snapshot::classed_rows_are_listed(rows, "leftover"@);
    assert forall|id: Seq<char>| #[trigger] selects(items, id) <==> is_classed(
        rows,
        "leftover"@,
        id,
    ) by {
        if selects(items, id) {
            let k = choose|k: int| 0 <= k < items.len() && (#[trigger] items[k]).resource_id == id;
            assert(items.contains(items[k]));
            assert(items.to_multiset().count(items[k]) > 0);
            assert(made.contains(items[k]));
            let j = choose|j: int| 0 <= j < made.len() && made[j] == items[k];
            assert(list[j] == id);
            assert(list.contains(id));
        }
        if list.contains(id) {
            let j = choose|j: int| 0 <= j < list.len() && list[j] == id;
            assert(made[j].resource_id == id);
            assert(made.contains(made[j]));
            assert(made.to_multiset().count(made[j]) > 0);
            assert(items.contains(made[j]));
            let k = choose|k: int| 0 <= k < items.len() && items[k] == made[j];
            assert(items[k].resource_id == id);
        }
    }
}

proof fn guarded_facts(rows: Seq<RowModel>)
    ensures
        forall|i: int|
            0 <= i < rows.len() && (#[trigger] rows[i]).classification == "persistent"@
                ==> guarded_rows(rows).contains(
                (Guarded { resource_id: rows[i].id, reason: guard_reason(rows[i].kind) }),
            ),
    decreases rows.len(),
{
    if rows.len() > 0 {
        let front = rows.drop_last();
        let rest = guarded_rows(front);
        let all = guarded_rows(rows);
        guarded_facts(front);
        assert forall|i: int|
            0 <= i < rows.len() && (#[trigger] rows[i]).classification
                == "persistent"@ implies all.contains(
            (Guarded { resource_id: rows[i].id, reason: guard_reason(rows[i].kind) }),
        ) by {
            let g = Guarded { resource_id: rows[i].id, reason: guard_reason(rows[i].kind) };
            if i < front.len() {
                assert(front[i] == rows[i]);
                let k = choose|k: int| 0 <= k < rest.len() && rest[k] == g;
                assert(all[k] == g);
            } else {
                assert(all[all.len() - 1] == g);
            }
        }
    }
}

/// Whatever persists is protected, a database by that name; and where ids are
/// distinct, nothing that persists is selected.
pub proof fn what_persists_is_protected(rows: Seq<RowModel>, i: int)
    requires
        0 <= i < rows.len(),
        rows[i].classification == "persistent"@,
    ensures
        plan_guards(rows).contains(
            (Guarded { resource_id: rows[i].id, reason: guard_reason(rows[i].kind) }),
        ),
        (forall|a: int, b: int|
            0 <= a < rows.len() && 0 <= b < rows.len() && (#[trigger] rows[a]).id == (
            #[trigger] rows[b]).id ==> a == b) ==> !selects(proposed(rows), rows[i].id),
{
    broadcast use vstd::seq_lib::group_to_multiset_ensures;

    reveal_strlit("persistent");
    reveal_strlit("leftover");
    guarded_facts(rows);
    sorting::sorting_keeps_and_orders::<ProtectedDoc>(guarded_rows(rows));
    let g = Guarded { resource_id: rows[i].id, reason: guard_reason(rows[i].kind) };
    assert(guarded_rows(rows).to_multiset().count(g) > 0);
    plan_selects_the_leftovers(rows);
    if selects(proposed(rows), rows[i].id) {
        let j = choose|j: int|
            0 <= j < rows.len() && (#[trigger] rows[j]).classification == "leftover"@
                && rows[j].id == rows[i].id;
        assert(rows[j].id == rows[i].id);
        assert("persistent"@.len() != "leftover"@.len());
    }
}

/// Everything that a plan lists is selected and safe, with the first reason
/// of its row.
pub proof fn plan_items_are_selected(rows: Seq<RowModel>, k: int)
    requires
        0 <= k < proposed(rows).len(),
    ensures
        proposed(rows)[k].selected,
        proposed(rows)[k].safe,
        proposed(rows)[k].reason == reason_of(rows, proposed(rows)[k].resource_id),
        proposed(rows).len() == rows.filter(
            |r: RowModel| r.classification == "leftover"@,
        ).len(),
{
    broadcast use vstd::seq_lib::group_to_multiset_ensures;

    let list = snapshot::ids_classed(rows, "leftover"@);
    let made = Seq::new(list.len(), |i: int| plan_item(rows, list[i]));
    let items = proposed(rows);
    sorting::sorting_keeps_and_orders::<CleanupItemDoc>(made);
    snapshot::leftovers_are_the_rows_of_that_class(rows, "leftover"@);
    assert(items.contains(items[k]));
    assert(items.to_multiset().count(items[k]) > 0);
    assert(made.contains(items[k]));
}

/// The reason given for an id is the first one of its last row, or a general
/// one where that row has none.
pub proof fn reason_is_that_of_the_last_row(rows: Seq<RowModel>, id: Seq<char>, k: int)
    requires
        0 <= k < rows.len(),
        rows[k].id == id,
        forall|j: int| k < j < rows.len() ==> (#[trigger] rows[j]).id != id,
    ensures
        reason_of(rows, id) == (if rows[k].reasons.len() > 0 {
            rows[k].reasons[0]
        } else {
            "leftover candidate"@
        }),
    decreases rows.len(),
{
    if k < rows.len() - 1 {
        assert(rows.last() == rows[rows.len() - 1]);
        let front = rows.drop_last();
        assert forall|j: int| k < j < front.len() implies (#[trigger] front[j]).id != id by {
            assert(front[j] == rows[j]);
        }
        assert(front[k] == rows[k]);
        reason_is_that_of_the_last_row(front, id, k);
    }
}

/// Nothing but what persists is protected.
pub proof fn only_what_persists_is_protected(rows: Seq<RowModel>)
    ensures
        plan_guards(rows).len() == rows.filter(
            |r: RowModel| r.classification == "persistent"@,
        ).len(),
    decreases rows.len(),
{
    sorting::sorting_keeps_and_orders::<ProtectedDoc>(guarded_rows(rows));
    guards_are_counted(rows);
}

proof fn guards_are_counted(rows: Seq<RowModel>)
    ensures
        guarded_rows(rows).len() == rows.filter(
            |r: RowModel| r.classification == "persistent"@,
        ).len(),
    decreases rows.len(),
{
    reveal(Seq::filter);
    if rows.len() > 0 {
        guards_are_counted(rows.drop_last());
    }
}

/// A plan holds for five minutes from its issue and not a second longer; a
/// clock that ran back does not end it.
pub proof fn plan_holds_for_five_minutes(issued_at: u64, now: u64)
    ensures
        is_expired(issued_at, now) <==> now - issued_at >= 300,
{
}

} // verus!

//! What grouping keeps: every process in one place, under its own name, and
//! all of its memory.

use crate::classify::group;
use crate::classify::order;
use crate::classify::pids;
use crate::classify::rules;
use crate::config::SignatureConfig;
use crate::model::process::ProcessInfo;
use crate::model::runtime::{Category, ItemModel};
use vstd::multiset::Multiset;
use vstd::prelude::*;

verus! {

broadcast use {vstd::seq_lib::group_to_multiset_ensures, vstd::multiset::group_multiset_axioms};

// ---------------------------------------------------------------------------
// What a forest holds
// ---------------------------------------------------------------------------

/// The pids of some items and of everything below them, each as often as it
/// is listed.
pub open spec fn all_pids(ms: Seq<ItemModel>) -> Multiset<u32>
    decreases ms,
{
    if ms.len() == 0 {
        Multiset::empty()
    } else {
        all_pids(ms.drop_last()).add(ms.last().pids.to_multiset()).add(
            all_pids(ms.last().children),
        )
    }
}

/// A process as it is shown: the category and the name of the item that lists
/// it, and its pid.
pub struct Shown {
    pub category: Category,
    pub name: Seq<char>,
    pub pid: u32,
}

/// The processes of one item as they are shown.
pub open spec fn shown_in(m: ItemModel) -> Seq<Shown> {
    m.pids.map_values(|pid: u32| Shown { category: m.category, name: m.name, pid })
}

/// The processes of some items and of everything below them.
pub open spec fn all_shown(ms: Seq<ItemModel>) -> Multiset<Shown>
    decreases ms,
{
    if ms.len() == 0 {
        Multiset::empty()
    } else {
        all_shown(ms.drop_last()).add(shown_in(ms.last()).to_multiset()).add(
            all_shown(ms.last().children),
        )
    }
}

/// The memory of some items and of everything below them.
pub open spec fn all_memory(ms: Seq<ItemModel>) -> nat
    decreases ms,
{
    if ms.len() == 0 {
        0
    } else {
        all_memory(ms.drop_last()) + ms.last().memory as nat + all_memory(ms.last().children)
    }
}

/// The contents of two forests add up.
pub proof fn forests_add_up(a: Seq<ItemModel>, b: Seq<ItemModel>)
    ensures
        all_pids(a + b) == all_pids(a).add(all_pids(b)),
        all_shown(a + b) == all_shown(a).add(all_shown(b)),
        all_memory(a + b) == all_memory(a) + all_memory(b),
    decreases b.len(),
{
    if b.len() == 0 {
        assert(a + b =~= a);
        assert(all_pids(a + b) =~= all_pids(a).add(all_pids(b)));
        assert(all_shown(a + b) =~= all_shown(a).add(all_shown(b)));
    } else {
        forests_add_up(a, b.drop_last());
        assert((a + b).drop_last() =~= a + b.drop_last());
        assert((a + b).last() == b.last());
        assert(all_pids(a + b) =~= all_pids(a).add(all_pids(b)));
        assert(all_shown(a + b) =~= all_shown(a).add(all_shown(b)));
    }
}

/// What a single tree holds: its own, and what lies below it.
pub proof fn one_tree(m: ItemModel)
    ensures
        all_pids(seq![m]) == m.pids.to_multiset().add(all_pids(m.children)),
        all_shown(seq![m]) == shown_in(m).to_multiset().add(all_shown(m.children)),
        all_memory(seq![m]) == m.memory + all_memory(m.children),
{
    let one = seq![m];
    assert(one.drop_last() =~= Seq::<ItemModel>::empty());
    assert(one.last() == m);
    assert(all_pids(one.drop_last()) =~= Multiset::empty());
    assert(all_shown(one.drop_last()) =~= Multiset::empty());
    assert(all_memory(one.drop_last()) == 0);
    assert(all_pids(one) =~= m.pids.to_multiset().add(all_pids(m.children)));
    assert(all_shown(one) =~= shown_in(m).to_multiset().add(all_shown(m.children)));
}

// ---------------------------------------------------------------------------
// Folding helpers
// ---------------------------------------------------------------------------

/// The helpers' processes, as shown under the parent's name.
spec fn helpers_shown(m: ItemModel, cs: Seq<ItemModel>) -> Seq<Shown> {
    group::helper_pids(m, cs).map_values(
        |pid: u32| Shown { category: m.category, name: m.name, pid },
    )
}

/// What is folded in, what stays and what moves up are together what was
/// there.
proof fn folding_divides_the_children(m: ItemModel, cs: Seq<ItemModel>)
    ensures
        group::helper_pids(m, cs).to_multiset().add(all_pids(group::staying(m, cs))).add(
            all_pids(group::moving_up(m, cs)),
        ) == all_pids(cs),
        helpers_shown(m, cs).to_multiset().add(all_shown(group::staying(m, cs))).add(
            all_shown(group::moving_up(m, cs)),
        ) == all_shown(cs),
        m.memory + all_memory(cs) <= u64::MAX ==> group::helper_memory(m, cs) + all_memory(
            group::staying(m, cs),
        ) + all_memory(group::moving_up(m, cs)) == m.memory + all_memory(cs),
    decreases cs.len(),
{
    if cs.len() == 0 {
        assert(group::helper_pids(m, cs).to_multiset().add(all_pids(group::staying(m, cs))).add(
            all_pids(group::moving_up(m, cs)),
        ) =~= all_pids(cs));
        assert(helpers_shown(m, cs) =~= Seq::<Shown>::empty());
        assert(helpers_shown(m, cs).to_multiset().add(all_shown(group::staying(m, cs))).add(
            all_shown(group::moving_up(m, cs)),
        ) =~= all_shown(cs));
    } else {
        let front = cs.drop_last();
        let last = cs.last();
        let hp = group::helper_pids(m, front);
        let st = group::staying(m, front);
        let mv = group::moving_up(m, front);
        folding_divides_the_children(m, front);
        one_tree(last);
        if group::is_helper(m, last) {
            vstd::seq_lib::lemma_multiset_commutative(hp, last.pids);
            forests_add_up(mv, last.children);
            let hs = helpers_shown(m, front);
            assert(helpers_shown(m, cs) =~= hs + shown_in(last));
            vstd::seq_lib::lemma_multiset_commutative(hs, shown_in(last));
        } else {
            assert(st.push(last) =~= st + seq![last]);
            forests_add_up(st, seq![last]);
            assert(helpers_shown(m, cs) == helpers_shown(m, front));
        }
        assert(group::helper_pids(m, cs).to_multiset().add(all_pids(group::staying(m, cs))).add(
            all_pids(group::moving_up(m, cs)),
        ) =~= all_pids(cs));
        assert(helpers_shown(m, cs).to_multiset().add(all_shown(group::staying(m, cs))).add(
            all_shown(group::moving_up(m, cs)),
        ) =~= all_shown(cs));
    }
}

/// Folding helpers into their parents loses no process and adds none: the
/// pids of an item and of everything below it are the same before and after,
/// each as often, and each is shown under the same category and name. The
/// memory is the same too, as far as it can be counted.
pub proof fn folding_keeps_every_process(m: ItemModel)
    ensures
        all_pids(seq![group::collapsed(m)]) == all_pids(seq![m]),
        all_shown(seq![group::collapsed(m)]) == all_shown(seq![m]),
        all_memory(seq![m]) <= u64::MAX ==> all_memory(seq![group::collapsed(m)]) == all_memory(
            seq![m],
        ),
    decreases m, 1nat, 0nat,
{
    let cs = group::collapsed_children(m);
    let r = group::collapsed(m);
    folding_keeps_the_children(m, m.children.len());
    assert(cs.take(cs.len() as int) =~= cs);
    assert(m.children.take(m.children.len() as int) =~= m.children);
    folding_divides_the_children(m, cs);
    one_tree(m);
    one_tree(r);
    vstd::seq_lib::lemma_multiset_commutative(m.pids, group::helper_pids(m, cs));
    forests_add_up(group::staying(m, cs), group::moving_up(m, cs));
    assert(shown_in(r) =~= shown_in(m) + helpers_shown(m, cs));
    vstd::seq_lib::lemma_multiset_commutative(shown_in(m), helpers_shown(m, cs));
    assert(all_pids(seq![r]) =~= all_pids(seq![m]));
    assert(all_shown(seq![r]) =~= all_shown(seq![m]));
}

proof fn folding_keeps_the_children(m: ItemModel, n: nat)
    requires
        n <= m.children.len(),
    ensures
        all_pids(group::collapsed_children(m).take(n as int)) == all_pids(
            m.children.take(n as int),
        ),
        all_shown(group::collapsed_children(m).take(n as int)) == all_shown(
            m.children.take(n as int),
        ),
        all_memory(m.children.take(n as int)) <= u64::MAX ==> all_memory(
            group::collapsed_children(m).take(n as int),
        ) == all_memory(m.children.take(n as int)),
    decreases m, 0nat, n,
{
    let cs = group::collapsed_children(m);
    if n == 0 {
        assert(cs.take(0) =~= Seq::<ItemModel>::empty());
        assert(m.children.take(0) =~= Seq::<ItemModel>::empty());
    } else {
        let k = n - 1;
        folding_keeps_the_children(m, k as nat);
        assert(decreases_to!(m => m.children[k]));
        folding_keeps_every_process(m.children[k]);
        assert(cs[k] == group::collapsed(m.children[k]));
        assert(cs.take(n as int) =~= cs.take(k) + seq![cs[k]]);
        assert(m.children.take(n as int) =~= m.children.take(k) + seq![m.children[k]]);
        forests_add_up(cs.take(k), seq![cs[k]]);
        forests_add_up(m.children.take(k), seq![m.children[k]]);
    }
}

/// No item lists a child of its own category and name, at any depth.
pub open spec fn is_folded(m: ItemModel) -> bool
    decreases m,
{
    &&& forall|i: int|
        0 <= i < m.children.len() ==> (#[trigger] m.children[i]).category != m.category
            || m.children[i].name != m.name
    &&& forall|i: int| 0 <= i < m.children.len() ==> is_folded(#[trigger] m.children[i])
}

proof fn folding_leaves_no_helper(m: ItemModel, cs: Seq<ItemModel>)
    requires
        forall|i: int| 0 <= i < cs.len() ==> is_folded(#[trigger] cs[i]),
    ensures
        forall|i: int|
            0 <= i < group::staying(m, cs).len() ==> {
                let c = #[trigger] group::staying(m, cs)[i];
                is_folded(c) && (c.category != m.category || c.name != m.name)
            },
        forall|i: int|
            0 <= i < group::moving_up(m, cs).len() ==> {
                let c = #[trigger] group::moving_up(m, cs)[i];
                is_folded(c) && (c.category != m.category || c.name != m.name)
            },
    decreases cs.len(),
{
    if cs.len() > 0 {
        let front = cs.drop_last();
        let last = cs.last();
        assert forall|i: int| 0 <= i < front.len() implies is_folded(#[trigger] front[i]) by {
            assert(front[i] == cs[i]);
        }
        folding_leaves_no_helper(m, front);
        assert(last == cs[cs.len() - 1]);
        let st = group::staying(m, front);
        let mv = group::moving_up(m, front);
        assert forall|i: int| 0 <= i < group::staying(m, cs).len() implies ({
            let c = #[trigger] group::staying(m, cs)[i];
            is_folded(c) && (c.category != m.category || c.name != m.name)
        }) by {
            if i < st.len() {
                assert(group::staying(m, cs)[i] == st[i]);
            }
        }
        assert forall|i: int| 0 <= i < group::moving_up(m, cs).len() implies ({
            let c = #[trigger] group::moving_up(m, cs)[i];
            is_folded(c) && (c.category != m.category || c.name != m.name)
        }) by {
            if i < mv.len() {
                assert(group::moving_up(m, cs)[i] == mv[i]);
            } else {
                assert(group::moving_up(m, cs)[i] == last.children[i - mv.len()]);
            }
        }
    }
}

/// After folding no item has a child of its own category and name, and the
/// item itself is the one it was.
pub proof fn no_helper_is_left(m: ItemModel)
    ensures
        is_folded(group::collapsed(m)),
        group::collapsed(m).category == m.category,
        group::collapsed(m).name == m.name,
        group::collapsed(m).root == m.root,
        group::collapsed(m).state == m.state,
        group::collapsed(m).suspicion == m.suspicion,
        group::collapsed(m).ports == m.ports,
        group::collapsed(m).project == m.project,
    decreases m,
{
    let cs = group::collapsed_children(m);
    assert forall|i: int| 0 <= i < cs.len() implies is_folded(#[trigger] cs[i]) by {
        assert(decreases_to!(m => m.children[i]));
        no_helper_is_left(m.children[i]);
    }
    folding_leaves_no_helper(m, cs);
    let r = group::collapsed(m);
    let k = group::staying(m, cs).len();
    assert forall|i: int| 0 <= i < r.children.len() implies is_folded(#[trigger] r.children[i]) && (
    r.children[i].category != r.category || r.children[i].name != r.name) by {
        if i < k {
            assert(r.children[i] == group::staying(m, cs)[i]);
        } else {
            assert(r.children[i] == group::moving_up(m, cs)[i - k]);
        }
    }
}

// ---------------------------------------------------------------------------
// One place for every process
// ---------------------------------------------------------------------------

/// No pid is listed twice.
pub open spec fn pids_are_distinct(ps: Seq<ProcessInfo>) -> bool {
    forall|i: int, j: int|
        0 <= i < j < ps.len() ==> (#[trigger] ps[i]).pid != (#[trigger] ps[j]).pid
}

/// No process is its own ancestor: the processes can be numbered so that
/// every listed parent comes before its children.
pub open spec fn is_depth(ps: Seq<ProcessInfo>, depth: spec_fn(u32) -> nat) -> bool {
    &&& forall|i: int| 0 <= i < ps.len() ==> depth((#[trigger] ps[i]).pid) < ps.len()
    &&& forall|i: int, j: int|
        0 <= i < ps.len() && 0 <= j < ps.len() && (#[trigger] ps[i]).parent_pid == Some(
            (#[trigger] ps[j]).pid,
        ) ==> depth(ps[j].pid) < depth(ps[i].pid)
}

proof fn found_at(ps: Seq<ProcessInfo>, i: int)
    requires
        pids_are_distinct(ps),
        0 <= i < ps.len(),
    ensures
        pids::last_index(ps, ps[i].pid) == Some(i),
        pids::by_pid(ps, ps[i].pid) == Some(ps[i]),
{
    pids::last_index_range(ps, ps[i].pid);
    let k = pids::last_index(ps, ps[i].pid)->0;
    assert(k == i) by {
        if k < i {
            assert(ps[k].pid != ps[i].pid);
        } else if i < k {
            assert(ps[i].pid != ps[k].pid);
        }
    }
}

proof fn ancestors_are_less_deep(
    ps: Seq<ProcessInfo>,
    depth: spec_fn(u32) -> nat,
    pid: u32,
    steps: nat,
    hit: spec_fn(u32) -> bool,
)
    requires
        pids_are_distinct(ps),
        is_depth(ps, depth),
        pids::ancestor_within(ps, pids::parent_of(ps, pid), steps, hit) is Some,
        pids::present(
            ps,
            pids::ancestor_within(ps, pids::parent_of(ps, pid), steps, hit)->0,
        ),
    ensures
        depth(pids::ancestor_within(ps, pids::parent_of(ps, pid), steps, hit)->0) < depth(pid),
        hit(pids::ancestor_within(ps, pids::parent_of(ps, pid), steps, hit)->0),
    decreases steps,
{
    let r = pids::ancestor_within(ps, pids::parent_of(ps, pid), steps, hit)->0;
    let a = pids::parent_of(ps, pid)->0;
    pids::last_index_range(ps, pid);
    pids::last_index_range(ps, a);
    let i = pids::last_index(ps, pid)->0;
    if !hit(a) {
        ancestors_are_less_deep(ps, depth, a, (steps - 1) as nat, hit);
    } else {
        assert(r == a);
    }
    assert(pids::present(ps, a));
    let j = pids::last_index(ps, a)->0;
    assert(ps[i].parent_pid == Some(ps[j].pid));
}

proof fn item_above_is_an_item(
    ps: Seq<ProcessInfo>,
    cls: Seq<Option<rules::ClassModel>>,
    depth: spec_fn(u32) -> nat,
    pid: u32,
)
    requires
        pids_are_distinct(ps),
        is_depth(ps, depth),
        group::item_above(ps, cls, pid) is Some,
    ensures
        group::is_item(ps, cls, group::item_above(ps, cls, pid)->0),
        depth(group::item_above(ps, cls, pid)->0) < depth(pid),
{
    let hit = group::item_test(ps, cls);
    hit_is_hit(ps, pids::parent_of(ps, pid), pids::MAX_ANCESTORS as nat, hit);
    let r = group::item_above(ps, cls, pid)->0;
    assert(hit(r));
    pids::last_index_range(ps, r);
    ancestors_are_less_deep(ps, depth, pid, pids::MAX_ANCESTORS as nat, hit);
}

proof fn hit_is_hit(
    ps: Seq<ProcessInfo>,
    cur: Option<u32>,
    steps: nat,
    hit: spec_fn(u32) -> bool,
)
    requires
        pids::ancestor_within(ps, cur, steps, hit) is Some,
    ensures
        hit(pids::ancestor_within(ps, cur, steps, hit)->0),
    decreases steps,
{
    let a = cur->0;
    if !hit(a) {
        hit_is_hit(ps, pids::parent_of(ps, a), (steps - 1) as nat, hit);
    }
}

/// `q` is reached from `p` by going from item to item above, in at most `d`
/// steps.
spec fn leads(
    ps: Seq<ProcessInfo>,
    cls: Seq<Option<rules::ClassModel>>,
    p: u32,
    q: u32,
    d: nat,
) -> bool
    decreases d,
{
    p == q || (d > 0 && match group::item_above(ps, cls, p) {
        Some(r) => leads(ps, cls, r, q, (d - 1) as nat),
        None => false,
    })
}

proof fn leads_up(
    ps: Seq<ProcessInfo>,
    cls: Seq<Option<rules::ClassModel>>,
    depth: spec_fn(u32) -> nat,
    p: u32,
    q: u32,
    d: nat,
)
    requires
        pids_are_distinct(ps),
        is_depth(ps, depth),
        leads(ps, cls, p, q, d),
    ensures
        depth(q) <= depth(p),
    decreases d,
{
    if p != q {
        let r = group::item_above(ps, cls, p)->0;
        item_above_is_an_item(ps, cls, depth, p);
        leads_up(ps, cls, depth, r, q, (d - 1) as nat);
    }
}

/// One step more leads to the item above.
proof fn leads_on(
    ps: Seq<ProcessInfo>,
    cls: Seq<Option<rules::ClassModel>>,
    p: u32,
    c: u32,
    q: u32,
    d: nat,
)
    requires
        leads(ps, cls, p, c, d),
        group::item_above(ps, cls, c) == Some(q),
    ensures
        leads(ps, cls, p, q, d + 1),
    decreases d,
{
    if p != c {
        let r = group::item_above(ps, cls, p)->0;
        leads_on(ps, cls, r, c, q, (d - 1) as nat);
    } else {
        assert(leads(ps, cls, q, q, d));
    }
}

/// The last step on the way up.
proof fn last_step(
    ps: Seq<ProcessInfo>,
    cls: Seq<Option<rules::ClassModel>>,
    depth: spec_fn(u32) -> nat,
    p: u32,
    q: u32,
    d: nat,
) -> (c: u32)
    requires
        pids_are_distinct(ps),
        is_depth(ps, depth),
        group::is_item(ps, cls, p),
        p != q,
        leads(ps, cls, p, q, d),
    ensures
        d > 0,
        group::is_item(ps, cls, c),
        group::item_above(ps, cls, c) == Some(q),
        leads(ps, cls, p, c, (d - 1) as nat),
    decreases d,
{
    let r = group::item_above(ps, cls, p)->0;
    item_above_is_an_item(ps, cls, depth, p);
    if r == q {
        p
    } else {
        last_step(ps, cls, depth, r, q, (d - 1) as nat)
    }
}

/// Two items on one way up do not stand side by side.
proof fn siblings_are_one(
    ps: Seq<ProcessInfo>,
    cls: Seq<Option<rules::ClassModel>>,
    depth: spec_fn(u32) -> nat,
    p: u32,
    a: u32,
    b: u32,
    d: nat,
)
    requires
        pids_are_distinct(ps),
        is_depth(ps, depth),
        leads(ps, cls, p, a, d),
        leads(ps, cls, p, b, d),
        group::item_above(ps, cls, a) == group::item_above(ps, cls, b),
    ensures
        a == b,
    decreases d,
{
    if p != a && p != b {
        let r = group::item_above(ps, cls, p)->0;
        siblings_are_one(ps, cls, depth, r, a, b, (d - 1) as nat);
    } else if p == a && p != b {
        let r = group::item_above(ps, cls, p)->0;
        leads_up(ps, cls, depth, r, b, (d - 1) as nat);
        item_above_is_an_item(ps, cls, depth, b);
    } else if p == b && p != a {
        let r = group::item_above(ps, cls, p)->0;
        leads_up(ps, cls, depth, r, a, (d - 1) as nat);
        item_above_is_an_item(ps, cls, depth, a);
    }
}

/// The way up ends at an item with none above.
proof fn top_of(
    ps: Seq<ProcessInfo>,
    cls: Seq<Option<rules::ClassModel>>,
    depth: spec_fn(u32) -> nat,
    p: u32,
    d: nat,
) -> (t: u32)
    requires
        pids_are_distinct(ps),
        is_depth(ps, depth),
        group::is_item(ps, cls, p),
        depth(p) <= d,
    ensures
        group::is_item(ps, cls, t),
        group::item_above(ps, cls, t) is None,
        leads(ps, cls, p, t, d),
    decreases d,
{
    match group::item_above(ps, cls, p) {
        None => p,
        Some(r) => {
            item_above_is_an_item(ps, cls, depth, p);
            top_of(ps, cls, depth, r, (d - 1) as nat)
        },
    }
}

/// The items under another, or at the top: each of them once, biggest first.
pub proof fn items_stand_once_under_their_parent(
    ps: Seq<ProcessInfo>,
    cls: Seq<Option<rules::ClassModel>>,
    par: Option<u32>,
    n: int,
)
    requires
        pids_are_distinct(ps),
        0 <= n <= ps.len(),
    ensures
        forall|x: u32|
            #[trigger] group::items_under(ps, cls, par, n).contains(x) <==> exists|k: int|
                0 <= k < n && (#[trigger] ps[k]).pid == x && group::is_item(ps, cls, x)
                    && group::item_above(ps, cls, x) == par,
        group::items_under(ps, cls, par, n).no_duplicates(),
        forall|i: int, j: int|
            0 <= i <= j < group::items_under(ps, cls, par, n).len() ==> pids::memory_of(
                ps,
                #[trigger] group::items_under(ps, cls, par, n)[i],
            ) >= pids::memory_of(ps, #[trigger] group::items_under(ps, cls, par, n)[j]),
    decreases n,
{
    let all = group::items_under(ps, cls, par, n);
    if n > 0 {
        items_stand_once_under_their_parent(ps, cls, par, n - 1);
        let rest = group::items_under(ps, cls, par, n - 1);
        let pid = ps[n - 1].pid;
        let key = pids::memory_key(ps);
        let takes = group::is_item(ps, cls, pid) && group::item_above(ps, cls, pid) == par;
        let at = order::slot(rest, pid, key);
        order::slot_range(rest, pid, key);
        if takes {
            assert(all =~= rest.insert(at, pid));
            if rest.contains(pid) {
                let k = choose|k: int|
                    0 <= k < n - 1 && (#[trigger] ps[k]).pid == pid && group::is_item(
                        ps,
                        cls,
                        pid,
                    ) && group::item_above(ps, cls, pid) == par;
                assert(ps[k].pid != ps[n - 1].pid);
            }
            assert forall|i: int, j: int|
                0 <= i <= j < all.len() implies pids::memory_of(ps, #[trigger] all[i])
                >= pids::memory_of(ps, #[trigger] all[j]) by {
                let a = if i < at {
                    rest[i]
                } else if i == at {
                    pid
                } else {
                    rest[i - 1]
                };
                let b = if j < at {
                    rest[j]
                } else if j == at {
                    pid
                } else {
                    rest[j - 1]
                };
                assert(all[i] == a && all[j] == b);
                assert(key(a) == pids::memory_of(ps, a) && key(b) == pids::memory_of(ps, b));
                if j == at && i < at {
                    assert(pids::memory_of(ps, rest[i]) >= pids::memory_of(ps, rest[at - 1]));
                    assert(key(rest[at - 1]) >= key(pid));
                }
                if i == at && j > at {
                    assert(key(rest[j - 1]) < key(pid));
                }
            }
            assert forall|i: int, j: int| 0 <= i < all.len() && 0 <= j < all.len() && i
                != j implies all[i] != all[j] by {
                let a = if i < at {
                    i
                } else {
                    i - 1
                };
                let b = if j < at {
                    j
                } else {
                    j - 1
                };
                if i == at {
                    assert(all[j] == rest[b]);
                    assert(rest.contains(rest[b]));
                } else if j == at {
                    assert(all[i] == rest[a]);
                    assert(rest.contains(rest[a]));
                } else {
                    assert(all[i] == rest[a] && all[j] == rest[b]);
                }
            }
        }
        assert forall|x: u32|
            #[trigger] all.contains(x) <==> exists|k: int|
                0 <= k < n && (#[trigger] ps[k]).pid == x && group::is_item(ps, cls, x)
                    && group::item_above(ps, cls, x) == par by {
            if all.contains(x) {
                let i = choose|i: int| 0 <= i < all.len() && all[i] == x;
                if takes && i == at {
                    assert(ps[n - 1].pid == x);
                } else {
                    let b = if !takes || i < at {
                        i
                    } else {
                        i - 1
                    };
                    assert(rest[b] == x);
                    assert(rest.contains(x));
                }
            }
            if exists|k: int|
                0 <= k < n && (#[trigger] ps[k]).pid == x && group::is_item(ps, cls, x)
                    && group::item_above(ps, cls, x) == par {
                let k = choose|k: int|
                    0 <= k < n && (#[trigger] ps[k]).pid == x && group::is_item(ps, cls, x)
                        && group::item_above(ps, cls, x) == par;
                if k == n - 1 {
                    assert(all[at] == x);
                } else {
                    assert(rest.contains(x));
                    let b = choose|b: int| 0 <= b < rest.len() && rest[b] == x;
                    if takes && b >= at {
                        assert(all[b + 1] == x);
                    } else {
                        assert(all[b] == x);
                    }
                }
            }
        }
    }
}

/// The trees of some items.
spec fn trees(
    ps: Seq<ProcessInfo>,
    cls: Seq<Option<rules::ClassModel>>,
    list: Seq<u32>,
    d: nat,
) -> Seq<ItemModel> {
    list.map_values(|q: u32| group::item_tree(ps, cls, q, d))
}

spec fn as_shown(cls: Option<rules::ClassModel>, pid: u32) -> Shown {
    Shown { category: cls->0.category, name: cls->0.name, pid }
}

/// An item stands in the trees of these items once where the way up from it
/// leads to one of them, and not at all where it does not.
proof fn stands_once_in_trees(
    ps: Seq<ProcessInfo>,
    cls: Seq<Option<rules::ClassModel>>,
    depth: spec_fn(u32) -> nat,
    par: Option<u32>,
    list: Seq<u32>,
    d: nat,
    p: u32,
)
    requires
        pids_are_distinct(ps),
        is_depth(ps, depth),
        group::is_item(ps, cls, p),
        list.no_duplicates(),
        forall|i: int|
            0 <= i < list.len() ==> group::is_item(ps, cls, #[trigger] list[i])
                && group::item_above(ps, cls, list[i]) == par,
    ensures
        all_pids(trees(ps, cls, list, d)).count(p) == (if exists|i: int|
            0 <= i < list.len() && leads(ps, cls, p, #[trigger] list[i], d) {
            1nat
        } else {
            0
        }),
        all_shown(trees(ps, cls, list, d)).count(as_shown(group::class_of(ps, cls, p), p)) == (
        if exists|i: int| 0 <= i < list.len() && leads(ps, cls, p, #[trigger] list[i], d) {
            1nat
        } else {
            0
        }),
    decreases d, 1nat, list.len(),
{
    let ms = trees(ps, cls, list, d);
    if list.len() > 0 {
        let front = list.drop_last();
        let q = list.last();
        assert forall|i: int| 0 <= i < front.len() implies group::is_item(
            ps,
            cls,
            #[trigger] front[i],
        ) && group::item_above(ps, cls, front[i]) == par by {
            assert(front[i] == list[i]);
        }
        assert(front.no_duplicates()) by {
            assert forall|i: int, j: int| 0 <= i < front.len() && 0 <= j < front.len() && i
                != j implies front[i] != front[j] by {
                assert(front[i] == list[i] && front[j] == list[j]);
            }
        }
        assert(q == list[list.len() - 1]);
        stands_once_in_trees(ps, cls, depth, par, front, d, p);
        stands_once_in_a_tree(ps, cls, depth, q, d, p);
        let tree = group::item_tree(ps, cls, q, d);
        assert(ms =~= trees(ps, cls, front, d) + seq![tree]);
        forests_add_up(trees(ps, cls, front, d), seq![tree]);
        if exists|i: int| 0 <= i < front.len() && leads(ps, cls, p, #[trigger] front[i], d) {
            let i = choose|i: int| 0 <= i < front.len() && leads(ps, cls, p, #[trigger] front[i], d);
            assert(front[i] == list[i]);
            if leads(ps, cls, p, q, d) {
                siblings_are_one(ps, cls, depth, p, list[i], q, d);
                assert(list[i] != list[list.len() - 1]);
            }
        }
        if exists|i: int| 0 <= i < list.len() && leads(ps, cls, p, #[trigger] list[i], d) {
            let i = choose|i: int| 0 <= i < list.len() && leads(ps, cls, p, #[trigger] list[i], d);
            if i < front.len() {
                assert(leads(ps, cls, p, front[i], d));
            }
        }
    } else {
        assert(ms =~= Seq::<ItemModel>::empty());
    }
}

/// The browsers that are rolled up hold no item.
proof fn rollup_holds_no_item(
    ps: Seq<ProcessInfo>,
    cls: Seq<Option<rules::ClassModel>>,
    top: u32,
    p: u32,
)
    requires
        group::is_item(ps, cls, p),
        group::rollup(ps, cls, top) is Some,
    ensures
        all_pids(seq![group::rollup(ps, cls, top)->0]).count(p) == 0,
        all_shown(seq![group::rollup(ps, cls, top)->0]).count(
            as_shown(group::class_of(ps, cls, p), p),
        ) == 0,
{
    let b = group::rollup(ps, cls, top)->0;
    let s = as_shown(group::class_of(ps, cls, p), p);
    one_tree(b);
    group::browsers_are_automated(ps, cls, top, ps.len() as int);
    if b.pids.contains(p) {
        assert(group::dev_browser(ps, cls, p));
    }
    assert(b.pids.to_multiset().count(p) == 0);
    if shown_in(b).contains(s) {
        let k = choose|k: int| 0 <= k < shown_in(b).len() && shown_in(b)[k] == s;
        assert(b.pids[k] == p);
    }
    assert(shown_in(b).to_multiset().count(s) == 0);
}

proof fn stands_once_in_a_tree(
    ps: Seq<ProcessInfo>,
    cls: Seq<Option<rules::ClassModel>>,
    depth: spec_fn(u32) -> nat,
    q: u32,
    d: nat,
    p: u32,
)
    requires
        pids_are_distinct(ps),
        is_depth(ps, depth),
        group::is_item(ps, cls, p),
        group::is_item(ps, cls, q),
    ensures
        all_pids(seq![group::item_tree(ps, cls, q, d)]).count(p) == (if leads(ps, cls, p, q, d) {
            1nat
        } else {
            0
        }),
        all_shown(seq![group::item_tree(ps, cls, q, d)]).count(
            as_shown(group::class_of(ps, cls, p), p),
        ) == (if leads(ps, cls, p, q, d) {
            1nat
        } else {
            0
        }),
    decreases d, 0nat, 0nat,
{
    let m = group::item_tree(ps, cls, q, d);
    let c = group::class_of(ps, cls, q)->0;
    let s = as_shown(group::class_of(ps, cls, p), p);
    let under = group::items_under(ps, cls, Some(q), ps.len() as int);
    let nested = if d == 0 {
        Seq::empty()
    } else {
        trees(ps, cls, under, (d - 1) as nat)
    };
    assert(nested =~= if d == 0 {
        Seq::empty()
    } else {
        Seq::new(under.len(), |i: int| group::item_tree(ps, cls, under[i], (d - 1) as nat))
    });
    one_tree(m);
    assert(m.pids =~= Seq::<u32>::empty().push(q));
    assert(m.pids.to_multiset().count(p) == (if p == q {
        1nat
    } else {
        0
    })) by {
        assert(Seq::<u32>::empty().to_multiset().count(p) == 0);
    }
    let mine = Shown { category: c.category, name: c.name, pid: q };
    assert(shown_in(m) =~= Seq::<Shown>::empty().push(mine));
    assert(shown_in(m).to_multiset().count(s) == (if p == q {
        1nat
    } else {
        0
    })) by {
        assert(Seq::<Shown>::empty().to_multiset().count(s) == 0);
    }
    // What is rolled up does not count.
    assert(all_pids(m.children).count(p) == all_pids(nested).count(p) && all_shown(
        m.children,
    ).count(s) == all_shown(nested).count(s)) by {
        if c.category == Category::Mcp && group::rollup(ps, cls, q) is Some {
            let b = group::rollup(ps, cls, q)->0;
            rollup_holds_no_item(ps, cls, q, p);
            assert(m.children =~= nested + seq![b]);
            forests_add_up(nested, seq![b]);
        } else {
            assert(m.children == nested);
        }
    }
    if d > 0 {
        let e = (d - 1) as nat;
        items_stand_once_under_their_parent(ps, cls, Some(q), ps.len() as int);
        assert forall|i: int| 0 <= i < under.len() implies group::is_item(
            ps,
            cls,
            #[trigger] under[i],
        ) && group::item_above(ps, cls, under[i]) == Some(q) by {
            assert(under.contains(under[i]));
        }
        stands_once_in_trees(ps, cls, depth, Some(q), under, e, p);
        if exists|i: int| 0 <= i < under.len() && leads(ps, cls, p, #[trigger] under[i], e) {
            let i = choose|i: int| 0 <= i < under.len() && leads(ps, cls, p, #[trigger] under[i], e);
            leads_on(ps, cls, p, under[i], q, e);
            if p == q {
                leads_up(ps, cls, depth, p, under[i], e);
                item_above_is_an_item(ps, cls, depth, under[i]);
            }
        }
        if p != q && leads(ps, cls, p, q, d) {
            let x = last_step(ps, cls, depth, p, q, d);
            pids::last_index_range(ps, x);
            let k = pids::last_index(ps, x)->0;
            assert(ps[k].pid == x);
            assert(under.contains(x));
            let i = choose|i: int| 0 <= i < under.len() && under[i] == x;
            assert(leads(ps, cls, p, under[i], e));
        }
    } else {
        assert(all_pids(nested).count(p) == 0);
        assert(all_shown(nested).count(s) == 0);
    }
}

/// Folding keeps the contents of a list of trees.
proof fn folded_trees_hold_the_same(
    ps: Seq<ProcessInfo>,
    cls: Seq<Option<rules::ClassModel>>,
    list: Seq<u32>,
    d: nat,
)
    ensures
        all_pids(
            list.map_values(|q: u32| group::collapsed(group::item_tree(ps, cls, q, d))),
        ) == all_pids(trees(ps, cls, list, d)),
        all_shown(
            list.map_values(|q: u32| group::collapsed(group::item_tree(ps, cls, q, d))),
        ) == all_shown(trees(ps, cls, list, d)),
    decreases list.len(),
{
    let fold = |q: u32| group::collapsed(group::item_tree(ps, cls, q, d));
    if list.len() > 0 {
        let front = list.drop_last();
        let tree = group::item_tree(ps, cls, list.last(), d);
        folded_trees_hold_the_same(ps, cls, front, d);
        folding_keeps_every_process(tree);
        assert(list.map_values(fold) =~= front.map_values(fold) + seq![group::collapsed(tree)]);
        assert(trees(ps, cls, list, d) =~= trees(ps, cls, front, d) + seq![tree]);
        forests_add_up(front.map_values(fold), seq![group::collapsed(tree)]);
        forests_add_up(trees(ps, cls, front, d), seq![tree]);
    } else {
        assert(list.map_values(fold) =~= Seq::<ItemModel>::empty());
        assert(trees(ps, cls, list, d) =~= Seq::<ItemModel>::empty());
    }
}

proof fn item_is_shown_once(
    ps: Seq<ProcessInfo>,
    sigs: Seq<SignatureConfig>,
    depth: spec_fn(u32) -> nat,
    p: u32,
)
    requires
        pids_are_distinct(ps),
        is_depth(ps, depth),
        group::is_item(ps, group::classes(ps, sigs), p),
    ensures
        all_pids(group::grouped(ps, sigs)).count(p) == 1,
        all_shown(group::grouped(ps, sigs)).count(
            as_shown(group::class_of(ps, group::classes(ps, sigs), p), p),
        ) == 1,
{
    let cls = group::classes(ps, sigs);
    let n = ps.len();
    let tops = group::items_under(ps, cls, None, n as int);
    items_stand_once_under_their_parent(ps, cls, None, n as int);
    assert forall|i: int| 0 <= i < tops.len() implies group::is_item(ps, cls, #[trigger] tops[i])
        && group::item_above(ps, cls, tops[i]) is None by {
        assert(tops.contains(tops[i]));
    }
    pids::last_index_range(ps, p);
    let k = pids::last_index(ps, p)->0;
    assert(depth(ps[k].pid) < n);
    let t = top_of(ps, cls, depth, p, n);
    pids::last_index_range(ps, t);
    let j = pids::last_index(ps, t)->0;
    assert(ps[j].pid == t);
    assert(tops.contains(t));
    let i = choose|i: int| 0 <= i < tops.len() && tops[i] == t;
    assert(leads(ps, cls, p, tops[i], n));
    stands_once_in_trees(ps, cls, depth, None, tops, n, p);
    folded_trees_hold_the_same(ps, cls, tops, n);
    assert(group::grouped(ps, sigs) =~= tops.map_values(
        |q: u32| group::collapsed(group::item_tree(ps, cls, q, n)),
    ));
}

/// Every process of the runtime is shown in exactly one place of the forest,
/// under the category and the name that it was classified with. Browsers and
/// generic runtimes have rules of their own.
pub proof fn classified_process_is_shown_once(
    ps: Seq<ProcessInfo>,
    sigs: Seq<SignatureConfig>,
    depth: spec_fn(u32) -> nat,
    k: int,
)
    requires
        pids_are_distinct(ps),
        is_depth(ps, depth),
        0 <= k < ps.len(),
        rules::classified(ps[k], sigs) is Some,
        rules::classified(ps[k], sigs)->0.category != Category::Browser,
        rules::classified(ps[k], sigs)->0.category != Category::UnknownDev,
    ensures
        all_pids(group::grouped(ps, sigs)).count(ps[k].pid) == 1,
        all_shown(group::grouped(ps, sigs)).count(
            Shown {
                category: rules::classified(ps[k], sigs)->0.category,
                name: rules::classified(ps[k], sigs)->0.name,
                pid: ps[k].pid,
            },
        ) == 1,
{
    let cls = group::classes(ps, sigs);
    found_at(ps, k);
    assert(group::class_of(ps, cls, ps[k].pid) == rules::classified(ps[k], sigs));
    item_is_shown_once(ps, sigs, depth, ps[k].pid);
}

/// A generic runtime with arguments that started nothing is shown once.
pub proof fn generic_runtime_without_children_is_shown_once(
    ps: Seq<ProcessInfo>,
    sigs: Seq<SignatureConfig>,
    depth: spec_fn(u32) -> nat,
    k: int,
)
    requires
        pids_are_distinct(ps),
        is_depth(ps, depth),
        0 <= k < ps.len(),
        rules::classified(ps[k], sigs) is Some,
        rules::classified(ps[k], sigs)->0.category == Category::UnknownDev,
        ps[k].command@.len() > 0,
        forall|j: int| 0 <= j < ps.len() ==> (#[trigger] ps[j]).parent_pid != Some(ps[k].pid),
    ensures
        all_pids(group::grouped(ps, sigs)).count(ps[k].pid) == 1,
{
    let cls = group::classes(ps, sigs);
    let pid = ps[k].pid;
    found_at(ps, k);
    assert(group::class_of(ps, cls, pid) == rules::classified(ps[k], sigs));
    assert(!group::is_shim(ps, cls, pid)) by {
        assert forall|i: int| 0 <= i < ps.len() implies !pids::descends(
            ps,
            (#[trigger] ps[i]).pid,
            pid,
        ) by {
            pids::last_index_range(ps, ps[i].pid);
            nobody_leads_to(ps, pids::parent_of(ps, ps[i].pid), ps.len(), pid);
        }
    }
    item_is_shown_once(ps, sigs, depth, pid);
}

proof fn nobody_leads_to(ps: Seq<ProcessInfo>, cur: Option<u32>, steps: nat, pid: u32)
    requires
        forall|j: int| 0 <= j < ps.len() ==> (#[trigger] ps[j]).parent_pid != Some(pid),
        cur != Some(pid),
    ensures
        pids::ancestor_within(ps, cur, steps, pids::is_pid(pid)) is None,
    decreases steps,
{
    if let Some(a) = cur {
        if steps > 0 {
            pids::last_index_range(ps, a);
            nobody_leads_to(ps, pids::parent_of(ps, a), (steps - 1) as nat, pid);
        }
    }
}

/// What is neither an item nor an automated browser is shown nowhere.
proof fn nothing_else_in_a_tree(
    ps: Seq<ProcessInfo>,
    cls: Seq<Option<rules::ClassModel>>,
    q: u32,
    d: nat,
    x: u32,
)
    requires
        group::is_item(ps, cls, q),
        !group::is_item(ps, cls, x),
        !group::dev_browser(ps, cls, x),
    ensures
        all_pids(seq![group::item_tree(ps, cls, q, d)]).count(x) == 0,
    decreases d, 0nat, 0nat,
{
    let m = group::item_tree(ps, cls, q, d);
    let c = group::class_of(ps, cls, q)->0;
    let under = group::items_under(ps, cls, Some(q), ps.len() as int);
    let nested = if d == 0 {
        Seq::empty()
    } else {
        trees(ps, cls, under, (d - 1) as nat)
    };
    assert(nested =~= if d == 0 {
        Seq::empty()
    } else {
        Seq::new(under.len(), |i: int| group::item_tree(ps, cls, under[i], (d - 1) as nat))
    });
    one_tree(m);
    assert(!m.pids.contains(x));
    assert(all_pids(m.children).count(x) == all_pids(nested).count(x)) by {
        if c.category == Category::Mcp && group::rollup(ps, cls, q) is Some {
            let b = group::rollup(ps, cls, q)->0;
            one_tree(b);
            group::browsers_are_automated(ps, cls, q, ps.len() as int);
            assert(!b.pids.contains(x));
            assert(m.children =~= nested + seq![b]);
            forests_add_up(nested, seq![b]);
        } else {
            assert(m.children == nested);
        }
    }
    group::items_are_items(ps, cls, Some(q), ps.len() as int);
    if d > 0 {
        nothing_else_in_trees(ps, cls, under, (d - 1) as nat, x);
    }
}

proof fn nothing_else_in_trees(
    ps: Seq<ProcessInfo>,
    cls: Seq<Option<rules::ClassModel>>,
    list: Seq<u32>,
    d: nat,
    x: u32,
)
    requires
        forall|i: int| 0 <= i < list.len() ==> group::is_item(ps, cls, #[trigger] list[i]),
        !group::is_item(ps, cls, x),
        !group::dev_browser(ps, cls, x),
    ensures
        all_pids(trees(ps, cls, list, d)).count(x) == 0,
    decreases d, 1nat, list.len(),
{
    if list.len() > 0 {
        let front = list.drop_last();
        assert forall|i: int| 0 <= i < front.len() implies group::is_item(
            ps,
            cls,
            #[trigger] front[i],
        ) by {
            assert(front[i] == list[i]);
        }
        nothing_else_in_trees(ps, cls, front, d, x);
        let q = list[list.len() - 1];
        nothing_else_in_a_tree(ps, cls, q, d, x);
        let tree = group::item_tree(ps, cls, q, d);
        assert(trees(ps, cls, list, d) =~= trees(ps, cls, front, d) + seq![tree]);
        forests_add_up(trees(ps, cls, front, d), seq![tree]);
    } else {
        assert(trees(ps, cls, list, d) =~= Seq::<ItemModel>::empty());
    }
}

proof fn only_items_and_browsers_are_shown(
    ps: Seq<ProcessInfo>,
    sigs: Seq<SignatureConfig>,
    x: u32,
)
    requires
        !group::is_item(ps, group::classes(ps, sigs), x),
        !group::dev_browser(ps, group::classes(ps, sigs), x),
    ensures
        all_pids(group::grouped(ps, sigs)).count(x) == 0,
{
    let cls = group::classes(ps, sigs);
    let n = ps.len();
    let tops = group::items_under(ps, cls, None, n as int);
    group::items_are_items(ps, cls, None, n as int);
    nothing_else_in_trees(ps, cls, tops, n, x);
    folded_trees_hold_the_same(ps, cls, tops, n);
    assert(group::grouped(ps, sigs) =~= tops.map_values(
        |q: u32| group::collapsed(group::item_tree(ps, cls, q, n)),
    ));
}

/// A process that is not classified is shown nowhere; neither is a generic
/// runtime without arguments, nor one that merely started something of the
/// runtime.
pub proof fn what_is_not_shown(ps: Seq<ProcessInfo>, sigs: Seq<SignatureConfig>, k: int)
    requires
        pids_are_distinct(ps),
        0 <= k < ps.len(),
        rules::classified(ps[k], sigs) is None || (rules::classified(ps[k], sigs)->0.category
            == Category::UnknownDev && (ps[k].command@.len() == 0 || exists|j: int|
            0 <= j < ps.len() && (#[trigger] ps[j]).parent_pid == Some(ps[k].pid)
                && rules::classified(ps[j], sigs) is Some && rules::classified(
                ps[j],
                sigs,
            )->0.category != Category::Browser)),
    ensures
        all_pids(group::grouped(ps, sigs)).count(ps[k].pid) == 0,
{
    let cls = group::classes(ps, sigs);
    let pid = ps[k].pid;
    found_at(ps, k);
    assert(group::class_of(ps, cls, pid) == rules::classified(ps[k], sigs));
    if rules::classified(ps[k], sigs) is Some && ps[k].command@.len() > 0 {
        let j = choose|j: int|
            0 <= j < ps.len() && (#[trigger] ps[j]).parent_pid == Some(pid) && rules::classified(
                ps[j],
                sigs,
            ) is Some && rules::classified(ps[j], sigs)->0.category != Category::Browser;
        found_at(ps, j);
        assert(group::class_of(ps, cls, ps[j].pid) == rules::classified(ps[j], sigs));
        assert(group::counts(ps, cls, ps[j].pid));
        assert(pids::descends(ps, ps[j].pid, pid)) by {
            assert(pids::is_pid(pid)(pid));
        }
        assert(group::is_shim(ps, cls, pid));
    }
    only_items_and_browsers_are_shown(ps, sigs, pid);
}

/// The browsers below a process: all automated ones that descend from it.
proof fn browsers_below_are_all(
    ps: Seq<ProcessInfo>,
    cls: Seq<Option<rules::ClassModel>>,
    top: u32,
    n: int,
    k: int,
)
    requires
        0 <= k < n <= ps.len(),
        group::dev_browser(ps, cls, ps[k].pid),
        pids::descends(ps, ps[k].pid, top),
    ensures
        group::browsers_below(ps, cls, top, n).contains(ps[k].pid),
    decreases n,
{
    group::browsers_are_automated(ps, cls, top, n - 1);
    order::set_insert_facts(group::browsers_below(ps, cls, top, n - 1), ps[n - 1].pid);
    if k < n - 1 {
        browsers_below_are_all(ps, cls, top, n - 1, k);
    }
}

/// What stands in the tree of an item stands in every tree above it.
proof fn rolled_up_browser_is_in_the_tree(
    ps: Seq<ProcessInfo>,
    cls: Seq<Option<rules::ClassModel>>,
    depth: spec_fn(u32) -> nat,
    p: u32,
    q: u32,
    d: nat,
    x: u32,
)
    requires
        pids_are_distinct(ps),
        is_depth(ps, depth),
        group::is_item(ps, cls, p),
        group::is_item(ps, cls, q),
        leads(ps, cls, p, q, d),
        group::has_category(group::class_of(ps, cls, p), Category::Mcp),
        group::browsers_below(ps, cls, p, ps.len() as int).contains(x),
    ensures
        all_pids(seq![group::item_tree(ps, cls, q, d)]).count(x) >= 1,
    decreases d,
{
    let m = group::item_tree(ps, cls, q, d);
    let under = group::items_under(ps, cls, Some(q), ps.len() as int);
    let nested = if d == 0 {
        Seq::empty()
    } else {
        trees(ps, cls, under, (d - 1) as nat)
    };
    assert(nested =~= if d == 0 {
        Seq::empty()
    } else {
        Seq::new(under.len(), |i: int| group::item_tree(ps, cls, under[i], (d - 1) as nat))
    });
    one_tree(m);
    let rolled = if group::class_of(ps, cls, q)->0.category == Category::Mcp && group::rollup(
        ps,
        cls,
        q,
    ) is Some {
        seq![group::rollup(ps, cls, q)->0]
    } else {
        Seq::empty()
    };
    assert(m.children =~= nested + rolled);
    forests_add_up(nested, rolled);
    if p == q {
        let b = group::rollup(ps, cls, q)->0;
        one_tree(b);
        assert(b.pids.contains(x));
        assert(b.pids.to_multiset().count(x) > 0);
    } else {
        let e = (d - 1) as nat;
        let c = last_step(ps, cls, depth, p, q, d);
        rolled_up_browser_is_in_the_tree(ps, cls, depth, p, c, e, x);
        items_stand_once_under_their_parent(ps, cls, Some(q), ps.len() as int);
        pids::last_index_range(ps, c);
        let k = pids::last_index(ps, c)->0;
        assert(ps[k].pid == c);
        assert(under.contains(c));
        let i = choose|i: int| 0 <= i < under.len() && under[i] == c;
        assert(nested =~= nested.take(i) + seq![nested[i]] + nested.skip(i + 1));
        forests_add_up(nested.take(i) + seq![nested[i]], nested.skip(i + 1));
        forests_add_up(nested.take(i), seq![nested[i]]);
    }
}

/// A browser that an MCP server started is shown, whatever its command line
/// looks like.
pub proof fn browser_of_an_mcp_server_is_shown(
    ps: Seq<ProcessInfo>,
    sigs: Seq<SignatureConfig>,
    depth: spec_fn(u32) -> nat,
    k: int,
    j: int,
)
    requires
        pids_are_distinct(ps),
        is_depth(ps, depth),
        0 <= k < ps.len(),
        0 <= j < ps.len(),
        ps[k].parent_pid == Some(ps[j].pid),
        rules::classified(ps[k], sigs) is Some,
        rules::classified(ps[k], sigs)->0.category == Category::Browser,
        rules::classified(ps[j], sigs) is Some,
        rules::classified(ps[j], sigs)->0.category == Category::Mcp,
    ensures
        all_pids(group::grouped(ps, sigs)).count(ps[k].pid) >= 1,
{
    let cls = group::classes(ps, sigs);
    let n = ps.len();
    let x = ps[k].pid;
    let p = ps[j].pid;
    found_at(ps, k);
    found_at(ps, j);
    assert(group::class_of(ps, cls, x) == rules::classified(ps[k], sigs));
    assert(group::class_of(ps, cls, p) == rules::classified(ps[j], sigs));
    assert(group::has_controller(ps, cls, x)) by {
        assert(group::controls(ps, cls)(p));
    }
    assert(pids::descends(ps, x, p)) by {
        assert(pids::is_pid(p)(p));
    }
    browsers_below_are_all(ps, cls, p, n as int, k);
    assert(depth(p) < n);
    let t = top_of(ps, cls, depth, p, n);
    rolled_up_browser_is_in_the_tree(ps, cls, depth, p, t, n, x);
    let tops = group::items_under(ps, cls, None, n as int);
    items_stand_once_under_their_parent(ps, cls, None, n as int);
    pids::last_index_range(ps, t);
    let i = pids::last_index(ps, t)->0;
    assert(ps[i].pid == t);
    assert(tops.contains(t));
    let at = choose|at: int| 0 <= at < tops.len() && tops[at] == t;
    let all = trees(ps, cls, tops, n);
    assert(all =~= all.take(at) + seq![all[at]] + all.skip(at + 1));
    forests_add_up(all.take(at) + seq![all[at]], all.skip(at + 1));
    forests_add_up(all.take(at), seq![all[at]]);
    folded_trees_hold_the_same(ps, cls, tops, n);
    assert(group::grouped(ps, sigs) =~= tops.map_values(
        |q: u32| group::collapsed(group::item_tree(ps, cls, q, n)),
    ));
}

} // verus!

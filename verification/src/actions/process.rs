//! Signals to the processes of an item: which, in what order, and which of
//! them are left alone.

use crate::classify::forest;
use crate::classify::pids;
use crate::classify::pids::PidIndex;
use crate::model::process::ProcessInfo;
use crate::model::runtime::{ItemModel, RuntimeItem};
use vstd::prelude::*;

verus! {

/// Frozen process identity used to reject PID reuse.
#[derive(Debug, Clone, Copy, PartialEq, Eq, Structural)]
pub struct Identity {
    pub pid: u32,
    pub start_time: u64,
}

#[derive(Debug, Clone, Copy, PartialEq, Eq, Structural)]
pub enum Signal {
    Term,
    Kill,
}

#[derive(Debug, Clone, Copy, PartialEq, Eq, Structural)]
pub struct KillReport {
    pub signaled: usize,
    pub skipped: usize,
    pub failed: usize,
}

impl Default for KillReport {
    fn default() -> (r: Self)
        ensures
            r == (KillReport { signaled: 0, skipped: 0, failed: 0 }),
    {
        KillReport { signaled: 0, skipped: 0, failed: 0 }
    }
}

/// The pids of an item and of the items below it.
pub open spec fn pids_in(m: ItemModel) -> Seq<u32>
    decreases m, 1nat, 0nat,
{
    m.pids + pids_below(m, m.children.len())
}

/// The pids of the first `n` items below an item.
pub open spec fn pids_below(m: ItemModel, n: nat) -> Seq<u32>
    decreases m, 0nat, n,
{
    if n == 0 || n > m.children.len() {
        Seq::empty()
    } else {
        pids_below(m, (n - 1) as nat) + pids_in(m.children[n - 1])
    }
}

fn item_pids(item: &RuntimeItem) -> (r: Vec<u32>)
    ensures
        r@ == pids_in(item.model()),
    decreases item,
{
    let ghost m = item.model();
    proof {
        crate::model::runtime::model_children(*item);
    }
    let mut r: Vec<u32> = Vec::new();
    append(&mut r, &item.process_ids);
    let mut i: usize = 0;
    assert(r@ =~= m.pids + pids_below(m, 0));
    while i < item.children.len()
        invariant
            i <= item.children.len(),
            m == item.model(),
            m.children == crate::model::runtime::models(item.children@),
            r@ == m.pids + pids_below(m, i as nat),
        decreases item.children.len() - i,
    {
        assert(decreases_to!(item => item.children@[i as int]));
        let more: Vec<u32> = item_pids(&item.children[i]);
        append(&mut r, &more);
        assert(m.children[i as int] == item.children@[i as int].model());
        assert(r@ =~= m.pids + pids_below(m, (i + 1) as nat));
        i += 1;
    }
    r
}

fn append(v: &mut Vec<u32>, more: &Vec<u32>)
    ensures
        final(v)@ == old(v)@ + more@,
{
    let ghost before = v@;
    let mut i: usize = 0;
    assert(before + more@.take(0) =~= before);
    while i < more.len()
        invariant
            i <= more.len(),
            v@ == before + more@.take(i as int),
        decreases more.len() - i,
    {
        v.push(more[i]);
        assert(before + more@.take(i + 1) =~= (before + more@.take(i as int)).push(
            more@[i as int],
        ));
        i += 1;
    }
    assert(more@.take(more@.len() as int) =~= more@);
}

/// The processes among `allowed` whose parent is `pid`, in snapshot order.
pub open spec fn kids(ps: Seq<ProcessInfo>, allowed: Seq<u32>, pid: u32) -> Seq<u32>
    decreases ps.len(),
{
    if ps.len() == 0 {
        Seq::empty()
    } else {
        let rest = kids(ps.drop_last(), allowed, pid);
        if ps.last().parent_pid == Some(pid) && allowed.contains(ps.last().pid)
            && allowed.contains(pid) {
            rest.push(ps.last().pid)
        } else {
            rest
        }
    }
}

/// A walk under way: what it entered, and what it finished, in order.
pub struct Walk {
    pub seen: Seq<u32>,
    pub out: Seq<u32>,
}

/// How many of `allowed` have not been entered.
pub open spec fn left(allowed: Seq<u32>, seen: Seq<u32>) -> nat
    decreases allowed.len(),
{
    if allowed.len() == 0 {
        0
    } else {
        left(allowed.drop_last(), seen) + if seen.contains(allowed.last()) {
            0nat
        } else {
            1
        }
    }
}

proof fn left_shrinks(allowed: Seq<u32>, seen: Seq<u32>, more: Seq<u32>)
    requires
        forall|p: u32| seen.contains(p) ==> #[trigger] more.contains(p),
    ensures
        left(allowed, more) <= left(allowed, seen),
        forall|p: u32|
            allowed.contains(p) && !seen.contains(p) && #[trigger] more.contains(p) ==> left(
                allowed,
                more,
            ) < left(allowed, seen),
    decreases allowed.len(),
{
    if allowed.len() > 0 {
        left_shrinks(allowed.drop_last(), seen, more);
        assert forall|p: u32|
            allowed.contains(p) && !seen.contains(p) && #[trigger] more.contains(p) implies left(
            allowed,
            more,
        ) < left(allowed, seen) by {
            let k = choose|k: int| 0 <= k < allowed.len() && allowed[k] == p;
            if k < allowed.len() - 1 {
                assert(allowed.drop_last()[k] == p);
                assert(allowed.drop_last().contains(p));
            }
        }
    }
}

/// Visits a process after everything below it, unless it was entered before.
pub open spec fn visit(ps: Seq<ProcessInfo>, allowed: Seq<u32>, pid: u32, w: Walk) -> Walk
    decreases left(allowed, w.seen), 0nat,
    via visit_ends
{
    if w.seen.contains(pid) || !allowed.contains(pid) {
        w
    } else {
        let inner = visit_all(
            ps,
            allowed,
            kids(ps, allowed, pid),
            Walk { seen: w.seen.push(pid), out: w.out },
        );
        Walk { seen: inner.seen, out: inner.out.push(pid) }
    }
}

/// Visits processes one after the other.
pub open spec fn visit_all(ps: Seq<ProcessInfo>, allowed: Seq<u32>, list: Seq<u32>, w: Walk) -> Walk
    decreases left(allowed, w.seen), list.len(),
{
    if list.len() == 0 {
        w
    } else {
        let next = visit(ps, allowed, list[0], w);
        // A walk never forgets what it entered, so this always holds.
        if left(allowed, next.seen) <= left(allowed, w.seen) {
            visit_all(ps, allowed, list.skip(1), next)
        } else {
            next
        }
    }
}

#[via_fn]
proof fn visit_ends(ps: Seq<ProcessInfo>, allowed: Seq<u32>, pid: u32, w: Walk) {
    if !w.seen.contains(pid) && allowed.contains(pid) {
        entering_shrinks(allowed, w.seen, pid);
    }
}

/// Entering one more of the allowed processes leaves fewer to enter.
pub proof fn entering_shrinks(allowed: Seq<u32>, seen: Seq<u32>, pid: u32)
    requires
        !seen.contains(pid),
        allowed.contains(pid),
    ensures
        left(allowed, seen.push(pid)) < left(allowed, seen),
{
    pushed(seen, pid);
    left_shrinks(allowed, seen, seen.push(pid));
    assert(seen.push(pid).contains(pid));
}

/// The pids of `seeds`, deepest first.
pub open spec fn deepest_first(ps: Seq<ProcessInfo>, seeds: Seq<u32>) -> Seq<u32> {
    visit_all(ps, seeds, seeds, Walk { seen: Seq::empty(), out: Seq::empty() }).out
}

// ---------------------------------------------------------------------------
// Laws of the walk
// ---------------------------------------------------------------------------

proof fn kids_are_allowed(ps: Seq<ProcessInfo>, allowed: Seq<u32>, pid: u32)
    ensures
        forall|i: int|
            0 <= i < kids(ps, allowed, pid).len() ==> allowed.contains(
                #[trigger] kids(ps, allowed, pid)[i],
            ),
    decreases ps.len(),
{
    if ps.len() > 0 {
        kids_are_allowed(ps.drop_last(), allowed, pid);
        let rest = kids(ps.drop_last(), allowed, pid);
        assert forall|i: int| 0 <= i < kids(ps, allowed, pid).len() implies allowed.contains(
            #[trigger] kids(ps, allowed, pid)[i],
        ) by {
            if i < rest.len() {
                assert(kids(ps, allowed, pid)[i] == rest[i]);
            }
        }
    }
}

/// What every walk keeps: nothing is finished twice, only what was entered is
/// finished, and only allowed processes are entered.
pub open spec fn sound(allowed: Seq<u32>, w: Walk) -> bool {
    &&& w.out.no_duplicates()
    &&& forall|p: u32| #[trigger] w.out.contains(p) ==> w.seen.contains(p)
    &&& forall|p: u32| #[trigger] w.seen.contains(p) ==> allowed.contains(p)
}

/// Entered and not yet finished.
pub open spec fn open_at(w: Walk, p: u32) -> bool {
    w.seen.contains(p) && !w.out.contains(p)
}

/// What a visit makes of a walk: it goes on from it, and whatever it entered
/// it also finished.
pub open spec fn extends(allowed: Seq<u32>, w: Walk, r: Walk) -> bool {
    &&& sound(allowed, r)
    &&& forall|p: u32| w.seen.contains(p) ==> #[trigger] r.seen.contains(p)
    &&& w.out.is_prefix_of(r.out)
    &&& forall|p: u32| #[trigger] open_at(r, p) ==> open_at(w, p)
    &&& left(allowed, r.seen) <= left(allowed, w.seen)
}

/// What a list holds after one more was put at its end.
pub proof fn pushed(s: Seq<u32>, x: u32)
    ensures
        forall|p: u32| #[trigger] s.push(x).contains(p) <==> s.contains(p) || p == x,
{
    assert forall|p: u32| #[trigger] s.push(x).contains(p) <==> s.contains(p) || p == x by {
        if s.contains(p) {
            let k = choose|k: int| 0 <= k < s.len() && s[k] == p;
            assert(s.push(x)[k] == p);
        }
        if p == x {
            assert(s.push(x)[s.len() as int] == p);
        }
        if s.push(x).contains(p) {
            let k = choose|k: int| 0 <= k < s.push(x).len() && s.push(x)[k] == p;
            if k < s.len() {
                assert(s[k] == p);
            }
        }
    }
}

proof fn visit_extends(ps: Seq<ProcessInfo>, allowed: Seq<u32>, pid: u32, w: Walk)
    requires
        sound(allowed, w),
    ensures
        extends(allowed, w, visit(ps, allowed, pid, w)),
        allowed.contains(pid) ==> visit(ps, allowed, pid, w).seen.contains(pid),
    decreases left(allowed, w.seen), 0nat,
{
    if !w.seen.contains(pid) && allowed.contains(pid) {
        entering_shrinks(allowed, w.seen, pid);
        pushed(w.seen, pid);
        let w1 = Walk { seen: w.seen.push(pid), out: w.out };
        let list = kids(ps, allowed, pid);
        left_shrinks(allowed, w.seen, w1.seen);
        assert(sound(allowed, w1));
        visit_all_extends(ps, allowed, list, w1);
        let inner = visit_all(ps, allowed, list, w1);
        let r = visit(ps, allowed, pid, w);
        pushed(inner.out, pid);
        assert(w1.seen.contains(pid));
        assert(!inner.out.contains(pid)) by {
            // It was entered before anything of the inner walk was finished.
            visit_all_finishes_new(ps, allowed, list, w1);
        }
        assert(r.out.no_duplicates());
        left_shrinks(allowed, w.seen, r.seen);
        assert forall|p: u32| #[trigger] open_at(r, p) implies open_at(w, p) by {
            assert(open_at(inner, p));
            assert(open_at(w1, p));
        }
        assert forall|p: u32| w.seen.contains(p) implies #[trigger] r.seen.contains(p) by {
            assert(w1.seen.contains(p));
        }
    }
}

proof fn visit_all_extends(ps: Seq<ProcessInfo>, allowed: Seq<u32>, list: Seq<u32>, w: Walk)
    requires
        sound(allowed, w),
    ensures
        extends(allowed, w, visit_all(ps, allowed, list, w)),
        forall|i: int|
            0 <= i < list.len() && allowed.contains(#[trigger] list[i]) ==> visit_all(
                ps,
                allowed,
                list,
                w,
            ).seen.contains(list[i]),
    decreases left(allowed, w.seen), list.len(),
{
    if list.len() > 0 {
        let next = visit(ps, allowed, list[0], w);
        visit_extends(ps, allowed, list[0], w);
        visit_all_extends(ps, allowed, list.skip(1), next);
        let r = visit_all(ps, allowed, list, w);
        assert(r == visit_all(ps, allowed, list.skip(1), next));
        assert forall|i: int|
            0 <= i < list.len() && allowed.contains(#[trigger] list[i]) implies r.seen.contains(
            list[i],
        ) by {
            if i > 0 {
                assert(list.skip(1)[i - 1] == list[i]);
            } else {
                assert(next.seen.contains(list[0]));
            }
        }
        assert forall|p: u32| w.seen.contains(p) implies #[trigger] r.seen.contains(p) by {
            assert(next.seen.contains(p));
        }
        assert forall|p: u32| #[trigger] open_at(r, p) implies open_at(w, p) by {
            assert(open_at(next, p));
        }
    }
}

/// Nothing that was entered before a visit is finished by it.
proof fn visit_finishes_new(ps: Seq<ProcessInfo>, allowed: Seq<u32>, pid: u32, w: Walk)
    requires
        sound(allowed, w),
    ensures
        forall|p: u32|
            w.seen.contains(p) && #[trigger] visit(ps, allowed, pid, w).out.contains(p)
                ==> w.out.contains(p),
    decreases left(allowed, w.seen), 0nat,
{
    if !w.seen.contains(pid) && allowed.contains(pid) {
        entering_shrinks(allowed, w.seen, pid);
        pushed(w.seen, pid);
        let w1 = Walk { seen: w.seen.push(pid), out: w.out };
        let list = kids(ps, allowed, pid);
        left_shrinks(allowed, w.seen, w1.seen);
        assert(sound(allowed, w1));
        visit_all_finishes_new(ps, allowed, list, w1);
        let inner = visit_all(ps, allowed, list, w1);
        pushed(inner.out, pid);
        assert forall|p: u32|
            w.seen.contains(p) && #[trigger] visit(ps, allowed, pid, w).out.contains(
                p,
            ) implies w.out.contains(p) by {
            assert(w1.seen.contains(p));
            assert(inner.out.contains(p));
        }
    }
}

proof fn visit_all_finishes_new(ps: Seq<ProcessInfo>, allowed: Seq<u32>, list: Seq<u32>, w: Walk)
    requires
        sound(allowed, w),
    ensures
        forall|p: u32|
            w.seen.contains(p) && #[trigger] visit_all(ps, allowed, list, w).out.contains(p)
                ==> w.out.contains(p),
    decreases left(allowed, w.seen), list.len(),
{
    if list.len() > 0 {
        let next = visit(ps, allowed, list[0], w);
        visit_extends(ps, allowed, list[0], w);
        visit_finishes_new(ps, allowed, list[0], w);
        visit_all_finishes_new(ps, allowed, list.skip(1), next);
        assert(visit_all(ps, allowed, list, w) == visit_all(ps, allowed, list.skip(1), next));
        assert forall|p: u32|
            w.seen.contains(p) && #[trigger] visit_all(ps, allowed, list, w).out.contains(
                p,
            ) implies w.out.contains(p) by {
            assert(next.seen.contains(p));
            assert(next.out.contains(p));
        }
    }
}

/// Exactly the item's own processes are signaled, each once: OS children that
/// are not part of the item are left alone.
pub proof fn walk_covers_the_seeds(ps: Seq<ProcessInfo>, seeds: Seq<u32>)
    ensures
        deepest_first(ps, seeds).no_duplicates(),
        forall|p: u32| #[trigger] deepest_first(ps, seeds).contains(p) <==> seeds.contains(p),
{
    let w = Walk { seen: Seq::empty(), out: Seq::empty() };
    visit_all_extends(ps, seeds, seeds, w);
    let r = visit_all(ps, seeds, seeds, w);
    assert forall|p: u32| #[trigger] deepest_first(ps, seeds).contains(p) <==> seeds.contains(p) by {
        if seeds.contains(p) {
            let k = choose|k: int| 0 <= k < seeds.len() && seeds[k] == p;
            assert(r.seen.contains(seeds[k]));
            if !r.out.contains(p) {
                assert(open_at(r, p));
                assert(open_at(w, p));
            }
        }
    }
}

/// Every process of a list stands behind all its children.
pub open spec fn children_first(ps: Seq<ProcessInfo>, allowed: Seq<u32>, out: Seq<u32>) -> bool {
    forall|i: int, c: u32|
        0 <= i < out.len() && #[trigger] kids(ps, allowed, out[i]).contains(c) ==> out.take(
            i,
        ).contains(c)
}

/// `rank` grows from parent to child, so no process is its own ancestor.
pub open spec fn grows_downwards(
    ps: Seq<ProcessInfo>,
    allowed: Seq<u32>,
    rank: spec_fn(u32) -> nat,
) -> bool {
    forall|p: u32, c: u32| #[trigger] kids(ps, allowed, p).contains(c) ==> rank(p) < rank(c)
}

pub open spec fn open_below(w: Walk, rank: spec_fn(u32) -> nat, bound: nat) -> bool {
    forall|q: u32| #[trigger] open_at(w, q) ==> rank(q) < bound
}

proof fn visit_orders(
    ps: Seq<ProcessInfo>,
    allowed: Seq<u32>,
    pid: u32,
    w: Walk,
    rank: spec_fn(u32) -> nat,
)
    requires
        sound(allowed, w),
        grows_downwards(ps, allowed, rank),
        open_below(w, rank, rank(pid)),
        children_first(ps, allowed, w.out),
    ensures
        children_first(ps, allowed, visit(ps, allowed, pid, w).out),
    decreases left(allowed, w.seen), 0nat,
{
    if !w.seen.contains(pid) && allowed.contains(pid) {
        entering_shrinks(allowed, w.seen, pid);
        pushed(w.seen, pid);
        let w1 = Walk { seen: w.seen.push(pid), out: w.out };
        let list = kids(ps, allowed, pid);
        left_shrinks(allowed, w.seen, w1.seen);
        assert(sound(allowed, w1));
        assert forall|i: int| 0 <= i < list.len() implies open_below(
            w1,
            rank,
            rank(#[trigger] list[i]),
        ) by {
            assert(kids(ps, allowed, pid).contains(list[i]));
            assert forall|q: u32| #[trigger] open_at(w1, q) implies rank(q) < rank(list[i]) by {
                if q != pid {
                    assert(open_at(w, q));
                }
            }
        }
        visit_all_orders(ps, allowed, list, w1, rank);
        visit_all_extends(ps, allowed, list, w1);
        kids_are_allowed(ps, allowed, pid);
        let inner = visit_all(ps, allowed, list, w1);
        let r = visit(ps, allowed, pid, w);
        assert forall|i: int, c: u32|
            0 <= i < r.out.len() && #[trigger] kids(ps, allowed, r.out[i]).contains(
                c,
            ) implies r.out.take(i).contains(c) by {
            if i < inner.out.len() {
                assert(r.out[i] == inner.out[i]);
                assert(r.out.take(i) =~= inner.out.take(i));
            } else {
                assert(r.out.take(i) =~= inner.out);
                let k = choose|k: int| 0 <= k < list.len() && list[k] == c;
                assert(inner.seen.contains(list[k]));
                if !inner.out.contains(c) {
                    assert(open_at(inner, c));
                    assert(open_at(w1, c));
                    assert(open_below(w1, rank, rank(list[k])));
                }
            }
        }
    }
}

proof fn visit_all_orders(
    ps: Seq<ProcessInfo>,
    allowed: Seq<u32>,
    list: Seq<u32>,
    w: Walk,
    rank: spec_fn(u32) -> nat,
)
    requires
        sound(allowed, w),
        grows_downwards(ps, allowed, rank),
        forall|i: int| 0 <= i < list.len() ==> open_below(w, rank, rank(#[trigger] list[i])),
        children_first(ps, allowed, w.out),
    ensures
        children_first(ps, allowed, visit_all(ps, allowed, list, w).out),
    decreases left(allowed, w.seen), list.len(),
{
    if list.len() > 0 {
        let next = visit(ps, allowed, list[0], w);
        visit_extends(ps, allowed, list[0], w);
        visit_orders(ps, allowed, list[0], w, rank);
        let rest = list.skip(1);
        assert forall|i: int| 0 <= i < rest.len() implies open_below(
            next,
            rank,
            rank(#[trigger] rest[i]),
        ) by {
            assert(rest[i] == list[i + 1]);
            assert(open_below(w, rank, rank(list[i + 1])));
            assert forall|q: u32| #[trigger] open_at(next, q) implies rank(q) < rank(rest[i]) by {
                assert(open_at(w, q));
            }
        }
        visit_all_orders(ps, allowed, rest, next, rank);
    }
}

/// The walk is deepest first: in a snapshot where no process is its own
/// ancestor, every process comes after all its children in the item.
pub proof fn children_come_before_parents(
    ps: Seq<ProcessInfo>,
    seeds: Seq<u32>,
    rank: spec_fn(u32) -> nat,
)
    requires
        grows_downwards(ps, seeds, rank),
    ensures
        children_first(ps, seeds, deepest_first(ps, seeds)),
{
    let w = Walk { seen: Seq::empty(), out: Seq::empty() };
    visit_all_orders(ps, seeds, seeds, w, rank);
}

// ---------------------------------------------------------------------------
// Signaling
// ---------------------------------------------------------------------------

/// Whether a list holds a pid.
pub fn has_pid(list: &Vec<u32>, pid: u32) -> (r: bool)
    ensures
        r == list@.contains(pid),
{
    let mut i: usize = 0;
    while i < list.len()
        invariant
            i <= list.len(),
            forall|k: int| 0 <= k < i ==> list@[k] != pid,
        decreases list.len() - i,
    {
        if list[i] == pid {
            return true;
        }
        i += 1;
    }
    false
}

fn kids_of(ps: &Vec<ProcessInfo>, allowed: &Vec<u32>, pid: u32) -> (r: Vec<u32>)
    ensures
        r@ == kids(ps@, allowed@, pid),
{
    let mut r: Vec<u32> = Vec::new();
    let known: bool = has_pid(allowed, pid);
    let mut i: usize = 0;
    assert(ps@.take(0) =~= Seq::<ProcessInfo>::empty());
    assert(r@ =~= Seq::<u32>::empty());
    while i < ps.len()
        invariant
            i <= ps.len(),
            known == allowed@.contains(pid),
            r@ == kids(ps@.take(i as int), allowed@, pid),
        decreases ps.len() - i,
    {
        assert(ps@.take(i + 1).drop_last() =~= ps@.take(i as int));
        if ps[i].parent_pid == Some(pid) && known && has_pid(allowed, ps[i].pid) {
            r.push(ps[i].pid);
        }
        i += 1;
    }
    assert(ps@.take(ps@.len() as int) =~= ps@);
    r
}

fn walk(
    ps: &Vec<ProcessInfo>,
    allowed: &Vec<u32>,
    pid: u32,
    seen: &mut Vec<u32>,
    out: &mut Vec<u32>,
)
    requires
        sound(allowed@, Walk { seen: old(seen)@, out: old(out)@ }),
    ensures
        (Walk { seen: final(seen)@, out: final(out)@ }) == visit(
            ps@,
            allowed@,
            pid,
            Walk { seen: old(seen)@, out: old(out)@ },
        ),
    decreases left(allowed@, old(seen)@),
{
    if has_pid(seen, pid) || !has_pid(allowed, pid) {
        return ;
    }
    let ghost w = Walk { seen: seen@, out: out@ };
    proof {
        entering_shrinks(allowed@, w.seen, pid);
        pushed(w.seen, pid);
        left_shrinks(allowed@, w.seen, w.seen.push(pid));
    }
    seen.push(pid);
    let list: Vec<u32> = kids_of(ps, allowed, pid);
    let ghost w1 = Walk { seen: seen@, out: out@ };
    assert(sound(allowed@, w1));
    let mut i: usize = 0;
    assert(list@.skip(0) =~= list@);
    while i < list.len()
        invariant
            i <= list.len(),
            sound(allowed@, Walk { seen: seen@, out: out@ }),
            left(allowed@, seen@) < left(allowed@, w.seen),
            w.seen == old(seen)@,
            visit_all(ps@, allowed@, list@, w1) == visit_all(
                ps@,
                allowed@,
                list@.skip(i as int),
                Walk { seen: seen@, out: out@ },
            ),
        decreases list.len() - i,
    {
        let ghost here = Walk { seen: seen@, out: out@ };
        proof {
            visit_extends(ps@, allowed@, list@[i as int], here);
            assert(list@.skip(i as int)[0] == list@[i as int]);
            assert(list@.skip(i as int).skip(1) =~= list@.skip(i + 1));
        }
        walk(ps, allowed, list[i], seen, out);
        i += 1;
    }
    out.push(pid);
}

fn postorder(seeds: &Vec<u32>, ps: &Vec<ProcessInfo>) -> (r: Vec<u32>)
    ensures
        r@ == deepest_first(ps@, seeds@),
{
    let mut seen: Vec<u32> = Vec::new();
    let mut out: Vec<u32> = Vec::new();
    let ghost w = Walk { seen: seen@, out: out@ };
    assert(w.seen =~= Seq::<u32>::empty());
    assert(w.out =~= Seq::<u32>::empty());
    let mut i: usize = 0;
    assert(seeds@.skip(0) =~= seeds@);
    while i < seeds.len()
        invariant
            i <= seeds.len(),
            sound(seeds@, Walk { seen: seen@, out: out@ }),
            visit_all(ps@, seeds@, seeds@, w) == visit_all(
                ps@,
                seeds@,
                seeds@.skip(i as int),
                Walk { seen: seen@, out: out@ },
            ),
        decreases seeds.len() - i,
    {
        let ghost here = Walk { seen: seen@, out: out@ };
        proof {
            visit_extends(ps@, seeds@, seeds@[i as int], here);
            assert(seeds@.skip(i as int)[0] == seeds@[i as int]);
            assert(seeds@.skip(i as int).skip(1) =~= seeds@.skip(i + 1));
        }
        walk(ps, seeds, seeds[i], &mut seen, &mut out);
        i += 1;
    }
    out
}

/// The identities of the listed processes that are in the snapshot.
pub open spec fn identified(ps: Seq<ProcessInfo>, list: Seq<u32>) -> Seq<Identity>
    decreases list.len(),
{
    if list.len() == 0 {
        Seq::empty()
    } else {
        let rest = identified(ps, list.drop_last());
        match pids::by_pid(ps, list.last()) {
            Some(p) => rest.push(Identity { pid: list.last(), start_time: p.start_time }),
            None => rest,
        }
    }
}

/// PIDs recorded on `item` (and nested items), deepest first. OS children
/// that are not part of the item are left alone: a whole process group is
/// never signaled.
pub fn identities_for(item: &RuntimeItem, processes: &Vec<ProcessInfo>) -> (r: Vec<Identity>)
    ensures
        r@ == identified(processes@, deepest_first(processes@, pids_in(item.model()))),
{
    let seeds: Vec<u32> = item_pids(item);
    let order: Vec<u32> = postorder(&seeds, processes);
    let index: PidIndex = PidIndex::new(processes);
    let mut r: Vec<Identity> = Vec::new();
    let mut i: usize = 0;
    assert(order@.take(0) =~= Seq::<u32>::empty());
    assert(r@ =~= Seq::<Identity>::empty());
    while i < order.len()
        invariant
            i <= order.len(),
            index.wf(processes@),
            r@ == identified(processes@, order@.take(i as int)),
        decreases order.len() - i,
    {
        assert(order@.take(i + 1).drop_last() =~= order@.take(i as int));
        let pid: u32 = order[i];
        if let Some(k) = index.find(Ghost(processes@), pid) {
            r.push(Identity { pid, start_time: processes[k].start_time });
        }
        i += 1;
    }
    assert(order@.take(order@.len() as int) =~= order@);
    r
}

/// Whether a live start time (none where the pid is gone) belongs to a
/// frozen identity; an unknown start time on either side counts as a match.
pub open spec fn still_same(id: Identity, live: Option<u64>) -> bool {
    match live {
        None => false,
        Some(start) => id.start_time == 0 || start == 0 || id.start_time == start,
    }
}

pub fn identity_holds(id: &Identity, live: Option<u64>) -> (r: bool)
    ensures
        r == still_same(*id, live),
{
    match live {
        None => false,
        Some(start) => if id.start_time != 0 && start != 0 {
            id.start_time == start
        } else {
            true
        },
    }
}

/// A pid that was reused since is never signaled.
pub proof fn reused_pid_is_skipped(id: Identity, start: u64)
    requires
        id.start_time != 0,
        start != 0,
        start != id.start_time,
    ensures
        !still_same(id, Some(start)),
{
}

/// What the system said to one signal.
#[derive(Debug, Clone, Copy, PartialEq, Eq, Structural)]
pub enum Reply {
    /// Not asked: the identity no longer holds.
    NotAsked,
    Delivered,
    /// An error number.
    Refused(i32),
}

/// How often a kind of reply occurs: delivered, skipped or failed. A process
/// that vanished meanwhile (`ESRCH`) was skipped.
pub open spec fn is_skip(r: Reply) -> bool {
    r == Reply::NotAsked || r == Reply::Refused(3)
}

pub open spec fn counted(replies: Seq<Reply>) -> (nat, nat, nat)
    decreases replies.len(),
{
    if replies.len() == 0 {
        (0, 0, 0)
    } else {
        let c = counted(replies.drop_last());
        if replies.last() == Reply::Delivered {
            (c.0 + 1, c.1, c.2)
        } else if is_skip(replies.last()) {
            (c.0, c.1 + 1, c.2)
        } else {
            (c.0, c.1, c.2 + 1)
        }
    }
}

/// Sums up the replies to a round of signals.
pub fn report(replies: &Vec<Reply>) -> (r: KillReport)
    ensures
        (r.signaled as nat, r.skipped as nat, r.failed as nat) == counted(replies@),
        r.signaled + r.skipped + r.failed == replies@.len(),
{
    let mut r: KillReport = KillReport::default();
    let mut i: usize = 0;
    assert(replies@.take(0) =~= Seq::<Reply>::empty());
    while i < replies.len()
        invariant
            i <= replies.len(),
            (r.signaled as nat, r.skipped as nat, r.failed as nat) == counted(
                replies@.take(i as int),
            ),
            r.signaled + r.skipped + r.failed == i,
        decreases replies.len() - i,
    {
        assert(replies@.take(i + 1).drop_last() =~= replies@.take(i as int));
        match replies[i] {
            Reply::Delivered => {
                r.signaled = r.signaled + 1;
            },
            Reply::NotAsked => {
                r.skipped = r.skipped + 1;
            },
            Reply::Refused(e) => {
                if e == 3 {
                    r.skipped = r.skipped + 1;
                } else {
                    r.failed = r.failed + 1;
                }
            },
        }
        i += 1;
    }
    assert(replies@.take(replies@.len() as int) =~= replies@);
    r
}

// ---------------------------------------------------------------------------
// Who is signaled
// ---------------------------------------------------------------------------

/// The processes of an item are those of the whole tree, each as often as it
/// is listed there.
pub proof fn item_holds_the_pids_of_its_tree(m: ItemModel)
    ensures
        pids_in(m).to_multiset() == m.pids.to_multiset().add(forest::all_pids(m.children)),
    decreases m, 1nat, 0nat,
{
    pids_below_are_those_of_the_children(m, m.children.len());
    assert(m.children.take(m.children.len() as int) =~= m.children);
    vstd::seq_lib::lemma_multiset_commutative(m.pids, pids_below(m, m.children.len()));
}

proof fn pids_below_are_those_of_the_children(m: ItemModel, n: nat)
    requires
        n <= m.children.len(),
    ensures
        pids_below(m, n).to_multiset() == forest::all_pids(m.children.take(n as int)),
    decreases m, 0nat, n,
{
    broadcast use {
        vstd::seq_lib::group_to_multiset_ensures,
        vstd::multiset::group_multiset_axioms,
    };

    if n == 0 {
        assert(m.children.take(0) =~= Seq::<ItemModel>::empty());
        assert(pids_below(m, 0).to_multiset() =~= forest::all_pids(m.children.take(0)));
    } else {
        let k = n - 1;
        let c = m.children[k];
        pids_below_are_those_of_the_children(m, k as nat);
        assert(decreases_to!(m => m.children[k]));
        item_holds_the_pids_of_its_tree(c);
        vstd::seq_lib::lemma_multiset_commutative(pids_below(m, k as nat), pids_in(c));
        assert(m.children.take(n as int).drop_last() =~= m.children.take(k));
        assert(m.children.take(n as int).last() == c);
        assert(pids_below(m, n).to_multiset() =~= forest::all_pids(m.children.take(n as int)));
    }
}

/// The children that count are the processes that name the parent, where both
/// belong to the item.
pub proof fn kids_name_their_parent(ps: Seq<ProcessInfo>, allowed: Seq<u32>, pid: u32)
    ensures
        forall|c: u32|
            #[trigger] kids(ps, allowed, pid).contains(c) <==> allowed.contains(pid)
                && allowed.contains(c) && exists|i: int|
                0 <= i < ps.len() && (#[trigger] ps[i]).pid == c && ps[i].parent_pid == Some(pid),
    decreases ps.len(),
{
    if ps.len() > 0 {
        let front = ps.drop_last();
        let rest = kids(front, allowed, pid);
        let all = kids(ps, allowed, pid);
        kids_name_their_parent(front, allowed, pid);
        pushed(rest, ps.last().pid);
        assert forall|c: u32|
            #[trigger] all.contains(c) <==> allowed.contains(pid) && allowed.contains(c) && exists|
                i: int,
            |
                0 <= i < ps.len() && (#[trigger] ps[i]).pid == c && ps[i].parent_pid == Some(
                    pid,
                ) by {
            if rest.contains(c) {
                let i = choose|i: int|
                    0 <= i < front.len() && (#[trigger] front[i]).pid == c && front[i].parent_pid
                        == Some(pid);
                assert(ps[i] == front[i]);
            } else if all.contains(c) {
                assert(ps[ps.len() - 1].pid == c);
            }
            if allowed.contains(pid) && allowed.contains(c) && exists|i: int|
                0 <= i < ps.len() && (#[trigger] ps[i]).pid == c && ps[i].parent_pid == Some(
                    pid,
                ) {
                let i = choose|i: int|
                    0 <= i < ps.len() && (#[trigger] ps[i]).pid == c && ps[i].parent_pid == Some(
                        pid,
                    );
                if i < front.len() {
                    assert(front[i] == ps[i]);
                    assert(rest.contains(c));
                } else {
                    assert(ps[i] == ps.last());
                }
            }
        }
    }
}

proof fn listed_process_is_identified(ps: Seq<ProcessInfo>, list: Seq<u32>, id: Identity)
    ensures
        identified(ps, list).contains(id) <==> list.contains(id.pid) && pids::by_pid(
            ps,
            id.pid,
        ) is Some && pids::by_pid(ps, id.pid)->0.start_time == id.start_time,
    decreases list.len(),
{
    if list.len() > 0 {
        let front = list.drop_last();
        let rest = identified(ps, front);
        let all = identified(ps, list);
        listed_process_is_identified(ps, front, id);
        assert(front.push(list.last()) =~= list);
        pushed(front, list.last());
        if all.contains(id) {
            let k = choose|k: int| 0 <= k < all.len() && all[k] == id;
            if k < rest.len() {
                assert(rest[k] == id);
            } else {
                assert(id.pid == list.last());
            }
        }
        if rest.contains(id) {
            let k = choose|k: int| 0 <= k < rest.len() && rest[k] == id;
            assert(all[k] == id);
        } else if list.contains(id.pid) && pids::by_pid(ps, id.pid) is Some && pids::by_pid(
            ps,
            id.pid,
        )->0.start_time == id.start_time {
            assert(id.pid == list.last());
            assert(all[rest.len() as int] == id);
        }
    }
}

/// A signal to an item goes to every process that it or an item below it
/// lists and that is in the snapshot, with the start time it was seen with,
/// and to nobody else.
pub proof fn all_of_the_item_is_signaled(ps: Seq<ProcessInfo>, m: ItemModel, i: int)
    requires
        0 <= i < ps.len(),
        forall|a: int, b: int|
            0 <= a < b < ps.len() ==> (#[trigger] ps[a]).pid != (#[trigger] ps[b]).pid,
    ensures
        ({
            let ids = identified(ps, deepest_first(ps, pids_in(m)));
            let listed = m.pids.to_multiset().add(forest::all_pids(m.children)).count(ps[i].pid)
                > 0;
            &&& ids.contains(Identity { pid: ps[i].pid, start_time: ps[i].start_time }) <==> listed
            &&& forall|id: Identity|
                #[trigger] ids.contains(id) ==> exists|k: int|
                    0 <= k < ps.len() && (#[trigger] ps[k]).pid == id.pid && ps[k].start_time
                        == id.start_time
        }),
{
    broadcast use vstd::seq_lib::group_to_multiset_ensures;

    let seeds = pids_in(m);
    let order = deepest_first(ps, seeds);
    let ids = identified(ps, order);
    let id = Identity { pid: ps[i].pid, start_time: ps[i].start_time };
    item_holds_the_pids_of_its_tree(m);
    walk_covers_the_seeds(ps, seeds);
    listed_process_is_identified(ps, order, id);
    pids::last_index_range(ps, ps[i].pid);
    let k = pids::last_index(ps, ps[i].pid)->0;
    assert(k == i) by {
        if k < i {
            assert(ps[k].pid != ps[i].pid);
        } else if i < k {
            assert(ps[i].pid != ps[k].pid);
        }
    }
    assert(seeds.contains(ps[i].pid) <==> seeds.to_multiset().count(ps[i].pid) > 0);
    assert(order.contains(ps[i].pid) <==> seeds.contains(ps[i].pid));
    assert forall|x: Identity| #[trigger] ids.contains(x) implies exists|k: int|
        0 <= k < ps.len() && (#[trigger] ps[k]).pid == x.pid && ps[k].start_time
            == x.start_time by {
        listed_process_is_identified(ps, order, x);
        pids::last_index_range(ps, x.pid);
        let n = pids::last_index(ps, x.pid)->0;
        assert(ps[n].pid == x.pid);
    }
}

/// A live process is still the one that was frozen where the pid is alive and
/// the start times agree, or one of them is not known.
pub proof fn identity_holds_by_start_time(id: Identity, live: Option<u64>)
    ensures
        still_same(id, live) <==> live is Some && (live->0 == id.start_time || live->0 == 0
            || id.start_time == 0),
{
}

/// A round of signals is summed up by its replies: those delivered; those not
/// asked or answered that the process is gone; and every other refusal.
pub proof fn replies_are_counted_by_kind(replies: Seq<Reply>)
    ensures
        counted(replies).0 == replies.filter(|r: Reply| r == Reply::Delivered).len(),
        counted(replies).1 == replies.filter(
            |r: Reply| r == Reply::NotAsked || r == Reply::Refused(3),
        ).len(),
        counted(replies).2 == replies.filter(|r: Reply| r is Refused && r != Reply::Refused(3)).len(),
    decreases replies.len(),
{
    reveal(Seq::filter);
    if replies.len() > 0 {
        replies_are_counted_by_kind(replies.drop_last());
    }
}

} // verus!

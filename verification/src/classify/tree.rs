//! Process ancestry.

use crate::classify::order;
use crate::classify::order::insert_desc;
use crate::classify::pids;
use crate::classify::pids::PidIndex;
use crate::model::process::ProcessInfo;
use vstd::prelude::*;

verus! {

// ---------------------------------------------------------------------------
// Model
// ---------------------------------------------------------------------------

/// Who descends from whom.
pub struct ForestModel {
    /// The pids of the snapshot, each once, as first listed.
    pub pids: Seq<u32>,
    /// For each of them its children, biggest consumers first.
    pub kids: Seq<Seq<u32>>,
    /// Processes whose parent is not in the snapshot, biggest first.
    pub roots: Seq<u32>,
}

/// The pids of the first `n` processes, each once.
pub open spec fn distinct_pids(ps: Seq<ProcessInfo>, n: int) -> Seq<u32>
    decreases n,
{
    if n <= 0 || n > ps.len() {
        Seq::empty()
    } else {
        let rest = distinct_pids(ps, n - 1);
        if rest.contains(ps[n - 1].pid) {
            rest
        } else {
            rest.push(ps[n - 1].pid)
        }
    }
}

/// The parent of a process where it is in the snapshot.
pub open spec fn present_parent(ps: Seq<ProcessInfo>, p: ProcessInfo) -> Option<u32> {
    match p.parent_pid {
        Some(pp) if pids::present(ps, pp) => Some(pp),
        _ => None,
    }
}

/// Those of the first `n` processes whose parent is `par`, or is not in the
/// snapshot where that is none; biggest first.
pub open spec fn children_upto(ps: Seq<ProcessInfo>, par: Option<u32>, n: int) -> Seq<u32>
    decreases n,
{
    if n <= 0 || n > ps.len() {
        Seq::empty()
    } else {
        let rest = children_upto(ps, par, n - 1);
        if present_parent(ps, ps[n - 1]) == par {
            let pid = ps[n - 1].pid;
            rest.insert(order::slot(rest, pid, pids::memory_key(ps)), pid)
        } else {
            rest
        }
    }
}

pub open spec fn forest_of(ps: Seq<ProcessInfo>) -> ForestModel {
    let listed = distinct_pids(ps, ps.len() as int);
    ForestModel {
        pids: listed,
        kids: listed.map_values(|pid: u32| children_upto(ps, Some(pid), ps.len() as int)),
        roots: children_upto(ps, None, ps.len() as int),
    }
}

impl ForestModel {
    pub open spec fn children(self, pid: u32) -> Seq<u32> {
        if self.pids.contains(pid) {
            self.kids[self.pids.index_of(pid)]
        } else {
            Seq::empty()
        }
    }

    /// Pids with this depth, in reverse: the next one to visit is last.
    pub open spec fn pending(list: Seq<u32>, depth: nat) -> Seq<(u32, nat)> {
        Seq::new(list.len(), |i: int| (list[list.len() - 1 - i], depth))
    }

    /// Depth first: visits what is pending, children before siblings, nobody
    /// twice. `out` is what was visited already.
    pub open spec fn walked(self, stack: Seq<(u32, nat)>, out: Seq<(u32, nat)>) -> Seq<(u32, nat)>
        decreases unvisited(self.pids, out), stack.len(),
        via Self::walked_decreases
    {
        if stack.len() == 0 {
            out
        } else {
            let pid = stack.last().0;
            let depth = stack.last().1;
            let rest = stack.drop_last();
            if visited(out, pid) || !self.pids.contains(pid) {
                self.walked(rest, out)
            } else {
                self.walked(
                    rest + Self::pending(self.children(pid), depth + 1),
                    out.push((pid, depth)),
                )
            }
        }
    }

    #[via_fn]
    proof fn walked_decreases(self, stack: Seq<(u32, nat)>, out: Seq<(u32, nat)>) {
        if stack.len() > 0 {
            let pid = stack.last().0;
            if !visited(out, pid) && self.pids.contains(pid) {
                visit_makes_progress(self.pids, out, (pid, stack.last().1));
            }
        }
    }

    /// Pids not visited yet, as listed.
    pub open spec fn missing(self, out: Seq<(u32, nat)>, n: int) -> Seq<u32>
        decreases n,
    {
        if n <= 0 || n > self.pids.len() {
            Seq::empty()
        } else if visited(out, self.pids[n - 1]) {
            self.missing(out, n - 1)
        } else {
            self.missing(out, n - 1).push(self.pids[n - 1])
        }
    }

    /// The forest from its roots; then what only a cycle leads to.
    pub open spec fn preordered(self) -> Seq<(u32, nat)> {
        let a = self.walked(Self::pending(self.roots, 0), Seq::empty());
        self.walked(Self::pending(self.missing(a, self.pids.len() as int), 0), a)
    }
}

pub open spec fn visited(out: Seq<(u32, nat)>, pid: u32) -> bool {
    exists|k: int| 0 <= k < out.len() && (#[trigger] out[k]).0 == pid
}

/// How many of these were not visited.
pub open spec fn unvisited(list: Seq<u32>, out: Seq<(u32, nat)>) -> nat
    decreases list.len(),
{
    if list.len() == 0 {
        0
    } else {
        unvisited(list.drop_last(), out) + if visited(out, list.last()) {
            0nat
        } else {
            1
        }
    }
}

proof fn visited_after_push(out: Seq<(u32, nat)>, e: (u32, nat), pid: u32)
    ensures
        visited(out.push(e), pid) <==> visited(out, pid) || pid == e.0,
{
    let more = out.push(e);
    if visited(out, pid) {
        let k = choose|k: int| 0 <= k < out.len() && (#[trigger] out[k]).0 == pid;
        assert(more[k].0 == pid);
    }
    if pid == e.0 {
        assert(more[out.len() as int].0 == pid);
    }
    if visited(more, pid) {
        let k = choose|k: int| 0 <= k < more.len() && (#[trigger] more[k]).0 == pid;
        if k < out.len() {
            assert(out[k].0 == pid);
        }
    }
}

proof fn unvisited_shrinks(list: Seq<u32>, out: Seq<(u32, nat)>, e: (u32, nat))
    ensures
        unvisited(list, out.push(e)) <= unvisited(list, out),
    decreases list.len(),
{
    if list.len() > 0 {
        unvisited_shrinks(list.drop_last(), out, e);
        visited_after_push(out, e, list.last());
    }
}

proof fn visit_makes_progress(list: Seq<u32>, out: Seq<(u32, nat)>, e: (u32, nat))
    requires
        list.contains(e.0),
        !visited(out, e.0),
    ensures
        unvisited(list, out.push(e)) < unvisited(list, out),
    decreases list.len(),
{
    let rest = list.drop_last();
    visited_after_push(out, e, list.last());
    if list.last() == e.0 {
        unvisited_shrinks(rest, out, e);
    } else {
        let k = choose|k: int| 0 <= k < list.len() && list[k] == e.0;
        assert(rest[k] == e.0);
        visit_makes_progress(rest, out, e);
    }
}

// ---------------------------------------------------------------------------
// Laws
// ---------------------------------------------------------------------------

pub open spec fn once_each(out: Seq<(u32, nat)>) -> bool {
    forall|i: int, j: int|
        0 <= i < j < out.len() ==> (#[trigger] out[i]).0 != (#[trigger] out[j]).0
}

proof fn walked_facts(f: ForestModel, stack: Seq<(u32, nat)>, out: Seq<(u32, nat)>)
    requires
        once_each(out),
    ensures
        once_each(f.walked(stack, out)),
        forall|pid: u32| visited(out, pid) ==> #[trigger] visited(f.walked(stack, out), pid),
        forall|pid: u32|
            #[trigger] visited(f.walked(stack, out), pid) ==> visited(out, pid) || f.pids.contains(
                pid,
            ),
        forall|k: int|
            0 <= k < stack.len() && f.pids.contains((#[trigger] stack[k]).0) ==> visited(
                f.walked(stack, out),
                stack[k].0,
            ),
    decreases unvisited(f.pids, out), stack.len(),
{
    if stack.len() > 0 {
        let pid = stack.last().0;
        let depth = stack.last().1;
        let rest = stack.drop_last();
        let done = f.walked(stack, out);
        if visited(out, pid) || !f.pids.contains(pid) {
            walked_facts(f, rest, out);
            assert forall|k: int|
                0 <= k < stack.len() && f.pids.contains((#[trigger] stack[k]).0) implies visited(
                done,
                stack[k].0,
            ) by {
                if k < rest.len() {
                    assert(rest[k] == stack[k]);
                }
            }
        } else {
            let e = (pid, depth);
            let more = rest + ForestModel::pending(f.children(pid), depth + 1);
            visit_makes_progress(f.pids, out, e);
            assert(once_each(out.push(e))) by {
                assert forall|i: int, j: int| 0 <= i < j < out.push(e).len() implies (
                #[trigger] out.push(e)[i]).0 != (#[trigger] out.push(e)[j]).0 by {
                    if j == out.len() {
                        assert(out[i].0 != pid);
                    } else {
                        assert(out[i].0 != out[j].0);
                    }
                }
            }
            walked_facts(f, more, out.push(e));
            assert forall|p: u32| visited(out, p) implies #[trigger] visited(done, p) by {
                visited_after_push(out, e, p);
            }
            assert forall|p: u32| #[trigger] visited(done, p) implies visited(out, p)
                || f.pids.contains(p) by {
                visited_after_push(out, e, p);
            }
            assert forall|k: int|
                0 <= k < stack.len() && f.pids.contains((#[trigger] stack[k]).0) implies visited(
                done,
                stack[k].0,
            ) by {
                if k < rest.len() {
                    assert(more[k] == stack[k]);
                } else {
                    visited_after_push(out, e, pid);
                }
            }
        }
    }
}

proof fn missing_holds(f: ForestModel, out: Seq<(u32, nat)>, n: int, k: int)
    requires
        0 <= k < n <= f.pids.len(),
        !visited(out, f.pids[k]),
    ensures
        f.missing(out, n).contains(f.pids[k]),
    decreases n,
{
    let rest = f.missing(out, n - 1);
    if k == n - 1 {
        assert(f.missing(out, n).last() == f.pids[k]);
    } else {
        missing_holds(f, out, n - 1, k);
        let j = choose|j: int| 0 <= j < rest.len() && rest[j] == f.pids[k];
        assert(f.missing(out, n)[j] == f.pids[k]);
    }
}

/// A place in a traversal is one below the nearest entry before it that lies
/// higher, and that entry is its parent.
pub open spec fn hangs_below(f: ForestModel, out: Seq<(u32, nat)>, n: int, e: (u32, nat)) -> bool {
    e.1 == 0 || exists|j: int|
        0 <= j < n && (#[trigger] out[j]).1 == e.1 - 1 && f.children(out[j].0).contains(e.0)
            && forall|i: int| j < i < n ==> (#[trigger] out[i]).1 >= e.1
}

proof fn still_hangs_below(
    f: ForestModel,
    out: Seq<(u32, nat)>,
    n: int,
    e: (u32, nat),
    next: (u32, nat),
)
    requires
        0 <= n <= out.len(),
        hangs_below(f, out, n, e),
    ensures
        hangs_below(f, out.push(next), n, e),
        n == out.len() && next.1 >= e.1 ==> hangs_below(f, out.push(next), n + 1, e),
{
    let more = out.push(next);
    if e.1 > 0 {
        let j = choose|j: int|
            0 <= j < n && (#[trigger] out[j]).1 == e.1 - 1 && f.children(out[j].0).contains(e.0)
                && forall|i: int| j < i < n ==> (#[trigger] out[i]).1 >= e.1;
        assert(more[j] == out[j]);
        assert forall|i: int| j < i < n implies (#[trigger] more[i]).1 >= e.1 by {
            assert(more[i] == out[i]);
        }
    }
}

proof fn walked_hangs_together(f: ForestModel, stack: Seq<(u32, nat)>, out: Seq<(u32, nat)>)
    requires
        forall|i: int, j: int|
            0 <= i <= j < stack.len() ==> (#[trigger] stack[i]).1 <= (#[trigger] stack[j]).1,
        forall|k: int|
            0 <= k < stack.len() ==> hangs_below(
                f,
                out,
                out.len() as int,
                #[trigger] stack[k],
            ),
        forall|k: int| 0 <= k < out.len() ==> hangs_below(f, out, k, #[trigger] out[k]),
    ensures
        ({
            let done = f.walked(stack, out);
            forall|k: int| 0 <= k < done.len() ==> hangs_below(f, done, k, #[trigger] done[k])
        }),
    decreases unvisited(f.pids, out), stack.len(),
{
    if stack.len() > 0 {
        let e = stack.last();
        let rest = stack.drop_last();
        assert(forall|k: int| 0 <= k < rest.len() ==> rest[k] == stack[k]);
        if visited(out, e.0) || !f.pids.contains(e.0) {
            walked_hangs_together(f, rest, out);
            assert(f.walked(stack, out) == f.walked(rest, out));
        } else {
            let kids = f.children(e.0);
            let more = rest + ForestModel::pending(kids, e.1 + 1);
            let next = out.push(e);
            visit_makes_progress(f.pids, out, e);
            assert(stack[stack.len() - 1] == e);
            assert forall|i: int, j: int| 0 <= i <= j < more.len() implies (#[trigger] more[i]).1
                <= (#[trigger] more[j]).1 by {
                if i < rest.len() {
                    assert(stack[i].1 <= stack[stack.len() - 1].1);
                    if j < rest.len() {
                        assert(stack[i].1 <= stack[j].1);
                    }
                }
            }
            assert forall|k: int| 0 <= k < more.len() implies hangs_below(
                f,
                next,
                next.len() as int,
                #[trigger] more[k],
            ) by {
                if k < rest.len() {
                    assert(stack[k].1 <= stack[stack.len() - 1].1);
                    still_hangs_below(f, out, out.len() as int, stack[k], e);
                } else {
                    let at = kids.len() - 1 - (k - rest.len());
                    assert(more[k] == (kids[at], (e.1 + 1) as nat));
                    assert(next[out.len() as int] == e);
                    assert(f.children(next[out.len() as int].0).contains(kids[at]));
                }
            }
            assert forall|k: int| 0 <= k < next.len() implies hangs_below(
                f,
                next,
                k,
                #[trigger] next[k],
            ) by {
                if k < out.len() {
                    still_hangs_below(f, out, k, out[k], e);
                } else {
                    still_hangs_below(f, out, k, e, e);
                }
            }
            walked_hangs_together(f, more, next);
            assert(f.walked(stack, out) == f.walked(more, next));
        }
    }
}

/// A traversal goes depth first: whatever stands at a depth below the top
/// comes after its parent, with nothing but what lies as deep in between.
pub proof fn preorder_goes_depth_first(f: ForestModel, k: int)
    requires
        0 <= k < f.preordered().len(),
    ensures
        hangs_below(f, f.preordered(), k, f.preordered()[k]),
{
    let none = Seq::<(u32, nat)>::empty();
    let a = f.walked(ForestModel::pending(f.roots, 0), none);
    let stack = ForestModel::pending(f.missing(a, f.pids.len() as int), 0);
    walked_hangs_together(f, ForestModel::pending(f.roots, 0), none);
    walked_hangs_together(f, stack, a);
}

/// What was visited stays in front.
proof fn walked_goes_on(f: ForestModel, stack: Seq<(u32, nat)>, out: Seq<(u32, nat)>)
    ensures
        f.walked(stack, out).len() >= out.len(),
        f.walked(stack, out).take(out.len() as int) == out,
    decreases unvisited(f.pids, out), stack.len(),
{
    let done = f.walked(stack, out);
    if stack.len() > 0 {
        let e = stack.last();
        let rest = stack.drop_last();
        if visited(out, e.0) || !f.pids.contains(e.0) {
            walked_goes_on(f, rest, out);
        } else {
            let more = rest + ForestModel::pending(f.children(e.0), e.1 + 1);
            visit_makes_progress(f.pids, out, e);
            walked_goes_on(f, more, out.push(e));
            assert(done.take(out.len() as int) =~= done.take(
                (out.len() + 1) as int,
            ).drop_last());
            assert(out.push(e).drop_last() =~= out);
        }
    } else {
        assert(done.take(out.len() as int) =~= out);
    }
}

/// A traversal begins with the biggest root.
pub proof fn preorder_begins_with_the_first_root(f: ForestModel)
    requires
        f.roots.len() > 0,
        f.pids.contains(f.roots[0]),
    ensures
        f.preordered().len() > 0,
        f.preordered()[0] == (f.roots[0], 0nat),
{
    let none = Seq::<(u32, nat)>::empty();
    let stack = ForestModel::pending(f.roots, 0);
    let a = f.walked(stack, none);
    let e = stack.last();
    let next = none.push(e);
    let more = stack.drop_last() + ForestModel::pending(f.children(e.0), e.1 + 1);
    assert(e == (f.roots[0], 0nat));
    assert(!visited(none, e.0));
    assert(a == f.walked(more, next));
    walked_goes_on(f, more, next);
    assert(a.take(1)[0] == next[0]);
    let b = ForestModel::pending(f.missing(a, f.pids.len() as int), 0);
    walked_goes_on(f, b, a);
    assert(f.preordered().take(a.len() as int)[0] == a[0]);
}

proof fn children_have_the_parent(
    ps: Seq<ProcessInfo>,
    par: Option<u32>,
    n: int,
)
    requires
        0 <= n <= ps.len(),
        forall|i: int, j: int|
            0 <= i < j < ps.len() ==> (#[trigger] ps[i]).pid != (#[trigger] ps[j]).pid,
    ensures
        forall|x: u32|
            #[trigger] children_upto(ps, par, n).contains(x) <==> exists|k: int|
                0 <= k < n && (#[trigger] ps[k]).pid == x && present_parent(ps, ps[k]) == par,
        children_upto(ps, par, n).no_duplicates(),
        forall|i: int, j: int|
            0 <= i <= j < children_upto(ps, par, n).len() ==> pids::memory_of(
                ps,
                #[trigger] children_upto(ps, par, n)[i],
            ) >= pids::memory_of(ps, #[trigger] children_upto(ps, par, n)[j]),
    decreases n,
{
    let all = children_upto(ps, par, n);
    if n > 0 {
        children_have_the_parent(ps, par, n - 1);
        let rest = children_upto(ps, par, n - 1);
        let pid = ps[n - 1].pid;
        let key = pids::memory_key(ps);
        let at = order::slot(rest, pid, key);
        let takes = present_parent(ps, ps[n - 1]) == par;
        order::slot_range(rest, pid, key);
        if takes {
            assert(all =~= rest.insert(at, pid));
            if rest.contains(pid) {
                let k = choose|k: int|
                    0 <= k < n - 1 && (#[trigger] ps[k]).pid == pid && present_parent(ps, ps[k]) == par;
                assert(ps[k].pid != ps[n - 1].pid);
            }
            assert forall|i: int, j: int|
                0 <= i <= j < all.len() implies pids::memory_of(ps, #[trigger] all[i])
                >= pids::memory_of(ps, #[trigger] all[j]) by {
                let a = if i < at {
                    rest[i]
                } else if i == at {
                    pid
                } else {
                    rest[i - 1]
                };
                let b = if j < at {
                    rest[j]
                } else if j == at {
                    pid
                } else {
                    rest[j - 1]
                };
                assert(all[i] == a && all[j] == b);
                assert(key(a) == pids::memory_of(ps, a) && key(b) == pids::memory_of(ps, b));
                if j == at && i < at {
                    assert(pids::memory_of(ps, rest[i]) >= pids::memory_of(ps, rest[at - 1]));
                    assert(key(rest[at - 1]) >= key(pid));
                }
                if i == at && j > at {
                    assert(key(rest[j - 1]) < key(pid));
                }
            }
            assert forall|i: int, j: int| 0 <= i < all.len() && 0 <= j < all.len() && i
                != j implies all[i] != all[j] by {
                let a = if i < at {
                    i
                } else {
                    i - 1
                };
                let b = if j < at {
                    j
                } else {
                    j - 1
                };
                if i == at {
                    assert(all[j] == rest[b]);
                    assert(rest.contains(rest[b]));
                } else if j == at {
                    assert(all[i] == rest[a]);
                    assert(rest.contains(rest[a]));
                } else {
                    assert(all[i] == rest[a] && all[j] == rest[b]);
                }
            }
        }
        assert forall|x: u32|
            #[trigger] all.contains(x) <==> exists|k: int|
                0 <= k < n && (#[trigger] ps[k]).pid == x && present_parent(ps, ps[k]) == par by {
            if all.contains(x) {
                let i = choose|i: int| 0 <= i < all.len() && all[i] == x;
                if takes && i == at {
                    assert(ps[n - 1].pid == x);
                } else {
                    let b = if !takes || i < at {
                        i
                    } else {
                        i - 1
                    };
                    assert(rest[b] == x);
                    assert(rest.contains(x));
                }
            }
            if exists|k: int|
                0 <= k < n && (#[trigger] ps[k]).pid == x && present_parent(ps, ps[k]) == par {
                let k = choose|k: int|
                    0 <= k < n && (#[trigger] ps[k]).pid == x && present_parent(ps, ps[k]) == par;
                if k == n - 1 {
                    assert(all[at] == x);
                } else {
                    assert(rest.contains(x));
                    let b = choose|b: int| 0 <= b < rest.len() && rest[b] == x;
                    if takes && b >= at {
                        assert(all[b + 1] == x);
                    } else {
                        assert(all[b] == x);
                    }
                }
            }
        }
    }
}

/// Who stands under a process: everyone that names it as parent, where it is
/// in the snapshot; at the top stands everyone whose parent is not. The
/// biggest come first, and nobody is left out or listed twice.
pub proof fn children_are_those_that_name_the_parent(
    ps: Seq<ProcessInfo>,
    par: Option<u32>,
    n: int,
)
    requires
        0 <= n <= ps.len(),
        forall|i: int, j: int|
            0 <= i < j < ps.len() ==> (#[trigger] ps[i]).pid != (#[trigger] ps[j]).pid,
    ensures
        forall|x: u32|
            #[trigger] children_upto(ps, par, n).contains(x) <==> exists|k: int|
                0 <= k < n && (#[trigger] ps[k]).pid == x && match par {
                    Some(p) => ps[k].parent_pid == Some(p) && exists|i: int|
                        0 <= i < ps.len() && (#[trigger] ps[i]).pid == p,
                    None => ps[k].parent_pid is None || forall|i: int|
                        0 <= i < ps.len() ==> Some((#[trigger] ps[i]).pid) != ps[k].parent_pid,
                },
        children_upto(ps, par, n).no_duplicates(),
        forall|i: int, j: int|
            0 <= i <= j < children_upto(ps, par, n).len() ==> pids::memory_of(
                ps,
                #[trigger] children_upto(ps, par, n)[i],
            ) >= pids::memory_of(ps, #[trigger] children_upto(ps, par, n)[j]),
{
    children_have_the_parent(ps, par, n);
    assert forall|k: int| 0 <= k < n implies (present_parent(ps, #[trigger] ps[k]) == par)
        == match par {
        Some(p) => ps[k].parent_pid == Some(p) && exists|i: int|
            0 <= i < ps.len() && (#[trigger] ps[i]).pid == p,
        None => ps[k].parent_pid is None || forall|i: int|
            0 <= i < ps.len() ==> Some((#[trigger] ps[i]).pid) != ps[k].parent_pid,
    } by {}
}

/// The forest of a snapshot knows of every listed process who names it as
/// parent, and of nobody else; its roots are those whose parent is not there.
pub proof fn forest_follows_the_named_parents(ps: Seq<ProcessInfo>, i: int, k: int)
    requires
        forall|a: int, b: int|
            0 <= a < b < ps.len() ==> (#[trigger] ps[a]).pid != (#[trigger] ps[b]).pid,
        0 <= i < ps.len(),
        0 <= k < ps.len(),
    ensures
        forest_of(ps).children(ps[i].pid).contains(ps[k].pid) <==> ps[k].parent_pid == Some(
            ps[i].pid,
        ),
        forest_of(ps).roots.contains(ps[k].pid) <==> ps[k].parent_pid is None || forall|j: int|
            0 <= j < ps.len() ==> Some((#[trigger] ps[j]).pid) != ps[k].parent_pid,
        forest_of(ps).pids.contains(ps[k].pid),
{
    let n = ps.len() as int;
    let f = forest_of(ps);
    forest_lists_the_snapshot(ps, n);
    children_are_those_that_name_the_parent(ps, Some(ps[i].pid), n);
    children_are_those_that_name_the_parent(ps, None, n);
    assert(f.pids.contains(ps[i].pid));
    let at = f.pids.index_of(ps[i].pid);
    assert(f.pids[at] == ps[i].pid);
    assert(f.children(ps[i].pid) == children_upto(ps, Some(ps[i].pid), n));
    assert forall|j: int| 0 <= j < n && (#[trigger] ps[j]).pid == ps[k].pid implies j == k by {}
}

/// A traversal visits every process exactly once, even where a malformed
/// snapshot holds a cycle.
pub proof fn preorder_visits_everyone_once(f: ForestModel)
    ensures
        once_each(f.preordered()),
        forall|pid: u32| #[trigger] visited(f.preordered(), pid) <==> f.pids.contains(pid),
{
    let none = Seq::<(u32, nat)>::empty();
    let a = f.walked(ForestModel::pending(f.roots, 0), none);
    let left = f.missing(a, f.pids.len() as int);
    let stack = ForestModel::pending(left, 0);
    walked_facts(f, ForestModel::pending(f.roots, 0), none);
    walked_facts(f, stack, a);
    assert forall|pid: u32| #[trigger] visited(f.preordered(), pid) <==> f.pids.contains(pid) by {
        if f.pids.contains(pid) {
            let k = choose|k: int| 0 <= k < f.pids.len() && f.pids[k] == pid;
            if !visited(a, pid) {
                missing_holds(f, a, f.pids.len() as int, k);
                let j = choose|j: int| 0 <= j < left.len() && left[j] == pid;
                assert(stack[left.len() - 1 - j].0 == pid);
            }
        }
        if visited(f.preordered(), pid) && !f.pids.contains(pid) {
            assert(visited(a, pid));
            assert(visited(none, pid));
        }
    }
}

/// The pids of a forest are those of the snapshot, each once.
pub proof fn forest_lists_the_snapshot(ps: Seq<ProcessInfo>, n: int)
    requires
        0 <= n <= ps.len(),
    ensures
        distinct_pids(ps, n).no_duplicates(),
        forall|pid: u32|
            #[trigger] distinct_pids(ps, n).contains(pid) <==> exists|i: int|
                0 <= i < n && (#[trigger] ps[i]).pid == pid,
    decreases n,
{
    if n > 0 {
        forest_lists_the_snapshot(ps, n - 1);
        let rest = distinct_pids(ps, n - 1);
        let all = distinct_pids(ps, n);
        let last = ps[n - 1].pid;
        assert forall|pid: u32| #[trigger] all.contains(pid) <==> exists|i: int|
            0 <= i < n && (#[trigger] ps[i]).pid == pid by {
            if all.contains(pid) {
                let k = choose|k: int| 0 <= k < all.len() && all[k] == pid;
                if k < rest.len() {
                    assert(rest[k] == pid);
                    assert(rest.contains(pid));
                } else {
                    assert(ps[n - 1].pid == pid);
                }
            }
            if exists|i: int| 0 <= i < n && (#[trigger] ps[i]).pid == pid {
                let i = choose|i: int| 0 <= i < n && (#[trigger] ps[i]).pid == pid;
                if i < n - 1 {
                    assert(rest.contains(pid));
                    let k = choose|k: int| 0 <= k < rest.len() && rest[k] == pid;
                    assert(all[k] == pid);
                } else if !rest.contains(last) {
                    assert(all[rest.len() as int] == pid);
                }
            }
        }
    }
}

// ---------------------------------------------------------------------------
// The forest
// ---------------------------------------------------------------------------

/// Parent→child ancestry forest built from one process snapshot.
///
/// A process whose parent is absent from the snapshot (re-parented to
/// launchd/systemd, or the parent exited) becomes a root. The forest is
/// honest about what is actually visible — it does not invent origin.
#[derive(Debug)]
pub struct Forest {
    pids: Vec<u32>,
    kids: Vec<Vec<u32>>,
    roots: Vec<u32>,
}

spec fn lists(v: Seq<Vec<u32>>) -> Seq<Seq<u32>> {
    v.map_values(|x: Vec<u32>| x@)
}

impl View for Forest {
    type V = ForestModel;

    closed spec fn view(&self) -> ForestModel {
        ForestModel { pids: self.pids@, kids: lists(self.kids@), roots: self.roots@ }
    }
}

spec fn steps(v: Seq<(u32, usize)>) -> Seq<(u32, nat)> {
    v.map_values(|e: (u32, usize)| (e.0, e.1 as nat))
}

impl Forest {
    /// Each listed pid has its children and is listed once.
    pub open spec fn wf(self) -> bool {
        self@.pids.len() == self@.kids.len() && self@.pids.no_duplicates()
    }

    pub fn build(processes: &Vec<ProcessInfo>) -> (r: Self)
        ensures
            r@ == forest_of(processes@),
            r.wf(),
    {
        let index: PidIndex = PidIndex::new(processes);
        let mut pids: Vec<u32> = Vec::new();
        let mut i: usize = 0;
        assert(pids@ =~= Seq::<u32>::empty());
        while i < processes.len()
            invariant
                i <= processes.len(),
                pids@ == distinct_pids(processes@, i as int),
            decreases processes.len() - i,
        {
            let pid: u32 = processes[i].pid;
            if place_of(&pids, pid).is_none() {
                pids.push(pid);
            }
            i += 1;
        }
        let mut kids: Vec<Vec<u32>> = Vec::new();
        let mut i: usize = 0;
        while i < pids.len()
            invariant
                i <= pids.len(),
                index.wf(processes@),
                kids@.len() == i,
                forall|j: int|
                    0 <= j < i ==> (#[trigger] kids@[j])@ == children_upto(
                        processes@,
                        Some(pids@[j]),
                        processes@.len() as int,
                    ),
            decreases pids.len() - i,
        {
            kids.push(children_below(processes, &index, Some(pids[i])));
            i += 1;
        }
        let roots: Vec<u32> = children_below(processes, &index, None);
        let r: Forest = Forest { pids, kids, roots };
        proof {
            forest_lists_the_snapshot(processes@, processes@.len() as int);
            assert(r@.kids =~= forest_of(processes@).kids);
        }
        r
    }

    pub fn roots(&self) -> (r: &Vec<u32>)
        ensures
            r@ == self@.roots,
    {
        &self.roots
    }

    pub fn children(&self, pid: u32) -> (r: Vec<u32>)
        requires
            self.wf(),
        ensures
            r@ == self@.children(pid),
    {
        match place_of(&self.pids, pid) {
            Some(i) => {
                assert(self.pids@.index_of(pid) == i);
                assert(self@.kids[i as int] == self.kids@[i as int]@);
                copy_pids(&self.kids[i])
            },
            None => {
                let none: Vec<u32> = Vec::new();
                assert(none@ =~= Seq::<u32>::empty());
                none
            },
        }
    }

    /// Whether a process names a parent that is not in the snapshot.
    pub fn is_detached(&self, p: &ProcessInfo) -> (r: bool)
        ensures
            r == match p.parent_pid {
                Some(pp) => !self@.pids.contains(pp),
                None => false,
            },
    {
        match p.parent_pid {
            Some(pp) => place_of(&self.pids, pp).is_none(),
            None => false,
        }
    }

    /// Depth-first pre-order traversal: `(pid, depth)`, roots at depth 0.
    /// Cycle-safe against malformed snapshots.
    pub fn preorder(&self) -> (r: Vec<(u32, usize)>)
        requires
            self.wf(),
        ensures
            r@.len() == self@.preordered().len(),
            forall|k: int|
                0 <= k < r@.len() ==> (#[trigger] r@[k]).0 == self@.preordered()[k].0 && r@[k].1
                    == self@.preordered()[k].1,
    {
        let mut out: Vec<(u32, usize)> = Vec::new();
        assert(steps(out@) =~= Seq::<(u32, nat)>::empty());
        self.walk(&self.roots, &mut out);
        let ghost a = steps(out@);
        let mut left: Vec<u32> = Vec::new();
        let mut i: usize = 0;
        assert(left@ =~= Seq::<u32>::empty());
        while i < self.pids.len()
            invariant
                i <= self.pids.len(),
                a == steps(out@),
                left@ == self@.missing(a, i as int),
            decreases self.pids.len() - i,
        {
            if !was_visited(&out, self.pids[i]) {
                left.push(self.pids[i]);
            }
            i += 1;
        }
        self.walk(&left, &mut out);
        out
    }

    fn walk(&self, starts: &Vec<u32>, out: &mut Vec<(u32, usize)>)
        requires
            self.wf(),
        ensures
            steps(final(out)@) == self@.walked(
                ForestModel::pending(starts@, 0),
                steps(old(out)@),
            ),
    {
        let ghost f = self@;
        let ghost goal = f.walked(ForestModel::pending(starts@, 0), steps(out@));
        let mut stack: Vec<(u32, usize)> = Vec::new();
        push_pending(&mut stack, starts, 0);
        assert(steps(stack@) =~= ForestModel::pending(starts@, 0));
        while stack.len() > 0
            invariant
                self.wf(),
                f == self@,
                goal == f.walked(steps(stack@), steps(out@)),
                forall|k: int|
                    0 <= k < stack@.len() ==> (#[trigger] stack@[k]).1 <= out@.len(),
            decreases unvisited(f.pids, steps(out@)), stack.len(),
        {
            let ghost before = steps(stack@);
            let ghost seen = steps(out@);
            let top: (u32, usize) = stack.pop().unwrap();
            assert(before.last() == (top.0, top.1 as nat));
            assert(steps(stack@) =~= before.drop_last());
            if was_visited(out, top.0) {
                continue;
            }
            if place_of(&self.pids, top.0).is_none() {
                continue;
            }
            proof {
                visit_makes_progress(f.pids, seen, (top.0, top.1 as nat));
            }
            let kids: Vec<u32> = self.children(top.0);
            out.push(top);
            assert(steps(out@) =~= seen.push((top.0, top.1 as nat)));
            let count: usize = out.len();
            assert(top.1 < count);
            push_pending(&mut stack, &kids, top.1 + 1);
            assert(steps(stack@) =~= before.drop_last() + ForestModel::pending(
                f.children(top.0),
                (top.1 + 1) as nat,
            ));
        }
    }
}

fn push_pending(stack: &mut Vec<(u32, usize)>, list: &Vec<u32>, depth: usize)
    ensures
        steps(final(stack)@) == steps(old(stack)@) + ForestModel::pending(list@, depth as nat),
        final(stack)@.len() == old(stack)@.len() + list@.len(),
        forall|k: int| 0 <= k < old(stack)@.len() ==> final(stack)@[k] == old(stack)@[k],
        forall|k: int|
            old(stack)@.len() <= k < final(stack)@.len() ==> (#[trigger] final(stack)@[k]).1
                == depth,
{
    let ghost start = stack@;
    let mut i: usize = list.len();
    while i > 0
        invariant
            i <= list.len(),
            stack@.len() == start.len() + list.len() - i,
            forall|k: int| 0 <= k < start.len() ==> stack@[k] == start[k],
            forall|k: int|
                start.len() <= k < stack@.len() ==> #[trigger] stack@[k] == (
                    list@[list@.len() - 1 - (k - start.len())],
                    depth,
                ),
        decreases i,
    {
        stack.push((list[i - 1], depth));
        i -= 1;
    }
    assert(steps(stack@) =~= steps(start) + ForestModel::pending(list@, depth as nat));
}

fn was_visited(out: &Vec<(u32, usize)>, pid: u32) -> (r: bool)
    ensures
        r == visited(steps(out@), pid),
{
    let mut i: usize = 0;
    while i < out.len()
        invariant
            i <= out.len(),
            forall|k: int| 0 <= k < i ==> (#[trigger] steps(out@)[k]).0 != pid,
        decreases out.len() - i,
    {
        assert(steps(out@)[i as int].0 == out@[i as int].0);
        if out[i].0 == pid {
            return true;
        }
        i += 1;
    }
    false
}

fn place_of(list: &Vec<u32>, pid: u32) -> (r: Option<usize>)
    ensures
        match r {
            Some(i) => i < list.len() && list@[i as int] == pid && list@.contains(pid),
            None => !list@.contains(pid),
        },
{
    let mut i: usize = 0;
    while i < list.len()
        invariant
            i <= list.len(),
            forall|j: int| 0 <= j < i ==> list@[j] != pid,
        decreases list.len() - i,
    {
        if list[i] == pid {
            return Some(i);
        }
        i += 1;
    }
    None
}

fn copy_pids(v: &Vec<u32>) -> (r: Vec<u32>)
    ensures
        r@ == v@,
{
    let mut r: Vec<u32> = Vec::new();
    let mut i: usize = 0;
    while i < v.len()
        invariant
            i <= v.len(),
            r@ == v@.take(i as int),
        decreases v.len() - i,
    {
        r.push(v[i]);
        i += 1;
        assert(v@.take(i as int) =~= v@.take(i - 1).push(v@[i - 1]));
    }
    assert(v@.take(v@.len() as int) =~= v@);
    r
}

fn children_below(ps: &Vec<ProcessInfo>, index: &PidIndex, par: Option<u32>) -> (r: Vec<u32>)
    requires
        index.wf(ps@),
    ensures
        r@ == children_upto(ps@, par, ps@.len() as int),
{
    let mut out: Vec<u32> = Vec::new();
    let mut keys: Vec<u64> = Vec::new();
    let ghost key = pids::memory_key(ps@);
    let mut i: usize = 0;
    assert(out@ =~= Seq::<u32>::empty());
    while i < ps.len()
        invariant
            i <= ps.len(),
            index.wf(ps@),
            key == pids::memory_key(ps@),
            out.len() == keys.len(),
            forall|j: int| 0 <= j < out.len() ==> keys@[j] == key(#[trigger] out@[j]),
            out@ == children_upto(ps@, par, i as int),
        decreases ps.len() - i,
    {
        let above: Option<u32> = match ps[i].parent_pid {
            Some(pp) => {
                proof {
                    pids::last_index_range(ps@, pp);
                }
                if index.find(Ghost(ps@), pp).is_some() {
                    Some(pp)
                } else {
                    None
                }
            },
            None => None,
        };
        if above == par {
            let pid: u32 = ps[i].pid;
            let m: u64 = index.memory(ps, pid);
            insert_desc(&mut out, &mut keys, pid, m, Ghost(key));
        }
        i += 1;
    }
    out
}

} // verus!

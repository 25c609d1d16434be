//! Looking processes up by pid, and walking from a process to its ancestors.

use crate::model::process::ProcessInfo;
use vstd::prelude::*;
use std::collections::HashMap;

verus! {

broadcast use vstd::std_specs::hash::group_hash_axioms;

/// How far an ancestry walk goes before it gives up on a malformed snapshot.
pub const MAX_ANCESTORS: usize = 64;

/// The index of the last process with this pid.
pub open spec fn last_index(ps: Seq<ProcessInfo>, pid: u32) -> Option<int>
    decreases ps.len(),
{
    if ps.len() == 0 {
        None
    } else if ps.last().pid == pid {
        Some(ps.len() - 1)
    } else {
        last_index(ps.drop_last(), pid)
    }
}

/// The process with this pid. A pid stands for one process; should a
/// snapshot list it twice, the later entry counts.
pub open spec fn by_pid(ps: Seq<ProcessInfo>, pid: u32) -> Option<ProcessInfo> {
    match last_index(ps, pid) {
        Some(i) => Some(ps[i]),
        None => None,
    }
}

pub open spec fn present(ps: Seq<ProcessInfo>, pid: u32) -> bool {
    exists|i: int| 0 <= i < ps.len() && (#[trigger] ps[i]).pid == pid
}

/// The parent that the process with this pid names.
pub open spec fn parent_of(ps: Seq<ProcessInfo>, pid: u32) -> Option<u32> {
    match by_pid(ps, pid) {
        Some(p) => p.parent_pid,
        None => None,
    }
}

/// Resident memory of the process with this pid, 0 where it is unknown.
pub open spec fn memory_of(ps: Seq<ProcessInfo>, pid: u32) -> u64 {
    match by_pid(ps, pid) {
        Some(p) => p.memory_bytes,
        None => 0,
    }
}

/// The first of `cur`, its parent, its parent's parent and so on that is a
/// hit, looking at no more than `steps` of them.
pub open spec fn ancestor_within(
    ps: Seq<ProcessInfo>,
    cur: Option<u32>,
    steps: nat,
    hit: spec_fn(u32) -> bool,
) -> Option<u32>
    decreases steps,
{
    match cur {
        None => None,
        Some(a) => if steps == 0 {
            None
        } else if hit(a) {
            Some(a)
        } else {
            ancestor_within(ps, parent_of(ps, a), (steps - 1) as nat, hit)
        },
    }
}

/// The test for one pid.
pub open spec fn is_pid(top: u32) -> spec_fn(u32) -> bool {
    |a: u32| a == top
}

/// Memory as a sort key.
pub open spec fn memory_key(ps: Seq<ProcessInfo>) -> spec_fn(u32) -> u64 {
    |pid: u32| memory_of(ps, pid)
}

/// `top` is an ancestor of `pid`. A chain of parents passes each process at
/// most once, so it is no longer than the list.
pub open spec fn descends(ps: Seq<ProcessInfo>, pid: u32, top: u32) -> bool {
    ancestor_within(ps, parent_of(ps, pid), ps.len(), is_pid(top)) is Some
}

/// What a lookup gives is in the list, and a listed pid is found.
pub proof fn last_index_range(ps: Seq<ProcessInfo>, pid: u32)
    ensures
        match last_index(ps, pid) {
            Some(i) => 0 <= i < ps.len() && ps[i].pid == pid && forall|j: int|
                i < j < ps.len() ==> (#[trigger] ps[j]).pid != pid,
            None => forall|j: int| 0 <= j < ps.len() ==> (#[trigger] ps[j]).pid != pid,
        },
        last_index(ps, pid) is Some <==> present(ps, pid),
    decreases ps.len(),
{
    if ps.len() > 0 {
        let rest = ps.drop_last();
        if ps.last().pid == pid {
            assert(ps[ps.len() - 1].pid == pid);
        } else {
            last_index_range(rest, pid);
            assert forall|j: int| 0 <= j < ps.len() && (#[trigger] ps[j]).pid == pid implies j
                < ps.len() - 1 && rest[j].pid == pid by {}
            match last_index(rest, pid) {
                Some(i) => {
                    assert(rest[i] == ps[i]);
                    assert forall|j: int| i < j < ps.len() implies (#[trigger] ps[j]).pid != pid by {
                        if j < ps.len() - 1 {
                            assert(rest[j] == ps[j]);
                        }
                    }
                },
                None => {
                    assert forall|j: int| 0 <= j < ps.len() implies (#[trigger] ps[j]).pid != pid by {
                        if j < ps.len() - 1 {
                            assert(rest[j] == ps[j]);
                        }
                    }
                },
            }
        }
    }
}

/// Pids of a snapshot, each with the index of its process.
pub struct PidIndex {
    map: HashMap<u32, usize>,
}

impl PidIndex {
    pub closed spec fn wf(self, ps: Seq<ProcessInfo>) -> bool {
        forall|pid: u32|
            #![trigger self.map@.contains_key(pid)]
            #![trigger last_index(ps, pid)]
            match last_index(ps, pid) {
                Some(i) => self.map@.contains_key(pid) && self.map@[pid] == i,
                None => !self.map@.contains_key(pid),
            }
    }

    pub fn new(ps: &Vec<ProcessInfo>) -> (r: PidIndex)
        ensures
            r.wf(ps@),
    {
        let mut map: HashMap<u32, usize> = HashMap::new();
        let mut i: usize = 0;
        assert(ps@.take(0) =~= Seq::<ProcessInfo>::empty());
        while i < ps.len()
            invariant
                i <= ps.len(),
                forall|pid: u32|
                    #![trigger map@.contains_key(pid)]
                    #![trigger last_index(ps@.take(i as int), pid)]
                    match last_index(ps@.take(i as int), pid) {
                        Some(k) => map@.contains_key(pid) && map@[pid] == k,
                        None => !map@.contains_key(pid),
                    },
            decreases ps.len() - i,
        {
            let ghost before = map@;
            map.insert(ps[i].pid, i);
            assert forall|pid: u32|
                #![trigger map@.contains_key(pid)]
                #![trigger last_index(ps@.take(i + 1), pid)]
                match last_index(ps@.take(i + 1), pid) {
                    Some(k) => map@.contains_key(pid) && map@[pid] == k,
                    None => !map@.contains_key(pid),
                } by {
                assert(ps@.take(i + 1).drop_last() =~= ps@.take(i as int));
                assert(before.contains_key(pid) || !before.contains_key(pid));
            }
            i += 1;
        }
        assert(ps@.take(ps@.len() as int) =~= ps@);
        PidIndex { map }
    }

    /// The index of the process with this pid.
    pub fn find(&self, Ghost(ps): Ghost<Seq<ProcessInfo>>, pid: u32) -> (r: Option<usize>)
        requires
            self.wf(ps),
        ensures
            match r {
                Some(i) => last_index(ps, pid) == Some(i as int) && i < ps.len(),
                None => last_index(ps, pid) is None,
            },
    {
        proof {
            last_index_range(ps, pid);
        }
        assert(self.map@.contains_key(pid) == (last_index(ps, pid) is Some));
        match self.map.get(&pid) {
            Some(i) => Some(*i),
            None => None,
        }
    }

    pub fn parent(&self, ps: &Vec<ProcessInfo>, pid: u32) -> (r: Option<u32>)
        requires
            self.wf(ps@),
        ensures
            r == parent_of(ps@, pid),
    {
        match self.find(Ghost(ps@), pid) {
            Some(i) => ps[i].parent_pid,
            None => None,
        }
    }

    pub fn memory(&self, ps: &Vec<ProcessInfo>, pid: u32) -> (r: u64)
        requires
            self.wf(ps@),
        ensures
            r == memory_of(ps@, pid),
    {
        match self.find(Ghost(ps@), pid) {
            Some(i) => ps[i].memory_bytes,
            None => 0,
        }
    }

    /// Whether `top` is an ancestor of `pid`.
    pub fn is_below(&self, ps: &Vec<ProcessInfo>, pid: u32, top: u32) -> (r: bool)
        requires
            self.wf(ps@),
        ensures
            r == descends(ps@, pid, top),
    {
        let ghost hit = is_pid(top);
        let mut cur: Option<u32> = self.parent(ps, pid);
        let mut steps: usize = ps.len();
        while steps > 0
            invariant
                steps <= ps.len(),
                self.wf(ps@),
                hit == is_pid(top),
                ancestor_within(ps@, parent_of(ps@, pid), ps@.len(), hit) == ancestor_within(
                    ps@,
                    cur,
                    steps as nat,
                    hit,
                ),
            decreases steps,
        {
            match cur {
                None => {
                    return false;
                },
                Some(a) => {
                    if a == top {
                        return true;
                    }
                    cur = self.parent(ps, a);
                },
            }
            steps -= 1;
        }
        false
    }
}

/// The first process with this pid.
pub open spec fn first_index(ps: Seq<ProcessInfo>, pid: u32) -> Option<int>
    decreases ps.len(),
{
    if ps.len() == 0 {
        None
    } else {
        match first_index(ps.drop_last(), pid) {
            Some(i) => Some(i),
            None => if ps.last().pid == pid {
                Some(ps.len() - 1)
            } else {
                None
            },
        }
    }
}

/// The first process with this pid, if any.
pub open spec fn first_by_pid(ps: Seq<ProcessInfo>, pid: u32) -> Option<ProcessInfo> {
    match first_index(ps, pid) {
        Some(i) => Some(ps[i]),
        None => None,
    }
}

/// What a lookup gives is the first of its pid, and a listed pid is found.
pub proof fn first_index_range(ps: Seq<ProcessInfo>, pid: u32)
    ensures
        match first_index(ps, pid) {
            Some(i) => 0 <= i < ps.len() && ps[i].pid == pid && forall|j: int|
                0 <= j < i ==> (#[trigger] ps[j]).pid != pid,
            None => forall|j: int| 0 <= j < ps.len() ==> (#[trigger] ps[j]).pid != pid,
        },
    decreases ps.len(),
{
    if ps.len() > 0 {
        let rest = ps.drop_last();
        first_index_range(rest, pid);
        match first_index(ps, pid) {
            Some(i) => {
                assert forall|j: int| 0 <= j < i implies (#[trigger] ps[j]).pid != pid by {
                    assert(rest[j] == ps[j]);
                }
            },
            None => {
                assert forall|j: int| 0 <= j < ps.len() implies (#[trigger] ps[j]).pid != pid by {
                    if j < ps.len() - 1 {
                        assert(rest[j] == ps[j]);
                    }
                }
            },
        }
    }
}

/// Looks for the first process with this pid.
pub fn find_first(ps: &Vec<ProcessInfo>, pid: u32) -> (r: Option<usize>)
    ensures
        match r {
            Some(i) => first_index(ps@, pid) == Some(i as int) && i < ps.len(),
            None => first_index(ps@, pid) is None,
        },
{
    let mut i: usize = 0;
    assert(ps@.take(0) =~= Seq::<ProcessInfo>::empty());
    while i < ps.len()
        invariant
            i <= ps.len(),
            first_index(ps@.take(i as int), pid) is None,
        decreases ps.len() - i,
    {
        assert(ps@.take(i + 1).drop_last() =~= ps@.take(i as int));
        if ps[i].pid == pid {
            proof {
                first_index_stays(ps@, i + 1, pid);
            }
            return Some(i);
        }
        i += 1;
    }
    assert(ps@.take(ps@.len() as int) =~= ps@);
    None
}

proof fn first_index_stays(ps: Seq<ProcessInfo>, i: int, pid: u32)
    requires
        0 <= i <= ps.len(),
        first_index(ps.take(i), pid) is Some,
    ensures
        first_index(ps, pid) == first_index(ps.take(i), pid),
    decreases ps.len() - i,
{
    if i == ps.len() {
        assert(ps.take(i) =~= ps);
    } else {
        assert(ps.take(i + 1).drop_last() =~= ps.take(i));
        first_index_stays(ps, i + 1, pid);
    }
}

/// Whether some process has this pid.
pub fn is_present(ps: &Vec<ProcessInfo>, pid: u32) -> (r: bool)
    ensures
        r == present(ps@, pid),
{
    proof {
        first_index_range(ps@, pid);
    }
    match find_first(ps, pid) {
        Some(_) => true,
        None => false,
    }
}

} // verus!

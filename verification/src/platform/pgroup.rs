//! Process groups of managed runs.
//!
//! A managed run executes in a process group created before the user command
//! starts, so stopping the run can signal the whole group. Group membership
//! is the only thing owned; a command that calls `setsid`, double-forks or
//! hands work to an external daemon leaves the group, and that escape is
//! reported honestly rather than papered over.
//!
//! The process table is read by the program around the library.

use crate::classify::group;
use crate::classify::group::sat_add;
use crate::model::boot::BootId;
use crate::model::process::ProcessIdentity;
use crate::text;
use crate::text::parse_unsigned;
use vstd::prelude::*;

verus! {

/// Live resource usage of a process group, from the OS process table.
///
/// Memory is the sum of RSS over the group's members: shared pages can be
/// counted more than once, so this is an observation, not an accounting
/// figure.
#[derive(Debug, Clone, Copy, PartialEq, Eq, Structural)]
pub struct GroupUsage {
    pub processes: usize,
    pub memory_bytes: u64,
}

impl Default for GroupUsage {
    fn default() -> (r: Self)
        ensures
            r == (GroupUsage { processes: 0, memory_bytes: 0 }),
    {
        GroupUsage { processes: 0, memory_bytes: 0 }
    }
}

/// The entries of `/proc` that are pids, in order.
pub open spec fn pids_among(names: Seq<Seq<char>>) -> Seq<u32>
    decreases names.len(),
{
    if names.len() == 0 {
        Seq::empty()
    } else {
        let rest = pids_among(names.drop_last());
        match text::parsed(names.last(), u32::MAX as nat) {
            Some(n) => rest.push(n as u32),
            None => rest,
        }
    }
}

/// The pids among the names of the process table's entries.
pub fn all_pids(names: &Vec<String>) -> (r: Vec<u32>)
    ensures
        r@ == pids_among(text::texts(names@)),
{
    let mut r: Vec<u32> = Vec::new();
    let ghost list = text::texts(names@);
    let mut i: usize = 0;
    assert(list.take(0) =~= Seq::<Seq<char>>::empty());
    assert(r@ =~= Seq::<u32>::empty());
    while i < names.len()
        invariant
            i <= names.len(),
            list == text::texts(names@),
            r@ == pids_among(list.take(i as int)),
        decreases names.len() - i,
    {
        assert(list.take(i + 1).drop_last() =~= list.take(i as int));
        assert(list.take(i + 1).last() == names@[i as int]@);
        if let Some(n) = parse_unsigned(names[i].as_str(), 4294967295) {
            r.push(n as u32);
        }
        i += 1;
    }
    assert(list.take(list.len() as int) =~= list);
    r
}

/// The pids of a table of pids and their groups that belong to `pgid`.
pub open spec fn members(table: Seq<(u32, Option<u32>)>, pgid: u32) -> Seq<u32>
    decreases table.len(),
{
    if table.len() == 0 {
        Seq::empty()
    } else {
        let rest = members(table.drop_last(), pgid);
        if table.last().1 == Some(pgid) {
            rest.push(table.last().0)
        } else {
            rest
        }
    }
}

/// Every live pid that belongs to process group `pgid`; the table gives each
/// pid with its group, where that is known.
pub fn members_of_group(table: &Vec<(u32, Option<u32>)>, pgid: u32) -> (r: Vec<u32>)
    ensures
        r@ == members(table@, pgid),
{
    let mut r: Vec<u32> = Vec::new();
    let mut i: usize = 0;
    assert(table@.take(0) =~= Seq::<(u32, Option<u32>)>::empty());
    assert(r@ =~= Seq::<u32>::empty());
    while i < table.len()
        invariant
            i <= table.len(),
            r@ == members(table@.take(i as int), pgid),
        decreases table.len() - i,
    {
        assert(table@.take(i + 1).drop_last() =~= table@.take(i as int));
        if table[i].1 == Some(pgid) {
            r.push(table[i].0);
        }
        i += 1;
    }
    assert(table@.take(table@.len() as int) =~= table@);
    r
}

/// A process from another group is never a member of this one.
pub proof fn foreign_process_is_no_member(table: Seq<(u32, Option<u32>)>, pgid: u32, pid: u32)
    requires
        forall|i: int|
            0 <= i < table.len() && (#[trigger] table[i]).0 == pid ==> table[i].1 != Some(pgid),
    ensures
        !members(table, pgid).contains(pid),
    decreases table.len(),
{
    if table.len() > 0 {
        let rest = table.drop_last();
        assert(forall|i: int| 0 <= i < rest.len() ==> rest[i] == table[i]);
        foreign_process_is_no_member(rest, pgid, pid);
        let all = members(table, pgid);
        if all.contains(pid) {
            let k = choose|k: int| 0 <= k < all.len() && all[k] == pid;
            let m = members(rest, pgid);
            if k < m.len() {
                assert(m[k] == pid);
            } else {
                assert(table[table.len() - 1].0 == pid);
            }
        }
    }
}

/// The identity of one live process, where its start time is known.
pub open spec fn live_identity(boot: BootId, pid: u32, start: Option<u64>) -> Option<
    ProcessIdentity,
> {
    match start {
        Some(s) if s != 0 => Some(ProcessIdentity { boot_id: boot, pid, start_time: s }),
        _ => None,
    }
}

/// Identity of one specific `pid`, given the start time that the OS tells.
pub fn identity_of_pid(pid: u32, start: Option<u64>, boot_id: &BootId) -> (r: Option<
    ProcessIdentity,
>)
    ensures
        r == live_identity(*boot_id, pid, start),
{
    match start {
        Some(s) => if s != 0 {
            Some(ProcessIdentity { boot_id: *boot_id, pid, start_time: s })
        } else {
            None
        },
        None => None,
    }
}

/// The identities of some live processes, unidentifiable ones left out.
pub open spec fn live_identities(boot: BootId, live: Seq<(u32, Option<u64>)>) -> Seq<
    ProcessIdentity,
>
    decreases live.len(),
{
    if live.len() == 0 {
        Seq::empty()
    } else {
        let rest = live_identities(boot, live.drop_last());
        match live_identity(boot, live.last().0, live.last().1) {
            Some(id) => rest.push(id),
            None => rest,
        }
    }
}

/// Identity of every live member of a group, skipping processes whose start
/// time the OS will not tell (an unidentifiable member is never signaled on
/// its own).
pub fn group_identities(live: &Vec<(u32, Option<u64>)>, boot_id: &BootId) -> (r: Vec<
    ProcessIdentity,
>)
    ensures
        r@ == live_identities(*boot_id, live@),
{
    let mut r: Vec<ProcessIdentity> = Vec::new();
    let mut i: usize = 0;
    assert(live@.take(0) =~= Seq::<(u32, Option<u64>)>::empty());
    assert(r@ =~= Seq::<ProcessIdentity>::empty());
    while i < live.len()
        invariant
            i <= live.len(),
            r@ == live_identities(*boot_id, live@.take(i as int)),
        decreases live.len() - i,
    {
        assert(live@.take(i + 1).drop_last() =~= live@.take(i as int));
        if let Some(id) = identity_of_pid(live[i].0, live[i].1, boot_id) {
            r.push(id);
        }
        i += 1;
    }
    assert(live@.take(live@.len() as int) =~= live@);
    r
}

/// Does this identity still name the same live process? `start` is what the
/// OS now tells for its pid.
pub fn identity_holds(identity: &ProcessIdentity, start: Option<u64>) -> (r: bool)
    ensures
        r == (live_identity(identity.boot_id, identity.pid, start) == Some(*identity)),
{
    match identity_of_pid(identity.pid, start, &identity.boot_id) {
        Some(live) => live == *identity,
        None => false,
    }
}

/// A reused pid does not pass for the process that had it before.
pub proof fn reused_pid_does_not_hold(identity: ProcessIdentity, start: u64)
    requires
        start != identity.start_time,
    ensures
        live_identity(identity.boot_id, identity.pid, Some(start)) != Some(identity),
{
}

pub open spec fn share_member(live: Seq<ProcessIdentity>, known: Seq<ProcessIdentity>) -> bool {
    exists|i: int| 0 <= i < live.len() && known.contains(#[trigger] live[i])
}

/// Whether an identity is in the list.
pub fn is_known(known: &Vec<ProcessIdentity>, id: &ProcessIdentity) -> (r: bool)
    ensures
        r == known@.contains(*id),
{
    let mut i: usize = 0;
    while i < known.len()
        invariant
            i <= known.len(),
            forall|j: int| 0 <= j < i ==> known@[j] != *id,
        decreases known.len() - i,
    {
        if known[i] == *id {
            return true;
        }
        i += 1;
    }
    false
}

/// Is at least one live member of a group a process from `known`?
pub fn group_has_known_member(live: &Vec<ProcessIdentity>, known: &Vec<ProcessIdentity>) -> (r: bool)
    ensures
        r == share_member(live@, known@),
{
    let mut i: usize = 0;
    while i < live.len()
        invariant
            i <= live.len(),
            forall|j: int| 0 <= j < i ==> !known@.contains(#[trigger] live@[j]),
        decreases live.len() - i,
    {
        if is_known(known, &live[i]) {
            return true;
        }
        i += 1;
    }
    false
}

/// Memory of the members that are still there.
pub open spec fn usage_memory(rss: Seq<Option<u64>>) -> u64
    decreases rss.len(),
{
    if rss.len() == 0 {
        0
    } else {
        match rss.last() {
            Some(m) => group::sat(usage_memory(rss.drop_last()), m),
            None => usage_memory(rss.drop_last()),
        }
    }
}

pub open spec fn usage_count(rss: Seq<Option<u64>>) -> nat
    decreases rss.len(),
{
    if rss.len() == 0 {
        0
    } else {
        usage_count(rss.drop_last()) + if rss.last() is Some {
            1nat
        } else {
            0
        }
    }
}

/// Usage of a group from the resident sizes of its members, none for one
/// that is already gone.
pub fn group_usage(rss: &Vec<Option<u64>>) -> (r: GroupUsage)
    ensures
        r.processes == usage_count(rss@),
        r.memory_bytes == usage_memory(rss@),
{
    let mut r: GroupUsage = GroupUsage::default();
    let mut i: usize = 0;
    assert(rss@.take(0) =~= Seq::<Option<u64>>::empty());
    while i < rss.len()
        invariant
            i <= rss.len(),
            r.processes <= i,
            r.processes == usage_count(rss@.take(i as int)),
            r.memory_bytes == usage_memory(rss@.take(i as int)),
        decreases rss.len() - i,
    {
        assert(rss@.take(i + 1).drop_last() =~= rss@.take(i as int));
        if let Some(m) = rss[i] {
            r = GroupUsage { processes: r.processes + 1, memory_bytes: sat_add(r.memory_bytes, m) };
        }
        i += 1;
    }
    assert(rss@.take(rss@.len() as int) =~= rss@);
    r
}

/// What came of signaling a group.
#[derive(Debug, Clone, Copy, PartialEq, Eq, Structural)]
pub enum GroupSignal {
    /// Delivered, or there was nobody left: the goal is reached.
    Done,
    /// Group 0 is the caller's own and is never signaled.
    RefusedOwnGroup,
    /// The system refused, with this error number.
    Failed(i32),
}

/// Whether a group may be signaled at all.
pub fn may_signal_group(pgid: u32) -> (r: bool)
    ensures
        r == (pgid != 0),
{
    pgid != 0
}

/// Judges the reply of the system to a group signal: `errno` is none on
/// success. A vanished group (`ESRCH`, 3 on Linux and macOS) is not an error.
pub fn signal_group_result(pgid: u32, errno: Option<i32>) -> (r: GroupSignal)
    ensures
        r == if pgid == 0 {
            GroupSignal::RefusedOwnGroup
        } else {
            match errno {
                None => GroupSignal::Done,
                Some(e) => if e == 3 {
                    GroupSignal::Done
                } else {
                    GroupSignal::Failed(e)
                },
            }
        },
{
    if pgid == 0 {
        return GroupSignal::RefusedOwnGroup;
    }
    match errno {
        None => GroupSignal::Done,
        Some(e) => if e == 3 {
            GroupSignal::Done
        } else {
            GroupSignal::Failed(e)
        },
    }
}

/// The members of a group are the processes that the table puts into it, in
/// order.
pub proof fn members_are_those_in_the_group(table: Seq<(u32, Option<u32>)>, pgid: u32)
    ensures
        members(table, pgid) == table.filter(
            |e: (u32, Option<u32>)| e.1 == Some(pgid),
        ).map_values(|e: (u32, Option<u32>)| e.0),
    decreases table.len(),
{
    reveal(Seq::filter);
    let mine = |e: (u32, Option<u32>)| e.1 == Some(pgid);
    let of = |e: (u32, Option<u32>)| e.0;
    if table.len() > 0 {
        let front = table.drop_last();
        members_are_those_in_the_group(front, pgid);
        if mine(table.last()) {
            let before = front.filter(mine);
            assert(table.filter(mine) == before.push(table.last()));
            assert(table.filter(mine).map_values(of) =~= before.map_values(of).push(
                table.last().0,
            ));
        }
    } else {
        assert(members(table, pgid) =~= table.filter(mine).map_values(of));
    }
}

/// The identities of a group are those of the members whose start time is
/// known and not zero, with that start time.
pub proof fn identities_need_a_start_time(boot: BootId, live: Seq<(u32, Option<u64>)>)
    ensures
        live_identities(boot, live) == live.filter(
            |e: (u32, Option<u64>)| e.1 is Some && e.1->0 != 0,
        ).map_values(
            |e: (u32, Option<u64>)|
                ProcessIdentity { boot_id: boot, pid: e.0, start_time: e.1->0 },
        ),
    decreases live.len(),
{
    reveal(Seq::filter);
    let known = |e: (u32, Option<u64>)| e.1 is Some && e.1->0 != 0;
    let of = |e: (u32, Option<u64>)|
        ProcessIdentity { boot_id: boot, pid: e.0, start_time: e.1->0 };
    if live.len() > 0 {
        let front = live.drop_last();
        identities_need_a_start_time(boot, front);
        if known(live.last()) {
            let before = front.filter(known);
            assert(live.filter(known) == before.push(live.last()));
            assert(live.filter(known).map_values(of) =~= before.map_values(of).push(
                of(live.last()),
            ));
        }
    } else {
        assert(live_identities(boot, live) =~= live.filter(known).map_values(of));
    }
}

/// The usage of a group adds up what is known of its members, and counts
/// those.
pub proof fn usage_is_that_of_the_known_members(rss: Seq<Option<u64>>)
    ensures
        usage_count(rss) == rss.filter(|m: Option<u64>| m is Some).len(),
        ({
            let sum = rss.fold_left(
                0nat,
                |n: nat, m: Option<u64>|
                    n + (match m {
                        Some(v) => v as nat,
                        None => 0,
                    }),
            );
            usage_memory(rss) == (if sum <= u64::MAX {
                sum
            } else {
                u64::MAX as nat
            })
        }),
    decreases rss.len(),
{
    reveal(Seq::filter);
    if rss.len() > 0 {
        usage_is_that_of_the_known_members(rss.drop_last());
    }
}

} // verus!

//! What the Docker engine holds.

use crate::text;
use crate::text::same;
use vstd::prelude::*;

verus! {

#[derive(Debug, Clone, Copy, PartialEq, Eq, Structural)]
pub enum DockerKind {
    Container,
    DanglingImage,
    Volume,
    BuildCache,
}

impl DockerKind {
    pub open spec fn name(self) -> Seq<char> {
        match self {
            DockerKind::Container => "container"@,
            DockerKind::DanglingImage => "dangling image"@,
            DockerKind::Volume => "volume"@,
            DockerKind::BuildCache => "build cache"@,
        }
    }

    pub fn label(self) -> (r: &'static str)
        ensures
            r@ == self.name(),
    {
        match self {
            DockerKind::Container => "container",
            DockerKind::DanglingImage => "dangling image",
            DockerKind::Volume => "volume",
            DockerKind::BuildCache => "build cache",
        }
    }
}

/// One Docker resource as it is listed.
#[derive(Debug, Clone, PartialEq, Eq)]
pub struct DockerResource {
    pub kind: DockerKind,
    pub id: String,
    pub name: String,
    pub detail: String,
    pub size_bytes: u64,
    pub compose: Option<String>,
    /// Volumes always; deleting one takes a confirmation of its own.
    pub persistent: bool,
    /// Anonymous volume (hash-named, no compose project). Volumes only.
    pub anonymous: bool,
    /// Unix seconds when created; 0 = unknown.
    pub created: i64,
}

impl DockerResource {
    pub open spec fn is_running(self) -> bool {
        self.kind == DockerKind::Container && self.detail@ == "running"@
    }

    pub open spec fn is_prunable(self) -> bool {
        self.kind == DockerKind::Volume && self.anonymous && self.detail@ == "unused"@
    }

    /// Running container — the only resource that can be stopped.
    pub fn running(&self) -> (r: bool)
        ensures
            r == self.is_running(),
    {
        self.kind == DockerKind::Container && same(self.detail.as_str(), "running")
    }

    /// Anonymous volume not attached to any container — pruning deletes
    /// exactly these.
    pub fn prunable(&self) -> (r: bool)
        ensures
            r == self.is_prunable(),
    {
        self.kind == DockerKind::Volume && self.anonymous && same(self.detail.as_str(), "unused")
    }
}

/// Latest Docker Engine view. `ok == false` is a degraded state, not a crash.
#[derive(Debug, Clone, PartialEq, Eq)]
pub struct DockerSnapshot {
    pub ok: bool,
    pub note: String,
    pub disk_bytes: u64,
    pub reclaimable_bytes: u64,
    pub resources: Vec<DockerResource>,
}

/// The sizes of the prunable resources, added up.
pub open spec fn prunable_bytes(rs: Seq<DockerResource>) -> nat
    decreases rs.len(),
{
    if rs.len() == 0 {
        0
    } else {
        prunable_bytes(rs.drop_last()) + if rs.last().is_prunable() {
            rs.last().size_bytes as nat
        } else {
            0
        }
    }
}

/// How many resources are prunable.
pub open spec fn prunable_count(rs: Seq<DockerResource>) -> nat
    decreases rs.len(),
{
    if rs.len() == 0 {
        0
    } else {
        prunable_count(rs.drop_last()) + if rs.last().is_prunable() {
            1nat
        } else {
            0
        }
    }
}

/// The ids of the prunable resources, in order.
pub open spec fn prunable_of(rs: Seq<DockerResource>) -> Seq<Seq<char>>
    decreases rs.len(),
{
    if rs.len() == 0 {
        Seq::empty()
    } else if rs.last().is_prunable() {
        prunable_of(rs.drop_last()).push(rs.last().id@)
    } else {
        prunable_of(rs.drop_last())
    }
}

proof fn prunable_bytes_grows(rs: Seq<DockerResource>, i: int, j: int)
    requires
        0 <= i <= j <= rs.len(),
    ensures
        prunable_bytes(rs.take(i)) <= prunable_bytes(rs.take(j)),
    decreases j - i,
{
    if i < j {
        prunable_bytes_grows(rs, i, j - 1);
        assert(rs.take(j).drop_last() =~= rs.take(j - 1));
    }
}

impl Default for DockerSnapshot {
    fn default() -> (r: Self)
        ensures
            !r.ok,
            r.note@ == "not running"@,
            r.disk_bytes == 0,
            r.reclaimable_bytes == 0,
            r.resources@.len() == 0,
    {
        DockerSnapshot {
            ok: false,
            note: "not running".to_owned(),
            disk_bytes: 0,
            reclaimable_bytes: 0,
            resources: Vec::new(),
        }
    }
}

impl DockerSnapshot {
    /// The engine is unreachable, and `note` says why.
    pub fn down(note: &str) -> (r: Self)
        ensures
            !r.ok,
            r.note@ == note@,
            r.disk_bytes == 0,
            r.reclaimable_bytes == 0,
            r.resources@.len() == 0,
    {
        DockerSnapshot {
            ok: false,
            note: note.to_owned(),
            disk_bytes: 0,
            reclaimable_bytes: 0,
            resources: Vec::new(),
        }
    }

    /// (count, bytes) of anonymous unused volumes — what pruning offers.
    pub fn prunable_stats(&self) -> (r: (usize, u64))
        requires
            prunable_bytes(self.resources@) <= u64::MAX,
        ensures
            r.0 == prunable_count(self.resources@),
            r.1 == prunable_bytes(self.resources@),
    {
        let mut count: usize = 0;
        let mut bytes: u64 = 0;
        let mut i: usize = 0;
        assert(self.resources@.take(0) =~= Seq::<DockerResource>::empty());
        while i < self.resources.len()
            invariant
                i <= self.resources.len(),
                count <= i,
                count == prunable_count(self.resources@.take(i as int)),
                bytes == prunable_bytes(self.resources@.take(i as int)),
                prunable_bytes(self.resources@) <= u64::MAX,
            decreases self.resources.len() - i,
        {
            let ghost next = self.resources@.take(i + 1);
            assert(next.drop_last() =~= self.resources@.take(i as int));
            proof {
                prunable_bytes_grows(self.resources@, i + 1, self.resources@.len() as int);
                assert(self.resources@.take(self.resources@.len() as int) =~= self.resources@);
            }
            if self.resources[i].prunable() {
                count += 1;
                bytes += self.resources[i].size_bytes;
            }
            i += 1;
        }
        assert(self.resources@.take(self.resources@.len() as int) =~= self.resources@);
        (count, bytes)
    }

    /// The ids of the volumes that pruning deletes.
    pub fn prunable_ids(&self) -> (r: Vec<String>)
        ensures
            text::texts(r@) == prunable_of(self.resources@),
            r@.len() == prunable_count(self.resources@),
    {
        let mut out: Vec<String> = Vec::new();
        let mut i: usize = 0;
        assert(self.resources@.take(0) =~= Seq::<DockerResource>::empty());
        assert(text::texts(out@) =~= Seq::<Seq<char>>::empty());
        while i < self.resources.len()
            invariant
                i <= self.resources.len(),
                text::texts(out@) == prunable_of(self.resources@.take(i as int)),
                out@.len() == prunable_count(self.resources@.take(i as int)),
            decreases self.resources.len() - i,
        {
            let ghost next = self.resources@.take(i + 1);
            assert(next.drop_last() =~= self.resources@.take(i as int));
            if self.resources[i].prunable() {
                let ghost before = text::texts(out@);
                let id: String = self.resources[i].id.clone();
                out.push(id);
                assert(text::texts(out@) =~= before.push(id@));
            }
            i += 1;
        }
        assert(self.resources@.take(self.resources@.len() as int) =~= self.resources@);
        out
    }
}

/// Pruning deletes only anonymous volumes that no container uses. A named
/// volume is never garbage.
pub proof fn only_unused_anonymous_volumes_are_pruned(rs: Seq<DockerResource>, k: int)
    requires
        0 <= k < prunable_of(rs).len(),
    ensures
        exists|i: int|
            0 <= i < rs.len() && (#[trigger] rs[i]).kind == DockerKind::Volume && rs[i].anonymous
                && rs[i].detail@ == "unused"@ && rs[i].id@ == prunable_of(rs)[k],
    decreases rs.len(),
{
    let rest = rs.drop_last();
    if rs.last().is_prunable() && k == prunable_of(rest).len() {
        assert(rs[rs.len() - 1] == rs.last());
    } else {
        only_unused_anonymous_volumes_are_pruned(rest, k);
        let i = choose|i: int|
            0 <= i < rest.len() && (#[trigger] rest[i]).kind == DockerKind::Volume
                && rest[i].anonymous && rest[i].detail@ == "unused"@ && rest[i].id@ == prunable_of(
                rest,
            )[k];
        assert(rs[i] == rest[i]);
    }
}

/// Exactly the unused anonymous volumes are pruned: their ids in the order of
/// the list, as many of them as are counted.
pub proof fn all_unused_anonymous_volumes_are_pruned(rs: Seq<DockerResource>)
    ensures
        ({
            let p = |r: DockerResource|
                r.kind == DockerKind::Volume && r.anonymous && r.detail@ == "unused"@;
            &&& prunable_of(rs) == rs.filter(p).map_values(|r: DockerResource| r.id@)
            &&& prunable_count(rs) == rs.filter(p).len()
            &&& prunable_bytes(rs) == rs.filter(p).fold_left(
                0nat,
                |sum: nat, r: DockerResource| sum + r.size_bytes as nat,
            )
        }),
    decreases rs.len(),
{
    let p = |r: DockerResource|
        r.kind == DockerKind::Volume && r.anonymous && r.detail@ == "unused"@;
    let f = |r: DockerResource| r.id@;
    let g = |sum: nat, r: DockerResource| sum + r.size_bytes as nat;
    reveal(Seq::filter);
    if rs.len() > 0 {
        let front = rs.drop_last();
        all_unused_anonymous_volumes_are_pruned(front);
        if p(rs.last()) {
            let kept = front.filter(p);
            assert(rs.filter(p) == kept.push(rs.last()));
            assert(kept.push(rs.last()).map_values(f) =~= kept.map_values(f).push(rs.last().id@));
            assert(kept.push(rs.last()).drop_last() =~= kept);
        }
    } else {
        assert(rs.filter(p).map_values(f) =~= Seq::<Seq<char>>::empty());
    }
}

} // verus!

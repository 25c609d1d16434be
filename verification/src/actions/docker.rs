//! Docker actions: which engine call an action amounts to.

use crate::model::docker::{DockerKind, DockerResource};
use vstd::prelude::*;

verus! {

/// One call of the engine that removes something.
#[derive(Debug, Clone)]
pub enum Removal {
    Container(String),
    Image(String),
    Volume(String),
    /// The build cache is pruned as a whole; it has no id.
    BuildCache,
}

/// The engine call that removes one selected resource. Volumes are never
/// implied by another kind: the caller must have required its own confirm.
pub fn remove_blocking(res: &DockerResource) -> (r: Removal)
    ensures
        match res.kind {
            DockerKind::Container => r matches Removal::Container(id) && id@ == res.id@,
            DockerKind::DanglingImage => r matches Removal::Image(id) && id@ == res.id@,
            DockerKind::Volume => r matches Removal::Volume(id) && id@ == res.id@,
            DockerKind::BuildCache => r is BuildCache,
        },
{
    match res.kind {
        DockerKind::Container => Removal::Container(res.id.clone()),
        DockerKind::DanglingImage => Removal::Image(res.id.clone()),
        DockerKind::Volume => Removal::Volume(res.id.clone()),
        DockerKind::BuildCache => Removal::BuildCache,
    }
}

/// How many removals succeeded.
pub open spec fn successes(results: Seq<bool>) -> nat
    decreases results.len(),
{
    if results.len() == 0 {
        0
    } else {
        successes(results.drop_last()) + if results.last() {
            1nat
        } else {
            0
        }
    }
}

/// The outcome of deleting exactly the anonymous volumes that were shown, by
/// id: how many are gone. Their sizes are not known here, so no bytes are
/// claimed. Removing an attached volume fails harmlessly (busy).
pub fn prune_report(results: &Vec<bool>) -> (r: (u32, u64))
    requires
        results@.len() <= u32::MAX,
    ensures
        r.0 == successes(results@),
        r.1 == 0,
{
    let mut n: u32 = 0;
    let mut i: usize = 0;
    assert(results@.take(0) =~= Seq::<bool>::empty());
    while i < results.len()
        invariant
            i <= results.len() <= u32::MAX,
            n <= i,
            n == successes(results@.take(i as int)),
        decreases results.len() - i,
    {
        assert(results@.take(i + 1).drop_last() =~= results@.take(i as int));
        if results[i] {
            n += 1;
        }
        i += 1;
    }
    assert(results@.take(results@.len() as int) =~= results@);
    (n, 0)
}

/// Every removal that succeeded is counted, and no other.
pub proof fn successes_are_counted(results: Seq<bool>)
    ensures
        successes(results) == results.filter(|ok: bool| ok).len(),
    decreases results.len(),
{
    reveal(Seq::filter);
    if results.len() > 0 {
        successes_are_counted(results.drop_last());
    }
}

} // verus!

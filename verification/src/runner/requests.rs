//! Repeated requests: a request's key names one run for a day.

use crate::bytes::equal;
use crate::model::run::{RunId, RunRecord, RunSpec, REQUEST_ID_WINDOW_SECS};
use crate::runner::supervisor::RunInsert;
use crate::text;
use crate::text::same;
use vstd::prelude::*;

verus! {

/// Whether a stored run still holds the key of a request.
pub open spec fn holds_key(r: RunRecord, spec: RunSpec, now: u64) -> bool {
    r.spec.request_id@ == spec.request_id@ && now < r.created_at + REQUEST_ID_WINDOW_SECS
}

/// The place of the last stored run that holds a request's key.
pub open spec fn holder(rows: Seq<RunRecord>, spec: RunSpec, now: u64) -> Option<int>
    decreases rows.len(),
{
    if rows.len() == 0 {
        None
    } else if holds_key(rows.last(), spec, now) {
        Some(rows.len() - 1)
    } else {
        holder(rows.drop_last(), spec, now)
    }
}

/// Whether two specs are one request.
pub open spec fn same_request(a: RunSpec, b: RunSpec) -> bool {
    a.identity_bytes() == b.identity_bytes()
}

/// What a request's key comes to.
pub open spec fn claimed(rows: Seq<RunRecord>, spec: RunSpec, now: u64) -> Option<RunInsert> {
    match holder(rows, spec, now) {
        Some(i) => Some(
            if same_request(rows[i].spec, spec) {
                RunInsert::Existing(rows[i].id)
            } else {
                RunInsert::Conflict(rows[i].id)
            },
        ),
        None => None,
    }
}

/// The run that a request's key belongs to. The same request gets the run it
/// had before, another one with that key is a conflict; none where the key is
/// free, and the request gets a run of its own.
pub fn claim(rows: &Vec<RunRecord>, spec: &RunSpec, now: u64) -> (r: Option<RunInsert>)
    ensures
        r == claimed(rows@, *spec, now),
{
    let mut n: usize = rows.len();
    assert(rows@.take(rows@.len() as int) =~= rows@);
    while n > 0
        invariant
            n <= rows.len(),
            holder(rows@, *spec, now) == holder(rows@.take(n as int), *spec, now),
        decreases n,
    {
        assert(rows@.take(n as int).last() == rows@[n - 1]);
        assert(rows@.take(n as int).drop_last() =~= rows@.take(n - 1));
        let row: &RunRecord = &rows[n - 1];
        if same(row.spec.request_id.as_str(), spec.request_id.as_str()) && (now < row.created_at
            || now - row.created_at < REQUEST_ID_WINDOW_SECS) {
            let id: RunId = row.id;
            let before: Vec<u8> = row.spec.fingerprint_bytes();
            let asked: Vec<u8> = spec.fingerprint_bytes();
            return Some(
                if equal(before.as_slice(), asked.as_slice()) {
                    RunInsert::Existing(id)
                } else {
                    RunInsert::Conflict(id)
                },
            );
        }
        n -= 1;
    }
    None
}

/// Retrying a request within the window never makes a second run, however its
/// timing, logs or resources changed.
pub proof fn a_retry_gets_the_same_run(rows: Seq<RunRecord>, i: int, spec: RunSpec, now: u64)
    requires
        0 <= i < rows.len(),
        now < rows[i].created_at + REQUEST_ID_WINDOW_SECS,
        rows[i].spec.request_id@ == spec.request_id@,
        text::texts(rows[i].spec.argv@) == text::texts(spec.argv@),
        rows[i].spec.cwd@ == spec.cwd@,
        text::text_of(rows[i].spec.project_root) == text::text_of(spec.project_root),
        rows[i].spec.session_id == spec.session_id,
        forall|j: int| i < j < rows.len() ==> !holds_key(#[trigger] rows[j], spec, now),
    ensures
        holder(rows, spec, now) == Some(i),
        claimed(rows, spec, now) == Some(RunInsert::Existing(rows[i].id)),
    decreases rows.len(),
{
    crate::model::run::fingerprint_ignores_limits(rows[i].spec, spec);
    if i < rows.len() - 1 {
        let rest = rows.drop_last();
        assert(!holds_key(rows[rows.len() - 1], spec, now));
        assert forall|j: int| i < j < rest.len() implies !holds_key(#[trigger] rest[j], spec, now) by {
            assert(rest[j] == rows[j]);
        }
        a_retry_gets_the_same_run(rest, i, spec, now);
    }
}

/// A key that a run holds is refused to a request for any other command,
/// directory, project or session.
pub proof fn another_command_is_a_conflict(rows: Seq<RunRecord>, i: int, spec: RunSpec, now: u64)
    requires
        holder(rows, spec, now) == Some(i),
        text::texts(rows[i].spec.argv@) != text::texts(spec.argv@) || rows[i].spec.cwd@ != spec.cwd@
            || text::text_of(rows[i].spec.project_root) != text::text_of(spec.project_root)
            || rows[i].spec.session_id != spec.session_id,
    ensures
        claimed(rows, spec, now) == Some(RunInsert::Conflict(rows[i].id)),
{
    if same_request(rows[i].spec, spec) {
        crate::model::run::identity_tells_requests_apart(rows[i].spec, spec);
    }
}

/// Once the window is over, the key may be used again.
pub proof fn an_old_key_is_free(rows: Seq<RunRecord>, spec: RunSpec, now: u64)
    requires
        forall|i: int|
            0 <= i < rows.len() && (#[trigger] rows[i]).spec.request_id@ == spec.request_id@
                ==> now >= rows[i].created_at + REQUEST_ID_WINDOW_SECS,
    ensures
        claimed(rows, spec, now) is None,
    decreases rows.len(),
{
    if rows.len() > 0 {
        let rest = rows.drop_last();
        assert forall|i: int|
            0 <= i < rest.len() && (#[trigger] rest[i]).spec.request_id@
                == spec.request_id@ implies now >= rest[i].created_at + REQUEST_ID_WINDOW_SECS by {
            assert(rest[i] == rows[i]);
        }
        an_old_key_is_free(rest, spec, now);
        assert(rows.last() == rows[rows.len() - 1]);
    }
}

/// A key belongs to the last run that was made with it within a day, whatever
/// that run asked for.
pub proof fn a_key_belongs_to_its_last_run_for_a_day(
    rows: Seq<RunRecord>,
    i: int,
    spec: RunSpec,
    now: u64,
)
    requires
        0 <= i < rows.len(),
        rows[i].spec.request_id@ == spec.request_id@,
        now < rows[i].created_at + 86_400,
        forall|j: int|
            i < j < rows.len() ==> (#[trigger] rows[j]).spec.request_id@ != spec.request_id@ || now
                >= rows[j].created_at + 86_400,
    ensures
        claimed(rows, spec, now) == Some(RunInsert::Existing(rows[i].id)) || claimed(
            rows,
            spec,
            now,
        ) == Some(RunInsert::Conflict(rows[i].id)),
        holder(rows, spec, now) == Some(i),
    decreases rows.len(),
{
    if i < rows.len() - 1 {
        let rest = rows.drop_last();
        assert(rows.last() == rows[rows.len() - 1]);
        assert(rest[i] == rows[i]);
        assert forall|j: int| i < j < rest.len() implies (#[trigger] rest[j]).spec.request_id@
            != spec.request_id@ || now >= rest[j].created_at + 86_400 by {
            assert(rest[j] == rows[j]);
        }
        a_key_belongs_to_its_last_run_for_a_day(rest, i, spec, now);
    }
}

} // verus!

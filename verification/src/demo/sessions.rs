//! The agent sessions of the demonstration dataset.

use crate::bytes;
use crate::bytes::fnv1a;
use crate::demo::ids;
use crate::demo::items;
use crate::model::session;
use crate::model::session::{RuntimeSessionId, SessionInfo, SessionRecord};
use crate::text;
use vstd::prelude::*;

verus! {

/// How many sessions there are.
pub const SESSIONS: usize = 5;

/// What a session of the dataset is made from.
#[derive(Debug, Clone, Copy)]
pub struct SessionSeed {
    pub seed: &'static str,
    pub agent: &'static str,
    pub project: &'static str,
    pub ago: u64,
    pub active: bool,
}

/// The sessions: three ended, two active.
pub open spec fn seeded(i: int) -> SessionSeed {
    if i == 0 {
        SessionSeed {
            seed: "demo.opencode.wyd",
            agent: "opencode",
            project: "~/Work/wyd",
            ago: 2820,
            active: false,
        }
    } else if i == 1 {
        SessionSeed {
            seed: "demo.aider.docs",
            agent: "aider",
            project: "~/Work/docs",
            ago: 7200,
            active: false,
        }
    } else if i == 2 {
        SessionSeed {
            seed: "demo.cursor.site",
            agent: "cursor",
            project: "~/Work/site",
            ago: 10800,
            active: false,
        }
    } else if i == 3 {
        SessionSeed {
            seed: "demo.codex.api",
            agent: "codex",
            project: "~/Work/api",
            ago: 660,
            active: true,
        }
    } else {
        SessionSeed {
            seed: "demo.gemini.notes",
            agent: "gemini-cli",
            project: "~/Work/notes",
            ago: 1500,
            active: true,
        }
    }
}

fn seed_at(i: usize) -> (r: SessionSeed)
    ensures
        r == seeded(i as int),
{
    if i == 0 {
        SessionSeed {
            seed: "demo.opencode.wyd",
            agent: "opencode",
            project: "~/Work/wyd",
            ago: 2820,
            active: false,
        }
    } else if i == 1 {
        SessionSeed {
            seed: "demo.aider.docs",
            agent: "aider",
            project: "~/Work/docs",
            ago: 7200,
            active: false,
        }
    } else if i == 2 {
        SessionSeed {
            seed: "demo.cursor.site",
            agent: "cursor",
            project: "~/Work/site",
            ago: 10800,
            active: false,
        }
    } else if i == 3 {
        SessionSeed {
            seed: "demo.codex.api",
            agent: "codex",
            project: "~/Work/api",
            ago: 660,
            active: true,
        }
    } else {
        SessionSeed {
            seed: "demo.gemini.notes",
            agent: "gemini-cli",
            project: "~/Work/notes",
            ago: 1500,
            active: true,
        }
    }
}

/// The id of a seed: the same on every machine and in every run.
pub open spec fn stable(seed: Seq<char>) -> u64 {
    bytes::fnv(bytes::utf8(seed))
}

/// A stable id derived from a seed.
pub fn stable_id(seed: &str) -> (r: u64)
    ensures
        r == stable(seed@),
{
    fnv1a(seed.as_bytes())
}

/// A moment some seconds ago.
pub fn before_now(now: u64, secs: u64) -> (r: u64)
    ensures
        r == items::ago(now, secs),
{
    if now >= secs {
        now - secs
    } else {
        0
    }
}

/// A session as it is listed.
pub open spec fn lists(s: SessionInfo, seed: SessionSeed, now: u64) -> bool {
    &&& s.id@ == stable(seed.seed@)
    &&& s.agent@ == seed.agent@
    &&& text::text_of(s.project) == Some(seed.project@)
    &&& s.started_at == items::ago(now, seed.ago)
    &&& s.active == seed.active
}

/// The sessions as they are listed.
pub open spec fn listing(v: Seq<SessionInfo>, now: u64) -> bool {
    v.len() == SESSIONS && forall|i: int|
        0 <= i < SESSIONS ==> lists(#[trigger] v[i], seeded(i), now)
}

pub fn session_infos(now: u64) -> (r: Vec<SessionInfo>)
    ensures
        listing(r@, now),
{
    let mut r: Vec<SessionInfo> = Vec::new();
    let mut i: usize = 0;
    while i < SESSIONS
        invariant
            i <= SESSIONS,
            r@.len() == i,
            forall|k: int| 0 <= k < i ==> lists(#[trigger] r@[k], seeded(k), now),
        decreases SESSIONS - i,
    {
        let s: SessionSeed = seed_at(i);
        r.push(
            SessionInfo {
                id: RuntimeSessionId::from_u64(stable_id(s.seed)),
                agent: s.agent.to_owned(),
                project: Some(s.project.to_owned()),
                active: s.active,
                started_at: before_now(now, s.ago),
            },
        );
        i += 1;
    }
    r
}

/// A session's history: an active one was seen a minute after its start, an
/// ended one ended twenty minutes after it.
pub open spec fn records(r: SessionRecord, seed: SessionSeed, now: u64) -> bool {
    let started = items::ago(now, seed.ago);
    let later = if seed.active {
        60int
    } else {
        1200
    };
    &&& r.id@ == stable(seed.seed@)
    &&& r.agent@ == seed.agent@
    &&& text::text_of(r.project) == Some(seed.project@)
    &&& r.started_at == started
    &&& r.last_seen_at == started + later
    &&& r.ended_at == if seed.active {
        None
    } else {
        Some((started + later) as u64)
    }
}

/// The place of the first session with an id, from `i` on.
pub open spec fn place(id: u64, i: int) -> Option<int>
    decreases SESSIONS - i,
{
    if i >= SESSIONS {
        None
    } else if stable(seeded(i).seed@) == id {
        Some(i)
    } else {
        place(id, i + 1)
    }
}

/// What is known of an id.
pub open spec fn history(r: Option<SessionRecord>, id: u64, now: u64) -> bool {
    match place(id, 0) {
        Some(i) => r is Some && records(r->Some_0, seeded(i), now),
        None => r is None,
    }
}

/// The history of the session with an id.
pub fn session_record(id: u64, now: u64) -> (r: Option<SessionRecord>)
    ensures
        history(r, id, now),
{
    let mut i: usize = 0;
    while i < SESSIONS
        invariant
            i <= SESSIONS,
            place(id, 0) == place(id, i as int),
        decreases SESSIONS - i,
    {
        let s: SessionSeed = seed_at(i);
        if stable_id(s.seed) == id {
            let started: u64 = before_now(now, s.ago);
            // It started longer ago than it lasted.
            let later: u64 = started + if s.active {
                60
            } else {
                1200
            };
            return Some(
                SessionRecord {
                    id: RuntimeSessionId::from_u64(id),
                    agent: s.agent.to_owned(),
                    project: Some(s.project.to_owned()),
                    started_at: started,
                    last_seen_at: later,
                    ended_at: if s.active {
                        None
                    } else {
                        Some(later)
                    },
                },
            );
        }
        i += 1;
    }
    None
}

/// No two sessions share an id.
pub proof fn ids_differ(i: int, j: int)
    requires
        0 <= i < SESSIONS,
        0 <= j < SESSIONS,
        i != j,
    ensures
        stable(seeded(i).seed@) != stable(seeded(j).seed@),
{
    ids::opencode_id();
    ids::aider_id();
    ids::cursor_id();
    ids::codex_id();
    ids::gemini_id();
}

/// Every listing tells the same story, whenever it is made: five sessions
/// with ids of their own, three ended and two active. Only the times follow
/// the clock.
pub proof fn the_story_is_fixed(a: Seq<SessionInfo>, b: Seq<SessionInfo>, then: u64, now: u64)
    requires
        listing(a, then),
        listing(b, now),
    ensures
        a.len() == 5 && b.len() == 5,
        forall|i: int, j: int|
            0 <= i < j < 5 ==> (#[trigger] a[i]).id != (#[trigger] a[j]).id,
        forall|i: int| 0 <= i < 5 ==> ((#[trigger] a[i]).active <==> i >= 3),
        forall|i: int|
            0 <= i < 5 ==> {
                &&& (#[trigger] a[i]).id == b[i].id
                &&& a[i].agent@ == b[i].agent@
                &&& text::text_of(a[i].project) == text::text_of(b[i].project)
                &&& a[i].active == b[i].active
            },
{
    assert forall|i: int, j: int| 0 <= i < j < 5 implies (#[trigger] a[i]).id != (
    #[trigger] a[j]).id by {
        assert(lists(a[i], seeded(i), then) && lists(a[j], seeded(j), then));
        ids_differ(i, j);
    }
    assert forall|i: int| 0 <= i < 5 implies {
        &&& (#[trigger] a[i]).id == b[i].id
        &&& a[i].agent@ == b[i].agent@
        &&& text::text_of(a[i].project) == text::text_of(b[i].project)
        &&& a[i].active == b[i].active
    } by {
        assert(lists(a[i], seeded(i), then) && lists(b[i], seeded(i), now));
        session::ids_are_their_numbers(a[i].id, b[i].id);
    }
    assert forall|i: int| 0 <= i < 5 implies ((#[trigger] a[i]).active <==> i >= 3) by {
        assert(lists(a[i], seeded(i), then));
    }
}

/// Every listed session is found under its id.
pub proof fn listed_sessions_have_a_history(i: int)
    requires
        0 <= i < SESSIONS,
    ensures
        place(stable(seeded(i).seed@), 0) == Some(i),
{
    reveal_with_fuel(place, 6);
    if i > 0 {
        ids_differ(0, i);
    }
    if i > 1 {
        ids_differ(1, i);
    }
    if i > 2 {
        ids_differ(2, i);
    }
    if i > 3 {
        ids_differ(3, i);
    }
}

/// An id has a history exactly where a listed session has it, and the history
/// is that session's: an active one has not ended, an ended one was last seen
/// when it ended.
pub proof fn histories_match_the_listing(
    infos: Seq<SessionInfo>,
    r: Option<SessionRecord>,
    id: u64,
    now: u64,
)
    requires
        listing(infos, now),
        history(r, id, now),
    ensures
        r is Some <==> exists|i: int| 0 <= i < infos.len() && (#[trigger] infos[i]).id@ == id,
        forall|i: int|
            0 <= i < infos.len() && (#[trigger] infos[i]).id@ == id ==> {
                &&& r->Some_0.id@ == id
                &&& r->Some_0.agent@ == infos[i].agent@
                &&& text::text_of(r->Some_0.project) == text::text_of(infos[i].project)
                &&& r->Some_0.started_at == infos[i].started_at
                &&& r->Some_0.started_at <= r->Some_0.last_seen_at
                &&& r->Some_0.ended_at is None <==> infos[i].active
                &&& !infos[i].active ==> r->Some_0.ended_at == Some(r->Some_0.last_seen_at)
            },
{
    assert forall|i: int| 0 <= i < infos.len() && (#[trigger] infos[i]).id@ == id implies place(
        id,
        0,
    ) == Some(i) && lists(infos[i], seeded(i), now) by {
        assert(lists(infos[i], seeded(i), now));
        listed_sessions_have_a_history(i);
    }
    reveal_with_fuel(place, 6);
    if let Some(i) = place(id, 0) {
        assert(lists(infos[i], seeded(i), now));
        assert(infos[i].id@ == id);
    }
}

} // verus!

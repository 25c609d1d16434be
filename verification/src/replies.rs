//! What requests are answered with.

use crate::json;
use crate::json::{append, list_value, no_values, text_value, Builder, Json, JsonModel};
use crate::model::session::{RuntimeSessionId, SessionRecord};
use crate::runner::logs::{LogChunk, Stream};
use crate::server::{session_state, Located};
use crate::text;
use vstd::prelude::*;

verus! {

pub open spec fn optional_text(o: Option<Seq<char>>) -> JsonModel {
    match o {
        Some(s) => JsonModel::Text(s),
        None => JsonModel::Null,
    }
}

pub open spec fn optional_number(o: Option<u64>) -> JsonModel {
    match o {
        Some(n) => JsonModel::Unsigned(n),
        None => JsonModel::Null,
    }
}

fn text_or_null(o: &Option<String>) -> (r: Json)
    ensures
        r.model() == optional_text(text::text_of(*o)),
{
    match o {
        Some(s) => text_value(s.as_str()),
        None => Json::Null,
    }
}

fn number_or_null(o: Option<u64>) -> (r: Json)
    ensures
        r.model() == optional_number(o),
{
    match o {
        Some(n) => Json::Unsigned(n),
        None => Json::Null,
    }
}

/// What a session is called: ended once its end is known.
pub open spec fn state_text(ended_at: Option<u64>) -> Seq<char> {
    if ended_at is Some {
        "ended"@
    } else {
        "active"@
    }
}

pub open spec fn id_text(id: RuntimeSessionId) -> JsonModel {
    JsonModel::Text(text::hex_fixed(id@ as nat, 16))
}

// ---------------------------------------------------------------------------
// The supervisor
// ---------------------------------------------------------------------------

/// The answer to a ping.
pub open spec fn pong_answer(version: Seq<char>, supervisor: Seq<char>) -> JsonModel {
    JsonModel::Object(
        Seq::empty().push(("pong"@, JsonModel::Bool(true))).push(
            ("version"@, JsonModel::Text(version)),
        ).push(("supervisor"@, JsonModel::Text(supervisor))),
    )
}

pub fn pong(version: &str, supervisor: &str) -> (r: Json)
    ensures
        r.model() == pong_answer(version@, supervisor@),
{
    Builder::new().with("pong", Json::Bool(true)).with("version", text_value(version)).with(
        "supervisor",
        text_value(supervisor),
    ).done()
}

/// A piece of a run's output.
pub open spec fn chunk_answer(stream: Stream, c: LogChunk) -> JsonModel {
    JsonModel::Object(
        Seq::empty().push(("stream"@, JsonModel::Text(stream.name()))).push(
            ("data"@, JsonModel::Text(c.data@)),
        ).push(("next_cursor"@, JsonModel::Unsigned(c.next_cursor))).push(
            ("truncated"@, JsonModel::Bool(c.truncated)),
        ).push(("eof"@, JsonModel::Bool(c.eof))),
    )
}

pub fn chunk_json(stream: Stream, c: &LogChunk) -> (r: Json)
    ensures
        r.model() == chunk_answer(stream, *c),
{
    Builder::new().with("stream", text_value(stream.as_str())).with(
        "data",
        text_value(c.data.as_str()),
    ).with("next_cursor", Json::Unsigned(c.next_cursor)).with(
        "truncated",
        Json::Bool(c.truncated),
    ).with("eof", Json::Bool(c.eof)).done()
}

/// A value under a name of its own: `{"run": ...}`.
pub open spec fn wrapped(key: Seq<char>, value: JsonModel) -> JsonModel {
    JsonModel::Object(Seq::empty().push((key, value)))
}

pub fn wrap(key: &str, value: Json) -> (r: Json)
    ensures
        r.model() == wrapped(key@, value.model()),
{
    Builder::new().with(key, value).done()
}

/// The answer to a start: the run, and whether it is a new one.
pub open spec fn started_answer(run: JsonModel, created: bool) -> JsonModel {
    JsonModel::Object(
        Seq::empty().push(("run"@, run)).push(("created"@, JsonModel::Bool(created))),
    )
}

pub fn started_json(run: Json, created: bool) -> (r: Json)
    ensures
        r.model() == started_answer(run.model(), created),
{
    Builder::new().with("run", run).with("created", Json::Bool(created)).done()
}

// ---------------------------------------------------------------------------
// Sessions
// ---------------------------------------------------------------------------

/// A recorded session.
pub open spec fn session_answer(s: SessionRecord) -> JsonModel {
    JsonModel::Object(
        Seq::empty().push(("id"@, id_text(s.id))).push(("agent"@, JsonModel::Text(s.agent@))).push(
            ("project"@, optional_text(text::text_of(s.project))),
        ).push(("state"@, JsonModel::Text(state_text(s.ended_at)))).push(
            ("started_at"@, JsonModel::Unsigned(s.started_at)),
        ).push(("last_seen_at"@, JsonModel::Unsigned(s.last_seen_at))).push(
            ("ended_at"@, optional_number(s.ended_at)),
        ),
    )
}

pub fn session_json(s: &SessionRecord) -> (r: Json)
    ensures
        r.model() == session_answer(*s),
{
    Builder::new().with("id", Json::Text(s.id.to_text())).with(
        "agent",
        text_value(s.agent.as_str()),
    ).with("project", text_or_null(&s.project)).with(
        "state",
        text_value(session_state(s.ended_at)),
    ).with("started_at", Json::Unsigned(s.started_at)).with(
        "last_seen_at",
        Json::Unsigned(s.last_seen_at),
    ).with("ended_at", number_or_null(s.ended_at)).done()
}

/// A recorded session in brief.
pub open spec fn brief_answer(s: SessionRecord) -> JsonModel {
    JsonModel::Object(
        Seq::empty().push(("id"@, id_text(s.id))).push(("agent"@, JsonModel::Text(s.agent@))).push(
            ("project"@, optional_text(text::text_of(s.project))),
        ).push(("state"@, JsonModel::Text(state_text(s.ended_at)))).push(
            ("started_at"@, JsonModel::Unsigned(s.started_at)),
        ),
    )
}

fn brief_json(s: &SessionRecord) -> (r: Json)
    ensures
        r.model() == brief_answer(*s),
{
    Builder::new().with("id", Json::Text(s.id.to_text())).with(
        "agent",
        text_value(s.agent.as_str()),
    ).with("project", text_or_null(&s.project)).with(
        "state",
        text_value(session_state(s.ended_at)),
    ).with("started_at", Json::Unsigned(s.started_at)).done()
}

/// All recorded sessions, in full or in brief.
pub open spec fn sessions_answer(list: Seq<SessionRecord>, full: bool) -> JsonModel {
    JsonModel::List(
        Seq::new(
            list.len(),
            |i: int|
                if full {
                    session_answer(list[i])
                } else {
                    brief_answer(list[i])
                },
        ),
    )
}

pub fn sessions_json(list: &Vec<SessionRecord>, full: bool) -> (r: Json)
    ensures
        r.model() == sessions_answer(list@, full),
{
    let mut out: Vec<Json> = no_values();
    let ghost all = sessions_answer(list@, full)->List_0;
    let mut i: usize = 0;
    assert(all.take(0) =~= Seq::<JsonModel>::empty());
    while i < list.len()
        invariant
            i <= list.len(),
            all == sessions_answer(list@, full)->List_0,
            json::models(out@) == all.take(i as int),
        decreases list.len() - i,
    {
        let j: Json = if full {
            session_json(&list[i])
        } else {
            brief_json(&list[i])
        };
        assert(all.take(i + 1) =~= all.take(i as int).push(j.model()));
        out = append(out, j);
        i += 1;
    }
    assert(all.take(list@.len() as int) =~= all);
    list_value(out)
}

/// The answer to a vendor that registered a session.
pub open spec fn registered_answer(id: RuntimeSessionId, agent: Seq<char>) -> JsonModel {
    JsonModel::Object(
        Seq::empty().push(("session_id"@, id_text(id))).push(("agent"@, JsonModel::Text(agent))),
    )
}

pub fn session_started(id: RuntimeSessionId, agent: &str) -> (r: Json)
    ensures
        r.model() == registered_answer(id, agent@),
{
    Builder::new().with("session_id", Json::Text(id.to_text())).with(
        "agent",
        text_value(agent),
    ).done()
}

/// The answer to a vendor that ended a session; none where its alias is not
/// known.
pub open spec fn ended_answer(id: Option<RuntimeSessionId>) -> JsonModel {
    JsonModel::Object(
        match id {
            Some(s) => Seq::empty().push(("ended"@, JsonModel::Bool(true))).push(
                ("session_id"@, id_text(s)),
            ),
            None => Seq::empty().push(("ended"@, JsonModel::Bool(false))).push(
                ("note"@, JsonModel::Text("unknown alias"@)),
            ),
        },
    )
}

pub fn session_ended(id: Option<RuntimeSessionId>) -> (r: Json)
    ensures
        r.model() == ended_answer(id),
{
    match id {
        Some(s) => Builder::new().with("ended", Json::Bool(true)).with(
            "session_id",
            Json::Text(s.to_text()),
        ).done(),
        None => Builder::new().with("ended", Json::Bool(false)).with(
            "note",
            text_value("unknown alias"),
        ).done(),
    }
}

// ---------------------------------------------------------------------------
// Explanations
// ---------------------------------------------------------------------------

/// What is recorded of the owner of a process.
#[derive(Debug, Clone)]
pub struct Ownership {
    pub session: SessionRecord,
    pub owner: RuntimeSessionId,
}

pub open spec fn nobody(pid: u32, note: Seq<char>) -> JsonModel {
    JsonModel::Object(
        Seq::empty().push(("pid"@, JsonModel::Unsigned(pid as u64))).push(
            ("origin_session"@, JsonModel::Null),
        ).push(("note"@, JsonModel::Text(note))),
    )
}

/// Which session a process comes from. Nothing is claimed of a process that is
/// not running or has no stable identity.
pub open spec fn explanation(pid: u32, found: Located, owner: Option<Ownership>) -> JsonModel {
    match found {
        Located::NotRunning => nobody(pid, "not running"@),
        Located::NoIdentity => nobody(pid, "no stable identity"@),
        Located::Found { label, .. } => {
            let head = Seq::empty().push(("pid"@, JsonModel::Unsigned(pid as u64))).push(
                ("name"@, JsonModel::Text(label@)),
            );
            JsonModel::Object(
                match owner {
                    Some(o) => head.push(("origin_session"@, session_answer(o.session))).push(
                        ("owner_session_id"@, id_text(o.owner)),
                    ),
                    None => head.push(("origin_session"@, JsonModel::Null)),
                },
            )
        },
    }
}

pub fn explain_json(pid: u32, found: &Located, owner: &Option<Ownership>) -> (r: Json)
    ensures
        r.model() == explanation(pid, *found, *owner),
{
    match found {
        Located::NotRunning => Builder::new().with("pid", Json::Unsigned(pid as u64)).with(
            "origin_session",
            Json::Null,
        ).with("note", text_value("not running")).done(),
        Located::NoIdentity => Builder::new().with("pid", Json::Unsigned(pid as u64)).with(
            "origin_session",
            Json::Null,
        ).with("note", text_value("no stable identity")).done(),
        Located::Found { label, .. } => {
            let head: Builder = Builder::new().with("pid", Json::Unsigned(pid as u64)).with(
                "name",
                text_value(label.as_str()),
            );
            match owner {
                Some(o) => head.with("origin_session", session_json(&o.session)).with(
                    "owner_session_id",
                    Json::Text(o.owner.to_text()),
                ).done(),
                None => head.with("origin_session", Json::Null).done(),
            }
        },
    }
}

/// A process without a stable identity is never attributed to a session.
pub proof fn no_identity_no_owner(pid: u32, found: Located, owner: Option<Ownership>)
    requires
        !(found is Found),
    ensures
        explanation(pid, found, owner) == explanation(pid, found, None),
        explanation(pid, found, owner).field("origin_session"@) == Some(JsonModel::Null),
{
    reveal_strlit("pid");
    reveal_strlit("origin_session");
    assert("pid"@.len() != "origin_session"@.len());
    let ms = explanation(pid, found, owner)->Object_0;
    assert(ms.skip(1)[0] == ms[1]);
    reveal_with_fuel(json::first_member, 3);
}

proof fn member_at(ms: Seq<(Seq<char>, JsonModel)>, key: Seq<char>, k: int)
    requires
        0 <= k < ms.len(),
        ms[k].0 == key,
        forall|j: int| 0 <= j < k ==> (#[trigger] ms[j]).0 != key,
    ensures
        JsonModel::Object(ms).field(key) == Some(ms[k].1),
    decreases k,
{
    if k > 0 {
        let rest = ms.skip(1);
        assert(ms[0].0 != key);
        assert(rest[k - 1] == ms[k]);
        assert forall|j: int| 0 <= j < k - 1 implies (#[trigger] rest[j]).0 != key by {
            assert(rest[j] == ms[j + 1]);
        }
        member_at(rest, key, k - 1);
    }
}

/// A ping is answered with a pong, the version and who answers.
pub proof fn a_ping_is_answered_with_a_pong(version: Seq<char>, supervisor: Seq<char>)
    ensures
        pong_answer(version, supervisor).truth_field("pong"@) == Some(true),
        pong_answer(version, supervisor).text_field("version"@) == Some(version),
        pong_answer(version, supervisor).text_field("supervisor"@) == Some(supervisor),
{
    reveal_strlit("pong");
    reveal_strlit("version");
    reveal_strlit("supervisor");
    assert("pong"@.len() == 4 && "version"@.len() == 7 && "supervisor"@.len() == 10);
    let ms = pong_answer(version, supervisor)->Object_0;
    member_at(ms, "pong"@, 0);
    member_at(ms, "version"@, 1);
    member_at(ms, "supervisor"@, 2);
}

/// A piece of output carries its stream, its text, where to go on, and
/// whether something was cut or everything was read.
pub proof fn a_chunk_carries_where_to_go_on(stream: Stream, c: LogChunk)
    ensures
        chunk_answer(stream, c).text_field("stream"@) == Some(stream.name()),
        chunk_answer(stream, c).text_field("data"@) == Some(c.data@),
        chunk_answer(stream, c).unsigned_field("next_cursor"@) == Some(c.next_cursor),
        chunk_answer(stream, c).truth_field("truncated"@) == Some(c.truncated),
        chunk_answer(stream, c).truth_field("eof"@) == Some(c.eof),
{
    reveal_strlit("stream");
    reveal_strlit("data");
    reveal_strlit("next_cursor");
    reveal_strlit("truncated");
    reveal_strlit("eof");
    assert("stream"@.len() == 6 && "data"@.len() == 4 && "next_cursor"@.len() == 11
        && "truncated"@.len() == 9 && "eof"@.len() == 3);
    let ms = chunk_answer(stream, c)->Object_0;
    member_at(ms, "stream"@, 0);
    member_at(ms, "data"@, 1);
    member_at(ms, "next_cursor"@, 2);
    member_at(ms, "truncated"@, 3);
    member_at(ms, "eof"@, 4);
}

/// A start is answered with the run and whether it is a new one.
pub proof fn a_start_tells_whether_the_run_is_new(run: JsonModel, created: bool)
    ensures
        started_answer(run, created).field("run"@) == Some(run),
        started_answer(run, created).truth_field("created"@) == Some(created),
{
    reveal_strlit("run");
    reveal_strlit("created");
    assert("run"@.len() == 3 && "created"@.len() == 7);
    let ms = started_answer(run, created)->Object_0;
    member_at(ms, "run"@, 0);
    member_at(ms, "created"@, 1);
}

/// A session is ended where its alias is known, and only then.
pub proof fn only_a_known_alias_is_ended(id: Option<RuntimeSessionId>)
    ensures
        ended_answer(id).truth_field("ended"@) == Some(id is Some),
        id is Some ==> ended_answer(id).text_field("session_id"@) == Some(
            text::hex_fixed(id->0@ as nat, 16),
        ),
{
    reveal_strlit("ended");
    reveal_strlit("session_id");
    assert("ended"@.len() == 5 && "session_id"@.len() == 10);
    let ms = ended_answer(id)->Object_0;
    member_at(ms, "ended"@, 0);
    if id is Some {
        member_at(ms, "session_id"@, 1);
    }
}

/// A recorded session is told with its id, agent and times, and is active
/// until its end is known.
pub proof fn a_session_is_active_until_it_ended(s: SessionRecord)
    ensures
        session_answer(s).text_field("id"@) == Some(text::hex_fixed(s.id@ as nat, 16)),
        session_answer(s).text_field("agent"@) == Some(s.agent@),
        s.ended_at is None ==> session_answer(s).text_field("state"@) == Some("active"@),
        s.ended_at is Some ==> session_answer(s).text_field("state"@) == Some("ended"@)
            && session_answer(s).unsigned_field("ended_at"@) == Some(s.ended_at->0),
        session_answer(s).unsigned_field("started_at"@) == Some(s.started_at),
        session_answer(s).unsigned_field("last_seen_at"@) == Some(s.last_seen_at),
{
    reveal_strlit("id");
    reveal_strlit("agent");
    reveal_strlit("project");
    reveal_strlit("state");
    reveal_strlit("started_at");
    reveal_strlit("last_seen_at");
    reveal_strlit("ended_at");
    assert("id"@.len() == 2 && "agent"@.len() == 5 && "project"@.len() == 7 && "state"@.len() == 5
        && "started_at"@.len() == 10 && "last_seen_at"@.len() == 12 && "ended_at"@.len() == 8);
    assert("agent"@[0] == 'a' && "state"@[0] == 's');
    let ms = session_answer(s)->Object_0;
    member_at(ms, "id"@, 0);
    member_at(ms, "agent"@, 1);
    member_at(ms, "state"@, 3);
    member_at(ms, "started_at"@, 4);
    member_at(ms, "last_seen_at"@, 5);
    member_at(ms, "ended_at"@, 6);
}

} // verus!

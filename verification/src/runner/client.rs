//! The client's side of the local API: what it sends, and what it makes of a
//! reply.

use crate::json;
use crate::json::{append, list_value, no_values, text_value, Builder, Json, JsonModel};
use crate::model::run::{RunId, RunState};
use crate::runner::logs::Stream;
use crate::runner::run::RunView;
use crate::server;
use crate::server::{run_not_found, socket_path, RequestModel};
use crate::text;
use crate::text::{dec_of_int, same, trim_of};
use crate::written;
use vstd::prelude::*;

verus! {

/// Longest a single request may wait for a reply.
pub const REQUEST_TIMEOUT_SECS: u64 = 120;

/// How long to wait for a freshly started supervisor to answer.
pub const READY_TIMEOUT_SECS: u64 = 10;

/// A client of the supervisor behind a socket.
#[derive(Debug, Clone)]
pub struct Client {
    pub socket: String,
}

// ---------------------------------------------------------------------------
// Requests
// ---------------------------------------------------------------------------

/// The members without those of a key.
pub open spec fn without(ms: Seq<(Seq<char>, JsonModel)>, key: Seq<char>) -> Seq<
    (Seq<char>, JsonModel),
>
    decreases ms.len(),
{
    if ms.len() == 0 {
        Seq::empty()
    } else {
        let rest = without(ms.drop_last(), key);
        if ms.last().0 == key {
            rest
        } else {
            rest.push(ms.last())
        }
    }
}

/// A request: the command, and the members of `extra` where it is an object.
pub open spec fn body(cmd: Seq<char>, extra: JsonModel) -> JsonModel {
    JsonModel::Object(
        match extra {
            JsonModel::Object(ms) => without(ms, "cmd"@).push(("cmd"@, JsonModel::Text(cmd))),
            _ => seq![("cmd"@, JsonModel::Text(cmd))],
        },
    )
}

/// The body of one request.
pub fn request_body(cmd: &str, extra: Json) -> (r: Json)
    ensures
        r.model() == body(cmd@, extra.model()),
{
    let mut b: Builder = Builder::new();
    match extra {
        Json::Object(v) => {
            proof {
                json::object_model(v);
            }
            let ghost ms = json::member_models(v@);
            let mut i: usize = 0;
            assert(ms.take(0) =~= Seq::<(Seq<char>, JsonModel)>::empty());
            while i < v.len()
                invariant
                    i <= v.len(),
                    ms == json::member_models(v@),
                    b@ == without(ms.take(i as int), "cmd"@),
                decreases v.len() - i,
            {
                assert(ms.take(i + 1).drop_last() =~= ms.take(i as int));
                assert(ms.take(i + 1).last() == ms[i as int]);
                if !same(v[i].key.as_str(), "cmd") {
                    b = b.with(v[i].key.as_str(), v[i].value.copy());
                }
                i += 1;
            }
            assert(ms.take(ms.len() as int) =~= ms);
        },
        _ => {
            assert(b@.push(("cmd"@, JsonModel::Text(cmd@))) =~= seq![
                ("cmd"@, JsonModel::Text(cmd@)),
            ]);
        },
    }
    b.with("cmd", text_value(cmd)).done()
}

pub open spec fn optional_int(o: Option<i64>) -> JsonModel {
    match o {
        None => JsonModel::Null,
        Some(n) => if n >= 0 {
            JsonModel::Unsigned(n as u64)
        } else {
            JsonModel::Negative(n)
        },
    }
}

fn optional_value(o: Option<i64>) -> (r: Json)
    ensures
        r.model() == optional_int(o),
{
    match o {
        None => Json::Null,
        Some(n) => if n >= 0 {
            Json::Unsigned(n as u64)
        } else {
            Json::Negative(n)
        },
    }
}

pub open spec fn id_value(id: RunId) -> JsonModel {
    JsonModel::Text(text::dec_int(id.0 as int))
}

pub open spec fn get_members(id: RunId, after: Option<i64>, wait_ms: u64) -> JsonModel {
    JsonModel::Object(
        Seq::empty().push(("run_id"@, id_value(id))).push(
            ("after_revision"@, optional_int(after)),
        ).push(("wait_ms"@, JsonModel::Unsigned(wait_ms))),
    )
}

pub open spec fn output_members(id: RunId, stream: Stream, cursor: u64, max_bytes: usize) -> JsonModel {
    JsonModel::Object(
        Seq::empty().push(("run_id"@, id_value(id))).push(
            ("stream"@, JsonModel::Text(stream.name())),
        ).push(("cursor"@, JsonModel::Unsigned(cursor))).push(
            ("max_bytes"@, JsonModel::Unsigned(max_bytes as u64)),
        ),
    )
}

pub open spec fn cancel_members(id: RunId) -> JsonModel {
    JsonModel::Object(Seq::empty().push(("run_id"@, id_value(id))))
}

pub open spec fn start_members(spec: JsonModel, env: JsonModel) -> JsonModel {
    JsonModel::Object(Seq::empty().push(("spec"@, spec)).push(("env"@, env)))
}

/// One variable as it is sent.
pub open spec fn pair_value(p: (Seq<char>, Seq<char>)) -> JsonModel {
    JsonModel::List(seq![JsonModel::Text(p.0), JsonModel::Text(p.1)])
}

/// Variables as they are sent.
pub open spec fn env_value(env: Seq<(Seq<char>, Seq<char>)>) -> JsonModel {
    JsonModel::List(Seq::new(env.len(), |i: int| pair_value(env[i])))
}

fn env_json(env: &Vec<(String, String)>) -> (r: Json)
    ensures
        r.model() == env_value(written::pair_texts(env@)),
{
    let ghost all = env_value(written::pair_texts(env@))->List_0;
    let mut list: Vec<Json> = no_values();
    let mut i: usize = 0;
    assert(all.take(0) =~= Seq::<JsonModel>::empty());
    while i < env.len()
        invariant
            i <= env.len(),
            all == env_value(written::pair_texts(env@))->List_0,
            json::models(list@) == all.take(i as int),
        decreases env.len() - i,
    {
        let pair: Json = list_value(
            append(
                append(no_values(), text_value(env[i].0.as_str())),
                text_value(env[i].1.as_str()),
            ),
        );
        assert(pair.model()->List_0 =~= pair_value(written::pair_texts(env@)[i as int])->List_0);
        list = append(list, pair);
        assert(all.take(i + 1) =~= all.take(i as int).push(all[i as int]));
        i += 1;
    }
    assert(all.take(all.len() as int) =~= all);
    list_value(list)
}

impl Client {
    /// The client of the supervisor next to a state database.
    pub fn new(store_path: &str) -> (r: Client)
        ensures
            r.socket@ == server::socket_place(store_path@),
    {
        Client { socket: socket_path(store_path) }
    }

    /// The request that starts a run with these variables.
    pub fn start(spec: Json, env: &Vec<(String, String)>) -> (r: Json)
        ensures
            r.model() == body(
                "start_run"@,
                start_members(spec.model(), env_value(written::pair_texts(env@))),
            ),
    {
        request_body(
            "start_run",
            Builder::new().with("spec", spec).with("env", env_json(env)).done(),
        )
    }

    /// The request for a run newer than a revision: a bounded long poll.
    pub fn get(id: RunId, after_revision: Option<i64>, wait_ms: u64) -> (r: Json)
        ensures
            r.model() == body("get_run"@, get_members(id, after_revision, wait_ms)),
    {
        request_body(
            "get_run",
            Builder::new().with("run_id", Json::Text(dec_of_int(id.0))).with(
                "after_revision",
                optional_value(after_revision),
            ).with("wait_ms", Json::Unsigned(wait_ms)).done(),
        )
    }

    /// The request for a piece of a run's output.
    pub fn output(id: RunId, stream: Stream, cursor: u64, max_bytes: usize) -> (r: Json)
        ensures
            r.model() == body(
                "read_run_output"@,
                output_members(id, stream, cursor, max_bytes),
            ),
    {
        request_body(
            "read_run_output",
            Builder::new().with("run_id", Json::Text(dec_of_int(id.0))).with(
                "stream",
                text_value(stream.as_str()),
            ).with("cursor", Json::Unsigned(cursor)).with(
                "max_bytes",
                Json::Unsigned(max_bytes as u64),
            ).done(),
        )
    }

    /// The request that stops a run.
    pub fn cancel(id: RunId) -> (r: Json)
        ensures
            r.model() == body("cancel_run"@, cancel_members(id)),
    {
        request_body(
            "cancel_run",
            Builder::new().with("run_id", Json::Text(dec_of_int(id.0))).done(),
        )
    }
}

// ---------------------------------------------------------------------------
// Replies
// ---------------------------------------------------------------------------

/// What a reply comes to: its data, or its error.
pub open spec fn outcome(m: JsonModel) -> Result<JsonModel, Seq<char>> {
    if m.truth_field("ok"@) == Some(true) {
        Ok(
            match m.field("data"@) {
                Some(d) => d,
                None => JsonModel::Null,
            },
        )
    } else {
        Err(
            match m.text_field("error"@) {
                Some(e) => e,
                None => "unknown error"@,
            },
        )
    }
}

fn is_true(o: Option<bool>) -> (r: bool)
    ensures
        r == (o == Some(true)),
{
    match o {
        Some(b) => b,
        None => false,
    }
}

/// What a reply comes to.
pub fn reply(parsed: &Json) -> (r: Result<Json, String>)
    ensures
        match (r, outcome(parsed.model())) {
            (Ok(a), Ok(b)) => a.model() == b,
            (Err(a), Err(b)) => a@ == b,
            _ => false,
        },
{
    if is_true(parsed.bool_at("ok")) {
        match parsed.get("data") {
            Some(d) => Ok(d.copy()),
            None => Ok(Json::Null),
        }
    } else {
        match parsed.str_at("error") {
            Some(e) => Err(e.to_owned()),
            None => Err("unknown error".to_owned()),
        }
    }
}

/// What a line of reply comes to. A line that is no JSON is an error that says
/// why and quotes it.
pub fn read_reply(line: &str) -> (r: Result<Json, String>)
    ensures
        match json::read_json(text::trimmed(line@)) {
            Ok(m) => match (r, outcome(m)) {
                (Ok(a), Ok(b)) => a.model() == b,
                (Err(a), Err(b)) => a@ == b,
                _ => false,
            },
            Err(e) => r is Err && r->Err_0@ == "bad reply: "@ + e + ": "@ + line@,
        },
{
    match json::parse(trim_of(line).as_str()) {
        Ok(j) => reply(&j),
        Err(e) => {
            Err("bad reply: ".to_owned().concat(e.as_str()).concat(": ").concat(line))
        },
    }
}

/// A supervisor answered a ping.
pub fn handshake(line: &str) -> (r: bool)
    ensures
        r == match json::read_json(text::trimmed(line@)) {
            Ok(m) => m.truth_field("ok"@) == Some(true),
            Err(_) => false,
        },
{
    match json::parse(trim_of(line).as_str()) {
        Ok(j) => is_true(j.bool_at("ok")),
        Err(_) => false,
    }
}

/// The run in a reply's data; none where it is absent or null.
pub open spec fn run_in(data: JsonModel) -> Option<JsonModel> {
    match data.field("run"@) {
        Some(JsonModel::Null) => None,
        other => other,
    }
}

pub fn run_of(data: &Json) -> (r: Option<&Json>)
    ensures
        match r {
            Some(j) => run_in(data.model()) == Some(j.model()),
            None => run_in(data.model()) is None,
        },
{
    match data.get("run") {
        Some(Json::Null) => None,
        other => other,
    }
}

/// What to do after a poll.
#[derive(Debug, Clone)]
pub enum Wait {
    /// The run has finished.
    Done(RunView),
    /// Poll again for something newer than this.
    Again(i64),
}

/// One step of waiting for a run to finish: the last view is handed back once
/// the run has reached its terminal state.
pub fn wait_for_finish(id: RunId, view: Option<RunView>) -> (r: Result<Wait, String>)
    ensures
        match view {
            None => r matches Err(e) && e@ == "run "@ + text::dec_int(id.0 as int)
                + " not found"@,
            Some(v) => r == Ok::<Wait, String>(
                if v.state == RunState::Finished {
                    Wait::Done(v)
                } else {
                    Wait::Again(v.revision)
                },
            ),
        },
{
    match view {
        None => Err(run_not_found(id)),
        Some(v) => if v.state == RunState::Finished {
            Ok(Wait::Done(v))
        } else {
            Ok(Wait::Again(v.revision))
        },
    }
}

// ---------------------------------------------------------------------------
// Laws
// ---------------------------------------------------------------------------

/// Data that is sent as a reply comes back as that data.
pub proof fn data_comes_back(d: JsonModel)
    ensures
        outcome(server::ok_reply(d)) == Ok::<JsonModel, Seq<char>>(d),
{
    reveal_strlit("ok");
    reveal_strlit("data");
    reveal_with_fuel(json::first_member, 3);
    assert("ok"@.len() != "data"@.len());
    let ms = seq![("ok"@, JsonModel::Bool(true)), ("data"@, d)];
    assert(ms.skip(1)[0] == ms[1]);
}

/// A refused request is answered with its error, and the client gets exactly
/// that.
pub proof fn errors_come_back(msg: Seq<char>)
    ensures
        outcome(server::error_reply(msg)) == Err::<JsonModel, Seq<char>>(msg),
{
    reveal_strlit("ok");
    reveal_strlit("error");
    reveal_with_fuel(json::first_member, 3);
    assert("ok"@.len() != "error"@.len());
    let ms = seq![("ok"@, JsonModel::Bool(false)), ("error"@, JsonModel::Text(msg))];
    assert(ms.skip(1)[0] == ms[1]);
}

/// Data comes back over the wire as well: what is written for a reply is read
/// as a reply with that data.
pub proof fn written_data_comes_back(d: JsonModel)
    requires
        written::plain(d),
    ensures
        outcome(written::in_order(server::ok_reply(d))) == Ok::<JsonModel, Seq<char>>(
            written::in_order(d),
        ),
{
    let m = server::ok_reply(d);
    let ms = m->Object_0;
    reveal_strlit("ok");
    reveal_strlit("data");
    assert("ok"@.len() != "data"@.len());
    assert(ms[0].0 == "ok"@ && ms[1].0 == "data"@ && ms.len() == 2);
    assert(written::distinct(ms));
    reveal_with_fuel(written::plain, 2);
    assert(written::plain(m));
    written::writing_keeps_a_field(m, "ok"@);
    written::writing_keeps_a_field(m, "data"@);
    data_comes_back(d);
    reveal_with_fuel(json::first_member, 3);
    assert(ms.skip(1)[0] == ms[1]);
}

/// An error comes back over the wire as well.
pub proof fn written_errors_come_back(msg: Seq<char>)
    ensures
        outcome(written::in_order(server::error_reply(msg))) == Err::<JsonModel, Seq<char>>(msg),
{
    let m = server::error_reply(msg);
    let ms = m->Object_0;
    reveal_strlit("ok");
    reveal_strlit("error");
    assert("ok"@.len() != "error"@.len());
    assert(ms[0].0 == "ok"@ && ms[1].0 == "error"@ && ms.len() == 2);
    assert(written::distinct(ms));
    reveal_with_fuel(written::plain, 2);
    assert(written::plain(m));
    written::writing_keeps_a_field(m, "ok"@);
    written::writing_keeps_a_field(m, "error"@);
    errors_come_back(msg);
}

proof fn without_facts(ms: Seq<(Seq<char>, JsonModel)>, key: Seq<char>)
    ensures
        forall|i: int| 0 <= i < without(ms, key).len() ==> (#[trigger] without(ms, key)[i]).0 != key,
    decreases ms.len(),
{
    if ms.len() > 0 {
        without_facts(ms.drop_last(), key);
        let rest = without(ms.drop_last(), key);
        assert forall|i: int| 0 <= i < without(ms, key).len() implies (#[trigger] without(
            ms,
            key,
        )[i]).0 != key by {
            if i < rest.len() {
                assert(without(ms, key)[i] == rest[i]);
            }
        }
    }
}

/// Looking past members of other keys.
proof fn first_after(ms: Seq<(Seq<char>, JsonModel)>, key: Seq<char>, v: JsonModel)
    requires
        forall|i: int| 0 <= i < ms.len() ==> (#[trigger] ms[i]).0 != key,
    ensures
        json::first_member(ms.push((key, v)), key) == Some(v),
    decreases ms.len(),
{
    let all = ms.push((key, v));
    if ms.len() > 0 {
        let rest = ms.skip(1);
        assert forall|i: int| 0 <= i < rest.len() implies (#[trigger] rest[i]).0 != key by {
            assert(rest[i] == ms[i + 1]);
        }
        first_after(rest, key, v);
        assert(all.skip(1) =~= rest.push((key, v)));
        assert(all[0] == ms[0]);
    }
}

/// Whatever goes with it, a request names its command.
pub proof fn requests_carry_their_command(cmd: Seq<char>, extra: JsonModel)
    ensures
        body(cmd, extra).text_field("cmd"@) == Some(cmd),
{
    match extra {
        JsonModel::Object(ms) => {
            without_facts(ms, "cmd"@);
            first_after(without(ms, "cmd"@), "cmd"@, JsonModel::Text(cmd));
        },
        _ => {
            let ms = seq![("cmd"@, JsonModel::Text(cmd))];
            assert(ms[0].0 == "cmd"@);
        },
    }
}

proof fn request_names()
    ensures
        "run_id"@ != "cmd"@,
        "after_revision"@ != "cmd"@,
        "wait_ms"@ != "cmd"@,
        "stream"@ != "cmd"@,
        "cursor"@ != "cmd"@,
        "max_bytes"@ != "cmd"@,
        "run_id"@ != "after_revision"@,
        "run_id"@ != "wait_ms"@,
        "after_revision"@ != "wait_ms"@,
        "run_id"@ != "stream"@,
        "run_id"@ != "cursor"@,
        "run_id"@ != "max_bytes"@,
        "stream"@ != "cursor"@,
        "stream"@ != "max_bytes"@,
        "cursor"@ != "max_bytes"@,
        "filter"@ != "cmd"@,
        "filter"@ != "run_id"@,
        "filter"@ != "after_revision"@,
        "filter"@ != "wait_ms"@,
        "filter"@ != "stream"@,
        "filter"@ != "cursor"@,
        "filter"@ != "max_bytes"@,
{
    reveal_strlit("filter");
    assert("filter"@.len() == 6 && "filter"@[0] == 'f');
    reveal_strlit("run_id");
    reveal_strlit("cmd");
    reveal_strlit("after_revision");
    reveal_strlit("wait_ms");
    reveal_strlit("stream");
    reveal_strlit("cursor");
    reveal_strlit("max_bytes");
    assert("run_id"@[0] == 'r' && "cmd"@[0] == 'c' && "stream"@[0] == 's');
    assert("cursor"@[0] == 'c' && "cursor"@.len() == 6 && "cmd"@.len() == 3);
    assert("after_revision"@.len() == 14 && "wait_ms"@.len() == 7 && "max_bytes"@.len() == 9);
    assert("run_id"@.len() == 6 && "stream"@.len() == 6);
}

proof fn command_names()
    ensures
        "cancel_run"@ != "ping"@,
        "cancel_run"@ != "capabilities"@,
        "cancel_run"@ != "get_capacity"@,
        "cancel_run"@ != "set_limits"@,
        "cancel_run"@ != "start_run"@,
        "cancel_run"@ != "get_run"@,
        "cancel_run"@ != "read_run_output"@,
        "cancel_run"@ != "list_runs"@,
        "get_run"@ != "ping"@,
        "get_run"@ != "capabilities"@,
        "get_run"@ != "get_capacity"@,
        "get_run"@ != "set_limits"@,
        "get_run"@ != "start_run"@,
        "read_run_output"@ != "ping"@,
        "read_run_output"@ != "capabilities"@,
        "read_run_output"@ != "get_capacity"@,
        "read_run_output"@ != "set_limits"@,
        "read_run_output"@ != "start_run"@,
        "read_run_output"@ != "get_run"@,
{
    reveal_strlit("cancel_run");
    reveal_strlit("ping");
    reveal_strlit("capabilities");
    reveal_strlit("get_capacity");
    reveal_strlit("set_limits");
    reveal_strlit("start_run");
    reveal_strlit("get_run");
    reveal_strlit("read_run_output");
    reveal_strlit("list_runs");
    assert("cancel_run"@.len() == 10 && "ping"@.len() == 4 && "capabilities"@.len() == 12
        && "get_capacity"@.len() == 12 && "set_limits"@.len() == 10 && "start_run"@.len() == 9
        && "get_run"@.len() == 7 && "read_run_output"@.len() == 15 && "list_runs"@.len() == 9);
    assert("cancel_run"@[0] != "set_limits"@[0]);
}

/// Members of other keys are all kept.
proof fn kept_members(ms: Seq<(Seq<char>, JsonModel)>)
    requires
        forall|i: int| 0 <= i < ms.len() ==> (#[trigger] ms[i]).0 != "cmd"@,
    ensures
        without(ms, "cmd"@) == ms,
    decreases ms.len(),
{
    if ms.len() > 0 {
        let front = ms.drop_last();
        assert forall|i: int| 0 <= i < front.len() implies (#[trigger] front[i]).0 != "cmd"@ by {
            assert(front[i] == ms[i]);
        }
        kept_members(front);
        assert(ms.last() == ms[ms.len() - 1]);
        assert(front.push(ms.last()) =~= ms);
    } else {
        assert(without(ms, "cmd"@) =~= ms);
    }
}

/// Members of other keys hold no filter.
proof fn no_filter(ms: Seq<(Seq<char>, JsonModel)>)
    requires
        forall|i: int| 0 <= i < ms.len() ==> (#[trigger] ms[i]).0 != "filter"@,
    ensures
        json::first_member(ms, "filter"@) is None,
    decreases ms.len(),
{
    if ms.len() > 0 {
        let rest = ms.skip(1);
        assert forall|i: int| 0 <= i < rest.len() implies (#[trigger] rest[i]).0 != "filter"@ by {
            assert(rest[i] == ms[i + 1]);
        }
        no_filter(rest);
    }
}

/// What a client asks for is what the server reads, also once it was written
/// and read back: a poll for a run.
pub proof fn get_is_understood(id: RunId, after: Option<i64>, wait_ms: u64)
    ensures
        server::requested(body("get_run"@, get_members(id, after, wait_ms))) == Ok::<
            RequestModel,
            Seq<char>,
        >(RequestModel::GetRun { run: id, after_revision: after, wait_ms }),
        server::requested(
            written::in_order(body("get_run"@, get_members(id, after, wait_ms))),
        ) == server::requested(body("get_run"@, get_members(id, after, wait_ms))),
{
    request_names();
    command_names();
    let m = body("get_run"@, get_members(id, after, wait_ms));
    let ms = get_members(id, after, wait_ms)->Object_0;
    assert(ms =~= seq![
        ("run_id"@, id_value(id)),
        ("after_revision"@, optional_int(after)),
        ("wait_ms"@, JsonModel::Unsigned(wait_ms)),
    ]);
    kept_members(ms);
    requests_carry_their_command("get_run"@, get_members(id, after, wait_ms));
    let all = ms.push(("cmd"@, JsonModel::Text("get_run"@)));
    assert(all.skip(1)[0] == all[1]);
    assert(all.skip(1).skip(1)[0] == all[2]);
    reveal_with_fuel(json::first_member, 4);
    text::signed_reads_back(id.0 as int, i64::MIN as int, i64::MAX as int);
    assert(m == JsonModel::Object(all));
    reveal_with_fuel(written::plain, 2);
    assert(written::distinct(all));
    no_filter(all);
    server::writing_keeps_the_request(m);
}

/// What a client asks for is what the server reads, also once it was written
/// and read back: a piece of output.
pub proof fn output_is_understood(id: RunId, stream: Stream, cursor: u64, max_bytes: usize)
    requires
        1 <= max_bytes <= server::MAX_CHUNK,
    ensures
        server::requested(
            body("read_run_output"@, output_members(id, stream, cursor, max_bytes)),
        ) == Ok::<RequestModel, Seq<char>>(
            RequestModel::ReadRunOutput { id, stream, cursor, max_bytes },
        ),
        server::requested(
            written::in_order(
                body("read_run_output"@, output_members(id, stream, cursor, max_bytes)),
            ),
        ) == server::requested(
            body("read_run_output"@, output_members(id, stream, cursor, max_bytes)),
        ),
{
    request_names();
    command_names();
    reveal_strlit("stdout");
    reveal_strlit("stderr");
    assert("stdout"@[3] != "stderr"@[3]);
    let m = body("read_run_output"@, output_members(id, stream, cursor, max_bytes));
    let ms = output_members(id, stream, cursor, max_bytes)->Object_0;
    assert(ms =~= seq![
        ("run_id"@, id_value(id)),
        ("stream"@, JsonModel::Text(stream.name())),
        ("cursor"@, JsonModel::Unsigned(cursor)),
        ("max_bytes"@, JsonModel::Unsigned(max_bytes as u64)),
    ]);
    kept_members(ms);
    requests_carry_their_command(
        "read_run_output"@,
        output_members(id, stream, cursor, max_bytes),
    );
    let all = ms.push(("cmd"@, JsonModel::Text("read_run_output"@)));
    assert(all.skip(1)[0] == all[1]);
    assert(all.skip(1).skip(1)[0] == all[2]);
    assert(all.skip(1).skip(1).skip(1)[0] == all[3]);
    reveal_with_fuel(json::first_member, 5);
    text::signed_reads_back(id.0 as int, i64::MIN as int, i64::MAX as int);
    assert(m == JsonModel::Object(all));
    reveal_with_fuel(written::plain, 2);
    assert(written::distinct(all));
    no_filter(all);
    server::writing_keeps_the_request(m);
}

/// Variables that were sent are the variables that are read.
pub proof fn variables_come_back(env: Seq<(Seq<char>, Seq<char>)>)
    ensures
        written::pair_list(env_value(env)) == Some(env),
        written::in_order(env_value(env)) == env_value(env),
        written::plain(env_value(env)),
{
    let l = env_value(env)->List_0;
    assert forall|i: int| 0 <= i < l.len() implies written::is_pair(#[trigger] l[i])
        && written::plain(l[i]) by {
        assert(l[i] == pair_value(env[i]));
        reveal_with_fuel(written::plain, 2);
    }
    assert(Seq::new(l.len(), |i: int| (l[i]->List_0[0]->Text_0, l[i]->List_0[1]->Text_0)) =~= env);
    written::a_pair_list_is_kept(env_value(env));
}

/// What a client asks for is what the server reads, also once it was written
/// and read back: a start, with its variables.
pub proof fn start_is_understood(spec: JsonModel, env: Seq<(Seq<char>, Seq<char>)>)
    ensures
        server::requested(body("start_run"@, start_members(spec, env_value(env)))) == Ok::<
            RequestModel,
            Seq<char>,
        >(RequestModel::StartRun { spec, env: Some(env_value(env)) }),
        written::plain(spec) ==> server::requested(
            written::in_order(body("start_run"@, start_members(spec, env_value(env)))),
        ) == Ok::<RequestModel, Seq<char>>(
            RequestModel::StartRun { spec: written::in_order(spec), env: Some(env_value(env)) },
        ),
        written::pair_list(env_value(env)) == Some(env),
{
    variables_come_back(env);
    reveal_strlit("spec");
    reveal_strlit("env");
    reveal_strlit("cmd");
    reveal_strlit("start_run");
    reveal_strlit("ping");
    reveal_strlit("capabilities");
    reveal_strlit("get_capacity");
    reveal_strlit("set_limits");
    assert("spec"@.len() == 4 && "env"@.len() == 3 && "cmd"@.len() == 3);
    assert("env"@[0] != "cmd"@[0]);
    assert("start_run"@.len() == 9 && "ping"@.len() == 4 && "capabilities"@.len() == 12
        && "get_capacity"@.len() == 12 && "set_limits"@.len() == 10);
    let extra = start_members(spec, env_value(env));
    let ms = extra->Object_0;
    assert(ms =~= seq![("spec"@, spec), ("env"@, env_value(env))]);
    kept_members(ms);
    requests_carry_their_command("start_run"@, extra);
    let all = ms.push(("cmd"@, JsonModel::Text("start_run"@)));
    assert(all.skip(1)[0] == all[1]);
    reveal_with_fuel(json::first_member, 3);
    if written::plain(spec) {
        let m = body("start_run"@, extra);
        assert(m == JsonModel::Object(all));
        assert forall|i: int| 0 <= i < all.len() implies written::plain((#[trigger] all[i]).1) by {
            if i == 2 {
                assert(all[i].1 == JsonModel::Text("start_run"@));
            }
        }
        assert(written::distinct(all));
        reveal_strlit("filter");
        assert("filter"@.len() == 6);
        no_filter(all);
        server::writing_keeps_the_request(m);
    }
}

/// What a client asks for is what the server reads, also once it was written
/// and read back: a cancel.
pub proof fn cancel_is_understood(id: RunId)
    ensures
        server::requested(body("cancel_run"@, cancel_members(id))) == Ok::<
            RequestModel,
            Seq<char>,
        >(RequestModel::CancelRun(id)),
        server::requested(
            written::in_order(body("cancel_run"@, cancel_members(id))),
        ) == server::requested(body("cancel_run"@, cancel_members(id))),
{
    request_names();
    command_names();
    let ms = cancel_members(id)->Object_0;
    assert(ms =~= seq![("run_id"@, id_value(id))]);
    kept_members(ms);
    requests_carry_their_command("cancel_run"@, cancel_members(id));
    let all = ms.push(("cmd"@, JsonModel::Text("cancel_run"@)));
    assert(all[0] == ms[0]);
    text::signed_reads_back(id.0 as int, i64::MIN as int, i64::MAX as int);
    reveal_with_fuel(written::plain, 2);
    assert(written::distinct(all));
    no_filter(all);
    server::writing_keeps_the_request(JsonModel::Object(all));
}

} // verus!

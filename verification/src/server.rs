//! The local API: one line of JSON in, one line of JSON out.
//!
//! A request is read and checked here. The program around the library answers
//! it from the store and the supervisor.

use crate::classify::pids;
use crate::json;
use crate::json::{Builder, Json, JsonModel};
use crate::model::boot::BootId;
use crate::model::process::{ProcessIdentity, ProcessInfo};
use crate::model::run;
use crate::model::run::{LimitSummary, RunId, RunRecord, RunState};
use crate::model::session::RuntimeSessionId;
use crate::path;
use crate::runner::logs;
use crate::runner::logs::Stream;
use crate::runner::scheduler::Limits;
use crate::text;
use crate::text::{dec_of_int, parse_hex, parse_signed, quoted, same, trim_of};
use crate::time::Duration;
use crate::written;
use crate::written::pairs_of;
use vstd::prelude::*;

verus! {

/// Concurrent connections. A stuck client occupies one, never the acceptor.
pub const MAX_CLIENTS: usize = 64;

/// A supervisor started on demand exits after this long without clients or
/// runs. One that was started explicitly never does.
pub const IDLE_EXIT_SECS: u64 = 300;

/// Bytes of output that a request gets where it names no number.
pub const DEFAULT_CHUNK: u64 = 64 * 1024;

/// Bytes of output that a request can get at most.
pub const MAX_CHUNK: u64 = 1024 * 1024;

// ---------------------------------------------------------------------------
// Requests
// ---------------------------------------------------------------------------

/// Which runs to list.
#[derive(Debug, Clone)]
pub struct RunFilter {
    pub project: Option<String>,
    pub session: Option<RuntimeSessionId>,
    pub state: Option<RunState>,
    pub limit: Option<usize>,
}

pub struct FilterModel {
    pub project: Option<Seq<char>>,
    pub session: Option<u64>,
    pub state: Option<RunState>,
    pub limit: Option<usize>,
}

impl View for RunFilter {
    type V = FilterModel;

    open spec fn view(&self) -> FilterModel {
        FilterModel {
            project: text::text_of(self.project),
            session: match self.session {
                Some(s) => Some(s@),
                None => None,
            },
            state: self.state,
            limit: self.limit,
        }
    }
}

impl RunFilter {
    /// Whether a stored run is one of those asked for.
    pub fn admits(&self, r: &RunRecord) -> (b: bool)
        ensures
            b == self@.selects(*r),
    {
        let project: bool = match &self.project {
            Some(p) => match &r.spec.project_root {
                Some(root) => same(root.as_str(), p.as_str()),
                None => false,
            },
            None => true,
        };
        let session: bool = match (self.session, r.spec.session_id) {
            (Some(a), Some(b)) => a.as_u64() == b.as_u64(),
            (Some(_), None) => false,
            (None, _) => true,
        };
        let state: bool = match self.state {
            Some(s) => r.state == s,
            None => true,
        };
        project && session && state
    }
}

impl FilterModel {
    pub open spec fn selects(self, r: RunRecord) -> bool {
        &&& self.project is Some ==> text::text_of(r.spec.project_root) == self.project
        &&& self.session is Some ==> r.spec.session_id is Some && r.spec.session_id->0@
            == self.session->0
        &&& self.state is Some ==> r.state == self.state->0
    }
}

/// A request that was understood.
#[derive(Debug)]
pub enum Request {
    Ping,
    Capabilities,
    GetCapacity,
    /// Replace admission limits without touching active runs.
    SetLimits { limits: Json },
    StartRun { spec: Json, env: Option<Json> },
    GetRun { run: RunId, after_revision: Option<i64>, wait_ms: u64 },
    ReadRunOutput { id: RunId, stream: Stream, cursor: u64, max_bytes: usize },
    ListRuns(RunFilter),
    CancelRun(RunId),
    ListSessions,
    GetSession(RuntimeSessionId),
    Explain(u32),
    SessionStart { agent: String, vendor: String, vendor_session_id: String, pid: u32 },
    SessionEnd { by: String, alias: String },
}

pub enum RequestModel {
    Ping,
    Capabilities,
    GetCapacity,
    SetLimits { limits: JsonModel },
    StartRun { spec: JsonModel, env: Option<JsonModel> },
    GetRun { run: RunId, after_revision: Option<i64>, wait_ms: u64 },
    ReadRunOutput { id: RunId, stream: Stream, cursor: u64, max_bytes: usize },
    ListRuns(FilterModel),
    CancelRun(RunId),
    ListSessions,
    GetSession(u64),
    Explain(u32),
    SessionStart { agent: Seq<char>, vendor: Seq<char>, vendor_session_id: Seq<char>, pid: u32 },
    SessionEnd { by: Seq<char>, alias: Seq<char> },
}

impl View for Request {
    type V = RequestModel;

    open spec fn view(&self) -> RequestModel {
        match *self {
            Request::Ping => RequestModel::Ping,
            Request::Capabilities => RequestModel::Capabilities,
            Request::GetCapacity => RequestModel::GetCapacity,
            Request::SetLimits { limits } => RequestModel::SetLimits { limits: limits.model() },
            Request::StartRun { spec, env } => RequestModel::StartRun {
                spec: spec.model(),
                env: match env {
                    Some(e) => Some(e.model()),
                    None => None,
                },
            },
            Request::GetRun { run, after_revision, wait_ms } => RequestModel::GetRun {
                run,
                after_revision,
                wait_ms,
            },
            Request::ReadRunOutput {
                id,
                stream,
                cursor,
                max_bytes,
            } => RequestModel::ReadRunOutput { id, stream, cursor, max_bytes },
            Request::ListRuns(f) => RequestModel::ListRuns(f@),
            Request::CancelRun(id) => RequestModel::CancelRun(id),
            Request::ListSessions => RequestModel::ListSessions,
            Request::GetSession(id) => RequestModel::GetSession(id@),
            Request::Explain(pid) => RequestModel::Explain(pid),
            Request::SessionStart {
                agent,
                vendor,
                vendor_session_id,
                pid,
            } => RequestModel::SessionStart {
                agent: agent@,
                vendor: vendor@,
                vendor_session_id: vendor_session_id@,
                pid,
            },
            Request::SessionEnd { by, alias } => RequestModel::SessionEnd {
                by: by@,
                alias: alias@,
            },
        }
    }
}

/// A text member, or the empty text.
pub open spec fn text_or_empty(m: JsonModel, key: Seq<char>) -> Seq<char> {
    match m.text_field(key) {
        Some(s) => s,
        None => Seq::empty(),
    }
}

pub open spec fn unsigned_or_zero(m: JsonModel, key: Seq<char>) -> u64 {
    match m.unsigned_field(key) {
        Some(n) => n,
        None => 0,
    }
}

/// A session id in hexadecimal; anything else stands for zero.
pub open spec fn session_key(s: Seq<char>) -> u64 {
    match text::parsed_hex(s) {
        Some(n) => n,
        None => 0,
    }
}

/// The id of a run: a decimal text or an integer.
pub open spec fn run_id_of(m: JsonModel) -> Result<RunId, Seq<char>> {
    match m.field("run_id"@) {
        None => Err("run_id is required"@),
        Some(JsonModel::Text(s)) => match text::parsed_int(s, i64::MIN as int, i64::MAX as int) {
            Some(n) => Ok(RunId(n as i64)),
            None => Err("run_id must be a decimal id"@),
        },
        Some(v) => match v.signed() {
            Some(n) => Ok(RunId(n)),
            None => Err("run_id must be a decimal id"@),
        },
    }
}

/// How many bytes of output a request gets.
pub open spec fn chunk_size(m: JsonModel) -> usize {
    let n = match m.unsigned_field("max_bytes"@) {
        Some(n) => n,
        None => DEFAULT_CHUNK,
    };
    if n < 1 {
        1
    } else if n > MAX_CHUNK {
        MAX_CHUNK as usize
    } else {
        n as usize
    }
}

/// The stream of a name.
pub open spec fn stream_named(s: Option<Seq<char>>) -> Option<Stream> {
    match s {
        Some(n) => if n == Stream::Stdout.name() {
            Some(Stream::Stdout)
        } else if n == Stream::Stderr.name() {
            Some(Stream::Stderr)
        } else {
            None
        },
        None => None,
    }
}

/// The state of a name.
pub open spec fn state_named(s: Option<Seq<char>>) -> Option<RunState> {
    match s {
        Some(n) => if n == RunState::Queued.name() {
            Some(RunState::Queued)
        } else if n == RunState::Starting.name() {
            Some(RunState::Starting)
        } else if n == RunState::Running.name() {
            Some(RunState::Running)
        } else if n == RunState::Stopping.name() {
            Some(RunState::Stopping)
        } else if n == RunState::Finished.name() {
            Some(RunState::Finished)
        } else {
            None
        },
        None => None,
    }
}

/// The filter that an object spells.
pub open spec fn filter_of(m: JsonModel) -> FilterModel {
    FilterModel {
        project: m.text_field("project"@),
        session: match m.text_field("session"@) {
            Some(s) => Some(session_key(s)),
            None => None,
        },
        state: state_named(m.text_field("state"@)),
        limit: match m.unsigned_field("limit"@) {
            Some(n) => Some(n as usize),
            None => None,
        },
    }
}

pub open spec fn empty_filter() -> FilterModel {
    FilterModel { project: None, session: None, state: None, limit: None }
}

pub open spec fn output_request(m: JsonModel) -> Result<RequestModel, Seq<char>> {
    match run_id_of(m) {
        Err(e) => Err(e),
        Ok(id) => match stream_named(m.text_field("stream"@)) {
            None => Err("stream must be stdout or stderr"@),
            Some(stream) => Ok(
                RequestModel::ReadRunOutput {
                    id,
                    stream,
                    cursor: unsigned_or_zero(m, "cursor"@),
                    max_bytes: chunk_size(m),
                },
            ),
        },
    }
}

pub open spec fn session_start_request(m: JsonModel) -> Result<RequestModel, Seq<char>> {
    let agent = text_or_empty(m, "agent"@);
    let vendor = text_or_empty(m, "vendor"@);
    let vendor_session_id = text_or_empty(m, "vendor_session_id"@);
    let pid = unsigned_or_zero(m, "pid"@) as u32;
    if pid == 0 || agent.len() == 0 || vendor.len() == 0 || vendor_session_id.len() == 0 {
        Err("session_start needs pid > 0, agent, vendor, vendor_session_id"@)
    } else {
        Ok(RequestModel::SessionStart { agent, vendor, vendor_session_id, pid })
    }
}

pub open spec fn run_request(cmd: Seq<char>, m: JsonModel) -> Option<
    Result<RequestModel, Seq<char>>,
> {
    if cmd == "set_limits"@ {
        Some(
            match m.field("limits"@) {
                None => Err("set_limits needs a limits object"@),
                Some(limits) => Ok(RequestModel::SetLimits { limits }),
            },
        )
    } else if cmd == "start_run"@ {
        Some(
            match m.field("spec"@) {
                None => Err("start_run needs a spec"@),
                Some(spec) => Ok(
                    RequestModel::StartRun {
                        spec,
                        env: match m.field("env"@) {
                            Some(JsonModel::List(l)) => Some(JsonModel::List(l)),
                            _ => None,
                        },
                    },
                ),
            },
        )
    } else if cmd == "get_run"@ {
        Some(
            match run_id_of(m) {
                Err(e) => Err(e),
                Ok(run) => Ok(
                    RequestModel::GetRun {
                        run,
                        after_revision: m.signed_field("after_revision"@),
                        wait_ms: unsigned_or_zero(m, "wait_ms"@),
                    },
                ),
            },
        )
    } else if cmd == "read_run_output"@ {
        Some(output_request(m))
    } else if cmd == "list_runs"@ {
        Some(
            Ok(
                RequestModel::ListRuns(
                    match m.field("filter"@) {
                        Some(f) => filter_of(f),
                        None => empty_filter(),
                    },
                ),
            ),
        )
    } else if cmd == "cancel_run"@ {
        Some(
            match run_id_of(m) {
                Err(e) => Err(e),
                Ok(id) => Ok(RequestModel::CancelRun(id)),
            },
        )
    } else {
        None
    }
}

/// The request that a value spells, or the error it is answered with.
pub open spec fn requested(m: JsonModel) -> Result<RequestModel, Seq<char>> {
    let cmd = text_or_empty(m, "cmd"@);
    if cmd == "ping"@ {
        Ok(RequestModel::Ping)
    } else if cmd == "capabilities"@ {
        Ok(RequestModel::Capabilities)
    } else if cmd == "get_capacity"@ {
        Ok(RequestModel::GetCapacity)
    } else if run_request(cmd, m) is Some {
        run_request(cmd, m)->Some_0
    } else if cmd == "list_sessions"@ {
        Ok(RequestModel::ListSessions)
    } else if cmd == "get_session"@ {
        Ok(RequestModel::GetSession(session_key(text_or_empty(m, "id"@))))
    } else if cmd == "explain"@ {
        Ok(RequestModel::Explain(unsigned_or_zero(m, "pid"@) as u32))
    } else if cmd == "session_start"@ {
        session_start_request(m)
    } else if cmd == "session_end"@ {
        Ok(
            RequestModel::SessionEnd {
                by: text_or_empty(m, "vendor"@),
                alias: text_or_empty(m, "vendor_session_id"@),
            },
        )
    } else {
        Err("unknown command "@ + text::quoted_text(cmd))
    }
}

/// A result as the model says.
pub open spec fn answers(r: Result<Request, String>, m: Result<RequestModel, Seq<char>>) -> bool {
    match (r, m) {
        (Ok(q), Ok(qm)) => q@ == qm,
        (Err(e), Err(em)) => e@ == em,
        _ => false,
    }
}

fn text_at(req: &Json, key: &str) -> (r: String)
    ensures
        r@ == text_or_empty(req.model(), key@),
{
    match req.str_at(key) {
        Some(s) => s.to_owned(),
        None => {
            let r: String = String::new();
            assert(r@ =~= Seq::<char>::empty());
            r
        },
    }
}

fn number_at(req: &Json, key: &str) -> (r: u64)
    ensures
        r == unsigned_or_zero(req.model(), key@),
{
    match req.u64_at(key) {
        Some(n) => n,
        None => 0,
    }
}

/// A session id in hexadecimal; anything else stands for zero.
pub fn session_id_of(s: &str) -> (r: RuntimeSessionId)
    ensures
        r@ == session_key(s@),
{
    match parse_hex(s) {
        Some(n) => RuntimeSessionId::from_u64(n),
        None => RuntimeSessionId::from_u64(0),
    }
}

/// The id of a run in a request.
pub fn run_id_arg(req: &Json) -> (r: Result<RunId, String>)
    ensures
        match (r, run_id_of(req.model())) {
            (Ok(a), Ok(b)) => a == b,
            (Err(a), Err(b)) => a@ == b,
            _ => false,
        },
{
    let raw: &Json = match req.get("run_id") {
        Some(v) => v,
        None => {
            return Err("run_id is required".to_owned());
        },
    };
    let id: Option<i64> = match raw {
        Json::Text(s) => parse_signed(s.as_str(), i64::MIN, i64::MAX),
        _ => raw.as_i64(),
    };
    match id {
        Some(n) => Ok(RunId(n)),
        None => Err("run_id must be a decimal id".to_owned()),
    }
}

/// How many bytes of output a request gets: bounded, so that a client cannot
/// ask for any amount of memory.
pub fn max_bytes_arg(req: &Json) -> (r: usize)
    ensures
        r == chunk_size(req.model()),
{
    let n: u64 = match req.u64_at("max_bytes") {
        Some(n) => n,
        None => DEFAULT_CHUNK,
    };
    if n < 1 {
        1
    } else if n > MAX_CHUNK {
        MAX_CHUNK as usize
    } else {
        n as usize
    }
}

fn stream_arg(req: &Json) -> (r: Option<Stream>)
    ensures
        r == stream_named(req.model().text_field("stream"@)),
{
    match req.str_at("stream") {
        Some(s) => {
            let r: Option<Stream> = Stream::parse(s);
            proof {
                logs::stream_names_differ();
                assert(Stream::Stdout.name() == s@ <==> r == Some(Stream::Stdout));
                assert(Stream::Stderr.name() == s@ <==> r == Some(Stream::Stderr));
                if r is Some {
                    assert(r->Some_0.name() == s@);
                }
            }
            r
        },
        None => None,
    }
}

fn state_arg(o: Option<&str>) -> (r: Option<RunState>)
    ensures
        r == state_named(
            match o {
                Some(s) => Some(s@),
                None => None,
            },
        ),
{
    match o {
        Some(s) => {
            let r: Option<RunState> = RunState::parse(s);
            proof {
                let n = s@;
                assert(RunState::Queued.name() == n <==> r == Some(RunState::Queued));
                assert(RunState::Starting.name() == n <==> r == Some(RunState::Starting));
                assert(RunState::Running.name() == n <==> r == Some(RunState::Running));
                assert(RunState::Stopping.name() == n <==> r == Some(RunState::Stopping));
                assert(RunState::Finished.name() == n <==> r == Some(RunState::Finished));
                if r is Some {
                    assert(r->Some_0.name() == n);
                }
            }
            r
        },
        None => None,
    }
}

/// The filter that an object spells.
pub fn filter_arg(f: &Json) -> (r: RunFilter)
    ensures
        r@ == filter_of(f.model()),
{
    RunFilter {
        project: text::owned_opt(f.str_at("project")),
        session: match f.str_at("session") {
            Some(s) => Some(session_id_of(s)),
            None => None,
        },
        state: state_arg(f.str_at("state")),
        limit: match f.u64_at("limit") {
            Some(n) => Some(n as usize),
            None => None,
        },
    }
}

fn read_run_output(req: &Json) -> (r: Result<Request, String>)
    ensures
        answers(r, output_request(req.model())),
{
    let id: RunId = match run_id_arg(req) {
        Ok(id) => id,
        Err(e) => {
            return Err(e);
        },
    };
    match stream_arg(req) {
        Some(stream) => Ok(
            Request::ReadRunOutput {
                id,
                stream,
                cursor: number_at(req, "cursor"),
                max_bytes: max_bytes_arg(req),
            },
        ),
        None => Err("stream must be stdout or stderr".to_owned()),
    }
}

/// A vendor registers an agent session.
fn session_start(req: &Json) -> (r: Result<Request, String>)
    ensures
        answers(r, session_start_request(req.model())),
{
    let agent: String = text_at(req, "agent");
    let vendor: String = text_at(req, "vendor");
    let vendor_session_id: String = text_at(req, "vendor_session_id");
    let pid: u32 = number_at(req, "pid") as u32;
    if pid == 0 || agent.as_str().unicode_len() == 0 || vendor.as_str().unicode_len() == 0
        || vendor_session_id.as_str().unicode_len() == 0 {
        return Err("session_start needs pid > 0, agent, vendor, vendor_session_id".to_owned());
    }
    Ok(Request::SessionStart { agent, vendor, vendor_session_id, pid })
}

fn run_command(cmd: &str, req: &Json) -> (r: Option<Result<Request, String>>)
    ensures
        match (r, run_request(cmd@, req.model())) {
            (Some(a), Some(b)) => answers(a, b),
            (None, None) => true,
            _ => false,
        },
{
    if same(cmd, "set_limits") {
        return Some(
            match req.get("limits") {
                Some(l) => Ok(Request::SetLimits { limits: l.copy() }),
                None => Err("set_limits needs a limits object".to_owned()),
            },
        );
    }
    if same(cmd, "start_run") {
        return Some(
            match req.get("spec") {
                Some(s) => {
                    let env: Option<Json> = match req.get("env") {
                        Some(Json::List(l)) => {
                            let e: &Json = req.get("env").unwrap();
                            Some(e.copy())
                        },
                        _ => None,
                    };
                    Ok(Request::StartRun { spec: s.copy(), env })
                },
                None => Err("start_run needs a spec".to_owned()),
            },
        );
    }
    if same(cmd, "get_run") {
        return Some(
            match run_id_arg(req) {
                Ok(run) => Ok(
                    Request::GetRun {
                        run,
                        after_revision: req.i64_at("after_revision"),
                        wait_ms: number_at(req, "wait_ms"),
                    },
                ),
                Err(e) => Err(e),
            },
        );
    }
    if same(cmd, "read_run_output") {
        return Some(read_run_output(req));
    }
    if same(cmd, "list_runs") {
        return Some(
            match req.get("filter") {
                Some(f) => Ok(Request::ListRuns(filter_arg(f))),
                None => Ok(
                    Request::ListRuns(
                        RunFilter { project: None, session: None, state: None, limit: None },
                    ),
                ),
            },
        );
    }
    if same(cmd, "cancel_run") {
        return Some(
            match run_id_arg(req) {
                Ok(id) => Ok(Request::CancelRun(id)),
                Err(e) => Err(e),
            },
        );
    }
    None
}

/// Read one request.
pub fn request(req: &Json) -> (r: Result<Request, String>)
    ensures
        answers(r, requested(req.model())),
{
    let name: String = text_at(req, "cmd");
    let cmd: &str = name.as_str();
    if same(cmd, "ping") {
        return Ok(Request::Ping);
    }
    if same(cmd, "capabilities") {
        return Ok(Request::Capabilities);
    }
    if same(cmd, "get_capacity") {
        return Ok(Request::GetCapacity);
    }
    match run_command(cmd, req) {
        Some(r) => {
            return r;
        },
        None => {},
    }
    if same(cmd, "list_sessions") {
        return Ok(Request::ListSessions);
    }
    if same(cmd, "get_session") {
        return Ok(Request::GetSession(session_id_of(text_at(req, "id").as_str())));
    }
    if same(cmd, "explain") {
        return Ok(Request::Explain(number_at(req, "pid") as u32));
    }
    if same(cmd, "session_start") {
        return session_start(req);
    }
    if same(cmd, "session_end") {
        return Ok(
            Request::SessionEnd {
                by: text_at(req, "vendor"),
                alias: text_at(req, "vendor_session_id"),
            },
        );
    }
    Err("unknown command ".to_owned().concat(quoted(cmd).as_str()))
}

/// Read one request line. A line that is no JSON is an error that says why.
pub fn dispatch(line: &str) -> (r: Result<Request, String>)
    ensures
        match json::read_json(text::trimmed(line@)) {
            Ok(m) => answers(r, requested(m)),
            Err(e) => r is Err && r->Err_0@ == e,
        },
{
    match json::parse(trim_of(line).as_str()) {
        Ok(j) => request(&j),
        Err(e) => Err(e),
    }
}

/// The variables that a start hands to its command, or why they are none. A
/// start that holds no list hands over none.
pub fn env_of(env: &Option<Json>) -> (r: Result<Vec<(String, String)>, String>)
    ensures
        match env {
            None => r is Ok && r->Ok_0@.len() == 0,
            Some(j) => match written::pair_list(written::in_order(j.model())) {
                Some(l) => r is Ok && written::pair_texts(r->Ok_0@) == l,
                None => r is Err && r->Err_0@ == "bad env: "@ + written::no_pair_list(
                    written::in_order(j.model()),
                ),
            },
        },
{
    match env {
        None => Ok(Vec::new()),
        Some(j) => match pairs_of(j) {
            Ok(l) => Ok(l),
            Err(e) => Err("bad env: ".to_owned().concat(e.as_str())),
        },
    }
}

// ---------------------------------------------------------------------------
// Replies
// ---------------------------------------------------------------------------

/// The reply that carries data.
pub open spec fn ok_reply(data: JsonModel) -> JsonModel {
    JsonModel::Object(seq![("ok"@, JsonModel::Bool(true)), ("data"@, data)])
}

/// The reply that carries an error.
pub open spec fn error_reply(msg: Seq<char>) -> JsonModel {
    JsonModel::Object(seq![("ok"@, JsonModel::Bool(false)), ("error"@, JsonModel::Text(msg))])
}

pub fn ok_json(data: Json) -> (r: Json)
    ensures
        r.model() == ok_reply(data.model()),
{
    let ghost m = data.model();
    let b: Builder = Builder::new().with("ok", Json::Bool(true)).with("data", data);
    assert(b@ =~= seq![("ok"@, JsonModel::Bool(true)), ("data"@, m)]);
    b.done()
}

pub fn err_json(msg: &str) -> (r: Json)
    ensures
        r.model() == error_reply(msg@),
{
    let b: Builder = Builder::new().with("ok", Json::Bool(false)).with(
        "error",
        json::text_value(msg),
    );
    assert(b@ =~= seq![("ok"@, JsonModel::Bool(false)), ("error"@, JsonModel::Text(msg@))]);
    b.done()
}

/// What a session is called: ended once its end is known.
pub fn session_state(ended_at: Option<u64>) -> (r: &'static str)
    ensures
        r@ == if ended_at is Some {
            "ended"@
        } else {
            "active"@
        },
{
    if ended_at.is_some() {
        "ended"
    } else {
        "active"
    }
}

/// The error for a run that is not known.
pub fn run_not_found(id: RunId) -> (r: String)
    ensures
        r@ == "run "@ + text::dec_int(id.0 as int) + " not found"@,
{
    "run ".to_owned().concat(dec_of_int(id.0).as_str()).concat(" not found")
}

// ---------------------------------------------------------------------------
// Limits
// ---------------------------------------------------------------------------

/// A limit of at least one.
pub open spec fn positive(n: u64) -> usize {
    if n as usize >= 1 {
        n as usize
    } else {
        1
    }
}

pub open spec fn or_current(v: Option<u64>, current: u64) -> u64 {
    match v {
        Some(n) => n,
        None => current,
    }
}

/// A budget: a number sets it, anything else that is named clears it.
pub open spec fn budget(m: JsonModel, key: Seq<char>, current: Option<u32>) -> Option<u32> {
    match m.field(key) {
        None => current,
        Some(v) => match v.unsigned() {
            Some(n) => Some(n as u32),
            None => None,
        },
    }
}

/// The limits after a change: what is not named stays.
pub open spec fn changes(l: Limits, current: LimitSummary, m: JsonModel) -> bool {
    &&& l.max_parallel == match m.unsigned_field("max_parallel"@) {
        Some(n) => positive(n),
        None => current.max_parallel,
    }
    &&& l.max_parallel_per_project == match m.unsigned_field("max_parallel_per_project"@) {
        Some(n) => positive(n),
        None => current.max_parallel_per_project,
    }
    &&& l.max_queued == match m.unsigned_field("max_queued"@) {
        Some(n) => n as usize,
        None => current.max_queued,
    }
    &&& l.queue_timeout@ == or_current(
        m.unsigned_field("queue_timeout_secs"@),
        current.queue_timeout_secs,
    ) as nat * 1_000_000_000
    &&& l.memory_budget_bytes == or_current(
        m.unsigned_field("memory_budget_bytes"@),
        current.memory_budget_bytes,
    )
    &&& l.default_run_memory_bytes == or_current(
        m.unsigned_field("default_run_memory_bytes"@),
        current.default_run_memory_bytes,
    )
    &&& l.starvation_after@ == or_current(
        m.unsigned_field("starvation_after_secs"@),
        current.starvation_after_secs,
    ) as nat * 1_000_000_000
    &&& l.cpu_budget_millicores == budget(
        m,
        "cpu_budget_millicores"@,
        current.cpu_budget_millicores,
    )
    &&& l.pids_budget == budget(m, "pids_budget"@, current.pids_budget)
}

fn positive_of(v: Option<u64>, current: usize) -> (r: usize)
    ensures
        r == match v {
            Some(n) => positive(n),
            None => current,
        },
{
    match v {
        Some(n) => {
            let k: usize = n as usize;
            if k >= 1 {
                k
            } else {
                1
            }
        },
        None => current,
    }
}

fn number_or(v: Option<u64>, current: u64) -> (r: u64)
    ensures
        r == or_current(v, current),
{
    match v {
        Some(n) => n,
        None => current,
    }
}

fn budget_or(raw: &Json, key: &str, current: Option<u32>) -> (r: Option<u32>)
    ensures
        r == budget(raw.model(), key@, current),
{
    match raw.get(key) {
        None => current,
        Some(v) => match v.as_u64() {
            Some(n) => Some(n as u32),
            None => None,
        },
    }
}

/// The limits that a change of the current ones gives. Active runs are not
/// touched.
pub fn set_limits(current: &LimitSummary, raw: &Json) -> (r: Limits)
    ensures
        changes(r, *current, raw.model()),
{
    Limits {
        max_parallel: positive_of(raw.u64_at("max_parallel"), current.max_parallel),
        max_parallel_per_project: positive_of(
            raw.u64_at("max_parallel_per_project"),
            current.max_parallel_per_project,
        ),
        max_queued: match raw.u64_at("max_queued") {
            Some(n) => n as usize,
            None => current.max_queued,
        },
        queue_timeout: Duration::from_secs(
            number_or(raw.u64_at("queue_timeout_secs"), current.queue_timeout_secs),
        ),
        memory_budget_bytes: number_or(
            raw.u64_at("memory_budget_bytes"),
            current.memory_budget_bytes,
        ),
        default_run_memory_bytes: number_or(
            raw.u64_at("default_run_memory_bytes"),
            current.default_run_memory_bytes,
        ),
        starvation_after: Duration::from_secs(
            number_or(raw.u64_at("starvation_after_secs"), current.starvation_after_secs),
        ),
        cpu_budget_millicores: budget_or(
            raw,
            "cpu_budget_millicores",
            current.cpu_budget_millicores,
        ),
        pids_budget: budget_or(raw, "pids_budget", current.pids_budget),
    }
}

// ---------------------------------------------------------------------------
// The daemon
// ---------------------------------------------------------------------------

/// The socket lives next to the state database.
pub open spec fn socket_place(store_path: Seq<char>) -> Seq<char> {
    match path::parent_of(store_path) {
        Some(dir) => path::joined(dir, "wyd.sock"@),
        None => "wyd.sock"@,
    }
}

pub fn socket_path(store_path: &str) -> (r: String)
    ensures
        r@ == socket_place(store_path@),
{
    match path::parent(store_path) {
        Some(dir) => path::join(dir.as_str(), "wyd.sock"),
        None => "wyd.sock".to_owned(),
    }
}

/// One client more than the daemon serves is refused, not queued.
pub fn refuses_client(clients: usize) -> (r: bool)
    ensures
        r == (clients >= MAX_CLIENTS),
{
    clients >= MAX_CLIENTS
}

/// A supervisor started on demand leaves once nothing needs it. Active runs
/// keep it: a client that disconnects never stops a run.
pub fn exits_idle(active_runs: usize, now: u64, last_seen: u64) -> (r: bool)
    ensures
        r == (active_runs == 0 && now >= last_seen + IDLE_EXIT_SECS),
{
    active_runs == 0 && now >= last_seen && now - last_seen >= IDLE_EXIT_SECS
}

/// Whether a live process can be looked up in what was recorded.
#[derive(Debug, Clone)]
pub enum Located {
    NotRunning,
    /// Its start time is not known.
    NoIdentity,
    Found { label: String, identity: ProcessIdentity },
}

/// The process of a pid, and its identity in this boot.
pub fn locate(pid: u32, processes: &Vec<ProcessInfo>, boot: &BootId) -> (r: Located)
    ensures
        match pids::first_by_pid(processes@, pid) {
            None => r is NotRunning,
            Some(p) => match ProcessIdentity::of(*boot, p) {
                None => r is NoIdentity,
                Some(id) => r matches Located::Found { label, identity } && label@
                    == p.best_name() && identity == id,
            },
        },
{
    match pids::find_first(processes, pid) {
        None => Located::NotRunning,
        Some(i) => match ProcessIdentity::from_process(boot, &processes[i]) {
            None => Located::NoIdentity,
            Some(identity) => Located::Found { label: processes[i].label(), identity },
        },
    }
}

// ---------------------------------------------------------------------------
// Laws
// ---------------------------------------------------------------------------

/// What is understood names its command: a value without one is refused.
pub proof fn requests_name_their_command(m: JsonModel)
    requires
        requested(m) is Ok,
    ensures
        m.text_field("cmd"@) is Some,
{
    let cmd = text_or_empty(m, "cmd"@);
    if m.text_field("cmd"@) is None {
        reveal_strlit("ping");
        reveal_strlit("capabilities");
        reveal_strlit("get_capacity");
        reveal_strlit("set_limits");
        reveal_strlit("start_run");
        reveal_strlit("get_run");
        reveal_strlit("read_run_output");
        reveal_strlit("list_runs");
        reveal_strlit("cancel_run");
        reveal_strlit("list_sessions");
        reveal_strlit("get_session");
        reveal_strlit("explain");
        reveal_strlit("session_start");
        reveal_strlit("session_end");
        assert(cmd.len() == 0);
        assert("ping"@.len() > 0 && "capabilities"@.len() > 0 && "get_capacity"@.len() > 0
            && "set_limits"@.len() > 0 && "start_run"@.len() > 0 && "get_run"@.len() > 0
            && "read_run_output"@.len() > 0 && "list_runs"@.len() > 0 && "cancel_run"@.len() > 0
            && "list_sessions"@.len() > 0 && "get_session"@.len() > 0 && "explain"@.len() > 0
            && "session_start"@.len() > 0 && "session_end"@.len() > 0);
    }
}

/// Output is read in bounded chunks, whatever a request asks for.
pub proof fn chunks_are_bounded(m: JsonModel)
    ensures
        1 <= chunk_size(m) <= MAX_CHUNK,
{
}

/// A change never closes the door: at least one run can be admitted, per
/// project too.
pub proof fn limits_admit_at_least_one(l: Limits, current: LimitSummary, m: JsonModel)
    requires
        changes(l, current, m),
        current.max_parallel >= 1,
        current.max_parallel_per_project >= 1,
    ensures
        l.max_parallel >= 1,
        l.max_parallel_per_project >= 1,
{
}

/// A change that names no limit changes none.
pub proof fn empty_change_changes_nothing(l: Limits, current: LimitSummary)
    requires
        changes(l, current, JsonModel::Object(Seq::empty())),
    ensures
        l.max_parallel == current.max_parallel,
        l.max_parallel_per_project == current.max_parallel_per_project,
        l.max_queued == current.max_queued,
        l.queue_timeout@ == current.queue_timeout_secs as nat * 1_000_000_000,
        l.memory_budget_bytes == current.memory_budget_bytes,
        l.default_run_memory_bytes == current.default_run_memory_bytes,
        l.starvation_after@ == current.starvation_after_secs as nat * 1_000_000_000,
        l.cpu_budget_millicores == current.cpu_budget_millicores,
        l.pids_budget == current.pids_budget,
{
}

/// A request as it is understood on the other side of the wire: values that
/// it carries have the members of their objects in order.
pub open spec fn ordered_request(q: RequestModel) -> RequestModel {
    match q {
        RequestModel::SetLimits { limits } => RequestModel::SetLimits {
            limits: written::in_order(limits),
        },
        RequestModel::StartRun { spec, env } => RequestModel::StartRun {
            spec: written::in_order(spec),
            env: match env {
                Some(e) => Some(written::in_order(e)),
                None => None,
            },
        },
        _ => q,
    }
}

/// A request means the same once it was written and read back. What it
/// carries is the same value, with the members of objects in order.
pub proof fn writing_keeps_the_request(m: JsonModel)
    requires
        written::plain(m),
        written::keyed_once(m),
        m.field("filter"@) matches Some(f) ==> written::keyed_once(f),
    ensures
        requested(written::in_order(m)) == match requested(m) {
            Ok(q) => Ok::<RequestModel, Seq<char>>(ordered_request(q)),
            Err(e) => Err::<RequestModel, Seq<char>>(e),
        },
{
    let w = written::in_order(m);
    written::writing_keeps_a_field(m, "cmd"@);
    written::writing_keeps_a_field(m, "limits"@);
    written::writing_keeps_a_field(m, "spec"@);
    written::writing_keeps_a_field(m, "env"@);
    written::writing_keeps_a_field(m, "run_id"@);
    written::writing_keeps_a_field(m, "after_revision"@);
    written::writing_keeps_a_field(m, "wait_ms"@);
    written::writing_keeps_a_field(m, "stream"@);
    written::writing_keeps_a_field(m, "cursor"@);
    written::writing_keeps_a_field(m, "max_bytes"@);
    written::writing_keeps_a_field(m, "filter"@);
    written::writing_keeps_a_field(m, "id"@);
    written::writing_keeps_a_field(m, "pid"@);
    written::writing_keeps_a_field(m, "agent"@);
    written::writing_keeps_a_field(m, "vendor"@);
    written::writing_keeps_a_field(m, "vendor_session_id"@);
    if let Some(f) = m.field("filter"@) {
        written::writing_keeps_a_field(f, "project"@);
        written::writing_keeps_a_field(f, "session"@);
        written::writing_keeps_a_field(f, "state"@);
        written::writing_keeps_a_field(f, "limit"@);
    }
    assert(run_id_of(w) == run_id_of(m));
    let cmd = text_or_empty(m, "cmd"@);
    assert(run_request(cmd, w) == match run_request(cmd, m) {
        Some(Ok(q)) => Some(Ok::<RequestModel, Seq<char>>(ordered_request(q))),
        other => other,
    });
}

/// A filter selects the runs that agree with everything it names: project,
/// session and state, and with nothing named all of them.
pub proof fn a_filter_selects_what_agrees(f: FilterModel, r: RunRecord)
    ensures
        f.project is None && f.session is None && f.state is None ==> f.selects(r),
        f.selects(r) && f.project is Some ==> r.spec.project_root is Some
            && r.spec.project_root->0@ == f.project->0,
        f.selects(r) && f.session is Some ==> r.spec.session_id is Some && r.spec.session_id->0@
            == f.session->0,
        f.selects(r) && f.state is Some ==> r.state == f.state->0,
        f.session is None && f.state is None && f.project is Some && r.spec.project_root is Some
            && r.spec.project_root->0@ == f.project->0 ==> f.selects(r),
        f.project is None && f.state is None && f.session is Some && r.spec.session_id is Some
            && r.spec.session_id->0@ == f.session->0 ==> f.selects(r),
        f.project is None && f.session is None && f.state is Some && r.state == f.state->0
            ==> f.selects(r),
{
}

/// The id of a run is a number, also where it is written as a text; without
/// one, or with anything else, a request is refused.
pub proof fn run_ids_are_numbers(m: JsonModel, n: i64)
    ensures
        m.field("run_id"@) is None ==> run_id_of(m) is Err,
        m.field("run_id"@) == Some(JsonModel::Text(text::dec_int(n as int))) ==> run_id_of(m)
            == Ok::<RunId, Seq<char>>(RunId(n)),
        m.field("run_id"@) is Some && m.field("run_id"@)->0 !is Text && m.field("run_id"@)->0
            .signed() == Some(n) ==> run_id_of(m) == Ok::<RunId, Seq<char>>(RunId(n)),
        m.field("run_id"@) is Some && m.field("run_id"@)->0 !is Text && m.field("run_id"@)->0
            .signed() is None ==> run_id_of(m) is Err,
{
    text::signed_reads_back(n as int, i64::MIN as int, i64::MAX as int);
}

/// A chunk has as many bytes as were asked for, from one up to a mebibyte,
/// and 64 kibibytes where nobody asked.
pub proof fn a_chunk_has_the_size_that_was_asked_for(m: JsonModel, n: u64)
    ensures
        m.unsigned_field("max_bytes"@) is None ==> chunk_size(m) == DEFAULT_CHUNK,
        m.unsigned_field("max_bytes"@) == Some(n) && 1 <= n <= MAX_CHUNK ==> chunk_size(m) == n,
        m.unsigned_field("max_bytes"@) == Some(n) && n == 0 ==> chunk_size(m) == 1,
        m.unsigned_field("max_bytes"@) == Some(n) && n > MAX_CHUNK ==> chunk_size(m) == MAX_CHUNK,
{
}

/// A request about a run carries its run, where to go on and how much; about
/// a session its id; about a process its pid.
pub proof fn requests_carry_their_arguments(m: JsonModel, id: RunId)
    requires
        run_id_of(m) == Ok::<RunId, Seq<char>>(id),
    ensures
        m.text_field("cmd"@) == Some("get_run"@) ==> requested(m) == Ok::<
            RequestModel,
            Seq<char>,
        >(
            RequestModel::GetRun {
                run: id,
                after_revision: m.signed_field("after_revision"@),
                wait_ms: unsigned_or_zero(m, "wait_ms"@),
            },
        ),
        m.text_field("cmd"@) == Some("cancel_run"@) ==> requested(m) == Ok::<
            RequestModel,
            Seq<char>,
        >(RequestModel::CancelRun(id)),
        m.text_field("cmd"@) == Some("read_run_output"@) && m.text_field("stream"@) == Some(
            "stdout"@,
        ) ==> requested(m) == Ok::<RequestModel, Seq<char>>(
            RequestModel::ReadRunOutput {
                id,
                stream: Stream::Stdout,
                cursor: unsigned_or_zero(m, "cursor"@),
                max_bytes: chunk_size(m),
            },
        ),
        m.text_field("cmd"@) == Some("read_run_output"@) && m.text_field("stream"@) == Some(
            "stderr"@,
        ) ==> requested(m) == Ok::<RequestModel, Seq<char>>(
            RequestModel::ReadRunOutput {
                id,
                stream: Stream::Stderr,
                cursor: unsigned_or_zero(m, "cursor"@),
                max_bytes: chunk_size(m),
            },
        ),
{
    reveal_strlit("ping");
    reveal_strlit("capabilities");
    reveal_strlit("get_capacity");
    reveal_strlit("set_limits");
    reveal_strlit("start_run");
    reveal_strlit("get_run");
    reveal_strlit("read_run_output");
    reveal_strlit("list_runs");
    reveal_strlit("cancel_run");
    reveal_strlit("stdout");
    reveal_strlit("stderr");
    assert("ping"@.len() == 4 && "capabilities"@.len() == 12 && "get_capacity"@.len() == 12);
    assert("set_limits"@.len() == 10 && "start_run"@.len() == 9 && "get_run"@.len() == 7);
    assert("read_run_output"@.len() == 15 && "list_runs"@.len() == 9 && "cancel_run"@.len() == 10);
    assert("set_limits"@[0] == 's' && "cancel_run"@[0] == 'c');
    assert("stdout"@[3] == 'o' && "stderr"@[3] == 'e');
}

/// A session is begun by a process with an agent, a vendor and the vendor's
/// id, all of them named; else it is refused.
pub proof fn a_session_needs_all_its_names(m: JsonModel)
    ensures
        ({
            let r = session_start_request(m);
            let pid = unsigned_or_zero(m, "pid"@) as u32;
            &&& r is Ok <==> pid > 0 && text_or_empty(m, "agent"@).len() > 0 && text_or_empty(
                m,
                "vendor"@,
            ).len() > 0 && text_or_empty(m, "vendor_session_id"@).len() > 0
            &&& r is Ok ==> r->Ok_0 == (RequestModel::SessionStart {
                agent: text_or_empty(m, "agent"@),
                vendor: text_or_empty(m, "vendor"@),
                vendor_session_id: text_or_empty(m, "vendor_session_id"@),
                pid,
            })
        }),
{
}

/// A limit that is named gets its new value and no other changes; a slot
/// limit of zero means one, and a budget that is no number is lifted.
pub proof fn a_named_limit_changes(l: Limits, current: LimitSummary, m: JsonModel, n: u64)
    requires
        changes(l, current, m),
        n <= u32::MAX,
    ensures
        m.unsigned_field("max_parallel"@) == Some(n) && n > 0 ==> l.max_parallel == n,
        m.unsigned_field("max_parallel"@) == Some(0u64) ==> l.max_parallel == 1,
        m.unsigned_field("max_parallel"@) is None ==> l.max_parallel == current.max_parallel,
        m.unsigned_field("max_parallel_per_project"@) == Some(n) && n > 0
            ==> l.max_parallel_per_project == n,
        m.unsigned_field("max_parallel_per_project"@) == Some(0u64) ==> l.max_parallel_per_project
            == 1,
        m.unsigned_field("max_parallel_per_project"@) is None ==> l.max_parallel_per_project
            == current.max_parallel_per_project,
        m.unsigned_field("max_queued"@) == Some(n) ==> l.max_queued == n,
        m.unsigned_field("max_queued"@) is None ==> l.max_queued == current.max_queued,
        m.unsigned_field("queue_timeout_secs"@) == Some(n) ==> l.queue_timeout@ == n as nat
            * 1_000_000_000,
        m.unsigned_field("queue_timeout_secs"@) is None ==> l.queue_timeout@
            == current.queue_timeout_secs as nat * 1_000_000_000,
        m.unsigned_field("memory_budget_bytes"@) == Some(n) ==> l.memory_budget_bytes == n,
        m.unsigned_field("memory_budget_bytes"@) is None ==> l.memory_budget_bytes
            == current.memory_budget_bytes,
        m.unsigned_field("default_run_memory_bytes"@) == Some(n) ==> l.default_run_memory_bytes
            == n,
        m.unsigned_field("default_run_memory_bytes"@) is None ==> l.default_run_memory_bytes
            == current.default_run_memory_bytes,
        m.unsigned_field("starvation_after_secs"@) == Some(n) ==> l.starvation_after@ == n as nat
            * 1_000_000_000,
        m.unsigned_field("starvation_after_secs"@) is None ==> l.starvation_after@
            == current.starvation_after_secs as nat * 1_000_000_000,
        m.unsigned_field("cpu_budget_millicores"@) == Some(n) ==> l.cpu_budget_millicores == Some(
            n as u32,
        ),
        m.field("cpu_budget_millicores"@) is None ==> l.cpu_budget_millicores
            == current.cpu_budget_millicores,
        m.field("cpu_budget_millicores"@) is Some && m.field("cpu_budget_millicores"@)->0
            .unsigned() is None ==> l.cpu_budget_millicores is None,
        m.unsigned_field("pids_budget"@) == Some(n) ==> l.pids_budget == Some(n as u32),
        m.field("pids_budget"@) is None ==> l.pids_budget == current.pids_budget,
        m.field("pids_budget"@) is Some && m.field("pids_budget"@)->0.unsigned() is None
            ==> l.pids_budget is None,
{
}

/// The socket lies beside the store.
pub proof fn the_socket_lies_beside_the_store(dir: Seq<char>, name: Seq<char>)
    requires
        dir.len() > 0,
        dir.last() != '/',
        path::trimmed(dir) == dir,
        name.len() > 0,
        name != seq!['.'],
        forall|i: int| 0 <= i < name.len() ==> #[trigger] name[i] != '/',
    ensures
        socket_place(path::joined(dir, name)) == dir + seq!['/'] + "wyd.sock"@,
{
    reveal_strlit("wyd.sock");
    path::a_joined_name_comes_apart_again(dir, name);
    assert("wyd.sock"@[0] != '/');
}

} // verus!

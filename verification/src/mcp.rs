//! The Model Context Protocol surface for coding agents.
//!
//! One JSON-RPC message per line. Read tools are always there; the tools that
//! start and stop runs exist only where the user allowed them, and that is
//! checked at the call, not in the schema alone.

use crate::json;
use crate::json::{append, list_value, no_values, text_value, Builder, Json, JsonModel};
use crate::model::run;
use crate::model::run::{RunId, RunSpec, SessionOrigin};
use crate::model::session::RuntimeSessionId;
use crate::runner::logs::Stream;
use crate::runner::run::caller_session;
use crate::server;
use crate::server::{filter_arg, max_bytes_arg, run_id_arg, session_id_of, RunFilter};
use crate::text;
use crate::text::{quoted, same};
use crate::time::Duration;
use crate::written;
use crate::written::texts_of;
use vstd::prelude::*;

verus! {

// ---------------------------------------------------------------------------
// Tools
// ---------------------------------------------------------------------------

pub open spec fn tool_model(name: Seq<char>, description: Seq<char>, schema: JsonModel) -> JsonModel {
    JsonModel::Object(
        Seq::empty().push(("name"@, JsonModel::Text(name))).push(
            ("description"@, JsonModel::Text(description)),
        ).push(("inputSchema"@, schema)),
    )
}

fn tool(name: &str, description: &str, schema: Json) -> (r: Json)
    ensures
        r.model() == tool_model(name@, description@, schema.model()),
{
    Builder::new().with("name", text_value(name)).with(
        "description",
        text_value(description),
    ).with("inputSchema", schema).done()
}

/// The parameters of `list_sessions`.
pub open spec fn list_sessions_schema() -> JsonModel {
    JsonModel::Object(Seq::empty().push(("type"@, JsonModel::Text("object"@))).push(("properties"@, JsonModel::Object(Seq::empty()))).push(("additionalProperties"@, JsonModel::Bool(false))))
}

fn list_sessions_parameters() -> (r: Json)
    ensures
        r.model() == list_sessions_schema(),
{
    Builder::new().with("type", text_value("object")).with("properties", Builder::new().done()).with("additionalProperties", Json::Bool(false)).done()
}

pub open spec fn list_sessions_tool() -> JsonModel {
    tool_model(
        "list_sessions"@,
        "List recorded coding-agent runtime sessions (id, agent, project, state, started_at)."@,
        list_sessions_schema(),
    )
}

/// The parameters of `explain`.
pub open spec fn explain_schema() -> JsonModel {
    JsonModel::Object(Seq::empty().push(("type"@, JsonModel::Text("object"@))).push(("properties"@, JsonModel::Object(Seq::empty().push(("pid"@, JsonModel::Object(Seq::empty().push(("type"@, JsonModel::Text("integer"@))).push(("description"@, JsonModel::Text("process id"@))))))))).push(("required"@, JsonModel::List(Seq::empty().push(JsonModel::Text("pid"@))))))
}

fn explain_parameters() -> (r: Json)
    ensures
        r.model() == explain_schema(),
{
    Builder::new().with("type", text_value("object")).with("properties", Builder::new().with("pid", Builder::new().with("type", text_value("integer")).with("description", text_value("process id")).done()).done()).with("required", list_value(append(no_values(), text_value("pid")))).done()
}

pub open spec fn explain_tool() -> JsonModel {
    tool_model(
        "explain"@,
        "Explain which session owns a process (by pid): origin session, project, state."@,
        explain_schema(),
    )
}

/// The parameters of `list_runs`.
pub open spec fn list_runs_schema() -> JsonModel {
    JsonModel::Object(Seq::empty().push(("type"@, JsonModel::Text("object"@))).push(("properties"@, JsonModel::Object(Seq::empty().push(("state"@, JsonModel::Object(Seq::empty().push(("type"@, JsonModel::Text("string"@))).push(("description"@, JsonModel::Text("queued|starting|running|stopping|finished"@)))))).push(("project"@, JsonModel::Object(Seq::empty().push(("type"@, JsonModel::Text("string"@))).push(("description"@, JsonModel::Text("absolute project root"@)))))).push(("session"@, JsonModel::Object(Seq::empty().push(("type"@, JsonModel::Text("string"@))).push(("description"@, JsonModel::Text("session id (hex)"@)))))).push(("limit"@, JsonModel::Object(Seq::empty().push(("type"@, JsonModel::Text("integer"@))))))))).push(("additionalProperties"@, JsonModel::Bool(false))))
}

fn list_runs_parameters() -> (r: Json)
    ensures
        r.model() == list_runs_schema(),
{
    Builder::new().with("type", text_value("object")).with("properties", Builder::new().with("state", Builder::new().with("type", text_value("string")).with("description", text_value("queued|starting|running|stopping|finished")).done()).with("project", Builder::new().with("type", text_value("string")).with("description", text_value("absolute project root")).done()).with("session", Builder::new().with("type", text_value("string")).with("description", text_value("session id (hex)")).done()).with("limit", Builder::new().with("type", text_value("integer")).done()).done()).with("additionalProperties", Json::Bool(false)).done()
}

pub open spec fn list_runs_tool() -> JsonModel {
    tool_model(
        "list_runs"@,
        "List managed runs started through wyd (id, state, command, duration)."@,
        list_runs_schema(),
    )
}

/// The parameters of `get_run`.
pub open spec fn get_run_schema() -> JsonModel {
    JsonModel::Object(Seq::empty().push(("type"@, JsonModel::Text("object"@))).push(("properties"@, JsonModel::Object(Seq::empty().push(("run_id"@, JsonModel::Object(Seq::empty().push(("type"@, JsonModel::Text("string"@)))))).push(("after_revision"@, JsonModel::Object(Seq::empty().push(("type"@, JsonModel::Text("integer"@))).push(("description"@, JsonModel::Text("wait for a revision newer than this"@)))))).push(("wait_ms"@, JsonModel::Object(Seq::empty().push(("type"@, JsonModel::Text("integer"@))).push(("description"@, JsonModel::Text("bounded wait, max 60000"@))))))))).push(("required"@, JsonModel::List(Seq::empty().push(JsonModel::Text("run_id"@))))).push(("additionalProperties"@, JsonModel::Bool(false))))
}

fn get_run_parameters() -> (r: Json)
    ensures
        r.model() == get_run_schema(),
{
    Builder::new().with("type", text_value("object")).with("properties", Builder::new().with("run_id", Builder::new().with("type", text_value("string")).done()).with("after_revision", Builder::new().with("type", text_value("integer")).with("description", text_value("wait for a revision newer than this")).done()).with("wait_ms", Builder::new().with("type", text_value("integer")).with("description", text_value("bounded wait, max 60000")).done()).done()).with("required", list_value(append(no_values(), text_value("run_id")))).with("additionalProperties", Json::Bool(false)).done()
}

pub open spec fn get_run_tool() -> JsonModel {
    tool_model(
        "get_run"@,
        "Get one managed run's state, result and cleanup report. Optionally waits for a newer revision."@,
        get_run_schema(),
    )
}

/// The parameters of `read_run_output`.
pub open spec fn read_run_output_schema() -> JsonModel {
    JsonModel::Object(Seq::empty().push(("type"@, JsonModel::Text("object"@))).push(("properties"@, JsonModel::Object(Seq::empty().push(("run_id"@, JsonModel::Object(Seq::empty().push(("type"@, JsonModel::Text("string"@)))))).push(("stream"@, JsonModel::Object(Seq::empty().push(("type"@, JsonModel::Text("string"@))).push(("description"@, JsonModel::Text("stdout|stderr"@)))))).push(("cursor"@, JsonModel::Object(Seq::empty().push(("type"@, JsonModel::Text("integer"@)))))).push(("max_bytes"@, JsonModel::Object(Seq::empty().push(("type"@, JsonModel::Text("integer"@))))))))).push(("required"@, JsonModel::List(Seq::empty().push(JsonModel::Text("run_id"@))))).push(("additionalProperties"@, JsonModel::Bool(false))))
}

fn read_run_output_parameters() -> (r: Json)
    ensures
        r.model() == read_run_output_schema(),
{
    Builder::new().with("type", text_value("object")).with("properties", Builder::new().with("run_id", Builder::new().with("type", text_value("string")).done()).with("stream", Builder::new().with("type", text_value("string")).with("description", text_value("stdout|stderr")).done()).with("cursor", Builder::new().with("type", text_value("integer")).done()).with("max_bytes", Builder::new().with("type", text_value("integer")).done()).done()).with("required", list_value(append(no_values(), text_value("run_id")))).with("additionalProperties", Json::Bool(false)).done()
}

pub open spec fn read_run_output_tool() -> JsonModel {
    tool_model(
        "read_run_output"@,
        "Read a bounded chunk of a run's captured stdout or stderr from a byte cursor."@,
        read_run_output_schema(),
    )
}

/// The parameters of `get_capacity`.
pub open spec fn get_capacity_schema() -> JsonModel {
    JsonModel::Object(Seq::empty().push(("type"@, JsonModel::Text("object"@))).push(("properties"@, JsonModel::Object(Seq::empty()))).push(("additionalProperties"@, JsonModel::Bool(false))))
}

fn get_capacity_parameters() -> (r: Json)
    ensures
        r.model() == get_capacity_schema(),
{
    Builder::new().with("type", text_value("object")).with("properties", Builder::new().done()).with("additionalProperties", Json::Bool(false)).done()
}

pub open spec fn get_capacity_tool() -> JsonModel {
    tool_model(
        "get_capacity"@,
        "Show managed-run admission capacity: limits, slots, reservations and the queue."@,
        get_capacity_schema(),
    )
}

/// The parameters of `start_run`.
pub open spec fn start_run_schema() -> JsonModel {
    JsonModel::Object(Seq::empty().push(("type"@, JsonModel::Text("object"@))).push(("properties"@, JsonModel::Object(Seq::empty().push(("request_id"@, JsonModel::Object(Seq::empty().push(("type"@, JsonModel::Text("string"@))).push(("description"@, JsonModel::Text("idempotency key"@)))))).push(("argv"@, JsonModel::Object(Seq::empty().push(("type"@, JsonModel::Text("array"@))).push(("items"@, JsonModel::Object(Seq::empty().push(("type"@, JsonModel::Text("string"@)))))).push(("description"@, JsonModel::Text("executable and arguments, no implicit shell"@)))))).push(("cwd"@, JsonModel::Object(Seq::empty().push(("type"@, JsonModel::Text("string"@))).push(("description"@, JsonModel::Text("absolute working directory"@)))))).push(("timeout_ms"@, JsonModel::Object(Seq::empty().push(("type"@, JsonModel::Text("integer"@)))))).push(("session_id"@, JsonModel::Object(Seq::empty().push(("type"@, JsonModel::Text("string"@))).push(("description"@, JsonModel::Text("originating session id (metadata, not authorization)"@)))))).push(("project_root"@, JsonModel::Object(Seq::empty().push(("type"@, JsonModel::Text("string"@))))))))).push(("required"@, JsonModel::List(Seq::empty().push(JsonModel::Text("request_id"@)).push(JsonModel::Text("argv"@)).push(JsonModel::Text("cwd"@))))).push(("additionalProperties"@, JsonModel::Bool(false))))
}

fn start_run_parameters() -> (r: Json)
    ensures
        r.model() == start_run_schema(),
{
    Builder::new().with("type", text_value("object")).with("properties", Builder::new().with("request_id", Builder::new().with("type", text_value("string")).with("description", text_value("idempotency key")).done()).with("argv", Builder::new().with("type", text_value("array")).with("items", Builder::new().with("type", text_value("string")).done()).with("description", text_value("executable and arguments, no implicit shell")).done()).with("cwd", Builder::new().with("type", text_value("string")).with("description", text_value("absolute working directory")).done()).with("timeout_ms", Builder::new().with("type", text_value("integer")).done()).with("session_id", Builder::new().with("type", text_value("string")).with("description", text_value("originating session id (metadata, not authorization)")).done()).with("project_root", Builder::new().with("type", text_value("string")).done()).done()).with("required", list_value(append(append(append(no_values(), text_value("request_id")), text_value("argv")), text_value("cwd")))).with("additionalProperties", Json::Bool(false)).done()
}

pub open spec fn start_run_tool() -> JsonModel {
    tool_model(
        "start_run"@,
        "Start a command on the HOST through wyd's supervisor (not sandboxed). Returns a run id; execution continues even if this connection drops."@,
        start_run_schema(),
    )
}

/// The parameters of `cancel_run`.
pub open spec fn cancel_run_schema() -> JsonModel {
    JsonModel::Object(Seq::empty().push(("type"@, JsonModel::Text("object"@))).push(("properties"@, JsonModel::Object(Seq::empty().push(("run_id"@, JsonModel::Object(Seq::empty().push(("type"@, JsonModel::Text("string"@))))))))).push(("required"@, JsonModel::List(Seq::empty().push(JsonModel::Text("run_id"@))))).push(("additionalProperties"@, JsonModel::Bool(false))))
}

fn cancel_run_parameters() -> (r: Json)
    ensures
        r.model() == cancel_run_schema(),
{
    Builder::new().with("type", text_value("object")).with("properties", Builder::new().with("run_id", Builder::new().with("type", text_value("string")).done()).done()).with("required", list_value(append(no_values(), text_value("run_id")))).with("additionalProperties", Json::Bool(false)).done()
}

pub open spec fn cancel_run_tool() -> JsonModel {
    tool_model(
        "cancel_run"@,
        "Ask a run to stop. Idempotent: repeating it returns the current status."@,
        cancel_run_schema(),
    )
}

/// The tools that only read.
pub open spec fn read_tools() -> Seq<JsonModel> {
    Seq::empty().push(list_sessions_tool()).push(explain_tool()).push(list_runs_tool()).push(get_run_tool()).push(read_run_output_tool()).push(get_capacity_tool())
}

/// The tools of a connection: those that start and stop runs only where that
/// was allowed.
pub open spec fn tool_models(allow_run: bool) -> Seq<JsonModel> {
    if allow_run {
        read_tools().push(start_run_tool()).push(cancel_run_tool())
    } else {
        read_tools()
    }
}

/// The tools of a connection.
pub fn tools(allow_run: bool) -> (r: Vec<Json>)
    ensures
        json::models(r@) == tool_models(allow_run),
{
    let mut r: Vec<Json> = no_values();
    r = append(
        r,
        tool(
            "list_sessions",
            "List recorded coding-agent runtime sessions (id, agent, project, state, started_at).",
            list_sessions_parameters(),
        ),
    );
    r = append(
        r,
        tool(
            "explain",
            "Explain which session owns a process (by pid): origin session, project, state.",
            explain_parameters(),
        ),
    );
    r = append(
        r,
        tool(
            "list_runs",
            "List managed runs started through wyd (id, state, command, duration).",
            list_runs_parameters(),
        ),
    );
    r = append(
        r,
        tool(
            "get_run",
            "Get one managed run's state, result and cleanup report. Optionally waits for a newer revision.",
            get_run_parameters(),
        ),
    );
    r = append(
        r,
        tool(
            "read_run_output",
            "Read a bounded chunk of a run's captured stdout or stderr from a byte cursor.",
            read_run_output_parameters(),
        ),
    );
    r = append(
        r,
        tool(
            "get_capacity",
            "Show managed-run admission capacity: limits, slots, reservations and the queue.",
            get_capacity_parameters(),
        ),
    );
    if allow_run {
        r = append(
            r,
            tool(
            "start_run",
            "Start a command on the HOST through wyd's supervisor (not sandboxed). Returns a run id; execution continues even if this connection drops.",
            start_run_parameters(),
        ),
        );
        r = append(
            r,
            tool(
            "cancel_run",
            "Ask a run to stop. Idempotent: repeating it returns the current status.",
            cancel_run_parameters(),
        ),
        );
    }
    r
}

// ---------------------------------------------------------------------------
// Calls
// ---------------------------------------------------------------------------

/// A tool call that was understood.
#[derive(Debug, Clone)]
pub enum ToolCall {
    ListSessions,
    Explain(u32),
    ListRuns(RunFilter),
    GetRun { run: RunId, after_revision: Option<i64>, wait_ms: u64 },
    ReadRunOutput { id: RunId, stream: Stream, cursor: u64, max_bytes: usize },
    GetCapacity,
    StartRun(RunSpec),
    CancelRun(RunId),
}

/// The command of a start, or why it is none.
pub open spec fn argv_of(args: JsonModel) -> Result<Seq<Seq<char>>, Seq<char>> {
    match args.field("argv"@) {
        None => Err("argv is required"@),
        Some(v) => match written::text_list(written::in_order(v)) {
            Some(l) => Ok(l),
            None => Err(
                "argv must be a string array: "@ + written::no_text_list(written::in_order(v)),
            ),
        },
    }
}

fn argv_arg(args: &Json) -> (r: Result<Vec<String>, String>)
    ensures
        match (r, argv_of(args.model())) {
            (Ok(v), Ok(m)) => text::texts(v@) == m,
            (Err(e), Err(m)) => e@ == m,
            _ => false,
        },
{
    match args.get("argv") {
        None => Err("argv is required".to_owned()),
        Some(v) => match texts_of(v) {
            Ok(l) => Ok(l),
            Err(e) => Err("argv must be a string array: ".to_owned().concat(e.as_str())),
        },
    }
}

/// The error that a start is refused with.
pub open spec fn start_error(args: JsonModel) -> Option<Seq<char>> {
    match argv_of(args) {
        Err(e) => Some(e),
        Ok(_) => if args.text_field("cwd"@) is None {
            Some("cwd is required"@)
        } else if args.text_field("request_id"@) is None {
            Some("request_id is required"@)
        } else {
            None
        },
    }
}

/// The run that a start asks for.
pub open spec fn starts(spec: RunSpec, args: JsonModel) -> bool {
    &&& Some(spec.request_id@) == args.text_field("request_id"@)
    &&& argv_of(args) == Ok::<Seq<Seq<char>>, Seq<char>>(text::texts(spec.argv@))
    &&& Some(spec.cwd@) == args.text_field("cwd"@)
    &&& text::text_of(spec.project_root) == args.text_field("project_root"@)
    &&& match args.text_field("session_id"@) {
        Some(s) => spec.session_id matches Some(id) && id@ == server::session_key(s)
            && spec.session_origin == SessionOrigin::CallerReported,
        None => spec.session_id is None && spec.session_origin == SessionOrigin::Unlinked,
    }
    &&& spec.timeout@ == match args.unsigned_field("timeout_ms"@) {
        Some(ms) => if ms >= 1 {
            ms as nat * 1_000_000
        } else {
            1_000_000
        },
        None => run::DEFAULT_TIMEOUT_SECS as nat * 1_000_000_000,
    }
    &&& spec.grace@ == run::DEFAULT_GRACE_SECS as nat * 1_000_000_000
    &&& spec.log_limit_bytes == run::DEFAULT_RUN_LOG_LIMIT
    &&& spec.resources.memory_bytes is None
    &&& spec.resources.cpu_millicores is None
    &&& spec.resources.processes is None
    &&& spec.resources.enforcement == run::Enforcement::Off
    &&& spec.resources.queue_timeout is None
}

fn start_args(args: &Json) -> (r: Result<RunSpec, String>)
    ensures
        match (r, start_error(args.model())) {
            (Ok(spec), None) => starts(spec, args.model()),
            (Err(e), Some(m)) => e@ == m,
            _ => false,
        },
{
    let argv: Vec<String> = match argv_arg(args) {
        Ok(v) => v,
        Err(e) => {
            return Err(e);
        },
    };
    let cwd: &str = match args.str_at("cwd") {
        Some(s) => s,
        None => {
            return Err("cwd is required".to_owned());
        },
    };
    let request_id: &str = match args.str_at("request_id") {
        Some(s) => s,
        None => {
            return Err("request_id is required".to_owned());
        },
    };
    let mut spec: RunSpec = RunSpec::new(request_id, argv, cwd.to_owned());
    if let Some(ms) = args.u64_at("timeout_ms") {
        spec.timeout = Duration::from_millis(if ms >= 1 {
            ms
        } else {
            1
        });
    }
    if let Some(root) = args.str_at("project_root") {
        spec.project_root = Some(root.to_owned());
    }
    if let Some(sid) = args.str_at("session_id") {
        let id: RuntimeSessionId = session_id_of(sid);
        spec.session_id = Some(id);
        spec.session_origin = caller_session(Some(id));
    }
    Ok(spec)
}

/// The stream of a read: standard output unless the other is named.
pub open spec fn stream_of(args: JsonModel) -> Stream {
    if args.text_field("stream"@) == Some("stderr"@) {
        Stream::Stderr
    } else {
        Stream::Stdout
    }
}

/// A call of a tool that reads.
pub open spec fn reads(c: ToolCall, name: Seq<char>, args: JsonModel) -> bool {
    if name == "list_sessions"@ {
        c is ListSessions
    } else if name == "explain"@ {
        c == ToolCall::Explain(server::unsigned_or_zero(args, "pid"@) as u32)
    } else if name == "list_runs"@ {
        c matches ToolCall::ListRuns(f) && f@ == server::filter_of(args)
    } else if name == "get_run"@ {
        server::run_id_of(args) matches Ok(run) && c == (ToolCall::GetRun {
            run,
            after_revision: args.signed_field("after_revision"@),
            wait_ms: server::unsigned_or_zero(args, "wait_ms"@),
        })
    } else if name == "read_run_output"@ {
        server::run_id_of(args) matches Ok(id) && c == (ToolCall::ReadRunOutput {
            id,
            stream: stream_of(args),
            cursor: server::unsigned_or_zero(args, "cursor"@),
            max_bytes: server::chunk_size(args),
        })
    } else {
        name == "get_capacity"@ && c is GetCapacity
    }
}

pub open spec fn is_run_tool(name: Seq<char>) -> bool {
    name == "start_run"@ || name == "cancel_run"@
}

pub open spec fn needs_run_id(name: Seq<char>) -> bool {
    name == "get_run"@ || name == "read_run_output"@ || name == "cancel_run"@
}

pub open spec fn is_tool(name: Seq<char>) -> bool {
    name == "list_sessions"@ || name == "explain"@ || name == "list_runs"@ || name == "get_run"@
        || name == "read_run_output"@ || name == "get_capacity"@ || is_run_tool(name)
}

/// The error that a call is refused with.
pub open spec fn call_error(name: Seq<char>, args: JsonModel, allow_run: bool) -> Option<
    Seq<char>,
> {
    if !is_tool(name) {
        Some("unknown tool "@ + text::quoted_text(name))
    } else if is_run_tool(name) && !allow_run {
        Some(name + " is disabled: restart wyd mcp with --allow-run"@)
    } else if needs_run_id(name) && server::run_id_of(args) is Err {
        Some(server::run_id_of(args)->Err_0)
    } else if name == "start_run"@ {
        start_error(args)
    } else {
        None
    }
}

/// The call that a name and its arguments amount to.
pub open spec fn calls(c: ToolCall, name: Seq<char>, args: JsonModel) -> bool {
    if name == "start_run"@ {
        c matches ToolCall::StartRun(spec) && starts(spec, args)
    } else if name == "cancel_run"@ {
        server::run_id_of(args) matches Ok(id) && c == ToolCall::CancelRun(id)
    } else {
        reads(c, name, args)
    }
}

fn number_at(args: &Json, key: &str) -> (r: u64)
    ensures
        r == server::unsigned_or_zero(args.model(), key@),
{
    match args.u64_at(key) {
        Some(n) => n,
        None => 0,
    }
}

proof fn tool_names()
    ensures
        "start_run"@ != "cancel_run"@,
        "start_run"@ != "get_run"@,
        "start_run"@ != "read_run_output"@,
        "start_run"@ != "list_sessions"@,
        "start_run"@ != "explain"@,
        "start_run"@ != "list_runs"@,
        "start_run"@ != "get_capacity"@,
        "cancel_run"@ != "get_run"@,
        "cancel_run"@ != "read_run_output"@,
        "cancel_run"@ != "list_sessions"@,
        "cancel_run"@ != "explain"@,
        "cancel_run"@ != "list_runs"@,
        "cancel_run"@ != "get_capacity"@,
        "get_run"@ != "list_sessions"@,
        "get_run"@ != "explain"@,
        "get_run"@ != "list_runs"@,
        "get_run"@ != "read_run_output"@,
        "get_run"@ != "get_capacity"@,
        "read_run_output"@ != "list_sessions"@,
        "read_run_output"@ != "explain"@,
        "read_run_output"@ != "list_runs"@,
        "read_run_output"@ != "get_capacity"@,
{
    reveal_strlit("start_run");
    reveal_strlit("cancel_run");
    reveal_strlit("get_run");
    reveal_strlit("read_run_output");
    reveal_strlit("list_sessions");
    reveal_strlit("explain");
    reveal_strlit("list_runs");
    reveal_strlit("get_capacity");
    assert("start_run"@.len() == 9 && "cancel_run"@.len() == 10 && "get_run"@.len() == 7
        && "read_run_output"@.len() == 15 && "list_sessions"@.len() == 13 && "explain"@.len() == 7
        && "list_runs"@.len() == 9 && "get_capacity"@.len() == 12);
    assert("start_run"@[0] == 's' && "list_runs"@[0] == 'l');
    assert("get_run"@[0] == 'g' && "explain"@[0] == 'e');
}

/// Read one call of a tool. The tools that start and stop runs are refused
/// unless they were allowed, whatever the client was shown.
pub fn run_tool(name: &str, args: &Json, allow_run: bool) -> (r: Result<ToolCall, String>)
    ensures
        match (r, call_error(name@, args.model(), allow_run)) {
            (Ok(c), None) => calls(c, name@, args.model()),
            (Err(e), Some(m)) => e@ == m,
            _ => false,
        },
{
    proof {
        tool_names();
    }
    if (same(name, "start_run") || same(name, "cancel_run")) && !allow_run {
        return Err(
            name.to_owned().concat(" is disabled: restart wyd mcp with --allow-run"),
        );
    }
    if same(name, "list_sessions") {
        return Ok(ToolCall::ListSessions);
    }
    if same(name, "explain") {
        return Ok(ToolCall::Explain(number_at(args, "pid") as u32));
    }
    if same(name, "list_runs") {
        return Ok(ToolCall::ListRuns(filter_arg(args)));
    }
    if same(name, "get_capacity") {
        return Ok(ToolCall::GetCapacity);
    }
    if same(name, "start_run") {
        return match start_args(args) {
            Ok(spec) => Ok(ToolCall::StartRun(spec)),
            Err(e) => Err(e),
        };
    }
    if same(name, "get_run") {
        return match run_id_arg(args) {
            Ok(run) => Ok(
                ToolCall::GetRun {
                    run,
                    after_revision: args.i64_at("after_revision"),
                    wait_ms: number_at(args, "wait_ms"),
                },
            ),
            Err(e) => Err(e),
        };
    }
    if same(name, "read_run_output") {
        let stream: Stream = match args.str_at("stream") {
            Some(s) => if same(s, "stderr") {
                Stream::Stderr
            } else {
                Stream::Stdout
            },
            None => Stream::Stdout,
        };
        return match run_id_arg(args) {
            Ok(id) => Ok(
                ToolCall::ReadRunOutput {
                    id,
                    stream,
                    cursor: number_at(args, "cursor"),
                    max_bytes: max_bytes_arg(args),
                },
            ),
            Err(e) => Err(e),
        };
    }
    if same(name, "cancel_run") {
        return match run_id_arg(args) {
            Ok(id) => Ok(ToolCall::CancelRun(id)),
            Err(e) => Err(e),
        };
    }
    Err("unknown tool ".to_owned().concat(quoted(name).as_str()))
}

// ---------------------------------------------------------------------------
// Messages
// ---------------------------------------------------------------------------

/// A reply of JSON-RPC with a result.
pub open spec fn result_reply(id: JsonModel, result: JsonModel) -> JsonModel {
    JsonModel::Object(
        Seq::empty().push(("jsonrpc"@, JsonModel::Text("2.0"@))).push(("id"@, id)).push(
            ("result"@, result),
        ),
    )
}

fn with_result(id: &Json, result: Json) -> (r: Json)
    ensures
        r.model() == result_reply(id.model(), result.model()),
{
    Builder::new().with("jsonrpc", text_value("2.0")).with("id", id.copy()).with(
        "result",
        result,
    ).done()
}

pub open spec fn empty_object() -> JsonModel {
    JsonModel::Object(Seq::empty())
}

/// What the server says of itself. The protocol version is its own, never an
/// echo of what the client asked for: a client that wants a newer one must
/// fall back.
pub open spec fn server_info(version: Seq<char>) -> JsonModel {
    JsonModel::Object(
        Seq::empty().push(("protocolVersion"@, JsonModel::Text("2025-11-25"@))).push(
            ("capabilities"@, JsonModel::Object(Seq::empty().push(("tools"@, empty_object())))),
        ).push(
            (
                "serverInfo"@,
                JsonModel::Object(
                    Seq::empty().push(("name"@, JsonModel::Text("wyd"@))).push(
                        ("version"@, JsonModel::Text(version)),
                    ),
                ),
            ),
        ),
    )
}

fn info(version: &str) -> (r: Json)
    ensures
        r.model() == server_info(version@),
{
    Builder::new().with("protocolVersion", text_value("2025-11-25")).with(
        "capabilities",
        Builder::new().with("tools", Builder::new().done()).done(),
    ).with(
        "serverInfo",
        Builder::new().with("name", text_value("wyd")).with("version", text_value(version)).done(),
    ).done()
}

/// The reply to a method that there is not.
pub open spec fn method_not_found(id: JsonModel) -> JsonModel {
    JsonModel::Object(
        Seq::empty().push(("jsonrpc"@, JsonModel::Text("2.0"@))).push(("id"@, id)).push(
            (
                "error"@,
                JsonModel::Object(
                    Seq::empty().push(("code"@, JsonModel::Negative((-32601int) as i64))).push(
                        ("message"@, JsonModel::Text("Method not found"@)),
                    ),
                ),
            ),
        ),
    )
}

fn not_found(id: &Json) -> (r: Json)
    ensures
        r.model() == method_not_found(id.model()),
{
    Builder::new().with("jsonrpc", text_value("2.0")).with("id", id.copy()).with(
        "error",
        Builder::new().with("code", Json::Negative(-32601)).with(
            "message",
            text_value("Method not found"),
        ).done(),
    ).done()
}

/// What a tool answers: a text, and whether it is an error.
pub open spec fn tool_answer(id: JsonModel, answer: Seq<char>, is_error: bool) -> JsonModel {
    result_reply(
        id,
        JsonModel::Object(
            Seq::empty().push(
                (
                    "content"@,
                    JsonModel::List(
                        Seq::empty().push(
                            JsonModel::Object(
                                Seq::empty().push(("type"@, JsonModel::Text("text"@))).push(
                                    ("text"@, JsonModel::Text(answer)),
                                ),
                            ),
                        ),
                    ),
                ),
            ).push(("isError"@, JsonModel::Bool(is_error))),
        ),
    )
}

fn answer(id: &Json, text: &str, is_error: bool) -> (r: Json)
    ensures
        r.model() == tool_answer(id.model(), text@, is_error),
{
    let entry: Json = Builder::new().with("type", text_value("text")).with(
        "text",
        text_value(text),
    ).done();
    let result: Json = Builder::new().with(
        "content",
        list_value(append(no_values(), entry)),
    ).with("isError", Json::Bool(is_error)).done();
    with_result(id, result)
}

/// The answer of a tool that did its work.
pub fn tool_result(id: &Json, text: &str) -> (r: Json)
    ensures
        r.model() == tool_answer(id.model(), text@, false),
{
    answer(id, text, false)
}

/// The answer of a tool that failed.
pub fn tool_error(id: &Json, msg: &str) -> (r: Json)
    ensures
        r.model() == tool_answer(id.model(), msg@, true),
{
    answer(id, msg, true)
}

/// What a message calls for.
#[derive(Debug)]
pub enum Handled {
    /// Send this.
    Answer(Json),
    /// Run this tool, and answer under this id.
    Call { id: Json, call: ToolCall },
}

pub open spec fn params_of(m: JsonModel) -> JsonModel {
    match m.field("params"@) {
        Some(p) => p,
        None => empty_object(),
    }
}

pub open spec fn arguments_of(m: JsonModel) -> JsonModel {
    match params_of(m).field("arguments"@) {
        Some(a) => a,
        None => empty_object(),
    }
}

/// What a request with an id calls for.
pub open spec fn handles(
    h: Handled,
    m: JsonModel,
    id: JsonModel,
    allow_run: bool,
    version: Seq<char>,
) -> bool {
    let method = server::text_or_empty(m, "method"@);
    let name = server::text_or_empty(params_of(m), "name"@);
    let args = arguments_of(m);
    if method == "initialize"@ {
        h matches Handled::Answer(a) && a.model() == result_reply(id, server_info(version))
    } else if method == "ping"@ {
        h matches Handled::Answer(a) && a.model() == result_reply(id, empty_object())
    } else if method == "tools/list"@ {
        h matches Handled::Answer(a) && a.model() == result_reply(
            id,
            JsonModel::Object(
                Seq::empty().push(("tools"@, JsonModel::List(tool_models(allow_run)))),
            ),
        )
    } else if method == "tools/call"@ {
        match call_error(name, args, allow_run) {
            Some(e) => h matches Handled::Answer(a) && a.model() == tool_answer(id, e, true),
            None => h matches Handled::Call { id: i, call } && i.model() == id && calls(
                call,
                name,
                args,
            ),
        }
    } else {
        h matches Handled::Answer(a) && a.model() == method_not_found(id)
    }
}

fn call_tool(id: &Json, msg: &Json, allow_run: bool) -> (r: Handled)
    ensures
        ({
            let name = server::text_or_empty(params_of(msg.model()), "name"@);
            let args = arguments_of(msg.model());
            match call_error(name, args, allow_run) {
                Some(e) => r matches Handled::Answer(a) && a.model() == tool_answer(
                    id.model(),
                    e,
                    true,
                ),
                None => r matches Handled::Call { id: i, call } && i.model() == id.model()
                    && calls(call, name, args),
            }
        }),
{
    let empty: Json = Builder::new().done();
    let params: &Json = match msg.get("params") {
        Some(p) => p,
        None => &empty,
    };
    let name: String = match params.str_at("name") {
        Some(s) => s.to_owned(),
        None => String::new(),
    };
    assert(params.model().text_field("name"@) is None ==> name@ =~= Seq::<char>::empty());
    let args: &Json = match params.get("arguments") {
        Some(a) => a,
        None => &empty,
    };
    match run_tool(name.as_str(), args, allow_run) {
        Ok(call) => Handled::Call { id: id.copy(), call },
        Err(e) => Handled::Answer(tool_error(id, e.as_str())),
    }
}

/// Process one message. A notification has no id and is never answered.
pub fn handle(msg: &Json, allow_run: bool, version: &str) -> (r: Option<Handled>)
    ensures
        match msg.model().field("id"@) {
            None => r is None,
            Some(id) => r matches Some(h) && handles(h, msg.model(), id, allow_run, version@),
        },
{
    let id: &Json = match msg.get("id") {
        Some(v) => v,
        None => {
            return None;
        },
    };
    let method: String = match msg.str_at("method") {
        Some(s) => s.to_owned(),
        None => String::new(),
    };
    assert(msg.model().text_field("method"@) is None ==> method@ =~= Seq::<char>::empty());
    proof {
        reveal_strlit("initialize");
        reveal_strlit("ping");
        reveal_strlit("tools/list");
        reveal_strlit("tools/call");
    }
    let m: &str = method.as_str();
    if same(m, "initialize") {
        Some(Handled::Answer(with_result(id, info(version))))
    } else if same(m, "ping") {
        Some(Handled::Answer(with_result(id, Builder::new().done())))
    } else if same(m, "tools/list") {
        Some(
            Handled::Answer(
                with_result(
                    id,
                    Builder::new().with("tools", list_value(tools(allow_run))).done(),
                ),
            ),
        )
    } else if same(m, "tools/call") {
        Some(call_tool(id, msg, allow_run))
    } else {
        Some(Handled::Answer(not_found(id)))
    }
}

/// Process one line. A line that is no JSON is ignored.
pub fn handle_line(line: &str, allow_run: bool, version: &str) -> (r: Option<Handled>)
    ensures
        match json::read_json(line@) {
            Err(_) => r is None,
            Ok(m) => match m.field("id"@) {
                None => r is None,
                Some(id) => r matches Some(h) && handles(h, m, id, allow_run, version@),
            },
        },
{
    match json::parse(line) {
        Ok(j) => handle(&j, allow_run, version),
        Err(_) => None,
    }
}

// ---------------------------------------------------------------------------
// Laws
// ---------------------------------------------------------------------------

/// Without leave, nothing is started or stopped: such a call never comes out
/// as one to perform.
pub proof fn nothing_runs_without_leave(
    h: Handled,
    m: JsonModel,
    id: JsonModel,
    version: Seq<char>,
)
    requires
        handles(h, m, id, false, version),
    ensures
        !(h matches Handled::Call { id: _, call } && (call is StartRun || call is CancelRun)),
{
    tool_names();
}

/// Without leave, the tools that start and stop runs are not even listed.
pub proof fn run_tools_are_listed_with_leave_only()
    ensures
        tool_models(false) == read_tools(),
        tool_models(true).len() == tool_models(false).len() + 2,
        tool_models(true).take(tool_models(false).len() as int) == tool_models(false),
{
    assert(tool_models(true).take(tool_models(false).len() as int) =~= tool_models(false));
}

/// The protocol version is pinned: two clients that ask for different ones are
/// answered alike.
pub proof fn version_is_pinned(
    a: Handled,
    b: Handled,
    m: JsonModel,
    n: JsonModel,
    id: JsonModel,
    allow_a: bool,
    allow_b: bool,
    version: Seq<char>,
)
    requires
        handles(a, m, id, allow_a, version),
        handles(b, n, id, allow_b, version),
        m.text_field("method"@) == Some("initialize"@),
        n.text_field("method"@) == Some("initialize"@),
    ensures
        a is Answer,
        b is Answer,
        a->Answer_0.model() == b->Answer_0.model(),
{
}

/// A start has the command, directory and key that were asked for; a session
/// that is named is taken on the caller's word, a timeout is counted in
/// milliseconds, and no limits are set.
pub proof fn a_start_has_what_was_asked_for(spec: RunSpec, args: JsonModel, ms: u64)
    requires
        starts(spec, args),
    ensures
        args.text_field("request_id"@) == Some(spec.request_id@),
        args.text_field("cwd"@) == Some(spec.cwd@),
        argv_of(args) is Ok && argv_of(args)->Ok_0 == text::texts(spec.argv@),
        text::text_of(spec.project_root) == args.text_field("project_root"@),
        args.text_field("session_id"@) is Some <==> spec.session_id is Some,
        spec.session_id is Some ==> spec.session_origin == SessionOrigin::CallerReported,
        spec.session_id is None ==> spec.session_origin == SessionOrigin::Unlinked,
        args.unsigned_field("timeout_ms"@) == Some(ms) && ms > 0 ==> spec.timeout@ == ms as nat
            * 1_000_000,
        args.unsigned_field("timeout_ms"@) == Some(0u64) ==> spec.timeout@ == 1_000_000,
        spec.resources.memory_bytes is None,
        spec.resources.cpu_millicores is None,
        spec.resources.processes is None,
        spec.resources.enforcement == run::Enforcement::Off,
{
}

/// A start without a command, a directory or a key is refused.
pub proof fn a_start_needs_command_directory_and_key(args: JsonModel)
    ensures
        start_error(args) is None <==> argv_of(args) is Ok && args.text_field("cwd"@) is Some
            && args.text_field("request_id"@) is Some,
        args.field("argv"@) is None ==> start_error(args) == Some("argv is required"@),
        argv_of(args) is Ok && args.text_field("cwd"@) is None ==> start_error(args) == Some(
            "cwd is required"@,
        ),
        argv_of(args) is Ok && args.text_field("cwd"@) is Some && args.text_field("request_id"@)
            is None ==> start_error(args) == Some("request_id is required"@),
{
}

/// Each tool does what its name says, with the arguments it was given.
pub proof fn a_tool_does_what_its_name_says(c: ToolCall, name: Seq<char>, args: JsonModel, n: RunId)
    requires
        calls(c, name, args),
    ensures
        name == "start_run"@ <==> c is StartRun,
        name == "cancel_run"@ <==> c is CancelRun,
        name == "list_sessions"@ <==> c is ListSessions,
        name == "explain"@ <==> c is Explain,
        name == "list_runs"@ <==> c is ListRuns,
        name == "get_run"@ <==> c is GetRun,
        name == "read_run_output"@ <==> c is ReadRunOutput,
        name == "get_capacity"@ <==> c is GetCapacity,
        c is CancelRun && server::run_id_of(args) == Ok::<RunId, Seq<char>>(n)
            ==> c == ToolCall::CancelRun(n),
        c is GetRun && server::run_id_of(args) == Ok::<RunId, Seq<char>>(n) ==> c->run == n,
        c is ReadRunOutput && server::run_id_of(args) == Ok::<RunId, Seq<char>>(n) ==> c->id == n,
        c is ReadRunOutput && args.text_field("stream"@) == Some("stderr"@) ==> c->stream
            == Stream::Stderr,
        c is ReadRunOutput && args.text_field("stream"@) != Some("stderr"@) ==> c->stream
            == Stream::Stdout,
        c is Explain && args.unsigned_field("pid"@) is Some ==> c == ToolCall::Explain(
            args.unsigned_field("pid"@)->0 as u32,
        ),
{
    tool_names();
    reveal_strlit("list_sessions");
    reveal_strlit("explain");
    reveal_strlit("list_runs");
    reveal_strlit("get_run");
    reveal_strlit("read_run_output");
    reveal_strlit("get_capacity");
    reveal_strlit("start_run");
    reveal_strlit("cancel_run");
    assert("list_sessions"@.len() == 13 && "explain"@.len() == 7 && "list_runs"@.len() == 9
        && "get_run"@.len() == 7 && "read_run_output"@.len() == 15 && "get_capacity"@.len() == 12
        && "start_run"@.len() == 9 && "cancel_run"@.len() == 10);
    assert("explain"@[0] == 'e' && "get_run"@[0] == 'g' && "list_runs"@[0] == 'l' && "start_run"@[0]
        == 's');
}

/// A call is refused for a tool that there is not, for one that needs leave
/// without it, for a missing run, and for a start that lacks something; and
/// for nothing else.
pub proof fn calls_are_refused_in_this_order(name: Seq<char>, args: JsonModel, allow_run: bool)
    ensures
        name != "list_sessions"@ && name != "explain"@ && name != "list_runs"@ && name
            != "get_run"@ && name != "read_run_output"@ && name != "get_capacity"@ && name
            != "start_run"@ && name != "cancel_run"@ ==> call_error(name, args, allow_run) == Some(
            "unknown tool "@ + text::quoted_text(name),
        ),
        (name == "start_run"@ || name == "cancel_run"@) && !allow_run ==> call_error(
            name,
            args,
            allow_run,
        ) == Some(name + " is disabled: restart wyd mcp with --allow-run"@),
        name == "get_run"@ || name == "read_run_output"@ || (name == "cancel_run"@ && allow_run)
            ==> (call_error(name, args, allow_run) is None <==> server::run_id_of(args) is Ok),
        name == "start_run"@ && allow_run ==> call_error(name, args, allow_run) == start_error(
            args,
        ),
        name == "list_sessions"@ || name == "explain"@ || name == "list_runs"@ || name
            == "get_capacity"@ ==> call_error(name, args, allow_run) is None,
{
    tool_names();
}

/// Every request is answered under its own id, as the protocol has it.
pub proof fn a_request_is_answered_under_its_id(
    h: Handled,
    m: JsonModel,
    id: JsonModel,
    allow_run: bool,
    version: Seq<char>,
)
    requires
        handles(h, m, id, allow_run, version),
    ensures
        h is Answer ==> h->Answer_0.model().field("id"@) == Some(id)
            && h->Answer_0.model().text_field("jsonrpc"@) == Some("2.0"@),
        h is Call ==> h->id.model() == id,
        h is Call ==> m.text_field("method"@) == Some("tools/call"@),
{
    reveal_strlit("jsonrpc");
    reveal_strlit("id");
    reveal_strlit("result");
    reveal_strlit("error");
    reveal_strlit("tools/call");
    assert("jsonrpc"@.len() == 7 && "id"@.len() == 2 && "result"@.len() == 6 && "error"@.len()
        == 5);
    assert("tools/call"@.len() == 10);
    assert(h is Call ==> server::text_or_empty(m, "method"@) == "tools/call"@);
    if h is Answer {
        let v = h->Answer_0.model();
        assert(v->Object_0[0].0 == "jsonrpc"@ && v->Object_0[1] == ("id"@, id));
        assert(v->Object_0[0].1 == JsonModel::Text("2.0"@));
        answered_as_written(v->Object_0, id);
    }
}

proof fn answered_as_written(ms: Seq<(Seq<char>, JsonModel)>, id: JsonModel)
    requires
        ms.len() == 3,
        ms[0] == ("jsonrpc"@, JsonModel::Text("2.0"@)),
        ms[1] == ("id"@, id),
        ms[2].0 != "id"@,
        ms[2].0 != "jsonrpc"@,
    ensures
        JsonModel::Object(ms).field("id"@) == Some(id),
        JsonModel::Object(ms).text_field("jsonrpc"@) == Some("2.0"@),
{
    reveal_strlit("jsonrpc");
    reveal_strlit("id");
    assert("jsonrpc"@.len() == 7 && "id"@.len() == 2);
    reveal_with_fuel(json::first_member, 4);
}

} // verus!

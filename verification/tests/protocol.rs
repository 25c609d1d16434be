use std::collections::HashMap;
use wyd::classify::group::group;
use wyd::classify::ownership::derive_ownership;
use wyd::json::{parse, Json};
use wyd::mcp::{handle, handle_line, run_tool, tools, Handled, ToolCall};
use wyd::model::boot::BootId;
use wyd::model::process::{ProcessIdentity, ProcessInfo};
use wyd::model::run::RunId;
use wyd::model::session::SessionRecord;
use wyd::replies::{sessions_json, wrap};
use wyd::runner::client::{
    handshake, read_reply, request_body, run_of, wait_for_finish, Client, Wait,
};
use wyd::runner::logs::Stream;
use wyd::runner::scheduler::Limits;
use wyd::server::{
    dispatch, err_json, exits_idle, locate, ok_json, refuses_client, request, run_not_found,
    session_state, set_limits, socket_path, Located, Request, DEFAULT_CHUNK, MAX_CHUNK,
};
use wyd::written::line_of;

const PROTOCOL_VERSION: &str = "2025-11-25";

fn read(line: &str) -> Json {
    parse(line).unwrap()
}

fn member<'a>(v: &'a Json, path: &[&str]) -> &'a Json {
    let mut v = v;
    for key in path {
        v = v.get(key).unwrap();
    }
    v
}

#[test]
fn json_is_read_whole() {
    let v = read("{\"a\": [1, -2, true, null, \"x\\n\"], \"b\": 1.5, \"n\": 18446744073709551615}");
    match v.get("a").unwrap() {
        Json::List(l) => {
            assert_eq!(l[0].as_u64(), Some(1));
            assert_eq!(l[0].as_i64(), Some(1));
            assert_eq!(l[1].as_i64(), Some(-2));
            assert_eq!(l[1].as_u64(), None);
            assert_eq!(l[2].as_bool(), Some(true));
            assert_eq!(l[3], Json::Null);
            assert_eq!(l[4].as_str(), Some("x\n"));
        },
        other => panic!("a list was written: {other:?}"),
    }
    assert_eq!(v.get("b").unwrap(), &Json::Decimal("1.5".into()));
    assert_eq!(v.u64_at("n"), Some(u64::MAX));
    assert!(v.get("c").is_none());
    assert!(parse("{").is_err());
    assert!(parse("").is_err());
}

#[test]
fn dispatch_rejects_unknown_command() {
    let reply = dispatch("{\"cmd\":\"rm -rf /\"}");
    let v = err_json(&reply.err().unwrap());
    assert_eq!(v.bool_at("ok"), Some(false));
}

fn proc(pid: u32, ppid: Option<u32>, name: &str, cmd: &[&str], start: u64) -> ProcessInfo {
    ProcessInfo {
        pid,
        parent_pid: ppid,
        name: name.into(),
        executable: None,
        command: cmd.iter().map(|s| s.to_string()).collect(),
        cwd: None,
        start_time: start,
        memory_bytes: 0,
        tty: None,
    }
}

#[test]
fn dispatch_lists_sessions() {
    let procs = vec![
        proc(1, None, "launchd", &["launchd"], 1),
        proc(100, Some(1), "omp", &["omp"], 1000),
    ];
    let boot = BootId::from_u128(7);
    let items = group(&procs, &Vec::new());
    let ids: HashMap<u32, ProcessIdentity> = procs
        .iter()
        .filter_map(|p| ProcessIdentity::from_process(&boot, p).map(|id| (p.pid, id)))
        .collect();
    let out = derive_ownership(&items, &ids, 2000);
    let stored: Vec<SessionRecord> = out.sessions.iter().map(|s| s.record()).collect();

    let reply = match dispatch("{\"cmd\":\"list_sessions\"}") {
        Ok(Request::ListSessions) => ok_json(wrap("sessions", sessions_json(&stored, true))),
        other => panic!("sessions were asked for: {other:?}"),
    };
    let v = parse(&line_of(&reply)).unwrap();
    assert_eq!(v.bool_at("ok"), Some(true));
    match member(&v, &["data", "sessions"]) {
        Json::List(l) => assert_eq!(l[0].str_at("agent"), Some("omp")),
        other => panic!("sessions are a list: {other:?}"),
    }
    assert!(dispatch("not json").is_err());
}

#[test]
fn requests_are_read_with_their_arguments() {
    match dispatch("{\"cmd\":\"get_run\",\"run_id\":\"7\",\"after_revision\":3,\"wait_ms\":250}") {
        Ok(Request::GetRun { run, after_revision, wait_ms }) => {
            assert_eq!(run, RunId(7));
            assert_eq!(after_revision, Some(3));
            assert_eq!(wait_ms, 250);
        },
        other => panic!("a run was asked for: {other:?}"),
    }
    assert!(dispatch("{\"cmd\":\"get_run\"}").is_err());
    assert!(matches!(dispatch("{\"cmd\":\"explain\",\"pid\":12}"), Ok(Request::Explain(12))));
    assert!(matches!(dispatch("{\"cmd\":\"ping\"}"), Ok(Request::Ping)));
}

#[test]
fn a_client_and_a_server_understand_each_other() {
    match request(&Client::get(RunId(9), Some(4), 100)) {
        Ok(Request::GetRun { run, after_revision, wait_ms }) => {
            assert_eq!((run, after_revision, wait_ms), (RunId(9), Some(4), 100));
        },
        other => panic!("a run was asked for: {other:?}"),
    }
    match request(&Client::output(RunId(9), Stream::Stderr, 5, 1000)) {
        Ok(Request::ReadRunOutput { id, stream, cursor, max_bytes }) => {
            assert_eq!((id, stream, cursor, max_bytes), (RunId(9), Stream::Stderr, 5, 1000));
        },
        other => panic!("output was asked for: {other:?}"),
    }
    match request(&Client::output(RunId(9), Stream::Stdout, 0, 1 << 30)) {
        Ok(Request::ReadRunOutput { max_bytes, .. }) => {
            assert_eq!(max_bytes as u64, MAX_CHUNK);
        },
        other => panic!("output was asked for: {other:?}"),
    }
    assert!(DEFAULT_CHUNK < MAX_CHUNK);
    assert!(matches!(request(&Client::cancel(RunId(9))), Ok(Request::CancelRun(RunId(9)))));
    let start = Client::start(read("{\"argv\":[\"true\"]}"), &Vec::new());
    assert!(matches!(request(&start), Ok(Request::StartRun { .. })));
    assert!(matches!(request(&request_body("get_capacity", Json::Null)), Ok(Request::GetCapacity)));
}

#[test]
fn replies_carry_data_or_an_error() {
    let data = read_reply("{\"ok\":true,\"data\":{\"run\":{\"run_id\":\"3\"}}}\n").unwrap();
    assert_eq!(run_of(&data).unwrap().str_at("run_id"), Some("3"));
    assert_eq!(
        read_reply("{\"ok\":false,\"error\":\"run 3 not found\"}").err().as_deref(),
        Some("run 3 not found")
    );
    assert!(read_reply("{").is_err());
    assert!(handshake("{\"ok\":true,\"data\":{}}"));
    assert!(!handshake("{\"ok\":false}"));
    assert_eq!(run_not_found(RunId(3)), "run 3 not found");
    assert!(matches!(wait_for_finish(RunId(3), None), Err(e) if e.contains("3")));
    let runs = wyd::demo::runs::runs(1_750_000_000, wyd::model::run::Platform::Linux, false);
    for view in runs {
        let finished = view.state.is_terminal();
        match wait_for_finish(RunId(1), Some(view)) {
            Ok(Wait::Done(_)) => assert!(finished),
            Ok(Wait::Again(_)) => assert!(!finished),
            Err(e) => panic!("{e}"),
        }
    }
}

#[test]
fn limits_change_one_by_one() {
    let current = Limits::default().summary();
    let same = set_limits(&current, &read("{}"));
    assert_eq!(same, Limits::default());
    let more = set_limits(&current, &read("{\"max_parallel\": 9, \"max_queued\": 0}"));
    assert_eq!(more.max_parallel, 9);
    assert_eq!(more.max_queued, 0);
    assert_eq!(more.max_parallel_per_project, same.max_parallel_per_project);
    assert_eq!(set_limits(&current, &read("{\"max_parallel\": 0}")).max_parallel, 1);
}

#[test]
fn the_server_keeps_itself_small() {
    assert!(!refuses_client(63));
    assert!(refuses_client(64));
    assert!(!exits_idle(0, 299, 0));
    assert!(exits_idle(0, 300, 0));
    assert!(!exits_idle(1, 3000, 0));
    assert_eq!(socket_path("/home/me/.local/share/wyd/runtime.db"), "/home/me/.local/share/wyd/wyd.sock");
    assert_eq!(session_state(None), "active");
    assert_eq!(session_state(Some(5)), "ended");
}

#[test]
fn a_process_is_located_with_its_identity() {
    let p = ProcessInfo {
        pid: 7,
        parent_pid: None,
        name: "node".into(),
        command: vec![],
        executable: None,
        cwd: None,
        memory_bytes: 0,
        start_time: 12,
        tty: None,
    };
    let mut unknown = p.clone();
    unknown.pid = 8;
    unknown.start_time = 0;
    let boot = BootId::from_u128(1);
    let all = vec![p, unknown];
    match locate(7, &all, &boot) {
        Located::Found { label, identity } => {
            assert_eq!(label, "node");
            assert_eq!((identity.pid, identity.start_time), (7, 12));
        },
        other => panic!("the process is there: {other:?}"),
    }
    assert!(matches!(locate(8, &all, &boot), Located::NoIdentity));
    assert!(matches!(locate(9, &all, &boot), Located::NotRunning));
}

fn handle_msg(line: &str) -> Option<Json> {
    match handle(&read(line), false, "0.5.0") {
        Some(Handled::Answer(v)) => Some(v),
        Some(Handled::Call { .. }) => panic!("no tool was called"),
        None => None,
    }
}

#[test]
fn initialize_returns_capabilities() {
    let v = handle_msg(
        "{\"jsonrpc\":\"2.0\",\"id\":1,\"method\":\"initialize\",\"params\":{\"protocolVersion\":\"2025-11-25\"}}",
    )
    .unwrap();
    assert_eq!(v.u64_at("id"), Some(1));
    assert_eq!(member(&v, &["result", "protocolVersion"]).as_str(), Some(PROTOCOL_VERSION));
    assert_eq!(member(&v, &["result", "serverInfo", "name"]).as_str(), Some("wyd"));
}

#[test]
fn tools_list_lists_tools() {
    let v = handle_msg("{\"jsonrpc\":\"2.0\",\"id\":2,\"method\":\"tools/list\"}").unwrap();
    let names: Vec<&str> = match member(&v, &["result", "tools"]) {
        Json::List(l) => l.iter().filter_map(|t| t.str_at("name")).collect(),
        other => panic!("tools are a list: {other:?}"),
    };
    assert!(names.contains(&"list_sessions"));
    assert!(names.contains(&"explain"));
    assert!(names.contains(&"get_capacity"));
    assert!(!names.contains(&"start_run"));
    assert!(tools(true).iter().any(|t| t.str_at("name") == Some("start_run")));
}

#[test]
fn notifications_get_no_response() {
    assert!(handle_msg("{\"jsonrpc\":\"2.0\",\"method\":\"notifications/initialized\"}").is_none());
    assert!(handle_msg("{\"jsonrpc\":\"2.0\",\"method\":\"prompts/list\"}").is_none());
}

#[test]
fn unknown_request_method_gets_json_rpc_error() {
    let v = handle_msg("{\"jsonrpc\":\"2.0\",\"id\":3,\"method\":\"prompts/list\"}").unwrap();
    assert_eq!(member(&v, &["error", "code"]).as_i64(), Some(-32601), "Method not found");
}

#[test]
fn initialize_pins_version_not_echoes() {
    let v = handle_msg(
        "{\"jsonrpc\":\"2.0\",\"id\":1,\"method\":\"initialize\",\"params\":{\"protocolVersion\":\"2099-01-01\"}}",
    )
    .unwrap();
    assert_eq!(member(&v, &["result", "protocolVersion"]).as_str(), Some(PROTOCOL_VERSION));
}

#[test]
fn running_needs_leave() {
    let args = read("{\"request_id\":\"k\",\"argv\":[\"true\"],\"cwd\":\"/tmp\"}");
    assert!(run_tool("start_run", &args, false).is_err());
    match run_tool("start_run", &args, true) {
        Ok(ToolCall::StartRun(spec)) => {
            assert_eq!(spec.argv, ["true".to_string()]);
            assert_eq!(spec.cwd, "/tmp");
        },
        other => panic!("a run was asked for: {other:?}"),
    }
    assert!(run_tool("no_such_tool", &args, true).is_err());
    match run_tool("explain", &read("{\"pid\": 5}"), false) {
        Ok(ToolCall::Explain(5)) => {},
        other => panic!("an explanation was asked for: {other:?}"),
    }
}

#[test]
fn a_broken_line_is_answered_with_a_parse_error_or_nothing() {
    match handle_line("{", false, "0.5.0") {
        None => {},
        Some(Handled::Answer(v)) => {
            assert_eq!(member(&v, &["error", "code"]).as_i64(), Some(-32700));
        },
        Some(other) => panic!("no tool was called: {other:?}"),
    }
    match handle_line(
        "{\"jsonrpc\":\"2.0\",\"id\":4,\"method\":\"tools/call\",\"params\":{\"name\":\"list_sessions\"}}",
        false,
        "0.5.0",
    ) {
        Some(Handled::Call { id, call }) => {
            assert_eq!(id.as_u64(), Some(4));
            assert!(matches!(call, ToolCall::ListSessions));
        },
        other => panic!("a tool was called: {other:?}"),
    }
}

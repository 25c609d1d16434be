use wyd::json::{parse, Json, Member};
use wyd::mcp::run_tool;
use wyd::model::boot::BootId;
use wyd::model::docker::{DockerKind, DockerResource, DockerSnapshot};
use wyd::model::process::{ProcessIdentity, ProcessInfo};
use wyd::model::run::RunId;
use wyd::model::session::{RuntimeSessionId, SessionRecord};
use wyd::platform::cgroup::{Cgroup, CgroupLimits, CgroupRoot};
use wyd::replies::{
    chunk_json, explain_json, pong, session_ended, session_json, session_started, sessions_json,
    started_json, wrap, Ownership,
};
use wyd::runner::client::{read_reply, Client};
use wyd::runner::logs::{LogChunk, Stream};
use wyd::server::{dispatch, env_of, err_json, ok_json, Located, Request};
use wyd::source::{SourceKind, SourceReport};
use wyd::why::{owner_lines, root_line, source_lines, unexplained, CandidateRecord, DecisionRecord};
use wyd::written::{compact, line_of, pairs_of, pretty, texts_of};

fn text(s: &str) -> Json {
    Json::Text(s.to_string())
}

fn member(key: &str, value: Json) -> Member {
    Member { key: key.to_string(), value }
}

fn sample() -> Json {
    Json::Object(vec![
        member("b", Json::List(vec![Json::Unsigned(1), Json::Negative(-2), Json::Null])),
        member("a", Json::Object(vec![member("text", text("x\n\"y\"")), member("on", Json::Bool(true))])),
    ])
}

#[test]
fn members_are_written_by_key() {
    assert_eq!(compact(&sample()), "{\"a\":{\"on\":true,\"text\":\"x\\n\\\"y\\\"\"},\"b\":[1,-2,null]}");
    assert_eq!(
        compact(&Json::Object(vec![member("k", Json::Unsigned(1)), member("k", Json::Unsigned(2))])),
        "{\"k\":2}"
    );
    assert_eq!(compact(&Json::Decimal("1.5".into())), "1.5");
    assert_eq!(compact(&text("")), "\"\"");
}

#[test]
fn what_is_written_reads_back() {
    let back = parse(&compact(&sample())).unwrap();
    assert_eq!(back.get("a").unwrap().str_at("text"), Some("x\n\"y\""));
    assert_eq!(back.get("a").unwrap().bool_at("on"), Some(true));
    match back.get("b").unwrap() {
        Json::List(l) => assert_eq!(l, &vec![Json::Unsigned(1), Json::Negative(-2), Json::Null]),
        other => panic!("a list was written: {other:?}"),
    }
    assert_eq!(parse(&pretty(&sample())).unwrap(), back);
    assert_eq!(pretty(&Json::List(vec![Json::Unsigned(1)])), "[\n  1\n]");
}

#[test]
fn a_line_ends_in_one_newline() {
    let line = line_of(&sample());
    assert!(line.ends_with("}\n"));
    assert_eq!(line.matches('\n').count(), 1);
    assert_eq!(line.trim(), compact(&sample()));
}

#[test]
fn requests_and_replies_cross_the_wire() {
    match dispatch(&line_of(&Client::get(RunId(9), Some(4), 100))) {
        Ok(Request::GetRun { run, after_revision, wait_ms }) => {
            assert_eq!((run, after_revision, wait_ms), (RunId(9), Some(4), 100));
        },
        other => panic!("a run was asked for: {other:?}"),
    }
    match dispatch(&line_of(&Client::output(RunId(9), Stream::Stderr, 5, 1000))) {
        Ok(Request::ReadRunOutput { id, stream, cursor, max_bytes }) => {
            assert_eq!((id, stream, cursor, max_bytes), (RunId(9), Stream::Stderr, 5, 1000));
        },
        other => panic!("output was asked for: {other:?}"),
    }
    assert!(matches!(dispatch(&line_of(&Client::cancel(RunId(2)))), Ok(Request::CancelRun(RunId(2)))));
    let data = read_reply(&line_of(&ok_json(pong("0.5.0", "4242")))).unwrap();
    assert_eq!(data.str_at("version"), Some("0.5.0"));
    let failed = read_reply(&line_of(&err_json("run 3 not found")));
    assert_eq!(failed.err().as_deref(), Some("run 3 not found"));
}

fn session(ended_at: Option<u64>) -> SessionRecord {
    SessionRecord {
        id: RuntimeSessionId::from_u64(0xabc),
        agent: "aider".into(),
        project: Some("/src/shop".into()),
        started_at: 1000,
        last_seen_at: 2000,
        ended_at,
    }
}

#[test]
fn sessions_are_answered_in_full_or_in_brief() {
    let one = session_json(&session(Some(3000)));
    assert_eq!(one.str_at("id"), Some("0000000000000abc"));
    assert_eq!(one.str_at("agent"), Some("aider"));
    assert_eq!(one.u64_at("ended_at"), Some(3000));
    assert_eq!(session_json(&session(None)).get("ended_at"), Some(&Json::Null));
    let list = vec![session(None), session(Some(3000))];
    for full in [true, false] {
        match sessions_json(&list, full) {
            Json::List(l) => {
                assert_eq!(l.len(), 2);
                assert_eq!(l[0].str_at("agent"), Some("aider"));
                assert_eq!(l[0].get("last_seen_at").is_some(), full);
            },
            other => panic!("a list is owed: {other:?}"),
        }
    }
    assert_eq!(session_started(RuntimeSessionId::from_u64(1), "omp").str_at("agent"), Some("omp"));
    assert_eq!(compact(&session_ended(None)), compact(&session_ended(None)));
    assert_ne!(compact(&session_ended(None)), compact(&session_ended(Some(RuntimeSessionId::from_u64(1)))));
}

#[test]
fn chunks_and_runs_are_wrapped() {
    let c = LogChunk { data: "hi".into(), next_cursor: 2, truncated: false, eof: true };
    let j = chunk_json(Stream::Stderr, &c);
    assert_eq!(j.str_at("stream"), Some("stderr"));
    assert_eq!(j.str_at("data"), Some("hi"));
    assert_eq!(j.u64_at("next_cursor"), Some(2));
    assert_eq!((j.bool_at("truncated"), j.bool_at("eof")), (Some(false), Some(true)));
    let started = started_json(text("r"), true);
    assert_eq!(started.str_at("run"), Some("r"));
    assert_eq!(started.bool_at("created"), Some(true));
    assert_eq!(compact(&wrap("run", Json::Unsigned(3))), "{\"run\":3}");
}

#[test]
fn only_a_known_process_is_attributed() {
    let owner = Some(Ownership { session: session(None), owner: RuntimeSessionId::from_u64(7) });
    let found = Located::Found {
        label: "node".into(),
        identity: ProcessIdentity { boot_id: BootId::from_u128(1), pid: 5, start_time: 9 },
    };
    let known = explain_json(5, &found, &owner);
    assert_eq!(known.str_at("name"), Some("node"));
    assert_eq!(known.get("origin_session").unwrap().str_at("agent"), Some("aider"));
    assert_eq!(known.str_at("owner_session_id"), Some("0000000000000007"));
    let unknown = explain_json(5, &Located::NoIdentity, &owner);
    assert_eq!(unknown.get("origin_session"), Some(&Json::Null));
    assert_eq!(unknown.str_at("note"), Some("no stable identity"));
    let gone = explain_json(5, &Located::NotRunning, &None);
    assert_eq!(gone.str_at("note"), Some("not running"));
}

fn candidate(total: u8, rejected: bool) -> CandidateRecord {
    CandidateRecord {
        session: "0000000000000abc".into(),
        anchor_kind: "descendant".into(),
        anchor_score: 60,
        project_support: 15,
        temporal_support: 0,
        relationship_support: 5,
        total,
        rejected,
        evidence: vec![("ancestor".into(), "pid 7".into())],
    }
}

#[test]
fn a_decision_is_told_line_by_line() {
    let d = DecisionRecord {
        verdict: "owned".into(),
        resolver_version: 1,
        winner: Some("0000000000000abc".into()),
        candidates: vec![candidate(80, false), candidate(10, true)],
    };
    assert_eq!(
        owner_lines(&session(None), &Some(d)),
        vec![
            "origin session: aider 0000000000000abc",
            "project:        /src/shop",
            "session:        active (since 1000)",
            "attribution:    owned (resolver v1)",
            "winner:         session 0000000000000abc",
            "  candidate 0000000000000abc: anchor descendant 60 +15 +5 = 80",
            "    evidence: ancestor (pid 7)",
        ]
    );
    assert_eq!(owner_lines(&session(Some(9)), &None)[2], "session:        ended at 9");
    assert_eq!(root_line(&session(None)), "session root of: aider 0000000000000abc (active since 1000)");
}

fn process(pid: u32, name: &str) -> ProcessInfo {
    ProcessInfo {
        pid,
        parent_pid: None,
        name: name.into(),
        command: vec![name.into()],
        executable: None,
        cwd: None,
        memory_bytes: 0,
        start_time: 1,
        tty: None,
    }
}

#[test]
fn an_unowned_process_is_traced_to_its_source() {
    let (init, shell, target) = (process(1, "systemd"), process(20, "bash"), process(30, "node"));
    let report = SourceReport { chain: vec![&init, &shell], source: SourceKind::Tmux };
    let lines = source_lines(&report, &target);
    assert_eq!(lines[0], "no recorded owner");
    assert_eq!(lines[1], format!("source:   {}", SourceKind::Tmux.label()));
    assert!(lines[2].starts_with("ancestry: systemd"));
    assert!(lines[2].contains(" → bash"));
    assert!(lines[2].contains(" → node"));
    assert!(unexplained(5, &Located::NotRunning).is_some());
    assert!(unexplained(5, &Located::NoIdentity).is_some());
}

#[test]
fn a_cleared_cap_is_written_as_max() {
    let cg = CgroupRoot::create_leaf("/sys/fs/cgroup", "wyd");
    let caps = CgroupLimits { memory_max_bytes: Some(1024), cpu_max: Some((20_000, 100_000)), ..CgroupLimits::default() };
    let writes: Vec<(String, String)> =
        cg.set_aggregate_caps(&caps).into_iter().map(|w| (w.path, w.value)).collect();
    let value = |file: &str| {
        let path = format!("/sys/fs/cgroup/wyd/{file}");
        writes.iter().find(|w| w.0 == path).map(|w| w.1.clone()).unwrap()
    };
    assert_eq!(value("memory.max"), "1024");
    assert_eq!(value("cpu.max"), "20000 100000");
    assert_eq!(value("pids.max"), "max");
    assert_eq!(Cgroup::pids_max(&value("pids.max")), None);
    assert_eq!(Cgroup::memory_max(&value("memory.max")), Some(1024));
}

#[test]
fn named_volumes_are_never_pruned() {
    let volume = |id: &str, anonymous: bool, detail: &str| DockerResource {
        kind: DockerKind::Volume,
        id: id.into(),
        name: id.into(),
        detail: detail.into(),
        size_bytes: 5,
        compose: None,
        persistent: false,
        anonymous,
        created: 0,
    };
    let snap = DockerSnapshot {
        resources: vec![
            volume("named", false, "unused"),
            volume("gone", true, "unused"),
            volume("used", true, "in use"),
        ],
        ..DockerSnapshot::default()
    };
    assert_eq!(snap.prunable_ids(), vec!["gone"]);
}

#[test]
fn a_line_that_is_no_json_is_refused_with_the_reason() {
    let why = "expected value at line 1 column 1";
    assert_eq!(parse("nope!").err().as_deref(), Some("expected ident at line 1 column 2"));
    assert_eq!(dispatch("  ?\n").err().as_deref(), Some(why));
    assert_eq!(read_reply("?\n").err().as_deref(), Some("bad reply: expected value at line 1 column 1: ?\n"));
}

#[test]
fn a_command_is_a_list_of_texts() {
    assert_eq!(
        texts_of(&parse("[\"a\",\"\",\"b c\"]").unwrap()),
        Ok(vec!["a".to_string(), String::new(), "b c".to_string()])
    );
    assert_eq!(texts_of(&parse("[]").unwrap()), Ok(Vec::new()));
    assert_eq!(
        texts_of(&text("a")).err().as_deref(),
        Some("invalid type: string \"a\", expected a sequence")
    );
    let args = parse("{\"request_id\":\"k\",\"argv\":[\"true\",1],\"cwd\":\"/tmp\"}").unwrap();
    assert_eq!(
        run_tool("start_run", &args, true).err().as_deref(),
        Some("argv must be a string array: invalid type: integer `1`, expected a string")
    );
    let none = parse("{\"request_id\":\"k\",\"cwd\":\"/tmp\"}").unwrap();
    assert_eq!(run_tool("start_run", &none, true).err().as_deref(), Some("argv is required"));
}

#[test]
fn variables_come_back_as_they_were_sent() {
    let env = vec![
        ("PATH".to_string(), "/bin:/usr/bin".to_string()),
        ("EMPTY".to_string(), String::new()),
    ];
    let spec = parse("{\"argv\":[\"true\"]}").unwrap();
    match dispatch(&line_of(&Client::start(spec, &env))) {
        Ok(Request::StartRun { env: sent, .. }) => assert_eq!(env_of(&sent), Ok(env)),
        other => panic!("a start was asked for: {other:?}"),
    }
    assert_eq!(env_of(&None), Ok(Vec::new()));
    let three = parse("[[\"a\",\"b\",\"c\"]]").unwrap();
    assert!(pairs_of(&three).is_err());
    assert!(pairs_of(&parse("[[\"a\"]]").unwrap()).is_err());
    assert_eq!(
        env_of(&Some(parse("[[\"a\",2]]").unwrap())).err().as_deref(),
        Some("bad env: invalid type: integer `2`, expected a string")
    );
}

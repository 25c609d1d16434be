use wyd::cli::{
    ancestry_line, capacity_lines, capacity_settings, chunk_step, confirms, cut_marker,
    idle_capacity, is_current, logs_step, parse_duration, report_mode, run_command, run_line,
    run_summary, sign, truncate, updater_for, why_status, CliMode, LogsStep, RunOptions,
};
use wyd::config::RunsConfig;
use wyd::demo::runs;
use wyd::demo::sessions::{session_infos, session_record, stable_id};
use wyd::demo::story;
use wyd::json::{parse, Json};
use wyd::model::process::ProcessInfo;
use wyd::model::run::{Enforcement, Platform, SessionOrigin};
use wyd::output::Filter;
use wyd::path;
use wyd::runner::logs::Stream;
use wyd::sorting::sort;
use wyd::text;
use wyd::time::{civil_from_days, Duration};

const NOW: u64 = 1_750_000_000;

#[test]
fn updater_detects_brew_and_cargo() {
    assert_eq!(
        updater_for("/opt/homebrew/Cellar/wyd/0.4.1/bin/wyd").map(|(c, _)| c),
        Some("brew")
    );
    assert_eq!(updater_for("/Users/x/.cargo/bin/wyd").map(|(c, _)| c), Some("cargo"));
    let (cmd, args) = updater_for("/Users/x/.local/bin/wyd").unwrap();
    assert_eq!(cmd, "sh");
    assert!(args[1].contains("wyd.sh/install.sh"));
    assert!(updater_for("/usr/local/bin/wyd").is_none());
}

#[test]
fn durations_are_read_with_their_unit() {
    assert_eq!(parse_duration("120s").unwrap(), Duration::from_secs(120));
    assert_eq!(parse_duration(" 10m ").unwrap(), Duration::from_secs(600));
    assert_eq!(parse_duration("1h").unwrap(), Duration::from_secs(3600));
    assert_eq!(parse_duration("45").unwrap(), Duration::from_secs(45));
    assert_eq!(parse_duration("0").unwrap(), Duration::from_secs(1));
    assert_eq!(
        parse_duration("soon").err().as_deref(),
        Some("\"soon\" is not a duration like 120s, 10m, 1h")
    );
    assert_eq!(parse_duration("5w").err().as_deref(), Some("unknown duration unit 'w'"));
    assert!(parse_duration("18446744073709551615h").is_err());
}

#[test]
fn long_text_is_cut() {
    assert_eq!(truncate("abcdef", 6), "abcdef");
    assert_eq!(truncate("abcdef", 4), "abc…");
    assert_eq!(sign(0), "");
    assert_eq!(sign(5), " +5");
}

#[test]
fn only_a_plain_yes_confirms() {
    assert!(confirms("y\n"));
    assert!(confirms(" Y "));
    assert!(!confirms("yes"));
    assert!(!confirms(""));
    assert!(is_current("Warning: wyd 0.5.0 already installed"));
    assert!(!is_current("Upgrading wyd"));
}

fn options() -> RunOptions {
    RunOptions {
        timeout: Duration::from_secs(5),
        grace: Duration::from_secs(1),
        cwd: "/tmp".into(),
        request_id: "k".into(),
        memory: Some(64),
        enforce: "monitored".into(),
        queue_timeout: None,
        cpu: Some(500),
        processes: None,
        argv: vec!["true".into()],
    }
}

#[test]
fn run_options_become_a_spec() {
    let spec = run_command(options()).unwrap();
    assert_eq!(spec.resources.memory_bytes, Some(64 << 20));
    assert_eq!(spec.resources.enforcement, Enforcement::Monitored);
    assert_eq!(spec.resources.cpu_millicores, Some(500));
    assert_eq!(spec.session_origin, SessionOrigin::Unlinked);
    let mut o = options();
    o.cwd = "tmp".into();
    assert_eq!(run_command(o).err().as_deref(), Some("--cwd must be an absolute path"));
    let mut o = options();
    o.enforce = "maybe".into();
    assert_eq!(
        run_command(o).err().as_deref(),
        Some("--enforce must be none|monitored|hard, got \"maybe\"")
    );
}

#[test]
fn runs_are_told_in_a_line() {
    let all = runs::runs(NOW, Platform::Linux, false);
    assert_eq!(all.len(), 8);
    for v in &all {
        let columns: Vec<String> = run_line(v).split_whitespace().map(String::from).collect();
        assert_eq!(columns[0], v.run_id);
        assert_eq!(columns[1], v.state.as_str());
        assert_eq!(columns[2], v.outcome.map(|o| o.as_str()).unwrap_or("-"));
        assert_eq!(columns[3], v.cleanup.as_str());
        assert_eq!(columns[4], format!("{}ms", v.duration_ms.unwrap_or(0)));
        assert!(run_summary(v).starts_with(&format!("wyd: run {} ", v.run_id)));
    }
    let id: i64 = all[0].run_id.parse().unwrap();
    assert!(runs::run(id, NOW, Platform::Linux, false).is_some());
    assert!(runs::run(-1, NOW, Platform::Linux, false).is_none());
    let out = runs::run_output(id, Stream::Stdout, 0, 1 << 20).unwrap();
    assert!(out.eof);
    assert_eq!(out.next_cursor, out.data.len());
    let capacity = runs::capacity(Platform::Linux, false);
    assert!(!capacity_lines(&capacity).is_empty());
    for v in &all {
        let id: i64 = v.run_id.parse().unwrap();
        let cancelled = runs::cancel_run(id, NOW, Platform::Linux, false).unwrap();
        assert_eq!(cancelled.run_id, v.run_id);
    }
}

#[test]
fn output_is_followed_to_its_end() {
    let chunk = parse("{\"data\":\"abc\",\"next_cursor\":3,\"eof\":true,\"truncated\":true}").unwrap();
    let step = chunk_step(&chunk, 0);
    assert_eq!((step.data.as_str(), step.cursor, step.eof, step.cut), ("abc", 3, true, true));
    assert_eq!(logs_step(true, true, true, true), LogsStep::Stop { marked: true });
    assert_eq!(logs_step(true, false, false, true), LogsStep::Again);
    assert_eq!(
        cut_marker(Stream::Stdout),
        "wyd: stdout output truncated at the configured log limit"
    );
}

#[test]
fn limits_are_set_by_name() {
    let set = capacity_settings(&vec!["max_parallel=3".into(), "memory_budget_mb=2".into()]).unwrap();
    assert_eq!(set.u64_at("max_parallel"), Some(3));
    assert_eq!(set.u64_at("memory_budget_bytes"), Some(2 << 20));
    assert!(capacity_settings(&vec!["nonsense=3".into()]).is_err());
    assert!(capacity_settings(&vec!["max_parallel".into()]).is_err());
    assert!(capacity_settings(&vec!["max_parallel=x".into()]).is_err());
}

#[test]
fn idle_capacity_comes_from_the_configuration() {
    let runs = RunsConfig { max_parallel: 0, ..RunsConfig::default() };
    let c = idle_capacity(&runs, Platform::Linux, false);
    assert_eq!((c.running, c.queued), (0, 0));
    assert_eq!(c.limits.max_parallel, 1);
    assert_eq!(c.slots_free, 1);
    let lines = capacity_lines(&c);
    assert_eq!(lines[0], "slots      0/1 used (2 per project)");
    assert_eq!(runs.limits().max_parallel, 1);
}

#[test]
fn the_report_is_chosen_by_its_flags() {
    assert_eq!(report_mode(true, false, None, false), Ok(CliMode::Report(Filter::All)));
    assert_eq!(report_mode(true, false, Some("sessions"), false), Ok(CliMode::Sessions));
    assert!(report_mode(false, true, Some("sessions"), false).is_err());
    assert!(report_mode(true, true, None, false).is_err());
    assert!(report_mode(true, false, Some("project"), false).is_err());
    assert_eq!(
        report_mode(true, false, Some("Project"), true),
        Ok(CliMode::Report(Filter::Project))
    );
    assert_eq!(
        report_mode(true, false, Some("wat"), false).err().as_deref(),
        Some("unknown filter \"wat\"; use leftovers, mcp, agents, docker, project")
    );
}

#[test]
fn an_explanation_has_a_status_and_a_line() {
    assert_eq!(why_status(Some(false)), 0);
    assert_ne!(why_status(Some(true)), why_status(Some(false)));
    let p = |pid: u32, name: &str| ProcessInfo {
        pid,
        parent_pid: None,
        name: name.into(),
        command: vec![],
        executable: None,
        cwd: None,
        memory_bytes: 0,
        start_time: 1,
        tty: None,
    };
    let init = p(1, "init");
    assert_eq!(
        ancestry_line(&vec![&init], &p(7, "node")),
        "ancestry: init (1) → node (7)"
    );
}

#[test]
fn the_story_is_consistent() {
    let snap = story::snapshot(NOW);
    let infos = session_infos(NOW);
    assert_eq!(infos.len(), 5);
    for s in &infos {
        let record = session_record(s.id.as_u64(), NOW).unwrap();
        assert_eq!(record.agent, s.agent);
        assert_eq!(record.ended_at.is_none(), s.active);
    }
    assert!(session_record(1, NOW).is_none());
    assert_ne!(stable_id("a"), stable_id("b"));
    let root = snap.logical_items[0].root_pid.unwrap();
    let told = story::explain(root, NOW).unwrap();
    assert_eq!(told.u64_at("pid"), Some(root as u64));
    assert_eq!(told.bool_at("exact"), Some(true));
    assert_eq!(told.str_at("ownership"), Some("owned"));
    assert_eq!(told.u64_at("resolver_version"), Some(1));
    let session = told.get("session").unwrap();
    assert_eq!(session.str_at("id"), told.str_at("owner_session"));
    match told.get("evidence").unwrap() {
        Json::List(l) => {
            assert_eq!(l[0].str_at("kind"), Some("cwd match"));
            assert_eq!(l[1].str_at("kind"), Some("persisted ownership"));
        },
        other => panic!("evidence is a list: {other:?}"),
    }
    assert!(story::explain(4_000_000, NOW).is_none());
}

#[test]
fn text_helpers_agree_with_the_standard_library() {
    assert_eq!(text::lower_of("ABC-ä"), "abc-ä");
    assert_eq!(text::dec_of(18_446_744_073_709_551_615), u64::MAX.to_string());
    assert_eq!(text::dec_of_int(i64::MIN), i64::MIN.to_string());
    assert_eq!(text::hex_of(255, 4), "00ff");
    assert_eq!(text::parse_unsigned("42", 100), Some(42));
    assert_eq!(text::parse_unsigned("420", 100), None);
    assert_eq!(text::parse_unsigned("", 100), None);
    assert_eq!(text::parse_signed("-7", -10, 10), Some(-7));
    assert_eq!(text::parse_hex("ff"), Some(255));
    assert_eq!(text::parse_hex("xyz"), None);
    assert_eq!(text::words_of(" a  b\tc "), ["a", "b", "c"]);
    assert_eq!(text::lines_of("a\nb\n"), ["a", "b"]);
    assert_eq!(text::trim_of("  a b \n"), "a b");
    assert_eq!(text::split_once("a=b=c", '='), Some(("a".to_string(), "b=c".to_string())));
    assert_eq!(text::padded_left("7", 3), "  7");
    assert_eq!(text::padded_right("7", 3), "7  ");
    assert!(text::text_has("hello", "ell"));
    assert!(text::text_starts("hello", "he") && text::text_ends("hello", "lo"));
}

#[test]
fn paths_are_joined_and_split() {
    assert_eq!(path::join("/a", "b"), "/a/b");
    assert_eq!(path::join("/a/", "b"), "/a/b");
    assert_eq!(path::join("/a", "/b"), "/b");
    assert_eq!(path::file_name("/a/b"), Some("b".to_string()));
    assert_eq!(path::parent("/a/b"), Some("/a".to_string()));
    assert_eq!(path::parent("/"), None);
    assert!(path::is_below("/a/b", "/a"));
    assert!(!path::is_below("/ab", "/a"));
    assert!(!path::is_below("/a", "/a"));
}

#[test]
fn dates_are_those_of_the_calendar() {
    assert_eq!(civil_from_days(0), (1970, 1, 1));
    assert_eq!(civil_from_days(-1), (1969, 12, 31));
    assert_eq!(civil_from_days(11_016), (2000, 2, 29));
    assert_eq!(civil_from_days(19_782), (2024, 2, 29));
}

#[test]
fn sorting_is_by_text() {
    let v = vec!["b".to_string(), "a".to_string(), "ab".to_string()];
    assert_eq!(sort(v), ["a", "ab", "b"]);
}

#[test]
fn every_listing_tells_the_same_story() {
    let ids: Vec<u64> = session_infos(NOW).iter().map(|s| s.id.as_u64()).collect();
    let later = session_infos(NOW + 5000);
    assert_eq!(later.iter().map(|s| s.id.as_u64()).collect::<Vec<_>>(), ids);
    assert_eq!(ids[0], 0x46e324386ab9778f);
    assert_eq!(ids[4], 0x6212df04371a13f8);
    for i in 0..5 {
        assert_eq!(later[i].active, i >= 3);
        for j in 0..i {
            assert_ne!(ids[i], ids[j]);
        }
        let far = session_record(ids[i], u64::MAX).unwrap();
        assert_eq!(far.started_at, session_infos(u64::MAX)[i].started_at);
        let r = session_record(ids[i], NOW).unwrap();
        assert!(r.started_at <= r.last_seen_at);
        assert!(r.ended_at.is_none() || r.ended_at == Some(r.last_seen_at));
    }
}

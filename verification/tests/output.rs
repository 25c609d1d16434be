use wyd::classify::group::group;
use wyd::classify::leftovers::mark;
use wyd::config::Config;
use wyd::model::process::ProcessInfo;
use wyd::model::snapshot::RuntimeSnapshot;
use wyd::output::{render_plain, render_report, report, Filter, JsonItem};

fn proc(pid: u32, ppid: Option<u32>, name: &str, cmd: &[&str]) -> ProcessInfo {
    ProcessInfo {
        pid,
        parent_pid: ppid,
        name: name.into(),
        command: cmd.iter().map(|s| (*s).to_string()).collect(),
        executable: None,
        cwd: None,
        memory_bytes: 10,
        start_time: 1,
        tty: None,
    }
}

fn snap() -> RuntimeSnapshot {
    let processes = vec![
        proc(1, None, "launchd", &["launchd"]),
        proc(10, Some(1), "omp", &["omp"]),
        proc(11, Some(10), "node", &["node", "chrome-devtools-mcp"]),
        proc(20, Some(1), "node", &["node", "playwright-mcp"]),
    ];
    let mut logical_items = group(&processes, &Vec::new());
    mark(&mut logical_items, &processes, &Config::default(), 1_750_000_000);
    RuntimeSnapshot { logical_items, processes, ..RuntimeSnapshot::default() }
}

fn names(items: &Vec<JsonItem>) -> Vec<String> {
    items.iter().map(|i| i.name.clone()).collect()
}

#[test]
fn json_leftovers_only_detached_mcp() {
    let r = report(&snap(), Filter::Leftovers, None);
    assert_eq!(names(&r.runtime), ["playwright-mcp"]);
    assert_eq!(r.runtime[0].kind, "leftover");
    assert!(!render_report(&r).contains("omp"));
}

#[test]
fn json_mcp_includes_owned_and_detached() {
    let r = report(&snap(), Filter::Mcp, None);
    let text = render_report(&r);
    assert!(text.contains("chrome-devtools-mcp"), "{text}");
    assert!(text.contains("playwright-mcp"), "{text}");
}

#[test]
fn plain_none_when_empty_filter() {
    let empty = RuntimeSnapshot::default();
    assert_eq!(render_plain(&empty, Filter::All, None), "none");
}

#[test]
fn unknown_filter_errors() {
    assert!(Filter::parse(Some("wat")).is_err());
    assert_eq!(Filter::parse(Some("leftovers")).unwrap(), Filter::Leftovers);
}

#[test]
fn no_filter_shows_everything() {
    assert_eq!(Filter::parse(None).unwrap(), Filter::All);
    let r = report(&snap(), Filter::All, None);
    assert_eq!(r.runtime.len(), 2);
    assert_eq!(names(&r.runtime[0].children), ["chrome-devtools-mcp"]);
    assert_eq!(r.runtime[0].status, "active");
    assert_eq!(render_report(&r), render_plain(&snap(), Filter::All, None));
}

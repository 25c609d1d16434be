use wyd::classify::tree::Forest;
use wyd::model::process::ProcessInfo;

fn proc(pid: u32, ppid: Option<u32>, name: &str, mem: u64) -> ProcessInfo {
    ProcessInfo {
        pid,
        parent_pid: ppid,
        name: name.into(),
        command: vec![name.into()],
        executable: None,
        cwd: None,
        memory_bytes: mem,
        start_time: 0,
        tty: None,
    }
}

fn fixture() -> Vec<ProcessInfo> {
    vec![
        proc(1, None, "launchd", 10),
        proc(100, Some(1), "ghostty", 50),
        proc(110, Some(100), "zsh", 5),
        proc(120, Some(110), "omp", 300),
        proc(130, Some(120), "chrome-devtools-mcp", 40),
        proc(140, Some(130), "Chromium", 500),
        proc(141, Some(130), "Chromium Helper", 200),
        proc(150, Some(999), "Chromium", 400),
    ]
}

#[test]
fn builds_parent_child_links() {
    let forest = Forest::build(&fixture());
    assert_eq!(forest.children(130), &[140, 141]);
    assert_eq!(forest.children(110), &[120]);
    assert!(forest.children(150).is_empty());
}

#[test]
fn reparented_process_becomes_root() {
    let forest = Forest::build(&fixture());
    let roots = forest.roots();
    assert!(roots.contains(&1));
    assert!(roots.contains(&150), "orphan must surface as root");
    assert!(forest.is_detached(&fixture()[7]));
    assert!(!forest.is_detached(&fixture()[5]));
}

#[test]
fn preorder_depths_are_correct() {
    let forest = Forest::build(&fixture());
    let order = forest.preorder();
    let depth_of = |pid: u32| order.iter().find(|(p, _)| *p == pid).unwrap().1;
    assert_eq!(depth_of(1), 0);
    assert_eq!(depth_of(100), 1);
    assert_eq!(depth_of(120), 3);
    assert_eq!(depth_of(140), 5);
    assert_eq!(depth_of(150), 0);
    assert_eq!(order.len(), 8, "every process visited exactly once");
}

#[test]
fn preorder_roots_sorted_by_memory_desc() {
    let forest = Forest::build(&fixture());
    let roots: Vec<u32> = forest
        .preorder()
        .into_iter()
        .filter(|(_, d)| *d == 0)
        .map(|(p, _)| p)
        .collect();
    assert_eq!(roots, &[150, 1]);
}

#[test]
fn cycle_in_malformed_snapshot_terminates() {
    let procs = vec![proc(1, Some(2), "a", 1), proc(2, Some(1), "b", 1)];
    let order = Forest::build(&procs).preorder();
    assert_eq!(order.len(), 2);
}

#[test]
fn empty_snapshot() {
    let forest = Forest::build(&Vec::new());
    assert!(forest.roots().is_empty());
    assert!(forest.preorder().is_empty());
}

#[test]
fn equal_memory_keeps_the_snapshot_order() {
    let procs = vec![
        proc(1, None, "init", 9),
        proc(12, Some(1), "b", 5),
        proc(11, Some(1), "a", 5),
        proc(13, Some(1), "c", 6),
    ];
    assert_eq!(Forest::build(&procs).children(1), &[13, 12, 11]);
}

use wyd::model::process::ProcessInfo;
use wyd::source::{detect, render_tree, unit_from_cgroup, SourceKind};

fn proc(
    pid: u32,
    ppid: Option<u32>,
    name: &str,
    exe: Option<&str>,
    tty: Option<&str>,
) -> ProcessInfo {
    ProcessInfo {
        pid,
        parent_pid: ppid,
        name: name.into(),
        command: vec![name.into()],
        executable: exe.map(str::to_string),
        cwd: None,
        memory_bytes: 0,
        start_time: 1,
        tty: tty.map(str::to_string),
    }
}

fn none() -> Vec<(u32, String)> {
    Vec::new()
}

#[test]
fn systemd_service_is_systemd() {
    let ps = vec![
        proc(1, None, "systemd", None, None),
        proc(1234, Some(1), "postgres", None, None),
    ];
    let cgroups = none();
    let r = detect(1234, &ps, &cgroups);
    assert!(matches!(r.source, SourceKind::Systemd { .. }));
    assert_eq!(r.chain.len(), 1);
    assert_eq!(r.chain[0].pid, 1);
}

#[test]
fn launchd_orphan_is_launchd() {
    let ps = vec![
        proc(1, None, "launchd", None, None),
        proc(99, Some(1), "node", None, None),
    ];
    let r = detect(99, &ps, &none());
    assert_eq!(r.source, SourceKind::Launchd);
}

#[test]
fn cron_wins_over_shell() {
    let ps = vec![
        proc(1, None, "systemd", None, None),
        proc(10, Some(1), "cron", None, None),
        proc(11, Some(10), "sh", None, None),
        proc(12, Some(11), "job", None, None),
    ];
    let r = detect(12, &ps, &none());
    assert_eq!(r.source, SourceKind::Cron);
}

#[test]
fn ssh_wins_over_interactive_shell() {
    let ps = vec![
        proc(1, None, "systemd", None, None),
        proc(20, Some(1), "sshd", None, None),
        proc(21, Some(20), "bash", None, Some("pts/0")),
        proc(22, Some(21), "node", None, None),
    ];
    let r = detect(22, &ps, &none());
    assert_eq!(r.source, SourceKind::Ssh);
}

#[test]
fn interactive_shell_local() {
    let ps = vec![
        proc(1, None, "launchd", None, None),
        proc(30, Some(1), "zsh", None, Some("ttys001")),
        proc(31, Some(30), "node", None, None),
    ];
    let r = detect(31, &ps, &none());
    assert_eq!(r.source, SourceKind::InteractiveShell);
}

#[test]
fn tmux_server_is_tmux() {
    let ps = vec![
        proc(1, None, "systemd", None, None),
        proc(40, Some(1), "tmux: server", None, None),
        proc(41, Some(40), "vim", None, None),
    ];
    let r = detect(41, &ps, &none());
    assert_eq!(r.source, SourceKind::Tmux);
}

#[test]
fn snap_path_is_snap() {
    let ps = vec![
        proc(1, None, "systemd", None, None),
        proc(50, Some(1), "mysnap", Some("/snap/mysnap/current/bin/mysnap"), None),
    ];
    let r = detect(50, &ps, &none());
    assert_eq!(r.source, SourceKind::Snap);
}

#[test]
fn flatpak_path_is_flatpak() {
    let ps = vec![
        proc(1, None, "systemd", None, None),
        proc(51, Some(1), "app", Some("/app/bin/app"), None),
    ];
    let r = detect(51, &ps, &none());
    assert_eq!(r.source, SourceKind::Flatpak);
}

#[test]
fn absent_parent_is_unknown() {
    let ps = vec![proc(60, None, "orphan", None, None)];
    let r = detect(60, &ps, &none());
    assert!(matches!(r.source, SourceKind::Unknown { .. }));
    assert!(r.chain.is_empty());
}

#[test]
fn chain_is_root_first() {
    let ps = vec![
        proc(1, None, "systemd", None, None),
        proc(70, Some(1), "cron", None, None),
        proc(71, Some(70), "sh", None, None),
        proc(72, Some(71), "job", None, None),
    ];
    let r = detect(72, &ps, &none());
    assert_eq!(r.chain.len(), 3);
    assert_eq!(r.chain[0].pid, 1);
    assert_eq!(r.chain[2].pid, 71);
}

#[test]
fn tree_marks_target_and_lists_children() {
    let ps = vec![
        proc(1, None, "launchd", None, None),
        proc(100, Some(1), "omp", None, None),
        proc(110, Some(100), "node", None, None),
        proc(120, Some(110), "node", None, None),
        proc(121, Some(110), "node", None, None),
    ];
    let tree = render_tree(110, &ps);
    assert_eq!(
        tree,
        "launchd (1)\n└─ omp (100)\n   └─ node (110) ◀\n      ├─ node (120)\n      └─ node (121)\n"
    );
}

#[test]
fn tree_target_is_root() {
    let ps = vec![
        proc(1, None, "launchd", None, None),
        proc(2, Some(1), "x", None, None),
    ];
    assert_eq!(render_tree(1, &ps), "launchd (1) ◀\n└─ x (2)\n");
}

#[test]
fn tree_truncates_children_and_keeps_branches_open() {
    let mut ps = vec![proc(1, None, "launchd", None, None)];
    for i in 0..12 {
        ps.push(proc(100 + i, Some(1), "c", None, None));
    }
    let tree = render_tree(1, &ps);
    assert_eq!(tree.matches("├─ c (").count(), 10);
    assert!(tree.contains("└─ … (+2 more)"));
    assert!(!tree.contains("└─ c ("));
}

#[test]
fn unit_from_cgroup_extracts_service() {
    assert_eq!(
        unit_from_cgroup("0::/system.slice/postgresql.service"),
        Some("postgresql.service".into())
    );
    assert_eq!(
        unit_from_cgroup("0::/user.slice/user-1000.slice/user@1000.service/app.slice/foo.service"),
        Some("foo.service".into())
    );
    assert_eq!(unit_from_cgroup("0::/"), None);
    assert_eq!(unit_from_cgroup("0::/init.scope"), Some("init.scope".into()));
    assert_eq!(
        unit_from_cgroup("0::/user.slice/user-1000.slice/session-3.scope"),
        Some("session-3.scope".into())
    );
}

#[test]
fn systemd_source_names_its_unit() {
    let ps = vec![
        proc(1, None, "systemd", None, None),
        proc(1234, Some(1), "postgres", None, None),
    ];
    let cgroups = vec![(1234, "0::/system.slice/postgresql.service".to_string())];
    let r = detect(1234, &ps, &cgroups);
    assert_eq!(r.source, SourceKind::Systemd { unit: Some("postgresql.service".into()) });
    assert_eq!(r.source.label(), "systemd (postgresql.service)");
}

#[test]
fn parent_cycles_end_the_chain() {
    let ps = vec![
        proc(5, Some(6), "a", None, None),
        proc(6, Some(5), "b", None, None),
    ];
    let r = detect(5, &ps, &none());
    assert_eq!(r.chain.iter().map(|p| p.pid).collect::<Vec<_>>(), [5, 6]);
}

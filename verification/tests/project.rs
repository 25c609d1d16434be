use wyd::classify::group::group;
use wyd::classify::project::{attach, markers, pwd_from_cmd, short_path, DirFacts, ProjectCache};
use wyd::config::{Config, LeftoverConfig};
use wyd::model::port::{IpAddr, ListeningPort, Protocol};
use wyd::model::process::ProcessInfo;
use wyd::model::runtime::Category;

/// Facts of a file system in which every path is canonical already.
fn facts(git: &[&str], marked: &[&str]) -> DirFacts {
    DirFacts {
        canonical: Vec::new(),
        git: git.iter().map(|s| (*s).to_string()).collect(),
        marked: marked.iter().map(|s| (*s).to_string()).collect(),
    }
}

fn port(port: u16, pid: u32) -> ListeningPort {
    ListeningPort { protocol: Protocol::Tcp, address: IpAddr::V4(127, 0, 0, 1), port, pid }
}

#[test]
fn git_root_wins_and_is_cached() {
    let f = facts(&["/tmp/wyd-proj-git"], &[]);
    let nested = "/tmp/wyd-proj-git/src/app";

    let mut cache = ProjectCache::default();
    let a = cache.detect(&f, nested).unwrap();
    assert_eq!(a.name, "wyd-proj-git");
    assert_eq!(a.root, "/tmp/wyd-proj-git");

    // A later lookup does not depend on the repository still being there.
    let b = cache.detect(&facts(&[], &[]), nested).unwrap();
    assert_eq!(a, b);
}

#[test]
fn falls_back_to_package_json() {
    let root = "/tmp/wyd-proj-pkg";
    let mut cache = ProjectCache::default();
    let p = cache.detect(&facts(&[], &[root]), root).unwrap();
    assert_eq!(p.root, root);
    assert!(markers().contains(&"package.json".to_string()));
}

#[test]
fn unknown_dir_is_none() {
    let mut cache = ProjectCache::default();
    assert!(cache.detect(&DirFacts::none(), "/tmp/wyd-proj-empty").is_none());
    assert!(cache.detect(&DirFacts::none(), "/tmp/wyd-proj-empty").is_none());
}

#[test]
fn nearest_repository_wins_over_an_outer_one() {
    let f = facts(&["/w", "/w/inner"], &["/w/inner/pkg"]);
    let mut cache = ProjectCache::default();
    assert_eq!(cache.detect(&f, "/w/inner/pkg/src").unwrap().root, "/w/inner");
    assert_eq!(cache.detect(&f, "/w/other").unwrap().root, "/w");
}

#[test]
fn canonical_paths_are_used() {
    let f = DirFacts {
        canonical: vec![("/link".into(), "/real/app".into())],
        git: vec!["/real/app".into()],
        marked: Vec::new(),
    };
    let mut cache = ProjectCache::default();
    let p = cache.detect(&f, "/link").unwrap();
    assert_eq!(p.root, "/real/app");
    assert_eq!(p.name, "app");
}

#[test]
fn configured_roots_give_a_project_without_a_marker() {
    let none = DirFacts::none();
    let mut cache = ProjectCache::with_roots(&vec!["/home/me/Work".into()], &none);
    let p = cache.detect(&none, "/home/me/Work/site/src");
    assert!(p.is_some());
    assert!(cache.detect(&none, "/elsewhere").is_none());
}

#[test]
fn pwd_from_cmd_reads_blob_and_env() {
    assert_eq!(
        pwd_from_cmd(&vec![
            "npm exec @github/copilot-language-server --stdio".into(),
            "PWD=/Users/max/111/directories/web".into(),
        ]),
        Some("/Users/max/111/directories/web".to_string())
    );
    assert_eq!(pwd_from_cmd(&vec!["node".into(), "--stdio".into()]), None);
}

#[test]
fn lsp_project_from_parent_pwd_env() {
    let root = "/tmp/wyd-proj-copilot-web";
    let home = "/tmp/wyd-proj-not-a-project";
    let proc = |pid: u32, ppid: Option<u32>, name: &str, cmd: Vec<String>| ProcessInfo {
        pid,
        parent_pid: ppid,
        name: name.into(),
        command: cmd,
        executable: None,
        cwd: Some(home.into()),
        memory_bytes: 10,
        start_time: 0,
        tty: None,
    };
    let processes = vec![
        proc(1, None, "launchd", vec!["launchd".into()]),
        proc(
            10,
            Some(1),
            "node",
            vec![
                "npm exec @github/copilot-language-server@^1.408.0 --stdio".into(),
                format!("PWD={root}"),
            ],
        ),
        proc(
            11,
            Some(10),
            "node",
            vec![
                "node".into(),
                "/x/.npm/_npx/x/node_modules/.bin/copilot-language-server".into(),
                "--stdio".into(),
            ],
        ),
    ];
    let mut items = group(&processes, &Vec::new());
    attach(
        &mut items,
        &processes,
        &Vec::new(),
        &facts(&[root], &[]),
        &Vec::new(),
        &mut ProjectCache::default(),
    );
    assert_eq!(items.len(), 1);
    assert_eq!(items[0].display_name, "copilot");
    assert_eq!(items[0].process_ids, vec![11]);
    assert_eq!(items[0].project.as_ref().map(|p| p.root.clone()), Some(root.to_string()));
}

#[test]
fn short_path_uses_home() {
    let home = Some("/home/me".to_string());
    assert_eq!(short_path("/home/me", &home), "~");
    assert_eq!(short_path("/home/me/Work/x", &home), "~/Work/x");
    assert_eq!(short_path("/home/meadow", &home), "/home/meadow");
    assert_eq!(short_path("/home/me", &None), "/home/me");
}

#[test]
fn attach_joins_listen_port_and_git_project() {
    let root = "/tmp/wyd-proj-vite-app";
    let proc = |pid: u32, ppid: Option<u32>, name: &str, cmd: &[&str]| ProcessInfo {
        pid,
        parent_pid: ppid,
        name: name.into(),
        command: cmd.iter().map(|s| (*s).to_string()).collect(),
        executable: None,
        cwd: Some(root.into()),
        memory_bytes: 10,
        start_time: 0,
        tty: None,
    };
    let processes = vec![
        proc(1, None, "launchd", &["launchd"]),
        proc(10, Some(1), "node", &["node", "node_modules/.bin/vite"]),
    ];
    let mut items = group(&processes, &Vec::new());
    attach(
        &mut items,
        &processes,
        &vec![port(5173, 10)],
        &facts(&[root], &[]),
        &Vec::new(),
        &mut ProjectCache::default(),
    );
    assert_eq!(items.len(), 1);
    assert_eq!(items[0].display_name, "vite");
    assert_eq!(items[0].ports[0].label(), ":5173");
    assert_eq!(items[0].project.as_ref().map(|p| p.root.clone()), Some(root.to_string()));
}

#[test]
fn adopt_node_listener_without_argv() {
    let processes = vec![ProcessInfo {
        pid: 10,
        parent_pid: Some(1),
        name: "node".into(),
        command: vec![],
        executable: None,
        cwd: None,
        memory_bytes: 40 << 20,
        start_time: 0,
        tty: None,
    }];
    let mut items = group(&processes, &Vec::new());
    assert!(items.is_empty());
    attach(
        &mut items,
        &processes,
        &vec![port(3000, 10)],
        &DirFacts::none(),
        &Vec::new(),
        &mut ProjectCache::default(),
    );
    assert_eq!(items.len(), 1);
    assert_eq!(items[0].category, Category::DevServer);
    assert_eq!(items[0].ports[0].port, 3000);
}

#[test]
fn missing_file_is_defaults() {
    let cfg = Config::load(None);
    assert_eq!(cfg.leftovers.server_age_hours, 8);
    assert!(cfg.signature.is_empty());
}

#[test]
fn read_configuration_is_kept() {
    let mut given = Config::default();
    given.leftovers = LeftoverConfig { server_age_hours: 12 };
    given.projects.roots = vec!["~/Work".into(), "/srv".into()];
    let cfg = Config::load(Some(given));
    assert_eq!(cfg.leftovers.server_age_hours, 12);
    assert_eq!(
        cfg.project_roots(&Some("/home/me".into())),
        ["/home/me/Work".to_string(), "/srv".to_string()]
    );
}

#[test]
fn a_nearer_configured_root_wins_over_a_repository_above() {
    let f = facts(&["/w"], &["/w/in/app/pkg"]);
    let mut cache = ProjectCache::with_roots(&vec!["/w/in".into()], &f);
    assert_eq!(cache.detect(&f, "/w/in/app/pkg/src").unwrap().root, "/w/in/app");
    assert_eq!(cache.detect(&f, "/w/else").unwrap().root, "/w");
}

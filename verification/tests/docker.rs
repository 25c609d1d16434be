use wyd::actions::docker::{prune_report, remove_blocking, Removal};
use wyd::actions::process::{identities_for, identity_holds, report, Identity, KillReport, Reply};
use wyd::model::docker::{DockerKind, DockerResource};
use wyd::model::port::IpAddr;
use wyd::model::process::ProcessInfo;
use wyd::model::runtime::{Category, RuntimeItem, RuntimeState};
use wyd::scanner::docker::{assemble, dangling, ContainerFacts, ImageFacts, VolumeFacts};
use wyd::scanner::ports::{scan, SocketFacts};
use wyd::stamp::{parse_rfc3339, rfc3339};

fn image(tags: Vec<String>) -> ImageFacts {
    ImageFacts { id: "sha256:abcdef0123456789".into(), repo_tags: tags, size: 1_000_000, created: 0 }
}

fn container(id: &str, name: &str, running: bool) -> ContainerFacts {
    ContainerFacts {
        id: Some(id.into()),
        names: Some(vec![name.into()]),
        running,
        size_rw: None,
        labels: None,
        mounts: None,
        created: None,
    }
}

#[test]
fn dangling_when_untagged() {
    assert!(dangling(&image(vec![])));
    assert!(dangling(&image(vec!["<none>:<none>".into()])));
    assert!(!dangling(&image(vec!["nginx:latest".into()])));
}

#[test]
fn running_containers_sort_first() {
    let stopped = container("aaa", "/old", false);
    let running = container("bbb", "/live", true);
    let snap = assemble(&vec![stopped, running], &vec![], &None, None);
    assert_eq!(snap.resources[0].name, "live");
    assert_eq!(snap.resources[1].name, "old");
}

#[test]
fn parses_rfc3339() {
    assert_eq!(parse_rfc3339("1970-01-01T00:00:00Z"), 0);
    assert_eq!(parse_rfc3339("1970-01-01T01:00:00+01:00"), 0);
    assert_eq!(parse_rfc3339("2024-01-02T03:04:05Z"), 1_704_164_645);
    assert_eq!(parse_rfc3339("2024-01-02T03:04:05.123456789Z"), 1_704_164_645);
    assert_eq!(parse_rfc3339("garbage"), 0);
    assert_eq!(parse_rfc3339(""), 0);
}

#[test]
fn rfc3339_known_value() {
    assert_eq!(rfc3339(1_767_323_045), "2026-01-02T03:04:05Z");
}

#[test]
fn stamps_read_back() {
    for secs in [0, 951_782_400, 1_704_164_645, 4_102_444_799] {
        assert_eq!(parse_rfc3339(&rfc3339(secs)), secs as i64);
    }
    assert_eq!(rfc3339(951_782_400), "2000-02-29T00:00:00Z");
}

#[test]
fn assemble_lists_stopped_and_dangling() {
    let mut c = container("abc123def456", "/old-api", false);
    c.size_rw = Some(310);
    let img = image(vec!["<none>:<none>".into()]);
    let snap = assemble(&vec![c], &vec![img], &None, None);
    assert!(snap.ok);
    assert_eq!(snap.resources.len(), 2);
    assert_eq!(snap.resources[0].name, "old-api");
    assert_eq!(snap.resources[0].detail, "stopped");
    assert_eq!(snap.resources[1].kind, DockerKind::DanglingImage);
    assert_eq!(snap.resources[1].size_bytes, 1_000_000);
}

#[test]
fn volumes_are_attached_through_their_containers() {
    let mut c = container("abc", "/db", true);
    c.mounts = Some(vec![Some("pgdata".into())]);
    let volume = |name: &str| VolumeFacts {
        name: name.into(),
        labels: vec![],
        usage_size: Some(42),
        created_at: Some("2024-01-02T03:04:05Z".into()),
    };
    let snap = assemble(&vec![c], &vec![], &Some(vec![volume("pgdata"), volume("spare")]), Some(7));
    let of = |name: &str| snap.resources.iter().find(|r| r.name == name).unwrap();
    assert_ne!(of("pgdata").detail, "unused");
    assert_eq!(of("spare").detail, "unused");
    assert_eq!(of("spare").created, 1_704_164_645);
    assert!(of("spare").persistent);
    assert!(snap.resources.iter().any(|r| r.kind == DockerKind::BuildCache));
    assert!(snap.reclaimable_bytes <= snap.disk_bytes);
}

#[test]
fn each_kind_is_removed_its_own_way() {
    let res = |kind: DockerKind| DockerResource {
        kind,
        id: "id".into(),
        name: "name".into(),
        detail: String::new(),
        size_bytes: 0,
        compose: None,
        persistent: false,
        anonymous: false,
        created: 0,
    };
    assert!(matches!(remove_blocking(&res(DockerKind::Container)), Removal::Container(i) if i == "id"));
    assert!(matches!(remove_blocking(&res(DockerKind::DanglingImage)), Removal::Image(_)));
    assert!(matches!(remove_blocking(&res(DockerKind::Volume)), Removal::Volume(_)));
    assert!(matches!(remove_blocking(&res(DockerKind::BuildCache)), Removal::BuildCache));
    assert_eq!(prune_report(&vec![true, false, true]), (2, 0));
}

#[test]
fn a_listener_is_listed_once_for_each_process() {
    let socket = |port: u16, listening: bool, pids: Vec<u32>| SocketFacts {
        address: IpAddr::V4(127, 0, 0, 1),
        port,
        listening,
        pids,
    };
    let ports =
        scan(&vec![socket(80, true, vec![5, 6]), socket(81, false, vec![7]), socket(82, true, vec![])]);
    let seen: Vec<(u16, u32)> = ports.iter().map(|p| (p.port, p.pid)).collect();
    assert_eq!(seen, [(80, 5), (80, 6)]);
}

fn item(pids: &[u32], children: Vec<RuntimeItem>) -> RuntimeItem {
    RuntimeItem {
        category: Category::UnknownDev,
        display_name: "sleep".into(),
        root_pid: pids.first().copied(),
        process_ids: pids.to_vec(),
        memory_bytes: 0,
        state: RuntimeState::Active,
        suspicion: None,
        ports: Vec::new(),
        project: None,
        children,
    }
}

fn proc(pid: u32, ppid: Option<u32>, start: u64) -> ProcessInfo {
    ProcessInfo {
        pid,
        parent_pid: ppid,
        name: "p".into(),
        command: vec!["p".into()],
        executable: None,
        cwd: None,
        memory_bytes: 0,
        start_time: start,
        tty: None,
    }
}

#[test]
fn postorder_is_deepest_first() {
    let tree = item(&[1], vec![item(&[2], vec![item(&[3, 4], vec![])])]);
    let snap = vec![
        proc(1, None, 10),
        proc(2, Some(1), 11),
        proc(3, Some(2), 12),
        proc(4, Some(2), 13),
        proc(99, Some(1), 14),
    ];
    let ids = identities_for(&tree, &snap);
    let pids: Vec<u32> = ids.iter().map(|i| i.pid).collect();
    assert_eq!(pids.last().copied(), Some(1), "root last");
    let pos = |pid| pids.iter().position(|&p| p == pid).unwrap();
    assert!(pos(3) < pos(2));
    assert!(pos(4) < pos(2));
    assert!(pos(2) < pos(1));
    assert!(!pids.contains(&99), "do not killpg the whole OS tree");
}

#[test]
fn reused_pid_is_not_signaled() {
    let id = Identity { pid: 4242, start_time: 1 };
    assert!(!identity_holds(&id, Some(1_750_000_000)));
    assert!(!identity_holds(&id, None));
    let out = report(&vec![Reply::NotAsked]);
    assert_eq!(out, KillReport { signaled: 0, skipped: 1, failed: 0 });
}

#[test]
fn replies_are_counted_by_kind() {
    assert!(identity_holds(&Identity { pid: 1, start_time: 7 }, Some(7)));
    let out = report(&vec![Reply::Delivered, Reply::Refused(1), Reply::Delivered, Reply::NotAsked]);
    assert_eq!(out, KillReport { signaled: 2, skipped: 1, failed: 1 });
}

#[test]
fn fractions_are_passed_and_offsets_subtracted() {
    let at = 1_704_164_645;
    assert_eq!(parse_rfc3339("2024-01-02T03:04:05.5Z"), at);
    assert_eq!(parse_rfc3339("2024-01-02T03:04:05.999+02:30"), at - 9_000);
    assert_eq!(parse_rfc3339("2024-01-02T03:04:05-05:00"), at + 18_000);
    assert_eq!(parse_rfc3339("1970-01-01T00:00:00+10:00"), 0);
    assert_eq!(parse_rfc3339(&rfc3339(253_402_300_799)), 253_402_300_799);
    assert_eq!(rfc3339(253_402_300_799), "9999-12-31T23:59:59Z");
}

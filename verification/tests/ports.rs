use wyd::model::boot::BootId;
use wyd::model::port::{IpAddr, ListeningPort, Protocol};
use wyd::model::process::{ProcessIdentity, ProcessInfo};
use wyd::classify::group::group;
use wyd::classify::ownership::{derive_ownership, identities};
use wyd::ports::{collect, render_plain, OwnerFact, PortEntry, Provenance};

fn port(port: u16, pid: u32) -> ListeningPort {
    ListeningPort { protocol: Protocol::Tcp, address: IpAddr::V4(127, 0, 0, 1), port, pid }
}

fn proc(pid: u32, ppid: Option<u32>, name: &str) -> ProcessInfo {
    ProcessInfo {
        pid,
        parent_pid: ppid,
        name: name.into(),
        command: vec![name.into()],
        executable: None,
        cwd: None,
        memory_bytes: 0,
        start_time: 1000 + pid as u64,
        tty: None,
    }
}

#[test]
fn sorts_by_port() {
    let ports = vec![port(8080, 10), port(3000, 11), port(5001, 12)];
    let out = collect(&ports, &Vec::new(), &None, &Vec::new());
    assert_eq!(out.iter().map(|e| e.port).collect::<Vec<_>>(), vec![3000, 5001, 8080]);
}

#[test]
fn process_name_is_resolved_and_absent_tolerated() {
    let procs = vec![proc(10, Some(1), "node")];
    let out = collect(&vec![port(3000, 10), port(3001, 99)], &procs, &None, &Vec::new());
    assert_eq!(out[0].process.as_deref(), Some("node"));
    assert_eq!(out[1].process, None);
}

#[test]
fn source_is_reported_without_provenance() {
    let procs = vec![proc(1, None, "launchd"), proc(10, Some(1), "node")];
    let out = collect(&vec![port(3000, 10)], &procs, &None, &Vec::new());
    assert_eq!(out[0].source.as_deref(), Some("launchd"));
    assert!(out[0].owner_agent.is_none());
}

#[test]
fn plain_renders_session_and_source_rows() {
    let entries = vec![
        PortEntry {
            address: "127.0.0.1".into(),
            port: 3000,
            pid: 10,
            process: Some("node".into()),
            owner_agent: Some("opencode".into()),
            owner_session: Some("abc123".into()),
            owner_state: Some("active".into()),
            source: None,
        },
        PortEntry {
            address: "0.0.0.0".into(),
            port: 5001,
            pid: 11,
            process: Some("postgres".into()),
            owner_agent: None,
            owner_session: None,
            owner_state: None,
            source: Some("systemd (postgresql.service)".into()),
        },
    ];
    let text = render_plain(&entries);
    assert!(text.contains("127.0.0.1:3000  node (10)  session opencode (active)"));
    assert!(text.contains("0.0.0.0:5001  postgres (11)  systemd (postgresql.service)"));
}

#[test]
fn plain_empty_is_none() {
    assert_eq!(render_plain(&Vec::new()), "none");
}

#[test]
fn ipv6_is_bracketed_in_plain() {
    let entries = vec![PortEntry {
        address: "::".into(),
        port: 3306,
        pid: 1,
        process: Some("db".into()),
        owner_agent: None,
        owner_session: None,
        owner_state: None,
        source: Some("launchd".into()),
    }];
    assert!(render_plain(&entries).contains("[::]:3306  db (1)  launchd"));
}

#[test]
fn owner_session_is_reported() {
    let iproc = |pid: u32, ppid: Option<u32>, name: &str, cmd: &[&str], start: u64| ProcessInfo {
        pid,
        parent_pid: ppid,
        name: name.into(),
        command: cmd.iter().map(|s| s.to_string()).collect(),
        executable: None,
        cwd: None,
        memory_bytes: 0,
        start_time: start,
        tty: None,
    };
    let boot = BootId::from_u128(7);
    let procs = vec![
        iproc(1, None, "launchd", &["launchd"], 1),
        iproc(100, Some(1), "omp", &["omp"], 1000),
        iproc(110, Some(100), "node", &["node", "chrome-devtools-mcp"], 1004),
    ];
    let out = derive_ownership(&group(&procs, &Vec::new()), &identities(&procs, &boot), 5000);
    let mut owners = Vec::new();
    for o in &out.owned {
        let session = out.sessions.iter().find(|s| s.id == o.session).unwrap();
        for m in &o.members {
            owners.push(OwnerFact {
                identity: *m,
                agent: session.agent.clone(),
                session: session.id,
                ended: session.ended_at.is_some(),
            });
        }
    }
    let prov = Some(Provenance { boot, owners });
    let entries = collect(&vec![port(3000, 110)], &procs, &prov, &Vec::new());
    assert_eq!(entries[0].owner_agent.as_deref(), Some("omp"));
    assert_eq!(entries[0].owner_state.as_deref(), Some("active"));
    assert_eq!(entries[0].process.as_deref(), Some("node"));
    assert!(entries[0].source.is_none());
}

#[test]
fn a_reused_pid_has_no_owner() {
    let boot = BootId::from_u128(7);
    let procs = vec![proc(1, None, "launchd"), proc(10, Some(1), "node")];
    let earlier = ProcessIdentity { boot_id: boot, pid: 10, start_time: 5 };
    let prov = Some(Provenance {
        boot,
        owners: vec![OwnerFact {
            identity: earlier,
            agent: "omp".into(),
            session: wyd::model::session::RuntimeSessionId::from_u64(1),
            ended: false,
        }],
    });
    let out = collect(&vec![port(3000, 10)], &procs, &prov, &Vec::new());
    assert!(out[0].owner_agent.is_none());
    assert_eq!(out[0].source.as_deref(), Some("launchd"));
}

#[test]
fn an_ended_session_is_told_as_such() {
    let boot = BootId::from_u128(7);
    let procs = vec![proc(10, Some(1), "node")];
    let id = ProcessIdentity { boot_id: boot, pid: 10, start_time: 1010 };
    let prov = Some(Provenance {
        boot,
        owners: vec![OwnerFact {
            identity: id,
            agent: "omp".into(),
            session: wyd::model::session::RuntimeSessionId::from_u64(0xabc),
            ended: true,
        }],
    });
    let out = collect(&vec![port(3000, 10)], &procs, &prov, &Vec::new());
    assert_eq!(out[0].owner_state.as_deref(), Some("ended"));
    assert_eq!(out[0].owner_session.as_deref(), Some("0000000000000abc"));
}

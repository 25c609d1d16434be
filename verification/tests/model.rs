use wyd::model::boot::{BootEpoch, BootId, BootResolution};
use wyd::model::docker::{DockerKind, DockerResource, DockerSnapshot};
use wyd::model::exit::exit_code_of;
use wyd::model::port::{IpAddr, ListeningPort, Protocol};
use wyd::model::process::{ProcessIdentity, ProcessInfo};
use wyd::model::run::{
    backend_capabilities, Capability, CleanupState, Enforcement, Platform, ResourceRequest, RunId,
    RunOutcome, RunSpec, RunState,
};
use wyd::time::Duration;

#[test]
fn linux_epoch_uses_uuid_directly() {
    let epoch = BootEpoch::Linux(0x0123456789abcdef0123456789abcdef);
    let wanted = BootId::from_u128(0x0123456789abcdef0123456789abcdef);
    assert_eq!(epoch.resolution(), BootResolution::Direct(wanted), "no persisted id is asked for");
    let id = epoch.to_boot_id::<String>(Err("unused".into())).unwrap();
    assert_eq!(id, wanted);
}

#[test]
fn macos_epoch_routes_through_resolver_and_is_stable() {
    let boot_a = BootEpoch::Macos { sec: 1000, usec: 5 };
    let boot_b = BootEpoch::Macos { sec: 2000, usec: 0 };
    let mut kept: Vec<(BootEpoch, BootId)> = Vec::new();
    let mut resolve = |epoch: BootEpoch| -> Result<BootId, String> {
        if let Some(hit) = kept.iter().find(|(e, _)| *e == epoch) {
            return Ok(hit.1);
        }
        let id = BootId::random(Some([kept.len() as u8 + 1; 16]), 0, 0);
        kept.push((epoch, id));
        Ok(id)
    };

    assert_eq!(boot_a.resolution(), BootResolution::Persisted(boot_a));
    let a1 = boot_a.to_boot_id(resolve(boot_a)).unwrap();
    let a2 = boot_a.to_boot_id(resolve(boot_a)).unwrap();
    let b1 = boot_b.to_boot_id(resolve(boot_b)).unwrap();

    assert_eq!(a1, a2, "same boot epoch → same BootId");
    assert_ne!(a1, b1, "different boot epoch → different BootId");
    assert_eq!(boot_a.to_boot_id::<u8>(Err(3)), Err(3));
}

#[test]
fn random_ids_are_distinct() {
    assert_ne!(BootId::random(Some([1; 16]), 0, 0), BootId::random(Some([2; 16]), 0, 0));
    // Without entropy the clock and the pid still tell two ids apart.
    assert_ne!(BootId::random(None, 10, 1), BootId::random(None, 11, 1));
    assert_ne!(BootId::random(None, 10, 1), BootId::random(None, 10, 2));
}

#[test]
fn boot_ids_round_trip_through_bytes() {
    let id = BootId::from_u128(0x0123456789abcdef0123456789abcdef);
    assert_eq!(BootId::from_le_bytes(id.to_le_bytes()), id);
    assert_eq!(id.as_u128(), 0x0123456789abcdef0123456789abcdef);
    assert_eq!(id.to_text(), "0123456789abcdef0123456789abcdef");
}

fn blank() -> ProcessInfo {
    ProcessInfo {
        pid: 1,
        parent_pid: None,
        name: String::new(),
        command: vec![],
        executable: None,
        cwd: None,
        memory_bytes: 0,
        start_time: 0,
        tty: None,
    }
}

#[test]
fn label_prefers_name_then_argv_then_exe() {
    let mut p = blank();
    p.name = "node".into();
    assert_eq!(p.label(), "node");
    p.name.clear();
    p.command = vec!["/usr/bin/node".into()];
    assert_eq!(p.label(), "/usr/bin/node");
    p.command.clear();
    p.executable = Some("/usr/bin/python3".into());
    assert_eq!(p.label(), "python3");
    p.executable = None;
    assert_eq!(p.label(), "?");
}

fn proc_with(pid: u32, start_time: u64) -> ProcessInfo {
    let mut p = blank();
    p.pid = pid;
    p.start_time = start_time;
    p
}

#[test]
fn valid_start_time_yields_identity() {
    let boot = BootId::from_u128(7);
    let id = ProcessIdentity::from_process(&boot, &proc_with(100, 1000))
        .expect("nonzero start_time");
    assert_eq!(id, ProcessIdentity { boot_id: boot, pid: 100, start_time: 1000 });
}

#[test]
fn zero_start_time_yields_none() {
    let boot = BootId::from_u128(7);
    assert!(ProcessIdentity::from_process(&boot, &proc_with(100, 0)).is_none());
}

#[test]
fn same_pid_same_start_is_same_identity() {
    let boot = BootId::from_u128(7);
    let a = ProcessIdentity::from_process(&boot, &proc_with(100, 1000)).unwrap();
    let b = ProcessIdentity::from_process(&boot, &proc_with(100, 1000)).unwrap();
    assert_eq!(a, b);
}

#[test]
fn same_pid_different_start_is_different_identity() {
    let boot = BootId::from_u128(7);
    let a = ProcessIdentity::from_process(&boot, &proc_with(100, 1000)).unwrap();
    let b = ProcessIdentity::from_process(&boot, &proc_with(100, 2000)).unwrap();
    assert_ne!(a, b, "PID reuse must yield a different identity");
}

#[test]
fn different_boot_is_different_identity() {
    let a = ProcessIdentity::from_process(&BootId::from_u128(1), &proc_with(100, 1000)).unwrap();
    let b = ProcessIdentity::from_process(&BootId::from_u128(2), &proc_with(100, 1000)).unwrap();
    assert_ne!(a, b, "identical pid/start across boots must differ");
}

fn p(address: IpAddr, port: u16) -> ListeningPort {
    ListeningPort { protocol: Protocol::Tcp, address, port, pid: 1 }
}

#[test]
fn url_is_clickable_localhost() {
    assert_eq!(p(IpAddr::V4(0, 0, 0, 0), 5555).url(), "http://127.0.0.1:5555");
    assert_eq!(p(IpAddr::V4(127, 0, 0, 1), 3000).url(), "http://127.0.0.1:3000");
    assert_eq!(
        p(IpAddr::V6 { bits: 0, text: "::".into() }, 5173).url(),
        "http://127.0.0.1:5173"
    );
}

#[test]
fn other_addresses_keep_their_spelling() {
    assert_eq!(p(IpAddr::V4(10, 0, 0, 7), 80).url(), "http://10.0.0.7:80");
    assert_eq!(
        p(IpAddr::V6 { bits: 0xfe80 << 112, text: "fe80::".into() }, 80).url(),
        "http://[fe80::]:80"
    );
    assert_eq!(IpAddr::V4(10, 0, 0, 7).spell(), "10.0.0.7");
    assert!(IpAddr::V4(127, 9, 9, 9).is_loopback());
    assert!(!IpAddr::V4(126, 9, 9, 9).is_loopback());
    assert_eq!(Protocol::Tcp.as_str(), "tcp");
}

#[test]
fn state_roundtrips_through_strings() {
    for s in [
        RunState::Queued,
        RunState::Starting,
        RunState::Running,
        RunState::Stopping,
        RunState::Finished,
    ] {
        assert_eq!(RunState::parse(s.as_str()), Some(s));
    }
    for o in [
        RunOutcome::Exited,
        RunOutcome::Signaled,
        RunOutcome::TimedOut,
        RunOutcome::Cancelled,
        RunOutcome::SpawnFailed,
        RunOutcome::SupervisorLost,
        RunOutcome::ResourceLimit,
    ] {
        assert_eq!(RunOutcome::parse(o.as_str()), Some(o));
    }
    for c in [
        CleanupState::Pending,
        CleanupState::Complete,
        CleanupState::Incomplete,
        CleanupState::Unknown,
    ] {
        assert_eq!(CleanupState::parse(c.as_str()), Some(c));
    }
    assert_eq!(RunState::parse("nope"), None);
}

#[test]
fn fingerprint_ignores_timing_and_log_limits() {
    let a = RunSpec::new("k", vec!["echo".into(), "hi".into()], "/tmp".into());
    let mut b = a.clone();
    b.timeout = Duration::from_secs(1);
    b.grace = Duration::from_secs(9);
    b.log_limit_bytes = 7;
    assert_eq!(a.fingerprint(), b.fingerprint());
    b.argv.push("extra".into());
    assert_ne!(a.fingerprint(), b.fingerprint());
}

#[test]
fn fingerprint_tells_commands_and_directories_apart() {
    let a = RunSpec::new("k", vec!["echo".into(), "hi/a".into()], "/b".into());
    let b = RunSpec::new("k", vec!["echo".into(), "hi".into()], "/a/b".into());
    assert_ne!(a.fingerprint(), b.fingerprint());
    assert_ne!(a.fingerprint_bytes(), b.fingerprint_bytes());
    let mut c = a.clone();
    c.timeout = Duration::from_secs(1);
    c.grace = Duration::from_secs(9);
    c.log_limit_bytes = 7;
    assert_eq!(a.fingerprint(), c.fingerprint());

    let mut rooted = b.clone();
    rooted.cwd = "/a".into();
    rooted.project_root = Some("/b".into());
    assert_ne!(rooted.fingerprint(), b.fingerprint());
    assert_eq!(
        RunSpec::new("k", vec!["a".into()], "/".into()).fingerprint_bytes(),
        [b'k', 0xff, 1, b'a', 0xff, 0, b'/', 0xff, 0, 0]
    );
}

#[test]
fn fingerprint_is_the_digest_of_the_identity_bytes() {
    let a = RunSpec::new("k", vec!["echo".into(), "hi".into()], "/tmp".into());
    assert_eq!(a.fingerprint(), blake3::hash(&a.fingerprint_bytes()).to_hex().to_string());
    assert_eq!(a.fingerprint().len(), 64);
}

#[test]
fn capabilities_never_claim_a_hard_limit_we_lack() {
    let caps = backend_capabilities(Platform::Linux, false);
    assert!(matches!(caps.process_group_cleanup, Capability::Available));
    assert!(matches!(caps.queue, Capability::Available));
    assert!(matches!(caps.cpu_quota, Capability::Unavailable(_)));
    assert!(matches!(caps.process_limit, Capability::Unavailable(_)));
    assert!(matches!(caps.filesystem_isolation, Capability::Unavailable(_)));
    assert!(
        matches!(caps.aggregate_memory_limit, Capability::Unavailable(_)),
        "without a cgroup v2 backend, hard memory must be unavailable"
    );
    let mac = backend_capabilities(Platform::Macos, false);
    assert!(
        matches!(mac.aggregate_memory_limit, Capability::Monitored(_)),
        "macOS memory is monitored, not enforced"
    );
}

#[test]
fn a_delegated_cgroup_makes_the_limits_hard() {
    let caps = backend_capabilities(Platform::Linux, true);
    assert!(matches!(caps.aggregate_memory_limit, Capability::Available));
    assert!(matches!(caps.cpu_quota, Capability::Available));
    assert!(matches!(caps.process_limit, Capability::Available));
    assert!(matches!(caps.filesystem_isolation, Capability::Unavailable(_)));
}

#[test]
fn a_new_spec_has_the_documented_defaults() {
    let s = RunSpec::new("k", vec!["true".into()], "/".into());
    assert_eq!(s.timeout.as_secs(), 600);
    assert_eq!(s.grace.as_secs(), 3);
    assert_eq!(s.log_limit_bytes, 10 * 1024 * 1024);
    assert_eq!(s.resources, ResourceRequest::default());
    assert_eq!(s.resources.enforcement, Enforcement::Off);
    assert_eq!(RunId(-3).to_text(), "-3");
}

#[test]
fn callers_can_tell_how_a_run_ended() {
    assert_eq!(exit_code_of(Some(RunOutcome::Exited), Some(7), None), 7);
    assert_eq!(exit_code_of(Some(RunOutcome::Signaled), None, Some(9)), 137);
    assert_eq!(exit_code_of(Some(RunOutcome::Signaled), None, Some(15)), 143);
    assert_eq!(exit_code_of(Some(RunOutcome::TimedOut), None, None), 124);
    assert_eq!(exit_code_of(Some(RunOutcome::Cancelled), None, None), 130);
    assert_eq!(exit_code_of(Some(RunOutcome::SpawnFailed), None, None), 125);
    assert_eq!(exit_code_of(Some(RunOutcome::ResourceLimit), None, None), 137);
}

fn resource(kind: DockerKind, detail: &str, size: u64) -> DockerResource {
    DockerResource {
        kind,
        id: "id".into(),
        name: "name".into(),
        detail: detail.into(),
        size_bytes: size,
        compose: None,
        persistent: false,
        anonymous: false,
        created: 0,
    }
}

#[test]
fn only_unattached_anonymous_volumes_are_prunable() {
    let running = resource(DockerKind::Container, "running", 5);
    let stopped = resource(DockerKind::Container, "exited", 7);
    let named = resource(DockerKind::Volume, "unused", 11);
    let mut anonymous = resource(DockerKind::Volume, "unused", 13);
    anonymous.anonymous = true;
    let mut attached = resource(DockerKind::Volume, "in use", 17);
    attached.anonymous = true;
    assert!(running.running());
    assert!(!stopped.running());
    assert!(!stopped.prunable());
    assert!(!named.prunable());
    assert!(anonymous.prunable());
    assert!(!attached.prunable());
    let snap = DockerSnapshot {
        ok: true,
        note: String::new(),
        disk_bytes: 53,
        reclaimable_bytes: 20,
        resources: vec![running, stopped, named, anonymous, attached],
    };
    assert_eq!(snap.prunable_stats(), (1, 13));
    assert_eq!(DockerSnapshot::down("no docker").prunable_stats(), (0, 0));
}

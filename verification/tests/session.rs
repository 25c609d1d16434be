use wyd::model::boot::BootId;
use wyd::model::process::ProcessIdentity;
use wyd::model::project::Project;
use wyd::model::session::{RuntimeSession, RuntimeSessionId};

fn boot(id: u128) -> BootId {
    BootId::from_u128(id)
}

fn root(boot_id: BootId, pid: u32, start_time: u64) -> ProcessIdentity {
    ProcessIdentity { boot_id, pid, start_time }
}

#[test]
fn id_is_stable_for_same_invocation() {
    let a = RuntimeSessionId::new(&boot(1), &root(boot(1), 100, 1000), "aider");
    let b = RuntimeSessionId::new(&boot(1), &root(boot(1), 100, 1000), "aider");
    assert_eq!(a, b);
}

#[test]
fn restart_is_a_new_session() {
    let a = RuntimeSessionId::new(&boot(1), &root(boot(1), 100, 1000), "aider");
    let b = RuntimeSessionId::new(&boot(1), &root(boot(1), 100, 5000), "aider");
    assert_ne!(a, b);
}

#[test]
fn different_agent_is_a_new_session() {
    let a = RuntimeSessionId::new(&boot(1), &root(boot(1), 100, 1000), "aider");
    let b = RuntimeSessionId::new(&boot(1), &root(boot(1), 100, 1000), "codex");
    assert_ne!(a, b);
}

#[test]
fn different_boot_is_a_new_session() {
    let a = RuntimeSessionId::new(&boot(1), &root(boot(1), 100, 1000), "aider");
    let b = RuntimeSessionId::new(&boot(2), &root(boot(2), 100, 1000), "aider");
    assert_ne!(a, b);
}

#[test]
fn project_is_not_part_of_identity() {
    let base = root(boot(1), 100, 1000);
    let a = Project { name: "queryknight".into(), root: "/src/queryknight".into() };
    let b = Project { name: "databoundary".into(), root: "/src/databoundary".into() };
    let s1 = RuntimeSession::new("aider", base, Some(a), 5000);
    let s2 = RuntimeSession::new("aider", base, Some(b), 5000);
    assert_eq!(s1.id, s2.id, "project must not change session identity");
}

#[test]
fn new_session_uses_process_start_time() {
    let s = RuntimeSession::new("aider", root(boot(1), 100, 1000), None, 5000);
    assert_eq!(s.started_at, 1000, "started_at = process start_time");
    assert_eq!(s.last_seen_at, 5000);
    assert_eq!(s.ended_at, None);
}

#[test]
fn session_ids_are_spelled_with_sixteen_hex_digits() {
    assert_eq!(RuntimeSessionId::from_u64(0xabc).to_text(), "0000000000000abc");
    assert_eq!(RuntimeSessionId::from_u64(u64::MAX).to_text(), "ffffffffffffffff");
    assert_eq!(RuntimeSessionId::from_u64(7).as_u64(), 7);
}

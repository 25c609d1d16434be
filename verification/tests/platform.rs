use wyd::model::boot::{BootEpoch, BootId};
use wyd::platform::boot::{parse_boot_id, BootError, BootIdentityProvider, SystemBoot};
use wyd::platform::cgroup::{
    candidates, discover, itoa, millicores_of, own_cgroup_path, qualify, quota_for_millicores,
    read_kv, Cgroup, CgroupLimits, CgroupRoot, Qualification, Tried, CPU_PERIOD_US,
};
use wyd::platform::linux::{decode_dev, name_of, parse_pgid, parse_tty_nr, tty_of};
use wyd::platform::pgroup::{
    all_pids, group_has_known_member, group_identities, group_usage, identity_holds,
    identity_of_pid, may_signal_group, members_of_group, signal_group_result, GroupSignal,
};

const UUID: &str = "6fbe5d5c-a1a2-4b3c-9d4e-5f6a7b8c9d0e";

#[test]
fn system_boot_is_stable_within_run() {
    let boot = SystemBoot::Linux { boot_id: Some(format!("{UUID}\n")) };
    let a = boot.current_boot_epoch().unwrap();
    let b = boot.current_boot_epoch().unwrap();
    assert_eq!(a, b);
}

#[test]
fn parses_hyphenated_boot_uuid() {
    let id = parse_boot_id("6fbe5d5c-a1a2-4b3c-9d4e-5f6a7b8c9d0e\n").unwrap();
    assert_eq!(id, 0x6fbe5d5ca1a24b3c9d4e5f6a7b8c9d0e);
}

#[test]
fn rejects_malformed_uuid() {
    assert!(parse_boot_id("zzzz").is_err());
    assert!(parse_boot_id("").is_err());
    assert!(parse_boot_id("0123456789abcdef0123456789abcde").is_err());
}

#[test]
fn parses_unhyphenated_uuid() {
    let id = parse_boot_id("6fbe5d5ca1a24b3c9d4e5f6a7b8c9d0e").unwrap();
    assert_eq!(id, 0x6fbe5d5ca1a24b3c9d4e5f6a7b8c9d0e);
}

#[test]
fn macos_prefers_stable_bootsessionuuid_over_boottime() {
    let epoch = SystemBoot::Macos { uuid: Some(UUID.into()), boottime: Some((1000, 5)) }
        .current_boot_epoch()
        .expect("boot epoch readable");
    assert!(
        matches!(epoch, BootEpoch::MacosUuid(_)),
        "macOS must report the stable per-boot UUID, got clock-derived {epoch:?}"
    );
}

#[test]
fn macos_falls_back_to_the_boot_time() {
    let epoch = SystemBoot::Macos { uuid: None, boottime: Some((1000, 5)) }.current_boot_epoch();
    assert_eq!(epoch, Ok(BootEpoch::Macos { sec: 1000, usec: 5 }));
    let nothing = SystemBoot::Macos { uuid: None, boottime: None }.current_boot_epoch();
    assert_eq!(nothing, Err(BootError::Unavailable));
}

#[test]
fn an_unreadable_boot_id_is_told_from_a_malformed_one() {
    let none = SystemBoot::Linux { boot_id: None }.current_boot_epoch();
    assert_eq!(none, Err(BootError::Unavailable));
    let bad = SystemBoot::Linux { boot_id: Some("zzzz".into()) }.current_boot_epoch();
    assert_eq!(bad, Err(BootError::Malformed));
}

#[test]
fn parse_skips_comm_with_parens() {
    let stat = "42 (weird ) name) S 1 1 1 34818 1 0 0";
    assert_eq!(parse_tty_nr(stat), Some(34818));
}

#[test]
fn zero_tty_is_none() {
    assert_eq!(name_of(0), None);
    assert_eq!(parse_tty_nr("1 (init) S 0 0 0 0 0"), Some(0));
}

#[test]
fn pts_from_unix98_major() {
    assert_eq!(name_of((136 << 8) | 2), Some("pts/2".into()));
    assert_eq!(decode_dev((136 << 8) | 2), (136, 2));
}

#[test]
fn console_and_serial() {
    assert_eq!(name_of(4 << 8 | 1), Some("tty1".into()));
    assert_eq!(name_of(4 << 8 | 64), Some("ttyS0".into()));
}

#[test]
fn group_of_a_process_is_read_from_its_stat_line() {
    assert_eq!(parse_pgid("42 (weird ) name) S 1 77 1 34818 1 0 0"), Some(77));
    assert_eq!(parse_pgid("garbage"), None);
}

#[test]
fn terminal_comes_from_the_device_first() {
    let stat = Some("42 (sh) S 1 1 1 34818 1 0 0".to_string());
    assert_eq!(tty_of(&stat, &Some("/dev/pts/9".into())), Some("pts/2".into()));
    assert_eq!(tty_of(&None, &None), None);
}

#[test]
fn millicores_map_to_a_full_period_per_core() {
    assert_eq!(quota_for_millicores(1000), CPU_PERIOD_US, "one core");
    assert_eq!(quota_for_millicores(1500), 150_000, "1.5 cores");
    assert_eq!(quota_for_millicores(200), 20_000, "0.2 cores");
}

#[test]
fn quotas_read_back_as_millicores() {
    assert_eq!(Cgroup::cpu_max_millicores("20000 100000\n"), Some(200));
    assert_eq!(Cgroup::cpu_max_millicores("max 100000\n"), None);
    assert_eq!(millicores_of(150_000, 100_000), 1500);
    assert_eq!(Cgroup::pids_max("8\n"), Some(8));
    assert_eq!(Cgroup::pids_max("max\n"), None);
    assert_eq!(Cgroup::memory_max("33554432\n"), Some(32 << 20));
    assert_eq!(Cgroup::memory_max("max\n"), None);
}

#[test]
fn limits_become_one_write_each() {
    let cg = CgroupRoot::create_leaf("/sys/fs/cgroup/wyd", "run-1");
    assert_eq!(cg.path(), "/sys/fs/cgroup/wyd/run-1");
    let limits = CgroupLimits {
        memory_max_bytes: Some(32 * 1024 * 1024),
        pids_max: Some(8),
        ..CgroupLimits::default()
    };
    let (writes, applied) = cg.apply(&limits);
    assert_eq!(applied.memory_max_bytes, Some(32 * 1024 * 1024));
    assert_eq!(applied.pids_max, Some(8));
    let all: Vec<(String, String)> = writes.into_iter().map(|w| (w.path, w.value)).collect();
    assert_eq!(
        all,
        vec![
            ("/sys/fs/cgroup/wyd/run-1/memory.max".to_string(), "33554432".to_string()),
            ("/sys/fs/cgroup/wyd/run-1/pids.max".to_string(), "8".to_string()),
        ]
    );
    let kill = cg.kill();
    assert_eq!(kill.path, "/sys/fs/cgroup/wyd/run-1/cgroup.kill");
    assert_eq!(kill.value, "1");
    assert_eq!(cg.procs_path(), "/sys/fs/cgroup/wyd/run-1/cgroup.procs");
    assert_eq!(cg.create_child("x").path(), "/sys/fs/cgroup/wyd/run-1/x");
}

#[test]
fn kernel_counters_are_read_by_key() {
    let memory = "low 0\nhigh 0\nmax 4\noom 2\noom_kill 1\n";
    let e = Cgroup::events(memory, &Some("populated 1\nfrozen 0\n".into()));
    assert_eq!((e.memory_max_hits, e.oom, e.oom_kill, e.populated), (4, 2, 1, true));
    assert!(!Cgroup::populated(&Some("populated 0\n".into())));
    assert_eq!(read_kv("usage_usec 77\nuser_usec 5\n", "usage_usec"), Some(77));
    assert_eq!(Cgroup::cpu_usage_usec("usage_usec 77\n"), 77);
    assert_eq!(Cgroup::pids_max_hits("max 3\n"), 3);
    assert_eq!(read_kv("a 1\n", "b"), None);
}

#[test]
fn discovery_is_honest_about_missing_delegation() {
    let refused = discover(false, &Vec::new());
    assert!(refused.is_err());
    let tried = vec![
        Tried { path: "/sys/fs/cgroup/a".into(), outcome: Err("not writable".into()) },
        Tried { path: "/sys/fs/cgroup/b".into(), outcome: Ok(vec!["memory".into()]) },
    ];
    let root = discover(true, &tried).unwrap();
    assert_eq!(root.path(), "/sys/fs/cgroup/b");
    assert_eq!(root.controllers(), &vec!["memory".to_string()]);
    let only_bad = vec![Tried { path: "/x".into(), outcome: Err("not writable".into()) }];
    assert!(discover(true, &only_bad).err().unwrap().contains("not writable"));
}

#[test]
fn a_directory_qualifies_with_its_controllers() {
    match qualify("/sys/fs/cgroup/w", "cpu memory pids", "cpu memory pids", false) {
        Qualification::Ready(c) => assert_eq!(c.len(), 3),
        _ => panic!("enabled controllers qualify"),
    }
    match qualify("/sys/fs/cgroup/w", "cpu memory pids", "", false) {
        Qualification::Enable(w) => {
            assert_eq!(w.path, "/sys/fs/cgroup/w/cgroup.subtree_control");
            assert!(w.value.contains("+memory"), "{}", w.value);
        },
        _ => panic!("available controllers are switched on"),
    }
    assert!(matches!(qualify("/w", "", "", false), Qualification::Refused(_)));
}

#[test]
fn candidate_directories_follow_the_own_group() {
    assert_eq!(
        own_cgroup_path("0::/user.slice/app.scope\n"),
        Some("/sys/fs/cgroup/user.slice/app.scope".to_string())
    );
    assert_eq!(
        candidates(&Some("/sys/fs/cgroup/mine".into()), &None),
        vec!["/sys/fs/cgroup/mine".to_string(), "/sys/fs/cgroup".to_string()]
    );
}

#[test]
fn pids_are_written_in_decimal() {
    let mut buf = [0u8; 12];
    let at = itoa(40312, &mut buf);
    assert_eq!(&buf[at..], b"40312");
    let at = itoa(0, &mut buf);
    assert_eq!(&buf[at..], b"0");
}

#[test]
fn group_membership_follows_the_table() {
    let table = vec![(10, Some(10)), (11, Some(10)), (12, Some(12)), (13, None)];
    assert_eq!(members_of_group(&table, 10), vec![10, 11]);
    assert!(!members_of_group(&table, 10).contains(&12));
    assert_eq!(all_pids(&vec!["1".into(), "self".into(), "42".into()]), vec![1, 42]);
}

#[test]
fn a_group_is_recognised_by_a_recorded_member() {
    let boot = BootId::from_u128(5);
    let live = group_identities(&vec![(10, Some(100)), (11, None), (12, Some(0))], &boot);
    assert_eq!(live.len(), 1);
    assert_eq!(live[0].pid, 10);
    let same = identity_of_pid(10, Some(100), &boot).unwrap();
    let reused = identity_of_pid(10, Some(200), &boot).unwrap();
    assert!(group_has_known_member(&live, &vec![same]));
    assert!(!group_has_known_member(&live, &vec![reused]));
    assert!(identity_holds(&same, Some(100)));
    assert!(!identity_holds(&same, Some(200)));
    assert!(!identity_holds(&same, None));
}

#[test]
fn usage_adds_up_what_could_be_read() {
    let u = group_usage(&vec![Some(10), None, Some(20)]);
    assert_eq!(u.memory_bytes, 30);
    assert_eq!(u.processes, 2);
}

#[test]
fn the_own_group_is_never_signaled() {
    assert!(!may_signal_group(0));
    assert!(may_signal_group(10));
    assert_eq!(signal_group_result(0, None), GroupSignal::RefusedOwnGroup);
    assert_eq!(signal_group_result(10, None), GroupSignal::Done);
    assert_eq!(signal_group_result(10, Some(3)), GroupSignal::Done, "already gone");
    assert!(matches!(signal_group_result(10, Some(1)), GroupSignal::Failed(1)));
}

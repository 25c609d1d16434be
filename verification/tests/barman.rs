use std::collections::HashMap;
use wyd::actions::process::KillReport;
use wyd::barman::action::{
    act, docker_report, merge_reports, signal_report, unknown_action, Act, ActionOutcome,
    BarmanAction,
};
use wyd::barman::document::{ResourceDoc, SnapshotDoc};
use wyd::barman::execute::{execute, only_ids, plan_steps};
use wyd::barman::ids::{container_id, project_id, resource_id, session_id};
use wyd::barman::plan::{
    cleanup_plan, new_plan_id, plan_file, plan_id_of, plans_dir, remember_plan, take_plan,
    CleanupItemDoc, CleanupPlanDoc,
};
use wyd::barman::snapshot::{build_snapshot, version_doc};
use wyd::demo::story;
use wyd::model::snapshot::RuntimeSnapshot;

const NOW: u64 = 1_750_000_000;

fn demo() -> RuntimeSnapshot {
    story::snapshot(NOW)
}

fn build(snap: &RuntimeSnapshot) -> SnapshotDoc {
    build_snapshot(snap, NOW, 1 << 40, "0.5.0")
}

fn done(a: Act) -> ActionOutcome {
    match a {
        Act::Done(o) => o,
        _ => panic!("nothing is left to do"),
    }
}

#[test]
fn snapshot_shape_and_ordering() {
    let doc = build(&demo());
    assert_eq!(doc.schema_version, 1);
    assert!(!doc.wyd_version.is_empty());
    assert!(doc.generated_at.ends_with('Z'));
    for ids in [
        doc.projects.iter().map(|p| &p.id).collect::<Vec<_>>(),
        doc.sessions.iter().map(|s| &s.id).collect::<Vec<_>>(),
        doc.resources.iter().map(|r| &r.id).collect::<Vec<_>>(),
        doc.containers.iter().map(|c| &c.id).collect::<Vec<_>>(),
    ] {
        let mut sorted = ids.clone();
        sorted.sort();
        assert_eq!(ids, sorted, "barman output must be sorted by id");
    }
    assert!(doc.resources.iter().all(|r| !r.actions.is_empty()));
    assert!(doc.containers.iter().all(|c| !c.actions.is_empty()));
    assert!(doc.resources.iter().all(|r| !r.name.contains('/') && !r.name.contains("--")));
}

#[test]
fn stable_ids_same_input() {
    let snap = demo();
    let a = build(&snap);
    let b = build(&snap);
    let ids = |d: &SnapshotDoc| d.resources.iter().map(|r| r.id.clone()).collect::<Vec<_>>();
    assert_eq!(ids(&a), ids(&b));
    assert!(a
        .resources
        .iter()
        .all(|r| r.id.starts_with("resource_") || r.id.starts_with("container_")));
    assert!(a.projects.iter().all(|p| p.id.starts_with("project_")));
    assert!(a.sessions.iter().all(|s| s.id.starts_with("session_")));
    assert!(a.containers.iter().all(|c| c.id.starts_with("container_")));
}

#[test]
fn stale_target_shape() {
    let snap = demo();
    for target in ["resource_deadbeef00", "container_nonexistent", "bogus"] {
        let out = done(act(&snap, target, &BarmanAction::Stop, true));
        assert!(!out.ok, "{target} should not resolve");
        assert!(out.stale, "{target} should be marked stale");
        assert_eq!(out.error.as_deref(), Some("stale target: re-refresh"));
        assert_eq!(out.target, target);
        assert_eq!(out.exit_status(), 2);
    }
}

#[test]
fn cleanup_plan_protects_databases() {
    let doc = build(&demo());
    let plan = cleanup_plan(&doc, NOW);
    let by_id: HashMap<&str, &ResourceDoc> =
        doc.resources.iter().map(|r| (r.id.as_str(), r)).collect();
    for item in &plan.items {
        let res = by_id.get(item.resource_id.as_str());
        assert!(
            res.map_or(true, |r| r.kind != "database"),
            "database {} must never be selected",
            item.resource_id
        );
        assert!(item.selected && item.safe);
    }
    assert!(plan
        .protected
        .iter()
        .any(|p| by_id.get(p.resource_id.as_str()).is_some_and(|r| r.kind == "database")));
    assert!(doc
        .resources
        .iter()
        .filter(|r| r.name == "pgdata")
        .all(|r| plan.protected.iter().any(|p| p.resource_id == r.id)));
    assert!(doc
        .resources
        .iter()
        .filter(|r| r.name == "anonymous-1")
        .all(|r| plan.items.iter().any(|i| i.resource_id == r.id)));
}

#[test]
fn plans_survive_across_invocations_but_are_single_use() {
    let plan = CleanupPlanDoc {
        plan_id: "cleanup_abc123".into(),
        items: vec![CleanupItemDoc {
            resource_id: "resource_x".into(),
            selected: true,
            safe: true,
            reason: "leftover".into(),
        }],
        protected: Vec::new(),
        estimated_reclaim_bytes: 0,
    };
    let kept = remember_plan(&plan, NOW);
    assert_eq!(plans_dir(&Some("/state".into()), "/x/runtime.db"), "/state/barman-plans");
    assert_eq!(plan_file("cleanup_abc123").as_deref(), Some("cleanup_abc123.json"));
    let mut slot = Some(kept.clone());
    assert_eq!(take_plan(&mut slot, NOW), Some(vec!["resource_x".to_string()]));
    assert_eq!(take_plan(&mut slot, NOW), None, "a plan that was taken is gone");
    assert_eq!(plan_file("cleanup_../../../etc"), None);
    assert_eq!(plan_file("plan_abc"), None);
    // And it does not live for long.
    assert_eq!(take_plan(&mut Some(kept.clone()), NOW + 299), Some(vec!["resource_x".to_string()]));
    let mut late = Some(kept);
    assert_eq!(take_plan(&mut late, NOW + 300), None);
    assert!(late.is_none(), "single-use, even when expired");
}

#[test]
fn demo_action_never_signals() {
    let snap = demo();
    let doc = build(&snap);
    let target = doc
        .resources
        .iter()
        .find(|r| r.classification == "leftover")
        .map(|r| r.id.clone())
        .unwrap();
    let out = done(act(&snap, &target, &BarmanAction::Stop, true));
    assert!(out.ok);
    assert_eq!(out.detail.as_deref(), Some("demo: no-op"));
    assert_eq!(out.exit_status(), 0);
}

#[test]
fn process_restart_unsupported_shape() {
    let snap = demo();
    let doc = build(&snap);
    let target = doc
        .resources
        .iter()
        .find(|r| r.id.starts_with("resource_"))
        .map(|r| r.id.clone())
        .unwrap();
    let out = done(act(&snap, &target, &BarmanAction::Restart, true));
    assert!(!out.ok && !out.stale);
    assert_eq!(out.error.as_deref(), Some("restart not supported for this resource"));
}

#[test]
fn demo_ids_stable_across_calls() {
    let mut a = story::snapshot(NOW);
    let mut b = story::snapshot(NOW + 7);
    story::stabilize_demo_times(&mut a);
    story::stabilize_demo_times(&mut b);
    let ids = |s: &RuntimeSnapshot| {
        build(s).resources.iter().map(|r| r.id.clone()).collect::<Vec<_>>()
    };
    assert_eq!(ids(&a), ids(&b));
}

#[test]
fn ids_are_made_of_what_they_name() {
    let hex = blake3::hash("mcp|1|p|n".as_bytes()).to_hex().to_string();
    assert_eq!(resource_id("mcp", 1, "p", "n"), format!("resource_{}", &hex[..12]));
    assert_ne!(resource_id("mcp", 1, "p", "n"), resource_id("mcp", 2, "p", "n"));
    assert_eq!(container_id("0123456789abcdef"), "container_0123456789ab");
    assert_eq!(project_id("My App_2"), "project_my-app-2");
    assert_eq!(project_id("ÉTÉ"), project_id("été"));
    assert_eq!(session_id(7), "session_0000000000000007");
}

#[test]
fn plan_ids_are_random_and_accepted() {
    let a = new_plan_id(NOW);
    let b = new_plan_id(NOW);
    assert_ne!(a, b);
    assert_eq!(a.len(), 20);
    assert!(plan_file(&a).is_some());
    assert_eq!(plan_id_of(&Some(vec![0, 1, 2, 3, 250, 255]), NOW), "cleanup_00010203faff");
    assert_ne!(plan_id_of(&None, 1), plan_id_of(&None, 2));
}

#[test]
fn actions_are_named() {
    assert_eq!(BarmanAction::parse("open-url"), Some(BarmanAction::OpenUrl));
    assert_eq!(BarmanAction::parse("STOP"), None);
    let out = unknown_action("t", "fly");
    assert!(!out.ok && !out.stale);
    assert_eq!(
        out.error.as_deref(),
        Some("unknown action \"fly\": want start|stop|restart|kill|open-url")
    );
    assert_eq!(out.exit_status(), 1);
}

#[test]
fn a_leftover_is_stopped_by_a_signal_outside_the_demo() {
    let snap = demo();
    let doc = build(&snap);
    let target = doc
        .resources
        .iter()
        .find(|r| r.id.starts_with("resource_") && r.classification == "leftover")
        .map(|r| r.id.clone())
        .unwrap();
    assert!(matches!(
        act(&snap, &target, &BarmanAction::Stop, false),
        Act::Signal { .. } | Act::SignalGroup { .. }
    ));
    let all = merge_reports(
        &vec![
            KillReport { signaled: 1, skipped: 0, failed: 0 },
            KillReport { signaled: 2, skipped: 1, failed: 0 },
        ],
        1,
    );
    assert_eq!(all, KillReport { signaled: 3, skipped: 2, failed: 0 });
    let ok = KillReport { signaled: 3, skipped: 0, failed: 0 };
    assert!(signal_report(&target, BarmanAction::Stop, &ok).ok);
    assert!(!signal_report(&target, BarmanAction::Stop, &KillReport::default()).ok);
    let refused = docker_report("c", BarmanAction::Stop, "stopped".into(), Err("no".into()));
    assert_eq!(refused.error.as_deref(), Some("no"));
    assert!(docker_report("c", BarmanAction::Stop, "stopped".into(), Ok(())).ok);
}

#[test]
fn a_plan_is_executed_step_by_step() {
    let snap = demo();
    let doc = build(&snap);
    let ids: Vec<String> = cleanup_plan(&doc, NOW).items.into_iter().map(|i| i.resource_id).collect();
    assert!(ids.len() > 1);
    let all = plan_steps(&snap, &doc, &Some(ids.clone()), &None).unwrap();
    assert_eq!(all.len(), ids.len());
    let one = plan_steps(&snap, &doc, &Some(ids.clone()), &Some(only_ids(&format!(" {} ,", ids[0]))));
    assert_eq!(one.as_ref().unwrap().len(), 1);
    assert_eq!(one.as_ref().unwrap()[0].id, ids[0]);
    let action = one.as_ref().unwrap()[0].action.unwrap_or(BarmanAction::Stop);
    let outcomes = vec![done(act(&snap, &ids[0], &action, true))];
    let out = execute("cleanup_ab", &one, &outcomes, &doc);
    assert!(out.ok);
    assert_eq!(out.stopped.len() + out.killed.len(), 1);
    assert!(out.failed.is_empty());
    let kept: Vec<String> = cleanup_plan(&doc, NOW).protected.into_iter().map(|p| p.resource_id).collect();
    let guarded = plan_steps(&snap, &doc, &Some(kept.clone()), &None);
    assert!(guarded.as_ref().unwrap().iter().all(|s| s.protected && s.action.is_none()));
    let idle = vec![outcomes[0].clone(); kept.len()];
    let refused = execute("cleanup_ab", &guarded, &idle, &doc);
    assert!(!refused.ok && refused.stopped.is_empty() && refused.killed.is_empty());
    assert_eq!(refused.failed.len(), kept.len());
    let gone = execute("cleanup_ab", &None, &Vec::new(), &doc);
    assert!(!gone.ok);
    assert!(gone.error.is_some());
}

#[test]
fn the_version_is_handed_through() {
    let v = version_doc("0.5.0");
    assert_eq!((v.schema_version, v.wyd_version.as_str()), (1, "0.5.0"));
}

#[test]
fn every_chosen_id_is_accounted_for() {
    let snap = demo();
    let doc = build(&snap);
    let ids: Vec<String> = cleanup_plan(&doc, NOW).items.into_iter().map(|i| i.resource_id).collect();
    let mut chosen = ids.clone();
    chosen.push("container_gone".into());
    let steps = plan_steps(&snap, &doc, &Some(chosen.clone()), &None);
    let outcomes: Vec<ActionOutcome> = steps
        .iter()
        .flatten()
        .enumerate()
        .map(|(i, s)| match s.action {
            Some(a) if i != 0 => done(act(&snap, &s.id, &a, true)),
            _ => ActionOutcome::stale(&s.id, BarmanAction::Stop),
        })
        .collect();
    let out = execute("cleanup_ab", &steps, &outcomes, &doc);
    let mut told: Vec<String> = out.stopped.clone();
    told.extend(out.killed.clone());
    told.extend(out.failed.iter().map(|f| f.resource_id.clone()));
    told.sort();
    chosen.sort();
    assert_eq!(told, chosen);
    assert!(!out.ok && out.error.is_none());
    assert_eq!(out.failed.len(), 2);
}

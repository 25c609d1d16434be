use std::collections::HashMap;
use wyd::classify::group::group;
use wyd::classify::ownership::resolver::{
    resolve, AnchorKind, CandidateInput, Rejection, Verdict,
};
use wyd::classify::ownership::rules::{ResolverRules, RESOLVER_VERSION};
use wyd::classify::ownership::{derive_ownership, identities, ResourceId};
use wyd::model::boot::BootId;
use wyd::model::process::{ProcessIdentity, ProcessInfo};
use wyd::model::runtime::RuntimeItem;
use wyd::model::session::RuntimeSessionId;

const NOW: u64 = 5000;

fn boot() -> BootId {
    BootId::from_u128(7)
}

fn proc(pid: u32, ppid: Option<u32>, name: &str, cmd: &[&str], start: u64) -> ProcessInfo {
    ProcessInfo {
        pid,
        parent_pid: ppid,
        name: name.into(),
        command: cmd.iter().map(|s| (*s).to_string()).collect(),
        executable: None,
        cwd: None,
        memory_bytes: 40 << 20,
        start_time: start,
        tty: None,
    }
}

fn grouped(procs: &Vec<ProcessInfo>) -> Vec<RuntimeItem> {
    group(procs, &Vec::new())
}

fn known(procs: &Vec<ProcessInfo>) -> HashMap<u32, ProcessIdentity> {
    identities(procs, &boot())
}

fn agent_chain() -> Vec<ProcessInfo> {
    vec![
        proc(1, None, "launchd", &["launchd"], 1),
        proc(100, Some(1), "omp", &["omp"], 1000),
        proc(110, Some(100), "node", &["node", "chrome-devtools-mcp"], 1004),
        proc(120, Some(110), "Chromium", &["Chromium"], 1007),
    ]
}

#[test]
fn agent_tree_assigns_exact_ownership_to_descendants() {
    let procs = agent_chain();
    let items = grouped(&procs);
    let out = derive_ownership(&items, &known(&procs), NOW);

    assert_eq!(out.sessions.len(), 1);
    let session = &out.sessions[0];
    assert_eq!(session.agent, "omp");
    assert_eq!(session.started_at, 1000);

    assert_eq!(out.owned.len(), 2);
    for o in &out.owned {
        assert_eq!(o.session, session.id);
    }
    let mcp_root = ProcessIdentity::from_process(&boot(), &procs[2]).unwrap();
    let chrom_root = ProcessIdentity::from_process(&boot(), &procs[3]).unwrap();
    let ids: Vec<ResourceId> = out.owned.iter().map(|o| o.resource).collect();
    assert!(ids.contains(&ResourceId::of_root(&mcp_root)));
    assert!(ids.contains(&ResourceId::of_root(&chrom_root)));
}

#[test]
fn agent_with_zero_start_time_creates_no_session_or_ownership() {
    let mut procs = agent_chain();
    procs[1].start_time = 0;
    let items = grouped(&procs);
    let out = derive_ownership(&items, &known(&procs), NOW);
    assert!(out.sessions.is_empty());
    assert!(out.owned.is_empty());
}

#[test]
fn no_agent_means_no_ownership() {
    let procs = vec![
        proc(1, None, "launchd", &["launchd"], 1),
        proc(20, Some(1), "node", &["node", "node_modules/.bin/vite"], 200),
    ];
    let items = grouped(&procs);
    let out = derive_ownership(&items, &known(&procs), NOW);
    assert!(out.sessions.is_empty());
    assert!(out.owned.is_empty());
}

#[test]
fn two_agents_produce_two_sessions() {
    let mut procs = agent_chain();
    procs.push(proc(200, Some(1), "codex", &["codex"], 3000));
    procs.push(proc(210, Some(200), "node", &["node", "chrome-devtools-mcp"], 3005));
    let items = grouped(&procs);
    let out = derive_ownership(&items, &known(&procs), NOW);

    let mut agents: Vec<&str> = out.sessions.iter().map(|s| s.agent.as_str()).collect();
    agents.sort();
    assert_eq!(agents, ["codex", "omp"]);
    assert_eq!(out.owned.len(), 3);
}

#[test]
fn resource_id_is_stable_for_same_root() {
    let procs = agent_chain();
    let r = ProcessIdentity::from_process(&boot(), &procs[3]).unwrap();
    assert_eq!(ResourceId::of_root(&r), ResourceId::of_root(&r));
}

#[test]
fn resource_id_differs_across_roots() {
    let procs = agent_chain();
    let a = ProcessIdentity::from_process(&boot(), &procs[2]).unwrap();
    let b = ProcessIdentity::from_process(&boot(), &procs[3]).unwrap();
    assert_ne!(ResourceId::of_root(&a), ResourceId::of_root(&b));
}

fn rules() -> ResolverRules {
    ResolverRules::v1()
}

fn session(id: u64) -> RuntimeSessionId {
    RuntimeSessionId::from_u64(id)
}

fn base(sid: RuntimeSessionId) -> CandidateInput {
    CandidateInput {
        session: sid,
        anchor: Some(AnchorKind::Descendant),
        anchor_score: None,
        propagate_cap: None,
        exact_cwd: false,
        same_git_root: false,
        start_delta_secs: None,
        tool_relationship: false,
        predates_session: false,
        reaches_other_agent: false,
    }
}

#[test]
fn worked_example_scores_95_and_owns() {
    let mut c = base(session(1));
    c.anchor = Some(AnchorKind::Descendant);
    c.exact_cwd = true;
    c.start_delta_secs = Some(7);
    c.tool_relationship = true;

    let d = resolve(&rules(), vec![c]);
    assert_eq!(d.verdict, Verdict::Owned);
    assert_eq!(d.winner, Some(session(1)));
    assert_eq!(d.candidates[0].total, 95);
    assert_eq!(d.resolver_version, RESOLVER_VERSION);
}

#[test]
fn no_anchor_means_not_a_candidate() {
    let mut anchored = base(session(1));
    anchored.exact_cwd = true;
    anchored.start_delta_secs = Some(7);
    anchored.tool_relationship = true;

    let mut codex = base(session(2));
    codex.anchor = None;
    codex.exact_cwd = true;

    let d = resolve(&rules(), vec![anchored, codex]);
    assert_eq!(d.verdict, Verdict::Owned);
    assert_eq!(d.winner, Some(session(1)));
    assert_eq!(d.candidates.len(), 1, "Codex without an anchor is absent");
    assert_eq!(d.candidates[0].total, 95);
}

#[test]
fn close_candidates_are_ambiguous() {
    let mut a = base(session(1));
    a.exact_cwd = true;
    a.start_delta_secs = Some(7);
    let mut b = base(session(2));
    b.same_git_root = true;

    let d = resolve(&rules(), vec![a, b]);
    assert_eq!(d.verdict, Verdict::Ambiguous);
    assert_eq!(d.winner, None);
}

#[test]
fn weak_winner_is_never_selected() {
    let mut c = base(session(1));
    c.anchor = Some(AnchorKind::Propagated);
    c.anchor_score = Some(40);
    let d = resolve(&rules(), vec![c]);
    assert_eq!(d.verdict, Verdict::Unknown, "weak winner must not be selected");
}

#[test]
fn contradiction_rejects_the_candidate() {
    let mut c = base(session(1));
    c.exact_cwd = true;
    c.start_delta_secs = Some(7);
    c.predates_session = true;
    let d = resolve(&rules(), vec![c]);
    assert_eq!(d.verdict, Verdict::Unknown);
    assert!(d.candidates[0].rejected.is_some());
}

#[test]
fn propagation_never_exceeds_parent_score() {
    let mut c = base(session(1));
    c.exact_cwd = true;
    c.start_delta_secs = Some(7);
    c.tool_relationship = true;
    c.propagate_cap = Some(90);
    let d = resolve(&rules(), vec![c]);
    assert_eq!(d.candidates[0].total, 90, "capped by parent, not 95");
    assert_eq!(d.verdict, Verdict::Owned);
}

#[test]
fn project_cap_is_independent_of_temporal_and_relationship() {
    let mut c = base(session(1));
    c.exact_cwd = true;
    c.same_git_root = true;
    c.start_delta_secs = Some(3);
    c.tool_relationship = true;
    let d = resolve(&rules(), vec![c]);
    let cand = &d.candidates[0];
    assert_eq!(cand.project_support, 10, "family capped: not +18");
    assert_eq!(cand.total, 75 + 10 + 5 + 5);
}

#[test]
fn each_contradiction_has_its_own_rejection() {
    let mut early = base(session(1));
    early.predates_session = true;
    let mut foreign = base(session(2));
    foreign.reaches_other_agent = true;
    let d = resolve(&rules(), vec![early, foreign]);
    let why: Vec<Option<Rejection>> = d.candidates.iter().map(|c| c.rejected).collect();
    assert!(why.contains(&Some(Rejection::PredatesSession)));
    assert!(why.contains(&Some(Rejection::ReachesOtherAgent)));
    assert_eq!(d.verdict, Verdict::Unknown);
}

#[test]
fn temporal_support_fades_with_the_delay() {
    let support = |delta: Option<u64>| {
        let mut c = base(session(1));
        c.start_delta_secs = delta;
        resolve(&rules(), vec![c]).candidates[0].temporal_support
    };
    let r = rules();
    assert_eq!(support(Some(10)), r.temporal_10s);
    assert_eq!(support(Some(11)), r.temporal_60s);
    assert_eq!(support(Some(61)), r.temporal_5m);
    assert_eq!(support(Some(301)), 0);
    assert_eq!(support(None), 0);
}

#[test]
fn nothing_to_resolve_is_unknown() {
    let d = resolve(&rules(), vec![]);
    assert_eq!(d.verdict, Verdict::Unknown);
    assert_eq!(d.winner, None);
    assert!(d.candidates.is_empty());
}

#[test]
fn the_order_of_the_evidence_does_not_matter() {
    let mut strong = base(session(1));
    strong.exact_cwd = true;
    strong.start_delta_secs = Some(7);
    strong.tool_relationship = true;
    let weak = base(session(2));
    let mut out = base(session(3));
    out.exact_cwd = true;
    out.predates_session = true;
    let orders = [
        vec![strong, weak, out],
        vec![out, weak, strong],
        vec![weak, strong, out],
    ];
    let first = resolve(&rules(), orders[0].clone());
    for inputs in orders {
        let d = resolve(&rules(), inputs);
        assert_eq!(d.verdict, first.verdict);
        assert_eq!(d.winner, first.winner);
    }
}

//! The snapshot document.

use crate::barman::ids;
use crate::barman::ids::{
    container_id, kind_name, project_id, resource_id, session_id, session_project_id,
};
use crate::classify::forest;
use crate::classify::pids;
use crate::classify::pids::PidIndex;
use crate::model::docker::{DockerKind, DockerResource};
use crate::model::process::ProcessInfo;
use crate::model::runtime;
use crate::model::runtime::{ItemModel, RuntimeItem, RuntimeState, SuspicionReason};
use crate::model::session::SessionInfo;
use crate::sorting::Keyed;
use crate::text;
use crate::text::copy_opt;
use vstd::multiset::Multiset;
use vstd::prelude::*;

verus! {

/// Contract version that clients require.
pub const SCHEMA_VERSION: u32 = 1;

// ---------------------------------------------------------------------------
// Shapes
// ---------------------------------------------------------------------------

/// One coherent point-in-time view.
#[derive(Debug, Clone)]
pub struct SnapshotDoc {
    pub schema_version: u32,
    pub wyd_version: String,
    pub generated_at: String,
    pub system: SystemDoc,
    pub projects: Vec<ProjectDoc>,
    pub sessions: Vec<SessionDoc>,
    pub resources: Vec<ResourceDoc>,
    pub containers: Vec<ContainerDoc>,
    pub leftovers: LeftoversDoc,
}

/// Host gauges for a one-line status.
#[derive(Debug, Clone, Copy, PartialEq, Eq, Structural)]
pub struct SystemDoc {
    pub used_memory_bytes: u64,
    pub total_memory_bytes: u64,
    /// Free bytes on the root volume.
    pub free_disk_bytes: u64,
}

#[derive(Debug, Clone)]
pub struct ProjectDoc {
    pub id: String,
    pub name: String,
    pub agent: Option<String>,
    pub resource_count: usize,
    pub memory_bytes: u64,
    pub resource_ids: Vec<String>,
}

#[derive(Debug, Clone)]
pub struct SessionDoc {
    pub id: String,
    pub agent: String,
    pub project_id: Option<String>,
    pub status: String,
    pub age_seconds: u64,
    pub resource_ids: Vec<String>,
}

#[derive(Debug, Clone)]
pub struct ResourceDoc {
    pub id: String,
    pub kind: String,
    pub name: String,
    pub status: String,
    pub project_id: Option<String>,
    pub session_id: Option<String>,
    pub port: Option<u16>,
    pub ports: Vec<u16>,
    pub pid: Option<u32>,
    /// The processes of the resource.
    pub pids: Vec<u32>,
    pub memory_bytes: u64,
    pub url: Option<String>,
    pub classification: String,
    pub confidence: Option<String>,
    pub reasons: Vec<String>,
    pub estimated_reclaim_bytes: u64,
    pub actions: Vec<String>,
}

#[derive(Debug, Clone)]
pub struct ContainerDoc {
    pub id: String,
    pub name: String,
    pub compose_project: Option<String>,
    pub ports: Vec<u16>,
    pub status: String,
    pub actions: Vec<String>,
    /// Reclaim estimate; 0 where the container runs.
    pub estimated_reclaim_bytes: u64,
}

#[derive(Debug, Clone)]
pub struct LeftoversDoc {
    pub count: usize,
    pub estimated_reclaim_bytes: u64,
    pub resource_ids: Vec<String>,
}

#[derive(Debug, Clone)]
pub struct VersionDoc {
    pub schema_version: u32,
    pub wyd_version: String,
}

// ---------------------------------------------------------------------------
// Models
// ---------------------------------------------------------------------------

#[verifier::ext_equal]
pub struct RowModel {
    pub id: Seq<char>,
    pub kind: Seq<char>,
    pub name: Seq<char>,
    pub status: Seq<char>,
    pub project_id: Option<Seq<char>>,
    pub session_id: Option<Seq<char>>,
    pub port: Option<u16>,
    pub ports: Seq<u16>,
    pub pid: Option<u32>,
    pub pids: Seq<u32>,
    pub memory_bytes: u64,
    pub url: Option<Seq<char>>,
    pub classification: Seq<char>,
    pub confidence: Option<Seq<char>>,
    pub reasons: Seq<Seq<char>>,
    pub estimated_reclaim_bytes: u64,
    pub actions: Seq<Seq<char>>,
}

#[verifier::ext_equal]
pub struct ContainerModel {
    pub id: Seq<char>,
    pub name: Seq<char>,
    pub compose_project: Option<Seq<char>>,
    pub ports: Seq<u16>,
    pub status: Seq<char>,
    pub actions: Seq<Seq<char>>,
    pub estimated_reclaim_bytes: u64,
}

#[verifier::ext_equal]
pub struct ProjectRow {
    pub id: Seq<char>,
    pub name: Seq<char>,
    pub agent: Option<Seq<char>>,
    pub resource_count: nat,
    pub memory_bytes: u64,
    pub resource_ids: Seq<Seq<char>>,
}

#[verifier::ext_equal]
pub struct SessionRow {
    pub id: Seq<char>,
    pub agent: Seq<char>,
    pub project_id: Option<Seq<char>>,
    pub status: Seq<char>,
    pub age_seconds: u64,
    pub resource_ids: Seq<Seq<char>>,
}

impl Keyed for ResourceDoc {
    type Model = RowModel;

    open spec fn modelled(self) -> RowModel {
        RowModel {
            id: self.id@,
            kind: self.kind@,
            name: self.name@,
            status: self.status@,
            project_id: text::text_of(self.project_id),
            session_id: text::text_of(self.session_id),
            port: self.port,
            ports: self.ports@,
            pid: self.pid,
            pids: self.pids@,
            memory_bytes: self.memory_bytes,
            url: text::text_of(self.url),
            classification: self.classification@,
            confidence: text::text_of(self.confidence),
            reasons: text::texts(self.reasons@),
            estimated_reclaim_bytes: self.estimated_reclaim_bytes,
            actions: text::texts(self.actions@),
        }
    }

    open spec fn key(m: RowModel) -> Seq<char> {
        m.id
    }

    fn sort_text(&self) -> (r: &str) {
        self.id.as_str()
    }
}

impl Keyed for ContainerDoc {
    type Model = ContainerModel;

    open spec fn modelled(self) -> ContainerModel {
        ContainerModel {
            id: self.id@,
            name: self.name@,
            compose_project: text::text_of(self.compose_project),
            ports: self.ports@,
            status: self.status@,
            actions: text::texts(self.actions@),
            estimated_reclaim_bytes: self.estimated_reclaim_bytes,
        }
    }

    open spec fn key(m: ContainerModel) -> Seq<char> {
        m.id
    }

    fn sort_text(&self) -> (r: &str) {
        self.id.as_str()
    }
}

impl Keyed for ProjectDoc {
    type Model = ProjectRow;

    open spec fn modelled(self) -> ProjectRow {
        ProjectRow {
            id: self.id@,
            name: self.name@,
            agent: text::text_of(self.agent),
            resource_count: self.resource_count as nat,
            memory_bytes: self.memory_bytes,
            resource_ids: text::texts(self.resource_ids@),
        }
    }

    open spec fn key(m: ProjectRow) -> Seq<char> {
        m.id
    }

    fn sort_text(&self) -> (r: &str) {
        self.id.as_str()
    }
}

impl Keyed for SessionDoc {
    type Model = SessionRow;

    open spec fn modelled(self) -> SessionRow {
        SessionRow {
            id: self.id@,
            agent: self.agent@,
            project_id: text::text_of(self.project_id),
            status: self.status@,
            age_seconds: self.age_seconds,
            resource_ids: text::texts(self.resource_ids@),
        }
    }

    open spec fn key(m: SessionRow) -> Seq<char> {
        m.id
    }

    fn sort_text(&self) -> (r: &str) {
        self.id.as_str()
    }
}

// ---------------------------------------------------------------------------
// The item tree, flattened
// ---------------------------------------------------------------------------

/// An item and all below it, each before its children.
pub open spec fn flat_in(m: ItemModel) -> Seq<ItemModel>
    decreases m, 1nat, 0nat,
{
    seq![m] + flat_below(m, m.children.len())
}

pub open spec fn flat_below(m: ItemModel, n: nat) -> Seq<ItemModel>
    decreases m, 0nat, n,
{
    if n == 0 || n > m.children.len() {
        Seq::empty()
    } else {
        flat_below(m, (n - 1) as nat) + flat_in(m.children[n - 1])
    }
}

pub open spec fn flat_all(ms: Seq<ItemModel>) -> Seq<ItemModel>
    decreases ms.len(),
{
    if ms.len() == 0 {
        Seq::empty()
    } else {
        flat_all(ms.drop_last()) + flat_in(ms.last())
    }
}

pub open spec fn seen(v: Seq<&RuntimeItem>) -> Seq<ItemModel> {
    Seq::new(v.len(), |i: int| v[i].model())
}

fn flatten<'a>(item: &'a RuntimeItem, out: &mut Vec<&'a RuntimeItem>)
    ensures
        seen(final(out)@) == seen(old(out)@) + flat_in(item.model()),
    decreases item,
{
    let ghost m = item.model();
    let ghost start = seen(out@);
    proof {
        runtime::model_children(*item);
    }
    out.push(item);
    let ghost head = start + seq![m];
    assert(seen(out@) =~= head);
    let mut i: usize = 0;
    assert(head + flat_below(m, 0) =~= head);
    while i < item.children.len()
        invariant
            i <= item.children.len(),
            m == item.model(),
            m.children == runtime::models(item.children@),
            seen(out@) == head + flat_below(m, i as nat),
        decreases item.children.len() - i,
    {
        assert(decreases_to!(item => item.children@[i as int]));
        flatten(&item.children[i], out);
        assert(m.children[i as int] == item.children@[i as int].model());
        assert(head + flat_below(m, i as nat) + flat_in(m.children[i as int]) =~= head + flat_below(
            m,
            (i + 1) as nat,
        ));
        i += 1;
    }
    assert(head + flat_below(m, m.children.len()) =~= start + flat_in(m));
}

pub fn flatten_all<'a>(items: &'a Vec<RuntimeItem>) -> (r: Vec<&'a RuntimeItem>)
    ensures
        seen(r@) == flat_all(runtime::models(items@)),
{
    let mut r: Vec<&'a RuntimeItem> = Vec::new();
    let ghost ms = runtime::models(items@);
    let mut i: usize = 0;
    assert(ms.take(0) =~= Seq::<ItemModel>::empty());
    assert(seen(r@) =~= Seq::<ItemModel>::empty());
    while i < items.len()
        invariant
            i <= items.len(),
            ms == runtime::models(items@),
            seen(r@) == flat_all(ms.take(i as int)),
        decreases items.len() - i,
    {
        assert(ms.take(i + 1).drop_last() =~= ms.take(i as int));
        assert(ms.take(i + 1).last() == items@[i as int].model());
        flatten(&items[i], &mut r);
        i += 1;
    }
    assert(ms.take(ms.len() as int) =~= ms);
    r
}

// ---------------------------------------------------------------------------
// Rows
// ---------------------------------------------------------------------------

/// When the root of an item started; 0 where that is not known.
pub open spec fn root_start(ps: Seq<ProcessInfo>, root: Option<u32>) -> u64 {
    match root {
        Some(pid) => match pids::by_pid(ps, pid) {
            Some(p) => p.start_time,
            None => 0,
        },
        None => 0,
    }
}

pub open spec fn project_name(m: ItemModel) -> Seq<char> {
    match m.project {
        Some(p) => p.name,
        None => ""@,
    }
}

pub open spec fn item_key(ps: Seq<ProcessInfo>, m: ItemModel) -> Seq<char> {
    ids::resource_key(
        ids::kind_text(m.category),
        root_start(ps, m.root),
        project_name(m),
        m.name,
    )
}

pub open spec fn item_title(m: ItemModel) -> Seq<char> {
    if m.pids.len() > 1 {
        m.name + " ×"@ + text::dec(m.pids.len())
    } else {
        m.name
    }
}

pub open spec fn item_project_id(m: ItemModel) -> Option<Seq<char>> {
    match m.project {
        Some(p) => Some(ids::project_key(p.name)),
        None => None,
    }
}

pub open spec fn item_url(m: ItemModel) -> Option<Seq<char>> {
    if m.ports.len() > 0 {
        Some(m.ports[0].link())
    } else {
        None
    }
}

pub open spec fn item_class(state: RuntimeState) -> Seq<char> {
    match state {
        RuntimeState::Suspicious => "leftover"@,
        RuntimeState::Persistent => "persistent"@,
        RuntimeState::Active => "active"@,
    }
}

pub open spec fn confidence_of(score: u8) -> Seq<char> {
    if score >= 60 {
        "high"@
    } else if score >= 40 {
        "medium"@
    } else {
        "low"@
    }
}

pub open spec fn phrases(reasons: Seq<SuspicionReason>) -> Seq<Seq<char>> {
    Seq::new(reasons.len(), |i: int| reasons[i].phrase())
}

/// The row of a process item.
pub open spec fn process_row(ps: Seq<ProcessInfo>, m: ItemModel) -> RowModel {
    RowModel {
        id: item_key(ps, m),
        kind: ids::kind_text(m.category),
        name: item_title(m),
        status: "running"@,
        project_id: item_project_id(m),
        session_id: None,
        port: if m.ports.len() > 0 {
            Some(m.ports[0].port)
        } else {
            None
        },
        ports: Seq::new(m.ports.len(), |i: int| m.ports[i].port),
        pid: m.root,
        pids: m.pids,
        memory_bytes: m.memory,
        url: item_url(m),
        classification: item_class(m.state),
        confidence: match m.suspicion {
            Some(s) => if m.state == RuntimeState::Suspicious {
                Some(confidence_of(s.0))
            } else {
                None
            },
            None => None,
        },
        reasons: match m.suspicion {
            Some(s) => if m.state == RuntimeState::Suspicious {
                phrases(s.1)
            } else {
                Seq::empty()
            },
            None => Seq::empty(),
        },
        estimated_reclaim_bytes: if m.state == RuntimeState::Suspicious {
            m.memory
        } else {
            0
        },
        actions: if m.ports.len() > 0 {
            seq!["open"@, "stop"@, "restart"@, "kill"@]
        } else {
            seq!["stop"@, "restart"@, "kill"@]
        },
    }
}

fn spelled(list: &Vec<SuspicionReason>) -> (r: Vec<String>)
    ensures
        text::texts(r@) == phrases(list@),
{
    let mut r: Vec<String> = Vec::new();
    let mut i: usize = 0;
    assert(text::texts(r@) =~= phrases(list@).take(0));
    while i < list.len()
        invariant
            i <= list.len(),
            text::texts(r@) == phrases(list@).take(i as int),
        decreases list.len() - i,
    {
        let ghost before = text::texts(r@);
        let s: String = list[i].as_str().to_owned();
        let ghost sv = s@;
        r.push(s);
        assert(text::texts(r@) =~= before.push(sv));
        assert(phrases(list@).take(i + 1) =~= before.push(sv));
        i += 1;
    }
    assert(phrases(list@).take(list@.len() as int) =~= phrases(list@));
    r
}

fn copy_pids(list: &Vec<u32>) -> (r: Vec<u32>)
    ensures
        r@ == list@,
{
    let mut r: Vec<u32> = Vec::new();
    let mut i: usize = 0;
    assert(r@ =~= list@.take(0));
    while i < list.len()
        invariant
            i <= list.len(),
            r@ == list@.take(i as int),
        decreases list.len() - i,
    {
        r.push(list[i]);
        assert(list@.take(i + 1) =~= list@.take(i as int).push(list@[i as int]));
        i += 1;
    }
    assert(list@.take(list@.len() as int) =~= list@);
    r
}

fn start_of(ps: &Vec<ProcessInfo>, index: &PidIndex, root: Option<u32>) -> (r: u64)
    requires
        index.wf(ps@),
    ensures
        r == root_start(ps@, root),
{
    match root {
        Some(pid) => match index.find(Ghost(ps@), pid) {
            Some(i) => ps[i].start_time,
            None => 0,
        },
        None => 0,
    }
}

/// The id of an item.
pub fn item_id(item: &RuntimeItem, ps: &Vec<ProcessInfo>, index: &PidIndex) -> (r: String)
    requires
        index.wf(ps@),
    ensures
        r@ == item_key(ps@, item.model()),
{
    let start: u64 = start_of(ps, index, item.root_pid);
    match &item.project {
        Some(p) => resource_id(
            kind_name(item.category),
            start,
            p.name.as_str(),
            item.display_name.as_str(),
        ),
        None => resource_id(kind_name(item.category), start, "", item.display_name.as_str()),
    }
}

fn project_id_of(item: &RuntimeItem) -> (r: Option<String>)
    ensures
        text::text_of(r) == item_project_id(item.model()),
{
    match &item.project {
        Some(p) => Some(project_id(p.name.as_str())),
        None => None,
    }
}

pub fn process_resource(item: &RuntimeItem, ps: &Vec<ProcessInfo>, index: &PidIndex) -> (r: ResourceDoc)
    requires
        index.wf(ps@),
    ensures
        r.modelled() == process_row(ps@, item.model()),
{
    let ghost m = item.model();
    let id: String = item_id(item, ps, index);
    let mut ports: Vec<u16> = Vec::new();
    let ghost want = process_row(ps@, m);
    let mut i: usize = 0;
    assert(ports@ =~= want.ports.take(0));
    while i < item.ports.len()
        invariant
            i <= item.ports.len(),
            m == item.model(),
            want == process_row(ps@, m),
            ports@ == want.ports.take(i as int),
        decreases item.ports.len() - i,
    {
        ports.push(item.ports[i].port);
        assert(want.ports.take(i + 1) =~= want.ports.take(i as int).push(want.ports[i as int]));
        i += 1;
    }
    assert(want.ports.take(want.ports.len() as int) =~= want.ports);
    let has_port: bool = item.ports.len() > 0;
    let port: Option<u16> = if has_port {
        Some(item.ports[0].port)
    } else {
        None
    };
    let url: Option<String> = if has_port {
        Some(item.ports[0].url())
    } else {
        None
    };
    let leftover: bool = item.state == RuntimeState::Suspicious;
    let classification: &'static str = match item.state {
        RuntimeState::Suspicious => "leftover",
        RuntimeState::Persistent => "persistent",
        RuntimeState::Active => "active",
    };
    let mut confidence: Option<String> = None;
    let mut reasons: Vec<String> = Vec::new();
    assert(text::texts(reasons@) =~= Seq::<Seq<char>>::empty());
    if leftover {
        if let Some(s) = &item.suspicion {
            confidence =
            Some(
                (if s.score >= 60 {
                    "high"
                } else if s.score >= 40 {
                    "medium"
                } else {
                    "low"
                }).to_owned(),
            );
            reasons = spelled(&s.reasons);
        }
    }
    let mut actions: Vec<String> = Vec::new();
    if has_port {
        actions.push("open".to_owned());
    }
    actions.push("stop".to_owned());
    actions.push("restart".to_owned());
    actions.push("kill".to_owned());
    assert(text::texts(actions@) =~= want.actions);
    ResourceDoc {
        id,
        kind: kind_name(item.category).to_owned(),
        name: item.title(),
        status: "running".to_owned(),
        project_id: project_id_of(item),
        session_id: None,
        port,
        ports,
        pid: item.root_pid,
        pids: copy_pids(&item.process_ids),
        memory_bytes: item.memory_bytes,
        url,
        classification: classification.to_owned(),
        confidence,
        reasons,
        estimated_reclaim_bytes: if leftover {
            item.memory_bytes
        } else {
            0
        },
        actions,
    }
}

/// A Docker resource that is no container and can be reclaimed.
pub open spec fn is_artifact_leftover(res: DockerResource) -> bool {
    res.is_prunable() || res.kind == DockerKind::DanglingImage || res.kind
        == DockerKind::BuildCache
}

/// The row of a volume, a dangling image or the build cache.
pub open spec fn artifact_row(res: DockerResource) -> RowModel {
    let leftover = is_artifact_leftover(res);
    RowModel {
        id: ids::container_key(res.id@),
        kind: "container"@,
        name: res.name@,
        status: "stopped"@,
        project_id: None,
        session_id: None,
        port: None,
        ports: Seq::empty(),
        pid: None,
        pids: Seq::empty(),
        memory_bytes: 0,
        url: None,
        classification: if res.persistent {
            "persistent"@
        } else if leftover {
            "leftover"@
        } else {
            "active"@
        },
        confidence: if leftover {
            Some("high"@)
        } else {
            None
        },
        reasons: if leftover {
            seq!["docker-reclaimable"@]
        } else {
            Seq::empty()
        },
        estimated_reclaim_bytes: if leftover {
            res.size_bytes
        } else {
            0
        },
        actions: seq!["kill"@],
    }
}

pub fn docker_artifact_resource(res: &DockerResource) -> (r: ResourceDoc)
    ensures
        r.modelled() == artifact_row(*res),
{
    let leftover: bool = res.prunable() || res.kind == DockerKind::DanglingImage || res.kind
        == DockerKind::BuildCache;
    let mut reasons: Vec<String> = Vec::new();
    if leftover {
        reasons.push("docker-reclaimable".to_owned());
    }
    assert(text::texts(reasons@) =~= artifact_row(*res).reasons);
    let mut actions: Vec<String> = Vec::new();
    actions.push("kill".to_owned());
    assert(text::texts(actions@) =~= seq!["kill"@]);
    ResourceDoc {
        id: container_id(res.id.as_str()),
        kind: "container".to_owned(),
        name: res.name.clone(),
        status: "stopped".to_owned(),
        project_id: None,
        session_id: None,
        port: None,
        ports: Vec::new(),
        pid: None,
        pids: Vec::new(),
        memory_bytes: 0,
        url: None,
        classification: (if res.persistent {
            "persistent"
        } else if leftover {
            "leftover"
        } else {
            "active"
        }).to_owned(),
        confidence: if leftover {
            Some("high".to_owned())
        } else {
            None
        },
        reasons,
        estimated_reclaim_bytes: if leftover {
            res.size_bytes
        } else {
            0
        },
        actions,
    }
}

pub open spec fn container_row(res: DockerResource) -> ContainerModel {
    ContainerModel {
        id: ids::container_key(res.id@),
        name: res.name@,
        compose_project: text::text_of(res.compose),
        ports: Seq::empty(),
        status: if res.is_running() {
            "running"@
        } else {
            "stopped"@
        },
        actions: if res.is_running() {
            seq!["stop"@, "restart"@]
        } else {
            seq!["start"@]
        },
        estimated_reclaim_bytes: if res.is_running() {
            0
        } else {
            res.size_bytes
        },
    }
}

pub fn container_doc(res: &DockerResource) -> (r: ContainerDoc)
    ensures
        r.modelled() == container_row(*res),
{
    let running: bool = res.running();
    let mut actions: Vec<String> = Vec::new();
    if running {
        actions.push("stop".to_owned());
        actions.push("restart".to_owned());
    } else {
        actions.push("start".to_owned());
    }
    assert(text::texts(actions@) =~= container_row(*res).actions);
    ContainerDoc {
        id: container_id(res.id.as_str()),
        name: res.name.clone(),
        compose_project: copy_opt(&res.compose),
        ports: Vec::new(),
        status: (if running {
            "running"
        } else {
            "stopped"
        }).to_owned(),
        actions,
        estimated_reclaim_bytes: if running {
            0
        } else {
            res.size_bytes
        },
    }
}

pub open spec fn session_row(s: SessionInfo, now: u64) -> SessionRow {
    SessionRow {
        id: ids::session_key(s.id@),
        agent: s.agent@,
        project_id: match s.project {
            Some(p) => ids::session_project(p@),
            None => None,
        },
        status: if s.active {
            "working"@
        } else {
            "ended"@
        },
        age_seconds: if now >= s.started_at {
            (now - s.started_at) as u64
        } else {
            0
        },
        resource_ids: Seq::empty(),
    }
}

pub fn session_doc(s: &SessionInfo, now: u64) -> (r: SessionDoc)
    ensures
        r.modelled() == session_row(*s, now),
{
    let resource_ids: Vec<String> = Vec::new();
    assert(text::texts(resource_ids@) =~= Seq::<Seq<char>>::empty());
    SessionDoc {
        id: session_id(s.id.as_u64()),
        agent: s.agent.clone(),
        project_id: match &s.project {
            Some(p) => session_project_id(p.as_str()),
            None => None,
        },
        status: (if s.active {
            "working"
        } else {
            "ended"
        }).to_owned(),
        age_seconds: if now >= s.started_at {
            now - s.started_at
        } else {
            0
        },
        resource_ids,
    }
}

// ---------------------------------------------------------------------------
// Laws
// ---------------------------------------------------------------------------

/// Flattening visits every item of the tree once: the pids and the memory of
/// the list are those of the forest.
pub proof fn flattening_keeps_everyone(ms: Seq<ItemModel>)
    ensures
        listed_pids(flat_all(ms)) == forest::all_pids(ms),
        listed_memory(flat_all(ms)) == forest::all_memory(ms),
    decreases ms.len(),
{
    if ms.len() > 0 {
        let front = ms.drop_last();
        flattening_keeps_everyone(front);
        flattening_keeps_the_tree(ms.last());
        lists_add_up(flat_all(front), flat_in(ms.last()));
        assert(listed_pids(flat_all(ms)) =~= forest::all_pids(ms));
    }
}

/// The pids of a list of items, whatever lies below them.
pub open spec fn listed_pids(flat: Seq<ItemModel>) -> Multiset<u32>
    decreases flat.len(),
{
    if flat.len() == 0 {
        Multiset::empty()
    } else {
        listed_pids(flat.drop_last()).add(flat.last().pids.to_multiset())
    }
}

/// Their memory.
pub open spec fn listed_memory(flat: Seq<ItemModel>) -> nat
    decreases flat.len(),
{
    if flat.len() == 0 {
        0
    } else {
        listed_memory(flat.drop_last()) + flat.last().memory as nat
    }
}

proof fn lists_add_up(a: Seq<ItemModel>, b: Seq<ItemModel>)
    ensures
        listed_pids(a + b) == listed_pids(a).add(listed_pids(b)),
        listed_memory(a + b) == listed_memory(a) + listed_memory(b),
    decreases b.len(),
{
    broadcast use vstd::multiset::group_multiset_axioms;

    if b.len() == 0 {
        assert(a + b =~= a);
    } else {
        lists_add_up(a, b.drop_last());
        assert((a + b).drop_last() =~= a + b.drop_last());
        assert((a + b).last() == b.last());
    }
    assert(listed_pids(a + b) =~= listed_pids(a).add(listed_pids(b)));
}

proof fn flattening_keeps_the_tree(m: ItemModel)
    ensures
        listed_pids(flat_in(m)) == m.pids.to_multiset().add(forest::all_pids(m.children)),
        listed_memory(flat_in(m)) == m.memory + forest::all_memory(m.children),
    decreases m, 1nat, 0nat,
{
    broadcast use vstd::multiset::group_multiset_axioms;

    flattening_keeps_the_children(m, m.children.len());
    assert(m.children.take(m.children.len() as int) =~= m.children);
    let one = seq![m];
    lists_add_up(one, flat_below(m, m.children.len()));
    assert(one.drop_last() =~= Seq::<ItemModel>::empty());
    assert(one.last() == m);
    assert(listed_pids(one.drop_last()) =~= Multiset::empty());
    assert(listed_memory(one.drop_last()) == 0);
    assert(listed_pids(one) =~= m.pids.to_multiset());
    assert(listed_pids(flat_in(m)) =~= m.pids.to_multiset().add(forest::all_pids(m.children)));
}

proof fn flattening_keeps_the_children(m: ItemModel, n: nat)
    requires
        n <= m.children.len(),
    ensures
        listed_pids(flat_below(m, n)) == forest::all_pids(m.children.take(n as int)),
        listed_memory(flat_below(m, n)) == forest::all_memory(m.children.take(n as int)),
    decreases m, 0nat, n,
{
    broadcast use vstd::multiset::group_multiset_axioms;

    if n == 0 {
        assert(m.children.take(0) =~= Seq::<ItemModel>::empty());
    } else {
        let k = (n - 1) as nat;
        flattening_keeps_the_children(m, k);
        assert(decreases_to!(m => m.children[k as int]));
        flattening_keeps_the_tree(m.children[k as int]);
        lists_add_up(flat_below(m, k), flat_in(m.children[k as int]));
        assert(m.children.take(n as int).drop_last() =~= m.children.take(k as int));
        assert(m.children.take(n as int).last() == m.children[k as int]);
        assert(listed_pids(flat_below(m, n)) =~= forest::all_pids(m.children.take(n as int)));
    }
}

/// The row of an item tells what it is. A suspicious one is a leftover that
/// would give its memory back, with a confidence by its score and one phrase
/// for each reason; anything else gives nothing back, and no reasons. It can
/// be opened where it listens somewhere.
pub proof fn row_tells_what_the_item_is(ps: Seq<ProcessInfo>, m: ItemModel)
    ensures
        ({
            let r = process_row(ps, m);
            &&& r.pid == m.root
            &&& r.pids == m.pids
            &&& r.memory_bytes == m.memory
            &&& r.status == "running"@
            &&& r.ports.len() == m.ports.len()
            &&& forall|i: int| 0 <= i < m.ports.len() ==> #[trigger] r.ports[i] == m.ports[i].port
            &&& m.ports.len() > 0 ==> r.port == Some(m.ports[0].port) && r.actions[0] == "open"@
                && r.actions.len() == 4
            &&& m.ports.len() == 0 ==> r.port is None && r.url is None && r.actions.len() == 3
                && r.actions[0] == "stop"@
            &&& m.pids.len() <= 1 ==> r.name == m.name
            &&& r.project_id is Some <==> m.project is Some
            &&& m.state == RuntimeState::Suspicious ==> r.classification == "leftover"@
                && r.estimated_reclaim_bytes == m.memory
            &&& m.state == RuntimeState::Persistent ==> r.classification == "persistent"@
            &&& m.state == RuntimeState::Active ==> r.classification == "active"@
            &&& m.state != RuntimeState::Suspicious ==> r.estimated_reclaim_bytes == 0
                && r.confidence is None && r.reasons.len() == 0
            &&& m.state == RuntimeState::Suspicious && m.suspicion is Some ==> {
                let (score, reasons) = m.suspicion->0;
                &&& r.confidence == Some(
                    if score >= 60 {
                        "high"@
                    } else if score >= 40 {
                        "medium"@
                    } else {
                        "low"@
                    },
                )
                &&& r.reasons.len() == reasons.len()
                &&& forall|i: int|
                    0 <= i < reasons.len() ==> #[trigger] r.reasons[i] == reasons[i].phrase()
            }
        }),
{
}

/// The row of a Docker artifact: dangling images, the build cache and unused
/// anonymous volumes give their size back, everything else nothing. What
/// persists is never called a leftover.
pub proof fn artifact_gives_its_size_back(res: DockerResource)
    ensures
        ({
            let r = artifact_row(res);
            let free = res.kind == DockerKind::DanglingImage || res.kind == DockerKind::BuildCache
                || (res.kind == DockerKind::Volume && res.anonymous && res.detail@ == "unused"@);
            &&& r.name == res.name@
            &&& r.memory_bytes == 0
            &&& r.estimated_reclaim_bytes == (if free {
                res.size_bytes
            } else {
                0
            })
            &&& r.confidence is Some <==> free
            &&& res.persistent ==> r.classification == "persistent"@
            &&& !res.persistent && free ==> r.classification == "leftover"@
            &&& !res.persistent && !free ==> r.classification == "active"@
            &&& r.actions == seq!["kill"@]
        }),
{
}

/// A running container can be stopped and restarted and gives nothing back;
/// any other can be started, and would give its size back.
pub proof fn container_row_tells_whether_it_runs(res: DockerResource)
    ensures
        ({
            let r = container_row(res);
            let running = res.kind == DockerKind::Container && res.detail@ == "running"@;
            &&& r.name == res.name@
            &&& r.status == (if running {
                "running"@
            } else {
                "stopped"@
            })
            &&& r.estimated_reclaim_bytes == (if running {
                0
            } else {
                res.size_bytes
            })
            &&& running ==> r.actions == seq!["stop"@, "restart"@]
            &&& !running ==> r.actions == seq!["start"@]
            &&& r.compose_project == text::text_of(res.compose)
        }),
{
}

/// A session's row tells its agent, whether it works, and how long ago it
/// started; one that starts in the future has no age.
pub proof fn session_row_tells_its_age(s: SessionInfo, now: u64)
    ensures
        ({
            let r = session_row(s, now);
            &&& r.agent == s.agent@
            &&& r.status == (if s.active {
                "working"@
            } else {
                "ended"@
            })
            &&& now >= s.started_at ==> r.age_seconds + s.started_at == now
            &&& now < s.started_at ==> r.age_seconds == 0
        }),
{
}

} // verus!

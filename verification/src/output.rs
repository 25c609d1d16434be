//! Reports for scripts: filtered items and Docker resources.

use crate::classify::ownership;
use crate::model::docker::{DockerKind, DockerResource};
use crate::model::project::{Project, ProjectModel};
use crate::model::runtime;
use crate::model::runtime::{Category, ItemModel, RuntimeItem, RuntimeState, SuspicionReason};
use crate::model::snapshot::RuntimeSnapshot;
use crate::text;
use crate::text::{
    copy_opt, dec_of, join_of, lower_of, padded_left, padded_right, quoted, same,
};
use vstd::prelude::*;

verus! {

#[derive(Debug, Clone, Copy, PartialEq, Eq, Structural)]
pub enum Filter {
    All,
    Leftovers,
    Mcp,
    Agents,
    Docker,
    Project,
}

/// The filter that a lowercased word names.
pub open spec fn filter_named(word: Seq<char>) -> Option<Filter> {
    if word == "all"@ {
        Some(Filter::All)
    } else if word == "leftovers"@ || word == "leftover"@ {
        Some(Filter::Leftovers)
    } else if word == "mcp"@ {
        Some(Filter::Mcp)
    } else if word == "agents"@ || word == "agent"@ {
        Some(Filter::Agents)
    } else if word == "docker"@ {
        Some(Filter::Docker)
    } else if word == "project"@ {
        Some(Filter::Project)
    } else {
        None
    }
}

impl Filter {
    pub fn parse(kind: Option<&str>) -> (r: Result<Self, String>)
        ensures
            match kind {
                None => r == Ok::<Filter, String>(Filter::All),
                Some(word) => match filter_named(text::lower(word@)) {
                    Some(f) => r == Ok::<Filter, String>(f),
                    None => r is Err && r->Err_0@ == "unknown filter "@ + text::quoted_text(
                        text::lower(word@),
                    ) + "; use leftovers, mcp, agents, docker, project"@,
                },
            },
    {
        match kind {
            None => Ok(Filter::All),
            Some(word) => {
                let lowered: String = lower_of(word);
                let w: &str = lowered.as_str();
                if same(w, "all") {
                    Ok(Filter::All)
                } else if same(w, "leftovers") || same(w, "leftover") {
                    Ok(Filter::Leftovers)
                } else if same(w, "mcp") {
                    Ok(Filter::Mcp)
                } else if same(w, "agents") || same(w, "agent") {
                    Ok(Filter::Agents)
                } else if same(w, "docker") {
                    Ok(Filter::Docker)
                } else if same(w, "project") {
                    Ok(Filter::Project)
                } else {
                    Err(
                        "unknown filter ".to_owned().concat(quoted(w).as_str()).concat(
                            "; use leftovers, mcp, agents, docker, project",
                        ),
                    )
                }
            },
        }
    }
}

#[derive(Debug)]
pub struct JsonReport {
    pub runtime: Vec<JsonItem>,
    pub docker: Vec<JsonDocker>,
}

#[derive(Debug)]
pub struct JsonItem {
    pub kind: String,
    pub name: String,
    pub pid: Option<u32>,
    pub project: Option<String>,
    pub memory_bytes: u64,
    pub status: String,
    pub ports: Vec<u16>,
    pub reasons: Vec<String>,
    pub children: Vec<JsonItem>,
}

#[derive(Debug, Clone)]
pub struct JsonDocker {
    pub kind: String,
    pub name: String,
    pub status: String,
    pub size_bytes: u64,
    pub compose: Option<String>,
    /// True only for volumes Docker created as anonymous.
    pub anonymous: bool,
    /// Unix seconds created; 0 = unknown.
    pub created: i64,
}

/// A reported item as a model.
#[verifier::ext_equal]
pub struct ReportModel {
    pub kind: Seq<char>,
    pub name: Seq<char>,
    pub pid: Option<u32>,
    pub project: Option<Seq<char>>,
    pub memory: u64,
    pub status: Seq<char>,
    pub ports: Seq<u16>,
    pub reasons: Seq<Seq<char>>,
    pub children: Seq<ReportModel>,
}

impl JsonItem {
    pub open spec fn model(self) -> ReportModel
        decreases self,
    {
        ReportModel {
            kind: self.kind@,
            name: self.name@,
            pid: self.pid,
            project: text::text_of(self.project),
            memory: self.memory_bytes,
            status: self.status@,
            ports: self.ports@,
            reasons: text::texts(self.reasons@),
            children: Seq::new(
                self.children@.len(),
                |i: int|
                    if 0 <= i < self.children@.len() {
                        self.children@[i].model()
                    } else {
                        arbitrary()
                    },
            ),
        }
    }
}

pub open spec fn report_models(v: Seq<JsonItem>) -> Seq<ReportModel> {
    v.map_values(|i: JsonItem| i.model())
}

/// A reported Docker resource as a model.
pub struct DockerModel {
    pub kind: Seq<char>,
    pub name: Seq<char>,
    pub status: Seq<char>,
    pub size_bytes: u64,
    pub compose: Option<Seq<char>>,
    pub anonymous: bool,
    pub created: i64,
}

impl View for JsonDocker {
    type V = DockerModel;

    open spec fn view(&self) -> DockerModel {
        DockerModel {
            kind: self.kind@,
            name: self.name@,
            status: self.status@,
            size_bytes: self.size_bytes,
            compose: text::text_of(self.compose),
            anonymous: self.anonymous,
            created: self.created,
        }
    }
}

pub open spec fn docker_models(v: Seq<JsonDocker>) -> Seq<DockerModel> {
    v.map_values(|d: JsonDocker| d@)
}

// ---------------------------------------------------------------------------
// What is reported
// ---------------------------------------------------------------------------

/// Whether a filter keeps an item.
pub open spec fn keeps(f: Filter, m: ItemModel) -> bool {
    match f {
        Filter::All => true,
        Filter::Project => true,
        Filter::Leftovers => m.state == RuntimeState::Suspicious,
        Filter::Mcp => m.category == Category::Mcp,
        Filter::Agents => m.category == Category::Agent,
        Filter::Docker => false,
    }
}

/// The item's own project has the wanted name, case aside.
pub open spec fn names_project(p: Option<ProjectModel>, want: Seq<char>) -> bool {
    match p {
        Some(x) => text::lower(x.name) == text::lower(want),
        None => false,
    }
}

/// The item or one below it belongs to the wanted project; no wish is always
/// met.
pub open spec fn in_project(m: ItemModel, want: Option<Seq<char>>) -> bool
    decreases m, 1nat, 0nat,
{
    match want {
        None => true,
        Some(w) => names_project(m.project, w) || some_in_project(m, want, m.children.len()),
    }
}

/// One of the first `n` items below belongs to the wanted project.
pub open spec fn some_in_project(m: ItemModel, want: Option<Seq<char>>, n: nat) -> bool
    decreases m, 0nat, n,
{
    if n == 0 || n > m.children.len() {
        false
    } else {
        some_in_project(m, want, (n - 1) as nat) || in_project(m.children[n - 1], want)
    }
}

pub open spec fn reported(m: ItemModel, f: Filter, want: Option<Seq<char>>) -> bool {
    keeps(f, m) && in_project(m, want)
}

pub open spec fn type_text(category: Category, state: RuntimeState) -> Seq<char> {
    if state == RuntimeState::Suspicious {
        "leftover"@
    } else {
        match category {
            Category::Agent => "agent"@,
            Category::Mcp => "mcp"@,
            Category::Browser => "browser"@,
            Category::DevServer => "dev-server"@,
            Category::LanguageServer => "language-server"@,
            Category::Database => "database"@,
            Category::DevService => "dev-service"@,
            Category::Worker => "worker"@,
            Category::UnknownDev => "other"@,
        }
    }
}

pub open spec fn status_text(state: RuntimeState) -> Seq<char> {
    match state {
        RuntimeState::Active => "active"@,
        RuntimeState::Persistent => "persistent"@,
        RuntimeState::Suspicious => "leftover"@,
    }
}

/// The name, with a count where the item holds several processes.
pub open spec fn title_of(m: ItemModel) -> Seq<char> {
    if m.pids.len() > 1 {
        m.name + " ×"@ + text::dec(m.pids.len())
    } else {
        m.name
    }
}

pub open spec fn reason_texts(s: Option<(u8, Seq<SuspicionReason>)>) -> Seq<Seq<char>> {
    match s {
        Some((_, reasons)) => reasons.map_values(|r: SuspicionReason| r.phrase()),
        None => Seq::empty(),
    }
}

/// An item as it is reported, with those of its children that the filter
/// keeps too.
pub open spec fn report_of(m: ItemModel, f: Filter, want: Option<Seq<char>>) -> ReportModel
    decreases m, 1nat, 0nat,
{
    ReportModel {
        kind: type_text(m.category, m.state),
        name: title_of(m),
        pid: m.root,
        project: match m.project {
            Some(p) => Some(p.name),
            None => None,
        },
        memory: m.memory,
        status: status_text(m.state),
        ports: m.ports.map_values(|p: crate::model::port::ListeningPort| p.port),
        reasons: reason_texts(m.suspicion),
        children: reported_children(m, f, want, m.children.len()),
    }
}

/// The reports of the first `n` items below that are kept.
pub open spec fn reported_children(
    m: ItemModel,
    f: Filter,
    want: Option<Seq<char>>,
    n: nat,
) -> Seq<ReportModel>
    decreases m, 0nat, n,
{
    if n == 0 || n > m.children.len() {
        Seq::empty()
    } else {
        let rest = reported_children(m, f, want, (n - 1) as nat);
        if reported(m.children[n - 1], f, want) {
            rest.push(report_of(m.children[n - 1], f, want))
        } else {
            rest
        }
    }
}

/// The reports of a list of items: one that is not kept is replaced by what
/// is kept below it.
pub open spec fn report_all(ms: Seq<ItemModel>, f: Filter, want: Option<Seq<char>>) -> Seq<
    ReportModel,
>
    decreases ms,
{
    if ms.len() == 0 {
        Seq::empty()
    } else {
        report_all(ms.drop_last(), f, want) + if reported(ms.last(), f, want) {
            seq![report_of(ms.last(), f, want)]
        } else {
            report_all(ms.last().children, f, want)
        }
    }
}

pub open spec fn docker_kind_text(k: DockerKind) -> Seq<char> {
    match k {
        DockerKind::Container => "container"@,
        DockerKind::DanglingImage => "dangling-image"@,
        DockerKind::Volume => "volume"@,
        DockerKind::BuildCache => "build-cache"@,
    }
}

pub open spec fn docker_report(r: DockerResource) -> DockerModel {
    DockerModel {
        kind: docker_kind_text(r.kind),
        name: r.name@,
        status: r.detail@,
        size_bytes: r.size_bytes,
        compose: text::text_of(r.compose),
        anonymous: r.anonymous,
        created: r.created,
    }
}

/// A Docker resource that nothing uses.
pub open spec fn is_leftover(r: DockerResource) -> bool {
    r.kind == DockerKind::DanglingImage || r.kind == DockerKind::BuildCache || r.detail@
        == "stopped"@ || r.detail@ == "unused"@
}

/// Whether a filter reports a Docker resource.
pub open spec fn keeps_docker(f: Filter, r: DockerResource) -> bool {
    match f {
        Filter::All => true,
        Filter::Docker => true,
        Filter::Leftovers => is_leftover(r),
        _ => false,
    }
}

pub open spec fn docker_reports(rs: Seq<DockerResource>, f: Filter) -> Seq<DockerModel>
    decreases rs.len(),
{
    if rs.len() == 0 {
        Seq::empty()
    } else {
        let rest = docker_reports(rs.drop_last(), f);
        if keeps_docker(f, rs.last()) {
            rest.push(docker_report(rs.last()))
        } else {
            rest
        }
    }
}

// ---------------------------------------------------------------------------
// Building the report
// ---------------------------------------------------------------------------

fn keep(f: Filter, item: &RuntimeItem) -> (r: bool)
    ensures
        r == keeps(f, item.model()),
{
    match f {
        Filter::All => true,
        Filter::Project => true,
        Filter::Leftovers => item.state == RuntimeState::Suspicious,
        Filter::Mcp => item.category == Category::Mcp,
        Filter::Agents => item.category == Category::Agent,
        Filter::Docker => false,
    }
}

pub open spec fn wanted(project: Option<&str>) -> Option<Seq<char>> {
    match project {
        Some(p) => Some(p@),
        None => None,
    }
}

fn project_ok(item: &RuntimeItem, project: Option<&str>) -> (r: bool)
    ensures
        r == in_project(item.model(), wanted(project)),
    decreases item,
{
    let ghost m = item.model();
    proof {
        runtime::model_children(*item);
    }
    match project {
        None => true,
        Some(w) => {
            if let Some(p) = &item.project {
                if same(lower_of(p.name.as_str()).as_str(), lower_of(w).as_str()) {
                    return true;
                }
            }
            let mut i: usize = 0;
            while i < item.children.len()
                invariant
                    i <= item.children.len(),
                    m == item.model(),
                    m.children == runtime::models(item.children@),
                    project == Some(w),
                    !names_project(m.project, w@),
                    !some_in_project(m, wanted(project), i as nat),
                decreases item.children.len() - i,
            {
                assert(decreases_to!(item => item.children@[i as int]));
                assert(m.children[i as int] == item.children@[i as int].model());
                if project_ok(&item.children[i], project) {
                    proof {
                        some_stays(m, wanted(project), (i + 1) as nat, m.children.len());
                    }
                    return true;
                }
                i += 1;
            }
            false
        },
    }
}

proof fn some_stays(m: ItemModel, want: Option<Seq<char>>, i: nat, n: nat)
    requires
        i <= n <= m.children.len(),
        some_in_project(m, want, i),
    ensures
        some_in_project(m, want, n),
    decreases n,
{
    if i < n {
        some_stays(m, want, i, (n - 1) as nat);
    }
}

fn kind_name(item: &RuntimeItem) -> (r: String)
    ensures
        r@ == type_text(item.category, item.state),
{
    if item.state == RuntimeState::Suspicious {
        return "leftover".to_owned();
    }
    (match item.category {
        Category::Agent => "agent",
        Category::Mcp => "mcp",
        Category::Browser => "browser",
        Category::DevServer => "dev-server",
        Category::LanguageServer => "language-server",
        Category::Database => "database",
        Category::DevService => "dev-service",
        Category::Worker => "worker",
        Category::UnknownDev => "other",
    }).to_owned()
}

fn status(item: &RuntimeItem) -> (r: String)
    ensures
        r@ == status_text(item.state),
{
    (match item.state {
        RuntimeState::Active => "active",
        RuntimeState::Persistent => "persistent",
        RuntimeState::Suspicious => "leftover",
    }).to_owned()
}

fn port_numbers(item: &RuntimeItem) -> (r: Vec<u16>)
    ensures
        r@ == item.ports@.map_values(|p: crate::model::port::ListeningPort| p.port),
{
    let mut r: Vec<u16> = Vec::new();
    let mut i: usize = 0;
    while i < item.ports.len()
        invariant
            i <= item.ports.len(),
            r@.len() == i,
            forall|k: int| 0 <= k < i ==> r@[k] == (#[trigger] item.ports@[k]).port,
        decreases item.ports.len() - i,
    {
        r.push(item.ports[i].port);
        i += 1;
    }
    assert(r@ =~= item.ports@.map_values(|p: crate::model::port::ListeningPort| p.port));
    r
}

fn reason_list(item: &RuntimeItem) -> (r: Vec<String>)
    ensures
        text::texts(r@) == reason_texts(item.model().suspicion),
{
    let mut r: Vec<String> = Vec::new();
    match &item.suspicion {
        None => {
            assert(text::texts(r@) =~= Seq::<Seq<char>>::empty());
        },
        Some(s) => {
            let mut i: usize = 0;
            while i < s.reasons.len()
                invariant
                    i <= s.reasons.len(),
                    r@.len() == i,
                    forall|k: int| 0 <= k < i ==> (#[trigger] r@[k])@ == s.reasons@[k].phrase(),
                decreases s.reasons.len() - i,
            {
                r.push(s.reasons[i].as_str().to_owned());
                i += 1;
            }
            assert(text::texts(r@) =~= s.reasons@.map_values(|x: SuspicionReason| x.phrase()));
        },
    }
    r
}

fn project_name(p: &Option<Project>) -> (r: Option<String>)
    ensures
        text::text_of(r) == match crate::model::project::project_view(*p) {
            Some(x) => Some(x.name),
            None => None,
        },
{
    match p {
        Some(x) => Some(x.name.clone()),
        None => None,
    }
}

fn json_item(item: &RuntimeItem, f: Filter, project: Option<&str>) -> (r: JsonItem)
    ensures
        r.model() == report_of(item.model(), f, wanted(project)),
    decreases item,
{
    let ghost m = item.model();
    proof {
        runtime::model_children(*item);
    }
    let mut children: Vec<JsonItem> = Vec::new();
    let mut i: usize = 0;
    assert(report_models(children@) =~= Seq::<ReportModel>::empty());
    while i < item.children.len()
        invariant
            i <= item.children.len(),
            m == item.model(),
            m.children == runtime::models(item.children@),
            report_models(children@) == reported_children(m, f, wanted(project), i as nat),
        decreases item.children.len() - i,
    {
        assert(decreases_to!(item => item.children@[i as int]));
        assert(m.children[i as int] == item.children@[i as int].model());
        let c: &RuntimeItem = &item.children[i];
        let ghost before = report_models(children@);
        if keep(f, c) && project_ok(c, project) {
            let j: JsonItem = json_item(c, f, project);
            let ghost jm = j.model();
            children.push(j);
            assert(report_models(children@) =~= before.push(jm));
        }
        i += 1;
    }
    let r: JsonItem = JsonItem {
        kind: kind_name(item),
        name: item.title(),
        pid: item.root_pid,
        project: project_name(&item.project),
        memory_bytes: item.memory_bytes,
        status: status(item),
        ports: port_numbers(item),
        reasons: reason_list(item),
        children,
    };
    assert(r.model().children =~= report_models(r.children@));
    r
}

fn collect_items(
    items: &Vec<RuntimeItem>,
    f: Filter,
    project: Option<&str>,
    out: &mut Vec<JsonItem>,
)
    ensures
        report_models(final(out)@) == report_models(old(out)@) + report_all(
            runtime::models(items@),
            f,
            wanted(project),
        ),
    decreases items,
{
    let ghost ms = runtime::models(items@);
    let ghost start = report_models(out@);
    let mut i: usize = 0;
    assert(ms.take(0) =~= Seq::<ItemModel>::empty());
    assert(start + report_all(ms.take(0), f, wanted(project)) =~= start);
    while i < items.len()
        invariant
            i <= items.len(),
            ms == runtime::models(items@),
            report_models(out@) == start + report_all(ms.take(i as int), f, wanted(project)),
        decreases items.len() - i,
    {
        let ghost part = ms.take(i + 1);
        assert(part.drop_last() =~= ms.take(i as int));
        assert(part.last() == items@[i as int].model());
        let ghost before = report_models(out@);
        let ghost done = report_all(ms.take(i as int), f, wanted(project));
        let item: &RuntimeItem = &items[i];
        if keep(f, item) && project_ok(item, project) {
            let j: JsonItem = json_item(item, f, project);
            let ghost jm = j.model();
            out.push(j);
            assert(report_models(out@) =~= before.push(jm));
            assert((start + done).push(jm) =~= start + (done + seq![jm]));
        } else {
            assert(decreases_to!(items => items@[i as int]));
            proof {
                runtime::model_children(*item);
            }
            collect_items(&item.children, f, project, out);
            let ghost more = report_all(part.last().children, f, wanted(project));
            assert((start + done) + more =~= start + (done + more));
        }
        i += 1;
    }
    assert(ms.take(ms.len() as int) =~= ms);
}

fn docker_is_leftover(r: &DockerResource) -> (b: bool)
    ensures
        b == is_leftover(*r),
{
    r.kind == DockerKind::DanglingImage || r.kind == DockerKind::BuildCache || same(
        r.detail.as_str(),
        "stopped",
    ) || same(r.detail.as_str(), "unused")
}

fn json_docker(r: &DockerResource) -> (d: JsonDocker)
    ensures
        d@ == docker_report(*r),
{
    JsonDocker {
        kind: (match r.kind {
            DockerKind::Container => "container",
            DockerKind::DanglingImage => "dangling-image",
            DockerKind::Volume => "volume",
            DockerKind::BuildCache => "build-cache",
        }).to_owned(),
        name: r.name.clone(),
        status: r.detail.clone(),
        size_bytes: r.size_bytes,
        compose: copy_opt(&r.compose),
        anonymous: r.anonymous,
        created: r.created,
    }
}

/// What a snapshot amounts to under a filter and, where one is named, for a
/// project.
pub fn report(snap: &RuntimeSnapshot, filter: Filter, project: Option<&str>) -> (r: JsonReport)
    ensures
        report_models(r.runtime@) == if filter == Filter::Docker {
            Seq::empty()
        } else {
            report_all(runtime::models(snap.logical_items@), filter, wanted(project))
        },
        docker_models(r.docker@) == docker_reports(snap.docker.resources@, filter),
{
    let mut items: Vec<JsonItem> = Vec::new();
    assert(report_models(items@) =~= Seq::<ReportModel>::empty());
    if filter != Filter::Docker {
        collect_items(&snap.logical_items, filter, project, &mut items);
        assert(Seq::<ReportModel>::empty() + report_all(
            runtime::models(snap.logical_items@),
            filter,
            wanted(project),
        ) =~= report_all(runtime::models(snap.logical_items@), filter, wanted(project)));
    }
    let mut docker: Vec<JsonDocker> = Vec::new();
    let ghost rs = snap.docker.resources@;
    let mut i: usize = 0;
    assert(rs.take(0) =~= Seq::<DockerResource>::empty());
    assert(docker_models(docker@) =~= Seq::<DockerModel>::empty());
    while i < snap.docker.resources.len()
        invariant
            i <= snap.docker.resources.len(),
            rs == snap.docker.resources@,
            docker_models(docker@) == docker_reports(rs.take(i as int), filter),
        decreases snap.docker.resources.len() - i,
    {
        assert(rs.take(i + 1).drop_last() =~= rs.take(i as int));
        let res: &DockerResource = &snap.docker.resources[i];
        let wants: bool = match filter {
            Filter::All => true,
            Filter::Docker => true,
            Filter::Leftovers => docker_is_leftover(res),
            _ => false,
        };
        let ghost before = docker_models(docker@);
        if wants {
            let d: JsonDocker = json_docker(res);
            let ghost dm = d@;
            docker.push(d);
            assert(docker_models(docker@) =~= before.push(dm));
        }
        i += 1;
    }
    assert(rs.take(rs.len() as int) =~= rs);
    JsonReport { runtime: items, docker }
}

// ---------------------------------------------------------------------------
// Plain text
// ---------------------------------------------------------------------------

/// Two blanks for each level.
pub open spec fn pad(n: nat) -> Seq<char>
    decreases n,
{
    if n == 0 {
        Seq::empty()
    } else {
        pad((n - 1) as nat) + "  "@
    }
}

/// The line of a reported item.
pub open spec fn item_line(m: ReportModel, depth: nat) -> Seq<char> {
    pad(depth) + text::pad_right(m.kind, 12) + " "@ + m.name + (match m.pid {
        Some(p) => " pid="@ + text::dec(p as nat),
        None => Seq::empty(),
    }) + (match m.project {
        Some(p) => " project="@ + p,
        None => Seq::empty(),
    }) + "  "@ + m.status + (if m.reasons.len() == 0 {
        Seq::empty()
    } else {
        "  "@ + text::joined(m.reasons, "; "@)
    })
}

/// The lines of an item and of everything below it.
pub open spec fn item_lines(m: ReportModel, depth: nat) -> Seq<Seq<char>>
    decreases m, 1nat, 0nat,
{
    seq![item_line(m, depth)] + lines_below(m, depth, m.children.len())
}

/// The lines of the first `n` items below.
pub open spec fn lines_below(m: ReportModel, depth: nat, n: nat) -> Seq<Seq<char>>
    decreases m, 0nat, n,
{
    if n == 0 || n > m.children.len() {
        Seq::empty()
    } else {
        lines_below(m, depth, (n - 1) as nat) + item_lines(m.children[n - 1], depth + 1)
    }
}

pub open spec fn all_item_lines(ms: Seq<ReportModel>) -> Seq<Seq<char>>
    decreases ms.len(),
{
    if ms.len() == 0 {
        Seq::empty()
    } else {
        all_item_lines(ms.drop_last()) + item_lines(ms.last(), 0)
    }
}

pub open spec fn docker_line(d: DockerModel) -> Seq<char> {
    "docker  "@ + text::pad_right(d.kind, 12) + " "@ + text::pad_right(d.name, 16) + " "@
        + text::pad_left(text::dec(d.size_bytes as nat), 10) + "  "@ + d.status
}

pub open spec fn docker_lines(ds: Seq<DockerModel>) -> Seq<Seq<char>> {
    Seq::new(ds.len(), |i: int| docker_line(ds[i]))
}

/// The report in plain text; `none` where there is nothing.
pub open spec fn plain_text(items: Seq<ReportModel>, docker: Seq<DockerModel>) -> Seq<char> {
    let lines = all_item_lines(items) + docker_lines(docker);
    if lines.len() == 0 {
        "none"@
    } else {
        text::joined(lines, "\n"@)
    }
}

fn line_of(item: &JsonItem, before: &str, Ghost(depth): Ghost<nat>) -> (r: String)
    requires
        before@ == pad(depth),
    ensures
        r@ == item_line(item.model(), depth),
{
    let mut r: String = before.to_owned().concat(padded_right(item.kind.as_str(), 12).as_str()).concat(
        " ",
    ).concat(item.name.as_str());
    if let Some(p) = item.pid {
        r = r.concat(" pid=").concat(dec_of(p as u64).as_str());
    }
    if let Some(p) = &item.project {
        r = r.concat(" project=").concat(p.as_str());
    }
    r = r.concat("  ").concat(item.status.as_str());
    assert(text::texts(item.reasons@).len() == item.reasons@.len());
    if item.reasons.len() > 0 {
        r = r.concat("  ").concat(join_of(&item.reasons, "; ").as_str());
    }
    assert(r@ =~= item_line(item.model(), depth));
    r
}

fn push_plain(lines: &mut Vec<String>, item: &JsonItem, before: &str, Ghost(depth): Ghost<nat>)
    requires
        before@ == pad(depth),
    ensures
        text::texts(final(lines)@) == text::texts(old(lines)@) + item_lines(item.model(), depth),
    decreases item,
{
    let ghost m = item.model();
    let ghost start = text::texts(lines@);
    let own: String = line_of(item, before, Ghost(depth));
    let ghost own_text = own@;
    lines.push(own);
    assert(text::texts(lines@) =~= start + seq![own_text]);
    let inner: String = before.to_owned().concat("  ");
    assert(inner@ == pad((depth + 1) as nat));
    let mut i: usize = 0;
    assert(start + (seq![own_text] + lines_below(m, depth, 0)) =~= start + seq![own_text]);
    while i < item.children.len()
        invariant
            i <= item.children.len(),
            m == item.model(),
            own_text == item_line(m, depth),
            inner@ == pad((depth + 1) as nat),
            text::texts(lines@) == start + (seq![own_text] + lines_below(m, depth, i as nat)),
        decreases item.children.len() - i,
    {
        assert(decreases_to!(item => item.children@[i as int]));
        assert(m.children[i as int] == item.children@[i as int].model());
        let ghost done = lines_below(m, depth, i as nat);
        let ghost more = item_lines(m.children[i as int], (depth + 1) as nat);
        push_plain(lines, &item.children[i], inner.as_str(), Ghost((depth + 1) as nat));
        assert((start + (seq![own_text] + done)) + more =~= start + (seq![own_text] + (done
            + more)));
        i += 1;
    }
}

/// The report as plain text, one line per item and resource.
pub fn render_report(report: &JsonReport) -> (r: String)
    ensures
        r@ == plain_text(report_models(report.runtime@), docker_models(report.docker@)),
{
    let ghost ms = report_models(report.runtime@);
    let ghost ds = docker_models(report.docker@);
    let mut lines: Vec<String> = Vec::new();
    let mut i: usize = 0;
    assert(ms.take(0) =~= Seq::<ReportModel>::empty());
    assert(text::texts(lines@) =~= Seq::<Seq<char>>::empty());
    proof {
        reveal_strlit("");
        assert(""@ =~= pad(0));
    }
    while i < report.runtime.len()
        invariant
            i <= report.runtime.len(),
            ms == report_models(report.runtime@),
            ""@ == pad(0),
            text::texts(lines@) == all_item_lines(ms.take(i as int)),
        decreases report.runtime.len() - i,
    {
        assert(ms.take(i + 1).drop_last() =~= ms.take(i as int));
        assert(ms.take(i + 1).last() == report.runtime@[i as int].model());
        assert(ms[i as int] == report.runtime@[i as int].model());
        push_plain(&mut lines, &report.runtime[i], "", Ghost(0));
        i += 1;
    }
    assert(ms.take(ms.len() as int) =~= ms);
    let ghost head = text::texts(lines@);
    let mut k: usize = 0;
    assert(head + docker_lines(ds).take(0) =~= head);
    while k < report.docker.len()
        invariant
            k <= report.docker.len(),
            ds == docker_models(report.docker@),
            text::texts(lines@) == head + docker_lines(ds).take(k as int),
        decreases report.docker.len() - k,
    {
        let d: &JsonDocker = &report.docker[k];
        let line: String = "docker  ".to_owned().concat(
            padded_right(d.kind.as_str(), 12).as_str(),
        ).concat(" ").concat(padded_right(d.name.as_str(), 16).as_str()).concat(" ").concat(
            padded_left(dec_of(d.size_bytes).as_str(), 10).as_str(),
        ).concat("  ").concat(d.status.as_str());
        let ghost before = text::texts(lines@);
        let ghost line_text = line@;
        assert(docker_lines(ds)[k as int] == line_text);
        lines.push(line);
        assert(text::texts(lines@) =~= before.push(line_text));
        assert(head + docker_lines(ds).take(k + 1) =~= before.push(line_text));
        k += 1;
    }
    assert(docker_lines(ds).take(ds.len() as int) =~= docker_lines(ds));
    assert(text::texts(lines@).len() == lines@.len());
    if lines.len() == 0 {
        "none".to_owned()
    } else {
        join_of(&lines, "\n")
    }
}

/// A snapshot under a filter as plain text.
pub fn render_plain(snap: &RuntimeSnapshot, filter: Filter, project: Option<&str>) -> (r: String)
    ensures
        r@ == plain_text(
            if filter == Filter::Docker {
                Seq::empty()
            } else {
                report_all(runtime::models(snap.logical_items@), filter, wanted(project))
            },
            docker_reports(snap.docker.resources@, filter),
        ),
{
    render_report(&report(snap, filter, project))
}

/// A leftover report names nothing that is not a leftover, however deep it
/// stands.
pub proof fn leftover_report_holds_only_leftovers(ms: Seq<ItemModel>, want: Option<Seq<char>>)
    ensures
        forall|i: int|
            0 <= i < report_all(ms, Filter::Leftovers, want).len() ==> all_status(
                #[trigger] report_all(ms, Filter::Leftovers, want)[i],
                "leftover"@,
            ),
    decreases ms,
{
    let all = report_all(ms, Filter::Leftovers, want);
    if ms.len() > 0 {
        let front = report_all(ms.drop_last(), Filter::Leftovers, want);
        leftover_report_holds_only_leftovers(ms.drop_last(), want);
        if reported(ms.last(), Filter::Leftovers, want) {
            leftover_item_is_leftover(ms.last(), want);
        } else {
            leftover_report_holds_only_leftovers(ms.last().children, want);
        }
        assert forall|i: int| 0 <= i < all.len() implies all_status(
            #[trigger] all[i],
            "leftover"@,
        ) by {
            if i < front.len() {
                assert(all[i] == front[i]);
            } else if !reported(ms.last(), Filter::Leftovers, want) {
                let below = report_all(ms.last().children, Filter::Leftovers, want);
                assert(all[i] == below[i - front.len()]);
            }
        }
    }
}

/// A report and everything below it have a status.
pub open spec fn all_status(m: ReportModel, status: Seq<char>) -> bool
    decreases m, 1nat, 0nat,
{
    m.status == status && status_below(m, status, m.children.len())
}

pub open spec fn status_below(m: ReportModel, status: Seq<char>, n: nat) -> bool
    decreases m, 0nat, n,
{
    if n == 0 || n > m.children.len() {
        true
    } else {
        status_below(m, status, (n - 1) as nat) && all_status(m.children[n - 1], status)
    }
}

proof fn leftover_item_is_leftover(m: ItemModel, want: Option<Seq<char>>)
    requires
        keeps(Filter::Leftovers, m),
    ensures
        all_status(report_of(m, Filter::Leftovers, want), "leftover"@),
    decreases m, 1nat, 0nat,
{
    let r = report_of(m, Filter::Leftovers, want);
    leftover_children(m, want, m.children.len());
    status_of_list(r, reported_children(m, Filter::Leftovers, want, m.children.len()));
}

proof fn leftover_children(m: ItemModel, want: Option<Seq<char>>, n: nat)
    requires
        n <= m.children.len(),
    ensures
        forall|i: int|
            0 <= i < reported_children(m, Filter::Leftovers, want, n).len() ==> all_status(
                #[trigger] reported_children(m, Filter::Leftovers, want, n)[i],
                "leftover"@,
            ),
    decreases m, 0nat, n,
{
    if n > 0 {
        leftover_children(m, want, (n - 1) as nat);
        let rest = reported_children(m, Filter::Leftovers, want, (n - 1) as nat);
        let all = reported_children(m, Filter::Leftovers, want, n);
        if reported(m.children[n - 1], Filter::Leftovers, want) {
            leftover_item_is_leftover(m.children[n - 1], want);
        }
        assert forall|i: int| 0 <= i < all.len() implies all_status(
            #[trigger] all[i],
            "leftover"@,
        ) by {
            if i < rest.len() {
                assert(all[i] == rest[i]);
            }
        }
    }
}

proof fn status_of_list(r: ReportModel, list: Seq<ReportModel>)
    requires
        r.children == list,
        r.status == "leftover"@,
        forall|i: int| 0 <= i < list.len() ==> all_status(#[trigger] list[i], "leftover"@),
    ensures
        all_status(r, "leftover"@),
{
    status_prefix(r, list.len());
}

proof fn status_prefix(r: ReportModel, n: nat)
    requires
        n <= r.children.len(),
        forall|i: int|
            0 <= i < r.children.len() ==> all_status(#[trigger] r.children[i], "leftover"@),
    ensures
        status_below(r, "leftover"@, n),
    decreases n,
{
    if n > 0 {
        status_prefix(r, (n - 1) as nat);
    }
}

// ---------------------------------------------------------------------------
// What a report holds
// ---------------------------------------------------------------------------

/// Without a filter every item is reported in its place, with everything
/// below it.
pub proof fn without_a_filter_everything_is_reported(ms: Seq<ItemModel>, f: Filter)
    requires
        f == Filter::All || f == Filter::Project,
    ensures
        report_all(ms, f, None) == ms.map_values(|m: ItemModel| report_of(m, f, None)),
        forall|i: int|
            0 <= i < ms.len() ==> report_of(#[trigger] ms[i], f, None).children
                == ms[i].children.map_values(|m: ItemModel| report_of(m, f, None)),
    decreases ms.len(),
{
    let g = |m: ItemModel| report_of(m, f, None);
    if ms.len() > 0 {
        without_a_filter_everything_is_reported(ms.drop_last(), f);
        assert(reported(ms.last(), f, None));
        assert(report_all(ms, f, None) =~= ms.map_values(g));
        assert forall|i: int| 0 <= i < ms.len() implies report_of(#[trigger] ms[i], f, None).children
            == ms[i].children.map_values(g) by {
            all_children_are_reported(ms[i], f, ms[i].children.len());
            assert(ms[i].children.take(ms[i].children.len() as int) =~= ms[i].children);
        }
    } else {
        assert(report_all(ms, f, None) =~= ms.map_values(g));
    }
}

proof fn all_children_are_reported(m: ItemModel, f: Filter, n: nat)
    requires
        n <= m.children.len(),
        f == Filter::All || f == Filter::Project,
    ensures
        reported_children(m, f, None, n) == m.children.take(n as int).map_values(
            |c: ItemModel| report_of(c, f, None),
        ),
    decreases n,
{
    let g = |c: ItemModel| report_of(c, f, None);
    if n > 0 {
        all_children_are_reported(m, f, (n - 1) as nat);
        assert(reported(m.children[n - 1], f, None));
        assert(m.children.take(n as int).map_values(g) =~= m.children.take(n - 1).map_values(
            g,
        ).push(g(m.children[n - 1])));
    } else {
        assert(m.children.take(0).map_values(g) =~= Seq::<ReportModel>::empty());
    }
}

proof fn children_are_chosen(m: ItemModel, f: Filter, want: Option<Seq<char>>, n: nat)
    requires
        n <= m.children.len(),
    ensures
        reported_children(m, f, want, n) == m.children.take(n as int).filter(
            |c: ItemModel| reported(c, f, want),
        ).map_values(|c: ItemModel| report_of(c, f, want)),
    decreases n,
{
    let p = |c: ItemModel| reported(c, f, want);
    let g = |c: ItemModel| report_of(c, f, want);
    reveal(Seq::filter);
    let t = m.children.take(n as int);
    if n > 0 {
        children_are_chosen(m, f, want, (n - 1) as nat);
        let front = m.children.take(n - 1);
        assert(t.drop_last() =~= front);
        assert(t.last() == m.children[n - 1]);
        if p(t.last()) {
            assert(front.filter(p).push(t.last()).map_values(g) =~= front.filter(p).map_values(
                g,
            ).push(g(t.last())));
        }
    } else {
        assert(t.filter(p).map_values(g) =~= Seq::<ReportModel>::empty());
    }
}

/// Below an item that is reported stand those of its items that the filter
/// keeps, in their order.
pub proof fn below_an_item_stand_those_that_are_kept(
    m: ItemModel,
    f: Filter,
    want: Option<Seq<char>>,
)
    ensures
        report_of(m, f, want).children == m.children.filter(
            |c: ItemModel| reported(c, f, want),
        ).map_values(|c: ItemModel| report_of(c, f, want)),
{
    children_are_chosen(m, f, want, m.children.len());
    assert(m.children.take(m.children.len() as int) =~= m.children);
}

/// An item that the filter keeps is reported wherever it stands, unless it is
/// below one that is reported itself.
pub proof fn a_kept_item_is_reported(
    ms: Seq<ItemModel>,
    path: Seq<int>,
    f: Filter,
    want: Option<Seq<char>>,
)
    requires
        ownership::item_at(ms, path) is Some,
        reported(ownership::item_at(ms, path)->0, f, want),
        forall|j: int|
            1 <= j < path.len() ==> !reported(
                (#[trigger] ownership::item_at(ms, path.take(j)))->0,
                f,
                want,
            ),
    ensures
        report_all(ms, f, want).contains(report_of(ownership::item_at(ms, path)->0, f, want)),
    decreases path.len(), ms.len(),
{
    let m = ownership::item_at(ms, path)->0;
    let r = report_of(m, f, want);
    let front = ms.drop_last();
    let a = report_all(front, f, want);
    let all = report_all(ms, f, want);
    let b = if reported(ms.last(), f, want) {
        seq![report_of(ms.last(), f, want)]
    } else {
        report_all(ms.last().children, f, want)
    };
    assert(all == a + b);
    if path[0] < front.len() {
        assert(front[path[0]] == ms[path[0]]);
        assert(ownership::item_at(front, path) == ownership::item_at(ms, path));
        assert forall|j: int| 1 <= j < path.len() implies !reported(
            (#[trigger] ownership::item_at(front, path.take(j)))->0,
            f,
            want,
        ) by {
            assert(path.take(j)[0] == path[0]);
            assert(ownership::item_at(ms, path.take(j)) == ownership::item_at(front, path.take(j)));
        }
        a_kept_item_is_reported(front, path, f, want);
        let i = choose|i: int| 0 <= i < a.len() && a[i] == r;
        assert(all[i] == r);
    } else if path.len() == 1 {
        assert(ms.last() == m);
        assert(b[0] == r);
        assert(all[a.len() as int] == r);
    } else {
        let rest = path.drop_first();
        let top = path.take(1);
        assert(ownership::item_at(ms, top) == Some(ms.last())) by {
            assert(top[0] == path[0]);
        }
        assert(!reported(ms.last(), f, want));
        let kids = ms.last().children;
        assert forall|j: int| 1 <= j < rest.len() implies !reported(
            (#[trigger] ownership::item_at(kids, rest.take(j)))->0,
            f,
            want,
        ) by {
            let t = path.take(j + 1);
            assert(t[0] == path[0]);
            assert(t.drop_first() =~= rest.take(j));
            assert(ownership::item_at(ms, t) == ownership::item_at(kids, rest.take(j)));
        }
        a_kept_item_is_reported(kids, rest, f, want);
        let i = choose|i: int| 0 <= i < b.len() && b[i] == r;
        assert(all[a.len() + i] == r);
    }
}

/// Nothing is made up: whatever is reported on top is an item of the list or
/// below it that the filter keeps.
pub proof fn what_is_reported_is_kept(
    ms: Seq<ItemModel>,
    f: Filter,
    want: Option<Seq<char>>,
    i: int,
) -> (path: Seq<int>)
    requires
        0 <= i < report_all(ms, f, want).len(),
    ensures
        ownership::item_at(ms, path) is Some,
        reported(ownership::item_at(ms, path)->0, f, want),
        report_all(ms, f, want)[i] == report_of(ownership::item_at(ms, path)->0, f, want),
    decreases ms,
{
    let front = ms.drop_last();
    let a = report_all(front, f, want);
    let all = report_all(ms, f, want);
    if i < a.len() {
        let path = what_is_reported_is_kept(front, f, want, i);
        assert(front[path[0]] == ms[path[0]]);
        assert(ownership::item_at(ms, path) == ownership::item_at(front, path));
        path
    } else if reported(ms.last(), f, want) {
        let path = seq![ms.len() - 1];
        assert(all[i] == report_of(ms.last(), f, want));
        assert(ownership::item_at(ms, path) == Some(ms.last()));
        path
    } else {
        let kids = ms.last().children;
        let below = what_is_reported_is_kept(kids, f, want, i - a.len());
        assert(all[i] == report_all(kids, f, want)[i - a.len()]);
        let path = seq![ms.len() - 1] + below;
        assert(path.drop_first() =~= below);
        assert(ownership::item_at(ms, path) == ownership::item_at(kids, below));
        path
    }
}

/// What each filter keeps.
pub proof fn each_filter_keeps_its_kind(m: ItemModel)
    ensures
        keeps(Filter::All, m),
        keeps(Filter::Project, m),
        keeps(Filter::Leftovers, m) <==> m.state == RuntimeState::Suspicious,
        keeps(Filter::Mcp, m) <==> m.category == Category::Mcp,
        keeps(Filter::Agents, m) <==> m.category == Category::Agent,
        !keeps(Filter::Docker, m),
{
}

proof fn first_child_that_counts(m: ItemModel, want: Option<Seq<char>>, n: nat, k: int)
    requires
        0 <= k < n <= m.children.len(),
        in_project(m.children[k], want),
    ensures
        some_in_project(m, want, n),
    decreases n,
{
    if k < n - 1 {
        first_child_that_counts(m, want, (n - 1) as nat, k);
    }
}

/// An item belongs to a project where it or any item below it does, whatever
/// the case of the name.
pub proof fn a_project_is_found_at_any_depth(m: ItemModel, path: Seq<int>, w: Seq<char>)
    requires
        path.len() == 0 ==> m.project is Some && text::lower(m.project->0.name) == text::lower(w),
        path.len() > 0 ==> ownership::item_at(m.children, path) is Some && ownership::item_at(
            m.children,
            path,
        )->0.project is Some && text::lower(ownership::item_at(m.children, path)->0.project->0.name)
            == text::lower(w),
    ensures
        in_project(m, Some(w)),
    decreases path.len(),
{
    if path.len() > 0 {
        let c = m.children[path[0]];
        let rest = path.drop_first();
        if path.len() > 1 {
            assert(ownership::item_at(m.children, path) == ownership::item_at(c.children, rest));
        }
        a_project_is_found_at_any_depth(c, rest, w);
        first_child_that_counts(m, Some(w), m.children.len(), path[0]);
    }
}

/// A report tells what an item is: its root, memory, ports and project, its
/// kind, and `leftover` in place of the kind where it is one.
pub proof fn a_report_tells_what_the_item_is(m: ItemModel, f: Filter, want: Option<Seq<char>>)
    ensures
        ({
            let r = report_of(m, f, want);
            &&& r.pid == m.root
            &&& r.memory == m.memory
            &&& r.ports == m.ports.map_values(|p: crate::model::port::ListeningPort| p.port)
            &&& m.project is Some ==> r.project == Some(m.project->0.name)
            &&& m.project is None ==> r.project is None
            &&& m.pids.len() <= 1 ==> r.name == m.name
            &&& m.pids.len() > 1 ==> r.name == m.name + " ×"@ + text::dec(m.pids.len())
            &&& m.state == RuntimeState::Suspicious ==> r.kind == "leftover"@ && r.status
                == "leftover"@
            &&& m.state == RuntimeState::Active ==> r.status == "active"@
            &&& m.state == RuntimeState::Persistent ==> r.status == "persistent"@
            &&& m.state != RuntimeState::Suspicious ==> r.kind == match m.category {
                Category::Agent => "agent"@,
                Category::Mcp => "mcp"@,
                Category::Browser => "browser"@,
                Category::DevServer => "dev-server"@,
                Category::LanguageServer => "language-server"@,
                Category::Database => "database"@,
                Category::DevService => "dev-service"@,
                Category::Worker => "worker"@,
                Category::UnknownDev => "other"@,
            }
            &&& m.suspicion is None ==> r.reasons.len() == 0
            &&& m.suspicion is Some ==> r.reasons == m.suspicion->Some_0.1.map_values(
                |x: SuspicionReason| x.phrase(),
            )
        }),
{
}

/// All Docker resources are reported without a filter or for Docker, of the
/// leftovers those that nothing uses, and none otherwise; each as it is, in
/// the order of the list.
pub proof fn docker_resources_are_chosen_by_the_filter(rs: Seq<DockerResource>, f: Filter)
    ensures
        ({
            let p = |r: DockerResource|
                f == Filter::All || f == Filter::Docker || (f == Filter::Leftovers && (r.kind
                    == DockerKind::DanglingImage || r.kind == DockerKind::BuildCache || r.detail@
                    == "stopped"@ || r.detail@ == "unused"@));
            &&& docker_reports(rs, f).len() == rs.filter(p).len()
            &&& forall|i: int|
                0 <= i < docker_reports(rs, f).len() ==> {
                    let d = #[trigger] docker_reports(rs, f)[i];
                    let r = rs.filter(p)[i];
                    &&& d.name == r.name@
                    &&& d.status == r.detail@
                    &&& d.size_bytes == r.size_bytes
                    &&& d.compose == text::text_of(r.compose)
                    &&& d.anonymous == r.anonymous
                    &&& d.created == r.created
                    &&& r.kind == DockerKind::Container ==> d.kind == "container"@
                    &&& r.kind == DockerKind::DanglingImage ==> d.kind == "dangling-image"@
                    &&& r.kind == DockerKind::Volume ==> d.kind == "volume"@
                    &&& r.kind == DockerKind::BuildCache ==> d.kind == "build-cache"@
                }
        }),
    decreases rs.len(),
{
    let p = |r: DockerResource|
        f == Filter::All || f == Filter::Docker || (f == Filter::Leftovers && (r.kind
            == DockerKind::DanglingImage || r.kind == DockerKind::BuildCache || r.detail@
            == "stopped"@ || r.detail@ == "unused"@));
    reveal(Seq::filter);
    if rs.len() > 0 {
        let front = rs.drop_last();
        docker_resources_are_chosen_by_the_filter(front, f);
        assert(p(rs.last()) == keeps_docker(f, rs.last()));
    }
}

/// Each level is indented by two blanks more.
pub proof fn levels_are_indented(n: nat)
    ensures
        pad(n) == Seq::new(2 * n, |i: int| ' '),
    decreases n,
{
    reveal_strlit("  ");
    if n > 0 {
        levels_are_indented((n - 1) as nat);
    }
    assert(pad(n) =~= Seq::new(2 * n, |i: int| ' '));
}

/// The words that name a filter, the plural ones in the singular too.
pub proof fn filters_have_their_names(word: Seq<char>)
    ensures
        filter_named(word) == Some(Filter::All) <==> word == "all"@,
        filter_named(word) == Some(Filter::Leftovers) <==> word == "leftovers"@ || word
            == "leftover"@,
        filter_named(word) == Some(Filter::Mcp) <==> word == "mcp"@,
        filter_named(word) == Some(Filter::Agents) <==> word == "agents"@ || word == "agent"@,
        filter_named(word) == Some(Filter::Docker) <==> word == "docker"@,
        filter_named(word) == Some(Filter::Project) <==> word == "project"@,
{
    reveal_strlit("all");
    reveal_strlit("leftovers");
    reveal_strlit("leftover");
    reveal_strlit("mcp");
    reveal_strlit("agents");
    reveal_strlit("agent");
    reveal_strlit("docker");
    reveal_strlit("project");
    assert("all"@.len() == 3 && "leftovers"@.len() == 9 && "leftover"@.len() == 8 && "mcp"@.len()
        == 3 && "agents"@.len() == 6 && "agent"@.len() == 5 && "docker"@.len() == 6
        && "project"@.len() == 7);
    assert("all"@[0] == 'a' && "mcp"@[0] == 'm' && "agents"@[0] == 'a' && "docker"@[0] == 'd');
}

} // verus!

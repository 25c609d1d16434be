//! Assembly of the snapshot document.

use crate::barman::document;
use crate::barman::document::{
    flatten_all, ContainerDoc, ContainerModel, LeftoversDoc, ProjectDoc, ProjectRow, ResourceDoc,
    RowModel, SessionDoc, SessionRow, SnapshotDoc, SystemDoc, VersionDoc, SCHEMA_VERSION,
};
use crate::barman::ids;
use crate::barman::ids::session_project_id;
use crate::classify::group;
use crate::classify::group::sat_add;
use crate::classify::pids::PidIndex;
use crate::model::docker::{DockerKind, DockerResource};
use crate::model::process::ProcessInfo;
use crate::model::runtime;
use crate::model::runtime::{Category, ItemModel, RuntimeItem};
use crate::model::session::SessionInfo;
use crate::model::snapshot::RuntimeSnapshot;
use crate::sorting;
use crate::sorting::{sort, Keyed};
use crate::stamp;
use crate::stamp::rfc3339;
use crate::text;
use crate::text::{any_same, same};
use crate::time;
use vstd::prelude::*;

verus! {

// ---------------------------------------------------------------------------
// Tables
// ---------------------------------------------------------------------------

pub open spec fn process_rows(ps: Seq<ProcessInfo>, flat: Seq<ItemModel>) -> Seq<RowModel> {
    Seq::new(flat.len(), |i: int| document::process_row(ps, flat[i]))
}

pub open spec fn artifact_rows(rs: Seq<DockerResource>) -> Seq<RowModel>
    decreases rs.len(),
{
    if rs.len() == 0 {
        Seq::empty()
    } else {
        let rest = artifact_rows(rs.drop_last());
        if rs.last().kind == DockerKind::Container {
            rest
        } else {
            rest.push(document::artifact_row(rs.last()))
        }
    }
}

pub open spec fn container_rows(rs: Seq<DockerResource>) -> Seq<ContainerModel>
    decreases rs.len(),
{
    if rs.len() == 0 {
        Seq::empty()
    } else {
        let rest = container_rows(rs.drop_last());
        if rs.last().kind == DockerKind::Container {
            rest.push(document::container_row(rs.last()))
        } else {
            rest
        }
    }
}

/// Every process item and every Docker artifact, by id.
pub open spec fn resource_table(
    ps: Seq<ProcessInfo>,
    items: Seq<ItemModel>,
    rs: Seq<DockerResource>,
) -> Seq<RowModel> {
    sorting::sorted::<ResourceDoc>(
        process_rows(ps, document::flat_all(items)) + artifact_rows(rs),
    )
}

pub open spec fn container_table(rs: Seq<DockerResource>) -> Seq<ContainerModel> {
    sorting::sorted::<ContainerDoc>(container_rows(rs))
}

pub open spec fn session_rows(sessions: Seq<SessionInfo>, now: u64) -> Seq<SessionRow> {
    Seq::new(sessions.len(), |i: int| document::session_row(sessions[i], now))
}

pub open spec fn session_table(sessions: Seq<SessionInfo>, now: u64) -> Seq<SessionRow> {
    sorting::sorted::<SessionDoc>(session_rows(sessions, now))
}

// ---------------------------------------------------------------------------
// Projects
// ---------------------------------------------------------------------------

/// The projects of the rows, each once, in the order in which they come up.
pub open spec fn project_ids(rows: Seq<RowModel>) -> Seq<Seq<char>>
    decreases rows.len(),
{
    if rows.len() == 0 {
        Seq::empty()
    } else {
        let rest = project_ids(rows.drop_last());
        match rows.last().project_id {
            Some(id) => if rest.contains(id) {
                rest
            } else {
                rest.push(id)
            },
            None => rest,
        }
    }
}

/// The ids of a project's rows.
pub open spec fn member_ids(rows: Seq<RowModel>, id: Seq<char>) -> Seq<Seq<char>>
    decreases rows.len(),
{
    if rows.len() == 0 {
        Seq::empty()
    } else {
        let rest = member_ids(rows.drop_last(), id);
        if rows.last().project_id == Some(id) {
            rest.push(rows.last().id)
        } else {
            rest
        }
    }
}

/// The memory of a project's rows, the largest number where they exceed it.
pub open spec fn member_memory(rows: Seq<RowModel>, id: Seq<char>) -> u64
    decreases rows.len(),
{
    if rows.len() == 0 {
        0
    } else {
        let rest = member_memory(rows.drop_last(), id);
        if rows.last().project_id == Some(id) {
            group::sat(rest, rows.last().memory_bytes)
        } else {
            rest
        }
    }
}

/// The name of a project's first row.
pub open spec fn first_member(rows: Seq<RowModel>, id: Seq<char>) -> Option<Seq<char>>
    decreases rows.len(),
{
    if rows.len() == 0 {
        None
    } else if rows[0].project_id == Some(id) {
        Some(rows[0].name)
    } else {
        first_member(rows.skip(1), id)
    }
}

/// The project name of the first item of a project that bears a title.
pub open spec fn titled(flat: Seq<ItemModel>, id: Seq<char>, title: Seq<char>) -> Option<Seq<char>>
    decreases flat.len(),
{
    if flat.len() == 0 {
        None
    } else if document::item_project_id(flat[0]) == Some(id) && document::item_title(flat[0])
        == title {
        Some(document::project_name(flat[0]))
    } else {
        titled(flat.skip(1), id, title)
    }
}

/// What a project is called: its name where an item tells, its id otherwise.
pub open spec fn display(flat: Seq<ItemModel>, rows: Seq<RowModel>, id: Seq<char>) -> Seq<char> {
    match first_member(rows, id) {
        Some(title) => match titled(flat, id, title) {
            Some(n) => n,
            None => id,
        },
        None => id,
    }
}

pub open spec fn agent_item(flat: Seq<ItemModel>, id: Seq<char>) -> Option<Seq<char>>
    decreases flat.len(),
{
    if flat.len() == 0 {
        None
    } else if flat[0].category == Category::Agent && document::item_project_id(flat[0]) == Some(
        id,
    ) {
        Some(flat[0].name)
    } else {
        agent_item(flat.skip(1), id)
    }
}

pub open spec fn of_project(s: SessionInfo, id: Seq<char>) -> bool {
    match s.project {
        Some(p) => ids::session_project(p@) == Some(id),
        None => false,
    }
}

pub open spec fn agent_session(sessions: Seq<SessionInfo>, id: Seq<char>) -> Option<Seq<char>>
    decreases sessions.len(),
{
    if sessions.len() == 0 {
        None
    } else if of_project(sessions[0], id) {
        Some(sessions[0].agent@)
    } else {
        agent_session(sessions.skip(1), id)
    }
}

/// The agent item of a project, or else a session on a path of that name.
pub open spec fn agent_label(
    flat: Seq<ItemModel>,
    sessions: Seq<SessionInfo>,
    id: Seq<char>,
) -> Option<Seq<char>> {
    match agent_item(flat, id) {
        Some(a) => Some(a),
        None => agent_session(sessions, id),
    }
}

pub open spec fn project_row(
    rows: Seq<RowModel>,
    flat: Seq<ItemModel>,
    sessions: Seq<SessionInfo>,
    id: Seq<char>,
) -> ProjectRow {
    ProjectRow {
        id,
        name: display(flat, rows, id),
        agent: agent_label(flat, sessions, id),
        resource_count: member_ids(rows, id).len(),
        memory_bytes: member_memory(rows, id),
        resource_ids: sorting::sorted::<String>(member_ids(rows, id)),
    }
}

pub open spec fn project_rows(
    rows: Seq<RowModel>,
    flat: Seq<ItemModel>,
    sessions: Seq<SessionInfo>,
) -> Seq<ProjectRow> {
    Seq::new(
        project_ids(rows).len(),
        |i: int| project_row(rows, flat, sessions, project_ids(rows)[i]),
    )
}

pub open spec fn project_table(
    rows: Seq<RowModel>,
    flat: Seq<ItemModel>,
    sessions: Seq<SessionInfo>,
) -> Seq<ProjectRow> {
    sorting::sorted::<ProjectDoc>(project_rows(rows, flat, sessions))
}

fn project_list(rows: &Vec<ResourceDoc>) -> (r: Vec<String>)
    ensures
        text::texts(r@) == project_ids(sorting::all_modelled(rows@)),
{
    let ghost ms = sorting::all_modelled(rows@);
    let mut r: Vec<String> = Vec::new();
    let mut i: usize = 0;
    assert(ms.take(0) =~= Seq::<RowModel>::empty());
    assert(text::texts(r@) =~= Seq::<Seq<char>>::empty());
    while i < rows.len()
        invariant
            i <= rows.len(),
            ms == sorting::all_modelled(rows@),
            text::texts(r@) == project_ids(ms.take(i as int)),
        decreases rows.len() - i,
    {
        assert(ms.take(i + 1).drop_last() =~= ms.take(i as int));
        assert(ms.take(i + 1).last() == rows@[i as int].modelled());
        if let Some(id) = &rows[i].project_id {
            if !any_same(&r, id.as_str()) {
                let ghost before = text::texts(r@);
                r.push(id.clone());
                assert(text::texts(r@) =~= before.push(id@));
            }
        }
        i += 1;
    }
    assert(ms.take(ms.len() as int) =~= ms);
    r
}

fn is_member(row: &ResourceDoc, id: &str) -> (r: bool)
    ensures
        r == (row.modelled().project_id == Some(id@)),
{
    match &row.project_id {
        Some(p) => same(p.as_str(), id),
        None => false,
    }
}

fn members(rows: &Vec<ResourceDoc>, id: &str) -> (r: (Vec<String>, u64))
    ensures
        text::texts(r.0@) == member_ids(sorting::all_modelled(rows@), id@),
        r.1 == member_memory(sorting::all_modelled(rows@), id@),
{
    let ghost ms = sorting::all_modelled(rows@);
    let mut list: Vec<String> = Vec::new();
    let mut memory: u64 = 0;
    let mut i: usize = 0;
    assert(ms.take(0) =~= Seq::<RowModel>::empty());
    assert(text::texts(list@) =~= Seq::<Seq<char>>::empty());
    while i < rows.len()
        invariant
            i <= rows.len(),
            ms == sorting::all_modelled(rows@),
            text::texts(list@) == member_ids(ms.take(i as int), id@),
            memory == member_memory(ms.take(i as int), id@),
        decreases rows.len() - i,
    {
        assert(ms.take(i + 1).drop_last() =~= ms.take(i as int));
        assert(ms.take(i + 1).last() == rows@[i as int].modelled());
        if is_member(&rows[i], id) {
            let ghost before = text::texts(list@);
            list.push(rows[i].id.clone());
            assert(text::texts(list@) =~= before.push(rows@[i as int].id@));
            memory = sat_add(memory, rows[i].memory_bytes);
        }
        i += 1;
    }
    assert(ms.take(ms.len() as int) =~= ms);
    (list, memory)
}

fn first_title(rows: &Vec<ResourceDoc>, id: &str) -> (r: Option<String>)
    ensures
        text::text_of(r) == first_member(sorting::all_modelled(rows@), id@),
{
    let ghost ms = sorting::all_modelled(rows@);
    let mut i: usize = 0;
    assert(ms.skip(0) =~= ms);
    while i < rows.len()
        invariant
            i <= rows.len(),
            ms == sorting::all_modelled(rows@),
            first_member(ms, id@) == first_member(ms.skip(i as int), id@),
        decreases rows.len() - i,
    {
        assert(ms.skip(i as int)[0] == rows@[i as int].modelled());
        assert(ms.skip(i as int).skip(1) =~= ms.skip(i + 1));
        if is_member(&rows[i], id) {
            return Some(rows[i].name.clone());
        }
        i += 1;
    }
    None
}

fn in_project(item: &RuntimeItem, id: &str) -> (r: bool)
    ensures
        r == (document::item_project_id(item.model()) == Some(id@)),
{
    match &item.project {
        Some(p) => same(ids::project_id(p.name.as_str()).as_str(), id),
        None => false,
    }
}

fn title_owner(flat: &Vec<&RuntimeItem>, id: &str, title: &str) -> (r: Option<String>)
    ensures
        text::text_of(r) == titled(document::seen(flat@), id@, title@),
{
    let ghost ms = document::seen(flat@);
    let mut i: usize = 0;
    assert(ms.skip(0) =~= ms);
    while i < flat.len()
        invariant
            i <= flat.len(),
            ms == document::seen(flat@),
            titled(ms, id@, title@) == titled(ms.skip(i as int), id@, title@),
        decreases flat.len() - i,
    {
        assert(ms.skip(i as int)[0] == flat@[i as int].model());
        assert(ms.skip(i as int).skip(1) =~= ms.skip(i + 1));
        let item: &RuntimeItem = flat[i];
        if in_project(item, id) && same(item.title().as_str(), title) {
            match &item.project {
                Some(p) => {
                    return Some(p.name.clone());
                },
                None => {},
            }
        }
        i += 1;
    }
    None
}

fn agent_of_items(flat: &Vec<&RuntimeItem>, id: &str) -> (r: Option<String>)
    ensures
        text::text_of(r) == agent_item(document::seen(flat@), id@),
{
    let ghost ms = document::seen(flat@);
    let mut i: usize = 0;
    assert(ms.skip(0) =~= ms);
    while i < flat.len()
        invariant
            i <= flat.len(),
            ms == document::seen(flat@),
            agent_item(ms, id@) == agent_item(ms.skip(i as int), id@),
        decreases flat.len() - i,
    {
        assert(ms.skip(i as int)[0] == flat@[i as int].model());
        assert(ms.skip(i as int).skip(1) =~= ms.skip(i + 1));
        let item: &RuntimeItem = flat[i];
        if item.category == Category::Agent && in_project(item, id) {
            return Some(item.display_name.clone());
        }
        i += 1;
    }
    None
}

fn agent_of_sessions(sessions: &Vec<SessionInfo>, id: &str) -> (r: Option<String>)
    ensures
        text::text_of(r) == agent_session(sessions@, id@),
{
    let mut i: usize = 0;
    assert(sessions@.skip(0) =~= sessions@);
    while i < sessions.len()
        invariant
            i <= sessions.len(),
            agent_session(sessions@, id@) == agent_session(sessions@.skip(i as int), id@),
        decreases sessions.len() - i,
    {
        assert(sessions@.skip(i as int)[0] == sessions@[i as int]);
        assert(sessions@.skip(i as int).skip(1) =~= sessions@.skip(i + 1));
        if let Some(p) = &sessions[i].project {
            if let Some(key) = session_project_id(p.as_str()) {
                if same(key.as_str(), id) {
                    return Some(sessions[i].agent.clone());
                }
            }
        }
        i += 1;
    }
    None
}

fn project_doc(
    rows: &Vec<ResourceDoc>,
    flat: &Vec<&RuntimeItem>,
    sessions: &Vec<SessionInfo>,
    id: &str,
) -> (r: ProjectDoc)
    ensures
        r.modelled() == project_row(
            sorting::all_modelled(rows@),
            document::seen(flat@),
            sessions@,
            id@,
        ),
{
    let name: String = match first_title(rows, id) {
        Some(title) => match title_owner(flat, id, title.as_str()) {
            Some(n) => n,
            None => id.to_owned(),
        },
        None => id.to_owned(),
    };
    let agent: Option<String> = match agent_of_items(flat, id) {
        Some(a) => Some(a),
        None => agent_of_sessions(sessions, id),
    };
    let (list, memory_bytes) = members(rows, id);
    let resource_count: usize = list.len();
    let ghost ids = text::texts(list@);
    assert(sorting::all_modelled(list@) =~= ids);
    let resource_ids: Vec<String> = sort(list);
    assert(text::texts(resource_ids@) =~= sorting::all_modelled(resource_ids@));
    ProjectDoc { id: id.to_owned(), name, agent, resource_count, memory_bytes, resource_ids }
}

fn aggregate_projects(
    rows: &Vec<ResourceDoc>,
    flat: &Vec<&RuntimeItem>,
    sessions: &Vec<SessionInfo>,
) -> (r: Vec<ProjectDoc>)
    ensures
        sorting::all_modelled(r@) == project_table(
            sorting::all_modelled(rows@),
            document::seen(flat@),
            sessions@,
        ),
{
    let list: Vec<String> = project_list(rows);
    let ghost want = project_rows(
        sorting::all_modelled(rows@),
        document::seen(flat@),
        sessions@,
    );
    let mut r: Vec<ProjectDoc> = Vec::new();
    let mut i: usize = 0;
    assert(sorting::all_modelled(r@) =~= want.take(0));
    while i < list.len()
        invariant
            i <= list.len(),
            text::texts(list@) == project_ids(sorting::all_modelled(rows@)),
            want == project_rows(
                sorting::all_modelled(rows@),
                document::seen(flat@),
                sessions@,
            ),
            sorting::all_modelled(r@) == want.take(i as int),
        decreases list.len() - i,
    {
        let ghost before = sorting::all_modelled(r@);
        assert(text::texts(list@)[i as int] == list@[i as int]@);
        let p: ProjectDoc = project_doc(rows, flat, sessions, list[i].as_str());
        let ghost pm = p.modelled();
        assert(want[i as int] == pm);
        r.push(p);
        assert(sorting::all_modelled(r@) =~= before.push(pm));
        assert(want.take(i + 1) =~= before.push(pm));
        i += 1;
    }
    assert(text::texts(list@).len() == list@.len());
    assert(want.take(want.len() as int) =~= want);
    sort(r)
}

// ---------------------------------------------------------------------------
// Leftovers
// ---------------------------------------------------------------------------

/// The ids of the rows of a classification.
pub open spec fn ids_classed(rows: Seq<RowModel>, class: Seq<char>) -> Seq<Seq<char>>
    decreases rows.len(),
{
    if rows.len() == 0 {
        Seq::empty()
    } else {
        let rest = ids_classed(rows.drop_last(), class);
        if rows.last().classification == class {
            rest.push(rows.last().id)
        } else {
            rest
        }
    }
}

/// What the leftovers would give back, the largest number where they exceed
/// it.
pub open spec fn leftover_bytes(rows: Seq<RowModel>) -> u64
    decreases rows.len(),
{
    if rows.len() == 0 {
        0
    } else {
        let rest = leftover_bytes(rows.drop_last());
        if rows.last().classification == "leftover"@ {
            group::sat(rest, rows.last().estimated_reclaim_bytes)
        } else {
            rest
        }
    }
}

/// Exactly the rows of a classification are listed.
pub proof fn classed_rows_are_listed(rows: Seq<RowModel>, class: Seq<char>)
    ensures
        forall|id: Seq<char>| #[trigger]
            ids_classed(rows, class).contains(id) <==> exists|i: int|
                0 <= i < rows.len() && (#[trigger] rows[i]).classification == class && rows[i].id
                    == id,
    decreases rows.len(),
{
    if rows.len() > 0 {
        let front = rows.drop_last();
        let rest = ids_classed(front, class);
        let all = ids_classed(rows, class);
        classed_rows_are_listed(front, class);
        assert forall|id: Seq<char>| #[trigger] all.contains(id) <==> exists|i: int|
            0 <= i < rows.len() && (#[trigger] rows[i]).classification == class && rows[i].id
                == id by {
            if rest.contains(id) {
                let i = choose|i: int|
                    0 <= i < front.len() && (#[trigger] front[i]).classification == class
                        && front[i].id == id;
                assert(rows[i] == front[i]);
                let k = choose|k: int| 0 <= k < rest.len() && rest[k] == id;
                assert(all[k] == id);
            } else if rows.last().classification == class && rows.last().id == id {
                assert(all[all.len() - 1] == id);
                assert(rows[rows.len() - 1].id == id);
            } else {
                if exists|i: int|
                    0 <= i < rows.len() && (#[trigger] rows[i]).classification == class
                        && rows[i].id == id {
                    let i = choose|i: int|
                        0 <= i < rows.len() && (#[trigger] rows[i]).classification == class
                            && rows[i].id == id;
                    assert(i < front.len());
                    assert(front[i] == rows[i]);
                }
                if all.contains(id) {
                    let k = choose|k: int| 0 <= k < all.len() && all[k] == id;
                    if k < rest.len() {
                        assert(rest[k] == id);
                    }
                }
            }
        }
    }
}

fn leftovers_of(rows: &Vec<ResourceDoc>) -> (r: LeftoversDoc)
    ensures
        text::texts(r.resource_ids@) == ids_classed(sorting::all_modelled(rows@), "leftover"@),
        r.count == r.resource_ids@.len(),
        r.estimated_reclaim_bytes == leftover_bytes(sorting::all_modelled(rows@)),
{
    let ghost ms = sorting::all_modelled(rows@);
    let mut resource_ids: Vec<String> = Vec::new();
    let mut bytes: u64 = 0;
    let mut i: usize = 0;
    assert(ms.take(0) =~= Seq::<RowModel>::empty());
    assert(text::texts(resource_ids@) =~= Seq::<Seq<char>>::empty());
    while i < rows.len()
        invariant
            i <= rows.len(),
            ms == sorting::all_modelled(rows@),
            text::texts(resource_ids@) == ids_classed(ms.take(i as int), "leftover"@),
            bytes == leftover_bytes(ms.take(i as int)),
        decreases rows.len() - i,
    {
        assert(ms.take(i + 1).drop_last() =~= ms.take(i as int));
        assert(ms.take(i + 1).last() == rows@[i as int].modelled());
        if same(rows[i].classification.as_str(), "leftover") {
            let ghost before = text::texts(resource_ids@);
            resource_ids.push(rows[i].id.clone());
            assert(text::texts(resource_ids@) =~= before.push(rows@[i as int].id@));
            bytes = sat_add(bytes, rows[i].estimated_reclaim_bytes);
        }
        i += 1;
    }
    assert(ms.take(ms.len() as int) =~= ms);
    LeftoversDoc { count: resource_ids.len(), estimated_reclaim_bytes: bytes, resource_ids }
}

// ---------------------------------------------------------------------------
// The document
// ---------------------------------------------------------------------------

/// The document of a snapshot.
pub open spec fn documents(d: SnapshotDoc, snap: RuntimeSnapshot, now: u64) -> bool {
    let items = runtime::models(snap.logical_items@);
    let rows = resource_table(snap.processes@, items, snap.docker.resources@);
    &&& sorting::all_modelled(d.resources@) == rows
    &&& sorting::all_modelled(d.containers@) == container_table(snap.docker.resources@)
    &&& sorting::all_modelled(d.projects@) == project_table(
        rows,
        document::flat_all(items),
        snap.sessions@,
    )
    &&& sorting::all_modelled(d.sessions@) == session_table(snap.sessions@, now)
    &&& text::texts(d.leftovers.resource_ids@) == ids_classed(rows, "leftover"@)
    &&& d.leftovers.count == d.leftovers.resource_ids@.len()
    &&& d.leftovers.estimated_reclaim_bytes == leftover_bytes(rows)
}

fn tables(snap: &RuntimeSnapshot, flat: &Vec<&RuntimeItem>) -> (r: (
    Vec<ResourceDoc>,
    Vec<ContainerDoc>,
))
    requires
        document::seen(flat@) == document::flat_all(runtime::models(snap.logical_items@)),
    ensures
        sorting::all_modelled(r.0@) == resource_table(
            snap.processes@,
            runtime::models(snap.logical_items@),
            snap.docker.resources@,
        ),
        sorting::all_modelled(r.1@) == container_table(snap.docker.resources@),
{
    let ps: &Vec<ProcessInfo> = &snap.processes;
    let index: PidIndex = PidIndex::new(ps);
    let ghost ms = document::seen(flat@);
    let ghost want = process_rows(ps@, ms);
    let mut rows: Vec<ResourceDoc> = Vec::new();
    let mut i: usize = 0;
    assert(sorting::all_modelled(rows@) =~= want.take(0));
    while i < flat.len()
        invariant
            i <= flat.len(),
            index.wf(ps@),
            ms == document::seen(flat@),
            want == process_rows(ps@, ms),
            sorting::all_modelled(rows@) == want.take(i as int),
        decreases flat.len() - i,
    {
        let ghost before = sorting::all_modelled(rows@);
        let row: ResourceDoc = document::process_resource(flat[i], ps, &index);
        let ghost rm = row.modelled();
        assert(ms[i as int] == flat@[i as int].model());
        rows.push(row);
        assert(sorting::all_modelled(rows@) =~= before.push(rm));
        assert(want.take(i + 1) =~= before.push(rm));
        i += 1;
    }
    assert(want.take(want.len() as int) =~= want);
    let rs: &Vec<DockerResource> = &snap.docker.resources;
    let mut containers: Vec<ContainerDoc> = Vec::new();
    let mut i: usize = 0;
    assert(rs@.take(0) =~= Seq::<DockerResource>::empty());
    assert(want + artifact_rows(rs@.take(0)) =~= want);
    assert(sorting::all_modelled(containers@) =~= Seq::<ContainerModel>::empty());
    while i < rs.len()
        invariant
            i <= rs.len(),
            sorting::all_modelled(rows@) == want + artifact_rows(rs@.take(i as int)),
            sorting::all_modelled(containers@) == container_rows(rs@.take(i as int)),
        decreases rs.len() - i,
    {
        assert(rs@.take(i + 1).drop_last() =~= rs@.take(i as int));
        let res: &DockerResource = &rs[i];
        if res.kind == DockerKind::Container {
            let ghost before = sorting::all_modelled(containers@);
            let c: ContainerDoc = document::container_doc(res);
            let ghost cm = c.modelled();
            containers.push(c);
            assert(sorting::all_modelled(containers@) =~= before.push(cm));
        } else {
            let ghost before = sorting::all_modelled(rows@);
            let row: ResourceDoc = document::docker_artifact_resource(res);
            let ghost rm = row.modelled();
            rows.push(row);
            assert(sorting::all_modelled(rows@) =~= before.push(rm));
            assert(before.push(rm) =~= want + artifact_rows(rs@.take(i + 1)));
        }
        i += 1;
    }
    assert(rs@.take(rs@.len() as int) =~= rs@);
    (sort(rows), sort(containers))
}

fn session_docs(sessions: &Vec<SessionInfo>, now: u64) -> (r: Vec<SessionDoc>)
    ensures
        sorting::all_modelled(r@) == session_table(sessions@, now),
{
    let ghost want = session_rows(sessions@, now);
    let mut r: Vec<SessionDoc> = Vec::new();
    let mut i: usize = 0;
    assert(sorting::all_modelled(r@) =~= want.take(0));
    while i < sessions.len()
        invariant
            i <= sessions.len(),
            want == session_rows(sessions@, now),
            sorting::all_modelled(r@) == want.take(i as int),
        decreases sessions.len() - i,
    {
        let ghost before = sorting::all_modelled(r@);
        let s: SessionDoc = document::session_doc(&sessions[i], now);
        let ghost sm = s.modelled();
        r.push(s);
        assert(sorting::all_modelled(r@) =~= before.push(sm));
        assert(want.take(i + 1) =~= before.push(sm));
        i += 1;
    }
    assert(want.take(want.len() as int) =~= want);
    sort(r)
}

/// The projects of a snapshot.
pub open spec fn projects_in(snap: RuntimeSnapshot) -> Seq<ProjectRow> {
    let items = runtime::models(snap.logical_items@);
    project_table(
        resource_table(snap.processes@, items, snap.docker.resources@),
        document::flat_all(items),
        snap.sessions@,
    )
}

pub fn projects_of(snap: &RuntimeSnapshot) -> (r: Vec<ProjectDoc>)
    ensures
        sorting::all_modelled(r@) == projects_in(*snap),
{
    let flat: Vec<&RuntimeItem> = flatten_all(&snap.logical_items);
    let (resources, _) = tables(snap, &flat);
    aggregate_projects(&resources, &flat, &snap.sessions)
}

/// Build the document of a snapshot. The clock, the free disk space and the
/// program's version come from outside.
pub fn build_snapshot(
    snap: &RuntimeSnapshot,
    now: u64,
    free_disk_bytes: u64,
    wyd_version: &str,
) -> (r: SnapshotDoc)
    ensures
        documents(r, *snap, now),
        r.schema_version == SCHEMA_VERSION,
        r.wyd_version@ == wyd_version@,
        forall|y: int, m: int, d: int|
            time::is_date(y, m, d) && #[trigger] time::day_number(y, m, d) == now as int / 86400
                ==> r.generated_at@ == stamp::stamp_text(y, m, d, now as int % 86400),
        r.system == (SystemDoc {
            used_memory_bytes: snap.used_memory_bytes,
            total_memory_bytes: snap.total_memory_bytes,
            free_disk_bytes,
        }),
{
    let flat: Vec<&RuntimeItem> = flatten_all(&snap.logical_items);
    let (resources, containers) = tables(snap, &flat);
    let projects: Vec<ProjectDoc> = aggregate_projects(&resources, &flat, &snap.sessions);
    let sessions: Vec<SessionDoc> = session_docs(&snap.sessions, now);
    let leftovers: LeftoversDoc = leftovers_of(&resources);
    SnapshotDoc {
        schema_version: SCHEMA_VERSION,
        wyd_version: wyd_version.to_owned(),
        generated_at: rfc3339(now),
        system: SystemDoc {
            used_memory_bytes: snap.used_memory_bytes,
            total_memory_bytes: snap.total_memory_bytes,
            free_disk_bytes,
        },
        projects,
        sessions,
        resources,
        containers,
        leftovers,
    }
}

/// The API's version.
pub fn version_doc(wyd_version: &str) -> (r: VersionDoc)
    ensures
        r.schema_version == SCHEMA_VERSION,
        r.wyd_version@ == wyd_version@,
{
    VersionDoc { schema_version: SCHEMA_VERSION, wyd_version: wyd_version.to_owned() }
}

/// Every table of the document is sorted by id.
pub proof fn document_is_sorted(d: SnapshotDoc, snap: RuntimeSnapshot, now: u64)
    requires
        documents(d, snap, now),
    ensures
        sorting::in_order::<ResourceDoc>(sorting::all_modelled(d.resources@)),
        sorting::in_order::<ContainerDoc>(sorting::all_modelled(d.containers@)),
        sorting::in_order::<ProjectDoc>(sorting::all_modelled(d.projects@)),
        sorting::in_order::<SessionDoc>(sorting::all_modelled(d.sessions@)),
{
    let items = runtime::models(snap.logical_items@);
    let flat = document::flat_all(items);
    let rs = snap.docker.resources@;
    let rows = resource_table(snap.processes@, items, rs);
    sorting::sorting_keeps_and_orders::<ResourceDoc>(
        process_rows(snap.processes@, flat) + artifact_rows(rs),
    );
    sorting::sorting_keeps_and_orders::<ContainerDoc>(container_rows(rs));
    sorting::sorting_keeps_and_orders::<ProjectDoc>(project_rows(rows, flat, snap.sessions@));
    sorting::sorting_keeps_and_orders::<SessionDoc>(session_rows(snap.sessions@, now));
}

proof fn artifacts_shape(rs: Seq<DockerResource>)
    ensures
        forall|i: int|
            0 <= i < artifact_rows(rs).len() ==> (#[trigger] artifact_rows(rs)[i]).actions.len()
                > 0 && artifact_rows(rs)[i].kind == "container"@,
    decreases rs.len(),
{
    if rs.len() > 0 {
        artifacts_shape(rs.drop_last());
        let rest = artifact_rows(rs.drop_last());
        assert forall|i: int| 0 <= i < artifact_rows(rs).len() implies (#[trigger] artifact_rows(
            rs,
        )[i]).actions.len() > 0 && artifact_rows(rs)[i].kind == "container"@ by {
            if i < rest.len() {
                assert(artifact_rows(rs)[i] == rest[i]);
            }
        }
    }
}

/// Every row offers an action.
pub proof fn every_row_offers_an_action(d: SnapshotDoc, snap: RuntimeSnapshot, now: u64)
    requires
        documents(d, snap, now),
    ensures
        forall|i: int|
            0 <= i < d.resources@.len() ==> (#[trigger] sorting::all_modelled(
                d.resources@,
            )[i]).actions.len() > 0,
{
    broadcast use vstd::seq_lib::group_to_multiset_ensures;

    let items = runtime::models(snap.logical_items@);
    let flat = document::flat_all(items);
    let rs = snap.docker.resources@;
    let made = process_rows(snap.processes@, flat) + artifact_rows(rs);
    let rows = sorting::all_modelled(d.resources@);
    artifacts_shape(rs);
    sorting::sorting_keeps_and_orders::<ResourceDoc>(made);
    assert forall|i: int| 0 <= i < d.resources@.len() implies (#[trigger] rows[i]).actions.len()
        > 0 by {
        assert(rows.contains(rows[i]));
        assert(rows.to_multiset().count(rows[i]) > 0);
        assert(made.contains(rows[i]));
        let k = choose|k: int| 0 <= k < made.len() && made[k] == rows[i];
        let n = flat.len();
        if k < n {
            assert(made[k] == document::process_row(snap.processes@, flat[k]));
        } else {
            assert(made[k] == artifact_rows(rs)[k - n]);
        }
    }
}

// ---------------------------------------------------------------------------
// What the tables hold
// ---------------------------------------------------------------------------

/// What a list of rows adds up to, the largest number where that is more.
pub open spec fn at_most(sum: nat) -> nat {
    if sum > u64::MAX {
        u64::MAX as nat
    } else {
        sum
    }
}

/// The members of a project are its rows, in order, and its memory is theirs.
pub proof fn members_are_the_rows_of_the_project(rows: Seq<RowModel>, id: Seq<char>)
    ensures
        ({
            let mine = rows.filter(|r: RowModel| r.project_id == Some(id));
            &&& member_ids(rows, id) == mine.map_values(|r: RowModel| r.id)
            &&& member_memory(rows, id) == at_most(
                mine.fold_left(0nat, |sum: nat, r: RowModel| sum + r.memory_bytes as nat),
            )
        }),
    decreases rows.len(),
{
    reveal(Seq::filter);
    let is_mine = |r: RowModel| r.project_id == Some(id);
    let of = |r: RowModel| r.id;
    if rows.len() > 0 {
        let front = rows.drop_last();
        members_are_the_rows_of_the_project(front, id);
        if is_mine(rows.last()) {
            let before = front.filter(is_mine);
            let after = rows.filter(is_mine);
            assert(after == before.push(rows.last()));
            assert(after.drop_last() =~= before);
            assert(after.map_values(of) =~= before.map_values(of).push(rows.last().id));
        }
    } else {
        assert(member_ids(rows, id) =~= rows.filter(is_mine).map_values(of));
    }
}

/// Every project that a row names is listed once, and no other.
pub proof fn projects_are_those_of_the_rows(rows: Seq<RowModel>)
    ensures
        project_ids(rows).no_duplicates(),
        forall|id: Seq<char>|
            #[trigger] project_ids(rows).contains(id) <==> exists|i: int|
                0 <= i < rows.len() && (#[trigger] rows[i]).project_id == Some(id),
    decreases rows.len(),
{
    if rows.len() > 0 {
        let front = rows.drop_last();
        let rest = project_ids(front);
        let all = project_ids(rows);
        projects_are_those_of_the_rows(front);
        assert forall|id: Seq<char>|
            #[trigger] all.contains(id) <==> exists|i: int|
                0 <= i < rows.len() && (#[trigger] rows[i]).project_id == Some(id) by {
            if all.contains(id) {
                let k = choose|k: int| 0 <= k < all.len() && all[k] == id;
                if k < rest.len() {
                    assert(rest[k] == id);
                    assert(rest.contains(id));
                    let i = choose|i: int|
                        0 <= i < front.len() && (#[trigger] front[i]).project_id == Some(id);
                    assert(rows[i] == front[i]);
                } else {
                    assert(rows[rows.len() - 1].project_id == Some(id));
                }
            }
            if exists|i: int| 0 <= i < rows.len() && (#[trigger] rows[i]).project_id == Some(id) {
                let i = choose|i: int|
                    0 <= i < rows.len() && (#[trigger] rows[i]).project_id == Some(id);
                if i < front.len() {
                    assert(front[i] == rows[i]);
                    assert(rest.contains(id));
                }
                if rest.contains(id) {
                    let k = choose|k: int| 0 <= k < rest.len() && rest[k] == id;
                    assert(all[k] == id);
                } else {
                    assert(all[rest.len() as int] == id);
                }
            }
        }
    }
}

/// A project's row in the table: there is one for every project that a row
/// names, and it counts that project's rows, adds up their memory and lists
/// their ids.
pub proof fn project_row_adds_up_its_rows(
    rows: Seq<RowModel>,
    flat: Seq<ItemModel>,
    sessions: Seq<SessionInfo>,
    i: int,
)
    requires
        0 <= i < rows.len(),
        rows[i].project_id is Some,
    ensures
        exists|k: int|
            0 <= k < project_table(rows, flat, sessions).len() && {
                let p = #[trigger] project_table(rows, flat, sessions)[k];
                let mine = rows.filter(|r: RowModel| r.project_id == rows[i].project_id);
                &&& Some(p.id) == rows[i].project_id
                &&& p.resource_count == mine.len()
                &&& p.memory_bytes == at_most(
                    mine.fold_left(0nat, |sum: nat, r: RowModel| sum + r.memory_bytes as nat),
                )
                &&& p.resource_ids.to_multiset() == mine.map_values(
                    |r: RowModel| r.id,
                ).to_multiset()
            },
        project_table(rows, flat, sessions).len() == project_ids(rows).len(),
{
    broadcast use vstd::seq_lib::group_to_multiset_ensures;

    let id = rows[i].project_id->0;
    projects_are_those_of_the_rows(rows);
    members_are_the_rows_of_the_project(rows, id);
    assert(project_ids(rows).contains(id));
    let at = choose|at: int| 0 <= at < project_ids(rows).len() && project_ids(rows)[at] == id;
    let list = project_rows(rows, flat, sessions);
    let table = project_table(rows, flat, sessions);
    sorting::sorting_keeps_and_orders::<ProjectDoc>(list);
    assert(list.contains(list[at]));
    assert(table.to_multiset().count(list[at]) > 0);
    assert(table.contains(list[at]));
    let k = choose|k: int| 0 <= k < table.len() && table[k] == list[at];
    sorting::sorting_keeps_and_orders::<String>(member_ids(rows, id));
    assert(table[k] == project_row(rows, flat, sessions, id));
    assert(rows.filter(|r: RowModel| r.project_id == rows[i].project_id) =~= rows.filter(
        |r: RowModel| r.project_id == Some(id),
    )) by {
        assert((|r: RowModel| r.project_id == rows[i].project_id) =~= (|r: RowModel|
            r.project_id == Some(id)));
    }
}

/// The leftovers are the rows of that class, in order, and give back what
/// they are estimated at together.
pub proof fn leftovers_are_the_rows_of_that_class(rows: Seq<RowModel>, class: Seq<char>)
    ensures
        ids_classed(rows, class) == rows.filter(
            |r: RowModel| r.classification == class,
        ).map_values(|r: RowModel| r.id),
        leftover_bytes(rows) == at_most(
            rows.filter(|r: RowModel| r.classification == "leftover"@).fold_left(
                0nat,
                |sum: nat, r: RowModel| sum + r.estimated_reclaim_bytes as nat,
            ),
        ),
    decreases rows.len(),
{
    reveal(Seq::filter);
    let classed = |r: RowModel| r.classification == class;
    let left = |r: RowModel| r.classification == "leftover"@;
    let of = |r: RowModel| r.id;
    if rows.len() > 0 {
        let front = rows.drop_last();
        leftovers_are_the_rows_of_that_class(front, class);
        if classed(rows.last()) {
            let before = front.filter(classed);
            assert(rows.filter(classed) == before.push(rows.last()));
            assert(rows.filter(classed).map_values(of) =~= before.map_values(of).push(
                rows.last().id,
            ));
        }
        if left(rows.last()) {
            let before = front.filter(left);
            assert(rows.filter(left) == before.push(rows.last()));
            assert(rows.filter(left).drop_last() =~= before);
        }
    } else {
        assert(ids_classed(rows, class) =~= rows.filter(classed).map_values(of));
    }
}

/// Every item of the forest and every Docker resource has its row: containers
/// in a table of their own, everything else among the resources.
pub proof fn everything_has_its_row(
    ps: Seq<ProcessInfo>,
    items: Seq<ItemModel>,
    rs: Seq<DockerResource>,
)
    ensures
        resource_table(ps, items, rs).len() == document::flat_all(items).len() + rs.filter(
            |r: DockerResource| r.kind != DockerKind::Container,
        ).len(),
        container_table(rs).len() == rs.filter(
            |r: DockerResource| r.kind == DockerKind::Container,
        ).len(),
        forall|i: int|
            0 <= i < document::flat_all(items).len() ==> resource_table(
                ps,
                items,
                rs,
            ).contains(document::process_row(ps, #[trigger] document::flat_all(items)[i])),
{
    broadcast use vstd::seq_lib::group_to_multiset_ensures;

    let flat = document::flat_all(items);
    let rows = process_rows(ps, flat) + artifact_rows(rs);
    docker_rows_by_kind(rs);
    sorting::sorting_keeps_and_orders::<ResourceDoc>(rows);
    sorting::sorting_keeps_and_orders::<ContainerDoc>(container_rows(rs));
    let table = resource_table(ps, items, rs);
    assert forall|i: int| 0 <= i < flat.len() implies table.contains(
        document::process_row(ps, #[trigger] flat[i]),
    ) by {
        assert(rows[i] == document::process_row(ps, flat[i]));
        assert(rows.contains(rows[i]));
        assert(table.to_multiset().count(rows[i]) > 0);
    }
}

proof fn docker_rows_by_kind(rs: Seq<DockerResource>)
    ensures
        artifact_rows(rs).len() == rs.filter(
            |r: DockerResource| r.kind != DockerKind::Container,
        ).len(),
        container_rows(rs).len() == rs.filter(
            |r: DockerResource| r.kind == DockerKind::Container,
        ).len(),
    decreases rs.len(),
{
    reveal(Seq::filter);
    if rs.len() > 0 {
        docker_rows_by_kind(rs.drop_last());
    }
}

/// Who works on a project: the first agent of it in the forest, and only
/// where there is none the first session on it.
pub proof fn an_agent_item_comes_before_a_session(
    flat: Seq<ItemModel>,
    sessions: Seq<SessionInfo>,
    id: Seq<char>,
    i: int,
)
    requires
        0 <= i < flat.len(),
        flat[i].category == Category::Agent,
        document::item_project_id(flat[i]) == Some(id),
        forall|j: int|
            0 <= j < i ==> !((#[trigger] flat[j]).category == Category::Agent
                && document::item_project_id(flat[j]) == Some(id)),
    ensures
        agent_label(flat, sessions, id) == Some(flat[i].name),
    decreases i,
{
    if i > 0 {
        let rest = flat.skip(1);
        assert(rest[i - 1] == flat[i]);
        assert forall|j: int| 0 <= j < i - 1 implies !((#[trigger] rest[j]).category
            == Category::Agent && document::item_project_id(rest[j]) == Some(id)) by {
            assert(rest[j] == flat[j + 1]);
        }
        assert(!(flat[0].category == Category::Agent && document::item_project_id(flat[0])
            == Some(id)));
        an_agent_item_comes_before_a_session(rest, sessions, id, i - 1);
    }
}

/// Without an agent item the first session counts whose project path ends in
/// a directory of that name; a session without a project never does.
pub proof fn the_first_session_of_the_project_counts(
    flat: Seq<ItemModel>,
    sessions: Seq<SessionInfo>,
    id: Seq<char>,
    i: int,
)
    requires
        agent_item(flat, id) is None,
        0 <= i < sessions.len(),
        sessions[i].project is Some,
        ids::session_project(sessions[i].project->0@) == Some(id),
        forall|j: int|
            0 <= j < i ==> (#[trigger] sessions[j]).project is None || ids::session_project(
                sessions[j].project->0@,
            ) != Some(id),
    ensures
        agent_label(flat, sessions, id) == Some(sessions[i].agent@),
    decreases i,
{
    if i > 0 {
        let rest = sessions.skip(1);
        assert(rest[i - 1] == sessions[i]);
        assert(sessions[0].project is None || ids::session_project(sessions[0].project->0@) != Some(
            id,
        ));
        assert forall|j: int| 0 <= j < i - 1 implies (#[trigger] rest[j]).project is None
            || ids::session_project(rest[j].project->0@) != Some(id) by {
            assert(rest[j] == sessions[j + 1]);
        }
        the_first_session_of_the_project_counts(flat, rest, id, i - 1);
    }
}

} // verus!

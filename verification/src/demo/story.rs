//! The demonstration snapshot.

use crate::barman::document;
use crate::barman::document::flatten_all;
use crate::demo::items;
use crate::demo::sessions;
use crate::demo::sessions::{session_infos, session_record, stable_id, SessionSeed};
use crate::json::{append, list_value, no_values, text_value, Builder, Json, JsonModel};
use crate::model::docker::{DockerKind, DockerResource, DockerSnapshot};
use crate::model::process::ProcessInfo;
use crate::model::runtime;
use crate::model::runtime::{ItemModel, RuntimeItem};
use crate::model::snapshot::RuntimeSnapshot;
use crate::scanner::docker;
use crate::scanner::docker::ResourceModel;
use crate::text;
use crate::text::{hex_of, same, text_has};
use vstd::prelude::*;

verus! {

// ---------------------------------------------------------------------------
// Docker
// ---------------------------------------------------------------------------

/// A running container, a stopped one, an anonymous volume and a persistent
/// named one.
pub open spec fn docker_models(now: u64) -> Seq<ResourceModel> {
    seq![
        ResourceModel {
            kind: DockerKind::Container,
            id: "a1b2c3"@,
            name: "wyd-test-web"@,
            detail: "running"@,
            size_bytes: (42 * items::MIB) as u64,
            compose: Some("testapp"@),
            persistent: false,
            anonymous: false,
            created: ((now - 3600) as u64) as i64,
        },
        ResourceModel {
            kind: DockerKind::Container,
            id: "d4e5f6"@,
            name: "old_worker"@,
            detail: "exited"@,
            size_bytes: (12 * items::MIB) as u64,
            compose: None,
            persistent: false,
            anonymous: false,
            created: ((now - 86_400) as u64) as i64,
        },
        ResourceModel {
            kind: DockerKind::Volume,
            id: "v-abc"@,
            name: "anonymous-1"@,
            detail: "unused"@,
            size_bytes: (103 * items::MIB) as u64,
            compose: None,
            persistent: false,
            anonymous: true,
            created: ((now - 7200) as u64) as i64,
        },
        ResourceModel {
            kind: DockerKind::Volume,
            id: "v-pg"@,
            name: "pgdata"@,
            detail: "unused"@,
            size_bytes: (2048 * items::MIB) as u64,
            compose: Some("pg"@),
            persistent: true,
            anonymous: false,
            created: ((now - 432_000) as u64) as i64,
        },
    ]
}

fn demo_docker(now: u64) -> (r: DockerSnapshot)
    requires
        now >= 432_000,
    ensures
        r.ok,
        r.note@.len() == 0,
        r.disk_bytes == 9216 * items::MIB,
        r.reclaimable_bytes == 103 * items::MIB,
        docker::resource_models(r.resources@) == docker_models(now),
{
    let mut resources: Vec<DockerResource> = Vec::new();
    resources.push(
        DockerResource {
            kind: DockerKind::Container,
            id: "a1b2c3".to_owned(),
            name: "wyd-test-web".to_owned(),
            detail: "running".to_owned(),
            size_bytes: 42 * items::MIB,
            compose: Some("testapp".to_owned()),
            persistent: false,
            anonymous: false,
            created: (now - 3600) as i64,
        },
    );
    resources.push(
        DockerResource {
            kind: DockerKind::Container,
            id: "d4e5f6".to_owned(),
            name: "old_worker".to_owned(),
            detail: "exited".to_owned(),
            size_bytes: 12 * items::MIB,
            compose: None,
            persistent: false,
            anonymous: false,
            created: (now - 86_400) as i64,
        },
    );
    resources.push(
        DockerResource {
            kind: DockerKind::Volume,
            id: "v-abc".to_owned(),
            name: "anonymous-1".to_owned(),
            detail: "unused".to_owned(),
            size_bytes: 103 * items::MIB,
            compose: None,
            persistent: false,
            anonymous: true,
            created: (now - 7200) as i64,
        },
    );
    resources.push(
        DockerResource {
            kind: DockerKind::Volume,
            id: "v-pg".to_owned(),
            name: "pgdata".to_owned(),
            detail: "unused".to_owned(),
            size_bytes: 2048 * items::MIB,
            compose: Some("pg".to_owned()),
            persistent: true,
            anonymous: false,
            created: (now - 432_000) as i64,
        },
    );
    assert(docker::resource_models(resources@) =~= docker_models(now));
    DockerSnapshot {
        ok: true,
        note: String::new(),
        disk_bytes: 9216 * items::MIB,
        reclaimable_bytes: 103 * items::MIB,
        resources,
    }
}

// ---------------------------------------------------------------------------
// The snapshot
// ---------------------------------------------------------------------------

/// The demonstration snapshot. Its oldest entry is five days old, so the clock
/// must show at least that.
pub fn snapshot(now: u64) -> (r: RuntimeSnapshot)
    requires
        now >= 432_000,
    ensures
        runtime::models(r.logical_items@) == items::item_models(),
        items::process_models_of(r.processes@) == items::process_models(now),
        r.docker.ok,
        r.docker.note@.len() == 0,
        r.docker.disk_bytes == 9216 * items::MIB,
        r.docker.reclaimable_bytes == 103 * items::MIB,
        docker::resource_models(r.docker.resources@) == docker_models(now),
        r.total_memory_bytes == 16_384 * items::MIB,
        r.used_memory_bytes == 6144 * items::MIB,
        r.sessions@.len() == sessions::SESSIONS,
        forall|i: int|
            0 <= i < sessions::SESSIONS ==> sessions::lists(
                #[trigger] r.sessions@[i],
                sessions::seeded(i),
                now,
            ),
        r.version == 1,
{
    RuntimeSnapshot {
        processes: items::processes(now),
        logical_items: items::items(),
        docker: demo_docker(now),
        sessions: session_infos(now),
        total_memory_bytes: 16_384 * items::MIB,
        used_memory_bytes: 6144 * items::MIB,
        version: 1,
    }
}

pub open spec fn on_the_hour(secs: u64) -> u64 {
    (secs - secs % 3600) as u64
}

/// Every process of `a` starts on the hour in `b`; all else is the same.
pub open spec fn bucketed(a: Seq<ProcessInfo>, b: Seq<ProcessInfo>, n: int) -> bool {
    a.len() == b.len() && forall|i: int|
        0 <= i < a.len() ==> #[trigger] b[i] == if i < n {
            ProcessInfo { start_time: on_the_hour(a[i].start_time), ..a[i] }
        } else {
            a[i]
        }
}

/// Start times that follow the clock would make ids drift from call to call;
/// rounded down to the hour, they stay.
pub fn stabilize_demo_times(snap: &mut RuntimeSnapshot)
    ensures
        bucketed(old(snap).processes@, final(snap).processes@, old(snap).processes@.len() as int),
        *final(snap) == (RuntimeSnapshot { processes: final(snap).processes, ..*old(snap) }),
{
    let ghost before = snap.processes@;
    let mut i: usize = 0;
    while i < snap.processes.len()
        invariant
            i <= snap.processes@.len(),
            before == old(snap).processes@,
            bucketed(before, snap.processes@, i as int),
            *snap == (RuntimeSnapshot { processes: snap.processes, ..*old(snap) }),
        decreases snap.processes@.len() - i,
    {
        let t: u64 = snap.processes[i].start_time;
        snap.processes[i].start_time = t - t % 3600;
        i += 1;
    }
}

/// Two clocks within one hour of a start give one start time.
pub proof fn hours_are_stable(a: u64, b: u64)
    requires
        a / 3600 == b / 3600,
    ensures
        on_the_hour(a) == on_the_hour(b),
        on_the_hour(on_the_hour(a)) == on_the_hour(a),
{
    assert(a - a % 3600 == 3600 * (a / 3600));
    assert(b - b % 3600 == 3600 * (b / 3600));
}

// ---------------------------------------------------------------------------
// Explanations
// ---------------------------------------------------------------------------

/// The first item whose root is a pid.
pub open spec fn rooted(flat: Seq<ItemModel>, pid: u32) -> Option<ItemModel>
    decreases flat.len(),
{
    if flat.len() == 0 {
        None
    } else if flat[0].root == Some(pid) {
        Some(flat[0])
    } else {
        rooted(flat.skip(1), pid)
    }
}

/// The session that owns what runs in a project.
pub open spec fn project_seed(root: Option<Seq<char>>) -> Seq<char> {
    match root {
        Some(p) => if text::contains(p, "wyd"@) {
            "demo.opencode.wyd"@
        } else if text::contains(p, "docs"@) {
            "demo.aider.docs"@
        } else if text::contains(p, "site"@) {
            "demo.cursor.site"@
        } else if text::contains(p, "api"@) {
            "demo.codex.api"@
        } else if text::contains(p, "notes"@) {
            "demo.gemini.notes"@
        } else {
            "demo.opencode.wyd"@
        },
        None => "demo.opencode.wyd"@,
    }
}

pub open spec fn root_of(m: ItemModel) -> Option<Seq<char>> {
    match m.project {
        Some(p) => Some(p.root),
        None => None,
    }
}

/// The session that owns an item: an agent's own, or that of the project's
/// agent. A database has none.
pub open spec fn owner_seed(m: ItemModel) -> Option<Seq<char>> {
    if m.name == "opencode"@ {
        Some("demo.opencode.wyd"@)
    } else if m.name == "aider"@ {
        Some("demo.aider.docs"@)
    } else if m.name == "cursor"@ {
        Some("demo.cursor.site"@)
    } else if m.name == "codex"@ {
        Some("demo.codex.api"@)
    } else if m.name == "gemini-cli"@ {
        Some("demo.gemini.notes"@)
    } else if m.name == "postgres"@ || m.name == "redis"@ || m.name == "mysql"@ {
        None
    } else {
        Some(project_seed(root_of(m)))
    }
}

fn seed_of(item: &RuntimeItem) -> (r: Option<&'static str>)
    ensures
        match r {
            Some(s) => owner_seed(item.model()) == Some(s@),
            None => owner_seed(item.model()) is None,
        },
{
    let name: &str = item.display_name.as_str();
    if same(name, "opencode") {
        return Some("demo.opencode.wyd");
    }
    if same(name, "aider") {
        return Some("demo.aider.docs");
    }
    if same(name, "cursor") {
        return Some("demo.cursor.site");
    }
    if same(name, "codex") {
        return Some("demo.codex.api");
    }
    if same(name, "gemini-cli") {
        return Some("demo.gemini.notes");
    }
    if same(name, "postgres") || same(name, "redis") || same(name, "mysql") {
        return None;
    }
    match &item.project {
        Some(p) => {
            let root: &str = p.root.as_str();
            if text_has(root, "wyd") {
                Some("demo.opencode.wyd")
            } else if text_has(root, "docs") {
                Some("demo.aider.docs")
            } else if text_has(root, "site") {
                Some("demo.cursor.site")
            } else if text_has(root, "api") {
                Some("demo.codex.api")
            } else if text_has(root, "notes") {
                Some("demo.gemini.notes")
            } else {
                Some("demo.opencode.wyd")
            }
        },
        None => Some("demo.opencode.wyd"),
    }
}

/// A session in an explanation.
pub open spec fn session_value(seed: SessionSeed, hex: Seq<char>, now: u64) -> JsonModel {
    let started = items::ago(now, seed.ago);
    JsonModel::Object(
        Seq::empty().push(("id"@, JsonModel::Text(hex))).push(
            ("agent"@, JsonModel::Text(seed.agent@)),
        ).push(("project"@, JsonModel::Text(seed.project@))).push(
            ("started_at"@, JsonModel::Unsigned(started)),
        ).push(
            (
                "ended_at"@,
                if seed.active {
                    JsonModel::Null
                } else {
                    JsonModel::Unsigned((started + 1200) as u64)
                },
            ),
        ).push(("active"@, JsonModel::Bool(seed.active))),
    )
}

/// A piece of evidence.
pub open spec fn evidence_value(kind: Seq<char>, value: Seq<char>) -> JsonModel {
    JsonModel::Object(
        Seq::empty().push(("kind"@, JsonModel::Text(kind))).push(("value"@, JsonModel::Text(value))),
    )
}

/// The explanation of an item that a session owns.
pub open spec fn explanation(pid: u32, m: ItemModel, seed: Seq<char>, now: u64) -> JsonModel {
    let id = sessions::stable(seed);
    let hex = text::hex_fixed(id as nat, 16);
    JsonModel::Object(
        Seq::empty().push(("pid"@, JsonModel::Unsigned(pid as u64))).push(
            ("name"@, JsonModel::Text(m.name)),
        ).push(("owner_session"@, JsonModel::Text(hex))).push(
            ("exact"@, JsonModel::Bool(true)),
        ).push(("ownership"@, JsonModel::Text("owned"@))).push(
            ("resolver_version"@, JsonModel::Unsigned(1)),
        ).push(
            (
                "evidence"@,
                JsonModel::List(
                    Seq::empty().push(
                        evidence_value(
                            "cwd match"@,
                            match root_of(m) {
                                Some(r) => r,
                                None => Seq::empty(),
                            },
                        ),
                    ).push(evidence_value("persisted ownership"@, "session "@ + hex + ":0"@)),
                ),
            ),
        ).push(
            (
                "session"@,
                match sessions::place(id, 0) {
                    Some(i) => session_value(sessions::seeded(i), hex, now),
                    None => JsonModel::Null,
                },
            ),
        ),
    )
}

fn session_json(id: u64, hex: &str, now: u64) -> (r: Json)
    ensures
        r.model() == match sessions::place(id, 0) {
            Some(i) => session_value(sessions::seeded(i), hex@, now),
            None => JsonModel::Null,
        },
{
    match session_record(id, now) {
        None => Json::Null,
        Some(s) => {
            let project: Json = match &s.project {
                Some(p) => text_value(p.as_str()),
                None => Json::Null,
            };
            let ended: Json = match s.ended_at {
                Some(t) => Json::Unsigned(t),
                None => Json::Null,
            };
            Builder::new().with("id", text_value(hex)).with("agent", text_value(s.agent.as_str())).with(
                "project",
                project,
            ).with("started_at", Json::Unsigned(s.started_at)).with("ended_at", ended).with(
                "active",
                Json::Bool(s.ended_at.is_none()),
            ).done()
        },
    }
}

fn evidence_json(kind: &str, value: &str) -> (r: Json)
    ensures
        r.model() == evidence_value(kind@, value@),
{
    Builder::new().with("kind", text_value(kind)).with("value", text_value(value)).done()
}

fn explanation_json(pid: u32, item: &RuntimeItem, seed: &str, now: u64) -> (r: Json)
    ensures
        r.model() == explanation(pid, item.model(), seed@, now),
{
    let id: u64 = stable_id(seed);
    let hex: String = hex_of(id as u128, 16);
    let owned: String = "session ".to_owned().concat(hex.as_str()).concat(":0");
    let cwd: String = match &item.project {
        Some(p) => p.root.clone(),
        None => String::new(),
    };
    assert(item.project is None ==> cwd@ =~= Seq::<char>::empty());
    let evidence: Json = list_value(
        append(
            append(no_values(), evidence_json("cwd match", cwd.as_str())),
            evidence_json("persisted ownership", owned.as_str()),
        ),
    );
    Builder::new().with("pid", Json::Unsigned(pid as u64)).with(
        "name",
        text_value(item.display_name.as_str()),
    ).with("owner_session", text_value(hex.as_str())).with("exact", Json::Bool(true)).with(
        "ownership",
        text_value("owned"),
    ).with("resolver_version", Json::Unsigned(1)).with("evidence", evidence).with(
        "session",
        session_json(id, hex.as_str(), now),
    ).done()
}

/// Who owns a process of the dataset; none for a pid that is no item's root,
/// and for the databases.
pub fn explain(pid: u32, now: u64) -> (r: Option<Json>)
    requires
        432_000 <= now,
    ensures
        match rooted(document::flat_all(items::item_models()), pid) {
            None => r is None,
            Some(m) => match owner_seed(m) {
                None => r is None,
                Some(seed) => r is Some && r->Some_0.model() == explanation(pid, m, seed, now),
            },
        },
{
    let list: Vec<RuntimeItem> = items::items();
    let flat: Vec<&RuntimeItem> = flatten_all(&list);
    let ghost ms = document::seen(flat@);
    let mut i: usize = 0;
    assert(ms.skip(0) =~= ms);
    while i < flat.len()
        invariant
            i <= flat.len(),
            ms == document::seen(flat@),
            ms == document::flat_all(items::item_models()),
            rooted(ms, pid) == rooted(ms.skip(i as int), pid),
        decreases flat.len() - i,
    {
        assert(ms.skip(i as int)[0] == flat@[i as int].model());
        assert(ms.skip(i as int).skip(1) =~= ms.skip(i + 1));
        let item: &RuntimeItem = flat[i];
        let hit: bool = match item.root_pid {
            Some(p) => p == pid,
            None => false,
        };
        if hit {
            return match seed_of(item) {
                None => None,
                Some(seed) => Some(explanation_json(pid, item, seed, now)),
            };
        }
        i += 1;
    }
    None
}

} // verus!

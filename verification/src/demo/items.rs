//! The items and processes of the demonstration dataset.
//!
//! Five coding-agent sessions on one machine: three ended and left things
//! behind, two are active. The databases persist and are never proposed for
//! cleanup.

use crate::model::port::{IpAddr, ListeningPort, Protocol};
use crate::model::process::ProcessInfo;
use crate::model::project::{Project, ProjectModel};
use crate::model::runtime;
use crate::model::runtime::{
    Category, ItemModel, RuntimeItem, RuntimeState, Suspicion, SuspicionReason,
};
use crate::text;
use vstd::prelude::*;

verus! {

/// Bytes of a mebibyte.
pub const MIB: u64 = 1_048_576;

/// A local port of the dataset.
pub open spec fn local_port(port: u16) -> ListeningPort {
    ListeningPort { protocol: Protocol::Tcp, address: IpAddr::V4(127, 0, 0, 1), port, pid: 0 }
}

/// A project of the dataset.
pub open spec fn project_named(name: Seq<char>) -> ProjectModel {
    ProjectModel { name, root: "/Users/me/Work/"@ + name }
}

/// An item of the dataset, its memory in mebibytes.
pub open spec fn shown(
    category: Category,
    name: Seq<char>,
    pid: u32,
    mib: u64,
    state: RuntimeState,
    suspicion: Option<(u8, Seq<SuspicionReason>)>,
    port: Option<u16>,
    project: Option<Seq<char>>,
    children: Seq<ItemModel>,
) -> ItemModel {
    ItemModel {
        category,
        name,
        root: Some(pid),
        pids: seq![pid],
        memory: (mib * MIB) as u64,
        state,
        suspicion,
        ports: match port {
            Some(p) => seq![local_port(p)],
            None => Seq::empty(),
        },
        project: match project {
            Some(n) => Some(project_named(n)),
            None => None,
        },
        children,
    }
}

fn show(
    category: Category,
    name: &str,
    pid: u32,
    mib: u64,
    state: RuntimeState,
    suspicion: Option<Suspicion>,
    port: Option<u16>,
    project: Option<&str>,
    children: Vec<RuntimeItem>,
) -> (r: RuntimeItem)
    requires
        mib <= 0x1_0000_0000,
    ensures
        r.model() == shown(
            category,
            name@,
            pid,
            mib,
            state,
            match suspicion {
                Some(s) => Some((s.score, s.reasons@)),
                None => None,
            },
            port,
            match project {
                Some(n) => Some(n@),
                None => None,
            },
            runtime::models(children@),
        ),
{
    let mut process_ids: Vec<u32> = Vec::new();
    process_ids.push(pid);
    assert(process_ids@ =~= seq![pid]);
    let mut ports: Vec<ListeningPort> = Vec::new();
    if let Some(p) = port {
        ports.push(
            ListeningPort {
                protocol: Protocol::Tcp,
                address: IpAddr::V4(127, 0, 0, 1),
                port: p,
                pid: 0,
            },
        );
        assert(ports@ =~= seq![local_port(p)]);
    } else {
        assert(ports@ =~= Seq::<ListeningPort>::empty());
    }
    let project: Option<Project> = match project {
        Some(n) => Some(
            Project { name: n.to_owned(), root: "/Users/me/Work/".to_owned().concat(n) },
        ),
        None => None,
    };
    let r: RuntimeItem = RuntimeItem {
        category,
        display_name: name.to_owned(),
        root_pid: Some(pid),
        process_ids,
        memory_bytes: mib * MIB,
        state,
        suspicion,
        ports,
        project,
        children,
    };
    proof {
        runtime::model_children(r);
    }
    r
}

fn ended(score: u8) -> (r: Option<Suspicion>)
    ensures
        r matches Some(s) && s.score == score && s.reasons@ == seq![
            SuspicionReason::SessionOwnerEnded,
        ],
{
    let mut reasons: Vec<SuspicionReason> = Vec::new();
    reasons.push(SuspicionReason::SessionOwnerEnded);
    assert(reasons@ =~= seq![SuspicionReason::SessionOwnerEnded]);
    Some(Suspicion { score, reasons })
}

fn ended_and(score: u8, reason: SuspicionReason) -> (r: Option<Suspicion>)
    ensures
        r matches Some(s) && s.score == score && s.reasons@ == seq![
            SuspicionReason::SessionOwnerEnded,
            reason,
        ],
{
    let mut reasons: Vec<SuspicionReason> = Vec::new();
    reasons.push(SuspicionReason::SessionOwnerEnded);
    reasons.push(reason);
    assert(reasons@ =~= seq![SuspicionReason::SessionOwnerEnded, reason]);
    Some(Suspicion { score, reasons })
}

fn no_items() -> (r: Vec<RuntimeItem>)
    ensures
        runtime::models(r@) == Seq::<ItemModel>::empty(),
{
    let r: Vec<RuntimeItem> = Vec::new();
    assert(runtime::models(r@) =~= Seq::<ItemModel>::empty());
    r
}

fn with(list: Vec<RuntimeItem>, item: RuntimeItem) -> (r: Vec<RuntimeItem>)
    ensures
        runtime::models(r@) == runtime::models(list@).push(item.model()),
{
    let mut list: Vec<RuntimeItem> = list;
    let ghost before = runtime::models(list@);
    let ghost m = item.model();
    list.push(item);
    assert(runtime::models(list@) =~= before.push(m));
    list
}

pub open spec fn opencode_browser_model() -> ItemModel {
    shown(
        Category::Browser,
        "Chromium x8"@,
        4102,
        1160,
        RuntimeState::Suspicious,
        Some((80u8, seq![SuspicionReason::SessionOwnerEnded, SuspicionReason::HeadlessBrowserDetached])),
        None,
        Some("wyd"@),
        Seq::empty(),
    )
}

fn opencode_browser_item() -> (r: RuntimeItem)
    ensures
        r.model() == opencode_browser_model(),
{
    show(
        Category::Browser,
        "Chromium x8",
        4102,
        1160,
        RuntimeState::Suspicious,
        ended_and(80, SuspicionReason::HeadlessBrowserDetached),
        None,
        Some("wyd"),
        no_items(),
    )
}

pub open spec fn opencode_mcp_model() -> ItemModel {
    shown(
        Category::Mcp,
        "chrome-devtools-mcp"@,
        4101,
        42,
        RuntimeState::Suspicious,
        Some((60u8, seq![SuspicionReason::SessionOwnerEnded])),
        None,
        Some("wyd"@),
        Seq::empty().push(opencode_browser_model()),
    )
}

fn opencode_mcp_item() -> (r: RuntimeItem)
    ensures
        r.model() == opencode_mcp_model(),
{
    show(
        Category::Mcp,
        "chrome-devtools-mcp",
        4101,
        42,
        RuntimeState::Suspicious,
        ended(60),
        None,
        Some("wyd"),
        with(no_items(), opencode_browser_item()),
    )
}

pub open spec fn opencode_vite_model() -> ItemModel {
    shown(
        Category::DevServer,
        "vite :5173"@,
        4103,
        118,
        RuntimeState::Suspicious,
        Some((60u8, seq![SuspicionReason::SessionOwnerEnded, SuspicionReason::LongRunningDevServer])),
        Some(5173),
        Some("wyd"@),
        Seq::empty(),
    )
}

fn opencode_vite_item() -> (r: RuntimeItem)
    ensures
        r.model() == opencode_vite_model(),
{
    show(
        Category::DevServer,
        "vite :5173",
        4103,
        118,
        RuntimeState::Suspicious,
        ended_and(60, SuspicionReason::LongRunningDevServer),
        Some(5173),
        Some("wyd"),
        no_items(),
    )
}

pub open spec fn opencode_model() -> ItemModel {
    shown(
        Category::Agent,
        "opencode"@,
        4100,
        140,
        RuntimeState::Suspicious,
        Some((70u8, seq![SuspicionReason::SessionOwnerEnded])),
        None,
        Some("wyd"@),
        Seq::empty().push(opencode_mcp_model()).push(opencode_vite_model()),
    )
}

fn opencode_item() -> (r: RuntimeItem)
    ensures
        r.model() == opencode_model(),
{
    show(
        Category::Agent,
        "opencode",
        4100,
        140,
        RuntimeState::Suspicious,
        ended(70),
        None,
        Some("wyd"),
        with(with(no_items(), opencode_mcp_item()), opencode_vite_item()),
    )
}

pub open spec fn aider_browser_model() -> ItemModel {
    shown(
        Category::Browser,
        "Chromium x3"@,
        4202,
        450,
        RuntimeState::Suspicious,
        Some((75u8, seq![SuspicionReason::SessionOwnerEnded, SuspicionReason::HeadlessBrowserDetached])),
        None,
        Some("docs"@),
        Seq::empty(),
    )
}

fn aider_browser_item() -> (r: RuntimeItem)
    ensures
        r.model() == aider_browser_model(),
{
    show(
        Category::Browser,
        "Chromium x3",
        4202,
        450,
        RuntimeState::Suspicious,
        ended_and(75, SuspicionReason::HeadlessBrowserDetached),
        None,
        Some("docs"),
        no_items(),
    )
}

pub open spec fn aider_playwright_model() -> ItemModel {
    shown(
        Category::Mcp,
        "playwright-mcp"@,
        4201,
        58,
        RuntimeState::Suspicious,
        Some((55u8, seq![SuspicionReason::SessionOwnerEnded])),
        None,
        Some("docs"@),
        Seq::empty().push(aider_browser_model()),
    )
}

fn aider_playwright_item() -> (r: RuntimeItem)
    ensures
        r.model() == aider_playwright_model(),
{
    show(
        Category::Mcp,
        "playwright-mcp",
        4201,
        58,
        RuntimeState::Suspicious,
        ended(55),
        None,
        Some("docs"),
        with(no_items(), aider_browser_item()),
    )
}

pub open spec fn aider_files_model() -> ItemModel {
    shown(
        Category::Mcp,
        "filesystem-mcp"@,
        4203,
        12,
        RuntimeState::Suspicious,
        Some((45u8, seq![SuspicionReason::SessionOwnerEnded])),
        None,
        Some("docs"@),
        Seq::empty(),
    )
}

fn aider_files_item() -> (r: RuntimeItem)
    ensures
        r.model() == aider_files_model(),
{
    show(
        Category::Mcp,
        "filesystem-mcp",
        4203,
        12,
        RuntimeState::Suspicious,
        ended(45),
        None,
        Some("docs"),
        no_items(),
    )
}

pub open spec fn aider_next_model() -> ItemModel {
    shown(
        Category::DevServer,
        "next :3000"@,
        4204,
        210,
        RuntimeState::Suspicious,
        Some((65u8, seq![SuspicionReason::SessionOwnerEnded, SuspicionReason::LongRunningDevServer])),
        Some(3000),
        Some("docs"@),
        Seq::empty(),
    )
}

fn aider_next_item() -> (r: RuntimeItem)
    ensures
        r.model() == aider_next_model(),
{
    show(
        Category::DevServer,
        "next :3000",
        4204,
        210,
        RuntimeState::Suspicious,
        ended_and(65, SuspicionReason::LongRunningDevServer),
        Some(3000),
        Some("docs"),
        no_items(),
    )
}

pub open spec fn aider_model() -> ItemModel {
    shown(
        Category::Agent,
        "aider"@,
        4200,
        160,
        RuntimeState::Suspicious,
        Some((70u8, seq![SuspicionReason::SessionOwnerEnded])),
        None,
        Some("docs"@),
        Seq::empty().push(aider_playwright_model()).push(aider_files_model()).push(aider_next_model()),
    )
}

fn aider_item() -> (r: RuntimeItem)
    ensures
        r.model() == aider_model(),
{
    show(
        Category::Agent,
        "aider",
        4200,
        160,
        RuntimeState::Suspicious,
        ended(70),
        None,
        Some("docs"),
        with(with(with(no_items(), aider_playwright_item()), aider_files_item()), aider_next_item()),
    )
}

pub open spec fn cursor_mcp_model() -> ItemModel {
    shown(
        Category::Mcp,
        "github-mcp"@,
        4301,
        30,
        RuntimeState::Suspicious,
        Some((50u8, seq![SuspicionReason::SessionOwnerEnded])),
        None,
        Some("site"@),
        Seq::empty(),
    )
}

fn cursor_mcp_item() -> (r: RuntimeItem)
    ensures
        r.model() == cursor_mcp_model(),
{
    show(
        Category::Mcp,
        "github-mcp",
        4301,
        30,
        RuntimeState::Suspicious,
        ended(50),
        None,
        Some("site"),
        no_items(),
    )
}

pub open spec fn cursor_vite_model() -> ItemModel {
    shown(
        Category::DevServer,
        "vite :5173"@,
        4302,
        118,
        RuntimeState::Suspicious,
        Some((60u8, seq![SuspicionReason::SessionOwnerEnded, SuspicionReason::LongRunningDevServer])),
        Some(5173),
        Some("site"@),
        Seq::empty(),
    )
}

fn cursor_vite_item() -> (r: RuntimeItem)
    ensures
        r.model() == cursor_vite_model(),
{
    show(
        Category::DevServer,
        "vite :5173",
        4302,
        118,
        RuntimeState::Suspicious,
        ended_and(60, SuspicionReason::LongRunningDevServer),
        Some(5173),
        Some("site"),
        no_items(),
    )
}

pub open spec fn cursor_model() -> ItemModel {
    shown(
        Category::Agent,
        "cursor"@,
        4300,
        150,
        RuntimeState::Suspicious,
        Some((70u8, seq![SuspicionReason::SessionOwnerEnded])),
        None,
        Some("site"@),
        Seq::empty().push(cursor_mcp_model()).push(cursor_vite_model()),
    )
}

fn cursor_item() -> (r: RuntimeItem)
    ensures
        r.model() == cursor_model(),
{
    show(
        Category::Agent,
        "cursor",
        4300,
        150,
        RuntimeState::Suspicious,
        ended(70),
        None,
        Some("site"),
        with(with(no_items(), cursor_mcp_item()), cursor_vite_item()),
    )
}

pub open spec fn codex_github_model() -> ItemModel {
    shown(
        Category::Mcp,
        "github-mcp"@,
        5101,
        22,
        RuntimeState::Active,
        None,
        None,
        Some("api"@),
        Seq::empty(),
    )
}

fn codex_github_item() -> (r: RuntimeItem)
    ensures
        r.model() == codex_github_model(),
{
    show(
        Category::Mcp,
        "github-mcp",
        5101,
        22,
        RuntimeState::Active,
        None,
        None,
        Some("api"),
        no_items(),
    )
}

pub open spec fn codex_context_model() -> ItemModel {
    shown(
        Category::Mcp,
        "context7-mcp"@,
        5102,
        18,
        RuntimeState::Active,
        None,
        None,
        Some("api"@),
        Seq::empty(),
    )
}

fn codex_context_item() -> (r: RuntimeItem)
    ensures
        r.model() == codex_context_model(),
{
    show(
        Category::Mcp,
        "context7-mcp",
        5102,
        18,
        RuntimeState::Active,
        None,
        None,
        Some("api"),
        no_items(),
    )
}

pub open spec fn codex_analyzer_model() -> ItemModel {
    shown(
        Category::LanguageServer,
        "rust-analyzer"@,
        5103,
        220,
        RuntimeState::Active,
        None,
        None,
        Some("api"@),
        Seq::empty(),
    )
}

fn codex_analyzer_item() -> (r: RuntimeItem)
    ensures
        r.model() == codex_analyzer_model(),
{
    show(
        Category::LanguageServer,
        "rust-analyzer",
        5103,
        220,
        RuntimeState::Active,
        None,
        None,
        Some("api"),
        no_items(),
    )
}

pub open spec fn codex_watch_model() -> ItemModel {
    shown(
        Category::Worker,
        "cargo-watch"@,
        5104,
        35,
        RuntimeState::Active,
        None,
        None,
        Some("api"@),
        Seq::empty(),
    )
}

fn codex_watch_item() -> (r: RuntimeItem)
    ensures
        r.model() == codex_watch_model(),
{
    show(
        Category::Worker,
        "cargo-watch",
        5104,
        35,
        RuntimeState::Active,
        None,
        None,
        Some("api"),
        no_items(),
    )
}

pub open spec fn codex_model() -> ItemModel {
    shown(
        Category::Agent,
        "codex"@,
        5100,
        90,
        RuntimeState::Active,
        None,
        None,
        Some("api"@),
        Seq::empty().push(codex_github_model()).push(codex_context_model()).push(codex_analyzer_model()).push(codex_watch_model()),
    )
}

fn codex_item() -> (r: RuntimeItem)
    ensures
        r.model() == codex_model(),
{
    show(
        Category::Agent,
        "codex",
        5100,
        90,
        RuntimeState::Active,
        None,
        None,
        Some("api"),
        with(with(with(with(no_items(), codex_github_item()), codex_context_item()), codex_analyzer_item()), codex_watch_item()),
    )
}

pub open spec fn gemini_thinking_model() -> ItemModel {
    shown(
        Category::Mcp,
        "sequential-thinking"@,
        5201,
        24,
        RuntimeState::Active,
        None,
        None,
        Some("notes"@),
        Seq::empty(),
    )
}

fn gemini_thinking_item() -> (r: RuntimeItem)
    ensures
        r.model() == gemini_thinking_model(),
{
    show(
        Category::Mcp,
        "sequential-thinking",
        5201,
        24,
        RuntimeState::Active,
        None,
        None,
        Some("notes"),
        no_items(),
    )
}

pub open spec fn gemini_fetch_model() -> ItemModel {
    shown(
        Category::Mcp,
        "fetch-mcp"@,
        5202,
        20,
        RuntimeState::Active,
        None,
        None,
        Some("notes"@),
        Seq::empty(),
    )
}

fn gemini_fetch_item() -> (r: RuntimeItem)
    ensures
        r.model() == gemini_fetch_model(),
{
    show(
        Category::Mcp,
        "fetch-mcp",
        5202,
        20,
        RuntimeState::Active,
        None,
        None,
        Some("notes"),
        no_items(),
    )
}

pub open spec fn gemini_model() -> ItemModel {
    shown(
        Category::Agent,
        "gemini-cli"@,
        5200,
        110,
        RuntimeState::Active,
        None,
        None,
        Some("notes"@),
        Seq::empty().push(gemini_thinking_model()).push(gemini_fetch_model()),
    )
}

fn gemini_item() -> (r: RuntimeItem)
    ensures
        r.model() == gemini_model(),
{
    show(
        Category::Agent,
        "gemini-cli",
        5200,
        110,
        RuntimeState::Active,
        None,
        None,
        Some("notes"),
        with(with(no_items(), gemini_thinking_item()), gemini_fetch_item()),
    )
}

pub open spec fn postgres_model() -> ItemModel {
    shown(
        Category::Database,
        "postgres"@,
        9100,
        320,
        RuntimeState::Persistent,
        None,
        Some(5432),
        None,
        Seq::empty(),
    )
}

fn postgres_item() -> (r: RuntimeItem)
    ensures
        r.model() == postgres_model(),
{
    show(
        Category::Database,
        "postgres",
        9100,
        320,
        RuntimeState::Persistent,
        None,
        Some(5432),
        None,
        no_items(),
    )
}

pub open spec fn redis_model() -> ItemModel {
    shown(
        Category::Database,
        "redis"@,
        9101,
        18,
        RuntimeState::Persistent,
        None,
        Some(6379),
        None,
        Seq::empty(),
    )
}

fn redis_item() -> (r: RuntimeItem)
    ensures
        r.model() == redis_model(),
{
    show(
        Category::Database,
        "redis",
        9101,
        18,
        RuntimeState::Persistent,
        None,
        Some(6379),
        None,
        no_items(),
    )
}

pub open spec fn mysql_model() -> ItemModel {
    shown(
        Category::Database,
        "mysql"@,
        9102,
        260,
        RuntimeState::Persistent,
        None,
        Some(3306),
        None,
        Seq::empty(),
    )
}

fn mysql_item() -> (r: RuntimeItem)
    ensures
        r.model() == mysql_model(),
{
    show(
        Category::Database,
        "mysql",
        9102,
        260,
        RuntimeState::Persistent,
        None,
        Some(3306),
        None,
        no_items(),
    )
}

/// The items: five agents and what belongs to them, then the databases.
pub open spec fn item_models() -> Seq<ItemModel> {
    Seq::empty().push(
        opencode_model(),
    ).push(
        aider_model(),
    ).push(
        cursor_model(),
    ).push(
        codex_model(),
    ).push(
        gemini_model(),
    ).push(
        postgres_model(),
    ).push(
        redis_model(),
    ).push(
        mysql_model(),
    )
}

pub fn items() -> (r: Vec<RuntimeItem>)
    ensures
        runtime::models(r@) == item_models(),
{
    let mut r: Vec<RuntimeItem> = no_items();

    r = with(r, opencode_item());
    r = with(r, aider_item());
    r = with(r, cursor_item());
    r = with(r, codex_item());
    r = with(r, gemini_item());
    r = with(r, postgres_item());
    r = with(r, redis_item());
    r = with(r, mysql_item());
    r
}

// ---------------------------------------------------------------------------
// Processes
// ---------------------------------------------------------------------------

/// A process as a model.
#[verifier::ext_equal]
pub struct ProcessModel {
    pub pid: u32,
    pub parent: Option<u32>,
    pub name: Seq<char>,
    pub command: Seq<Seq<char>>,
    pub executable: Option<Seq<char>>,
    pub cwd: Option<Seq<char>>,
    pub memory: u64,
    pub start: u64,
    pub tty: Option<Seq<char>>,
}

pub open spec fn process_model(p: ProcessInfo) -> ProcessModel {
    ProcessModel {
        pid: p.pid,
        parent: p.parent_pid,
        name: p.name@,
        command: text::texts(p.command@),
        executable: text::text_of(p.executable),
        cwd: text::text_of(p.cwd),
        memory: p.memory_bytes,
        start: p.start_time,
        tty: text::text_of(p.tty),
    }
}

pub open spec fn process_models_of(ps: Seq<ProcessInfo>) -> Seq<ProcessModel> {
    Seq::new(ps.len(), |i: int| process_model(ps[i]))
}

/// A moment some seconds ago.
pub open spec fn ago(now: u64, secs: u64) -> u64 {
    if now >= secs {
        (now - secs) as u64
    } else {
        0
    }
}

/// A process of the dataset, its memory in mebibytes.
pub open spec fn process(
    now: u64,
    pid: u32,
    name: Seq<char>,
    command: Seq<Seq<char>>,
    mib: u64,
    secs: u64,
) -> ProcessModel {
    ProcessModel {
        pid,
        parent: None,
        name,
        command,
        executable: None,
        cwd: None,
        memory: (mib * MIB) as u64,
        start: ago(now, secs),
        tty: None,
    }
}

pub fn words(parts: &[&str]) -> (r: Vec<String>)
    ensures
        text::texts(r@) == Seq::new(parts@.len(), |i: int| parts@[i]@),
{
    let mut r: Vec<String> = Vec::new();
    let ghost want = Seq::new(parts@.len(), |i: int| parts@[i]@);
    let mut i: usize = 0;
    assert(text::texts(r@) =~= want.take(0));
    while i < parts.len()
        invariant
            i <= parts@.len(),
            want.len() == parts@.len(),
            forall|k: int| 0 <= k < want.len() ==> #[trigger] want[k] == parts@[k]@,
            text::texts(r@) == want.take(i as int),
        decreases parts@.len() - i,
    {
        let ghost before = text::texts(r@);
        let s: String = parts[i].to_owned();
        r.push(s);
        assert(text::texts(r@) =~= before.push(want[i as int]));
        assert(want.take(i + 1) =~= before.push(want[i as int]));
        i += 1;
    }
    assert(want.take(want.len() as int) =~= want);
    r
}

fn one(a: &str) -> (r: Vec<String>)
    ensures
        text::texts(r@) == seq![a@],
{
    let r: Vec<String> = words(&[a]);
    assert(text::texts(r@) =~= seq![a@]);
    r
}

fn two(a: &str, b: &str) -> (r: Vec<String>)
    ensures
        text::texts(r@) == seq![a@, b@],
{
    let r: Vec<String> = words(&[a, b]);
    assert(text::texts(r@) =~= seq![a@, b@]);
    r
}

fn three(a: &str, b: &str, c: &str) -> (r: Vec<String>)
    ensures
        text::texts(r@) == seq![a@, b@, c@],
{
    let r: Vec<String> = words(&[a, b, c]);
    assert(text::texts(r@) =~= seq![a@, b@, c@]);
    r
}

fn add_process(
    list: &mut Vec<ProcessInfo>,
    now: u64,
    pid: u32,
    name: &str,
    command: Vec<String>,
    mib: u64,
    secs: u64,
)
    requires
        mib <= 0x1_0000_0000,
    ensures
        process_models_of(final(list)@) == process_models_of(old(list)@).push(
            process(now, pid, name@, text::texts(command@), mib, secs),
        ),
{
    let ghost before = process_models_of(list@);
    let p: ProcessInfo = ProcessInfo {
        pid,
        parent_pid: None,
        name: name.to_owned(),
        command,
        executable: None,
        cwd: None,
        memory_bytes: mib * MIB,
        start_time: if now >= secs {
            now - secs
        } else {
            0
        },
        tty: None,
    };
    let ghost pm = process_model(p);
    list.push(p);
    assert(process_models_of(list@) =~= before.push(pm));
}

/// The processes: the agents, what they started, and the databases.
pub open spec fn process_models(now: u64) -> Seq<ProcessModel> {
    Seq::empty()
        .push(process(now, 4100, "opencode"@, seq!["opencode"@, "~/Work/wyd"@], 140, 2820))
        .push(process(now, 4101, "chrome-devtools-mcp"@, seq!["chrome-devtools-mcp"@], 42, 2700))
        .push(process(now, 4102, "Chromium"@, seq!["Chromium"@, "--headless"@], 145, 1800))
        .push(process(now, 4103, "vite"@, seq!["vite"@, "--port"@, "5173"@], 118, 1500))
        .push(process(now, 4200, "aider"@, seq!["aider"@, "~/Work/docs"@], 160, 7200))
        .push(process(now, 4201, "playwright-mcp"@, seq!["playwright-mcp"@], 58, 6600))
        .push(process(now, 4202, "Chromium"@, seq!["Chromium"@, "--headless"@], 150, 5400))
        .push(process(now, 4203, "filesystem-mcp"@, seq!["filesystem-mcp"@], 12, 6900))
        .push(process(now, 4204, "next"@, seq!["next"@, "dev"@], 210, 6300))
        .push(process(now, 4300, "cursor"@, seq!["cursor"@, "~/Work/site"@], 150, 10800))
        .push(process(now, 4301, "github-mcp"@, seq!["github-mcp"@], 30, 10200))
        .push(process(now, 4302, "vite"@, seq!["vite"@, "--port"@, "5173"@], 118, 9600))
        .push(process(now, 5100, "codex"@, seq!["codex"@, "~/Work/api"@], 90, 660))
        .push(process(now, 5101, "github-mcp"@, seq!["github-mcp"@], 22, 600))
        .push(process(now, 5102, "context7-mcp"@, seq!["context7-mcp"@], 18, 540))
        .push(process(now, 5103, "rust-analyzer"@, seq!["rust-analyzer"@], 220, 660))
        .push(process(now, 5104, "cargo-watch"@, seq!["cargo-watch"@], 35, 480))
        .push(process(now, 5200, "gemini-cli"@, seq!["gemini-cli"@, "~/Work/notes"@], 110, 1500))
        .push(process(now, 5201, "sequential-thinking"@, seq!["sequential-thinking"@], 24, 1440))
        .push(process(now, 5202, "fetch-mcp"@, seq!["fetch-mcp"@], 20, 1200))
        .push(process(now, 9100, "postgres"@, seq!["postgres"@], 320, 864000))
        .push(process(now, 9101, "redis-server"@, seq!["redis-server"@], 18, 1728000))
        .push(process(now, 9102, "mysqld"@, seq!["mysqld"@], 260, 2592000))
}

pub fn processes(now: u64) -> (r: Vec<ProcessInfo>)
    ensures
        process_models_of(r@) == process_models(now),
{
    let mut r: Vec<ProcessInfo> = Vec::new();
    assert(process_models_of(r@) =~= Seq::<ProcessModel>::empty());
    add_process(&mut r, now, 4100, "opencode", two("opencode", "~/Work/wyd"), 140, 2820);
    add_process(&mut r, now, 4101, "chrome-devtools-mcp", one("chrome-devtools-mcp"), 42, 2700);
    add_process(&mut r, now, 4102, "Chromium", two("Chromium", "--headless"), 145, 1800);
    add_process(&mut r, now, 4103, "vite", three("vite", "--port", "5173"), 118, 1500);
    add_process(&mut r, now, 4200, "aider", two("aider", "~/Work/docs"), 160, 7200);
    add_process(&mut r, now, 4201, "playwright-mcp", one("playwright-mcp"), 58, 6600);
    add_process(&mut r, now, 4202, "Chromium", two("Chromium", "--headless"), 150, 5400);
    add_process(&mut r, now, 4203, "filesystem-mcp", one("filesystem-mcp"), 12, 6900);
    add_process(&mut r, now, 4204, "next", two("next", "dev"), 210, 6300);
    add_process(&mut r, now, 4300, "cursor", two("cursor", "~/Work/site"), 150, 10800);
    add_process(&mut r, now, 4301, "github-mcp", one("github-mcp"), 30, 10200);
    add_process(&mut r, now, 4302, "vite", three("vite", "--port", "5173"), 118, 9600);
    add_process(&mut r, now, 5100, "codex", two("codex", "~/Work/api"), 90, 660);
    add_process(&mut r, now, 5101, "github-mcp", one("github-mcp"), 22, 600);
    add_process(&mut r, now, 5102, "context7-mcp", one("context7-mcp"), 18, 540);
    add_process(&mut r, now, 5103, "rust-analyzer", one("rust-analyzer"), 220, 660);
    add_process(&mut r, now, 5104, "cargo-watch", one("cargo-watch"), 35, 480);
    add_process(&mut r, now, 5200, "gemini-cli", two("gemini-cli", "~/Work/notes"), 110, 1500);
    add_process(&mut r, now, 5201, "sequential-thinking", one("sequential-thinking"), 24, 1440);
    add_process(&mut r, now, 5202, "fetch-mcp", one("fetch-mcp"), 20, 1200);
    add_process(&mut r, now, 9100, "postgres", one("postgres"), 320, 864000);
    add_process(&mut r, now, 9101, "redis-server", one("redis-server"), 18, 1728000);
    add_process(&mut r, now, 9102, "mysqld", one("mysqld"), 260, 2592000);
    r
}

} // verus!

//! Scoring grouped items: which of them were left behind.

use crate::classify::pids;
use crate::classify::pids::{find_first, is_present, MAX_ANCESTORS};
use crate::config::Config;
use crate::model::process::ProcessInfo;
use crate::model::runtime;
use crate::model::runtime::{
    Category, ItemModel, RuntimeItem, RuntimeState, Suspicion, SuspicionReason,
};
use crate::text;
use crate::text::{chars_of, holds, lower_of};
use vstd::prelude::*;

verus! {

/// The score from which an item counts as left behind.
pub const LEFTOVER_SCORE: u64 = 30;

// ---------------------------------------------------------------------------
// Model
// ---------------------------------------------------------------------------

/// The process that an item is built on.
pub open spec fn root_process(m: ItemModel, ps: Seq<ProcessInfo>) -> Option<ProcessInfo> {
    match m.root {
        Some(pid) => pids::first_by_pid(ps, pid),
        None => None,
    }
}

/// Its parent is gone, unknown, or the init process.
pub open spec fn is_reparented(p: ProcessInfo, ps: Seq<ProcessInfo>) -> bool {
    match p.parent_pid {
        None => true,
        Some(pp) => pp == 1 || !pids::present(ps, pp),
    }
}

/// This process or one of its ancestors is attached to a terminal, looking
/// at no more than `steps` of them.
pub open spec fn tty_within(ps: Seq<ProcessInfo>, pid: u32, steps: nat) -> bool
    decreases steps,
{
    if steps == 0 {
        false
    } else {
        match pids::first_by_pid(ps, pid) {
            None => false,
            Some(p) => p.tty is Some || match p.parent_pid {
                Some(pp) => tty_within(ps, pp, (steps - 1) as nat),
                None => false,
            },
        }
    }
}

/// A command that the user declared persistent.
pub open spec fn declared_persistent(hay: Seq<char>, commands: Seq<String>) -> bool {
    exists|k: int|
        0 <= k < commands.len() && text::contains(hay, text::lower((#[trigger] commands[k])@))
}

/// Runs as a service of the machine. Homebrew in the path of a language
/// server is only where its runtime was installed.
pub open spec fn service_path(category: Category, hay: Seq<char>) -> bool {
    category != Category::LanguageServer && (text::contains(hay, "homebrew"@) || text::contains(
        hay,
        "valet"@,
    ) || text::contains(hay, "com.docker"@) || text::contains(hay, "docker desktop"@))
}

/// Never a leftover: databases, services, and what the user declared.
pub open spec fn is_exempt(m: ItemModel, ps: Seq<ProcessInfo>, commands: Seq<String>) -> bool {
    ||| m.category == Category::Database
    ||| m.category == Category::DevService
    ||| match root_process(m, ps) {
        Some(p) => service_path(m.category, p.haystack()) || declared_persistent(
            p.haystack(),
            commands,
        ),
        None => false,
    }
}

/// Something that normally lives under an agent, at the top of the forest.
pub open spec fn is_orphaned(category: Category, parent: Option<Category>) -> bool {
    parent is None && (category == Category::Mcp || category == Category::Browser || category
        == Category::DevServer || category == Category::UnknownDev || category
        == Category::LanguageServer)
}

/// A reason and what it adds to the score.
pub struct Finding {
    pub reason: SuspicionReason,
    pub weight: nat,
}

pub open spec fn when(cond: bool, reason: SuspicionReason, weight: nat) -> Seq<Finding> {
    if cond {
        seq![Finding { reason, weight }]
    } else {
        Seq::empty()
    }
}

/// A dev server that has run for the configured number of hours.
pub open spec fn is_old(p: ProcessInfo, age_hours: u64, now: u64) -> bool {
    p.start_time > 0 && (if now >= p.start_time {
        (now - p.start_time) / 3600
    } else {
        0
    }) >= age_hours
}

/// Everything that speaks for an item being left behind.
pub open spec fn findings(
    m: ItemModel,
    parent: Option<Category>,
    ps: Seq<ProcessInfo>,
    age_hours: u64,
    now: u64,
) -> Seq<Finding> {
    let orphaned = is_orphaned(m.category, parent);
    when(
        orphaned && (m.category == Category::Mcp || m.category == Category::Browser || m.category
            == Category::LanguageServer),
        SuspicionReason::OwningAgentMissing,
        50,
    ) + when(
        m.category == Category::Mcp && parent is None,
        SuspicionReason::McpOwnerMissing,
        25,
    ) + when(
        m.category == Category::Browser && parent is None,
        SuspicionReason::HeadlessBrowserDetached,
        30,
    ) + match root_process(m, ps) {
        Some(p) => when(orphaned && is_reparented(p, ps), SuspicionReason::ParentExited, 40) + when(
            orphaned && !tty_within(ps, p.pid, MAX_ANCESTORS as nat),
            SuspicionReason::NoTerminalAncestor,
            15,
        ) + when(
            m.category == Category::DevServer && is_old(p, age_hours, now),
            SuspicionReason::LongRunningDevServer,
            20,
        ),
        None => Seq::empty(),
    }
}

pub open spec fn weight(fs: Seq<Finding>) -> nat
    decreases fs.len(),
{
    if fs.len() == 0 {
        0
    } else {
        weight(fs.drop_last()) + fs.last().weight
    }
}

/// The score is at most 100.
pub open spec fn score(fs: Seq<Finding>) -> nat {
    if weight(fs) > 100 {
        100
    } else {
        weight(fs)
    }
}

pub open spec fn reasons(fs: Seq<Finding>) -> Seq<SuspicionReason> {
    fs.map_values(|f: Finding| f.reason)
}

/// An item with its verdict, and everything below it with theirs.
pub open spec fn marked(
    m: ItemModel,
    parent: Option<Category>,
    ps: Seq<ProcessInfo>,
    cfg: Config,
    now: u64,
) -> ItemModel
    decreases m, 1nat,
{
    let below = ItemModel { children: marked_children(m, ps, cfg, now), ..m };
    if m.category == Category::Agent {
        ItemModel { suspicion: None, ..below }
    } else if is_exempt(m, ps, cfg.persistent.commands@) {
        ItemModel { state: RuntimeState::Persistent, suspicion: None, ..below }
    } else {
        let fs = findings(m, parent, ps, cfg.leftovers.server_age_hours, now);
        if score(fs) >= LEFTOVER_SCORE {
            ItemModel {
                state: RuntimeState::Suspicious,
                suspicion: Some((score(fs) as u8, reasons(fs))),
                ..below
            }
        } else {
            below
        }
    }
}

pub open spec fn marked_children(
    m: ItemModel,
    ps: Seq<ProcessInfo>,
    cfg: Config,
    now: u64,
) -> Seq<ItemModel>
    decreases m, 0nat,
{
    Seq::new(
        m.children.len(),
        |i: int|
            if 0 <= i < m.children.len() {
                marked(m.children[i], Some(m.category), ps, cfg, now)
            } else {
                arbitrary()
            },
    )
}

/// Memory of every item that was left behind, nested ones too.
pub open spec fn leftover_memory(ms: Seq<ItemModel>) -> nat
    decreases ms,
{
    if ms.len() == 0 {
        0
    } else {
        leftover_memory(ms.drop_last()) + (if ms.last().state == RuntimeState::Suspicious {
            ms.last().memory as nat
        } else {
            0
        }) + leftover_memory(ms.last().children)
    }
}

/// How many items were left behind, nested ones too.
pub open spec fn leftover_items(ms: Seq<ItemModel>) -> nat
    decreases ms,
{
    if ms.len() == 0 {
        0
    } else {
        leftover_items(ms.drop_last()) + (if ms.last().state == RuntimeState::Suspicious {
            1nat
        } else {
            0
        }) + leftover_items(ms.last().children)
    }
}

pub open spec fn capped(n: nat, max: nat) -> nat {
    if n > max {
        max
    } else {
        n
    }
}

// ---------------------------------------------------------------------------
// Laws
// ---------------------------------------------------------------------------

/// Persistent services are never leftovers, and neither is an agent: the
/// marking gives them no suspicion, whatever their age or parentage.
pub proof fn exempt_is_never_a_leftover(
    m: ItemModel,
    parent: Option<Category>,
    ps: Seq<ProcessInfo>,
    cfg: Config,
    now: u64,
)
    requires
        m.category == Category::Agent || is_exempt(m, ps, cfg.persistent.commands@),
    ensures
        marked(m, parent, ps, cfg, now).suspicion is None,
        m.category == Category::Agent ==> marked(m, parent, ps, cfg, now).state == m.state,
        m.category != Category::Agent ==> marked(m, parent, ps, cfg, now).state
            == RuntimeState::Persistent,
{
}

/// What lives under an agent, or under anything else, is not blamed for
/// missing its owner: of a nested item only the age of a dev server counts,
/// and that alone is not enough.
pub proof fn nested_item_is_not_a_leftover(
    m: ItemModel,
    parent: Category,
    ps: Seq<ProcessInfo>,
    cfg: Config,
    now: u64,
)
    requires
        m.state != RuntimeState::Suspicious,
    ensures
        marked(m, Some(parent), ps, cfg, now).state != RuntimeState::Suspicious,
{
    let fs = findings(m, Some(parent), ps, cfg.leftovers.server_age_hours, now);
    assert(weight(Seq::<Finding>::empty()) == 0);
    match root_process(m, ps) {
        Some(p) => {
            let old = m.category == Category::DevServer && is_old(
                p,
                cfg.leftovers.server_age_hours,
                now,
            );
            assert(fs =~= when(old, SuspicionReason::LongRunningDevServer, 20));
            if old {
                assert(fs.drop_last() =~= Seq::<Finding>::empty());
            }
        },
        None => {
            assert(fs =~= Seq::<Finding>::empty());
        },
    }
}

/// A verdict and its score go together: an item is suspicious after marking
/// exactly when it carries a suspicion, and the score is from 30 to 100.
pub proof fn suspicion_has_a_score(
    m: ItemModel,
    parent: Option<Category>,
    ps: Seq<ProcessInfo>,
    cfg: Config,
    now: u64,
)
    requires
        m.state != RuntimeState::Suspicious,
        m.suspicion is None,
    ensures
        ({
            let r = marked(m, parent, ps, cfg, now);
            &&& r.state == RuntimeState::Suspicious <==> r.suspicion is Some
            &&& r.suspicion is Some ==> LEFTOVER_SCORE <= r.suspicion->Some_0.0 <= 100
        }),
{
}

/// Marking changes verdicts and nothing else about an item.
pub proof fn marking_keeps_the_item(
    m: ItemModel,
    parent: Option<Category>,
    ps: Seq<ProcessInfo>,
    cfg: Config,
    now: u64,
)
    ensures
        ({
            let r = marked(m, parent, ps, cfg, now);
            &&& r.category == m.category
            &&& r.name == m.name
            &&& r.root == m.root
            &&& r.pids == m.pids
            &&& r.memory == m.memory
            &&& r.ports == m.ports
            &&& r.project == m.project
            &&& r.children.len() == m.children.len()
        }),
{
}

/// The process at `k` is the one that an item is built on: the first of its
/// pid in the snapshot.
pub open spec fn is_built_on(m: ItemModel, ps: Seq<ProcessInfo>, k: int) -> bool {
    &&& 0 <= k < ps.len()
    &&& m.root == Some(ps[k].pid)
    &&& forall|j: int| 0 <= j < k ==> (#[trigger] ps[j]).pid != ps[k].pid
}

proof fn built_on_is_found(m: ItemModel, ps: Seq<ProcessInfo>, k: int)
    requires
        is_built_on(m, ps, k),
    ensures
        root_process(m, ps) == Some(ps[k]),
{
    pids::first_index_range(ps, ps[k].pid);
    match pids::first_index(ps, ps[k].pid) {
        Some(i) => {
            assert(i < k ==> ps[i].pid != ps[k].pid);
            assert(k < i ==> ps[k].pid != ps[k].pid);
        },
        None => {
            assert(ps[k].pid != ps[k].pid);
        },
    }
}

/// The reasons of a list of findings are those that stand in it.
proof fn reason_of_a_finding(fs: Seq<Finding>, reason: SuspicionReason)
    ensures
        reasons(fs).contains(reason) <==> exists|i: int|
            0 <= i < fs.len() && (#[trigger] fs[i]).reason == reason,
{
    if reasons(fs).contains(reason) {
        let i = choose|i: int| 0 <= i < reasons(fs).len() && reasons(fs)[i] == reason;
        assert(fs[i].reason == reason);
    }
    if exists|i: int| 0 <= i < fs.len() && (#[trigger] fs[i]).reason == reason {
        let i = choose|i: int| 0 <= i < fs.len() && (#[trigger] fs[i]).reason == reason;
        assert(reasons(fs)[i] == reason);
    }
}

/// Reasons and weights of two lists of findings add up.
proof fn findings_add_up(a: Seq<Finding>, b: Seq<Finding>)
    ensures
        weight(a + b) == weight(a) + weight(b),
        forall|reason: SuspicionReason|
            #[trigger] reasons(a + b).contains(reason) <==> reasons(a).contains(reason) || reasons(
                b,
            ).contains(reason),
    decreases b.len(),
{
    if b.len() == 0 {
        assert(a + b =~= a);
    } else {
        findings_add_up(a, b.drop_last());
        assert((a + b).drop_last() =~= a + b.drop_last());
    }
    assert forall|reason: SuspicionReason|
        #[trigger] reasons(a + b).contains(reason) <==> reasons(a).contains(reason) || reasons(
            b,
        ).contains(reason) by {
        let all = reasons(a + b);
        if all.contains(reason) {
            let i = choose|i: int| 0 <= i < all.len() && all[i] == reason;
            if i < a.len() {
                assert(reasons(a)[i] == reason);
            } else {
                assert(reasons(b)[i - a.len()] == reason);
            }
        }
        if reasons(a).contains(reason) {
            let i = choose|i: int| 0 <= i < a.len() && reasons(a)[i] == reason;
            assert(all[i] == reason);
        }
        if reasons(b).contains(reason) {
            let i = choose|i: int| 0 <= i < b.len() && reasons(b)[i] == reason;
            assert(all[a.len() + i] == reason);
        }
    }
}

/// A single finding counts where its condition holds.
proof fn finding_counts_when_it_holds(cond: bool, reason: SuspicionReason, w: nat)
    ensures
        weight(when(cond, reason, w)) == (if cond {
            w
        } else {
            0
        }),
        forall|other: SuspicionReason|
            #[trigger] reasons(when(cond, reason, w)).contains(other) <==> cond && other == reason,
{
    let fs = when(cond, reason, w);
    assert(weight(Seq::<Finding>::empty()) == 0);
    if cond {
        assert(fs.drop_last() =~= Seq::<Finding>::empty());
    }
    assert forall|other: SuspicionReason|
        #[trigger] reasons(fs).contains(other) <==> cond && other == reason by {
        reason_of_a_finding(fs, other);
        if cond {
            assert(fs[0].reason == reason);
        }
    }
}

/// Nothing about an item exempts it from being judged: it is no database and
/// no service, the text of its process names no service of the machine
/// (which is not asked of a language server), and no command that the user
/// declared persistent.
pub open spec fn can_be_judged(m: ItemModel, p: ProcessInfo, commands: Seq<String>) -> bool {
    &&& m.category != Category::Agent
    &&& m.category != Category::Database
    &&& m.category != Category::DevService
    &&& m.category == Category::LanguageServer || (!text::contains(p.haystack(), "homebrew"@)
        && !text::contains(p.haystack(), "valet"@) && !text::contains(p.haystack(), "com.docker"@)
        && !text::contains(p.haystack(), "docker desktop"@))
    &&& forall|k: int|
        0 <= k < commands.len() ==> !text::contains(
            p.haystack(),
            text::lower((#[trigger] commands[k])@),
        )
}

/// A top-level MCP server, browser, dev server, language server or generic
/// runtime that nothing exempts is suspicious after marking where its
/// process names no parent, names pid 1, or names one that is not in the
/// snapshot, and the reasons say that the parent exited.
pub proof fn orphan_is_suspicious(
    m: ItemModel,
    ps: Seq<ProcessInfo>,
    cfg: Config,
    now: u64,
    k: int,
)
    requires
        is_built_on(m, ps, k),
        can_be_judged(m, ps[k], cfg.persistent.commands@),
        m.category == Category::Mcp || m.category == Category::Browser || m.category
            == Category::DevServer || m.category == Category::LanguageServer || m.category
            == Category::UnknownDev,
        match ps[k].parent_pid {
            None => true,
            Some(parent) => parent == 1 || forall|j: int|
                0 <= j < ps.len() ==> (#[trigger] ps[j]).pid != parent,
        },
    ensures
        marked(m, None, ps, cfg, now).state == RuntimeState::Suspicious,
        marked(m, None, ps, cfg, now).suspicion matches Some(s) && s.1.contains(
            SuspicionReason::ParentExited,
        ) && s.0 >= 40,
{
    top_item_is_judged_by_its_facts(m, ps, cfg, now, k);
}

/// The `n`-th process on the way up from a pid: itself, its parent, its
/// parent's parent and so on.
pub open spec fn above(ps: Seq<ProcessInfo>, pid: u32, n: nat) -> Option<ProcessInfo>
    decreases n,
{
    if n == 0 {
        pids::first_by_pid(ps, pid)
    } else {
        match above(ps, pid, (n - 1) as nat) {
            Some(p) => match p.parent_pid {
                Some(parent) => pids::first_by_pid(ps, parent),
                None => None,
            },
            None => None,
        }
    }
}

/// Going up one step first and then the rest comes to the same process.
proof fn above_from_the_parent(ps: Seq<ProcessInfo>, pid: u32, n: nat)
    ensures
        above(ps, pid, n + 1) == match pids::first_by_pid(ps, pid) {
            Some(p) => match p.parent_pid {
                Some(parent) => above(ps, parent, n),
                None => None,
            },
            None => None,
        },
    decreases n,
{
    if n > 0 {
        above_from_the_parent(ps, pid, (n - 1) as nat);
    } else {
        assert(above(ps, pid, 0) == pids::first_by_pid(ps, pid));
    }
}

proof fn terminal_is_on_the_way_up(ps: Seq<ProcessInfo>, pid: u32, steps: nat)
    ensures
        tty_within(ps, pid, steps) <==> exists|n: nat|
            n < steps && (#[trigger] above(ps, pid, n)) is Some && above(ps, pid, n)->0.tty is Some,
    decreases steps,
{
    if steps > 0 {
        assert(above(ps, pid, 0) == pids::first_by_pid(ps, pid));
        if let Some(p) = pids::first_by_pid(ps, pid) {
            if let Some(parent) = p.parent_pid {
                terminal_is_on_the_way_up(ps, parent, (steps - 1) as nat);
                if tty_within(ps, parent, (steps - 1) as nat) {
                    let n = choose|n: nat|
                        n < steps - 1 && (#[trigger] above(ps, parent, n)) is Some && above(
                            ps,
                            parent,
                            n,
                        )->0.tty is Some;
                    above_from_the_parent(ps, pid, n);
                    assert(above(ps, pid, n + 1) is Some);
                }
            }
        }
        if exists|n: nat|
            n < steps && (#[trigger] above(ps, pid, n)) is Some && above(ps, pid, n)->0.tty is Some {
            let n = choose|n: nat|
                n < steps && (#[trigger] above(ps, pid, n)) is Some && above(
                    ps,
                    pid,
                    n,
                )->0.tty is Some;
            if n > 0 {
                above_from_the_parent(ps, pid, (n - 1) as nat);
                let parent = pids::first_by_pid(ps, pid)->0.parent_pid->0;
                assert(above(ps, parent, (n - 1) as nat) is Some);
            }
        }
    }
}

/// What speaks against a top-level item adds up: 50 for a missing agent, 25
/// more for an MCP server and 30 more for a browser, 40 for a parent that is
/// gone, 15 where neither the process nor any of the 63 above it has a
/// terminal, and 20 for a dev server of the configured age. From 30 on it is
/// suspicious, with exactly the reasons that hold and a score of at most 100.
pub proof fn top_item_is_judged_by_its_facts(
    m: ItemModel,
    ps: Seq<ProcessInfo>,
    cfg: Config,
    now: u64,
    k: int,
)
    requires
        is_built_on(m, ps, k),
        can_be_judged(m, ps[k], cfg.persistent.commands@),
    ensures
        ({
            let r = marked(m, None, ps, cfg, now);
            let mcp = m.category == Category::Mcp;
            let browser = m.category == Category::Browser;
            let agentless = mcp || browser || m.category == Category::LanguageServer;
            let placed = agentless || m.category == Category::DevServer || m.category
                == Category::UnknownDev;
            let gone = placed && match ps[k].parent_pid {
                None => true,
                Some(parent) => parent == 1 || forall|j: int|
                    0 <= j < ps.len() ==> (#[trigger] ps[j]).pid != parent,
            };
            let detached = placed && forall|n: nat|
                n < 64 && (#[trigger] above(ps, ps[k].pid, n)) is Some ==> above(
                    ps,
                    ps[k].pid,
                    n,
                )->0.tty is None;
            let hours = cfg.leftovers.server_age_hours;
            let aged = m.category == Category::DevServer && ps[k].start_time > 0 && (hours == 0
                || now >= ps[k].start_time + hours * 3600);
            let total = (if agentless { 50int } else { 0 }) + (if mcp { 25int } else { 0 }) + (
            if browser { 30int } else { 0 }) + (if gone { 40int } else { 0 }) + (if detached {
                15int
            } else {
                0
            }) + (if aged { 20int } else { 0 });
            if total < 30 {
                r.state == m.state && r.suspicion == m.suspicion
            } else {
                &&& r.state == RuntimeState::Suspicious
                &&& r.suspicion is Some
                &&& r.suspicion->Some_0.0 == (if total > 100 { 100 } else { total })
                &&& r.suspicion->Some_0.1.contains(SuspicionReason::OwningAgentMissing) == agentless
                &&& r.suspicion->Some_0.1.contains(SuspicionReason::McpOwnerMissing) == mcp
                &&& r.suspicion->Some_0.1.contains(SuspicionReason::HeadlessBrowserDetached) == browser
                &&& r.suspicion->Some_0.1.contains(SuspicionReason::ParentExited) == gone
                &&& r.suspicion->Some_0.1.contains(SuspicionReason::NoTerminalAncestor) == detached
                &&& r.suspicion->Some_0.1.contains(SuspicionReason::LongRunningDevServer) == aged
            }
        }),
{
    built_on_is_found(m, ps, k);
    let p = ps[k];
    terminal_is_on_the_way_up(ps, p.pid, MAX_ANCESTORS as nat);
    let orphaned = is_orphaned(m.category, None);
    let hours = cfg.leftovers.server_age_hours;
    let c1 = orphaned && (m.category == Category::Mcp || m.category == Category::Browser
        || m.category == Category::LanguageServer);
    let c2 = m.category == Category::Mcp;
    let c3 = m.category == Category::Browser;
    let c4 = orphaned && is_reparented(p, ps);
    let c5 = orphaned && !tty_within(ps, p.pid, MAX_ANCESTORS as nat);
    let c6 = m.category == Category::DevServer && is_old(p, hours, now);
    let f1 = when(c1, SuspicionReason::OwningAgentMissing, 50);
    let f2 = when(c2, SuspicionReason::McpOwnerMissing, 25);
    let f3 = when(c3, SuspicionReason::HeadlessBrowserDetached, 30);
    let f4 = when(c4, SuspicionReason::ParentExited, 40);
    let f5 = when(c5, SuspicionReason::NoTerminalAncestor, 15);
    let f6 = when(c6, SuspicionReason::LongRunningDevServer, 20);
    finding_counts_when_it_holds(c1, SuspicionReason::OwningAgentMissing, 50);
    finding_counts_when_it_holds(c2, SuspicionReason::McpOwnerMissing, 25);
    finding_counts_when_it_holds(c3, SuspicionReason::HeadlessBrowserDetached, 30);
    finding_counts_when_it_holds(c4, SuspicionReason::ParentExited, 40);
    finding_counts_when_it_holds(c5, SuspicionReason::NoTerminalAncestor, 15);
    finding_counts_when_it_holds(c6, SuspicionReason::LongRunningDevServer, 20);
    findings_add_up(f1, f2);
    findings_add_up(f1 + f2, f3);
    findings_add_up(f4, f5);
    findings_add_up(f4 + f5, f6);
    findings_add_up(f1 + f2 + f3, f4 + f5 + f6);
    assert(findings(m, None, ps, hours, now) == f1 + f2 + f3 + (f4 + f5 + f6));
    assert(is_old(p, hours, now) == (p.start_time > 0 && (hours == 0 || now >= p.start_time + hours
        * 3600)));
}

/// A top-level item whose process is not in the snapshot is judged by its
/// category alone: an MCP server at 75, a browser at 80, a language server at
/// 50, and nothing else.
pub proof fn item_without_a_process_is_judged_by_its_place(
    m: ItemModel,
    ps: Seq<ProcessInfo>,
    cfg: Config,
    now: u64,
)
    requires
        m.category != Category::Agent && m.category != Category::Database && m.category
            != Category::DevService,
        match m.root {
            Some(pid) => forall|j: int| 0 <= j < ps.len() ==> (#[trigger] ps[j]).pid != pid,
            None => true,
        },
    ensures
        ({
            let r = marked(m, None, ps, cfg, now);
            match m.category {
                Category::Mcp => r.state == RuntimeState::Suspicious && r.suspicion is Some
                    && r.suspicion->Some_0.0 == 75,
                Category::Browser => r.state == RuntimeState::Suspicious && r.suspicion is Some
                    && r.suspicion->Some_0.0 == 80,
                Category::LanguageServer => r.state == RuntimeState::Suspicious
                    && r.suspicion is Some && r.suspicion->Some_0.0 == 50,
                _ => r.state == m.state && r.suspicion == m.suspicion,
            }
        }),
{
    if let Some(pid) = m.root {
        pids::first_index_range(ps, pid);
    }
    let c1 = m.category == Category::Mcp || m.category == Category::Browser || m.category
        == Category::LanguageServer;
    let c2 = m.category == Category::Mcp;
    let c3 = m.category == Category::Browser;
    let f1 = when(c1, SuspicionReason::OwningAgentMissing, 50);
    let f2 = when(c2, SuspicionReason::McpOwnerMissing, 25);
    let f3 = when(c3, SuspicionReason::HeadlessBrowserDetached, 30);
    finding_counts_when_it_holds(c1, SuspicionReason::OwningAgentMissing, 50);
    finding_counts_when_it_holds(c2, SuspicionReason::McpOwnerMissing, 25);
    finding_counts_when_it_holds(c3, SuspicionReason::HeadlessBrowserDetached, 30);
    findings_add_up(f1, f2);
    findings_add_up(f1 + f2, f3);
    assert(findings(m, None, ps, cfg.leftovers.server_age_hours, now) =~= f1 + f2 + f3);
}

/// What is exempt, in terms of the item and its process: databases and
/// services of a project; anything but a language server whose process names
/// Homebrew, Valet or Docker; and what names a command that the user
/// declared persistent. It is persistent after marking, and without
/// suspicion.
pub proof fn declared_and_machine_services_persist(
    m: ItemModel,
    parent: Option<Category>,
    ps: Seq<ProcessInfo>,
    cfg: Config,
    now: u64,
    k: int,
)
    requires
        is_built_on(m, ps, k),
        m.category != Category::Agent,
        !can_be_judged(m, ps[k], cfg.persistent.commands@),
    ensures
        marked(m, parent, ps, cfg, now).state == RuntimeState::Persistent,
        marked(m, parent, ps, cfg, now).suspicion is None,
{
    built_on_is_found(m, ps, k);
}

/// Everything below an item is judged too, as nested under its category.
pub proof fn nested_items_are_judged(
    m: ItemModel,
    parent: Option<Category>,
    ps: Seq<ProcessInfo>,
    cfg: Config,
    now: u64,
    i: int,
)
    requires
        0 <= i < m.children.len(),
    ensures
        marked(m, parent, ps, cfg, now).children[i] == marked(
            m.children[i],
            Some(m.category),
            ps,
            cfg,
            now,
        ),
{
}

/// The totals of two forests add up, and a single item counts where it is
/// suspicious, together with whatever lies below it.
pub proof fn leftover_totals_add_up(ms: Seq<ItemModel>, ns: Seq<ItemModel>, m: ItemModel)
    ensures
        leftover_items(ms + ns) == leftover_items(ms) + leftover_items(ns),
        leftover_memory(ms + ns) == leftover_memory(ms) + leftover_memory(ns),
        leftover_items(seq![m]) == leftover_items(m.children) + (if m.state
            == RuntimeState::Suspicious {
            1nat
        } else {
            0
        }),
        leftover_memory(seq![m]) == leftover_memory(m.children) + (if m.state
            == RuntimeState::Suspicious {
            m.memory as nat
        } else {
            0
        }),
    decreases ns.len(),
{
    if ns.len() == 0 {
        assert(ms + ns =~= ms);
    } else {
        assert((ms + ns).drop_last() =~= ms + ns.drop_last());
        assert((ms + ns).last() == ns.last());
        leftover_totals_add_up(ms, ns.drop_last(), m);
    }
    let one = seq![m];
    assert(one.drop_last() =~= Seq::<ItemModel>::empty());
    assert(one.last() == m);
    assert(leftover_items(one.drop_last()) == 0);
    assert(leftover_memory(one.drop_last()) == 0);
}

// ---------------------------------------------------------------------------
// Marking
// ---------------------------------------------------------------------------

/// Score grouped items. Persistent services are never leftovers. `now` is in
/// seconds since the Unix epoch.
pub fn mark(items: &mut Vec<RuntimeItem>, processes: &Vec<ProcessInfo>, cfg: &Config, now: u64)
    ensures
        runtime::models(final(items)@) == runtime::models(old(items)@).map_values(
            |m: ItemModel| marked(m, None, processes@, *cfg, now),
        ),
{
    let ghost before = items@;
    let mut i: usize = 0;
    while i < items.len()
        invariant
            i <= items.len(),
            items@.len() == before.len(),
            forall|j: int|
                0 <= j < i ==> (#[trigger] items@[j]).model() == marked(
                    before[j].model(),
                    None,
                    processes@,
                    *cfg,
                    now,
                ),
            forall|j: int| i <= j < items@.len() ==> #[trigger] items@[j] == before[j],
        decreases items.len() - i,
    {
        mark_one(&mut items[i], None, processes, cfg, now);
        i += 1;
    }
    assert(runtime::models(items@) =~= runtime::models(before).map_values(
        |m: ItemModel| marked(m, None, processes@, *cfg, now),
    ));
}

#[verifier::loop_isolation(false)]
fn mark_one(
    item: &mut RuntimeItem,
    parent: Option<Category>,
    processes: &Vec<ProcessInfo>,
    cfg: &Config,
    now: u64,
)
    ensures
        final(item).model() == marked(old(item).model(), parent, processes@, *cfg, now),
    decreases *old(item),
{
    let ghost start = *item;
    let ghost m = item.model();
    let ghost before = item.children@;
    proof {
        runtime::model_children(start);
    }
    let category: Category = item.category;
    let mut i: usize = 0;
    while i < item.children.len()
        invariant
            i <= item.children.len(),
            item.children@.len() == before.len(),
            item.category == start.category,
            item.display_name == start.display_name,
            item.root_pid == start.root_pid,
            item.process_ids == start.process_ids,
            item.memory_bytes == start.memory_bytes,
            item.state == start.state,
            item.suspicion == start.suspicion,
            item.ports == start.ports,
            item.project == start.project,
            forall|j: int|
                0 <= j < i ==> (#[trigger] item.children@[j]).model() == marked(
                    before[j].model(),
                    Some(m.category),
                    processes@,
                    *cfg,
                    now,
                ),
            forall|j: int| i <= j < before.len() ==> #[trigger] item.children@[j] == before[j],
        decreases item.children.len() - i,
    {
        assert(item.children@[i as int] == before[i as int]);
        assert(decreases_to!(start => before[i as int]));
        mark_one(&mut item.children[i], Some(category), processes, cfg, now);
        i += 1;
    }
    let ghost mid = *item;
    proof {
        runtime::model_children(mid);
        assert(runtime::models(mid.children@) =~= marked_children(m, processes@, *cfg, now));
        assert(mid.model() == ItemModel {
            children: marked_children(m, processes@, *cfg, now),
            ..m
        });
    }
    if item.category == Category::Agent {
        item.suspicion = None;
        proof {
            runtime::model_children(*item);
        }
        return;
    }
    if exempt(item, processes, cfg) {
        item.state = RuntimeState::Persistent;
        item.suspicion = None;
        proof {
            runtime::model_children(*item);
        }
        return;
    }
    let (points, why): (u64, Vec<SuspicionReason>) = evidence(item, parent, processes, cfg, now);
    if points >= LEFTOVER_SCORE {
        item.state = RuntimeState::Suspicious;
        item.suspicion = Some(Suspicion { score: points as u8, reasons: why });
        proof {
            runtime::model_children(*item);
        }
    }
}

/// Adds a reason where its condition holds.
fn note(
    cond: bool,
    reason: SuspicionReason,
    points: u64,
    total: &mut u64,
    why: &mut Vec<SuspicionReason>,
    Ghost(fs): Ghost<Seq<Finding>>,
)
    requires
        *old(total) == weight(fs),
        *old(total) + points <= u64::MAX,
        old(why)@ == reasons(fs),
    ensures
        *final(total) == weight(fs + when(cond, reason, points as nat)),
        *final(total) <= *old(total) + points,
        final(why)@ == reasons(fs + when(cond, reason, points as nat)),
{
    let ghost f = Finding { reason, weight: points as nat };
    if cond {
        *total = *total + points;
        why.push(reason);
        assert(fs + when(cond, reason, points as nat) =~= fs.push(f));
        assert(fs.push(f).drop_last() =~= fs);
        assert(reasons(fs.push(f)) =~= reasons(fs).push(reason));
    } else {
        assert(fs + when(cond, reason, points as nat) =~= fs);
    }
}

fn evidence(
    item: &RuntimeItem,
    parent: Option<Category>,
    processes: &Vec<ProcessInfo>,
    cfg: &Config,
    now: u64,
) -> (r: (u64, Vec<SuspicionReason>))
    ensures
        ({
            let fs = findings(
                item.model(),
                parent,
                processes@,
                cfg.leftovers.server_age_hours,
                now,
            );
            r.0 == score(fs) && r.1@ == reasons(fs)
        }),
{
    let c: Category = item.category;
    let ghost m = item.model();
    let top: bool = parent.is_none();
    let orphaned: bool = top && (c == Category::Mcp || c == Category::Browser || c
        == Category::DevServer || c == Category::UnknownDev || c == Category::LanguageServer);
    let mut why: Vec<SuspicionReason> = Vec::new();
    let mut total: u64 = 0;
    let ghost none = Seq::<Finding>::empty();
    assert(why@ =~= reasons(none));
    let owner: bool = orphaned && (c == Category::Mcp || c == Category::Browser || c
        == Category::LanguageServer);
    note(owner, SuspicionReason::OwningAgentMissing, 50, &mut total, &mut why, Ghost(none));
    let ghost f1 = none + when(owner, SuspicionReason::OwningAgentMissing, 50);
    let mcp: bool = c == Category::Mcp && top;
    note(mcp, SuspicionReason::McpOwnerMissing, 25, &mut total, &mut why, Ghost(f1));
    let ghost f2 = f1 + when(mcp, SuspicionReason::McpOwnerMissing, 25);
    let browser: bool = c == Category::Browser && top;
    note(
        browser,
        SuspicionReason::HeadlessBrowserDetached,
        30,
        &mut total,
        &mut why,
        Ghost(f2),
    );
    let ghost f3 = f2 + when(browser, SuspicionReason::HeadlessBrowserDetached, 30);
    let ghost mut fs = f3;
    if let Some(k) = root_proc(item, processes) {
        let p: &ProcessInfo = &processes[k];
        let gone: bool = orphaned && reparented(p, processes);
        note(gone, SuspicionReason::ParentExited, 40, &mut total, &mut why, Ghost(f3));
        let ghost f4 = f3 + when(gone, SuspicionReason::ParentExited, 40);
        let unseen: bool = orphaned && !has_tty_ancestor(p.pid, processes);
        note(unseen, SuspicionReason::NoTerminalAncestor, 15, &mut total, &mut why, Ghost(f4));
        let ghost f5 = f4 + when(unseen, SuspicionReason::NoTerminalAncestor, 15);
        let age: u64 = if now >= p.start_time {
            (now - p.start_time) / 3600
        } else {
            0
        };
        let old_server: bool = c == Category::DevServer && p.start_time > 0 && age
            >= cfg.leftovers.server_age_hours;
        note(
            old_server,
            SuspicionReason::LongRunningDevServer,
            20,
            &mut total,
            &mut why,
            Ghost(f5),
        );
        proof {
            fs = f5 + when(old_server, SuspicionReason::LongRunningDevServer, 20);
        }
    }
    assert(fs =~= findings(m, parent, processes@, cfg.leftovers.server_age_hours, now));
    if total > 100 {
        (100, why)
    } else {
        (total, why)
    }
}

#[verifier::loop_isolation(false)]
fn exempt(item: &RuntimeItem, processes: &Vec<ProcessInfo>, cfg: &Config) -> (r: bool)
    ensures
        r == is_exempt(item.model(), processes@, cfg.persistent.commands@),
{
    if item.category == Category::Database || item.category == Category::DevService {
        return true;
    }
    match root_proc(item, processes) {
        None => false,
        Some(k) => {
            let hay: Vec<char> = chars_of(processes[k].hay().as_str());
            if item.category != Category::LanguageServer && (holds(&hay, "homebrew") || holds(
                &hay,
                "valet",
            ) || holds(&hay, "com.docker") || holds(&hay, "docker desktop")) {
                return true;
            }
            let mut i: usize = 0;
            while i < cfg.persistent.commands.len()
                invariant
                    i <= cfg.persistent.commands.len(),
                    forall|j: int|
                        0 <= j < i ==> !text::contains(
                            hay@,
                            text::lower((#[trigger] cfg.persistent.commands@[j])@),
                        ),
                decreases cfg.persistent.commands.len() - i,
            {
                if holds(&hay, lower_of(cfg.persistent.commands[i].as_str()).as_str()) {
                    assert(text::contains(
                        hay@,
                        text::lower(cfg.persistent.commands@[i as int]@),
                    ));
                    return true;
                }
                i += 1;
            }
            false
        },
    }
}

/// The index of the process an item is built on.
fn root_proc(item: &RuntimeItem, processes: &Vec<ProcessInfo>) -> (r: Option<usize>)
    ensures
        match r {
            Some(k) => k < processes.len() && root_process(item.model(), processes@) == Some(
                processes@[k as int],
            ),
            None => root_process(item.model(), processes@) is None,
        },
{
    match item.root_pid {
        Some(pid) => find_first(processes, pid),
        None => None,
    }
}

fn reparented(p: &ProcessInfo, processes: &Vec<ProcessInfo>) -> (r: bool)
    ensures
        r == is_reparented(*p, processes@),
{
    match p.parent_pid {
        None => true,
        Some(pp) => pp == 1 || !is_present(processes, pp),
    }
}

fn has_tty_ancestor(start: u32, processes: &Vec<ProcessInfo>) -> (r: bool)
    ensures
        r == tty_within(processes@, start, MAX_ANCESTORS as nat),
{
    let mut pid: u32 = start;
    let mut steps: usize = MAX_ANCESTORS;
    while steps > 0
        invariant
            steps <= MAX_ANCESTORS,
            tty_within(processes@, start, MAX_ANCESTORS as nat) == tty_within(
                processes@,
                pid,
                steps as nat,
            ),
        decreases steps,
    {
        match find_first(processes, pid) {
            None => {
                return false;
            },
            Some(k) => {
                if processes[k].tty.is_some() {
                    return true;
                }
                match processes[k].parent_pid {
                    Some(pp) => {
                        pid = pp;
                    },
                    None => {
                        return false;
                    },
                }
            },
        }
        steps -= 1;
    }
    false
}

/// Memory held by leftovers, the largest number where it does not fit.
pub fn leftover_ram(items: &Vec<RuntimeItem>) -> (r: u64)
    ensures
        r == capped(leftover_memory(runtime::models(items@)), u64::MAX as nat),
    decreases items@,
{
    let mut total: u64 = 0;
    let mut i: usize = 0;
    let ghost ms = runtime::models(items@);
    assert(ms.take(0) =~= Seq::<ItemModel>::empty());
    while i < items.len()
        invariant
            i <= items.len(),
            ms == runtime::models(items@),
            total == capped(leftover_memory(ms.take(i as int)), u64::MAX as nat),
        decreases items.len() - i,
    {
        proof {
            assert(ms.take(i + 1).drop_last() =~= ms.take(i as int));
            assert(ms.take(i + 1).last() == items@[i as int].model());
            runtime::model_children(items@[i as int]);
        }
        let here: u64 = if items[i].state == RuntimeState::Suspicious {
            items[i].memory_bytes
        } else {
            0
        };
        assert(decreases_to!(items@ => items@[i as int].children@));
        let below: u64 = leftover_ram(&items[i].children);
        total = crate::classify::group::sat_add(
            crate::classify::group::sat_add(total, here),
            below,
        );
        i += 1;
    }
    assert(ms.take(ms.len() as int) =~= ms);
    total
}

/// How many items are leftovers, the largest number where it does not fit.
pub fn leftover_count(items: &Vec<RuntimeItem>) -> (r: usize)
    ensures
        r == capped(leftover_items(runtime::models(items@)), usize::MAX as nat),
    decreases items@,
{
    let mut total: usize = 0;
    let mut i: usize = 0;
    let ghost ms = runtime::models(items@);
    assert(ms.take(0) =~= Seq::<ItemModel>::empty());
    while i < items.len()
        invariant
            i <= items.len(),
            ms == runtime::models(items@),
            total == capped(leftover_items(ms.take(i as int)), usize::MAX as nat),
        decreases items.len() - i,
    {
        proof {
            assert(ms.take(i + 1).drop_last() =~= ms.take(i as int));
            assert(ms.take(i + 1).last() == items@[i as int].model());
            runtime::model_children(items@[i as int]);
        }
        let here: usize = if items[i].state == RuntimeState::Suspicious {
            1
        } else {
            0
        };
        assert(decreases_to!(items@ => items@[i as int].children@));
        let below: usize = leftover_count(&items[i].children);
        total = if here > usize::MAX - total {
            usize::MAX
        } else {
            total + here
        };
        total = if below > usize::MAX - total {
            usize::MAX
        } else {
            total + below
        };
        i += 1;
    }
    assert(ms.take(ms.len() as int) =~= ms);
    total
}

} // verus!

//! Grouped runtime items: what a user sees instead of raw processes.

use crate::model::port::ListeningPort;
use crate::model::project;
use crate::model::project::{Project, ProjectModel};
use crate::text;
use crate::text::dec_of;
use vstd::prelude::*;

verus! {

#[derive(Debug, Clone, Copy, PartialEq, Eq, Hash, Structural)]
pub enum Category {
    Agent,
    Mcp,
    Browser,
    DevServer,
    LanguageServer,
    Database,
    Worker,
    UnknownDev,
    DevService,
}

impl Category {
    pub open spec fn name(self) -> Seq<char> {
        match self {
            Category::Agent => "Agents"@,
            Category::Mcp => "MCP"@,
            Category::Browser => "Browsers"@,
            Category::DevServer => "Dev servers"@,
            Category::LanguageServer => "Language servers"@,
            Category::Database => "Databases"@,
            Category::DevService => "Dev services"@,
            Category::Worker => "Workers"@,
            Category::UnknownDev => "Other"@,
        }
    }

    pub fn label(self) -> (r: &'static str)
        ensures
            r@ == self.name(),
    {
        match self {
            Category::Agent => "Agents",
            Category::Mcp => "MCP",
            Category::Browser => "Browsers",
            Category::DevServer => "Dev servers",
            Category::LanguageServer => "Language servers",
            Category::Database => "Databases",
            Category::DevService => "Dev services",
            Category::Worker => "Workers",
            Category::UnknownDev => "Other",
        }
    }
}

#[derive(Debug, Clone, Copy, PartialEq, Eq, Structural)]
pub enum RuntimeState {
    Active,
    Persistent,
    Suspicious,
}

#[derive(Debug, Clone, Copy, PartialEq, Eq, Structural)]
pub enum SuspicionReason {
    ParentExited,
    OwningAgentMissing,
    McpOwnerMissing,
    HeadlessBrowserDetached,
    NoTerminalAncestor,
    LongRunningDevServer,
    LongRunningWorker,
    SessionOwnerEnded,
}

impl SuspicionReason {
    pub open spec fn phrase(self) -> Seq<char> {
        match self {
            SuspicionReason::ParentExited => "parent exited / re-parented"@,
            SuspicionReason::OwningAgentMissing => "owning agent missing"@,
            SuspicionReason::McpOwnerMissing => "MCP without owner"@,
            SuspicionReason::HeadlessBrowserDetached => "detached headless browser"@,
            SuspicionReason::NoTerminalAncestor => "no terminal ancestor"@,
            SuspicionReason::LongRunningDevServer => "dev server older than threshold"@,
            SuspicionReason::LongRunningWorker => "background worker older than threshold"@,
            SuspicionReason::SessionOwnerEnded => "owning session ended"@,
        }
    }

    pub fn as_str(self) -> (r: &'static str)
        ensures
            r@ == self.phrase(),
    {
        match self {
            SuspicionReason::ParentExited => "parent exited / re-parented",
            SuspicionReason::OwningAgentMissing => "owning agent missing",
            SuspicionReason::McpOwnerMissing => "MCP without owner",
            SuspicionReason::HeadlessBrowserDetached => "detached headless browser",
            SuspicionReason::NoTerminalAncestor => "no terminal ancestor",
            SuspicionReason::LongRunningDevServer => "dev server older than threshold",
            SuspicionReason::LongRunningWorker => "background worker older than threshold",
            SuspicionReason::SessionOwnerEnded => "owning session ended",
        }
    }

    /// The explanation in full sentences.
    pub open spec fn sentence(self) -> Seq<char> {
        match self {
            SuspicionReason::ParentExited =>
                "The original parent is gone or the process was re-parented. It may have outlived the process that launched it."@,
            SuspicionReason::OwningAgentMissing =>
                "WYD can no longer find the agent associated with this runtime."@,
            SuspicionReason::McpOwnerMissing =>
                "This MCP server is still running but no owning agent is currently present."@,
            SuspicionReason::HeadlessBrowserDetached =>
                "A headless browser is still running after its controller or owning runtime disappeared."@,
            SuspicionReason::NoTerminalAncestor =>
                "No ancestor of this process is attached to a terminal, so nobody may be watching it."@,
            SuspicionReason::LongRunningDevServer =>
                "This dev server has been running longer than the configured leftover threshold."@,
            SuspicionReason::LongRunningWorker =>
                "This background worker has been running longer than the configured leftover threshold."@,
            SuspicionReason::SessionOwnerEnded =>
                "WYD previously observed this resource under a runtime session that has ended, but the resource is still alive."@,
        }
    }

    /// One shared human-readable explanation per reason. Heuristic evidence is
    /// worded with hedges ("may", "associated") — it must not sound exact.
    pub fn explanation(self) -> (r: &'static str)
        ensures
            r@ == self.sentence(),
    {
        match self {
            SuspicionReason::ParentExited =>
                "The original parent is gone or the process was re-parented. It may have outlived the process that launched it.",
            SuspicionReason::OwningAgentMissing =>
                "WYD can no longer find the agent associated with this runtime.",
            SuspicionReason::McpOwnerMissing =>
                "This MCP server is still running but no owning agent is currently present.",
            SuspicionReason::HeadlessBrowserDetached =>
                "A headless browser is still running after its controller or owning runtime disappeared.",
            SuspicionReason::NoTerminalAncestor =>
                "No ancestor of this process is attached to a terminal, so nobody may be watching it.",
            SuspicionReason::LongRunningDevServer =>
                "This dev server has been running longer than the configured leftover threshold.",
            SuspicionReason::LongRunningWorker =>
                "This background worker has been running longer than the configured leftover threshold.",
            SuspicionReason::SessionOwnerEnded =>
                "WYD previously observed this resource under a runtime session that has ended, but the resource is still alive.",
        }
    }
}

#[derive(Debug, Clone, PartialEq, Eq)]
pub struct Suspicion {
    pub score: u8,
    pub reasons: Vec<SuspicionReason>,
}

/// One grouped development runtime item (not a raw process).
#[derive(Debug)]
pub struct RuntimeItem {
    pub category: Category,
    pub display_name: String,
    pub root_pid: Option<u32>,
    pub process_ids: Vec<u32>,
    pub memory_bytes: u64,
    pub state: RuntimeState,
    pub suspicion: Option<Suspicion>,
    pub ports: Vec<ListeningPort>,
    pub project: Option<Project>,
    pub children: Vec<RuntimeItem>,
}

impl RuntimeItem {
    /// The name, with a count where the item holds several processes.
    pub open spec fn heading(self) -> Seq<char> {
        if self.process_ids@.len() > 1 {
            self.display_name@ + " ×"@ + text::dec(self.process_ids@.len())
        } else {
            self.display_name@
        }
    }

    pub fn title(&self) -> (r: String)
        ensures
            r@ == self.heading(),
    {
        let n: usize = self.process_ids.len();
        if n > 1 {
            self.display_name.clone().concat(" ×").concat(dec_of(n as u64).as_str())
        } else {
            self.display_name.clone()
        }
    }

    pub open spec fn verdict_name(self) -> Seq<char> {
        match self.state {
            RuntimeState::Suspicious => "leftover candidate"@,
            RuntimeState::Persistent => "persistent"@,
            RuntimeState::Active => "active"@,
        }
    }

    /// Semantic verdict, separate from the raw numeric score. The score is a
    /// decision output; the verdict is how the decision is labelled.
    pub fn verdict(&self) -> (r: &'static str)
        ensures
            r@ == self.verdict_name(),
    {
        match self.state {
            RuntimeState::Suspicious => "leftover candidate",
            RuntimeState::Persistent => "persistent",
            RuntimeState::Active => "active",
        }
    }
}

/// A runtime item as a model.
#[verifier::ext_equal]
pub struct ItemModel {
    pub category: Category,
    pub name: Seq<char>,
    pub root: Option<u32>,
    pub pids: Seq<u32>,
    pub memory: u64,
    pub state: RuntimeState,
    pub suspicion: Option<(u8, Seq<SuspicionReason>)>,
    pub ports: Seq<ListeningPort>,
    pub project: Option<ProjectModel>,
    pub children: Seq<ItemModel>,
}

impl RuntimeItem {
    /// The item and everything below it.
    pub open spec fn model(self) -> ItemModel
        decreases self,
    {
        ItemModel {
            category: self.category,
            name: self.display_name@,
            root: self.root_pid,
            pids: self.process_ids@,
            memory: self.memory_bytes,
            state: self.state,
            suspicion: match self.suspicion {
                Some(s) => Some((s.score, s.reasons@)),
                None => None,
            },
            ports: self.ports@,
            project: project::project_view(self.project),
            children: Seq::new(
                self.children@.len(),
                |i: int|
                    if 0 <= i < self.children@.len() {
                        self.children@[i].model()
                    } else {
                        arbitrary()
                    },
            ),
        }
    }
}

/// The models of a list of items.
pub open spec fn models(items: Seq<RuntimeItem>) -> Seq<ItemModel> {
    items.map_values(|i: RuntimeItem| i.model())
}

/// The children of a model are the models of the children.
pub proof fn model_children(item: RuntimeItem)
    ensures
        item.model().children == models(item.children@),
{
    assert(item.model().children =~= models(item.children@));
}

} // verus!

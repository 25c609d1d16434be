//! User configuration.

use crate::model::runtime::Category;
use crate::path;
use crate::path::join;
use crate::runner::scheduler::Limits;
use crate::text;
use crate::text::{chars_of, lower_of, same, string_of, text_starts};
use crate::time::Duration;
use vstd::prelude::*;

verus! {

/// What `~/.config/wyd/config.toml` holds. A missing or invalid file gives
/// the defaults.
#[derive(Debug, Clone)]
pub struct Config {
    pub leftovers: LeftoverConfig,
    pub persistent: PersistentConfig,
    pub projects: ProjectsConfig,
    pub signature: Vec<SignatureConfig>,
    pub runs: RunsConfig,
}

/// Admission limits of managed runs.
#[derive(Debug, Clone, Copy, PartialEq, Eq, Structural)]
pub struct RunsConfig {
    /// Runs admitted at once.
    pub max_parallel: usize,
    /// Runs admitted at once per project root.
    pub max_parallel_per_project: usize,
    /// Queue length; a request beyond it is rejected, not hung.
    pub max_queued: usize,
    /// How long a request may wait for a slot.
    pub queue_timeout_secs: u64,
    /// Total memory that may be reserved by running runs.
    pub memory_budget_mb: u64,
    /// Reservation for a run that asks for no amount.
    pub default_run_memory_mb: u64,
    /// A request bypassed this long wins the next slot.
    pub starvation_after_secs: u64,
    /// Cap on the CPU of all runs together.
    pub cpu_budget_millicores: Option<u32>,
    /// Cap on the processes of all runs together.
    pub pids_budget: Option<u32>,
}

#[derive(Debug, Clone)]
pub struct LeftoverConfig {
    pub server_age_hours: u64,
}

#[derive(Debug, Clone)]
pub struct PersistentConfig {
    pub commands: Vec<String>,
}

#[derive(Debug, Clone)]
pub struct ProjectsConfig {
    pub roots: Vec<String>,
}

#[derive(Debug, Clone)]
pub struct SignatureConfig {
    pub category: String,
    pub names: Vec<String>,
    pub contains: Vec<String>,
    pub display: String,
}

impl Default for LeftoverConfig {
    fn default() -> (r: Self)
        ensures
            r.server_age_hours == 8,
    {
        LeftoverConfig { server_age_hours: 8 }
    }
}

impl Default for RunsConfig {
    fn default() -> (r: Self)
        ensures
            r == RunsConfig::standard(),
    {
        RunsConfig {
            max_parallel: 4,
            max_parallel_per_project: 2,
            max_queued: 32,
            queue_timeout_secs: 600,
            memory_budget_mb: 8192,
            default_run_memory_mb: 512,
            starvation_after_secs: 60,
            cpu_budget_millicores: None,
            pids_budget: None,
        }
    }
}

/// Mebibytes in bytes, the largest number where they exceed it.
pub open spec fn mib(n: u64) -> u64 {
    if n * 1_048_576 <= u64::MAX {
        (n * 1_048_576) as u64
    } else {
        u64::MAX
    }
}

pub fn mib_bytes(n: u64) -> (r: u64)
    ensures
        r == mib(n),
{
    if n <= 0xfff_ffff_ffff {
        n * 1_048_576
    } else {
        u64::MAX
    }
}

/// A count of at least one.
pub open spec fn at_least_one(n: usize) -> usize {
    if n >= 1 {
        n
    } else {
        1
    }
}

impl RunsConfig {
    pub open spec fn standard() -> RunsConfig {
        RunsConfig {
            max_parallel: 4,
            max_parallel_per_project: 2,
            max_queued: 32,
            queue_timeout_secs: 600,
            memory_budget_mb: 8192,
            default_run_memory_mb: 512,
            starvation_after_secs: 60,
            cpu_budget_millicores: None,
            pids_budget: None,
        }
    }

    /// The limits in the units of the scheduler. At least one run is always
    /// let in.
    pub fn limits(&self) -> (r: Limits)
        ensures
            r.max_parallel == at_least_one(self.max_parallel),
            r.max_parallel_per_project == at_least_one(self.max_parallel_per_project),
            r.max_queued == self.max_queued,
            r.queue_timeout@ == self.queue_timeout_secs as nat * 1_000_000_000,
            r.memory_budget_bytes == mib(self.memory_budget_mb),
            r.default_run_memory_bytes == mib(self.default_run_memory_mb),
            r.starvation_after@ == self.starvation_after_secs as nat * 1_000_000_000,
            r.cpu_budget_millicores == self.cpu_budget_millicores,
            r.pids_budget == self.pids_budget,
    {
        Limits {
            max_parallel: if self.max_parallel >= 1 {
                self.max_parallel
            } else {
                1
            },
            max_parallel_per_project: if self.max_parallel_per_project >= 1 {
                self.max_parallel_per_project
            } else {
                1
            },
            max_queued: self.max_queued,
            queue_timeout: Duration::from_secs(self.queue_timeout_secs),
            memory_budget_bytes: mib_bytes(self.memory_budget_mb),
            default_run_memory_bytes: mib_bytes(self.default_run_memory_mb),
            starvation_after: Duration::from_secs(self.starvation_after_secs),
            cpu_budget_millicores: self.cpu_budget_millicores,
            pids_budget: self.pids_budget,
        }
    }
}

impl Default for Config {
    fn default() -> (r: Self)
        ensures
            r.is_default(),
    {
        Config {
            leftovers: LeftoverConfig::default(),
            persistent: PersistentConfig { commands: Vec::new() },
            projects: ProjectsConfig { roots: Vec::new() },
            signature: Vec::new(),
            runs: RunsConfig::default(),
        }
    }
}

/// A path in which a leading `~/` stands for the home directory.
pub open spec fn expanded(raw: Seq<char>, home: Option<Seq<char>>) -> Seq<char> {
    match home {
        Some(h) if text::starts_with(raw, "~/"@) => path::joined(h, raw.skip(2)),
        _ => raw,
    }
}

impl Config {
    /// Eight hours until a dev server is old, the standard run limits, and
    /// nothing else set.
    pub open spec fn is_default(self) -> bool {
        &&& self.leftovers.server_age_hours == 8
        &&& self.persistent.commands@.len() == 0
        &&& self.projects.roots@.len() == 0
        &&& self.signature@.len() == 0
        &&& self.runs == RunsConfig::standard()
    }

    /// The configuration in force: what the file parsed to, or the defaults
    /// where there is no file or it does not parse.
    pub fn load(parsed: Option<Config>) -> (r: Self)
        ensures
            match parsed {
                Some(c) => r == c,
                None => r.is_default(),
            },
    {
        match parsed {
            Some(c) => c,
            None => Config::default(),
        }
    }

    /// The configured project roots, `~/` expanded.
    pub fn project_roots(&self, home: &Option<String>) -> (r: Vec<String>)
        ensures
            text::texts(r@) == text::texts(self.projects.roots@).map_values(
                |s: Seq<char>| expanded(s, text::text_of(*home)),
            ),
    {
        let mut r: Vec<String> = Vec::new();
        let mut i: usize = 0;
        while i < self.projects.roots.len()
            invariant
                i <= self.projects.roots.len(),
                r@.len() == i,
                forall|j: int|
                    0 <= j < i ==> (#[trigger] r@[j])@ == expanded(
                        self.projects.roots@[j]@,
                        text::text_of(*home),
                    ),
            decreases self.projects.roots.len() - i,
        {
            r.push(expand_home(self.projects.roots[i].as_str(), home));
            i += 1;
        }
        assert(text::texts(r@) =~= text::texts(self.projects.roots@).map_values(
            |s: Seq<char>| expanded(s, text::text_of(*home)),
        ));
        r
    }
}

/// Replaces a leading `~/` by the home directory, where that is known.
pub fn expand_home(raw: &str, home: &Option<String>) -> (r: String)
    ensures
        r@ == expanded(raw@, text::text_of(*home)),
{
    if text_starts(raw, "~/") {
        if let Some(h) = home {
            let v: Vec<char> = chars_of(raw);
            proof {
                reveal_strlit("~/");
            }
            assert(v.len() >= 2);
            let rest: String = string_of(&v, 2, v.len());
            assert(rest@ =~= raw@.skip(2));
            return join(h.as_str(), rest.as_str());
        }
    }
    raw.to_owned()
}

/// The category that a signature's `category` key names, in any case.
pub open spec fn category_named(key: Seq<char>) -> Option<Category> {
    let k = text::lower(key);
    if k == "agent"@ {
        Some(Category::Agent)
    } else if k == "mcp"@ {
        Some(Category::Mcp)
    } else if k == "devserver"@ || k == "dev-server"@ {
        Some(Category::DevServer)
    } else if k == "database"@ {
        Some(Category::Database)
    } else if k == "languageserver"@ || k == "lsp"@ {
        Some(Category::LanguageServer)
    } else {
        None
    }
}

impl SignatureConfig {
    pub fn category(&self) -> (r: Option<Category>)
        ensures
            r == category_named(self.category@),
    {
        let k: String = lower_of(self.category.as_str());
        let k: &str = k.as_str();
        if same(k, "agent") {
            Some(Category::Agent)
        } else if same(k, "mcp") {
            Some(Category::Mcp)
        } else if same(k, "devserver") || same(k, "dev-server") {
            Some(Category::DevServer)
        } else if same(k, "database") {
            Some(Category::Database)
        } else if same(k, "languageserver") || same(k, "lsp") {
            Some(Category::LanguageServer)
        } else {
            None
        }
    }
}

/// A mebibyte is 1048576 bytes, and what does not fit is the largest number.
pub proof fn mebibytes_are_counted_in_bytes(n: u64)
    ensures
        n < 17_592_186_044_416 ==> mib(n) == n * 1_048_576,
        n >= 17_592_186_044_416 ==> mib(n) == u64::MAX,
{
}

/// A leading `~/` is the home directory; without a known home, and anywhere
/// else, a path stays as it is.
pub proof fn only_a_leading_tilde_is_the_home(rest: Seq<char>, raw: Seq<char>, home: Seq<char>)
    ensures
        expanded("~/"@ + rest, Some(home)) == path::joined(home, rest),
        expanded(raw, None) == raw,
        !text::starts_with(raw, "~/"@) ==> expanded(raw, Some(home)) == raw,
{
    reveal_strlit("~/");
    let s = "~/"@ + rest;
    assert(s.subrange(0, 2) =~= "~/"@);
    assert(s.skip(2) =~= rest);
}

/// The names that a signature may use for its category, in any case.
pub proof fn categories_are_named(key: Seq<char>)
    ensures
        text::lower(key) == "agent"@ ==> category_named(key) == Some(Category::Agent),
        text::lower(key) == "mcp"@ ==> category_named(key) == Some(Category::Mcp),
        text::lower(key) == "devserver"@ || text::lower(key) == "dev-server"@ ==> category_named(
            key,
        ) == Some(Category::DevServer),
        text::lower(key) == "database"@ ==> category_named(key) == Some(Category::Database),
        text::lower(key) == "languageserver"@ || text::lower(key) == "lsp"@ ==> category_named(key)
            == Some(Category::LanguageServer),
        category_named(key) is Some ==> text::lower(key) == "agent"@ || text::lower(key) == "mcp"@
            || text::lower(key) == "devserver"@ || text::lower(key) == "dev-server"@ || text::lower(
            key,
        ) == "database"@ || text::lower(key) == "languageserver"@ || text::lower(key) == "lsp"@,
{
    reveal_strlit("agent");
    reveal_strlit("mcp");
    reveal_strlit("devserver");
    reveal_strlit("dev-server");
    reveal_strlit("database");
    reveal_strlit("languageserver");
    reveal_strlit("lsp");
    assert("database"@[0] == 'd' && "devserver"@[0] == 'd' && "dev-server"@[0] == 'd');
    assert("database"@[1] == 'a' && "devserver"@[1] == 'e' && "dev-server"@[1] == 'e');
    assert("agent"@[0] == 'a' && "mcp"@[0] == 'm' && "languageserver"@[0] == 'l' && "lsp"@[0]
        == 'l');
}

} // verus!

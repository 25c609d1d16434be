//! Projects and listening ports of runtime items.

use crate::classify::forest;
use crate::classify::pids;
use crate::classify::pids::{PidIndex, MAX_ANCESTORS};
use crate::classify::rules;
use crate::classify::rules::{argv0_base, is_vite, Class, ClassModel, Signatures};
use crate::config::SignatureConfig;
use crate::model::port::ListeningPort;
use crate::model::process::ProcessInfo;
use crate::model::project;
use crate::model::project::{copy_project, Project, ProjectModel};
use crate::model::runtime;
use crate::model::runtime::{Category, ItemModel, RuntimeItem, RuntimeState};
use crate::path;
use crate::path::{file_name, parent, trim};
use crate::text;
use crate::text::{any_same, lower_of, same, split, strip_prefix, Separator};
use vstd::prelude::*;

verus! {

// ---------------------------------------------------------------------------
// What the file system holds
// ---------------------------------------------------------------------------

/// What was found on disk: where paths really lead, which directories hold a
/// `.git`, and which hold a project manifest.
#[derive(Debug, Clone)]
pub struct DirFacts {
    /// A path, and the canonical path it resolves to.
    pub canonical: Vec<(String, String)>,
    pub git: Vec<String>,
    pub marked: Vec<String>,
}

impl DirFacts {
    /// Nothing was found.
    pub fn none() -> (r: DirFacts)
        ensures
            r.canonical@.len() == 0,
            r.git@.len() == 0,
            r.marked@.len() == 0,
    {
        DirFacts { canonical: Vec::new(), git: Vec::new(), marked: Vec::new() }
    }

    /// Where a path leads: to what it resolves to, or itself.
    pub open spec fn resolved(self, p: Seq<char>) -> Seq<char> {
        resolved_in(self.canonical@, p)
    }

    pub open spec fn has_git(self, dir: Seq<char>) -> bool {
        text::texts(self.git@).contains(dir)
    }

    pub open spec fn has_marker(self, dir: Seq<char>) -> bool {
        text::texts(self.marked@).contains(dir)
    }

    fn normalize(&self, p: &str) -> (r: String)
        ensures
            r@ == self.resolved(p@),
    {
        let mut i: usize = self.canonical.len();
        assert(self.canonical@.take(self.canonical@.len() as int) =~= self.canonical@);
        while i > 0
            invariant
                i <= self.canonical.len(),
                self.resolved(p@) == resolved_in(self.canonical@.take(i as int), p@),
            decreases i,
        {
            assert(self.canonical@.take(i as int).last() == self.canonical@[i - 1]);
            assert(self.canonical@.take(i as int).drop_last() =~= self.canonical@.take(i - 1));
            if same(self.canonical[i - 1].0.as_str(), p) {
                return self.canonical[i - 1].1.clone();
            }
            i -= 1;
        }
        p.to_owned()
    }
}

pub open spec fn resolved_in(table: Seq<(String, String)>, p: Seq<char>) -> Seq<char>
    decreases table.len(),
{
    if table.len() == 0 {
        p
    } else if table.last().0@ == p {
        table.last().1@
    } else {
        resolved_in(table.drop_last(), p)
    }
}

/// The files that mark a project directory without git.
pub fn markers() -> (r: Vec<String>)
    ensures
        text::texts(r@) == marker_names(),
{
    let r: Vec<String> = vec![
        "package.json".to_owned(),
        "pyproject.toml".to_owned(),
        "Cargo.toml".to_owned(),
        "go.mod".to_owned(),
        "composer.json".to_owned(),
        "docker-compose.yml".to_owned(),
        "compose.yml".to_owned(),
    ];
    assert(text::texts(r@) =~= marker_names());
    r
}

pub open spec fn marker_names() -> Seq<Seq<char>> {
    seq![
        "package.json"@,
        "pyproject.toml"@,
        "Cargo.toml"@,
        "go.mod"@,
        "composer.json"@,
        "docker-compose.yml"@,
        "compose.yml"@,
    ]
}

// ---------------------------------------------------------------------------
// Detecting a project
// ---------------------------------------------------------------------------

/// What the cache knows.
pub struct CacheModel {
    /// Directories already decided.
    pub dirs: Map<Seq<char>, Option<ProjectModel>>,
    /// Configured roots: each directory right below one is a project.
    pub roots: Seq<Seq<char>>,
}

/// A directory, its parent, and so on up to the root.
pub open spec fn ancestors(dir: Seq<char>) -> Seq<Seq<char>>
    decreases dir.len(),
    via ancestors_decreases
{
    match path::parent_of(dir) {
        Some(p) => seq![dir] + ancestors(p),
        None => seq![dir],
    }
}

#[via_fn]
proof fn ancestors_decreases(dir: Seq<char>) {
    path::parent_shorter(dir);
}

/// The project rooted at a directory, named after it.
pub open spec fn project_named(dir: Seq<char>) -> ProjectModel {
    ProjectModel {
        name: match path::base_name(dir) {
            Some(n) => n,
            None => "project"@,
        },
        root: dir,
    }
}

impl CacheModel {
    pub open spec fn under_root(self, dir: Seq<char>) -> bool {
        match path::parent_of(dir) {
            Some(p) => self.roots.contains(p),
            None => false,
        }
    }

    /// A directory at which the walk upwards ends.
    pub open spec fn stops(self, facts: DirFacts, dir: Seq<char>) -> bool {
        self.dirs.contains_key(dir) || facts.has_git(dir) || self.under_root(dir)
    }

    /// The number of directories before the first at which the walk ends.
    pub open spec fn stop_index(self, facts: DirFacts, chain: Seq<Seq<char>>) -> int
        decreases chain.len(),
    {
        if chain.len() == 0 || self.stops(facts, chain[0]) {
            0
        } else {
            1 + self.stop_index(facts, chain.skip(1))
        }
    }

    /// The project of a canonical directory: what the nearest decided or
    /// git-rooted directory above it says; failing that, the nearest one with
    /// a manifest.
    pub open spec fn found(self, facts: DirFacts, dir: Seq<char>) -> Option<ProjectModel> {
        let chain = ancestors(dir);
        let i = self.stop_index(facts, chain);
        if i < chain.len() {
            if self.dirs.contains_key(chain[i]) {
                self.dirs[chain[i]]
            } else {
                Some(project_named(chain[i]))
            }
        } else {
            nearest_marked(facts, chain)
        }
    }

    /// The cache after every directory on the way has been decided.
    pub open spec fn after(self, facts: DirFacts, dir: Seq<char>) -> CacheModel {
        let chain = ancestors(dir);
        let i = self.stop_index(facts, chain);
        let decided = if i < chain.len() {
            chain.take(i + 1)
        } else {
            chain
        };
        CacheModel { dirs: put_all(self.dirs, decided, self.found(facts, dir)), ..self }
    }
}

pub open spec fn nearest_marked(facts: DirFacts, chain: Seq<Seq<char>>) -> Option<ProjectModel>
    decreases chain.len(),
{
    if chain.len() == 0 {
        None
    } else if facts.has_marker(chain[0]) {
        Some(project_named(chain[0]))
    } else {
        nearest_marked(facts, chain.skip(1))
    }
}

pub open spec fn put_all(
    dirs: Map<Seq<char>, Option<ProjectModel>>,
    list: Seq<Seq<char>>,
    value: Option<ProjectModel>,
) -> Map<Seq<char>, Option<ProjectModel>>
    decreases list.len(),
{
    if list.len() == 0 {
        dirs
    } else {
        put_all(dirs, list.drop_last(), value).insert(list.last(), value)
    }
}

proof fn put_all_holds(
    dirs: Map<Seq<char>, Option<ProjectModel>>,
    list: Seq<Seq<char>>,
    value: Option<ProjectModel>,
    i: int,
)
    requires
        0 <= i < list.len(),
    ensures
        put_all(dirs, list, value).contains_key(list[i]),
        put_all(dirs, list, value)[list[i]] == value,
    decreases list.len(),
{
    if i < list.len() - 1 {
        put_all_holds(dirs, list.drop_last(), value, i);
        assert(list.drop_last()[i] == list[i]);
    }
}

proof fn ancestors_start(dir: Seq<char>)
    ensures
        ancestors(dir).len() > 0,
        ancestors(dir)[0] == dir,
{
}

proof fn stop_index_range(c: CacheModel, facts: DirFacts, chain: Seq<Seq<char>>)
    ensures
        0 <= c.stop_index(facts, chain) <= chain.len(),
        c.stop_index(facts, chain) < chain.len() ==> c.stops(
            facts,
            chain[c.stop_index(facts, chain)],
        ),
        forall|j: int| 0 <= j < c.stop_index(facts, chain) ==> !c.stops(facts, #[trigger] chain[j]),
    decreases chain.len(),
{
    if chain.len() > 0 && !c.stops(facts, chain[0]) {
        let rest = chain.skip(1);
        stop_index_range(c, facts, rest);
        let k = c.stop_index(facts, rest);
        if k < rest.len() {
            assert(rest[k] == chain[k + 1]);
        }
        assert forall|j: int| 0 <= j < k + 1 implies !c.stops(facts, #[trigger] chain[j]) by {
            if j > 0 {
                assert(rest[j - 1] == chain[j]);
            }
        }
    }
}

/// The same path is never walked twice: once a directory is decided, its
/// answer stays, whatever happens on disk afterwards.
pub proof fn decided_directory_stays(
    c: CacheModel,
    facts: DirFacts,
    later: DirFacts,
    dir: Seq<char>,
)
    ensures
        c.after(facts, dir).found(later, dir) == c.found(facts, dir),
        c.after(facts, dir).dirs.contains_key(dir),
{
    let chain = ancestors(dir);
    let i = c.stop_index(facts, chain);
    ancestors_start(dir);
    stop_index_range(c, facts, chain);
    let decided = if i < chain.len() {
        chain.take(i + 1)
    } else {
        chain
    };
    assert(decided[0] == dir);
    put_all_holds(c.dirs, decided, c.found(facts, dir), 0);
    let after = c.after(facts, dir);
    assert(after.stop_index(later, chain) == 0);
}

/// A directory that is a project whatever lies above it: it holds a `.git`, or
/// stands right below a configured root.
pub open spec fn is_strong(c: CacheModel, facts: DirFacts, dir: Seq<char>) -> bool {
    facts.has_git(dir) || c.under_root(dir)
}

/// A git root, or a directory below a configured root, wins over a manifest
/// further down: while nothing on the way is decided, the nearest of them is
/// the project.
pub proof fn nearest_git_root_wins(c: CacheModel, facts: DirFacts, dir: Seq<char>, i: int)
    requires
        0 <= i < ancestors(dir).len(),
        is_strong(c, facts, ancestors(dir)[i]),
        forall|j: int| 0 <= j < i ==> !is_strong(c, facts, #[trigger] ancestors(dir)[j]),
        forall|j: int| 0 <= j <= i ==> !c.dirs.contains_key(#[trigger] ancestors(dir)[j]),
    ensures
        c.found(facts, dir) == Some(project_named(ancestors(dir)[i])),
{
    let chain = ancestors(dir);
    stop_index_range(c, facts, chain);
    let k = c.stop_index(facts, chain);
    assert(c.stops(facts, chain[i]));
    if k > i {
        assert(!c.stops(facts, chain[i]));
    }
    if k < i {
        assert(c.stops(facts, chain[k]));
        assert(!is_strong(c, facts, chain[k]));
    }
}

/// Without either, and with nothing decided, the nearest directory with a
/// manifest is the project.
pub proof fn nearest_manifest_is_second(c: CacheModel, facts: DirFacts, dir: Seq<char>)
    requires
        forall|j: int|
            0 <= j < ancestors(dir).len() ==> !is_strong(c, facts, #[trigger] ancestors(dir)[j])
                && !c.dirs.contains_key(ancestors(dir)[j]),
    ensures
        c.found(facts, dir) == nearest_marked(facts, ancestors(dir)),
{
    let chain = ancestors(dir);
    stop_index_range(c, facts, chain);
    let k = c.stop_index(facts, chain);
    if k < chain.len() {
        assert(c.stops(facts, chain[k]));
        assert(!is_strong(c, facts, chain[k]));
    }
}

/// Directory → project cache. Same path is never walked twice.
#[derive(Debug)]
pub struct ProjectCache {
    by_dir: Vec<(String, Option<Project>)>,
    extra_roots: Vec<String>,
}

spec fn entries(v: Seq<(String, Option<Project>)>) -> Map<Seq<char>, Option<ProjectModel>>
    decreases v.len(),
{
    if v.len() == 0 {
        Map::empty()
    } else {
        entries(v.drop_last()).insert(v.last().0@, project::project_view(v.last().1))
    }
}

impl View for ProjectCache {
    type V = CacheModel;

    closed spec fn view(&self) -> CacheModel {
        CacheModel { dirs: entries(self.by_dir@), roots: text::texts(self.extra_roots@) }
    }
}

impl Default for ProjectCache {
    fn default() -> (r: Self)
        ensures
            r@.dirs == Map::<Seq<char>, Option<ProjectModel>>::empty(),
            r@.roots == Seq::<Seq<char>>::empty(),
    {
        let r: ProjectCache = ProjectCache { by_dir: Vec::new(), extra_roots: Vec::new() };
        assert(r@.roots =~= Seq::<Seq<char>>::empty());
        r
    }
}

impl ProjectCache {
    /// An empty cache with configured roots, resolved where they exist.
    pub fn with_roots(roots: &Vec<String>, facts: &DirFacts) -> (r: Self)
        ensures
            r@.dirs == Map::<Seq<char>, Option<ProjectModel>>::empty(),
            r@.roots == text::texts(roots@).map_values(|s: Seq<char>| facts.resolved(s)),
    {
        let mut extra_roots: Vec<String> = Vec::new();
        let mut i: usize = 0;
        while i < roots.len()
            invariant
                i <= roots.len(),
                extra_roots@.len() == i,
                forall|j: int|
                    0 <= j < i ==> (#[trigger] extra_roots@[j])@ == facts.resolved(roots@[j]@),
            decreases roots.len() - i,
        {
            extra_roots.push(facts.normalize(roots[i].as_str()));
            i += 1;
        }
        let r: ProjectCache = ProjectCache { by_dir: Vec::new(), extra_roots };
        assert(r@.roots =~= text::texts(roots@).map_values(|s: Seq<char>| facts.resolved(s)));
        r
    }

    fn under_configured_root(&self, dir: &str) -> (r: bool)
        ensures
            r == self@.under_root(dir@),
    {
        match parent(dir) {
            Some(p) => any_same(&self.extra_roots, p.as_str()),
            None => false,
        }
    }

    /// What the cache says of a directory.
    fn get(&self, dir: &str) -> (r: Option<Option<Project>>)
        ensures
            match r {
                Some(v) => self@.dirs.contains_key(dir@) && self@.dirs[dir@]
                    == project::project_view(v),
                None => !self@.dirs.contains_key(dir@),
            },
    {
        let mut i: usize = self.by_dir.len();
        assert(self.by_dir@.take(self.by_dir@.len() as int) =~= self.by_dir@);
        while i > 0
            invariant
                i <= self.by_dir.len(),
                self@.dirs.contains_key(dir@) == entries(
                    self.by_dir@.take(i as int),
                ).contains_key(dir@),
                self@.dirs.contains_key(dir@) ==> self@.dirs[dir@] == entries(
                    self.by_dir@.take(i as int),
                )[dir@],
            decreases i,
        {
            assert(self.by_dir@.take(i as int).last() == self.by_dir@[i - 1]);
            assert(self.by_dir@.take(i as int).drop_last() =~= self.by_dir@.take(i - 1));
            if same(self.by_dir[i - 1].0.as_str(), dir) {
                return Some(copy_project(&self.by_dir[i - 1].1));
            }
            i -= 1;
        }
        assert(self.by_dir@.take(0) =~= Seq::<(String, Option<Project>)>::empty());
        None
    }

    fn put(&mut self, dir: String, value: &Option<Project>)
        ensures
            final(self)@.dirs == old(self)@.dirs.insert(dir@, project::project_view(*value)),
            final(self)@.roots == old(self)@.roots,
    {
        let ghost before = self.by_dir@;
        self.by_dir.push((dir, copy_project(value)));
        assert(self.by_dir@.drop_last() =~= before);
    }

    /// The project of a directory.
    pub fn detect(&mut self, facts: &DirFacts, start: &str) -> (r: Option<Project>)
        ensures
            project::project_view(r) == old(self)@.found(*facts, facts.resolved(start@)),
            final(self)@ == old(self)@.after(*facts, facts.resolved(start@)),
    {
        let ghost c = self@;
        let dir: String = facts.normalize(start);
        let chain: Vec<String> = chain_of(dir.as_str());
        let ghost names = ancestors(dir@);
        let mut i: usize = 0;
        let mut result: Option<Option<Project>> = None;
        assert(names.skip(0) =~= names);
        while i < chain.len() && result.is_none()
            invariant
                i <= chain.len(),
                self@ == c,
                text::texts(chain@) == names,
                match result {
                    Some(p) => {
                        &&& 0 < i
                        &&& c.stop_index(*facts, names) == i - 1
                        &&& project::project_view(p) == if c.dirs.contains_key(names[i - 1]) {
                            c.dirs[names[i - 1]]
                        } else {
                            Some(project_named(names[i - 1]))
                        }
                    },
                    None => c.stop_index(*facts, names) == i + c.stop_index(
                        *facts,
                        names.skip(i as int),
                    ),
                },
            decreases chain.len() - i,
        {
            let cur: &str = chain[i].as_str();
            assert(text::texts(chain@)[i as int] == cur@);
            assert(names.skip(i as int)[0] == names[i as int]);
            assert(names.skip(i as int).skip(1) =~= names.skip(i + 1));
            match self.get(cur) {
                Some(hit) => {
                    result = Some(hit);
                },
                None => {
                    if any_same(&facts.git, cur) || self.under_configured_root(cur) {
                        result = Some(Some(project_at(cur)));
                    }
                },
            }
            i += 1;
        }
        assert(names.len() == chain@.len()) by {
            assert(text::texts(chain@).len() == chain@.len());
        }
        let found: Option<Project> = match result {
            Some(p) => p,
            None => {
                assert(names.skip(names.len() as int).len() == 0);
                first_marked(facts, &chain)
            },
        };
        assert(project::project_view(found) == c.found(*facts, dir@));
        let ghost decided = names.take(i as int);
        assert(i == names.len() ==> decided =~= names);
        let mut k: usize = 0;
        assert(decided.take(0) =~= Seq::<Seq<char>>::empty());
        while k < i
            invariant
                k <= i <= chain.len(),
                text::texts(chain@) == names,
                names.len() == chain@.len(),
                decided == names.take(i as int),
                self@.roots == c.roots,
                self@.dirs == put_all(
                    c.dirs,
                    decided.take(k as int),
                    project::project_view(found),
                ),
            decreases i - k,
        {
            assert(decided.take(k + 1).drop_last() =~= decided.take(k as int));
            assert(text::texts(chain@)[k as int] == chain@[k as int]@);
            self.put(chain[k].clone(), &found);
            k += 1;
        }
        assert(decided.take(i as int) =~= decided);
        found
    }
}

/// A directory and everything above it.
fn chain_of(dir: &str) -> (r: Vec<String>)
    ensures
        text::texts(r@) == ancestors(dir@),
{
    let mut r: Vec<String> = Vec::new();
    let mut cur: String = dir.to_owned();
    assert(text::texts(r@) =~= Seq::<Seq<char>>::empty());
    assert(text::texts(r@) + ancestors(cur@) =~= ancestors(dir@));
    loop
        invariant_except_break
            text::texts(r@) + ancestors(cur@) == ancestors(dir@),
        ensures
            text::texts(r@) == ancestors(dir@),
        decreases cur@.len(),
    {
        let ghost done = text::texts(r@);
        let ghost here = cur@;
        let above: Option<String> = parent(cur.as_str());
        proof {
            path::parent_shorter(here);
        }
        r.push(cur);
        assert(text::texts(r@) =~= done.push(here));
        match above {
            Some(p) => {
                assert(done + (seq![here] + ancestors(p@)) =~= done.push(here) + ancestors(p@));
                cur = p;
            },
            None => {
                assert(done + seq![here] =~= done.push(here));
                break;
            },
        }
    }
    r
}

fn first_marked(facts: &DirFacts, chain: &Vec<String>) -> (r: Option<Project>)
    ensures
        project::project_view(r) == nearest_marked(*facts, text::texts(chain@)),
{
    let ghost names = text::texts(chain@);
    let mut i: usize = 0;
    assert(names.skip(0) =~= names);
    while i < chain.len()
        invariant
            i <= chain.len(),
            names == text::texts(chain@),
            nearest_marked(*facts, names) == nearest_marked(*facts, names.skip(i as int)),
        decreases chain.len() - i,
    {
        assert(names.skip(i as int)[0] == chain@[i as int]@);
        assert(names.skip(i as int).skip(1) =~= names.skip(i + 1));
        if any_same(&facts.marked, chain[i].as_str()) {
            return Some(project_at(chain[i].as_str()));
        }
        i += 1;
    }
    None
}

fn project_at(root: &str) -> (r: Project)
    ensures
        r@ == project_named(root@),
{
    let name: String = match file_name(root) {
        Some(n) => n,
        None => "project".to_owned(),
    };
    Project { name, root: root.to_owned() }
}

// ---------------------------------------------------------------------------
// A working directory named on the command line
// ---------------------------------------------------------------------------

/// A piece `PWD=/path` names a directory.
pub open spec fn pwd_of(piece: Seq<char>) -> Option<Seq<char>> {
    if text::starts_with(piece, "PWD="@) && piece.len() > 4 {
        Some(piece.skip(4))
    } else {
        None
    }
}

/// The first directory named by one of these pieces.
pub open spec fn first_pwd(pieces: Seq<Seq<char>>) -> Option<Seq<char>>
    decreases pieces.len(),
{
    if pieces.len() == 0 {
        None
    } else {
        match first_pwd(pieces.drop_last()) {
            Some(p) => Some(p),
            None => pwd_of(pieces.last()),
        }
    }
}

/// The first directory that an argument names after `PWD=`.
pub open spec fn pwd_in(args: Seq<Seq<char>>) -> Option<Seq<char>>
    decreases args.len(),
{
    if args.len() == 0 {
        None
    } else {
        match pwd_in(args.drop_last()) {
            Some(p) => Some(p),
            None => first_pwd(text::pieces(args.last(), Separator::White)),
        }
    }
}

/// Scanners sometimes put `PWD=/path` into the command (or a single argv
/// blob).
pub fn pwd_from_cmd(cmd: &Vec<String>) -> (r: Option<String>)
    ensures
        text::text_of(r) == pwd_in(text::texts(cmd@)),
{
    let ghost args = text::texts(cmd@);
    let mut i: usize = 0;
    assert(args.take(0) =~= Seq::<Seq<char>>::empty());
    while i < cmd.len()
        invariant
            i <= cmd.len(),
            args == text::texts(cmd@),
            pwd_in(args.take(i as int)) is None,
        decreases cmd.len() - i,
    {
        assert(args.take(i + 1).drop_last() =~= args.take(i as int));
        assert(args.take(i + 1).last() == cmd@[i as int]@);
        let parts: Vec<String> = split(cmd[i].as_str(), Separator::White);
        let ghost pieces = text::texts(parts@);
        let mut k: usize = 0;
        assert(pieces.take(0) =~= Seq::<Seq<char>>::empty());
        while k < parts.len()
            invariant
                k <= parts.len(),
                i < cmd.len(),
                args == text::texts(cmd@),
                pieces == text::texts(parts@),
                pieces == text::pieces(cmd@[i as int]@, Separator::White),
                pwd_in(args.take(i as int)) is None,
                args.take(i + 1).drop_last() == args.take(i as int),
                args.take(i + 1).last() == cmd@[i as int]@,
                first_pwd(pieces.take(k as int)) is None,
            decreases parts.len() - k,
        {
            assert(pieces.take(k + 1).drop_last() =~= pieces.take(k as int));
            assert(pieces.take(k + 1).last() == parts@[k as int]@);
            proof {
                reveal_strlit("PWD=");
            }
            if let Some(rest) = strip_prefix(parts[k].as_str(), "PWD=") {
                if !rest.as_str().is_empty() {
                    proof {
                        first_pwd_stays(pieces, k + 1);
                        pwd_stays(args, i + 1);
                    }
                    return Some(rest);
                }
            }
            k += 1;
        }
        assert(pieces.take(pieces.len() as int) =~= pieces);
        i += 1;
    }
    assert(args.take(args.len() as int) =~= args);
    None
}

proof fn first_pwd_stays(pieces: Seq<Seq<char>>, k: int)
    requires
        0 <= k <= pieces.len(),
        first_pwd(pieces.take(k)) is Some,
    ensures
        first_pwd(pieces) == first_pwd(pieces.take(k)),
    decreases pieces.len() - k,
{
    if k == pieces.len() {
        assert(pieces.take(k) =~= pieces);
    } else {
        assert(pieces.take(k + 1).drop_last() =~= pieces.take(k));
        first_pwd_stays(pieces, k + 1);
    }
}

proof fn pwd_stays(args: Seq<Seq<char>>, k: int)
    requires
        0 <= k <= args.len(),
        pwd_in(args.take(k)) is Some,
    ensures
        pwd_in(args) == pwd_in(args.take(k)),
    decreases args.len() - k,
{
    if k == args.len() {
        assert(args.take(k) =~= args);
    } else {
        assert(args.take(k + 1).drop_last() =~= args.take(k));
        pwd_stays(args, k + 1);
    }
}

/// A path with the home directory written as `~`.
pub open spec fn shortened(p: Seq<char>, home: Option<Seq<char>>) -> Seq<char> {
    match home {
        None => p,
        Some(h) => {
            let base = path::trimmed(h);
            let t = path::trimmed(p);
            if t == base {
                "~"@
            } else if base.len() > 0 && base.last() == '/' && text::starts_with(t, base) {
                "~/"@ + t.skip(base.len() as int)
            } else if text::starts_with(t, base + "/"@) {
                "~/"@ + t.skip(base.len() as int + 1)
            } else {
                p
            }
        },
    }
}

/// `~/Work/foo` when the path sits under the home directory.
pub fn short_path(p: &str, home: &Option<String>) -> (r: String)
    ensures
        r@ == shortened(p@, text::text_of(*home)),
{
    match home {
        None => p.to_owned(),
        Some(h) => {
            let base: String = trim(h.as_str());
            let t: String = trim(p);
            if same(t.as_str(), base.as_str()) {
                return "~".to_owned();
            }
            proof {
                reveal_strlit("/");
                assert("/"@ =~= seq!['/']);
            }
            if text::text_ends(base.as_str(), "/") {
                assert(base@.subrange(base@.len() - 1, base@.len() as int)[0] == '/');
                assert(base@.last() == '/');
                if let Some(rest) = strip_prefix(t.as_str(), base.as_str()) {
                    return "~/".to_owned().concat(rest.as_str());
                }
            } else if base.as_str().unicode_len() > 0 {
                assert(base@.last() != '/') by {
                    if base@.last() == '/' {
                        assert(base@.subrange(base@.len() - 1, base@.len() as int) =~= "/"@);
                    }
                }
            }
            if let Some(rest) = strip_prefix(t.as_str(), base.concat("/").as_str()) {
                return "~/".to_owned().concat(rest.as_str());
            }
            p.to_owned()
        },
    }
}

// ---------------------------------------------------------------------------
// Attaching ports and projects to items
// ---------------------------------------------------------------------------

/// What attaching looks things up in.
pub struct Surroundings {
    pub ps: Seq<ProcessInfo>,
    pub ports: Seq<ListeningPort>,
    pub facts: DirFacts,
}

/// The directory a process works in, as far as it names a project: its
/// current directory first, a `PWD=` argument then.
pub open spec fn project_of_process(
    p: ProcessInfo,
    facts: DirFacts,
    cache: CacheModel,
) -> (Option<ProjectModel>, CacheModel) {
    let by_cwd = match p.cwd {
        Some(cwd) => (
            cache.found(facts, facts.resolved(cwd@)),
            cache.after(facts, facts.resolved(cwd@)),
        ),
        None => (None, cache),
    };
    if by_cwd.0 is Some {
        by_cwd
    } else {
        match pwd_in(text::texts(p.command@)) {
            Some(pwd) => (
                by_cwd.1.found(facts, facts.resolved(pwd)),
                by_cwd.1.after(facts, facts.resolved(pwd)),
            ),
            None => (None, by_cwd.1),
        }
    }
}

/// The project of a process or of the nearest ancestor that has one, looking
/// at no more than `steps` of them; and the cache afterwards.
pub open spec fn project_upwards(
    ps: Seq<ProcessInfo>,
    facts: DirFacts,
    cache: CacheModel,
    pid: u32,
    steps: nat,
) -> (Option<ProjectModel>, CacheModel)
    decreases steps,
{
    if steps == 0 {
        (None, cache)
    } else {
        match pids::by_pid(ps, pid) {
            None => (None, cache),
            Some(p) => {
                let here = project_of_process(p, facts, cache);
                if here.0 is Some {
                    here
                } else {
                    match p.parent_pid {
                        Some(pp) => project_upwards(ps, facts, here.1, pp, (steps - 1) as nat),
                        None => (None, here.1),
                    }
                }
            },
        }
    }
}

pub open spec fn project_of_root(
    s: Surroundings,
    cache: CacheModel,
    root: Option<u32>,
) -> (Option<ProjectModel>, CacheModel) {
    match root {
        Some(pid) => project_upwards(s.ps, s.facts, cache, pid, MAX_ANCESTORS as nat),
        None => (None, cache),
    }
}

/// Puts a port into a list ordered by number; of two with one number the
/// first stays.
pub open spec fn port_insert(s: Seq<ListeningPort>, p: ListeningPort) -> Seq<ListeningPort>
    decreases s.len(),
{
    if s.len() == 0 {
        seq![p]
    } else if s.last().port < p.port {
        s.push(p)
    } else if s.last().port == p.port {
        s
    } else {
        port_insert(s.drop_last(), p).push(s.last())
    }
}

/// The ports that some of these processes listen on, by number, each once.
pub open spec fn ports_of(pids: Seq<u32>, ports: Seq<ListeningPort>) -> Seq<ListeningPort>
    decreases ports.len(),
{
    if ports.len() == 0 {
        Seq::empty()
    } else {
        let rest = ports_of(pids, ports.drop_last());
        if pids.contains(ports.last().pid) {
            port_insert(rest, ports.last())
        } else {
            rest
        }
    }
}

/// An item with its ports and project, everything below it likewise, and the
/// cache afterwards. An item without a project takes that of its first child
/// that has one.
pub open spec fn attached(m: ItemModel, s: Surroundings, cache: CacheModel) -> (
    ItemModel,
    CacheModel,
)
    decreases m,
{
    let own = project_of_root(s, cache, m.root);
    let below = attached_all(m.children, s, own.1);
    (
        ItemModel {
            ports: ports_of(m.pids, s.ports),
            project: if own.0 is Some {
                own.0
            } else {
                first_project(below.0)
            },
            children: below.0,
            ..m
        },
        below.1,
    )
}

pub open spec fn attached_all(ms: Seq<ItemModel>, s: Surroundings, cache: CacheModel) -> (
    Seq<ItemModel>,
    CacheModel,
)
    decreases ms,
{
    if ms.len() == 0 {
        (Seq::empty(), cache)
    } else {
        let front = attached_all(ms.drop_last(), s, cache);
        let last = attached(ms.last(), s, front.1);
        (front.0.push(last.0), last.1)
    }
}

/// The project of the first item that has one.
pub open spec fn first_project(ms: Seq<ItemModel>) -> Option<ProjectModel>
    decreases ms.len(),
{
    if ms.len() == 0 {
        None
    } else {
        match first_project(ms.drop_last()) {
            Some(p) => Some(p),
            None => ms.last().project,
        }
    }
}

/// Whether the process with this pid is a Vite server.
pub open spec fn is_vite_pid(ps: Seq<ProcessInfo>, root: Option<u32>) -> bool {
    match root {
        Some(pid) => match pids::by_pid(ps, pid) {
            Some(p) => rules::looks_like_vite(
                rules::Words {
                    name: text::lower(p.name@),
                    argv0: rules::argv0_of(p),
                    hay: p.haystack(),
                    alone: false,
                },
            ),
            None => false,
        },
        None => false,
    }
}

/// A generic runtime that listens is a dev server, and so on below it.
pub open spec fn promoted(m: ItemModel, ps: Seq<ProcessInfo>) -> ItemModel
    decreases m, 1nat,
{
    let below = ItemModel { children: promoted_children(m, ps), ..m };
    if m.ports.len() == 0 || m.category != Category::UnknownDev {
        below
    } else {
        ItemModel {
            category: Category::DevServer,
            name: if is_vite_pid(ps, m.root) {
                "vite"@
            } else {
                m.name
            },
            ..below
        }
    }
}

pub open spec fn promoted_children(m: ItemModel, ps: Seq<ProcessInfo>) -> Seq<ItemModel>
    decreases m, 0nat,
{
    Seq::new(
        m.children.len(),
        |i: int|
            if 0 <= i < m.children.len() {
                promoted(m.children[i], ps)
            } else {
                arbitrary()
            },
    )
}

pub open spec fn promoted_all(ms: Seq<ItemModel>, ps: Seq<ProcessInfo>) -> Seq<ItemModel> {
    ms.map_values(|m: ItemModel| promoted(m, ps))
}

/// A pid that stands somewhere in these items.
pub open spec fn mentions(ms: Seq<ItemModel>, pid: u32) -> bool
    decreases ms,
{
    if ms.len() == 0 {
        false
    } else {
        mentions(ms.drop_last(), pid) || ms.last().pids.contains(pid) || mentions(
            ms.last().children,
            pid,
        )
    }
}

/// A bare interpreter, guessed from its name.
pub open spec fn guessed(p: ProcessInfo) -> Option<ClassModel> {
    let name = text::lower(p.name@);
    if name == "node"@ || name == "nodejs"@ || name == "bun"@ || name == "deno"@ || name
        == "python"@ || name == "python3"@ || name == "php"@ || name == "ruby"@ {
        Some(ClassModel { category: Category::UnknownDev, name })
    } else {
        None
    }
}

/// What a listener is taken for.
pub open spec fn listener_class(p: ProcessInfo, sigs: Seq<SignatureConfig>) -> Option<ClassModel> {
    match rules::classified(p, sigs) {
        Some(c) => Some(c),
        None => guessed(p),
    }
}

/// The ports that one process listens on, as listed.
pub open spec fn listened(ports: Seq<ListeningPort>, pid: u32) -> Seq<ListeningPort>
    decreases ports.len(),
{
    if ports.len() == 0 {
        Seq::empty()
    } else if ports.last().pid == pid {
        listened(ports.drop_last(), pid).push(ports.last())
    } else {
        listened(ports.drop_last(), pid)
    }
}

/// The item for a listener that is in no item yet, and the cache afterwards.
pub open spec fn adopted(
    s: Surroundings,
    sigs: Seq<SignatureConfig>,
    cache: CacheModel,
    pid: u32,
) -> (Option<ItemModel>, CacheModel) {
    match pids::by_pid(s.ps, pid) {
        None => (None, cache),
        Some(p) => match listener_class(p, sigs) {
            None => (None, cache),
            Some(c) => if c.category == Category::Browser {
                (None, cache)
            } else {
                let project = project_of_root(s, cache, Some(pid));
                (
                    Some(
                        promoted(
                            ItemModel {
                                category: c.category,
                                name: c.name,
                                root: Some(pid),
                                pids: seq![pid],
                                memory: p.memory_bytes,
                                state: RuntimeState::Active,
                                suspicion: None,
                                ports: listened(s.ports, pid),
                                project: project.0,
                                children: Seq::empty(),
                            },
                            s.ps,
                        ),
                    ),
                    project.1,
                )
            },
        },
    }
}

/// The items of the listeners among the first `n` ports that were in no item
/// to begin with, each once, in the order of their first port.
pub open spec fn adoptions(
    s: Surroundings,
    sigs: Seq<SignatureConfig>,
    seen: Seq<ItemModel>,
    cache: CacheModel,
    n: int,
) -> (Seq<ItemModel>, CacheModel)
    decreases n,
{
    if n <= 0 || n > s.ports.len() {
        (Seq::empty(), cache)
    } else {
        let rest = adoptions(s, sigs, seen, cache, n - 1);
        let pid = s.ports[n - 1].pid;
        if mentions(seen, pid) || listens_before(s.ports, n - 1, pid) {
            rest
        } else {
            let a = adopted(s, sigs, rest.1, pid);
            match a.0 {
                Some(item) => (rest.0.push(item), a.1),
                None => (rest.0, a.1),
            }
        }
    }
}

/// One of the first `n` ports belongs to this pid.
pub open spec fn listens_before(ports: Seq<ListeningPort>, n: int, pid: u32) -> bool {
    exists|j: int| 0 <= j < n && (#[trigger] ports[j]).pid == pid
}

/// Items with ports and projects, and listeners that were in none.
pub open spec fn with_surroundings(
    ms: Seq<ItemModel>,
    s: Surroundings,
    sigs: Seq<SignatureConfig>,
    cache: CacheModel,
) -> (Seq<ItemModel>, CacheModel) {
    let a = attached_all(ms, s, cache);
    let items = promoted_all(a.0, s.ps);
    let more = adoptions(s, sigs, items, a.1, s.ports.len() as int);
    (items + more.0, more.1)
}

/// Join items with their listening ports and projects; generic runtimes that
/// listen become dev servers, and listeners in no item get one.
pub fn attach(
    items: &mut Vec<RuntimeItem>,
    processes: &Vec<ProcessInfo>,
    ports: &Vec<ListeningPort>,
    facts: &DirFacts,
    signatures: &Vec<SignatureConfig>,
    cache: &mut ProjectCache,
)
    ensures
        ({
            let s = Surroundings { ps: processes@, ports: ports@, facts: *facts };
            let r = with_surroundings(
                runtime::models(old(items)@),
                s,
                signatures@,
                old(cache)@,
            );
            runtime::models(final(items)@) == r.0 && final(cache)@ == r.1
        }),
{
    let index: PidIndex = PidIndex::new(processes);
    let ghost s = Surroundings { ps: processes@, ports: ports@, facts: *facts };
    let ghost before = runtime::models(items@);
    let ghost a = attached_all(before, s, cache@);
    attach_list(items, processes, &index, ports, facts, cache);
    promote_list(items, processes, &index);
    let ghost settled = promoted_all(a.0, processes@);
    adopt_port_orphans(items, processes, &index, ports, facts, signatures, cache);
}

fn attach_list(
    items: &mut Vec<RuntimeItem>,
    processes: &Vec<ProcessInfo>,
    index: &PidIndex,
    ports: &Vec<ListeningPort>,
    facts: &DirFacts,
    cache: &mut ProjectCache,
)
    requires
        index.wf(processes@),
    ensures
        ({
            let s = Surroundings { ps: processes@, ports: ports@, facts: *facts };
            let r = attached_all(runtime::models(old(items)@), s, old(cache)@);
            runtime::models(final(items)@) == r.0 && final(cache)@ == r.1
        }),
    decreases old(items)@, 1nat,
{
    let ghost s = Surroundings { ps: processes@, ports: ports@, facts: *facts };
    let ghost before = items@;
    let ghost ms = runtime::models(before);
    let ghost start = cache@;
    let mut i: usize = 0;
    assert(ms.take(0) =~= Seq::<ItemModel>::empty());
    assert(runtime::models(items@.take(0)) =~= Seq::<ItemModel>::empty());
    while i < items.len()
        invariant
            i <= items.len(),
            index.wf(processes@),
            s == (Surroundings { ps: processes@, ports: ports@, facts: *facts }),
            items@.len() == before.len(),
            before == old(items)@,
            ms == runtime::models(before),
            forall|j: int| i <= j < items@.len() ==> #[trigger] items@[j] == before[j],
            runtime::models(items@.take(i as int)) == attached_all(
                ms.take(i as int),
                s,
                start,
            ).0,
            cache@ == attached_all(ms.take(i as int), s, start).1,
        decreases items.len() - i,
    {
        proof {
            assert(ms.take(i + 1).drop_last() =~= ms.take(i as int));
            assert(ms.take(i + 1).last() == before[i as int].model());
            assert(items@[i as int] == before[i as int]);
            assert(decreases_to!(before => before[i as int]));
        }
        let ghost done = items@.take(i as int);
        attach_one(&mut items[i], processes, index, ports, facts, cache);
        proof {
            assert(items@.take(i + 1) =~= done.push(items@[i as int]));
            assert(runtime::models(items@.take(i + 1)) =~= runtime::models(done).push(
                items@[i as int].model(),
            ));
        }
        i += 1;
    }
    assert(ms.take(ms.len() as int) =~= ms);
    assert(items@.take(items@.len() as int) =~= items@);
}

fn attach_one(
    item: &mut RuntimeItem,
    processes: &Vec<ProcessInfo>,
    index: &PidIndex,
    ports: &Vec<ListeningPort>,
    facts: &DirFacts,
    cache: &mut ProjectCache,
)
    requires
        index.wf(processes@),
    ensures
        ({
            let s = Surroundings { ps: processes@, ports: ports@, facts: *facts };
            let r = attached(old(item).model(), s, old(cache)@);
            final(item).model() == r.0 && final(cache)@ == r.1
        }),
    decreases *old(item), 0nat,
{
    let ghost s = Surroundings { ps: processes@, ports: ports@, facts: *facts };
    let ghost start = *item;
    let ghost m = start.model();
    proof {
        runtime::model_children(start);
        assert(decreases_to!(start => start.children@));
    }
    let found: Vec<ListeningPort> = ports_for(&item.process_ids, ports);
    item.ports = found;
    let own: Option<Project> = project_for(item.root_pid, processes, index, facts, cache);
    attach_list(&mut item.children, processes, index, ports, facts, cache);
    let chosen: Option<Project> = match own {
        Some(p) => Some(p),
        None => child_project(&item.children),
    };
    item.project = chosen;
    proof {
        runtime::model_children(*item);
    }
}

/// The project of the first child that has one.
fn child_project(items: &Vec<RuntimeItem>) -> (r: Option<Project>)
    ensures
        project::project_view(r) == first_project(runtime::models(items@)),
{
    let ghost ms = runtime::models(items@);
    let mut i: usize = 0;
    assert(ms.take(0) =~= Seq::<ItemModel>::empty());
    while i < items.len()
        invariant
            i <= items.len(),
            ms == runtime::models(items@),
            first_project(ms.take(i as int)) is None,
        decreases items.len() - i,
    {
        assert(ms.take(i + 1).drop_last() =~= ms.take(i as int));
        assert(ms.take(i + 1).last() == items@[i as int].model());
        if items[i].project.is_some() {
            proof {
                first_project_stays(ms, i + 1);
            }
            return copy_project(&items[i].project);
        }
        i += 1;
    }
    assert(ms.take(ms.len() as int) =~= ms);
    None
}

proof fn first_project_stays(ms: Seq<ItemModel>, k: int)
    requires
        0 <= k <= ms.len(),
        first_project(ms.take(k)) is Some,
    ensures
        first_project(ms) == first_project(ms.take(k)),
    decreases ms.len() - k,
{
    if k == ms.len() {
        assert(ms.take(k) =~= ms);
    } else {
        assert(ms.take(k + 1).drop_last() =~= ms.take(k));
        first_project_stays(ms, k + 1);
    }
}

fn holds_pid(list: &Vec<u32>, pid: u32) -> (r: bool)
    ensures
        r == list@.contains(pid),
{
    let mut i: usize = 0;
    while i < list.len()
        invariant
            i <= list.len(),
            forall|j: int| 0 <= j < i ==> list@[j] != pid,
        decreases list.len() - i,
    {
        if list[i] == pid {
            return true;
        }
        i += 1;
    }
    false
}

fn insert_port(v: &mut Vec<ListeningPort>, p: ListeningPort)
    ensures
        final(v)@ == port_insert(old(v)@, p),
{
    let ghost s = v@;
    let mut k: usize = v.len();
    assert(s.take(k as int) =~= s);
    assert(port_insert(s, p) =~= port_insert(s.take(k as int), p) + s.skip(k as int));
    while k > 0 && v[k - 1].port > p.port
        invariant
            k <= v.len(),
            v@ == s,
            port_insert(s, p) == port_insert(s.take(k as int), p) + s.skip(k as int),
        decreases k,
    {
        let ghost t = s.take(k as int);
        assert(t.drop_last() =~= s.take(k - 1));
        assert(t.last() == s[k - 1]);
        assert(port_insert(t, p) == port_insert(s.take(k - 1), p).push(s[k - 1]));
        assert(port_insert(t, p) + s.skip(k as int) =~= port_insert(s.take(k - 1), p) + s.skip(
            k - 1,
        ));
        k -= 1;
    }
    let ghost t = s.take(k as int);
    if k > 0 {
        assert(t.last() == s[k - 1]);
        if v[k - 1].port == p.port {
            assert(t + s.skip(k as int) =~= s);
            return;
        }
        assert(port_insert(t, p) == t.push(p));
    } else {
        assert(port_insert(t, p) =~= t.push(p));
    }
    v.insert(k, p);
    assert(v@ =~= t.push(p) + s.skip(k as int));
}

fn ports_for(list: &Vec<u32>, ports: &Vec<ListeningPort>) -> (r: Vec<ListeningPort>)
    ensures
        r@ == ports_of(list@, ports@),
{
    let mut r: Vec<ListeningPort> = Vec::new();
    let mut i: usize = 0;
    assert(ports@.take(0) =~= Seq::<ListeningPort>::empty());
    assert(r@ =~= Seq::<ListeningPort>::empty());
    while i < ports.len()
        invariant
            i <= ports.len(),
            r@ == ports_of(list@, ports@.take(i as int)),
        decreases ports.len() - i,
    {
        assert(ports@.take(i + 1).drop_last() =~= ports@.take(i as int));
        if holds_pid(list, ports[i].pid) {
            insert_port(&mut r, ports[i].copy());
        }
        i += 1;
    }
    assert(ports@.take(ports@.len() as int) =~= ports@);
    r
}

fn project_for(
    root: Option<u32>,
    processes: &Vec<ProcessInfo>,
    index: &PidIndex,
    facts: &DirFacts,
    cache: &mut ProjectCache,
) -> (r: Option<Project>)
    requires
        index.wf(processes@),
    ensures
        ({
            let want = match root {
                Some(pid) => project_upwards(
                    processes@,
                    *facts,
                    old(cache)@,
                    pid,
                    MAX_ANCESTORS as nat,
                ),
                None => (None, old(cache)@),
            };
            project::project_view(r) == want.0 && final(cache)@ == want.1
        }),
{
    match root {
        None => None,
        Some(pid) => project_from(pid, MAX_ANCESTORS, processes, index, facts, cache),
    }
}

fn project_from(
    pid: u32,
    steps: usize,
    processes: &Vec<ProcessInfo>,
    index: &PidIndex,
    facts: &DirFacts,
    cache: &mut ProjectCache,
) -> (r: Option<Project>)
    requires
        index.wf(processes@),
    ensures
        project::project_view(r) == project_upwards(
            processes@,
            *facts,
            old(cache)@,
            pid,
            steps as nat,
        ).0,
        final(cache)@ == project_upwards(processes@, *facts, old(cache)@, pid, steps as nat).1,
    decreases steps,
{
    if steps == 0 {
        return None;
    }
    match index.find(Ghost(processes@), pid) {
        None => None,
        Some(k) => {
            let here: Option<Project> = project_here(&processes[k], facts, cache);
            if here.is_some() {
                return here;
            }
            match processes[k].parent_pid {
                Some(pp) => project_from(pp, steps - 1, processes, index, facts, cache),
                None => None,
            }
        },
    }
}

fn project_here(p: &ProcessInfo, facts: &DirFacts, cache: &mut ProjectCache) -> (r: Option<Project>)
    ensures
        project::project_view(r) == project_of_process(*p, *facts, old(cache)@).0,
        final(cache)@ == project_of_process(*p, *facts, old(cache)@).1,
{
    if let Some(cwd) = &p.cwd {
        let found: Option<Project> = cache.detect(facts, cwd.as_str());
        if found.is_some() {
            return found;
        }
    }
    match pwd_from_cmd(&p.command) {
        Some(pwd) => cache.detect(facts, pwd.as_str()),
        None => None,
    }
}

fn promote_list(items: &mut Vec<RuntimeItem>, processes: &Vec<ProcessInfo>, index: &PidIndex)
    requires
        index.wf(processes@),
    ensures
        runtime::models(final(items)@) == promoted_all(
            runtime::models(old(items)@),
            processes@,
        ),
    decreases old(items)@, 1nat,
{
    let ghost before = items@;
    let mut i: usize = 0;
    while i < items.len()
        invariant
            i <= items.len(),
            index.wf(processes@),
            before == old(items)@,
            items@.len() == before.len(),
            forall|j: int| i <= j < items@.len() ==> #[trigger] items@[j] == before[j],
            forall|j: int|
                0 <= j < i ==> (#[trigger] items@[j]).model() == promoted(
                    before[j].model(),
                    processes@,
                ),
        decreases items.len() - i,
    {
        assert(items@[i as int] == before[i as int]);
        assert(decreases_to!(before => before[i as int]));
        promote_listeners(&mut items[i], processes, index);
        i += 1;
    }
    assert(runtime::models(items@) =~= promoted_all(runtime::models(before), processes@));
}

fn promote_listeners(item: &mut RuntimeItem, processes: &Vec<ProcessInfo>, index: &PidIndex)
    requires
        index.wf(processes@),
    ensures
        final(item).model() == promoted(old(item).model(), processes@),
    decreases *old(item), 0nat,
{
    let ghost start = *item;
    let ghost m = start.model();
    proof {
        runtime::model_children(start);
        assert(decreases_to!(start => start.children@));
    }
    promote_list(&mut item.children, processes, index);
    proof {
        runtime::model_children(*item);
        assert(item.model().children =~= promoted_children(m, processes@));
    }
    if item.ports.len() == 0 || item.category != Category::UnknownDev {
        return;
    }
    item.category = Category::DevServer;
    if vite_at(item.root_pid, processes, index) {
        item.display_name = "vite".to_owned();
    }
    proof {
        runtime::model_children(*item);
    }
}

fn vite_at(root: Option<u32>, processes: &Vec<ProcessInfo>, index: &PidIndex) -> (r: bool)
    requires
        index.wf(processes@),
    ensures
        r == is_vite_pid(processes@, root),
{
    match root {
        None => false,
        Some(pid) => match index.find(Ghost(processes@), pid) {
            None => false,
            Some(k) => {
                let p: &ProcessInfo = &processes[k];
                is_vite(
                    p.hay().as_str(),
                    lower_of(p.name.as_str()).as_str(),
                    argv0_base(p).as_str(),
                )
            },
        },
    }
}

/// Whether a pid stands somewhere in these items.
fn is_mentioned(items: &Vec<RuntimeItem>, pid: u32) -> (r: bool)
    ensures
        r == mentions(runtime::models(items@), pid),
    decreases items@,
{
    let ghost ms = runtime::models(items@);
    let mut i: usize = 0;
    assert(ms.take(0) =~= Seq::<ItemModel>::empty());
    while i < items.len()
        invariant
            i <= items.len(),
            ms == runtime::models(items@),
            !mentions(ms.take(i as int), pid),
        decreases items.len() - i,
    {
        proof {
            assert(ms.take(i + 1).drop_last() =~= ms.take(i as int));
            assert(ms.take(i + 1).last() == items@[i as int].model());
            runtime::model_children(items@[i as int]);
            assert(decreases_to!(items@ => items@[i as int].children@));
        }
        if holds_pid(&items[i].process_ids, pid) || is_mentioned(&items[i].children, pid) {
            proof {
                mentions_stays(ms, i + 1, pid);
            }
            return true;
        }
        i += 1;
    }
    assert(ms.take(ms.len() as int) =~= ms);
    false
}

proof fn mentions_stays(ms: Seq<ItemModel>, k: int, pid: u32)
    requires
        0 <= k <= ms.len(),
        mentions(ms.take(k), pid),
    ensures
        mentions(ms, pid),
    decreases ms.len() - k,
{
    if k == ms.len() {
        assert(ms.take(k) =~= ms);
    } else {
        assert(ms.take(k + 1).drop_last() =~= ms.take(k));
        mentions_stays(ms, k + 1, pid);
    }
}

fn runtime_guess(p: &ProcessInfo) -> (r: Option<Class>)
    ensures
        rules::class_view(r) == guessed(*p),
{
    let name: String = lower_of(p.name.as_str());
    let n: &str = name.as_str();
    if same(n, "node") || same(n, "nodejs") || same(n, "bun") || same(n, "deno") || same(n, "python")
        || same(n, "python3") || same(n, "php") || same(n, "ruby") {
        Some(Class { category: Category::UnknownDev, display_name: name })
    } else {
        None
    }
}

fn ports_listened(ports: &Vec<ListeningPort>, pid: u32) -> (r: Vec<ListeningPort>)
    ensures
        r@ == listened(ports@, pid),
{
    let mut r: Vec<ListeningPort> = Vec::new();
    let mut i: usize = 0;
    assert(ports@.take(0) =~= Seq::<ListeningPort>::empty());
    assert(r@ =~= Seq::<ListeningPort>::empty());
    while i < ports.len()
        invariant
            i <= ports.len(),
            r@ == listened(ports@.take(i as int), pid),
        decreases ports.len() - i,
    {
        assert(ports@.take(i + 1).drop_last() =~= ports@.take(i as int));
        if ports[i].pid == pid {
            r.push(ports[i].copy());
        }
        i += 1;
    }
    assert(ports@.take(ports@.len() as int) =~= ports@);
    r
}

fn listened_before(ports: &Vec<ListeningPort>, n: usize, pid: u32) -> (r: bool)
    requires
        n <= ports.len(),
    ensures
        r == listens_before(ports@, n as int, pid),
{
    let mut i: usize = 0;
    while i < n
        invariant
            i <= n <= ports.len(),
            forall|j: int| 0 <= j < i ==> (#[trigger] ports@[j]).pid != pid,
        decreases n - i,
    {
        if ports[i].pid == pid {
            return true;
        }
        i += 1;
    }
    false
}

/// The item for a listener that is in none.
fn adopt_one(
    pid: u32,
    processes: &Vec<ProcessInfo>,
    index: &PidIndex,
    ports: &Vec<ListeningPort>,
    facts: &DirFacts,
    table: &Signatures,
    signatures: &Vec<SignatureConfig>,
    cache: &mut ProjectCache,
) -> (r: Option<RuntimeItem>)
    requires
        index.wf(processes@),
        table.wf(),
    ensures
        ({
            let s = Surroundings { ps: processes@, ports: ports@, facts: *facts };
            let want = adopted(s, signatures@, old(cache)@, pid);
            final(cache)@ == want.1 && match r {
                Some(item) => want.0 == Some(item.model()),
                None => want.0 is None,
            }
        }),
{
    match index.find(Ghost(processes@), pid) {
        None => None,
        Some(k) => {
            let p: &ProcessInfo = &processes[k];
            let class: Option<Class> = match table.classify(p, signatures) {
                Some(c) => Some(c),
                None => runtime_guess(p),
            };
            match class {
                None => None,
                Some(c) => {
                    if c.category == Category::Browser {
                        return None;
                    }
                    let project: Option<Project> = project_for(
                        Some(pid),
                        processes,
                        index,
                        facts,
                        cache,
                    );
                    let mut item: RuntimeItem = RuntimeItem {
                        category: c.category,
                        display_name: c.display_name,
                        root_pid: Some(pid),
                        process_ids: vec![pid],
                        memory_bytes: p.memory_bytes,
                        state: RuntimeState::Active,
                        suspicion: None,
                        ports: ports_listened(ports, pid),
                        project,
                        children: Vec::new(),
                    };
                    proof {
                        runtime::model_children(item);
                        assert(item.model().pids =~= seq![pid]);
                        assert(item.model().children =~= Seq::<ItemModel>::empty());
                    }
                    promote_listeners(&mut item, processes, index);
                    Some(item)
                },
            }
        },
    }
}

#[verifier::loop_isolation(false)]
fn adopt_port_orphans(
    items: &mut Vec<RuntimeItem>,
    processes: &Vec<ProcessInfo>,
    index: &PidIndex,
    ports: &Vec<ListeningPort>,
    facts: &DirFacts,
    signatures: &Vec<SignatureConfig>,
    cache: &mut ProjectCache,
)
    requires
        index.wf(processes@),
    ensures
        ({
            let s = Surroundings { ps: processes@, ports: ports@, facts: *facts };
            let before = runtime::models(old(items)@);
            let more = adoptions(s, signatures@, before, old(cache)@, ports@.len() as int);
            runtime::models(final(items)@) == before + more.0 && final(cache)@ == more.1
        }),
{
    let table: Signatures = Signatures::new();
    let ghost s = Surroundings { ps: processes@, ports: ports@, facts: *facts };
    let ghost before = runtime::models(items@);
    let ghost start = cache@;
    let mut more: Vec<RuntimeItem> = Vec::new();
    let mut i: usize = 0;
    assert(runtime::models(more@) =~= Seq::<ItemModel>::empty());
    while i < ports.len()
        invariant
            i <= ports.len(),
            items@ == old(items)@,
            runtime::models(more@) == adoptions(s, signatures@, before, start, i as int).0,
            cache@ == adoptions(s, signatures@, before, start, i as int).1,
        decreases ports.len() - i,
    {
        let pid: u32 = ports[i].pid;
        if !is_mentioned(items, pid) && !listened_before(ports, i, pid) {
            let ghost done = runtime::models(more@);
            match adopt_one(pid, processes, index, ports, facts, &table, signatures, cache) {
                Some(item) => {
                    more.push(item);
                    assert(runtime::models(more@) =~= done.push(item.model()));
                },
                None => {},
            }
        }
        i += 1;
    }
    let ghost extra = runtime::models(more@);
    items.append(&mut more);
    assert(runtime::models(items@) =~= before + extra);
}

// ---------------------------------------------------------------------------
// Laws of attaching
// ---------------------------------------------------------------------------

proof fn port_insert_facts(s: Seq<ListeningPort>, p: ListeningPort)
    requires
        forall|i: int, j: int|
            0 <= i < j < s.len() ==> (#[trigger] s[i]).port < (#[trigger] s[j]).port,
    ensures
        ({
            let r = port_insert(s, p);
            &&& forall|i: int, j: int|
                0 <= i < j < r.len() ==> (#[trigger] r[i]).port < (#[trigger] r[j]).port
            &&& forall|x: ListeningPort| #[trigger] r.contains(x) ==> x == p || s.contains(x)
            &&& forall|x: ListeningPort| s.contains(x) ==> #[trigger] r.contains(x)
            &&& exists|k: int| 0 <= k < r.len() && (#[trigger] r[k]).port == p.port
            &&& forall|k: int|
                0 <= k < r.len() ==> (#[trigger] r[k]).port == p.port || exists|i: int|
                    0 <= i < s.len() && (#[trigger] s[i]).port == r[k].port
        }),
    decreases s.len(),
{
    let r = port_insert(s, p);
    if s.len() == 0 {
        assert(r[0] == p);
    } else if s.last().port < p.port {
        assert(r[s.len() as int] == p);
        assert forall|i: int, j: int| 0 <= i < j < r.len() implies (#[trigger] r[i]).port < (
        #[trigger] r[j]).port by {
            if j == s.len() && i < s.len() - 1 {
                assert(s[i].port < s[s.len() - 1].port);
            }
        }
        assert forall|x: ListeningPort| s.contains(x) implies #[trigger] r.contains(x) by {
            let k = choose|k: int| 0 <= k < s.len() && s[k] == x;
            assert(r[k] == x);
        }
        assert forall|x: ListeningPort| #[trigger] r.contains(x) implies x == p || s.contains(
            x,
        ) by {
            let k = choose|k: int| 0 <= k < r.len() && r[k] == x;
            if k < s.len() {
                assert(s[k] == x);
            }
        }
        assert forall|k: int| 0 <= k < r.len() implies (#[trigger] r[k]).port == p.port || exists|
            i: int,
        |
            0 <= i < s.len() && (#[trigger] s[i]).port == r[k].port by {
            if k < s.len() {
                assert(s[k].port == r[k].port);
            }
        }
    } else if s.last().port == p.port {
        assert(r[s.len() - 1].port == p.port);
    } else {
        let front = s.drop_last();
        let f = port_insert(front, p);
        assert forall|i: int, j: int| 0 <= i < j < front.len() implies (#[trigger] front[i]).port
            < (#[trigger] front[j]).port by {
            assert(s[i].port < s[j].port);
        }
        port_insert_facts(front, p);
        assert forall|i: int, j: int| 0 <= i < j < r.len() implies (#[trigger] r[i]).port < (
        #[trigger] r[j]).port by {
            if j < f.len() {
                assert(f[i].port < f[j].port);
            } else {
                assert(r[i] == f[i]);
                if f[i].port != p.port {
                    let n = choose|n: int|
                        0 <= n < front.len() && (#[trigger] front[n]).port == f[i].port;
                    assert(s[n].port < s[s.len() - 1].port);
                }
            }
        }
        let k = choose|k: int| 0 <= k < f.len() && (#[trigger] f[k]).port == p.port;
        assert(r[k].port == p.port);
        assert forall|x: ListeningPort| s.contains(x) implies #[trigger] r.contains(x) by {
            let n = choose|n: int| 0 <= n < s.len() && s[n] == x;
            if n < front.len() {
                assert(front[n] == x);
                assert(f.contains(x));
                let q = choose|q: int| 0 <= q < f.len() && f[q] == x;
                assert(r[q] == x);
            } else {
                assert(r[f.len() as int] == x);
            }
        }
        assert forall|x: ListeningPort| #[trigger] r.contains(x) implies x == p || s.contains(
            x,
        ) by {
            let n = choose|n: int| 0 <= n < r.len() && r[n] == x;
            if n < f.len() {
                assert(f[n] == x);
                assert(f.contains(x));
                if x != p {
                    let q = choose|q: int| 0 <= q < front.len() && front[q] == x;
                    assert(s[q] == x);
                }
            } else {
                assert(s[s.len() - 1] == x);
            }
        }
        assert forall|k: int| 0 <= k < r.len() implies (#[trigger] r[k]).port == p.port || exists|
            i: int,
        |
            0 <= i < s.len() && (#[trigger] s[i]).port == r[k].port by {
            if k < f.len() {
                assert(f[k] == r[k]);
                if f[k].port != p.port {
                    let n = choose|n: int|
                        0 <= n < front.len() && (#[trigger] front[n]).port == f[k].port;
                    assert(s[n].port == r[k].port);
                }
            } else {
                assert(s[s.len() - 1].port == r[k].port);
            }
        }
    }
}

/// The ports of an item are those that one of its processes listens on, by
/// ascending number, each number once.
pub proof fn ports_are_those_of_the_processes(pids: Seq<u32>, ports: Seq<ListeningPort>)
    ensures
        ({
            let r = ports_of(pids, ports);
            &&& forall|i: int, j: int|
                0 <= i < j < r.len() ==> (#[trigger] r[i]).port < (#[trigger] r[j]).port
            &&& forall|k: int|
                0 <= k < r.len() ==> pids.contains((#[trigger] r[k]).pid) && ports.contains(r[k])
            &&& forall|i: int|
                0 <= i < ports.len() && pids.contains((#[trigger] ports[i]).pid) ==> exists|k: int|
                    0 <= k < r.len() && (#[trigger] r[k]).port == ports[i].port
        }),
    decreases ports.len(),
{
    if ports.len() > 0 {
        let front = ports.drop_last();
        let rest = ports_of(pids, front);
        let r = ports_of(pids, ports);
        ports_are_those_of_the_processes(pids, front);
        port_insert_facts(rest, ports.last());
        assert(ports[ports.len() - 1] == ports.last());
        assert forall|k: int| 0 <= k < r.len() implies pids.contains((#[trigger] r[k]).pid)
            && ports.contains(r[k]) by {
            assert(r.contains(r[k]));
            if rest.contains(r[k]) {
                let n = choose|n: int| 0 <= n < rest.len() && rest[n] == r[k];
                assert(pids.contains(rest[n].pid));
                let q = choose|q: int| 0 <= q < front.len() && front[q] == r[k];
                assert(ports[q] == r[k]);
            }
        }
        assert forall|i: int|
            0 <= i < ports.len() && pids.contains((#[trigger] ports[i]).pid) implies exists|k: int|
            0 <= k < r.len() && (#[trigger] r[k]).port == ports[i].port by {
            if i < front.len() {
                assert(front[i] == ports[i]);
                let n = choose|n: int|
                    0 <= n < rest.len() && (#[trigger] rest[n]).port == ports[i].port;
                assert(rest.contains(rest[n]));
                assert(r.contains(rest[n]));
                let k = choose|k: int| 0 <= k < r.len() && r[k] == rest[n];
                assert(r[k].port == ports[i].port);
            }
        }
    }
}

/// Attaching changes ports and projects and nothing else: every item stays in
/// its place with its processes and its memory, and takes its own project or
/// else the first one among its children.
pub proof fn attaching_keeps_the_item(m: ItemModel, s: Surroundings, cache: CacheModel)
    ensures
        ({
            let r = attached(m, s, cache).0;
            let own = project_of_root(s, cache, m.root).0;
            &&& r.category == m.category
            &&& r.name == m.name
            &&& r.root == m.root
            &&& r.pids == m.pids
            &&& r.memory == m.memory
            &&& r.state == m.state
            &&& r.suspicion == m.suspicion
            &&& r.ports == ports_of(m.pids, s.ports)
            &&& r.children.len() == m.children.len()
            &&& own is Some ==> r.project == own
            &&& own is None ==> match r.project {
                Some(_) => exists|k: int|
                    0 <= k < r.children.len() && (#[trigger] r.children[k]).project == r.project
                        && forall|j: int| 0 <= j < k ==> (#[trigger] r.children[j]).project is None,
                None => forall|k: int|
                    0 <= k < r.children.len() ==> (#[trigger] r.children[k]).project is None,
            }
        }),
        forest::all_pids(seq![attached(m, s, cache).0]) == forest::all_pids(seq![m]),
        forest::all_memory(seq![attached(m, s, cache).0]) == forest::all_memory(seq![m]),
{
    let own = project_of_root(s, cache, m.root);
    let r = attached(m, s, cache).0;
    attaching_keeps_the_list(m.children, s, own.1);
    first_project_is_first(r.children);
    forest::one_tree(m);
    forest::one_tree(r);
}

proof fn attaching_keeps_the_list(ms: Seq<ItemModel>, s: Surroundings, cache: CacheModel)
    ensures
        attached_all(ms, s, cache).0.len() == ms.len(),
        forest::all_pids(attached_all(ms, s, cache).0) == forest::all_pids(ms),
        forest::all_memory(attached_all(ms, s, cache).0) == forest::all_memory(ms),
    decreases ms,
{
    let r = attached_all(ms, s, cache).0;
    if ms.len() > 0 {
        let front = attached_all(ms.drop_last(), s, cache);
        let m = ms.last();
        attaching_keeps_the_list(ms.drop_last(), s, cache);
        attaching_keeps_the_list(m.children, s, project_of_root(s, front.1, m.root).1);
        assert(r.drop_last() =~= front.0);
        assert(r.last() == attached(m, s, front.1).0);
    }
}

proof fn first_project_is_first(ms: Seq<ItemModel>)
    ensures
        match first_project(ms) {
            Some(p) => exists|k: int|
                0 <= k < ms.len() && (#[trigger] ms[k]).project == Some(p) && forall|j: int|
                    0 <= j < k ==> (#[trigger] ms[j]).project is None,
            None => forall|k: int| 0 <= k < ms.len() ==> (#[trigger] ms[k]).project is None,
        },
    decreases ms.len(),
{
    if ms.len() > 0 {
        let front = ms.drop_last();
        first_project_is_first(front);
        assert(forall|k: int| 0 <= k < front.len() ==> front[k] == #[trigger] ms[k]);
        match first_project(front) {
            Some(p) => {
                let k = choose|k: int|
                    0 <= k < front.len() && (#[trigger] front[k]).project == Some(p) && forall|
                        j: int,
                    |
                        0 <= j < k ==> (#[trigger] front[j]).project is None;
                assert(ms[k].project == Some(p));
                assert forall|j: int| 0 <= j < k implies (#[trigger] ms[j]).project is None by {
                    assert(front[j].project is None);
                }
            },
            None => {
                assert forall|k: int| 0 <= k < front.len() implies (
                #[trigger] ms[k]).project is None by {
                    assert(front[k].project is None);
                }
                assert(ms[ms.len() - 1].project == ms.last().project);
            },
        }
    }
}

/// A generic runtime that listens is shown as a dev server, as Vite where it
/// is one; anything else keeps category and name. Nothing else changes, and
/// the same holds of everything below.
pub proof fn a_listening_runtime_is_a_dev_server(m: ItemModel, ps: Seq<ProcessInfo>)
    ensures
        ({
            let r = promoted(m, ps);
            let listens = m.category == Category::UnknownDev && m.ports.len() > 0;
            &&& listens ==> r.category == Category::DevServer && (r.name == m.name || r.name
                == "vite"@)
            &&& !listens ==> r.category == m.category && r.name == m.name
            &&& r.root == m.root
            &&& r.pids == m.pids
            &&& r.memory == m.memory
            &&& r.ports == m.ports
            &&& r.project == m.project
            &&& r.state == m.state
            &&& r.children.len() == m.children.len()
            &&& forall|i: int|
                0 <= i < m.children.len() ==> #[trigger] r.children[i] == promoted(
                    m.children[i],
                    ps,
                )
        }),
        forest::all_pids(seq![promoted(m, ps)]) == forest::all_pids(seq![m]),
        forest::all_memory(seq![promoted(m, ps)]) == forest::all_memory(seq![m]),
    decreases m, 1nat, 0nat,
{
    let r = promoted(m, ps);
    promotion_keeps_the_children(m, ps, m.children.len());
    assert(m.children.take(m.children.len() as int) =~= m.children);
    assert(r.children.take(m.children.len() as int) =~= r.children);
    assert(r.children == promoted_children(m, ps));
    forest::one_tree(m);
    forest::one_tree(r);
}

proof fn promotion_keeps_the_children(m: ItemModel, ps: Seq<ProcessInfo>, n: nat)
    requires
        n <= m.children.len(),
    ensures
        forest::all_pids(promoted_children(m, ps).take(n as int)) == forest::all_pids(
            m.children.take(n as int),
        ),
        forest::all_memory(promoted_children(m, ps).take(n as int)) == forest::all_memory(
            m.children.take(n as int),
        ),
    decreases m, 0nat, n,
{
    let cs = promoted_children(m, ps);
    if n == 0 {
        assert(cs.take(0) =~= m.children.take(0));
    } else {
        let k = n - 1;
        promotion_keeps_the_children(m, ps, k as nat);
        assert(decreases_to!(m => m.children[k]));
        a_listening_runtime_is_a_dev_server(m.children[k], ps);
        assert(cs[k] == promoted(m.children[k], ps));
        assert(cs.take(n as int) =~= cs.take(k) + seq![cs[k]]);
        assert(m.children.take(n as int) =~= m.children.take(k) + seq![m.children[k]]);
        forest::forests_add_up(cs.take(k), seq![cs[k]]);
        forest::forests_add_up(m.children.take(k), seq![m.children[k]]);
    }
}

/// An item mentions a pid where it, or an item below it, lists the pid.
pub proof fn mentioned_is_listed(ms: Seq<ItemModel>, pid: u32)
    ensures
        mentions(ms, pid) <==> forest::all_pids(ms).count(pid) > 0,
    decreases ms,
{
    broadcast use {
        vstd::seq_lib::group_to_multiset_ensures,
        vstd::multiset::group_multiset_axioms,
    };

    if ms.len() > 0 {
        mentioned_is_listed(ms.drop_last(), pid);
        mentioned_is_listed(ms.last().children, pid);
        assert(ms.last().pids.contains(pid) <==> ms.last().pids.to_multiset().count(pid) > 0);
    }
}

/// The ports that a process listens on are all of its own, in their order.
pub proof fn listened_are_its_own(ports: Seq<ListeningPort>, pid: u32)
    ensures
        listened(ports, pid) == ports.filter(|p: ListeningPort| p.pid == pid),
    decreases ports.len(),
{
    reveal(Seq::filter);
    if ports.len() > 0 {
        listened_are_its_own(ports.drop_last(), pid);
    }
}

/// What an adopted listener is shown as: its own process with its memory and
/// all of its ports, under its class, and as a dev server where that is only
/// a generic runtime. Browsers, and what has no class, are not adopted.
pub proof fn adopted_listener_is_shown_with_its_ports(
    s: Surroundings,
    sigs: Seq<SignatureConfig>,
    cache: CacheModel,
    k: int,
)
    requires
        0 <= k < s.ps.len(),
        forall|j: int| k < j < s.ps.len() ==> (#[trigger] s.ps[j]).pid != s.ps[k].pid,
        exists|i: int| 0 <= i < s.ports.len() && (#[trigger] s.ports[i]).pid == s.ps[k].pid,
    ensures
        ({
            let p = s.ps[k];
            let r = adopted(s, sigs, cache, p.pid).0;
            let c = listener_class(p, sigs);
            &&& r is None <==> c is None || c->0.category == Category::Browser
            &&& r is Some ==> r->0.pids == seq![p.pid] && r->0.root == Some(p.pid) && r->0.memory
                == p.memory_bytes && r->0.ports == s.ports.filter(
                |port: ListeningPort| port.pid == p.pid,
            ) && r->0.children.len() == 0 && r->0.state == RuntimeState::Active
            &&& r is Some && c->0.category != Category::UnknownDev ==> r->0.category
                == c->0.category && r->0.name == c->0.name
            &&& r is Some && c->0.category == Category::UnknownDev ==> r->0.category
                == Category::DevServer
        }),
{
    let p = s.ps[k];
    pids::last_index_range(s.ps, p.pid);
    let n = pids::last_index(s.ps, p.pid)->0;
    assert(n == k) by {
        if n < k {
            assert(s.ps[k].pid != p.pid);
        } else if k < n {
            assert(s.ps[n].pid != s.ps[k].pid);
        }
    }
    listened_are_its_own(s.ports, p.pid);
    let i = choose|i: int| 0 <= i < s.ports.len() && (#[trigger] s.ports[i]).pid == p.pid;
    listened_holds(s.ports, p.pid, i);
    let r = adopted(s, sigs, cache, p.pid).0;
    if r is Some {
        assert(r->0.children =~= Seq::<ItemModel>::empty());
    }
}

proof fn listened_holds(ports: Seq<ListeningPort>, pid: u32, i: int)
    requires
        0 <= i < ports.len(),
        ports[i].pid == pid,
    ensures
        listened(ports, pid).len() > 0,
    decreases ports.len(),
{
    if i < ports.len() - 1 {
        assert(ports.drop_last()[i] == ports[i]);
        listened_holds(ports.drop_last(), pid, i);
    }
}

/// What is taken for a listener that no signature knows: the interpreters, by
/// their exact name, as generic runtimes.
pub proof fn only_interpreters_are_guessed(p: ProcessInfo, sigs: Seq<SignatureConfig>)
    ensures
        ({
            let name = text::lower(p.name@);
            let known = rules::classified(p, sigs);
            let interpreter = name == "node"@ || name == "nodejs"@ || name == "bun"@ || name
                == "deno"@ || name == "python"@ || name == "python3"@ || name == "php"@ || name
                == "ruby"@;
            &&& known is Some ==> listener_class(p, sigs) == known
            &&& known is None && interpreter ==> listener_class(p, sigs) == Some(
                ClassModel { category: Category::UnknownDev, name },
            )
            &&& known is None && !interpreter ==> listener_class(p, sigs) is None
        }),
{
}

/// No listener is left out and none is shown twice. Every port whose process
/// is in no item yet, and can be classed, leads to one adopted item of that
/// process; whoever stands in an item already is not adopted.
pub proof fn every_orphaned_listener_is_adopted(
    s: Surroundings,
    sigs: Seq<SignatureConfig>,
    seen: Seq<ItemModel>,
    cache: CacheModel,
    n: int,
    i: int,
    k: int,
)
    requires
        0 <= i < n <= s.ports.len(),
        0 <= k < s.ps.len(),
        s.ps[k].pid == s.ports[i].pid,
        forall|j: int| k < j < s.ps.len() ==> (#[trigger] s.ps[j]).pid != s.ps[k].pid,
        listener_class(s.ps[k], sigs) is Some,
        listener_class(s.ps[k], sigs)->0.category != Category::Browser,
        forest::all_pids(seen).count(s.ports[i].pid) == 0,
    ensures
        exists|q: int|
            0 <= q < adoptions(s, sigs, seen, cache, n).0.len() && (#[trigger] adoptions(
                s,
                sigs,
                seen,
                cache,
                n,
            ).0[q]).pids == seq![s.ports[i].pid],
    decreases n,
{
    let rest = adoptions(s, sigs, seen, cache, n - 1);
    let all = adoptions(s, sigs, seen, cache, n).0;
    let pid = s.ports[i].pid;
    mentioned_is_listed(seen, pid);
    if i < n - 1 {
        every_orphaned_listener_is_adopted(s, sigs, seen, cache, n - 1, i, k);
        let q = choose|q: int|
            0 <= q < rest.0.len() && (#[trigger] rest.0[q]).pids == seq![s.ports[i].pid];
        assert(all[q].pids == seq![pid]);
    } else if listens_before(s.ports, n - 1, pid) {
        let j = choose|j: int| 0 <= j < n - 1 && (#[trigger] s.ports[j]).pid == pid;
        every_orphaned_listener_is_adopted(s, sigs, seen, cache, n - 1, j, k);
        let q = choose|q: int|
            0 <= q < rest.0.len() && (#[trigger] rest.0[q]).pids == seq![s.ports[j].pid];
        assert(all[q].pids == seq![pid]);
    } else {
        assert(exists|x: int| 0 <= x < s.ports.len() && (#[trigger] s.ports[x]).pid == s.ps[k].pid)
            by {
            assert(s.ports[i].pid == s.ps[k].pid);
        }
        adopted_listener_is_shown_with_its_ports(s, sigs, rest.1, k);
        assert(all[rest.0.len() as int].pids == seq![pid]);
    }
}

/// Nobody is adopted who stands in an item already, and each adopted process
/// listens.
pub proof fn only_orphans_are_adopted(
    s: Surroundings,
    sigs: Seq<SignatureConfig>,
    seen: Seq<ItemModel>,
    cache: CacheModel,
    n: int,
)
    requires
        0 <= n <= s.ports.len(),
    ensures
        ({
            let all = adoptions(s, sigs, seen, cache, n).0;
            &&& forall|q: int|
                0 <= q < all.len() ==> {
                    let m = #[trigger] all[q];
                    &&& m.pids.len() == 1
                    &&& forest::all_pids(seen).count(m.pids[0]) == 0
                    &&& exists|i: int| 0 <= i < n && (#[trigger] s.ports[i]).pid == m.pids[0]
                }
            &&& forall|a: int, b: int|
                0 <= a < b < all.len() ==> (#[trigger] all[a]).pids[0] != (#[trigger] all[b]).pids[0]
        }),
    decreases n,
{
    if n > 0 {
        only_orphans_are_adopted(s, sigs, seen, cache, n - 1);
        let rest = adoptions(s, sigs, seen, cache, n - 1);
        let all = adoptions(s, sigs, seen, cache, n).0;
        let pid = s.ports[n - 1].pid;
        mentioned_is_listed(seen, pid);
        assert forall|q: int| 0 <= q < all.len() implies ({
            let m = #[trigger] all[q];
            &&& m.pids.len() == 1
            &&& forest::all_pids(seen).count(m.pids[0]) == 0
            &&& exists|i: int| 0 <= i < n && (#[trigger] s.ports[i]).pid == m.pids[0]
        }) by {
            if q < rest.0.len() {
                let m = rest.0[q];
                assert(all[q] == m);
                let i = choose|i: int| 0 <= i < n - 1 && (#[trigger] s.ports[i]).pid == m.pids[0];
                assert(s.ports[i].pid == m.pids[0]);
            } else {
                assert(all[q].pids == seq![pid]);
                assert(s.ports[n - 1].pid == pid);
            }
        }
        assert forall|a: int, b: int| 0 <= a < b < all.len() implies (#[trigger] all[a]).pids[0]
            != (#[trigger] all[b]).pids[0] by {
            assert(all[a] == rest.0[a]);
            if b < rest.0.len() {
                assert(all[b] == rest.0[b]);
            } else {
                assert(all[b].pids == seq![pid]);
                let m = rest.0[a];
                let i = choose|i: int| 0 <= i < n - 1 && (#[trigger] s.ports[i]).pid == m.pids[0];
                assert(s.ports[i].pid == m.pids[0]);
                assert(!listens_before(s.ports, n - 1, pid));
            }
        }
    }
}

/// The directories above one are its parent, the parent's parent and so on.
pub proof fn ancestors_go_from_parent_to_parent(dir: Seq<char>, k: int)
    requires
        0 <= k < ancestors(dir).len(),
    ensures
        ancestors(dir)[0] == dir,
        k + 1 < ancestors(dir).len() ==> path::parent_of(ancestors(dir)[k]) == Some(
            ancestors(dir)[k + 1],
        ),
        k + 1 == ancestors(dir).len() ==> path::parent_of(ancestors(dir)[k]) is None,
    decreases k,
{
    match path::parent_of(dir) {
        Some(p) => {
            let rest = ancestors(p);
            ancestors_start(p);
            assert(ancestors(dir) == seq![dir] + rest);
            if k > 0 {
                ancestors_go_from_parent_to_parent(p, k - 1);
                assert(ancestors(dir)[k] == rest[k - 1]);
                if k + 1 < ancestors(dir).len() {
                    assert(ancestors(dir)[k + 1] == rest[k]);
                }
            }
        },
        None => {},
    }
}

/// The nearest directory with a manifest is the project, named after it.
pub proof fn nearest_manifest_names_the_project(facts: DirFacts, chain: Seq<Seq<char>>, k: int)
    requires
        0 <= k < chain.len(),
        facts.has_marker(chain[k]),
        forall|j: int| 0 <= j < k ==> !facts.has_marker(#[trigger] chain[j]),
    ensures
        nearest_marked(facts, chain) is Some,
        nearest_marked(facts, chain)->0.root == chain[k],
        path::base_name(chain[k]) is Some ==> nearest_marked(facts, chain)->0.name
            == path::base_name(chain[k])->0,
    decreases k,
{
    if k > 0 {
        let rest = chain.skip(1);
        assert(rest[k - 1] == chain[k]);
        assert forall|j: int| 0 <= j < k - 1 implies !facts.has_marker(#[trigger] rest[j]) by {
            assert(rest[j] == chain[j + 1]);
        }
        assert(!facts.has_marker(chain[0]));
        nearest_manifest_names_the_project(facts, rest, k - 1);
    }
}

/// A process belongs to the project of its own directory; only without one
/// to that of a directory it was given, and then to its parent's.
pub proof fn own_directory_comes_first(s: Surroundings, cache: CacheModel, p: ProcessInfo)
    ensures
        ({
            let r = project_of_process(p, s.facts, cache).0;
            let cwd = if p.cwd is Some {
                cache.found(s.facts, s.facts.resolved(p.cwd->0@))
            } else {
                None
            };
            &&& cwd is Some ==> r == cwd
            &&& p.cwd is None && pwd_in(text::texts(p.command@)) is Some ==> r == cache.found(
                s.facts,
                s.facts.resolved(pwd_in(text::texts(p.command@))->0),
            )
            &&& cwd is None && pwd_in(text::texts(p.command@)) is None ==> r is None
        }),
{
}

/// An item belongs to the project of its process or, where that has none, of
/// the nearest ancestor that has one.
pub proof fn nearest_ancestor_with_a_project_counts(
    s: Surroundings,
    cache: CacheModel,
    k: int,
    steps: nat,
)
    requires
        0 <= k < s.ps.len(),
        forall|j: int| k < j < s.ps.len() ==> (#[trigger] s.ps[j]).pid != s.ps[k].pid,
        steps > 0,
    ensures
        ({
            let p = s.ps[k];
            let here = project_of_process(p, s.facts, cache);
            let r = project_upwards(s.ps, s.facts, cache, p.pid, steps).0;
            &&& here.0 is Some ==> r == here.0
            &&& here.0 is None && p.parent_pid is Some ==> r == project_upwards(
                s.ps,
                s.facts,
                here.1,
                p.parent_pid->0,
                (steps - 1) as nat,
            ).0
            &&& here.0 is None && p.parent_pid is None ==> r is None
        }),
{
    let p = s.ps[k];
    pids::last_index_range(s.ps, p.pid);
    let n = pids::last_index(s.ps, p.pid)->0;
    assert(n == k) by {
        if n < k {
            assert(s.ps[k].pid != p.pid);
        } else if k < n {
            assert(s.ps[n].pid != s.ps[k].pid);
        }
    }
}

/// A path below the home directory is written with `~` and its rest, from
/// which the path can be put together again; any other path is left alone.
pub proof fn short_path_can_be_written_out(p: Seq<char>, home: Seq<char>)
    requires
        path::trimmed(home).len() > 0,
        path::trimmed(home).last() != '/',
    ensures
        ({
            let base = path::trimmed(home);
            let t = path::trimmed(p);
            let r = shortened(p, Some(home));
            &&& t == base ==> r == "~"@
            &&& t != base && text::starts_with(t, base + "/"@) ==> exists|rest: Seq<char>|
                r == "~/"@ + rest && t == #[trigger] (base + "/"@ + rest)
            &&& t != base && !text::starts_with(t, base + "/"@) ==> r == p
        }),
        shortened(p, None) == p,
{
    let base = path::trimmed(home);
    let t = path::trimmed(p);
    reveal_strlit("/");
    if t != base && text::starts_with(t, base + "/"@) {
        let rest = t.skip(base.len() as int + 1);
        assert(t.subrange(0, base.len() as int + 1) == base + "/"@);
        assert(t =~= t.subrange(0, base.len() as int + 1) + rest);
        assert(t == base + "/"@ + rest);
    }
}

/// A listening runtime whose root looks like Vite is called so; any other
/// keeps its name.
pub proof fn a_listening_vite_is_called_vite(m: ItemModel, ps: Seq<ProcessInfo>, p: ProcessInfo)
    requires
        m.category == Category::UnknownDev,
        m.ports.len() > 0,
    ensures
        ({
            let w = rules::Words {
                name: text::lower(p.name@),
                argv0: rules::argv0_of(p),
                hay: p.haystack(),
                alone: false,
            };
            &&& m.root is Some && pids::by_pid(ps, m.root->0) == Some(p) && rules::looks_like_vite(w)
                ==> promoted(m, ps).name == "vite"@
            &&& m.root is Some && pids::by_pid(ps, m.root->0) == Some(p)
                && !rules::looks_like_vite(w) ==> promoted(m, ps).name == m.name
            &&& m.root is None || pids::by_pid(ps, m.root->0) is None ==> promoted(m, ps).name
                == m.name
        }),
{
}

} // verus!

//! Grouping a process snapshot into logical items.

use crate::classify::order;
use crate::classify::order::{insert_desc, insert_once};
use crate::classify::pids;
use crate::classify::pids::PidIndex;
use crate::classify::rules;
use crate::classify::rules::{browser_cmd_looks_dev, Class, ClassModel, Signatures};
use crate::config::SignatureConfig;
use crate::model::process::ProcessInfo;
use crate::model::runtime;
use crate::model::runtime::{Category, ItemModel, RuntimeItem, RuntimeState};
use crate::text;
use crate::text::{same, text_has};
use vstd::prelude::*;

verus! {

// ---------------------------------------------------------------------------
// Model
// ---------------------------------------------------------------------------

/// What each process of a snapshot is.
pub open spec fn classes(
    ps: Seq<ProcessInfo>,
    sigs: Seq<SignatureConfig>,
) -> Seq<Option<ClassModel>> {
    ps.map_values(|p: ProcessInfo| rules::classified(p, sigs))
}

/// What the process with this pid is.
pub open spec fn class_of(
    ps: Seq<ProcessInfo>,
    cls: Seq<Option<ClassModel>>,
    pid: u32,
) -> Option<ClassModel> {
    match pids::last_index(ps, pid) {
        Some(i) => cls[i],
        None => None,
    }
}

/// Something that drives a browser.
pub open spec fn controls_browser(c: Option<ClassModel>) -> bool {
    match c {
        Some(c) => c.category == Category::Mcp || c.category == Category::Agent || text::contains(
            c.name,
            "playwright"@,
        ),
        None => false,
    }
}

pub open spec fn controls(
    ps: Seq<ProcessInfo>,
    cls: Seq<Option<ClassModel>>,
) -> spec_fn(u32) -> bool {
    |a: u32| controls_browser(class_of(ps, cls, a))
}

/// A browser under an agent, an MCP server or Playwright.
pub open spec fn has_controller(
    ps: Seq<ProcessInfo>,
    cls: Seq<Option<ClassModel>>,
    pid: u32,
) -> bool {
    pids::ancestor_within(
        ps,
        pids::parent_of(ps, pid),
        pids::MAX_ANCESTORS as nat,
        controls(ps, cls),
    ) is Some
}

pub open spec fn has_category(c: Option<ClassModel>, category: Category) -> bool {
    match c {
        Some(c) => c.category == category,
        None => false,
    }
}

/// An automated browser, as opposed to a desktop one.
pub open spec fn dev_browser(
    ps: Seq<ProcessInfo>,
    cls: Seq<Option<ClassModel>>,
    pid: u32,
) -> bool {
    match pids::by_pid(ps, pid) {
        Some(p) => has_category(class_of(ps, cls, pid), Category::Browser) && (
        rules::looks_automated(p) || has_controller(ps, cls, pid)),
        None => false,
    }
}

/// A process of the development runtime; desktop browsers are not.
pub open spec fn counts(
    ps: Seq<ProcessInfo>,
    cls: Seq<Option<ClassModel>>,
    pid: u32,
) -> bool {
    match class_of(ps, cls, pid) {
        Some(c) => c.category == Category::Browser ==> dev_browser(ps, cls, pid),
        None => false,
    }
}

/// A generic runtime that merely started something of the runtime.
pub open spec fn is_shim(
    ps: Seq<ProcessInfo>,
    cls: Seq<Option<ClassModel>>,
    pid: u32,
) -> bool {
    &&& has_category(class_of(ps, cls, pid), Category::UnknownDev)
    &&& exists|i: int|
        0 <= i < ps.len() && pids::descends(ps, (#[trigger] ps[i]).pid, pid) && counts(
            ps,
            cls,
            ps[i].pid,
        )
}

/// A process that becomes an item of its own. Browsers are rolled up under
/// what drives them, shims are skipped, and a bare `node` or `python` without
/// arguments says nothing.
pub open spec fn is_item(
    ps: Seq<ProcessInfo>,
    cls: Seq<Option<ClassModel>>,
    pid: u32,
) -> bool {
    match class_of(ps, cls, pid) {
        Some(c) => {
            &&& c.category != Category::Browser
            &&& !is_shim(ps, cls, pid)
            &&& c.category == Category::UnknownDev ==> match pids::by_pid(ps, pid) {
                Some(p) => p.command@.len() > 0,
                None => false,
            }
        },
        None => false,
    }
}

pub open spec fn item_test(
    ps: Seq<ProcessInfo>,
    cls: Seq<Option<ClassModel>>,
) -> spec_fn(u32) -> bool {
    |a: u32| is_item(ps, cls, a)
}

/// The nearest ancestor that is an item.
pub open spec fn item_above(
    ps: Seq<ProcessInfo>,
    cls: Seq<Option<ClassModel>>,
    pid: u32,
) -> Option<u32> {
    pids::ancestor_within(
        ps,
        pids::parent_of(ps, pid),
        pids::MAX_ANCESTORS as nat,
        item_test(ps, cls),
    )
}

/// The items of the first `n` processes that stand under `par`, or at the
/// top where that is none; biggest first.
pub open spec fn items_under(
    ps: Seq<ProcessInfo>,
    cls: Seq<Option<ClassModel>>,
    par: Option<u32>,
    n: int,
) -> Seq<u32>
    decreases n,
{
    if n <= 0 || n > ps.len() {
        Seq::empty()
    } else {
        let rest = items_under(ps, cls, par, n - 1);
        let pid = ps[n - 1].pid;
        if is_item(ps, cls, pid) && item_above(ps, cls, pid) == par {
            rest.insert(order::slot(rest, pid, pids::memory_key(ps)), pid)
        } else {
            rest
        }
    }
}

/// The automated browsers among the first `n` processes that descend from
/// `top`, by pid.
pub open spec fn browsers_below(
    ps: Seq<ProcessInfo>,
    cls: Seq<Option<ClassModel>>,
    top: u32,
    n: int,
) -> Seq<u32>
    decreases n,
{
    if n <= 0 || n > ps.len() {
        Seq::empty()
    } else {
        let rest = browsers_below(ps, cls, top, n - 1);
        let pid = ps[n - 1].pid;
        if dev_browser(ps, cls, pid) && pids::descends(ps, pid, top) {
            order::set_insert(rest, pid)
        } else {
            rest
        }
    }
}

/// Sum of two sizes, the largest number where it does not fit.
pub open spec fn sat(a: u64, b: u64) -> u64 {
    if a + b > u64::MAX {
        u64::MAX
    } else {
        (a + b) as u64
    }
}

pub open spec fn memory_sum(ps: Seq<ProcessInfo>, list: Seq<u32>) -> u64
    decreases list.len(),
{
    if list.len() == 0 {
        0
    } else {
        sat(memory_sum(ps, list.drop_last()), pids::memory_of(ps, list.last()))
    }
}

/// The browsers below an MCP server as one item.
pub open spec fn rollup(
    ps: Seq<ProcessInfo>,
    cls: Seq<Option<ClassModel>>,
    top: u32,
) -> Option<ItemModel> {
    let list = browsers_below(ps, cls, top, ps.len() as int);
    if list.len() == 0 {
        None
    } else {
        Some(
            ItemModel {
                category: Category::Browser,
                name: match class_of(ps, cls, list[0]) {
                    Some(c) => c.name,
                    None => "Chromium"@,
                },
                root: Some(list[0]),
                pids: list,
                memory: memory_sum(ps, list),
                state: RuntimeState::Active,
                suspicion: None,
                ports: Seq::empty(),
                project: None,
                children: Seq::empty(),
            },
        )
    }
}

/// The item of a process with the items under it. No chain of items is
/// longer than the snapshot, which bounds the depth.
pub open spec fn item_tree(
    ps: Seq<ProcessInfo>,
    cls: Seq<Option<ClassModel>>,
    pid: u32,
    depth: nat,
) -> ItemModel
    decreases depth,
{
    let c = class_of(ps, cls, pid).unwrap();
    let under = items_under(ps, cls, Some(pid), ps.len() as int);
    let nested = if depth == 0 {
        Seq::empty()
    } else {
        Seq::new(under.len(), |i: int| item_tree(ps, cls, under[i], (depth - 1) as nat))
    };
    ItemModel {
        category: c.category,
        name: c.name,
        root: Some(pid),
        pids: seq![pid],
        memory: pids::memory_of(ps, pid),
        state: if c.category == Category::Database {
            RuntimeState::Persistent
        } else {
            RuntimeState::Active
        },
        suspicion: None,
        ports: Seq::empty(),
        project: None,
        children: if c.category == Category::Mcp {
            match rollup(ps, cls, pid) {
                Some(b) => nested.push(b),
                None => nested,
            }
        } else {
            nested
        },
    }
}

/// A helper of the same kind and name as its parent.
pub open spec fn is_helper(parent: ItemModel, c: ItemModel) -> bool {
    c.category == parent.category && c.name == parent.name
}

/// An item that took in the first `n` of these children that are helpers;
/// the other children stay, and those of helpers move up behind them.
pub open spec fn helper_pids(m: ItemModel, cs: Seq<ItemModel>) -> Seq<u32>
    decreases cs.len(),
{
    if cs.len() == 0 {
        Seq::empty()
    } else if is_helper(m, cs.last()) {
        helper_pids(m, cs.drop_last()) + cs.last().pids
    } else {
        helper_pids(m, cs.drop_last())
    }
}

pub open spec fn helper_memory(m: ItemModel, cs: Seq<ItemModel>) -> u64
    decreases cs.len(),
{
    if cs.len() == 0 {
        m.memory
    } else if is_helper(m, cs.last()) {
        sat(helper_memory(m, cs.drop_last()), cs.last().memory)
    } else {
        helper_memory(m, cs.drop_last())
    }
}

pub open spec fn staying(m: ItemModel, cs: Seq<ItemModel>) -> Seq<ItemModel>
    decreases cs.len(),
{
    if cs.len() == 0 {
        Seq::empty()
    } else if is_helper(m, cs.last()) {
        staying(m, cs.drop_last())
    } else {
        staying(m, cs.drop_last()).push(cs.last())
    }
}

pub open spec fn moving_up(m: ItemModel, cs: Seq<ItemModel>) -> Seq<ItemModel>
    decreases cs.len(),
{
    if cs.len() == 0 {
        Seq::empty()
    } else if is_helper(m, cs.last()) {
        moving_up(m, cs.drop_last()) + cs.last().children
    } else {
        moving_up(m, cs.drop_last())
    }
}

/// `m` with these children in place of its own, helpers folded in.
pub open spec fn folded(m: ItemModel, cs: Seq<ItemModel>) -> ItemModel {
    ItemModel {
        pids: m.pids + helper_pids(m, cs),
        memory: helper_memory(m, cs),
        children: staying(m, cs) + moving_up(m, cs),
        ..m
    }
}

/// Helpers folded into their parents, from the bottom up.
pub open spec fn collapsed(m: ItemModel) -> ItemModel
    decreases m, 1nat,
{
    folded(m, collapsed_children(m))
}

pub open spec fn collapsed_children(m: ItemModel) -> Seq<ItemModel>
    decreases m, 0nat,
{
    Seq::new(
        m.children.len(),
        |i: int|
            if 0 <= i < m.children.len() {
                collapsed(m.children[i])
            } else {
                arbitrary()
            },
    )
}

/// The logical items of a snapshot.
pub open spec fn grouped(ps: Seq<ProcessInfo>, sigs: Seq<SignatureConfig>) -> Seq<ItemModel> {
    let cls = classes(ps, sigs);
    let tops = items_under(ps, cls, None, ps.len() as int);
    tops.map_values(|pid: u32| collapsed(item_tree(ps, cls, pid, ps.len())))
}

// ---------------------------------------------------------------------------
// Grouping
// ---------------------------------------------------------------------------

/// A snapshot with what was found out about its processes.
struct Scan<'a> {
    ps: &'a Vec<ProcessInfo>,
    index: PidIndex,
    classes: Vec<Option<Class>>,
    browser: Vec<bool>,
    item: Vec<bool>,
}

spec fn class_models(v: Seq<Option<Class>>) -> Seq<Option<ClassModel>> {
    v.map_values(|c: Option<Class>| rules::class_view(c))
}

impl<'a> Scan<'a> {
    spec fn cls(self) -> Seq<Option<ClassModel>> {
        class_models(self.classes@)
    }

    /// Lookups and classes are in place.
    spec fn wf(self) -> bool {
        self.index.wf(self.ps@) && self.classes@.len() == self.ps@.len()
    }

    /// Browsers are sorted out for the first `n` processes.
    spec fn browsers_known(self) -> bool {
        &&& self.browser@.len() == self.ps@.len()
        &&& forall|i: int|
            0 <= i < self.ps@.len() ==> #[trigger] self.browser@[i] == dev_browser(
                self.ps@,
                self.cls(),
                self.ps@[i].pid,
            )
    }

    spec fn items_known(self) -> bool {
        &&& self.item@.len() == self.ps@.len()
        &&& forall|i: int|
            0 <= i < self.ps@.len() ==> #[trigger] self.item@[i] == is_item(
                self.ps@,
                self.cls(),
                self.ps@[i].pid,
            )
    }

    fn class(&self, pid: u32) -> (r: Option<&Class>)
        requires
            self.wf(),
        ensures
            match r {
                Some(c) => class_of(self.ps@, self.cls(), pid) == Some(c@),
                None => class_of(self.ps@, self.cls(), pid) is None,
            },
    {
        match self.index.find(Ghost(self.ps@), pid) {
            Some(i) => {
                assert(self.cls()[i as int] == rules::class_view(self.classes@[i as int]));
                match &self.classes[i] {
                    Some(c) => Some(c),
                    None => None,
                }
            },
            None => None,
        }
    }

    fn has_dev_browser_ancestor(&self, pid: u32) -> (r: bool)
        requires
            self.wf(),
        ensures
            r == has_controller(self.ps@, self.cls(), pid),
    {
        let ghost hit = controls(self.ps@, self.cls());
        let ghost start = pids::parent_of(self.ps@, pid);
        let mut cur: Option<u32> = self.index.parent(self.ps, pid);
        let mut steps: usize = pids::MAX_ANCESTORS;
        while steps > 0
            invariant
                steps <= pids::MAX_ANCESTORS,
                self.wf(),
                hit == controls(self.ps@, self.cls()),
                pids::ancestor_within(self.ps@, start, pids::MAX_ANCESTORS as nat, hit)
                    == pids::ancestor_within(self.ps@, cur, steps as nat, hit),
                start == pids::parent_of(self.ps@, pid),
            decreases steps,
        {
            match cur {
                None => {
                    return false;
                },
                Some(a) => {
                    let driver: bool = match self.class(a) {
                        Some(c) => c.category == Category::Mcp || c.category == Category::Agent
                            || text_has(c.display_name.as_str(), "playwright"),
                        None => false,
                    };
                    assert(driver == hit(a));
                    if driver {
                        return true;
                    }
                    cur = self.index.parent(self.ps, a);
                },
            }
            steps -= 1;
        }
        false
    }

    fn is_dev_browser(&self, pid: u32) -> (r: bool)
        requires
            self.wf(),
        ensures
            r == dev_browser(self.ps@, self.cls(), pid),
    {
        match self.index.find(Ghost(self.ps@), pid) {
            None => false,
            Some(i) => match self.class(pid) {
                None => false,
                Some(c) => c.category == Category::Browser && (browser_cmd_looks_dev(&self.ps[i])
                    || self.has_dev_browser_ancestor(pid)),
            },
        }
    }

    fn is_classified(&self, i: usize) -> (r: bool)
        requires
            self.wf(),
            self.browsers_known(),
            i < self.ps@.len(),
        ensures
            r == counts(self.ps@, self.cls(), self.ps@[i as int].pid),
    {
        match self.class(self.ps[i].pid) {
            None => false,
            Some(c) => c.category != Category::Browser || self.browser[i],
        }
    }

    /// Whether something of the runtime descends from this process.
    fn has_classified_descendant(&self, pid: u32) -> (r: bool)
        requires
            self.wf(),
            self.browsers_known(),
        ensures
            r == exists|i: int|
                0 <= i < self.ps@.len() && pids::descends(
                    self.ps@,
                    (#[trigger] self.ps@[i]).pid,
                    pid,
                ) && counts(self.ps@, self.cls(), self.ps@[i].pid),
    {
        let mut i: usize = 0;
        while i < self.ps.len()
            invariant
                i <= self.ps@.len(),
                self.wf(),
                self.browsers_known(),
                forall|k: int|
                    0 <= k < i ==> !(pids::descends(self.ps@, (#[trigger] self.ps@[k]).pid, pid)
                        && counts(self.ps@, self.cls(), self.ps@[k].pid)),
            decreases self.ps@.len() - i,
        {
            if self.is_classified(i) && self.index.is_below(self.ps, self.ps[i].pid, pid) {
                assert(pids::descends(self.ps@, self.ps@[i as int].pid, pid));
                return true;
            }
            i += 1;
        }
        false
    }

    fn makes_item(&self, pid: u32) -> (r: bool)
        requires
            self.wf(),
            self.browsers_known(),
        ensures
            r == is_item(self.ps@, self.cls(), pid),
    {
        match self.class(pid) {
            None => false,
            Some(c) => {
                if c.category == Category::Browser {
                    return false;
                }
                if c.category != Category::UnknownDev {
                    return true;
                }
                // A generic runtime: an item only when it runs something, and
                // nothing below it says more.
                match self.index.find(Ghost(self.ps@), pid) {
                    None => false,
                    Some(i) => self.ps[i].command.len() > 0 && !self.has_classified_descendant(
                        pid,
                    ),
                }
            },
        }
    }

    fn item_known(&self, pid: u32) -> (r: bool)
        requires
            self.wf(),
            self.items_known(),
        ensures
            r == is_item(self.ps@, self.cls(), pid),
    {
        proof {
            pids::last_index_range(self.ps@, pid);
        }
        match self.index.find(Ghost(self.ps@), pid) {
            Some(i) => self.item[i],
            None => false,
        }
    }

    fn nearest_item_ancestor(&self, pid: u32) -> (r: Option<u32>)
        requires
            self.wf(),
            self.items_known(),
        ensures
            r == item_above(self.ps@, self.cls(), pid),
    {
        let ghost hit = item_test(self.ps@, self.cls());
        let ghost start = pids::parent_of(self.ps@, pid);
        let mut cur: Option<u32> = self.index.parent(self.ps, pid);
        let mut steps: usize = pids::MAX_ANCESTORS;
        while steps > 0
            invariant
                steps <= pids::MAX_ANCESTORS,
                self.wf(),
                self.items_known(),
                hit == item_test(self.ps@, self.cls()),
                pids::ancestor_within(self.ps@, start, pids::MAX_ANCESTORS as nat, hit)
                    == pids::ancestor_within(self.ps@, cur, steps as nat, hit),
                start == pids::parent_of(self.ps@, pid),
            decreases steps,
        {
            match cur {
                None => {
                    return None;
                },
                Some(a) => {
                    let found: bool = self.item_known(a);
                    assert(found == hit(a));
                    if found {
                        return Some(a);
                    }
                    cur = self.index.parent(self.ps, a);
                },
            }
            steps -= 1;
        }
        None
    }

    /// The items under `par`, or at the top, biggest first.
    fn items_below(&self, par: Option<u32>) -> (r: Vec<u32>)
        requires
            self.wf(),
            self.items_known(),
        ensures
            r@ == items_under(self.ps@, self.cls(), par, self.ps@.len() as int),
    {
        let mut out: Vec<u32> = Vec::new();
        let mut keys: Vec<u64> = Vec::new();
        let ghost key = pids::memory_key(self.ps@);
        let mut i: usize = 0;
        while i < self.ps.len()
            invariant
                i <= self.ps@.len(),
                self.wf(),
                self.items_known(),
                key == pids::memory_key(self.ps@),
                out.len() == keys.len(),
                forall|j: int| 0 <= j < out.len() ==> keys@[j] == key(#[trigger] out@[j]),
                out@ == items_under(self.ps@, self.cls(), par, i as int),
            decreases self.ps@.len() - i,
        {
            let pid: u32 = self.ps[i].pid;
            if self.item[i] && self.nearest_item_ancestor(pid) == par {
                let m: u64 = self.index.memory(self.ps, pid);
                insert_desc(&mut out, &mut keys, pid, m, Ghost(key));
            }
            i += 1;
        }
        out
    }

    fn rollup_browsers(&self, top: u32) -> (r: Option<RuntimeItem>)
        requires
            self.wf(),
            self.browsers_known(),
        ensures
            match r {
                Some(item) => rollup(self.ps@, self.cls(), top) == Some(item.model()),
                None => rollup(self.ps@, self.cls(), top) is None,
            },
    {
        let mut list: Vec<u32> = Vec::new();
        let mut i: usize = 0;
        while i < self.ps.len()
            invariant
                i <= self.ps@.len(),
                self.wf(),
                self.browsers_known(),
                list@ == browsers_below(self.ps@, self.cls(), top, i as int),
            decreases self.ps@.len() - i,
        {
            let pid: u32 = self.ps[i].pid;
            if self.browser[i] && self.index.is_below(self.ps, pid, top) {
                insert_once(&mut list, pid);
            }
            i += 1;
        }
        if list.len() == 0 {
            return None;
        }
        let mut memory_bytes: u64 = 0;
        let mut i: usize = 0;
        assert(list@.take(0) =~= Seq::<u32>::empty());
        while i < list.len()
            invariant
                i <= list.len(),
                self.wf(),
                memory_bytes == memory_sum(self.ps@, list@.take(i as int)),
            decreases list.len() - i,
        {
            assert(list@.take(i + 1).drop_last() =~= list@.take(i as int));
            memory_bytes = sat_add(memory_bytes, self.index.memory(self.ps, list[i]));
            i += 1;
        }
        assert(list@.take(list@.len() as int) =~= list@);
        let display_name: String = match self.class(list[0]) {
            Some(c) => c.display_name.clone(),
            None => "Chromium".to_owned(),
        };
        let item: RuntimeItem = RuntimeItem {
            category: Category::Browser,
            display_name,
            root_pid: Some(list[0]),
            process_ids: list,
            memory_bytes,
            state: RuntimeState::Active,
            suspicion: None,
            ports: Vec::new(),
            project: None,
            children: Vec::new(),
        };
        assert(item.model().ports =~= Seq::empty());
        assert(item.model().children =~= Seq::empty());
        Some(item)
    }

    fn build_item(&self, pid: u32, depth: usize) -> (r: RuntimeItem)
        requires
            self.wf(),
            self.browsers_known(),
            self.items_known(),
            class_of(self.ps@, self.cls(), pid) is Some,
        ensures
            r.model() == item_tree(self.ps@, self.cls(), pid, depth as nat),
        decreases depth,
    {
        let ghost under = items_under(self.ps@, self.cls(), Some(pid), self.ps@.len() as int);
        let mut children: Vec<RuntimeItem> = Vec::new();
        if depth > 0 {
            let kids: Vec<u32> = self.items_below(Some(pid));
            let mut i: usize = 0;
            while i < kids.len()
                invariant
                    i <= kids.len(),
                    self.wf(),
                    self.browsers_known(),
                    self.items_known(),
                    depth > 0,
                    kids@ == under,
                    under == items_under(self.ps@, self.cls(), Some(pid), self.ps@.len() as int),
                    children@.len() == i,
                    forall|j: int|
                        0 <= j < i ==> (#[trigger] children@[j]).model() == item_tree(
                            self.ps@,
                            self.cls(),
                            under[j],
                            (depth - 1) as nat,
                        ),
                decreases kids.len() - i,
            {
                proof {
                    items_under_are_items(
                        self.ps@,
                        self.cls(),
                        Some(pid),
                        self.ps@.len() as int,
                        i as int,
                    );
                }
                children.push(self.build_item(kids[i], depth - 1));
                i += 1;
            }
        }
        let ghost nested = runtime::models(children@);
        let c: &Class = self.class(pid).unwrap();
        if c.category == Category::Mcp {
            if let Some(browsers) = self.rollup_browsers(pid) {
                children.push(browsers);
                assert(runtime::models(children@) =~= nested.push(browsers.model()));
            }
        }
        let r: RuntimeItem = RuntimeItem {
            category: c.category,
            display_name: c.display_name.clone(),
            root_pid: Some(pid),
            process_ids: vec![pid],
            memory_bytes: self.index.memory(self.ps, pid),
            state: if c.category == Category::Database {
                RuntimeState::Persistent
            } else {
                RuntimeState::Active
            },
            suspicion: None,
            ports: Vec::new(),
            project: None,
            children,
        };
        proof {
            runtime::model_children(r);
            let want = item_tree(self.ps@, self.cls(), pid, depth as nat);
            let expect = if depth == 0 {
                Seq::<ItemModel>::empty()
            } else {
                Seq::new(
                    under.len(),
                    |i: int| item_tree(self.ps@, self.cls(), under[i], (depth - 1) as nat),
                )
            };
            assert(nested =~= expect);
            assert(r.model().pids =~= want.pids);
            assert(r.model().ports =~= want.ports);
            assert(r.model().children =~= want.children);
        }
        r
    }
}

proof fn items_under_are_items(
    ps: Seq<ProcessInfo>,
    cls: Seq<Option<ClassModel>>,
    par: Option<u32>,
    n: int,
    i: int,
)
    requires
        0 <= n <= ps.len(),
        0 <= i < items_under(ps, cls, par, n).len(),
    ensures
        is_item(ps, cls, items_under(ps, cls, par, n)[i]),
        item_above(ps, cls, items_under(ps, cls, par, n)[i]) == par,
    decreases n,
{
    let rest = items_under(ps, cls, par, n - 1);
    let pid = ps[n - 1].pid;
    if is_item(ps, cls, pid) && item_above(ps, cls, pid) == par {
        let k = order::slot(rest, pid, pids::memory_key(ps));
        order::slot_range(rest, pid, pids::memory_key(ps));
        if i < k {
            items_under_are_items(ps, cls, par, n - 1, i);
        } else if i > k {
            items_under_are_items(ps, cls, par, n - 1, i - 1);
        }
    } else {
        items_under_are_items(ps, cls, par, n - 1, i);
    }
}

pub fn sat_add(a: u64, b: u64) -> (r: u64)
    ensures
        r == sat(a, b),
{
    if b > u64::MAX - a {
        u64::MAX
    } else {
        a + b
    }
}

/// Group a process snapshot into logical items. Unclassified OS processes
/// are dropped. Browser helpers collapse to `Chromium ×N` under their MCP.
pub fn group(processes: &Vec<ProcessInfo>, signatures: &Vec<SignatureConfig>) -> (r: Vec<
    RuntimeItem,
>)
    ensures
        runtime::models(r@) == grouped(processes@, signatures@),
{
    let table: Signatures = Signatures::new();
    let mut found: Vec<Option<Class>> = Vec::new();
    let mut i: usize = 0;
    while i < processes.len()
        invariant
            i <= processes.len(),
            table.wf(),
            found@.len() == i,
            forall|j: int|
                0 <= j < i ==> rules::class_view(#[trigger] found@[j]) == rules::classified(
                    processes@[j],
                    signatures@,
                ),
        decreases processes.len() - i,
    {
        found.push(table.classify(&processes[i], signatures));
        i += 1;
    }
    let ghost cls = classes(processes@, signatures@);
    assert(class_models(found@) =~= cls);
    let mut scan: Scan = Scan {
        ps: processes,
        index: PidIndex::new(processes),
        classes: found,
        browser: Vec::new(),
        item: Vec::new(),
    };
    let mut browser: Vec<bool> = Vec::new();
    let mut i: usize = 0;
    while i < processes.len()
        invariant
            i <= processes.len(),
            scan.wf(),
            scan.cls() == cls,
            scan.ps@ == processes@,
            browser@.len() == i,
            forall|j: int|
                0 <= j < i ==> #[trigger] browser@[j] == dev_browser(
                    processes@,
                    cls,
                    processes@[j].pid,
                ),
        decreases processes.len() - i,
    {
        browser.push(scan.is_dev_browser(processes[i].pid));
        i += 1;
    }
    scan.browser = browser;
    let mut item: Vec<bool> = Vec::new();
    let mut i: usize = 0;
    while i < processes.len()
        invariant
            i <= processes.len(),
            scan.wf(),
            scan.browsers_known(),
            scan.cls() == cls,
            scan.ps@ == processes@,
            item@.len() == i,
            forall|j: int|
                0 <= j < i ==> #[trigger] item@[j] == is_item(
                    processes@,
                    cls,
                    processes@[j].pid,
                ),
        decreases processes.len() - i,
    {
        item.push(scan.makes_item(processes[i].pid));
        i += 1;
    }
    scan.item = item;
    let roots: Vec<u32> = scan.items_below(None);
    let mut out: Vec<RuntimeItem> = Vec::new();
    let mut i: usize = 0;
    while i < roots.len()
        invariant
            i <= roots.len(),
            scan.wf(),
            scan.browsers_known(),
            scan.items_known(),
            scan.cls() == cls,
            scan.ps@ == processes@,
            roots@ == items_under(processes@, cls, None, processes@.len() as int),
            out@.len() == i,
            forall|j: int|
                0 <= j < i ==> (#[trigger] out@[j]).model() == collapsed(
                    item_tree(processes@, cls, roots@[j], processes@.len()),
                ),
        decreases roots.len() - i,
    {
        proof {
            items_under_are_items(processes@, cls, None, processes@.len() as int, i as int);
        }
        let tree: RuntimeItem = scan.build_item(roots[i], processes.len());
        out.push(collapse_same(tree));
        i += 1;
    }
    assert(runtime::models(out@) =~= grouped(processes@, signatures@));
    out
}

/// Fold helper processes that share the parent's category and name
/// (`omp` workers, `php-fpm` children) into the parent item.
#[verifier::loop_isolation(false)]
fn collapse_same(item: RuntimeItem) -> (r: RuntimeItem)
    ensures
        r.model() == collapsed(item.model()),
    decreases item,
{
    let ghost m = item.model();
    let ghost whole = item;
    let ghost original = item.children@;
    proof {
        runtime::model_children(item);
    }
    let ghost cs = collapsed_children(m);
    let category: Category = item.category;
    let display_name: String = item.display_name;
    let mut process_ids: Vec<u32> = item.process_ids;
    let mut memory_bytes: u64 = item.memory_bytes;
    let mut rest: Vec<RuntimeItem> = item.children;
    let mut kept: Vec<RuntimeItem> = Vec::new();
    let mut absorbed: Vec<RuntimeItem> = Vec::new();
    let ghost mut n: int = 0;
    assert(cs.take(0) =~= Seq::<ItemModel>::empty());
    assert(process_ids@ =~= m.pids + helper_pids(m, cs.take(0)));
    assert(runtime::models(kept@) =~= staying(m, cs.take(0)));
    assert(runtime::models(absorbed@) =~= moving_up(m, cs.take(0)));
    assert(rest@ =~= original.skip(0));
    while rest.len() > 0
        invariant
            0 <= n <= original.len(),
            original == whole.children@,
            m == whole.model(),
            m.children == runtime::models(original),
            cs.len() == m.children.len(),
            forall|i: int| 0 <= i < cs.len() ==> #[trigger] cs[i] == collapsed(m.children[i]),
            rest@ == original.skip(n),
            category == m.category,
            display_name@ == m.name,
            process_ids@ == m.pids + helper_pids(m, cs.take(n)),
            memory_bytes == helper_memory(m, cs.take(n)),
            runtime::models(kept@) == staying(m, cs.take(n)),
            runtime::models(absorbed@) == moving_up(m, cs.take(n)),
        decreases rest.len(),
    {
        let first: RuntimeItem = rest.remove(0);
        assert(first == original[n]);
        assert(decreases_to!(whole => original[n]));
        assert(m.children[n] == first.model());
        let child: RuntimeItem = collapse_same(first);
        proof {
            assert(child.model() == cs[n]);
            assert(cs.take(n + 1).drop_last() =~= cs.take(n));
            assert(cs.take(n + 1).last() == cs[n]);
            runtime::model_children(child);
        }
        let ghost kept_before = runtime::models(kept@);
        let ghost absorbed_before = runtime::models(absorbed@);
        if child.category == category && same(child.display_name.as_str(), display_name.as_str()) {
            let mut more: Vec<u32> = child.process_ids;
            process_ids.append(&mut more);
            assert(process_ids@ =~= m.pids + helper_pids(m, cs.take(n + 1)));
            memory_bytes = sat_add(memory_bytes, child.memory_bytes);
            let mut below: Vec<RuntimeItem> = child.children;
            let ghost below_models = runtime::models(below@);
            absorbed.append(&mut below);
            assert(runtime::models(absorbed@) =~= absorbed_before + below_models);
        } else {
            kept.push(child);
            assert(runtime::models(kept@) =~= kept_before.push(cs[n]));
        }
        proof {
            n = n + 1;
            assert(rest@ =~= original.skip(n));
        }
    }
    assert(cs.take(n) =~= cs);
    let ghost a = runtime::models(kept@);
    let ghost b = runtime::models(absorbed@);
    kept.append(&mut absorbed);
    assert(runtime::models(kept@) =~= a + b);
    let r: RuntimeItem = RuntimeItem {
        category,
        display_name,
        root_pid: item.root_pid,
        process_ids,
        memory_bytes,
        state: item.state,
        suspicion: item.suspicion,
        ports: item.ports,
        project: item.project,
        children: kept,
    };
    proof {
        runtime::model_children(r);
        assert(r.model() =~= folded(m, cs));
    }
    r
}

// ---------------------------------------------------------------------------
// Laws
// ---------------------------------------------------------------------------

/// Every process in an item, or below it, belongs to the development runtime.
pub open spec fn shows_only_runtime(
    ps: Seq<ProcessInfo>,
    cls: Seq<Option<ClassModel>>,
    m: ItemModel,
) -> bool
    decreases m,
{
    &&& forall|i: int| 0 <= i < m.pids.len() ==> counts(ps, cls, #[trigger] m.pids[i])
    &&& forall|i: int|
        0 <= i < m.children.len() ==> shows_only_runtime(ps, cls, #[trigger] m.children[i])
}

/// What stands under an item, or at the top, is an item.
pub proof fn items_are_items(
    ps: Seq<ProcessInfo>,
    cls: Seq<Option<ClassModel>>,
    par: Option<u32>,
    n: int,
)
    ensures
        forall|k: int|
            0 <= k < items_under(ps, cls, par, n).len() ==> is_item(
                ps,
                cls,
                #[trigger] items_under(ps, cls, par, n)[k],
            ),
    decreases n,
{
    if 0 < n <= ps.len() {
        items_are_items(ps, cls, par, n - 1);
        let rest = items_under(ps, cls, par, n - 1);
        let all = items_under(ps, cls, par, n);
        let pid = ps[n - 1].pid;
        if is_item(ps, cls, pid) && item_above(ps, cls, pid) == par {
            let at = order::slot(rest, pid, pids::memory_key(ps));
            order::slot_range(rest, pid, pids::memory_key(ps));
            assert forall|k: int| 0 <= k < all.len() implies is_item(
                ps,
                cls,
                #[trigger] all[k],
            ) by {
                if k < at {
                    assert(all[k] == rest[k]);
                } else if k > at {
                    assert(all[k] == rest[k - 1]);
                }
            }
        }
    }
}

/// Only automated browsers are rolled up.
pub proof fn browsers_are_automated(
    ps: Seq<ProcessInfo>,
    cls: Seq<Option<ClassModel>>,
    top: u32,
    n: int,
)
    ensures
        order::increasing(browsers_below(ps, cls, top, n)),
        forall|x: u32| #[trigger]
            browsers_below(ps, cls, top, n).contains(x) ==> dev_browser(ps, cls, x),
    decreases n,
{
    if 0 < n <= ps.len() {
        browsers_are_automated(ps, cls, top, n - 1);
        order::set_insert_facts(browsers_below(ps, cls, top, n - 1), ps[n - 1].pid);
    }
}

proof fn trees_show_only_runtime(
    ps: Seq<ProcessInfo>,
    cls: Seq<Option<ClassModel>>,
    pid: u32,
    depth: nat,
)
    requires
        is_item(ps, cls, pid),
    ensures
        shows_only_runtime(ps, cls, item_tree(ps, cls, pid, depth)),
    decreases depth,
{
    let m = item_tree(ps, cls, pid, depth);
    let under = items_under(ps, cls, Some(pid), ps.len() as int);
    items_are_items(ps, cls, Some(pid), ps.len() as int);
    browsers_are_automated(ps, cls, pid, ps.len() as int);
    let nested = if depth == 0 {
        Seq::empty()
    } else {
        Seq::new(under.len(), |i: int| item_tree(ps, cls, under[i], (depth - 1) as nat))
    };
    assert forall|i: int| 0 <= i < m.children.len() implies shows_only_runtime(
        ps,
        cls,
        #[trigger] m.children[i],
    ) by {
        if i < nested.len() {
            assert(m.children[i] == nested[i]);
            trees_show_only_runtime(ps, cls, under[i], (depth - 1) as nat);
        } else {
            let list = browsers_below(ps, cls, pid, ps.len() as int);
            let b = rollup(ps, cls, pid).unwrap();
            assert(m.children[i] == b);
            assert forall|k: int| 0 <= k < b.pids.len() implies counts(
                ps,
                cls,
                #[trigger] b.pids[k],
            ) by {
                assert(list.contains(list[k]));
            }
        }
    }
}

proof fn folding_shows_only_runtime(
    ps: Seq<ProcessInfo>,
    cls: Seq<Option<ClassModel>>,
    m: ItemModel,
    cs: Seq<ItemModel>,
)
    requires
        forall|i: int| 0 <= i < cs.len() ==> shows_only_runtime(ps, cls, #[trigger] cs[i]),
    ensures
        forall|i: int|
            0 <= i < helper_pids(m, cs).len() ==> counts(
                ps,
                cls,
                #[trigger] helper_pids(m, cs)[i],
            ),
        forall|i: int|
            0 <= i < staying(m, cs).len() ==> shows_only_runtime(
                ps,
                cls,
                #[trigger] staying(m, cs)[i],
            ),
        forall|i: int|
            0 <= i < moving_up(m, cs).len() ==> shows_only_runtime(
                ps,
                cls,
                #[trigger] moving_up(m, cs)[i],
            ),
    decreases cs.len(),
{
    if cs.len() > 0 {
        let front = cs.drop_last();
        assert forall|i: int| 0 <= i < front.len() implies shows_only_runtime(
            ps,
            cls,
            #[trigger] front[i],
        ) by {
            assert(front[i] == cs[i]);
        }
        folding_shows_only_runtime(ps, cls, m, front);
        let last = cs.last();
        assert(last == cs[cs.len() - 1]);
        let hp = helper_pids(m, front);
        let st = staying(m, front);
        let mv = moving_up(m, front);
        assert forall|i: int| 0 <= i < helper_pids(m, cs).len() implies counts(
            ps,
            cls,
            #[trigger] helper_pids(m, cs)[i],
        ) by {
            if i < hp.len() {
                assert(helper_pids(m, cs)[i] == hp[i]);
            } else {
                assert(helper_pids(m, cs)[i] == last.pids[i - hp.len()]);
            }
        }
        assert forall|i: int| 0 <= i < staying(m, cs).len() implies shows_only_runtime(
            ps,
            cls,
            #[trigger] staying(m, cs)[i],
        ) by {
            if i < st.len() {
                assert(staying(m, cs)[i] == st[i]);
            }
        }
        assert forall|i: int| 0 <= i < moving_up(m, cs).len() implies shows_only_runtime(
            ps,
            cls,
            #[trigger] moving_up(m, cs)[i],
        ) by {
            if i < mv.len() {
                assert(moving_up(m, cs)[i] == mv[i]);
            } else {
                assert(moving_up(m, cs)[i] == last.children[i - mv.len()]);
            }
        }
    }
}

proof fn collapsing_shows_only_runtime(
    ps: Seq<ProcessInfo>,
    cls: Seq<Option<ClassModel>>,
    m: ItemModel,
)
    requires
        shows_only_runtime(ps, cls, m),
    ensures
        shows_only_runtime(ps, cls, collapsed(m)),
    decreases m,
{
    let cs = collapsed_children(m);
    assert forall|i: int| 0 <= i < cs.len() implies shows_only_runtime(
        ps,
        cls,
        #[trigger] cs[i],
    ) by {
        assert(cs[i] == collapsed(m.children[i]));
        collapsing_shows_only_runtime(ps, cls, m.children[i]);
    }
    folding_shows_only_runtime(ps, cls, m, cs);
    let r = collapsed(m);
    let n = m.pids.len();
    assert forall|i: int| 0 <= i < r.pids.len() implies counts(ps, cls, #[trigger] r.pids[i]) by {
        if i < n {
            assert(r.pids[i] == m.pids[i]);
        } else {
            assert(r.pids[i] == helper_pids(m, cs)[i - n]);
        }
    }
    let k = staying(m, cs).len();
    assert forall|i: int| 0 <= i < r.children.len() implies shows_only_runtime(
        ps,
        cls,
        #[trigger] r.children[i],
    ) by {
        if i < k {
            assert(r.children[i] == staying(m, cs)[i]);
        } else {
            assert(r.children[i] == moving_up(m, cs)[i - k]);
        }
    }
}

/// Daemons of the system and desktop browsers stay hidden: whatever an item
/// holds, at any depth, is classified, and a browser only where it is an
/// automated one.
pub proof fn only_the_runtime_is_shown(ps: Seq<ProcessInfo>, sigs: Seq<SignatureConfig>, i: int)
    requires
        0 <= i < grouped(ps, sigs).len(),
    ensures
        shows_only_runtime(ps, classes(ps, sigs), grouped(ps, sigs)[i]),
{
    let cls = classes(ps, sigs);
    let tops = items_under(ps, cls, None, ps.len() as int);
    items_are_items(ps, cls, None, ps.len() as int);
    trees_show_only_runtime(ps, cls, tops[i], ps.len());
    collapsing_shows_only_runtime(ps, cls, item_tree(ps, cls, tops[i], ps.len()));
}

} // verus!

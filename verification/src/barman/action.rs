//! Control actions on stable ids.
//!
//! An action is resolved against a fresh snapshot. What comes out is either
//! an outcome, or the one thing that the program has to do and report back.

use crate::actions::docker::{remove_blocking, Removal};
use crate::actions::process;
use crate::actions::process::{identities_for, Identity, KillReport, Signal};
use crate::barman::document;
use crate::barman::document::{item_id, ProjectDoc, ProjectRow};
use crate::barman::ids;
use crate::barman::ids::container_id;
use crate::barman::snapshot;
use crate::barman::snapshot::projects_of;
use crate::classify::ownership;
use crate::classify::pids::PidIndex;
use crate::model::docker::{DockerKind, DockerResource};
use crate::model::process::ProcessInfo;
use crate::model::runtime;
use crate::model::runtime::{ItemModel, RuntimeItem};
use crate::model::snapshot::RuntimeSnapshot;
use crate::sorting;
use crate::sorting::Keyed;
use crate::text;
use crate::text::{copy_list, dec_of, quoted, same, text_starts};
use vstd::prelude::*;

verus! {

// ---------------------------------------------------------------------------
// Actions and outcomes
// ---------------------------------------------------------------------------

#[derive(Debug, Clone, Copy, PartialEq, Eq, Structural)]
pub enum BarmanAction {
    Start,
    Stop,
    Restart,
    Kill,
    OpenUrl,
}

impl BarmanAction {
    pub open spec fn name(self) -> Seq<char> {
        match self {
            BarmanAction::Start => "start"@,
            BarmanAction::Stop => "stop"@,
            BarmanAction::Restart => "restart"@,
            BarmanAction::Kill => "kill"@,
            BarmanAction::OpenUrl => "open-url"@,
        }
    }

    /// The action of a name; none for any other text.
    pub fn parse(s: &str) -> (r: Option<Self>)
        ensures
            forall|a: BarmanAction| #[trigger] a.name() == s@ <==> r == Some(a),
            r is None <==> forall|a: BarmanAction| #[trigger] a.name() != s@,
    {
        proof {
            reveal_strlit("start");
            reveal_strlit("stop");
            reveal_strlit("restart");
            reveal_strlit("kill");
            reveal_strlit("open-url");
            assert("stop"@[0] != "kill"@[0]);
            assert("stop"@.len() != "start"@.len());
        }
        let r: Option<Self> = if same(s, "start") {
            Some(BarmanAction::Start)
        } else if same(s, "stop") {
            Some(BarmanAction::Stop)
        } else if same(s, "restart") {
            Some(BarmanAction::Restart)
        } else if same(s, "kill") {
            Some(BarmanAction::Kill)
        } else if same(s, "open-url") {
            Some(BarmanAction::OpenUrl)
        } else {
            None
        };
        assert(r matches Some(a) ==> a.name() == s@);
        assert(r is None ==> forall|a: BarmanAction| #[trigger] a.name() != s@);
        r
    }

    pub fn as_str(self) -> (r: &'static str)
        ensures
            r@ == self.name(),
    {
        match self {
            BarmanAction::Start => "start",
            BarmanAction::Stop => "stop",
            BarmanAction::Restart => "restart",
            BarmanAction::Kill => "kill",
            BarmanAction::OpenUrl => "open-url",
        }
    }
}

#[derive(Debug, Clone, PartialEq, Eq)]
pub struct ActionOutcome {
    pub ok: bool,
    pub target: String,
    pub action: Option<String>,
    pub detail: Option<String>,
    pub url: Option<String>,
    pub error: Option<String>,
    /// True when the id no longer resolves: the client should refresh.
    pub stale: bool,
}

/// An outcome as a model.
#[verifier::ext_equal]
pub struct OutcomeModel {
    pub ok: bool,
    pub target: Seq<char>,
    pub action: Option<Seq<char>>,
    pub detail: Option<Seq<char>>,
    pub url: Option<Seq<char>>,
    pub error: Option<Seq<char>>,
    pub stale: bool,
}

impl View for ActionOutcome {
    type V = OutcomeModel;

    open spec fn view(&self) -> OutcomeModel {
        OutcomeModel {
            ok: self.ok,
            target: self.target@,
            action: text::text_of(self.action),
            detail: text::text_of(self.detail),
            url: text::text_of(self.url),
            error: text::text_of(self.error),
            stale: self.stale,
        }
    }
}

pub open spec fn succeeded(target: Seq<char>, action: Seq<char>, detail: Seq<char>) -> OutcomeModel {
    OutcomeModel {
        ok: true,
        target,
        action: Some(action),
        detail: Some(detail),
        url: None,
        error: None,
        stale: false,
    }
}

pub open spec fn opened(target: Seq<char>, url: Seq<char>) -> OutcomeModel {
    OutcomeModel {
        ok: true,
        target,
        action: Some("open-url"@),
        detail: None,
        url: Some(url),
        error: None,
        stale: false,
    }
}

pub open spec fn outdated(target: Seq<char>, action: Seq<char>) -> OutcomeModel {
    OutcomeModel {
        ok: false,
        target,
        action: Some(action),
        detail: None,
        url: None,
        error: Some("stale target: re-refresh"@),
        stale: true,
    }
}

pub open spec fn refused(target: Seq<char>, action: Seq<char>, error: Seq<char>) -> OutcomeModel {
    OutcomeModel {
        ok: false,
        target,
        action: Some(action),
        detail: None,
        url: None,
        error: Some(error),
        stale: false,
    }
}

impl ActionOutcome {
    pub fn ok(target: &str, action: BarmanAction, detail: String) -> (r: Self)
        ensures
            r@ == succeeded(target@, action.name(), detail@),
    {
        ActionOutcome {
            ok: true,
            target: target.to_owned(),
            action: Some(action.as_str().to_owned()),
            detail: Some(detail),
            url: None,
            error: None,
            stale: false,
        }
    }

    pub fn ok_url(target: &str, url: String) -> (r: Self)
        ensures
            r@ == opened(target@, url@),
    {
        ActionOutcome {
            ok: true,
            target: target.to_owned(),
            action: Some("open-url".to_owned()),
            detail: None,
            url: Some(url),
            error: None,
            stale: false,
        }
    }

    pub fn stale(target: &str, action: BarmanAction) -> (r: Self)
        ensures
            r@ == outdated(target@, action.name()),
    {
        ActionOutcome {
            ok: false,
            target: target.to_owned(),
            action: Some(action.as_str().to_owned()),
            detail: None,
            url: None,
            error: Some("stale target: re-refresh".to_owned()),
            stale: true,
        }
    }

    pub fn failed(target: &str, action: &str, error: String) -> (r: Self)
        ensures
            r@ == refused(target@, action@, error@),
    {
        ActionOutcome {
            ok: false,
            target: target.to_owned(),
            action: Some(action.to_owned()),
            detail: None,
            url: None,
            error: Some(error),
            stale: false,
        }
    }

    /// The exit status that reports an outcome: a stale target is told apart
    /// from a failure.
    pub fn exit_status(&self) -> (r: i32)
        ensures
            r == if self.ok {
                0int
            } else if self.stale {
                2
            } else {
                1
            },
    {
        if self.ok {
            0
        } else if self.stale {
            2
        } else {
            1
        }
    }
}

/// The outcome for a name that is no action.
pub fn unknown_action(target: &str, action: &str) -> (r: ActionOutcome)
    ensures
        r@ == refused(
            target@,
            action@,
            "unknown action "@ + text::quoted_text(action@)
                + ": want start|stop|restart|kill|open-url"@,
        ),
{
    ActionOutcome::failed(
        target,
        action,
        "unknown action ".to_owned().concat(quoted(action).as_str()).concat(
            ": want start|stop|restart|kill|open-url",
        ),
    )
}

// ---------------------------------------------------------------------------
// What is left to do
// ---------------------------------------------------------------------------

/// One call of the Docker engine.
#[derive(Debug, Clone)]
pub enum DockerCall {
    Stop(String),
    Start(String),
    Restart(String),
    Remove(Removal),
}

/// What an action amounts to.
#[derive(Debug, Clone)]
pub enum Act {
    /// Nothing is left to do.
    Done(ActionOutcome),
    /// Signal these processes, each after checking its identity again.
    Signal { ids: Vec<Identity>, signal: Signal },
    /// Signal the processes of several members. Some members had none.
    SignalGroup { members: Vec<Vec<Identity>>, missing: usize, how: Signal },
    /// Call the engine; `detail` reports its success.
    Docker { call: DockerCall, detail: String },
}

pub enum RemovalModel {
    Container(Seq<char>),
    Image(Seq<char>),
    Volume(Seq<char>),
    BuildCache,
}

pub enum CallModel {
    Stop(Seq<char>),
    Start(Seq<char>),
    Restart(Seq<char>),
    Remove(RemovalModel),
}

#[verifier::ext_equal]
pub enum ActModel {
    Done(OutcomeModel),
    Signal { ids: Seq<Identity>, signal: Signal },
    SignalGroup { members: Seq<Seq<Identity>>, missing: nat, how: Signal },
    Docker { call: CallModel, detail: Seq<char> },
}

pub open spec fn removal_model(r: Removal) -> RemovalModel {
    match r {
        Removal::Container(id) => RemovalModel::Container(id@),
        Removal::Image(id) => RemovalModel::Image(id@),
        Removal::Volume(id) => RemovalModel::Volume(id@),
        Removal::BuildCache => RemovalModel::BuildCache,
    }
}

pub open spec fn call_model(c: DockerCall) -> CallModel {
    match c {
        DockerCall::Stop(id) => CallModel::Stop(id@),
        DockerCall::Start(id) => CallModel::Start(id@),
        DockerCall::Restart(id) => CallModel::Restart(id@),
        DockerCall::Remove(r) => CallModel::Remove(removal_model(r)),
    }
}

pub open spec fn lists(v: Seq<Vec<Identity>>) -> Seq<Seq<Identity>> {
    Seq::new(v.len(), |i: int| v[i]@)
}

impl View for Act {
    type V = ActModel;

    open spec fn view(&self) -> ActModel {
        match *self {
            Act::Done(o) => ActModel::Done(o@),
            Act::Signal { ids, signal } => ActModel::Signal { ids: ids@, signal },
            Act::SignalGroup { members, missing, how } => ActModel::SignalGroup {
                members: lists(members@),
                missing: missing as nat,
                how,
            },
            Act::Docker { call, detail } => ActModel::Docker {
                call: call_model(call),
                detail: detail@,
            },
        }
    }
}

// ---------------------------------------------------------------------------
// Finding a target
// ---------------------------------------------------------------------------

/// An item and all below it, the last children first.
pub open spec fn backwards_in(m: ItemModel) -> Seq<ItemModel>
    decreases m, 1nat, 0nat,
{
    seq![m] + backwards_below(m, m.children.len())
}

pub open spec fn backwards_below(m: ItemModel, n: nat) -> Seq<ItemModel>
    decreases m, 0nat, n,
{
    if n == 0 || n > m.children.len() {
        Seq::empty()
    } else {
        backwards_in(m.children[n - 1]) + backwards_below(m, (n - 1) as nat)
    }
}

pub open spec fn backwards_all(ms: Seq<ItemModel>) -> Seq<ItemModel>
    decreases ms.len(),
{
    if ms.len() == 0 {
        Seq::empty()
    } else {
        backwards_in(ms.last()) + backwards_all(ms.drop_last())
    }
}

/// The first item with an id.
pub open spec fn first_with(ps: Seq<ProcessInfo>, ms: Seq<ItemModel>, id: Seq<char>) -> Option<
    ItemModel,
>
    decreases ms.len(),
{
    if ms.len() == 0 {
        None
    } else if document::item_key(ps, ms[0]) == id {
        Some(ms[0])
    } else {
        first_with(ps, ms.skip(1), id)
    }
}

proof fn first_with_split(ps: Seq<ProcessInfo>, a: Seq<ItemModel>, b: Seq<ItemModel>, id: Seq<char>)
    ensures
        first_with(ps, a + b, id) == match first_with(ps, a, id) {
            Some(m) => Some(m),
            None => first_with(ps, b, id),
        },
    decreases a.len(),
{
    if a.len() == 0 {
        assert(a + b =~= b);
    } else {
        first_with_split(ps, a.skip(1), b, id);
        assert((a + b).skip(1) =~= a.skip(1) + b);
    }
}

/// The item that an id stands for; of several, the one found last in the
/// tree.
pub open spec fn resolved(ps: Seq<ProcessInfo>, items: Seq<ItemModel>, id: Seq<char>) -> Option<
    ItemModel,
> {
    first_with(ps, backwards_all(items), id)
}

fn find_in<'a>(
    item: &'a RuntimeItem,
    ps: &Vec<ProcessInfo>,
    index: &PidIndex,
    target: &str,
) -> (r: Option<&'a RuntimeItem>)
    requires
        index.wf(ps@),
    ensures
        match r {
            Some(found) => first_with(ps@, backwards_in(item.model()), target@) == Some(
                found.model(),
            ),
            None => first_with(ps@, backwards_in(item.model()), target@) is None,
        },
    decreases item,
{
    let ghost m = item.model();
    proof {
        runtime::model_children(*item);
        first_with_split(ps@, seq![m], backwards_below(m, m.children.len()), target@);
        reveal_with_fuel(first_with, 2);
        assert(seq![m].skip(1) =~= Seq::<ItemModel>::empty());
    }
    if same(item_id(item, ps, index).as_str(), target) {
        return Some(item);
    }
    let mut n: usize = item.children.len();
    while n > 0
        invariant
            n <= item.children.len(),
            index.wf(ps@),
            m == item.model(),
            m.children == runtime::models(item.children@),
            first_with(ps@, backwards_in(m), target@) == first_with(
                ps@,
                backwards_below(m, n as nat),
                target@,
            ),
        decreases n,
    {
        let ghost c = m.children[n - 1];
        assert(c == item.children@[n - 1].model());
        proof {
            first_with_split(
                ps@,
                backwards_in(c),
                backwards_below(m, (n - 1) as nat),
                target@,
            );
        }
        n -= 1;
        assert(decreases_to!(item => item.children@[n as int]));
        match find_in(&item.children[n], ps, index, target) {
            Some(found) => {
                return Some(found);
            },
            None => {},
        }
    }
    None
}

fn find_item_by_id<'a>(snap: &'a RuntimeSnapshot, target: &str) -> (r: Option<&'a RuntimeItem>)
    ensures
        match r {
            Some(found) => resolved(
                snap.processes@,
                runtime::models(snap.logical_items@),
                target@,
            ) == Some(found.model()),
            None => resolved(
                snap.processes@,
                runtime::models(snap.logical_items@),
                target@,
            ) is None,
        },
{
    let ps: &Vec<ProcessInfo> = &snap.processes;
    let items: &'a Vec<RuntimeItem> = &snap.logical_items;
    let index: PidIndex = PidIndex::new(ps);
    let ghost ms = runtime::models(items@);
    let mut n: usize = items.len();
    assert(ms.take(ms.len() as int) =~= ms);
    while n > 0
        invariant
            n <= items.len(),
            index.wf(ps@),
            ms == runtime::models(items@),
            first_with(ps@, backwards_all(ms), target@) == first_with(
                ps@,
                backwards_all(ms.take(n as int)),
                target@,
            ),
            ps@ == snap.processes@,
            items@ == snap.logical_items@,
        decreases n,
    {
        let ghost c = ms[n - 1];
        assert(ms.take(n as int).last() == c);
        assert(ms.take(n as int).drop_last() =~= ms.take(n - 1));
        proof {
            first_with_split(ps@, backwards_in(c), backwards_all(ms.take(n - 1)), target@);
        }
        n -= 1;
        match find_in(&items[n], ps, &index, target) {
            Some(found) => {
                return Some(found);
            },
            None => {},
        }
    }
    None
}

/// The first Docker resource with an id.
pub open spec fn first_docker(rs: Seq<DockerResource>, id: Seq<char>) -> Option<DockerResource>
    decreases rs.len(),
{
    if rs.len() == 0 {
        None
    } else if ids::container_key(rs[0].id@) == id {
        Some(rs[0])
    } else {
        first_docker(rs.skip(1), id)
    }
}

pub fn find_docker<'a>(snap: &'a RuntimeSnapshot, target: &str) -> (r: Option<&'a DockerResource>)
    ensures
        match r {
            Some(found) => first_docker(snap.docker.resources@, target@) == Some(*found),
            None => first_docker(snap.docker.resources@, target@) is None,
        },
{
    let rs: &'a Vec<DockerResource> = &snap.docker.resources;
    let mut i: usize = 0;
    assert(rs@.skip(0) =~= rs@);
    while i < rs.len()
        invariant
            i <= rs.len(),
            rs@ == snap.docker.resources@,
            first_docker(rs@, target@) == first_docker(rs@.skip(i as int), target@),
        decreases rs.len() - i,
    {
        assert(rs@.skip(i as int)[0] == rs@[i as int]);
        assert(rs@.skip(i as int).skip(1) =~= rs@.skip(i + 1));
        if same(container_id(rs[i].id.as_str()).as_str(), target) {
            return Some(&rs[i]);
        }
        i += 1;
    }
    None
}

// ---------------------------------------------------------------------------
// Deciding
// ---------------------------------------------------------------------------

/// The processes of an item that can be signalled, children first.
pub open spec fn signalled(ps: Seq<ProcessInfo>, m: ItemModel) -> Seq<Identity> {
    process::identified(ps, process::deepest_first(ps, process::pids_in(m)))
}

pub open spec fn signal_of(action: BarmanAction) -> Signal {
    if action == BarmanAction::Stop {
        Signal::Term
    } else {
        Signal::Kill
    }
}

/// What an action on a process item amounts to.
pub open spec fn item_act(
    ps: Seq<ProcessInfo>,
    found: Option<ItemModel>,
    target: Seq<char>,
    action: BarmanAction,
    demo: bool,
) -> ActModel {
    match found {
        None => ActModel::Done(outdated(target, action.name())),
        Some(m) => match action {
            BarmanAction::OpenUrl => match document::item_url(m) {
                Some(url) => ActModel::Done(opened(target, url)),
                None => ActModel::Done(
                    refused(target, action.name(), "no url for this resource"@),
                ),
            },
            BarmanAction::Start | BarmanAction::Restart => ActModel::Done(
                refused(target, action.name(), "restart not supported for this resource"@),
            ),
            BarmanAction::Stop | BarmanAction::Kill => if demo {
                ActModel::Done(succeeded(target, action.name(), "demo: no-op"@))
            } else if signalled(ps, m).len() == 0 {
                ActModel::Done(outdated(target, action.name()))
            } else {
                ActModel::Signal { ids: signalled(ps, m), signal: signal_of(action) }
            },
        },
    }
}

fn act_resource(
    snap: &RuntimeSnapshot,
    target: &str,
    action: BarmanAction,
    demo_mode: bool,
) -> (r: Act)
    ensures
        r@ == item_act(
            snap.processes@,
            resolved(snap.processes@, runtime::models(snap.logical_items@), target@),
            target@,
            action,
            demo_mode,
        ),
{
    let item: &RuntimeItem = match find_item_by_id(snap, target) {
        Some(i) => i,
        None => {
            return Act::Done(ActionOutcome::stale(target, action));
        },
    };
    match action {
        BarmanAction::OpenUrl => if item.ports.len() > 0 {
            Act::Done(ActionOutcome::ok_url(target, item.ports[0].url()))
        } else {
            Act::Done(
                ActionOutcome::failed(
                    target,
                    action.as_str(),
                    "no url for this resource".to_owned(),
                ),
            )
        },
        BarmanAction::Start | BarmanAction::Restart => Act::Done(
            ActionOutcome::failed(
                target,
                action.as_str(),
                "restart not supported for this resource".to_owned(),
            ),
        ),
        BarmanAction::Stop | BarmanAction::Kill => {
            if demo_mode {
                return Act::Done(ActionOutcome::ok(target, action, "demo: no-op".to_owned()));
            }
            let ids: Vec<Identity> = identities_for(item, &snap.processes);
            if ids.len() == 0 {
                return Act::Done(ActionOutcome::stale(target, action));
            }
            let signal: Signal = if action == BarmanAction::Stop {
                Signal::Term
            } else {
                Signal::Kill
            };
            Act::Signal { ids, signal }
        },
    }
}

pub open spec fn removal_of(res: DockerResource) -> RemovalModel {
    match res.kind {
        DockerKind::Container => RemovalModel::Container(res.id@),
        DockerKind::DanglingImage => RemovalModel::Image(res.id@),
        DockerKind::Volume => RemovalModel::Volume(res.id@),
        DockerKind::BuildCache => RemovalModel::BuildCache,
    }
}

/// What an action on a Docker resource amounts to.
pub open spec fn docker_act(
    found: Option<DockerResource>,
    target: Seq<char>,
    action: BarmanAction,
    demo: bool,
) -> ActModel {
    match found {
        None => ActModel::Done(outdated(target, action.name())),
        Some(res) => if action == BarmanAction::OpenUrl {
            ActModel::Done(refused(target, action.name(), "no url for this resource"@))
        } else if demo {
            ActModel::Done(succeeded(target, action.name(), "demo: no-op"@))
        } else if action == BarmanAction::Kill {
            ActModel::Docker {
                call: CallModel::Remove(removal_of(res)),
                detail: "removed "@ + res.name@,
            }
        } else if res.kind != DockerKind::Container {
            ActModel::Done(
                refused(target, action.name(), "restart not supported for this resource"@),
            )
        } else if action == BarmanAction::Start {
            ActModel::Docker { call: CallModel::Start(res.id@), detail: "started"@ }
        } else if action == BarmanAction::Restart {
            ActModel::Docker { call: CallModel::Restart(res.id@), detail: "restarted"@ }
        } else if !res.is_running() {
            ActModel::Done(refused(target, action.name(), "container is not running"@))
        } else {
            ActModel::Docker { call: CallModel::Stop(res.id@), detail: "stopped"@ }
        },
    }
}

fn act_docker(
    snap: &RuntimeSnapshot,
    target: &str,
    action: BarmanAction,
    demo_mode: bool,
) -> (r: Act)
    ensures
        r@ == docker_act(
            first_docker(snap.docker.resources@, target@),
            target@,
            action,
            demo_mode,
        ),
{
    let res: &DockerResource = match find_docker(snap, target) {
        Some(r) => r,
        None => {
            return Act::Done(ActionOutcome::stale(target, action));
        },
    };
    if action == BarmanAction::OpenUrl {
        return Act::Done(
            ActionOutcome::failed(target, action.as_str(), "no url for this resource".to_owned()),
        );
    }
    if demo_mode {
        return Act::Done(ActionOutcome::ok(target, action, "demo: no-op".to_owned()));
    }
    if action == BarmanAction::Kill {
        return Act::Docker {
            call: DockerCall::Remove(remove_blocking(res)),
            detail: "removed ".to_owned().concat(res.name.as_str()),
        };
    }
    if res.kind != DockerKind::Container {
        return Act::Done(
            ActionOutcome::failed(
                target,
                action.as_str(),
                "restart not supported for this resource".to_owned(),
            ),
        );
    }
    if action == BarmanAction::Start {
        return Act::Docker {
            call: DockerCall::Start(res.id.clone()),
            detail: "started".to_owned(),
        };
    }
    if action == BarmanAction::Restart {
        return Act::Docker {
            call: DockerCall::Restart(res.id.clone()),
            detail: "restarted".to_owned(),
        };
    }
    if !res.running() {
        return Act::Done(
            ActionOutcome::failed(target, action.as_str(), "container is not running".to_owned()),
        );
    }
    Act::Docker { call: DockerCall::Stop(res.id.clone()), detail: "stopped".to_owned() }
}

/// The resources of the project with an id.
pub open spec fn project_members(projects: Seq<ProjectRow>, id: Seq<char>) -> Seq<Seq<char>>
    decreases projects.len(),
{
    if projects.len() == 0 {
        Seq::empty()
    } else if projects[0].id == id {
        projects[0].resource_ids
    } else {
        project_members(projects.skip(1), id)
    }
}

/// The processes of the members that have any, and how many have none.
pub open spec fn member_signals(
    ps: Seq<ProcessInfo>,
    items: Seq<ItemModel>,
    members: Seq<Seq<char>>,
) -> (Seq<Seq<Identity>>, nat)
    decreases members.len(),
{
    if members.len() == 0 {
        (Seq::empty(), 0)
    } else {
        let rest = member_signals(ps, items, members.drop_last());
        match resolved(ps, items, members.last()) {
            Some(m) => if signalled(ps, m).len() == 0 {
                (rest.0, rest.1 + 1)
            } else {
                (rest.0.push(signalled(ps, m)), rest.1)
            },
            None => (rest.0, rest.1 + 1),
        }
    }
}

/// What an action on a project or a session amounts to.
pub open spec fn group_act(
    ps: Seq<ProcessInfo>,
    items: Seq<ItemModel>,
    members: Seq<Seq<char>>,
    target: Seq<char>,
    action: BarmanAction,
    demo: bool,
) -> ActModel {
    if action != BarmanAction::Stop && action != BarmanAction::Kill {
        ActModel::Done(refused(target, action.name(), "restart not supported for this resource"@))
    } else if members.len() == 0 {
        ActModel::Done(outdated(target, action.name()))
    } else if demo {
        ActModel::Done(succeeded(target, action.name(), "demo: no-op"@))
    } else {
        let s = member_signals(ps, items, members);
        ActModel::SignalGroup { members: s.0, missing: s.1, how: signal_of(action) }
    }
}

fn members_of(projects: &Vec<ProjectDoc>, id: &str) -> (r: Vec<String>)
    ensures
        text::texts(r@) == project_members(sorting::all_modelled(projects@), id@),
{
    let ghost ms = sorting::all_modelled(projects@);
    let mut i: usize = 0;
    assert(ms.skip(0) =~= ms);
    while i < projects.len()
        invariant
            i <= projects.len(),
            ms == sorting::all_modelled(projects@),
            project_members(ms, id@) == project_members(ms.skip(i as int), id@),
        decreases projects.len() - i,
    {
        assert(ms.skip(i as int)[0] == projects@[i as int].modelled());
        assert(ms.skip(i as int).skip(1) =~= ms.skip(i + 1));
        if same(projects[i].id.as_str(), id) {
            return copy_list(&projects[i].resource_ids);
        }
        i += 1;
    }
    let r: Vec<String> = Vec::new();
    assert(text::texts(r@) =~= Seq::<Seq<char>>::empty());
    r
}

/// Project and session actions: a stop or a kill goes to every member,
/// identity checked again for each process.
fn act_group(
    snap: &RuntimeSnapshot,
    target: &str,
    action: BarmanAction,
    demo_mode: bool,
) -> (r: Act)
    ensures
        r@ == group_act(
            snap.processes@,
            runtime::models(snap.logical_items@),
            project_members(snapshot::projects_in(*snap), target@),
            target@,
            action,
            demo_mode,
        ),
{
    if action != BarmanAction::Stop && action != BarmanAction::Kill {
        return Act::Done(
            ActionOutcome::failed(
                target,
                action.as_str(),
                "restart not supported for this resource".to_owned(),
            ),
        );
    }
    let projects: Vec<ProjectDoc> = projects_of(snap);
    let names: Vec<String> = members_of(&projects, target);
    let ghost all = text::texts(names@);
    if names.len() == 0 {
        return Act::Done(ActionOutcome::stale(target, action));
    }
    if demo_mode {
        return Act::Done(ActionOutcome::ok(target, action, "demo: no-op".to_owned()));
    }
    let ghost items = runtime::models(snap.logical_items@);
    let mut members: Vec<Vec<Identity>> = Vec::new();
    let mut missing: usize = 0;
    let mut i: usize = 0;
    assert(all.take(0) =~= Seq::<Seq<char>>::empty());
    assert(lists(members@) =~= Seq::<Seq<Identity>>::empty());
    while i < names.len()
        invariant
            i <= names.len(),
            missing <= i,
            all == text::texts(names@),
            items == runtime::models(snap.logical_items@),
            (lists(members@), missing as nat) == member_signals(
                snap.processes@,
                items,
                all.take(i as int),
            ),
        decreases names.len() - i,
    {
        assert(all.take(i + 1).drop_last() =~= all.take(i as int));
        assert(all.take(i + 1).last() == names@[i as int]@);
        match find_item_by_id(snap, names[i].as_str()) {
            Some(item) => {
                let ids: Vec<Identity> = identities_for(item, &snap.processes);
                if ids.len() == 0 {
                    missing += 1;
                } else {
                    let ghost before = lists(members@);
                    let ghost idv = ids@;
                    members.push(ids);
                    assert(lists(members@) =~= before.push(idv));
                }
            },
            None => {
                missing += 1;
            },
        }
        i += 1;
    }
    assert(all.take(all.len() as int) =~= all);
    let how: Signal = if action == BarmanAction::Stop {
        Signal::Term
    } else {
        Signal::Kill
    };
    Act::SignalGroup { members, missing, how }
}

/// What an action on a target amounts to.
pub open spec fn resolved_act(
    snap: RuntimeSnapshot,
    target: Seq<char>,
    action: BarmanAction,
    demo: bool,
) -> ActModel {
    let items = runtime::models(snap.logical_items@);
    if text::starts_with(target, "container_"@) {
        docker_act(first_docker(snap.docker.resources@, target), target, action, demo)
    } else if text::starts_with(target, "resource_"@) {
        item_act(
            snap.processes@,
            resolved(snap.processes@, items, target),
            target,
            action,
            demo,
        )
    } else if text::starts_with(target, "project_"@) || text::starts_with(target, "session_"@) {
        group_act(
            snap.processes@,
            items,
            project_members(snapshot::projects_in(snap), target),
            target,
            action,
            demo,
        )
    } else {
        ActModel::Done(outdated(target, action.name()))
    }
}

/// Resolve a target against a fresh snapshot and decide what the action
/// amounts to. In demo mode nothing is left to do for the host.
pub fn act(
    snap: &RuntimeSnapshot,
    target: &str,
    action: &BarmanAction,
    demo_mode: bool,
) -> (r: Act)
    ensures
        r@ == resolved_act(*snap, target@, *action, demo_mode),
{
    if text_starts(target, "container_") {
        return act_docker(snap, target, *action, demo_mode);
    }
    if text_starts(target, "resource_") {
        return act_resource(snap, target, *action, demo_mode);
    }
    if text_starts(target, "project_") || text_starts(target, "session_") {
        return act_group(snap, target, *action, demo_mode);
    }
    Act::Done(ActionOutcome::stale(target, *action))
}

// ---------------------------------------------------------------------------
// Reporting back
// ---------------------------------------------------------------------------

/// The outcome of signals.
pub open spec fn signal_outcome(
    target: Seq<char>,
    action: BarmanAction,
    signaled: nat,
    failed: nat,
) -> OutcomeModel {
    if signaled > 0 && failed == 0 {
        succeeded(
            target,
            action.name(),
            "signaled "@ + text::dec(signaled) + " process(es)"@,
        )
    } else if signaled > 0 {
        refused(
            target,
            action.name(),
            "partial: signaled "@ + text::dec(signaled) + ", failed "@ + text::dec(failed),
        )
    } else if failed > 0 {
        refused(
            target,
            action.name(),
            "failed to signal "@ + text::dec(failed) + " process(es)"@,
        )
    } else {
        outdated(target, action.name())
    }
}

pub fn signal_report(target: &str, action: BarmanAction, report: &KillReport) -> (r: ActionOutcome)
    ensures
        r@ == signal_outcome(target@, action, report.signaled as nat, report.failed as nat),
{
    if report.signaled > 0 && report.failed == 0 {
        ActionOutcome::ok(
            target,
            action,
            "signaled ".to_owned().concat(dec_of(report.signaled as u64).as_str()).concat(
                " process(es)",
            ),
        )
    } else if report.signaled > 0 {
        ActionOutcome::failed(
            target,
            action.as_str(),
            "partial: signaled ".to_owned().concat(dec_of(report.signaled as u64).as_str()).concat(
                ", failed ",
            ).concat(dec_of(report.failed as u64).as_str()),
        )
    } else if report.failed > 0 {
        ActionOutcome::failed(
            target,
            action.as_str(),
            "failed to signal ".to_owned().concat(dec_of(report.failed as u64).as_str()).concat(
                " process(es)",
            ),
        )
    } else {
        ActionOutcome::stale(target, action)
    }
}

/// The sum of two counts, the largest number where they exceed it.
pub open spec fn capped(a: usize, b: usize) -> usize {
    if a + b <= usize::MAX {
        (a + b) as usize
    } else {
        usize::MAX
    }
}

fn add_capped(a: usize, b: usize) -> (r: usize)
    ensures
        r == capped(a, b),
{
    if a <= usize::MAX - b {
        a + b
    } else {
        usize::MAX
    }
}

/// The reports of all members in one.
pub open spec fn merged(reports: Seq<KillReport>, missing: usize) -> KillReport
    decreases reports.len(),
{
    if reports.len() == 0 {
        KillReport { signaled: 0, skipped: missing, failed: 0 }
    } else {
        let rest = merged(reports.drop_last(), missing);
        let last = reports.last();
        KillReport {
            signaled: capped(rest.signaled, last.signaled),
            skipped: capped(rest.skipped, last.skipped),
            failed: capped(rest.failed, last.failed),
        }
    }
}

/// The reports of a project's members in one; members without a process are
/// skipped ones.
pub fn merge_reports(reports: &Vec<KillReport>, missing: usize) -> (r: KillReport)
    ensures
        r == merged(reports@, missing),
{
    let mut r: KillReport = KillReport { signaled: 0, skipped: missing, failed: 0 };
    let mut i: usize = 0;
    assert(reports@.take(0) =~= Seq::<KillReport>::empty());
    while i < reports.len()
        invariant
            i <= reports.len(),
            r == merged(reports@.take(i as int), missing),
        decreases reports.len() - i,
    {
        assert(reports@.take(i + 1).drop_last() =~= reports@.take(i as int));
        r =
        KillReport {
            signaled: add_capped(r.signaled, reports[i].signaled),
            skipped: add_capped(r.skipped, reports[i].skipped),
            failed: add_capped(r.failed, reports[i].failed),
        };
        i += 1;
    }
    assert(reports@.take(reports@.len() as int) =~= reports@);
    r
}

/// The outcome of a call of the engine.
pub fn docker_report(
    target: &str,
    action: BarmanAction,
    detail: String,
    reply: Result<(), String>,
) -> (r: ActionOutcome)
    ensures
        match reply {
            Ok(_) => r@ == succeeded(target@, action.name(), detail@),
            Err(e) => r@ == refused(target@, action.name(), e@),
        },
{
    match reply {
        Ok(_) => ActionOutcome::ok(target, action, detail),
        Err(e) => ActionOutcome::failed(target, action.as_str(), e),
    }
}

// ---------------------------------------------------------------------------
// Laws
// ---------------------------------------------------------------------------

/// The name of an action parses back to it, and no two actions share a name.
pub proof fn action_names_are_distinct(a: BarmanAction, b: BarmanAction)
    ensures
        a.name() == b.name() <==> a == b,
{
    reveal_strlit("start");
    reveal_strlit("stop");
    reveal_strlit("restart");
    reveal_strlit("kill");
    reveal_strlit("open-url");
    assert("stop"@[0] != "kill"@[0]);
    assert("start"@.len() == 5 && "stop"@.len() == 4 && "restart"@.len() == 7 && "kill"@.len() == 4
        && "open-url"@.len() == 8);
}

/// In demo mode nothing is ever left to do for the host: no process is
/// signalled and the engine is not called.
pub proof fn demo_never_touches_the_host(
    snap: RuntimeSnapshot,
    target: Seq<char>,
    action: BarmanAction,
)
    ensures
        resolved_act(snap, target, action, true) is Done,
{
}

/// A target that is no id at all is reported as stale, whatever the action.
pub proof fn unknown_targets_are_stale(
    snap: RuntimeSnapshot,
    target: Seq<char>,
    action: BarmanAction,
    demo: bool,
)
    requires
        !text::starts_with(target, "container_"@),
        !text::starts_with(target, "resource_"@),
        !text::starts_with(target, "project_"@),
        !text::starts_with(target, "session_"@),
    ensures
        resolved_act(snap, target, action, demo) == ActModel::Done(
            outdated(target, action.name()),
        ),
{
}

/// A process item is never restarted: the answer is an error, not a signal.
pub proof fn processes_are_never_restarted(
    snap: RuntimeSnapshot,
    target: Seq<char>,
    demo: bool,
)
    requires
        text::starts_with(target, "resource_"@),
        !text::starts_with(target, "container_"@),
        resolved(snap.processes@, runtime::models(snap.logical_items@), target) is Some,
    ensures
        resolved_act(snap, target, BarmanAction::Restart, demo) == ActModel::Done(
            refused(target, "restart"@, "restart not supported for this resource"@),
        ),
{
}

/// What an action on a Docker resource calls: a kill removes it, by its kind
/// and id; a container is started and restarted by its id, and stopped only
/// where it runs; nothing else can be started, stopped or restarted.
pub proof fn docker_action_calls_the_engine(
    res: DockerResource,
    target: Seq<char>,
    action: BarmanAction,
)
    ensures
        ({
            let a = docker_act(Some(res), target, action, false);
            let container = res.kind == DockerKind::Container;
            let running = container && res.detail@ == "running"@;
            &&& action == BarmanAction::Kill ==> a is Docker && a->detail == "removed "@ + res.name@
                && a->call == CallModel::Remove(
                match res.kind {
                    DockerKind::Container => RemovalModel::Container(res.id@),
                    DockerKind::DanglingImage => RemovalModel::Image(res.id@),
                    DockerKind::Volume => RemovalModel::Volume(res.id@),
                    DockerKind::BuildCache => RemovalModel::BuildCache,
                },
            )
            &&& action == BarmanAction::Start && container ==> a is Docker && a->call
                == CallModel::Start(res.id@)
            &&& action == BarmanAction::Restart && container ==> a is Docker && a->call
                == CallModel::Restart(res.id@)
            &&& action == BarmanAction::Stop && running ==> a is Docker && a->call
                == CallModel::Stop(res.id@)
            &&& action == BarmanAction::Stop && container && !running ==> a is Done
                && !a->Done_0.ok && a->Done_0.error == Some("container is not running"@)
            &&& action != BarmanAction::Kill && !container ==> a is Done && !a->Done_0.ok
            &&& action == BarmanAction::OpenUrl ==> a is Done && !a->Done_0.ok
        }),
{
}

/// What an action on a process item leaves to do: a stop asks its processes
/// to end and a kill ends them; opening gives the link of its first port; an
/// item without a process that can be signalled is stale.
pub proof fn item_action_signals_its_processes(
    ps: Seq<ProcessInfo>,
    m: ItemModel,
    target: Seq<char>,
)
    ensures
        ({
            let stop = item_act(ps, Some(m), target, BarmanAction::Stop, false);
            let kill = item_act(ps, Some(m), target, BarmanAction::Kill, false);
            let open = item_act(ps, Some(m), target, BarmanAction::OpenUrl, false);
            &&& signalled(ps, m).len() > 0 ==> stop is Signal && stop->signal == Signal::Term
                && stop->ids == signalled(ps, m)
            &&& signalled(ps, m).len() > 0 ==> kill is Signal && kill->signal == Signal::Kill
                && kill->ids == signalled(ps, m)
            &&& signalled(ps, m).len() == 0 ==> stop is Done && stop->Done_0.stale
                && !stop->Done_0.ok && kill is Done && kill->Done_0.stale
            &&& open is Done
            &&& open->Done_0.ok <==> m.ports.len() > 0
            &&& m.ports.len() > 0 ==> open->Done_0.url == Some(m.ports[0].link())
        }),
{
}

proof fn first_with_finds(ps: Seq<ProcessInfo>, ms: Seq<ItemModel>, id: Seq<char>, k: int)
    requires
        0 <= k < ms.len(),
        document::item_key(ps, ms[k]) == id,
    ensures
        first_with(ps, ms, id) is Some,
        document::item_key(ps, first_with(ps, ms, id)->0) == id,
    decreases ms.len(),
{
    if document::item_key(ps, ms[0]) != id {
        assert(ms.skip(1)[k - 1] == ms[k]);
        first_with_finds(ps, ms.skip(1), id, k - 1);
    }
}

proof fn walk_meets_the_item(ms: Seq<ItemModel>, path: Seq<int>)
    requires
        ownership::item_at(ms, path) is Some,
    ensures
        backwards_all(ms).contains(ownership::item_at(ms, path)->0),
    decreases path.len(), 1nat, ms.len(),
{
    let m = ownership::item_at(ms, path)->0;
    let n = ms.len() - 1;
    let front = ms.drop_last();
    let head = backwards_in(ms.last());
    let tail = backwards_all(front);
    if path[0] == n {
        walk_meets_the_item_in(ms.last(), path, m);
        let k = choose|k: int| 0 <= k < head.len() && head[k] == m;
        assert(backwards_all(ms)[k] == m);
    } else {
        assert(front[path[0]] == ms[path[0]]);
        walk_meets_the_item(front, path);
        let k = choose|k: int| 0 <= k < tail.len() && tail[k] == m;
        assert(backwards_all(ms)[head.len() + k] == m);
    }
}

proof fn walk_meets_the_item_in(top: ItemModel, path: Seq<int>, m: ItemModel)
    requires
        path.len() > 0,
        path.len() == 1 ==> m == top,
        path.len() > 1 ==> ownership::item_at(top.children, path.drop_first()) == Some(m),
    ensures
        backwards_in(top).contains(m),
    decreases path.len(), 0nat, 0nat,
{
    let below = backwards_below(top, top.children.len());
    if path.len() == 1 {
        assert(backwards_in(top)[0] == m);
    } else {
        let rest = path.drop_first();
        let c = rest[0];
        walk_meets_the_item_in(top.children[c], rest, m);
        below_meets_the_child(top, top.children.len(), c, m);
        let k = choose|k: int| 0 <= k < below.len() && below[k] == m;
        assert(backwards_in(top)[1 + k] == m);
    }
}

proof fn below_meets_the_child(top: ItemModel, n: nat, c: int, m: ItemModel)
    requires
        0 <= c < n <= top.children.len(),
        backwards_in(top.children[c]).contains(m),
    ensures
        backwards_below(top, n).contains(m),
    decreases n,
{
    let head = backwards_in(top.children[n - 1]);
    let tail = backwards_below(top, (n - 1) as nat);
    if c == n - 1 {
        let k = choose|k: int| 0 <= k < head.len() && head[k] == m;
        assert(backwards_below(top, n)[k] == m);
    } else {
        below_meets_the_child(top, (n - 1) as nat, c, m);
        let k = choose|k: int| 0 <= k < tail.len() && tail[k] == m;
        assert(backwards_below(top, n)[head.len() + k] == m);
    }
}

/// Every item of the forest, at any depth, is found by its id.
pub proof fn every_item_is_found_by_its_id(
    ps: Seq<ProcessInfo>,
    items: Seq<ItemModel>,
    path: Seq<int>,
)
    requires
        ownership::item_at(items, path) is Some,
    ensures
        ({
            let id = document::item_key(ps, ownership::item_at(items, path)->0);
            &&& resolved(ps, items, id) is Some
            &&& document::item_key(ps, resolved(ps, items, id)->0) == id
        }),
{
    let m = ownership::item_at(items, path)->0;
    let all = backwards_all(items);
    walk_meets_the_item(items, path);
    let k = choose|k: int| 0 <= k < all.len() && all[k] == m;
    first_with_finds(ps, all, document::item_key(ps, m), k);
}

/// Every Docker resource is found by its id, the first of that id; an id that
/// none has is not found.
pub proof fn docker_resource_is_found_by_its_id(rs: Seq<DockerResource>, id: Seq<char>)
    ensures
        match first_docker(rs, id) {
            Some(r) => exists|k: int|
                0 <= k < rs.len() && #[trigger] rs[k] == r && ids::container_key(r.id@) == id
                    && forall|j: int|
                    0 <= j < k ==> ids::container_key((#[trigger] rs[j]).id@) != id,
            None => forall|j: int|
                0 <= j < rs.len() ==> ids::container_key((#[trigger] rs[j]).id@) != id,
        },
    decreases rs.len(),
{
    if rs.len() > 0 {
        let rest = rs.skip(1);
        if ids::container_key(rs[0].id@) == id {
            assert(rs[0] == rs[0]);
        } else {
            docker_resource_is_found_by_its_id(rest, id);
            match first_docker(rs, id) {
                Some(r) => {
                    let k = choose|k: int|
                        0 <= k < rest.len() && #[trigger] rest[k] == r && ids::container_key(r.id@)
                            == id && forall|j: int|
                            0 <= j < k ==> ids::container_key((#[trigger] rest[j]).id@) != id;
                    assert(rs[k + 1] == r);
                    assert forall|j: int| 0 <= j < k + 1 implies ids::container_key(
                        (#[trigger] rs[j]).id@,
                    ) != id by {
                        if j > 0 {
                            assert(rest[j - 1] == rs[j]);
                        }
                    }
                },
                None => {
                    assert forall|j: int| 0 <= j < rs.len() implies ids::container_key(
                        (#[trigger] rs[j]).id@,
                    ) != id by {
                        if j > 0 {
                            assert(rest[j - 1] == rs[j]);
                        }
                    }
                },
            }
        }
    }
}

/// A stop or a kill of a project goes to all of its members: each has its
/// processes signalled, or is counted as missing where it has none.
pub proof fn every_member_is_signalled_or_missing(
    ps: Seq<ProcessInfo>,
    items: Seq<ItemModel>,
    members: Seq<Seq<char>>,
)
    ensures
        ({
            let s = member_signals(ps, items, members);
            &&& s.0.len() + s.1 == members.len()
            &&& forall|i: int|
                0 <= i < members.len() && resolved(ps, items, #[trigger] members[i]) is Some
                    && signalled(ps, resolved(ps, items, members[i])->0).len() > 0
                    ==> s.0.contains(signalled(ps, resolved(ps, items, members[i])->0))
            &&& forall|k: int| 0 <= k < s.0.len() ==> (#[trigger] s.0[k]).len() > 0
        }),
    decreases members.len(),
{
    if members.len() > 0 {
        let front = members.drop_last();
        every_member_is_signalled_or_missing(ps, items, front);
        let rest = member_signals(ps, items, front);
        let s = member_signals(ps, items, members);
        assert forall|i: int|
            0 <= i < members.len() && resolved(ps, items, #[trigger] members[i]) is Some
                && signalled(ps, resolved(ps, items, members[i])->0).len()
                > 0 implies s.0.contains(signalled(ps, resolved(ps, items, members[i])->0)) by {
            let x = signalled(ps, resolved(ps, items, members[i])->0);
            if i < front.len() {
                assert(front[i] == members[i]);
                let k = choose|k: int| 0 <= k < rest.0.len() && rest.0[k] == x;
                assert(s.0[k] == x);
            } else {
                assert(s.0[rest.0.len() as int] == x);
            }
        }
    }
}

/// A project action signals with the strength of the action, and what is not
/// a stop or a kill is refused.
pub proof fn project_action_stops_or_kills(
    ps: Seq<ProcessInfo>,
    items: Seq<ItemModel>,
    members: Seq<Seq<char>>,
    target: Seq<char>,
    action: BarmanAction,
)
    ensures
        ({
            let a = group_act(ps, items, members, target, action, false);
            let strong = action == BarmanAction::Stop || action == BarmanAction::Kill;
            &&& !strong ==> a is Done && !a->Done_0.ok && !a->Done_0.stale
            &&& strong && members.len() == 0 ==> a is Done && a->Done_0.stale
            &&& strong && members.len() > 0 ==> a is SignalGroup && a->how == (if action
                == BarmanAction::Stop {
                Signal::Term
            } else {
                Signal::Kill
            }) && a->members == member_signals(ps, items, members).0 && a->missing
                == member_signals(ps, items, members).1
        }),
{
}

/// Signals succeeded where at least one was sent and none failed; where
/// nothing was signalled and nothing failed the target is stale; a partial
/// success is an error that says how many of each there were.
pub proof fn signals_are_reported_honestly(
    target: Seq<char>,
    action: BarmanAction,
    signaled: nat,
    failed: nat,
)
    ensures
        ({
            let o = signal_outcome(target, action, signaled, failed);
            &&& o.target == target
            &&& o.action == Some(action.name())
            &&& o.ok <==> signaled > 0 && failed == 0
            &&& o.stale <==> signaled == 0 && failed == 0
            &&& o.ok <==> o.error is None
            &&& signaled > 0 && failed > 0 ==> o.error == Some(
                "partial: signaled "@ + text::dec(signaled) + ", failed "@ + text::dec(failed),
            )
            &&& signaled == 0 && failed > 0 ==> o.error == Some(
                "failed to signal "@ + text::dec(failed) + " process(es)"@,
            )
        }),
{
}

/// The reports of members add up, and members without a process count as
/// skipped.
pub proof fn reports_add_up(reports: Seq<KillReport>, missing: usize)
    ensures
        ({
            let signaled = reports.fold_left(
                0nat,
                |n: nat, r: KillReport| n + r.signaled as nat,
            );
            let skipped = reports.fold_left(
                missing as nat,
                |n: nat, r: KillReport| n + r.skipped as nat,
            );
            let failed = reports.fold_left(0nat, |n: nat, r: KillReport| n + r.failed as nat);
            &&& merged(reports, missing).signaled == (if signaled <= usize::MAX {
                signaled
            } else {
                usize::MAX as nat
            })
            &&& merged(reports, missing).skipped == (if skipped <= usize::MAX {
                skipped
            } else {
                usize::MAX as nat
            })
            &&& merged(reports, missing).failed == (if failed <= usize::MAX {
                failed
            } else {
                usize::MAX as nat
            })
        }),
    decreases reports.len(),
{
    if reports.len() > 0 {
        reports_add_up(reports.drop_last(), missing);
    }
}

} // verus!

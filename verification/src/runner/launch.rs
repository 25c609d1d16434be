//! Starting the supervisor on demand. Any number of clients may try at once:
//! whether one is needed is asked again under a lock.

use crate::path;
use crate::runner::client::READY_TIMEOUT_SECS;
use crate::text;
use crate::text::dec_of;
use crate::time::Duration;
use vstd::prelude::*;

verus! {

/// How far a launch has come.
#[derive(Debug, Clone, Copy, PartialEq, Eq, Structural)]
pub enum LaunchPhase {
    /// Nobody was asked yet.
    Probing,
    /// Nobody answered; the lock is not held.
    Locking,
    /// The lock is held; nobody was asked since.
    Rechecking,
    /// Nobody answered under the lock.
    Starting,
    /// A supervisor was started.
    Polling { pid: u32 },
    /// A supervisor answers.
    Up,
    /// There will be none.
    Failed,
}

/// What happened.
#[derive(Debug, Clone, Copy, PartialEq, Eq, Structural)]
pub enum LaunchEvent {
    /// Whether a supervisor answered a ping.
    Answered(bool),
    /// Whether the lock was taken.
    Locked(bool),
    /// The process that was started; none where that failed.
    Started(Option<u32>),
    /// How long ago the supervisor was started, and whether it answered then.
    Polled { waited: Duration, answered: bool },
}

/// What to do next.
#[derive(Debug, Clone, Copy, PartialEq, Eq, Structural)]
pub enum LaunchAction {
    /// Take the lock, waiting for whoever holds it.
    Lock,
    /// Ping the socket.
    Ping,
    /// Remove the stale socket and start a supervisor.
    Start,
    /// Sleep briefly and poll again.
    Poll,
    /// A supervisor answers.
    Ready,
    /// The last step failed.
    GiveUp,
    /// The supervisor that was started never answered.
    TimedOut { pid: u32 },
}

/// One attempt to have a supervisor.
#[derive(Debug, Clone, Copy, PartialEq, Eq, Structural)]
pub struct Launcher {
    pub phase: LaunchPhase,
}

impl Launcher {
    /// What follows an event. An event that does not belong to the phase
    /// changes nothing.
    pub open spec fn next(self, e: LaunchEvent) -> (Launcher, LaunchAction) {
        let to = |phase: LaunchPhase| Launcher { phase };
        match (self.phase, e) {
            (LaunchPhase::Probing, LaunchEvent::Answered(yes)) => if yes {
                (to(LaunchPhase::Up), LaunchAction::Ready)
            } else {
                (to(LaunchPhase::Locking), LaunchAction::Lock)
            },
            (LaunchPhase::Locking, LaunchEvent::Locked(held)) => if held {
                (to(LaunchPhase::Rechecking), LaunchAction::Ping)
            } else {
                (to(LaunchPhase::Failed), LaunchAction::GiveUp)
            },
            (LaunchPhase::Rechecking, LaunchEvent::Answered(yes)) => if yes {
                (to(LaunchPhase::Up), LaunchAction::Ready)
            } else {
                (to(LaunchPhase::Starting), LaunchAction::Start)
            },
            (LaunchPhase::Starting, LaunchEvent::Started(child)) => match child {
                Some(pid) => (to(LaunchPhase::Polling { pid }), LaunchAction::Poll),
                None => (to(LaunchPhase::Failed), LaunchAction::GiveUp),
            },
            (LaunchPhase::Polling { pid }, LaunchEvent::Polled { waited, answered }) => if waited@
                >= READY_TIMEOUT_SECS * 1_000_000_000 {
                (to(LaunchPhase::Failed), LaunchAction::TimedOut { pid })
            } else if answered {
                (to(LaunchPhase::Up), LaunchAction::Ready)
            } else {
                (self, LaunchAction::Poll)
            },
            _ => (
                self,
                match self.phase {
                    LaunchPhase::Probing => LaunchAction::Ping,
                    LaunchPhase::Locking => LaunchAction::Lock,
                    LaunchPhase::Rechecking => LaunchAction::Ping,
                    LaunchPhase::Starting => LaunchAction::Poll,
                    LaunchPhase::Polling { .. } => LaunchAction::Poll,
                    LaunchPhase::Up => LaunchAction::Ready,
                    LaunchPhase::Failed => LaunchAction::GiveUp,
                },
            ),
        }
    }

    pub fn new() -> (r: Launcher)
        ensures
            r.phase == LaunchPhase::Probing,
    {
        Launcher { phase: LaunchPhase::Probing }
    }

    fn go(&mut self, phase: LaunchPhase, action: LaunchAction) -> (r: LaunchAction)
        ensures
            final(self).phase == phase,
            r == action,
    {
        self.phase = phase;
        action
    }

    /// Takes what happened and says what to do next. The first thing is a
    /// ping.
    pub fn step(&mut self, event: LaunchEvent) -> (r: LaunchAction)
        ensures
            (*final(self), r) == old(self).next(event),
    {
        match (self.phase, event) {
            (LaunchPhase::Probing, LaunchEvent::Answered(yes)) => {
                if yes {
                    self.go(LaunchPhase::Up, LaunchAction::Ready)
                } else {
                    self.go(LaunchPhase::Locking, LaunchAction::Lock)
                }
            },
            (LaunchPhase::Locking, LaunchEvent::Locked(held)) => {
                if held {
                    self.go(LaunchPhase::Rechecking, LaunchAction::Ping)
                } else {
                    self.go(LaunchPhase::Failed, LaunchAction::GiveUp)
                }
            },
            (LaunchPhase::Rechecking, LaunchEvent::Answered(yes)) => {
                if yes {
                    self.go(LaunchPhase::Up, LaunchAction::Ready)
                } else {
                    self.go(LaunchPhase::Starting, LaunchAction::Start)
                }
            },
            (LaunchPhase::Starting, LaunchEvent::Started(child)) => match child {
                Some(pid) => self.go(LaunchPhase::Polling { pid }, LaunchAction::Poll),
                None => self.go(LaunchPhase::Failed, LaunchAction::GiveUp),
            },
            (LaunchPhase::Polling { pid }, LaunchEvent::Polled { waited, answered }) => {
                if waited.at_least(Duration::from_secs(READY_TIMEOUT_SECS)) {
                    self.go(LaunchPhase::Failed, LaunchAction::TimedOut { pid })
                } else if answered {
                    self.go(LaunchPhase::Up, LaunchAction::Ready)
                } else {
                    LaunchAction::Poll
                }
            },
            _ => match self.phase {
                LaunchPhase::Probing => LaunchAction::Ping,
                LaunchPhase::Locking => LaunchAction::Lock,
                LaunchPhase::Rechecking => LaunchAction::Ping,
                LaunchPhase::Starting => LaunchAction::Poll,
                LaunchPhase::Polling { .. } => LaunchAction::Poll,
                LaunchPhase::Up => LaunchAction::Ready,
                LaunchPhase::Failed => LaunchAction::GiveUp,
            },
        }
    }
}

/// A file beside the socket.
pub open spec fn beside(socket: Seq<char>, name: Seq<char>) -> Seq<char> {
    match path::parent_of(socket) {
        Some(dir) => path::joined(dir, name),
        None => name,
    }
}

fn sibling(socket: &str, name: &str) -> (r: String)
    ensures
        r@ == beside(socket@, name@),
{
    match path::parent(socket) {
        Some(dir) => path::join(dir.as_str(), name),
        None => name.to_owned(),
    }
}

/// The lock that a launch is decided under.
pub fn lock_path(socket: &str) -> (r: String)
    ensures
        r@ == beside(socket@, "wyd.lock"@),
{
    sibling(socket, "wyd.lock")
}

/// What the supervisor reports goes here.
pub fn log_path(socket: &str) -> (r: String)
    ensures
        r@ == beside(socket@, "wyd-serve.log"@),
{
    sibling(socket, "wyd-serve.log")
}

/// What a client is told of a supervisor that never answered.
pub fn never_ready(pid: u32, socket: &str) -> (r: String)
    ensures
        r@ == "supervisor did not become ready (pid "@ + text::dec(pid as nat) + "); see "@
            + beside(socket@, "wyd-serve.log"@),
{
    "supervisor did not become ready (pid ".to_owned().concat(dec_of(pid as u64).as_str()).concat(
        "); see ",
    ).concat(log_path(socket).as_str())
}

// ---------------------------------------------------------------------------
// Laws
// ---------------------------------------------------------------------------

/// Where a launch stands after some events.
pub open spec fn after(events: Seq<LaunchEvent>) -> Launcher
    decreases events.len(),
{
    if events.len() == 0 {
        Launcher { phase: LaunchPhase::Probing }
    } else {
        after(events.drop_last()).next(events.last()).0
    }
}

proof fn rechecking_holds_the_lock(events: Seq<LaunchEvent>)
    ensures
        after(events).phase == LaunchPhase::Rechecking ==> events.contains(
            LaunchEvent::Locked(true),
        ),
    decreases events.len(),
{
    if events.len() > 0 {
        let rest = events.drop_last();
        rechecking_holds_the_lock(rest);
        if after(events).phase == LaunchPhase::Rechecking {
            if events.last() == LaunchEvent::Locked(true) {
                assert(events[events.len() - 1] == LaunchEvent::Locked(true));
            } else {
                let i = choose|i: int| 0 <= i < rest.len() && rest[i] == LaunchEvent::Locked(true);
                assert(events[i] == LaunchEvent::Locked(true));
            }
        }
    }
}

/// A supervisor is started only where none answered while the lock was held.
pub proof fn starting_is_decided_under_the_lock(events: Seq<LaunchEvent>, e: LaunchEvent)
    requires
        after(events).next(e).1 == LaunchAction::Start,
    ensures
        e == LaunchEvent::Answered(false),
        events.contains(LaunchEvent::Locked(true)),
{
    rechecking_holds_the_lock(events);
}

/// One attempt starts one supervisor at the most.
pub proof fn a_launch_starts_once(l: Launcher, e: LaunchEvent, f: LaunchEvent)
    ensures
        l.next(e).1 == LaunchAction::Start ==> l.next(e).0.next(f).1 != LaunchAction::Start
            && l.next(e).0.next(f).0.phase != LaunchPhase::Rechecking,
        !(l.phase is Probing) && !(l.phase is Locking) && !(l.phase is Rechecking) ==> l.next(e).1
            != LaunchAction::Start && !(l.next(e).0.phase is Probing) && !(l.next(e).0.phase
            is Locking) && !(l.next(e).0.phase is Rechecking),
{
}

/// What each answer leads to. Somebody who answers is used at once; nobody
/// answering leads to the lock, and under the lock to a start; a lock or a
/// start that fails ends the attempt.
pub proof fn each_answer_has_its_consequence(l: Launcher, yes: bool, child: Option<u32>)
    ensures
        l.phase == LaunchPhase::Probing || l.phase == LaunchPhase::Rechecking ==> l.next(
            LaunchEvent::Answered(true),
        ) == (Launcher { phase: LaunchPhase::Up }, LaunchAction::Ready),
        l.phase == LaunchPhase::Probing ==> l.next(LaunchEvent::Answered(false)) == (
            Launcher { phase: LaunchPhase::Locking },
            LaunchAction::Lock,
        ),
        l.phase == LaunchPhase::Rechecking ==> l.next(LaunchEvent::Answered(false)) == (
            Launcher { phase: LaunchPhase::Starting },
            LaunchAction::Start,
        ),
        l.phase == LaunchPhase::Locking ==> l.next(LaunchEvent::Locked(true)) == (
            Launcher { phase: LaunchPhase::Rechecking },
            LaunchAction::Ping,
        ),
        l.phase == LaunchPhase::Locking ==> l.next(LaunchEvent::Locked(false)) == (
            Launcher { phase: LaunchPhase::Failed },
            LaunchAction::GiveUp,
        ),
        l.phase == LaunchPhase::Starting && child is Some ==> l.next(LaunchEvent::Started(child))
            == (Launcher { phase: LaunchPhase::Polling { pid: child->0 } }, LaunchAction::Poll),
        l.phase == LaunchPhase::Starting && child is None ==> l.next(LaunchEvent::Started(child))
            == (Launcher { phase: LaunchPhase::Failed }, LaunchAction::GiveUp),
        l.phase == LaunchPhase::Up ==> l.next(LaunchEvent::Answered(yes)) == (
            l,
            LaunchAction::Ready,
        ),
        l.phase == LaunchPhase::Failed ==> l.next(LaunchEvent::Answered(yes)) == (
            l,
            LaunchAction::GiveUp,
        ),
{
}

/// A supervisor that was started has ten seconds to answer. It is asked again
/// until then, and named when it never did.
pub proof fn a_started_supervisor_has_ten_seconds(pid: u32, waited: Duration, answered: bool)
    ensures
        ({
            let l = Launcher { phase: LaunchPhase::Polling { pid } };
            let e = LaunchEvent::Polled { waited, answered };
            &&& waited@ < 10_000_000_000 && answered ==> l.next(e).1 == LaunchAction::Ready
                && l.next(e).0.phase == LaunchPhase::Up
            &&& waited@ < 10_000_000_000 && !answered ==> l.next(e) == (l, LaunchAction::Poll)
            &&& waited@ >= 10_000_000_000 ==> l.next(e).1 == LaunchAction::TimedOut { pid }
                && l.next(e).0.phase == LaunchPhase::Failed
        }),
{
}

} // verus!

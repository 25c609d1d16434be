//! Runtime session identity and model.
//!
//! A session is **one observed invocation of an agent runtime process** —
//! not a chat, conversation, task or vendor session. Restarting the agent
//! process creates a new session.
//!
//! The session id must reproduce across restarts of the observer (same boot,
//! same process invocation → same id), so it uses a stable FNV-1a over the
//! identity parts.

use crate::bytes;
use crate::bytes::{extend, fnv1a, le_bytes_of};
use crate::model::boot::BootId;
use crate::model::process::ProcessIdentity;
use crate::model::project::Project;
use crate::text;
use crate::text::hex_of;
use vstd::prelude::*;

verus! {

/// Stable id of one agent runtime invocation.
#[derive(Debug, Clone, Copy, PartialEq, Eq, Hash, Structural)]
pub struct RuntimeSessionId(u64);

impl View for RuntimeSessionId {
    type V = u64;

    closed spec fn view(&self) -> u64 {
        self.0
    }
}

/// Two ids with one number are one id.
pub proof fn ids_are_their_numbers(a: RuntimeSessionId, b: RuntimeSessionId)
    requires
        a@ == b@,
    ensures
        a == b,
{
}

impl RuntimeSessionId {
    /// What the id of an invocation is computed from.
    pub open spec fn id_bytes(boot_id: BootId, root: ProcessIdentity, agent: Seq<char>) -> Seq<u8> {
        bytes::le_bytes(boot_id@ as nat, 16) + bytes::le_bytes(root.pid as nat, 4)
            + bytes::le_bytes(root.start_time as nat, 8) + bytes::utf8(agent)
    }

    pub fn new(boot_id: &BootId, root: &ProcessIdentity, agent: &str) -> (r: Self)
        ensures
            r@ == bytes::fnv(Self::id_bytes(*boot_id, *root, agent@)),
    {
        let mut v: Vec<u8> = le_bytes_of(boot_id.as_u128(), 16);
        extend(&mut v, le_bytes_of(root.pid as u128, 4).as_slice());
        extend(&mut v, le_bytes_of(root.start_time as u128, 8).as_slice());
        extend(&mut v, agent.as_bytes());
        RuntimeSessionId(fnv1a(v.as_slice()))
    }

    pub fn as_u64(self) -> (r: u64)
        ensures
            r == self@,
    {
        self.0
    }

    pub fn from_u64(v: u64) -> (r: Self)
        ensures
            r@ == v,
    {
        RuntimeSessionId(v)
    }

    /// The id as 16 hexadecimal digits.
    pub fn to_text(self) -> (s: String)
        ensures
            s@ == text::hex_fixed(self@ as nat, 16),
    {
        hex_of(self.0 as u128, 16)
    }
}

/// One observed invocation of an agent runtime process.
///
/// `project` is metadata and is not part of identity: an agent changing cwd
/// does not create a new session.
#[derive(Debug, Clone)]
pub struct RuntimeSession {
    pub id: RuntimeSessionId,
    pub agent: String,
    pub root: ProcessIdentity,
    pub project: Option<Project>,
    pub started_at: u64,
    pub last_seen_at: u64,
    pub ended_at: Option<u64>,
}

impl RuntimeSession {
    pub fn new(agent: &str, root: ProcessIdentity, project: Option<Project>, now: u64) -> (r: Self)
        ensures
            r.id@ == bytes::fnv(RuntimeSessionId::id_bytes(root.boot_id, root, agent@)),
            r.agent@ == agent@,
            r.root == root,
            r.project == project,
            r.started_at == root.start_time,
            r.last_seen_at == now,
            r.ended_at is None,
    {
        let id: RuntimeSessionId = RuntimeSessionId::new(&root.boot_id, &root, agent);
        RuntimeSession {
            id,
            agent: agent.to_owned(),
            root,
            project,
            started_at: root.start_time,
            last_seen_at: now,
            ended_at: None,
        }
    }

    /// What is kept of the session as its history.
    pub fn record(&self) -> (r: SessionRecord)
        ensures
            r.id == self.id,
            r.agent@ == self.agent@,
            text::text_of(r.project) == match self.project {
                Some(p) => Some(p.root@),
                None => None,
            },
            r.started_at == self.started_at,
            r.last_seen_at == self.last_seen_at,
            r.ended_at == self.ended_at,
    {
        SessionRecord {
            id: self.id,
            agent: self.agent.clone(),
            project: match &self.project {
                Some(p) => Some(p.root.clone()),
                None => None,
            },
            started_at: self.started_at,
            last_seen_at: self.last_seen_at,
            ended_at: self.ended_at,
        }
    }
}

/// A session's history.
#[derive(Debug, Clone, PartialEq, Eq)]
pub struct SessionRecord {
    pub id: RuntimeSessionId,
    pub agent: String,
    pub project: Option<String>,
    pub started_at: u64,
    pub last_seen_at: u64,
    pub ended_at: Option<u64>,
}

/// Lightweight, snapshot-friendly view of a session for display.
/// `active` = not yet ended.
#[derive(Debug, Clone)]
pub struct SessionInfo {
    pub id: RuntimeSessionId,
    pub agent: String,
    pub project: Option<String>,
    pub active: bool,
    pub started_at: u64,
}

impl SessionInfo {
    pub fn copy(&self) -> (r: SessionInfo)
        ensures
            r == *self,
    {
        SessionInfo {
            id: self.id,
            agent: self.agent.clone(),
            project: text::copy_opt(&self.project),
            active: self.active,
            started_at: self.started_at,
        }
    }
}

} // verus!

//! Managed run contract: the durable, backend-agnostic description of a
//! started command, its lifecycle, result and cleanup.
//!
//! A `Run` is not a `RuntimeSession`: a session is an agent invocation, a run
//! is one executed command. The link between them is optional metadata.
//!
//! States: `queued → starting → running → stopping → finished`. Before a
//! spawn the run may also go straight to `finished` (cancelled or spawn
//! failure).

use crate::bytes;
use crate::bytes::{extend, le_bytes_of, TEXT_END};
use crate::digest;
use crate::digest::hash_hex;
use crate::model::process::ProcessIdentity;
use crate::model::session;
use crate::model::session::RuntimeSessionId;
use crate::text;
use crate::text::{dec_of_int, same};
use crate::time::Duration;
use vstd::prelude::*;

verus! {

/// Timeout for one run when the caller does not ask for one.
pub const DEFAULT_TIMEOUT_SECS: u64 = 600;

/// Grace period between the soft and the forced stop.
pub const DEFAULT_GRACE_SECS: u64 = 3;

/// Log bytes kept per run and stream: the head is kept.
pub const DEFAULT_RUN_LOG_LIMIT: u64 = 10 * 1024 * 1024;

/// Bounded total on-disk log bytes across retained runs.
pub const DEFAULT_TOTAL_LOG_LIMIT: u64 = 250 * 1024 * 1024;

/// How long finished runs (rows and log files) are kept.
pub const RUN_RETENTION_SECS: u64 = 7 * 24 * 60 * 60;

/// Window in which a repeated `request_id` deduplicates instead of creating
/// a second run. Outside it the key is treated as new and may be reused.
pub const REQUEST_ID_WINDOW_SECS: u64 = 24 * 60 * 60;

/// Largest accepted environment block for a run (not persisted).
pub const MAX_ENV_BYTES: usize = 256 * 1024;

/// Largest accepted request line on the local API.
pub const MAX_REQUEST_BYTES: usize = 1024 * 1024;

/// Stable identifier of one managed run.
#[derive(Debug, Clone, Copy, PartialEq, Eq, Hash, PartialOrd, Ord, Structural)]
pub struct RunId(pub i64);

impl RunId {
    /// The id in decimal.
    pub fn to_text(self) -> (r: String)
        ensures
            r@ == text::dec_int(self.0 as int),
    {
        dec_of_int(self.0)
    }
}

/// Where the run's session link came from. A session id asserted by an agent
/// is provenance metadata, never proof of authorization.
#[derive(Debug, Clone, Copy, PartialEq, Eq, Structural)]
pub enum SessionOrigin {
    /// No session link.
    Unlinked,
    /// The caller (CLI/MCP) named a session it claims to be part of.
    CallerReported,
}

impl SessionOrigin {
    pub fn default_origin() -> (r: Self)
        ensures
            r == SessionOrigin::Unlinked,
    {
        SessionOrigin::Unlinked
    }
}

/// How a resource requirement is enforced. The three states are deliberately
/// distinct: "observed" must never be presented as a kernel limit.
#[derive(Debug, Clone, Copy, PartialEq, Eq, Structural)]
pub enum Enforcement {
    /// No requirement; the run is neither limited nor stopped for resources.
    Off,
    /// Stop the run when observed usage crosses the threshold. Sampling can
    /// miss a brief peak, so this is a policy, not a guarantee.
    Monitored,
    /// A hard kernel-enforced limit. Refused before spawn when the backend
    /// cannot deliver it — never silently downgraded.
    Hard,
}

impl Default for Enforcement {
    fn default() -> (r: Self)
        ensures
            r == Enforcement::Off,
    {
        Enforcement::Off
    }
}

/// What a caller asks for. Empty means "whatever the supervisor allows".
#[derive(Debug, Clone, Copy, PartialEq, Eq, Structural)]
pub struct ResourceRequest {
    /// Reserved against the memory budget at admission, and used as the
    /// monitored threshold when `enforcement` is `monitored`.
    pub memory_bytes: Option<u64>,
    pub cpu_millicores: Option<u32>,
    pub processes: Option<u32>,
    pub enforcement: Enforcement,
    /// How long the request may wait for a slot before it is abandoned.
    /// Separate from the execution timeout, which only starts at spawn.
    pub queue_timeout: Option<Duration>,
}

impl Default for ResourceRequest {
    fn default() -> (r: Self)
        ensures
            r.memory_bytes is None,
            r.cpu_millicores is None,
            r.processes is None,
            r.enforcement == Enforcement::Off,
            r.queue_timeout is None,
    {
        ResourceRequest {
            memory_bytes: None,
            cpu_millicores: None,
            processes: None,
            enforcement: Enforcement::Off,
            queue_timeout: None,
        }
    }
}

/// Everything needed to start one run. Contains no secrets from the process
/// environment: env is passed to the supervisor in memory, never stored.
#[derive(Debug, Clone)]
pub struct RunSpec {
    /// Idempotency key. The same key with an identical spec returns the
    /// existing run; the same key with a different spec is a conflict.
    pub request_id: String,
    /// Executable followed by arguments. Never implicitly run through a shell.
    pub argv: Vec<String>,
    /// Absolute working directory.
    pub cwd: String,
    /// Project root, when the caller knows it.
    pub project_root: Option<String>,
    /// Optional originating agent session.
    pub session_id: Option<RuntimeSessionId>,
    pub session_origin: SessionOrigin,
    pub timeout: Duration,
    pub grace: Duration,
    /// Per-stream retained log bytes.
    pub log_limit_bytes: u64,
    /// Resource requirements. Empty means "whatever the supervisor allows".
    pub resources: ResourceRequest,
}

/// The arguments, a one before each and a zero behind the last.
pub open spec fn argv_bytes(argv: Seq<Seq<char>>) -> Seq<u8>
    decreases argv.len(),
{
    if argv.len() == 0 {
        seq![0u8]
    } else {
        seq![1u8] + (bytes::ended(argv[0]) + argv_bytes(argv.skip(1)))
    }
}

/// A text behind a one, or a zero where there is none.
pub open spec fn option_bytes(o: Option<Seq<char>>) -> Seq<u8> {
    match o {
        Some(s) => seq![1u8] + bytes::ended(s),
        None => seq![0u8],
    }
}

/// A session's id behind a one, or a zero where there is none.
pub open spec fn session_bytes(o: Option<RuntimeSessionId>) -> Seq<u8> {
    match o {
        Some(sid) => seq![1u8] + bytes::le_bytes(sid@ as nat, 8),
        None => seq![0u8],
    }
}

impl RunSpec {
    /// What makes two requests with one key the same request. Every part is
    /// set off from the next.
    pub open spec fn identity_bytes(self) -> Seq<u8> {
        bytes::ended(self.request_id@) + (argv_bytes(text::texts(self.argv@)) + (bytes::ended(
            self.cwd@,
        ) + (option_bytes(text::text_of(self.project_root)) + session_bytes(self.session_id))))
    }

    /// A spec with default limits for `argv` in `cwd`.
    pub fn new(request_id: &str, argv: Vec<String>, cwd: String) -> (r: Self)
        ensures
            r.request_id@ == request_id@,
            r.argv == argv,
            r.cwd == cwd,
            r.project_root is None,
            r.session_id is None,
            r.session_origin == SessionOrigin::Unlinked,
            r.timeout@ == DEFAULT_TIMEOUT_SECS * 1_000_000_000,
            r.grace@ == DEFAULT_GRACE_SECS * 1_000_000_000,
            r.log_limit_bytes == DEFAULT_RUN_LOG_LIMIT,
            r.resources.memory_bytes is None,
            r.resources.cpu_millicores is None,
            r.resources.processes is None,
            r.resources.enforcement == Enforcement::Off,
            r.resources.queue_timeout is None,
    {
        RunSpec {
            request_id: request_id.to_owned(),
            argv,
            cwd,
            project_root: None,
            session_id: None,
            session_origin: SessionOrigin::Unlinked,
            timeout: Duration::from_secs(DEFAULT_TIMEOUT_SECS),
            grace: Duration::from_secs(DEFAULT_GRACE_SECS),
            log_limit_bytes: DEFAULT_RUN_LOG_LIMIT,
            resources: ResourceRequest::default(),
        }
    }

    /// The bytes that the fingerprint is taken of.
    pub fn fingerprint_bytes(&self) -> (v: Vec<u8>)
        ensures
            v@ == self.identity_bytes(),
    {
        let mut v: Vec<u8> = Vec::new();
        push_text(&mut v, self.request_id.as_str());
        let ghost head = v@;
        let ghost args = text::texts(self.argv@);
        let mut i: usize = 0;
        assert(args.skip(0) =~= args);
        while i < self.argv.len()
            invariant
                i <= self.argv.len(),
                args == text::texts(self.argv@),
                v@ + argv_bytes(args.skip(i as int)) == head + argv_bytes(args),
            decreases self.argv.len() - i,
        {
            let ghost so_far = v@;
            assert(args.skip(i as int).skip(1) =~= args.skip(i + 1));
            assert(args.skip(i as int)[0] == self.argv@[i as int]@);
            v.push(1);
            push_text(&mut v, self.argv[i].as_str());
            assert(v@ + argv_bytes(args.skip(i + 1)) =~= so_far + argv_bytes(args.skip(i as int)));
            i += 1;
        }
        assert(argv_bytes(args.skip(args.len() as int)) =~= seq![0u8]);
        v.push(0);
        assert(v@ =~= head + argv_bytes(args));
        push_text(&mut v, self.cwd.as_str());
        match &self.project_root {
            Some(root) => {
                v.push(1);
                push_text(&mut v, root.as_str());
            },
            None => {
                v.push(0);
            },
        }
        match self.session_id {
            Some(sid) => {
                v.push(1);
                extend(&mut v, le_bytes_of(sid.as_u64() as u128, 8).as_slice());
            },
            None => {
                v.push(0);
            },
        }
        assert(v@ =~= self.identity_bytes());
        v
    }

    /// Stable digest of everything that makes two `request_id`-keyed
    /// requests the same request. Timing and log limits are excluded on
    /// purpose: retrying a request with a longer timeout must still
    /// deduplicate, not start a second process.
    pub fn fingerprint(&self) -> (r: String)
        ensures
            r@ == digest::blake3_hex(self.identity_bytes()),
            r@.len() == 64,
    {
        hash_hex(self.fingerprint_bytes().as_slice())
    }

    pub fn copy(&self) -> (r: RunSpec)
        ensures
            r.same_as(*self),
    {
        RunSpec {
            request_id: self.request_id.clone(),
            argv: text::copy_list(&self.argv),
            cwd: self.cwd.clone(),
            project_root: text::copy_opt(&self.project_root),
            session_id: self.session_id,
            session_origin: self.session_origin,
            timeout: self.timeout,
            grace: self.grace,
            log_limit_bytes: self.log_limit_bytes,
            resources: self.resources,
        }
    }

    /// Two specs that say the same.
    pub open spec fn same_as(self, o: RunSpec) -> bool {
        &&& self.request_id == o.request_id
        &&& self.argv@ == o.argv@
        &&& self.cwd == o.cwd
        &&& self.project_root == o.project_root
        &&& self.session_id == o.session_id
        &&& self.session_origin == o.session_origin
        &&& self.timeout == o.timeout
        &&& self.grace == o.grace
        &&& self.log_limit_bytes == o.log_limit_bytes
        &&& self.resources == o.resources
    }
}

fn push_text(v: &mut Vec<u8>, s: &str)
    ensures
        final(v)@ == old(v)@ + bytes::ended(s@),
{
    extend(v, s.as_bytes());
    v.push(TEXT_END);
    assert(v@ =~= old(v)@ + bytes::ended(s@));
}

proof fn argv_tells_apart(a: Seq<Seq<char>>, b: Seq<Seq<char>>, x: Seq<u8>, y: Seq<u8>)
    requires
        argv_bytes(a) + x == argv_bytes(b) + y,
    ensures
        a == b,
        x == y,
    decreases a.len(),
{
    let (p, q) = (argv_bytes(a) + x, argv_bytes(b) + y);
    assert(p[0] == if a.len() == 0 { 0u8 } else { 1u8 });
    assert(q[0] == if b.len() == 0 { 0u8 } else { 1u8 });
    if a.len() == 0 {
        assert(a =~= b);
        assert(x =~= p.skip(1));
        assert(y =~= q.skip(1));
    } else {
        let (u, w) = (argv_bytes(a.skip(1)) + x, argv_bytes(b.skip(1)) + y);
        assert(p.skip(1) =~= bytes::ended(a[0]) + u);
        assert(q.skip(1) =~= bytes::ended(b[0]) + w);
        bytes::ends_tell_apart(a[0], b[0], u, w);
        argv_tells_apart(a.skip(1), b.skip(1), x, y);
        assert(a =~= seq![a[0]] + a.skip(1));
        assert(b =~= seq![b[0]] + b.skip(1));
    }
}

proof fn option_tells_apart(a: Option<Seq<char>>, b: Option<Seq<char>>, x: Seq<u8>, y: Seq<u8>)
    requires
        option_bytes(a) + x == option_bytes(b) + y,
    ensures
        a == b,
        x == y,
{
    let (p, q) = (option_bytes(a) + x, option_bytes(b) + y);
    assert(p[0] == if a is Some { 1u8 } else { 0u8 });
    assert(q[0] == if b is Some { 1u8 } else { 0u8 });
    if a is Some {
        assert(p.skip(1) =~= bytes::ended(a->0) + x);
        assert(q.skip(1) =~= bytes::ended(b->0) + y);
        bytes::ends_tell_apart(a->0, b->0, x, y);
    } else {
        assert(x =~= p.skip(1));
        assert(y =~= q.skip(1));
    }
}

/// Two specs with the same identity are the same request: they agree on key,
/// command, directory, project and session.
pub proof fn identity_tells_requests_apart(a: RunSpec, b: RunSpec)
    requires
        a.identity_bytes() == b.identity_bytes(),
    ensures
        a.request_id@ == b.request_id@,
        text::texts(a.argv@) == text::texts(b.argv@),
        a.cwd@ == b.cwd@,
        text::text_of(a.project_root) == text::text_of(b.project_root),
        a.session_id == b.session_id,
{
    let (s1, s2) = (session_bytes(a.session_id), session_bytes(b.session_id));
    let (o1, o2) = (
        option_bytes(text::text_of(a.project_root)) + s1,
        option_bytes(text::text_of(b.project_root)) + s2,
    );
    let (c1, c2) = (bytes::ended(a.cwd@) + o1, bytes::ended(b.cwd@) + o2);
    let (v1, v2) = (text::texts(a.argv@), text::texts(b.argv@));
    bytes::ends_tell_apart(a.request_id@, b.request_id@, argv_bytes(v1) + c1, argv_bytes(v2) + c2);
    argv_tells_apart(v1, v2, c1, c2);
    bytes::ends_tell_apart(a.cwd@, b.cwd@, o1, o2);
    option_tells_apart(text::text_of(a.project_root), text::text_of(b.project_root), s1, s2);
    assert(s1[0] == if a.session_id is Some { 1u8 } else { 0u8 });
    assert(s2[0] == if b.session_id is Some { 1u8 } else { 0u8 });
    if let (Some(x), Some(y)) = (a.session_id, b.session_id) {
        assert(s1.skip(1) =~= bytes::le_bytes(x@ as nat, 8));
        assert(s2.skip(1) =~= bytes::le_bytes(y@ as nat, 8));
        bytes::range_of_sixteen();
        bytes::le_round_trip(x@ as nat, 8);
        bytes::le_round_trip(y@ as nat, 8);
        session::ids_are_their_numbers(x, y);
    }
}

/// Timing, log and resource settings do not change which request a spec is:
/// two specs that agree on key, command, directory, project and session have
/// one fingerprint.
pub proof fn fingerprint_ignores_limits(a: RunSpec, b: RunSpec)
    requires
        a.request_id@ == b.request_id@,
        text::texts(a.argv@) == text::texts(b.argv@),
        a.cwd@ == b.cwd@,
        text::text_of(a.project_root) == text::text_of(b.project_root),
        a.session_id == b.session_id,
    ensures
        a.identity_bytes() == b.identity_bytes(),
        digest::blake3_hex(a.identity_bytes()) == digest::blake3_hex(b.identity_bytes()),
{
}

/// Lifecycle state. Terminal state is always `Finished`.
#[derive(Debug, Clone, Copy, PartialEq, Eq, Structural)]
pub enum RunState {
    Queued,
    Starting,
    Running,
    Stopping,
    Finished,
}

impl RunState {
    pub open spec fn name(self) -> Seq<char> {
        match self {
            RunState::Queued => "queued"@,
            RunState::Starting => "starting"@,
            RunState::Running => "running"@,
            RunState::Stopping => "stopping"@,
            RunState::Finished => "finished"@,
        }
    }

    pub fn as_str(self) -> (r: &'static str)
        ensures
            r@ == self.name(),
    {
        match self {
            RunState::Queued => "queued",
            RunState::Starting => "starting",
            RunState::Running => "running",
            RunState::Stopping => "stopping",
            RunState::Finished => "finished",
        }
    }

    pub fn parse(s: &str) -> (r: Option<Self>)
        ensures
            forall|state: RunState| #[trigger] state.name() == s@ <==> r == Some(state),
    {
        proof {
            assert forall|a: RunState, b: RunState| #[trigger] a.name() == #[trigger] b.name() implies a
                == b by {
                state_names_differ(a, b);
            }
            assert(RunState::Queued.name() == "queued"@);
            assert(RunState::Starting.name() == "starting"@);
            assert(RunState::Running.name() == "running"@);
            assert(RunState::Stopping.name() == "stopping"@);
            assert(RunState::Finished.name() == "finished"@);
        }
        if same(s, "queued") {
            Some(RunState::Queued)
        } else if same(s, "starting") {
            Some(RunState::Starting)
        } else if same(s, "running") {
            Some(RunState::Running)
        } else if same(s, "stopping") {
            Some(RunState::Stopping)
        } else if same(s, "finished") {
            Some(RunState::Finished)
        } else {
            None
        }
    }

    pub fn is_terminal(self) -> (r: bool)
        ensures
            r == (self == RunState::Finished),
    {
        self == RunState::Finished
    }
}

/// No two states share a name, so reading back the name of a state gives
/// that state.
pub proof fn state_names_differ(a: RunState, b: RunState)
    requires
        a.name() == b.name(),
    ensures
        a == b,
{
    reveal_strlit("queued");
    reveal_strlit("starting");
    reveal_strlit("running");
    reveal_strlit("stopping");
    reveal_strlit("finished");
    assert("queued"@[0] == 'q');
    assert("queued"@[2] == 'e');
    assert("starting"@[0] == 's');
    assert("starting"@[2] == 'a');
    assert("running"@[0] == 'r');
    assert("running"@[2] == 'n');
    assert("stopping"@[0] == 's');
    assert("stopping"@[2] == 'o');
    assert("finished"@[0] == 'f');
    assert("finished"@[2] == 'n');
}

/// Why a run finished. Kept separate from the exit code: a test can exit 0
/// and still leave the cleanup incomplete.
#[derive(Debug, Clone, Copy, PartialEq, Eq, Structural)]
pub enum RunOutcome {
    /// The command itself exited (any code).
    Exited,
    /// The command was killed by a signal.
    Signaled,
    /// Execution timeout expired.
    TimedOut,
    /// Cancelled by a caller or Ctrl-C.
    Cancelled,
    /// The command could not be started.
    SpawnFailed,
    /// The supervisor that owned the run went away.
    SupervisorLost,
    /// A resource limit stopped the run.
    ResourceLimit,
}

impl RunOutcome {
    pub open spec fn name(self) -> Seq<char> {
        match self {
            RunOutcome::Exited => "exited"@,
            RunOutcome::Signaled => "signaled"@,
            RunOutcome::TimedOut => "timed_out"@,
            RunOutcome::Cancelled => "cancelled"@,
            RunOutcome::SpawnFailed => "spawn_failed"@,
            RunOutcome::SupervisorLost => "supervisor_lost"@,
            RunOutcome::ResourceLimit => "resource_limit"@,
        }
    }

    pub fn as_str(self) -> (r: &'static str)
        ensures
            r@ == self.name(),
    {
        match self {
            RunOutcome::Exited => "exited",
            RunOutcome::Signaled => "signaled",
            RunOutcome::TimedOut => "timed_out",
            RunOutcome::Cancelled => "cancelled",
            RunOutcome::SpawnFailed => "spawn_failed",
            RunOutcome::SupervisorLost => "supervisor_lost",
            RunOutcome::ResourceLimit => "resource_limit",
        }
    }

    pub fn parse(s: &str) -> (r: Option<Self>)
        ensures
            forall|outcome: RunOutcome| #[trigger] outcome.name() == s@ <==> r == Some(outcome),
    {
        proof {
            assert forall|a: RunOutcome, b: RunOutcome| #[trigger] a.name() == #[trigger] b.name() implies a
                == b by {
                outcome_names_differ(a, b);
            }
            assert(RunOutcome::Exited.name() == "exited"@);
            assert(RunOutcome::Signaled.name() == "signaled"@);
            assert(RunOutcome::TimedOut.name() == "timed_out"@);
            assert(RunOutcome::Cancelled.name() == "cancelled"@);
            assert(RunOutcome::SpawnFailed.name() == "spawn_failed"@);
            assert(RunOutcome::SupervisorLost.name() == "supervisor_lost"@);
            assert(RunOutcome::ResourceLimit.name() == "resource_limit"@);
        }
        if same(s, "exited") {
            Some(RunOutcome::Exited)
        } else if same(s, "signaled") {
            Some(RunOutcome::Signaled)
        } else if same(s, "timed_out") {
            Some(RunOutcome::TimedOut)
        } else if same(s, "cancelled") {
            Some(RunOutcome::Cancelled)
        } else if same(s, "spawn_failed") {
            Some(RunOutcome::SpawnFailed)
        } else if same(s, "supervisor_lost") {
            Some(RunOutcome::SupervisorLost)
        } else if same(s, "resource_limit") {
            Some(RunOutcome::ResourceLimit)
        } else {
            None
        }
    }
}

/// No two outcomes share a name, so reading back the name of an outcome
/// gives that outcome.
pub proof fn outcome_names_differ(a: RunOutcome, b: RunOutcome)
    requires
        a.name() == b.name(),
    ensures
        a == b,
{
    reveal_strlit("exited");
    reveal_strlit("signaled");
    reveal_strlit("timed_out");
    reveal_strlit("cancelled");
    reveal_strlit("spawn_failed");
    reveal_strlit("supervisor_lost");
    reveal_strlit("resource_limit");
    assert("exited"@[0] == 'e');
    assert("exited"@[1] == 'x');
    assert("signaled"@[0] == 's');
    assert("signaled"@[1] == 'i');
    assert("timed_out"@[0] == 't');
    assert("timed_out"@[1] == 'i');
    assert("cancelled"@[0] == 'c');
    assert("cancelled"@[1] == 'a');
    assert("spawn_failed"@[0] == 's');
    assert("spawn_failed"@[1] == 'p');
    assert("supervisor_lost"@[0] == 's');
    assert("supervisor_lost"@[1] == 'u');
    assert("resource_limit"@[0] == 'r');
    assert("resource_limit"@[1] == 'e');
}

/// How completely the managed process group was cleaned up.
#[derive(Debug, Clone, Copy, PartialEq, Eq, Structural)]
pub enum CleanupState {
    /// Cleanup is still running (or has not started).
    Pending,
    /// Every process the backend could attribute to the run is gone.
    Complete,
    /// Processes attributable to the run may still exist.
    Incomplete,
    /// The backend cannot tell (identity data missing, supervisor lost).
    Unknown,
}

impl CleanupState {
    pub open spec fn name(self) -> Seq<char> {
        match self {
            CleanupState::Pending => "pending"@,
            CleanupState::Complete => "complete"@,
            CleanupState::Incomplete => "incomplete"@,
            CleanupState::Unknown => "unknown"@,
        }
    }

    pub fn as_str(self) -> (r: &'static str)
        ensures
            r@ == self.name(),
    {
        match self {
            CleanupState::Pending => "pending",
            CleanupState::Complete => "complete",
            CleanupState::Incomplete => "incomplete",
            CleanupState::Unknown => "unknown",
        }
    }

    pub fn parse(s: &str) -> (r: Option<Self>)
        ensures
            forall|cleanup: CleanupState| #[trigger] cleanup.name() == s@ <==> r == Some(cleanup),
    {
        proof {
            assert forall|a: CleanupState, b: CleanupState| #[trigger] a.name() == #[trigger] b.name() implies a
                == b by {
                cleanup_names_differ(a, b);
            }
            assert(CleanupState::Pending.name() == "pending"@);
            assert(CleanupState::Complete.name() == "complete"@);
            assert(CleanupState::Incomplete.name() == "incomplete"@);
            assert(CleanupState::Unknown.name() == "unknown"@);
        }
        if same(s, "pending") {
            Some(CleanupState::Pending)
        } else if same(s, "complete") {
            Some(CleanupState::Complete)
        } else if same(s, "incomplete") {
            Some(CleanupState::Incomplete)
        } else if same(s, "unknown") {
            Some(CleanupState::Unknown)
        } else {
            None
        }
    }
}

/// No two cleanup states share a name, so reading back the name of one gives
/// that one.
pub proof fn cleanup_names_differ(a: CleanupState, b: CleanupState)
    requires
        a.name() == b.name(),
    ensures
        a == b,
{
    reveal_strlit("pending");
    reveal_strlit("complete");
    reveal_strlit("incomplete");
    reveal_strlit("unknown");
    assert("pending"@[0] == 'p');
    assert("complete"@[0] == 'c');
    assert("incomplete"@[0] == 'i');
    assert("unknown"@[0] == 'u');
}

/// The immutable outcome of a finished run.
#[derive(Debug, Clone)]
pub struct RunResult {
    pub outcome: RunOutcome,
    pub exit_code: Option<i32>,
    pub signal: Option<i32>,
    pub started_at: Option<u64>,
    pub finished_at: u64,
    /// Wall-clock duration, for history only; deadlines use a monotonic clock.
    pub duration_ms: u64,
    pub cleanup: CleanupState,
    /// Human-readable detail for abnormal ends (spawn error, cleanup note).
    pub detail: Option<String>,
}

impl RunResult {
    pub fn copy(&self) -> (r: RunResult)
        ensures
            r == *self,
    {
        RunResult {
            outcome: self.outcome,
            exit_code: self.exit_code,
            signal: self.signal,
            started_at: self.started_at,
            finished_at: self.finished_at,
            duration_ms: self.duration_ms,
            cleanup: self.cleanup,
            detail: text::copy_opt(&self.detail),
        }
    }
}

/// A copy of an optional result.
pub fn copy_result(o: &Option<RunResult>) -> (r: Option<RunResult>)
    ensures
        r == *o,
{
    match o {
        Some(x) => Some(x.copy()),
        None => None,
    }
}

/// Per-stream log bounds and truncation markers.
#[derive(Debug, Clone, Copy, PartialEq, Eq, Structural)]
pub struct LogState {
    pub stdout_bytes: u64,
    pub stderr_bytes: u64,
    pub stdout_truncated: bool,
    pub stderr_truncated: bool,
}

impl Default for LogState {
    fn default() -> (r: Self)
        ensures
            r == (LogState {
                stdout_bytes: 0,
                stderr_bytes: 0,
                stdout_truncated: false,
                stderr_truncated: false,
            }),
    {
        LogState {
            stdout_bytes: 0,
            stderr_bytes: 0,
            stdout_truncated: false,
            stderr_truncated: false,
        }
    }
}

#[derive(Debug, Clone)]
pub enum Capability {
    /// Enforced by the OS for every run.
    Available,
    /// Observed and acted on, but not a kernel guarantee. The string says
    /// what the measurement is and what it can miss.
    Monitored(String),
    /// Not available at all; a run requiring it is refused before spawn.
    Unavailable(String),
}

/// A capability as a model.
pub enum CapabilityView {
    Available,
    Monitored(Seq<char>),
    Unavailable(Seq<char>),
}

impl View for Capability {
    type V = CapabilityView;

    open spec fn view(&self) -> CapabilityView {
        match self {
            Capability::Available => CapabilityView::Available,
            Capability::Monitored(s) => CapabilityView::Monitored(s@),
            Capability::Unavailable(s) => CapabilityView::Unavailable(s@),
        }
    }
}

impl Capability {
    pub fn unavailable(reason: &str) -> (r: Self)
        ensures
            r@ == CapabilityView::Unavailable(reason@),
    {
        Capability::Unavailable(reason.to_owned())
    }

    pub fn copy(&self) -> (r: Self)
        ensures
            r == *self,
    {
        match self {
            Capability::Available => Capability::Available,
            Capability::Monitored(s) => Capability::Monitored(s.clone()),
            Capability::Unavailable(s) => Capability::Unavailable(s.clone()),
        }
    }
}

/// What the local backend can actually guarantee, as opposed to what the
/// caller asked for. An unavailable capability is never silently ignored.
#[derive(Debug, Clone)]
pub struct BackendCapabilities {
    pub queue: Capability,
    pub process_group_cleanup: Capability,
    pub aggregate_memory_limit: Capability,
    pub cpu_quota: Capability,
    pub process_limit: Capability,
    pub filesystem_isolation: Capability,
}

impl BackendCapabilities {
    pub fn copy(&self) -> (r: Self)
        ensures
            r == *self,
    {
        BackendCapabilities {
            queue: self.queue.copy(),
            process_group_cleanup: self.process_group_cleanup.copy(),
            aggregate_memory_limit: self.aggregate_memory_limit.copy(),
            cpu_quota: self.cpu_quota.copy(),
            process_limit: self.process_limit.copy(),
            filesystem_isolation: self.filesystem_isolation.copy(),
        }
    }
}

/// The system that runs are started on.
#[derive(Debug, Clone, Copy, PartialEq, Eq, Structural)]
pub enum Platform {
    Linux,
    Macos,
}

/// Why a limit that needs cgroups is missing on a platform without one.
pub open spec fn no_cgroup_reason(platform: Platform) -> Seq<char> {
    match platform {
        Platform::Macos =>
            "macOS has no cgroup v2: a hard aggregate limit needs a VM backend, which is not implemented"@,
        Platform::Linux =>
            "no delegated cgroup v2 subtree; run wyd under a systemd unit with Delegate=yes or set WYD_CGROUP_ROOT, then restart the supervisor"@,
    }
}

/// What memory limiting amounts to: observation on macOS, a kernel limit on
/// Linux with a delegated cgroup, nothing otherwise.
pub open spec fn memory_capability_view(platform: Platform, cgroup: bool) -> CapabilityView {
    match platform {
        Platform::Macos => CapabilityView::Monitored(
            "sum of RSS over the run's process group, sampled every 200 ms: shared pages can be counted more than once and a brief peak can be missed"@,
        ),
        Platform::Linux => if cgroup {
            CapabilityView::Available
        } else {
            CapabilityView::Unavailable(
                "no delegated cgroup v2 subtree; run wyd under a systemd unit with Delegate=yes or set WYD_CGROUP_ROOT"@,
            )
        },
    }
}

/// A limit that only a delegated cgroup can give.
pub open spec fn cgroup_only(platform: Platform, cgroup: bool) -> CapabilityView {
    if cgroup {
        CapabilityView::Available
    } else {
        CapabilityView::Unavailable(no_cgroup_reason(platform))
    }
}

fn no_cgroup(platform: Platform) -> (r: Capability)
    ensures
        r@ == CapabilityView::Unavailable(no_cgroup_reason(platform)),
{
    match platform {
        Platform::Macos => Capability::unavailable(
            "macOS has no cgroup v2: a hard aggregate limit needs a VM backend, which is not implemented",
        ),
        Platform::Linux => Capability::unavailable(
            "no delegated cgroup v2 subtree; run wyd under a systemd unit with Delegate=yes or set WYD_CGROUP_ROOT, then restart the supervisor",
        ),
    }
}

/// The capabilities of a backend.
pub open spec fn backed(c: BackendCapabilities, platform: Platform, cgroup: bool) -> bool {
    &&& c.queue@ == CapabilityView::Available
    &&& c.process_group_cleanup@ == CapabilityView::Available
    &&& c.aggregate_memory_limit@ == memory_capability_view(platform, cgroup)
    &&& c.cpu_quota@ == cgroup_only(platform, cgroup)
    &&& c.process_limit@ == cgroup_only(platform, cgroup)
    &&& c.filesystem_isolation@ == CapabilityView::Unavailable(
        "runs share the host filesystem; TMPDIR is a convenience, not a sandbox"@,
    )
}

/// What can be done on this platform. The memory entry is the honest part:
/// macOS gets monitoring, not a hard limit, and says so. The reason names the
/// right platform: telling a macOS user to enable systemd delegation is noise.
/// `cgroup` says whether a delegated cgroup v2 subtree was found.
pub fn backend_capabilities(platform: Platform, cgroup: bool) -> (r: BackendCapabilities)
    ensures
        backed(r, platform, cgroup),
{
    BackendCapabilities {
        queue: Capability::Available,
        process_group_cleanup: Capability::Available,
        aggregate_memory_limit: memory_capability(platform, cgroup),
        cpu_quota: if cgroup {
            Capability::Available
        } else {
            no_cgroup(platform)
        },
        process_limit: if cgroup {
            Capability::Available
        } else {
            no_cgroup(platform)
        },
        filesystem_isolation: Capability::unavailable(
            "runs share the host filesystem; TMPDIR is a convenience, not a sandbox",
        ),
    }
}

fn memory_capability(platform: Platform, cgroup: bool) -> (r: Capability)
    ensures
        r@ == memory_capability_view(platform, cgroup),
{
    match platform {
        Platform::Macos => Capability::Monitored(
            "sum of RSS over the run's process group, sampled every 200 ms: shared pages can be counted more than once and a brief peak can be missed".to_owned(),
        ),
        Platform::Linux => if cgroup {
            Capability::Available
        } else {
            Capability::unavailable(
                "no delegated cgroup v2 subtree; run wyd under a systemd unit with Delegate=yes or set WYD_CGROUP_ROOT",
            )
        },
    }
}

/// A kernel limit is claimed only where a delegated cgroup was found, and
/// memory on macOS is never claimed to be more than observed.
pub proof fn no_hard_limit_without_cgroup(platform: Platform)
    ensures
        cgroup_only(platform, false) is Unavailable,
        memory_capability_view(platform, false) !is Available,
        memory_capability_view(Platform::Macos, true) is Monitored,
{
}

/// What the backend actually applies to a run. `requested` and `effective`
/// are both reported so a caller can see a refusal instead of guessing.
#[derive(Debug, Clone)]
pub struct EffectiveLimits {
    pub memory_bytes: Option<u64>,
    pub cpu_millicores: Option<u32>,
    pub processes: Option<u32>,
    pub enforcement: Enforcement,
    /// Where the numbers come from, e.g. "sum of RSS over the run's process
    /// group, sampled every 200 ms".
    pub metric: Option<String>,
    /// Backend that enforces (or observes) the limits.
    pub backend: String,
}

impl EffectiveLimits {
    pub fn copy(&self) -> (r: Self)
        ensures
            r == *self,
    {
        EffectiveLimits {
            memory_bytes: self.memory_bytes,
            cpu_millicores: self.cpu_millicores,
            processes: self.processes,
            enforcement: self.enforcement,
            metric: text::copy_opt(&self.metric),
            backend: self.backend.clone(),
        }
    }
}

impl Default for EffectiveLimits {
    fn default() -> (r: Self)
        ensures
            r.memory_bytes is None,
            r.cpu_millicores is None,
            r.processes is None,
            r.enforcement == Enforcement::Off,
            r.metric is None,
            r.backend@.len() == 0,
    {
        EffectiveLimits {
            memory_bytes: None,
            cpu_millicores: None,
            processes: None,
            enforcement: Enforcement::Off,
            metric: None,
            backend: String::new(),
        }
    }
}

/// One finished run plus its retained log state, as read back from storage.
#[derive(Debug, Clone)]
pub struct RunRecord {
    pub id: RunId,
    pub spec: RunSpec,
    pub state: RunState,
    pub result: Option<RunResult>,
    pub logs: LogState,
    pub revision: i64,
    pub created_at: u64,
    pub leader: Option<ProcessIdentity>,
    pub supervisor: Option<String>,
    /// What the backend applied, once the run was admitted.
    pub effective: EffectiveLimits,
    /// Milliseconds spent waiting for a slot.
    pub queue_wait_ms: u64,
    /// Last resource limit event, if any.
    pub limit_event: Option<String>,
}

/// Why a run is still queued, and how long it has waited. Deliberately no
/// exact ETA: the supervisor cannot know when a slot frees.
#[derive(Debug, Clone)]
pub struct QueueInfo {
    pub position: Option<usize>,
    pub waiting_ms: u64,
    pub reason: Option<String>,
}

impl QueueInfo {
    pub fn copy(&self) -> (r: Self)
        ensures
            r == *self,
    {
        QueueInfo {
            position: self.position,
            waiting_ms: self.waiting_ms,
            reason: text::copy_opt(&self.reason),
        }
    }
}

/// One queued request as a capacity report shows it.
#[derive(Debug, Clone)]
pub struct QueueEntry {
    pub run_id: String,
    pub project: String,
    pub position: usize,
    pub waiting_ms: u64,
    pub memory_bytes: u64,
    pub reason: String,
}

/// Per-project slot and reservation usage.
#[derive(Debug, Clone)]
pub struct ProjectUsage {
    pub project: String,
    pub running: usize,
    pub reserved_memory_bytes: u64,
}

/// Admission limits in force. A temporary exceedance after a config change is
/// reported, never hidden.
#[derive(Debug, Clone, Copy, PartialEq, Eq, Structural)]
pub struct LimitSummary {
    pub max_parallel: usize,
    pub max_parallel_per_project: usize,
    pub max_queued: usize,
    pub queue_timeout_secs: u64,
    pub memory_budget_bytes: u64,
    pub default_run_memory_bytes: u64,
    pub starvation_after_secs: u64,
    pub cpu_budget_millicores: Option<u32>,
    pub pids_budget: Option<u32>,
}

/// Read-only view of what the supervisor can admit right now.
#[derive(Debug, Clone)]
pub struct Capacity {
    pub limits: LimitSummary,
    pub running: usize,
    pub queued: usize,
    pub slots_free: usize,
    /// Sum of reservations held by runs that have not released them. This is
    /// reserved budget, not measured RAM.
    pub reserved_memory_bytes: u64,
    pub projects: Vec<ProjectUsage>,
    pub queue: Vec<QueueEntry>,
    /// `true` when runs already admitted exceed a newly lowered limit. The
    /// current runs are not killed for it; the UI says so instead.
    pub over_parallel_limit: bool,
    /// Kernel-enforced aggregate caps shared by every run, when the backend
    /// has them. Distinct from the admission budget.
    pub aggregate_memory_max_bytes: Option<u64>,
    pub aggregate_cpu_millicores: Option<u32>,
    pub aggregate_pids_max: Option<u32>,
    /// How `reserved_memory_bytes` is defined, so nobody reads it as usage.
    pub reservation_note: String,
    pub capabilities: BackendCapabilities,
}

} // verus!

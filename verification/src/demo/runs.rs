//! The managed runs of the demonstration dataset. Nothing here starts,
//! signals or inspects a process.

use crate::bytes;
use crate::classify::group;
use crate::classify::group::sat_add;
use crate::demo::items;
use crate::demo::items::words;
use crate::demo::sessions;
use crate::demo::sessions::{before_now, stable_id};
use crate::model::run;
use crate::model::run::{
    backend_capabilities, Capacity, CleanupState,
    EffectiveLimits, Enforcement, LimitSummary, LogState, Platform, ProjectUsage, QueueEntry,
    QueueInfo, ResourceRequest, RunOutcome, RunState,
};
use crate::runner::logs::Stream;
use crate::runner::run::RunView;
use crate::runner::scheduler::Limits;
use crate::sorting;
use crate::sorting::{sort, Keyed};
use crate::text;
use crate::text::{any_same, dec_of_int, hex_of, owned_opt, same};
use vstd::prelude::*;

verus! {

/// How many runs there are.
pub const RUNS: usize = 8;

/// Reservation of a run that asks for no particular amount.
pub const DEFAULT_RUN_MEMORY_BYTES: u64 = 512 * 1024 * 1024;

/// One run of the dataset. Times are kept as offsets from the clock.
#[derive(Debug, Clone, Copy)]
pub struct DemoRun {
    pub id: i64,
    pub request_id: &'static str,
    pub cwd: &'static str,
    pub project_root: &'static str,
    pub session_seed: Option<&'static str>,
    pub state: RunState,
    pub outcome: Option<RunOutcome>,
    pub exit_code: Option<i32>,
    pub signal: Option<i32>,
    pub cleanup: CleanupState,
    pub ago_created: u64,
    pub ago_started: Option<u64>,
    pub ago_finished: Option<u64>,
    pub duration_ms: Option<u64>,
    pub detail: Option<&'static str>,
    pub stdout: &'static str,
    pub stderr: &'static str,
    /// Reserved against the memory budget; none takes the default. A
    /// reservation is a budget, never measured memory.
    pub memory_bytes: Option<u64>,
    pub enforcement: Enforcement,
    /// Present only while the request waits for a slot.
    pub queue_position: Option<usize>,
    pub queue_reason: Option<&'static str>,
    /// Measurement of the run's process group, apart from the reservation.
    pub observed_memory_bytes: Option<u64>,
    pub observed_processes: Option<usize>,
    pub limit_event: Option<&'static str>,
}

/// The runs, newest first: two live, one queued, and one for each way to end.
pub open spec fn row(i: int) -> DemoRun {
    if i == 0 {
        DemoRun {
            id: 412,
            request_id: "run-7f3a-web-tests",
            cwd: "/Users/me/Work/wyd",
            project_root: "/Users/me/Work/wyd",
            session_seed: Some("demo.opencode.wyd"),
            state: RunState::Running,
            outcome: None,
            exit_code: None,
            signal: None,
            cleanup: CleanupState::Pending,
            ago_created: 12,
            ago_started: Some(11),
            ago_finished: None,
            duration_ms: None,
            detail: None,
            stdout: "web: running 3 test files...\nweb: PASS src/app.test.ts\n",
            stderr: "",
            memory_bytes: None,
            enforcement: Enforcement::Monitored,
            queue_position: None,
            queue_reason: None,
            observed_memory_bytes: Some(188_743_680),
            observed_processes: Some(4),
            limit_event: None,
        }
    } else if i == 1 {
        DemoRun {
            id: 407,
            request_id: "run-b5d2-nextest",
            cwd: "/Users/me/Work/wyd",
            project_root: "/Users/me/Work/wyd",
            session_seed: Some("demo.codex.wyd"),
            state: RunState::Queued,
            outcome: None,
            exit_code: None,
            signal: None,
            cleanup: CleanupState::Pending,
            ago_created: 45,
            ago_started: None,
            ago_finished: None,
            duration_ms: None,
            detail: Some("waiting for a slot"),
            stdout: "",
            stderr: "",
            memory_bytes: Some(536_870_912),
            enforcement: Enforcement::Off,
            queue_position: Some(1),
            queue_reason: Some("project /Users/me/Work/wyd is at its 2-run limit"),
            observed_memory_bytes: None,
            observed_processes: None,
            limit_event: None,
        }
    } else if i == 2 {
        DemoRun {
            id: 405,
            request_id: "run-3e8d-dev-server",
            cwd: "/Users/me/Work/wyd",
            project_root: "/Users/me/Work/wyd",
            session_seed: Some("demo.opencode.wyd"),
            state: RunState::Running,
            outcome: None,
            exit_code: None,
            signal: None,
            cleanup: CleanupState::Pending,
            ago_created: 300,
            ago_started: Some(299),
            ago_finished: None,
            duration_ms: None,
            detail: None,
            stdout: "vite v6.0.0  ready in 412 ms\n  ➜  Local:   http://localhost:5173/\n",
            stderr: "",
            memory_bytes: None,
            enforcement: Enforcement::Monitored,
            queue_position: None,
            queue_reason: None,
            observed_memory_bytes: Some(402_653_184),
            observed_processes: Some(7),
            limit_event: None,
        }
    } else if i == 3 {
        DemoRun {
            id: 411,
            request_id: "run-2c9b-nextest",
            cwd: "/Users/me/Work/api",
            project_root: "/Users/me/Work/api",
            session_seed: Some("demo.codex.api"),
            state: RunState::Finished,
            outcome: Some(RunOutcome::Exited),
            exit_code: Some(0),
            signal: None,
            cleanup: CleanupState::Complete,
            ago_created: 900,
            ago_started: Some(899),
            ago_finished: Some(858),
            duration_ms: Some(41_300),
            detail: None,
            stdout: "   Compiling api v0.9.0\n    Finished test [ 41.2s]\n",
            stderr: "",
            memory_bytes: None,
            enforcement: Enforcement::Off,
            queue_position: None,
            queue_reason: None,
            observed_memory_bytes: None,
            observed_processes: None,
            limit_event: None,
        }
    } else if i == 4 {
        DemoRun {
            id: 406,
            request_id: "run-77a1-site-build",
            cwd: "/Users/me/Work/site",
            project_root: "/Users/me/Work/site",
            session_seed: Some("demo.cursor.site"),
            state: RunState::Finished,
            outcome: Some(RunOutcome::ResourceLimit),
            exit_code: Some(137),
            signal: Some(9),
            cleanup: CleanupState::Complete,
            ago_created: 1800,
            ago_started: Some(1799),
            ago_finished: Some(1710),
            duration_ms: Some(89_000),
            detail: Some("stopped by the monitored memory threshold"),
            stdout: "building site...\n",
            stderr: "memory threshold crossed; stopping process group\n",
            memory_bytes: Some(268_435_456),
            enforcement: Enforcement::Monitored,
            queue_position: None,
            queue_reason: None,
            observed_memory_bytes: Some(298_844_160),
            observed_processes: Some(6),
            limit_event: Some(
                "observed 285.0 MiB over the 256 MiB monitored threshold (sum of RSS over the process group, sampled every 200 ms); run stopped",
            ),
        }
    } else if i == 5 {
        DemoRun {
            id: 410,
            request_id: "run-91de-e2e",
            cwd: "/Users/me/Work/site",
            project_root: "/Users/me/Work/site",
            session_seed: Some("demo.cursor.site"),
            state: RunState::Finished,
            outcome: Some(RunOutcome::TimedOut),
            exit_code: None,
            signal: Some(15),
            cleanup: CleanupState::Complete,
            ago_created: 3600,
            ago_started: Some(3599),
            ago_finished: Some(3479),
            duration_ms: Some(120_000),
            detail: Some("exceeded 120s timeout; process group terminated"),
            stdout: "running e2e suite...\n",
            stderr: "timeout: no progress after 120s\n",
            memory_bytes: None,
            enforcement: Enforcement::Off,
            queue_position: None,
            queue_reason: None,
            observed_memory_bytes: None,
            observed_processes: None,
            limit_event: None,
        }
    } else if i == 6 {
        DemoRun {
            id: 409,
            request_id: "run-4a17-http",
            cwd: "/Users/me/Work/docs",
            project_root: "/Users/me/Work/docs",
            session_seed: Some("demo.aider.docs"),
            state: RunState::Finished,
            outcome: Some(RunOutcome::Cancelled),
            exit_code: None,
            signal: Some(15),
            cleanup: CleanupState::Complete,
            ago_created: 7200,
            ago_started: Some(7199),
            ago_finished: Some(7180),
            duration_ms: Some(19_000),
            detail: Some("cancelled by operator"),
            stdout: "Serving HTTP on 127.0.0.1 port 8080...\n",
            stderr: "",
            memory_bytes: None,
            enforcement: Enforcement::Off,
            queue_position: None,
            queue_reason: None,
            observed_memory_bytes: None,
            observed_processes: None,
            limit_event: None,
        }
    } else {
        DemoRun {
            id: 408,
            request_id: "run-e08c-migrate",
            cwd: "/Users/me/Work/notes",
            project_root: "/Users/me/Work/notes",
            session_seed: None,
            state: RunState::Finished,
            outcome: Some(RunOutcome::SpawnFailed),
            exit_code: None,
            signal: None,
            cleanup: CleanupState::Unknown,
            ago_created: 86_400,
            ago_started: None,
            ago_finished: Some(86_400),
            duration_ms: Some(0),
            detail: Some("No such file or directory (os error 2)"),
            stdout: "",
            stderr: "",
            memory_bytes: None,
            enforcement: Enforcement::Off,
            queue_position: None,
            queue_reason: None,
            observed_memory_bytes: None,
            observed_processes: None,
            limit_event: None,
        }
    }
}

fn row_at(i: usize) -> (r: DemoRun)
    ensures
        r == row(i as int),
{
    if i == 0 {
        DemoRun {
            id: 412,
            request_id: "run-7f3a-web-tests",
            cwd: "/Users/me/Work/wyd",
            project_root: "/Users/me/Work/wyd",
            session_seed: Some("demo.opencode.wyd"),
            state: RunState::Running,
            outcome: None,
            exit_code: None,
            signal: None,
            cleanup: CleanupState::Pending,
            ago_created: 12,
            ago_started: Some(11),
            ago_finished: None,
            duration_ms: None,
            detail: None,
            stdout: "web: running 3 test files...\nweb: PASS src/app.test.ts\n",
            stderr: "",
            memory_bytes: None,
            enforcement: Enforcement::Monitored,
            queue_position: None,
            queue_reason: None,
            observed_memory_bytes: Some(188_743_680),
            observed_processes: Some(4),
            limit_event: None,
        }
    } else if i == 1 {
        DemoRun {
            id: 407,
            request_id: "run-b5d2-nextest",
            cwd: "/Users/me/Work/wyd",
            project_root: "/Users/me/Work/wyd",
            session_seed: Some("demo.codex.wyd"),
            state: RunState::Queued,
            outcome: None,
            exit_code: None,
            signal: None,
            cleanup: CleanupState::Pending,
            ago_created: 45,
            ago_started: None,
            ago_finished: None,
            duration_ms: None,
            detail: Some("waiting for a slot"),
            stdout: "",
            stderr: "",
            memory_bytes: Some(536_870_912),
            enforcement: Enforcement::Off,
            queue_position: Some(1),
            queue_reason: Some("project /Users/me/Work/wyd is at its 2-run limit"),
            observed_memory_bytes: None,
            observed_processes: None,
            limit_event: None,
        }
    } else if i == 2 {
        DemoRun {
            id: 405,
            request_id: "run-3e8d-dev-server",
            cwd: "/Users/me/Work/wyd",
            project_root: "/Users/me/Work/wyd",
            session_seed: Some("demo.opencode.wyd"),
            state: RunState::Running,
            outcome: None,
            exit_code: None,
            signal: None,
            cleanup: CleanupState::Pending,
            ago_created: 300,
            ago_started: Some(299),
            ago_finished: None,
            duration_ms: None,
            detail: None,
            stdout: "vite v6.0.0  ready in 412 ms\n  ➜  Local:   http://localhost:5173/\n",
            stderr: "",
            memory_bytes: None,
            enforcement: Enforcement::Monitored,
            queue_position: None,
            queue_reason: None,
            observed_memory_bytes: Some(402_653_184),
            observed_processes: Some(7),
            limit_event: None,
        }
    } else if i == 3 {
        DemoRun {
            id: 411,
            request_id: "run-2c9b-nextest",
            cwd: "/Users/me/Work/api",
            project_root: "/Users/me/Work/api",
            session_seed: Some("demo.codex.api"),
            state: RunState::Finished,
            outcome: Some(RunOutcome::Exited),
            exit_code: Some(0),
            signal: None,
            cleanup: CleanupState::Complete,
            ago_created: 900,
            ago_started: Some(899),
            ago_finished: Some(858),
            duration_ms: Some(41_300),
            detail: None,
            stdout: "   Compiling api v0.9.0\n    Finished test [ 41.2s]\n",
            stderr: "",
            memory_bytes: None,
            enforcement: Enforcement::Off,
            queue_position: None,
            queue_reason: None,
            observed_memory_bytes: None,
            observed_processes: None,
            limit_event: None,
        }
    } else if i == 4 {
        DemoRun {
            id: 406,
            request_id: "run-77a1-site-build",
            cwd: "/Users/me/Work/site",
            project_root: "/Users/me/Work/site",
            session_seed: Some("demo.cursor.site"),
            state: RunState::Finished,
            outcome: Some(RunOutcome::ResourceLimit),
            exit_code: Some(137),
            signal: Some(9),
            cleanup: CleanupState::Complete,
            ago_created: 1800,
            ago_started: Some(1799),
            ago_finished: Some(1710),
            duration_ms: Some(89_000),
            detail: Some("stopped by the monitored memory threshold"),
            stdout: "building site...\n",
            stderr: "memory threshold crossed; stopping process group\n",
            memory_bytes: Some(268_435_456),
            enforcement: Enforcement::Monitored,
            queue_position: None,
            queue_reason: None,
            observed_memory_bytes: Some(298_844_160),
            observed_processes: Some(6),
            limit_event: Some(
                "observed 285.0 MiB over the 256 MiB monitored threshold (sum of RSS over the process group, sampled every 200 ms); run stopped",
            ),
        }
    } else if i == 5 {
        DemoRun {
            id: 410,
            request_id: "run-91de-e2e",
            cwd: "/Users/me/Work/site",
            project_root: "/Users/me/Work/site",
            session_seed: Some("demo.cursor.site"),
            state: RunState::Finished,
            outcome: Some(RunOutcome::TimedOut),
            exit_code: None,
            signal: Some(15),
            cleanup: CleanupState::Complete,
            ago_created: 3600,
            ago_started: Some(3599),
            ago_finished: Some(3479),
            duration_ms: Some(120_000),
            detail: Some("exceeded 120s timeout; process group terminated"),
            stdout: "running e2e suite...\n",
            stderr: "timeout: no progress after 120s\n",
            memory_bytes: None,
            enforcement: Enforcement::Off,
            queue_position: None,
            queue_reason: None,
            observed_memory_bytes: None,
            observed_processes: None,
            limit_event: None,
        }
    } else if i == 6 {
        DemoRun {
            id: 409,
            request_id: "run-4a17-http",
            cwd: "/Users/me/Work/docs",
            project_root: "/Users/me/Work/docs",
            session_seed: Some("demo.aider.docs"),
            state: RunState::Finished,
            outcome: Some(RunOutcome::Cancelled),
            exit_code: None,
            signal: Some(15),
            cleanup: CleanupState::Complete,
            ago_created: 7200,
            ago_started: Some(7199),
            ago_finished: Some(7180),
            duration_ms: Some(19_000),
            detail: Some("cancelled by operator"),
            stdout: "Serving HTTP on 127.0.0.1 port 8080...\n",
            stderr: "",
            memory_bytes: None,
            enforcement: Enforcement::Off,
            queue_position: None,
            queue_reason: None,
            observed_memory_bytes: None,
            observed_processes: None,
            limit_event: None,
        }
    } else {
        DemoRun {
            id: 408,
            request_id: "run-e08c-migrate",
            cwd: "/Users/me/Work/notes",
            project_root: "/Users/me/Work/notes",
            session_seed: None,
            state: RunState::Finished,
            outcome: Some(RunOutcome::SpawnFailed),
            exit_code: None,
            signal: None,
            cleanup: CleanupState::Unknown,
            ago_created: 86_400,
            ago_started: None,
            ago_finished: Some(86_400),
            duration_ms: Some(0),
            detail: Some("No such file or directory (os error 2)"),
            stdout: "",
            stderr: "",
            memory_bytes: None,
            enforcement: Enforcement::Off,
            queue_position: None,
            queue_reason: None,
            observed_memory_bytes: None,
            observed_processes: None,
            limit_event: None,
        }
    }
}

/// The command of a run.
pub open spec fn argv_of(i: int) -> Seq<Seq<char>> {
    if i == 0 {
        seq!["pnpm"@, "test"@, "--filter"@, "web"@]
    } else if i == 1 {
        seq!["cargo"@, "nextest"@, "run"@, "--workspace"@]
    } else if i == 2 {
        seq!["pnpm"@, "run"@, "dev"@]
    } else if i == 3 {
        seq!["cargo"@, "nextest"@, "run"@]
    } else if i == 4 {
        seq!["node"@, "--max-old-space-size=256"@, "./scripts/build.mjs"@]
    } else if i == 5 {
        seq!["npm"@, "run"@, "e2e"@]
    } else if i == 6 {
        seq!["python"@, "-m"@, "http.server"@, "8080"@]
    } else {
        seq!["./scripts/migrate.sh"@]
    }
}

fn argv_at(i: usize) -> (r: Vec<String>)
    ensures
        text::texts(r@) == argv_of(i as int),
{
    let r: Vec<String> = if i == 0 {
        words(&["pnpm", "test", "--filter", "web"])
    } else if i == 1 {
        words(&["cargo", "nextest", "run", "--workspace"])
    } else if i == 2 {
        words(&["pnpm", "run", "dev"])
    } else if i == 3 {
        words(&["cargo", "nextest", "run"])
    } else if i == 4 {
        words(&["node", "--max-old-space-size=256", "./scripts/build.mjs"])
    } else if i == 5 {
        words(&["npm", "run", "e2e"])
    } else if i == 6 {
        words(&["python", "-m", "http.server", "8080"])
    } else {
        words(&["./scripts/migrate.sh"])
    };
    assert(text::texts(r@) =~= argv_of(i as int));
    r
}

// ---------------------------------------------------------------------------
// Views
// ---------------------------------------------------------------------------

pub open spec fn words_of(o: Option<&'static str>) -> Option<Seq<char>> {
    match o {
        Some(s) => Some(s@),
        None => None,
    }
}

pub open spec fn ago_of(now: u64, o: Option<u64>) -> Option<u64> {
    match o {
        Some(secs) => Some(items::ago(now, secs)),
        None => None,
    }
}

fn then_of(now: u64, o: Option<u64>) -> (r: Option<u64>)
    ensures
        r == ago_of(now, o),
{
    match o {
        Some(secs) => Some(before_now(now, secs)),
        None => None,
    }
}

pub open spec fn reservation(r: DemoRun) -> u64 {
    match r.memory_bytes {
        Some(m) => m,
        None => DEFAULT_RUN_MEMORY_BYTES,
    }
}

fn demo_memory(r: &DemoRun) -> (m: u64)
    ensures
        m == reservation(*r),
{
    match r.memory_bytes {
        Some(m) => m,
        None => DEFAULT_RUN_MEMORY_BYTES,
    }
}

pub open spec fn waited(r: DemoRun) -> u64 {
    if r.state == RunState::Queued {
        (r.ago_created * 1000) as u64
    } else {
        0
    }
}

/// What a view shows of a run's identity and command.
pub open spec fn shows_request(v: RunView, i: int) -> bool {
    let r = row(i);
    &&& v.run_id@ == text::dec_int(r.id as int)
    &&& v.request_id@ == r.request_id@
    &&& text::texts(v.argv@) == argv_of(i)
    &&& v.cwd@ == r.cwd@
    &&& text::text_of(v.project_root) == Some(r.project_root@)
    &&& text::text_of(v.session_id) == match r.session_seed {
        Some(s) => Some(text::hex_fixed(sessions::stable(s@) as nat, 16)),
        None => None,
    }
    &&& v.requested == (ResourceRequest {
        memory_bytes: r.memory_bytes,
        cpu_millicores: None,
        processes: None,
        enforcement: r.enforcement,
        queue_timeout: None,
    })
    &&& v.effective.memory_bytes == Some(reservation(r))
    &&& v.effective.cpu_millicores is None
    &&& v.effective.processes is None
    &&& v.effective.enforcement == r.enforcement
    &&& text::text_of(v.effective.metric) == if r.enforcement == Enforcement::Monitored {
        Some(
            "sum of RSS over the run's process group, sampled every 200 ms; shared pages can be counted more than once"@,
        )
    } else {
        None
    }
    &&& v.effective.backend@ == "process_group"@
    &&& text::text_of(v.supervisor) == Some("demo:0"@)
}

/// What a view shows of what was measured.
pub open spec fn shows_measures(v: RunView, i: int, platform: Platform, cgroup: bool) -> bool {
    let r = row(i);
    &&& v.exit_code == r.exit_code
    &&& v.logs == (LogState {
        stdout_bytes: bytes::utf8(r.stdout@).len() as u64,
        stderr_bytes: bytes::utf8(r.stderr@).len() as u64,
        stdout_truncated: false,
        stderr_truncated: false,
    })
    &&& v.queue.position == r.queue_position
    &&& v.queue.waiting_ms == waited(r)
    &&& text::text_of(v.queue.reason) == words_of(r.queue_reason)
    &&& v.observed_memory_bytes == r.observed_memory_bytes
    &&& v.observed_processes == r.observed_processes
    &&& text::text_of(v.limit_event) == words_of(r.limit_event)
    &&& run::backed(v.capabilities, platform, cgroup)
    &&& v.events@.len() == 0
}

/// What a view shows of where a run stands.
pub open spec fn shows_state(v: RunView, i: int, now: u64) -> bool {
    let r = row(i);
    &&& v.state == r.state
    &&& v.outcome == r.outcome
    &&& v.signal == r.signal
    &&& v.cleanup == r.cleanup
    &&& v.revision == if r.state == RunState::Finished {
        4int
    } else {
        2
    }
    &&& v.finished_at == ago_of(now, r.ago_finished)
    &&& v.duration_ms == r.duration_ms
    &&& text::text_of(v.detail) == words_of(r.detail)
}

pub open spec fn shows_times(v: RunView, i: int, now: u64) -> bool {
    &&& v.created_at == items::ago(now, row(i).ago_created)
    &&& v.started_at == ago_of(now, row(i).ago_started)
}

/// A view of a run of the dataset.
pub open spec fn shows(v: RunView, i: int, now: u64, platform: Platform, cgroup: bool) -> bool {
    &&& shows_request(v, i)
    &&& shows_measures(v, i, platform, cgroup)
    &&& shows_times(v, i, now)
    &&& shows_state(v, i, now)
}

proof fn short_waits(i: int)
    ensures
        row(i).ago_created <= 100_000,
{
}

fn demo_view(i: usize, now: u64, platform: Platform, cgroup: bool) -> (v: RunView)
    ensures
        shows(v, i as int, now, platform, cgroup),
{
    let r: DemoRun = row_at(i);
    proof {
        short_waits(i as int);
    }
    let session_id: Option<String> = match r.session_seed {
        Some(s) => Some(hex_of(stable_id(s) as u128, 16)),
        None => None,
    };
    let metric: Option<String> = if r.enforcement == Enforcement::Monitored {
        Some(
            "sum of RSS over the run's process group, sampled every 200 ms; shared pages can be counted more than once".to_owned(),
        )
    } else {
        None
    };
    let waiting_ms: u64 = if r.state == RunState::Queued {
        r.ago_created * 1000
    } else {
        0
    };
    RunView {
        run_id: dec_of_int(r.id),
        request_id: r.request_id.to_owned(),
        argv: argv_at(i),
        cwd: r.cwd.to_owned(),
        project_root: Some(r.project_root.to_owned()),
        session_id,
        state: r.state,
        outcome: r.outcome,
        exit_code: r.exit_code,
        signal: r.signal,
        cleanup: r.cleanup,
        revision: if r.state.is_terminal() {
            4
        } else {
            2
        },
        created_at: before_now(now, r.ago_created),
        started_at: then_of(now, r.ago_started),
        finished_at: then_of(now, r.ago_finished),
        duration_ms: r.duration_ms,
        detail: owned_opt(r.detail),
        logs: LogState {
            stdout_bytes: r.stdout.as_bytes().len() as u64,
            stderr_bytes: r.stderr.as_bytes().len() as u64,
            stdout_truncated: false,
            stderr_truncated: false,
        },
        requested: ResourceRequest {
            memory_bytes: r.memory_bytes,
            cpu_millicores: None,
            processes: None,
            enforcement: r.enforcement,
            queue_timeout: None,
        },
        effective: EffectiveLimits {
            memory_bytes: Some(demo_memory(&r)),
            cpu_millicores: None,
            processes: None,
            enforcement: r.enforcement,
            metric,
            backend: "process_group".to_owned(),
        },
        queue: QueueInfo {
            position: r.queue_position,
            waiting_ms,
            reason: owned_opt(r.queue_reason),
        },
        observed_memory_bytes: r.observed_memory_bytes,
        observed_processes: r.observed_processes,
        limit_event: owned_opt(r.limit_event),
        supervisor: Some("demo:0".to_owned()),
        capabilities: backend_capabilities(platform, cgroup),
        events: Vec::new(),
    }
}

/// The runs, newest first.
pub fn runs(now: u64, platform: Platform, cgroup: bool) -> (r: Vec<RunView>)
    ensures
        r@.len() == RUNS,
        forall|i: int| 0 <= i < RUNS ==> shows(#[trigger] r@[i], i, now, platform, cgroup),
{
    let mut r: Vec<RunView> = Vec::new();
    let mut i: usize = 0;
    while i < RUNS
        invariant
            i <= RUNS,
            r@.len() == i,
            forall|k: int| 0 <= k < i ==> shows(#[trigger] r@[k], k, now, platform, cgroup),
        decreases RUNS - i,
    {
        r.push(demo_view(i, now, platform, cgroup));
        i += 1;
    }
    r
}

/// The place of the run with an id, from `i` on.
pub open spec fn place(id: i64, i: int) -> Option<int>
    decreases RUNS - i,
{
    if i >= RUNS {
        None
    } else if row(i).id == id {
        Some(i)
    } else {
        place(id, i + 1)
    }
}

fn find(id: i64) -> (r: Option<usize>)
    ensures
        match r {
            Some(i) => place(id, 0) == Some(i as int) && i < RUNS,
            None => place(id, 0) is None,
        },
{
    let mut i: usize = 0;
    while i < RUNS
        invariant
            i <= RUNS,
            place(id, 0) == place(id, i as int),
        decreases RUNS - i,
    {
        if row_at(i).id == id {
            return Some(i);
        }
        i += 1;
    }
    None
}

/// The run with an id.
pub fn run(id: i64, now: u64, platform: Platform, cgroup: bool) -> (r: Option<RunView>)
    ensures
        match place(id, 0) {
            Some(i) => r is Some && shows(r->Some_0, i, now, platform, cgroup),
            None => r is None,
        },
{
    match find(id) {
        Some(i) => Some(demo_view(i, now, platform, cgroup)),
        None => None,
    }
}

/// What a cancelled view shows: a run that had ended is unchanged.
pub open spec fn shows_cancelled(v: RunView, i: int, now: u64) -> bool {
    let r = row(i);
    if r.state == RunState::Finished {
        shows_state(v, i, now)
    } else {
        let started = match r.ago_started {
            Some(secs) => items::ago(now, secs),
            None => now,
        };
        &&& v.state == RunState::Finished
        &&& v.outcome == Some(RunOutcome::Cancelled)
        &&& v.signal == Some(15i32)
        &&& v.cleanup == CleanupState::Complete
        &&& v.revision == 3
        &&& v.finished_at == Some(now)
        &&& v.duration_ms == Some(millis(now, started))
        &&& text::text_of(v.detail) == Some("cancelled by operator (demo)"@)
    }
}

/// The time between two moments in milliseconds, the largest number where it
/// exceeds that.
pub open spec fn millis(now: u64, started: u64) -> u64 {
    let ms = if now >= started {
        (now - started) * 1000
    } else {
        0
    };
    if ms <= u64::MAX {
        ms as u64
    } else {
        u64::MAX
    }
}

fn millis_between(now: u64, started: u64) -> (r: u64)
    ensures
        r == millis(now, started),
{
    let secs: u64 = before_now(now, started);
    if secs <= u64::MAX / 1000 {
        secs * 1000
    } else {
        u64::MAX
    }
}

/// A simulated cancel: the view is computed anew as cancelled, and nothing on
/// the host is touched.
pub fn cancel_run(id: i64, now: u64, platform: Platform, cgroup: bool) -> (r: Option<RunView>)
    ensures
        match place(id, 0) {
            Some(i) => {
                &&& r is Some
                &&& shows_request(r->Some_0, i)
                &&& shows_measures(r->Some_0, i, platform, cgroup)
                &&& shows_times(r->Some_0, i, now)
                &&& shows_cancelled(r->Some_0, i, now)
            },
            None => r is None,
        },
{
    let i: usize = match find(id) {
        Some(i) => i,
        None => {
            return None;
        },
    };
    let mut v: RunView = demo_view(i, now, platform, cgroup);
    if !v.state.is_terminal() {
        let started: u64 = match v.started_at {
            Some(t) => t,
            None => now,
        };
        v.state = RunState::Finished;
        v.outcome = Some(RunOutcome::Cancelled);
        v.signal = Some(15);
        v.cleanup = CleanupState::Complete;
        v.finished_at = Some(now);
        v.duration_ms = Some(millis_between(now, started));
        v.revision = v.revision + 1;
        v.detail = Some("cancelled by operator (demo)".to_owned());
    }
    Some(v)
}

// ---------------------------------------------------------------------------
// Output
// ---------------------------------------------------------------------------

/// A piece of a run's output.
#[derive(Debug, Clone)]
pub struct DemoChunk {
    pub stream: Stream,
    pub data: Vec<u8>,
    pub next_cursor: usize,
    pub truncated: bool,
    pub eof: bool,
}

pub open spec fn output_of(r: DemoRun, stream: Stream) -> Seq<u8> {
    match stream {
        Stream::Stdout => bytes::utf8(r.stdout@),
        Stream::Stderr => bytes::utf8(r.stderr@),
    }
}

pub open spec fn least(a: int, b: int) -> int {
    if a <= b {
        a
    } else {
        b
    }
}

/// A piece of a run's output, from a cursor on.
pub fn run_output(id: i64, stream: Stream, cursor: u64, max_bytes: usize) -> (r: Option<DemoChunk>)
    ensures
        match place(id, 0) {
            Some(i) => {
                let all = output_of(row(i), stream);
                let start = least(cursor as int, all.len() as int);
                let end = least(start + max_bytes, all.len() as int);
                &&& r is Some
                &&& r->Some_0.stream == stream
                &&& r->Some_0.data@ == all.subrange(start, end)
                &&& r->Some_0.next_cursor == end
                &&& !r->Some_0.truncated
                &&& r->Some_0.eof == (end >= all.len())
            },
            None => r is None,
        },
{
    let i: usize = match find(id) {
        Some(i) => i,
        None => {
            return None;
        },
    };
    let run: DemoRun = row_at(i);
    let text: &'static str = match stream {
        Stream::Stdout => run.stdout,
        Stream::Stderr => run.stderr,
    };
    let all: &[u8] = text.as_bytes();
    let len: usize = all.len();
    let start: usize = if cursor <= len as u64 {
        cursor as usize
    } else {
        len
    };
    let end: usize = if max_bytes <= len - start {
        start + max_bytes
    } else {
        len
    };
    let mut data: Vec<u8> = Vec::new();
    let mut k: usize = start;
    assert(data@ =~= all@.subrange(start as int, start as int));
    while k < end
        invariant
            start <= k <= end <= all@.len(),
            data@ == all@.subrange(start as int, k as int),
        decreases end - k,
    {
        data.push(all[k]);
        assert(all@.subrange(start as int, k + 1) =~= all@.subrange(start as int, k as int).push(
            all@[k as int],
        ));
        k += 1;
    }
    Some(DemoChunk { stream, data, next_cursor: end, truncated: false, eof: end >= len })
}

// ---------------------------------------------------------------------------
// Capacity
// ---------------------------------------------------------------------------

/// The places of the first `n` runs that are in a state.
pub open spec fn in_state(state: RunState, n: nat) -> Seq<int>
    decreases n,
{
    if n == 0 {
        Seq::empty()
    } else {
        let rest = in_state(state, (n - 1) as nat);
        if row(n - 1).state == state {
            rest.push(n - 1)
        } else {
            rest
        }
    }
}

/// The memory that runs hold.
pub open spec fn held(list: Seq<int>) -> u64
    decreases list.len(),
{
    if list.len() == 0 {
        0
    } else {
        group::sat(held(list.drop_last()), reservation(row(list.last())))
    }
}

/// The projects of runs, each once.
pub open spec fn projects_of(list: Seq<int>) -> Seq<Seq<char>>
    decreases list.len(),
{
    if list.len() == 0 {
        Seq::empty()
    } else {
        let rest = projects_of(list.drop_last());
        let p = row(list.last()).project_root@;
        if rest.contains(p) {
            rest
        } else {
            rest.push(p)
        }
    }
}

/// The runs of a project.
pub open spec fn of_project(list: Seq<int>, project: Seq<char>) -> Seq<int>
    decreases list.len(),
{
    if list.len() == 0 {
        Seq::empty()
    } else {
        let rest = of_project(list.drop_last(), project);
        if row(list.last()).project_root@ == project {
            rest.push(list.last())
        } else {
            rest
        }
    }
}

#[verifier::ext_equal]
pub struct UsageModel {
    pub project: Seq<char>,
    pub running: nat,
    pub reserved: u64,
}

impl Keyed for ProjectUsage {
    type Model = UsageModel;

    open spec fn modelled(self) -> UsageModel {
        UsageModel {
            project: self.project@,
            running: self.running as nat,
            reserved: self.reserved_memory_bytes,
        }
    }

    open spec fn key(m: UsageModel) -> Seq<char> {
        m.project
    }

    fn sort_text(&self) -> (r: &str) {
        self.project.as_str()
    }
}

pub open spec fn usage_of(list: Seq<int>, project: Seq<char>) -> UsageModel {
    UsageModel {
        project,
        running: of_project(list, project).len(),
        reserved: held(of_project(list, project)),
    }
}

pub open spec fn usages(list: Seq<int>) -> Seq<UsageModel> {
    sorting::sorted::<ProjectUsage>(
        Seq::new(projects_of(list).len(), |i: int| usage_of(list, projects_of(list)[i])),
    )
}

/// The queue entry of a waiting run that is the `k`th of the queue.
pub open spec fn queues(e: QueueEntry, i: int, k: int) -> bool {
    let r = row(i);
    &&& e.run_id@ == text::dec_int(r.id as int)
    &&& e.project@ == r.project_root@
    &&& e.position == match r.queue_position {
        Some(p) => p as int,
        None => k + 1,
    }
    &&& e.waiting_ms == r.ago_created * 1000
    &&& e.memory_bytes == reservation(r)
    &&& e.reason@ == match r.queue_reason {
        Some(s) => s@,
        None => "waiting for a slot"@,
    }
}

spec fn places(v: Seq<usize>) -> Seq<int> {
    Seq::new(v.len(), |i: int| v[i] as int)
}

fn rows_in(state: RunState) -> (r: Vec<usize>)
    ensures
        places(r@) == in_state(state, RUNS as nat),
        r@.len() <= RUNS,
{
    let mut r: Vec<usize> = Vec::new();
    let mut i: usize = 0;
    assert(places(r@) =~= Seq::<int>::empty());
    while i < RUNS
        invariant
            i <= RUNS,
            r@.len() <= i,
            places(r@) == in_state(state, i as nat),
        decreases RUNS - i,
    {
        if row_at(i).state == state {
            let ghost before = places(r@);
            r.push(i);
            assert(places(r@) =~= before.push(i as int));
        }
        i += 1;
    }
    r
}

fn memory_of(list: &Vec<usize>) -> (r: u64)
    ensures
        r == held(places(list@)),
{
    let ghost all = places(list@);
    let mut sum: u64 = 0;
    let mut i: usize = 0;
    assert(all.take(0) =~= Seq::<int>::empty());
    while i < list.len()
        invariant
            i <= list.len(),
            all == places(list@),
            sum == held(all.take(i as int)),
        decreases list.len() - i,
    {
        assert(all.take(i + 1).drop_last() =~= all.take(i as int));
        assert(all.take(i + 1).last() == list@[i as int] as int);
        sum = sat_add(sum, demo_memory(&row_at(list[i])));
        i += 1;
    }
    assert(all.take(all.len() as int) =~= all);
    sum
}

fn project_list(list: &Vec<usize>) -> (r: Vec<String>)
    ensures
        text::texts(r@) == projects_of(places(list@)),
{
    let ghost all = places(list@);
    let mut r: Vec<String> = Vec::new();
    let mut i: usize = 0;
    assert(all.take(0) =~= Seq::<int>::empty());
    assert(text::texts(r@) =~= Seq::<Seq<char>>::empty());
    while i < list.len()
        invariant
            i <= list.len(),
            all == places(list@),
            text::texts(r@) == projects_of(all.take(i as int)),
        decreases list.len() - i,
    {
        assert(all.take(i + 1).drop_last() =~= all.take(i as int));
        assert(all.take(i + 1).last() == list@[i as int] as int);
        let p: &'static str = row_at(list[i]).project_root;
        if !any_same(&r, p) {
            let ghost before = text::texts(r@);
            r.push(p.to_owned());
            assert(text::texts(r@) =~= before.push(p@));
        }
        i += 1;
    }
    assert(all.take(all.len() as int) =~= all);
    r
}

fn rows_of_project(list: &Vec<usize>, project: &str) -> (r: Vec<usize>)
    ensures
        places(r@) == of_project(places(list@), project@),
{
    let ghost all = places(list@);
    let mut r: Vec<usize> = Vec::new();
    let mut i: usize = 0;
    assert(all.take(0) =~= Seq::<int>::empty());
    assert(places(r@) =~= Seq::<int>::empty());
    while i < list.len()
        invariant
            i <= list.len(),
            all == places(list@),
            places(r@) == of_project(all.take(i as int), project@),
        decreases list.len() - i,
    {
        assert(all.take(i + 1).drop_last() =~= all.take(i as int));
        assert(all.take(i + 1).last() == list@[i as int] as int);
        if same(row_at(list[i]).project_root, project) {
            let ghost before = places(r@);
            r.push(list[i]);
            assert(places(r@) =~= before.push(list@[i as int] as int));
        }
        i += 1;
    }
    assert(all.take(all.len() as int) =~= all);
    r
}

fn usage_list(list: &Vec<usize>) -> (r: Vec<ProjectUsage>)
    ensures
        sorting::all_modelled(r@) == usages(places(list@)),
{
    let ghost all = places(list@);
    let names: Vec<String> = project_list(list);
    let ghost want = Seq::new(
        projects_of(all).len(),
        |i: int| usage_of(all, projects_of(all)[i]),
    );
    let mut r: Vec<ProjectUsage> = Vec::new();
    let mut i: usize = 0;
    assert(sorting::all_modelled(r@) =~= want.take(0));
    while i < names.len()
        invariant
            i <= names.len(),
            all == places(list@),
            text::texts(names@) == projects_of(all),
            want.len() == names@.len(),
            forall|k: int|
                0 <= k < want.len() ==> #[trigger] want[k] == usage_of(all, names@[k]@),
            sorting::all_modelled(r@) == want.take(i as int),
        decreases names.len() - i,
    {
        let ghost before = sorting::all_modelled(r@);
        let mine: Vec<usize> = rows_of_project(list, names[i].as_str());
        assert(places(mine@).len() == mine@.len());
        let u: ProjectUsage = ProjectUsage {
            project: names[i].clone(),
            running: mine.len(),
            reserved_memory_bytes: memory_of(&mine),
        };
        let ghost um = u.modelled();
        assert(want[i as int] == um);
        r.push(u);
        assert(sorting::all_modelled(r@) =~= before.push(um));
        assert(want.take(i + 1) =~= before.push(um));
        i += 1;
    }
    assert(want.take(want.len() as int) =~= want);
    sort(r)
}

fn queue_list(list: &Vec<usize>) -> (r: Vec<QueueEntry>)
    requires
        list@.len() <= RUNS,
    ensures
        r@.len() == list@.len(),
        forall|k: int| 0 <= k < r@.len() ==> queues(#[trigger] r@[k], list@[k] as int, k),
{
    let mut r: Vec<QueueEntry> = Vec::new();
    let mut i: usize = 0;
    while i < list.len()
        invariant
            i <= list@.len() <= RUNS,
            r@.len() == i,
            forall|k: int| 0 <= k < i ==> queues(#[trigger] r@[k], list@[k] as int, k),
        decreases list.len() - i,
    {
        let run: DemoRun = row_at(list[i]);
        proof {
            short_waits(list@[i as int] as int);
        }
        r.push(
            QueueEntry {
                run_id: dec_of_int(run.id),
                project: run.project_root.to_owned(),
                position: match run.queue_position {
                    Some(p) => p,
                    None => i + 1,
                },
                waiting_ms: run.ago_created * 1000,
                memory_bytes: demo_memory(&run),
                reason: (match run.queue_reason {
                    Some(s) => s,
                    None => "waiting for a slot",
                }).to_owned(),
            },
        );
        i += 1;
    }
    r
}

/// Capacity derived from the same runs that are listed, so the two views
/// cannot disagree. The limits are the built-in ones.
pub fn capacity(platform: Platform, cgroup: bool) -> (r: Capacity)
    ensures
        ({
            let running = in_state(RunState::Running, RUNS as nat);
            let queued = in_state(RunState::Queued, RUNS as nat);
            &&& r.running == running.len()
            &&& r.queued == queued.len()
            &&& r.slots_free == 4 - least(4, running.len() as int)
            &&& r.reserved_memory_bytes == held(running)
            &&& sorting::all_modelled(r.projects@) == usages(running)
            &&& r.queue@.len() == queued.len()
            &&& forall|k: int|
                0 <= k < queued.len() ==> queues(#[trigger] r.queue@[k], queued[k], k)
        }),
        r.limits.max_parallel == 4,
        r.limits.max_parallel_per_project == 2,
        r.limits.max_queued == 32,
        r.limits.queue_timeout_secs == 600,
        r.limits.memory_budget_bytes == 8 * 1024 * 1024 * 1024,
        r.limits.default_run_memory_bytes == DEFAULT_RUN_MEMORY_BYTES,
        r.limits.starvation_after_secs == 60,
        r.limits.cpu_budget_millicores is None,
        r.limits.pids_budget is None,
        !r.over_parallel_limit,
        r.aggregate_memory_max_bytes is None,
        r.aggregate_cpu_millicores is None,
        r.aggregate_pids_max is None,
        r.reservation_note@
            == "reserved_memory_bytes is a reservation (budget) held for admitted runs, not measured RAM; a run's observed_memory_bytes is the measurement"@,
        run::backed(r.capabilities, platform, cgroup),
{
    let limits: LimitSummary = Limits::default().summary();
    let running: Vec<usize> = rows_in(RunState::Running);
    let queued: Vec<usize> = rows_in(RunState::Queued);
    let ghost rp = places(running@);
    let ghost qp = places(queued@);
    assert(rp.len() == running@.len() && qp.len() == queued@.len());
    let queue: Vec<QueueEntry> = queue_list(&queued);
    assert(forall|k: int| 0 <= k < qp.len() ==> qp[k] == #[trigger] queued@[k] as int);
    let slots_free: usize = if limits.max_parallel >= running.len() {
        limits.max_parallel - running.len()
    } else {
        0
    };
    Capacity {
        limits,
        running: running.len(),
        queued: queued.len(),
        slots_free,
        reserved_memory_bytes: memory_of(&running),
        projects: usage_list(&running),
        queue,
        over_parallel_limit: false,
        aggregate_memory_max_bytes: None,
        aggregate_cpu_millicores: None,
        aggregate_pids_max: None,
        reservation_note: "reserved_memory_bytes is a reservation (budget) held for admitted runs, not measured RAM; a run's observed_memory_bytes is the measurement".to_owned(),
        capabilities: backend_capabilities(platform, cgroup),
    }
}

// ---------------------------------------------------------------------------
// Laws
// ---------------------------------------------------------------------------

/// A run is found by its id and by nothing else.
pub proof fn a_run_is_found_by_its_id(id: i64, i: int)
    requires
        0 <= i,
    ensures
        match place(id, i) {
            Some(k) => i <= k < RUNS && row(k).id == id,
            None => forall|j: int| i <= j < RUNS ==> (#[trigger] row(j)).id != id,
        },
    decreases RUNS - i,
{
    if i < RUNS && row(i).id != id {
        a_run_is_found_by_its_id(id, i + 1);
    }
}

/// A run that had ended is not cancelled; any other ends now, by the
/// terminating signal, on behalf of whoever asked.
pub proof fn only_what_has_not_ended_is_cancelled(v: RunView, i: int, now: u64)
    requires
        shows_cancelled(v, i, now),
    ensures
        row(i).state == RunState::Finished ==> v.outcome == row(i).outcome && v.signal
            == row(i).signal && v.duration_ms == row(i).duration_ms,
        row(i).state != RunState::Finished ==> v.outcome == Some(RunOutcome::Cancelled) && v.signal
            == Some(15i32) && v.finished_at == Some(now) && v.cleanup == CleanupState::Complete,
        v.state == RunState::Finished,
{
}

/// The runs in a state are those rows, in their order.
pub proof fn runs_are_listed_by_their_state(state: RunState, n: nat)
    ensures
        in_state(state, n) == Seq::new(n, |i: int| i).filter(|i: int| row(i).state == state),
    decreases n,
{
    reveal(Seq::filter);
    let all = Seq::new(n, |i: int| i);
    if n > 0 {
        runs_are_listed_by_their_state(state, (n - 1) as nat);
        assert(all.drop_last() =~= Seq::new((n - 1) as nat, |i: int| i));
    }
}

/// The runs of a project are those that name it, in their order.
pub proof fn runs_are_listed_by_their_project(list: Seq<int>, project: Seq<char>)
    ensures
        of_project(list, project) == list.filter(|i: int| row(i).project_root@ == project),
    decreases list.len(),
{
    reveal(Seq::filter);
    if list.len() > 0 {
        runs_are_listed_by_their_project(list.drop_last(), project);
    }
}

/// Every project with a run is listed, once.
pub proof fn every_project_is_listed_once(list: Seq<int>)
    ensures
        projects_of(list).no_duplicates(),
        forall|p: Seq<char>| #[trigger]
            projects_of(list).contains(p) <==> exists|i: int|
                0 <= i < list.len() && row(#[trigger] list[i]).project_root@ == p,
    decreases list.len(),
{
    if list.len() > 0 {
        let front = list.drop_last();
        let rest = projects_of(front);
        let all = projects_of(list);
        every_project_is_listed_once(front);
        let own = row(list.last()).project_root@;
        assert(list.last() == list[list.len() - 1]);
        assert forall|p: Seq<char>| #[trigger]
            all.contains(p) <==> exists|i: int|
                0 <= i < list.len() && row(#[trigger] list[i]).project_root@ == p by {
            if all.contains(p) {
                if rest.contains(p) {
                    let i = choose|i: int|
                        0 <= i < front.len() && row(#[trigger] front[i]).project_root@ == p;
                    assert(list[i] == front[i]);
                } else {
                    let k = choose|k: int| 0 <= k < all.len() && all[k] == p;
                    assert(k == rest.len());
                    assert(p == own);
                }
            }
            if exists|i: int|
                0 <= i < list.len() && row(#[trigger] list[i]).project_root@ == p {
                let i = choose|i: int|
                    0 <= i < list.len() && row(#[trigger] list[i]).project_root@ == p;
                if i < front.len() {
                    assert(front[i] == list[i]);
                    assert(rest.contains(p));
                    let k = choose|k: int| 0 <= k < rest.len() && rest[k] == p;
                    assert(all[k] == p);
                } else if rest.contains(own) {
                    assert(all == rest);
                } else {
                    assert(all[rest.len() as int] == p);
                }
            }
        }
    }
}

} // verus!

//! What the command line says and prints.

use crate::config;
use crate::config::{mib_bytes, RunsConfig};
use crate::json;
use crate::json::{Builder, Json, JsonModel};
use crate::model::process::ProcessInfo;
use crate::model::run;
use crate::model::run::{
    backend_capabilities, Capacity, Enforcement, Platform, QueueEntry, RunOutcome, RunSpec,
};
use crate::output;
use crate::output::Filter;
use crate::path;
use crate::runner::client;
use crate::runner::logs::Stream;
use crate::runner::run::RunView;
use crate::runner::scheduler::Limits;
use crate::source;
use crate::text;
use crate::text::{
    chars_of, dec_of, join_of, lower_of, lower_of_char, padded_left, padded_right, parse_unsigned,
    quoted, same, split_once, string_of, text_has, text_starts, trim_of,
};
use crate::time::Duration;
use vstd::prelude::*;

verus! {

// ---------------------------------------------------------------------------
// Durations
// ---------------------------------------------------------------------------

pub open spec fn is_letter(c: char) -> bool {
    ('a' <= c <= 'z') || ('A' <= c <= 'Z')
}

/// The number of a duration, and its unit: seconds where none is named.
pub open spec fn duration_parts(s: Seq<char>) -> (Seq<char>, char) {
    if s.len() > 0 && is_letter(s.last()) {
        (s.drop_last(), text::lower_char(s.last()))
    } else {
        (s, 's')
    }
}

pub open spec fn unit_secs(unit: char) -> Option<nat> {
    if unit == 's' {
        Some(1)
    } else if unit == 'm' {
        Some(60)
    } else if unit == 'h' {
        Some(3600)
    } else {
        None
    }
}

/// The seconds of a duration, at least one, or why there are none.
pub open spec fn duration_secs(raw: Seq<char>) -> Result<nat, Seq<char>> {
    let s = text::trimmed(raw);
    let (num, unit) = duration_parts(s);
    match text::parsed(num, u64::MAX as nat) {
        None => Err(text::quoted_text(s) + " is not a duration like 120s, 10m, 1h"@),
        Some(n) => match unit_secs(unit) {
            None => Err("unknown duration unit '"@ + seq![unit] + "'"@),
            Some(k) => if n * k > u64::MAX {
                Err(text::quoted_text(s) + " is not a duration like 120s, 10m, 1h"@)
            } else if n * k == 0 {
                Ok(1)
            } else {
                Ok(n * k)
            },
        },
    }
}

/// Parse `120s`, `10m`, `1h` or plain seconds. What does not fit in 64 bits of
/// seconds is no duration.
pub fn parse_duration(raw: &str) -> (r: Result<Duration, String>)
    ensures
        match (r, duration_secs(raw@)) {
            (Ok(d), Ok(secs)) => d@ == secs * 1_000_000_000,
            (Err(e), Err(m)) => e@ == m,
            _ => false,
        },
{
    let s: String = trim_of(raw);
    let v: Vec<char> = chars_of(s.as_str());
    let n: usize = v.len();
    let mut num: String = s.clone();
    let mut unit: char = 's';
    if n > 0 {
        let c: char = v[n - 1];
        if ('a' <= c && c <= 'z') || ('A' <= c && c <= 'Z') {
            num = string_of(&v, 0, n - 1);
            assert(num@ =~= s@.drop_last());
            unit = lower_of_char(c);
        }
    }
    assert((num@, unit) == duration_parts(s@));
    let value: u64 = match parse_unsigned(num.as_str(), u64::MAX) {
        Some(n) => n,
        None => {
            return Err(
                quoted(s.as_str()).concat(" is not a duration like 120s, 10m, 1h"),
            );
        },
    };
    let k: u64 = if unit == 's' {
        1
    } else if unit == 'm' {
        60
    } else if unit == 'h' {
        3600
    } else {
        let mut u: String = "unknown duration unit '".to_owned();
        let ghost head = u@;
        u.push(unit);
        assert(u@ =~= head + seq![unit]);
        return Err(u.concat("'"));
    };
    if value > u64::MAX / k {
        assert(value * k > u64::MAX) by (nonlinear_arith)
            requires
                k == 1 || k == 60 || k == 3600,
                value > u64::MAX / k,
        ;
        return Err(quoted(s.as_str()).concat(" is not a duration like 120s, 10m, 1h"));
    }
    assert(value * k <= u64::MAX) by (nonlinear_arith)
        requires
            k == 1 || k == 60 || k == 3600,
            value <= u64::MAX / k,
    ;
    let secs: u64 = value * k;
    Ok(Duration::from_secs(if secs >= 1 {
        secs
    } else {
        1
    }))
}

/// No duration is empty: the shortest is one second.
pub proof fn durations_are_positive(raw: Seq<char>)
    ensures
        duration_secs(raw) matches Ok(secs) ==> 1 <= secs <= u64::MAX,
{
}

// ---------------------------------------------------------------------------
// Small texts
// ---------------------------------------------------------------------------

/// A text cut to a number of characters, the last of which says so.
pub open spec fn truncated(s: Seq<char>, max: nat) -> Seq<char> {
    if s.len() <= max {
        s
    } else if max == 0 {
        seq!['…']
    } else {
        s.take(max - 1).push('…')
    }
}

pub fn truncate(s: &str, max: usize) -> (r: String)
    ensures
        r@ == truncated(s@, max as nat),
{
    let v: Vec<char> = chars_of(s);
    if v.len() <= max {
        return s.to_owned();
    }
    let keep: usize = if max >= 1 {
        max - 1
    } else {
        0
    };
    let mut out: String = string_of(&v, 0, keep);
    assert(out@ =~= s@.take(keep as int));
    out.push('…');
    assert(max == 0 ==> out@ =~= seq!['…']);
    out
}

/// A part of a score: nothing where it is zero.
pub fn sign(v: u8) -> (r: String)
    ensures
        r@ == if v == 0 {
            Seq::<char>::empty()
        } else {
            " +"@ + text::dec(v as nat)
        },
{
    if v == 0 {
        let r: String = String::new();
        assert(r@ =~= Seq::<char>::empty());
        r
    } else {
        " +".to_owned().concat(dec_of(v as u64).as_str())
    }
}

/// Who can update a binary, and how.
pub open spec fn updater(p: Seq<char>) -> Option<(Seq<char>, Seq<Seq<char>>)> {
    if text::contains(p, "Cellar/wyd"@) {
        Some(("brew"@, seq!["upgrade"@, "wyd"@]))
    } else if text::contains(p, "/.cargo/"@) || text::contains(p, "/cargo/bin/"@) {
        Some(("cargo"@, seq!["install"@, "wyd"@]))
    } else if text::contains(p, "/.local/bin/"@) {
        Some(("sh"@, seq!["-c"@, "curl -fsSL https://wyd.sh/install.sh | sh"@]))
    } else {
        None
    }
}

pub open spec fn plain_texts(v: Seq<&'static str>) -> Seq<Seq<char>> {
    Seq::new(v.len(), |i: int| v[i]@)
}

fn pair(a: &'static str, b: &'static str) -> (r: Vec<&'static str>)
    ensures
        plain_texts(r@) == seq![a@, b@],
{
    let mut r: Vec<&'static str> = Vec::new();
    r.push(a);
    r.push(b);
    assert(plain_texts(r@) =~= seq![a@, b@]);
    r
}

/// The command that updates a binary, told from where it lies.
pub fn updater_for(exe: &str) -> (r: Option<(&'static str, Vec<&'static str>)>)
    ensures
        match r {
            Some(u) => updater(exe@) == Some((u.0@, plain_texts(u.1@))),
            None => updater(exe@) is None,
        },
{
    if text_has(exe, "Cellar/wyd") {
        Some(("brew", pair("upgrade", "wyd")))
    } else if text_has(exe, "/.cargo/") || text_has(exe, "/cargo/bin/") {
        Some(("cargo", pair("install", "wyd")))
    } else if text_has(exe, "/.local/bin/") {
        Some(("sh", pair("-c", "curl -fsSL https://wyd.sh/install.sh | sh")))
    } else {
        None
    }
}

/// An upgrade that found nothing newer says so.
pub fn is_current(printed: &str) -> (r: bool)
    ensures
        r == (text::contains(printed@, "already installed"@) || text::contains(
            printed@,
            "already up-to-date"@,
        )),
{
    text_has(printed, "already installed") || text_has(printed, "already up-to-date")
}

/// A confirmation: `y` in either case, nothing else.
pub fn confirms(line: &str) -> (r: bool)
    ensures
        r == (text::lower(text::trimmed(line@)) == "y"@),
{
    same(lower_of(trim_of(line).as_str()).as_str(), "y")
}

// ---------------------------------------------------------------------------
// Running a command
// ---------------------------------------------------------------------------

/// Everything `wyd run` accepts.
#[derive(Debug, Clone)]
pub struct RunOptions {
    pub timeout: Duration,
    pub grace: Duration,
    /// The directory to run in: what was asked for, or the current one.
    pub cwd: String,
    /// What was asked for, or a fresh one.
    pub request_id: String,
    /// In mebibytes.
    pub memory: Option<u64>,
    pub enforce: String,
    pub queue_timeout: Option<Duration>,
    pub cpu: Option<u32>,
    pub processes: Option<u32>,
    pub argv: Vec<String>,
}

pub open spec fn enforcement_named(s: Seq<char>) -> Option<Enforcement> {
    if s == "none"@ {
        Some(Enforcement::Off)
    } else if s == "monitored"@ {
        Some(Enforcement::Monitored)
    } else if s == "hard"@ {
        Some(Enforcement::Hard)
    } else {
        None
    }
}

fn enforcement_of(s: &str) -> (r: Option<Enforcement>)
    ensures
        r == enforcement_named(s@),
{
    if same(s, "none") {
        Some(Enforcement::Off)
    } else if same(s, "monitored") {
        Some(Enforcement::Monitored)
    } else if same(s, "hard") {
        Some(Enforcement::Hard)
    } else {
        None
    }
}

/// Why options make no run.
pub open spec fn options_error(o: RunOptions) -> Option<Seq<char>> {
    if !text::starts_with(o.cwd@, "/"@) {
        Some("--cwd must be an absolute path"@)
    } else if enforcement_named(o.enforce@) is None {
        Some("--enforce must be none|monitored|hard, got "@ + text::quoted_text(o.enforce@))
    } else {
        None
    }
}

/// The run that options ask for.
pub open spec fn runs_as(spec: RunSpec, o: RunOptions) -> bool {
    &&& spec.request_id@ == o.request_id@
    &&& spec.argv == o.argv
    &&& spec.cwd == o.cwd
    &&& spec.project_root is None
    &&& spec.session_id is None
    &&& spec.session_origin == run::SessionOrigin::Unlinked
    &&& spec.timeout == o.timeout
    &&& spec.grace == o.grace
    &&& spec.log_limit_bytes == run::DEFAULT_RUN_LOG_LIMIT
    &&& spec.resources.memory_bytes == match o.memory {
        Some(mb) => Some(config::mib(mb)),
        None => None,
    }
    &&& Some(spec.resources.enforcement) == enforcement_named(o.enforce@)
    &&& spec.resources.queue_timeout == o.queue_timeout
    &&& spec.resources.cpu_millicores == o.cpu
    &&& spec.resources.processes == o.processes
}

/// The run that options ask for. The directory must be absolute, and the
/// enforcement one of the three.
pub fn run_command(opts: RunOptions) -> (r: Result<RunSpec, String>)
    ensures
        match (r, options_error(opts)) {
            (Ok(spec), None) => runs_as(spec, opts),
            (Err(e), Some(m)) => e@ == m,
            _ => false,
        },
{
    if !text_starts(opts.cwd.as_str(), "/") {
        return Err("--cwd must be an absolute path".to_owned());
    }
    let enforcement: Enforcement = match enforcement_of(opts.enforce.as_str()) {
        Some(e) => e,
        None => {
            return Err(
                "--enforce must be none|monitored|hard, got ".to_owned().concat(
                    quoted(opts.enforce.as_str()).as_str(),
                ),
            );
        },
    };
    let mut spec: RunSpec = RunSpec::new(opts.request_id.as_str(), opts.argv, opts.cwd);
    spec.timeout = opts.timeout;
    spec.grace = opts.grace;
    spec.resources.memory_bytes =
    match opts.memory {
        Some(mb) => Some(mib_bytes(mb)),
        None => None,
    };
    spec.resources.enforcement = enforcement;
    spec.resources.queue_timeout = opts.queue_timeout;
    spec.resources.cpu_millicores = opts.cpu;
    spec.resources.processes = opts.processes;
    Ok(spec)
}

pub open spec fn outcome_word(o: RunOutcome) -> Seq<char> {
    match o {
        RunOutcome::Exited => "Exited"@,
        RunOutcome::Signaled => "Signaled"@,
        RunOutcome::TimedOut => "TimedOut"@,
        RunOutcome::Cancelled => "Cancelled"@,
        RunOutcome::SpawnFailed => "SpawnFailed"@,
        RunOutcome::SupervisorLost => "SupervisorLost"@,
        RunOutcome::ResourceLimit => "ResourceLimit"@,
    }
}

/// The line that sums up a finished run.
pub fn run_summary(view: &RunView) -> (r: String)
    ensures
        r@ == "wyd: run "@ + view.run_id@ + " "@ + outcome_word(
            match view.outcome {
                Some(o) => o,
                None => RunOutcome::Exited,
            },
        ) + " cleanup="@ + view.cleanup.name() + " in "@ + text::dec(
            match view.duration_ms {
                Some(ms) => ms as nat,
                None => 0,
            },
        ) + "ms"@,
{
    let word: &'static str = match view.outcome {
        Some(RunOutcome::Exited) => "Exited",
        Some(RunOutcome::Signaled) => "Signaled",
        Some(RunOutcome::TimedOut) => "TimedOut",
        Some(RunOutcome::Cancelled) => "Cancelled",
        Some(RunOutcome::SpawnFailed) => "SpawnFailed",
        Some(RunOutcome::SupervisorLost) => "SupervisorLost",
        Some(RunOutcome::ResourceLimit) => "ResourceLimit",
        None => "Exited",
    };
    let ms: u64 = match view.duration_ms {
        Some(ms) => ms,
        None => 0,
    };
    "wyd: run ".to_owned().concat(view.run_id.as_str()).concat(" ").concat(word).concat(
        " cleanup=",
    ).concat(view.cleanup.as_str()).concat(" in ").concat(dec_of(ms).as_str()).concat("ms")
}

// ---------------------------------------------------------------------------
// Output of a run
// ---------------------------------------------------------------------------

/// What a chunk of output comes to.
#[derive(Debug, Clone)]
pub struct ChunkStep {
    pub data: String,
    pub cursor: u64,
    /// The stream has ended.
    pub eof: bool,
    /// The stream has ended, and was cut at the limit.
    pub cut: bool,
}

/// Read a chunk of output: what to print, and where to go on. A reply that
/// says nothing of the end is taken as the end.
pub fn chunk_step(chunk: &Json, cursor: u64) -> (r: ChunkStep)
    ensures
        r.data@ == match chunk.model().text_field("data"@) {
            Some(s) => s,
            None => Seq::empty(),
        },
        r.cursor == match chunk.model().unsigned_field("next_cursor"@) {
            Some(n) => n,
            None => cursor,
        },
        r.eof == match chunk.model().truth_field("eof"@) {
            Some(b) => b,
            None => true,
        },
        r.cut == (r.eof && chunk.model().truth_field("truncated"@) == Some(true)),
{
    let data: String = match chunk.str_at("data") {
        Some(s) => s.to_owned(),
        None => String::new(),
    };
    assert(chunk.model().text_field("data"@) is None ==> data@ =~= Seq::<char>::empty());
    let next: u64 = match chunk.u64_at("next_cursor") {
        Some(n) => n,
        None => cursor,
    };
    let eof: bool = match chunk.bool_at("eof") {
        Some(b) => b,
        None => true,
    };
    let truncated: bool = match chunk.bool_at("truncated") {
        Some(b) => b,
        None => false,
    };
    ChunkStep { data, cursor: next, eof, cut: eof && truncated }
}

/// The marker of a stream that was cut.
pub fn cut_marker(stream: Stream) -> (r: String)
    ensures
        r@ == "wyd: "@ + stream.name() + " output truncated at the configured log limit"@,
{
    "wyd: ".to_owned().concat(stream.as_str()).concat(
        " output truncated at the configured log limit",
    )
}

/// Whether to go on reading retained output.
#[derive(Debug, Clone, Copy, PartialEq, Eq, Structural)]
pub enum LogsStep {
    /// Everything was read; `marked` where the stream was cut.
    Stop { marked: bool },
    Again,
}

/// After a chunk: a finished run is read to its end; a live one only as long
/// as it is followed.
pub fn logs_step(chunk_eof: bool, finished: bool, truncated: bool, follow: bool) -> (r: LogsStep)
    ensures
        r == if chunk_eof && finished {
            LogsStep::Stop { marked: truncated }
        } else if chunk_eof && !follow {
            LogsStep::Stop { marked: false }
        } else {
            LogsStep::Again
        },
{
    if chunk_eof && finished {
        LogsStep::Stop { marked: truncated }
    } else if chunk_eof && !follow {
        LogsStep::Stop { marked: false }
    } else {
        LogsStep::Again
    }
}

/// One line of the list of runs: state, outcome, cleanup, duration and the
/// command.
pub open spec fn listed_run(view: RunView) -> Seq<char> {
    text::pad_left(view.run_id@, 4) + "  "@ + text::pad_right(view.state.name(), 9) + " "@
        + text::pad_right(
        match view.outcome {
            Some(o) => o.name(),
            None => "-"@,
        },
        13,
    ) + " "@ + text::pad_right(view.cleanup.name(), 10) + " "@ + text::pad_left(
        text::dec(
            match view.duration_ms {
                Some(ms) => ms as nat,
                None => 0,
            },
        ) + "ms"@,
        8,
    ) + "  "@ + truncated(text::joined(text::texts(view.argv@), " "@), 70)
}

pub fn run_line(view: &RunView) -> (r: String)
    ensures
        r@ == listed_run(*view),
{
    let cmd: String = join_of(&view.argv, " ");
    let outcome: &'static str = match view.outcome {
        Some(o) => o.as_str(),
        None => "-",
    };
    let ms: u64 = match view.duration_ms {
        Some(ms) => ms,
        None => 0,
    };
    let span: String = dec_of(ms).concat("ms");
    padded_left(view.run_id.as_str(), 4).concat("  ").concat(
        padded_right(view.state.as_str(), 9).as_str(),
    ).concat(" ").concat(padded_right(outcome, 13).as_str()).concat(" ").concat(
        padded_right(view.cleanup.as_str(), 10).as_str(),
    ).concat(" ").concat(padded_left(span.as_str(), 8).as_str()).concat("  ").concat(truncate(cmd.as_str(), 70).as_str())
}

// ---------------------------------------------------------------------------
// Capacity
// ---------------------------------------------------------------------------

/// A limit that the command line can set, by the name and in the unit of the
/// API: mebibytes become bytes, and the name changes with the unit.
pub open spec fn api_limit(key: Seq<char>, n: u64) -> Option<(Seq<char>, JsonModel)> {
    if key == "memory_budget_mb"@ {
        Some(("memory_budget_bytes"@, JsonModel::Unsigned(config::mib(n))))
    } else if key == "default_run_memory_mb"@ {
        Some(("default_run_memory_bytes"@, JsonModel::Unsigned(config::mib(n))))
    } else if key == "max_parallel"@ || key == "max_parallel_per_project"@ || key
        == "max_queued"@ || key == "queue_timeout_secs"@ || key == "starvation_after_secs"@ || key
        == "cpu_budget_millicores"@ || key == "pids_budget"@ {
        Some((key, JsonModel::Unsigned(n)))
    } else {
        None
    }
}

/// One `KEY=VALUE`, or why it is none.
pub open spec fn setting(item: Seq<char>) -> Result<(Seq<char>, JsonModel), Seq<char>> {
    let at = text::first_at(item, '=');
    if at >= item.len() {
        Err("--set expects KEY=VALUE, got "@ + text::quoted_text(item))
    } else {
        let key = item.take(at);
        let value = item.skip(at + 1);
        match text::parsed(value, u64::MAX as nat) {
            None => Err("--set "@ + key + ": "@ + text::quoted_text(value) + " is not a number"@),
            Some(n) => match api_limit(key, n as u64) {
                Some(m) => Ok(m),
                None => Err("unknown limit "@ + text::quoted_text(key)),
            },
        }
    }
}

/// The limits that settings name, the last of a name standing; or the first
/// error.
pub open spec fn settings(items: Seq<Seq<char>>) -> Result<Seq<(Seq<char>, JsonModel)>, Seq<char>>
    decreases items.len(),
{
    if items.len() == 0 {
        Ok(Seq::empty())
    } else {
        match settings(items.drop_last()) {
            Err(e) => Err(e),
            Ok(ms) => match setting(items.last()) {
                Err(e) => Err(e),
                Ok(m) => Ok(client::without(ms, m.0).push(m)),
            },
        }
    }
}

fn api_limit_of(key: &str, n: u64) -> (r: Option<(String, u64)>)
    ensures
        match r {
            Some(m) => api_limit(key@, n) == Some((m.0@, JsonModel::Unsigned(m.1))),
            None => api_limit(key@, n) is None,
        },
{
    if same(key, "memory_budget_mb") {
        Some(("memory_budget_bytes".to_owned(), mib_bytes(n)))
    } else if same(key, "default_run_memory_mb") {
        Some(("default_run_memory_bytes".to_owned(), mib_bytes(n)))
    } else if same(key, "max_parallel") || same(key, "max_parallel_per_project") || same(
        key,
        "max_queued",
    ) || same(key, "queue_timeout_secs") || same(key, "starvation_after_secs") || same(
        key,
        "cpu_budget_millicores",
    ) || same(key, "pids_budget") {
        Some((key.to_owned(), n))
    } else {
        None
    }
}

fn setting_of(item: &str) -> (r: Result<(String, u64), String>)
    ensures
        match (r, setting(item@)) {
            (Ok(m), Ok(mm)) => (m.0@, JsonModel::Unsigned(m.1)) == mm,
            (Err(e), Err(em)) => e@ == em,
            _ => false,
        },
{
    match split_once(item, '=') {
        None => Err("--set expects KEY=VALUE, got ".to_owned().concat(quoted(item).as_str())),
        Some((key, value)) => match parse_unsigned(value.as_str(), u64::MAX) {
            None => Err(
                "--set ".to_owned().concat(key.as_str()).concat(": ").concat(
                    quoted(value.as_str()).as_str(),
                ).concat(" is not a number"),
            ),
            Some(n) => match api_limit_of(key.as_str(), n) {
                Some(m) => Ok(m),
                None => Err("unknown limit ".to_owned().concat(quoted(key.as_str()).as_str())),
            },
        },
    }
}

spec fn numbers(v: Seq<(String, u64)>) -> Seq<(Seq<char>, JsonModel)> {
    Seq::new(v.len(), |i: int| (v[i].0@, JsonModel::Unsigned(v[i].1)))
}

fn put(list: Vec<(String, u64)>, m: (String, u64)) -> (r: Vec<(String, u64)>)
    ensures
        numbers(r@) == client::without(numbers(list@), m.0@).push(
            (m.0@, JsonModel::Unsigned(m.1)),
        ),
{
    let ghost all = numbers(list@);
    let mut r: Vec<(String, u64)> = Vec::new();
    let mut i: usize = 0;
    assert(all.take(0) =~= Seq::<(Seq<char>, JsonModel)>::empty());
    assert(numbers(r@) =~= Seq::<(Seq<char>, JsonModel)>::empty());
    while i < list.len()
        invariant
            i <= list.len(),
            all == numbers(list@),
            numbers(r@) == client::without(all.take(i as int), m.0@),
        decreases list.len() - i,
    {
        assert(all.take(i + 1).drop_last() =~= all.take(i as int));
        assert(all.take(i + 1).last() == all[i as int]);
        if !same(list[i].0.as_str(), m.0.as_str()) {
            let ghost before = numbers(r@);
            r.push((list[i].0.clone(), list[i].1));
            assert(numbers(r@) =~= before.push(all[i as int]));
        }
        i += 1;
    }
    assert(all.take(all.len() as int) =~= all);
    let ghost before = numbers(r@);
    let ghost mm = (m.0@, JsonModel::Unsigned(m.1));
    r.push(m);
    assert(numbers(r@) =~= before.push(mm));
    r
}

/// The change of limits that `--set` asks for.
pub fn capacity_settings(set: &Vec<String>) -> (r: Result<Json, String>)
    ensures
        match (r, settings(text::texts(set@))) {
            (Ok(j), Ok(ms)) => j.model() == JsonModel::Object(ms),
            (Err(e), Err(m)) => e@ == m,
            _ => false,
        },
{
    let ghost items = text::texts(set@);
    let mut list: Vec<(String, u64)> = Vec::new();
    let mut i: usize = 0;
    assert(items.take(0) =~= Seq::<Seq<char>>::empty());
    assert(numbers(list@) =~= Seq::<(Seq<char>, JsonModel)>::empty());
    while i < set.len()
        invariant
            i <= set.len(),
            items == text::texts(set@),
            settings(items.take(i as int)) == Ok::<Seq<(Seq<char>, JsonModel)>, Seq<char>>(
                numbers(list@),
            ),
        decreases set.len() - i,
    {
        assert(items.take(i + 1).drop_last() =~= items.take(i as int));
        assert(items.take(i + 1).last() == set@[i as int]@);
        match setting_of(set[i].as_str()) {
            Ok(m) => {
                list = put(list, m);
            },
            Err(e) => {
                proof {
                    first_error_stands(items, i + 1);
                }
                return Err(e);
            },
        }
        i += 1;
    }
    assert(items.take(items.len() as int) =~= items);
    let mut b: Builder = Builder::new();
    let ghost all = numbers(list@);
    let mut k: usize = 0;
    assert(b@ =~= all.take(0));
    while k < list.len()
        invariant
            k <= list.len(),
            all == numbers(list@),
            b@ == all.take(k as int),
        decreases list.len() - k,
    {
        b = b.with(list[k].0.as_str(), Json::Unsigned(list[k].1));
        assert(all.take(k + 1) =~= all.take(k as int).push(all[k as int]));
        k += 1;
    }
    assert(all.take(all.len() as int) =~= all);
    Ok(b.done())
}

proof fn first_error_stands(items: Seq<Seq<char>>, n: int)
    requires
        0 <= n <= items.len(),
        settings(items.take(n)) is Err,
    ensures
        settings(items) == settings(items.take(n)),
    decreases items.len(),
{
    if n < items.len() {
        assert(items.drop_last().take(n) =~= items.take(n));
        first_error_stands(items.drop_last(), n);
    } else {
        assert(items.take(n) =~= items);
    }
}

/// The capacity where no supervisor runs: the configured limits, and an empty
/// machine.
pub fn idle_capacity(runs: &RunsConfig, platform: Platform, cgroup: bool) -> (r: Capacity)
    ensures
        r.limits.max_parallel == config::at_least_one(runs.max_parallel),
        r.limits.max_parallel_per_project == config::at_least_one(runs.max_parallel_per_project),
        r.limits.max_queued == runs.max_queued,
        r.limits.queue_timeout_secs == runs.queue_timeout_secs,
        r.limits.memory_budget_bytes == config::mib(runs.memory_budget_mb),
        r.limits.default_run_memory_bytes == config::mib(runs.default_run_memory_mb),
        r.limits.starvation_after_secs == runs.starvation_after_secs,
        r.limits.cpu_budget_millicores == runs.cpu_budget_millicores,
        r.limits.pids_budget == runs.pids_budget,
        r.running == 0,
        r.queued == 0,
        r.slots_free == config::at_least_one(runs.max_parallel),
        r.reserved_memory_bytes == 0,
        r.projects@.len() == 0,
        r.queue@.len() == 0,
        !r.over_parallel_limit,
        r.aggregate_memory_max_bytes is None,
        r.aggregate_cpu_millicores is None,
        r.aggregate_pids_max is None,
        r.reservation_note@ == "no supervisor running; these are the configured limits"@,
        run::backed(r.capabilities, platform, cgroup),
{
    let limits: Limits = runs.limits();
    Capacity {
        limits: limits.summary(),
        running: 0,
        queued: 0,
        slots_free: limits.max_parallel,
        reserved_memory_bytes: 0,
        projects: Vec::new(),
        queue: Vec::new(),
        over_parallel_limit: false,
        aggregate_memory_max_bytes: None,
        aggregate_cpu_millicores: None,
        aggregate_pids_max: None,
        reservation_note: "no supervisor running; these are the configured limits".to_owned(),
        capabilities: backend_capabilities(platform, cgroup),
    }
}

pub open spec fn slots_line(c: Capacity) -> Seq<char> {
    "slots      "@ + text::dec(c.running as nat) + "/"@ + text::dec(c.limits.max_parallel as nat)
        + " used ("@ + text::dec(c.limits.max_parallel_per_project as nat) + " per project)"@
}

pub open spec fn queue_line(c: Capacity) -> Seq<char> {
    "queue      "@ + text::dec(c.queued as nat) + " waiting, "@ + text::dec(
        c.limits.max_queued as nat,
    ) + " max, "@ + text::dec(c.limits.queue_timeout_secs as nat) + "s timeout"@
}

pub open spec fn reserved_line(c: Capacity) -> Seq<char> {
    "reserved   "@ + text::dec(c.reserved_memory_bytes as nat / 1_048_576) + " of "@ + text::dec(
        c.limits.memory_budget_bytes as nat / 1_048_576,
    ) + " MiB (default "@ + text::dec(c.limits.default_run_memory_bytes as nat / 1_048_576)
        + " MiB per run)"@
}

pub open spec fn kernel_lines(c: Capacity) -> Seq<Seq<char>> {
    (match c.aggregate_cpu_millicores {
        Some(n) => seq!["kernel cpu  "@ + text::dec(n as nat) + " millicores across all runs"@],
        None => Seq::empty(),
    }) + (match c.aggregate_pids_max {
        Some(n) => seq!["kernel pids "@ + text::dec(n as nat) + " across all runs"@],
        None => Seq::empty(),
    })
}

pub open spec fn warning_lines(c: Capacity) -> Seq<Seq<char>> {
    if c.over_parallel_limit {
        seq![
            "warning    "@ + text::dec(c.running as nat)
                + " run(s) still active above the new limit; they are not killed"@,
        ]
    } else {
        Seq::empty()
    }
}

pub open spec fn waiting_line(e: QueueEntry) -> Seq<char> {
    "  queued   #"@ + text::dec(e.position as nat) + " run "@ + e.run_id@ + " "@ + e.reason@ + " ("@
        + text::dec(e.waiting_ms as nat / 1000) + "s)"@
}

pub open spec fn waiting_lines(queue: Seq<QueueEntry>) -> Seq<Seq<char>> {
    Seq::new(queue.len(), |i: int| waiting_line(queue[i]))
}

/// The capacity in words, line by line.
pub open spec fn capacity_text(c: Capacity) -> Seq<Seq<char>> {
    seq![slots_line(c), queue_line(c), reserved_line(c)] + kernel_lines(c) + warning_lines(c)
        + seq!["note       "@ + c.reservation_note@] + waiting_lines(c.queue@)
}

fn add_line(lines: &mut Vec<String>, line: String)
    ensures
        text::texts(final(lines)@) == text::texts(old(lines)@).push(line@),
{
    let ghost before = text::texts(lines@);
    let ghost l = line@;
    lines.push(line);
    assert(text::texts(lines@) =~= before.push(l));
}

pub fn capacity_lines(c: &Capacity) -> (r: Vec<String>)
    ensures
        text::texts(r@) == capacity_text(*c),
{
    let mut r: Vec<String> = Vec::new();
    assert(text::texts(r@) =~= Seq::<Seq<char>>::empty());
    add_line(
        &mut r,
        "slots      ".to_owned().concat(dec_of(c.running as u64).as_str()).concat("/").concat(
            dec_of(c.limits.max_parallel as u64).as_str(),
        ).concat(" used (").concat(
            dec_of(c.limits.max_parallel_per_project as u64).as_str(),
        ).concat(" per project)"),
    );
    add_line(
        &mut r,
        "queue      ".to_owned().concat(dec_of(c.queued as u64).as_str()).concat(
            " waiting, ",
        ).concat(dec_of(c.limits.max_queued as u64).as_str()).concat(" max, ").concat(
            dec_of(c.limits.queue_timeout_secs).as_str(),
        ).concat("s timeout"),
    );
    add_line(
        &mut r,
        "reserved   ".to_owned().concat(
            dec_of(c.reserved_memory_bytes / 1_048_576).as_str(),
        ).concat(" of ").concat(
            dec_of(c.limits.memory_budget_bytes / 1_048_576).as_str(),
        ).concat(" MiB (default ").concat(
            dec_of(c.limits.default_run_memory_bytes / 1_048_576).as_str(),
        ).concat(" MiB per run)"),
    );
    let ghost head = seq![slots_line(*c), queue_line(*c), reserved_line(*c)];
    assert(text::texts(r@) =~= head);
    if let Some(n) = c.aggregate_cpu_millicores {
        add_line(
            &mut r,
            "kernel cpu  ".to_owned().concat(dec_of(n as u64).as_str()).concat(
                " millicores across all runs",
            ),
        );
    }
    if let Some(n) = c.aggregate_pids_max {
        add_line(
            &mut r,
            "kernel pids ".to_owned().concat(dec_of(n as u64).as_str()).concat(
                " across all runs",
            ),
        );
    }
    assert(text::texts(r@) =~= head + kernel_lines(*c));
    if c.over_parallel_limit {
        add_line(
            &mut r,
            "warning    ".to_owned().concat(dec_of(c.running as u64).as_str()).concat(
                " run(s) still active above the new limit; they are not killed",
            ),
        );
    }
    add_line(&mut r, "note       ".to_owned().concat(c.reservation_note.as_str()));
    let ghost front = head + kernel_lines(*c) + warning_lines(*c) + seq![
        "note       "@ + c.reservation_note@,
    ];
    assert(text::texts(r@) =~= front);
    let ghost tail = waiting_lines(c.queue@);
    let mut i: usize = 0;
    assert(front + tail.take(0) =~= front);
    while i < c.queue.len()
        invariant
            i <= c.queue.len(),
            tail == waiting_lines(c.queue@),
            text::texts(r@) == front + tail.take(i as int),
        decreases c.queue.len() - i,
    {
        let e: &QueueEntry = &c.queue[i];
        let ghost before = text::texts(r@);
        add_line(
            &mut r,
            "  queued   #".to_owned().concat(dec_of(e.position as u64).as_str()).concat(
                " run ",
            ).concat(e.run_id.as_str()).concat(" ").concat(e.reason.as_str()).concat(" (").concat(
                dec_of(e.waiting_ms / 1000).as_str(),
            ).concat("s)"),
        );
        assert(tail[i as int] == waiting_line(*e));
        assert(front + tail.take(i + 1) =~= before.push(tail[i as int]));
        i += 1;
    }
    assert(tail.take(tail.len() as int) =~= tail);
    r
}

// ---------------------------------------------------------------------------
// Reports
// ---------------------------------------------------------------------------

/// What a report on the command line shows.
#[derive(Debug, Clone, Copy, PartialEq, Eq, Structural)]
pub enum CliMode {
    /// The recorded sessions, as JSON.
    Sessions,
    Report(Filter),
}

/// What the flags and words of a report ask for, or why they ask for nothing.
pub fn report_mode(json: bool, plain: bool, filter: Option<&str>, named: bool) -> (r: Result<
    CliMode,
    String,
>)
    ensures
        ({
            let word = match filter {
                Some(w) => Some(text::lower(w@)),
                None => None,
            };
            let kind = match word {
                Some(w) => output::filter_named(w),
                None => Some(Filter::All),
            };
            if json && plain {
                r matches Err(e) && e@ == "use only one of --json or --plain"@
            } else if word == Some("sessions"@) {
                if json {
                    r == Ok::<CliMode, String>(CliMode::Sessions)
                } else {
                    r matches Err(e) && e@ == "`sessions` requires --json"@
                }
            } else {
                match kind {
                    None => r matches Err(e) && e@ == "unknown filter "@ + text::quoted_text(
                        word->Some_0,
                    ) + "; use leftovers, mcp, agents, docker, project"@,
                    Some(f) => if f == Filter::Project && !named {
                        r matches Err(e) && e@
                            == "filter `project` needs a name: wyd --json project myapp"@
                    } else {
                        r == Ok::<CliMode, String>(CliMode::Report(f))
                    },
                }
            }
        }),
{
    if json && plain {
        return Err("use only one of --json or --plain".to_owned());
    }
    if let Some(w) = filter {
        if same(lower_of(w).as_str(), "sessions") {
            if json {
                return Ok(CliMode::Sessions);
            }
            return Err("`sessions` requires --json".to_owned());
        }
    }
    match Filter::parse(filter) {
        Err(e) => Err(e),
        Ok(f) => if f == Filter::Project && !named {
            Err("filter `project` needs a name: wyd --json project myapp".to_owned())
        } else {
            Ok(CliMode::Report(f))
        },
    }
}

/// The exit status of an explanation: 0 where a live session owns the process,
/// 1 where its session has ended or none is recorded.
pub fn why_status(owner_ended: Option<bool>) -> (r: i32)
    ensures
        r == if owner_ended == Some(false) {
            0int
        } else {
            1
        },
{
    match owner_ended {
        Some(ended) => if ended {
            1
        } else {
            0
        },
        None => 1,
    }
}

pub open spec fn named_process(p: ProcessInfo) -> Seq<char> {
    p.name@ + " ("@ + text::dec(p.pid as nat) + ")"@
}

pub open spec fn named_processes(ps: Seq<ProcessInfo>) -> Seq<Seq<char>> {
    Seq::new(ps.len(), |i: int| named_process(ps[i]))
}

fn name_process(p: &ProcessInfo) -> (r: String)
    ensures
        r@ == named_process(*p),
{
    p.name.clone().concat(" (").concat(dec_of(p.pid as u64).as_str()).concat(")")
}

/// The ancestry of a process in words, from the top down to the process.
pub fn ancestry_line(chain: &Vec<&ProcessInfo>, target: &ProcessInfo) -> (r: String)
    ensures
        r@ == "ancestry: "@ + text::joined(
            named_processes(source::listed(chain@)).push(named_process(*target)),
            " → "@,
        ),
{
    let ghost want = named_processes(source::listed(chain@));
    let mut parts: Vec<String> = Vec::new();
    let mut i: usize = 0;
    assert(text::texts(parts@) =~= want.take(0));
    while i < chain.len()
        invariant
            i <= chain.len(),
            want == named_processes(source::listed(chain@)),
            text::texts(parts@) == want.take(i as int),
        decreases chain.len() - i,
    {
        let ghost before = text::texts(parts@);
        add_line(&mut parts, name_process(chain[i]));
        assert(want[i as int] == named_process(*chain@[i as int]));
        assert(want.take(i + 1) =~= before.push(want[i as int]));
        i += 1;
    }
    assert(want.take(want.len() as int) =~= want);
    add_line(&mut parts, name_process(target));
    "ancestry: ".to_owned().concat(join_of(&parts, " → ").as_str())
}

// ---------------------------------------------------------------------------
// Laws
// ---------------------------------------------------------------------------

proof fn a_number_with_a_unit(n: nat, unit: char)
    requires
        n <= u64::MAX,
        is_letter(unit),
    ensures
        text::trimmed(text::dec(n).push(unit)) == text::dec(n).push(unit),
        text::trimmed(text::dec(n)) == text::dec(n),
        text::parsed(text::dec(n), u64::MAX as nat) == Some(n),
        !is_letter(text::dec(n).last()),
        text::dec(n).len() > 0,
{
    text::decimal_reads_back(n);
    let d = text::dec(n);
    assert(text::is_digit(d[0]) && text::is_digit(d[d.len() - 1]));
    assert(!text::is_white(unit));
    assert(d.push(unit)[0] == d[0]);
}

/// A number with a unit is that many seconds, minutes or hours, and without
/// one that many seconds; zero counts as one second.
pub proof fn durations_are_read_by_their_unit(n: nat)
    ensures
        n <= u64::MAX && n > 0 ==> duration_secs(text::dec(n)) == Ok::<nat, Seq<char>>(n)
            && duration_secs(text::dec(n).push('s')) == Ok::<nat, Seq<char>>(n) && duration_secs(
            text::dec(n).push('S'),
        ) == Ok::<nat, Seq<char>>(n),
        n * 60 <= u64::MAX && n > 0 ==> duration_secs(text::dec(n).push('m')) == Ok::<
            nat,
            Seq<char>,
        >(n * 60),
        n * 3600 <= u64::MAX && n > 0 ==> duration_secs(text::dec(n).push('h')) == Ok::<
            nat,
            Seq<char>,
        >(n * 3600),
        n * 60 > u64::MAX ==> duration_secs(text::dec(n).push('m')) is Err,
        n * 3600 > u64::MAX ==> duration_secs(text::dec(n).push('h')) is Err,
        n == 0 ==> duration_secs(text::dec(n)) == Ok::<nat, Seq<char>>(1),
        n <= u64::MAX ==> duration_secs(text::dec(n).push('d')) is Err,
{
    let d = text::dec(n);
    text::decimal_reads_back(n);
    assert(text::is_digit(d[0]) && text::is_digit(d[d.len() - 1]));
    if n <= u64::MAX {
        a_number_with_a_unit(n, 's');
        a_number_with_a_unit(n, 'S');
        a_number_with_a_unit(n, 'm');
        a_number_with_a_unit(n, 'h');
        a_number_with_a_unit(n, 'd');
    } else {
        assert(d.push('m')[0] == d[0] && d.push('h')[0] == d[0]);
        assert(!text::is_white('m') && !text::is_white('h'));
        assert(text::trimmed(d.push('m')) == d.push('m'));
        assert(text::trimmed(d.push('h')) == d.push('h'));
    }
    assert(d.push('s').drop_last() =~= d);
    assert(d.push('S').drop_last() =~= d);
    assert(d.push('m').drop_last() =~= d);
    assert(d.push('h').drop_last() =~= d);
    assert(d.push('d').drop_last() =~= d);
    assert(text::lower_char('S') == 's');
    assert(n <= u64::MAX ==> duration_parts(d) == (d, 's'));
    assert(unit_secs('s') == Some(1nat));
    assert(n * 1 == n) by (nonlinear_arith);
}

/// What fits is not cut. What is cut is as long as it may be, keeps its
/// start and says that it was cut.
pub proof fn a_cut_text_keeps_its_start(s: Seq<char>, max: nat)
    requires
        max > 0,
    ensures
        s.len() <= max ==> truncated(s, max) == s,
        s.len() > max ==> truncated(s, max).len() == max && truncated(s, max).last() == '…'
            && truncated(s, max).drop_last() == s.take(max - 1),
{
    if s.len() > max {
        assert(truncated(s, max).drop_last() =~= s.take(max - 1));
    }
}

/// The run that options ask for has their command, directory, times and
/// resources, memory in bytes, and belongs to no session and no project.
pub proof fn a_run_has_what_was_asked_for(spec: RunSpec, o: RunOptions)
    requires
        runs_as(spec, o),
    ensures
        spec.request_id@ == o.request_id@,
        spec.argv == o.argv,
        spec.cwd == o.cwd,
        spec.timeout == o.timeout,
        spec.grace == o.grace,
        spec.project_root is None,
        spec.session_id is None,
        spec.resources.memory_bytes is Some <==> o.memory is Some,
        o.memory is Some && o.memory->0 < 17_592_186_044_416 ==> spec.resources.memory_bytes->0
            == o.memory->0 * 1_048_576,
        o.enforce@ == "none"@ ==> spec.resources.enforcement == Enforcement::Off,
        o.enforce@ == "monitored"@ ==> spec.resources.enforcement == Enforcement::Monitored,
        o.enforce@ == "hard"@ ==> spec.resources.enforcement == Enforcement::Hard,
        spec.resources.queue_timeout == o.queue_timeout,
        spec.resources.cpu_millicores == o.cpu,
        spec.resources.processes == o.processes,
{
    reveal_strlit("none");
    reveal_strlit("monitored");
    reveal_strlit("hard");
    assert("none"@[0] == 'n' && "monitored"@[0] == 'm' && "hard"@[0] == 'h');
}

/// A run is refused where its directory is not absolute, and else where its
/// enforcement is none of the three; for nothing else.
pub proof fn options_are_refused_for_two_reasons(o: RunOptions)
    ensures
        options_error(o) is None <==> text::starts_with(o.cwd@, "/"@) && (o.enforce@ == "none"@
            || o.enforce@ == "monitored"@ || o.enforce@ == "hard"@),
        !text::starts_with(o.cwd@, "/"@) ==> options_error(o) == Some(
            "--cwd must be an absolute path"@,
        ),
{
}

/// A limit is set by `KEY=VALUE`: those in mebibytes become bytes and change
/// their name, the others keep both.
pub proof fn a_setting_names_a_limit(key: Seq<char>, n: u64)
    requires
        forall|i: int| 0 <= i < key.len() ==> #[trigger] key[i] != '=',
    ensures
        ({
            let item = key + seq!['='] + text::dec(n as nat);
            &&& key == "memory_budget_mb"@ && n < 17_592_186_044_416 ==> setting(item) == Ok::<
                (Seq<char>, JsonModel),
                Seq<char>,
            >(("memory_budget_bytes"@, JsonModel::Unsigned((n * 1_048_576) as u64)))
            &&& key != "memory_budget_mb"@ && key == "default_run_memory_mb"@ && n
                < 17_592_186_044_416 ==> setting(item) == Ok::<(Seq<char>, JsonModel), Seq<char>>(
                ("default_run_memory_bytes"@, JsonModel::Unsigned((n * 1_048_576) as u64)),
            )
            &&& key != "memory_budget_mb"@ && key != "default_run_memory_mb"@ && (key
                == "max_parallel"@ || key == "max_parallel_per_project"@ || key == "max_queued"@
                || key == "queue_timeout_secs"@ || key == "starvation_after_secs"@ || key
                == "cpu_budget_millicores"@ || key == "pids_budget"@) ==> setting(item) == Ok::<
                (Seq<char>, JsonModel),
                Seq<char>,
            >((key, JsonModel::Unsigned(n)))
        }),
{
    let d = text::dec(n as nat);
    let item = key + seq!['='] + d;
    text::decimal_reads_back(n as nat);
    assert(text::is_digit(d[0]));
    text::the_first_is_found(item, '=');
    let at = text::first_at(item, '=');
    assert(item[key.len() as int] == '=');
    assert(at == key.len()) by {
        if at < key.len() {
            assert(item[at] == key[at]);
        }
    }
    assert(item.take(at) =~= key);
    assert(item.skip(at + 1) =~= d);
}

/// A limit that is set twice has its last value, and every limit that was set
/// is there.
pub proof fn the_last_setting_stands(
    items: Seq<Seq<char>>,
    i: int,
    key: Seq<char>,
    value: JsonModel,
)
    requires
        settings(items) is Ok,
        0 <= i < items.len(),
        setting(items[i]) == Ok::<(Seq<char>, JsonModel), Seq<char>>((key, value)),
        forall|j: int|
            i < j < items.len() ==> setting(#[trigger] items[j]) is Ok && setting(
                items[j],
            )->Ok_0.0 != key,
    ensures
        settings(items)->Ok_0.contains((key, value)),
    decreases items.len(),
{
    let front = items.drop_last();
    let ms = settings(front)->Ok_0;
    let all = settings(items)->Ok_0;
    assert(items.last() == items[items.len() - 1]);
    if i < front.len() {
        assert(front[i] == items[i]);
        assert forall|j: int| i < j < front.len() implies setting(#[trigger] front[j]) is Ok
            && setting(front[j])->Ok_0.0 != key by {
            assert(front[j] == items[j]);
        }
        the_last_setting_stands(front, i, key, value);
        let m = setting(items.last())->Ok_0;
        let k = choose|k: int| 0 <= k < ms.len() && ms[k] == (key, value);
        kept_by_another_name(ms, m.0, k);
        let kept = client::without(ms, m.0);
        let n = choose|n: int| 0 <= n < kept.len() && kept[n] == (key, value);
        assert(all[n] == (key, value));
    } else {
        assert(all.last() == (key, value));
    }
}

proof fn kept_by_another_name(ms: Seq<(Seq<char>, JsonModel)>, name: Seq<char>, k: int)
    requires
        0 <= k < ms.len(),
        ms[k].0 != name,
    ensures
        client::without(ms, name).contains(ms[k]),
    decreases ms.len(),
{
    let front = ms.drop_last();
    if k < front.len() {
        assert(front[k] == ms[k]);
        kept_by_another_name(front, name, k);
        let kept = client::without(front, name);
        let n = choose|n: int| 0 <= n < kept.len() && kept[n] == ms[k];
        assert(client::without(ms, name)[n] == ms[k]);
    } else {
        assert(client::without(ms, name).last() == ms[k]);
    }
}

} // verus!

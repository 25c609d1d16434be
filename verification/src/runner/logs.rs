//! Bounded, file-backed run output.
//!
//! Each stream is an append-only file capped at a per-stream limit. Once the
//! cap is hit the pipe is still drained (a full pipe would deadlock the child)
//! but the bytes are dropped and the stream is marked truncated. The **head**
//! of the output is kept, not a rolling tail: cursors are plain byte offsets
//! into the file, so they stay stable across reads and never shift.
//!
//! Output is never parsed for instructions — it is data, and it may contain
//! secrets. The files live in a 0700 directory owned by the user; they are
//! opened, read and written by the program around the library.

use crate::bytes;
use crate::classify::group;
use crate::classify::group::sat_add;
use crate::model::run::LogState;
use crate::path;
use crate::path::{is_below, join};
use crate::text;
use crate::text::{dec_of_int, same};
use vstd::prelude::*;

verus! {

/// Which stream a sink or cursor refers to.
#[derive(Debug, Clone, Copy, PartialEq, Eq, Structural)]
pub enum Stream {
    Stdout,
    Stderr,
}

impl Stream {
    pub open spec fn name(self) -> Seq<char> {
        match self {
            Stream::Stdout => "stdout"@,
            Stream::Stderr => "stderr"@,
        }
    }

    pub fn as_str(self) -> (r: &'static str)
        ensures
            r@ == self.name(),
    {
        match self {
            Stream::Stdout => "stdout",
            Stream::Stderr => "stderr",
        }
    }

    pub fn parse(s: &str) -> (r: Option<Self>)
        ensures
            forall|stream: Stream| #[trigger] stream.name() == s@ <==> r == Some(stream),
    {
        proof {
            stream_names_differ();
            assert(Stream::Stdout.name() == "stdout"@);
            assert(Stream::Stderr.name() == "stderr"@);
        }
        if same(s, "stdout") {
            Some(Stream::Stdout)
        } else if same(s, "stderr") {
            Some(Stream::Stderr)
        } else {
            None
        }
    }
}

/// The two streams have different names, so reading back the name of one
/// gives that one.
pub proof fn stream_names_differ()
    ensures
        Stream::Stdout.name() != Stream::Stderr.name(),
{
    reveal_strlit("stdout");
    reveal_strlit("stderr");
    assert("stdout"@[3] == 'o');
    assert("stderr"@[3] == 'e');
}

/// One bounded chunk of output, as read by a client.
#[derive(Debug, Clone)]
pub struct LogChunk {
    pub data: String,
    pub next_cursor: u64,
    pub truncated: bool,
    /// `true` when the cursor is at the current end of the retained data.
    pub eof: bool,
}

pub open spec fn min(a: int, b: int) -> int {
    if a <= b {
        a
    } else {
        b
    }
}

/// What is left of a limit.
pub open spec fn room(limit: u64, used: u64) -> int {
    if limit >= used {
        limit - used
    } else {
        0
    }
}

/// Total on-disk bytes across all retained run logs, shared by every sink so
/// a global cap can be enforced without rescanning the disk.
#[derive(Debug, Clone, Copy, PartialEq, Eq, Structural)]
pub struct GlobalBudget {
    pub used: u64,
    pub limit: u64,
}

impl GlobalBudget {
    pub fn new(limit: u64, used: u64) -> (r: Self)
        ensures
            r == (GlobalBudget { used, limit }),
    {
        GlobalBudget { used, limit }
    }

    /// Take `n` bytes from the budget, returning how many were granted: as
    /// many as are left.
    pub fn take(&mut self, n: u64) -> (granted: u64)
        ensures
            granted == min(n as int, room(old(self).limit, old(self).used)),
            final(self).limit == old(self).limit,
            final(self).used == old(self).used + granted,
    {
        let left: u64 = if self.limit >= self.used {
            self.limit - self.used
        } else {
            0
        };
        let granted: u64 = if n <= left {
            n
        } else {
            left
        };
        self.used = self.used + granted;
        granted
    }

    pub fn release(&mut self, n: u64)
        ensures
            final(self).limit == old(self).limit,
            final(self).used == room(old(self).used, n),
    {
        self.used = if self.used >= n {
            self.used - n
        } else {
            0
        };
    }
}

/// The writer side of one stream, owned by the run's drain thread.
#[derive(Debug, Clone, Copy, PartialEq, Eq, Structural)]
pub struct LogSink {
    pub written: u64,
    pub limit: u64,
    pub truncated: bool,
    pub stream: Stream,
}

/// The log state with a stream's counters replaced.
pub open spec fn published(state: LogState, sink: LogSink) -> LogState {
    match sink.stream {
        Stream::Stdout => LogState {
            stdout_bytes: sink.written,
            stdout_truncated: sink.truncated,
            ..state
        },
        Stream::Stderr => LogState {
            stderr_bytes: sink.written,
            stderr_truncated: sink.truncated,
            ..state
        },
    }
}

/// How many of `offered` bytes a sink keeps: what its own limit and the
/// shared budget leave room for.
pub open spec fn granted(sink: LogSink, budget: GlobalBudget, offered: int) -> int {
    min(min(offered, room(sink.limit, sink.written)), room(budget.limit, budget.used))
}

impl LogSink {
    /// A sink over a stream's file of `existing` bytes, which count against
    /// the per-stream limit.
    pub fn open(existing: u64, stream: Stream, limit: u64, state: &mut LogState) -> (r: Self)
        ensures
            r == (LogSink { written: existing, limit, truncated: existing >= limit, stream }),
            *final(state) == published(*old(state), r),
    {
        let r: LogSink = LogSink { written: existing, limit, truncated: existing >= limit, stream };
        r.publish(state);
        r
    }

    /// As much of `buf` as the per-stream and global caps allow, to be
    /// appended to the file. The rest is dropped — never buffered, never
    /// blocking the child.
    pub fn write_all_bounded(&self, buf: &[u8], budget: &mut GlobalBudget) -> (r: Vec<u8>)
        ensures
            r@ == buf@.take(granted(*self, *old(budget), buf@.len() as int)),
            final(budget).limit == old(budget).limit,
            final(budget).used == old(budget).used + r@.len(),
    {
        let left: u64 = if self.limit >= self.written {
            self.limit - self.written
        } else {
            0
        };
        let len: u64 = buf.len() as u64;
        let want: u64 = if len <= left {
            len
        } else {
            left
        };
        let n: u64 = budget.take(want);
        let mut r: Vec<u8> = Vec::new();
        let mut i: usize = 0;
        while i < n as usize
            invariant
                i <= n <= buf@.len(),
                r@ == buf@.take(i as int),
            decreases n - i,
        {
            r.push(buf[i]);
            assert(buf@.take(i + 1) =~= buf@.take(i as int).push(buf@[i as int]));
            i += 1;
        }
        r
    }

    /// Accounts for `kept` bytes written out of `offered`.
    pub fn stored(&mut self, kept: u64, offered: usize, state: &mut LogState)
        requires
            old(self).written + kept <= u64::MAX,
        ensures
            offered == 0 ==> *final(self) == *old(self) && *final(state) == *old(state),
            offered > 0 ==> {
                &&& *final(self) == (LogSink {
                    written: (old(self).written + kept) as u64,
                    truncated: old(self).truncated || kept < offered,
                    ..*old(self)
                })
                &&& *final(state) == published(*old(state), *final(self))
            },
    {
        if offered == 0 {
            return ;
        }
        self.written = self.written + kept;
        if kept < offered as u64 {
            self.truncated = true;
        }
        self.publish(state);
    }

    fn publish(&self, state: &mut LogState)
        ensures
            *final(state) == published(*old(state), *self),
    {
        match self.stream {
            Stream::Stdout => {
                state.stdout_bytes = self.written;
                state.stdout_truncated = self.truncated;
            },
            Stream::Stderr => {
                state.stderr_bytes = self.written;
                state.stderr_truncated = self.truncated;
            },
        }
    }
}

/// A stream within its limit stays within it, the shared budget never grows
/// past its own limit, and a byte is dropped only where one of the two has no
/// room left.
pub proof fn output_stays_bounded(sink: LogSink, budget: GlobalBudget, offered: nat)
    ensures
        granted(sink, budget, offered as int) <= offered,
        sink.written <= sink.limit ==> sink.written + granted(sink, budget, offered as int)
            <= sink.limit,
        budget.used <= budget.limit ==> budget.used + granted(sink, budget, offered as int)
            <= budget.limit,
        granted(sink, budget, offered as int) < offered ==> sink.written + granted(
            sink,
            budget,
            offered as int,
        ) >= sink.limit || budget.used + granted(sink, budget, offered as int) >= budget.limit,
{
}

/// With room in the shared budget the head of the output is what is kept:
/// two writes in a row leave what one write of both would have left.
pub proof fn head_is_kept(sink: LogSink, budget: GlobalBudget, a: Seq<u8>, b: Seq<u8>)
    requires
        room(budget.limit, budget.used) >= a.len() + b.len(),
        sink.written + a.len() + b.len() <= u64::MAX,
    ensures
        ({
            let n = granted(sink, budget, a.len() as int);
            let sink2 = LogSink { written: (sink.written + n) as u64, ..sink };
            let budget2 = GlobalBudget { used: (budget.used + n) as u64, ..budget };
            let m = granted(sink2, budget2, b.len() as int);
            a.take(n) + b.take(m) == (a + b).take(
                granted(sink, budget, (a.len() + b.len()) as int),
            )
        }),
{
    let n = granted(sink, budget, a.len() as int);
    let sink2 = LogSink { written: (sink.written + n) as u64, ..sink };
    let budget2 = GlobalBudget { used: (budget.used + n) as u64, ..budget };
    let m = granted(sink2, budget2, b.len() as int);
    assert(a.take(n) + b.take(m) =~= (a + b).take(
        granted(sink, budget, (a.len() + b.len()) as int),
    ));
}

/// One file of a directory, as a listing tells it.
#[derive(Debug, Clone)]
pub struct DirEntry {
    pub name: String,
    pub is_file: bool,
    pub len: u64,
}

/// Bytes of a run's log files, the largest number where they exceed it.
pub open spec fn log_bytes(entries: Seq<DirEntry>) -> u64
    decreases entries.len(),
{
    if entries.len() == 0 {
        0
    } else if entries.last().is_file && entries.last().name@ != "tmp"@ {
        group::sat(log_bytes(entries.drop_last()), entries.last().len)
    } else {
        log_bytes(entries.drop_last())
    }
}

/// Bytes stored in a directory, excluding the per-run tmp directory (its size
/// is not part of the log budget).
pub fn dir_bytes(entries: &Vec<DirEntry>) -> (r: u64)
    ensures
        r == log_bytes(entries@),
{
    let mut r: u64 = 0;
    let mut i: usize = 0;
    assert(entries@.take(0) =~= Seq::<DirEntry>::empty());
    while i < entries.len()
        invariant
            i <= entries.len(),
            r == log_bytes(entries@.take(i as int)),
        decreases entries.len() - i,
    {
        assert(entries@.take(i + 1).drop_last() =~= entries@.take(i as int));
        if entries[i].is_file && !same(entries[i].name.as_str(), "tmp") {
            r = sat_add(r, entries[i].len);
        }
        i += 1;
    }
    assert(entries@.take(entries@.len() as int) =~= entries@);
    r
}

/// One entry of the run root: a run's directory, or a stray file.
#[derive(Debug, Clone)]
pub enum RootEntry {
    Directory(Vec<DirEntry>),
    File(u64),
}

pub open spec fn entry_bytes(e: RootEntry) -> u64 {
    match e {
        RootEntry::Directory(entries) => log_bytes(entries@),
        RootEntry::File(len) => len,
    }
}

pub open spec fn root_bytes(entries: Seq<RootEntry>) -> u64
    decreases entries.len(),
{
    if entries.len() == 0 {
        0
    } else {
        group::sat(root_bytes(entries.drop_last()), entry_bytes(entries.last()))
    }
}

/// Bytes already retained under the run root, so the global log cap survives
/// a supervisor restart.
pub fn scan_log_bytes(entries: &Vec<RootEntry>) -> (r: u64)
    ensures
        r == root_bytes(entries@),
{
    let mut r: u64 = 0;
    let mut i: usize = 0;
    assert(entries@.take(0) =~= Seq::<RootEntry>::empty());
    while i < entries.len()
        invariant
            i <= entries.len(),
            r == root_bytes(entries@.take(i as int)),
        decreases entries.len() - i,
    {
        assert(entries@.take(i + 1).drop_last() =~= entries@.take(i as int));
        let n: u64 = match &entries[i] {
            RootEntry::Directory(d) => dir_bytes(d),
            RootEntry::File(len) => *len,
        };
        r = sat_add(r, n);
        i += 1;
    }
    assert(entries@.take(entries@.len() as int) =~= entries@);
    r
}

/// Bytes read as text, invalid sequences replaced.
pub uninterp spec fn lossy_text(b: Seq<u8>) -> Seq<char>;

/// `String::from_utf8_lossy`: the text that the bytes encode, with
/// replacement characters where they encode none. Bytes that are the UTF-8
/// form of a text give that text; what stands for invalid ones is not stated.
#[verifier::external_body]
fn lossy(b: &[u8]) -> (r: String)
    ensures
        r@ == lossy_text(b@),
        forall|s: Seq<char>| #[trigger] bytes::utf8(s) == b@ ==> r@ == s,
{
    String::from_utf8_lossy(b).into_owned()
}

/// Where a chunk starts: at the cursor, or at the end where that is less.
pub open spec fn chunk_start(len: int, cursor: u64) -> int {
    min(cursor as int, len)
}

/// How many bytes a chunk holds.
pub open spec fn chunk_len(len: int, cursor: u64, max_bytes: usize) -> int {
    min(len - chunk_start(len, cursor), max_bytes as int)
}

/// The bytes of a chunk.
pub open spec fn chunk_bytes(content: Seq<u8>, cursor: u64, max_bytes: usize) -> Seq<u8> {
    let start = chunk_start(content.len() as int, cursor);
    content.subrange(start, start + chunk_len(content.len() as int, cursor, max_bytes))
}

/// Where to read a chunk in a file of `len` bytes, and how much.
pub fn chunk_window(len: u64, cursor: u64, max_bytes: usize) -> (r: (u64, usize))
    ensures
        r.0 == chunk_start(len as int, cursor),
        r.1 == chunk_len(len as int, cursor, max_bytes),
{
    let start: u64 = if cursor <= len {
        cursor
    } else {
        len
    };
    let left: u64 = len - start;
    let take: usize = if left <= max_bytes as u64 {
        left as usize
    } else {
        max_bytes
    };
    (start, take)
}

/// The chunk whose bytes were read at `start` in a file of `len` bytes.
/// Invalid UTF-8 is shown as replacement characters.
pub fn chunk_from(read: &[u8], start: u64, len: u64) -> (r: LogChunk)
    requires
        start + read@.len() <= len,
    ensures
        r.data@ == lossy_text(read@),
        forall|s: Seq<char>| #[trigger] bytes::utf8(s) == read@ ==> r.data@ == s,
        r.next_cursor == start + read@.len(),
        !r.truncated,
        r.eof == (start + read@.len() == len),
{
    let next: u64 = start + read.len() as u64;
    LogChunk { data: lossy(read), next_cursor: next, truncated: false, eof: next >= len }
}

/// One bounded chunk of a retained stream's content. Where there is no file
/// yet, nothing was written: an empty, finished chunk.
pub fn read_chunk(content: &Option<Vec<u8>>, cursor: u64, max_bytes: usize) -> (r: LogChunk)
    ensures
        match content {
            Some(c) => {
                let data = chunk_bytes(c@, cursor, max_bytes);
                &&& r.data@ == lossy_text(data)
                &&& forall|s: Seq<char>| #[trigger] bytes::utf8(s) == data ==> r.data@ == s
                &&& r.next_cursor == chunk_start(c@.len() as int, cursor) + data.len()
                &&& !r.truncated
                &&& r.eof == (r.next_cursor == c@.len())
            },
            None => {
                &&& r.data@.len() == 0
                &&& r.next_cursor == 0
                &&& !r.truncated
                &&& r.eof
            },
        },
{
    match content {
        None => LogChunk { data: String::new(), next_cursor: 0, truncated: false, eof: true },
        Some(c) => {
            let (start, take): (u64, usize) = chunk_window(c.len() as u64, cursor, max_bytes);
            let at: usize = start as usize;
            let mut buf: Vec<u8> = Vec::new();
            let mut i: usize = 0;
            while i < take
                invariant
                    i <= take,
                    at + take <= c.len(),
                    at == start,
                    buf@ == c@.subrange(start as int, start + i),
                decreases take - i,
            {
                buf.push(c[at + i]);
                assert(c@.subrange(start as int, start + i + 1) =~= c@.subrange(
                    start as int,
                    start + i,
                ).push(c@[start + i]));
                i += 1;
            }
            assert(buf@ == chunk_bytes(c@, cursor, max_bytes));
            chunk_from(buf.as_slice(), start, c.len() as u64)
        },
    }
}

/// The output of a stream was cut at the limit.
pub open spec fn was_truncated(logs: LogState, stream: Stream) -> bool {
    match stream {
        Stream::Stdout => logs.stdout_truncated,
        Stream::Stderr => logs.stderr_truncated,
    }
}

/// A bounded chunk of one stream of a run. `logs` is what the live run knows
/// of its streams, or else what was recorded; none where the run is not known.
pub fn output(
    logs: &Option<LogState>,
    content: &Option<Vec<u8>>,
    stream: Stream,
    cursor: u64,
    max_bytes: usize,
) -> (r: Option<LogChunk>)
    ensures
        match *logs {
            None => r is None,
            Some(l) => {
                &&& r is Some
                &&& r->Some_0.truncated == was_truncated(l, stream)
                &&& match *content {
                    Some(c) => {
                        let data = chunk_bytes(c@, cursor, max_bytes);
                        &&& r->Some_0.data@ == lossy_text(data)
                        &&& forall|s: Seq<char>| #[trigger]
                            bytes::utf8(s) == data ==> r->Some_0.data@ == s
                        &&& r->Some_0.next_cursor == chunk_start(c@.len() as int, cursor)
                            + data.len()
                        &&& r->Some_0.eof == (r->Some_0.next_cursor == c@.len())
                    },
                    None => {
                        &&& r->Some_0.data@.len() == 0
                        &&& r->Some_0.next_cursor == 0
                        &&& r->Some_0.eof
                    },
                }
            },
        },
{
    match logs {
        None => None,
        Some(l) => {
            let mut chunk: LogChunk = read_chunk(content, cursor, max_bytes);
            chunk.truncated =
            match stream {
                Stream::Stdout => l.stdout_truncated,
                Stream::Stderr => l.stderr_truncated,
            };
            Some(chunk)
        },
    }
}

/// Cursors stay stable: output that is appended later does not change a chunk
/// that was full or ended before it, and the chunk at the next cursor goes on
/// exactly where this one ended.
pub proof fn cursors_are_stable(
    content: Seq<u8>,
    more: Seq<u8>,
    cursor: u64,
    max_bytes: usize,
    next_max: usize,
)
    requires
        content.len() <= u64::MAX,
        cursor <= content.len(),
        content.len() - cursor >= max_bytes,
    ensures
        chunk_bytes(content + more, cursor, max_bytes) == chunk_bytes(content, cursor, max_bytes),
        ({
            let a = chunk_bytes(content, cursor, max_bytes);
            let b = chunk_bytes(content, (cursor + a.len()) as u64, next_max);
            a + b == content.subrange(cursor as int, cursor + a.len() + b.len())
        }),
{
    assert(chunk_bytes(content + more, cursor, max_bytes) =~= chunk_bytes(
        content,
        cursor,
        max_bytes,
    ));
    let a = chunk_bytes(content, cursor, max_bytes);
    let b = chunk_bytes(content, (cursor + a.len()) as u64, next_max);
    assert(a + b =~= content.subrange(cursor as int, cursor + a.len() + b.len()));
}

/// Paths of one run's private working area.
#[derive(Debug, Clone)]
pub struct RunPaths {
    root: String,
}

/// The directory of a run below a root.
pub open spec fn run_dir(root: Seq<char>, id: i64) -> Seq<char> {
    path::joined(root, text::dec_int(id as int))
}

impl View for RunPaths {
    type V = Seq<char>;

    closed spec fn view(&self) -> Seq<char> {
        self.root@
    }
}

/// A directory that must not be removed.
#[derive(Debug, Clone)]
pub struct OutsideRoot {
    pub dir: String,
}

impl OutsideRoot {
    pub fn to_text(&self) -> (r: String)
        ensures
            r@ == "refusing to remove "@ + self.dir@ + " outside the run root"@,
    {
        "refusing to remove ".to_owned().concat(self.dir.as_str()).concat(" outside the run root")
    }
}

impl RunPaths {
    pub fn new(root: String) -> (r: Self)
        ensures
            r@ == root@,
    {
        RunPaths { root }
    }

    pub fn root(&self) -> (r: &str)
        ensures
            r@ == self@,
    {
        self.root.as_str()
    }

    pub fn dir(&self, id: i64) -> (r: String)
        ensures
            r@ == run_dir(self@, id),
    {
        join(self.root.as_str(), dec_of_int(id).as_str())
    }

    pub fn stream_file(&self, id: i64, stream: Stream) -> (r: String)
        ensures
            r@ == path::joined(run_dir(self@, id), stream.name()),
    {
        join(self.dir(id).as_str(), stream.as_str())
    }

    /// Per-run `TMPDIR`. Convenience, not a sandbox: the command can still
    /// write anywhere it has permission to.
    pub fn tmp(&self, id: i64) -> (r: String)
        ensures
            r@ == path::joined(run_dir(self@, id), "tmp"@),
    {
        join(self.dir(id).as_str(), "tmp")
    }

    /// The directories to create for a run, in order.
    pub fn prepare(&self, id: i64) -> (r: (String, String))
        ensures
            r.0@ == run_dir(self@, id),
            r.1@ == path::joined(run_dir(self@, id), "tmp"@),
    {
        (self.dir(id), self.tmp(id))
    }

    /// The directory to remove for a run. Only the run root is ever touched:
    /// `root` and `dir` are where the root and the run's directory really
    /// lead, none where that could not be resolved.
    pub fn remove(&self, id: i64, root: &Option<String>, dir: &Option<String>) -> (r: Result<
        String,
        OutsideRoot,
    >)
        ensures
            ({
                let real_root = match root {
                    Some(p) => p@,
                    None => self@,
                };
                let real_dir = match dir {
                    Some(p) => p@,
                    None => run_dir(self@, id),
                };
                match r {
                    Ok(d) => path::below(real_dir, real_root) && d@ == run_dir(self@, id),
                    Err(e) => !path::below(real_dir, real_root) && e.dir@ == run_dir(self@, id),
                }
            }),
    {
        let own: String = self.dir(id);
        let real_root: String = match root {
            Some(p) => p.clone(),
            None => self.root.clone(),
        };
        let real_dir: String = match dir {
            Some(p) => p.clone(),
            None => own.clone(),
        };
        if is_below(real_dir.as_str(), real_root.as_str()) {
            Ok(own)
        } else {
            Err(OutsideRoot { dir: own })
        }
    }
}

/// A chunk is the next bytes from the cursor on, as many as were asked for or
/// as there are. What was read and what is left are the output from the
/// cursor on, so a client that follows the cursors sees every byte once, and
/// while there is any left it gets at least one.
pub proof fn a_chunk_is_the_next_bytes(content: Seq<u8>, cursor: u64, max_bytes: usize)
    ensures
        ({
            let data = chunk_bytes(content, cursor, max_bytes);
            &&& data.len() <= max_bytes
            &&& cursor < content.len() && max_bytes > 0 ==> data.len() > 0
            &&& cursor >= content.len() ==> data.len() == 0
            &&& cursor <= content.len() ==> data + content.skip((cursor + data.len()) as int)
                == content.skip(cursor as int)
            &&& data.len() < max_bytes && cursor <= content.len() ==> cursor + data.len()
                == content.len()
        }),
{
    let data = chunk_bytes(content, cursor, max_bytes);
    if cursor <= content.len() {
        assert(data + content.skip((cursor + data.len()) as int) =~= content.skip(cursor as int));
    }
}

/// The counters of one stream are published without touching the other's.
pub proof fn streams_are_counted_apart(state: LogState, sink: LogSink)
    ensures
        ({
            let after = published(state, sink);
            &&& sink.stream == Stream::Stdout ==> after.stdout_bytes == sink.written
                && after.stdout_truncated == sink.truncated && after.stderr_bytes
                == state.stderr_bytes && after.stderr_truncated == state.stderr_truncated
            &&& sink.stream == Stream::Stderr ==> after.stderr_bytes == sink.written
                && after.stderr_truncated == sink.truncated && after.stdout_bytes
                == state.stdout_bytes && after.stdout_truncated == state.stdout_truncated
            &&& was_truncated(after, sink.stream) == sink.truncated
        }),
{
}

/// A sink keeps the least of what is offered, what its own limit leaves and
/// what the shared budget leaves.
pub proof fn the_tightest_limit_counts(sink: LogSink, budget: GlobalBudget, offered: nat)
    ensures
        ({
            let n = granted(sink, budget, offered as int);
            let own = if sink.written < sink.limit {
                sink.limit - sink.written
            } else {
                0
            };
            let shared = if budget.used < budget.limit {
                budget.limit - budget.used
            } else {
                0
            };
            &&& n <= offered && n <= own && n <= shared
            &&& n == offered || n == own || n == shared
        }),
{
}

/// The bytes of a run are those of its files, but for anything called `tmp`;
/// the bytes of all runs are those of their directories and of stray files.
/// Where a sum does not fit, it is the largest number.
pub proof fn log_bytes_are_those_of_the_files(entries: Seq<DirEntry>)
    ensures
        ({
            let sum = entries.filter(
                |e: DirEntry| e.is_file && e.name@ != "tmp"@,
            ).fold_left(0nat, |n: nat, e: DirEntry| n + e.len as nat);
            log_bytes(entries) == (if sum <= u64::MAX {
                sum
            } else {
                u64::MAX as nat
            })
        }),
    decreases entries.len(),
{
    reveal(Seq::filter);
    let counts = |e: DirEntry| e.is_file && e.name@ != "tmp"@;
    if entries.len() > 0 {
        let front = entries.drop_last();
        log_bytes_are_those_of_the_files(front);
        if counts(entries.last()) {
            let before = front.filter(counts);
            assert(entries.filter(counts) == before.push(entries.last()));
            assert(entries.filter(counts).drop_last() =~= before);
        }
    }
}

/// The bytes below the run root add up entry by entry.
pub proof fn root_bytes_add_up(entries: Seq<RootEntry>)
    ensures
        ({
            let sum = entries.fold_left(
                0nat,
                |n: nat, e: RootEntry|
                    n + (match e {
                        RootEntry::Directory(d) => log_bytes(d@) as nat,
                        RootEntry::File(len) => len as nat,
                    }),
            );
            root_bytes(entries) == (if sum <= u64::MAX {
                sum
            } else {
                u64::MAX as nat
            })
        }),
    decreases entries.len(),
{
    if entries.len() > 0 {
        root_bytes_add_up(entries.drop_last());
    }
}

} // verus!

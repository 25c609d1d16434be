use wyd::model::run::LogState;
use wyd::runner::logs::{
    dir_bytes, output, read_chunk, scan_log_bytes, DirEntry, GlobalBudget, LogSink, RootEntry,
    RunPaths, Stream,
};

fn store(sink: &mut LogSink, budget: &mut GlobalBudget, state: &mut LogState, buf: &[u8]) -> Vec<u8> {
    let kept = sink.write_all_bounded(buf, budget);
    sink.stored(kept.len() as u64, buf.len(), state);
    kept
}

#[test]
fn cap_drops_the_tail_and_keeps_cursors_stable() {
    let mut state = LogState::default();
    let mut budget = GlobalBudget::new(1024, 0);
    let mut sink = LogSink::open(0, Stream::Stdout, 10, &mut state);

    let file = Some(store(&mut sink, &mut budget, &mut state, b"0123456789ABCDEF"));

    let first = read_chunk(&file, 0, 1024);
    assert_eq!(first.data, "0123456789");
    assert_eq!(first.next_cursor, 10);
    assert!(state.stdout_truncated);
    assert_eq!(state.stdout_bytes, 10);
    assert_eq!(read_chunk(&file, 0, 4).data, "0123");
    assert_eq!(read_chunk(&file, 4, 4).data, "4567");
}

#[test]
fn global_budget_stops_writes_without_error() {
    let mut state = LogState::default();
    let mut budget = GlobalBudget::new(4, 4);
    let mut sink = LogSink::open(0, Stream::Stdout, 100, &mut state);
    let file = store(&mut sink, &mut budget, &mut state, b"hello");
    assert_eq!(file.len(), 0);
    assert!(state.stdout_truncated);
}

#[test]
fn missing_file_reads_as_finished_empty() {
    let chunk = read_chunk(&None, 0, 16);
    assert!(chunk.data.is_empty());
    assert!(chunk.eof);
}

#[test]
fn remove_refuses_paths_outside_the_root() {
    let paths = RunPaths::new("/tmp/wyd/runs".into());
    let root = Some("/tmp/wyd/runs".to_string());
    assert_eq!(paths.dir(1), "/tmp/wyd/runs/1");
    assert_eq!(
        paths.remove(1, &root, &Some("/tmp/wyd/runs/1".into())).ok(),
        Some("/tmp/wyd/runs/1".to_string())
    );
    // Neither the root itself nor anything beside it is ever removed.
    assert!(paths.remove(1, &root, &root).is_err());
    let outside = paths.remove(1, &root, &Some("/tmp/elsewhere".into())).err().unwrap();
    assert!(outside.to_text().contains("outside the run root"));
}

#[test]
fn bytes_that_are_no_text_are_replaced() {
    let file = Some(vec![b'a', 0xff, b'b']);
    assert_eq!(read_chunk(&file, 0, 16).data, "a\u{fffd}b");
    let word = Some("né".as_bytes().to_vec());
    assert_eq!(read_chunk(&word, 0, 16).data, "né");
}

#[test]
fn a_cursor_past_the_end_reads_nothing() {
    let file = Some(b"abc".to_vec());
    let chunk = read_chunk(&file, 99, 16);
    assert_eq!(chunk.data, "");
    assert_eq!(chunk.next_cursor, 3);
    assert!(chunk.eof);
}

#[test]
fn released_bytes_can_be_taken_again() {
    let mut b = GlobalBudget::new(10, 0);
    assert_eq!(b.take(7), 7);
    assert_eq!(b.take(7), 3);
    assert_eq!(b.take(1), 0);
    b.release(4);
    assert_eq!(b.take(9), 4);
    b.release(100);
    assert_eq!(b.used, 0);
}

#[test]
fn output_reports_the_truncation_of_its_own_stream() {
    let mut state = LogState::default();
    state.stderr_truncated = true;
    let file = Some(b"xy".to_vec());
    let err = output(&Some(state), &file, Stream::Stderr, 0, 8).unwrap();
    assert!(err.truncated);
    let out = output(&Some(state), &file, Stream::Stdout, 0, 8).unwrap();
    assert!(!out.truncated);
    assert_eq!(out.data, "xy");
    assert!(output(&None, &file, Stream::Stdout, 0, 8).is_none());
}

#[test]
fn streams_are_named() {
    assert_eq!(Stream::parse("stdout"), Some(Stream::Stdout));
    assert_eq!(Stream::parse("stderr"), Some(Stream::Stderr));
    assert_eq!(Stream::parse("stdin"), None);
    assert_eq!(Stream::Stderr.as_str(), "stderr");
    let paths = RunPaths::new("/r".into());
    assert_eq!(paths.stream_file(7, Stream::Stderr), "/r/7/stderr");
    assert_eq!(paths.tmp(7), "/r/7/tmp");
}

#[test]
fn everything_but_scratch_space_counts_against_the_budget() {
    let entry = |name: &str, len: u64| DirEntry { name: name.into(), is_file: true, len };
    let mut dir = vec![entry("stdout", 5), entry("stderr", 7), entry("tmp", 100)];
    dir.push(DirEntry { name: "sub".into(), is_file: false, len: 9 });
    assert_eq!(dir_bytes(&dir), 12);
    assert_eq!(scan_log_bytes(&vec![RootEntry::Directory(dir), RootEntry::File(3)]), 15);
    assert_eq!(dir_bytes(&vec![entry("a", u64::MAX), entry("b", 1)]), u64::MAX);
}

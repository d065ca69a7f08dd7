use wartable::logs::{assemble_logs, combined_entries, keep_last, read_from_offset, tail_lines};
use wartable::models::LogEntry;
use wartable::scheduler::LogStream;

#[test]
fn tail_lines_basic() {
    assert_eq!(tail_lines("a\nb\nc\nd\ne", 3), "c\nd\ne");
    assert_eq!(tail_lines("a\nb\nc", 5), "a\nb\nc");
    assert_eq!(tail_lines("", 3), "");
    assert_eq!(tail_lines("single", 1), "single");
}

#[test]
fn tail_lines_exact() {
    assert_eq!(tail_lines("a\nb\nc", 3), "a\nb\nc");
}

#[test]
fn tail_lines_drops_line_endings_when_cutting() {
    assert_eq!(tail_lines("a\r\nb\r\nc\n", 2), "b\nc");
    assert_eq!(tail_lines("a\nb\n", 5), "a\nb\n");
    assert_eq!(tail_lines("a\nb\nc", 0), "");
}

#[test]
fn combined_log_streams() {
    let entries = combined_entries("out one\n\u{2}err one\nlast");
    assert_eq!(entries.len(), 3);
    assert_eq!(entries[0].stream, "out");
    assert_eq!(entries[0].line, "out one\n");
    assert_eq!(entries[1].stream, "err");
    assert_eq!(entries[1].line, "err one\n");
    assert_eq!(entries[2].stream, "out");
    assert_eq!(entries[2].line, "last");
    assert!(combined_entries("").is_empty());
}

#[test]
fn keep_last_entries() {
    let mk = |s: &str| LogEntry { stream: "out".to_string(), line: s.to_string() };
    let kept = keep_last(vec![mk("1"), mk("2"), mk("3")], 2);
    assert_eq!(kept.len(), 2);
    assert_eq!(kept[0].line, "2");
    let all = keep_last(vec![mk("1")], 5);
    assert_eq!(all.len(), 1);
}

#[test]
fn read_from_offset_slices_bytes() {
    let (text, total) = read_from_offset(b"hello world", Some(6));
    assert_eq!(text, "world");
    assert_eq!(total, 11);
    let (text, total) = read_from_offset(b"hello", Some(9));
    assert_eq!(text, "");
    assert_eq!(total, 5);
    let (text, _) = read_from_offset(b"hello", None);
    assert_eq!(text, "hello");
    let (text, _) = read_from_offset(&[0x66, 0xff, 0x67], None);
    assert_eq!(text, "f\u{fffd}g");
}

#[test]
fn assemble_both_streams_from_combined_log() {
    let combined = b"a\n\x02b\nc\n";
    let logs = assemble_logs(LogStream::Both, Some(2), None, None, None, Some(&combined[..]));
    assert_eq!(logs.stdout, "");
    assert_eq!(logs.combined_offset, Some(7));
    let entries = logs.combined.unwrap();
    assert_eq!(entries.len(), 2);
    assert_eq!(entries[0].stream, "err");
    assert_eq!(entries[0].line, "b\n");
    assert_eq!(entries[1].line, "c\n");
}

#[test]
fn assemble_single_stream() {
    let out = b"1\n2\n3\n";
    let err = b"oops\n";
    let logs = assemble_logs(LogStream::Stdout, Some(1), None, Some(&out[..]), Some(&err[..]), None);
    assert_eq!(logs.stdout, "3");
    assert_eq!(logs.stdout_offset, 6);
    assert_eq!(logs.stderr, "");
    assert_eq!(logs.stderr_offset, 0);
    assert!(logs.combined.is_none());
    let logs = assemble_logs(LogStream::Stderr, None, Some(1), Some(&out[..]), Some(&err[..]), None);
    assert_eq!(logs.stdout, "");
    assert_eq!(logs.stderr, "ops\n");
    assert_eq!(logs.stderr_offset, 5);
    let missing = assemble_logs(LogStream::Both, None, None, None, None, None);
    assert_eq!(missing.combined_offset, Some(0));
    assert!(missing.combined.unwrap().is_empty());
}

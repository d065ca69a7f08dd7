//! Turning a job's log files into log replies: reading from an offset, splitting lines,
//! telling the streams of the combined log apart, and keeping the last lines.
use vstd::prelude::*;
use vstd::slice::slice_subrange;
use vstd::utf8::{decode_utf8, valid_utf8};
use crate::models::{JobLogs, LogEntry};
use crate::scheduler::LogStream;
use crate::text::{chars_of, chars_range, owned, string_of};

verus! {

/// The text std's lossy UTF-8 decoding gives for some bytes.
pub uninterp spec fn utf8_lossy(bytes: Seq<u8>) -> Seq<char>;

/// Decodes bytes as UTF-8, replacing invalid sequences (`String::from_utf8_lossy`).
/// Valid UTF-8 decodes to exactly the characters it encodes.
#[verifier::external_body]
fn decode_lossy(bytes: &[u8]) -> (r: String)
    ensures
        r@ == utf8_lossy(bytes@),
        valid_utf8(bytes@) ==> r@ == decode_utf8(bytes@),
{
    String::from_utf8_lossy(bytes).into_owned()
}

/// The text of some bytes read as UTF-8: exactly the characters they encode when they
/// are valid UTF-8, with invalid sequences replaced otherwise.
pub open spec fn lossy_text(bytes: Seq<u8>) -> Seq<char> {
    if valid_utf8(bytes) {
        decode_utf8(bytes)
    } else {
        utf8_lossy(bytes)
    }
}

/// The bytes of a log from `offset` on (none when the offset is at or past the end).
pub open spec fn bytes_from(content: Seq<u8>, offset: Option<u64>) -> Seq<u8> {
    let off = match offset {
        Some(o) => o as int,
        None => 0,
    };
    if off < content.len() {
        content.skip(off)
    } else {
        Seq::empty()
    }
}

/// A log file's text from an offset and its total length in bytes; a missing file reads
/// as empty with length 0.
pub open spec fn log_read(file: Option<Seq<u8>>, offset: Option<u64>) -> (Seq<char>, int) {
    match file {
        Some(content) => (lossy_text(bytes_from(content, offset)), content.len() as int),
        None => (Seq::empty(), 0),
    }
}

/// Reads a log's contents from `offset`; returns the text and the log's total length.
pub fn read_from_offset(content: &[u8], offset: Option<u64>) -> (r: (String, u64))
    ensures
        r.0@ == lossy_text(bytes_from(content@, offset)),
        bytes_from(content@, offset).len() == 0 ==> r.0@.len() == 0,
        r.1 == content@.len(),
{
    let total = content.len();
    let off = offset.unwrap_or(0);
    let text = if off < total as u64 {
        let slice = slice_subrange(content, off as usize, total);
        assert(slice@ =~= content@.skip(off as int));
        decode_lossy(slice)
    } else {
        let empty: [u8; 0] = [];
        assert(empty@ =~= Seq::<u8>::empty());
        decode_lossy(&empty)
    };
    (text, total as u64)
}

/// Reads an optional log file from `offset`.
pub fn read_log(file: Option<&[u8]>, offset: Option<u64>) -> (r: (String, u64))
    ensures
        r.0@ == log_read(match file {
            Some(f) => Some(f@),
            None => None,
        }, offset).0,
        r.1 as int == log_read(match file {
            Some(f) => Some(f@),
            None => None,
        }, offset).1,
{
    match file {
        Some(content) => read_from_offset(content, offset),
        None => (String::new(), 0),
    }
}

/// The pieces of `rest`, continuing the piece `cur`: each ends just after a newline,
/// except a last piece without one; there is no empty last piece.
pub open spec fn pieces_from(cur: Seq<char>, rest: Seq<char>) -> Seq<Seq<char>>
    decreases rest.len(),
{
    if rest.len() == 0 {
        if cur.len() == 0 {
            Seq::empty()
        } else {
            seq![cur]
        }
    } else if rest[0] == '\n' {
        seq![cur.push('\n')] + pieces_from(Seq::empty(), rest.drop_first())
    } else {
        pieces_from(cur.push(rest[0]), rest.drop_first())
    }
}

/// `s` split after each newline (the newlines stay with their lines).
pub open spec fn inclusive_lines(s: Seq<char>) -> Seq<Seq<char>> {
    pieces_from(Seq::empty(), s)
}

/// A line without its ending: a final newline, and a carriage return just before it.
pub open spec fn strip_line_end(p: Seq<char>) -> Seq<char> {
    if p.len() > 0 && p.last() == '\n' {
        let q = p.drop_last();
        if q.len() > 0 && q.last() == '\r' {
            q.drop_last()
        } else {
            q
        }
    } else {
        p
    }
}

/// The lines of `s`, without their endings.
pub open spec fn text_lines(s: Seq<char>) -> Seq<Seq<char>> {
    inclusive_lines(s).map_values(|p: Seq<char>| strip_line_end(p))
}

/// Lines joined with newlines between them.
pub open spec fn joined_lines(ls: Seq<Seq<char>>) -> Seq<char>
    decreases ls.len(),
{
    if ls.len() == 0 {
        Seq::empty()
    } else if ls.len() == 1 {
        ls[0]
    } else {
        joined_lines(ls.drop_last()) + seq!['\n'] + ls.last()
    }
}

/// The last `n` lines of `s`, joined with newlines; `s` itself when it has no more lines.
pub open spec fn last_lines(s: Seq<char>, n: nat) -> Seq<char> {
    let ls = text_lines(s);
    if ls.len() <= n {
        s
    } else {
        joined_lines(ls.skip(ls.len() - n))
    }
}

/// The views of a list of character vectors.
pub open spec fn views(v: Seq<Vec<char>>) -> Seq<Seq<char>> {
    v.map_values(|x: Vec<char>| x@)
}

/// Splits `s` after each newline.
pub fn split_inclusive_lines(s: &[char]) -> (r: Vec<Vec<char>>)
    ensures
        views(r@) == inclusive_lines(s@),
{
    let mut done: Vec<Vec<char>> = Vec::new();
    let mut cur: Vec<char> = Vec::new();
    let n = s.len();
    let mut i: usize = 0;
    assert(s@.skip(0) =~= s@);
    while i < n
        invariant
            n == s@.len(),
            i <= n,
            views(done@) + pieces_from(cur@, s@.skip(i as int)) == inclusive_lines(s@),
        decreases n - i,
    {
        let c = s[i];
        let ghost rest = s@.skip(i as int);
        assert(rest[0] == c);
        assert(rest.drop_first() =~= s@.skip(i + 1));
        if c == '\n' {
            cur.push(c);
            let ghost piece = cur@;
            done.push(cur);
            cur = Vec::new();
            assert(views(done@) =~= views(done@.drop_last()).push(piece));
            assert(views(done@) + pieces_from(cur@, s@.skip(i + 1)) =~= views(done@.drop_last()) + (seq![piece] + pieces_from(Seq::empty(), s@.skip(i + 1))));
        } else {
            cur.push(c);
        }
        i = i + 1;
    }
    if cur.len() > 0 {
        let ghost piece = cur@;
        done.push(cur);
        assert(views(done@) =~= views(done@.drop_last()).push(piece));
    } else {
        assert(views(done@) + pieces_from(cur@, s@.skip(i as int)) =~= views(done@));
    }
    done
}

/// Removes a line's ending.
fn strip_end(p: &Vec<char>) -> (r: Vec<char>)
    ensures
        r@ == strip_line_end(p@),
{
    let n = p.len();
    if n > 0 && p[n - 1] == '\n' {
        if n > 1 && p[n - 2] == '\r' {
            chars_range(p.as_slice(), 0, n - 2)
        } else {
            chars_range(p.as_slice(), 0, n - 1)
        }
    } else {
        chars_range(p.as_slice(), 0, n)
    }
}

/// The last `n` lines of `s`, joined with newlines, or `s` itself when it has at most `n`
/// lines. Line endings are a newline, optionally preceded by a carriage return.
pub fn tail_lines(s: &str, n: usize) -> (r: String)
    ensures
        r@ == last_lines(s@, n as nat),
{
    let chars = chars_of(s);
    let pieces = split_inclusive_lines(chars.as_slice());
    let count = pieces.len();
    if count <= n {
        return owned(s);
    }
    let start = count - n;
    let ghost lines = text_lines(s@);
    assert(lines.len() == count);
    let mut out: Vec<char> = Vec::new();
    let mut j: usize = start;
    while j < count
        invariant
            start <= j <= count,
            count == pieces@.len(),
            views(pieces@) == inclusive_lines(s@),
            lines == text_lines(s@),
            out@ == joined_lines(lines.subrange(start as int, j as int)),
        decreases count - j,
    {
        let line = strip_end(&pieces[j]);
        assert(line@ == lines[j as int]);
        if j > start {
            out.push('\n');
        }
        let ghost before = out@;
        let mut k: usize = 0;
        while k < line.len()
            invariant
                k <= line@.len(),
                out@ == before + line@.take(k as int),
            decreases line@.len() - k,
        {
            out.push(line[k]);
            k = k + 1;
            assert(out@ =~= before + line@.take(k as int));
        }
        assert(line@.take(k as int) =~= line@);
        proof {
            let sub = lines.subrange(start as int, j + 1);
            assert(sub.drop_last() =~= lines.subrange(start as int, j as int));
            assert(sub.last() == lines[j as int]);
            if j == start {
                assert(out@ =~= joined_lines(sub));
            } else {
                assert(out@ =~= joined_lines(sub));
            }
        }
        j = j + 1;
    }
    assert(lines.subrange(start as int, count as int) =~= lines.skip(lines.len() - n));
    string_of(out.as_slice())
}

/// The stream a combined-log line came from: "err" when it starts with the marker
/// character U+0002, "out" otherwise.
pub open spec fn entry_stream(p: Seq<char>) -> Seq<char> {
    if p.len() > 0 && p[0] == '\u{2}' {
        "err"@
    } else {
        "out"@
    }
}

/// A combined-log line without its stream marker.
pub open spec fn entry_line(p: Seq<char>) -> Seq<char> {
    if p.len() > 0 && p[0] == '\u{2}' {
        p.drop_first()
    } else {
        p
    }
}

/// The entries of a combined log: one per line (keeping its newline), tagged with the
/// stream it came from.
pub fn combined_entries(raw: &str) -> (r: Vec<LogEntry>)
    ensures
        r@.len() == inclusive_lines(raw@).len(),
        forall|i: int| 0 <= i < r@.len() ==> (#[trigger] r@[i]).stream@ == entry_stream(inclusive_lines(raw@)[i])
            && r@[i].line@ == entry_line(inclusive_lines(raw@)[i]),
{
    let chars = chars_of(raw);
    let pieces = split_inclusive_lines(chars.as_slice());
    let ghost ps = inclusive_lines(raw@);
    let mut out: Vec<LogEntry> = Vec::new();
    let n = pieces.len();
    let mut i: usize = 0;
    while i < n
        invariant
            n == pieces@.len(),
            views(pieces@) == ps,
            ps == inclusive_lines(raw@),
            i <= n,
            out@.len() == i,
            forall|k: int| 0 <= k < i ==> (#[trigger] out@[k]).stream@ == entry_stream(ps[k]) && out@[k].line@
                == entry_line(ps[k]),
        decreases n - i,
    {
        let p = &pieces[i];
        assert(p@ == ps[i as int]);
        let entry = if p.len() > 0 && p[0] == '\u{2}' {
            LogEntry { stream: owned("err"), line: string_of(chars_range(p.as_slice(), 1, p.len()).as_slice()) }
        } else {
            LogEntry { stream: owned("out"), line: string_of(p.as_slice()) }
        };
        proof {
            if p@.len() > 0 && p@[0] == '\u{2}' {
                assert(p@.subrange(1, p@.len() as int) =~= p@.drop_first());
            }
        }
        out.push(entry);
        i = i + 1;
    }
    out
}

/// Keeps only the last `n` entries.
pub fn keep_last(entries: Vec<LogEntry>, n: usize) -> (r: Vec<LogEntry>)
    ensures
        r@ == if entries@.len() > n {
            entries@.skip(entries@.len() - n)
        } else {
            entries@
        },
{
    let mut entries = entries;
    let len = entries.len();
    if len > n {
        let tail = entries.split_off(len - n);
        tail
    } else {
        entries
    }
}

/// The reply to a log request, given the log files' contents (`None` for a missing file):
/// for both streams, the entries of the combined log (the last `tail` of them when asked)
/// and its length; otherwise the requested stream(s) from `since_offset`, cut to their
/// last `tail` lines when asked, with their lengths.
pub fn assemble_logs(
    stream: LogStream,
    tail: Option<usize>,
    since_offset: Option<u64>,
    stdout_file: Option<&[u8]>,
    stderr_file: Option<&[u8]>,
    combined_file: Option<&[u8]>,
) -> (r: JobLogs)
    ensures
        stream == LogStream::Both ==> {
            let (raw, total) = log_read(match combined_file {
                Some(f) => Some(f@),
                None => None,
            }, since_offset);
            let ps = inclusive_lines(raw);
            let kept = match tail {
                Some(n) => if ps.len() > n {
                    ps.skip(ps.len() - n)
                } else {
                    ps
                },
                None => ps,
            };
            &&& r.stdout@.len() == 0
            &&& r.stderr@.len() == 0
            &&& r.stdout_offset == 0
            &&& r.stderr_offset == 0
            &&& r.combined_offset == Some(total as u64)
            &&& r.combined matches Some(es) && es@.len() == kept.len() && forall|i: int|
                0 <= i < kept.len() ==> (#[trigger] es@[i]).stream@ == entry_stream(kept[i]) && es@[i].line@
                    == entry_line(kept[i])
        },
        stream != LogStream::Both ==> {
            let (out_raw, out_total) = if stream == LogStream::Stderr {
                (Seq::<char>::empty(), 0int)
            } else {
                log_read(match stdout_file {
                    Some(f) => Some(f@),
                    None => None,
                }, since_offset)
            };
            let (err_raw, err_total) = if stream == LogStream::Stdout {
                (Seq::<char>::empty(), 0int)
            } else {
                log_read(match stderr_file {
                    Some(f) => Some(f@),
                    None => None,
                }, since_offset)
            };
            &&& r.stdout@ == match tail {
                Some(n) => last_lines(out_raw, n as nat),
                None => out_raw,
            }
            &&& r.stderr@ == match tail {
                Some(n) => last_lines(err_raw, n as nat),
                None => err_raw,
            }
            &&& r.stdout_offset == out_total
            &&& r.stderr_offset == err_total
            &&& r.combined is None
            &&& r.combined_offset is None
        },
{
    match stream {
        LogStream::Both => {
            let (raw, total) = read_log(combined_file, since_offset);
            let entries = combined_entries(raw.as_str());
            let kept = match tail {
                Some(n) => keep_last(entries, n),
                None => entries,
            };
            JobLogs {
                stdout: String::new(),
                stderr: String::new(),
                stdout_offset: 0,
                stderr_offset: 0,
                combined: Some(kept),
                combined_offset: Some(total),
            }
        },
        _ => {
            let (stdout, stdout_offset) = match stream {
                LogStream::Stderr => (String::new(), 0),
                _ => read_log(stdout_file, since_offset),
            };
            let (stderr, stderr_offset) = match stream {
                LogStream::Stdout => (String::new(), 0),
                _ => read_log(stderr_file, since_offset),
            };
            let (stdout, stderr) = match tail {
                Some(n) => (tail_lines(stdout.as_str(), n), tail_lines(stderr.as_str(), n)),
                None => (stdout, stderr),
            };
            JobLogs {
                stdout,
                stderr,
                stdout_offset,
                stderr_offset,
                combined: None,
                combined_offset: None,
            }
        },
    }
}

} // verus!

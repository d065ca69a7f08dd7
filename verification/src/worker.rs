//! What a job's worker decides around the process it runs: the files it writes before
//! the start, how each output line is recorded in the combined log, and how a job that
//! is to stop is brought down.
use vstd::prelude::*;
use crate::logs::{entry_line, entry_stream, inclusive_lines, pieces_from};
use crate::models::FileUpload;
use crate::requests::{base64_decoded, decode_base64, has_dot_dot, has_traversal};
use crate::text::{chars_of, has_prefix, join_path, owned, path_join, string_of};

verus! {

/// A file to write before a job starts.
pub struct FileWrite {
    pub path: String,
    pub bytes: Vec<u8>,
}

/// A name an upload may have: not empty, not absolute, and without "..", so that the
/// file lands inside the working directory.
pub open spec fn upload_name_ok(name: Seq<char>) -> bool {
    name.len() > 0 && name[0] != '/' && !has_dot_dot(name)
}

/// `path` lies inside the directory `dir`: it is `dir`, a separator (the one `dir` ends
/// with, or one more), and something after it.
pub open spec fn in_dir(path: Seq<char>, dir: Seq<char>) -> bool {
    &&& has_prefix(path, dir)
    &&& path.len() > dir.len()
    &&& (dir.last() == '/' || path[dir.len() as int] == '/')
}

/// The files to write before a job starts, in order: each upload's name joined to the
/// working directory, with its content decoded from base64. Writing stops at the first
/// upload whose name could leave the working directory (empty, absolute, or with "..")
/// or whose content is not base64; a message is then returned beside the files before it.
pub fn file_writes(files: &Vec<FileUpload>, working_dir: &str) -> (r: (Vec<FileWrite>, Option<String>))
    ensures
        r.0@.len() <= files@.len(),
        forall|k: int| #![trigger r.0@[k]] #![trigger files@[k]] 0 <= k < r.0@.len() ==> {
            &&& upload_name_ok(files@[k].name@)
            &&& r.0@[k].path@ == join_path(working_dir@, files@[k].name@)
            &&& (working_dir@.len() > 0 ==> in_dir(r.0@[k].path@, working_dir@))
            &&& (working_dir@.len() > 0 && working_dir@.last() != '/' ==> r.0@[k].path@ == working_dir@
                + seq!['/'] + files@[k].name@)
            &&& (working_dir@.len() > 0 && working_dir@.last() == '/' ==> r.0@[k].path@ == working_dir@
                + files@[k].name@)
            &&& base64_decoded(files@[k].content_base64@) == Some(r.0@[k].bytes@)
        },
        r.1 is None ==> r.0@.len() == files@.len(),
        r.1 is Some ==> r.0@.len() < files@.len() && (!upload_name_ok(files@[r.0@.len() as int].name@)
            || base64_decoded(files@[r.0@.len() as int].content_base64@) is None),
        r.1 is Some ==> ({
            let name = files@[r.0@.len() as int].name@;
            ||| name.len() == 0
            ||| name[0] == '/'
            ||| exists|k: int| #![trigger name[k]] 0 <= k < name.len() - 1 && name[k] == '.' && name[k + 1] == '.'
            ||| base64_decoded(files@[r.0@.len() as int].content_base64@) is None
        }),
{
    let mut out: Vec<FileWrite> = Vec::new();
    let mut i: usize = 0;
    while i < files.len()
        invariant
            i <= files@.len(),
            out@.len() == i,
            forall|k: int| #![trigger out@[k]] #![trigger files@[k]] 0 <= k < i ==> {
                &&& upload_name_ok(files@[k].name@)
                &&& out@[k].path@ == join_path(working_dir@, files@[k].name@)
                &&& (working_dir@.len() > 0 ==> in_dir(out@[k].path@, working_dir@))
                &&& base64_decoded(files@[k].content_base64@) == Some(out@[k].bytes@)
            },
        decreases files@.len() - i,
    {
        let f = &files[i];
        let name = chars_of(f.name.as_str());
        if name.len() == 0 || name[0] == '/' || has_traversal(f.name.as_str()) {
            let mut m = owned("Invalid file name: ");
            m.append(f.name.as_str());
            return (out, Some(m));
        }
        match decode_base64(f.content_base64.as_str()) {
            Ok(bytes) => {
                let path = path_join(working_dir, f.name.as_str());
                proof {
                    let d = working_dir@;
                    let n = f.name@;
                    if d.len() > 0 {
                        if d.last() == '/' {
                            assert(path@ == d + n);
                            assert((d + n).take(d.len() as int) =~= d);
                        } else {
                            assert(path@ == d + seq!['/'] + n);
                            assert((d + seq!['/'] + n).take(d.len() as int) =~= d);
                            assert((d + seq!['/'] + n)[d.len() as int] == '/');
                        }
                    }
                }
                out.push(FileWrite { path, bytes });
            },
            Err(e) => {
                return (out, Some(e));
            },
        }
        i = i + 1;
    }
    (out, None)
}

/// One line of a job's output, as read from its stdout or its stderr.
pub enum LogLine {
    Stdout(String),
    Stderr(String),
}

/// The text of an output line.
pub open spec fn line_text(l: LogLine) -> Seq<char> {
    match l {
        LogLine::Stdout(s) => s@,
        LogLine::Stderr(s) => s@,
    }
}

/// The name log readers give the stream of an output line.
pub open spec fn stream_name(l: LogLine) -> Seq<char> {
    match l {
        LogLine::Stdout(_) => "out"@,
        LogLine::Stderr(_) => "err"@,
    }
}

/// What the combined log holds for an output line: a stdout line as it is, a stderr
/// line after the marker character U+0002.
pub open spec fn record_of(l: LogLine) -> Seq<char> {
    match l {
        LogLine::Stdout(s) => s@,
        LogLine::Stderr(s) => seq!['\u{2}'] + s@,
    }
}

/// The combined log's text for a run of output lines, in arrival order.
pub open spec fn records(lines: Seq<LogLine>) -> Seq<char>
    decreases lines.len(),
{
    if lines.len() == 0 {
        Seq::empty()
    } else {
        record_of(lines[0]) + records(lines.drop_first())
    }
}

/// A complete output line: it ends with a newline, and has no other.
pub open spec fn is_line(s: Seq<char>) -> bool {
    &&& s.len() > 0
    &&& s.last() == '\n'
    &&& forall|k: int| 0 <= k < s.len() - 1 ==> s[k] != '\n'
}

/// The text the combined log gets for an output line.
pub fn combined_record(line: &LogLine) -> (r: String)
    ensures
        r@ == record_of(*line),
{
    match line {
        LogLine::Stdout(s) => s.clone(),
        LogLine::Stderr(s) => {
            let mut v: Vec<char> = Vec::new();
            v.push('\u{2}');
            let c = chars_of(s.as_str());
            let mut i: usize = 0;
            while i < c.len()
                invariant
                    i <= c@.len(),
                    v@ == seq!['\u{2}'] + c@.take(i as int),
                decreases c@.len() - i,
            {
                v.push(c[i]);
                i = i + 1;
                assert(v@ =~= seq!['\u{2}'] + c@.take(i as int));
            }
            assert(c@.take(i as int) =~= c@);
            string_of(v.as_slice())
        },
    }
}

/// Splitting text that starts with a complete line: the line (after what was pending)
/// comes first, then the pieces of the rest.
proof fn lemma_pieces_after_line(cur: Seq<char>, a: Seq<char>, rest: Seq<char>)
    requires
        is_line(a),
    ensures
        pieces_from(cur, a + rest) == seq![cur + a] + pieces_from(Seq::empty(), rest),
    decreases a.len(),
{
    let t = a + rest;
    assert(t[0] == a[0]);
    if a.len() == 1 {
        assert(t.drop_first() =~= rest);
        assert(cur.push('\n') =~= cur + a);
    } else {
        assert(a[0] != '\n');
        let a2 = a.drop_first();
        assert(t.drop_first() =~= a2 + rest);
        assert forall|k: int| 0 <= k < a2.len() - 1 implies a2[k] != '\n' by {
            assert(a2[k] == a[k + 1]);
        }
        lemma_pieces_after_line(cur.push(a[0]), a2, rest);
        assert(cur.push(a[0]) + a2 =~= cur + a);
    }
}

/// The combined log of complete lines splits back into their records.
proof fn lemma_records_split(lines: Seq<LogLine>)
    requires
        forall|i: int| 0 <= i < lines.len() ==> is_line(#[trigger] record_of(lines[i])),
    ensures
        inclusive_lines(records(lines)) == lines.map_values(|l: LogLine| record_of(l)),
    decreases lines.len(),
{
    if lines.len() == 0 {
        assert(inclusive_lines(records(lines)) =~= lines.map_values(|l: LogLine| record_of(l)));
    } else {
        let rest = lines.drop_first();
        assert forall|i: int| 0 <= i < rest.len() implies is_line(#[trigger] record_of(rest[i])) by {
            assert(rest[i] == lines[i + 1]);
        }
        lemma_records_split(rest);
        assert(is_line(record_of(lines[0])));
        lemma_pieces_after_line(Seq::empty(), record_of(lines[0]), records(rest));
        assert(Seq::<char>::empty() + record_of(lines[0]) =~= record_of(lines[0]));
        assert(inclusive_lines(records(lines)) =~= lines.map_values(|l: LogLine| record_of(l)));
    }
}

/// Law: reading back a combined log written line by line gives every line again, in order,
/// tagged with the stream it came from, provided each line is complete and no stdout
/// line begins with the marker character.
pub proof fn law_combined_log_round_trip(lines: Seq<LogLine>)
    requires
        forall|i: int| 0 <= i < lines.len() ==> is_line(#[trigger] line_text(lines[i])),
        forall|i: int|
            0 <= i < lines.len() && (#[trigger] lines[i]) is Stdout ==> line_text(lines[i])[0] != '\u{2}',
    ensures
        inclusive_lines(records(lines)).len() == lines.len(),
        forall|i: int| 0 <= i < lines.len() ==> {
            &&& entry_stream(#[trigger] inclusive_lines(records(lines))[i]) == stream_name(lines[i])
            &&& entry_line(inclusive_lines(records(lines))[i]) == line_text(lines[i])
        },
{
    assert forall|i: int| 0 <= i < lines.len() implies is_line(#[trigger] record_of(lines[i])) by {
        let t = line_text(lines[i]);
        assert(is_line(t));
        if lines[i] is Stderr {
            let r = seq!['\u{2}'] + t;
            assert(r.last() == t.last());
            assert forall|k: int| 0 <= k < r.len() - 1 implies r[k] != '\n' by {
                if k > 0 {
                    assert(r[k] == t[k - 1]);
                }
            }
        }
    }
    lemma_records_split(lines);
    assert forall|i: int| 0 <= i < lines.len() implies {
        &&& entry_stream(#[trigger] inclusive_lines(records(lines))[i]) == stream_name(lines[i])
        &&& entry_line(inclusive_lines(records(lines))[i]) == line_text(lines[i])
    } by {
        let p = inclusive_lines(records(lines))[i];
        assert(p == record_of(lines[i]));
        if lines[i] is Stderr {
            assert(p.drop_first() =~= line_text(lines[i]));
        } else {
            assert(is_line(line_text(lines[i])));
        }
    }
}

/// How far a worker has got in bringing its job down: running undisturbed, asked its
/// process group (the given process id) to terminate, or killed that group.
#[derive(Clone, Copy, Debug, PartialEq, Eq, Structural)]
pub enum StopPhase {
    Running,
    Terminating(u32),
    Killing(u32),
}

/// What a worker learns while its job runs: the process exited (with its exit code, none
/// when a signal ended it); a stop was asked for (with the process id, none when the
/// process is already gone); or the grace period after the terminate signal ran out.
#[derive(Clone, Copy, Debug, PartialEq, Eq, Structural)]
pub enum WorkerEvent {
    Exited(Option<i32>),
    StopRequested(Option<u32>),
    GraceOver,
}

/// What a worker does next: keep waiting; signal the job's process group (`kill` for
/// the kill signal, otherwise the terminate signal, after which it waits out the grace
/// period); or finish with an exit code.
#[derive(Clone, Copy, Debug, PartialEq, Eq, Structural)]
pub enum WorkerAction {
    Wait,
    Signal { group: u32, kill: bool },
    Finish(i32),
}

/// The exit code a worker reports: the process's own, or -1 when a signal ended it.
pub open spec fn reported_exit(code: Option<i32>) -> i32 {
    match code {
        Some(c) => c,
        None => -1i32,
    }
}

/// How a worker moves on an event: an exit finishes with the reported exit code; a stop
/// request on a running job signals its group to terminate (or finishes at once with
/// -1 when there is no process); once the grace period is over a terminating group is
/// killed; anything else leaves the worker waiting where it was.
pub open spec fn worker_transition(phase: StopPhase, event: WorkerEvent) -> (StopPhase, WorkerAction) {
    match event {
        WorkerEvent::Exited(code) => (phase, WorkerAction::Finish(reported_exit(code))),
        WorkerEvent::StopRequested(pid) => match phase {
            StopPhase::Running => match pid {
                Some(p) => (StopPhase::Terminating(p), WorkerAction::Signal { group: p, kill: false }),
                None => (phase, WorkerAction::Finish(-1i32)),
            },
            _ => (phase, WorkerAction::Wait),
        },
        WorkerEvent::GraceOver => match phase {
            StopPhase::Terminating(p) => (StopPhase::Killing(p), WorkerAction::Signal { group: p, kill: true }),
            _ => (phase, WorkerAction::Wait),
        },
    }
}

/// The worker's next phase and action on an event (see `worker_transition`).
pub fn worker_step(phase: StopPhase, event: WorkerEvent) -> (r: (StopPhase, WorkerAction))
    ensures
        r == worker_transition(phase, event),
{
    match event {
        WorkerEvent::Exited(code) => {
            let c = match code {
                Some(c) => c,
                None => -1,
            };
            (phase, WorkerAction::Finish(c))
        },
        WorkerEvent::StopRequested(pid) => match phase {
            StopPhase::Running => match pid {
                Some(p) => (StopPhase::Terminating(p), WorkerAction::Signal { group: p, kill: false }),
                None => (phase, WorkerAction::Finish(-1)),
            },
            _ => (phase, WorkerAction::Wait),
        },
        WorkerEvent::GraceOver => match phase {
            StopPhase::Terminating(p) => (StopPhase::Killing(p), WorkerAction::Signal { group: p, kill: true }),
            _ => (phase, WorkerAction::Wait),
        },
    }
}

/// Law: a job's group is only ever killed after it was asked to terminate and the grace
/// period ran out, and the kill goes to the group that was asked.
pub proof fn law_kill_only_after_terminate(phase: StopPhase, event: WorkerEvent)
    requires
        worker_transition(phase, event).1 matches WorkerAction::Signal { kill, .. } && kill,
    ensures
        phase matches StopPhase::Terminating(p) && event == WorkerEvent::GraceOver
            && worker_transition(phase, event).1 == (WorkerAction::Signal { group: p, kill: true }),
{
}

/// Law: an upload name that is not empty, does not start with '/' and has no ".." in it
/// (dot files such as ".env" included) is one a job's files may have.
pub proof fn law_plain_names_accepted(name: Seq<char>)
    requires
        name.len() > 0,
        name[0] != '/',
        forall|k: int| 0 <= k < name.len() - 1 ==> !(#[trigger] name[k] == '.' && name[k + 1] == '.'),
    ensures
        upload_name_ok(name),
{
}

} // verus!

use wartable::logs::combined_entries;
use wartable::models::FileUpload;
use wartable::worker::{combined_record, file_writes, worker_step, LogLine, StopPhase, WorkerAction, WorkerEvent};

fn file(name: &str, content: &str) -> FileUpload {
    FileUpload { name: name.to_string(), content_base64: content.to_string() }
}

#[test]
fn uploads_are_decoded_into_the_working_dir() {
    let files = vec![file("a.txt", "aGVsbG8="), file("sub/b.bin", "")];
    let (writes, err) = file_writes(&files, "/opt/wartable/jobs");
    assert!(err.is_none());
    assert_eq!(writes.len(), 2);
    assert_eq!(writes[0].path, "/opt/wartable/jobs/a.txt");
    assert_eq!(writes[0].bytes, b"hello".to_vec());
    assert_eq!(writes[1].path, "/opt/wartable/jobs/sub/b.bin");
    assert!(writes[1].bytes.is_empty());
}

#[test]
fn uploads_may_not_leave_the_working_dir() {
    for name in ["/tmp/escape.txt", "../escape.txt", "a/../../b", ""] {
        let files = vec![file("ok.txt", "aGk="), file(name, "aGk=")];
        let (writes, err) = file_writes(&files, "/opt/wartable/jobs");
        assert_eq!(writes.len(), 1);
        assert_eq!(writes[0].path, "/opt/wartable/jobs/ok.txt");
        assert_eq!(err, Some(format!("Invalid file name: {}", name)));
    }
}

#[test]
fn uploads_stop_at_the_first_bad_content() {
    let files = vec![file("a.txt", "aGk="), file("b.txt", "***"), file("c.txt", "aGk=")];
    let (writes, err) = file_writes(&files, "/w/");
    assert_eq!(writes.len(), 1);
    assert_eq!(writes[0].path, "/w/a.txt");
    assert_eq!(writes[0].bytes, b"hi".to_vec());
    assert!(err.is_some());
}

#[test]
fn stderr_lines_are_marked_in_the_combined_log() {
    assert_eq!(combined_record(&LogLine::Stdout("out\n".to_string())), "out\n");
    assert_eq!(combined_record(&LogLine::Stderr("bad\n".to_string())), "\u{2}bad\n");
}

#[test]
fn combined_log_reads_back_line_by_line() {
    let lines = vec![
        LogLine::Stdout("epoch 1\n".to_string()),
        LogLine::Stderr("warning: slow\n".to_string()),
        LogLine::Stdout("epoch 2\n".to_string()),
    ];
    let raw: String = lines.iter().map(combined_record).collect();
    let entries = combined_entries(&raw);
    assert_eq!(entries.len(), 3);
    assert_eq!((entries[0].stream.as_str(), entries[0].line.as_str()), ("out", "epoch 1\n"));
    assert_eq!((entries[1].stream.as_str(), entries[1].line.as_str()), ("err", "warning: slow\n"));
    assert_eq!((entries[2].stream.as_str(), entries[2].line.as_str()), ("out", "epoch 2\n"));
}

#[test]
fn stopping_a_job_terminates_then_kills_its_group() {
    assert_eq!(
        worker_step(StopPhase::Running, WorkerEvent::StopRequested(Some(41))),
        (StopPhase::Terminating(41), WorkerAction::Signal { group: 41, kill: false })
    );
    assert_eq!(
        worker_step(StopPhase::Terminating(41), WorkerEvent::GraceOver),
        (StopPhase::Killing(41), WorkerAction::Signal { group: 41, kill: true })
    );
    assert_eq!(worker_step(StopPhase::Killing(41), WorkerEvent::Exited(None)), (StopPhase::Killing(41), WorkerAction::Finish(-1)));
    assert_eq!(worker_step(StopPhase::Terminating(41), WorkerEvent::Exited(Some(143))).1, WorkerAction::Finish(143));
    assert_eq!(worker_step(StopPhase::Running, WorkerEvent::Exited(Some(0))).1, WorkerAction::Finish(0));
    assert_eq!(worker_step(StopPhase::Running, WorkerEvent::StopRequested(None)).1, WorkerAction::Finish(-1));
    assert_eq!(worker_step(StopPhase::Running, WorkerEvent::GraceOver), (StopPhase::Running, WorkerAction::Wait));
}

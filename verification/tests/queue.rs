use wartable::models::{Job, JobSpec, JobStatus, ResourceRequirements, Timestamp};
use wartable::queue::JobQueue;

fn at(offset_ms: i64) -> Timestamp {
    let t = chrono::Utc::now() + chrono::Duration::milliseconds(offset_ms);
    Timestamp { secs: t.timestamp(), nanos: t.timestamp_subsec_nanos() }
}

fn make_job(id: &str, priority: i32, submitted_ms_offset: i64) -> Job {
    Job {
        id: id.to_string(),
        spec: JobSpec {
            command: format!("echo {}", id),
            working_dir: None,
            env: Vec::new(),
            resources: ResourceRequirements::default(),
            files: Vec::new(),
            priority,
            tags: Vec::new(),
            name: None,
        },
        status: JobStatus::Queued,
        submitted_at: at(submitted_ms_offset),
        started_at: None,
        completed_at: None,
        exit_code: None,
        pid: None,
    }
}

#[test]
fn empty_queue() {
    let mut q = JobQueue::new();
    assert_eq!(q.len(), 0);
    assert!(q.pop().is_none());
    assert!(q.peek().is_none());
}

#[test]
fn single_job() {
    let mut q = JobQueue::new();
    q.push(make_job("a", 0, 0));
    assert_eq!(q.len(), 1);
    assert_eq!(q.peek().unwrap().id, "a");
    let job = q.pop().unwrap();
    assert_eq!(job.id, "a");
    assert_eq!(q.len(), 0);
}

#[test]
fn fifo_same_priority() {
    let mut q = JobQueue::new();
    q.push(make_job("first", 0, 0));
    q.push(make_job("second", 0, 100));
    q.push(make_job("third", 0, 200));

    assert_eq!(q.pop().unwrap().id, "first");
    assert_eq!(q.pop().unwrap().id, "second");
    assert_eq!(q.pop().unwrap().id, "third");
}

#[test]
fn higher_priority_jumps_queue() {
    let mut q = JobQueue::new();
    q.push(make_job("low", 0, 0));
    q.push(make_job("high", 10, 100));
    q.push(make_job("med", 5, 200));

    assert_eq!(q.pop().unwrap().id, "high");
    assert_eq!(q.pop().unwrap().id, "med");
    assert_eq!(q.pop().unwrap().id, "low");
}

#[test]
fn mixed_priority_and_time() {
    let mut q = JobQueue::new();
    q.push(make_job("p0_early", 0, 0));
    q.push(make_job("p0_late", 0, 100));
    q.push(make_job("p5_early", 5, 50));
    q.push(make_job("p5_late", 5, 150));

    assert_eq!(q.pop().unwrap().id, "p5_early");
    assert_eq!(q.pop().unwrap().id, "p5_late");
    assert_eq!(q.pop().unwrap().id, "p0_early");
    assert_eq!(q.pop().unwrap().id, "p0_late");
}

#[test]
fn remove_by_id() {
    let mut q = JobQueue::new();
    q.push(make_job("a", 0, 0));
    q.push(make_job("b", 0, 100));
    q.push(make_job("c", 0, 200));

    let removed = q.remove(&"b".to_string());
    assert!(removed.is_some());
    assert_eq!(removed.unwrap().id, "b");
    assert_eq!(q.len(), 2);

    assert_eq!(q.pop().unwrap().id, "a");
    assert_eq!(q.pop().unwrap().id, "c");
}

#[test]
fn remove_nonexistent() {
    let mut q = JobQueue::new();
    q.push(make_job("a", 0, 0));
    assert!(q.remove(&"z".to_string()).is_none());
    assert_eq!(q.len(), 1);
}

#[test]
fn position() {
    let mut q = JobQueue::new();
    q.push(make_job("a", 10, 0));
    q.push(make_job("b", 5, 100));
    q.push(make_job("c", 0, 200));

    assert_eq!(q.position(&"a".to_string()), Some(0));
    assert_eq!(q.position(&"b".to_string()), Some(1));
    assert_eq!(q.position(&"c".to_string()), Some(2));
    assert_eq!(q.position(&"z".to_string()), None);
}

#[test]
fn negative_priority() {
    let mut q = JobQueue::new();
    q.push(make_job("neg", -5, 0));
    q.push(make_job("zero", 0, 100));
    q.push(make_job("pos", 5, 200));

    assert_eq!(q.pop().unwrap().id, "pos");
    assert_eq!(q.pop().unwrap().id, "zero");
    assert_eq!(q.pop().unwrap().id, "neg");
}

#[test]
fn equal_rank_keeps_push_order() {
    let same = Timestamp { secs: 1_700_000_000, nanos: 42 };
    let mut q = JobQueue::new();
    for id in ["x", "y", "z"] {
        let mut j = make_job(id, 3, 0);
        j.submitted_at = same;
        q.push(j);
    }
    assert_eq!(q.pop().unwrap().id, "x");
    assert_eq!(q.pop().unwrap().id, "y");
    assert_eq!(q.pop().unwrap().id, "z");
}

#[test]
fn push_reports_insert_position() {
    let mut q = JobQueue::new();
    assert_eq!(q.push(make_job("a", 0, 0)), 0);
    assert_eq!(q.push(make_job("b", 5, 100)), 0);
    assert_eq!(q.push(make_job("c", 0, 200)), 2);
    let ids: Vec<&str> = q.iter().iter().map(|j| j.id.as_str()).collect();
    assert_eq!(ids, vec!["b", "a", "c"]);
}

use wartable::config::{
    AuthConfig, Config, DashboardConfig, GpuSchedulerConfig, SchedulerConfig, ServerConfig, WorkerConfig,
};
use wartable::models::{Event, JobSpec, JobStatus, ResourceRequirements, Timestamp};
use wartable::scheduler::{JobFilter, LogStream, Scheduler};

fn config_with(max: usize, vram: Option<Vec<u64>>, policy: &str) -> Config {
    Config {
        server: ServerConfig::default(),
        scheduler: SchedulerConfig {
            max_concurrent_jobs: max,
            gpu: GpuSchedulerConfig {
                vram_bytes: vram,
                policy: policy.to_string(),
                device_env_var: "CUDA_VISIBLE_DEVICES".to_string(),
            },
        },
        workers: WorkerConfig {
            default_working_dir: "/tmp/wartable-test-jobs".to_string(),
            log_dir: "/tmp/wartable-test-logs".to_string(),
            kill_grace_period_secs: 5,
            extra_allowed_dirs: Vec::new(),
        },
        dashboard: DashboardConfig::default(),
        auth: AuthConfig::default(),
    }
}

fn test_config() -> Config {
    // don't actually dispatch jobs in tests
    config_with(0, None, "least-loaded")
}

fn make_spec(command: &str, priority: i32, tags: Vec<&str>) -> JobSpec {
    JobSpec {
        command: command.to_string(),
        working_dir: None,
        env: Vec::new(),
        resources: ResourceRequirements::default(),
        files: Vec::new(),
        priority,
        tags: tags.into_iter().map(String::from).collect(),
        name: Some(command.to_string()),
    }
}

fn all(limit: usize) -> JobFilter {
    JobFilter { status: None, tag: None, limit }
}

const GIB: u64 = 1 << 30;

#[test]
fn submit_and_get_job() {
    let mut s = Scheduler::new(&test_config());

    let ((job_id, position), _) = s.handle_submit(make_spec("echo hi", 0, vec![])).unwrap();
    assert!(!job_id.is_empty());
    assert_eq!(position, 0);

    let job = s.get_job(&job_id);
    assert!(job.is_some());
    let job = job.unwrap();
    assert_eq!(job.id, job_id);
    assert_eq!(job.spec.command, "echo hi");
    assert_eq!(job.status, JobStatus::Queued); // max_concurrent=0, stays queued
}

#[test]
fn submit_multiple_and_query() {
    let mut s = Scheduler::new(&test_config());

    s.handle_submit(make_spec("job1", 0, vec!["ml"])).unwrap();
    s.handle_submit(make_spec("job2", 0, vec!["web"])).unwrap();
    s.handle_submit(make_spec("job3", 0, vec!["ml"])).unwrap();

    let everything = s.query_jobs(&all(50));
    assert_eq!(everything.len(), 3);

    let ml_only = s.query_jobs(&JobFilter { status: None, tag: Some("ml".to_string()), limit: 50 });
    assert_eq!(ml_only.len(), 2);
}

#[test]
fn query_with_status_filter() {
    let mut s = Scheduler::new(&test_config());

    s.handle_submit(make_spec("job1", 0, vec![])).unwrap();
    s.handle_submit(make_spec("job2", 0, vec![])).unwrap();

    let queued = s.query_jobs(&JobFilter { status: Some(JobStatus::Queued), tag: None, limit: 50 });
    assert_eq!(queued.len(), 2);

    let running = s.query_jobs(&JobFilter { status: Some(JobStatus::Running), tag: None, limit: 50 });
    assert_eq!(running.len(), 0);
}

#[test]
fn query_with_limit() {
    let mut s = Scheduler::new(&test_config());

    for i in 0..10 {
        s.handle_submit(make_spec(&format!("job{}", i), 0, vec![])).unwrap();
    }

    let limited = s.query_jobs(&all(3));
    assert_eq!(limited.len(), 3);
}

#[test]
fn cancel_queued_job() {
    let mut s = Scheduler::new(&test_config());

    let ((job_id, _), _) = s.handle_submit(make_spec("echo cancel me", 0, vec![])).unwrap();

    let (result, fx) = s.handle_cancel(&job_id);
    assert!(result.is_ok());
    let (prev, new) = result.unwrap();
    assert_eq!(prev, JobStatus::Queued);
    assert_eq!(new, JobStatus::Cancelled);
    assert!(fx.stopped.is_empty());

    // Job should now be in completed list, not queue
    let job = s.get_job(&job_id).unwrap();
    assert_eq!(job.status, JobStatus::Cancelled);
    assert!(job.completed_at.is_some());
}

#[test]
fn cancel_nonexistent_job() {
    let mut s = Scheduler::new(&test_config());
    let (result, _) = s.handle_cancel(&"nonexistent".to_string());
    assert!(result.is_err());
    assert_eq!(result.unwrap_err().message(), "job not found: nonexistent");
}

#[test]
fn get_nonexistent_job() {
    let s = Scheduler::new(&test_config());
    let job = s.get_job(&"nonexistent".to_string());
    assert!(job.is_none());
}

#[test]
fn priority_ordering_in_queue() {
    let mut s = Scheduler::new(&test_config());

    s.handle_submit(make_spec("low", 0, vec![])).unwrap();
    s.handle_submit(make_spec("high", 10, vec![])).unwrap();
    s.handle_submit(make_spec("med", 5, vec![])).unwrap();

    let jobs = s.query_jobs(&JobFilter { status: Some(JobStatus::Queued), tag: None, limit: 50 });
    // query_jobs sorts by status then time, but queue order is by priority
    assert_eq!(jobs.len(), 3);
}

#[test]
fn submission_reports_queue_position() {
    let mut s = Scheduler::new(&test_config());
    let at = |n: i64| Timestamp { secs: 1_700_000_000 + n, nanos: 0 };
    let ((_, p1), _) = s.submit_at("a".to_string(), at(0), make_spec("a", 0, vec![]));
    let ((_, p2), _) = s.submit_at("b".to_string(), at(1), make_spec("b", 5, vec![]));
    let ((_, p3), _) = s.submit_at("c".to_string(), at(2), make_spec("c", 0, vec![]));
    assert_eq!((p1, p2, p3), (0, 0, 2));
}

#[test]
fn listing_puts_newest_first_within_status() {
    let mut s = Scheduler::new(&test_config());
    let at = |n: i64| Timestamp { secs: 1_700_000_000 + n, nanos: 0 };
    s.submit_at("old".to_string(), at(0), make_spec("old", 0, vec![]));
    s.submit_at("new".to_string(), at(5), make_spec("new", 0, vec![]));
    s.cancel_at(&"old".to_string(), at(6));
    let listed = s.query_jobs(&all(10));
    assert_eq!(listed.len(), 2);
    assert_eq!(listed[0].job_id, "new");
    assert_eq!(listed[1].job_id, "old");
    assert_eq!(listed[1].status, JobStatus::Cancelled);
}

#[test]
fn dispatch_starts_jobs_up_to_capacity() {
    let mut s = Scheduler::new(&config_with(1, None, "least-loaded"));
    let ((first, _), fx) = s.handle_submit(make_spec("first", 0, vec![])).unwrap();
    assert_eq!(fx.started.len(), 1);
    assert_eq!(fx.started[0].id, first);
    assert_eq!(fx.started[0].status, JobStatus::Running);
    assert_eq!(fx.events.len(), 2);
    assert_eq!(fx.events[0].event_type(), "job_submitted");
    assert_eq!(fx.events[1].event_type(), "job_started");

    let ((second, _), fx) = s.handle_submit(make_spec("second", 0, vec![])).unwrap();
    assert!(fx.started.is_empty());
    assert_eq!(s.get_job(&second).unwrap().status, JobStatus::Queued);

    let fx = s.handle_completed(&first, 0);
    assert_eq!(fx.events[0].event_type(), "job_completed");
    assert_eq!(fx.started.len(), 1);
    assert_eq!(fx.started[0].id, second);
    assert_eq!(s.get_job(&first).unwrap().status, JobStatus::Completed);
    assert_eq!(s.get_job(&first).unwrap().exit_code, Some(0));

    let fx = s.handle_completed(&second, 3);
    assert!(fx.started.is_empty());
    assert_eq!(s.get_job(&second).unwrap().status, JobStatus::Failed);
}

#[test]
fn cancelling_a_running_job_stops_its_worker() {
    let mut s = Scheduler::new(&config_with(2, None, "least-loaded"));
    let ((id, _), _) = s.handle_submit(make_spec("sleep", 0, vec![])).unwrap();
    let (result, fx) = s.handle_cancel(&id);
    assert_eq!(result.unwrap(), (JobStatus::Running, JobStatus::Cancelled));
    assert_eq!(fx.stopped, vec![id.clone()]);
    match &fx.events[0] {
        Event::JobCancelled { job } => assert_eq!(job.job_id, id),
        _ => panic!("unexpected event type"),
    }
    // a late exit report for a cancelled job changes nothing
    let fx = s.handle_completed(&id, 0);
    assert!(fx.events.is_empty());
    assert_eq!(s.get_job(&id).unwrap().status, JobStatus::Cancelled);
}

#[test]
fn gpu_jobs_get_devices_and_wait_for_room() {
    let cfg = config_with(4, Some(vec![10 * GIB, 20 * GIB]), "least-loaded");
    let mut s = Scheduler::new(&cfg);
    let mut spec = make_spec("train", 0, vec![]);
    spec.resources.gpu_count = 1;
    spec.resources.gpu_vram_min_bytes = Some(15 * GIB);
    let ((a, _), fx) = s.handle_submit(spec.clone()).unwrap();
    assert_eq!(fx.started.len(), 1);
    let env = &fx.started[0].spec.env;
    assert_eq!(env.len(), 1);
    assert_eq!(env[0].name, "CUDA_VISIBLE_DEVICES");
    assert_eq!(env[0].value, "1");

    // no device has 15 GiB left: the second job waits
    let ((b, _), fx) = s.handle_submit(spec).unwrap();
    assert!(fx.started.is_empty());
    assert_eq!(s.get_job(&b).unwrap().status, JobStatus::Queued);

    // once the first gives its device back, the second starts on it
    let fx = s.handle_completed(&a, 0);
    assert_eq!(fx.started.len(), 1);
    assert_eq!(fx.started[0].id, b);
    assert_eq!(fx.started[0].spec.env[0].value, "1");
}

#[test]
fn packed_policy_uses_lowest_devices() {
    let cfg = config_with(4, Some(vec![8 * GIB, 8 * GIB, 8 * GIB]), "packed");
    let mut s = Scheduler::new(&cfg);
    let mut spec = make_spec("pair", 0, vec![]);
    spec.resources.gpu_count = 2;
    spec.resources.gpu_vram_min_bytes = Some(GIB);
    let (_, fx) = s.handle_submit(spec).unwrap();
    assert_eq!(fx.started[0].spec.env[0].value, "0,1");
}

#[test]
fn log_stream_words() {
    assert_eq!(LogStream::parse(Some("stdout")), LogStream::Stdout);
    assert_eq!(LogStream::parse(Some("stderr")), LogStream::Stderr);
    assert_eq!(LogStream::parse(Some("both")), LogStream::Both);
    assert_eq!(LogStream::parse(None), LogStream::Both);
}

#[test]
fn job_ids_are_uuids() {
    let mut s = Scheduler::new(&test_config());
    let ((a, _), _) = s.handle_submit(make_spec("a", 0, vec![])).unwrap();
    let ((b, _), _) = s.handle_submit(make_spec("b", 0, vec![])).unwrap();
    assert_eq!(a.len(), 36);
    assert_eq!(a.matches('-').count(), 4);
    assert_ne!(a, b);
}

#[test]
fn every_submission_gets_its_own_id() {
    let mut s = Scheduler::new(&test_config());
    let mut ids: Vec<String> = Vec::new();
    for i in 0..20 {
        let ((id, _), _) = s.handle_submit(make_spec("echo", i, vec![])).unwrap();
        assert!(!ids.contains(&id));
        ids.push(id);
    }
    let (r, _) = s.handle_cancel(&ids[3]);
    assert!(r.is_ok());
    assert_eq!(s.get_job(&ids[3]).unwrap().status, JobStatus::Cancelled);
    assert_eq!(s.get_job(&ids[4]).unwrap().status, JobStatus::Queued);
    assert_eq!(s.query_jobs(&all(50)).len(), 20);
}

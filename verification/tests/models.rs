use wartable::models::{
    EnvVar, Event, Job, JobInfo, JobSpec, JobStatus, ResourceRequirements, Timestamp, set_env, time_from_clock,
};

fn make_job(command: &str) -> Job {
    let t = chrono::Utc::now();
    let now = Timestamp { secs: t.timestamp(), nanos: t.timestamp_subsec_nanos() };
    Job {
        id: "test-123".to_string(),
        spec: JobSpec {
            command: command.to_string(),
            working_dir: None,
            env: Vec::new(),
            resources: ResourceRequirements::default(),
            files: Vec::new(),
            priority: 0,
            tags: vec!["ml".to_string(), "gpu".to_string()],
            name: Some("test job".to_string()),
        },
        status: JobStatus::Running,
        submitted_at: now,
        started_at: Some(now),
        completed_at: None,
        exit_code: None,
        pid: Some(1234),
    }
}

#[test]
fn job_info_from_job() {
    let job = make_job("echo hello");
    let info = JobInfo::from(&job);

    assert_eq!(info.job_id, "test-123");
    assert_eq!(info.name, Some("test job".to_string()));
    assert_eq!(info.status, JobStatus::Running);
    assert_eq!(info.command, "echo hello");
    assert_eq!(info.tags, vec!["ml", "gpu"]);
    assert!(info.started_at.is_some());
    assert!(info.completed_at.is_none());
    assert!(info.exit_code.is_none());
}

#[test]
fn job_info_truncates_long_command() {
    let long_cmd = "x".repeat(200);
    let job = make_job(&long_cmd);
    let info = JobInfo::from(&job);

    assert_eq!(info.command.len(), 103); // 100 chars + "..."
    assert!(info.command.ends_with("..."));
}

#[test]
fn job_info_short_command_not_truncated() {
    let job = make_job("echo hi");
    let info = JobInfo::from(&job);
    assert_eq!(info.command, "echo hi");
}

#[test]
fn job_status_display() {
    assert_eq!(JobStatus::Queued.to_string(), "queued");
    assert_eq!(JobStatus::Running.to_string(), "running");
    assert_eq!(JobStatus::Completed.to_string(), "completed");
    assert_eq!(JobStatus::Failed.to_string(), "failed");
    assert_eq!(JobStatus::Cancelled.to_string(), "cancelled");
}

#[test]
fn resource_requirements_default() {
    let r = ResourceRequirements::default();
    assert_eq!(r.gpu_count, 0);
    assert!(r.gpu_vram_min_bytes.is_none());
    assert!(r.cpu_cores.is_none());
    assert!(r.ram_min_bytes.is_none());
    assert!(r.disk_min_bytes.is_none());
}

#[test]
fn command_of_exactly_100_characters_is_kept() {
    let cmd = "y".repeat(100);
    let info = JobInfo::from(&make_job(&cmd));
    assert_eq!(info.command, cmd);
}

#[test]
fn truncation_keeps_the_first_100_characters() {
    let cmd = format!("{}{}", "a".repeat(100), "bcd");
    let info = JobInfo::from(&make_job(&cmd));
    assert_eq!(info.command, format!("{}...", "a".repeat(100)));
}

#[test]
fn status_filter_words() {
    assert_eq!(JobStatus::parse_filter("queued"), Some(JobStatus::Queued));
    assert_eq!(JobStatus::parse_filter("running"), Some(JobStatus::Running));
    assert_eq!(JobStatus::parse_filter("completed"), Some(JobStatus::Completed));
    assert_eq!(JobStatus::parse_filter("failed"), Some(JobStatus::Failed));
    assert_eq!(JobStatus::parse_filter("cancelled"), Some(JobStatus::Cancelled));
    assert_eq!(JobStatus::parse_filter("all"), None);
    assert_eq!(JobStatus::parse_filter("Queued"), None);
}

#[test]
fn finished_statuses() {
    assert!(!JobStatus::Queued.is_finished());
    assert!(!JobStatus::Running.is_finished());
    assert!(JobStatus::Completed.is_finished());
    assert!(JobStatus::Failed.is_finished());
    assert!(JobStatus::Cancelled.is_finished());
}

#[test]
fn listing_order_of_statuses() {
    assert_eq!(JobStatus::Running.listing_order(), 0);
    assert_eq!(JobStatus::Queued.listing_order(), 1);
    assert_eq!(JobStatus::Failed.listing_order(), 2);
    assert_eq!(JobStatus::Completed.listing_order(), 3);
    assert_eq!(JobStatus::Cancelled.listing_order(), 4);
}

#[test]
fn event_type_names() {
    let info = JobInfo::from(&make_job("echo"));
    assert_eq!(Event::JobSubmitted { job: info.clone() }.event_type(), "job_submitted");
    assert_eq!(Event::JobStarted { job: info.clone() }.event_type(), "job_started");
    assert_eq!(Event::JobCompleted { job: info.clone() }.event_type(), "job_completed");
    assert_eq!(Event::JobCancelled { job: info }.event_type(), "job_cancelled");
}

#[test]
fn timestamps_order_by_seconds_then_nanos() {
    let a = Timestamp { secs: 10, nanos: 5 };
    let b = Timestamp { secs: 10, nanos: 6 };
    let c = Timestamp { secs: 11, nanos: 0 };
    assert!(a.is_before(&b));
    assert!(b.is_before(&c));
    assert!(!b.is_before(&a));
    assert!(!a.is_before(&a));
}

#[test]
fn setting_env_replaces_or_appends() {
    let mut env = vec![EnvVar { name: "A".to_string(), value: "1".to_string() }];
    set_env(&mut env, EnvVar { name: "B".to_string(), value: "2".to_string() });
    set_env(&mut env, EnvVar { name: "A".to_string(), value: "3".to_string() });
    assert_eq!(env.len(), 2);
    assert_eq!(env[0].name, "A");
    assert_eq!(env[0].value, "3");
    assert_eq!(env[1].name, "B");
    assert_eq!(env[1].value, "2");
}

#[test]
fn working_dir_falls_back_to_default() {
    let mut job = make_job("ls");
    assert_eq!(job.spec.working_dir_or("/opt/wartable/jobs"), "/opt/wartable/jobs");
    job.spec.working_dir = Some("/data".to_string());
    assert_eq!(job.spec.working_dir_or("/opt/wartable/jobs"), "/data");
}

#[test]
fn summaries_count_characters_not_bytes() {
    let cmd = "a".to_string() + &"é".repeat(60);
    let job = make_job(&cmd);
    assert_eq!(JobInfo::from(&job).command, cmd);
    let long = "é".repeat(150);
    let info = JobInfo::from(&make_job(&long));
    assert_eq!(info.command, "é".repeat(100) + "...");
}

#[test]
fn clock_readings_become_timestamps() {
    assert_eq!(time_from_clock(Ok((5, 7))), Timestamp { secs: 5, nanos: 7 });
    assert_eq!(time_from_clock(Err((1, 0))), Timestamp { secs: -1, nanos: 0 });
    assert_eq!(time_from_clock(Err((1, 250_000_000))), Timestamp { secs: -2, nanos: 750_000_000 });
    assert_eq!(time_from_clock(Ok((u64::MAX, 3))), Timestamp { secs: i64::MAX, nanos: 3 });
}

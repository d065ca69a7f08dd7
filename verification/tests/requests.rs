use wartable::models::{Job, JobSpec, JobStatus, ResourceRequirements, Timestamp};
use wartable::requests::{
    content_disposition, download_access, download_gate, download_headers, file_name, upload_gate, has_traversal, parse_octal_mode,
    path_allowed, path_within, retry_check, status_filter, upload_mode, ListJobsParams, ListJobsQuery,
    LogsQuery, SubmitJobParams, UploadFileParams,
};
use wartable::scheduler::LogStream;

fn params(gpu_count: Option<u32>, vram: Option<u64>) -> SubmitJobParams {
    SubmitJobParams {
        command: "python train.py".to_string(),
        working_dir: None,
        env: None,
        gpu_count,
        gpu_vram_min_bytes: vram,
        cpu_cores: None,
        ram_min_bytes: None,
        disk_min_bytes: None,
        files: None,
        priority: None,
        tags: Some(vec!["ml".to_string()]),
        name: None,
    }
}

#[test]
fn submit_params_need_vram_with_gpus() {
    assert_eq!(params(Some(1), None).into_spec().unwrap_err(), "gpu_vram_min_gb is required when gpu_count > 0");
    let spec = params(Some(2), Some(1024)).into_spec().unwrap();
    assert_eq!(spec.resources.gpu_count, 2);
    assert_eq!(spec.resources.gpu_vram_min_bytes, Some(1024));
    assert_eq!(spec.priority, 0);
    assert_eq!(spec.tags, vec!["ml"]);
    let spec = params(None, None).into_spec().unwrap();
    assert_eq!(spec.resources.gpu_count, 0);
    assert!(spec.env.is_empty() && spec.files.is_empty());
}

#[test]
fn listing_filters() {
    let q = ListJobsQuery { status: Some("failed".to_string()), tag: None, limit: None };
    let f = q.to_filter();
    assert_eq!(f.status, Some(JobStatus::Failed));
    assert_eq!(f.limit, 50);
    let p = ListJobsParams { status: Some("all".to_string()), tag: Some("x".to_string()), limit: Some(7) };
    let f = p.to_filter();
    assert_eq!(f.status, None);
    assert_eq!(f.tag, Some("x".to_string()));
    assert_eq!(f.limit, 7);
    assert_eq!(status_filter(&None), None);
}

#[test]
fn logs_query_stream() {
    let q = LogsQuery { stream: Some("stderr".to_string()), tail: None, since_offset: None };
    assert_eq!(q.log_stream(), LogStream::Stderr);
    let q = LogsQuery { stream: None, tail: Some(5), since_offset: None };
    assert_eq!(q.log_stream(), LogStream::Both);
}

fn job_with(status: JobStatus) -> Job {
    Job {
        id: "j".to_string(),
        spec: JobSpec {
            command: "true".to_string(),
            working_dir: None,
            env: Vec::new(),
            resources: ResourceRequirements::default(),
            files: Vec::new(),
            priority: 0,
            tags: Vec::new(),
            name: None,
        },
        status,
        submitted_at: Timestamp { secs: 0, nanos: 0 },
        started_at: None,
        completed_at: None,
        exit_code: None,
        pid: None,
    }
}

#[test]
fn retry_only_finished_jobs() {
    assert!(retry_check(&job_with(JobStatus::Failed)).is_ok());
    assert!(retry_check(&job_with(JobStatus::Cancelled)).is_ok());
    assert!(retry_check(&job_with(JobStatus::Completed)).is_ok());
    assert_eq!(retry_check(&job_with(JobStatus::Running)).unwrap_err(), "Cannot retry job in status: running");
    assert_eq!(retry_check(&job_with(JobStatus::Queued)).unwrap_err(), "Cannot retry job in status: queued");
}

#[test]
fn traversal_detection() {
    assert!(has_traversal("/opt/../etc/passwd"));
    assert!(has_traversal("a..b"));
    assert!(!has_traversal("/opt/wartable/jobs/a.b"));
    assert!(!has_traversal("."));
    assert!(!has_traversal(""));
}

#[test]
fn octal_modes() {
    assert_eq!(parse_octal_mode("0644"), Some(0o644));
    assert_eq!(parse_octal_mode("+755"), Some(0o755));
    assert_eq!(parse_octal_mode("8"), None);
    assert_eq!(parse_octal_mode(""), None);
    assert_eq!(parse_octal_mode("+"), None);
    assert_eq!(parse_octal_mode("37777777777"), Some(u32::MAX));
    assert_eq!(parse_octal_mode("40000000000"), None);
    assert_eq!(upload_mode(&Some("4777".to_string())), Some(0o755));
    assert_eq!(upload_mode(&Some("0600".to_string())), Some(0o600));
    assert_eq!(upload_mode(&Some("rw".to_string())), None);
    assert_eq!(upload_mode(&None), None);
}

fn upload(content: &str, mode: Option<&str>) -> UploadFileParams {
    UploadFileParams {
        path: "/opt/wartable/jobs/a.txt".to_string(),
        content_base64: content.to_string(),
        mode: mode.map(|m| m.to_string()),
    }
}

#[test]
fn upload_content_is_decoded() {
    let c = upload("aGVsbG8=", Some("4777")).content().unwrap();
    assert_eq!(c.bytes, b"hello".to_vec());
    assert_eq!(c.mode, Some(0o755));
    let c = upload("", None).content().unwrap();
    assert_eq!(c.bytes, Vec::<u8>::new());
    assert_eq!(c.mode, None);
    let e = upload("***", None).content().err().unwrap();
    assert!(e.starts_with("Invalid base64: "));
    assert!(e.len() > "Invalid base64: ".len());
}

#[test]
fn paths_within_dirs() {
    assert!(path_within("/opt/wartable/jobs/a.txt", "/opt/wartable/jobs"));
    assert!(path_within("/opt/wartable/jobs", "/opt/wartable/jobs/"));
    assert!(!path_within("/opt/wartable/jobsx/a", "/opt/wartable/jobs"));
    assert!(!path_within("/etc/passwd", "/opt"));
    assert!(path_within("/opt//a/./b", "/opt/a"));
    assert!(!path_within("opt/a", "/opt"));
    assert!(!path_within("./a", "a"));
    let dirs = vec!["/opt/wartable/logs".to_string(), "/srv".to_string()];
    assert!(path_allowed(Some("/srv/data/x"), None, &dirs));
    assert!(!path_allowed(Some("/root/x"), Some("/srv"), &dirs));
    assert!(path_allowed(None, Some("/srv"), &dirs));
    assert!(!path_allowed(None, None, &dirs));
}

#[test]
fn file_names_and_headers() {
    assert_eq!(file_name("/opt/a/report.pdf"), Some("report.pdf".to_string()));
    assert_eq!(file_name("/opt/a/"), Some("a".to_string()));
    assert_eq!(file_name("/"), None);
    assert_eq!(file_name("/opt/.."), None);
    assert_eq!(content_disposition("/x/y.txt"), "inline; filename=\"y.txt\"");
    assert_eq!(content_disposition("/"), "inline; filename=\"download\"");
}

#[test]
fn media_types() {
    let (mime, disposition) = download_headers("/tmp/a.json");
    assert_eq!(mime, "application/json");
    assert_eq!(disposition, "inline; filename=\"a.json\"");
    assert_eq!(download_headers("/tmp/a.png").0, "image/png");
    assert_eq!(download_headers("/tmp/noext").0, "application/octet-stream");
}

#[test]
fn download_checks_come_in_order() {
    let dirs = vec!["/opt/jobs".to_string()];
    assert_eq!(download_gate(Err("Token expired"), "/opt/jobs/../x"), Err((403, "Token expired".to_string())));
    assert_eq!(download_gate(Ok("/opt/jobs/../x".to_string()), "/opt/jobs/../x"), Err((400, "Path traversal not allowed".to_string())));
    assert_eq!(download_gate(Ok("/opt/jobs/a".to_string()), "/opt/jobs/a"), Ok(()));
    assert_eq!(download_access("/opt/jobs/a", None, &dirs, None), Err((404, "File not found: /opt/jobs/a".to_string())));
    assert_eq!(download_access("/etc/passwd", Some("/etc/passwd"), &dirs, Some(true)), Err((403, "Path outside allowed directories".to_string())));
    assert_eq!(download_access("/opt/jobs/a", Some("/opt/jobs/a"), &dirs, None), Err((404, "File not found: /opt/jobs/a".to_string())));
    assert_eq!(download_access("/opt/jobs/d", Some("/opt/jobs/d"), &dirs, Some(false)), Err((400, "Not a regular file".to_string())));
    assert_eq!(download_access("/opt/jobs/a", Some("/opt/jobs/a"), &dirs, Some(true)), Ok(()));
}

#[test]
fn uploads_create_directories_only_where_allowed() {
    let dirs = vec!["/opt/jobs".to_string()];
    assert_eq!(upload_gate("/opt/jobs/../etc/x", true, &dirs), Err("Path traversal not allowed"));
    assert_eq!(upload_gate("/srv/new/x", false, &dirs), Err("Path outside allowed directories"));
    assert_eq!(upload_gate("/srv/x", true, &dirs), Ok(()));
    assert_eq!(upload_gate("/opt/jobs/new/x", false, &dirs), Ok(()));
}

use wartable::config::{
    default_device_env_var, default_gpu_policy, default_host, default_kill_grace, default_log_dir,
    default_max_concurrent, default_port, default_true, default_working_dir, expand_tilde,
    shellexpand_tilde, AuthConfig, Config, ServerConfig,
};

#[test]
fn shellexpand_tilde_expands_home() {
    let expanded = shellexpand_tilde("~/foo/bar");
    assert!(!expanded.starts_with("~"));
    assert!(expanded.ends_with("/foo/bar"));
}

#[test]
fn shellexpand_tilde_bare_tilde() {
    let expanded = shellexpand_tilde("~");
    assert!(!expanded.starts_with("~") || expanded == "~"); // only if no home dir
}

#[test]
fn shellexpand_tilde_no_tilde() {
    assert_eq!(shellexpand_tilde("/absolute/path"), "/absolute/path");
    assert_eq!(shellexpand_tilde("relative/path"), "relative/path");
}

#[test]
fn tilde_expansion_against_given_home() {
    let home = Some("/home/ada".to_string());
    assert_eq!(expand_tilde("~/x", &home), "/home/ada/x");
    assert_eq!(expand_tilde("~", &home), "/home/ada");
    assert_eq!(expand_tilde("~x", &home), "~x");
    assert_eq!(expand_tilde("a/~/b", &home), "a/~/b");
    assert_eq!(expand_tilde("~/x", &None), "~/x");
}

#[test]
fn defaults() {
    assert_eq!(default_host(), "0.0.0.0");
    assert_eq!(default_port(), 9400);
    assert_eq!(default_max_concurrent(), 8);
    assert_eq!(default_working_dir(), "/opt/wartable/jobs");
    assert_eq!(default_log_dir(), "/opt/wartable/logs");
    assert_eq!(default_kill_grace(), 10);
    assert!(default_true());
    assert_eq!(default_gpu_policy(), "least-loaded");
    assert_eq!(default_device_env_var(), "CUDA_VISIBLE_DEVICES");
    let c = Config::defaults();
    assert_eq!(c.server.host, "0.0.0.0");
    assert_eq!(c.server.port, 9400);
    assert_eq!(c.scheduler.max_concurrent_jobs, 8);
    assert_eq!(c.workers.log_dir, "/opt/wartable/logs");
    assert_eq!(c.workers.kill_grace_period_secs, 10);
    assert!(c.dashboard.enabled);
    assert!(c.dashboard.static_dir.is_none());
    assert!(AuthConfig::default().enabled);
}

#[test]
fn config_path_under_home() {
    assert_eq!(Config::config_path_in(&Some("/home/ada".to_string())), "/home/ada/.wartable/config.toml");
    assert_eq!(Config::config_path_in(&Some("/root/".to_string())), "/root/.wartable/config.toml");
    assert_eq!(Config::config_path_in(&None), "/tmp/.wartable/config.toml");
    assert!(Config::config_path().ends_with("/.wartable/config.toml"));
}

#[test]
fn base_url_choices() {
    let mut c = Config::defaults();
    c.server.base_url = Some("http://example.org:9400//".to_string());
    assert_eq!(c.base_url_with(&None), "http://example.org:9400");
    c.server.base_url = None;
    assert_eq!(c.base_url_with(&Some("gpu-box".to_string())), "http://gpu-box:9400");
    assert_eq!(c.base_url_with(&None), "http://localhost:9400");
    c.server = ServerConfig { host: "127.0.0.1".to_string(), port: 3000, base_url: None };
    assert_eq!(c.base_url_with(&Some("gpu-box".to_string())), "http://127.0.0.1:3000");
    c.server.host = "::".to_string();
    assert!(c.base_url().starts_with("http://"));
    assert!(c.base_url().ends_with(":3000"));
}

#[test]
fn allowed_dirs_order() {
    let mut c = Config::defaults();
    c.workers.extra_allowed_dirs = vec!["~/projects".to_string(), "/srv".to_string()];
    let dirs = c.allowed_dirs_in(&Some("/home/ada".to_string()));
    assert_eq!(dirs, vec!["/opt/wartable/logs", "/opt/wartable/jobs", "/home/ada/projects", "/srv"]);
    assert_eq!(c.allowed_dirs().len(), 4);
}

#[test]
fn log_dir_uses_tilde_expansion() {
    let mut config = Config::defaults();
    config.workers.log_dir = "~/wartable/logs".to_string();
    let log_dir = config.log_dir();
    assert!(!log_dir.starts_with("~"));
    assert!(log_dir.ends_with("/wartable/logs"));
    assert_eq!(config.working_dir(), "/opt/wartable/jobs");
}

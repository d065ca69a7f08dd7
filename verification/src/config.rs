//! Server configuration, its defaults, and the paths and URLs derived from it.
use vstd::prelude::*;
use vstd::string::StringExecFns;
use crate::text::{
    chars_of, decimal, decimal_string, has_prefix, join_path, owned, path_join, str_equal,
    starts_with_chars, trim_end_char, trim_end_matching,
};

verus! {

/// Where the server listens and how it names itself in links.
#[derive(Clone, Debug)]
pub struct ServerConfig {
    pub host: String,
    pub port: u16,
    /// Base URL for presigned download links. Defaults to http://{host}:{port}.
    pub base_url: Option<String>,
}

impl Default for ServerConfig {
    fn default() -> (r: ServerConfig)
        ensures
            r.host@ == "0.0.0.0"@,
            r.port == 9400,
            r.base_url is None,
    {
        ServerConfig { host: default_host(), port: default_port(), base_url: None }
    }
}

/// Dispatch limits.
#[derive(Clone, Debug)]
pub struct SchedulerConfig {
    pub max_concurrent_jobs: usize,
    pub gpu: GpuSchedulerConfig,
}

impl Default for SchedulerConfig {
    fn default() -> (r: SchedulerConfig)
        ensures
            r.max_concurrent_jobs == 8,
            r.gpu.vram_bytes is None,
            r.gpu.policy@ == "least-loaded"@,
            r.gpu.device_env_var@ == "CUDA_VISIBLE_DEVICES"@,
    {
        SchedulerConfig { max_concurrent_jobs: default_max_concurrent(), gpu: GpuSchedulerConfig::default() }
    }
}

/// GPU-aware scheduling configuration.
///
/// A job that asks for GPUs is dispatched only when enough devices have the VRAM it
/// asks for; the assigned device indices are handed to the job through
/// `device_env_var`. Policy "packed" fills the lowest-indexed devices first; any other
/// policy ("least-loaded", the default) prefers the devices with the most free VRAM,
/// spreading work across devices. Per-device VRAM budgets (in bytes) come from `vram_bytes` when set,
/// and from the driver otherwise.
#[derive(Clone, Debug)]
pub struct GpuSchedulerConfig {
    pub vram_bytes: Option<Vec<u64>>,
    pub policy: String,
    pub device_env_var: String,
}

impl Default for GpuSchedulerConfig {
    fn default() -> (r: GpuSchedulerConfig)
        ensures
            r.vram_bytes is None,
            r.policy@ == "least-loaded"@,
            r.device_env_var@ == "CUDA_VISIBLE_DEVICES"@,
    {
        GpuSchedulerConfig { vram_bytes: None, policy: default_gpu_policy(), device_env_var: default_device_env_var() }
    }
}

/// The default GPU assignment policy.
pub fn default_gpu_policy() -> (r: String)
    ensures
        r@ == "least-loaded"@,
{
    owned("least-loaded")
}

/// The default variable that tells a job which GPUs it may use.
pub fn default_device_env_var() -> (r: String)
    ensures
        r@ == "CUDA_VISIBLE_DEVICES"@,
{
    owned("CUDA_VISIBLE_DEVICES")
}

/// Where jobs run and where their logs go.
#[derive(Clone, Debug)]
pub struct WorkerConfig {
    pub default_working_dir: String,
    pub log_dir: String,
    pub kill_grace_period_secs: u64,
    pub extra_allowed_dirs: Vec<String>,
}

impl Default for WorkerConfig {
    fn default() -> (r: WorkerConfig)
        ensures
            r.default_working_dir@ == "/opt/wartable/jobs"@,
            r.log_dir@ == "/opt/wartable/logs"@,
            r.kill_grace_period_secs == 10,
            r.extra_allowed_dirs@.len() == 0,
    {
        WorkerConfig {
            default_working_dir: default_working_dir(),
            log_dir: default_log_dir(),
            kill_grace_period_secs: default_kill_grace(),
            extra_allowed_dirs: Vec::new(),
        }
    }
}

/// The web dashboard.
#[derive(Clone, Debug)]
pub struct DashboardConfig {
    pub enabled: bool,
    pub static_dir: Option<String>,
}

impl Default for DashboardConfig {
    fn default() -> (r: DashboardConfig)
        ensures
            r.enabled,
            r.static_dir is None,
    {
        DashboardConfig { enabled: default_true(), static_dir: None }
    }
}

/// API-key authentication.
#[derive(Clone, Debug)]
pub struct AuthConfig {
    pub enabled: bool,
    pub api_keys: Vec<ApiKeyEntry>,
}

impl Default for AuthConfig {
    fn default() -> (r: AuthConfig)
        ensures
            r.enabled,
            r.api_keys@.len() == 0,
    {
        AuthConfig { enabled: true, api_keys: Vec::new() }
    }
}

/// A key given in the configuration file.
#[derive(Clone, Debug)]
pub struct ApiKeyEntry {
    pub name: String,
    pub key: String,
}

/// The default listening address.
pub fn default_host() -> (r: String)
    ensures
        r@ == "0.0.0.0"@,
{
    owned("0.0.0.0")
}

/// The default port.
pub fn default_port() -> (r: u16)
    ensures
        r == 9400,
{
    9400
}

/// The default number of jobs that may run at once.
pub fn default_max_concurrent() -> (r: usize)
    ensures
        r == 8,
{
    8
}

/// The default directory jobs run in.
pub fn default_working_dir() -> (r: String)
    ensures
        r@ == "/opt/wartable/jobs"@,
{
    owned("/opt/wartable/jobs")
}

/// The default directory for job logs.
pub fn default_log_dir() -> (r: String)
    ensures
        r@ == "/opt/wartable/logs"@,
{
    owned("/opt/wartable/logs")
}

/// The default seconds between the polite and the forced stop of a cancelled job.
pub fn default_kill_grace() -> (r: u64)
    ensures
        r == 10,
{
    10
}

/// A default of `true`.
pub fn default_true() -> (r: bool)
    ensures
        r,
{
    true
}

/// The whole configuration.
#[derive(Clone, Debug)]
pub struct Config {
    pub server: ServerConfig,
    pub scheduler: SchedulerConfig,
    pub workers: WorkerConfig,
    pub dashboard: DashboardConfig,
    pub auth: AuthConfig,
}

/// The current user's home directory (`dirs::home_dir`), as text.
#[verifier::external_body]
pub(crate) fn home_dir() -> Option<String> {
    dirs::home_dir().map(|p| p.to_string_lossy().into_owned())
}

/// The machine's host name (`hostname::get`), when it is valid Unicode.
#[verifier::external_body]
pub(crate) fn machine_hostname() -> Option<String> {
    hostname::get().ok().and_then(|h| h.into_string().ok())
}

/// `path` with a leading "~" (alone or followed by "/") replaced by `home`.
pub open spec fn tilde_expanded(path: Seq<char>, home: Option<Seq<char>>) -> Seq<char> {
    if (has_prefix(path, "~/"@) || path == "~"@) && home is Some {
        home->0 + path.drop_first()
    } else {
        path
    }
}

/// Expands a leading "~" against the given home directory.
pub fn expand_tilde(path: &str, home: &Option<String>) -> (r: String)
    ensures
        r@ == tilde_expanded(path@, match home {
            Some(h) => Some(h@),
            None => None,
        }),
{
    let p = chars_of(path);
    let tilde = chars_of("~/");
    let home_relative = starts_with_chars(p.as_slice(), tilde.as_slice()) || str_equal(path, "~");
    match home {
        Some(h) => {
            if home_relative {
                proof {
                    reveal_strlit("~/");
                    reveal_strlit("~");
                }
                let rest = crate::text::chars_range(p.as_slice(), 1, p.len());
                let rest_s = crate::text::string_of(rest.as_slice());
                let mut out = h.clone();
                out.append(rest_s.as_str());
                assert(rest@ =~= path@.drop_first());
                out
            } else {
                owned(path)
            }
        },
        None => owned(path),
    }
}

/// Expands a leading "~" against the current user's home directory.
pub fn shellexpand_tilde(path: &str) -> (r: String)
    ensures
        exists|home: Option<Seq<char>>| r@ == tilde_expanded(path@, home),
{
    let home = home_dir();
    let r = expand_tilde(path, &home);
    proof {
        let h = match home {
            Some(h) => Some(h@),
            None => None,
        };
        assert(r@ == tilde_expanded(path@, h));
    }
    r
}

/// The URL prefix of links this server hands out, given the machine's host name.
pub open spec fn base_url_spec(server: ServerConfig, machine: Option<Seq<char>>) -> Seq<char> {
    match server.base_url {
        Some(url) => trim_end_char(url@, '/'),
        None => {
            let host = if server.host@ == "0.0.0.0"@ || server.host@ == "::"@ {
                match machine {
                    Some(m) => m,
                    None => "localhost"@,
                }
            } else {
                server.host@
            };
            "http://"@ + host + ":"@ + decimal(server.port as nat)
        },
    }
}

/// The `i`-th directory file transfers may touch, as configured: the log directory, the
/// default working directory, then the extra directories.
pub open spec fn configured_dir(w: WorkerConfig, i: int) -> Seq<char> {
    if i == 0 {
        w.log_dir@
    } else if i == 1 {
        w.default_working_dir@
    } else {
        w.extra_allowed_dirs@[i - 2]@
    }
}

/// Each directory is the configured one at its place, with "~" expanded against `home`.
pub open spec fn expanded_dirs(dirs: Seq<String>, w: WorkerConfig, home: Option<Seq<char>>) -> bool {
    forall|i: int| 0 <= i < dirs.len() ==> #[trigger] dirs[i]@ == tilde_expanded(configured_dir(w, i), home)
}

/// The configuration file under the home directory, or under /tmp without one.
pub open spec fn config_file_at(home: Option<Seq<char>>) -> Seq<char> {
    join_path(match home {
        Some(h) => h,
        None => "/tmp"@,
    }, ".wartable/config.toml"@)
}

impl Config {
    /// Every section at its defaults (what runs when there is no configuration file).
    pub fn defaults() -> (r: Config)
        ensures
            r.server.host@ == "0.0.0.0"@,
            r.server.port == 9400,
            r.server.base_url is None,
            r.scheduler.max_concurrent_jobs == 8,
            r.workers.default_working_dir@ == "/opt/wartable/jobs"@,
            r.workers.log_dir@ == "/opt/wartable/logs"@,
            r.workers.kill_grace_period_secs == 10,
            r.dashboard.enabled,
            r.auth.enabled,
    {
        Config {
            server: ServerConfig::default(),
            scheduler: SchedulerConfig::default(),
            workers: WorkerConfig::default(),
            dashboard: DashboardConfig::default(),
            auth: AuthConfig::default(),
        }
    }

    /// Where the configuration file lives, given the home directory.
    pub fn config_path_in(home: &Option<String>) -> (r: String)
        ensures
            r@ == config_file_at(match home {
                Some(h) => Some(h@),
                None => None,
            }),
    {
        match home {
            Some(h) => path_join(h.as_str(), ".wartable/config.toml"),
            None => path_join("/tmp", ".wartable/config.toml"),
        }
    }

    /// Where the configuration file lives: `~/.wartable/config.toml`, or under /tmp
    /// when there is no home directory.
    pub fn config_path() -> (r: String)
        ensures
            exists|home: Option<Seq<char>>| r@ == config_file_at(home),
    {
        let home = home_dir();
        let r = Config::config_path_in(&home);
        proof {
            let h = match home {
                Some(h) => Some(h@),
                None => None,
            };
            assert(r@ == config_file_at(h));
        }
        r
    }

    /// The log directory, with "~" expanded.
    pub fn log_dir(&self) -> (r: String)
        ensures
            exists|home: Option<Seq<char>>| r@ == tilde_expanded(self.workers.log_dir@, home),
    {
        shellexpand_tilde(self.workers.log_dir.as_str())
    }

    /// The default working directory, with "~" expanded.
    pub fn working_dir(&self) -> (r: String)
        ensures
            exists|home: Option<Seq<char>>| r@ == tilde_expanded(self.workers.default_working_dir@, home),
    {
        shellexpand_tilde(self.workers.default_working_dir.as_str())
    }

    /// The link prefix, given the machine's host name: the configured base URL without
    /// trailing slashes, or http://{host}:{port}, where a wildcard host stands for the
    /// machine's name (or "localhost" when it has none).
    pub fn base_url_with(&self, machine: &Option<String>) -> (r: String)
        ensures
            r@ == base_url_spec(self.server, match machine {
                Some(m) => Some(m@),
                None => None,
            }),
    {
        match &self.server.base_url {
            Some(url) => trim_end_matching(url.as_str(), '/'),
            None => {
                let wildcard = str_equal(self.server.host.as_str(), "0.0.0.0") || str_equal(
                    self.server.host.as_str(),
                    "::",
                );
                let host = if wildcard {
                    match machine {
                        Some(m) => m.clone(),
                        None => owned("localhost"),
                    }
                } else {
                    self.server.host.clone()
                };
                let mut out = owned("http://");
                out.append(host.as_str());
                out.append(":");
                let port = decimal_string(self.server.port as u64);
                out.append(port.as_str());
                out
            },
        }
    }

    /// The link prefix for presigned downloads.
    pub fn base_url(&self) -> (r: String)
        ensures
            exists|machine: Option<Seq<char>>| r@ == base_url_spec(self.server, machine),
    {
        let machine = machine_hostname();
        let r = self.base_url_with(&machine);
        proof {
            let m = match machine {
                Some(m) => Some(m@),
                None => None,
            };
            assert(r@ == base_url_spec(self.server, m));
        }
        r
    }

    /// The directories that file uploads and downloads may touch, in order: the log
    /// directory, the default working directory, then the extra directories, each with
    /// "~" expanded against `home`. They are to be resolved on disk before use.
    pub fn allowed_dirs_in(&self, home: &Option<String>) -> (r: Vec<String>)
        ensures
            r@.len() == 2 + self.workers.extra_allowed_dirs@.len(),
            forall|i: int| 0 <= i < r@.len() ==> #[trigger] r@[i]@ == tilde_expanded(
                configured_dir(self.workers, i),
                match home {
                    Some(h) => Some(h@),
                    None => None,
                },
            ),
    {
        let mut r: Vec<String> = Vec::new();
        r.push(expand_tilde(self.workers.log_dir.as_str(), home));
        r.push(expand_tilde(self.workers.default_working_dir.as_str(), home));
        let extras = &self.workers.extra_allowed_dirs;
        let mut i: usize = 0;
        while i < extras.len()
            invariant
                i <= extras@.len(),
                extras == &self.workers.extra_allowed_dirs,
                r@.len() == 2 + i,
                forall|k: int| 0 <= k < r@.len() ==> #[trigger] r@[k]@ == tilde_expanded(
                    configured_dir(self.workers, k),
                    match home {
                        Some(h) => Some(h@),
                        None => None,
                    },
                ),
            decreases extras@.len() - i,
        {
            r.push(expand_tilde(extras[i].as_str(), home));
            i = i + 1;
        }
        r
    }

    /// The directories that file uploads and downloads may touch (see `allowed_dirs_in`),
    /// with "~" expanded against the current user's home directory.
    pub fn allowed_dirs(&self) -> (r: Vec<String>)
        ensures
            r@.len() == 2 + self.workers.extra_allowed_dirs@.len(),
            exists|home: Option<Seq<char>>| #[trigger] expanded_dirs(r@, self.workers, home),
    {
        let home = home_dir();
        let r = self.allowed_dirs_in(&home);
        proof {
            let h = match home {
                Some(h) => Some(h@),
                None => None,
            };
            assert(expanded_dirs(r@, self.workers, h));
        }
        r
    }
}

} // verus!

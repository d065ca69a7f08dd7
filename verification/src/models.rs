//! The job model: statuses, specifications, jobs, their summaries, logs and events.
use vstd::prelude::*;
use vstd::string::StringExecFns;
use vstd::utf8::{decode_utf8, encode_utf8, is_char_boundary};
use vstd::string::StringSliceAdditionalSpecFns;
use crate::system::system_clock;
use crate::text::{chars_of, chars_range, owned, str_equal, string_of};

verus! {

broadcast use vstd::utf8::encode_utf8_decode_utf8;

/// A point in time: whole seconds since the Unix epoch and the nanoseconds within that
/// second (more than a second's worth only inside a leap second).
#[derive(Clone, Copy, Debug, PartialEq, Eq, Structural)]
pub struct Timestamp {
    pub secs: i64,
    pub nanos: u32,
}

impl Timestamp {
    /// A single integer that orders timestamps as (seconds, nanoseconds) lexicographically.
    pub open spec fn ord_key(self) -> int {
        self.secs * 4294967296 + self.nanos
    }

    /// Whether `self` lies strictly before `other`.
    pub fn is_before(&self, other: &Timestamp) -> (r: bool)
        ensures
            r == (self.ord_key() < other.ord_key()),
    {
        self.secs < other.secs || (self.secs == other.secs && self.nanos < other.nanos)
    }
}

/// The time a wall-clock reading stands for (see `system_clock`): `Ok((s, n))` is `s`
/// seconds and `n` nanoseconds after the epoch, `Err((s, n))` as much before it. Times
/// beyond what a `Timestamp` holds stay at its bounds.
pub open spec fn clock_time(reading: Result<(u64, u32), (u64, u32)>) -> Timestamp {
    match reading {
        Ok((s, n)) => if s <= i64::MAX {
            Timestamp { secs: s as i64, nanos: n }
        } else {
            Timestamp { secs: i64::MAX, nanos: n }
        },
        Err((s, n)) => if n == 0 {
            if s <= i64::MAX {
                Timestamp { secs: -(s as int) as i64, nanos: 0 }
            } else {
                Timestamp { secs: i64::MIN, nanos: 0 }
            }
        } else if s < i64::MAX {
            Timestamp { secs: (-(s as int) - 1) as i64, nanos: (1_000_000_000 - n) as u32 }
        } else {
            Timestamp { secs: i64::MIN, nanos: 0 }
        },
    }
}

/// The time a wall-clock reading stands for.
pub fn time_from_clock(reading: Result<(u64, u32), (u64, u32)>) -> (r: Timestamp)
    requires
        match reading {
            Ok((_, n)) => n < 1_000_000_000,
            Err((_, n)) => n < 1_000_000_000,
        },
    ensures
        r == clock_time(reading),
        r.nanos < 1_000_000_000,
{
    match reading {
        Ok((s, n)) => if s <= i64::MAX as u64 {
            Timestamp { secs: s as i64, nanos: n }
        } else {
            Timestamp { secs: i64::MAX, nanos: n }
        },
        Err((s, n)) => if n == 0 {
            if s <= i64::MAX as u64 {
                Timestamp { secs: -(s as i64), nanos: 0 }
            } else {
                Timestamp { secs: i64::MIN, nanos: 0 }
            }
        } else if s < i64::MAX as u64 {
            Timestamp { secs: -(s as i64) - 1, nanos: 1_000_000_000 - n }
        } else {
            Timestamp { secs: i64::MIN, nanos: 0 }
        },
    }
}

/// The current wall-clock time, also before the epoch.
pub fn now() -> (r: Timestamp)
    ensures
        r.nanos < 1_000_000_000,
        exists|reading: Result<(u64, u32), (u64, u32)>| r == #[trigger] clock_time(reading),
{
    let reading = system_clock();
    time_from_clock(reading)
}

pub type JobId = String;

/// Where a job stands in its life.
#[derive(Clone, Copy, Debug, PartialEq, Eq, Structural)]
pub enum JobStatus {
    Queued,
    Running,
    Completed,
    Failed,
    Cancelled,
}

impl JobStatus {
    /// The lowercase name of a status.
    pub open spec fn name(self) -> Seq<char> {
        match self {
            JobStatus::Queued => "queued"@,
            JobStatus::Running => "running"@,
            JobStatus::Completed => "completed"@,
            JobStatus::Failed => "failed"@,
            JobStatus::Cancelled => "cancelled"@,
        }
    }

    /// The lowercase name of this status.
    pub fn as_str(&self) -> (r: &'static str)
        ensures
            r@ == self.name(),
    {
        match self {
            JobStatus::Queued => "queued",
            JobStatus::Running => "running",
            JobStatus::Completed => "completed",
            JobStatus::Failed => "failed",
            JobStatus::Cancelled => "cancelled",
        }
    }

    /// The lowercase name of this status as an owned string.
    pub fn to_string(&self) -> (r: String)
        ensures
            r@ == self.name(),
    {
        owned(self.as_str())
    }

    /// The status a filter word names; any other word (such as "all") names none.
    pub open spec fn parse_spec(s: Seq<char>) -> Option<JobStatus> {
        if s == "queued"@ {
            Some(JobStatus::Queued)
        } else if s == "running"@ {
            Some(JobStatus::Running)
        } else if s == "completed"@ {
            Some(JobStatus::Completed)
        } else if s == "failed"@ {
            Some(JobStatus::Failed)
        } else if s == "cancelled"@ {
            Some(JobStatus::Cancelled)
        } else {
            None
        }
    }

    /// Reads a status filter word.
    pub fn parse_filter(s: &str) -> (r: Option<JobStatus>)
        ensures
            r == JobStatus::parse_spec(s@),
    {
        if str_equal(s, "queued") {
            Some(JobStatus::Queued)
        } else if str_equal(s, "running") {
            Some(JobStatus::Running)
        } else if str_equal(s, "completed") {
            Some(JobStatus::Completed)
        } else if str_equal(s, "failed") {
            Some(JobStatus::Failed)
        } else if str_equal(s, "cancelled") {
            Some(JobStatus::Cancelled)
        } else {
            None
        }
    }

    /// A finished job: completed, failed or cancelled.
    pub open spec fn finished(self) -> bool {
        self == JobStatus::Completed || self == JobStatus::Failed || self == JobStatus::Cancelled
    }

    /// Whether the job has finished (and so may be retried).
    pub fn is_finished(&self) -> (r: bool)
        ensures
            r == self.finished(),
    {
        match self {
            JobStatus::Completed | JobStatus::Failed | JobStatus::Cancelled => true,
            _ => false,
        }
    }

    /// Listing order of statuses: running, queued, failed, completed, cancelled.
    pub open spec fn listing_rank(self) -> int {
        match self {
            JobStatus::Running => 0,
            JobStatus::Queued => 1,
            JobStatus::Failed => 2,
            JobStatus::Completed => 3,
            JobStatus::Cancelled => 4,
        }
    }

    /// Position of this status in listings.
    pub fn listing_order(&self) -> (r: u8)
        ensures
            r as int == self.listing_rank(),
    {
        match self {
            JobStatus::Running => 0,
            JobStatus::Queued => 1,
            JobStatus::Failed => 2,
            JobStatus::Completed => 3,
            JobStatus::Cancelled => 4,
        }
    }
}

/// What a job asks of the machine. Memory amounts are in bytes.
#[derive(Clone, Debug)]
pub struct ResourceRequirements {
    pub gpu_count: u32,
    pub gpu_vram_min_bytes: Option<u64>,
    pub cpu_cores: Option<u32>,
    pub ram_min_bytes: Option<u64>,
    pub disk_min_bytes: Option<u64>,
}

impl ResourceRequirements {
    /// No GPUs and no other requirement.
    pub fn default() -> (r: ResourceRequirements)
        ensures
            r.gpu_count == 0,
            r.gpu_vram_min_bytes is None,
            r.cpu_cores is None,
            r.ram_min_bytes is None,
            r.disk_min_bytes is None,
    {
        ResourceRequirements {
            gpu_count: 0,
            gpu_vram_min_bytes: None,
            cpu_cores: None,
            ram_min_bytes: None,
            disk_min_bytes: None,
        }
    }

    /// A copy equal to `self`.
    pub fn duplicate(&self) -> (r: ResourceRequirements)
        ensures
            r == *self,
    {
        ResourceRequirements {
            gpu_count: self.gpu_count,
            gpu_vram_min_bytes: self.gpu_vram_min_bytes,
            cpu_cores: self.cpu_cores,
            ram_min_bytes: self.ram_min_bytes,
            disk_min_bytes: self.disk_min_bytes,
        }
    }
}

/// A file to place in the working directory before the job runs.
#[derive(Clone, Debug)]
pub struct FileUpload {
    pub name: String,
    pub content_base64: String,
}

impl FileUpload {
    /// A copy equal to `self`.
    pub fn duplicate(&self) -> (r: FileUpload)
        ensures
            r == *self,
    {
        FileUpload { name: self.name.clone(), content_base64: self.content_base64.clone() }
    }
}

/// One environment variable of a job.
#[derive(Clone, Debug)]
pub struct EnvVar {
    pub name: String,
    pub value: String,
}

impl EnvVar {
    /// A copy equal to `self`.
    pub fn duplicate(&self) -> (r: EnvVar)
        ensures
            r == *self,
    {
        EnvVar { name: self.name.clone(), value: self.value.clone() }
    }
}

/// A copy of an optional string.
pub fn duplicate_opt_string(s: &Option<String>) -> (r: Option<String>)
    ensures
        r == *s,
{
    match s {
        Some(x) => Some(x.clone()),
        None => None,
    }
}

/// A copy of a list of strings.
pub fn duplicate_strings(v: &Vec<String>) -> (r: Vec<String>)
    ensures
        r@ == v@,
{
    let mut r: Vec<String> = Vec::new();
    let mut i: usize = 0;
    while i < v.len()
        invariant
            i <= v@.len(),
            r@ == v@.take(i as int),
        decreases v@.len() - i,
    {
        r.push(v[i].clone());
        i = i + 1;
        assert(r@ =~= v@.take(i as int));
    }
    assert(v@.take(i as int) =~= v@);
    r
}

/// The index of the first variable named `name`, if any.
pub open spec fn env_find(env: Seq<EnvVar>, name: Seq<char>) -> Option<int>
    decreases env.len(),
{
    if env.len() == 0 {
        None
    } else if env[0].name@ == name {
        Some(0)
    } else {
        match env_find(env.drop_first(), name) {
            Some(i) => Some(i + 1),
            None => None,
        }
    }
}

/// The environment with `name` set to `value`: the variable is replaced where it exists
/// and added at the end otherwise.
pub open spec fn env_set(env: Seq<EnvVar>, var: EnvVar) -> Seq<EnvVar> {
    match env_find(env, var.name@) {
        Some(i) => env.update(i, var),
        None => env.push(var),
    }
}

/// The value of `name` in the environment, if set.
pub open spec fn env_get(env: Seq<EnvVar>, name: Seq<char>) -> Option<Seq<char>> {
    match env_find(env, name) {
        Some(i) => Some(env[i].value@),
        None => None,
    }
}

/// `env_find` finds the first variable of that name.
pub proof fn lemma_env_find(env: Seq<EnvVar>, name: Seq<char>)
    ensures
        match env_find(env, name) {
            Some(i) => 0 <= i < env.len() && env[i].name@ == name && forall|k: int|
                0 <= k < i ==> #[trigger] env[k].name@ != name,
            None => forall|k: int| 0 <= k < env.len() ==> #[trigger] env[k].name@ != name,
        },
    decreases env.len(),
{
    if env.len() > 0 {
        lemma_env_find(env.drop_first(), name);
        let t = env.drop_first();
        assert forall|k: int| 1 <= k < env.len() implies #[trigger] env[k].name@ == t[k - 1].name@ by {}
    }
}

/// The first variable named `name` is found.
pub proof fn lemma_env_find_first(env: Seq<EnvVar>, name: Seq<char>, i: int)
    requires
        0 <= i < env.len(),
        env[i].name@ == name,
        forall|k: int| 0 <= k < i ==> #[trigger] env[k].name@ != name,
    ensures
        env_find(env, name) == Some(i),
{
    lemma_env_find(env, name);
    match env_find(env, name) {
        Some(j) => {
            if j < i {
                assert(env[j].name@ != name);
            } else if j > i {
                assert(env[i].name@ != name);
            }
        },
        None => {
            assert(env[i].name@ != name);
        },
    }
}

/// Law: after setting a variable, reading it gives the value set.
pub proof fn law_env_set_get(env: Seq<EnvVar>, var: EnvVar)
    ensures
        env_get(env_set(env, var), var.name@) == Some(var.value@),
{
    lemma_env_find(env, var.name@);
    let s = env_set(env, var);
    match env_find(env, var.name@) {
        Some(i) => {
            assert forall|k: int| 0 <= k < i implies #[trigger] s[k].name@ != var.name@ by {
                assert(s[k] == env[k]);
            }
            lemma_env_find_first(s, var.name@, i);
        },
        None => {
            assert forall|k: int| 0 <= k < env.len() implies #[trigger] s[k].name@ != var.name@ by {
                assert(s[k] == env[k]);
            }
            lemma_env_find_first(s, var.name@, env.len() as int);
        },
    }
}

/// Sets `var` in the environment, replacing an existing variable of the same name.
pub fn set_env(env: &mut Vec<EnvVar>, var: EnvVar)
    ensures
        final(env)@ == env_set(old(env)@, var),
{
    let n = env.len();
    let mut i: usize = 0;
    while i < n
        invariant
            n == env@.len(),
            env@ == old(env)@,
            i <= n,
            forall|k: int| 0 <= k < i ==> #[trigger] env@[k].name@ != var.name@,
        decreases n - i,
    {
        if env[i].name == var.name {
            proof {
                lemma_env_find_first(env@, var.name@, i as int);
            }
            env.set(i, var);
            return;
        }
        i = i + 1;
    }
    proof {
        lemma_env_find(old(env)@, var.name@);
        let f = env_find(old(env)@, var.name@);
        if f is Some {
            let j = f->0;
            assert(env@[j].name@ != var.name@);
        }
    }
    env.push(var);
}

/// A copy of an environment.
pub fn duplicate_env(v: &Vec<EnvVar>) -> (r: Vec<EnvVar>)
    ensures
        r@ == v@,
{
    let mut r: Vec<EnvVar> = Vec::new();
    let mut i: usize = 0;
    while i < v.len()
        invariant
            i <= v@.len(),
            r@ == v@.take(i as int),
        decreases v@.len() - i,
    {
        r.push(v[i].duplicate());
        i = i + 1;
        assert(r@ =~= v@.take(i as int));
    }
    assert(v@.take(i as int) =~= v@);
    r
}

/// A copy of a list of uploads.
pub fn duplicate_files(v: &Vec<FileUpload>) -> (r: Vec<FileUpload>)
    ensures
        r@ == v@,
{
    let mut r: Vec<FileUpload> = Vec::new();
    let mut i: usize = 0;
    while i < v.len()
        invariant
            i <= v@.len(),
            r@ == v@.take(i as int),
        decreases v@.len() - i,
    {
        r.push(v[i].duplicate());
        i = i + 1;
        assert(r@ =~= v@.take(i as int));
    }
    assert(v@.take(i as int) =~= v@);
    r
}

/// What a client asks to run.
#[derive(Clone, Debug)]
pub struct JobSpec {
    pub command: String,
    pub working_dir: Option<String>,
    pub env: Vec<EnvVar>,
    pub resources: ResourceRequirements,
    pub files: Vec<FileUpload>,
    pub priority: i32,
    pub tags: Vec<String>,
    pub name: Option<String>,
}

impl JobSpec {
    /// A copy equal to `self`.
    pub fn duplicate(&self) -> (r: JobSpec)
        ensures
            r.command@ == self.command@,
            r.working_dir == self.working_dir,
            r.env@ == self.env@,
            r.resources == self.resources,
            r.files@ == self.files@,
            r.priority == self.priority,
            r.tags@ == self.tags@,
            r.name == self.name,
    {
        JobSpec {
            command: self.command.clone(),
            working_dir: duplicate_opt_string(&self.working_dir),
            env: duplicate_env(&self.env),
            resources: self.resources.duplicate(),
            files: duplicate_files(&self.files),
            priority: self.priority,
            tags: duplicate_strings(&self.tags),
            name: duplicate_opt_string(&self.name),
        }
    }

    /// The directory the job runs in: its own, or the given default.
    pub fn working_dir_or(&self, default: &str) -> (r: String)
        ensures
            r@ == match self.working_dir {
                Some(w) => w@,
                None => default@,
            },
    {
        match &self.working_dir {
            Some(w) => w.clone(),
            None => owned(default),
        }
    }
}

/// A submitted job and its progress.
#[derive(Clone, Debug)]
pub struct Job {
    pub id: JobId,
    pub spec: JobSpec,
    pub status: JobStatus,
    pub submitted_at: Timestamp,
    pub started_at: Option<Timestamp>,
    pub completed_at: Option<Timestamp>,
    pub exit_code: Option<i32>,
    pub pid: Option<u32>,
}

/// Two jobs hold the same values (their vectors viewed as sequences).
pub open spec fn same_job(a: Job, b: Job) -> bool {
    &&& a.id@ == b.id@
    &&& a.spec.command@ == b.spec.command@
    &&& a.spec.working_dir == b.spec.working_dir
    &&& a.spec.env@ == b.spec.env@
    &&& a.spec.resources == b.spec.resources
    &&& a.spec.files@ == b.spec.files@
    &&& a.spec.priority == b.spec.priority
    &&& a.spec.tags@ == b.spec.tags@
    &&& a.spec.name == b.spec.name
    &&& a.status == b.status
    &&& a.submitted_at == b.submitted_at
    &&& a.started_at == b.started_at
    &&& a.completed_at == b.completed_at
    &&& a.exit_code == b.exit_code
    &&& a.pid == b.pid
}

impl Job {
    /// A copy holding the same values.
    pub fn duplicate(&self) -> (r: Job)
        ensures
            same_job(r, *self),
    {
        Job {
            id: self.id.clone(),
            spec: self.spec.duplicate(),
            status: self.status,
            submitted_at: self.submitted_at,
            started_at: self.started_at,
            completed_at: self.completed_at,
            exit_code: self.exit_code,
            pid: self.pid,
        }
    }
}

/// The longest command, in characters, that a summary shows in full.
pub const SUMMARY_COMMAND_CHARS: usize = 100;

/// The command as a summary shows it: commands longer than 100 characters are cut to
/// their first 100 characters and followed by "...".
pub open spec fn command_summary(c: Seq<char>) -> Seq<char> {
    if c.len() > 100 {
        c.take(100) + "..."@
    } else {
        c
    }
}

/// A summary of a job for listings and events.
#[derive(Clone, Debug)]
pub struct JobInfo {
    pub job_id: String,
    pub name: Option<String>,
    pub status: JobStatus,
    pub command: String,
    pub submitted_at: Timestamp,
    pub started_at: Option<Timestamp>,
    pub completed_at: Option<Timestamp>,
    pub exit_code: Option<i32>,
    pub tags: Vec<String>,
}

/// The summary of `job`.
pub open spec fn summary_of(info: JobInfo, job: Job) -> bool {
    &&& info.job_id@ == job.id@
    &&& info.name == job.spec.name
    &&& info.status == job.status
    &&& info.command@ == command_summary(job.spec.command@)
    &&& info.submitted_at == job.submitted_at
    &&& info.started_at == job.started_at
    &&& info.completed_at == job.completed_at
    &&& info.exit_code == job.exit_code
    &&& info.tags@ == job.spec.tags@
}

impl JobInfo {
    /// Summarises a job; a command of more than 100 characters is cut to its first 100
    /// characters and followed by "...".
    pub fn from(job: &Job) -> (r: JobInfo)
        ensures
            summary_of(r, *job),
    {
        let c = chars_of(job.spec.command.as_str());
        let command = if c.len() > SUMMARY_COMMAND_CHARS {
            let head = chars_range(c.as_slice(), 0, SUMMARY_COMMAND_CHARS);
            let mut s = string_of(head.as_slice());
            s.append("...");
            assert(head@ =~= job.spec.command@.take(100));
            s
        } else {
            job.spec.command.clone()
        };
        JobInfo {
            job_id: job.id.clone(),
            name: duplicate_opt_string(&job.spec.name),
            status: job.status,
            command,
            submitted_at: job.submitted_at,
            started_at: job.started_at,
            completed_at: job.completed_at,
            exit_code: job.exit_code,
            tags: duplicate_strings(&job.spec.tags),
        }
    }
}

/// One line of the combined log, with the stream it came from ("out" or "err").
#[derive(Clone, Debug)]
pub struct LogEntry {
    pub stream: String,
    pub line: String,
}

/// A reply to a log request.
#[derive(Clone, Debug)]
pub struct JobLogs {
    pub stdout: String,
    pub stderr: String,
    pub stdout_offset: u64,
    pub stderr_offset: u64,
    pub combined: Option<Vec<LogEntry>>,
    pub combined_offset: Option<u64>,
}

/// Events broadcast to dashboard clients.
#[derive(Clone, Debug)]
pub enum Event {
    JobSubmitted { job: JobInfo },
    JobStarted { job: JobInfo },
    JobCompleted { job: JobInfo },
    JobCancelled { job: JobInfo },
}

impl Event {
    /// The event type name used on the wire.
    pub open spec fn kind_name(self) -> Seq<char> {
        match self {
            Event::JobSubmitted { .. } => "job_submitted"@,
            Event::JobStarted { .. } => "job_started"@,
            Event::JobCompleted { .. } => "job_completed"@,
            Event::JobCancelled { .. } => "job_cancelled"@,
        }
    }

    /// The event type name used on the wire.
    pub fn event_type(&self) -> (r: &'static str)
        ensures
            r@ == self.kind_name(),
    {
        match self {
            Event::JobSubmitted { .. } => "job_submitted",
            Event::JobStarted { .. } => "job_started",
            Event::JobCompleted { .. } => "job_completed",
            Event::JobCancelled { .. } => "job_cancelled",
        }
    }
}

} // verus!

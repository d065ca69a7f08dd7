//! The scheduler's state and decisions: what runs, what waits, what has finished.
//!
//! The scheduler does no I/O. Each operation returns, besides its answer, the effects the
//! caller must carry out: events to broadcast (in order), jobs to start a worker for, and
//! jobs whose worker must be stopped.
use vstd::prelude::*;
use vstd::multiset::Multiset;
use std::collections::VecDeque;
use crate::config::Config;
use crate::gpu::{
    GpuBudget, GpuState, allocated_all, distinct_indices, budgets_from, lemma_allocated_same, lemma_same_budgets_trans, released_all, same_budgets,
    selection,
};
use crate::models::{
    Event, EnvVar, Job, JobId, JobInfo, JobSpec, JobStatus, Timestamp, command_summary, env_get,
    env_set, same_job, set_env, summary_of, now,
};
use crate::order::{
    Ranked, rank_lt, ranked_sort, sort_ranked, is_ranked, ranked_insert, first_match,
    lemma_first_match, lemma_first_match_at, lemma_first_match_none,
};
use crate::queue::{JobQueue, has_id};
use crate::system::os_random_bytes;
use crate::download::hex_lower;
use crate::keys::lemma_hex_len;
use crate::text::{decimal, push_decimal, string_of, str_equal, owned};

verus! {

broadcast use vstd::seq_lib::group_to_multiset_ensures;

/// Which log stream a client wants.
#[derive(Clone, Copy, Debug, PartialEq, Eq, Structural)]
pub enum LogStream {
    Stdout,
    Stderr,
    Both,
}

impl LogStream {
    /// The stream a request word names: "stdout", "stderr", and anything else (or nothing)
    /// both.
    pub fn parse(word: Option<&str>) -> (r: LogStream)
        ensures
            r == match word {
                Some(w) => if w@ == "stdout"@ {
                    LogStream::Stdout
                } else if w@ == "stderr"@ {
                    LogStream::Stderr
                } else {
                    LogStream::Both
                },
                None => LogStream::Both,
            },
    {
        match word {
            Some(w) => if str_equal(w, "stdout") {
                LogStream::Stdout
            } else if str_equal(w, "stderr") {
                LogStream::Stderr
            } else {
                LogStream::Both
            },
            None => LogStream::Both,
        }
    }
}

/// Which jobs a listing shows.
#[derive(Clone, Debug)]
pub struct JobFilter {
    pub status: Option<JobStatus>,
    pub tag: Option<String>,
    pub limit: usize,
}

/// Whether a job passes a filter.
pub open spec fn passes(filter: JobFilter, job: Job) -> bool {
    &&& (filter.status matches Some(s) ==> job.status == s)
    &&& (filter.tag matches Some(t) ==> exists|i: int|
        0 <= i < job.spec.tags@.len() && (#[trigger] job.spec.tags@[i])@ == t@)
}

/// A running job, with the GPUs it holds.
#[derive(Debug)]
pub struct RunningJob {
    pub job: Job,
    pub gpu_indices: Vec<u32>,
    pub vram_per_gpu: u64,
}

/// The job held by a running entry.
pub open spec fn running_job(r: RunningJob) -> Job {
    r.job
}

/// The running entry is for the given job id.
pub open spec fn running_has_id(id: Seq<char>) -> spec_fn(RunningJob) -> bool {
    |r: RunningJob| r.job.id@ == id
}

/// Work for the caller: events to broadcast in order, jobs to start a worker for, and
/// ids of jobs whose worker must be stopped.
#[derive(Debug)]
pub struct Effects {
    pub events: Vec<Event>,
    pub started: Vec<Job>,
    pub stopped: Vec<JobId>,
}

impl Effects {
    /// No work.
    pub fn none() -> (r: Effects)
        ensures
            r.events@.len() == 0,
            r.started@.len() == 0,
            r.stopped@.len() == 0,
    {
        Effects { events: Vec::new(), started: Vec::new(), stopped: Vec::new() }
    }
}

/// Why a request about a job failed.
#[derive(Clone, Debug)]
pub enum SchedulerError {
    JobNotFound(JobId),
    NoFreshId,
}

impl SchedulerError {
    /// The message shown to clients.
    pub fn message(&self) -> (r: String)
        ensures
            match self {
                SchedulerError::JobNotFound(id) => r@ == "job not found: "@ + id@,
                SchedulerError::NoFreshId => r@ == "no fresh job id could be drawn"@,
            },
    {
        match self {
            SchedulerError::NoFreshId => owned("no fresh job id could be drawn"),
            SchedulerError::JobNotFound(id) => {
                let mut s = owned("job not found: ");
                s.append(id.as_str());
                s
            },
        }
    }
}

/// The bytes of the version 4 UUID built from 16 random bytes: byte 6 takes version 4 in
/// its high nibble, byte 8 the variant bits `10` in its two high bits.
pub open spec fn uuid_v4_bytes(b: Seq<u8>) -> Seq<u8> {
    b.update(6, (b[6] & 0x0fu8) | 0x40u8).update(8, (b[8] & 0x3fu8) | 0x80u8)
}

/// The hyphenated lowercase text of the version 4 UUID built from 16 random bytes: its
/// bytes in hexadecimal, in groups of 8, 4, 4, 4 and 12 digits joined by '-'.
pub open spec fn uuid_v4_text(b: Seq<u8>) -> Seq<char> {
    let h = hex_lower(uuid_v4_bytes(b));
    h.subrange(0, 8) + seq!['-'] + h.subrange(8, 12) + seq!['-'] + h.subrange(12, 16) + seq!['-']
        + h.subrange(16, 20) + seq!['-'] + h.subrange(20, 32)
}

/// The version 4 UUID built from 16 random bytes (`uuid::Builder::from_random_bytes`,
/// which sets the version and variant bits, `into_uuid`), in its hyphenated lowercase
/// form (`Display`, which writes the hyphenated lowercase hex).
#[verifier::external_body]
fn uuid_from_random(bytes: &[u8]) -> (r: String)
    requires
        bytes@.len() == 16,
    ensures
        r@ == uuid_v4_text(bytes@),
{
    let b: [u8; 16] = bytes.try_into().unwrap();
    uuid::Builder::from_random_bytes(b).into_uuid().to_string()
}

/// A random job id: a version 4 UUID from 16 bytes of the operating system's random
/// source; `None` when that source fails.
pub(crate) fn new_job_id() -> (r: Option<String>)
    ensures
        r matches Some(id) ==> id@.len() == 36 && exists|b: Seq<u8>| b.len() == 16 && id@ == #[trigger] uuid_v4_text(b),
{
    match os_random_bytes(16) {
        Some(bytes) => {
            let id = uuid_from_random(bytes.as_slice());
            proof {
                lemma_hex_len(uuid_v4_bytes(bytes@));
            }
            Some(id)
        },
        None => None,
    }
}

/// How many ids a submission draws before it gives up on finding an unused one.
pub const ID_DRAWS: usize = 4;

/// The scheduler's state.
pub struct Scheduler {
    max_concurrent_jobs: usize,
    queue: JobQueue,
    running: Vec<RunningJob>,
    completed: Vec<Job>,
    gpu: GpuState,
}


/// Every job has the given status.
pub open spec fn all_with_status(jobs: Seq<Job>, s: JobStatus) -> bool {
    forall|i: int| 0 <= i < jobs.len() ==> (#[trigger] jobs[i]).status == s
}

/// Every job has finished.
pub open spec fn all_finished(jobs: Seq<Job>) -> bool {
    forall|i: int| 0 <= i < jobs.len() ==> (#[trigger] jobs[i]).status.finished()
}

impl Ranked for JobInfo {
    /// Listing order: by status (running, queued, failed, completed, cancelled), then most
    /// recently submitted first.
    open spec fn rank(&self) -> (int, int) {
        (self.status.listing_rank(), -self.submitted_at.ord_key())
    }

    fn ranks_before(&self, other: &JobInfo) -> (r: bool) {
        let a = self.status.listing_order();
        let b = other.status.listing_order();
        a < b || (a == b && other.submitted_at.is_before(&self.submitted_at))
    }
}

/// The jobs of `jobs` that pass `filter`, in order.
pub open spec fn filtered(jobs: Seq<Job>, filter: JobFilter) -> Seq<Job>
    decreases jobs.len(),
{
    if jobs.len() == 0 {
        jobs
    } else if passes(filter, jobs.last()) {
        filtered(jobs.drop_last(), filter).push(jobs.last())
    } else {
        filtered(jobs.drop_last(), filter)
    }
}

/// Filtering distributes over concatenation.
pub proof fn lemma_filtered_append(a: Seq<Job>, b: Seq<Job>, filter: JobFilter)
    ensures
        filtered(a + b, filter) == filtered(a, filter) + filtered(b, filter),
    decreases b.len(),
{
    if b.len() == 0 {
        assert(a + b =~= a);
        assert(filtered(a, filter) + filtered(b, filter) =~= filtered(a, filter));
    } else {
        lemma_filtered_append(a, b.drop_last(), filter);
        assert((a + b).drop_last() =~= a + b.drop_last());
        assert((a + b).last() == b.last());
        assert(filtered(a + b, filter) =~= filtered(a, filter) + filtered(b, filter));
    }
}

/// At most the first `n` elements.
pub open spec fn truncated<T>(s: Seq<T>, n: nat) -> Seq<T> {
    if n < s.len() {
        s.take(n as int)
    } else {
        s
    }
}

/// Each summary summarises the job at the same position.
pub open spec fn summaries(infos: Seq<JobInfo>, jobs: Seq<Job>) -> bool {
    infos.len() == jobs.len() && forall|i: int| 0 <= i < jobs.len() ==> summary_of(#[trigger] infos[i], jobs[i])
}

/// Whether a job carries a tag.
fn has_tag(job: &Job, tag: &String) -> (r: bool)
    ensures
        r == exists|i: int| 0 <= i < job.spec.tags@.len() && (#[trigger] job.spec.tags@[i])@ == tag@,
{
    let n = job.spec.tags.len();
    let mut i: usize = 0;
    while i < n
        invariant
            n == job.spec.tags@.len(),
            i <= n,
            forall|k: int| 0 <= k < i ==> (#[trigger] job.spec.tags@[k])@ != tag@,
        decreases n - i,
    {
        if job.spec.tags[i] == *tag {
            return true;
        }
        i = i + 1;
    }
    false
}

/// Whether a job passes a filter.
fn job_passes(filter: &JobFilter, job: &Job) -> (r: bool)
    ensures
        r == passes(*filter, *job),
{
    match filter.status {
        Some(s) => {
            if job.status != s {
                return false;
            }
        },
        None => {},
    }
    match &filter.tag {
        Some(t) => has_tag(job, t),
        None => true,
    }
}

/// Appends to `out` the summaries of the jobs of `jobs` that pass `filter`.
fn collect_matching(jobs: &[Job], filter: &JobFilter, out: &mut Vec<JobInfo>, matched: Ghost<Seq<Job>>) -> (r: Ghost<Seq<Job>>)
    requires
        summaries(old(out)@, matched@),
    ensures
        r@ == matched@ + filtered(jobs@, *filter),
        summaries(final(out)@, r@),
{
    let n = jobs.len();
    let mut i: usize = 0;
    let ghost mut acc = matched@;
    while i < n
        invariant
            n == jobs@.len(),
            i <= n,
            acc == matched@ + filtered(jobs@.take(i as int), *filter),
            summaries(out@, acc),
        decreases n - i,
    {
        proof {
            assert(jobs@.take(i + 1).drop_last() =~= jobs@.take(i as int));
            assert(jobs@.take(i + 1).last() == jobs@[i as int]);
        }
        if job_passes(filter, &jobs[i]) {
            let info = JobInfo::from(&jobs[i]);
            out.push(info);
            proof {
                acc = acc.push(jobs@[i as int]);
                assert(matched@ + filtered(jobs@.take(i + 1), *filter) =~= acc);
            }
        }
        i = i + 1;
    }
    assert(jobs@.take(n as int) =~= jobs@);
    Ghost(acc)
}

/// Appends to `out` the summaries of the queued jobs of `jobs` that pass `filter`.
fn collect_matching_queued(jobs: &VecDeque<Job>, filter: &JobFilter, out: &mut Vec<JobInfo>, matched: Ghost<Seq<Job>>) -> (r: Ghost<Seq<Job>>)
    requires
        summaries(old(out)@, matched@),
    ensures
        r@ == matched@ + filtered(jobs@, *filter),
        summaries(final(out)@, r@),
{
    let n = jobs.len();
    let mut i: usize = 0;
    let ghost mut acc = matched@;
    while i < n
        invariant
            n == jobs@.len(),
            i <= n,
            acc == matched@ + filtered(jobs@.take(i as int), *filter),
            summaries(out@, acc),
        decreases n - i,
    {
        proof {
            assert(jobs@.take(i + 1).drop_last() =~= jobs@.take(i as int));
            assert(jobs@.take(i + 1).last() == jobs@[i as int]);
        }
        if job_passes(filter, &jobs[i]) {
            let info = JobInfo::from(&jobs[i]);
            out.push(info);
            proof {
                acc = acc.push(jobs@[i as int]);
                assert(matched@ + filtered(jobs@.take(i + 1), *filter) =~= acc);
            }
        }
        i = i + 1;
    }
    assert(jobs@.take(n as int) =~= jobs@);
    Ghost(acc)
}

/// Appends to `out` the summaries of the running jobs that pass `filter`.
fn collect_matching_running(
    entries: &[RunningJob],
    filter: &JobFilter,
    out: &mut Vec<JobInfo>,
    matched: Ghost<Seq<Job>>,
) -> (r: Ghost<Seq<Job>>)
    requires
        summaries(old(out)@, matched@),
    ensures
        r@ == matched@ + filtered(entries@.map_values(|e: RunningJob| e.job), *filter),
        summaries(final(out)@, r@),
{
    let ghost jobs = entries@.map_values(|e: RunningJob| e.job);
    let n = entries.len();
    let mut i: usize = 0;
    let ghost mut acc = matched@;
    while i < n
        invariant
            n == entries@.len(),
            jobs == entries@.map_values(|e: RunningJob| e.job),
            i <= n,
            acc == matched@ + filtered(jobs.take(i as int), *filter),
            summaries(out@, acc),
        decreases n - i,
    {
        proof {
            assert(jobs.take(i + 1).drop_last() =~= jobs.take(i as int));
            assert(jobs.take(i + 1).last() == jobs[i as int]);
        }
        if job_passes(filter, &entries[i].job) {
            let info = JobInfo::from(&entries[i].job);
            out.push(info);
            proof {
                acc = acc.push(jobs[i as int]);
                assert(matched@ + filtered(jobs.take(i + 1), *filter) =~= acc);
            }
        }
        i = i + 1;
    }
    assert(jobs.take(n as int) =~= jobs);
    Ghost(acc)
}

/// The device list handed to a job: the indices in decimal, separated by commas.
pub open spec fn device_list(indices: Seq<u32>) -> Seq<char>
    decreases indices.len(),
{
    if indices.len() == 0 {
        Seq::empty()
    } else if indices.len() == 1 {
        decimal(indices[0] as nat)
    } else {
        device_list(indices.drop_last()) + seq![','] + decimal(indices.last() as nat)
    }
}

/// Writes the device list for `indices`.
pub fn device_list_string(indices: &[u32]) -> (r: String)
    ensures
        r@ == device_list(indices@),
{
    let mut out: Vec<char> = Vec::new();
    let n = indices.len();
    let mut i: usize = 0;
    while i < n
        invariant
            n == indices@.len(),
            i <= n,
            out@ == device_list(indices@.take(i as int)),
        decreases n - i,
    {
        proof {
            assert(indices@.take(i + 1).drop_last() =~= indices@.take(i as int));
            assert(indices@.take(i + 1).last() == indices@[i as int]);
        }
        if i > 0 {
            out.push(',');
        }
        push_decimal(&mut out, indices[i] as u64);
        i = i + 1;
        proof {
            if i == 1 {
                assert(out@ =~= device_list(indices@.take(i as int)));
            } else {
                assert(out@ =~= device_list(indices@.take(i as int)));
            }
        }
    }
    assert(indices@.take(n as int) =~= indices@);
    string_of(out.as_slice())
}

/// `s` is `q` as dispatched onto the devices `indices`: running, with a start time, and,
/// when it got devices, with the device variable `var` naming them.
pub open spec fn dispatched_from(q: Job, s: Job, indices: Seq<u32>, var: Seq<char>) -> bool {
    &&& s.id@ == q.id@
    &&& s.spec.command@ == q.spec.command@
    &&& s.spec.working_dir == q.spec.working_dir
    &&& s.spec.resources == q.spec.resources
    &&& s.spec.files@ == q.spec.files@
    &&& s.spec.priority == q.spec.priority
    &&& s.spec.tags@ == q.spec.tags@
    &&& s.spec.name == q.spec.name
    &&& s.status == JobStatus::Running
    &&& s.submitted_at == q.submitted_at
    &&& s.started_at is Some
    &&& s.completed_at == q.completed_at
    &&& s.exit_code == q.exit_code
    &&& s.pid == q.pid
    &&& if indices.len() > 0 {
        exists|v: EnvVar| v.name@ == var && v.value@ == device_list(indices) && s.spec.env@ == env_set(q.spec.env@, v)
    } else {
        s.spec.env@ == q.spec.env@
    }
}

/// `entry` runs `q` (whose worker receives `s`) on as many devices as it asked for, each
/// granted the VRAM it asked for.
pub open spec fn started_ok(q: Job, s: Job, entry: RunningJob, var: Seq<char>) -> bool {
    &&& dispatched_from(q, s, entry.gpu_indices@, var)
    &&& same_job(entry.job, s)
    &&& entry.gpu_indices@.len() == q.spec.resources.gpu_count
    &&& entry.vram_per_gpu == match q.spec.resources.gpu_vram_min_bytes {
        Some(v) => v,
        None => 0,
    }
}

/// `e` announces that `job` started.
pub open spec fn started_event(e: Event, job: Job) -> bool {
    e matches Event::JobStarted { job: info } && summary_of(info, job)
}

/// The devices after granting each running entry its devices, in turn.
pub open spec fn granted(devices: Seq<GpuBudget>, entries: Seq<RunningJob>) -> Seq<GpuBudget>
    decreases entries.len(),
{
    if entries.len() == 0 {
        devices
    } else {
        allocated_all(granted(devices, entries.drop_last()), entries.last().gpu_indices@, entries.last().vram_per_gpu)
    }
}

/// The VRAM per device a job asks for (0 when it names none).
pub open spec fn vram_asked(j: Job) -> u64 {
    match j.spec.resources.gpu_vram_min_bytes {
        Some(v) => v,
        None => 0,
    }
}

/// A job that asks for GPUs got the devices the policy selects on the budgets `d`, as
/// some live reading of them showed.
pub open spec fn grant_selected(d: Seq<GpuBudget>, j: Job, e: RunningJob, packed: bool) -> bool {
    j.spec.resources.gpu_count > 0 ==> exists|r: Seq<GpuBudget>| #[trigger]
        same_budgets(r, d) && selection(r, packed, j.spec.resources.gpu_count as nat, vram_asked(j)) == Some(
            e.gpu_indices@,
        )
}

/// What dispatch did to the GPUs, from devices `d0` to `d1`, starting the first jobs of
/// `q0` as the running entries `entries`: each job that asked for GPUs got the devices
/// the policy selects on the budgets as they then stood; the budgets end with every grant
/// made (live readings aside); and when the next job stayed queued although a slot was
/// free (`running` of `capacity` taken), it asks for GPUs the devices cannot now give.
pub open spec fn dispatch_gpus(
    d0: Seq<GpuBudget>,
    d1: Seq<GpuBudget>,
    q0: Seq<Job>,
    entries: Seq<RunningJob>,
    packed: bool,
    running: nat,
    capacity: nat,
) -> bool {
    &&& forall|i: int|
        0 <= i < entries.len() ==> #[trigger] grant_selected(granted(d0, entries.take(i)), q0[i], entries[i], packed)
    &&& same_budgets(d1, granted(d0, entries))
    &&& (entries.len() < q0.len() && running < capacity) ==> {
        let j = q0[entries.len() as int];
        &&& j.spec.resources.gpu_count > 0
        &&& selection(d1, packed, j.spec.resources.gpu_count as nat, vram_asked(j)) is None
    }
}

/// Dispatch took queue `q0` and running list `r0` to `q1` and `r1`: the first
/// `started.len()` queued jobs started in order, each announced by an event; then either
/// the queue ran dry or all slots filled, or the next job waits for GPUs and stays queued.
pub open spec fn dispatched(
    q0: Seq<Job>,
    r0: Seq<RunningJob>,
    q1: Seq<Job>,
    r1: Seq<RunningJob>,
    started: Seq<Job>,
    events: Seq<Event>,
    var: Seq<char>,
    capacity: nat,
) -> bool {
    let k = started.len() as int;
    &&& k <= q0.len()
    &&& events.len() == k
    &&& r1.len() == r0.len() + k
    &&& r1.take(r0.len() as int) == r0
    &&& forall|i: int|
        0 <= i < k ==> started_ok(q0[i], #[trigger] started[i], r1[r0.len() + i], var) && started_event(
            events[i],
            started[i],
        )
    &&& (q1 == q0.skip(k) && (q1.len() == 0 || r1.len() >= capacity)) || (k < q0.len()
        && q0[k].spec.resources.gpu_count > 0 && q1 == ranked_insert(q0.skip(k + 1), q0[k]))
}

/// `job` is the job submitted with id `id` at `at` for `spec`.
pub open spec fn submitted_job(job: Job, id: Seq<char>, at: Timestamp, spec: JobSpec) -> bool {
    &&& job.id@ == id
    &&& job.spec.command@ == spec.command@
    &&& job.spec.working_dir == spec.working_dir
    &&& job.spec.env@ == spec.env@
    &&& job.spec.resources == spec.resources
    &&& job.spec.files@ == spec.files@
    &&& job.spec.priority == spec.priority
    &&& job.spec.tags@ == spec.tags@
    &&& job.spec.name == spec.name
    &&& job.status == JobStatus::Queued
    &&& job.submitted_at == at
    &&& job.started_at is None
    &&& job.completed_at is None
    &&& job.exit_code is None
    &&& job.pid is None
}

/// `c` is `j` brought to a final status at `at`, with everything else kept.
pub open spec fn finished_as(j: Job, c: Job, status: JobStatus, exit_code: Option<i32>, at: Timestamp) -> bool {
    &&& c.id@ == j.id@
    &&& c.spec.command@ == j.spec.command@
    &&& c.spec.working_dir == j.spec.working_dir
    &&& c.spec.env@ == j.spec.env@
    &&& c.spec.resources == j.spec.resources
    &&& c.spec.files@ == j.spec.files@
    &&& c.spec.priority == j.spec.priority
    &&& c.spec.tags@ == j.spec.tags@
    &&& c.spec.name == j.spec.name
    &&& c.status == status
    &&& c.submitted_at == j.submitted_at
    &&& c.started_at == j.started_at
    &&& c.completed_at == Some(at)
    &&& c.exit_code == exit_code
    &&& c.pid == j.pid
}

/// `e` announces that `job` was cancelled.
pub open spec fn cancelled_event(e: Event, job: Job) -> bool {
    e matches Event::JobCancelled { job: info } && summary_of(info, job)
}

/// `e` announces that `job` finished.
pub open spec fn completed_event(e: Event, job: Job) -> bool {
    e matches Event::JobCompleted { job: info } && summary_of(info, job)
}

/// The status a job finishes with: completed on exit code 0, failed otherwise.
pub open spec fn exit_status(exit_code: i32) -> JobStatus {
    if exit_code == 0 {
        JobStatus::Completed
    } else {
        JobStatus::Failed
    }
}

impl Scheduler {
    /// Jobs waiting, in scheduling order.
    pub closed spec fn queued(&self) -> Seq<Job> {
        self.queue@
    }

    /// Jobs running, with their GPU grants, in the order they started.
    pub closed spec fn running(&self) -> Seq<RunningJob> {
        self.running@
    }

    /// The jobs running, in the order they started.
    pub open spec fn running_jobs(&self) -> Seq<Job> {
        self.running().map_values(|r: RunningJob| r.job)
    }

    /// Finished jobs, in the order they finished.
    pub closed spec fn finished(&self) -> Seq<Job> {
        self.completed@
    }

    /// The most jobs that may run at once.
    pub closed spec fn capacity(&self) -> nat {
        self.max_concurrent_jobs as nat
    }

    /// GPU budgets.
    pub closed spec fn gpus(&self) -> GpuState {
        self.gpu
    }

    /// The scheduler's invariant: the queue is in scheduling order; never more jobs run
    /// than allowed; queued jobs are queued, running jobs running and finished jobs
    /// finished; no two jobs share an id; no two devices share an index.
    pub closed spec fn wf(&self) -> bool {
        &&& self.basic_wf()
        &&& unique_ids(self.all_jobs())
    }

    /// The invariant apart from the distinct ids, which dispatch keeps step by step.
    spec fn basic_wf(&self) -> bool {
        &&& self.gpu.wf()
        &&& is_ranked(self.queue@)
        &&& self.running@.len() <= self.max_concurrent_jobs
        &&& all_with_status(self.queue@, JobStatus::Queued)
        &&& all_with_status(self.running_jobs(), JobStatus::Running)
        &&& all_finished(self.completed@)
    }

    /// A scheduler with nothing queued, running or finished, set up as configured.
    /// Device indices are 32-bit, so at most 2^32 device totals can be configured.
    pub fn new(config: &Config) -> (r: Scheduler)
        requires
            config.scheduler.gpu.vram_bytes matches Some(v) ==> v@.len() <= u32::MAX + 1,
        ensures
            r.wf(),
            r.queued().len() == 0,
            r.running().len() == 0,
            r.finished().len() == 0,
            r.capacity() == config.scheduler.max_concurrent_jobs,
            r.gpus().policy@ == config.scheduler.gpu.policy@,
            r.device_var() == config.scheduler.gpu.device_env_var@,
            r.gpus().vram_overrides is Some == config.scheduler.gpu.vram_bytes is Some,
            config.scheduler.gpu.vram_bytes matches Some(v) ==> r.gpus().vram_overrides->0@ == v@
                && same_budgets(r.gpus().devices@, budgets_from(v@)),
            forall|i: int| 0 <= i < r.gpus().devices@.len() ==> (#[trigger] r.gpus().devices@[i]).allocated_vram == 0
                && r.gpus().devices@[i].job_count == 0,
    {
        let r = Scheduler {
            max_concurrent_jobs: config.scheduler.max_concurrent_jobs,
            queue: JobQueue::new(),
            running: Vec::new(),
            completed: Vec::new(),
            gpu: GpuState::init(&config.scheduler.gpu),
        };
        proof {
            assert(r.running_jobs() =~= Seq::<Job>::empty());
        }
        r
    }

    /// Every job the scheduler knows: queued, then running, then finished.
    pub open spec fn all_jobs(&self) -> Seq<Job> {
        self.queued() + self.running_jobs() + self.finished()
    }

    /// The jobs that pass `filter`, summarised, in listing order (running, queued, failed,
    /// completed, cancelled; most recent first within a status), at most `filter.limit`.
    pub fn query_jobs(&self, filter: &JobFilter) -> (r: Vec<JobInfo>)
        requires
            self.wf(),
        ensures
            exists|infos: Seq<JobInfo>| summaries(infos, filtered(self.all_jobs(), *filter))
                && r@ == truncated(ranked_sort(infos), filter.limit as nat),
            r@.len() <= filter.limit,
            forall|i: int, j: int|
                0 <= i < j < r@.len() && (#[trigger] r@[i]).status == (#[trigger] r@[j]).status
                    ==> r@[j].submitted_at.ord_key() <= r@[i].submitted_at.ord_key(),            forall|i: int, j: int|
                0 <= i < j < r@.len() ==> listed_before_or_with(#[trigger] r@[i].status, #[trigger] r@[j].status),            forall|k: int| 0 <= k < r@.len() ==> (filter.status matches Some(st) ==> (#[trigger] r@[k]).status == st),
            forall|k: int| 0 <= k < r@.len() ==> (filter.tag matches Some(t) ==> exists|m: int|
                0 <= m < (#[trigger] r@[k]).tags@.len() && r@[k].tags@[m]@ == t@),
    {
        let mut out: Vec<JobInfo> = Vec::new();
        let g0 = collect_matching_queued(self.queue.iter(), filter, &mut out, Ghost(Seq::empty()));
        let g1 = collect_matching_running(self.running.as_slice(), filter, &mut out, g0);
        let g2 = collect_matching(self.completed.as_slice(), filter, &mut out, g1);
        proof {
            assert(g2@ =~= filtered(self.all_jobs(), *filter)) by {
                lemma_filtered_append(self.queue@, self.running_jobs(), *filter);
                lemma_filtered_append(self.queue@ + self.running_jobs(), self.completed@, *filter);
            }
        }
        let ghost infos = out@;
        let mut sorted = sort_ranked(out);
        sorted.truncate(filter.limit);
        proof {
            law_listing_newest_first(infos);
            let full = ranked_sort(infos);
            assert forall|i: int, j: int|
                0 <= i < j < sorted@.len() && (#[trigger] sorted@[i]).status == (#[trigger] sorted@[j]).status
                    implies sorted@[j].submitted_at.ord_key() <= sorted@[i].submitted_at.ord_key() by {
                assert(sorted@[i] == full[i] && sorted@[j] == full[j]);
            }
            lemma_filtered_passes(self.all_jobs(), *filter);
            crate::order::lemma_ranked_sort(infos);
            assert forall|k: int| 0 <= k < sorted@.len() implies (filter.status matches Some(st) ==> (
            #[trigger] sorted@[k]).status == st) && (filter.tag matches Some(t) ==> exists|m: int|
                0 <= m < sorted@[k].tags@.len() && sorted@[k].tags@[m]@ == t@) by {
                assert(sorted@[k] == full[k]);
                assert(full.contains(full[k]));
                vstd::seq_lib::to_multiset_contains(full, full[k]);
                vstd::seq_lib::to_multiset_contains(infos, full[k]);
                let m = choose|m: int| 0 <= m < infos.len() && infos[m] == full[k];
                let jobs = filtered(self.all_jobs(), *filter);
                assert(summary_of(infos[m], jobs[m]));
                assert(passes(*filter, jobs[m]));
                if filter.tag is Some {
                    let t = filter.tag->0;
                    let x = choose|x: int| 0 <= x < jobs[m].spec.tags@.len() && (#[trigger] jobs[m].spec.tags@[x])@ == t@;
                    assert(sorted@[k].tags@[x] == jobs[m].spec.tags@[x]);
                }
            }
            assert forall|i: int, j: int| 0 <= i < j < sorted@.len() implies listed_before_or_with(
                #[trigger] sorted@[i].status,
                #[trigger] sorted@[j].status,
            ) by {
                assert(sorted@[i] == full[i] && sorted@[j] == full[j]);
            }
        }
        sorted
    }

    /// The job with the given id: the first such queued job, else the first such running
    /// job, else the first such finished job.
    pub open spec fn lookup(&self, id: Seq<char>) -> Option<Job> {
        match first_match(self.queued(), has_id(id)) {
            Some(i) => Some(self.queued()[i]),
            None => match first_match(self.running_jobs(), has_id(id)) {
                Some(i) => Some(self.running_jobs()[i]),
                None => match first_match(self.finished(), has_id(id)) {
                    Some(i) => Some(self.finished()[i]),
                    None => None,
                },
            },
        }
    }

    /// Index of the first running entry for a job id.
    fn find_running(&self, job_id: &JobId) -> (r: Option<usize>)
        ensures
            r matches Some(i) ==> i < self.running@.len() && first_match(self.running_jobs(), has_id(job_id@)) == Some(i as int),
            r is None ==> first_match(self.running_jobs(), has_id(job_id@)) is None,
    {
        let ghost jobs = self.running_jobs();
        let n = self.running.len();
        let mut i: usize = 0;
        while i < n
            invariant
                n == self.running@.len(),
                jobs == self.running_jobs(),
                jobs.len() == n,
                i <= n,
                forall|k: int| 0 <= k < i ==> !has_id(job_id@)(#[trigger] jobs[k]),
            decreases n - i,
        {
            if self.running[i].job.id == *job_id {
                proof {
                    assert(jobs[i as int] == self.running@[i as int].job);
                    lemma_first_match_at(jobs, has_id(job_id@), i as int);
                }
                return Some(i);
            }
            assert(jobs[i as int] == self.running@[i as int].job);
            i = i + 1;
        }
        proof {
            lemma_first_match_none(jobs, has_id(job_id@));
        }
        None
    }

    /// Index of the first finished job with an id.
    fn find_finished(&self, job_id: &JobId) -> (r: Option<usize>)
        ensures
            r matches Some(i) ==> i < self.completed@.len() && first_match(self.completed@, has_id(job_id@)) == Some(i as int),
            r is None ==> first_match(self.completed@, has_id(job_id@)) is None,
    {
        let n = self.completed.len();
        let mut i: usize = 0;
        while i < n
            invariant
                n == self.completed@.len(),
                i <= n,
                forall|k: int| 0 <= k < i ==> !has_id(job_id@)(#[trigger] self.completed@[k]),
            decreases n - i,
        {
            if self.completed[i].id == *job_id {
                proof {
                    lemma_first_match_at(self.completed@, has_id(job_id@), i as int);
                }
                return Some(i);
            }
            i = i + 1;
        }
        proof {
            lemma_first_match_none(self.completed@, has_id(job_id@));
        }
        None
    }

    /// A copy of the job with the given id, looking in the queue, then among running jobs,
    /// then among finished ones.
    pub fn get_job(&self, job_id: &JobId) -> (r: Option<Job>)
        ensures
            match self.lookup(job_id@) {
                Some(j) => r matches Some(c) && same_job(c, j),
                None => r is None,
            },
    {
        match self.queue.position(job_id) {
            Some(i) => {
                proof {
                    lemma_first_match(self.queue@, has_id(job_id@));
                }
                return Some(self.queue.iter()[i].duplicate());
            },
            None => {},
        }
        match self.find_running(job_id) {
            Some(i) => {
                return Some(self.running[i].job.duplicate());
            },
            None => {},
        }
        match self.find_finished(job_id) {
            Some(i) => Some(self.completed[i].duplicate()),
            None => None,
        }
    }

    /// The variable that names a job's devices.
    pub open spec fn device_var(&self) -> Seq<char> {
        self.gpus().device_env_var@
    }

    /// Starts `job` on the devices `indices` (granting each `vram`) at time `at`.
    /// Returns the job as its worker receives it and the event announcing it.
    fn start_job(&mut self, job: Job, indices: Vec<u32>, vram: u64, at: Timestamp) -> (r: (Job, Event))
        requires
            old(self).basic_wf(),
            old(self).running@.len() < old(self).max_concurrent_jobs,
            job.status == JobStatus::Queued,
            indices@.len() == job.spec.resources.gpu_count,
            vram == match job.spec.resources.gpu_vram_min_bytes {
                Some(v) => v,
                None => 0,
            },
        ensures
            final(self).basic_wf(),
            final(self).queue@ == old(self).queue@,
            final(self).completed@ == old(self).completed@,
            final(self).max_concurrent_jobs == old(self).max_concurrent_jobs,
            final(self).gpu.device_env_var == old(self).gpu.device_env_var,
            final(self).gpu.policy == old(self).gpu.policy,
            final(self).running@.len() == old(self).running@.len() + 1,
            final(self).running@.take(old(self).running@.len() as int) == old(self).running@,
            started_ok(job, r.0, final(self).running@.last(), old(self).gpu.device_env_var@),
            r.0.started_at == Some(at),
            started_event(r.1, r.0),
            final(self).gpu.devices@ == if indices@.len() > 0 {
                allocated_all(old(self).gpu.devices@, indices@, vram)
            } else {
                old(self).gpu.devices@
            },
            final(self).running@.last().gpu_indices@ == indices@,
    {
        let mut job = job;
        let ghost q = job;
        if indices.len() > 0 {
            self.gpu.allocate(indices.as_slice(), vram);
            let list = device_list_string(indices.as_slice());
            let var = EnvVar { name: self.gpu.device_env_var.clone(), value: list };
            set_env(&mut job.spec.env, var);
            assert(job.spec.env@ == env_set(q.spec.env@, var));
        }
        job.status = JobStatus::Running;
        job.started_at = Some(at);
        let info = JobInfo::from(&job);
        let copy = job.duplicate();
        let ghost old_running = self.running@;
        self.running.push(RunningJob { job, gpu_indices: indices, vram_per_gpu: vram });
        proof {
            assert(self.running@.take(old_running.len() as int) =~= old_running);
            let jobs = self.running_jobs();
            let prev = old_running.map_values(|r: RunningJob| r.job);
            assert forall|i: int| 0 <= i < jobs.len() implies (#[trigger] jobs[i]).status == JobStatus::Running by {
                if i < old_running.len() {
                    assert(jobs[i] == prev[i]);
                }
            }
        }
        (copy, Event::JobStarted { job: info })
    }

    /// Starts queued jobs, in queue order, while slots are free. A job that asks for GPUs
    /// that cannot be granted now goes back to the queue and holds up those behind it.
    pub fn try_dispatch(&mut self) -> (fx: Effects)
        requires
            old(self).wf(),
        ensures
            final(self).wf(),
            dispatched(
                old(self).queued(),
                old(self).running(),
                final(self).queued(),
                final(self).running(),
                fx.started@,
                fx.events@,
                old(self).device_var(),
                old(self).capacity(),
            ),
            final(self).finished() == old(self).finished(),
            final(self).capacity() == old(self).capacity(),
            final(self).device_var() == old(self).device_var(),
            final(self).gpus().policy == old(self).gpus().policy,
            dispatch_gpus(
                old(self).gpus().devices@,
                final(self).gpus().devices@,
                old(self).queued(),
                final(self).running().skip(old(self).running().len() as int),
                old(self).gpus().packed(),
                final(self).running().len(),
                old(self).capacity(),
            ),
            fx.stopped@.len() == 0,
    {
        let mut fx = Effects::none();
        let ghost d0 = self.gpu.devices@;
        let ghost packed = self.gpu.packed();
        let ghost q0 = self.queue@;
        let ghost r0 = self.running@;
        let ghost var = self.gpu.device_env_var@;
        let ghost mut k: int = 0;
        let ghost mut blocked = false;
        loop
            invariant_except_break
                self.queue@ == q0.skip(k),
                !blocked,
            invariant
                self.basic_wf(),
                0 <= k <= q0.len(),
                q0 == old(self).queue@,
                r0 == old(self).running@,
                var == old(self).gpu.device_env_var@,
                self.gpu.device_env_var@ == var,
                self.completed@ == old(self).completed@,
                self.max_concurrent_jobs == old(self).max_concurrent_jobs,
                fx.started@.len() == k,
                fx.events@.len() == k,
                fx.stopped@.len() == 0,
                self.running@.len() == r0.len() + k,
                self.running@.take(r0.len() as int) == r0,
                forall|i: int|
                    0 <= i < k ==> started_ok(q0[i], #[trigger] fx.started@[i], self.running@[r0.len() + i], var)
                        && started_event(fx.events@[i], fx.started@[i]),
                d0 == old(self).gpu.devices@,
                packed == old(self).gpu.packed(),
                self.gpu.policy == old(self).gpu.policy,
                forall|i: int|
                    0 <= i < k ==> #[trigger] grant_selected(
                        granted(d0, self.running@.skip(r0.len() as int).take(i)),
                        q0[i],
                        self.running@.skip(r0.len() as int)[i],
                        packed,
                    ),
                same_budgets(self.gpu.devices@, granted(d0, self.running@.skip(r0.len() as int))),
            ensures
                (!blocked && self.queue@ == q0.skip(k) && (self.queue@.len() == 0 || self.running@.len()
                    >= self.max_concurrent_jobs)) || (blocked && k < q0.len() && q0[k].spec.resources.gpu_count > 0
                    && self.queue@ == ranked_insert(q0.skip(k + 1), q0[k]) && selection(
                    self.gpu.devices@,
                    packed,
                    q0[k].spec.resources.gpu_count as nat,
                    vram_asked(q0[k]),
                ) is None),
            decreases q0.len() - k,
        {
            if self.running.len() >= self.max_concurrent_jobs {
                break;
            }
            let popped = self.queue.pop();
            match popped {
                None => {
                    break;
                },
                Some(job) => {
                    proof {
                        assert(job == q0[k]);
                        assert(self.queue@ =~= q0.skip(k + 1));
                    }
                    let gpu_count = job.spec.resources.gpu_count;
                    let vram = job.spec.resources.gpu_vram_min_bytes.unwrap_or(0);
                    let ghost e0 = self.running@.skip(r0.len() as int);
                    let ghost dprev = self.gpu.devices@;
                    let indices = if gpu_count > 0 {
                        match self.gpu.try_assign(gpu_count, vram) {
                            Some(a) => {
                                proof {
                                    lemma_same_budgets_trans(self.gpu.devices@, dprev, granted(d0, e0));
                                    assert(e0.take(k) =~= e0);
                                    assert(same_budgets(self.gpu.devices@, granted(d0, e0.take(k))));
                                }
                                a
                            },
                            None => {
                                self.queue.push(job);
                                proof {
                                    lemma_same_budgets_trans(self.gpu.devices@, dprev, granted(d0, e0));
                                    blocked = true;
                                    let q = self.queue@;
                                    crate::order::lemma_insertion_index(q0.skip(k + 1), q0[k]);
                                    assert forall|i: int| 0 <= i < q.len() implies (#[trigger] q[i]).status
                                        == JobStatus::Queued by {
                                        let p = crate::order::insertion_index(q0.skip(k + 1), q0[k]);
                                        if i < p {
                                            assert(q[i] == q0[k + 1 + i]);
                                        } else if i > p {
                                            assert(q[i] == q0[k + i]);
                                        }
                                    }
                                }
                                break;
                            },
                        }
                    } else {
                        Vec::new()
                    };
                    let ghost dmid = self.gpu.devices@;
                    let ghost ix = indices@;
                    let ghost run_before = self.running@;
                    proof {
                        assert(same_budgets(dmid, granted(d0, e0)));
                        assert(job == q0[k]);
                        assert(vram == vram_asked(q0[k]));
                    }
                    let at = now();
                    let (copy, event) = self.start_job(job, indices, vram, at);
                    fx.started.push(copy);
                    fx.events.push(event);
                    proof {
                        let e1 = self.running@.skip(r0.len() as int);
                        assert(self.running@.take(run_before.len() as int) == run_before);
                        assert(e1.drop_last() =~= e0);
                        assert(e1.last() == self.running@.last());
                        assert(e1.last().gpu_indices@ == ix);
                        lemma_allocated_same(dmid, granted(d0, e0), ix, vram);
                        assert(granted(d0, e1) == allocated_all(granted(d0, e0), ix, vram));
                        assert forall|i: int| 0 <= i < k + 1 implies #[trigger] grant_selected(
                            granted(d0, e1.take(i)),
                            q0[i],
                            e1[i],
                            packed,
                        ) by {
                            if i < k {
                                assert(e1.take(i) =~= e0.take(i));
                                assert(e1[i] == e0[i]);
                            } else {
                                assert(e1.take(i) =~= e0);
                                if q0[i].spec.resources.gpu_count > 0 {
                                    assert(same_budgets(dmid, granted(d0, e1.take(i))));
                                }
                            }
                        }
                        let ghost prev_k = k;
                        k = k + 1;
                        assert(self.running@.take(r0.len() as int) =~= r0);
                        assert forall|i: int| 0 <= i < k implies started_ok(
                            q0[i],
                            #[trigger] fx.started@[i],
                            self.running@[r0.len() + i],
                            var,
                        ) && started_event(fx.events@[i], fx.started@[i]) by {
                            if i < prev_k {
                                assert(self.running@[r0.len() + i] == self.running@.take(
                                    r0.len() + prev_k,
                                )[r0.len() + i]);
                            }
                        }
                    }
                },
            }
        }
        proof {
            lemma_all_ids(*old(self));
            lemma_all_ids(*self);
            lemma_dispatch_ids(
                q0,
                r0,
                self.queue@,
                self.running@,
                fx.started@,
                fx.events@,
                var,
                old(self).capacity(),
                self.completed@,
            );
            lemma_unique_by_count(old(self).all_jobs(), self.all_jobs());
        }
        fx
    }

    /// Queues a new job with id `id`, submitted at `at`, then dispatches. Returns the id
    /// and the job's place in the queue before dispatching.
    pub fn submit_at(&mut self, id: JobId, at: Timestamp, spec: JobSpec) -> (r: ((JobId, usize), Effects))
        requires
            old(self).wf(),
            old(self).lookup(id@) is None,
        ensures
            final(self).wf(),
            r.0.0@ == id@,
            exists|job: Job| #![trigger submitted_job(job, id@, at, spec)]
                submitted_job(job, id@, at, spec) && ({
                    let q = ranked_insert(old(self).queued(), job);
                    &&& r.0.1 == match first_match(q, has_id(id@)) {
                        Some(p) => p,
                        None => 0,
                    }
                    &&& r.1.events@.len() >= 1
                    &&& r.1.events@[0] matches Event::JobSubmitted { job: info } && summary_of(info, job)
                    &&& dispatched(
                        q,
                        old(self).running(),
                        final(self).queued(),
                        final(self).running(),
                        r.1.started@,
                        r.1.events@.skip(1),
                        old(self).device_var(),
                        old(self).capacity(),
                    )
                    &&& dispatch_gpus(
                        old(self).gpus().devices@,
                        final(self).gpus().devices@,
                        q,
                        final(self).running().skip(old(self).running().len() as int),
                        old(self).gpus().packed(),
                        final(self).running().len(),
                        old(self).capacity(),
                    )
                }),
            final(self).finished() == old(self).finished(),
            final(self).capacity() == old(self).capacity(),
            final(self).device_var() == old(self).device_var(),
            final(self).gpus().policy == old(self).gpus().policy,
            r.1.stopped@.len() == 0,
            final(self).lookup(id@) matches Some(j) && found_as_submitted(j, id@, at, spec),
    {
        let job = Job {
            id: id.clone(),
            spec,
            status: JobStatus::Queued,
            submitted_at: at,
            started_at: None,
            completed_at: None,
            exit_code: None,
            pid: None,
        };
        let ghost the_job = job;
        let info = JobInfo::from(&job);
        self.queue.push(job);
        let ghost q = self.queue@;
        proof {
            crate::order::lemma_insertion_index(old(self).queue@, the_job);
            let p = crate::order::insertion_index(old(self).queue@, the_job);
            assert forall|i: int| 0 <= i < q.len() implies (#[trigger] q[i]).status == JobStatus::Queued by {
                if i < p {
                    assert(q[i] == old(self).queue@[i]);
                } else if i > p {
                    assert(q[i] == old(self).queue@[i - 1]);
                }
            }
            assert(job_ids(q) =~= job_ids(old(self).queue@).insert(p, id@));
            lemma_all_ids(*old(self));
            lemma_all_ids(*self);
            assert(id_bag(q, self.running@, self.completed@) =~= id_bag(
                old(self).queue@,
                old(self).running@,
                old(self).completed@,
            ).insert(id@)) by {
                broadcast use vstd::multiset::group_multiset_axioms;
            }
            lemma_lookup_none_ids(*old(self), id@);
            lemma_unique_with_new(old(self).all_jobs(), self.all_jobs(), the_job);
        }
        let position = match self.queue.position(&id) {
            Some(p) => p,
            None => 0,
        };
        let mut fx = self.try_dispatch();
        let mut events: Vec<Event> = Vec::new();
        events.push(Event::JobSubmitted { job: info });
        let ghost later = fx.events@;
        events.append(&mut fx.events);
        proof {
            assert(events@.skip(1) =~= later);
        }
        let fx = Effects { events, started: fx.started, stopped: fx.stopped };
        proof {
            assert(submitted_job(the_job, id@, at, spec));
            assert(q == ranked_insert(old(self).queued(), the_job));
            assert(fx.events@[0] matches Event::JobSubmitted { job: info } && summary_of(info, the_job));
            law_submitted_job_found(*old(self), *self, the_job, fx.started@, later);
        }
        ((id, position), fx)
    }

    /// A random job id that no job has yet; `None` when the random source fails or every
    /// draw is taken.
    fn fresh_job_id(&self) -> (r: Option<String>)
        ensures
            r matches Some(id) ==> id@.len() == 36 && self.lookup(id@) is None,
    {
        let mut tries: usize = 0;
        while tries < ID_DRAWS
            invariant
                tries <= ID_DRAWS,
            decreases ID_DRAWS - tries,
        {
            match new_job_id() {
                Some(id) => {
                    if self.get_job(&id).is_none() {
                        return Some(id);
                    }
                },
                None => {
                    return None;
                },
            }
            tries = tries + 1;
        }
        None
    }

    /// Queues a new job under a fresh id (one no job has), submitted now, then
    /// dispatches. Refused, with nothing changed, when no fresh id can be drawn.
    pub fn handle_submit(&mut self, spec: JobSpec) -> (res: Result<((JobId, usize), Effects), SchedulerError>)
        requires
            old(self).wf(),
        ensures
            final(self).wf(),
            final(self).capacity() == old(self).capacity(),
            final(self).device_var() == old(self).device_var(),
            final(self).gpus().policy == old(self).gpus().policy,
            res is Err ==> res == Err::<((JobId, usize), Effects), SchedulerError>(SchedulerError::NoFreshId)
                && final(self).queued() == old(self).queued() && final(self).running() == old(self).running()
                && final(self).finished() == old(self).finished() && final(self).gpus() == old(self).gpus(),
            res matches Ok(r) ==> {
                &&& r.0.0@.len() == 36
                &&& old(self).lookup(r.0.0@) is None
                &&& exists|at: Timestamp, job: Job| #![trigger submitted_job(job, r.0.0@, at, spec)]
                    submitted_job(job, r.0.0@, at, spec) && {
                        let q = ranked_insert(old(self).queued(), job);
                        &&& r.0.1 == match first_match(q, has_id(r.0.0@)) {
                            Some(p) => p,
                            None => 0,
                        }
                        &&& r.1.events@.len() >= 1
                        &&& r.1.events@[0] matches Event::JobSubmitted { job: info } && summary_of(info, job)
                        &&& dispatched(
                            q,
                            old(self).running(),
                            final(self).queued(),
                            final(self).running(),
                            r.1.started@,
                            r.1.events@.skip(1),
                            old(self).device_var(),
                            old(self).capacity(),
                        )
                        &&& dispatch_gpus(
                            old(self).gpus().devices@,
                            final(self).gpus().devices@,
                            q,
                            final(self).running().skip(old(self).running().len() as int),
                            old(self).gpus().packed(),
                            final(self).running().len(),
                            old(self).capacity(),
                        )
                    }
                &&& final(self).finished() == old(self).finished()
                &&& r.1.stopped@.len() == 0
                &&& final(self).lookup(r.0.0@) matches Some(j) && exists|at: Timestamp|
                    #[trigger] found_as_submitted(j, r.0.0@, at, spec)
            },
    {
        let id = match self.fresh_job_id() {
            Some(id) => id,
            None => {
                return Err(SchedulerError::NoFreshId);
            },
        };
        let at = now();
        let r = self.submit_at(id, at, spec);
        proof {
            let j = self.lookup(r.0.0@)->0;
            assert(found_as_submitted(j, r.0.0@, at, spec));
        }
        Ok(r)
    }

    /// Cancels the job with the given id at time `at`: a queued job leaves the queue, a
    /// running job gives back its GPUs and its worker is to be stopped. Either way it joins
    /// the finished jobs as cancelled. Returns its previous and new status, or an error
    /// when no queued or running job has that id.
    pub fn cancel_at(&mut self, job_id: &JobId, at: Timestamp) -> (r: (
        Result<(JobStatus, JobStatus), SchedulerError>,
        Effects,
    ))
        requires
            old(self).wf(),
        ensures
            final(self).wf(),
            final(self).capacity() == old(self).capacity(),
            final(self).device_var() == old(self).device_var(),
            final(self).gpus().policy == old(self).gpus().policy,
            r.1.started@.len() == 0,
            match first_match(old(self).queued(), has_id(job_id@)) {
                Some(i) => {
                    &&& r.0 == Ok::<(JobStatus, JobStatus), SchedulerError>(
                        (JobStatus::Queued, JobStatus::Cancelled),
                    )
                    &&& final(self).queued() == old(self).queued().remove(i)
                    &&& final(self).running() == old(self).running()
                    &&& final(self).gpus().devices@ == old(self).gpus().devices@
                    &&& final(self).finished().len() == old(self).finished().len() + 1
                    &&& final(self).finished().drop_last() == old(self).finished()
                    &&& finished_as(
                        old(self).queued()[i],
                        final(self).finished().last(),
                        JobStatus::Cancelled,
                        old(self).queued()[i].exit_code,
                        at,
                    )
                    &&& r.1.events@.len() == 1
                    &&& cancelled_event(r.1.events@[0], final(self).finished().last())
                    &&& r.1.stopped@.len() == 0
                },
                None => match first_match(old(self).running_jobs(), has_id(job_id@)) {
                    Some(i) => {
                        &&& r.0 == Ok::<(JobStatus, JobStatus), SchedulerError>(
                            (JobStatus::Running, JobStatus::Cancelled),
                        )
                        &&& final(self).queued() == old(self).queued()
                        &&& final(self).running() == old(self).running().remove(i)
                        &&& final(self).gpus().devices@ == released_all(
                            old(self).gpus().devices@,
                            old(self).running()[i].gpu_indices@,
                            old(self).running()[i].vram_per_gpu,
                        )
                        &&& final(self).finished().len() == old(self).finished().len() + 1
                        &&& final(self).finished().drop_last() == old(self).finished()
                        &&& finished_as(
                            old(self).running_jobs()[i],
                            final(self).finished().last(),
                            JobStatus::Cancelled,
                            old(self).running_jobs()[i].exit_code,
                            at,
                        )
                        &&& r.1.events@.len() == 1
                        &&& cancelled_event(r.1.events@[0], final(self).finished().last())
                        &&& r.1.stopped@.len() == 1
                        &&& r.1.stopped@[0]@ == job_id@
                    },
                    None => {
                        &&& r.0 matches Err(SchedulerError::JobNotFound(id)) && id@ == job_id@
                        &&& final(self).queued() == old(self).queued()
                        &&& final(self).running() == old(self).running()
                        &&& final(self).finished() == old(self).finished()
                        &&& final(self).gpus().devices@ == old(self).gpus().devices@
                        &&& r.1.events@.len() == 0
                        &&& r.1.stopped@.len() == 0
                    },
                },
            },
            r.0 is Ok ==> final(self).lookup(job_id@) == Some(
                final(self).finished().last(),
            ),
    {
        let mut fx = Effects::none();
        match self.queue.remove(job_id) {
            Some(job) => {
                proof {
                    lemma_first_match(old(self).queue@, has_id(job_id@));
                }
                let mut job = job;
                let prev = job.status;
                job.status = JobStatus::Cancelled;
                job.completed_at = Some(at);
                let info = JobInfo::from(&job);
                fx.events.push(Event::JobCancelled { job: info });
                self.completed.push(job);
                proof {
                    let i = first_match(old(self).queue@, has_id(job_id@))->0;
                    self.lemma_queue_removal(old(self).queue@, i);
                    assert(self.completed@.drop_last() =~= old(self).completed@);
                    assert(self.completed@ =~= old(self).completed@.push(self.completed@.last()));
                    lemma_queued_to_finished_ids(old(self).queue@, old(self).running@, old(self).completed@, i, self.completed@.last());
                    lemma_all_ids(*old(self));
                    lemma_all_ids(*self);
                    lemma_unique_by_count(old(self).all_jobs(), self.all_jobs());
                    lemma_cancel_found(*old(self), *self, job_id@);
                }
                return (Ok((prev, JobStatus::Cancelled)), fx);
            },
            None => {},
        }
        match self.find_running(job_id) {
            Some(i) => {
                let entry = self.running.remove(i);
                if entry.gpu_indices.len() > 0 {
                    self.gpu.release(entry.gpu_indices.as_slice(), entry.vram_per_gpu);
                }
                let mut job = entry.job;
                let prev = job.status;
                job.status = JobStatus::Cancelled;
                job.completed_at = Some(at);
                let info = JobInfo::from(&job);
                fx.events.push(Event::JobCancelled { job: info });
                fx.stopped.push(job_id.clone());
                self.completed.push(job);
                proof {
                    self.lemma_running_removal(old(self).running@, i as int);
                    assert(self.completed@.drop_last() =~= old(self).completed@);
                    assert(old(self).running_jobs()[i as int] == old(self).running@[i as int].job);
                    assert(self.completed@ =~= old(self).completed@.push(self.completed@.last()));
                    lemma_running_to_finished_ids(old(self).queue@, old(self).running@, old(self).completed@, i as int, self.completed@.last());
                    lemma_all_ids(*old(self));
                    lemma_all_ids(*self);
                    lemma_unique_by_count(old(self).all_jobs(), self.all_jobs());
                    lemma_first_match(old(self).queued(), has_id(job_id@));
                    lemma_first_match(old(self).running_jobs(), has_id(job_id@));
                    lemma_cancel_found(*old(self), *self, job_id@);
                }
                return (Ok((prev, JobStatus::Cancelled)), fx);
            },
            None => {},
        }
        (Err(SchedulerError::JobNotFound(job_id.clone())), fx)
    }

    /// Cancels the job with the given id now (see `cancel_at`).
    pub fn handle_cancel(&mut self, job_id: &JobId) -> (r: (
        Result<(JobStatus, JobStatus), SchedulerError>,
        Effects,
    ))
        requires
            old(self).wf(),
        ensures
            final(self).wf(),
            final(self).capacity() == old(self).capacity(),
            final(self).device_var() == old(self).device_var(),
            final(self).gpus().policy == old(self).gpus().policy,
            r.1.started@.len() == 0,
            r.0 is Ok <==> (first_match(old(self).queued(), has_id(job_id@)) is Some || first_match(
                old(self).running_jobs(),
                has_id(job_id@),
            ) is Some),
            first_match(old(self).queued(), has_id(job_id@)) is Some ==> r.0 == Ok::<
                (JobStatus, JobStatus),
                SchedulerError,
            >((JobStatus::Queued, JobStatus::Cancelled)),
            first_match(old(self).queued(), has_id(job_id@)) is None && first_match(
                old(self).running_jobs(),
                has_id(job_id@),
            ) is Some ==> r.0 == Ok::<(JobStatus, JobStatus), SchedulerError>(
                (JobStatus::Running, JobStatus::Cancelled),
            ) && r.1.stopped@.len() == 1 && r.1.stopped@[0]@ == job_id@,
            r.0 is Err ==> final(self).queued() == old(self).queued() && final(self).running()
                == old(self).running() && final(self).finished() == old(self).finished(),
            r.0 is Err ==> (r.0 matches Err(SchedulerError::JobNotFound(id)) && id@ == job_id@)
                && final(self).gpus().devices@ == old(self).gpus().devices@ && r.1.events@.len() == 0
                && r.1.stopped@.len() == 0,
            r.0 is Ok ==> final(self).lookup(job_id@) == Some(final(self).finished().last())
                && final(self).finished().last().id@ == job_id@ && final(self).finished().last().status
                == JobStatus::Cancelled && final(self).finished().last().completed_at is Some,
            first_match(old(self).queued(), has_id(job_id@)) matches Some(i) ==> {
                &&& final(self).queued() == old(self).queued().remove(i)
                &&& final(self).running() == old(self).running()
                &&& final(self).gpus().devices@ == old(self).gpus().devices@
                &&& final(self).finished().len() == old(self).finished().len() + 1
                &&& final(self).finished().drop_last() == old(self).finished()
                &&& exists|at: Timestamp| #[trigger]
                    finished_as(
                        old(self).queued()[i],
                        final(self).finished().last(),
                        JobStatus::Cancelled,
                        old(self).queued()[i].exit_code,
                        at,
                    )
                &&& r.1.events@.len() == 1
                &&& cancelled_event(r.1.events@[0], final(self).finished().last())
            },
            first_match(old(self).queued(), has_id(job_id@)) is None ==> (first_match(
                old(self).running_jobs(),
                has_id(job_id@),
            ) matches Some(i) ==> {
                &&& final(self).queued() == old(self).queued()
                &&& final(self).running() == old(self).running().remove(i)
                &&& final(self).gpus().devices@ == released_all(
                    old(self).gpus().devices@,
                    old(self).running()[i].gpu_indices@,
                    old(self).running()[i].vram_per_gpu,
                )
                &&& final(self).finished().len() == old(self).finished().len() + 1
                &&& final(self).finished().drop_last() == old(self).finished()
                &&& exists|at: Timestamp| #[trigger]
                    finished_as(
                        old(self).running_jobs()[i],
                        final(self).finished().last(),
                        JobStatus::Cancelled,
                        old(self).running_jobs()[i].exit_code,
                        at,
                    )
                &&& r.1.events@.len() == 1
                &&& cancelled_event(r.1.events@[0], final(self).finished().last())
            }),
    {
        let at = now();
        proof {
            lemma_first_match(self.queued(), has_id(job_id@));
            lemma_first_match(self.running_jobs(), has_id(job_id@));
        }
        self.cancel_at(job_id, at)
    }

    /// Records that the worker of the job with the given id exited with `exit_code` at
    /// `at`: the job gives back its GPUs and joins the finished jobs, completed on exit code
    /// 0 and failed otherwise; then queued jobs are dispatched. A job that is not running
    /// (for instance one already cancelled) is left alone.
    pub fn complete_at(&mut self, job_id: &JobId, exit_code: i32, at: Timestamp) -> (fx: Effects)
        requires
            old(self).wf(),
        ensures
            final(self).wf(),
            final(self).capacity() == old(self).capacity(),
            final(self).device_var() == old(self).device_var(),
            final(self).gpus().policy == old(self).gpus().policy,
            fx.stopped@.len() == 0,
            match first_match(old(self).running_jobs(), has_id(job_id@)) {
                Some(i) => {
                    &&& final(self).finished().len() == old(self).finished().len() + 1
                    &&& final(self).finished().drop_last() == old(self).finished()
                    &&& finished_as(
                        old(self).running_jobs()[i],
                        final(self).finished().last(),
                        exit_status(exit_code),
                        Some(exit_code),
                        at,
                    )
                    &&& fx.events@.len() >= 1
                    &&& completed_event(fx.events@[0], final(self).finished().last())
                    &&& dispatched(
                        old(self).queued(),
                        old(self).running().remove(i),
                        final(self).queued(),
                        final(self).running(),
                        fx.started@,
                        fx.events@.skip(1),
                        old(self).device_var(),
                        old(self).capacity(),
                    )
                    &&& dispatch_gpus(
                        released_all(
                            old(self).gpus().devices@,
                            old(self).running()[i].gpu_indices@,
                            old(self).running()[i].vram_per_gpu,
                        ),
                        final(self).gpus().devices@,
                        old(self).queued(),
                        final(self).running().skip(old(self).running().len() - 1),
                        old(self).gpus().packed(),
                        final(self).running().len(),
                        old(self).capacity(),
                    )
                },
                None => {
                    &&& final(self).gpus().devices@ == old(self).gpus().devices@
                    &&& final(self).queued() == old(self).queued()
                    &&& final(self).running() == old(self).running()
                    &&& final(self).finished() == old(self).finished()
                    &&& fx.events@.len() == 0
                    &&& fx.started@.len() == 0
                },
            },
            first_match(old(self).running_jobs(), has_id(job_id@)) is Some ==> final(self).lookup(job_id@)
                == Some(final(self).finished().last()),
            first_match(old(self).running_jobs(), has_id(job_id@)) is Some ==> (exit_code == 0
                ==> final(self).finished().last().status == JobStatus::Completed) && (exit_code != 0
                ==> final(self).finished().last().status == JobStatus::Failed),
    {
        match self.find_running(job_id) {
            Some(i) => {
                let entry = self.running.remove(i);
                if entry.gpu_indices.len() > 0 {
                    self.gpu.release(entry.gpu_indices.as_slice(), entry.vram_per_gpu);
                }
                let mut job = entry.job;
                job.completed_at = Some(at);
                job.exit_code = Some(exit_code);
                job.status = if exit_code == 0 {
                    JobStatus::Completed
                } else {
                    JobStatus::Failed
                };
                let info = JobInfo::from(&job);
                self.completed.push(job);
                proof {
                    self.lemma_running_removal(old(self).running@, i as int);
                    assert(self.completed@.drop_last() =~= old(self).completed@);
                    assert(old(self).running_jobs()[i as int] == old(self).running@[i as int].job);
                    assert(self.completed@ =~= old(self).completed@.push(self.completed@.last()));
                    lemma_running_to_finished_ids(old(self).queue@, old(self).running@, old(self).completed@, i as int, self.completed@.last());
                    lemma_all_ids(*old(self));
                    lemma_all_ids(*self);
                    lemma_unique_by_count(old(self).all_jobs(), self.all_jobs());
                }
                let ghost mid_running = self.running@;
                let ghost mid_queue = self.queue@;
                let ghost finished_now = self.completed@;
                let mut rest = self.try_dispatch();
                let mut events: Vec<Event> = Vec::new();
                events.push(Event::JobCompleted { job: info });
                let ghost later = rest.events@;
                events.append(&mut rest.events);
                proof {
                    assert(events@.skip(1) =~= later);
                    assert(mid_running == old(self).running@.remove(i as int));
                    lemma_first_match(old(self).running_jobs(), has_id(job_id@));
                    lemma_complete_found(*old(self), *self, job_id@, rest.started@, later);
                }
                Effects { events, started: rest.started, stopped: rest.stopped }
            },
            None => Effects::none(),
        }
    }

    /// Records that a job's worker exited with `exit_code`, now (see `complete_at`).
    pub fn handle_completed(&mut self, job_id: &JobId, exit_code: i32) -> (fx: Effects)
        requires
            old(self).wf(),
        ensures
            final(self).wf(),
            final(self).capacity() == old(self).capacity(),
            final(self).device_var() == old(self).device_var(),
            final(self).gpus().policy == old(self).gpus().policy,
            fx.stopped@.len() == 0,
            first_match(old(self).running_jobs(), has_id(job_id@)) is None ==> final(self).queued()
                == old(self).queued() && final(self).running() == old(self).running() && final(self).finished()
                == old(self).finished() && final(self).gpus().devices@ == old(self).gpus().devices@
                && fx.events@.len() == 0 && fx.started@.len() == 0,
            first_match(old(self).running_jobs(), has_id(job_id@)) matches Some(i) ==> {
                &&& final(self).finished().len() == old(self).finished().len() + 1
                &&& final(self).finished().drop_last() == old(self).finished()
                &&& exists|at: Timestamp| #[trigger]
                    finished_as(
                        old(self).running_jobs()[i],
                        final(self).finished().last(),
                        exit_status(exit_code),
                        Some(exit_code),
                        at,
                    )
                &&& fx.events@.len() >= 1
                &&& completed_event(fx.events@[0], final(self).finished().last())
                &&& dispatched(
                    old(self).queued(),
                    old(self).running().remove(i),
                    final(self).queued(),
                    final(self).running(),
                    fx.started@,
                    fx.events@.skip(1),
                    old(self).device_var(),
                    old(self).capacity(),
                )
                &&& dispatch_gpus(
                    released_all(
                        old(self).gpus().devices@,
                        old(self).running()[i].gpu_indices@,
                        old(self).running()[i].vram_per_gpu,
                    ),
                    final(self).gpus().devices@,
                    old(self).queued(),
                    final(self).running().skip(old(self).running().len() - 1),
                    old(self).gpus().packed(),
                    final(self).running().len(),
                    old(self).capacity(),
                )
            },
            first_match(old(self).running_jobs(), has_id(job_id@)) is Some ==> final(self).lookup(job_id@) == Some(
                final(self).finished().last(),
            ) && final(self).finished().last().id@ == job_id@ && final(self).finished().last().status == exit_status(
                exit_code,
            ) && final(self).finished().last().exit_code == Some(exit_code)
                && final(self).finished().last().completed_at is Some,
            first_match(old(self).running_jobs(), has_id(job_id@)) is Some ==> (exit_code == 0
                ==> final(self).finished().last().status == JobStatus::Completed) && (exit_code != 0
                ==> final(self).finished().last().status == JobStatus::Failed),
    {
        let at = now();
        proof {
            lemma_first_match(self.running_jobs(), has_id(job_id@));
        }
        self.complete_at(job_id, exit_code, at)
    }

    /// Removing a job from a queue of queued jobs leaves only queued jobs.
    proof fn lemma_queue_removal(&self, before: Seq<Job>, i: int)
        requires
            0 <= i < before.len(),
            self.queue@ == before.remove(i),
            is_ranked(self.queue@),
            all_with_status(before, JobStatus::Queued),
        ensures
            all_with_status(self.queue@, JobStatus::Queued),
    {
        let q = self.queue@;
        assert forall|k: int| 0 <= k < q.len() implies (#[trigger] q[k]).status == JobStatus::Queued by {
            if k < i {
                assert(q[k] == before[k]);
            } else {
                assert(q[k] == before[k + 1]);
            }
        }
    }

    /// Removing a running entry keeps the running jobs running.
    proof fn lemma_running_removal(&self, before: Seq<RunningJob>, i: int)
        requires
            0 <= i < before.len(),
            self.running@ == before.remove(i),
            all_with_status(before.map_values(|r: RunningJob| r.job), JobStatus::Running),
        ensures
            all_with_status(self.running_jobs(), JobStatus::Running),
            self.running_jobs() == before.map_values(|r: RunningJob| r.job).remove(i),
    {
        let jobs = self.running_jobs();
        let b = before.map_values(|r: RunningJob| r.job);
        assert(jobs =~= b.remove(i));
        assert forall|k: int| 0 <= k < jobs.len() implies (#[trigger] jobs[k]).status == JobStatus::Running by {
            if k < i {
                assert(jobs[k] == b[k]);
            } else {
                assert(jobs[k] == b[k + 1]);
            }
        }
    }
}

/// Law: in every reachable state no more jobs run than the configured maximum, the queue
/// is in scheduling order, queued jobs are queued, running jobs running, finished jobs
/// completed, failed or cancelled, no two jobs share an id, and no two devices share an
/// index.
pub proof fn law_scheduler_invariant(s: &Scheduler)
    requires
        s.wf(),
    ensures
        s.running().len() <= s.capacity(),
        is_ranked(s.queued()),
        forall|i: int| 0 <= i < s.queued().len() ==> (#[trigger] s.queued()[i]).status == JobStatus::Queued,
        forall|i: int| 0 <= i < s.running().len() ==> (#[trigger] s.running()[i]).job.status == JobStatus::Running,
        forall|i: int| 0 <= i < s.finished().len() ==> (#[trigger] s.finished()[i]).status.finished(),
        unique_ids(s.all_jobs()),
        distinct_indices(s.gpus().devices@),
{
    assert forall|i: int| 0 <= i < s.running().len() implies (#[trigger] s.running()[i]).job.status == JobStatus::Running by {
        assert(s.running_jobs()[i] == s.running()[i].job);
    }
}

/// Law: dispatch starts jobs in queue order, never more than the free slots, and a job
/// that needs no GPU is never held back while a slot is free.
pub proof fn law_dispatch_in_queue_order(
    q0: Seq<Job>,
    r0: Seq<RunningJob>,
    q1: Seq<Job>,
    r1: Seq<RunningJob>,
    started: Seq<Job>,
    events: Seq<Event>,
    var: Seq<char>,
    capacity: nat,
)
    requires
        dispatched(q0, r0, q1, r1, started, events, var, capacity),
        r0.len() <= capacity,
        r1.len() <= capacity,
    ensures
        forall|i: int| 0 <= i < started.len() ==> (#[trigger] started[i]).id@ == q0[i].id@,
        started.len() <= capacity - r0.len(),
        q0.len() > started.len() && r1.len() < capacity ==> q0[started.len() as int].spec.resources.gpu_count > 0,
{
    assert forall|i: int| 0 <= i < started.len() implies (#[trigger] started[i]).id@ == q0[i].id@ by {
        assert(started_ok(q0[i], started[i], r1[r0.len() + i], var));
    }
    let k = started.len() as int;
    if q0.len() > k && r1.len() < capacity {
        if q1 == q0.skip(k) {
            assert(q1.len() == q0.len() - k);
        }
    }
}

/// `j` is the job submitted under `id` at `at` for `spec`, queued or already running.
pub open spec fn found_as_submitted(j: Job, id: Seq<char>, at: Timestamp, spec: JobSpec) -> bool {
    &&& j.id@ == id
    &&& j.spec.command@ == spec.command@
    &&& j.spec.working_dir == spec.working_dir
    &&& j.spec.resources == spec.resources
    &&& j.spec.files@ == spec.files@
    &&& j.spec.priority == spec.priority
    &&& j.spec.tags@ == spec.tags@
    &&& j.spec.name == spec.name
    &&& j.submitted_at == at
    &&& (j.status == JobStatus::Queued || j.status == JobStatus::Running)
}

/// `j` carries on the job `job` after dispatch: the same request, submitted at the same
/// time, queued or running.
pub open spec fn continues(j: Job, job: Job) -> bool {
    &&& j.id@ == job.id@
    &&& j.spec.command@ == job.spec.command@
    &&& j.spec.working_dir == job.spec.working_dir
    &&& j.spec.resources == job.spec.resources
    &&& j.spec.files@ == job.spec.files@
    &&& j.spec.priority == job.spec.priority
    &&& j.spec.tags@ == job.spec.tags@
    &&& j.spec.name == job.spec.name
    &&& j.submitted_at == job.submitted_at
    &&& (j.status == JobStatus::Queued || j.status == JobStatus::Running)
}

/// The queue dispatch leaves holds exactly the jobs of the dispatched queue from
/// position `k` on.
proof fn lemma_left_queue(qi: Seq<Job>, k: int, q1: Seq<Job>)
    requires
        0 <= k <= qi.len(),
        q1 == qi.skip(k) || (k < qi.len() && q1 == ranked_insert(qi.skip(k + 1), qi[k])),
    ensures
        forall|i: int| 0 <= i < q1.len() ==> exists|m: int| k <= m < qi.len() && qi[m] == #[trigger] q1[i],
        forall|m: int| k <= m < qi.len() ==> q1.contains(#[trigger] qi[m]),
{
    if q1 == qi.skip(k) {
        assert forall|i: int| 0 <= i < q1.len() implies exists|m: int| k <= m < qi.len() && qi[m] == #[trigger] q1[i] by {
            assert(qi[k + i] == q1[i]);
        }
        assert forall|m: int| k <= m < qi.len() implies q1.contains(#[trigger] qi[m]) by {
            assert(q1[m - k] == qi[m]);
        }
    } else {
        let s = qi.skip(k + 1);
        crate::order::lemma_insertion_index(s, qi[k]);
        let p = crate::order::insertion_index(s, qi[k]);
        assert(q1 == s.insert(p, qi[k]));
        assert forall|i: int| 0 <= i < q1.len() implies exists|m: int| k <= m < qi.len() && qi[m] == #[trigger] q1[i] by {
            if i < p {
                assert(qi[k + 1 + i] == q1[i]);
            } else if i == p {
                assert(qi[k] == q1[i]);
            } else {
                assert(qi[k + i] == q1[i]);
            }
        }
        assert forall|m: int| k <= m < qi.len() implies q1.contains(#[trigger] qi[m]) by {
            if m == k {
                assert(q1[p] == qi[m]);
            } else if m - k - 1 < p {
                assert(q1[m - k - 1] == qi[m]);
            } else {
                assert(q1[m - k] == qi[m]);
            }
        }
    }
}

/// A job that joins the queue under an id no queued or running job has is, after
/// dispatch, the first queued job with that id or, when none is queued, the first
/// running one.
proof fn lemma_dispatch_keeps_new_job(
    q: Seq<Job>,
    job: Job,
    r0: Seq<RunningJob>,
    q1: Seq<Job>,
    r1: Seq<RunningJob>,
    started: Seq<Job>,
    events: Seq<Event>,
    var: Seq<char>,
    capacity: nat,
)
    requires
        forall|i: int| 0 <= i < q.len() ==> (#[trigger] q[i]).id@ != job.id@,
        forall|i: int| 0 <= i < r0.len() ==> (#[trigger] r0[i]).job.id@ != job.id@,
        job.status == JobStatus::Queued,
        dispatched(ranked_insert(q, job), r0, q1, r1, started, events, var, capacity),
    ensures
        ({
            let rj = r1.map_values(|r: RunningJob| r.job);
            ||| (first_match(q1, has_id(job.id@)) matches Some(i) && continues(q1[i], job))
            ||| (first_match(q1, has_id(job.id@)) is None && (first_match(rj, has_id(job.id@)) matches Some(i)
                && continues(rj[i], job)))
        }),
{
    let id = job.id@;
    let qi = ranked_insert(q, job);
    crate::order::lemma_insertion_index(q, job);
    let p = crate::order::insertion_index(q, job);
    assert(qi == q.insert(p, job));
    assert forall|m: int| 0 <= m < qi.len() && m != p implies (#[trigger] qi[m]).id@ != id by {
        if m < p {
            assert(qi[m] == q[m]);
        } else {
            assert(qi[m] == q[m - 1]);
        }
    }
    assert(qi[p] == job);
    let k = started.len() as int;
    lemma_left_queue(qi, k, q1);
    let rj = r1.map_values(|r: RunningJob| r.job);
    if p >= k {
        assert(q1.contains(qi[p]));
        let w = choose|i: int| 0 <= i < q1.len() && q1[i] == job;
        lemma_first_match(q1, has_id(id));
        assert(has_id(id)(q1[w]));
        let i0 = first_match(q1, has_id(id))->0;
        let m = choose|m: int| k <= m < qi.len() && qi[m] == q1[i0];
        assert(qi[m].id@ == id);
        assert(m == p);
    } else {
        assert forall|i: int| 0 <= i < q1.len() implies !has_id(id)(#[trigger] q1[i]) by {
            let m = choose|m: int| k <= m < qi.len() && qi[m] == q1[i];
            assert(qi[m].id@ != id);
        }
        lemma_first_match_none(q1, has_id(id));
        let at = r0.len() + p;
        assert(started_ok(qi[p], started[p], r1[at], var));
        assert(rj[at] == r1[at].job);
        assert forall|x: int| 0 <= x < at implies !has_id(id)(#[trigger] rj[x]) by {
            assert(rj[x] == r1[x].job);
            if x < r0.len() {
                assert(r1.take(r0.len() as int)[x] == r0[x]);
            } else {
                let i = x - r0.len();
                assert(started_ok(qi[i], started[i], r1[r0.len() + i], var));
            }
        }
        lemma_first_match_at(rj, has_id(id), at);
    }
}

/// Law: a job just submitted under an id that no job has yet is found again by that id,
/// with the request it was submitted with, queued or already running.
pub proof fn law_submitted_job_found(
    before: Scheduler,
    after: Scheduler,
    job: Job,
    started: Seq<Job>,
    events: Seq<Event>,
)
    requires
        before.lookup(job.id@) is None,
        job.status == JobStatus::Queued,
        dispatched(
            ranked_insert(before.queued(), job),
            before.running(),
            after.queued(),
            after.running(),
            started,
            events,
            before.device_var(),
            before.capacity(),
        ),
    ensures
        after.lookup(job.id@) matches Some(j) && continues(j, job),
{
    let id = job.id@;
    lemma_first_match(before.queued(), has_id(id));
    lemma_first_match(before.running_jobs(), has_id(id));
    assert forall|i: int| 0 <= i < before.queued().len() implies (#[trigger] before.queued()[i]).id@ != id by {
        assert(!has_id(id)(before.queued()[i]));
    }
    assert forall|i: int| 0 <= i < before.running().len() implies (#[trigger] before.running()[i]).job.id@ != id by {
        assert(before.running_jobs()[i] == before.running()[i].job);
        assert(!has_id(id)(before.running_jobs()[i]));
    }
    lemma_dispatch_keeps_new_job(
        before.queued(),
        job,
        before.running(),
        after.queued(),
        after.running(),
        started,
        events,
        before.device_var(),
        before.capacity(),
    );
    assert(after.running_jobs() == after.running().map_values(|r: RunningJob| r.job));
}

/// No two jobs share an id.
pub open spec fn unique_ids(jobs: Seq<Job>) -> bool {
    forall|i: int, j: int|
        0 <= i < jobs.len() && 0 <= j < jobs.len() && i != j ==> (#[trigger] jobs[i]).id@ != (#[trigger] jobs[j]).id@
}

/// When ids are distinct and the job with id `id` left the queue or the running jobs for
/// the end of the finished jobs, looking `id` up finds it there.
proof fn lemma_cancel_found(before: Scheduler, after: Scheduler, id: Seq<char>)
    requires
        unique_ids(before.all_jobs()),
        match first_match(before.queued(), has_id(id)) {
            Some(i) => after.queued() == before.queued().remove(i) && after.running() == before.running(),
            None => match first_match(before.running_jobs(), has_id(id)) {
                Some(i) => after.queued() == before.queued() && after.running() == before.running().remove(i),
                None => false,
            },
        },
        after.finished().len() == before.finished().len() + 1,
        after.finished().drop_last() == before.finished(),
        after.finished().last().id@ == id,
    ensures
        after.lookup(id) == Some(after.finished().last()),
{
    let a = before.queued();
    let b = before.running_jobs();
    let c = before.finished();
    let all = before.all_jobs();
    assert(all == a + b + c);
    lemma_first_match(a, has_id(id));
    lemma_first_match(b, has_id(id));
    let g: int = match first_match(a, has_id(id)) {
        Some(i) => i,
        None => a.len() + first_match(b, has_id(id))->0,
    };
    assert(all[g].id@ == id);
    assert forall|x: int| 0 <= x < all.len() && x != g implies (#[trigger] all[x]).id@ != id by {
        assert(all[x].id@ != all[g].id@);
    }
    let a1 = after.queued();
    let b1 = after.running_jobs();
    let c1 = after.finished();
    assert forall|x: int| 0 <= x < a1.len() implies !has_id(id)(#[trigger] a1[x]) by {
        match first_match(a, has_id(id)) {
            Some(i) => {
                if x < i {
                    assert(a1[x] == all[x]);
                } else {
                    assert(a1[x] == all[x + 1]);
                }
            },
            None => {
                assert(a1[x] == a[x]);
            },
        }
    }
    lemma_first_match_none(a1, has_id(id));
    assert forall|x: int| 0 <= x < b1.len() implies !has_id(id)(#[trigger] b1[x]) by {
        assert(b1[x] == after.running()[x].job);
        match first_match(a, has_id(id)) {
            Some(i) => {
                assert(b1[x] == b[x]);
                assert(all[a.len() + x] == b[x]);
            },
            None => {
                let i = first_match(b, has_id(id))->0;
                if x < i {
                    assert(after.running()[x] == before.running()[x]);
                    assert(b[x] == before.running()[x].job);
                    assert(all[a.len() + x] == b[x]);
                } else {
                    assert(after.running()[x] == before.running()[x + 1]);
                    assert(b[x + 1] == before.running()[x + 1].job);
                    assert(all[a.len() + x + 1] == b[x + 1]);
                }
            },
        }
    }
    lemma_first_match_none(b1, has_id(id));
    assert forall|x: int| 0 <= x < c.len() implies !has_id(id)(#[trigger] c1[x]) by {
        assert(c1[x] == c1.drop_last()[x]);
        assert(all[a.len() + b.len() + x] == c[x]);
    }
    lemma_first_match_at(c1, has_id(id), c.len() as int);
}

/// Dispatch brings no job with id `id` into the queue or the running jobs when there was
/// none before.
proof fn lemma_no_id_after_dispatch(
    q0: Seq<Job>,
    r0: Seq<RunningJob>,
    q1: Seq<Job>,
    r1: Seq<RunningJob>,
    started: Seq<Job>,
    events: Seq<Event>,
    var: Seq<char>,
    capacity: nat,
    id: Seq<char>,
)
    requires
        forall|x: int| 0 <= x < q0.len() ==> (#[trigger] q0[x]).id@ != id,
        forall|x: int| 0 <= x < r0.len() ==> (#[trigger] r0[x]).job.id@ != id,
        dispatched(q0, r0, q1, r1, started, events, var, capacity),
    ensures
        forall|x: int| 0 <= x < q1.len() ==> !has_id(id)(#[trigger] q1[x]),
        forall|x: int| 0 <= x < r1.len() ==> (#[trigger] r1[x]).job.id@ != id,
{
    let k = started.len() as int;
    lemma_left_queue(q0, k, q1);
    assert forall|x: int| 0 <= x < q1.len() implies !has_id(id)(#[trigger] q1[x]) by {
        let m = choose|m: int| k <= m < q0.len() && q0[m] == q1[x];
        assert(q0[m].id@ != id);
    }
    assert forall|x: int| 0 <= x < r1.len() implies (#[trigger] r1[x]).job.id@ != id by {
        if x < r0.len() {
            assert(r1.take(r0.len() as int)[x] == r0[x]);
        } else {
            let i = x - r0.len();
            assert(started_ok(q0[i], started[i], r1[r0.len() + i], var));
            assert(q0[i].id@ != id);
        }
    }
}

/// When ids are distinct and the running job with id `id` finished, with the other jobs
/// then dispatched, looking `id` up finds it at the end of the finished jobs.
proof fn lemma_complete_found(
    before: Scheduler,
    after: Scheduler,
    id: Seq<char>,
    started: Seq<Job>,
    events: Seq<Event>,
)
    requires
        unique_ids(before.all_jobs()),
        first_match(before.running_jobs(), has_id(id)) matches Some(i) && dispatched(
            before.queued(),
            before.running().remove(i),
            after.queued(),
            after.running(),
            started,
            events,
            before.device_var(),
            before.capacity(),
        ),
        after.finished().len() == before.finished().len() + 1,
        after.finished().drop_last() == before.finished(),
        after.finished().last().id@ == id,
    ensures
        after.lookup(id) == Some(after.finished().last()),
{
    let a = before.queued();
    let b = before.running_jobs();
    let c = before.finished();
    let all = before.all_jobs();
    assert(all == a + b + c);
    lemma_first_match(b, has_id(id));
    let i = first_match(b, has_id(id))->0;
    let g = a.len() + i;
    assert(all[g] == b[i]);
    assert forall|x: int| 0 <= x < all.len() && x != g implies (#[trigger] all[x]).id@ != id by {
        assert(all[x].id@ != all[g].id@);
    }
    assert forall|x: int| 0 <= x < a.len() implies (#[trigger] a[x]).id@ != id by {
        assert(all[x] == a[x]);
    }
    let r0 = before.running().remove(i);
    assert forall|x: int| 0 <= x < r0.len() implies (#[trigger] r0[x]).job.id@ != id by {
        if x < i {
            assert(r0[x] == before.running()[x]);
            assert(b[x] == before.running()[x].job);
            assert(all[a.len() + x] == b[x]);
        } else {
            assert(r0[x] == before.running()[x + 1]);
            assert(b[x + 1] == before.running()[x + 1].job);
            assert(all[a.len() + x + 1] == b[x + 1]);
        }
    }
    lemma_no_id_after_dispatch(
        a,
        r0,
        after.queued(),
        after.running(),
        started,
        events,
        before.device_var(),
        before.capacity(),
        id,
    );
    lemma_first_match_none(after.queued(), has_id(id));
    let b1 = after.running_jobs();
    assert forall|x: int| 0 <= x < b1.len() implies !has_id(id)(#[trigger] b1[x]) by {
        assert(b1[x] == after.running()[x].job);
    }
    lemma_first_match_none(b1, has_id(id));
    let c1 = after.finished();
    assert forall|x: int| 0 <= x < c.len() implies !has_id(id)(#[trigger] c1[x]) by {
        assert(c1[x] == c1.drop_last()[x]);
        assert(all[a.len() + b.len() + x] == c[x]);
    }
    lemma_first_match_at(c1, has_id(id), c.len() as int);
}

/// The ids of `jobs`, in order.
pub open spec fn job_ids(jobs: Seq<Job>) -> Seq<Seq<char>> {
    jobs.map_values(|j: Job| j.id@)
}

/// The ids of the jobs of running entries, in order.
pub open spec fn entry_ids(entries: Seq<RunningJob>) -> Seq<Seq<char>> {
    entries.map_values(|e: RunningJob| e.job.id@)
}

/// How often each id occurs among the queued, running and finished jobs.
spec fn id_bag(q: Seq<Job>, r: Seq<RunningJob>, c: Seq<Job>) -> Multiset<Seq<char>> {
    job_ids(q).to_multiset().add(entry_ids(r).to_multiset()).add(job_ids(c).to_multiset())
}

/// The ids of every job a scheduler holds occur as often as `id_bag` says.
proof fn lemma_all_ids(s: Scheduler)
    ensures
        job_ids(s.all_jobs()).to_multiset() == id_bag(s.queued(), s.running(), s.finished()),
{
    broadcast use vstd::seq_lib::lemma_multiset_commutative;
    assert(job_ids(s.running_jobs()) =~= entry_ids(s.running()));
    assert(job_ids(s.all_jobs()) =~= job_ids(s.queued()) + job_ids(s.running_jobs()) + job_ids(s.finished()));
}

/// Jobs whose ids occur as often as those of jobs with distinct ids have distinct ids.
proof fn lemma_unique_by_count(a: Seq<Job>, b: Seq<Job>)
    requires
        unique_ids(a),
        job_ids(a).to_multiset() == job_ids(b).to_multiset(),
    ensures
        unique_ids(b),
{
    let ia = job_ids(a);
    let ib = job_ids(b);
    assert forall|i: int, j: int| 0 <= i < ia.len() && 0 <= j < ia.len() && i != j implies ia[i] != ia[j] by {
        assert(ia[i] == a[i].id@ && ia[j] == a[j].id@);
    }
    ia.lemma_multiset_has_no_duplicates();
    ib.lemma_multiset_has_no_duplicates_conv();
    assert forall|i: int, j: int|
        0 <= i < b.len() && 0 <= j < b.len() && i != j implies (#[trigger] b[i]).id@ != (#[trigger] b[j]).id@ by {
        assert(ib[i] == b[i].id@ && ib[j] == b[j].id@);
    }
}

/// Adding a job under an id no job has keeps the ids distinct.
proof fn lemma_unique_with_new(a: Seq<Job>, b: Seq<Job>, job: Job)
    requires
        unique_ids(a),
        forall|i: int| 0 <= i < a.len() ==> (#[trigger] a[i]).id@ != job.id@,
        job_ids(b).to_multiset() == job_ids(a).to_multiset().insert(job.id@),
    ensures
        unique_ids(b),
{
    let c = a.push(job);
    assert(job_ids(c) =~= job_ids(a).push(job.id@));
    assert forall|i: int, j: int|
        0 <= i < c.len() && 0 <= j < c.len() && i != j implies (#[trigger] c[i]).id@ != (#[trigger] c[j]).id@ by {
        if i < a.len() && j < a.len() {
            assert(c[i] == a[i] && c[j] == a[j]);
        } else if i < a.len() {
            assert(c[i] == a[i]);
        } else {
            assert(c[j] == a[j]);
        }
    }
    lemma_unique_by_count(c, b);
}

/// Dispatch moves jobs from the queue to the running entries and keeps every id as
/// often as it was.
proof fn lemma_dispatch_ids(
    q0: Seq<Job>,
    r0: Seq<RunningJob>,
    q1: Seq<Job>,
    r1: Seq<RunningJob>,
    started: Seq<Job>,
    events: Seq<Event>,
    var: Seq<char>,
    capacity: nat,
    c: Seq<Job>,
)
    requires
        dispatched(q0, r0, q1, r1, started, events, var, capacity),
    ensures
        id_bag(q1, r1, c) == id_bag(q0, r0, c),
{
    broadcast use vstd::seq_lib::lemma_multiset_commutative;
    broadcast use vstd::multiset::group_multiset_axioms;
    let k = started.len() as int;
    assert forall|x: int| 0 <= x < r1.len() implies #[trigger] entry_ids(r1)[x] == (entry_ids(r0) + job_ids(q0.take(k)))[x] by {
        if x < r0.len() {
            assert(r1.take(r0.len() as int)[x] == r0[x]);
        } else {
            let i = x - r0.len();
            assert(started_ok(q0[i], started[i], r1[r0.len() + i], var));
        }
    }
    assert(entry_ids(r1) =~= entry_ids(r0) + job_ids(q0.take(k)));
    assert(job_ids(q0) =~= job_ids(q0.take(k)) + job_ids(q0.skip(k)));
    if q1 != q0.skip(k) {
        let t = q0.skip(k + 1);
        crate::order::lemma_insertion_index(t, q0[k]);
        let p = crate::order::insertion_index(t, q0[k]);
        assert(job_ids(q1) =~= job_ids(t).insert(p, q0[k].id@));
        assert(job_ids(q0.skip(k)) =~= job_ids(t).insert(0, q0[k].id@));
    }
    assert(job_ids(q1).to_multiset() == job_ids(q0.skip(k)).to_multiset());
    assert(id_bag(q1, r1, c) =~= id_bag(q0, r0, c));
}

/// Moving the `i`th queued job, brought to an end as `done`, to the finished jobs keeps
/// every id as often as it was.
proof fn lemma_queued_to_finished_ids(q: Seq<Job>, r: Seq<RunningJob>, c: Seq<Job>, i: int, done: Job)
    requires
        0 <= i < q.len(),
        done.id@ == q[i].id@,
    ensures
        id_bag(q.remove(i), r, c.push(done)) == id_bag(q, r, c),
{
    broadcast use vstd::multiset::group_multiset_axioms;
    assert(job_ids(q.remove(i)) =~= job_ids(q).remove(i));
    assert(job_ids(c.push(done)) =~= job_ids(c).push(q[i].id@));
    assert(id_bag(q.remove(i), r, c.push(done)) =~= id_bag(q, r, c));
}

/// Moving the `i`th running job, brought to an end as `done`, to the finished jobs keeps
/// every id as often as it was.
proof fn lemma_running_to_finished_ids(q: Seq<Job>, r: Seq<RunningJob>, c: Seq<Job>, i: int, done: Job)
    requires
        0 <= i < r.len(),
        done.id@ == r[i].job.id@,
    ensures
        id_bag(q, r.remove(i), c.push(done)) == id_bag(q, r, c),
{
    broadcast use vstd::multiset::group_multiset_axioms;
    assert(entry_ids(r.remove(i)) =~= entry_ids(r).remove(i));
    assert(job_ids(c.push(done)) =~= job_ids(c).push(r[i].job.id@));
    assert(id_bag(q, r.remove(i), c.push(done)) =~= id_bag(q, r, c));
}

/// No job a scheduler holds has an id that looking up finds nothing for.
proof fn lemma_lookup_none_ids(s: Scheduler, id: Seq<char>)
    requires
        s.lookup(id) is None,
    ensures
        forall|i: int| 0 <= i < s.all_jobs().len() ==> (#[trigger] s.all_jobs()[i]).id@ != id,
{
    let a = s.queued();
    let b = s.running_jobs();
    let c = s.finished();
    lemma_first_match(a, has_id(id));
    lemma_first_match(b, has_id(id));
    lemma_first_match(c, has_id(id));
    assert forall|i: int| 0 <= i < s.all_jobs().len() implies (#[trigger] s.all_jobs()[i]).id@ != id by {
        if i < a.len() {
            assert(s.all_jobs()[i] == a[i]);
            assert(!has_id(id)(a[i]));
        } else if i < a.len() + b.len() {
            assert(s.all_jobs()[i] == b[i - a.len()]);
            assert(!has_id(id)(b[i - a.len()]));
        } else {
            assert(s.all_jobs()[i] == c[i - a.len() - b.len()]);
            assert(!has_id(id)(c[i - a.len() - b.len()]));
        }
    }
}

/// `a` may be listed before `b`: running jobs first, then queued, failed, completed and
/// cancelled ones.
pub open spec fn listed_before_or_with(a: JobStatus, b: JobStatus) -> bool {
    &&& b == JobStatus::Running ==> a == JobStatus::Running
    &&& b == JobStatus::Queued ==> (a == JobStatus::Running || a == JobStatus::Queued)
    &&& b == JobStatus::Failed ==> a != JobStatus::Completed && a != JobStatus::Cancelled
    &&& b == JobStatus::Completed ==> a != JobStatus::Cancelled
}

/// Law: a listing puts running jobs first, then queued, failed, completed and cancelled
/// ones, and jobs of the same status most recently submitted first.
pub proof fn law_listing_newest_first(infos: Seq<JobInfo>)
    ensures
        forall|i: int, j: int|
            0 <= i < j < ranked_sort(infos).len() ==> listed_before_or_with(
                #[trigger] ranked_sort(infos)[i].status,
                #[trigger] ranked_sort(infos)[j].status,
            ),
        forall|i: int, j: int|
            0 <= i < j < ranked_sort(infos).len() && (#[trigger] ranked_sort(infos)[i]).status == (
            #[trigger] ranked_sort(infos)[j]).status ==> ranked_sort(infos)[j].submitted_at.ord_key()
                <= ranked_sort(infos)[i].submitted_at.ord_key(),
{
    crate::order::lemma_ranked_sort(infos);
    let s = ranked_sort(infos);
    assert forall|i: int, j: int|
        0 <= i < j < s.len() && (#[trigger] s[i]).status == (#[trigger] s[j]).status implies s[j].submitted_at.ord_key()
            <= s[i].submitted_at.ord_key() by {
        assert(!rank_lt(s[j].rank(), s[i].rank()));
    }    assert forall|i: int, j: int| 0 <= i < j < s.len() implies listed_before_or_with(
        #[trigger] s[i].status,
        #[trigger] s[j].status,
    ) by {
        assert(!rank_lt(s[j].rank(), s[i].rank()));
    }
}

/// Law: a job that finishes by exiting is completed exactly when its exit code is 0 and
/// failed for every other exit code, negative ones (a signal, a worker error) included.
pub proof fn law_exit_code_decides_status(exit_code: i32)
    ensures
        exit_code == 0 ==> exit_status(exit_code) == JobStatus::Completed,
        exit_code != 0 ==> exit_status(exit_code) == JobStatus::Failed,
{
}

/// Every job that filtering keeps passes the filter.
proof fn lemma_filtered_passes(jobs: Seq<Job>, filter: JobFilter)
    ensures
        forall|k: int| 0 <= k < filtered(jobs, filter).len() ==> passes(filter, #[trigger] filtered(jobs, filter)[k]),
    decreases jobs.len(),
{
    if jobs.len() > 0 {
        lemma_filtered_passes(jobs.drop_last(), filter);
        let rest = filtered(jobs.drop_last(), filter);
        let f = filtered(jobs, filter);
        assert forall|k: int| 0 <= k < f.len() implies passes(filter, #[trigger] f[k]) by {
            if k < rest.len() {
                assert(f[k] == rest[k]);
            }
        }
    }
}

} // verus!

//! What the HTTP API and the MCP tools decide about a request before and after touching the
//! file system: filters, log stream choice, job specifications, retry rules, path checks,
//! upload modes and download headers.
use vstd::prelude::*;
use vstd::string::StringExecFns;
use base64::Engine;
use crate::models::{
    EnvVar, FileUpload, Job, JobSpec, JobStatus, ResourceRequirements, duplicate_opt_string,
};
use crate::scheduler::{JobFilter, LogStream};
use crate::text::{
    chars_of, char_views, has_prefix, owned, pieces_between, split_on, starts_with_chars, str_equal,
    string_of,
};

verus! {

/// Listings show at most this many jobs unless asked otherwise.
pub const DEFAULT_LIST_LIMIT: usize = 50;

/// The status a filter word names (none for "all" or an unknown word).
pub fn status_filter(status: &Option<String>) -> (r: Option<JobStatus>)
    ensures
        r == match status {
            Some(s) => JobStatus::parse_spec(s@),
            None => None,
        },
{
    match status {
        Some(s) => JobStatus::parse_filter(s.as_str()),
        None => None,
    }
}

/// The filter a listing request describes.
pub fn listing_filter(status: &Option<String>, tag: &Option<String>, limit: Option<usize>) -> (r: JobFilter)
    ensures
        r.status == match status {
            Some(s) => JobStatus::parse_spec(s@),
            None => None,
        },
        r.tag == *tag,
        r.limit == match limit {
            Some(l) => l,
            None => DEFAULT_LIST_LIMIT,
        },
{
    JobFilter { status: status_filter(status), tag: duplicate_opt_string(tag), limit: limit.unwrap_or(DEFAULT_LIST_LIMIT) }
}

/// Query of the job listing endpoint.
#[derive(Clone, Debug)]
pub struct ListJobsQuery {
    pub status: Option<String>,
    pub tag: Option<String>,
    pub limit: Option<usize>,
}

impl ListJobsQuery {
    /// The filter this query describes.
    pub fn to_filter(&self) -> (r: JobFilter)
        ensures
            r.status == match self.status {
                Some(s) => JobStatus::parse_spec(s@),
                None => None,
            },
            r.tag == self.tag,
            r.limit == match self.limit {
                Some(l) => l,
                None => DEFAULT_LIST_LIMIT,
            },
    {
        listing_filter(&self.status, &self.tag, self.limit)
    }
}

/// Query of the log endpoint.
#[derive(Clone, Debug)]
pub struct LogsQuery {
    pub stream: Option<String>,
    pub tail: Option<usize>,
    pub since_offset: Option<u64>,
}

impl LogsQuery {
    /// The stream this query asks for.
    pub fn log_stream(&self) -> (r: LogStream)
        ensures
            r == match self.stream {
                Some(w) => if w@ == "stdout"@ {
                    LogStream::Stdout
                } else if w@ == "stderr"@ {
                    LogStream::Stderr
                } else {
                    LogStream::Both
                },
                None => LogStream::Both,
            },
    {
        match &self.stream {
            Some(w) => LogStream::parse(Some(w.as_str())),
            None => LogStream::parse(None),
        }
    }
}

/// Query of a presigned download.
#[derive(Clone, Debug)]
pub struct DownloadQuery {
    pub path: String,
    pub exp: u64,
    pub sig: String,
}

/// Body of a key generation request.
#[derive(Clone, Debug)]
pub struct GenerateKeyRequest {
    pub name: String,
}

/// Body of a key revocation request.
#[derive(Clone, Debug)]
pub struct RevokeKeyRequest {
    pub name: String,
}

/// Parameters of the job listing tool.
#[derive(Clone, Debug)]
pub struct ListJobsParams {
    pub status: Option<String>,
    pub tag: Option<String>,
    pub limit: Option<usize>,
}

impl ListJobsParams {
    /// The filter these parameters describe.
    pub fn to_filter(&self) -> (r: JobFilter)
        ensures
            r.status == match self.status {
                Some(s) => JobStatus::parse_spec(s@),
                None => None,
            },
            r.tag == self.tag,
            r.limit == match self.limit {
                Some(l) => l,
                None => DEFAULT_LIST_LIMIT,
            },
    {
        listing_filter(&self.status, &self.tag, self.limit)
    }
}

/// Parameters of the job status tool.
#[derive(Clone, Debug)]
pub struct GetJobStatusParams {
    pub job_id: String,
}

/// Parameters of the log tool.
#[derive(Clone, Debug)]
pub struct GetJobLogsParams {
    pub job_id: String,
    pub stream: Option<String>,
    pub tail: Option<usize>,
    pub since_offset: Option<u64>,
}

/// Parameters of the cancel tool.
#[derive(Clone, Debug)]
pub struct CancelJobParams {
    pub job_id: String,
}

/// Parameters of the upload tool.
#[derive(Clone, Debug)]
pub struct UploadFileParams {
    pub path: String,
    pub content_base64: String,
    pub mode: Option<String>,
}

/// Parameters of the download tool.
#[derive(Clone, Debug)]
pub struct DownloadFileParams {
    pub path: String,
}

/// Parameters of the submit tool. Memory amounts are in bytes.
#[derive(Clone, Debug)]
pub struct SubmitJobParams {
    pub command: String,
    pub working_dir: Option<String>,
    pub env: Option<Vec<EnvVar>>,
    pub gpu_count: Option<u32>,
    pub gpu_vram_min_bytes: Option<u64>,
    pub cpu_cores: Option<u32>,
    pub ram_min_bytes: Option<u64>,
    pub disk_min_bytes: Option<u64>,
    pub files: Option<Vec<FileUpload>>,
    pub priority: Option<i32>,
    pub tags: Option<Vec<String>>,
    pub name: Option<String>,
}

/// The submit tool's refusal of a GPU request without a VRAM amount.
pub open spec fn missing_vram_message() -> Seq<char> {
    "gpu_vram_min_gb is required when gpu_count > 0"@
}

impl SubmitJobParams {
    /// The job these parameters describe: absent values take their defaults (no GPUs,
    /// priority 0, nothing else). A request for GPUs must say how much VRAM each needs.
    pub fn into_spec(self) -> (r: Result<JobSpec, &'static str>)
        ensures
            (match self.gpu_count {
                Some(c) => c > 0,
                None => false,
            } && self.gpu_vram_min_bytes is None) ==> (r matches Err(e) && e@ == missing_vram_message()),
            !(match self.gpu_count {
                Some(c) => c > 0,
                None => false,
            } && self.gpu_vram_min_bytes is None) ==> (r matches Ok(spec) && {
                &&& spec.command@ == self.command@
                &&& spec.working_dir == self.working_dir
                &&& spec.env@ == match self.env {
                    Some(e) => e@,
                    None => Seq::empty(),
                }
                &&& spec.resources.gpu_count == match self.gpu_count {
                    Some(c) => c,
                    None => 0,
                }
                &&& spec.resources.gpu_vram_min_bytes == self.gpu_vram_min_bytes
                &&& spec.resources.cpu_cores == self.cpu_cores
                &&& spec.resources.ram_min_bytes == self.ram_min_bytes
                &&& spec.resources.disk_min_bytes == self.disk_min_bytes
                &&& spec.files@ == match self.files {
                    Some(f) => f@,
                    None => Seq::empty(),
                }
                &&& spec.priority == match self.priority {
                    Some(p) => p,
                    None => 0,
                }
                &&& spec.tags@ == match self.tags {
                    Some(t) => t@,
                    None => Seq::empty(),
                }
                &&& spec.name == self.name
            }),
    {
        let gpu_count = self.gpu_count.unwrap_or(0);
        if gpu_count > 0 && self.gpu_vram_min_bytes.is_none() {
            return Err("gpu_vram_min_gb is required when gpu_count > 0");
        }
        let env = match self.env {
            Some(e) => e,
            None => Vec::new(),
        };
        let files = match self.files {
            Some(f) => f,
            None => Vec::new(),
        };
        let tags = match self.tags {
            Some(t) => t,
            None => Vec::new(),
        };
        Ok(JobSpec {
            command: self.command,
            working_dir: self.working_dir,
            env,
            resources: ResourceRequirements {
                gpu_count,
                gpu_vram_min_bytes: self.gpu_vram_min_bytes,
                cpu_cores: self.cpu_cores,
                ram_min_bytes: self.ram_min_bytes,
                disk_min_bytes: self.disk_min_bytes,
            },
            files,
            priority: self.priority.unwrap_or(0),
            tags,
            name: self.name,
        })
    }
}

/// A job may be retried once it has finished; otherwise the refusal names its status.
pub fn retry_check(job: &Job) -> (r: Result<(), String>)
    ensures
        job.status.finished() ==> r is Ok,
        !job.status.finished() ==> (r matches Err(m) && m@ == "Cannot retry job in status: "@ + job.status.name()),
{
    if job.status.is_finished() {
        Ok(())
    } else {
        let mut m = owned("Cannot retry job in status: ");
        m.append(job.status.as_str());
        Err(m)
    }
}

/// `s` contains two consecutive dots.
pub open spec fn has_dot_dot(s: Seq<char>) -> bool {
    exists|i: int| 0 <= i < s.len() - 1 && #[trigger] s[i] == '.' && s[i + 1] == '.'
}

/// Whether a requested path contains "..", which requests are refused for.
pub fn has_traversal(path: &str) -> (r: bool)
    ensures
        r == has_dot_dot(path@),
{
    let c = chars_of(path);
    let n = c.len();
    if n < 2 {
        return false;
    }
    let mut i: usize = 0;
    while i < n - 1
        invariant
            n == c@.len(),
            n >= 2,
            i <= n - 1,
            c@ == path@,
            forall|k: int| 0 <= k < i ==> !(#[trigger] c@[k] == '.' && c@[k + 1] == '.'),
        decreases n - 1 - i,
    {
        if c[i] == '.' && c[i + 1] == '.' {
            return true;
        }
        i = i + 1;
    }
    false
}

/// The value of octal digits, most significant first.
pub open spec fn octal_value(ds: Seq<char>) -> int
    decreases ds.len(),
{
    if ds.len() == 0 {
        0
    } else {
        octal_value(ds.drop_last()) * 8 + (ds.last() as int - 48)
    }
}

/// Every character is an octal digit.
pub open spec fn all_octal(ds: Seq<char>) -> bool {
    forall|i: int| 0 <= i < ds.len() ==> '0' <= #[trigger] ds[i] && ds[i] <= '7'
}

/// An unsigned 32-bit number written in octal, with an optional leading '+'
/// (what `u32::from_str_radix(s, 8)` accepts).
pub open spec fn octal_mode(s: Seq<char>) -> Option<u32> {
    let ds = if s.len() > 0 && s[0] == '+' {
        s.drop_first()
    } else {
        s
    };
    if ds.len() > 0 && all_octal(ds) && octal_value(ds) <= u32::MAX {
        Some(octal_value(ds) as u32)
    } else {
        None
    }
}

/// Extending octal digits never lowers their value.
proof fn lemma_octal_grows(ds: Seq<char>, k: int)
    requires
        all_octal(ds),
        0 <= k <= ds.len(),
    ensures
        octal_value(ds.take(k)) <= octal_value(ds),
        0 <= octal_value(ds.take(k)),
    decreases ds.len() - k,
{
    if k < ds.len() {
        lemma_octal_grows(ds, k + 1);
        assert(ds.take(k + 1).drop_last() =~= ds.take(k));
        assert(ds.take(k + 1).last() == ds[k]);
        lemma_octal_nonneg(ds.take(k));
    } else {
        assert(ds.take(k) =~= ds);
        lemma_octal_nonneg(ds);
    }
}

/// Octal values are not negative.
proof fn lemma_octal_nonneg(ds: Seq<char>)
    requires
        all_octal(ds),
    ensures
        0 <= octal_value(ds),
    decreases ds.len(),
{
    if ds.len() > 0 {
        assert(all_octal(ds.drop_last()));
        lemma_octal_nonneg(ds.drop_last());
    }
}

/// Reads a file mode written in octal.
pub fn parse_octal_mode(s: &str) -> (r: Option<u32>)
    ensures
        r == octal_mode(s@),
{
    let c = chars_of(s);
    let start: usize = if c.len() > 0 && c[0] == '+' {
        1
    } else {
        0
    };
    let ghost ds = if s@.len() > 0 && s@[0] == '+' {
        s@.drop_first()
    } else {
        s@
    };
    assert(ds =~= c@.skip(start as int));
    let n = c.len();
    if start >= n {
        return None;
    }
    let mut acc: u64 = 0;
    let mut i: usize = start;
    while i < n
        invariant
            start <= i <= n,
            n == c@.len(),
            ds == c@.skip(start as int),
            c@ == s@,
            ds == (if s@.len() > 0 && s@[0] == '+' {
                s@.drop_first()
            } else {
                s@
            }),
            forall|k: int| 0 <= k < i - start ==> '0' <= #[trigger] ds[k] && ds[k] <= '7',
            acc as int == octal_value(ds.take(i - start)),
            acc <= u32::MAX,
        decreases n - i,
    {
        let ch = c[i];
        if ch < '0' || ch > '7' {
            assert(!all_octal(ds)) by {
                assert(ds[i - start] == ch);
            }
            return None;
        }
        let d = (ch as u32 - 48) as u64;
        proof {
            assert(ds.take(i - start + 1).drop_last() =~= ds.take(i - start));
            assert(ds.take(i - start + 1).last() == ch);
        }
        acc = acc * 8 + d;
        i = i + 1;
        if acc > u32::MAX as u64 {
            proof {
                if all_octal(ds) {
                    lemma_octal_grows(ds, i - start);
                }
            }
            return None;
        }
    }
    assert(ds.take(n - start) =~= ds);
    Some(acc as u32)
}

/// The mode an upload asks for, once clamped: the octal mode without set-id and sticky
/// bits, capped at rwxr-xr-x; none when no valid mode was requested.
pub open spec fn requested_mode(mode: Option<String>) -> Option<u32> {
    match mode {
        Some(m) => match octal_mode(m@) {
            Some(v) => Some(v & 0o755u32),
            None => None,
        },
        None => None,
    }
}

/// The mode a file upload gets: the requested octal mode without set-id and sticky bits,
/// capped at rwxr-xr-x; none when no valid mode was requested.
pub fn upload_mode(mode: &Option<String>) -> (r: Option<u32>)
    ensures
        r == requested_mode(*mode),
{
    match mode {
        Some(m) => match parse_octal_mode(m.as_str()) {
            Some(v) => Some(v & 0o755u32),
            None => None,
        },
        None => None,
    }
}

/// The text base64 decoding gives for some text.
pub uninterp spec fn base64_decoded(text: Seq<char>) -> Option<Seq<u8>>;

/// Decodes standard base64 (`base64::engine::general_purpose::STANDARD.decode`); the
/// error is the decoder's message.
#[verifier::external_body]
pub(crate) fn decode_base64(text: &str) -> (r: Result<Vec<u8>, String>)
    ensures
        match base64_decoded(text@) {
            Some(b) => r matches Ok(v) && v@ == b,
            None => r is Err,
        },
{
    base64::engine::general_purpose::STANDARD.decode(text).map_err(|e| e.to_string())
}

/// What an accepted upload writes: the decoded content, and the mode to give the file
/// when a valid one was requested.
pub struct UploadContent {
    pub bytes: Vec<u8>,
    pub mode: Option<u32>,
}

impl UploadFileParams {
    /// The content and mode of an upload whose path was accepted. Content that is not
    /// base64 is refused with "Invalid base64: " and the decoder's message.
    pub fn content(&self) -> (r: Result<UploadContent, String>)
        ensures
            match base64_decoded(self.content_base64@) {
                Some(b) => r matches Ok(c) && c.bytes@ == b && c.mode == requested_mode(self.mode),
                None => r matches Err(m) && has_prefix(m@, "Invalid base64: "@),
            },
    {
        match decode_base64(self.content_base64.as_str()) {
            Ok(bytes) => Ok(UploadContent { bytes, mode: upload_mode(&self.mode) }),
            Err(e) => {
                let mut m = owned("Invalid base64: ");
                let ghost head = m@;
                m.append(e.as_str());
                assert(m@.take(head.len() as int) =~= head);
                Err(m)
            },
        }
    }
}

/// The components of a path: the root for an absolute path, a leading "." for a path
/// that starts with one, then the non-empty parts other than ".".
pub open spec fn path_components(p: Seq<char>) -> Seq<Seq<char>> {
    let parts = normal_parts(pieces_between('/', Seq::empty(), p));
    if p.len() > 0 && p[0] == '/' {
        seq![seq!['/']] + parts
    } else if p == seq!['.'] || has_prefix(p, seq!['.', '/']) {
        seq![seq!['.']] + parts
    } else {
        parts
    }
}

/// The parts that are neither empty nor ".".
pub open spec fn normal_parts(parts: Seq<Seq<char>>) -> Seq<Seq<char>>
    decreases parts.len(),
{
    if parts.len() == 0 {
        parts
    } else if parts.last().len() == 0 || parts.last() == seq!['.'] {
        normal_parts(parts.drop_last())
    } else {
        normal_parts(parts.drop_last()).push(parts.last())
    }
}

/// The components of a path.
pub fn components_of(p: &[char]) -> (r: Vec<Vec<char>>)
    ensures
        char_views(r@) == path_components(p@),
{
    let pieces = split_on(p, '/');
    let ghost pv = pieces_between('/', Seq::empty(), p@);
    let mut out: Vec<Vec<char>> = Vec::new();
    let absolute = p.len() > 0 && p[0] == '/';
    let dot_start = !absolute && ((p.len() == 1 && p[0] == '.') || (p.len() >= 2 && p[0] == '.' && p[1] == '/'));
    proof {
        if p@ == seq!['.'] {
            assert(p@.len() == 1 && p@[0] == '.');
        }
        if has_prefix(p@, seq!['.', '/']) {
            assert(p@.take(2)[0] == p@[0]);
            assert(p@.take(2)[1] == p@[1]);
        }
        if p@.len() >= 2 && p@[0] == '.' && p@[1] == '/' {
            assert(p@.take(2) =~= seq!['.', '/']);
        }
        if p@.len() == 1 && p@[0] == '.' {
            assert(p@ =~= seq!['.']);
        }
    }
    if absolute {
        let mut root: Vec<char> = Vec::new();
        root.push('/');
        out.push(root);
    } else if dot_start {
        let mut cur: Vec<char> = Vec::new();
        cur.push('.');
        out.push(cur);
    }
    let ghost head = char_views(out@);
    let n = pieces.len();
    let mut i: usize = 0;
    while i < n
        invariant
            n == pieces@.len(),
            char_views(pieces@) == pv,
            i <= n,
            char_views(out@) == head + normal_parts(pv.take(i as int)),
        decreases n - i,
    {
        proof {
            assert(pv.take(i + 1).drop_last() =~= pv.take(i as int));
            assert(pv.take(i + 1).last() == pieces@[i as int]@);
        }
        let piece = &pieces[i];
        let skip = piece.len() == 0 || (piece.len() == 1 && piece[0] == '.');
        assert(pv[i as int] == piece@);
        proof {
            if piece@ == seq!['.'] {
                assert(piece@.len() == 1 && piece@[0] == '.');
            }
            if piece@.len() == 1 && piece@[0] == '.' {
                assert(piece@ =~= seq!['.']);
            }
        }
        assert(skip == (piece@.len() == 0 || piece@ == seq!['.']));
        if !skip {
            let copy = crate::text::chars_range(piece.as_slice(), 0, piece.len());
            let ghost cv = copy@;
            let ghost before = out@;
            out.push(copy);
            assert(out@.drop_last() =~= before);
            assert(char_views(out@) =~= char_views(before).push(cv));
            assert(cv =~= piece@);
            assert(normal_parts(pv.take(i + 1)) == normal_parts(pv.take(i as int)).push(piece@));
            assert(char_views(out@) =~= head + normal_parts(pv.take(i + 1)));
        } else {
            assert(normal_parts(pv.take(i + 1)) == normal_parts(pv.take(i as int)));
        }
        i = i + 1;
    }
    assert(pv.take(n as int) =~= pv);
    proof {
        let parts = normal_parts(pv);
        if absolute {
            assert(head =~= seq![seq!['/']]);
        } else if dot_start {
            assert(head =~= seq![seq!['.']]);
        } else {
            assert(head =~= Seq::<Seq<char>>::empty());
        }
    }
    out
}

/// `path` lies in `dir`: the components of `dir` begin the components of `path`
/// (as `Path::starts_with` decides).
pub open spec fn path_within_spec(path: Seq<char>, dir: Seq<char>) -> bool {
    let a = path_components(path);
    let b = path_components(dir);
    b.len() <= a.len() && a.take(b.len() as int) == b
}

/// Whether `path` lies in `dir`.
pub fn path_within(path: &str, dir: &str) -> (r: bool)
    ensures
        r == path_within_spec(path@, dir@),
{
    let pc = chars_of(path);
    let dc = chars_of(dir);
    let a = components_of(pc.as_slice());
    let b = components_of(dc.as_slice());
    if b.len() > a.len() {
        return false;
    }
    let n = b.len();
    let mut i: usize = 0;
    while i < n
        invariant
            n == b@.len(),
            n <= a@.len(),
            i <= n,
            char_views(a@) == path_components(path@),
            char_views(b@) == path_components(dir@),
            forall|k: int| 0 <= k < i ==> a@[k]@ == b@[k]@,
        decreases n - i,
    {
        if !crate::text::chars_equal(a[i].as_slice(), b[i].as_slice()) {
            proof {
                assert(char_views(a@).take(n as int)[i as int] == a@[i as int]@);
                assert(char_views(b@)[i as int] == b@[i as int]@);
                assert(char_views(a@).take(n as int) != char_views(b@));
            }
            return false;
        }
        i = i + 1;
    }
    assert(char_views(a@).take(n as int) =~= char_views(b@));
    true
}

/// `path` lies in one of `dirs`.
pub open spec fn within_any(path: Seq<char>, dirs: Seq<String>) -> bool {
    exists|i: int| 0 <= i < dirs.len() && path_within_spec(path, #[trigger] dirs[i]@)
}

/// Whether `path` lies in one of `dirs`.
pub fn path_within_any(path: &str, dirs: &Vec<String>) -> (r: bool)
    ensures
        r == within_any(path@, dirs@),
        forall|i: int| 0 <= i < dirs@.len() && path_within_spec(path@, #[trigger] dirs@[i]@) ==> r,
        r ==> exists|i: int| 0 <= i < dirs@.len() && path_within_spec(path@, #[trigger] dirs@[i]@),
{
    let n = dirs.len();
    let mut i: usize = 0;
    while i < n
        invariant
            n == dirs@.len(),
            i <= n,
            forall|k: int| 0 <= k < i ==> !path_within_spec(path@, #[trigger] dirs@[k]@),
        decreases n - i,
    {
        if path_within(path, dirs[i].as_str()) {
            return true;
        }
        i = i + 1;
    }
    false
}

/// Whether a file may be read or written: its resolved path, or, for a file that does not
/// exist yet, its resolved parent directory, lies in an allowed directory.
pub fn path_allowed(resolved: Option<&str>, resolved_parent: Option<&str>, dirs: &Vec<String>) -> (r: bool)
    ensures
        r == match resolved {
            Some(p) => within_any(p@, dirs@),
            None => match resolved_parent {
                Some(q) => within_any(q@, dirs@),
                None => false,
            },
        },
        resolved matches Some(p) ==> forall|i: int|
            0 <= i < dirs@.len() && path_within_spec(p@, #[trigger] dirs@[i]@) ==> r,
        resolved is None ==> (resolved_parent matches Some(q) ==> forall|i: int|
            0 <= i < dirs@.len() && path_within_spec(q@, #[trigger] dirs@[i]@) ==> r),
{
    match resolved {
        Some(p) => path_within_any(p, dirs),
        None => match resolved_parent {
            Some(q) => path_within_any(q, dirs),
            None => false,
        },
    }
}

/// The first checks on a download request, in order: the link must hold up (`verdict`
/// is what checking it gave; refused with 403 and the reason), and the path must not
/// contain ".." (refused with 400).
pub fn download_gate(verdict: Result<String, &'static str>, path: &str) -> (r: Result<(), (u16, String)>)
    ensures
        match verdict {
            Err(m) => r matches Err((code, e)) && code == 403 && e@ == m@,
            Ok(_) => if has_dot_dot(path@) {
                r matches Err((code, e)) && code == 400 && e@ == "Path traversal not allowed"@
            } else {
                r is Ok
            },
        },
{
    match verdict {
        Err(m) => Err((403, owned(m))),
        Ok(_) => if has_traversal(path) {
            Err((400, owned("Path traversal not allowed")))
        } else {
            Ok(())
        },
    }
}

/// The answer to a download of a file that cannot be found.
fn not_found(path: &str) -> (e: String)
    ensures
        e@ == "File not found: "@ + path@,
{
    let mut e = owned("File not found: ");
    e.append(path);
    e
}

/// The checks on the file a download names, in order: `path` must resolve (to
/// `resolved`; refused with 404 naming the path), the resolved path must lie in an
/// allowed directory (refused with 403), its metadata must be readable (`is_file`;
/// refused with 404) and it must be a regular file (refused with 400).
pub fn download_access(path: &str, resolved: Option<&str>, dirs: &Vec<String>, is_file: Option<bool>) -> (r: Result<
    (),
    (u16, String),
>)
    ensures
        match resolved {
            None => r matches Err((code, e)) && code == 404 && e@ == "File not found: "@ + path@,
            Some(p) => if !within_any(p@, dirs@) {
                r matches Err((code, e)) && code == 403 && e@ == "Path outside allowed directories"@
            } else {
                match is_file {
                    None => r matches Err((code, e)) && code == 404 && e@ == "File not found: "@ + path@,
                    Some(false) => r matches Err((code, e)) && code == 400 && e@ == "Not a regular file"@,
                    Some(true) => r is Ok,
                }
            },
        },
{
    match resolved {
        None => Err((404, not_found(path))),
        Some(p) => if !path_within_any(p, dirs) {
            Err((403, owned("Path outside allowed directories")))
        } else {
            match is_file {
                None => Err((404, not_found(path))),
                Some(false) => Err((400, owned("Not a regular file"))),
                Some(true) => Ok(()),
            }
        },
    }
}

/// The first checks on an upload, in order: the path must not contain ".."; and where its
/// parent directory does not exist yet (and is to be created), the path as written must
/// already lie in an allowed directory, so that nothing is created elsewhere.
pub fn upload_gate(path: &str, parent_exists: bool, dirs: &Vec<String>) -> (r: Result<(), &'static str>)
    ensures
        if has_dot_dot(path@) {
            r matches Err(e) && e@ == "Path traversal not allowed"@
        } else if !parent_exists && !within_any(path@, dirs@) {
            r matches Err(e) && e@ == "Path outside allowed directories"@
        } else {
            r is Ok
        },
{
    if has_traversal(path) {
        Err("Path traversal not allowed")
    } else if !parent_exists && !path_within_any(path, dirs) {
        Err("Path outside allowed directories")
    } else {
        Ok(())
    }
}

/// The final component of a path when it names something (not the root, "." or "..").
pub open spec fn file_name_spec(p: Seq<char>) -> Option<Seq<char>> {
    let cs = path_components(p);
    if cs.len() == 0 {
        None
    } else if cs.last() == seq!['/'] || cs.last() == seq!['.'] || cs.last() == seq!['.', '.'] {
        None
    } else {
        Some(cs.last())
    }
}

/// The final component of a path, if it names something.
pub fn file_name(path: &str) -> (r: Option<String>)
    ensures
        match file_name_spec(path@) {
            Some(n) => r matches Some(s) && s@ == n,
            None => r is None,
        },
{
    let pc = chars_of(path);
    let cs = components_of(pc.as_slice());
    let n = cs.len();
    if n == 0 {
        return None;
    }
    let last = &cs[n - 1];
    assert(last@ == path_components(path@).last());
    let is_root = last.len() == 1 && last[0] == '/';
    let is_dot = last.len() == 1 && last[0] == '.';
    let is_dotdot = last.len() == 2 && last[0] == '.' && last[1] == '.';
    proof {
        if last@ == seq!['/'] || last@ == seq!['.'] {
            assert(last@.len() == 1);
        }
        if last@ == seq!['.', '.'] {
            assert(last@.len() == 2);
        }
        if last@.len() == 1 {
            assert(last@ =~= seq![last@[0]]);
        }
        if last@.len() == 2 {
            assert(last@ =~= seq![last@[0], last@[1]]);
        }
    }
    if is_root || is_dot || is_dotdot {
        return None;
    }
    Some(string_of(last.as_slice()))
}

/// The `Content-Disposition` value for serving `path` inline: its file name, or
/// "download" when it has none.
pub open spec fn inline_disposition(path: Seq<char>) -> Seq<char> {
    "inline; filename=\""@ + match file_name_spec(path) {
        Some(n) => n,
        None => "download"@,
    } + "\""@
}

/// The `Content-Disposition` value for serving `path` inline: its file name, or
/// "download" when it has none.
pub fn content_disposition(path: &str) -> (r: String)
    ensures
        r@ == inline_disposition(path@),
{
    let name = match file_name(path) {
        Some(n) => n,
        None => owned("download"),
    };
    let mut s = owned("inline; filename=\"");
    s.append(name.as_str());
    s.append("\"");
    s
}

/// The media type guessed for a path.
pub uninterp spec fn guessed_mime(path: Seq<char>) -> Seq<char>;

/// The media type of a file guessed from its extension, or
/// "application/octet-stream" (`mime_guess::from_path`, `first_or_octet_stream`).
#[verifier::external_body]
pub(crate) fn guess_mime(path: &str) -> (r: String)
    ensures
        r@ == guessed_mime(path@),
{
    mime_guess::from_path(path).first_or_octet_stream().to_string()
}

/// The headers a file is served with: its guessed media type and an inline
/// `Content-Disposition` naming it.
pub fn download_headers(path: &str) -> (r: (String, String))
    ensures
        r.0@ == guessed_mime(path@),
        r.1@ == inline_disposition(path@),
{
    (guess_mime(path), content_disposition(path))
}

/// Law: a path inside any one of the allowed directories, the first or the last alike,
/// is allowed.
pub proof fn law_every_allowed_dir_admits(path: Seq<char>, dirs: Seq<String>, i: int)
    requires
        0 <= i < dirs.len(),
        path_within_spec(path, dirs[i]@),
    ensures
        within_any(path, dirs),
{
}

/// Law: every directory lies within itself, so a file whose resolved path is an allowed
/// directory's own path is allowed.
pub proof fn law_dir_within_itself(dir: Seq<char>)
    ensures
        path_within_spec(dir, dir),
{
    assert(path_components(dir).take(path_components(dir).len() as int) =~= path_components(dir));
}

} // verus!

//! The values exchanged with a worker: jobs, results and readiness reports,
//! and the job identifier format that ties a result back to its chunk.
use vstd::prelude::*;
use crate::chars::{
    all_digits, chars_of, clone_opt_string, dec, dec_padded, digits_value, fit_usize, is_digit, lemma_pad_dec, pad_zeros,
    parse_digits,
};

verus! {

/// Current protocol version.
pub const PROTOCOL_VERSION: u32 = 1;

/// Version reported by this build in worker status records.
pub const PACKAGE_VERSION: &'static str = "0.1.0";

/// Relies on `chrono::Utc::now`: the current time as milliseconds since the Unix epoch.
#[verifier::external_body]
pub(crate) fn now_millis() -> (r: i64) {
    chrono::Utc::now().timestamp_millis()
}

// ----- job identifiers -----

/// `"<session_id>_ch<chapter:%03d>_ck<chunk:%04d>"`.
pub open spec fn job_id_spec(session_id: Seq<char>, chapter: nat, chunk: nat) -> Seq<char> {
    session_id + seq!['_', 'c', 'h'] + pad_zeros(dec(chapter), 3) + seq!['_', 'c', 'k']
        + pad_zeros(dec(chunk), 4)
}

/// Position of the last `_` in `s`, or -1.
pub open spec fn last_underscore(s: Seq<char>) -> int
    decreases s.len(),
{
    if s.len() == 0 {
        -1
    } else if s.last() == '_' {
        s.len() - 1
    } else {
        last_underscore(s.drop_last())
    }
}

/// The number of a segment `c<tag><digits>`.
pub open spec fn tagged_number(seg: Seq<char>, tag: char) -> Option<nat> {
    if seg.len() >= 2 && seg[0] == 'c' && seg[1] == tag {
        digits_value(seg.skip(2))
    } else {
        None
    }
}

/// The chunk number of a job identifier: its last `_`-separated segment, `ck<digits>`.
pub open spec fn chunk_of_job_id(s: Seq<char>) -> Option<nat> {
    let i = last_underscore(s);
    if i < 0 {
        None
    } else {
        tagged_number(s.skip(i + 1), 'k')
    }
}

/// The chapter number of a job identifier: the segment before the last, `ch<digits>`.
pub open spec fn chapter_of_job_id(s: Seq<char>) -> Option<nat> {
    let i = last_underscore(s);
    if i < 0 {
        None
    } else {
        let head = s.take(i);
        let j = last_underscore(head);
        if j < 0 {
            None
        } else {
            tagged_number(head.skip(j + 1), 'h')
        }
    }
}

proof fn lemma_last_underscore_bounds(s: Seq<char>)
    ensures
        -1 <= last_underscore(s) < s.len(),
        last_underscore(s) >= 0 ==> s[last_underscore(s)] == '_',
        forall|k: int| last_underscore(s) < k < s.len() ==> #[trigger] s[k] != '_',
    decreases s.len(),
{
    if s.len() > 0 && s.last() != '_' {
        lemma_last_underscore_bounds(s.drop_last());
        assert forall|k: int| last_underscore(s) < k < s.len() implies #[trigger] s[k] != '_' by {
            if k < s.len() - 1 {
                assert(s[k] == s.drop_last()[k]);
            }
        }
    }
}

/// The last `_` of `a + ['_'] + b` is the separator when `b` has none.
proof fn lemma_last_underscore_split(a: Seq<char>, b: Seq<char>)
    requires
        forall|k: int| 0 <= k < b.len() ==> #[trigger] b[k] != '_',
    ensures
        last_underscore(a + seq!['_'] + b) == a.len(),
    decreases b.len(),
{
    let s = a + seq!['_'] + b;
    if b.len() == 0 {
        assert(s.last() == '_');
    } else {
        assert(s.last() == b.last());
        assert(s.drop_last() =~= a + seq!['_'] + b.drop_last());
        lemma_last_underscore_split(a, b.drop_last());
    }
}

proof fn lemma_digits_no_underscore(s: Seq<char>)
    requires
        all_digits(s),
    ensures
        forall|k: int| 0 <= k < s.len() ==> #[trigger] s[k] != '_',
{
    assert forall|k: int| 0 <= k < s.len() implies #[trigger] s[k] != '_' by {
        assert(is_digit(s[k]));
    }
}

/// Reading the chapter and chunk back out of a generated job identifier
/// returns the numbers it was generated from, whatever the session identifier.
pub proof fn lemma_job_id_round_trip(session_id: Seq<char>, chapter: nat, chunk: nat)
    ensures
        chapter_of_job_id(job_id_spec(session_id, chapter, chunk)) == Some(chapter),
        chunk_of_job_id(job_id_spec(session_id, chapter, chunk)) == Some(chunk),
{
    let ch = pad_zeros(dec(chapter), 3);
    let ck = pad_zeros(dec(chunk), 4);
    lemma_pad_dec(chapter, 3);
    lemma_pad_dec(chunk, 4);
    let head = session_id + seq!['_', 'c', 'h'] + ch;
    let tail = seq!['c', 'k'] + ck;
    let s = job_id_spec(session_id, chapter, chunk);
    assert(s =~= head + seq!['_'] + tail);
    lemma_digits_no_underscore(ck);
    assert forall|k: int| 0 <= k < tail.len() implies #[trigger] tail[k] != '_' by {
        if k >= 2 {
            assert(tail[k] == ck[k - 2]);
        }
    }
    lemma_last_underscore_split(head, tail);
    assert(s.skip(head.len() as int + 1) =~= tail);
    assert(tail.skip(2) =~= ck);
    assert(s.take(head.len() as int) =~= head);
    let htail = seq!['c', 'h'] + ch;
    assert(head =~= session_id + seq!['_'] + htail);
    lemma_digits_no_underscore(ch);
    assert forall|k: int| 0 <= k < htail.len() implies #[trigger] htail[k] != '_' by {
        if k >= 2 {
            assert(htail[k] == ch[k - 2]);
        }
    }
    lemma_last_underscore_split(session_id, htail);
    assert(head.skip(session_id.len() as int + 1) =~= htail);
    assert(htail.skip(2) =~= ch);
}

/// The job identifier for a chunk of a session.
pub fn format_job_id(session_id: &str, chapter_id: usize, chunk_id: usize) -> (r: String)
    ensures
        r@ == job_id_spec(session_id@, chapter_id as nat, chunk_id as nat),
{
    let mut r = session_id.to_owned();
    r.push('_');
    r.push('c');
    r.push('h');
    let ch = dec_padded(chapter_id as u64, 3);
    let mut i: usize = 0;
    let ghost base = r@;
    while i < ch.len()
        invariant
            i <= ch@.len(),
            r@ == base + ch@.subrange(0, i as int),
        decreases ch@.len() - i,
    {
        r.push(ch[i]);
        i = i + 1;
        assert(r@ =~= base + ch@.subrange(0, i as int));
    }
    assert(ch@.subrange(0, ch@.len() as int) =~= ch@);
    r.push('_');
    r.push('c');
    r.push('k');
    let ck = dec_padded(chunk_id as u64, 4);
    let ghost base2 = r@;
    let mut j: usize = 0;
    while j < ck.len()
        invariant
            j <= ck@.len(),
            r@ == base2 + ck@.subrange(0, j as int),
        decreases ck@.len() - j,
    {
        r.push(ck[j]);
        j = j + 1;
        assert(r@ =~= base2 + ck@.subrange(0, j as int));
    }
    assert(ck@.subrange(0, ck@.len() as int) =~= ck@);
    assert(r@ =~= job_id_spec(session_id@, chapter_id as nat, chunk_id as nat));
    r
}

/// Position of the last `_` in `s[..end]`.
fn find_last_underscore(s: &Vec<char>, end: usize) -> (r: Option<usize>)
    requires
        end <= s@.len(),
    ensures
        r matches Some(i) ==> i as int == last_underscore(s@.take(end as int)),
        r is None ==> last_underscore(s@.take(end as int)) < 0,
{
    let mut k: usize = end;
    while k > 0
        invariant
            k <= end <= s@.len(),
            last_underscore(s@.take(end as int)) == last_underscore(s@.take(k as int)),
        decreases k,
    {
        assert(s@.take(k as int).drop_last() =~= s@.take(k - 1));
        if s[k - 1] == '_' {
            return Some(k - 1);
        }
        k = k - 1;
    }
    None
}

/// Reads `c<tag><digits>` at `s[from..to]`.
fn parse_tagged(s: &Vec<char>, from: usize, to: usize, tag: char) -> (r: Option<usize>)
    requires
        from <= to <= s@.len(),
    ensures
        r == fit_usize(tagged_number(s@.subrange(from as int, to as int), tag)),
{
    let ghost seg = s@.subrange(from as int, to as int);
    if to - from >= 2 && s[from] == 'c' && s[from + 1] == tag {
        assert(seg.skip(2) =~= s@.subrange(from + 2, to as int));
        parse_digits(s, from + 2, to)
    } else {
        None
    }
}

/// The chapter number carried by a job identifier.
pub fn parse_chapter_from_job_id(job_id: &str) -> (r: Option<usize>)
    ensures
        r == fit_usize(chapter_of_job_id(job_id@)),
{
    let s = chars_of(job_id);
    assert(s@.take(s@.len() as int) =~= s@);
    match find_last_underscore(&s, s.len()) {
        None => None,
        Some(i) => {
            proof {
                lemma_last_underscore_bounds(s@);
            }
            assert(s@.take(i as int) =~= s@.take(i as int).take(i as int));
            match find_last_underscore(&s, i) {
                None => None,
                Some(j) => {
                    proof {
                        lemma_last_underscore_bounds(s@.take(i as int));
                    }
                    assert(s@.take(i as int).skip(j + 1) =~= s@.subrange(j + 1, i as int));
                    parse_tagged(&s, j + 1, i, 'h')
                },
            }
        },
    }
}

/// The chunk number carried by a job identifier.
pub fn parse_chunk_from_job_id(job_id: &str) -> (r: Option<usize>)
    ensures
        r == fit_usize(chunk_of_job_id(job_id@)),
{
    let s = chars_of(job_id);
    assert(s@.take(s@.len() as int) =~= s@);
    match find_last_underscore(&s, s.len()) {
        None => None,
        Some(i) => {
            proof {
                lemma_last_underscore_bounds(s@);
            }
            assert(s@.skip(i + 1) =~= s@.subrange(i + 1, s@.len() as int));
            parse_tagged(&s, i + 1, s.len(), 'k')
        },
    }
}

// ----- job values -----

/// Synthesis parameters, held in thousandths.
#[derive(Debug)]
pub struct TtsJobOptions {
    /// Expressiveness, in thousandths (250 to 2000).
    pub exaggeration_milli: u32,
    /// Pacing weight, in thousandths (0 to 1000).
    pub cfg_milli: u32,
    /// Sampling temperature, in thousandths (50 to 5000).
    pub temperature_milli: u32,
    /// Hash of the uploaded voice reference, if one is used.
    pub voice_ref_hash: Option<String>,
}

pub open spec fn clamp_spec(v: u32, lo: u32, hi: u32) -> u32 {
    if v < lo {
        lo
    } else if v > hi {
        hi
    } else {
        v
    }
}

pub open spec fn options_in_range(o: TtsJobOptions) -> bool {
    &&& 250 <= o.exaggeration_milli <= 2000
    &&& o.cfg_milli <= 1000
    &&& 50 <= o.temperature_milli <= 5000
}

fn clamp_u32(v: u32, lo: u32, hi: u32) -> (r: u32)
    ensures
        r == clamp_spec(v, lo, hi),
{
    if v < lo {
        lo
    } else if v > hi {
        hi
    } else {
        v
    }
}

impl Default for TtsJobOptions {
    fn default() -> (r: Self)
        ensures
            r.exaggeration_milli == 500,
            r.cfg_milli == 500,
            r.temperature_milli == 800,
            r.voice_ref_hash is None,
    {
        TtsJobOptions {
            exaggeration_milli: 500,
            cfg_milli: 500,
            temperature_milli: 800,
            voice_ref_hash: None,
        }
    }
}

impl TtsJobOptions {
    /// The options with each parameter brought into its range.
    pub fn clamped(self) -> (r: Self)
        ensures
            r.exaggeration_milli == clamp_spec(self.exaggeration_milli, 250, 2000),
            r.cfg_milli == clamp_spec(self.cfg_milli, 0, 1000),
            r.temperature_milli == clamp_spec(self.temperature_milli, 50, 5000),
            r.voice_ref_hash == self.voice_ref_hash,
            options_in_range(r),
    {
        TtsJobOptions {
            exaggeration_milli: clamp_u32(self.exaggeration_milli, 250, 2000),
            cfg_milli: clamp_u32(self.cfg_milli, 0, 1000),
            temperature_milli: clamp_u32(self.temperature_milli, 50, 5000),
            voice_ref_hash: self.voice_ref_hash,
        }
    }
}

impl Clone for TtsJobOptions {
    fn clone(&self) -> (r: Self)
        ensures
            r == *self,
    {
        TtsJobOptions {
            exaggeration_milli: self.exaggeration_milli,
            cfg_milli: self.cfg_milli,
            temperature_milli: self.temperature_milli,
            voice_ref_hash: clone_opt_string(&self.voice_ref_hash),
        }
    }
}

/// A unit of synthesis work sent to a worker.
#[derive(Debug)]
pub struct TtsJob {
    /// Protocol version.
    pub version: u32,
    /// Identifier built from session, chapter and chunk.
    pub job_id: String,
    pub session_id: String,
    pub chapter_id: usize,
    pub chunk_id: usize,
    /// Text to synthesize.
    pub text: String,
    pub options: TtsJobOptions,
    /// Creation time, milliseconds since the Unix epoch.
    pub created_at_ms: i64,
}

impl Clone for TtsJob {
    fn clone(&self) -> (r: Self)
        ensures
            r == *self,
    {
        TtsJob {
            version: self.version,
            job_id: self.job_id.clone(),
            session_id: self.session_id.clone(),
            chapter_id: self.chapter_id,
            chunk_id: self.chunk_id,
            text: self.text.clone(),
            options: self.options.clone(),
            created_at_ms: self.created_at_ms,
        }
    }
}

impl TtsJob {
    /// A job for one chunk, stamped with the current time.
    pub fn new(
        session_id: &str,
        chapter_id: usize,
        chunk_id: usize,
        text: &str,
        options: TtsJobOptions,
    ) -> (r: Self)
        ensures
            r.version == PROTOCOL_VERSION,
            r.job_id@ == job_id_spec(session_id@, chapter_id as nat, chunk_id as nat),
            r.session_id@ == session_id@,
            r.chapter_id == chapter_id,
            r.chunk_id == chunk_id,
            r.text@ == text@,
            r.options == options,
    {
        TtsJob {
            version: PROTOCOL_VERSION,
            job_id: format_job_id(session_id, chapter_id, chunk_id),
            session_id: session_id.to_owned(),
            chapter_id,
            chunk_id,
            text: text.to_owned(),
            options,
            created_at_ms: now_millis(),
        }
    }
}

/// Outcome of a job on the worker.
#[derive(Debug, Clone, Copy, PartialEq, Eq, Structural)]
pub enum JobStatus {
    Completed,
    Failed,
    Timeout,
}

impl JobStatus {
    /// The wire name: `completed`, `failed` or `timeout`.
    pub fn as_str(&self) -> (r: &'static str)
        ensures
            *self == JobStatus::Completed ==> r@ == "completed"@,
            *self == JobStatus::Failed ==> r@ == "failed"@,
            *self == JobStatus::Timeout ==> r@ == "timeout"@,
    {
        match self {
            JobStatus::Completed => "completed",
            JobStatus::Failed => "failed",
            JobStatus::Timeout => "timeout",
        }
    }
}

/// What a worker reports for one job.
#[derive(Debug)]
pub struct TtsResult {
    pub version: u32,
    pub job_id: String,
    pub status: JobStatus,
    /// Synthesis time in milliseconds.
    pub duration_ms: Option<u64>,
    /// Size of the produced audio in bytes.
    pub audio_size_bytes: Option<u64>,
    /// Path of the produced audio on the worker.
    pub audio_path: Option<String>,
    /// Error text when the job did not complete.
    pub error: Option<String>,
    /// Completion time, milliseconds since the Unix epoch.
    pub completed_at_ms: i64,
}

impl Clone for TtsResult {
    fn clone(&self) -> (r: Self)
        ensures
            r == *self,
    {
        TtsResult {
            version: self.version,
            job_id: self.job_id.clone(),
            status: self.status,
            duration_ms: self.duration_ms,
            audio_size_bytes: self.audio_size_bytes,
            audio_path: clone_opt_string(&self.audio_path),
            error: clone_opt_string(&self.error),
            completed_at_ms: self.completed_at_ms,
        }
    }
}

impl TtsResult {
    /// A completed result carries an audio path; any other carries an error.
    pub open spec fn wf(&self) -> bool {
        &&& self.status == JobStatus::Completed ==> self.audio_path is Some
        &&& self.status != JobStatus::Completed ==> self.error is Some
    }

    pub fn success(job_id: &str, duration_ms: u64, audio_size_bytes: u64, audio_path: &str) -> (r: Self)
        ensures
            r.wf(),
            r.version == PROTOCOL_VERSION,
            r.job_id@ == job_id@,
            r.status == JobStatus::Completed,
            r.duration_ms == Some(duration_ms),
            r.audio_size_bytes == Some(audio_size_bytes),
            r.audio_path matches Some(p) && p@ == audio_path@,
            r.error is None,
    {
        TtsResult {
            version: PROTOCOL_VERSION,
            job_id: job_id.to_owned(),
            status: JobStatus::Completed,
            duration_ms: Some(duration_ms),
            audio_size_bytes: Some(audio_size_bytes),
            audio_path: Some(audio_path.to_owned()),
            error: None,
            completed_at_ms: now_millis(),
        }
    }

    pub fn failure(job_id: &str, error: &str) -> (r: Self)
        ensures
            r.wf(),
            r.version == PROTOCOL_VERSION,
            r.job_id@ == job_id@,
            r.status == JobStatus::Failed,
            r.duration_ms is None,
            r.audio_size_bytes is None,
            r.audio_path is None,
            r.error matches Some(e) && e@ == error@,
    {
        TtsResult {
            version: PROTOCOL_VERSION,
            job_id: job_id.to_owned(),
            status: JobStatus::Failed,
            duration_ms: None,
            audio_size_bytes: None,
            audio_path: None,
            error: Some(error.to_owned()),
            completed_at_ms: now_millis(),
        }
    }

    pub fn timeout(job_id: &str) -> (r: Self)
        ensures
            r.wf(),
            r.version == PROTOCOL_VERSION,
            r.job_id@ == job_id@,
            r.status == JobStatus::Timeout,
            r.duration_ms is None,
            r.audio_size_bytes is None,
            r.audio_path is None,
            r.error matches Some(e) && e@ == "Job timed out"@,
    {
        TtsResult {
            version: PROTOCOL_VERSION,
            job_id: job_id.to_owned(),
            status: JobStatus::Timeout,
            duration_ms: None,
            audio_size_bytes: None,
            audio_path: None,
            error: Some("Job timed out".to_owned()),
            completed_at_ms: now_millis(),
        }
    }
}

/// A worker's readiness report.
#[derive(Debug)]
pub struct WorkerStatus {
    /// Whether the worker accepts jobs.
    pub ready: bool,
    /// Compute device (cuda, mps, cpu).
    pub device: String,
    /// Software version on the worker.
    pub gena_version: String,
    /// Whether the synthesis engine is installed and loaded.
    pub chatterbox_installed: bool,
    /// Jobs being processed now.
    pub jobs_in_progress: usize,
    /// Free disk space in MB.
    pub available_disk_mb: u64,
}

impl Clone for WorkerStatus {
    fn clone(&self) -> (r: Self)
        ensures
            r == *self,
    {
        WorkerStatus {
            ready: self.ready,
            device: self.device.clone(),
            gena_version: self.gena_version.clone(),
            chatterbox_installed: self.chatterbox_installed,
            jobs_in_progress: self.jobs_in_progress,
            available_disk_mb: self.available_disk_mb,
        }
    }
}

impl WorkerStatus {
    pub fn ready(device: &str, available_disk_mb: u64) -> (r: Self)
        ensures
            r.ready,
            r.device@ == device@,
            r.gena_version@ == PACKAGE_VERSION@,
            r.chatterbox_installed,
            r.jobs_in_progress == 0,
            r.available_disk_mb == available_disk_mb,
    {
        WorkerStatus {
            ready: true,
            device: device.to_owned(),
            gena_version: PACKAGE_VERSION.to_owned(),
            chatterbox_installed: true,
            jobs_in_progress: 0,
            available_disk_mb,
        }
    }

    /// A report of a worker that does not accept jobs.
    pub fn not_ready(reason: &str) -> (r: Self)
        ensures
            !r.ready,
            r.device@ == "unknown"@,
            r.gena_version@ == PACKAGE_VERSION@,
            !r.chatterbox_installed,
            r.jobs_in_progress == 0,
            r.available_disk_mb == 0,
    {
        WorkerStatus {
            ready: false,
            device: "unknown".to_owned(),
            gena_version: PACKAGE_VERSION.to_owned(),
            chatterbox_installed: false,
            jobs_in_progress: 0,
            available_disk_mb: 0,
        }
    }
}

/// The status this build reports for itself: it does not run jobs.
pub fn get_worker_status() -> (r: WorkerStatus)
    ensures
        !r.ready,
        r.device@ == "n/a"@,
        r.gena_version@ == PACKAGE_VERSION@,
        !r.chatterbox_installed,
        r.jobs_in_progress == 0,
        r.available_disk_mb == 0,
{
    WorkerStatus {
        ready: false,
        device: "n/a".to_owned(),
        gena_version: PACKAGE_VERSION.to_owned(),
        chatterbox_installed: false,
        jobs_in_progress: 0,
        available_disk_mb: 0,
    }
}

} // verus!

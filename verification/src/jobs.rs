//! Producer-neutral background jobs: admission, ids, owner isolation,
//! lifecycle state, bounded unread output and shutdown, as one verified
//! state machine. Concurrency, producer cancellation hooks, event fan-out
//! and waiting are driven from outside through its operations.

use vstd::prelude::*;
use crate::text::{is_blank, trim, dec, opt_view, is_blank_str, decimal, copy_opt, owned};
use crate::utf8tail::{job_tail_start, job_incomplete_tail_start, lossy_utf8, utf8_lossy, decodes_as};
use crate::workspaces::{lemma_str_lt_total, lemma_str_lt_transitive};

verus! {

pub const DEFAULT_MAX_CONCURRENT_JOBS_PER_OWNER: usize = 10;
pub const DEFAULT_OUTPUT_LIMIT_BYTES: usize = 262144;
pub const DEFAULT_MAX_RETAINED_JOBS_PER_OWNER: usize = 100;
pub const DEFAULT_EVENT_CAPACITY: usize = 256;

#[derive(Clone, Copy, Debug, PartialEq, Eq, Structural)]
pub struct JobRegistryConfig {
    pub max_concurrent_jobs_per_owner: usize,
    pub default_output_limit_bytes: usize,
    pub max_retained_jobs_per_owner: usize,
    pub event_capacity: usize,
}

impl Default for JobRegistryConfig {
    fn default() -> (r: Self)
        ensures
            r.max_concurrent_jobs_per_owner == DEFAULT_MAX_CONCURRENT_JOBS_PER_OWNER,
            r.default_output_limit_bytes == DEFAULT_OUTPUT_LIMIT_BYTES,
            r.max_retained_jobs_per_owner == DEFAULT_MAX_RETAINED_JOBS_PER_OWNER,
            r.event_capacity == DEFAULT_EVENT_CAPACITY,
    {
        JobRegistryConfig {
            max_concurrent_jobs_per_owner: DEFAULT_MAX_CONCURRENT_JOBS_PER_OWNER,
            default_output_limit_bytes: DEFAULT_OUTPUT_LIMIT_BYTES,
            max_retained_jobs_per_owner: DEFAULT_MAX_RETAINED_JOBS_PER_OWNER,
            event_capacity: DEFAULT_EVENT_CAPACITY,
        }
    }
}

#[derive(Clone, Copy, Debug, PartialEq, Eq, Structural)]
pub enum JobConfigError {
    InvalidConcurrentLimit,
    InvalidOutputLimit,
    InvalidRetentionLimit,
    InvalidEventCapacity,
}

/// The first zero limit of a configuration, in declaration order.
pub open spec fn config_error(c: JobRegistryConfig) -> Option<JobConfigError> {
    if c.max_concurrent_jobs_per_owner == 0 {
        Some(JobConfigError::InvalidConcurrentLimit)
    } else if c.default_output_limit_bytes == 0 {
        Some(JobConfigError::InvalidOutputLimit)
    } else if c.max_retained_jobs_per_owner == 0 {
        Some(JobConfigError::InvalidRetentionLimit)
    } else if c.event_capacity == 0 {
        Some(JobConfigError::InvalidEventCapacity)
    } else {
        None
    }
}

impl JobRegistryConfig {
    pub fn validate(&self) -> (r: Result<(), JobConfigError>)
        ensures
            match config_error(*self) {
                None => r is Ok,
                Some(e) => r == Err::<(), JobConfigError>(e),
            },
    {
        if self.max_concurrent_jobs_per_owner == 0 {
            return Err(JobConfigError::InvalidConcurrentLimit);
        }
        if self.default_output_limit_bytes == 0 {
            return Err(JobConfigError::InvalidOutputLimit);
        }
        if self.max_retained_jobs_per_owner == 0 {
            return Err(JobConfigError::InvalidRetentionLimit);
        }
        if self.event_capacity == 0 {
            return Err(JobConfigError::InvalidEventCapacity);
        }
        Ok(())
    }
}

/// Public job id `<kind>-<ordinal>`.
#[derive(Clone, Debug, PartialEq, Eq, PartialOrd, Ord, Hash)]
pub struct JobId(String);

impl View for JobId {
    type V = Seq<char>;

    closed spec fn view(&self) -> Seq<char> {
        self.0@
    }
}

impl JobId {
    pub fn as_str(&self) -> (r: &str)
        ensures
            r@ == self@,
    {
        self.0.as_str()
    }
}

#[derive(Clone, Copy, Debug, PartialEq, Eq, Structural)]
pub enum JobStatus {
    Running,
    Stopping,
    Completed,
    Killed,
    Failed,
}

pub open spec fn terminal(s: JobStatus) -> bool {
    s == JobStatus::Completed || s == JobStatus::Killed || s == JobStatus::Failed
}

impl JobStatus {
    pub fn is_terminal(self) -> (r: bool)
        ensures
            r == terminal(self),
    {
        match self {
            JobStatus::Completed | JobStatus::Killed | JobStatus::Failed => true,
            _ => false,
        }
    }
}

#[derive(Clone, Copy, Debug, PartialEq, Eq, Structural)]
pub enum TerminalJobStatus {
    Completed,
    Killed,
    Failed,
}

pub open spec fn status_of_terminal(t: TerminalJobStatus) -> JobStatus {
    match t {
        TerminalJobStatus::Completed => JobStatus::Completed,
        TerminalJobStatus::Killed => JobStatus::Killed,
        TerminalJobStatus::Failed => JobStatus::Failed,
    }
}

impl JobStatus {
    /// The job status of a terminal outcome.
    pub fn from_terminal(value: TerminalJobStatus) -> (r: JobStatus)
        ensures
            r == status_of_terminal(value),
            terminal(r),
    {
        match value {
            TerminalJobStatus::Completed => JobStatus::Completed,
            TerminalJobStatus::Killed => JobStatus::Killed,
            TerminalJobStatus::Failed => JobStatus::Failed,
        }
    }
}

#[derive(Clone, Debug, PartialEq, Eq)]
pub struct JobOutcome {
    pub status: TerminalJobStatus,
    pub detail: Option<String>,
}

impl JobOutcome {
    pub fn completed(detail: String) -> (r: Self)
        ensures
            r.status == TerminalJobStatus::Completed,
            opt_view(r.detail) == Some(detail@),
    {
        JobOutcome { status: TerminalJobStatus::Completed, detail: Some(detail) }
    }

    pub fn killed(detail: String) -> (r: Self)
        ensures
            r.status == TerminalJobStatus::Killed,
            opt_view(r.detail) == Some(detail@),
    {
        JobOutcome { status: TerminalJobStatus::Killed, detail: Some(detail) }
    }

    pub fn failed(detail: String) -> (r: Self)
        ensures
            r.status == TerminalJobStatus::Failed,
            opt_view(r.detail) == Some(detail@),
    {
        JobOutcome { status: TerminalJobStatus::Failed, detail: Some(detail) }
    }
}

#[derive(Clone, Debug, PartialEq, Eq)]
pub struct JobSnapshot {
    pub id: JobId,
    pub kind: String,
    pub label: String,
    pub owner: String,
    pub status: JobStatus,
    pub detail: Option<String>,
    pub pid: Option<u32>,
    pub output_limit_bytes: usize,
    pub started_at_ms: u64,
    pub finished_at_ms: Option<u64>,
    pub reported: bool,
}

#[derive(Clone, Debug, PartialEq, Eq)]
pub struct JobRead {
    pub stdout: String,
    pub stderr: String,
    pub stdout_truncated: bool,
    pub stderr_truncated: bool,
    pub snapshot: JobSnapshot,
}

#[derive(Clone, Copy, Debug, PartialEq, Eq, Structural)]
pub enum KillResult {
    Requested,
    AlreadyFinished,
}

#[derive(Clone, Copy, Debug, PartialEq, Eq, Structural)]
pub enum JobEventKind {
    Started,
    Stopping,
    Finished,
}

#[derive(Clone, Debug, PartialEq, Eq)]
pub struct JobEvent {
    pub kind: JobEventKind,
    pub job: JobSnapshot,
}

#[derive(Clone, Copy, Debug, Default, PartialEq, Eq, Structural)]
pub struct JobShutdownReport {
    pub jobs: usize,
    pub cancellation_failures: usize,
    pub timed_out: usize,
}

impl JobShutdownReport {
    pub fn is_graceful(&self) -> (r: bool)
        ensures
            r == (self.cancellation_failures == 0 && self.timed_out == 0),
    {
        self.cancellation_failures == 0 && self.timed_out == 0
    }
}

#[derive(Clone, Debug, PartialEq, Eq)]
pub enum JobError {
    EmptyOwner,
    EmptyKind,
    EmptyLabel,
    InvalidOutputLimit,
    ShuttingDown,
    Capacity { limit: usize },
    ReservationExpired,
    NotFound { id: String },
    CancelFailed { id: String, message: String },
    InvalidWaitTimeout,
}

pub enum JobErrorView {
    EmptyOwner,
    EmptyKind,
    EmptyLabel,
    InvalidOutputLimit,
    ShuttingDown,
    Capacity { limit: nat },
    ReservationExpired,
    NotFound { id: Seq<char> },
    CancelFailed { id: Seq<char>, message: Seq<char> },
    InvalidWaitTimeout,
}

impl View for JobError {
    type V = JobErrorView;

    open spec fn view(&self) -> JobErrorView {
        match self {
            JobError::EmptyOwner => JobErrorView::EmptyOwner,
            JobError::EmptyKind => JobErrorView::EmptyKind,
            JobError::EmptyLabel => JobErrorView::EmptyLabel,
            JobError::InvalidOutputLimit => JobErrorView::InvalidOutputLimit,
            JobError::ShuttingDown => JobErrorView::ShuttingDown,
            JobError::Capacity { limit } => JobErrorView::Capacity { limit: *limit as nat },
            JobError::ReservationExpired => JobErrorView::ReservationExpired,
            JobError::NotFound { id } => JobErrorView::NotFound { id: id@ },
            JobError::CancelFailed { id, message } => JobErrorView::CancelFailed { id: id@, message: message@ },
            JobError::InvalidWaitTimeout => JobErrorView::InvalidWaitTimeout,
        }
    }
}

// ---------------------------------------------------------------------------
// Bounded output buffer
// ---------------------------------------------------------------------------

/// Unread output of one stream: at most `limit` most recent bytes, and how
/// many older bytes were dropped since the previous read.
pub struct OutputBuffer {
    bytes: Vec<u8>,
    dropped: u64,
    limit: usize,
}

pub struct BufferView {
    pub bytes: Seq<u8>,
    pub dropped: u64,
    pub limit: nat,
}

impl View for OutputBuffer {
    type V = BufferView;

    closed spec fn view(&self) -> BufferView {
        BufferView { bytes: self.bytes@, dropped: self.dropped, limit: self.limit as nat }
    }
}

pub open spec fn sat_add(a: u64, b: int) -> u64 {
    if a + b > u64::MAX { u64::MAX } else { (a + b) as u64 }
}

/// Appending keeps the newest `limit` bytes and counts the dropped ones.
pub open spec fn append_spec(b: BufferView, chunk: Seq<u8>) -> BufferView {
    let all = b.bytes + chunk;
    if all.len() > b.limit {
        BufferView { bytes: all.skip(all.len() - b.limit), dropped: sat_add(b.dropped, all.len() - b.limit), limit: b.limit }
    } else {
        BufferView { bytes: all, ..b }
    }
}

/// Bytes that a read hands out: everything but a cut scalar at the end.
pub open spec fn complete_len(bytes: Seq<u8>) -> int {
    match job_tail_start(bytes) {
        Some(k) => k,
        None => bytes.len() as int,
    }
}

/// Reading consumes the complete bytes, decodes them lossily and reports
/// (then clears) truncation.
pub open spec fn take_spec(b: BufferView) -> (BufferView, Seq<char>, bool) {
    let n = complete_len(b.bytes);
    (BufferView { bytes: b.bytes.skip(n), dropped: 0, ..b }, lossy_utf8(b.bytes.take(n)), b.dropped > 0)
}

/// The bytes a read hands out.
pub open spec fn complete_part(bytes: Seq<u8>) -> Seq<u8> {
    bytes.take(complete_len(bytes))
}

pub open spec fn buffer_wf(b: BufferView) -> bool {
    b.bytes.len() <= b.limit
}

impl OutputBuffer {
    pub fn new(limit: usize) -> (r: Self)
        ensures
            r@ == (BufferView { bytes: Seq::empty(), dropped: 0, limit: limit as nat }),
    {
        OutputBuffer { bytes: Vec::new(), dropped: 0, limit }
    }

    pub fn append(&mut self, chunk: &[u8])
        requires
            buffer_wf(old(self)@),
        ensures
            final(self)@ == append_spec(old(self)@, chunk@),
            buffer_wf(final(self)@),
    {
        let total = self.bytes.len() as u128 + chunk.len() as u128;
        if total <= self.limit as u128 {
            let mut i: usize = 0;
            let ghost b0 = self.bytes@;
            while i < chunk.len()
                invariant
                    i <= chunk@.len(),
                    self.bytes@ == b0 + chunk@.take(i as int),
                    self.limit == old(self).limit,
                    self.dropped == old(self).dropped,
                    b0 == old(self).bytes@,
                decreases chunk.len() - i,
            {
                self.bytes.push(chunk[i]);
                i = i + 1;
                assert(self.bytes@ =~= b0 + chunk@.take(i as int));
            }
            assert(chunk@.take(chunk@.len() as int) =~= chunk@);
        } else {
            let ghost all = self.bytes@ + chunk@;
            let overflow: usize = (total - self.limit as u128) as usize;
            let mut kept: Vec<u8> = Vec::new();
            let mut i: usize = overflow;
            let n = self.bytes.len();
            while i < n
                invariant
                    overflow <= all.len(),
                    n == self.bytes@.len(),
                    all == self.bytes@ + chunk@,
                    kept@ == all.subrange(overflow as int, if i < overflow { overflow as int } else { i as int }),
                    i >= overflow,
                i <= n || i == overflow,
                decreases n - i,
            {
                kept.push(self.bytes[i]);
                i = i + 1;
                assert(kept@ =~= all.subrange(overflow as int, i as int));
            }
            let start: usize = if overflow > n { overflow - n } else { 0 };
            let mut j: usize = start;
            assert(kept@ =~= all.subrange(overflow as int, n + j));
            while j < chunk.len()
                invariant
                    n == self.bytes@.len(),
                    all == self.bytes@ + chunk@,
                    overflow <= all.len(),
                    start <= j <= chunk@.len(),
                    n + start >= overflow,
                    kept@ == all.subrange(overflow as int, n + j),
                decreases chunk.len() - j,
            {
                kept.push(chunk[j]);
                j = j + 1;
                assert(kept@ =~= all.subrange(overflow as int, n + j));
            }
            assert(kept@ =~= all.skip(all.len() - self.limit));
            self.bytes = kept;
            self.dropped = if (self.dropped as u128) + (overflow as u128) > u64::MAX as u128 {
                u64::MAX
            } else {
                self.dropped + overflow as u64
            };
        }
    }

    pub fn take(&mut self) -> (r: (String, bool))
        requires
            buffer_wf(old(self)@),
        ensures
            (final(self)@, r.0@, r.1) == take_spec(old(self)@),
            decodes_as(complete_part(old(self)@.bytes), r.0@),
            buffer_wf(final(self)@),
    {
        let n = match job_incomplete_tail_start(self.bytes.as_slice()) {
            Some(k) => k,
            None => self.bytes.len(),
        };
        let mut complete: Vec<u8> = Vec::new();
        let mut rest: Vec<u8> = Vec::new();
        let mut i: usize = 0;
        while i < self.bytes.len()
            invariant
                n <= self.bytes@.len(),
                i <= self.bytes@.len(),
                complete@ == self.bytes@.take(if i < n { i as int } else { n as int }),
                rest@ == self.bytes@.subrange(n as int, if i < n { n as int } else { i as int }),
            decreases self.bytes.len() - i,
        {
            if i < n {
                complete.push(self.bytes[i]);
            } else {
                rest.push(self.bytes[i]);
            }
            i = i + 1;
            assert(complete@ =~= self.bytes@.take(if i < n { i as int } else { n as int }));
            assert(rest@ =~= self.bytes@.subrange(n as int, if i < n { n as int } else { i as int }));
        }
        let text = utf8_lossy(complete.as_slice());
        let truncated = self.dropped > 0;
        proof {
            assert(rest@ =~= self.bytes@.skip(n as int));
        }
        self.bytes = rest;
        self.dropped = 0;
        (text, truncated)
    }
}

// ---------------------------------------------------------------------------
// Registry model
// ---------------------------------------------------------------------------

pub struct SnapshotView {
    pub id: Seq<char>,
    pub kind: Seq<char>,
    pub label: Seq<char>,
    pub owner: Seq<char>,
    pub status: JobStatus,
    pub detail: Option<Seq<char>>,
    pub pid: Option<u32>,
    pub output_limit: nat,
    pub started_at: u64,
    pub finished_at: Option<u64>,
    pub reported: bool,
}

impl View for JobSnapshot {
    type V = SnapshotView;

    open spec fn view(&self) -> SnapshotView {
        SnapshotView {
            id: self.id@,
            kind: self.kind@,
            label: self.label@,
            owner: self.owner@,
            status: self.status,
            detail: opt_view(self.detail),
            pid: self.pid,
            output_limit: self.output_limit_bytes as nat,
            started_at: self.started_at_ms,
            finished_at: self.finished_at_ms,
            reported: self.reported,
        }
    }
}

pub struct EventView {
    pub kind: JobEventKind,
    pub job: SnapshotView,
}

impl View for JobEvent {
    type V = EventView;

    open spec fn view(&self) -> EventView {
        EventView { kind: self.kind, job: self.job@ }
    }
}

pub struct ReadView {
    pub stdout: Seq<char>,
    pub stderr: Seq<char>,
    pub stdout_truncated: bool,
    pub stderr_truncated: bool,
    pub snapshot: SnapshotView,
}

impl View for JobRead {
    type V = ReadView;

    open spec fn view(&self) -> ReadView {
        ReadView {
            stdout: self.stdout@,
            stderr: self.stderr@,
            stdout_truncated: self.stdout_truncated,
            stderr_truncated: self.stderr_truncated,
            snapshot: self.snapshot@,
        }
    }
}

/// One registered job.
pub struct EntryView {
    pub id: Seq<char>,
    pub kind: Seq<char>,
    pub label: Seq<char>,
    pub owner: Seq<char>,
    pub pid: Option<u32>,
    pub output_limit: nat,
    pub started_at: u64,
    pub status: JobStatus,
    pub detail: Option<Seq<char>>,
    pub finished_at: Option<u64>,
    pub reported: bool,
    pub revision: u64,
    pub stdout: BufferView,
    pub stderr: BufferView,
}

pub struct ReservationView {
    pub token: u64,
    pub owner: Seq<char>,
    pub kind: Seq<char>,
    pub label: Seq<char>,
    pub output_limit: nat,
}

/// Registry state: the job map in id order, the publication order, open
/// reservations and per-kind id counters.
pub struct RegistryView {
    pub config: JobRegistryConfig,
    pub accepting: bool,
    pub next_reservation: u64,
    pub reservations: Seq<(u64, Seq<char>)>,
    pub counters: Seq<(Seq<char>, u64)>,
    pub jobs: Seq<EntryView>,
    pub order: Seq<Seq<char>>,
}

pub open spec fn snapshot_of(e: EntryView) -> SnapshotView {
    SnapshotView {
        id: e.id,
        kind: e.kind,
        label: e.label,
        owner: e.owner,
        status: e.status,
        detail: e.detail,
        pid: e.pid,
        output_limit: e.output_limit,
        started_at: e.started_at,
        finished_at: e.finished_at,
        reported: e.reported,
    }
}

pub open spec fn job_index_from(jobs: Seq<EntryView>, id: Seq<char>, k: int) -> int
    decreases jobs.len() - k,
{
    if k < 0 || k >= jobs.len() {
        -1
    } else if jobs[k].id == id {
        k
    } else {
        job_index_from(jobs, id, k + 1)
    }
}

/// Position of the job with id `id`, or -1.
pub open spec fn job_index(jobs: Seq<EntryView>, id: Seq<char>) -> int {
    job_index_from(jobs, id, 0)
}

/// Active (non-terminal) jobs of `owner` among the first `n`.
pub open spec fn count_active(jobs: Seq<EntryView>, owner: Seq<char>, n: int) -> nat {
    count_where(jobs, |e: EntryView| e.owner == owner && !terminal(e.status), n)
}

/// Number of elements among the first `n` that satisfy `p`.
pub open spec fn count_where<T>(s: Seq<T>, p: spec_fn(T) -> bool, n: int) -> nat
    decreases n,
{
    if n <= 0 {
        0
    } else {
        count_where(s, p, n - 1) + if p(s[n - 1]) { 1nat } else { 0nat }
    }
}

/// Jobs of `owner` among the first `n`.
pub open spec fn count_owned(jobs: Seq<EntryView>, owner: Seq<char>, n: int) -> nat
    decreases n,
{
    if n <= 0 {
        0
    } else {
        count_owned(jobs, owner, n - 1) + if jobs[n - 1].owner == owner { 1nat } else { 0nat }
    }
}

/// Open reservations of `owner` among the first `n`.
pub open spec fn count_reserved(res: Seq<(u64, Seq<char>)>, owner: Seq<char>, n: int) -> nat {
    count_where(res, |p: (u64, Seq<char>)| p.1 == owner, n)
}

pub open spec fn active_of(v: RegistryView, owner: Seq<char>) -> nat {
    count_active(v.jobs, owner, v.jobs.len() as int)
}

pub open spec fn reserved_of(v: RegistryView, owner: Seq<char>) -> nat {
    count_reserved(v.reservations, owner, v.reservations.len() as int)
}

pub open spec fn token_index_from(res: Seq<(u64, Seq<char>)>, token: u64, k: int) -> int
    decreases res.len() - k,
{
    if k < 0 || k >= res.len() {
        -1
    } else if res[k].0 == token {
        k
    } else {
        token_index_from(res, token, k + 1)
    }
}

pub open spec fn token_index(res: Seq<(u64, Seq<char>)>, token: u64) -> int {
    token_index_from(res, token, 0)
}

/// Map insertion of a reservation token.
pub open spec fn res_insert(res: Seq<(u64, Seq<char>)>, token: u64, owner: Seq<char>) -> Seq<(u64, Seq<char>)> {
    let k = token_index(res, token);
    if k >= 0 { res.update(k, (token, owner)) } else { res.push((token, owner)) }
}

pub open spec fn counter_index_from(c: Seq<(Seq<char>, u64)>, kind: Seq<char>, k: int) -> int
    decreases c.len() - k,
{
    if k < 0 || k >= c.len() {
        -1
    } else if c[k].0 == kind {
        k
    } else {
        counter_index_from(c, kind, k + 1)
    }
}

pub open spec fn counter_value(c: Seq<(Seq<char>, u64)>, kind: Seq<char>) -> u64 {
    let k = counter_index_from(c, kind, 0);
    if k >= 0 { c[k].1 } else { 0 }
}

/// The counters after taking the next ordinal of `kind` (saturating).
pub open spec fn counters_bump(c: Seq<(Seq<char>, u64)>, kind: Seq<char>) -> Seq<(Seq<char>, u64)> {
    let k = counter_index_from(c, kind, 0);
    let n = sat_add(counter_value(c, kind), 1);
    if k >= 0 { c.update(k, (kind, n)) } else { c.push((kind, n)) }
}

/// Lexicographic order of strings by code point, which is the byte order
/// of their UTF-8 encodings.
pub open spec fn str_lt(a: Seq<char>, b: Seq<char>) -> bool
    decreases a.len(),
{
    if a.len() == 0 {
        b.len() > 0
    } else if b.len() == 0 {
        false
    } else if a[0] != b[0] {
        a[0] < b[0]
    } else {
        str_lt(a.drop_first(), b.drop_first())
    }
}

/// Where a new id goes in the id-ordered job map: the first position whose
/// id is greater.
pub open spec fn insert_pos_from(jobs: Seq<EntryView>, id: Seq<char>, k: int) -> int
    decreases jobs.len() - k,
{
    if k < 0 || k >= jobs.len() {
        jobs.len() as int
    } else if str_lt(id, jobs[k].id) {
        k
    } else {
        insert_pos_from(jobs, id, k + 1)
    }
}

/// Map insertion into the id-ordered jobs: replace an equal id, otherwise
/// insert before the first greater id.
pub open spec fn jobs_insert(jobs: Seq<EntryView>, e: EntryView) -> Seq<EntryView> {
    let k = job_index(jobs, e.id);
    if k >= 0 { jobs.update(k, e) } else { jobs.insert(insert_pos_from(jobs, e.id, 0), e) }
}

/// `order` without any occurrence of `id`.
pub open spec fn remove_all(order: Seq<Seq<char>>, id: Seq<char>) -> Seq<Seq<char>>
    decreases order.len(),
{
    if order.len() == 0 {
        order
    } else {
        let prev = remove_all(order.drop_last(), id);
        if order.last() == id { prev } else { prev.push(order.last()) }
    }
}

/// First position in `order` at or after `k` whose job belongs to `owner`
/// and is terminal, or -1.
pub open spec fn first_prunable(order: Seq<Seq<char>>, jobs: Seq<EntryView>, owner: Seq<char>, k: int) -> int
    decreases order.len() - k,
{
    if k < 0 || k >= order.len() {
        -1
    } else {
        let j = job_index(jobs, order[k]);
        if j >= 0 && jobs[j].owner == owner && terminal(jobs[j].status) {
            k
        } else {
            first_prunable(order, jobs, owner, k + 1)
        }
    }
}

pub proof fn lemma_job_index_from(jobs: Seq<EntryView>, id: Seq<char>, k: int)
    requires
        0 <= k,
    ensures
        job_index_from(jobs, id, k) == -1 || (k <= job_index_from(jobs, id, k) < jobs.len() && jobs[job_index_from(jobs, id, k)].id == id),
        job_index_from(jobs, id, k) == -1 ==> forall|j: int| k <= j < jobs.len() ==> (#[trigger] jobs[j]).id != id,
    decreases jobs.len() - k,
{
    if k < jobs.len() && jobs[k].id != id {
        lemma_job_index_from(jobs, id, k + 1);
    }
}

pub proof fn lemma_first_prunable(order: Seq<Seq<char>>, jobs: Seq<EntryView>, owner: Seq<char>, k: int)
    requires
        0 <= k,
    ensures
        first_prunable(order, jobs, owner, k) == -1 || ({
            let p = first_prunable(order, jobs, owner, k);
            let j = job_index(jobs, order[p]);
            &&& k <= p < order.len()
            &&& 0 <= j < jobs.len()
            &&& jobs[j].owner == owner
            &&& terminal(jobs[j].status)
        }),
    decreases order.len() - k,
{
    if k < order.len() {
        lemma_job_index_from(jobs, order[k], 0);
        lemma_first_prunable(order, jobs, owner, k + 1);
    }
}

/// The registry without the job `id`.
pub open spec fn remove_job(v: RegistryView, id: Seq<char>) -> RegistryView {
    let j = job_index(v.jobs, id);
    RegistryView {
        jobs: if j >= 0 { v.jobs.remove(j) } else { v.jobs },
        order: remove_all(v.order, id),
        ..v
    }
}

/// Retention: while `owner` holds at least `max` records, drop its oldest
/// terminal record (publication order). Active records are never dropped.
pub open spec fn prune_spec(v: RegistryView, owner: Seq<char>, max: nat) -> RegistryView
    decreases v.jobs.len(),
{
    if count_owned(v.jobs, owner, v.jobs.len() as int) >= max {
        let p = first_prunable(v.order, v.jobs, owner, 0);
        if p < 0 {
            v
        } else {
            let id = v.order[p];
            let j = job_index(v.jobs, id);
            if 0 <= j < v.jobs.len() {
                prune_spec(remove_job(v, id), owner, max)
            } else {
                v
            }
        }
    } else {
        v
    }
}

/// `owner`, `kind` and `label` must not be blank; the output limit defaults
/// to the configured one and must be positive; then the registry must accept
/// work and the owner must have capacity for one more job.
pub open spec fn reserve_spec(v: RegistryView, owner: Seq<char>, kind: Seq<char>, label: Seq<char>, limit: Option<nat>) -> (RegistryView, Result<ReservationView, JobErrorView>) {
    let lim = match limit {
        Some(l) => l,
        None => v.config.default_output_limit_bytes as nat,
    };
    if is_blank(owner) {
        (v, Err(JobErrorView::EmptyOwner))
    } else if is_blank(kind) {
        (v, Err(JobErrorView::EmptyKind))
    } else if is_blank(label) {
        (v, Err(JobErrorView::EmptyLabel))
    } else if lim == 0 {
        (v, Err(JobErrorView::InvalidOutputLimit))
    } else if !v.accepting {
        (v, Err(JobErrorView::ShuttingDown))
    } else if active_of(v, owner) + reserved_of(v, owner) >= v.config.max_concurrent_jobs_per_owner {
        (v, Err(JobErrorView::Capacity { limit: v.config.max_concurrent_jobs_per_owner as nat }))
    } else {
        let token = v.next_reservation;
        (
            RegistryView {
                next_reservation: sat_add(token, 1),
                reservations: res_insert(v.reservations, token, owner),
                ..v
            },
            Ok(ReservationView { token, owner, kind, label, output_limit: lim }),
        )
    }
}

/// Dropping an uncommitted reservation gives its capacity back.
pub open spec fn release_spec(v: RegistryView, token: u64) -> RegistryView {
    let k = token_index(v.reservations, token);
    if k >= 0 { RegistryView { reservations: v.reservations.remove(k), ..v } } else { v }
}

pub open spec fn job_id_for(kind: Seq<char>, ordinal: u64) -> Seq<char> {
    kind + "-"@ + dec(ordinal as nat)
}

pub open spec fn new_entry(r: ReservationView, id: Seq<char>, pid: Option<u32>, now: u64) -> EntryView {
    EntryView {
        id,
        kind: r.kind,
        label: r.label,
        owner: r.owner,
        pid,
        output_limit: r.output_limit,
        started_at: now,
        status: JobStatus::Running,
        detail: None,
        finished_at: None,
        reported: false,
        revision: 0,
        stdout: BufferView { bytes: Seq::empty(), dropped: 0, limit: r.output_limit },
        stderr: BufferView { bytes: Seq::empty(), dropped: 0, limit: r.output_limit },
    }
}

/// Publishing a started producer: the reservation must still be open for
/// the same owner; old terminal records of the owner are pruned, the kind's
/// next ordinal names the job, and a `Started` event carries its snapshot.
pub open spec fn commit_spec(v: RegistryView, r: ReservationView, pid: Option<u32>, now: u64) -> (RegistryView, Result<(Seq<char>, EventView), JobErrorView>) {
    let k = token_index(v.reservations, r.token);
    if !v.accepting {
        (v, Err(JobErrorView::ShuttingDown))
    } else if k < 0 {
        (v, Err(JobErrorView::ReservationExpired))
    } else if v.reservations[k].1 != r.owner {
        (RegistryView { reservations: v.reservations.remove(k), ..v }, Err(JobErrorView::ReservationExpired))
    } else {
        let v1 = RegistryView { reservations: v.reservations.remove(k), ..v };
        let v2 = prune_spec(v1, r.owner, v.config.max_retained_jobs_per_owner as nat);
        let ordinal = sat_add(counter_value(v2.counters, r.kind), 1);
        let id = job_id_for(r.kind, ordinal);
        let e = new_entry(r, id, pid, now);
        (
            RegistryView {
                counters: counters_bump(v2.counters, r.kind),
                jobs: jobs_insert(v2.jobs, e),
                order: v2.order.push(id),
                ..v2
            },
            Ok((id, EventView { kind: JobEventKind::Started, job: snapshot_of(e) })),
        )
    }
}

/// Snapshots of `owner`'s jobs among the first `n` published ids.
pub open spec fn list_upto(v: RegistryView, owner: Seq<char>, n: int) -> Seq<SnapshotView>
    decreases n,
{
    if n <= 0 {
        Seq::empty()
    } else {
        let prev = list_upto(v, owner, n - 1);
        let j = job_index(v.jobs, v.order[n - 1]);
        if 0 <= j < v.jobs.len() && v.jobs[j].owner == owner { prev.push(snapshot_of(v.jobs[j])) } else { prev }
    }
}

pub open spec fn list_spec(v: RegistryView, owner: Seq<char>) -> Seq<SnapshotView> {
    list_upto(v, owner, v.order.len() as int)
}

/// The job `id` visible to `owner`. Ids of other owners are reported as
/// unknown, exactly like ids that do not exist.
pub open spec fn owned_index(v: RegistryView, owner: Seq<char>, id: Seq<char>) -> int {
    let j = job_index(v.jobs, id);
    if 0 <= j < v.jobs.len() && v.jobs[j].owner == owner { j } else { -1 }
}

pub open spec fn get_spec(v: RegistryView, owner: Seq<char>, id: Seq<char>) -> Result<SnapshotView, JobErrorView> {
    let j = owned_index(v, owner, id);
    if j < 0 { Err(JobErrorView::NotFound { id }) } else { Ok(snapshot_of(v.jobs[j])) }
}

/// Reading hands out and consumes both streams' complete output; a
/// terminal job becomes reported.
pub open spec fn read_spec(v: RegistryView, owner: Seq<char>, id: Seq<char>) -> (RegistryView, Result<ReadView, JobErrorView>) {
    let j = owned_index(v, owner, id);
    if j < 0 {
        (v, Err(JobErrorView::NotFound { id }))
    } else {
        let e = v.jobs[j];
        let (out, out_text, out_trunc) = take_spec(e.stdout);
        let (err, err_text, err_trunc) = take_spec(e.stderr);
        let e2 = EntryView { stdout: out, stderr: err, reported: e.reported || terminal(e.status), ..e };
        (
            RegistryView { jobs: v.jobs.update(j, e2), ..v },
            Ok(ReadView { stdout: out_text, stderr: err_text, stdout_truncated: out_trunc, stderr_truncated: err_trunc, snapshot: snapshot_of(e2) }),
        )
    }
}

/// The end of a wait: report a settled job, return its live snapshot.
pub open spec fn wait_settle_spec(v: RegistryView, owner: Seq<char>, id: Seq<char>) -> (RegistryView, Result<SnapshotView, JobErrorView>) {
    let j = owned_index(v, owner, id);
    if j < 0 {
        (v, Err(JobErrorView::NotFound { id }))
    } else {
        let e = v.jobs[j];
        let e2 = EntryView { reported: e.reported || terminal(e.status), ..e };
        (RegistryView { jobs: v.jobs.update(j, e2), ..v }, Ok(snapshot_of(e2)))
    }
}

/// First half of a kill: a finished job is reported and needs no
/// cancellation (`Some(AlreadyFinished)`); a live one needs its producer's
/// cancellation hook to run (`None`).
pub open spec fn kill_prepare_spec(v: RegistryView, owner: Seq<char>, id: Seq<char>) -> (RegistryView, Result<Option<KillResult>, JobErrorView>) {
    let j = owned_index(v, owner, id);
    if j < 0 {
        (v, Err(JobErrorView::NotFound { id }))
    } else if terminal(v.jobs[j].status) {
        (RegistryView { jobs: v.jobs.update(j, EntryView { reported: true, ..v.jobs[j] }), ..v }, Ok(Some(KillResult::AlreadyFinished)))
    } else {
        (v, Ok(None))
    }
}

pub open spec fn bump(r: u64) -> u64 {
    sat_add(r, 1)
}

/// Second half of a kill, given the cancellation hook's result. A failed
/// hook changes nothing; otherwise a still-live job becomes `Stopping` and
/// reported, with a `Stopping` event.
pub open spec fn kill_complete_spec(v: RegistryView, owner: Seq<char>, id: Seq<char>, cancel: Result<(), Seq<char>>) -> (RegistryView, Result<KillResult, JobErrorView>, Option<EventView>) {
    let j = owned_index(v, owner, id);
    match cancel {
        Err(message) => (v, Err(JobErrorView::CancelFailed { id, message }), None),
        Ok(()) => {
            if j < 0 {
                (v, Ok(KillResult::AlreadyFinished), None)
            } else if terminal(v.jobs[j].status) {
                (RegistryView { jobs: v.jobs.update(j, EntryView { reported: true, ..v.jobs[j] }), ..v }, Ok(KillResult::AlreadyFinished), None)
            } else {
                let e2 = EntryView { status: JobStatus::Stopping, reported: true, revision: bump(v.jobs[j].revision), ..v.jobs[j] };
                (
                    RegistryView { jobs: v.jobs.update(j, e2), ..v },
                    Ok(KillResult::Requested),
                    Some(EventView { kind: JobEventKind::Stopping, job: snapshot_of(e2) }),
                )
            }
        },
    }
}

/// Output published by a producer. Empty chunks change nothing.
pub open spec fn publish_spec(v: RegistryView, id: Seq<char>, stdout: bool, chunk: Seq<u8>) -> RegistryView {
    let j = job_index(v.jobs, id);
    if chunk.len() == 0 || j < 0 {
        v
    } else {
        let e = v.jobs[j];
        let e2 = if stdout {
            EntryView { stdout: append_spec(e.stdout, chunk), revision: bump(e.revision), ..e }
        } else {
            EntryView { stderr: append_spec(e.stderr, chunk), revision: bump(e.revision), ..e }
        };
        RegistryView { jobs: v.jobs.update(j, e2), ..v }
    }
}

pub open spec fn outcome_detail(o: JobOutcome) -> Option<Seq<char>> {
    opt_view(o.detail)
}

/// Terminal settlement. The first terminal state wins: a settled job is
/// left unchanged and no event is produced.
pub open spec fn settle_spec(v: RegistryView, id: Seq<char>, status: TerminalJobStatus, detail: Option<Seq<char>>, now: u64) -> (RegistryView, Option<EventView>) {
    let j = job_index(v.jobs, id);
    if j < 0 || terminal(v.jobs[j].status) {
        (v, None)
    } else {
        let e2 = EntryView {
            status: status_of_terminal(status),
            detail,
            finished_at: Some(now),
            revision: bump(v.jobs[j].revision),
            ..v.jobs[j]
        };
        (RegistryView { jobs: v.jobs.update(j, e2), ..v }, Some(EventView { kind: JobEventKind::Finished, job: snapshot_of(e2) }))
    }
}

/// A producer acknowledged cancellation during shutdown.
pub open spec fn mark_stopping_spec(v: RegistryView, id: Seq<char>) -> (RegistryView, Option<EventView>) {
    let j = job_index(v.jobs, id);
    if j < 0 || terminal(v.jobs[j].status) {
        (v, None)
    } else {
        let e2 = EntryView { status: JobStatus::Stopping, reported: true, revision: bump(v.jobs[j].revision), ..v.jobs[j] };
        (RegistryView { jobs: v.jobs.update(j, e2), ..v }, Some(EventView { kind: JobEventKind::Stopping, job: snapshot_of(e2) }))
    }
}

/// Shutdown stops admission and drops every open reservation; it then works
/// through all jobs in id order.
pub open spec fn shutdown_begin_spec(v: RegistryView) -> (RegistryView, Seq<Seq<char>>) {
    (RegistryView { accepting: false, reservations: Seq::empty(), ..v }, v.jobs.map_values(|e: EntryView| e.id))
}

pub open spec fn initial_registry(config: JobRegistryConfig) -> RegistryView {
    RegistryView {
        config,
        accepting: true,
        next_reservation: 1,
        reservations: Seq::empty(),
        counters: Seq::empty(),
        jobs: Seq::empty(),
        order: Seq::empty(),
    }
}


// ---------------------------------------------------------------------------
// Registry implementation
// ---------------------------------------------------------------------------

struct JobEntry {
    id: JobId,
    kind: String,
    label: String,
    owner: String,
    pid: Option<u32>,
    output_limit_bytes: usize,
    started_at_ms: u64,
    status: JobStatus,
    detail: Option<String>,
    finished_at_ms: Option<u64>,
    reported: bool,
    revision: u64,
    stdout: OutputBuffer,
    stderr: OutputBuffer,
}

spec fn entry_view(e: JobEntry) -> EntryView {
    EntryView {
        id: e.id@,
        kind: e.kind@,
        label: e.label@,
        owner: e.owner@,
        pid: e.pid,
        output_limit: e.output_limit_bytes as nat,
        started_at: e.started_at_ms,
        status: e.status,
        detail: opt_view(e.detail),
        finished_at: e.finished_at_ms,
        reported: e.reported,
        revision: e.revision,
        stdout: e.stdout@,
        stderr: e.stderr@,
    }
}

/// A capacity slot held for one producer before it starts.
pub struct JobReservation {
    token: u64,
    owner: String,
    kind: String,
    label: String,
    output_limit_bytes: usize,
}

impl View for JobReservation {
    type V = ReservationView;

    closed spec fn view(&self) -> ReservationView {
        ReservationView {
            token: self.token,
            owner: self.owner@,
            kind: self.kind@,
            label: self.label@,
            output_limit: self.output_limit_bytes as nat,
        }
    }
}

/// The job registry state machine.
pub struct JobRegistry {
    config: JobRegistryConfig,
    accepting: bool,
    next_reservation: u64,
    reservations: Vec<(u64, String)>,
    counters: Vec<(String, u64)>,
    jobs: Vec<JobEntry>,
    order: Vec<JobId>,
}

impl View for JobRegistry {
    type V = RegistryView;

    closed spec fn view(&self) -> RegistryView {
        RegistryView {
            config: self.config,
            accepting: self.accepting,
            next_reservation: self.next_reservation,
            reservations: self.reservations@.map_values(|p: (u64, String)| (p.0, p.1@)),
            counters: self.counters@.map_values(|p: (String, u64)| (p.0@, p.1)),
            jobs: self.jobs@.map_values(|e: JobEntry| entry_view(e)),
            order: self.order@.map_values(|i: JobId| i@),
        }
    }
}

/// Well-formed registry state: a valid configuration, bounded buffers, and
/// no running job marked as reported.
pub open spec fn registry_wf(v: RegistryView) -> bool {
    &&& config_error(v.config) is None
    &&& forall|k: int| 0 <= k < v.jobs.len() ==> buffer_wf((#[trigger] v.jobs[k]).stdout) && buffer_wf(v.jobs[k].stderr)
    &&& forall|k: int| 0 <= k < v.jobs.len() && (#[trigger] v.jobs[k]).status == JobStatus::Running ==> !v.jobs[k].reported
}

fn snapshot(e: &JobEntry) -> (r: JobSnapshot)
    ensures
        r@ == snapshot_of(entry_view(*e)),
{
    JobSnapshot {
        id: JobId(e.id.0.clone()),
        kind: e.kind.clone(),
        label: e.label.clone(),
        owner: e.owner.clone(),
        status: e.status,
        detail: copy_opt(&e.detail),
        pid: e.pid,
        output_limit_bytes: e.output_limit_bytes,
        started_at_ms: e.started_at_ms,
        finished_at_ms: e.finished_at_ms,
        reported: e.reported,
    }
}

/// Code-point order of two strings (the byte order of their UTF-8 forms).
pub fn str_less(a: &str, b: &str) -> (r: bool)
    ensures
        r == str_lt(a@, b@),
{
    let x = crate::text::chars_of(a);
    let y = crate::text::chars_of(b);
    let mut i: usize = 0;
    assert(x@.skip(0) =~= x@);
    assert(y@.skip(0) =~= y@);
    while i < x.len() && i < y.len() && x[i] == y[i]
        invariant
            i <= x@.len(),
            i <= y@.len(),
            str_lt(a@, b@) == str_lt(x@.skip(i as int), y@.skip(i as int)),
            x@ == a@,
            y@ == b@,
        decreases x.len() - i,
    {
        proof {
            let xs = x@.skip(i as int);
            let ys = y@.skip(i as int);
            assert(xs.drop_first() =~= x@.skip(i + 1));
            assert(ys.drop_first() =~= y@.skip(i + 1));
        }
        i = i + 1;
    }
    proof {
        let xs = x@.skip(i as int);
        let ys = y@.skip(i as int);
        assert(xs.len() == x@.len() - i);
        if i < x@.len() && i < y@.len() {
            assert(xs[0] == x@[i as int]);
            assert(ys[0] == y@[i as int]);
        }
    }
    if i == x.len() {
        i < y.len()
    } else if i == y.len() {
        false
    } else {
        x[i] < y[i]
    }
}

impl JobRegistry {
    /// Construct from configuration, reporting the first zero limit.
    pub fn try_new(config: JobRegistryConfig) -> (r: Result<Self, JobConfigError>)
        ensures
            match config_error(config) {
                Some(e) => r matches Err(x) && x == e,
                None => r matches Ok(reg) && reg@ == initial_registry(config) && registry_wf(reg@),
            },
    {
        match config.validate() {
            Err(e) => Err(e),
            Ok(()) => {
                let reg = JobRegistry {
                    config,
                    accepting: true,
                    next_reservation: 1,
                    reservations: Vec::new(),
                    counters: Vec::new(),
                    jobs: Vec::new(),
                    order: Vec::new(),
                };
                assert(reg@.reservations =~= Seq::empty());
                assert(reg@.counters =~= Seq::empty());
                assert(reg@.jobs =~= Seq::empty());
                assert(reg@.order =~= Seq::empty());
                Ok(reg)
            },
        }
    }

    /// Construct from trusted static configuration.
    pub fn new(config: JobRegistryConfig) -> (r: Self)
        requires
            config_error(config) is None,
        ensures
            r@ == initial_registry(config),
            registry_wf(r@),
    {
        match Self::try_new(config) {
            Ok(r) => r,
            Err(_) => {
                assert(false);
                JobRegistry::with_defaults()
            },
        }
    }

    pub fn with_defaults() -> (r: Self)
        ensures
            r@.config.max_concurrent_jobs_per_owner == DEFAULT_MAX_CONCURRENT_JOBS_PER_OWNER,
            r@.config.default_output_limit_bytes == DEFAULT_OUTPUT_LIMIT_BYTES,
            r@.config.max_retained_jobs_per_owner == DEFAULT_MAX_RETAINED_JOBS_PER_OWNER,
            r@.config.event_capacity == DEFAULT_EVENT_CAPACITY,
            r@ == initial_registry(r@.config),
            registry_wf(r@),
    {
        let config = JobRegistryConfig {
            max_concurrent_jobs_per_owner: DEFAULT_MAX_CONCURRENT_JOBS_PER_OWNER,
            default_output_limit_bytes: DEFAULT_OUTPUT_LIMIT_BYTES,
            max_retained_jobs_per_owner: DEFAULT_MAX_RETAINED_JOBS_PER_OWNER,
            event_capacity: DEFAULT_EVENT_CAPACITY,
        };
        let reg = JobRegistry {
            config,
            accepting: true,
            next_reservation: 1,
            reservations: Vec::new(),
            counters: Vec::new(),
            jobs: Vec::new(),
            order: Vec::new(),
        };
        assert(reg@.reservations =~= Seq::empty());
        assert(reg@.counters =~= Seq::empty());
        assert(reg@.jobs =~= Seq::empty());
        assert(reg@.order =~= Seq::empty());
        reg
    }

    pub fn config(&self) -> (r: JobRegistryConfig)
        ensures
            r == self@.config,
    {
        self.config
    }

    fn find_job(&self, id: &str) -> (r: Option<usize>)
        ensures
            match r {
                Some(k) => k < self@.jobs.len() && k as int == job_index(self@.jobs, id@),
                None => job_index(self@.jobs, id@) < 0,
            },
    {
        let ghost jv = self@.jobs;
        let mut k: usize = 0;
        while k < self.jobs.len()
            invariant
                k <= self.jobs@.len(),
                jv == self@.jobs,
                jv.len() == self.jobs@.len(),
                job_index(jv, id@) == job_index_from(jv, id@, k as int),
            decreases self.jobs.len() - k,
        {
            assert(jv[k as int] == entry_view(self.jobs@[k as int]));
            if str_eq_string(&self.jobs[k].id.0, id) {
                return Some(k);
            }
            k = k + 1;
        }
        None
    }

    fn find_owned(&self, owner: &str, id: &str) -> (r: Option<usize>)
        ensures
            match r {
                Some(k) => k < self@.jobs.len() && k as int == owned_index(self@, owner@, id@),
                None => owned_index(self@, owner@, id@) < 0,
            },
    {
        match self.find_job(id) {
            None => None,
            Some(k) => {
                assert(self@.jobs[k as int] == entry_view(self.jobs@[k as int]));
                if str_eq_string(&self.jobs[k].owner, owner) { Some(k) } else { None }
            },
        }
    }

    fn token_position(&self, token: u64) -> (r: Option<usize>)
        ensures
            match r {
                Some(k) => k < self@.reservations.len() && k as int == token_index(self@.reservations, token),
                None => token_index(self@.reservations, token) < 0,
            },
    {
        let ghost rv = self@.reservations;
        let mut k: usize = 0;
        while k < self.reservations.len()
            invariant
                k <= self.reservations@.len(),
                rv == self@.reservations,
                rv.len() == self.reservations@.len(),
                token_index(rv, token) == token_index_from(rv, token, k as int),
            decreases self.reservations.len() - k,
        {
            if self.reservations[k].0 == token {
                return Some(k);
            }
            k = k + 1;
        }
        None
    }

    fn count_active_reserved(&self, owner: &str) -> (r: u64)
        ensures
            r == (if active_of(self@, owner@) + reserved_of(self@, owner@) > u64::MAX { u64::MAX as int } else { (active_of(self@, owner@) + reserved_of(self@, owner@)) as int }),
    {
        let ghost v = self@;
        let mut active: u64 = 0;
        let mut k: usize = 0;
        while k < self.jobs.len()
            invariant
                k <= self.jobs@.len(),
                v == self@,
                v.jobs.len() == self.jobs@.len(),
                active == count_active(v.jobs, owner@, k as int),
                active <= k,
            decreases self.jobs.len() - k,
        {
            assert(v.jobs[k as int] == entry_view(self.jobs@[k as int]));
            if str_eq_string(&self.jobs[k].owner, owner) && !self.jobs[k].status.is_terminal() {
                active = active + 1;
            }
            k = k + 1;
        }
        let mut reserved: u64 = 0;
        let mut k: usize = 0;
        while k < self.reservations.len()
            invariant
                k <= self.reservations@.len(),
                v == self@,
                v.reservations.len() == self.reservations@.len(),
                reserved == count_reserved(v.reservations, owner@, k as int),
                reserved <= k,
            decreases self.reservations.len() - k,
        {
            if str_eq_string(&self.reservations[k].1, owner) {
                reserved = reserved + 1;
            }
            k = k + 1;
        }
        active.saturating_add(reserved)
    }

    /// Reserve one owner capacity slot before a producer allocates
    /// resources. Releasing the reservation gives the slot back without
    /// consuming a public job id.
    pub fn reserve(&mut self, owner: String, kind: String, label: String, output_limit_bytes: Option<usize>) -> (r: Result<JobReservation, JobError>)
        requires
            registry_wf(old(self)@),
        ensures
            registry_wf(final(self)@),
            ({
                let (v2, res) = reserve_spec(old(self)@, owner@, kind@, label@, match output_limit_bytes { Some(l) => Some(l as nat), None => None });
                &&& final(self)@ == v2
                &&& match r {
                    Ok(x) => res == Ok::<ReservationView, JobErrorView>(x@),
                    Err(e) => res == Err::<ReservationView, JobErrorView>(e@),
                }
            }),
    {
        if is_blank_str(owner.as_str()) {
            return Err(JobError::EmptyOwner);
        }
        if is_blank_str(kind.as_str()) {
            return Err(JobError::EmptyKind);
        }
        if is_blank_str(label.as_str()) {
            return Err(JobError::EmptyLabel);
        }
        let limit = match output_limit_bytes {
            Some(l) => l,
            None => self.config.default_output_limit_bytes,
        };
        if limit == 0 {
            return Err(JobError::InvalidOutputLimit);
        }
        if !self.accepting {
            return Err(JobError::ShuttingDown);
        }
        let used = self.count_active_reserved(owner.as_str());
        if used >= self.config.max_concurrent_jobs_per_owner as u64 {
            return Err(JobError::Capacity { limit: self.config.max_concurrent_jobs_per_owner });
        }
        let token = self.next_reservation;
        self.next_reservation = self.next_reservation.saturating_add(1);
        let ghost before = self.reservations@;
        match self.token_position(token) {
            Some(k) => {
                self.reservations.set(k, (token, owner.clone()));
                proof {
                    assert(self@.reservations =~= res_insert(old(self)@.reservations, token, owner@));
                }
            },
            None => {
                self.reservations.push((token, owner.clone()));
                proof {
                    assert(self@.reservations =~= res_insert(old(self)@.reservations, token, owner@));
                }
            },
        }
        Ok(JobReservation { token, owner, kind, label, output_limit_bytes: limit })
    }

    /// Drop an uncommitted reservation.
    pub fn release(&mut self, reservation: &JobReservation)
        requires
            registry_wf(old(self)@),
        ensures
            registry_wf(final(self)@),
            final(self)@ == release_spec(old(self)@, reservation@.token),
    {
        match self.token_position(reservation.token) {
            Some(k) => {
                self.reservations.remove(k);
                proof {
                    assert(self@.reservations =~= old(self)@.reservations.remove(k as int));
                }
            },
            None => {},
        }
    }
}

fn str_eq_string(a: &String, b: &str) -> (r: bool)
    ensures
        r == (a@ == b@),
{
    crate::text::str_eq(a.as_str(), b)
}


impl JobRegistry {
    fn count_owned_jobs(&self, owner: &str) -> (r: usize)
        ensures
            r == count_owned(self@.jobs, owner@, self@.jobs.len() as int),
    {
        let ghost v = self@;
        let mut n: usize = 0;
        let mut k: usize = 0;
        while k < self.jobs.len()
            invariant
                k <= self.jobs@.len(),
                v == self@,
                v.jobs.len() == self.jobs@.len(),
                n == count_owned(v.jobs, owner@, k as int),
                n <= k,
            decreases self.jobs.len() - k,
        {
            assert(v.jobs[k as int] == entry_view(self.jobs@[k as int]));
            if str_eq_string(&self.jobs[k].owner, owner) {
                n = n + 1;
            }
            k = k + 1;
        }
        n
    }

    fn first_prunable_position(&self, owner: &str) -> (r: Option<usize>)
        ensures
            match r {
                Some(p) => p < self@.order.len() && p as int == first_prunable(self@.order, self@.jobs, owner@, 0),
                None => first_prunable(self@.order, self@.jobs, owner@, 0) < 0,
            },
    {
        let ghost v = self@;
        let mut k: usize = 0;
        while k < self.order.len()
            invariant
                k <= self.order@.len(),
                v == self@,
                v.order.len() == self.order@.len(),
                first_prunable(v.order, v.jobs, owner@, 0) == first_prunable(v.order, v.jobs, owner@, k as int),
            decreases self.order.len() - k,
        {
            assert(v.order[k as int] == self.order@[k as int]@);
            match self.find_job(self.order[k].0.as_str()) {
                Some(j) => {
                    assert(v.jobs[j as int] == entry_view(self.jobs@[j as int]));
                    if str_eq_string(&self.jobs[j].owner, owner) && self.jobs[j].status.is_terminal() {
                        return Some(k);
                    }
                },
                None => {},
            }
            k = k + 1;
        }
        None
    }

    fn remove_job(&mut self, id: &str)
        requires
            registry_wf(old(self)@),
        ensures
            final(self)@ == remove_job(old(self)@, id@),
            registry_wf(final(self)@),
    {
        let ghost v0 = self@;
        match self.find_job(id) {
            Some(j) => {
                self.jobs.remove(j);
                proof {
                    assert(self@.jobs =~= v0.jobs.remove(j as int));
                }
            },
            None => {},
        }
        let mut kept: Vec<JobId> = Vec::new();
        let mut i: usize = 0;
        while i < self.order.len()
            invariant
                i <= self.order@.len(),
                v0.order == self.order@.map_values(|x: JobId| x@),
                kept@.map_values(|x: JobId| x@) == remove_all(v0.order.take(i as int), id@),
            decreases self.order.len() - i,
        {
            proof {
                let t = v0.order.take(i + 1);
                assert(t.drop_last() =~= v0.order.take(i as int));
                assert(t.last() == self.order@[i as int]@);
            }
            if !str_eq_string(&self.order[i].0, id) {
                let ghost before = kept@;
                kept.push(JobId(self.order[i].0.clone()));
                proof {
                    assert(kept@.map_values(|x: JobId| x@) =~= before.map_values(|x: JobId| x@).push(self.order@[i as int]@));
                }
            }
            i = i + 1;
        }
        assert(v0.order.take(v0.order.len() as int) =~= v0.order);
        self.order = kept;
    }

    /// Retention for `owner`, run before each new job is published.
    fn prune_history(&mut self, owner: &str, max_retained: usize)
        requires
            registry_wf(old(self)@),
        ensures
            final(self)@ == prune_spec(old(self)@, owner@, max_retained as nat),
            registry_wf(final(self)@),
    {
        let ghost target = prune_spec(self@, owner@, max_retained as nat);
        loop
            invariant
                registry_wf(self@),
                prune_spec(self@, owner@, max_retained as nat) == target,
                target == prune_spec(old(self)@, owner@, max_retained as nat),
            decreases self@.jobs.len(),
        {
            if self.count_owned_jobs(owner) < max_retained {
                return;
            }
            match self.first_prunable_position(owner) {
                None => {
                    return;
                },
                Some(p) => {
                    proof { lemma_first_prunable(self@.order, self@.jobs, owner@, 0); }
                    let id = JobId(self.order[p].0.clone());
                    assert(id@ == self@.order[p as int]);
                    self.remove_job(id.0.as_str());
                },
            }
        }
    }

    fn insert_position(&self, id: &str) -> (r: usize)
        ensures
            r as int == insert_pos_from(self@.jobs, id@, 0),
            r <= self@.jobs.len(),
    {
        let ghost jv = self@.jobs;
        let mut k: usize = 0;
        while k < self.jobs.len()
            invariant
                k <= self.jobs@.len(),
                jv == self@.jobs,
                jv.len() == self.jobs@.len(),
                insert_pos_from(jv, id@, 0) == insert_pos_from(jv, id@, k as int),
            decreases self.jobs.len() - k,
        {
            assert(jv[k as int] == entry_view(self.jobs@[k as int]));
            if str_less(id, self.jobs[k].id.0.as_str()) {
                return k;
            }
            k = k + 1;
        }
        k
    }

    fn bump_counter(&mut self, kind: &String) -> (r: u64)
        requires
            registry_wf(old(self)@),
        ensures
            r == sat_add(counter_value(old(self)@.counters, kind@), 1),
            final(self)@ == (RegistryView { counters: counters_bump(old(self)@.counters, kind@), ..old(self)@ }),
            registry_wf(final(self)@),
    {
        let ghost cv = self@.counters;
        let mut k: usize = 0;
        while k < self.counters.len()
            invariant
                k <= self.counters@.len(),
                cv == self@.counters,
                self@ == old(self)@,
                registry_wf(old(self)@),
                cv.len() == self.counters@.len(),
                counter_index_from(cv, kind@, 0) == counter_index_from(cv, kind@, k as int),
            decreases self.counters.len() - k,
        {
            if self.counters[k].0 == *kind {
                let n = self.counters[k].1.saturating_add(1);
                self.counters.set(k, (kind.clone(), n));
                proof {
                    assert(self@.counters =~= counters_bump(cv, kind@));
                }
                return n;
            }
            k = k + 1;
        }
        self.counters.push((kind.clone(), 1));
        proof {
            assert(self@.counters =~= counters_bump(cv, kind@));
        }
        1
    }

    /// Atomically publish a started producer under the reservation. On an
    /// error the caller still owns (and must cancel) the producer resource.
    pub fn commit(&mut self, reservation: JobReservation, pid: Option<u32>, now_ms: u64) -> (r: Result<(JobId, JobEvent), JobError>)
        requires
            registry_wf(old(self)@),
        ensures
            registry_wf(final(self)@),
            ({
                let (v2, res) = commit_spec(old(self)@, reservation@, pid, now_ms);
                &&& final(self)@ == v2
                &&& match r {
                    Ok((id, ev)) => res == Ok::<(Seq<char>, EventView), JobErrorView>((id@, ev@)),
                    Err(e) => res == Err::<(Seq<char>, EventView), JobErrorView>(e@),
                }
            }),
    {
        let ghost rv = reservation@;
        if !self.accepting {
            return Err(JobError::ShuttingDown);
        }
        let k = match self.token_position(reservation.token) {
            None => {
                return Err(JobError::ReservationExpired);
            },
            Some(k) => k,
        };
        let same_owner = self.reservations[k].1 == reservation.owner;
        self.reservations.remove(k);
        proof {
            assert(self@.reservations =~= old(self)@.reservations.remove(k as int));
        }
        if !same_owner {
            return Err(JobError::ReservationExpired);
        }
        let max_retained = self.config.max_retained_jobs_per_owner;
        self.prune_history(reservation.owner.as_str(), max_retained);
        let ordinal = self.bump_counter(&reservation.kind);
        let digits = decimal(ordinal);
        let mut id_text = reservation.kind.clone();
        id_text.append("-");
        id_text.append(digits.as_str());
        let id = JobId(id_text);
        let limit = reservation.output_limit_bytes;
        let entry = JobEntry {
            id: JobId(id.0.clone()),
            kind: reservation.kind,
            label: reservation.label,
            owner: reservation.owner,
            pid,
            output_limit_bytes: limit,
            started_at_ms: now_ms,
            status: JobStatus::Running,
            detail: None,
            finished_at_ms: None,
            reported: false,
            revision: 0,
            stdout: OutputBuffer::new(limit),
            stderr: OutputBuffer::new(limit),
        };
        assert(entry_view(entry) == new_entry(rv, id@, pid, now_ms));
        let event = JobEvent { kind: JobEventKind::Started, job: snapshot(&entry) };
        let ghost v2 = self@;
        match self.find_job(id.0.as_str()) {
            Some(j) => {
                self.jobs.set(j, entry);
                proof {
                    assert(self@.jobs =~= jobs_insert(v2.jobs, new_entry(rv, id@, pid, now_ms)));
                }
            },
            None => {
                let pos = self.insert_position(id.0.as_str());
                self.jobs.insert(pos, entry);
                proof {
                    assert(self@.jobs =~= jobs_insert(v2.jobs, new_entry(rv, id@, pid, now_ms)));
                }
            },
        }
        self.order.push(JobId(id.0.clone()));
        proof {
            assert(self@.order =~= v2.order.push(id@));
            assert forall|k: int| 0 <= k < self@.jobs.len() implies buffer_wf((#[trigger] self@.jobs[k]).stdout) && buffer_wf(self@.jobs[k].stderr) by {
                if self@.jobs[k] != new_entry(rv, id@, pid, now_ms) {
                    assert(v2.jobs.contains(self@.jobs[k]));
                }
            }
        }
        Ok((id, event))
    }

    /// Snapshots of `owner`'s jobs in publication order.
    pub fn list(&self, owner: &str) -> (r: Vec<JobSnapshot>)
        ensures
            r@.map_values(|s: JobSnapshot| s@) == list_spec(self@, owner@),
    {
        let ghost v = self@;
        let mut out: Vec<JobSnapshot> = Vec::new();
        let mut i: usize = 0;
        while i < self.order.len()
            invariant
                i <= self.order@.len(),
                v == self@,
                v.order.len() == self.order@.len(),
                out@.map_values(|s: JobSnapshot| s@) == list_upto(v, owner@, i as int),
            decreases self.order.len() - i,
        {
            assert(v.order[i as int] == self.order@[i as int]@);
            let ghost before = out@;
            match self.find_job(self.order[i].0.as_str()) {
                Some(j) => {
                    assert(v.jobs[j as int] == entry_view(self.jobs@[j as int]));
                    if str_eq_string(&self.jobs[j].owner, owner) {
                        out.push(snapshot(&self.jobs[j]));
                    }
                },
                None => {},
            }
            proof {
                assert(out@.map_values(|s: JobSnapshot| s@) =~= list_upto(v, owner@, i + 1));
            }
            i = i + 1;
        }
        out
    }

    pub fn get(&self, owner: &str, id: &str) -> (r: Result<JobSnapshot, JobError>)
        ensures
            match r {
                Ok(s) => get_spec(self@, owner@, id@) == Ok::<SnapshotView, JobErrorView>(s@),
                Err(e) => get_spec(self@, owner@, id@) == Err::<SnapshotView, JobErrorView>(e@),
            },
    {
        match self.find_owned(owner, id) {
            None => Err(JobError::NotFound { id: owned(id) }),
            Some(j) => {
                assert(self@.jobs[j as int] == entry_view(self.jobs@[j as int]));
                Ok(snapshot(&self.jobs[j]))
            },
        }
    }

    /// The start of a wait: a zero timeout is refused before the job is
    /// looked up; otherwise the job's current snapshot. Waiting never
    /// changes the registry.
    pub fn wait_begin(&self, owner: &str, id: &str, timeout_nanos: u128) -> (r: Result<JobSnapshot, JobError>)
        ensures
            timeout_nanos == 0 ==> r == Err::<JobSnapshot, JobError>(JobError::InvalidWaitTimeout),
            timeout_nanos != 0 ==> match r {
                Ok(s) => get_spec(self@, owner@, id@) == Ok::<SnapshotView, JobErrorView>(s@),
                Err(e) => get_spec(self@, owner@, id@) == Err::<SnapshotView, JobErrorView>(e@),
            },
    {
        if timeout_nanos == 0 {
            return Err(JobError::InvalidWaitTimeout);
        }
        self.get(owner, id)
    }

    /// Consume output published since the previous read.
    pub fn read(&mut self, owner: &str, id: &str) -> (r: Result<JobRead, JobError>)
        requires
            registry_wf(old(self)@),
        ensures
            registry_wf(final(self)@),
            ({
                let (v2, res) = read_spec(old(self)@, owner@, id@);
                &&& final(self)@ == v2
                &&& match r {
                    Ok(x) => res == Ok::<ReadView, JobErrorView>(x@),
                    Err(e) => res == Err::<ReadView, JobErrorView>(e@),
                }
            }),
            r matches Ok(x) ==> {
                let e = old(self)@.jobs[owned_index(old(self)@, owner@, id@)];
                &&& decodes_as(complete_part(e.stdout.bytes), x.stdout@)
                &&& decodes_as(complete_part(e.stderr.bytes), x.stderr@)
            },
    {
        let j = match self.find_owned(owner, id) {
            None => {
                return Err(JobError::NotFound { id: owned(id) });
            },
            Some(j) => j,
        };
        let ghost v0 = self@;
        assert(v0.jobs[j as int] == entry_view(self.jobs@[j as int]));
        let mut e = self.jobs.remove(j);
        let (stdout, stdout_truncated) = e.stdout.take();
        let (stderr, stderr_truncated) = e.stderr.take();
        if e.status.is_terminal() {
            e.reported = true;
        }
        let snap = snapshot(&e);
        self.jobs.insert(j, e);
        proof {
            assert(self@.jobs =~= v0.jobs.update(j as int, entry_view(self.jobs@[j as int])));
        }
        Ok(JobRead { stdout, stderr, stdout_truncated, stderr_truncated, snapshot: snap })
    }

    /// The end of a wait (timeout or settlement): a settled job becomes
    /// reported; the live snapshot is returned either way.
    pub fn wait_settle(&mut self, owner: &str, id: &str) -> (r: Result<JobSnapshot, JobError>)
        requires
            registry_wf(old(self)@),
        ensures
            registry_wf(final(self)@),
            ({
                let (v2, res) = wait_settle_spec(old(self)@, owner@, id@);
                &&& final(self)@ == v2
                &&& match r {
                    Ok(x) => res == Ok::<SnapshotView, JobErrorView>(x@),
                    Err(e) => res == Err::<SnapshotView, JobErrorView>(e@),
                }
            }),
    {
        let j = match self.find_owned(owner, id) {
            None => {
                return Err(JobError::NotFound { id: owned(id) });
            },
            Some(j) => j,
        };
        let ghost v0 = self@;
        assert(v0.jobs[j as int] == entry_view(self.jobs@[j as int]));
        let mut e = self.jobs.remove(j);
        if e.status.is_terminal() {
            e.reported = true;
        }
        let snap = snapshot(&e);
        self.jobs.insert(j, e);
        proof {
            assert(self@.jobs =~= v0.jobs.update(j as int, entry_view(self.jobs@[j as int])));
        }
        Ok(snap)
    }

    /// First half of `kill`: `Some(AlreadyFinished)` for a settled job,
    /// `None` when the producer's cancellation hook must run next.
    pub fn kill_prepare(&mut self, owner: &str, id: &str) -> (r: Result<Option<KillResult>, JobError>)
        requires
            registry_wf(old(self)@),
        ensures
            registry_wf(final(self)@),
            ({
                let (v2, res) = kill_prepare_spec(old(self)@, owner@, id@);
                &&& final(self)@ == v2
                &&& match r {
                    Ok(x) => res == Ok::<Option<KillResult>, JobErrorView>(x),
                    Err(e) => res == Err::<Option<KillResult>, JobErrorView>(e@),
                }
            }),
    {
        let j = match self.find_owned(owner, id) {
            None => {
                return Err(JobError::NotFound { id: owned(id) });
            },
            Some(j) => j,
        };
        let ghost v0 = self@;
        assert(v0.jobs[j as int] == entry_view(self.jobs@[j as int]));
        if !self.jobs[j].status.is_terminal() {
            return Ok(None);
        }
        let mut e = self.jobs.remove(j);
        e.reported = true;
        self.jobs.insert(j, e);
        proof {
            assert(self@.jobs =~= v0.jobs.update(j as int, entry_view(self.jobs@[j as int])));
        }
        Ok(Some(KillResult::AlreadyFinished))
    }

    /// Second half of `kill`, given the cancellation hook's result.
    pub fn kill_complete(&mut self, owner: &str, id: &str, cancel: Result<(), String>) -> (r: (Result<KillResult, JobError>, Option<JobEvent>))
        requires
            registry_wf(old(self)@),
        ensures
            registry_wf(final(self)@),
            ({
                let (v2, res, ev) = kill_complete_spec(old(self)@, owner@, id@, match cancel { Ok(()) => Ok(()), Err(m) => Err(m@) });
                &&& final(self)@ == v2
                &&& match r.0 {
                    Ok(x) => res == Ok::<KillResult, JobErrorView>(x),
                    Err(e) => res == Err::<KillResult, JobErrorView>(e@),
                }
                &&& match r.1 {
                    Some(e) => ev == Some(e@),
                    None => ev is None,
                }
            }),
    {
        match cancel {
            Err(message) => {
                return (Err(JobError::CancelFailed { id: owned(id), message }), None);
            },
            Ok(()) => {},
        }
        let j = match self.find_owned(owner, id) {
            None => {
                return (Ok(KillResult::AlreadyFinished), None);
            },
            Some(j) => j,
        };
        let ghost v0 = self@;
        assert(v0.jobs[j as int] == entry_view(self.jobs@[j as int]));
        let mut e = self.jobs.remove(j);
        if e.status.is_terminal() {
            e.reported = true;
            self.jobs.insert(j, e);
            proof {
                assert(self@.jobs =~= v0.jobs.update(j as int, entry_view(self.jobs@[j as int])));
            }
            return (Ok(KillResult::AlreadyFinished), None);
        }
        e.status = JobStatus::Stopping;
        e.reported = true;
        e.revision = e.revision.saturating_add(1);
        let snap = snapshot(&e);
        self.jobs.insert(j, e);
        proof {
            assert(self@.jobs =~= v0.jobs.update(j as int, entry_view(self.jobs@[j as int])));
        }
        (Ok(KillResult::Requested), Some(JobEvent { kind: JobEventKind::Stopping, job: snap }))
    }

    /// Output published by the producer of job `id`; true when the job's
    /// state changed.
    pub fn publish(&mut self, id: &JobId, stdout: bool, chunk: &[u8]) -> (changed: bool)
        requires
            registry_wf(old(self)@),
        ensures
            registry_wf(final(self)@),
            final(self)@ == publish_spec(old(self)@, id@, stdout, chunk@),
            changed == (final(self)@ != old(self)@ || (chunk@.len() > 0 && job_index(old(self)@.jobs, id@) >= 0)),
    {
        if chunk.len() == 0 {
            return false;
        }
        let j = match self.find_job(id.0.as_str()) {
            None => {
                return false;
            },
            Some(j) => j,
        };
        let ghost v0 = self@;
        assert(v0.jobs[j as int] == entry_view(self.jobs@[j as int]));
        let mut e = self.jobs.remove(j);
        if stdout {
            e.stdout.append(chunk);
        } else {
            e.stderr.append(chunk);
        }
        e.revision = e.revision.saturating_add(1);
        self.jobs.insert(j, e);
        proof {
            assert(self@.jobs =~= v0.jobs.update(j as int, entry_view(self.jobs@[j as int])));
            assert forall|k: int| 0 <= k < self@.jobs.len() implies buffer_wf((#[trigger] self@.jobs[k]).stdout) && buffer_wf(self@.jobs[k].stderr) by {
                if k != j {
                    assert(self@.jobs[k] == v0.jobs[k]);
                }
            }
        }
        true
    }

    /// Terminal settlement of job `id`; the first terminal state wins.
    /// Returns the `Finished` event when this call settled the job.
    pub fn settle(&mut self, id: &JobId, outcome: JobOutcome, now_ms: u64) -> (r: Option<JobEvent>)
        requires
            registry_wf(old(self)@),
        ensures
            registry_wf(final(self)@),
            ({
                let (v2, ev) = settle_spec(old(self)@, id@, outcome.status, opt_view(outcome.detail), now_ms);
                &&& final(self)@ == v2
                &&& match r {
                    Some(e) => ev == Some(e@),
                    None => ev is None,
                }
            }),
    {
        let j = match self.find_job(id.0.as_str()) {
            None => {
                return None;
            },
            Some(j) => j,
        };
        let ghost v0 = self@;
        assert(v0.jobs[j as int] == entry_view(self.jobs@[j as int]));
        if self.jobs[j].status.is_terminal() {
            return None;
        }
        let mut e = self.jobs.remove(j);
        e.status = JobStatus::from_terminal(outcome.status);
        e.detail = outcome.detail;
        e.finished_at_ms = Some(now_ms);
        e.revision = e.revision.saturating_add(1);
        let snap = snapshot(&e);
        self.jobs.insert(j, e);
        proof {
            assert(self@.jobs =~= v0.jobs.update(j as int, entry_view(self.jobs@[j as int])));
        }
        Some(JobEvent { kind: JobEventKind::Finished, job: snap })
    }

    /// A producer dropped without publishing a terminal outcome: the job is
    /// force-failed so waiting and shutdown cannot hang.
    pub fn abandon(&mut self, id: &JobId, now_ms: u64) -> (r: Option<JobEvent>)
        requires
            registry_wf(old(self)@),
        ensures
            registry_wf(final(self)@),
            ({
                let (v2, ev) = settle_spec(old(self)@, id@, TerminalJobStatus::Failed, Some("job producer stopped before publishing a terminal outcome"@), now_ms);
                &&& final(self)@ == v2
                &&& match r {
                    Some(e) => ev == Some(e@),
                    None => ev is None,
                }
            }),
    {
        self.settle(id, JobOutcome::failed(owned("job producer stopped before publishing a terminal outcome")), now_ms)
    }

    /// Mark a live job as stopping and reported after its producer accepted
    /// a shutdown cancellation.
    pub fn mark_stopping_and_reported(&mut self, id: &JobId) -> (r: Option<JobEvent>)
        requires
            registry_wf(old(self)@),
        ensures
            registry_wf(final(self)@),
            ({
                let (v2, ev) = mark_stopping_spec(old(self)@, id@);
                &&& final(self)@ == v2
                &&& match r {
                    Some(e) => ev == Some(e@),
                    None => ev is None,
                }
            }),
    {
        let j = match self.find_job(id.0.as_str()) {
            None => {
                return None;
            },
            Some(j) => j,
        };
        let ghost v0 = self@;
        assert(v0.jobs[j as int] == entry_view(self.jobs@[j as int]));
        if self.jobs[j].status.is_terminal() {
            return None;
        }
        let mut e = self.jobs.remove(j);
        e.status = JobStatus::Stopping;
        e.reported = true;
        e.revision = e.revision.saturating_add(1);
        let snap = snapshot(&e);
        self.jobs.insert(j, e);
        proof {
            assert(self@.jobs =~= v0.jobs.update(j as int, entry_view(self.jobs@[j as int])));
        }
        Some(JobEvent { kind: JobEventKind::Stopping, job: snap })
    }

    /// Whether job `id` exists and has settled.
    pub fn is_settled(&self, id: &JobId) -> (r: bool)
        ensures
            r == (job_index(self@.jobs, id@) >= 0 && terminal(self@.jobs[job_index(self@.jobs, id@)].status)),
    {
        match self.find_job(id.0.as_str()) {
            None => false,
            Some(j) => {
                assert(self@.jobs[j as int] == entry_view(self.jobs@[j as int]));
                self.jobs[j].status.is_terminal()
            },
        }
    }

    /// Begin shutdown: stop admission, drop open reservations and return
    /// every job id in id order, with a report counting them.
    pub fn shutdown_begin(&mut self) -> (r: (Vec<JobId>, JobShutdownReport))
        requires
            registry_wf(old(self)@),
        ensures
            registry_wf(final(self)@),
            final(self)@ == shutdown_begin_spec(old(self)@).0,
            r.0@.map_values(|i: JobId| i@) == shutdown_begin_spec(old(self)@).1,
            r.1 == (JobShutdownReport { jobs: r.0@.len() as usize, cancellation_failures: 0, timed_out: 0 }),
    {
        self.accepting = false;
        self.reservations = Vec::new();
        let ghost v = self@;
        let mut ids: Vec<JobId> = Vec::new();
        let mut k: usize = 0;
        while k < self.jobs.len()
            invariant
                k <= self.jobs@.len(),
                v == self@,
                v.jobs.len() == self.jobs@.len(),
                ids@.map_values(|i: JobId| i@) == v.jobs.take(k as int).map_values(|e: EntryView| e.id),
            decreases self.jobs.len() - k,
        {
            assert(v.jobs[k as int] == entry_view(self.jobs@[k as int]));
            let ghost before = ids@;
            ids.push(JobId(self.jobs[k].id.0.clone()));
            proof {
                assert(ids@.map_values(|i: JobId| i@) =~= before.map_values(|i: JobId| i@).push(v.jobs[k as int].id));
                assert(v.jobs.take(k + 1).map_values(|e: EntryView| e.id) =~= v.jobs.take(k as int).map_values(|e: EntryView| e.id).push(v.jobs[k as int].id));
            }
            k = k + 1;
        }
        proof {
            assert(v.jobs.take(v.jobs.len() as int) =~= v.jobs);
            assert(self@.reservations =~= Seq::empty());
        }
        let n = ids.len();
        (ids, JobShutdownReport { jobs: n, cancellation_failures: 0, timed_out: 0 })
    }

    /// Shutdown's cancellation of one job, given its hook's result: an
    /// accepted cancellation marks the job stopping; a refused one is counted
    /// and force-fails the job.
    pub fn shutdown_cancelled(&mut self, report: &mut JobShutdownReport, id: &JobId, cancel: Result<(), String>, now_ms: u64) -> (r: Option<JobEvent>)
        requires
            registry_wf(old(self)@),
            old(report).cancellation_failures < usize::MAX,
        ensures
            registry_wf(final(self)@),
            match cancel {
                Ok(()) => {
                    let (v2, ev) = mark_stopping_spec(old(self)@, id@);
                    &&& final(self)@ == v2
                    &&& *final(report) == *old(report)
                    &&& match r {
                        Some(e) => ev == Some(e@),
                        None => ev is None,
                    }
                },
                Err(m) => {
                    let (v2, ev) = settle_spec(old(self)@, id@, TerminalJobStatus::Failed, Some("shutdown cancellation failed; producer may be orphaned: "@ + m@), now_ms);
                    &&& final(self)@ == v2
                    &&& *final(report) == (JobShutdownReport { cancellation_failures: (old(report).cancellation_failures + 1) as usize, ..*old(report) })
                    &&& match r {
                        Some(e) => ev == Some(e@),
                        None => ev is None,
                    }
                },
            },
    {
        match cancel {
            Ok(()) => self.mark_stopping_and_reported(id),
            Err(message) => {
                report.cancellation_failures = report.cancellation_failures + 1;
                let mut detail = owned("shutdown cancellation failed; producer may be orphaned: ");
                detail.append(message.as_str());
                self.settle(id, JobOutcome::failed(detail), now_ms)
            },
        }
    }

    /// Shutdown's grace period ran out for a live job: it is counted and
    /// force-failed.
    pub fn shutdown_timed_out(&mut self, report: &mut JobShutdownReport, id: &JobId, now_ms: u64) -> (r: Option<JobEvent>)
        requires
            registry_wf(old(self)@),
            old(report).timed_out < usize::MAX,
        ensures
            registry_wf(final(self)@),
            *final(report) == (JobShutdownReport { timed_out: (old(report).timed_out + 1) as usize, ..*old(report) }),
            ({
                let (v2, ev) = settle_spec(old(self)@, id@, TerminalJobStatus::Failed, Some("shutdown timed out; producer may still be running"@), now_ms);
                &&& final(self)@ == v2
                &&& match r {
                    Some(e) => ev == Some(e@),
                    None => ev is None,
                }
            }),
    {
        report.timed_out = report.timed_out + 1;
        self.settle(id, JobOutcome::failed(owned("shutdown timed out; producer may still be running")), now_ms)
    }
}


// ---------------------------------------------------------------------------
// Laws
// ---------------------------------------------------------------------------

pub open spec fn ind<T>(p: spec_fn(T) -> bool, x: T) -> nat {
    if p(x) { 1 } else { 0 }
}

pub proof fn lemma_count_bound<T>(s: Seq<T>, p: spec_fn(T) -> bool, n: int)
    ensures
        count_where(s, p, n) <= if n < 0 { 0 } else { n },
    decreases n,
{
    if n > 0 {
        lemma_count_bound(s, p, n - 1);
    }
}

pub proof fn lemma_count_update<T>(s: Seq<T>, p: spec_fn(T) -> bool, k: int, x: T, n: int)
    requires
        0 <= k < s.len(),
        0 <= n <= s.len(),
    ensures
        count_where(s.update(k, x), p, n) + (if k < n { ind(p, s[k]) } else { 0 }) == count_where(s, p, n) + (if k < n { ind(p, x) } else { 0 }),
    decreases n,
{
    if n > 0 {
        lemma_count_update(s, p, k, x, n - 1);
    }
}

pub proof fn lemma_count_remove<T>(s: Seq<T>, p: spec_fn(T) -> bool, k: int, n: int)
    requires
        0 <= k < s.len(),
        0 <= n < s.len(),
    ensures
        n < k ==> count_where(s.remove(k), p, n) == count_where(s, p, n),
        n >= k ==> count_where(s.remove(k), p, n) + ind(p, s[k]) == count_where(s, p, n + 1),
    decreases n,
{
    assert(count_where(s, p, n + 1) == count_where(s, p, n) + ind(p, s[n]));
    if n > 0 {
        lemma_count_remove(s, p, k, n - 1);
        if n - 1 >= k {
            assert(s.remove(k)[n - 1] == s[n]);
        } else {
            assert(s.remove(k)[n - 1] == s[n - 1]);
        }
    }
}

pub proof fn lemma_count_push<T>(s: Seq<T>, p: spec_fn(T) -> bool, x: T, n: int)
    requires
        0 <= n <= s.len(),
    ensures
        count_where(s.push(x), p, n) == count_where(s, p, n),
    decreases n,
{
    if n > 0 {
        lemma_count_push(s, p, x, n - 1);
    }
}

pub proof fn lemma_count_insert<T>(s: Seq<T>, p: spec_fn(T) -> bool, k: int, x: T, n: int)
    requires
        0 <= k <= s.len(),
        0 <= n <= s.len() + 1,
    ensures
        n <= k ==> count_where(s.insert(k, x), p, n) == count_where(s, p, n),
        n > k ==> count_where(s.insert(k, x), p, n) == count_where(s, p, n - 1) + ind(p, x),
    decreases n,
{
    if n > 0 {
        lemma_count_insert(s, p, k, x, n - 1);
        if n - 1 > k {
            assert(s.insert(k, x)[n - 1] == s[n - 2]);
        } else if n - 1 < k {
            assert(s.insert(k, x)[n - 1] == s[n - 1]);
        }
    }
}

/// Counting is unaffected by elements the predicate ignores.
pub proof fn lemma_count_same<T>(s: Seq<T>, t: Seq<T>, p: spec_fn(T) -> bool, n: int)
    requires
        0 <= n <= s.len(),
        n <= t.len(),
        forall|i: int| 0 <= i < n ==> p(s[i]) == p(t[i]),
    ensures
        count_where(s, p, n) == count_where(t, p, n),
    decreases n,
{
    if n > 0 {
        lemma_count_same(s, t, p, n - 1);
    }
}

/// Every owner's active jobs plus open reservations fit its capacity.
pub open spec fn within_capacity(v: RegistryView) -> bool {
    forall|o: Seq<char>| #[trigger] active_of(v, o) + reserved_of(v, o) <= v.config.max_concurrent_jobs_per_owner
}

pub open spec fn active_pred(owner: Seq<char>) -> spec_fn(EntryView) -> bool {
    |e: EntryView| e.owner == owner && !terminal(e.status)
}

pub open spec fn reserved_pred(owner: Seq<char>) -> spec_fn((u64, Seq<char>)) -> bool {
    |p: (u64, Seq<char>)| p.1 == owner
}

proof fn lemma_active_update(v: RegistryView, k: int, e: EntryView, o: Seq<char>)
    requires
        0 <= k < v.jobs.len(),
    ensures
        active_of(RegistryView { jobs: v.jobs.update(k, e), ..v }, o) + ind(active_pred(o), v.jobs[k])
            == active_of(v, o) + ind(active_pred(o), e),
{
    lemma_count_update(v.jobs, active_pred(o), k, e, v.jobs.len() as int);
    assert(active_pred(o) == (|e: EntryView| e.owner == o && !terminal(e.status)));
}

/// A status change that keeps a job's activity leaves every count alone.
proof fn lemma_active_same_activity(v: RegistryView, k: int, e: EntryView)
    requires
        0 <= k < v.jobs.len(),
        e.owner == v.jobs[k].owner,
        terminal(e.status) == terminal(v.jobs[k].status),
    ensures
        forall|o: Seq<char>| #[trigger] active_of(RegistryView { jobs: v.jobs.update(k, e), ..v }, o) == active_of(v, o),
{
    assert forall|o: Seq<char>| #[trigger] active_of(RegistryView { jobs: v.jobs.update(k, e), ..v }, o) == active_of(v, o) by {
        lemma_active_update(v, k, e, o);
    }
}

/// Removing a terminal job leaves every owner's active count alone.
proof fn lemma_remove_terminal_keeps_active(v: RegistryView, id: Seq<char>)
    requires
        job_index(v.jobs, id) >= 0 ==> terminal(v.jobs[job_index(v.jobs, id)].status),
    ensures
        forall|o: Seq<char>| #[trigger] active_of(remove_job(v, id), o) == active_of(v, o),
        remove_job(v, id).reservations == v.reservations,
        remove_job(v, id).config == v.config,
{
    lemma_job_index_from(v.jobs, id, 0);
    let j = job_index(v.jobs, id);
    if j >= 0 {
        assert forall|o: Seq<char>| #[trigger] active_of(remove_job(v, id), o) == active_of(v, o) by {
            lemma_count_remove(v.jobs, active_pred(o), j, v.jobs.len() - 1);
            assert(active_pred(o) == (|e: EntryView| e.owner == o && !terminal(e.status)));
            assert(count_where(v.jobs, active_pred(o), v.jobs.len() as int) == count_where(v.jobs, active_pred(o), (v.jobs.len() - 1) + 1));
        }
    }
}

/// Retention never touches active jobs or reservations.
pub proof fn law_prune_keeps_active_jobs(v: RegistryView, owner: Seq<char>, max: nat)
    ensures
        forall|o: Seq<char>| #[trigger] active_of(prune_spec(v, owner, max), o) == active_of(v, o),
        prune_spec(v, owner, max).reservations == v.reservations,
        prune_spec(v, owner, max).config == v.config,
        prune_spec(v, owner, max).accepting == v.accepting,
        prune_spec(v, owner, max).counters == v.counters,
    decreases v.jobs.len(),
{
    if count_owned(v.jobs, owner, v.jobs.len() as int) >= max {
        let p = first_prunable(v.order, v.jobs, owner, 0);
        lemma_first_prunable(v.order, v.jobs, owner, 0);
        if p >= 0 {
            let id = v.order[p];
            let j = job_index(v.jobs, id);
            if 0 <= j < v.jobs.len() {
                lemma_remove_terminal_keeps_active(v, id);
                law_prune_keeps_active_jobs(remove_job(v, id), owner, max);
            }
        }
    }
}

proof fn lemma_reserved_remove(v: RegistryView, k: int, o: Seq<char>)
    requires
        0 <= k < v.reservations.len(),
    ensures
        reserved_of(RegistryView { reservations: v.reservations.remove(k), ..v }, o) + ind(reserved_pred(o), v.reservations[k]) == reserved_of(v, o),
{
    lemma_count_remove(v.reservations, reserved_pred(o), k, v.reservations.len() - 1);
    assert(reserved_pred(o) == (|p: (u64, Seq<char>)| p.1 == o));
    assert(count_where(v.reservations, reserved_pred(o), v.reservations.len() as int) == count_where(v.reservations, reserved_pred(o), (v.reservations.len() - 1) + 1));
}

/// A reservation is granted only below the owner's capacity, so no owner
/// ever holds more active jobs and reservations than its limit.
pub proof fn law_reserve_keeps_capacity(v: RegistryView, owner: Seq<char>, kind: Seq<char>, label: Seq<char>, limit: Option<nat>)
    requires
        within_capacity(v),
    ensures
        within_capacity(reserve_spec(v, owner, kind, label, limit).0),
        reserve_spec(v, owner, kind, label, limit).1 is Ok ==> active_of(v, owner) + reserved_of(v, owner) < v.config.max_concurrent_jobs_per_owner,
{
    let (v2, r) = reserve_spec(v, owner, kind, label, limit);
    if r is Ok {
        let token = v.next_reservation;
        let k = token_index_from(v.reservations, token, 0);
        assert forall|o: Seq<char>| #[trigger] active_of(v2, o) + reserved_of(v2, o) <= v2.config.max_concurrent_jobs_per_owner by {
            assert(active_of(v2, o) == active_of(v, o));
            assert(active_of(v, o) + reserved_of(v, o) <= v.config.max_concurrent_jobs_per_owner);
            assert(reserved_pred(o) == (|p: (u64, Seq<char>)| p.1 == o));
            if k >= 0 {
                lemma_index_token(v.reservations, token, 0);
                lemma_count_update(v.reservations, reserved_pred(o), k, (token, owner), v.reservations.len() as int);
            } else {
                lemma_count_push(v.reservations, reserved_pred(o), (token, owner), v.reservations.len() as int);
            }
        }
    }
}

proof fn lemma_index_token(res: Seq<(u64, Seq<char>)>, token: u64, k: int)
    requires
        0 <= k,
    ensures
        token_index_from(res, token, k) == -1 || k <= token_index_from(res, token, k) < res.len(),
    decreases res.len() - k,
{
    if k < res.len() && res[k].0 != token {
        lemma_index_token(res, token, k + 1);
    }
}

/// Releasing a reservation only frees capacity.
pub proof fn law_release_keeps_capacity(v: RegistryView, token: u64)
    requires
        within_capacity(v),
    ensures
        within_capacity(release_spec(v, token)),
        release_spec(v, token).counters == v.counters,
        release_spec(v, token).jobs == v.jobs,
{
    let k = token_index(v.reservations, token);
    lemma_index_token(v.reservations, token, 0);
    if k >= 0 {
        assert forall|o: Seq<char>| #[trigger] active_of(release_spec(v, token), o) + reserved_of(release_spec(v, token), o) <= v.config.max_concurrent_jobs_per_owner by {
            lemma_reserved_remove(v, k, o);
            assert(active_of(v, o) + reserved_of(v, o) <= v.config.max_concurrent_jobs_per_owner);
        }
    }
}

/// Publishing a job turns its reservation into an active job: the owner's
/// total does not grow.
pub proof fn law_commit_keeps_capacity(v: RegistryView, r: ReservationView, pid: Option<u32>, now: u64)
    requires
        within_capacity(v),
    ensures
        within_capacity(commit_spec(v, r, pid, now).0),
{
    let k = token_index(v.reservations, r.token);
    lemma_index_token(v.reservations, r.token, 0);
    if v.accepting && k >= 0 {
        let v1 = RegistryView { reservations: v.reservations.remove(k), ..v };
        assert forall|o: Seq<char>| #[trigger] active_of(v1, o) + reserved_of(v1, o) + ind(reserved_pred(o), v.reservations[k]) <= v.config.max_concurrent_jobs_per_owner by {
            lemma_reserved_remove(v, k, o);
            assert(active_of(v, o) + reserved_of(v, o) <= v.config.max_concurrent_jobs_per_owner);
        }
        if v.reservations[k].1 == r.owner {
            let v2 = prune_spec(v1, r.owner, v.config.max_retained_jobs_per_owner as nat);
            law_prune_keeps_active_jobs(v1, r.owner, v.config.max_retained_jobs_per_owner as nat);
            let ordinal = sat_add(counter_value(v2.counters, r.kind), 1);
            let id = job_id_for(r.kind, ordinal);
            let e = new_entry(r, id, pid, now);
            let v3 = commit_spec(v, r, pid, now).0;
            let j = job_index(v2.jobs, id);
            lemma_job_index_from(v2.jobs, id, 0);
            assert forall|o: Seq<char>| #[trigger] active_of(v3, o) + reserved_of(v3, o) <= v3.config.max_concurrent_jobs_per_owner by {
                assert(active_of(v1, o) + reserved_of(v1, o) + ind(reserved_pred(o), v.reservations[k]) <= v.config.max_concurrent_jobs_per_owner);
                assert(active_of(v2, o) == active_of(v1, o));
                assert(reserved_of(v3, o) == reserved_of(v1, o));
                assert(active_pred(o) == (|e: EntryView| e.owner == o && !terminal(e.status)));
                assert(reserved_pred(o) == (|p: (u64, Seq<char>)| p.1 == o));
                if j >= 0 {
                    lemma_count_update(v2.jobs, active_pred(o), j, e, v2.jobs.len() as int);
                } else {
                    let pos = insert_pos_from(v2.jobs, id, 0);
                    lemma_insert_pos(v2.jobs, id, 0);
                    lemma_count_insert(v2.jobs, active_pred(o), pos, e, (v2.jobs.len() + 1) as int);
                }
            }
        }
    }
}

proof fn lemma_insert_pos(jobs: Seq<EntryView>, id: Seq<char>, k: int)
    requires
        0 <= k <= jobs.len(),
    ensures
        k <= insert_pos_from(jobs, id, k) <= jobs.len(),
    decreases jobs.len() - k,
{
    if k < jobs.len() && !str_lt(id, jobs[k].id) {
        lemma_insert_pos(jobs, id, k + 1);
    }
}

/// Settling, stopping, reading, publishing output and shutdown never raise
/// any owner's load.
pub proof fn law_lifecycle_keeps_capacity(v: RegistryView, owner: Seq<char>, id: Seq<char>, status: TerminalJobStatus, detail: Option<Seq<char>>, now: u64, cancel: Result<(), Seq<char>>, stdout: bool, chunk: Seq<u8>)
    requires
        within_capacity(v),
    ensures
        within_capacity(settle_spec(v, id, status, detail, now).0),
        within_capacity(mark_stopping_spec(v, id).0),
        within_capacity(kill_prepare_spec(v, owner, id).0),
        within_capacity(kill_complete_spec(v, owner, id, cancel).0),
        within_capacity(read_spec(v, owner, id).0),
        within_capacity(wait_settle_spec(v, owner, id).0),
        within_capacity(publish_spec(v, id, stdout, chunk)),
        within_capacity(shutdown_begin_spec(v).0),
{
    lemma_job_index_from(v.jobs, id, 0);
    let j = job_index(v.jobs, id);
    if j >= 0 {
        let (v2, _) = settle_spec(v, id, status, detail, now);
        if !terminal(v.jobs[j].status) {
            assert forall|o: Seq<char>| #[trigger] active_of(v2, o) + reserved_of(v2, o) <= v2.config.max_concurrent_jobs_per_owner by {
                lemma_active_update(v, j, v2.jobs[j], o);
                assert(active_of(v, o) + reserved_of(v, o) <= v.config.max_concurrent_jobs_per_owner);
            }
            lemma_active_same_activity(v, j, mark_stopping_spec(v, id).0.jobs[j]);
            assert(mark_stopping_spec(v, id).0.jobs == v.jobs.update(j, mark_stopping_spec(v, id).0.jobs[j]));
        }
        if chunk.len() > 0 {
            lemma_active_same_activity(v, j, publish_spec(v, id, stdout, chunk).jobs[j]);
            assert(publish_spec(v, id, stdout, chunk).jobs == v.jobs.update(j, publish_spec(v, id, stdout, chunk).jobs[j]));
        }
        let oi = owned_index(v, owner, id);
        if oi >= 0 {
            lemma_active_same_activity(v, oi, read_spec(v, owner, id).0.jobs[oi]);
            assert(read_spec(v, owner, id).0.jobs == v.jobs.update(oi, read_spec(v, owner, id).0.jobs[oi]));
            lemma_active_same_activity(v, oi, wait_settle_spec(v, owner, id).0.jobs[oi]);
            assert(wait_settle_spec(v, owner, id).0.jobs == v.jobs.update(oi, wait_settle_spec(v, owner, id).0.jobs[oi]));
            if terminal(v.jobs[oi].status) {
                lemma_active_same_activity(v, oi, kill_prepare_spec(v, owner, id).0.jobs[oi]);
                assert(kill_prepare_spec(v, owner, id).0.jobs == v.jobs.update(oi, kill_prepare_spec(v, owner, id).0.jobs[oi]));
            }
            if cancel is Ok {
                lemma_active_same_activity(v, oi, kill_complete_spec(v, owner, id, cancel).0.jobs[oi]);
                assert(kill_complete_spec(v, owner, id, cancel).0.jobs == v.jobs.update(oi, kill_complete_spec(v, owner, id, cancel).0.jobs[oi]));
            }
        }
    }
    assert forall|o: Seq<char>| #[trigger] active_of(shutdown_begin_spec(v).0, o) + reserved_of(shutdown_begin_spec(v).0, o) <= v.config.max_concurrent_jobs_per_owner by {
        assert(active_of(v, o) + reserved_of(v, o) <= v.config.max_concurrent_jobs_per_owner);
        assert(reserved_of(shutdown_begin_spec(v).0, o) == 0);
    }
}


/// The first terminal state wins: once a job has settled, settling or
/// stopping it again changes nothing, and a kill only marks it reported.
pub proof fn law_first_terminal_state_wins(v: RegistryView, owner: Seq<char>, id: Seq<char>, status: TerminalJobStatus, detail: Option<Seq<char>>, now: u64)
    requires
        job_index(v.jobs, id) >= 0,
        terminal(v.jobs[job_index(v.jobs, id)].status),
    ensures
        settle_spec(v, id, status, detail, now) == (v, None::<EventView>),
        mark_stopping_spec(v, id) == (v, None::<EventView>),
        kill_complete_spec(v, owner, id, Ok(())).1 == Ok::<KillResult, JobErrorView>(KillResult::AlreadyFinished),
        kill_complete_spec(v, owner, id, Ok(())).2 is None,
        kill_complete_spec(v, owner, id, Ok(())).0.jobs.len() == v.jobs.len(),
        kill_complete_spec(v, owner, id, Ok(())).0.jobs[job_index(v.jobs, id)].status == v.jobs[job_index(v.jobs, id)].status,
{
    lemma_job_index_from(v.jobs, id, 0);
}

/// Settling a live job ends it with the outcome's status, detail and the
/// finish time, announces it as finished, leaves every other job as it was,
/// and frees one capacity slot of its owner and none of anyone else's.
pub proof fn law_settling_ends_a_live_job(v: RegistryView, id: Seq<char>, status: TerminalJobStatus, detail: Option<Seq<char>>, now: u64)
    requires
        job_index(v.jobs, id) >= 0,
        !terminal(v.jobs[job_index(v.jobs, id)].status),
    ensures
        ({
            let j = job_index(v.jobs, id);
            let (v2, ev) = settle_spec(v, id, status, detail, now);
            &&& v2.jobs.len() == v.jobs.len()
            &&& v2.jobs[j].id == id
            &&& v2.jobs[j].status == status_of_terminal(status)
            &&& terminal(v2.jobs[j].status)
            &&& v2.jobs[j].detail == detail
            &&& v2.jobs[j].finished_at == Some(now)
            &&& forall|i: int| 0 <= i < v.jobs.len() && i != j ==> v2.jobs[i] == v.jobs[i]
            &&& ev == Some(EventView { kind: JobEventKind::Finished, job: snapshot_of(v2.jobs[j]) })
            &&& active_of(v2, v.jobs[j].owner) + 1 == active_of(v, v.jobs[j].owner)
            &&& forall|o: Seq<char>| o != v.jobs[j].owner ==> #[trigger] active_of(v2, o) == active_of(v, o)
            &&& v2.reservations == v.reservations
        }),
{
    lemma_job_index_from(v.jobs, id, 0);
    let j = job_index(v.jobs, id);
    let e2 = settle_spec(v, id, status, detail, now).0.jobs[j];
    lemma_active_update(v, j, e2, v.jobs[j].owner);
    assert forall|o: Seq<char>| o != v.jobs[j].owner implies #[trigger] active_of(settle_spec(v, id, status, detail, now).0, o) == active_of(v, o) by {
        lemma_active_update(v, j, e2, o);
    }
}

/// The registry's maps stay maps: job records are held in ascending id
/// order without repeats, and each kind has one ordinal counter.
pub open spec fn registry_keyed(v: RegistryView) -> bool {
    &&& forall|a: int, b: int| 0 <= a < b < v.jobs.len() ==> str_lt((#[trigger] v.jobs[a]).id, (#[trigger] v.jobs[b]).id)
    &&& forall|a: int, b: int| 0 <= a < b < v.counters.len() ==> (#[trigger] v.counters[a]).0 != (#[trigger] v.counters[b]).0
}

proof fn lemma_keyed_same_keys(v: RegistryView, v2: RegistryView)
    requires
        registry_keyed(v),
        v2.counters == v.counters,
        v2.jobs.len() == v.jobs.len(),
        forall|i: int| 0 <= i < v.jobs.len() ==> (#[trigger] v2.jobs[i]).id == v.jobs[i].id,
    ensures
        registry_keyed(v2),
{
    assert forall|a: int, b: int| 0 <= a < b < v2.jobs.len() implies str_lt((#[trigger] v2.jobs[a]).id, (#[trigger] v2.jobs[b]).id) by {
        assert(v2.jobs[a].id == v.jobs[a].id && v2.jobs[b].id == v.jobs[b].id);
        assert(str_lt(v.jobs[a].id, v.jobs[b].id));
    }
}

proof fn lemma_keyed_remove_job(v: RegistryView, id: Seq<char>)
    requires
        registry_keyed(v),
    ensures
        registry_keyed(remove_job(v, id)),
{
    let j = job_index(v.jobs, id);
    lemma_job_index_from(v.jobs, id, 0);
    if j >= 0 {
        let s = v.jobs.remove(j);
        assert forall|a: int, b: int| 0 <= a < b < s.len() implies str_lt((#[trigger] s[a]).id, (#[trigger] s[b]).id) by {
            let a0 = if a < j { a } else { a + 1 };
            let b0 = if b < j { b } else { b + 1 };
            assert(s[a] == v.jobs[a0] && s[b] == v.jobs[b0]);
            assert(str_lt(v.jobs[a0].id, v.jobs[b0].id));
        }
    }
}

proof fn lemma_keyed_prune(v: RegistryView, owner: Seq<char>, max: nat)
    requires
        registry_keyed(v),
    ensures
        registry_keyed(prune_spec(v, owner, max)),
    decreases v.jobs.len(),
{
    if count_owned(v.jobs, owner, v.jobs.len() as int) >= max {
        let p = first_prunable(v.order, v.jobs, owner, 0);
        if p >= 0 {
            let id = v.order[p];
            let j = job_index(v.jobs, id);
            if 0 <= j < v.jobs.len() {
                lemma_keyed_remove_job(v, id);
                lemma_keyed_prune(remove_job(v, id), owner, max);
            }
        }
    }
}

proof fn lemma_keyed_commit(v: RegistryView, e: EntryView, kind: Seq<char>)
    requires
        registry_keyed(v),
    ensures
        registry_keyed(RegistryView { counters: counters_bump(v.counters, kind), jobs: jobs_insert(v.jobs, e), ..v }),
{
    let jobs = v.jobs;
    let k = job_index(jobs, e.id);
    lemma_job_index_from(jobs, e.id, 0);
    let s = jobs_insert(jobs, e);
    if k < 0 {
        let p = insert_pos_from(jobs, e.id, 0);
        lemma_insert_pos_order(jobs, e.id, 0);
        assert forall|a: int, b: int| 0 <= a < b < s.len() implies str_lt((#[trigger] s[a]).id, (#[trigger] s[b]).id) by {
            if b < p {
                assert(s[a] == jobs[a] && s[b] == jobs[b]);
            } else if a > p {
                assert(s[a] == jobs[a - 1] && s[b] == jobs[b - 1]);
            } else if a < p && b > p {
                assert(s[a] == jobs[a] && s[b] == jobs[b - 1]);
            } else if a == p {
                assert(s[b] == jobs[b - 1] && s[a] == e);
                if b - 1 > p {
                    lemma_str_lt_transitive(e.id, jobs[p].id, jobs[b - 1].id);
                }
            } else {
                assert(s[a] == jobs[a] && s[b] == e);
                lemma_str_lt_total(jobs[a].id, e.id);
            }
        }
    }
    let c = v.counters;
    let ci = counter_index_from(c, kind, 0);
    lemma_counter_index_from(c, kind, 0);
    let c2 = counters_bump(c, kind);
    assert forall|a: int, b: int| 0 <= a < b < c2.len() implies (#[trigger] c2[a]).0 != (#[trigger] c2[b]).0 by {
        if ci < 0 && b == c.len() {
            assert(c2[a] == c[a]);
        } else if ci >= 0 && (a == ci || b == ci) {
            assert(c2[ci].0 == c[ci].0);
            assert(c2[a].0 == c[a].0 && c2[b].0 == c[b].0);
        } else {
            assert(c2[a] == c[a] && c2[b] == c[b]);
        }
    }
}

proof fn lemma_insert_pos_order(jobs: Seq<EntryView>, id: Seq<char>, k: int)
    requires
        0 <= k <= jobs.len(),
    ensures
        k <= insert_pos_from(jobs, id, k) <= jobs.len(),
        forall|i: int| k <= i < insert_pos_from(jobs, id, k) ==> !str_lt(id, (#[trigger] jobs[i]).id),
        insert_pos_from(jobs, id, k) < jobs.len() ==> str_lt(id, jobs[insert_pos_from(jobs, id, k)].id),
    decreases jobs.len() - k,
{
    if k < jobs.len() && !str_lt(id, jobs[k].id) {
        lemma_insert_pos_order(jobs, id, k + 1);
    }
}

/// Every operation keeps the registry's maps keyed: job ids ascending and
/// unique, one counter per kind; so the records behave as the id-keyed maps
/// they stand for.
pub proof fn law_registry_stays_keyed(
    v: RegistryView,
    owner: Seq<char>,
    id: Seq<char>,
    kind: Seq<char>,
    label: Seq<char>,
    limit: Option<nat>,
    token: u64,
    r: ReservationView,
    pid: Option<u32>,
    now: u64,
    status: TerminalJobStatus,
    detail: Option<Seq<char>>,
    cancel: Result<(), Seq<char>>,
    stdout: bool,
    chunk: Seq<u8>,
    max: nat,
)
    requires
        registry_keyed(v),
    ensures
        registry_keyed(reserve_spec(v, owner, kind, label, limit).0),
        registry_keyed(release_spec(v, token)),
        registry_keyed(commit_spec(v, r, pid, now).0),
        registry_keyed(prune_spec(v, owner, max)),
        registry_keyed(settle_spec(v, id, status, detail, now).0),
        registry_keyed(mark_stopping_spec(v, id).0),
        registry_keyed(kill_prepare_spec(v, owner, id).0),
        registry_keyed(kill_complete_spec(v, owner, id, cancel).0),
        registry_keyed(read_spec(v, owner, id).0),
        registry_keyed(wait_settle_spec(v, owner, id).0),
        registry_keyed(publish_spec(v, id, stdout, chunk)),
        registry_keyed(shutdown_begin_spec(v).0),
{
    lemma_job_index_from(v.jobs, id, 0);
    lemma_keyed_prune(v, owner, max);
    let k = token_index(v.reservations, r.token);
    lemma_index_token(v.reservations, r.token, 0);
    let c = commit_spec(v, r, pid, now).0;
    if v.accepting && k >= 0 && v.reservations[k].1 == r.owner {
        let v1 = RegistryView { reservations: v.reservations.remove(k), ..v };
        assert(registry_keyed(v1));
        let v2 = prune_spec(v1, r.owner, v.config.max_retained_jobs_per_owner as nat);
        lemma_keyed_prune(v1, r.owner, v.config.max_retained_jobs_per_owner as nat);
        let ordinal = sat_add(counter_value(v2.counters, r.kind), 1);
        let e = new_entry(r, job_id_for(r.kind, ordinal), pid, now);
        lemma_keyed_commit(v2, e, r.kind);
        assert(c.jobs == jobs_insert(v2.jobs, e));
        assert(c.counters == counters_bump(v2.counters, r.kind));
        lemma_keyed_same_keys(RegistryView { counters: counters_bump(v2.counters, r.kind), jobs: jobs_insert(v2.jobs, e), ..v2 }, c);
    } else {
        assert(c.jobs == v.jobs && c.counters == v.counters);
        lemma_keyed_same_keys(v, c);
    }
    lemma_keyed_same_keys(v, settle_spec(v, id, status, detail, now).0);
    lemma_keyed_same_keys(v, mark_stopping_spec(v, id).0);
    lemma_keyed_same_keys(v, kill_prepare_spec(v, owner, id).0);
    lemma_keyed_same_keys(v, kill_complete_spec(v, owner, id, cancel).0);
    lemma_keyed_same_keys(v, read_spec(v, owner, id).0);
    lemma_keyed_same_keys(v, wait_settle_spec(v, owner, id).0);
    lemma_keyed_same_keys(v, publish_spec(v, id, stdout, chunk));
}

proof fn lemma_counter_index_from(c: Seq<(Seq<char>, u64)>, kind: Seq<char>, k: int)
    requires
        0 <= k,
    ensures
        counter_index_from(c, kind, k) == -1 || (k <= counter_index_from(c, kind, k) < c.len() && c[counter_index_from(c, kind, k)].0 == kind),
        counter_index_from(c, kind, k) == -1 ==> forall|j: int| k <= j < c.len() ==> (#[trigger] c[j]).0 != kind,
    decreases c.len() - k,
{
    if k < c.len() && c[k].0 != kind {
        lemma_counter_index_from(c, kind, k + 1);
    }
}

/// Ids are predictable, so a job of another owner answers exactly like a
/// job that does not exist, and nothing about it changes.
pub proof fn law_foreign_jobs_are_invisible(v: RegistryView, owner: Seq<char>, id: Seq<char>)
    requires
        job_index(v.jobs, id) >= 0,
        v.jobs[job_index(v.jobs, id)].owner != owner,
    ensures
        get_spec(v, owner, id) == Err::<SnapshotView, JobErrorView>(JobErrorView::NotFound { id }),
        read_spec(v, owner, id) == (v, Err::<ReadView, JobErrorView>(JobErrorView::NotFound { id })),
        wait_settle_spec(v, owner, id) == (v, Err::<SnapshotView, JobErrorView>(JobErrorView::NotFound { id })),
        kill_prepare_spec(v, owner, id) == (v, Err::<Option<KillResult>, JobErrorView>(JobErrorView::NotFound { id })),
        forall|i: int| 0 <= i < list_spec(v, owner).len() ==> (#[trigger] list_spec(v, owner)[i]).owner == owner,
{
    lemma_list_owner(v, owner, v.order.len() as int);
}

proof fn lemma_list_owner(v: RegistryView, owner: Seq<char>, n: int)
    ensures
        forall|i: int| 0 <= i < list_upto(v, owner, n).len() ==> (#[trigger] list_upto(v, owner, n)[i]).owner == owner,
    decreases n,
{
    if n > 0 {
        lemma_list_owner(v, owner, n - 1);
    }
}

/// A refused cancellation leaves the job untouched.
pub proof fn law_failed_cancellation_changes_nothing(v: RegistryView, owner: Seq<char>, id: Seq<char>, message: Seq<char>)
    ensures
        kill_complete_spec(v, owner, id, Err(message)) == (v, Err::<KillResult, JobErrorView>(JobErrorView::CancelFailed { id, message }), None::<EventView>),
{
}

proof fn lemma_held_back_tail(b: Seq<u8>)
    ensures
        complete_len(b.skip(complete_len(b))) == 0,
        0 <= complete_len(b) <= b.len(),
{
    crate::utf8tail::lemma_trailing_cont(b);
    crate::utf8tail::law_tail_is_an_incomplete_scalar(b);
    let n = complete_len(b);
    let t = b.skip(n);
    crate::utf8tail::lemma_trailing_cont(t);
    if n < b.len() {
        let k = job_tail_start(b)->0;
        assert(t[0] == b[k]);
        assert forall|i: int| 0 < i < t.len() implies crate::utf8tail::is_cont(#[trigger] t[i]) by {
            assert(t[i] == b[k + i]);
        }
        lemma_cont_run(t);
    }
}

proof fn lemma_cont_run(t: Seq<u8>)
    requires
        t.len() > 0,
        !crate::utf8tail::is_cont(t[0]),
        forall|i: int| 0 < i < t.len() ==> crate::utf8tail::is_cont(#[trigger] t[i]),
        crate::utf8tail::utf8_width_spec(t[0]) is Some,
        t.len() < crate::utf8tail::utf8_width_spec(t[0])->0,
    ensures
        job_tail_start(t) == Some(0int),
{
    lemma_trailing_run(t, t.len() as int);
    assert(t.take(t.len() as int) =~= t);
}

proof fn lemma_trailing_run(t: Seq<u8>, n: int)
    requires
        0 < n <= t.len(),
        !crate::utf8tail::is_cont(t[0]),
        forall|i: int| 0 < i < t.len() ==> crate::utf8tail::is_cont(#[trigger] t[i]),
    ensures
        crate::utf8tail::trailing_cont(t.take(n)) == n - 1,
    decreases n,
{
    if n > 1 {
        assert(t.take(n).drop_last() =~= t.take(n - 1));
        lemma_trailing_run(t, n - 1);
    } else {
        assert(t.take(1).last() == t[0]);
    }
    if n == t.len() {
        assert(t.take(n) =~= t);
    }
}

/// Reads consume: a second read with no new output in between hands out
/// no bytes and reports no truncation.
pub proof fn law_reads_are_consuming(v: RegistryView, owner: Seq<char>, id: Seq<char>)
    requires
        read_spec(v, owner, id).1 is Ok,
    ensures
        ({
            let v2 = read_spec(v, owner, id).0;
            let j = owned_index(v2, owner, id);
            &&& j >= 0
            &&& complete_len(v2.jobs[j].stdout.bytes) == 0
            &&& complete_len(v2.jobs[j].stderr.bytes) == 0
            &&& read_spec(v2, owner, id).1 == Ok::<ReadView, JobErrorView>(ReadView {
                stdout: lossy_utf8(Seq::empty()),
                stderr: lossy_utf8(Seq::empty()),
                stdout_truncated: false,
                stderr_truncated: false,
                snapshot: snapshot_of(v2.jobs[j]),
            })
        }),
{
    let j = owned_index(v, owner, id);
    lemma_job_index_from(v.jobs, id, 0);
    let e = v.jobs[j];
    lemma_held_back_tail(e.stdout.bytes);
    lemma_held_back_tail(e.stderr.bytes);
    let v2 = read_spec(v, owner, id).0;
    lemma_job_index_unchanged(v.jobs, j, v2.jobs[j], id);
    let e2 = v2.jobs[j];
    assert(e2.stdout.bytes.take(0) =~= Seq::<u8>::empty());
    assert(e2.stderr.bytes.take(0) =~= Seq::<u8>::empty());
}

proof fn lemma_job_index_unchanged(jobs: Seq<EntryView>, j: int, e: EntryView, id: Seq<char>)
    requires
        0 <= j < jobs.len(),
        job_index(jobs, id) == j,
        e.id == jobs[j].id,
    ensures
        job_index(jobs.update(j, e), id) == j,
{
    lemma_job_index_prefix(jobs, jobs.update(j, e), id, 0, j);
}

proof fn lemma_job_index_prefix(a: Seq<EntryView>, b: Seq<EntryView>, id: Seq<char>, k: int, j: int)
    requires
        0 <= k <= j < a.len(),
        a.len() == b.len(),
        forall|i: int| 0 <= i < a.len() ==> (#[trigger] a[i]).id == b[i].id,
        job_index_from(a, id, k) == j,
    ensures
        job_index_from(b, id, k) == j,
    decreases j - k,
{
    assert(a[k].id == b[k].id);
    if k < j {
        assert(a[k].id != id);
        lemma_job_index_prefix(a, b, id, k + 1, j);
    } else {
        lemma_job_index_from(a, id, k + 1);
        assert(a[k].id == id);
    }
}

/// Job ids are numbered per kind by successful commits only: reserving and
/// releasing never consume an ordinal, and a commit names its job
/// `<kind>-<next ordinal>`.
pub proof fn law_ids_follow_commits(v: RegistryView, owner: Seq<char>, kind: Seq<char>, label: Seq<char>, limit: Option<nat>, token: u64, r: ReservationView, pid: Option<u32>, now: u64)
    ensures
        reserve_spec(v, owner, kind, label, limit).0.counters == v.counters,
        release_spec(v, token).counters == v.counters,
        commit_spec(v, r, pid, now).1 matches Ok((id, ev)) ==> {
            &&& id == job_id_for(r.kind, sat_add(counter_value(v.counters, r.kind), 1))
            &&& ev.kind == JobEventKind::Started
            &&& ev.job.status == JobStatus::Running
            &&& ev.job.owner == r.owner
            &&& commit_spec(v, r, pid, now).0.order.last() == id
        },
{
    let k = token_index(v.reservations, r.token);
    if v.accepting && k >= 0 && v.reservations[k].1 == r.owner {
        let v1 = RegistryView { reservations: v.reservations.remove(k), ..v };
        law_prune_keeps_active_jobs(v1, r.owner, v.config.max_retained_jobs_per_owner as nat);
    }
}

/// Retention drops only terminal records of the committing owner; other
/// owners' records and every active record stay.
pub proof fn law_prune_drops_only_own_terminal_records(v: RegistryView, owner: Seq<char>, max: nat, e: EntryView)
    requires
        v.jobs.contains(e),
        e.owner != owner || !terminal(e.status),
    ensures
        prune_spec(v, owner, max).jobs.contains(e),
    decreases v.jobs.len(),
{
    if count_owned(v.jobs, owner, v.jobs.len() as int) >= max {
        let p = first_prunable(v.order, v.jobs, owner, 0);
        lemma_first_prunable(v.order, v.jobs, owner, 0);
        if p >= 0 {
            let id = v.order[p];
            let j = job_index(v.jobs, id);
            if 0 <= j < v.jobs.len() {
                let i = choose|i: int| 0 <= i < v.jobs.len() && v.jobs[i] == e;
                assert(i != j);
                let w = remove_job(v, id);
                if i < j {
                    assert(w.jobs[i] == e);
                } else {
                    assert(w.jobs[i - 1] == e);
                }
                law_prune_drops_only_own_terminal_records(w, owner, max, e);
            }
        }
    }
}

/// A stream keeps only its newest `limit` bytes and counts what it drops.
pub proof fn law_output_is_bounded_and_newest(b: BufferView, chunk: Seq<u8>)
    requires
        buffer_wf(b),
    ensures
        buffer_wf(append_spec(b, chunk)),
        append_spec(b, chunk).bytes == (b.bytes + chunk).skip((b.bytes + chunk).len() - append_spec(b, chunk).bytes.len()),
        append_spec(b, chunk).bytes.len() == if (b.bytes + chunk).len() > b.limit { b.limit as int } else { (b.bytes + chunk).len() as int },
        append_spec(b, chunk).dropped >= b.dropped,
{
    let all = b.bytes + chunk;
    if all.len() <= b.limit {
        assert(all.skip(0) =~= all);
    }
}


}

//! The queue of indexing jobs, and what is counted of it.
use crate::index_error::{ErrorView, IndexError};
use crate::model::{
    IndexingJobRecord,
    IndexingJobStatus,
    IndexingMetricsSnapshot,
    JobView,
    WorkspaceStats,
};
use crate::nodes::RowError;
use crate::numbers::{
    add_saturating_i64, clamped, lemma_every_number_counts, saturated_i64, stored_count, total_of,
};
use vstd::prelude::*;

verus! {

/// The lowest urgency that a job can have; 0 is the highest.
pub const MAX_PRIORITY: u8 = 10;

/// The largest number of jobs that are taken or listed at once.
pub const MAX_JOB_PAGE: u32 = 256;

/// A job to be queued, due at once and not attempted yet.
#[derive(Debug, Clone, Copy, PartialEq, Eq, Structural)]
pub struct NewJob {
    pub node_version: i64,
    pub priority: u8,
}

pub fn enqueue_indexing_job(node_version: u64, priority: u8) -> (r: Result<NewJob, IndexError>)
    ensures
        match r {
            Ok(j) => j.node_version == node_version && j.priority == clamped(
                priority as int,
                0,
                MAX_PRIORITY as int,
            ),
            Err(e) => node_version > i64::MAX && e@ == ErrorView::NumericConversion,
        },
{
    if node_version > 0x7fff_ffff_ffff_ffffu64 {
        return Err(IndexError::NumericConversion);
    }
    Ok(
        NewJob {
            node_version: node_version as i64,
            priority: if priority > MAX_PRIORITY {
                MAX_PRIORITY
            } else {
                priority
            },
        },
    )
}

/// How many jobs a page holds.
pub fn job_page_size(limit: u32) -> (r: i64)
    ensures
        r == clamped(limit as int, 1, MAX_JOB_PAGE as int),
{
    if limit < 1 {
        1
    } else if limit > MAX_JOB_PAGE {
        MAX_JOB_PAGE as i64
    } else {
        limit as i64
    }
}

/// How many jobs to ask the next workspace for, once `taken` have been taken; none at the limit.
pub fn jobs_to_take(limit: u32, taken: usize) -> (r: Option<u32>)
    requires
        taken <= u32::MAX,
    ensures
        match r {
            Some(n) => n > 0 && n == limit - taken,
            None => taken >= limit,
        },
{
    let remaining: u32 = limit.saturating_sub(taken as u32);
    if remaining == 0 {
        None
    } else {
        Some(remaining)
    }
}

/// Jobs are taken from workspaces one after the other, and never more than the limit: a workspace
/// that is asked for what is left gives no more than that.
pub proof fn lemma_take_within_limit(limit: u32, taken: nat, given: nat)
    requires
        taken < limit,
        given <= clamped((limit - taken) as int, 1, MAX_JOB_PAGE as int),
    ensures
        taken + given <= limit,
{
}

/// The delay before a job is tried again, by the attempts that have failed before.
pub open spec fn retry_delay(attempts: u32) -> u64 {
    if attempts == 0 {
        250
    } else if attempts == 1 {
        1000
    } else if attempts == 2 {
        5000
    } else {
        30000
    }
}

pub fn retry_delay_ms(attempts: u32) -> (r: u64)
    ensures
        r == retry_delay(attempts),
{
    match attempts {
        0 => 250,
        1 => 1000,
        2 => 5000,
        _ => 30000,
    }
}

/// A job waits no less after a further failure.
pub proof fn lemma_retry_delay_grows(a: u32, b: u32)
    requires
        a <= b,
    ensures
        retry_delay(a) <= retry_delay(b),
{
}

/// How many jobs the worker takes at once.
pub const WORKER_JOBS: u32 = 16;

/// What the worker does once it has asked for jobs.
#[derive(Debug, Clone, Copy, PartialEq, Eq, Structural)]
pub enum WorkerStep {
    Work,
    Wait { ms: u64 },
}

/// `taken` is how many jobs the worker got, or `None` where it could not get any.
pub fn worker_step(taken: Option<usize>) -> (r: WorkerStep)
    ensures
        r == (match taken {
            None => WorkerStep::Wait { ms: 250 },
            Some(n) => if n == 0 {
                WorkerStep::Wait { ms: 100 }
            } else {
                WorkerStep::Work
            },
        }),
{
    match taken {
        None => WorkerStep::Wait { ms: 250 },
        Some(0) => WorkerStep::Wait { ms: 100 },
        Some(_) => WorkerStep::Work,
    }
}

/// What becomes of a job that was worked on.
#[derive(Debug, Clone, Copy, PartialEq, Eq, Structural)]
pub enum JobEnd {
    Complete,
    TryAgain { delay_ms: u64 },
}

/// A job is done, or comes back: it is never dropped.
pub fn job_end(indexed: bool, attempts: u32) -> (r: JobEnd)
    ensures
        r == (if indexed {
            JobEnd::Complete
        } else {
            JobEnd::TryAgain { delay_ms: retry_delay(attempts) }
        }),
{
    if indexed {
        JobEnd::Complete
    } else {
        JobEnd::TryAgain { delay_ms: retry_delay_ms(attempts) }
    }
}

/// When a job that failed at `now_ns` is due again.
pub open spec fn next_schedule(now_ns: i64, retry_delay_ms: u64) -> Result<i64, ErrorView> {
    if retry_delay_ms > i64::MAX {
        Err(ErrorView::NumericConversion)
    } else {
        Ok(saturated_i64(now_ns + saturated_i64(retry_delay_ms * 1_000_000)))
    }
}

pub fn fail_indexing_job(now_ns: i64, retry_delay_ms: u64) -> (r: Result<i64, IndexError>)
    ensures
        match r {
            Ok(t) => next_schedule(now_ns, retry_delay_ms) == Ok::<i64, ErrorView>(t),
            Err(e) => next_schedule(now_ns, retry_delay_ms) == Err::<i64, ErrorView>(e@),
        },
{
    if retry_delay_ms > 0x7fff_ffff_ffff_ffffu64 {
        return Err(IndexError::NumericConversion);
    }
    let wide: u128 = retry_delay_ms as u128 * 1_000_000;
    let delay_ns: i64 = if wide > 0x7fff_ffff_ffff_ffffu128 {
        0x7fff_ffff_ffff_ffffi64
    } else {
        wide as i64
    };
    Ok(add_saturating_i64(now_ns, delay_ns))
}

/// How far a job has come.
#[derive(Debug, Clone, Copy, PartialEq, Eq, Structural)]
pub struct JobProgress {
    pub status: IndexingJobStatus,
    /// How often it has failed.
    pub attempts: i64,
    pub scheduled_at_ns: i64,
    pub started_at_ns: Option<i64>,
    pub completed_at_ns: Option<i64>,
}

impl JobProgress {
    /// A new job, due at once.
    pub fn queued(now_ns: i64) -> (r: JobProgress)
        ensures
            r == (JobProgress {
                status: IndexingJobStatus::Queued,
                attempts: 0,
                scheduled_at_ns: now_ns,
                started_at_ns: None,
                completed_at_ns: None,
            }),
    {
        JobProgress {
            status: IndexingJobStatus::Queued,
            attempts: 0,
            scheduled_at_ns: now_ns,
            started_at_ns: None,
            completed_at_ns: None,
        }
    }

    pub open spec fn taken(self, now_ns: i64) -> JobProgress {
        JobProgress {
            status: IndexingJobStatus::Running,
            started_at_ns: Some(now_ns),
            ..self
        }
    }

    /// The worker has taken the job.
    pub fn take(self, now_ns: i64) -> (r: JobProgress)
        ensures
            r == self.taken(now_ns),
    {
        JobProgress { status: IndexingJobStatus::Running, started_at_ns: Some(now_ns), ..self }
    }

    pub open spec fn completed(self, now_ns: i64) -> JobProgress {
        JobProgress {
            status: IndexingJobStatus::Completed,
            completed_at_ns: Some(now_ns),
            ..self
        }
    }

    /// The job is done.
    pub fn complete(self, now_ns: i64) -> (r: JobProgress)
        ensures
            r == self.completed(now_ns),
    {
        JobProgress { status: IndexingJobStatus::Completed, completed_at_ns: Some(now_ns), ..self }
    }

    pub open spec fn failed(self, now_ns: i64, retry_delay_ms: u64) -> Result<JobProgress, ErrorView> {
        match next_schedule(now_ns, retry_delay_ms) {
            Ok(t) => Ok(
                JobProgress {
                    status: IndexingJobStatus::Queued,
                    attempts: (self.attempts + 1) as i64,
                    scheduled_at_ns: t,
                    started_at_ns: None,
                    ..self
                },
            ),
            Err(e) => Err(e),
        }
    }

    /// The job has failed, and is tried again behind the delay.
    pub fn fail(self, now_ns: i64, retry_delay_ms: u64) -> (r: Result<JobProgress, IndexError>)
        requires
            self.attempts < i64::MAX,
        ensures
            match r {
                Ok(p) => self.failed(now_ns, retry_delay_ms) == Ok::<JobProgress, ErrorView>(p),
                Err(e) => self.failed(now_ns, retry_delay_ms) == Err::<JobProgress, ErrorView>(e@),
            },
    {
        match fail_indexing_job(now_ns, retry_delay_ms) {
            Ok(t) => Ok(
                JobProgress {
                    status: IndexingJobStatus::Queued,
                    attempts: self.attempts + 1,
                    scheduled_at_ns: t,
                    started_at_ns: None,
                    ..self
                },
            ),
            Err(e) => Err(e),
        }
    }
}

/// A job that was taken and failed is back in the queue, with one more attempt, and due no earlier
/// than it failed. Once it is taken again and completed, it is done.
pub proof fn lemma_failed_job_comes_back(
    p: JobProgress,
    taken_at: i64,
    failed_at: i64,
    attempts: u32,
)
    requires
        p.status == IndexingJobStatus::Queued,
        p.attempts < i64::MAX,
    ensures
        p.taken(taken_at).status == IndexingJobStatus::Running,
        p.taken(taken_at).attempts == p.attempts,
        ({
            let again = p.taken(taken_at).failed(failed_at, retry_delay(attempts));
            &&& again is Ok
            &&& again->Ok_0.status == IndexingJobStatus::Queued
            &&& again->Ok_0.attempts == p.attempts + 1
            &&& again->Ok_0.started_at_ns is None
            &&& again->Ok_0.scheduled_at_ns >= failed_at
            &&& again->Ok_0.taken(taken_at).completed(failed_at).status
                == IndexingJobStatus::Completed
        }),
{
}

// ---------------------------------------------------------------------------
// Rows
// ---------------------------------------------------------------------------

/// A job as the database hands it out.
#[derive(Debug, Clone)]
pub struct JobRow {
    pub id: i64,
    pub workspace_id: String,
    pub node_id: String,
    pub node_version: i64,
    pub priority: i64,
    pub attempts: i64,
    pub status: String,
}

/// The record of a row, by the columns `node_version` (3), `priority` (4), `attempts` (5) and
/// `status` (6).
pub open spec fn row_job(row: JobRow) -> Result<JobView, RowError> {
    match IndexingJobStatus::named(row.status@) {
        None => Err(RowError::UnknownWord { column: 6 }),
        Some(status) => if row.node_version < 0 {
            Err(RowError::OutOfRange { column: 3, value: row.node_version })
        } else if !(0 <= row.priority <= u8::MAX) {
            Err(RowError::OutOfRange { column: 4, value: row.priority })
        } else if !(0 <= row.attempts <= u32::MAX) {
            Err(RowError::OutOfRange { column: 5, value: row.attempts })
        } else {
            Ok(
                JobView {
                    job_id: row.id,
                    workspace_id: row.workspace_id@,
                    node_id: row.node_id@,
                    node_version: row.node_version as u64,
                    priority: row.priority as u8,
                    attempts: row.attempts as u32,
                    status,
                },
            )
        },
    }
}

pub fn map_job_row(row: JobRow) -> (r: Result<IndexingJobRecord, RowError>)
    ensures
        match r {
            Ok(j) => row_job(row) == Ok::<JobView, RowError>(j@),
            Err(e) => row_job(row) == Err::<JobView, RowError>(e),
        },
{
    let status = match IndexingJobStatus::from_db(row.status.as_str()) {
        Some(status) => status,
        None => {
            return Err(RowError::UnknownWord { column: 6 });
        },
    };
    if row.node_version < 0 {
        return Err(RowError::OutOfRange { column: 3, value: row.node_version });
    }
    if row.priority < 0 || row.priority > 255 {
        return Err(RowError::OutOfRange { column: 4, value: row.priority });
    }
    if row.attempts < 0 || row.attempts > 0xffff_ffffi64 {
        return Err(RowError::OutOfRange { column: 5, value: row.attempts });
    }
    Ok(
        IndexingJobRecord {
            job_id: row.id,
            workspace_id: row.workspace_id,
            node_id: row.node_id,
            node_version: row.node_version as u64,
            priority: row.priority as u8,
            attempts: row.attempts as u32,
            status,
        },
    )
}

/// Line numbers as they are stored; `column` is that of the first of the two.
pub fn stored_lines(start_line: i64, end_line: i64, column: usize) -> (r: Result<
    (u32, u32),
    RowError,
>)
    requires
        column < usize::MAX,
    ensures
        match r {
            Ok((s, e)) => s == start_line && e == end_line,
            Err(RowError::OutOfRange { column: c, value }) => {
                let start_bad = !(0 <= start_line <= u32::MAX);
                &&& start_bad || !(0 <= end_line <= u32::MAX)
                &&& start_bad ==> c == column && value == start_line
                &&& !start_bad ==> c == column + 1 && value == end_line
            },
            Err(_) => false,
        },
{
    if start_line < 0 || start_line > 0xffff_ffffi64 {
        return Err(RowError::OutOfRange { column, value: start_line });
    }
    if end_line < 0 || end_line > 0xffff_ffffi64 {
        return Err(RowError::OutOfRange { column: column + 1, value: end_line });
    }
    Ok((start_line as u32, end_line as u32))
}

// ---------------------------------------------------------------------------
// Embeddings of chunks
// ---------------------------------------------------------------------------

/// As many embeddings as chunks.
pub fn check_embedding_count(expected: usize, actual: usize) -> (r: Result<(), IndexError>)
    ensures
        match r {
            Ok(_) => expected == actual,
            Err(e) => expected != actual && e@ == (ErrorView::EmbeddingCountMismatch {
                expected: expected as nat,
                actual: actual as nat,
            }),
        },
{
    if expected != actual {
        Err(IndexError::EmbeddingCountMismatch { expected, actual })
    } else {
        Ok(())
    }
}

/// A chunk gets an embedding only in the workspace that it belongs to.
pub fn check_chunk_owner(chunk_id: i64, owner: Option<&str>, workspace_id: &str) -> (r: Result<
    (),
    IndexError,
>)
    ensures
        match r {
            Ok(_) => owner matches Some(o) && o@ == workspace_id@,
            Err(e) => !(owner matches Some(o) && o@ == workspace_id@) && e@
                == ErrorView::InvalidInput(
                "chunk_id "@ + crate::text::signed_decimal(chunk_id as int)
                    + " does not belong to workspace "@ + workspace_id@,
            ),
        },
{
    match owner {
        Some(o) => {
            if crate::text::same_text(o, workspace_id) {
                return Ok(());
            }
        },
        None => {},
    }
    let head = crate::text::join2(
        "chunk_id ",
        crate::text::signed_decimal_text(chunk_id).as_str(),
    );
    Err(
        IndexError::InvalidInput(
            crate::text::join3(head.as_str(), " does not belong to workspace ", workspace_id),
        ),
    )
}

/// How many rows a page of chunks holds: at least one.
pub fn chunk_page_limit(limit: usize) -> (r: i64)
    ensures
        r == clamped(limit as int, 1, i64::MAX as int),
{
    if limit < 1 {
        1
    } else if limit as u64 > 0x7fff_ffff_ffff_ffffu64 {
        0x7fff_ffff_ffff_ffffi64
    } else {
        limit as i64
    }
}

/// A number of rows that is reported in 32 bits.
pub fn reported_count(n: usize) -> (r: Result<u32, IndexError>)
    ensures
        match r {
            Ok(c) => c == n,
            Err(e) => n > u32::MAX && e@ == ErrorView::NumericConversion,
        },
{
    if n as u64 > 0xffff_ffffu64 {
        Err(IndexError::NumericConversion)
    } else {
        Ok(n as u32)
    }
}

// ---------------------------------------------------------------------------
// Statistics
// ---------------------------------------------------------------------------

/// What the database counts of a workspace.
#[derive(Debug, Clone, Copy, PartialEq, Eq, Structural)]
pub struct WorkspaceCounts {
    pub file_count: i64,
    pub dir_count: i64,
    pub chunk_count: i64,
    pub event_count: i64,
    pub total_content_bytes: i64,
    pub queued_jobs: i64,
    pub running_jobs: i64,
    pub completed_jobs: i64,
    pub failed_jobs: i64,
    pub indexing_policy_full_files: i64,
    pub indexing_policy_headline_only_files: i64,
    pub indexing_policy_skipped_files: i64,
}

impl WorkspaceCounts {
    /// No count is negative.
    pub open spec fn valid(self) -> bool {
        &&& self.file_count >= 0
        &&& self.dir_count >= 0
        &&& self.chunk_count >= 0
        &&& self.event_count >= 0
        &&& self.total_content_bytes >= 0
        &&& self.queued_jobs >= 0
        &&& self.running_jobs >= 0
        &&& self.completed_jobs >= 0
        &&& self.failed_jobs >= 0
        &&& self.indexing_policy_full_files >= 0
        &&& self.indexing_policy_headline_only_files >= 0
        &&& self.indexing_policy_skipped_files >= 0
    }
}

/// The statistics of a workspace.
pub fn get_workspace_stats(c: WorkspaceCounts) -> (r: Result<WorkspaceStats, IndexError>)
    ensures
        match r {
            Ok(s) => c.valid() && s == (WorkspaceStats {
                file_count: c.file_count as u64,
                dir_count: c.dir_count as u64,
                chunk_count: c.chunk_count as u64,
                event_count: c.event_count as u64,
                total_content_bytes: c.total_content_bytes as u64,
                queued_jobs: c.queued_jobs as u64,
                running_jobs: c.running_jobs as u64,
                completed_jobs: c.completed_jobs as u64,
                failed_jobs: c.failed_jobs as u64,
                indexing_policy_full_files: c.indexing_policy_full_files as u64,
                indexing_policy_headline_only_files: c.indexing_policy_headline_only_files as u64,
                indexing_policy_skipped_files: c.indexing_policy_skipped_files as u64,
            }),
            Err(e) => !c.valid() && e@ == ErrorView::NumericConversion,
        },
{
    if c.file_count < 0 || c.dir_count < 0 || c.chunk_count < 0 || c.event_count < 0
        || c.total_content_bytes < 0 || c.queued_jobs < 0 || c.running_jobs < 0 || c.completed_jobs
        < 0 || c.failed_jobs < 0 || c.indexing_policy_full_files < 0
        || c.indexing_policy_headline_only_files < 0 || c.indexing_policy_skipped_files < 0 {
        return Err(IndexError::NumericConversion);
    }
    Ok(
        WorkspaceStats {
            file_count: c.file_count as u64,
            dir_count: c.dir_count as u64,
            chunk_count: c.chunk_count as u64,
            event_count: c.event_count as u64,
            total_content_bytes: c.total_content_bytes as u64,
            queued_jobs: c.queued_jobs as u64,
            running_jobs: c.running_jobs as u64,
            completed_jobs: c.completed_jobs as u64,
            failed_jobs: c.failed_jobs as u64,
            indexing_policy_full_files: c.indexing_policy_full_files as u64,
            indexing_policy_headline_only_files: c.indexing_policy_headline_only_files as u64,
            indexing_policy_skipped_files: c.indexing_policy_skipped_files as u64,
        },
    )
}

/// The state of one workspace's queue, from the counts and the average latencies of its jobs.
pub fn indexing_metrics_snapshot(
    queued: i64,
    running: i64,
    completed: i64,
    failed: i64,
    avg_running_latency_ms: Option<u64>,
    avg_completion_latency_ms: Option<u64>,
) -> (r: Result<IndexingMetricsSnapshot, IndexError>)
    ensures
        match r {
            Ok(s) => s == (IndexingMetricsSnapshot {
                queued_jobs: queued as u64,
                running_jobs: running as u64,
                completed_jobs: completed as u64,
                failed_jobs: failed as u64,
                avg_running_latency_ms,
                avg_completion_latency_ms,
            }) && queued >= 0 && running >= 0 && completed >= 0 && failed >= 0,
            Err(e) => (queued < 0 || running < 0 || completed < 0 || failed < 0) && e@
                == ErrorView::NumericConversion,
        },
{
    match (
        stored_count(queued),
        stored_count(running),
        stored_count(completed),
        stored_count(failed),
    ) {
        (Some(queued_jobs), Some(running_jobs), Some(completed_jobs), Some(failed_jobs)) => Ok(
            IndexingMetricsSnapshot {
                queued_jobs,
                running_jobs,
                completed_jobs,
                failed_jobs,
                avg_running_latency_ms,
                avg_completion_latency_ms,
            },
        ),
        _ => Err(IndexError::NumericConversion),
    }
}

pub open spec fn sum_of(values: Seq<u64>) -> nat
    decreases values.len(),
{
    if values.len() == 0 {
        0
    } else {
        sum_of(values.drop_last()) + values.last() as nat
    }
}

/// The average of some values, rounded down; none of nothing.
pub open spec fn average_of(values: Seq<u64>) -> Option<u64> {
    if values.len() == 0 {
        None
    } else {
        Some((sum_of(values) / values.len()) as u64)
    }
}

proof fn lemma_sum_bounded(values: Seq<u64>)
    ensures
        sum_of(values) <= values.len() * u64::MAX,
    decreases values.len(),
{
    if values.len() > 0 {
        lemma_sum_bounded(values.drop_last());
        assert(values.len() * u64::MAX == (values.len() - 1) * u64::MAX + u64::MAX)
            by (nonlinear_arith);
    }
}

pub fn average_ms(values: &Vec<u64>) -> (r: Option<u64>)
    ensures
        r == average_of(values@),
{
    let n = values.len();
    if n == 0 {
        return None;
    }
    let mut sum: u128 = 0;
    let mut i: usize = 0;
    proof {
        assert(values@.take(0) =~= Seq::empty());
    }
    while i < n
        invariant
            i <= n,
            n == values@.len(),
            n <= usize::MAX,
            sum == sum_of(values@.take(i as int)),
            sum <= i * u64::MAX,
        decreases n - i,
    {
        proof {
            assert(values@.take(i + 1).drop_last() =~= values@.take(i as int));
            assert(i * u64::MAX + u64::MAX == (i + 1) * u64::MAX) by (nonlinear_arith);
            assert((i + 1) * u64::MAX <= usize::MAX * u64::MAX) by (nonlinear_arith)
                requires
                    i + 1 <= usize::MAX,
            ;
            assert(usize::MAX * u64::MAX <= u128::MAX) by (nonlinear_arith)
                requires
                    usize::MAX <= u64::MAX,
            ;
        }
        sum = sum + values[i] as u128;
        i += 1;
    }
    proof {
        assert(values@.take(n as int) =~= values@);
        lemma_sum_bounded(values@);
        assert(sum / (n as u128) <= u64::MAX) by (nonlinear_arith)
            requires
                sum <= n * u64::MAX,
                n > 0,
        ;
    }
    let avg: u128 = sum / n as u128;
    Some(avg as u64)
}

/// The average lies between the least and the greatest of the values.
pub proof fn lemma_average_in_range(values: Seq<u64>, lo: u64, hi: u64)
    requires
        values.len() > 0,
        forall|i: int| 0 <= i < values.len() ==> lo <= #[trigger] values[i] <= hi,
    ensures
        average_of(values) matches Some(a) && lo <= a <= hi,
{
    lemma_sum_in_range(values, lo, hi);
    let s = sum_of(values) as int;
    let n = values.len() as int;
    assert(lo <= s / n <= hi) by (nonlinear_arith)
        requires
            n > 0,
            n * lo <= s <= n * hi,
    ;
}

proof fn lemma_sum_in_range(values: Seq<u64>, lo: u64, hi: u64)
    requires
        forall|i: int| 0 <= i < values.len() ==> lo <= #[trigger] values[i] <= hi,
    ensures
        values.len() * lo <= sum_of(values) <= values.len() * hi,
    decreases values.len(),
{
    if values.len() > 0 {
        let t = values.drop_last();
        assert forall|i: int| 0 <= i < t.len() implies lo <= #[trigger] t[i] <= hi by {
            assert(t[i] == values[i]);
        }
        lemma_sum_in_range(t, lo, hi);
        assert(lo <= values[values.len() - 1] <= hi);
        let n = values.len() as int;
        assert(n * lo == (n - 1) * lo + lo) by (nonlinear_arith);
        assert(n * hi == (n - 1) * hi + hi) by (nonlinear_arith);
    }
}

/// The latencies that are known, in order.
pub open spec fn known(values: Seq<Option<u64>>) -> Seq<u64>
    decreases values.len(),
{
    if values.len() == 0 {
        Seq::empty()
    } else {
        match values.last() {
            Some(v) => known(values.drop_last()).push(v),
            None => known(values.drop_last()),
        }
    }
}

/// The state of all queues together.
pub open spec fn merged_snapshot(s: Seq<IndexingMetricsSnapshot>) -> IndexingMetricsSnapshot {
    IndexingMetricsSnapshot {
        queued_jobs: total_of(s.map_values(|x: IndexingMetricsSnapshot| x.queued_jobs)),
        running_jobs: total_of(s.map_values(|x: IndexingMetricsSnapshot| x.running_jobs)),
        completed_jobs: total_of(s.map_values(|x: IndexingMetricsSnapshot| x.completed_jobs)),
        failed_jobs: total_of(s.map_values(|x: IndexingMetricsSnapshot| x.failed_jobs)),
        avg_running_latency_ms: average_of(
            known(s.map_values(|x: IndexingMetricsSnapshot| x.avg_running_latency_ms)),
        ),
        avg_completion_latency_ms: average_of(
            known(s.map_values(|x: IndexingMetricsSnapshot| x.avg_completion_latency_ms)),
        ),
    }
}

pub fn merge_snapshots(snapshots: &Vec<IndexingMetricsSnapshot>) -> (r: IndexingMetricsSnapshot)
    ensures
        r == merged_snapshot(snapshots@),
{
    let mut queued: u64 = 0;
    let mut running: u64 = 0;
    let mut completed: u64 = 0;
    let mut failed: u64 = 0;
    let mut running_latencies: Vec<u64> = Vec::new();
    let mut completion_latencies: Vec<u64> = Vec::new();
    let ghost fq = |x: IndexingMetricsSnapshot| x.queued_jobs;
    let ghost fr = |x: IndexingMetricsSnapshot| x.running_jobs;
    let ghost fc = |x: IndexingMetricsSnapshot| x.completed_jobs;
    let ghost ff = |x: IndexingMetricsSnapshot| x.failed_jobs;
    let ghost lr = |x: IndexingMetricsSnapshot| x.avg_running_latency_ms;
    let ghost lc = |x: IndexingMetricsSnapshot| x.avg_completion_latency_ms;
    let ghost s = snapshots@;
    let mut i: usize = 0;
    proof {
        assert(s.take(0).map_values(fq) =~= Seq::empty());
        assert(s.take(0).map_values(fr) =~= Seq::empty());
        assert(s.take(0).map_values(fc) =~= Seq::empty());
        assert(s.take(0).map_values(ff) =~= Seq::empty());
        assert(s.take(0).map_values(lr) =~= Seq::empty());
        assert(s.take(0).map_values(lc) =~= Seq::empty());
    }
    while i < snapshots.len()
        invariant
            s == snapshots@,
            i <= s.len(),
            fq == (|x: IndexingMetricsSnapshot| x.queued_jobs),
            fr == (|x: IndexingMetricsSnapshot| x.running_jobs),
            fc == (|x: IndexingMetricsSnapshot| x.completed_jobs),
            ff == (|x: IndexingMetricsSnapshot| x.failed_jobs),
            lr == (|x: IndexingMetricsSnapshot| x.avg_running_latency_ms),
            lc == (|x: IndexingMetricsSnapshot| x.avg_completion_latency_ms),
            queued == total_of(s.take(i as int).map_values(fq)),
            running == total_of(s.take(i as int).map_values(fr)),
            completed == total_of(s.take(i as int).map_values(fc)),
            failed == total_of(s.take(i as int).map_values(ff)),
            running_latencies@ == known(s.take(i as int).map_values(lr)),
            completion_latencies@ == known(s.take(i as int).map_values(lc)),
        decreases s.len() - i,
    {
        let x = snapshots[i];
        proof {
            let t = s.take(i + 1);
            assert(t.map_values(fq).drop_last() =~= s.take(i as int).map_values(fq));
            assert(t.map_values(fr).drop_last() =~= s.take(i as int).map_values(fr));
            assert(t.map_values(fc).drop_last() =~= s.take(i as int).map_values(fc));
            assert(t.map_values(ff).drop_last() =~= s.take(i as int).map_values(ff));
            assert(t.map_values(lr).drop_last() =~= s.take(i as int).map_values(lr));
            assert(t.map_values(lc).drop_last() =~= s.take(i as int).map_values(lc));
        }
        queued = queued.saturating_add(x.queued_jobs);
        running = running.saturating_add(x.running_jobs);
        completed = completed.saturating_add(x.completed_jobs);
        failed = failed.saturating_add(x.failed_jobs);
        match x.avg_running_latency_ms {
            Some(v) => {
                running_latencies.push(v);
            },
            None => {},
        }
        match x.avg_completion_latency_ms {
            Some(v) => {
                completion_latencies.push(v);
            },
            None => {},
        }
        i += 1;
    }
    proof {
        assert(s.take(s.len() as int) =~= s);
    }
    IndexingMetricsSnapshot {
        queued_jobs: queued,
        running_jobs: running,
        completed_jobs: completed,
        failed_jobs: failed,
        avg_running_latency_ms: average_ms(&running_latencies),
        avg_completion_latency_ms: average_ms(&completion_latencies),
    }
}

/// A job that failed waits a quarter of a second after its first attempt, then one second, then
/// five, and from then on thirty.
pub proof fn lemma_retry_delays(attempts: u32)
    ensures
        attempts == 0 <==> retry_delay(attempts) == 250,
        attempts == 1 <==> retry_delay(attempts) == 1000,
        attempts == 2 <==> retry_delay(attempts) == 5000,
        attempts >= 3 <==> retry_delay(attempts) == 30000,
{
}

/// A job is scheduled as many milliseconds later as it is told to wait, as far as the clock goes.
pub proof fn lemma_schedule_is_later(now_ns: i64, retry_delay_ms: u64)
    requires
        now_ns >= 0,
    ensures
        now_ns + retry_delay_ms * 1_000_000 <= i64::MAX ==> next_schedule(now_ns, retry_delay_ms)
            == Ok::<i64, ErrorView>((now_ns + retry_delay_ms * 1_000_000) as i64),
        now_ns + retry_delay_ms * 1_000_000 > i64::MAX && retry_delay_ms <= i64::MAX
            ==> next_schedule(now_ns, retry_delay_ms) == Ok::<i64, ErrorView>(i64::MAX),
        retry_delay_ms > i64::MAX ==> next_schedule(now_ns, retry_delay_ms) is Err,
{
}

/// Taking a job notes when it began, and finishing it notes when it ended; neither counts as a
/// failed attempt or moves the time for which it was planned.
pub proof fn lemma_job_runs(p: JobProgress, taken_at: i64, ended_at: i64, delay_ms: u64)
    ensures
        p.taken(taken_at).status == IndexingJobStatus::Running,
        p.taken(taken_at).started_at_ns == Some(taken_at),
        p.taken(taken_at).completed_at_ns == p.completed_at_ns,
        p.taken(taken_at).attempts == p.attempts,
        p.taken(taken_at).scheduled_at_ns == p.scheduled_at_ns,
        p.completed(ended_at).status == IndexingJobStatus::Completed,
        p.completed(ended_at).completed_at_ns == Some(ended_at),
        p.completed(ended_at).started_at_ns == p.started_at_ns,
        p.completed(ended_at).attempts == p.attempts,
        p.completed(ended_at).scheduled_at_ns == p.scheduled_at_ns,
        p.failed(ended_at, delay_ms) is Ok <==> delay_ms <= i64::MAX,
        p.failed(ended_at, delay_ms) is Ok ==> {
            let q = p.failed(ended_at, delay_ms)->Ok_0;
            &&& next_schedule(ended_at, delay_ms) == Ok::<i64, ErrorView>(q.scheduled_at_ns)
            &&& q.completed_at_ns == p.completed_at_ns
        },
{
}

/// A job that is read has exactly what its row holds; a number that cannot be one of a job, or a
/// word that is no state, is named with its column.
pub proof fn lemma_job_is_its_row(row: JobRow)
    ensures
        row_job(row) is Ok ==> {
            let j = row_job(row)->Ok_0;
            &&& j.job_id == row.id
            &&& j.workspace_id == row.workspace_id@
            &&& j.node_id == row.node_id@
            &&& j.node_version == row.node_version
            &&& j.priority == row.priority
            &&& j.attempts == row.attempts
            &&& IndexingJobStatus::named(row.status@) == Some(j.status)
        },
        row_job(row) is Ok <==> IndexingJobStatus::named(row.status@) is Some && row.node_version
            >= 0 && 0 <= row.priority <= 255 && 0 <= row.attempts <= u32::MAX,
        IndexingJobStatus::named(row.status@) is None ==> row_job(row) == Err::<JobView, RowError>(
            RowError::UnknownWord { column: 6 },
        ),
        IndexingJobStatus::named(row.status@) is Some && row.node_version < 0 ==> row_job(row)
            == Err::<JobView, RowError>(
            RowError::OutOfRange { column: 3, value: row.node_version },
        ),
{
}

/// Sums of parts add up to the sum of the whole.
pub proof fn lemma_sums_add_up(a: Seq<u64>, b: Seq<u64>, v: u64)
    ensures
        sum_of(a + b) == sum_of(a) + sum_of(b),
        sum_of(seq![v]) == v,
    decreases b.len(),
{
    reveal_with_fuel(sum_of, 2);
    assert(seq![v].drop_last() =~= Seq::<u64>::empty());
    if b.len() == 0 {
        assert(a + b =~= a);
    } else {
        assert((a + b).drop_last() =~= a + b.drop_last());
        lemma_sums_add_up(a, b.drop_last(), v);
    }
}

/// An average, times the number of values, misses their sum by less than one for each of them.
pub proof fn lemma_average_is_near(values: Seq<u64>)
    requires
        values.len() > 0,
    ensures
        average_of(values) is Some,
        average_of(values)->0 * values.len() <= sum_of(values),
        sum_of(values) < (average_of(values)->0 + 1) * values.len(),
{
    let s = sum_of(values) as int;
    let n = values.len() as int;
    lemma_sum_in_range(values, 0, u64::MAX);
    assert(0 <= s / n <= u64::MAX) by (nonlinear_arith)
        requires
            n > 0,
            0 <= s <= n * u64::MAX,
    ;
    vstd::arithmetic::div_mod::lemma_fundamental_div_mod(s, n);
    assert((s / n) * n <= s && s < (s / n + 1) * n) by (nonlinear_arith)
        requires
            s == n * (s / n) + s % n,
            0 <= s % n < n,
    ;
}

/// Of the values that may be there, those that are count, in their order.
pub proof fn lemma_known_values(values: Seq<Option<u64>>, v: u64)
    ensures
        known(Seq::<Option<u64>>::empty()).len() == 0,
        known(values.push(Some(v))) == known(values).push(v),
        known(values.push(None)) == known(values),
{
    assert(values.push(Some(v)).drop_last() =~= values);
    assert(values.push(None).drop_last() =~= values);
}

/// One more snapshot adds its counts to those of the others, each to its own.
pub proof fn lemma_snapshots_add_up(s: Seq<IndexingMetricsSnapshot>, x: IndexingMetricsSnapshot)
    ensures
        ({
            let a = merged_snapshot(s);
            let b = merged_snapshot(s.push(x));
            &&& a.queued_jobs + x.queued_jobs <= u64::MAX ==> b.queued_jobs == a.queued_jobs
                + x.queued_jobs
            &&& a.running_jobs + x.running_jobs <= u64::MAX ==> b.running_jobs == a.running_jobs
                + x.running_jobs
            &&& a.completed_jobs + x.completed_jobs <= u64::MAX ==> b.completed_jobs
                == a.completed_jobs + x.completed_jobs
            &&& a.failed_jobs + x.failed_jobs <= u64::MAX ==> b.failed_jobs == a.failed_jobs
                + x.failed_jobs
            &&& x.avg_running_latency_ms is None ==> b.avg_running_latency_ms
                == a.avg_running_latency_ms
            &&& x.avg_completion_latency_ms is None ==> b.avg_completion_latency_ms
                == a.avg_completion_latency_ms
        }),
        merged_snapshot(Seq::empty()) == (IndexingMetricsSnapshot {
            queued_jobs: 0,
            running_jobs: 0,
            completed_jobs: 0,
            failed_jobs: 0,
            avg_running_latency_ms: None,
            avg_completion_latency_ms: None,
        }),
{
    let q = |x: IndexingMetricsSnapshot| x.queued_jobs;
    let r = |x: IndexingMetricsSnapshot| x.running_jobs;
    let c = |x: IndexingMetricsSnapshot| x.completed_jobs;
    let f = |x: IndexingMetricsSnapshot| x.failed_jobs;
    let ar = |x: IndexingMetricsSnapshot| x.avg_running_latency_ms;
    let ac = |x: IndexingMetricsSnapshot| x.avg_completion_latency_ms;
    assert(s.push(x).map_values(q) =~= s.map_values(q).push(x.queued_jobs));
    assert(s.push(x).map_values(r) =~= s.map_values(r).push(x.running_jobs));
    assert(s.push(x).map_values(c) =~= s.map_values(c).push(x.completed_jobs));
    assert(s.push(x).map_values(f) =~= s.map_values(f).push(x.failed_jobs));
    assert(s.push(x).map_values(ar) =~= s.map_values(ar).push(x.avg_running_latency_ms));
    assert(s.push(x).map_values(ac) =~= s.map_values(ac).push(x.avg_completion_latency_ms));
    lemma_every_number_counts(s.map_values(q), x.queued_jobs);
    lemma_every_number_counts(s.map_values(r), x.running_jobs);
    lemma_every_number_counts(s.map_values(c), x.completed_jobs);
    lemma_every_number_counts(s.map_values(f), x.failed_jobs);
    lemma_known_values(s.map_values(ar), 0);
    lemma_known_values(s.map_values(ac), 0);
}

/// Where no latency is known but that of one snapshot, the latency of all is that one.
pub proof fn lemma_latency_of_one(x: IndexingMetricsSnapshot)
    ensures
        merged_snapshot(seq![x]) == x,
{
    let s = Seq::<IndexingMetricsSnapshot>::empty();
    assert(seq![x] =~= s.push(x));
    lemma_snapshots_add_up(s, x);
    let ar = |x: IndexingMetricsSnapshot| x.avg_running_latency_ms;
    let ac = |x: IndexingMetricsSnapshot| x.avg_completion_latency_ms;
    assert(seq![x].map_values(ar) =~= Seq::empty().push(x.avg_running_latency_ms));
    assert(seq![x].map_values(ac) =~= Seq::empty().push(x.avg_completion_latency_ms));
    if x.avg_running_latency_ms is Some {
        let v = x.avg_running_latency_ms->0;
        lemma_known_values(Seq::empty(), v);
        assert(known(seq![x].map_values(ar)) =~= seq![v]);
        lemma_sums_add_up(Seq::empty(), Seq::empty(), v);
    }
    if x.avg_completion_latency_ms is Some {
        let v = x.avg_completion_latency_ms->0;
        lemma_known_values(Seq::empty(), v);
        assert(known(seq![x].map_values(ac)) =~= seq![v]);
        lemma_sums_add_up(Seq::empty(), Seq::empty(), v);
    }
}

/// A job is done once it was indexed, and comes back later where it was not.
pub proof fn lemma_job_ends(indexed: bool, attempts: u32, r: JobEnd)
    requires
        call_ensures(job_end, (indexed, attempts), r),
    ensures
        indexed <==> r == JobEnd::Complete,
        !indexed ==> r == (JobEnd::TryAgain { delay_ms: retry_delay(attempts) }),
{
}

/// A job is queued with the priority that was asked for, up to ten.
pub proof fn lemma_priorities(node_version: u64, priority: u8, r: Result<NewJob, IndexError>)
    requires
        call_ensures(enqueue_indexing_job, (node_version, priority), r),
    ensures
        r is Ok <==> node_version <= i64::MAX,
        r is Ok ==> r->Ok_0.node_version == node_version,
        r is Ok && priority <= 10 ==> r->Ok_0.priority == priority,
        r is Ok && priority > 10 ==> r->Ok_0.priority == 10,
{
}

/// A page of jobs holds as many as were asked for, at least one and at most two hundred and
/// fifty-six; a page of chunks is only held above one.
pub proof fn lemma_pages_of_jobs(limit: u32, page: i64, chunks: usize, chunk_page: i64)
    requires
        call_ensures(job_page_size, (limit,), page),
        call_ensures(chunk_page_limit, (chunks,), chunk_page),
    ensures
        limit == 0 ==> page == 1,
        1 <= limit <= 256 ==> page == limit,
        limit > 256 ==> page == 256,
        chunks == 0 ==> chunk_page == 1,
        1 <= chunks <= i64::MAX ==> chunk_page == chunks,
{
}

/// Jobs are taken until there are as many as may be, and not beyond.
pub proof fn lemma_jobs_are_taken(limit: u32, taken: usize, r: Option<u32>)
    requires
        taken <= u32::MAX,
        call_ensures(jobs_to_take, (limit, taken), r),
    ensures
        r is Some <==> taken < limit,
        r is Some ==> taken + r->0 == limit,
{
}

/// A worker goes on where it was given jobs; it waits where there were none, and longer where they
/// could not be read.
pub proof fn lemma_workers_wait(n: usize, found: WorkerStep, failed: WorkerStep)
    requires
        call_ensures(worker_step, (Some(n),), found),
        call_ensures(worker_step, (None,), failed),
    ensures
        n > 0 <==> found == WorkerStep::Work,
        n == 0 ==> found == (WorkerStep::Wait { ms: 100 }),
        failed == (WorkerStep::Wait { ms: 250 }),
{
}

/// Lines that are read are those that are stored, and the first that is out of range is named with
/// its column.
pub proof fn lemma_lines_are_read(
    start_line: i64,
    end_line: i64,
    column: usize,
    r: Result<(u32, u32), RowError>,
)
    requires
        column < usize::MAX,
        call_ensures(stored_lines, (start_line, end_line, column), r),
    ensures
        r is Ok <==> 0 <= start_line <= 0xffff_ffff && 0 <= end_line <= 0xffff_ffff,
        r is Ok ==> r->Ok_0.0 == start_line && r->Ok_0.1 == end_line,
        start_line < 0 ==> r == Err::<(u32, u32), RowError>(
            RowError::OutOfRange { column, value: start_line },
        ),
{
}

/// Embeddings are taken where there is one for each chunk, and for chunks of their own workspace.
pub proof fn lemma_embeddings_belong(
    expected: usize,
    actual: usize,
    counted: Result<(), IndexError>,
    chunk_id: i64,
    owner: &str,
    workspace_id: &str,
    owned: Result<(), IndexError>,
    unowned: Result<(), IndexError>,
    reported: Result<u32, IndexError>,
)
    requires
        call_ensures(check_embedding_count, (expected, actual), counted),
        call_ensures(check_chunk_owner, (chunk_id, Some(owner), workspace_id), owned),
        call_ensures(check_chunk_owner, (chunk_id, None, workspace_id), unowned),
        call_ensures(reported_count, (actual,), reported),
    ensures
        counted is Ok <==> expected == actual,
        owned is Ok <==> owner@ == workspace_id@,
        unowned is Err,
        reported is Ok <==> actual <= 0xffff_ffff,
        reported is Ok ==> reported->Ok_0 == actual,
{
}

/// The numbers of a workspace are those that were counted, each under its own name; a count below
/// zero is none.
pub proof fn lemma_stats_are_counts(c: WorkspaceCounts, r: Result<WorkspaceStats, IndexError>)
    requires
        call_ensures(get_workspace_stats, (c,), r),
    ensures
        c.file_count < 0 || c.dir_count < 0 || c.chunk_count < 0 || c.event_count < 0
            || c.total_content_bytes < 0 || c.queued_jobs < 0 || c.running_jobs < 0
            || c.completed_jobs < 0 || c.failed_jobs < 0 || c.indexing_policy_full_files < 0
            || c.indexing_policy_headline_only_files < 0 || c.indexing_policy_skipped_files < 0
            <==> r is Err,
        r is Ok ==> {
            let s = r->Ok_0;
            &&& s.file_count == c.file_count && s.dir_count == c.dir_count
            &&& s.chunk_count == c.chunk_count && s.event_count == c.event_count
            &&& s.total_content_bytes == c.total_content_bytes
            &&& s.queued_jobs == c.queued_jobs && s.running_jobs == c.running_jobs
            &&& s.completed_jobs == c.completed_jobs && s.failed_jobs == c.failed_jobs
            &&& s.indexing_policy_full_files == c.indexing_policy_full_files
            &&& s.indexing_policy_headline_only_files == c.indexing_policy_headline_only_files
            &&& s.indexing_policy_skipped_files == c.indexing_policy_skipped_files
        },
{
}

/// A snapshot of the queues holds each count under its own name.
pub proof fn lemma_snapshot_is_counts(
    queued: i64,
    running: i64,
    completed: i64,
    failed: i64,
    avg_running: Option<u64>,
    avg_completion: Option<u64>,
    r: Result<IndexingMetricsSnapshot, IndexError>,
)
    requires
        call_ensures(
            indexing_metrics_snapshot,
            (queued, running, completed, failed, avg_running, avg_completion),
            r,
        ),
    ensures
        r is Ok <==> queued >= 0 && running >= 0 && completed >= 0 && failed >= 0,
        r is Ok ==> {
            let s = r->Ok_0;
            &&& s.queued_jobs == queued && s.running_jobs == running
            &&& s.completed_jobs == completed && s.failed_jobs == failed
            &&& s.avg_running_latency_ms == avg_running
            &&& s.avg_completion_latency_ms == avg_completion
        },
{
}

/// A job that failed is planned for later by the delay that its attempts give.
pub proof fn lemma_failed_jobs_wait(
    attempts: u32,
    delay: u64,
    now_ns: i64,
    r: Result<i64, IndexError>,
)
    requires
        0 <= now_ns,
        call_ensures(retry_delay_ms, (attempts,), delay),
        call_ensures(fail_indexing_job, (now_ns, delay), r),
    ensures
        attempts == 0 ==> delay == 250,
        attempts == 1 ==> delay == 1000,
        attempts == 2 ==> delay == 5000,
        attempts >= 3 ==> delay == 30000,
        r is Ok,
        now_ns <= 9_000_000_000_000_000_000 ==> r->Ok_0 == now_ns + delay * 1_000_000,
{
    lemma_schedule_is_later(now_ns, delay);
}

} // verus!

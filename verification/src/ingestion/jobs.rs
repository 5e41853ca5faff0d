//! Index jobs.

use crate::clock;
use crate::error::{Error, ErrorView};
use crate::ids;
use crate::text;
use vstd::prelude::*;

verus! {

/// What a job indexes.
#[derive(Debug, Clone, PartialEq, Eq)]
pub enum IndexJobScope {
    /// All sources of the store.
    Store,
    /// One source.
    Source { source_id: String },
}

/// Where a job stands.
#[derive(Debug, Clone, Copy, PartialEq, Eq, Structural)]
pub enum IndexJobState {
    Pending,
    Running,
    Done,
    Failed,
}

/// What a job did.
#[derive(Debug, Clone, Copy, PartialEq, Eq, Structural)]
pub struct IndexJobStats {
    pub docs_seen: u64,
    pub docs_indexed: u64,
    pub docs_skipped: u64,
    pub docs_deleted: u64,
    pub chunks_written: u64,
}

impl IndexJobStats {
    /// Nothing yet.
    pub open spec fn zero() -> IndexJobStats {
        IndexJobStats {
            docs_seen: 0,
            docs_indexed: 0,
            docs_skipped: 0,
            docs_deleted: 0,
            chunks_written: 0,
        }
    }
}

impl Default for IndexJobStats {
    /// Nothing yet.
    fn default() -> (r: Self)
        ensures
            r == IndexJobStats::zero(),
    {
        IndexJobStats {
            docs_seen: 0,
            docs_indexed: 0,
            docs_skipped: 0,
            docs_deleted: 0,
            chunks_written: 0,
        }
    }
}

/// A job that indexes a store, or a part of it.
#[derive(Debug, Clone, PartialEq, Eq)]
pub struct IndexJob {
    pub id: String,
    pub store_id: String,
    pub scope: IndexJobScope,
    pub state: IndexJobState,
    pub stats: IndexJobStats,
    pub error: Option<String>,
    /// Stable code of the error, where it is known.
    pub error_code: Option<String>,
    pub created_at: String,
    pub started_at: Option<String>,
    pub completed_at: Option<String>,
}

/// A job as a mathematical value.
#[verifier::ext_equal]
pub struct JobView {
    pub id: Seq<char>,
    pub store_id: Seq<char>,
    pub scope: IndexJobScope,
    pub state: IndexJobState,
    pub stats: IndexJobStats,
    pub error: Option<Seq<char>>,
    pub error_code: Option<Seq<char>>,
    pub created_at: Seq<char>,
    pub started_at: Option<Seq<char>>,
    pub completed_at: Option<Seq<char>>,
}

impl View for IndexJob {
    type V = JobView;

    open spec fn view(&self) -> JobView {
        JobView {
            id: self.id@,
            store_id: self.store_id@,
            scope: self.scope,
            state: self.state,
            stats: self.stats,
            error: text::opt_view(self.error),
            error_code: text::opt_view(self.error_code),
            created_at: self.created_at@,
            started_at: text::opt_view(self.started_at),
            completed_at: text::opt_view(self.completed_at),
        }
    }
}

impl JobView {
    /// A job that waits.
    pub open spec fn pending(
        id: Seq<char>,
        store_id: Seq<char>,
        scope: IndexJobScope,
        now: Seq<char>,
    ) -> JobView {
        JobView {
            id,
            store_id,
            scope,
            state: IndexJobState::Pending,
            stats: IndexJobStats::zero(),
            error: None,
            error_code: None,
            created_at: now,
            started_at: None,
            completed_at: None,
        }
    }

    /// The job after it was started.
    pub open spec fn started(self, now: Seq<char>) -> JobView {
        JobView { state: IndexJobState::Running, started_at: Some(now), ..self }
    }

    /// The job after it was completed.
    pub open spec fn completed(self, stats: IndexJobStats, now: Seq<char>) -> JobView {
        JobView { state: IndexJobState::Done, stats, completed_at: Some(now), ..self }
    }

    /// The job after it failed.
    pub open spec fn failed(
        self,
        error: Seq<char>,
        code: Option<Seq<char>>,
        now: Seq<char>,
    ) -> JobView {
        JobView {
            state: IndexJobState::Failed,
            error: Some(error),
            error_code: code,
            completed_at: Some(now),
            ..self
        }
    }
}

/// The text that a job keeps of an error: its bare message, or else the whole text.
pub open spec fn kept_text(e: ErrorView) -> Seq<char> {
    match e.bare() {
        Some(m) => m,
        None => e.display(),
    }
}

/// Creates a job that waits.
pub fn create_index_job(store_id: &str, scope: IndexJobScope) -> (r: IndexJob)
    ensures
        r@.id.len() == 26,
        r@ == JobView::pending(r@.id, store_id@, scope, r@.created_at),
{
    IndexJob {
        id: ids::new_ulid(),
        store_id: store_id.to_owned(),
        scope,
        state: IndexJobState::Pending,
        stats: IndexJobStats::default(),
        error: None,
        error_code: None,
        created_at: clock::now_rfc3339(),
        started_at: None,
        completed_at: None,
    }
}

/// Starts a job at the given time.
pub fn start_index_job_at(job: &mut IndexJob, now: &str)
    ensures
        final(job)@ == old(job)@.started(now@),
{
    job.state = IndexJobState::Running;
    job.started_at = Some(now.to_owned());
}

/// Starts a job.
pub fn start_index_job(job: &mut IndexJob)
    ensures
        exists|now: Seq<char>| final(job)@ == #[trigger] old(job)@.started(now),
{
    start_index_job_at(job, clock::now_rfc3339().as_str());
}

/// Completes a job at the given time.
pub fn complete_index_job_at(job: &mut IndexJob, stats: IndexJobStats, now: &str)
    ensures
        final(job)@ == old(job)@.completed(stats, now@),
{
    job.state = IndexJobState::Done;
    job.stats = stats;
    job.completed_at = Some(now.to_owned());
}

/// Completes a job.
pub fn complete_index_job(job: &mut IndexJob, stats: IndexJobStats)
    ensures
        exists|now: Seq<char>| final(job)@ == #[trigger] old(job)@.completed(stats, now),
{
    complete_index_job_at(job, stats, clock::now_rfc3339().as_str());
}

/// Marks a job as failed at the given time, with an optional error code.
pub fn fail_index_job_at(job: &mut IndexJob, error: String, code: Option<String>, now: &str)
    ensures
        final(job)@ == old(job)@.failed(error@, text::opt_view(code), now@),
{
    job.state = IndexJobState::Failed;
    job.error = Some(error);
    job.error_code = code;
    job.completed_at = Some(now.to_owned());
}

/// Marks a job as failed, for a reason without a code.
pub fn fail_index_job(job: &mut IndexJob, error: String)
    ensures
        exists|now: Seq<char>| final(job)@ == #[trigger] old(job)@.failed(error@, None, now),
{
    fail_index_job_at(job, error, None, clock::now_rfc3339().as_str());
}

/// Marks a job as failed with an error. The code is kept, and the text without what the
/// code says already, so that the error can be put together again.
pub fn fail_index_job_with_error(job: &mut IndexJob, error: &Error)
    ensures
        exists|now: Seq<char>|
            final(job)@ == #[trigger] old(job)@.failed(kept_text(error@), Some(error@.code()), now),
{
    let message = match error.raw_message() {
        Some(m) => m.to_owned(),
        None => error.to_string(),
    };
    assert(message@ == kept_text(error@));
    let code = Some(error.code().to_owned());
    let now = clock::now_rfc3339();
    fail_index_job_at(job, message, code, now.as_str());
    assert(job@ == old(job)@.failed(kept_text(error@), Some(error@.code()), now@));
}

/// Whether a store was indexed under another policy, by the policy of one of its chunks. A
/// store without chunks is not stale, nor one of which no sample was found.
pub fn is_store_stale(
    chunk_count: u64,
    sample_policy_version: Option<&str>,
    current_policy_version: &str,
) -> (r: bool)
    ensures
        r == (chunk_count > 0 && (sample_policy_version matches Some(p) && p@
            != current_policy_version@)),
{
    if chunk_count == 0 {
        return false;
    }
    match sample_policy_version {
        Some(p) => !text::str_eq(p, current_policy_version),
        None => false,
    }
}

/// A job's identity and time of creation never change, and a job that ended has the time of
/// its end.
pub proof fn jobs_keep_their_identity(
    job: JobView,
    stats: IndexJobStats,
    error: Seq<char>,
    code: Option<Seq<char>>,
    now: Seq<char>,
)
    ensures
        ({
            let (s, c, f) = (job.started(now), job.completed(stats, now), job.failed(error, code, now));
            &&& s.id == job.id && c.id == job.id && f.id == job.id
            &&& s.store_id == job.store_id && c.store_id == job.store_id && f.store_id == job.store_id
            &&& s.scope == job.scope && c.scope == job.scope && f.scope == job.scope
            &&& s.created_at == job.created_at && c.created_at == job.created_at
            &&& f.created_at == job.created_at
            &&& c.completed_at == Some(now) && f.completed_at == Some(now)
            &&& c.started_at == job.started_at && f.started_at == job.started_at
        }),
{
}

} // verus!

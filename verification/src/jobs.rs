//! Indexing jobs: the payloads handed to the background worker, the rows the
//! durable queue keeps for them, and the errors of the two failure domains.

use vstd::prelude::*;

verus! {

/// A job that exhausts this many attempts is marked failed for good.
pub const DEFAULT_MAX_RETRIES: u32 = 3;

/// Spec-level image of a [`JobPayload`].
pub enum PayloadView {
    UpdateOrSave { root_path: Seq<char>, relative_path: Seq<char> },
    RenameOrMove {
        root_path: Seq<char>,
        old_relative_path: Seq<char>,
        new_relative_path: Seq<char>,
    },
    Delete { relative_path: Seq<char> },
}

impl PayloadView {
    /// The paths whose activity locks belong to a job with this payload.
    pub open spec fn lock_paths(self) -> Seq<Seq<char>> {
        match self {
            PayloadView::UpdateOrSave { relative_path, .. } => seq![relative_path],
            PayloadView::RenameOrMove { old_relative_path, new_relative_path, .. } => seq![
                old_relative_path,
                new_relative_path,
            ],
            PayloadView::Delete { relative_path } => seq![relative_path],
        }
    }
}

/// What an indexing job does; immutable once created.
#[derive(Debug, PartialEq, Eq)]
pub enum JobPayload {
    /// Re-index one document and refresh its metadata row.
    UpdateOrSave { root_path: String, relative_path: String },
    /// Move the indexed document from one path to another.
    RenameOrMove { root_path: String, old_relative_path: String, new_relative_path: String },
    /// Drop one document from the index.
    Delete { relative_path: String },
}

impl View for JobPayload {
    type V = PayloadView;

    open spec fn view(&self) -> PayloadView {
        match self {
            JobPayload::UpdateOrSave { root_path, relative_path } => (
            PayloadView::UpdateOrSave { root_path: root_path@, relative_path: relative_path@ }),
            JobPayload::RenameOrMove { root_path, old_relative_path, new_relative_path } => (
            PayloadView::RenameOrMove {
                root_path: root_path@,
                old_relative_path: old_relative_path@,
                new_relative_path: new_relative_path@,
            }),
            JobPayload::Delete { relative_path } => (
            PayloadView::Delete { relative_path: relative_path@ }),
        }
    }
}

impl Clone for JobPayload {
    fn clone(&self) -> (r: Self)
        ensures
            r@ == self@,
    {
        match self {
            JobPayload::UpdateOrSave { root_path, relative_path } => JobPayload::UpdateOrSave {
                root_path: root_path.clone(),
                relative_path: relative_path.clone(),
            },
            JobPayload::RenameOrMove {
                root_path,
                old_relative_path,
                new_relative_path,
            } => JobPayload::RenameOrMove {
                root_path: root_path.clone(),
                old_relative_path: old_relative_path.clone(),
                new_relative_path: new_relative_path.clone(),
            },
            JobPayload::Delete { relative_path } => JobPayload::Delete {
                relative_path: relative_path.clone(),
            },
        }
    }
}

impl JobPayload {
    /// The paths whose activity locks belong to this job: they are released
    /// when the job terminates.
    pub fn paths_to_unlock(&self) -> (r: Vec<String>)
        ensures
            r@.map_values(|p: String| p@) == self@.lock_paths(),
    {
        let mut out: Vec<String> = Vec::new();
        match self {
            JobPayload::UpdateOrSave { relative_path, .. } => {
                out.push(relative_path.clone());
            },
            JobPayload::RenameOrMove { old_relative_path, new_relative_path, .. } => {
                out.push(old_relative_path.clone());
                out.push(new_relative_path.clone());
            },
            JobPayload::Delete { relative_path } => {
                out.push(relative_path.clone());
            },
        }
        proof {
            assert(out@.map_values(|p: String| p@) =~= self@.lock_paths());
        }
        out
    }
}

/// Spec-level image of an [`IndexingJob`].
pub struct JobView {
    pub db_id: Option<u64>,
    pub payload: PayloadView,
}

/// A job as it travels through the in-process channel. `db_id` is the id of
/// its durable row, present when the job was durably written (or loaded back
/// from storage).
#[derive(Debug, PartialEq, Eq)]
pub struct IndexingJob {
    pub db_id: Option<u64>,
    pub payload: JobPayload,
}

impl View for IndexingJob {
    type V = JobView;

    open spec fn view(&self) -> JobView {
        JobView { db_id: self.db_id, payload: self.payload@ }
    }
}

/// Spec-level image of a [`ControlSignal`].
pub enum SignalView {
    Job(JobView),
    Shutdown,
}

/// What the worker receives over the channel: a job, or the request to exit
/// after the job currently in hand.
#[derive(Debug, PartialEq, Eq)]
pub enum ControlSignal {
    Job(IndexingJob),
    Shutdown,
}

impl View for ControlSignal {
    type V = SignalView;

    open spec fn view(&self) -> SignalView {
        match self {
            ControlSignal::Job(j) => SignalView::Job(j@),
            ControlSignal::Shutdown => SignalView::Shutdown,
        }
    }
}

/// Status of a durable job row: still awaiting execution, or terminally
/// failed and kept for inspection.
#[derive(Debug, Clone, Copy, PartialEq, Eq, Structural)]
pub enum JobStatus {
    Pending,
    Failed,
}

/// Spec-level image of a [`JobRow`].
pub struct JobRowView {
    pub id: u64,
    pub payload: PayloadView,
    pub status: JobStatus,
    pub retry_count: u32,
    pub max_retries: u32,
    pub last_error: Option<Seq<char>>,
    pub created_at: u64,
    pub updated_at: u64,
}

/// One row of the durable job queue. A row exists from the moment a job is
/// accepted until it succeeds (row deleted) or exhausts its retries (row
/// marked failed and retained).
#[derive(Debug, PartialEq, Eq)]
pub struct JobRow {
    pub id: u64,
    pub payload: JobPayload,
    pub status: JobStatus,
    pub retry_count: u32,
    pub max_retries: u32,
    pub last_error: Option<String>,
    pub created_at: u64,
    pub updated_at: u64,
}

impl View for JobRow {
    type V = JobRowView;

    open spec fn view(&self) -> JobRowView {
        JobRowView {
            id: self.id,
            payload: self.payload@,
            status: self.status,
            retry_count: self.retry_count,
            max_retries: self.max_retries,
            last_error: match self.last_error {
                Some(ref e) => Some(e@),
                None => None,
            },
            created_at: self.created_at,
            updated_at: self.updated_at,
        }
    }
}

impl Clone for JobRow {
    fn clone(&self) -> (r: Self)
        ensures
            r@ == self@,
    {
        JobRow {
            id: self.id,
            payload: self.payload.clone(),
            status: self.status,
            retry_count: self.retry_count,
            max_retries: self.max_retries,
            last_error: match &self.last_error {
                Some(e) => Some(e.clone()),
                None => None,
            },
            created_at: self.created_at,
            updated_at: self.updated_at,
        }
    }
}

/// A durable write or read failed; surfaced synchronously to the caller of
/// the dispatch functions, who must release the lock it holds.
#[derive(Debug, Clone, Copy, PartialEq, Eq, Structural)]
pub enum PersistenceError {
    WriteFailed,
}

/// Executing a job against the store and the index failed; recovered locally
/// through retry bookkeeping, never surfaced to the caller.
#[derive(Debug, Clone, Copy, PartialEq, Eq, Structural)]
pub enum JobError {
    /// The document could not be read from disk.
    MissingFile,
    /// The metadata store has no row for the document.
    MissingMetadata,
}

} // verus!

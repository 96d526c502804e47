//! Model of the durable job queue: rows persist pending indexing operations
//! before dispatch and survive restarts. A host program mirrors every
//! transition onto its database table.

use vstd::prelude::*;

verus! {

use crate::jobs::{
    DEFAULT_MAX_RETRIES,
    JobPayload,
    JobRow,
    JobRowView,
    JobStatus,
    PayloadView,
    PersistenceError,
};

/// Spec-level image of a [`DurableQueue`].
pub struct QueueView {
    pub rows: Seq<JobRowView>,
    pub next_id: u64,
    pub write_fault: bool,
}

/// First position of the row with `id`, if any.
pub open spec fn qrow_index(s: Seq<JobRowView>, id: u64) -> Option<int>
    decreases s.len(),
{
    if s.len() == 0 {
        None
    } else if s[0].id == id {
        Some(0)
    } else {
        match qrow_index(s.drop_first(), id) {
            Some(i) => Some(i + 1),
            None => None,
        }
    }
}

/// Whether the row still awaits execution and has attempts left.
pub open spec fn runnable(r: JobRowView) -> bool {
    r.status == JobStatus::Pending && r.retry_count < r.max_retries
}

/// First (oldest) position of a runnable row, if any.
pub open spec fn runnable_index(s: Seq<JobRowView>) -> Option<int>
    decreases s.len(),
{
    if s.len() == 0 {
        None
    } else if runnable(s[0]) {
        Some(0)
    } else {
        match runnable_index(s.drop_first()) {
            Some(i) => Some(i + 1),
            None => None,
        }
    }
}

impl QueueView {
    /// Rows stand in creation order and carry distinct ids below `next_id`.
    pub open spec fn wf(self) -> bool {
        &&& (forall|i: int, j: int|
            0 <= i < j < self.rows.len() ==> self.rows[i].id < self.rows[j].id)
        &&& (forall|i: int| 0 <= i < self.rows.len() ==> #[trigger] self.rows[i].id < self.next_id)
    }

    /// The queue as a fresh database starts: no rows, no fault.
    pub open spec fn initial() -> QueueView {
        QueueView { rows: Seq::empty(), next_id: 1, write_fault: false }
    }
}

/// Effect and outcome of durably writing one new pending row for `pv`: on a
/// write fault (or an exhausted id space) nothing is written and the caller
/// learns of the failure.
pub open spec fn spec_persist(qv: QueueView, pv: PayloadView, now: u64) -> (
    QueueView,
    Result<u64, PersistenceError>,
) {
    if qv.write_fault || qv.next_id == u64::MAX {
        (qv, Err(PersistenceError::WriteFailed))
    } else {
        let row = JobRowView {
            id: qv.next_id,
            payload: pv,
            status: JobStatus::Pending,
            retry_count: 0,
            max_retries: DEFAULT_MAX_RETRIES,
            last_error: None,
            created_at: now,
            updated_at: now,
        };
        (
            QueueView {
                rows: qv.rows.push(row),
                next_id: (qv.next_id + 1) as u64,
                write_fault: qv.write_fault,
            },
            Ok(qv.next_id),
        )
    }
}

/// Effect of durably recording the failure of a job that had no row of its
/// own yet: one fresh pending row carrying the payload and the error text,
/// so the next recovery pass retries it. On a write fault nothing can be
/// recorded.
pub open spec fn spec_persist_failed(
    qv: QueueView,
    pv: PayloadView,
    err: Seq<char>,
    now: u64,
) -> QueueView {
    if qv.write_fault || qv.next_id == u64::MAX {
        qv
    } else {
        let row = JobRowView {
            id: qv.next_id,
            payload: pv,
            status: JobStatus::Pending,
            retry_count: 0,
            max_retries: DEFAULT_MAX_RETRIES,
            last_error: Some(err),
            created_at: now,
            updated_at: now,
        };
        QueueView {
            rows: qv.rows.push(row),
            next_id: (qv.next_id + 1) as u64,
            write_fault: qv.write_fault,
        }
    }
}

/// Effect of deleting the row with `id`, if present.
pub open spec fn spec_delete_row(qv: QueueView, id: u64) -> QueueView {
    match qrow_index(qv.rows, id) {
        Some(i) => QueueView { rows: qv.rows.remove(i), ..qv },
        None => qv,
    }
}

/// The row with one more failed attempt recorded at `now`; it turns failed
/// for good when its attempts are exhausted.
pub open spec fn failed_once(r: JobRowView, err: Seq<char>, now: u64) -> JobRowView {
    let retries = if r.retry_count < u32::MAX {
        (r.retry_count + 1) as u32
    } else {
        r.retry_count
    };
    JobRowView {
        retry_count: retries,
        status: if retries >= r.max_retries {
            JobStatus::Failed
        } else {
            r.status
        },
        last_error: Some(err),
        updated_at: now,
        ..r
    }
}

/// Effect of recording a failed attempt on the row with `id`, if present.
pub open spec fn spec_record_failure(qv: QueueView, id: u64, err: Seq<char>, now: u64) -> QueueView {
    match qrow_index(qv.rows, id) {
        Some(i) => QueueView { rows: qv.rows.update(i, failed_once(qv.rows[i], err, now)), ..qv },
        None => qv,
    }
}

/// The oldest row still awaiting execution with attempts left, if any.
pub open spec fn spec_next_pending(qv: QueueView) -> Option<(u64, PayloadView)> {
    match runnable_index(qv.rows) {
        Some(i) => Some((qv.rows[i].id, qv.rows[i].payload)),
        None => None,
    }
}

pub proof fn lemma_qrow_index(s: Seq<JobRowView>, id: u64)
    ensures
        match qrow_index(s, id) {
            Some(i) => 0 <= i < s.len() && s[i].id == id && forall|j: int|
                0 <= j < i ==> s[j].id != id,
            None => forall|j: int| 0 <= j < s.len() ==> s[j].id != id,
        },
    decreases s.len(),
{
    if s.len() > 0 {
        lemma_qrow_index(s.drop_first(), id);
        if s[0].id != id {
            match qrow_index(s.drop_first(), id) {
                Some(i) => {
                    assert(s.drop_first()[i] == s[i + 1]);
                    assert forall|j: int| 0 <= j < i + 1 implies s[j].id != id by {
                        if j > 0 {
                            assert(s.drop_first()[j - 1] == s[j]);
                        }
                    }
                },
                None => {
                    assert forall|j: int| 0 <= j < s.len() implies s[j].id != id by {
                        if j > 0 {
                            assert(s.drop_first()[j - 1] == s[j]);
                        }
                    }
                },
            }
        }
    }
}

pub proof fn lemma_runnable_index(s: Seq<JobRowView>)
    ensures
        match runnable_index(s) {
            Some(i) => 0 <= i < s.len() && runnable(s[i]) && forall|j: int|
                0 <= j < i ==> !runnable(s[j]),
            None => forall|j: int| 0 <= j < s.len() ==> !runnable(s[j]),
        },
    decreases s.len(),
{
    if s.len() > 0 {
        lemma_runnable_index(s.drop_first());
        if !runnable(s[0]) {
            match runnable_index(s.drop_first()) {
                Some(i) => {
                    assert(s.drop_first()[i] == s[i + 1]);
                    assert forall|j: int| 0 <= j < i + 1 implies !runnable(s[j]) by {
                        if j > 0 {
                            assert(s.drop_first()[j - 1] == s[j]);
                        }
                    }
                },
                None => {
                    assert forall|j: int| 0 <= j < s.len() implies !runnable(s[j]) by {
                        if j > 0 {
                            assert(s.drop_first()[j - 1] == s[j]);
                        }
                    }
                },
            }
        }
    }
}

/// In-memory model of the durable job queue, with a switch that makes the
/// next durable writes fail, as a full or faulty medium would.
pub struct DurableQueue {
    rows: Vec<JobRow>,
    next_id: u64,
    write_fault: bool,
}

impl View for DurableQueue {
    type V = QueueView;

    closed spec fn view(&self) -> QueueView {
        QueueView {
            rows: self.rows@.map_values(|r: JobRow| r@),
            next_id: self.next_id,
            write_fault: self.write_fault,
        }
    }
}

impl DurableQueue {
    /// An empty queue.
    pub fn new() -> (q: Self)
        ensures
            q@ == QueueView::initial(),
            q@.wf(),
    {
        let q = DurableQueue { rows: Vec::new(), next_id: 1, write_fault: false };
        proof {
            assert(q@.rows =~= Seq::<JobRowView>::empty());
            assert(q@ == QueueView::initial());
        }
        q
    }

    /// How many rows the queue holds (pending and failed).
    pub fn len(&self) -> (r: usize)
        ensures
            r == self@.rows.len(),
    {
        self.rows.len()
    }

    /// Makes every following durable write fail (or succeed again): the
    /// model of a failing storage medium.
    pub fn set_write_fault(&mut self, fault: bool)
        ensures
            final(self)@ == (QueueView { write_fault: fault, ..old(self)@ }),
    {
        self.write_fault = fault;
    }

    fn position(&self, id: u64) -> (r: Option<usize>)
        ensures
            match r {
                Some(i) => qrow_index(self@.rows, id) == Some(i as int),
                None => qrow_index(self@.rows, id) is None,
            },
    {
        let n = self.rows.len();
        let mut i: usize = 0;
        while i < n
            invariant
                n == self.rows.len(),
                i <= n,
                forall|j: int| 0 <= j < i ==> self@.rows[j].id != id,
            decreases n - i,
        {
            if self.rows[i].id == id {
                proof {
                    lemma_qrow_index(self@.rows, id);
                    if qrow_index(self@.rows, id) is None {
                        assert(self@.rows[i as int].id == id);
                    }
                    if let Some(k) = qrow_index(self@.rows, id) {
                        if k < i {
                            assert(self@.rows[k].id == id);
                        }
                        if k > i {
                            assert(self@.rows[i as int].id == id);
                        }
                    }
                }
                return Some(i);
            }
            i = i + 1;
        }
        proof {
            lemma_qrow_index(self@.rows, id);
        }
        None
    }

    /// A copy of the row with `id`, if present.
    pub fn get_row(&self, id: u64) -> (r: Option<JobRow>)
        ensures
            match r {
                Some(row) => qrow_index(self@.rows, id) is Some && row@ == self@.rows[qrow_index(
                    self@.rows,
                    id,
                ).unwrap()],
                None => qrow_index(self@.rows, id) is None,
            },
    {
        match self.position(id) {
            Some(i) => {
                proof {
                    lemma_qrow_index(self@.rows, id);
                }
                Some(self.rows[i].clone())
            },
            None => None,
        }
    }

    /// Durably writes one new pending row for `payload` and returns its id;
    /// on a write fault nothing is written and the caller must compensate
    /// (it holds the corresponding activity lock).
    pub fn persist(&mut self, payload: &JobPayload, now_ms: u64) -> (r: Result<
        u64,
        PersistenceError,
    >)
        requires
            old(self)@.wf(),
        ensures
            final(self)@ == spec_persist(old(self)@, payload@, now_ms).0,
            r == spec_persist(old(self)@, payload@, now_ms).1,
            final(self)@.wf(),
    {
        let ghost pre = self@;
        if self.write_fault || self.next_id == u64::MAX {
            return Err(PersistenceError::WriteFailed);
        }
        let id = self.next_id;
        let row = JobRow {
            id,
            payload: payload.clone(),
            status: JobStatus::Pending,
            retry_count: 0,
            max_retries: DEFAULT_MAX_RETRIES,
            last_error: None,
            created_at: now_ms,
            updated_at: now_ms,
        };
        self.rows.push(row);
        self.next_id = self.next_id + 1;
        proof {
            assert(self@.rows =~= pre.rows.push(spec_persist(pre, payload@, now_ms).0.rows.last()));
            assert(self@ == spec_persist(pre, payload@, now_ms).0);
        }
        Ok(id)
    }

    /// Durably records the failure of a job that had no row of its own: a
    /// fresh pending row with the payload and the error text, to be retried
    /// by the next recovery pass. On a write fault nothing can be recorded.
    pub fn persist_failed(&mut self, payload: &JobPayload, error: &String, now_ms: u64)
        requires
            old(self)@.wf(),
        ensures
            final(self)@ == spec_persist_failed(old(self)@, payload@, error@, now_ms),
            final(self)@.wf(),
    {
        let ghost pre = self@;
        if self.write_fault || self.next_id == u64::MAX {
            return ;
        }
        let row = JobRow {
            id: self.next_id,
            payload: payload.clone(),
            status: JobStatus::Pending,
            retry_count: 0,
            max_retries: DEFAULT_MAX_RETRIES,
            last_error: Some(error.clone()),
            created_at: now_ms,
            updated_at: now_ms,
        };
        self.rows.push(row);
        self.next_id = self.next_id + 1;
        proof {
            assert(self@.rows =~= pre.rows.push(
                spec_persist_failed(pre, payload@, error@, now_ms).rows.last(),
            ));
            assert(self@ == spec_persist_failed(pre, payload@, error@, now_ms));
        }
    }

    /// Deletes the row with `id` (the job succeeded), if present.
    pub fn delete_row(&mut self, id: u64)
        requires
            old(self)@.wf(),
        ensures
            final(self)@ == spec_delete_row(old(self)@, id),
            final(self)@.wf(),
    {
        let ghost pre = self@;
        match self.position(id) {
            Some(i) => {
                proof {
                    lemma_qrow_index(pre.rows, id);
                }
                self.rows.remove(i);
                proof {
                    assert(self@.rows =~= pre.rows.remove(i as int));
                    assert(self@ == spec_delete_row(pre, id));
                }
            },
            None => {},
        }
    }

    /// Records one failed attempt on the row with `id`: retry count, error
    /// text and update instant; the row turns failed for good when its
    /// attempts are exhausted.
    pub fn record_failure(&mut self, id: u64, error: &String, now_ms: u64)
        requires
            old(self)@.wf(),
        ensures
            final(self)@ == spec_record_failure(old(self)@, id, error@, now_ms),
            final(self)@.wf(),
    {
        let ghost pre = self@;
        match self.position(id) {
            Some(i) => {
                proof {
                    lemma_qrow_index(pre.rows, id);
                }
                let prev = self.rows.remove(i);
                let retries = if prev.retry_count < u32::MAX {
                    prev.retry_count + 1
                } else {
                    prev.retry_count
                };
                let row = JobRow {
                    id: prev.id,
                    payload: prev.payload,
                    status: if retries >= prev.max_retries {
                        JobStatus::Failed
                    } else {
                        prev.status
                    },
                    retry_count: retries,
                    max_retries: prev.max_retries,
                    last_error: Some(error.clone()),
                    created_at: prev.created_at,
                    updated_at: now_ms,
                };
                self.rows.insert(i, row);
                proof {
                    assert(self@.rows =~= pre.rows.update(
                        i as int,
                        failed_once(pre.rows[i as int], error@, now_ms),
                    ));
                    assert(self@ == spec_record_failure(pre, id, error@, now_ms));
                }
            },
            None => {},
        }
    }

    /// The oldest row still awaiting execution with attempts left, if any:
    /// what the crash-recovery pass runs next.
    pub fn next_pending(&self) -> (r: Option<(u64, JobPayload)>)
        ensures
            match (r, spec_next_pending(self@)) {
                (Some((id, p)), Some((id2, p2))) => id == id2 && p@ == p2,
                (None, None) => true,
                _ => false,
            },
    {
        let ghost s = self@.rows;
        let n = self.rows.len();
        let mut i: usize = 0;
        while i < n
            invariant
                s == self@.rows,
                n == self.rows.len(),
                i <= n,
                forall|j: int| 0 <= j < i ==> !runnable(s[j]),
            decreases n - i,
        {
            let row = &self.rows[i];
            let has_attempts = row.retry_count < row.max_retries;
            let is_pending = match row.status {
                JobStatus::Pending => true,
                JobStatus::Failed => false,
            };
            if is_pending && has_attempts {
                proof {
                    lemma_runnable_index(s);
                    if runnable_index(s) is None {
                        assert(runnable(s[i as int]));
                    }
                    if let Some(k) = runnable_index(s) {
                        if k < i {
                            assert(runnable(s[k]));
                        }
                        if k > i {
                            assert(runnable(s[i as int]));
                        }
                    }
                }
                return Some((row.id, row.payload.clone()));
            }
            i = i + 1;
        }
        proof {
            lemma_runnable_index(s);
        }
        None
    }
}

} // verus!

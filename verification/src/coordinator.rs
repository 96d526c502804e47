//! The coordination context: one value owning the change tracker, the durable
//! queue, the in-process channel and the models of the metadata store and the
//! full-text index. Constructed once at start-up and passed by reference to
//! the watcher glue, the command layer and the worker.

use vstd::prelude::*;

verus! {

use crate::disk::{file_index, Disk, DiskFileView};
use crate::fingerprint::{MetaView, WatchedFileMetadata};
use crate::index_model::{index_distinct, DocView, SearchIndex, SearchResult, spec_search};
use crate::jobs::{
    ControlSignal,
    IndexingJob,
    JobPayload,
    JobRow,
    PayloadView,
    PersistenceError,
    SignalView,
};
use crate::queue::{spec_persist, DurableQueue, QueueView, qrow_index, spec_next_pending};
use crate::store::{row_index, store_distinct, FileRow, MetadataStore, RowView};
use crate::store::{spec_delete, spec_insert_ignore, spec_rename, spec_update_fingerprint};
use crate::text::{content_size, extract_title_from_path, title_of_path, word_count, word_count_of};
use crate::tracker::{
    spec_classify_create,
    spec_classify_modify,
    spec_classify_remove,
    spec_cleanup,
    spec_lock,
    spec_unlock,
    expired_metas,
    meta_opt_view,
    CreateClassification,
    CreateClassView,
    ModifyClassification,
    ModifyClassView,
    RemoveClassification,
    SaveTracker,
    TrackerView,
};

use crate::index_model::{spec_add_or_replace, spec_delete_doc};
use crate::jobs::{JobError, JobRowView, JobStatus};
use crate::queue::{
    failed_once,
    lemma_qrow_index,
    lemma_runnable_index,
    runnable,
    runnable_index,
    spec_delete_row,
    spec_record_failure,
};
use crate::store::spec_mark_indexed;
use crate::disk::{disk_distinct, spec_remove_file, spec_rename_file, spec_write};
use crate::paths::{joined_path, RenameResult};
use crate::text::last_occurrence_of;
use crate::tracker::{spec_clear_write_time, spec_record_write};

/// Spec-level image of a [`Coordinator`].
pub struct CoordinatorView {
    pub tracker: TrackerView,
    pub queue: QueueView,
    pub channel: Seq<SignalView>,
    pub store: Seq<RowView>,
    pub index: Seq<DocView>,
    pub watching: bool,
}

impl CoordinatorView {
    /// Validity of every component.
    pub open spec fn wf(self) -> bool {
        &&& self.tracker.wf()
        &&& self.queue.wf()
        &&& store_distinct(self.store)
        &&& index_distinct(self.index)
    }

    /// The subsystem before anything happened.
    pub open spec fn initial() -> CoordinatorView {
        CoordinatorView {
            tracker: TrackerView::initial(),
            queue: QueueView::initial(),
            channel: Seq::empty(),
            store: Seq::empty(),
            index: Seq::empty(),
            watching: true,
        }
    }
}

/// Effect and outcome of accepting one job: the row is durably written
/// first, then the job enters the channel; a failed write changes nothing,
/// and the caller (holder of the corresponding lock) must compensate.
pub open spec fn spec_dispatch(cv: CoordinatorView, pv: PayloadView, now: u64) -> (
    CoordinatorView,
    Result<u64, PersistenceError>,
) {
    let (qv, r) = spec_persist(cv.queue, pv, now);
    match r {
        Ok(id) => (
            CoordinatorView {
                queue: qv,
                channel: cv.channel.push(
                    SignalView::Job(crate::jobs::JobView { db_id: Some(id), payload: pv }),
                ),
                ..cv
            },
            Ok(id),
        ),
        Err(e) => (cv, Err(e)),
    }
}

/// Effect and outcome of reacting to a confirmed external creation: fresh
/// metadata row, lock, update job; the lock is released again when the job
/// could not be accepted.
pub open spec fn spec_handle_external_create(
    cv: CoordinatorView,
    root: Seq<char>,
    p: Seq<char>,
    size: u64,
    word_count: u64,
    now: u64,
) -> (CoordinatorView, Result<u64, PersistenceError>) {
    let cv1 = CoordinatorView {
        store: spec_insert_ignore(cv.store, p, title_of_path(p), size, word_count),
        tracker: spec_lock(cv.tracker, p),
        ..cv
    };
    let (cv2, r) = spec_dispatch(
        cv1,
        PayloadView::UpdateOrSave { root_path: root, relative_path: p },
        now,
    );
    match r {
        Ok(_) => (cv2, r),
        Err(_) => (CoordinatorView { tracker: spec_unlock(cv2.tracker, p), ..cv2 }, r),
    }
}

/// Effect and outcome of reacting to a confirmed external modification:
/// refreshed fingerprint, lock, update job; the lock is released again when
/// the job could not be accepted.
pub open spec fn spec_handle_external_modify(
    cv: CoordinatorView,
    root: Seq<char>,
    p: Seq<char>,
    size: u64,
    word_count: u64,
    now: u64,
) -> (CoordinatorView, Result<u64, PersistenceError>) {
    let cv1 = CoordinatorView {
        store: spec_update_fingerprint(cv.store, p, size, word_count),
        tracker: spec_lock(cv.tracker, p),
        ..cv
    };
    let (cv2, r) = spec_dispatch(
        cv1,
        PayloadView::UpdateOrSave { root_path: root, relative_path: p },
        now,
    );
    match r {
        Ok(_) => (cv2, r),
        Err(_) => (CoordinatorView { tracker: spec_unlock(cv2.tracker, p), ..cv2 }, r),
    }
}

/// Effect and outcome of reacting to a confirmed external delete: metadata
/// row removed, lock, delete job; the lock is released again when the job
/// could not be accepted.
pub open spec fn spec_handle_external_delete(cv: CoordinatorView, p: Seq<char>, now: u64) -> (
    CoordinatorView,
    Result<u64, PersistenceError>,
) {
    let cv1 = CoordinatorView {
        store: spec_delete(cv.store, p),
        tracker: spec_lock(cv.tracker, p),
        ..cv
    };
    let (cv2, r) = spec_dispatch(cv1, PayloadView::Delete { relative_path: p }, now);
    match r {
        Ok(_) => (cv2, r),
        Err(_) => (CoordinatorView { tracker: spec_unlock(cv2.tracker, p), ..cv2 }, r),
    }
}

/// Effect and outcome of reacting to a fused external rename or move: the
/// metadata row moves, both paths lock, one rename job; both locks are
/// released again when the job could not be accepted.
pub open spec fn spec_handle_external_rename_move(
    cv: CoordinatorView,
    root: Seq<char>,
    old_p: Seq<char>,
    new_p: Seq<char>,
    now: u64,
) -> (CoordinatorView, Result<u64, PersistenceError>) {
    let cv1 = CoordinatorView {
        store: spec_rename(cv.store, old_p, new_p, title_of_path(new_p)),
        tracker: spec_lock(spec_lock(cv.tracker, old_p), new_p),
        ..cv
    };
    let (cv2, r) = spec_dispatch(
        cv1,
        PayloadView::RenameOrMove {
            root_path: root,
            old_relative_path: old_p,
            new_relative_path: new_p,
        },
        now,
    );
    match r {
        Ok(_) => (cv2, r),
        Err(_) => (
            CoordinatorView {
                tracker: spec_unlock(spec_unlock(cv2.tracker, old_p), new_p),
                ..cv2
            },
            r,
        ),
    }
}

/// Raw kinds of watcher notification the subsystem reacts to.
#[derive(Debug, Clone, Copy, PartialEq, Eq, Structural)]
pub enum WatchEventKind {
    Create,
    Modify,
    Remove,
}

/// The content a fingerprint is computed from: the file's content, or empty
/// when the path cannot be read.
pub open spec fn disk_content_or_empty(disk: Seq<DiskFileView>, p: Seq<char>) -> Seq<char> {
    match file_index(disk, p) {
        Some(i) => disk[i].content,
        None => Seq::empty(),
    }
}

/// The modification instant seen on disk, or zero when the path is gone.
pub open spec fn disk_mtime_or_zero(disk: Seq<DiskFileView>, p: Seq<char>) -> u64 {
    match file_index(disk, p) {
        Some(i) => disk[i].mtime,
        None => 0,
    }
}

/// The fingerprint the store holds for `p`, if any.
pub open spec fn store_meta_of(s: Seq<RowView>, p: Seq<char>) -> Option<MetaView> {
    match row_index(s, p) {
        Some(i) => Some(
            MetaView {
                path: s[i].path,
                title: s[i].title,
                size: s[i].size,
                word_count: s[i].word_count,
            },
        ),
        None => None,
    }
}

/// Effect of one watcher notification on the whole subsystem: the tracker
/// classifies it, and the confirmed external changes run their handlers.
pub open spec fn spec_handle_event(
    cv: CoordinatorView,
    kind: WatchEventKind,
    p: Seq<char>,
    root: Seq<char>,
    disk: Seq<DiskFileView>,
    now: u64,
) -> CoordinatorView {
    match kind {
        WatchEventKind::Create => {
            let content = disk_content_or_empty(disk, p);
            let size = content.len() as u64;
            let words = word_count_of(content) as u64;
            let (tv, cls) = spec_classify_create(
                cv.tracker,
                p,
                size,
                words,
                title_of_path(p),
                now,
            );
            let cv1 = CoordinatorView { tracker: tv, ..cv };
            match cls {
                CreateClassView::InternalEcho => cv1,
                CreateClassView::FusedRenameOrMove { old_path, .. } => (
                spec_handle_external_rename_move(cv1, root, old_path, p, now).0),
                CreateClassView::ExternalCreate => (
                spec_handle_external_create(cv1, root, p, size, words, now).0),
            }
        },
        WatchEventKind::Modify => {
            let exists_on_disk = file_index(disk, p) is Some;
            let content = disk_content_or_empty(disk, p);
            let size = content.len() as u64;
            let words = word_count_of(content) as u64;
            let (tv, cls) = spec_classify_modify(
                cv.tracker,
                p,
                exists_on_disk,
                disk_mtime_or_zero(disk, p),
                store_meta_of(cv.store, p),
                size,
                words,
                now,
            );
            let cv1 = CoordinatorView { tracker: tv, ..cv };
            match cls {
                ModifyClassView::InternalEcho => cv1,
                ModifyClassView::MarkedRenameSource => cv1,
                ModifyClassView::UntrackedMissing => cv1,
                ModifyClassView::TimestampEcho => cv1,
                ModifyClassView::FusedRenameOrMove { old_path, .. } => (
                spec_handle_external_rename_move(cv1, root, old_path, p, now).0),
                ModifyClassView::ExternalModify => (
                spec_handle_external_modify(cv1, root, p, size, words, now).0),
            }
        },
        WatchEventKind::Remove => {
            let (tv, _) = spec_classify_remove(cv.tracker, p, store_meta_of(cv.store, p), now);
            CoordinatorView { tracker: tv, ..cv }
        },
    }
}

/// Effect of confirming one external delete per expired fingerprint, in
/// order.
pub open spec fn spec_delete_all(cv: CoordinatorView, metas: Seq<MetaView>, now: u64) -> CoordinatorView
    decreases metas.len(),
{
    if metas.len() == 0 {
        cv
    } else {
        spec_delete_all(
            spec_handle_external_delete(cv, metas[0].path, now).0,
            metas.drop_first(),
            now,
        )
    }
}

/// Effect of one sweep: expired sources leave the tracker and each one is
/// treated as a confirmed external delete.
pub open spec fn spec_sweep(cv: CoordinatorView, now: u64) -> CoordinatorView {
    let w = cv.tracker.detection_window_ms;
    let metas = expired_metas(cv.tracker.rename_sources, now, w) + expired_metas(
        cv.tracker.move_sources,
        now,
        w,
    );
    spec_delete_all(CoordinatorView { tracker: spec_cleanup(cv.tracker, now), ..cv }, metas, now)
}

/// The coordination context. All watcher classification, queueing and worker
/// bookkeeping go through one value of this type.
pub struct Coordinator {
    pub(crate) tracker: SaveTracker,
    pub(crate) queue: DurableQueue,
    pub(crate) channel: Vec<ControlSignal>,
    pub(crate) store: MetadataStore,
    pub(crate) index: SearchIndex,
    pub(crate) watching: bool,
}

impl View for Coordinator {
    type V = CoordinatorView;

    closed spec fn view(&self) -> CoordinatorView {
        CoordinatorView {
            tracker: self.tracker@,
            queue: self.queue@,
            channel: self.channel@.map_values(|s: ControlSignal| s@),
            store: self.store@,
            index: self.index@,
            watching: self.watching,
        }
    }
}

impl Coordinator {
    /// A fresh subsystem: empty tracker, queue, channel, store and index.
    pub fn new() -> (c: Self)
        ensures
            c@ == CoordinatorView::initial(),
            c@.wf(),
    {
        let c = Coordinator {
            tracker: SaveTracker::new(),
            queue: DurableQueue::new(),
            channel: Vec::new(),
            store: MetadataStore::new(),
            index: SearchIndex::new(),
            watching: true,
        };
        proof {
            assert(c@.channel =~= Seq::<SignalView>::empty());
            assert(c@ == CoordinatorView::initial());
        }
        c
    }

    /// Accepts an update/save job for `relative_path`: durable row first,
    /// then the channel. The caller is responsible for holding the path's
    /// activity lock and for releasing it if this call fails.
    pub fn dispatch_update_job(
        &mut self,
        root_path: String,
        relative_path: String,
        now_ms: u64,
    ) -> (r: Result<u64, PersistenceError>)
        requires
            old(self)@.wf(),
        ensures
            ({
                let pv = PayloadView::UpdateOrSave {
                    root_path: root_path@,
                    relative_path: relative_path@,
                };
                final(self)@ == spec_dispatch(old(self)@, pv, now_ms).0 && r == spec_dispatch(
                    old(self)@,
                    pv,
                    now_ms,
                ).1
            }),
            final(self)@.wf(),
    {
        let payload = JobPayload::UpdateOrSave { root_path, relative_path };
        self.dispatch(payload, now_ms)
    }

    /// Accepts a rename/move job. The caller is responsible for holding both
    /// paths' activity locks and for releasing them if this call fails.
    pub fn dispatch_rename_job(
        &mut self,
        root_path: String,
        old_relative_path: String,
        new_relative_path: String,
        now_ms: u64,
    ) -> (r: Result<u64, PersistenceError>)
        requires
            old(self)@.wf(),
        ensures
            ({
                let pv = PayloadView::RenameOrMove {
                    root_path: root_path@,
                    old_relative_path: old_relative_path@,
                    new_relative_path: new_relative_path@,
                };
                final(self)@ == spec_dispatch(old(self)@, pv, now_ms).0 && r == spec_dispatch(
                    old(self)@,
                    pv,
                    now_ms,
                ).1
            }),
            final(self)@.wf(),
    {
        let payload = JobPayload::RenameOrMove {
            root_path,
            old_relative_path,
            new_relative_path,
        };
        self.dispatch(payload, now_ms)
    }

    /// Accepts a delete job. The caller is responsible for holding the
    /// path's activity lock and for releasing it if this call fails.
    pub fn dispatch_delete_job(&mut self, relative_path: String, now_ms: u64) -> (r: Result<
        u64,
        PersistenceError,
    >)
        requires
            old(self)@.wf(),
        ensures
            ({
                let pv = PayloadView::Delete { relative_path: relative_path@ };
                final(self)@ == spec_dispatch(old(self)@, pv, now_ms).0 && r == spec_dispatch(
                    old(self)@,
                    pv,
                    now_ms,
                ).1
            }),
            final(self)@.wf(),
    {
        let payload = JobPayload::Delete { relative_path };
        self.dispatch(payload, now_ms)
    }

    fn dispatch(&mut self, payload: JobPayload, now_ms: u64) -> (r: Result<u64, PersistenceError>)
        requires
            old(self)@.wf(),
        ensures
            final(self)@ == spec_dispatch(old(self)@, payload@, now_ms).0,
            r == spec_dispatch(old(self)@, payload@, now_ms).1,
            final(self)@.wf(),
    {
        let ghost pre = self@;
        match self.queue.persist(&payload, now_ms) {
            Ok(id) => {
                self.channel.push(ControlSignal::Job(IndexingJob { db_id: Some(id), payload }));
                proof {
                    assert(self@.channel =~= pre.channel.push(
                        SignalView::Job(
                            crate::jobs::JobView { db_id: Some(id), payload: payload@ },
                        ),
                    ));
                    assert(self@ == spec_dispatch(pre, payload@, now_ms).0);
                }
                Ok(id)
            },
            Err(e) => Err(e),
        }
    }

    /// Reacts to a confirmed external creation of `rel_path` with the given
    /// fresh fingerprint.
    pub fn handle_external_create(
        &mut self,
        root_path: &String,
        rel_path: &String,
        size: u64,
        words: u64,
        now_ms: u64,
    ) -> (r: Result<u64, PersistenceError>)
        requires
            old(self)@.wf(),
        ensures
            final(self)@ == spec_handle_external_create(
                old(self)@,
                root_path@,
                rel_path@,
                size,
                words,
                now_ms,
            ).0,
            r == spec_handle_external_create(
                old(self)@,
                root_path@,
                rel_path@,
                size,
                words,
                now_ms,
            ).1,
            final(self)@.wf(),
    {
        let title = extract_title_from_path(rel_path.as_str());
        self.store.insert_ignore(rel_path, &title, size, words);
        self.tracker.lock(rel_path);
        let r = self.dispatch_update_job(root_path.clone(), rel_path.clone(), now_ms);
        if r.is_err() {
            self.tracker.unlock(rel_path);
        }
        r
    }

    /// Reacts to a confirmed external modification of `rel_path` with the
    /// given fresh fingerprint.
    pub fn handle_external_modify(
        &mut self,
        root_path: &String,
        rel_path: &String,
        size: u64,
        words: u64,
        now_ms: u64,
    ) -> (r: Result<u64, PersistenceError>)
        requires
            old(self)@.wf(),
        ensures
            final(self)@ == spec_handle_external_modify(
                old(self)@,
                root_path@,
                rel_path@,
                size,
                words,
                now_ms,
            ).0,
            r == spec_handle_external_modify(
                old(self)@,
                root_path@,
                rel_path@,
                size,
                words,
                now_ms,
            ).1,
            final(self)@.wf(),
    {
        self.store.update_fingerprint(rel_path, size, words);
        self.tracker.lock(rel_path);
        let r = self.dispatch_update_job(root_path.clone(), rel_path.clone(), now_ms);
        if r.is_err() {
            self.tracker.unlock(rel_path);
        }
        r
    }

    /// Reacts to a confirmed external delete of `rel_path` (its
    /// disappearance found no matching appearance within the window).
    pub fn handle_external_delete(&mut self, rel_path: &String, now_ms: u64) -> (r: Result<
        u64,
        PersistenceError,
    >)
        requires
            old(self)@.wf(),
        ensures
            final(self)@ == spec_handle_external_delete(old(self)@, rel_path@, now_ms).0,
            r == spec_handle_external_delete(old(self)@, rel_path@, now_ms).1,
            final(self)@.wf(),
    {
        self.store.delete(rel_path);
        self.tracker.lock(rel_path);
        let r = self.dispatch_delete_job(rel_path.clone(), now_ms);
        if r.is_err() {
            self.tracker.unlock(rel_path);
        }
        r
    }

    /// Reacts to a fused external rename or move from `old_path` to
    /// `new_path`.
    pub fn handle_external_rename_move(
        &mut self,
        root_path: &String,
        old_path: &String,
        new_path: &String,
        now_ms: u64,
    ) -> (r: Result<u64, PersistenceError>)
        requires
            old(self)@.wf(),
        ensures
            final(self)@ == spec_handle_external_rename_move(
                old(self)@,
                root_path@,
                old_path@,
                new_path@,
                now_ms,
            ).0,
            r == spec_handle_external_rename_move(
                old(self)@,
                root_path@,
                old_path@,
                new_path@,
                now_ms,
            ).1,
            final(self)@.wf(),
    {
        let new_title = extract_title_from_path(new_path.as_str());
        self.store.rename_path(old_path, new_path, &new_title);
        self.tracker.lock(old_path);
        self.tracker.lock(new_path);
        let r = self.dispatch_rename_job(
            root_path.clone(),
            old_path.clone(),
            new_path.clone(),
            now_ms,
        );
        if r.is_err() {
            self.tracker.unlock(old_path);
            self.tracker.unlock(new_path);
        }
        r
    }

    /// Reacts to one raw watcher notification: classification first, then
    /// the handler the outcome calls for. An echo of the application's own
    /// work changes nothing but the tracker.
    pub fn handle_event(
        &mut self,
        kind: WatchEventKind,
        rel_path: &String,
        root_path: &String,
        disk: &Disk,
        now_ms: u64,
    )
        requires
            old(self)@.wf(),
        ensures
            final(self)@ == spec_handle_event(
                old(self)@,
                kind,
                rel_path@,
                root_path@,
                disk@,
                now_ms,
            ),
            final(self)@.wf(),
    {
        match kind {
            WatchEventKind::Create => {
                let content = match disk.read(rel_path) {
                    Some(c) => c,
                    None => String::new(),
                };
                let size = content_size(content.as_str());
                let words = word_count(content.as_str());
                let title = extract_title_from_path(rel_path.as_str());
                let cls = self.tracker.classify_create(rel_path, size, words, &title, now_ms);
                match cls {
                    CreateClassification::InternalEcho => {},
                    CreateClassification::FusedRenameOrMove { old_path, .. } => {
                        self.handle_external_rename_move(root_path, &old_path, rel_path, now_ms);
                    },
                    CreateClassification::ExternalCreate => {
                        self.handle_external_create(root_path, rel_path, size, words, now_ms);
                    },
                }
            },
            WatchEventKind::Modify => {
                let exists_on_disk = disk.file_exists(rel_path);
                let content = match disk.read(rel_path) {
                    Some(c) => c,
                    None => String::new(),
                };
                let size = content_size(content.as_str());
                let words = word_count(content.as_str());
                let mtime = match disk.mtime_of(rel_path) {
                    Some(t) => t,
                    None => 0,
                };
                let db_meta = self.store.lookup(rel_path);
                let cls = self.tracker.classify_modify(
                    rel_path,
                    exists_on_disk,
                    mtime,
                    db_meta,
                    size,
                    words,
                    now_ms,
                );
                match cls {
                    ModifyClassification::InternalEcho => {},
                    ModifyClassification::MarkedRenameSource => {},
                    ModifyClassification::UntrackedMissing => {},
                    ModifyClassification::TimestampEcho => {},
                    ModifyClassification::FusedRenameOrMove { old_path, .. } => {
                        self.handle_external_rename_move(root_path, &old_path, rel_path, now_ms);
                    },
                    ModifyClassification::ExternalModify => {
                        self.handle_external_modify(root_path, rel_path, size, words, now_ms);
                    },
                }
            },
            WatchEventKind::Remove => {
                let db_meta = self.store.lookup(rel_path);
                self.tracker.classify_remove(rel_path, db_meta, now_ms);
            },
        }
    }

    /// Evicts every expired disappearance from the tracker and treats each
    /// one as a confirmed external delete; returns how many there were.
    /// Called once per watcher loop iteration, before new events.
    pub fn sweep_expired_sources(&mut self, now_ms: u64) -> (r: usize)
        requires
            old(self)@.wf(),
        ensures
            final(self)@ == spec_sweep(old(self)@, now_ms),
            r == expired_metas(
                old(self)@.tracker.rename_sources,
                now_ms,
                old(self)@.tracker.detection_window_ms,
            ).len() + expired_metas(
                old(self)@.tracker.move_sources,
                now_ms,
                old(self)@.tracker.detection_window_ms,
            ).len(),
            final(self)@.wf(),
    {
        let ghost pre = self@;
        let metas = self.tracker.cleanup_expired_sources(now_ms);
        let ghost mvs = metas@.map_values(|m: WatchedFileMetadata| m@);
        let ghost cv0 = self@;
        let n = metas.len();
        let mut i: usize = 0;
        proof {
            assert(mvs.skip(0) =~= mvs);
        }
        while i < n
            invariant
                self@.wf(),
                n == metas.len(),
                i <= n,
                mvs == metas@.map_values(|m: WatchedFileMetadata| m@),
                spec_delete_all(cv0, mvs, now_ms) == spec_delete_all(
                    self@,
                    mvs.skip(i as int),
                    now_ms,
                ),
            decreases n - i,
        {
            proof {
                assert(mvs.skip(i as int)[0] == mvs[i as int]);
                assert(mvs.skip(i as int).drop_first() =~= mvs.skip(i as int + 1));
                assert(mvs[i as int] == metas@[i as int]@);
            }
            self.handle_external_delete(&metas[i].path, now_ms);
            i = i + 1;
        }
        proof {
            assert(mvs.skip(n as int) =~= Seq::<MetaView>::empty());
        }
        n
    }

    /// The subsystem as the next process start finds it: the durable rows,
    /// the store and the index survive; the tracker state and the channel
    /// are process-lifetime and come back empty.
    pub fn restart(self) -> (r: Coordinator)
        ensures
            r@.queue == self@.queue,
            r@.store == self@.store,
            r@.index == self@.index,
            r@.tracker == TrackerView::initial(),
            r@.channel == Seq::<SignalView>::empty(),
            self@.wf() ==> r@.wf(),
    {
        let r = Coordinator {
            tracker: SaveTracker::new(),
            queue: self.queue,
            channel: Vec::new(),
            store: self.store,
            index: self.index,
            watching: true,
        };
        proof {
            assert(r@.channel =~= Seq::<SignalView>::empty());
        }
        r
    }

    /// Whether the filesystem watcher session is still running: whether raw
    /// events still reach the subsystem.
    pub fn is_watching(&self) -> (r: bool)
        ensures
            r == self@.watching,
    {
        self.watching
    }

    /// Stops the filesystem watcher session: the host drops its OS watcher
    /// and delivers no further raw events. Everything else (queue, worker,
    /// store, index) stays as it is.
    pub fn stop_file_watcher(&mut self)
        ensures
            final(self)@ == (CoordinatorView { watching: false, ..old(self)@ }),
    {
        self.watching = false;
    }

    /// Whether an internal operation on `path` is in flight.
    pub fn is_locked(&self, path: &String) -> (r: bool)
        ensures
            r == self@.tracker.locked(path@),
    {
        self.tracker.is_locked(path)
    }

    /// Searches the index model.
    pub fn search(&self, query: &String) -> (r: Vec<SearchResult>)
        ensures
            r@.map_values(|x: SearchResult| x@) == spec_search(self@.index, query@),
    {
        self.index.search(query)
    }

    /// Whether the index holds a document at `path`.
    pub fn index_contains_path(&self, path: &String) -> (r: bool)
        ensures
            r == (crate::index_model::doc_index(self@.index, path@) is Some),
    {
        self.index.contains_path(path)
    }

    /// A copy of the metadata row for `path`, if any.
    pub fn store_row(&self, path: &String) -> (r: Option<FileRow>)
        ensures
            match r {
                Some(row) => row_index(self@.store, path@) is Some && row@ == self@.store[row_index(
                    self@.store,
                    path@,
                ).unwrap()],
                None => row_index(self@.store, path@) is None,
            },
    {
        self.store.get_row(path)
    }

    /// A copy of the durable row with `id`, if any.
    pub fn queue_row(&self, id: u64) -> (r: Option<JobRow>)
        ensures
            match r {
                Some(row) => qrow_index(self@.queue.rows, id) is Some && row@
                    == self@.queue.rows[qrow_index(self@.queue.rows, id).unwrap()],
                None => qrow_index(self@.queue.rows, id) is None,
            },
    {
        self.queue.get_row(id)
    }

    /// How many durable rows the queue holds (pending and failed).
    pub fn queue_len(&self) -> (r: usize)
        ensures
            r == self@.queue.rows.len(),
    {
        self.queue.len()
    }

    /// How many signals wait in the channel.
    pub fn channel_len(&self) -> (r: usize)
        ensures
            r == self@.channel.len(),
    {
        self.channel.len()
    }

    /// Makes every following durable write fail (or succeed again): fault
    /// injection for the durable medium.
    pub fn set_write_fault(&mut self, fault: bool)
        ensures
            final(self)@ == (CoordinatorView {
                queue: QueueView { write_fault: fault, ..old(self)@.queue },
                ..old(self)@
            }),
    {
        self.queue.set_write_fault(fault);
    }

    /// Hands the worker a job over the channel as it is, without writing a
    /// durable row first: what a caller of the raw job channel can do. A
    /// job sent this way survives a crash only once a failed attempt has
    /// written its fallback row.
    pub fn send_job(&mut self, job: IndexingJob)
        ensures
            final(self)@ == (CoordinatorView {
                channel: old(self)@.channel.push(SignalView::Job(job@)),
                ..old(self)@
            }),
    {
        let ghost pre = self@;
        self.channel.push(ControlSignal::Job(job));
        proof {
            assert(self@.channel =~= pre.channel.push(self@.channel.last()));
        }
    }

    /// Asks the worker to exit once the job in hand is done.
    pub fn send_shutdown(&mut self)
        ensures
            final(self)@ == (CoordinatorView {
                channel: old(self)@.channel.push(SignalView::Shutdown),
                ..old(self)@
            }),
    {
        let ghost pre = self@;
        self.channel.push(ControlSignal::Shutdown);
        proof {
            assert(self@.channel =~= pre.channel.push(SignalView::Shutdown));
        }
    }
}



/// Effect and outcome of executing one job against the store and the index.
/// A job that cannot read its document or finds no metadata row fails and
/// changes nothing; a finished job releases the activity locks of every
/// path it touched.
pub open spec fn spec_process_job(
    cv: CoordinatorView,
    pv: PayloadView,
    disk: Seq<DiskFileView>,
    now: u64,
) -> (CoordinatorView, Result<(), JobError>) {
    match pv {
        PayloadView::UpdateOrSave { root_path, relative_path: rel } => {
            match file_index(disk, rel) {
                None => (cv, Err(JobError::MissingFile)),
                Some(fi) => match row_index(cv.store, rel) {
                    None => (cv, Err(JobError::MissingMetadata)),
                    Some(_) => {
                        let content = disk[fi].content;
                        (
                            CoordinatorView {
                                index: spec_add_or_replace(
                                    cv.index,
                                    rel,
                                    title_of_path(rel),
                                    content,
                                ),
                                store: spec_mark_indexed(
                                    cv.store,
                                    rel,
                                    content.len() as u64,
                                    word_count_of(content) as u64,
                                    disk[fi].mtime,
                                ),
                                tracker: spec_unlock(cv.tracker, rel),
                                ..cv
                            },
                            Ok(()),
                        )
                    },
                },
            }
        },
        PayloadView::RenameOrMove {
            root_path,
            old_relative_path: old_p,
            new_relative_path: new_p,
        } => {
            match file_index(disk, new_p) {
                None => (cv, Err(JobError::MissingFile)),
                Some(fi) => match row_index(cv.store, new_p) {
                    None => (cv, Err(JobError::MissingMetadata)),
                    Some(_) => {
                        let content = disk[fi].content;
                        (
                            CoordinatorView {
                                index: spec_add_or_replace(
                                    spec_delete_doc(cv.index, old_p),
                                    new_p,
                                    title_of_path(new_p),
                                    content,
                                ),
                                store: spec_mark_indexed(
                                    cv.store,
                                    new_p,
                                    content.len() as u64,
                                    word_count_of(content) as u64,
                                    disk[fi].mtime,
                                ),
                                tracker: spec_unlock(spec_unlock(cv.tracker, old_p), new_p),
                                ..cv
                            },
                            Ok(()),
                        )
                    },
                },
            }
        },
        PayloadView::Delete { relative_path: rel } => (
            CoordinatorView {
                index: spec_delete_doc(cv.index, rel),
                tracker: spec_unlock(cv.tracker, rel),
                ..cv
            },
            Ok(()),
        ),
    }
}

/// The error text recorded on a durable row for a failed attempt.
pub open spec fn spec_error_message(e: JobError) -> Seq<char> {
    match e {
        JobError::MissingFile => "document missing from disk"@,
        JobError::MissingMetadata => "no metadata row for document"@,
    }
}

/// Effect of releasing the activity locks of all `paths`, in order.
pub open spec fn spec_unlock_all(tv: TrackerView, paths: Seq<Seq<char>>) -> TrackerView
    decreases paths.len(),
{
    if paths.len() == 0 {
        tv
    } else {
        spec_unlock_all(spec_unlock(tv, paths[0]), paths.drop_first())
    }
}

/// Effect of the worker's bookkeeping after a failed attempt: the job's
/// durable row records the failure, and on a terminal failure (attempts
/// exhausted) the job's locks are released so no path stays stuck forever.
/// A job that had no row of its own gets a fresh pending row recording the
/// failure, so the next recovery pass retries it.
pub open spec fn spec_after_failure(
    cv: CoordinatorView,
    db_id: Option<u64>,
    pv: PayloadView,
    e: JobError,
    now: u64,
) -> CoordinatorView {
    match db_id {
        Some(id) => {
            let qv = spec_record_failure(cv.queue, id, spec_error_message(e), now);
            let terminal = match qrow_index(qv.rows, id) {
                Some(i) => qv.rows[i].status == JobStatus::Failed,
                None => false,
            };
            if terminal {
                CoordinatorView {
                    queue: qv,
                    tracker: spec_unlock_all(cv.tracker, pv.lock_paths()),
                    ..cv
                }
            } else {
                CoordinatorView { queue: qv, ..cv }
            }
        },
        None => CoordinatorView {
            queue: crate::queue::spec_persist_failed(cv.queue, pv, spec_error_message(e), now),
            ..cv
        },
    }
}

/// What one worker step did.
#[derive(Debug, Clone, Copy, PartialEq, Eq, Structural)]
pub enum WorkerStatus {
    /// The channel is empty; a live worker would block here.
    Idle,
    /// A job was taken from the channel and executed; its durable row is
    /// gone.
    ProcessedOk,
    /// A job was taken from the channel and failed; its durable row records
    /// the attempt.
    ProcessedErr,
    /// The shutdown signal arrived; the worker exits.
    ShutDown,
}

/// Effect and outcome of the worker taking one signal from the channel.
pub open spec fn spec_worker_step(cv: CoordinatorView, disk: Seq<DiskFileView>, now: u64) -> (
    CoordinatorView,
    WorkerStatus,
) {
    if cv.channel.len() == 0 {
        (cv, WorkerStatus::Idle)
    } else {
        let cv0 = CoordinatorView { channel: cv.channel.drop_first(), ..cv };
        match cv.channel[0] {
            SignalView::Shutdown => (cv0, WorkerStatus::ShutDown),
            SignalView::Job(j) => {
                let (cv1, r) = spec_process_job(cv0, j.payload, disk, now);
                match r {
                    Ok(_) => (
                        match j.db_id {
                            Some(id) => CoordinatorView {
                                queue: spec_delete_row(cv1.queue, id),
                                ..cv1
                            },
                            None => cv1,
                        },
                        WorkerStatus::ProcessedOk,
                    ),
                    Err(e) => (
                        spec_after_failure(cv1, j.db_id, j.payload, e, now),
                        WorkerStatus::ProcessedErr,
                    ),
                }
            },
        }
    }
}

/// What one recovery step did.
#[derive(Debug, Clone, Copy, PartialEq, Eq, Structural)]
pub enum RecoveryStatus {
    /// No row awaits execution: the recovery pass is over.
    Done,
    /// The oldest pending row was executed and deleted.
    Executed,
    /// The oldest pending row failed; the attempt is recorded.
    FailedAttempt,
}

/// Effect and outcome of the recovery pass taking one step: the oldest
/// pending row with attempts left runs as if it had just arrived.
pub open spec fn spec_recovery_step(cv: CoordinatorView, disk: Seq<DiskFileView>, now: u64) -> (
    CoordinatorView,
    RecoveryStatus,
) {
    match spec_next_pending(cv.queue) {
        None => (cv, RecoveryStatus::Done),
        Some((id, pv)) => {
            let (cv1, r) = spec_process_job(cv, pv, disk, now);
            match r {
                Ok(_) => (
                    CoordinatorView { queue: spec_delete_row(cv1.queue, id), ..cv1 },
                    RecoveryStatus::Executed,
                ),
                Err(e) => (
                    spec_after_failure(cv1, Some(id), pv, e, now),
                    RecoveryStatus::FailedAttempt,
                ),
            }
        },
    }
}

/// How many executions the rows still owe: pending rows count their
/// remaining attempts. Every recovery step lowers it.
pub open spec fn row_budget(r: JobRowView) -> nat {
    if runnable(r) {
        (r.max_retries - r.retry_count) as nat
    } else {
        0
    }
}

/// Total remaining attempts over all rows.
pub open spec fn queue_budget(s: Seq<JobRowView>) -> nat
    decreases s.len(),
{
    if s.len() == 0 {
        0
    } else {
        row_budget(s[0]) + queue_budget(s.drop_first())
    }
}

proof fn lemma_budget_remove(s: Seq<JobRowView>, i: int)
    requires
        0 <= i < s.len(),
    ensures
        queue_budget(s.remove(i)) + row_budget(s[i]) == queue_budget(s),
    decreases s.len(),
{
    if i == 0 {
        assert(s.remove(0) =~= s.drop_first());
    } else {
        assert(s.remove(i).drop_first() =~= s.drop_first().remove(i - 1));
        assert(s.remove(i)[0] == s[0]);
        assert(s.drop_first()[i - 1] == s[i]);
        lemma_budget_remove(s.drop_first(), i - 1);
    }
}

proof fn lemma_budget_update(s: Seq<JobRowView>, i: int, r: JobRowView)
    requires
        0 <= i < s.len(),
    ensures
        queue_budget(s.update(i, r)) + row_budget(s[i]) == queue_budget(s) + row_budget(r),
    decreases s.len(),
{
    if i == 0 {
        assert(s.update(0, r).drop_first() =~= s.drop_first());
        assert(s.update(0, r)[0] == r);
    } else {
        assert(s.update(i, r).drop_first() =~= s.drop_first().update(i - 1, r));
        assert(s.update(i, r)[0] == s[0]);
        assert(s.drop_first()[i - 1] == s[i]);
        lemma_budget_update(s.drop_first(), i - 1, r);
    }
}

/// Executing a job payload never touches the durable queue or the channel.
pub proof fn lemma_process_job_touches_no_queue(
    cv: CoordinatorView,
    pv: PayloadView,
    disk: Seq<DiskFileView>,
    now: u64,
)
    ensures
        spec_process_job(cv, pv, disk, now).0.queue == cv.queue,
        spec_process_job(cv, pv, disk, now).0.channel == cv.channel,
{
    match pv {
        PayloadView::UpdateOrSave { .. } => {},
        PayloadView::RenameOrMove { .. } => {},
        PayloadView::Delete { .. } => {},
    }
}

/// Every recovery step that still finds work strictly lowers the queue's
/// remaining attempts: the recovery pass ends.
pub proof fn lemma_recovery_step_budget(cv: CoordinatorView, disk: Seq<DiskFileView>, now: u64)
    requires
        cv.wf(),
    ensures
        spec_recovery_step(cv, disk, now).1 != RecoveryStatus::Done ==> queue_budget(
            spec_recovery_step(cv, disk, now).0.queue.rows,
        ) < queue_budget(cv.queue.rows),
{
    lemma_runnable_index(cv.queue.rows);
    match spec_next_pending(cv.queue) {
        None => {},
        Some((id, pv)) => {
            let k = runnable_index(cv.queue.rows).unwrap();
            let (cv1, r) = spec_process_job(cv, pv, disk, now);
            lemma_process_job_touches_no_queue(cv, pv, disk, now);
            lemma_qrow_index(cv1.queue.rows, id);
            if let Some(j) = qrow_index(cv1.queue.rows, id) {
                if j != k {
                    assert(cv.queue.rows[j].id == cv.queue.rows[k].id);
                }
            }
            if qrow_index(cv1.queue.rows, id) is None {
                assert(cv1.queue.rows[k].id == id);
            }
            assert(qrow_index(cv1.queue.rows, id) == Some(k));
            match r {
                Ok(_) => {
                    lemma_budget_remove(cv.queue.rows, k);
                },
                Err(e) => {
                    lemma_budget_update(
                        cv.queue.rows,
                        k,
                        failed_once(cv.queue.rows[k], spec_error_message(e), now),
                    );
                },
            }
        },
    }
}

/// The state the crash-recovery pass leaves behind: `spec_recovery_step`
/// iterated until no runnable row remains. Well defined for a valid state;
/// every step strictly lowers the queue's remaining attempts.
pub open spec fn spec_recover(cv: CoordinatorView, disk: Seq<DiskFileView>, now: u64) -> CoordinatorView
    decreases queue_budget(cv.queue.rows),
        when cv.wf()
{
    let (cv1, st) = spec_recovery_step(cv, disk, now);
    if st == RecoveryStatus::Done {
        cv
    } else {
        proof {
            lemma_recovery_step_budget(cv, disk, now);
        }
        spec_recover(cv1, disk, now)
    }
}

/// Every worker step that processes a job consumes one channel entry: the
/// drain ends.
pub proof fn lemma_worker_step_channel_shrinks(cv: CoordinatorView, disk: Seq<DiskFileView>, now: u64)
    ensures
        ({
            let (cv1, st) = spec_worker_step(cv, disk, now);
            (st == WorkerStatus::ProcessedOk || st == WorkerStatus::ProcessedErr)
                ==> cv1.channel.len() == cv.channel.len() - 1
        }),
{
    if cv.channel.len() > 0 {
        let cv0 = CoordinatorView { channel: cv.channel.drop_first(), ..cv };
        match cv.channel[0] {
            SignalView::Shutdown => {},
            SignalView::Job(j) => {
                lemma_process_job_touches_no_queue(cv0, j.payload, disk, now);
            },
        }
    }
}

/// The state and outcome the live worker loop leaves behind:
/// `spec_worker_step` iterated until the channel is empty or the shutdown
/// signal arrives. Every processing step consumes one channel entry.
pub open spec fn spec_drain_channel(cv: CoordinatorView, disk: Seq<DiskFileView>, now: u64) -> (
    CoordinatorView,
    WorkerStatus,
)
    decreases cv.channel.len(),
{
    let (cv1, st) = spec_worker_step(cv, disk, now);
    if st == WorkerStatus::ProcessedOk || st == WorkerStatus::ProcessedErr {
        proof {
            lemma_worker_step_channel_shrinks(cv, disk, now);
        }
        spec_drain_channel(cv1, disk, now)
    } else {
        (cv1, st)
    }
}

fn error_message(e: JobError) -> (r: String)
    ensures
        r@ == spec_error_message(e),
{
    match e {
        JobError::MissingFile => String::from_str("document missing from disk"),
        JobError::MissingMetadata => String::from_str("no metadata row for document"),
    }
}

impl Coordinator {
    /// Executes one job payload against the store and the index, and
    /// releases the activity locks of every path it touched. A job that
    /// cannot read its document or finds no metadata row fails and changes
    /// nothing; the caller records the attempt.
    pub fn process_job(&mut self, payload: &JobPayload, disk: &Disk, now_ms: u64) -> (r: Result<
        (),
        JobError,
    >)
        requires
            old(self)@.wf(),
        ensures
            final(self)@ == spec_process_job(old(self)@, payload@, disk@, now_ms).0,
            r == spec_process_job(old(self)@, payload@, disk@, now_ms).1,
            final(self)@.wf(),
    {
        match payload {
            JobPayload::UpdateOrSave { root_path: _, relative_path } => {
                match disk.read(relative_path) {
                    None => Err(JobError::MissingFile),
                    Some(content) => {
                        if !self.store.contains(relative_path) {
                            return Err(JobError::MissingMetadata);
                        }
                        let title = extract_title_from_path(relative_path.as_str());
                        self.index.add_or_replace(relative_path, &title, &content);
                        let size = content_size(content.as_str());
                        let words = word_count(content.as_str());
                        let mtime = match disk.mtime_of(relative_path) {
                            Some(t) => t,
                            None => 0,
                        };
                        self.store.mark_indexed(relative_path, size, words, mtime);
                        self.tracker.unlock(relative_path);
                        Ok(())
                    },
                }
            },
            JobPayload::RenameOrMove {
                root_path: _,
                old_relative_path,
                new_relative_path,
            } => {
                match disk.read(new_relative_path) {
                    None => Err(JobError::MissingFile),
                    Some(content) => {
                        if !self.store.contains(new_relative_path) {
                            return Err(JobError::MissingMetadata);
                        }
                        let title = extract_title_from_path(new_relative_path.as_str());
                        self.index.delete_by_path(old_relative_path);
                        self.index.add_or_replace(new_relative_path, &title, &content);
                        let size = content_size(content.as_str());
                        let words = word_count(content.as_str());
                        let mtime = match disk.mtime_of(new_relative_path) {
                            Some(t) => t,
                            None => 0,
                        };
                        self.store.mark_indexed(new_relative_path, size, words, mtime);
                        self.tracker.unlock(old_relative_path);
                        self.tracker.unlock(new_relative_path);
                        Ok(())
                    },
                }
            },
            JobPayload::Delete { relative_path } => {
                self.index.delete_by_path(relative_path);
                self.tracker.unlock(relative_path);
                Ok(())
            },
        }
    }

    fn unlock_all(&mut self, paths: &Vec<String>)
        requires
            old(self)@.wf(),
        ensures
            final(self)@ == (CoordinatorView {
                tracker: spec_unlock_all(
                    old(self)@.tracker,
                    paths@.map_values(|p: String| p@),
                ),
                ..old(self)@
            }),
            final(self)@.wf(),
    {
        let ghost pre = self@;
        let ghost pvs = paths@.map_values(|p: String| p@);
        let n = paths.len();
        let mut i: usize = 0;
        proof {
            assert(pvs.skip(0) =~= pvs);
        }
        while i < n
            invariant
                self@.wf(),
                n == paths.len(),
                i <= n,
                pvs == paths@.map_values(|p: String| p@),
                self@.queue == pre.queue,
                self@.channel == pre.channel,
                self@.store == pre.store,
                self@.index == pre.index,
                self@.watching == pre.watching,
                spec_unlock_all(pre.tracker, pvs) == spec_unlock_all(
                    self@.tracker,
                    pvs.skip(i as int),
                ),
            decreases n - i,
        {
            proof {
                assert(pvs.skip(i as int)[0] == pvs[i as int]);
                assert(pvs.skip(i as int).drop_first() =~= pvs.skip(i as int + 1));
            }
            self.tracker.unlock(&paths[i]);
            i = i + 1;
        }
        proof {
            assert(pvs.skip(n as int) =~= Seq::<Seq<char>>::empty());
        }
    }

    fn after_failure(&mut self, db_id: Option<u64>, payload: &JobPayload, e: JobError, now_ms: u64)
        requires
            old(self)@.wf(),
        ensures
            final(self)@ == spec_after_failure(old(self)@, db_id, payload@, e, now_ms),
            final(self)@.wf(),
    {
        match db_id {
            Some(id) => {
                let msg = error_message(e);
                self.queue.record_failure(id, &msg, now_ms);
                let terminal = match self.queue.get_row(id) {
                    Some(row) => match row.status {
                        JobStatus::Failed => true,
                        JobStatus::Pending => false,
                    },
                    None => false,
                };
                if terminal {
                    let paths = payload.paths_to_unlock();
                    self.unlock_all(&paths);
                }
            },
            None => {
                let msg = error_message(e);
                self.queue.persist_failed(payload, &msg, now_ms);
            },
        }
    }

    /// Takes one signal from the channel: executes a job (deleting its
    /// durable row on success, recording the attempt on failure, and on a
    /// terminal failure releasing its locks), or acknowledges shutdown.
    pub fn worker_step(&mut self, disk: &Disk, now_ms: u64) -> (r: WorkerStatus)
        requires
            old(self)@.wf(),
        ensures
            final(self)@ == spec_worker_step(old(self)@, disk@, now_ms).0,
            r == spec_worker_step(old(self)@, disk@, now_ms).1,
            final(self)@.wf(),
            r == WorkerStatus::Idle ==> final(self)@.channel.len() == 0,
            r != WorkerStatus::Idle ==> final(self)@.channel.len() == old(self)@.channel.len() - 1,
    {
        let ghost pre = self@;
        if self.channel.len() == 0 {
            return WorkerStatus::Idle;
        }
        let sig = self.channel.remove(0);
        proof {
            assert(self@.channel =~= pre.channel.drop_first());
            assert(sig@ == pre.channel[0]);
        }
        match sig {
            ControlSignal::Shutdown => WorkerStatus::ShutDown,
            ControlSignal::Job(job) => {
                match self.process_job(&job.payload, disk, now_ms) {
                    Ok(_) => {
                        match job.db_id {
                            Some(id) => {
                                self.queue.delete_row(id);
                            },
                            None => {},
                        }
                        WorkerStatus::ProcessedOk
                    },
                    Err(e) => {
                        self.after_failure(job.db_id, &job.payload, e, now_ms);
                        WorkerStatus::ProcessedErr
                    },
                }
            },
        }
    }

    /// One step of the crash-recovery pass: runs the oldest durable row
    /// still awaiting execution, if any. Every step that is not `Done`
    /// lowers the queue's remaining attempts, so the pass ends.
    pub fn recovery_step(&mut self, disk: &Disk, now_ms: u64) -> (r: RecoveryStatus)
        requires
            old(self)@.wf(),
        ensures
            final(self)@ == spec_recovery_step(old(self)@, disk@, now_ms).0,
            r == spec_recovery_step(old(self)@, disk@, now_ms).1,
            final(self)@.wf(),
            r != RecoveryStatus::Done ==> queue_budget(final(self)@.queue.rows) < queue_budget(
                old(self)@.queue.rows,
            ),
            r == RecoveryStatus::Done ==> final(self)@ == old(self)@,
    {
        let ghost pre = self@;
        match self.queue.next_pending() {
            None => RecoveryStatus::Done,
            Some((id, payload)) => {
                proof {
                    lemma_runnable_index(pre.queue.rows);
                }
                let ghost k = runnable_index(pre.queue.rows).unwrap();
                match self.process_job(&payload, disk, now_ms) {
                    Ok(_) => {
                        proof {
                            lemma_qrow_index(self@.queue.rows, id);
                            if let Some(j) = qrow_index(self@.queue.rows, id) {
                                if j != k {
                                    assert(pre.queue.rows[j].id == pre.queue.rows[k].id);
                                }
                            }
                            if qrow_index(self@.queue.rows, id) is None {
                                assert(self@.queue.rows[k].id == id);
                            }
                            assert(qrow_index(self@.queue.rows, id) == Some(k));
                            lemma_budget_remove(pre.queue.rows, k);
                        }
                        self.queue.delete_row(id);
                        RecoveryStatus::Executed
                    },
                    Err(e) => {
                        proof {
                            lemma_qrow_index(self@.queue.rows, id);
                            if let Some(j) = qrow_index(self@.queue.rows, id) {
                                if j != k {
                                    assert(pre.queue.rows[j].id == pre.queue.rows[k].id);
                                }
                            }
                            if qrow_index(self@.queue.rows, id) is None {
                                assert(self@.queue.rows[k].id == id);
                            }
                            assert(qrow_index(self@.queue.rows, id) == Some(k));
                            lemma_budget_update(
                                pre.queue.rows,
                                k,
                                failed_once(
                                    pre.queue.rows[k],
                                    spec_error_message(e),
                                    now_ms,
                                ),
                            );
                        }
                        self.after_failure(Some(id), &payload, e, now_ms);
                        RecoveryStatus::FailedAttempt
                    },
                }
            },
        }
    }

    /// The crash-recovery pass the worker runs on start-up: drains every
    /// durable row still awaiting execution, oldest first, before live jobs
    /// are accepted. Jobs durably written before a crash are found and run
    /// here.
    pub fn process_pending_db_jobs(&mut self, disk: &Disk, now_ms: u64)
        requires
            old(self)@.wf(),
        ensures
            final(self)@ == spec_recover(old(self)@, disk@, now_ms),
            final(self)@.wf(),
            spec_next_pending(final(self)@.queue) is None,
    {
        let ghost pre = self@;
        let mut done = false;
        while !done
            invariant
                self@.wf(),
                spec_recover(pre, disk@, now_ms) == spec_recover(self@, disk@, now_ms),
                done ==> spec_next_pending(self@.queue) is None && spec_recover(
                    self@,
                    disk@,
                    now_ms,
                ) == self@,
            decreases queue_budget(self@.queue.rows), (if done {
                0int
            } else {
                1int
            }),
        {
            let ghost cur = self@;
            let status = self.recovery_step(disk, now_ms);
            done = match status {
                RecoveryStatus::Done => true,
                _ => false,
            };
            proof {
                if done {
                    assert(spec_recovery_step(cur, disk@, now_ms).1 == RecoveryStatus::Done);
                    assert(spec_recover(cur, disk@, now_ms) == cur);
                    assert(spec_next_pending(cur.queue) is None) by {
                        if spec_next_pending(cur.queue) is Some {
                            assert(spec_recovery_step(cur, disk@, now_ms).1
                                != RecoveryStatus::Done);
                        }
                    }
                } else {
                    assert(spec_recover(cur, disk@, now_ms) == spec_recover(
                        self@,
                        disk@,
                        now_ms,
                    ));
                }
            }
        }
    }

    /// Takes signals from the channel until it is empty or the shutdown
    /// signal arrives: one worker step per signal, exactly as
    /// [`spec_drain_channel`] folds them.
    pub fn drain_channel(&mut self, disk: &Disk, now_ms: u64) -> (r: WorkerStatus)
        requires
            old(self)@.wf(),
        ensures
            final(self)@ == spec_drain_channel(old(self)@, disk@, now_ms).0,
            r == spec_drain_channel(old(self)@, disk@, now_ms).1,
            final(self)@.wf(),
            r == WorkerStatus::Idle || r == WorkerStatus::ShutDown,
            r == WorkerStatus::Idle ==> final(self)@.channel.len() == 0,
    {
        let ghost pre = self@;
        let mut status = self.worker_step(disk, now_ms);
        let mut processing = match status {
            WorkerStatus::ProcessedOk => true,
            WorkerStatus::ProcessedErr => true,
            _ => false,
        };
        proof {
            if processing {
                assert(spec_drain_channel(pre, disk@, now_ms) == spec_drain_channel(
                    self@,
                    disk@,
                    now_ms,
                ));
            } else {
                assert(spec_drain_channel(pre, disk@, now_ms) == (self@, status));
            }
        }
        while processing
            invariant
                self@.wf(),
                processing == (status == WorkerStatus::ProcessedOk || status
                    == WorkerStatus::ProcessedErr),
                status == WorkerStatus::Idle ==> self@.channel.len() == 0,
                if processing {
                    spec_drain_channel(pre, disk@, now_ms) == spec_drain_channel(
                        self@,
                        disk@,
                        now_ms,
                    )
                } else {
                    spec_drain_channel(pre, disk@, now_ms) == (self@, status)
                },
            decreases self@.channel.len() + (if processing {
                1int
            } else {
                0int
            }),
        {
            let ghost cur = self@;
            status = self.worker_step(disk, now_ms);
            processing = match status {
                WorkerStatus::ProcessedOk => true,
                WorkerStatus::ProcessedErr => true,
                _ => false,
            };
            proof {
                if processing {
                    assert(spec_drain_channel(cur, disk@, now_ms) == spec_drain_channel(
                        self@,
                        disk@,
                        now_ms,
                    ));
                } else {
                    assert(spec_drain_channel(cur, disk@, now_ms) == (self@, status));
                }
            }
        }
        status
    }

    /// What the worker thread does over its lifetime: the crash-recovery
    /// pass first, then the live channel until it is empty or shut down —
    /// exactly [`spec_drain_channel`] after [`spec_recover`].
    pub fn run_worker(&mut self, disk: &Disk, now_ms: u64) -> (r: WorkerStatus)
        requires
            old(self)@.wf(),
        ensures
            final(self)@ == spec_drain_channel(
                spec_recover(old(self)@, disk@, now_ms),
                disk@,
                now_ms,
            ).0,
            r == spec_drain_channel(spec_recover(old(self)@, disk@, now_ms), disk@, now_ms).1,
            final(self)@.wf(),
            r == WorkerStatus::Idle || r == WorkerStatus::ShutDown,
            r == WorkerStatus::Idle ==> final(self)@.channel.len() == 0,
    {
        self.process_pending_db_jobs(disk, now_ms);
        self.drain_channel(disk, now_ms)
    }
}


/// Why an internal file command was refused.
#[derive(Debug, Clone, Copy, PartialEq, Eq, Structural)]
pub enum CommandError {
    /// The target path does not exist.
    TargetMissing,
    /// The target path already exists.
    TargetExists,
    /// The new name carries a path separator.
    InvalidName,
    /// The durable queue could not accept the job; every activity lock taken
    /// for it was released again.
    QueueWrite,
}

/// Effect and outcome of the internal save command: lock, write, record the
/// write instant, enqueue; on a queue failure the caller's lock is released
/// again.
pub open spec fn spec_save_file(
    cv: CoordinatorView,
    disk: Seq<DiskFileView>,
    root: Seq<char>,
    rel: Seq<char>,
    content: Seq<char>,
    now: u64,
) -> (CoordinatorView, Seq<DiskFileView>, Result<u64, CommandError>) {
    let tv = spec_record_write(spec_lock(cv.tracker, rel), rel, now);
    let disk1 = spec_write(disk, rel, content, now);
    let cv1 = CoordinatorView { tracker: tv, ..cv };
    let (cv2, r) = spec_dispatch(
        cv1,
        PayloadView::UpdateOrSave { root_path: root, relative_path: rel },
        now,
    );
    match r {
        Ok(id) => (cv2, disk1, Ok(id)),
        Err(_) => (
            CoordinatorView { tracker: spec_unlock(cv2.tracker, rel), ..cv2 },
            disk1,
            Err(CommandError::QueueWrite),
        ),
    }
}

/// Whether `name` already ends in the markdown extension.
pub open spec fn ends_with_md(name: Seq<char>) -> bool {
    name.len() >= 3 && name.subrange(name.len() - 3, name.len() as int) == ".md"@
}

/// `name` with the markdown extension appended when missing.
pub open spec fn md_name(name: Seq<char>) -> Seq<char> {
    if ends_with_md(name) {
        name
    } else {
        name + ".md"@
    }
}

/// `name` without its markdown extension.
pub open spec fn md_stem(name: Seq<char>) -> Seq<char> {
    md_name(name).take(md_name(name).len() - 3)
}

/// The heading a fresh document starts with.
pub open spec fn initial_content_of(stem: Seq<char>) -> Seq<char> {
    "# "@ + stem + "\n\n"@
}

/// Whether a relative path the watcher reports names a note this subsystem
/// tracks: a markdown file that is not hidden and lies in no hidden
/// directory (the application's own bookkeeping folders are hidden, so
/// their files never reach classification).
pub open spec fn spec_is_watched_note(p: Seq<char>) -> bool {
    &&& ends_with_md(p)
    &&& !(p.len() > 0 && p[0] == '.')
    &&& !crate::text::is_substring(p, "/."@)
}

/// Decides whether a watcher-reported relative path (separators normalized
/// to `/`) names a tracked note: only such paths reach classification.
pub fn is_watched_note_path(rel_path: &str) -> (r: bool)
    ensures
        r == spec_is_watched_note(rel_path@),
{
    proof {
        reveal_strlit(".md");
    }
    let n = rel_path.unicode_len();
    if n < 3 {
        return false;
    }
    let has_md_ext = rel_path.get_char(n - 3) == '.' && rel_path.get_char(n - 2) == 'm'
        && rel_path.get_char(n - 1) == 'd';
    proof {
        if has_md_ext {
            assert(rel_path@.subrange(rel_path@.len() - 3, rel_path@.len() as int) =~= ".md"@);
        } else {
            if rel_path@.subrange(rel_path@.len() - 3, rel_path@.len() as int) == ".md"@ {
                assert(rel_path@.subrange(rel_path@.len() - 3, rel_path@.len() as int)[0]
                    == rel_path@[rel_path@.len() - 3]);
                assert(rel_path@.subrange(rel_path@.len() - 3, rel_path@.len() as int)[1]
                    == rel_path@[rel_path@.len() - 2]);
                assert(rel_path@.subrange(rel_path@.len() - 3, rel_path@.len() as int)[2]
                    == rel_path@[rel_path@.len() - 1]);
            }
        }
    }
    if !has_md_ext {
        return false;
    }
    if rel_path.get_char(0) == '.' {
        return false;
    }
    !crate::text::contains_str(rel_path, "/.")
}

/// Effect and outcome of the internal create command: a fresh document with
/// a heading, its metadata row, the lock, the write instant, one update
/// job; on a queue failure the lock is released again.
pub open spec fn spec_create_new_file(
    cv: CoordinatorView,
    disk: Seq<DiskFileView>,
    root: Seq<char>,
    dir_rel: Seq<char>,
    file_name: Seq<char>,
    now: u64,
) -> (CoordinatorView, Seq<DiskFileView>, Result<Seq<char>, CommandError>) {
    let rel = joined_path(dir_rel, md_name(file_name));
    if file_index(disk, rel) is Some {
        (cv, disk, Err(CommandError::TargetExists))
    } else {
        let content = initial_content_of(md_stem(file_name));
        let disk1 = spec_write(disk, rel, content, now);
        let tv = spec_record_write(spec_lock(cv.tracker, rel), rel, now);
        let store1 = spec_insert_ignore(
            cv.store,
            rel,
            md_stem(file_name),
            content.len() as u64,
            word_count_of(content) as u64,
        );
        let cv1 = CoordinatorView { tracker: tv, store: store1, ..cv };
        let (cv2, r) = spec_dispatch(
            cv1,
            PayloadView::UpdateOrSave { root_path: root, relative_path: rel },
            now,
        );
        match r {
            Ok(_) => (cv2, disk1, Ok(rel)),
            Err(_) => (
                CoordinatorView { tracker: spec_unlock(cv2.tracker, rel), ..cv2 },
                disk1,
                Err(CommandError::QueueWrite),
            ),
        }
    }
}

/// Effect and outcome of the internal delete command: lock, rows and file
/// gone, write instant forgotten, one delete job; on a queue failure the
/// lock is released again.
pub open spec fn spec_delete_item(
    cv: CoordinatorView,
    disk: Seq<DiskFileView>,
    rel: Seq<char>,
    now: u64,
) -> (CoordinatorView, Seq<DiskFileView>, Result<(), CommandError>) {
    if file_index(disk, rel) is None {
        (cv, disk, Err(CommandError::TargetMissing))
    } else {
        let tv = spec_clear_write_time(spec_lock(cv.tracker, rel), rel);
        let disk1 = spec_remove_file(disk, rel);
        let cv1 = CoordinatorView { tracker: tv, store: spec_delete(cv.store, rel), ..cv };
        let (cv2, r) = spec_dispatch(cv1, PayloadView::Delete { relative_path: rel }, now);
        match r {
            Ok(_) => (cv2, disk1, Ok(())),
            Err(_) => (
                CoordinatorView { tracker: spec_unlock(cv2.tracker, rel), ..cv2 },
                disk1,
                Err(CommandError::QueueWrite),
            ),
        }
    }
}

/// Where a rename of `old_rel` to the bare name `new_name` ends up: the same
/// directory, the new name.
pub open spec fn renamed_rel(old_rel: Seq<char>, new_name: Seq<char>) -> Seq<char> {
    match last_occurrence_of(old_rel, '/') {
        Some(i) => old_rel.take(i + 1) + new_name,
        None => new_name,
    }
}

/// Effect and outcome of the internal rename command: both paths lock, the
/// file and its row move, the write instant moves, one rename job; on a
/// queue failure both locks are released again.
pub open spec fn spec_rename_item(
    cv: CoordinatorView,
    disk: Seq<DiskFileView>,
    root: Seq<char>,
    old_rel: Seq<char>,
    new_name: Seq<char>,
    now: u64,
) -> (CoordinatorView, Seq<DiskFileView>, Result<Seq<char>, CommandError>) {
    if file_index(disk, old_rel) is None {
        (cv, disk, Err(CommandError::TargetMissing))
    } else if last_occurrence_of(new_name, '/') is Some || last_occurrence_of(new_name, '\\')
        is Some {
        (cv, disk, Err(CommandError::InvalidName))
    } else {
        let new_rel = renamed_rel(old_rel, new_name);
        if file_index(disk, new_rel) is Some {
            (cv, disk, Err(CommandError::TargetExists))
        } else {
            let tv = spec_record_write(
                spec_clear_write_time(
                    spec_lock(spec_lock(cv.tracker, old_rel), new_rel),
                    old_rel,
                ),
                new_rel,
                now,
            );
            let disk1 = spec_rename_file(disk, old_rel, new_rel);
            let store1 = spec_rename(cv.store, old_rel, new_rel, title_of_path(new_rel));
            let cv1 = CoordinatorView { tracker: tv, store: store1, ..cv };
            let (cv2, r) = spec_dispatch(
                cv1,
                PayloadView::RenameOrMove {
                    root_path: root,
                    old_relative_path: old_rel,
                    new_relative_path: new_rel,
                },
                now,
            );
            match r {
                Ok(_) => (cv2, disk1, Ok(new_rel)),
                Err(_) => (
                    CoordinatorView {
                        tracker: spec_unlock(spec_unlock(cv2.tracker, old_rel), new_rel),
                        ..cv2
                    },
                    disk1,
                    Err(CommandError::QueueWrite),
                ),
            }
        }
    }
}

impl Coordinator {
    /// The internal save command: takes the activity lock, writes the
    /// document, records the write instant (so the echoing notification is
    /// recognized) and enqueues the update job. When the job cannot be
    /// accepted the lock is released again and the failure surfaces.
    pub fn save_file(
        &mut self,
        root_path: &String,
        relative_path: &String,
        content: &String,
        disk: &mut Disk,
        now_ms: u64,
    ) -> (r: Result<u64, CommandError>)
        requires
            old(self)@.wf(),
            disk_distinct(old(disk)@),
        ensures
            final(self)@ == spec_save_file(
                old(self)@,
                old(disk)@,
                root_path@,
                relative_path@,
                content@,
                now_ms,
            ).0,
            final(disk)@ == spec_save_file(
                old(self)@,
                old(disk)@,
                root_path@,
                relative_path@,
                content@,
                now_ms,
            ).1,
            r == spec_save_file(
                old(self)@,
                old(disk)@,
                root_path@,
                relative_path@,
                content@,
                now_ms,
            ).2,
            final(self)@.wf(),
            disk_distinct(final(disk)@),
    {
        self.tracker.lock(relative_path);
        disk.write(relative_path, content, now_ms);
        self.tracker.record_write(relative_path, now_ms);
        match self.dispatch_update_job(root_path.clone(), relative_path.clone(), now_ms) {
            Ok(id) => Ok(id),
            Err(_) => {
                self.tracker.unlock(relative_path);
                Err(CommandError::QueueWrite)
            },
        }
    }

    /// The internal create command: a fresh markdown document whose content
    /// is a heading with its name, a metadata row for it, the activity lock
    /// and one update job. The resolved relative path comes back.
    pub fn create_new_file(
        &mut self,
        root_path: &String,
        relative_dir_path: &String,
        file_name: &String,
        disk: &mut Disk,
        now_ms: u64,
    ) -> (r: Result<String, CommandError>)
        requires
            old(self)@.wf(),
            disk_distinct(old(disk)@),
        ensures
            final(self)@ == spec_create_new_file(
                old(self)@,
                old(disk)@,
                root_path@,
                relative_dir_path@,
                file_name@,
                now_ms,
            ).0,
            final(disk)@ == spec_create_new_file(
                old(self)@,
                old(disk)@,
                root_path@,
                relative_dir_path@,
                file_name@,
                now_ms,
            ).1,
            ({
                let outcome = spec_create_new_file(
                    old(self)@,
                    old(disk)@,
                    root_path@,
                    relative_dir_path@,
                    file_name@,
                    now_ms,
                ).2;
                match (r, outcome) {
                    (Ok(p), Ok(pv)) => p@ == pv,
                    (Err(e1), Err(e2)) => e1 == e2,
                    _ => false,
                }
            }),
            final(self)@.wf(),
            disk_distinct(final(disk)@),
    {
        let n = file_name.as_str().unicode_len();
        let has_md_ext = n >= 3 && file_name.as_str().get_char(n - 3) == '.'
            && file_name.as_str().get_char(n - 2) == 'm' && file_name.as_str().get_char(n - 1)
            == 'd';
        proof {
            reveal_strlit(".md");
            if has_md_ext {
                assert(file_name@.subrange(file_name@.len() - 3, file_name@.len() as int)
                    =~= ".md"@);
            } else {
                if file_name@.len() >= 3 {
                    if file_name@.subrange(file_name@.len() - 3, file_name@.len() as int)
                        == ".md"@ {
                        assert(file_name@.subrange(
                            file_name@.len() - 3,
                            file_name@.len() as int,
                        )[0] == file_name@[file_name@.len() - 3]);
                        assert(file_name@.subrange(
                            file_name@.len() - 3,
                            file_name@.len() as int,
                        )[1] == file_name@[file_name@.len() - 2]);
                        assert(file_name@.subrange(
                            file_name@.len() - 3,
                            file_name@.len() as int,
                        )[2] == file_name@[file_name@.len() - 1]);
                    }
                }
            }
        }
        let mut full_name = file_name.clone();
        if !has_md_ext {
            full_name.append(".md");
        }
        let rel = crate::paths::to_absolute_path(relative_dir_path, &full_name);
        if disk.file_exists(&rel) {
            return Err(CommandError::TargetExists);
        }
        let fn_len = full_name.as_str().unicode_len();
        let stem = String::from_str(full_name.as_str().substring_char(0, fn_len - 3));
        let mut content = String::from_str("# ");
        content.append(stem.as_str());
        content.append("\n\n");
        let size = content_size(content.as_str());
        let words = word_count(content.as_str());
        disk.write(&rel, &content, now_ms);
        self.tracker.lock(&rel);
        self.tracker.record_write(&rel, now_ms);
        self.store.insert_ignore(&rel, &stem, size, words);
        match self.dispatch_update_job(root_path.clone(), rel.clone(), now_ms) {
            Ok(_) => Ok(rel),
            Err(_) => {
                self.tracker.unlock(&rel);
                Err(CommandError::QueueWrite)
            },
        }
    }

    /// The internal delete command: the activity lock, the metadata row and
    /// the file go, the write instant is forgotten, one delete job runs
    /// later. When the job cannot be accepted the lock is released again
    /// and the failure surfaces.
    pub fn delete_item(&mut self, relative_path: &String, disk: &mut Disk, now_ms: u64) -> (r:
        Result<(), CommandError>)
        requires
            old(self)@.wf(),
            disk_distinct(old(disk)@),
        ensures
            final(self)@ == spec_delete_item(old(self)@, old(disk)@, relative_path@, now_ms).0,
            final(disk)@ == spec_delete_item(old(self)@, old(disk)@, relative_path@, now_ms).1,
            r == spec_delete_item(old(self)@, old(disk)@, relative_path@, now_ms).2,
            final(self)@.wf(),
            disk_distinct(final(disk)@),
    {
        if !disk.file_exists(relative_path) {
            return Err(CommandError::TargetMissing);
        }
        self.tracker.lock(relative_path);
        self.store.delete(relative_path);
        disk.remove(relative_path);
        self.tracker.clear_write_time(relative_path);
        match self.dispatch_delete_job(relative_path.clone(), now_ms) {
            Ok(_) => Ok(()),
            Err(_) => {
                self.tracker.unlock(relative_path);
                Err(CommandError::QueueWrite)
            },
        }
    }

    /// The internal rename command: resolves the new path in the same
    /// directory, locks both paths, moves the file, its write instant and
    /// its metadata row, and enqueues one rename job. When the job cannot
    /// be accepted both locks are released again and the failure surfaces.
    pub fn rename_item(
        &mut self,
        root_path: &String,
        old_relative_path: &String,
        new_name: &String,
        disk: &mut Disk,
        now_ms: u64,
    ) -> (r: Result<RenameResult, CommandError>)
        requires
            old(self)@.wf(),
            disk_distinct(old(disk)@),
        ensures
            final(self)@ == spec_rename_item(
                old(self)@,
                old(disk)@,
                root_path@,
                old_relative_path@,
                new_name@,
                now_ms,
            ).0,
            final(disk)@ == spec_rename_item(
                old(self)@,
                old(disk)@,
                root_path@,
                old_relative_path@,
                new_name@,
                now_ms,
            ).1,
            ({
                let outcome = spec_rename_item(
                    old(self)@,
                    old(disk)@,
                    root_path@,
                    old_relative_path@,
                    new_name@,
                    now_ms,
                ).2;
                match (r, outcome) {
                    (Ok(res), Ok(pv)) => res.new_path@ == pv && res.old_path@
                        == old_relative_path@ && !res.is_dir,
                    (Err(e1), Err(e2)) => e1 == e2,
                    _ => false,
                }
            }),
            final(self)@.wf(),
            disk_distinct(final(disk)@),
    {
        if !disk.file_exists(old_relative_path) {
            return Err(CommandError::TargetMissing);
        }
        if crate::text::find_last(new_name.as_str(), '/').is_some() || crate::text::find_last(
            new_name.as_str(),
            '\\',
        ).is_some() {
            return Err(CommandError::InvalidName);
        }
        let old_len = old_relative_path.as_str().unicode_len();
        let new_rel = match crate::text::find_last(old_relative_path.as_str(), '/') {
            Some(i) => {
                proof {
                    assert(i < old_len);
                }
                let mut s = String::from_str(
                    old_relative_path.as_str().substring_char(0, i + 1),
                );
                s.append(new_name.as_str());
                s
            },
            None => new_name.clone(),
        };
        if disk.file_exists(&new_rel) {
            return Err(CommandError::TargetExists);
        }
        self.tracker.lock(old_relative_path);
        self.tracker.lock(&new_rel);
        disk.rename(old_relative_path, &new_rel);
        self.tracker.clear_write_time(old_relative_path);
        self.tracker.record_write(&new_rel, now_ms);
        let new_title = extract_title_from_path(new_rel.as_str());
        self.store.rename_path(old_relative_path, &new_rel, &new_title);
        match self.dispatch_rename_job(
            root_path.clone(),
            old_relative_path.clone(),
            new_rel.clone(),
            now_ms,
        ) {
            Ok(_) => Ok(
                RenameResult {
                    new_path: new_rel,
                    old_path: old_relative_path.clone(),
                    is_dir: false,
                },
            ),
            Err(_) => {
                self.tracker.unlock(old_relative_path);
                self.tracker.unlock(&new_rel);
                Err(CommandError::QueueWrite)
            },
        }
    }
}

} // verus!

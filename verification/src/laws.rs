//! The guarantees of the coordination subsystem, stated and proved over the
//! spec-level transitions: the activity-lock discipline, the idempotence of
//! re-indexing, the fusion of a disappearance with a matching appearance,
//! the timeout of an unmatched disappearance, and the exactly-once execution
//! of a recovered job.

use vstd::prelude::*;

verus! {

use crate::coordinator::{
    disk_content_or_empty,
    CommandError,
    spec_delete_item,
    spec_dispatch,
    spec_handle_event,
    spec_process_job,
    spec_recover,
    spec_recovery_step,
    spec_save_file,
    spec_sweep,
    spec_unlock_all,
    store_meta_of,
    CoordinatorView,
    RecoveryStatus,
    WatchEventKind,
};
use crate::disk::{file_index, DiskFileView};
use crate::fingerprint::MetaView;
use crate::index_model::{doc_index, index_distinct, lemma_doc_index, spec_add_or_replace, DocView};
use crate::jobs::{JobError, JobRowView, JobStatus, JobView, PayloadView, SignalView, DEFAULT_MAX_RETRIES};
use crate::queue::{qrow_index, runnable, runnable_index, spec_next_pending};
use crate::store::{lemma_row_index, row_index, spec_delete, spec_mark_indexed, store_distinct, RowView};
use crate::text::{title_of_path, word_count_of};
use crate::tracker::{
    age_ms,
    lemma_lock_index,
    lock_index,
    spec_lock,
    spec_unlock,
    SourceEntryView,
    TrackerView,
};

/// Taking the activity lock of `p` makes `p` locked, changes no other
/// path's lock, and preserves validity.
pub proof fn law_lock_effect(tv: TrackerView, p: Seq<char>)
    requires
        tv.wf(),
    ensures
        spec_lock(tv, p).wf(),
        spec_lock(tv, p).locked(p),
        forall|q: Seq<char>| q != p ==> spec_lock(tv, p).locked(q) == tv.locked(q),
{
    let t2 = spec_lock(tv, p);
    if !tv.locks.contains(p) {
        assert(t2.locks.last() == p);
        assert forall|q: Seq<char>| q != p implies t2.locked(q) == tv.locked(q) by {
            if t2.locks.contains(q) {
                let w = choose|j: int| 0 <= j < t2.locks.len() && t2.locks[j] == q;
                assert(tv.locks[w] == q);
            }
            if tv.locks.contains(q) {
                let w = choose|j: int| 0 <= j < tv.locks.len() && tv.locks[j] == q;
                assert(t2.locks[w] == q);
            }
        }
    }
}

/// Releasing the activity lock of `p` leaves `p` unlocked, changes no other
/// path's lock, and preserves validity.
pub proof fn law_unlock_effect(tv: TrackerView, p: Seq<char>)
    requires
        tv.wf(),
    ensures
        spec_unlock(tv, p).wf(),
        !spec_unlock(tv, p).locked(p),
        forall|q: Seq<char>| q != p ==> spec_unlock(tv, p).locked(q) == tv.locked(q),
{
    lemma_lock_index(tv.locks, p);
    let t2 = spec_unlock(tv, p);
    match lock_index(tv.locks, p) {
        Some(i) => {
            assert forall|a: int, b: int|
                0 <= a < b < t2.locks.len() implies t2.locks[a] != t2.locks[b] by {}
            if t2.locks.contains(p) {
                let w = choose|j: int| 0 <= j < t2.locks.len() && t2.locks[j] == p;
                if w < i {
                    assert(tv.locks[w] == p);
                } else {
                    assert(tv.locks[w + 1] == p);
                }
            }
            assert forall|q: Seq<char>| q != p implies t2.locked(q) == tv.locked(q) by {
                if t2.locks.contains(q) {
                    let w = choose|j: int| 0 <= j < t2.locks.len() && t2.locks[j] == q;
                    if w < i {
                        assert(tv.locks[w] == q);
                    } else {
                        assert(tv.locks[w + 1] == q);
                    }
                }
                if tv.locks.contains(q) {
                    let w = choose|j: int| 0 <= j < tv.locks.len() && tv.locks[j] == q;
                    if w < i {
                        assert(t2.locks[w] == q);
                    } else {
                        assert(tv.locks[i] == p);
                        assert(w != i);
                        assert(t2.locks[w - 1] == q);
                    }
                }
            }
        },
        None => {
            if tv.locks.contains(p) {
                let w = choose|j: int| 0 <= j < tv.locks.len() && tv.locks[j] == p;
                assert(tv.locks[w] == p);
            }
        },
    }
}

/// Releasing a list of locks leaves each of them unlocked and touches no
/// other path.
pub proof fn law_unlock_all_effect(tv: TrackerView, paths: Seq<Seq<char>>)
    requires
        tv.wf(),
    ensures
        spec_unlock_all(tv, paths).wf(),
        forall|k: int|
            0 <= k < paths.len() ==> !spec_unlock_all(tv, paths).locked(#[trigger] paths[k]),
        forall|q: Seq<char>|
            !paths.contains(q) ==> spec_unlock_all(tv, paths).locked(q) == tv.locked(q),
    decreases paths.len(),
{
    if paths.len() > 0 {
        law_unlock_effect(tv, paths[0]);
        let t1 = spec_unlock(tv, paths[0]);
        law_unlock_all_effect(t1, paths.drop_first());
        let t2 = spec_unlock_all(tv, paths);
        assert forall|k: int| 0 <= k < paths.len() implies !t2.locked(#[trigger] paths[k]) by {
            if k == 0 {
                if paths.drop_first().contains(paths[0]) {
                    let w = choose|j: int|
                        0 <= j < paths.drop_first().len() && paths.drop_first()[j] == paths[0];
                    assert(!t2.locked(paths.drop_first()[w]));
                } else {
                    assert(!t1.locked(paths[0]));
                }
            } else {
                assert(paths.drop_first()[k - 1] == paths[k]);
                assert(!t2.locked(paths.drop_first()[k - 1]));
            }
        }
        assert forall|q: Seq<char>| !paths.contains(q) implies t2.locked(q) == tv.locked(q) by {
            assert(paths[0] != q);
            if paths.drop_first().contains(q) {
                let w = choose|j: int|
                    0 <= j < paths.drop_first().len() && paths.drop_first()[j] == q;
                assert(paths[w + 1] == q);
            }
        }
    }
}

proof fn lemma_record_write_wf(tv: TrackerView, p: Seq<char>, at: u64)
    requires
        tv.wf(),
    ensures
        crate::tracker::spec_record_write(tv, p, at).wf(),
        crate::tracker::spec_record_write(tv, p, at).locks == tv.locks,
{
    crate::tracker::lemma_stamp_index(tv.write_times, p);
    let t2 = crate::tracker::spec_record_write(tv, p, at);
    match crate::tracker::stamp_index(tv.write_times, p) {
        Some(i) => {
            assert forall|a: int, b: int|
                0 <= a < b < t2.write_times.len() implies t2.write_times[a].path
                != t2.write_times[b].path by {
                if b < t2.write_times.len() - 1 {
                } else {
                    if a < i {
                        assert(t2.write_times[a] == tv.write_times[a]);
                    } else {
                        assert(t2.write_times[a] == tv.write_times[a + 1]);
                    }
                }
            }
        },
        None => {},
    }
}

proof fn lemma_clear_write_time_wf(tv: TrackerView, p: Seq<char>)
    requires
        tv.wf(),
    ensures
        crate::tracker::spec_clear_write_time(tv, p).wf(),
        crate::tracker::spec_clear_write_time(tv, p).locks == tv.locks,
{
    crate::tracker::lemma_stamp_index(tv.write_times, p);
}

/// Accepting a job never changes the tracker: the queue neither takes nor
/// drops a caller's lock, whether or not the durable write succeeds.
pub proof fn law_dispatch_leaves_locks_alone(cv: CoordinatorView, pv: PayloadView, now: u64)
    ensures
        spec_dispatch(cv, pv, now).0.tracker == cv.tracker,
{
}

/// Lock protocol of the internal save command: on success the saved path
/// holds its activity lock and exactly one update job for it was both
/// durably written and queued; when the durable write fails, the lock is
/// not left set and nothing else changed.
pub proof fn law_save_file_lock_protocol(
    cv: CoordinatorView,
    disk: Seq<DiskFileView>,
    root: Seq<char>,
    rel: Seq<char>,
    content: Seq<char>,
    now: u64,
)
    requires
        cv.wf(),
    ensures
        ({
            let (cv2, _, r) = spec_save_file(cv, disk, root, rel, content, now);
            match r {
                Ok(id) => {
                    &&& cv2.tracker.locked(rel)
                    &&& cv2.channel == cv.channel.push(
                        SignalView::Job(
                            JobView {
                                db_id: Some(id),
                                payload: PayloadView::UpdateOrSave {
                                    root_path: root,
                                    relative_path: rel,
                                },
                            },
                        ),
                    )
                    &&& cv2.queue.rows.len() == cv.queue.rows.len() + 1
                },
                Err(_) => {
                    &&& !cv2.tracker.locked(rel)
                    &&& cv2.queue.rows == cv.queue.rows
                    &&& cv2.channel == cv.channel
                },
            }
        }),
{
    law_lock_effect(cv.tracker, rel);
    let tv1 = spec_lock(cv.tracker, rel);
    let tv2 = crate::tracker::spec_record_write(tv1, rel, now);
    lemma_record_write_wf(tv1, rel, now);
    law_unlock_effect(tv2, rel);
}

/// Lock protocol of the internal delete command, stated the same way: on
/// success the deleted path holds its activity lock until the delete job
/// finishes; when the durable write fails, the lock is not left set.
pub proof fn law_delete_item_lock_protocol(
    cv: CoordinatorView,
    disk: Seq<DiskFileView>,
    rel: Seq<char>,
    now: u64,
)
    requires
        cv.wf(),
        file_index(disk, rel) is Some,
    ensures
        ({
            let (cv2, _, r) = spec_delete_item(cv, disk, rel, now);
            match r {
                Ok(_) => cv2.tracker.locked(rel) && cv2.queue.rows.len() == cv.queue.rows.len()
                    + 1,
                Err(_) => !cv2.tracker.locked(rel) && cv2.queue.rows == cv.queue.rows
                    && cv2.channel == cv.channel,
            }
        }),
{
    law_lock_effect(cv.tracker, rel);
    let tv1 = spec_lock(cv.tracker, rel);
    let tv2 = crate::tracker::spec_clear_write_time(tv1, rel);
    lemma_clear_write_time_wf(tv1, rel);
    law_unlock_effect(tv2, rel);
}

/// Lock protocol of the internal create command: on success the new path
/// holds its activity lock and one update job was durably accepted for it;
/// when the durable write fails, the lock is not left set.
pub proof fn law_create_new_file_lock_protocol(
    cv: CoordinatorView,
    disk: Seq<DiskFileView>,
    root: Seq<char>,
    dir_rel: Seq<char>,
    file_name: Seq<char>,
    now: u64,
)
    requires
        cv.wf(),
    ensures
        ({
            let (cv2, _, r) = crate::coordinator::spec_create_new_file(
                cv,
                disk,
                root,
                dir_rel,
                file_name,
                now,
            );
            let rel = crate::paths::joined_path(
                dir_rel,
                crate::coordinator::md_name(file_name),
            );
            match r {
                Ok(p) => p == rel && cv2.tracker.locked(rel) && cv2.queue.rows.len()
                    == cv.queue.rows.len() + 1,
                Err(CommandError::QueueWrite) => !cv2.tracker.locked(rel) && cv2.queue.rows
                    == cv.queue.rows,
                Err(_) => cv2 == cv,
            }
        }),
{
    let rel = crate::paths::joined_path(dir_rel, crate::coordinator::md_name(file_name));
    if file_index(disk, rel) is None {
        law_lock_effect(cv.tracker, rel);
        let tv1 = spec_lock(cv.tracker, rel);
        lemma_record_write_wf(tv1, rel, now);
        let tv2 = crate::tracker::spec_record_write(tv1, rel, now);
        law_unlock_effect(tv2, rel);
    }
}

/// Lock protocol of the internal rename command: on success both the old
/// and the new path hold their activity locks and one rename job was
/// durably accepted; when the durable write fails, neither lock is left
/// set.
pub proof fn law_rename_item_lock_protocol(
    cv: CoordinatorView,
    disk: Seq<DiskFileView>,
    root: Seq<char>,
    old_rel: Seq<char>,
    new_name: Seq<char>,
    now: u64,
)
    requires
        cv.wf(),
    ensures
        ({
            let (cv2, _, r) = crate::coordinator::spec_rename_item(
                cv,
                disk,
                root,
                old_rel,
                new_name,
                now,
            );
            let new_rel = crate::coordinator::renamed_rel(old_rel, new_name);
            match r {
                Ok(p) => p == new_rel && cv2.tracker.locked(old_rel) && cv2.tracker.locked(
                    new_rel,
                ) && cv2.queue.rows.len() == cv.queue.rows.len() + 1,
                Err(CommandError::QueueWrite) => !cv2.tracker.locked(old_rel)
                    && !cv2.tracker.locked(new_rel) && cv2.queue.rows == cv.queue.rows,
                Err(_) => cv2 == cv,
            }
        }),
{
    let new_rel = crate::coordinator::renamed_rel(old_rel, new_name);
    if file_index(disk, old_rel) is Some && !(crate::text::last_occurrence_of(new_name, '/')
        is Some || crate::text::last_occurrence_of(new_name, '\\') is Some) && file_index(
        disk,
        new_rel,
    ) is None {
        law_lock_effect(cv.tracker, old_rel);
        let tv1 = spec_lock(cv.tracker, old_rel);
        law_lock_effect(tv1, new_rel);
        let tv2 = spec_lock(tv1, new_rel);
        lemma_clear_write_time_wf(tv2, old_rel);
        let tv3 = crate::tracker::spec_clear_write_time(tv2, old_rel);
        lemma_record_write_wf(tv3, new_rel, now);
        let tv4 = crate::tracker::spec_record_write(tv3, new_rel, now);
        law_unlock_effect(tv4, old_rel);
        law_unlock_effect(spec_unlock(tv4, old_rel), new_rel);
    }
}

/// A job that finishes releases the activity lock of every path it touched:
/// no path stays locked once its job succeeded.
pub proof fn law_job_completion_releases_locks(
    cv: CoordinatorView,
    pv: PayloadView,
    disk: Seq<DiskFileView>,
    now: u64,
)
    requires
        cv.wf(),
        spec_process_job(cv, pv, disk, now).1 is Ok,
    ensures
        forall|k: int|
            0 <= k < pv.lock_paths().len() ==> !spec_process_job(
                cv,
                pv,
                disk,
                now,
            ).0.tracker.locked(#[trigger] pv.lock_paths()[k]),
{
    match pv {
        PayloadView::UpdateOrSave { relative_path, .. } => {
            law_unlock_effect(cv.tracker, relative_path);
        },
        PayloadView::RenameOrMove { old_relative_path, new_relative_path, .. } => {
            law_unlock_effect(cv.tracker, old_relative_path);
            law_unlock_effect(spec_unlock(cv.tracker, old_relative_path), new_relative_path);
        },
        PayloadView::Delete { relative_path } => {
            law_unlock_effect(cv.tracker, relative_path);
        },
    }
}

/// A job that fails for good (its attempts exhausted, its row marked
/// failed) still releases the activity lock of every path it touched: no
/// path stays locked forever.
pub proof fn law_terminal_failure_releases_locks(
    cv: CoordinatorView,
    id: u64,
    pv: PayloadView,
    e: JobError,
    now: u64,
)
    requires
        cv.wf(),
        ({
            let qv = crate::queue::spec_record_failure(
                cv.queue,
                id,
                crate::coordinator::spec_error_message(e),
                now,
            );
            match qrow_index(qv.rows, id) {
                Some(i) => qv.rows[i].status == JobStatus::Failed,
                None => false,
            }
        }),
    ensures
        forall|k: int|
            0 <= k < pv.lock_paths().len() ==> !crate::coordinator::spec_after_failure(
                cv,
                Some(id),
                pv,
                e,
                now,
            ).tracker.locked(#[trigger] pv.lock_paths()[k]),
{
    law_unlock_all_effect(cv.tracker, pv.lock_paths());
}

/// Executing the same update job twice leaves the whole subsystem exactly
/// as executing it once: replacing by path, not appending, makes
/// re-indexing idempotent.
pub proof fn law_update_job_idempotent(
    cv: CoordinatorView,
    pv: PayloadView,
    disk: Seq<DiskFileView>,
    now: u64,
)
    requires
        cv.wf(),
        pv is UpdateOrSave,
    ensures
        ({
            let (cv1, r1) = spec_process_job(cv, pv, disk, now);
            let (cv2, r2) = spec_process_job(cv1, pv, disk, now);
            cv2 == cv1 && r2 == r1
        }),
{
    if let PayloadView::UpdateOrSave { root_path, relative_path: rel } = pv {
        let (cv1, r1) = spec_process_job(cv, pv, disk, now);
        match file_index(disk, rel) {
            None => {},
            Some(fi) => {
                lemma_row_index(cv.store, rel);
                match row_index(cv.store, rel) {
                    None => {},
                    Some(ri) => {
                        let content = disk[fi].content;
                        let title = title_of_path(rel);
                        // the second run still finds the metadata row, at
                        // the same position
                        lemma_mark_indexed_keeps_key(
                            cv.store,
                            rel,
                            content.len() as u64,
                            word_count_of(content) as u64,
                            disk[fi].mtime,
                        );
                        lemma_add_or_replace_twice(cv.index, rel, title, content);
                        lemma_mark_indexed_twice(
                            cv.store,
                            rel,
                            content.len() as u64,
                            word_count_of(content) as u64,
                            disk[fi].mtime,
                        );
                        law_unlock_effect(cv.tracker, rel);
                        lemma_unlock_twice(cv.tracker, rel);
                    },
                }
            },
        }
    }
}

proof fn lemma_unlock_twice(tv: TrackerView, p: Seq<char>)
    requires
        tv.wf(),
    ensures
        spec_unlock(spec_unlock(tv, p), p) == spec_unlock(tv, p),
{
    law_unlock_effect(tv, p);
    let t1 = spec_unlock(tv, p);
    lemma_lock_index(t1.locks, p);
    if let Some(i) = lock_index(t1.locks, p) {
        assert(t1.locks[i] == p);
        assert(t1.locked(p));
    }
}

proof fn lemma_add_or_replace_twice(s: Seq<DocView>, p: Seq<char>, t: Seq<char>, c: Seq<char>)
    requires
        index_distinct(s),
    ensures
        spec_add_or_replace(spec_add_or_replace(s, p, t, c), p, t, c) == spec_add_or_replace(
            s,
            p,
            t,
            c,
        ),
{
    let s1 = spec_add_or_replace(s, p, t, c);
    lemma_doc_index(s, p);
    let d = DocView { path: p, title: t, content: c };
    match doc_index(s, p) {
        Some(i) => {
            assert(s1 == s.remove(i).push(d));
            lemma_doc_index(s1, p);
            assert(s1[s1.len() - 1] == d);
            assert forall|j: int| 0 <= j < s1.len() - 1 implies s1[j].path != p by {
                if j < i {
                    assert(s1[j] == s[j]);
                } else {
                    assert(s1[j] == s[j + 1]);
                }
            }
            match doc_index(s1, p) {
                Some(k) => {
                    assert(k == s1.len() - 1);
                    assert(s1.remove(k) =~= s.remove(i));
                    assert(s1.remove(k).push(d) =~= s1);
                },
                None => {
                    assert(s1[s1.len() - 1].path == p);
                },
            }
        },
        None => {
            assert(s1 == s.push(d));
            lemma_doc_index(s1, p);
            assert(s1[s1.len() - 1] == d);
            assert forall|j: int| 0 <= j < s1.len() - 1 implies s1[j].path != p by {
                assert(s1[j] == s[j]);
            }
            match doc_index(s1, p) {
                Some(k) => {
                    assert(k == s1.len() - 1);
                    assert(s1.remove(k) =~= s);
                    assert(s1.remove(k).push(d) =~= s1);
                },
                None => {
                    assert(s1[s1.len() - 1].path == p);
                },
            }
        },
    }
}

proof fn lemma_mark_indexed_keeps_key(
    s: Seq<RowView>,
    p: Seq<char>,
    size: u64,
    wc: u64,
    mt: u64,
)
    requires
        store_distinct(s),
        row_index(s, p) is Some,
    ensures
        row_index(spec_mark_indexed(s, p, size, wc, mt), p) == row_index(s, p),
        store_distinct(spec_mark_indexed(s, p, size, wc, mt)),
{
    lemma_row_index(s, p);
    let i = row_index(s, p).unwrap();
    let s1 = spec_mark_indexed(s, p, size, wc, mt);
    assert(s1[i].path == p);
    lemma_row_index(s1, p);
    match row_index(s1, p) {
        Some(k) => {
            if k < i {
                assert(s1[k] == s[k]);
            }
            if k > i {
                assert(s1[i].path == p);
            }
        },
        None => {
            assert(s1[i].path == p);
        },
    }
    assert forall|a: int, b: int| 0 <= a < b < s1.len() implies s1[a].path != s1[b].path by {
        assert(s1[a].path == s[a].path);
        assert(s1[b].path == s[b].path);
    }
}

proof fn lemma_mark_indexed_twice(s: Seq<RowView>, p: Seq<char>, size: u64, wc: u64, mt: u64)
    requires
        store_distinct(s),
        row_index(s, p) is Some,
    ensures
        spec_mark_indexed(spec_mark_indexed(s, p, size, wc, mt), p, size, wc, mt)
            == spec_mark_indexed(s, p, size, wc, mt),
{
    lemma_mark_indexed_keeps_key(s, p, size, wc, mt);
    lemma_row_index(s, p);
    let i = row_index(s, p).unwrap();
    let s1 = spec_mark_indexed(s, p, size, wc, mt);
    let row2 = RowView { size, word_count: wc, mtime: mt, indexed: true, ..s1[i] };
    assert(row2 == s1[i]);
    assert(s1.update(i, row2) =~= s1);
}

/// Fusion: when a tracked document vanishes (a modification whose target no
/// longer exists) and, within the detection window, a document with an
/// identical fingerprint appears, the two raw events become exactly one
/// rename/move job: the channel gains that one job and nothing else, never
/// a delete plus an update.
pub proof fn law_fusion_single_rename(
    cv: CoordinatorView,
    disk1: Seq<DiskFileView>,
    disk2: Seq<DiskFileView>,
    root: Seq<char>,
    a: Seq<char>,
    b: Seq<char>,
    m: MetaView,
    t0: u64,
    t1: u64,
)
    requires
        cv.wf(),
        cv.tracker.rename_sources.len() == 0,
        cv.tracker.move_sources.len() == 0,
        !cv.tracker.locked(a),
        !cv.tracker.locked(b),
        // the document at `a` vanished while the store still fingerprints it
        file_index(disk1, a) is None,
        store_meta_of(cv.store, a) == Some(m),
        // `b` appears with an identical fingerprint, within the window
        file_index(disk2, b) is Some,
        disk_content_or_empty(disk2, b).len() as u64 == m.size,
        word_count_of(disk_content_or_empty(disk2, b)) as u64 == m.word_count,
        age_ms(t1, t0) < cv.tracker.detection_window_ms,
        // the durable queue can accept a job
        !cv.queue.write_fault,
        cv.queue.next_id < u64::MAX,
    ensures
        ({
            let s1 = spec_handle_event(cv, WatchEventKind::Modify, a, root, disk1, t0);
            let s2 = spec_handle_event(s1, WatchEventKind::Create, b, root, disk2, t1);
            &&& s2.channel == cv.channel.push(
                SignalView::Job(
                    JobView {
                        db_id: Some(cv.queue.next_id),
                        payload: PayloadView::RenameOrMove {
                            root_path: root,
                            old_relative_path: a,
                            new_relative_path: b,
                        },
                    },
                ),
            )
            &&& s2.queue.rows == cv.queue.rows.push(
                JobRowView {
                    id: cv.queue.next_id,
                    payload: PayloadView::RenameOrMove {
                        root_path: root,
                        old_relative_path: a,
                        new_relative_path: b,
                    },
                    status: JobStatus::Pending,
                    retry_count: 0,
                    max_retries: DEFAULT_MAX_RETRIES,
                    last_error: None,
                    created_at: t1,
                    updated_at: t1,
                },
            )
            &&& s2.tracker.rename_sources.len() == 0
            &&& s2.tracker.move_sources.len() == 0
        }),
{
    let s1 = spec_handle_event(cv, WatchEventKind::Modify, a, root, disk1, t0);
    let e = SourceEntryView { path: a, marked_at: t0, meta: m };
    assert(s1.tracker.rename_sources =~= cv.tracker.rename_sources.push(e));
    assert(s1.tracker.rename_sources =~= seq![e]);
    assert(s1.tracker.locks == cv.tracker.locks);
    let s2 = spec_handle_event(s1, WatchEventKind::Create, b, root, disk2, t1);
    assert(crate::tracker::rename_source_matches(
        e,
        disk_content_or_empty(disk2, b).len() as u64,
        word_count_of(disk_content_or_empty(disk2, b)) as u64,
        t1,
        s1.tracker.detection_window_ms,
    ));
    assert(crate::tracker::rename_match_index(
        s1.tracker.rename_sources,
        disk_content_or_empty(disk2, b).len() as u64,
        word_count_of(disk_content_or_empty(disk2, b)) as u64,
        t1,
        s1.tracker.detection_window_ms,
    ) == Some(0int));
    assert(seq![e].remove(0) =~= Seq::<SourceEntryView>::empty());
}

/// Fusion of a move: when a tracked document is removed and, within the
/// detection window, a document appears elsewhere under the same title, the
/// two raw events become exactly one rename/move job.
pub proof fn law_move_fusion_single_rename(
    cv: CoordinatorView,
    disk1: Seq<DiskFileView>,
    disk2: Seq<DiskFileView>,
    root: Seq<char>,
    a: Seq<char>,
    b: Seq<char>,
    m: MetaView,
    t0: u64,
    t1: u64,
)
    requires
        cv.wf(),
        cv.tracker.rename_sources.len() == 0,
        cv.tracker.move_sources.len() == 0,
        !cv.tracker.locked(a),
        !cv.tracker.locked(b),
        // the document at `a` was removed while the store still fingerprints it
        store_meta_of(cv.store, a) == Some(m),
        // `b` appears under the same title, within the window
        file_index(disk2, b) is Some,
        title_of_path(b) == m.title,
        age_ms(t1, t0) < cv.tracker.detection_window_ms,
        // the durable queue can accept a job
        !cv.queue.write_fault,
        cv.queue.next_id < u64::MAX,
    ensures
        ({
            let s1 = spec_handle_event(cv, WatchEventKind::Remove, a, root, disk1, t0);
            let s2 = spec_handle_event(s1, WatchEventKind::Create, b, root, disk2, t1);
            &&& s1.channel == cv.channel
            &&& s1.queue.rows == cv.queue.rows
            &&& s2.channel == cv.channel.push(
                SignalView::Job(
                    JobView {
                        db_id: Some(cv.queue.next_id),
                        payload: PayloadView::RenameOrMove {
                            root_path: root,
                            old_relative_path: a,
                            new_relative_path: b,
                        },
                    },
                ),
            )
            &&& s2.queue.rows.len() == cv.queue.rows.len() + 1
            &&& s2.tracker.move_sources.len() == 0
        }),
{
    let s1 = spec_handle_event(cv, WatchEventKind::Remove, a, root, disk1, t0);
    let e = SourceEntryView { path: a, marked_at: t0, meta: m };
    assert(s1.tracker.move_sources =~= cv.tracker.move_sources.push(e));
    assert(s1.tracker.move_sources =~= seq![e]);
    assert(s1.tracker.locks == cv.tracker.locks);
    let s2 = spec_handle_event(s1, WatchEventKind::Create, b, root, disk2, t1);
    assert(crate::tracker::move_source_matches(
        e,
        title_of_path(b),
        t1,
        s1.tracker.detection_window_ms,
    ));
    assert(crate::tracker::move_match_index(
        s1.tracker.move_sources,
        title_of_path(b),
        t1,
        s1.tracker.detection_window_ms,
    ) == Some(0int));
    assert(seq![e].remove(0) =~= Seq::<SourceEntryView>::empty());
}

/// Timeout: a disappearance that finds no matching appearance within the
/// detection window is evicted by the sweep and yields exactly one delete
/// job; its metadata row is gone.
pub proof fn law_window_expiry_single_delete(
    cv: CoordinatorView,
    a: Seq<char>,
    m: MetaView,
    t0: u64,
    now: u64,
)
    requires
        cv.wf(),
        cv.tracker.rename_sources.len() == 0,
        cv.tracker.move_sources == seq![SourceEntryView { path: a, marked_at: t0, meta: m }],
        m.path == a,
        age_ms(now, t0) > cv.tracker.detection_window_ms,
        !cv.queue.write_fault,
        cv.queue.next_id < u64::MAX,
    ensures
        ({
            let s1 = spec_sweep(cv, now);
            &&& s1.tracker.rename_sources.len() == 0
            &&& s1.tracker.move_sources.len() == 0
            &&& s1.channel == cv.channel.push(
                SignalView::Job(
                    JobView {
                        db_id: Some(cv.queue.next_id),
                        payload: PayloadView::Delete { relative_path: a },
                    },
                ),
            )
            &&& row_index(s1.store, a) is None
            &&& s1.tracker.locked(a)
        }),
{
    let w = cv.tracker.detection_window_ms;
    let e = SourceEntryView { path: a, marked_at: t0, meta: m };
    assert(cv.tracker.move_sources[0] == e);
    assert(cv.tracker.move_sources.drop_first() =~= Seq::<SourceEntryView>::empty());
    assert(crate::tracker::expired_metas(Seq::<SourceEntryView>::empty(), now, w)
        =~= Seq::<MetaView>::empty());
    assert(crate::tracker::expired_metas(cv.tracker.move_sources, now, w) =~= seq![e.meta]
        + Seq::<MetaView>::empty());
    assert(crate::tracker::expired_metas(cv.tracker.move_sources, now, w) =~= seq![m]);
    assert(crate::tracker::fresh_sources(Seq::<SourceEntryView>::empty(), now, w)
        =~= Seq::<SourceEntryView>::empty());
    assert(crate::tracker::fresh_sources(cv.tracker.move_sources, now, w)
        =~= Seq::<SourceEntryView>::empty());
    let metas = crate::tracker::expired_metas(cv.tracker.rename_sources, now, w)
        + crate::tracker::expired_metas(cv.tracker.move_sources, now, w);
    assert(metas =~= seq![m]);
    assert(metas.drop_first() =~= Seq::<MetaView>::empty());
    assert(metas[0] == m);
    lemma_row_index(cv.store, a);
    lemma_spec_delete_removes(cv.store, a);
    let tv0 = crate::tracker::spec_cleanup(cv.tracker, now);
    let cv0 = CoordinatorView { tracker: tv0, ..cv };
    law_lock_effect(tv0, a);
    let h = crate::coordinator::spec_handle_external_delete(cv0, a, now).0;
    assert(crate::coordinator::spec_delete_all(cv0, metas, now)
        == crate::coordinator::spec_delete_all(h, metas.drop_first(), now));
    assert(crate::coordinator::spec_delete_all(h, Seq::<MetaView>::empty(), now) == h);
    assert(spec_sweep(cv, now) == h);
}

proof fn lemma_spec_delete_removes(s: Seq<RowView>, p: Seq<char>)
    requires
        store_distinct(s),
    ensures
        row_index(spec_delete(s, p), p) is None,
{
    lemma_row_index(s, p);
    match row_index(s, p) {
        Some(i) => {
            let s1 = s.remove(i);
            lemma_row_index(s1, p);
            if let Some(k) = row_index(s1, p) {
                if k < i {
                    assert(s[k].path == p);
                } else {
                    assert(s[k + 1].path == p);
                }
            }
        },
        None => {},
    }
}

proof fn lemma_add_or_replace_distinct(s: Seq<DocView>, p: Seq<char>, t: Seq<char>, c: Seq<char>)
    requires
        index_distinct(s),
    ensures
        index_distinct(spec_add_or_replace(s, p, t, c)),
{
    lemma_doc_index(s, p);
    let d = DocView { path: p, title: t, content: c };
    match doc_index(s, p) {
        Some(i) => {
            let s1 = s.remove(i).push(d);
            assert forall|a: int, b: int| 0 <= a < b < s1.len() implies s1[a].path != s1[b].path by {
                if b < s1.len() - 1 {
                } else {
                    // the pushed document's path occurred only at the
                    // removed position
                    if a < i {
                        assert(s1[a] == s[a]);
                    } else {
                        assert(s1[a] == s[a + 1]);
                    }
                }
            }
        },
        None => {
            let s1 = s.push(d);
            assert forall|a: int, b: int| 0 <= a < b < s1.len() implies s1[a].path != s1[b].path by {
                if b < s1.len() - 1 {
                } else {
                    assert(s1[a] == s[a]);
                }
            }
        },
    }
}

proof fn lemma_delete_doc_distinct(s: Seq<DocView>, p: Seq<char>)
    requires
        index_distinct(s),
    ensures
        index_distinct(crate::index_model::spec_delete_doc(s, p)),
{
    lemma_doc_index(s, p);
}

proof fn lemma_mark_indexed_distinct(s: Seq<RowView>, p: Seq<char>, size: u64, wc: u64, mt: u64)
    requires
        store_distinct(s),
    ensures
        store_distinct(spec_mark_indexed(s, p, size, wc, mt)),
{
    lemma_row_index(s, p);
    match row_index(s, p) {
        Some(i) => {
            let s1 = spec_mark_indexed(s, p, size, wc, mt);
            assert forall|a: int, b: int| 0 <= a < b < s1.len() implies s1[a].path != s1[b].path by {
                assert(s1[a].path == s[a].path);
                assert(s1[b].path == s[b].path);
            }
        },
        None => {},
    }
}

/// Executing a job keeps the whole state valid: the tracker, queue, store
/// and index invariants survive every job.
pub proof fn law_process_job_preserves_validity(
    cv: CoordinatorView,
    pv: PayloadView,
    disk: Seq<DiskFileView>,
    now: u64,
)
    requires
        cv.wf(),
    ensures
        spec_process_job(cv, pv, disk, now).0.wf(),
{
    match pv {
        PayloadView::UpdateOrSave { root_path, relative_path: rel } => {
            law_unlock_effect(cv.tracker, rel);
            match file_index(disk, rel) {
                None => {},
                Some(fi) => {
                    let content = disk[fi].content;
                    lemma_add_or_replace_distinct(cv.index, rel, title_of_path(rel), content);
                    lemma_mark_indexed_distinct(
                        cv.store,
                        rel,
                        content.len() as u64,
                        word_count_of(content) as u64,
                        disk[fi].mtime,
                    );
                },
            }
        },
        PayloadView::RenameOrMove { root_path, old_relative_path: old_p, new_relative_path: new_p } => {
            law_unlock_effect(cv.tracker, old_p);
            law_unlock_effect(spec_unlock(cv.tracker, old_p), new_p);
            match file_index(disk, new_p) {
                None => {},
                Some(fi) => {
                    let content = disk[fi].content;
                    lemma_delete_doc_distinct(cv.index, old_p);
                    lemma_add_or_replace_distinct(
                        crate::index_model::spec_delete_doc(cv.index, old_p),
                        new_p,
                        title_of_path(new_p),
                        content,
                    );
                    lemma_mark_indexed_distinct(
                        cv.store,
                        new_p,
                        content.len() as u64,
                        word_count_of(content) as u64,
                        disk[fi].mtime,
                    );
                },
            }
        },
        PayloadView::Delete { relative_path: rel } => {
            law_unlock_effect(cv.tracker, rel);
            lemma_delete_doc_distinct(cv.index, rel);
        },
    }
}

/// Crash recovery: a job durably written but never executed is found by the
/// next start-up's recovery pass and executed exactly once: the first step
/// runs it and deletes its row, the second step finds nothing left to do,
/// and the whole recovery pass ends in exactly the once-executed state.
pub proof fn law_recovery_exactly_once(cv: CoordinatorView, disk: Seq<DiskFileView>, now: u64)
    requires
        cv.wf(),
        cv.queue.rows.len() == 1,
        runnable(cv.queue.rows[0]),
        spec_process_job(cv, cv.queue.rows[0].payload, disk, now).1 is Ok,
    ensures
        ({
            let (s1, st1) = spec_recovery_step(cv, disk, now);
            let (s2, st2) = spec_recovery_step(s1, disk, now);
            &&& st1 == RecoveryStatus::Executed
            &&& s1.queue.rows.len() == 0
            &&& s1.index == spec_process_job(cv, cv.queue.rows[0].payload, disk, now).0.index
            &&& s1.store == spec_process_job(cv, cv.queue.rows[0].payload, disk, now).0.store
            &&& st2 == RecoveryStatus::Done
            &&& s2 == s1
            &&& spec_recover(cv, disk, now) == s1
        }),
{
    let row = cv.queue.rows[0];
    assert(runnable_index(cv.queue.rows) == Some(0int));
    assert(spec_next_pending(cv.queue) == Some((row.id, row.payload)));
    let (cv1, r) = spec_process_job(cv, row.payload, disk, now);
    assert(cv1.queue == cv.queue);
    assert(qrow_index(cv1.queue.rows, row.id) == Some(0int));
    let (s1, st1) = spec_recovery_step(cv, disk, now);
    assert(s1.queue.rows =~= Seq::<JobRowView>::empty());
    assert(runnable_index(s1.queue.rows) is None);
    law_process_job_preserves_validity(cv, row.payload, disk, now);
    assert(s1.wf());
    assert(spec_recover(cv, disk, now) == spec_recover(s1, disk, now));
    assert(spec_recover(s1, disk, now) == s1);
}

} // verus!

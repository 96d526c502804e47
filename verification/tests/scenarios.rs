//! End-to-end scenarios over the coordination subsystem: indexing a saved
//! document, external deletes confirmed by the detection window, durable
//! write failures, fusion of rename event pairs, idempotent re-indexing and
//! crash recovery.

use cheetah_note::coordinator::{
    is_watched_note_path, CommandError, Coordinator, WatchEventKind, WorkerStatus,
};
use cheetah_note::disk::Disk;
use cheetah_note::jobs::{IndexingJob, JobError, JobPayload, JobStatus, PersistenceError};

fn s(x: &str) -> String {
    String::from(x)
}

#[test]
fn scenario_index_saved_document() {
    let mut c = Coordinator::new();
    let mut disk = Disk::new();
    let root = s("ws");

    let rel = c
        .create_new_file(&root, &s(""), &s("Meeting Notes"), &mut disk, 1_000)
        .expect("create");
    assert_eq!(rel, "Meeting Notes.md");

    let content = s("# Meeting Notes\nagenda for tuesday\naction items\n");
    c.save_file(&root, &rel, &content, &mut disk, 2_000).expect("save");
    assert!(c.is_locked(&rel));

    c.drain_channel(&disk, 3_000);

    let results = c.search(&s("Meeting"));
    assert_eq!(results.len(), 1);
    assert_eq!(results[0].path, "Meeting Notes.md");
    assert!(!results[0].snippet.is_empty());

    let row = c.store_row(&rel).expect("row");
    assert!(row.indexed);
    assert!(!c.is_locked(&rel));
    assert_eq!(c.queue_len(), 0);
}

#[test]
fn scenario_external_delete_after_window() {
    let mut c = Coordinator::new();
    let mut disk = Disk::new();
    let root = s("ws");

    let rel = c.create_new_file(&root, &s(""), &s("tracked"), &mut disk, 1_000).expect("create");
    c.drain_channel(&disk, 1_500);
    assert!(c.index_contains_path(&rel));

    // an external tool deletes the file; nothing reappears
    disk.remove(&rel);
    c.handle_event(WatchEventKind::Remove, &rel, &root, &disk, 2_000);
    assert!(c.store_row(&rel).is_some(), "no delete before the window has passed");

    // sweeping within the window evicts nothing
    assert_eq!(c.sweep_expired_sources(3_000), 0);

    // past the window the disappearance is a confirmed external delete
    assert_eq!(c.sweep_expired_sources(4_100), 1);
    assert!(c.store_row(&rel).is_none());
    c.drain_channel(&disk, 4_200);
    assert!(!c.index_contains_path(&rel));
    assert!(c.search(&s("tracked")).is_empty());
    assert_eq!(c.queue_len(), 0);
    assert!(!c.is_locked(&rel));
}

#[test]
fn scenario_durable_write_failure_releases_lock() {
    let mut c = Coordinator::new();
    let mut disk = Disk::new();
    let root = s("ws");

    let rel = c.create_new_file(&root, &s(""), &s("doc"), &mut disk, 1_000).expect("create");
    c.drain_channel(&disk, 1_500);

    c.set_write_fault(true);
    let r = c.save_file(&root, &rel, &s("# doc\nnew text\n"), &mut disk, 2_000);
    assert_eq!(r, Err(CommandError::QueueWrite));
    assert!(!c.is_locked(&rel));

    // the dispatch functions surface the same failure directly
    let r2 = c.dispatch_update_job(s("ws"), rel.clone(), 2_100);
    assert_eq!(r2, Err(PersistenceError::WriteFailed));

    // once the medium recovers, saving works again
    c.set_write_fault(false);
    c.save_file(&root, &rel, &s("# doc\nnew text\n"), &mut disk, 3_000).expect("save");
    c.drain_channel(&disk, 3_500);
    assert!(c.store_row(&rel).unwrap().indexed);
}

#[test]
fn fusion_emits_single_rename_job() {
    let mut c = Coordinator::new();
    let mut disk = Disk::new();
    let root = s("ws");

    let rel = c.create_new_file(&root, &s(""), &s("old name"), &mut disk, 1_000).expect("create");
    c.drain_channel(&disk, 1_500);
    let jobs_before = c.queue_len();
    assert_eq!(jobs_before, 0);

    // an external editor rewrites the file under a new name: the old path
    // vanishes (a modify whose target is gone), the new path appears with
    // the same content
    let content = disk.read(&rel).expect("content");
    disk.remove(&rel);
    c.handle_event(WatchEventKind::Modify, &rel, &root, &disk, 2_000);
    disk.write(&s("new name.md"), &content, 2_100);
    c.handle_event(WatchEventKind::Create, &s("new name.md"), &root, &disk, 2_200);

    // exactly one job came out of the pair, and it is a rename (the
    // creation's job was row 1 and is gone; the fused job is row 2)
    assert_eq!(c.queue_len(), 1);
    let row = c.queue_row(2).expect("job row");
    match &row.payload {
        JobPayload::RenameOrMove { old_relative_path, new_relative_path, .. } => {
            assert_eq!(old_relative_path, "old name.md");
            assert_eq!(new_relative_path, "new name.md");
        }
        other => panic!("expected a rename job, got {:?}", other),
    }

    c.drain_channel(&disk, 2_500);
    assert!(!c.index_contains_path(&rel));
    assert!(c.index_contains_path(&s("new name.md")));
    let moved = c.store_row(&s("new name.md")).expect("moved row");
    assert!(moved.indexed);
    assert!(c.store_row(&rel).is_none());
    assert_eq!(c.queue_len(), 0);
}

#[test]
fn move_fused_by_title_match() {
    let mut c = Coordinator::new();
    let mut disk = Disk::new();
    let root = s("ws");

    let rel = c.create_new_file(&root, &s("inbox"), &s("note"), &mut disk, 1_000).expect("create");
    assert_eq!(rel, "inbox/note.md");
    c.drain_channel(&disk, 1_500);

    // an external move: a remove at the old path, then a create elsewhere
    // under the same file name
    let content = disk.read(&rel).expect("content");
    disk.remove(&rel);
    c.handle_event(WatchEventKind::Remove, &rel, &root, &disk, 2_000);
    assert_eq!(c.queue_len(), 0, "a remove alone emits no job");
    disk.write(&s("archive/note.md"), &content, 2_100);
    c.handle_event(WatchEventKind::Create, &s("archive/note.md"), &root, &disk, 2_200);

    assert_eq!(c.queue_len(), 1);
    c.drain_channel(&disk, 2_500);
    assert!(c.index_contains_path(&s("archive/note.md")));
    assert!(!c.index_contains_path(&rel));
}

#[test]
fn timeout_emits_single_delete_job() {
    let mut c = Coordinator::new();
    let mut disk = Disk::new();
    let root = s("ws");

    let rel = c.create_new_file(&root, &s(""), &s("fleeting"), &mut disk, 1_000).expect("create");
    c.drain_channel(&disk, 1_500);

    disk.remove(&rel);
    c.handle_event(WatchEventKind::Remove, &rel, &root, &disk, 2_000);
    assert_eq!(c.queue_len(), 0);

    // exactly at the window boundary nothing is evicted yet
    assert_eq!(c.sweep_expired_sources(4_000), 0);
    // beyond it, exactly one delete job
    assert_eq!(c.sweep_expired_sources(4_001), 1);
    assert_eq!(c.queue_len(), 1);
    // a second sweep finds the source gone: no second delete
    assert_eq!(c.sweep_expired_sources(5_000), 0);
    assert_eq!(c.queue_len(), 1);

    c.drain_channel(&disk, 5_500);
    assert_eq!(c.queue_len(), 0);
    assert!(!c.index_contains_path(&rel));
}

#[test]
fn update_job_executes_idempotently() {
    let mut c = Coordinator::new();
    let mut disk = Disk::new();
    let root = s("ws");

    let rel = c.create_new_file(&root, &s(""), &s("twice"), &mut disk, 1_000).expect("create");
    let payload = JobPayload::UpdateOrSave { root_path: root.clone(), relative_path: rel.clone() };

    c.process_job(&payload, &disk, 2_000).expect("first run");
    let row_once = c.store_row(&rel).expect("row");
    let hits_once = c.search(&s("twice"));

    c.process_job(&payload, &disk, 2_000).expect("second run");
    let row_twice = c.store_row(&rel).expect("row");
    let hits_twice = c.search(&s("twice"));

    assert_eq!(row_once, row_twice);
    assert_eq!(hits_once, hits_twice);
    assert_eq!(hits_twice.len(), 1);
}

#[test]
fn crash_recovery_executes_job_exactly_once() {
    let mut c = Coordinator::new();
    let mut disk = Disk::new();
    let root = s("ws");

    let rel = c.create_new_file(&root, &s(""), &s("survivor"), &mut disk, 1_000).expect("create");
    assert_eq!(c.channel_len(), 1);
    assert_eq!(c.queue_len(), 1);

    // the process dies before the worker ran: the channel is lost, the
    // durable row is not
    let mut c = c.restart();
    assert_eq!(c.channel_len(), 0);
    assert_eq!(c.queue_len(), 1);
    assert!(!c.index_contains_path(&rel));

    c.process_pending_db_jobs(&disk, 2_000);
    assert_eq!(c.queue_len(), 0);
    assert!(c.index_contains_path(&rel));
    assert!(c.store_row(&rel).unwrap().indexed);

    // running recovery again finds nothing left to do
    c.process_pending_db_jobs(&disk, 3_000);
    assert_eq!(c.queue_len(), 0);
    assert_eq!(c.search(&s("survivor")).len(), 1);
}

#[test]
fn failing_job_exhausts_retries_and_releases_lock() {
    let mut c = Coordinator::new();
    let mut disk = Disk::new();
    let root = s("ws");

    // a job whose document never appears on disk cannot succeed
    let rel = c.create_new_file(&root, &s(""), &s("ghost"), &mut disk, 1_000).expect("create");
    disk.remove(&rel);
    assert_eq!(
        c.process_job(
            &JobPayload::UpdateOrSave { root_path: root.clone(), relative_path: rel.clone() },
            &disk,
            1_100,
        ),
        Err(JobError::MissingFile)
    );

    assert!(c.is_locked(&rel));
    c.process_pending_db_jobs(&disk, 2_000);
    let row = c.queue_row(1).expect("row kept for inspection");
    assert_eq!(row.status, JobStatus::Failed);
    assert_eq!(row.retry_count, row.max_retries);
    assert!(row.last_error.is_some());
    assert!(!c.is_locked(&rel), "a terminally failed job must not leave its path locked");
}

#[test]
fn job_without_metadata_row_fails() {
    let mut c = Coordinator::new();
    let mut disk = Disk::new();

    // the document exists on disk, but nothing ever created its row
    disk.write(&s("stray.md"), &s("content"), 1_000);
    assert_eq!(
        c.process_job(
            &JobPayload::UpdateOrSave { root_path: s("ws"), relative_path: s("stray.md") },
            &disk,
            1_100,
        ),
        Err(JobError::MissingMetadata)
    );
    assert!(!c.index_contains_path(&s("stray.md")));
}

#[test]
fn failed_job_without_row_gets_a_fallback_row() {
    let mut c = Coordinator::new();
    let disk = Disk::new();

    // a job sent over the raw channel, never durably written: when it
    // fails, the worker durably records the failure as a fresh pending row
    c.send_job(IndexingJob {
        db_id: None,
        payload: JobPayload::UpdateOrSave { root_path: s("ws"), relative_path: s("lost.md") },
    });
    assert_eq!(c.queue_len(), 0);
    assert_eq!(c.worker_step(&disk, 1_000), WorkerStatus::ProcessedErr);

    assert_eq!(c.queue_len(), 1);
    let row = c.queue_row(1).expect("fallback row");
    assert_eq!(row.status, JobStatus::Pending);
    assert_eq!(row.retry_count, 0);
    assert!(row.last_error.is_some());
    assert_eq!(
        row.payload,
        JobPayload::UpdateOrSave { root_path: s("ws"), relative_path: s("lost.md") }
    );
}

#[test]
fn watched_note_filter_keeps_hidden_paths_out() {
    assert!(is_watched_note_path("note.md"));
    assert!(is_watched_note_path("dir/sub/note.md"));
    assert!(!is_watched_note_path("note.txt"));
    assert!(!is_watched_note_path("md"));
    assert!(!is_watched_note_path(".hidden.md"));
    assert!(!is_watched_note_path(".cheetah-note/metadata.sqlite"));
    assert!(!is_watched_note_path("dir/.cheetah_index/meta.md"));
    assert!(!is_watched_note_path("dir/.hidden/note.md"));
}

#[test]
fn echo_of_internal_save_is_ignored() {
    let mut c = Coordinator::new();
    let mut disk = Disk::new();
    let root = s("ws");

    let rel = c.create_new_file(&root, &s(""), &s("mine"), &mut disk, 1_000).expect("create");
    c.drain_channel(&disk, 1_200);
    c.save_file(&root, &rel, &s("# mine\nbody\n"), &mut disk, 2_000).expect("save");

    // the watcher reports our own write back; while the path is locked the
    // notification changes nothing
    let jobs_before = c.queue_len();
    c.handle_event(WatchEventKind::Modify, &rel, &root, &disk, 2_050);
    assert_eq!(c.queue_len(), jobs_before);

    c.drain_channel(&disk, 2_100);
    assert!(!c.is_locked(&rel));

    // after the job finished the lock is gone, but the write instant still
    // marks a near-simultaneous notification as an echo
    c.handle_event(WatchEventKind::Modify, &rel, &root, &disk, 2_200);
    assert_eq!(c.queue_len(), 0);

    // a modification with a timestamp far past the tolerance is external
    disk.write(&rel, &s("# mine\nedited elsewhere\n"), 9_000);
    c.handle_event(WatchEventKind::Modify, &rel, &root, &disk, 9_050);
    assert_eq!(c.queue_len(), 1);
}

#[test]
fn command_errors_are_reported() {
    let mut c = Coordinator::new();
    let mut disk = Disk::new();
    let root = s("ws");

    assert_eq!(
        c.delete_item(&s("absent.md"), &mut disk, 1_000),
        Err(CommandError::TargetMissing)
    );

    let rel = c.create_new_file(&root, &s(""), &s("dup"), &mut disk, 1_000).expect("create");
    assert_eq!(
        c.create_new_file(&root, &s(""), &s("dup"), &mut disk, 1_100),
        Err(CommandError::TargetExists)
    );
    assert_eq!(
        c.rename_item(&root, &rel, &s("a/b"), &mut disk, 1_200),
        Err(CommandError::InvalidName)
    );
    assert_eq!(
        c.rename_item(&root, &rel, &s("dup.md"), &mut disk, 1_300),
        Err(CommandError::TargetExists)
    );
    assert_eq!(
        c.rename_item(&root, &s("gone.md"), &s("x.md"), &mut disk, 1_400),
        Err(CommandError::TargetMissing)
    );

    let renamed = c.rename_item(&root, &rel, &s("kept.md"), &mut disk, 1_500).expect("rename");
    assert_eq!(renamed.old_path, "dup.md");
    assert_eq!(renamed.new_path, "kept.md");
    assert!(!renamed.is_dir);
    assert!(disk.file_exists(&s("kept.md")));
    assert!(!disk.file_exists(&rel));
}

#[test]
fn worker_shutdown_stops_the_loop() {
    let mut c = Coordinator::new();
    let disk = Disk::new();

    let idle = c.drain_channel(&disk, 1_000);
    assert_eq!(idle, WorkerStatus::Idle);

    c.send_shutdown();
    let stopped = c.drain_channel(&disk, 2_000);
    assert_eq!(stopped, WorkerStatus::ShutDown);
}

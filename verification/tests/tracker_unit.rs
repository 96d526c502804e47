//! Unit tests of the change tracker: lock idempotence, echo detection with
//! its tolerance, fusion source matching with the detection window, and the
//! sweep of expired sources.

use cheetah_note::fingerprint::WatchedFileMetadata;
use cheetah_note::tracker::{
    CreateClassification, ModifyClassification, RemoveClassification, SaveTracker,
    DETECTION_WINDOW_MS, ECHO_TOLERANCE_MS,
};

fn s(x: &str) -> String {
    String::from(x)
}

fn meta(path: &str, title: &str, size: u64, word_count: u64) -> WatchedFileMetadata {
    WatchedFileMetadata { path: s(path), title: s(title), size, word_count }
}

#[test]
fn constants_match_the_design() {
    assert_eq!(DETECTION_WINDOW_MS, 2_000);
    assert_eq!(ECHO_TOLERANCE_MS, 5_000);
}

#[test]
fn locks_are_idempotent() {
    let mut t = SaveTracker::new();
    let p = s("a.md");
    assert!(!t.is_locked(&p));
    t.lock(&p);
    t.lock(&p);
    assert!(t.is_locked(&p));
    assert!(!t.is_locked(&s("b.md")));
    t.unlock(&p);
    assert!(!t.is_locked(&p));
    t.unlock(&p);
    assert!(!t.is_locked(&p));
}

#[test]
fn echo_detection_respects_the_tolerance() {
    let mut t = SaveTracker::new();
    let p = s("a.md");
    assert!(!t.is_echo(&p, 1_000), "no recorded write, nothing is an echo");
    t.record_write(&p, 10_000);
    assert!(t.is_echo(&p, 10_000));
    assert!(t.is_echo(&p, 15_000), "exactly at the tolerance bound");
    assert!(!t.is_echo(&p, 15_001), "past the tolerance it is external");
    assert!(!t.is_echo(&s("b.md"), 10_000));
    t.clear_write_time(&p);
    assert!(!t.is_echo(&p, 10_000));
}

#[test]
fn rename_source_matches_on_size_and_word_count() {
    let mut t = SaveTracker::new();
    t.mark_potential_rename_source(&s("old.md"), meta("old.md", "old", 120, 17), 1_000);

    // a different fingerprint does not match
    assert!(t.find_recent_rename_source(120, 18, 1_500).is_none());
    assert!(t.find_recent_rename_source(121, 17, 1_500).is_none());

    // the matching fingerprint takes the entry out
    let (path, m) = t.find_recent_rename_source(120, 17, 1_500).expect("match");
    assert_eq!(path, "old.md");
    assert_eq!(m.size, 120);
    assert_eq!(m.word_count, 17);

    // it is gone afterwards
    assert!(t.find_recent_rename_source(120, 17, 1_600).is_none());
}

#[test]
fn rename_source_expires_with_the_window() {
    let mut t = SaveTracker::new();
    t.mark_potential_rename_source(&s("old.md"), meta("old.md", "old", 120, 17), 1_000);
    // at the window bound the entry no longer counts as recent
    assert!(t.find_recent_rename_source(120, 17, 1_000 + DETECTION_WINDOW_MS).is_none());
}

#[test]
fn move_source_matches_on_title() {
    let mut t = SaveTracker::new();
    t.mark_potential_move_source(&s("dir/note.md"), meta("dir/note.md", "note", 9, 2), 1_000);
    assert!(t.find_recent_move_source(&s("other"), 1_200).is_none());
    let (path, m) = t.find_recent_move_source(&s("note"), 1_200).expect("match");
    assert_eq!(path, "dir/note.md");
    assert_eq!(m.title, "note");
    assert!(t.find_recent_move_source(&s("note"), 1_300).is_none());
}

#[test]
fn ambiguous_fusion_candidates_resolve_to_the_first_marked() {
    let mut t = SaveTracker::new();
    t.mark_potential_rename_source(&s("first.md"), meta("first.md", "first", 50, 9), 1_000);
    t.mark_potential_rename_source(&s("second.md"), meta("second.md", "second", 50, 9), 1_100);

    let (path, _) = t.find_recent_rename_source(50, 9, 1_500).expect("match");
    assert_eq!(path, "first.md");
    let (path, _) = t.find_recent_rename_source(50, 9, 1_500).expect("second match");
    assert_eq!(path, "second.md");
    assert!(t.find_recent_rename_source(50, 9, 1_500).is_none());
}

#[test]
fn cleanup_evicts_only_expired_sources() {
    let mut t = SaveTracker::new();
    t.mark_potential_rename_source(&s("a.md"), meta("a.md", "a", 1, 1), 1_000);
    t.mark_potential_move_source(&s("b.md"), meta("b.md", "b", 2, 2), 2_500);

    // exactly at the window bound nothing is expired yet
    let none = t.cleanup_expired_sources(1_000 + DETECTION_WINDOW_MS);
    assert!(none.is_empty());

    // one tick past the bound evicts the older entry only
    let first = t.cleanup_expired_sources(1_000 + DETECTION_WINDOW_MS + 1);
    assert_eq!(first.len(), 1);
    assert_eq!(first[0].path, "a.md");

    // much later the other follows, exactly once
    let second = t.cleanup_expired_sources(10_000);
    assert_eq!(second.len(), 1);
    assert_eq!(second[0].path, "b.md");
    assert!(t.cleanup_expired_sources(20_000).is_empty());
}

#[test]
fn classification_follows_the_decision_order() {
    let mut t = SaveTracker::new();

    // a locked path is an internal echo, whatever else holds
    t.lock(&s("busy.md"));
    assert_eq!(
        t.classify_create(&s("busy.md"), 5, 1, &s("busy"), 1_000),
        CreateClassification::InternalEcho
    );
    assert_eq!(
        t.classify_remove(&s("busy.md"), Some(meta("busy.md", "busy", 5, 1)), 1_000),
        RemoveClassification::InternalEcho
    );

    // an unlocked removal of a tracked path becomes a candidate move source
    assert_eq!(
        t.classify_remove(&s("moved.md"), Some(meta("moved.md", "moved", 7, 2)), 1_000),
        RemoveClassification::MarkedMoveSource
    );
    // an untracked removal is ignored
    assert_eq!(
        t.classify_remove(&s("unknown.md"), None, 1_000),
        RemoveClassification::UntrackedRemove
    );

    // a creation with the same title fuses with the move source
    match t.classify_create(&s("new/moved.md"), 7, 2, &s("moved"), 1_500) {
        CreateClassification::FusedRenameOrMove { old_path, meta } => {
            assert_eq!(old_path, "moved.md");
            assert_eq!(meta.title, "moved");
        }
        other => panic!("expected fusion, got {:?}", other),
    }

    // with no candidate left the creation is external
    assert_eq!(
        t.classify_create(&s("fresh.md"), 3, 1, &s("fresh"), 1_600),
        CreateClassification::ExternalCreate
    );

    // a vanished tracked path becomes a candidate rename source
    assert_eq!(
        t.classify_modify(
            &s("gone.md"),
            false,
            0,
            Some(meta("gone.md", "gone", 42, 6)),
            0,
            0,
            2_000,
        ),
        ModifyClassification::MarkedRenameSource
    );
    // a vanished unknown path is ignored
    assert_eq!(
        t.classify_modify(&s("never.md"), false, 0, None, 0, 0, 2_000),
        ModifyClassification::UntrackedMissing
    );

    // a modification matching the rename source's fingerprint fuses
    match t.classify_modify(&s("back.md"), true, 9_999, None, 42, 6, 2_500) {
        ModifyClassification::FusedRenameOrMove { old_path, .. } => {
            assert_eq!(old_path, "gone.md");
        }
        other => panic!("expected fusion, got {:?}", other),
    }

    // an echoing timestamp is skipped, a fresh one is an external modify
    t.record_write(&s("w.md"), 10_000);
    assert_eq!(
        t.classify_modify(&s("w.md"), true, 12_000, None, 5, 1, 12_100),
        ModifyClassification::TimestampEcho
    );
    assert_eq!(
        t.classify_modify(&s("w.md"), true, 15_001, None, 5, 1, 15_100),
        ModifyClassification::ExternalModify
    );
}

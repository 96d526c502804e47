//! Unit tests of the plain helpers: word counting, truncation, substring
//! matching, title extraction, path joining, rename planning and the
//! durable queue's bookkeeping.

use cheetah_note::codec::{decode_payload, encode_payload};
use cheetah_note::jobs::{JobPayload, JobStatus};
use cheetah_note::paths::{plan_rename, replace_path_prefix, to_absolute_path};
use cheetah_note::queue::DurableQueue;
use cheetah_note::store::MetadataStore;
use cheetah_note::text::{
    contains_str, content_size, extract_title_from_content, extract_title_from_path,
    safe_truncate, trim_str, word_count,
};

fn s(x: &str) -> String {
    String::from(x)
}

#[test]
fn word_count_counts_runs_of_non_whitespace() {
    assert_eq!(word_count(""), 0);
    assert_eq!(word_count("   \n\t "), 0);
    assert_eq!(word_count("one"), 1);
    assert_eq!(word_count("  one  two\nthree\t"), 3);
    assert_eq!(word_count("a b c d e"), 5);
}

#[test]
fn content_size_counts_characters() {
    assert_eq!(content_size(""), 0);
    assert_eq!(content_size("abc"), 3);
    assert_eq!(content_size("a\nb"), 3);
}

#[test]
fn safe_truncate_keeps_at_most_the_limit() {
    assert_eq!(safe_truncate("abcdef", 3), "abc");
    assert_eq!(safe_truncate("ab", 3), "ab");
    assert_eq!(safe_truncate("", 3), "");
    assert_eq!(safe_truncate("abc", 0), "");
}

#[test]
fn contains_str_finds_substrings() {
    assert!(contains_str("hello world", "lo wo"));
    assert!(contains_str("hello", "hello"));
    assert!(contains_str("hello", ""));
    assert!(!contains_str("hello", "world"));
    assert!(!contains_str("ab", "abc"));
}

#[test]
fn titles_come_from_the_file_name() {
    assert_eq!(extract_title_from_path("notes/sub/Note 1.md"), "Note 1");
    assert_eq!(extract_title_from_path("Note 1.md"), "Note 1");
    assert_eq!(extract_title_from_path("archive/a.b.md"), "a.b");
    assert_eq!(extract_title_from_path("plain"), "plain");
    assert_eq!(extract_title_from_path("dir/.hidden"), ".hidden");
}

#[test]
fn trim_removes_whitespace_at_both_ends() {
    assert_eq!(trim_str("  a b \n"), "a b");
    assert_eq!(trim_str("ab"), "ab");
    assert_eq!(trim_str("   \t\n"), "");
    assert_eq!(trim_str(""), "");
}

#[test]
fn content_titles_come_from_the_first_heading() {
    assert_eq!(extract_title_from_content("# Title\nbody\n"), Some(String::from("Title")));
    assert_eq!(
        extract_title_from_content("intro line\n  #  Spaced Out  \nrest"),
        Some(String::from("Spaced Out"))
    );
    assert_eq!(extract_title_from_content("no heading here"), None);
    assert_eq!(extract_title_from_content("#nospace\n"), None);
    // a bare heading marker trims down to `#` alone and names no title
    assert_eq!(extract_title_from_content("# "), None);
    assert_eq!(extract_title_from_content("# x"), Some(String::from("x")));
    assert_eq!(extract_title_from_content(""), None);
}

#[test]
fn paths_join_with_a_single_separator() {
    assert_eq!(to_absolute_path(&s("root"), &s("a/b.md")), "root/a/b.md");
    assert_eq!(to_absolute_path(&s("root/"), &s("a.md")), "root/a.md");
    assert_eq!(to_absolute_path(&s(""), &s("a.md")), "a.md");
}

#[test]
fn rename_planning_maps_affected_paths() {
    assert_eq!(replace_path_prefix(&s("dir/a.md"), &s("dir"), &s("dir2")), "dir2/a.md");
    assert_eq!(replace_path_prefix(&s("dir"), &s("dir"), &s("dir2")), "dir2");
    assert_eq!(replace_path_prefix(&s("dirx/a.md"), &s("dir"), &s("dir2")), "dirx/a.md");

    let affected = vec![s("dir/a.md"), s("dir/sub/b.md"), s("other/c.md")];
    let (result, mapped) = plan_rename(&s("dir"), &s("dir2"), &affected, true);
    assert_eq!(result.old_path, "dir");
    assert_eq!(result.new_path, "dir2");
    assert!(result.is_dir);
    assert_eq!(mapped, vec![s("dir2/a.md"), s("dir2/sub/b.md"), s("other/c.md")]);
}

#[test]
fn store_rows_are_keyed_by_path() {
    let mut store = MetadataStore::new();
    store.upsert(&s("a.md"), &s("a"), 10, 2, 1_000, false);
    store.upsert(&s("b.md"), &s("b"), 20, 4, 1_000, false);
    assert_eq!(store.len(), 2);

    // upserting an existing path replaces, never duplicates
    store.upsert(&s("a.md"), &s("a"), 11, 3, 2_000, true);
    assert_eq!(store.len(), 2);
    let row = store.get_row(&s("a.md")).expect("row");
    assert_eq!(row.size, 11);
    assert!(row.indexed);

    let fp = store.lookup(&s("b.md")).expect("fingerprint");
    assert_eq!(fp.title, "b");
    assert_eq!(fp.size, 20);

    // a rename that would collide with another row changes nothing
    store.rename_path(&s("a.md"), &s("b.md"), &s("b"));
    assert!(store.get_row(&s("a.md")).is_some());

    // a clean rename moves the row and drops its indexed flag
    store.rename_path(&s("a.md"), &s("c.md"), &s("c"));
    assert!(store.get_row(&s("a.md")).is_none());
    let moved = store.get_row(&s("c.md")).expect("moved");
    assert_eq!(moved.title, "c");
    assert!(!moved.indexed);

    store.delete(&s("b.md"));
    assert!(!store.contains(&s("b.md")));
    assert_eq!(store.len(), 1);
}

#[test]
fn durable_rows_keep_retry_bookkeeping() {
    let mut q = DurableQueue::new();
    let payload = JobPayload::Delete { relative_path: s("a.md") };
    let id = q.persist(&payload, 1_000).expect("persist");

    let row = q.get_row(id).expect("row");
    assert_eq!(row.status, JobStatus::Pending);
    assert_eq!(row.retry_count, 0);
    assert_eq!(row.max_retries, 3);
    assert_eq!(row.created_at, 1_000);

    q.record_failure(id, &s("first"), 2_000);
    q.record_failure(id, &s("second"), 3_000);
    let row = q.get_row(id).expect("row");
    assert_eq!(row.status, JobStatus::Pending);
    assert_eq!(row.retry_count, 2);
    assert_eq!(row.last_error, Some(s("second")));
    assert!(q.next_pending().is_some(), "a row with attempts left is still runnable");

    q.record_failure(id, &s("third"), 4_000);
    let row = q.get_row(id).expect("row");
    assert_eq!(row.status, JobStatus::Failed);
    assert_eq!(row.retry_count, 3);
    assert!(q.next_pending().is_none(), "a terminally failed row is never run again");

    q.delete_row(id);
    assert!(q.get_row(id).is_none());
}

#[test]
fn pending_rows_come_oldest_first() {
    let mut q = DurableQueue::new();
    let a = q.persist(&JobPayload::Delete { relative_path: s("a.md") }, 1_000).unwrap();
    let b = q.persist(&JobPayload::Delete { relative_path: s("b.md") }, 2_000).unwrap();
    assert!(a < b);

    let (first, _) = q.next_pending().expect("pending");
    assert_eq!(first, a);
    q.delete_row(a);
    let (second, payload) = q.next_pending().expect("pending");
    assert_eq!(second, b);
    assert_eq!(payload, JobPayload::Delete { relative_path: s("b.md") });
}

#[test]
fn write_fault_refuses_durable_writes() {
    let mut q = DurableQueue::new();
    q.set_write_fault(true);
    assert!(q.persist(&JobPayload::Delete { relative_path: s("a.md") }, 1_000).is_err());
    assert_eq!(q.len(), 0);
    q.set_write_fault(false);
    assert!(q.persist(&JobPayload::Delete { relative_path: s("a.md") }, 2_000).is_ok());
    assert_eq!(q.len(), 1);
}

#[test]
fn payload_encoding_round_trips() {
    let samples = vec![
        JobPayload::UpdateOrSave { root_path: s("ws"), relative_path: s("a/b.md") },
        JobPayload::RenameOrMove {
            root_path: s("ws"),
            old_relative_path: s("weird|name.md"),
            new_relative_path: s("back\\slash.md"),
        },
        JobPayload::Delete { relative_path: s("") },
        JobPayload::Delete { relative_path: s("\\|\\|") },
    ];
    for p in samples {
        let text = encode_payload(&p);
        assert_eq!(decode_payload(&text), Some(p));
    }
    assert_eq!(
        encode_payload(&JobPayload::Delete { relative_path: s("a.md") }),
        "da.md|"
    );
}

#[test]
fn malformed_payload_texts_are_refused() {
    assert_eq!(decode_payload(""), None);
    assert_eq!(decode_payload("x"), None);
    assert_eq!(decode_payload("d"), None, "an unterminated field is refused");
    assert_eq!(decode_payload("da.md"), None);
    assert_eq!(decode_payload("da.md|trailing"), None);
    assert_eq!(decode_payload("da\\"), None, "a dangling escape is refused");
    assert_eq!(decode_payload("uonly-one-field|"), None);
}

#[test]
fn payloads_name_the_paths_they_lock() {
    let up = JobPayload::UpdateOrSave { root_path: s("ws"), relative_path: s("a.md") };
    assert_eq!(up.paths_to_unlock(), vec![s("a.md")]);
    let mv = JobPayload::RenameOrMove {
        root_path: s("ws"),
        old_relative_path: s("a.md"),
        new_relative_path: s("b.md"),
    };
    assert_eq!(mv.paths_to_unlock(), vec![s("a.md"), s("b.md")]);
    let del = JobPayload::Delete { relative_path: s("c.md") };
    assert_eq!(del.paths_to_unlock(), vec![s("c.md")]);
}

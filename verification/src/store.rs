//! Model of the relational metadata store: one row per tracked file, keyed by
//! relative path. It is the source of truth for the reconciliation
//! heuristics; a host program mirrors every transition onto its database.

use vstd::prelude::*;

verus! {

use crate::fingerprint::{MetaView, WatchedFileMetadata};

/// Spec-level image of a [`FileRow`].
pub struct RowView {
    pub path: Seq<char>,
    pub title: Seq<char>,
    pub size: u64,
    pub word_count: u64,
    pub mtime: u64,
    pub indexed: bool,
}

/// One metadata row: fingerprint fields, modification instant, and the flag
/// saying whether the index holds the current content.
#[derive(Debug, PartialEq, Eq)]
pub struct FileRow {
    pub path: String,
    pub title: String,
    pub size: u64,
    pub word_count: u64,
    pub mtime: u64,
    pub indexed: bool,
}

impl View for FileRow {
    type V = RowView;

    open spec fn view(&self) -> RowView {
        RowView {
            path: self.path@,
            title: self.title@,
            size: self.size,
            word_count: self.word_count,
            mtime: self.mtime,
            indexed: self.indexed,
        }
    }
}

impl Clone for FileRow {
    fn clone(&self) -> (r: Self)
        ensures
            r@ == self@,
    {
        FileRow {
            path: self.path.clone(),
            title: self.title.clone(),
            size: self.size,
            word_count: self.word_count,
            mtime: self.mtime,
            indexed: self.indexed,
        }
    }
}

/// First position of the row for `p`, if any.
pub open spec fn row_index(s: Seq<RowView>, p: Seq<char>) -> Option<int>
    decreases s.len(),
{
    if s.len() == 0 {
        None
    } else if s[0].path == p {
        Some(0)
    } else {
        match row_index(s.drop_first(), p) {
            Some(i) => Some(i + 1),
            None => None,
        }
    }
}

/// Every path occurs at most once.
pub open spec fn store_distinct(s: Seq<RowView>) -> bool {
    forall|i: int, j: int| 0 <= i < j < s.len() ==> s[i].path != s[j].path
}

/// Effect of writing the row for `p` (update in place, or append when new).
pub open spec fn spec_upsert(
    s: Seq<RowView>,
    p: Seq<char>,
    title: Seq<char>,
    size: u64,
    word_count: u64,
    mtime: u64,
    indexed: bool,
) -> Seq<RowView> {
    let row = RowView { path: p, title, size, word_count, mtime, indexed };
    match row_index(s, p) {
        Some(i) => s.update(i, row),
        None => s.push(row),
    }
}

/// Effect of deleting the row for `p`, if present.
pub open spec fn spec_delete(s: Seq<RowView>, p: Seq<char>) -> Seq<RowView> {
    match row_index(s, p) {
        Some(i) => s.remove(i),
        None => s,
    }
}

/// Effect of inserting a fresh row for `p` with nothing indexed yet; a
/// present row is left untouched, as the store's unique path key would have
/// it.
pub open spec fn spec_insert_ignore(
    s: Seq<RowView>,
    p: Seq<char>,
    title: Seq<char>,
    size: u64,
    word_count: u64,
) -> Seq<RowView> {
    match row_index(s, p) {
        Some(i) => s,
        None => s.push(
            RowView { path: p, title, size, word_count, mtime: 0, indexed: false },
        ),
    }
}

/// Effect of refreshing the fingerprint of `p` after an external
/// modification; the indexed flag drops until the worker has caught up.
pub open spec fn spec_update_fingerprint(
    s: Seq<RowView>,
    p: Seq<char>,
    size: u64,
    word_count: u64,
) -> Seq<RowView> {
    match row_index(s, p) {
        Some(i) => s.update(i, RowView { size, word_count, indexed: false, ..s[i] }),
        None => s,
    }
}

/// Effect of moving the row of `old` to path `new` with a new title; the
/// indexed flag drops until the worker has caught up. When `new` already
/// has a row of its own the move would break the unique path key and
/// nothing changes.
pub open spec fn spec_rename(
    s: Seq<RowView>,
    old_p: Seq<char>,
    new_p: Seq<char>,
    new_title: Seq<char>,
) -> Seq<RowView> {
    match row_index(s, old_p) {
        Some(i) => if row_index(s, new_p) is None || old_p == new_p {
            s.update(i, RowView { path: new_p, title: new_title, indexed: false, ..s[i] })
        } else {
            s
        },
        None => s,
    }
}

/// Effect of the worker recording a finished re-index of `p`: fresh
/// fingerprint and modification instant, indexed flag set.
pub open spec fn spec_mark_indexed(
    s: Seq<RowView>,
    p: Seq<char>,
    size: u64,
    word_count: u64,
    mtime: u64,
) -> Seq<RowView> {
    match row_index(s, p) {
        Some(i) => s.update(
            i,
            RowView { size, word_count, mtime, indexed: true, ..s[i] },
        ),
        None => s,
    }
}

pub proof fn lemma_row_index(s: Seq<RowView>, p: Seq<char>)
    ensures
        match row_index(s, p) {
            Some(i) => 0 <= i < s.len() && s[i].path == p && forall|j: int|
                0 <= j < i ==> s[j].path != p,
            None => forall|j: int| 0 <= j < s.len() ==> s[j].path != p,
        },
    decreases s.len(),
{
    if s.len() > 0 {
        lemma_row_index(s.drop_first(), p);
        if s[0].path != p {
            match row_index(s.drop_first(), p) {
                Some(i) => {
                    assert(s.drop_first()[i] == s[i + 1]);
                    assert forall|j: int| 0 <= j < i + 1 implies s[j].path != p by {
                        if j > 0 {
                            assert(s.drop_first()[j - 1] == s[j]);
                        }
                    }
                },
                None => {
                    assert forall|j: int| 0 <= j < s.len() implies s[j].path != p by {
                        if j > 0 {
                            assert(s.drop_first()[j - 1] == s[j]);
                        }
                    }
                },
            }
        }
    }
}

/// In-memory model of the metadata store.
pub struct MetadataStore {
    rows: Vec<FileRow>,
}

impl View for MetadataStore {
    type V = Seq<RowView>;

    closed spec fn view(&self) -> Seq<RowView> {
        self.rows@.map_values(|r: FileRow| r@)
    }
}

impl MetadataStore {
    /// An empty store.
    pub fn new() -> (s: Self)
        ensures
            s@ == Seq::<RowView>::empty(),
            store_distinct(s@),
    {
        let s = MetadataStore { rows: Vec::new() };
        proof {
            assert(s@ =~= Seq::<RowView>::empty());
        }
        s
    }

    /// How many files the store tracks.
    pub fn len(&self) -> (r: usize)
        ensures
            r == self@.len(),
    {
        self.rows.len()
    }

    fn position(&self, path: &String) -> (r: Option<usize>)
        ensures
            match r {
                Some(i) => row_index(self@, path@) == Some(i as int),
                None => row_index(self@, path@) is None,
            },
    {
        let n = self.rows.len();
        let mut i: usize = 0;
        while i < n
            invariant
                n == self.rows.len(),
                i <= n,
                forall|j: int| 0 <= j < i ==> self@[j].path != path@,
            decreases n - i,
        {
            if self.rows[i].path == *path {
                proof {
                    lemma_row_index(self@, path@);
                    if row_index(self@, path@) is None {
                        assert(self@[i as int].path == path@);
                    }
                    if let Some(k) = row_index(self@, path@) {
                        if k < i {
                            assert(self@[k].path == path@);
                        }
                        if k > i {
                            assert(self@[i as int].path == path@);
                        }
                    }
                }
                return Some(i);
            }
            i = i + 1;
        }
        proof {
            lemma_row_index(self@, path@);
        }
        None
    }

    /// Whether the store has a row for `path`.
    pub fn contains(&self, path: &String) -> (r: bool)
        ensures
            r == (row_index(self@, path@) is Some),
    {
        self.position(path).is_some()
    }

    /// The fingerprint the store holds for `path`, if any; what the watcher
    /// glue snapshots before a path disappears.
    pub fn lookup(&self, path: &String) -> (r: Option<WatchedFileMetadata>)
        ensures
            match r {
                Some(m) => {
                    &&& row_index(self@, path@) is Some
                    &&& {
                        let row = self@[row_index(self@, path@).unwrap()];
                        m@ == MetaView {
                            path: row.path,
                            title: row.title,
                            size: row.size,
                            word_count: row.word_count,
                        }
                    }
                },
                None => row_index(self@, path@) is None,
            },
    {
        match self.position(path) {
            Some(i) => {
                proof {
                    lemma_row_index(self@, path@);
                }
                let row = &self.rows[i];
                Some(
                    WatchedFileMetadata {
                        path: row.path.clone(),
                        title: row.title.clone(),
                        size: row.size,
                        word_count: row.word_count,
                    },
                )
            },
            None => None,
        }
    }

    /// A copy of the full row for `path`, if any.
    pub fn get_row(&self, path: &String) -> (r: Option<FileRow>)
        ensures
            match r {
                Some(row) => row_index(self@, path@) is Some && row@ == self@[row_index(
                    self@,
                    path@,
                ).unwrap()],
                None => row_index(self@, path@) is None,
            },
    {
        match self.position(path) {
            Some(i) => {
                proof {
                    lemma_row_index(self@, path@);
                }
                Some(self.rows[i].clone())
            },
            None => None,
        }
    }

    /// Writes the row for `path`, replacing any previous one.
    pub fn upsert(
        &mut self,
        path: &String,
        title: &String,
        size: u64,
        word_count: u64,
        mtime: u64,
        indexed: bool,
    )
        requires
            store_distinct(old(self)@),
        ensures
            final(self)@ == spec_upsert(old(self)@, path@, title@, size, word_count, mtime, indexed),
            store_distinct(final(self)@),
    {
        let ghost pre = self@;
        let row = FileRow {
            path: path.clone(),
            title: title.clone(),
            size,
            word_count,
            mtime,
            indexed,
        };
        match self.position(path) {
            Some(i) => {
                proof {
                    lemma_row_index(pre, path@);
                }
                self.rows.remove(i);
                self.rows.insert(i, row);
                proof {
                    assert(self@ =~= pre.update(
                        i as int,
                        RowView { path: path@, title: title@, size, word_count, mtime, indexed },
                    ));
                }
            },
            None => {
                self.rows.push(row);
                proof {
                    assert(self@ =~= pre.push(
                        RowView { path: path@, title: title@, size, word_count, mtime, indexed },
                    ));
                    lemma_row_index(pre, path@);
                }
            },
        }
    }

    /// Deletes the row for `path`, if present.
    pub fn delete(&mut self, path: &String)
        requires
            store_distinct(old(self)@),
        ensures
            final(self)@ == spec_delete(old(self)@, path@),
            store_distinct(final(self)@),
            row_index(final(self)@, path@) is None,
    {
        let ghost pre = self@;
        match self.position(path) {
            Some(i) => {
                proof {
                    lemma_row_index(pre, path@);
                }
                self.rows.remove(i);
                proof {
                    assert(self@ =~= pre.remove(i as int));
                    lemma_row_index(self@, path@);
                    if let Some(k) = row_index(self@, path@) {
                        if k < i {
                            assert(pre[k].path == path@);
                        } else {
                            assert(pre[k + 1].path == path@);
                        }
                    }
                }
            },
            None => {
                proof {
                    lemma_row_index(pre, path@);
                }
            },
        }
    }

    /// Inserts a fresh, not yet indexed row for `path`; leaves a present row
    /// untouched.
    pub fn insert_ignore(&mut self, path: &String, title: &String, size: u64, word_count: u64)
        requires
            store_distinct(old(self)@),
        ensures
            final(self)@ == spec_insert_ignore(old(self)@, path@, title@, size, word_count),
            store_distinct(final(self)@),
    {
        let ghost pre = self@;
        match self.position(path) {
            Some(_) => {},
            None => {
                let row = FileRow {
                    path: path.clone(),
                    title: title.clone(),
                    size,
                    word_count,
                    mtime: 0,
                    indexed: false,
                };
                self.rows.push(row);
                proof {
                    assert(self@ =~= pre.push(
                        RowView { path: path@, title: title@, size, word_count, mtime: 0, indexed: false },
                    ));
                    lemma_row_index(pre, path@);
                }
            },
        }
    }

    /// Refreshes the fingerprint of `path` after an external modification,
    /// clearing its indexed flag; no effect when the row is gone.
    pub fn update_fingerprint(&mut self, path: &String, size: u64, word_count: u64)
        requires
            store_distinct(old(self)@),
        ensures
            final(self)@ == spec_update_fingerprint(old(self)@, path@, size, word_count),
            store_distinct(final(self)@),
    {
        let ghost pre = self@;
        match self.position(path) {
            Some(i) => {
                proof {
                    lemma_row_index(pre, path@);
                }
                let prev = self.rows.remove(i);
                let row = FileRow {
                    path: prev.path,
                    title: prev.title,
                    size,
                    word_count,
                    mtime: prev.mtime,
                    indexed: false,
                };
                self.rows.insert(i, row);
                proof {
                    assert(self@ =~= pre.update(
                        i as int,
                        RowView { size, word_count, indexed: false, ..pre[i as int] },
                    ));
                }
            },
            None => {},
        }
    }

    /// Moves the row of `old_path` to `new_path` with `new_title`, clearing
    /// its indexed flag; no effect when `old_path` has no row or when the
    /// move would collide with a row already at `new_path`.
    pub fn rename_path(&mut self, old_path: &String, new_path: &String, new_title: &String)
        requires
            store_distinct(old(self)@),
        ensures
            final(self)@ == spec_rename(old(self)@, old_path@, new_path@, new_title@),
            store_distinct(final(self)@),
    {
        let ghost pre = self@;
        match self.position(old_path) {
            Some(i) => {
                if !(*old_path == *new_path) && self.contains(new_path) {
                    proof {
                        lemma_row_index(pre, old_path@);
                        lemma_row_index(pre, new_path@);
                    }
                    return ;
                }
                proof {
                    lemma_row_index(pre, old_path@);
                    lemma_row_index(pre, new_path@);
                }
                let prev = self.rows.remove(i);
                let row = FileRow {
                    path: new_path.clone(),
                    title: new_title.clone(),
                    size: prev.size,
                    word_count: prev.word_count,
                    mtime: prev.mtime,
                    indexed: false,
                };
                self.rows.insert(i, row);
                proof {
                    assert(self@ =~= pre.update(
                        i as int,
                        RowView {
                            path: new_path@,
                            title: new_title@,
                            indexed: false,
                            ..pre[i as int]
                        },
                    ));
                }
            },
            None => {},
        }
    }

    /// Records that the worker finished re-indexing `path`: fresh
    /// fingerprint, fresh modification instant, indexed flag set. No effect
    /// when the row is gone.
    pub fn mark_indexed(&mut self, path: &String, size: u64, word_count: u64, mtime: u64)
        requires
            store_distinct(old(self)@),
        ensures
            final(self)@ == spec_mark_indexed(old(self)@, path@, size, word_count, mtime),
            store_distinct(final(self)@),
    {
        let ghost pre = self@;
        match self.position(path) {
            Some(i) => {
                proof {
                    lemma_row_index(pre, path@);
                }
                let prev = self.rows.remove(i);
                let row = FileRow {
                    path: prev.path,
                    title: prev.title,
                    size,
                    word_count,
                    mtime,
                    indexed: true,
                };
                self.rows.insert(i, row);
                proof {
                    assert(self@ =~= pre.update(
                        i as int,
                        RowView { size, word_count, mtime, indexed: true, ..pre[i as int] },
                    ));
                }
            },
            None => {},
        }
    }
}

} // verus!

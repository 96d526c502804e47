//! Model of the watched folder: the documents on disk with their content and
//! modification instants. The subsystem reads it when fingerprinting and when
//! executing jobs; tests mutate it to play the role of external tools.

use vstd::prelude::*;

verus! {

/// Spec-level image of a [`DiskFile`].
pub struct DiskFileView {
    pub path: Seq<char>,
    pub content: Seq<char>,
    pub mtime: u64,
}

/// One document on disk.
#[derive(Debug, PartialEq, Eq)]
pub struct DiskFile {
    pub path: String,
    pub content: String,
    pub mtime: u64,
}

impl View for DiskFile {
    type V = DiskFileView;

    open spec fn view(&self) -> DiskFileView {
        DiskFileView { path: self.path@, content: self.content@, mtime: self.mtime }
    }
}

/// First position of the file at `p`, if any.
pub open spec fn file_index(s: Seq<DiskFileView>, p: Seq<char>) -> Option<int>
    decreases s.len(),
{
    if s.len() == 0 {
        None
    } else if s[0].path == p {
        Some(0)
    } else {
        match file_index(s.drop_first(), p) {
            Some(i) => Some(i + 1),
            None => None,
        }
    }
}

/// Every path occurs at most once.
pub open spec fn disk_distinct(s: Seq<DiskFileView>) -> bool {
    forall|i: int, j: int| 0 <= i < j < s.len() ==> s[i].path != s[j].path
}

/// Effect of writing `content` to `p` at instant `mtime`.
pub open spec fn spec_write(
    s: Seq<DiskFileView>,
    p: Seq<char>,
    content: Seq<char>,
    mtime: u64,
) -> Seq<DiskFileView> {
    let f = DiskFileView { path: p, content, mtime };
    match file_index(s, p) {
        Some(i) => s.update(i, f),
        None => s.push(f),
    }
}

/// Effect of removing the file at `p`, if present.
pub open spec fn spec_remove_file(s: Seq<DiskFileView>, p: Seq<char>) -> Seq<DiskFileView> {
    match file_index(s, p) {
        Some(i) => s.remove(i),
        None => s,
    }
}

/// Effect of renaming the file at `old_p` to `new_p`, keeping its content
/// and modification instant.
pub open spec fn spec_rename_file(
    s: Seq<DiskFileView>,
    old_p: Seq<char>,
    new_p: Seq<char>,
) -> Seq<DiskFileView> {
    match file_index(s, old_p) {
        Some(i) => s.update(i, DiskFileView { path: new_p, ..s[i] }),
        None => s,
    }
}

proof fn lemma_file_index(s: Seq<DiskFileView>, p: Seq<char>)
    ensures
        match file_index(s, p) {
            Some(i) => 0 <= i < s.len() && s[i].path == p && forall|j: int|
                0 <= j < i ==> s[j].path != p,
            None => forall|j: int| 0 <= j < s.len() ==> s[j].path != p,
        },
    decreases s.len(),
{
    if s.len() > 0 {
        lemma_file_index(s.drop_first(), p);
        if s[0].path != p {
            match file_index(s.drop_first(), p) {
                Some(i) => {
                    assert(s.drop_first()[i] == s[i + 1]);
                    assert forall|j: int| 0 <= j < i + 1 implies s[j].path != p by {
                        if j > 0 {
                            assert(s.drop_first()[j - 1] == s[j]);
                        }
                    }
                },
                None => {
                    assert forall|j: int| 0 <= j < s.len() implies s[j].path != p by {
                        if j > 0 {
                            assert(s.drop_first()[j - 1] == s[j]);
                        }
                    }
                },
            }
        }
    }
}

/// In-memory model of the watched folder.
pub struct Disk {
    files: Vec<DiskFile>,
}

impl View for Disk {
    type V = Seq<DiskFileView>;

    closed spec fn view(&self) -> Seq<DiskFileView> {
        self.files@.map_values(|f: DiskFile| f@)
    }
}

impl Disk {
    /// An empty folder.
    pub fn new() -> (d: Self)
        ensures
            d@ == Seq::<DiskFileView>::empty(),
            disk_distinct(d@),
    {
        let d = Disk { files: Vec::new() };
        proof {
            assert(d@ =~= Seq::<DiskFileView>::empty());
        }
        d
    }

    fn position(&self, path: &String) -> (r: Option<usize>)
        ensures
            match r {
                Some(i) => file_index(self@, path@) == Some(i as int),
                None => file_index(self@, path@) is None,
            },
    {
        let n = self.files.len();
        let mut i: usize = 0;
        while i < n
            invariant
                n == self.files.len(),
                i <= n,
                forall|j: int| 0 <= j < i ==> self@[j].path != path@,
            decreases n - i,
        {
            if self.files[i].path == *path {
                proof {
                    lemma_file_index(self@, path@);
                    if file_index(self@, path@) is None {
                        assert(self@[i as int].path == path@);
                    }
                    if let Some(k) = file_index(self@, path@) {
                        if k < i {
                            assert(self@[k].path == path@);
                        }
                        if k > i {
                            assert(self@[i as int].path == path@);
                        }
                    }
                }
                return Some(i);
            }
            i = i + 1;
        }
        proof {
            lemma_file_index(self@, path@);
        }
        None
    }

    /// Whether a file exists at `path`.
    pub fn file_exists(&self, path: &String) -> (r: bool)
        ensures
            r == (file_index(self@, path@) is Some),
    {
        self.position(path).is_some()
    }

    /// The content of the file at `path`, if it exists.
    pub fn read(&self, path: &String) -> (r: Option<String>)
        ensures
            match r {
                Some(c) => file_index(self@, path@) is Some && c@ == self@[file_index(
                    self@,
                    path@,
                ).unwrap()].content,
                None => file_index(self@, path@) is None,
            },
    {
        match self.position(path) {
            Some(i) => {
                proof {
                    lemma_file_index(self@, path@);
                }
                Some(self.files[i].content.clone())
            },
            None => None,
        }
    }

    /// The modification instant of the file at `path`, if it exists.
    pub fn mtime_of(&self, path: &String) -> (r: Option<u64>)
        ensures
            match r {
                Some(t) => file_index(self@, path@) is Some && t == self@[file_index(
                    self@,
                    path@,
                ).unwrap()].mtime,
                None => file_index(self@, path@) is None,
            },
    {
        match self.position(path) {
            Some(i) => {
                proof {
                    lemma_file_index(self@, path@);
                }
                Some(self.files[i].mtime)
            },
            None => None,
        }
    }

    /// Writes `content` to `path` at instant `mtime_ms`, creating the file
    /// or replacing its content.
    pub fn write(&mut self, path: &String, content: &String, mtime_ms: u64)
        requires
            disk_distinct(old(self)@),
        ensures
            final(self)@ == spec_write(old(self)@, path@, content@, mtime_ms),
            disk_distinct(final(self)@),
    {
        let ghost pre = self@;
        let f = DiskFile { path: path.clone(), content: content.clone(), mtime: mtime_ms };
        match self.position(path) {
            Some(i) => {
                proof {
                    lemma_file_index(pre, path@);
                }
                self.files.remove(i);
                self.files.insert(i, f);
                proof {
                    assert(self@ =~= pre.update(
                        i as int,
                        DiskFileView { path: path@, content: content@, mtime: mtime_ms },
                    ));
                }
            },
            None => {
                self.files.push(f);
                proof {
                    assert(self@ =~= pre.push(
                        DiskFileView { path: path@, content: content@, mtime: mtime_ms },
                    ));
                    lemma_file_index(pre, path@);
                }
            },
        }
    }

    /// Removes the file at `path`, if present.
    pub fn remove(&mut self, path: &String)
        requires
            disk_distinct(old(self)@),
        ensures
            final(self)@ == spec_remove_file(old(self)@, path@),
            disk_distinct(final(self)@),
            file_index(final(self)@, path@) is None,
    {
        let ghost pre = self@;
        match self.position(path) {
            Some(i) => {
                proof {
                    lemma_file_index(pre, path@);
                }
                self.files.remove(i);
                proof {
                    assert(self@ =~= pre.remove(i as int));
                    lemma_file_index(self@, path@);
                    if let Some(k) = file_index(self@, path@) {
                        if k < i {
                            assert(pre[k].path == path@);
                        } else {
                            assert(pre[k + 1].path == path@);
                        }
                    }
                }
            },
            None => {
                proof {
                    lemma_file_index(pre, path@);
                }
            },
        }
    }

    /// Renames the file at `old_path` to `new_path`, keeping content and
    /// modification instant; no effect when `old_path` does not exist.
    pub fn rename(&mut self, old_path: &String, new_path: &String)
        requires
            disk_distinct(old(self)@),
            file_index(old(self)@, new_path@) is None || old_path@ == new_path@,
        ensures
            final(self)@ == spec_rename_file(old(self)@, old_path@, new_path@),
            disk_distinct(final(self)@),
    {
        let ghost pre = self@;
        match self.position(old_path) {
            Some(i) => {
                proof {
                    lemma_file_index(pre, old_path@);
                    lemma_file_index(pre, new_path@);
                }
                let prev = self.files.remove(i);
                let f = DiskFile {
                    path: new_path.clone(),
                    content: prev.content,
                    mtime: prev.mtime,
                };
                self.files.insert(i, f);
                proof {
                    assert(self@ =~= pre.update(
                        i as int,
                        DiskFileView { path: new_path@, ..pre[i as int] },
                    ));
                }
            },
            None => {},
        }
    }
}

} // verus!

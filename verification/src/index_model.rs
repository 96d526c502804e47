//! Model of the full-text index: one document per path, replaced as a whole
//! on every update (delete by path term, then add). The subsystem writes it;
//! the simple containment search here is its observation function, standing
//! in for the external engine's ranked search.

use vstd::prelude::*;

verus! {

use crate::text::{is_substring, is_word_sep, safe_truncate};

/// A snippet shows at most this many characters of the document.
pub const SNIPPET_MAX_CHARS: usize = 150;

/// Spec-level image of an [`IndexDoc`].
pub struct DocView {
    pub path: Seq<char>,
    pub title: Seq<char>,
    pub content: Seq<char>,
}

/// One indexed document.
#[derive(Debug, PartialEq, Eq)]
pub struct IndexDoc {
    pub path: String,
    pub title: String,
    pub content: String,
}

impl View for IndexDoc {
    type V = DocView;

    open spec fn view(&self) -> DocView {
        DocView { path: self.path@, title: self.title@, content: self.content@ }
    }
}

/// Spec-level image of a [`SearchResult`].
pub struct SearchResultView {
    pub path: Seq<char>,
    pub title: Seq<char>,
    pub snippet: Seq<char>,
}

/// One search hit: the document's path and title, and a snippet of its
/// content.
#[derive(Debug, PartialEq, Eq)]
pub struct SearchResult {
    pub path: String,
    pub title: String,
    pub snippet: String,
}

impl View for SearchResult {
    type V = SearchResultView;

    open spec fn view(&self) -> SearchResultView {
        SearchResultView { path: self.path@, title: self.title@, snippet: self.snippet@ }
    }
}

/// First position of the document at `p`, if any.
pub open spec fn doc_index(s: Seq<DocView>, p: Seq<char>) -> Option<int>
    decreases s.len(),
{
    if s.len() == 0 {
        None
    } else if s[0].path == p {
        Some(0)
    } else {
        match doc_index(s.drop_first(), p) {
            Some(i) => Some(i + 1),
            None => None,
        }
    }
}

/// Every path occurs at most once.
pub open spec fn index_distinct(s: Seq<DocView>) -> bool {
    forall|i: int, j: int| 0 <= i < j < s.len() ==> s[i].path != s[j].path
}

/// Effect of replacing the document at `p` (any previous one is dropped
/// first, so re-adding never appends a duplicate).
pub open spec fn spec_add_or_replace(
    s: Seq<DocView>,
    p: Seq<char>,
    title: Seq<char>,
    content: Seq<char>,
) -> Seq<DocView> {
    let d = DocView { path: p, title, content };
    match doc_index(s, p) {
        Some(i) => s.remove(i).push(d),
        None => s.push(d),
    }
}

/// Effect of dropping the document at `p`, if present.
pub open spec fn spec_delete_doc(s: Seq<DocView>, p: Seq<char>) -> Seq<DocView> {
    match doc_index(s, p) {
        Some(i) => s.remove(i),
        None => s,
    }
}

/// Whether the query is empty but for whitespace; such a query returns no
/// results.
pub open spec fn is_blank(q: Seq<char>) -> bool {
    forall|i: int| 0 <= i < q.len() ==> is_word_sep(q[i])
}

/// Whether a document is a hit for `q`: the query occurs in its title or in
/// its content.
pub open spec fn doc_matches(d: DocView, q: Seq<char>) -> bool {
    is_substring(d.title, q) || is_substring(d.content, q)
}

/// The snippet shown for a document: its content, truncated.
pub open spec fn snippet_of(content: Seq<char>) -> Seq<char> {
    if content.len() <= SNIPPET_MAX_CHARS {
        content
    } else {
        content.take(SNIPPET_MAX_CHARS as int)
    }
}

/// The hit produced for a matching document.
pub open spec fn result_of(d: DocView) -> SearchResultView {
    SearchResultView { path: d.path, title: d.title, snippet: snippet_of(d.content) }
}

/// The hits for `q` among `s`, in document order.
pub open spec fn spec_matches(s: Seq<DocView>, q: Seq<char>) -> Seq<SearchResultView>
    decreases s.len(),
{
    if s.len() == 0 {
        Seq::empty()
    } else if doc_matches(s[0], q) {
        seq![result_of(s[0])] + spec_matches(s.drop_first(), q)
    } else {
        spec_matches(s.drop_first(), q)
    }
}

/// What a search for `q` returns: nothing for a blank query, else every hit
/// in document order.
pub open spec fn spec_search(s: Seq<DocView>, q: Seq<char>) -> Seq<SearchResultView> {
    if is_blank(q) {
        Seq::empty()
    } else {
        spec_matches(s, q)
    }
}

pub proof fn lemma_doc_index(s: Seq<DocView>, p: Seq<char>)
    ensures
        match doc_index(s, p) {
            Some(i) => 0 <= i < s.len() && s[i].path == p && forall|j: int|
                0 <= j < i ==> s[j].path != p,
            None => forall|j: int| 0 <= j < s.len() ==> s[j].path != p,
        },
    decreases s.len(),
{
    if s.len() > 0 {
        lemma_doc_index(s.drop_first(), p);
        if s[0].path != p {
            match doc_index(s.drop_first(), p) {
                Some(i) => {
                    assert(s.drop_first()[i] == s[i + 1]);
                    assert forall|j: int| 0 <= j < i + 1 implies s[j].path != p by {
                        if j > 0 {
                            assert(s.drop_first()[j - 1] == s[j]);
                        }
                    }
                },
                None => {
                    assert forall|j: int| 0 <= j < s.len() implies s[j].path != p by {
                        if j > 0 {
                            assert(s.drop_first()[j - 1] == s[j]);
                        }
                    }
                },
            }
        }
    }
}

/// In-memory model of the full-text index.
pub struct SearchIndex {
    docs: Vec<IndexDoc>,
}

impl View for SearchIndex {
    type V = Seq<DocView>;

    closed spec fn view(&self) -> Seq<DocView> {
        self.docs@.map_values(|d: IndexDoc| d@)
    }
}

impl SearchIndex {
    /// An empty index.
    pub fn new() -> (s: Self)
        ensures
            s@ == Seq::<DocView>::empty(),
            index_distinct(s@),
    {
        let s = SearchIndex { docs: Vec::new() };
        proof {
            assert(s@ =~= Seq::<DocView>::empty());
        }
        s
    }

    /// How many documents the index holds.
    pub fn len(&self) -> (r: usize)
        ensures
            r == self@.len(),
    {
        self.docs.len()
    }

    fn position(&self, path: &String) -> (r: Option<usize>)
        ensures
            match r {
                Some(i) => doc_index(self@, path@) == Some(i as int),
                None => doc_index(self@, path@) is None,
            },
    {
        let n = self.docs.len();
        let mut i: usize = 0;
        while i < n
            invariant
                n == self.docs.len(),
                i <= n,
                forall|j: int| 0 <= j < i ==> self@[j].path != path@,
            decreases n - i,
        {
            if self.docs[i].path == *path {
                proof {
                    lemma_doc_index(self@, path@);
                    if doc_index(self@, path@) is None {
                        assert(self@[i as int].path == path@);
                    }
                    if let Some(k) = doc_index(self@, path@) {
                        if k < i {
                            assert(self@[k].path == path@);
                        }
                        if k > i {
                            assert(self@[i as int].path == path@);
                        }
                    }
                }
                return Some(i);
            }
            i = i + 1;
        }
        proof {
            lemma_doc_index(self@, path@);
        }
        None
    }

    /// Whether the index holds a document at `path`.
    pub fn contains_path(&self, path: &String) -> (r: bool)
        ensures
            r == (doc_index(self@, path@) is Some),
    {
        self.position(path).is_some()
    }

    /// Replaces the document at `path` as a whole: any previous document at
    /// that path is dropped first, never appended to.
    pub fn add_or_replace(&mut self, path: &String, title: &String, content: &String)
        requires
            index_distinct(old(self)@),
        ensures
            final(self)@ == spec_add_or_replace(old(self)@, path@, title@, content@),
            index_distinct(final(self)@),
    {
        let ghost pre = self@;
        let doc = IndexDoc { path: path.clone(), title: title.clone(), content: content.clone() };
        match self.position(path) {
            Some(i) => {
                proof {
                    lemma_doc_index(pre, path@);
                }
                self.docs.remove(i);
                self.docs.push(doc);
                proof {
                    assert(self@ =~= pre.remove(i as int).push(
                        DocView { path: path@, title: title@, content: content@ },
                    ));
                }
            },
            None => {
                self.docs.push(doc);
                proof {
                    assert(self@ =~= pre.push(
                        DocView { path: path@, title: title@, content: content@ },
                    ));
                    lemma_doc_index(pre, path@);
                }
            },
        }
    }

    /// Drops the document at `path`, if present.
    pub fn delete_by_path(&mut self, path: &String)
        requires
            index_distinct(old(self)@),
        ensures
            final(self)@ == spec_delete_doc(old(self)@, path@),
            index_distinct(final(self)@),
            doc_index(final(self)@, path@) is None,
    {
        let ghost pre = self@;
        match self.position(path) {
            Some(i) => {
                proof {
                    lemma_doc_index(pre, path@);
                }
                self.docs.remove(i);
                proof {
                    assert(self@ =~= pre.remove(i as int));
                    lemma_doc_index(self@, path@);
                    if let Some(k) = doc_index(self@, path@) {
                        if k < i {
                            assert(pre[k].path == path@);
                        } else {
                            assert(pre[k + 1].path == path@);
                        }
                    }
                }
            },
            None => {
                proof {
                    lemma_doc_index(pre, path@);
                }
            },
        }
    }

    /// Searches for `query`: every document whose title or content contains
    /// it, in document order, each with a truncated snippet. A blank query
    /// returns nothing.
    pub fn search(&self, query: &String) -> (r: Vec<SearchResult>)
        ensures
            r@.map_values(|x: SearchResult| x@) == spec_search(self@, query@),
    {
        let mut out: Vec<SearchResult> = Vec::new();
        if Self::query_is_blank(query) {
            proof {
                assert(out@.map_values(|x: SearchResult| x@) =~= Seq::<SearchResultView>::empty());
            }
            return out;
        }
        let ghost s = self@;
        let n = self.docs.len();
        let mut i: usize = 0;
        proof {
            assert(s.skip(0) =~= s);
            assert(out@.map_values(|x: SearchResult| x@) =~= Seq::<SearchResultView>::empty());
        }
        while i < n
            invariant
                s == self@,
                n == self.docs.len(),
                i <= n,
                spec_matches(s, query@) == out@.map_values(|x: SearchResult| x@) + spec_matches(
                    s.skip(i as int),
                    query@,
                ),
            decreases n - i,
        {
            let ghost ovs = out@.map_values(|x: SearchResult| x@);
            proof {
                assert(s.skip(i as int)[0] == s[i as int]);
                assert(s.skip(i as int).drop_first() =~= s.skip(i as int + 1));
            }
            let doc = &self.docs[i];
            if crate::text::contains_str(doc.title.as_str(), query.as_str()) || crate::text::contains_str(
                doc.content.as_str(),
                query.as_str(),
            ) {
                let snippet = safe_truncate(doc.content.as_str(), SNIPPET_MAX_CHARS);
                out.push(
                    SearchResult { path: doc.path.clone(), title: doc.title.clone(), snippet },
                );
                proof {
                    assert(out@.map_values(|x: SearchResult| x@) =~= ovs.push(
                        result_of(s[i as int]),
                    ));
                    assert(ovs + (seq![result_of(s[i as int])] + spec_matches(
                        s.skip(i as int + 1),
                        query@,
                    )) =~= ovs.push(result_of(s[i as int])) + spec_matches(
                        s.skip(i as int + 1),
                        query@,
                    ));
                }
            }
            i = i + 1;
        }
        proof {
            assert(s.skip(n as int) =~= Seq::<DocView>::empty());
            assert(out@.map_values(|x: SearchResult| x@) + spec_matches(
                Seq::<DocView>::empty(),
                query@,
            ) =~= out@.map_values(|x: SearchResult| x@));
        }
        out
    }

    fn query_is_blank(query: &String) -> (r: bool)
        ensures
            r == is_blank(query@),
    {
        let s = query.as_str();
        let n = s.unicode_len();
        let mut i: usize = 0;
        while i < n
            invariant
                n == s@.len(),
                s@ == query@,
                i <= n,
                forall|j: int| 0 <= j < i ==> is_word_sep(query@[j]),
            decreases n - i,
        {
            let c = s.get_char(i);
            if !(c == ' ' || c == '\t' || c == '\n' || c == '\r' || c == '\u{b}' || c == '\u{c}') {
                return false;
            }
            i = i + 1;
        }
        true
    }
}

} // verus!

//! Character-level helpers: word counting for fingerprints, title extraction
//! from a relative path, substring matching for the index model, and safe
//! truncation for snippets.

use vstd::prelude::*;

verus! {

use vstd::string::StringSliceAdditionalSpecFns;

/// The characters this crate treats as word separators when counting words.
pub open spec fn is_word_sep(c: char) -> bool {
    c == ' ' || c == '\t' || c == '\n' || c == '\r' || c == '\u{b}' || c == '\u{c}'
}

/// Number of maximal runs of non-separator characters in `s`; `prev_sep` says
/// whether the character just before `s` was a separator (or the start).
pub open spec fn word_count_from(s: Seq<char>, prev_sep: bool) -> nat
    decreases s.len(),
{
    if s.len() == 0 {
        0
    } else {
        (if prev_sep && !is_word_sep(s[0]) {
            1nat
        } else {
            0nat
        }) + word_count_from(s.drop_first(), is_word_sep(s[0]))
    }
}

/// Number of whitespace-separated words in `s`.
pub open spec fn word_count_of(s: Seq<char>) -> nat {
    word_count_from(s, true)
}

fn is_separator_char(c: char) -> (r: bool)
    ensures
        r == is_word_sep(c),
{
    c == ' ' || c == '\t' || c == '\n' || c == '\r' || c == '\u{b}' || c == '\u{c}'
}

/// Counts the whitespace-separated words of `s`, as a fingerprint of its
/// content.
pub fn word_count(s: &str) -> (r: u64)
    ensures
        r == word_count_of(s@),
{
    let n = s.unicode_len();
    let mut i: usize = 0;
    let mut prev_sep = true;
    let mut count: u64 = 0;
    proof {
        assert(s@.skip(0) =~= s@);
    }
    while i < n
        invariant
            n == s@.len(),
            i <= n,
            count <= i,
            count + word_count_from(s@.skip(i as int), prev_sep) == word_count_of(s@),
        decreases n - i,
    {
        let c = s.get_char(i);
        proof {
            assert(s@.skip(i as int)[0] == s@[i as int]);
            assert(s@.skip(i as int).drop_first() =~= s@.skip(i as int + 1));
        }
        if prev_sep && !is_separator_char(c) {
            count = count + 1;
        }
        prev_sep = is_separator_char(c);
        i = i + 1;
    }
    proof {
        assert(s@.skip(n as int) =~= Seq::<char>::empty());
    }
    count
}

/// Length of `s` in characters, as a fingerprint of its content.
pub fn content_size(s: &str) -> (r: u64)
    ensures
        r == s@.len(),
{
    s.unicode_len() as u64
}

/// At most the first `max_chars` characters of `s`.
pub fn safe_truncate(s: &str, max_chars: usize) -> (r: String)
    ensures
        r@ == if s@.len() <= max_chars {
            s@
        } else {
            s@.take(max_chars as int)
        },
{
    let n = s.unicode_len();
    if n <= max_chars {
        String::from_str(s)
    } else {
        String::from_str(s.substring_char(0, max_chars))
    }
}

/// Whether `n` occurs contiguously somewhere in `h`.
pub open spec fn is_substring(h: Seq<char>, n: Seq<char>) -> bool {
    exists|k: int| 0 <= k <= h.len() - n.len() && #[trigger] h.subrange(k, k + n.len()) == n
}

fn match_at(hay: &str, needle: &str, k: usize) -> (r: bool)
    requires
        k + needle@.len() <= hay@.len() <= usize::MAX,
    ensures
        r == (hay@.subrange(k as int, k as int + needle@.len()) == needle@),
{
    let nn = needle.unicode_len();
    let mut j: usize = 0;
    while j < nn
        invariant
            nn == needle@.len(),
            k + nn <= hay@.len() <= usize::MAX,
            j <= nn,
            forall|j2: int| 0 <= j2 < j ==> hay@[k + j2] == needle@[j2],
        decreases nn - j,
    {
        if hay.get_char(k + j) != needle.get_char(j) {
            proof {
                assert(hay@.subrange(k as int, k as int + needle@.len())[j as int] == hay@[k
                    + j as int]);
            }
            return false;
        }
        j = j + 1;
    }
    proof {
        assert(hay@.subrange(k as int, k as int + needle@.len()) =~= needle@);
    }
    true
}

/// Whether `needle` occurs contiguously in `hay`.
pub fn contains_str(hay: &str, needle: &str) -> (r: bool)
    ensures
        r == is_substring(hay@, needle@),
{
    let hn = hay.unicode_len();
    let nn = needle.unicode_len();
    if nn > hn {
        return false;
    }
    if nn == 0 {
        proof {
            assert(hay@.subrange(0, 0 + needle@.len() as int) =~= needle@);
        }
        return true;
    }
    let mut k: usize = 0;
    loop
        invariant
            hn == hay@.len(),
            nn == needle@.len(),
            1 <= nn <= hn,
            k <= hn - nn + 1,
            forall|k2: int|
                0 <= k2 < k ==> #[trigger] hay@.subrange(k2, k2 + needle@.len()) != needle@,
        decreases hn - nn + 1 - k,
    {
        if k > hn - nn {
            return false;
        }
        if match_at(hay, needle, k) {
            return true;
        }
        k = k + 1;
    }
}

/// Last index at which `c` occurs in `s`, if any.
pub open spec fn last_occurrence_of(s: Seq<char>, c: char) -> Option<int>
    decreases s.len(),
{
    if s.len() == 0 {
        None
    } else if s.last() == c {
        Some(s.len() - 1)
    } else {
        last_occurrence_of(s.drop_last(), c)
    }
}

pub fn find_last(s: &str, c: char) -> (r: Option<usize>)
    ensures
        match r {
            Some(i) => i < s@.len() && last_occurrence_of(s@, c) == Some(i as int),
            None => last_occurrence_of(s@, c) is None,
        },
{
    let n = s.unicode_len();
    let mut i: usize = 0;
    let mut found: Option<usize> = None;
    while i < n
        invariant
            n == s@.len(),
            i <= n,
            match found {
                Some(j) => j < i && last_occurrence_of(s@.take(i as int), c) == Some(j as int),
                None => last_occurrence_of(s@.take(i as int), c) is None,
            },
        decreases n - i,
    {
        proof {
            assert(s@.take(i as int + 1).drop_last() =~= s@.take(i as int));
            assert(s@.take(i as int + 1).last() == s@[i as int]);
        }
        if s.get_char(i) == c {
            found = Some(i);
        }
        i = i + 1;
    }
    proof {
        assert(s@.take(n as int) =~= s@);
    }
    found
}

/// How many separator characters `s` starts with.
pub open spec fn lead_ws(s: Seq<char>) -> int
    decreases s.len(),
{
    if s.len() > 0 && is_word_sep(s[0]) {
        1 + lead_ws(s.drop_first())
    } else {
        0
    }
}

/// How many separator characters `s` ends with.
pub open spec fn trail_ws(s: Seq<char>) -> int
    decreases s.len(),
{
    if s.len() > 0 && is_word_sep(s.last()) {
        1 + trail_ws(s.drop_last())
    } else {
        0
    }
}

/// `s` without its leading and trailing whitespace.
pub open spec fn trimmed(s: Seq<char>) -> Seq<char> {
    if lead_ws(s) == s.len() {
        Seq::empty()
    } else {
        s.subrange(lead_ws(s), s.len() - trail_ws(s))
    }
}

proof fn lemma_lead_ws(s: Seq<char>)
    ensures
        0 <= lead_ws(s) <= s.len(),
        forall|j: int| 0 <= j < lead_ws(s) ==> is_word_sep(s[j]),
        lead_ws(s) < s.len() ==> !is_word_sep(s[lead_ws(s)]),
    decreases s.len(),
{
    if s.len() > 0 && is_word_sep(s[0]) {
        lemma_lead_ws(s.drop_first());
        assert forall|j: int| 0 <= j < lead_ws(s) implies is_word_sep(s[j]) by {
            if j > 0 {
                assert(s.drop_first()[j - 1] == s[j]);
            }
        }
        if lead_ws(s) < s.len() {
            assert(s.drop_first()[lead_ws(s) - 1] == s[lead_ws(s)]);
        }
    }
}

proof fn lemma_trail_ws(s: Seq<char>)
    ensures
        0 <= trail_ws(s) <= s.len(),
        forall|j: int| s.len() - trail_ws(s) <= j < s.len() ==> is_word_sep(s[j]),
        trail_ws(s) < s.len() ==> !is_word_sep(s[s.len() - trail_ws(s) - 1]),
    decreases s.len(),
{
    if s.len() > 0 && is_word_sep(s.last()) {
        lemma_trail_ws(s.drop_last());
        assert forall|j: int| s.len() - trail_ws(s) <= j < s.len() implies is_word_sep(s[j]) by {
            if j < s.len() - 1 {
                assert(s.drop_last()[j] == s[j]);
            }
        }
        if trail_ws(s) < s.len() {
            assert(s.drop_last()[s.len() - trail_ws(s) - 1] == s[s.len() - trail_ws(s) - 1]);
        }
    }
}

/// `s` without its leading and trailing whitespace.
pub fn trim_str(s: &str) -> (r: String)
    ensures
        r@ == trimmed(s@),
{
    proof {
        lemma_lead_ws(s@);
        lemma_trail_ws(s@);
    }
    let n = s.unicode_len();
    let mut a: usize = 0;
    while a < n && is_separator_char(s.get_char(a))
        invariant
            n == s@.len(),
            a <= n,
            forall|j: int| 0 <= j < a ==> is_word_sep(s@[j]),
        decreases n - a,
    {
        a = a + 1;
    }
    if a == n {
        proof {
            if lead_ws(s@) < s@.len() {
                assert(is_word_sep(s@[lead_ws(s@)]));
            }
        }
        return String::new();
    }
    proof {
        // `a` is the first non-separator position, so it equals `lead_ws`
        if lead_ws(s@) < a {
            assert(is_word_sep(s@[lead_ws(s@)]));
        }
        if lead_ws(s@) > a {
            assert(is_word_sep(s@[a as int]));
        }
    }
    let mut b: usize = n;
    while b > a && is_separator_char(s.get_char(b - 1))
        invariant
            n == s@.len(),
            a < n,
            !is_word_sep(s@[a as int]),
            a <= b <= n,
            forall|j: int| b <= j < n ==> is_word_sep(s@[j]),
        decreases b,
    {
        b = b - 1;
    }
    proof {
        // `b` marks the end of the trailing whitespace, so it matches
        // `trail_ws`
        assert(!is_word_sep(s@[b - 1]));
        if s@.len() - trail_ws(s@) < b {
            assert(is_word_sep(s@[b - 1]));
        }
        if s@.len() - trail_ws(s@) > b {
            assert(is_word_sep(s@[s@.len() - trail_ws(s@) - 1]));
        }
    }
    String::from_str(s.substring_char(a, b))
}

/// First position of a line break in `s`, if any.
pub open spec fn first_newline(s: Seq<char>) -> Option<int>
    decreases s.len(),
{
    if s.len() == 0 {
        None
    } else if s[0] == '\n' {
        Some(0)
    } else {
        match first_newline(s.drop_first()) {
            Some(i) => Some(i + 1),
            None => None,
        }
    }
}

proof fn lemma_first_newline(s: Seq<char>)
    ensures
        match first_newline(s) {
            Some(i) => 0 <= i < s.len() && s[i] == '\n' && forall|j: int|
                0 <= j < i ==> s[j] != '\n',
            None => forall|j: int| 0 <= j < s.len() ==> s[j] != '\n',
        },
    decreases s.len(),
{
    if s.len() > 0 {
        lemma_first_newline(s.drop_first());
        if s[0] != '\n' {
            match first_newline(s.drop_first()) {
                Some(i) => {
                    assert(s.drop_first()[i] == s[i + 1]);
                    assert forall|j: int| 0 <= j < i + 1 implies s[j] != '\n' by {
                        if j > 0 {
                            assert(s.drop_first()[j - 1] == s[j]);
                        }
                    }
                },
                None => {
                    assert forall|j: int| 0 <= j < s.len() implies s[j] != '\n' by {
                        if j > 0 {
                            assert(s.drop_first()[j - 1] == s[j]);
                        }
                    }
                },
            }
        }
    }
}

/// Whether a trimmed line is a markdown heading of the first level.
pub open spec fn is_heading_line(t: Seq<char>) -> bool {
    t.len() >= 2 && t[0] == '#' && t[1] == ' '
}

/// The title a document states in its content: the trimmed rest of the
/// first line that, after trimming, starts with a `# ` heading marker; no
/// such line, no title.
pub open spec fn title_of_content(s: Seq<char>) -> Option<Seq<char>>
    decreases s.len(),
{
    let line = match first_newline(s) {
        Some(i) => s.take(i),
        None => s,
    };
    let t = trimmed(line);
    if is_heading_line(t) {
        Some(trimmed(t.skip(2)))
    } else {
        match first_newline(s) {
            Some(i) => if 0 <= i < s.len() {
                title_of_content(s.skip(i + 1))
            } else {
                None
            },
            None => None,
        }
    }
}

fn find_newline_from(s: &str, start: usize) -> (r: Option<usize>)
    requires
        start <= s@.len(),
    ensures
        match r {
            Some(i) => start <= i < s@.len() && first_newline(s@.skip(start as int)) == Some(
                i - start,
            ),
            None => first_newline(s@.skip(start as int)) is None,
        },
{
    let ghost tail = s@.skip(start as int);
    let n = s.unicode_len();
    let mut i: usize = start;
    while i < n
        invariant
            tail == s@.skip(start as int),
            n == s@.len(),
            start <= i <= n,
            forall|j: int| 0 <= j < i - start ==> tail[j] != '\n',
        decreases n - i,
    {
        proof {
            assert(tail[i - start] == s@[i as int]);
        }
        if s.get_char(i) == '\n' {
            proof {
                lemma_first_newline(tail);
                if first_newline(tail) is None {
                    assert(tail[i - start] == '\n');
                }
                if let Some(k) = first_newline(tail) {
                    if k < i - start {
                        assert(tail[k] == '\n');
                    }
                    if k > i - start {
                        assert(tail[i - start] == '\n');
                    }
                }
            }
            return Some(i);
        }
        i = i + 1;
    }
    proof {
        lemma_first_newline(tail);
        if let Some(k) = first_newline(tail) {
            assert(tail[k] == '\n');
        }
    }
    None
}

/// The title a document states in its content: the trimmed rest of its
/// first `# ` heading line, if it has one.
pub fn extract_title_from_content(content: &str) -> (r: Option<String>)
    ensures
        match r {
            Some(t) => title_of_content(content@) == Some(t@),
            None => title_of_content(content@) is None,
        },
{
    let n = content.unicode_len();
    let mut pos: usize = 0;
    proof {
        assert(content@.skip(0) =~= content@);
    }
    loop
        invariant
            n == content@.len(),
            pos <= n,
            title_of_content(content@) == title_of_content(content@.skip(pos as int)),
        decreases n - pos,
    {
        let ghost tail = content@.skip(pos as int);
        let nl = find_newline_from(content, pos);
        let line_end = match nl {
            Some(i) => i,
            None => n,
        };
        let line = content.substring_char(pos, line_end);
        proof {
            assert(line@ =~= match first_newline(tail) {
                Some(i) => tail.take(i),
                None => tail,
            });
        }
        let t = trim_str(line);
        let tn = t.as_str().unicode_len();
        if tn >= 2 && t.as_str().get_char(0) == '#' && t.as_str().get_char(1) == ' ' {
            let rest = t.as_str().substring_char(2, tn);
            proof {
                assert(rest@ =~= trimmed(line@).skip(2));
            }
            return Some(trim_str(rest));
        }
        match nl {
            Some(i) => {
                proof {
                    assert(tail.skip(i - pos + 1) =~= content@.skip(i as int + 1));
                }
                pos = i + 1;
            },
            None => {
                return None;
            },
        }
    }
}

/// The file name of `p` (everything after the last `/`) without its last
/// dot-extension; a dot at the very start of the name does not begin an
/// extension.
pub open spec fn stem_of(name: Seq<char>) -> Seq<char> {
    match last_occurrence_of(name, '.') {
        Some(j) => if j > 0 {
            name.take(j)
        } else {
            name
        },
        None => name,
    }
}

/// Title the subsystem derives from a relative path: the file name without
/// its extension.
pub open spec fn title_of_path(p: Seq<char>) -> Seq<char> {
    match last_occurrence_of(p, '/') {
        Some(i) => stem_of(p.skip(i + 1)),
        None => stem_of(p),
    }
}

/// Derives a document title from a relative path (file name without its
/// extension).
pub fn extract_title_from_path(path_str: &str) -> (r: String)
    ensures
        r@ == title_of_path(path_str@),
{
    let n = path_str.unicode_len();
    let name: &str = match find_last(path_str, '/') {
        Some(i) => path_str.substring_char(i + 1, n),
        None => path_str,
    };
    let m = name.unicode_len();
    match find_last(name, '.') {
        Some(j) => {
            if j > 0 {
                String::from_str(name.substring_char(0, j))
            } else {
                String::from_str(name)
            }
        },
        None => String::from_str(name),
    }
}

} // verus!

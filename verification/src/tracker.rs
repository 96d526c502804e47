//! The change tracker: correlates in-flight internal operations with
//! filesystem-watcher notifications, so that echoes of the application's own
//! writes are ignored and external rename/move event pairs are fused.

use vstd::prelude::*;

verus! {

use crate::fingerprint::{MetaView, WatchedFileMetadata};

/// Milliseconds a disappearance may wait for a matching appearance before it
/// is treated as a genuine external delete.
pub const DETECTION_WINDOW_MS: u64 = 2000;

/// Milliseconds of tolerance absorbing coarse filesystem timestamp resolution
/// when deciding whether a modification is an echo of an internal write.
pub const ECHO_TOLERANCE_MS: u64 = 5000;

/// How long ago (in milliseconds) the instant `at` lies before `now`; a
/// timestamp from the future counts as age zero.
pub open spec fn age_ms(now: u64, at: u64) -> int {
    if now >= at {
        now - at
    } else {
        0
    }
}

/// Spec-level image of a [`WriteStamp`].
pub struct StampView {
    pub path: Seq<char>,
    pub at: u64,
}

/// Instant of the last internal write to one path.
pub struct WriteStamp {
    pub path: String,
    pub at: u64,
}

impl View for WriteStamp {
    type V = StampView;

    open spec fn view(&self) -> StampView {
        StampView { path: self.path@, at: self.at }
    }
}

/// Spec-level image of a [`SourceEntry`].
pub struct SourceEntryView {
    pub path: Seq<char>,
    pub marked_at: u64,
    pub meta: MetaView,
}

/// A path that disappeared, waiting for a matching appearance: the candidate
/// source of a rename or move.
pub struct SourceEntry {
    pub path: String,
    pub marked_at: u64,
    pub meta: WatchedFileMetadata,
}

impl View for SourceEntry {
    type V = SourceEntryView;

    open spec fn view(&self) -> SourceEntryView {
        SourceEntryView { path: self.path@, marked_at: self.marked_at, meta: self.meta@ }
    }
}

impl Clone for SourceEntry {
    fn clone(&self) -> (r: Self)
        ensures
            r@ == self@,
    {
        SourceEntry { path: self.path.clone(), marked_at: self.marked_at, meta: self.meta.clone() }
    }
}

/// Spec-level image of a [`SaveTracker`].
pub struct TrackerView {
    pub locks: Seq<Seq<char>>,
    pub write_times: Seq<StampView>,
    pub rename_sources: Seq<SourceEntryView>,
    pub move_sources: Seq<SourceEntryView>,
    pub detection_window_ms: u64,
}

/// First position of `p` among the lock entries, if any.
pub open spec fn lock_index(s: Seq<Seq<char>>, p: Seq<char>) -> Option<int>
    decreases s.len(),
{
    if s.len() == 0 {
        None
    } else if s[0] == p {
        Some(0)
    } else {
        match lock_index(s.drop_first(), p) {
            Some(i) => Some(i + 1),
            None => None,
        }
    }
}

/// First position of a stamp for `p`, if any.
pub open spec fn stamp_index(s: Seq<StampView>, p: Seq<char>) -> Option<int>
    decreases s.len(),
{
    if s.len() == 0 {
        None
    } else if s[0].path == p {
        Some(0)
    } else {
        match stamp_index(s.drop_first(), p) {
            Some(i) => Some(i + 1),
            None => None,
        }
    }
}

/// First position of a source entry keyed by `p`, if any.
pub open spec fn source_index(s: Seq<SourceEntryView>, p: Seq<char>) -> Option<int>
    decreases s.len(),
{
    if s.len() == 0 {
        None
    } else if s[0].path == p {
        Some(0)
    } else {
        match source_index(s.drop_first(), p) {
            Some(i) => Some(i + 1),
            None => None,
        }
    }
}

/// Whether `e` is an unexpired candidate whose fingerprint matches a new file
/// of the given size and word count.
pub open spec fn rename_source_matches(
    e: SourceEntryView,
    size: u64,
    word_count: u64,
    now: u64,
    window: u64,
) -> bool {
    age_ms(now, e.marked_at) < window && e.meta.size == size && e.meta.word_count == word_count
}

/// Whether `e` is an unexpired candidate whose title matches a new file.
pub open spec fn move_source_matches(
    e: SourceEntryView,
    title: Seq<char>,
    now: u64,
    window: u64,
) -> bool {
    age_ms(now, e.marked_at) < window && e.meta.title == title
}

/// First position of an unexpired entry matching (`size`, `word_count`).
pub open spec fn rename_match_index(
    s: Seq<SourceEntryView>,
    size: u64,
    word_count: u64,
    now: u64,
    window: u64,
) -> Option<int>
    decreases s.len(),
{
    if s.len() == 0 {
        None
    } else if rename_source_matches(s[0], size, word_count, now, window) {
        Some(0)
    } else {
        match rename_match_index(s.drop_first(), size, word_count, now, window) {
            Some(i) => Some(i + 1),
            None => None,
        }
    }
}

/// First position of an unexpired entry matching `title`.
pub open spec fn move_match_index(
    s: Seq<SourceEntryView>,
    title: Seq<char>,
    now: u64,
    window: u64,
) -> Option<int>
    decreases s.len(),
{
    if s.len() == 0 {
        None
    } else if move_source_matches(s[0], title, now, window) {
        Some(0)
    } else {
        match move_match_index(s.drop_first(), title, now, window) {
            Some(i) => Some(i + 1),
            None => None,
        }
    }
}

/// The source entries that are not yet older than the detection window.
pub open spec fn fresh_sources(s: Seq<SourceEntryView>, now: u64, window: u64) -> Seq<
    SourceEntryView,
>
    decreases s.len(),
{
    if s.len() == 0 {
        s
    } else if age_ms(now, s[0].marked_at) > window {
        fresh_sources(s.drop_first(), now, window)
    } else {
        seq![s[0]] + fresh_sources(s.drop_first(), now, window)
    }
}

/// The fingerprints of the source entries older than the detection window, in
/// order.
pub open spec fn expired_metas(s: Seq<SourceEntryView>, now: u64, window: u64) -> Seq<MetaView>
    decreases s.len(),
{
    if s.len() == 0 {
        Seq::empty()
    } else if age_ms(now, s[0].marked_at) > window {
        seq![s[0].meta] + expired_metas(s.drop_first(), now, window)
    } else {
        expired_metas(s.drop_first(), now, window)
    }
}

impl TrackerView {
    /// Whether an internal operation on `p` is in flight.
    pub open spec fn locked(self, p: Seq<char>) -> bool {
        self.locks.contains(p)
    }

    /// Last internally caused write instant recorded for `p`.
    pub open spec fn write_time_of(self, p: Seq<char>) -> Option<u64> {
        match stamp_index(self.write_times, p) {
            Some(i) => Some(self.write_times[i].at),
            None => None,
        }
    }

    /// Whether a modification observed with timestamp `disk_mtime_ms` is an
    /// echo of a recorded internal write to `p`.
    pub open spec fn is_echo(self, p: Seq<char>, disk_mtime_ms: u64) -> bool {
        match self.write_time_of(p) {
            Some(at) => disk_mtime_ms <= at + ECHO_TOLERANCE_MS,
            None => false,
        }
    }

    /// Every key occurs at most once in each component.
    pub open spec fn wf(self) -> bool {
        &&& (forall|i: int, j: int|
            0 <= i < j < self.locks.len() ==> self.locks[i] != self.locks[j])
        &&& (forall|i: int, j: int|
            0 <= i < j < self.write_times.len() ==> self.write_times[i].path
                != self.write_times[j].path)
        &&& (forall|i: int, j: int|
            0 <= i < j < self.rename_sources.len() ==> self.rename_sources[i].path
                != self.rename_sources[j].path)
        &&& (forall|i: int, j: int|
            0 <= i < j < self.move_sources.len() ==> self.move_sources[i].path
                != self.move_sources[j].path)
    }

    /// The tracker state right after start-up.
    pub open spec fn initial() -> TrackerView {
        TrackerView {
            locks: Seq::empty(),
            write_times: Seq::empty(),
            rename_sources: Seq::empty(),
            move_sources: Seq::empty(),
            detection_window_ms: DETECTION_WINDOW_MS,
        }
    }
}

/// Effect of acquiring the activity lock of `p`: a no-op when already held.
pub open spec fn spec_lock(tv: TrackerView, p: Seq<char>) -> TrackerView {
    if tv.locks.contains(p) {
        tv
    } else {
        TrackerView { locks: tv.locks.push(p), ..tv }
    }
}

/// Effect of releasing the activity lock of `p`: a no-op when not held.
pub open spec fn spec_unlock(tv: TrackerView, p: Seq<char>) -> TrackerView {
    match lock_index(tv.locks, p) {
        Some(i) => TrackerView { locks: tv.locks.remove(i), ..tv },
        None => tv,
    }
}

/// Effect of recording an internal write to `p` at instant `at`.
pub open spec fn spec_record_write(tv: TrackerView, p: Seq<char>, at: u64) -> TrackerView {
    let stamp = StampView { path: p, at };
    match stamp_index(tv.write_times, p) {
        Some(i) => TrackerView { write_times: tv.write_times.remove(i).push(stamp), ..tv },
        None => TrackerView { write_times: tv.write_times.push(stamp), ..tv },
    }
}

/// Effect of forgetting the recorded write instant of `p`.
pub open spec fn spec_clear_write_time(tv: TrackerView, p: Seq<char>) -> TrackerView {
    match stamp_index(tv.write_times, p) {
        Some(i) => TrackerView { write_times: tv.write_times.remove(i), ..tv },
        None => tv,
    }
}

/// Effect of marking `p` as a candidate rename source.
pub open spec fn spec_mark_rename_source(
    tv: TrackerView,
    p: Seq<char>,
    meta: MetaView,
    now: u64,
) -> TrackerView {
    let e = SourceEntryView { path: p, marked_at: now, meta };
    match source_index(tv.rename_sources, p) {
        Some(i) => TrackerView { rename_sources: tv.rename_sources.remove(i).push(e), ..tv },
        None => TrackerView { rename_sources: tv.rename_sources.push(e), ..tv },
    }
}

/// Effect of marking `p` as a candidate move source.
pub open spec fn spec_mark_move_source(
    tv: TrackerView,
    p: Seq<char>,
    meta: MetaView,
    now: u64,
) -> TrackerView {
    let e = SourceEntryView { path: p, marked_at: now, meta };
    match source_index(tv.move_sources, p) {
        Some(i) => TrackerView { move_sources: tv.move_sources.remove(i).push(e), ..tv },
        None => TrackerView { move_sources: tv.move_sources.push(e), ..tv },
    }
}

/// Change tracker for one workspace. All state is process-lifetime: it is
/// rebuilt empty on restart.
pub struct SaveTracker {
    locks: Vec<String>,
    write_times: Vec<WriteStamp>,
    rename_sources: Vec<SourceEntry>,
    move_sources: Vec<SourceEntry>,
    detection_window_ms: u64,
}

impl View for SaveTracker {
    type V = TrackerView;

    closed spec fn view(&self) -> TrackerView {
        TrackerView {
            locks: self.locks@.map_values(|p: String| p@),
            write_times: self.write_times@.map_values(|w: WriteStamp| w@),
            rename_sources: self.rename_sources@.map_values(|e: SourceEntry| e@),
            move_sources: self.move_sources@.map_values(|e: SourceEntry| e@),
            detection_window_ms: self.detection_window_ms,
        }
    }
}

pub proof fn lemma_lock_index(s: Seq<Seq<char>>, p: Seq<char>)
    ensures
        match lock_index(s, p) {
            Some(i) => 0 <= i < s.len() && s[i] == p && forall|j: int| 0 <= j < i ==> s[j] != p,
            None => forall|j: int| 0 <= j < s.len() ==> s[j] != p,
        },
    decreases s.len(),
{
    if s.len() > 0 {
        lemma_lock_index(s.drop_first(), p);
        if s[0] != p {
            match lock_index(s.drop_first(), p) {
                Some(i) => {
                    assert(s.drop_first()[i] == s[i + 1]);
                    assert forall|j: int| 0 <= j < i + 1 implies s[j] != p by {
                        if j > 0 {
                            assert(s.drop_first()[j - 1] == s[j]);
                        }
                    }
                },
                None => {
                    assert forall|j: int| 0 <= j < s.len() implies s[j] != p by {
                        if j > 0 {
                            assert(s.drop_first()[j - 1] == s[j]);
                        }
                    }
                },
            }
        }
    }
}

pub proof fn lemma_stamp_index(s: Seq<StampView>, p: Seq<char>)
    ensures
        match stamp_index(s, p) {
            Some(i) => 0 <= i < s.len() && s[i].path == p && forall|j: int|
                0 <= j < i ==> s[j].path != p,
            None => forall|j: int| 0 <= j < s.len() ==> s[j].path != p,
        },
    decreases s.len(),
{
    if s.len() > 0 {
        lemma_stamp_index(s.drop_first(), p);
        if s[0].path != p {
            match stamp_index(s.drop_first(), p) {
                Some(i) => {
                    assert(s.drop_first()[i] == s[i + 1]);
                    assert forall|j: int| 0 <= j < i + 1 implies s[j].path != p by {
                        if j > 0 {
                            assert(s.drop_first()[j - 1] == s[j]);
                        }
                    }
                },
                None => {
                    assert forall|j: int| 0 <= j < s.len() implies s[j].path != p by {
                        if j > 0 {
                            assert(s.drop_first()[j - 1] == s[j]);
                        }
                    }
                },
            }
        }
    }
}

proof fn lemma_source_index(s: Seq<SourceEntryView>, p: Seq<char>)
    ensures
        match source_index(s, p) {
            Some(i) => 0 <= i < s.len() && s[i].path == p && forall|j: int|
                0 <= j < i ==> s[j].path != p,
            None => forall|j: int| 0 <= j < s.len() ==> s[j].path != p,
        },
    decreases s.len(),
{
    if s.len() > 0 {
        lemma_source_index(s.drop_first(), p);
        if s[0].path != p {
            match source_index(s.drop_first(), p) {
                Some(i) => {
                    assert(s.drop_first()[i] == s[i + 1]);
                    assert forall|j: int| 0 <= j < i + 1 implies s[j].path != p by {
                        if j > 0 {
                            assert(s.drop_first()[j - 1] == s[j]);
                        }
                    }
                },
                None => {
                    assert forall|j: int| 0 <= j < s.len() implies s[j].path != p by {
                        if j > 0 {
                            assert(s.drop_first()[j - 1] == s[j]);
                        }
                    }
                },
            }
        }
    }
}

proof fn lemma_rename_match_index(
    s: Seq<SourceEntryView>,
    size: u64,
    word_count: u64,
    now: u64,
    window: u64,
)
    ensures
        match rename_match_index(s, size, word_count, now, window) {
            Some(i) => 0 <= i < s.len() && rename_source_matches(s[i], size, word_count, now, window)
                && forall|j: int|
                0 <= j < i ==> !rename_source_matches(s[j], size, word_count, now, window),
            None => forall|j: int|
                0 <= j < s.len() ==> !rename_source_matches(s[j], size, word_count, now, window),
        },
    decreases s.len(),
{
    if s.len() > 0 {
        lemma_rename_match_index(s.drop_first(), size, word_count, now, window);
        if !rename_source_matches(s[0], size, word_count, now, window) {
            match rename_match_index(s.drop_first(), size, word_count, now, window) {
                Some(i) => {
                    assert(s.drop_first()[i] == s[i + 1]);
                    assert forall|j: int|
                        0 <= j < i + 1 implies !rename_source_matches(
                        s[j],
                        size,
                        word_count,
                        now,
                        window,
                    ) by {
                        if j > 0 {
                            assert(s.drop_first()[j - 1] == s[j]);
                        }
                    }
                },
                None => {
                    assert forall|j: int|
                        0 <= j < s.len() implies !rename_source_matches(
                        s[j],
                        size,
                        word_count,
                        now,
                        window,
                    ) by {
                        if j > 0 {
                            assert(s.drop_first()[j - 1] == s[j]);
                        }
                    }
                },
            }
        }
    }
}

proof fn lemma_move_match_index(s: Seq<SourceEntryView>, title: Seq<char>, now: u64, window: u64)
    ensures
        match move_match_index(s, title, now, window) {
            Some(i) => 0 <= i < s.len() && move_source_matches(s[i], title, now, window) && forall|
                j: int,
            | 0 <= j < i ==> !move_source_matches(s[j], title, now, window),
            None => forall|j: int|
                0 <= j < s.len() ==> !move_source_matches(s[j], title, now, window),
        },
    decreases s.len(),
{
    if s.len() > 0 {
        lemma_move_match_index(s.drop_first(), title, now, window);
        if !move_source_matches(s[0], title, now, window) {
            match move_match_index(s.drop_first(), title, now, window) {
                Some(i) => {
                    assert(s.drop_first()[i] == s[i + 1]);
                    assert forall|j: int| 0 <= j < i + 1 implies !move_source_matches(
                        s[j],
                        title,
                        now,
                        window,
                    ) by {
                        if j > 0 {
                            assert(s.drop_first()[j - 1] == s[j]);
                        }
                    }
                },
                None => {
                    assert forall|j: int| 0 <= j < s.len() implies !move_source_matches(
                        s[j],
                        title,
                        now,
                        window,
                    ) by {
                        if j > 0 {
                            assert(s.drop_first()[j - 1] == s[j]);
                        }
                    }
                },
            }
        }
    }
}

impl SaveTracker {
    /// A tracker with no in-flight operations and no pending sources.
    pub fn new() -> (t: Self)
        ensures
            t@ == TrackerView::initial(),
            t@.wf(),
    {
        let t = SaveTracker {
            locks: Vec::new(),
            write_times: Vec::new(),
            rename_sources: Vec::new(),
            move_sources: Vec::new(),
            detection_window_ms: DETECTION_WINDOW_MS,
        };
        proof {
            assert(t@.locks =~= Seq::<Seq<char>>::empty());
            assert(t@.write_times =~= Seq::<StampView>::empty());
            assert(t@.rename_sources =~= Seq::<SourceEntryView>::empty());
            assert(t@.move_sources =~= Seq::<SourceEntryView>::empty());
        }
        t
    }

    fn lock_position(&self, path: &String) -> (r: Option<usize>)
        ensures
            match r {
                Some(i) => lock_index(self@.locks, path@) == Some(i as int),
                None => lock_index(self@.locks, path@) is None,
            },
    {
        proof {
            lemma_lock_index(self@.locks, path@);
        }
        let n = self.locks.len();
        let mut i: usize = 0;
        while i < n
            invariant
                n == self.locks.len(),
                i <= n,
                forall|j: int| 0 <= j < i ==> self@.locks[j] != path@,
            decreases n - i,
        {
            if self.locks[i] == *path {
                proof {
                    lemma_lock_index(self@.locks, path@);
                    if lock_index(self@.locks, path@) is None {
                        assert(self@.locks[i as int] == path@);
                    }
                    if let Some(k) = lock_index(self@.locks, path@) {
                        if k < i {
                            assert(self@.locks[k] == path@);
                        }
                        if k > i {
                            assert(self@.locks[i as int] == path@);
                        }
                    }
                }
                return Some(i);
            }
            i = i + 1;
        }
        proof {
            lemma_lock_index(self@.locks, path@);
        }
        None
    }

    /// Whether an internal operation on `path` is in flight.
    pub fn is_locked(&self, path: &String) -> (r: bool)
        ensures
            r == self@.locked(path@),
    {
        proof {
            lemma_lock_index(self@.locks, path@);
            if self@.locks.contains(path@) {
                let w = choose|j: int| 0 <= j < self@.locks.len() && self@.locks[j] == path@;
                assert(self@.locks[w] == path@);
            }
        }
        self.lock_position(path).is_some()
    }

    /// Acquires the activity lock of `path`; idempotent.
    pub fn lock(&mut self, path: &String)
        requires
            old(self)@.wf(),
        ensures
            final(self)@ == spec_lock(old(self)@, path@),
            final(self)@.wf(),
            final(self)@.locked(path@),
    {
        if !self.is_locked(path) {
            let ghost pre = self@;
            self.locks.push(path.clone());
            proof {
                assert(self@.locks =~= pre.locks.push(path@));
                assert(self@ == spec_lock(pre, path@));
                assert(self@.locks.last() == path@);
            }
        }
    }

    /// Releases the activity lock of `path`; idempotent.
    pub fn unlock(&mut self, path: &String)
        requires
            old(self)@.wf(),
        ensures
            final(self)@ == spec_unlock(old(self)@, path@),
            final(self)@.wf(),
            !final(self)@.locked(path@),
    {
        let ghost pre = self@;
        match self.lock_position(path) {
            Some(i) => {
                proof {
                    lemma_lock_index(pre.locks, path@);
                }
                self.locks.remove(i);
                proof {
                    assert(self@.locks =~= pre.locks.remove(i as int));
                    assert(self@ == spec_unlock(pre, path@));
                    lemma_lock_index(pre.locks, path@);
                    if self@.locks.contains(path@) {
                        let w = choose|j: int|
                            0 <= j < self@.locks.len() && self@.locks[j] == path@;
                        if w < i {
                            assert(pre.locks[w] == path@);
                        } else {
                            assert(pre.locks[w + 1] == path@);
                        }
                    }
                }
            },
            None => {
                proof {
                    lemma_lock_index(pre.locks, path@);
                    if self@.locks.contains(path@) {
                        let w = choose|j: int|
                            0 <= j < self@.locks.len() && self@.locks[j] == path@;
                        assert(pre.locks[w] == path@);
                    }
                }
            },
        }
    }

    fn stamp_position(&self, path: &String) -> (r: Option<usize>)
        ensures
            match r {
                Some(i) => stamp_index(self@.write_times, path@) == Some(i as int),
                None => stamp_index(self@.write_times, path@) is None,
            },
    {
        let n = self.write_times.len();
        let mut i: usize = 0;
        while i < n
            invariant
                n == self.write_times.len(),
                i <= n,
                forall|j: int| 0 <= j < i ==> self@.write_times[j].path != path@,
            decreases n - i,
        {
            if self.write_times[i].path == *path {
                proof {
                    lemma_stamp_index(self@.write_times, path@);
                    if stamp_index(self@.write_times, path@) is None {
                        assert(self@.write_times[i as int].path == path@);
                    }
                    if let Some(k) = stamp_index(self@.write_times, path@) {
                        if k < i {
                            assert(self@.write_times[k].path == path@);
                        }
                        if k > i {
                            assert(self@.write_times[i as int].path == path@);
                        }
                    }
                }
                return Some(i);
            }
            i = i + 1;
        }
        proof {
            lemma_stamp_index(self@.write_times, path@);
        }
        None
    }

    /// Records that the application itself wrote `path` at instant `at_ms`,
    /// so that the echoing watcher notification can be recognized.
    pub fn record_write(&mut self, path: &String, at_ms: u64)
        requires
            old(self)@.wf(),
        ensures
            final(self)@ == spec_record_write(old(self)@, path@, at_ms),
            final(self)@.wf(),
    {
        let ghost pre = self@;
        let stamp = WriteStamp { path: path.clone(), at: at_ms };
        match self.stamp_position(path) {
            Some(i) => {
                proof {
                    lemma_stamp_index(pre.write_times, path@);
                }
                self.write_times.remove(i);
                self.write_times.push(stamp);
                proof {
                    assert(self@.write_times =~= pre.write_times.remove(i as int).push(
                        StampView { path: path@, at: at_ms },
                    ));
                    assert(self@ == spec_record_write(pre, path@, at_ms));
                    lemma_stamp_index(pre.write_times, path@);
                    assert forall|a: int, b: int|
                        0 <= a < b < self@.write_times.len() implies self@.write_times[a].path
                        != self@.write_times[b].path by {
                        if b + 1 < self@.write_times.len() {
                        }
                    }
                }
            },
            None => {
                self.write_times.push(stamp);
                proof {
                    assert(self@.write_times =~= pre.write_times.push(
                        StampView { path: path@, at: at_ms },
                    ));
                    assert(self@ == spec_record_write(pre, path@, at_ms));
                    lemma_stamp_index(pre.write_times, path@);
                }
            },
        }
    }

    /// Forgets the recorded write instant of `path` (the path was deleted
    /// internally).
    pub fn clear_write_time(&mut self, path: &String)
        requires
            old(self)@.wf(),
        ensures
            final(self)@ == spec_clear_write_time(old(self)@, path@),
            final(self)@.wf(),
    {
        let ghost pre = self@;
        match self.stamp_position(path) {
            Some(i) => {
                proof {
                    lemma_stamp_index(pre.write_times, path@);
                }
                self.write_times.remove(i);
                proof {
                    assert(self@.write_times =~= pre.write_times.remove(i as int));
                    assert(self@ == spec_clear_write_time(pre, path@));
                }
            },
            None => {},
        }
    }

    /// Whether a modification of `path` seen on disk with timestamp
    /// `disk_mtime_ms` is an echo of a recorded internal write: the disk
    /// timestamp does not exceed the recorded instant plus the tolerance.
    pub fn is_echo(&self, path: &String, disk_mtime_ms: u64) -> (r: bool)
        ensures
            r == self@.is_echo(path@, disk_mtime_ms),
    {
        match self.stamp_position(path) {
            Some(i) => {
                proof {
                    lemma_stamp_index(self@.write_times, path@);
                }
                let at = self.write_times[i].at;
                if disk_mtime_ms <= at {
                    true
                } else {
                    disk_mtime_ms - at <= ECHO_TOLERANCE_MS
                }
            },
            None => false,
        }
    }

    fn source_position(entries: &Vec<SourceEntry>, path: &String) -> (r: Option<usize>)
        ensures
            match r {
                Some(i) => source_index(
                    entries@.map_values(|e: SourceEntry| e@),
                    path@,
                ) == Some(i as int),
                None => source_index(entries@.map_values(|e: SourceEntry| e@), path@) is None,
            },
    {
        let ghost s = entries@.map_values(|e: SourceEntry| e@);
        let n = entries.len();
        let mut i: usize = 0;
        while i < n
            invariant
                s == entries@.map_values(|e: SourceEntry| e@),
                n == entries.len(),
                i <= n,
                forall|j: int| 0 <= j < i ==> s[j].path != path@,
            decreases n - i,
        {
            if entries[i].path == *path {
                proof {
                    lemma_source_index(s, path@);
                    if source_index(s, path@) is None {
                        assert(s[i as int].path == path@);
                    }
                    if let Some(k) = source_index(s, path@) {
                        if k < i {
                            assert(s[k].path == path@);
                        }
                        if k > i {
                            assert(s[i as int].path == path@);
                        }
                    }
                }
                return Some(i);
            }
            i = i + 1;
        }
        proof {
            lemma_source_index(s, path@);
        }
        None
    }

    fn mark_source(entries: &mut Vec<SourceEntry>, path: &String, meta: WatchedFileMetadata, now_ms: u64)
        ensures
            final(entries)@.map_values(|e: SourceEntry| e@) == spec_mark_seq(
                old(entries)@.map_values(|e: SourceEntry| e@),
                path@,
                meta@,
                now_ms,
            ),
            source_distinct(final(entries)@.map_values(|e: SourceEntry| e@)) <== source_distinct(
                old(entries)@.map_values(|e: SourceEntry| e@),
            ),
    {
        let ghost pre = entries@.map_values(|e: SourceEntry| e@);
        let ghost ev = SourceEntryView { path: path@, marked_at: now_ms, meta: meta@ };
        let entry = SourceEntry { path: path.clone(), marked_at: now_ms, meta };
        match Self::source_position(entries, path) {
            Some(i) => {
                proof {
                    lemma_source_index(pre, path@);
                }
                entries.remove(i);
                entries.push(entry);
                proof {
                    assert(entries@.map_values(|e: SourceEntry| e@) =~= pre.remove(i as int).push(
                        ev,
                    ));
                    lemma_source_index(pre, path@);
                    if source_distinct(pre) {
                        assert forall|a: int, b: int|
                            0 <= a < b < pre.remove(i as int).push(ev).len()
                            implies pre.remove(i as int).push(ev)[a].path != pre.remove(
                            i as int,
                        ).push(ev)[b].path by {}
                    }
                }
            },
            None => {
                entries.push(entry);
                proof {
                    assert(entries@.map_values(|e: SourceEntry| e@) =~= pre.push(ev));
                    lemma_source_index(pre, path@);
                }
            },
        }
    }

    /// Marks `path` (seen to vanish while a modification was reported) as a
    /// candidate source of an external rename.
    pub fn mark_potential_rename_source(&mut self, path: &String, meta: WatchedFileMetadata, now_ms: u64)
        requires
            old(self)@.wf(),
        ensures
            final(self)@ == spec_mark_rename_source(old(self)@, path@, meta@, now_ms),
            final(self)@.wf(),
    {
        let ghost pre = self@;
        Self::mark_source(&mut self.rename_sources, path, meta, now_ms);
        proof {
            assert(self@ == spec_mark_rename_source(pre, path@, meta@, now_ms));
        }
    }

    /// Marks `path` (reported removed) as a candidate source of an external
    /// move.
    pub fn mark_potential_move_source(&mut self, path: &String, meta: WatchedFileMetadata, now_ms: u64)
        requires
            old(self)@.wf(),
        ensures
            final(self)@ == spec_mark_move_source(old(self)@, path@, meta@, now_ms),
            final(self)@.wf(),
    {
        let ghost pre = self@;
        Self::mark_source(&mut self.move_sources, path, meta, now_ms);
        proof {
            assert(self@ == spec_mark_move_source(pre, path@, meta@, now_ms));
        }
    }
}

/// Milliseconds elapsed between `at` and `now`; an `at` in the future counts
/// as zero.
fn elapsed(now: u64, at: u64) -> (r: u64)
    ensures
        r == age_ms(now, at),
{
    if now >= at {
        now - at
    } else {
        0
    }
}

proof fn lemma_fresh_sources_membership(s: Seq<SourceEntryView>, now: u64, window: u64)
    ensures
        forall|k: int|
            0 <= k < fresh_sources(s, now, window).len() ==> s.contains(
                #[trigger] fresh_sources(s, now, window)[k],
            ),
    decreases s.len(),
{
    if s.len() > 0 {
        lemma_fresh_sources_membership(s.drop_first(), now, window);
        let f = fresh_sources(s, now, window);
        let fd = fresh_sources(s.drop_first(), now, window);
        assert forall|k: int| 0 <= k < f.len() implies s.contains(f[k]) by {
            if age_ms(now, s[0].marked_at) > window {
                assert(fd.contains(fd[k]));
                let w = choose|i: int| 0 <= i < s.drop_first().len() && s.drop_first()[i] == fd[k];
                assert(s[w + 1] == fd[k]);
            } else {
                if k == 0 {
                    assert(s[0] == f[0]);
                } else {
                    assert(f[k] == fd[k - 1]);
                    assert(fd.contains(fd[k - 1]));
                    let w = choose|i: int|
                        0 <= i < s.drop_first().len() && s.drop_first()[i] == fd[k - 1];
                    assert(s[w + 1] == fd[k - 1]);
                }
            }
        }
    }
}

proof fn lemma_fresh_sources_distinct(s: Seq<SourceEntryView>, now: u64, window: u64)
    requires
        source_distinct(s),
    ensures
        source_distinct(fresh_sources(s, now, window)),
    decreases s.len(),
{
    if s.len() > 0 {
        assert forall|i: int, j: int|
            0 <= i < j < s.drop_first().len() implies s.drop_first()[i].path
            != s.drop_first()[j].path by {
            assert(s.drop_first()[i] == s[i + 1]);
            assert(s.drop_first()[j] == s[j + 1]);
        }
        lemma_fresh_sources_distinct(s.drop_first(), now, window);
        lemma_fresh_sources_membership(s.drop_first(), now, window);
        let f = fresh_sources(s, now, window);
        let fd = fresh_sources(s.drop_first(), now, window);
        if age_ms(now, s[0].marked_at) <= window {
            assert forall|i: int, j: int| 0 <= i < j < f.len() implies f[i].path != f[j].path by {
                if i == 0 {
                    assert(f[j] == fd[j - 1]);
                    assert(s.drop_first().contains(fd[j - 1]));
                    let w = choose|k: int|
                        0 <= k < s.drop_first().len() && s.drop_first()[k] == fd[j - 1];
                    assert(s[w + 1] == fd[j - 1]);
                } else {
                    assert(f[i] == fd[i - 1]);
                    assert(f[j] == fd[j - 1]);
                }
            }
        }
    }
}

impl SaveTracker {
    fn rename_match_position(&self, size: u64, word_count: u64, now_ms: u64) -> (r: Option<usize>)
        ensures
            match r {
                Some(i) => rename_match_index(
                    self@.rename_sources,
                    size,
                    word_count,
                    now_ms,
                    self@.detection_window_ms,
                ) == Some(i as int),
                None => rename_match_index(
                    self@.rename_sources,
                    size,
                    word_count,
                    now_ms,
                    self@.detection_window_ms,
                ) is None,
            },
    {
        let ghost s = self@.rename_sources;
        let ghost w = self@.detection_window_ms;
        let n = self.rename_sources.len();
        let mut i: usize = 0;
        while i < n
            invariant
                s == self@.rename_sources,
                w == self@.detection_window_ms,
                n == self.rename_sources.len(),
                i <= n,
                forall|j: int|
                    0 <= j < i ==> !rename_source_matches(s[j], size, word_count, now_ms, w),
            decreases n - i,
        {
            let e = &self.rename_sources[i];
            if elapsed(now_ms, e.marked_at) < self.detection_window_ms && e.meta.size == size
                && e.meta.word_count == word_count {
                proof {
                    lemma_rename_match_index(s, size, word_count, now_ms, w);
                    if rename_match_index(s, size, word_count, now_ms, w) is None {
                        assert(rename_source_matches(s[i as int], size, word_count, now_ms, w));
                    }
                    if let Some(k) = rename_match_index(s, size, word_count, now_ms, w) {
                        if k < i {
                            assert(rename_source_matches(s[k], size, word_count, now_ms, w));
                        }
                        if k > i {
                            assert(rename_source_matches(s[i as int], size, word_count, now_ms, w));
                        }
                    }
                }
                return Some(i);
            }
            i = i + 1;
        }
        proof {
            lemma_rename_match_index(s, size, word_count, now_ms, w);
        }
        None
    }

    /// Takes out and returns the first unexpired candidate rename source
    /// whose fingerprint has exactly the given size and word count, if any.
    pub fn find_recent_rename_source(&mut self, size: u64, word_count: u64, now_ms: u64) -> (r:
        Option<(String, WatchedFileMetadata)>)
        requires
            old(self)@.wf(),
        ensures
            final(self)@ == spec_find_rename_source(old(self)@, size, word_count, now_ms).0,
            final(self)@.wf(),
            match (r, spec_find_rename_source(old(self)@, size, word_count, now_ms).1) {
                (Some((p, m)), Some((pv, mv))) => p@ == pv && m@ == mv,
                (None, None) => true,
                _ => false,
            },
    {
        let ghost pre = self@;
        let ghost w = self@.detection_window_ms;
        match self.rename_match_position(size, word_count, now_ms) {
            Some(i) => {
                proof {
                    lemma_rename_match_index(pre.rename_sources, size, word_count, now_ms, w);
                }
                let e = self.rename_sources.remove(i);
                proof {
                    assert(self@.rename_sources =~= pre.rename_sources.remove(i as int));
                    assert(self@ == spec_find_rename_source(pre, size, word_count, now_ms).0);
                }
                Some((e.path, e.meta))
            },
            None => None,
        }
    }

    fn move_match_position(&self, title: &String, now_ms: u64) -> (r: Option<usize>)
        ensures
            match r {
                Some(i) => move_match_index(
                    self@.move_sources,
                    title@,
                    now_ms,
                    self@.detection_window_ms,
                ) == Some(i as int),
                None => move_match_index(
                    self@.move_sources,
                    title@,
                    now_ms,
                    self@.detection_window_ms,
                ) is None,
            },
    {
        let ghost s = self@.move_sources;
        let ghost w = self@.detection_window_ms;
        let n = self.move_sources.len();
        let mut i: usize = 0;
        while i < n
            invariant
                s == self@.move_sources,
                w == self@.detection_window_ms,
                n == self.move_sources.len(),
                i <= n,
                forall|j: int| 0 <= j < i ==> !move_source_matches(s[j], title@, now_ms, w),
            decreases n - i,
        {
            let e = &self.move_sources[i];
            if elapsed(now_ms, e.marked_at) < self.detection_window_ms && e.meta.title == *title {
                proof {
                    lemma_move_match_index(s, title@, now_ms, w);
                    if move_match_index(s, title@, now_ms, w) is None {
                        assert(move_source_matches(s[i as int], title@, now_ms, w));
                    }
                    if let Some(k) = move_match_index(s, title@, now_ms, w) {
                        if k < i {
                            assert(move_source_matches(s[k], title@, now_ms, w));
                        }
                        if k > i {
                            assert(move_source_matches(s[i as int], title@, now_ms, w));
                        }
                    }
                }
                return Some(i);
            }
            i = i + 1;
        }
        proof {
            lemma_move_match_index(s, title@, now_ms, w);
        }
        None
    }

    /// Takes out and returns the first unexpired candidate move source whose
    /// fingerprint carries exactly the given title, if any.
    pub fn find_recent_move_source(&mut self, title: &String, now_ms: u64) -> (r: Option<
        (String, WatchedFileMetadata),
    >)
        requires
            old(self)@.wf(),
        ensures
            final(self)@ == spec_find_move_source(old(self)@, title@, now_ms).0,
            final(self)@.wf(),
            match (r, spec_find_move_source(old(self)@, title@, now_ms).1) {
                (Some((p, m)), Some((pv, mv))) => p@ == pv && m@ == mv,
                (None, None) => true,
                _ => false,
            },
    {
        let ghost pre = self@;
        let ghost w = self@.detection_window_ms;
        match self.move_match_position(title, now_ms) {
            Some(i) => {
                proof {
                    lemma_move_match_index(pre.move_sources, title@, now_ms, w);
                }
                let e = self.move_sources.remove(i);
                proof {
                    assert(self@.move_sources =~= pre.move_sources.remove(i as int));
                    assert(self@ == spec_find_move_source(pre, title@, now_ms).0);
                }
                Some((e.path, e.meta))
            },
            None => None,
        }
    }

    fn sweep_entries(
        entries: &mut Vec<SourceEntry>,
        out: &mut Vec<WatchedFileMetadata>,
        now_ms: u64,
        window: u64,
    )
        ensures
            final(entries)@.map_values(|e: SourceEntry| e@) == fresh_sources(
                old(entries)@.map_values(|e: SourceEntry| e@),
                now_ms,
                window,
            ),
            final(out)@.map_values(|m: WatchedFileMetadata| m@) == old(out)@.map_values(
                |m: WatchedFileMetadata| m@,
            ) + expired_metas(old(entries)@.map_values(|e: SourceEntry| e@), now_ms, window),
    {
        let ghost orig = entries@.map_values(|e: SourceEntry| e@);
        let ghost out0 = out@.map_values(|m: WatchedFileMetadata| m@);
        let mut kept: Vec<SourceEntry> = Vec::new();
        proof {
            assert(kept@.map_values(|e: SourceEntry| e@) =~= Seq::<SourceEntryView>::empty());
        }
        while entries.len() > 0
            invariant
                fresh_sources(orig, now_ms, window) == kept@.map_values(|e: SourceEntry| e@)
                    + fresh_sources(
                    entries@.map_values(|e: SourceEntry| e@),
                    now_ms,
                    window,
                ),
                out0 + expired_metas(orig, now_ms, window) == out@.map_values(
                    |m: WatchedFileMetadata| m@,
                ) + expired_metas(entries@.map_values(|e: SourceEntry| e@), now_ms, window),
            decreases entries.len(),
        {
            let ghost evs = entries@.map_values(|e: SourceEntry| e@);
            let ghost kvs = kept@.map_values(|e: SourceEntry| e@);
            let ghost ovs = out@.map_values(|m: WatchedFileMetadata| m@);
            let e = entries.remove(0);
            proof {
                assert(entries@.map_values(|e2: SourceEntry| e2@) =~= evs.drop_first());
                assert(e@ == evs[0]);
            }
            if elapsed(now_ms, e.marked_at) > window {
                out.push(e.meta);
                proof {
                    assert(out@.map_values(|m: WatchedFileMetadata| m@) =~= ovs.push(evs[0].meta));
                    assert(ovs + (seq![evs[0].meta] + expired_metas(
                        evs.drop_first(),
                        now_ms,
                        window,
                    )) =~= ovs.push(evs[0].meta) + expired_metas(evs.drop_first(), now_ms, window));
                }
            } else {
                kept.push(e);
                proof {
                    assert(kept@.map_values(|e2: SourceEntry| e2@) =~= kvs.push(evs[0]));
                    assert(kvs + (seq![evs[0]] + fresh_sources(evs.drop_first(), now_ms, window))
                        =~= kvs.push(evs[0]) + fresh_sources(evs.drop_first(), now_ms, window));
                }
            }
        }
        proof {
            assert(entries@.map_values(|e: SourceEntry| e@) =~= Seq::<SourceEntryView>::empty());
            assert(kept@.map_values(|e: SourceEntry| e@) + fresh_sources(
                Seq::<SourceEntryView>::empty(),
                now_ms,
                window,
            ) =~= kept@.map_values(|e: SourceEntry| e@));
            assert(out@.map_values(|m: WatchedFileMetadata| m@) + expired_metas(
                Seq::<SourceEntryView>::empty(),
                now_ms,
                window,
            ) =~= out@.map_values(|m: WatchedFileMetadata| m@));
        }
        *entries = kept;
    }

    /// Evicts every candidate source older than the detection window from
    /// both source maps and returns their fingerprints: these disappearances
    /// found no matching appearance and are confirmed external deletes.
    pub fn cleanup_expired_sources(&mut self, now_ms: u64) -> (r: Vec<WatchedFileMetadata>)
        requires
            old(self)@.wf(),
        ensures
            final(self)@ == spec_cleanup(old(self)@, now_ms),
            final(self)@.wf(),
            r@.map_values(|m: WatchedFileMetadata| m@) == expired_metas(
                old(self)@.rename_sources,
                now_ms,
                old(self)@.detection_window_ms,
            ) + expired_metas(
                old(self)@.move_sources,
                now_ms,
                old(self)@.detection_window_ms,
            ),
    {
        let ghost pre = self@;
        let ghost w = self@.detection_window_ms;
        let mut out: Vec<WatchedFileMetadata> = Vec::new();
        proof {
            assert(out@.map_values(|m: WatchedFileMetadata| m@) =~= Seq::<MetaView>::empty());
        }
        let window = self.detection_window_ms;
        Self::sweep_entries(&mut self.rename_sources, &mut out, now_ms, window);
        Self::sweep_entries(&mut self.move_sources, &mut out, now_ms, window);
        proof {
            assert(Seq::<MetaView>::empty() + expired_metas(pre.rename_sources, now_ms, w)
                =~= expired_metas(pre.rename_sources, now_ms, w));
            assert(self@ == spec_cleanup(pre, now_ms));
            lemma_fresh_sources_distinct(pre.rename_sources, now_ms, w);
            lemma_fresh_sources_distinct(pre.move_sources, now_ms, w);
        }
        out
    }
}

/// Effect of taking the first matching candidate rename source out of the
/// tracker, with what is returned.
pub open spec fn spec_find_rename_source(
    tv: TrackerView,
    size: u64,
    word_count: u64,
    now: u64,
) -> (TrackerView, Option<(Seq<char>, MetaView)>) {
    match rename_match_index(tv.rename_sources, size, word_count, now, tv.detection_window_ms) {
        Some(i) => (
            TrackerView { rename_sources: tv.rename_sources.remove(i), ..tv },
            Some((tv.rename_sources[i].path, tv.rename_sources[i].meta)),
        ),
        None => (tv, None),
    }
}

/// Effect of taking the first matching candidate move source out of the
/// tracker, with what is returned.
pub open spec fn spec_find_move_source(tv: TrackerView, title: Seq<char>, now: u64) -> (
    TrackerView,
    Option<(Seq<char>, MetaView)>,
) {
    match move_match_index(tv.move_sources, title, now, tv.detection_window_ms) {
        Some(i) => (
            TrackerView { move_sources: tv.move_sources.remove(i), ..tv },
            Some((tv.move_sources[i].path, tv.move_sources[i].meta)),
        ),
        None => (tv, None),
    }
}

/// Effect of evicting every expired candidate source.
pub open spec fn spec_cleanup(tv: TrackerView, now: u64) -> TrackerView {
    TrackerView {
        rename_sources: fresh_sources(tv.rename_sources, now, tv.detection_window_ms),
        move_sources: fresh_sources(tv.move_sources, now, tv.detection_window_ms),
        ..tv
    }
}

/// Every source key occurs at most once.
pub open spec fn source_distinct(s: Seq<SourceEntryView>) -> bool {
    forall|i: int, j: int| 0 <= i < j < s.len() ==> s[i].path != s[j].path
}

/// Effect of upserting one candidate source entry into `s`.
pub open spec fn spec_mark_seq(
    s: Seq<SourceEntryView>,
    p: Seq<char>,
    meta: MetaView,
    now: u64,
) -> Seq<SourceEntryView> {
    let e = SourceEntryView { path: p, marked_at: now, meta };
    match source_index(s, p) {
        Some(i) => s.remove(i).push(e),
        None => s.push(e),
    }
}

/// Spec-level image of a [`CreateClassification`].
pub enum CreateClassView {
    InternalEcho,
    FusedRenameOrMove { old_path: Seq<char>, meta: MetaView },
    ExternalCreate,
}

/// What a watcher `Create` notification turned out to be.
#[derive(Debug, PartialEq, Eq)]
pub enum CreateClassification {
    /// The path is locked: the creation is the echo of an internal operation.
    InternalEcho,
    /// The appearance matches a recent disappearance: the pair is one
    /// external rename or move from `old_path`.
    FusedRenameOrMove { old_path: String, meta: WatchedFileMetadata },
    /// A genuine external creation.
    ExternalCreate,
}

impl View for CreateClassification {
    type V = CreateClassView;

    open spec fn view(&self) -> CreateClassView {
        match self {
            CreateClassification::InternalEcho => CreateClassView::InternalEcho,
            CreateClassification::FusedRenameOrMove { old_path, meta } => (
            CreateClassView::FusedRenameOrMove { old_path: old_path@, meta: meta@ }),
            CreateClassification::ExternalCreate => CreateClassView::ExternalCreate,
        }
    }
}

/// Spec-level image of a [`ModifyClassification`].
pub enum ModifyClassView {
    InternalEcho,
    MarkedRenameSource,
    UntrackedMissing,
    TimestampEcho,
    FusedRenameOrMove { old_path: Seq<char>, meta: MetaView },
    ExternalModify,
}

/// What a watcher `Modify` notification turned out to be.
#[derive(Debug, PartialEq, Eq)]
pub enum ModifyClassification {
    /// The path is locked: the modification is the echo of an internal
    /// operation.
    InternalEcho,
    /// The path no longer exists on disk: it was recorded as a candidate
    /// rename source, and no job is emitted yet.
    MarkedRenameSource,
    /// The path no longer exists on disk and the store knows nothing about
    /// it: ignored.
    UntrackedMissing,
    /// The disk timestamp lies within the tolerance of a recorded internal
    /// write: an echo, ignored.
    TimestampEcho,
    /// The modification matches a recent disappearance: the pair is one
    /// external rename from `old_path`.
    FusedRenameOrMove { old_path: String, meta: WatchedFileMetadata },
    /// A genuine external modification.
    ExternalModify,
}

impl View for ModifyClassification {
    type V = ModifyClassView;

    open spec fn view(&self) -> ModifyClassView {
        match self {
            ModifyClassification::InternalEcho => ModifyClassView::InternalEcho,
            ModifyClassification::MarkedRenameSource => ModifyClassView::MarkedRenameSource,
            ModifyClassification::UntrackedMissing => ModifyClassView::UntrackedMissing,
            ModifyClassification::TimestampEcho => ModifyClassView::TimestampEcho,
            ModifyClassification::FusedRenameOrMove { old_path, meta } => (
            ModifyClassView::FusedRenameOrMove { old_path: old_path@, meta: meta@ }),
            ModifyClassification::ExternalModify => ModifyClassView::ExternalModify,
        }
    }
}

/// Spec-level image of a [`RemoveClassification`].
pub enum RemoveClassView {
    InternalEcho,
    MarkedMoveSource,
    UntrackedRemove,
}

/// What a watcher `Remove` notification turned out to be.
#[derive(Debug, PartialEq, Eq)]
pub enum RemoveClassification {
    /// The path is locked: the removal is the echo of an internal operation.
    InternalEcho,
    /// The path was recorded as a candidate move source; resolution comes
    /// from a later matching creation or from the sweep of expired sources.
    MarkedMoveSource,
    /// The store knows nothing about the path: ignored.
    UntrackedRemove,
}

impl View for RemoveClassification {
    type V = RemoveClassView;

    open spec fn view(&self) -> RemoveClassView {
        match self {
            RemoveClassification::InternalEcho => RemoveClassView::InternalEcho,
            RemoveClassification::MarkedMoveSource => RemoveClassView::MarkedMoveSource,
            RemoveClassification::UntrackedRemove => RemoveClassView::UntrackedRemove,
        }
    }
}

/// Spec-level image of an `Option<WatchedFileMetadata>`.
pub open spec fn meta_opt_view(o: Option<WatchedFileMetadata>) -> Option<MetaView> {
    match o {
        Some(m) => Some(m@),
        None => None,
    }
}

/// Effect and outcome of classifying a `Create` notification for `p`, given
/// the fresh fingerprint (`size`, `word_count`, `title`) read from disk.
pub open spec fn spec_classify_create(
    tv: TrackerView,
    p: Seq<char>,
    size: u64,
    word_count: u64,
    title: Seq<char>,
    now: u64,
) -> (TrackerView, CreateClassView) {
    if tv.locked(p) {
        (tv, CreateClassView::InternalEcho)
    } else {
        let (tv1, moved) = spec_find_move_source(tv, title, now);
        match moved {
            Some((old_path, meta)) => (
                tv1,
                CreateClassView::FusedRenameOrMove { old_path, meta },
            ),
            None => {
                let (tv2, renamed) = spec_find_rename_source(tv1, size, word_count, now);
                match renamed {
                    Some((old_path, meta)) => (
                        tv2,
                        CreateClassView::FusedRenameOrMove { old_path, meta },
                    ),
                    None => (tv2, CreateClassView::ExternalCreate),
                }
            },
        }
    }
}

/// Effect and outcome of classifying a `Modify` notification for `p`.
/// `exists_on_disk` says whether the path is still present; `db_meta` is the
/// store's fingerprint of it (consulted only when it vanished); `size` and
/// `word_count` are the fresh fingerprint (meaningful only when it exists).
pub open spec fn spec_classify_modify(
    tv: TrackerView,
    p: Seq<char>,
    exists_on_disk: bool,
    disk_mtime_ms: u64,
    db_meta: Option<MetaView>,
    size: u64,
    word_count: u64,
    now: u64,
) -> (TrackerView, ModifyClassView) {
    if !exists_on_disk {
        if tv.locked(p) {
            (tv, ModifyClassView::InternalEcho)
        } else {
            match db_meta {
                Some(m) => (
                    spec_mark_rename_source(tv, p, m, now),
                    ModifyClassView::MarkedRenameSource,
                ),
                None => (tv, ModifyClassView::UntrackedMissing),
            }
        }
    } else if tv.locked(p) {
        (tv, ModifyClassView::InternalEcho)
    } else if tv.is_echo(p, disk_mtime_ms) {
        (tv, ModifyClassView::TimestampEcho)
    } else {
        let (tv1, renamed) = spec_find_rename_source(tv, size, word_count, now);
        match renamed {
            Some((old_path, meta)) => (
                tv1,
                ModifyClassView::FusedRenameOrMove { old_path, meta },
            ),
            None => (tv1, ModifyClassView::ExternalModify),
        }
    }
}

/// Effect and outcome of classifying a `Remove` notification for `p`, given
/// the store's fingerprint of it.
pub open spec fn spec_classify_remove(
    tv: TrackerView,
    p: Seq<char>,
    db_meta: Option<MetaView>,
    now: u64,
) -> (TrackerView, RemoveClassView) {
    if tv.locked(p) {
        (tv, RemoveClassView::InternalEcho)
    } else {
        match db_meta {
            Some(m) => (spec_mark_move_source(tv, p, m, now), RemoveClassView::MarkedMoveSource),
            None => (tv, RemoveClassView::UntrackedRemove),
        }
    }
}

impl SaveTracker {
    /// Classifies a watcher `Create` notification for `rel_path`, with the
    /// fingerprint freshly computed from the file now on disk. A fused
    /// outcome has already taken the matching source entry out.
    pub fn classify_create(
        &mut self,
        rel_path: &String,
        size: u64,
        word_count: u64,
        title: &String,
        now_ms: u64,
    ) -> (r: CreateClassification)
        requires
            old(self)@.wf(),
        ensures
            final(self)@ == spec_classify_create(
                old(self)@,
                rel_path@,
                size,
                word_count,
                title@,
                now_ms,
            ).0,
            r@ == spec_classify_create(old(self)@, rel_path@, size, word_count, title@, now_ms).1,
            final(self)@.wf(),
    {
        if self.is_locked(rel_path) {
            return CreateClassification::InternalEcho;
        }
        if let Some((old_path, meta)) = self.find_recent_move_source(title, now_ms) {
            return CreateClassification::FusedRenameOrMove { old_path, meta };
        }
        if let Some((old_path, meta)) = self.find_recent_rename_source(size, word_count, now_ms) {
            return CreateClassification::FusedRenameOrMove { old_path, meta };
        }
        CreateClassification::ExternalCreate
    }

    /// Classifies a watcher `Modify` notification for `rel_path`.
    /// `exists_on_disk` and `disk_mtime_ms` describe the path as it is now;
    /// `db_meta` is the store's fingerprint (used when the path vanished);
    /// `size` and `word_count` are the fresh fingerprint (used when it
    /// exists).
    pub fn classify_modify(
        &mut self,
        rel_path: &String,
        exists_on_disk: bool,
        disk_mtime_ms: u64,
        db_meta: Option<WatchedFileMetadata>,
        size: u64,
        word_count: u64,
        now_ms: u64,
    ) -> (r: ModifyClassification)
        requires
            old(self)@.wf(),
        ensures
            final(self)@ == spec_classify_modify(
                old(self)@,
                rel_path@,
                exists_on_disk,
                disk_mtime_ms,
                meta_opt_view(db_meta),
                size,
                word_count,
                now_ms,
            ).0,
            r@ == spec_classify_modify(
                old(self)@,
                rel_path@,
                exists_on_disk,
                disk_mtime_ms,
                meta_opt_view(db_meta),
                size,
                word_count,
                now_ms,
            ).1,
            final(self)@.wf(),
    {
        if !exists_on_disk {
            if self.is_locked(rel_path) {
                return ModifyClassification::InternalEcho;
            }
            match db_meta {
                Some(m) => {
                    self.mark_potential_rename_source(rel_path, m, now_ms);
                    return ModifyClassification::MarkedRenameSource;
                },
                None => {
                    return ModifyClassification::UntrackedMissing;
                },
            }
        }
        if self.is_locked(rel_path) {
            return ModifyClassification::InternalEcho;
        }
        if self.is_echo(rel_path, disk_mtime_ms) {
            return ModifyClassification::TimestampEcho;
        }
        if let Some((old_path, meta)) = self.find_recent_rename_source(size, word_count, now_ms) {
            return ModifyClassification::FusedRenameOrMove { old_path, meta };
        }
        ModifyClassification::ExternalModify
    }

    /// Classifies a watcher `Remove` notification for `rel_path`, given the
    /// store's fingerprint of it. No job is emitted for a marked move
    /// source: resolution comes from a later matching creation or from the
    /// sweep of expired sources.
    pub fn classify_remove(
        &mut self,
        rel_path: &String,
        db_meta: Option<WatchedFileMetadata>,
        now_ms: u64,
    ) -> (r: RemoveClassification)
        requires
            old(self)@.wf(),
        ensures
            final(self)@ == spec_classify_remove(
                old(self)@,
                rel_path@,
                meta_opt_view(db_meta),
                now_ms,
            ).0,
            r@ == spec_classify_remove(old(self)@, rel_path@, meta_opt_view(db_meta), now_ms).1,
            final(self)@.wf(),
    {
        if self.is_locked(rel_path) {
            return RemoveClassification::InternalEcho;
        }
        match db_meta {
            Some(m) => {
                self.mark_potential_move_source(rel_path, m, now_ms);
                RemoveClassification::MarkedMoveSource
            },
            None => RemoveClassification::UntrackedRemove,
        }
    }
}

} // verus!

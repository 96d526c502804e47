//! Snapshot of a file's identity (title, byte size, word count) used to match
//! a disappearance with a later appearance when fusing external rename/move
//! event pairs.

use vstd::prelude::*;

verus! {

/// Spec-level image of a [`WatchedFileMetadata`].
pub struct MetaView {
    pub path: Seq<char>,
    pub title: Seq<char>,
    pub size: u64,
    pub word_count: u64,
}

/// Metadata snapshot of one tracked file, as the metadata store keeps it.
#[derive(Debug, PartialEq, Eq)]
pub struct WatchedFileMetadata {
    pub path: String,
    pub title: String,
    pub size: u64,
    pub word_count: u64,
}

impl View for WatchedFileMetadata {
    type V = MetaView;

    open spec fn view(&self) -> MetaView {
        MetaView {
            path: self.path@,
            title: self.title@,
            size: self.size,
            word_count: self.word_count,
        }
    }
}

impl Clone for WatchedFileMetadata {
    fn clone(&self) -> (r: Self)
        ensures
            r@ == self@,
    {
        WatchedFileMetadata {
            path: self.path.clone(),
            title: self.title.clone(),
            size: self.size,
            word_count: self.word_count,
        }
    }
}

} // verus!

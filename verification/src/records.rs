//! The files that a scan found.

use vstd::prelude::*;

verus! {

/// A file found by the scan: where it is and how many bytes it holds.
#[derive(Debug)]
pub struct FileRecord {
    pub path: String,
    pub size: u64,
}

/// A file record as plain values.
pub struct RecordView {
    pub path: Seq<char>,
    pub size: u64,
}

impl View for FileRecord {
    type V = RecordView;

    open spec fn view(&self) -> RecordView {
        RecordView { path: self.path@, size: self.size }
    }
}

impl Clone for FileRecord {
    fn clone(&self) -> (r: FileRecord)
        ensures
            r@ == self@,
    {
        FileRecord { path: self.path.clone(), size: self.size }
    }
}

/// What a list of records holds, as plain values.
pub open spec fn record_views(files: Seq<FileRecord>) -> Seq<RecordView> {
    Seq::new(files.len(), |i: int| files[i]@)
}

/// A file that was handed to the hasher: its path and, unless reading it
/// failed, the digest of its content.
#[derive(Debug)]
pub struct HashedFile {
    pub path: String,
    pub digest: Option<String>,
}

/// A hashed file as plain values.
pub struct HashedView {
    pub path: Seq<char>,
    pub digest: Option<Seq<char>>,
}

impl View for HashedFile {
    type V = HashedView;

    open spec fn view(&self) -> HashedView {
        HashedView {
            path: self.path@,
            digest: match self.digest {
                Some(d) => Some(d@),
                None => None,
            },
        }
    }
}

/// What a list of hashed files holds, as plain values.
pub open spec fn hashed_views(files: Seq<HashedFile>) -> Seq<HashedView> {
    Seq::new(files.len(), |i: int| files[i]@)
}

} // verus!

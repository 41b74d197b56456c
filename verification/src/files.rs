//! What was observed of the file system.
//!
//! The validity of a cache entry depends on two questions about a path:
//! does it exist, and when was it last modified. A `FileTable` holds the
//! answers for a set of paths, so that the rules can be applied to them
//! without touching the file system.

use vstd::prelude::*;
use crate::bytes::{copy_range, same_bytes};

verus! {

/// A point in time, in nanoseconds since the Unix epoch (negative before it).
pub type Timestamp = i128;

/// What is known of a path: its modification time if it exists, `None` if
/// it does not.
pub open spec fn lookup(files: Map<Seq<u8>, Timestamp>, path: Seq<u8>) -> Option<Timestamp> {
    if files.dom().contains(path) {
        Some(files[path])
    } else {
        None
    }
}

/// One observed file.
#[derive(Clone, Debug, PartialEq, Eq)]
pub struct FileStat {
    pub path: Vec<u8>,
    pub modified: Timestamp,
}

/// The files that exist, each with its modification time.
pub struct FileTable {
    files: Vec<FileStat>,
}

/// The map that a list of observations stands for: a later observation of a
/// path replaces an earlier one.
pub closed spec fn table_of(files: Seq<FileStat>) -> Map<Seq<u8>, Timestamp>
    decreases files.len(),
{
    if files.len() == 0 {
        Map::empty()
    } else {
        table_of(files.drop_last()).insert(files.last().path@, files.last().modified)
    }
}

/// One more observation replaces what was known of its path.
proof fn lemma_table_of_take(files: Seq<FileStat>, i: int)
    requires
        0 <= i < files.len(),
    ensures
        table_of(files.take(i + 1)) == table_of(files.take(i)).insert(
            files[i].path@,
            files[i].modified,
        ),
{
    assert(files.take(i + 1).drop_last() =~= files.take(i));
}

impl View for FileTable {
    type V = Map<Seq<u8>, Timestamp>;

    closed spec fn view(&self) -> Map<Seq<u8>, Timestamp> {
        table_of(self.files@)
    }
}

impl FileTable {
    /// A table in which no file exists.
    pub fn new() -> (table: FileTable)
        ensures
            table@ == Map::<Seq<u8>, Timestamp>::empty(),
    {
        FileTable { files: Vec::new() }
    }

    /// Records that `path` exists and was last modified at `modified`.
    pub fn set(&mut self, path: &[u8], modified: Timestamp)
        ensures
            final(self)@ == old(self)@.insert(path@, modified),
    {
        let owned = copy_range(path, 0, path.len());
        assert(owned@ =~= path@);
        self.files.push(FileStat { path: owned, modified });
        assert(self.files@.drop_last() =~= old(self).files@);
    }

    /// Records that `path` does not exist.
    pub fn remove(&mut self, path: &[u8])
        ensures
            final(self)@ == old(self)@.remove(path@),
    {
        let mut kept: Vec<FileStat> = Vec::new();
        let mut i: usize = 0;
        while i < self.files.len()
            invariant
                i <= self.files.len(),
                self.files == old(self).files,
                table_of(kept@) == table_of(self.files@.take(i as int)).remove(path@),
            decreases self.files.len() - i,
        {
            proof {
                lemma_table_of_take(self.files@, i as int);
            }
            let ghost before = table_of(self.files@.take(i as int));
            let file = &self.files[i];
            if !same_bytes(file.path.as_slice(), path) {
                let owned = copy_range(file.path.as_slice(), 0, file.path.len());
                assert(owned@ =~= file.path@);
                let ghost kept_before = kept@;
                kept.push(FileStat { path: owned, modified: file.modified });
                proof {
                    assert(kept@.drop_last() =~= kept_before);
                    assert(before.remove(path@).insert(file.path@, file.modified) =~= before.insert(
                        file.path@,
                        file.modified,
                    ).remove(path@));
                }
            }
            i = i + 1;
        }
        assert(self.files@.take(self.files@.len() as int) =~= self.files@);
        self.files = kept;
    }

    /// The modification time of `path`, or `None` if it does not exist.
    pub fn modified(&self, path: &[u8]) -> (r: Option<Timestamp>)
        ensures
            r == lookup(self@, path@),
    {
        let mut i: usize = self.files.len();
        assert(self.files@.take(i as int) =~= self.files@);
        while i > 0
            invariant
                i <= self.files.len(),
                lookup(self@, path@) == lookup(table_of(self.files@.take(i as int)), path@),
            decreases i,
        {
            i = i - 1;
            proof {
                lemma_table_of_take(self.files@, i as int);
            }
            let file = &self.files[i];
            if same_bytes(file.path.as_slice(), path) {
                return Some(file.modified);
            }
        }
        None
    }

    /// Whether `path` exists.
    pub fn contains(&self, path: &[u8]) -> (r: bool)
        ensures
            r == self@.dom().contains(path@),
    {
        self.modified(path).is_some()
    }
}

} // verus!

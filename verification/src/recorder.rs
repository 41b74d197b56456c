//! The set of dependencies that one process has recorded.
//!
//! A path is recorded when it can be a dependency and names a regular file
//! at the time it is opened. Each path is held once, however often it is
//! opened. The set keeps the order in which the paths were first seen, and
//! its report lists them in that order.

use vstd::prelude::*;
use crate::bytes::{byte_strings, check_path, copy_range, is_path, same_bytes};
use crate::entry::{report_of, serialize_report};
use crate::filter::{candidate, is_candidate};

verus! {

/// What a set of dependencies always is: paths, none of them twice.
pub open spec fn is_dependency_set(paths: Seq<Seq<u8>>) -> bool {
    &&& paths.no_duplicates()
    &&& forall|i: int| 0 <= i < paths.len() ==> is_path(#[trigger] paths[i])
}

/// The paths after `path` was added to `paths`, unless it was there.
pub open spec fn with_path(paths: Seq<Seq<u8>>, path: Seq<u8>) -> Seq<Seq<u8>> {
    if paths.contains(path) {
        paths
    } else {
        paths.push(path)
    }
}

/// The paths after `path` was opened, when the probe of the file system
/// said whether it names a regular file.
pub open spec fn recorded(paths: Seq<Seq<u8>>, path: Seq<u8>, regular_file: bool) -> Seq<Seq<u8>> {
    if candidate(path) && regular_file {
        with_path(paths, path)
    } else {
        paths
    }
}

/// Adding a path keeps a set of dependencies one, and the path is in it
/// afterwards.
pub proof fn lemma_with_path(paths: Seq<Seq<u8>>, path: Seq<u8>)
    requires
        is_dependency_set(paths),
        is_path(path),
    ensures
        is_dependency_set(with_path(paths, path)),
        with_path(paths, path).contains(path),
{
    let after = with_path(paths, path);
    if !paths.contains(path) {
        assert(after[paths.len() as int] == path);
        assert(after.no_duplicates());
    }
}

/// Opening a qualifying path a second time records nothing more: after
/// the first time the path is in the set, exactly once, and the second
/// time leaves the set as it is.
pub proof fn lemma_recorded_once(paths: Seq<Seq<u8>>, path: Seq<u8>, again: bool)
    requires
        is_dependency_set(paths),
        candidate(path),
    ensures
        ({
            let first = recorded(paths, path, true);
            &&& first.contains(path)
            &&& first.no_duplicates()
            &&& recorded(first, path, again) == first
        }),
{
    lemma_with_path(paths, path);
}

/// Recording keeps a set of dependencies one whatever is opened.
pub proof fn lemma_recorded_is_set(paths: Seq<Seq<u8>>, path: Seq<u8>, regular_file: bool)
    requires
        is_dependency_set(paths),
    ensures
        is_dependency_set(recorded(paths, path, regular_file)),
{
    if candidate(path) && regular_file {
        lemma_with_path(paths, path);
    }
}

/// One opening of a path: the path, and whether the probe found a regular
/// file there.
pub ghost struct Opening {
    pub path: Seq<u8>,
    pub regular_file: bool,
}

/// The paths after all of `openings`, one after the other.
pub open spec fn recorded_all(paths: Seq<Seq<u8>>, openings: Seq<Opening>) -> Seq<Seq<u8>>
    decreases openings.len(),
{
    if openings.len() == 0 {
        paths
    } else {
        recorded(
            recorded_all(paths, openings.drop_last()),
            openings.last().path,
            openings.last().regular_file,
        )
    }
}

/// A path is among the paths after it was added exactly if it was among
/// them before or is the path that was added.
pub proof fn lemma_with_path_contains(paths: Seq<Seq<u8>>, path: Seq<u8>, p: Seq<u8>)
    ensures
        with_path(paths, path).contains(p) <==> paths.contains(p) || p == path,
{
    let after = with_path(paths, path);
    if !paths.contains(path) {
        assert(after[paths.len() as int] == path);
        if paths.contains(p) {
            let i = choose|i: int| 0 <= i < paths.len() && paths[i] == p;
            assert(after[i] == p);
        }
        if after.contains(p) && p != path {
            let i = choose|i: int| 0 <= i < after.len() && after[i] == p;
            assert(paths[i] == p);
        }
    }
}

/// Whatever is opened, in whatever order and however often, every
/// qualifying path is recorded, once, and nothing else is: afterwards the
/// set holds what it held before and the candidates that were opened and
/// found to be regular files.
pub proof fn lemma_recorded_all(paths: Seq<Seq<u8>>, openings: Seq<Opening>)
    requires
        is_dependency_set(paths),
    ensures
        is_dependency_set(recorded_all(paths, openings)),
        forall|p: Seq<u8>| #[trigger]
            recorded_all(paths, openings).contains(p) <==> paths.contains(p) || (candidate(p)
                && openings.contains(Opening { path: p, regular_file: true })),
    decreases openings.len(),
{
    if openings.len() > 0 {
        let earlier = openings.drop_last();
        let last = openings.last();
        let before = recorded_all(paths, earlier);
        lemma_recorded_all(paths, earlier);
        lemma_recorded_is_set(before, last.path, last.regular_file);
        assert forall|p: Seq<u8>| #[trigger]
            recorded_all(paths, openings).contains(p) <==> paths.contains(p) || (candidate(p)
                && openings.contains(Opening { path: p, regular_file: true })) by {
            let sought = Opening { path: p, regular_file: true };
            lemma_with_path_contains(before, last.path, p);
            assert(openings.contains(sought) <==> earlier.contains(sought) || last == sought) by {
                if earlier.contains(sought) {
                    let i = choose|i: int| 0 <= i < earlier.len() && earlier[i] == sought;
                    assert(openings[i] == sought);
                }
                if last == sought {
                    assert(openings[openings.len() - 1] == sought);
                }
                if openings.contains(sought) && last != sought {
                    let i = choose|i: int| 0 <= i < openings.len() && openings[i] == sought;
                    assert(earlier[i] == sought);
                }
            }
        }
    }
}

/// The dependencies recorded so far, in the order in which they were first
/// seen.
pub struct DependencySet {
    paths: Vec<Vec<u8>>,
}

impl View for DependencySet {
    type V = Seq<Seq<u8>>;

    closed spec fn view(&self) -> Seq<Seq<u8>> {
        byte_strings(self.paths@)
    }
}

impl DependencySet {
    /// The paths are a set of dependencies.
    #[verifier::type_invariant]
    spec fn well_formed(self) -> bool {
        is_dependency_set(byte_strings(self.paths@))
    }

    /// The empty set.
    pub fn new() -> (set: DependencySet)
        ensures
            set@ == Seq::<Seq<u8>>::empty(),
    {
        let set = DependencySet { paths: Vec::new() };
        set
    }

    /// The number of paths in the set.
    pub fn len(&self) -> (n: usize)
        ensures
            n == self@.len(),
            is_dependency_set(self@),
    {
        proof {
            use_type_invariant(self);
        }
        self.paths.len()
    }

    /// The paths of the set, in the order in which they were first seen.
    pub fn paths(&self) -> (paths: &Vec<Vec<u8>>)
        ensures
            byte_strings(paths@) == self@,
            is_dependency_set(self@),
    {
        proof {
            use_type_invariant(self);
        }
        &self.paths
    }

    /// Whether `path` is in the set.
    pub fn contains(&self, path: &[u8]) -> (r: bool)
        ensures
            r == self@.contains(path@),
    {
        let mut i: usize = 0;
        while i < self.paths.len()
            invariant
                i <= self.paths.len(),
                forall|j: int| 0 <= j < i ==> byte_strings(self.paths@)[j] != path@,
            decreases self.paths.len() - i,
        {
            if same_bytes(self.paths[i].as_slice(), path) {
                assert(byte_strings(self.paths@)[i as int] == path@);
                return true;
            }
            i = i + 1;
        }
        false
    }

    /// Adds `path` to the set, if it can name a file and is not in the set
    /// yet. Returns whether it was added.
    pub fn insert(&mut self, path: &[u8]) -> (added: bool)
        ensures
            added == (is_path(path@) && !old(self)@.contains(path@)),
            final(self)@ == if is_path(path@) {
                with_path(old(self)@, path@)
            } else {
                old(self)@
            },
            is_dependency_set(final(self)@),
    {
        proof {
            use_type_invariant(&*self);
        }
        if !check_path(path) || self.contains(path) {
            return false;
        }
        let owned = copy_range(path, 0, path.len());
        assert(owned@ =~= path@);
        proof {
            lemma_with_path(byte_strings(self.paths@), path@);
            assert(byte_strings(self.paths@.push(owned)) =~= byte_strings(self.paths@).push(path@));
        }
        // The vector is taken out of the set while it grows, and put back.
        let mut paths: Vec<Vec<u8>> = Vec::new();
        core::mem::swap(&mut self.paths, &mut paths);
        paths.push(owned);
        core::mem::swap(&mut self.paths, &mut paths);
        true
    }

    /// The report of the set: each path followed by one NUL byte, in the
    /// order in which the paths were first seen.
    pub fn report(&self) -> (out: Vec<u8>)
        ensures
            out@ == report_of(self@),
    {
        serialize_report(&self.paths)
    }
}

/// Records that `path` was opened, where `regular_file` says whether it
/// named a regular file when it was probed.
///
/// The path is added if it can be a dependency, names a regular file and
/// was not recorded before. Returns whether it was added.
pub fn record_path(set: &mut DependencySet, path: &[u8], regular_file: bool) -> (added: bool)
    ensures
        final(set)@ == recorded(old(set)@, path@, regular_file),
        added == (candidate(path@) && regular_file && !old(set)@.contains(path@)),
        is_dependency_set(final(set)@),
{
    proof {
        use_type_invariant(&*set);
    }
    if regular_file && is_candidate(path) {
        set.insert(path)
    } else {
        false
    }
}

} // verus!

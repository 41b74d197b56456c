//! The interposed entry points.
//!
//! Four functions of the C library are interposed: `open` and `openat`,
//! each in its narrow and in its wide (large file) variant. Every call is
//! forwarded to the genuine function of the same name, whatever happens
//! here: the layer only observes. Before that, the path of the call is
//! looked at. Where it can be a dependency the caller is told to probe it,
//! and hands the answer to `record_path`.
//!
//! A path given relative to a directory descriptor is only looked at when
//! that descriptor is the one that stands for the current directory: other
//! descriptors are not resolved.

use vstd::prelude::*;
use crate::filter::{candidate, is_candidate};
use crate::lifecycle::Lifecycle;

verus! {

/// One of the interposed functions.
#[derive(Clone, Copy, Debug, PartialEq, Eq, Structural)]
pub enum EntryPoint {
    Open,
    Openat,
    Open64,
    Openat64,
}

/// The directory argument of `openat`.
#[derive(Clone, Copy, Debug, PartialEq, Eq, Structural)]
pub enum Directory {
    /// The value that stands for the current directory of the process.
    Current,
    /// An open directory, by its descriptor.
    Descriptor(i32),
}

/// What to do with one intercepted call.
#[derive(Clone, Copy, Debug, PartialEq, Eq)]
pub struct Interception {
    /// The genuine function to forward the call to.
    pub forward_to: EntryPoint,
    /// Whether to probe the path and hand the answer to `record_path`.
    pub probe: bool,
}

/// Whether a path opened in `state` is looked at: the layer still records,
/// and the path can be a dependency.
pub open spec fn observed(state: Lifecycle, path: Seq<u8>) -> bool {
    state.records() && candidate(path)
}

/// Whether a path opened relative to `directory` in `state` is looked at.
pub open spec fn observed_at(state: Lifecycle, directory: Directory, path: Seq<u8>) -> bool {
    directory == Directory::Current && observed(state, path)
}

impl EntryPoint {
    /// The name under which the genuine function is looked up.
    pub fn symbol(self) -> (name: &'static str)
        ensures
            name@ == match self {
                EntryPoint::Open => "open"@,
                EntryPoint::Openat => "openat"@,
                EntryPoint::Open64 => "open64"@,
                EntryPoint::Openat64 => "openat64"@,
            },
    {
        match self {
            EntryPoint::Open => "open",
            EntryPoint::Openat => "openat",
            EntryPoint::Open64 => "open64",
            EntryPoint::Openat64 => "openat64",
        }
    }
}

/// Whether a path opened in `state` is looked at.
fn observe(state: Lifecycle, path: &[u8]) -> (r: bool)
    ensures
        r == observed(state, path@),
{
    state.is_recording() && is_candidate(path)
}

/// A call of `open`.
pub fn sys_open(state: Lifecycle, path: &[u8]) -> (r: Interception)
    ensures
        r.forward_to == EntryPoint::Open,
        r.probe == observed(state, path@),
{
    Interception { forward_to: EntryPoint::Open, probe: observe(state, path) }
}

/// A call of `openat`.
pub fn sys_openat(state: Lifecycle, dirfd: Directory, pathname: &[u8]) -> (r: Interception)
    ensures
        r.forward_to == EntryPoint::Openat,
        r.probe == observed_at(state, dirfd, pathname@),
{
    let probe = match dirfd {
        Directory::Current => observe(state, pathname),
        Directory::Descriptor(_) => false,
    };
    Interception { forward_to: EntryPoint::Openat, probe }
}

/// A call of `open64`.
pub fn sys_open64(state: Lifecycle, path: &[u8]) -> (r: Interception)
    ensures
        r.forward_to == EntryPoint::Open64,
        r.probe == observed(state, path@),
{
    Interception { forward_to: EntryPoint::Open64, probe: observe(state, path) }
}

/// A call of `openat64`.
pub fn sys_openat64(state: Lifecycle, dirfd: Directory, pathname: &[u8]) -> (r: Interception)
    ensures
        r.forward_to == EntryPoint::Openat64,
        r.probe == observed_at(state, dirfd, pathname@),
{
    let probe = match dirfd {
        Directory::Current => observe(state, pathname),
        Directory::Descriptor(_) => false,
    };
    Interception { forward_to: EntryPoint::Openat64, probe }
}

} // verus!

//! Which opened paths can be dependencies.
//!
//! Only source files are of interest: Nix expressions and JSON data. What
//! lies in the Nix store never changes, because its path is derived from
//! its content, so it is left out. A byte string with a NUL byte in it is
//! no path at all.

use vstd::prelude::*;
use crate::bytes::{check_path, ends_with, nul_free, starts_with};

verus! {

/// `.nix`
pub open spec fn nix_extension() -> Seq<u8> {
    seq![0x2eu8, 0x6eu8, 0x69u8, 0x78u8]
}

/// `.json`
pub open spec fn json_extension() -> Seq<u8> {
    seq![0x2eu8, 0x6au8, 0x73u8, 0x6fu8, 0x6eu8]
}

/// `/nix/store/`
pub open spec fn store_prefix() -> Seq<u8> {
    seq![
        0x2fu8,
        0x6eu8,
        0x69u8,
        0x78u8,
        0x2fu8,
        0x73u8,
        0x74u8,
        0x6fu8,
        0x72u8,
        0x65u8,
        0x2fu8,
    ]
}

/// The path ends in `.nix` or in `.json`.
pub open spec fn has_source_extension(path: Seq<u8>) -> bool {
    nix_extension().is_suffix_of(path) || json_extension().is_suffix_of(path)
}

/// The path lies under `/nix/store/`.
pub open spec fn in_store(path: Seq<u8>) -> bool {
    store_prefix().is_prefix_of(path)
}

/// The path can be a dependency: it has no NUL byte, ends in a source
/// extension and does not lie in the store.
pub open spec fn candidate(path: Seq<u8>) -> bool {
    nul_free(path) && has_source_extension(path) && !in_store(path)
}

/// Whether the path ends in `.nix` or in `.json`.
pub fn is_source_file(path: &[u8]) -> (r: bool)
    ensures
        r == has_source_extension(path@),
{
    let nix: [u8; 4] = [0x2e, 0x6e, 0x69, 0x78];
    let json: [u8; 5] = [0x2e, 0x6a, 0x73, 0x6f, 0x6e];
    ends_with(path, &nix) || ends_with(path, &json)
}

/// Whether the path lies under `/nix/store/`.
pub fn is_in_store(path: &[u8]) -> (r: bool)
    ensures
        r == in_store(path@),
{
    let store: [u8; 11] = [0x2f, 0x6e, 0x69, 0x78, 0x2f, 0x73, 0x74, 0x6f, 0x72, 0x65, 0x2f];
    starts_with(path, &store)
}

/// Whether the path can be a dependency.
pub fn is_candidate(path: &[u8]) -> (r: bool)
    ensures
        r == candidate(path@),
{
    is_source_file(path) && !is_in_store(path) && check_path(path)
}

} // verus!

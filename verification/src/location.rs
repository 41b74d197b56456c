//! Where the cache lies.
//!
//! The cache is a directory named `nix-eval-cache` under the directory that
//! `XDG_CACHE_HOME` names or, where that is not set, under the one that
//! `HOME` names. Where neither is set it is `.nix-eval-cache` in the working
//! directory. The entry of a command is the file in it that is named by the
//! key of the command.

use vstd::prelude::*;
use vstd::utf8::encode_utf8;
use crate::bytes::{append, bytes_view, copy_range};

verus! {

/// The name of the variable that names the directory for caches.
pub const XDG_CACHE_HOME_VARIABLE: &'static str = "XDG_CACHE_HOME";

/// The name of the variable that names the home directory.
pub const HOME_VARIABLE: &'static str = "HOME";

/// `/`
pub const SLASH: u8 = 0x2f;

/// `nix-eval-cache`
pub open spec fn cache_name() -> Seq<u8> {
    seq![
        0x6eu8,
        0x69u8,
        0x78u8,
        0x2du8,
        0x65u8,
        0x76u8,
        0x61u8,
        0x6cu8,
        0x2du8,
        0x63u8,
        0x61u8,
        0x63u8,
        0x68u8,
        0x65u8,
    ]
}

/// `.nix-eval-cache`
pub open spec fn fallback_cache() -> Seq<u8> {
    seq![0x2eu8] + cache_name()
}

/// The path of `name` under `base`. A `name` that begins with a slash
/// stands for itself. Otherwise it follows `base`, after a slash unless
/// `base` is empty or ends in one.
pub open spec fn joined(base: Seq<u8>, name: Seq<u8>) -> Seq<u8> {
    if name.len() > 0 && name[0] == SLASH {
        name
    } else if base.len() == 0 || base.last() == SLASH {
        base + name
    } else {
        base + seq![SLASH] + name
    }
}

/// The directory of the cache, given the two variables as they were found
/// in the environment.
pub open spec fn cache_location(xdg_cache_home: Option<Seq<u8>>, home: Option<Seq<u8>>) -> Seq<u8> {
    match (xdg_cache_home, home) {
        (Some(dir), _) => joined(dir, cache_name()),
        (None, Some(dir)) => joined(dir, cache_name()),
        (None, None) => fallback_cache(),
    }
}

/// The path of the entry that the key names in the cache directory.
pub open spec fn entry_location(cache_dir: Seq<u8>, key: Seq<char>) -> Seq<u8> {
    joined(cache_dir, encode_utf8(key))
}

/// The path of `name` under `base`.
pub fn join_path(base: &[u8], name: &[u8]) -> (path: Vec<u8>)
    ensures
        path@ == joined(base@, name@),
{
    if name.len() > 0 && name[0] == SLASH {
        let path = copy_range(name, 0, name.len());
        return path;
    }
    let mut path = copy_range(base, 0, base.len());
    if base.len() > 0 && base[base.len() - 1] != SLASH {
        path.push(SLASH);
    }
    append(&mut path, name);
    path
}

/// The directory of the cache: `xdg_cache_home` and `home` are the values
/// of `XDG_CACHE_HOME` and of `HOME`, or `None` where one is not set.
pub fn cache_dir(xdg_cache_home: Option<&[u8]>, home: Option<&[u8]>) -> (dir: Vec<u8>)
    ensures
        dir@ == cache_location(bytes_view(xdg_cache_home), bytes_view(home)),
{
    let name: [u8; 14] = [
        0x6e,
        0x69,
        0x78,
        0x2d,
        0x65,
        0x76,
        0x61,
        0x6c,
        0x2d,
        0x63,
        0x61,
        0x63,
        0x68,
        0x65,
    ];
    if let Some(dir) = xdg_cache_home {
        return join_path(dir, &name);
    }
    if let Some(dir) = home {
        return join_path(dir, &name);
    }
    let mut dir: Vec<u8> = Vec::new();
    dir.push(0x2e);
    append(&mut dir, &name);
    dir
}

/// The path of the entry that `key` names in `cache_dir`.
pub fn entry_path(cache_dir: &[u8], key: &str) -> (path: Vec<u8>)
    ensures
        path@ == entry_location(cache_dir@, key@),
{
    join_path(cache_dir, key.as_bytes())
}

} // verus!

use nix_eval_cache::location::{cache_dir, entry_path, join_path};
use std::path::Path;

#[test]
fn join_puts_one_slash_between() {
    assert_eq!(join_path(b"/home/user", b"nix-eval-cache"), b"/home/user/nix-eval-cache".to_vec());
    assert_eq!(join_path(b"/home/user/", b"nix-eval-cache"), b"/home/user/nix-eval-cache".to_vec());
    assert_eq!(join_path(b"/", b"x"), b"/x".to_vec());
    assert_eq!(join_path(b"rel", b"x"), b"rel/x".to_vec());
}

#[test]
fn join_with_an_empty_base_is_the_name() {
    assert_eq!(join_path(b"", b"nix-eval-cache"), b"nix-eval-cache".to_vec());
}

#[test]
fn join_with_an_absolute_name_is_the_name() {
    assert_eq!(join_path(b"/home/user", b"/etc"), b"/etc".to_vec());
}

#[test]
fn join_with_an_empty_name_ends_in_a_slash() {
    assert_eq!(join_path(b"/a", b""), b"/a/".to_vec());
    assert_eq!(join_path(b"/a/", b""), b"/a/".to_vec());
    assert_eq!(join_path(b"", b""), b"".to_vec());
}

#[test]
fn join_agrees_with_the_standard_library() {
    let parts = ["", "/", "a", "/a", "a/", "/a/b", "a//", ".."];
    for base in parts {
        for name in parts {
            let expected = Path::new(base).join(name);
            assert_eq!(
                join_path(base.as_bytes(), name.as_bytes()),
                expected.to_str().unwrap().as_bytes().to_vec(),
                "{:?} {:?}",
                base,
                name
            );
        }
    }
}

#[test]
fn cache_is_under_xdg_cache_home() {
    assert_eq!(
        cache_dir(Some(b"/home/user/.cache"), Some(b"/home/user")),
        b"/home/user/.cache/nix-eval-cache".to_vec()
    );
    assert_eq!(cache_dir(Some(b"/xdg"), None), b"/xdg/nix-eval-cache".to_vec());
    assert_eq!(cache_dir(Some(b""), Some(b"/home/user")), b"nix-eval-cache".to_vec());
}

#[test]
fn cache_is_under_home_without_xdg_cache_home() {
    assert_eq!(cache_dir(None, Some(b"/home/user")), b"/home/user/nix-eval-cache".to_vec());
    assert_eq!(cache_dir(None, Some(b"/")), b"/nix-eval-cache".to_vec());
}

#[test]
fn cache_falls_back_to_the_working_directory() {
    assert_eq!(cache_dir(None, None), b".nix-eval-cache".to_vec());
}

#[test]
fn entry_is_named_by_the_key() {
    assert_eq!(
        entry_path(b"/home/user/.cache/nix-eval-cache", "00ffa5"),
        b"/home/user/.cache/nix-eval-cache/00ffa5".to_vec()
    );
    assert_eq!(entry_path(b".nix-eval-cache", "ab"), b".nix-eval-cache/ab".to_vec());
}

use nix_eval_cache::filter::{is_candidate, is_in_store, is_source_file};

#[test]
fn nix_and_json_are_source_files() {
    assert!(is_source_file(b"/tmp/a.nix"));
    assert!(is_source_file(b"/tmp/data.json"));
    assert!(is_source_file(b".nix"));
    assert!(is_source_file(b"relative/flake.nix"));
    assert!(!is_source_file(b"/tmp/b.txt"));
    assert!(!is_source_file(b"/tmp/a.nix.bak"));
    assert!(!is_source_file(b"/tmp/anix"));
    assert!(!is_source_file(b"/tmp/a.NIX"));
    assert!(!is_source_file(b"/tmp/a.jso"));
    assert!(!is_source_file(b"nix"));
    assert!(!is_source_file(b""));
}

#[test]
fn store_is_everything_under_its_directory() {
    assert!(is_in_store(b"/nix/store/xyz/default.nix"));
    assert!(is_in_store(b"/nix/store/"));
    assert!(!is_in_store(b"/nix/store"));
    assert!(!is_in_store(b"/nix/storehouse/a.nix"));
    assert!(!is_in_store(b"/tmp/nix/store/a.nix"));
    assert!(!is_in_store(b"nix/store/a.nix"));
    assert!(!is_in_store(b""));
}

#[test]
fn candidates_are_source_files_outside_the_store() {
    assert!(is_candidate(b"/tmp/a.nix"));
    assert!(is_candidate(b"/tmp/missing.json"));
    assert!(is_candidate(b"/nix/storehouse/a.nix"));
    assert!(is_candidate(b"default.nix"));
    assert!(!is_candidate(b"/nix/store/xyz/default.nix"));
    assert!(!is_candidate(b"/tmp/b.txt"));
    assert!(!is_candidate(b"/tmp/\0/a.nix"));
    assert!(!is_candidate(b""));
}

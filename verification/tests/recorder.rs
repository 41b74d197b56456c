use nix_eval_cache::entry::parse_entry;
use nix_eval_cache::recorder::{record_path, DependencySet};

fn recorded_paths(set: &DependencySet) -> Vec<Vec<u8>> {
    set.paths().clone()
}

#[test]
fn only_existing_source_files_outside_the_store_are_recorded() {
    // Only /tmp/a.nix exists as a regular file.
    let probes: [(&[u8], bool); 4] = [
        (b"/tmp/a.nix", true),
        (b"/nix/store/xyz/default.nix", false),
        (b"/tmp/b.txt", false),
        (b"/tmp/missing.json", false),
    ];
    let mut set = DependencySet::new();
    for (path, regular_file) in probes {
        record_path(&mut set, path, regular_file);
    }
    assert_eq!(recorded_paths(&set), vec![b"/tmp/a.nix".to_vec()]);
}

#[test]
fn store_paths_and_other_extensions_are_not_recorded_even_if_they_exist() {
    let mut set = DependencySet::new();
    assert!(!record_path(&mut set, b"/nix/store/xyz/default.nix", true));
    assert!(!record_path(&mut set, b"/tmp/b.txt", true));
    assert!(!record_path(&mut set, b"/tmp/a.nix\0", true));
    assert!(!record_path(&mut set, b"", true));
    assert_eq!(set.len(), 0);
}

#[test]
fn same_path_opened_twice_is_recorded_once() {
    let mut set = DependencySet::new();
    assert!(record_path(&mut set, b"/src/default.nix", true));
    assert!(!record_path(&mut set, b"/src/default.nix", true));
    assert_eq!(set.len(), 1);
    assert_eq!(recorded_paths(&set), vec![b"/src/default.nix".to_vec()]);
}

#[test]
fn paths_are_kept_in_the_order_first_seen() {
    let mut set = DependencySet::new();
    record_path(&mut set, b"/src/b.nix", true);
    record_path(&mut set, b"/src/a.json", true);
    record_path(&mut set, b"/src/b.nix", true);
    record_path(&mut set, b"/src/c.nix", false);
    assert_eq!(recorded_paths(&set), vec![b"/src/b.nix".to_vec(), b"/src/a.json".to_vec()]);
    assert!(set.contains(b"/src/a.json"));
    assert!(!set.contains(b"/src/c.nix"));
}

#[test]
fn a_path_that_was_missing_is_recorded_once_it_exists() {
    let mut set = DependencySet::new();
    assert!(!record_path(&mut set, b"/src/late.nix", false));
    assert!(record_path(&mut set, b"/src/late.nix", true));
    assert_eq!(set.len(), 1);
}

#[test]
fn report_lists_each_path_with_a_terminator() {
    let mut set = DependencySet::new();
    assert_eq!(set.report(), Vec::<u8>::new());
    record_path(&mut set, b"/src/a.nix", true);
    record_path(&mut set, b"/src/b.json", true);
    record_path(&mut set, b"/src/a.nix", true);
    assert_eq!(set.report(), b"/src/a.nix\0/src/b.json\0".to_vec());
}

#[test]
fn insert_takes_any_path_once() {
    let mut set = DependencySet::new();
    assert!(set.insert(b"/etc/hosts"));
    assert!(!set.insert(b"/etc/hosts"));
    assert!(!set.insert(b""));
    assert!(!set.insert(b"a\0b"));
    assert_eq!(set.len(), 1);
}

#[test]
fn report_of_a_process_is_read_back_from_the_entry() {
    let mut set = DependencySet::new();
    record_path(&mut set, b"/src/first.nix", true);
    record_path(&mut set, b"/src/second.nix", true);
    let mut bytes = set.report();
    bytes.extend_from_slice(b"\0/nix/store/r");
    let entry = parse_entry(&bytes).unwrap();
    assert_eq!(entry.dependencies, recorded_paths(&set));
    assert_eq!(entry.result, b"/nix/store/r".to_vec());
}

use nix_eval_cache::entry::{
    entry_trailer, parse_entry, serialize_entry, serialize_report, CacheEntry,
};

fn paths(items: &[&[u8]]) -> Vec<Vec<u8>> {
    items.iter().map(|p| p.to_vec()).collect()
}

#[test]
fn parse_reads_dependencies_and_result() {
    let entry = parse_entry(b"/src/a.nix\0/src/b.json\0\0/nix/store/xyz-result").unwrap();
    assert_eq!(entry.dependencies, paths(&[b"/src/a.nix", b"/src/b.json"]));
    assert_eq!(entry.result, b"/nix/store/xyz-result".to_vec());
}

#[test]
fn parse_reads_an_entry_without_dependencies() {
    let entry = parse_entry(b"\0/nix/store/xyz-result").unwrap();
    assert!(entry.dependencies.is_empty());
    assert_eq!(entry.result, b"/nix/store/xyz-result".to_vec());
}

#[test]
fn parse_skips_further_empty_records_before_the_result() {
    let entry = parse_entry(b"a\0\0\0\0r").unwrap();
    assert_eq!(entry.dependencies, paths(&[b"a"]));
    assert_eq!(entry.result, b"r".to_vec());
}

#[test]
fn parse_ignores_what_follows_the_result() {
    let entry = parse_entry(b"a\0\0r\0x\0y").unwrap();
    assert_eq!(entry.dependencies, paths(&[b"a"]));
    assert_eq!(entry.result, b"r".to_vec());
}

#[test]
fn parse_accepts_a_terminated_result() {
    let entry = parse_entry(b"a\0\0r\0").unwrap();
    assert_eq!(entry.result, b"r".to_vec());
}

#[test]
fn parse_finds_no_entry_without_a_sentinel() {
    assert_eq!(parse_entry(b"a\0b"), None);
    assert_eq!(parse_entry(b"a\0b\0"), None);
    assert_eq!(parse_entry(b"a"), None);
}

#[test]
fn parse_finds_no_entry_without_a_result() {
    assert_eq!(parse_entry(b""), None);
    assert_eq!(parse_entry(b"\0"), None);
    assert_eq!(parse_entry(b"\0\0"), None);
    assert_eq!(parse_entry(b"a\0\0"), None);
    assert_eq!(parse_entry(b"a\0b\0\0\0"), None);
}

#[test]
fn report_terminates_every_path() {
    assert_eq!(serialize_report(&paths(&[b"/a.nix", b"/b.nix"])), b"/a.nix\0/b.nix\0".to_vec());
    assert_eq!(serialize_report(&paths(&[])), Vec::<u8>::new());
    assert_eq!(serialize_report(&paths(&[b"x"])), b"x\0".to_vec());
}

#[test]
fn trailer_is_sentinel_and_result() {
    assert_eq!(entry_trailer(b"/nix/store/r"), b"\0/nix/store/r".to_vec());
    assert_eq!(entry_trailer(b""), b"\0".to_vec());
}

#[test]
fn entry_is_report_sentinel_result() {
    let entry = CacheEntry {
        dependencies: paths(&[b"/src/first.nix", b"/src/second.nix"]),
        result: b"/nix/store/r".to_vec(),
    };
    assert_eq!(serialize_entry(&entry), b"/src/first.nix\0/src/second.nix\0\0/nix/store/r".to_vec());
}

#[test]
fn entry_survives_writing_and_reading() {
    let entry = CacheEntry {
        dependencies: paths(&[b"/src/first.nix", b"/src/second.json"]),
        result: b"/nix/store/abc-result".to_vec(),
    };
    let read = parse_entry(&serialize_entry(&entry)).unwrap();
    let mut stored = entry.dependencies.clone();
    let mut found = read.dependencies.clone();
    stored.sort();
    found.sort();
    assert_eq!(found, stored);
    assert_eq!(read.result, entry.result);
    assert_eq!(read, entry);
}

#[test]
fn entry_without_dependencies_survives_writing_and_reading() {
    let entry = CacheEntry { dependencies: Vec::new(), result: b"/r".to_vec() };
    assert_eq!(parse_entry(&serialize_entry(&entry)), Some(entry));
}

#[test]
fn report_and_trailer_make_an_entry() {
    let mut bytes = serialize_report(&paths(&[b"/a.nix"]));
    bytes.extend_from_slice(&entry_trailer(b"/r"));
    let entry = parse_entry(&bytes).unwrap();
    assert_eq!(entry.dependencies, paths(&[b"/a.nix"]));
    assert_eq!(entry.result, b"/r".to_vec());
}

use nix_eval_cache::key::{encode_key, get_cache_key, hashed_bytes};

fn command(words: &[&str]) -> Vec<String> {
    words.iter().map(|w| w.to_string()).collect()
}

#[test]
fn key_is_the_same_on_every_call() {
    let cmd = command(&["nix-build", "-A", "hello", "default.nix"]);
    let first = get_cache_key(&cmd, b"/home/user/project");
    let second = get_cache_key(&cmd, b"/home/user/project");
    assert_eq!(first, second);
}

#[test]
fn key_of_no_arguments_in_no_directory_is_the_digest_of_nothing() {
    let cmd = command(&["nix-build"]);
    assert_eq!(
        get_cache_key(&cmd, b""),
        "69217a3079908094e11121d042354a7c1f55b6482ca1a51e1b250dfd1ed0eef9"
    );
}

#[test]
fn key_of_an_empty_command_is_the_digest_of_the_directory() {
    let cmd: Vec<String> = Vec::new();
    assert_eq!(
        get_cache_key(&cmd, b"abc"),
        "508c5e8c327c14e2e1a72ba34eeb452f37458b209ed63a294d999b4c86675982"
    );
}

#[test]
fn key_hashes_arguments_then_directory() {
    let cmd = command(&["nix-build", "a", "b"]);
    assert_eq!(
        get_cache_key(&cmd, b"c"),
        "508c5e8c327c14e2e1a72ba34eeb452f37458b209ed63a294d999b4c86675982"
    );
}

#[test]
fn key_has_sixty_four_lowercase_hex_digits() {
    let cmd = command(&["nix-instantiate", "--eval", "x.nix"]);
    let key = get_cache_key(&cmd, b"/tmp");
    assert_eq!(key.len(), 64);
    assert!(key.bytes().all(|b| b.is_ascii_digit() || (b'a'..=b'f').contains(&b)));
}

#[test]
fn key_ignores_the_program_name() {
    let one = command(&["nix-build", "-A", "hello"]);
    let other = command(&["/usr/bin/nix-build", "-A", "hello"]);
    assert_eq!(get_cache_key(&one, b"/src"), get_cache_key(&other, b"/src"));
}

#[test]
fn key_changes_with_one_argument_byte() {
    let one = command(&["nix-build", "-A", "hello"]);
    let other = command(&["nix-build", "-A", "hellp"]);
    assert_ne!(get_cache_key(&one, b"/src"), get_cache_key(&other, b"/src"));
}

#[test]
fn key_changes_with_the_working_directory() {
    let cmd = command(&["nix-build", "-A", "hello"]);
    assert_ne!(get_cache_key(&cmd, b"/src/a"), get_cache_key(&cmd, b"/src/b"));
}

#[test]
fn key_sees_no_boundary_between_arguments() {
    let one = command(&["nix-build", "ab", "c"]);
    let other = command(&["nix-build", "a", "bc"]);
    assert_eq!(get_cache_key(&one, b"/"), get_cache_key(&other, b"/"));
}

#[test]
fn hashed_bytes_are_arguments_then_directory() {
    let cmd = command(&["nix-build", "-A", "hello"]);
    assert_eq!(hashed_bytes(&cmd, b"/src"), b"-Ahello/src".to_vec());
}

#[test]
fn hashed_bytes_of_an_empty_command() {
    let cmd: Vec<String> = Vec::new();
    assert_eq!(hashed_bytes(&cmd, b"/src"), b"/src".to_vec());
}

#[test]
fn hashed_bytes_keep_utf8() {
    let cmd = command(&["p", "\u{e9}"]);
    assert_eq!(hashed_bytes(&cmd, b""), vec![0xc3, 0xa9]);
}

#[test]
fn encode_key_writes_two_digits_per_byte() {
    assert_eq!(encode_key(&[1, 2, 3, 15, 16]), "0102030f10");
    assert_eq!(encode_key(b"Hello world!"), "48656c6c6f20776f726c6421");
    assert_eq!(encode_key(&[0x00, 0xff, 0xa5]), "00ffa5");
    assert_eq!(encode_key(&[]), "");
}

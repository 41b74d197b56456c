use nix_eval_cache::channel::REPORT_FD_VARIABLE;
use nix_eval_cache::coordinator::{Action, Coordinator, Event, Stage, PRELOAD_VARIABLE};
use nix_eval_cache::location::{HOME_VARIABLE, XDG_CACHE_HOME_VARIABLE};
use nix_eval_cache::entry::parse_entry;
use nix_eval_cache::files::FileTable;
use nix_eval_cache::key::get_cache_key;
use nix_eval_cache::recorder::{record_path, DependencySet};
use nix_eval_cache::validity::{check_cache, EntryFile};

fn words(items: &[&str]) -> Vec<String> {
    items.iter().map(|w| w.to_string()).collect()
}

fn invoked(args: &[&str]) -> Event {
    Event::Started {
        args: words(args),
        cwd: b"/src/project".to_vec(),
        xdg_cache_home: Some(b"/home/user/.cache".to_vec()),
        home: Some(b"/home/user".to_vec()),
        layer: b"/usr/lib/librecordaccess.so".to_vec(),
    }
}

fn spawn_with(report_fd: &[u8]) -> Action {
    Action::Spawn {
        command: words(&["nix-build", "-A", "hello"]),
        preload: b"/usr/lib/librecordaccess.so".to_vec(),
        report_fd: report_fd.to_vec(),
        result_file: "result".to_string(),
    }
}

fn entry_of_build() -> Vec<u8> {
    let key = get_cache_key(&words(&["nix-build", "-A", "hello"]), b"/src/project");
    format!("/home/user/.cache/nix-eval-cache/{}", key).into_bytes()
}

fn at_compute_key() -> Coordinator {
    let (c, action) = Coordinator::new().step(invoked(&["tool", "result", "nix-build", "-A", "hello"]));
    assert_eq!(action, Action::ProbeResultFile("result".to_string()));
    assert_eq!(c.stage(), Stage::ComputeKey);
    c
}

fn at_wait_child() -> Coordinator {
    let (c, _) = at_compute_key().step(Event::ResultFile(false));
    let (c, _) = c.step(Event::Prepared(5));
    assert_eq!(c.stage(), Stage::WaitChild);
    c
}

#[test]
fn too_few_arguments_end_with_the_usage() {
    for args in [&["tool"][..], &["tool", "result"]] {
        let (c, action) = Coordinator::new().step(invoked(args));
        assert_eq!(action, Action::Usage { program: Some("tool".to_string()) });
        assert_eq!(c.stage(), Stage::Done);
    }
    let (c, action) = Coordinator::new().step(invoked(&[]));
    assert_eq!(action, Action::Usage { program: None });
    assert_eq!(c.stage(), Stage::Done);
}

#[test]
fn invocation_starts_by_probing_the_result_file() {
    let c = Coordinator::new();
    assert_eq!(c.stage(), Stage::Start);
    at_compute_key();
}

#[test]
fn existing_result_leads_to_the_check_of_the_entry() {
    let (c, action) = at_compute_key().step(Event::ResultFile(true));
    assert_eq!(action, Action::CheckEntry(entry_of_build()));
    assert_eq!(c.stage(), Stage::CheckEntry);
}

#[test]
fn valid_entry_skips_the_command() {
    let (c, _) = at_compute_key().step(Event::ResultFile(true));
    let (c, action) = c.step(Event::EntryChecked(true));
    assert_eq!(action, Action::Skip);
    assert_eq!(c.stage(), Stage::Done);
}

#[test]
fn invalid_entry_runs_the_command() {
    let (c, _) = at_compute_key().step(Event::ResultFile(true));
    let (c, action) = c.step(Event::EntryChecked(false));
    assert_eq!(action, Action::Prepare(b"/home/user/.cache/nix-eval-cache".to_vec()));
    assert_eq!(c.stage(), Stage::SpawnChild);
}

#[test]
fn missing_result_runs_the_command_without_a_check() {
    let (c, action) = at_compute_key().step(Event::ResultFile(false));
    assert_eq!(action, Action::Prepare(b"/home/user/.cache/nix-eval-cache".to_vec()));
    assert_eq!(c.stage(), Stage::SpawnChild);
}

#[test]
fn command_is_spawned_with_the_descriptor_of_the_report() {
    let (c, _) = at_compute_key().step(Event::ResultFile(false));
    let (c, action) = c.step(Event::Prepared(5));
    assert_eq!(action, spawn_with(b"5"));
    assert_eq!(c.stage(), Stage::WaitChild);
    let (c, _) = at_compute_key().step(Event::ResultFile(false));
    let (_, action) = c.step(Event::Prepared(1234));
    assert_eq!(action, spawn_with(b"1234"));
}

#[test]
fn successful_command_is_stored_and_its_code_returned() {
    let exited = Event::ChildExited { code: Some(0), result: Some(b"/nix/store/r".to_vec()) };
    let (c, action) = at_wait_child().step(exited);
    assert_eq!(
        action,
        Action::Persist { trailer: b"\0/nix/store/r".to_vec(), entry: entry_of_build() }
    );
    assert_eq!(c.stage(), Stage::PersistEntry);
    let (c, action) = c.step(Event::Persisted);
    assert_eq!(action, Action::Exit(0));
    assert_eq!(c.stage(), Stage::Done);
}

#[test]
fn failed_command_is_not_stored_and_its_code_returned() {
    let exited = Event::ChildExited { code: Some(2), result: Some(b"/nix/store/r".to_vec()) };
    let (c, action) = at_wait_child().step(exited);
    assert_eq!(action, Action::Exit(2));
    assert_eq!(c.stage(), Stage::Done);
    let (_, action) = at_wait_child().step(Event::ChildExited { code: Some(-1), result: None });
    assert_eq!(action, Action::Exit(-1));
}

#[test]
fn command_without_a_result_is_not_stored() {
    let (c, action) = at_wait_child().step(Event::ChildExited { code: Some(0), result: None });
    assert_eq!(action, Action::Exit(0));
    assert_eq!(c.stage(), Stage::Done);
}

#[test]
fn command_ended_by_a_signal_is_not_stored() {
    let exited = Event::ChildExited { code: None, result: Some(b"/nix/store/r".to_vec()) };
    let (c, action) = at_wait_child().step(exited);
    assert_eq!(action, Action::Signaled);
    assert_eq!(c.stage(), Stage::Done);
}

#[test]
fn event_that_is_not_awaited_ends_the_invocation() {
    let (c, action) = Coordinator::new().step(Event::ResultFile(true));
    assert_eq!(action, Action::Abort);
    assert_eq!(c.stage(), Stage::Done);
    let (c, action) = at_compute_key().step(Event::EntryChecked(true));
    assert_eq!(action, Action::Abort);
    assert_eq!(c.stage(), Stage::Done);
    let (_, action) = at_wait_child().step(Event::Persisted);
    assert_eq!(action, Action::Abort);
    let (_, action) = at_compute_key().step(invoked(&["tool", "result", "nix-build"]));
    assert_eq!(action, Action::Abort);
}

#[test]
fn finished_invocation_stays_finished() {
    let (c, _) = at_compute_key().step(Event::ResultFile(true));
    let (c, _) = c.step(Event::EntryChecked(true));
    let (c, action) = c.step(Event::ResultFile(true));
    assert_eq!(action, Action::Abort);
    assert_eq!(c.stage(), Stage::Done);
}

#[test]
fn cache_falls_back_when_no_variable_is_set() {
    let started = Event::Started {
        args: words(&["tool", "result", "nix-build"]),
        cwd: b"/src".to_vec(),
        xdg_cache_home: None,
        home: None,
        layer: Vec::new(),
    };
    let (c, _) = Coordinator::new().step(started);
    let (_, action) = c.step(Event::ResultFile(false));
    assert_eq!(action, Action::Prepare(b".nix-eval-cache".to_vec()));
}

#[test]
fn second_run_on_an_unchanged_tree_skips_the_command() {
    let now: i128 = 1_700_000_000_000_000_000;
    let mut files = FileTable::new();
    files.set(b"/src/project/default.nix", now - 50);
    files.set(b"/src/project/deps.json", now - 40);

    // First run: no result yet, so the command runs.
    let (c, action) = at_compute_key().step(Event::ResultFile(false));
    assert_eq!(action, Action::Prepare(b"/home/user/.cache/nix-eval-cache".to_vec()));
    let (c, action) = c.step(Event::Prepared(3));
    assert!(matches!(action, Action::Spawn { .. }));
    // The command opens its sources, and the layer reports them.
    let mut set = DependencySet::new();
    for path in [&b"/src/project/default.nix"[..], b"/src/project/deps.json", b"/etc/nix/nix.conf"] {
        record_path(&mut set, path, true);
    }
    let mut report_file = set.report();
    files.set(b"/nix/store/abc-hello", now - 1);
    let exited = Event::ChildExited { code: Some(0), result: Some(b"/nix/store/abc-hello".to_vec()) };
    let (c, action) = c.step(exited);
    let entry_path = match action {
        Action::Persist { trailer, entry } => {
            report_file.extend_from_slice(&trailer);
            entry
        }
        other => panic!("{:?}", other),
    };
    let (_, action) = c.step(Event::Persisted);
    assert_eq!(action, Action::Exit(0));
    let stored = EntryFile { contents: report_file, modified: now };

    // Second run: the result is there and the entry is valid.
    let (c, action) = at_compute_key().step(Event::ResultFile(true));
    assert_eq!(action, Action::CheckEntry(entry_path));
    let valid = check_cache(Some(stored.clone()), &files);
    assert!(valid);
    let (_, action) = c.step(Event::EntryChecked(valid));
    assert_eq!(action, Action::Skip);
    assert_eq!(parse_entry(&stored.contents).unwrap().result, b"/nix/store/abc-hello".to_vec());

    // A source is touched: the third run runs the command again.
    files.set(b"/src/project/deps.json", now + 1);
    let (c, _) = at_compute_key().step(Event::ResultFile(true));
    let valid = check_cache(Some(stored), &files);
    assert!(!valid);
    let (_, action) = c.step(Event::EntryChecked(valid));
    assert!(matches!(action, Action::Prepare(_)));
}

#[test]
fn endings_have_their_exit_codes() {
    assert_eq!(Action::Usage { program: None }.exit_code(), Some(1));
    assert_eq!(Action::Skip.exit_code(), Some(0));
    assert_eq!(Action::Exit(0).exit_code(), Some(0));
    assert_eq!(Action::Exit(42).exit_code(), Some(42));
    assert_eq!(Action::Abort.exit_code(), Some(1));
    assert_eq!(Action::Signaled.exit_code(), None);
    assert_eq!(Action::Prepare(Vec::new()).exit_code(), None);
    assert_eq!(Action::ProbeResultFile(String::new()).exit_code(), None);
    assert_eq!(spawn_with(b"3").exit_code(), None);
}

#[test]
fn variables_have_their_names() {
    assert_eq!(PRELOAD_VARIABLE, "LD_PRELOAD");
    assert_eq!(REPORT_FD_VARIABLE, "NIX_EVAL_CACHE_FD");
    assert_eq!(XDG_CACHE_HOME_VARIABLE, "XDG_CACHE_HOME");
    assert_eq!(HOME_VARIABLE, "HOME");
}

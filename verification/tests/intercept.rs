use nix_eval_cache::intercept::{
    sys_open, sys_open64, sys_openat, sys_openat64, Directory, EntryPoint, Interception,
};
use nix_eval_cache::lifecycle::Lifecycle;

#[test]
fn open_is_forwarded_and_source_files_are_probed() {
    assert_eq!(
        sys_open(Lifecycle::Initialized, b"/src/a.nix"),
        Interception { forward_to: EntryPoint::Open, probe: true }
    );
    assert_eq!(
        sys_open(Lifecycle::Initialized, b"/etc/passwd"),
        Interception { forward_to: EntryPoint::Open, probe: false }
    );
    assert_eq!(
        sys_open(Lifecycle::Initialized, b"/nix/store/x/a.nix"),
        Interception { forward_to: EntryPoint::Open, probe: false }
    );
}

#[test]
fn open64_is_forwarded_to_the_wide_variant() {
    assert_eq!(
        sys_open64(Lifecycle::Initialized, b"/src/a.json"),
        Interception { forward_to: EntryPoint::Open64, probe: true }
    );
    assert_eq!(
        sys_open64(Lifecycle::Initialized, b"/src/a.c"),
        Interception { forward_to: EntryPoint::Open64, probe: false }
    );
}

#[test]
fn openat_looks_only_at_the_current_directory() {
    assert_eq!(
        sys_openat(Lifecycle::Initialized, Directory::Current, b"a.nix"),
        Interception { forward_to: EntryPoint::Openat, probe: true }
    );
    assert_eq!(
        sys_openat(Lifecycle::Initialized, Directory::Descriptor(7), b"a.nix"),
        Interception { forward_to: EntryPoint::Openat, probe: false }
    );
    assert_eq!(
        sys_openat(Lifecycle::Initialized, Directory::Current, b"a.txt"),
        Interception { forward_to: EntryPoint::Openat, probe: false }
    );
}

#[test]
fn openat64_looks_only_at_the_current_directory() {
    assert_eq!(
        sys_openat64(Lifecycle::Initialized, Directory::Current, b"/src/a.nix"),
        Interception { forward_to: EntryPoint::Openat64, probe: true }
    );
    assert_eq!(
        sys_openat64(Lifecycle::Initialized, Directory::Descriptor(0), b"/src/a.nix"),
        Interception { forward_to: EntryPoint::Openat64, probe: false }
    );
}

#[test]
fn paths_are_looked_at_until_the_layer_has_finished() {
    for state in [Lifecycle::Uninitialized, Lifecycle::Initializing, Lifecycle::Initialized] {
        assert!(sys_open(state, b"/src/a.nix").probe);
        assert!(sys_openat(state, Directory::Current, b"/src/a.nix").probe);
    }
    assert!(!sys_open(Lifecycle::Finished, b"/src/a.nix").probe);
    assert!(!sys_open64(Lifecycle::Finished, b"/src/a.nix").probe);
    assert!(!sys_openat(Lifecycle::Finished, Directory::Current, b"/src/a.nix").probe);
    assert!(!sys_openat64(Lifecycle::Finished, Directory::Current, b"/src/a.nix").probe);
    assert_eq!(sys_open(Lifecycle::Finished, b"/src/a.nix").forward_to, EntryPoint::Open);
}

#[test]
fn entry_points_are_looked_up_by_their_names() {
    assert_eq!(EntryPoint::Open.symbol(), "open");
    assert_eq!(EntryPoint::Openat.symbol(), "openat");
    assert_eq!(EntryPoint::Open64.symbol(), "open64");
    assert_eq!(EntryPoint::Openat64.symbol(), "openat64");
}

use scan_nix::error::{ErrorKind, ScanError};
use scan_nix::expand::{expand, filter_store_paths, DependencyPath, ExpandedEntry};
use scan_nix::packages::discover_packages;
use scan_nix::paths::{is_child_of, normalize, strip};

fn strings(names: &[&str]) -> Vec<String> {
    names.iter().map(|s| s.to_string()).collect()
}

#[test]
fn strip_drops_first_character() {
    assert_eq!(strip("/abc"), "abc");
    assert_eq!(strip("a"), "");
    assert_eq!(strip(""), "");
}

#[test]
fn normalize_rewrites_paths_under_root() {
    assert_eq!(normalize("/ws/a/b", "/ws").unwrap(), "a/b");
}

#[test]
fn normalize_drops_paths_outside_root() {
    assert_eq!(normalize("/other/x", "/ws"), None);
    assert_eq!(normalize("/ws", "/ws"), None);
    // prefix match must stop at a component boundary
    assert_eq!(normalize("/wsx/a", "/ws"), None);
}

#[test]
fn child_test_is_component_aware() {
    assert!(is_child_of("/a/b", "/a"));
    assert!(is_child_of("/a", "/a"));
    assert!(!is_child_of("/a/bc", "/a/b"));
    assert!(is_child_of("anything", ""));
}

#[test]
fn child_test_accepts_trailing_separator_directories() {
    // every absolute path lies under the root directory
    assert!(is_child_of("/a/b", "/"));
    assert!(!is_child_of("relative", "/"));
    assert!(is_child_of("/a/b", "/a/"));
    assert!(!is_child_of("/ab", "/a/"));
}

#[test]
fn store_paths_are_filtered() {
    let kept = filter_store_paths(vec![
        DependencyPath::File("/nix/store/abc-pkg/file".to_string()),
        DependencyPath::File("/ws/x".to_string()),
        DependencyPath::Directory("/nix/store".to_string()),
        DependencyPath::Directory("/ws/dir".to_string()),
    ]);
    let paths: Vec<String> = kept
        .into_iter()
        .map(|e| match e {
            DependencyPath::File(p) => p,
            DependencyPath::Directory(p) => p,
        })
        .collect();
    assert_eq!(paths, strings(&["/ws/x", "/ws/dir"]));
}

#[test]
fn expansion_flattens_in_discovery_order() {
    let out = expand(vec![
        ExpandedEntry::File("/w/x".to_string()),
        ExpandedEntry::DirectoryFiles(strings(&["/w/a", "/w/b"])),
    ]);
    assert_eq!(out, strings(&["/w/x", "/w/a", "/w/b"]));
}

#[test]
fn overlapping_entries_do_not_duplicate() {
    let out = expand(vec![
        ExpandedEntry::File("/w/x".to_string()),
        ExpandedEntry::DirectoryFiles(strings(&["/w/a", "/w/x", "/w/b", "/w/a"])),
        ExpandedEntry::DirectoryFiles(strings(&["/w/b", "/w/c"])),
    ]);
    assert_eq!(out, strings(&["/w/x", "/w/a", "/w/b", "/w/c"]));
}

#[test]
fn packages_are_marker_parents() {
    let paths = strings(&[
        "a/default.nix",
        "a/b/x",
        "default.nix",
        "c/y",
        "a/default.nix",
    ]);
    let pkgs = discover_packages(&paths, "default.nix");
    assert_eq!(pkgs, strings(&["a", ""]));
}

#[test]
fn marker_must_equal_final_component_exactly() {
    let paths = strings(&["a/my_default.nixthing", "b/xdefault.nix", "c/default.nix.bak"]);
    let pkgs = discover_packages(&paths, "default.nix");
    assert!(pkgs.is_empty());
}

#[test]
fn scan_error_keeps_kind_and_message() {
    let e = ScanError::new(ErrorKind::IoError, "boom".to_string());
    assert!(matches!(e.kind, ErrorKind::IoError));
    assert_eq!(e.msg, "boom");
    let e2 = ScanError::new_from_str(ErrorKind::Other, "odd");
    assert!(matches!(e2.kind, ErrorKind::Other));
    assert_eq!(e2.msg, "odd");
}

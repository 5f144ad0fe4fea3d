use scan_nix::label::_to_bazel_label;

fn packages(names: &[&str]) -> Vec<String> {
    names.iter().map(|s| s.to_string()).collect()
}

fn resolve(path: &str, pkgs: &[&str]) -> Option<String> {
    _to_bazel_label(path, &packages(pkgs))
}

#[test]
fn root_fallback() {
    assert_eq!(resolve("z", &[]).unwrap(), "//:z");
}

#[test]
fn direct_child_of_package() {
    assert_eq!(resolve("a/b", &["a"]).unwrap(), "//a:b");
}

#[test]
fn two_level_package() {
    assert_eq!(resolve("c/d/e", &["c/d"]).unwrap(), "//c/d:e");
}

#[test]
fn three_level_package() {
    assert_eq!(resolve("f/g/h/i", &["f/g/h"]).unwrap(), "//f/g/h:i");
}

#[test]
fn nested_target_kept() {
    assert_eq!(resolve("j/k/l/m", &["j/k"]).unwrap(), "//j/k:l/m");
}

#[test]
fn deep_nested_target_kept() {
    assert_eq!(resolve("n/o/p/r/s/q", &["n/o/p"]).unwrap(), "//n/o/p:r/s/q");
}

#[test]
fn full_package_set_table() {
    let pkgs = ["a", "c/d", "f/g/h", "j/k", "n/o/p"];
    let cases = [
        ("z", "//:z"),
        ("a/b", "//a:b"),
        ("c/d/e", "//c/d:e"),
        ("f/g/h/i", "//f/g/h:i"),
        ("j/k/l/m", "//j/k:l/m"),
        ("n/o/p/r/s/q", "//n/o/p:r/s/q"),
    ];
    for (input, expected) in cases {
        assert_eq!(resolve(input, &pkgs).unwrap(), expected);
    }
}

#[test]
fn longest_match_wins() {
    assert_eq!(resolve("a/b/c", &["a", "a/b"]).unwrap(), "//a/b:c");
    assert_eq!(resolve("a/b/c", &["a/b", "a"]).unwrap(), "//a/b:c");
}

#[test]
fn root_fallback_drops_directories() {
    assert_eq!(resolve("x/y/z", &[]).unwrap(), "//:z");
}

#[test]
fn marker_file_resolves_to_its_own_package() {
    assert_eq!(
        resolve("a/default.nix", &["a"]).unwrap(),
        "//a:default.nix"
    );
}

#[test]
fn no_file_component_resolves_to_nothing() {
    assert_eq!(resolve("", &["a"]), None);
    assert_eq!(resolve("/", &["a"]), None);
}

#[test]
fn trailing_separators_are_ignored() {
    // the final normal component still resolves, as Path::file_name reads it
    assert_eq!(resolve("a/", &[]).unwrap(), "//:a");
    assert_eq!(resolve("a/b/", &["a"]).unwrap(), "//a:b");
    assert_eq!(resolve("a/b//", &["a"]).unwrap(), "//a:b");
}

#[test]
fn parent_components_resolve_to_nothing() {
    assert_eq!(resolve("..", &["a"]), None);
    assert_eq!(resolve("a/..", &["a"]), None);
    assert_eq!(resolve("a/../", &["a"]), None);
}

#[test]
fn lone_dot_components_are_ignored() {
    assert_eq!(resolve(".", &["a"]), None);
    assert_eq!(resolve("./", &["a"]), None);
    assert_eq!(resolve("a/.", &[]).unwrap(), "//:a");
    assert_eq!(resolve("a/b/.", &["a"]).unwrap(), "//a:b");
    // a name that merely ends in dots is an ordinary file name
    assert_eq!(resolve("a/...", &["a"]).unwrap(), "//a:...");
    assert_eq!(resolve("a/b.", &["a"]).unwrap(), "//a:b.");
}

#[test]
fn root_package_keeps_root_fallback_form() {
    // the empty string denotes the workspace root package; resolution ends in
    // the same `//:<filename>` form as when no package matches
    assert_eq!(resolve("x", &[""]).unwrap(), "//:x");
}

#[test]
fn multibyte_characters_resolve() {
    assert_eq!(resolve("päck/dätei", &["päck"]).unwrap(), "//päck:dätei");
}

#[test]
fn package_boundary_is_component_aware() {
    // "ab" is not under package "a"
    assert_eq!(resolve("ab/c", &["a"]).unwrap(), "//:c");
}

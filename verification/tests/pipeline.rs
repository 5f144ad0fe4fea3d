use scan_nix::expand::ExpandedEntry;
use scan_nix::scan::{partition, project_file_arg, scan_depsets, DepSets};
use scan_nix::error::ErrorKind;

fn strings(names: &[&str]) -> Vec<String> {
    names.iter().map(|s| s.to_string()).collect()
}

fn sample_entries() -> Vec<ExpandedEntry> {
    vec![
        ExpandedEntry::File("/ws/proj/default.nix".to_string()),
        ExpandedEntry::DirectoryFiles(strings(&[
            "/ws/proj/src/main.c",
            "/ws/lib/default.nix",
            "/ws/lib/util.c",
            "/other/out.txt",
            "/ws/proj/src/main.c",
        ])),
    ]
}

fn run() -> DepSets {
    scan_depsets(sample_entries(), "/ws", "/ws/proj", "default.nix")
}

#[test]
fn depsets_have_fixed_kinds_and_order() {
    let r = run();
    assert_eq!(r.depsets.len(), 2);
    assert_eq!(r.depsets[0].kind, "recursive");
    assert_eq!(r.depsets[1].kind, "direct");
}

#[test]
fn recursive_holds_every_dependency_as_label() {
    let r = run();
    assert_eq!(
        r.depsets[0].files,
        strings(&[
            "//proj:default.nix",
            "//proj:src/main.c",
            "//lib:default.nix",
            "//lib:util.c",
        ])
    );
}

#[test]
fn direct_holds_unit_relative_paths() {
    let r = run();
    assert_eq!(r.depsets[1].files, strings(&["default.nix", "src/main.c"]));
}

#[test]
fn paths_outside_workspace_are_silently_dropped() {
    let r = run();
    for ds in &r.depsets {
        for f in &ds.files {
            assert!(!f.contains("out.txt"));
        }
    }
}

#[test]
fn repeated_runs_emit_identical_depsets() {
    let a = run();
    let b = run();
    assert_eq!(a.depsets.len(), b.depsets.len());
    for (x, y) in a.depsets.iter().zip(b.depsets.iter()) {
        assert_eq!(x.kind, y.kind);
        assert_eq!(x.files, y.files);
    }
}

#[test]
fn unit_at_workspace_root_owns_everything() {
    let r = scan_depsets(sample_entries(), "/ws", "/ws", "default.nix");
    assert_eq!(
        r.depsets[1].files,
        strings(&[
            "proj/default.nix",
            "proj/src/main.c",
            "lib/default.nix",
            "lib/util.c",
        ])
    );
}

#[test]
fn unit_outside_workspace_owns_nothing() {
    let r = scan_depsets(sample_entries(), "/ws", "/elsewhere", "default.nix");
    assert!(r.depsets[1].files.is_empty());
    assert_eq!(r.depsets[0].files.len(), 4);
}

#[test]
fn partition_is_total_and_disjoint() {
    let paths = strings(&["a/x", "b/y", "a/z"]);
    let (children, externals) = partition(&paths, "a");
    assert_eq!(children, strings(&["a/x", "a/z"]));
    assert_eq!(externals, strings(&["b/y"]));
    assert_eq!(children.len() + externals.len(), paths.len());
    for c in &children {
        assert!(!externals.contains(c));
    }
}

#[test]
fn missing_argument_is_a_configuration_error() {
    let r = project_file_arg(&strings(&["scan-nix"]));
    let e = r.err().unwrap();
    assert!(matches!(e.kind, ErrorKind::NoneError));
    assert_eq!(e.msg, "Value not found!");
}

#[test]
fn first_positional_argument_is_the_definition_file() {
    let r = project_file_arg(&strings(&["scan-nix", "shell.nix", "extra"]));
    assert_eq!(r.ok().unwrap(), "shell.nix");
}

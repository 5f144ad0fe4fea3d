//! The scan pipeline: expanded dependencies are rewritten relative to the
//! workspace root, partitioned by ownership, resolved to labels, and
//! assembled into the two output dependency sets.

use vstd::prelude::*;

use crate::error::{ErrorKind, ScanError};
use crate::expand::{all_files, dedup_first, expand, ExpandedEntry};
use crate::label::{resolved_label, _to_bazel_label};
use crate::packages::{discover_packages, marker_packages};
use crate::paths::{
    is_child_of, is_under, normalize, rel_to, rel_under, str_eq, strictly_under,
};

verus! {

/// One output collection: `kind` is `"recursive"` (every dependency, as
/// labels) or `"direct"` (unit-owned paths, relative to the unit directory).
pub struct DepSet {
    pub kind: String,
    pub files: Vec<String>,
}

/// Both output collections, `recursive` first.
pub struct DepSets {
    pub depsets: Vec<DepSet>,
}

/// The paths among `paths` that lie strictly under `root`, rewritten
/// relative to it, order kept; paths elsewhere are dropped.
pub open spec fn normalized_of(paths: Seq<Seq<char>>, root: Seq<char>) -> Seq<Seq<char>>
    decreases paths.len(),
{
    if paths.len() == 0 {
        Seq::empty()
    } else {
        let rest = normalized_of(paths.drop_last(), root);
        if strictly_under(root, paths.last()) {
            rest.push(rel_to(root, paths.last()))
        } else {
            rest
        }
    }
}

/// The paths among `paths` that lie at or below `dir`, order kept.
pub open spec fn children_of(paths: Seq<Seq<char>>, dir: Seq<char>) -> Seq<Seq<char>>
    decreases paths.len(),
{
    if paths.len() == 0 {
        Seq::empty()
    } else {
        let rest = children_of(paths.drop_last(), dir);
        if is_under(dir, paths.last()) {
            rest.push(paths.last())
        } else {
            rest
        }
    }
}

/// The paths among `paths` that lie outside `dir`, order kept.
pub open spec fn externals_of(paths: Seq<Seq<char>>, dir: Seq<char>) -> Seq<Seq<char>>
    decreases paths.len(),
{
    if paths.len() == 0 {
        Seq::empty()
    } else {
        let rest = externals_of(paths.drop_last(), dir);
        if !is_under(dir, paths.last()) {
            rest.push(paths.last())
        } else {
            rest
        }
    }
}

/// The paths among `paths` under `dir`, each rewritten relative to `dir`.
pub open spec fn directs_of(paths: Seq<Seq<char>>, dir: Seq<char>) -> Seq<Seq<char>>
    decreases paths.len(),
{
    if paths.len() == 0 {
        Seq::empty()
    } else {
        let rest = directs_of(paths.drop_last(), dir);
        if is_under(dir, paths.last()) {
            rest.push(rel_under(dir, paths.last()))
        } else {
            rest
        }
    }
}

/// The labels of the paths that resolve, order kept.
pub open spec fn labels_of(paths: Seq<Seq<char>>, pkgs: Seq<Seq<char>>) -> Seq<Seq<char>>
    decreases paths.len(),
{
    if paths.len() == 0 {
        Seq::empty()
    } else {
        let rest = labels_of(paths.drop_last(), pkgs);
        match resolved_label(paths.last(), pkgs) {
            Some(l) => rest.push(l),
            None => rest,
        }
    }
}

/// The build unit's owning directory relative to the workspace root: the
/// empty string when it is the root itself, its rewritten form when it lies
/// strictly below, and nothing when it lies outside the workspace.
pub open spec fn unit_rel_dir(root: Seq<char>, unit_dir: Seq<char>) -> Option<Seq<char>> {
    if unit_dir == root {
        Some(Seq::empty())
    } else if strictly_under(root, unit_dir) {
        Some(rel_to(root, unit_dir))
    } else {
        None
    }
}

/// The workspace-relative dependency set of a run, in discovery order.
pub open spec fn scan_rel_paths(entries: Seq<ExpandedEntry>, root: Seq<char>) -> Seq<Seq<char>> {
    normalized_of(dedup_first(all_files(entries)), root)
}

/// The package set of a run, discovered over the full dependency set.
pub open spec fn scan_packages(
    entries: Seq<ExpandedEntry>,
    root: Seq<char>,
    marker: Seq<char>,
) -> Seq<Seq<char>> {
    dedup_first(marker_packages(scan_rel_paths(entries, root), marker))
}

/// The `recursive` output of a run: every dependency, resolved to a label.
pub open spec fn scan_recursive_model(
    entries: Seq<ExpandedEntry>,
    root: Seq<char>,
    marker: Seq<char>,
) -> Seq<Seq<char>> {
    labels_of(scan_rel_paths(entries, root), scan_packages(entries, root, marker))
}

/// The `direct` output of a run: the unit-owned dependencies, relative to
/// the unit's own directory; empty when that directory lies outside the
/// workspace.
pub open spec fn scan_direct_model(
    entries: Seq<ExpandedEntry>,
    root: Seq<char>,
    unit_dir: Seq<char>,
) -> Seq<Seq<char>> {
    match unit_rel_dir(root, unit_dir) {
        Some(d) => directs_of(children_of(scan_rel_paths(entries, root), d), d),
        None => Seq::empty(),
    }
}

/// Rewrites every path relative to `root`, dropping the paths that do not
/// lie strictly under it.
pub fn normalize_all(paths: &Vec<String>, root: &str) -> (r: Vec<String>)
    ensures
        r.deep_view() == normalized_of(paths.deep_view(), root@),
{
    let ghost pview = paths.deep_view();
    let mut out: Vec<String> = Vec::new();
    let mut i: usize = 0;
    while i < paths.len()
        invariant
            0 <= i <= paths@.len(),
            pview == paths.deep_view(),
            out.deep_view() == normalized_of(pview.take(i as int), root@),
        decreases paths@.len() - i,
    {
        proof {
            assert(pview.take(i as int + 1).drop_last() =~= pview.take(i as int));
            assert(pview.take(i as int + 1).last() == pview[i as int]);
            assert(pview[i as int] == paths@[i as int]@);
        }
        let ghost before = out.deep_view();
        match normalize(paths[i].as_str(), root) {
            Some(q) => {
                out.push(q);
                proof {
                    assert(out.deep_view() =~= before.push(rel_to(root@, pview[i as int])));
                }
            },
            None => {},
        }
        i = i + 1;
    }
    proof {
        assert(pview.take(i as int) =~= pview);
    }
    out
}

/// Splits the dependency set by ownership: paths at or below `dir` first,
/// every other path second.
pub fn partition(paths: &Vec<String>, dir: &str) -> (r: (Vec<String>, Vec<String>))
    ensures
        r.0.deep_view() == children_of(paths.deep_view(), dir@),
        r.1.deep_view() == externals_of(paths.deep_view(), dir@),
{
    let ghost pview = paths.deep_view();
    let mut children: Vec<String> = Vec::new();
    let mut externals: Vec<String> = Vec::new();
    let mut i: usize = 0;
    while i < paths.len()
        invariant
            0 <= i <= paths@.len(),
            pview == paths.deep_view(),
            children.deep_view() == children_of(pview.take(i as int), dir@),
            externals.deep_view() == externals_of(pview.take(i as int), dir@),
        decreases paths@.len() - i,
    {
        proof {
            assert(pview.take(i as int + 1).drop_last() =~= pview.take(i as int));
            assert(pview.take(i as int + 1).last() == pview[i as int]);
            assert(pview[i as int] == paths@[i as int]@);
        }
        let ghost kids = children.deep_view();
        let ghost exts = externals.deep_view();
        let p = paths[i].clone();
        if is_child_of(p.as_str(), dir) {
            children.push(p);
            proof {
                assert(children.deep_view() =~= kids.push(pview[i as int]));
            }
        } else {
            externals.push(p);
            proof {
                assert(externals.deep_view() =~= exts.push(pview[i as int]));
            }
        }
        i = i + 1;
    }
    proof {
        assert(pview.take(i as int) =~= pview);
    }
    (children, externals)
}

/// Rewrites `p` relative to the directory `dir` that contains it.
fn rel_under_str(p: &str, dir: &str) -> (r: String)
    requires
        is_under(dir@, p@),
    ensures
        r@ == rel_under(dir@, p@),
{
    let dn: usize = dir.unicode_len();
    let pn: usize = p.unicode_len();
    if dn == 0 {
        p.to_owned()
    } else if str_eq(p, dir) {
        String::new()
    } else if dir.get_char(dn - 1) == '/' {
        let s = p.substring_char(dn, pn);
        proof {
            assert(s@ =~= rel_under(dir@, p@));
        }
        s.to_owned()
    } else {
        let s = p.substring_char(dn + 1, pn);
        proof {
            assert(s@ =~= rel_under(dir@, p@));
        }
        s.to_owned()
    }
}

/// Rewrites the unit-owned paths relative to the unit's directory; a path
/// not under `dir` is skipped.
pub fn to_direct_deps(paths: &Vec<String>, dir: &str) -> (r: Vec<String>)
    ensures
        r.deep_view() == directs_of(paths.deep_view(), dir@),
{
    let ghost pview = paths.deep_view();
    let mut out: Vec<String> = Vec::new();
    let mut i: usize = 0;
    while i < paths.len()
        invariant
            0 <= i <= paths@.len(),
            pview == paths.deep_view(),
            out.deep_view() == directs_of(pview.take(i as int), dir@),
        decreases paths@.len() - i,
    {
        proof {
            assert(pview.take(i as int + 1).drop_last() =~= pview.take(i as int));
            assert(pview.take(i as int + 1).last() == pview[i as int]);
            assert(pview[i as int] == paths@[i as int]@);
        }
        let ghost before = out.deep_view();
        if is_child_of(paths[i].as_str(), dir) {
            let q = rel_under_str(paths[i].as_str(), dir);
            out.push(q);
            proof {
                assert(out.deep_view() =~= before.push(rel_under(dir@, pview[i as int])));
            }
        }
        i = i + 1;
    }
    proof {
        assert(pview.take(i as int) =~= pview);
    }
    out
}

/// Resolves every dependency path to a label; a path with no file component
/// is skipped.
pub fn to_label_deps(paths: &Vec<String>, packages: &Vec<String>) -> (r: Vec<String>)
    ensures
        r.deep_view() == labels_of(paths.deep_view(), packages.deep_view()),
{
    let ghost pview = paths.deep_view();
    let mut out: Vec<String> = Vec::new();
    let mut i: usize = 0;
    while i < paths.len()
        invariant
            0 <= i <= paths@.len(),
            pview == paths.deep_view(),
            out.deep_view() == labels_of(pview.take(i as int), packages.deep_view()),
        decreases paths@.len() - i,
    {
        proof {
            assert(pview.take(i as int + 1).drop_last() =~= pview.take(i as int));
            assert(pview.take(i as int + 1).last() == pview[i as int]);
            assert(pview[i as int] == paths@[i as int]@);
        }
        let ghost before = out.deep_view();
        match _to_bazel_label(paths[i].as_str(), packages) {
            Some(l) => {
                out.push(l);
                proof {
                    assert(out.deep_view() =~= before.push(
                        resolved_label(pview[i as int], packages.deep_view())->Some_0,
                    ));
                }
            },
            None => {},
        }
        i = i + 1;
    }
    proof {
        assert(pview.take(i as int) =~= pview);
    }
    out
}

/// The unit's owning directory rewritten relative to the workspace root;
/// `None` when it lies outside the workspace.
pub fn unit_rel_dir_str(root: &str, unit_dir: &str) -> (r: Option<String>)
    ensures
        r.deep_view() == unit_rel_dir(root@, unit_dir@),
{
    if str_eq(unit_dir, root) {
        Some(String::new())
    } else {
        normalize(unit_dir, root)
    }
}

/// Runs the whole pipeline over the expanded evaluator report: rewrite every
/// file relative to `workspace_root` (dropping files outside it), discover
/// the packages declared by `marker` files over the full set, and build the
/// two depsets — `recursive` holding every dependency as a label, `direct`
/// holding the unit-owned paths relative to `unit_dir`.
pub fn scan_depsets(
    entries: Vec<ExpandedEntry>,
    workspace_root: &str,
    unit_dir: &str,
    marker: &str,
) -> (r: DepSets)
    ensures
        r.depsets@.len() == 2,
        r.depsets@[0].kind@ == "recursive"@,
        r.depsets@[0].files.deep_view() == scan_recursive_model(
            entries@,
            workspace_root@,
            marker@,
        ),
        r.depsets@[1].kind@ == "direct"@,
        r.depsets@[1].files.deep_view() == scan_direct_model(
            entries@,
            workspace_root@,
            unit_dir@,
        ),
{
    let files = expand(entries);
    let rel = normalize_all(&files, workspace_root);
    let packages = discover_packages(&rel, marker);
    let recursive_files = to_label_deps(&rel, &packages);
    let direct_files = match unit_rel_dir_str(workspace_root, unit_dir) {
        Some(d) => {
            let (children, _externals) = partition(&rel, d.as_str());
            to_direct_deps(&children, d.as_str())
        },
        None => Vec::new(),
    };
    let recursive = DepSet { kind: "recursive".to_owned(), files: recursive_files };
    let direct = DepSet { kind: "direct".to_owned(), files: direct_files };
    let mut depsets: Vec<DepSet> = Vec::new();
    depsets.push(recursive);
    depsets.push(direct);
    DepSets { depsets }
}

/// Everything the partition keeps as a child lies under `dir` and comes from
/// the input; everything it marks external comes from the input and does not.
proof fn lemma_partition_membership(paths: Seq<Seq<char>>, dir: Seq<char>, x: Seq<char>)
    ensures
        children_of(paths, dir).contains(x) <==> (paths.contains(x) && is_under(dir, x)),
        externals_of(paths, dir).contains(x) <==> (paths.contains(x) && !is_under(dir, x)),
    decreases paths.len(),
{
    broadcast use vstd::seq_lib::group_seq_properties;

    if paths.len() > 0 {
        lemma_partition_membership(paths.drop_last(), dir, x);
        assert(paths =~= paths.drop_last().push(paths.last()));
    }
}

/// Partition totality: the children and the externals together are exactly
/// the input — each path occurs in the two parts as often as it occurs in
/// the input — and no path belongs to both parts.
pub proof fn lemma_partition_total(paths: Seq<Seq<char>>, dir: Seq<char>)
    ensures
        forall|x: Seq<char>|
            children_of(paths, dir).to_multiset().count(x) + externals_of(
                paths,
                dir,
            ).to_multiset().count(x) == #[trigger] paths.to_multiset().count(x),
        children_of(paths, dir).to_set() + externals_of(paths, dir).to_set()
            == paths.to_set(),
        children_of(paths, dir).to_set().intersect(externals_of(paths, dir).to_set())
            == Set::<Seq<char>>::empty(),
    decreases paths.len(),
{
    broadcast use vstd::seq_lib::group_to_multiset_ensures;

    if paths.len() > 0 {
        lemma_partition_total(paths.drop_last(), dir);
        assert(paths =~= paths.drop_last().push(paths.last()));
    }
    assert forall|x: Seq<char>|
        children_of(paths, dir).to_set().contains(x) || externals_of(
            paths,
            dir,
        ).to_set().contains(x) <==> paths.to_set().contains(x) by {
        lemma_partition_membership(paths, dir, x);
    }
    assert forall|x: Seq<char>| !(children_of(paths, dir).to_set().contains(x)
        && externals_of(paths, dir).to_set().contains(x)) by {
        lemma_partition_membership(paths, dir, x);
    }
    assert(children_of(paths, dir).to_set() + externals_of(paths, dir).to_set()
        =~= paths.to_set());
    assert(children_of(paths, dir).to_set().intersect(externals_of(paths, dir).to_set())
        =~= Set::<Seq<char>>::empty());
}

/// Workspace filtering: a path that does not lie strictly under the
/// workspace root is dropped by normalization, so it reaches neither depset
/// of a run whose other input is unchanged, and raises no error.
pub proof fn lemma_outside_path_dropped(files: Seq<Seq<char>>, root: Seq<char>, p: Seq<char>)
    requires
        !strictly_under(root, p),
    ensures
        normalized_of(files.push(p), root) == normalized_of(files, root),
{
    assert(files.push(p).drop_last() =~= files);
}

/// Idempotence: both depsets are functions of the evaluator's report and the
/// configuration alone, so two runs over an unchanged filesystem and an
/// unchanged report yield depsets with identical kinds and identical file
/// lists, and the serialized output is byte-identical.
pub proof fn lemma_scan_deterministic(
    a: DepSets,
    b: DepSets,
    entries: Seq<ExpandedEntry>,
    root: Seq<char>,
    unit_dir: Seq<char>,
    marker: Seq<char>,
)
    requires
        a.depsets@.len() == 2,
        a.depsets@[0].kind@ == "recursive"@,
        a.depsets@[0].files.deep_view() == scan_recursive_model(entries, root, marker),
        a.depsets@[1].kind@ == "direct"@,
        a.depsets@[1].files.deep_view() == scan_direct_model(entries, root, unit_dir),
        b.depsets@.len() == 2,
        b.depsets@[0].kind@ == "recursive"@,
        b.depsets@[0].files.deep_view() == scan_recursive_model(entries, root, marker),
        b.depsets@[1].kind@ == "direct"@,
        b.depsets@[1].files.deep_view() == scan_direct_model(entries, root, unit_dir),
    ensures
        a.depsets@.len() == b.depsets@.len(),
        forall|i: int|
            0 <= i < a.depsets@.len() ==> #[trigger] a.depsets@[i].kind@ == b.depsets@[i].kind@
                && a.depsets@[i].files.deep_view() == b.depsets@[i].files.deep_view(),
{
}

/// The build-definition file to analyze is the first positional argument;
/// its absence is a fatal configuration error, reported before any output.
pub fn project_file_arg(args: &Vec<String>) -> (r: Result<String, ScanError>)
    ensures
        r is Ok <==> args@.len() >= 2,
        r matches Ok(p) ==> p@ == args@[1]@,
        r matches Err(e) ==> e.kind == ErrorKind::NoneError && e.msg@ == "Value not found!"@,
{
    if args.len() >= 2 {
        Ok(args[1].clone())
    } else {
        Err(ScanError::new_from_str(ErrorKind::NoneError, "Value not found!"))
    }
}

} // verus!

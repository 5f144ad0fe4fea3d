//! Label resolution: a workspace-relative path is mapped to a build-system
//! target label `//package:target` by finding the deepest known package
//! directory among the path's ancestors, with the workspace root as the
//! fallback when none matches.

use vstd::prelude::*;

use crate::expand::vec_contains_str;
use crate::paths::{
    file_name, find_file_start, find_trim_end, has_normal_file, lemma_file_start,
    lemma_file_start_strict, str_eq, trim_path,
};

verus! {

/// The ancestor directory of `p` of length `l` is a known package: the
/// prefix of that length is followed by a separator and is in `pkgs`.
pub open spec fn match_at(p: Seq<char>, pkgs: Seq<Seq<char>>, l: int) -> bool {
    0 <= l < p.len() && p[l] == '/' && pkgs.contains(p.take(l))
}

/// The largest `l <= from` with `match_at(p, pkgs, l)`, or `-1` when no
/// ancestor up to that depth is a known package.
pub open spec fn best_match_from(p: Seq<char>, pkgs: Seq<Seq<char>>, from: int) -> int
    decreases from + 1,
{
    if from < 0 {
        -1
    } else if match_at(p, pkgs, from) {
        from
    } else {
        best_match_from(p, pkgs, from - 1)
    }
}

/// The length of the longest known-package ancestor of `p`, or `-1` when
/// only the workspace root remains.
pub open spec fn best_match(p: Seq<char>, pkgs: Seq<Seq<char>>) -> int {
    best_match_from(p, pkgs, p.len() - 1)
}

/// The label `p` resolves to: `//<package>:<rest>` for the longest matching
/// package, where `<rest>` keeps every segment below the package directory;
/// `//:<filename>` when no package matches.
pub open spec fn label_of(p: Seq<char>, pkgs: Seq<Seq<char>>) -> Seq<char> {
    let b = best_match(p, pkgs);
    if b < 0 {
        seq!['/', '/', ':'] + file_name(p)
    } else {
        seq!['/', '/'] + p.take(b) + seq![':'] + p.skip(b + 1)
    }
}

/// The resolver's full result: a label exactly when `p` ends in a normal
/// file component in the sense of std's `Path::file_name` — trailing
/// separators and lone `.` components are ignored, and a path whose final
/// component is then `..`, or which has none left, yields nothing. The label
/// is composed over the trimmed path.
pub open spec fn resolved_label(p: Seq<char>, pkgs: Seq<Seq<char>>) -> Option<Seq<char>> {
    if has_normal_file(p) {
        Some(label_of(trim_path(p), pkgs))
    } else {
        None
    }
}

/// `best_match_from` finds a true match and nothing deeper matches.
pub proof fn lemma_best_match_from(p: Seq<char>, pkgs: Seq<Seq<char>>, from: int)
    ensures
        best_match_from(p, pkgs, from) == -1 || 0 <= best_match_from(p, pkgs, from) <= from,
        best_match_from(p, pkgs, from) >= 0 ==> match_at(p, pkgs, best_match_from(p, pkgs, from)),
        forall|l: int|
            best_match_from(p, pkgs, from) < l <= from ==> !match_at(p, pkgs, l),
    decreases from + 1,
{
    if from >= 0 && !match_at(p, pkgs, from) {
        lemma_best_match_from(p, pkgs, from - 1);
    }
}

/// Longest-match correctness: the resolver never settles for a shallower
/// ancestor. Whenever some ancestor of `p` of length `l` is a known package,
/// the chosen package is at least that long, and is itself a true match.
pub proof fn lemma_longest_match(p: Seq<char>, pkgs: Seq<Seq<char>>, l: int)
    requires
        match_at(p, pkgs, l),
    ensures
        best_match(p, pkgs) >= l,
        match_at(p, pkgs, best_match(p, pkgs)),
{
    lemma_best_match_from(p, pkgs, p.len() - 1);
}

/// Resolves `path` against the known packages. `None` exactly when `path`
/// has no final normal file component; otherwise the label described by
/// `label_of`.
pub fn _to_bazel_label(path: &str, bazel_packages: &Vec<String>) -> (r: Option<String>)
    ensures
        r.deep_view() == resolved_label(path@, bazel_packages.deep_view()),
{
    let ghost pkgs = bazel_packages.deep_view();
    let end: usize = find_trim_end(path);
    if end == 0 {
        return None;
    }
    let trimmed = path.substring_char(0, end);
    proof {
        assert(trimmed@ == trim_path(path@));
    }
    let ghost p = trimmed@;
    let n: usize = end;
    let fs: usize = find_file_start(trimmed);
    proof {
        lemma_file_start(p);
        lemma_file_start_strict(p);
    }
    let file = trimmed.substring_char(fs, n);
    proof {
        assert(file@ =~= file_name(p));
        reveal_strlit("..");
        assert(("..")@ =~= seq!['.', '.']);
    }
    if str_eq(file, "..") {
        return None;
    }
    let mut l: usize = n;
    let mut found: bool = false;
    let mut best: usize = 0;
    while l > 0 && !found
        invariant
            0 <= l <= n,
            n == p.len(),
            p == trimmed@,
            pkgs == bazel_packages.deep_view(),
            found ==> best < n && match_at(p, pkgs, best as int) && best_match(p, pkgs)
                == best as int,
            !found ==> best_match(p, pkgs) == best_match_from(p, pkgs, l as int - 1),
        decreases l,
    {
        let c = l - 1;
        let mut hit: bool = false;
        if trimmed.get_char(c) == '/' {
            hit = vec_contains_str(bazel_packages, trimmed.substring_char(0, c));
        }
        proof {
            assert(hit == match_at(p, pkgs, c as int));
        }
        if hit {
            found = true;
            best = c;
        }
        l = c;
    }
    if found {
        let mut label = "//".to_owned();
        label.append(trimmed.substring_char(0, best));
        label.append(":");
        label.append(trimmed.substring_char(best + 1, n));
        proof {
            reveal_strlit("//");
            reveal_strlit(":");
            assert(("//")@ =~= seq!['/', '/']);
            assert((":")@ =~= seq![':']);
            assert(label@ =~= label_of(p, pkgs));
        }
        Some(label)
    } else {
        let mut label = "//:".to_owned();
        label.append(file);
        proof {
            reveal_strlit("//:");
            assert(("//:")@ =~= seq!['/', '/', ':']);
            assert(label@ =~= label_of(p, pkgs));
        }
        Some(label)
    }
}

} // verus!

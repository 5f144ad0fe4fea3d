//! Package discovery: a directory is a package exactly when the dependency
//! set holds a file in it whose final component equals the marker filename.

use vstd::prelude::*;

use crate::expand::{dedup_first, push_unique};
use crate::paths::{file_name, find_file_start, lemma_file_start, parent_dir, str_eq};

verus! {

/// The package directories declared by the marker files among `paths`, in
/// first-discovery order, duplicates included. The empty string denotes the
/// workspace root package.
pub open spec fn marker_packages(paths: Seq<Seq<char>>, marker: Seq<char>) -> Seq<Seq<char>>
    decreases paths.len(),
{
    if paths.len() == 0 {
        Seq::empty()
    } else {
        let rest = marker_packages(paths.drop_last(), marker);
        if file_name(paths.last()) == marker {
            rest.push(parent_dir(paths.last()))
        } else {
            rest
        }
    }
}

/// The parent directory of `p` (the empty string when `p` has no separator),
/// paired with whether `p`'s final component equals `marker`.
fn marker_parent(p: &str, marker: &str) -> (r: (bool, String))
    ensures
        r.0 == (file_name(p@) == marker@),
        r.1@ == parent_dir(p@),
{
    let n: usize = p.unicode_len();
    let fs: usize = find_file_start(p);
    proof {
        lemma_file_start(p@);
    }
    let name = p.substring_char(fs, n);
    proof {
        assert(name@ =~= file_name(p@));
    }
    let hit = str_eq(name, marker);
    let parent = if fs == 0 {
        String::new()
    } else {
        let d = p.substring_char(0, fs - 1);
        proof {
            assert(d@ =~= parent_dir(p@));
        }
        d.to_owned()
    };
    proof {
        assert(parent@ =~= parent_dir(p@));
    }
    (hit, parent)
}

/// Collects the set of known package directories: for every path whose final
/// component equals `marker`, its parent directory (workspace-relative; the
/// empty string denotes the workspace root). Each package appears once, in
/// the order its first marker file was met.
pub fn discover_packages(paths: &Vec<String>, marker: &str) -> (r: Vec<String>)
    ensures
        r.deep_view() == dedup_first(marker_packages(paths.deep_view(), marker@)),
{
    let ghost pview = paths.deep_view();
    let mut out: Vec<String> = Vec::new();
    let mut i: usize = 0;
    while i < paths.len()
        invariant
            0 <= i <= paths@.len(),
            pview == paths.deep_view(),
            out.deep_view() == dedup_first(marker_packages(pview.take(i as int), marker@)),
        decreases paths@.len() - i,
    {
        proof {
            assert(pview.take(i as int + 1).drop_last() =~= pview.take(i as int));
            assert(pview.take(i as int + 1).last() == pview[i as int]);
            assert(pview[i as int] == paths@[i as int]@);
        }
        let (hit, parent) = marker_parent(paths[i].as_str(), marker);
        if hit {
            let ghost base = marker_packages(pview.take(i as int), marker@);
            proof {
                assert(marker_packages(pview.take(i as int + 1), marker@) =~= base.push(
                    parent_dir(pview[i as int]),
                ));
                assert(base.push(parent_dir(pview[i as int])).drop_last() =~= base);
            }
            push_unique(&mut out, parent);
        }
        i = i + 1;
    }
    proof {
        assert(pview.take(i as int) =~= pview);
    }
    out
}

} // verus!

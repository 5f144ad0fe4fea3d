//! Dependency expansion: the evaluator reports tagged paths, store-internal
//! ones are filtered out, directory entries are replaced by the files found
//! beneath them, and the flat result keeps each file once, in discovery order.

use vstd::prelude::*;

use crate::paths::{is_child_of, is_under, str_eq};

verus! {

/// A path reported by the build evaluator: a single dependency file, or a
/// directory whose whole file tree is a dependency.
pub enum DependencyPath {
    File(String),
    Directory(String),
}

/// The path carried by a reported dependency, whichever way it is tagged.
pub open spec fn dep_path(e: DependencyPath) -> Seq<char> {
    match e {
        DependencyPath::File(p) => p@,
        DependencyPath::Directory(p) => p@,
    }
}

/// Whether `p` lies inside the build system's own store: such paths are not
/// addressable in the workspace and are dropped before expansion.
pub open spec fn is_store(p: Seq<char>) -> bool {
    is_under("/nix/store"@, p)
}

/// The reported paths with store-internal ones removed, order kept.
pub open spec fn without_store(s: Seq<DependencyPath>) -> Seq<DependencyPath>
    decreases s.len(),
{
    if s.len() == 0 {
        s
    } else {
        let rest = without_store(s.drop_last());
        if is_store(dep_path(s.last())) {
            rest
        } else {
            rest.push(s.last())
        }
    }
}

/// Whether `p` lies inside the store.
pub fn is_store_path(p: &str) -> (r: bool)
    ensures
        r == is_store(p@),
{
    is_child_of(p, "/nix/store")
}

/// Whether the path of `e` lies inside the store.
pub fn dep_is_store(e: &DependencyPath) -> (r: bool)
    ensures
        r == is_store(dep_path(*e)),
{
    match e {
        DependencyPath::File(p) => is_store_path(p.as_str()),
        DependencyPath::Directory(p) => is_store_path(p.as_str()),
    }
}

/// Removes every store-internal path from the evaluator's report.
pub fn filter_store_paths(entries: Vec<DependencyPath>) -> (r: Vec<DependencyPath>)
    ensures
        r@ == without_store(entries@),
{
    let ghost orig = entries@;
    let mut input = entries;
    let mut out: Vec<DependencyPath> = Vec::new();
    let ghost mut i: int = 0;
    while input.len() > 0
        invariant
            0 <= i <= orig.len(),
            input@ == orig.skip(i),
            out@ == without_store(orig.take(i)),
        decreases input.len(),
    {
        let e = input.remove(0);
        proof {
            assert(orig.skip(i).remove(0) =~= orig.skip(i + 1));
            assert(e == orig[i]);
            assert(orig.take(i + 1).drop_last() =~= orig.take(i));
            assert(orig.take(i + 1).last() == orig[i]);
        }
        if !dep_is_store(&e) {
            out.push(e);
        }
        proof {
            i = i + 1;
        }
    }
    proof {
        assert(orig.take(i) =~= orig);
    }
    out
}

/// A dependency after the directory walk: a single reported file, or the list
/// of regular files found beneath one reported directory. The walking itself
/// is a filesystem primitive supplied by the caller; only how its results are
/// consumed is specified here.
pub enum ExpandedEntry {
    File(String),
    DirectoryFiles(Vec<String>),
}

/// The views of a sequence of strings.
pub open spec fn strs(s: Seq<String>) -> Seq<Seq<char>> {
    Seq::new(s.len(), |i: int| s[i]@)
}

/// The files one entry contributes to the expansion.
pub open spec fn entry_files(e: ExpandedEntry) -> Seq<Seq<char>> {
    match e {
        ExpandedEntry::File(p) => seq![p@],
        ExpandedEntry::DirectoryFiles(v) => strs(v@),
    }
}

/// Every file every entry contributes, in order, duplicates included.
pub open spec fn all_files(s: Seq<ExpandedEntry>) -> Seq<Seq<char>>
    decreases s.len(),
{
    if s.len() == 0 {
        Seq::empty()
    } else {
        all_files(s.drop_last()) + entry_files(s.last())
    }
}

/// `s` with every repeated element removed, keeping the first occurrence of
/// each and the order of first occurrences.
pub open spec fn dedup_first(s: Seq<Seq<char>>) -> Seq<Seq<char>>
    decreases s.len(),
{
    if s.len() == 0 {
        s
    } else {
        let rest = dedup_first(s.drop_last());
        if rest.contains(s.last()) {
            rest
        } else {
            rest.push(s.last())
        }
    }
}

/// Whether some element of `v` spells `s`.
pub fn vec_contains_str(v: &Vec<String>, s: &str) -> (r: bool)
    ensures
        r == v.deep_view().contains(s@),
{
    let mut i: usize = 0;
    while i < v.len()
        invariant
            0 <= i <= v@.len(),
            forall|j: int| 0 <= j < i ==> v.deep_view()[j] != s@,
        decreases v@.len() - i,
    {
        if str_eq(v[i].as_str(), s) {
            assert(v.deep_view()[i as int] == s@);
            return true;
        }
        i = i + 1;
    }
    false
}

/// Appends `p` to `out` unless an equal string is already present.
pub(crate) fn push_unique(out: &mut Vec<String>, p: String)
    ensures
        final(out).deep_view() == (if old(out).deep_view().contains(p@) {
            old(out).deep_view()
        } else {
            old(out).deep_view().push(p@)
        }),
{
    if !vec_contains_str(out, p.as_str()) {
        let ghost before = out.deep_view();
        out.push(p);
        proof {
            assert(out.deep_view() =~= before.push(p@));
        }
    }
}

/// Flattens the expanded entries into one file list: a reported file is
/// emitted unchanged, a directory contributes the files beneath it, and a
/// file already emitted is not emitted again, so overlapping directory
/// entries cannot duplicate a dependency.
pub fn expand(entries: Vec<ExpandedEntry>) -> (r: Vec<String>)
    ensures
        r.deep_view() == dedup_first(all_files(entries@)),
{
    let ghost orig = entries@;
    let mut input = entries;
    let mut out: Vec<String> = Vec::new();
    let ghost mut i: int = 0;
    while input.len() > 0
        invariant
            0 <= i <= orig.len(),
            input@ == orig.skip(i),
            out.deep_view() == dedup_first(all_files(orig.take(i))),
        decreases input.len(),
    {
        let e = input.remove(0);
        proof {
            assert(orig.skip(i).remove(0) =~= orig.skip(i + 1));
            assert(e == orig[i]);
            assert(orig.take(i + 1).drop_last() =~= orig.take(i));
            assert(orig.take(i + 1).last() == orig[i]);
        }
        let ghost base = all_files(orig.take(i));
        match e {
            ExpandedEntry::File(p) => {
                proof {
                    assert(all_files(orig.take(i + 1)) =~= base.push(p@));
                    assert(base.push(p@).drop_last() =~= base);
                }
                push_unique(&mut out, p);
            }
            ExpandedEntry::DirectoryFiles(v) => {
                let ghost vorig = v@;
                let mut files = v;
                let ghost mut j: int = 0;
                while files.len() > 0
                    invariant
                        0 <= j <= vorig.len(),
                        files@ == vorig.skip(j),
                        out.deep_view() == dedup_first(base + strs(vorig).take(j)),
                    decreases files.len(),
                {
                    let f = files.remove(0);
                    proof {
                        assert(vorig.skip(j).remove(0) =~= vorig.skip(j + 1));
                        assert(f == vorig[j]);
                        let cur = base + strs(vorig).take(j);
                        assert(base + strs(vorig).take(j + 1) =~= cur.push(f@));
                        assert(cur.push(f@).drop_last() =~= cur);
                    }
                    push_unique(&mut out, f);
                    proof {
                        j = j + 1;
                    }
                }
                proof {
                    assert(strs(vorig).take(vorig.len() as int) =~= strs(vorig));
                    assert(all_files(orig.take(i + 1)) =~= base + strs(vorig));
                }
            }
        }
        proof {
            i = i + 1;
        }
    }
    proof {
        assert(orig.take(i) =~= orig);
    }
    out
}

/// The expansion never repeats a file.
pub proof fn lemma_dedup_first_no_duplicates(s: Seq<Seq<char>>)
    ensures
        dedup_first(s).no_duplicates(),
    decreases s.len(),
{
    if s.len() > 0 {
        lemma_dedup_first_no_duplicates(s.drop_last());
    }
}

/// An element of `s` is in or out of `s` as a whole exactly as it is in or
/// out of `s` without its last element, or equal to that last element.
proof fn lemma_contains_split(s: Seq<Seq<char>>, x: Seq<char>)
    requires
        s.len() > 0,
    ensures
        s.contains(x) <==> (s.drop_last().contains(x) || s.last() == x),
{
    broadcast use vstd::seq_lib::group_seq_properties;

    assert(s =~= s.drop_last().push(s.last()));
}

/// The expansion holds exactly the files that were contributed: removing
/// duplicates neither loses nor invents an element.
pub proof fn lemma_dedup_first_membership(s: Seq<Seq<char>>, x: Seq<char>)
    ensures
        dedup_first(s).contains(x) <==> s.contains(x),
    decreases s.len(),
{
    broadcast use vstd::seq_lib::group_seq_properties;

    if s.len() > 0 {
        lemma_dedup_first_membership(s.drop_last(), x);
        lemma_contains_split(s, x);
        let rest = dedup_first(s.drop_last());
        if rest.contains(s.last()) {
            lemma_dedup_first_membership(s.drop_last(), s.last());
        }
    }
}

/// Every file beneath any reported entry reaches the expanded set.
pub proof fn lemma_all_files_contains(entries: Seq<ExpandedEntry>, k: int, f: Seq<char>)
    requires
        0 <= k < entries.len(),
        entry_files(entries[k]).contains(f),
    ensures
        all_files(entries).contains(f),
    decreases entries.len(),
{
    let rest = all_files(entries.drop_last());
    let own = entry_files(entries.last());
    if k == entries.len() - 1 {
        let j = choose|j: int| 0 <= j < own.len() && own[j] == f;
        assert((rest + own)[rest.len() + j] == f);
    } else {
        assert(entries.drop_last()[k] == entries[k]);
        lemma_all_files_contains(entries.drop_last(), k, f);
        let j = choose|j: int| 0 <= j < rest.len() && rest[j] == f;
        assert((rest + own)[j] == f);
    }
}

/// A file reachable under any reported entry appears exactly once in the
/// expansion, even when entries overlap.
pub proof fn lemma_expand_exactly_once(entries: Seq<ExpandedEntry>, k: int, f: Seq<char>)
    requires
        0 <= k < entries.len(),
        entry_files(entries[k]).contains(f),
    ensures
        dedup_first(all_files(entries)).to_multiset().count(f) == 1,
{
    broadcast use vstd::seq_lib::group_to_multiset_ensures;

    let d = dedup_first(all_files(entries));
    lemma_all_files_contains(entries, k, f);
    lemma_dedup_first_membership(all_files(entries), f);
    lemma_dedup_first_no_duplicates(all_files(entries));
    assert(d.to_multiset().count(f) > 0);
    d.lemma_multiset_has_no_duplicates();
    assert(d.to_multiset().contains(f));
}

} // verus!

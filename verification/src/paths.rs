//! The path model: workspace-relative paths are strings whose components are
//! separated by `'/'`, with no leading separator. Everything downstream
//! (ownership, package discovery, label resolution) is specified over these
//! functions.

use vstd::prelude::*;

verus! {

/// Index of the first character of the final path component: one past the
/// last `'/'` of `s`, or `0` when `s` holds no `'/'`.
pub open spec fn file_start(s: Seq<char>) -> int
    decreases s.len(),
{
    if s.len() == 0 {
        0
    } else if s[s.len() - 1] == '/' {
        s.len() as int
    } else {
        file_start(s.drop_last())
    }
}

/// The final component of `s` (empty when `s` is empty or ends in `'/'`).
pub open spec fn file_name(s: Seq<char>) -> Seq<char> {
    s.skip(file_start(s))
}

/// Whether `s` has a non-empty final component, i.e. names a file.
pub open spec fn has_file_name(s: Seq<char>) -> bool {
    file_start(s) < s.len()
}

/// The directory holding `s`'s final component: everything before the last
/// `'/'`, or the empty string (the workspace root) when `s` holds none.
pub open spec fn parent_dir(s: Seq<char>) -> Seq<char> {
    if file_start(s) == 0 {
        Seq::empty()
    } else {
        s.take(file_start(s) - 1)
    }
}

/// `d` names a directory with a trailing separator, such as `"/"` or `"a/"`.
pub open spec fn ends_in_sep(d: Seq<char>) -> bool {
    d.len() > 0 && d[d.len() - 1] == '/'
}

/// `p` lies at or below the directory `dir`, component-boundary aware:
/// `a/b` is under `a` but `a/bc` is not. A directory given with a trailing
/// separator (`"/"`, `"a/"`) is its own component boundary, so `/a` is under
/// `/`. The empty directory stands for the workspace root, which contains
/// every relative path.
pub open spec fn is_under(dir: Seq<char>, p: Seq<char>) -> bool {
    ||| dir.len() == 0
    ||| p == dir
    ||| (dir.len() < p.len() && p.take(dir.len() as int) == dir && (ends_in_sep(dir)
        || p[dir.len() as int] == '/'))
}

/// `p` lies strictly below `root`: `root` followed by `'/'` is a proper
/// prefix of `p`.
pub open spec fn strictly_under(root: Seq<char>, p: Seq<char>) -> bool {
    root.len() < p.len() && p.take(root.len() as int) == root && p[root.len() as int] == '/'
}

/// `p` rewritten relative to `root`; meaningful when `strictly_under(root, p)`.
pub open spec fn rel_to(root: Seq<char>, p: Seq<char>) -> Seq<char> {
    p.skip(root.len() as int + 1)
}

/// `p` rewritten relative to the directory `dir` that contains it;
/// meaningful when `is_under(dir, p)`.
pub open spec fn rel_under(dir: Seq<char>, p: Seq<char>) -> Seq<char> {
    if dir.len() == 0 {
        p
    } else if p == dir {
        Seq::empty()
    } else if ends_in_sep(dir) {
        p.skip(dir.len() as int)
    } else {
        p.skip(dir.len() as int + 1)
    }
}

/// `s` with trailing separators and trailing lone-`.` components removed,
/// one character at a time, as std's path parsing ignores both when it looks
/// for the final component.
pub open spec fn trim_path(s: Seq<char>) -> Seq<char>
    decreases s.len(),
{
    if s.len() == 0 {
        s
    } else if s[s.len() - 1] == '/' {
        trim_path(s.drop_last())
    } else if file_name(s) == seq!['.'] {
        trim_path(s.take(s.len() - 1))
    } else {
        s
    }
}

/// `s` ends in a normal file component, in the sense of std's
/// `Path::file_name`: trailing separators and lone `.` components are
/// ignored, and a path whose last component is then `..` — or which has no
/// component left at all — has no file name.
pub open spec fn has_normal_file(s: Seq<char>) -> bool {
    trim_path(s).len() > 0 && file_name(trim_path(s)) != seq!['.', '.']
}

/// `file_start` lies within `s` and marks the character right after the last
/// separator: no `'/'` at or beyond it, and one right before it unless it is `0`.
pub proof fn lemma_file_start(s: Seq<char>)
    ensures
        0 <= file_start(s) <= s.len(),
        forall|j: int| file_start(s) <= j < s.len() ==> s[j] != '/',
        file_start(s) > 0 ==> s[file_start(s) - 1] == '/',
    decreases s.len(),
{
    if s.len() == 0 {
    } else if s[s.len() - 1] == '/' {
    } else {
        lemma_file_start(s.drop_last());
        assert(forall|j: int|
            0 <= j < s.len() - 1 ==> s.drop_last()[j] == s[j]);
    }
}

/// Any index with `lemma_file_start`'s properties is `file_start(s)`.
pub proof fn lemma_file_start_unique(s: Seq<char>, i: int)
    requires
        0 <= i <= s.len(),
        forall|j: int| i <= j < s.len() ==> s[j] != '/',
        i > 0 ==> s[i - 1] == '/',
    ensures
        i == file_start(s),
{
    lemma_file_start(s);
    if i < file_start(s) {
        assert(s[file_start(s) - 1] == '/');
        assert(false);
    } else if i > file_start(s) {
        assert(s[i - 1] != '/');
        assert(false);
    }
}

/// A path that does not end in a separator has a non-empty final component.
pub proof fn lemma_file_start_strict(s: Seq<char>)
    requires
        s.len() > 0,
        s[s.len() - 1] != '/',
    ensures
        0 <= file_start(s) < s.len(),
{
    lemma_file_start(s);
    if file_start(s) == s.len() {
        assert(s[file_start(s) - 1] == '/');
        assert(false);
    }
}

/// When `s` ends in a character `c` other than a separator, its final
/// component is the single character `c` exactly when `c` stands alone,
/// right after a separator or at the start of `s`.
pub proof fn lemma_file_name_single(s: Seq<char>, c: char)
    requires
        s.len() > 0,
        s[s.len() - 1] == c,
        c != '/',
    ensures
        (file_name(s) == seq![c]) <==> (s.len() == 1 || s[s.len() - 2] == '/'),
{
    lemma_file_start(s);
    lemma_file_start_strict(s);
    let fs = file_start(s);
    if s.len() == 1 || s[s.len() - 2] == '/' {
        lemma_file_start_unique(s, s.len() - 1);
        assert(file_name(s) =~= seq![c]);
    } else {
        if fs == s.len() - 1 {
            assert(s[fs - 1] == '/');
            assert(false);
        }
        assert(file_name(s).len() >= 2);
    }
}

/// Whether the first `pre.len()` characters of `s` spell `pre`.
pub fn is_prefix(pre: &str, s: &str) -> (r: bool)
    ensures
        r == (pre@.len() <= s@.len() && s@.take(pre@.len() as int) == pre@),
{
    let pn: usize = pre.unicode_len();
    let sn: usize = s.unicode_len();
    if pn > sn {
        return false;
    }
    let mut i: usize = 0;
    while i < pn
        invariant
            0 <= i <= pn,
            pn == pre@.len(),
            sn == s@.len(),
            pn <= sn,
            forall|j: int| 0 <= j < i ==> s@[j] == pre@[j],
        decreases pn - i,
    {
        if s.get_char(i) != pre.get_char(i) {
            assert(s@.take(pn as int) != pre@) by {
                assert(s@.take(pn as int)[i as int] == s@[i as int]);
            }
            return false;
        }
        i = i + 1;
    }
    assert(s@.take(pn as int) =~= pre@);
    true
}

/// Whether `a` and `b` spell the same string.
pub fn str_eq(a: &str, b: &str) -> (r: bool)
    ensures
        r == (a@ == b@),
{
    let an: usize = a.unicode_len();
    let bn: usize = b.unicode_len();
    if an != bn {
        return false;
    }
    let r = is_prefix(a, b);
    proof {
        assert(b@.take(a@.len() as int) =~= b@);
    }
    r
}

/// Whether the final component of `s` starts at `r`: the exec counterpart of
/// `file_start`.
pub fn find_file_start(s: &str) -> (r: usize)
    ensures
        r == file_start(s@),
{
    let n: usize = s.unicode_len();
    let mut i: usize = n;
    while i > 0
        invariant
            0 <= i <= n,
            n == s@.len(),
            forall|j: int| i <= j < n ==> s@[j] != '/',
        decreases i,
    {
        if s.get_char(i - 1) == '/' {
            proof {
                lemma_file_start_unique(s@, i as int);
            }
            return i;
        }
        i = i - 1;
    }
    proof {
        lemma_file_start_unique(s@, 0);
    }
    0
}

/// Whether `p` lies at or below the directory `dir`.
pub fn is_child_of(p: &str, dir: &str) -> (r: bool)
    ensures
        r == is_under(dir@, p@),
{
    let dn: usize = dir.unicode_len();
    let pn: usize = p.unicode_len();
    if dn == 0 {
        return true;
    }
    if str_eq(p, dir) {
        return true;
    }
    if dn < pn && is_prefix(dir, p) && (dir.get_char(dn - 1) == '/' || p.get_char(dn) == '/') {
        return true;
    }
    false
}

/// How many leading characters of `s` its trimmed form keeps: the exec
/// counterpart of `trim_path`.
pub fn find_trim_end(s: &str) -> (end: usize)
    ensures
        end <= s@.len(),
        s@.take(end as int) == trim_path(s@),
        end > 0 ==> s@[end as int - 1] != '/',
{
    let n: usize = s.unicode_len();
    let mut end: usize = n;
    let mut done: bool = false;
    proof {
        assert(s@.take(n as int) =~= s@);
    }
    while end > 0 && !done
        invariant
            0 <= end <= n,
            n == s@.len(),
            trim_path(s@) == trim_path(s@.take(end as int)),
            done ==> end > 0 && s@[end as int - 1] != '/' && trim_path(s@.take(end as int))
                == s@.take(end as int),
        decreases end, (if done { 0int } else { 1int }),
    {
        let ghost t = s@.take(end as int);
        let c = s.get_char(end - 1);
        if c == '/' {
            proof {
                assert(t.drop_last() =~= s@.take(end as int - 1));
            }
            end = end - 1;
        } else {
            let lone = end == 1 || s.get_char(end - 2) == '/';
            proof {
                lemma_file_name_single(t, c);
            }
            if c == '.' && lone {
                proof {
                    assert(t.take(end as int - 1) =~= s@.take(end as int - 1));
                }
                end = end - 1;
            } else {
                proof {
                    if c != '.' {
                        assert(t.len() == end as int);
                        assert(t[t.len() - 1] == c);
                        lemma_file_start_strict(t);
                        let fs = file_start(t);
                        assert(file_name(t) == t.skip(fs));
                        assert(t.skip(fs).len() == t.len() - fs);
                        assert(t.skip(fs)[t.len() - fs - 1] == t[t.len() - 1]);
                        assert(file_name(t) != seq!['.']) by {
                            if file_name(t) == seq!['.'] {
                                assert(file_name(t)[0] == '.');
                            }
                        }
                    }
                    assert(trim_path(t) == t);
                }
                done = true;
            }
        }
    }
    proof {
        if !done {
            assert(s@.take(0) =~= Seq::<char>::empty());
        }
    }
    end
}

/// Whether `p` lies strictly below `root`.
pub fn is_strictly_under(root: &str, p: &str) -> (r: bool)
    ensures
        r == strictly_under(root@, p@),
{
    let rn: usize = root.unicode_len();
    let pn: usize = p.unicode_len();
    rn < pn && is_prefix(root, p) && p.get_char(rn) == '/'
}

/// Drops the first character of `s`; the empty string stays empty.
pub fn strip(s: &str) -> (r: &str)
    ensures
        r@ == if s@.len() == 0 { s@ } else { s@.skip(1) },
{
    let n: usize = s.unicode_len();
    if n == 0 {
        s
    } else {
        let r = s.substring_char(1, n);
        proof {
            assert(r@ =~= s@.skip(1));
        }
        r
    }
}

/// Rewrites `p` relative to `root`: `Some` exactly when `p` lies strictly
/// below `root`, in which case the root prefix and the separator after it are
/// removed. Paths elsewhere (the workspace root itself included) yield `None`
/// and are thereby dropped from all further processing.
pub fn normalize(p: &str, root: &str) -> (r: Option<String>)
    ensures
        r is Some <==> strictly_under(root@, p@),
        r matches Some(q) ==> q@ == rel_to(root@, p@),
{
    if is_strictly_under(root, p) {
        let rn: usize = root.unicode_len();
        let pn: usize = p.unicode_len();
        let rest = p.substring_char(rn + 1, pn);
        proof {
            assert(rest@ =~= rel_to(root@, p@));
        }
        Some(rest.to_owned())
    } else {
        None
    }
}

} // verus!

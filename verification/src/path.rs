//! File names and extensions of `/`-separated paths, as `std::path::Path`
//! reads them on Unix.

use vstd::prelude::*;
use crate::text::{string_of_range, to_chars, str_eq};

verus! {

/// The path without trailing separators and trailing `.` components.
pub open spec fn strip_tail(p: Seq<char>) -> Seq<char>
    decreases p.len(),
{
    if p.len() > 0 && p.last() == '/' {
        strip_tail(p.drop_last())
    } else if p.len() == 1 && p[0] == '.' {
        Seq::empty()
    } else if p.len() >= 2 && p.last() == '.' && p[p.len() - 2] == '/' {
        strip_tail(p.subrange(0, p.len() - 2))
    } else {
        p
    }
}

/// The text after the last separator.
pub open spec fn after_last_slash(s: Seq<char>) -> Seq<char>
    decreases s.len(),
{
    if s.len() == 0 {
        s
    } else if s.last() == '/' {
        Seq::empty()
    } else {
        after_last_slash(s.drop_last()).push(s.last())
    }
}

/// `Path::file_name`: the last component, unless the path ends in `..` or
/// has no component.
pub open spec fn file_name_spec(p: Seq<char>) -> Option<Seq<char>> {
    let seg = after_last_slash(strip_tail(p));
    if seg.len() == 0 || seg == seq!['.', '.'] {
        None
    } else {
        Some(seg)
    }
}

/// The position of the last dot, or -1.
pub open spec fn last_dot(s: Seq<char>) -> int
    decreases s.len(),
{
    if s.len() == 0 {
        -1
    } else if s.last() == '.' {
        s.len() - 1
    } else {
        last_dot(s.drop_last())
    }
}

/// `Path::extension` of a file name: the text after its last dot, when that
/// dot is not its first character.
pub open spec fn extension_of(name: Seq<char>) -> Option<Seq<char>> {
    let k = last_dot(name);
    if k <= 0 {
        None
    } else {
        Some(name.skip(k + 1))
    }
}

/// `Path::extension` of a path.
pub open spec fn extension_spec(p: Seq<char>) -> Option<Seq<char>> {
    match file_name_spec(p) {
        Some(n) => extension_of(n),
        None => None,
    }
}

/// `Path::file_name` of a `/`-separated path.
pub fn file_name(p: &str) -> (r: Option<String>)
    ensures
        match r {
            Some(s) => file_name_spec(p@) == Some(s@),
            None => file_name_spec(p@) is None,
        },
{
    let v = to_chars(p);
    let mut end = v.len();
    assert(v@.take(end as int) =~= v@);
    loop
        invariant
            end <= v@.len(),
            v@ == p@,
            strip_tail(v@.take(end as int)) == strip_tail(p@),
        ensures
            end <= v@.len(),
            strip_tail(v@.take(end as int)) == strip_tail(p@),
            !(end > 0 && v@[end - 1] == '/'),
            !(end == 1 && v@[0] == '.'),
            !(end >= 2 && v@[end - 1] == '.' && v@[end - 2] == '/'),
        decreases end,
    {
        if end > 0 && v[end - 1] == '/' {
            assert(v@.take(end as int).drop_last() =~= v@.take(end - 1));
            end = end - 1;
        } else if end == 1 && v[0] == '.' {
            assert(strip_tail(v@.take(1)) =~= Seq::<char>::empty());
            assert(v@.take(0) =~= Seq::<char>::empty());
            end = 0;
        } else if end >= 2 && v[end - 1] == '.' && v[end - 2] == '/' {
            assert(v@.take(end as int).subrange(0, end - 2) =~= v@.take(end - 2));
            end = end - 2;
        } else {
            break;
        }
    }
    let ghost stripped = v@.take(end as int);
    proof {
        if end > 0 {
            assert(stripped.last() == v@[end - 1]);
        }
        if end >= 2 {
            assert(stripped[stripped.len() - 2] == v@[end - 2]);
        }
        if end == 1 {
            assert(stripped[0] == v@[0]);
        }
    }
    assert(strip_tail(stripped) == stripped);
    let mut start = end;
    while start > 0 && v[start - 1] != '/'
        invariant
            start <= end <= v@.len(),
            after_last_slash(v@.take(end as int)) == after_last_slash(v@.take(start as int)) + v@.subrange(start as int, end as int),
        decreases start,
    {
        assert(v@.take(start as int).drop_last() =~= v@.take(start - 1));
        assert(v@.subrange(start - 1, end as int) =~= seq![v@[start - 1]] + v@.subrange(start as int, end as int));
        assert(after_last_slash(v@.take(start as int)) == after_last_slash(v@.take(start - 1)).push(v@[start - 1]));
        assert(after_last_slash(v@.take(start - 1)).push(v@[start - 1]) + v@.subrange(start as int, end as int) =~= after_last_slash(v@.take(start - 1)) + v@.subrange(start - 1, end as int));
        start = start - 1;
    }
    assert(after_last_slash(v@.take(start as int)) =~= Seq::<char>::empty());
    assert(after_last_slash(stripped) =~= v@.subrange(start as int, end as int));
    if end == start || (end - start == 2 && v[start] == '.' && v[start + 1] == '.') {
        proof {
            if end - start == 2 && v@[start as int] == '.' && v@[start + 1] == '.' {
                assert(v@.subrange(start as int, end as int) =~= seq!['.', '.']);
            }
        }
        None
    } else {
        proof {
            if v@.subrange(start as int, end as int) == seq!['.', '.'] {
                assert(v@.subrange(start as int, end as int)[0] == '.');
                assert(v@.subrange(start as int, end as int)[1] == '.');
            }
        }
        Some(string_of_range(v.as_slice(), start, end))
    }
}

/// `Path::extension` of a `/`-separated path.
pub fn extension(p: &str) -> (r: Option<String>)
    ensures
        match r {
            Some(s) => extension_spec(p@) == Some(s@),
            None => extension_spec(p@) is None,
        },
{
    let name = match file_name(p) {
        Some(n) => n,
        None => {
            return None;
        },
    };
    let v = to_chars(name.as_str());
    let mut k = v.len();
    assert(v@.take(k as int) =~= v@);
    while k > 0 && v[k - 1] != '.'
        invariant
            k <= v@.len(),
            last_dot(v@.take(k as int)) == last_dot(v@),
        decreases k,
    {
        assert(v@.take(k as int).drop_last() =~= v@.take(k - 1));
        k = k - 1;
    }
    assert(v@.take(v@.len() as int) =~= v@);
    if k <= 1 {
        proof {
            if k == 1 {
                assert(v@.take(1).last() == '.');
            } else {
                assert(v@.take(0).len() == 0);
            }
        }
        None
    } else {
        assert(v@.take(k as int).last() == '.');
        Some(string_of_range(v.as_slice(), k, v.len()))
    }
}

} // verus!

verus! {

/// Whether the extension of `p` is `e`.
pub fn ext_is(p: &str, e: &str) -> (r: bool)
    ensures
        r == (extension_spec(p@) == Some(e@)),
{
    match extension(p) {
        Some(x) => str_eq(x.as_str(), e),
        None => false,
    }
}

/// Whether the file name of `p` is `n`.
pub fn name_is(p: &str, n: &str) -> (r: bool)
    ensures
        r == (file_name_spec(p@) == Some(n@)),
{
    match file_name(p) {
        Some(x) => str_eq(x.as_str(), n),
        None => false,
    }
}

/// `s` without its leading separators.
pub open spec fn drop_slashes(s: Seq<char>) -> Seq<char>
    decreases s.len(),
{
    if s.len() > 0 && s[0] == '/' {
        drop_slashes(s.drop_first())
    } else {
        s
    }
}

/// `p` relative to `root` (`Path::strip_prefix`, for paths written without
/// `.` components or doubled separators, as a directory walk gives them), or
/// `p` itself when `root` does not lead it.
pub open spec fn rel_path(root: Seq<char>, p: Seq<char>) -> Seq<char> {
    let n = root.len();
    if n > 0 && n <= p.len() && p.take(n as int) == root && (n == p.len() || p[n as int] == '/'
        || root[n - 1] == '/') {
        drop_slashes(p.skip(n as int))
    } else {
        p
    }
}

/// `p` relative to `root`.
pub fn rel_path_of(root: &str, p: &str) -> (r: String)
    ensures
        r@ == rel_path(root@, p@),
{
    let rv = to_chars(root);
    let pv = to_chars(p);
    let n = rv.len();
    if n == 0 || n > pv.len() {
        return string_of_range(pv.as_slice(), 0, pv.len());
    }
    let mut i: usize = 0;
    while i < n
        invariant
            i <= n <= pv@.len(),
            n == rv@.len(),
            pv@ == p@,
            rv@ == root@,
            forall|j: int| 0 <= j < i ==> pv@[j] == rv@[j],
        decreases n - i,
    {
        if pv[i] != rv[i] {
            proof {
                assert(pv@.take(n as int)[i as int] != rv@[i as int]);
                assert(pv@.take(n as int) != rv@);
            }
            assert(pv@.subrange(0, pv@.len() as int) =~= pv@);
            return string_of_range(pv.as_slice(), 0, pv.len());
        }
        i = i + 1;
    }
    assert(pv@.take(n as int) =~= rv@);
    if !(n == pv.len() || pv[n] == '/' || rv[n - 1] == '/') {
        assert(pv@.subrange(0, pv@.len() as int) =~= pv@);
        return string_of_range(pv.as_slice(), 0, pv.len());
    }
    let mut k = n;
    assert(pv@.subrange(n as int, pv@.len() as int) =~= pv@.skip(n as int));
    while k < pv.len() && pv[k] == '/'
        invariant
            n <= k <= pv@.len(),
            drop_slashes(pv@.subrange(k as int, pv@.len() as int)) == drop_slashes(pv@.skip(n as int)),
        decreases pv.len() - k,
    {
        assert(pv@.subrange(k as int, pv@.len() as int).drop_first() =~= pv@.subrange(k + 1, pv@.len() as int));
        k = k + 1;
    }
    string_of_range(pv.as_slice(), k, pv.len())
}


/// `Path::join` of a relative path: a separator between them unless `root`
/// is empty or already ends in one.
pub open spec fn join_path(root: Seq<char>, rel: Seq<char>) -> Seq<char> {
    if root.len() > 0 && root.last() != '/' {
        root + seq!['/'] + rel
    } else {
        root + rel
    }
}

/// `root` joined with the relative path `rel`.
pub fn join_path_of(root: &str, rel: &str) -> (r: String)
    requires
        !(rel@.len() > 0 && rel@[0] == '/'),
    ensures
        r@ == join_path(root@, rel@),
{
    let rv = to_chars(root);
    let mut s = String::from_str(root);
    if rv.len() > 0 && rv[rv.len() - 1] != '/' {
        crate::text::push_char(&mut s, '/');
    }
    crate::text::push_str(&mut s, rel);
    s
}

/// The path without trailing separators and trailing `.` components.
pub fn strip_tail_of(p: &str) -> (r: String)
    ensures
        r@ == strip_tail(p@),
{
    let v = to_chars(p);
    let mut end = v.len();
    assert(v@.take(end as int) =~= v@);
    loop
        invariant
            end <= v@.len(),
            v@ == p@,
            strip_tail(v@.take(end as int)) == strip_tail(p@),
        ensures
            end <= v@.len(),
            strip_tail(v@.take(end as int)) == v@.take(end as int),
            strip_tail(v@.take(end as int)) == strip_tail(p@),
        decreases end,
    {
        if end > 0 && v[end - 1] == '/' {
            assert(v@.take(end as int).drop_last() =~= v@.take(end - 1));
            end = end - 1;
        } else if end == 1 && v[0] == '.' {
            assert(strip_tail(v@.take(1)) =~= Seq::<char>::empty());
            assert(v@.take(0) =~= Seq::<char>::empty());
            end = 0;
        } else if end >= 2 && v[end - 1] == '.' && v[end - 2] == '/' {
            assert(v@.take(end as int).subrange(0, end - 2) =~= v@.take(end - 2));
            end = end - 2;
        } else {
            let ghost t = v@.take(end as int);
            proof {
                if end > 0 {
                    assert(t.last() == v@[end - 1]);
                }
                if end >= 2 {
                    assert(t[t.len() - 2] == v@[end - 2]);
                }
                if end == 1 {
                    assert(t[0] == v@[0]);
                }
            }
            break;
        }
    }
    assert(v@.subrange(0, end as int) =~= v@.take(end as int));
    string_of_range(v.as_slice(), 0, end)
}

/// `Path::with_extension` for a path whose extension has two characters:
/// its tail stripped, the old extension replaced by `e`.
pub open spec fn swap_ext2(p: Seq<char>, e: Seq<char>) -> Seq<char> {
    let t = strip_tail(p);
    t.take(t.len() - 2) + e
}

/// The path with its two-character extension replaced by `e`.
pub fn swap_ext2_of(p: &str, e: &str) -> (r: String)
    requires
        strip_tail(p@).len() >= 2,
    ensures
        r@ == swap_ext2(p@, e@),
{
    let t = strip_tail_of(p);
    let tv = to_chars(t.as_str());
    let mut s = string_of_range(tv.as_slice(), 0, tv.len() - 2);
    crate::text::push_str(&mut s, e);
    assert(tv@.subrange(0, tv@.len() - 2) =~= tv@.take(tv@.len() - 2));
    s
}


proof fn lemma_after_last_slash_len(s: Seq<char>)
    ensures
        after_last_slash(s).len() <= s.len(),
    decreases s.len(),
{
    if s.len() > 0 && s.last() != '/' {
        lemma_after_last_slash_len(s.drop_last());
    }
}

proof fn lemma_last_dot_bounds(s: Seq<char>)
    ensures
        -1 <= last_dot(s) < s.len(),
    decreases s.len(),
{
    if s.len() > 0 && s.last() != '.' {
        lemma_last_dot_bounds(s.drop_last());
    }
}

/// A path with a two-character extension keeps at least that much text
/// after its tail is stripped.
pub proof fn lemma_ext2_len(p: Seq<char>)
    requires
        extension_spec(p) matches Some(e) && e.len() == 2,
    ensures
        strip_tail(p).len() >= 2,
{
    lemma_after_last_slash_len(strip_tail(p));
    let n = file_name_spec(p)->0;
    lemma_last_dot_bounds(n);
    assert(n == after_last_slash(strip_tail(p)));
    assert(n.skip(last_dot(n) + 1).len() == 2);
}

} // verus!

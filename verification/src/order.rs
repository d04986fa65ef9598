//! The order of strings (`String`'s `Ord`) and of paths (`PathBuf`'s `Ord`),
//! and sorting by them.

use vstd::prelude::*;
use vstd::relations::{sorted_by, total_ordering};
use vstd::seq_lib::lemma_sorted_unique;
use crate::text::{to_chars, views, split_char, split_spec, str_eq};

verus! {

broadcast use vstd::seq_lib::group_to_multiset_ensures;

/// Lexicographic order of character sequences, which is the byte order of
/// their UTF-8 encodings.
pub open spec fn str_le(a: Seq<char>, b: Seq<char>) -> bool
    decreases a.len(),
{
    if a.len() == 0 {
        true
    } else if b.len() == 0 {
        false
    } else if a[0] != b[0] {
        a[0] < b[0]
    } else {
        str_le(a.drop_first(), b.drop_first())
    }
}

pub proof fn lemma_str_le_antisym(a: Seq<char>, b: Seq<char>)
    requires
        str_le(a, b),
        str_le(b, a),
    ensures
        a == b,
    decreases a.len(),
{
    if a.len() == 0 {
        assert(b.len() == 0);
        assert(a =~= b);
    } else {
        lemma_str_le_antisym(a.drop_first(), b.drop_first());
        assert(a =~= seq![a[0]] + a.drop_first());
        assert(b =~= seq![b[0]] + b.drop_first());
    }
}

pub proof fn lemma_str_le_trans(a: Seq<char>, b: Seq<char>, c: Seq<char>)
    requires
        str_le(a, b),
        str_le(b, c),
    ensures
        str_le(a, c),
    decreases a.len(),
{
    if a.len() > 0 && b.len() > 0 && c.len() > 0 && a[0] == b[0] && b[0] == c[0] {
        lemma_str_le_trans(a.drop_first(), b.drop_first(), c.drop_first());
    }
}

pub proof fn lemma_str_le_total(a: Seq<char>, b: Seq<char>)
    ensures
        str_le(a, b) || str_le(b, a),
    decreases a.len(),
{
    if a.len() > 0 && b.len() > 0 && a[0] == b[0] {
        lemma_str_le_total(a.drop_first(), b.drop_first());
    }
}

pub proof fn lemma_str_le_refl(a: Seq<char>)
    ensures
        str_le(a, a),
    decreases a.len(),
{
    if a.len() > 0 {
        lemma_str_le_refl(a.drop_first());
    }
}

pub proof fn lemma_str_le_total_ordering()
    ensures
        total_ordering(|a: Seq<char>, b: Seq<char>| str_le(a, b)),
{
    let r = |a: Seq<char>, b: Seq<char>| str_le(a, b);
    assert forall|x: Seq<char>| #[trigger] r(x, x) by {
        lemma_str_le_refl(x);
    }
    assert forall|x: Seq<char>, y: Seq<char>| #[trigger] r(x, y) && #[trigger] r(y, x) implies x == y by {
        lemma_str_le_antisym(x, y);
    }
    assert forall|x: Seq<char>, y: Seq<char>, z: Seq<char>| #[trigger] r(x, y) && #[trigger] r(y, z) implies r(x, z) by {
        lemma_str_le_trans(x, y, z);
    }
    assert forall|x: Seq<char>, y: Seq<char>| #[trigger] r(x, y) || #[trigger] r(y, x) by {
        lemma_str_le_total(x, y);
    }
}

/// Whether `a` comes no later than `b` in string order.
pub fn str_le_exec(a: &str, b: &str) -> (r: bool)
    ensures
        r == str_le(a@, b@),
{
    let x = to_chars(a);
    let y = to_chars(b);
    let mut i: usize = 0;
    assert(x@.skip(0) =~= x@);
    assert(y@.skip(0) =~= y@);
    while i < x.len() && i < y.len() && x[i] == y[i]
        invariant
            i <= x@.len(),
            i <= y@.len(),
            str_le(x@.skip(i as int), y@.skip(i as int)) == str_le(a@, b@),
            x@ == a@,
            y@ == b@,
        decreases x.len() - i,
    {
        assert(x@.skip(i as int).drop_first() =~= x@.skip(i + 1));
        assert(y@.skip(i as int).drop_first() =~= y@.skip(i + 1));
        i = i + 1;
    }
    if i == x.len() {
        true
    } else if i == y.len() {
        false
    } else {
        assert(x@.skip(i as int)[0] == x@[i as int]);
        assert(y@.skip(i as int)[0] == y@[i as int]);
        x[i] < y[i]
    }
}

/// The strings of `v` in string order (`<[String]>::sort`).
#[verifier::loop_isolation(false)]
pub fn sort_strings(v: &Vec<String>) -> (r: Vec<String>)
    ensures
        views(r@) == views(v@).sort_by(|a: Seq<char>, b: Seq<char>| str_le(a, b)),
{
    let ghost leq = |a: Seq<char>, b: Seq<char>| str_le(a, b);
    proof {
        lemma_str_le_total_ordering();
    }
    let mut out: Vec<String> = Vec::new();
    let mut i: usize = 0;
    while i < v.len()
        invariant
            i <= v@.len(),
            total_ordering(leq),
            sorted_by(views(out@), leq),
            views(out@).to_multiset() == views(v@.take(i as int)).to_multiset(),
        decreases v.len() - i,
    {
        let x = v[i].clone();
        let mut p: usize = 0;
        while p < out.len() && str_le_exec(out[p].as_str(), x.as_str())
            invariant
                p <= out@.len(),
                forall|k: int| 0 <= k < p ==> leq(#[trigger] views(out@)[k], x@),
            decreases out.len() - p,
        {
            p = p + 1;
        }
        let ghost before = views(out@);
        proof {
            if p < out@.len() {
                lemma_str_le_total(out@[p as int]@, x@);
            }
        }
        out.insert(p, x);
        proof {
            assert(views(out@) =~= before.insert(p as int, x@));
            assert forall|a: int, b: int| 0 <= a < b < views(out@).len() implies #[trigger] leq(views(out@)[a], views(out@)[b]) by {
                let s = views(out@);
                if b < p {
                } else if a < p && b == p {
                } else if a < p && b > p {
                    assert(leq(before[a], x@));
                    assert(leq(x@, before[p as int]));
                    if b - 1 > p {
                        assert(leq(before[p as int], before[b - 1]));
                    }
                } else if a == p {
                    assert(leq(x@, before[p as int]));
                    if b - 1 > p {
                        assert(leq(before[p as int], before[b - 1]));
                    }
                } else {
                    assert(leq(before[a - 1], before[b - 1]));
                }
            }
            assert(v@.take(i + 1) =~= v@.take(i as int).push(v@[i as int]));
            assert(views(v@.take(i + 1)) =~= views(v@.take(i as int)).push(v@[i as int]@));
        }
        i = i + 1;
    }
    proof {
        assert(v@.take(v@.len() as int) =~= v@);
        views(v@).lemma_sort_by_ensures(leq);
        lemma_sorted_unique(views(out@), views(v@).sort_by(leq), leq);
    }
    out
}

pub open spec fn str_lt(a: Seq<char>, b: Seq<char>) -> bool {
    str_le(a, b) && a != b
}

/// Lexicographic order of component lists, each component in string order.
pub open spec fn comps_lt(x: Seq<Seq<char>>, y: Seq<Seq<char>>) -> bool
    decreases x.len(),
{
    if x.len() == 0 {
        y.len() > 0
    } else if y.len() == 0 {
        false
    } else if x[0] != y[0] {
        str_lt(x[0], y[0])
    } else {
        comps_lt(x.drop_first(), y.drop_first())
    }
}

/// `PathBuf`'s order on `/`-separated paths written as a directory walk
/// gives them (no doubled or trailing separators, no `.` components):
/// component by component, the components being the text split at each
/// separator.
pub open spec fn path_le(a: Seq<char>, b: Seq<char>) -> bool {
    comps_lt(split_spec(a, '/'), split_spec(b, '/')) || (split_spec(a, '/') == split_spec(b, '/') && str_le(a, b))
}

proof fn lemma_comps_lt_irrefl(x: Seq<Seq<char>>)
    ensures
        !comps_lt(x, x),
    decreases x.len(),
{
    if x.len() > 0 {
        lemma_comps_lt_irrefl(x.drop_first());
    }
}

proof fn lemma_comps_lt_trans(x: Seq<Seq<char>>, y: Seq<Seq<char>>, z: Seq<Seq<char>>)
    requires
        comps_lt(x, y),
        comps_lt(y, z),
    ensures
        comps_lt(x, z),
    decreases x.len(),
{
    if x.len() > 0 && y.len() > 0 && z.len() > 0 {
        if x[0] == y[0] && y[0] == z[0] {
            lemma_comps_lt_trans(x.drop_first(), y.drop_first(), z.drop_first());
        } else if x[0] != y[0] && y[0] != z[0] {
            lemma_str_le_trans(x[0], y[0], z[0]);
            if x[0] == z[0] {
                lemma_str_le_antisym(x[0], y[0]);
            }
        }
    }
}

proof fn lemma_comps_lt_asym(x: Seq<Seq<char>>, y: Seq<Seq<char>>)
    requires
        comps_lt(x, y),
    ensures
        !comps_lt(y, x),
    decreases x.len(),
{
    if x.len() > 0 && y.len() > 0 {
        if x[0] == y[0] {
            lemma_comps_lt_asym(x.drop_first(), y.drop_first());
        } else if str_le(y[0], x[0]) {
            lemma_str_le_antisym(x[0], y[0]);
        }
    }
}

proof fn lemma_comps_lt_connected(x: Seq<Seq<char>>, y: Seq<Seq<char>>)
    requires
        x != y,
    ensures
        comps_lt(x, y) || comps_lt(y, x),
    decreases x.len(),
{
    if x.len() == 0 {
        assert(y.len() > 0) by {
            if y.len() == 0 {
                assert(x =~= y);
            }
        }
    } else if y.len() > 0 {
        if x[0] == y[0] {
            if x.drop_first() == y.drop_first() {
                assert(x =~= seq![x[0]] + x.drop_first());
                assert(y =~= seq![y[0]] + y.drop_first());
            }
            lemma_comps_lt_connected(x.drop_first(), y.drop_first());
        } else {
            lemma_str_le_total(x[0], y[0]);
        }
    }
}

pub proof fn lemma_path_le_total_ordering()
    ensures
        total_ordering(|a: Seq<char>, b: Seq<char>| path_le(a, b)),
{
    let r = |a: Seq<char>, b: Seq<char>| path_le(a, b);
    assert forall|x: Seq<char>| #[trigger] r(x, x) by {
        lemma_str_le_refl(x);
    }
    assert forall|x: Seq<char>, y: Seq<char>| #[trigger] r(x, y) && #[trigger] r(y, x) implies x == y by {
        let cx = split_spec(x, '/');
        let cy = split_spec(y, '/');
        lemma_comps_lt_irrefl(cx);
        if comps_lt(cx, cy) {
            lemma_comps_lt_asym(cx, cy);
        } else if comps_lt(cy, cx) {
            lemma_comps_lt_asym(cy, cx);
        } else {
            lemma_str_le_antisym(x, y);
        }
    }
    assert forall|x: Seq<char>, y: Seq<char>, z: Seq<char>| #[trigger] r(x, y) && #[trigger] r(y, z) implies r(x, z) by {
        let cx = split_spec(x, '/');
        let cy = split_spec(y, '/');
        let cz = split_spec(z, '/');
        if comps_lt(cx, cy) && comps_lt(cy, cz) {
            lemma_comps_lt_trans(cx, cy, cz);
        } else if cx == cy && cy == cz {
            lemma_str_le_trans(x, y, z);
        }
    }
    assert forall|x: Seq<char>, y: Seq<char>| #[trigger] r(x, y) || #[trigger] r(y, x) by {
        let cx = split_spec(x, '/');
        let cy = split_spec(y, '/');
        if cx == cy {
            lemma_str_le_total(x, y);
        } else {
            lemma_comps_lt_connected(cx, cy);
        }
    }
}

fn comps_lt_exec(x: &Vec<String>, y: &Vec<String>) -> (r: bool)
    ensures
        r == comps_lt(views(x@), views(y@)),
{
    let ghost vx = views(x@);
    let ghost vy = views(y@);
    let mut i: usize = 0;
    assert(vx.skip(0) =~= vx);
    assert(vy.skip(0) =~= vy);
    while i < x.len() && i < y.len() && str_eq(x[i].as_str(), y[i].as_str())
        invariant
            i <= x@.len(),
            i <= y@.len(),
            vx == views(x@),
            vy == views(y@),
            comps_lt(vx.skip(i as int), vy.skip(i as int)) == comps_lt(vx, vy),
        decreases x.len() - i,
    {
        assert(vx.skip(i as int).drop_first() =~= vx.skip(i + 1));
        assert(vy.skip(i as int).drop_first() =~= vy.skip(i + 1));
        i = i + 1;
    }
    if i == x.len() {
        i < y.len()
    } else if i == y.len() {
        false
    } else {
        assert(vx.skip(i as int)[0] == x@[i as int]@);
        assert(vy.skip(i as int)[0] == y@[i as int]@);
        str_le_exec(x[i].as_str(), y[i].as_str())
    }
}

/// Whether path `a` comes no later than path `b`.
pub fn path_le_exec(a: &str, b: &str) -> (r: bool)
    ensures
        r == path_le(a@, b@),
{
    let ca = split_char(a, '/');
    let cb = split_char(b, '/');
    if comps_lt_exec(&ca, &cb) {
        return true;
    }
    if comps_lt_exec(&cb, &ca) {
        proof {
            lemma_comps_lt_asym(views(cb@), views(ca@));
            lemma_comps_lt_irrefl(views(ca@));
        }
        return false;
    }
    proof {
        if views(ca@) != views(cb@) {
            lemma_comps_lt_connected(views(ca@), views(cb@));
        }
    }
    str_le_exec(a, b)
}

/// The paths of `v` in path order (`<[PathBuf]>::sort`).
#[verifier::loop_isolation(false)]
pub fn sort_paths(v: &Vec<String>) -> (r: Vec<String>)
    ensures
        views(r@) == views(v@).sort_by(|a: Seq<char>, b: Seq<char>| path_le(a, b)),
{
    let ghost leq = |a: Seq<char>, b: Seq<char>| path_le(a, b);
    proof {
        lemma_path_le_total_ordering();
    }
    let mut out: Vec<String> = Vec::new();
    let mut i: usize = 0;
    while i < v.len()
        invariant
            i <= v@.len(),
            total_ordering(leq),
            sorted_by(views(out@), leq),
            views(out@).to_multiset() == views(v@.take(i as int)).to_multiset(),
        decreases v.len() - i,
    {
        let x = v[i].clone();
        let mut p: usize = 0;
        while p < out.len() && path_le_exec(out[p].as_str(), x.as_str())
            invariant
                p <= out@.len(),
                forall|k: int| 0 <= k < p ==> leq(#[trigger] views(out@)[k], x@),
            decreases out.len() - p,
        {
            p = p + 1;
        }
        let ghost before = views(out@);
        proof {
            if p < out@.len() {
                assert(leq(before[p as int], x@) || leq(x@, before[p as int]));
            }
        }
        out.insert(p, x);
        proof {
            assert(views(out@) =~= before.insert(p as int, x@));
            assert forall|a: int, b: int| 0 <= a < b < views(out@).len() implies #[trigger] leq(views(out@)[a], views(out@)[b]) by {
                if b < p {
                } else if a < p && b == p {
                } else if a < p && b > p {
                    assert(leq(before[a], x@));
                    assert(leq(x@, before[p as int]));
                    if b - 1 > p {
                        assert(leq(before[p as int], before[b - 1]));
                    }
                } else if a == p {
                    assert(leq(x@, before[p as int]));
                    if b - 1 > p {
                        assert(leq(before[p as int], before[b - 1]));
                    }
                } else {
                    assert(leq(before[a - 1], before[b - 1]));
                }
            }
            assert(v@.take(i + 1) =~= v@.take(i as int).push(v@[i as int]));
            assert(views(v@.take(i + 1)) =~= views(v@.take(i as int)).push(v@[i as int]@));
        }
        i = i + 1;
    }
    proof {
        assert(v@.take(v@.len() as int) =~= v@);
        views(v@).lemma_sort_by_ensures(leq);
        lemma_sorted_unique(views(out@), views(v@).sort_by(leq), leq);
    }
    out
}

} // verus!

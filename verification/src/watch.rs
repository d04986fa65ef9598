//! Change detection for the watch loops: the sizes recorded after the last
//! run against the sizes seen now.

use vstd::prelude::*;
use crate::text::str_eq;

verus! {

/// A path and its recorded size.
pub open spec fn rec_view(r: (String, u64)) -> (Seq<char>, u64) {
    (r.0@, r.1)
}

pub open spec fn rec_views(v: Seq<(String, u64)>) -> Seq<(Seq<char>, u64)> {
    v.map_values(|r: (String, u64)| rec_view(r))
}

/// A path and its size now, when its size could be read.
pub open spec fn seen_views(v: Seq<(String, Option<u64>)>) -> Seq<(Seq<char>, Option<u64>)> {
    v.map_values(|r: (String, Option<u64>)| (r.0@, r.1))
}

/// The size recorded first for `p`.
pub open spec fn first_size(last: Seq<(Seq<char>, u64)>, p: Seq<char>) -> Option<u64>
    decreases last.len(),
{
    if last.len() == 0 {
        None
    } else if last[0].0 == p {
        Some(last[0].1)
    } else {
        first_size(last.drop_first(), p)
    }
}

/// Whether a file seen now is new or has changed size: some file whose size
/// could be read has no record, or a first record with another size.
pub open spec fn changed(last: Seq<(Seq<char>, u64)>, now: Seq<(Seq<char>, Option<u64>)>) -> bool {
    exists|i: int|
        0 <= i < now.len() && (#[trigger] now[i]).1 is Some && first_size(last, now[i].0) != now[i].1
}

/// The records taken after a change: the files seen now whose size could be
/// read, in order.
pub open spec fn records(now: Seq<(Seq<char>, Option<u64>)>) -> Seq<(Seq<char>, u64)>
    decreases now.len(),
{
    if now.len() == 0 {
        Seq::empty()
    } else {
        let r = records(now.drop_last());
        match now.last().1 {
            Some(s) => r.push((now.last().0, s)),
            None => r,
        }
    }
}

fn first_size_of(last: &Vec<(String, u64)>, p: &str) -> (r: Option<u64>)
    ensures
        r == first_size(rec_views(last@), p@),
{
    let ghost lv = rec_views(last@);
    let mut i: usize = 0;
    assert(lv.subrange(0, lv.len() as int) =~= lv);
    while i < last.len()
        invariant
            i <= last@.len() == lv.len(),
            lv == rec_views(last@),
            first_size(lv.subrange(i as int, lv.len() as int), p@) == first_size(lv, p@),
        decreases last.len() - i,
    {
        let ghost rest = lv.subrange(i as int, lv.len() as int);
        assert(rest[0] == rec_view(last@[i as int]));
        if str_eq(last[i].0.as_str(), p) {
            return Some(last[i].1);
        }
        assert(rest.drop_first() =~= lv.subrange(i + 1, lv.len() as int));
        i = i + 1;
    }
    None
}

/// One look at the watched files: the new records when something changed,
/// `None` when nothing did.
pub fn watch_step(last: &Vec<(String, u64)>, now: &Vec<(String, Option<u64>)>) -> (r: Option<Vec<(String, u64)>>)
    ensures
        r is Some <==> changed(rec_views(last@), seen_views(now@)),
        r matches Some(v) ==> rec_views(v@) == records(seen_views(now@)),
{
    let ghost lv = rec_views(last@);
    let ghost nv = seen_views(now@);
    let mut found = false;
    let mut i: usize = 0;
    while i < now.len() && !found
        invariant
            i <= now@.len() == nv.len(),
            lv == rec_views(last@),
            nv == seen_views(now@),
            found ==> changed(lv, nv),
            !found ==> forall|j: int| 0 <= j < i ==> !((#[trigger] nv[j]).1 is Some && first_size(lv, nv[j].0) != nv[j].1),
        decreases now.len() - i + (if found { 0int } else { 1int }),
    {
        assert(nv[i as int] == (now@[i as int].0@, now@[i as int].1));
        match now[i].1 {
            Some(s) => {
                let f = first_size_of(last, now[i].0.as_str());
                if f != Some(s) {
                    found = true;
                } else {
                    i = i + 1;
                }
            },
            None => {
                i = i + 1;
            },
        }
    }
    if !found {
        return None;
    }
    let mut out: Vec<(String, u64)> = Vec::new();
    let mut k: usize = 0;
    while k < now.len()
        invariant
            k <= now@.len() == nv.len(),
            nv == seen_views(now@),
            rec_views(out@) == records(nv.take(k as int)),
        decreases now.len() - k,
    {
        assert(nv.take(k + 1).drop_last() =~= nv.take(k as int));
        assert(nv[k as int] == (now@[k as int].0@, now@[k as int].1));
        match now[k].1 {
            Some(s) => {
                let ghost before = out@;
                out.push((now[k].0.clone(), s));
                assert(rec_views(out@) =~= rec_views(before).push((now@[k as int].0@, s)));
            },
            None => {},
        }
        k = k + 1;
    }
    assert(nv.take(nv.len() as int) =~= nv);
    Some(out)
}

} // verus!

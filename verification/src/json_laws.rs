//! Laws of the JSON value operations.

use vstd::prelude::*;
use crate::json::{JVal, lookup, has_key, get_spec, set_spec, without_key, remove_spec, lemma_lookup_none};

verus! {

proof fn lemma_lookup_push(ps: Seq<(Seq<char>, JVal)>, x: (Seq<char>, JVal), k: Seq<char>)
    ensures
        lookup(ps.push(x), k) == if has_key(ps, k) {
            lookup(ps, k)
        } else if x.0 == k {
            Some(x.1)
        } else {
            None
        },
    decreases ps.len(),
{
    lemma_lookup_none(ps, k);
    if ps.len() == 0 {
        assert(ps.push(x).drop_first() =~= ps);
    } else {
        assert(ps.push(x).drop_first() =~= ps.drop_first().push(x));
        lemma_lookup_push(ps.drop_first(), x, k);
        lemma_lookup_none(ps.drop_first(), k);
        assert(ps.push(x)[0] == ps[0]);
    }
}

proof fn lemma_has_key_push(ps: Seq<(Seq<char>, JVal)>, x: (Seq<char>, JVal), k: Seq<char>)
    ensures
        has_key(ps.push(x), k) == (has_key(ps, k) || x.0 == k),
{
    if has_key(ps, k) {
        let i = choose|i: int| 0 <= i < ps.len() && #[trigger] ps[i].0 == k;
        assert(ps.push(x)[i].0 == k);
    }
    if x.0 == k {
        assert(ps.push(x)[ps.len() as int].0 == k);
    }
    if has_key(ps.push(x), k) {
        let i = choose|i: int| 0 <= i < ps.push(x).len() && #[trigger] ps.push(x)[i].0 == k;
        if i < ps.len() {
            assert(ps[i].0 == k);
        }
    }
}

proof fn lemma_without_key(ps: Seq<(Seq<char>, JVal)>, k: Seq<char>, k2: Seq<char>)
    ensures
        has_key(without_key(ps, k), k2) == (k2 != k && has_key(ps, k2)),
        lookup(without_key(ps, k), k2) == if k2 == k {
            None
        } else {
            lookup(ps, k2)
        },
    decreases ps.len(),
{
    if ps.len() == 0 {
        lemma_lookup_none(ps, k2);
        lemma_lookup_none(without_key(ps, k), k2);
    } else {
        let s = ps.drop_last();
        let x = ps.last();
        assert(ps =~= s.push(x));
        lemma_without_key(s, k, k2);
        lemma_lookup_push(s, x, k2);
        lemma_has_key_push(s, x, k2);
        if x.0 != k {
            lemma_lookup_push(without_key(s, k), x, k2);
            lemma_has_key_push(without_key(s, k), x, k2);
        }
        lemma_lookup_none(without_key(s, k), k2);
        lemma_lookup_none(s, k2);
        lemma_lookup_none(without_key(ps, k), k2);
        lemma_lookup_none(ps, k2);
    }
}

/// Reading back a member that `set` wrote: on an object that had no member
/// of that name, `get` gives the value that was set; on one that had, `get`
/// gives what it gave before. Members of other names read as before.
pub proof fn law_get_after_set(v: JVal, k: Seq<char>, x: JVal, k2: Seq<char>)
    ensures
        v is Obj ==> get_spec(set_spec(v, k, x), k) == (if get_spec(v, k) is Some {
            get_spec(v, k)
        } else {
            Some(x)
        }),
        k2 != k ==> get_spec(set_spec(v, k, x), k2) == get_spec(v, k2),
{
    if let JVal::Obj(ps) = v {
        lemma_lookup_none(ps, k);
        lemma_lookup_push(ps, (k, x), k);
        lemma_lookup_push(ps, (k, x), k2);
        lemma_lookup_none(ps, k2);
    }
}

/// After `remove`, `get` finds no member of that name, and members of other
/// names read as before.
pub proof fn law_get_after_remove(v: JVal, k: Seq<char>, k2: Seq<char>)
    ensures
        get_spec(remove_spec(v, k), k) is None,
        k2 != k ==> get_spec(remove_spec(v, k), k2) == get_spec(v, k2),
{
    if let JVal::Obj(ps) = v {
        lemma_without_key(ps, k, k);
        lemma_without_key(ps, k, k2);
    }
}

proof fn lemma_without_key_idem(ps: Seq<(Seq<char>, JVal)>, k: Seq<char>)
    ensures
        without_key(without_key(ps, k), k) == without_key(ps, k),
    decreases ps.len(),
{
    if ps.len() > 0 {
        lemma_without_key_idem(ps.drop_last(), k);
        let w = without_key(ps.drop_last(), k);
        if ps.last().0 != k {
            assert(w.push(ps.last()).drop_last() =~= w);
        }
    }
}

/// Removing a member twice is the same as removing it once.
pub proof fn law_remove_idempotent(v: JVal, k: Seq<char>)
    ensures
        remove_spec(remove_spec(v, k), k) == remove_spec(v, k),
{
    if let JVal::Obj(ps) = v {
        lemma_without_key_idem(ps, k);
    }
}

/// Setting a member that is already there changes nothing.
pub proof fn law_set_existing_unchanged(v: JVal, k: Seq<char>, x: JVal)
    requires
        get_spec(v, k) is Some,
    ensures
        set_spec(v, k, x) == v,
{
    if let JVal::Obj(ps) = v {
        lemma_lookup_none(ps, k);
    }
}

} // verus!

//! The release list that GitHub's API answers with, and the choice of a
//! release from it.

use vstd::prelude::*;
use vstd::utf8::encode_utf8;
use crate::json::{
    Value, JVal, model, model_items, model_pairs, parse, parse_spec, lemma_model_items_index,
    lemma_model_pairs_index,
};
use crate::text::str_eq;

verus! {

/// A release: its tag, its name, and whether it is a pre-release.
pub type Release = (String, String, bool);

pub open spec fn release_view(r: Release) -> (Seq<char>, Seq<char>, bool) {
    (r.0@, r.1@, r.2)
}

pub open spec fn release_views(v: Seq<Release>) -> Seq<(Seq<char>, Seq<char>, bool)> {
    v.map_values(|r: Release| release_view(r))
}

/// The tag, name and pre-release flag of a release object: for each, the
/// last member of that name with a value of the right kind.
pub open spec fn release_fields(ps: Seq<(Seq<char>, JVal)>) -> (Seq<char>, Seq<char>, bool)
    decreases ps.len(),
{
    if ps.len() == 0 {
        (Seq::empty(), Seq::empty(), false)
    } else {
        let (t, n, p) = release_fields(ps.drop_last());
        let (k, v) = ps.last();
        if k == "tag_name"@ && v is Str {
            (v->Str_0, n, p)
        } else if k == "name"@ && v is Str {
            (t, v->Str_0, p)
        } else if k == "prerelease"@ && v is Bool {
            (t, n, v->Bool_0)
        } else {
            (t, n, p)
        }
    }
}

/// The releases among the items of the list: the objects with a tag.
pub open spec fn releases_of(items: Seq<JVal>) -> Seq<(Seq<char>, Seq<char>, bool)>
    decreases items.len(),
{
    if items.len() == 0 {
        Seq::empty()
    } else {
        let r = releases_of(items.drop_last());
        match items.last() {
            JVal::Obj(ps) => if release_fields(ps).0.len() > 0 {
                r.push(release_fields(ps))
            } else {
                r
            },
            _ => r,
        }
    }
}

/// The releases in the API's answer; none when it is not a JSON array.
pub open spec fn releases_spec(raw: Seq<char>) -> Seq<(Seq<char>, Seq<char>, bool)> {
    match parse_spec(raw) {
        Some(JVal::Arr(items)) => releases_of(items),
        _ => Seq::empty(),
    }
}

fn release_of_pairs(pairs: &Vec<(String, Value)>) -> (r: Release)
    ensures
        release_view(r) == release_fields(model_pairs(pairs@)),
{
    proof {
        lemma_model_pairs_index(pairs@);
    }
    let ghost ps = model_pairs(pairs@);
    let mut tag = String::new();
    let mut name = String::new();
    let mut pre = false;
    let mut i: usize = 0;
    while i < pairs.len()
        invariant
            i <= pairs@.len() == ps.len(),
            ps == model_pairs(pairs@),
            forall|j: int| 0 <= j < ps.len() ==> #[trigger] ps[j] == (pairs@[j].0@, model(pairs@[j].1)),
            (tag@, name@, pre) == release_fields(ps.take(i as int)),
        decreases pairs.len() - i,
    {
        assert(ps.take(i + 1).drop_last() =~= ps.take(i as int));
        assert(ps.take(i + 1).last() == ps[i as int]);
        let k = pairs[i].0.as_str();
        match &pairs[i].1 {
            Value::String(s) => {
                if str_eq(k, "tag_name") {
                    tag = s.clone();
                } else if str_eq(k, "name") {
                    name = s.clone();
                }
            },
            Value::Boolean(b) => {
                if str_eq(k, "prerelease") {
                    pre = *b;
                }
            },
            _ => {},
        }
        i = i + 1;
    }
    assert(ps.take(ps.len() as int) =~= ps);
    (tag, name, pre)
}

/// The releases listed in the API's answer `raw`.
pub fn releases_from_json(raw: &str) -> (r: Vec<Release>)
    requires
        encode_utf8(raw@).len() < usize::MAX,
    ensures
        release_views(r@) == releases_spec(raw@),
{
    let mut out: Vec<Release> = Vec::new();
    if raw.as_bytes().len() == 0 {
        proof {
            assert(raw@.len() == 0) by {
                if raw@.len() > 0 {
                    assert(encode_utf8(raw@).len() > 0);
                }
            }
            assert(crate::text::trim(raw@).len() == 0);
        }
        assert(release_views(out@) =~= Seq::empty());
        return out;
    }
    match parse(raw) {
        Some(Value::Array(items)) => {
            proof {
                lemma_model_items_index(items@);
            }
            let ghost xs = model_items(items@);
            let mut i: usize = 0;
            assert(release_views(out@) =~= Seq::empty());
            while i < items.len()
                invariant
                    i <= items@.len() == xs.len(),
                    xs == model_items(items@),
                    forall|j: int| 0 <= j < xs.len() ==> #[trigger] xs[j] == model(items@[j]),
                    release_views(out@) == releases_of(xs.take(i as int)),
                decreases items.len() - i,
            {
                assert(xs.take(i + 1).drop_last() =~= xs.take(i as int));
                assert(xs.take(i + 1).last() == xs[i as int]);
                match &items[i] {
                    Value::Object(pairs) => {
                        let rel = release_of_pairs(pairs);
                        if rel.0.as_str().as_bytes().len() > 0 {
                            let ghost before = out@;
                            out.push(rel);
                            assert(release_views(out@) =~= release_views(before).push(release_view(rel)));
                        } else {
                            assert(rel.0@.len() == 0) by {
                                if rel.0@.len() > 0 {
                                    assert(encode_utf8(rel.0@).len() > 0);
                                }
                            }
                        }
                    },
                    _ => {},
                }
                i = i + 1;
            }
            assert(xs.take(xs.len() as int) =~= xs);
            out
        },
        _ => out,
    }
}

/// The tag of the first release that is not a pre-release.
pub open spec fn first_stable(rs: Seq<(Seq<char>, Seq<char>, bool)>) -> Option<Seq<char>>
    decreases rs.len(),
{
    if rs.len() == 0 {
        None
    } else if !rs[0].2 {
        Some(rs[0].0)
    } else {
        first_stable(rs.drop_first())
    }
}

/// The tag of the first release that is not a pre-release.
pub fn first_stable_tag(rs: &[Release]) -> (r: Option<String>)
    ensures
        crate::utils::opt_view(r) == first_stable(release_views(rs@)),
{
    let ghost v = release_views(rs@);
    let mut i: usize = 0;
    assert(v.skip(0) =~= v);
    while i < rs.len()
        invariant
            i <= rs@.len(),
            v == release_views(rs@),
            first_stable(v.skip(i as int)) == first_stable(v),
        decreases rs.len() - i,
    {
        if !rs[i].2 {
            assert(v.skip(i as int)[0] == release_view(rs@[i as int]));
            return Some(rs[i].0.clone());
        }
        assert(v.skip(i as int).drop_first() =~= v.skip(i + 1));
        i = i + 1;
    }
    assert(v.skip(rs@.len() as int).len() == 0);
    None
}

/// The release to use: the first stable one, or else the first one.
pub open spec fn pick_release_spec(rs: Seq<(Seq<char>, Seq<char>, bool)>) -> Option<Seq<char>> {
    match first_stable(rs) {
        Some(t) => Some(t),
        None => if rs.len() > 0 {
            Some(rs[0].0)
        } else {
            None
        },
    }
}

pub fn pick_release_tag(rs: &[Release]) -> (r: Option<String>)
    ensures
        crate::utils::opt_view(r) == pick_release_spec(release_views(rs@)),
{
    let ghost v = release_views(rs@);
    let mut i: usize = 0;
    assert(v.skip(0) =~= v);
    while i < rs.len()
        invariant
            i <= rs@.len(),
            v == release_views(rs@),
            first_stable(v.skip(i as int)) == first_stable(v),
        decreases rs.len() - i,
    {
        if !rs[i].2 {
            assert(v.skip(i as int)[0] == release_view(rs@[i as int]));
            return Some(rs[i].0.clone());
        }
        assert(v.skip(i as int).drop_first() =~= v.skip(i + 1));
        i = i + 1;
    }
    assert(v.skip(rs@.len() as int).len() == 0);
    if rs.len() > 0 {
        Some(rs[0].0.clone())
    } else {
        None
    }
}

/// The GlassHouse version to fetch: the chosen release's tag, or `v2.0.0`
/// when the list could not be had (`None`) or is empty.
pub fn latest_glasshouse_version(releases: Option<&[Release]>) -> (r: String)
    ensures
        r@ == match releases {
            Some(rs) => match pick_release_spec(release_views(rs@)) {
                Some(t) => t,
                None => "v2.0.0"@,
            },
            None => "v2.0.0"@,
        },
{
    match releases {
        Some(rs) => match pick_release_tag(rs) {
            Some(t) => t,
            None => "v2.0.0".to_owned(),
        },
        None => "v2.0.0".to_owned(),
    }
}

/// The newest version of the command-line tool in its release list.
pub fn latest_cli_version(releases: &[Release]) -> (r: Result<String, String>)
    ensures
        match r {
            Ok(t) => pick_release_spec(release_views(releases@)) == Some(t@),
            Err(e) => pick_release_spec(release_views(releases@)) is None && e@ == "no releases found"@,
        },
{
    match pick_release_tag(releases) {
        Some(t) => Ok(t),
        None => Err("no releases found".to_owned()),
    }
}

} // verus!

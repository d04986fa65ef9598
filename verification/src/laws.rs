//! Properties that hold across the library's operations.

use vstd::prelude::*;
use crate::text::{contains, find_from, occurs_at, lemma_find_from};
use crate::packages::{upgrade_spec, current_version, next_version, version_field, replace_all};
use crate::utils::extract_json_str_spec;
use crate::lint::{Violation, error_count, warning_count, forbidden_js_spec, lint_fix_writes};
use crate::bundle::forbidden_rels;
use crate::audit::{FileView, fix_writes, is_strict};
use crate::watch::{changed, records, first_size};
use crate::dev::{dev_look, dev_watched};
use crate::json::{JVal, lookup, get_spec, set_spec, remove_spec, without_key, parse_spec, json_text};
use crate::json_roundtrip::{plain, plain_members, plain_key_char, plain_str_char, canon, canon_members, law_parse_to_json};
use crate::json_laws::{law_get_after_set, law_get_after_remove};
use crate::packages::{registry_base, registry_entry, info_spec, str_member_or};
use crate::test_runner::{Outcome, test_report_spec};
use crate::num::decimal;
use crate::dev_http::{DevRoute, dev_route_spec, framework_names};
use crate::path::{join_path, drop_slashes, extension_spec, swap_ext2};
use crate::text::first_words;
use crate::bundle::{dev_parts, ordered_texts, first_named};

verus! {

/// Every finding of a lint run counts once, as an error or as a warning.
pub proof fn law_lint_counts_cover(vs: Seq<Violation>)
    ensures
        error_count(vs) + warning_count(vs) == vs.len(),
    decreases vs.len(),
{
    if vs.len() > 0 {
        law_lint_counts_cover(vs.drop_last());
    }
}

proof fn lemma_prefix_found(s: Seq<char>, pat: Seq<char>, rest: Seq<char>)
    requires
        s == pat + rest,
    ensures
        contains(s, pat),
{
    assert(s.subrange(0, pat.len() as int) =~= pat);
    assert(occurs_at(s, pat, 0));
}

/// Every file that the audit's fix rewrites declares strict mode after.
pub proof fn law_fix_makes_strict(fs: Seq<FileView>)
    ensures
        forall|i: int| 0 <= i < fix_writes(fs).len() ==> is_strict(#[trigger] fix_writes(fs)[i].1),
    decreases fs.len(),
{
    if fs.len() > 0 {
        law_fix_makes_strict(fs.drop_last());
        let f = fs.last();
        match f.content {
            Some(c) => {
                let t = "'use strict';\n"@ + c;
                reveal_strlit("'use strict';\n");
                reveal_strlit("'use strict'");
                reveal_strlit(";\n");
                assert(t =~= "'use strict'"@ + (";\n"@ + c));
                lemma_prefix_found(t, "'use strict'"@, ";\n"@ + c);
                assert(is_strict(t));
            },
            None => {},
        }
        let r = fix_writes(fs.drop_last());
        assert forall|i: int| 0 <= i < fix_writes(fs).len() implies is_strict(#[trigger] fix_writes(fs)[i].1) by {
            if i < r.len() {
                assert(fix_writes(fs)[i] == r[i]);
            }
        }
    }
}

/// No two entries name the same file.
pub open spec fn distinct_paths<T>(now: Seq<(Seq<char>, T)>) -> bool {
    forall|i: int, j: int| 0 <= i < j < now.len() ==> now[i].0 != now[j].0
}

proof fn lemma_first_size_push(recs: Seq<(Seq<char>, u64)>, p: Seq<char>, x: (Seq<char>, u64))
    ensures
        first_size(recs.push(x), p) == match first_size(recs, p) {
            Some(v) => Some(v),
            None => if x.0 == p {
                Some(x.1)
            } else {
                None
            },
        },
    decreases recs.len(),
{
    if recs.len() > 0 {
        assert(recs.push(x)[0] == recs[0]);
        assert(recs.push(x).drop_first() =~= recs.drop_first().push(x));
        lemma_first_size_push(recs.drop_first(), p, x);
    } else {
        assert(recs.push(x)[0] == x);
        assert(recs.push(x).drop_first() =~= Seq::<(Seq<char>, u64)>::empty());
        assert(first_size(Seq::<(Seq<char>, u64)>::empty(), p) is None);
        assert(recs =~= Seq::<(Seq<char>, u64)>::empty());
    }
}

proof fn lemma_records_first(now: Seq<(Seq<char>, Option<u64>)>, p: Seq<char>)
    requires
        distinct_paths(now),
    ensures
        forall|k: int| 0 <= k < now.len() && now[k].0 == p && now[k].1 is Some ==> first_size(records(now), p) == now[k].1,
        (forall|k: int| 0 <= k < now.len() ==> now[k].0 != p) ==> first_size(records(now), p) is None,
    decreases now.len(),
{
    if now.len() > 0 {
        let q = now.drop_last();
        assert(distinct_paths(q));
        lemma_records_first(q, p);
        match now.last().1 {
            Some(s) => {
                lemma_first_size_push(records(q), p, (now.last().0, s));
            },
            None => {},
        }
        if now.last().0 == p {
            assert forall|k: int| 0 <= k < q.len() implies q[k].0 != p by {
                assert(now[k].0 != now[now.len() - 1].0);
            }
        }
        assert forall|k: int| 0 <= k < now.len() && now[k].0 == p && now[k].1 is Some implies first_size(records(now), p) == now[k].1 by {
            if k < q.len() {
                assert(q[k] == now[k]);
            } else {
                assert(now[k] == now.last());
            }
        }
    }
}

/// A second look at files that have not changed since the first finds no
/// change (each file being seen once).
pub proof fn law_second_look_quiet(now: Seq<(Seq<char>, Option<u64>)>)
    requires
        distinct_paths(now),
    ensures
        !changed(records(now), now),
{
    assert forall|i: int| 0 <= i < now.len() && (#[trigger] now[i]).1 is Some implies first_size(records(now), now[i].0) == now[i].1 by {
        lemma_records_first(now, now[i].0);
    }
}


/// After `store(p, js)`, `cached(p)` gives `js`; other files keep what they
/// had.
pub proof fn law_cached_after_store(m: Map<Seq<char>, Seq<char>>, p: Seq<char>, js: Seq<char>, q: Seq<char>)
    ensures
        m.insert(p, js).contains_key(p) && m.insert(p, js)[p] == js,
        q != p ==> (m.insert(p, js).contains_key(q) == m.contains_key(q) && (m.contains_key(q) ==> m.insert(p, js)[q] == m[q])),
{
}

/// After `forget(p)`, `cached(p)` gives nothing; other files keep what they
/// had.
pub proof fn law_cached_after_forget(m: Map<Seq<char>, Seq<char>>, p: Seq<char>, q: Seq<char>)
    ensures
        !m.remove(p).contains_key(p),
        q != p ==> (m.remove(p).contains_key(q) == m.contains_key(q) && (m.contains_key(q) ==> m.remove(p)[q] == m[q])),
{
}

proof fn lemma_dev_look_sizes(s: Map<Seq<char>, u64>, c: Map<Seq<char>, Seq<char>>, seen: Seq<(Seq<char>, Option<u64>)>)
    requires
        distinct_paths(seen),
    ensures
        forall|k: int|
            0 <= k < seen.len() && seen[k].1 is Some && dev_watched(seen[k].0) ==> dev_look(s, c, seen).0.contains_key(
                seen[k].0,
            ) && dev_look(s, c, seen).0[seen[k].0] == seen[k].1->0,
    decreases seen.len(),
{
    if seen.len() > 0 {
        let q = seen.drop_last();
        assert(distinct_paths(q));
        lemma_dev_look_sizes(s, c, q);
        assert forall|k: int|
            0 <= k < seen.len() && seen[k].1 is Some && dev_watched(seen[k].0) implies dev_look(s, c, seen).0.contains_key(
                seen[k].0,
            ) && dev_look(s, c, seen).0[seen[k].0] == seen[k].1->0 by {
            if k < q.len() {
                assert(q[k] == seen[k]);
                assert(seen[k].0 != seen[seen.len() - 1].0);
            }
        }
    }
}

proof fn lemma_dev_look_fixed(s: Map<Seq<char>, u64>, c: Map<Seq<char>, Seq<char>>, seen: Seq<(Seq<char>, Option<u64>)>)
    requires
        forall|k: int|
            0 <= k < seen.len() && seen[k].1 is Some && dev_watched(seen[k].0) ==> s.contains_key(seen[k].0)
                && s[seen[k].0] == seen[k].1->0,
    ensures
        dev_look(s, c, seen) == (s, c, false),
    decreases seen.len(),
{
    if seen.len() > 0 {
        let q = seen.drop_last();
        assert forall|k: int|
            0 <= k < q.len() && q[k].1 is Some && dev_watched(q[k].0) implies s.contains_key(q[k].0) && s[q[k].0]
                == q[k].1->0 by {
            assert(q[k] == seen[k]);
        }
        lemma_dev_look_fixed(s, c, q);
        let k = seen.len() - 1;
        match seen.last().1 {
            Some(sz) => {
                if dev_watched(seen.last().0) {
                    assert(seen[k] == seen.last());
                    assert(s.insert(seen.last().0, sz) =~= s);
                }
            },
            None => {},
        }
    }
}

/// A second look by the dev watcher at files that have not changed since
/// the first finds no change and changes nothing (each file being seen
/// once).
pub proof fn law_dev_second_look_quiet(s: Map<Seq<char>, u64>, c: Map<Seq<char>, Seq<char>>, seen: Seq<(Seq<char>, Option<u64>)>)
    requires
        distinct_paths(seen),
    ensures
        ({
            let (s1, c1, _changed) = dev_look(s, c, seen);
            dev_look(s1, c1, seen) == (s1, c1, false)
        }),
{
    lemma_dev_look_sizes(s, c, seen);
    let (s1, c1, _changed) = dev_look(s, c, seen);
    lemma_dev_look_fixed(s1, c1, seen);
}

/// The first occurrence of `pat` at or after `i` is at `j` when it occurs
/// there and nowhere in between.
proof fn lemma_find_first(s: Seq<char>, pat: Seq<char>, i: int, j: int)
    requires
        0 <= i <= j,
        occurs_at(s, pat, j),
        forall|k: int| i <= k < j ==> !occurs_at(s, pat, k),
    ensures
        find_from(s, pat, i) == Some(j),
{
    lemma_find_from(s, pat, i);
}

/// The key that `"version":"..."` starts with.
spec fn version_key() -> Seq<char> {
    seq!['"'] + "version"@ + seq!['"', ':', '"']
}

proof fn lemma_version_field(v: Seq<char>)
    ensures
        version_field(v) =~= version_key() + v + seq!['"'],
        version_key().len() == 11,
{
    reveal_strlit("version");
    reveal_strlit("\"version\":\"");
    reveal_strlit("\"");
}

/// Where a package's version is read from: the key's first place, where the
/// field of the current version is also first found.
proof fn lemma_old_field(s: Seq<char>) -> (i: int)
    requires
        extract_json_str_spec(s, "version"@) is Some,
    ensures
        0 <= i,
        i + 11 <= s.len(),
        s.subrange(i, i + 11) == version_key(),
        forall|k: int| 0 <= k < i ==> !occurs_at(s, version_key(), k),
        find_from(s, version_field(current_version(s)), 0) == Some(i),
{
    reveal_strlit("version");
    let key = version_key();
    let q = seq!['"'];
    lemma_version_field(current_version(s));
    lemma_find_from(s, key, 0);
    let i = find_from(s, key, 0)->0;
    lemma_find_from(s, q, i + 11);
    let e = find_from(s, q, i + 11)->0;
    let cv = current_version(s);
    assert(cv == s.subrange(i + 11, e));
    assert(s.subrange(e, e + 1)[0] == s[e]);
    let pat = version_field(cv);
    assert(s.subrange(i, i + pat.len()) =~= key + cv + q) by {
        assert forall|t: int| 0 <= t < pat.len() implies #[trigger] s.subrange(i, i + pat.len())[t] == (key + cv + q)[t] by {
            if t < 11 {
                assert(s.subrange(i, i + 11)[t] == s[i + t]);
            } else if t < 11 + cv.len() {
                assert(cv[t - 11] == s[i + t]);
            }
        }
    }
    assert forall|k: int| 0 <= k < i implies !occurs_at(s, pat, k) by {
        if occurs_at(s, pat, k) {
            assert(s.subrange(k, k + 11) =~= s.subrange(k, k + pat.len()).subrange(0, 11));
            assert(pat.subrange(0, 11) =~= key);
            assert(s.subrange(k, k + 11) == key);
            assert(occurs_at(s, key, k));
        }
    }
    lemma_find_first(s, pat, 0, i);
    i
}

/// A text that agrees with `s` up to `i` and then holds the field of `lv`
/// reads as having version `lv`, when `lv` holds no quote.
#[verifier::spinoff_prover]
#[verifier::rlimit(40)]
proof fn lemma_new_field(s: Seq<char>, c: Seq<char>, i: int, lv: Seq<char>, rest: Seq<char>)
    requires
        0 <= i,
        i + 11 <= s.len(),
        s.subrange(i, i + 11) == version_key(),
        forall|k: int| 0 <= k < i ==> !occurs_at(s, version_key(), k),
        c == s.take(i) + version_field(lv) + rest,
        forall|j: int| 0 <= j < lv.len() ==> lv[j] != '"',
    ensures
        extract_json_str_spec(c, "version"@) == Some(lv),
{
    reveal_strlit("version");
    let key = version_key();
    let q = seq!['"'];
    lemma_version_field(lv);
    let rep = version_field(lv);
    assert(c.subrange(i, i + 11) =~= key) by {
        assert forall|t: int| 0 <= t < 11 implies #[trigger] c.subrange(i, i + 11)[t] == key[t] by {
            assert(c[i + t] == rep[t]);
        }
    }
    assert(occurs_at(c, key, i));
    assert forall|k: int| 0 <= k < i implies !occurs_at(c, key, k) by {
        if occurs_at(c, key, k) {
            assert forall|t: int| 0 <= t < 11 implies #[trigger] c.subrange(k, k + 11)[t] == s.subrange(k, k + 11)[t] by {
                if k + t < i {
                    assert(c[k + t] == s[k + t]);
                } else {
                    assert(c[k + t] == rep[k + t - i]);
                    assert(s.subrange(i, i + 11)[k + t - i] == s[k + t]);
                }
            }
            assert(c.subrange(k, k + 11) =~= s.subrange(k, k + 11));
            assert(c.subrange(k, k + 11) == key);
            assert(occurs_at(s, key, k));
        }
    }
    lemma_find_first(c, key, 0, i);
    let e2 = i + 11 + lv.len();
    assert(c[e2] == rep[11 + lv.len() as int]);
    assert(c.subrange(e2, e2 + 1) =~= q);
    assert forall|k: int| i + 11 <= k < e2 implies !occurs_at(c, q, k) by {
        assert(c[k] == rep[k - i]);
        if occurs_at(c, q, k) {
            assert(c.subrange(k, k + 1)[0] == c[k]);
        }
    }
    lemma_find_first(c, q, i + 11, e2);
    assert(c.subrange(i + 11, e2) =~= lv) by {
        assert forall|t: int| 0 <= t < lv.len() implies #[trigger] c.subrange(i + 11, e2)[t] == lv[t] by {
            assert(c[i + 11 + t] == rep[11 + t]);
        }
    }
}

/// After an upgrade, the package's `package.json` gives the new version:
/// where the file has a version and the new one holds no quote.
pub proof fn law_upgrade_reads_back(name: Seq<char>, raw: Seq<char>, latest: Option<Seq<char>>, major: bool)
    requires
        extract_json_str_spec(raw, "version"@) is Some,
        next_version(raw, latest, major) != current_version(raw),
        forall|j: int| 0 <= j < next_version(raw, latest, major).len() ==> next_version(raw, latest, major)[j] != '"',
    ensures
        match upgrade_spec(name, raw, latest, major, false) {
            Some((_, Some(c))) => current_version(c) == next_version(raw, latest, major),
            _ => false,
        },
{
    let cv = current_version(raw);
    let lv = next_version(raw, latest, major);
    let i = lemma_old_field(raw);
    let pat = version_field(cv);
    let rep = version_field(lv);
    lemma_version_field(cv);
    let rest = replace_all(raw.skip(i + pat.len()), pat, rep);
    let c = raw.take(i) + rep + rest;
    assert(replace_all(raw, pat, rep) == c);
    lemma_new_field(raw, c, i, lv, rest);
}

proof fn lemma_plain_members_push(ps: Seq<(Seq<char>, JVal)>, m: (Seq<char>, JVal))
    requires
        plain_members(ps),
        forall|i: int| 0 <= i < m.0.len() ==> plain_key_char(#[trigger] m.0[i]),
        plain(m.1),
    ensures
        plain_members(ps.push(m)),
    decreases ps.len(),
{
    if ps.len() == 0 {
        assert(ps.push(m).drop_first() =~= ps);
    } else {
        assert(ps.push(m).drop_first() =~= ps.drop_first().push(m));
        lemma_plain_members_push(ps.drop_first(), m);
        assert(ps.push(m)[0] == ps[0]);
    }
}

proof fn lemma_lookup_canon(ps: Seq<(Seq<char>, JVal)>, k: Seq<char>)
    ensures
        lookup(canon_members(ps), k) == match lookup(ps, k) {
            Some(x) => Some(canon(x)),
            None => None::<JVal>,
        },
    decreases ps.len(),
{
    if ps.len() > 0 {
        let c = canon_members(ps);
        assert(c[0] == (ps[0].0, canon(ps[0].1)));
        assert(c.drop_first() =~= canon_members(ps.drop_first()));
        lemma_lookup_canon(ps.drop_first(), k);
    }
}

/// Reading the registry file that an install writes gives, for the package,
/// the entry that the install recorded; or, where the package was recorded
/// already, the entry it had (its numbers in the writer's form). This holds
/// for registries, names and values whose text the writer gives back as it
/// reads them.
pub proof fn law_registry_records(raw: Option<Seq<char>>, name: Seq<char>, version: Seq<char>, source: Seq<char>)
    requires
        plain(registry_base(raw)),
        forall|i: int| 0 <= i < name.len() ==> plain_key_char(#[trigger] name[i]),
        forall|i: int| 0 <= i < version.len() ==> plain_str_char(#[trigger] version[i]),
        forall|i: int| 0 <= i < source.len() ==> plain_str_char(#[trigger] source[i]),
    ensures
        match parse_spec(json_text(set_spec(registry_base(raw), name, registry_entry(version, source)))) {
            Some(v) => get_spec(v, name) == match get_spec(registry_base(raw), name) {
                Some(old) => Some(canon(old)),
                None => if registry_base(raw) is Obj {
                    Some(registry_entry(version, source))
                } else {
                    None
                },
            },
            None => false,
        },
{
    reveal_strlit("version");
    reveal_strlit("source");
    reveal_strlit("installed");
    reveal_strlit("2026");
    let base = registry_base(raw);
    let entry = registry_entry(version, source);
    let eps = seq![("version"@, JVal::Str(version)), ("source"@, JVal::Str(source)), ("installed"@, JVal::Str("2026"@))];
    assert(entry == JVal::Obj(eps));
    // The entry is plain and its own canonical form.
    assert(plain(entry)) by {
        assert forall|i: int| 0 <= i < 7 implies plain_key_char(#[trigger] "version"@[i]) by {
            assert(i == 0 || i == 1 || i == 2 || i == 3 || i == 4 || i == 5 || i == 6);
        }
        assert forall|i: int| 0 <= i < 6 implies plain_key_char(#[trigger] "source"@[i]) by {
            assert(i == 0 || i == 1 || i == 2 || i == 3 || i == 4 || i == 5);
        }
        assert forall|i: int| 0 <= i < 9 implies plain_key_char(#[trigger] "installed"@[i]) by {
            assert(i == 0 || i == 1 || i == 2 || i == 3 || i == 4 || i == 5 || i == 6 || i == 7 || i == 8);
        }
        assert forall|i: int| 0 <= i < 4 implies plain_str_char(#[trigger] "2026"@[i]) by {
            assert(i == 0 || i == 1 || i == 2 || i == 3);
        }
        let e1 = eps.drop_first();
        let e2 = e1.drop_first();
        let e3 = e2.drop_first();
        assert(e3 =~= Seq::<(Seq<char>, JVal)>::empty());
        assert(plain_members(e3));
        assert(e2[0] == ("installed"@, JVal::Str("2026"@)));
        assert(plain(JVal::Str("2026"@)));
        assert(plain_members(e2));
        assert(e1[0] == ("source"@, JVal::Str(source)));
        assert(plain(JVal::Str(source)));
        assert(plain_members(e1));
        assert(eps[0] == ("version"@, JVal::Str(version)));
        assert(plain(JVal::Str(version)));
        assert(plain_members(eps));
    }
    assert(canon(entry) == entry) by {
        let e1 = eps.drop_first();
        let e2 = e1.drop_first();
        let e3 = e2.drop_first();
        assert(e3 =~= Seq::<(Seq<char>, JVal)>::empty());
        assert(canon_members(e3) =~= e3);
        assert(e2[0] == ("installed"@, JVal::Str("2026"@)));
        assert(canon(e2[0].1) == e2[0].1);
        assert(canon_members(e2) == seq![(e2[0].0, canon(e2[0].1))] + canon_members(e3));
        assert(canon_members(e2) =~= e2);
        assert(e1[0] == ("source"@, JVal::Str(source)));
        assert(canon(e1[0].1) == e1[0].1);
        assert(canon_members(e1) == seq![(e1[0].0, canon(e1[0].1))] + canon_members(e2));
        assert(canon_members(e1) =~= e1);
        assert(eps[0] == ("version"@, JVal::Str(version)));
        assert(canon(eps[0].1) == eps[0].1);
        assert(canon_members(eps) == seq![(eps[0].0, canon(eps[0].1))] + canon_members(e1));
        assert(canon_members(eps) =~= eps);
    }
    let after = set_spec(base, name, entry);
    assert(plain(after)) by {
        if let JVal::Obj(ps) = base {
            if !crate::json::has_key(ps, name) {
                lemma_plain_members_push(ps, (name, entry));
            }
        }
    }
    law_parse_to_json(after);
    law_get_after_set(base, name, entry, name);
    if let JVal::Obj(ps) = after {
        lemma_lookup_canon(ps, name);
    }
    if let JVal::Obj(ps) = base {
        crate::json::lemma_lookup_none(ps, name);
    }
}

proof fn lemma_plain_members_last(ps: Seq<(Seq<char>, JVal)>)
    requires
        plain_members(ps),
        ps.len() > 0,
    ensures
        plain_members(ps.drop_last()),
        forall|i: int| 0 <= i < ps.last().0.len() ==> plain_key_char(#[trigger] ps.last().0[i]),
        plain(ps.last().1),
    decreases ps.len(),
{
    if ps.len() == 1 {
        assert(ps.drop_last() =~= Seq::<(Seq<char>, JVal)>::empty());
        assert(ps.last() == ps[0]);
    } else {
        lemma_plain_members_last(ps.drop_first());
        assert(ps.drop_last().drop_first() =~= ps.drop_first().drop_last());
        assert(ps.drop_last()[0] == ps[0]);
        assert(ps.drop_first().last() == ps.last());
    }
}

proof fn lemma_plain_without(ps: Seq<(Seq<char>, JVal)>, k: Seq<char>)
    requires
        plain_members(ps),
    ensures
        plain_members(without_key(ps, k)),
    decreases ps.len(),
{
    if ps.len() > 0 {
        lemma_plain_members_last(ps);
        lemma_plain_without(ps.drop_last(), k);
        if ps.last().0 != k {
            lemma_plain_members_push(without_key(ps.drop_last(), k), ps.last());
        }
    }
}

/// Reading the registry file that an uninstall writes finds no entry for
/// the package, and the entries of other packages as they were (their
/// numbers in the writer's form), for registries whose text the writer
/// gives back as it reads them.
pub proof fn law_registry_forgets(raw: Seq<char>, name: Seq<char>, other: Seq<char>)
    requires
        parse_spec(raw) is Some,
        plain(parse_spec(raw)->0),
        other != name,
    ensures
        match parse_spec(json_text(remove_spec(parse_spec(raw)->0, name))) {
            Some(w) => {
                &&& get_spec(w, name) is None
                &&& get_spec(w, other) == match get_spec(parse_spec(raw)->0, other) {
                    Some(x) => Some(canon(x)),
                    None => None::<JVal>,
                }
            },
            None => false,
        },
{
    let v = parse_spec(raw)->0;
    let after = remove_spec(v, name);
    if let JVal::Obj(ps) = v {
        lemma_plain_without(ps, name);
    }
    law_parse_to_json(after);
    law_get_after_remove(v, name, other);
    if let JVal::Obj(ps) = after {
        lemma_lookup_canon(ps, name);
        lemma_lookup_canon(ps, other);
    }
}

pub open spec fn violation_files(vs: Seq<Violation>) -> Seq<Seq<char>> {
    vs.map_values(|v: Violation| v.file)
}

/// The build refuses exactly the JavaScript files that the lint reports as
/// forbidden, named the same way and found in the same order.
pub proof fn law_forbidden_js_agree(root: Seq<char>, ps: Seq<Seq<char>>)
    ensures
        forbidden_rels(root, ps) == violation_files(forbidden_js_spec(root, ps)),
    decreases ps.len(),
{
    if ps.len() > 0 {
        law_forbidden_js_agree(root, ps.drop_last());
        let r = forbidden_js_spec(root, ps.drop_last());
        if crate::lint::is_forbidden_js(ps.last()) {
            assert(violation_files(r.push(crate::lint::js_violation(root, ps.last())))
                =~= violation_files(r).push(crate::path::rel_path(root, ps.last())));
        }
    } else {
        assert(violation_files(forbidden_js_spec(root, ps)) =~= Seq::<Seq<char>>::empty());
    }
}

/// Every file that `lint --fix` rewrites declares strict mode after, and
/// every file it leaves alone declared it already.
pub proof fn law_lint_fix_makes_strict(fs: Seq<(Seq<char>, Seq<char>)>)
    ensures
        forall|i: int| 0 <= i < lint_fix_writes(fs).len() ==> is_strict(#[trigger] lint_fix_writes(fs)[i].1),
        lint_fix_writes(fs).len() == 0 ==> forall|j: int| 0 <= j < fs.len() ==> is_strict(#[trigger] fs[j].1),
    decreases fs.len(),
{
    if fs.len() > 0 {
        law_lint_fix_makes_strict(fs.drop_last());
        let c = fs.last().1;
        let t = "'use strict';\n"@ + c;
        reveal_strlit("'use strict';\n");
        reveal_strlit("'use strict'");
        reveal_strlit(";\n");
        assert(t =~= "'use strict'"@ + (";\n"@ + c));
        lemma_prefix_found(t, "'use strict'"@, ";\n"@ + c);
        let r = lint_fix_writes(fs.drop_last());
        assert forall|i: int| 0 <= i < lint_fix_writes(fs).len() implies is_strict(#[trigger] lint_fix_writes(fs)[i].1) by {
            if i < r.len() {
                assert(lint_fix_writes(fs)[i] == r[i]);
            }
        }
        if lint_fix_writes(fs).len() == 0 {
            assert forall|j: int| 0 <= j < fs.len() implies is_strict(#[trigger] fs[j].1) by {
                if j < fs.len() - 1 {
                    assert(fs.drop_last()[j] == fs[j]);
                }
            }
        }
    }
}


/// `glas info` shows what `package.json` says: when it parses and its
/// `version`, `type` and `description` members are strings, the three lines
/// after the package's name show them.
pub proof fn law_info_shows_manifest(
    name: Seq<char>,
    raw: Seq<char>,
    files: Seq<(Seq<char>, u64)>,
    v: JVal,
    version: Seq<char>,
    kind: Seq<char>,
    d: Seq<char>,
)
    requires
        parse_spec(raw) == Some(v),
        get_spec(v, "version"@) == Some(JVal::Str(version)),
        get_spec(v, "type"@) == Some(JVal::Str(kind)),
        get_spec(v, "description"@) == Some(JVal::Str(d)),
    ensures
        info_spec(name, Some(raw), files)[0] == "Package: "@ + name,
        info_spec(name, Some(raw), files)[1] == "  Version:     "@ + version,
        info_spec(name, Some(raw), files)[2] == "  Type:        "@ + kind,
        info_spec(name, Some(raw), files)[3] == "  Description: "@ + d,
{
    assert(str_member_or(v, "description"@, "-"@) == d);
}

/// A summary line that gives `n` tests, of which `p` passed, `f` failed
/// and `s` were skipped, between the mark `mark` and the time `rest`.
pub open spec fn counts_line(mark: Seq<char>, n: nat, p: nat, f: nat, s: nat, rest: Seq<char>) -> Seq<char> {
    mark + " "@ + decimal(n) + " test(s): "@ + decimal(p) + " passed, "@ + decimal(f) + " failed, "@ + decimal(s)
        + " skipped ("@ + rest
}

/// The number of tests in the summary of `glas test` is the number passed
/// plus the number failed plus the number skipped, the three counts that
/// the line gives after it.
pub proof fn law_test_summary_total(o: Outcome)
    ensures
        exists|mark: Seq<char>, rest: Seq<char>|
            test_report_spec(o, false)[1] == #[trigger] counts_line(mark, o.pass + o.fail + o.skip, o.pass, o.fail, o.skip, rest),
{
    let mark = if o.fail == 0 { "✓"@ } else { "✗"@ };
    let rest = crate::test_runner::round_text(o.total) + "ms)"@;
    assert(test_report_spec(o, false)[1] =~= counts_line(mark, o.pass + o.fail + o.skip, o.pass, o.fail, o.skip, rest));
}

/// On the dev server, a request for a `.js` file under `src/` or under
/// `packages/` is answered from the TypeScript file of the same name (`.ts`,
/// else `.tsx`) or refused: never served as a plain file.
pub proof fn law_dev_js_goes_to_typescript(line: Seq<char>, root: Seq<char>, r: DevRoute, dir: Seq<char>, rest: Seq<char>)
    requires
        dev_route_spec(line, root, r),
        dir == "src"@ || dir == "packages"@,
        drop_slashes(first_words(line).1) == dir + "/"@ + rest,
        extension_spec(join_path(root, dir + "/"@ + rest)) == Some("js"@),
    ensures
        r matches DevRoute::JsFile { ts, tsx, shown } && ts@ == swap_ext2(join_path(root, dir + "/"@ + rest), "ts"@)
            && tsx@ == swap_ext2(join_path(root, dir + "/"@ + rest), "tsx"@) && shown@ == dir + "/"@ + rest,
{
    let rp = first_words(line).1;
    let path = dir + "/"@ + rest;
    reveal_strlit("src");
    reveal_strlit("packages");
    reveal_strlit("/");
    reveal_strlit("/__glas_ping");
    reveal_strlit("__glas_ping");
    reveal_strlit("/index.html");
    reveal_strlit("index.html");
    assert(path.len() > 0 && (path[0] == 's' || path[0] == 'p'));
    if rp.len() == 0 {
        assert(drop_slashes(rp) =~= Seq::<char>::empty());
    }
    if rp == "/__glas_ping"@ {
        assert(rp.drop_first() =~= "__glas_ping"@);
        assert(drop_slashes(rp) == drop_slashes("__glas_ping"@));
        assert(drop_slashes(rp)[0] == '_');
    }
    if rp == "/"@ {
        assert(rp.drop_first() =~= Seq::<char>::empty());
        assert(drop_slashes(rp) == drop_slashes(Seq::<char>::empty()));
    }
    if rp == "/index.html"@ {
        assert(rp.drop_first() =~= "index.html"@);
        assert(drop_slashes(rp) == drop_slashes("index.html"@));
        assert(drop_slashes(rp)[0] == 'i');
    }
    let fp = join_path(root, path);
    let d = join_path(root, dir);
    assert(fp.subrange(0, d.len() as int) =~= d);
}

/// A build takes the framework's files in dependency order: `glasshouse.js`,
/// `types.js`, `dom.js` and `pebble.js` come first, in that order.
pub proof fn law_framework_order()
    ensures
        framework_names().take(4) == seq!["glasshouse.js"@, "types.js"@, "dom.js"@, "pebble.js"@],
{
    assert(framework_names().take(4) =~= seq!["glasshouse.js"@, "types.js"@, "dom.js"@, "pebble.js"@]);
}

proof fn lemma_ordered_texts_prefix(order: Seq<Seq<char>>, fw: Seq<(Seq<char>, Option<Seq<char>>)>, m: int)
    requires
        0 <= m <= order.len(),
    ensures
        ordered_texts(order.take(m), fw).is_prefix_of(ordered_texts(order, fw)),
    decreases order.len(),
{
    if m < order.len() {
        lemma_ordered_texts_prefix(order.drop_last(), fw, m);
        assert(order.drop_last().take(m) =~= order.take(m));
    } else {
        assert(order.take(m) =~= order);
    }
}

/// In the dev build, when the framework holds readable `dom.js` and
/// `pebble.js`, the text of `dom.js` comes before that of `pebble.js`,
/// whatever else the build holds.
pub proof fn law_bundle_dom_before_pebble(
    fw: Seq<(Seq<char>, Option<Seq<char>>)>,
    compiled: Seq<(Seq<char>, Seq<char>)>,
    d: Seq<char>,
    p: Seq<char>,
)
    requires
        first_named(fw, "dom.js"@) == Some(Some(d)),
        first_named(fw, "pebble.js"@) == Some(Some(p)),
    ensures
        exists|i: int, j: int|
            0 <= i < j < dev_parts(fw, compiled).len() && dev_parts(fw, compiled)[i] == d && dev_parts(fw, compiled)[j]
                == p,
{
    let names = framework_names();
    assert(names[2] == "dom.js"@);
    assert(names[3] == "pebble.js"@);
    let o3 = ordered_texts(names.take(3), fw);
    let o4 = ordered_texts(names.take(4), fw);
    assert(names.take(3).drop_last() =~= names.take(2));
    assert(names.take(4).drop_last() =~= names.take(3));
    assert(o3 == ordered_texts(names.take(2), fw).push(d));
    assert(o4 == o3.push(p));
    lemma_ordered_texts_prefix(names, fw, 4);
    let all = ordered_texts(names, fw);
    let i = o3.len() - 1;
    let j = o4.len() - 1;
    assert(all[i] == o4[i]);
    assert(all[j] == o4[j]);
    let parts = dev_parts(fw, compiled);
    assert(parts[i] == all[i]);
    assert(parts[j] == all[j]);
}
} // verus!

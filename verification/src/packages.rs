//! The package commands: the registry file, the package list and details,
//! project scripts, upgrades and what an install does with its source.

use vstd::prelude::*;
use vstd::utf8::encode_utf8;
use crate::json::{JVal, Value, model, parse, parse_spec, get_spec, set_spec, remove_spec, json_text, model_opt};
use crate::text::{str_eq, push_str, views, to_chars, find_chars, find_from, occurs_at, has_prefix, lemma_find_from, string_of_range, contains};
use crate::installer::{repeat, sat_sub, push_repeat};
use crate::utils::opt_view;
use crate::num::{decimal, push_decimal};
use crate::order::{str_le, str_le_exec};
use crate::text::lemma_find_shift;
use crate::utils::{package_name_spec, package_name_from_source, format_size_spec, format_size, extract_json_str_spec, extract_json_str, bump_version_spec, bump_version, bump_overflows};

verus! {

/// The registry entry of an installed package.
pub open spec fn registry_entry(version: Seq<char>, source: Seq<char>) -> JVal {
    JVal::Obj(
        seq![
            ("version"@, JVal::Str(version)),
            ("source"@, JVal::Str(source)),
            ("installed"@, JVal::Str("2026"@)),
        ],
    )
}

/// The registry before an install: what the file holds when it reads as
/// JSON, else an empty object.
pub open spec fn registry_base(raw: Option<Seq<char>>) -> JVal {
    match raw {
        Some(t) => match parse_spec(t) {
            Some(v) => v,
            None => JVal::Obj(Seq::empty()),
        },
        None => JVal::Obj(Seq::empty()),
    }
}

fn empty_object() -> (r: Value)
    ensures
        model(r) == JVal::Obj(Seq::empty()),
{
    let e: Vec<(String, Value)> = Vec::new();
    assert(crate::json::model_pairs(e@) =~= Seq::<(Seq<char>, JVal)>::empty());
    Value::Object(e)
}

/// The registry file after recording a package (a package already recorded
/// keeps its entry).
pub fn registry_with(raw: Option<&str>, name: &str, version: &str, source: &str) -> (r: String)
    requires
        raw matches Some(t) ==> encode_utf8(t@).len() < usize::MAX,
    ensures
        r@ == json_text(set_spec(registry_base(opt_str_view(raw)), name@, registry_entry(version@, source@))),
{
    let mut reg = match raw {
        Some(t) => match parse(t) {
            Some(v) => v,
            None => empty_object(),
        },
        None => empty_object(),
    };
    let mut members: Vec<(String, Value)> = Vec::new();
    members.push((String::from_str("version"), Value::String(String::from_str(version))));
    members.push((String::from_str("source"), Value::String(String::from_str(source))));
    members.push((String::from_str("installed"), Value::String(String::from_str("2026"))));
    let entry = Value::Object(members);
    proof {
        crate::json::lemma_model_pairs_index(members@);
    }
    assert(crate::json::model_pairs(members@) =~= seq![
        ("version"@, JVal::Str(version@)),
        ("source"@, JVal::Str(source@)),
        ("installed"@, JVal::Str("2026"@)),
    ]);
    assert(model(entry) == registry_entry(version@, source@));
    reg.set(name, &entry);
    reg.to_json()
}

pub open spec fn opt_str_view(o: Option<&str>) -> Option<Seq<char>> {
    match o {
        Some(t) => Some(t@),
        None => None,
    }
}

/// The registry file after an uninstall: every member of that name
/// dropped; nothing when the file does not read as JSON.
pub fn registry_without(raw: &str, name: &str) -> (r: Option<String>)
    requires
        encode_utf8(raw@).len() < usize::MAX,
    ensures
        match parse_spec(raw@) {
            Some(v) => r matches Some(t) && t@ == json_text(remove_spec(v, name@)),
            None => r is None,
        },
{
    match parse(raw) {
        Some(mut v) => {
            v.remove(name);
            Some(v.to_json())
        },
        None => None,
    }
}


/// The string member `key` of a parsed value, or `d`.
pub open spec fn str_member_or(v: JVal, key: Seq<char>, d: Seq<char>) -> Seq<char> {
    match get_spec(v, key) {
        Some(JVal::Str(s)) => s,
        _ => d,
    }
}

fn str_member_or_exec(v: &Value, key: &str, d: &str) -> (r: String)
    ensures
        r@ == str_member_or(model(*v), key@, d@),
{
    match v.get_str(key) {
        Some(s) => String::from_str(s),
        None => String::from_str(d),
    }
}

/// The version and type that a package's `package.json` gives, `?` where
/// it gives none.
pub open spec fn package_meta_spec(raw: Option<Seq<char>>) -> (Seq<char>, Seq<char>) {
    match raw {
        Some(t) => match parse_spec(t) {
            Some(v) => (str_member_or(v, "version"@, "?"@), str_member_or(v, "type"@, "?"@)),
            None => ("?"@, "?"@),
        },
        None => ("?"@, "?"@),
    }
}

/// The version and type of a package, from its `package.json` when it
/// could be read.
pub fn package_meta(raw: Option<&str>) -> (r: (String, String))
    requires
        raw matches Some(t) ==> encode_utf8(t@).len() < usize::MAX,
    ensures
        (r.0@, r.1@) == package_meta_spec(opt_str_view(raw)),
{
    match raw {
        Some(t) => match parse(t) {
            Some(v) => (str_member_or_exec(&v, "version", "?"), str_member_or_exec(&v, "type", "?")),
            None => (String::from_str("?"), String::from_str("?")),
        },
        None => (String::from_str("?"), String::from_str("?")),
    }
}

/// The lines of `glas info`: the package, what its `package.json` says
/// when it reads as JSON, and its files other than `package.json` with
/// their sizes.
pub open spec fn info_spec(name: Seq<char>, raw: Option<Seq<char>>, files: Seq<(Seq<char>, u64)>) -> Seq<Seq<char>> {
    let meta = match raw {
        Some(t) => match parse_spec(t) {
            Some(v) => seq![
                "  Version:     "@ + str_member_or(v, "version"@, "?"@),
                "  Type:        "@ + str_member_or(v, "type"@, "?"@),
                "  Description: "@ + str_member_or(v, "description"@, "-"@),
            ],
            None => Seq::empty(),
        },
        None => Seq::empty(),
    };
    seq!["Package: "@ + name] + meta + seq!["  Files:"@] + file_lines(files)
}

/// A line for each file other than `package.json`: its name and size.
pub open spec fn file_lines(files: Seq<(Seq<char>, u64)>) -> Seq<Seq<char>>
    decreases files.len(),
{
    if files.len() == 0 {
        Seq::empty()
    } else {
        let r = file_lines(files.drop_last());
        let f = files.last();
        if f.0 == "package.json"@ {
            r
        } else {
            r.push("    "@ + f.0 + " ("@ + format_size_spec(f.1 as nat) + ")"@)
        }
    }
}

fn text2(a: &str, b: &str) -> (r: String)
    ensures
        r@ == a@ + b@,
{
    let mut s = String::from_str(a);
    push_str(&mut s, b);
    s
}

/// The lines of `glas info`.
pub fn info_lines(name: &str, raw: Option<&str>, files: &Vec<(String, u64)>) -> (r: Vec<String>)
    requires
        raw matches Some(t) ==> encode_utf8(t@).len() < usize::MAX,
    ensures
        views(r@) == info_spec(name@, opt_str_view(raw), crate::watch::rec_views(files@)),
{
    let mut lines: Vec<String> = Vec::new();
    lines.push(text2("Package: ", name));
    let ghost top = views(lines@);
    assert(top =~= seq!["Package: "@ + name@]);
    match raw {
        Some(t) => match parse(t) {
            Some(v) => {
                let a = str_member_or_exec(&v, "version", "?");
                lines.push(text2("  Version:     ", a.as_str()));
                let b = str_member_or_exec(&v, "type", "?");
                lines.push(text2("  Type:        ", b.as_str()));
                let c = str_member_or_exec(&v, "description", "-");
                lines.push(text2("  Description: ", c.as_str()));
                assert(views(lines@) =~= top + seq![
                    "  Version:     "@ + a@,
                    "  Type:        "@ + b@,
                    "  Description: "@ + c@,
                ]);
            },
            None => {},
        },
        None => {},
    }
    lines.push(String::from_str("  Files:"));
    let ghost mid = views(lines@);
    let ghost fv = crate::watch::rec_views(files@);
    let mut i: usize = 0;
    while i < files.len()
        invariant
            i <= files@.len() == fv.len(),
            fv == crate::watch::rec_views(files@),
            views(lines@) == mid + file_lines(fv.take(i as int)),
        decreases files.len() - i,
    {
        assert(fv.take(i + 1).drop_last() =~= fv.take(i as int));
        assert(fv[i as int] == (files@[i as int].0@, files@[i as int].1));
        if !str_eq(files[i].0.as_str(), "package.json") {
            let mut l = text2("    ", files[i].0.as_str());
            push_str(&mut l, " (");
            let sz = format_size(files[i].1);
            push_str(&mut l, sz.as_str());
            push_str(&mut l, ")");
            let ghost before = views(lines@);
            lines.push(l);
            assert(views(lines@) =~= before.push(l@));
        }
        i = i + 1;
    }
    assert(fv.take(fv.len() as int) =~= fv);
    assert(views(lines@) =~= info_spec(name@, opt_str_view(raw), fv));
    lines
}

/// A package row: its name, version and type.
pub open spec fn row_views(v: Seq<(String, String, String)>) -> Seq<(Seq<char>, Seq<char>, Seq<char>)> {
    v.map_values(|r: (String, String, String)| (r.0@, r.1@, r.2@))
}

/// Where a row goes among rows already in name order: after every row
/// whose name is not greater.
pub open spec fn insert_pos(s: Seq<(Seq<char>, Seq<char>, Seq<char>)>, x: (Seq<char>, Seq<char>, Seq<char>)) -> int
    decreases s.len(),
{
    if s.len() == 0 {
        0
    } else if str_le(s.last().0, x.0) {
        s.len() as int
    } else {
        insert_pos(s.drop_last(), x)
    }
}

/// The rows in name order, rows of the same name in the order given (a
/// stable sort by name).
pub open spec fn sort_rows(s: Seq<(Seq<char>, Seq<char>, Seq<char>)>) -> Seq<(Seq<char>, Seq<char>, Seq<char>)>
    decreases s.len(),
{
    if s.len() == 0 {
        s
    } else {
        let r = sort_rows(s.drop_last());
        r.insert(insert_pos(r, s.last()), s.last())
    }
}

proof fn lemma_insert_pos_bounds(s: Seq<(Seq<char>, Seq<char>, Seq<char>)>, x: (Seq<char>, Seq<char>, Seq<char>))
    ensures
        0 <= insert_pos(s, x) <= s.len(),
    decreases s.len(),
{
    if s.len() > 0 && !str_le(s.last().0, x.0) {
        lemma_insert_pos_bounds(s.drop_last(), x);
    }
}

proof fn lemma_sort_rows_len(s: Seq<(Seq<char>, Seq<char>, Seq<char>)>)
    ensures
        sort_rows(s).len() == s.len(),
    decreases s.len(),
{
    if s.len() > 0 {
        lemma_sort_rows_len(s.drop_last());
        lemma_insert_pos_bounds(sort_rows(s.drop_last()), s.last());
    }
}

/// A text padded with spaces to `w` characters (`{:<w}`).
pub open spec fn pad(s: Seq<char>, w: nat) -> Seq<char> {
    s + repeat(' ', sat_sub(w as int, s.len() as int))
}

/// A row of the package table.
pub open spec fn table_row(r: (Seq<char>, Seq<char>, Seq<char>)) -> Seq<char> {
    pad(r.0, 30) + " "@ + pad(r.1, 12) + " "@ + pad(r.2, 12)
}

pub open spec fn table_rows(rs: Seq<(Seq<char>, Seq<char>, Seq<char>)>) -> Seq<Seq<char>>
    decreases rs.len(),
{
    if rs.len() == 0 {
        Seq::empty()
    } else {
        table_rows(rs.drop_last()).push(table_row(rs.last()))
    }
}

/// The lines of `glas list`: the packages in name order under a heading,
/// and their count.
pub open spec fn list_spec(rows: Seq<(Seq<char>, Seq<char>, Seq<char>)>) -> Seq<Seq<char>> {
    if rows.len() == 0 {
        seq!["No packages."@]
    } else {
        seq![table_row(("NAME"@, "VERSION"@, "TYPE"@)), repeat('-', 56)] + table_rows(sort_rows(rows)) + seq![
            "  "@ + decimal(rows.len()) + " packages"@,
        ]
    }
}

fn push_padded(out: &mut String, s: &str, w: usize)
    ensures
        final(out)@ == old(out)@ + pad(s@, w as nat),
{
    let n = to_chars(s).len();
    push_str(out, s);
    push_repeat(out, ' ', w.saturating_sub(n));
    assert(final(out)@ =~= old(out)@ + pad(s@, w as nat));
}

fn row_line(n: &str, v: &str, t: &str) -> (r: String)
    ensures
        r@ == table_row((n@, v@, t@)),
{
    let mut s = String::new();
    push_padded(&mut s, n, 30);
    push_str(&mut s, " ");
    push_padded(&mut s, v, 12);
    push_str(&mut s, " ");
    push_padded(&mut s, t, 12);
    assert(s@ =~= table_row((n@, v@, t@)));
    s
}

fn sorted_rows(rows: &Vec<(String, String, String)>) -> (r: Vec<(String, String, String)>)
    ensures
        row_views(r@) == sort_rows(row_views(rows@)),
{
    let ghost rv = row_views(rows@);
    let mut out: Vec<(String, String, String)> = Vec::new();
    let mut i: usize = 0;
    while i < rows.len()
        invariant
            i <= rows@.len() == rv.len(),
            rv == row_views(rows@),
            row_views(out@) == sort_rows(rv.take(i as int)),
        decreases rows.len() - i,
    {
        assert(rv.take(i + 1).drop_last() =~= rv.take(i as int));
        let ghost x = rv[i as int];
        assert(x == (rows@[i as int].0@, rows@[i as int].1@, rows@[i as int].2@));
        let ghost cur = row_views(out@);
        proof {
            lemma_sort_rows_len(rv.take(i as int));
            lemma_insert_pos_bounds(cur, x);
        }
        // Find the place: after the last row whose name is not greater.
        let mut k = out.len();
        assert(cur.take(k as int) =~= cur);
        while k > 0 && !str_le_exec(out[k - 1].0.as_str(), rows[i].0.as_str())
            invariant
                k <= out@.len() == cur.len(),
                cur == row_views(out@),
                insert_pos(cur, x) == insert_pos(cur.take(k as int), x),
                i < rows@.len(),
                x.0 == rows@[i as int].0@,
            decreases k,
        {
            assert(cur.take(k as int).last() == cur[k - 1]);
            assert(cur[k - 1].0 == out@[k - 1].0@);
            assert(cur.take(k as int).drop_last() =~= cur.take(k - 1));
            k = k - 1;
        }
        proof {
            if k > 0 {
                assert(cur.take(k as int).last() == cur[k - 1]);
                assert(cur[k - 1].0 == out@[k - 1].0@);
            }
            assert(insert_pos(cur.take(k as int), x) == k);
        }
        let row = (rows[i].0.clone(), rows[i].1.clone(), rows[i].2.clone());
        out.insert(k, row);
        assert(row_views(out@) =~= cur.insert(k as int, x));
        i = i + 1;
    }
    assert(rv.take(rv.len() as int) =~= rv);
    out
}

/// The lines of `glas list`, from each package's name, version and type.
pub fn list_lines(rows: &Vec<(String, String, String)>) -> (r: Vec<String>)
    ensures
        views(r@) == list_spec(row_views(rows@)),
{
    let mut lines: Vec<String> = Vec::new();
    if rows.len() == 0 {
        lines.push(String::from_str("No packages."));
        assert(views(lines@) =~= seq!["No packages."@]);
        return lines;
    }
    lines.push(row_line("NAME", "VERSION", "TYPE"));
    let mut dashes = String::new();
    push_repeat(&mut dashes, '-', 56);
    lines.push(dashes);
    let ghost top = views(lines@);
    assert(top =~= seq![table_row(("NAME"@, "VERSION"@, "TYPE"@)), repeat('-', 56)]);
    let sorted = sorted_rows(rows);
    let ghost sv = row_views(sorted@);
    let mut i: usize = 0;
    while i < sorted.len()
        invariant
            i <= sorted@.len() == sv.len(),
            sv == row_views(sorted@),
            views(lines@) == top + table_rows(sv.take(i as int)),
        decreases sorted.len() - i,
    {
        assert(sv.take(i + 1).drop_last() =~= sv.take(i as int));
        assert(sv[i as int] == (sorted@[i as int].0@, sorted@[i as int].1@, sorted@[i as int].2@));
        let l = row_line(sorted[i].0.as_str(), sorted[i].1.as_str(), sorted[i].2.as_str());
        let ghost before = views(lines@);
        lines.push(l);
        assert(views(lines@) =~= before.push(l@));
        i = i + 1;
    }
    assert(sv.take(sv.len() as int) =~= sv);
    let mut last = String::from_str("  ");
    push_decimal(&mut last, rows.len() as u64);
    push_str(&mut last, " packages");
    let ghost before = views(lines@);
    lines.push(last);
    assert(views(lines@) =~= before.push(last@));
    assert(row_views(rows@).len() == rows@.len());
    lines
}

/// The command of a project script in `glass.json`: the string member
/// `script` of its `scripts` member.
pub open spec fn script_spec(raw: Seq<char>, script: Seq<char>) -> Option<Seq<char>> {
    match parse_spec(raw) {
        Some(c) => match get_spec(c, "scripts"@) {
            Some(ss) => match get_spec(ss, script) {
                Some(JVal::Str(cmd)) => Some(cmd),
                _ => None,
            },
            None => None,
        },
        None => None,
    }
}

/// The command of a project script.
pub fn script_command(raw: &str, script: &str) -> (r: Option<String>)
    requires
        encode_utf8(raw@).len() < usize::MAX,
    ensures
        opt_view(r) == script_spec(raw@, script@),
{
    match parse(raw) {
        Some(c) => match c.get("scripts") {
            Some(ss) => match ss.get_str(script) {
                Some(cmd) => Some(String::from_str(cmd)),
                None => None,
            },
            None => None,
        },
        None => None,
    }
}


/// `s` with every occurrence of `pat` replaced by `rep`, from left to
/// right (`str::replace` with a non-empty pattern).
pub open spec fn replace_all(s: Seq<char>, pat: Seq<char>, rep: Seq<char>) -> Seq<char>
    decreases s.len(),
{
    if pat.len() == 0 {
        s
    } else {
        match find_from(s, pat, 0) {
            Some(k) => {
                proof {
                    lemma_find_from(s, pat, 0);
                }
                s.take(k) + rep + replace_all(s.skip(k + pat.len()), pat, rep)
            },
            None => s,
        }
    }
}

/// `s` with every occurrence of the non-empty `pat` replaced by `rep`.
pub fn replace_text(s: &str, pat: &str, rep: &str) -> (r: String)
    requires
        pat@.len() > 0,
    ensures
        r@ == replace_all(s@, pat@, rep@),
{
    let v = to_chars(s);
    let p = to_chars(pat);
    let mut out = String::new();
    let mut start: usize = 0;
    assert(v@.skip(0) =~= v@);
    loop
        invariant
            start <= v@.len(),
            v@ == s@,
            p@ == pat@,
            p@.len() > 0,
            out@ + replace_all(v@.skip(start as int), p@, rep@) == replace_all(s@, pat@, rep@),
        decreases v@.len() - start,
    {
        proof {
            lemma_find_shift(v@, p@, start as int);
            lemma_find_from(v@, p@, start as int);
        }
        match find_chars(v.as_slice(), p.as_slice(), start) {
            Some(k) => {
                assert(occurs_at(v@, p@, k as int));
                assert(v@.len() == v.len());
                let ghost rest = v@.skip(start as int);
                let ghost kk = k - start;
                assert(rest.take(kk) =~= v@.subrange(start as int, k as int));
                assert(rest.skip(kk + p@.len()) =~= v@.skip(k + p@.len()));
                let piece = string_of_range(v.as_slice(), start, k);
                push_str(&mut out, piece.as_str());
                push_str(&mut out, rep);
                assert(out@ + replace_all(v@.skip(k + p@.len()), p@, rep@) =~= replace_all(s@, pat@, rep@));
                start = k + p.len();
            },
            None => {
                let piece = string_of_range(v.as_slice(), start, v.len());
                assert(v@.subrange(start as int, v@.len() as int) =~= v@.skip(start as int));
                push_str(&mut out, piece.as_str());
                return out;
            },
        }
    }
}

/// A package's current version: its `"version":"..."`, found by its text,
/// or `0.0.0`.
pub open spec fn current_version(raw: Seq<char>) -> Seq<char> {
    match extract_json_str_spec(raw, "version"@) {
        Some(v) => v,
        None => "0.0.0"@,
    }
}

/// The version to upgrade to: the registry's latest when it answered, else
/// the current version bumped.
pub open spec fn next_version(raw: Seq<char>, latest: Option<Seq<char>>, major: bool) -> Seq<char> {
    match latest {
        Some(l) => l,
        None => bump_version_spec(current_version(raw), major),
    }
}

pub open spec fn version_field(v: Seq<char>) -> Seq<char> {
    "\"version\":\""@ + v + "\""@
}

/// What upgrading one package does: nothing when the version stays; else
/// its line, and, unless this is a dry run, the new text of its
/// `package.json` with each `"version":"old"` made `"version":"new"`.
pub open spec fn upgrade_spec(name: Seq<char>, raw: Seq<char>, latest: Option<Seq<char>>, major: bool, dry: bool) -> Option<(Seq<char>, Option<Seq<char>>)> {
    let cv = current_version(raw);
    let lv = next_version(raw, latest, major);
    if lv == cv {
        None
    } else if dry {
        Some(("  "@ + name + ": "@ + cv + " → "@ + lv + " (would update)"@, None))
    } else {
        Some(("  ✓ "@ + name + ": "@ + cv + " → "@ + lv, Some(replace_all(raw, version_field(cv), version_field(lv)))))
    }
}

/// Whether bumping the current version of the package whose
/// `package.json` is `raw` would step a version part past `u32::MAX`.
pub fn upgrade_would_overflow(raw: &str, major: bool) -> (r: bool)
    ensures
        r == bump_overflows(current_version(raw@), major),
{
    proof {
        reveal_strlit("0.0.0");
    }
    match extract_json_str(raw, "version") {
        Some(v) => crate::utils::bump_would_overflow(v.as_str(), major),
        None => crate::utils::bump_would_overflow("0.0.0", major),
    }
}

/// Upgrades one package, `raw` being its `package.json` and `latest` what
/// the registry answered, if one is set.
pub fn upgrade_package(name: &str, raw: &str, latest: Option<String>, major: bool, dry: bool) -> (r: Option<(String, Option<String>)>)
    requires
        latest is None ==> !bump_overflows(current_version(raw@), major),
    ensures
        match r {
            Some((l, c)) => upgrade_spec(name@, raw@, opt_view(latest), major, dry) == Some((l@, opt_view(c))),
            None => upgrade_spec(name@, raw@, opt_view(latest), major, dry) is None,
        },
{
    let cv = match extract_json_str(raw, "version") {
        Some(v) => v,
        None => String::from_str("0.0.0"),
    };
    let lv = match latest {
        Some(l) => l,
        None => bump_version(cv.as_str(), major),
    };
    if str_eq(lv.as_str(), cv.as_str()) {
        return None;
    }
    let mut line = String::new();
    if dry {
        push_str(&mut line, "  ");
        push_str(&mut line, name);
        push_str(&mut line, ": ");
        push_str(&mut line, cv.as_str());
        push_str(&mut line, " → ");
        push_str(&mut line, lv.as_str());
        push_str(&mut line, " (would update)");
        return Some((line, None));
    }
    push_str(&mut line, "  ✓ ");
    push_str(&mut line, name);
    push_str(&mut line, ": ");
    push_str(&mut line, cv.as_str());
    push_str(&mut line, " → ");
    push_str(&mut line, lv.as_str());
    let mut from = String::from_str("\"version\":\"");
    push_str(&mut from, cv.as_str());
    push_str(&mut from, "\"");
    let mut to = String::from_str("\"version\":\"");
    push_str(&mut to, lv.as_str());
    push_str(&mut to, "\"");
    proof {
        reveal_strlit("\"version\":\"");
    }
    let content = replace_text(raw, from.as_str(), to.as_str());
    Some((line, Some(content)))
}

/// Whether a package directory counts as a package: its name does not
/// start with a dot.
pub fn listed_name(name: &str) -> (r: bool)
    ensures
        r == !(name@.len() > 0 && name@[0] == '.'),
{
    let v = to_chars(name);
    !(v.len() > 0 && v[0] == '.')
}

/// Whether the upgrade looks at a package directory: not one whose name
/// starts with a dot, and only the one asked for when a name is given.
pub fn upgrade_considers(name: &str, only: &Option<String>) -> (r: bool)
    ensures
        r == (!(name@.len() > 0 && name@[0] == '.') && match only {
            Some(n) => name@ == n@,
            None => true,
        }),
{
    if !listed_name(name) {
        return false;
    }
    match only {
        Some(n) => str_eq(name, n.as_str()),
        None => true,
    }
}

/// The closing line of an upgrade run.
pub fn upgrade_summary(count: u64, dry: bool) -> (r: String)
    ensures
        r@ == (if count == 0 {
            "  All up to date."@
        } else if dry {
            "  "@ + decimal(count as nat) + " would update. Run 'glas upgrade' to apply."@
        } else {
            "  "@ + decimal(count as nat) + " updated."@
        }),
{
    if count == 0 {
        return String::from_str("  All up to date.");
    }
    let mut s = String::from_str("  ");
    push_decimal(&mut s, count);
    if dry {
        push_str(&mut s, " would update. Run 'glas upgrade' to apply.");
    } else {
        push_str(&mut s, " updated.");
    }
    s
}

/// What an install does with its source.
pub enum InstallAction {
    /// The package is there and the install is not forced: the message.
    AlreadyInstalled(String),
    /// Copy the directory.
    CopyDir,
    /// Copy the file into the package's directory.
    CopyFile,
    /// Download the URL as the package's `index.js`.
    Fetch,
    /// Stage `name@version` from the registry: the version recorded and the
    /// text of the package's `index.js`.
    Stage { name: String, version: String, registry_version: String, index_js: String },
    /// Nothing matches the source: the message.
    NotFound(String),
}

/// What an install does, from the source and what is on disk: whether the
/// package's directory is there, and whether the source is a directory or a
/// file.
pub open spec fn install_spec(source: Seq<char>, force: bool, target_exists: bool, is_dir: bool, is_file: bool, a: InstallAction) -> bool {
    if target_exists && !force {
        a matches InstallAction::AlreadyInstalled(m) && m@ == "glas: '"@ + package_name_spec(source)
            + "' already installed (use -f to force)"@
    } else if is_dir {
        a is CopyDir
    } else if is_file {
        a is CopyFile
    } else if occurs_at(source, "http://"@, 0) || occurs_at(source, "https://"@, 0) {
        a is Fetch
    } else if contains(source, "@"@) && !occurs_at(source, "@"@, 0) {
        let k = find_from(source, "@"@, 0)->0;
        let np = source.take(k);
        let vp = source.skip(k + 1);
        a matches InstallAction::Stage { name, version, registry_version, index_js } && name@ == np && version@ == vp
            && registry_version@ == (if vp == "latest"@ {
            "0.1.0"@
        } else {
            vp
        }) && index_js@ == "// "@ + np + " v"@ + vp + "\n"@
    } else {
        a matches InstallAction::NotFound(m) && m@ == "glas: source '"@ + source + "' not found"@
    }
}

/// Decides what an install does.
pub fn install_action(source: &str, force: bool, target_exists: bool, is_dir: bool, is_file: bool) -> (r: InstallAction)
    ensures
        install_spec(source@, force, target_exists, is_dir, is_file, r),
{
    if target_exists && !force {
        let mut m = String::from_str("glas: '");
        let name = package_name_from_source(source);
        push_str(&mut m, name.as_str());
        push_str(&mut m, "' already installed (use -f to force)");
        return InstallAction::AlreadyInstalled(m);
    }
    if is_dir {
        return InstallAction::CopyDir;
    }
    if is_file {
        return InstallAction::CopyFile;
    }
    if has_prefix(source, "http://") || has_prefix(source, "https://") {
        return InstallAction::Fetch;
    }
    let v = to_chars(source);
    let at = to_chars("@");
    proof {
        reveal_strlit("@");
    }
    if !has_prefix(source, "@") {
        proof {
            lemma_find_from(v@, at@, 0);
        }
        match find_chars(v.as_slice(), at.as_slice(), 0) {
            Some(k) => {
                assert(occurs_at(v@, at@, k as int));
                assert(v@.len() == v.len());
                assert(k + 1 <= v.len());
                let np = string_of_range(v.as_slice(), 0, k);
                let vp = string_of_range(v.as_slice(), k + 1, v.len());
                assert(v@.subrange(0, k as int) =~= v@.take(k as int));
                assert(v@.subrange(k + 1, v@.len() as int) =~= v@.skip(k + 1));
                let rv = if str_eq(vp.as_str(), "latest") {
                    String::from_str("0.1.0")
                } else {
                    vp.clone()
                };
                let mut js = String::from_str("// ");
                push_str(&mut js, np.as_str());
                push_str(&mut js, " v");
                push_str(&mut js, vp.as_str());
                push_str(&mut js, "\n");
                return InstallAction::Stage { name: np, version: vp, registry_version: rv, index_js: js };
            },
            None => {},
        }
    }
    let mut m = String::from_str("glas: source '");
    push_str(&mut m, source);
    push_str(&mut m, "' not found");
    InstallAction::NotFound(m)
}

} // verus!

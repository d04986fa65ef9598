//! Small decisions of the command-line tool on plain values.

use vstd::prelude::*;
use crate::text::{
    push_char, push_str, str_eq, to_chars, find_chars, find_from, lemma_find_from,
    string_of_range, split_char, split_spec, views, contains, trim, trim_chars, from_chars,
};
use crate::num::{parse_unsigned, parse_unsigned_exec, decimal, push_decimal};
use crate::path::{file_name, file_name_spec};

verus! {

/// The port after the first `--port` at or after `i` that has a value.
pub open spec fn port_from(args: Seq<String>, i: int) -> u16
    decreases args.len() - i,
{
    if i < 0 || i >= args.len() {
        3000
    } else if args[i]@ == "--port"@ && i + 1 < args.len() {
        match parse_unsigned(args[i + 1]@, 65535) {
            Some(p) => p as u16,
            None => 3000,
        }
    } else {
        port_from(args, i + 1)
    }
}

/// The port given with `--port` at or after `flag_pos`; 3000 when there is
/// none or it is not a number from 0 to 65535.
pub fn parse_port(args: &[String], flag_pos: usize) -> (r: u16)
    ensures
        r == port_from(args@, flag_pos as int),
{
    let mut i = flag_pos;
    while i < args.len()
        invariant
            flag_pos <= i,
            port_from(args@, i as int) == port_from(args@, flag_pos as int),
        decreases args.len() - i,
    {
        if str_eq(args[i].as_str(), "--port") && i + 1 < args.len() {
            return match parse_unsigned_exec(args[i + 1].as_str(), 65535) {
                Some(p) => p as u16,
                None => 3000,
            };
        }
        i = i + 1;
    }
    3000
}

/// The string value of `"key":"..."` in a JSON text, found by its text: the
/// characters after the first `"key":"` up to the next quote.
pub open spec fn extract_json_str_spec(json: Seq<char>, key: Seq<char>) -> Option<Seq<char>> {
    let pat = seq!['"'] + key + seq!['"', ':', '"'];
    match find_from(json, pat, 0) {
        Some(i) => match find_from(json, seq!['"'], i + pat.len()) {
            Some(e) => Some(json.subrange(i + pat.len(), e)),
            None => None,
        },
        None => None,
    }
}

pub fn extract_json_str(json: &str, key: &str) -> (r: Option<String>)
    ensures
        match r {
            Some(s) => extract_json_str_spec(json@, key@) == Some(s@),
            None => extract_json_str_spec(json@, key@) is None,
        },
{
    let v = to_chars(json);
    let mut pat: Vec<char> = Vec::new();
    pat.push('"');
    let k = to_chars(key);
    let mut i: usize = 0;
    while i < k.len()
        invariant
            i <= k@.len(),
            pat@ == seq!['"'] + k@.take(i as int),
        decreases k.len() - i,
    {
        pat.push(k[i]);
        assert(k@.take(i + 1) =~= k@.take(i as int).push(k@[i as int]));
        i = i + 1;
    }
    pat.push('"');
    pat.push(':');
    pat.push('"');
    assert(k@.take(k@.len() as int) =~= k@);
    assert(pat@ =~= seq!['"'] + key@ + seq!['"', ':', '"']);
    let found = find_chars(v.as_slice(), pat.as_slice(), 0);
    match found {
        Some(at) => {
            proof {
                lemma_find_from(v@, pat@, 0);
                assert(v@.len() == v.len());
            }
            let start = at + pat.len();
            let q = vec!['"'];
            assert(q@ =~= seq!['"']);
            match find_chars(v.as_slice(), q.as_slice(), start) {
                Some(e) => {
                    proof {
                        lemma_find_from(v@, q@, start as int);
                    }
                    Some(string_of_range(v.as_slice(), start, e))
                },
                None => None,
            }
        },
        None => None,
    }
}

/// `s` with every copy of `suf` removed from its end (`str::trim_end_matches`).
pub open spec fn trim_suffix_all(s: Seq<char>, suf: Seq<char>) -> Seq<char>
    decreases s.len(),
{
    if suf.len() > 0 && s.len() >= suf.len() && s.skip(s.len() - suf.len()) == suf {
        trim_suffix_all(s.take(s.len() - suf.len()), suf)
    } else {
        s
    }
}

fn trim_suffix_all_exec(s: &str, suf: &str) -> (r: String)
    ensures
        r@ == trim_suffix_all(s@, suf@),
{
    let v = to_chars(s);
    let w = to_chars(suf);
    let mut end = v.len();
    assert(v@.take(end as int) =~= v@);
    if w.len() == 0 {
        return from_chars(v.as_slice());
    }
    loop
        invariant
            end <= v@.len(),
            w@.len() > 0,
            trim_suffix_all(v@.take(end as int), w@) == trim_suffix_all(s@, suf@),
            v@ == s@,
            w@ == suf@,
        ensures
            end <= v@.len(),
            trim_suffix_all(v@.take(end as int), w@) == trim_suffix_all(s@, suf@),
            trim_suffix_all(v@.take(end as int), w@) == v@.take(end as int),
        decreases end,
    {
        if end < w.len() {
            break;
        }
        let mut ok = true;
        let mut j: usize = 0;
        while j < w.len()
            invariant
                j <= w@.len() <= end <= v@.len(),
                ok ==> forall|m: int| 0 <= m < j ==> v@[end - w@.len() + m] == w@[m],
                !ok ==> v@.take(end as int).skip(end - w@.len()) != w@,
            decreases w.len() - j,
        {
            if v[end - w.len() + j] != w[j] {
                assert(v@.take(end as int).skip(end - w@.len())[j as int] == v@[end - w@.len() + j]);
                ok = false;
            }
            j = j + 1;
        }
        if ok {
            assert(v@.take(end as int).skip(end - w@.len()) =~= w@);
            assert(v@.take(end as int).take(end - w@.len()) =~= v@.take(end - w@.len()));
            end = end - w.len();
        } else {
            break;
        }
    }
    assert(v@.subrange(0, end as int) =~= v@.take(end as int));
    string_of_range(v.as_slice(), 0, end)
}

/// The name a package is installed under: the part before `@` for
/// `name@version`, and otherwise the file name without `.ts`, `.js` and
/// `.peb.ts` endings.
pub open spec fn package_name_spec(source: Seq<char>) -> Seq<char> {
    if contains(source, seq!['@']) && !(source.len() > 0 && source[0] == '@') {
        split_spec(source, '@')[0]
    } else {
        let n = match file_name_spec(source) {
            Some(n) => n,
            None => Seq::empty(),
        };
        trim_suffix_all(trim_suffix_all(trim_suffix_all(n, ".ts"@), ".js"@), ".peb.ts"@)
    }
}

pub fn package_name_from_source(source: &str) -> (r: String)
    ensures
        r@ == package_name_spec(source@),
{
    let v = to_chars(source);
    let at = vec!['@'];
    assert(at@ =~= seq!['@']);
    let has_at = find_chars(v.as_slice(), at.as_slice(), 0).is_some();
    if has_at && !(v.len() > 0 && v[0] == '@') {
        let parts = split_char(source, '@');
        proof {
            lemma_split_nonempty(source@, '@');
            assert(views(parts@)[0] == parts@[0]@);
        }
        return parts[0].clone();
    }
    let n = match file_name(source) {
        Some(n) => n,
        None => String::new(),
    };
    let a = trim_suffix_all_exec(n.as_str(), ".ts");
    let b = trim_suffix_all_exec(a.as_str(), ".js");
    trim_suffix_all_exec(b.as_str(), ".peb.ts")
}

pub proof fn lemma_split_nonempty(s: Seq<char>, c: char)
    ensures
        split_spec(s, c).len() > 0,
    decreases s.len(),
{
    lemma_find_from(s, seq![c], 0);
}

/// A `u32` read from `s`, or zero when it is not one.
pub open spec fn u32_or_zero(s: Seq<char>) -> nat {
    match parse_unsigned(s, 4294967295) {
        Some(v) => v,
        None => 0,
    }
}

/// Whether bumping `current` would step a version part past `u32::MAX`,
/// which a version part cannot hold.
pub open spec fn bump_overflows(current: Seq<char>, major: bool) -> bool {
    let parts = split_spec(current, '.');
    parts.len() >= 3 && if major {
        u32_or_zero(parts[0]) == 4294967295
    } else {
        u32_or_zero(parts[2]) == 4294967295
    }
}

/// The next version after `current`: the next major version `M+1.0.0`, or
/// the next patch `M.N.P+1`; `0.1.0` when `current` has fewer than three
/// dot-separated parts. A part that is not a number counts as zero.
pub open spec fn bump_version_spec(current: Seq<char>, major: bool) -> Seq<char> {
    let parts = split_spec(current, '.');
    if parts.len() >= 3 {
        let m = u32_or_zero(parts[0]);
        let n = u32_or_zero(parts[1]);
        let p = u32_or_zero(parts[2]);
        if major {
            decimal(m + 1) + ".0.0"@
        } else {
            decimal(m) + seq!['.'] + decimal(n) + seq!['.'] + decimal(p + 1)
        }
    } else {
        "0.1.0"@
    }
}

fn u32_or_zero_exec(s: &str) -> (r: u64)
    ensures
        r == u32_or_zero(s@),
        r <= 4294967295,
{
    match parse_unsigned_exec(s, 4294967295) {
        Some(v) => v,
        None => 0,
    }
}

/// Whether bumping `current` would step a version part past `u32::MAX`.
pub fn bump_would_overflow(current: &str, major: bool) -> (r: bool)
    ensures
        r == bump_overflows(current@, major),
{
    let parts = split_char(current, '.');
    if parts.len() < 3 {
        return false;
    }
    proof {
        assert(views(parts@)[0] == parts@[0]@);
        assert(views(parts@)[2] == parts@[2]@);
    }
    let k: usize = if major { 0 } else { 2 };
    u32_or_zero_exec(parts[k].as_str()) == 4294967295
}

/// Whether a directory walk passes over a directory: a hidden one, or
/// `node_modules`.
pub fn skip_dir(name: &str) -> (r: bool)
    ensures
        r == ((name@.len() > 0 && name@[0] == '.') || name@ == "node_modules"@),
{
    let v = to_chars(name);
    (v.len() > 0 && v[0] == '.') || str_eq(name, "node_modules")
}

pub fn bump_version(current: &str, major: bool) -> (r: String)
    requires
        !bump_overflows(current@, major),
    ensures
        r@ == bump_version_spec(current@, major),
{
    let parts = split_char(current, '.');
    if parts.len() >= 3 {
        proof {
            assert(views(parts@)[0] == parts@[0]@);
            assert(views(parts@)[1] == parts@[1]@);
            assert(views(parts@)[2] == parts@[2]@);
        }
        let m = u32_or_zero_exec(parts[0].as_str());
        let n = u32_or_zero_exec(parts[1].as_str());
        let p = u32_or_zero_exec(parts[2].as_str());
        let mut r = String::new();
        if major {
            push_decimal(&mut r, m + 1);
            push_str(&mut r, ".0.0");
        } else {
            push_decimal(&mut r, m);
            push_char(&mut r, '.');
            push_decimal(&mut r, n);
            push_char(&mut r, '.');
            push_decimal(&mut r, p + 1);
        }
        assert(r@ =~= bump_version_spec(current@, major));
        r
    } else {
        "0.1.0".to_owned()
    }
}

/// The address of the newest version of `name` in a registry.
pub fn registry_latest_url(url: &str, name: &str) -> (r: String)
    ensures
        r@ == trim_suffix_all(url@, "/"@) + seq!['/'] + name@ + "/latest"@,
{
    let mut r = trim_suffix_all_exec(url, "/");
    push_char(&mut r, '/');
    push_str(&mut r, name);
    push_str(&mut r, "/latest");
    r
}

/// The number of characters of `s` that are decimal digits or dots.
pub open spec fn count_version_chars(s: Seq<char>) -> nat
    decreases s.len(),
{
    if s.len() == 0 {
        0
    } else {
        count_version_chars(s.drop_last()) + if ('0' <= s.last() <= '9') || s.last() == '.' {
            1nat
        } else {
            0nat
        }
    }
}

/// The version that a registry's answer names: the answer without
/// surrounding whitespace, when it is shorter than 20 bytes and holds more
/// than one digit or dot.
pub open spec fn registry_version_spec(body: Seq<char>) -> Option<Seq<char>> {
    let b = trim(body);
    if vstd::utf8::encode_utf8(b).len() < 20 && count_version_chars(b) > 1 {
        Some(b)
    } else {
        None
    }
}

pub fn registry_version(body: &str) -> (r: Option<String>)
    ensures
        opt_view(r) == registry_version_spec(body@),
{
    let v = to_chars(body);
    let t = trim_chars(v.as_slice());
    let ts = from_chars(t.as_slice());
    let nbytes = ts.as_str().as_bytes().len();
    let mut count: usize = 0;
    let mut i: usize = 0;
    while i < t.len()
        invariant
            i <= t@.len(),
            count == count_version_chars(t@.take(i as int)),
            count <= i,
        decreases t.len() - i,
    {
        assert(t@.take(i + 1).drop_last() =~= t@.take(i as int));
        if ('0' <= t[i] && t[i] <= '9') || t[i] == '.' {
            count = count + 1;
        }
        i = i + 1;
    }
    assert(t@.take(t@.len() as int) =~= t@);
    if nbytes < 20 && count > 1 {
        Some(ts)
    } else {
        None
    }
}

pub open spec fn opt_view(r: Option<String>) -> Option<Seq<char>> {
    match r {
        Some(s) => Some(s@),
        None => None,
    }
}

/// `a / d` rounded to the nearest integer, ties to even.
pub open spec fn div_round_even(a: nat, d: nat) -> nat {
    let q = a / d;
    let r = a % d;
    if 2 * r > d || (2 * r == d && q % 2 == 1) {
        q + 1
    } else {
        q
    }
}

/// The smallest unit `u`, from `u` on by doubling, at which `n` has at most
/// 53 significant bits.
pub open spec fn f64_unit(n: nat, u: nat) -> nat
    decreases n - u,
{
    if u == 0 || n < 9007199254740992 * u {
        u
    } else {
        f64_unit(n, 2 * u)
    }
}

/// The value of `n as f64`: `n` rounded to 53 significant bits, ties to even.
pub open spec fn as_f64(n: nat) -> nat {
    div_round_even(n, f64_unit(n, 1)) * f64_unit(n, 1)
}

/// Tenths written with one decimal.
pub open spec fn tenths_text(t: nat) -> Seq<char> {
    decimal(t / 10) + seq!['.'] + decimal(t % 10)
}

/// A size for people: bytes below 1024, else kilobytes below 1024 KB, else
/// megabytes, with one decimal rounded as `format!("{:.1}")` rounds the
/// exact quotient of `bytes as f64` (ties to even).
pub open spec fn format_size_spec(bytes: nat) -> Seq<char> {
    if bytes < 1024 {
        decimal(bytes) + seq!['B']
    } else if bytes < 1048576 {
        tenths_text(div_round_even(bytes * 10, 1024)) + seq!['K', 'B']
    } else {
        tenths_text(div_round_even(as_f64(bytes) * 10, 1048576)) + seq!['M', 'B']
    }
}

proof fn lemma_round_bound(n: nat, u: nat)
    requires
        u >= 1,
    ensures
        div_round_even(n, u) * u <= n + u,
{
    let q = n / u;
    assert(q * u <= n) by (nonlinear_arith)
        requires
            u >= 1,
            q == n / u,
    ;
    assert((q + 1) * u == q * u + u) by (nonlinear_arith);
}

fn div_round_even_exec(a: u128, d: u128) -> (r: u128)
    requires
        d > 0,
        d <= u64::MAX,
        a < u128::MAX / 2,
    ensures
        r == div_round_even(a as nat, d as nat),
{
    let q = a / d;
    let r = a % d;
    if 2 * r > d || (2 * r == d && q % 2 == 1) {
        q + 1
    } else {
        q
    }
}

fn push_tenths(out: &mut String, t: u128)
    requires
        t / 10 <= u64::MAX,
    ensures
        final(out)@ == old(out)@ + tenths_text(t as nat),
{
    push_decimal(out, (t / 10) as u64);
    push_char(out, '.');
    push_decimal(out, (t % 10) as u64);
    assert(final(out)@ =~= old(out)@ + tenths_text(t as nat));
}

pub fn format_size(bytes: u64) -> (r: String)
    ensures
        r@ == format_size_spec(bytes as nat),
{
    let mut r = String::new();
    if bytes < 1024 {
        push_decimal(&mut r, bytes);
        push_char(&mut r, 'B');
        assert(r@ =~= format_size_spec(bytes as nat));
    } else if bytes < 1048576 {
        let t = div_round_even_exec((bytes as u128) * 10, 1024);
        push_tenths(&mut r, t);
        push_char(&mut r, 'K');
        push_char(&mut r, 'B');
        assert(r@ =~= format_size_spec(bytes as nat));
    } else {
        let n = bytes as u128;
        let mut u: u128 = 1;
        while n >= 9007199254740992 * u
            invariant
                1 <= u <= 4096,
                f64_unit(n as nat, u as nat) == f64_unit(n as nat, 1),
                n < 0x1_0000_0000_0000_0000,
            decreases n - u,
        {
            assert(u < 2048) by {
                if u >= 2048 {
                    assert(9007199254740992 * u >= 9007199254740992 * 2048) by (nonlinear_arith)
                        requires
                            u >= 2048,
                    ;
                }
            }
            u = 2 * u;
        }
        let q = div_round_even_exec(n, u);
        proof {
            lemma_round_bound(n as nat, u as nat);
        }
        let v = q * u;
        let t = div_round_even_exec(v * 10, 1048576);
        push_tenths(&mut r, t);
        push_char(&mut r, 'M');
        push_char(&mut r, 'B');
        assert(r@ =~= format_size_spec(bytes as nat));
    }
    r
}

} // verus!

//! Character-level helpers shared by the rest of the library.

use vstd::prelude::*;
use vstd::utf8::encode_utf8;

verus! {

/// Appends one character to a string, by `String::push`. Trusted: the
/// contract claims what std documents of it, that the string afterwards is
/// the old one with `c` added at its end (vstd gives `String::push` no
/// specification of its own).
#[verifier::external_body]
pub(crate) fn push_char(s: &mut String, c: char)
    ensures
        final(s)@ == old(s)@.push(c),
{
    s.push(c);
}

/// The characters of a string slice, in order.
pub fn to_chars(s: &str) -> (r: Vec<char>)
    ensures
        r@ == s@,
{
    let mut r: Vec<char> = Vec::new();
    for c in it: s.chars()
        invariant
            r@ == it.seq().take(it.index() as int),
            it.seq() == s@,
    {
        r.push(c);
    }
    r
}


/// Whether two string slices hold the same characters.
pub fn str_eq(a: &str, b: &str) -> (r: bool)
    ensures
        r == (a@ == b@),
{
    let x = to_chars(a);
    let y = to_chars(b);
    if x.len() != y.len() {
        return false;
    }
    let mut i: usize = 0;
    while i < x.len()
        invariant
            x@ == a@,
            y@ == b@,
            x@.len() == y@.len(),
            i <= x@.len(),
            forall|j: int| 0 <= j < i ==> x@[j] == y@[j],
        decreases x.len() - i,
    {
        if x[i] != y[i] {
            return false;
        }
        i = i + 1;
    }
    assert(x@ =~= y@);
    true
}

/// Appends the characters of `t` to `s`.
pub fn push_str(s: &mut String, t: &str)
    ensures
        final(s)@ == old(s)@ + t@,
{
    let v = to_chars(t);
    let mut i: usize = 0;
    while i < v.len()
        invariant
            v@ == t@,
            i <= v@.len(),
            s@ == old(s)@ + v@.take(i as int),
        decreases v.len() - i,
    {
        push_char(s, v[i]);
        assert(v@.take(i + 1) =~= v@.take(i as int).push(v@[i as int]));
        i = i + 1;
    }
    assert(v@.take(v@.len() as int) =~= v@);
}

/// The string made of `v[a..b]`.
pub fn string_of_range(v: &[char], a: usize, b: usize) -> (r: String)
    requires
        a <= b <= v@.len(),
    ensures
        r@ == v@.subrange(a as int, b as int),
{
    let mut r = String::new();
    let mut k = a;
    while k < b
        invariant
            a <= k <= b <= v@.len(),
            r@ == v@.subrange(a as int, k as int),
        decreases b - k,
    {
        push_char(&mut r, v[k]);
        assert(v@.subrange(a as int, k + 1) =~= v@.subrange(a as int, k as int).push(v@[k as int]));
        k = k + 1;
    }
    r
}

/// Whether `pat` occurs in `s` at position `j`.
pub open spec fn occurs_at(s: Seq<char>, pat: Seq<char>, j: int) -> bool {
    0 <= j && j + pat.len() <= s.len() && s.subrange(j, j + pat.len()) == pat
}

/// The first position at or after `i` where `pat` occurs in `s`.
pub open spec fn find_from(s: Seq<char>, pat: Seq<char>, i: int) -> Option<int>
    decreases s.len() + 1 - i,
{
    if i < 0 || i + pat.len() > s.len() {
        None
    } else if occurs_at(s, pat, i) {
        Some(i)
    } else {
        find_from(s, pat, i + 1)
    }
}

/// Whether `pat` occurs in `s` at all.
pub open spec fn contains(s: Seq<char>, pat: Seq<char>) -> bool {
    find_from(s, pat, 0) is Some
}

pub proof fn lemma_find_from(s: Seq<char>, pat: Seq<char>, i: int)
    requires
        0 <= i,
    ensures
        match find_from(s, pat, i) {
            Some(j) => i <= j && occurs_at(s, pat, j) && forall|k: int| i <= k < j ==> !occurs_at(s, pat, k),
            None => forall|k: int| i <= k ==> !occurs_at(s, pat, k),
        },
    decreases s.len() + 1 - i,
{
    if i + pat.len() > s.len() {
    } else if occurs_at(s, pat, i) {
    } else {
        lemma_find_from(s, pat, i + 1);
    }
}

pub fn occurs_at_exec(s: &[char], pat: &[char], j: usize) -> (r: bool)
    requires
        j <= s@.len(),
    ensures
        r == occurs_at(s@, pat@, j as int),
{
    if pat.len() > s.len() - j {
        return false;
    }
    let mut k: usize = 0;
    while k < pat.len()
        invariant
            j + pat@.len() <= s@.len(),
            s@.len() == s.len(),
            k <= pat@.len(),
            forall|m: int| 0 <= m < k ==> s@[j + m] == pat@[m],
        decreases pat.len() - k,
    {
        if s[j + k] != pat[k] {
            assert(s@.subrange(j as int, j + pat@.len())[k as int] != pat@[k as int]);
            return false;
        }
        k = k + 1;
    }
    assert(s@.subrange(j as int, j + pat@.len()) =~= pat@);
    true
}

/// The first position at or after `from` where `pat` occurs in `s`.
pub fn find_chars(s: &[char], pat: &[char], from: usize) -> (r: Option<usize>)
    ensures
        match r {
            Some(j) => find_from(s@, pat@, from as int) == Some(j as int),
            None => find_from(s@, pat@, from as int) is None,
        },
{
    let mut i = from;
    while i <= s.len()
        invariant
            from <= i,
            find_from(s@, pat@, i as int) == find_from(s@, pat@, from as int),
        decreases s.len() + 1 - i,
    {
        if pat.len() > s.len() - i {
            return None;
        }
        if occurs_at_exec(s, pat, i) {
            return Some(i);
        }
        if i == s.len() {
            proof {
                if pat@.len() == 0 {
                    assert(s@.subrange(i as int, i as int) =~= pat@);
                }
            }
            return None;
        }
        i = i + 1;
    }
    None
}

/// The pieces of `s` between occurrences of `c` (`str::split` with a
/// character).
pub open spec fn split_spec(s: Seq<char>, c: char) -> Seq<Seq<char>>
    decreases s.len(),
{
    match find_from(s, seq![c], 0) {
        Some(k) => {
            proof {
                lemma_find_from(s, seq![c], 0);
            }
            seq![s.take(k)] + split_spec(s.skip(k + 1), c)
        },
        None => seq![s],
    }
}

pub open spec fn views(v: Seq<String>) -> Seq<Seq<char>> {
    v.map_values(|x: String| x@)
}

/// The pieces of `s` between occurrences of `c`.
pub fn split_char(s: &str, c: char) -> (r: Vec<String>)
    ensures
        views(r@) == split_spec(s@, c),
{
    let v = to_chars(s);
    let pat = vec![c];
    let mut out: Vec<String> = Vec::new();
    let mut start: usize = 0;
    assert(v@.skip(0) =~= v@);
    assert(views(out@) =~= Seq::<Seq<char>>::empty());
    assert(views(out@) + split_spec(v@.skip(0), c) =~= split_spec(s@, c));
    loop
        invariant
            v@ == s@,
            pat@ == seq![c],
            start <= v@.len(),
            views(out@) + split_spec(v@.skip(start as int), c) == split_spec(s@, c),
        decreases v@.len() - start,
    {
        let ghost rest = v@.skip(start as int);
        match find_chars(v.as_slice(), pat.as_slice(), start) {
            Some(k) => {
                proof {
                    lemma_find_from(v@, pat@, start as int);
                    lemma_find_shift(v@, pat@, start as int);
                }
                assert(k + 1 <= v@.len());
                assert(v@.len() == v.len());
                let piece = string_of_range(v.as_slice(), start, k);
                let ghost before = out@;
                out.push(piece);
                proof {
                    assert(rest.take(k - start) =~= v@.subrange(start as int, k as int));
                    assert(rest.skip(k - start + 1) =~= v@.skip(k + 1));
                    assert(views(out@) =~= views(before).push(piece@));
                    assert(views(before) + split_spec(rest, c) =~= views(out@) + split_spec(v@.skip(k + 1), c));
                }
                start = k + 1;
            },
            None => {
                proof {
                    lemma_find_shift(v@, pat@, start as int);
                }
                let piece = string_of_range(v.as_slice(), start, v.len());
                let ghost before = out@;
                out.push(piece);
                proof {
                    assert(rest =~= v@.subrange(start as int, v@.len() as int));
                    assert(views(out@) =~= views(before).push(piece@));
                    assert(views(out@) =~= views(before) + split_spec(rest, c));
                }
                return out;
            },
        }
    }
}

/// Finding in a suffix is finding from an offset.
pub proof fn lemma_find_shift(s: Seq<char>, pat: Seq<char>, i: int)
    requires
        0 <= i <= s.len(),
    ensures
        find_from(s.skip(i), pat, 0) == match find_from(s, pat, i) {
            Some(j) => Some(j - i),
            None => None,
        },
{
    lemma_find_from(s, pat, i);
    lemma_find_from(s.skip(i), pat, 0);
    assert forall|k: int| 0 <= k implies occurs_at(s.skip(i), pat, k) == occurs_at(s, pat, k + i) by {
        if k + pat.len() <= s.len() - i {
            assert(s.skip(i).subrange(k, k + pat.len()) =~= s.subrange(k + i, k + i + pat.len()));
        }
    }
    match find_from(s, pat, i) {
        Some(j) => {
            assert(occurs_at(s.skip(i), pat, j - i));
            match find_from(s.skip(i), pat, 0) {
                Some(m) => {
                    assert(occurs_at(s, pat, m + i));
                },
                None => {},
            }
        },
        None => {
            match find_from(s.skip(i), pat, 0) {
                Some(m) => {
                    assert(occurs_at(s, pat, m + i));
                },
                None => {},
            }
        },
    }
}

/// A string made of the given characters.
pub fn from_chars(v: &[char]) -> (r: String)
    ensures
        r@ == v@,
{
    let mut r = String::new();
    let mut i: usize = 0;
    while i < v.len()
        invariant
            i <= v@.len(),
            r@ == v@.take(i as int),
        decreases v.len() - i,
    {
        push_char(&mut r, v[i]);
        assert(v@.take(i + 1) =~= v@.take(i as int).push(v@[i as int]));
        i = i + 1;
    }
    assert(v@.take(v@.len() as int) =~= v@);
    r
}

/// Unicode `White_Space`, the whitespace of `char::is_whitespace`.
pub open spec fn is_space(c: char) -> bool {
    ||| '\u{9}' <= c <= '\u{d}'
    ||| c == ' '
    ||| c == '\u{85}'
    ||| c == '\u{a0}'
    ||| c == '\u{1680}'
    ||| '\u{2000}' <= c <= '\u{200a}'
    ||| c == '\u{2028}'
    ||| c == '\u{2029}'
    ||| c == '\u{202f}'
    ||| c == '\u{205f}'
    ||| c == '\u{3000}'
}

pub fn is_space_char(c: char) -> (r: bool)
    ensures
        r == is_space(c),
{
    ('\u{9}' <= c && c <= '\u{d}') || c == ' ' || c == '\u{85}' || c == '\u{a0}' || c
        == '\u{1680}' || ('\u{2000}' <= c && c <= '\u{200a}') || c == '\u{2028}' || c
        == '\u{2029}' || c == '\u{202f}' || c == '\u{205f}' || c == '\u{3000}'
}

/// `s` without its leading whitespace.
pub open spec fn trim_start(s: Seq<char>) -> Seq<char>
    decreases s.len(),
{
    if s.len() > 0 && is_space(s[0]) {
        trim_start(s.drop_first())
    } else {
        s
    }
}

/// `s` without its trailing whitespace.
pub open spec fn trim_end(s: Seq<char>) -> Seq<char>
    decreases s.len(),
{
    if s.len() > 0 && is_space(s.last()) {
        trim_end(s.drop_last())
    } else {
        s
    }
}

/// `s` without leading and trailing whitespace (`str::trim`).
pub open spec fn trim(s: Seq<char>) -> Seq<char> {
    trim_end(trim_start(s))
}

/// The characters of `v` without leading and trailing whitespace.
pub fn trim_chars(v: &[char]) -> (r: Vec<char>)
    ensures
        r@ == trim(v@),
{
    let n = v.len();
    let mut i: usize = 0;
    assert(v@.subrange(0, n as int) =~= v@);
    while i < n && is_space_char(v[i])
        invariant
            i <= n == v@.len(),
            trim_start(v@.subrange(i as int, n as int)) == trim_start(v@),
        decreases n - i,
    {
        assert(v@.subrange(i as int, n as int).drop_first() =~= v@.subrange(i + 1, n as int));
        i = i + 1;
    }
    let mut j: usize = n;
    while j > i && is_space_char(v[j - 1])
        invariant
            i <= j <= n == v@.len(),
            trim_end(v@.subrange(i as int, j as int)) == trim(v@),
        decreases j,
    {
        assert(v@.subrange(i as int, j as int).drop_last() =~= v@.subrange(i as int, j - 1));
        j = j - 1;
    }
    let mut r: Vec<char> = Vec::new();
    let mut k: usize = i;
    while k < j
        invariant
            i <= k <= j <= n == v@.len(),
            r@ == v@.subrange(i as int, k as int),
        decreases j - k,
    {
        r.push(v[k]);
        assert(v@.subrange(i as int, k + 1) =~= v@.subrange(i as int, k as int).push(v@[k as int]));
        k = k + 1;
    }
    r
}

proof fn lemma_encode_len_trim_start(s: Seq<char>)
    ensures
        encode_utf8(trim_start(s)).len() <= encode_utf8(s).len(),
    decreases s.len(),
{
    if s.len() > 0 && is_space(s[0]) {
        lemma_encode_len_trim_start(s.drop_first());
    }
}

proof fn lemma_encode_len_trim_end(s: Seq<char>)
    ensures
        encode_utf8(trim_end(s)).len() <= encode_utf8(s).len(),
    decreases s.len(),
{
    if s.len() > 0 && is_space(s.last()) {
        lemma_encode_len_trim_end(s.drop_last());
        assert(s =~= s.drop_last() + seq![s.last()]);
        lemma_encode_concat(s.drop_last(), seq![s.last()]);
    }
}

/// Trimming never makes the UTF-8 encoding longer.
pub proof fn lemma_encode_len_trim(s: Seq<char>)
    ensures
        encode_utf8(trim(s)).len() <= encode_utf8(s).len(),
{
    lemma_encode_len_trim_start(s);
    lemma_encode_len_trim_end(trim_start(s));
}

/// UTF-8 encoding distributes over concatenation.
pub proof fn lemma_encode_concat(a: Seq<char>, b: Seq<char>)
    ensures
        encode_utf8(a + b) == encode_utf8(a) + encode_utf8(b),
    decreases a.len(),
{
    if a.len() == 0 {
        assert(a + b =~= b);
    } else {
        assert((a + b).drop_first() =~= a.drop_first() + b);
        lemma_encode_concat(a.drop_first(), b);
    }
}

/// How a character is written inside a double-quoted JavaScript or JSON
/// string: backslash and quote are escaped, and with `controls` also line
/// feed, carriage return and tab.
pub open spec fn quote_char(c: char, controls: bool) -> Seq<char> {
    if c == '\\' {
        seq!['\\', '\\']
    } else if c == '"' {
        seq!['\\', '"']
    } else if controls && c == '\n' {
        seq!['\\', 'n']
    } else if controls && c == '\r' {
        seq!['\\', 'r']
    } else if controls && c == '\t' {
        seq!['\\', 't']
    } else {
        seq![c]
    }
}

/// `s` with each character written by `quote_char`; the same as the
/// chain of `str::replace` calls that escapes backslashes first.
pub open spec fn quoted(s: Seq<char>, controls: bool) -> Seq<char>
    decreases s.len(),
{
    if s.len() == 0 {
        Seq::empty()
    } else {
        quoted(s.drop_last(), controls) + quote_char(s.last(), controls)
    }
}

/// Appends `s` escaped for a double-quoted string.
pub fn push_quoted(out: &mut String, s: &str, controls: bool)
    ensures
        final(out)@ == old(out)@ + quoted(s@, controls),
{
    let v = to_chars(s);
    let mut i: usize = 0;
    while i < v.len()
        invariant
            v@ == s@,
            i <= v@.len(),
            out@ == old(out)@ + quoted(v@.take(i as int), controls),
        decreases v.len() - i,
    {
        let c = v[i];
        let ghost before = out@;
        if c == '\\' {
            push_char(out, '\\');
            push_char(out, '\\');
        } else if c == '"' {
            push_char(out, '\\');
            push_char(out, '"');
        } else if controls && c == '\n' {
            push_char(out, '\\');
            push_char(out, 'n');
        } else if controls && c == '\r' {
            push_char(out, '\\');
            push_char(out, 'r');
        } else if controls && c == '\t' {
            push_char(out, '\\');
            push_char(out, 't');
        } else {
            push_char(out, c);
        }
        assert(v@.take(i + 1).drop_last() =~= v@.take(i as int));
        assert(out@ =~= before + quote_char(c, controls));
        i = i + 1;
    }
    assert(v@.take(v@.len() as int) =~= v@);
}


/// The characters of `s` up to its first whitespace.
pub open spec fn take_word(s: Seq<char>) -> Seq<char>
    decreases s.len(),
{
    if s.len() > 0 && !is_space(s[0]) {
        seq![s[0]] + take_word(s.drop_first())
    } else {
        Seq::empty()
    }
}

/// `s` from its first whitespace on.
pub open spec fn skip_word(s: Seq<char>) -> Seq<char>
    decreases s.len(),
{
    if s.len() > 0 && !is_space(s[0]) {
        skip_word(s.drop_first())
    } else {
        s
    }
}

/// The first two whitespace-separated words of `s`
/// (`str::split_whitespace`), empty where there are fewer.
pub open spec fn first_words(s: Seq<char>) -> (Seq<char>, Seq<char>) {
    let a = trim_start(s);
    (take_word(a), take_word(trim_start(skip_word(a))))
}

/// The first two whitespace-separated words of `s`.
pub fn first_two_words(s: &str) -> (r: (String, String))
    ensures
        (r.0@, r.1@) == first_words(s@),
{
    let v = to_chars(s);
    let n = v.len();
    let mut i: usize = 0;
    assert(v@.subrange(0, n as int) =~= v@);
    while i < n && is_space_char(v[i])
        invariant
            i <= n == v@.len(),
            trim_start(v@.subrange(i as int, n as int)) == trim_start(v@),
        decreases n - i,
    {
        assert(v@.subrange(i as int, n as int).drop_first() =~= v@.subrange(i + 1, n as int));
        i = i + 1;
    }
    let a0 = i;
    assert(trim_start(v@) == v@.subrange(a0 as int, n as int));
    let ghost a = v@.subrange(a0 as int, n as int);
    while i < n && !is_space_char(v[i])
        invariant
            a0 <= i <= n == v@.len(),
            a == v@.subrange(a0 as int, n as int),
            take_word(a) == v@.subrange(a0 as int, i as int) + take_word(v@.subrange(i as int, n as int)),
            skip_word(a) == skip_word(v@.subrange(i as int, n as int)),
        decreases n - i,
    {
        assert(v@.subrange(i as int, n as int).drop_first() =~= v@.subrange(i + 1, n as int));
        assert(v@.subrange(a0 as int, i + 1) =~= v@.subrange(a0 as int, i as int) + seq![v@[i as int]]);
        i = i + 1;
    }
    let w1 = string_of_range(v.as_slice(), a0, i);
    assert(take_word(a) =~= v@.subrange(a0 as int, i as int));
    let b0 = i;
    assert(skip_word(a) == v@.subrange(b0 as int, n as int));
    while i < n && is_space_char(v[i])
        invariant
            b0 <= i <= n == v@.len(),
            trim_start(v@.subrange(i as int, n as int)) == trim_start(v@.subrange(b0 as int, n as int)),
        decreases n - i,
    {
        assert(v@.subrange(i as int, n as int).drop_first() =~= v@.subrange(i + 1, n as int));
        i = i + 1;
    }
    let c0 = i;
    let ghost c = v@.subrange(c0 as int, n as int);
    assert(trim_start(skip_word(a)) == c);
    while i < n && !is_space_char(v[i])
        invariant
            c0 <= i <= n == v@.len(),
            c == v@.subrange(c0 as int, n as int),
            take_word(c) == v@.subrange(c0 as int, i as int) + take_word(v@.subrange(i as int, n as int)),
        decreases n - i,
    {
        assert(v@.subrange(i as int, n as int).drop_first() =~= v@.subrange(i + 1, n as int));
        assert(v@.subrange(c0 as int, i + 1) =~= v@.subrange(c0 as int, i as int) + seq![v@[i as int]]);
        i = i + 1;
    }
    let w2 = string_of_range(v.as_slice(), c0, i);
    assert(take_word(c) =~= v@.subrange(c0 as int, i as int));
    (w1, w2)
}

/// Whether `s` starts with `pre`.
pub fn has_prefix(s: &str, pre: &str) -> (r: bool)
    ensures
        r == occurs_at(s@, pre@, 0),
{
    let v = to_chars(s);
    let p = to_chars(pre);
    if p.len() > v.len() {
        return false;
    }
    occurs_at_exec(v.as_slice(), p.as_slice(), 0)
}

} // verus!

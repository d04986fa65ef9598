//! Reading back what the writer wrote.

use vstd::prelude::*;
use crate::text::{is_space, trim, trim_start, trim_end};
use vstd::utf8::{encode_utf8, is_ascii_chars, is_ascii_chars_encode_utf8};
use crate::json::{parse_spec, hex_of, 
    JVal, json_text, json_members, json_elements, escape_default, escape_char, canonical_number,
    dot_index, strip_leading_zeros, strip_trailing_zeros, matches_at, value_at, object_at,
    members_at, array_at, elements_at, string_body, skip_ws_at, digits_end, number_end,
    bytes_to_chars, lexeme_has_digit, unescape, is_digit_byte,
};

verus! {

/// Characters that `str::escape_default` writes in a form the reader turns
/// back into the same character.
pub open spec fn plain_str_char(c: char) -> bool {
    (' ' <= c <= '~') || c == '\t' || c == '\r' || c == '\n'
}

/// Characters that a member name can hold and still be read back: the writer
/// does not escape names.
pub open spec fn plain_key_char(c: char) -> bool {
    '\0' <= c <= '\u{7f}' && c != '"' && c != '\\'
}

pub open spec fn all_digits(s: Seq<char>) -> bool {
    forall|i: int| 0 <= i < s.len() ==> '0' <= #[trigger] s[i] <= '9'
}

/// Number text of the shape the reader matches: an optional minus sign,
/// digits, and an optional fraction.
pub open spec fn number_shape(t: Seq<char>) -> bool {
    let neg = t.len() > 0 && t[0] == '-';
    let body = if neg { t.drop_first() } else { t };
    let d = dot_index(body);
    &&& all_digits(body.take(d))
    &&& d < body.len() ==> all_digits(body.skip(d + 1))
}

/// Values whose JSON text reads back: strings of `plain_str_char`, member
/// names of `plain_key_char`, numbers of `number_shape`.
pub open spec fn plain(v: JVal) -> bool
    decreases v,
{
    match v {
        JVal::Str(s) => forall|i: int| 0 <= i < s.len() ==> plain_str_char(#[trigger] s[i]),
        JVal::Num(t) => number_shape(t),
        JVal::Bool(_) => true,
        JVal::Null => true,
        JVal::Obj(ps) => plain_members(ps),
        JVal::Arr(xs) => plain_elements(xs),
    }
}

pub open spec fn plain_members(ps: Seq<(Seq<char>, JVal)>) -> bool
    decreases ps,
{
    if ps.len() == 0 {
        true
    } else {
        &&& forall|i: int| 0 <= i < ps[0].0.len() ==> plain_key_char(#[trigger] ps[0].0[i])
        &&& plain(ps[0].1)
        &&& plain_members(ps.drop_first())
    }
}

pub open spec fn plain_elements(xs: Seq<JVal>) -> bool
    decreases xs,
{
    if xs.len() == 0 {
        true
    } else {
        plain(xs[0]) && plain_elements(xs.drop_first())
    }
}

/// A value with every number in the form the writer gives it.
pub open spec fn canon(v: JVal) -> JVal
    decreases v,
{
    match v {
        JVal::Num(t) => JVal::Num(canonical_number(t)),
        JVal::Obj(ps) => JVal::Obj(canon_members(ps)),
        JVal::Arr(xs) => JVal::Arr(canon_elements(xs)),
        _ => v,
    }
}

pub open spec fn canon_members(ps: Seq<(Seq<char>, JVal)>) -> Seq<(Seq<char>, JVal)>
    decreases ps,
{
    if ps.len() == 0 {
        Seq::empty()
    } else {
        seq![(ps[0].0, canon(ps[0].1))] + canon_members(ps.drop_first())
    }
}

pub open spec fn canon_elements(xs: Seq<JVal>) -> Seq<JVal>
    decreases xs,
{
    if xs.len() == 0 {
        Seq::empty()
    } else {
        seq![canon(xs[0])] + canon_elements(xs.drop_first())
    }
}

pub open spec fn member_text(m: (Seq<char>, JVal)) -> Seq<char> {
    seq!['"'] + m.0 + seq!['"', ':'] + json_text(m.1)
}

proof fn lemma_escape_concat(a: Seq<char>, c: Seq<char>)
    ensures
        escape_default(a + c) == escape_default(a) + escape_default(c),
    decreases c.len(),
{
    if c.len() == 0 {
        assert(a + c =~= a);
        assert(escape_default(a) + escape_default(c) =~= escape_default(a));
    } else {
        assert((a + c).drop_last() =~= a + c.drop_last());
        lemma_escape_concat(a, c.drop_last());
        assert((a + c).last() == c.last());
        assert(escape_default(a + c) =~= escape_default(a) + escape_default(c));
    }
}

proof fn lemma_escape_front(s: Seq<char>)
    requires
        s.len() > 0,
    ensures
        escape_default(s) == escape_char(s[0]) + escape_default(s.drop_first()),
{
    assert(s =~= seq![s[0]] + s.drop_first());
    lemma_escape_concat(seq![s[0]], s.drop_first());
    assert(seq![s[0]].drop_last() =~= Seq::<char>::empty());
    assert(seq![s[0]].last() == s[0]);
    assert(escape_default(Seq::<char>::empty()) == Seq::<char>::empty());
    assert(escape_default(seq![s[0]]) =~= Seq::<char>::empty() + escape_char(s[0]));
    assert(escape_default(seq![s[0]]) =~= escape_char(s[0]));
}

proof fn lemma_members_front(ps: Seq<(Seq<char>, JVal)>)
    requires
        ps.len() > 0,
    ensures
        json_members(ps) == member_text(ps[0]) + if ps.len() == 1 {
            Seq::empty()
        } else {
            seq![','] + json_members(ps.drop_first())
        },
    decreases ps.len(),
{
    if ps.len() == 1 {
        assert(json_members(ps) =~= member_text(ps[0]) + Seq::empty());
    } else {
        lemma_members_front(ps.drop_last());
        assert(ps.drop_last().drop_first() =~= ps.drop_first().drop_last());
        assert(ps.drop_last()[0] == ps[0]);
        assert(ps.drop_first().last() == ps.last());
        if ps.len() == 2 {
            assert(json_members(ps.drop_first()) =~= member_text(ps.last()));
        }
        assert(json_members(ps) =~= member_text(ps[0]) + (seq![','] + json_members(ps.drop_first())));
    }
}

proof fn lemma_elements_front(xs: Seq<JVal>)
    requires
        xs.len() > 0,
    ensures
        json_elements(xs) == json_text(xs[0]) + if xs.len() == 1 {
            Seq::empty()
        } else {
            seq![','] + json_elements(xs.drop_first())
        },
    decreases xs.len(),
{
    if xs.len() == 1 {
        assert(json_elements(xs) =~= json_text(xs[0]) + Seq::empty());
    } else {
        lemma_elements_front(xs.drop_last());
        assert(xs.drop_last().drop_first() =~= xs.drop_first().drop_last());
        assert(xs.drop_last()[0] == xs[0]);
        assert(xs.drop_first().last() == xs.last());
        if xs.len() == 2 {
            assert(json_elements(xs.drop_first()) =~= json_text(xs.last()));
        }
        assert(json_elements(xs) =~= json_text(xs[0]) + (seq![','] + json_elements(xs.drop_first())));
    }
}

proof fn lemma_matches_split(b: Seq<u8>, p: int, x: Seq<char>, y: Seq<char>)
    requires
        matches_at(b, p, x + y),
    ensures
        matches_at(b, p, x),
        matches_at(b, p + x.len(), y),
{
    assert forall|i: int| 0 <= i < x.len() implies #[trigger] b[p + i] as char == x[i] by {
        assert((x + y)[i] == x[i]);
    }
    assert forall|i: int| 0 <= i < y.len() implies #[trigger] b[p + x.len() + i] as char == y[i] by {
        assert((x + y)[x.len() + i] == y[i]);
        assert(b[p + (x.len() + i)] as char == (x + y)[x.len() + i]);
    }
}


/// The position after a value in the writer's output: the end of the text,
/// or a comma or closing bracket or brace.
pub open spec fn ends_value(b: Seq<u8>, e: int) -> bool {
    e == b.len() || (0 <= e < b.len() && (b[e] == 44 || b[e] == 93 || b[e] == 125))
}

proof fn lemma_match_byte(b: Seq<u8>, p: int, w: Seq<char>, i: int)
    requires
        matches_at(b, p, w),
        0 <= i < w.len(),
    ensures
        b[p + i] as char == w[i],
        0 <= p + i < b.len(),
{
}

proof fn lemma_read_escaped(b: Seq<u8>, q: int, s: Seq<char>)
    requires
        forall|i: int| 0 <= i < s.len() ==> plain_str_char(#[trigger] s[i]),
        matches_at(b, q, escape_default(s) + seq!['"']),
    ensures
        string_body(b, q) == (s, q + escape_default(s).len() + 1),
    decreases s.len(),
{
    if s.len() == 0 {
        assert(escape_default(s) + seq!['"'] =~= seq!['"']);
        lemma_match_byte(b, q, escape_default(s) + seq!['"'], 0);
        assert(s =~= Seq::<char>::empty());
    } else {
        let c = s[0];
        lemma_escape_front(s);
        let rest = s.drop_first();
        assert(escape_default(s) + seq!['"'] =~= escape_char(c) + (escape_default(rest) + seq!['"']));
        lemma_matches_split(b, q, escape_char(c), escape_default(rest) + seq!['"']);
        let n = escape_char(c).len();
        assert forall|i: int| 0 <= i < rest.len() implies plain_str_char(#[trigger] rest[i]) by {
            assert(rest[i] == s[i + 1]);
        }
        lemma_read_escaped(b, q + n, rest);
        lemma_match_byte(b, q, escape_char(c), 0);
        if n == 2 {
            lemma_match_byte(b, q, escape_char(c), 1);
        }
        assert(plain_str_char(s[0]));
        assert(seq![c] + rest =~= s);
    }
}

proof fn lemma_read_key(b: Seq<u8>, q: int, k: Seq<char>)
    requires
        forall|i: int| 0 <= i < k.len() ==> plain_key_char(#[trigger] k[i]),
        matches_at(b, q, k + seq!['"']),
    ensures
        string_body(b, q) == (k, q + k.len() + 1),
    decreases k.len(),
{
    lemma_match_byte(b, q, k + seq!['"'], 0);
    if k.len() == 0 {
        assert(k =~= Seq::<char>::empty());
    } else {
        let rest = k.drop_first();
        assert(k + seq!['"'] =~= seq![k[0]] + (rest + seq!['"']));
        lemma_matches_split(b, q, seq![k[0]], rest + seq!['"']);
        assert forall|i: int| 0 <= i < rest.len() implies plain_key_char(#[trigger] rest[i]) by {
            assert(rest[i] == k[i + 1]);
        }
        lemma_read_key(b, q + 1, rest);
        assert(plain_key_char(k[0]));
        assert(seq![k[0]] + rest =~= k);
    }
}

proof fn lemma_read_digits(b: Seq<u8>, q: int, s: Seq<char>)
    requires
        all_digits(s),
        matches_at(b, q, s),
        q + s.len() == b.len() || !is_digit_byte(b[q + s.len()]),
    ensures
        digits_end(b, q) == q + s.len(),
    decreases s.len(),
{
    if s.len() > 0 {
        lemma_match_byte(b, q, s, 0);
        assert(s =~= seq![s[0]] + s.drop_first());
        lemma_matches_split(b, q, seq![s[0]], s.drop_first());
        lemma_read_digits(b, q + 1, s.drop_first());
    }
}

proof fn lemma_strip_leading_digits(s: Seq<char>)
    requires
        all_digits(s),
    ensures
        all_digits(strip_leading_zeros(s)),
    decreases s.len(),
{
    if s.len() > 0 && s[0] == '0' {
        lemma_strip_leading_digits(s.drop_first());
    }
}

proof fn lemma_strip_trailing_digits(s: Seq<char>)
    requires
        all_digits(s),
    ensures
        all_digits(strip_trailing_zeros(s)),
    decreases s.len(),
{
    if s.len() > 0 && s.last() == '0' {
        lemma_strip_trailing_digits(s.drop_last());
    }
}

/// The parts of the writer's number text: a sign, the whole digits, and the
/// fraction digits.
proof fn lemma_canonical_parts(t: Seq<char>) -> (r: (Seq<char>, Seq<char>, Seq<char>))
    requires
        number_shape(t),
    ensures
        canonical_number(t) == r.0 + r.1 + if r.2.len() > 0 { seq!['.'] + r.2 } else { Seq::empty() },
        r.0 == Seq::<char>::empty() || r.0 == seq!['-'],
        r.1.len() > 0,
        all_digits(r.1),
        all_digits(r.2),
{
    let neg = t.len() > 0 && t[0] == '-';
    let body = if neg { t.drop_first() } else { t };
    let d = dot_index(body);
    let whole = strip_leading_zeros(body.take(d));
    let frac = strip_trailing_zeros(if d < body.len() { body.skip(d + 1) } else { Seq::empty() });
    let w = if whole.len() == 0 { seq!['0'] } else { whole };
    let sign = if neg && (whole.len() > 0 || frac.len() > 0) { seq!['-'] } else { Seq::empty() };
    lemma_strip_leading_digits(body.take(d));
    lemma_strip_trailing_digits(if d < body.len() { body.skip(d + 1) } else { Seq::empty() });
    (sign, w, frac)
}

proof fn lemma_read_number(b: Seq<u8>, p: int, t: Seq<char>)
    requires
        number_shape(t),
        0 <= p,
        matches_at(b, p, canonical_number(t)),
        ends_value(b, p + canonical_number(t).len()),
    ensures
        value_at(b, p) == (Some(JVal::Num(canonical_number(t))), p + canonical_number(t).len()),
{
    let c = canonical_number(t);
    let (sign, w, frac) = lemma_canonical_parts(t);
    let tail = if frac.len() > 0 { seq!['.'] + frac } else { Seq::<char>::empty() };
    assert(c =~= sign + (w + tail));
    lemma_matches_split(b, p, sign, w + tail);
    let p1 = p + sign.len();
    lemma_matches_split(b, p1, w, tail);
    let p2 = p1 + w.len();
    lemma_match_byte(b, p, c, 0);
    if sign.len() > 0 {
        lemma_match_byte(b, p, sign, 0);
    } else {
        lemma_match_byte(b, p1, w, 0);
    }
    if frac.len() > 0 {
        lemma_match_byte(b, p2, tail, 0);
        lemma_matches_split(b, p2, seq!['.'], frac);
        lemma_read_digits(b, p2 + 1, frac);
        lemma_read_digits(b, p1, w);
    } else {
        lemma_read_digits(b, p1, w);
    }
    assert(number_end(b, p) == p + c.len());
    assert forall|i: int| 0 <= i < c.len() implies #[trigger] bytes_to_chars(b.subrange(p, p + c.len()))[i] == c[i] by {
        lemma_match_byte(b, p, c, i);
    }
    assert(bytes_to_chars(b.subrange(p, p + c.len())) =~= c);
    lemma_match_byte(b, p1, w, 0);
    assert(c[sign.len() as int] == w[0]);
    assert(lexeme_has_digit(c));
}


/// Reading the writer's text of a value gives the value back, with its
/// numbers in the writer's form.
#[verifier::spinoff_prover]
pub proof fn lemma_read_value(b: Seq<u8>, p: int, v: JVal)
    requires
        plain(v),
        0 <= p,
        matches_at(b, p, json_text(v)),
        ends_value(b, p + json_text(v).len()),
    ensures
        value_at(b, p) == (Some(canon(v)), p + json_text(v).len()),
    decreases v, 1int,
{
    let t = json_text(v);
    lemma_match_byte(b, p, t, 0);
    match v {
        JVal::Str(s) => {
            assert(t =~= seq!['"'] + (escape_default(s) + seq!['"']));
            lemma_matches_split(b, p, seq!['"'], escape_default(s) + seq!['"']);
            lemma_read_escaped(b, p + 1, s);
            assert(t[0] == '"');
            assert(b[p] == 34u8);
            assert(skip_ws_at(b, p) == p);
            assert(t.len() == escape_default(s).len() + 2);
            assert(canon(v) == v);
            assert(value_at(b, p) == (Some(JVal::Str(string_body(b, p + 1).0)), string_body(b, p + 1).1));
            assert(value_at(b, p) == (Some(canon(v)), p + json_text(v).len()));
        },
        JVal::Num(n) => {
            lemma_read_number(b, p, n);
            assert(value_at(b, p) == (Some(canon(v)), p + json_text(v).len()));
        },
        JVal::Bool(x) => {
            reveal_strlit("true");
            reveal_strlit("false");
            if x {
                assert(matches_at(b, p, "true"@));
            } else {
                lemma_match_byte(b, p, t, 0);
                assert(!matches_at(b, p, "true"@));
                assert(matches_at(b, p, "false"@));
            }
            assert(value_at(b, p) == (Some(canon(v)), p + json_text(v).len()));
        },
        JVal::Null => {
            reveal_strlit("null");
            assert(matches_at(b, p, "null"@));
            assert(value_at(b, p) == (Some(canon(v)), p + json_text(v).len()));
        },
        JVal::Obj(ps) => {
            assert(t =~= seq!['{'] + (json_members(ps) + seq!['}']));
            lemma_matches_split(b, p, seq!['{'], json_members(ps) + seq!['}']);
            assert(t[0] == '{');
            assert(b[p] == 123u8);
            assert(skip_ws_at(b, p) == p);
            if ps.len() == 0 {
                lemma_match_byte(b, p + 1, json_members(ps) + seq!['}'], 0);
                assert(canon_members(ps) =~= Seq::empty());
            } else {
                lemma_match_byte(b, p + 1, json_members(ps) + seq!['}'], 0);
                lemma_members_front(ps);
                assert(skip_ws_at(b, p + 1) == p + 1);
                lemma_read_members(b, p + 1, ps, Seq::empty());
                assert(Seq::<(Seq<char>, JVal)>::empty() + canon_members(ps) =~= canon_members(ps));
                assert(object_at(b, p) == members_at(b, p + 1, Seq::empty()));
            }
            assert(value_at(b, p) == object_at(b, p));
            assert(canon(v) == JVal::Obj(canon_members(ps)));
            assert(t.len() == json_members(ps).len() + 2);
            assert(value_at(b, p) == (Some(canon(v)), p + json_text(v).len()));
        },
        JVal::Arr(xs) => {
            assert(t =~= seq!['['] + (json_elements(xs) + seq![']']));
            lemma_matches_split(b, p, seq!['['], json_elements(xs) + seq![']']);
            assert(t[0] == '[');
            assert(b[p] == 91u8);
            assert(skip_ws_at(b, p) == p);
            if xs.len() == 0 {
                lemma_match_byte(b, p + 1, json_elements(xs) + seq![']'], 0);
                assert(canon_elements(xs) =~= Seq::empty());
            } else {
                lemma_match_byte(b, p + 1, json_elements(xs) + seq![']'], 0);
                lemma_elements_front(xs);
                lemma_text_first(xs[0]);
                assert(skip_ws_at(b, p + 1) == p + 1);
                lemma_read_elements(b, p + 1, xs, Seq::empty());
                assert(b[p + 1] as char == json_text(xs[0])[0]);
                assert(b[p + 1] != 93u8);
                assert(Seq::<JVal>::empty() + canon_elements(xs) =~= canon_elements(xs));
                assert(array_at(b, p) == elements_at(b, p + 1, Seq::empty()));
            }
            assert(value_at(b, p) == array_at(b, p));
            assert(canon(v) == JVal::Arr(canon_elements(xs)));
            assert(t.len() == json_elements(xs).len() + 2);
            assert(value_at(b, p) == (Some(canon(v)), p + json_text(v).len()));
        },
    }
}

/// The first character of a value's text is never JSON whitespace.
pub proof fn lemma_text_first(v: JVal)
    requires
        plain(v),
    ensures
        json_text(v).len() > 0,
        json_text(v)[0] != ' ' && json_text(v)[0] != '\t' && json_text(v)[0] != '\n' && json_text(v)[0]
            != '\r',
        json_text(v)[0] != ']',
{
    match v {
        JVal::Num(n) => {
            let (sign, w, frac) = lemma_canonical_parts(n);
            let tail = if frac.len() > 0 { seq!['.'] + frac } else { Seq::<char>::empty() };
            assert(json_text(v) =~= sign + (w + tail));
            if sign.len() == 0 {
                assert(json_text(v)[0] == w[0]);
            }
        },
        _ => {},
    }
}

proof fn lemma_read_members(b: Seq<u8>, q: int, ps: Seq<(Seq<char>, JVal)>, acc: Seq<(Seq<char>, JVal)>)
    requires
        ps.len() > 0,
        plain_members(ps),
        0 <= q,
        matches_at(b, q, json_members(ps) + seq!['}']),
    ensures
        members_at(b, q, acc) == (Some(JVal::Obj(acc + canon_members(ps))), q + json_members(ps).len() + 1),
    decreases ps, 2int,
{
    let m = ps[0];
    let rest = ps.drop_first();
    let after = if ps.len() == 1 { Seq::<char>::empty() } else { seq![','] + json_members(rest) };
    lemma_members_front(ps);
    assert(json_members(ps) + seq!['}'] =~= seq!['"'] + (m.0 + seq!['"']) + (seq![':'] + (json_text(m.1) + (after + seq!['}']))));
    lemma_matches_split(b, q, seq!['"'] + (m.0 + seq!['"']), seq![':'] + (json_text(m.1) + (after + seq!['}'])));
    lemma_matches_split(b, q, seq!['"'], m.0 + seq!['"']);
    lemma_match_byte(b, q, seq!['"'], 0);
    lemma_read_key(b, q + 1, m.0);
    let k1 = q + 1 + m.0.len() + 1;
    lemma_matches_split(b, k1, seq![':'], json_text(m.1) + (after + seq!['}']));
    lemma_match_byte(b, k1, seq![':'], 0);
    lemma_matches_split(b, k1 + 1, json_text(m.1), after + seq!['}']);
    let e = k1 + 1 + json_text(m.1).len();
    lemma_match_byte(b, e, after + seq!['}'], 0);
    lemma_read_value(b, k1 + 1, m.1);
    lemma_text_first(m.1);
    lemma_match_byte(b, k1 + 1, json_text(m.1), 0);
    let x = (m.0, canon(m.1));
    if ps.len() == 1 {
        assert(canon_members(ps) =~= seq![x] + canon_members(rest));
        assert(canon_members(rest) =~= Seq::empty());
        assert(acc + canon_members(ps) =~= acc.push(x));
    } else {
        assert(after + seq!['}'] =~= seq![','] + (json_members(rest) + seq!['}']));
        lemma_matches_split(b, e, seq![','], json_members(rest) + seq!['}']);
        lemma_match_byte(b, e + 1, json_members(rest) + seq!['}'], 0);
        lemma_read_members(b, e + 1, rest, acc.push(x));
        assert(acc.push(x) + canon_members(rest) =~= acc + canon_members(ps));
    }
}

proof fn lemma_read_elements(b: Seq<u8>, q: int, xs: Seq<JVal>, acc: Seq<JVal>)
    requires
        xs.len() > 0,
        plain_elements(xs),
        0 <= q,
        matches_at(b, q, json_elements(xs) + seq![']']),
    ensures
        elements_at(b, q, acc) == (Some(JVal::Arr(acc + canon_elements(xs))), q + json_elements(xs).len() + 1),
    decreases xs, 2int,
{
    let x0 = xs[0];
    let rest = xs.drop_first();
    let after = if xs.len() == 1 { Seq::<char>::empty() } else { seq![','] + json_elements(rest) };
    lemma_elements_front(xs);
    assert(json_elements(xs) + seq![']'] =~= json_text(x0) + (after + seq![']']));
    lemma_matches_split(b, q, json_text(x0), after + seq![']']);
    let e = q + json_text(x0).len();
    lemma_match_byte(b, e, after + seq![']'], 0);
    lemma_text_first(x0);
    lemma_match_byte(b, q, json_text(x0), 0);
    lemma_read_value(b, q, x0);
    let y = canon(x0);
    if xs.len() == 1 {
        assert(canon_elements(xs) =~= seq![y] + canon_elements(rest));
        assert(canon_elements(rest) =~= Seq::empty());
        assert(acc + canon_elements(xs) =~= acc.push(y));
    } else {
        assert(after + seq![']'] =~= seq![','] + (json_elements(rest) + seq![']']));
        lemma_matches_split(b, e, seq![','], json_elements(rest) + seq![']']);
        lemma_match_byte(b, e + 1, json_elements(rest) + seq![']'], 0);
        lemma_read_elements(b, e + 1, rest, acc.push(y));
        assert(acc.push(y) + canon_elements(rest) =~= acc + canon_elements(xs));
    }
}


proof fn lemma_ascii_concat(a: Seq<char>, c: Seq<char>)
    requires
        is_ascii_chars(a),
        is_ascii_chars(c),
    ensures
        is_ascii_chars(a + c),
{
    assert forall|i: int| 0 <= i < (a + c).len() implies '\0' <= #[trigger] (a + c)[i] <= '\u{7f}' by {
        if i < a.len() {
            assert((a + c)[i] == a[i]);
        } else {
            assert((a + c)[i] == c[i - a.len()]);
        }
    }
}

proof fn lemma_escape_ascii(s: Seq<char>)
    requires
        forall|i: int| 0 <= i < s.len() ==> plain_str_char(#[trigger] s[i]),
    ensures
        is_ascii_chars(escape_default(s)),
    decreases s.len(),
{
    if s.len() > 0 {
        assert forall|i: int| 0 <= i < s.drop_last().len() implies plain_str_char(#[trigger] s.drop_last()[i]) by {
            assert(s.drop_last()[i] == s[i]);
        }
        lemma_escape_ascii(s.drop_last());
        assert(plain_str_char(s[s.len() - 1]));
        lemma_ascii_concat(escape_default(s.drop_last()), escape_char(s.last()));
    }
}

proof fn lemma_digits_ascii(s: Seq<char>)
    requires
        all_digits(s),
    ensures
        is_ascii_chars(s),
{
    assert forall|i: int| 0 <= i < s.len() implies '\0' <= #[trigger] s[i] <= '\u{7f}' by {
        assert('0' <= s[i] <= '9');
    }
}

/// The writer's text of a plain value is ASCII.
pub proof fn lemma_text_ascii(v: JVal)
    requires
        plain(v),
    ensures
        is_ascii_chars(json_text(v)),
    decreases v, 1int,
{
    match v {
        JVal::Str(s) => {
            lemma_escape_ascii(s);
            lemma_ascii_concat(seq!['"'], escape_default(s));
            lemma_ascii_concat(seq!['"'] + escape_default(s), seq!['"']);
        },
        JVal::Num(n) => {
            let (sign, w, frac) = lemma_canonical_parts(n);
            lemma_digits_ascii(w);
            lemma_digits_ascii(frac);
            let tail = if frac.len() > 0 { seq!['.'] + frac } else { Seq::<char>::empty() };
            lemma_ascii_concat(seq!['.'], frac);
            lemma_ascii_concat(sign, w);
            lemma_ascii_concat(sign + w, tail);
        },
        JVal::Bool(_) => {},
        JVal::Null => {},
        JVal::Obj(ps) => {
            lemma_members_ascii(ps);
            lemma_ascii_concat(seq!['{'], json_members(ps));
            lemma_ascii_concat(seq!['{'] + json_members(ps), seq!['}']);
        },
        JVal::Arr(xs) => {
            lemma_elements_ascii(xs);
            lemma_ascii_concat(seq!['['], json_elements(xs));
            lemma_ascii_concat(seq!['['] + json_elements(xs), seq![']']);
        },
    }
}

proof fn lemma_members_ascii(ps: Seq<(Seq<char>, JVal)>)
    requires
        plain_members(ps),
    ensures
        is_ascii_chars(json_members(ps)),
    decreases ps, 2int,
{
    if ps.len() > 0 {
        lemma_members_front(ps);
        let m = ps[0];
        lemma_text_ascii(m.1);
        assert(forall|i: int| 0 <= i < ps[0].0.len() ==> plain_key_char(#[trigger] ps[0].0[i]));
        assert forall|i: int| 0 <= i < m.0.len() implies '\0' <= #[trigger] m.0[i] <= '\u{7f}' by {
            assert(plain_key_char(ps[0].0[i]));
        }
        lemma_ascii_concat(seq!['"'], m.0);
        lemma_ascii_concat(seq!['"'] + m.0, seq!['"', ':']);
        lemma_ascii_concat(seq!['"'] + m.0 + seq!['"', ':'], json_text(m.1));
        if ps.len() > 1 {
            lemma_members_ascii(ps.drop_first());
            lemma_ascii_concat(seq![','], json_members(ps.drop_first()));
            lemma_ascii_concat(member_text(m), seq![','] + json_members(ps.drop_first()));
        } else {
            assert(member_text(m) + Seq::<char>::empty() =~= member_text(m));
        }
    }
}

proof fn lemma_elements_ascii(xs: Seq<JVal>)
    requires
        plain_elements(xs),
    ensures
        is_ascii_chars(json_elements(xs)),
    decreases xs, 2int,
{
    if xs.len() > 0 {
        lemma_elements_front(xs);
        lemma_text_ascii(xs[0]);
        if xs.len() > 1 {
            lemma_elements_ascii(xs.drop_first());
            lemma_ascii_concat(seq![','], json_elements(xs.drop_first()));
            lemma_ascii_concat(json_text(xs[0]), seq![','] + json_elements(xs.drop_first()));
        } else {
            assert(json_text(xs[0]) + Seq::<char>::empty() =~= json_text(xs[0]));
        }
    }
}

proof fn lemma_text_trimmed(v: JVal)
    requires
        plain(v),
    ensures
        trim(json_text(v)) == json_text(v),
{
    let t = json_text(v);
    lemma_text_first(v);
    match v {
        JVal::Num(n) => {
            let (sign, w, frac) = lemma_canonical_parts(n);
            let tail = if frac.len() > 0 { seq!['.'] + frac } else { Seq::<char>::empty() };
            assert(t =~= sign + (w + tail));
            if sign.len() == 0 {
                assert(t[0] == w[0]);
            }
            if frac.len() > 0 {
                assert(t.last() == frac.last());
                assert('0' <= frac[frac.len() - 1] <= '9');
            } else {
                assert(t.last() == w.last());
                assert('0' <= w[w.len() - 1] <= '9');
            }
        },
        JVal::Str(s) => {
            assert(t.last() == '"');
        },
        JVal::Obj(ps) => {
            assert(t.last() == '}');
        },
        JVal::Arr(xs) => {
            assert(t.last() == ']');
        },
        _ => {},
    }
    assert(!is_space(t[0]));
    assert(!is_space(t.last()));
    assert(trim_start(t) == t);
    assert(trim_end(t) == t);
}

/// The central law of the JSON module: reading the text that `to_json`
/// writes for a plain value gives that value back, with each number in the
/// form the writer gives it.
pub proof fn law_parse_to_json(v: JVal)
    requires
        plain(v),
    ensures
        parse_spec(json_text(v)) == Some(canon(v)),
{
    let t = json_text(v);
    lemma_text_ascii(v);
    lemma_text_trimmed(v);
    lemma_text_first(v);
    is_ascii_chars_encode_utf8(t);
    let b = encode_utf8(t);
    assert forall|i: int| 0 <= i < t.len() implies #[trigger] b[0 + i] as char == t[i] by {
        assert(t[i] as u8 == b[i]);
        assert('\0' <= t[i] <= '\u{7f}');
    }
    assert(matches_at(b, 0, t));
    lemma_read_value(b, 0, v);
}

} // verus!

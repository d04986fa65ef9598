//! A small JSON reader and writer.

use vstd::prelude::*;
use crate::text::{push_char, push_str, to_chars, trim, trim_chars, from_chars, lemma_encode_len_trim, str_eq};
use vstd::utf8::encode_utf8;

verus! {

/// A JSON value. Numbers are kept as the text that the reader matched.
pub enum Value {
    String(String),
    Number(String),
    Boolean(bool),
    Null,
    Object(Vec<(String, Value)>),
    Array(Vec<Value>),
}

/// The mathematical model of a JSON value.
pub enum JVal {
    Str(Seq<char>),
    Num(Seq<char>),
    Bool(bool),
    Null,
    Obj(Seq<(Seq<char>, JVal)>),
    Arr(Seq<JVal>),
}

pub open spec fn model(v: Value) -> JVal
    decreases v,
{
    match v {
        Value::String(s) => JVal::Str(s@),
        Value::Number(n) => JVal::Num(n@),
        Value::Boolean(b) => JVal::Bool(b),
        Value::Null => JVal::Null,
        Value::Object(pairs) => JVal::Obj(model_pairs(pairs@)),
        Value::Array(items) => JVal::Arr(model_items(items@)),
    }
}

pub open spec fn model_items(s: Seq<Value>) -> Seq<JVal>
    decreases s,
{
    if s.len() == 0 {
        Seq::empty()
    } else {
        model_items(s.drop_last()).push(model(s.last()))
    }
}

pub open spec fn model_pairs(s: Seq<(String, Value)>) -> Seq<(Seq<char>, JVal)>
    decreases s,
{
    if s.len() == 0 {
        Seq::empty()
    } else {
        model_pairs(s.drop_last()).push((s.last().0@, model(s.last().1)))
    }
}

/// The text of the last member named `k` whose value is a string.
pub open spec fn last_str(ps: Seq<(Seq<char>, JVal)>, k: Seq<char>) -> Option<Seq<char>>
    decreases ps.len(),
{
    if ps.len() == 0 {
        None
    } else {
        match ps.last().1 {
            JVal::Str(s) => if ps.last().0 == k { Some(s) } else { last_str(ps.drop_last(), k) },
            _ => last_str(ps.drop_last(), k),
        }
    }
}

/// The text of the last member named `k` whose value is a number.
pub open spec fn last_num(ps: Seq<(Seq<char>, JVal)>, k: Seq<char>) -> Option<Seq<char>>
    decreases ps.len(),
{
    if ps.len() == 0 {
        None
    } else {
        match ps.last().1 {
            JVal::Num(t) => if ps.last().0 == k { Some(t) } else { last_num(ps.drop_last(), k) },
            _ => last_num(ps.drop_last(), k),
        }
    }
}

/// The last member named `k` whose value is a boolean.
pub open spec fn last_bool(ps: Seq<(Seq<char>, JVal)>, k: Seq<char>) -> Option<bool>
    decreases ps.len(),
{
    if ps.len() == 0 {
        None
    } else {
        match ps.last().1 {
            JVal::Bool(b) => if ps.last().0 == k { Some(b) } else { last_bool(ps.drop_last(), k) },
            _ => last_bool(ps.drop_last(), k),
        }
    }
}

/// The value of the last member named `k`, whatever it is.
pub open spec fn last_val(ps: Seq<(Seq<char>, JVal)>, k: Seq<char>) -> Option<JVal>
    decreases ps.len(),
{
    if ps.len() == 0 {
        None
    } else if ps.last().0 == k {
        Some(ps.last().1)
    } else {
        last_val(ps.drop_last(), k)
    }
}

/// The items of every member named `k` whose value is an array, one array
/// after the other.
pub open spec fn items_under(ps: Seq<(Seq<char>, JVal)>, k: Seq<char>) -> Seq<JVal>
    decreases ps.len(),
{
    if ps.len() == 0 {
        Seq::empty()
    } else {
        match ps.last().1 {
            JVal::Arr(items) => if ps.last().0 == k {
                items_under(ps.drop_last(), k) + items
            } else {
                items_under(ps.drop_last(), k)
            },
            _ => items_under(ps.drop_last(), k),
        }
    }
}

/// The text of the last member named `k` that is a string, or nothing.
pub open spec fn str_member(ps: Seq<(Seq<char>, JVal)>, k: Seq<char>) -> Seq<char> {
    str_or(last_str(ps, k), Seq::empty())
}

/// The text held, or `d`.
pub open spec fn str_or(o: Option<Seq<char>>, d: Seq<char>) -> Seq<char> {
    match o {
        Some(t) => t,
        None => d,
    }
}

} // verus!

verus! {

/// Whitespace that the reader skips between tokens.
pub open spec fn is_ws_byte(c: u8) -> bool {
    c == 32 || c == 9 || c == 10 || c == 13
}

pub open spec fn is_digit_byte(c: u8) -> bool {
    48 <= c <= 57
}

/// The first position at or after `p` that does not hold JSON whitespace.
pub open spec fn skip_ws_at(b: Seq<u8>, p: int) -> int
    decreases b.len() - p,
{
    if 0 <= p < b.len() && is_ws_byte(b[p]) {
        skip_ws_at(b, p + 1)
    } else {
        p
    }
}

/// The character that an escape `\c` stands for.
pub open spec fn unescape(c: u8) -> char {
    if c == 110 {
        '\n'
    } else if c == 116 {
        '\t'
    } else if c == 114 {
        '\r'
    } else {
        c as char
    }
}

/// The characters of a string body that starts at `p` (just after the opening
/// quote), and the position after the closing quote or the end of input.
/// Each byte becomes the character with that code.
pub open spec fn string_body(b: Seq<u8>, p: int) -> (Seq<char>, int)
    decreases b.len() - p,
{
    if p < 0 || p >= b.len() {
        (Seq::empty(), p)
    } else if b[p] == 34 {
        (Seq::empty(), p + 1)
    } else if b[p] == 92 {
        if p + 1 < b.len() {
            let (r, q) = string_body(b, p + 2);
            (seq![unescape(b[p + 1])] + r, q)
        } else {
            (Seq::empty(), p + 1)
        }
    } else {
        let (r, q) = string_body(b, p + 1);
        (seq![b[p] as char] + r, q)
    }
}

/// The first position at or after `p` that does not hold a decimal digit.
pub open spec fn digits_end(b: Seq<u8>, p: int) -> int
    decreases b.len() - p,
{
    if 0 <= p < b.len() && is_digit_byte(b[p]) {
        digits_end(b, p + 1)
    } else {
        p
    }
}

pub proof fn lemma_skip_ws_bounds(b: Seq<u8>, p: int)
    ensures
        p <= skip_ws_at(b, p),
        p <= b.len() ==> skip_ws_at(b, p) <= b.len(),
    decreases b.len() - p,
{
    if 0 <= p < b.len() && is_ws_byte(b[p]) {
        lemma_skip_ws_bounds(b, p + 1);
    }
}

pub proof fn lemma_string_body_bounds(b: Seq<u8>, p: int)
    ensures
        p <= string_body(b, p).1,
        0 <= p <= b.len() ==> string_body(b, p).1 <= b.len(),
    decreases b.len() - p,
{
    if p < 0 || p >= b.len() {
    } else if b[p] == 34 {
    } else if b[p] == 92 {
        if p + 1 < b.len() {
            lemma_string_body_bounds(b, p + 2);
        }
    } else {
        lemma_string_body_bounds(b, p + 1);
    }
}

/// The end of a number that starts at `q`: an optional minus sign, digits,
/// and an optional fraction made of a dot and digits.
pub open spec fn number_end(b: Seq<u8>, q: int) -> int {
    let p1 = if 0 <= q < b.len() && b[q] == 45 { q + 1 } else { q };
    let p2 = digits_end(b, p1);
    if 0 <= p2 < b.len() && b[p2] == 46 {
        digits_end(b, p2 + 1)
    } else {
        p2
    }
}

pub open spec fn bytes_to_chars(b: Seq<u8>) -> Seq<char> {
    b.map_values(|c: u8| c as char)
}

/// A number's text is read as a number when it holds at least one digit.
pub open spec fn lexeme_has_digit(t: Seq<char>) -> bool {
    exists|i: int| 0 <= i < t.len() && '0' <= #[trigger] t[i] <= '9'
}

pub open spec fn matches_at(b: Seq<u8>, q: int, w: Seq<char>) -> bool {
    0 <= q && q + w.len() <= b.len() && forall|i: int| 0 <= i < w.len() ==> #[trigger] b[q + i] as char == w[i]
}

/// Reading a value at `p`: the value, if one is read, and the position where
/// reading stopped.
pub open spec fn value_at(b: Seq<u8>, p: int) -> (Option<JVal>, int)
    decreases b.len() - p, 1int,
{
    let q = skip_ws_at(b, p);
    proof {
        lemma_skip_ws_bounds(b, p);
    }
    if q < 0 || q >= b.len() || p > b.len() {
        (None, q)
    } else if b[q] == 34 {
        let (s, e) = string_body(b, q + 1);
        (Some(JVal::Str(s)), e)
    } else if b[q] == 123 {
        object_at(b, q)
    } else if b[q] == 91 {
        array_at(b, q)
    } else if b[q] == 116 || b[q] == 102 {
        if matches_at(b, q, "true"@) {
            (Some(JVal::Bool(true)), q + 4)
        } else if matches_at(b, q, "false"@) {
            (Some(JVal::Bool(false)), q + 5)
        } else {
            (None, q)
        }
    } else if b[q] == 110 {
        if matches_at(b, q, "null"@) {
            (Some(JVal::Null), q + 4)
        } else {
            (None, q)
        }
    } else if b[q] == 45 || is_digit_byte(b[q]) {
        let e = number_end(b, q);
        let t = bytes_to_chars(b.subrange(q, e));
        if lexeme_has_digit(t) {
            (Some(JVal::Num(t)), e)
        } else {
            (None, e)
        }
    } else {
        (None, q)
    }
}

/// Reading an object whose opening brace is at `q`.
pub open spec fn object_at(b: Seq<u8>, q: int) -> (Option<JVal>, int)
    decreases b.len() - q, 0int,
{
    if q < 0 || q >= b.len() {
        (None, q)
    } else {
        let p1 = skip_ws_at(b, q + 1);
        proof {
            lemma_skip_ws_bounds(b, q + 1);
        }
        if p1 < b.len() && b[p1] == 125 {
            (Some(JVal::Obj(Seq::empty())), p1 + 1)
        } else {
            members_at(b, p1, Seq::empty())
        }
    }
}

/// The members of an object from `p` on, after the members `acc`.
pub open spec fn members_at(b: Seq<u8>, p: int, acc: Seq<(Seq<char>, JVal)>) -> (Option<JVal>, int)
    decreases b.len() - p, 2int,
{
    if p < 0 || p > b.len() {
        (None, p)
    } else {
        let k0 = skip_ws_at(b, p);
        let (key, k1) = string_body(b, k0 + 1);
        let k2 = skip_ws_at(b, k1);
        proof {
            lemma_skip_ws_bounds(b, p);
            lemma_string_body_bounds(b, k0 + 1);
            lemma_skip_ws_bounds(b, k1);
        }
        if k2 < p || k2 >= b.len() || b[k2] != 58 {
            (None, k2)
        } else {
            let (v, e) = value_at(b, k2 + 1);
            match v {
                None => (None, e),
                Some(val) => {
                    let k3 = skip_ws_at(b, e);
                    if k3 < p || k3 >= b.len() {
                        (None, k3)
                    } else if b[k3] == 44 {
                        members_at(b, k3 + 1, acc.push((key, val)))
                    } else if b[k3] == 125 {
                        (Some(JVal::Obj(acc.push((key, val)))), k3 + 1)
                    } else {
                        (None, k3)
                    }
                },
            }
        }
    }
}

/// Reading an array whose opening bracket is at `q`.
pub open spec fn array_at(b: Seq<u8>, q: int) -> (Option<JVal>, int)
    decreases b.len() - q, 0int,
{
    if q < 0 || q >= b.len() {
        (None, q)
    } else {
        let p1 = skip_ws_at(b, q + 1);
        proof {
            lemma_skip_ws_bounds(b, q + 1);
        }
        if p1 < b.len() && b[p1] == 93 {
            (Some(JVal::Arr(Seq::empty())), p1 + 1)
        } else {
            elements_at(b, p1, Seq::empty())
        }
    }
}

/// The elements of an array from `p` on, after the elements `acc`. An element
/// that cannot be read is left out.
pub open spec fn elements_at(b: Seq<u8>, p: int, acc: Seq<JVal>) -> (Option<JVal>, int)
    decreases b.len() - p, 2int,
{
    if p < 0 || p > b.len() {
        (None, p)
    } else {
        let k0 = skip_ws_at(b, p);
        proof {
            lemma_skip_ws_bounds(b, p);
        }
        let (v, e) = value_at(b, k0);
        let acc2 = match v {
            Some(val) => acc.push(val),
            None => acc,
        };
        let k3 = skip_ws_at(b, e);
        if k3 < p || k3 >= b.len() {
            (None, k3)
        } else if b[k3] == 44 {
            elements_at(b, k3 + 1, acc2)
        } else if b[k3] == 93 {
            (Some(JVal::Arr(acc2)), k3 + 1)
        } else {
            (None, k3)
        }
    }
}

} // verus!

verus! {

pub open spec fn model_opt(r: Option<Value>) -> Option<JVal> {
    match r {
        Some(v) => Some(model(v)),
        None => None,
    }
}

pub proof fn lemma_model_items_push(s: Seq<Value>, x: Value)
    ensures
        model_items(s.push(x)) == model_items(s).push(model(x)),
{
    assert(s.push(x).drop_last() =~= s);
}

pub proof fn lemma_model_pairs_push(s: Seq<(String, Value)>, x: (String, Value))
    ensures
        model_pairs(s.push(x)) == model_pairs(s).push((x.0@, model(x.1))),
{
    assert(s.push(x).drop_last() =~= s);
}

pub proof fn lemma_skip_ws_idem(b: Seq<u8>, p: int)
    ensures
        skip_ws_at(b, skip_ws_at(b, p)) == skip_ws_at(b, p),
    decreases b.len() - p,
{
    if 0 <= p < b.len() && is_ws_byte(b[p]) {
        lemma_skip_ws_idem(b, p + 1);
    }
}

pub proof fn lemma_value_at_skip(b: Seq<u8>, p: int)
    requires
        0 <= p <= b.len(),
    ensures
        value_at(b, skip_ws_at(b, p)) == value_at(b, p),
{
    lemma_skip_ws_idem(b, p);
    lemma_skip_ws_bounds(b, p);
}

pub proof fn lemma_digits_end_bounds(b: Seq<u8>, p: int)
    ensures
        p <= digits_end(b, p),
        0 <= p <= b.len() ==> digits_end(b, p) <= b.len(),
    decreases b.len() - p,
{
    if 0 <= p < b.len() && is_digit_byte(b[p]) {
        lemma_digits_end_bounds(b, p + 1);
    }
}

pub proof fn lemma_value_pos(b: Seq<u8>, p: int)
    requires
        0 <= p <= b.len(),
    ensures
        p <= value_at(b, p).1 <= b.len() + 1,
    decreases b.len() - p, 1int,
{
    let q = skip_ws_at(b, p);
    lemma_skip_ws_bounds(b, p);
    if q < 0 || q >= b.len() {
    } else if b[q] == 34 {
        lemma_string_body_bounds(b, q + 1);
    } else if b[q] == 123 {
        lemma_object_pos(b, q);
    } else if b[q] == 91 {
        lemma_array_pos(b, q);
    } else if b[q] == 116 || b[q] == 102 || b[q] == 110 {
        reveal_strlit("true");
        reveal_strlit("false");
        reveal_strlit("null");
    } else if b[q] == 45 || is_digit_byte(b[q]) {
        let p1 = if b[q] == 45 { q + 1 } else { q };
        lemma_digits_end_bounds(b, p1);
        let p2 = digits_end(b, p1);
        if 0 <= p2 < b.len() && b[p2] == 46 {
            lemma_digits_end_bounds(b, p2 + 1);
        }
    }
}

pub proof fn lemma_object_pos(b: Seq<u8>, q: int)
    requires
        0 <= q < b.len(),
    ensures
        q <= object_at(b, q).1 <= b.len() + 1,
    decreases b.len() - q, 0int,
{
    let p1 = skip_ws_at(b, q + 1);
    lemma_skip_ws_bounds(b, q + 1);
    if p1 < b.len() && b[p1] == 125 {
    } else {
        lemma_members_pos(b, p1, Seq::empty());
    }
}

pub proof fn lemma_members_pos(b: Seq<u8>, p: int, acc: Seq<(Seq<char>, JVal)>)
    requires
        0 <= p <= b.len(),
    ensures
        p <= members_at(b, p, acc).1 <= b.len() + 1,
    decreases b.len() - p, 2int,
{
    let k0 = skip_ws_at(b, p);
    lemma_skip_ws_bounds(b, p);
    let (key, k1) = string_body(b, k0 + 1);
    lemma_string_body_bounds(b, k0 + 1);
    let k2 = skip_ws_at(b, k1);
    lemma_skip_ws_bounds(b, k1);
    if k2 < p || k2 >= b.len() || b[k2] != 58 {
    } else {
        let (v, e) = value_at(b, k2 + 1);
        lemma_value_pos(b, k2 + 1);
        match v {
            None => {},
            Some(val) => {
                let k3 = skip_ws_at(b, e);
                lemma_skip_ws_bounds(b, e);
                if k3 < p || k3 >= b.len() {
                } else if b[k3] == 44 {
                    lemma_members_pos(b, k3 + 1, acc.push((key, val)));
                }
            },
        }
    }
}

pub proof fn lemma_array_pos(b: Seq<u8>, q: int)
    requires
        0 <= q < b.len(),
    ensures
        q <= array_at(b, q).1 <= b.len() + 1,
    decreases b.len() - q, 0int,
{
    let p1 = skip_ws_at(b, q + 1);
    lemma_skip_ws_bounds(b, q + 1);
    if p1 < b.len() && b[p1] == 93 {
    } else {
        lemma_elements_pos(b, p1, Seq::empty());
    }
}

pub proof fn lemma_elements_pos(b: Seq<u8>, p: int, acc: Seq<JVal>)
    requires
        0 <= p <= b.len(),
    ensures
        p <= elements_at(b, p, acc).1 <= b.len() + 1,
    decreases b.len() - p, 2int,
{
    let k0 = skip_ws_at(b, p);
    lemma_skip_ws_bounds(b, p);
    let (v, e) = value_at(b, k0);
    lemma_value_pos(b, k0);
    let acc2 = match v {
        Some(val) => acc.push(val),
        None => acc,
    };
    let k3 = skip_ws_at(b, e);
    lemma_skip_ws_bounds(b, e);
    if k3 < p || k3 >= b.len() {
    } else if b[k3] == 44 {
        lemma_elements_pos(b, k3 + 1, acc2);
    }
}

} // verus!

verus! {

fn is_ws(c: u8) -> (r: bool)
    ensures
        r == is_ws_byte(c),
{
    c == 32 || c == 9 || c == 10 || c == 13
}

fn is_digit(c: u8) -> (r: bool)
    ensures
        r == is_digit_byte(c),
{
    48 <= c && c <= 57
}

fn skip_ws(b: &[u8], pos: &mut usize)
    requires
        *old(pos) <= b@.len() + 1,
        b@.len() < usize::MAX,
    ensures
        *final(pos) == skip_ws_at(b@, *old(pos) as int),
{
    let ghost start = *pos as int;
    let mut p = *pos;
    while p < b.len() && is_ws(b[p])
        invariant
            start <= p <= b@.len() + 1,
            b@.len() < usize::MAX,
            skip_ws_at(b@, p as int) == skip_ws_at(b@, start),
        decreases b.len() - p,
    {
        p = p + 1;
    }
    *pos = p;
}

fn unescape_byte(c: u8) -> (r: char)
    ensures
        r == unescape(c),
{
    if c == 110 {
        '\n'
    } else if c == 116 {
        '\t'
    } else if c == 114 {
        '\r'
    } else {
        c as char
    }
}

fn parse_string(b: &[u8], pos: &mut usize) -> (r: String)
    requires
        *old(pos) <= b@.len(),
        b@.len() < usize::MAX,
    ensures
        (r@, *final(pos) as int) == string_body(b@, *old(pos) + 1),
{
    let mut p = *pos + 1;
    let ghost start = p as int;
    let mut r = String::new();
    while p < b.len()
        invariant
            start <= p <= b@.len() + 1,
            start == *old(pos) + 1,
            b@.len() < usize::MAX,
            r@ + string_body(b@, p as int).0 == string_body(b@, start).0,
            string_body(b@, p as int).1 == string_body(b@, start).1,
        decreases b.len() - p,
    {
        let c = b[p];
        if c == 34 {
            assert(string_body(b@, p as int) == (Seq::<char>::empty(), p + 1));
            assert(r@ + Seq::<char>::empty() =~= r@);
            *pos = p + 1;
            return r;
        } else if c == 92 {
            if p + 1 < b.len() {
                let ghost before = r@;
                push_char(&mut r, unescape_byte(b[p + 1]));
                assert(before.push(unescape(b@[p + 1])) + string_body(b@, p + 2).0 =~= before + (
                seq![unescape(b@[p + 1])] + string_body(b@, p + 2).0));
                p = p + 2;
            } else {
                assert(r@ + Seq::<char>::empty() =~= r@);
                p = p + 1;
            }
        } else {
            let ghost before = r@;
            push_char(&mut r, c as char);
            assert(before.push(c as char) + string_body(b@, p + 1).0 =~= before + (seq![c as char]
                + string_body(b@, p + 1).0));
            p = p + 1;
        }
    }
    assert(r@ + Seq::<char>::empty() =~= r@);
    *pos = p;
    r
}

fn digits_from(b: &[u8], p: usize) -> (r: usize)
    requires
        p <= b@.len(),
    ensures
        r == digits_end(b@, p as int),
{
    let mut i = p;
    while i < b.len() && is_digit(b[i])
        invariant
            p <= i <= b@.len(),
            digits_end(b@, i as int) == digits_end(b@, p as int),
        decreases b.len() - i,
    {
        i = i + 1;
    }
    i
}

fn parse_number(b: &[u8], pos: &mut usize) -> (r: Option<String>)
    requires
        *old(pos) < b@.len(),
    ensures
        *final(pos) == number_end(b@, *old(pos) as int),
        ({
            let t = bytes_to_chars(b@.subrange(*old(pos) as int, *final(pos) as int));
            &&& r is Some <==> lexeme_has_digit(t)
            &&& r matches Some(x) ==> x@ == t
        }),
{
    let start = *pos;
    let p1 = if b[start] == 45 { start + 1 } else { start };
    proof {
        lemma_digits_end_bounds(b@, p1 as int);
    }
    let p2 = digits_from(b, p1);
    let end = if p2 < b.len() && b[p2] == 46 {
        proof {
            lemma_digits_end_bounds(b@, p2 + 1);
        }
        digits_from(b, p2 + 1)
    } else {
        p2
    };
    proof {
        lemma_digits_end_bounds(b@, p1 as int);
    }
    let mut t = String::new();
    let mut seen = false;
    let mut i = start;
    while i < end
        invariant
            start <= i <= end <= b@.len(),
            t@ == bytes_to_chars(b@.subrange(start as int, i as int)),
            seen <==> lexeme_has_digit(t@),
        decreases end - i,
    {
        let c = b[i];
        let ghost before = t@;
        push_char(&mut t, c as char);
        assert(b@.subrange(start as int, i + 1) =~= b@.subrange(start as int, i as int).push(c));
        assert(t@ =~= bytes_to_chars(b@.subrange(start as int, i + 1)));
        if is_digit(c) {
            seen = true;
            assert('0' <= t@[t@.len() - 1] <= '9');
        } else {
            proof {
                if lexeme_has_digit(before) {
                    let k = choose|k: int| 0 <= k < before.len() && '0' <= #[trigger] before[k] <= '9';
                    assert(before[k] == t@[k]);
                }
                if lexeme_has_digit(t@) {
                    let k = choose|k: int| 0 <= k < t@.len() && '0' <= #[trigger] t@[k] <= '9';
                    if k == t@.len() - 1 {
                        assert(false);
                    } else {
                        assert(before[k] == t@[k]);
                    }
                }
            }
        }
        i = i + 1;
    }
    *pos = end;
    if seen {
        Some(t)
    } else {
        None
    }
}

} // verus!

verus! {

fn matches_lit(b: &[u8], q: usize, w: &str) -> (r: bool)
    requires
        q <= b@.len(),
    ensures
        r == matches_at(b@, q as int, w@),
{
    let wc = to_chars(w);
    if wc.len() > b.len() - q {
        return false;
    }
    let mut i: usize = 0;
    while i < wc.len()
        invariant
            q + wc@.len() <= b@.len(),
            b@.len() == b.len(),
            wc@ == w@,
            i <= wc@.len(),
            forall|j: int| 0 <= j < i ==> #[trigger] b@[q + j] as char == w@[j],
        decreases wc.len() - i,
    {
        if (b[q + i] as char) != wc[i] {
            return false;
        }
        i = i + 1;
    }
    true
}

fn parse_value(b: &[u8], pos: &mut usize) -> (r: Option<Value>)
    requires
        *old(pos) <= b@.len(),
        b@.len() < usize::MAX,
    ensures
        (model_opt(r), *final(pos) as int) == value_at(b@, *old(pos) as int),
    decreases b@.len() - *old(pos), 1int,
{
    let ghost p0 = *pos as int;
    skip_ws(b, pos);
    proof {
        lemma_skip_ws_bounds(b@, p0);
    }
    if *pos >= b.len() {
        return None;
    }
    let q = *pos;
    let c = b[q];
    if c == 34 {
        let s = parse_string(b, pos);
        Some(Value::String(s))
    } else if c == 123 {
        parse_object(b, pos)
    } else if c == 91 {
        parse_array(b, pos)
    } else if c == 116 || c == 102 {
        if matches_lit(b, q, "true") {
            proof {
                reveal_strlit("true");
            }
            *pos = q + 4;
            Some(Value::Boolean(true))
        } else if matches_lit(b, q, "false") {
            proof {
                reveal_strlit("false");
            }
            *pos = q + 5;
            Some(Value::Boolean(false))
        } else {
            None
        }
    } else if c == 110 {
        if matches_lit(b, q, "null") {
            proof {
                reveal_strlit("null");
            }
            *pos = q + 4;
            Some(Value::Null)
        } else {
            None
        }
    } else if c == 45 || is_digit(c) {
        match parse_number(b, pos) {
            Some(t) => Some(Value::Number(t)),
            None => None,
        }
    } else {
        None
    }
}

fn parse_object(b: &[u8], pos: &mut usize) -> (r: Option<Value>)
    requires
        *old(pos) < b@.len(),
        b@.len() < usize::MAX,
    ensures
        (model_opt(r), *final(pos) as int) == object_at(b@, *old(pos) as int),
    decreases b@.len() - *old(pos), 0int,
{
    let ghost q = *pos as int;
    *pos = *pos + 1;
    let mut pairs: Vec<(String, Value)> = Vec::new();
    skip_ws(b, pos);
    proof {
        lemma_skip_ws_bounds(b@, q + 1);
    }
    if *pos < b.len() && b[*pos] == 125 {
        *pos = *pos + 1;
        return Some(Value::Object(pairs));
    }
    assert(model_pairs(pairs@) =~= Seq::empty());
    loop
        invariant
            q < *pos <= b@.len(),
            q == *old(pos),
            b@.len() < usize::MAX,
            members_at(b@, *pos as int, model_pairs(pairs@)) == object_at(b@, q),
        decreases b@.len() - *pos,
    {
        let ghost p = *pos as int;
        skip_ws(b, pos);
        proof {
            lemma_skip_ws_bounds(b@, p);
        }
        let ghost k0 = *pos as int;
        let key = parse_string(b, pos);
        proof {
            lemma_string_body_bounds(b@, k0 + 1);
        }
        let ghost k1 = *pos as int;
        skip_ws(b, pos);
        proof {
            lemma_skip_ws_bounds(b@, k1);
        }
        if *pos >= b.len() || b[*pos] != 58 {
            return None;
        }
        let ghost k2 = *pos as int;
        *pos = *pos + 1;
        skip_ws(b, pos);
        proof {
            lemma_value_at_skip(b@, k2 + 1);
            lemma_skip_ws_bounds(b@, k2 + 1);
            lemma_value_pos(b@, k2 + 1);
        }
        let val = match parse_value(b, pos) {
            Some(v) => v,
            None => {
                return None;
            },
        };
        let ghost e = *pos as int;
        let ghost kv = (key@, model(val));
        let ghost before = pairs@;
        pairs.push((key, val));
        proof {
            lemma_model_pairs_push(before, pairs@.last());
            assert(pairs@ =~= before.push(pairs@.last()));
        }
        skip_ws(b, pos);
        proof {
            lemma_skip_ws_bounds(b@, e);
        }
        if *pos >= b.len() {
            return None;
        }
        if b[*pos] == 44 {
            *pos = *pos + 1;
        } else if b[*pos] == 125 {
            *pos = *pos + 1;
            return Some(Value::Object(pairs));
        } else {
            return None;
        }
    }
}

fn parse_array(b: &[u8], pos: &mut usize) -> (r: Option<Value>)
    requires
        *old(pos) < b@.len(),
        b@.len() < usize::MAX,
    ensures
        (model_opt(r), *final(pos) as int) == array_at(b@, *old(pos) as int),
    decreases b@.len() - *old(pos), 0int,
{
    let ghost q = *pos as int;
    *pos = *pos + 1;
    let mut items: Vec<Value> = Vec::new();
    skip_ws(b, pos);
    proof {
        lemma_skip_ws_bounds(b@, q + 1);
    }
    if *pos < b.len() && b[*pos] == 93 {
        *pos = *pos + 1;
        return Some(Value::Array(items));
    }
    assert(model_items(items@) =~= Seq::empty());
    loop
        invariant
            q < *pos <= b@.len(),
            q == *old(pos),
            b@.len() < usize::MAX,
            elements_at(b@, *pos as int, model_items(items@)) == array_at(b@, q),
        decreases b@.len() - *pos,
    {
        let ghost p = *pos as int;
        skip_ws(b, pos);
        proof {
            lemma_skip_ws_bounds(b@, p);
        }
        let ghost k0 = *pos as int;
        proof {
            lemma_value_pos(b@, k0);
        }
        let ghost before = items@;
        match parse_value(b, pos) {
            Some(v) => {
                items.push(v);
                proof {
                    lemma_model_items_push(before, items@.last());
                    assert(items@ =~= before.push(items@.last()));
                }
            },
            None => {},
        }
        let ghost e = *pos as int;
        skip_ws(b, pos);
        proof {
            lemma_skip_ws_bounds(b@, e);
        }
        if *pos >= b.len() {
            return None;
        }
        if b[*pos] == 44 {
            *pos = *pos + 1;
        } else if b[*pos] == 93 {
            *pos = *pos + 1;
            return Some(Value::Array(items));
        } else {
            return None;
        }
    }
}

} // verus!

verus! {

/// What `parse` reads from a text: the value at the start of the text without
/// its surrounding whitespace, taken as UTF-8 bytes. Text after that value is
/// not looked at.
pub open spec fn parse_spec(s: Seq<char>) -> Option<JVal> {
    let t = trim(s);
    if t.len() == 0 {
        None
    } else {
        value_at(encode_utf8(t), 0).0
    }
}

/// Reads a JSON value from the start of `s`.
pub fn parse(s: &str) -> (r: Option<Value>)
    requires
        encode_utf8(s@).len() < usize::MAX,
    ensures
        model_opt(r) == parse_spec(s@),
{
    let chars = to_chars(s);
    let t = trim_chars(chars.as_slice());
    if t.len() == 0 {
        return None;
    }
    let ts = from_chars(t.as_slice());
    let b = ts.as_str().as_bytes();
    proof {
        lemma_encode_len_trim(s@);
    }
    let mut pos: usize = 0;
    parse_value(b, &mut pos)
}

} // verus!

verus! {

pub proof fn lemma_model_pairs_index(s: Seq<(String, Value)>)
    ensures
        model_pairs(s).len() == s.len(),
        forall|i: int| 0 <= i < s.len() ==> #[trigger] model_pairs(s)[i] == (s[i].0@, model(s[i].1)),
    decreases s.len(),
{
    if s.len() > 0 {
        lemma_model_pairs_index(s.drop_last());
    }
}

pub proof fn lemma_model_items_index(s: Seq<Value>)
    ensures
        model_items(s).len() == s.len(),
        forall|i: int| 0 <= i < s.len() ==> #[trigger] model_items(s)[i] == model(s[i]),
    decreases s.len(),
{
    if s.len() > 0 {
        lemma_model_items_index(s.drop_last());
    }
}

/// The value of the first member named `key`, if any.
pub open spec fn lookup(ps: Seq<(Seq<char>, JVal)>, key: Seq<char>) -> Option<JVal>
    decreases ps.len(),
{
    if ps.len() == 0 {
        None
    } else if ps[0].0 == key {
        Some(ps[0].1)
    } else {
        lookup(ps.drop_first(), key)
    }
}

/// Whether some member is named `key`.
pub open spec fn has_key(ps: Seq<(Seq<char>, JVal)>, key: Seq<char>) -> bool {
    exists|i: int| 0 <= i < ps.len() && #[trigger] ps[i].0 == key
}

/// The member `key` of an object; nothing for other values.
pub open spec fn get_spec(v: JVal, key: Seq<char>) -> Option<JVal> {
    match v {
        JVal::Obj(ps) => lookup(ps, key),
        _ => None,
    }
}

/// `set` adds a member to an object that has none of that name, and changes
/// nothing else.
pub open spec fn set_spec(v: JVal, key: Seq<char>, val: JVal) -> JVal {
    match v {
        JVal::Obj(ps) => if has_key(ps, key) {
            v
        } else {
            JVal::Obj(ps.push((key, val)))
        },
        _ => v,
    }
}

/// The members of `ps` not named `key`, in order.
pub open spec fn without_key(ps: Seq<(Seq<char>, JVal)>, key: Seq<char>) -> Seq<(Seq<char>, JVal)>
    decreases ps.len(),
{
    if ps.len() == 0 {
        ps
    } else if ps.last().0 == key {
        without_key(ps.drop_last(), key)
    } else {
        without_key(ps.drop_last(), key).push(ps.last())
    }
}

/// `remove` drops every member named `key` from an object.
pub open spec fn remove_spec(v: JVal, key: Seq<char>) -> JVal {
    match v {
        JVal::Obj(ps) => JVal::Obj(without_key(ps, key)),
        _ => v,
    }
}

pub proof fn lemma_lookup_index(ps: Seq<(Seq<char>, JVal)>, key: Seq<char>, i: int)
    requires
        0 <= i < ps.len(),
        forall|j: int| 0 <= j < i ==> ps[j].0 != key,
    ensures
        lookup(ps, key) == lookup(ps.subrange(i, ps.len() as int), key),
    decreases i,
{
    if i > 0 {
        assert(ps.drop_first().subrange(i - 1, ps.len() - 1) =~= ps.subrange(i, ps.len() as int));
        lemma_lookup_index(ps.drop_first(), key, i - 1);
    } else {
        assert(ps.subrange(0, ps.len() as int) =~= ps);
    }
}

pub proof fn lemma_lookup_none(ps: Seq<(Seq<char>, JVal)>, key: Seq<char>)
    ensures
        lookup(ps, key) is None <==> !has_key(ps, key),
    decreases ps.len(),
{
    if ps.len() > 0 {
        lemma_lookup_none(ps.drop_first(), key);
        if has_key(ps.drop_first(), key) {
            let j = choose|j: int| 0 <= j < ps.drop_first().len() && #[trigger] ps.drop_first()[j].0 == key;
            assert(ps[j + 1].0 == key);
        }
        if has_key(ps, key) && ps[0].0 != key {
            let j = choose|j: int| 0 <= j < ps.len() && #[trigger] ps[j].0 == key;
            assert(ps.drop_first()[j - 1].0 == key);
        }
    }
}

impl Value {
    /// A copy of this value.
    #[verifier::loop_isolation(false)]
    pub fn duplicate(&self) -> (r: Value)
        ensures
            model(r) == model(*self),
        decreases self,
    {
        match self {
            Value::String(s) => Value::String(s.clone()),
            Value::Number(n) => Value::Number(n.clone()),
            Value::Boolean(b) => Value::Boolean(*b),
            Value::Null => Value::Null,
            Value::Object(pairs) => {
                let mut out: Vec<(String, Value)> = Vec::new();
                let mut i: usize = 0;
                while i < pairs.len()
                    invariant
                        i <= pairs@.len(),
                        model_pairs(out@) == model_pairs(pairs@.take(i as int)),
                    decreases pairs.len() - i,
                {
                    let k = pairs[i].0.clone();
                    proof {
                        assert(decreases_to!(*self => pairs@[i as int].1));
                    }
                    let v = pairs[i].1.duplicate();
                    let ghost before = out@;
                    out.push((k, v));
                    proof {
                        lemma_model_pairs_push(before, out@.last());
                        assert(out@ =~= before.push(out@.last()));
                        assert(pairs@.take(i + 1) =~= pairs@.take(i as int).push(pairs@[i as int]));
                        lemma_model_pairs_push(pairs@.take(i as int), pairs@[i as int]);
                    }
                    i = i + 1;
                }
                assert(pairs@.take(pairs@.len() as int) =~= pairs@);
                Value::Object(out)
            },
            Value::Array(items) => {
                let mut out: Vec<Value> = Vec::new();
                let mut i: usize = 0;
                while i < items.len()
                    invariant
                        i <= items@.len(),
                        model_items(out@) == model_items(items@.take(i as int)),
                    decreases items.len() - i,
                {
                    proof {
                        assert(decreases_to!(*self => items@[i as int]));
                    }
                    let v = items[i].duplicate();
                    let ghost before = out@;
                    out.push(v);
                    proof {
                        lemma_model_items_push(before, out@.last());
                        assert(out@ =~= before.push(out@.last()));
                        assert(items@.take(i + 1) =~= items@.take(i as int).push(items@[i as int]));
                        lemma_model_items_push(items@.take(i as int), items@[i as int]);
                    }
                    i = i + 1;
                }
                assert(items@.take(items@.len() as int) =~= items@);
                Value::Array(out)
            },
        }
    }

    /// The member `key` of an object: the first one of that name.
    #[verifier::loop_isolation(false)]
    pub fn get(&self, key: &str) -> (r: Option<&Value>)
        ensures
            match r {
                Some(v) => get_spec(model(*self), key@) == Some(model(*v)),
                None => get_spec(model(*self), key@) is None,
            },
    {
        match self {
            Value::Object(pairs) => {
                proof {
                    lemma_model_pairs_index(pairs@);
                }
                let ghost ps = model_pairs(pairs@);
                let mut i: usize = 0;
                while i < pairs.len()
                    invariant
                        i <= pairs@.len() == ps.len(),
                        ps == model_pairs(pairs@),
                        forall|j: int| 0 <= j < ps.len() ==> #[trigger] ps[j] == (pairs@[j].0@, model(pairs@[j].1)),
                        forall|j: int| 0 <= j < i ==> ps[j].0 != key@,
                    decreases pairs.len() - i,
                {
                    if str_eq(pairs[i].0.as_str(), key) {
                        proof {
                            lemma_lookup_index(ps, key@, i as int);
                            assert(ps.subrange(i as int, ps.len() as int)[0] == ps[i as int]);
                        }
                        return Some(&pairs[i].1);
                    }
                    i = i + 1;
                }
                proof {
                    lemma_lookup_none(ps, key@);
                }
                None
            },
            _ => None,
        }
    }

    /// The member `key` of an object when it is a string.
    pub fn get_str(&self, key: &str) -> (r: Option<&str>)
        ensures
            match r {
                Some(s) => get_spec(model(*self), key@) == Some(JVal::Str(s@)),
                None => !(get_spec(model(*self), key@) matches Some(JVal::Str(_))),
            },
    {
        match self.get(key) {
            Some(Value::String(s)) => Some(s.as_str()),
            _ => None,
        }
    }

    /// Adds the member `key` with a copy of `value` to an object that has no
    /// member of that name. Other values, and objects that have one, stay as
    /// they are.
    #[verifier::loop_isolation(false)]
    pub fn set(&mut self, key: &str, value: &Value)
        ensures
            model(*final(self)) == set_spec(model(*old(self)), key@, model(*value)),
    {
        match self {
            Value::Object(pairs) => {
                proof {
                    lemma_model_pairs_index(pairs@);
                }
                let ghost ps = model_pairs(pairs@);
                let mut i: usize = 0;
                while i < pairs.len()
                    invariant
                        i <= pairs@.len() == ps.len(),
                        ps == model_pairs(pairs@),
                        forall|j: int| 0 <= j < i ==> ps[j].0 != key@,
                    decreases pairs.len() - i,
                {
                    if str_eq(pairs[i].0.as_str(), key) {
                        assert(ps[i as int].0 == key@);
                        return;
                    }
                    i = i + 1;
                }
                let k = key.to_owned();
                let v = value.duplicate();
                let ghost before = pairs@;
                pairs.push((k, v));
                proof {
                    lemma_model_pairs_push(before, pairs@.last());
                    assert(pairs@ =~= before.push(pairs@.last()));
                }
            },
            _ => {},
        }
    }

    /// Drops every member named `key` from an object; other values stay as
    /// they are.
    #[verifier::loop_isolation(false)]
    pub fn remove(&mut self, key: &str)
        ensures
            model(*final(self)) == remove_spec(model(*old(self)), key@),
    {
        match self {
            Value::Object(pairs) => {
                proof {
                    lemma_model_pairs_index(pairs@);
                }
                let ghost ps = model_pairs(pairs@);
                let mut out: Vec<(String, Value)> = Vec::new();
                let mut i: usize = 0;
                while i < pairs.len()
                    invariant
                        i <= pairs@.len() == ps.len(),
                        ps == model_pairs(pairs@),
                        model_pairs(out@) == without_key(ps.take(i as int), key@),
                    decreases pairs.len() - i,
                {
                    assert(ps.take(i + 1).drop_last() =~= ps.take(i as int));
                    if !str_eq(pairs[i].0.as_str(), key) {
                        let k = pairs[i].0.clone();
                        let v = pairs[i].1.duplicate();
                        let ghost before = out@;
                        out.push((k, v));
                        proof {
                            lemma_model_pairs_push(before, out@.last());
                            assert(out@ =~= before.push(out@.last()));
                        }
                    }
                    i = i + 1;
                }
                assert(ps.take(ps.len() as int) =~= ps);
                *pairs = out;
            },
            _ => {},
        }
    }
}

} // verus!

verus! {

pub open spec fn hex_digit(d: nat) -> char {
    if d < 10 {
        (48 + d) as char
    } else {
        (87 + d) as char
    }
}

/// Lower-case hexadecimal digits of `n`, without leading zeros.
pub open spec fn hex_of(n: nat) -> Seq<char>
    decreases n,
{
    if n < 16 {
        seq![hex_digit(n)]
    } else {
        hex_of(n / 16).push(hex_digit(n % 16))
    }
}

/// `char::escape_default`.
pub open spec fn escape_char(c: char) -> Seq<char> {
    if c == '\t' {
        seq!['\\', 't']
    } else if c == '\r' {
        seq!['\\', 'r']
    } else if c == '\n' {
        seq!['\\', 'n']
    } else if c == '\\' || c == '\'' || c == '"' {
        seq!['\\', c]
    } else if ' ' <= c <= '~' {
        seq![c]
    } else {
        seq!['\\', 'u', '{'] + hex_of(c as nat) + seq!['}']
    }
}

/// `str::escape_default`.
pub open spec fn escape_default(s: Seq<char>) -> Seq<char>
    decreases s.len(),
{
    if s.len() == 0 {
        Seq::empty()
    } else {
        escape_default(s.drop_last()) + escape_char(s.last())
    }
}

pub open spec fn strip_leading_zeros(s: Seq<char>) -> Seq<char>
    decreases s.len(),
{
    if s.len() > 0 && s[0] == '0' {
        strip_leading_zeros(s.drop_first())
    } else {
        s
    }
}

pub open spec fn strip_trailing_zeros(s: Seq<char>) -> Seq<char>
    decreases s.len(),
{
    if s.len() > 0 && s.last() == '0' {
        strip_trailing_zeros(s.drop_last())
    } else {
        s
    }
}

/// The position of the first dot in `s`, or its length.
pub open spec fn dot_index(s: Seq<char>) -> int
    decreases s.len(),
{
    if s.len() == 0 {
        0
    } else if s[0] == '.' {
        0
    } else {
        1 + dot_index(s.drop_first())
    }
}

/// The text that the writer gives a number read as `t`: no leading zeros in
/// the whole part ("0" when there is none), no trailing zeros in the fraction,
/// no dot when the fraction is zero, and a minus sign only for a value other
/// than zero.
pub open spec fn canonical_number(t: Seq<char>) -> Seq<char> {
    let neg = t.len() > 0 && t[0] == '-';
    let body = if neg { t.drop_first() } else { t };
    let d = dot_index(body);
    let whole = strip_leading_zeros(body.take(d));
    let frac = strip_trailing_zeros(if d < body.len() { body.skip(d + 1) } else { Seq::empty() });
    let w = if whole.len() == 0 { seq!['0'] } else { whole };
    let sign = if neg && (whole.len() > 0 || frac.len() > 0) { seq!['-'] } else { Seq::empty() };
    sign + w + if frac.len() > 0 { seq!['.'] + frac } else { Seq::empty() }
}

/// The JSON text that `to_json` writes for a value.
pub open spec fn json_text(v: JVal) -> Seq<char>
    decreases v,
{
    match v {
        JVal::Str(s) => seq!['"'] + escape_default(s) + seq!['"'],
        JVal::Num(t) => canonical_number(t),
        JVal::Bool(b) => if b {
            seq!['t', 'r', 'u', 'e']
        } else {
            seq!['f', 'a', 'l', 's', 'e']
        },
        JVal::Null => seq!['n', 'u', 'l', 'l'],
        JVal::Obj(ps) => seq!['{'] + json_members(ps) + seq!['}'],
        JVal::Arr(xs) => seq!['['] + json_elements(xs) + seq![']'],
    }
}

/// Members joined by commas; a key is written between quotes as it is.
pub open spec fn json_members(ps: Seq<(Seq<char>, JVal)>) -> Seq<char>
    decreases ps,
{
    if ps.len() == 0 {
        Seq::empty()
    } else {
        let m = seq!['"'] + ps.last().0 + seq!['"', ':'] + json_text(ps.last().1);
        if ps.len() == 1 {
            m
        } else {
            json_members(ps.drop_last()) + seq![','] + m
        }
    }
}

pub open spec fn json_elements(xs: Seq<JVal>) -> Seq<char>
    decreases xs,
{
    if xs.len() == 0 {
        Seq::empty()
    } else if xs.len() == 1 {
        json_text(xs.last())
    } else {
        json_elements(xs.drop_last()) + seq![','] + json_text(xs.last())
    }
}

} // verus!

verus! {

fn hex_digit_char(d: u32) -> (r: char)
    requires
        d < 16,
    ensures
        r == hex_digit(d as nat),
{
    if d < 10 {
        ((48 + d) as u8) as char
    } else {
        ((87 + d) as u8) as char
    }
}

fn push_hex(out: &mut String, n: u32)
    ensures
        final(out)@ == old(out)@ + hex_of(n as nat),
    decreases n,
{
    if n < 16 {
        push_char(out, hex_digit_char(n));
    } else {
        push_hex(out, n / 16);
        push_char(out, hex_digit_char(n % 16));
        assert(hex_of(n as nat) == hex_of((n / 16) as nat).push(hex_digit((n % 16) as nat)));
    }
}

fn push_escaped_char(out: &mut String, c: char)
    ensures
        final(out)@ == old(out)@ + escape_char(c),
{
    let ghost o = out@;
    if c == '\t' {
        push_char(out, '\\');
        push_char(out, 't');
    } else if c == '\r' {
        push_char(out, '\\');
        push_char(out, 'r');
    } else if c == '\n' {
        push_char(out, '\\');
        push_char(out, 'n');
    } else if c == '\\' || c == '\'' || c == '"' {
        push_char(out, '\\');
        push_char(out, c);
    } else if ' ' <= c && c <= '~' {
        push_char(out, c);
    } else {
        push_char(out, '\\');
        push_char(out, 'u');
        push_char(out, '{');
        let ghost mid = out@;
        push_hex(out, c as u32);
        push_char(out, '}');
        assert(out@ =~= o + (seq!['\\', 'u', '{'] + hex_of(c as nat) + seq!['}']));
    }
    assert(out@ =~= o + escape_char(c));
}

/// Appends `str::escape_default` of `s`.
fn push_escaped(out: &mut String, s: &str)
    ensures
        final(out)@ == old(out)@ + escape_default(s@),
{
    let v = to_chars(s);
    let mut i: usize = 0;
    while i < v.len()
        invariant
            v@ == s@,
            i <= v@.len(),
            out@ == old(out)@ + escape_default(v@.take(i as int)),
        decreases v.len() - i,
    {
        let ghost before = out@;
        push_escaped_char(out, v[i]);
        assert(v@.take(i + 1).drop_last() =~= v@.take(i as int));
        assert(out@ =~= old(out)@ + escape_default(v@.take(i + 1)));
        i = i + 1;
    }
    assert(v@.take(v@.len() as int) =~= v@);
}

proof fn lemma_dot_index(s: Seq<char>, i: int)
    requires
        0 <= i <= s.len(),
        forall|j: int| 0 <= j < i ==> s[j] != '.',
        i == s.len() || s[i] == '.',
    ensures
        dot_index(s) == i,
    decreases i,
{
    if i > 0 {
        lemma_dot_index(s.drop_first(), i - 1);
    }
}

/// Appends `v[a..b]` to `out`.
pub(crate) fn push_range(out: &mut String, v: &Vec<char>, a: usize, b: usize)
    requires
        a <= b <= v@.len(),
    ensures
        final(out)@ == old(out)@ + v@.subrange(a as int, b as int),
{
    let mut k = a;
    while k < b
        invariant
            a <= k <= b <= v@.len(),
            out@ == old(out)@ + v@.subrange(a as int, k as int),
        decreases b - k,
    {
        push_char(out, v[k]);
        assert(v@.subrange(a as int, k + 1) =~= v@.subrange(a as int, k as int).push(v@[k as int]));
        k = k + 1;
    }
}

/// The position of the first dot in `v[start..]`, or the length of `v`.
pub(crate) fn find_dot(v: &Vec<char>, start: usize) -> (d: usize)
    requires
        start <= v@.len(),
    ensures
        start <= d <= v@.len(),
        dot_index(v@.subrange(start as int, v@.len() as int)) == d - start,
{
    let n = v.len();
    let mut d = start;
    while d < n && v[d] != '.'
        invariant
            start <= d <= n == v@.len(),
            forall|j: int| start <= j < d ==> v@[j] != '.',
        decreases n - d,
    {
        d = d + 1;
    }
    proof {
        lemma_dot_index(v@.subrange(start as int, n as int), d - start);
    }
    d
}

/// The start of `v[a..b]` without its leading zeros.
pub(crate) fn skip_zeros(v: &Vec<char>, a: usize, b: usize) -> (w: usize)
    requires
        a <= b <= v@.len(),
    ensures
        a <= w <= b,
        strip_leading_zeros(v@.subrange(a as int, b as int)) == v@.subrange(w as int, b as int),
{
    let mut w = a;
    while w < b && v[w] == '0'
        invariant
            a <= w <= b <= v@.len(),
            strip_leading_zeros(v@.subrange(w as int, b as int)) == strip_leading_zeros(v@.subrange(a as int, b as int)),
        decreases b - w,
    {
        assert(v@.subrange(w as int, b as int).drop_first() =~= v@.subrange(w + 1, b as int));
        w = w + 1;
    }
    w
}

/// The end of `v[a..b]` without its trailing zeros.
pub(crate) fn drop_zeros(v: &Vec<char>, a: usize, b: usize) -> (f: usize)
    requires
        a <= b <= v@.len(),
    ensures
        a <= f <= b,
        strip_trailing_zeros(v@.subrange(a as int, b as int)) == v@.subrange(a as int, f as int),
{
    let mut f = b;
    while f > a && v[f - 1] == '0'
        invariant
            a <= f <= b <= v@.len(),
            strip_trailing_zeros(v@.subrange(a as int, f as int)) == strip_trailing_zeros(v@.subrange(a as int, b as int)),
        decreases f,
    {
        assert(v@.subrange(a as int, f as int).drop_last() =~= v@.subrange(a as int, f - 1));
        f = f - 1;
    }
    f
}

/// Appends the text that the writer gives the number read as `t`.
pub(crate) fn push_number(out: &mut String, t: &str)
    ensures
        final(out)@ == old(out)@ + canonical_number(t@),
{
    let v = to_chars(t);
    let n = v.len();
    let neg = n > 0 && v[0] == '-';
    let start: usize = if neg { 1 } else { 0 };
    let ghost body = if neg { v@.drop_first() } else { v@ };
    assert(body =~= v@.subrange(start as int, n as int));
    let d = find_dot(&v, start);
    let w = skip_zeros(&v, start, d);
    let fs: usize = if d < n { d + 1 } else { n };
    let f = drop_zeros(&v, fs, n);
    proof {
        let frac0 = if d - start < body.len() { body.skip(d - start + 1) } else { Seq::<char>::empty() };
        assert(frac0 =~= v@.subrange(fs as int, n as int));
        assert(body.take(d - start) =~= v@.subrange(start as int, d as int));
    }
    let ghost o = out@;
    if neg && (w < d || f > fs) {
        push_char(out, '-');
    }
    if w == d {
        push_char(out, '0');
    } else {
        push_range(out, &v, w, d);
    }
    if f > fs {
        push_char(out, '.');
        push_range(out, &v, fs, f);
    }
    assert(out@ =~= o + canonical_number(v@));
}

} // verus!

verus! {

impl Value {
    /// Appends the JSON text of this value.
    #[verifier::loop_isolation(false)]
    fn write_json(&self, out: &mut String)
        ensures
            final(out)@ == old(out)@ + json_text(model(*self)),
        decreases self,
    {
        let ghost o = out@;
        match self {
            Value::String(s) => {
                push_char(out, '"');
                push_escaped(out, s.as_str());
                push_char(out, '"');
                assert(out@ =~= o + json_text(model(*self)));
            },
            Value::Number(t) => {
                push_number(out, t.as_str());
            },
            Value::Boolean(b) => {
                if *b {
                    push_char(out, 't');
                    push_char(out, 'r');
                    push_char(out, 'u');
                    push_char(out, 'e');
                } else {
                    push_char(out, 'f');
                    push_char(out, 'a');
                    push_char(out, 'l');
                    push_char(out, 's');
                    push_char(out, 'e');
                }
                assert(out@ =~= o + json_text(model(*self)));
            },
            Value::Null => {
                push_char(out, 'n');
                push_char(out, 'u');
                push_char(out, 'l');
                push_char(out, 'l');
                assert(out@ =~= o + json_text(model(*self)));
            },
            Value::Object(pairs) => {
                proof {
                    lemma_model_pairs_index(pairs@);
                }
                let ghost ps = model_pairs(pairs@);
                push_char(out, '{');
                let mut i: usize = 0;
                while i < pairs.len()
                    invariant
                        i <= pairs@.len() == ps.len(),
                        ps == model_pairs(pairs@),
                        out@ == o + seq!['{'] + json_members(ps.take(i as int)),
                    decreases pairs.len() - i,
                {
                    let ghost before = out@;
                    if i > 0 {
                        push_char(out, ',');
                    }
                    push_char(out, '"');
                    push_str(out, pairs[i].0.as_str());
                    push_char(out, '"');
                    push_char(out, ':');
                    proof {
                        assert(decreases_to!(*self => pairs@[i as int].1));
                    }
                    pairs[i].1.write_json(out);
                    proof {
                        let m = seq!['"'] + ps[i as int].0 + seq!['"', ':'] + json_text(ps[i as int].1);
                        assert(ps.take(i + 1).drop_last() =~= ps.take(i as int));
                        assert(ps.take(i + 1).last() == ps[i as int]);
                        if i == 0 {
                            assert(out@ =~= before + m);
                        } else {
                            assert(out@ =~= before + seq![','] + m);
                        }
                        assert(out@ =~= o + seq!['{'] + json_members(ps.take(i + 1)));
                    }
                    i = i + 1;
                }
                push_char(out, '}');
                assert(ps.take(ps.len() as int) =~= ps);
                assert(out@ =~= o + json_text(model(*self)));
            },
            Value::Array(items) => {
                proof {
                    lemma_model_items_index(items@);
                }
                let ghost xs = model_items(items@);
                push_char(out, '[');
                let mut i: usize = 0;
                while i < items.len()
                    invariant
                        i <= items@.len() == xs.len(),
                        xs == model_items(items@),
                        out@ == o + seq!['['] + json_elements(xs.take(i as int)),
                    decreases items.len() - i,
                {
                    let ghost before = out@;
                    if i > 0 {
                        push_char(out, ',');
                    }
                    proof {
                        assert(decreases_to!(*self => items@[i as int]));
                    }
                    items[i].write_json(out);
                    proof {
                        assert(xs.take(i + 1).drop_last() =~= xs.take(i as int));
                        assert(xs.take(i + 1).last() == xs[i as int]);
                        if i == 0 {
                            assert(out@ =~= before + json_text(xs[i as int]));
                        } else {
                            assert(out@ =~= before + seq![','] + json_text(xs[i as int]));
                        }
                        assert(out@ =~= o + seq!['['] + json_elements(xs.take(i + 1)));
                    }
                    i = i + 1;
                }
                push_char(out, ']');
                assert(xs.take(xs.len() as int) =~= xs);
                assert(out@ =~= o + json_text(model(*self)));
            },
        }
    }

    /// The JSON text of this value. Strings are escaped as by
    /// `str::escape_default`; member names are written as they are.
    pub fn to_json(&self) -> (r: String)
        ensures
            r@ == json_text(model(*self)),
    {
        let mut out = String::new();
        self.write_json(&mut out);
        assert(out@ =~= Seq::<char>::empty() + json_text(model(*self)));
        out
    }
}

} // verus!

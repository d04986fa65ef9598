//! The installer's console rendering and release resolution.

use vstd::prelude::*;
use vstd::utf8::encode_utf8;
use crate::text::{push_char, push_str, str_eq, to_chars};

use crate::utils::opt_view;
verus! {

pub const C_RESET: &'static str = "\x1b[0m";
pub const C_DIM: &'static str = "\x1b[2m";
pub const C_GREEN: &'static str = "\x1b[32m";
pub const C_RED: &'static str = "\x1b[31m";
pub const C_BLUE: &'static str = "\x1b[34m";
pub const C_CYAN: &'static str = "\x1b[36m";

pub const CHECK: &'static str = "✓";
pub const CROSS: &'static str = "✗";
pub const DOT: &'static str = "●";

/// `s` between the escape code `code` and the reset code.
fn color(s: &str, code: &str) -> (r: String)
    ensures
        r@ == code@ + s@ + C_RESET@,
{
    let mut r = String::new();
    push_str(&mut r, code);
    push_str(&mut r, s);
    push_str(&mut r, C_RESET);
    assert(r@ =~= code@ + s@ + C_RESET@);
    r
}

pub fn green(s: &str) -> (r: String)
    ensures
        r@ == C_GREEN@ + s@ + C_RESET@,
{
    color(s, C_GREEN)
}

pub fn red(s: &str) -> (r: String)
    ensures
        r@ == C_RED@ + s@ + C_RESET@,
{
    color(s, C_RED)
}

pub fn blue(s: &str) -> (r: String)
    ensures
        r@ == C_BLUE@ + s@ + C_RESET@,
{
    color(s, C_BLUE)
}

pub fn cyan(s: &str) -> (r: String)
    ensures
        r@ == C_CYAN@ + s@ + C_RESET@,
{
    color(s, C_CYAN)
}

pub fn dim(s: &str) -> (r: String)
    ensures
        r@ == C_DIM@ + s@ + C_RESET@,
{
    color(s, C_DIM)
}

/// `n` copies of `c`.
pub open spec fn repeat(c: char, n: nat) -> Seq<char> {
    Seq::new(n, |i: int| c)
}

/// `a - b`, or zero when `b` is larger (`usize::saturating_sub`).
pub open spec fn sat_sub(a: int, b: int) -> nat {
    if a >= b {
        (a - b) as nat
    } else {
        0
    }
}

pub fn push_repeat(out: &mut String, c: char, n: usize)
    ensures
        final(out)@ == old(out)@ + repeat(c, n as nat),
{
    let mut i: usize = 0;
    while i < n
        invariant
            i <= n,
            out@ == old(out)@ + repeat(c, i as nat),
        decreases n - i,
    {
        push_char(out, c);
        assert(repeat(c, (i + 1) as nat) =~= repeat(c, i as nat).push(c));
        i = i + 1;
    }
}

/// A line of a box of `width` columns with `text` centred; the padding is
/// worked out from the text's length in bytes.
pub open spec fn box_line_spec(text: Seq<char>, width: nat) -> Seq<char> {
    let inner = sat_sub(width as int, 4);
    let pad = sat_sub(inner as int, encode_utf8(text).len() as int);
    let left = pad / 2;
    let right = (pad - left) as nat;
    seq!['║'] + repeat(' ', left) + text + repeat(' ', right) + seq!['║']
}

pub fn box_line(text: &str, width: usize) -> (r: String)
    ensures
        r@ == box_line_spec(text@, width as nat),
{
    let inner = width.saturating_sub(4);
    let tl = text.as_bytes().len();
    let pad = inner.saturating_sub(tl);
    let left = pad / 2;
    let right = pad - left;
    assert(inner == sat_sub(width as int, 4));
    assert(pad == sat_sub(inner as int, encode_utf8(text@).len() as int));
    let mut r = String::new();
    push_char(&mut r, '║');
    push_repeat(&mut r, ' ', left);
    push_str(&mut r, text);
    push_repeat(&mut r, ' ', right);
    push_char(&mut r, '║');
    assert(r@ =~= box_line_spec(text@, width as nat));
    r
}

pub fn box_top(width: usize) -> (r: String)
    ensures
        r@ == seq!['╔'] + repeat('═', sat_sub(width as int, 2)) + seq!['╗'],
{
    let inner = width.saturating_sub(2);
    let mut r = String::new();
    push_char(&mut r, '╔');
    push_repeat(&mut r, '═', inner);
    push_char(&mut r, '╗');
    r
}

pub fn box_bottom(width: usize) -> (r: String)
    ensures
        r@ == seq!['╚'] + repeat('═', sat_sub(width as int, 2)) + seq!['╝'],
{
    let inner = width.saturating_sub(2);
    let mut r = String::new();
    push_char(&mut r, '╚');
    push_repeat(&mut r, '═', inner);
    push_char(&mut r, '╝');
    r
}

pub fn divider(width: usize) -> (r: String)
    ensures
        r@ == repeat('─', width as nat),
{
    let mut r = String::new();
    push_repeat(&mut r, '─', width);
    assert(r@ =~= repeat('─', width as nat));
    r
}

/// The argument after the first `flag` that has one.
pub open spec fn flag_value_from(args: Seq<String>, flag: Seq<char>, i: int) -> Option<Seq<char>>
    decreases args.len() - i,
{
    if i < 0 || i + 1 >= args.len() {
        None
    } else if args[i]@ == flag {
        Some(args[i + 1]@)
    } else {
        flag_value_from(args, flag, i + 1)
    }
}

/// The value given after `flag`: the argument that follows the first
/// occurrence of `flag` that is not the last argument.
pub fn parse_arg(args: &[String], flag: &str) -> (r: Option<String>)
    ensures
        opt_view(r) == flag_value_from(args@, flag@, 0),
{
    let mut i: usize = 0;
    while i < args.len()
        invariant
            i <= args@.len(),
            flag_value_from(args@, flag@, i as int) == flag_value_from(args@, flag@, 0),
        decreases args.len() - i,
    {
        if str_eq(args[i].as_str(), flag) && i + 1 < args.len() {
            return Some(args[i + 1].clone());
        }
        i = i + 1;
    }
    None
}

} // verus!

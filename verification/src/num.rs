//! Decimal numbers: reading them as `str::parse` does for unsigned
//! integers, and writing them as `Display` does.

use vstd::prelude::*;
use crate::text::{push_char, to_chars};
use vstd::arithmetic::power::{pow, lemma_pow0, lemma_pow1, lemma_pow_adds, lemma_pow_positive, lemma_pow_distributes, lemma_pow_increases};

verus! {

pub open spec fn is_digit_char(c: char) -> bool {
    '0' <= c <= '9'
}

pub open spec fn digit_val(c: char) -> nat {
    (c as nat - '0' as nat) as nat
}

/// The value of a string of decimal digits.
pub open spec fn digits_value(s: Seq<char>) -> nat
    decreases s.len(),
{
    if s.len() == 0 {
        0
    } else {
        digits_value(s.drop_last()) * 10 + digit_val(s.last())
    }
}

pub open spec fn all_digit_chars(d: Seq<char>) -> bool {
    forall|i: int| 0 <= i < d.len() ==> is_digit_char(#[trigger] d[i])
}

/// `str::parse` for an unsigned integer type whose largest value is `max`:
/// an optional `+` and at least one digit, and nothing else; a value above
/// `max` is refused.
pub open spec fn parse_unsigned(s: Seq<char>, max: nat) -> Option<nat> {
    let d = if s.len() > 0 && s[0] == '+' { s.drop_first() } else { s };
    if d.len() == 0 || !all_digit_chars(d) {
        None
    } else if digits_value(d) > max {
        None
    } else {
        Some(digits_value(d))
    }
}

/// Reads an unsigned decimal number no larger than `max`.
#[verifier::loop_isolation(false)]
pub fn parse_unsigned_exec(s: &str, max: u64) -> (r: Option<u64>)
    ensures
        match r {
            Some(v) => parse_unsigned(s@, max as nat) == Some(v as nat),
            None => parse_unsigned(s@, max as nat) is None,
        },
{
    let v = to_chars(s);
    let start: usize = if v.len() > 0 && v[0] == '+' { 1 } else { 0 };
    let ghost d = if v@.len() > 0 && v@[0] == '+' { v@.drop_first() } else { v@ };
    assert(d =~= v@.subrange(start as int, v@.len() as int));
    if start == v.len() {
        return None;
    }
    let mut acc: u64 = 0;
    let mut over = false;
    let mut i = start;
    while i < v.len()
        invariant
            start <= i <= v@.len(),
            d == v@.subrange(start as int, v@.len() as int),
            forall|j: int| start <= j < i ==> is_digit_char(#[trigger] v@[j]),
            !over ==> acc as nat == digits_value(v@.subrange(start as int, i as int)) && acc <= max,
            over ==> digits_value(v@.subrange(start as int, i as int)) > max,
        decreases v.len() - i,
    {
        let c = v[i];
        if !('0' <= c && c <= '9') {
            proof {
                assert(d[i - start] == c);
                assert(!is_digit_char(d[i - start]));
                assert(d.len() > 0);
                assert(!all_digit_chars(d));
                assert(s@ == v@);
                assert(d == (if s@.len() > 0 && s@[0] == '+' { s@.drop_first() } else { s@ }));
                assert(parse_unsigned(s@, max as nat) is None);
            }
            return None;
        }
        let dv = (c as u32 - '0' as u32) as u64;
        assert(v@.subrange(start as int, i + 1).drop_last() =~= v@.subrange(start as int, i as int));
        if !over {
            let next: u128 = (acc as u128) * 10 + (dv as u128);
            if next > max as u128 {
                over = true;
            } else {
                acc = next as u64;
            }
        }
        i = i + 1;
    }
    assert(v@.subrange(start as int, v@.len() as int) == d);
    assert forall|j: int| 0 <= j < d.len() implies is_digit_char(#[trigger] d[j]) by {
        assert(d[j] == v@[start + j]);
    }
    if over {
        None
    } else {
        Some(acc)
    }
}

/// The decimal digits of `n`, as `Display` writes an unsigned integer.
pub open spec fn decimal(n: nat) -> Seq<char>
    decreases n,
{
    if n < 10 {
        seq![(n + 48) as char]
    } else {
        decimal(n / 10).push(((n % 10) + 48) as char)
    }
}

pub fn push_decimal(out: &mut String, n: u64)
    ensures
        final(out)@ == old(out)@ + decimal(n as nat),
    decreases n,
{
    if n < 10 {
        push_char(out, ((n + 48) as u8) as char);
    } else {
        push_decimal(out, n / 10);
        push_char(out, (((n % 10) + 48) as u8) as char);
    }
}

pub fn decimal_string(n: u64) -> (r: String)
    ensures
        r@ == decimal(n as nat),
{
    let mut r = String::new();
    push_decimal(&mut r, n);
    assert(r@ =~= decimal(n as nat));
    r
}

} // verus!

verus! {

/// The number of leading decimal digits of `t`.
pub open spec fn leading_digits(t: Seq<char>) -> int
    decreases t.len(),
{
    if t.len() > 0 && is_digit_char(t[0]) {
        1 + leading_digits(t.drop_first())
    } else {
        0
    }
}

/// The largest `e` with `2^e <= w` (0 for 0 and 1).
pub open spec fn log2_floor(w: nat) -> nat
    decreases w,
{
    if w < 2 {
        0
    } else {
        1 + log2_floor(w / 2)
    }
}

/// For a whole number `w` below `2^32`, the `k` such that `2^-k` is half the
/// gap between `w + 1` and the `f64` just below it.
pub open spec fn half_gap_exp(w: nat) -> nat {
    if w == 0 {
        54
    } else {
        (53 - log2_floor(w)) as nat
    }
}

/// Whether `w` plus the decimal fraction with digits `fr`, rounded to the
/// nearest `f64` (ties to even), becomes `w + 1`: its distance to `w + 1` is
/// at most `2^-k`.
pub open spec fn rounds_up(w: nat, fr: Seq<char>) -> bool {
    (pow(10, fr.len()) - digits_value(fr)) * pow(2, half_gap_exp(w)) <= pow(10, fr.len())
}

/// The digits after the dot of a number's text.
pub open spec fn fraction_digits(t: Seq<char>) -> Seq<char> {
    let ld = leading_digits(t);
    if ld < t.len() && t[ld] == '.' {
        let r = t.subrange(ld + 1, t.len() as int);
        r.take(leading_digits(r))
    } else {
        Seq::empty()
    }
}

/// A JSON number's text taken as `u32` the way `n as u32` takes the `f64`
/// that `str::parse` reads from it: zero for a negative number; else its
/// whole part, one more where its fraction rounds up to the next whole
/// number, and `u32::MAX` for a larger one.
pub open spec fn lexeme_u32(t: Seq<char>) -> nat {
    if t.len() > 0 && t[0] == '-' {
        0
    } else {
        let w = digits_value(t.take(leading_digits(t)));
        if w >= 4294967295 {
            4294967295
        } else if rounds_up(w, fraction_digits(t)) {
            w + 1
        } else {
            w
        }
    }
}

/// The count that a number's text gives, or 0 when there is no number.
pub open spec fn count_or_zero(o: Option<Seq<char>>) -> nat {
    match o {
        Some(t) => lexeme_u32(t),
        None => 0,
    }
}

pub proof fn lemma_leading_digits(t: Seq<char>, i: int)
    requires
        0 <= i <= t.len(),
        forall|j: int| 0 <= j < i ==> is_digit_char(#[trigger] t[j]),
        i == t.len() || !is_digit_char(t[i]),
    ensures
        leading_digits(t) == i,
    decreases i,
{
    if i > 0 {
        lemma_leading_digits(t.drop_first(), i - 1);
    }
}

/// `s` cut or filled with `0`s to `k` digits.
pub open spec fn padded(s: Seq<char>, k: nat) -> Seq<char> {
    Seq::new(k, |j: int| if j < s.len() { s[j] } else { '0' })
}

proof fn lemma_pow_step(b: int, j: nat)
    requires
        b > 0,
    ensures
        pow(b, j + 1) == b * pow(b, j),
        pow(b, j) > 0,
{
    lemma_pow_adds(b, j, 1);
    lemma_pow1(b);
    lemma_pow_positive(b, j);
}

proof fn lemma_digits_append(a: Seq<char>, b: Seq<char>)
    ensures
        digits_value(a + b) == digits_value(a) * pow(10, b.len()) + digits_value(b),
    decreases b.len(),
{
    if b.len() == 0 {
        assert(a + b =~= a);
        lemma_pow0(10);
    } else {
        let b1 = b.drop_last();
        lemma_digits_append(a, b1);
        assert((a + b).drop_last() =~= a + b1);
        assert((a + b).last() == b.last());
        lemma_pow_step(10, b1.len());
        let x = digits_value(a);
        let p = pow(10, b1.len());
        assert((x * p + digits_value(b1)) * 10 == x * (10 * p) + digits_value(b1) * 10) by (nonlinear_arith);
    }
}

proof fn lemma_digits_bound(s: Seq<char>)
    requires
        all_digit_chars(s),
    ensures
        digits_value(s) < pow(10, s.len()),
    decreases s.len(),
{
    if s.len() == 0 {
        lemma_pow0(10);
    } else {
        let s1 = s.drop_last();
        assert(all_digit_chars(s1)) by {
            assert forall|i: int| 0 <= i < s1.len() implies is_digit_char(#[trigger] s1[i]) by {
                assert(s1[i] == s[i]);
            }
        }
        lemma_digits_bound(s1);
        lemma_pow_step(10, s1.len());
        assert(is_digit_char(s[s.len() - 1]));
    }
}

proof fn lemma_zero_digits(m: nat)
    ensures
        digits_value(Seq::new(m, |j: int| '0')) == 0,
    decreases m,
{
    if m > 0 {
        lemma_zero_digits((m - 1) as nat);
        assert(Seq::new(m, |j: int| '0').drop_last() =~= Seq::new((m - 1) as nat, |j: int| '0'));
    }
}

/// The first `k` digits of `s` give its value as a fraction to within one
/// unit of the `k`-th place.
proof fn lemma_truncate(s: Seq<char>, k: nat)
    requires
        all_digit_chars(s),
    ensures
        digits_value(padded(s, k)) * pow(10, s.len()) <= digits_value(s) * pow(10, k),
        digits_value(s) * pow(10, k) < (digits_value(padded(s, k)) + 1) * pow(10, s.len()),
{
    let n = s.len();
    let p = padded(s, k);
    lemma_pow_positive(10, n);
    lemma_pow_positive(10, k);
    if n <= k {
        let z = Seq::new((k - n) as nat, |j: int| '0');
        assert(p =~= s + z);
        lemma_digits_append(s, z);
        lemma_zero_digits((k - n) as nat);
        lemma_pow_adds(10, (k - n) as nat, n);
        let a = pow(10, (k - n) as nat);
        let bb = pow(10, n);
        let x = digits_value(s);
        assert(digits_value(p) == x * a);
        assert((x * a) * bb == x * (a * bb)) by (nonlinear_arith);
        assert(x * (a * bb) < (x * a + 1) * bb) by (nonlinear_arith)
            requires
                bb > 0,
        ;
    } else {
        let r = s.subrange(k as int, n as int);
        assert(s =~= p + r);
        lemma_digits_append(p, r);
        assert(all_digit_chars(r)) by {
            assert forall|i: int| 0 <= i < r.len() implies is_digit_char(#[trigger] r[i]) by {
                assert(r[i] == s[k + i]);
            }
        }
        lemma_digits_bound(r);
        lemma_pow_adds(10, k, (n - k) as nat);
        let q = pow(10, (n - k) as nat);
        let c = pow(10, k);
        let fp = digits_value(p);
        let fr = digits_value(r);
        assert(digits_value(s) == fp * q + fr);
        assert(pow(10, n) == c * q);
        assert((fp * q + fr) * c == fp * (c * q) + fr * c) by (nonlinear_arith);
        assert(fr * c < q * c) by (nonlinear_arith)
            requires
                fr < q,
                c > 0,
        ;
        assert(fp * (c * q) + fr * c < (fp + 1) * (c * q)) by (nonlinear_arith)
            requires
                fr * c < q * c,
        ;
    }
}

/// A fraction rounds up exactly when the nines' complement of its first `k`
/// digits is below `5^k`.
proof fn lemma_rounds_up_digits(w: nat, fr: Seq<char>)
    requires
        all_digit_chars(fr),
    ensures
        rounds_up(w, fr) <==> pow(10, half_gap_exp(w)) - 1 - digits_value(padded(fr, half_gap_exp(w))) < pow(
            5,
            half_gap_exp(w),
        ),
{
    let k = half_gap_exp(w);
    let n = fr.len();
    let f = digits_value(fr);
    let fk = digits_value(padded(fr, k));
    let a = pow(10, n);
    let b = pow(10, k);
    let two = pow(2, k);
    let five = pow(5, k);
    lemma_pow_distributes(2, 5, k);
    assert(b == two * five);
    lemma_pow_positive(5, k);
    lemma_pow_positive(10, n);
    lemma_truncate(fr, k);
    assert(((a - f) * two <= a) <==> ((a - f) * b <= a * five)) by (nonlinear_arith)
        requires
            b == two * five,
            five > 0,
    ;
    assert(((a - f) * b <= a * five) <==> (f * b >= a * (b - five))) by (nonlinear_arith);
    assert((f * b >= a * (b - five)) <==> (fk >= b - five)) by (nonlinear_arith)
        requires
            fk * a <= f * b,
            f * b < (fk + 1) * a,
            a > 0,
    ;
}

proof fn lemma_log2_floor_bound(w: nat, m: nat)
    requires
        m >= 1,
        w < pow(2, m),
    ensures
        log2_floor(w) < m,
    decreases m,
{
    if w >= 2 {
        lemma_pow_step(2, (m - 1) as nat);
        if m == 1 {
            lemma_pow0(2);
        } else {
            lemma_log2_floor_bound(w / 2, (m - 1) as nat);
        }
    }
}

/// Whether `w` plus the fraction whose digits are `v[a..b]` becomes `w + 1`
/// when read as an `f64`.
fn fraction_rounds_up(w: u64, v: &Vec<char>, a: usize, b: usize) -> (r: bool)
    requires
        w < 4294967295,
        a <= b <= v@.len(),
        forall|j: int| a <= j < b ==> is_digit_char(#[trigger] v@[j]),
    ensures
        r == rounds_up(w as nat, v@.subrange(a as int, b as int)),
{
    let ghost fr = v@.subrange(a as int, b as int);
    assert(all_digit_chars(fr)) by {
        assert forall|i: int| 0 <= i < fr.len() implies is_digit_char(#[trigger] fr[i]) by {
            assert(fr[i] == v@[a + i]);
        }
    }
    let mut e: u64 = 0;
    let mut x: u64 = w;
    proof {
        assert(pow(2, 32) == 4294967296) by {
            reveal_with_fuel(pow, 33);
        }
        if w > 0 {
            lemma_log2_floor_bound(w as nat, 32);
        }
    }
    while x >= 2
        invariant
            e + log2_floor(x as nat) == log2_floor(w as nat),
            log2_floor(w as nat) < 32,
            x <= w,
        decreases x,
    {
        x = x / 2;
        e = e + 1;
    }
    let k: u64 = if w == 0 { 54 } else { 53 - e };
    assert(k == half_gap_exp(w as nat));
    assert(22 <= k <= 54);
    proof {
        assert(pow(5, 54) == 55511151231257827021181583404541015625) by {
            reveal_with_fuel(pow, 55);
        }
        assert(pow(5, 2) == 25) by {
            reveal_with_fuel(pow, 3);
        }
        lemma_pow_increases(5, 2, k as nat);
    }
    let mut five: u128 = 1;
    let mut j: u64 = 0;
    proof {
        lemma_pow0(5);
    }
    while j < k
        invariant
            j <= k <= 54,
            five == pow(5, j as nat),
            pow(5, 54) == 55511151231257827021181583404541015625,
        decreases k - j,
    {
        proof {
            lemma_pow_step(5, j as nat);
            lemma_pow_increases(5, (j + 1) as nat, 54);
        }
        five = five * 5;
        j = j + 1;
    }
    let ghost p = padded(fr, k as nat);
    let n: usize = b - a;
    let mut d: u128 = 0;
    let mut big = false;
    let mut j: u64 = 0;
    proof {
        lemma_pow0(10);
        assert(p.take(0) =~= Seq::<char>::empty());
    }
    while j < k
        invariant
            j <= k <= 54,
            five == pow(5, k as nat),
            five >= 25,
            n == fr.len(),
            p == padded(fr, k as nat),
            fr == v@.subrange(a as int, b as int),
            a <= b <= v@.len(),
            forall|i: int| a <= i < b ==> is_digit_char(#[trigger] v@[i]),
            big ==> pow(10, j as nat) - 1 - digits_value(p.take(j as int)) >= five,
            !big ==> d == pow(10, j as nat) - 1 - digits_value(p.take(j as int)) && d < five,
        decreases k - j,
    {
        let f: u128 = if (j as usize) < n {
            (v[a + j as usize] as u32 - '0' as u32) as u128
        } else {
            0
        };
        assert(f == digit_val(p[j as int]));
        let c: u128 = 9 - f;
        proof {
            assert(p.take(j + 1).drop_last() =~= p.take(j as int));
            lemma_pow_step(10, j as nat);
        }
        if !big {
            if d > (five - 1 - c) / 10 {
                big = true;
            } else {
                d = d * 10 + c;
            }
        }
        j = j + 1;
    }
    proof {
        assert(p.take(k as int) =~= p);
        lemma_rounds_up_digits(w as nat, fr);
    }
    !big
}

pub fn lexeme_to_u32(t: &str) -> (r: u32)
    ensures
        r == lexeme_u32(t@),
{
    let v = to_chars(t);
    if v.len() > 0 && v[0] == '-' {
        return 0;
    }
    let mut i: usize = 0;
    let mut acc: u64 = 0;
    let mut over = false;
    while i < v.len() && '0' <= v[i] && v[i] <= '9'
        invariant
            i <= v@.len(),
            v@ == t@,
            forall|j: int| 0 <= j < i ==> is_digit_char(#[trigger] v@[j]),
            !over ==> acc as nat == digits_value(v@.take(i as int)) && acc <= 4294967295,
            over ==> digits_value(v@.take(i as int)) > 4294967295,
        decreases v.len() - i,
    {
        let d = (v[i] as u32 - '0' as u32) as u64;
        assert(v@.take(i + 1).drop_last() =~= v@.take(i as int));
        if !over {
            let next = acc * 10 + d;
            if next > 4294967295 {
                over = true;
            } else {
                acc = next;
            }
        }
        i = i + 1;
    }
    proof {
        lemma_leading_digits(v@, i as int);
    }
    if over || acc >= 4294967295 {
        return 4294967295;
    }
    let mut a: usize = i;
    let mut b: usize = i;
    if i < v.len() && v[i] == '.' {
        a = i + 1;
        b = a;
        while b < v.len() && '0' <= v[b] && v[b] <= '9'
            invariant
                a <= b <= v@.len(),
                forall|j: int| a <= j < b ==> is_digit_char(#[trigger] v@[j]),
            decreases v.len() - b,
        {
            b = b + 1;
        }
        proof {
            let r = v@.subrange(a as int, v@.len() as int);
            assert forall|j: int| 0 <= j < b - a implies is_digit_char(#[trigger] r[j]) by {
                assert(r[j] == v@[a + j]);
            }
            if b < v@.len() {
                assert(r[b - a] == v@[b as int]);
            }
            lemma_leading_digits(r, (b - a) as int);
            assert(r.take(b - a) =~= v@.subrange(a as int, b as int));
        }
    } else {
        assert(v@.subrange(i as int, i as int) =~= Seq::<char>::empty());
    }
    assert(fraction_digits(v@) == v@.subrange(a as int, b as int));
    if fraction_rounds_up(acc, &v, a, b) {
        (acc + 1) as u32
    } else {
        acc as u32
    }
}

} // verus!

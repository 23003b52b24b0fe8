//! Reading numbers and flags from text: whole numbers as `i64` reads them,
//! reals in decimal notation to the millionth, and `true` / `false`.

use vstd::prelude::*;

verus! {

/// Digit values above this are not told apart.
pub const DIGITS_CAP: u128 = 100_000_000_000_000_000_000;

pub open spec fn is_digit(c: char) -> bool {
    '0' <= c && c <= '9'
}

pub open spec fn all_digits(s: Seq<char>) -> bool {
    forall|i: int| 0 <= i < s.len() ==> is_digit(#[trigger] s[i])
}

pub open spec fn digit_value(c: char) -> int {
    (c as u32) as int - 48
}

/// The number that a run of decimal digits writes.
pub open spec fn digits_value(s: Seq<char>) -> int
    decreases s.len(),
{
    if s.len() == 0 {
        0
    } else {
        digits_value(s.drop_last()) * 10 + digit_value(s.last())
    }
}

pub open spec fn pow10(k: nat) -> int
    decreases k,
{
    if k == 0 {
        1
    } else {
        10 * pow10((k - 1) as nat)
    }
}

pub open spec fn min_int(a: int, b: int) -> int {
    if a <= b {
        a
    } else {
        b
    }
}

proof fn lemma_digits_value_nonneg(s: Seq<char>)
    requires
        all_digits(s),
    ensures
        digits_value(s) >= 0,
    decreases s.len(),
{
    if s.len() > 0 {
        assert(all_digits(s.drop_last())) by {
            assert forall|i: int| 0 <= i < s.drop_last().len() implies is_digit(#[trigger] s.drop_last()[i]) by {
                assert(s.drop_last()[i] == s[i]);
            }
        }
        lemma_digits_value_nonneg(s.drop_last());
        assert(is_digit(s.last()));
    }
}

/// Whether `s[from..to]` is all digits, and the number it writes, capped.
fn read_digits(s: &str, from: usize, to: usize) -> (r: (bool, u128))
    requires
        from <= to <= s@.len(),
    ensures
        r.0 == all_digits(s@.subrange(from as int, to as int)),
        r.0 ==> r.1 == min_int(digits_value(s@.subrange(from as int, to as int)), DIGITS_CAP as int),
{
    let mut acc: u128 = 0;
    let mut i: usize = from;
    while i < to
        invariant
            from <= i <= to <= s@.len(),
            all_digits(s@.subrange(from as int, i as int)),
            acc == min_int(digits_value(s@.subrange(from as int, i as int)), DIGITS_CAP as int),
        decreases to - i,
    {
        let c = s.get_char(i);
        let ghost prefix = s@.subrange(from as int, i as int);
        let ghost next = s@.subrange(from as int, i + 1);
        assert(next.drop_last() =~= prefix);
        if !('0' <= c && c <= '9') {
            assert(!all_digits(s@.subrange(from as int, to as int))) by {
                assert(s@.subrange(from as int, to as int)[i - from] == c);
            }
            return (false, 0);
        }
        proof {
            lemma_digits_value_nonneg(prefix);
        }
        let d = (c as u32 - 48) as u128;
        if acc >= DIGITS_CAP {
            acc = DIGITS_CAP;
        } else {
            let grown = acc * 10 + d;
            acc = if grown >= DIGITS_CAP { DIGITS_CAP } else { grown };
        }
        assert(all_digits(next)) by {
            assert forall|k: int| 0 <= k < next.len() implies is_digit(#[trigger] next[k]) by {
                if k < prefix.len() {
                    assert(next[k] == prefix[k]);
                }
            }
        }
        i = i + 1;
    }
    (true, acc)
}

/// Where the digits begin after an optional sign, and whether it was `-`.
pub open spec fn sign_of(s: Seq<char>) -> (bool, int) {
    if s.len() > 0 && s[0] == '-' {
        (true, 1)
    } else if s.len() > 0 && s[0] == '+' {
        (false, 1)
    } else {
        (false, 0)
    }
}

/// The whole number a text writes: an optional sign, then one or more
/// digits, within the range of `i64`.
pub open spec fn int_of_text(s: Seq<char>) -> Option<i64> {
    let (neg, start) = sign_of(s);
    let body = s.subrange(start, s.len() as int);
    if body.len() == 0 || !all_digits(body) {
        None
    } else {
        let v = if neg { -digits_value(body) } else { digits_value(body) };
        if i64::MIN <= v <= i64::MAX {
            Some(v as i64)
        } else {
            None
        }
    }
}

fn sign_at(s: &str) -> (r: (bool, usize))
    ensures
        r.0 == sign_of(s@).0,
        r.1 as int == sign_of(s@).1,
        r.1 <= s@.len(),
{
    let n = s.unicode_len();
    if n > 0 {
        let c = s.get_char(0);
        if c == '-' {
            return (true, 1);
        } else if c == '+' {
            return (false, 1);
        }
    }
    (false, 0)
}

/// Read a whole number as `i64` does.
pub fn parse_int(s: &str) -> (r: Option<i64>)
    ensures
        r == int_of_text(s@),
{
    let (neg, start) = sign_at(s);
    let n = s.unicode_len();
    if start == n {
        return None;
    }
    let (ok, v) = read_digits(s, start, n);
    if !ok {
        return None;
    }
    let ghost body = s@.subrange(start as int, n as int);
    proof {
        lemma_digits_value_nonneg(body);
    }
    if neg {
        if v > 9_223_372_036_854_775_808u128 {
            return None;
        }
        let wide = -(v as i128);
        Some(wide as i64)
    } else {
        if v > 9_223_372_036_854_775_807u128 {
            return None;
        }
        Some(v as i64)
    }
}

/// The position of the first `.` in `s`, or its length.
pub open spec fn dot_at(s: Seq<char>, p: int) -> bool {
    0 <= p <= s.len() && (p < s.len() ==> s[p] == '.') && forall|i: int| 0 <= i < p ==> s[i] != '.'
}

/// The fraction digits of a real, in millionths: the first six digits,
/// padded with zeros.
pub open spec fn fraction_millionths(f: Seq<char>) -> int {
    let taken = if f.len() < 6 { f.len() } else { 6 };
    digits_value(f.subrange(0, taken as int)) * pow10((6 - taken) as nat)
}

/// The real a text writes, in millionths and held to the range of `i64`:
/// an optional sign, digits, and optionally `.` and more digits, with at
/// least one digit in all. Digits past the sixth after the point are
/// dropped. This is plain decimal notation only: exponents (`1e3`) and the
/// words `inf` and `NaN` write no real here.
pub open spec fn real_of_text(s: Seq<char>) -> Option<i64> {
    let (neg, start) = sign_of(s);
    let body = s.subrange(start, s.len() as int);
    let p = choose|p: int| dot_at(body, p);
    let whole = body.subrange(0, p);
    let fraction = if p < body.len() { body.subrange(p + 1, body.len() as int) } else { Seq::empty() };
    if whole.len() + fraction.len() == 0 || !all_digits(whole) || !all_digits(fraction) {
        None
    } else {
        let magnitude = digits_value(whole) * 1_000_000 + fraction_millionths(fraction);
        Some(crate::qartod::clamped(if neg { -magnitude } else { magnitude }))
    }
}


fn pow10_small(k: usize) -> (r: u128)
    requires
        k <= 6,
    ensures
        r == pow10(k as nat),
        r <= 1_000_000,
{
    proof {
        reveal_with_fuel(pow10, 7);
    }
    match k {
        0 => 1,
        1 => 10,
        2 => 100,
        3 => 1_000,
        4 => 10_000,
        5 => 100_000,
        _ => 1_000_000,
    }
}

proof fn lemma_dot_unique(b: Seq<char>, p: int, q: int)
    requires
        dot_at(b, p),
        dot_at(b, q),
    ensures
        p == q,
{
    if p < q {
        assert(b[p] == '.');
    } else if q < p {
        assert(b[q] == '.');
    }
}

proof fn lemma_six_digits_bound(f: Seq<char>)
    requires
        all_digits(f),
        f.len() <= 6,
    ensures
        0 <= digits_value(f) < pow10(f.len()),
    decreases f.len(),
{
    if f.len() > 0 {
        assert(all_digits(f.drop_last())) by {
            assert forall|i: int| 0 <= i < f.drop_last().len() implies is_digit(#[trigger] f.drop_last()[i]) by {
                assert(f.drop_last()[i] == f[i]);
            }
        }
        lemma_six_digits_bound(f.drop_last());
        assert(is_digit(f.last()));
        assert(pow10(f.len()) == 10 * pow10((f.len() - 1) as nat));
    }
}

/// Read a real in decimal notation, in millionths.
pub fn parse_real(s: &str) -> (r: Option<i64>)
    ensures
        r == real_of_text(s@),
{
    let (neg, start) = sign_at(s);
    let n = s.unicode_len();
    let ghost body = s@.subrange(start as int, n as int);
    let mut p: usize = start;
    while p < n && s.get_char(p) != '.'
        invariant
            start <= p <= n,
            n == s@.len(),
            body == s@.subrange(start as int, n as int),
            forall|i: int| 0 <= i < p - start ==> body[i] != '.',
        decreases n - p,
    {
        p = p + 1;
    }
    proof {
        assert(dot_at(body, p - start));
        let q = choose|q: int| dot_at(body, q);
        lemma_dot_unique(body, p - start, q);
    }
    let frac_start: usize = if p < n { p + 1 } else { n };
    let ghost whole = body.subrange(0, p - start);
    let ghost fraction = if p < n { body.subrange(p - start + 1, body.len() as int) } else { Seq::<char>::empty() };
    assert(whole =~= s@.subrange(start as int, p as int));
    assert(fraction =~= s@.subrange(frac_start as int, n as int));
    if (p - start) + (n - frac_start) == 0 {
        return None;
    }
    let (whole_ok, w) = read_digits(s, start, p);
    let (fraction_ok, _) = read_digits(s, frac_start, n);
    if !whole_ok || !fraction_ok {
        return None;
    }
    let taken: usize = if n - frac_start < 6 { n - frac_start } else { 6 };
    let (_, f) = read_digits(s, frac_start, frac_start + taken);
    let ghost head = fraction.subrange(0, taken as int);
    assert(head =~= s@.subrange(frac_start as int, (frac_start + taken) as int));
    proof {
        assert(all_digits(head)) by {
            assert forall|i: int| 0 <= i < head.len() implies is_digit(#[trigger] head[i]) by {
                assert(head[i] == fraction[i]);
            }
        }
        lemma_six_digits_bound(head);
        lemma_digits_value_nonneg(whole);
        reveal_with_fuel(pow10, 7);
    }
    let scale = pow10_small(6 - taken);
    assert(f * scale <= 1_000_000) by (nonlinear_arith)
        requires
            f < pow10(taken as nat),
            scale == pow10((6 - taken) as nat),
            taken <= 6,
            pow10(0) == 1,
            pow10(1) == 10,
            pow10(2) == 100,
            pow10(3) == 1_000,
            pow10(4) == 10_000,
            pow10(5) == 100_000,
            pow10(6) == 1_000_000,
    ;
    let magnitude: i128 = (w as i128) * 1_000_000 + (f * scale) as i128;
    let signed: i128 = if neg { -magnitude } else { magnitude };
    let r = crate::qartod::clamp_real(signed);
    proof {
        let true_magnitude = digits_value(whole) * 1_000_000 + fraction_millionths(fraction);
        assert(fraction_millionths(fraction) == f * scale);
        if digits_value(whole) >= DIGITS_CAP as int {
            assert(w == DIGITS_CAP);
            assert(true_magnitude >= 100_000_000_000_000_000_000 * 1_000_000);
        }
    }
    Some(r)
}

} // verus!

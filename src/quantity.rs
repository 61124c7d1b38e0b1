//! Exact non-negative magnitudes: fractions in lowest terms whose numerator
//! and denominator fit in 64 bits.

use vstd::prelude::*;
use vstd::arithmetic::div_mod::{lemma_fundamental_div_mod, lemma_div_is_ordered};
use crate::gcd::{gcd, lemma_gcd_symmetric, lemma_lowest_terms_unique, lemma_reduce};
use crate::text::{
    find_char, find_char_exec, all_digits, chars_of, digit_value, digits_value, is_digit, leading_digits, lemma_digits_value_prefix,
    lemma_leading_digits, numeral, padded_numeral, push_numeral, push_padded_numeral,
};


verus! {

/// Number of decimal places that `to_decimal_string` keeps; the last one is
/// rounded half up.
pub const DECIMAL_PLACES: u32 = 15;

pub open spec fn pow10(k: nat) -> nat
    decreases k,
{
    if k == 0 {
        1
    } else {
        10 * pow10((k - 1) as nat)
    }
}

/// The fraction `n / d` in lowest terms.
pub open spec fn lowest_terms(n: nat, d: nat) -> (nat, nat) {
    (n / gcd(n, d), d / gcd(n, d))
}

pub open spec fn fits_u64(p: (nat, nat)) -> bool {
    p.0 <= u64::MAX && p.1 <= u64::MAX
}

/// `n / d` in lowest terms, where both terms fit in 64 bits.
pub open spec fn fraction(n: nat, d: nat) -> Option<(nat, nat)> {
    if fits_u64(lowest_terms(n, d)) {
        Some(lowest_terms(n, d))
    } else {
        None
    }
}

/// Fraction `q` multiplied by `p / d`, in lowest terms, where both terms
/// fit in 64 bits.
pub open spec fn scaled(q: (nat, nat), p: nat, d: nat) -> Option<(nat, nat)> {
    fraction(q.0 * p, q.1 * d)
}

/// Largest whole number that the terms can hold, and the threshold above
/// which an inexact result keeps only its whole part.
pub const TERM_MAX: u64 = 0xffff_ffff_ffff_ffff;

pub const WHOLE_ONLY: u128 = 0x4000_0000_0000_0000;

/// The smallest power of two, from `p` on doubling, by which both terms
/// can be divided (rounding down) to fit in 64 bits.
pub open spec fn fit_divisor(a: nat, b: nat, p: nat) -> nat
    decreases (if p == 0 || p >= 0x1_0000_0000_0000_0000 { 0 } else { 0x1_0000_0000_0000_0000 - p }),
{
    if p == 0 || p >= 0x1_0000_0000_0000_0000 || (a / p <= u64::MAX && b / p <= u64::MAX) {
        p
    } else {
        fit_divisor(a, b, 2 * p)
    }
}

/// The fraction with 64-bit terms that stands for `n / d`: the exact value
/// in lowest terms where it fits; else `u64::MAX` where the value is at
/// least that; else its whole part where that is at least `2^62`; else
/// both terms of the lowest form divided (rounding down) by the smallest
/// power of two that makes them fit, then reduced. The last two are within
/// one unit, and within one part in `2^62` of the value's size.
pub open spec fn nearest_fraction(n: nat, d: nat) -> (nat, nat) {
    let l = lowest_terms(n, d);
    if fits_u64(l) {
        l
    } else if l.0 / l.1 >= u64::MAX {
        (u64::MAX as nat, 1nat)
    } else if l.0 / l.1 >= WHOLE_ONLY {
        (l.0 / l.1, 1nat)
    } else {
        let p = fit_divisor(l.0, l.1, 1);
        lowest_terms(l.0 / p, l.1 / p)
    }
}

/// How close `nearest_fraction(n, d)` is to `n / d`, whose lowest form is
/// `(a, b)`: equal where that fits; at most the value where it saturates;
/// the whole part, within one unit below the value, where that is at least
/// `2^62`; else the value of `(a / p) / (b / p)`, each term within one `p`
/// below the exact term times `p`.
pub proof fn lemma_nearest_bounds(n: nat, d: nat)
    requires
        d > 0,
    ensures
        ({
            let l = lowest_terms(n, d);
            let r = nearest_fraction(n, d);
            if fits_u64(l) {
                r == l
            } else if l.0 / l.1 >= u64::MAX {
                r == (u64::MAX as nat, 1nat) && l.0 >= u64::MAX * l.1
            } else if l.0 / l.1 >= WHOLE_ONLY {
                r.1 == 1 && r.0 * l.1 <= l.0 < (r.0 + 1) * l.1
            } else {
                let p = fit_divisor(l.0, l.1, 1);
                p >= 1 && (l.0 / p) * p <= l.0 < (l.0 / p + 1) * p && (l.1 / p) * p <= l.1 < (l.1 / p + 1) * p
                    && r.0 * (l.1 / p) == (l.0 / p) * r.1
            }
        }),
{
    lemma_reduce(n, d);
    let l = lowest_terms(n, d);
    lemma_fundamental_div_mod(l.0 as int, l.1 as int);
    if !fits_u64(l) && l.0 / l.1 < u64::MAX && l.0 / l.1 < WHOLE_ONLY {
        let p = fit_divisor(l.0, l.1, 1);
        lemma_fit_divisor_minimal(l.0, l.1, 1);
        lemma_fundamental_div_mod(l.0 as int, p as int);
        lemma_fundamental_div_mod(l.1 as int, p as int);
        lemma_denominator_survives(l.0, l.1, l.0 / l.1, p);
        lemma_reduce(l.0 / p, l.1 / p);
        assert((l.0 / p) * p <= l.0 < (l.0 / p + 1) * p && (l.1 / p) * p <= l.1 < (l.1 / p + 1) * p)
            by (nonlinear_arith)
            requires
                l.0 == p * (l.0 / p) + l.0 % p,
                l.1 == p * (l.1 / p) + l.1 % p,
                0 <= l.0 % p < p,
                0 <= l.1 % p < p,
        ;
    } else if !fits_u64(l) && l.0 / l.1 >= u64::MAX {
        assert(l.0 >= u64::MAX * l.1) by (nonlinear_arith)
            requires
                l.0 == l.1 * (l.0 / l.1) + l.0 % l.1,
                l.0 % l.1 >= 0,
                l.0 / l.1 >= u64::MAX,
                l.1 > 0,
        ;
    } else if !fits_u64(l) {
        let w = l.0 / l.1;
        assert(w * l.1 <= l.0 < (w + 1) * l.1) by (nonlinear_arith)
            requires
                l.0 == l.1 * w + l.0 % l.1,
                0 <= l.0 % l.1 < l.1,
        ;
    }
}

proof fn lemma_fit_divisor_minimal(a: nat, b: nat, q: nat)
    requires
        q >= 1,
        q > 1 ==> q % 2 == 0 && !(a / (q / 2) <= u64::MAX && b / (q / 2) <= u64::MAX),
    ensures
        fit_divisor(a, b, q) >= 1,
        fit_divisor(a, b, q) > 1 ==> fit_divisor(a, b, q) % 2 == 0 && !(a / (fit_divisor(a, b, q) / 2) <= u64::MAX
            && b / (fit_divisor(a, b, q) / 2) <= u64::MAX),
    decreases (if q == 0 || q >= 0x1_0000_0000_0000_0000 { 0 } else { 0x1_0000_0000_0000_0000 - q }),
{
    if !(q >= 0x1_0000_0000_0000_0000 || (a / q <= u64::MAX && b / q <= u64::MAX)) {
        assert((2 * q) / 2 == q);
        assert((2 * q) % 2 == 0);
        lemma_fit_divisor_minimal(a, b, 2 * q);
    }
}

/// Where the exact product fits, it is what `nearest_fraction` gives.
pub proof fn lemma_nearest_exact(n: nat, d: nat)
    requires
        fraction(n, d) is Some,
    ensures
        nearest_fraction(n, d) == fraction(n, d)->Some_0,
{
}

/// Whether two fractions have the same value.
pub open spec fn same_value(a: (nat, nat), b: (nat, nat)) -> bool {
    a.0 * b.1 == b.0 * a.1
}

/// The digits of a decimal numeral `i` or `i.f` (with `i` and `f`
/// non-empty runs of digits), and the number of digits after the point.
pub open spec fn decimal_parts(s: Seq<char>) -> Option<(Seq<char>, nat)> {
    let k = leading_digits(s);
    if k == 0 {
        None
    } else if k == s.len() {
        Some((s, 0nat))
    } else if s[k as int] == '.' && k + 1 < s.len() && all_digits(s.subrange((k + 1) as int, s.len() as int)) {
        Some((s.subrange(0, k as int) + s.subrange((k + 1) as int, s.len() as int), (s.len() - k - 1) as nat))
    } else {
        None
    }
}

/// The value of a decimal numeral, where its digits fit in 64 bits and it
/// has at most 19 digits after the point.
pub open spec fn decimal_value(s: Seq<char>) -> Option<(nat, nat)> {
    match decimal_parts(s) {
        Some(parts) => if digits_value(parts.0) <= u64::MAX && parts.1 <= 19 {
            Some(lowest_terms(digits_value(parts.0), pow10(parts.1)))
        } else {
            None
        },
        None => None,
    }
}

/// The exponent after the `e` of a number in scientific notation: an
/// optional sign and a whole number of at most 19.
pub open spec fn exponent_value(s: Seq<char>) -> Option<int> {
    let neg = s.len() > 0 && s[0] == '-';
    let digits = if s.len() > 0 && (s[0] == '-' || s[0] == '+') {
        s.subrange(1, s.len() as int)
    } else {
        s
    };
    match decimal_value(digits) {
        Some(v) => if v.1 == 1 && v.0 <= 19 {
            Some(if neg { -(v.0 as int) } else { v.0 as int })
        } else {
            None
        },
        None => None,
    }
}

/// The value of a number written as a decimal numeral, optionally followed
/// by `e` and an exponent (`"0.92"`, `"1.5e-7"`, `"1e+21"`), where it is
/// non-negative and fits.
pub open spec fn number_value(s: Seq<char>) -> Option<(nat, nat)> {
    match find_char(s, 'e', 0) {
        None => decimal_value(s),
        Some(i) => match (decimal_value(s.subrange(0, i)), exponent_value(s.subrange(i + 1, s.len() as int))) {
            (Some(m), Some(k)) => if k >= 0 {
                fraction(m.0 * pow10(k as nat), m.1)
            } else {
                fraction(m.0, m.1 * pow10((-k) as nat))
            },
            _ => None,
        },
    }
}

/// Fraction `q` times `10^15`, rounded half up to a whole number.
pub open spec fn rounded_places(q: (nat, nat)) -> nat {
    (2 * q.0 * pow10(DECIMAL_PLACES as nat) + q.1) / (2 * q.1)
}

/// Drops trailing zero digits from the `k`-digit fraction `f`.
pub open spec fn trim_zeros(f: nat, k: nat) -> (nat, nat)
    decreases k,
{
    if k > 0 && f % 10 == 0 {
        trim_zeros(f / 10, (k - 1) as nat)
    } else {
        (f, k)
    }
}

/// Decimal text of fraction `q`, rounded to `DECIMAL_PLACES` places, with
/// no trailing zeros after the point and no point for a whole number
/// (`"0.1"`, `"1000"`, `"0"`).
pub open spec fn decimal_text(q: (nat, nat)) -> Seq<char> {
    let s = rounded_places(q);
    let whole = s / pow10(DECIMAL_PLACES as nat);
    let frac = s % pow10(DECIMAL_PLACES as nat);
    if frac == 0 {
        numeral(whole)
    } else {
        let t = trim_zeros(frac, DECIMAL_PLACES as nat);
        numeral(whole) + seq!['.'] + padded_numeral(t.0, t.1)
    }
}

/// The value of the decimal digits `ds`, where it fits in 64 bits.
fn digits_to_u64(ds: &Vec<char>) -> (r: Option<u64>)
    requires
        all_digits(ds@),
    ensures
        digits_value(ds@) <= u64::MAX ==> r == Some(digits_value(ds@) as u64),
        digits_value(ds@) > u64::MAX ==> r is None,
{
    let mut acc: u64 = 0;
    let mut i: usize = 0;
    while i < ds.len()
        invariant
            i <= ds@.len(),
            all_digits(ds@),
            acc == digits_value(ds@.subrange(0, i as int)),
        decreases ds.len() - i,
    {
        let c = ds[i];
        assert(is_digit(ds@[i as int]));
        let d = (c as u32 - '0' as u32) as u64;
        let next = acc as u128 * 10 + d as u128;
        assert(ds@.subrange(0, i + 1).drop_last() =~= ds@.subrange(0, i as int));
        assert(next == digits_value(ds@.subrange(0, i + 1)));
        if next > u64::MAX as u128 {
            proof {
                lemma_digits_value_prefix(ds@, i + 1);
            }
            return None;
        }
        acc = next as u64;
        i = i + 1;
    }
    assert(ds@.subrange(0, i as int) =~= ds@);
    Some(acc)
}

/// The digits of the decimal numeral `s[start..end]` and the number of
/// digits after its point.
fn decimal_digits(s: &Vec<char>, start: usize, end: usize) -> (r: Option<(Vec<char>, usize)>)
    requires
        start <= end <= s@.len(),
    ensures
        match decimal_parts(s@.subrange(start as int, end as int)) {
            Some(parts) => r is Some && r->Some_0.0@ == parts.0 && r->Some_0.1 == parts.1,
            None => r is None,
        },
{
    let ghost t = s@.subrange(start as int, end as int);
    let mut i: usize = start;
    let mut ds: Vec<char> = Vec::new();
    while i < end && '0' <= s[i] && s[i] <= '9'
        invariant
            start <= i <= end <= s@.len(),
            t == s@.subrange(start as int, end as int),
            forall|j: int| 0 <= j < i - start ==> is_digit(#[trigger] t[j]),
            ds@ == t.subrange(0, i - start),
        decreases end - i,
    {
        ds.push(s[i]);
        i = i + 1;
        assert(ds@ =~= t.subrange(0, i - start));
    }
    proof {
        lemma_leading_digits(t, i - start);
    }
    if i == start {
        return None;
    }
    if i == end {
        assert(ds@ =~= t);
        return Some((ds, 0));
    }
    if s[i] != '.' || i + 1 == end {
        return None;
    }
    let mut j: usize = i + 1;
    while j < end
        invariant
            start < i < j <= end <= s@.len(),
            t == s@.subrange(start as int, end as int),
            t[i - start] == '.',
            leading_digits(t) == i - start,
            forall|m: int| i + 1 - start <= m < j - start ==> is_digit(#[trigger] t[m]),
            ds@ == t.subrange(0, i - start) + t.subrange(i + 1 - start, j - start),
        decreases end - j,
    {
        if s[j] < '0' || s[j] > '9' {
            proof {
                let f = t.subrange(i + 1 - start, t.len() as int);
                assert(f[j - i - 1] == t[j - start]);
                assert(!all_digits(f));
            }
            return None;
        }
        ds.push(s[j]);
        j = j + 1;
        assert(ds@ =~= t.subrange(0, i - start) + t.subrange(i + 1 - start, j - start));
    }
    proof {
        let f = t.subrange(i + 1 - start, t.len() as int);
        assert forall|m: int| 0 <= m < f.len() implies is_digit(#[trigger] f[m]) by {
            assert(f[m] == t[m + i + 1 - start]);
        }
        assert(ds@ =~= t.subrange(0, i - start) + f);
    }
    Some((ds, end - i - 1))
}

/// A fraction `n / d` of the same value as the fraction `q` in lowest
/// terms reduces to `q`.
pub proof fn lemma_fraction_of_same_value(n: nat, d: nat, q: (nat, nat))
    requires
        d > 0,
        q.1 > 0,
        gcd(q.0, q.1) == 1,
        fits_u64(q),
        n * q.1 == q.0 * d,
    ensures
        fraction(n, d) == Some(q),
{
    lemma_reduce(n, d);
    let a = n / gcd(n, d);
    let b = d / gcd(n, d);
    assert(a * q.1 == q.0 * b) by (nonlinear_arith)
        requires
            a * d == n * b,
            n * q.1 == q.0 * d,
            d > 0,
    ;
    lemma_lowest_terms_unique(a, b, q.0, q.1);
}

/// Multiplying by `p / p` leaves a fraction in lowest terms unchanged.
pub proof fn lemma_scaled_identity(q: Quantity, p: nat)
    requires
        q.wf(),
        p > 0,
    ensures
        scaled(q@, p, p) == Some(q@),
{
    Quantity::lemma_bounds(q);
    assert(q@.0 * p * q@.1 == q@.0 * (q@.1 * p)) by (nonlinear_arith);
    assert(q@.1 * p > 0) by (nonlinear_arith)
        requires
            q@.1 > 0,
            p > 0,
    ;
    lemma_fraction_of_same_value(q@.0 * p, q@.1 * p, q@);
}

/// Multiplying by `p / d` and then by `d / p` gives back a fraction in
/// lowest terms, whenever the first product fits.
pub proof fn lemma_scaled_inverse(q: Quantity, p: nat, d: nat)
    requires
        q.wf(),
        p > 0,
        d > 0,
        scaled(q@, p, d) is Some,
    ensures
        scaled(scaled(q@, p, d)->Some_0, d, p) == Some(q@),
{
    Quantity::lemma_bounds(q);
    let n1 = q@.0 * p;
    let d1 = q@.1 * d;
    assert(d1 > 0) by (nonlinear_arith)
        requires
            q@.1 > 0,
            d > 0,
            d1 == q@.1 * d,
    ;
    lemma_reduce(n1, d1);
    let m = scaled(q@, p, d)->Some_0;
    assert(m.0 * d * q@.1 == q@.0 * (m.1 * p)) by (nonlinear_arith)
        requires
            m.0 * d1 == n1 * m.1,
            n1 == q@.0 * p,
            d1 == q@.1 * d,
    ;
    assert(m.1 * p > 0) by (nonlinear_arith)
        requires
            m.1 > 0,
            p > 0,
    ;
    lemma_fraction_of_same_value(m.0 * d, m.1 * p, q@);
}

/// Swapping the terms of a fraction swaps the terms of its lowest form.
pub proof fn lemma_fraction_swap(n: nat, d: nat)
    requires
        n > 0,
        d > 0,
        fraction(n, d) is Some,
    ensures
        fraction(d, n) == Some((fraction(n, d)->Some_0.1, fraction(n, d)->Some_0.0)),
{
    lemma_reduce(n, d);
    lemma_gcd_symmetric(n, d);
    let f = fraction(n, d)->Some_0;
    lemma_gcd_symmetric(f.0, f.1);
    assert(f.0 > 0) by (nonlinear_arith)
        requires
            f.0 * d == n * f.1,
            n > 0,
            f.1 > 0,
            d > 0,
    ;
    assert(d * f.0 == f.1 * n) by (nonlinear_arith)
        requires
            f.0 * d == n * f.1,
    ;
    lemma_fraction_of_same_value(d, n, (f.1, f.0));
}

/// A non-negative rational number.
#[derive(Clone, Copy, Debug, PartialEq, Eq, Structural)]
pub struct Quantity {
    num: u64,
    den: u64,
}

impl View for Quantity {
    /// Numerator and denominator.
    type V = (nat, nat);

    closed spec fn view(&self) -> (nat, nat) {
        (self.num as nat, self.den as nat)
    }
}

proof fn lemma_leading_digits_are_digits(s: Seq<char>)
    ensures
        leading_digits(s) <= s.len(),
        forall|j: int| 0 <= j < leading_digits(s) ==> is_digit(#[trigger] s[j]),
        leading_digits(s) < s.len() ==> !is_digit(s[leading_digits(s) as int]),
    decreases s.len(),
{
    if s.len() > 0 && is_digit(s[0]) {
        let t = s.subrange(1, s.len() as int);
        lemma_leading_digits_are_digits(t);
        assert forall|j: int| 0 <= j < leading_digits(s) implies is_digit(#[trigger] s[j]) by {
            if j > 0 {
                assert(s[j] == t[j - 1]);
            }
        }
        if leading_digits(s) < s.len() {
            assert(s[leading_digits(s) as int] == t[leading_digits(t) as int]);
        }
    }
}

/// `10^k` for `k <= 19`.
fn pow10_u64(k: u32) -> (r: u64)
    requires
        k <= 19,
    ensures
        r == pow10(k as nat),
{
    let mut r: u64 = 1;
    let mut i: u32 = 0;
    proof {
        lemma_pow10_monotone(0, 19);
    }
    while i < k
        invariant
            i <= k <= 19,
            r == pow10(i as nat),
            pow10(i as nat) <= pow10(19),
        decreases k - i,
    {
        proof {
            lemma_pow10_monotone(i as nat + 1, 19);
            reveal_with_fuel(pow10, 20);
        }
        r = r * 10;
        i = i + 1;
    }
    r
}

proof fn lemma_pow10_monotone(a: nat, b: nat)
    requires
        a <= b,
    ensures
        pow10(a) <= pow10(b),
    decreases b,
{
    if a < b {
        lemma_pow10_monotone(a, (b - 1) as nat);
    }
}

/// Where the value is below `2^62`, dividing both terms by the smallest
/// power of two that makes them fit leaves a positive denominator.
proof fn lemma_denominator_survives(a: nat, b: nat, w: nat, p: nat)
    requires
        b > 0,
        w == a / b,
        w < WHOLE_ONLY,
        p >= 1,
        p > 1 ==> p % 2 == 0,
        p > 1 ==> !(a / (p / 2) <= u64::MAX && b / (p / 2) <= u64::MAX),
    ensures
        b / p >= 1,
{
    if p == 1 {
    } else {
        let h = p / 2;
        assert(p == 2 * h);
        assert(h >= 1);
        lemma_fundamental_div_mod(a as int, b as int);
        lemma_fundamental_div_mod(a as int, h as int);
        lemma_fundamental_div_mod(b as int, h as int);
        lemma_fundamental_div_mod(b as int, p as int);
        if b / h > u64::MAX {
            assert(b >= p) by (nonlinear_arith)
                requires
                    b == h * (b / h) + b % h,
                    b % h >= 0,
                    b / h >= 2,
                    p == 2 * h,
                    h >= 1,
            ;
            let x = b / p;
            assert(b == p * x + b % p);
            if x == 0 {
                assert(p * x == 0);
            }
        } else {
            assert(a / h > u64::MAX);
            let qa = a / h;
            let ra = a % h;
            let rb = a % b;
            assert(a >= h * 0x1_0000_0000_0000_0000) by (nonlinear_arith)
                requires
                    a == h * qa + ra,
                    ra >= 0,
                    qa >= 0x1_0000_0000_0000_0000,
                    h >= 1,
            ;
            assert(a < b * 0x4000_0000_0000_0000) by (nonlinear_arith)
                requires
                    a == b * w + rb,
                    rb < b,
                    w + 1 <= 0x4000_0000_0000_0000,
                    b > 0,
            ;
            assert(b > p) by (nonlinear_arith)
                requires
                    h * 0x1_0000_0000_0000_0000 < b * 0x4000_0000_0000_0000,
                    p == 2 * h,
                    h >= 1,
            ;
            let x = b / p;
            assert(b == p * x + b % p);
            if x == 0 {
                assert(p * x == 0);
            }
        }
    }
}

proof fn lemma_product_fits(a: u64, b: u64)
    ensures
        (a as nat) * (b as nat) <= u128::MAX,
{
    assert((a as nat) * (b as nat) <= (u64::MAX as nat) * (u64::MAX as nat)) by (nonlinear_arith)
        requires
            a <= u64::MAX,
            b <= u64::MAX,
    ;
}

fn gcd_u128(a: u128, b: u128) -> (r: u128)
    ensures
        r == gcd(a as nat, b as nat),
{
    let mut x = a;
    let mut y = b;
    while y != 0
        invariant
            gcd(x as nat, y as nat) == gcd(a as nat, b as nat),
        decreases y,
    {
        let t = x % y;
        x = y;
        y = t;
    }
    x
}

impl Quantity {
    /// In lowest terms with a positive denominator.
    pub open spec fn wf(self) -> bool {
        self@.1 > 0 && gcd(self@.0, self@.1) == 1
    }

    pub proof fn lemma_bounds(q: Quantity)
        ensures
            q@.0 <= u64::MAX,
            q@.1 <= u64::MAX,
    {
    }

    pub fn numer(&self) -> (r: u64)
        ensures
            r == self@.0,
    {
        self.num
    }

    pub fn denom(&self) -> (r: u64)
        ensures
            r == self@.1,
    {
        self.den
    }

    /// The fraction `n / d` in lowest terms, or `None` where it does not fit.
    pub fn ratio_u128(n: u128, d: u128) -> (r: Option<Quantity>)
        requires
            d > 0,
        ensures
            match r {
                Some(q) => fraction(n as nat, d as nat) == Some(q@) && q.wf(),
                None => fraction(n as nat, d as nat) is None,
            },
    {
        proof {
            lemma_reduce(n as nat, d as nat);
        }
        let g = gcd_u128(n, d);
        let a = n / g;
        let b = d / g;
        if a <= u64::MAX as u128 && b <= u64::MAX as u128 {
            Some(Quantity { num: a as u64, den: b as u64 })
        } else {
            None
        }
    }

    /// The whole number `n`.
    pub fn from_integer(n: u64) -> (r: Quantity)
        ensures
            r@ == (n as nat, 1nat),
            r.wf(),
    {
        proof {
            assert(gcd(n as nat, 1) == 1) by {
                assert(n as nat % 1 == 0);
                assert(gcd(1, 0) == 1);
            }
        }
        Quantity { num: n, den: 1 }
    }

    /// The fraction `n / d` in lowest terms; `None` when `d` is zero.
    pub fn ratio(n: u64, d: u64) -> (r: Option<Quantity>)
        ensures
            d == 0 ==> r is None,
            d > 0 ==> r is Some && r->Some_0.wf() && r->Some_0@ == lowest_terms(n as nat, d as nat),
    {
        if d == 0 {
            return None;
        }
        proof {
            lemma_reduce(n as nat, d as nat);
            lemma_div_is_ordered(n as int, u64::MAX as int, gcd(n as nat, d as nat) as int);
            lemma_div_is_ordered(d as int, u64::MAX as int, gcd(n as nat, d as nat) as int);
            assert(u64::MAX as int / (gcd(n as nat, d as nat) as int) <= u64::MAX) by {
                vstd::arithmetic::div_mod::lemma_div_is_ordered_by_denominator(u64::MAX as int, 1, gcd(n as nat, d as nat) as int);
            }
        }
        Quantity::ratio_u128(n as u128, d as u128)
    }

    /// The value of the decimal numeral `s[start..end]` (`"100"`, `"0.25"`),
    /// or `None` where it is no such numeral, its digits do not fit in 64
    /// bits, or it has more than 19 digits after the point.
    pub fn parse_chars(s: &Vec<char>, start: usize, end: usize) -> (r: Option<Quantity>)
        requires
            start <= end <= s@.len(),
        ensures
            match decimal_value(s@.subrange(start as int, end as int)) {
                Some(v) => r is Some && r->Some_0@ == v && r->Some_0.wf(),
                None => r is None,
            },
    {
        match decimal_digits(s, start, end) {
            None => None,
            Some((ds, places)) => {
                proof {
                    let parts = decimal_parts(s@.subrange(start as int, end as int))->Some_0;
                    assert(all_digits(parts.0)) by {
                        let t = s@.subrange(start as int, end as int);
                        let k = leading_digits(t);
                        lemma_leading_digits_are_digits(t);
                        if k < t.len() {
                            let a = t.subrange(0, k as int);
                            let b = t.subrange((k + 1) as int, t.len() as int);
                            assert forall|m: int| 0 <= m < parts.0.len() implies is_digit(#[trigger] parts.0[m]) by {
                                if m < a.len() {
                                    assert(parts.0[m] == t[m]);
                                } else {
                                    assert(parts.0[m] == b[m - a.len()]);
                                }
                            }
                        }
                    }
                }
                if places > 19 {
                    return None;
                }
                match digits_to_u64(&ds) {
                    None => None,
                    Some(m) => {
                        let den = pow10_u64(places as u32);
                        proof {
                            lemma_pow10_monotone(0, places as nat);
                        }
                        Quantity::ratio(m, den)
                    },
                }
            },
        }
    }

    /// The value of the decimal numeral `text`; see `parse_chars`.
    pub fn parse(text: &str) -> (r: Option<Quantity>)
        ensures
            match decimal_value(text@) {
                Some(v) => r is Some && r->Some_0@ == v && r->Some_0.wf(),
                None => r is None,
            },
    {
        let cs = chars_of(text);
        let r = Quantity::parse_chars(&cs, 0, cs.len());
        assert(cs@.subrange(0, cs@.len() as int) =~= text@);
        r
    }

    /// The value of a number in decimal or scientific notation; see
    /// `number_value`.
    pub fn parse_number(text: &str) -> (r: Option<Quantity>)
        ensures
            match number_value(text@) {
                Some(v) => r is Some && r->Some_0@ == v && r->Some_0.wf(),
                None => r is None,
            },
    {
        let cs = chars_of(text);
        let n = cs.len();
        assert(cs@.subrange(0, n as int) =~= text@);
        let i = match find_char_exec(&cs, 'e', 0, n) {
            None => {
                return Quantity::parse(text);
            },
            Some(i) => i,
        };
        let m = match Quantity::parse_chars(&cs, 0, i) {
            None => {
                return None;
            },
            Some(m) => m,
        };
        let ghost e = cs@.subrange(i + 1, n as int);
        let neg = i + 1 < n && cs[i + 1] == '-';
        let start = if i + 1 < n && (cs[i + 1] == '-' || cs[i + 1] == '+') {
            i + 2
        } else {
            i + 1
        };
        proof {
            if start == i + 2 {
                assert(cs@.subrange(start as int, n as int) =~= e.subrange(1, e.len() as int));
            } else {
                assert(cs@.subrange(start as int, n as int) =~= e);
            }
        }
        let k = match Quantity::parse_chars(&cs, start, n) {
            None => {
                return None;
            },
            Some(k) => k,
        };
        if k.denom() != 1 || k.numer() > 19 {
            return None;
        }
        let p = pow10_u64(k.numer() as u32);
        proof {
            Quantity::lemma_bounds(m);
            lemma_product_fits(m.num, p);
            lemma_product_fits(m.den, p);
            lemma_pow10_monotone(0, k@.0);
            assert(m@.1 * pow10(k@.0) > 0) by (nonlinear_arith)
                requires
                    m@.1 > 0,
                    pow10(k@.0) >= 1,
            ;
        }
        if neg && k.numer() > 0 {
            Quantity::ratio_u128(m.numer() as u128, m.denom() as u128 * p as u128)
        } else {
            Quantity::ratio_u128(m.numer() as u128 * p as u128, m.denom() as u128)
        }
    }

    /// Decimal text of the quantity, rounded to `DECIMAL_PLACES` places.
    pub fn to_decimal_string(&self) -> (r: String)
        requires
            self.wf(),
        ensures
            r@ == decimal_text(self@),
    {
        let scale: u128 = 1_000_000_000_000_000;
        proof {
            reveal_with_fuel(pow10, 16);
            assert(pow10(DECIMAL_PLACES as nat) == scale);
            assert(2 * (self.num as nat) * scale + self.den <= u128::MAX) by (nonlinear_arith)
                requires
                    self.num <= u64::MAX,
                    self.den <= u64::MAX,
                    scale == 1_000_000_000_000_000,
            ;
        }
        let s = (2 * (self.num as u128) * scale + self.den as u128) / (2 * self.den as u128);
        let whole = s / scale;
        let mut frac = s % scale;
        let mut out = String::new();
        push_numeral(&mut out, whole);
        if frac != 0 {
            let mut k: u32 = DECIMAL_PLACES;
            while k > 0 && frac % 10 == 0
                invariant
                    trim_zeros(frac as nat, k as nat) == trim_zeros((s % scale) as nat, DECIMAL_PLACES as nat),
                decreases k,
            {
                frac = frac / 10;
                k = k - 1;
            }
            out.append(".");
            proof {
                reveal_strlit(".");
            }
            push_padded_numeral(&mut out, frac, k);
        }
        proof {
            if (s % scale) != 0 {
                assert(out@ =~= decimal_text(self@));
            }
        }
        out
    }

    /// The fraction with 64-bit terms that stands for `n / d`; see
    /// `nearest_fraction`.
    pub fn nearest(n: u128, d: u128) -> (r: Quantity)
        requires
            d > 0,
        ensures
            r.wf(),
            r@ == nearest_fraction(n as nat, d as nat),
    {
        proof {
            lemma_reduce(n as nat, d as nat);
            vstd::arithmetic::div_mod::lemma_div_is_ordered(n as int, u128::MAX as int, gcd(n as nat, d as nat) as int);
            vstd::arithmetic::div_mod::lemma_div_is_ordered(d as int, u128::MAX as int, gcd(n as nat, d as nat) as int);
            vstd::arithmetic::div_mod::lemma_div_is_ordered_by_denominator(u128::MAX as int, 1, gcd(n as nat, d as nat) as int);
        }
        let g = gcd_u128(n, d);
        let a = n / g;
        let b = d / g;
        if a <= u64::MAX as u128 && b <= u64::MAX as u128 {
            return Quantity { num: a as u64, den: b as u64 };
        }
        let w = a / b;
        if w >= u64::MAX as u128 {
            proof {
                assert(gcd(u64::MAX as nat, 1) == gcd(1, 0));
            }
            return Quantity { num: u64::MAX, den: 1 };
        }
        if w >= WHOLE_ONLY {
            proof {
                assert(gcd(w as nat, 1) == gcd(1, 0)) by {
                    assert((w as nat) % 1 == 0);
                }
            }
            return Quantity { num: w as u64, den: 1 };
        }
        let mut p: u128 = 1;
        let ghost mut k: nat = 0;
        proof {
            vstd::arithmetic::power2::lemma2_to64();
            vstd::arithmetic::power2::lemma2_to64_rest();
        }
        while !(a / p <= u64::MAX as u128 && b / p <= u64::MAX as u128)
            invariant
                1 <= p <= 0x1_0000_0000_0000_0000,
                k <= 64,
                p == vstd::arithmetic::power2::pow2(k),
                vstd::arithmetic::power2::pow2(64) == 0x1_0000_0000_0000_0000,
                fit_divisor(a as nat, b as nat, 1) == fit_divisor(a as nat, b as nat, p as nat),
                p > 1 ==> !(a / (p / 2) <= u64::MAX && b / (p / 2) <= u64::MAX),
                p > 1 ==> p % 2 == 0,
            decreases 0x1_0000_0000_0000_0000 - p,
        {
            if p == 0x1_0000_0000_0000_0000 {
                proof {
                    assert(a / p <= u64::MAX) by (nonlinear_arith)
                        requires
                            a <= u128::MAX,
                            p == 0x1_0000_0000_0000_0000,
                    ;
                    assert(b / p <= u64::MAX) by (nonlinear_arith)
                        requires
                            b <= u128::MAX,
                            p == 0x1_0000_0000_0000_0000,
                    ;
                }
            }
            proof {
                assert(k < 64);
                vstd::arithmetic::power2::lemma_pow2_strictly_increases(k, 64);
                vstd::arithmetic::power2::lemma_pow2_unfold(k + 1);
                if k + 1 < 64 {
                    vstd::arithmetic::power2::lemma_pow2_strictly_increases(k + 1, 64);
                }
            }
            p = p * 2;
            proof {
                k = k + 1;
            }
        }
        let nn = a / p;
        let dd = b / p;
        proof {
            lemma_denominator_survives(a as nat, b as nat, w as nat, p as nat);
        }
        let r = Quantity::ratio(nn as u64, dd as u64);
        r.unwrap()
    }

    /// This quantity multiplied by `p / d`: exact where the result fits,
    /// else the nearest fraction as `nearest_fraction` says.
    pub fn scale(&self, p: u64, d: u64) -> (r: Quantity)
        requires
            self.wf(),
            d > 0,
        ensures
            r.wf(),
            r@ == nearest_fraction(self@.0 * (p as nat), self@.1 * (d as nat)),
    {
        proof {
            lemma_product_fits(self.num, p);
            lemma_product_fits(self.den, d);
        }
        let n = self.num as u128 * p as u128;
        let m = self.den as u128 * d as u128;
        assert(m > 0) by (nonlinear_arith)
            requires
                m == self.den * d,
                self.den > 0,
                d > 0,
        ;
        Quantity::nearest(n, m)
    }

    /// Whether the quantity is zero.
    pub fn is_zero(&self) -> (r: bool)
        ensures
            r == (self@.0 == 0),
    {
        self.num == 0
    }
}

} // verus!

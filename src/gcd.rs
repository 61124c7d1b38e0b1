//! Greatest common divisors of natural numbers, and the facts about them
//! that keep fractions in lowest terms.

use vstd::prelude::*;
use vstd::arithmetic::div_mod::{
    lemma_fundamental_div_mod, lemma_mod_multiples_basic, lemma_truncate_middle,
};

verus! {

/// Euclid's greatest common divisor; `gcd(0, 0) == 0`.
pub open spec fn gcd(a: nat, b: nat) -> nat
    decreases b,
{
    if b == 0 {
        a
    } else {
        gcd(b, a % b)
    }
}

/// `k` divides `n` (with `k` positive).
pub open spec fn divides(k: nat, n: nat) -> bool {
    k > 0 && n % k == 0
}

proof fn lemma_divides_linear(k: nat, x: nat, y: nat, c: nat)
    requires
        divides(k, x),
        divides(k, y),
    ensures
        divides(k, c * x + y),
{
    lemma_fundamental_div_mod(x as int, k as int);
    lemma_fundamental_div_mod(y as int, k as int);
    let qx = x / k;
    let qy = y / k;
    assert(c * x + y == (c * qx + qy) * k) by (nonlinear_arith)
        requires
            x == k * qx,
            y == k * qy,
    ;
    lemma_mod_multiples_basic((c * qx + qy) as int, k as int);
}

proof fn lemma_divides_remainder(k: nat, a: nat, b: nat)
    requires
        divides(k, a),
        divides(k, b),
        b > 0,
    ensures
        divides(k, a % b),
{
    lemma_fundamental_div_mod(a as int, b as int);
    lemma_fundamental_div_mod(a as int, k as int);
    lemma_fundamental_div_mod(b as int, k as int);
    let qa = a / k;
    let qb = b / k;
    let q = a / b;
    let r = a % b;
    let m: int = qa - q * qb;
    assert(r == k * m) by (nonlinear_arith)
        requires
            a == b * q + r,
            a == k * qa,
            b == k * qb,
            m == qa - q * qb,
    ;
    assert(m >= 0) by (nonlinear_arith)
        requires
            r == k * m,
            r >= 0,
            k > 0,
    ;
    lemma_mod_multiples_basic(m, k as int);
    assert((m * k) == r) by (nonlinear_arith)
        requires
            r == k * m,
    ;
}

/// The greatest common divisor divides both arguments, and is positive
/// unless both are zero.
pub proof fn lemma_gcd_divides(a: nat, b: nat)
    requires
        a > 0 || b > 0,
    ensures
        gcd(a, b) > 0,
        divides(gcd(a, b), a),
        divides(gcd(a, b), b),
    decreases b,
{
    if b == 0 {
        assert(a % a == 0) by {
            lemma_mod_multiples_basic(1, a as int);
        }
        assert(0nat % a == 0);
    } else {
        lemma_gcd_divides(b, a % b);
        let g = gcd(b, a % b);
        lemma_fundamental_div_mod(a as int, b as int);
        lemma_divides_linear(g, b, a % b, a / b);
        assert(a == (a / b) * b + a % b) by (nonlinear_arith)
            requires
                a == b * (a / b) + a % b,
        ;
    }
}

/// Every common divisor of `a` and `b` divides their greatest common divisor.
pub proof fn lemma_common_divisor_divides_gcd(a: nat, b: nat, k: nat)
    requires
        divides(k, a),
        divides(k, b),
    ensures
        divides(k, gcd(a, b)),
    decreases b,
{
    if b > 0 {
        lemma_divides_remainder(k, a, b);
        lemma_common_divisor_divides_gcd(b, a % b, k);
    }
}

/// Scaling both arguments scales the greatest common divisor.
pub proof fn lemma_gcd_scale(a: nat, b: nat, s: nat)
    requires
        s > 0,
    ensures
        gcd(a * s, b * s) == gcd(a, b) * s,
    decreases b,
{
    if b == 0 {
        assert(b * s == 0);
    } else {
        assert(b * s > 0) by (nonlinear_arith)
            requires
                b > 0,
                s > 0,
        ;
        lemma_truncate_middle(a as int, s as int, b as int);
        assert((a * s) % (b * s) == (a % b) * s) by (nonlinear_arith)
            requires
                (s * a) % (s * b) == s * (a % b),
        ;
        lemma_gcd_scale(b, a % b, s);
    }
}

/// A fraction `a / b` in lowest terms is the only one of its value:
/// two fractions in lowest terms with equal cross products are equal.
pub proof fn lemma_lowest_terms_unique(a: nat, b: nat, c: nat, d: nat)
    requires
        b > 0,
        d > 0,
        gcd(a, b) == 1,
        gcd(c, d) == 1,
        a * d == c * b,
    ensures
        a == c,
        b == d,
{
    lemma_gcd_scale(a, b, d);
    lemma_gcd_scale(c, d, b);
    assert(divides(b, a * d)) by {
        lemma_mod_multiples_basic(c as int, b as int);
    }
    assert(divides(b, b * d)) by {
        lemma_mod_multiples_basic(d as int, b as int);
        assert(b * d == d * b) by (nonlinear_arith);
    }
    lemma_common_divisor_divides_gcd(a * d, b * d, b);
    assert(divides(d, c * b)) by {
        lemma_mod_multiples_basic(a as int, d as int);
        assert(c * b == a * d);
    }
    assert(divides(d, d * b)) by {
        lemma_mod_multiples_basic(b as int, d as int);
        assert(d * b == b * d) by (nonlinear_arith);
    }
    lemma_common_divisor_divides_gcd(c * b, d * b, d);
    // b divides d and d divides b
    lemma_fundamental_div_mod(d as int, b as int);
    lemma_fundamental_div_mod(b as int, d as int);
    assert(b == d) by (nonlinear_arith)
        requires
            d == b * (d / b),
            b == d * (b / d),
            b > 0,
            d > 0,
    ;
    assert(a == c) by (nonlinear_arith)
        requires
            a * d == c * b,
            b == d,
            d > 0,
    ;
}

/// The greatest common divisor does not depend on the order of arguments.
pub proof fn lemma_gcd_symmetric(a: nat, b: nat)
    ensures
        gcd(a, b) == gcd(b, a),
{
    if b == 0 {
        if a > 0 {
            assert(0nat % a == 0);
            assert(gcd(0, a) == gcd(a, 0));
        }
    } else if a == 0 {
        assert(0nat % b == 0);
        assert(gcd(0, b) == gcd(b, 0));
    } else if a < b {
        assert(a % b == a) by {
            vstd::arithmetic::div_mod::lemma_small_mod(a, b);
        }
    } else if a > b {
        assert(b % a == b) by {
            vstd::arithmetic::div_mod::lemma_small_mod(b, a);
        }
    }
}

/// Dividing both terms by their greatest common divisor gives a fraction in
/// lowest terms of the same value.
pub proof fn lemma_reduce(n: nat, d: nat)
    requires
        d > 0,
    ensures
        gcd(n, d) > 0,
        gcd(n / gcd(n, d), d / gcd(n, d)) == 1,
        d / gcd(n, d) > 0,
        (n / gcd(n, d)) * d == n * (d / gcd(n, d)),
{
    lemma_gcd_divides(n, d);
    let g = gcd(n, d);
    lemma_fundamental_div_mod(n as int, g as int);
    lemma_fundamental_div_mod(d as int, g as int);
    let x = n / g;
    let y = d / g;
    assert(n == x * g && d == y * g) by (nonlinear_arith)
        requires
            n == g * x + 0,
            d == g * y + 0,
    ;
    lemma_gcd_scale(x, y, g);
    assert(gcd(x, y) == 1) by (nonlinear_arith)
        requires
            g == gcd(x, y) * g,
            g > 0,
    ;
    assert(y > 0) by (nonlinear_arith)
        requires
            d == y * g,
            d > 0,
    ;
    assert(x * d == n * y) by (nonlinear_arith)
        requires
            n == x * g,
            d == y * g,
    ;
}

} // verus!

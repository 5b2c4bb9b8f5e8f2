//! Greatest-common-divisor arithmetic: the spec-level `gcd` function, the
//! reduced form of a numerator/denominator pair, and the lemmas that justify
//! reducing a fraction to lowest terms.

use vstd::arithmetic::div_mod::{
    lemma_add_mod_noop, lemma_fundamental_div_mod, lemma_mod_is_zero, lemma_mod_multiples_basic,
    lemma_mod_self_0, lemma_small_mod, lemma_sub_mod_noop,
};
use vstd::prelude::*;

verus! {

/// Greatest common divisor by the classical Euclidean recursion:
/// `gcd(a, 0) == a`, and otherwise `gcd(a, b) == gcd(b, a % b)`.
pub open spec fn gcd(a: nat, b: nat) -> nat
    decreases b,
{
    if b == 0 {
        a
    } else {
        gcd(b, a % b)
    }
}

/// The numerator of the pair `(n, d)` after division by `gcd(n, d)`.
pub open spec fn reduced_num(n: nat, d: nat) -> nat {
    n / gcd(n, d)
}

/// The denominator of the pair `(n, d)` after division by `gcd(n, d)`.
pub open spec fn reduced_den(n: nat, d: nat) -> nat {
    d / gcd(n, d)
}

/// A multiple of a multiple of `g` is itself a multiple of `g`.
proof fn lemma_mul_multiple(g: nat, x: nat, k: nat)
    requires
        g > 0,
        x % g == 0,
    ensures
        (x * k) % g == 0,
{
    lemma_fundamental_div_mod(x as int, g as int);
    assert(x * k == ((x / g) * k) * g) by (nonlinear_arith)
        requires
            x == g * (x / g),
    ;
    lemma_mod_multiples_basic(((x / g) * k) as int, g as int);
}

/// The sum of two multiples of `g` is a multiple of `g`.
proof fn lemma_add_multiple(g: nat, x: nat, y: nat)
    requires
        g > 0,
        x % g == 0,
        y % g == 0,
    ensures
        (x + y) % g == 0,
{
    lemma_add_mod_noop(x as int, y as int, g as int);
    lemma_small_mod(0, g);
}

/// The difference of two multiples of `g` is a multiple of `g`.
proof fn lemma_sub_multiple(g: nat, x: nat, y: nat)
    requires
        g > 0,
        y <= x,
        x % g == 0,
        y % g == 0,
    ensures
        ((x - y) as nat) % g == 0,
{
    lemma_sub_mod_noop(x as int, y as int, g as int);
    lemma_small_mod(0, g);
}

/// The gcd of two numbers, not both zero, is positive and divides both.
pub proof fn lemma_gcd_divides(a: nat, b: nat)
    requires
        a > 0 || b > 0,
    ensures
        gcd(a, b) > 0,
        a % gcd(a, b) == 0,
        b % gcd(a, b) == 0,
    decreases b,
{
    let g = gcd(a, b);
    if b == 0 {
        lemma_mod_self_0(a as int);
        lemma_small_mod(0, a);
    } else {
        lemma_gcd_divides(b, a % b);
        lemma_fundamental_div_mod(a as int, b as int);
        assert(a == b * (a / b) + a % b);
        lemma_mul_multiple(g, b, a / b);
        lemma_add_multiple(g, b * (a / b), a % b);
    }
}

/// Every common divisor of `a` and `b` divides `gcd(a, b)`.
pub proof fn lemma_common_divisor_divides_gcd(a: nat, b: nat, c: nat)
    requires
        c > 0,
        a % c == 0,
        b % c == 0,
    ensures
        gcd(a, b) % c == 0,
    decreases b,
{
    if b != 0 {
        lemma_fundamental_div_mod(a as int, b as int);
        assert(a == b * (a / b) + a % b);
        lemma_mul_multiple(c, b, a / b);
        lemma_sub_multiple(c, a, b * (a / b));
        assert(a % b == a - b * (a / b));
        lemma_common_divisor_divides_gcd(b, a % b, c);
    }
}

/// Dividing a pair with a positive second component by its gcd leaves a pair
/// whose gcd is 1: the reduced form is in lowest terms.
pub proof fn lemma_reduced_coprime(n: nat, d: nat)
    requires
        d > 0,
    ensures
        gcd(reduced_num(n, d), reduced_den(n, d)) == 1,
{
    let g = gcd(n, d);
    lemma_gcd_divides(n, d);
    let n1 = n / g;
    let d1 = d / g;
    lemma_fundamental_div_mod(n as int, g as int);
    lemma_fundamental_div_mod(d as int, g as int);
    assert(n == g * n1);
    assert(d == g * d1);
    assert(d1 > 0) by (nonlinear_arith)
        requires
            d == g * d1,
            d > 0,
    ;
    let c = gcd(n1, d1);
    lemma_gcd_divides(n1, d1);
    lemma_fundamental_div_mod(n1 as int, c as int);
    lemma_fundamental_div_mod(d1 as int, c as int);
    assert(g * c > 0) by (nonlinear_arith)
        requires
            g > 0,
            c > 0,
    ;
    assert(n == (n1 / c) * (g * c)) by (nonlinear_arith)
        requires
            n == g * n1,
            n1 == c * (n1 / c),
    ;
    assert(d == (d1 / c) * (g * c)) by (nonlinear_arith)
        requires
            d == g * d1,
            d1 == c * (d1 / c),
    ;
    lemma_mod_multiples_basic((n1 / c) as int, (g * c) as int);
    lemma_mod_multiples_basic((d1 / c) as int, (g * c) as int);
    lemma_common_divisor_divides_gcd(n, d, g * c);
    lemma_mod_is_zero(g, g * c);
    assert(c <= 1) by (nonlinear_arith)
        requires
            g >= g * c,
            g > 0,
            c > 0,
    ;
}

/// Reducing a pair by its gcd keeps the same ratio: the cross-products of the
/// reduced pair with the pair given are equal.
pub proof fn lemma_reduced_same_ratio(n: nat, d: nat)
    requires
        d > 0,
    ensures
        reduced_num(n, d) * d == n * reduced_den(n, d),
{
    let g = gcd(n, d);
    lemma_gcd_divides(n, d);
    lemma_fundamental_div_mod(n as int, g as int);
    lemma_fundamental_div_mod(d as int, g as int);
    assert((n / g) * d == n * (d / g)) by (nonlinear_arith)
        requires
            n == g * (n / g),
            d == g * (d / g),
    ;
}

/// The reduced pair stays within the bounds of the pair given, and its
/// denominator stays positive.
pub proof fn lemma_reduced_bounds(n: nat, d: nat)
    requires
        d > 0,
    ensures
        reduced_num(n, d) <= n,
        reduced_den(n, d) <= d,
        reduced_den(n, d) > 0,
{
    let g = gcd(n, d);
    lemma_gcd_divides(n, d);
    lemma_fundamental_div_mod(n as int, g as int);
    lemma_fundamental_div_mod(d as int, g as int);
    assert(n / g <= n && d / g <= d && d / g > 0) by (nonlinear_arith)
        requires
            n == g * (n / g),
            d == g * (d / g),
            g > 0,
            d > 0,
    ;
}

/// A pair that is already in lowest terms is left unchanged by reduction.
pub proof fn lemma_reduced_identity(n: nat, d: nat)
    requires
        gcd(n, d) == 1,
    ensures
        reduced_num(n, d) == n,
        reduced_den(n, d) == d,
{
}

} // verus!

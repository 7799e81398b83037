//! Units modulo `n`: when inverses exist, and how signed powers of a unit
//! multiply.

use vstd::prelude::*;
use vstd::arithmetic::div_mod::*;
use crate::arith::{
    lemma_bezout, lemma_mod_exp_add, lemma_mod_exp_base, lemma_mod_exp_bound,
    lemma_mod_exp_distributes, lemma_mod_exp_mul, lemma_mod_exp_of_one, lemma_mod_exp_small,
    lemma_mul_mod_assoc, lemma_mul_mod_one,
};
use crate::bignum::{gcd, mod_exp};
use crate::groups::rsa_group::{is_mod_inverse, lemma_mod_inverse_unique, mod_inverse, signed_mod_exp};

verus! {

/// A number coprime to `n` has an inverse modulo `n`.
pub proof fn lemma_mod_inverse_exists(a: nat, n: nat)
    requires
        n > 0,
        gcd(a, n) == 1,
    ensures
        is_mod_inverse(a, mod_inverse(a, n), n),
{
    let (x, y) = lemma_bezout(a, n);
    let ni = n as int;
    let x0 = (x % ni) as nat;
    lemma_mul_mod_noop_right(a as int, x, ni);
    assert(a * x == ni * (-y) + 1) by (nonlinear_arith)
        requires
            a * x + n * y == 1,
            ni == n,
    ;
    lemma_mod_multiples_vanish(-y, 1, ni);
    assert(is_mod_inverse(a, x0, n));
}

/// `gcd(a, b)` divides both `a` and `b`.
pub proof fn lemma_gcd_divides(a: nat, b: nat)
    requires
        a > 0 || b > 0,
    ensures
        gcd(a, b) > 0,
        a % gcd(a, b) == 0,
        b % gcd(a, b) == 0,
    decreases b,
{
    if b == 0 {
        lemma_mod_self_0(a as int);
        lemma_small_mod(0, a);
    } else {
        lemma_gcd_divides(b, a % b);
        let d = gcd(a, b);
        lemma_fundamental_div_mod(a as int, b as int);
        let q = (a as int) / (b as int);
        let r = (a % b) as int;
        lemma_fundamental_div_mod(b as int, d as int);
        lemma_fundamental_div_mod(r, d as int);
        let k1 = (b as int) / (d as int);
        let k2 = r / (d as int);
        assert(a as int == d * (k1 * q + k2)) by (nonlinear_arith)
            requires
                a as int == b * q + r,
                b as int == d * k1,
                r == d * k2,
        ;
        lemma_mod_multiples_vanish(k1 * q + k2, 0, d as int);
        lemma_small_mod(0, d);
    }
}

/// A number with an inverse modulo `n` is coprime to `n`.
pub proof fn lemma_invertible_coprime(a: nat, x: nat, n: nat)
    requires
        n > 0,
        (a * x) % n == 1nat % n,
    ensures
        gcd(a, n) == 1,
{
    lemma_gcd_divides(a, n);
    let d = gcd(a, n);
    if d != 1 {
        let ni = n as int;
        let di = d as int;
        lemma_fundamental_div_mod(a as int, di);
        lemma_fundamental_div_mod(ni, di);
        lemma_fundamental_div_mod((a * x) as int, ni);
        let ka = (a as int) / di;
        let kn = ni / di;
        let q = ((a * x) as int) / ni;
        let one = 1int % ni;
        if n == 1 {
            assert(gcd(a, n) == gcd(1, a % 1));
            assert(a % 1 == 0);
            assert(gcd(1, 0) == 1);
        } else {
            lemma_small_mod(1, n);
            assert(1 == di * (ka * x - q * kn)) by (nonlinear_arith)
                requires
                    (a * x) as int == ni * q + 1,
                    a as int == di * ka,
                    ni == di * kn,
            ;
            assert(di > 1);
            assert(false) by (nonlinear_arith)
                requires
                    1 == di * (ka * x - q * kn),
                    di > 1,
            ;
        }
    }
}

/// The inverse modulo `n` of a unit's power is the power of its inverse,
/// and the power is a unit too.
pub proof fn lemma_inverse_of_power(g: nat, k: nat, n: nat)
    requires
        n > 0,
        gcd(g, n) == 1,
    ensures
        is_mod_inverse(mod_exp(g, k, n), mod_exp(mod_inverse(g, n), k, n), n),
        mod_inverse(mod_exp(g, k, n), n) == mod_exp(mod_inverse(g, n), k, n),
        gcd(mod_exp(g, k, n), n) == 1,
{
    lemma_mod_inverse_exists(g, n);
    let gi = mod_inverse(g, n);
    let h = mod_exp(g, k, n);
    let hi = mod_exp(gi, k, n);
    lemma_mod_exp_distributes(g, gi, k, n);
    lemma_mod_exp_base(1, k, n);
    lemma_mod_exp_of_one(k, n);
    lemma_mod_exp_bound(gi, k, n);
    assert(is_mod_inverse(h, hi, n));
    lemma_invertible_coprime(h, hi, n);
    lemma_mod_inverse_exists(h, n);
    lemma_mod_inverse_unique(h, mod_inverse(h, n), hi, n);
}

/// `(g^k * g^-k) mod n == 1 mod n` for a unit `g`.
proof fn lemma_power_cancels(g: nat, k: nat, n: nat)
    requires
        n > 0,
        gcd(g, n) == 1,
    ensures
        (mod_exp(g, k, n) * mod_exp(mod_inverse(g, n), k, n)) % n == 1nat % n,
        (mod_exp(mod_inverse(g, n), k, n) * mod_exp(g, k, n)) % n == 1nat % n,
{
    lemma_inverse_of_power(g, k, n);
    assert(mod_exp(mod_inverse(g, n), k, n) * mod_exp(g, k, n) == mod_exp(g, k, n) * mod_exp(
        mod_inverse(g, n),
        k,
        n,
    )) by (nonlinear_arith);
}

/// `g^s * g^-m == g^(s - m)` modulo `n` for a unit `g` and `s, m >= 0`.
proof fn lemma_signed_exp_add_mixed(g: nat, s: nat, m: nat, n: nat)
    requires
        n > 0,
        gcd(g, n) == 1,
    ensures
        (mod_exp(g, s, n) * mod_exp(mod_inverse(g, n), m, n)) % n == signed_mod_exp(
            g,
            s - m,
            n,
        ),
{
    let gi = mod_inverse(g, n);
    let ni = n as int;
    if s >= m {
        let d = (s - m) as nat;
        lemma_mod_exp_add(g, d, m, n);
        assert(d + m == s);
        lemma_mul_mod_assoc(mod_exp(g, d, n) as int, mod_exp(g, m, n) as int, mod_exp(gi, m, n) as int, ni);
        lemma_power_cancels(g, m, n);
        lemma_mul_mod_one(mod_exp(g, d, n) as int, ni);
        lemma_mod_exp_bound(g, d, n);
        lemma_small_mod(mod_exp(g, d, n), n);
    } else {
        let d = (m - s) as nat;
        lemma_mod_exp_add(gi, d, s, n);
        assert(d + s == m);
        let a = mod_exp(gi, d, n) as int;
        let b = mod_exp(gi, s, n) as int;
        let c = mod_exp(g, s, n) as int;
        assert(c * ((a * b) % ni) == ((a * b) % ni) * c) by (nonlinear_arith);
        lemma_mul_mod_assoc(a, b, c, ni);
        lemma_power_cancels(g, s, n);
        lemma_mul_mod_one(a, ni);
        lemma_mod_exp_bound(gi, d, n);
        lemma_small_mod(mod_exp(gi, d, n), n);
    }
}

/// Signed powers of a unit multiply by adding exponents:
/// `g^s * g^t == g^(s + t)` modulo `n`.
pub proof fn lemma_signed_exp_add(g: nat, s: int, t: int, n: nat)
    requires
        n > 0,
        gcd(g, n) == 1,
    ensures
        (signed_mod_exp(g, s, n) * signed_mod_exp(g, t, n)) % n == signed_mod_exp(g, s + t, n),
{
    let gi = mod_inverse(g, n);
    if s >= 0 && t >= 0 {
        lemma_mod_exp_add(g, s as nat, t as nat, n);
    } else if s < 0 && t < 0 {
        lemma_mod_exp_add(gi, (-s) as nat, (-t) as nat, n);
    } else if s >= 0 {
        lemma_signed_exp_add_mixed(g, s as nat, (-t) as nat, n);
    } else {
        lemma_signed_exp_add_mixed(g, t as nat, (-s) as nat, n);
        assert(signed_mod_exp(g, s, n) * signed_mod_exp(g, t, n) == signed_mod_exp(g, t, n)
            * signed_mod_exp(g, s, n)) by (nonlinear_arith);
    }
}

/// A signed power of a power of a unit multiplies the exponents:
/// `(g^p)^a == g^(p * a)` modulo `n`.
pub proof fn lemma_signed_exp_of_power(g: nat, p: nat, a: int, n: nat)
    requires
        n > 0,
        gcd(g, n) == 1,
    ensures
        signed_mod_exp(mod_exp(g, p, n), a, n) == signed_mod_exp(g, p * a, n),
        gcd(mod_exp(g, p, n), n) == 1,
{
    lemma_inverse_of_power(g, p, n);
    if a >= 0 {
        lemma_mod_exp_mul(g, p, a as nat, n);
        assert(p * a >= 0) by (nonlinear_arith)
            requires
                a >= 0,
        ;
    } else {
        let gi = mod_inverse(g, n);
        lemma_mod_exp_mul(gi, p, (-a) as nat, n);
        assert(p * (-a) == -(p * a)) by (nonlinear_arith);
        if p == 0 {
            lemma_mod_exp_small(g, n);
            lemma_mod_exp_small(gi, n);
        } else {
            assert(p * a < 0) by (nonlinear_arith)
                requires
                    p > 0,
                    a < 0,
            ;
        }
    }
}

/// A power of a signed power of a unit multiplies the exponents:
/// `(g^b)^x == g^(b * x)` modulo `n`.
pub proof fn lemma_power_of_signed_exp(g: nat, b: int, x: nat, n: nat)
    requires
        n > 0,
        gcd(g, n) == 1,
    ensures
        mod_exp(signed_mod_exp(g, b, n), x, n) == signed_mod_exp(g, b * x, n),
{
    if b >= 0 {
        lemma_mod_exp_mul(g, b as nat, x, n);
        assert(b * x >= 0) by (nonlinear_arith)
            requires
                b >= 0,
        ;
    } else {
        let gi = mod_inverse(g, n);
        lemma_mod_exp_mul(gi, (-b) as nat, x, n);
        assert((-b) * x == -(b * x)) by (nonlinear_arith);
        if x == 0 {
            lemma_mod_exp_small(g, n);
            lemma_mod_exp_small(gi, n);
        } else {
            assert(b * x < 0) by (nonlinear_arith)
                requires
                    x > 0,
                    b < 0,
            ;
        }
    }
}

} // verus!

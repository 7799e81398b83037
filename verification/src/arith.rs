//! Modular exponentiation and prime number facts used by the proofs.

use vstd::prelude::*;
use vstd::arithmetic::power::*;
use vstd::arithmetic::div_mod::*;
use vstd::arithmetic::mul::*;
use crate::bignum::{mod_exp, is_prime, gcd};

verus! {

/// Powers of a natural number are natural numbers.
pub proof fn lemma_pow_nonneg(b: nat, e: nat)
    ensures
        pow(b as int, e) >= 0,
    decreases e,
{
    reveal(pow);
    if e > 0 {
        lemma_pow_nonneg(b, (e - 1) as nat);
        lemma_mul_nonnegative(b as int, pow(b as int, (e - 1) as nat));
    }
}

/// `mod_exp` is below the modulus.
pub proof fn lemma_mod_exp_bound(b: nat, e: nat, n: nat)
    requires
        n > 0,
    ensures
        mod_exp(b, e, n) < n,
        mod_exp(b, e, n) as int == pow(b as int, e) % (n as int),
{
    lemma_pow_nonneg(b, e);
    lemma_mod_bound(pow(b as int, e), n as int);
}

/// Reducing the base first does not change `mod_exp`.
pub proof fn lemma_mod_exp_base(b: nat, e: nat, n: nat)
    requires
        n > 0,
    ensures
        mod_exp(b % n, e, n) == mod_exp(b, e, n),
{
    lemma_pow_mod_noop(b as int, e, n as int);
    lemma_mod_exp_bound(b, e, n);
    lemma_mod_exp_bound(b % n, e, n);
}

/// `b^0 mod n` and `b^1 mod n`.
pub proof fn lemma_mod_exp_small(b: nat, n: nat)
    requires
        n > 0,
    ensures
        mod_exp(b, 0, n) == 1nat % n,
        mod_exp(b, 1, n) == b % n,
{
    reveal(pow);
    lemma_pow1(b as int);
    lemma_mod_exp_bound(b, 0, n);
    lemma_mod_exp_bound(b, 1, n);
}

/// `(b^e1 mod n)^e2 mod n == b^(e1 * e2) mod n`.
pub proof fn lemma_mod_exp_mul(b: nat, e1: nat, e2: nat, n: nat)
    requires
        n > 0,
    ensures
        mod_exp(mod_exp(b, e1, n), e2, n) == mod_exp(b, e1 * e2, n),
{
    lemma_mod_exp_bound(b, e1, n);
    lemma_pow_nonneg(b, e1);
    let p = pow(b as int, e1);
    lemma_pow_mod_noop(p, e2, n as int);
    lemma_pow_multiplies(b as int, e1, e2);
    lemma_mod_exp_bound(mod_exp(b, e1, n), e2, n);
    lemma_mod_exp_bound(b, e1 * e2, n);
}

/// `(b^e1 mod n) * (b^e2 mod n) mod n == b^(e1 + e2) mod n`.
pub proof fn lemma_mod_exp_add(b: nat, e1: nat, e2: nat, n: nat)
    requires
        n > 0,
    ensures
        (mod_exp(b, e1, n) * mod_exp(b, e2, n)) % n == mod_exp(b, e1 + e2, n),
{
    lemma_mod_exp_bound(b, e1, n);
    lemma_mod_exp_bound(b, e2, n);
    lemma_mod_exp_bound(b, e1 + e2, n);
    lemma_pow_adds(b as int, e1, e2);
    lemma_mul_mod_noop_general(pow(b as int, e1), pow(b as int, e2), n as int);
}

/// `(a * b mod n)^e mod n == (a^e mod n) * (b^e mod n) mod n`.
pub proof fn lemma_mod_exp_distributes(a: nat, b: nat, e: nat, n: nat)
    requires
        n > 0,
    ensures
        mod_exp((a * b) % n, e, n) == (mod_exp(a, e, n) * mod_exp(b, e, n)) % n,
{
    lemma_mod_exp_base(a * b, e, n);
    lemma_pow_distributes(a as int, b as int, e);
    lemma_mod_exp_bound(a * b, e, n);
    lemma_mod_exp_bound(a, e, n);
    lemma_mod_exp_bound(b, e, n);
    lemma_mul_mod_noop_general(pow(a as int, e), pow(b as int, e), n as int);
}

/// When `b^o = 1 (mod n)`, exponents of `b` count modulo `o`.
pub proof fn lemma_mod_exp_order(b: nat, o: nat, e: nat, n: nat)
    requires
        n > 0,
        o > 0,
        mod_exp(b, o, n) == 1nat % n,
    ensures
        mod_exp(b, e, n) == mod_exp(b, e % o, n),
    decreases e,
{
    if e >= o {
        let e1 = (e - o) as nat;
        lemma_mod_exp_order(b, o, e1, n);
        lemma_mod_exp_add(b, o, e1, n);
        lemma_mod_exp_bound(b, e1, n);
        if n == 1 {
            lemma_mod_exp_bound(b, e, n);
            lemma_mod_exp_bound(b, e % o, n);
        } else {
            lemma_small_mod(1, n);
            lemma_small_mod(mod_exp(b, e1, n), n);
        }
        lemma_mod_add_multiples_vanish(e1 as int, o as int);
        assert(e % o == e1 % o);
    } else {
        lemma_small_mod(e, o);
    }
}

/// `1^e mod n == 1 mod n`.
pub proof fn lemma_mod_exp_of_one(e: nat, n: nat)
    requires
        n > 0,
    ensures
        mod_exp(1, e, n) == 1nat % n,
{
    lemma1_pow(e);
    lemma_mod_exp_bound(1, e, n);
}

/// Every natural number above one has a prime factor.
pub proof fn lemma_prime_factor(m: nat) -> (p: nat)
    requires
        m > 1,
    ensures
        is_prime(p),
        m % p == 0,
    decreases m,
{
    if is_prime(m) {
        lemma_mod_self_0(m as int);
        m
    } else {
        let d = choose|d: nat| 1 < d < m && #[trigger] (m % d) == 0;
        let p = lemma_prime_factor(d);
        lemma_fundamental_div_mod(m as int, d as int);
        lemma_fundamental_div_mod(d as int, p as int);
        let k1 = m / d;
        let k2 = d / p;
        assert(m == p * (k2 * k1)) by {
            lemma_mul_is_associative(p as int, k2 as int, k1 as int);
            lemma_mul_is_commutative(d as int, k1 as int);
        }
        lemma_mod_multiples_basic((k2 * k1) as int, p as int);
        lemma_mul_is_commutative(p as int, (k2 * k1) as int);
        p
    }
}

/// `n!`.
pub open spec fn factorial(n: nat) -> nat
    decreases n,
{
    if n == 0 {
        1
    } else {
        n * factorial((n - 1) as nat)
    }
}

/// `n!` is positive and a multiple of every `k` in `1..=n`.
proof fn lemma_factorial_divisible(n: nat, k: nat)
    requires
        1 <= k <= n,
    ensures
        factorial(n) % k == 0,
        factorial(n) > 0,
    decreases n,
{
    lemma_factorial_positive(n);
    if k == n {
        lemma_mul_is_commutative(n as int, factorial((n - 1) as nat) as int);
        lemma_mod_multiples_basic(factorial((n - 1) as nat) as int, n as int);
    } else {
        lemma_factorial_divisible((n - 1) as nat, k);
        let f = factorial((n - 1) as nat);
        lemma_fundamental_div_mod(f as int, k as int);
        assert(factorial(n) == k * (n * (f / k))) by {
            lemma_mul_is_associative(n as int, k as int, (f / k) as int);
            lemma_mul_is_commutative(n as int, k as int);
            lemma_mul_is_associative(k as int, n as int, (f / k) as int);
        }
        lemma_mul_is_commutative(k as int, (n * (f / k)) as int);
        lemma_mod_multiples_basic((n * (f / k)) as int, k as int);
    }
}

proof fn lemma_factorial_positive(n: nat)
    ensures
        factorial(n) > 0,
    decreases n,
{
    if n > 0 {
        lemma_factorial_positive((n - 1) as nat);
        lemma_mul_strictly_positive(n as int, factorial((n - 1) as nat) as int);
    }
}

/// There is a prime above every natural number.
pub proof fn lemma_prime_above(n: nat) -> (p: nat)
    ensures
        is_prime(p),
        p > n,
{
    let m = factorial(n) + 1;
    lemma_factorial_positive(n);
    let p = lemma_prime_factor(m);
    if p <= n {
        lemma_factorial_divisible(n, p);
        lemma_fundamental_div_mod(factorial(n) as int, p as int);
        lemma_fundamental_div_mod(m as int, p as int);
        let q1 = factorial(n) / p;
        let q2 = m / p;
        assert(p * (q2 - q1) == 1) by {
            lemma_mul_is_distributive_sub(p as int, q2 as int, q1 as int);
        }
        if q2 - q1 <= 0 {
            lemma_mul_nonpositive_right(p as int, q2 - q1);
        } else {
            lemma_mul_increases(q2 - q1, p as int);
            lemma_mul_is_commutative(p as int, q2 - q1);
        }
    }
    p
}

proof fn lemma_mul_nonpositive_right(a: int, b: int)
    requires
        a >= 0,
        b <= 0,
    ensures
        a * b <= 0,
{
    lemma_mul_nonnegative(a, -b);
    lemma_mul_unary_negation(a, -b);
}

/// The least prime at or above `n`.
pub proof fn lemma_least_prime_at_least(n: nat) -> (p: nat)
    ensures
        is_prime(p),
        p >= n,
        forall|q: nat| n <= q < p ==> !is_prime(q),
{
    let bound = lemma_prime_above(n);
    lemma_least_prime_between(n, bound)
}

proof fn lemma_least_prime_between(n: nat, bound: nat) -> (p: nat)
    requires
        is_prime(bound),
        n <= bound,
    ensures
        is_prime(p),
        n <= p <= bound,
        forall|q: nat| n <= q < p ==> !is_prime(q),
    decreases bound - n,
{
    if is_prime(n) {
        n
    } else {
        lemma_least_prime_between(n + 1, bound)
    }
}


/// Bezout's identity: `a * x + b * y == gcd(a, b)` for some integers.
pub proof fn lemma_bezout(a: nat, b: nat) -> (c: (int, int))
    ensures
        a * c.0 + b * c.1 == gcd(a, b),
    decreases b,
{
    if b == 0 {
        (1, 0)
    } else {
        let (x, y) = lemma_bezout(b, a % b);
        lemma_fundamental_div_mod(a as int, b as int);
        let q = (a as int) / (b as int);
        let r = (a % b) as int;
        assert(a * y + b * (x - q * y) == b * x + r * y) by (nonlinear_arith)
            requires
                a as int == b * q + r,
        ;
        (y, x - q * y)
    }
}

/// Multiplication modulo `n` is associative.
pub proof fn lemma_mul_mod_assoc(x: int, y: int, z: int, n: int)
    requires
        n > 0,
    ensures
        (((x * y) % n) * z) % n == (x * ((y * z) % n)) % n,
{
    lemma_mul_mod_noop_left(x * y, z, n);
    lemma_mul_mod_noop_right(x, y * z, n);
    assert((x * y) * z == x * (y * z)) by (nonlinear_arith);
}

/// Multiplying by one modulo `n` reduces modulo `n`.
pub proof fn lemma_mul_mod_one(x: int, n: int)
    requires
        n > 0,
    ensures
        (x * (1int % n)) % n == x % n,
{
    if n == 1 {
        assert(1int % n == 0);
        assert(x % n == 0);
    } else {
        lemma_small_mod(1, n as nat);
    }
}

/// `b^1 mod n == b` for `b < n`.
pub proof fn lemma_mod_exp_one(b: nat, n: nat)
    requires
        n > 0,
        b < n,
    ensures
        mod_exp(b, 1, n) == b,
{
    lemma_mod_exp_small(b, n);
    lemma_small_mod(b, n);
}

} // verus!

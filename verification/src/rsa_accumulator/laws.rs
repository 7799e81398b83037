//! What holds of the RSA accumulator across its operations: the value
//! tracks the set, deleting undoes adding, honest witnesses verify, and
//! blinding and delegated updates give back working witnesses.

use vstd::prelude::*;
use vstd::arithmetic::div_mod::*;
use crate::arith::{
    lemma_mod_exp_add, lemma_mod_exp_bound, lemma_mod_exp_distributes, lemma_mod_exp_mul,
    lemma_mod_exp_one,
    lemma_mod_exp_order, lemma_mod_exp_small, lemma_mul_mod_assoc, lemma_mul_mod_one,
};
use crate::bignum::{BigNat, gcd, is_prime, mod_exp};
use crate::groups::rsa_group::{
    RsaGroup, lemma_hashed_prime, mod_inverse, no_factor_up_to, rsa_hashes_to, signed_mod_exp,
    trial_division_bound,
};
use crate::traits::PrivatelyDelegatableAccumulator;
use vstd::arithmetic::power2::pow2;
use crate::nizk::{honest_proof, lemma_honest_proof_verifies};
use crate::groups::units::{
    lemma_inverse_of_power, lemma_mod_inverse_exists, lemma_power_of_signed_exp,
    lemma_signed_exp_add, lemma_signed_exp_of_power,
};
use super::RsaAccumulator;
use super::rsa::{non_mem_holds, prod_except, reduced_delta, seq_prod, witness_of};

verus! {

/// The product of a sequence with one more entry.
pub proof fn lemma_seq_prod_push(s: Seq<nat>, x: nat)
    ensures
        seq_prod(s.push(x)) == seq_prod(s) * x,
{
    assert(s.push(x).drop_last() =~= s);
}

/// The product of a sequence is that of the rest times the removed entry.
pub proof fn lemma_seq_prod_remove(s: Seq<nat>, i: int)
    requires
        0 <= i < s.len(),
    ensures
        seq_prod(s) == seq_prod(s.remove(i)) * s[i],
    decreases s.len(),
{
    if i == s.len() - 1 {
        assert(s.remove(i) =~= s.drop_last());
    } else {
        let t = s.drop_last();
        lemma_seq_prod_remove(t, i);
        assert(s.remove(i).drop_last() =~= t.remove(i));
        assert(s.remove(i).last() == s.last());
        let a = seq_prod(t.remove(i));
        assert((a * s[i]) * s.last() == (a * s.last()) * s[i]) by (nonlinear_arith);
    }
}

/// The product of a concatenation is the product of the products.
pub proof fn lemma_seq_prod_concat(s: Seq<nat>, t: Seq<nat>)
    ensures
        seq_prod(s + t) == seq_prod(s) * seq_prod(t),
    decreases t.len(),
{
    if t.len() == 0 {
        assert(s + t =~= s);
        assert(seq_prod(t) == 1);
    } else {
        lemma_seq_prod_concat(s, t.drop_last());
        assert((s + t).drop_last() =~= s + t.drop_last());
        assert((s + t).last() == t.last());
        assert(seq_prod(s + t) == seq_prod(s + t.drop_last()) * t.last());
        let a = seq_prod(s);
        let b = seq_prod(t.drop_last());
        assert(seq_prod(t) == b * t.last());
        assert(a * b * t.last() == a * (b * t.last())) by (nonlinear_arith);
    }
}

/// Leaving out an absent entry leaves the product.
proof fn lemma_prod_except_absent(s: Seq<nat>, x: nat)
    requires
        !s.contains(x),
    ensures
        prod_except(s, x) == seq_prod(s),
    decreases s.len(),
{
    if s.len() > 0 {
        assert(!s.drop_last().contains(x)) by {
            if s.drop_last().contains(x) {
                let j = choose|j: int| 0 <= j < s.drop_last().len() && s.drop_last()[j] == x;
                assert(s[j] == x);
            }
        }
        lemma_prod_except_absent(s.drop_last(), x);
        assert(s.last() != x) by {
            assert(s[s.len() - 1] == s.last());
        }
    }
}

/// In a sequence without repetitions, the product of the entries other
/// than `x`, times `x`, is the product of all.
pub proof fn lemma_prod_except_distinct(s: Seq<nat>, x: nat)
    requires
        s.no_duplicates(),
        s.contains(x),
    ensures
        prod_except(s, x) * x == seq_prod(s),
    decreases s.len(),
{
    let t = s.drop_last();
    assert(t.no_duplicates()) by {
        assert forall|i: int, j: int| 0 <= i < t.len() && 0 <= j < t.len() && i != j implies t[i]
            != t[j] by {
            assert(s[i] != s[j]);
        }
    }
    if s.last() == x {
        assert(!t.contains(x)) by {
            if t.contains(x) {
                let j = choose|j: int| 0 <= j < t.len() && t[j] == x;
                assert(s[j] == s[s.len() - 1]);
            }
        }
        lemma_prod_except_absent(t, x);
    } else {
        assert(t.contains(x)) by {
            let j = choose|j: int| 0 <= j < s.len() && s[j] == x;
            assert(j != s.len() - 1);
            assert(t[j] == x);
        }
        lemma_prod_except_distinct(t, x);
        let a = prod_except(t, x);
        assert(a * s.last() * x == (a * x) * s.last()) by (nonlinear_arith);
    }
}

/// When `g^o == 1 (mod n)` and `x` is a unit modulo `o`, raising a power of
/// `g` to `x` and to the inverse of `x` modulo `o`, in either order, gives
/// it back.
pub proof fn lemma_order_inverse_cancels(g: nat, o: nat, n: nat, p: nat, x: nat)
    requires
        n > 0,
        o > 0,
        mod_exp(g, o, n) == 1nat % n,
        gcd(x, o) == 1,
    ensures
        mod_exp(mod_exp(mod_exp(g, p, n), x, n), mod_inverse(x, o), n) == mod_exp(g, p, n),
        mod_exp(mod_exp(mod_exp(g, p, n), mod_inverse(x, o), n), x, n) == mod_exp(g, p, n),
{
    lemma_mod_inverse_exists(x, o);
    let y = mod_inverse(x, o);
    let oi = o as int;
    lemma_mod_exp_mul(g, p, x, n);
    lemma_mod_exp_mul(g, p * x, y, n);
    lemma_mod_exp_mul(g, p, y, n);
    lemma_mod_exp_mul(g, p * y, x, n);
    assert(p * x * y == p * (x * y) && p * y * x == p * (x * y)) by (nonlinear_arith);
    lemma_mod_exp_order(g, o, p * (x * y), n);
    lemma_mod_exp_order(g, o, p, n);
    lemma_mul_mod_noop_right(p as int, (x * y) as int, oi);
    lemma_mul_mod_one(p as int, oi);
}

/// Adding `x` keeps the value in step with the set: raising
/// `g^prod(s)` to `x` gives `g^prod(s + [x])`.
pub proof fn lemma_add_keeps_value(g: nat, n: nat, s: Seq<nat>, x: nat)
    requires
        n > 0,
    ensures
        mod_exp(mod_exp(g, seq_prod(s), n), x, n) == mod_exp(g, seq_prod(s.push(x)), n),
{
    lemma_seq_prod_push(s, x);
    lemma_mod_exp_mul(g, seq_prod(s), x, n);
}

/// Deleting an entry with a trapdoor keeps the value in step with the set:
/// raising `g^prod(s)` to the inverse of `s[i]` modulo the order gives
/// `g^prod(s without s[i])`.
pub proof fn lemma_del_keeps_value(g: nat, o: nat, n: nat, s: Seq<nat>, i: int)
    requires
        n > 0,
        o > 0,
        mod_exp(g, o, n) == 1nat % n,
        0 <= i < s.len(),
        gcd(s[i], o) == 1,
    ensures
        mod_exp(mod_exp(g, seq_prod(s), n), mod_inverse(s[i], o), n) == mod_exp(
            g,
            seq_prod(s.remove(i)),
            n,
        ),
{
    lemma_seq_prod_remove(s, i);
    lemma_mod_exp_mul(g, seq_prod(s.remove(i)), s[i], n);
    lemma_order_inverse_cancels(g, o, n, seq_prod(s.remove(i)), s[i]);
}

/// Bezout coefficients `(a, b)` of `(p, x)` verify as a non-membership
/// witness `(a, g^b)` for `x` against `acc = g^p` when `g` is a unit:
/// `acc^a * (g^b)^x == g (mod n)`.
pub proof fn lemma_bezout_witness_verifies(g: nat, n: nat, p: nat, x: nat, a: int, b: int)
    requires
        n > 0,
        g < n,
        gcd(g, n) == 1,
        a * p + b * x == 1,
    ensures
        (signed_mod_exp(mod_exp(g, p, n), a, n) * mod_exp(signed_mod_exp(g, b, n), x, n)) % n
            == g,
        gcd(mod_exp(g, p, n), n) == 1,
{
    lemma_signed_exp_of_power(g, p, a, n);
    lemma_power_of_signed_exp(g, b, x, n);
    lemma_signed_exp_add(g, p * a, b * x, n);
    assert(p * a + b * x == 1) by (nonlinear_arith)
        requires
            a * p + b * x == 1,
    ;
    lemma_mod_exp_one(g, n);
}

/// With a trapdoor `o` (`g^o == 1 (mod n)`), Bezout coefficients `(a, b)` of
/// `(p, x)`, reduced modulo `o`, verify as a non-membership witness
/// `(a mod o, g^(b mod o))` for `x` against `acc = g^p`.
pub proof fn lemma_reduced_bezout_witness_verifies(
    g: nat,
    o: nat,
    n: nat,
    p: nat,
    x: nat,
    a: int,
    b: int,
)
    requires
        n > 0,
        g < n,
        o > 0,
        mod_exp(g, o, n) == 1nat % n,
        a * p + b * x == 1,
    ensures
        (mod_exp(mod_exp(g, p, n), (a % (o as int)) as nat, n) * mod_exp(
            mod_exp(g, (b % (o as int)) as nat, n),
            x,
            n,
        )) % n == g,
{
    let oi = o as int;
    let ar = (a % oi) as nat;
    let br = (b % oi) as nat;
    lemma_mod_exp_mul(g, p, ar, n);
    lemma_mod_exp_mul(g, br, x, n);
    lemma_mod_exp_add(g, p * ar, br * x, n);
    let e = p * ar + br * x;
    lemma_mod_exp_order(g, o, e, n);
    assert(e % o == 1int % oi) by {
        lemma_mul_mod_noop_right(p as int, a, oi);
        lemma_mul_mod_noop_left(b, x as int, oi);
        lemma_add_mod_noop((p * ar) as int, (br * x) as int, oi);
        lemma_add_mod_noop(p * a, b * x, oi);
        assert(p * a + b * x == 1) by (nonlinear_arith)
            requires
                a * p + b * x == 1,
        ;
    }
    lemma_mod_exp_one(g, n);
    if o == 1 {
        lemma_mod_exp_order(g, o, 1, n);
        lemma_mod_exp_small(g, n);
    } else {
        lemma_small_mod(1, o);
    }
}

/// Unblinding a blinded membership witness gives it back: for `p < n` and
/// a unit `h = g^st`, `((p * h) mod n) * h^-1 == p (mod n)`.
pub proof fn lemma_blind_unblind_mem(n: nat, g: nat, p: nat, st: nat)
    requires
        n > 0,
        p < n,
        gcd(mod_exp(g, st, n), n) == 1,
    ensures
        (((p * mod_exp(g, st, n)) % n) * mod_inverse(mod_exp(g, st, n), n)) % n == p,
{
    let h = mod_exp(g, st, n);
    lemma_mod_inverse_exists(h, n);
    let hi = mod_inverse(h, n);
    lemma_mul_mod_assoc(p as int, h as int, hi as int, n as int);
    lemma_mul_mod_one(p as int, n as int);
    lemma_small_mod(p, n);
}

/// Unblinding a delegated non-membership witness: a witness `(a, b)` for
/// the blinded value `x * q` turns into the witness `(a, b^q)` for `x`:
/// `acc^a * b^(x q) == acc^a * (b^q)^x (mod n)`.
pub proof fn lemma_unblind_non_mem(n: nat, acc: nat, g: nat, x: nat, q: nat, a: int, b: nat)
    requires
        n > 0,
        (signed_mod_exp(acc, a, n) * mod_exp(b, x * q, n)) % n == g,
    ensures
        (signed_mod_exp(acc, a, n) * mod_exp(mod_exp(b, q, n), x, n)) % n == g,
{
    lemma_mod_exp_mul(b, q, x, n);
    assert(q * x == x * q) by (nonlinear_arith);
}


/// Completeness of membership witnesses: for an accumulated prime `x`,
/// the witness `mem_proof_create_raw` gives raised to `x` is the
/// accumulator value, so `mem_ver_raw` accepts it.
pub proof fn lemma_mem_witness_verifies(a: RsaAccumulator<RsaGroup>, x: nat)
    requires
        a.params_valid(),
        a.trapdoor_sound(),
        a.acc_invariant(),
        a.set_distinct(),
        a.set_view().contains(x),
        a.spec_order() matches Some(o) ==> gcd(x, o) == 1,
    ensures
        mod_exp(a.mem_witness(x), x, a.spec_n()) == a.acc@,
{
    let g = a.spec_g();
    let n = a.spec_n();
    match a.spec_order() {
        Some(o) => {
            lemma_order_inverse_cancels(g, o, n, seq_prod(a.set_view()), x);
        },
        None => {
            lemma_prod_except_distinct(a.set_view(), x);
            lemma_mod_exp_mul(g, prod_except(a.set_view(), x), x, n);
        },
    }
}

/// Deleting an element right after adding it restores the accumulator:
/// the prime `x` sits last in the set after the addition, removing it
/// gives the set back, and the value after the deletion (`acc^x` raised to
/// the inverse of `x` with a trapdoor, `g^prod(set)` without) is the value
/// before the addition.
pub proof fn lemma_add_then_del(a: RsaAccumulator<RsaGroup>, x: nat)
    requires
        a.params_valid(),
        a.trapdoor_sound(),
        a.acc_invariant(),
        !a.set_view().contains(x),
        a.spec_order() matches Some(o) ==> gcd(x, o) == 1,
    ensures
        forall|i: int|
            0 <= i < a.set_view().len() + 1 && #[trigger] a.set_view().push(x)[i] == x ==> i
                == a.set_view().len(),
        a.set_view().push(x).remove(a.set_view().len() as int) == a.set_view(),
        a.spec_order() matches Some(o) ==> mod_exp(
            mod_exp(a.acc@, x, a.spec_n()),
            mod_inverse(x, o),
            a.spec_n(),
        ) == a.acc@,
        mod_exp(a.spec_g(), seq_prod(a.set_view()), a.spec_n()) == a.acc@,
{
    let s = a.set_view();
    assert(s.push(x).remove(s.len() as int) =~= s);
    assert forall|i: int| 0 <= i < s.len() + 1 && #[trigger] s.push(x)[i] == x implies i
        == s.len() by {
        if i < s.len() {
            assert(s[i] == x);
        }
    }
    if let Some(o) = a.spec_order() {
        lemma_order_inverse_cancels(a.spec_g(), o, a.spec_n(), seq_prod(s), x);
    }
}

/// Completeness of non-membership witnesses: for coefficients `(c0, c1)`
/// with `c0 * p + c1 * x == 1` against the value `acc = g^p`, the witness
/// made of them verifies for `x` (with a trapdoor, after reducing modulo
/// the order; without, when `g` is a unit), and a negative first entry
/// only occurs where `acc` is a unit.
pub proof fn lemma_non_mem_witness_verifies(a: RsaAccumulator<RsaGroup>, p: nat, x: nat, c: (int, int))
    requires
        a.params_valid(),
        a.trapdoor_sound(),
        a.acc@ == mod_exp(a.spec_g(), p, a.spec_n()),
        c.0 * p + c.1 * x == 1,
        a.spec_order() is None ==> gcd(a.spec_g(), a.spec_n()) == 1,
    ensures
        non_mem_holds(
            a.acc@,
            witness_of(c.0, c.1, a.spec_g(), a.spec_n(), a.spec_order()),
            x,
            a.spec_g(),
            a.spec_n(),
        ),
        witness_of(c.0, c.1, a.spec_g(), a.spec_n(), a.spec_order()).0 < 0 ==> gcd(
            a.acc@,
            a.spec_n(),
        ) == 1,
{
    let g = a.spec_g();
    let n = a.spec_n();
    match a.spec_order() {
        Some(o) => {
            lemma_reduced_bezout_witness_verifies(g, o, n, p, x, c.0, c.1);
        },
        None => {
            lemma_bezout_witness_verifies(g, n, p, x, c.0, c.1);
        },
    }
}

/// Privately delegated non-membership: a witness made of coefficients for
/// the blinded value `x * q` verifies for `x * q`, and unblinded to
/// `(w.0, w.1^q)` it verifies for `x`.
pub proof fn lemma_delegated_non_mem_verifies(
    a: RsaAccumulator<RsaGroup>,
    p: nat,
    x: nat,
    q: nat,
    c: (int, int),
)
    requires
        a.params_valid(),
        a.trapdoor_sound(),
        a.acc@ == mod_exp(a.spec_g(), p, a.spec_n()),
        c.0 * p + c.1 * (x * q) == 1,
        a.spec_order() is None ==> gcd(a.spec_g(), a.spec_n()) == 1,
    ensures
        non_mem_holds(
            a.acc@,
            witness_of(c.0, c.1, a.spec_g(), a.spec_n(), a.spec_order()),
            x * q,
            a.spec_g(),
            a.spec_n(),
        ),
        non_mem_holds(
            a.acc@,
            (
                witness_of(c.0, c.1, a.spec_g(), a.spec_n(), a.spec_order()).0,
                mod_exp(witness_of(c.0, c.1, a.spec_g(), a.spec_n(), a.spec_order()).1, q, a.spec_n()),
            ),
            x,
            a.spec_g(),
            a.spec_n(),
        ),
{
    lemma_non_mem_witness_verifies(a, p, x * q, c);
    let w = witness_of(c.0, c.1, a.spec_g(), a.spec_n(), a.spec_order());
    lemma_unblind_non_mem(a.spec_n(), a.acc@, a.spec_g(), x, q, w.0, w.1);
}

/// Adding the primes `t` to a set `s` whose value is `g^prod(s)` raises the
/// value to `prod(t)`; with a trapdoor the exponent may be reduced modulo
/// the order first.
pub proof fn lemma_additions_raise_value(g: nat, n: nat, order: Option<nat>, s: Seq<nat>, t: Seq<nat>)
    requires
        n > 0,
        order matches Some(o) ==> o > 0 && mod_exp(g, o, n) == 1nat % n,
    ensures
        mod_exp(mod_exp(g, seq_prod(s), n), reduced_delta(seq_prod(t) as int, order), n)
            == mod_exp(g, seq_prod(s + t), n),
{
    lemma_seq_prod_concat(s, t);
    let ps = seq_prod(s);
    let pt = seq_prod(t);
    match order {
        Some(o) => {
            let d = pt % o;
            lemma_mod_exp_mul(g, ps, d, n);
            lemma_mod_exp_order(g, o, ps * d, n);
            lemma_mod_exp_order(g, o, ps * pt, n);
            lemma_mul_mod_noop_right(ps as int, pt as int, o as int);
        },
        None => {
            lemma_mod_exp_mul(g, ps, pt, n);
        },
    }
}

/// Completeness of delegated membership updates: when the accumulator
/// value is `acc_t^d` for the update exponent `d`, an update
/// `(blinded^d, g^d)` with honest proofs verifies, with the challenges
/// that `ver_blind_mem_proof_upd_raw` hashes from the transcripts, when
/// all the challenges are prime.
pub proof fn lemma_mem_update_verifies(
    acc: RsaAccumulator<RsaGroup>,
    acc_t: nat,
    blinded: nat,
    d: nat,
    a: nat,
    b: nat,
    pi1: (nat, nat, nat),
    pi2: (nat, nat, nat),
    honest1: (Seq<u8>, nat, nat),
    honest2: (Seq<u8>, nat, nat),
    e1: nat,
    e2: nat,
)
    requires
        acc.params_valid(),
        acc.acc@ == mod_exp(acc_t, d, acc.spec_n()),
        a == mod_exp(blinded, d, acc.spec_n()),
        b == mod_exp(acc.spec_g(), d, acc.spec_n()),
        honest_proof(
            &acc.group,
            blinded,
            a,
            acc_t,
            acc.acc@,
            d,
            pi1.0,
            pi1.1,
            pi1.2,
            honest1.0,
            honest1.1,
            honest1.2,
        ),
        honest_proof(
            &acc.group,
            acc.spec_g(),
            b,
            blinded,
            a,
            d,
            pi2.0,
            pi2.1,
            pi2.2,
            honest2.0,
            honest2.1,
            honest2.2,
        ),
        acc.update_challenges(acc_t, blinded, a, b, pi1, pi2, e1, e2),
        is_prime(honest1.2),
        is_prime(honest2.2),
        is_prime(e1),
        is_prime(e2),
    ensures
        acc.update_holds(acc_t, blinded, a, b, pi1, pi2, e1, e2),
{
    lemma_honest_proof_verifies(
        &acc.group,
        blinded,
        a,
        acc_t,
        acc.acc@,
        d,
        pi1.0,
        pi1.1,
        pi1.2,
        honest1.0,
        honest1.1,
        honest1.2,
        e1,
    );
    lemma_honest_proof_verifies(
        &acc.group,
        acc.spec_g(),
        b,
        blinded,
        a,
        d,
        pi2.0,
        pi2.1,
        pi2.2,
        honest2.0,
        honest2.1,
        honest2.2,
        e2,
    );
}

/// Privately delegated membership: a witness `p` for `x` against `acc_t`,
/// blinded as `p * g^st`, updated by the server to `(blinded^d, g^d)` for
/// a value `acc = acc_t^d`, and unblinded by dividing `blinded^d` by
/// `(g^d)^st` (which is `g^(st * d)`), is `p^d`, a witness for `x` that
/// verifies against `acc`.
pub proof fn lemma_delegated_mem_verifies(
    a: RsaAccumulator<RsaGroup>,
    p: nat,
    x: nat,
    st: nat,
    d: nat,
    acc_t: nat,
)
    requires
        a.params_valid(),
        gcd(a.spec_g(), a.spec_n()) == 1,
        mod_exp(p, x, a.spec_n()) == acc_t,
        a.acc@ == mod_exp(acc_t, d, a.spec_n()),
    ensures
        ({
            let n = a.spec_n();
            let g = a.spec_g();
            let blinded = (p * mod_exp(g, st, n)) % n;
            let upd = (mod_exp(blinded, d, n), mod_exp(g, d, n));
            let mask = mod_exp(upd.1, st, n);
            let w = (upd.0 * mod_inverse(mask, n)) % n;
            &&& mask == mod_exp(g, st * d, n)
            &&& gcd(mask, n) == 1
            &&& w == mod_exp(p, d, n)
            &&& mod_exp(w, x, n) == a.acc@
        }),
{
    let n = a.spec_n();
    let g = a.spec_g();
    let ni = n as int;
    let h = mod_exp(g, st, n);
    let blinded = (p * h) % n;
    let pd = mod_exp(p, d, n);
    // blinded^d == p^d * g^(st d)
    lemma_mod_exp_distributes(p, h, d, n);
    lemma_mod_exp_mul(g, st, d, n);
    let k = mod_exp(g, st * d, n);
    // (g^d)^st == g^(d st) == g^(st d)
    lemma_mod_exp_mul(g, d, st, n);
    assert(d * st == st * d) by (nonlinear_arith);
    let mask = mod_exp(mod_exp(g, d, n), st, n);
    assert(mask == k);
    lemma_inverse_of_power(g, st * d, n);
    lemma_mod_inverse_exists(k, n);
    let kinv = mod_inverse(k, n);
    assert((k * kinv) % n == 1nat % n);
    lemma_mul_mod_assoc(pd as int, k as int, kinv as int, ni);
    lemma_mul_mod_one(pd as int, ni);
    lemma_mod_exp_bound(p, d, n);
    lemma_small_mod(pd, n);
    // (p^d)^x == p^(d x) == (p^x)^d
    lemma_mod_exp_mul(p, d, x, n);
    lemma_mod_exp_mul(p, x, d, n);
    assert(d * x == x * d) by (nonlinear_arith);
}

/// Removing an entry of a sequence without repetitions leaves one without
/// repetitions that no longer holds the entry.
pub proof fn lemma_remove_distinct(s: Seq<nat>, i: int)
    requires
        s.no_duplicates(),
        0 <= i < s.len(),
    ensures
        s.remove(i).no_duplicates(),
        !s.remove(i).contains(s[i]),
{
    let t = s.remove(i);
    assert forall|a: int, b: int| 0 <= a < t.len() && 0 <= b < t.len() && a != b implies t[a] != t[b] by {
        let a2 = if a < i { a } else { a + 1 };
        let b2 = if b < i { b } else { b + 1 };
        assert(t[a] == s[a2] && t[b] == s[b2]);
    }
    if t.contains(s[i]) {
        let j = choose|j: int| 0 <= j < t.len() && t[j] == s[i];
        let j2 = if j < i { j } else { j + 1 };
        assert(t[j] == s[j2]);
    }
}

/// Blinding and unblinding a membership witness of an accumulator whose
/// generator is a unit: for a witness `p < n` and a blinder `st`, the
/// blinded witness `(p * g^st) mod n` unblinds to `p`, and it differs from
/// `p` when `p` is a unit and `g^st` is not one.
pub proof fn lemma_blinding_round_trip(a: RsaAccumulator<RsaGroup>, p: nat, st: nat)
    requires
        a.params_valid(),
        gcd(a.spec_g(), a.spec_n()) == 1,
        p < a.spec_n(),
    ensures
        ({
            let n = a.spec_n();
            let h = mod_exp(a.spec_g(), st, n);
            let blinded = (p * h) % n;
            &&& gcd(h, n) == 1
            &&& (blinded * mod_inverse(h, n)) % n == p
            &&& gcd(p, n) == 1 && h != 1nat % n ==> blinded != p
        }),
{
    let n = a.spec_n();
    let ni = n as int;
    let h = mod_exp(a.spec_g(), st, n);
    lemma_inverse_of_power(a.spec_g(), st, n);
    lemma_blind_unblind_mem(n, a.spec_g(), p, st);
    if gcd(p, n) == 1 && h != 1nat % n && (p * h) % n == p {
        lemma_mod_inverse_exists(p, n);
        let pi = mod_inverse(p, n);
        // ((p * h) % n * pi) % n == (p * pi) % n == 1 % n
        // ((p * h) % n * pi) % n == (h * ((p * pi) % n)) % n == h
        lemma_mul_mod_noop_left((p * h) as int, pi as int, ni);
        assert((p * h) * pi == h * (p * pi)) by (nonlinear_arith);
        lemma_mul_mod_noop_right(h as int, (p * pi) as int, ni);
        lemma_mul_mod_one(h as int, ni);
        lemma_mod_exp_bound(a.spec_g(), st, n);
        lemma_small_mod(h, n);
        assert(false);
    }
}

/// Blinding a non-membership request: for a non-member `x`, the blinder
/// `q` is above one, odd and free of divisors up to the primality test's
/// trial-division bound (a prime hashed from a random seed), and the
/// blinded value is `x * q`, a multiple of `q`.
pub proof fn lemma_blinded_non_member(a: RsaAccumulator<RsaGroup>, x: BigNat, r: (BigNat, BigNat))
    requires
        !a.set_view().contains(x@),
        <RsaAccumulator<RsaGroup> as PrivatelyDelegatableAccumulator>::spec_blind_non_mem_proof(
            &a,
            x,
            r,
        ),
    ensures
        r.1@ > 1,
        r.1@ % 2 == 1,
        no_factor_up_to(r.1@, trial_division_bound()),
        r.0@ == x@ * r.1@,
        r.0@ % r.1@ == 0,
{
    let seed = choose|seed: nat|
        seed < pow2(128) && #[trigger] rsa_hashes_to(crate::bignum::be_bytes(seed), r.1@);
    lemma_hashed_prime(crate::bignum::be_bytes(seed), r.1@);
    vstd::arithmetic::div_mod::lemma_mod_multiples_basic(x@ as int, r.1@ as int);
    assert(x@ * r.1@ == r.1@ * x@) by (nonlinear_arith);
}

} // verus!

//! The accumulator over the RSA group: the operations that use the
//! modulus, the optional trapdoor, and signed exponents.

use vstd::prelude::*;
use vstd::arithmetic::div_mod::lemma_mul_mod_noop_left;
use vstd::arithmetic::power2::pow2;
use crate::bignum::{
    BigNat, BigSigned, abs, decimal_bytes, extended_gcd_of, gcd, mod_exp, opt_view,
    int_extended_gcd, int_mod_floor, nat_div_rem, nat_eq, nat_modinv, nat_mul,
    nat_sub,
};
use crate::error::{AccumulatorError, AccumulatorResult};
use crate::groups::rsa_group::{
    MODULUS_SIZE, RsaGroup, mod_inverse, random_bits, random_in_range, random_safe_prime,
    signed_mod_exp, is_mod_inverse, lemma_mod_inverse_unique,
};
use crate::nizk::{NIZK, honest_proof, verified_with, dleq_holds, transcript};
use crate::traits::{Accumulator, Group, PrivatelyDelegatableAccumulator};
use super::{Aux, RsaAccumulator, UpdatedBlindProof};
use super::laws::{
    lemma_add_keeps_value, lemma_del_keeps_value, lemma_mem_witness_verifies,
    lemma_non_mem_witness_verifies, lemma_remove_distinct,
};

verus! {

/// The product of a sequence of naturals.
pub open spec fn seq_prod(s: Seq<nat>) -> nat
    decreases s.len(),
{
    if s.len() == 0 {
        1
    } else {
        seq_prod(s.drop_last()) * s.last()
    }
}

/// The product of the entries of a sequence other than `x`.
pub open spec fn prod_except(s: Seq<nat>, x: nat) -> nat
    decreases s.len(),
{
    if s.len() == 0 {
        1
    } else {
        prod_except(s.drop_last(), x) * (if s.last() == x {
            1
        } else {
            s.last()
        })
    }
}

/// What `calculate_product` gives: the product of the set, reduced modulo
/// the order when there is one (the empty product stays one).
pub open spec fn reduced_product(s: Seq<nat>, order: Option<nat>) -> nat {
    match order {
        Some(o) => if s.len() == 0 {
            1
        } else {
            seq_prod(s) % o
        },
        None => seq_prod(s),
    }
}

/// The exponent of a blinded membership update: `delta`, reduced modulo
/// the order when it is known.
pub open spec fn reduced_delta(delta: int, order: Option<nat>) -> nat {
    match order {
        Some(o) => (delta % (o as int)) as nat,
        None => delta as nat,
    }
}

/// The Bezout coefficient of `delta` that the non-membership witness uses.
pub open spec fn bezout_a(delta: int, x: int) -> int {
    extended_gcd_of(delta, x).1
}

/// The Bezout coefficient of `x` that the non-membership witness uses.
pub open spec fn bezout_b(delta: int, x: int) -> int {
    extended_gcd_of(delta, x).2
}

/// The non-membership witness made of coefficients `(a, b)`: `(a, g^b)`;
/// with a known order, both are reduced modulo the order first.
pub open spec fn witness_of(a: int, b: int, g: nat, n: nat, order: Option<nat>) -> (int, nat) {
    match order {
        Some(o) => (a % (o as int), mod_exp(g, (b % (o as int)) as nat, n)),
        None => (a, signed_mod_exp(g, b, n)),
    }
}

/// A non-membership witness for `x` against the product `delta`: the
/// witness made of the Bezout coefficients `(a, b)` with
/// `a * delta + b * x == 1`.
pub open spec fn non_mem_witness(
    delta: int,
    x: nat,
    g: nat,
    n: nat,
    order: Option<nat>,
) -> (int, nat) {
    witness_of(bezout_a(delta, x as int), bezout_b(delta, x as int), g, n, order)
}

/// The verification equation of a non-membership witness `w` for `x`
/// against the value `acc`: `acc^w.0 * w.1^x == g (mod n)`.
pub open spec fn non_mem_holds(acc: nat, w: (int, nat), x: nat, g: nat, n: nat) -> bool {
    (signed_mod_exp(acc, w.0, n) * mod_exp(w.1, x, n)) % n == g
}

/// Computing the witness for `x` against `delta` does not panic: without
/// a known order a negative coefficient of `x` needs `g` invertible.
pub open spec fn non_mem_witness_defined(
    delta: int,
    x: nat,
    g: nat,
    n: nat,
    order: Option<nat>,
) -> bool {
    gcd(abs(delta), x) == 1 && order is None && bezout_b(delta, x as int) < 0 ==> gcd(g, n) == 1
}

/// The values of a vector of naturals.
pub open spec fn nat_views(v: Seq<BigNat>) -> Seq<nat> {
    v.map_values(|x: BigNat| x@)
}

/// The product of `items`, each step reduced modulo `order` when given.
fn fold_product(items: &Vec<BigNat>, order: Option<&BigNat>) -> (r: BigNat)
    requires
        order matches Some(o) ==> o@ > 0,
    ensures
        r@ == reduced_product(nat_views(items@), match order {
            Some(o) => Some(o@),
            None => None,
        }),
{
    let ghost s = nat_views(items@);
    let mut acc = BigNat::from_u32(1);
    let mut i: usize = 0;
    match order {
        Some(o) => {
            while i < items.len()
                invariant
                    s == nat_views(items@),
                    i <= items.len(),
                    o@ > 0,
                    i == 0 ==> acc@ == 1,
                    i > 0 ==> acc@ == seq_prod(s.take(i as int)) % o@,
                decreases items.len() - i,
            {
                let ghost t = s.take(i as int + 1);
                assert(t.drop_last() =~= s.take(i as int));
                let prod = nat_mul(&acc, &items[i]);
                let (_, m) = nat_div_rem(&prod, o);
                proof {
                    if i > 0 {
                        lemma_mul_mod_noop_left(
                            seq_prod(t.drop_last()) as int,
                            s[i as int] as int,
                            o@ as int,
                        );
                    } else {
                        assert(t.drop_last() =~= Seq::<nat>::empty());
                    }
                }
                acc = m;
                i = i + 1;
            }
            assert(s.take(i as int) =~= s);
        },
        None => {
            while i < items.len()
                invariant
                    s == nat_views(items@),
                    i <= items.len(),
                    acc@ == seq_prod(s.take(i as int)),
                decreases items.len() - i,
            {
                let ghost t = s.take(i as int + 1);
                assert(t.drop_last() =~= s.take(i as int));
                acc = nat_mul(&acc, &items[i]);
                i = i + 1;
            }
            assert(s.take(i as int) =~= s);
        },
    }
    acc
}

impl RsaAccumulator<RsaGroup> {
    /// The modulus.
    pub open spec fn spec_n(&self) -> nat {
        self.group.spec_n()
    }

    /// The generator.
    pub open spec fn spec_g(&self) -> nat {
        self.group.spec_g()
    }

    /// The group order, when known.
    pub open spec fn spec_order(&self) -> Option<nat> {
        self.group.spec_order()
    }

    /// The parameters the operations need: a positive modulus, a
    /// generator below it, and a positive order when the order is known.
    pub open spec fn params_valid(&self) -> bool {
        &&& self.spec_n() > 0
        &&& self.spec_g() < self.spec_n()
        &&& self.spec_order() matches Some(o) ==> o > 0
    }

    /// The known order is a true trapdoor: the generator raised to it is one.
    pub open spec fn trapdoor_sound(&self) -> bool {
        self.spec_order() matches Some(o) ==> mod_exp(self.spec_g(), o, self.spec_n()) == 1nat
            % self.spec_n()
    }

    /// The accumulator value is the generator raised to the product of the
    /// accumulated primes.
    pub open spec fn acc_invariant(&self) -> bool {
        self.acc@ == mod_exp(self.spec_g(), seq_prod(self.set_view()), self.spec_n())
    }

    /// The membership witness `mem_proof_create_raw` gives for `x`.
    pub open spec fn mem_witness(&self, x: nat) -> nat {
        match self.spec_order() {
            Some(o) => mod_exp(self.acc@, mod_inverse(x, o), self.spec_n()),
            None => mod_exp(self.spec_g(), prod_except(self.set_view(), x), self.spec_n()),
        }
    }

    /// `u` is the update of the blinded witness `blinded` against `acc_t`
    /// by `delta` that `blind_mem_proof_upd_raw` gives: `(a, b)` with
    /// `a = blinded^d` and `b = g^d` for the reduced delta `d`, honest proofs
    /// that `(blinded, a, acc_t, acc)` and `(g, b, blinded, a)` share the
    /// exponent `d`, and the current accumulator value.
    pub open spec fn is_mem_update(&self, acc_t: nat, blinded: nat, delta: int, u: UpdatedBlindProof) -> bool {
        let d = reduced_delta(delta, self.spec_order());
        &&& u.0.0@ == mod_exp(blinded, d, self.spec_n())
        &&& u.0.1@ == mod_exp(self.spec_g(), d, self.spec_n())
        &&& u.2@ == self.acc@
        &&& exists|seed: Seq<u8>, k: nat, e: nat|
            #[trigger] honest_proof(
                &self.group,
                blinded,
                u.0.0@,
                acc_t,
                self.acc@,
                d,
                u.1.0.0@,
                u.1.0.1@,
                u.1.0.2@,
                seed,
                k,
                e,
            )
        &&& exists|seed: Seq<u8>, k: nat, e: nat|
            #[trigger] honest_proof(
                &self.group,
                self.spec_g(),
                u.0.1@,
                blinded,
                u.0.0@,
                d,
                u.1.1.0@,
                u.1.1.1@,
                u.1.1.2@,
                seed,
                k,
                e,
            )

    }

    /// `e1` and `e2` are challenges hashed from the transcripts of the two
    /// proofs of a blinded membership update `(a, b)` with proofs
    /// `pi1 = (a1, b1, z1)` and `pi2`.
    pub open spec fn update_challenges(
        &self,
        acc_t: nat,
        blinded: nat,
        a: nat,
        b: nat,
        pi1: (nat, nat, nat),
        pi2: (nat, nat, nat),
        e1: nat,
        e2: nat,
    ) -> bool {
        &&& self.group.spec_hashes_to(
            transcript(&self.group, blinded, a, acc_t, self.acc@, pi1.0, pi1.1),
            e1,
        )
        &&& self.group.spec_hashes_to(
            transcript(&self.group, self.spec_g(), b, blinded, a, pi2.0, pi2.1),
            e2,
        )
    }

    /// With challenges `e1` and `e2`, both proofs of a blinded membership
    /// update verify: `(blinded, a, acc_t, acc)` and `(g, b, blinded, a)`
    /// share their exponents.
    pub open spec fn update_holds(
        &self,
        acc_t: nat,
        blinded: nat,
        a: nat,
        b: nat,
        pi1: (nat, nat, nat),
        pi2: (nat, nat, nat),
        e1: nat,
        e2: nat,
    ) -> bool {
        &&& dleq_holds(&self.group, blinded, a, acc_t, self.acc@, pi1.0, pi1.1, pi1.2, e1)
        &&& dleq_holds(&self.group, self.spec_g(), b, blinded, a, pi2.0, pi2.1, pi2.2, e2)
    }

    /// An accumulator over `RsaGroup::new(p * q, g, order)`.
    pub fn setup_from_params(p: BigNat, q: BigNat, g: BigNat, order: Option<BigNat>) -> (r: Self)
        ensures
            r.spec_n() == p@ * q@,
            r.spec_g() == g@,
            r.spec_order() == opt_view(order),
            r.acc@ == g@,
            r.set_view() == Seq::<nat>::empty(),
            r.set_distinct(),
    {
        let n = nat_mul(&p, &q);
        let group = RsaGroup::new(n, g, order);
        Self::new(group)
    }

    /// An accumulator over a fresh modulus of two random safe primes `p`,
    /// `q`, with a random generator in `[1, n)` and the order
    /// `(p - 1) * (q - 1)`.
    pub fn setup() -> (r: Self)
        ensures
            r.spec_n() > 1,
            1 <= r.spec_g() < r.spec_n(),
            exists|p: nat, q: nat|
                #![trigger p * q]
                pow2((MODULUS_SIZE - 1) as nat) <= p < pow2(MODULUS_SIZE as nat) && pow2(
                    (MODULUS_SIZE - 1) as nat,
                ) <= q < pow2(MODULUS_SIZE as nat) && r.spec_n() == p * q && r.spec_order()
                    == Some(((p - 1) * (q - 1)) as nat),
            r.acc@ == r.spec_g(),
            r.set_view() == Seq::<nat>::empty(),
    {
        let p = random_safe_prime(MODULUS_SIZE);
        let q = random_safe_prime(MODULUS_SIZE);
        proof {
            crate::groups::rsa_group::lemma_modulus_above_one(p@, q@);
        }
        let n = nat_mul(&p, &q);
        let one = BigNat::from_u32(1);
        let order = nat_mul(&nat_sub(&p, &one), &nat_sub(&q, &one));
        let g = random_in_range(&one, &n);
        let group = RsaGroup::new(n, g, Some(order));
        let r = Self::new(group);
        assert(r.spec_n() == p@ * q@);
        r
    }

    /// An accumulator over a fresh modulus of two random safe primes, with
    /// a random generator in `[1, n)` and no known order.
    pub fn setup_trapdoorless() -> (r: Self)
        ensures
            r.spec_n() > 1,
            1 <= r.spec_g() < r.spec_n(),
            exists|p: nat, q: nat|
                #![trigger p * q]
                pow2((MODULUS_SIZE - 1) as nat) <= p < pow2(MODULUS_SIZE as nat) && pow2(
                    (MODULUS_SIZE - 1) as nat,
                ) <= q < pow2(MODULUS_SIZE as nat) && r.spec_n() == p * q,
            r.spec_order() is None,
            r.acc@ == r.spec_g(),
            r.set_view() == Seq::<nat>::empty(),
    {
        let p = random_safe_prime(MODULUS_SIZE);
        let q = random_safe_prime(MODULUS_SIZE);
        proof {
            crate::groups::rsa_group::lemma_modulus_above_one(p@, q@);
        }
        let n = nat_mul(&p, &q);
        let one = BigNat::from_u32(1);
        let g = random_in_range(&one, &n);
        let group = RsaGroup::new(n, g, None);
        let r = Self::new(group);
        assert(r.spec_n() == p@ * q@);
        r
    }

    /// Set the group order (the trapdoor).
    pub fn set_group_order(&mut self, order: Option<BigNat>)
        ensures
            final(self).spec_n() == old(self).spec_n(),
            final(self).spec_g() == old(self).spec_g(),
            final(self).spec_order() == opt_view(order),
            final(self).acc == old(self).acc,
            final(self).set == old(self).set,
    {
        self.group.set_order(order);
    }

    /// Forget the group order, switching to trapdoorless mode.
    pub fn clear_group_order(&mut self)
        ensures
            final(self).spec_n() == old(self).spec_n(),
            final(self).spec_g() == old(self).spec_g(),
            final(self).spec_order() is None,
            final(self).acc == old(self).acc,
            final(self).set == old(self).set,
    {
        self.group.set_order(None);
    }

    /// The product of the accumulated primes, reduced modulo the order when
    /// it is known.
    pub fn calculate_product(&self) -> (r: BigNat)
        requires
            self.spec_order() matches Some(o) ==> o > 0,
        ensures
            r@ == reduced_product(self.set_view(), self.spec_order()),
    {
        fold_product(&self.set, self.group.order())
    }

    /// The product of the accumulated primes, not reduced.
    pub fn calculate_product_unreduced(&self) -> (r: BigNat)
        ensures
            r@ == seq_prod(self.set_view()),
    {
        let mut acc = BigNat::from_u32(1);
        let mut i: usize = 0;
        while i < self.set.len()
            invariant
                i <= self.set.len(),
                acc@ == seq_prod(self.set_view().take(i as int)),
            decreases self.set.len() - i,
        {
            let ghost s = self.set_view().take(i as int + 1);
            assert(s.drop_last() =~= self.set_view().take(i as int));
            acc = nat_mul(&acc, &self.set[i]);
            i = i + 1;
        }
        assert(self.set_view().take(i as int) =~= self.set_view());
        acc
    }

    /// Remove the first occurrence of `x` from the set; whether it was there.
    fn remove_exponent(&mut self, x: &BigNat) -> (r: bool)
        ensures
            final(self).group == old(self).group,
            final(self).acc == old(self).acc,
            r == old(self).set_view().contains(x@),
            !r ==> final(self).set_view() == old(self).set_view(),
            r ==> exists|i: int|
                0 <= i < old(self).set_view().len() && #[trigger] old(self).set_view()[i] == x@
                    && final(self).set_view() == old(self).set_view().remove(i),
    {
        let mut i: usize = 0;
        while i < self.set.len()
            invariant
                i <= self.set.len(),
                self.group == old(self).group,
                self.acc == old(self).acc,
                self.set == old(self).set,
                forall|j: int| 0 <= j < i ==> self.set_view()[j] != x@,
            decreases self.set.len() - i,
        {
            if nat_eq(&self.set[i], x) {
                let ghost before = self.set_view();
                self.set.remove(i);
                assert(self.set_view() =~= before.remove(i as int));
                assert(before[i as int] == x@);
                return true;
            }
            i = i + 1;
        }
        false
    }

    /// Remove an element (given by its prime representative): with a known
    /// order the accumulator is raised to the element's inverse modulo the
    /// order, otherwise recomputed from the remaining set.
    pub fn del_raw(&mut self, element: &BigNat)
        requires
            old(self).params_valid(),
            old(self).set_distinct(),
            old(self).set_view().contains(element@) ==> (old(self).spec_order() matches Some(o)
                ==> gcd(element@, o) == 1),
        ensures
            final(self).group == old(self).group,
            !old(self).set_view().contains(element@) ==> final(self).set_view() == old(
                self,
            ).set_view() && final(self).acc == old(self).acc,
            old(self).set_view().contains(element@) ==> (exists|i: int|
                0 <= i < old(self).set_view().len() && #[trigger] old(self).set_view()[i]
                    == element@ && final(self).set_view() == old(self).set_view().remove(i)),
            old(self).set_view().contains(element@) ==> final(self).acc@ == (match old(
                self,
            ).spec_order() {
                Some(o) => mod_exp(old(self).acc@, mod_inverse(element@, o), old(self).spec_n()),
                None => mod_exp(
                    old(self).spec_g(),
                    seq_prod(final(self).set_view()),
                    old(self).spec_n(),
                ),
            }),
            old(self).acc_invariant() && old(self).trapdoor_sound()
                ==> final(self).acc_invariant(),
            final(self).set_distinct(),
            !final(self).set_view().contains(element@),
    {
        let ghost before = *self;
        if self.remove_exponent(element) {
            proof {
                let s = before.set_view();
                let i = choose|i: int|
                    0 <= i < s.len() && #[trigger] s[i] == element@ && self.set_view() == s.remove(
                        i,
                    );
                lemma_remove_distinct(s, i);
            }
            match self.group.order() {
                Some(o) => {
                    let x_mod_inv = match nat_modinv(element, o) {
                        Some(v) => v,
                        None => {
                            proof {
                                assert(false);
                            }
                            BigNat::zero()
                        },
                    };
                    proof {
                        let y = mod_inverse(element@, o@);
                        assert(is_mod_inverse(element@, x_mod_inv@, o@));
                        assert(is_mod_inverse(element@, y, o@));
                        lemma_mod_inverse_unique(element@, x_mod_inv@, y, o@);
                    }
                    let acc = self.group.exp(&self.acc, &x_mod_inv);
                    self.acc = acc;
                    proof {
                        if before.acc_invariant() && before.trapdoor_sound() {
                            let s = before.set_view();
                            let i = choose|i: int|
                                0 <= i < s.len() && #[trigger] s[i] == element@
                                    && self.set_view() == s.remove(i);
                            lemma_del_keeps_value(self.spec_g(), o@, self.spec_n(), s, i);
                        }
                    }
                },
                None => {
                    let product = self.calculate_product();
                    let acc = self.group.exp(&self.group.g(), &product);
                    self.acc = acc;
                },
            }
        }
    }

    /// A membership witness for an accumulated prime: with a known order,
    /// the accumulator raised to the prime's inverse modulo the order;
    /// otherwise the generator raised to the product of the other primes.
    pub fn mem_proof_create_raw(&self, element: &BigNat) -> (r: AccumulatorResult<BigNat>)
        requires
            self.params_valid(),
            self.set_view().contains(element@) ==> (self.spec_order() matches Some(o) ==> gcd(
                element@,
                o,
            ) == 1),
        ensures
            r is Err <==> !self.set_view().contains(element@),
            r matches Err(e) ==> e == AccumulatorError::ElementNotInSet,
            r matches Ok(p) ==> p@ == self.mem_witness(element@),
            r matches Ok(p) ==> (self.trapdoor_sound() && self.acc_invariant()
                && self.set_distinct() ==> mod_exp(p@, element@, self.spec_n()) == self.acc@),
    {
        if !self.contains(element) {
            return Err(AccumulatorError::ElementNotInSet);
        }
        proof {
            if self.trapdoor_sound() && self.acc_invariant() && self.set_distinct() {
                lemma_mem_witness_verifies(*self, element@);
            }
        }
        match self.group.order() {
            Some(o) => {
                let x_mod_inv = match nat_modinv(element, o) {
                    Some(v) => v,
                    None => {
                        proof {
                            assert(false);
                        }
                        BigNat::zero()
                    },
                };
                proof {
                    let y = mod_inverse(element@, o@);
                    assert(is_mod_inverse(element@, x_mod_inv@, o@));
                    assert(is_mod_inverse(element@, y, o@));
                    lemma_mod_inverse_unique(element@, x_mod_inv@, y, o@);
                }
                Ok(self.group.exp(&self.acc, &x_mod_inv))
            },
            None => {
                let mut product = BigNat::from_u32(1);
                let mut i: usize = 0;
                while i < self.set.len()
                    invariant
                        i <= self.set.len(),
                        product@ == prod_except(self.set_view().take(i as int), element@),
                    decreases self.set.len() - i,
                {
                    let ghost s = self.set_view().take(i as int + 1);
                    assert(s.drop_last() =~= self.set_view().take(i as int));
                    if !nat_eq(&self.set[i], element) {
                        product = nat_mul(&product, &self.set[i]);
                    }
                    i = i + 1;
                }
                assert(self.set_view().take(i as int) =~= self.set_view());
                Ok(self.group.exp(&self.group.g(), &product))
            },
        }
    }

    /// A non-membership witness for `element` against `delta` (the product
    /// of the accumulated primes): the Bezout coefficients `(a, b)` of
    /// `(delta, element)` as `(a, g^b)`, reduced modulo the order when it is
    /// known. Fails with `NotCoprime` when `gcd(delta, element) != 1`.
    pub fn non_mem_proof_create_raw(&self, element: &BigNat, delta: &BigSigned) -> (r:
        AccumulatorResult<(BigSigned, BigNat)>)
        requires
            self.params_valid(),
            non_mem_witness_defined(
                delta@,
                element@,
                self.spec_g(),
                self.spec_n(),
                self.spec_order(),
            ),
        ensures
            r is Err <==> gcd(abs(delta@), element@) != 1,
            r matches Err(e) ==> e == AccumulatorError::NotCoprime,
            r matches Ok(w) ==> (w.0@, w.1@) == non_mem_witness(
                delta@,
                element@,
                self.spec_g(),
                self.spec_n(),
                self.spec_order(),
            ),
            r is Ok ==> bezout_a(delta@, element@ as int) * delta@ + bezout_b(
                delta@,
                element@ as int,
            ) * element@ == 1,
            r matches Ok(w) ==> (self.trapdoor_sound() && delta@ >= 0 && self.acc@ == mod_exp(
                self.spec_g(),
                delta@ as nat,
                self.spec_n(),
            ) && (self.spec_order() is None ==> gcd(self.spec_g(), self.spec_n()) == 1)
                ==> non_mem_holds(
                self.acc@,
                (w.0@, w.1@),
                element@,
                self.spec_g(),
                self.spec_n(),
            )),
    {
        let r = self.bezout_witness(element, delta);
        proof {
            if r is Ok && self.trapdoor_sound() && delta@ >= 0 && self.acc@ == mod_exp(
                self.spec_g(),
                delta@ as nat,
                self.spec_n(),
            ) && (self.spec_order() is None ==> gcd(self.spec_g(), self.spec_n()) == 1) {
                lemma_non_mem_witness_verifies(
                    *self,
                    delta@ as nat,
                    element@,
                    (bezout_a(delta@, element@ as int), bezout_b(delta@, element@ as int)),
                );
            }
        }
        r
    }

    /// The Bezout witness `(a, g^b)` of `(delta, x)`, shared by
    /// non-membership witnesses and their blinded updates.
    fn bezout_witness(&self, x: &BigNat, delta: &BigSigned) -> (r: AccumulatorResult<
        (BigSigned, BigNat),
    >)
        requires
            self.params_valid(),
            non_mem_witness_defined(delta@, x@, self.spec_g(), self.spec_n(), self.spec_order()),
        ensures
            r is Err <==> gcd(abs(delta@), x@) != 1,
            r matches Err(e) ==> e == AccumulatorError::NotCoprime,
            r matches Ok(w) ==> (w.0@, w.1@) == non_mem_witness(
                delta@,
                x@,
                self.spec_g(),
                self.spec_n(),
                self.spec_order(),
            ),
            r is Ok ==> bezout_a(delta@, x@ as int) * delta@ + bezout_b(delta@, x@ as int) * x@
                == 1,
    {
        let x_int = BigSigned::from_nat(x.clone());
        let (g_, a, b) = int_extended_gcd(delta, &x_int);
        proof {
            assert(abs(x_int@) == x@);
        }
        if !g_.value_eq(&BigNat::from_u32(1)) {
            return Err(AccumulatorError::NotCoprime);
        }
        proof {
            assert(a@ * delta@ + b@ * x@ == 1) by (nonlinear_arith)
                requires
                    1 == delta@ * a@ + x_int@ * b@,
                    x_int@ == x@ as int,
            ;
        }
        self.witness_from_bezout(&g_, &a, &b)
    }

    /// The non-membership witness made of Bezout coefficients `(a, b)` whose
    /// gcd is `gcd_value`: `(a, g^b)`, both reduced modulo the order when it
    /// is known. Fails with `NotCoprime` when `gcd_value != 1`.
    pub fn witness_from_bezout(&self, gcd_value: &BigNat, a: &BigSigned, b: &BigSigned) -> (r:
        AccumulatorResult<(BigSigned, BigNat)>)
        requires
            self.params_valid(),
            gcd_value@ == 1 && self.spec_order() is None && b@ < 0 ==> gcd(
                self.spec_g(),
                self.spec_n(),
            ) == 1,
        ensures
            r is Err <==> gcd_value@ != 1,
            r matches Err(e) ==> e == AccumulatorError::NotCoprime,
            r matches Ok(w) ==> (w.0@, w.1@) == witness_of(
                a@,
                b@,
                self.spec_g(),
                self.spec_n(),
                self.spec_order(),
            ),
    {
        if !gcd_value.value_eq(&BigNat::from_u32(1)) {
            return Err(AccumulatorError::NotCoprime);
        }
        match self.group.order() {
            Some(o) => {
                let a_mod = int_mod_floor(a, o);
                let b_mod = int_mod_floor(b, o);
                let gb = self.group.exp(&self.group.g(), &b_mod);
                Ok((BigSigned::from_nat(a_mod), gb))
            },
            None => {
                let gb = self.group.signed_exp(&self.group.g(), b);
                Ok((a.clone(), gb))
            },
        }
    }

    /// Check a non-membership witness `(a, b)` for `element`:
    /// `acc^a * b^element == g`.
    pub fn non_mem_ver_raw(&self, proof: &(BigSigned, BigNat), element: &BigNat) -> (r: bool)
        requires
            self.spec_n() > 0,
            proof.0@ < 0 ==> gcd(self.acc@, self.spec_n()) == 1,
        ensures
            r == non_mem_holds(
                self.acc@,
                (proof.0@, proof.1@),
                element@,
                self.spec_g(),
                self.spec_n(),
            ),
    {
        let lhs = self.group.signed_exp(&self.acc, &proof.0);
        let rhs = self.group.exp(&proof.1, element);
        let prod = self.group.mul(&lhs, &rhs);
        nat_eq(&prod, &self.group.g())
    }

    /// Update a blinded membership witness after elements whose product is
    /// `delta` were added: `a = blinded^delta`, `b = g^delta` (the delta
    /// reduced modulo the order when it is known), with proofs that the
    /// accumulator and the witness were raised by the same exponent.
    /// Fails with `NegativeDelta` when `delta < 0`.
    pub fn blind_mem_proof_upd_raw(&self, acc_t: &BigNat, blinded_proof: &BigNat, delta: &BigSigned) -> (r:
        AccumulatorResult<UpdatedBlindProof>)
        requires
            self.params_valid(),
        ensures
            r is Err <==> delta@ < 0,
            r matches Err(e) ==> e == AccumulatorError::NegativeDelta,
            r matches Ok(u) ==> self.is_mem_update(acc_t@, blinded_proof@, delta@, u),
    {
        let delta_nat = match delta.to_nat() {
            Some(d) => d,
            None => {
                return Err(AccumulatorError::NegativeDelta);
            },
        };
        let delta_uint = match self.group.order() {
            Some(o) => {
                let (_, m) = nat_div_rem(&delta_nat, o);
                m
            },
            None => delta_nat,
        };
        let acc_t_prime = &self.acc;
        let a = self.group.exp(blinded_proof, &delta_uint);
        let g = self.group.g();
        let b = self.group.exp(&g, &delta_uint);
        let nizk = NIZK::setup(&self.group);
        let pi1 = nizk.prove_dleq(blinded_proof, &a, acc_t, acc_t_prime, &delta_uint);
        let pi2 = nizk.prove_dleq(&g, &b, blinded_proof, &a, &delta_uint);
        let ghost av = a@;
        let ghost bv = b@;
        let ghost p1 = (pi1.0@, pi1.1@, pi1.2@);
        let ghost p2 = (pi2.0@, pi2.1@, pi2.2@);
        let u = ((a, b), (pi1, pi2), self.acc.clone());
        proof {
            let d = reduced_delta(delta@, self.spec_order());
            assert(d == delta_uint@);
            assert(u.0.0@ == av && u.0.1@ == bv);
            assert((u.1.0.0@, u.1.0.1@, u.1.0.2@) == p1);
            assert((u.1.1.0@, u.1.1.1@, u.1.1.2@) == p2);
            let (seed1, k1, e1) = choose|seed: Seq<u8>, k: nat, e: nat|
                #[trigger] honest_proof(
                    nizk.spec_group(),
                    blinded_proof@,
                    av,
                    acc_t@,
                    self.acc@,
                    d,
                    p1.0,
                    p1.1,
                    p1.2,
                    seed,
                    k,
                    e,
                );
            assert(honest_proof(
                &self.group,
                blinded_proof@,
                u.0.0@,
                acc_t@,
                self.acc@,
                d,
                u.1.0.0@,
                u.1.0.1@,
                u.1.0.2@,
                seed1,
                k1,
                e1,
            ));
            let (seed2, k2, e2) = choose|seed: Seq<u8>, k: nat, e: nat|
                #[trigger] honest_proof(
                    nizk.spec_group(),
                    self.spec_g(),
                    bv,
                    blinded_proof@,
                    av,
                    d,
                    p2.0,
                    p2.1,
                    p2.2,
                    seed,
                    k,
                    e,
                );
            assert(honest_proof(
                &self.group,
                self.spec_g(),
                u.0.1@,
                blinded_proof@,
                u.0.0@,
                d,
                u.1.1.0@,
                u.1.1.1@,
                u.1.1.2@,
                seed2,
                k2,
                e2,
            ));
            assert(u.0.0@ == mod_exp(blinded_proof@, d, self.spec_n()));
            assert(u.0.1@ == mod_exp(self.spec_g(), d, self.spec_n()));
            assert(u.2@ == self.acc@);
            assert(self.is_mem_update(acc_t@, blinded_proof@, delta@, u));
        }
        Ok(u)
    }

    /// Check a blinded membership update: both proofs of discrete-log
    /// equality verify, for `(blinded, a, acc_t, acc)` and for
    /// `(g, b, blinded, a)`.
    pub fn ver_blind_mem_proof_upd_raw(
        &self,
        acc_t: &BigNat,
        blinded_proof: &BigNat,
        upd_blinded_proof: &(BigNat, BigNat),
        aux: &Aux,
    ) -> (r: bool)
        requires
            self.spec_n() > 0,
        ensures
            exists|e1: nat, e2: nat|
                #[trigger] self.update_challenges(
                    acc_t@,
                    blinded_proof@,
                    upd_blinded_proof.0@,
                    upd_blinded_proof.1@,
                    (aux.0.0@, aux.0.1@, aux.0.2@),
                    (aux.1.0@, aux.1.1@, aux.1.2@),
                    e1,
                    e2,
                ) && r == self.update_holds(
                    acc_t@,
                    blinded_proof@,
                    upd_blinded_proof.0@,
                    upd_blinded_proof.1@,
                    (aux.0.0@, aux.0.1@, aux.0.2@),
                    (aux.1.0@, aux.1.1@, aux.1.2@),
                    e1,
                    e2,
                ),
    {
        let pi1 = &aux.0;
        let pi2 = &aux.1;
        let a = &upd_blinded_proof.0;
        let b = &upd_blinded_proof.1;
        let nizk = NIZK::setup(&self.group);
        let acc_t_prime = &self.acc;
        let g = self.group.g();
        let d1 = nizk.verify_dleq(blinded_proof, a, acc_t, acc_t_prime, pi1);
        let d2 = nizk.verify_dleq(&g, b, blinded_proof, a, pi2);
        proof {
            let e1 = choose|e: nat|
                #[trigger] verified_with(
                    nizk.spec_group(),
                    blinded_proof@,
                    a@,
                    acc_t@,
                    acc_t_prime@,
                    pi1.0@,
                    pi1.1@,
                    pi1.2@,
                    e,
                    d1,
                );
            let e2 = choose|e: nat|
                #[trigger] verified_with(
                    nizk.spec_group(),
                    g@,
                    b@,
                    blinded_proof@,
                    a@,
                    pi2.0@,
                    pi2.1@,
                    pi2.2@,
                    e,
                    d2,
                );
            assert(self.update_challenges(
                acc_t@,
                blinded_proof@,
                a@,
                b@,
                (pi1.0@, pi1.1@, pi1.2@),
                (pi2.0@, pi2.1@, pi2.2@),
                e1,
                e2,
            ));
        }
        d1 && d2
    }

    /// Blind a non-membership request for `element`: `(element * q, q)` for
    /// a fresh prime `q` hashed from a random 128-bit number; `(0, 1)` when
    /// the element is a member.
    pub fn blind_non_mem_proof_raw(&self, element: &BigNat) -> (r: (BigNat, BigNat))
        requires
            self.group.spec_wf(),
        ensures
            self.set_view().contains(element@) ==> r.0@ == 0 && r.1@ == 1,
            !self.set_view().contains(element@) ==> r.0@ == element@ * r.1@ && exists|
                seed: nat,
            |
                seed < vstd::arithmetic::power2::pow2(128) && #[trigger] self.group.spec_hashes_to(
                    crate::bignum::be_bytes(seed),
                    r.1@,
                ),
    {
        if self.contains(element) {
            (BigNat::from_u32(0), BigNat::from_u32(1))
        } else {
            let seed = random_bits(128);
            let seed_bytes = seed.to_bytes_be();
            let q = self.group.hash_to_prime(seed_bytes.as_slice());
            assert(self.group.spec_hashes_to(crate::bignum::be_bytes(seed@), q@));
            let blinded_non_mem_proof = nat_mul(element, &q);
            let r = (blinded_non_mem_proof, q);
            assert(seed@ < vstd::arithmetic::power2::pow2(128) && self.group.spec_hashes_to(
                crate::bignum::be_bytes(seed@),
                r.1@,
            ));
            r
        }
    }

    /// Update a blinded non-membership witness against `delta`: the Bezout
    /// witness of `(delta, blinded)`. Fails with `NotCoprime` when they
    /// share a factor.
    pub fn blind_non_mem_proof_upd_raw(&self, blinded_non_mem_proof: &BigNat, delta: &BigSigned) -> (r:
        AccumulatorResult<(BigSigned, BigNat)>)
        requires
            self.params_valid(),
            non_mem_witness_defined(
                delta@,
                blinded_non_mem_proof@,
                self.spec_g(),
                self.spec_n(),
                self.spec_order(),
            ),
        ensures
            r is Err <==> gcd(abs(delta@), blinded_non_mem_proof@) != 1,
            r matches Err(e) ==> e == AccumulatorError::NotCoprime,
            r matches Ok(w) ==> (w.0@, w.1@) == non_mem_witness(
                delta@,
                blinded_non_mem_proof@,
                self.spec_g(),
                self.spec_n(),
                self.spec_order(),
            ),
            r is Ok ==> bezout_a(delta@, blinded_non_mem_proof@ as int) * delta@ + bezout_b(
                delta@,
                blinded_non_mem_proof@ as int,
            ) * blinded_non_mem_proof@ == 1,
            r matches Ok(w) ==> (self.trapdoor_sound() && delta@ >= 0 && self.acc@ == mod_exp(
                self.spec_g(),
                delta@ as nat,
                self.spec_n(),
            ) && (self.spec_order() is None ==> gcd(self.spec_g(), self.spec_n()) == 1)
                ==> non_mem_holds(
                self.acc@,
                (w.0@, w.1@),
                blinded_non_mem_proof@,
                self.spec_g(),
                self.spec_n(),
            )),
    {
        let r = self.bezout_witness(blinded_non_mem_proof, delta);
        proof {
            if r is Ok && self.trapdoor_sound() && delta@ >= 0 && self.acc@ == mod_exp(
                self.spec_g(),
                delta@ as nat,
                self.spec_n(),
            ) && (self.spec_order() is None ==> gcd(self.spec_g(), self.spec_n()) == 1) {
                lemma_non_mem_witness_verifies(
                    *self,
                    delta@ as nat,
                    blinded_non_mem_proof@,
                    (
                        bezout_a(delta@, blinded_non_mem_proof@ as int),
                        bezout_b(delta@, blinded_non_mem_proof@ as int),
                    ),
                );
            }
        }
        r
    }

    /// Check an updated blinded non-membership witness `(a, b)` against the
    /// new accumulator value: `acc_t_prime^a * b^blinded == g`.
    pub fn ver_blind_non_mem_proof_upd_raw(
        &self,
        acc_t_prime: &BigNat,
        blinded_non_mem_proof: &BigNat,
        upd_blinded_non_mem_proof: &(BigSigned, BigNat),
    ) -> (r: bool)
        requires
            self.spec_n() > 0,
            upd_blinded_non_mem_proof.0@ < 0 ==> gcd(acc_t_prime@, self.spec_n()) == 1,
        ensures
            r == non_mem_holds(
                acc_t_prime@,
                (upd_blinded_non_mem_proof.0@, upd_blinded_non_mem_proof.1@),
                blinded_non_mem_proof@,
                self.spec_g(),
                self.spec_n(),
            ),
    {
        let a = &upd_blinded_non_mem_proof.0;
        let b = &upd_blinded_non_mem_proof.1;
        let lhs = self.group.signed_exp(acc_t_prime, a);
        let rhs = self.group.exp(b, blinded_non_mem_proof);
        let prod = self.group.mul(&lhs, &rhs);
        nat_eq(&prod, &self.group.g())
    }

    /// Unblind an updated non-membership witness `(a, b)` with the blinding
    /// prime `st`: `(a, b^st)`.
    pub fn unblind_non_mem_proof_raw(&self, st: &BigNat, upd_blinded_non_mem_proof: &(
        BigSigned,
        BigNat,
    )) -> (r: (BigSigned, BigNat))
        requires
            self.spec_n() > 0,
        ensures
            r.0@ == upd_blinded_non_mem_proof.0@,
            r.1@ == mod_exp(upd_blinded_non_mem_proof.1@, st@, self.spec_n()),
    {
        let a = &upd_blinded_non_mem_proof.0;
        let b = &upd_blinded_non_mem_proof.1;
        let b_prime = self.group.exp(b, st);
        (a.clone(), b_prime)
    }
}

impl RsaAccumulator<RsaGroup> {
    /// Whether computing the Bezout witness of `(delta, x)` is defined.
    fn witness_defined(&self, x: &BigNat, delta: &BigSigned) -> (r: bool)
        requires
            self.params_valid(),
        ensures
            r == non_mem_witness_defined(
                delta@,
                x@,
                self.spec_g(),
                self.spec_n(),
                self.spec_order(),
            ),
    {
        let x_int = BigSigned::from_nat(x.clone());
        let (g_, _a, b) = int_extended_gcd(delta, &x_int);
        proof {
            assert(abs(x_int@) == x@);
        }
        if !g_.value_eq(&BigNat::from_u32(1)) || self.group.has_trapdoor() || !b.is_negative() {
            return true;
        }
        nat_modinv(&self.group.g(), self.group.modulus()).is_some()
    }

    /// `non_mem_proof_create_raw` where it is defined; `None` where it would
    /// need the inverse of a generator that has none.
    pub fn try_non_mem_proof_create_raw(&self, element: &BigNat, delta: &BigSigned) -> (r: Option<
        AccumulatorResult<(BigSigned, BigNat)>,
    >)
        requires
            self.params_valid(),
        ensures
            r is None <==> !non_mem_witness_defined(
                delta@,
                element@,
                self.spec_g(),
                self.spec_n(),
                self.spec_order(),
            ),
            r matches Some(res) ==> (res is Err <==> gcd(abs(delta@), element@) != 1),
            r matches Some(res) ==> (res matches Err(e) ==> e == AccumulatorError::NotCoprime),
            r matches Some(res) ==> (res matches Ok(w) ==> (w.0@, w.1@) == non_mem_witness(
                delta@,
                element@,
                self.spec_g(),
                self.spec_n(),
                self.spec_order(),
            )),
    {
        if self.witness_defined(element, delta) {
            Some(self.non_mem_proof_create_raw(element, delta))
        } else {
            None
        }
    }

    /// `blind_non_mem_proof_upd_raw` where it is defined; `None` where it
    /// would need the inverse of a generator that has none.
    pub fn try_blind_non_mem_proof_upd_raw(&self, blinded_non_mem_proof: &BigNat, delta: &BigSigned) -> (r:
        Option<AccumulatorResult<(BigSigned, BigNat)>>)
        requires
            self.params_valid(),
        ensures
            r is None <==> !non_mem_witness_defined(
                delta@,
                blinded_non_mem_proof@,
                self.spec_g(),
                self.spec_n(),
                self.spec_order(),
            ),
            r matches Some(res) ==> (res is Err <==> gcd(abs(delta@), blinded_non_mem_proof@)
                != 1),
            r matches Some(res) ==> (res matches Err(e) ==> e == AccumulatorError::NotCoprime),
            r matches Some(res) ==> (res matches Ok(w) ==> (w.0@, w.1@) == non_mem_witness(
                delta@,
                blinded_non_mem_proof@,
                self.spec_g(),
                self.spec_n(),
                self.spec_order(),
            )),
    {
        if self.witness_defined(blinded_non_mem_proof, delta) {
            Some(self.blind_non_mem_proof_upd_raw(blinded_non_mem_proof, delta))
        } else {
            None
        }
    }
}

impl Accumulator for RsaAccumulator<RsaGroup> {
    type Group = RsaGroup;
    type Element = BigNat;
    type MembershipProof = BigNat;
    type NonMembershipProof = (BigSigned, BigNat);
    type NonMembershipProduct = BigSigned;

    open spec fn spec_ready(&self) -> bool {
        self.params_valid()
    }

    open spec fn spec_new_ok(group: RsaGroup) -> bool {
        true
    }

    open spec fn spec_add_ok(&self, element: BigNat) -> bool {
        true
    }

    open spec fn spec_del_ok(&self, element: BigNat) -> bool {
        &&& self.set_distinct()
        &&& self.set_view().contains(element@) ==> (self.spec_order() matches Some(o) ==> gcd(
            element@,
            o,
        ) == 1)
    }

    open spec fn spec_mem_proof_ok(&self, element: BigNat) -> bool {
        self.set_view().contains(element@) ==> (self.spec_order() matches Some(o) ==> gcd(
            element@,
            o,
        ) == 1)
    }

    open spec fn spec_non_mem_proof_ok(&self, element: BigNat, prod: BigSigned) -> bool {
        non_mem_witness_defined(prod@, element@, self.spec_g(), self.spec_n(), self.spec_order())
    }

    open spec fn spec_non_mem_ver_ok(&self, proof: (BigSigned, BigNat)) -> bool {
        proof.0@ < 0 ==> gcd(self.acc@, self.spec_n()) == 1
    }

    /// An empty accumulator over `group`, whose value is the generator.
    open spec fn spec_new(group: RsaGroup, r: Self) -> bool {
        &&& r.group == group
        &&& r.acc@ == group.spec_g()
        &&& r.set_view() == Seq::<nat>::empty()
    }

    /// The element is hashed to a prime `r`; a new prime is accumulated by
    /// raising the value to it, a known one changes nothing.
    open spec fn spec_add(&self, element: BigNat, after: Self, r: BigNat) -> bool {
        &&& after.group == self.group
        &&& crate::groups::rsa_group::rsa_hashes_to(decimal_bytes(element@), r@)
        &&& self.set_view().contains(r@) ==> after.set_view() == self.set_view() && after.acc@
            == self.acc@
        &&& !self.set_view().contains(r@) ==> after.set_view() == self.set_view().push(r@)
            && after.acc@ == mod_exp(self.acc@, r@, self.spec_n())
        &&& self.acc_invariant() ==> after.acc_invariant()
        &&& self.set_distinct() ==> after.set_distinct()
    }

    /// A member is removed, by the inverse exponent when the order is known
    /// and else by recomputing from the generator; a non-member changes
    /// nothing.
    open spec fn spec_del(&self, element: BigNat, after: Self) -> bool {
        &&& after.group == self.group
        &&& !self.set_view().contains(element@) ==> after.set_view() == self.set_view()
            && after.acc == self.acc
        &&& self.set_view().contains(element@) ==> (exists|i: int|
            0 <= i < self.set_view().len() && #[trigger] self.set_view()[i] == element@
                && after.set_view() == self.set_view().remove(i))
        &&& self.set_view().contains(element@) ==> after.acc@ == (match self.spec_order() {
            Some(o) => mod_exp(self.acc@, mod_inverse(element@, o), self.spec_n()),
            None => mod_exp(self.spec_g(), seq_prod(after.set_view()), self.spec_n()),
        })
        &&& self.acc_invariant() && self.trapdoor_sound() ==> after.acc_invariant()
        &&& after.set_distinct()
        &&& !after.set_view().contains(element@)
    }

    open spec fn spec_value(&self, r: BigNat) -> bool {
        r == self.acc
    }

    /// The membership witness of a member; `ElementNotInSet` otherwise.
    open spec fn spec_mem_proof_create(&self, element: BigNat, r: AccumulatorResult<BigNat>) -> bool {
        &&& r is Err <==> !self.set_view().contains(element@)
        &&& r matches Err(e) ==> e == AccumulatorError::ElementNotInSet
        &&& r matches Ok(p) ==> p@ == self.mem_witness(element@)
        &&& r matches Ok(p) ==> (self.trapdoor_sound() && self.acc_invariant()
            && self.set_distinct() ==> mod_exp(p@, element@, self.spec_n()) == self.acc@)
    }

    open spec fn spec_mem_ver(&self, proof: BigNat, element: BigNat) -> bool {
        mod_exp(proof@, element@, self.spec_n()) == self.acc@
    }

    /// The Bezout witness against `prod`; `NotCoprime` when `prod` and the
    /// element share a factor.
    open spec fn spec_non_mem_proof_create(
        &self,
        element: BigNat,
        prod: BigSigned,
        r: AccumulatorResult<(BigSigned, BigNat)>,
    ) -> bool {
        &&& r is Err <==> gcd(abs(prod@), element@) != 1
        &&& r matches Err(e) ==> e == AccumulatorError::NotCoprime
        &&& r matches Ok(w) ==> (w.0@, w.1@) == non_mem_witness(
            prod@,
            element@,
            self.spec_g(),
            self.spec_n(),
            self.spec_order(),
        )
        &&& r matches Ok(w) ==> (self.trapdoor_sound() && prod@ >= 0 && self.acc@ == mod_exp(
            self.spec_g(),
            prod@ as nat,
            self.spec_n(),
        ) && (self.spec_order() is None ==> gcd(self.spec_g(), self.spec_n()) == 1)
            ==> non_mem_holds(self.acc@, (w.0@, w.1@), element@, self.spec_g(), self.spec_n()))
    }

    open spec fn spec_non_mem_ver(&self, proof: (BigSigned, BigNat), element: BigNat) -> bool {
        non_mem_holds(self.acc@, (proof.0@, proof.1@), element@, self.spec_g(), self.spec_n())
    }

    /// An empty accumulator over `group`.
    fn new(group: RsaGroup) -> (r: Self) {
        RsaAccumulator::<RsaGroup>::new(group)
    }

    /// `add_raw`.
    fn add(&mut self, element: &BigNat) -> (r: BigNat) {
        let ghost before = *self;
        let r = self.add_raw(element);
        proof {
            if !before.set_view().contains(r@) {
                lemma_add_keeps_value(before.spec_g(), before.spec_n(), before.set_view(), r@);
            }
        }
        r
    }

    /// `del_raw`.
    fn del(&mut self, element: &BigNat) {
        self.del_raw(element)
    }

    /// The accumulator value.
    fn value(&self) -> (r: &BigNat) {
        self.value_raw()
    }

    /// `mem_proof_create_raw`.
    fn mem_proof_create(&self, element: &BigNat) -> (r: AccumulatorResult<BigNat>) {
        self.mem_proof_create_raw(element)
    }

    /// `mem_ver_raw`.
    fn mem_ver(&self, proof: &BigNat, element: &BigNat) -> (r: bool) {
        self.mem_ver_raw(proof, element)
    }

    /// `non_mem_proof_create_raw` against the given product.
    fn non_mem_proof_create(&self, element: &BigNat, prod: &BigSigned) -> (r: AccumulatorResult<
        (BigSigned, BigNat),
    >) {
        self.non_mem_proof_create_raw(element, prod)
    }

    /// `non_mem_ver_raw`.
    fn non_mem_ver(&self, proof: &(BigSigned, BigNat), element: &BigNat) -> (r: bool) {
        self.non_mem_ver_raw(proof, element)
    }
}

impl PrivatelyDelegatableAccumulator for RsaAccumulator<RsaGroup> {
    type BlindedMembershipProof = BigNat;
    type MembershipBlindingFactor = BigNat;
    type UpdatedBlindedMembershipProof = (BigNat, BigNat);
    type MembershipUpdateAux = Aux;
    type BlindedNonMembershipProof = (BigNat, BigNat);
    type UpdatedBlindedNonMembershipProof = (BigSigned, BigNat);
    type Delta = Vec<BigNat>;

    open spec fn spec_unblind_ok(&self, st: BigNat) -> bool {
        gcd(mod_exp(self.spec_g(), st@, self.spec_n()), self.spec_n()) == 1
    }

    open spec fn spec_blind_mem_ok(&self, proof: BigNat) -> bool {
        true
    }

    open spec fn spec_mem_upd_ok(&self, acc_t: BigNat, blinded: BigNat, delta: Vec<BigNat>) -> bool {
        true
    }

    open spec fn spec_blind_non_mem_ok(&self, element: BigNat) -> bool {
        true
    }

    open spec fn spec_unblind_non_mem_ok(&self, st: BigNat) -> bool {
        true
    }

    open spec fn spec_non_mem_upd_ok(&self, blinded: (BigNat, BigNat), delta: Vec<BigNat>) -> bool {
        non_mem_witness_defined(
            seq_prod(nat_views(delta@)) as int,
            blinded.0@,
            self.spec_g(),
            self.spec_n(),
            self.spec_order(),
        )
    }

    open spec fn spec_ver_non_mem_upd_ok(&self, acc_t_prime: BigNat, upd: (BigSigned, BigNat)) -> bool {
        upd.0@ < 0 ==> gcd(acc_t_prime@, self.spec_n()) == 1
    }

    /// The witness times `g` to a blinding exponent drawn by hashing a
    /// random seed.
    open spec fn spec_blind_mem_proof(&self, proof: BigNat, r: (BigNat, BigNat)) -> bool {
        &&& exists|seed: Seq<u8>|
            seed.len() == 32 && #[trigger] crate::groups::rsa_group::rsa_hashes_to(seed, r.1@)
        &&& r.0@ == (proof@ * mod_exp(self.spec_g(), r.1@, self.spec_n())) % self.spec_n()
    }

    /// Always `Ok`: the update by the product of `delta`, reduced modulo
    /// the order when it is known.
    open spec fn spec_blind_mem_proof_upd(
        &self,
        acc_t: BigNat,
        blinded: BigNat,
        delta: Vec<BigNat>,
        r: AccumulatorResult<UpdatedBlindProof>,
    ) -> bool {
        &&& r is Ok
        &&& r matches Ok(u) ==> self.is_mem_update(
            acc_t@,
            blinded@,
            reduced_product(nat_views(delta@), self.spec_order()) as int,
            u,
        )
    }

    /// Whether both proofs of discrete-log equality hold, with challenges
    /// that hashing their transcripts gives.
    open spec fn spec_ver_blind_mem_proof_upd(
        &self,
        acc_t: BigNat,
        blinded: BigNat,
        upd: (BigNat, BigNat),
        aux: Aux,
        r: bool,
    ) -> bool {
        exists|e1: nat, e2: nat|
            #[trigger] self.update_challenges(
                acc_t@,
                blinded@,
                upd.0@,
                upd.1@,
                (aux.0.0@, aux.0.1@, aux.0.2@),
                (aux.1.0@, aux.1.1@, aux.1.2@),
                e1,
                e2,
            ) && r == self.update_holds(
                acc_t@,
                blinded@,
                upd.0@,
                upd.1@,
                (aux.0.0@, aux.0.1@, aux.0.2@),
                (aux.1.0@, aux.1.1@, aux.1.2@),
                e1,
                e2,
            )
    }

    open spec fn spec_unblind_mem_proof(&self, blinded: BigNat, st: BigNat, r: BigNat) -> bool {
        r@ == (blinded@ * mod_inverse(mod_exp(self.spec_g(), st@, self.spec_n()), self.spec_n()))
            % self.spec_n()
    }

    /// A non-member times a blinder hashed to a prime from a random 128-bit
    /// seed, with the blinder; `(0, 1)` for a member.
    open spec fn spec_blind_non_mem_proof(&self, element: BigNat, r: (BigNat, BigNat)) -> bool {
        &&& self.set_view().contains(element@) ==> r.0@ == 0 && r.1@ == 1
        &&& !self.set_view().contains(element@) ==> r.0@ == element@ * r.1@
        &&& !self.set_view().contains(element@) ==> exists|seed: nat|
            seed < pow2(128) && #[trigger] crate::groups::rsa_group::rsa_hashes_to(
                crate::bignum::be_bytes(seed),
                r.1@,
            )
    }

    /// The Bezout witness of the blinded value against the product of
    /// `delta`; `NotCoprime` when they share a factor.
    open spec fn spec_blind_non_mem_proof_upd(
        &self,
        blinded: (BigNat, BigNat),
        delta: Vec<BigNat>,
        r: AccumulatorResult<(BigSigned, BigNat)>,
    ) -> bool {
        &&& r is Err <==> gcd(seq_prod(nat_views(delta@)), blinded.0@) != 1
        &&& r matches Err(e) ==> e == AccumulatorError::NotCoprime
        &&& r matches Ok(w) ==> (w.0@, w.1@) == non_mem_witness(
            seq_prod(nat_views(delta@)) as int,
            blinded.0@,
            self.spec_g(),
            self.spec_n(),
            self.spec_order(),
        )
    }

    open spec fn spec_ver_blind_non_mem_proof_upd(
        &self,
        acc_t_prime: BigNat,
        blinded: (BigNat, BigNat),
        upd: (BigSigned, BigNat),
    ) -> bool {
        non_mem_holds(acc_t_prime@, (upd.0@, upd.1@), blinded.0@, self.spec_g(), self.spec_n())
    }

    open spec fn spec_unblind_non_mem_proof(
        &self,
        st: BigNat,
        upd: (BigSigned, BigNat),
        r: (BigSigned, BigNat),
    ) -> bool {
        &&& r.0@ == upd.0@
        &&& r.1@ == mod_exp(upd.1@, st@, self.spec_n())
    }

    /// `blind_mem_proof_raw`.
    fn blind_mem_proof(&self, proof: &BigNat) -> (r: (BigNat, BigNat)) {
        self.blind_mem_proof_raw(proof)
    }

    /// `blind_mem_proof_upd_raw` with the product of `delta`, reduced
    /// modulo the order when it is known.
    fn blind_mem_proof_upd(&self, acc_t: &BigNat, blinded_proof: &BigNat, delta: &Vec<BigNat>) -> (r:
        AccumulatorResult<UpdatedBlindProof>) {
        let product = fold_product(delta, self.group.order());
        let delta_int = BigSigned::from_nat(product);
        self.blind_mem_proof_upd_raw(acc_t, blinded_proof, &delta_int)
    }

    /// `ver_blind_mem_proof_upd_raw`.
    fn ver_blind_mem_proof_upd(
        &self,
        acc_t: &BigNat,
        blinded_proof: &BigNat,
        upd_blinded_proof: &(BigNat, BigNat),
        aux: &Aux,
    ) -> (r: bool) {
        self.ver_blind_mem_proof_upd_raw(acc_t, blinded_proof, upd_blinded_proof, aux)
    }

    /// `unblind_mem_proof_raw`: for a witness blinded and not updated since
    /// (an updated one is unblinded by `unblind_updated_mem_proof_raw`).
    fn unblind_mem_proof(&self, blinded_proof: &BigNat, st: &BigNat) -> (r: BigNat) {
        self.unblind_mem_proof_raw(blinded_proof, st)
    }

    /// `blind_non_mem_proof_raw`.
    fn blind_non_mem_proof(&self, element: &BigNat) -> (r: (BigNat, BigNat)) {
        self.blind_non_mem_proof_raw(element)
    }

    /// `blind_non_mem_proof_upd_raw` with the product of `delta`.
    fn blind_non_mem_proof_upd(&self, blinded_non_mem_proof: &(BigNat, BigNat), delta: &Vec<BigNat>) -> (r:
        AccumulatorResult<(BigSigned, BigNat)>) {
        let product = fold_product(delta, None);
        let delta_int = BigSigned::from_nat(product);
        self.blind_non_mem_proof_upd_raw(&blinded_non_mem_proof.0, &delta_int)
    }

    /// `ver_blind_non_mem_proof_upd_raw` on the blinded value.
    fn ver_blind_non_mem_proof_upd(
        &self,
        acc_t_prime: &BigNat,
        blinded_non_mem_proof: &(BigNat, BigNat),
        upd_blinded_non_mem_proof: &(BigSigned, BigNat),
    ) -> (r: bool) {
        self.ver_blind_non_mem_proof_upd_raw(
            acc_t_prime,
            &blinded_non_mem_proof.0,
            upd_blinded_non_mem_proof,
        )
    }

    /// `unblind_non_mem_proof_raw`.
    fn unblind_non_mem_proof(&self, st: &BigNat, upd_blinded_non_mem_proof: &(BigSigned, BigNat)) -> (r:
        (BigSigned, BigNat)) {
        self.unblind_non_mem_proof_raw(st, upd_blinded_non_mem_proof)
    }
}

} // verus!

//! The bilinear (KZG) accumulator over BLS12-381: the set is the roots of
//! a polynomial, the accumulator value is the polynomial's commitment, and
//! witnesses are commitments to quotients.

use vstd::prelude::*;
use crate::groups::bilinear_group::BilinearG1;
use crate::groups::bls12_381::{
    G1, G2, Scalar, g1_negation, g1_scaled, g1_sum, g1_views, g2_negation, g2_scaled, g2_sum,
    kzg_commit, kzg_commitment, pairing_check, pairing_products_equal, scalar_modulus,
    scalar_views,
};
use crate::error::{AccumulatorError, AccumulatorResult};
use crate::traits::{Accumulator, PrivatelyDelegatableAccumulator};
use crate::groups::rsa_group::{is_mod_inverse, lemma_mod_inverse_unique, mod_inverse};
use crate::nizk::{BilinearNIZK, poe_challenge, poe_holds, scalar_neg};
use crate::poly::{
    Poly, horner, linear_product, quotient, shifted_scaled, times_linear, trim, lemma_trim_len,
    lemma_divide_linear_product, lemma_linear_product_factor, lemma_linear_product_shape,
};

verus! {

/// A membership witness: the commitment to the quotient by `X - element`.
pub struct MembershipProof {
    pub pi: G1,
}

/// A non-membership witness: the remainder `y` and the commitment `b` to
/// the quotient by `X - element`.
pub struct NonMembershipProof {
    pub y: Scalar,
    pub b: G1,
}

/// A membership witness with what its holder needs to blind it.
pub struct ProverMembershipProof {
    pub proof: MembershipProof,
    pub element: Scalar,
    pub witness_poly: Poly,
}

/// A blinded membership witness: the blinded witness, the blinded shifted
/// commitments, and the set polynomial it was made for.
pub struct BlindedMembershipBundle {
    pub pi_blinded: G1,
    pub crs_prime: Vec<G1>,
    pub poly_s: Poly,
}

/// An updated blinded membership witness and the update polynomial.
pub struct UpdatedBlindedMembershipBundle {
    pub pi_prime: G1,
    pub q_star: Poly,
}

/// The proof that a membership update was done right.
pub type MembershipUpdateAux = (G1, G1, G1, Scalar, G1);

/// A blinded non-membership witness with what its holder keeps.
pub struct BlindedNonMembershipBundle {
    pub crs_prime: (G1, G1),
    pub y_prime: Scalar,
    pub r: Scalar,
    pub element: Scalar,
    pub acc_t: G1,
}

/// An updated blinded non-membership witness with what unblinding needs.
pub struct UpdatedBlindedNonMembershipBundle {
    pub q_prime: G1,
    pub y_prime_t_prime: Scalar,
    pub g2_sn_plus_one: G2,
    pub y_prime_t: Scalar,
    pub element: Scalar,
}

/// A bilinear accumulator: the reference string, the commitment to the
/// set polynomial, the polynomial, and the elements (without repetitions).
pub struct BilinearAccumulator {
    pub group: BilinearG1,
    acc: G1,
    poly: Poly,
    elements: Vec<Scalar>,
}

impl BilinearAccumulator {
    /// The reference string.
    pub closed spec fn spec_group(&self) -> BilinearG1 {
        self.group
    }

    /// The accumulator value.
    pub closed spec fn spec_acc(&self) -> Seq<u8> {
        self.acc@
    }

    /// The set polynomial.
    pub closed spec fn spec_poly(&self) -> Seq<nat> {
        self.poly@
    }

    /// The elements, in the order they were added.
    pub closed spec fn spec_elements(&self) -> Seq<nat> {
        scalar_views(self.elements@)
    }

    /// The powers of the reference string in G1.
    pub open spec fn crs(&self) -> Seq<Seq<u8>> {
        g1_views(self.spec_group().crs_g1@)
    }

    /// The state is consistent: the reference string has its base points,
    /// the polynomial is the product of `X - e` over the elements and fits
    /// the reference string, and no element repeats.
    pub open spec fn inv(&self) -> bool {
        &&& self.spec_group().crs_g1@.len() >= 1
        &&& self.spec_group().crs_g2@.len() >= 2
        &&& self.spec_poly() == linear_product(self.spec_elements())
        &&& self.spec_poly().len() <= self.spec_group().crs_g1@.len()
        &&& self.spec_poly().len() == self.spec_elements().len() + 1
        &&& self.spec_elements().no_duplicates()
    }

    /// The accumulator value is the commitment to the set polynomial.
    pub open spec fn value_committed(&self) -> bool {
        self.spec_acc() == self.commitment(self.spec_poly())
    }

    /// The commitment to `p` under the reference string.
    pub open spec fn commitment(&self, p: Seq<nat>) -> Seq<u8> {
        kzg_commitment(self.crs(), p)
    }

    /// `g2_tau - s * g2`, as the verifiers compute it.
    pub open spec fn g2_tau_minus(&self, s: nat) -> Seq<u8> {
        g2_sum(self.spec_group().crs_g2@[1]@, g2_negation(g2_scaled(self.spec_group().crs_g2@[0]@, s)))
    }

    /// The commitments to `X^i * p` for `i` below `len`.
    pub open spec fn shift_coms(&self, p: Seq<nat>, len: nat) -> Seq<Seq<u8>> {
        Seq::new(len, |i: int| self.commitment(trim(shifted_scaled(p, 1, i as nat))))
    }

    /// An accumulator of the empty set over a fresh reference string for up
    /// to `max_elements` elements: the polynomial one, whose commitment is
    /// the first power.
    pub fn setup(max_elements: usize) -> (r: BilinearAccumulator)
        requires
            1 <= max_elements < usize::MAX,
        ensures
            r.inv(),
            r.value_committed(),
            r.spec_group().crs_g1@.len() == max_elements + 1,
            r.spec_group().crs_g2@.len() == 2,
            r.spec_acc() == r.spec_group().crs_g1@[0]@,
            r.spec_poly() == seq![1nat],
            r.spec_elements() == Seq::<nat>::empty(),
    {
        let group = BilinearG1::new(max_elements);
        BilinearAccumulator::new(group)
    }

    /// An accumulator of the empty set over `group`: the polynomial one,
    /// whose commitment is the first power.
    pub fn new(group: BilinearG1) -> (r: BilinearAccumulator)
        requires
            group.crs_g1@.len() >= 1,
            group.crs_g2@.len() >= 2,
        ensures
            r.inv(),
            group.commits_one_to_first() ==> r.value_committed(),
            r.spec_group() == group,
            r.spec_group().crs_g1@.len() == group.crs_g1@.len(),
            r.crs() == g1_views(group.crs_g1@),
            r.spec_group().crs_g2@ == group.crs_g2@,
            r.spec_acc() == group.crs_g1@[0]@,
            r.spec_poly() == seq![1nat],
            r.spec_elements() == Seq::<nat>::empty(),
    {
        let poly = Poly::one();
        let acc = group.crs_g1[0].clone();
        let elements: Vec<Scalar> = Vec::new();
        let r = BilinearAccumulator { group, acc, poly, elements };
        assert(r.spec_elements() =~= Seq::<nat>::empty());
        assert(linear_product(Seq::<nat>::empty()) == seq![1nat]);
        r
    }

    /// The accumulator value.
    pub fn value(&self) -> (r: G1)
        ensures
            r@ == self.spec_acc(),
    {
        self.acc.clone()
    }

    /// Whether `element` is accumulated.
    pub fn contains(&self, element: &Scalar) -> (r: bool)
        ensures
            r == self.spec_elements().contains(element@),
    {
        let mut i: usize = 0;
        while i < self.elements.len()
            invariant
                i <= self.elements@.len(),
                forall|j: int| 0 <= j < i ==> self.spec_elements()[j] != element@,
            decreases self.elements.len() - i,
        {
            if self.elements[i].equals(element) {
                assert(self.spec_elements()[i as int] == element@);
                return true;
            }
            i = i + 1;
        }
        false
    }

    /// The commitment to `poly` under `crs` (the reference string when
    /// `None`).
    fn kzg_com(&self, crs: &Option<Vec<G1>>, poly: &Poly) -> (r: G1)
        requires
            (if poly@.len() == 0 { 1 } else { poly@.len() }) <= (match crs {
                Some(c) => c@.len(),
                None => self.spec_group().crs_g1@.len(),
            }),
        ensures
            r@ == kzg_commitment(
                match crs {
                    Some(c) => g1_views(c@),
                    None => self.crs(),
                },
                poly@,
            ),
    {
        proof {
            use_type_invariant(poly);
        }
        let powers = match crs {
            Some(c) => c.as_slice(),
            None => self.group.crs_g1.as_slice(),
        };
        match kzg_commit(powers, poly.coeffs().as_slice()) {
            Some(c) => c,
            None => {
                proof {
                    assert(false);
                }
                G1::identity()
            },
        }
    }

    /// Division of `poly` by `X - c`: the quotient and the remainder.
    pub fn syn_div(poly: &Poly, c: &Scalar) -> (r: (Poly, Scalar))
        ensures
            r.0@ == quotient(poly@, c@),
            r.1@ == horner(poly@, c@),
    {
        poly.syn_div(c)
    }

    /// Add an element: multiply the polynomial by `X - element` and commit.
    /// Returns whether the element was new.
    pub fn add(&mut self, element: &Scalar) -> (r: bool)
        requires
            old(self).inv(),
            !old(self).spec_elements().contains(element@) ==> old(self).spec_poly().len() + 1
                <= old(self).spec_group().crs_g1@.len(),
        ensures
            final(self).inv(),
            final(self).spec_group() == old(self).spec_group(),
            r == !old(self).spec_elements().contains(element@),
            old(self).value_committed() ==> final(self).value_committed(),
            !r ==> final(self).spec_poly() == old(self).spec_poly() && final(self).spec_acc()
                == old(self).spec_acc() && final(self).spec_elements() == old(self).spec_elements(),
            r ==> final(self).spec_poly() == times_linear(old(self).spec_poly(), element@),
            r ==> final(self).spec_acc() == final(self).commitment(final(self).spec_poly()),
            r ==> final(self).spec_elements() == old(self).spec_elements().push(element@),
    {
        if self.contains(element) {
            return false;
        }
        let capacity = self.group.crs_g1.len();
        assert(capacity == self.spec_group().crs_g1@.len());
        let poly = self.poly.mul_linear(element);
        let acc = self.kzg_com(&None, &poly);
        self.poly = poly;
        self.acc = acc;
        let ghost before = self.spec_elements();
        let e = element.clone();
        self.elements.push(e);
        proof {
            assert(self.spec_elements() =~= before.push(element@));
            assert(self.spec_elements().drop_last() =~= before);
            lemma_linear_product_shape(self.spec_elements());
            assert(self.spec_elements().no_duplicates()) by {
                assert forall|i: int, j: int|
                    0 <= i < self.spec_elements().len() && 0 <= j < self.spec_elements().len()
                        && i != j implies self.spec_elements()[i] != self.spec_elements()[j] by {
                    if i < before.len() && j < before.len() {
                    } else if i == before.len() {
                        assert(before[j] != element@);
                    } else {
                        assert(before[i] != element@);
                    }
                }
            }
        }
        true
    }

    /// Delete an element: divide the polynomial by `X - element` and
    /// commit. Returns whether the element was there.
    pub fn del(&mut self, element: &Scalar) -> (r: bool)
        requires
            old(self).inv(),
        ensures
            final(self).inv(),
            final(self).spec_group() == old(self).spec_group(),
            r == old(self).spec_elements().contains(element@),
            old(self).value_committed() ==> final(self).value_committed(),
            !r ==> final(self).spec_poly() == old(self).spec_poly() && final(self).spec_acc()
                == old(self).spec_acc() && final(self).spec_elements() == old(self).spec_elements(),
            r ==> final(self).spec_poly() == quotient(old(self).spec_poly(), element@),
            r ==> final(self).spec_acc() == final(self).commitment(final(self).spec_poly()),
            r ==> exists|i: int|
                0 <= i < old(self).spec_elements().len() && #[trigger] old(self).spec_elements()[i] == element@ && final(self).spec_elements() == old(self).spec_elements().remove(i),
    {
        let mut i: usize = 0;
        while i < self.elements.len()
            invariant
                i <= self.elements@.len(),
                self == old(self),
                self.inv(),
                forall|j: int| 0 <= j < i ==> self.spec_elements()[j] != element@,
            decreases self.elements.len() - i,
        {
            if self.elements[i].equals(element) {
                let ghost before = self.spec_elements();
                let (q, _) = self.poly.syn_div(element);
                let acc = self.kzg_com(&None, &q);
                self.poly = q;
                self.acc = acc;
                self.elements.remove(i);
                proof {
                    assert(self.spec_elements() =~= before.remove(i as int));
                    assert(before[i as int] == element@);
                    lemma_divide_linear_product(before, i as int);
                    lemma_linear_product_shape(self.spec_elements());
                    assert(self.spec_elements().no_duplicates()) by {
                        assert forall|a: int, b: int|
                            0 <= a < self.spec_elements().len() && 0 <= b
                                < self.spec_elements().len() && a != b implies self.spec_elements()[a]
                            != self.spec_elements()[b] by {
                            let a2 = if a < i { a } else { a + 1 };
                            let b2 = if b < i { b } else { b + 1 };
                            assert(self.spec_elements()[a] == before[a2]);
                            assert(self.spec_elements()[b] == before[b2]);
                        }
                    }
                }
                return true;
            }
            i = i + 1;
        }
        false
    }

    /// A membership witness: the commitment to the quotient of the
    /// polynomial by `X - element`; `None` for a non-member.
    pub fn mem_proof_create(&self, element: &Scalar) -> (r: Option<MembershipProof>)
        requires
            self.inv(),
        ensures
            r is None <==> !self.spec_elements().contains(element@),
            r matches Some(p) ==> p.pi@ == self.commitment(quotient(self.spec_poly(), element@)),
    {
        if !self.contains(element) {
            return None;
        }
        let (q, _) = self.poly.syn_div(element);
        Some(MembershipProof { pi: self.kzg_com(&None, &q) })
    }

    /// A non-membership witness: the remainder of the polynomial at
    /// `element` and the commitment to the quotient; `None` for a member.
    pub fn non_mem_proof_create(&self, element: &Scalar) -> (r: Option<NonMembershipProof>)
        requires
            self.inv(),
        ensures
            r is None <==> self.spec_elements().contains(element@),
            r matches Some(p) ==> p.y@ == horner(self.spec_poly(), element@) && p.b@
                == self.commitment(quotient(self.spec_poly(), element@)),
    {
        if self.contains(element) {
            return None;
        }
        let (q, rem) = self.poly.syn_div(element);
        Some(NonMembershipProof { y: rem, b: self.kzg_com(&None, &q) })
    }

    /// `g2_tau - s * g2`.
    fn tau_minus(&self, s: &Scalar) -> (r: G2)
        requires
            self.spec_group().crs_g2@.len() >= 2,
        ensures
            r@ == self.g2_tau_minus(s@),
    {
        let g2 = &self.group.crs_g2[0];
        let g2_tau = &self.group.crs_g2[1];
        g2_tau.add(&g2.mul(s).neg())
    }

    /// Check a membership witness: `e(pi, g2_tau - s * g2) == e(acc, g2)`.
    pub fn mem_ver(&self, proof: &MembershipProof, element: &Scalar) -> (r: bool)
        requires
            self.inv(),
        ensures
            r == pairing_products_equal(
                seq![(proof.pi@, self.g2_tau_minus(element@))],
                seq![(self.spec_acc(), self.spec_group().crs_g2@[0]@)],
            ),
    {
        let t = self.tau_minus(element);
        let lhs = vec![(proof.pi.clone(), t)];
        let rhs = vec![(self.acc.clone(), self.group.crs_g2[0].clone())];
        let r = pairing_check(lhs.as_slice(), rhs.as_slice());
        proof {
            assert(crate::groups::bls12_381::pair_views(lhs@) =~= seq![
                (proof.pi@, self.g2_tau_minus(element@)),
            ]);
            assert(crate::groups::bls12_381::pair_views(rhs@) =~= seq![
                (self.spec_acc(), self.spec_group().crs_g2@[0]@),
            ]);
        }
        r
    }

    /// Check a non-membership witness:
    /// `e(b, g2_tau - s * g2) * e(y * g1, g2) == e(acc, g2)`.
    pub fn non_mem_ver(&self, proof: &NonMembershipProof, element: &Scalar) -> (r: bool)
        requires
            self.inv(),
        ensures
            r == pairing_products_equal(
                seq![
                    (proof.b@, self.g2_tau_minus(element@)),
                    (g1_scaled(self.spec_group().crs_g1@[0]@, proof.y@), self.spec_group().crs_g2@[0]@),
                ],
                seq![(self.spec_acc(), self.spec_group().crs_g2@[0]@)],
            ),
    {
        let t = self.tau_minus(element);
        let y_g1 = self.group.crs_g1[0].mul(&proof.y);
        let lhs = vec![(proof.b.clone(), t), (y_g1, self.group.crs_g2[0].clone())];
        let rhs = vec![(self.acc.clone(), self.group.crs_g2[0].clone())];
        let r = pairing_check(lhs.as_slice(), rhs.as_slice());
        proof {
            assert(crate::groups::bls12_381::pair_views(lhs@) =~= seq![
                (proof.b@, self.g2_tau_minus(element@)),
                (g1_scaled(self.spec_group().crs_g1@[0]@, proof.y@), self.spec_group().crs_g2@[0]@),
            ]);
            assert(crate::groups::bls12_381::pair_views(rhs@) =~= seq![
                (self.spec_acc(), self.spec_group().crs_g2@[0]@),
            ]);
        }
        r
    }
}


/// The first `len` entries of `v` (all of them when it is shorter).
fn prefix(v: &Vec<G1>, len: usize) -> (r: Vec<G1>)
    ensures
        g1_views(r@) == g1_views(v@).take(if len <= v@.len() { len as int } else { v@.len() as int }),
{
    let n = if len <= v.len() {
        len
    } else {
        v.len()
    };
    let mut out: Vec<G1> = Vec::new();
    let mut i: usize = 0;
    while i < n
        invariant
            i <= n,
            n <= v@.len(),
            g1_views(out@) == g1_views(v@).take(i as int),
        decreases n - i,
    {
        let p = v[i].clone();
        let ghost before = out@;
        out.push(p);
        assert(g1_views(out@) =~= g1_views(before).push(p@));
        assert(g1_views(v@).take(i as int + 1) =~= g1_views(v@).take(i as int).push(v@[i as int]@));
        i = i + 1;
    }
    out
}

/// The inverse of a nonzero scalar, which is the modular inverse.
fn scalar_inverse(r: &Scalar) -> (x: Scalar)
    requires
        r@ != 0,
    ensures
        x@ == mod_inverse(r@, scalar_modulus()),
{
    proof {
        use_type_invariant(r);
    }
    match r.inverse() {
        Some(x) => {
            proof {
                use_type_invariant(&x);
                let m = scalar_modulus();
                vstd::arithmetic::div_mod::lemma_small_mod(1, m);
                assert(is_mod_inverse(r@, x@, m));
                lemma_mod_inverse_unique(r@, x@, mod_inverse(r@, m), m);
            }
            x
        },
        None => {
            proof {
                assert(false);
            }
            Scalar::zero()
        },
    }
}

impl BilinearAccumulator {
    /// Blind a membership witness polynomial `q`: for a random `r`, the
    /// commitments to `r * X^i * q` for `i` up to `k`, and `r`.
    pub fn blind_mem_proof(&self, q: &Poly, k: usize) -> (r: Option<(Vec<G1>, Scalar)>)
        requires
            self.inv(),
            q@.len() + k <= self.spec_group().crs_g1@.len(),
            k < usize::MAX,
        ensures
            r matches Some(b) && b.0@.len() == k + 1 && forall|i: int|
                0 <= i <= k ==> #[trigger] b.0@[i]@ == self.commitment(
                    trim(shifted_scaled(q@, b.1@, i as nat)),
                ),
    {
        let r = Scalar::random();
        let capacity = self.group.crs_g1.len();
        let mut crs_prime: Vec<G1> = Vec::new();
        let mut i: usize = 0;
        while i <= k
            invariant
                self.inv(),
                q@.len() + k <= self.spec_group().crs_g1@.len(),
                capacity == self.spec_group().crs_g1@.len(),
                k < usize::MAX,
                i <= k + 1,
                crs_prime@.len() == i,
                forall|j: int|
                    0 <= j < i ==> #[trigger] crs_prime@[j]@ == self.commitment(
                        trim(shifted_scaled(q@, r@, j as nat)),
                    ),
            decreases k + 1 - i,
        {
            let r_xi_q = q.shift_scale(&r, i);
            proof {
                lemma_trim_len(shifted_scaled(q@, r@, i as nat));
            }
            let c = self.kzg_com(&None, &r_xi_q);
            crs_prime.push(c);
            i = i + 1;
        }
        Some((crs_prime, r))
    }

    /// Update a blinded membership witness `pi` (made against `acc_t`) by
    /// the polynomial `q_star` of the added elements: the commitment to
    /// `q_star` under the blinded powers `crs_prime`, with a proof that
    /// `(acc_t, acc)` and `(pi, pi_prime)` are commitments to `q_star` in
    /// the bases `acc_t` and `pi`, whose powers are `powers_acc_t` and
    /// `crs_prime`.
    pub fn blind_mem_proof_upd(
        &self,
        pi: &G1,
        acc_t: &G1,
        crs_prime: Vec<G1>,
        q_star: Poly,
        powers_acc_t: Vec<G1>,
    ) -> (r: (G1, (G1, G1, G1, Scalar, G1), Poly))
        requires
            self.inv(),
            1 <= q_star@.len() <= self.spec_group().crs_g1@.len(),
            q_star@.len() <= crs_prime@.len(),
            q_star@.len() <= powers_acc_t@.len(),
            crs_prime@[0]@ == pi@,
            powers_acc_t@[0]@ == acc_t@,
        ensures
            r.0@ == kzg_commitment(g1_views(crs_prime@), q_star@),
            r.2@ == q_star@,
            ({
                let l = q_star@.len() as int;
                let c = scalar_neg(poe_challenge(acc_t@, self.spec_acc(), pi@, r.0@, q_star@));
                let q = quotient(q_star@, c);
                &&& r.1.0@ == kzg_commitment(g1_views(powers_acc_t@).take(l), q)
                &&& r.1.1@ == kzg_commitment(g1_views(crs_prime@).take(l), q)
                &&& r.1.2@ == kzg_commitment(self.crs().take(l), q)
                &&& r.1.3@ == horner(q_star@, c)
                &&& r.1.4@ == kzg_commitment(self.crs().take(l), q_star@)
            }),
    {
        let acc_t_prime = self.value();
        let crs_opt = Some(crs_prime);
        let pi_prime = self.kzg_com(&crs_opt, &q_star);
        let crs_prime = match crs_opt {
            Some(c) => c,
            None => Vec::new(),
        };
        let required_len = q_star.len();
        let powers_for_acc_t = prefix(&powers_acc_t, required_len);
        let powers_for_pi = prefix(&crs_prime, required_len);
        let powers_for_g1 = prefix(&self.group.crs_g1, required_len);
        proof {
            assert(g1_views(powers_for_acc_t@).len() == powers_for_acc_t@.len());
            assert(g1_views(powers_for_pi@).len() == powers_for_pi@.len());
            assert(powers_for_acc_t@.len() == required_len);
            assert(powers_for_pi@.len() == required_len);
            assert(powers_for_acc_t@[0]@ == g1_views(powers_for_acc_t@)[0]);
            assert(powers_for_pi@[0]@ == g1_views(powers_for_pi@)[0]);
            assert(g1_views(powers_acc_t@)[0] == powers_acc_t@[0]@);
            assert(g1_views(crs_prime@)[0] == crs_prime@[0]@);
            assert(g1_views(powers_for_g1@).len() == powers_for_g1@.len());
            assert(powers_for_g1@.len() == required_len);
            let c = scalar_neg(poe_challenge(acc_t@, acc_t_prime@, pi@, pi_prime@, q_star@));
            let q = quotient(q_star@, c);
            assert(q.len() <= required_len);
            assert(crate::nizk::fits(q, powers_for_acc_t@));
            assert(crate::nizk::fits(q, powers_for_pi@));
            assert(crate::nizk::fits(q, powers_for_g1@));
            assert(crate::nizk::fits(q_star@, powers_for_g1@));
        }
        let poe = BilinearNIZK::prove_poe_eq(
            powers_for_acc_t.as_slice(),
            powers_for_pi.as_slice(),
            powers_for_g1.as_slice(),
            acc_t,
            &acc_t_prime,
            pi,
            &pi_prime,
            &q_star,
        );
        let proof = match poe {
            Some(p) => p,
            None => {
                proof {
                    assert(false);
                }
                (G1::identity(), G1::identity(), G1::identity(), Scalar::zero(), G1::identity())
            },
        };
        (pi_prime, proof, q_star)
    }

    /// The commitments to `X^i * poly` for `i` below `len`.
    pub fn shift_com(&self, poly: &Poly, len: usize) -> (r: Vec<G1>)
        requires
            self.inv(),
            poly@.len() + len <= self.spec_group().crs_g1@.len() + 1,
        ensures
            r@.len() == len,
            forall|i: int|
                0 <= i < len ==> #[trigger] r@[i]@ == self.commitment(
                    trim(shifted_scaled(poly@, 1, i as nat)),
                ),
    {
        let one = Scalar::one();
        let capacity = self.group.crs_g1.len();
        let mut shifted_coms: Vec<G1> = Vec::new();
        let mut i: usize = 0;
        while i < len
            invariant
                self.inv(),
                capacity == self.spec_group().crs_g1@.len(),
                poly@.len() + len <= self.spec_group().crs_g1@.len() + 1,
                one@ == 1,
                i <= len,
                shifted_coms@.len() == i,
                forall|j: int|
                    0 <= j < i ==> #[trigger] shifted_coms@[j]@ == self.commitment(
                        trim(shifted_scaled(poly@, 1, j as nat)),
                    ),
            decreases len - i,
        {
            let shifted = poly.shift_scale(&one, i);
            proof {
                lemma_trim_len(shifted_scaled(poly@, 1, i as nat));
            }
            shifted_coms.push(self.kzg_com(&None, &shifted));
            i = i + 1;
        }
        shifted_coms
    }

    /// Check an update of a blinded membership witness: the proof that
    /// `(acc_t, acc)` and `(pi, pi_prime)` commit to `delta` in the bases
    /// `acc_t` and `pi`.
    pub fn ver_blind_mem_proof_upd(
        &self,
        pi: &G1,
        pi_prime: &G1,
        acc_t: &G1,
        delta: &Poly,
        poe_eq_proof: &(G1, G1, G1, Scalar, G1),
    ) -> (r: bool)
        requires
            self.inv(),
        ensures
            r == poe_holds(
                self.spec_group().crs_g1@[0]@,
                acc_t@,
                self.spec_acc(),
                pi@,
                pi_prime@,
                self.spec_group().crs_g2@[0]@,
                self.spec_group().crs_g2@[1]@,
                delta@,
                (
                    poe_eq_proof.0@,
                    poe_eq_proof.1@,
                    poe_eq_proof.2@,
                    poe_eq_proof.3@,
                    poe_eq_proof.4@,
                ),
            ),
    {
        let acc_t_prime = &self.acc;
        BilinearNIZK::verify_poe_eq(
            &self.group.crs_g1[0],
            acc_t,
            acc_t_prime,
            pi,
            pi_prime,
            &self.group.crs_g2[0],
            &self.group.crs_g2[1],
            delta,
            poe_eq_proof,
        )
    }

    /// Unblind an updated membership witness: multiply by `r^-1`.
    pub fn unblind_mem_proof(pi_prime: &G1, r: &Scalar) -> (res: G1)
        requires
            r@ != 0,
        ensures
            res@ == g1_scaled(pi_prime@, mod_inverse(r@, scalar_modulus())),
    {
        let r_inv = scalar_inverse(r);
        pi_prime.mul(&r_inv)
    }

    /// Blind a non-membership witness for `element`: for a random `r`,
    /// `(r * b, r * b_tau)` where `b_tau` commits to `X * q`, with `r * y`,
    /// and `r`.
    pub fn blind_non_mem_proof(&self, proof: &NonMembershipProof, element: &Scalar) -> (r: (
        ((G1, G1), Scalar),
        Scalar,
    ))
        requires
            self.inv(),
            proof.y@ == horner(self.spec_poly(), element@),
        ensures
            ({
                let q = quotient(self.spec_poly(), element@);
                let b_tau = self.commitment(trim(shifted_scaled(q, 1, 1)));
                &&& r.0.0.0@ == g1_scaled(proof.b@, r.1@)
                &&& r.0.0.1@ == g1_scaled(b_tau, r.1@)
                &&& r.0.1@ == (r.1@ * proof.y@) % scalar_modulus()
            }),
    {
        let r = Scalar::random();
        let capacity = self.group.crs_g1.len();
        assert(capacity == self.spec_group().crs_g1@.len());
        let (q_poly, _rem) = self.poly.syn_div(element);
        let x_q = q_poly.shift_scale(&Scalar::one(), 1);
        proof {
            lemma_trim_len(shifted_scaled(q_poly@, 1, 1));
        }
        let b_tau = self.kzg_com(&None, &x_q);
        let crs_prime = (proof.b.mul(&r), b_tau.mul(&r));
        let blinded_non_mem_proof = (crs_prime, r.mul(&proof.y));
        (blinded_non_mem_proof, r)
    }

    /// Update a blinded non-membership witness after the element `s` was
    /// added: `(b_tau' - s * b', y' * s)` and `s * g2`.
    pub fn blind_non_mem_proof_upd(
        &self,
        blinded_non_mem_proof: &((G1, G1), Scalar),
        acc_t: &G1,
        sn_plus_one: &Scalar,
    ) -> (r: ((G1, Scalar), G2))
        requires
            self.inv(),
        ensures
            r.0.0@ == g1_sum(
                blinded_non_mem_proof.0.1@,
                g1_negation(g1_scaled(blinded_non_mem_proof.0.0@, sn_plus_one@)),
            ),
            r.0.1@ == (blinded_non_mem_proof.1@ * sn_plus_one@) % scalar_modulus(),
            r.1@ == g2_scaled(self.spec_group().crs_g2@[0]@, sn_plus_one@),
    {
        let crs_prime = &blinded_non_mem_proof.0;
        let y_prime = &blinded_non_mem_proof.1;
        let q_prime = crs_prime.1.add(&crs_prime.0.mul(sn_plus_one).neg());
        let y_prime_t_prime = y_prime.mul(sn_plus_one);
        let g2_sn_plus_one = self.group.crs_g2[0].mul(sn_plus_one);
        ((q_prime, y_prime_t_prime), g2_sn_plus_one)
    }

    /// Check an updated blinded non-membership witness: the accumulator
    /// moved from `acc_t` by the added element
    /// (`e(acc_t, g2_tau - g2_s) == e(acc, g2)`), and
    /// `e(q', g2) e(b', g2_s) == e(b_tau', g2)`.
    pub fn ver_blind_non_mem_proof_upd(
        &self,
        acc_t: &G1,
        blinded_non_mem_proof: &((G1, G1), Scalar),
        upd_blinded_non_mem_proof: &(G1, Scalar),
        g2_sn_plus_one: &G2,
    ) -> (r: bool)
        requires
            self.inv(),
        ensures
            r == ({
                let g2 = self.spec_group().crs_g2@[0]@;
                let t = g2_sum(self.spec_group().crs_g2@[1]@, g2_negation(g2_sn_plus_one@));
                &&& pairing_products_equal(seq![(acc_t@, t)], seq![(self.spec_acc(), g2)])
                &&& pairing_products_equal(
                    seq![
                        (upd_blinded_non_mem_proof.0@, g2),
                        (blinded_non_mem_proof.0.0@, g2_sn_plus_one@),
                    ],
                    seq![(blinded_non_mem_proof.0.1@, g2)],
                )
            }),
    {
        let g2 = &self.group.crs_g2[0];
        let g2_tau = &self.group.crs_g2[1];
        let crs_prime = &blinded_non_mem_proof.0;
        let q_prime = &upd_blinded_non_mem_proof.0;
        let g2_tau_minus_sn_plus_one = g2_tau.add(&g2_sn_plus_one.neg());
        let lhs0 = vec![(acc_t.clone(), g2_tau_minus_sn_plus_one)];
        let rhs0 = vec![(self.acc.clone(), g2.clone())];
        let acc_update_ok = pairing_check(lhs0.as_slice(), rhs0.as_slice());
        proof {
            assert(crate::groups::bls12_381::pair_views(lhs0@) =~= seq![
                (acc_t@, g2_sum(self.spec_group().crs_g2@[1]@, g2_negation(g2_sn_plus_one@))),
            ]);
            assert(crate::groups::bls12_381::pair_views(rhs0@) =~= seq![
                (self.spec_acc(), self.spec_group().crs_g2@[0]@),
            ]);
        }
        if !acc_update_ok {
            return false;
        }
        let lhs = vec![(q_prime.clone(), g2.clone()), (crs_prime.0.clone(), g2_sn_plus_one.clone())];
        let rhs = vec![(crs_prime.1.clone(), g2.clone())];
        let r = pairing_check(lhs.as_slice(), rhs.as_slice());
        proof {
            assert(crate::groups::bls12_381::pair_views(lhs@) =~= seq![
                (upd_blinded_non_mem_proof.0@, self.spec_group().crs_g2@[0]@),
                (blinded_non_mem_proof.0.0@, g2_sn_plus_one@),
            ]);
            assert(crate::groups::bls12_381::pair_views(rhs@) =~= seq![
                (blinded_non_mem_proof.0.1@, self.spec_group().crs_g2@[0]@),
            ]);
        }
        r
    }

    /// Unblind an updated non-membership witness with `st = (r, y'_t)`:
    /// `y_t = y'_t / r`, the witness `q' / r + y_t * g1` and the remainder
    /// `y_t * element - y'_t' / r`.
    pub fn unblind_non_mem_proof(
        &self,
        blinded_non_mem_proof: &(G1, Scalar),
        st: &(Scalar, Scalar),
        element: &Scalar,
    ) -> (r: NonMembershipProof)
        requires
            self.inv(),
            st.0@ != 0,
        ensures
            ({
                let m = scalar_modulus();
                let r_inv = mod_inverse(st.0@, m);
                let y_t = (st.1@ * r_inv) % m;
                &&& r.b@ == g1_sum(
                    g1_scaled(blinded_non_mem_proof.0@, r_inv),
                    g1_scaled(self.spec_group().crs_g1@[0]@, y_t),
                )
                &&& r.y@ == (((y_t * element@) % m) - (blinded_non_mem_proof.1@ * r_inv) % m) % (
                m as int)
            }),
    {
        let q_prime = &blinded_non_mem_proof.0;
        let y_prime_t_prime = &blinded_non_mem_proof.1;
        let r_inv = scalar_inverse(&st.0);
        let g1 = &self.group.crs_g1[0];
        let y_t = st.1.mul(&r_inv);
        let q = q_prime.mul(&r_inv).add(&g1.mul(&y_t));
        let y_t_prime = y_t.mul(element).sub(&y_prime_t_prime.mul(&r_inv));
        NonMembershipProof { b: q, y: y_t_prime }
    }
}


impl Accumulator for BilinearAccumulator {
    type Group = BilinearG1;
    type Element = Scalar;
    type MembershipProof = ProverMembershipProof;
    type NonMembershipProof = NonMembershipProof;
    type NonMembershipProduct = ();

    open spec fn spec_ready(&self) -> bool {
        self.inv()
    }

    open spec fn spec_new_ok(group: BilinearG1) -> bool {
        group.crs_g1@.len() >= 1 && group.crs_g2@.len() >= 2
    }

    /// A new element needs one more power in the reference string.
    open spec fn spec_add_ok(&self, element: Scalar) -> bool {
        !self.spec_elements().contains(element@) ==> self.spec_poly().len() + 1
            <= self.spec_group().crs_g1@.len()
    }

    open spec fn spec_del_ok(&self, element: Scalar) -> bool {
        true
    }

    open spec fn spec_mem_proof_ok(&self, element: Scalar) -> bool {
        true
    }

    open spec fn spec_non_mem_proof_ok(&self, element: Scalar, prod: ()) -> bool {
        true
    }

    open spec fn spec_non_mem_ver_ok(&self, proof: NonMembershipProof) -> bool {
        true
    }

    /// The empty set over `group`: the polynomial one, committed to by the
    /// first power.
    open spec fn spec_new(group: BilinearG1, r: Self) -> bool {
        &&& r.inv()
        &&& r.spec_group() == group
        &&& r.spec_acc() == group.crs_g1@[0]@
        &&& r.spec_poly() == seq![1nat]
        &&& r.spec_elements() == Seq::<nat>::empty()
    }

    /// The element is its own representative; a new one multiplies the
    /// polynomial by `X - element`, a known one changes nothing.
    open spec fn spec_add(&self, element: Scalar, after: Self, r: Scalar) -> bool {
        &&& r@ == element@
        &&& after.spec_group() == self.spec_group()
        &&& self.spec_elements().contains(element@) ==> after.spec_poly() == self.spec_poly()
            && after.spec_acc() == self.spec_acc() && after.spec_elements() == self.spec_elements()
        &&& !self.spec_elements().contains(element@) ==> after.spec_poly() == times_linear(
            self.spec_poly(),
            element@,
        ) && after.spec_acc() == after.commitment(after.spec_poly()) && after.spec_elements()
            == self.spec_elements().push(element@)
    }

    /// A member is divided out of the polynomial; a non-member changes
    /// nothing.
    open spec fn spec_del(&self, element: Scalar, after: Self) -> bool {
        &&& after.spec_group() == self.spec_group()
        &&& !self.spec_elements().contains(element@) ==> after.spec_poly() == self.spec_poly()
            && after.spec_acc() == self.spec_acc() && after.spec_elements() == self.spec_elements()
        &&& self.spec_elements().contains(element@) ==> after.spec_poly() == quotient(
            self.spec_poly(),
            element@,
        ) && after.spec_acc() == after.commitment(after.spec_poly())
        &&& self.spec_elements().contains(element@) ==> exists|i: int|
            0 <= i < self.spec_elements().len() && #[trigger] self.spec_elements()[i] == element@
                && after.spec_elements() == self.spec_elements().remove(i)
    }

    open spec fn spec_value(&self, r: G1) -> bool {
        r@ == self.spec_acc()
    }

    /// For a member, the witness with the element and the witness
    /// polynomial; `ElementNotInSet` otherwise.
    open spec fn spec_mem_proof_create(
        &self,
        element: Scalar,
        r: AccumulatorResult<ProverMembershipProof>,
    ) -> bool {
        &&& r is Err <==> !self.spec_elements().contains(element@)
        &&& r matches Err(e) ==> e == AccumulatorError::ElementNotInSet
        &&& r matches Ok(p) ==> p.element@ == element@ && p.witness_poly@ == quotient(
            self.spec_poly(),
            element@,
        ) && p.proof.pi@ == self.commitment(quotient(self.spec_poly(), element@))
    }

    /// The pairing check of `mem_ver` on the witness inside.
    open spec fn spec_mem_ver(&self, proof: ProverMembershipProof, element: Scalar) -> bool {
        pairing_products_equal(
            seq![(proof.proof.pi@, self.g2_tau_minus(element@))],
            seq![(self.spec_acc(), self.spec_group().crs_g2@[0]@)],
        )
    }

    /// For a non-member, the witness of `non_mem_proof_create`; for a
    /// member, `NotCoprime`.
    open spec fn spec_non_mem_proof_create(
        &self,
        element: Scalar,
        prod: (),
        r: AccumulatorResult<NonMembershipProof>,
    ) -> bool {
        &&& r is Err <==> self.spec_elements().contains(element@)
        &&& r matches Err(e) ==> e == AccumulatorError::NotCoprime
        &&& r matches Ok(p) ==> p.y@ == horner(self.spec_poly(), element@) && p.b@
            == self.commitment(quotient(self.spec_poly(), element@))
    }

    /// The pairing check of `non_mem_ver`.
    open spec fn spec_non_mem_ver(&self, proof: NonMembershipProof, element: Scalar) -> bool {
        pairing_products_equal(
            seq![
                (proof.b@, self.g2_tau_minus(element@)),
                (g1_scaled(self.spec_group().crs_g1@[0]@, proof.y@), self.spec_group().crs_g2@[0]@),
            ],
            seq![(self.spec_acc(), self.spec_group().crs_g2@[0]@)],
        )
    }

    /// An accumulator of the empty set over `group`.
    fn new(group: BilinearG1) -> (r: Self) {
        BilinearAccumulator::new(group)
    }

    /// Add an element; returns the element itself.
    fn add(&mut self, element: &Scalar) -> (r: Scalar) {
        BilinearAccumulator::add(self, element);
        element.clone()
    }

    /// Delete an element.
    fn del(&mut self, element: &Scalar) {
        BilinearAccumulator::del(self, element);
    }

    /// The accumulator value.
    fn value(&self) -> (r: &G1) {
        &self.acc
    }

    /// A membership witness with the witness polynomial, for a member.
    fn mem_proof_create(&self, element: &Scalar) -> (r: AccumulatorResult<ProverMembershipProof>) {
        if !self.contains(element) {
            return Err(AccumulatorError::ElementNotInSet);
        }
        let (witness_poly, _) = self.poly.syn_div(element);
        let pi = self.kzg_com(&None, &witness_poly);
        Ok(ProverMembershipProof { proof: MembershipProof { pi }, element: element.clone(), witness_poly })
    }

    /// Check the witness inside a membership proof.
    fn mem_ver(&self, proof: &ProverMembershipProof, element: &Scalar) -> (r: bool) {
        BilinearAccumulator::mem_ver(self, &proof.proof, element)
    }

    /// A non-membership witness, for a non-member.
    fn non_mem_proof_create(&self, element: &Scalar, prod: &()) -> (r: AccumulatorResult<
        NonMembershipProof,
    >) {
        match BilinearAccumulator::non_mem_proof_create(self, element) {
            Some(p) => Ok(p),
            None => Err(AccumulatorError::NotCoprime),
        }
    }

    /// Check a non-membership witness.
    fn non_mem_ver(&self, proof: &NonMembershipProof, element: &Scalar) -> (r: bool) {
        BilinearAccumulator::non_mem_ver(self, proof, element)
    }
}

impl PrivatelyDelegatableAccumulator for BilinearAccumulator {
    type BlindedMembershipProof = BlindedMembershipBundle;
    type MembershipBlindingFactor = Scalar;
    type UpdatedBlindedMembershipProof = UpdatedBlindedMembershipBundle;
    type MembershipUpdateAux = (G1, G1, G1, Scalar, G1);
    type BlindedNonMembershipProof = BlindedNonMembershipBundle;
    type UpdatedBlindedNonMembershipProof = UpdatedBlindedNonMembershipBundle;
    type Delta = Poly;

    open spec fn spec_unblind_ok(&self, st: Scalar) -> bool {
        st@ != 0
    }

    /// The witness polynomial, shifted as far as the reference string
    /// allows, still fits it.
    open spec fn spec_blind_mem_ok(&self, proof: ProverMembershipProof) -> bool {
        proof.witness_poly@.len() <= self.spec_poly().len()
    }

    /// `delta` fits the reference string and the blinded powers, the
    /// bundle's first blinded power is its witness, and `acc_t` commits to
    /// the bundle's set polynomial.
    open spec fn spec_mem_upd_ok(
        &self,
        acc_t: G1,
        blinded: BlindedMembershipBundle,
        delta: Poly,
    ) -> bool {
        &&& 1 <= delta@.len() <= self.spec_group().crs_g1@.len()
        &&& blinded.poly_s@.len() + delta@.len() <= self.spec_group().crs_g1@.len() + 1
        &&& delta@.len() <= blinded.crs_prime@.len()
        &&& blinded.crs_prime@[0]@ == blinded.pi_blinded@
        &&& acc_t@ == self.commitment(trim(shifted_scaled(blinded.poly_s@, 1, 0)))
    }

    open spec fn spec_blind_non_mem_ok(&self, element: Scalar) -> bool {
        !self.spec_elements().contains(element@)
    }

    open spec fn spec_unblind_non_mem_ok(&self, st: Scalar) -> bool {
        st@ != 0
    }

    open spec fn spec_non_mem_upd_ok(&self, blinded: BlindedNonMembershipBundle, delta: Poly) -> bool {
        true
    }

    open spec fn spec_ver_non_mem_upd_ok(
        &self,
        acc_t_prime: G1,
        upd: UpdatedBlindedNonMembershipBundle,
    ) -> bool {
        true
    }

    /// For a random `r`, the commitments to `r * X^i * q` for `i` up to the
    /// room left in the reference string, the first of them as the blinded
    /// witness, and the set polynomial.
    open spec fn spec_blind_mem_proof(
        &self,
        proof: ProverMembershipProof,
        r: (BlindedMembershipBundle, Scalar),
    ) -> bool {
        let k = self.spec_group().crs_g1@.len() - self.spec_poly().len();
        &&& r.0.crs_prime@.len() == k + 1
        &&& forall|i: int|
            0 <= i <= k ==> #[trigger] r.0.crs_prime@[i]@ == self.commitment(
                trim(shifted_scaled(proof.witness_poly@, r.1@, i as nat)),
            )
        &&& r.0.pi_blinded@ == r.0.crs_prime@[0]@
        &&& r.0.poly_s@ == self.spec_poly()
    }

    /// Always `Ok`: the update of `blind_mem_proof_upd` with the shifted
    /// commitments to the bundle's set polynomial as the powers of `acc_t`,
    /// and the accumulator value.
    open spec fn spec_blind_mem_proof_upd(
        &self,
        acc_t: G1,
        blinded: BlindedMembershipBundle,
        delta: Poly,
        r: AccumulatorResult<(UpdatedBlindedMembershipBundle, (G1, G1, G1, Scalar, G1), G1)>,
    ) -> bool {
        &&& r is Ok
        &&& r matches Ok(u) ==> ({
            let l = delta@.len() as int;
            let c = scalar_neg(
                poe_challenge(acc_t@, self.spec_acc(), blinded.pi_blinded@, u.0.pi_prime@, delta@),
            );
            let q = quotient(delta@, c);
            &&& u.0.pi_prime@ == kzg_commitment(g1_views(blinded.crs_prime@), delta@)
            &&& u.0.q_star@ == delta@
            &&& u.1.0@ == kzg_commitment(self.shift_coms(blinded.poly_s@, l as nat), q)
            &&& u.1.1@ == kzg_commitment(g1_views(blinded.crs_prime@).take(l), q)
            &&& u.1.2@ == kzg_commitment(self.crs().take(l), q)
            &&& u.1.3@ == horner(delta@, c)
            &&& u.1.4@ == kzg_commitment(self.crs().take(l), delta@)
            &&& u.2@ == self.spec_acc()
        })
    }

    /// Whether the proof of `ver_blind_mem_proof_upd` holds for the bundle's
    /// witness and the update.
    open spec fn spec_ver_blind_mem_proof_upd(
        &self,
        acc_t: G1,
        blinded: BlindedMembershipBundle,
        upd: UpdatedBlindedMembershipBundle,
        aux: (G1, G1, G1, Scalar, G1),
        r: bool,
    ) -> bool {
        r == poe_holds(
            self.spec_group().crs_g1@[0]@,
            acc_t@,
            self.spec_acc(),
            blinded.pi_blinded@,
            upd.pi_prime@,
            self.spec_group().crs_g2@[0]@,
            self.spec_group().crs_g2@[1]@,
            upd.q_star@,
            (aux.0@, aux.1@, aux.2@, aux.3@, aux.4@),
        )
    }

    /// The blinded witness times `st^-1`, with a zero element and witness
    /// polynomial.
    open spec fn spec_unblind_mem_proof(
        &self,
        blinded: BlindedMembershipBundle,
        st: Scalar,
        r: ProverMembershipProof,
    ) -> bool {
        &&& r.proof.pi@ == g1_scaled(blinded.pi_blinded@, mod_inverse(st@, scalar_modulus()))
        &&& r.element@ == 0
        &&& r.witness_poly@ == Seq::<nat>::empty()
    }

    /// For a random `r`, the non-membership witness blinded by `r`, with
    /// `r`, the element and the accumulator value.
    open spec fn spec_blind_non_mem_proof(&self, element: Scalar, r: BlindedNonMembershipBundle) -> bool {
        let q = quotient(self.spec_poly(), element@);
        &&& r.crs_prime.0@ == g1_scaled(self.commitment(q), r.r@)
        &&& r.crs_prime.1@ == g1_scaled(self.commitment(trim(shifted_scaled(q, 1, 1))), r.r@)
        &&& r.y_prime@ == (r.r@ * horner(self.spec_poly(), element@)) % scalar_modulus()
        &&& r.element@ == element@
        &&& r.acc_t@ == self.spec_acc()
    }

    /// For `delta = X - s`, the update of `blind_non_mem_proof_upd` by `s`;
    /// `NotCoprime` for any other `delta`.
    open spec fn spec_blind_non_mem_proof_upd(
        &self,
        blinded: BlindedNonMembershipBundle,
        delta: Poly,
        r: AccumulatorResult<UpdatedBlindedNonMembershipBundle>,
    ) -> bool {
        &&& r is Err <==> !(delta@.len() == 2 && delta@[1] == 1)
        &&& r matches Err(e) ==> e == AccumulatorError::NotCoprime
        &&& r matches Ok(u) ==> ({
            let s = scalar_neg(delta@[0]);
            &&& u.q_prime@ == g1_sum(
                blinded.crs_prime.1@,
                g1_negation(g1_scaled(blinded.crs_prime.0@, s)),
            )
            &&& u.y_prime_t_prime@ == (blinded.y_prime@ * s) % scalar_modulus()
            &&& u.g2_sn_plus_one@ == g2_scaled(self.spec_group().crs_g2@[0]@, s)
            &&& u.y_prime_t@ == blinded.y_prime@
            &&& u.element@ == blinded.element@
        })
    }

    /// The two pairing checks of `ver_blind_non_mem_proof_upd`, against the
    /// accumulator value the bundle was made for.
    open spec fn spec_ver_blind_non_mem_proof_upd(
        &self,
        acc_t_prime: G1,
        blinded: BlindedNonMembershipBundle,
        upd: UpdatedBlindedNonMembershipBundle,
    ) -> bool {
        let g2 = self.spec_group().crs_g2@[0]@;
        let t = g2_sum(self.spec_group().crs_g2@[1]@, g2_negation(upd.g2_sn_plus_one@));
        &&& pairing_products_equal(seq![(blinded.acc_t@, t)], seq![(self.spec_acc(), g2)])
        &&& pairing_products_equal(
            seq![(upd.q_prime@, g2), (blinded.crs_prime.0@, upd.g2_sn_plus_one@)],
            seq![(blinded.crs_prime.1@, g2)],
        )
    }

    /// The witness of `unblind_non_mem_proof` with `(st, y'_t)`.
    open spec fn spec_unblind_non_mem_proof(
        &self,
        st: Scalar,
        upd: UpdatedBlindedNonMembershipBundle,
        r: NonMembershipProof,
    ) -> bool {
        let m = scalar_modulus();
        let r_inv = mod_inverse(st@, m);
        let y_t = (upd.y_prime_t@ * r_inv) % m;
        &&& r.b@ == g1_sum(g1_scaled(upd.q_prime@, r_inv), g1_scaled(self.spec_group().crs_g1@[0]@, y_t))
        &&& r.y@ == (((y_t * upd.element@) % m) - (upd.y_prime_t_prime@ * r_inv) % m) % (m as int)
    }

    /// Blind the witness polynomial with as many shifts as the reference
    /// string has room for.
    fn blind_mem_proof(&self, proof: &ProverMembershipProof) -> (r: (BlindedMembershipBundle, Scalar)) {
        let crs_len = self.group.crs_g1.len();
        let poly_len = self.poly.len();
        let k = if crs_len >= poly_len {
            crs_len - poly_len
        } else {
            0
        };
        match BilinearAccumulator::blind_mem_proof(self, &proof.witness_poly, k) {
            Some((crs_prime, r)) => {
                let pi_blinded = crs_prime[0].clone();
                (BlindedMembershipBundle { pi_blinded, crs_prime, poly_s: self.poly.clone() }, r)
            },
            None => {
                proof {
                    assert(false);
                }
                (
                    BlindedMembershipBundle {
                        pi_blinded: G1::identity(),
                        crs_prime: Vec::new(),
                        poly_s: Poly::zero(),
                    },
                    Scalar::zero(),
                )
            },
        }
    }

    /// Update the bundle by `delta`, with the shifted commitments to the
    /// bundle's set polynomial as the powers of `acc_t`.
    fn blind_mem_proof_upd(
        &self,
        acc_t: &G1,
        blinded_proof: &BlindedMembershipBundle,
        delta: &Poly,
    ) -> (r: AccumulatorResult<(UpdatedBlindedMembershipBundle, (G1, G1, G1, Scalar, G1), G1)>) {
        let q_star = delta.clone();
        let powers_acc_t = self.shift_com(&blinded_proof.poly_s, q_star.len());
        let crs_prime = prefix(&blinded_proof.crs_prime, blinded_proof.crs_prime.len());
        proof {
            let l = delta@.len() as int;
            assert(g1_views(powers_acc_t@) =~= self.shift_coms(blinded_proof.poly_s@, l as nat));
            assert(g1_views(crs_prime@) =~= g1_views(blinded_proof.crs_prime@));
            assert(crs_prime@[0]@ == g1_views(crs_prime@)[0]);
            assert(powers_acc_t@[0]@ == acc_t@);
        }
        let (pi_prime, poe_eq_proof, q_star_back) = BilinearAccumulator::blind_mem_proof_upd(
            self,
            &blinded_proof.pi_blinded,
            acc_t,
            crs_prime,
            q_star,
            powers_acc_t,
        );
        proof {
            let l = delta@.len() as int;
            assert(self.shift_coms(blinded_proof.poly_s@, l as nat).take(l) =~= self.shift_coms(
                blinded_proof.poly_s@,
                l as nat,
            ));
        }
        Ok((UpdatedBlindedMembershipBundle { pi_prime, q_star: q_star_back }, poe_eq_proof, self.value()))
    }

    /// Check the update against the bundle's witness.
    fn ver_blind_mem_proof_upd(
        &self,
        acc_t: &G1,
        blinded_proof: &BlindedMembershipBundle,
        upd_blinded_proof: &UpdatedBlindedMembershipBundle,
        aux: &(G1, G1, G1, Scalar, G1),
    ) -> (r: bool) {
        BilinearAccumulator::ver_blind_mem_proof_upd(
            self,
            &blinded_proof.pi_blinded,
            &upd_blinded_proof.pi_prime,
            acc_t,
            &upd_blinded_proof.q_star,
            aux,
        )
    }

    /// Unblind the bundle's witness.
    fn unblind_mem_proof(&self, blinded_proof: &BlindedMembershipBundle, st: &Scalar) -> (r:
        ProverMembershipProof) {
        let pi = BilinearAccumulator::unblind_mem_proof(&blinded_proof.pi_blinded, st);
        ProverMembershipProof {
            proof: MembershipProof { pi },
            element: Scalar::zero(),
            witness_poly: Poly::zero(),
        }
    }

    /// Blind the non-membership witness of a non-member.
    fn blind_non_mem_proof(&self, element: &Scalar) -> (r: BlindedNonMembershipBundle) {
        let proof = match BilinearAccumulator::non_mem_proof_create(self, element) {
            Some(p) => p,
            None => {
                proof {
                    assert(false);
                }
                NonMembershipProof { y: Scalar::zero(), b: G1::identity() }
            },
        };
        let ((crs_prime, y_prime), r) = BilinearAccumulator::blind_non_mem_proof(self, &proof, element);
        BlindedNonMembershipBundle { crs_prime, y_prime, r, element: element.clone(), acc_t: self.value() }
    }

    /// Update by `delta`, which must be `X - s` for the added element `s`.
    fn blind_non_mem_proof_upd(
        &self,
        blinded_non_mem_proof: &BlindedNonMembershipBundle,
        delta: &Poly,
    ) -> (r: AccumulatorResult<UpdatedBlindedNonMembershipBundle>) {
        let coeffs = delta.coeffs();
        if coeffs.len() != 2 || !coeffs[1].is_one() {
            return Err(AccumulatorError::NotCoprime);
        }
        proof {
            assert(coeffs@[1]@ == delta@[1]);
            assert(coeffs@[0]@ == delta@[0]);
        }
        let sn_plus_one = coeffs[0].neg();
        let blinded_inner = (
            (blinded_non_mem_proof.crs_prime.0.clone(), blinded_non_mem_proof.crs_prime.1.clone()),
            blinded_non_mem_proof.y_prime.clone(),
        );
        let ((q_prime, y_prime_t_prime), g2_sn_plus_one) = BilinearAccumulator::blind_non_mem_proof_upd(
            self,
            &blinded_inner,
            &blinded_non_mem_proof.acc_t,
            &sn_plus_one,
        );
        Ok(
            UpdatedBlindedNonMembershipBundle {
                q_prime,
                y_prime_t_prime,
                g2_sn_plus_one,
                y_prime_t: blinded_non_mem_proof.y_prime.clone(),
                element: blinded_non_mem_proof.element.clone(),
            },
        )
    }

    /// Check the update against the accumulator value the bundle was made
    /// for.
    fn ver_blind_non_mem_proof_upd(
        &self,
        acc_t_prime: &G1,
        blinded_non_mem_proof: &BlindedNonMembershipBundle,
        upd_blinded_non_mem_proof: &UpdatedBlindedNonMembershipBundle,
    ) -> (r: bool) {
        let blinded_inner = (
            (blinded_non_mem_proof.crs_prime.0.clone(), blinded_non_mem_proof.crs_prime.1.clone()),
            blinded_non_mem_proof.y_prime.clone(),
        );
        let upd_inner = (
            upd_blinded_non_mem_proof.q_prime.clone(),
            upd_blinded_non_mem_proof.y_prime_t_prime.clone(),
        );
        BilinearAccumulator::ver_blind_non_mem_proof_upd(
            self,
            &blinded_non_mem_proof.acc_t,
            &blinded_inner,
            &upd_inner,
            &upd_blinded_non_mem_proof.g2_sn_plus_one,
        )
    }

    /// Unblind with `st` and the blinded remainder the update carries.
    fn unblind_non_mem_proof(&self, st: &Scalar, upd_blinded_non_mem_proof: &UpdatedBlindedNonMembershipBundle) -> (r:
        NonMembershipProof) {
        let upd_inner = (
            upd_blinded_non_mem_proof.q_prime.clone(),
            upd_blinded_non_mem_proof.y_prime_t_prime.clone(),
        );
        let st_pair = (st.clone(), upd_blinded_non_mem_proof.y_prime_t.clone());
        BilinearAccumulator::unblind_non_mem_proof(
            self,
            &upd_inner,
            &st_pair,
            &upd_blinded_non_mem_proof.element,
        )
    }
}

/// What the set polynomial says of an element: for a member, the
/// witness polynomial times `X - element` is the set polynomial and the
/// remainder is zero; deleting right after adding restores the set and the
/// polynomial.
pub proof fn lemma_member_divides(acc: BilinearAccumulator, element: nat)
    requires
        acc.inv(),
        acc.spec_elements().contains(element),
    ensures
        times_linear(quotient(acc.spec_poly(), element), element) == acc.spec_poly(),
        horner(acc.spec_poly(), element) == 0,
{
    let s = acc.spec_elements();
    let i = choose|i: int| 0 <= i < s.len() && s[i] == element;
    lemma_divide_linear_product(s, i);
    lemma_linear_product_factor(s, i);
}

/// Deleting an element right after adding it restores the elements and
/// the set polynomial.
pub proof fn lemma_add_then_del(acc: BilinearAccumulator, element: nat)
    requires
        acc.inv(),
        !acc.spec_elements().contains(element),
    ensures
        forall|i: int|
            0 <= i < acc.spec_elements().len() + 1 && #[trigger] acc.spec_elements().push(
                element,
            )[i] == element ==> i == acc.spec_elements().len(),
        acc.spec_elements().push(element).remove(acc.spec_elements().len() as int)
            == acc.spec_elements(),
        quotient(times_linear(acc.spec_poly(), element), element) == acc.spec_poly(),
{
    let s = acc.spec_elements();
    assert(s.push(element).remove(s.len() as int) =~= s);
    assert forall|i: int| 0 <= i < s.len() + 1 && #[trigger] s.push(element)[i] == element implies i
        == s.len() by {
        if i < s.len() {
            assert(s[i] == element);
        }
    }
    let t = s.push(element);
    assert(t.drop_last() =~= s);
    lemma_divide_linear_product(t, s.len() as int);
}

/// Deleting an element right after adding it restores the accumulator:
/// from a state whose value commits to its polynomial, adding a new
/// element `e` and then deleting `e` gives back the value, the polynomial
/// and the elements. Every state made by `setup`, by `new` over a
/// reference string from `BilinearG1::new`, or by an `add` or `del` that
/// changed the set has its value committed; a fresh accumulator over a
/// reference string built by hand is known to have it only when committing
/// to one gives its first power (`commits_one_to_first`).
pub proof fn lemma_add_del_restores(
    s0: BilinearAccumulator,
    s1: BilinearAccumulator,
    s2: BilinearAccumulator,
    e: Scalar,
    r: Scalar,
)
    requires
        s0.inv(),
        s0.value_committed(),
        !s0.spec_elements().contains(e@),
        s0.spec_add(e, s1, r),
        s1.spec_del(e, s2),
    ensures
        s2.spec_acc() == s0.spec_acc(),
        s2.spec_poly() == s0.spec_poly(),
        s2.spec_elements() == s0.spec_elements(),
{
    lemma_add_then_del(s0, e@);
    let s = s0.spec_elements();
    assert(s1.spec_elements() == s.push(e@));
    assert(s.push(e@)[s.len() as int] == e@);
    assert(s1.spec_elements().contains(e@));
    let i = choose|i: int|
        0 <= i < s1.spec_elements().len() && #[trigger] s1.spec_elements()[i] == e@
            && s2.spec_elements() == s1.spec_elements().remove(i);
    assert(i == s.len());
}

} // verus!

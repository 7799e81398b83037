//! Non-interactive proofs of discrete-log equality (Chaum-Pedersen with the
//! Fiat-Shamir transform) over any [`Group`], and proofs that two KZG
//! commitments hide the same polynomial in the bases `g` and `h`.

use vstd::prelude::*;
use crate::traits::Group;
use crate::groups::rsa_group::{RsaGroup, random_seed, rsa_hashes_to, prime_seed};
use crate::bignum::{mod_exp, is_prime};
use crate::arith::{lemma_mod_exp_mul, lemma_mod_exp_add};
use crate::groups::bls12_381::{
    G1, G2, Scalar, g1_debug, g1_debug_text, g1_scaled, g1_views, g2_scaled, g2_sum, kzg_commit,
    kzg_commitment, le_value, pair_views, pairing_check, pairing_products_equal, scalar_modulus,
};
use crate::groups::rsa_group::{le_bytes, sha256, sha256_digest};
use crate::poly::{Poly, horner, quotient};

verus! {

/// A proof `(a, b, z)` that `u = g^w` and `v = h^w` for one `w`.
pub type Proof<G> = (<G as Group>::Element, <G as Group>::Element, <G as Group>::Exponent);

/// The prover and verifier of discrete-log equality in one group.
#[derive(Debug)]
pub struct NIZK<'a, G: Group> {
    group: &'a G,
}

/// The bytes the challenge of a proof about `(g, u, h, v)` with commitments
/// `(a, b)` hashes: the encodings of `g`, `h`, `u`, `v`, `a`, `b` in turn.
pub open spec fn transcript<G: Group>(
    group: &G,
    g: <G::Element as View>::V,
    u: <G::Element as View>::V,
    h: <G::Element as View>::V,
    v: <G::Element as View>::V,
    a: <G::Element as View>::V,
    b: <G::Element as View>::V,
) -> Seq<u8> {
    group.spec_element_bytes(g) + group.spec_element_bytes(h) + group.spec_element_bytes(u)
        + group.spec_element_bytes(v) + group.spec_element_bytes(a) + group.spec_element_bytes(b)
}

/// The verification equations of a proof `(a, b, z)` with challenge `e`:
/// `g^z == a * u^e` and `h^z == b * v^e`.
pub open spec fn dleq_holds<G: Group>(
    group: &G,
    g: <G::Element as View>::V,
    u: <G::Element as View>::V,
    h: <G::Element as View>::V,
    v: <G::Element as View>::V,
    a: <G::Element as View>::V,
    b: <G::Element as View>::V,
    z: <G::Exponent as View>::V,
    e: <G::Exponent as View>::V,
) -> bool {
    &&& group.spec_exp(g, z) == group.spec_mul(a, group.spec_exp(u, e))
    &&& group.spec_exp(h, z) == group.spec_mul(b, group.spec_exp(v, e))
}

/// `(a, b, z)` is the honest proof for `(g, u, h, v)` with witness `w`,
/// built from random `seed` bytes: the nonce `r` hashed from the seed,
/// `a = g^r`, `b = h^r`, the challenge `e` hashed from the transcript, and
/// `z = r + e * w`.
pub open spec fn honest_proof<G: Group>(
    group: &G,
    g: <G::Element as View>::V,
    u: <G::Element as View>::V,
    h: <G::Element as View>::V,
    v: <G::Element as View>::V,
    w: <G::Exponent as View>::V,
    a: <G::Element as View>::V,
    b: <G::Element as View>::V,
    z: <G::Exponent as View>::V,
    seed: Seq<u8>,
    r: <G::Exponent as View>::V,
    e: <G::Exponent as View>::V,
) -> bool {
    &&& seed.len() == 32
    &&& group.spec_hashes_to(seed, r)
    &&& a == group.spec_exp(g, r)
    &&& b == group.spec_exp(h, r)
    &&& group.spec_hashes_to(transcript(group, g, u, h, v, a, b), e)
    &&& z == G::spec_exp_add(r, G::spec_exp_mul(e, w))
}

/// `result` is the verdict on `(a, b, z)` with challenge `e` hashed from
/// the transcript: whether the verification equations hold.
pub open spec fn verified_with<G: Group>(
    group: &G,
    g: <G::Element as View>::V,
    u: <G::Element as View>::V,
    h: <G::Element as View>::V,
    v: <G::Element as View>::V,
    a: <G::Element as View>::V,
    b: <G::Element as View>::V,
    z: <G::Exponent as View>::V,
    e: <G::Exponent as View>::V,
    result: bool,
) -> bool {
    &&& group.spec_hashes_to(transcript(group, g, u, h, v, a, b), e)
    &&& result == dleq_holds(group, g, u, h, v, a, b, z, e)
}

impl<'a, G: Group> NIZK<'a, G> {
    /// The group the proofs are about.
    pub closed spec fn spec_group(&self) -> &'a G {
        self.group
    }

    /// A prover and verifier over `group`.
    pub fn setup(group: &'a G) -> (r: NIZK<'a, G>)
        ensures
            r.spec_group() == group,
    {
        NIZK { group }
    }

    /// The Fiat-Shamir challenge: the transcript hashed to a prime exponent.
    fn challenge(
        &self,
        g: &G::Element,
        u: &G::Element,
        h: &G::Element,
        v: &G::Element,
        a: &G::Element,
        b: &G::Element,
    ) -> (e: G::Exponent)
        ensures
            self.group.spec_hashes_to(transcript(self.group, g@, u@, h@, v@, a@, b@), e@),
    {
        let g_bytes = self.group.element_to_bytes(g);
        let h_bytes = self.group.element_to_bytes(h);
        let u_bytes = self.group.element_to_bytes(u);
        let v_bytes = self.group.element_to_bytes(v);
        let a_bytes = self.group.element_to_bytes(a);
        let b_bytes = self.group.element_to_bytes(b);
        let mut bytes_data: Vec<u8> = Vec::new();
        bytes_data.extend_from_slice(g_bytes.as_slice());
        bytes_data.extend_from_slice(h_bytes.as_slice());
        bytes_data.extend_from_slice(u_bytes.as_slice());
        bytes_data.extend_from_slice(v_bytes.as_slice());
        bytes_data.extend_from_slice(a_bytes.as_slice());
        bytes_data.extend_from_slice(b_bytes.as_slice());
        assert(bytes_data@ =~= transcript(self.group, g@, u@, h@, v@, a@, b@));
        self.group.hash_to_prime(bytes_data.as_slice())
    }

    /// Prove that `u = g^w` and `v = h^w`: commit to `a = g^r`, `b = h^r`
    /// for a fresh `r` (a prime hashed from random bytes), derive the
    /// challenge `e`, and answer `z = r + e * w`.
    pub fn prove_dleq(
        &self,
        g: &G::Element,
        u: &G::Element,
        h: &G::Element,
        v: &G::Element,
        w: &G::Exponent,
    ) -> (proof: Proof<G>)
        requires
            self.spec_group().spec_wf(),
        ensures
            exists|seed: Seq<u8>, r: <G::Exponent as View>::V, e: <G::Exponent as View>::V|
                #[trigger] honest_proof(self.spec_group(), g@, u@, h@, v@, w@, proof.0@, proof.1@, proof.2@, seed, r, e),
    {
        let seed = random_seed();
        let r = self.group.hash_to_prime(seed.as_slice());
        let a = self.group.exp(g, &r);
        let b = self.group.exp(h, &r);
        let e = self.challenge(g, u, h, v, &a, &b);
        let z = G::exp_add(&r, &G::exp_mul(&e, w));
        assert(honest_proof(self.spec_group(), g@, u@, h@, v@, w@, a@, b@, z@, seed@, r@, e@));
        let proof = (a, b, z);
        assert(proof.0@ == a@ && proof.1@ == b@ && proof.2@ == z@);
        assert(honest_proof(self.spec_group(), g@, u@, h@, v@, w@, proof.0@, proof.1@, proof.2@, seed@, r@, e@));
        proof
    }

    /// Check a proof: recompute the challenge `e` and test
    /// `g^z == a * u^e` and `h^z == b * v^e`.
    pub fn verify_dleq(
        &self,
        g: &G::Element,
        u: &G::Element,
        h: &G::Element,
        v: &G::Element,
        proof: &Proof<G>,
    ) -> (r: bool)
        requires
            self.spec_group().spec_wf(),
        ensures
            exists|e: <G::Exponent as View>::V|
                #[trigger] verified_with(self.spec_group(), g@, u@, h@, v@, proof.0@, proof.1@, proof.2@, e, r),
    {
        let a = &proof.0;
        let b = &proof.1;
        let z = &proof.2;
        let e = self.challenge(g, u, h, v, a, b);
        let lhs_1 = self.group.exp(g, z);
        let lhs_2 = self.group.exp(h, z);
        let rhs_1 = self.group.mul(a, &self.group.exp(u, &e));
        let rhs_2 = self.group.mul(b, &self.group.exp(v, &e));
        let r = self.group.element_eq(&lhs_1, &rhs_1) && self.group.element_eq(&lhs_2, &rhs_2);
        assert(verified_with(self.spec_group(), g@, u@, h@, v@, a@, b@, z@, e@, r));
        r
    }
}

/// Completeness of discrete-log equality proofs in the group modulo `n`:
/// with `u = g^w`, `v = h^w`, `a = g^r`, `b = h^r` and `z = r + e * w`,
/// `g^z == a * u^e` and `h^z == b * v^e` (mod `n`) for every challenge `e`.
pub proof fn lemma_dleq_complete(n: nat, g: nat, h: nat, w: nat, r: nat, e: nat)
    requires
        n > 0,
    ensures
        mod_exp(g, r + e * w, n) == (mod_exp(g, r, n) * mod_exp(mod_exp(g, w, n), e, n)) % n,
        mod_exp(h, r + e * w, n) == (mod_exp(h, r, n) * mod_exp(mod_exp(h, w, n), e, n)) % n,
{
    lemma_mod_exp_mul(g, w, e, n);
    lemma_mod_exp_mul(h, w, e, n);
    assert(w * e == e * w) by (nonlinear_arith);
    lemma_mod_exp_add(g, r, e * w, n);
    lemma_mod_exp_add(h, r, e * w, n);
}

/// Two challenges hashed from the same transcript in the group modulo `n`
/// are equal when both are prime: each is then the least prime at or
/// above the transcript's seed.
pub proof fn lemma_prime_challenges_agree(data: Seq<u8>, e1: nat, e2: nat)
    requires
        rsa_hashes_to(data, e1),
        rsa_hashes_to(data, e2),
        is_prime(e1),
        is_prime(e2),
    ensures
        e1 == e2,
{
    let s = prime_seed(data);
    if e1 < e2 {
        assert(s <= e1 < e2);
    } else if e2 < e1 {
        assert(s <= e2 < e1);
    }
}


/// Completeness of the proofs in the RSA group: an honest proof that
/// `u = g^w` and `v = h^w` verifies with every prime challenge hashed from
/// its transcript, when the challenge it was made with is prime too.
pub proof fn lemma_honest_proof_verifies(
    group: &RsaGroup,
    g: nat,
    u: nat,
    h: nat,
    v: nat,
    w: nat,
    a: nat,
    b: nat,
    z: nat,
    seed: Seq<u8>,
    r: nat,
    e: nat,
    e2: nat,
)
    requires
        group.spec_n() > 0,
        honest_proof(group, g, u, h, v, w, a, b, z, seed, r, e),
        u == mod_exp(g, w, group.spec_n()),
        v == mod_exp(h, w, group.spec_n()),
        group.spec_hashes_to(transcript(group, g, u, h, v, a, b), e2),
        is_prime(e),
        is_prime(e2),
    ensures
        dleq_holds(group, g, u, h, v, a, b, z, e2),
{
    lemma_prime_challenges_agree(transcript(group, g, u, h, v, a, b), e, e2);
    lemma_dleq_complete(group.spec_n(), g, h, w, r, e);
}


/// The domain label of the proofs of equal polynomial commitments.
pub open spec fn poe_label() -> Seq<u8> {
    seq![
        112u8, 111, 101, 95, 101, 113, 95, 97, 110, 100, 95, 115, 105, 103, 109, 97, 95, 103, 49,
    ]
}

/// The encoding of each coefficient in the challenge: its byte length 32
/// as eight little-endian bytes, then its 32 little-endian bytes.
pub open spec fn coeff_bytes(p: Seq<nat>) -> Seq<u8>
    decreases p.len(),
{
    if p.len() == 0 {
        Seq::empty()
    } else {
        coeff_bytes(p.drop_last()) + seq![32u8, 0, 0, 0, 0, 0, 0, 0] + le_bytes(p.last(), 32)
    }
}

/// The bytes hashed for the challenge of a proof about `(g, u, h, v)` and
/// the polynomial `p`.
pub open spec fn poe_transcript(g: Seq<u8>, u: Seq<u8>, h: Seq<u8>, v: Seq<u8>, p: Seq<nat>) -> Seq<u8> {
    poe_label() + g1_debug_text(g) + g1_debug_text(u) + g1_debug_text(h) + g1_debug_text(v)
        + coeff_bytes(p)
}

/// The challenge `alpha`: the digest of the transcript read little-endian
/// and reduced into the scalar field, one in place of zero.
pub open spec fn poe_challenge(g: Seq<u8>, u: Seq<u8>, h: Seq<u8>, v: Seq<u8>, p: Seq<nat>) -> nat {
    let a = le_value(sha256_digest(poe_transcript(g, u, h, v, p))) % scalar_modulus();
    if a == 0 {
        1
    } else {
        a
    }
}

/// `-a` in the scalar field.
pub open spec fn scalar_neg(a: nat) -> nat {
    ((scalar_modulus() - a) % (scalar_modulus() as int)) as nat
}

/// A commitment to `p` fits the powers: no more coefficients than powers
/// (the zero polynomial counts one).
pub open spec fn fits(p: Seq<nat>, powers: Seq<G1>) -> bool {
    (if p.len() == 0 { 1 } else { p.len() }) <= powers.len()
}

/// The verification equations of a proof `(qg, qh, qg1, beta, c)` that `u`
/// and `v` commit to `p` in the bases `g` and `h`: with the challenge
/// `alpha` and `s = g2_s + alpha * g2`,
/// `e(qg, s) e(beta g, g2) == e(u, g2)`, `e(qh, s) e(beta h, g2) == e(v, g2)`
/// and `e(qg1, s) e(beta g1, g2) == e(c, g2)`.
pub open spec fn poe_holds(
    g1: Seq<u8>,
    g: Seq<u8>,
    u: Seq<u8>,
    h: Seq<u8>,
    v: Seq<u8>,
    g2: Seq<u8>,
    g2_s: Seq<u8>,
    p: Seq<nat>,
    proof: (Seq<u8>, Seq<u8>, Seq<u8>, nat, Seq<u8>),
) -> bool {
    let alpha = poe_challenge(g, u, h, v, p);
    let beta = proof.3;
    let s = g2_sum(g2_s, g2_scaled(g2, alpha));
    &&& pairing_products_equal(seq![(proof.0, s), (g1_scaled(g, beta), g2)], seq![(u, g2)])
    &&& pairing_products_equal(seq![(proof.1, s), (g1_scaled(h, beta), g2)], seq![(v, g2)])
    &&& pairing_products_equal(seq![(proof.2, s), (g1_scaled(g1, beta), g2)], seq![(proof.4, g2)])
}

/// A proof of an exponentiation step: a commitment to a quotient.
pub struct PoeStarProof {
    pub q: G1,
}

/// Two proofs of exponentiation steps with the shared remainder.
pub struct PoeEqAndProof {
    pub left: PoeStarProof,
    pub right: PoeStarProof,
    pub beta: Scalar,
}

/// Proofs that `u` and `v` commit to one polynomial in the bases `g` and
/// `h` (the first powers of their reference strings), by division by
/// `X + alpha` for a Fiat-Shamir challenge `alpha`.
pub struct BilinearNIZK;

impl BilinearNIZK {
    /// Append `extra` to `data`.
    fn append(data: &mut Vec<u8>, extra: &Vec<u8>)
        ensures
            final(data)@ == old(data)@ + extra@,
    {
        data.extend_from_slice(extra.as_slice());
    }

    /// The Fiat-Shamir challenge of `(g, u, h, v)` and `poly`.
    fn fs(g: &G1, u: &G1, h: &G1, v: &G1, poly: &Poly) -> (r: Scalar)
        ensures
            r@ == poe_challenge(g@, u@, h@, v@, poly@),
    {
        let mut data: Vec<u8> = vec![
            112u8, 111, 101, 95, 101, 113, 95, 97, 110, 100, 95, 115, 105, 103, 109, 97, 95, 103,
            49,
        ];
        assert(data@ =~= poe_label());
        Self::append(&mut data, &g1_debug(g));
        Self::append(&mut data, &g1_debug(u));
        Self::append(&mut data, &g1_debug(h));
        Self::append(&mut data, &g1_debug(v));
        let ghost head = data@;
        let coeffs = poly.coeffs();
        let mut i: usize = 0;
        while i < coeffs.len()
            invariant
                i <= coeffs@.len(),
                crate::groups::bls12_381::scalar_views(coeffs@) == poly@,
                data@ == head + coeff_bytes(poly@.take(i as int)),
            decreases coeffs.len() - i,
        {
            let len_bytes: Vec<u8> = vec![32u8, 0, 0, 0, 0, 0, 0, 0];
            Self::append(&mut data, &len_bytes);
            Self::append(&mut data, &coeffs[i].to_le_bytes());
            proof {
                let t = poly@.take(i as int + 1);
                assert(t.drop_last() =~= poly@.take(i as int));
                assert(t.last() == coeffs@[i as int]@);
                assert(data@ =~= head + coeff_bytes(t));
            }
            i = i + 1;
        }
        proof {
            assert(poly@.take(i as int) =~= poly@);
            assert(data@ =~= poe_transcript(g@, u@, h@, v@, poly@));
        }
        let digest = sha256(data.as_slice());
        let alpha = Scalar::from_le_bytes_mod_order(digest.as_slice());
        if alpha.is_zero() {
            Scalar::one()
        } else {
            alpha
        }
    }

    /// Division of `poly` by `X - c`.
    fn syn_div_by_x_minus_c(poly: &Poly, c: &Scalar) -> (r: (Poly, Scalar))
        ensures
            r.0@ == quotient(poly@, c@),
            r.1@ == horner(poly@, c@),
    {
        poly.syn_div(c)
    }

    /// Division of `poly` by `X + alpha`.
    fn syn_div_by_x_plus_alpha(poly: &Poly, alpha: &Scalar) -> (r: (Poly, Scalar))
        ensures
            r.0@ == quotient(poly@, scalar_neg(alpha@)),
            r.1@ == horner(poly@, scalar_neg(alpha@)),
    {
        let c = alpha.neg();
        Self::syn_div_by_x_minus_c(poly, &c)
    }

    /// The commitment to `poly` under `powers`; `None` when it has more
    /// coefficients than there are powers.
    pub fn com(powers: &[G1], poly: &Poly) -> (r: Option<G1>)
        ensures
            r is Some <==> fits(poly@, powers@),
            r matches Some(c) ==> c@ == kzg_commitment(g1_views(powers@), poly@),
    {
        proof {
            use_type_invariant(poly);
        }
        kzg_commit(powers, poly.coeffs().as_slice())
    }

    /// Prove that `u` and `v` commit to `poly` in the bases `g` and `h`:
    /// with the challenge `alpha` and `poly = (X + alpha) * q + beta`, the
    /// commitments to `q` in both bases and in the base of `powers_for_g1`,
    /// `beta`, and the commitment to `poly` in that base. `None` when `g`
    /// or `h` is not the first of its powers, or a commitment does not fit.
    pub fn prove_poe_eq(
        powers_for_g: &[G1],
        powers_for_h: &[G1],
        powers_for_g1: &[G1],
        g: &G1,
        u: &G1,
        h: &G1,
        v: &G1,
        poly: &Poly,
    ) -> (r: Option<(G1, G1, G1, Scalar, G1)>)
        ensures
            r is Some <==> ({
                let q = quotient(poly@, scalar_neg(poe_challenge(g@, u@, h@, v@, poly@)));
                &&& powers_for_g@.len() > 0 && powers_for_g@[0]@ == g@
                &&& powers_for_h@.len() > 0 && powers_for_h@[0]@ == h@
                &&& fits(q, powers_for_g@) && fits(q, powers_for_h@) && fits(q, powers_for_g1@)
                &&& fits(poly@, powers_for_g1@)
            }),
            r matches Some(p) ==> ({
                let c = scalar_neg(poe_challenge(g@, u@, h@, v@, poly@));
                let q = quotient(poly@, c);
                &&& p.0@ == kzg_commitment(g1_views(powers_for_g@), q)
                &&& p.1@ == kzg_commitment(g1_views(powers_for_h@), q)
                &&& p.2@ == kzg_commitment(g1_views(powers_for_g1@), q)
                &&& p.3@ == horner(poly@, c)
                &&& p.4@ == kzg_commitment(g1_views(powers_for_g1@), poly@)
            }),
    {
        if powers_for_g.len() == 0 || !powers_for_g[0].equals(g) {
            return None;
        }
        if powers_for_h.len() == 0 || !powers_for_h[0].equals(h) {
            return None;
        }
        let alpha = Self::fs(g, u, h, v, poly);
        let (h_poly, beta) = Self::syn_div_by_x_plus_alpha(poly, &alpha);
        let qg = match Self::com(powers_for_g, &h_poly) {
            Some(c) => c,
            None => {
                return None;
            },
        };
        let qh = match Self::com(powers_for_h, &h_poly) {
            Some(c) => c,
            None => {
                return None;
            },
        };
        let gwidehat = match Self::com(powers_for_g1, &h_poly) {
            Some(c) => c,
            None => {
                return None;
            },
        };
        let gwidetilde = match Self::com(powers_for_g1, poly) {
            Some(c) => c,
            None => {
                return None;
            },
        };
        Some((qg, qh, gwidehat, beta, gwidetilde))
    }

    /// Check a proof that `u` and `v` commit to `poly` in the bases `g` and
    /// `h`: with the challenge `alpha` and `s_alpha = g2_s + alpha * g2`,
    /// `e(qg, s_alpha) e(beta g, g2) == e(u, g2)`, the same for `h` and
    /// `v`, and for `g1` and the commitment to `poly` in the proof.
    pub fn verify_poe_eq(
        g1: &G1,
        g: &G1,
        u: &G1,
        h: &G1,
        v: &G1,
        g2: &G2,
        g2_s: &G2,
        poly: &Poly,
        proof: &(G1, G1, G1, Scalar, G1),
    ) -> (r: bool)
        ensures
            r == poe_holds(
                g1@,
                g@,
                u@,
                h@,
                v@,
                g2@,
                g2_s@,
                poly@,
                (proof.0@, proof.1@, proof.2@, proof.3@, proof.4@),
            ),
    {
        let alpha = Self::fs(g, u, h, v, poly);
        let beta = &proof.3;
        let s = g2_s.add(&g2.mul(&alpha));
        let lhs1 = vec![(proof.0.clone(), s.clone()), (g.mul(beta), g2.clone())];
        let rhs1 = vec![(u.clone(), g2.clone())];
        let lhs2 = vec![(proof.1.clone(), s.clone()), (h.mul(beta), g2.clone())];
        let rhs2 = vec![(v.clone(), g2.clone())];
        let lhs5 = vec![(proof.2.clone(), s.clone()), (g1.mul(beta), g2.clone())];
        let rhs5 = vec![(proof.4.clone(), g2.clone())];
        let pairing1 = pairing_check(lhs1.as_slice(), rhs1.as_slice());
        let pairing2 = pairing_check(lhs2.as_slice(), rhs2.as_slice());
        let pairing5 = pairing_check(lhs5.as_slice(), rhs5.as_slice());
        proof {
            assert(pair_views(lhs1@) =~= seq![(proof.0@, s@), (g1_scaled(g@, beta@), g2@)]);
            assert(pair_views(rhs1@) =~= seq![(u@, g2@)]);
            assert(pair_views(lhs2@) =~= seq![(proof.1@, s@), (g1_scaled(h@, beta@), g2@)]);
            assert(pair_views(rhs2@) =~= seq![(v@, g2@)]);
            assert(pair_views(lhs5@) =~= seq![(proof.2@, s@), (g1_scaled(g1@, beta@), g2@)]);
            assert(pair_views(rhs5@) =~= seq![(proof.4@, g2@)]);
        }
        pairing1 && pairing2 && pairing5
    }
}

} // verus!

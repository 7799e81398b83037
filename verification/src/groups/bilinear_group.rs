//! The group G1 of BLS12-381 with a KZG reference string: the powers of a
//! secret `tau` in G1, and `[h, tau * h]` in G2.

use vstd::prelude::*;
use crate::groups::bls12_381::{
    G1, G2, Scalar, g1_identity_bytes, g1_views, kzg_commitment, g1_negation, g1_scaled, g1_sum, kzg_setup, le_value,
    scalar_modulus,
};
use crate::bignum::is_prime;
use crate::groups::rsa_group::{
    is_mod_inverse, lemma_mod_inverse_unique, mod_inverse, no_factor_up_to, probable_prime, sha256,
    sha256_digest, trial_division_bound,
};
use crate::traits::Group;

verus! {

/// The KZG reference string of a bilinear group.
pub struct BilinearG1 {
    pub crs_g1: Vec<G1>,
    pub crs_g2: Vec<G2>,
}

impl BilinearG1 {
    /// Committing to the constant polynomial one gives the first power.
    pub open spec fn commits_one_to_first(&self) -> bool {
        &&& self.crs_g1@.len() >= 1
        &&& kzg_commitment(g1_views(self.crs_g1@), seq![1nat]) == self.crs_g1@[0]@
    }

    /// A fresh reference string for polynomials with up to `max_elements`
    /// roots: `max_elements + 1` powers in G1, two points in G2.
    pub fn new(max_elements: usize) -> (r: BilinearG1)
        requires
            1 <= max_elements < usize::MAX,
        ensures
            r.crs_g1@.len() == max_elements + 1,
            r.crs_g2@.len() == 2,
            r.commits_one_to_first(),
    {
        let (crs_g1, crs_g2) = kzg_setup(max_elements);
        BilinearG1 { crs_g1, crs_g2 }
    }
}

impl Clone for BilinearG1 {
    fn clone(&self) -> (r: Self)
        ensures
            r.crs_g1@.len() == self.crs_g1@.len(),
            r.crs_g2@.len() == self.crs_g2@.len(),
            forall|i: int| 0 <= i < self.crs_g1@.len() ==> #[trigger] r.crs_g1@[i]@ == self.crs_g1@[i]@,
            forall|i: int| 0 <= i < self.crs_g2@.len() ==> #[trigger] r.crs_g2@[i]@ == self.crs_g2@[i]@,
    {
        let mut a: Vec<G1> = Vec::new();
        let mut i: usize = 0;
        while i < self.crs_g1.len()
            invariant
                i <= self.crs_g1@.len(),
                a@.len() == i,
                forall|j: int| 0 <= j < i ==> #[trigger] a@[j]@ == self.crs_g1@[j]@,
            decreases self.crs_g1.len() - i,
        {
            a.push(self.crs_g1[i].clone());
            i = i + 1;
        }
        let mut b: Vec<G2> = Vec::new();
        let mut k: usize = 0;
        while k < self.crs_g2.len()
            invariant
                k <= self.crs_g2@.len(),
                b@.len() == k,
                forall|j: int| 0 <= j < k ==> #[trigger] b@[j]@ == self.crs_g2@[j]@,
            decreases self.crs_g2.len() - k,
        {
            b.push(self.crs_g2[k].clone());
            k = k + 1;
        }
        BilinearG1 { crs_g1: a, crs_g2: b }
    }
}

/// Where the search of the pairing group's hash starts: the SHA-256
/// digest of `data`, read little-endian, reduced into the scalar field.
pub open spec fn field_hash_start(data: Seq<u8>) -> nat {
    le_value(sha256_digest(data)) % scalar_modulus()
}

/// The `k`-th number the search from `s` meets: `s + k` modulo the field
/// order.
pub open spec fn field_step(s: nat, k: nat) -> nat {
    (s + k) % scalar_modulus()
}

/// `e` is what hashing `data` to a prime of the scalar field may give: the
/// search starts at `field_hash_start(data)` and steps by one modulo the
/// field order; `e` is where it stopped, and no number it passed over is
/// prime. When `e` is prime (the test it passed is randomized) it is the
/// first prime the search meets.
pub open spec fn field_hashes_to(data: Seq<u8>, e: nat) -> bool {
    let s = field_hash_start(data);
    let m = scalar_modulus();
    &&& e < m
    &&& e > 1
    &&& no_factor_up_to(e, trial_division_bound())
    &&& exists|k: nat|
        e == #[trigger] field_step(s, k) && forall|j: nat|
            j < k ==> !is_prime(#[trigger] field_step(s, j))
}

impl Group for BilinearG1 {
    type Element = G1;
    type Exponent = Scalar;

    open spec fn spec_wf(&self) -> bool {
        self.crs_g1@.len() >= 1 && self.crs_g2@.len() >= 2
    }

    open spec fn spec_gen(&self) -> Seq<u8> {
        self.crs_g1@[0]@
    }

    open spec fn spec_gen_ok(&self) -> bool {
        self.crs_g1@.len() > 0
    }

    open spec fn spec_identity(&self) -> Seq<u8> {
        g1_identity_bytes()
    }

    open spec fn spec_mul(&self, a: Seq<u8>, b: Seq<u8>) -> Seq<u8> {
        g1_sum(a, b)
    }

    open spec fn spec_invertible(&self, a: Seq<u8>) -> bool {
        true
    }

    open spec fn spec_inverse(&self, a: Seq<u8>) -> Seq<u8> {
        g1_negation(a)
    }

    open spec fn spec_exp(&self, base: Seq<u8>, e: nat) -> Seq<u8> {
        g1_scaled(base, e)
    }

    open spec fn spec_exp_id() -> nat {
        1
    }

    open spec fn spec_exp_mul(a: nat, b: nat) -> nat {
        (a * b) % scalar_modulus()
    }

    open spec fn spec_exp_add(a: nat, b: nat) -> nat {
        (a + b) % scalar_modulus()
    }

    open spec fn spec_exp_divisor(b: nat) -> bool {
        0 < b < scalar_modulus()
    }

    open spec fn spec_exp_div_rem(a: nat, b: nat) -> (nat, nat) {
        ((a * mod_inverse(b, scalar_modulus())) % scalar_modulus(), 0)
    }

    open spec fn spec_element_bytes(&self, a: Seq<u8>) -> Seq<u8> {
        a
    }

    open spec fn spec_hashes_to(&self, data: Seq<u8>, e: nat) -> bool {
        field_hashes_to(data, e)
    }

    /// A reference string for up to 64 roots.
    fn setup() -> (r: BilinearG1)
        ensures
            r.crs_g1@.len() == 65,
            r.crs_g2@.len() == 2,
            r.commits_one_to_first(),
    {
        BilinearG1::new(64)
    }

    /// The first power of the reference string.
    fn g(&self) -> (r: G1) {
        self.crs_g1[0].clone()
    }

    fn id(&self) -> (r: G1) {
        G1::identity()
    }

    fn mul(&self, a: &G1, b: &G1) -> (r: G1) {
        a.add(b)
    }

    fn inv(&self, element: &G1) -> (r: G1) {
        element.neg()
    }

    fn exp(&self, base: &G1, exponent: &Scalar) -> (r: G1) {
        base.mul(exponent)
    }

    fn exp_id() -> (r: Scalar) {
        Scalar::one()
    }

    fn exp_mul(a: &Scalar, b: &Scalar) -> (r: Scalar) {
        a.mul(b)
    }

    fn exp_add(a: &Scalar, b: &Scalar) -> (r: Scalar) {
        a.add(b)
    }

    /// Field division: `(a / b, 0)`.
    fn exp_div_rem(a: &Scalar, b: &Scalar) -> (r: (Scalar, Scalar)) {
        proof {
            use_type_invariant(b);
        }
        match b.inverse() {
            Some(b_inv) => {
                proof {
                    use_type_invariant(&b_inv);
                    let m = scalar_modulus();
                    vstd::arithmetic::div_mod::lemma_small_mod(1, m);
                    assert(is_mod_inverse(b@, b_inv@, m));
                    lemma_mod_inverse_unique(b@, b_inv@, mod_inverse(b@, m), m);
                }
                (a.mul(&b_inv), Scalar::zero())
            },
            None => {
                proof {
                    assert(false);
                }
                (Scalar::zero(), Scalar::zero())
            },
        }
    }

    fn element_to_bytes(&self, element: &G1) -> (r: Vec<u8>) {
        element.to_bytes()
    }

    /// The search of `field_hashes_to`: from the SHA-256 digest of `data`,
    /// read little-endian and reduced into the scalar field, step by one
    /// (past the modulus back to zero) until the primality test passes.
    fn hash_to_prime(&self, data: &[u8]) -> (r: Scalar) {
        let digest = sha256(data);
        let start = Scalar::from_le_bytes_mod_order(digest.as_slice());
        let one = Scalar::one();
        let mut c = start.clone();
        let ghost m = scalar_modulus();
        let ghost mut k: nat = 0;
        proof {
            use_type_invariant(&start);
            assert(is_prime(2)) by {
                assert forall|d: nat| 1 < d < 2 implies #[trigger] (2nat % d) != 0 by {}
            }
            vstd::arithmetic::div_mod::lemma_small_mod(start@, m);
        }
        loop
            invariant
                m == scalar_modulus(),
                one@ == 1,
                start@ == field_hash_start(data@),
                start@ < m,
                is_prime(2),
                c@ < m,
                c@ == field_step(start@, k),
                forall|j: nat| j < k ==> !is_prime(#[trigger] field_step(start@, j)),
            decreases (if c@ <= 2 { 2 - c@ } else { m - c@ + 2 }),
        {
            proof {
                use_type_invariant(&c);
            }
            let cv = c.value();
            if probable_prime(&cv) {
                return c;
            }
            let ghost old_c = c@;
            proof {
                assert(old_c != 2);
            }
            c = c.add(&one);
            proof {
                vstd::arithmetic::div_mod::lemma_add_mod_noop((start@ + k) as int, 1, m as int);
                vstd::arithmetic::div_mod::lemma_small_mod(1, m);
                assert(((start@ + k) % m + 1) % m == (start@ + k + 1) % m);
                if old_c + 1 < m {
                    vstd::arithmetic::div_mod::lemma_small_mod((old_c + 1) as nat, m);
                } else {
                    vstd::arithmetic::div_mod::lemma_mod_self_0(m as int);
                }
                k = k + 1;
            }
        }
    }

    fn random_exponent(&self) -> Scalar {
        Scalar::random()
    }

    fn element_eq(&self, a: &G1, b: &G1) -> (r: bool) {
        a.equals(b)
    }

    fn exponent_eq(a: &Scalar, b: &Scalar) -> (r: bool) {
        a.equals(b)
    }

    fn copy_element(a: &G1) -> (r: G1) {
        a.clone()
    }

    fn copy_exponent(a: &Scalar) -> (r: Scalar) {
        a.clone()
    }
}

/// What the pairing group's hash gives, for every input: a field element
/// above one with no divisor but itself up to the primality test's
/// trial-division bound, reached from the start with no prime passed over.
pub proof fn lemma_field_hashed_prime(data: Seq<u8>, e: nat)
    requires
        field_hashes_to(data, e),
    ensures
        1 < e < scalar_modulus(),
        forall|d: nat| 1 < d <= trial_division_bound() && d < e ==> #[trigger] (e % d) != 0,
        exists|k: nat|
            e == #[trigger] field_step(field_hash_start(data), k) && forall|j: nat|
                j < k ==> !is_prime(#[trigger] field_step(field_hash_start(data), j)),
{
    assert forall|d: nat| 1 < d <= trial_division_bound() && d < e implies #[trigger] (e % d) != 0 by {
        if e % d == 0 {
            assert(e == d);
        }
    }
}

} // verus!

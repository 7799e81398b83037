//! Accumulators in groups of unknown order, with blinded (privately
//! delegatable) proof updates.

use vstd::prelude::*;
use crate::bignum::{BigNat, BigSigned, decimal_bytes, nat_to_decimal};
use crate::groups::rsa_group::random_seed;
use crate::traits::Group;

pub mod rsa;
pub mod laws;

verus! {

/// A membership witness.
#[derive(Clone, Debug, PartialEq, Eq)]
pub struct RsaMembershipProof(pub BigNat);

/// A non-membership witness `(a, b)` such that `acc^a * b^x = g`.
#[derive(Clone, Debug, PartialEq, Eq)]
pub struct RsaNonMembershipProof {
    pub a: BigSigned,
    pub b: BigNat,
}

/// A blinded membership witness.
#[derive(Clone, Debug, PartialEq, Eq)]
pub struct RsaBlindedMembershipProof(pub BigNat);

/// A blinded non-membership witness `(value, q)` where `value = element * q`.
#[derive(Clone, Debug, PartialEq, Eq)]
pub struct RsaBlindedNonMembershipProof {
    pub value: BigNat,
    pub q: BigNat,
}

/// A single proof of discrete-log equality `(a, b, z)`.
#[derive(Clone, Debug, PartialEq, Eq)]
pub struct RsaDleqProof {
    pub a: BigNat,
    pub b: BigNat,
    pub z: BigNat,
}

/// Auxiliary proof data accompanying an updated blinded membership proof:
/// `pi1` witnesses the accumulator update and `pi2` the blinded proof update.
#[derive(Clone, Debug, PartialEq, Eq)]
pub struct RsaNizkAux {
    pub pi1: RsaDleqProof,
    pub pi2: RsaDleqProof,
}

/// An updated blinded membership witness `(a, b)`.
#[derive(Clone, Debug, PartialEq, Eq)]
pub struct RsaUpdatedBlindedMembershipProof {
    pub a: BigNat,
    pub b: BigNat,
}

/// An updated blinded non-membership witness `(a, b)`.
#[derive(Clone, Debug, PartialEq, Eq)]
pub struct RsaUpdatedBlindedNonMembershipProof {
    pub a: BigSigned,
    pub b: BigNat,
}

/// The two discrete-log equality proofs of a blinded membership update.
pub type Aux = ((BigNat, BigNat, BigNat), (BigNat, BigNat, BigNat));

/// An updated blinded membership witness, its proofs, and the new
/// accumulator value.
pub type UpdatedBlindProof = ((BigNat, BigNat), Aux, BigNat);

impl RsaMembershipProof {
    pub fn from_raw(v: BigNat) -> (r: Self)
        ensures
            r.0 == v,
    {
        Self(v)
    }

    pub fn into_raw(self) -> (r: BigNat)
        ensures
            r == self.0,
    {
        self.0
    }
}

impl RsaNonMembershipProof {
    pub fn from_raw(a: BigSigned, b: BigNat) -> (r: Self)
        ensures
            r.a == a,
            r.b == b,
    {
        Self { a, b }
    }

    pub fn into_raw(self) -> (r: (BigSigned, BigNat))
        ensures
            r == (self.a, self.b),
    {
        (self.a, self.b)
    }
}

impl RsaBlindedMembershipProof {
    pub fn from_raw(v: BigNat) -> (r: Self)
        ensures
            r.0 == v,
    {
        Self(v)
    }

    pub fn into_raw(self) -> (r: BigNat)
        ensures
            r == self.0,
    {
        self.0
    }
}

impl RsaBlindedNonMembershipProof {
    pub fn from_raw(value: BigNat, q: BigNat) -> (r: Self)
        ensures
            r.value == value,
            r.q == q,
    {
        Self { value, q }
    }

    pub fn into_raw(self) -> (r: (BigNat, BigNat))
        ensures
            r == (self.value, self.q),
    {
        (self.value, self.q)
    }
}

impl RsaDleqProof {
    pub fn from_raw(t: (BigNat, BigNat, BigNat)) -> (r: Self)
        ensures
            r.a == t.0,
            r.b == t.1,
            r.z == t.2,
    {
        Self { a: t.0, b: t.1, z: t.2 }
    }

    pub fn into_raw(self) -> (r: (BigNat, BigNat, BigNat))
        ensures
            r == (self.a, self.b, self.z),
    {
        (self.a, self.b, self.z)
    }
}

impl RsaNizkAux {
    pub fn from_raw(t: Aux) -> (r: Self)
        ensures
            r.pi1.a == t.0.0 && r.pi1.b == t.0.1 && r.pi1.z == t.0.2,
            r.pi2.a == t.1.0 && r.pi2.b == t.1.1 && r.pi2.z == t.1.2,
    {
        Self { pi1: RsaDleqProof::from_raw(t.0), pi2: RsaDleqProof::from_raw(t.1) }
    }

    pub fn into_raw(self) -> (r: Aux)
        ensures
            r == ((self.pi1.a, self.pi1.b, self.pi1.z), (self.pi2.a, self.pi2.b, self.pi2.z)),
    {
        (self.pi1.into_raw(), self.pi2.into_raw())
    }
}

impl RsaUpdatedBlindedMembershipProof {
    pub fn from_raw(a: BigNat, b: BigNat) -> (r: Self)
        ensures
            r.a == a,
            r.b == b,
    {
        Self { a, b }
    }

    pub fn into_raw(self) -> (r: (BigNat, BigNat))
        ensures
            r == (self.a, self.b),
    {
        (self.a, self.b)
    }
}

impl RsaUpdatedBlindedNonMembershipProof {
    pub fn from_raw(a: BigSigned, b: BigNat) -> (r: Self)
        ensures
            r.a == a,
            r.b == b,
    {
        Self { a, b }
    }

    pub fn into_raw(self) -> (r: (BigSigned, BigNat))
        ensures
            r == (self.a, self.b),
    {
        (self.a, self.b)
    }
}

/// An accumulator: the group, the accumulated value, and the set of
/// accumulated prime representatives (without repetitions).
pub struct RsaAccumulator<G: Group> {
    pub group: G,
    pub acc: G::Element,
    pub set: Vec<G::Exponent>,
}

impl<G: Group> RsaAccumulator<G> {
    /// The values of the accumulated exponents, in insertion order.
    pub open spec fn set_view(&self) -> Seq<<G::Exponent as View>::V> {
        self.set@.map_values(|x: G::Exponent| x@)
    }

    /// The accumulated exponents occur once each.
    pub open spec fn set_distinct(&self) -> bool {
        self.set_view().no_duplicates()
    }

    /// An empty accumulator over `group`, whose value is the generator.
    pub fn new(group: G) -> (r: Self)
        requires
            group.spec_gen_ok(),
        ensures
            r.group == group,
            r.acc@ == group.spec_gen(),
            r.set_view() == Seq::<<G::Exponent as View>::V>::empty(),
            r.set_distinct(),
    {
        let acc = group.g();
        let set: Vec<G::Exponent> = Vec::new();
        let r = Self { group, acc, set };
        assert(r.set_view() =~= Seq::<<G::Exponent as View>::V>::empty());
        r
    }

    /// The current accumulator value.
    pub fn value_raw(&self) -> (r: &G::Element)
        ensures
            r == &self.acc,
    {
        &self.acc
    }

    /// Whether `x` is among the accumulated exponents.
    pub fn contains(&self, x: &G::Exponent) -> (r: bool)
        ensures
            r == self.set_view().contains(x@),
    {
        let mut i: usize = 0;
        while i < self.set.len()
            invariant
                i <= self.set.len(),
                forall|j: int| 0 <= j < i ==> self.set_view()[j] != x@,
            decreases self.set.len() - i,
        {
            if G::exponent_eq(&self.set[i], x) {
                assert(self.set_view()[i as int] == x@);
                return true;
            }
            i = i + 1;
        }
        false
    }

    /// Add an element: it is represented by the prime its decimal digits
    /// hash to, which joins the set, and the accumulator is raised to it,
    /// unless it is there already. Returns the prime representative.
    pub fn add_raw(&mut self, element: &BigNat) -> (x: G::Exponent)
        requires
            old(self).group.spec_wf(),
        ensures
            final(self).group == old(self).group,
            old(self).group.spec_hashes_to(decimal_bytes(element@), x@),
            old(self).set_view().contains(x@) ==> final(self).set_view() == old(self).set_view()
                && final(self).acc@ == old(self).acc@,
            !old(self).set_view().contains(x@) ==> final(self).set_view() == old(
                self,
            ).set_view().push(x@) && final(self).acc@ == old(self).group.spec_exp(
                old(self).acc@,
                x@,
            ),
            old(self).set_distinct() ==> final(self).set_distinct(),
    {
        let x_str = nat_to_decimal(element);
        let x_prime = self.group.hash_to_prime(x_str.as_slice());
        if !self.contains(&x_prime) {
            let ghost before = self.set_view();
            self.set.push(G::copy_exponent(&x_prime));
            assert(self.set_view() =~= before.push(x_prime@));
            assert(before.no_duplicates() ==> self.set_view().no_duplicates()) by {
                if before.no_duplicates() {
                    assert forall|i: int, j: int|
                        0 <= i < self.set_view().len() && 0 <= j < self.set_view().len() && i
                            != j implies self.set_view()[i] != self.set_view()[j] by {
                        if i < before.len() && j < before.len() {
                        } else if i == before.len() {
                            assert(!before.contains(x_prime@));
                            assert(before[j] != x_prime@);
                        } else {
                            assert(before[i] != x_prime@);
                        }
                    }
                }
            }
            let acc = self.group.exp(&self.acc, &x_prime);
            self.acc = acc;
        }
        x_prime
    }

    /// Check a membership witness: `proof^element == acc`.
    pub fn mem_ver_raw(&self, proof: &G::Element, element: &G::Exponent) -> (r: bool)
        requires
            self.group.spec_wf(),
        ensures
            r == (self.group.spec_exp(proof@, element@) == self.acc@),
    {
        let lhs = self.group.exp(proof, element);
        self.group.element_eq(&lhs, &self.acc)
    }

    /// Blind a membership witness: multiply it by `g^st` for a fresh blinder
    /// `st` (a prime hashed from random bytes); returns the blinded witness
    /// and `st`.
    pub fn blind_mem_proof_raw(&self, proof: &G::Element) -> (r: (G::Element, G::Exponent))
        requires
            self.group.spec_wf(),
            self.group.spec_gen_ok(),
        ensures
            exists|seed: Seq<u8>|
                seed.len() == 32 && #[trigger] self.group.spec_hashes_to(seed, r.1@),
            r.0@ == self.group.spec_mul(proof@, self.group.spec_exp(self.group.spec_gen(), r.1@)),
    {
        let blinder = self.sample_blinder();
        let mask = self.group.exp(&self.group.g(), &blinder);
        let blinded_proof = self.group.mul(proof, &mask);
        let r = (blinded_proof, blinder);
        proof {
            let seed = choose|seed: Seq<u8>|
                seed.len() == 32 && #[trigger] self.group.spec_hashes_to(seed, r.1@);
            assert(seed.len() == 32 && self.group.spec_hashes_to(seed, r.1@));
        }
        r
    }

    /// Unblind a membership witness that was blinded and not updated since:
    /// multiply it by the inverse of `g^st`. An updated blinded witness is
    /// unblinded by `unblind_updated_mem_proof_raw`.
    pub fn unblind_mem_proof_raw(&self, blinded_proof: &G::Element, st: &G::Exponent) -> (r:
        G::Element)
        requires
            self.group.spec_wf(),
            self.group.spec_gen_ok(),
            self.group.spec_invertible(self.group.spec_exp(self.group.spec_gen(), st@)),
        ensures
            r@ == self.group.spec_mul(
                blinded_proof@,
                self.group.spec_inverse(self.group.spec_exp(self.group.spec_gen(), st@)),
            ),
    {
        let st_mask = self.group.exp(&self.group.g(), st);
        let st_inv = self.group.inv(&st_mask);
        self.group.mul(blinded_proof, &st_inv)
    }

    /// Unblind a blinded membership witness after a delegated update
    /// `(a, b) = (blinded^d, g^d)`: multiply `a` by the inverse of `b^st`,
    /// which removes the blinding factor `g^st` raised to `d` and leaves the
    /// witness raised to `d`, the witness for the updated value.
    pub fn unblind_updated_mem_proof_raw(&self, upd_blinded_proof: &(G::Element, G::Element), st: &G::Exponent) -> (r:
        G::Element)
        requires
            self.group.spec_wf(),
            self.group.spec_invertible(self.group.spec_exp(upd_blinded_proof.1@, st@)),
        ensures
            r@ == self.group.spec_mul(
                upd_blinded_proof.0@,
                self.group.spec_inverse(self.group.spec_exp(upd_blinded_proof.1@, st@)),
            ),
    {
        let mask = self.group.exp(&upd_blinded_proof.1, st);
        let mask_inv = self.group.inv(&mask);
        self.group.mul(&upd_blinded_proof.0, &mask_inv)
    }

    /// A fresh blinder: a prime hashed from random bytes.
    fn sample_blinder(&self) -> (r: G::Exponent)
        ensures
            exists|seed: Seq<u8>|
                seed.len() == 32 && #[trigger] self.group.spec_hashes_to(seed, r@),
    {
        let seed = random_seed();
        let r = self.group.hash_to_prime(seed.as_slice());
        assert(self.group.spec_hashes_to(seed@, r@));
        r
    }
}

} // verus!

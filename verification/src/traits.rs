//! The group abstraction the accumulators are built on.

use vstd::prelude::*;
use crate::error::AccumulatorResult;

verus! {

/// A group written multiplicatively, with an exponent type, as the
/// accumulator and the proofs of discrete-log equality see it.
///
/// Each operation is described by a spec function over the views of
/// elements and exponents; `spec_wf` is the validity of the group's
/// parameters that the operations need.
pub trait Group: Sized {
    /// The element type in the group.
    type Element: View;
    /// The exponent/scalar type.
    type Exponent: View;

    /// The group's parameters are valid for its operations.
    spec fn spec_wf(&self) -> bool;

    /// The generator.
    spec fn spec_gen(&self) -> <Self::Element as View>::V;

    /// The group has a generator to give.
    spec fn spec_gen_ok(&self) -> bool;

    /// The identity element.
    spec fn spec_identity(&self) -> <Self::Element as View>::V;

    /// The group operation.
    spec fn spec_mul(
        &self,
        a: <Self::Element as View>::V,
        b: <Self::Element as View>::V,
    ) -> <Self::Element as View>::V;

    /// `a` has an inverse.
    spec fn spec_invertible(&self, a: <Self::Element as View>::V) -> bool;

    /// The inverse of an invertible element.
    spec fn spec_inverse(&self, a: <Self::Element as View>::V) -> <Self::Element as View>::V;

    /// Exponentiation.
    spec fn spec_exp(
        &self,
        base: <Self::Element as View>::V,
        e: <Self::Exponent as View>::V,
    ) -> <Self::Element as View>::V;

    /// The exponent one.
    spec fn spec_exp_id() -> <Self::Exponent as View>::V;

    /// Product of exponents.
    spec fn spec_exp_mul(
        a: <Self::Exponent as View>::V,
        b: <Self::Exponent as View>::V,
    ) -> <Self::Exponent as View>::V;

    /// Sum of exponents.
    spec fn spec_exp_add(
        a: <Self::Exponent as View>::V,
        b: <Self::Exponent as View>::V,
    ) -> <Self::Exponent as View>::V;

    /// `b` can divide an exponent.
    spec fn spec_exp_divisor(b: <Self::Exponent as View>::V) -> bool;

    /// Quotient and remainder of exponents.
    spec fn spec_exp_div_rem(
        a: <Self::Exponent as View>::V,
        b: <Self::Exponent as View>::V,
    ) -> (<Self::Exponent as View>::V, <Self::Exponent as View>::V);

    /// The byte encoding of an element.
    spec fn spec_element_bytes(&self, a: <Self::Element as View>::V) -> Seq<u8>;

    /// `e` is an exponent that hashing `data` may give: a prime in a group of
    /// unknown order, where exponents must be primes to be accumulated; the
    /// digest reduced into the scalar field in the pairing group, whose
    /// exponents are field elements.
    spec fn spec_hashes_to(&self, data: Seq<u8>, e: <Self::Exponent as View>::V) -> bool;

    /// Setup/initialize the group with freshly drawn parameters.
    fn setup() -> (r: Self)
        ensures
            r.spec_wf(),
    ;

    /// The generator element.
    fn g(&self) -> (r: Self::Element)
        requires
            self.spec_gen_ok(),
        ensures
            r@ == self.spec_gen(),
    ;

    /// The identity element of the group.
    fn id(&self) -> (r: Self::Element)
        ensures
            r@ == self.spec_identity(),
    ;

    /// The group operation: multiply two elements.
    fn mul(&self, a: &Self::Element, b: &Self::Element) -> (r: Self::Element)
        requires
            self.spec_wf(),
        ensures
            r@ == self.spec_mul(a@, b@),
    ;

    /// The inverse of a group element.
    fn inv(&self, element: &Self::Element) -> (r: Self::Element)
        requires
            self.spec_wf(),
            self.spec_invertible(element@),
        ensures
            r@ == self.spec_inverse(element@),
    ;

    /// Exponentiation: `base^exponent`.
    fn exp(&self, base: &Self::Element, exponent: &Self::Exponent) -> (r: Self::Element)
        requires
            self.spec_wf(),
        ensures
            r@ == self.spec_exp(base@, exponent@),
    ;

    /// The identity for exponents (usually 1).
    fn exp_id() -> (r: Self::Exponent)
        ensures
            r@ == Self::spec_exp_id(),
    ;

    /// Multiply two exponents.
    fn exp_mul(a: &Self::Exponent, b: &Self::Exponent) -> (r: Self::Exponent)
        ensures
            r@ == Self::spec_exp_mul(a@, b@),
    ;

    /// Add two exponents.
    fn exp_add(a: &Self::Exponent, b: &Self::Exponent) -> (r: Self::Exponent)
        ensures
            r@ == Self::spec_exp_add(a@, b@),
    ;

    /// Quotient and remainder of two exponents.
    fn exp_div_rem(a: &Self::Exponent, b: &Self::Exponent) -> (r: (Self::Exponent, Self::Exponent))
        requires
            Self::spec_exp_divisor(b@),
        ensures
            (r.0@, r.1@) == Self::spec_exp_div_rem(a@, b@),
    ;

    /// The byte encoding of an element.
    fn element_to_bytes(&self, element: &Self::Element) -> (r: Vec<u8>)
        ensures
            r@ == self.spec_element_bytes(element@),
    ;

    /// Hash arbitrary data to an exponent; each group's `spec_hashes_to`
    /// says which one (a prime in the RSA group).
    fn hash_to_prime(&self, data: &[u8]) -> (r: Self::Exponent)
        ensures
            self.spec_hashes_to(data@, r@),
    ;

    /// A freshly drawn random exponent.
    fn random_exponent(&self) -> Self::Exponent;

    /// Two elements are equal.
    fn element_eq(&self, a: &Self::Element, b: &Self::Element) -> (r: bool)
        ensures
            r == (a@ == b@),
    ;

    /// Two exponents are equal.
    fn exponent_eq(a: &Self::Exponent, b: &Self::Exponent) -> (r: bool)
        ensures
            r == (a@ == b@),
    ;

    /// A copy of an element.
    fn copy_element(a: &Self::Element) -> (r: Self::Element)
        ensures
            r@ == a@,
    ;

    /// A copy of an exponent.
    fn copy_exponent(a: &Self::Exponent) -> (r: Self::Exponent)
        ensures
            r@ == a@,
    ;
}

/// An accumulator of a set of elements, with membership and
/// non-membership witnesses.
///
/// The spec functions whose names end in `_ok` say when an operation may
/// be called; the others say, for each operation, which results it may
/// give on which inputs: each implementation defines them, and its
/// operations are verified against them.
pub trait Accumulator: Sized {
    type Group: Group;
    type Element;
    type MembershipProof;
    type NonMembershipProof;
    type NonMembershipProduct;

    /// The parameters the operations need are valid.
    spec fn spec_ready(&self) -> bool;

    /// An accumulator can be made over `group`.
    spec fn spec_new_ok(group: Self::Group) -> bool;

    /// `element` can be added.
    spec fn spec_add_ok(&self, element: Self::Element) -> bool;

    /// `element` can be deleted.
    spec fn spec_del_ok(&self, element: Self::Element) -> bool;

    /// A membership witness for `element` can be computed.
    spec fn spec_mem_proof_ok(&self, element: <Self::Group as Group>::Exponent) -> bool;

    /// A non-membership witness for `element` against `prod` can be computed.
    spec fn spec_non_mem_proof_ok(
        &self,
        element: Self::Element,
        prod: Self::NonMembershipProduct,
    ) -> bool;

    /// `proof` can be checked.
    spec fn spec_non_mem_ver_ok(&self, proof: Self::NonMembershipProof) -> bool;

    /// `r` is what `new(group)` gives.
    spec fn spec_new(group: Self::Group, r: Self) -> bool;

    /// Adding `element` turns `self` into `after` and gives `r`.
    spec fn spec_add(
        &self,
        element: Self::Element,
        after: Self,
        r: <Self::Group as Group>::Exponent,
    ) -> bool;

    /// Deleting `element` turns `self` into `after`.
    spec fn spec_del(&self, element: Self::Element, after: Self) -> bool;

    /// `r` is the accumulator value.
    spec fn spec_value(&self, r: <Self::Group as Group>::Element) -> bool;

    /// `r` is what `mem_proof_create(element)` gives.
    spec fn spec_mem_proof_create(
        &self,
        element: <Self::Group as Group>::Exponent,
        r: AccumulatorResult<Self::MembershipProof>,
    ) -> bool;

    /// `proof` is accepted for `element`.
    spec fn spec_mem_ver(
        &self,
        proof: Self::MembershipProof,
        element: <Self::Group as Group>::Exponent,
    ) -> bool;

    /// `r` is what `non_mem_proof_create(element, prod)` gives.
    spec fn spec_non_mem_proof_create(
        &self,
        element: Self::Element,
        prod: Self::NonMembershipProduct,
        r: AccumulatorResult<Self::NonMembershipProof>,
    ) -> bool;

    /// `proof` is accepted for `element`.
    spec fn spec_non_mem_ver(&self, proof: Self::NonMembershipProof, element: Self::Element) -> bool;

    /// A new accumulator over `group`.
    fn new(group: Self::Group) -> (r: Self)
        requires
            Self::spec_new_ok(group),
        ensures
            Self::spec_new(group, r),
    ;

    /// Add an element to the accumulator; returns its representative.
    fn add(&mut self, element: &Self::Element) -> (r: <Self::Group as Group>::Exponent)
        requires
            old(self).spec_ready(),
            old(self).spec_add_ok(*element),
        ensures
            final(self).spec_ready(),
            old(self).spec_add(*element, *final(self), r),
    ;

    /// Delete an element from the accumulator.
    fn del(&mut self, element: &Self::Element)
        requires
            old(self).spec_ready(),
            old(self).spec_del_ok(*element),
        ensures
            final(self).spec_ready(),
            old(self).spec_del(*element, *final(self)),
    ;

    /// The current accumulator value.
    fn value(&self) -> (r: &<Self::Group as Group>::Element)
        ensures
            self.spec_value(*r),
    ;

    /// A membership witness for an element.
    fn mem_proof_create(&self, element: &<Self::Group as Group>::Exponent) -> (r:
        AccumulatorResult<Self::MembershipProof>)
        requires
            self.spec_ready(),
            self.spec_mem_proof_ok(*element),
        ensures
            self.spec_mem_proof_create(*element, r),
    ;

    /// Check a membership witness.
    fn mem_ver(&self, proof: &Self::MembershipProof, element: &<Self::Group as Group>::Exponent) -> (r:
        bool)
        requires
            self.spec_ready(),
        ensures
            r == self.spec_mem_ver(*proof, *element),
    ;

    /// A non-membership witness for an element.
    fn non_mem_proof_create(
        &self,
        element: &Self::Element,
        prod: &Self::NonMembershipProduct,
    ) -> (r: AccumulatorResult<Self::NonMembershipProof>)
        requires
            self.spec_ready(),
            self.spec_non_mem_proof_ok(*element, *prod),
        ensures
            self.spec_non_mem_proof_create(*element, *prod, r),
    ;

    /// Check a non-membership witness.
    fn non_mem_ver(&self, proof: &Self::NonMembershipProof, element: &Self::Element) -> (r: bool)
        requires
            self.spec_ready(),
            self.spec_non_mem_ver_ok(*proof),
        ensures
            r == self.spec_non_mem_ver(*proof, *element),
    ;
}

/// An accumulator whose witnesses can be updated by an untrusted party
/// without revealing them: the holder blinds the witness, the updater
/// works on the blinded witness and proves its work, and the holder
/// checks the work and unblinds.
pub trait PrivatelyDelegatableAccumulator: Accumulator {
    type BlindedMembershipProof;
    type MembershipBlindingFactor;
    type UpdatedBlindedMembershipProof;
    type MembershipUpdateAux;
    type BlindedNonMembershipProof;
    type UpdatedBlindedNonMembershipProof;
    type Delta;

    /// A blinded membership witness can be unblinded with `st`.
    spec fn spec_unblind_ok(&self, st: Self::MembershipBlindingFactor) -> bool;

    /// `proof` can be blinded.
    spec fn spec_blind_mem_ok(&self, proof: Self::MembershipProof) -> bool;

    /// A blinded membership witness made against `acc_t` can be updated by
    /// `delta`.
    spec fn spec_mem_upd_ok(
        &self,
        acc_t: <Self::Group as Group>::Element,
        blinded: Self::BlindedMembershipProof,
        delta: Self::Delta,
    ) -> bool;

    /// A non-membership request for `element` can be blinded.
    spec fn spec_blind_non_mem_ok(&self, element: Self::Element) -> bool;

    /// An updated non-membership witness can be unblinded with `st`.
    spec fn spec_unblind_non_mem_ok(&self, st: <Self::Group as Group>::Exponent) -> bool;

    /// A blinded non-membership witness can be updated by `delta`.
    spec fn spec_non_mem_upd_ok(
        &self,
        blinded: Self::BlindedNonMembershipProof,
        delta: Self::Delta,
    ) -> bool;

    /// An updated blinded non-membership witness can be checked against
    /// `acc_t_prime`.
    spec fn spec_ver_non_mem_upd_ok(
        &self,
        acc_t_prime: <Self::Group as Group>::Element,
        upd: Self::UpdatedBlindedNonMembershipProof,
    ) -> bool;

    /// `r` is what `blind_mem_proof(proof)` may give.
    spec fn spec_blind_mem_proof(
        &self,
        proof: Self::MembershipProof,
        r: (Self::BlindedMembershipProof, Self::MembershipBlindingFactor),
    ) -> bool;

    /// `r` is what `blind_mem_proof_upd(acc_t, blinded, delta)` gives.
    spec fn spec_blind_mem_proof_upd(
        &self,
        acc_t: <Self::Group as Group>::Element,
        blinded: Self::BlindedMembershipProof,
        delta: Self::Delta,
        r: AccumulatorResult<
            (
                Self::UpdatedBlindedMembershipProof,
                Self::MembershipUpdateAux,
                <Self::Group as Group>::Element,
            ),
        >,
    ) -> bool;

    /// `r` is what checking the update `upd` of `blinded`, made against
    /// `acc_t`, with `aux` may give.
    spec fn spec_ver_blind_mem_proof_upd(
        &self,
        acc_t: <Self::Group as Group>::Element,
        blinded: Self::BlindedMembershipProof,
        upd: Self::UpdatedBlindedMembershipProof,
        aux: Self::MembershipUpdateAux,
        r: bool,
    ) -> bool;

    /// `r` is what `unblind_mem_proof(blinded, st)` gives.
    spec fn spec_unblind_mem_proof(
        &self,
        blinded: Self::BlindedMembershipProof,
        st: Self::MembershipBlindingFactor,
        r: Self::MembershipProof,
    ) -> bool;

    /// `r` is what `blind_non_mem_proof(element)` may give.
    spec fn spec_blind_non_mem_proof(
        &self,
        element: Self::Element,
        r: Self::BlindedNonMembershipProof,
    ) -> bool;

    /// `r` is what `blind_non_mem_proof_upd(blinded, delta)` gives.
    spec fn spec_blind_non_mem_proof_upd(
        &self,
        blinded: Self::BlindedNonMembershipProof,
        delta: Self::Delta,
        r: AccumulatorResult<Self::UpdatedBlindedNonMembershipProof>,
    ) -> bool;

    /// The update `upd` of `blinded` is accepted against `acc_t_prime`.
    spec fn spec_ver_blind_non_mem_proof_upd(
        &self,
        acc_t_prime: <Self::Group as Group>::Element,
        blinded: Self::BlindedNonMembershipProof,
        upd: Self::UpdatedBlindedNonMembershipProof,
    ) -> bool;

    /// `r` is what `unblind_non_mem_proof(st, upd)` gives.
    spec fn spec_unblind_non_mem_proof(
        &self,
        st: <Self::Group as Group>::Exponent,
        upd: Self::UpdatedBlindedNonMembershipProof,
        r: Self::NonMembershipProof,
    ) -> bool;

    /// Blind a membership witness; returns it blinded and the blinding factor.
    fn blind_mem_proof(&self, proof: &Self::MembershipProof) -> (r: (
        Self::BlindedMembershipProof,
        Self::MembershipBlindingFactor,
    ))
        requires
            self.spec_ready(),
            self.spec_blind_mem_ok(*proof),
        ensures
            self.spec_blind_mem_proof(*proof, r),
    ;

    /// Update a blinded membership witness by `delta`, with proofs of the
    /// work and the new accumulator value.
    fn blind_mem_proof_upd(
        &self,
        acc_t: &<Self::Group as Group>::Element,
        blinded_proof: &Self::BlindedMembershipProof,
        delta: &Self::Delta,
    ) -> (r: AccumulatorResult<
        (
            Self::UpdatedBlindedMembershipProof,
            Self::MembershipUpdateAux,
            <Self::Group as Group>::Element,
        ),
    >)
        requires
            self.spec_ready(),
            self.spec_mem_upd_ok(*acc_t, *blinded_proof, *delta),
        ensures
            self.spec_blind_mem_proof_upd(*acc_t, *blinded_proof, *delta, r),
    ;

    /// Check the proofs of an update of a blinded membership witness.
    fn ver_blind_mem_proof_upd(
        &self,
        acc_t: &<Self::Group as Group>::Element,
        blinded_proof: &Self::BlindedMembershipProof,
        upd_blinded_proof: &Self::UpdatedBlindedMembershipProof,
        aux: &Self::MembershipUpdateAux,
    ) -> (r: bool)
        requires
            self.spec_ready(),
        ensures
            self.spec_ver_blind_mem_proof_upd(*acc_t, *blinded_proof, *upd_blinded_proof, *aux, r),
    ;

    /// Unblind a membership witness.
    fn unblind_mem_proof(
        &self,
        blinded_proof: &Self::BlindedMembershipProof,
        st: &Self::MembershipBlindingFactor,
    ) -> (r: Self::MembershipProof)
        requires
            self.spec_ready(),
            self.spec_unblind_ok(*st),
        ensures
            self.spec_unblind_mem_proof(*blinded_proof, *st, r),
    ;

    /// Blind a non-membership request for an element.
    fn blind_non_mem_proof(&self, element: &Self::Element) -> (r: Self::BlindedNonMembershipProof)
        requires
            self.spec_ready(),
            self.spec_blind_non_mem_ok(*element),
        ensures
            self.spec_blind_non_mem_proof(*element, r),
    ;

    /// Update a blinded non-membership witness by `delta`.
    fn blind_non_mem_proof_upd(
        &self,
        blinded_non_mem_proof: &Self::BlindedNonMembershipProof,
        delta: &Self::Delta,
    ) -> (r: AccumulatorResult<Self::UpdatedBlindedNonMembershipProof>)
        requires
            self.spec_ready(),
            self.spec_non_mem_upd_ok(*blinded_non_mem_proof, *delta),
        ensures
            self.spec_blind_non_mem_proof_upd(*blinded_non_mem_proof, *delta, r),
    ;

    /// Check an updated blinded non-membership witness.
    fn ver_blind_non_mem_proof_upd(
        &self,
        acc_t_prime: &<Self::Group as Group>::Element,
        blinded_non_mem_proof: &Self::BlindedNonMembershipProof,
        upd_blinded_non_mem_proof: &Self::UpdatedBlindedNonMembershipProof,
    ) -> (r: bool)
        requires
            self.spec_ready(),
            self.spec_ver_non_mem_upd_ok(*acc_t_prime, *upd_blinded_non_mem_proof),
        ensures
            r == self.spec_ver_blind_non_mem_proof_upd(
                *acc_t_prime,
                *blinded_non_mem_proof,
                *upd_blinded_non_mem_proof,
            ),
    ;

    /// Unblind an updated non-membership witness with the blinding factor.
    fn unblind_non_mem_proof(
        &self,
        st: &<Self::Group as Group>::Exponent,
        upd_blinded_non_mem_proof: &Self::UpdatedBlindedNonMembershipProof,
    ) -> (r: Self::NonMembershipProof)
        requires
            self.spec_ready(),
            self.spec_unblind_non_mem_ok(*st),
        ensures
            self.spec_unblind_non_mem_proof(*st, *upd_blinded_non_mem_proof, r),
    ;
}

} // verus!

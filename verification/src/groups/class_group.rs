//! The parameters of the class group of binary quadratic forms of a
//! negative discriminant. The group's arithmetic itself is not part of this
//! crate.

use vstd::prelude::*;
use crate::bignum::{BigNat, BigSigned, int_mod_floor, nat_lt};

verus! {

/// Parameters a class group is built from: a negative discriminant that is
/// one modulo four, and an odd prime above one whose prime form generates
/// the group.
pub open spec fn class_group_params_ok(discriminant: int, generator_prime: int) -> bool {
    &&& discriminant < 0
    &&& discriminant % 4 == 1
    &&& generator_prime > 1
    &&& generator_prime % 2 == 1
}

/// Whether `discriminant` and `generator_prime` pass the checks made before
/// a class group is built from them (the remainders are the floored ones,
/// in `[0, m)`).
pub fn class_group_params_valid(discriminant: &BigSigned, generator_prime: &BigSigned) -> (r: bool)
    ensures
        r == class_group_params_ok(discriminant@, generator_prime@),
{
    if !discriminant.is_negative() {
        return false;
    }
    let one = BigNat::from_u32(1);
    let four = BigNat::from_u32(4);
    if !int_mod_floor(discriminant, &four).value_eq(&one) {
        return false;
    }
    if generator_prime.is_negative() {
        return false;
    }
    let p = generator_prime.magnitude();
    if !nat_lt(&one, &p) {
        return false;
    }
    let two = BigNat::from_u32(2);
    int_mod_floor(generator_prime, &two).value_eq(&one)
}

} // verus!

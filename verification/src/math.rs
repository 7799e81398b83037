//! Exponentiation of big natural numbers.

use vstd::prelude::*;
use vstd::arithmetic::power::{lemma_pow_adds, lemma_pow_multiplies, lemma_pow1};
use vstd::arithmetic::div_mod::lemma_fundamental_div_mod;
use crate::bignum::{BigNat, nat_low_bit, nat_mul, nat_shr1};

verus! {

/// `b^e == b^(e mod 2) * (b * b)^(e / 2)`.
proof fn lemma_pow_halves(b: int, e: nat)
    ensures
        vstd::arithmetic::power::pow(b, e) == vstd::arithmetic::power::pow(b, e % 2) * vstd::arithmetic::power::pow(b * b, e / 2),
{
    lemma_fundamental_div_mod(e as int, 2);
    lemma_pow_adds(b, e % 2, 2 * (e / 2));
    lemma_pow_multiplies(b, 2, e / 2);
    assert(vstd::arithmetic::power::pow(b, 2) == b * b) by {
        reveal(vstd::arithmetic::power::pow);
        lemma_pow1(b);
    }
    assert(e == e % 2 + 2 * (e / 2));
    assert(vstd::arithmetic::power::pow(b, e % 2) * vstd::arithmetic::power::pow(b, 2 * (e / 2)) == vstd::arithmetic::power::pow(b, e % 2) * vstd::arithmetic::power::pow(b * b, e / 2));
}

/// `base^exp`, by square-and-multiply over the bits of `exp`.
pub fn pow(base: &BigNat, exp: &BigNat) -> (r: BigNat)
    ensures
        r@ == vstd::arithmetic::power::pow(base@ as int, exp@),
{
    let mut b = base.clone();
    let mut e = exp.clone();
    let mut acc = BigNat::from_u32(1);
    while !e.is_zero()
        invariant
            acc@ * vstd::arithmetic::power::pow(b@ as int, e@) == vstd::arithmetic::power::pow(base@ as int, exp@),
        decreases e@,
    {
        proof {
            lemma_pow_halves(b@ as int, e@);
        }
        let bit = nat_low_bit(&e);
        let ghost acc0 = acc@;
        let ghost b0: int = b@ as int;
        let ghost e0 = e@;
        if bit.value_eq(&BigNat::from_u32(1)) {
            acc = nat_mul(&acc, &b);
            proof {
                lemma_pow1(b0);
                assert(acc@ * vstd::arithmetic::power::pow(b0 * b0, e0 / 2) == acc0 * vstd::arithmetic::power::pow(b0, e0)) by (nonlinear_arith)
                    requires
                        acc@ == acc0 * b0,
                        vstd::arithmetic::power::pow(b0, e0) == vstd::arithmetic::power::pow(b0, 1) * vstd::arithmetic::power::pow(b0 * b0, e0 / 2),
                        vstd::arithmetic::power::pow(b0, 1) == b0,
                ;
            }
        } else {
            proof {
                reveal(vstd::arithmetic::power::pow);
                assert(e0 % 2 == 0);
                assert(vstd::arithmetic::power::pow(b0, 0) == 1);
            }
        }
        e = nat_shr1(&e);
        if !e.is_zero() {
            b = nat_mul(&b, &b);
        } else {
            proof {
                reveal(vstd::arithmetic::power::pow);
                assert(vstd::arithmetic::power::pow(b0 * b0, 0) == 1);
                assert(vstd::arithmetic::power::pow(b@ as int, 0) == 1);
            }
        }
    }
    proof {
        reveal(vstd::arithmetic::power::pow);
        assert(vstd::arithmetic::power::pow(b@ as int, 0) == 1);
    }
    acc
}

} // verus!

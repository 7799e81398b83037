use private_accumulator_proof_delegation::bignum::{BigNat, BigSigned};
use private_accumulator_proof_delegation::error::AccumulatorError;
use private_accumulator_proof_delegation::math::pow;

fn num(v: u64) -> BigNat {
    BigNat::from_u64(v)
}

#[test]
fn pow_by_squaring() {
    assert_eq!(pow(&num(3), &num(5)), num(243));
    assert_eq!(pow(&num(2), &num(0)), num(1));
    assert_eq!(pow(&num(0), &num(0)), num(1));
    assert_eq!(pow(&num(0), &num(7)), num(0));
    let big = pow(&num(2), &num(100));
    assert_eq!(big.to_digits(), vec![0u32, 0, 0, 16]);
}

#[test]
fn big_numbers_round_trip_bytes() {
    let x = BigNat::from_bytes_be(&[1u8, 0, 0]);
    assert_eq!(x, num(65536));
    assert_eq!(x.to_bytes_be(), vec![1u8, 0, 0]);
    assert_eq!(num(0).to_bytes_be(), vec![0u8]);
    assert!(num(0).is_zero());
    assert!(num(u64::MAX).value_eq(&BigNat::from_digits(vec![u32::MAX, u32::MAX])));
}

#[test]
fn signed_numbers() {
    let x = BigSigned::new(true, num(5));
    assert!(x.is_negative());
    assert_eq!(x.to_nat(), None);
    assert_eq!(x.magnitude(), num(5));
    let y = x.neg();
    assert!(!y.is_negative());
    assert_eq!(y.to_nat(), Some(num(5)));
    let zero = BigSigned::new(true, num(0));
    assert!(!zero.is_negative());
}

#[test]
fn error_messages() {
    assert_eq!(AccumulatorError::ElementNotInSet.message(), "element is not in the accumulator set");
    assert_eq!(
        AccumulatorError::NotCoprime.message(),
        "element is not coprime with the accumulator set product"
    );
    assert_eq!(
        AccumulatorError::NegativeDelta.message(),
        "delta must be non-negative for a proof update"
    );
}

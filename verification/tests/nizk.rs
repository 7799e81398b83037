use private_accumulator_proof_delegation::bignum::{BigNat, BigSigned};
use private_accumulator_proof_delegation::groups::rsa_group::{RsaGroup, TrapdoorMode};
use private_accumulator_proof_delegation::nizk::NIZK;
use private_accumulator_proof_delegation::traits::Group;

fn num(v: u64) -> BigNat {
    BigNat::from_u64(v)
}

fn small_group() -> RsaGroup {
    let pp = num(12345);
    RsaGroup::new(pp.clone(), pp.clone(), Some(pp))
}

#[test]
fn test_dleq() {
    let group = small_group();
    let nizk = NIZK::setup(&group);
    let g = num(2);
    let h = num(3);
    let w = num(42);
    let u = group.exp(&g, &w);
    let v = group.exp(&h, &w);
    let proof = nizk.prove_dleq(&g, &u, &h, &v, &w);
    assert!(nizk.verify_dleq(&g, &u, &h, &v, &proof));
}

#[test]
fn test_dleq_wrong() {
    let group = small_group();
    let nizk = NIZK::setup(&group);
    let g = num(2);
    let h = num(3);
    let w = num(42);
    let u = group.exp(&g, &w);
    let v = group.exp(&h, &w);
    let proof = nizk.prove_dleq(&g, &u, &h, &v, &w);
    let invalid_proof = (proof.0, proof.1, num(0));
    assert!(!nizk.verify_dleq(&g, &u, &h, &v, &invalid_proof));
}

#[test]
fn dleq_with_wrong_statement_is_rejected() {
    let group = RsaGroup::new(num(3233), num(2), None);
    let nizk = NIZK::setup(&group);
    let g = num(2);
    let h = num(3);
    let u = group.exp(&g, &num(42));
    let v = group.exp(&h, &num(43));
    let proof = nizk.prove_dleq(&g, &u, &h, &v, &num(42));
    assert!(!nizk.verify_dleq(&g, &u, &h, &v, &proof));
}

#[test]
fn group_operations_modulo_n() {
    let group = RsaGroup::new(num(3233), num(2), Some(num(3120)));
    assert_eq!(group.mul(&num(100), &num(50)), num(5000 % 3233));
    assert_eq!(group.exp(&num(2), &num(12)), num(4096 % 3233));
    let inv = group.inv(&num(2));
    assert_eq!(group.mul(&inv, &num(2)), num(1));
    assert_eq!(group.g(), num(2));
    assert_eq!(group.id(), num(1));
    assert_eq!(RsaGroup::exp_mul(&num(6), &num(7)), num(42));
    assert_eq!(RsaGroup::exp_add(&num(6), &num(7)), num(13));
    assert_eq!(RsaGroup::exp_div_rem(&num(47), &num(10)), (num(4), num(7)));
    assert_eq!(group.element_to_bytes(&num(258)), vec![1u8, 2u8]);
}

#[test]
fn hashed_primes_are_odd_and_repeatable() {
    let group = RsaGroup::new(num(3233), num(2), None);
    let a = group.hash_to_prime(b"some data");
    let b = group.hash_to_prime(b"some data");
    let c = group.hash_to_prime(b"other data");
    assert_eq!(a, b);
    assert!(a != c);
    let bytes = a.to_bytes_be();
    assert_eq!(bytes.len(), 32);
    assert!(bytes[0] >= 128);
    assert_eq!(bytes[31] % 2, 1);
}

#[test]
fn signed_exponent_uses_the_inverse() {
    let group = RsaGroup::new(num(3233), num(2), None);
    let pos = group.signed_exp(&num(2), &BigSigned::new(false, num(5)));
    assert_eq!(pos, num(32));
    let neg = group.signed_exp(&num(2), &BigSigned::new(true, num(5)));
    assert_eq!(group.mul(&neg, &pos), num(1));
}

#[test]
fn trapdoor_mode_follows_order() {
    let mut group = RsaGroup::new(num(3233), num(2), Some(num(3120)));
    assert_eq!(group.mode(), TrapdoorMode::WithTrapdoor);
    group.set_order(None);
    assert_eq!(group.mode(), TrapdoorMode::Trapdoorless);
    let plain = RsaGroup::from_modulus(num(3233), num(2));
    assert_eq!(plain.mode(), TrapdoorMode::Trapdoorless);
    assert_eq!(plain.modulus(), &num(3233));
}

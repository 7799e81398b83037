use private_accumulator_proof_delegation::bignum::{BigNat, BigSigned};
use private_accumulator_proof_delegation::groups::class_group::class_group_params_valid;

fn signed(v: i64) -> BigSigned {
    BigSigned::new(v < 0, BigNat::from_u64(v.unsigned_abs()))
}

#[test]
fn class_group_params_checks() {
    assert!(class_group_params_valid(&signed(-23), &signed(3)));
    assert!(class_group_params_valid(&signed(-7), &signed(11)));
    assert!(!class_group_params_valid(&signed(23), &signed(3)));
    assert!(!class_group_params_valid(&signed(-21), &signed(3)));
    assert!(!class_group_params_valid(&signed(-23), &signed(4)));
    assert!(!class_group_params_valid(&signed(-23), &signed(1)));
    assert!(!class_group_params_valid(&signed(-23), &signed(-3)));
}

use num_bigint::BigUint;
use private_accumulator_proof_delegation::bignum::{BigNat, BigSigned};
use private_accumulator_proof_delegation::error::AccumulatorError;
use private_accumulator_proof_delegation::groups::rsa_group::RsaGroup;
use private_accumulator_proof_delegation::rsa_accumulator::RsaAccumulator;

const P: u64 = 9223372036854800003;
const Q: u64 = 9223372036854803519;

fn num(v: u64) -> BigNat {
    BigNat::from_u64(v)
}

fn to_big(x: &BigNat) -> BigUint {
    BigUint::new(x.to_digits())
}

fn from_big(x: &BigUint) -> BigNat {
    BigNat::from_digits(x.to_u32_digits())
}

fn trapdoored() -> RsaAccumulator<RsaGroup> {
    let order = BigUint::from(P - 1) * BigUint::from(Q - 1);
    RsaAccumulator::<RsaGroup>::setup_from_params(num(P), num(Q), num(4), Some(from_big(&order)))
}

fn trapdoorless() -> RsaAccumulator<RsaGroup> {
    RsaAccumulator::<RsaGroup>::setup_from_params(num(P), num(Q), num(4), None)
}

fn product_unreduced(acc: &RsaAccumulator<RsaGroup>) -> BigSigned {
    BigSigned::from_nat(acc.calculate_product_unreduced())
}

fn scenario_add_del_no_change(mut acc: RsaAccumulator<RsaGroup>) {
    let initial_acc = acc.acc.clone();
    let element = BigNat::from_bytes_be(b"test_element");
    let ep = acc.add_raw(&element);
    acc.del_raw(&ep);
    assert_eq!(
        acc.acc, initial_acc,
        "Accumulator value should be unchanged after add and remove of the same element"
    );
}

fn scenario_gen_mem_proof(mut acc: RsaAccumulator<RsaGroup>) {
    let ep = acc.add_raw(&num(7));
    for i in 2..5u64 {
        acc.add_raw(&num(i));
    }
    let proof = acc.mem_proof_create_raw(&ep).unwrap();
    assert!(acc.mem_ver_raw(&proof, &ep));
}

fn scenario_non_mem_proof(mut acc: RsaAccumulator<RsaGroup>) {
    acc.add_raw(&num(2));
    acc.add_raw(&num(3));
    acc.add_raw(&num(7));
    let non_member = num(5);
    let product = product_unreduced(&acc);
    let proof = acc.non_mem_proof_create_raw(&non_member, &product).unwrap();
    assert!(acc.non_mem_ver_raw(&proof, &non_member), "Non-membership proof should verify");
}

fn scenario_blind_unblind_mem(mut acc: RsaAccumulator<RsaGroup>) {
    let ep = acc.add_raw(&num(7));
    for i in 2..5u64 {
        acc.add_raw(&num(i));
    }
    let proof = acc.mem_proof_create_raw(&ep).unwrap();
    let blinded_proof = acc.blind_mem_proof_raw(&proof);
    assert!(blinded_proof.0 != proof, "Proof is not blinded successfully");
    let unblinded_proof = acc.unblind_mem_proof_raw(&blinded_proof.0, &blinded_proof.1);
    assert!(unblinded_proof == proof, "Proof is not unblinded successfully");
}

fn update_elements() -> Vec<BigNat> {
    vec![num(65537), num(100003), num(104729), num(1299709), num(15485863)]
}

fn reduced_delta(acc: &RsaAccumulator<RsaGroup>, eps: &[BigNat]) -> BigSigned {
    let product = match acc.group.order() {
        Some(o) => {
            let o = to_big(o);
            eps.iter().fold(BigUint::from(1u32), |d, e| (d * to_big(e)) % &o)
        },
        None => eps.iter().fold(BigUint::from(1u32), |d, e| d * to_big(e)),
    };
    BigSigned::from_nat(from_big(&product))
}

fn scenario_blind_mem_proof_upd_ver(mut acc: RsaAccumulator<RsaGroup>) {
    let ep = acc.add_raw(&num(200003));
    let acct = acc.acc.clone();
    let proof = acc.mem_proof_create_raw(&ep).unwrap();
    let blinded_proof = acc.blind_mem_proof_raw(&proof);
    let elements_in: Vec<BigNat> = update_elements().iter().map(|e| acc.add_raw(e)).collect();
    let delta_int = reduced_delta(&acc, &elements_in);
    let upd_blind_proof = acc.blind_mem_proof_upd_raw(&acct, &blinded_proof.0, &delta_int).unwrap();
    assert!(acc.ver_blind_mem_proof_upd_raw(
        &acct,
        &blinded_proof.0,
        &upd_blind_proof.0,
        &upd_blind_proof.1
    ));
}

fn scenario_blind_unblind_non_mem(mut acc: RsaAccumulator<RsaGroup>) {
    for i in 2..5u64 {
        acc.add_raw(&num(i));
    }
    let non_member = num(7);
    let blinded_proof = acc.blind_non_mem_proof_raw(&non_member);
    for i in 10..12u64 {
        acc.add_raw(&num(i));
    }
    let product = product_unreduced(&acc);
    let upd = acc.blind_non_mem_proof_upd_raw(&blinded_proof.0, &product).unwrap();
    let unblinded_proof = acc.unblind_non_mem_proof_raw(&blinded_proof.1, &upd);
    assert!(
        acc.non_mem_ver_raw(&unblinded_proof, &non_member),
        "Non-membership proof should verify after unblinding"
    );
}

fn scenario_blind_non_mem_proof_upd_ver(mut acc: RsaAccumulator<RsaGroup>) {
    let non_member = num(200003);
    let blinded_proof = acc.blind_non_mem_proof_raw(&non_member);
    for elem in &update_elements() {
        acc.add_raw(elem);
    }
    let acctprime = acc.acc.clone();
    let product = product_unreduced(&acc);
    let upd_blind_proof = acc.blind_non_mem_proof_upd_raw(&blinded_proof.0, &product).unwrap();
    assert!(
        acc.ver_blind_non_mem_proof_upd_raw(&acctprime, &blinded_proof.0, &upd_blind_proof),
        "Couldnt verify"
    );
}

#[test]
fn rsa_test_acc_add_del_no_change() {
    scenario_add_del_no_change(trapdoored());
}

#[test]
fn rsa_test_gen_mem_proof() {
    scenario_gen_mem_proof(trapdoored());
}

#[test]
fn rsa_test_non_mem_proof() {
    scenario_non_mem_proof(trapdoored());
}

#[test]
fn rsa_test_blind_unblind_mem() {
    scenario_blind_unblind_mem(trapdoored());
}

#[test]
fn rsa_test_blind_mem_proof_upd_ver() {
    scenario_blind_mem_proof_upd_ver(trapdoored());
}

#[test]
fn rsa_test_blind_unblind_non_mem() {
    scenario_blind_unblind_non_mem(trapdoored());
}

#[test]
fn rsa_test_blind_non_mem_proof_upd_ver() {
    scenario_blind_non_mem_proof_upd_ver(trapdoored());
}

#[test]
fn rsa_trapdoorless_test_acc_add_del_no_change() {
    scenario_add_del_no_change(trapdoorless());
}

#[test]
fn rsa_trapdoorless_test_gen_mem_proof() {
    scenario_gen_mem_proof(trapdoorless());
}

#[test]
fn rsa_trapdoorless_test_non_mem_proof() {
    scenario_non_mem_proof(trapdoorless());
}

#[test]
fn rsa_trapdoorless_test_blind_unblind_mem() {
    scenario_blind_unblind_mem(trapdoorless());
}

#[test]
fn rsa_trapdoorless_test_blind_mem_proof_upd_ver() {
    scenario_blind_mem_proof_upd_ver(trapdoorless());
}

#[test]
fn rsa_trapdoorless_test_blind_unblind_non_mem() {
    scenario_blind_unblind_non_mem(trapdoorless());
}

#[test]
fn rsa_trapdoorless_test_blind_non_mem_proof_upd_ver() {
    scenario_blind_non_mem_proof_upd_ver(trapdoorless());
}

#[test]
fn rsa_accumulator_test_acc_add_del_no_change() {
    scenario_add_del_no_change(trapdoored());
}

#[test]
fn rsa_accumulator_test_gen_mem_proof() {
    scenario_gen_mem_proof(trapdoored());
}

#[test]
fn rsa_accumulator_test_non_mem_proof() {
    scenario_non_mem_proof(trapdoored());
}

#[test]
fn rsa_accumulator_test_blind_unblind_mem() {
    scenario_blind_unblind_mem(trapdoored());
}

#[test]
fn rsa_accumulator_test_blind_mem_proof_upd_ver() {
    scenario_blind_mem_proof_upd_ver(trapdoored());
}

#[test]
fn rsa_accumulator_test_blind_unblind_non_mem() {
    scenario_blind_unblind_non_mem(trapdoored());
}

#[test]
fn rsa_accumulator_test_blind_non_mem_proof_upd_ver() {
    scenario_blind_non_mem_proof_upd_ver(trapdoored());
}

#[test]
fn mem_proof_of_non_member_is_refused() {
    let mut acc = trapdoored();
    acc.add_raw(&num(2));
    let absent = num(1234567);
    assert_eq!(acc.mem_proof_create_raw(&absent), Err(AccumulatorError::ElementNotInSet));
}

#[test]
fn non_mem_proof_of_member_is_refused() {
    let mut acc = trapdoorless();
    let ep = acc.add_raw(&num(9));
    let product = product_unreduced(&acc);
    assert_eq!(acc.non_mem_proof_create_raw(&ep, &product), Err(AccumulatorError::NotCoprime));
}

#[test]
fn negative_delta_is_refused() {
    let mut acc = trapdoored();
    let ep = acc.add_raw(&num(3));
    let acct = acc.acc.clone();
    let proof = acc.mem_proof_create_raw(&ep).unwrap();
    let blinded = acc.blind_mem_proof_raw(&proof);
    let delta = BigSigned::new(true, num(5));
    let r = acc.blind_mem_proof_upd_raw(&acct, &blinded.0, &delta);
    assert_eq!(r.err(), Some(AccumulatorError::NegativeDelta));
}

#[test]
fn add_raises_value_to_the_prime() {
    let mut acc = trapdoorless();
    let before = to_big(&acc.acc);
    let ep = acc.add_raw(&num(11));
    let n = BigUint::from(P) * BigUint::from(Q);
    assert_eq!(to_big(&acc.acc), before.modpow(&to_big(&ep), &n));
    assert_eq!(acc.set.len(), 1);
    let again = acc.add_raw(&num(11));
    assert_eq!(again, ep);
    assert_eq!(acc.set.len(), 1);
}

#[test]
fn value_tracks_product_of_set() {
    let mut acc = trapdoored();
    for i in 1..6u64 {
        acc.add_raw(&num(i));
    }
    let n = BigUint::from(P) * BigUint::from(Q);
    let expected = BigUint::from(4u32).modpow(&to_big(&acc.calculate_product_unreduced()), &n);
    assert_eq!(to_big(&acc.acc), expected);
    let order = BigUint::from(P - 1) * BigUint::from(Q - 1);
    assert_eq!(
        to_big(&acc.calculate_product()),
        to_big(&acc.calculate_product_unreduced()) % order
    );
}

#[test]
fn delete_of_absent_element_changes_nothing() {
    let mut acc = trapdoored();
    acc.add_raw(&num(5));
    let before = acc.acc.clone();
    acc.del_raw(&num(77));
    assert_eq!(acc.acc, before);
    assert_eq!(acc.set.len(), 1);
}

#[test]
fn trapdoorless_delete_recomputes_from_set() {
    let mut acc = trapdoorless();
    let a = acc.add_raw(&num(5));
    let _b = acc.add_raw(&num(6));
    let with_both = acc.acc.clone();
    acc.del_raw(&a);
    assert!(acc.acc != with_both);
    let n = BigUint::from(P) * BigUint::from(Q);
    let expected = BigUint::from(4u32).modpow(&to_big(&acc.set[0]), &n);
    assert_eq!(to_big(&acc.acc), expected);
}

#[test]
fn blinded_non_member_of_member_is_trivial() {
    let mut acc = trapdoored();
    let ep = acc.add_raw(&num(8));
    let blinded = acc.blind_non_mem_proof_raw(&ep);
    assert_eq!(blinded.0, num(0));
    assert_eq!(blinded.1, num(1));
}

#[test]
fn blinded_non_member_multiplies_by_blinder() {
    let acc = trapdoored();
    let blinded = acc.blind_non_mem_proof_raw(&num(7));
    assert_eq!(to_big(&blinded.0), to_big(&blinded.1) * BigUint::from(7u32));
}

#[test]
fn try_non_mem_proof_is_defined_with_trapdoor() {
    let mut acc = trapdoored();
    acc.add_raw(&num(2));
    let product = product_unreduced(&acc);
    let r = acc.try_non_mem_proof_create_raw(&num(5), &product);
    let proof = r.expect("defined").expect("coprime");
    assert!(acc.non_mem_ver_raw(&proof, &num(5)));
}

#[test]
fn tampered_membership_witness_is_rejected() {
    let mut acc = trapdoorless();
    let ep = acc.add_raw(&num(7));
    let proof = acc.mem_proof_create_raw(&ep).unwrap();
    let wrong = from_big(&(to_big(&proof) + BigUint::from(1u32)));
    assert!(!acc.mem_ver_raw(&wrong, &ep));
}

#[test]
fn setting_and_clearing_the_order() {
    let mut acc = trapdoorless();
    assert!(!acc.group.has_trapdoor());
    let order = BigUint::from(P - 1) * BigUint::from(Q - 1);
    acc.set_group_order(Some(from_big(&order)));
    assert!(acc.group.has_trapdoor());
    assert_eq!(acc.group.order().map(to_big), Some(order));
    acc.clear_group_order();
    assert!(acc.group.order().is_none());
}

fn scenario_delegated_mem_unblind(mut acc: RsaAccumulator<RsaGroup>) {
    let ep = acc.add_raw(&num(200003));
    let acct = acc.acc.clone();
    let proof = acc.mem_proof_create_raw(&ep).unwrap();
    let (blinded, st) = acc.blind_mem_proof_raw(&proof);
    let elements_in: Vec<BigNat> = update_elements().iter().map(|e| acc.add_raw(e)).collect();
    let delta_int = reduced_delta(&acc, &elements_in);
    let upd = acc.blind_mem_proof_upd_raw(&acct, &blinded, &delta_int).unwrap();
    assert!(acc.ver_blind_mem_proof_upd_raw(&acct, &blinded, &upd.0, &upd.1));
    let unblinded = acc.unblind_updated_mem_proof_raw(&upd.0, &st);
    assert!(acc.mem_ver_raw(&unblinded, &ep), "the unblinded updated witness verifies");
    let d = delta_int.to_nat().unwrap();
    let n = to_big(acc.group.modulus());
    assert_eq!(to_big(&unblinded), to_big(&proof).modpow(&to_big(&d), &n));
}

#[test]
fn rsa_test_delegated_mem_unblind() {
    scenario_delegated_mem_unblind(trapdoored());
}

#[test]
fn rsa_trapdoorless_test_delegated_mem_unblind() {
    scenario_delegated_mem_unblind(trapdoorless());
}

#[test]
fn delegated_mem_unblind_small_modulus() {
    let mut acc =
        RsaAccumulator::<RsaGroup>::setup_from_params(num(61), num(53), num(2), Some(num(3120)));
    let ep = acc.add_raw(&num(7));
    let acc_t = acc.acc.clone();
    let proof = acc.mem_proof_create_raw(&ep).unwrap();
    let (blinded, st) = acc.blind_mem_proof_raw(&proof);
    let added = acc.add_raw(&num(11));
    let d = to_big(&added) % BigUint::from(3120u32);
    let upd = acc
        .blind_mem_proof_upd_raw(&acc_t, &blinded, &BigSigned::from_nat(from_big(&d)))
        .unwrap();
    let unblinded = acc.unblind_updated_mem_proof_raw(&upd.0, &st);
    assert!(acc.mem_ver_raw(&unblinded, &ep));
}

#[test]
fn witness_from_bezout_reduces_and_rejects() {
    let free = trapdoorless();
    let w = free.witness_from_bezout(&num(1), &BigSigned::from_nat(num(3)), &BigSigned::from_nat(num(2))).unwrap();
    assert_eq!(to_big(&w.0.magnitude()), BigUint::from(3u32));
    assert!(!w.0.is_negative());
    assert_eq!(to_big(&w.1), BigUint::from(16u32));
    assert_eq!(
        free.witness_from_bezout(&num(2), &BigSigned::from_nat(num(3)), &BigSigned::from_nat(num(2))).err(),
        Some(AccumulatorError::NotCoprime)
    );
    let trap = trapdoored();
    let order = BigUint::from(P - 1) * BigUint::from(Q - 1);
    let w = trap.witness_from_bezout(&num(1), &BigSigned::new(true, num(1)), &BigSigned::from_nat(num(2))).unwrap();
    assert_eq!(to_big(&w.0.magnitude()), &order - BigUint::from(1u32));
    assert_eq!(to_big(&w.1), BigUint::from(16u32));
}

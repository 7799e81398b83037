use num_bigint::BigUint;
use private_accumulator_proof_delegation::bignum::{BigNat, BigSigned};
use private_accumulator_proof_delegation::groups::rsa_group::RsaGroup;
use private_accumulator_proof_delegation::rsa_accumulator::RsaAccumulator;

fn num(v: u64) -> BigNat {
    BigNat::from_u64(v)
}

fn big(x: &BigNat) -> BigUint {
    BigUint::new(x.to_digits())
}

fn small_acc(order: Option<u64>) -> RsaAccumulator<RsaGroup> {
    RsaAccumulator::<RsaGroup>::setup_from_params(num(61), num(53), num(2), order.map(num))
}

#[test]
fn setup_from_params_starts_at_generator() {
    let acc = small_acc(Some(3120));
    assert_eq!(acc.value_raw(), &num(2));
}

#[test]
fn set_group_order_enables_trapdoor_witnesses() {
    let mut acc = small_acc(None);
    acc.set_group_order(Some(num(3120)));
    let ep = acc.add_raw(&num(7));
    assert!(acc.mem_ver_raw(&acc.mem_proof_create_raw(&ep).unwrap(), &ep));
}

#[test]
fn clear_group_order_keeps_witnesses_working() {
    let mut acc = small_acc(Some(3120));
    acc.clear_group_order();
    let ep = acc.add_raw(&num(7));
    assert!(acc.mem_ver_raw(&acc.mem_proof_create_raw(&ep).unwrap(), &ep));
}

#[test]
fn calculate_product_is_reduced_modulo_order() {
    let mut acc = small_acc(Some(3120));
    acc.add_raw(&num(2));
    acc.add_raw(&num(3));
    assert!(big(&acc.calculate_product()) < BigUint::from(3120u32));
}

#[test]
fn del_raw_undoes_add_raw() {
    let mut acc = small_acc(Some(3120));
    let initial = acc.value_raw().clone();
    let ep = acc.add_raw(&num(7));
    acc.del_raw(&ep);
    assert_eq!(acc.value_raw(), &initial);
}

#[test]
fn mem_proof_create_raw_example() {
    let mut acc = small_acc(Some(3120));
    let ep = acc.add_raw(&num(7));
    acc.add_raw(&num(11));
    let proof = acc.mem_proof_create_raw(&ep).unwrap();
    assert!(acc.mem_ver_raw(&proof, &ep));
}

#[test]
fn non_mem_proof_create_raw_example() {
    let mut acc = small_acc(Some(3120));
    acc.add_raw(&num(2));
    acc.add_raw(&num(3));
    let non_member = num(5);
    let product = BigSigned::from_nat(acc.calculate_product_unreduced());
    let proof = acc.non_mem_proof_create_raw(&non_member, &product).unwrap();
    assert!(acc.non_mem_ver_raw(&proof, &non_member));
}

#[test]
fn ver_blind_mem_proof_upd_raw_example() {
    let mut acc = small_acc(Some(3120));
    let ep = acc.add_raw(&num(7));
    let acc_t = acc.value_raw().clone();
    let proof = acc.mem_proof_create_raw(&ep).unwrap();
    let (blinded_proof, _st) = acc.blind_mem_proof_raw(&proof);
    let eps: Vec<BigNat> = vec![num(11), num(13)].iter().map(|e| acc.add_raw(e)).collect();
    let o = big(acc.group.order().unwrap());
    let delta = eps.iter().fold(BigUint::from(1u32), |d, e| (d * big(e)) % &o);
    let delta_int = BigSigned::from_nat(BigNat::from_digits(delta.to_u32_digits()));
    let upd = acc.blind_mem_proof_upd_raw(&acc_t, &blinded_proof, &delta_int).unwrap();
    assert!(acc.ver_blind_mem_proof_upd_raw(&acc_t, &blinded_proof, &upd.0, &upd.1));
}

#[test]
fn blind_non_mem_proof_raw_example() {
    let acc = small_acc(Some(3120));
    let non_member = num(17);
    let (blinded, q) = acc.blind_non_mem_proof_raw(&non_member);
    assert_eq!(big(&blinded), big(&non_member) * big(&q));
}

#[test]
fn blind_non_mem_proof_upd_raw_example() {
    let acc = small_acc(Some(3120));
    let blinded_non_member = num(17);
    let one = BigSigned::from_nat(num(1));
    let updated = acc.blind_non_mem_proof_upd_raw(&blinded_non_member, &one).unwrap();
    assert!(acc.ver_blind_non_mem_proof_upd_raw(acc.value_raw(), &blinded_non_member, &updated));
}

#[test]
fn ver_blind_non_mem_proof_upd_raw_example() {
    let acc = small_acc(Some(3120));
    let non_member = num(17);
    let blinded = acc.blind_non_mem_proof_raw(&non_member);
    let upd = acc.blind_non_mem_proof_upd_raw(&blinded.0, &BigSigned::from_nat(num(1))).unwrap();
    assert!(acc.ver_blind_non_mem_proof_upd_raw(acc.value_raw(), &blinded.0, &upd));
}

#[test]
fn unblind_non_mem_proof_raw_example() {
    let mut acc = small_acc(Some(3120));
    let non_member = num(17);
    let (blinded, q) = acc.blind_non_mem_proof_raw(&non_member);
    acc.add_raw(&num(5));
    let product = BigSigned::from_nat(acc.calculate_product_unreduced());
    let upd = acc.blind_non_mem_proof_upd_raw(&blinded, &product).unwrap();
    let proof = acc.unblind_non_mem_proof_raw(&q, &upd);
    assert!(acc.non_mem_ver_raw(&proof, &non_member));
}

#[test]
fn calculate_product_unreduced_multiplies_representatives() {
    let mut acc = small_acc(Some(3120));
    let ep1 = acc.add_raw(&num(2));
    let ep2 = acc.add_raw(&num(3));
    assert_eq!(big(&acc.calculate_product_unreduced()), big(&ep1) * big(&ep2));
}

#[test]
fn readme_example() {
    let mut acc = small_acc(Some(3120));
    let ep = acc.add_raw(&num(7));
    for i in 2u64..5 {
        acc.add_raw(&num(i));
    }
    let proof = acc.mem_proof_create_raw(&ep).expect("element was just added; proof must exist");
    assert!(acc.mem_ver_raw(&proof, &ep));
    let non_element = num(383);
    let product = BigSigned::from_nat(acc.calculate_product_unreduced());
    let non_proof = acc
        .non_mem_proof_create_raw(&non_element, &product)
        .expect("non-element is coprime with the set product");
    assert!(acc.non_mem_ver_raw(&non_proof, &non_element));
}

use private_accumulator_proof_delegation::bilinear_accumulator::{
    BilinearAccumulator, BlindedMembershipBundle, MembershipProof,
};
use private_accumulator_proof_delegation::error::AccumulatorError;
use private_accumulator_proof_delegation::traits::{Accumulator, Group, PrivatelyDelegatableAccumulator};
use private_accumulator_proof_delegation::groups::bilinear_group::BilinearG1;
use private_accumulator_proof_delegation::groups::bls12_381::{G1, Scalar};
use private_accumulator_proof_delegation::nizk::BilinearNIZK;
use private_accumulator_proof_delegation::poly::Poly;

fn fr(v: u64) -> Scalar {
    Scalar::from_u64(v)
}

fn neg(v: u64) -> Scalar {
    Scalar::from_u64(v).neg()
}

fn elements(lo: u64, hi: u64) -> Vec<Scalar> {
    (lo..=hi).map(fr).collect()
}

fn acc_with(max: usize, elems: &[Scalar]) -> BilinearAccumulator {
    let mut acc = BilinearAccumulator::setup(max);
    for e in elems {
        acc.add(e);
    }
    acc
}

#[test]
fn mem_ver_passes_for_member() {
    let elems = elements(1, 4);
    let acc = acc_with(16, &elems);
    let proof = acc.mem_proof_create(&elems[2]).expect("Membership proof creation failed");
    assert!(acc.mem_ver(&proof, &elems[2]));
}

#[test]
fn non_mem_ver_passes_for_non_member() {
    let acc = acc_with(16, &elements(1, 4));
    let proof = acc.non_mem_proof_create(&fr(666)).expect("Non-membership proof creation failed");
    assert!(acc.non_mem_ver(&proof, &fr(666)));
}

#[test]
fn mem_ver_not_pass_for_non_member() {
    let acc = acc_with(16, &elements(1, 4));
    assert!(acc.mem_proof_create(&fr(666)).is_none());
}

#[test]
fn non_mem_ver_not_pass_for_member() {
    let elems = elements(1, 4);
    let acc = acc_with(16, &elems);
    assert!(acc.non_mem_proof_create(&elems[2]).is_none());
}

#[test]
fn test_syn_div() {
    let poly = Poly::from_coefficients_vec(vec![neg(42), fr(0), neg(12), fr(1)]);
    let d = fr(3);
    let (q, r) = BilinearAccumulator::syn_div(&poly, &d);
    let res = Poly::from_coefficients_vec(vec![neg(27), neg(9), fr(1)]);
    assert!(q.equals(&res));
    assert!(r.equals(&neg(123)));
}

#[test]
fn test_blind_upd_mem_proof_after_additions() {
    let initial = elements(1, 3);
    let mut acc = acc_with(16, &initial);
    let element = initial[1].clone();
    let _proof = acc.mem_proof_create(&element).expect("Membership proof creation failed");
    let acc_t = acc.value();
    let s = Poly::linear_factors_product(&initial);
    let (q, _) = BilinearAccumulator::syn_div(&s, &element);
    let added = elements(4, 5);
    let (crs_prime, r) = acc.blind_mem_proof(&q, added.len()).expect("Blind membership proof creation failed");
    let pi_blinded = crs_prime.first().cloned().expect("blinded CRS must include base term");
    for e in &added {
        acc.add(e);
    }
    let q_star = Poly::linear_factors_product(&added);
    let powers_acc_t = acc.shift_com(&s, q_star.len());
    let (pi_prime, poe_eq_proof, delta) =
        acc.blind_mem_proof_upd(&pi_blinded, &acc_t, crs_prime, q_star, powers_acc_t);
    assert!(acc.ver_blind_mem_proof_upd(&pi_blinded, &pi_prime, &acc_t, &delta, &poe_eq_proof));
    let pi = BilinearAccumulator::unblind_mem_proof(&pi_prime, &r);
    let updated_proof = MembershipProof { pi };
    assert!(acc.mem_ver(&updated_proof, &element));
}

#[test]
fn test_blind_upd_non_mem_proof_after_additions() {
    let mut acc = acc_with(16, &elements(1, 3));
    let non_member = fr(666);
    let proof = acc.non_mem_proof_create(&non_member).expect("Non-membership proof creation failed");
    assert!(acc.non_mem_ver(&proof, &non_member), "initial should verify");
    let (blinded_non_mem_proof, r) = acc.blind_non_mem_proof(&proof, &non_member);
    let acc_t = acc.value();
    let sn_plus_one = fr(67);
    acc.add(&sn_plus_one);
    let (pi_prime_t_prime, g2_sn_plus_one) =
        acc.blind_non_mem_proof_upd(&blinded_non_mem_proof, &acc_t, &sn_plus_one);
    assert!(acc.ver_blind_non_mem_proof_upd(
        &acc_t,
        &blinded_non_mem_proof,
        &pi_prime_t_prime,
        &g2_sn_plus_one
    ));
    let updated_proof = acc.unblind_non_mem_proof(
        &pi_prime_t_prime,
        &(r, blinded_non_mem_proof.1.clone()),
        &non_member,
    );
    assert!(acc.non_mem_ver(&updated_proof, &non_member), "updated should verify");
}

struct PoeSetup {
    powers_g1: Vec<G1>,
    powers_g: Vec<G1>,
    powers_h: Vec<G1>,
    g2: private_accumulator_proof_delegation::groups::bls12_381::G2,
    g2_s: private_accumulator_proof_delegation::groups::bls12_381::G2,
}

fn build_powers(degree: usize) -> PoeSetup {
    let group = BilinearG1::new(degree + 1);
    let powers_g1: Vec<G1> = group.crs_g1.iter().take(degree + 1).cloned().collect();
    let powers_g = powers_g1.iter().map(|p| p.mul(&fr(7))).collect();
    let powers_h = powers_g1.iter().map(|p| p.mul(&fr(13))).collect();
    PoeSetup { powers_g1, powers_g, powers_h, g2: group.crs_g2[0].clone(), g2_s: group.crs_g2[1].clone() }
}

fn poe_poly(middle: u64) -> Poly {
    Poly::from_coefficients_vec(vec![fr(5), fr(middle), fr(11)])
}

#[test]
fn poe_eq_and_sigma_verifies_valid_proof() {
    let st = build_powers(8);
    let g = st.powers_g.first().cloned().expect("CRS must include base element");
    let h = st.powers_h.first().cloned().expect("CRS must include base element");
    let poly = poe_poly(3);
    let u = BilinearNIZK::com(&st.powers_g, &poly).expect("CRS length must cover polynomial degree");
    let v = BilinearNIZK::com(&st.powers_h, &poly).expect("CRS length must cover polynomial degree");
    let proof = BilinearNIZK::prove_poe_eq(&st.powers_g, &st.powers_h, &st.powers_g1, &g, &u, &h, &v, &poly)
        .expect("CRS vectors must be consistent and long enough");
    assert!(BilinearNIZK::verify_poe_eq(&st.powers_g1[0], &g, &u, &h, &v, &st.g2, &st.g2_s, &poly, &proof));
}

#[test]
fn poe_eq_and_sigma_rejects_tampered_component() {
    let st = build_powers(8);
    let g = st.powers_g.first().cloned().expect("CRS must include base element");
    let h = st.powers_h.first().cloned().expect("CRS must include base element");
    let poly = poe_poly(3);
    let u = BilinearNIZK::com(&st.powers_g, &poly).expect("CRS length must cover polynomial degree");
    let v = BilinearNIZK::com(&st.powers_h, &poly).expect("CRS length must cover polynomial degree");
    let proof = BilinearNIZK::prove_poe_eq(&st.powers_g, &st.powers_h, &st.powers_g1, &g, &u, &h, &v, &poly)
        .expect("CRS vectors must be consistent and long enough");
    let bad_q_v = proof.1.add(&g);
    let bad_proof = (proof.0.clone(), bad_q_v, proof.2.clone(), proof.3.clone(), proof.4.clone());
    assert!(!BilinearNIZK::verify_poe_eq(&st.powers_g1[0], &g, &u, &h, &v, &st.g2, &st.g2_s, &poly, &bad_proof));
}

#[test]
fn poe_eq_and_sigma_rejects_wrong_statement() {
    let st = build_powers(8);
    let g = st.powers_g.first().cloned().expect("CRS must include base element");
    let h = st.powers_h.first().cloned().expect("CRS must include base element");
    let poly = poe_poly(3);
    let wrong_poly = poe_poly(9);
    let u = BilinearNIZK::com(&st.powers_g, &poly).expect("CRS length must cover polynomial degree");
    let v = BilinearNIZK::com(&st.powers_h, &poly).expect("CRS length must cover polynomial degree");
    let proof = BilinearNIZK::prove_poe_eq(&st.powers_g, &st.powers_h, &st.powers_g1, &g, &u, &h, &v, &poly)
        .expect("CRS vectors must be consistent and long enough");
    assert!(!BilinearNIZK::verify_poe_eq(&st.powers_g1[0], &g, &u, &h, &v, &st.g2, &st.g2_s, &wrong_poly, &proof));
}

fn smoke_bilinear_mem_ver(data: &[u8]) {
    let a = acc_with(16, &elements(1, 4));
    let pi = match G1::from_compressed(data) {
        Some(p) => p,
        None => return,
    };
    let proof = MembershipProof { pi };
    let _ = a.mem_ver(&proof, &fr(999));
}

#[test]
fn smoke_bilinear_zeros() {
    smoke_bilinear_mem_ver(&[0u8; 48]);
}

#[test]
fn smoke_bilinear_short_input() {
    smoke_bilinear_mem_ver(&[0u8; 4]);
}

#[test]
fn smoke_bilinear_valid_proof() {
    let mut a = BilinearAccumulator::setup(16);
    let e = fr(42);
    a.add(&e);
    let proof = a.mem_proof_create(&e).expect("in set");
    assert!(a.mem_ver(&proof, &e));
    assert!(!a.mem_ver(&proof, &fr(99)));
}

#[test]
fn identity_point_decodes_and_adds_neutrally() {
    let id = G1::identity();
    let mut expected = vec![0xc0u8];
    expected.extend(std::iter::repeat(0u8).take(47));
    assert_eq!(id.to_bytes(), expected);
    let group = BilinearG1::new(2);
    let g = group.crs_g1[0].clone();
    assert!(g.add(&id).equals(&g));
    assert!(g.add(&g.neg()).equals(&id));
    assert!(G1::from_compressed(&g.to_bytes()).expect("valid").equals(&g));
}

#[test]
fn add_then_del_restores_value() {
    let mut acc = acc_with(8, &elements(1, 2));
    acc.add(&fr(3));
    let before = acc.value();
    assert!(acc.add(&fr(9)));
    assert!(!acc.add(&fr(9)));
    assert!(acc.del(&fr(9)));
    assert!(acc.value().equals(&before));
    assert!(!acc.del(&fr(9)));
    assert!(acc.del(&fr(1)));
    assert!(acc.mem_proof_create(&fr(1)).is_none());
    let proof = acc.mem_proof_create(&fr(2)).expect("member");
    assert!(acc.mem_ver(&proof, &fr(2)));
}

#[test]
fn scalar_field_arithmetic() {
    let a = fr(10);
    let b = fr(3);
    assert!(a.add(&b).equals(&fr(13)));
    assert!(b.sub(&a).add(&fr(7)).is_zero());
    assert!(a.mul(&b).equals(&fr(30)));
    let inv = b.inverse().expect("nonzero");
    assert!(inv.mul(&b).is_one());
    assert!(fr(0).inverse().is_none());
    assert!(neg(1).add(&fr(1)).is_zero());
    let bytes = fr(258).to_le_bytes();
    assert_eq!(bytes.len(), 32);
    assert_eq!(&bytes[..3], &[2u8, 1, 0][..]);
    assert!(Scalar::from_le_bytes_mod_order(&bytes).equals(&fr(258)));
}

#[test]
fn remainder_is_value_at_point() {
    let p = Poly::linear_factors_product(&elements(1, 3));
    let (_, r) = BilinearAccumulator::syn_div(&p, &fr(5));
    assert!(r.equals(&fr(24)));
    let (q, r0) = BilinearAccumulator::syn_div(&p, &fr(2));
    assert!(r0.is_zero());
    assert!(q.mul_linear(&fr(2)).equals(&p));
}

#[test]
fn new_over_a_reference_string_is_empty() {
    let group = BilinearG1::new(4);
    let first = group.crs_g1[0].clone();
    let acc = BilinearAccumulator::new(group);
    assert!(acc.value().equals(&first));
    assert!(acc.mem_proof_create(&fr(1)).is_none());
}

fn linear_factor(x: &Scalar) -> Poly {
    Poly::from_coefficients_vec(vec![x.neg(), Scalar::one()])
}

fn product_poly(elements: &[Scalar]) -> Poly {
    Poly::linear_factors_product(&elements.to_vec())
}

#[test]
fn trait_mem_proof_roundtrip() {
    let group = BilinearG1::new(16);
    let mut acc = <BilinearAccumulator as Accumulator>::new(group);
    let elements: Vec<Scalar> = (1u64..=4).map(fr).collect();
    for e in &elements {
        <BilinearAccumulator as Accumulator>::add(&mut acc, e);
    }
    let proof = <BilinearAccumulator as Accumulator>::mem_proof_create(&acc, &elements[2])
        .expect("trait mem_proof_create");
    assert!(<BilinearAccumulator as Accumulator>::mem_ver(&acc, &proof, &elements[2]));
}

#[test]
fn trait_non_mem_proof_roundtrip() {
    let group = BilinearG1::new(16);
    let mut acc = <BilinearAccumulator as Accumulator>::new(group);
    for e in (1u64..=4).map(fr) {
        <BilinearAccumulator as Accumulator>::add(&mut acc, &e);
    }
    let non_member = fr(666);
    let proof = <BilinearAccumulator as Accumulator>::non_mem_proof_create(&acc, &non_member, &())
        .expect("trait non_mem_proof_create");
    assert!(<BilinearAccumulator as Accumulator>::non_mem_ver(&acc, &proof, &non_member));
}

#[test]
fn trait_blind_mem_proof_upd_roundtrip() {
    let group = BilinearG1::new(32);
    let mut acc = <BilinearAccumulator as Accumulator>::new(group);
    let initial: Vec<Scalar> = (1u64..=3).map(fr).collect();
    for e in &initial {
        <BilinearAccumulator as Accumulator>::add(&mut acc, e);
    }
    let element = initial[1].clone();
    let proof = <BilinearAccumulator as Accumulator>::mem_proof_create(&acc, &element)
        .expect("mem proof");

    let acc_t = <BilinearAccumulator as Accumulator>::value(&acc).clone();
    let (blinded, st) =
        <BilinearAccumulator as PrivatelyDelegatableAccumulator>::blind_mem_proof(&acc, &proof);

    let added: Vec<Scalar> = (4u64..=5).map(fr).collect();
    for e in &added {
        <BilinearAccumulator as Accumulator>::add(&mut acc, e);
    }
    let delta = product_poly(&added);

    let (upd, aux, _new_acc) =
        <BilinearAccumulator as PrivatelyDelegatableAccumulator>::blind_mem_proof_upd(
            &acc, &acc_t, &blinded, &delta,
        )
        .expect("upd");
    assert!(<BilinearAccumulator as PrivatelyDelegatableAccumulator>::ver_blind_mem_proof_upd(
        &acc, &acc_t, &blinded, &upd, &aux,
    ));

    let unblinded = <BilinearAccumulator as PrivatelyDelegatableAccumulator>::unblind_mem_proof(
        &acc,
        &BlindedMembershipBundle {
            pi_blinded: upd.pi_prime.clone(),
            crs_prime: blinded.crs_prime.clone(),
            poly_s: blinded.poly_s.clone(),
        },
        &st,
    );
    assert!(<BilinearAccumulator as Accumulator>::mem_ver(&acc, &unblinded, &element));
}

#[test]
fn trait_blind_non_mem_proof_upd_roundtrip() {
    let group = BilinearG1::new(16);
    let mut acc = <BilinearAccumulator as Accumulator>::new(group);
    for e in (1u64..=3).map(fr) {
        <BilinearAccumulator as Accumulator>::add(&mut acc, &e);
    }
    let non_member = fr(666);
    let blinded =
        <BilinearAccumulator as PrivatelyDelegatableAccumulator>::blind_non_mem_proof(&acc, &non_member);

    let added = fr(67);
    <BilinearAccumulator as Accumulator>::add(&mut acc, &added);
    let delta = linear_factor(&added);

    let upd = <BilinearAccumulator as PrivatelyDelegatableAccumulator>::blind_non_mem_proof_upd(
        &acc, &blinded, &delta,
    )
    .expect("non-mem upd");
    let acc_t_prime = <BilinearAccumulator as Accumulator>::value(&acc).clone();
    assert!(<BilinearAccumulator as PrivatelyDelegatableAccumulator>::ver_blind_non_mem_proof_upd(
        &acc, &acc_t_prime, &blinded, &upd,
    ));

    let unblinded = <BilinearAccumulator as PrivatelyDelegatableAccumulator>::unblind_non_mem_proof(
        &acc, &blinded.r, &upd,
    );
    assert!(<BilinearAccumulator as Accumulator>::non_mem_ver(&acc, &unblinded, &non_member));
}

#[test]
fn trait_blind_non_mem_proof_upd_rejects_non_linear_delta() {
    let group = BilinearG1::new(16);
    let mut acc = <BilinearAccumulator as Accumulator>::new(group);
    <BilinearAccumulator as Accumulator>::add(&mut acc, &fr(1));
    let blinded =
        <BilinearAccumulator as PrivatelyDelegatableAccumulator>::blind_non_mem_proof(&acc, &fr(9));
    let delta = product_poly(&[fr(2), fr(3)]);
    let upd = <BilinearAccumulator as PrivatelyDelegatableAccumulator>::blind_non_mem_proof_upd(
        &acc, &blinded, &delta,
    );
    assert_eq!(upd.err(), Some(AccumulatorError::NotCoprime));
}

#[test]
fn trait_mem_proof_create_rejects_non_member() {
    let group = BilinearG1::new(8);
    let mut acc = <BilinearAccumulator as Accumulator>::new(group);
    <BilinearAccumulator as Accumulator>::add(&mut acc, &fr(1));
    let r = <BilinearAccumulator as Accumulator>::mem_proof_create(&acc, &fr(2));
    assert_eq!(r.err(), Some(AccumulatorError::ElementNotInSet));
    let r = <BilinearAccumulator as Accumulator>::non_mem_proof_create(&acc, &fr(1), &());
    assert_eq!(r.err(), Some(AccumulatorError::NotCoprime));
}

#[test]
fn g1_from_compressed_rejects_short_and_uncompressed_input() {
    assert!(G1::from_compressed(&[0xc0u8; 47]).is_none());
    let mut bytes = G1::identity().to_bytes();
    bytes[0] = 0x40;
    assert!(G1::from_compressed(&bytes).is_none());
}

#[test]
fn g1_from_compressed_reads_the_infinity_flag() {
    let mut bytes = vec![0xc0u8];
    bytes.extend(vec![0u8; 47]);
    let p = G1::from_compressed(&bytes).expect("identity");
    assert!(p.equals(&G1::identity()));
    let mut flagged = vec![0xe1u8];
    flagged.extend(vec![7u8; 47]);
    let q = G1::from_compressed(&flagged).expect("identity");
    assert!(q.equals(&G1::identity()));
    assert_eq!(q.to_bytes().len(), 48);
}

#[test]
fn add_then_del_restores_the_accumulator() {
    let mut acc = BilinearAccumulator::setup(8);
    acc.add(&fr(5));
    let value = acc.value();
    assert!(acc.add(&fr(9)));
    assert!(acc.del(&fr(9)));
    assert!(acc.value().equals(&value));
    let mut fresh = BilinearAccumulator::setup(8);
    let start = fresh.value();
    assert!(fresh.add(&fr(3)));
    assert!(fresh.del(&fr(3)));
    assert!(fresh.value().equals(&start));
    assert!(!fresh.del(&fr(3)));
    assert!(fresh.value().equals(&start));
}

#[test]
fn pairing_group_hash_gives_a_prime_and_is_deterministic() {
    let group = BilinearG1::new(2);
    let a = group.hash_to_prime(b"data");
    let b = group.hash_to_prime(b"data");
    assert!(a.equals(&b));
    assert!(!a.equals(&group.hash_to_prime(b"other")));
    let value = num_bigint::BigUint::new(a.value().to_digits());
    assert!(glass_pumpkin::prime::check(&value));
}

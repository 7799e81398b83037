use private_accumulator_proof_delegation::bignum::{BigNat, BigSigned};
use private_accumulator_proof_delegation::groups::rsa_group::RsaGroup;
use private_accumulator_proof_delegation::input::split3;
use private_accumulator_proof_delegation::rsa_accumulator::RsaAccumulator;

fn num(v: u64) -> BigNat {
    BigNat::from_u64(v)
}

fn small_acc() -> RsaAccumulator<RsaGroup> {
    RsaAccumulator::<RsaGroup>::setup_from_params(num(61), num(53), num(2), Some(num(3120)))
}

fn smoke_mem_ver(data: &[u8]) {
    let acc = small_acc();
    let (_, b_bytes, c_bytes) = split3(data);
    let proof = if b_bytes.is_empty() { num(0) } else { BigNat::from_bytes_be(b_bytes) };
    let element = if c_bytes.is_empty() { num(1) } else { BigNat::from_bytes_be(c_bytes) };
    let _ = acc.mem_ver_raw(&proof, &element);
}

#[test]
fn smoke_mem_ver_all_zeros() {
    smoke_mem_ver(&[0u8; 12]);
}

#[test]
fn smoke_mem_ver_all_ones() {
    smoke_mem_ver(&[0xffu8; 12]);
}

#[test]
fn smoke_mem_ver_empty() {
    smoke_mem_ver(&[]);
}

#[test]
fn smoke_mem_ver_valid_proof() {
    let mut acc = small_acc();
    let ep = acc.add_raw(&num(7));
    let proof = acc.mem_proof_create_raw(&ep).unwrap();
    assert!(acc.mem_ver_raw(&proof, &ep));
    let proof_bytes = proof.to_bytes_be();
    smoke_mem_ver(&proof_bytes);
}

#[test]
fn smoke_mem_ver_wrong_proof() {
    let mut acc = small_acc();
    let ep = acc.add_raw(&num(7));
    let proof = acc.mem_proof_create_raw(&ep).unwrap();
    let mut digits = proof.to_digits();
    if digits.is_empty() {
        digits.push(0);
    }
    digits[0] += 1;
    let wrong = BigNat::from_digits(digits);
    assert!(!acc.mem_ver_raw(&wrong, &ep));
}

fn smoke_non_mem_ver(data: &[u8]) {
    if data.len() < 3 {
        return;
    }
    let acc = small_acc();
    let negative = data[0] % 2 != 0;
    let rem = &data[1..];
    let chunk = (rem.len() / 3).max(1);
    let a_bytes: &[u8] = if rem.len() >= chunk { &rem[..chunk] } else { &[] };
    let b_bytes: &[u8] = if rem.len() >= 2 * chunk { &rem[chunk..2 * chunk] } else { &[] };
    let elem_bytes: &[u8] = if rem.len() >= 2 * chunk { &rem[2 * chunk..] } else { &[] };
    let a_mag = if a_bytes.is_empty() { num(0) } else { BigNat::from_bytes_be(a_bytes) };
    let a = BigSigned::new(negative, a_mag);
    let b = if b_bytes.is_empty() { num(1) } else { BigNat::from_bytes_be(b_bytes) };
    let element = if elem_bytes.is_empty() { num(1) } else { BigNat::from_bytes_be(elem_bytes) };
    let _ = acc.non_mem_ver_raw(&(a, b), &element);
}

#[test]
fn smoke_non_mem_ver_zeros() {
    smoke_non_mem_ver(&[0u8; 15]);
}

#[test]
fn smoke_non_mem_ver_ones() {
    smoke_non_mem_ver(&[0xffu8; 15]);
}

#[test]
fn smoke_non_mem_ver_valid() {
    let mut acc = small_acc();
    acc.add_raw(&num(2));
    acc.add_raw(&num(3));
    let non_member = num(5);
    let product = BigSigned::from_nat(acc.calculate_product_unreduced());
    let proof = acc.non_mem_proof_create_raw(&non_member, &product).unwrap();
    assert!(acc.non_mem_ver_raw(&proof, &non_member));
}

const SMALL_PRIMES: &[u32] = &[
    2, 3, 5, 7, 11, 13, 17, 19, 23, 29, 31, 37, 41, 43, 47, 53, 59, 61, 67, 71,
];

fn smoke_delegation(data: &[u8]) {
    if data.len() < 2 {
        return;
    }
    let mut acc = small_acc();
    let target_idx = (data[0] as usize) % SMALL_PRIMES.len();
    let target_val = SMALL_PRIMES[target_idx];
    let ep = acc.add_raw(&BigNat::from_u32(target_val));
    let acc_t = acc.acc.clone();
    let proof = match acc.mem_proof_create_raw(&ep) {
        Ok(p) => p,
        Err(_) => return,
    };
    let (blinded_proof, _st) = acc.blind_mem_proof_raw(&proof);
    let mut eps_added: Vec<BigNat> = Vec::new();
    for &byte in &data[1..] {
        let idx = (byte as usize) % SMALL_PRIMES.len();
        let val = SMALL_PRIMES[idx];
        if val != target_val {
            let ep2 = acc.add_raw(&BigNat::from_u32(val));
            eps_added.push(ep2);
        }
    }
    if eps_added.is_empty() {
        return;
    }
    let to_big = |x: &BigNat| num_bigint::BigUint::new(x.to_digits());
    let prod = match acc.group.order() {
        Some(o) => {
            let o = to_big(o);
            eps_added.iter().fold(num_bigint::BigUint::from(1u32), |a, e| (a * to_big(e)) % &o)
        },
        None => eps_added.iter().fold(num_bigint::BigUint::from(1u32), |a, e| a * to_big(e)),
    };
    let delta_int = BigSigned::from_nat(BigNat::from_digits(prod.to_u32_digits()));
    let upd = match acc.blind_mem_proof_upd_raw(&acc_t, &blinded_proof, &delta_int) {
        Ok(u) => u,
        Err(_) => return,
    };
    let nizk_ok = acc.ver_blind_mem_proof_upd_raw(&acc_t, &blinded_proof, &upd.0, &upd.1);
    assert!(nizk_ok, "NIZK verification failed for a legitimately executed update");
}

#[test]
fn smoke_delegation_corpus_a() {
    smoke_delegation(&[0u8, 1, 2]);
}

#[test]
fn smoke_delegation_corpus_b() {
    smoke_delegation(&[3u8, 4, 5, 6]);
}

#[test]
fn smoke_delegation_corpus_c() {
    smoke_delegation(&[15u8, 0, 1, 2, 3, 4, 5, 6, 7, 8]);
}

#[test]
fn smoke_delegation_empty_additions() {
    smoke_delegation(&[5u8]);
}

#[test]
fn smoke_delegation_all_same_as_target() {
    smoke_delegation(&[0u8, 0, 0, 0]);
}

#[test]
fn split3_cuts_in_thirds() {
    let data = [1u8, 2, 3, 4, 5, 6, 7];
    let (a, b, c) = split3(&data);
    assert_eq!(a, &[1u8, 2][..]);
    assert_eq!(b, &[3u8, 4][..]);
    assert_eq!(c, &[5u8, 6, 7][..]);
    let (x, y, z) = split3(&[]);
    assert!(x.is_empty() && y.is_empty() && z.is_empty());
}

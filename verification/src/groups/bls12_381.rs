//! The scalar field and the point groups of the BLS12-381 pairing, as the
//! bilinear accumulator sees them: scalars are numbers below the field
//! modulus, points are their compressed encodings.

use vstd::prelude::*;
use crate::bignum::{BigNat, digits_value, nat_add, nat_div_rem, nat_eq, nat_lt, nat_mul, nat_sub};
use crate::groups::rsa_group::le_bytes;
use ark_bls12_381::{Bls12_381, Fr, G1Affine, G2Affine};
use ark_ec::pairing::Pairing;
use ark_ec::{AffineRepr, CurveGroup};
use ark_poly::univariate::DensePolynomial;
use ark_poly::DenseUVPolynomial;
use ark_poly_commit::kzg10::{Powers, KZG10};
use ark_serialize::{CanonicalDeserialize, CanonicalSerialize};
use num_bigint::BigUint as NumNat;
use std::borrow::Cow;

verus! {

/// The order of the BLS12-381 scalar field.
pub open spec fn scalar_modulus() -> nat {
    52435875175126190479447740508185965837690552500527637822603658699938581184513nat
}

/// The value of little-endian bytes.
pub open spec fn le_value(s: Seq<u8>) -> nat
    decreases s.len(),
{
    if s.len() == 0 {
        0
    } else {
        s[0] as nat + 256 * le_value(s.drop_first())
    }
}

/// The scalar field modulus as a number.
fn modulus() -> (r: BigNat)
    ensures
        r@ == scalar_modulus(),
{
    let digits: Vec<u32> = vec![
        0x1u32,
        0xffffffffu32,
        0xfffe5bfeu32,
        0x53bda402u32,
        0x9a1d805u32,
        0x3339d808u32,
        0x299d7d48u32,
        0x73eda753u32,
    ];
    proof {
        let s = digits@;
        reveal_with_fuel(digits_value, 9);
        assert(s.drop_first() =~= seq![
            0xffffffffu32,
            0xfffe5bfeu32,
            0x53bda402u32,
            0x9a1d805u32,
            0x3339d808u32,
            0x299d7d48u32,
            0x73eda753u32,
        ]);
        assert(s.drop_first().drop_first() =~= seq![
            0xfffe5bfeu32,
            0x53bda402u32,
            0x9a1d805u32,
            0x3339d808u32,
            0x299d7d48u32,
            0x73eda753u32,
        ]);
        assert(s.drop_first().drop_first().drop_first() =~= seq![
            0x53bda402u32,
            0x9a1d805u32,
            0x3339d808u32,
            0x299d7d48u32,
            0x73eda753u32,
        ]);
        assert(s.drop_first().drop_first().drop_first().drop_first() =~= seq![
            0x9a1d805u32,
            0x3339d808u32,
            0x299d7d48u32,
            0x73eda753u32,
        ]);
        assert(s.drop_first().drop_first().drop_first().drop_first().drop_first() =~= seq![
            0x3339d808u32,
            0x299d7d48u32,
            0x73eda753u32,
        ]);
        assert(s.drop_first().drop_first().drop_first().drop_first().drop_first().drop_first()
            =~= seq![0x299d7d48u32, 0x73eda753u32]);
        assert(s.drop_first().drop_first().drop_first().drop_first().drop_first().drop_first().drop_first()
            =~= seq![0x73eda753u32]);
        assert(s.drop_first().drop_first().drop_first().drop_first().drop_first().drop_first().drop_first().drop_first()
            =~= Seq::<u32>::empty());
    }
    BigNat::from_digits(digits)
}

/// An element of the BLS12-381 scalar field, by its value below the
/// modulus.
pub struct Scalar {
    value: BigNat,
}

impl View for Scalar {
    type V = nat;

    closed spec fn view(&self) -> nat {
        self.value@
    }
}

impl Scalar {
    /// The value is below the field modulus.
    #[verifier::type_invariant]
    pub open spec fn reduced(self) -> bool {
        self@ < scalar_modulus()
    }

    /// The scalar `x mod r`.
    pub fn reduce(x: &BigNat) -> (r: Scalar)
        ensures
            r@ == x@ % scalar_modulus(),
    {
        let m = modulus();
        let (_, rem) = nat_div_rem(x, &m);
        Scalar { value: rem }
    }

    /// The scalar zero.
    pub fn zero() -> (r: Scalar)
        ensures
            r@ == 0,
    {
        Scalar { value: BigNat::zero() }
    }

    /// The scalar one.
    pub fn one() -> (r: Scalar)
        ensures
            r@ == 1,
    {
        Scalar { value: BigNat::from_u32(1) }
    }

    /// The scalar of a `u64`.
    pub fn from_u64(v: u64) -> (r: Scalar)
        ensures
            r@ == v,
    {
        Scalar { value: BigNat::from_u64(v) }
    }

    /// The value as a number.
    pub fn value(&self) -> (r: BigNat)
        ensures
            r@ == self@,
    {
        self.value.clone()
    }

    /// The scalar is zero.
    pub fn is_zero(&self) -> (r: bool)
        ensures
            r == (self@ == 0),
    {
        self.value.is_zero()
    }

    /// The scalar is one.
    pub fn is_one(&self) -> (r: bool)
        ensures
            r == (self@ == 1),
    {
        self.value.value_eq(&BigNat::from_u32(1))
    }

    /// The two scalars are equal.
    pub fn equals(&self, other: &Scalar) -> (r: bool)
        ensures
            r == (self@ == other@),
    {
        nat_eq(&self.value, &other.value)
    }

    /// The sum modulo `r`.
    pub fn add(&self, other: &Scalar) -> (r: Scalar)
        ensures
            r@ == (self@ + other@) % scalar_modulus(),
    {
        proof {
            use_type_invariant(self);
            use_type_invariant(other);
        }
        let m = modulus();
        let s = nat_add(&self.value, &other.value);
        if nat_lt(&s, &m) {
            proof {
                vstd::arithmetic::div_mod::lemma_small_mod(s@, m@);
            }
            Scalar { value: s }
        } else {
            let d = nat_sub(&s, &m);
            proof {
                vstd::arithmetic::div_mod::lemma_mod_sub_multiples_vanish(s@ as int, m@ as int);
                vstd::arithmetic::div_mod::lemma_small_mod(d@, m@);
            }
            Scalar { value: d }
        }
    }

    /// The negation modulo `r`.
    pub fn neg(&self) -> (r: Scalar)
        ensures
            r@ == (scalar_modulus() - self@) % (scalar_modulus() as int),
    {
        proof {
            use_type_invariant(self);
            vstd::arithmetic::div_mod::lemma_mod_self_0(scalar_modulus() as int);
        }
        if self.value.is_zero() {
            Scalar { value: BigNat::zero() }
        } else {
            let m = modulus();
            let d = nat_sub(&m, &self.value);
            proof {
                vstd::arithmetic::div_mod::lemma_small_mod(d@, m@);
            }
            Scalar { value: d }
        }
    }

    /// The difference modulo `r`.
    pub fn sub(&self, other: &Scalar) -> (r: Scalar)
        ensures
            r@ == (self@ - other@) % (scalar_modulus() as int),
    {
        proof {
            use_type_invariant(self);
            use_type_invariant(other);
        }
        let n = other.neg();
        let r = self.add(&n);
        proof {
            let m = scalar_modulus() as int;
            vstd::arithmetic::div_mod::lemma_add_mod_noop_right(self@ as int, m - other@, m);
            vstd::arithmetic::div_mod::lemma_mod_add_multiples_vanish(self@ - other@, m);
        }
        r
    }

    /// The product modulo `r`.
    pub fn mul(&self, other: &Scalar) -> (r: Scalar)
        ensures
            r@ == (self@ * other@) % scalar_modulus(),
    {
        let p = nat_mul(&self.value, &other.value);
        Scalar::reduce(&p)
    }

    /// The multiplicative inverse; `None` for zero.
    pub fn inverse(&self) -> (r: Option<Scalar>)
        ensures
            r is None <==> self@ == 0,
            r matches Some(x) ==> (self@ * x@) % scalar_modulus() == 1,
    {
        field_inverse(self)
    }
}

impl Clone for Scalar {
    fn clone(&self) -> (r: Self)
        ensures
            r@ == self@,
    {
        proof {
            use_type_invariant(self);
        }
        Scalar { value: self.value.clone() }
    }
}

/// `ark_ff::Field::inverse` on the BLS12-381 scalar field: `None` for zero,
/// otherwise the element whose product with the argument is one. The
/// scalar is carried over by `From<BigUint>` and back by `Into<BigUint>`.
#[verifier::external_body]
fn field_inverse(a: &Scalar) -> (r: Option<Scalar>)
    ensures
        r is None <==> a@ == 0,
        r matches Some(x) ==> (a@ * x@) % scalar_modulus() == 1,
{
    let x = ark_bls12_381::Fr::from(NumNat::new(a.value.digits.clone()));
    match ark_ff::Field::inverse(&x) {
        Some(y) => Some(Scalar { value: BigNat { digits: NumNat::from(y).to_u32_digits() } }),
        None => None,
    }
}


impl Scalar {
    /// The 32 little-endian bytes of the value.
    pub fn to_le_bytes(&self) -> (r: Vec<u8>)
        ensures
            r@ == le_bytes(self@, 32),
    {
        let mut out: Vec<u8> = Vec::new();
        let mut cur = self.value.clone();
        let base = BigNat::from_u32(256);
        let mut i: usize = 0;
        while i < 32
            invariant
                i <= 32,
                base@ == 256,
                out@ + le_bytes(cur@, (32 - i) as nat) == le_bytes(self@, 32),
            decreases 32 - i,
        {
            let (q, rem) = nat_div_rem(&cur, &base);
            let b = rem.low_u32();
            let ghost before = out@;
            let ghost c = cur@;
            out.push(b as u8);
            proof {
                assert(le_bytes(c, (32 - i) as nat) == seq![(c % 256) as u8] + le_bytes(
                    c / 256,
                    (32 - i - 1) as nat,
                ));
                assert(out@ + le_bytes(q@, (32 - i - 1) as nat) =~= before + le_bytes(
                    c,
                    (32 - i) as nat,
                ));
            }
            cur = q;
            i = i + 1;
        }
        proof {
            assert(le_bytes(cur@, 0) =~= Seq::<u8>::empty());
            assert(out@ =~= out@ + le_bytes(cur@, 0));
        }
        out
    }

    /// The scalar of little-endian bytes, reduced modulo `r`.
    pub fn from_le_bytes_mod_order(bytes: &[u8]) -> (r: Scalar)
        ensures
            r@ == le_value(bytes@) % scalar_modulus(),
    {
        let mut acc = BigNat::zero();
        let base = BigNat::from_u32(256);
        let n = bytes.len();
        let mut i: usize = n;
        while i > 0
            invariant
                i <= n,
                n == bytes@.len(),
                base@ == 256,
                acc@ == le_value(bytes@.subrange(i as int, n as int)),
            decreases i,
        {
            i = i - 1;
            let b = BigNat::from_u32(bytes[i] as u32);
            let shifted = nat_mul(&acc, &base);
            acc = nat_add(&shifted, &b);
            proof {
                let t = bytes@.subrange(i as int, n as int);
                assert(t.drop_first() =~= bytes@.subrange(i as int + 1, n as int));
                assert(t[0] == bytes@[i as int]);
            }
        }
        proof {
            assert(bytes@.subrange(0, n as int) =~= bytes@);
        }
        Scalar::reduce(&acc)
    }

    /// A uniformly random scalar.
    pub fn random() -> (r: Scalar) {
        random_scalar()
    }
}

/// `UniformRand::rand` on the BLS12-381 scalar field with
/// `rand::thread_rng()`; the value is below the modulus.
#[verifier::external_body]
fn random_scalar() -> (r: Scalar) {
    let x: Fr = ark_ff::UniformRand::rand(&mut rand::thread_rng());
    Scalar { value: BigNat { digits: NumNat::from(x).to_u32_digits() } }
}

/// The values of a sequence of scalars.
pub open spec fn scalar_views(s: Seq<Scalar>) -> Seq<nat> {
    s.map_values(|x: Scalar| x@)
}

/// The encodings of a sequence of points.
pub open spec fn g1_views(s: Seq<G1>) -> Seq<Seq<u8>> {
    s.map_values(|p: G1| p@)
}

/// The encodings of a sequence of pairs of points.
pub open spec fn pair_views(s: Seq<(G1, G2)>) -> Seq<(Seq<u8>, Seq<u8>)> {
    s.map_values(|p: (G1, G2)| (p.0@, p.1@))
}

/// The compressed encoding of the identity of G1: the compression and
/// infinity flags, then zeros.
pub open spec fn g1_identity_bytes() -> Seq<u8> {
    seq![0xc0u8] + Seq::new(47, |i: int| 0u8)
}

/// The encoding of `a + b` in G1.
pub uninterp spec fn g1_sum(a: Seq<u8>, b: Seq<u8>) -> Seq<u8>;

/// The encoding of `-a` in G1.
pub uninterp spec fn g1_negation(a: Seq<u8>) -> Seq<u8>;

/// The encoding of `s * a` in G1.
pub uninterp spec fn g1_scaled(a: Seq<u8>, s: nat) -> Seq<u8>;

/// The encoding of `a + b` in G2.
pub uninterp spec fn g2_sum(a: Seq<u8>, b: Seq<u8>) -> Seq<u8>;

/// The encoding of `-a` in G2.
pub uninterp spec fn g2_negation(a: Seq<u8>) -> Seq<u8>;

/// The encoding of `s * a` in G2.
pub uninterp spec fn g2_scaled(a: Seq<u8>, s: nat) -> Seq<u8>;

/// The encoding of the KZG commitment to the polynomial with coefficients
/// `coeffs` under the powers `powers`.
pub uninterp spec fn kzg_commitment(powers: Seq<Seq<u8>>, coeffs: Seq<nat>) -> Seq<u8>;

/// The products of the pairings of the pairs `lhs` and of the pairs `rhs`
/// are equal.
pub uninterp spec fn pairing_products_equal(
    lhs: Seq<(Seq<u8>, Seq<u8>)>,
    rhs: Seq<(Seq<u8>, Seq<u8>)>,
) -> bool;

/// The text that `Debug` writes for the point encoded by `a`.
pub uninterp spec fn g1_debug_text(a: Seq<u8>) -> Seq<u8>;

/// The compressed encoding of the point that `bytes` decodes to, if any.
pub uninterp spec fn g1_decoding(bytes: Seq<u8>) -> Option<Seq<u8>>;

/// The encoding inside an optional point.
pub open spec fn g1_option_view(p: Option<G1>) -> Option<Seq<u8>> {
    match p {
        Some(q) => Some(q@),
        None => None,
    }
}

/// What decoding a compressed G1 point gives on `bytes`: nothing for fewer
/// than 48 bytes or without the compression flag (the top bit of the first
/// byte); the identity where the compression and infinity flags are both
/// set; otherwise `g1_decoding(bytes)`. A point is 48 bytes long.
pub open spec fn g1_decoded(bytes: Seq<u8>, r: Option<Seq<u8>>) -> bool {
    &&& r == g1_decoding(bytes)
    &&& bytes.len() < 48 ==> r is None
    &&& bytes.len() >= 48 && bytes[0] < 128 ==> r is None
    &&& bytes.len() >= 48 && bytes[0] >= 192 ==> r == Some(g1_identity_bytes())
    &&& r matches Some(e) ==> e.len() == 48
}

/// A point of G1, by its compressed encoding.
pub struct G1 {
    bytes: Vec<u8>,
}

impl View for G1 {
    type V = Seq<u8>;

    closed spec fn view(&self) -> Seq<u8> {
        self.bytes@
    }
}

impl Clone for G1 {
    fn clone(&self) -> (r: Self)
        ensures
            r@ == self@,
    {
        G1 { bytes: self.bytes.clone() }
    }
}

/// A point of G2, by its compressed encoding.
pub struct G2 {
    bytes: Vec<u8>,
}

impl View for G2 {
    type V = Seq<u8>;

    closed spec fn view(&self) -> Seq<u8> {
        self.bytes@
    }
}

impl Clone for G2 {
    fn clone(&self) -> (r: Self)
        ensures
            r@ == self@,
    {
        G2 { bytes: self.bytes.clone() }
    }
}

/// The two byte sequences are equal.
fn bytes_equal(a: &Vec<u8>, b: &Vec<u8>) -> (r: bool)
    ensures
        r == (a@ == b@),
{
    if a.len() != b.len() {
        return false;
    }
    let mut i: usize = 0;
    while i < a.len()
        invariant
            a@.len() == b@.len(),
            i <= a.len(),
            forall|j: int| 0 <= j < i ==> a@[j] == b@[j],
        decreases a.len() - i,
    {
        if a[i] != b[i] {
            return false;
        }
        i = i + 1;
    }
    assert(a@ =~= b@);
    true
}

impl G1 {
    /// The compressed encoding.
    pub fn to_bytes(&self) -> (r: Vec<u8>)
        ensures
            r@ == self@,
    {
        self.bytes.clone()
    }

    /// The two points are equal.
    pub fn equals(&self, other: &G1) -> (r: bool)
        ensures
            r == (self@ == other@),
    {
        bytes_equal(&self.bytes, &other.bytes)
    }

    /// The point a compressed encoding stands for, if it is one.
    pub fn from_compressed(bytes: &[u8]) -> (r: Option<G1>)
        ensures
            g1_decoded(bytes@, g1_option_view(r)),
    {
        g1_decode(bytes)
    }

    /// The identity of G1.
    pub fn identity() -> (r: G1)
        ensures
            r@ == g1_identity_bytes(),
    {
        g1_identity()
    }

    /// `self + other`.
    pub fn add(&self, other: &G1) -> (r: G1)
        ensures
            r@ == g1_sum(self@, other@),
    {
        g1_add(self, other)
    }

    /// `-self`.
    pub fn neg(&self) -> (r: G1)
        ensures
            r@ == g1_negation(self@),
    {
        g1_neg(self)
    }

    /// `s * self`.
    pub fn mul(&self, s: &Scalar) -> (r: G1)
        ensures
            r@ == g1_scaled(self@, s@),
    {
        g1_mul(self, s)
    }
}

impl G2 {
    /// The compressed encoding.
    pub fn to_bytes(&self) -> (r: Vec<u8>)
        ensures
            r@ == self@,
    {
        self.bytes.clone()
    }

    /// `self + other`.
    pub fn add(&self, other: &G2) -> (r: G2)
        ensures
            r@ == g2_sum(self@, other@),
    {
        g2_add(self, other)
    }

    /// `-self`.
    pub fn neg(&self) -> (r: G2)
        ensures
            r@ == g2_negation(self@),
    {
        g2_neg(self)
    }

    /// `s * self`.
    pub fn mul(&self, s: &Scalar) -> (r: G2)
        ensures
            r@ == g2_scaled(self@, s@),
    {
        g2_mul(self, s)
    }
}

/// `CanonicalDeserialize::deserialize_compressed` on `G1Affine`, with its
/// validity checks, then re-encoded: `None` where the bytes are no point.
/// The source (`read_g1_compressed` of `ark-bls12-381`) reads exactly 48
/// bytes, fails on a short input and without the compression flag, and
/// gives the identity where the infinity flag is set; the identity passes
/// the subgroup check, and `serialize_compressed` writes 48 bytes. Which
/// other inputs are points, and which point, is left to the name
/// `g1_decoding`.
#[verifier::external_body]
fn g1_decode(bytes: &[u8]) -> (r: Option<G1>)
    ensures
        g1_option_view(r) == g1_decoding(bytes@),
        bytes@.len() < 48 ==> r is None,
        bytes@.len() >= 48 && bytes@[0] < 128 ==> r is None,
        bytes@.len() >= 48 && bytes@[0] >= 192 ==> g1_option_view(r) == Some(g1_identity_bytes()),
        r matches Some(p) ==> p@.len() == 48,
{
    match G1Affine::deserialize_compressed(bytes) {
        Ok(p) => {
            let mut out = Vec::new();
            let _ = p.serialize_compressed(&mut out);
            Some(G1 { bytes: out })
        },
        Err(_) => None,
    }
}

/// `AffineRepr::zero` on `G1Affine`, compressed: the flag byte `0xc0`,
/// then 47 zeros (the encoding `ark-bls12-381` writes for infinity).
#[verifier::external_body]
fn g1_identity() -> (r: G1)
    ensures
        r@ == g1_identity_bytes(),
{
    let mut out = Vec::new();
    let _ = G1Affine::zero().serialize_compressed(&mut out);
    G1 { bytes: out }
}

/// `G1Affine + G1Affine` (through `into_group` and `into_affine`), on the
/// decoded points, re-encoded.
#[verifier::external_body]
fn g1_add(a: &G1, b: &G1) -> (r: G1)
    ensures
        r@ == g1_sum(a@, b@),
{
    let x = G1Affine::deserialize_compressed_unchecked(&a.bytes[..]).unwrap_or(G1Affine::zero());
    let y = G1Affine::deserialize_compressed_unchecked(&b.bytes[..]).unwrap_or(G1Affine::zero());
    let mut out = Vec::new();
    let _ = (x.into_group() + y.into_group()).into_affine().serialize_compressed(&mut out);
    G1 { bytes: out }
}

/// `-G1Affine` (through `into_group`), re-encoded.
#[verifier::external_body]
fn g1_neg(a: &G1) -> (r: G1)
    ensures
        r@ == g1_negation(a@),
{
    let x = G1Affine::deserialize_compressed_unchecked(&a.bytes[..]).unwrap_or(G1Affine::zero());
    let mut out = Vec::new();
    let _ = (-x.into_group()).into_affine().serialize_compressed(&mut out);
    G1 { bytes: out }
}

/// `G1Projective * Fr` (through `into_group` and `into_affine`), re-encoded.
#[verifier::external_body]
fn g1_mul(a: &G1, s: &Scalar) -> (r: G1)
    ensures
        r@ == g1_scaled(a@, s@),
{
    let x = G1Affine::deserialize_compressed_unchecked(&a.bytes[..]).unwrap_or(G1Affine::zero());
    let k = Fr::from(NumNat::new(s.value.digits.clone()));
    let mut out = Vec::new();
    let _ = (x.into_group() * k).into_affine().serialize_compressed(&mut out);
    G1 { bytes: out }
}

/// `G2Affine + G2Affine` (through `into_group` and `into_affine`), re-encoded.
#[verifier::external_body]
fn g2_add(a: &G2, b: &G2) -> (r: G2)
    ensures
        r@ == g2_sum(a@, b@),
{
    let x = G2Affine::deserialize_compressed_unchecked(&a.bytes[..]).unwrap_or(G2Affine::zero());
    let y = G2Affine::deserialize_compressed_unchecked(&b.bytes[..]).unwrap_or(G2Affine::zero());
    let mut out = Vec::new();
    let _ = (x.into_group() + y.into_group()).into_affine().serialize_compressed(&mut out);
    G2 { bytes: out }
}

/// `-G2Affine` (through `into_group`), re-encoded.
#[verifier::external_body]
fn g2_neg(a: &G2) -> (r: G2)
    ensures
        r@ == g2_negation(a@),
{
    let x = G2Affine::deserialize_compressed_unchecked(&a.bytes[..]).unwrap_or(G2Affine::zero());
    let mut out = Vec::new();
    let _ = (-x.into_group()).into_affine().serialize_compressed(&mut out);
    G2 { bytes: out }
}

/// `G2Projective * Fr` (through `into_group` and `into_affine`), re-encoded.
#[verifier::external_body]
fn g2_mul(a: &G2, s: &Scalar) -> (r: G2)
    ensures
        r@ == g2_scaled(a@, s@),
{
    let x = G2Affine::deserialize_compressed_unchecked(&a.bytes[..]).unwrap_or(G2Affine::zero());
    let k = Fr::from(NumNat::new(s.value.digits.clone()));
    let mut out = Vec::new();
    let _ = (x.into_group() * k).into_affine().serialize_compressed(&mut out);
    G2 { bytes: out }
}

/// `format!("{:?}", p)` of the decoded `G1Affine`, as bytes.
#[verifier::external_body]
pub(crate) fn g1_debug(a: &G1) -> (r: Vec<u8>)
    ensures
        r@ == g1_debug_text(a@),
{
    let x = G1Affine::deserialize_compressed_unchecked(&a.bytes[..]).unwrap_or(G1Affine::zero());
    format!("{:?}", x).into_bytes()
}

/// `KZG10::setup(max_degree, false, &mut thread_rng())` on BLS12-381: the
/// powers of `g` (`max_degree + 1` of them) and `[h, beta * h]`, encoded.
/// It fails only for degree zero, which `requires` rules out. The points
/// are random; their number is stated, and that committing to the constant
/// polynomial one under these powers gives the first power back:
/// `KZG10::commit` (ark-poly-commit, kzg10/mod.rs) is the multi-scalar
/// product of the powers with the coefficients plus the empty hiding part,
/// so `1 * g`, and the first power was encoded canonically here, so its
/// re-encoding is the same bytes.
#[verifier::external_body]
pub(crate) fn kzg_setup(max_degree: usize) -> (r: (Vec<G1>, Vec<G2>))
    requires
        1 <= max_degree < usize::MAX,
    ensures
        r.0@.len() == max_degree + 1,
        r.1@.len() == 2,
        kzg_commitment(g1_views(r.0@), seq![1nat]) == r.0@[0]@,
{
    let pp = KZG10::<Bls12_381, DensePolynomial<Fr>>::setup(max_degree, false, &mut rand::thread_rng()).expect("positive degree");
    let enc1 = |p: &G1Affine| { let mut out = Vec::new(); let _ = p.serialize_compressed(&mut out); G1 { bytes: out } };
    let enc2 = |p: &G2Affine| { let mut out = Vec::new(); let _ = p.serialize_compressed(&mut out); G2 { bytes: out } };
    (pp.powers_of_g.iter().map(enc1).collect(), vec![enc2(&pp.h), enc2(&pp.beta_h)])
}

/// `KZG10::commit(powers, p, None, None)` on BLS12-381 for the polynomial
/// `p` with the given coefficients (lowest first, the last one not zero):
/// it fails exactly when `p` has more coefficients than there are powers
/// (the zero polynomial counts one); otherwise the commitment, encoded.
#[verifier::external_body]
pub(crate) fn kzg_commit(powers: &[G1], coeffs: &[Scalar]) -> (r: Option<G1>)
    requires
        coeffs@.len() > 0 ==> coeffs@.last()@ != 0,
    ensures
        r is Some <==> (if coeffs@.len() == 0 { 1 } else { coeffs@.len() }) <= powers@.len(),
        r matches Some(c) ==> c@ == kzg_commitment(g1_views(powers@), scalar_views(coeffs@)),
{
    let pts = powers.iter().map(|p| G1Affine::deserialize_compressed_unchecked(&p.bytes[..]).unwrap_or(G1Affine::zero())).collect();
    let cs = coeffs.iter().map(|c| Fr::from(NumNat::new(c.value.digits.clone()))).collect();
    let pw = Powers::<Bls12_381> { powers_of_g: Cow::Owned(pts), powers_of_gamma_g: Cow::Borrowed(&[]) };
    match KZG10::commit(&pw, &DensePolynomial::from_coefficients_vec(cs), None, None) {
        Ok((c, _)) => { let mut out = Vec::new(); let _ = c.0.serialize_compressed(&mut out); Some(G1 { bytes: out }) },
        Err(_) => None,
    }
}

/// `Pairing::multi_pairing` on BLS12-381 for each side, compared with `==`.
#[verifier::external_body]
pub(crate) fn pairing_check(lhs: &[(G1, G2)], rhs: &[(G1, G2)]) -> (r: bool)
    ensures
        r == pairing_products_equal(pair_views(lhs@), pair_views(rhs@)),
{
    let d1 = |p: &G1| G1Affine::deserialize_compressed_unchecked(&p.bytes[..]).unwrap_or(G1Affine::zero());
    let d2 = |p: &G2| G2Affine::deserialize_compressed_unchecked(&p.bytes[..]).unwrap_or(G2Affine::zero());
    let (a, b): (Vec<G1Affine>, Vec<G2Affine>) = lhs.iter().map(|p| (d1(&p.0), d2(&p.1))).unzip();
    let (c, d): (Vec<G1Affine>, Vec<G2Affine>) = rhs.iter().map(|p| (d1(&p.0), d2(&p.1))).unzip();
    Bls12_381::multi_pairing(a, b) == Bls12_381::multi_pairing(c, d)
}

} // verus!

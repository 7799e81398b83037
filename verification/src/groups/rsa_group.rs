//! The multiplicative group of integers modulo an RSA modulus.

use vstd::prelude::*;
use vstd::arithmetic::power2::pow2;
use vstd::arithmetic::div_mod::*;
use crate::arith::lemma_least_prime_at_least;
use crate::bignum::{
    BigNat, BigSigned, opt_view, be_bytes, be_value, bit_len, gcd, is_prime, mod_exp, nat_add, nat_bits, nat_div_rem,
    nat_eq, nat_modinv, nat_modpow, nat_mul, nat_sub,
};
use crate::traits::Group;
use num_bigint::BigUint as NumNat;
use num_bigint::RandBigInt;
use rand::RngCore;
use sha2::Digest;

verus! {

/// Bit size of each safe prime factor of a freshly drawn modulus.
pub const MODULUS_SIZE: u64 = 1536;

/// Bit size of the primes that elements are hashed to.
pub const PRIME_BITS: u32 = 256;

/// Extra bits drawn for random exponents beyond the modulus size.
pub const STATISTICAL_SECURITY_BITS: u64 = 256;

/// Whether the group order (the trapdoor) is known.
#[derive(Clone, Copy, Debug, PartialEq, Eq, Structural)]
pub enum TrapdoorMode {
    WithTrapdoor,
    Trapdoorless,
}

/// The group of units modulo `n` with generator `g`; `order`, when known,
/// is the trapdoor that lets exponents be reduced.
#[derive(Clone, Debug)]
pub struct RsaGroup {
    pub n: BigNat,
    pub g: BigNat,
    order: Option<BigNat>,
}

/// The SHA-256 digest of `data`, as `sha2::Sha256` computes it.
pub uninterp spec fn sha256_digest(data: Seq<u8>) -> Seq<u8>;

/// `sha2::Sha256::digest`: the digest of the bytes, 32 bytes long.
#[verifier::external_body]
pub(crate) fn sha256(data: &[u8]) -> (r: Vec<u8>)
    ensures
        r@ == sha256_digest(data@),
        r@.len() == 32,
{
    sha2::Sha256::digest(data).to_vec()
}

/// The largest prime `glass_pumpkin`'s primality test divides by.
pub open spec fn trial_division_bound() -> nat {
    17863
}

/// No number in `(1, bound]` divides `c` unless it is `c` itself.
pub open spec fn no_factor_up_to(c: nat, bound: nat) -> bool {
    forall|d: nat| 1 < d <= bound && #[trigger] (c % d) == 0 ==> c == d
}

/// `glass_pumpkin::prime::check`: a randomized primality test. A prime
/// always passes. A pass is only probable primality, but its first,
/// deterministic steps (`_is_prime` and `_is_prime_basic` in `common.rs`)
/// reject 0, 1, even numbers other than 2, and every number that one of
/// the odd primes up to 17863 (the table `PRIMES`) divides without being
/// it; so a number that passes is above one and has no divisor up to
/// 17863 but itself.
#[verifier::external_body]
pub(crate) fn probable_prime(candidate: &BigNat) -> (r: bool)
    ensures
        is_prime(candidate@) ==> r,
        r ==> candidate@ > 1 && no_factor_up_to(candidate@, trial_division_bound()),
{
    glass_pumpkin::prime::check(&NumNat::new(candidate.digits.clone()))
}

/// `glass_pumpkin::safe_prime::new`: a random safe prime of `bits` bits.
/// It fails for fewer than 128 bits, which `requires` rules out; a failure
/// of the operating system's random source panics here. Of the value only
/// its size is stated.
#[verifier::external_body]
pub(crate) fn random_safe_prime(bits: u64) -> (r: BigNat)
    requires
        bits >= 128,
    ensures
        pow2((bits - 1) as nat) <= r@ < pow2(bits as nat),
{
    BigNat { digits: glass_pumpkin::safe_prime::new(bits as usize).expect("OS randomness").to_u32_digits() }
}

/// `RandBigInt::gen_biguint_range` on `rand::thread_rng()`: a random value
/// in `[lo, hi)`; it panics when the range is empty, which `requires`
/// rules out.
#[verifier::external_body]
pub(crate) fn random_in_range(lo: &BigNat, hi: &BigNat) -> (r: BigNat)
    requires
        lo@ < hi@,
    ensures
        lo@ <= r@ < hi@,
{
    let x = rand::thread_rng().gen_biguint_range(&NumNat::new(lo.digits.clone()), &NumNat::new(hi.digits.clone()));
    BigNat { digits: x.to_u32_digits() }
}

/// `RandBigInt::gen_biguint` on `rand::thread_rng()`: a random value of at
/// most `bits` bits.
#[verifier::external_body]
pub(crate) fn random_bits(bits: u64) -> (r: BigNat)
    ensures
        r@ < pow2(bits as nat),
{
    BigNat { digits: rand::thread_rng().gen_biguint(bits).to_u32_digits() }
}

/// `RngCore::fill_bytes` on `rand::thread_rng()`: 32 random bytes.
#[verifier::external_body]
pub(crate) fn random_seed() -> (r: Vec<u8>)
    ensures
        r@.len() == 32,
{
    let mut seed = [0u8; 32];
    rand::thread_rng().fill_bytes(&mut seed);
    seed.to_vec()
}

/// The domain-separation prefix of hashing to a prime.
pub open spec fn hash_prefix() -> Seq<u8> {
    seq![
        80u8, 65, 68, 80, 45, 118, 49, 47, 104, 97, 115, 104, 45, 116, 111, 45, 112, 114, 105,
        109, 101, 58,
    ]
}

/// The little-endian bytes of the `k` low bytes of `x`.
pub open spec fn le_bytes(x: nat, k: nat) -> Seq<u8>
    decreases k,
{
    if k == 0 {
        Seq::empty()
    } else {
        seq![(x % 256) as u8] + le_bytes(x / 256, (k - 1) as nat)
    }
}

/// The message hashed for block `ctr` of the prime seed of `data`.
pub open spec fn hash_message(data: Seq<u8>, ctr: nat) -> Seq<u8> {
    hash_prefix() + data + seq![58u8] + le_bytes(ctr, 8)
}

/// The digests of the first `k` blocks of the prime seed of `data`.
pub open spec fn hash_stream(data: Seq<u8>, k: nat) -> Seq<u8>
    decreases k,
{
    if k == 0 {
        Seq::empty()
    } else {
        hash_stream(data, (k - 1) as nat) + sha256_digest(hash_message(data, (k - 1) as nat))
    }
}

/// The number of bytes of a prime seed.
pub open spec fn seed_bytes() -> nat {
    ((PRIME_BITS + 7) / 8) as nat
}

/// The number of digest blocks of a prime seed.
pub open spec fn seed_blocks() -> nat {
    (seed_bytes() + 31) / 32
}

/// The seed bytes: the digests cut to size, top bit and lowest bit set.
pub open spec fn prime_seed_bytes(data: Seq<u8>) -> Seq<u8> {
    let raw = hash_stream(data, seed_blocks()).take(seed_bytes() as int);
    raw.update(0, raw[0] | 0x80u8).update(raw.len() - 1, raw[raw.len() - 1] | 1u8)
}

/// The value where the search for a prime starts.
pub open spec fn prime_seed(data: Seq<u8>) -> nat {
    be_value(prime_seed_bytes(data))
}

/// The odd primes below 256 that sieve candidates.
pub open spec fn small_primes() -> Seq<u32> {
    seq![
        3u32, 5, 7, 11, 13, 17, 19, 23, 29, 31, 37, 41, 43, 47, 53, 59, 61, 67, 71, 73, 79, 83,
        89, 97, 101, 103, 107, 109, 113, 127, 131, 137, 139, 149, 151, 157, 163, 167, 173, 179,
        181, 191, 193, 197, 199, 211, 223, 227, 229, 233, 239, 241, 251,
    ]
}

/// No small prime other than `c` itself divides `c`.
pub open spec fn passes_sieve(c: nat) -> bool {
    forall|i: int|
        0 <= i < small_primes().len() ==> !(c % (#[trigger] small_primes()[i] as nat) == 0 && c
            != small_primes()[i] as nat)
}

/// `e` is what hashing `data` to a prime may give: the search starts at
/// the seed and steps over odd numbers; `e` passes the sieve and the
/// primality test (so no number up to the test's trial-division bound
/// divides it), and no number it passed over is prime. When `e` is prime
/// it is therefore the least prime at or above the seed.
pub open spec fn rsa_hashes_to(data: Seq<u8>, e: nat) -> bool {
    let s = prime_seed(data);
    &&& s <= e
    &&& e % 2 == 1
    &&& passes_sieve(e)
    &&& e > 1
    &&& no_factor_up_to(e, trial_division_bound())
    &&& forall|c: nat| s <= c < e ==> !is_prime(c)
}

/// `x` is the inverse of `a` modulo `n`.
pub open spec fn is_mod_inverse(a: nat, x: nat, n: nat) -> bool {
    x < n && (a * x) % n == 1nat % n
}

/// The modular inverse of `a` modulo `n`, when it exists.
pub open spec fn mod_inverse(a: nat, n: nat) -> nat {
    choose|x: nat| #[trigger] is_mod_inverse(a, x, n)
}

fn hash_prefix_bytes() -> (r: Vec<u8>)
    ensures
        r@ == hash_prefix(),
{
    let r: Vec<u8> = vec![
        80u8, 65, 68, 80, 45, 118, 49, 47, 104, 97, 115, 104, 45, 116, 111, 45, 112, 114, 105,
        109, 101, 58,
    ];
    assert(r@ =~= hash_prefix());
    r
}

fn small_primes_vec() -> (r: Vec<u32>)
    ensures
        r@ == small_primes(),
{
    let r: Vec<u32> = vec![
        3u32, 5, 7, 11, 13, 17, 19, 23, 29, 31, 37, 41, 43, 47, 53, 59, 61, 67, 71, 73, 79, 83,
        89, 97, 101, 103, 107, 109, 113, 127, 131, 137, 139, 149, 151, 157, 163, 167, 173, 179,
        181, 191, 193, 197, 199, 211, 223, 227, 229, 233, 239, 241, 251,
    ];
    assert(r@ =~= small_primes());
    r
}

/// The 8 little-endian bytes of a counter, as `u64::to_le_bytes` gives them.
fn counter_le_bytes(ctr: u64) -> (r: Vec<u8>)
    ensures
        r@ == le_bytes(ctr as nat, 8),
{
    let mut r: Vec<u8> = Vec::new();
    let mut x: u64 = ctr;
    let mut k: u64 = 0;
    while k < 8
        invariant
            k <= 8,
            r@ + le_bytes(x as nat, (8 - k) as nat) == le_bytes(ctr as nat, 8),
        decreases 8 - k,
    {
        let ghost before = r@;
        assert(le_bytes(x as nat, (8 - k) as nat) == seq![(x % 256) as u8] + le_bytes(
            (x / 256) as nat,
            (8 - k - 1) as nat,
        ));
        r.push((x % 256) as u8);
        assert(r@ + le_bytes((x / 256) as nat, (8 - k - 1) as nat) =~= before + le_bytes(
            x as nat,
            (8 - k) as nat,
        ));
        x = x / 256;
        k = k + 1;
    }
    assert(le_bytes(x as nat, 0) =~= Seq::<u8>::empty());
    assert(r@ =~= r@ + le_bytes(x as nat, 0));
    r
}

/// Every small prime is above one.
proof fn lemma_small_primes_above_one()
    ensures
        forall|i: int| 0 <= i < small_primes().len() ==> #[trigger] small_primes()[i] > 1,
{
    let s = small_primes();
    assert forall|i: int| 0 <= i < s.len() implies #[trigger] s[i] > 1 by {
        assert(s[i] == small_primes()[i]);
    }
}

/// A prime passes the sieve.
proof fn lemma_prime_passes_sieve(c: nat)
    requires
        is_prime(c),
    ensures
        passes_sieve(c),
{
    lemma_small_primes_above_one();
    assert forall|i: int| 0 <= i < small_primes().len() implies !(c % (
    #[trigger] small_primes()[i] as nat) == 0 && c != small_primes()[i] as nat) by {
        let p = small_primes()[i] as nat;
        if c % p == 0 && c != p {
            if p < c {
                assert(c % p != 0);
            } else {
                lemma_small_mod(c, p);
            }
        }
    }
}

/// The product of two safe primes of the drawn size is above one.
pub(crate) proof fn lemma_modulus_above_one(p: nat, q: nat)
    requires
        pow2((MODULUS_SIZE - 1) as nat) <= p,
        pow2((MODULUS_SIZE - 1) as nat) <= q,
    ensures
        p * q > 1,
        p >= 1,
        q >= 1,
{
    vstd::arithmetic::power2::lemma_pow2_strictly_increases(0, (MODULUS_SIZE - 1) as nat);
    vstd::arithmetic::power2::lemma2_to64();
    vstd::arithmetic::mul::lemma_mul_increases(p as int, q as int);
}

/// An even number above two is not prime.
proof fn lemma_even_not_prime(c: nat)
    requires
        c > 2,
        c % 2 == 0,
    ensures
        !is_prime(c),
{
    assert(1 < 2 < c && c % 2 == 0);
}

/// Big-endian bytes are worth at least their first byte.
proof fn lemma_be_value_first(s: Seq<u8>)
    requires
        s.len() >= 1,
    ensures
        be_value(s) >= s[0],
    decreases s.len(),
{
    if s.len() > 1 {
        lemma_be_value_first(s.drop_last());
        assert(s.drop_last()[0] == s[0]);
    } else {
        assert(s.drop_last() =~= Seq::<u8>::empty());
    }
}

impl RsaGroup {
    /// A group with the given modulus, generator and optional order.
    pub fn new(n: BigNat, g: BigNat, order: Option<BigNat>) -> (r: RsaGroup)
        ensures
            r.spec_n() == n@,
            r.spec_g() == g@,
            r.spec_order() == opt_view(order),
    {
        RsaGroup { n, g, order }
    }

    /// The modulus.
    pub closed spec fn spec_n(&self) -> nat {
        self.n@
    }

    /// The generator.
    pub closed spec fn spec_g(&self) -> nat {
        self.g@
    }

    /// The group order, when known.
    pub closed spec fn spec_order(&self) -> Option<nat> {
        opt_view(self.order)
    }

    /// The value of the order, when known.
    pub fn order(&self) -> (r: Option<&BigNat>)
        ensures
            r matches Some(o) ==> self.spec_order() == Some(o@),
            r is None <==> self.spec_order() is None,
    {
        match &self.order {
            Some(o) => Some(o),
            None => None,
        }
    }

    /// Replace the order.
    pub fn set_order(&mut self, order: Option<BigNat>)
        ensures
            final(self).spec_n() == old(self).spec_n(),
            final(self).spec_g() == old(self).spec_g(),
            final(self).spec_order() == opt_view(order),
    {
        self.order = order;
    }

    /// A group whose order is not known.
    pub fn from_modulus(n: BigNat, g: BigNat) -> (r: RsaGroup)
        ensures
            r.spec_n() == n@,
            r.spec_g() == g@,
            r.spec_order() is None,
    {
        RsaGroup { n, g, order: None }
    }

    /// Whether the order is known.
    pub fn mode(&self) -> (r: TrapdoorMode)
        ensures
            r == (if self.spec_order() is Some { TrapdoorMode::WithTrapdoor } else {
                TrapdoorMode::Trapdoorless
            }),
    {
        if self.order.is_some() {
            TrapdoorMode::WithTrapdoor
        } else {
            TrapdoorMode::Trapdoorless
        }
    }

    /// The order is known.
    pub fn has_trapdoor(&self) -> (r: bool)
        ensures
            r == self.spec_order() is Some,
    {
        self.order.is_some()
    }

    /// The modulus.
    pub fn modulus(&self) -> (r: &BigNat)
        ensures
            r@ == self.spec_n(),
    {
        &self.n
    }

    /// A group over a modulus `p * q` of two fresh safe primes, with a
    /// random square as generator, and no known order.
    pub fn setup_trapdoorless() -> (r: RsaGroup)
        ensures
            r.spec_n() > 0,
            r.spec_g() < r.spec_n(),
            r.spec_order() is None,
            exists|p: nat, q: nat, h: nat|
                #![trigger p * q, h * h]
                pow2((MODULUS_SIZE - 1) as nat) <= p < pow2(MODULUS_SIZE as nat) && pow2(
                    (MODULUS_SIZE - 1) as nat,
                ) <= q < pow2(MODULUS_SIZE as nat) && r.spec_n() == p * q && 1 <= h < p * q
                    && r.spec_g() == (h * h) % (p * q),
    {
        let p = random_safe_prime(MODULUS_SIZE);
        let q = random_safe_prime(MODULUS_SIZE);
        let n = nat_mul(&p, &q);
        proof {
            lemma_modulus_above_one(p@, q@);
        }
        let h = random_in_range(&BigNat::from_u32(1), &n);
        let hh = nat_mul(&h, &h);
        let (_, g) = nat_div_rem(&hh, &n);
        let r = RsaGroup { n, g, order: None };
        assert(r.spec_n() == p@ * q@ && r.spec_g() == (h@ * h@) % (p@ * q@));
        r
    }

    /// `base^exponent` modulo `n` for a signed exponent; a negative
    /// exponent raises the inverse of `base`.
    pub fn signed_exp(&self, base: &BigNat, exponent: &BigSigned) -> (r: BigNat)
        requires
            self.spec_n() > 0,
            exponent@ < 0 ==> gcd(base@, self.spec_n()) == 1,
        ensures
            r@ == signed_mod_exp(base@, exponent@, self.spec_n()),
    {
        if !exponent.is_negative() {
            let e = exponent.magnitude();
            nat_modpow(base, &e, &self.n)
        } else {
            let base_inv = self.inv(base);
            let abs_exp = exponent.magnitude();
            nat_modpow(&base_inv, &abs_exp, &self.n)
        }
    }
}

/// `b^e mod n` for a signed exponent: a negative exponent raises the
/// inverse of `b`.
pub open spec fn signed_mod_exp(b: nat, e: int, n: nat) -> nat {
    if e >= 0 {
        mod_exp(b, e as nat, n)
    } else {
        mod_exp(mod_inverse(b, n), (-e) as nat, n)
    }
}

/// Two inverses of one number modulo `n` are equal.
pub proof fn lemma_mod_inverse_unique(a: nat, x: nat, y: nat, n: nat)
    requires
        n > 0,
        x < n,
        y < n,
        (a * x) % n == 1nat % n,
        (a * y) % n == 1nat % n,
    ensures
        x == y,
{
    let ni = n as int;
    lemma_mul_mod_noop_right(x as int, (a * y) as int, ni);
    lemma_mul_mod_noop_right(y as int, (a * x) as int, ni);
    assert(x * (a * y) == y * (a * x)) by (nonlinear_arith);
    if n > 1 {
        lemma_small_mod(1, n);
    }
    lemma_small_mod(x, n);
    lemma_small_mod(y, n);
    assert((x * (1nat % n)) % n == x % n) by {
        if n == 1 {
        } else {
            lemma_small_mod(1, n);
        }
    }
    assert((y * (1nat % n)) % n == y % n) by {
        if n == 1 {
        } else {
            lemma_small_mod(1, n);
        }
    }
}

impl Group for RsaGroup {
    type Element = BigNat;
    type Exponent = BigNat;

    open spec fn spec_wf(&self) -> bool {
        self.spec_n() > 0
    }

    open spec fn spec_gen(&self) -> nat {
        self.spec_g()
    }

    open spec fn spec_gen_ok(&self) -> bool {
        true
    }

    open spec fn spec_identity(&self) -> nat {
        1
    }

    open spec fn spec_mul(&self, a: nat, b: nat) -> nat {
        (a * b) % self.spec_n()
    }

    open spec fn spec_invertible(&self, a: nat) -> bool {
        gcd(a, self.spec_n()) == 1
    }

    open spec fn spec_inverse(&self, a: nat) -> nat {
        mod_inverse(a, self.spec_n())
    }

    open spec fn spec_exp(&self, base: nat, e: nat) -> nat {
        mod_exp(base, e, self.spec_n())
    }

    open spec fn spec_exp_id() -> nat {
        1
    }

    open spec fn spec_exp_mul(a: nat, b: nat) -> nat {
        a * b
    }

    open spec fn spec_exp_add(a: nat, b: nat) -> nat {
        a + b
    }

    open spec fn spec_exp_divisor(b: nat) -> bool {
        b > 0
    }

    open spec fn spec_exp_div_rem(a: nat, b: nat) -> (nat, nat) {
        (a / b, a % b)
    }

    open spec fn spec_element_bytes(&self, a: nat) -> Seq<u8> {
        be_bytes(a)
    }

    open spec fn spec_hashes_to(&self, data: Seq<u8>, e: nat) -> bool {
        rsa_hashes_to(data, e)
    }

    /// A group over a modulus `p * q` of two fresh safe primes, with a
    /// random square as generator, and order `(p - 1) * (q - 1)`.
    fn setup() -> (r: RsaGroup)
        ensures
            exists|p: nat, q: nat, h: nat|
                #![trigger p * q, h * h]
                pow2((MODULUS_SIZE - 1) as nat) <= p < pow2(MODULUS_SIZE as nat) && pow2(
                    (MODULUS_SIZE - 1) as nat,
                ) <= q < pow2(MODULUS_SIZE as nat) && r.spec_n() == p * q && 1 <= h < p * q
                    && r.spec_g() == (h * h) % (p * q) && r.spec_order() == Some(
                    ((p - 1) * (q - 1)) as nat,
                ),
    {
        let p = random_safe_prime(MODULUS_SIZE);
        let q = random_safe_prime(MODULUS_SIZE);
        proof {
            lemma_modulus_above_one(p@, q@);
        }
        let n = nat_mul(&p, &q);
        let one = BigNat::from_u32(1);
        let order = nat_mul(&nat_sub(&p, &one), &nat_sub(&q, &one));
        let h = random_in_range(&one, &n);
        let hh = nat_mul(&h, &h);
        let (_, g) = nat_div_rem(&hh, &n);
        let r = RsaGroup { n, g, order: Some(order) };
        assert(r.spec_n() == p@ * q@ && r.spec_g() == (h@ * h@) % (p@ * q@));
        r
    }

    fn g(&self) -> (r: BigNat) {
        self.g.clone()
    }

    fn id(&self) -> (r: BigNat) {
        BigNat::from_u32(1)
    }

    fn mul(&self, a: &BigNat, b: &BigNat) -> (r: BigNat) {
        let ab = nat_mul(a, b);
        let (_, r) = nat_div_rem(&ab, &self.n);
        r
    }

    fn inv(&self, element: &BigNat) -> (r: BigNat) {
        match nat_modinv(element, &self.n) {
            Some(x) => {
                proof {
                    let y = mod_inverse(element@, self.spec_n());
                    assert(is_mod_inverse(element@, x@, self.spec_n()));
                    assert(is_mod_inverse(element@, y, self.spec_n()));
                    lemma_mod_inverse_unique(element@, x@, y, self.spec_n());
                }
                x
            },
            None => {
                proof {
                    assert(false);
                }
                BigNat::zero()
            },
        }
    }

    fn exp(&self, base: &BigNat, exponent: &BigNat) -> (r: BigNat) {
        nat_modpow(base, exponent, &self.n)
    }

    fn exp_id() -> (r: BigNat) {
        BigNat::from_u32(1)
    }

    fn exp_mul(a: &BigNat, b: &BigNat) -> (r: BigNat) {
        nat_mul(a, b)
    }

    fn exp_add(a: &BigNat, b: &BigNat) -> (r: BigNat) {
        nat_add(a, b)
    }

    fn exp_div_rem(a: &BigNat, b: &BigNat) -> (r: (BigNat, BigNat)) {
        nat_div_rem(a, b)
    }

    fn element_to_bytes(&self, element: &BigNat) -> (r: Vec<u8>) {
        element.to_bytes_be()
    }

    /// The first odd number at or above the seed of `data` that no small
    /// prime divides and that passes the primality test.
    fn hash_to_prime(&self, data: &[u8]) -> (r: BigNat) {
        hash_bytes_to_prime(data)
    }

    /// A random exponent of at most `bits(n) + 256` bits (saturating).
    fn random_exponent(&self) -> (r: BigNat)
        ensures
            r@ < pow2(
                (if bit_len(self.spec_n()) + STATISTICAL_SECURITY_BITS <= u64::MAX {
                    bit_len(self.spec_n()) + STATISTICAL_SECURITY_BITS
                } else {
                    u64::MAX as int
                }) as nat,
            ),
    {
        let n_bits = nat_bits(&self.n);
        let bits = if n_bits <= u64::MAX - STATISTICAL_SECURITY_BITS {
            n_bits + STATISTICAL_SECURITY_BITS
        } else {
            u64::MAX
        };
        random_bits(bits)
    }

    fn element_eq(&self, a: &BigNat, b: &BigNat) -> (r: bool) {
        nat_eq(a, b)
    }

    fn exponent_eq(a: &BigNat, b: &BigNat) -> (r: bool) {
        nat_eq(a, b)
    }

    fn copy_element(a: &BigNat) -> (r: BigNat) {
        a.clone()
    }

    fn copy_exponent(a: &BigNat) -> (r: BigNat) {
        a.clone()
    }
}

/// The seed bytes of `data`: the digest blocks cut to size, with the top
/// bit and the lowest bit set.
fn prime_seed_of(data: &[u8]) -> (r: Vec<u8>)
    ensures
        r@ == prime_seed_bytes(data@),
        r@.len() == seed_bytes(),
        r@[0] >= 128,
        r@[r@.len() - 1] % 2 == 1,
{
    let target_bytes: usize = ((PRIME_BITS + 7) / 8) as usize;
    let blocks: usize = (target_bytes + 31) / 32;
    let mut raw: Vec<u8> = Vec::with_capacity(blocks * 32);
    let mut ctr: u64 = 0;
    while ctr < blocks as u64
        invariant
            blocks == seed_blocks(),
            ctr <= blocks,
            raw@ == hash_stream(data@, ctr as nat),
            raw@.len() == 32 * ctr,
        decreases blocks - ctr,
    {
        let mut msg = hash_prefix_bytes();
        msg.extend_from_slice(data);
        msg.push(58u8);
        let ctr_bytes = counter_le_bytes(ctr);
        msg.extend_from_slice(ctr_bytes.as_slice());
        assert(msg@ =~= hash_message(data@, ctr as nat));
        let digest = sha256(msg.as_slice());
        raw.extend_from_slice(digest.as_slice());
        assert(raw@ =~= hash_stream(data@, (ctr + 1) as nat));
        ctr = ctr + 1;
    }
    raw.truncate(target_bytes);
    let ghost cut = raw@;
    assert(cut =~= hash_stream(data@, seed_blocks()).take(seed_bytes() as int));
    let first_raw = raw[0];
    let first = first_raw | 0x80u8;
    assert(first >= 128) by (bit_vector)
        requires
            first == first_raw | 0x80u8,
    ;
    raw.set(0, first);
    let last_index = raw.len() - 1;
    let last_raw = raw[last_index];
    let last = last_raw | 1u8;
    assert(last % 2 == 1) by (bit_vector)
        requires
            last == last_raw | 1u8,
    ;
    raw.set(last_index, last);
    assert(raw@ =~= prime_seed_bytes(data@));
    raw
}

/// Whether no small prime other than `candidate` divides it.
fn sieve(candidate: &BigNat, primes: &Vec<u32>) -> (r: bool)
    requires
        primes@ == small_primes(),
    ensures
        r == passes_sieve(candidate@),
{
    let mut i: usize = 0;
    while i < primes.len()
        invariant
            primes@ == small_primes(),
            i <= primes.len(),
            forall|j: int|
                0 <= j < i ==> !(candidate@ % (#[trigger] small_primes()[j] as nat) == 0
                    && candidate@ != small_primes()[j] as nat),
        decreases primes.len() - i,
    {
        let p = BigNat::from_u32(primes[i]);
        proof {
            lemma_small_primes_above_one();
        }
        let (_, m) = nat_div_rem(candidate, &p);
        if m.is_zero() && !nat_eq(candidate, &p) {
            return false;
        }
        i = i + 1;
    }
    true
}

/// Hash `data` to a prime: search upward over odd numbers from its seed.
pub fn hash_bytes_to_prime(data: &[u8]) -> (r: BigNat)
    ensures
        rsa_hashes_to(data@, r@),
{
    let seed = prime_seed_of(data);
    let mut candidate = BigNat::from_bytes_be(seed.as_slice());
    let ghost start = candidate@;
    proof {
        lemma_be_value_first(seed@);
        assert(start % 2 == 1) by {
            let s = seed@;
            assert(be_value(s) == be_value(s.drop_last()) * 256 + s.last() as nat);
            lemma_mod_multiples_vanish(be_value(s.drop_last()) as int * 128, s.last() as int, 2);
        }
    }
    let primes = small_primes_vec();
    let two = BigNat::from_u32(2);
    let ghost p = lemma_least_prime_at_least(start);
    proof {
        if p % 2 == 0 {
            assert(1 < 2 < p && p % 2 == 0);
        }
    }
    loop
        invariant
            primes@ == small_primes(),
            two@ == 2,
            start == prime_seed(data@),
            start % 2 == 1,
            start >= 128,
            is_prime(p),
            p % 2 == 1,
            forall|q: nat| start <= q < p ==> !is_prime(q),
            start <= candidate@ <= p,
            candidate@ % 2 == 1,
            forall|c: nat| start <= c < candidate@ ==> !is_prime(c),
        decreases p - candidate@,
    {
        if sieve(&candidate, &primes) && probable_prime(&candidate) {
            return candidate;
        }
        proof {
            if is_prime(candidate@) {
                lemma_prime_passes_sieve(candidate@);
            }
            assert(!is_prime(candidate@));
            assert(candidate@ != p);
            assert forall|c: nat| start <= c < candidate@ + 2 implies !is_prime(c) by {
                if c == candidate@ + 1 {
                    lemma_even_not_prime(c);
                }
            }
        }
        candidate = nat_add(&candidate, &two);
    }
}

/// What hashing to a prime gives, for every input: a number above one, odd,
/// with no divisor but itself up to the primality test's trial-division
/// bound, at or above the seed and at most every prime at or above the
/// seed; so when it is prime it is the least prime at or above the seed.
pub proof fn lemma_hashed_prime(data: Seq<u8>, e: nat)
    requires
        rsa_hashes_to(data, e),
    ensures
        e > 1,
        e % 2 == 1,
        no_factor_up_to(e, trial_division_bound()),
        forall|d: nat| 1 < d <= trial_division_bound() && d < e ==> #[trigger] (e % d) != 0,
        prime_seed(data) <= e,
        forall|p: nat| #[trigger] is_prime(p) && prime_seed(data) <= p ==> e <= p,
        is_prime(e) ==> forall|c: nat| prime_seed(data) <= c < e ==> !is_prime(c),
{
    assert forall|d: nat| 1 < d <= trial_division_bound() && d < e implies #[trigger] (e % d) != 0 by {
        if e % d == 0 {
            assert(e == d);
        }
    }
}

} // verus!

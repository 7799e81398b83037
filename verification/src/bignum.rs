//! Arbitrary-precision naturals and integers held as base-2^32 digits.
//!
//! The arithmetic itself is done by `num-bigint` and `num-integer`; each
//! call goes through one small trusted wrapper whose contract states the
//! mathematical result over the values of the digits.

use vstd::prelude::*;
use vstd::arithmetic::power::pow;
use num_bigint::BigInt as NumInt;
use num_bigint::BigUint as NumNat;
use num_bigint::Sign::{Minus, Plus};
use num_integer::Integer;

verus! {

/// The radix of one digit.
pub open spec fn radix() -> nat {
    0x1_0000_0000
}

/// The value of little-endian base-2^32 digits.
pub open spec fn digits_value(s: Seq<u32>) -> nat
    decreases s.len(),
{
    if s.len() == 0 {
        0
    } else {
        s[0] as nat + radix() * digits_value(s.drop_first())
    }
}

/// The value of big-endian bytes.
pub open spec fn be_value(s: Seq<u8>) -> nat
    decreases s.len(),
{
    if s.len() == 0 {
        0
    } else {
        be_value(s.drop_last()) * 256 + s.last() as nat
    }
}

/// The shortest big-endian bytes of `n`; zero is the single byte `0`.
pub open spec fn be_bytes(n: nat) -> Seq<u8>
    decreases n,
{
    if n < 256 {
        seq![n as u8]
    } else {
        be_bytes(n / 256).push((n % 256) as u8)
    }
}

/// The ASCII decimal digits of `n`, without leading zeros.
pub open spec fn decimal_bytes(n: nat) -> Seq<u8>
    decreases n,
{
    if n < 10 {
        seq![(48 + n) as u8]
    } else {
        decimal_bytes(n / 10).push((48 + n % 10) as u8)
    }
}

/// The number of bits needed to write `n`; zero needs none.
pub open spec fn bit_len(n: nat) -> nat
    decreases n,
{
    if n == 0 {
        0
    } else {
        1 + bit_len(n / 2)
    }
}

/// Greatest common divisor, by Euclid's algorithm.
pub open spec fn gcd(a: nat, b: nat) -> nat
    decreases b,
{
    if b == 0 {
        a
    } else {
        gcd(b, a % b)
    }
}

/// The absolute value of an integer.
pub open spec fn abs(x: int) -> nat {
    if x < 0 {
        (-x) as nat
    } else {
        x as nat
    }
}

/// `n` is prime.
pub open spec fn is_prime(n: nat) -> bool {
    &&& n > 1
    &&& forall|d: nat| 1 < d < n ==> #[trigger] (n % d) != 0
}

/// `b^e mod n`.
pub open spec fn mod_exp(b: nat, e: nat, n: nat) -> nat {
    (pow(b as int, e) % (n as int)) as nat
}

/// The value of an optional number.
pub open spec fn opt_view(o: Option<BigNat>) -> Option<nat> {
    match o {
        Some(x) => Some(x@),
        None => None,
    }
}

/// Greatest common divisor and Bezout coefficients `(g, x, y)` that
/// `num_integer::Integer::extended_gcd` computes for `(a, b)`.
pub uninterp spec fn extended_gcd_of(a: int, b: int) -> (int, int, int);

/// An arbitrary-precision natural number.
#[derive(Debug, PartialEq, Eq)]
pub struct BigNat {
    pub(crate) digits: Vec<u32>,
}

impl View for BigNat {
    type V = nat;

    closed spec fn view(&self) -> nat {
        digits_value(self.digits@)
    }
}

/// An arbitrary-precision integer: a sign and a magnitude.
#[derive(Debug, PartialEq, Eq)]
pub struct BigSigned {
    negative: bool,
    magnitude: BigNat,
}

impl View for BigSigned {
    type V = int;

    closed spec fn view(&self) -> int {
        if self.negative {
            -(self.magnitude@ as int)
        } else {
            self.magnitude@ as int
        }
    }
}

/// `BigUint::new` and `BigUint::to_u32_digits`: normalizes digits,
/// keeping their value.
#[verifier::external_body]
pub(crate) fn nat_from_digits(digits: Vec<u32>) -> (r: BigNat)
    ensures
        r@ == digits_value(digits@),
{
    BigNat { digits: NumNat::new(digits).to_u32_digits() }
}

/// `BigUint + BigUint`: the sum.
#[verifier::external_body]
pub(crate) fn nat_add(a: &BigNat, b: &BigNat) -> (r: BigNat)
    ensures
        r@ == a@ + b@,
{
    let x = NumNat::new(a.digits.clone());
    let y = NumNat::new(b.digits.clone());
    BigNat { digits: (x + y).to_u32_digits() }
}

/// `BigUint - BigUint`: the difference; it panics below zero, which
/// `requires` rules out.
#[verifier::external_body]
pub(crate) fn nat_sub(a: &BigNat, b: &BigNat) -> (r: BigNat)
    requires
        b@ <= a@,
    ensures
        r@ == a@ - b@,
{
    let x = NumNat::new(a.digits.clone());
    let y = NumNat::new(b.digits.clone());
    BigNat { digits: (x - y).to_u32_digits() }
}

/// `BigUint * BigUint`: the product.
#[verifier::external_body]
pub(crate) fn nat_mul(a: &BigNat, b: &BigNat) -> (r: BigNat)
    ensures
        r@ == a@ * b@,
{
    let x = NumNat::new(a.digits.clone());
    let y = NumNat::new(b.digits.clone());
    BigNat { digits: (x * y).to_u32_digits() }
}

/// `BigUint / BigUint` and `BigUint % BigUint`: quotient and remainder;
/// both panic on a zero divisor, which `requires` rules out.
#[verifier::external_body]
pub(crate) fn nat_div_rem(a: &BigNat, b: &BigNat) -> (r: (BigNat, BigNat))
    requires
        b@ > 0,
    ensures
        r.0@ == a@ / b@,
        r.1@ == a@ % b@,
{
    let x = NumNat::new(a.digits.clone());
    let y = NumNat::new(b.digits.clone());
    let (q, m) = (&x / &y, &x % &y);
    (BigNat { digits: q.to_u32_digits() }, BigNat { digits: m.to_u32_digits() })
}

/// `BigUint::modpow`: `(b ^ e) % n`; it panics on a zero modulus, which
/// `requires` rules out.
#[verifier::external_body]
pub(crate) fn nat_modpow(b: &BigNat, e: &BigNat, n: &BigNat) -> (r: BigNat)
    requires
        n@ > 0,
    ensures
        r@ == mod_exp(b@, e@, n@),
{
    let x = NumNat::new(b.digits.clone());
    let y = NumNat::new(e.digits.clone());
    let m = NumNat::new(n.digits.clone());
    BigNat { digits: x.modpow(&y, &m).to_u32_digits() }
}

/// `BigUint::modinv`: the `x` in `[0, n)` with `a * x = 1 (mod n)`, which
/// exists exactly when `gcd(a, n) == 1`; it panics on a zero modulus,
/// which `requires` rules out.
#[verifier::external_body]
pub(crate) fn nat_modinv(a: &BigNat, n: &BigNat) -> (r: Option<BigNat>)
    requires
        n@ > 0,
    ensures
        r is Some <==> gcd(a@, n@) == 1,
        r matches Some(x) ==> x@ < n@ && (a@ * x@) % n@ == 1nat % n@,
{
    let x = NumNat::new(a.digits.clone());
    let m = NumNat::new(n.digits.clone());
    match x.modinv(&m) {
        Some(v) => Some(BigNat { digits: v.to_u32_digits() }),
        None => None,
    }
}

/// `BigUint == BigUint`: equality of values.
#[verifier::external_body]
pub(crate) fn nat_eq(a: &BigNat, b: &BigNat) -> (r: bool)
    ensures
        r == (a@ == b@),
{
    NumNat::new(a.digits.clone()) == NumNat::new(b.digits.clone())
}

/// `BigUint < BigUint`: order of values.
#[verifier::external_body]
pub(crate) fn nat_lt(a: &BigNat, b: &BigNat) -> (r: bool)
    ensures
        r == (a@ < b@),
{
    NumNat::new(a.digits.clone()) < NumNat::new(b.digits.clone())
}

/// `BigUint::from_bytes_be`: the value of big-endian bytes.
#[verifier::external_body]
pub(crate) fn nat_from_bytes_be(bytes: &[u8]) -> (r: BigNat)
    ensures
        r@ == be_value(bytes@),
{
    BigNat { digits: NumNat::from_bytes_be(bytes).to_u32_digits() }
}

/// `BigUint::to_bytes_be`: the shortest big-endian bytes; zero gives `[0]`.
#[verifier::external_body]
pub(crate) fn nat_to_bytes_be(a: &BigNat) -> (r: Vec<u8>)
    ensures
        r@ == be_bytes(a@),
{
    NumNat::new(a.digits.clone()).to_bytes_be()
}

/// `BigUint::to_string` (its `Display`): the decimal digits as ASCII bytes.
#[verifier::external_body]
pub(crate) fn nat_to_decimal(a: &BigNat) -> (r: Vec<u8>)
    ensures
        r@ == decimal_bytes(a@),
{
    NumNat::new(a.digits.clone()).to_string().into_bytes()
}

/// `BigUint::bits`: the number of bits needed to write the value.
#[verifier::external_body]
pub(crate) fn nat_bits(a: &BigNat) -> (r: u64)
    ensures
        r == bit_len(a@),
{
    NumNat::new(a.digits.clone()).bits()
}

/// `BigUint & BigUint` with one: the lowest bit.
#[verifier::external_body]
pub(crate) fn nat_low_bit(a: &BigNat) -> (r: BigNat)
    ensures
        r@ == a@ % 2,
{
    let x = NumNat::new(a.digits.clone());
    BigNat { digits: (&x & NumNat::from(1u32)).to_u32_digits() }
}

/// `BigUint >> 1`: halving, rounding down.
#[verifier::external_body]
pub(crate) fn nat_shr1(a: &BigNat) -> (r: BigNat)
    ensures
        r@ == a@ / 2,
{
    let x = NumNat::new(a.digits.clone());
    BigNat { digits: (x >> 1u32).to_u32_digits() }
}

/// `Integer::extended_gcd` on `BigInt`: the gcd, which is never negative,
/// and Bezout coefficients `x`, `y` with `gcd == a * x + b * y`.
#[verifier::external_body]
pub(crate) fn int_extended_gcd(a: &BigSigned, b: &BigSigned) -> (r: (BigNat, BigSigned, BigSigned))
    ensures
        (r.0@ as int, r.1@, r.2@) == extended_gcd_of(a@, b@),
        r.0@ == gcd(abs(a@), abs(b@)),
        r.0@ == a@ * r.1@ + b@ * r.2@,
{
    let x = NumInt::from_biguint(if a.negative { Minus } else { Plus }, NumNat::new(a.magnitude.digits.clone()));
    let y = NumInt::from_biguint(if b.negative { Minus } else { Plus }, NumNat::new(b.magnitude.digits.clone()));
    let e = x.extended_gcd(&y);
    (
        BigNat { digits: e.gcd.magnitude().to_u32_digits() },
        BigSigned { negative: e.x.sign() == Minus, magnitude: BigNat { digits: e.x.magnitude().to_u32_digits() } },
        BigSigned { negative: e.y.sign() == Minus, magnitude: BigNat { digits: e.y.magnitude().to_u32_digits() } },
    )
}

/// `Integer::mod_floor` on `BigInt` with a positive modulus: the
/// remainder in `[0, m)`.
#[verifier::external_body]
pub(crate) fn int_mod_floor(a: &BigSigned, m: &BigNat) -> (r: BigNat)
    requires
        m@ > 0,
    ensures
        r@ == a@ % (m@ as int),
{
    let x = NumInt::from_biguint(if a.negative { Minus } else { Plus }, NumNat::new(a.magnitude.digits.clone()));
    let y = NumInt::from(NumNat::new(m.digits.clone()));
    BigNat { digits: x.mod_floor(&y).magnitude().to_u32_digits() }
}

impl Clone for BigNat {
    fn clone(&self) -> (r: Self)
        ensures
            r@ == self@,
    {
        let digits = self.digits.clone();
        assert(digits@ =~= self.digits@);
        BigNat { digits }
    }
}

impl BigNat {
    /// Zero.
    pub fn zero() -> (r: BigNat)
        ensures
            r@ == 0,
    {
        let digits: Vec<u32> = Vec::new();
        assert(digits@ =~= Seq::<u32>::empty());
        BigNat { digits }
    }

    /// The value of a `u32`.
    pub fn from_u32(v: u32) -> (r: BigNat)
        ensures
            r@ == v,
    {
        let mut digits: Vec<u32> = Vec::new();
        if v != 0 {
            digits.push(v);
            assert(digits@.drop_first() =~= Seq::<u32>::empty());
            assert(digits_value(digits@.drop_first()) == 0);
        } else {
            assert(digits@ =~= Seq::<u32>::empty());
        }
        BigNat { digits }
    }

    /// The value of a `u64`.
    pub fn from_u64(v: u64) -> (r: BigNat)
        ensures
            r@ == v,
    {
        let lo = (v % 0x1_0000_0000) as u32;
        let hi = (v / 0x1_0000_0000) as u32;
        let mut digits: Vec<u32> = Vec::new();
        digits.push(lo);
        digits.push(hi);
        let ghost s = digits@;
        assert(s.drop_first().drop_first() =~= Seq::<u32>::empty());
        assert(digits_value(s.drop_first().drop_first()) == 0);
        assert(s.drop_first()[0] == hi);
        assert(digits_value(s.drop_first()) == hi as nat);
        assert(digits_value(s) == lo as nat + radix() * hi as nat);
        nat_from_digits(digits)
    }

    /// The number whose little-endian base-2^32 digits are given.
    pub fn from_digits(digits: Vec<u32>) -> (r: BigNat)
        ensures
            r@ == digits_value(digits@),
    {
        nat_from_digits(digits)
    }

    /// Little-endian base-2^32 digits of the value.
    pub fn to_digits(&self) -> (r: Vec<u32>)
        ensures
            digits_value(r@) == self@,
    {
        let r = self.digits.clone();
        assert(r@ =~= self.digits@);
        r
    }

    /// The number whose big-endian bytes are given.
    pub fn from_bytes_be(bytes: &[u8]) -> (r: BigNat)
        ensures
            r@ == be_value(bytes@),
    {
        nat_from_bytes_be(bytes)
    }

    /// The shortest big-endian bytes of the value (`[0]` for zero).
    pub fn to_bytes_be(&self) -> (r: Vec<u8>)
        ensures
            r@ == be_bytes(self@),
    {
        nat_to_bytes_be(self)
    }

    /// The value is zero.
    pub fn is_zero(&self) -> (r: bool)
        ensures
            r == (self@ == 0),
    {
        nat_eq(self, &BigNat::zero())
    }

    /// The value of a number below `2^32`.
    pub fn low_u32(&self) -> (r: u32)
        requires
            self@ < radix(),
        ensures
            r == self@,
    {
        if self.digits.len() == 0 {
            0
        } else {
            let d = self.digits[0];
            proof {
                let s = self.digits@;
                let rest = digits_value(s.drop_first());
                assert(self@ == s[0] as nat + radix() * rest);
                if rest > 0 {
                    assert(radix() * rest >= radix()) by (nonlinear_arith)
                        requires
                            rest > 0,
                    ;
                }
            }
            d
        }
    }

    /// The two values are equal.
    pub fn value_eq(&self, other: &BigNat) -> (r: bool)
        ensures
            r == (self@ == other@),
    {
        nat_eq(self, other)
    }
}

impl Clone for BigSigned {
    fn clone(&self) -> (r: Self)
        ensures
            r@ == self@,
    {
        BigSigned { negative: self.negative, magnitude: self.magnitude.clone() }
    }
}

impl BigSigned {
    /// The integer with the given sign and magnitude.
    pub fn new(negative: bool, magnitude: BigNat) -> (r: BigSigned)
        ensures
            r@ == (if negative { -(magnitude@ as int) } else { magnitude@ as int }),
    {
        BigSigned { negative, magnitude }
    }

    /// The integer of a natural number.
    pub fn from_nat(n: BigNat) -> (r: BigSigned)
        ensures
            r@ == n@ as int,
    {
        BigSigned { negative: false, magnitude: n }
    }

    /// The absolute value.
    pub fn magnitude(&self) -> (r: BigNat)
        ensures
            r@ == abs(self@),
    {
        self.magnitude.clone()
    }

    /// The value is below zero.
    pub fn is_negative(&self) -> (r: bool)
        ensures
            r == (self@ < 0),
    {
        self.negative && !self.magnitude.is_zero()
    }

    /// The natural number of a value that is not negative.
    pub fn to_nat(&self) -> (r: Option<BigNat>)
        ensures
            r is Some <==> self@ >= 0,
            r matches Some(n) ==> n@ == self@,
    {
        if self.is_negative() {
            None
        } else {
            Some(self.magnitude.clone())
        }
    }

    /// The negated value.
    pub fn neg(&self) -> (r: BigSigned)
        ensures
            r@ == -self@,
    {
        BigSigned { negative: !self.negative, magnitude: self.magnitude.clone() }
    }
}

} // verus!

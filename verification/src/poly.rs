//! Dense univariate polynomials over the BLS12-381 scalar field, by their
//! coefficients from the constant term up, without trailing zeros.

use vstd::prelude::*;
use vstd::arithmetic::div_mod::*;
use crate::groups::bls12_381::{Scalar, scalar_modulus, scalar_views};

verus! {

/// The coefficients have no trailing zero.
pub open spec fn trimmed(s: Seq<nat>) -> bool {
    s.len() == 0 || s.last() != 0
}

/// The coefficients without their trailing zeros.
pub open spec fn trim(s: Seq<nat>) -> Seq<nat>
    decreases s.len(),
{
    if s.len() > 0 && s.last() == 0 {
        trim(s.drop_last())
    } else {
        s
    }
}

/// The coefficient of `X^i`; zero outside the list.
pub open spec fn coef(p: Seq<nat>, i: int) -> int {
    if 0 <= i < p.len() {
        p[i] as int
    } else {
        0
    }
}

/// The coefficients of `p(X) * (X - e)` modulo the field order (the zero
/// polynomial stays zero).
pub open spec fn times_linear(p: Seq<nat>, e: nat) -> Seq<nat> {
    if p.len() == 0 {
        p
    } else {
        Seq::new(
            p.len() + 1,
            |i: int| ((coef(p, i - 1) - e * coef(p, i)) % (scalar_modulus() as int)) as nat,
        )
    }
}

/// `p(x)` modulo the field order, by Horner's rule from the constant term.
pub open spec fn horner(p: Seq<nat>, x: nat) -> nat
    decreases p.len(),
{
    if p.len() == 0 {
        0
    } else {
        (p[0] + x * horner(p.drop_first(), x)) % scalar_modulus()
    }
}

/// The quotient of `p(X)` by `X - c`: its coefficient of `X^i` is the value
/// at `c` of the part of `p` above `X^i`, divided by `X^(i+1)`.
pub open spec fn quotient(p: Seq<nat>, c: nat) -> Seq<nat> {
    if p.len() <= 1 {
        Seq::empty()
    } else {
        Seq::new((p.len() - 1) as nat, |i: int| horner(p.skip(i + 1), c))
    }
}

/// The product of the linear factors `X - s[i]`, in the order given.
pub open spec fn linear_product(s: Seq<nat>) -> Seq<nat>
    decreases s.len(),
{
    if s.len() == 0 {
        seq![1nat]
    } else {
        times_linear(linear_product(s.drop_last()), s.last())
    }
}

/// The coefficients `0, .., 0` (`k` of them) followed by `c * p`, modulo
/// the field order: `c * X^k * p(X)`, before trimming.
pub open spec fn shifted_scaled(p: Seq<nat>, c: nat, k: nat) -> Seq<nat> {
    Seq::new(k, |i: int| 0nat) + p.map_values(|x: nat| (x * c) % scalar_modulus())
}

/// A polynomial over the BLS12-381 scalar field.
pub struct Poly {
    coeffs: Vec<Scalar>,
}

impl View for Poly {
    type V = Seq<nat>;

    closed spec fn view(&self) -> Seq<nat> {
        scalar_views(self.coeffs@)
    }
}

impl Poly {
    /// The coefficients have no trailing zero.
    #[verifier::type_invariant]
    pub open spec fn well_formed(self) -> bool {
        trimmed(self@)
    }

    /// The zero polynomial.
    pub fn zero() -> (r: Poly)
        ensures
            r@ == Seq::<nat>::empty(),
    {
        let r = Poly { coeffs: Vec::new() };
        assert(r@ =~= Seq::<nat>::empty());
        r
    }

    /// The polynomial with the given coefficients, trailing zeros removed.
    pub fn from_coefficients_vec(coeffs: Vec<Scalar>) -> (r: Poly)
        ensures
            r@ == trim(scalar_views(coeffs@)),
    {
        let mut v = coeffs;
        let ghost orig = scalar_views(v@);
        while v.len() > 0 && v[v.len() - 1].is_zero()
            invariant
                trim(scalar_views(v@)) == trim(orig),
            decreases v.len(),
        {
            let ghost before = scalar_views(v@);
            v.pop();
            assert(scalar_views(v@) =~= before.drop_last());
        }
        let r = Poly { coeffs: v };
        proof {
            if scalar_views(v@).len() > 0 {
                assert(scalar_views(v@).last() == v@.last()@);
            }
        }
        r
    }

    /// The coefficients, constant term first.
    pub fn coeffs(&self) -> (r: &Vec<Scalar>)
        ensures
            scalar_views(r@) == self@,
    {
        &self.coeffs
    }

    /// The number of coefficients.
    pub fn len(&self) -> (r: usize)
        ensures
            r == self@.len(),
    {
        self.coeffs.len()
    }

    /// The two polynomials are equal.
    pub fn equals(&self, other: &Poly) -> (r: bool)
        ensures
            r == (self@ == other@),
    {
        if self.coeffs.len() != other.coeffs.len() {
            assert(self@.len() != other@.len());
            return false;
        }
        let mut i: usize = 0;
        while i < self.coeffs.len()
            invariant
                self.coeffs@.len() == other.coeffs@.len(),
                i <= self.coeffs@.len(),
                forall|j: int| 0 <= j < i ==> self@[j] == other@[j],
            decreases self.coeffs.len() - i,
        {
            if !self.coeffs[i].equals(&other.coeffs[i]) {
                assert(self@[i as int] != other@[i as int]);
                return false;
            }
            i = i + 1;
        }
        assert(self@ =~= other@);
        true
    }
}

impl Clone for Poly {
    fn clone(&self) -> (r: Self)
        ensures
            r@ == self@,
    {
        proof {
            use_type_invariant(self);
        }
        let mut v: Vec<Scalar> = Vec::new();
        let mut i: usize = 0;
        while i < self.coeffs.len()
            invariant
                i <= self.coeffs@.len(),
                scalar_views(v@) == scalar_views(self.coeffs@).take(i as int),
            decreases self.coeffs.len() - i,
        {
            let c = self.coeffs[i].clone();
            let ghost before = v@;
            v.push(c);
            assert(v@ == before.push(c));
            assert(scalar_views(v@) =~= scalar_views(before).push(c@));
            assert(scalar_views(self.coeffs@).take(i as int + 1) =~= scalar_views(
                self.coeffs@,
            ).take(i as int).push(self.coeffs@[i as int]@));
            i = i + 1;
        }
        assert(scalar_views(self.coeffs@).take(i as int) =~= scalar_views(self.coeffs@));
        Poly { coeffs: v }
    }
}


/// `(a - b mod m) mod m == (a - b) mod m`.
proof fn lemma_sub_reduced(a: int, b: int, m: int)
    requires
        m > 0,
    ensures
        (a - b % m) % m == (a - b) % m,
{
    lemma_fundamental_div_mod(b, m);
    let q = b / m;
    assert(a - b % m == m * q + (a - b)) by (nonlinear_arith)
        requires
            b == m * q + b % m,
    ;
    lemma_mod_multiples_vanish(q, a - b, m);
}

/// Horner's rule on a sequence whose first entry is `x`.
proof fn lemma_horner_step(p: Seq<nat>, i: int, c: nat)
    requires
        0 <= i < p.len(),
    ensures
        horner(p.skip(i), c) == (p[i] + c * horner(p.skip(i + 1), c)) % scalar_modulus(),
{
    assert(p.skip(i).drop_first() =~= p.skip(i + 1));
    assert(p.skip(i)[0] == p[i]);
}

impl Poly {
    /// `self(X) * (X - e)`.
    pub fn mul_linear(&self, e: &Scalar) -> (r: Poly)
        requires
            self@.len() < usize::MAX,
        ensures
            r@ == times_linear(self@, e@),
    {
        proof {
            use_type_invariant(self);
            use_type_invariant(e);
        }
        let n = self.coeffs.len();
        if n == 0 {
            return Poly::zero();
        }
        let ghost p = self@;
        let ghost m = scalar_modulus() as int;
        let mut out: Vec<Scalar> = Vec::new();
        let mut i: usize = 0;
        while i <= n
            invariant
                n == self.coeffs@.len(),
                n < usize::MAX,
                p == self@,
                m == scalar_modulus() as int,
                n > 0,
                i <= n + 1,
                scalar_views(out@) == times_linear(p, e@).take(i as int),
            decreases n + 1 - i,
        {
            let prev = if i == 0 {
                Scalar::zero()
            } else {
                self.coeffs[i - 1].clone()
            };
            let cur = if i < n {
                self.coeffs[i].clone()
            } else {
                Scalar::zero()
            };
            let ec = e.mul(&cur);
            let x = prev.sub(&ec);
            proof {
                assert(prev@ == coef(p, i - 1));
                assert(cur@ == coef(p, i as int));
                lemma_sub_reduced(prev@ as int, (e@ * cur@) as int, m);
                assert(x@ == times_linear(p, e@)[i as int]);
            }
            let ghost before = out@;
            out.push(x);
            assert(scalar_views(out@) =~= scalar_views(before).push(x@));
            assert(times_linear(p, e@).take(i as int + 1) =~= times_linear(p, e@).take(
                i as int,
            ).push(times_linear(p, e@)[i as int]));
            i = i + 1;
        }
        let last = &self.coeffs[n - 1];
        proof {
            use_type_invariant(last);
            assert(times_linear(p, e@).take(i as int) =~= times_linear(p, e@));
            let t = times_linear(p, e@);
            assert(t.last() == t[n as int]);
            assert(coef(p, n as int) == 0);
            lemma_small_mod(p[n - 1], scalar_modulus());
        }
        Poly { coeffs: out }
    }

    /// Division by `X - c`: the quotient and the remainder `self(c)`.
    pub fn syn_div(&self, c: &Scalar) -> (r: (Poly, Scalar))
        ensures
            r.0@ == quotient(self@, c@),
            r.1@ == horner(self@, c@),
    {
        proof {
            use_type_invariant(self);
            use_type_invariant(c);
        }
        let n = self.coeffs.len();
        let ghost p = self@;
        if n <= 1 {
            let rem = if n == 1 {
                self.coeffs[0].clone()
            } else {
                Scalar::zero()
            };
            proof {
                use_type_invariant(&rem);
                if n == 1 {
                    assert(p.drop_first() =~= Seq::<nat>::empty());
                    assert(horner(p.drop_first(), c@) == 0);
                    lemma_small_mod(p[0], scalar_modulus());
                } else {
                    assert(horner(p, c@) == 0);
                }
            }
            return (Poly::zero(), rem);
        }
        let mut q: Vec<Scalar> = Vec::new();
        let mut k: usize = 0;
        while k < n - 1
            invariant
                k <= n - 1,
                q@.len() == k,
            decreases n - 1 - k,
        {
            q.push(Scalar::zero());
            k = k + 1;
        }
        let top = self.coeffs[n - 1].clone();
        proof {
            use_type_invariant(&top);
            let s = p.skip(n - 1);
            assert(s.drop_first() =~= Seq::<nat>::empty());
            assert(horner(s.drop_first(), c@) == 0);
            let h = horner(s.drop_first(), c@);
            assert(c@ * h == 0) by (nonlinear_arith)
                requires
                    h == 0,
            ;
            assert(s[0] == p[n - 1]);
            lemma_small_mod(p[n - 1], scalar_modulus());
            assert(horner(s, c@) == p[n - 1]);
        }
        q.set(n - 2, top);
        let mut i: usize = n - 2;
        while i > 0
            invariant
                n >= 2,
                n == self.coeffs@.len(),
                p == self@,
                i <= n - 2,
                q@.len() == n - 1,
                forall|j: int| i <= j < n - 1 ==> #[trigger] q@[j]@ == horner(p.skip(j + 1), c@),
            decreases i,
        {
            let t = c.mul(&q[i]);
            let v = self.coeffs[i].add(&t);
            proof {
                lemma_add_mod_noop_right(p[i as int] as int, (c@ * q@[i as int]@) as int, scalar_modulus() as int);
                lemma_horner_step(p, i as int, c@);
                assert(v@ == horner(p.skip(i as int), c@));
            }
            q.set(i - 1, v);
            i = i - 1;
        }
        let t = c.mul(&q[0]);
        let rem = self.coeffs[0].add(&t);
        proof {
            lemma_add_mod_noop_right(p[0] as int, (c@ * q@[0]@) as int, scalar_modulus() as int);
            lemma_horner_step(p, 0, c@);
            assert(p.skip(0) =~= p);
        }
        proof {
            assert(scalar_views(q@).last() == q@[n - 2]@);
            assert(p.last() == p[n - 1]);
        }
        let r = Poly { coeffs: q };
        proof {
            assert(r@ =~= quotient(p, c@));
        }
        (r, rem)
    }
}


impl Poly {
    /// The constant polynomial one.
    pub fn one() -> (r: Poly)
        ensures
            r@ == seq![1nat],
    {
        let mut v: Vec<Scalar> = Vec::new();
        v.push(Scalar::one());
        let r = Poly { coeffs: v };
        assert(r@ =~= seq![1nat]);
        r
    }

    /// `c * X^k * self(X)`.
    pub fn shift_scale(&self, c: &Scalar, k: usize) -> (r: Poly)
        requires
            k + self@.len() <= usize::MAX,
        ensures
            r@ == trim(shifted_scaled(self@, c@, k as nat)),
    {
        let mut v: Vec<Scalar> = Vec::new();
        let mut i: usize = 0;
        while i < k
            invariant
                i <= k,
                v@.len() == i,
                scalar_views(v@) == Seq::new(i as nat, |j: int| 0nat),
            decreases k - i,
        {
            let ghost before = v@;
            let z = Scalar::zero();
            v.push(z);
            assert(scalar_views(v@) =~= scalar_views(before).push(z@));
            assert(scalar_views(v@) =~= Seq::new(i as nat + 1, |j: int| 0nat));
            i = i + 1;
        }
        let ghost zeros = scalar_views(v@);
        let mut j: usize = 0;
        while j < self.coeffs.len()
            invariant
                j <= self.coeffs@.len(),
                v@.len() == k + j,
                zeros == Seq::new(k as nat, |i: int| 0nat),
                scalar_views(v@) == zeros + self@.take(j as int).map_values(
                    |x: nat| (x * c@) % scalar_modulus(),
                ),
            decreases self.coeffs.len() - j,
        {
            let x = self.coeffs[j].mul(c);
            let ghost before = v@;
            v.push(x);
            proof {
                assert(scalar_views(v@) =~= scalar_views(before).push(x@));
                assert(self@.take(j as int + 1) =~= self@.take(j as int).push(self@[j as int]));
                assert(self@.take(j as int + 1).map_values(|x: nat| (x * c@) % scalar_modulus())
                    =~= self@.take(j as int).map_values(|x: nat| (x * c@) % scalar_modulus()).push(
                    (self@[j as int] * c@) % scalar_modulus(),
                ));
                assert(scalar_views(v@) =~= zeros + self@.take(j as int + 1).map_values(
                    |x: nat| (x * c@) % scalar_modulus(),
                ));
            }
            j = j + 1;
        }
        proof {
            assert(self@.take(j as int) =~= self@);
        }
        Poly::from_coefficients_vec(v)
    }

    /// The product of the linear factors `X - e` for the given `e`, in order.
    pub fn linear_factors_product(elements: &Vec<Scalar>) -> (r: Poly)
        requires
            elements@.len() < usize::MAX - 1,
        ensures
            r@ == linear_product(scalar_views(elements@)),
    {
        let mut acc = Poly::one();
        let mut i: usize = 0;
        while i < elements.len()
            invariant
                i <= elements@.len(),
                elements@.len() < usize::MAX - 1,
                acc@ == linear_product(scalar_views(elements@).take(i as int)),
                acc@.len() <= i + 1,
            decreases elements.len() - i,
        {
            proof {
                let s = scalar_views(elements@).take(i as int + 1);
                assert(s.drop_last() =~= scalar_views(elements@).take(i as int));
                assert(s.last() == elements@[i as int]@);
            }
            acc = acc.mul_linear(&elements[i]);
            i = i + 1;
        }
        proof {
            assert(scalar_views(elements@).take(i as int) =~= scalar_views(elements@));
        }
        acc
    }
}

/// `((a mod m) + b) mod m == (a + b) mod m`.
proof fn lemma_add_reduced_left(a: int, b: int, m: int)
    requires
        m > 0,
    ensures
        ((a % m) + b) % m == (a + b) % m,
{
    lemma_add_mod_noop_right(b, a, m);
}

/// Division undoes multiplication by a linear factor, from the top:
/// the quotient coefficient of `X^j` of `p(X) * (X - e)` by `X - e` is
/// `p[j]`.
proof fn lemma_quotient_of_product_at(p: Seq<nat>, e: nat, j: int)
    requires
        p.len() > 0,
        forall|i: int| 0 <= i < p.len() ==> #[trigger] p[i] < scalar_modulus(),
        0 <= j < p.len(),
    ensures
        horner(times_linear(p, e).skip(j + 1), e) == p[j],
    decreases p.len() - j,
{
    let t = times_linear(p, e);
    let m = scalar_modulus() as int;
    let n = p.len() as int;
    if j == n - 1 {
        let s = t.skip(j + 1);
        assert(s.drop_first() =~= Seq::<nat>::empty());
        assert(horner(s.drop_first(), e) == 0);
        assert(e * coef(p, n) == 0);
        lemma_small_mod(p[j], scalar_modulus());
        assert(s[0] == t[n]);
        let h = horner(s.drop_first(), e);
        assert(e * h == 0) by (nonlinear_arith)
            requires
                h == 0,
        ;
    } else {
        lemma_quotient_of_product_at(p, e, j + 1);
        lemma_horner_step(t, j + 1, e);
        let a = coef(p, j) - e * coef(p, j + 1);
        assert(t[j + 1] == (a % m) as nat);
        lemma_add_reduced_left(a, (e * p[j + 1]) as int, m);
        assert(a + e * p[j + 1] == p[j]);
        lemma_small_mod(p[j], scalar_modulus());
    }
}

/// Dividing `p(X) * (X - e)` by `X - e` gives `p` back with remainder zero.
pub proof fn lemma_divide_after_multiply(p: Seq<nat>, e: nat)
    requires
        forall|i: int| 0 <= i < p.len() ==> #[trigger] p[i] < scalar_modulus(),
    ensures
        quotient(times_linear(p, e), e) == p,
        horner(times_linear(p, e), e) == 0,
{
    let t = times_linear(p, e);
    let m = scalar_modulus() as int;
    if p.len() == 0 {
        assert(quotient(t, e) =~= p);
    } else {
        assert forall|j: int| 0 <= j < p.len() implies #[trigger] quotient(t, e)[j] == p[j] by {
            lemma_quotient_of_product_at(p, e, j);
        }
        assert(quotient(t, e) =~= p);
        lemma_quotient_of_product_at(p, e, 0);
        lemma_horner_step(t, 0, e);
        assert(t.skip(0) =~= t);
        let a = coef(p, -1) - e * coef(p, 0);
        lemma_add_reduced_left(a, (e * p[0]) as int, m);
        assert(a + e * p[0] == 0);
    }
}


/// Trimming never lengthens.
pub proof fn lemma_trim_len(s: Seq<nat>)
    ensures
        trim(s).len() <= s.len(),
        trimmed(trim(s)),
    decreases s.len(),
{
    if s.len() > 0 && s.last() == 0 {
        lemma_trim_len(s.drop_last());
    }
}


/// Every coefficient is below the field order.
pub open spec fn reduced_coeffs(p: Seq<nat>) -> bool {
    forall|i: int| 0 <= i < p.len() ==> #[trigger] p[i] < scalar_modulus()
}

/// The coefficients of `p(X) * (X - e)` are below the field order.
pub proof fn lemma_times_linear_reduced(p: Seq<nat>, e: nat)
    requires
        reduced_coeffs(p),
    ensures
        reduced_coeffs(times_linear(p, e)),
        times_linear(p, e).len() == if p.len() == 0 { 0 } else { p.len() + 1 },
{
}

/// The coefficient of `X^k` of `p(X) * (X - a)`, modulo the field order.
proof fn lemma_coef_times_linear(p: Seq<nat>, a: nat, k: int)
    requires
        p.len() > 0,
    ensures
        coef(times_linear(p, a), k) == (if 0 <= k <= p.len() {
            (coef(p, k - 1) - a * coef(p, k)) % (scalar_modulus() as int)
        } else {
            0
        }),
{
}

/// `((x mod m) - b * (y mod m)) mod m == (x - b * y) mod m`.
proof fn lemma_sub_mul_reduced(x: int, y: int, b: int, m: int)
    requires
        m > 0,
    ensures
        ((x % m) - b * (y % m)) % m == (x - b * y) % m,
{
    lemma_mul_mod_noop_right(b, y, m);
    lemma_sub_reduced(x % m, b * (y % m), m);
    lemma_sub_reduced(x % m, b * y, m);
    lemma_add_reduced_left(x, -(b * y), m);
    assert((x % m) - b * y == (x % m) + (-(b * y)));
}

/// Multiplying by two linear factors in either order gives one product.
pub proof fn lemma_times_linear_commute(p: Seq<nat>, a: nat, b: nat)
    ensures
        times_linear(times_linear(p, a), b) == times_linear(times_linear(p, b), a),
{
    let m = scalar_modulus() as int;
    if p.len() > 0 {
        let ta = times_linear(p, a);
        let tb = times_linear(p, b);
        let l = times_linear(ta, b);
        let r = times_linear(tb, a);
        assert forall|k: int| 0 <= k < l.len() implies #[trigger] l[k] == r[k] by {
            lemma_coef_times_linear(p, a, k - 1);
            lemma_coef_times_linear(p, a, k);
            lemma_coef_times_linear(p, b, k - 1);
            lemma_coef_times_linear(p, b, k);
            let x2 = coef(p, k - 2);
            let x1 = coef(p, k - 1);
            let x0 = coef(p, k);
            if 0 <= k - 1 && k <= p.len() {
                lemma_sub_mul_reduced(x2 - a * x1, x1 - a * x0, b as int, m);
                lemma_sub_mul_reduced(x2 - b * x1, x1 - b * x0, a as int, m);
            } else if k == 0 {
                assert(coef(ta, -1) == 0 && coef(tb, -1) == 0);
                assert(coef(ta, 0) == (0 - a * x0) % m);
                assert(coef(tb, 0) == (0 - b * x0) % m);
                lemma_sub_mul_reduced(0, 0 - a * x0, b as int, m);
                lemma_sub_mul_reduced(0, 0 - b * x0, a as int, m);
                assert(0 - b * (0 - a * x0) == 0 - a * (0 - b * x0)) by (nonlinear_arith);
            } else {
                assert(k == p.len() + 1);
                assert(coef(ta, k) == 0 && coef(tb, k) == 0);
                assert(x1 == 0);
                assert(a * x1 == 0 && b * x1 == 0) by (nonlinear_arith)
                    requires
                        x1 == 0,
                ;
                let ya = coef(ta, k - 1);
                let yb = coef(tb, k - 1);
                assert(ya == x2 % m && yb == x2 % m);
                assert(b * coef(ta, k) == 0 && a * coef(tb, k) == 0) by (nonlinear_arith)
                    requires
                        coef(ta, k) == 0,
                        coef(tb, k) == 0,
                ;
            }
            if 0 <= k - 1 && k <= p.len() {
                assert(x2 - a * x1 - b * (x1 - a * x0) == x2 - b * x1 - a * (x1 - b * x0))
                    by (nonlinear_arith);
            }
        }
        assert(l =~= r);
    }
}

/// The coefficients of a product of linear factors are below the field
/// order, and there is one more than factors.
pub proof fn lemma_linear_product_shape(s: Seq<nat>)
    ensures
        reduced_coeffs(linear_product(s)),
        linear_product(s).len() == s.len() + 1,
    decreases s.len(),
{
    if s.len() > 0 {
        lemma_linear_product_shape(s.drop_last());
        lemma_times_linear_reduced(linear_product(s.drop_last()), s.last());
    }
}

/// A product of linear factors is the product of the others times the
/// factor of any one entry.
pub proof fn lemma_linear_product_factor(s: Seq<nat>, i: int)
    requires
        0 <= i < s.len(),
    ensures
        linear_product(s) == times_linear(linear_product(s.remove(i)), s[i]),
    decreases s.len(),
{
    if i == s.len() - 1 {
        assert(s.remove(i) =~= s.drop_last());
    } else {
        let d = s.drop_last();
        lemma_linear_product_factor(d, i);
        assert(s.remove(i).drop_last() =~= d.remove(i));
        assert(s.remove(i).last() == s.last());
        lemma_times_linear_commute(linear_product(d.remove(i)), s[i], s.last());
    }
}

/// Dividing a product of linear factors by the factor of one entry
/// leaves the product of the others, with remainder zero.
pub proof fn lemma_divide_linear_product(s: Seq<nat>, i: int)
    requires
        0 <= i < s.len(),
    ensures
        quotient(linear_product(s), s[i]) == linear_product(s.remove(i)),
        horner(linear_product(s), s[i]) == 0,
{
    lemma_linear_product_factor(s, i);
    lemma_linear_product_shape(s.remove(i));
    lemma_divide_after_multiply(linear_product(s.remove(i)), s[i]);
}

} // verus!

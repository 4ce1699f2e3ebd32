//! Exact rationals held as sign and base-2^32 limbs, with arithmetic done by `num`.

use vstd::prelude::*;
use num::bigint::Sign;
use num::ToPrimitive;
use num::{BigInt, BigRational};

verus! {

#[verifier::external_type_specification]
#[verifier::external_body]
pub struct ExBigInt(num::BigInt);

#[verifier::external_type_specification]
#[verifier::external_body]
#[verifier::reject_recursive_types(T)]
pub struct ExRatio<T>(num::rational::Ratio<T>);

/// Value of little-endian base-2^32 limbs.
pub open spec fn limbs_value(s: Seq<u32>) -> nat
    decreases s.len(),
{
    if s.len() == 0 {
        0
    } else {
        s[0] as nat + 4294967296 * limbs_value(s.drop_first())
    }
}

/// No most significant zero limb.
pub open spec fn limbs_canonical(s: Seq<u32>) -> bool {
    s.len() == 0 || s.last() != 0
}

pub open spec fn abs(x: int) -> int {
    if x < 0 { -x } else { x }
}

pub open spec fn gcd(a: nat, b: nat) -> nat
    decreases b,
{
    if b == 0 { a } else { gcd(b, a % b) }
}

/// A fraction `(numerator, denominator)` in lowest terms with a positive denominator.
pub open spec fn is_reduced(x: (int, int)) -> bool {
    x.1 > 0 && gcd(abs(x.0) as nat, x.1 as nat) == 1
}

/// The lowest-terms form of `n / d` (for `d != 0`).
pub open spec fn normalize(n: int, d: int) -> (int, int) {
    let g = gcd(abs(n) as nat, abs(d) as nat) as int;
    if d < 0 { (-n / g, -d / g) } else { (n / g, d / g) }
}

pub open spec fn rat_add(x: (int, int), y: (int, int)) -> (int, int) {
    normalize(x.0 * y.1 + y.0 * x.1, x.1 * y.1)
}

pub open spec fn rat_sub(x: (int, int), y: (int, int)) -> (int, int) {
    normalize(x.0 * y.1 - y.0 * x.1, x.1 * y.1)
}

pub open spec fn rat_mul(x: (int, int), y: (int, int)) -> (int, int) {
    normalize(x.0 * y.0, x.1 * y.1)
}

pub open spec fn rat_div(x: (int, int), y: (int, int)) -> (int, int) {
    normalize(x.0 * y.1, x.1 * y.0)
}

/// Integer division rounding toward zero.
pub open spec fn tdiv(a: int, b: int) -> int {
    if (a < 0) == (b < 0) { abs(a) / abs(b) } else { -(abs(a) / abs(b)) }
}

/// Remainder of `tdiv`: it takes the sign of `a`.
pub open spec fn tmod(a: int, b: int) -> int {
    a - b * tdiv(a, b)
}

/// Remainder of `x / y` truncated toward zero: `x - y * trunc(x / y)`.
pub open spec fn rat_rem(x: (int, int), y: (int, int)) -> (int, int) {
    normalize(tmod(x.0 * y.1, y.0 * x.1), x.1 * y.1)
}

/// `x` and `y` denote the same rational.
pub open spec fn same_value(x: (int, int), y: (int, int)) -> bool {
    x.0 * y.1 == y.0 * x.1
}

pub open spec fn rat_floor(x: (int, int)) -> (int, int) {
    (x.0 / x.1, 1)
}

pub open spec fn rat_ceil(x: (int, int)) -> (int, int) {
    (-((-x.0) / x.1), 1)
}

pub open spec fn rat_trunc(x: (int, int)) -> (int, int) {
    (tdiv(x.0, x.1), 1)
}

/// Nearest integer, halves rounded away from zero.
pub open spec fn rat_round(x: (int, int)) -> (int, int) {
    let t = tdiv(x.0, x.1);
    if 2 * abs(tmod(x.0, x.1)) >= x.1 {
        (if x.0 >= 0 { t + 1 } else { t - 1 }, 1)
    } else {
        (t, 1)
    }
}

pub open spec fn rat_fract(x: (int, int)) -> (int, int) {
    normalize(tmod(x.0, x.1), x.1)
}

pub open spec fn rat_abs(x: (int, int)) -> (int, int) {
    (abs(x.0), x.1)
}

pub open spec fn fits_i64(v: int) -> bool {
    i64::MIN <= v <= i64::MAX
}

/// An exact rational number.
#[derive(Debug, PartialEq, Eq)]
pub struct Rational {
    negative: bool,
    numer: Vec<u32>,
    denom: Vec<u32>,
}

impl View for Rational {
    type V = (int, int);

    closed spec fn view(&self) -> (int, int) {
        let m = limbs_value(self.numer@) as int;
        (if self.negative { -m } else { m }, limbs_value(self.denom@) as int)
    }
}

proof fn lemma_canonical_nonzero(s: Seq<u32>)
    requires
        limbs_canonical(s),
    ensures
        (limbs_value(s) == 0) == (s.len() == 0),
    decreases s.len(),
{
    if s.len() > 1 {
        assert(s.drop_first().last() == s.last());
        lemma_canonical_nonzero(s.drop_first());
    }
}

proof fn lemma_gcd_one(a: nat)
    ensures
        gcd(a, 1) == 1,
{
    assert(a % 1 == 0);
    reveal_with_fuel(gcd, 3);
}

impl Rational {
    /// Sign and limbs in canonical form, in lowest terms.
    pub closed spec fn wf(&self) -> bool {
        &&& limbs_canonical(self.numer@)
        &&& limbs_canonical(self.denom@)
        &&& !(self.negative && self.numer@.len() == 0)
        &&& is_reduced(self@)
    }

    pub proof fn lemma_wf(&self)
        requires
            self.wf(),
        ensures
            is_reduced(self@),
    {
    }

    pub fn is_zero(&self) -> (r: bool)
        requires
            self.wf(),
        ensures
            r == (self@.0 == 0),
    {
        proof {
            lemma_canonical_nonzero(self.numer@);
        }
        self.numer.len() == 0
    }

    /// The numerator, where it fits in an `i64`.
    pub fn numer_i64(&self) -> (r: Option<i64>)
        requires
            self.wf(),
        ensures
            r == (if fits_i64(self@.0) { Some(self@.0 as i64) } else { None::<i64> }),
    {
        limbs_to_i64(self.negative, &self.numer)
    }

    /// The denominator, where it fits in an `i64`.
    pub fn denom_i64(&self) -> (r: Option<i64>)
        requires
            self.wf(),
        ensures
            r == (if fits_i64(self@.1) { Some(self@.1 as i64) } else { None::<i64> }),
    {
        limbs_to_i64(false, &self.denom)
    }

    /// The fraction `n / d` in lowest terms.
    pub fn from_ratio(n: i64, d: i64) -> (r: Rational)
        requires
            d != 0,
        ensures
            r.wf(),
            r@ == normalize(n as int, d as int),
    {
        ratio_new(n, d)
    }

    pub fn from_integer(n: i64) -> (r: Rational)
        ensures
            r.wf(),
            r@ == (n as int, 1int),
    {
        let r = ratio_new(n, 1);
        proof {
            lemma_gcd_one(abs(n as int) as nat);
        }
        r
    }

    /// Whether the value is below zero.
    pub fn is_negative(&self) -> (r: bool)
        requires
            self.wf(),
        ensures
            r == (self@.0 < 0),
    {
        proof {
            lemma_canonical_nonzero(self.numer@);
        }
        self.negative
    }

    /// The magnitude of the numerator, as base-2^32 limbs, least significant first.
    pub fn numer_limbs(&self) -> (r: &Vec<u32>)
        ensures
            limbs_value(r@) == abs(self@.0),
    {
        &self.numer
    }

    /// The denominator, as base-2^32 limbs, least significant first.
    pub fn denom_limbs(&self) -> (r: &Vec<u32>)
        ensures
            limbs_value(r@) == self@.1,
    {
        &self.denom
    }

    pub fn duplicate(&self) -> (r: Rational)
        ensures
            r@ == self@,
            r.wf() == self.wf(),
    {
        let r = Rational {
            negative: self.negative,
            numer: self.numer.clone(),
            denom: self.denom.clone(),
        };
        proof {
            assert(r.numer@ == self.numer@);
            assert(r.denom@ == self.denom@);
        }
        r
    }
}

/// Relies on `BigInt::from_slice` and `Ratio::new_raw`: builds the same fraction from the
/// sign and limbs, least significant limb first.
#[verifier::external_body]
fn to_big(a: &Rational) -> BigRational {
    let sign = if a.negative { Sign::Minus } else { Sign::Plus };
    BigRational::new_raw(BigInt::from_slice(sign, &a.numer), BigInt::from_slice(Sign::Plus, &a.denom))
}

/// Relies on `BigInt::to_u32_digits`: the sign and the limbs, least significant first, with
/// no high zero limb.
#[verifier::external_body]
pub(crate) fn from_big(b: &BigRational) -> Rational {
    let (sign, numer) = b.numer().to_u32_digits();
    Rational { negative: sign == Sign::Minus, numer, denom: b.denom().to_u32_digits().1 }
}

/// Relies on `ToPrimitive::to_i64` for `BigInt`: `None` exactly when the value is out of range.
#[verifier::external_body]
fn limbs_to_i64(negative: bool, limbs: &Vec<u32>) -> (r: Option<i64>)
    ensures
        ({
            let m = limbs_value(limbs@) as int;
            let v = if negative { -m } else { m };
            r == (if fits_i64(v) { Some(v as i64) } else { None::<i64> })
        }),
{
    let sign = if negative { Sign::Minus } else { Sign::Plus };
    BigInt::from_slice(sign, limbs).to_i64()
}

/// Relies on `Ratio::new` for `BigInt`: it reduces to lowest terms with a positive denominator.
#[verifier::external_body]
fn ratio_new(n: i64, d: i64) -> (r: Rational)
    requires
        d != 0,
    ensures
        r.wf(),
        r@ == normalize(n as int, d as int),
{
    from_big(&BigRational::new(BigInt::from(n), BigInt::from(d)))
}

/// Relies on `Add` for `Ratio<BigInt>`: the exact sum in lowest terms.
#[verifier::external_body]
pub(crate) fn add_exact(a: &Rational, b: &Rational) -> (r: Rational)
    requires
        a.wf(),
        b.wf(),
    ensures
        r.wf(),
        r@ == rat_add(a@, b@),
{
    from_big(&(to_big(a) + to_big(b)))
}

/// Relies on `Sub` for `Ratio<BigInt>`: the exact difference in lowest terms.
#[verifier::external_body]
pub(crate) fn sub_exact(a: &Rational, b: &Rational) -> (r: Rational)
    requires
        a.wf(),
        b.wf(),
    ensures
        r.wf(),
        r@ == rat_sub(a@, b@),
{
    from_big(&(to_big(a) - to_big(b)))
}

/// Relies on `Mul` for `Ratio<BigInt>`: the exact product in lowest terms.
#[verifier::external_body]
pub(crate) fn mul_exact(a: &Rational, b: &Rational) -> (r: Rational)
    requires
        a.wf(),
        b.wf(),
    ensures
        r.wf(),
        r@ == rat_mul(a@, b@),
{
    from_big(&(to_big(a) * to_big(b)))
}

/// Relies on `Div` for `Ratio<BigInt>`: the exact quotient in lowest terms; it panics on a zero divisor.
#[verifier::external_body]
pub(crate) fn div_exact(a: &Rational, b: &Rational) -> (r: Rational)
    requires
        a.wf(),
        b.wf(),
        b@.0 != 0,
    ensures
        r.wf(),
        r@ == rat_div(a@, b@),
{
    from_big(&(to_big(a) / to_big(b)))
}

/// Relies on `Rem` for `Ratio<BigInt>`: over the common denominator, the numerators'
/// remainder truncated toward zero, in lowest terms; it panics on a zero divisor.
#[verifier::external_body]
pub(crate) fn rem_exact(a: &Rational, b: &Rational) -> (r: Rational)
    requires
        a.wf(),
        b.wf(),
        b@.0 != 0,
    ensures
        r.wf(),
        r@ == rat_rem(a@, b@),
{
    from_big(&(to_big(a) % to_big(b)))
}

/// Relies on `PartialEq` for `Ratio<BigInt>`: it compares the values exactly.
#[verifier::external_body]
pub(crate) fn eq_exact(a: &Rational, b: &Rational) -> (r: bool)
    requires
        a.wf(),
        b.wf(),
    ensures
        r == same_value(a@, b@),
{
    to_big(a) == to_big(b)
}

/// Relies on `Ratio::is_integer`: the denominator is one.
#[verifier::external_body]
pub(crate) fn is_integer(a: &Rational) -> (r: bool)
    requires
        a.wf(),
    ensures
        r == (a@.1 == 1),
{
    to_big(a).is_integer()
}

/// Relies on `Ratio::floor`: rounds toward minus infinity.
#[verifier::external_body]
pub(crate) fn floor_exact(a: &Rational) -> (r: Rational)
    requires
        a.wf(),
    ensures
        r.wf(),
        r@ == rat_floor(a@),
{
    from_big(&to_big(a).floor())
}

/// Relies on `Ratio::ceil`: rounds toward plus infinity.
#[verifier::external_body]
pub(crate) fn ceil_exact(a: &Rational) -> (r: Rational)
    requires
        a.wf(),
    ensures
        r.wf(),
        r@ == rat_ceil(a@),
{
    from_big(&to_big(a).ceil())
}

/// Relies on `Ratio::round`: nearest integer, halves away from zero.
#[verifier::external_body]
pub(crate) fn round_exact(a: &Rational) -> (r: Rational)
    requires
        a.wf(),
    ensures
        r.wf(),
        r@ == rat_round(a@),
{
    from_big(&to_big(a).round())
}

/// Relies on `Ratio::trunc`: rounds toward zero.
#[verifier::external_body]
pub(crate) fn trunc_exact(a: &Rational) -> (r: Rational)
    requires
        a.wf(),
    ensures
        r.wf(),
        r@ == rat_trunc(a@),
{
    from_big(&to_big(a).trunc())
}

/// Relies on `Ratio::fract`: the value minus its truncation.
#[verifier::external_body]
pub(crate) fn fract_exact(a: &Rational) -> (r: Rational)
    requires
        a.wf(),
    ensures
        r.wf(),
        r@ == rat_fract(a@),
{
    from_big(&to_big(a).fract())
}

/// Relies on `Signed::abs` for `Ratio<BigInt>`: the absolute value.
#[verifier::external_body]
pub(crate) fn abs_exact(a: &Rational) -> (r: Rational)
    requires
        a.wf(),
    ensures
        r.wf(),
        r@ == rat_abs(a@),
{
    from_big(&num::Signed::abs(&to_big(a)))
}

} // verus!

//! Fixed-point numbers and parts per billion.
//!
//! The numbers are held as plain integers. What is computed on them beyond
//! addition, subtraction and comparison is left to `sp_arithmetic`; the
//! functions that call it state what they get back.

use sp_arithmetic::FixedPointNumber;
use vstd::prelude::*;

verus! {

/// The number of parts into which one is divided, both by [`FixedU64`] and by [`Perbill`].
pub const BILLION: u64 = 1_000_000_000;

/// `n / d`, rounded to the nearest integer, and down where two integers are equally near.
pub open spec fn nearest(n: int, d: int) -> int {
    if 2 * (n % d) > d {
        n / d + 1
    } else {
        n / d
    }
}

/// `x`, or the largest `u64` where `x` is larger than that.
pub open spec fn saturate(x: int) -> int {
    if x > u64::MAX {
        u64::MAX as int
    } else {
        x
    }
}

/// The smaller of two integers.
pub open spec fn smaller(x: int, y: int) -> int {
    if x <= y {
        x
    } else {
        y
    }
}

/// The larger of two integers.
pub open spec fn larger(x: int, y: int) -> int {
    if x >= y {
        x
    } else {
        y
    }
}

/// `x - y`, or zero where `y` is larger.
pub open spec fn monus(x: int, y: int) -> int {
    if x >= y {
        x - y
    } else {
        0
    }
}

/// A number of billionths, from zero to about eighteen billion.
#[derive(Clone, Copy, Debug, PartialEq, Eq)]
pub struct FixedU64 {
    /// The number of billionths.
    pub inner: u64,
}

impl FixedU64 {
    /// One.
    pub fn one() -> (r: FixedU64)
        ensures
            r.inner == BILLION,
    {
        FixedU64 { inner: BILLION }
    }

    /// The sum, capped at the largest number that can be held.
    pub fn saturating_add(self, rhs: FixedU64) -> (r: FixedU64)
        ensures
            r.inner == saturate(self.inner + rhs.inner),
    {
        FixedU64 { inner: self.inner.saturating_add(rhs.inner) }
    }

    /// The difference, or zero where `rhs` is the larger.
    pub fn saturating_sub(self, rhs: FixedU64) -> (r: FixedU64)
        ensures
            r.inner == monus(self.inner as int, rhs.inner as int),
    {
        FixedU64 { inner: self.inner.saturating_sub(rhs.inner) }
    }

    /// The number nearest to the fraction `a / b`.
    ///
    /// Calls `sp_arithmetic::FixedU64::from_rational`, which rounds to the
    /// nearest billionth, prefers the lower of two that are equally near, and
    /// panics where `b` is zero or the result does not fit.
    #[verifier::external_body]
    pub(crate) fn from_rational(a: u64, b: u64) -> (r: FixedU64)
        requires
            b > 0,
            nearest(a * BILLION, b as int) <= u64::MAX,
        ensures
            r.inner == nearest(a * BILLION, b as int),
    {
        FixedU64 { inner: sp_arithmetic::FixedU64::from_rational(a as u128, b as u128).into_inner() }
    }

    /// The fraction `n / d`, rounded down and capped.
    ///
    /// Calls `FixedPointNumber::saturating_from_rational` of `sp_arithmetic`,
    /// which panics where `d` is zero.
    #[verifier::external_body]
    pub(crate) fn saturating_from_rational(n: u64, d: u64) -> (r: FixedU64)
        requires
            d > 0,
        ensures
            r.inner == saturate((n * BILLION) / d as int),
    {
        FixedU64 { inner: sp_arithmetic::FixedU64::saturating_from_rational(n, d).into_inner() }
    }

    /// The integer `n`, capped.
    ///
    /// Calls `FixedPointNumber::saturating_from_integer` of `sp_arithmetic`.
    #[verifier::external_body]
    pub(crate) fn saturating_from_integer(n: u64) -> (r: FixedU64)
        ensures
            r.inner == saturate(n * BILLION),
    {
        FixedU64 { inner: sp_arithmetic::FixedU64::saturating_from_integer(n).into_inner() }
    }

    /// The product, rounded down to a billionth and capped.
    ///
    /// Calls `saturating_mul` of the trait `Saturating` of `sp_arithmetic`.
    #[verifier::external_body]
    pub(crate) fn saturating_mul(self, rhs: FixedU64) -> (r: FixedU64)
        ensures
            r.inner == saturate((self.inner * rhs.inner) / BILLION as int),
    {
        let a = sp_arithmetic::FixedU64::from_inner(self.inner);
        let b = sp_arithmetic::FixedU64::from_inner(rhs.inner);
        FixedU64 { inner: sp_arithmetic::traits::Saturating::saturating_mul(a, b).into_inner() }
    }

    /// The quotient, rounded down to a billionth.
    ///
    /// Calls the division operator of `sp_arithmetic::FixedU64`, which panics
    /// where `rhs` is zero or the quotient does not fit.
    #[verifier::external_body]
    pub(crate) fn divided_by(self, rhs: FixedU64) -> (r: FixedU64)
        requires
            rhs.inner > 0,
            (self.inner * BILLION) / rhs.inner as int <= u64::MAX,
        ensures
            r.inner == (self.inner * BILLION) / rhs.inner as int,
    {
        let a = sp_arithmetic::FixedU64::from_inner(self.inner);
        let b = sp_arithmetic::FixedU64::from_inner(rhs.inner);
        FixedU64 { inner: (a / b).into_inner() }
    }

    /// The product with the integer `n`, rounded down to an integer and capped.
    ///
    /// Calls `FixedPointNumber::saturating_mul_int` of `sp_arithmetic`.
    #[verifier::external_body]
    pub(crate) fn saturating_mul_int(self, n: u64) -> (r: u64)
        ensures
            r == saturate((self.inner * n) / BILLION as int),
    {
        sp_arithmetic::FixedU64::from_inner(self.inner).saturating_mul_int(n)
    }
}

/// A number of billionths of one, from none to all of them.
#[derive(Clone, Copy, Debug, PartialEq, Eq)]
pub struct Perbill {
    /// The number of billionths; more than a billion of them count as a billion.
    pub parts: u32,
}

impl Perbill {
    /// The number of billionths, a billion at most.
    pub open spec fn value(self) -> int {
        smaller(self.parts as int, BILLION as int)
    }

    /// The number of billionths, a billion at most.
    pub fn deconstruct(self) -> (r: u32)
        ensures
            r == self.value(),
    {
        if self.parts > 1_000_000_000 {
            1_000_000_000
        } else {
            self.parts
        }
    }

    /// The fraction `p / q`, rounded down, or one where it is more than that.
    ///
    /// Calls `sp_arithmetic::Perbill::from_rational`.
    #[verifier::external_body]
    pub(crate) fn from_rational(p: u32, q: u32) -> (r: Perbill)
        requires
            q > 0,
        ensures
            r.parts == rate(p as int, q as int),
    {
        Perbill { parts: sp_arithmetic::Perbill::from_rational(p, q).deconstruct() }
    }

    /// This part of `x`, rounded to the nearest integer, and down where two are equally near.
    ///
    /// Calls the multiplication of `sp_arithmetic::Perbill` with an integer;
    /// `sp_arithmetic::Perbill::from_parts` takes more than a billion parts for a billion.
    #[verifier::external_body]
    pub(crate) fn of(self, x: u64) -> (r: u64)
        ensures
            r == part_of(self, x as int),
    {
        sp_arithmetic::Perbill::from_parts(self.parts) * x
    }
}

/// `p / q` in billionths, rounded down, one at most.
pub open spec fn rate(p: int, q: int) -> int {
    if p >= q {
        BILLION as int
    } else {
        (p * BILLION) / q
    }
}

/// The part `part` of `x`, rounded to the nearest integer.
pub open spec fn part_of(part: Perbill, x: int) -> int {
    nearest(part.value() * x, BILLION as int)
}

/// A part of a number is no more than the number.
pub proof fn lemma_part_of_bound(part: Perbill, x: int)
    requires
        x >= 0,
    ensures
        0 <= part_of(part, x) <= x,
{
    let p = part.value();
    let d = BILLION as int;
    let n = p * x;
    assert(0 <= n <= d * x) by (nonlinear_arith)
        requires
            0 <= p <= d,
            0 <= x,
            n == p * x,
            d == 1_000_000_000,
    ;
}

/// Rounding to the nearest integer keeps the order of fractions with one denominator.
pub proof fn lemma_nearest_monotone(m: int, n: int, d: int)
    requires
        0 <= m <= n,
        d > 0,
    ensures
        nearest(m, d) <= nearest(n, d),
        0 <= nearest(m, d),
{
    assert(m / d <= n / d && m == d * (m / d) + m % d && n == d * (n / d) + n % d && 0 <= m / d)
        by (nonlinear_arith)
        requires
            0 <= m <= n,
            d > 0,
    ;
    if m / d == n / d {
        assert(m % d <= n % d);
    }
}

} // verus!

//! The scalar domain of the computation graph: a signed fixed-point number
//! with `SCALE` fractional steps per unit, stored as an `i64`.
//!
//! Every operation is total: results that would fall outside the `i64` range
//! saturate at the nearest bound, and a division by zero saturates in the
//! direction of the numerator's sign (zero over zero gives zero).  Products
//! and quotients round toward zero.

use vstd::arithmetic::div_mod::lemma_div_is_ordered;
use vstd::arithmetic::div_mod::lemma_div_nonincreasing;
use vstd::prelude::*;

verus! {

/// Number of fixed-point steps per unit.
pub const SCALE: i64 = 1_000_000;

/// Euler's number, scaled by `SCALE` and rounded to the nearest step.
pub const E_RAW: i64 = 2_718_282;

/// Absolute value of a mathematical integer.
pub open spec fn abs_int(x: int) -> int {
    if x < 0 {
        -x
    } else {
        x
    }
}

/// A magnitude with a sign applied to it.
pub open spec fn sign_mag(neg: bool, m: int) -> int {
    if neg {
        -m
    } else {
        m
    }
}

/// Saturation to the `i64` range.
pub open spec fn sat64(x: int) -> int {
    if x > i64::MAX as int {
        i64::MAX as int
    } else if x < i64::MIN as int {
        i64::MIN as int
    } else {
        x
    }
}

/// Division rounding toward zero.
pub open spec fn tdiv(a: int, b: int) -> int
    recommends
        b != 0,
{
    sign_mag((a < 0) != (b < 0), abs_int(a) / abs_int(b))
}

/// The sum of two fixed-point values.
pub open spec fn fx_add(a: int, b: int) -> int {
    sat64(a + b)
}

/// The difference of two fixed-point values.
pub open spec fn fx_sub(a: int, b: int) -> int {
    sat64(a - b)
}

/// The negation of a fixed-point value.
pub open spec fn fx_neg(a: int) -> int {
    sat64(-a)
}

/// The product of two fixed-point values.
pub open spec fn fx_mul(a: int, b: int) -> int {
    sat64(tdiv(a * b, SCALE as int))
}

/// The quotient of two fixed-point values.  A zero divisor saturates in the
/// direction of the numerator's sign.
pub open spec fn fx_div(a: int, b: int) -> int {
    if b == 0 {
        if a > 0 {
            i64::MAX as int
        } else if a < 0 {
            i64::MIN as int
        } else {
            0
        }
    } else {
        sat64(tdiv(a * (SCALE as int), b))
    }
}

/// A scalar of the computation graph: `raw` counts steps of `1 / SCALE`.
#[derive(Clone, Copy, PartialEq, Eq, Structural, Debug, Hash)]
pub struct Fx {
    pub raw: i64,
}

impl View for Fx {
    type V = int;

    open spec fn view(&self) -> int {
        self.raw as int
    }
}

/// The scalar with the given step count; for building expected values in
/// specifications.
pub open spec fn fx_of(x: int) -> Fx {
    Fx { raw: x as i64 }
}

/// One is the unit of the fixed-point product: multiplying by `SCALE` raw
/// steps changes nothing.
pub proof fn lemma_fx_mul_one(x: int)
    by (nonlinear_arith)
    requires
        i64::MIN <= x <= i64::MAX,
    ensures
        fx_mul(SCALE as int, x) == x,
        fx_mul(x, SCALE as int) == x,
{
}

proof fn lemma_abs_mul(a: int, b: int)
    by (nonlinear_arith)
    ensures
        abs_int(a * b) == abs_int(a) * abs_int(b),
        a * b < 0 <==> ((a < 0) != (b < 0)) && a != 0 && b != 0,
{
}

proof fn lemma_mag_bound(a: int, b: int, ca: int, cb: int)
    by (nonlinear_arith)
    requires
        0 <= a <= ca,
        0 <= b <= cb,
    ensures
        a * b <= ca * cb,
{
}

/// The magnitude of an `i64`, as a `u64`.
fn abs_u64(a: i64) -> (r: u64)
    ensures
        r as int == abs_int(a as int),
{
    if a >= 0 {
        a as u64
    } else {
        (-(a as i128)) as u64
    }
}

/// Saturates a wide signed intermediate back to `i64`.
fn sat_from_i128(v: i128) -> (r: i64)
    ensures
        r as int == sat64(v as int),
{
    if v > i64::MAX as i128 {
        i64::MAX
    } else if v < i64::MIN as i128 {
        i64::MIN
    } else {
        v as i64
    }
}

/// Applies a sign to a wide magnitude and saturates to `i64`.
fn sat_signed_from_mag(neg: bool, m: u128) -> (r: i64)
    ensures
        r as int == sat64(sign_mag(neg, m as int)),
{
    if neg {
        if m >= 9_223_372_036_854_775_808u128 {
            i64::MIN
        } else {
            -(m as i64)
        }
    } else {
        if m > i64::MAX as u128 {
            i64::MAX
        } else {
            m as i64
        }
    }
}

impl Fx {
    /// The value zero.
    pub fn zero() -> (r: Fx)
        ensures
            r@ == 0,
    {
        Fx { raw: 0 }
    }

    /// The value one.
    pub fn one() -> (r: Fx)
        ensures
            r@ == SCALE as int,
    {
        Fx { raw: SCALE }
    }

    /// Builds a scalar directly from a step count.
    pub fn from_raw(raw: i64) -> (r: Fx)
        ensures
            r@ == raw as int,
    {
        Fx { raw }
    }

    /// Builds the scalar for a whole number, saturating at the range bounds.
    pub fn from_int(i: i64) -> (r: Fx)
        ensures
            r@ == sat64(i * (SCALE as int)),
    {
        proof {
            assert((i as i128) * (SCALE as i128) == i * (SCALE as int)) by (nonlinear_arith);
            assert(i64::MIN * (SCALE as int) <= i * (SCALE as int) <= i64::MAX * (SCALE as int))
                by (nonlinear_arith)
                requires
                    i64::MIN <= i <= i64::MAX,
            ;
        }
        Fx { raw: sat_from_i128((i as i128) * (SCALE as i128)) }
    }

    /// Builds the scalar closest to `n / d` from below in magnitude.
    pub fn from_ratio(n: i64, d: i64) -> (r: Fx)
        ensures
            r@ == fx_div(sat64(n * (SCALE as int)), sat64(d * (SCALE as int))),
    {
        Fx::from_int(n).div(Fx::from_int(d))
    }

    /// The step count of this scalar.
    pub fn raw(self) -> (r: i64)
        ensures
            r as int == self@,
    {
        self.raw
    }

    /// The whole part of this scalar, rounded toward zero.
    pub fn trunc(self) -> (r: i64)
        ensures
            r as int == tdiv(self@, SCALE as int),
            -9_223_372_036_854 <= r as int <= 9_223_372_036_854,
    {
        let m = abs_u64(self.raw);
        let q = m / (SCALE as u64);
        proof {
            lemma_div_nonincreasing(m as int, SCALE as int);
            lemma_div_is_ordered(m as int, 0x8000_0000_0000_0000int, SCALE as int);
            assert(0x8000_0000_0000_0000int / (SCALE as int) == 9_223_372_036_854);
        }
        sat_signed_from_mag(self.raw < 0, q as u128)
    }

    /// Saturating addition.
    pub fn add(self, rhs: Fx) -> (r: Fx)
        ensures
            r@ == fx_add(self@, rhs@),
    {
        Fx { raw: sat_from_i128(self.raw as i128 + rhs.raw as i128) }
    }

    /// Saturating subtraction.
    pub fn sub(self, rhs: Fx) -> (r: Fx)
        ensures
            r@ == fx_sub(self@, rhs@),
    {
        Fx { raw: sat_from_i128(self.raw as i128 - rhs.raw as i128) }
    }

    /// Saturating negation.
    pub fn neg(self) -> (r: Fx)
        ensures
            r@ == fx_neg(self@),
    {
        Fx { raw: sat_from_i128(-(self.raw as i128)) }
    }

    /// Saturating product, rounded toward zero.
    pub fn mul(self, rhs: Fx) -> (r: Fx)
        ensures
            r@ == fx_mul(self@, rhs@),
    {
        let am = abs_u64(self.raw);
        let bm = abs_u64(rhs.raw);
        proof {
            lemma_abs_mul(self.raw as int, rhs.raw as int);
            lemma_mag_bound(am as int, bm as int, 0x8000_0000_0000_0000, 0x8000_0000_0000_0000);
        }
        let prod: u128 = (am as u128) * (bm as u128);
        let q: u128 = prod / (SCALE as u128);
        proof {
            lemma_div_nonincreasing(prod as int, SCALE as int);
        }
        Fx { raw: sat_signed_from_mag((self.raw < 0) != (rhs.raw < 0), q) }
    }

    /// Saturating quotient, rounded toward zero; a zero divisor saturates in
    /// the direction of the numerator's sign.
    pub fn div(self, rhs: Fx) -> (r: Fx)
        ensures
            r@ == fx_div(self@, rhs@),
    {
        if rhs.raw == 0 {
            if self.raw > 0 {
                Fx { raw: i64::MAX }
            } else if self.raw < 0 {
                Fx { raw: i64::MIN }
            } else {
                Fx { raw: 0 }
            }
        } else {
            let am = abs_u64(self.raw);
            let bm = abs_u64(rhs.raw);
            proof {
                lemma_abs_mul(self.raw as int, SCALE as int);
            }
            let num: u128 = (am as u128) * (SCALE as u128);
            let q: u128 = num / (bm as u128);
            Fx { raw: sat_signed_from_mag((self.raw < 0) != (rhs.raw < 0), q) }
        }
    }

    /// Division of the step count by a positive whole number, rounded toward
    /// zero.
    pub(crate) fn div_steps(self, n: u64) -> (r: Fx)
        requires
            n > 0,
        ensures
            r@ == sat64(tdiv(self@, n as int)),
    {
        let m = abs_u64(self.raw);
        let q = m / n;
        proof {
            lemma_div_nonincreasing(m as int, n as int);
        }
        Fx { raw: sat_signed_from_mag(self.raw < 0, q as u128) }
    }

    /// True when this scalar is strictly less than `rhs`.
    pub fn lt(self, rhs: Fx) -> (r: bool)
        ensures
            r <==> self@ < rhs@,
    {
        self.raw < rhs.raw
    }

    /// True when this scalar is strictly positive.
    pub fn is_pos(self) -> (r: bool)
        ensures
            r <==> self@ > 0,
    {
        self.raw > 0
    }

    /// True when this scalar is strictly negative.
    pub fn is_neg(self) -> (r: bool)
        ensures
            r <==> self@ < 0,
    {
        self.raw < 0
    }
}

} // verus!

//! Exponential, hyperbolic tangent, rectifier and integer powers of the
//! fixed-point scalar.
//!
//! `exp` splits its argument into a whole part, handled by repeated
//! multiplication with `E_RAW`, and a fractional part, handled by a power
//! series of `EXP_TERMS` terms; every step is a saturating fixed-point
//! operation, so the spec functions below state the computed value exactly.

use crate::fixed::fx_add;
use crate::fixed::fx_div;
use crate::fixed::fx_mul;
use crate::fixed::fx_neg;
use crate::fixed::fx_sub;
use crate::fixed::sat64;
use crate::fixed::tdiv;
use crate::fixed::Fx;
use crate::fixed::E_RAW;
use crate::fixed::SCALE;
use vstd::prelude::*;

verus! {

/// Number of power-series terms used for the fractional part of `exp`.
pub const EXP_TERMS: u64 = 8;

/// Smallest whole exponent at which `exp` saturates outright.
pub const EXP_SAT_AT: u64 = 44;

/// `e` raised to the whole number `n`, by repeated saturating fixed-point
/// multiplication.
pub open spec fn pow_e_spec(n: nat) -> int
    decreases n,
{
    if n == 0 {
        SCALE as int
    } else {
        fx_mul(pow_e_spec((n - 1) as nat), E_RAW as int)
    }
}

/// The `k`-th term of the power series for `e` to `f / SCALE`.
pub open spec fn exp_term(f: int, k: nat) -> int
    decreases k,
{
    if k == 0 {
        SCALE as int
    } else {
        sat64(tdiv(fx_mul(exp_term(f, (k - 1) as nat), f), k as int))
    }
}

/// The power series for `e` to `f / SCALE`, summed through `k` terms.
pub open spec fn exp_sum(f: int, k: nat) -> int
    decreases k,
{
    if k == 0 {
        SCALE as int
    } else {
        fx_add(exp_sum(f, (k - 1) as nat), exp_term(f, k))
    }
}

/// The fixed-point exponential of a non-negative argument.
pub open spec fn fx_exp_pos(x: int) -> int
    recommends
        x >= 0,
{
    if x / (SCALE as int) >= EXP_SAT_AT as int {
        i64::MAX as int
    } else {
        fx_mul(
            pow_e_spec((x / (SCALE as int)) as nat),
            exp_sum(x % (SCALE as int), EXP_TERMS as nat),
        )
    }
}

/// The fixed-point exponential; a negative argument goes through the
/// reciprocal of the exponential of its negation.
pub open spec fn fx_exp(x: int) -> int {
    if x >= 0 {
        fx_exp_pos(x)
    } else {
        fx_div(SCALE as int, fx_exp_pos(fx_neg(x)))
    }
}

/// The fixed-point hyperbolic tangent, through the exponential of twice the
/// argument.
pub open spec fn fx_tanh(x: int) -> int {
    let e2 = fx_exp(fx_add(x, x));
    fx_div(fx_sub(e2, SCALE as int), fx_add(e2, SCALE as int))
}

/// The rectifier: zero for negative arguments, the argument itself otherwise.
pub open spec fn fx_relu(x: int) -> int {
    if x < 0 {
        0
    } else {
        x
    }
}

/// The fixed-point power with a non-negative whole exponent.
pub open spec fn fx_powi_pos(x: int, n: nat) -> int
    decreases n,
{
    if n == 0 {
        SCALE as int
    } else {
        fx_mul(fx_powi_pos(x, (n - 1) as nat), x)
    }
}

/// The fixed-point power with a whole exponent; a negative exponent goes
/// through the reciprocal.
pub open spec fn fx_powi(x: int, e: int) -> int {
    if e >= 0 {
        fx_powi_pos(x, e as nat)
    } else {
        fx_div(SCALE as int, fx_powi_pos(x, (-e) as nat))
    }
}

impl Fx {
    fn exp_pos(self) -> (r: Fx)
        requires
            self@ >= 0,
        ensures
            r@ == fx_exp_pos(self@),
    {
        let xr: u64 = self.raw() as u64;
        let n: u64 = xr / (SCALE as u64);
        let f: u64 = xr % (SCALE as u64);
        if n >= EXP_SAT_AT {
            return Fx::from_raw(i64::MAX);
        }
        let e = Fx::from_raw(E_RAW);
        let mut acc = Fx::one();
        let mut i: u64 = 0;
        while i < n
            invariant
                i <= n,
                acc@ == pow_e_spec(i as nat),
                e@ == E_RAW as int,
            decreases n - i,
        {
            acc = acc.mul(e);
            i = i + 1;
        }
        let ffx = Fx::from_raw(f as i64);
        let mut sum = Fx::one();
        let mut term = Fx::one();
        let mut k: u64 = 1;
        while k <= EXP_TERMS
            invariant
                1 <= k <= EXP_TERMS + 1,
                term@ == exp_term(f as int, (k - 1) as nat),
                sum@ == exp_sum(f as int, (k - 1) as nat),
                ffx@ == f as int,
            decreases EXP_TERMS + 1 - k,
        {
            term = term.mul(ffx).div_steps(k);
            sum = sum.add(term);
            k = k + 1;
        }
        acc.mul(sum)
    }

    /// The exponential of this scalar.
    pub fn exp(self) -> (r: Fx)
        ensures
            r@ == fx_exp(self@),
    {
        if self.raw() >= 0 {
            self.exp_pos()
        } else {
            Fx::one().div(self.neg().exp_pos())
        }
    }

    /// The hyperbolic tangent of this scalar.
    pub fn tanh(self) -> (r: Fx)
        ensures
            r@ == fx_tanh(self@),
    {
        let e2 = self.add(self).exp();
        e2.sub(Fx::one()).div(e2.add(Fx::one()))
    }

    /// The rectifier of this scalar.
    pub fn relu(self) -> (r: Fx)
        ensures
            r@ == fx_relu(self@),
    {
        if self.is_neg() {
            Fx::zero()
        } else {
            self
        }
    }

    fn powi_pos(self, n: u64) -> (r: Fx)
        ensures
            r@ == fx_powi_pos(self@, n as nat),
    {
        let mut acc = Fx::one();
        let mut i: u64 = 0;
        while i < n
            invariant
                i <= n,
                acc@ == fx_powi_pos(self@, i as nat),
            decreases n - i,
        {
            acc = acc.mul(self);
            i = i + 1;
        }
        acc
    }

    /// This scalar raised to a whole exponent.
    pub fn powi(self, e: i64) -> (r: Fx)
        ensures
            r@ == fx_powi(self@, e as int),
    {
        if e >= 0 {
            self.powi_pos(e as u64)
        } else {
            let m: u64 = (-(e as i128)) as u64;
            Fx::one().div(self.powi_pos(m))
        }
    }
}

} // verus!

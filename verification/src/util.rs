//! Scalar helpers: angle conversion and the random source.
//!
//! Randomness is drawn from the process-wide generator of the `fastrand`
//! crate through one trusted wrapper; everything stated about a random value
//! is a bound that holds of every outcome.

use vstd::prelude::*;
use crate::fixed::Fx;
use crate::fixed::SCALE;
use crate::fixed::sat;
use crate::fixed::mul_raw;
use crate::fixed::div_raw;
use crate::fixed::tdiv;
use crate::fixed::lemma_tdiv_mag;

verus! {

use vstd::arithmetic::div_mod::lemma_multiply_divide_lt;

/// The circle constant, rounded to the nearest representable value.
pub const PI_RAW: i64 = 3_141_593;

/// Relies on `fastrand::i64`: a uniform draw from the given half-open range;
/// the range `0..SCALE` is never empty, so the call cannot panic.
#[verifier::external_body]
fn random_raw_unit() -> (r: i64)
    ensures
        0 <= r < SCALE,
{
    fastrand::i64(0..SCALE)
}

/// A uniform scalar in `[0, 1)`.
pub fn random_fx() -> (r: Fx)
    ensures
        0 <= r.raw < SCALE,
        r.wf(),
{
    Fx { raw: random_raw_unit() }
}

/// A uniform scalar in `[min, max)`: `min + (max - min) * draw`.
/// Only the bounds can be promised of a random result.
pub fn random_fx_range(min: Fx, max: Fx) -> (r: Fx)
    requires
        min.wf(),
        max.wf(),
    ensures
        r.wf(),
        min.raw < max.raw ==> min.raw <= r.raw < max.raw,
        min.raw >= max.raw ==> r.raw == min.raw,
{
    if min.raw >= max.raw {
        min
    } else {
        let u = random_fx();
        let d = max.sub(min);
        let off = d.mul(u);
        proof {
            let dr = sat(max.raw - min.raw);
            assert(d.raw == dr);
            assert(0 < dr <= max.raw - min.raw);
            assert(d.raw * u.raw >= 0) by (nonlinear_arith)
                requires
                    d.raw >= 0,
                    u.raw >= 0,
            ;
            assert(d.raw * u.raw < SCALE * dr) by (nonlinear_arith)
                requires
                    d.raw == dr,
                    0 < dr,
                    0 <= u.raw < SCALE,
                    SCALE == 1_000_000,
            ;
            lemma_tdiv_mag(d.raw * u.raw, SCALE as int);
            lemma_multiply_divide_lt(d.raw * u.raw, SCALE as int, dr);
            assert(tdiv(d.raw * u.raw, SCALE as int) < dr);
            assert(0 <= mul_raw(d.raw as int, u.raw as int) < dr);
        }
        min.add(off)
    }
}

/// Mirror of the truncated sine series:
/// `x - x^3/6 + x^5/120 - x^7/5040 + x^9/362880`.
pub open spec fn sin_raw(x: int) -> int {
    let x2 = crate::fixed::f_mul(x, x);
    let x3 = crate::fixed::f_mul(x2, x);
    let x5 = crate::fixed::f_mul(x3, x2);
    let x7 = crate::fixed::f_mul(x5, x2);
    let x9 = crate::fixed::f_mul(x7, x2);
    crate::fixed::f_add(
        crate::fixed::f_sub(
            crate::fixed::f_add(crate::fixed::f_sub(x, tdiv(x3, 6)), tdiv(x5, 120)),
            tdiv(x7, 5040),
        ),
        tdiv(x9, 362_880),
    )
}

/// Mirror of the truncated cosine series:
/// `1 - x^2/2 + x^4/24 - x^6/720 + x^8/40320 - x^10/3628800`.
pub open spec fn cos_raw(x: int) -> int {
    let x2 = crate::fixed::f_mul(x, x);
    let x4 = crate::fixed::f_mul(x2, x2);
    let x6 = crate::fixed::f_mul(x4, x2);
    let x8 = crate::fixed::f_mul(x6, x2);
    let x10 = crate::fixed::f_mul(x8, x2);
    crate::fixed::f_sub(
        crate::fixed::f_add(
            crate::fixed::f_sub(
                crate::fixed::f_add(
                    crate::fixed::f_sub(SCALE as int, tdiv(x2, 2)),
                    tdiv(x4, 24),
                ),
                tdiv(x6, 720),
            ),
            tdiv(x8, 40_320),
        ),
        tdiv(x10, 3_628_800),
    )
}

/// Mirror of the tangent: the sine/cosine quotient of the truncated series,
/// saturated when the cosine approximation is not positive.
pub open spec fn tan_raw(x: int) -> int {
    if cos_raw(x) <= 0 {
        crate::fixed::FX_MAX_RAW as int
    } else {
        crate::fixed::f_div(sin_raw(x), cos_raw(x))
    }
}

/// The truncated sine series, for angles in radians.
pub fn sin_fx(x: Fx) -> (r: Fx)
    requires
        x.wf(),
    ensures
        r.raw == sin_raw(x.raw as int),
        r.wf(),
{
    let x2 = x.mul(x);
    let x3 = x2.mul(x);
    let x5 = x3.mul(x2);
    let x7 = x5.mul(x2);
    let x9 = x7.mul(x2);
    x.sub(x3.div_int(6)).add(x5.div_int(120)).sub(x7.div_int(5040)).add(x9.div_int(362_880))
}

/// The truncated cosine series, for angles in radians.
pub fn cos_fx(x: Fx) -> (r: Fx)
    requires
        x.wf(),
    ensures
        r.raw == cos_raw(x.raw as int),
        r.wf(),
{
    let x2 = x.mul(x);
    let x4 = x2.mul(x2);
    let x6 = x4.mul(x2);
    let x8 = x6.mul(x2);
    let x10 = x8.mul(x2);
    Fx::one().sub(x2.div_int(2)).add(x4.div_int(24)).sub(x6.div_int(720)).add(
        x8.div_int(40_320),
    ).sub(x10.div_int(3_628_800))
}

/// The tangent by the series quotient; saturated where the cosine
/// approximation is not positive.
pub fn tan_fx(x: Fx) -> (r: Fx)
    requires
        x.wf(),
    ensures
        r.raw == tan_raw(x.raw as int),
        r.wf(),
{
    let s = sin_fx(x);
    let c = cos_fx(x);
    if c.raw <= 0 {
        Fx { raw: crate::fixed::FX_MAX_RAW }
    } else {
        s.div(c)
    }
}

/// Degrees to radians: `d * PI / 180`, in fixed point.
pub fn degrees_to_radians(degrees: Fx) -> (r: Fx)
    requires
        degrees.wf(),
    ensures
        r.wf(),
        r.raw == sat(div_raw(sat(mul_raw(degrees.raw as int, PI_RAW as int)), 180 * SCALE)),
{
    let num = degrees.mul(Fx { raw: PI_RAW });
    num.div(Fx { raw: 180 * SCALE })
}

} // verus!

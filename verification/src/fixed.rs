//! Exact fixed-point scalars.
//!
//! A real quantity is stored as `raw / SCALE` with `raw: i64` and
//! `SCALE = 1_000_000`, so six decimal digits of fraction are kept.  Every
//! operation is total: results are saturated into `[-FX_MAX_RAW, FX_MAX_RAW]`
//! and each contract states the exact integer value produced, including the
//! truncation and saturation, so callers can reason about results to the last
//! raw unit.

use vstd::prelude::*;

verus! {

use vstd::arithmetic::div_mod::lemma_div_is_ordered;
use vstd::arithmetic::div_mod::lemma_div_pos_is_pos;
use vstd::arithmetic::div_mod::lemma_div_nonincreasing;
use vstd::arithmetic::div_mod::lemma_div_multiples_vanish;

/// Number of raw units per whole unit: the value of `Fx { raw }` is `raw / SCALE`.
pub const SCALE: i64 = 1_000_000;

/// Saturation bound on raw values; well inside `i64` so that sums and
/// products of a few bounded values still fit the intermediate `i128` range.
pub const FX_MAX_RAW: i64 = 900_000_000_000_000_000;

/// Magnitude of an integer.
pub open spec fn iabs(a: int) -> int {
    if a >= 0 {
        a
    } else {
        -a
    }
}

/// Truncating (round-toward-zero) division, total: zero when the divisor is zero.
/// This is the rounding that every fixed-point operation uses.
pub open spec fn tdiv(a: int, b: int) -> int {
    if b == 0 {
        0
    } else if (a < 0) == (b < 0) {
        iabs(a) / iabs(b)
    } else {
        -(iabs(a) / iabs(b))
    }
}

/// Saturation of an integer into the representable raw range.
pub open spec fn sat(x: int) -> int {
    if x > FX_MAX_RAW {
        FX_MAX_RAW as int
    } else if x < -FX_MAX_RAW {
        -(FX_MAX_RAW as int)
    } else {
        x
    }
}

/// Whether a raw value lies in the representable range.
pub open spec fn fits(x: int) -> bool {
    -FX_MAX_RAW <= x <= FX_MAX_RAW
}

/// Raw value of the fixed-point product of two raw values.
pub open spec fn mul_raw(a: int, b: int) -> int {
    tdiv(a * b, SCALE as int)
}

/// Raw value of the fixed-point quotient of two raw values.
pub open spec fn div_raw(a: int, b: int) -> int {
    tdiv(a * SCALE, b)
}

/// Saturating raw addition, as the executable `Fx::add` computes it.
pub open spec fn f_add(a: int, b: int) -> int {
    sat(a + b)
}

/// Saturating raw subtraction.
pub open spec fn f_sub(a: int, b: int) -> int {
    sat(a - b)
}

/// Saturating raw multiplication.
pub open spec fn f_mul(a: int, b: int) -> int {
    sat(mul_raw(a, b))
}

/// Saturating raw division.
pub open spec fn f_div(a: int, b: int) -> int {
    sat(div_raw(a, b))
}

/// Raw value of the fixed-point square root of a raw value:
/// the integer square root of the rescaled input, zero for nonpositive input.
pub open spec fn sqrt_raw(a: int) -> int {
    if a <= 0 {
        0
    } else {
        isqrt_spec(a * SCALE)
    }
}

/// `r` is the integer square root of `n` (floor of the real square root).
pub open spec fn is_isqrt(n: int, r: int) -> bool {
    &&& 0 <= r
    &&& r * r <= n
    &&& n < (r + 1) * (r + 1)
}

/// The integer square root as a spec-level function.
pub open spec fn isqrt_spec(n: int) -> int {
    choose|r: int| is_isqrt(n, r)
}

/// The integer square root exists for every nonnegative integer.
pub proof fn lemma_isqrt_exists(n: int)
    requires
        n >= 0,
    ensures
        is_isqrt(n, isqrt_spec(n)),
    decreases n,
{
    if n == 0 {
        assert(is_isqrt(0, 0));
    } else {
        lemma_isqrt_exists(n - 1);
        let r = isqrt_spec(n - 1);
        if (r + 1) * (r + 1) <= n {
            assert(n - 1 < (r + 1) * (r + 1));
            assert(n < (r + 2) * (r + 2)) by (nonlinear_arith)
                requires
                    n <= (r + 1) * (r + 1),
                    r >= 0,
            ;
            assert(is_isqrt(n, r + 1));
        } else {
            assert(is_isqrt(n, r));
        }
    }
    let w = choose|w: int| is_isqrt(n, w);
    assert(is_isqrt(n, w));
}

/// The integer square root is unique.
pub proof fn lemma_isqrt_unique(n: int, r1: int, r2: int)
    requires
        is_isqrt(n, r1),
        is_isqrt(n, r2),
    ensures
        r1 == r2,
{
    if r1 < r2 {
        assert(r2 * r2 <= n);
        assert((r1 + 1) * (r1 + 1) <= r2 * r2) by (nonlinear_arith)
            requires
                0 <= r1,
                r1 + 1 <= r2,
        ;
    }
    if r2 < r1 {
        assert((r2 + 1) * (r2 + 1) <= r1 * r1) by (nonlinear_arith)
            requires
                0 <= r2,
                r2 + 1 <= r1,
        ;
    }
}

/// Magnitude and sign facts about truncating division by a positive divisor.
pub proof fn lemma_tdiv_mag(a: int, b: int)
    requires
        b >= 1,
    ensures
        iabs(tdiv(a, b)) == iabs(a) / b,
        iabs(a) / b <= iabs(a),
        a >= 0 ==> tdiv(a, b) >= 0,
        a <= 0 ==> tdiv(a, b) <= 0,
{
    lemma_div_pos_is_pos(iabs(a), b);
    lemma_div_nonincreasing(iabs(a), b);
}

/// Truncating division by a positive divisor is monotone in the dividend.
pub proof fn lemma_tdiv_mono(a1: int, a2: int, b: int)
    requires
        b >= 1,
        a1 <= a2,
    ensures
        tdiv(a1, b) <= tdiv(a2, b),
{
    if a1 >= 0 {
        lemma_div_is_ordered(a1, a2, b);
    } else if a2 <= 0 {
        lemma_div_is_ordered(-a2, -a1, b);
    } else {
        lemma_div_pos_is_pos(a2, b);
        lemma_div_pos_is_pos(-a1, b);
    }
}

/// A bound on the dividend gives a bound on the truncating quotient.
pub proof fn lemma_tdiv_bound(a: int, b: int, m: int)
    requires
        b >= 1,
        iabs(a) <= m,
    ensures
        iabs(tdiv(a, b)) <= m / b,
        iabs(tdiv(a, b)) <= m,
{
    lemma_tdiv_mag(a, b);
    lemma_div_is_ordered(iabs(a), m, b);
    lemma_div_pos_is_pos(m, b);
    lemma_div_nonincreasing(m, b);
}

/// Dividing an exact multiple is exact: `tdiv(a * b, b) == a` for `b >= 1`.
pub proof fn lemma_tdiv_exact(a: int, b: int)
    requires
        b >= 1,
    ensures
        tdiv(a * b, b) == a,
{
    if a >= 0 {
        assert(a * b >= 0 && iabs(a * b) == a * b) by (nonlinear_arith)
            requires
                a >= 0,
                b >= 1,
        ;
        lemma_div_multiples_vanish(a, b);
        assert(a * b == b * a) by (nonlinear_arith);
    } else {
        assert(a * b < 0 && iabs(a * b) == (-a) * b) by (nonlinear_arith)
            requires
                a < 0,
                b >= 1,
        ;
        lemma_div_multiples_vanish(-a, b);
        assert((-a) * b == b * (-a)) by (nonlinear_arith);
    }
}

/// Truncating division leaves a remainder smaller than the divisor:
/// `x == b * tdiv(x, b) + e` with `|e| < b`.
pub proof fn lemma_tdiv_rem(x: int, b: int)
    requires
        b >= 1,
    ensures
        iabs(x - b * tdiv(x, b)) <= b - 1,
{
    if x >= 0 {
        vstd::arithmetic::div_mod::lemma_fundamental_div_mod(x, b);
        vstd::arithmetic::div_mod::lemma_mod_division_less_than_divisor(x, b);
    } else {
        vstd::arithmetic::div_mod::lemma_fundamental_div_mod(-x, b);
        vstd::arithmetic::div_mod::lemma_mod_division_less_than_divisor(-x, b);
        assert(-x == b * ((-x) / b) + (-x) % b);
        assert(x == -(b * ((-x) / b)) - (-x) % b);
        assert(b * tdiv(x, b) == -(b * ((-x) / b))) by (nonlinear_arith)
            requires
                tdiv(x, b) == -((-x) / b),
        ;
    }
}

/// Fixed-point multiplication is monotone over nonnegative operands.
pub proof fn lemma_mulraw_mono(a1: int, b1: int, a2: int, b2: int)
    requires
        0 <= a1 <= a2,
        0 <= b1 <= b2,
    ensures
        0 <= mul_raw(a1, b1) <= mul_raw(a2, b2),
{
    assert(0 <= a1 * b1 <= a2 * b2) by (nonlinear_arith)
        requires
            0 <= a1 <= a2,
            0 <= b1 <= b2,
    ;
    lemma_tdiv_mono(a1 * b1, a2 * b2, SCALE as int);
    lemma_tdiv_mag(a1 * b1, SCALE as int);
}

/// Negating the dividend negates the truncating quotient.
pub proof fn lemma_tdiv_neg(a: int, b: int)
    ensures
        tdiv(-a, b) == -tdiv(a, b),
{
}

/// A product is bounded by the product of the bounds.
pub proof fn lemma_mul_mag_bound(x: int, y: int, mx: int, my: int)
    requires
        iabs(x) <= mx,
        iabs(y) <= my,
    ensures
        iabs(x * y) <= mx * my,
{
    assert(iabs(x * y) <= mx * my) by (nonlinear_arith)
        requires
            iabs(x) <= mx,
            iabs(y) <= my,
    ;
}

/// The product of two `i64`-range values stays well inside the `i128` range.
pub proof fn lemma_i64_prod_fits(x: int, y: int)
    requires
        i64::MIN <= x <= i64::MAX,
        i64::MIN <= y <= i64::MAX,
    ensures
        iabs(x * y) <= 0x40000000000000000000000000000000,
{
    assert(iabs(x * y) <= 0x40000000000000000000000000000000) by (nonlinear_arith)
        requires
            -0x8000000000000000 <= x <= 0x8000000000000000,
            -0x8000000000000000 <= y <= 0x8000000000000000,
    ;
}

/// A fixed-point scalar: the represented value is `raw / SCALE`.
#[derive(Clone, Copy, Debug, PartialEq, Eq, Structural)]
pub struct Fx {
    pub raw: i64,
}

impl Fx {
    /// The raw value lies inside the saturation range.
    pub open spec fn wf(self) -> bool {
        fits(self.raw as int)
    }

    /// Zero.
    pub fn zero() -> (r: Fx)
        ensures
            r.raw == 0,
            r.wf(),
    {
        Fx { raw: 0 }
    }

    /// One whole unit.
    pub fn one() -> (r: Fx)
        ensures
            r.raw == SCALE,
            r.wf(),
    {
        Fx { raw: SCALE }
    }

    /// Builds a scalar from a raw (already scaled) value, saturating.
    pub fn from_raw(raw: i64) -> (r: Fx)
        ensures
            r.raw == sat(raw as int),
            r.wf(),
    {
        if raw > FX_MAX_RAW {
            Fx { raw: FX_MAX_RAW }
        } else if raw < -FX_MAX_RAW {
            Fx { raw: -FX_MAX_RAW }
        } else {
            Fx { raw }
        }
    }

    /// Builds a scalar from a whole number of units, saturating.
    pub fn from_int(i: i64) -> (r: Fx)
        ensures
            r.raw == sat(i * SCALE),
            r.wf(),
    {
        proof {
            lemma_i64_prod_fits(i as int, SCALE as int);
        }
        let wide: i128 = (i as i128) * (SCALE as i128);
        sat_i128(wide)
    }

    /// Builds the scalar closest to `num / den` (truncated), saturating.
    /// Zero when `den` is zero.
    pub fn from_ratio(num: i64, den: i64) -> (r: Fx)
        ensures
            r.raw == sat(tdiv(num * SCALE, den as int)),
            r.wf(),
    {
        let wide: i128 = (num as i128) * (SCALE as i128);
        proof {
            lemma_i64_prod_fits(num as int, SCALE as int);
        }
        tdiv_sat(wide, den as i128)
    }

    /// Saturating fixed-point addition.
    pub fn add(self, o: Fx) -> (r: Fx)
        requires
            self.wf(),
            o.wf(),
        ensures
            r.raw == sat(self.raw + o.raw),
            r.wf(),
    {
        sat_i128((self.raw as i128) + (o.raw as i128))
    }

    /// Saturating fixed-point subtraction.
    pub fn sub(self, o: Fx) -> (r: Fx)
        requires
            self.wf(),
            o.wf(),
        ensures
            r.raw == sat(self.raw - o.raw),
            r.wf(),
    {
        sat_i128((self.raw as i128) - (o.raw as i128))
    }

    /// Negation.
    pub fn neg(self) -> (r: Fx)
        requires
            self.wf(),
        ensures
            r.raw == -self.raw,
            r.wf(),
    {
        Fx { raw: -self.raw }
    }

    /// Saturating fixed-point multiplication, truncated toward zero.
    pub fn mul(self, o: Fx) -> (r: Fx)
        requires
            self.wf(),
            o.wf(),
        ensures
            r.raw == sat(mul_raw(self.raw as int, o.raw as int)),
            r.wf(),
    {
        proof {
            lemma_i64_prod_fits(self.raw as int, o.raw as int);
        }
        let wide: i128 = (self.raw as i128) * (o.raw as i128);
        tdiv_sat(wide, SCALE as i128)
    }

    /// Saturating fixed-point division, truncated toward zero.
    /// Zero when the divisor is zero.
    pub fn div(self, o: Fx) -> (r: Fx)
        requires
            self.wf(),
            o.wf(),
        ensures
            r.raw == sat(div_raw(self.raw as int, o.raw as int)),
            r.wf(),
    {
        proof {
            lemma_i64_prod_fits(self.raw as int, SCALE as int);
        }
        let wide: i128 = (self.raw as i128) * (SCALE as i128);
        tdiv_sat(wide, o.raw as i128)
    }

    /// Division of the raw value by a plain positive integer (exact
    /// truncation, no rescaling).
    pub fn div_int(self, k: i64) -> (r: Fx)
        requires
            self.wf(),
            k >= 1,
        ensures
            r.raw == tdiv(self.raw as int, k as int),
            r.wf(),
    {
        let q = tdiv_i128(self.raw as i128, k as i128);
        proof {
            lemma_tdiv_mag(self.raw as int, k as int);
        }
        Fx { raw: q as i64 }
    }

    /// Magnitude.
    pub fn abs(self) -> (r: Fx)
        requires
            self.wf(),
        ensures
            r.raw == iabs(self.raw as int),
            r.wf(),
    {
        if self.raw < 0 {
            Fx { raw: -self.raw }
        } else {
            self
        }
    }

    /// The smaller of two scalars.
    pub fn min(self, o: Fx) -> (r: Fx)
        ensures
            r.raw == if self.raw <= o.raw {
                self.raw
            } else {
                o.raw
            },
    {
        if self.raw <= o.raw {
            self
        } else {
            o
        }
    }

    /// Fixed-point square root: the exact integer square root of the scaled
    /// value.  Zero for nonpositive input.
    pub fn sqrt(self) -> (r: Fx)
        requires
            self.wf(),
        ensures
            r.raw == sqrt_raw(self.raw as int),
            self.raw <= 0 ==> r.raw == 0,
            self.raw > 0 ==> is_isqrt(self.raw * SCALE, r.raw as int),
            0 <= r.raw <= 1_000_000_000_000,
            r.wf(),
    {
        if self.raw <= 0 {
            Fx { raw: 0 }
        } else {
            let n: u128 = (self.raw as u128) * (SCALE as u128);
            let s: u128 = isqrt_u128(n);
            proof {
                let si = s as int;
                let ni = self.raw * SCALE;
                assert(si * si <= ni);
                assert(ni <= 900_000_000_000_000_000_000_000) by (nonlinear_arith)
                    requires
                        ni == self.raw * SCALE,
                        0 < self.raw <= 900_000_000_000_000_000,
                        SCALE == 1_000_000,
                ;
                assert(si <= 1_000_000_000_000) by (nonlinear_arith)
                    requires
                        si * si <= 900_000_000_000_000_000_000_000,
                        si >= 0,
                ;
                lemma_isqrt_exists(ni);
                lemma_isqrt_unique(ni, isqrt_spec(ni), si);
            }
            Fx { raw: s as i64 }
        }
    }
}

/// Clamps a wide intermediate into the raw range.
pub(crate) fn sat_i128(x: i128) -> (r: Fx)
    ensures
        r.raw == sat(x as int),
        r.wf(),
{
    if x > FX_MAX_RAW as i128 {
        Fx { raw: FX_MAX_RAW }
    } else if x < -(FX_MAX_RAW as i128) {
        Fx { raw: -FX_MAX_RAW }
    } else {
        Fx { raw: x as i64 }
    }
}

/// Truncating division of wide intermediates, saturated into the raw range.
/// Zero when the divisor is zero.
pub(crate) fn tdiv_sat(a: i128, b: i128) -> (r: Fx)
    requires
        a > i128::MIN,
        b > i128::MIN,
    ensures
        r.raw == sat(tdiv(a as int, b as int)),
        r.wf(),
{
    if b == 0 {
        Fx { raw: 0 }
    } else {
        let na: u128 = if a >= 0 {
            a as u128
        } else {
            (-a) as u128
        };
        let nb: u128 = if b >= 0 {
            b as u128
        } else {
            (-b) as u128
        };
        let q: u128 = na / nb;
        proof {
            assert(na == iabs(a as int));
            assert(nb == iabs(b as int));
            assert(q == iabs(a as int) / iabs(b as int));
            lemma_div_pos_is_pos(iabs(a as int), iabs(b as int));
            lemma_div_nonincreasing(iabs(a as int), iabs(b as int));
        }
        if (a < 0) == (b < 0) {
            if q > FX_MAX_RAW as u128 {
                Fx { raw: FX_MAX_RAW }
            } else {
                Fx { raw: q as i64 }
            }
        } else {
            if q > FX_MAX_RAW as u128 {
                Fx { raw: -FX_MAX_RAW }
            } else {
                Fx { raw: -(q as i64) }
            }
        }
    }
}

/// Exact truncating division of wide intermediates.
pub(crate) fn tdiv_i128(a: i128, b: i128) -> (q: i128)
    requires
        a > i128::MIN,
        b >= 1,
    ensures
        q == tdiv(a as int, b as int),
        iabs(q as int) <= iabs(a as int),
{
    let na: u128 = if a >= 0 {
        a as u128
    } else {
        (-a) as u128
    };
    let q: u128 = na / (b as u128);
    proof {
        assert(na == iabs(a as int));
        assert(q == iabs(a as int) / (b as int));
        lemma_div_pos_is_pos(iabs(a as int), b as int);
        lemma_div_nonincreasing(iabs(a as int), b as int);
    }
    if a >= 0 {
        q as i128
    } else {
        -(q as i128)
    }
}

/// Integer square root of an unsigned 128-bit value, by binary search.
pub fn isqrt_u128(n: u128) -> (r: u128)
    ensures
        is_isqrt(n as int, r as int),
{
    let mut lo: u128 = 0;
    let mut hi: u128 = 1u128 << 64;
    proof {
        assert((1u128 << 64) == 0x10000000000000000) by (bit_vector);
        assert(n < 0x10000000000000000 * 0x10000000000000000) by (nonlinear_arith)
            requires
                n <= u128::MAX,
        ;
    }
    while lo + 1 < hi
        invariant
            0 <= lo < hi <= 0x10000000000000000,
            lo * lo <= n,
            n < hi * hi,
        decreases hi - lo,
    {
        let mid: u128 = lo + (hi - lo) / 2;
        proof {
            assert(lo < mid < hi);
            assert(mid * mid <= 0xffffffffffffffff * 0xffffffffffffffff) by (nonlinear_arith)
                requires
                    0 <= mid <= 0xffffffffffffffff,
            ;
        }
        if mid * mid <= n {
            lo = mid;
        } else {
            hi = mid;
        }
    }
    lo
}

} // verus!

//! Three-component vectors over fixed-point scalars.
//!
//! Each operation carries an exact contract: the result equals a spec-level
//! mirror built from the same saturating fixed-point arithmetic, so callers
//! can compute with vector results to the last raw unit.

use vstd::prelude::*;
use crate::fixed::Fx;
use crate::fixed::SCALE;
use crate::fixed::FX_MAX_RAW;
use crate::fixed::sat;
use crate::fixed::iabs;
use crate::fixed::tdiv;
use crate::fixed::mul_raw;
use crate::fixed::is_isqrt;
use crate::fixed::isqrt_spec;
use crate::fixed::lemma_isqrt_exists;
use crate::fixed::lemma_isqrt_unique;
use crate::fixed::lemma_tdiv_bound;
use crate::fixed::lemma_tdiv_mag;
use crate::fixed::lemma_mul_mag_bound;
use crate::fixed::isqrt_u128;
use crate::fixed::tdiv_sat;
use crate::util::random_fx;
use crate::util::random_fx_range;

verus! {

use vstd::arithmetic::div_mod::lemma_div_multiples_vanish;

/// Shorthand for building a scalar from a spec-level raw value.
pub open spec fn fx(r: int) -> Fx {
    Fx { raw: r as i64 }
}

/// A point or direction in space; also used as an unencoded color triple.
#[derive(Clone, Copy, Debug, PartialEq, Eq, Structural)]
pub struct Vec3 {
    pub x: Fx,
    pub y: Fx,
    pub z: Fx,
}

/// A position in space.
pub type Point3 = Vec3;

/// The zero vector, as a spec-level value.
pub open spec fn fx_zero_vec() -> Vec3 {
    Vec3 { x: Fx { raw: 0 }, y: Fx { raw: 0 }, z: Fx { raw: 0 } }
}

/// All three components lie in the representable range.
pub open spec fn vec_wf(v: Vec3) -> bool {
    &&& v.x.wf()
    &&& v.y.wf()
    &&& v.z.wf()
}

/// All three components are bounded in magnitude by `m` raw units.
pub open spec fn vec_bounded(v: Vec3, m: int) -> bool {
    &&& iabs(v.x.raw as int) <= m
    &&& iabs(v.y.raw as int) <= m
    &&& iabs(v.z.raw as int) <= m
}

/// Every component is exactly zero.
pub open spec fn is_zero_vec(v: Vec3) -> bool {
    v.x.raw == 0 && v.y.raw == 0 && v.z.raw == 0
}

/// A direction as the unit-sphere sampler yields it: representable, each
/// component within one unit, not the zero vector, and of unit length up to
/// the sampler's resolution bounds on the squared length.
pub open spec fn unit_sample(u: Vec3) -> bool {
    &&& vec_wf(u)
    &&& vec_bounded(u, SCALE as int)
    &&& !is_zero_vec(u)
    &&& SCALE * SCALE - 6 * SCALE <= len2_wide(u) <= SCALE * SCALE + 2002 * SCALE
}

/// Mirror of component-wise addition.
pub open spec fn add_spec(u: Vec3, v: Vec3) -> Vec3 {
    Vec3 { x: fx(sat(u.x.raw + v.x.raw)), y: fx(sat(u.y.raw + v.y.raw)), z: fx(
        sat(u.z.raw + v.z.raw),
    ) }
}

/// Mirror of component-wise subtraction.
pub open spec fn sub_spec(u: Vec3, v: Vec3) -> Vec3 {
    Vec3 { x: fx(sat(u.x.raw - v.x.raw)), y: fx(sat(u.y.raw - v.y.raw)), z: fx(
        sat(u.z.raw - v.z.raw),
    ) }
}

/// Mirror of component-wise multiplication.
pub open spec fn cmul_spec(u: Vec3, v: Vec3) -> Vec3 {
    Vec3 { x: fx(sat(mul_raw(u.x.raw as int, v.x.raw as int))), y: fx(
        sat(mul_raw(u.y.raw as int, v.y.raw as int)),
    ), z: fx(sat(mul_raw(u.z.raw as int, v.z.raw as int))) }
}

/// Mirror of multiplication by a scalar.
pub open spec fn scale_spec(v: Vec3, k: Fx) -> Vec3 {
    Vec3 { x: fx(sat(mul_raw(k.raw as int, v.x.raw as int))), y: fx(
        sat(mul_raw(k.raw as int, v.y.raw as int)),
    ), z: fx(sat(mul_raw(k.raw as int, v.z.raw as int))) }
}

/// Mirror of negation.
pub open spec fn neg_spec(v: Vec3) -> Vec3 {
    Vec3 { x: fx(-v.x.raw), y: fx(-v.y.raw), z: fx(-v.z.raw) }
}

/// Raw value of the dot product: the wide product sum, rescaled once.
pub open spec fn dot_raw(u: Vec3, v: Vec3) -> int {
    tdiv(u.x.raw * v.x.raw + u.y.raw * v.y.raw + u.z.raw * v.z.raw, SCALE as int)
}

/// Squared length at double scale: the exact sum of squared raw components.
pub open spec fn len2_wide(v: Vec3) -> int {
    v.x.raw * v.x.raw + v.y.raw * v.y.raw + v.z.raw * v.z.raw
}

/// Raw value of the length: the integer square root of the wide squared
/// length, saturated.
pub open spec fn len_raw(v: Vec3) -> int {
    sat(isqrt_spec(len2_wide(v)))
}

/// Mirror of normalization: each component divided by the length, truncated;
/// the zero vector keeps its components.
pub open spec fn unit_spec(v: Vec3) -> Vec3 {
    let s = len_raw(v);
    if s == 0 {
        v
    } else {
        Vec3 { x: fx(tdiv(v.x.raw * SCALE, s)), y: fx(tdiv(v.y.raw * SCALE, s)), z: fx(
            tdiv(v.z.raw * SCALE, s),
        ) }
    }
}

/// Mirror of division by a scalar.
pub open spec fn div_scalar_spec(v: Vec3, k: Fx) -> Vec3 {
    Vec3 { x: fx(sat(tdiv(v.x.raw * SCALE, k.raw as int))), y: fx(
        sat(tdiv(v.y.raw * SCALE, k.raw as int)),
    ), z: fx(sat(tdiv(v.z.raw * SCALE, k.raw as int))) }
}

/// Mirror of the cross product.
pub open spec fn cross_spec(u: Vec3, v: Vec3) -> Vec3 {
    Vec3 { x: fx(
        sat(
            sat(mul_raw(u.y.raw as int, v.z.raw as int)) - sat(
                mul_raw(u.z.raw as int, v.y.raw as int),
            ),
        ),
    ), y: fx(
        sat(
            sat(mul_raw(u.z.raw as int, v.x.raw as int)) - sat(
                mul_raw(u.x.raw as int, v.z.raw as int),
            ),
        ),
    ), z: fx(
        sat(
            sat(mul_raw(u.x.raw as int, v.y.raw as int)) - sat(
                mul_raw(u.y.raw as int, v.x.raw as int),
            ),
        ),
    ) }
}

/// Mirror of reflection about a normal: `v - 2*dot(v,n)*n`.
pub open spec fn reflect_spec(v: Vec3, n: Vec3) -> Vec3 {
    let d = sat(dot_raw(v, n));
    let t = fx(sat(d + d));
    sub_spec(v, scale_spec(n, t))
}

/// Mirror of refraction: the perpendicular and parallel decomposition of
/// Snell's law, over the same saturating fixed-point steps the executable
/// code takes.
pub open spec fn refract_spec(uv: Vec3, n: Vec3, e: Fx) -> Vec3 {
    let d = sat(dot_raw(neg_spec(uv), n));
    let cos_theta = fx(
        if d <= SCALE {
            d
        } else {
            SCALE as int
        },
    );
    let perp = scale_spec(add_spec(uv, scale_spec(n, cos_theta)), e);
    let k = fx(
        crate::fixed::sqrt_raw(
            iabs(sat((SCALE as int) - sat(tdiv(len2_wide(perp), SCALE as int)))),
        ),
    );
    add_spec(perp, scale_spec(n, fx(-k.raw)))
}

impl Vec3 {
    /// Builds a vector from three scalars.
    pub fn new(x: Fx, y: Fx, z: Fx) -> (r: Vec3)
        ensures
            r == (Vec3 { x, y, z }),
    {
        Vec3 { x, y, z }
    }

    /// The zero vector.
    pub fn zero() -> (r: Vec3)
        ensures
            r.x.raw == 0 && r.y.raw == 0 && r.z.raw == 0,
            vec_wf(r),
    {
        Vec3 { x: Fx::zero(), y: Fx::zero(), z: Fx::zero() }
    }

    /// Component-wise addition.
    pub fn add(self, o: Vec3) -> (r: Vec3)
        requires
            vec_wf(self),
            vec_wf(o),
        ensures
            r == add_spec(self, o),
            vec_wf(r),
    {
        Vec3 { x: self.x.add(o.x), y: self.y.add(o.y), z: self.z.add(o.z) }
    }

    /// Component-wise subtraction.
    pub fn sub(self, o: Vec3) -> (r: Vec3)
        requires
            vec_wf(self),
            vec_wf(o),
        ensures
            r == sub_spec(self, o),
            vec_wf(r),
    {
        Vec3 { x: self.x.sub(o.x), y: self.y.sub(o.y), z: self.z.sub(o.z) }
    }

    /// Component-wise multiplication.
    pub fn cmul(self, o: Vec3) -> (r: Vec3)
        requires
            vec_wf(self),
            vec_wf(o),
        ensures
            r == cmul_spec(self, o),
            vec_wf(r),
    {
        Vec3 { x: self.x.mul(o.x), y: self.y.mul(o.y), z: self.z.mul(o.z) }
    }

    /// Multiplication by a scalar.
    pub fn scale(self, k: Fx) -> (r: Vec3)
        requires
            vec_wf(self),
            k.wf(),
        ensures
            r == scale_spec(self, k),
            vec_wf(r),
    {
        Vec3 { x: k.mul(self.x), y: k.mul(self.y), z: k.mul(self.z) }
    }

    /// Division by a scalar: each component divided by `k`.
    pub fn div_scalar(self, k: Fx) -> (r: Vec3)
        requires
            vec_wf(self),
            k.wf(),
        ensures
            r == div_scalar_spec(self, k),
            vec_wf(r),
    {
        Vec3 { x: self.x.div(k), y: self.y.div(k), z: self.z.div(k) }
    }

    /// Negation.
    pub fn neg(self) -> (r: Vec3)
        requires
            vec_wf(self),
        ensures
            r == neg_spec(self),
            vec_wf(r),
    {
        Vec3 { x: self.x.neg(), y: self.y.neg(), z: self.z.neg() }
    }

    /// Dot product, computed exactly in wide arithmetic and rescaled once.
    pub fn dot(u: Vec3, v: Vec3) -> (r: Fx)
        requires
            vec_wf(u),
            vec_wf(v),
        ensures
            r.raw == sat(dot_raw(u, v)),
            r.wf(),
    {
        proof {
            lemma_mul_mag_bound(u.x.raw as int, v.x.raw as int, FX_MAX_RAW as int, FX_MAX_RAW as int);
            lemma_mul_mag_bound(u.y.raw as int, v.y.raw as int, FX_MAX_RAW as int, FX_MAX_RAW as int);
            lemma_mul_mag_bound(u.z.raw as int, v.z.raw as int, FX_MAX_RAW as int, FX_MAX_RAW as int);
        }
        let px: i128 = (u.x.raw as i128) * (v.x.raw as i128);
        let py: i128 = (u.y.raw as i128) * (v.y.raw as i128);
        let pz: i128 = (u.z.raw as i128) * (v.z.raw as i128);
        tdiv_sat(px + py + pz, SCALE as i128)
    }

    /// The exact wide squared length, for internal range reasoning.
    fn len2_i128(self) -> (r: i128)
        requires
            vec_wf(self),
        ensures
            r == len2_wide(self),
            0 <= r <= 2_430_000_000_000_000_000_000_000_000_000_000_000int,
    {
        proof {
            lemma_len2_bounds(self);
        }
        let px: i128 = (self.x.raw as i128) * (self.x.raw as i128);
        let py: i128 = (self.y.raw as i128) * (self.y.raw as i128);
        let pz: i128 = (self.z.raw as i128) * (self.z.raw as i128);
        px + py + pz
    }

    /// Squared length as a scalar (rescaled, saturated).
    pub fn length_squared(self) -> (r: Fx)
        requires
            vec_wf(self),
        ensures
            r.raw == sat(tdiv(len2_wide(self), SCALE as int)),
            r.raw >= 0,
            r.wf(),
    {
        let w = self.len2_i128();
        let r = tdiv_sat(w, SCALE as i128);
        proof {
            crate::fixed::lemma_tdiv_mag(len2_wide(self), SCALE as int);
        }
        r
    }

    /// Length: the integer square root of the wide squared length.
    pub fn length(self) -> (r: Fx)
        requires
            vec_wf(self),
        ensures
            r.raw == len_raw(self),
            r.raw >= 0,
            is_isqrt(len2_wide(self), r.raw as int) || r.raw == FX_MAX_RAW,
            r.wf(),
    {
        let w = self.len2_i128();
        let s: u128 = isqrt_u128(w as u128);
        proof {
            let n = len2_wide(self);
            lemma_isqrt_exists(n);
            lemma_isqrt_unique(n, isqrt_spec(n), s as int);
        }
        if s > FX_MAX_RAW as u128 {
            Fx { raw: FX_MAX_RAW }
        } else {
            Fx { raw: s as i64 }
        }
    }

    /// Normalization.  Besides the exact mirror, every component of the
    /// result is bounded by one unit in magnitude.
    pub fn unit_vector(v: Vec3) -> (r: Vec3)
        requires
            vec_wf(v),
        ensures
            r == unit_spec(v),
            len_raw(v) == 0 ==> r == v,
            len_raw(v) != 0 ==> vec_bounded(r, SCALE as int),
            vec_wf(r),
    {
        let s = v.length();
        if s.raw == 0 {
            v
        } else {
            proof {
                let n = len2_wide(v);
                lemma_len2_bounds(v);
                let q = isqrt_spec(n);
                lemma_isqrt_exists(n);
                let sr = s.raw as int;
                if sr == q {
                    assert(iabs(v.x.raw as int) <= q) by (nonlinear_arith)
                        requires
                            n < (q + 1) * (q + 1),
                            q >= 0,
                            n >= v.x.raw * v.x.raw,
                    ;
                    assert(iabs(v.y.raw as int) <= q) by (nonlinear_arith)
                        requires
                            n < (q + 1) * (q + 1),
                            q >= 0,
                            n >= v.y.raw * v.y.raw,
                    ;
                    assert(iabs(v.z.raw as int) <= q) by (nonlinear_arith)
                        requires
                            n < (q + 1) * (q + 1),
                            q >= 0,
                            n >= v.z.raw * v.z.raw,
                    ;
                } else {
                    assert(sr == FX_MAX_RAW);
                }
                lemma_unit_comp(v.x.raw as int, sr);
                lemma_unit_comp(v.y.raw as int, sr);
                lemma_unit_comp(v.z.raw as int, sr);
            }
            let rx = tdiv_sat((v.x.raw as i128) * (SCALE as i128), s.raw as i128);
            let ry = tdiv_sat((v.y.raw as i128) * (SCALE as i128), s.raw as i128);
            let rz = tdiv_sat((v.z.raw as i128) * (SCALE as i128), s.raw as i128);
            Vec3 { x: rx, y: ry, z: rz }
        }
    }

    /// Whether every component is below the degeneracy threshold; at this
    /// resolution that means every component is exactly zero.
    pub fn near_zero(&self) -> (r: bool)
        ensures
            r == (self.x.raw == 0 && self.y.raw == 0 && self.z.raw == 0),
    {
        self.x.raw == 0 && self.y.raw == 0 && self.z.raw == 0
    }

    /// Cross product.
    pub fn cross(u: Vec3, v: Vec3) -> (r: Vec3)
        requires
            vec_wf(u),
            vec_wf(v),
        ensures
            r == cross_spec(u, v),
            vec_wf(r),
    {
        Vec3 {
            x: u.y.mul(v.z).sub(u.z.mul(v.y)),
            y: u.z.mul(v.x).sub(u.x.mul(v.z)),
            z: u.x.mul(v.y).sub(u.y.mul(v.x)),
        }
    }

    /// Reflection of `v` about the normal `n`.
    pub fn reflect(v: Vec3, n: Vec3) -> (r: Vec3)
        requires
            vec_wf(v),
            vec_wf(n),
        ensures
            r == reflect_spec(v, n),
            vec_wf(r),
    {
        let d = Vec3::dot(v, n);
        let t = d.add(d);
        v.sub(n.scale(t))
    }

    /// Refraction of the unit direction `uv` at a surface with unit outward
    /// normal `n` and refraction ratio `etai_over_etat`, by the perpendicular
    /// and parallel decomposition of Snell's law.
    pub fn refract(uv: Vec3, n: Vec3, etai_over_etat: Fx) -> (r: Vec3)
        requires
            vec_wf(uv),
            vec_wf(n),
            etai_over_etat.wf(),
        ensures
            vec_wf(r),
            r == refract_spec(uv, n, etai_over_etat),
    {
        let cos_theta = Vec3::dot(uv.neg(), n).min(Fx::one());
        let r_out_perp = uv.add(n.scale(cos_theta)).scale(etai_over_etat);
        let k = Fx::one().sub(r_out_perp.length_squared()).abs().sqrt();
        r_out_perp.add(n.scale(k.neg()))
    }

    /// A vector with three independent uniform components in `[0, 1)`.
    pub fn random() -> (r: Vec3)
        ensures
            vec_wf(r),
            0 <= r.x.raw < SCALE,
            0 <= r.y.raw < SCALE,
            0 <= r.z.raw < SCALE,
    {
        Vec3 { x: random_fx(), y: random_fx(), z: random_fx() }
    }

    /// A vector with three independent uniform components in `[min, max)`.
    pub fn random_range(min: Fx, max: Fx) -> (r: Vec3)
        requires
            min.wf(),
            max.wf(),
            min.raw < max.raw,
        ensures
            vec_wf(r),
            min.raw <= r.x.raw < max.raw,
            min.raw <= r.y.raw < max.raw,
            min.raw <= r.z.raw < max.raw,
    {
        Vec3 {
            x: random_fx_range(min, max),
            y: random_fx_range(min, max),
            z: random_fx_range(min, max),
        }
    }

    /// A random direction of unit length, by rejection sampling in the cube
    /// and normalization; the lower acceptance bound of the sampled squared
    /// length lies below this resolution, so any nonzero sample passes.
    /// Falls back to an axis direction if every draw is rejected.  The
    /// squared length of the result is one, up to the sampler's resolution.
    pub fn random_unit_vector() -> (r: Vec3)
        ensures
            unit_sample(r),
    {
        let mut tries: u64 = 0;
        let neg_one = Fx { raw: -SCALE };
        while tries < 64
            invariant
                neg_one.raw == -SCALE,
            decreases 64 - tries,
        {
            let p = Vec3::random_range(neg_one, Fx::one());
            let lensq = p.length_squared();
            if 0 < lensq.raw && lensq.raw <= SCALE {
                let u = Vec3::unit_vector(p);
                if !u.near_zero() {
                    proof {
                        lemma_accepted_sample_is_unit(p, lensq.raw as int);
                    }
                    if u.x.raw <= SCALE && -SCALE <= u.x.raw && u.y.raw <= SCALE && -SCALE
                        <= u.y.raw && u.z.raw <= SCALE && -SCALE <= u.z.raw {
                        return u;
                    }
                }
            }
            tries = tries + 1;
        }
        let fallback = Vec3 { x: Fx::one(), y: Fx::zero(), z: Fx::zero() };
        proof {
            assert(len2_wide(fallback) == SCALE * SCALE) by (nonlinear_arith)
                requires
                    fallback.x.raw == SCALE && fallback.y.raw == 0 && fallback.z.raw == 0,
                    SCALE == 1_000_000,
            ;
            assert(SCALE * SCALE - 6 * SCALE <= len2_wide(fallback) <= SCALE * SCALE + 2002
                * SCALE) by (nonlinear_arith)
                requires
                    len2_wide(fallback) == SCALE * SCALE,
                    SCALE == 1_000_000,
            ;
        }
        fallback
    }

    /// A random unit direction lying in the hemisphere of the given normal.
    pub fn random_on_hemisphere(normal: Vec3) -> (r: Vec3)
        requires
            vec_wf(normal),
        ensures
            unit_sample(r),
            sat(dot_raw(r, normal)) >= 0,
    {
        let on_unit_sphere = Vec3::random_unit_vector();
        let d = Vec3::dot(on_unit_sphere, normal);
        if d.raw > 0 {
            on_unit_sphere
        } else {
            let m = on_unit_sphere.neg();
            proof {
                lemma_dot_neg_left(on_unit_sphere, normal);
                lemma_len2_neg(on_unit_sphere);
            }
            m
        }
    }

    /// A random vector in the unit disk of the x-y plane, by rejection
    /// sampling; falls back to the origin if every draw is rejected.
    pub fn random_in_unit_disk() -> (r: Vec3)
        ensures
            vec_wf(r),
            r.z.raw == 0,
            len2_wide(r) < SCALE * SCALE,
    {
        let mut tries: u64 = 0;
        let neg_one = Fx { raw: -SCALE };
        while tries < 64
            invariant
                neg_one.raw == -SCALE,
            decreases 64 - tries,
        {
            let p = Vec3 {
                x: random_fx_range(neg_one, Fx::one()),
                y: random_fx_range(neg_one, Fx::one()),
                z: Fx::zero(),
            };
            let lensq = p.len2_i128();
            if lensq < (SCALE as i128) * (SCALE as i128) {
                return p;
            }
            tries = tries + 1;
        }
        proof {
            assert(0 < SCALE * SCALE) by (nonlinear_arith)
                requires
                    SCALE == 1_000_000,
            ;
        }
        Vec3::zero()
    }
}

/// The wide squared length of a representable vector is nonnegative,
/// bounded, and at least each component's square.
proof fn lemma_len2_bounds(v: Vec3)
    requires
        vec_wf(v),
    ensures
        0 <= len2_wide(v) <= 2_430_000_000_000_000_000_000_000_000_000_000_000int,
        v.x.raw * v.x.raw <= len2_wide(v),
        v.y.raw * v.y.raw <= len2_wide(v),
        v.z.raw * v.z.raw <= len2_wide(v),
        0 <= v.x.raw * v.x.raw,
        0 <= v.y.raw * v.y.raw,
        0 <= v.z.raw * v.z.raw,
{
    assert(0 <= v.x.raw * v.x.raw <= 810_000_000_000_000_000_000_000_000_000_000_000int)
        by (nonlinear_arith)
        requires
            iabs(v.x.raw as int) <= 900_000_000_000_000_000int,
    ;
    assert(0 <= v.y.raw * v.y.raw <= 810_000_000_000_000_000_000_000_000_000_000_000int)
        by (nonlinear_arith)
        requires
            iabs(v.y.raw as int) <= 900_000_000_000_000_000int,
    ;
    assert(0 <= v.z.raw * v.z.raw <= 810_000_000_000_000_000_000_000_000_000_000_000int)
        by (nonlinear_arith)
        requires
            iabs(v.z.raw as int) <= 900_000_000_000_000_000int,
    ;
}

/// A component no larger than the length divides to at most one unit.
proof fn lemma_unit_comp(c: int, s: int)
    requires
        s >= 1,
        iabs(c) <= s,
    ensures
        iabs(tdiv(c * SCALE, s)) <= SCALE,
        sat(tdiv(c * SCALE, s)) == tdiv(c * SCALE, s),
{
    lemma_mul_mag_bound(c, SCALE as int, s, SCALE as int);
    lemma_tdiv_bound(c * SCALE, s, s * SCALE);
    lemma_div_multiples_vanish(SCALE as int, s);
}

/// Reflection about a unit normal preserves length.  Stated over exact
/// integers in the scaled world: if the normal squares to the unit scale
/// `u` (`|n|^2 == u`, the integer form of `|n| == 1`), then the reflection
/// numerator `u*v - 2*dot(v,n)*n` squares to exactly `u^2 * |v|^2`.
pub proof fn lemma_reflect_preserves_length(
    vx: int,
    vy: int,
    vz: int,
    nx: int,
    ny: int,
    nz: int,
    u: int,
)
    requires
        nx * nx + ny * ny + nz * nz == u,
    ensures
        ({
            let d = vx * nx + vy * ny + vz * nz;
            let rx = u * vx - 2 * d * nx;
            let ry = u * vy - 2 * d * ny;
            let rz = u * vz - 2 * d * nz;
            rx * rx + ry * ry + rz * rz == u * u * (vx * vx + vy * vy + vz * vz)
        }),
{
    let d = vx * nx + vy * ny + vz * nz;
    let rx = u * vx - 2 * d * nx;
    let ry = u * vy - 2 * d * ny;
    let rz = u * vz - 2 * d * nz;
    lemma_sq_of_diff(u, vx, d, nx);
    lemma_sq_of_diff(u, vy, d, ny);
    lemma_sq_of_diff(u, vz, d, nz);
    assert((u * d) * (vx * nx) + (u * d) * (vy * ny) + (u * d) * (vz * nz) == (u * d) * d)
        by (nonlinear_arith)
        requires
            d == vx * nx + vy * ny + vz * nz,
    ;
    assert((d * d) * (nx * nx) + (d * d) * (ny * ny) + (d * d) * (nz * nz) == (d * d) * u)
        by (nonlinear_arith)
        requires
            nx * nx + ny * ny + nz * nz == u,
    ;
    assert((u * u) * (vx * vx) + (u * u) * (vy * vy) + (u * u) * (vz * vz) == u * u * (vx * vx + vy
        * vy + vz * vz)) by (nonlinear_arith);
    assert((u * d) * d == (d * d) * u) by (nonlinear_arith);
}

/// One component of the reflection numerator, squared and expanded.
proof fn lemma_sq_of_diff(u: int, v: int, d: int, n: int)
    ensures
        (u * v - 2 * d * n) * (u * v - 2 * d * n) == (u * u) * (v * v) - 4 * ((u * d) * (v * n))
            + 4 * ((d * d) * (n * n)),
{
    let a = u * v;
    let b = 2 * d * n;
    assert((a - b) * (a - b) == a * a - 2 * (a * b) + b * b) by (nonlinear_arith);
    assert(a * a == (u * u) * (v * v)) by (nonlinear_arith)
        requires
            a == u * v,
    ;
    assert(a * b == 2 * ((u * d) * (v * n))) by (nonlinear_arith)
        requires
            a == u * v,
            b == 2 * d * n,
    ;
    assert(b * b == 4 * ((d * d) * (n * n))) by (nonlinear_arith)
        requires
            b == 2 * d * n,
    ;
}

/// Normalization yields a vector of unit length up to the fixed-point
/// resolution.  With `s` the integer length of a nonzero in-range `v` and
/// `u2` the squared length of the normalized vector: `u2` is at least
/// `SCALE^2 - 6*SCALE` (one, less six millionths), and at most
/// `(s+1)^2 / s^2` square units (one, plus about two parts in `s`).
pub proof fn lemma_unit_vector_length(v: Vec3)
    requires
        vec_bounded(v, 1_000_000_000),
        len2_wide(v) > 0,
    ensures
        ({
            let s = isqrt_spec(len2_wide(v));
            let u2 = len2_wide(unit_spec(v));
            &&& SCALE * SCALE - 6 * SCALE <= u2
            &&& s * s * u2 <= len2_wide(v) * SCALE * SCALE
            &&& len2_wide(v) * SCALE * SCALE < (s + 1) * (s + 1) * (SCALE * SCALE)
        }),
{
    let big = SCALE * SCALE;
    let n = len2_wide(v);
    let cx = v.x.raw as int;
    let cy = v.y.raw as int;
    let cz = v.z.raw as int;
    assert(0 <= cx * cx <= 1_000_000_000_000_000_000) by (nonlinear_arith)
        requires
            iabs(cx) <= 1_000_000_000,
    ;
    assert(0 <= cy * cy <= 1_000_000_000_000_000_000) by (nonlinear_arith)
        requires
            iabs(cy) <= 1_000_000_000,
    ;
    assert(0 <= cz * cz <= 1_000_000_000_000_000_000) by (nonlinear_arith)
        requires
            iabs(cz) <= 1_000_000_000,
    ;
    lemma_isqrt_exists(n);
    let s = isqrt_spec(n);
    assert(s >= 1) by {
        if s == 0 {
            assert(n < 1);
        }
    }
    assert(s <= 1_800_000_000) by (nonlinear_arith)
        requires
            s * s <= n,
            n <= 3_000_000_000_000_000_000,
            s >= 0,
    ;
    assert(len_raw(v) == s);
    let w = unit_spec(v);
    lemma_unit_comp_sq(cx, s, n);
    lemma_unit_comp_sq(cy, s, n);
    lemma_unit_comp_sq(cz, s, n);
    let ux = tdiv(cx * SCALE, s);
    let uy = tdiv(cy * SCALE, s);
    let uz = tdiv(cz * SCALE, s);
    assert(w.x.raw == ux && w.y.raw == uy && w.z.raw == uz) by {
        lemma_unit_comp(cx, s);
        lemma_unit_comp(cy, s);
        lemma_unit_comp(cz, s);
    }
    let u2 = len2_wide(w);
    assert((ux * s) * (ux * s) == (s * s) * (ux * ux)) by (nonlinear_arith);
    assert((uy * s) * (uy * s) == (s * s) * (uy * uy)) by (nonlinear_arith);
    assert((uz * s) * (uz * s) == (s * s) * (uz * uz)) by (nonlinear_arith);
    assert((s * s) * u2 == (s * s) * (ux * ux) + (s * s) * (uy * uy) + (s * s) * (uz * uz))
        by (nonlinear_arith)
        requires
            u2 == ux * ux + uy * uy + uz * uz,
    ;
    assert((cx * SCALE) * (cx * SCALE) == (cx * cx) * big) by (nonlinear_arith)
        requires
            big == SCALE * SCALE,
    ;
    assert((cy * SCALE) * (cy * SCALE) == (cy * cy) * big) by (nonlinear_arith)
        requires
            big == SCALE * SCALE,
    ;
    assert((cz * SCALE) * (cz * SCALE) == (cz * cz) * big) by (nonlinear_arith)
        requires
            big == SCALE * SCALE,
    ;
    assert((cx * cx) * big + (cy * cy) * big + (cz * cz) * big == n * big) by (nonlinear_arith)
        requires
            n == cx * cx + cy * cy + cz * cz,
    ;
    assert((s * s) * u2 <= n * big);
    assert((s * s) * u2 >= n * big - 6 * ((s * s) * SCALE));
    assert(n * big >= (s * s) * big) by (nonlinear_arith)
        requires
            s * s <= n,
            big >= 0,
    ;
    assert(u2 >= SCALE * SCALE - 6 * SCALE) by (nonlinear_arith)
        requires
            (s * s) * u2 >= (s * s) * (SCALE * SCALE) - 6 * ((s * s) * SCALE),
            s >= 1,
            SCALE == 1_000_000,
    ;
    assert(n * big < (s + 1) * (s + 1) * big) by (nonlinear_arith)
        requires
            n < (s + 1) * (s + 1),
            big == SCALE * SCALE,
            SCALE == 1_000_000,
    ;
    assert(s * s * u2 <= len2_wide(v) * SCALE * SCALE) by (nonlinear_arith)
        requires
            (s * s) * u2 <= n * big,
            n == len2_wide(v),
            big == SCALE * SCALE,
    ;
    assert(len2_wide(v) * SCALE * SCALE < (s + 1) * (s + 1) * (SCALE * SCALE)) by (nonlinear_arith)
        requires
            n * big < (s + 1) * (s + 1) * big,
            n == len2_wide(v),
            big == SCALE * SCALE,
    ;
}

/// The scaled, truncated unit component squares to within one remainder band
/// of the exact scaled component.
proof fn lemma_unit_comp_sq(c: int, s: int, n: int)
    requires
        1 <= s,
        c * c <= n,
        n < (s + 1) * (s + 1),
        iabs(c) <= 1_000_000_000,
        s <= 1_800_000_000,
    ensures
        iabs(c) <= s,
        ({
            let q = tdiv(c * SCALE, s);
            &&& (q * s) * (q * s) <= (c * SCALE) * (c * SCALE)
            &&& (q * s) * (q * s) >= (c * SCALE) * (c * SCALE) - 2 * (s * s) * SCALE
        }),
{
    let q = tdiv(c * SCALE, s);
    let m = iabs(c);
    assert(m * m == c * c) by (nonlinear_arith)
        requires
            m == iabs(c),
    ;
    assert(m <= s) by (nonlinear_arith)
        requires
            m * m <= n,
            n < (s + 1) * (s + 1),
            s >= 0,
            m >= 0,
    ;
    lemma_tdiv_mag(c * SCALE, s);
    assert(iabs(c * SCALE) == m * SCALE) by (nonlinear_arith)
        requires
            m == iabs(c),
            SCALE == 1_000_000,
    ;
    let qm = iabs(q);
    vstd::arithmetic::div_mod::lemma_fundamental_div_mod(m * SCALE, s);
    vstd::arithmetic::div_mod::lemma_mod_division_less_than_divisor(m * SCALE, s);
    assert(qm == (m * SCALE) / s);
    assert(qm * s <= m * SCALE && m * SCALE < qm * s + s) by (nonlinear_arith)
        requires
            m * SCALE == s * ((m * SCALE) / s) + (m * SCALE) % s,
            0 <= (m * SCALE) % s < s,
            qm == (m * SCALE) / s,
    ;
    assert((qm * s) * (qm * s) <= (m * SCALE) * (m * SCALE)) by (nonlinear_arith)
        requires
            0 <= qm * s <= m * SCALE,
    ;
    assert((qm * s) * (qm * s) >= (m * SCALE) * (m * SCALE) - 2 * s * (m * SCALE))
        by (nonlinear_arith)
        requires
            qm * s > m * SCALE - s,
            qm * s >= 0,
            m * SCALE >= 0,
            s >= 1,
    ;
    assert(2 * s * (m * SCALE) <= 2 * (s * s) * SCALE) by (nonlinear_arith)
        requires
            m <= s,
            s >= 1,
            SCALE == 1_000_000,
    ;
    assert((q * s) * (q * s) == (qm * s) * (qm * s)) by (nonlinear_arith)
        requires
            qm == iabs(q),
    ;
    assert((c * SCALE) * (c * SCALE) == (m * SCALE) * (m * SCALE)) by (nonlinear_arith)
        requires
            m == iabs(c),
    ;
}

/// Negation keeps the squared length.
proof fn lemma_len2_neg(v: Vec3)
    requires
        vec_wf(v),
    ensures
        len2_wide(neg_spec(v)) == len2_wide(v),
{
    let m = neg_spec(v);
    assert(m.x.raw == -v.x.raw && m.y.raw == -v.y.raw && m.z.raw == -v.z.raw);
    assert(m.x.raw * m.x.raw == v.x.raw * v.x.raw && m.y.raw * m.y.raw == v.y.raw * v.y.raw
        && m.z.raw * m.z.raw == v.z.raw * v.z.raw) by (nonlinear_arith)
        requires
            m.x.raw == -v.x.raw && m.y.raw == -v.y.raw && m.z.raw == -v.z.raw,
    ;
}

/// A cube sample accepted by the rejection test (positive rescaled squared
/// length, at most one square unit) normalizes to a vector whose squared
/// length is one up to the sampler's resolution bounds.
proof fn lemma_accepted_sample_is_unit(p: Vec3, lensq: int)
    requires
        vec_bounded(p, SCALE as int),
        vec_wf(p),
        lensq == sat(tdiv(len2_wide(p), SCALE as int)),
        0 < lensq <= SCALE,
    ensures
        len_raw(p) != 0,
        SCALE * SCALE - 6 * SCALE <= len2_wide(unit_spec(p)) <= SCALE * SCALE + 2002 * SCALE,
{
    let big = SCALE * SCALE;
    let l = len2_wide(p);
    lemma_len2_bounds(p);
    assert(p.x.raw * p.x.raw <= 1_000_000_000_000int) by (nonlinear_arith)
        requires
            iabs(p.x.raw as int) <= 1_000_000,
    ;
    assert(p.y.raw * p.y.raw <= 1_000_000_000_000int) by (nonlinear_arith)
        requires
            iabs(p.y.raw as int) <= 1_000_000,
    ;
    assert(p.z.raw * p.z.raw <= 1_000_000_000_000int) by (nonlinear_arith)
        requires
            iabs(p.z.raw as int) <= 1_000_000,
    ;
    // A positive rescaled squared length means at least one square unit raw.
    assert(l >= SCALE) by {
        if l < SCALE {
            vstd::arithmetic::div_mod::lemma_basic_div(l, SCALE as int);
        }
    }
    lemma_isqrt_exists(l);
    let s = isqrt_spec(l);
    assert(s >= 1000) by (nonlinear_arith)
        requires
            l < (s + 1) * (s + 1),
            l >= 1_000_000,
            s >= 0,
    ;
    assert(s <= 1_800_000_000) by (nonlinear_arith)
        requires
            s * s <= l,
            l <= 3_000_000_000_000int,
            s >= 0,
    ;
    assert(len_raw(p) == s);
    lemma_unit_vector_length(p);
    let u2 = len2_wide(unit_spec(p));
    assert(u2 <= big + 2002 * SCALE) by (nonlinear_arith)
        requires
            s * s * u2 <= l * SCALE * SCALE,
            l * SCALE * SCALE < (s + 1) * (s + 1) * (SCALE * SCALE),
            big == SCALE * SCALE,
            s >= 1000,
            u2 >= 0,
            SCALE == 1_000_000,
    ;
}

/// Negating the left argument negates the rescaled dot product.
proof fn lemma_dot_neg_left(u: Vec3, v: Vec3)
    requires
        vec_wf(u),
    ensures
        dot_raw(neg_spec(u), v) == -dot_raw(u, v),
{
    let a = u.x.raw * v.x.raw + u.y.raw * v.y.raw + u.z.raw * v.z.raw;
    let m = neg_spec(u);
    assert(m.x.raw == -u.x.raw && m.y.raw == -u.y.raw && m.z.raw == -u.z.raw);
    assert(m.x.raw * v.x.raw + m.y.raw * v.y.raw + m.z.raw * v.z.raw == -a) by (nonlinear_arith)
        requires
            m.x.raw == -u.x.raw && m.y.raw == -u.y.raw && m.z.raw == -u.z.raw,
            a == u.x.raw * v.x.raw + u.y.raw * v.y.raw + u.z.raw * v.z.raw,
    ;
    crate::fixed::lemma_tdiv_neg(a, SCALE as int);
}

} // verus!

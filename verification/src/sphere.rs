//! Spheres and the ray/sphere intersection protocol.
//!
//! The intersection solves the half-b quadratic `a*t^2 - 2*h*t + c = 0`
//! exactly over wide integers; `a`, `h` and `c` carry twice the fixed-point
//! scale and the discriminant four times.  The result equals a deterministic
//! spec-level mirror, so every accepted or rejected hit is pinned down.

use vstd::prelude::*;
use crate::fixed::Fx;
use crate::fixed::SCALE;
use crate::fixed::iabs;
use crate::fixed::isqrt_spec;
use crate::fixed::isqrt_u128;
use crate::fixed::lemma_isqrt_exists;
use crate::fixed::lemma_isqrt_unique;
use crate::fixed::lemma_mul_mag_bound;
use crate::fixed::lemma_tdiv_mag;
use crate::fixed::lemma_tdiv_mono;
use crate::fixed::sat;
use crate::fixed::tdiv;
use crate::fixed::tdiv_i128;
use crate::hittable::HitRecord;
use crate::hittable::hit_record_wf;
use crate::interval::Interval;
use crate::material::Material;
use crate::material::material_wf;
use crate::ray::COORD_MAX_RAW;
use crate::ray::Ray;
use crate::ray::ray_in_range;
use crate::vec3::Point3;
use crate::vec3::add_spec;
use crate::vec3::div_scalar_spec;
use crate::vec3::dot_raw;
use crate::vec3::fx;
use crate::vec3::len2_wide;
use crate::vec3::neg_spec;
use crate::vec3::scale_spec;
use crate::vec3::sub_spec;
use crate::vec3::vec_bounded;

verus! {

/// A sphere: center, radius, and the material it owns.
#[derive(Clone, Copy, Debug, PartialEq, Eq, Structural)]
pub struct Sphere {
    pub center: Point3,
    pub radius: Fx,
    pub mat: Material,
}

/// The sphere's geometry lies in the coordinate range of the intersection
/// arithmetic and the radius is positive.
pub open spec fn sphere_wf(s: Sphere) -> bool {
    &&& vec_bounded(s.center, COORD_MAX_RAW as int)
    &&& 1 <= s.radius.raw <= COORD_MAX_RAW
    &&& material_wf(s.mat)
}

/// Quadratic coefficient `a = |direction|^2`, at twice the scale.
pub open spec fn quad_a(r: Ray) -> int {
    len2_wide(r.direction)
}

/// Half-b coefficient `h = dot(direction, center - origin)`, at twice the
/// scale.
pub open spec fn quad_h(s: Sphere, r: Ray) -> int {
    r.direction.x.raw * (s.center.x.raw - r.origin.x.raw) + r.direction.y.raw * (s.center.y.raw
        - r.origin.y.raw) + r.direction.z.raw * (s.center.z.raw - r.origin.z.raw)
}

/// Constant coefficient `c = |center - origin|^2 - radius^2`, at twice the
/// scale.
pub open spec fn quad_c(s: Sphere, r: Ray) -> int {
    let ocx = s.center.x.raw - r.origin.x.raw;
    let ocy = s.center.y.raw - r.origin.y.raw;
    let ocz = s.center.z.raw - r.origin.z.raw;
    ocx * ocx + ocy * ocy + ocz * ocz - s.radius.raw * s.radius.raw
}

/// Discriminant `h^2 - a*c`, at four times the scale.
pub open spec fn quad_disc(s: Sphere, r: Ray) -> int {
    quad_h(s, r) * quad_h(s, r) - quad_a(r) * quad_c(s, r)
}

/// The smaller candidate root `(h - sqrt(disc)) / a`, as a raw parameter.
pub open spec fn root_low(s: Sphere, r: Ray) -> int {
    tdiv((quad_h(s, r) - isqrt_spec(quad_disc(s, r))) * SCALE, quad_a(r))
}

/// The larger candidate root `(h + sqrt(disc)) / a`, as a raw parameter.
pub open spec fn root_high(s: Sphere, r: Ray) -> int {
    tdiv((quad_h(s, r) + isqrt_spec(quad_disc(s, r))) * SCALE, quad_a(r))
}

/// The accepted ray parameter: the smaller root if it lies strictly inside
/// the window, else the larger root if it does, else none.  A degenerate
/// direction or a negative discriminant never hits.
pub open spec fn chosen_root(s: Sphere, r: Ray, tmin: int, tmax: int) -> Option<int> {
    if quad_a(r) == 0 || quad_disc(s, r) < 0 {
        None
    } else if tmin < root_low(s, r) < tmax {
        Some(root_low(s, r))
    } else if tmin < root_high(s, r) < tmax {
        Some(root_high(s, r))
    } else {
        None
    }
}

/// Mirror of the whole intersection query: the accepted parameter, the hit
/// point on the ray, the outward normal scaled by the inverse radius, and
/// the face flip against the incoming direction.
pub open spec fn spec_hit(s: Sphere, r: Ray, tmin: int, tmax: int) -> Option<HitRecord> {
    match chosen_root(s, r, tmin, tmax) {
        None => None,
        Some(troot) => {
            let t = fx(troot);
            let p = add_spec(r.origin, scale_spec(r.direction, t));
            let outward = div_scalar_spec(sub_spec(p, s.center), s.radius);
            let ff = sat(dot_raw(r.direction, outward)) < 0;
            let normal = if ff {
                outward
            } else {
                neg_spec(outward)
            };
            Some(HitRecord { p, normal, t, front_face: ff, mat: s.mat })
        },
    }
}

/// Range facts about the quadratic coefficients for in-range geometry.
proof fn lemma_quad_bounds(s: Sphere, r: Ray)
    requires
        sphere_wf(s),
        ray_in_range(r),
    ensures
        0 <= quad_a(r) <= 3_000_000_000_000_000_000,
        iabs(quad_h(s, r)) <= 6_000_000_000_000_000_000,
        iabs(quad_c(s, r)) <= 13_000_000_000_000_000_000,
        iabs(quad_disc(s, r)) <= 76_000_000_000_000_000_000_000_000_000_000_000_000,
        0 <= r.direction.x.raw * r.direction.x.raw <= 1_000_000_000_000_000_000,
        0 <= r.direction.y.raw * r.direction.y.raw <= 1_000_000_000_000_000_000,
        0 <= r.direction.z.raw * r.direction.z.raw <= 1_000_000_000_000_000_000,
        iabs(r.direction.x.raw * (s.center.x.raw - r.origin.x.raw)) <= 2_000_000_000_000_000_000,
        iabs(r.direction.y.raw * (s.center.y.raw - r.origin.y.raw)) <= 2_000_000_000_000_000_000,
        iabs(r.direction.z.raw * (s.center.z.raw - r.origin.z.raw)) <= 2_000_000_000_000_000_000,
        0 <= (s.center.x.raw - r.origin.x.raw) * (s.center.x.raw - r.origin.x.raw)
            <= 4_000_000_000_000_000_000,
        0 <= (s.center.y.raw - r.origin.y.raw) * (s.center.y.raw - r.origin.y.raw)
            <= 4_000_000_000_000_000_000,
        0 <= (s.center.z.raw - r.origin.z.raw) * (s.center.z.raw - r.origin.z.raw)
            <= 4_000_000_000_000_000_000,
        0 <= s.radius.raw * s.radius.raw <= 1_000_000_000_000_000_000,
        iabs(quad_h(s, r) * quad_h(s, r)) <= 36_000_000_000_000_000_000_000_000_000_000_000_000,
        iabs(quad_a(r) * quad_c(s, r)) <= 39_000_000_000_000_000_000_000_000_000_000_000_000,
{
    let c = COORD_MAX_RAW as int;
    let dx = r.direction.x.raw as int;
    let dy = r.direction.y.raw as int;
    let dz = r.direction.z.raw as int;
    let ocx = s.center.x.raw - r.origin.x.raw;
    let ocy = s.center.y.raw - r.origin.y.raw;
    let ocz = s.center.z.raw - r.origin.z.raw;
    assert(0 <= dx * dx <= 1_000_000_000_000_000_000) by (nonlinear_arith)
        requires
            iabs(dx) <= 1_000_000_000,
    ;
    assert(0 <= dy * dy <= 1_000_000_000_000_000_000) by (nonlinear_arith)
        requires
            iabs(dy) <= 1_000_000_000,
    ;
    assert(0 <= dz * dz <= 1_000_000_000_000_000_000) by (nonlinear_arith)
        requires
            iabs(dz) <= 1_000_000_000,
    ;
    lemma_mul_mag_bound(dx, ocx, c, 2 * c);
    lemma_mul_mag_bound(dy, ocy, c, 2 * c);
    lemma_mul_mag_bound(dz, ocz, c, 2 * c);
    assert(0 <= ocx * ocx <= 4_000_000_000_000_000_000) by (nonlinear_arith)
        requires
            iabs(ocx) <= 2_000_000_000,
    ;
    assert(0 <= ocy * ocy <= 4_000_000_000_000_000_000) by (nonlinear_arith)
        requires
            iabs(ocy) <= 2_000_000_000,
    ;
    assert(0 <= ocz * ocz <= 4_000_000_000_000_000_000) by (nonlinear_arith)
        requires
            iabs(ocz) <= 2_000_000_000,
    ;
    assert(0 <= s.radius.raw * s.radius.raw <= 1_000_000_000_000_000_000) by (nonlinear_arith)
        requires
            1 <= s.radius.raw <= 1_000_000_000,
    ;
    lemma_mul_mag_bound(quad_h(s, r), quad_h(s, r), 6_000_000_000_000_000_000, 6_000_000_000_000_000_000);
    lemma_mul_mag_bound(quad_a(r), quad_c(s, r), 3_000_000_000_000_000_000, 13_000_000_000_000_000_000);
}

/// Both candidate roots of a hit are symmetric about `t = h / a` (the dot of
/// the direction with the offset to the center, over the squared direction
/// length): the two root numerators average exactly to `h`, the smaller root
/// never exceeds the larger, and the divided roots themselves average to the
/// divided midpoint up to three raw units of division rounding.
pub proof fn lemma_roots_symmetric(s: Sphere, r: Ray)
    requires
        quad_a(r) >= 1,
        quad_disc(s, r) >= 0,
    ensures
        (quad_h(s, r) - isqrt_spec(quad_disc(s, r))) + (quad_h(s, r) + isqrt_spec(
            quad_disc(s, r),
        )) == 2 * quad_h(s, r),
        root_low(s, r) <= root_high(s, r),
        iabs(
            root_low(s, r) + root_high(s, r) - 2 * tdiv(quad_h(s, r) * SCALE, quad_a(r)),
        ) <= 3,
{
    let a = quad_a(r);
    let h = quad_h(s, r);
    let d = quad_disc(s, r);
    let q = isqrt_spec(d);
    lemma_isqrt_exists(d);
    assert((h - q) * SCALE <= (h + q) * SCALE) by (nonlinear_arith)
        requires
            q >= 0,
            SCALE == 1_000_000,
    ;
    lemma_tdiv_mono((h - q) * SCALE, (h + q) * SCALE, a);
    let na = (h - q) * SCALE;
    let nb = (h + q) * SCALE;
    let m = h * SCALE;
    assert(na + nb == 2 * m) by (nonlinear_arith)
        requires
            na == (h - q) * SCALE,
            nb == (h + q) * SCALE,
            m == h * SCALE,
    ;
    crate::fixed::lemma_tdiv_rem(na, a);
    crate::fixed::lemma_tdiv_rem(nb, a);
    crate::fixed::lemma_tdiv_rem(m, a);
    let qa = tdiv(na, a);
    let qb = tdiv(nb, a);
    let qm = tdiv(m, a);
    let ea = na - a * qa;
    let eb = nb - a * qb;
    let em = m - a * qm;
    let dd = root_low(s, r) + root_high(s, r) - 2 * qm;
    assert(a * dd == a * qa + a * qb - 2 * (a * qm)) by (nonlinear_arith)
        requires
            dd == qa + qb - 2 * qm,
    ;
    assert(a * dd == 2 * em - ea - eb);
    assert(iabs(a * dd) <= 4 * a - 4);
    assert(iabs(dd) <= 3) by (nonlinear_arith)
        requires
            iabs(a * dd) <= 4 * a - 4,
            a >= 1,
    ;
}

/// A ray that starts strictly outside the sphere and points away from it
/// never hits: with `c > 0` and `h <= 0` both candidate roots are
/// nonpositive, so no root lies inside a window with a nonnegative lower
/// bound.
pub proof fn lemma_miss_when_pointing_away(s: Sphere, r: Ray, tmin: int, tmax: int)
    requires
        quad_c(s, r) > 0,
        quad_h(s, r) <= 0,
        tmin >= 0,
    ensures
        chosen_root(s, r, tmin, tmax) is None,
{
    let a = quad_a(r);
    let h = quad_h(s, r);
    let c = quad_c(s, r);
    let d = quad_disc(s, r);
    assert(a >= 0) by (nonlinear_arith)
        requires
            a == r.direction.x.raw * r.direction.x.raw + r.direction.y.raw * r.direction.y.raw
                + r.direction.z.raw * r.direction.z.raw,
    ;
    if a == 0 {
    } else if d < 0 {
    } else {
        assert(a * c > 0) by (nonlinear_arith)
            requires
                a >= 1,
                c > 0,
        ;
        assert(d < h * h);
        let q = isqrt_spec(d);
        lemma_isqrt_exists(d);
        assert(q < -h) by (nonlinear_arith)
            requires
                q >= 0,
                h <= 0,
                q * q <= d,
                d < h * h,
        ;
        assert((h - q) * SCALE <= 0) by (nonlinear_arith)
            requires
                h - q <= 0,
                SCALE == 1_000_000,
        ;
        assert((h + q) * SCALE <= 0) by (nonlinear_arith)
            requires
                h + q <= 0,
                SCALE == 1_000_000,
        ;
        lemma_tdiv_mag((h - q) * SCALE, a);
        lemma_tdiv_mag((h + q) * SCALE, a);
        assert(root_low(s, r) <= 0);
        assert(root_high(s, r) <= 0);
    }
}

impl Sphere {
    /// Builds a sphere; the bounds keep the intersection arithmetic exact.
    pub fn new(center: Point3, radius: Fx, mat: Material) -> (s: Sphere)
        requires
            vec_bounded(center, COORD_MAX_RAW as int),
            1 <= radius.raw <= COORD_MAX_RAW,
            material_wf(mat),
        ensures
            s == (Sphere { center, radius, mat }),
            sphere_wf(s),
    {
        Sphere { center, radius, mat }
    }

    /// Intersects a ray with the sphere inside the acceptance window.  The
    /// result equals the deterministic mirror; a ray starting strictly
    /// outside and pointing away never hits; when the smaller root lies
    /// strictly inside the window, it is the accepted parameter.
    pub fn hit(&self, r: &Ray, ray_t: Interval) -> (res: Option<HitRecord>)
        requires
            sphere_wf(*self),
            ray_in_range(*r),
            ray_t.min.wf(),
            ray_t.max.wf(),
        ensures
            res == spec_hit(*self, *r, ray_t.min.raw as int, ray_t.max.raw as int),
            res matches Some(rec) ==> {
                &&& ray_t.min.raw < rec.t.raw < ray_t.max.raw
                &&& hit_record_wf(rec)
                &&& rec.mat == self.mat
            },
            quad_c(*self, *r) > 0 && quad_h(*self, *r) <= 0 && ray_t.min.raw >= 0 ==> res is None,
            (quad_a(*r) >= 1 && quad_disc(*self, *r) >= 0 && ray_t.min.raw < root_low(*self, *r)
                < ray_t.max.raw) ==> (res matches Some(rec) && rec.t.raw == root_low(*self, *r)),
    {
        proof {
            lemma_quad_bounds(*self, *r);
            if quad_c(*self, *r) > 0 && quad_h(*self, *r) <= 0 && ray_t.min.raw >= 0 {
                lemma_miss_when_pointing_away(
                    *self,
                    *r,
                    ray_t.min.raw as int,
                    ray_t.max.raw as int,
                );
            }
        }
        let dx: i128 = r.direction.x.raw as i128;
        let dy: i128 = r.direction.y.raw as i128;
        let dz: i128 = r.direction.z.raw as i128;
        let ocx: i128 = (self.center.x.raw as i128) - (r.origin.x.raw as i128);
        let ocy: i128 = (self.center.y.raw as i128) - (r.origin.y.raw as i128);
        let ocz: i128 = (self.center.z.raw as i128) - (r.origin.z.raw as i128);

        let a: i128 = dx * dx + dy * dy + dz * dz;
        if a == 0 {
            return None;
        }
        let h: i128 = dx * ocx + dy * ocy + dz * ocz;
        let rr: i128 = (self.radius.raw as i128) * (self.radius.raw as i128);
        let c: i128 = ocx * ocx + ocy * ocy + ocz * ocz - rr;
        let disc: i128 = h * h - a * c;
        if disc < 0 {
            return None;
        }

        let sq: u128 = isqrt_u128(disc as u128);
        proof {
            let d = quad_disc(*self, *r);
            lemma_isqrt_exists(d);
            lemma_isqrt_unique(d, isqrt_spec(d), sq as int);
            assert(sq * sq <= 76_000_000_000_000_000_000_000_000_000_000_000_000);
            assert(sq <= 8_800_000_000_000_000_000u128) by (nonlinear_arith)
                requires
                    sq * sq <= 76_000_000_000_000_000_000_000_000_000_000_000_000u128,
            ;
            lemma_mul_mag_bound(
                quad_h(*self, *r) - (sq as int),
                SCALE as int,
                15_000_000_000_000_000_000,
                SCALE as int,
            );
            lemma_mul_mag_bound(
                quad_h(*self, *r) + (sq as int),
                SCALE as int,
                15_000_000_000_000_000_000,
                SCALE as int,
            );
        }
        let sqi: i128 = sq as i128;
        let tmin: i128 = ray_t.min.raw as i128;
        let tmax: i128 = ray_t.max.raw as i128;

        let mut root: i128 = tdiv_i128((h - sqi) * (SCALE as i128), a);
        if !(tmin < root && root < tmax) {
            root = tdiv_i128((h + sqi) * (SCALE as i128), a);
            if !(tmin < root && root < tmax) {
                return None;
            }
        }

        let t = Fx { raw: root as i64 };
        let p = r.at(t);
        let outward = p.sub(self.center).div_scalar(self.radius);
        let mut rec = HitRecord::new(p, outward, t, self.mat);
        rec.set_face_normal(r);
        Some(rec)
    }
}

} // verus!

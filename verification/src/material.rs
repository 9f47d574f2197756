//! Material scattering models: diffuse, reflective and refractive.
//!
//! A scatter query optionally yields an attenuation color and an outgoing
//! ray.  Where a random draw shapes the outcome, the contract states what
//! holds of every outcome; everything deterministic is stated exactly.

use vstd::prelude::*;
use crate::color::Color;
use crate::color::color_wf;
use crate::fixed::Fx;
use crate::fixed::SCALE;
use crate::fixed::f_add;
use crate::fixed::f_div;
use crate::fixed::f_mul;
use crate::fixed::f_sub;
use crate::fixed::iabs;
use crate::fixed::lemma_mulraw_mono;
use crate::fixed::lemma_tdiv_bound;
use crate::fixed::lemma_tdiv_exact;
use crate::fixed::sat;
use crate::hittable::HitRecord;
use crate::ray::Ray;
use crate::util::random_fx;
use crate::vec3::Vec3;
use crate::vec3::add_spec;
use crate::vec3::dot_raw;
use crate::vec3::is_zero_vec;
use crate::vec3::scale_spec;
use crate::vec3::unit_sample;
use crate::vec3::neg_spec;
use crate::vec3::reflect_spec;
use crate::vec3::refract_spec;
use crate::vec3::unit_spec;
use crate::vec3::vec_wf;

verus! {

use vstd::arithmetic::div_mod::lemma_div_multiples_vanish;

/// A diffuse surface: scatters every ray about the normal.
#[derive(Clone, Copy, Debug, PartialEq, Eq, Structural)]
pub struct Lambertian {
    pub albedo: Color,
}

/// A reflective surface with a roughness parameter.
#[derive(Clone, Copy, Debug, PartialEq, Eq, Structural)]
pub struct Metal {
    pub albedo: Color,
    pub fuzz: Fx,
}

/// A transparent refractive surface.
#[derive(Clone, Copy, Debug, PartialEq, Eq, Structural)]
pub struct Dielectric {
    pub refraction_index: Fx,
}

/// The closed set of scattering models a surface can own.
#[derive(Clone, Copy, Debug, PartialEq, Eq, Structural)]
pub enum Material {
    Lambertian(Lambertian),
    Metal(Metal),
    Dielectric(Dielectric),
}

/// The material's parameters are representable.
pub open spec fn material_wf(m: Material) -> bool {
    match m {
        Material::Lambertian(l) => color_wf(l.albedo),
        Material::Metal(mt) => color_wf(mt.albedo) && mt.fuzz.wf(),
        Material::Dielectric(d) => d.refraction_index.wf(),
    }
}

/// The diffuse direction is the normal plus some unit-scale sample, or the
/// normal alone exactly when that sum cancels to zero.
pub open spec fn lambertian_scattered(normal: Vec3, dir: Vec3) -> bool {
    exists|u: Vec3|
        {
            &&& unit_sample(u)
            &&& if is_zero_vec(#[trigger] add_spec(normal, u)) {
                dir == normal
            } else {
                dir == add_spec(normal, u)
            }
        }
}

/// The metal direction candidate for a given unit-scale sample: the
/// normalized ideal reflection, perturbed by the sample scaled by the
/// roughness.
pub open spec fn metal_dir(m: Metal, in_dir: Vec3, normal: Vec3, u: Vec3) -> Vec3 {
    add_spec(unit_spec(reflect_spec(in_dir, normal)), scale_spec(u, m.fuzz))
}

impl Lambertian {
    /// Builds a diffuse material from its albedo.
    pub fn new(albedo: Color) -> (m: Lambertian)
        ensures
            m.albedo == albedo,
    {
        Lambertian { albedo }
    }

    /// Scatters toward the normal plus a random unit direction, falling back
    /// to the normal itself when the sum degenerates; always scatters.
    pub fn scatter(&self, _r_in: &Ray, rec: &HitRecord) -> (r: Option<(Color, Ray)>)
        requires
            color_wf(self.albedo),
            vec_wf(rec.normal),
        ensures
            r is Some,
            r matches Some((att, sc)) ==> {
                &&& att == self.albedo
                &&& sc.origin == rec.p
                &&& vec_wf(sc.direction)
                &&& lambertian_scattered(rec.normal, sc.direction)
                &&& !is_zero_vec(sc.direction)
            },
    {
        let u = Vec3::random_unit_vector();
        let mut scatter_direction = rec.normal.add(u);
        if scatter_direction.near_zero() {
            scatter_direction = rec.normal;
            proof {
                assert(sat(rec.normal.x.raw + u.x.raw) == 0);
                assert(rec.normal.x.raw == -u.x.raw && rec.normal.y.raw == -u.y.raw
                    && rec.normal.z.raw == -u.z.raw);
            }
        }
        proof {
            assert(unit_sample(u) && (if is_zero_vec(add_spec(rec.normal, u)) {
                scatter_direction == rec.normal
            } else {
                scatter_direction == add_spec(rec.normal, u)
            }));
        }
        let scattered = Ray::new(rec.p, scatter_direction);
        Some((self.albedo, scattered))
    }
}

impl Metal {
    /// Builds a reflective material; the roughness is capped at one unit.
    pub fn new(albedo: Color, fuzz: Fx) -> (m: Metal)
        ensures
            m.albedo == albedo,
            m.fuzz.raw as int == if fuzz.raw < SCALE {
                fuzz.raw as int
            } else {
                SCALE as int
            },
    {
        Metal { albedo, fuzz: if fuzz.raw < SCALE {
            fuzz
        } else {
            Fx::one()
        } }
    }

    /// Scatters along the fuzzed ideal reflection; absorbs the ray exactly
    /// when the drawn direction would point into the surface.  With zero
    /// roughness the outcome is deterministic: the normalized ideal
    /// reflection, accepted exactly when it leaves the surface.
    pub fn scatter(&self, r_in: &Ray, rec: &HitRecord) -> (r: Option<(Color, Ray)>)
        requires
            color_wf(self.albedo),
            self.fuzz.wf(),
            vec_wf(rec.normal),
            vec_wf(r_in.direction),
        ensures
            r matches Some((att, sc)) ==> {
                &&& att == self.albedo
                &&& sc.origin == rec.p
                &&& vec_wf(sc.direction)
                &&& sat(dot_raw(sc.direction, rec.normal)) > 0
                &&& exists|u: Vec3|
                    unit_sample(u) && sc.direction == #[trigger] metal_dir(
                        *self,
                        r_in.direction,
                        rec.normal,
                        u,
                    )
            },
            r is None ==> exists|u: Vec3|
                unit_sample(u) && sat(
                    dot_raw(#[trigger] metal_dir(*self, r_in.direction, rec.normal, u), rec.normal),
                ) <= 0,
            self.fuzz.raw == 0 ==> (r is Some <==> sat(
                dot_raw(unit_spec(reflect_spec(r_in.direction, rec.normal)), rec.normal),
            ) > 0),
    {
        let reflected = Vec3::reflect(r_in.direction, rec.normal);
        let u = Vec3::random_unit_vector();
        let fuzzed = Vec3::unit_vector(reflected).add(u.scale(self.fuzz));
        proof {
            assert(fuzzed == metal_dir(*self, r_in.direction, rec.normal, u));
            if self.fuzz.raw == 0 {
                lemma_mul_by_zero(u.x.raw as int);
                lemma_mul_by_zero(u.y.raw as int);
                lemma_mul_by_zero(u.z.raw as int);
                assert(fuzzed == unit_spec(reflect_spec(r_in.direction, rec.normal)));
            }
        }
        let scattered = Ray::new(rec.p, fuzzed);
        let attenuation = self.albedo;
        let d = Vec3::dot(scattered.direction, rec.normal);
        if d.raw > 0 {
            Some((attenuation, scattered))
        } else {
            None
        }
    }
}

/// A zero factor multiplies to zero in fixed point.
proof fn lemma_mul_by_zero(b: int)
    ensures
        crate::fixed::mul_raw(0, b) == 0,
{
    vstd::arithmetic::mul::lemma_mul_by_zero_is_zero(b);
    vstd::arithmetic::div_mod::lemma_basic_div(0, SCALE as int);
}

/// Mirror of the Schlick reflectance approximation:
/// `r0 + (1 - r0) * (1 - cos)^5` with `r0 = ((1 - ri) / (1 + ri))^2`.
pub open spec fn schlick_raw(cos: int, ri: int) -> int {
    let r0a = f_div(f_sub(SCALE as int, ri), f_add(SCALE as int, ri));
    let r0 = f_mul(r0a, r0a);
    let om = f_sub(SCALE as int, cos);
    let p2 = f_mul(om, om);
    let p4 = f_mul(p2, p2);
    let p5 = f_mul(p4, om);
    f_add(r0, f_mul(f_sub(SCALE as int, r0), p5))
}

/// The effective index ratio at a hit: the inverse index entering the
/// surface, the index itself leaving it.
pub open spec fn effective_ri(d: Dielectric, front_face: bool) -> int {
    if front_face {
        f_div(SCALE as int, d.refraction_index.raw as int)
    } else {
        d.refraction_index.raw as int
    }
}

/// Snell's law has no solution: the refracted angle's sine would exceed one,
/// over the same fixed-point steps the scatter code takes.
pub open spec fn total_internal_reflection(uv: Vec3, n: Vec3, ri: int) -> bool {
    let d0 = sat(dot_raw(neg_spec(uv), n));
    let cos = if d0 <= SCALE {
        d0
    } else {
        SCALE as int
    };
    let sin = crate::fixed::sqrt_raw(f_sub(SCALE as int, f_mul(cos, cos)));
    f_mul(ri, sin) > SCALE
}

impl Dielectric {
    /// Builds a refractive material from its refraction index.
    pub fn new(refraction_index: Fx) -> (m: Dielectric)
        ensures
            m.refraction_index == refraction_index,
    {
        Dielectric { refraction_index }
    }

    /// The Schlick reflectance approximation at the given incidence cosine.
    pub fn reflectance(cosine: Fx, refraction_index: Fx) -> (r: Fx)
        requires
            cosine.wf(),
            refraction_index.wf(),
        ensures
            r.raw == schlick_raw(cosine.raw as int, refraction_index.raw as int),
            r.wf(),
    {
        let one = Fx::one();
        let mut r0 = one.sub(refraction_index).div(one.add(refraction_index));
        r0 = r0.mul(r0);
        let om = one.sub(cosine);
        let p2 = om.mul(om);
        let p4 = p2.mul(p2);
        let p5 = p4.mul(om);
        r0.add(one.sub(r0).mul(p5))
    }

    /// Never absorbs: reflects on total internal reflection or a reflectance
    /// draw, refracts otherwise; the attenuation is always white.  The
    /// outgoing direction is always one of the two deterministic candidates.
    pub fn scatter(&self, r_in: &Ray, rec: &HitRecord) -> (r: Option<(Color, Ray)>)
        requires
            self.refraction_index.wf(),
            vec_wf(rec.normal),
            vec_wf(r_in.direction),
        ensures
            r is Some,
            r matches Some((att, sc)) ==> {
                let ud = unit_spec(r_in.direction);
                let ri = effective_ri(*self, rec.front_face);
                &&& att.r.raw == SCALE && att.g.raw == SCALE && att.b.raw == SCALE
                &&& sc.origin == rec.p
                &&& vec_wf(sc.direction)
                &&& (sc.direction == reflect_spec(ud, rec.normal) || sc.direction == refract_spec(
                    ud,
                    rec.normal,
                    Fx { raw: ri as i64 },
                ))
                &&& total_internal_reflection(ud, rec.normal, ri) ==> sc.direction == reflect_spec(
                    ud,
                    rec.normal,
                )
            },
    {
        let attenuation = Color::new(Fx::one(), Fx::one(), Fx::one());
        let ri = if rec.front_face {
            Fx::one().div(self.refraction_index)
        } else {
            self.refraction_index
        };

        let unit_direction = Vec3::unit_vector(r_in.direction);

        let cos_theta = Vec3::dot(unit_direction.neg(), rec.normal).min(Fx::one());
        let sin_theta = Fx::one().sub(cos_theta.mul(cos_theta)).sqrt();

        let cannot_refract = ri.mul(sin_theta).raw > SCALE;

        let direction: Vec3;
        if cannot_refract || Dielectric::reflectance(cos_theta, ri).raw > random_fx().raw {
            direction = Vec3::reflect(unit_direction, rec.normal);
        } else {
            direction = Vec3::refract(unit_direction, rec.normal, ri);
        }

        let scattered = Ray::new(rec.p, direction);
        Some((attenuation, scattered))
    }
}

impl Material {
    /// Dispatches the scatter query to the owning model, forwarding each
    /// model's own promises.
    pub fn scatter(&self, r_in: &Ray, rec: &HitRecord) -> (r: Option<(Color, Ray)>)
        requires
            material_wf(*self),
            vec_wf(rec.normal),
            vec_wf(r_in.direction),
        ensures
            r matches Some((att, sc)) ==> {
                &&& color_wf(att)
                &&& sc.origin == rec.p
                &&& vec_wf(sc.direction)
            },
            self matches Material::Lambertian(l) ==> {
                &&& r is Some
                &&& (r matches Some((att, sc)) ==> att == l.albedo && lambertian_scattered(
                    rec.normal,
                    sc.direction,
                ) && !is_zero_vec(sc.direction))
            },
            self matches Material::Metal(m) ==> {
                &&& (r matches Some((att, sc)) ==> att == m.albedo && sat(
                    dot_raw(sc.direction, rec.normal),
                ) > 0 && exists|u: Vec3|
                    unit_sample(u) && sc.direction == #[trigger] metal_dir(
                        *m,
                        r_in.direction,
                        rec.normal,
                        u,
                    ))
                &&& (r is None ==> exists|u: Vec3|
                    unit_sample(u) && sat(
                        dot_raw(
                            #[trigger] metal_dir(*m, r_in.direction, rec.normal, u),
                            rec.normal,
                        ),
                    ) <= 0)
                &&& (m.fuzz.raw == 0 ==> (r is Some <==> sat(
                    dot_raw(unit_spec(reflect_spec(r_in.direction, rec.normal)), rec.normal),
                ) > 0))
            },
            self matches Material::Dielectric(d) ==> {
                &&& r is Some
                &&& (r matches Some((att, sc)) ==> {
                    let ud = unit_spec(r_in.direction);
                    let ri = effective_ri(*d, rec.front_face);
                    &&& att.r.raw == SCALE && att.g.raw == SCALE && att.b.raw == SCALE
                    &&& (sc.direction == reflect_spec(ud, rec.normal) || sc.direction
                        == refract_spec(ud, rec.normal, Fx { raw: ri as i64 }))
                    &&& total_internal_reflection(ud, rec.normal, ri) ==> sc.direction
                        == reflect_spec(ud, rec.normal)
                })
            },
    {
        match self {
            Material::Lambertian(l) => l.scatter(r_in, rec),
            Material::Metal(m) => m.scatter(r_in, rec),
            Material::Dielectric(d) => d.scatter(r_in, rec),
        }
    }
}

/// Schlick reflectance grows as the incidence cosine falls toward grazing:
/// for any representable index and cosines in `[0, 1]`, a smaller cosine
/// never yields a smaller reflectance.
pub proof fn lemma_schlick_monotone(cos1: int, cos2: int, ri: int)
    requires
        0 <= cos2 <= cos1 <= SCALE,
        0 <= ri,
        ri <= crate::fixed::FX_MAX_RAW,
    ensures
        schlick_raw(cos1, ri) <= schlick_raw(cos2, ri),
{
    let s = SCALE as int;
    let r0a = f_div(f_sub(s, ri), f_add(s, ri));
    let r0 = f_mul(r0a, r0a);
    // The base reflectance lies in [0, 1].
    let num = sat(s - ri);
    let den = sat(s + ri);
    assert(num == s - ri);
    assert(den >= s);
    assert(iabs(num) <= den);
    crate::fixed::lemma_mul_mag_bound(num, s, den, s);
    lemma_tdiv_bound(num * s, den, den * s);
    lemma_div_multiples_vanish(s, den);
    assert(iabs(r0a) <= s);
    assert(0 <= r0 <= s) by {
        assert(0 <= r0a * r0a <= s * s) by (nonlinear_arith)
            requires
                iabs(r0a) <= s,
        ;
        lemma_tdiv_exact(s, s);
        crate::fixed::lemma_tdiv_mono(r0a * r0a, s * s, s);
        crate::fixed::lemma_tdiv_mag(r0a * r0a, s);
    }
    let om1 = f_sub(s, cos1);
    let om2 = f_sub(s, cos2);
    assert(0 <= om1 <= om2 <= s);
    lemma_pow5_mono(om1, om2);
    let p51 = f_mul(f_mul(f_mul(om1, om1), f_mul(om1, om1)), om1);
    let p52 = f_mul(f_mul(f_mul(om2, om2), f_mul(om2, om2)), om2);
    lemma_mulraw_mono(s - r0, p51, s - r0, p52);
}

/// The fifth power built from saturating multiplications is monotone on
/// `[0, SCALE]`.
proof fn lemma_pow5_mono(a: int, b: int)
    requires
        0 <= a <= b <= SCALE,
    ensures
        ({
            let pa = f_mul(f_mul(f_mul(a, a), f_mul(a, a)), a);
            let pb = f_mul(f_mul(f_mul(b, b), f_mul(b, b)), b);
            0 <= pa <= pb <= SCALE
        }),
{
    let s = SCALE as int;
    lemma_mulraw_mono(a, a, b, b);
    lemma_mulraw_mono(b, b, s, s);
    lemma_tdiv_exact(s, s);
    let a2 = f_mul(a, a);
    let b2 = f_mul(b, b);
    assert(0 <= a2 <= b2 <= s);
    lemma_mulraw_mono(a2, a2, b2, b2);
    lemma_mulraw_mono(b2, b2, s, s);
    let a4 = f_mul(a2, a2);
    let b4 = f_mul(b2, b2);
    assert(0 <= a4 <= b4 <= s);
    lemma_mulraw_mono(a4, a, b4, b);
    lemma_mulraw_mono(b4, b, s, s);
}

} // verus!

//! The camera: viewport derivation, per-pixel sampling, the recursive color
//! estimator, and the text image assembly.

use vstd::prelude::*;
use crate::color::Color;
use crate::color::color_line;
use crate::color::color_wf;
use crate::color::dec_digits;
use crate::color::lemma_dec_digits_ascii;
use crate::color::push_dec;
use crate::color::write_color;
use crate::fixed::FX_MAX_RAW;
use crate::fixed::Fx;
use crate::fixed::SCALE;
use crate::fixed::f_add;
use crate::fixed::f_div;
use crate::fixed::f_mul;
use crate::fixed::f_sub;
use crate::fixed::sat;
use crate::fixed::tdiv;
use crate::hittable_list::HittableList;
use crate::hittable_list::list_hit;
use crate::hittable_list::list_wf;
use crate::interval::Interval;
use crate::ray::Ray;
use crate::ray::ray_in_range;
use crate::util::PI_RAW;
use crate::util::degrees_to_radians;
use crate::util::random_fx;
use crate::util::tan_fx;
use crate::util::tan_raw;
use crate::vec3::Point3;
use crate::vec3::Vec3;
use crate::vec3::add_spec;
use crate::vec3::cross_spec;
use crate::vec3::div_scalar_spec;
use crate::vec3::fx;
use crate::vec3::len_raw;
use crate::vec3::neg_spec;
use crate::vec3::scale_spec;
use crate::vec3::sub_spec;
use crate::vec3::unit_spec;
use crate::vec3::vec_wf;

verus! {

/// Owns the render configuration and the derived viewport state, rebuilt by
/// an explicit initialization step before rendering.
pub struct Camera {
    pub aspect_ratio: Fx,
    pub image_width: u64,
    pub samples_per_pixel: u64,
    pub max_depth: u64,
    pub vfov: Fx,
    pub lookfrom: Point3,
    pub lookat: Point3,
    pub vup: Vec3,

    pub image_height: u64,
    pub pixel_samples_scale: Fx,
    pub center: Point3,
    pub pixel100_loc: Point3,
    pub pixel_delta_u: Vec3,
    pub pixel_delta_v: Vec3,
    pub u: Vec3,
    pub v: Vec3,
    pub w: Vec3,
}

/// The configuration lies in the ranges the fixed-point viewport arithmetic
/// admits.
pub open spec fn camera_cfg_wf(c: Camera) -> bool {
    &&& 1 <= c.image_width <= 10_000
    &&& 1 <= c.samples_per_pixel <= 1_000_000
    &&& c.max_depth <= 64
    &&& 1 <= c.aspect_ratio.raw
    &&& c.aspect_ratio.wf()
    &&& c.vfov.wf()
    &&& vec_wf(c.lookfrom)
    &&& vec_wf(c.lookat)
    &&& vec_wf(c.vup)
}

/// The derived viewport state is representable and ready for sampling.
pub open spec fn camera_ready(c: Camera) -> bool {
    &&& camera_cfg_wf(c)
    &&& 1 <= c.image_height
    &&& c.pixel_samples_scale.wf()
    &&& vec_wf(c.center)
    &&& vec_wf(c.pixel100_loc)
    &&& vec_wf(c.pixel_delta_u)
    &&& vec_wf(c.pixel_delta_v)
}

/// Derived image height: the width over the aspect ratio, rounded to the
/// nearest whole row, at least one row.
pub open spec fn derived_height(c: Camera) -> int {
    let a = c.aspect_ratio.raw as int;
    let ih = tdiv(c.image_width * SCALE + a / 2, a);
    if ih < 1 {
        1
    } else {
        ih
    }
}

/// Derived per-sample weight: one over the sample count.
pub open spec fn derived_scale(c: Camera) -> int {
    tdiv(SCALE as int, c.samples_per_pixel as int)
}

/// Focal length: the distance from the eye to the look-at target.
pub open spec fn cam_focal(c: Camera) -> int {
    len_raw(sub_spec(c.lookfrom, c.lookat))
}

/// Basis vector pointing from the target back to the eye.
pub open spec fn cam_w(c: Camera) -> Vec3 {
    unit_spec(sub_spec(c.lookfrom, c.lookat))
}

/// Basis vector pointing along the viewport's horizontal edge.
pub open spec fn cam_u(c: Camera) -> Vec3 {
    unit_spec(cross_spec(c.vup, cam_w(c)))
}

/// Basis vector pointing along the viewport's vertical edge.
pub open spec fn cam_v(c: Camera) -> Vec3 {
    cross_spec(cam_w(c), cam_u(c))
}

/// Half the viewport height per focal unit: the tangent of half the
/// vertical field of view.
pub open spec fn cam_half_tan(c: Camera) -> int {
    tan_raw(tdiv(f_div(f_mul(c.vfov.raw as int, PI_RAW as int), 180 * SCALE), 2))
}

/// Viewport height: `2 * tan(vfov/2) * focal_length`.
pub open spec fn cam_viewport_h(c: Camera) -> int {
    f_mul(f_mul(2 * SCALE, cam_half_tan(c)), cam_focal(c))
}

/// Viewport width: the height scaled by the actual image aspect.
pub open spec fn cam_viewport_w(c: Camera) -> int {
    f_mul(cam_viewport_h(c), sat(tdiv(c.image_width * SCALE, derived_height(c))))
}

/// The horizontal viewport edge vector.
pub open spec fn cam_viewport_u(c: Camera) -> Vec3 {
    scale_spec(cam_u(c), fx(cam_viewport_w(c)))
}

/// The vertical viewport edge vector (pointing down the image).
pub open spec fn cam_viewport_v(c: Camera) -> Vec3 {
    scale_spec(neg_spec(cam_v(c)), fx(cam_viewport_h(c)))
}

/// The pixel-to-pixel horizontal delta.
pub open spec fn cam_pixel_du(c: Camera) -> Vec3 {
    div_scalar_spec(cam_viewport_u(c), fx(sat(c.image_width * SCALE)))
}

/// The pixel-to-pixel vertical delta.
pub open spec fn cam_pixel_dv(c: Camera) -> Vec3 {
    div_scalar_spec(cam_viewport_v(c), fx(sat(derived_height(c) * SCALE)))
}

/// The upper-left viewport corner.
pub open spec fn cam_upper_left(c: Camera) -> Vec3 {
    sub_spec(
        sub_spec(
            sub_spec(c.lookfrom, scale_spec(cam_w(c), fx(cam_focal(c)))),
            div_scalar_spec(cam_viewport_u(c), fx(2 * SCALE)),
        ),
        div_scalar_spec(cam_viewport_v(c), fx(2 * SCALE)),
    )
}

/// The center of the first pixel: half a delta in from the corner.
pub open spec fn cam_pixel100(c: Camera) -> Vec3 {
    add_spec(
        cam_upper_left(c),
        scale_spec(add_spec(cam_pixel_du(c), cam_pixel_dv(c)), fx(500_000)),
    )
}

/// The direction of a sample ray through pixel `(i, j)` with jitter draws
/// `ox` and `oy` (raw offsets in `[-1/2, 1/2)`): from the camera center to
/// the jittered pixel center.
pub open spec fn ray_dir_formula(c: Camera, i: u64, j: u64, ox: int, oy: int) -> Vec3 {
    let fi = fx(f_add(sat(i * SCALE), ox));
    let fj = fx(f_add(sat(j * SCALE), oy));
    sub_spec(
        add_spec(
            add_spec(c.pixel100_loc, scale_spec(c.pixel_delta_u, fi)),
            scale_spec(c.pixel_delta_v, fj),
        ),
        c.center,
    )
}

/// Mirror of the sky gradient: a vertical blend from white to light blue by
/// `a = 0.5 * (unit_direction.y + 1)`.
pub open spec fn sky_color(r: Ray) -> Color {
    let ud = unit_spec(r.direction);
    let a = f_mul(500_000, f_add(ud.y.raw as int, SCALE as int));
    let oma = f_sub(SCALE as int, a);
    Color { r: fx(f_add(f_mul(oma, SCALE as int), f_mul(a, 500_000))), g: fx(
        f_add(f_mul(oma, SCALE as int), f_mul(a, 700_000)),
    ), b: fx(f_add(f_mul(oma, SCALE as int), f_mul(a, SCALE as int))) }
}

/// The image header: `P3`, the dimensions, and the channel maximum, one
/// text line each.
pub open spec fn header_bytes(w: int, h: int) -> Seq<u8> {
    seq![80u8, 51u8, 10u8] + dec_digits(w) + seq![32u8] + dec_digits(h) + seq![10u8] + seq![
        50u8,
        53u8,
        53u8,
        10u8,
    ]
}

/// The byte stream of a sequence of encoded pixel lines, in order.
pub open spec fn pixel_lines(cs: Seq<Color>) -> Seq<u8>
    decreases cs.len(),
{
    if cs.len() == 0 {
        Seq::<u8>::empty()
    } else {
        pixel_lines(cs.drop_last()) + color_line(cs.last())
    }
}

/// Appending a pixel appends its encoded line.
pub proof fn lemma_pixel_lines_push(cs: Seq<Color>, c: Color)
    ensures
        pixel_lines(cs.push(c)) == pixel_lines(cs) + color_line(c),
{
    assert(cs.push(c).drop_last() =~= cs);
    assert(cs.push(c).last() == c);
}

/// Number of newline bytes in a text chunk.
pub open spec fn count_nl(s: Seq<u8>) -> int
    decreases s.len(),
{
    if s.len() == 0 {
        0int
    } else {
        count_nl(s.drop_last()) + if s.last() == 10u8 {
            1int
        } else {
            0int
        }
    }
}

/// Newlines add up over concatenation.
pub proof fn lemma_count_nl_concat(a: Seq<u8>, b: Seq<u8>)
    ensures
        count_nl(a + b) == count_nl(a) + count_nl(b),
    decreases b.len(),
{
    if b.len() == 0 {
        assert(a + b =~= a);
    } else {
        lemma_count_nl_concat(a, b.drop_last());
        assert((a + b).drop_last() =~= a + b.drop_last());
        assert((a + b).last() == b.last());
    }
}

/// Appending one byte adds one newline exactly when it is one.
proof fn lemma_count_nl_push(s: Seq<u8>, b: u8)
    ensures
        count_nl(s.push(b)) == count_nl(s) + if b == 10u8 {
            1int
        } else {
            0int
        },
{
    assert(s.push(b).drop_last() =~= s);
    assert(s.push(b).last() == b);
}

/// A chunk without newline bytes counts zero.
proof fn lemma_count_nl_zero(s: Seq<u8>)
    requires
        forall|i: int| 0 <= i < s.len() ==> s[i] != 10u8,
    ensures
        count_nl(s) == 0,
    decreases s.len(),
{
    if s.len() > 0 {
        lemma_count_nl_zero(s.drop_last());
    }
}

/// Decimal digit runs hold no newline.
proof fn lemma_count_nl_digits(n: int)
    ensures
        count_nl(dec_digits(n)) == 0,
{
    lemma_dec_digits_ascii(n);
    lemma_count_nl_zero(dec_digits(n));
}

/// A pixel line holds exactly one newline, at its end.
pub proof fn lemma_color_line_nl(c: Color)
    ensures
        count_nl(color_line(c)) == 1,
{
    let dr = dec_digits(crate::color::channel_byte(c.r.raw as int));
    let dg = dec_digits(crate::color::channel_byte(c.g.raw as int));
    let db = dec_digits(crate::color::channel_byte(c.b.raw as int));
    lemma_count_nl_digits(crate::color::channel_byte(c.r.raw as int));
    lemma_count_nl_digits(crate::color::channel_byte(c.g.raw as int));
    lemma_count_nl_digits(crate::color::channel_byte(c.b.raw as int));
    lemma_count_nl_zero(seq![32u8]);
    lemma_count_nl_concat(dr, seq![32u8]);
    lemma_count_nl_concat(dr + seq![32u8], dg);
    lemma_count_nl_concat(dr + seq![32u8] + dg, seq![32u8]);
    lemma_count_nl_concat(dr + seq![32u8] + dg + seq![32u8], db);
    lemma_count_nl_concat(dr + seq![32u8] + dg + seq![32u8] + db, seq![10u8]);
    assert(count_nl(seq![10u8]) == 1) by {
        assert(seq![10u8] =~= Seq::<u8>::empty().push(10u8));
        lemma_count_nl_push(Seq::<u8>::empty(), 10u8);
    }
}

/// The header holds exactly three newlines.
pub proof fn lemma_header_nl(w: int, h: int)
    ensures
        count_nl(header_bytes(w, h)) == 3,
{
    let p = seq![80u8, 51u8, 10u8];
    let dw = dec_digits(w);
    let dh = dec_digits(h);
    let tail = seq![50u8, 53u8, 53u8, 10u8];
    lemma_count_nl_digits(w);
    lemma_count_nl_digits(h);
    assert(count_nl(p) == 1) by {
        let e = Seq::<u8>::empty();
        assert(p =~= e.push(80u8).push(51u8).push(10u8));
        lemma_count_nl_push(e, 80u8);
        lemma_count_nl_push(e.push(80u8), 51u8);
        lemma_count_nl_push(e.push(80u8).push(51u8), 10u8);
    }
    assert(count_nl(seq![10u8]) == 1) by {
        assert(seq![10u8] =~= Seq::<u8>::empty().push(10u8));
        lemma_count_nl_push(Seq::<u8>::empty(), 10u8);
    }
    assert(count_nl(tail) == 1) by {
        let e = Seq::<u8>::empty();
        assert(tail =~= e.push(50u8).push(53u8).push(53u8).push(10u8));
        lemma_count_nl_push(e, 50u8);
        lemma_count_nl_push(e.push(50u8), 53u8);
        lemma_count_nl_push(e.push(50u8).push(53u8), 53u8);
        lemma_count_nl_push(e.push(50u8).push(53u8).push(53u8), 10u8);
    }
    lemma_count_nl_zero(seq![32u8]);
    lemma_count_nl_concat(p, dw);
    lemma_count_nl_concat(p + dw, seq![32u8]);
    lemma_count_nl_concat(p + dw + seq![32u8], dh);
    lemma_count_nl_concat(p + dw + seq![32u8] + dh, seq![10u8]);
    lemma_count_nl_concat(p + dw + seq![32u8] + dh + seq![10u8], tail);
}

/// Emits the image header onto the byte sink.
pub fn write_header(out: &mut Vec<u8>, w: u64, h: u64)
    ensures
        final(out)@ == old(out)@ + header_bytes(w as int, h as int),
{
    out.push(80u8);
    out.push(51u8);
    out.push(10u8);
    push_dec(out, w);
    out.push(32u8);
    push_dec(out, h);
    out.push(10u8);
    out.push(50u8);
    out.push(53u8);
    out.push(53u8);
    out.push(10u8);
    proof {
        assert(out@ =~= old(out)@ + header_bytes(w as int, h as int));
    }
}

impl Camera {
    /// A camera with the default configuration: a square hundred-pixel-wide
    /// image, ten samples, ten bounces, a ninety-degree field of view,
    /// looking from the origin down the negative z axis.
    pub fn new() -> (c: Camera)
        ensures
            c.aspect_ratio.raw == SCALE,
            c.image_width == 100,
            c.samples_per_pixel == 10,
            c.max_depth == 10,
            c.vfov.raw == 90 * SCALE,
            c.lookfrom.x.raw == 0 && c.lookfrom.y.raw == 0 && c.lookfrom.z.raw == 0,
            c.lookat.x.raw == 0 && c.lookat.y.raw == 0 && c.lookat.z.raw == -SCALE,
            c.vup.x.raw == 0 && c.vup.y.raw == SCALE && c.vup.z.raw == 0,
            c.image_height == 0,
            c.pixel_samples_scale.raw == 0,
            c.center == crate::vec3::fx_zero_vec(),
            c.pixel100_loc == crate::vec3::fx_zero_vec(),
            c.pixel_delta_u == crate::vec3::fx_zero_vec(),
            c.pixel_delta_v == crate::vec3::fx_zero_vec(),
            c.u == crate::vec3::fx_zero_vec() && c.v == crate::vec3::fx_zero_vec() && c.w
                == crate::vec3::fx_zero_vec(),
            camera_cfg_wf(c),
    {
        Camera {
            aspect_ratio: Fx::one(),
            image_width: 100,
            samples_per_pixel: 10,
            max_depth: 10,
            vfov: Fx { raw: 90 * SCALE },
            lookfrom: Vec3 { x: Fx { raw: 0 }, y: Fx { raw: 0 }, z: Fx { raw: 0 } },
            lookat: Vec3 { x: Fx { raw: 0 }, y: Fx { raw: 0 }, z: Fx { raw: -SCALE } },
            vup: Vec3 { x: Fx { raw: 0 }, y: Fx { raw: SCALE }, z: Fx { raw: 0 } },
            image_height: 0,
            pixel_samples_scale: Fx { raw: 0 },
            center: Vec3 { x: Fx { raw: 0 }, y: Fx { raw: 0 }, z: Fx { raw: 0 } },
            pixel100_loc: Vec3 { x: Fx { raw: 0 }, y: Fx { raw: 0 }, z: Fx { raw: 0 } },
            pixel_delta_u: Vec3 { x: Fx { raw: 0 }, y: Fx { raw: 0 }, z: Fx { raw: 0 } },
            pixel_delta_v: Vec3 { x: Fx { raw: 0 }, y: Fx { raw: 0 }, z: Fx { raw: 0 } },
            u: Vec3 { x: Fx { raw: 0 }, y: Fx { raw: 0 }, z: Fx { raw: 0 } },
            v: Vec3 { x: Fx { raw: 0 }, y: Fx { raw: 0 }, z: Fx { raw: 0 } },
            w: Vec3 { x: Fx { raw: 0 }, y: Fx { raw: 0 }, z: Fx { raw: 0 } },
        }
    }

    /// Derives the viewport state from the configuration: the image height,
    /// the sample weight, the camera frame, the viewport edge vectors, the
    /// pixel deltas, and the first pixel's center.
    #[verifier::rlimit(100)]
    pub fn initialize(&mut self)
        requires
            camera_cfg_wf(*old(self)),
        ensures
            final(self).aspect_ratio == old(self).aspect_ratio,
            final(self).image_width == old(self).image_width,
            final(self).samples_per_pixel == old(self).samples_per_pixel,
            final(self).max_depth == old(self).max_depth,
            final(self).vfov == old(self).vfov,
            final(self).lookfrom == old(self).lookfrom,
            final(self).lookat == old(self).lookat,
            final(self).vup == old(self).vup,
            final(self).image_height as int == derived_height(*old(self)),
            final(self).pixel_samples_scale.raw as int == derived_scale(*old(self)),
            final(self).center == old(self).lookfrom,
            final(self).w == cam_w(*old(self)),
            final(self).u == cam_u(*old(self)),
            final(self).v == cam_v(*old(self)),
            final(self).pixel_delta_u == cam_pixel_du(*old(self)),
            final(self).pixel_delta_v == cam_pixel_dv(*old(self)),
            final(self).pixel100_loc == cam_pixel100(*old(self)),
            camera_ready(*final(self)),
    {
        proof {
            assert(self.image_width <= 10_000);
            assert(self.image_width * (SCALE as u64) <= 10_000_000_000u64) by (nonlinear_arith)
                requires
                    self.image_width <= 10_000,
                    SCALE == 1_000_000,
            ;
        }
        let a: u64 = self.aspect_ratio.raw as u64;
        let wide: u64 = self.image_width * (SCALE as u64) + a / 2;
        let ih: u64 = wide / a;
        proof {
            let ai = self.aspect_ratio.raw as int;
            assert(wide as int <= ai * (10_000_000_000int + 1)) by (nonlinear_arith)
                requires
                    wide as int == self.image_width * SCALE + ai / 2,
                    self.image_width * SCALE <= 10_000_000_000int,
                    2 * (ai / 2) <= ai,
                    1 <= ai,
            ;
            vstd::arithmetic::div_mod::lemma_multiply_divide_le(
                wide as int,
                ai,
                10_000_000_000int + 1,
            );
        }
        self.image_height = if ih < 1 {
            1
        } else {
            ih
        };
        proof {
            assert(self.image_height as int == derived_height(*old(self)));
            assert(self.image_height <= 10_000_000_001u64);
        }

        let scale_q: u64 = (SCALE as u64) / self.samples_per_pixel;
        self.pixel_samples_scale = Fx { raw: scale_q as i64 };

        self.center = self.lookfrom;

        let gaze = self.lookfrom.sub(self.lookat);
        let focal_length = gaze.length();
        let theta = degrees_to_radians(self.vfov);
        let h = tan_fx(theta.div_int(2));
        let viewport_height = Fx { raw: 2 * SCALE }.mul(h).mul(focal_length);
        let ratio = Fx::from_ratio(self.image_width as i64, self.image_height as i64);
        let viewport_width = viewport_height.mul(ratio);

        self.w = Vec3::unit_vector(gaze);
        self.u = Vec3::unit_vector(Vec3::cross(self.vup, self.w));
        self.v = Vec3::cross(self.w, self.u);
        proof {
            assert(self.w == cam_w(*old(self)));
            assert(self.u == cam_u(*old(self)));
            assert(self.v == cam_v(*old(self)));
            assert(h.raw as int == cam_half_tan(*old(self)));
            assert(viewport_height.raw as int == cam_viewport_h(*old(self)));
            assert(viewport_width.raw as int == cam_viewport_w(*old(self)));
        }

        let viewport_u = self.u.scale(viewport_width);
        let viewport_v = self.v.neg().scale(viewport_height);
        proof {
            assert(viewport_u == cam_viewport_u(*old(self)));
            assert(viewport_v == cam_viewport_v(*old(self)));
        }

        self.pixel_delta_u = viewport_u.div_scalar(Fx::from_int(self.image_width as i64));
        self.pixel_delta_v = viewport_v.div_scalar(Fx::from_int(self.image_height as i64));

        let two = Fx { raw: 2 * SCALE };
        let viewport_upper_left = self.center.sub(self.w.scale(focal_length)).sub(
            viewport_u.div_scalar(two),
        ).sub(viewport_v.div_scalar(two));

        self.pixel100_loc = viewport_upper_left.add(
            self.pixel_delta_u.add(self.pixel_delta_v).scale(Fx { raw: 500_000 }),
        );
    }

    /// One jittered sample ray through pixel `(i, j)`: the pixel center is
    /// offset by a uniform draw in `[-0.5, 0.5)` of each pixel delta.
    pub fn get_ray(&self, i: u64, j: u64) -> (r: Ray)
        requires
            camera_ready(*self),
            i <= 100_000_000_000,
            j <= 100_000_000_000,
        ensures
            r.origin == self.center,
            vec_wf(r.direction),
            vec_wf(r.origin),
            exists|ox: int, oy: int|
                {
                    &&& -500_000 <= ox < 500_000
                    &&& -500_000 <= oy < 500_000
                    &&& r.direction == #[trigger] ray_dir_formula(*self, i, j, ox, oy)
                },
    {
        let offset = self.sample_square();
        let fi = Fx::from_int(i as i64).add(offset.x);
        let fj = Fx::from_int(j as i64).add(offset.y);
        let pixel_sample = self.pixel100_loc.add(self.pixel_delta_u.scale(fi)).add(
            self.pixel_delta_v.scale(fj),
        );
        let ray_origin = self.center;
        let ray_direction = pixel_sample.sub(ray_origin);
        proof {
            assert(ray_direction == ray_dir_formula(
                *self,
                i,
                j,
                offset.x.raw as int,
                offset.y.raw as int,
            ));
        }
        Ray::new(ray_origin, ray_direction)
    }

    /// A uniform offset in the unit square centered on the origin.
    fn sample_square(&self) -> (r: Vec3)
        ensures
            vec_wf(r),
            -500_000 <= r.x.raw < 500_000,
            -500_000 <= r.y.raw < 500_000,
            r.z.raw == 0,
    {
        let half = Fx { raw: 500_000 };
        let rx = random_fx();
        let ry = random_fx();
        Vec3 { x: rx.sub(half), y: ry.sub(half), z: Fx::zero() }
    }

    /// The recursive color estimator.  At depth zero it is black whatever
    /// the scene holds; when the scene misses an in-range ray it is exactly
    /// the sky gradient; on a hit it is the scattered color attenuated, or
    /// black on absorption.
    pub fn ray_color(&self, r: &Ray, depth: u64, world: &HittableList) -> (c: Color)
        requires
            list_wf(*world),
        ensures
            depth == 0 ==> c.r.raw == 0 && c.g.raw == 0 && c.b.raw == 0,
            depth > 0 && !ray_in_range(*r) ==> c.r.raw == 0 && c.g.raw == 0 && c.b.raw == 0,
            depth > 0 && ray_in_range(*r) && list_hit(
                world.objects@,
                *r,
                1000,
                FX_MAX_RAW as int,
            ) is None ==> c == sky_color(*r),
            color_wf(c),
        decreases depth,
    {
        if depth == 0 {
            return Color::black();
        }
        if !r.in_range() {
            // Outside the coordinate range of the intersection arithmetic
            // nothing can be hit; treat the ray as absorbed.
            return Color::black();
        }
        let window = Interval::new(Fx { raw: 1000 }, Fx { raw: FX_MAX_RAW });
        match world.hit(r, window) {
            Some(rec) => {
                match rec.mat.scatter(r, &rec) {
                    Some((attenuation, scattered)) => {
                        let follow = self.ray_color(&scattered, depth - 1, world);
                        attenuation.cmul(follow)
                    },
                    None => Color::black(),
                }
            },
            None => {
                let unit_direction = Vec3::unit_vector(r.direction);
                let a = Fx { raw: 500_000 }.mul(unit_direction.y.add(Fx::one()));
                let oma = Fx::one().sub(a);
                let white = Color::new(Fx::one(), Fx::one(), Fx::one());
                let blue = Color::new(Fx { raw: 500_000 }, Fx { raw: 700_000 }, Fx::one());
                white.scale(oma).add(blue.scale(a))
            },
        }
    }

    /// Renders the scene: derives the viewport, emits the header, then one
    /// encoded pixel line per pixel in row-major order, averaging the
    /// configured number of jittered samples per pixel.
    pub fn render(&mut self, world: &HittableList) -> (out: Vec<u8>)
        requires
            camera_cfg_wf(*old(self)),
            list_wf(*world),
        ensures
            ({
                let hdr = header_bytes(
                    old(self).image_width as int,
                    derived_height(*old(self)),
                );
                &&& out@.len() >= hdr.len()
                &&& out@.subrange(0, hdr.len() as int) == hdr
                &&& count_nl(out@) == 3 + old(self).image_width * derived_height(*old(self))
                &&& exists|cs: Seq<Color>|
                    {
                        &&& cs.len() == old(self).image_width * derived_height(*old(self))
                        &&& out@ == hdr + #[trigger] pixel_lines(cs)
                    }
            }),
    {
        self.initialize();
        let ghost hdr = header_bytes(old(self).image_width as int, derived_height(*old(self)));
        let mut out: Vec<u8> = Vec::new();
        write_header(&mut out, self.image_width, self.image_height);
        proof {
            lemma_header_nl(old(self).image_width as int, derived_height(*old(self)));
            assert(out@ =~= hdr);
        }
        let ghost mut pixels: Seq<Color> = Seq::empty();
        proof {
            assert(out@ =~= hdr + pixel_lines(pixels));
        }
        let ghost snap = *self;
        proof {
            let ai = old(self).aspect_ratio.raw as int;
            let iw = old(self).image_width as int;
            let num = iw * SCALE + ai / 2;
            assert(num <= ai * (10_000_000_000int + 1)) by (nonlinear_arith)
                requires
                    num == iw * SCALE + ai / 2,
                    0 <= iw <= 10_000,
                    SCALE == 1_000_000,
                    2 * (ai / 2) <= ai,
                    1 <= ai,
            ;
            vstd::arithmetic::div_mod::lemma_multiply_divide_le(num, ai, 10_000_000_000int + 1);
            crate::fixed::lemma_tdiv_mag(num, ai);
            assert(self.image_height <= 10_000_000_001u64);
        }
        let width = self.image_width;
        let height = self.image_height;
        let spp = self.samples_per_pixel;
        let depth = self.max_depth;
        let mut j: u64 = 0;
        while j < height
            invariant
                *self == snap,
                camera_ready(snap),
                list_wf(*world),
                width == snap.image_width,
                height == snap.image_height,
                height <= 10_000_000_001u64,
                spp == snap.samples_per_pixel,
                depth == snap.max_depth,
                0 <= j <= height,
                out@.len() >= hdr.len(),
                out@.subrange(0, hdr.len() as int) == hdr,
                count_nl(out@) == 3 + j * width,
                pixels.len() == j * width,
                out@ == hdr + pixel_lines(pixels),
            decreases height - j,
        {
            let mut i: u64 = 0;
            while i < width
                invariant
                    *self == snap,
                    camera_ready(snap),
                    list_wf(*world),
                    width == snap.image_width,
                    spp == snap.samples_per_pixel,
                    depth == snap.max_depth,
                    0 <= i <= width,
                    j < 10_000_000_002u64,
                    out@.len() >= hdr.len(),
                    out@.subrange(0, hdr.len() as int) == hdr,
                    count_nl(out@) == 3 + j * width + i,
                    pixels.len() == j * width + i,
                    out@ == hdr + pixel_lines(pixels),
                decreases width - i,
            {
                let mut pixel_color = Color::black();
                let mut s: u64 = 0;
                while s < spp
                    invariant
                        *self == snap,
                        camera_ready(snap),
                        list_wf(*world),
                        depth == snap.max_depth,
                        color_wf(pixel_color),
                        i < 10_000_000_000u64,
                        j < 10_000_000_002u64,
                    decreases spp - s,
                {
                    let ray = self.get_ray(i, j);
                    let sample = self.ray_color(&ray, depth, world);
                    pixel_color = pixel_color.add(sample);
                    s = s + 1;
                }
                let ghost before = out@;
                let averaged = pixel_color.scale(self.pixel_samples_scale);
                write_color(&mut out, averaged);
                proof {
                    lemma_color_line_nl(averaged);
                    lemma_count_nl_concat(before, color_line(averaged));
                    assert(out@.subrange(0, hdr.len() as int) =~= before.subrange(
                        0,
                        hdr.len() as int,
                    ));
                    lemma_pixel_lines_push(pixels, averaged);
                    pixels = pixels.push(averaged);
                    assert(out@ =~= hdr + pixel_lines(pixels));
                }
                i = i + 1;
            }
            proof {
                assert((j + 1) * width == j * width + width) by (nonlinear_arith);
            }
            j = j + 1;
        }
        proof {
            assert(height * width == width * height) by (nonlinear_arith);
            assert(out@ == hdr + pixel_lines(pixels) && pixels.len() == width * height);
        }
        out
    }
}

} // verus!

//! Linear-light colors and their displayable text encoding.
//!
//! A color channel is gamma-corrected by a square root, clamped into
//! `[0, 0.999]`, quantized by `floor(256 * channel)`, and the three channel
//! numbers are emitted as one whitespace-separated decimal line per pixel.

use vstd::prelude::*;
use crate::fixed::Fx;
use crate::fixed::SCALE;
use crate::fixed::f_add;
use crate::fixed::f_mul;
use crate::fixed::sqrt_raw;
use crate::fixed::tdiv;
use crate::fixed::lemma_tdiv_mono;
use crate::fixed::lemma_tdiv_mag;
use crate::interval::Interval;
use crate::interval::clamp_raw;
use crate::vec3::Vec3;

verus! {

/// An unencoded color triple: linear-light channels.
#[derive(Clone, Copy, Debug, PartialEq, Eq, Structural)]
pub struct Color {
    pub r: Fx,
    pub g: Fx,
    pub b: Fx,
}

/// All three channels lie in the representable range.
pub open spec fn color_wf(c: Color) -> bool {
    &&& c.r.wf()
    &&& c.g.wf()
    &&& c.b.wf()
}

impl Color {
    /// Builds a color from three channels.
    pub fn new(r: Fx, g: Fx, b: Fx) -> (c: Color)
        ensures
            c == (Color { r, g, b }),
    {
        Color { r, g, b }
    }

    /// The black color.
    pub fn black() -> (c: Color)
        ensures
            c.r.raw == 0 && c.g.raw == 0 && c.b.raw == 0,
            color_wf(c),
    {
        Color { r: Fx::zero(), g: Fx::zero(), b: Fx::zero() }
    }

    /// Reads a color out of a vector of three channels.
    pub fn from_vec(v: Vec3) -> (c: Color)
        ensures
            c.r == v.x && c.g == v.y && c.b == v.z,
    {
        Color { r: v.x, g: v.y, b: v.z }
    }

    /// Channel-wise addition.
    pub fn add(self, o: Color) -> (c: Color)
        requires
            color_wf(self),
            color_wf(o),
        ensures
            c.r.raw == f_add(self.r.raw as int, o.r.raw as int),
            c.g.raw == f_add(self.g.raw as int, o.g.raw as int),
            c.b.raw == f_add(self.b.raw as int, o.b.raw as int),
            color_wf(c),
    {
        Color { r: self.r.add(o.r), g: self.g.add(o.g), b: self.b.add(o.b) }
    }

    /// Channel-wise multiplication (attenuation).
    pub fn cmul(self, o: Color) -> (c: Color)
        requires
            color_wf(self),
            color_wf(o),
        ensures
            c.r.raw == f_mul(self.r.raw as int, o.r.raw as int),
            c.g.raw == f_mul(self.g.raw as int, o.g.raw as int),
            c.b.raw == f_mul(self.b.raw as int, o.b.raw as int),
            color_wf(c),
    {
        Color { r: self.r.mul(o.r), g: self.g.mul(o.g), b: self.b.mul(o.b) }
    }

    /// Multiplication by a scalar weight.
    pub fn scale(self, k: Fx) -> (c: Color)
        requires
            color_wf(self),
            k.wf(),
        ensures
            c.r.raw == f_mul(k.raw as int, self.r.raw as int),
            c.g.raw == f_mul(k.raw as int, self.g.raw as int),
            c.b.raw == f_mul(k.raw as int, self.b.raw as int),
            color_wf(c),
    {
        Color { r: k.mul(self.r), g: k.mul(self.g), b: k.mul(self.b) }
    }
}

/// Square-root gamma correction: the root for positive input, zero otherwise.
pub fn linear_to_gamma(linear_component: Fx) -> (r: Fx)
    requires
        linear_component.wf(),
    ensures
        r.raw == sqrt_raw(linear_component.raw as int),
        r.raw >= 0,
        r.wf(),
{
    if linear_component.raw > 0 {
        linear_component.sqrt()
    } else {
        Fx::zero()
    }
}

/// The decimal digits of a nonnegative number, most significant first.
pub open spec fn dec_digits(n: int) -> Seq<u8>
    decreases n,
{
    if n < 10 {
        seq![(48 + (if n >= 0 {
            n
        } else {
            0
        })) as u8]
    } else {
        dec_digits(n / 10).push((48 + n % 10) as u8)
    }
}

/// Decimal digits are ASCII digits, never a newline.
pub proof fn lemma_dec_digits_ascii(n: int)
    ensures
        forall|i: int| 0 <= i < dec_digits(n).len() ==> 48 <= #[trigger] dec_digits(n)[i] <= 57,
        dec_digits(n).len() >= 1,
    decreases n,
{
    if n >= 10 {
        lemma_dec_digits_ascii(n / 10);
    }
}

/// Appends the decimal digits of `n`.
pub fn push_dec(out: &mut Vec<u8>, n: u64)
    ensures
        final(out)@ == old(out)@ + dec_digits(n as int),
    decreases n,
{
    if n < 10 {
        out.push(48 + n as u8);
        proof {
            assert(out@ =~= old(out)@ + dec_digits(n as int));
        }
    } else {
        push_dec(out, n / 10);
        out.push(48 + (n % 10) as u8);
        proof {
            assert(out@ =~= old(out)@ + dec_digits(n as int));
        }
    }
}

/// The quantized byte of one linear channel: gamma, clamp, scale by 256.
pub open spec fn channel_byte(raw: int) -> int {
    tdiv(256 * clamp_raw(sqrt_raw(raw), 0, 999_000), SCALE as int)
}

/// The encoded text line of a color: three channel bytes in decimal,
/// space-separated, ending in a newline.
pub open spec fn color_line(c: Color) -> Seq<u8> {
    dec_digits(channel_byte(c.r.raw as int)) + seq![32u8] + dec_digits(channel_byte(c.g.raw as int))
        + seq![32u8] + dec_digits(channel_byte(c.b.raw as int)) + seq![10u8]
}

/// A channel byte is always in the displayable range.
pub proof fn lemma_channel_byte_range(raw: int)
    ensures
        0 <= channel_byte(raw) <= 255,
{
    let cl = clamp_raw(sqrt_raw(raw), 0, 999_000);
    lemma_tdiv_mag(256 * cl, SCALE as int);
    lemma_tdiv_mono(256 * cl, 256 * 999_000int, SCALE as int);
}

/// Quantizes one channel to its displayable byte.
fn quantize(intensity: &Interval, ch: Fx) -> (b: u64)
    requires
        ch.wf(),
        intensity.min.raw == 0,
        intensity.max.raw == 999_000,
    ensures
        b == channel_byte(ch.raw as int),
        b <= 255,
{
    let g = linear_to_gamma(ch);
    let cl = intensity.clamp(g);
    let wide: u64 = 256 * (cl.raw as u64);
    let q = wide / (SCALE as u64);
    proof {
        lemma_channel_byte_range(ch.raw as int);
        assert(256 * cl.raw >= 0);
    }
    q
}

/// Encodes one pixel color onto the output sink: gamma correction, clamp
/// into `[0, 0.999]`, quantization by 256, one text line.
pub fn write_color(out: &mut Vec<u8>, pixel_color: Color)
    requires
        color_wf(pixel_color),
    ensures
        final(out)@ == old(out)@ + color_line(pixel_color),
{
    let intensity = Interval::new(Fx::zero(), Fx { raw: 999_000 });
    let rbyte = quantize(&intensity, pixel_color.r);
    let gbyte = quantize(&intensity, pixel_color.g);
    let bbyte = quantize(&intensity, pixel_color.b);
    push_dec(out, rbyte);
    out.push(32u8);
    push_dec(out, gbyte);
    out.push(32u8);
    push_dec(out, bbyte);
    out.push(10u8);
    proof {
        assert(out@ =~= old(out)@ + color_line(pixel_color));
    }
}

} // verus!

use vstd::prelude::*;
use crate::fx::{abs_i, mul_fx, div_t, sqrt_i, fmul, idiv, isqrt};
use crate::geometry::{V3, rand_in};

verus! {

/// A color: a vector reinterpreted as (r, g, b) in linear space.
#[derive(Clone, Copy, PartialEq, Eq, Structural, Debug)]
pub struct Color(pub V3);

impl Color {
    /// The zero color.
    pub fn black() -> (r: Color)
        ensures
            r.0.x == 0 && r.0.y == 0 && r.0.z == 0,
    {
        Color(V3 { x: 0, y: 0, z: 0 })
    }
}

/// One output channel after gamma correction: square root, clamp below
/// one, scale to the 8-bit range.
pub open spec fn ppm_comp_s(c: int) -> int {
    if c < 0 {
        0
    } else {
        let g = sqrt_i(c * 65536);
        if g > 65480 { 65480int / 256 } else { g / 256 }
    }
}

/// One output channel of the raw (linear) conversion after dividing the
/// accumulated color by the sample count.
pub open spec fn raw_comp_s(c: int, samples: int) -> int {
    let m = div_t(c, samples);
    if m < 0 {
        0
    } else if m > 65480 {
        65480int / 256
    } else {
        m / 256
    }
}

/// The text of one pixel row: the three channel values, space-separated.
/// Relies on the formatting of unsigned integers being a pure function of
/// the values.
pub uninterp spec fn row_text(r: int, g: int, b: int) -> Seq<char>;

/// Relies on format!("{} {} {}", ..) over three u32 values.
#[verifier::external_body]
fn fmt_rgb(r: u32, g: u32, b: u32) -> (s: String)
    ensures
        s@ == row_text(r as int, g as int, b as int),
{
    format!("{} {} {}", r, g, b)
}

/// Clamps a nonnegative scaled channel below one and scales it to 8 bits.
fn clamp_to_byte(v: i64) -> (r: u32)
    requires
        0 <= v,
    ensures
        r as int == if v > 65480 { 65480int / 256 } else { (v as int) / 256 },
        r <= 255,
{
    let cl: i64 = if v > 65480 { 65480 } else { v };
    let b = idiv(cl, 256);
    proof {
        crate::fx::lemma_div_t_abs(cl as int, 256);
        vstd::arithmetic::div_mod::lemma_div_is_ordered(cl as int, 65480, 256);
        vstd::arithmetic::div_mod::lemma_div_pos_is_pos(cl as int, 256);
    }
    b as u32
}

impl Color {
    /// Component-wise sum.
    pub fn add(self, rhs: Color) -> (r: Color)
        requires
            i64::MIN <= self.0.x + rhs.0.x <= i64::MAX,
            i64::MIN <= self.0.y + rhs.0.y <= i64::MAX,
            i64::MIN <= self.0.z + rhs.0.z <= i64::MAX,
        ensures
            r.0.x == self.0.x + rhs.0.x,
            r.0.y == self.0.y + rhs.0.y,
            r.0.z == self.0.z + rhs.0.z,
    {
        Color(V3 { x: self.0.x + rhs.0.x, y: self.0.y + rhs.0.y, z: self.0.z + rhs.0.z })
    }

    /// Component-wise product: attenuation chaining.
    pub fn mul(self, rhs: Color) -> (r: Color)
        requires
            abs_i(mul_fx(self.0.x as int, rhs.0.x as int)) <= i64::MAX as int,
            abs_i(mul_fx(self.0.y as int, rhs.0.y as int)) <= i64::MAX as int,
            abs_i(mul_fx(self.0.z as int, rhs.0.z as int)) <= i64::MAX as int,
        ensures
            r.0.x == mul_fx(self.0.x as int, rhs.0.x as int),
            r.0.y == mul_fx(self.0.y as int, rhs.0.y as int),
            r.0.z == mul_fx(self.0.z as int, rhs.0.z as int),
    {
        Color(
            V3 {
                x: fmul(self.0.x, rhs.0.x),
                y: fmul(self.0.y, rhs.0.y),
                z: fmul(self.0.z, rhs.0.z),
            },
        )
    }

    /// Scales the color in place by a fixed-point constant.
    pub fn mut_const_mul(&mut self, c: i64)
        requires
            abs_i(mul_fx(old(self).0.x as int, c as int)) <= i64::MAX as int,
            abs_i(mul_fx(old(self).0.y as int, c as int)) <= i64::MAX as int,
            abs_i(mul_fx(old(self).0.z as int, c as int)) <= i64::MAX as int,
        ensures
            final(self).0.x == mul_fx(old(self).0.x as int, c as int),
            final(self).0.y == mul_fx(old(self).0.y as int, c as int),
            final(self).0.z == mul_fx(old(self).0.z as int, c as int),
    {
        self.0 = V3 { x: fmul(self.0.x, c), y: fmul(self.0.y, c), z: fmul(self.0.z, c) };
        proof {
            let gx = old(self).0.x as int;
            let gy = old(self).0.y as int;
            let gz = old(self).0.z as int;
            let gc = c as int;
            assert(gx * gc == gc * gx) by (nonlinear_arith);
            assert(gy * gc == gc * gy) by (nonlinear_arith);
            assert(gz * gc == gc * gz) by (nonlinear_arith);
        }
    }

    /// A color with channels drawn uniformly from [0, 1).
    pub fn random() -> (r: Color)
        ensures
            0 <= r.0.x < 65536 && 0 <= r.0.y < 65536 && 0 <= r.0.z < 65536,
    {
        Color(V3 { x: rand_in(0, 65536), y: rand_in(0, 65536), z: rand_in(0, 65536) })
    }

    /// A color with channels drawn uniformly from [min, max).
    pub fn random_in(min: i64, max: i64) -> (r: Color)
        requires
            min <= max,
            max - min <= i64::MAX,
        ensures
            min <= r.0.x <= max && min <= r.0.y <= max && min <= r.0.z <= max,
    {
        Color(V3 { x: rand_in(min, max), y: rand_in(min, max), z: rand_in(min, max) })
    }

    /// The gamma-corrected text row for this pixel.
    pub fn ppm(&self) -> (s: String)
        requires
            abs_i(self.0.x as int) <= 281474976710656,
            abs_i(self.0.y as int) <= 281474976710656,
            abs_i(self.0.z as int) <= 281474976710656,
        ensures
            s@ == row_text(
                ppm_comp_s(self.0.x as int),
                ppm_comp_s(self.0.y as int),
                ppm_comp_s(self.0.z as int),
            ),
    {
        let r = Self::gamma_byte(self.0.x);
        let g = Self::gamma_byte(self.0.y);
        let b = Self::gamma_byte(self.0.z);
        fmt_rgb(r, g, b)
    }

    /// One gamma-corrected channel.
    fn gamma_byte(c: i64) -> (r: u32)
        requires
            abs_i(c as int) <= 281474976710656,
        ensures
            r as int == ppm_comp_s(c as int),
            r <= 255,
    {
        if c < 0 {
            return 0;
        }
        proof {
            assert(0 <= (c as int) * 65536 <= 0xffff_ffff_ffff_ffff_ffff_ffff_ffff_ffffint)
                by (nonlinear_arith)
                requires 0 <= c <= 281474976710656int;
        }
        let g128 = isqrt(((c as i128) * 65536) as u128);
        proof {
            assert(g128 as int <= 4294967296) by (nonlinear_arith)
                requires
                    (g128 as int) * (g128 as int) <= (c as int) * 65536,
                    0 <= c <= 281474976710656int,
                    g128 >= 0,
            ;
        }
        let g = g128 as i64;
        clamp_to_byte(g)
    }

    /// The raw (linear) text row after averaging over `samples` draws.
    pub fn to_ppm_row(&self, samples: u32) -> (s: String)
        requires
            samples >= 1,
        ensures
            s@ == row_text(
                raw_comp_s(self.0.x as int, samples as int),
                raw_comp_s(self.0.y as int, samples as int),
                raw_comp_s(self.0.z as int, samples as int),
            ),
    {
        let r = Self::raw_byte(self.0.x, samples);
        let g = Self::raw_byte(self.0.y, samples);
        let b = Self::raw_byte(self.0.z, samples);
        fmt_rgb(r, g, b)
    }

    /// One linear channel after averaging.
    fn raw_byte(c: i64, samples: u32) -> (r: u32)
        requires
            samples >= 1,
        ensures
            r as int == raw_comp_s(c as int, samples as int),
            r <= 255,
    {
        let m = idiv(c, samples as i64);
        if m < 0 {
            return 0;
        }
        clamp_to_byte(m)
    }
}

} // verus!

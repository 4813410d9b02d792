//! RGB colors in linear space, on the fixed-point grid.

use crate::fixed::div_floor;
use crate::fixed::fx_mul;
use crate::fixed::isqrt;
use crate::fixed::mul_wide;
use crate::fixed::sqrt_floor;
use crate::fixed::SCALE;
use vstd::arithmetic::div_mod::lemma_div_is_ordered;
use vstd::arithmetic::div_mod::lemma_fundamental_div_mod_converse;
use vstd::prelude::*;

verus! {

/// A color; components nominally lie in `[0, 1]` but, as in any linear
/// light computation, may exceed that until tone mapping.
#[derive(Clone, Copy, Debug, PartialEq, Eq, Structural)]
pub struct Color {
    pub r: i64,
    pub g: i64,
    pub b: i64,
}

impl Color {
    /// All components within `[0, 1]`.
    pub open spec fn valid(self) -> bool {
        0 <= self.r <= SCALE && 0 <= self.g <= SCALE && 0 <= self.b <= SCALE
    }

    pub fn new(r: i64, g: i64, b: i64) -> (c: Color)
        ensures
            c == (Color { r, g, b }),
    {
        Color { r, g, b }
    }

    /// Gamma-2 mapping of one linear component: its square root on the
    /// grid; non-positive values map to zero.
    pub fn linear_to_gamma(linear_component: i64) -> (r: i64)
        requires
            linear_component <= 3_000_000_000_000,
        ensures
            linear_component > 0 ==> r == sqrt_floor((linear_component * SCALE) as nat),
            linear_component <= 0 ==> r == 0,
            r >= 0,
    {
        if linear_component > 0 {
            let w = mul_wide(linear_component, SCALE);
            let s = isqrt(w as u128);
            proof {
                assert(s <= 2_000_000_000) by (nonlinear_arith)
                    requires
                        s * s <= 3_000_000_000_000_000,
                ;
            }
            s as i64
        } else {
            0
        }
    }

    /// The gamma-mapped components, clamped to `[0, 0.999]` and scaled to
    /// the byte range.
    pub fn write_color(&self) -> (bytes: (u8, u8, u8))
        requires
            self.r <= 3_000_000_000_000,
            self.g <= 3_000_000_000_000,
            self.b <= 3_000_000_000_000,
        ensures
            bytes.0 == byte_of_gamma(self.r as int),
            bytes.1 == byte_of_gamma(self.g as int),
            bytes.2 == byte_of_gamma(self.b as int),
    {
        (byte_component(self.r), byte_component(self.g), byte_component(self.b))
    }

    /// Componentwise sum.
    pub fn add(&self, other: &Color) -> (c: Color)
        requires
            -1_000_000_000 <= self.r + other.r <= 1_000_000_000,
            -1_000_000_000 <= self.g + other.g <= 1_000_000_000,
            -1_000_000_000 <= self.b + other.b <= 1_000_000_000,
        ensures
            c.r == self.r + other.r,
            c.g == self.g + other.g,
            c.b == self.b + other.b,
    {
        Color { r: self.r + other.r, g: self.g + other.g, b: self.b + other.b }
    }

    /// Componentwise sum in place.
    pub fn add_assign(&mut self, other: &Color)
        requires
            -1_000_000_000 <= old(self).r + other.r <= 1_000_000_000,
            -1_000_000_000 <= old(self).g + other.g <= 1_000_000_000,
            -1_000_000_000 <= old(self).b + other.b <= 1_000_000_000,
        ensures
            final(self).r == old(self).r + other.r,
            final(self).g == old(self).g + other.g,
            final(self).b == old(self).b + other.b,
    {
        self.r = self.r + other.r;
        self.g = self.g + other.g;
        self.b = self.b + other.b;
    }

    /// Product with a scalar on the grid.
    pub fn mul_scalar(&self, s: i64) -> (c: Color)
        requires
            -3_000_000_000 <= self.r <= 3_000_000_000,
            -3_000_000_000 <= self.g <= 3_000_000_000,
            -3_000_000_000 <= self.b <= 3_000_000_000,
            -3_000_000_000 <= s <= 3_000_000_000,
        ensures
            c.r == self.r * s / (SCALE as int),
            c.g == self.g * s / (SCALE as int),
            c.b == self.b * s / (SCALE as int),
    {
        Color { r: fx_mul(self.r, s), g: fx_mul(self.g, s), b: fx_mul(self.b, s) }
    }

    /// Product with a scalar in place.
    pub fn mul_assign(&mut self, s: i64)
        requires
            -3_000_000_000 <= old(self).r <= 3_000_000_000,
            -3_000_000_000 <= old(self).g <= 3_000_000_000,
            -3_000_000_000 <= old(self).b <= 3_000_000_000,
            -3_000_000_000 <= s <= 3_000_000_000,
        ensures
            final(self).r == old(self).r * s / (SCALE as int),
            final(self).g == old(self).g * s / (SCALE as int),
            final(self).b == old(self).b * s / (SCALE as int),
    {
        self.r = fx_mul(self.r, s);
        self.g = fx_mul(self.g, s);
        self.b = fx_mul(self.b, s);
    }

    /// Componentwise product on the grid (one color attenuating another).
    pub fn mul(&self, other: &Color) -> (c: Color)
        requires
            -3_000_000_000 <= self.r <= 3_000_000_000,
            -3_000_000_000 <= self.g <= 3_000_000_000,
            -3_000_000_000 <= self.b <= 3_000_000_000,
            -3_000_000_000 <= other.r <= 3_000_000_000,
            -3_000_000_000 <= other.g <= 3_000_000_000,
            -3_000_000_000 <= other.b <= 3_000_000_000,
        ensures
            c.r == self.r * other.r / (SCALE as int),
            c.g == self.g * other.g / (SCALE as int),
            c.b == self.b * other.b / (SCALE as int),
    {
        Color { r: fx_mul(self.r, other.r), g: fx_mul(self.g, other.g), b: fx_mul(self.b, other.b) }
    }
}

/// The byte value of one linear component: gamma mapping, clamp to
/// `[0, 0.999]`, then scaling by 256.
pub open spec fn byte_of_gamma(c: int) -> int {
    let g = if c > 0 {
        sqrt_floor((c * SCALE) as nat) as int
    } else {
        0
    };
    let clamped = if g > 999 {
        999 as int
    } else {
        g
    };
    256 * clamped / 1000
}

fn byte_component(c: i64) -> (b: u8)
    requires
        c <= 3_000_000_000_000,
    ensures
        b == byte_of_gamma(c as int),
{
    let g = Color::linear_to_gamma(c);
    let clamped: i64 = if g > 999 {
        999
    } else {
        g
    };
    let q = div_floor(256 * clamped as i128, 1000);
    proof {
        lemma_fundamental_div_mod_converse(255744, 1000, 255, 744);
        lemma_div_is_ordered(256 * clamped as int, 255744, 1000);
    }
    q as u8
}

} // verus!

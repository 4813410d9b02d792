//! Procedural textures: a constant color, and a two-color checker.

use crate::color::Color;
use crate::fixed::div_floor;
use crate::fixed::in_origin;
use crate::fixed::mul_wide;
use crate::fixed::SCALE;
use crate::point3::Point3;
use vstd::prelude::*;

verus! {

#[derive(Debug)]
pub enum TextureEnum {
    SolidColor(SolidColor),
    CheckerTexture(CheckerTexture),
}

/// A texture that returns one color everywhere.
#[derive(Clone, Copy, Debug, PartialEq, Eq, Structural)]
pub struct SolidColor {
    pub color: Color,
}

/// Alternating cells of two textures on an axis-aligned lattice. The cell
/// width is the reciprocal of `scale`: the fixed-point stand-in for the
/// sign-of-sine pattern, which needs transcendentals the grid cannot hold.
#[derive(Debug)]
pub struct CheckerTexture {
    pub scale: i64,
    pub odd: Box<TextureEnum>,
    pub even: Box<TextureEnum>,
}

impl SolidColor {
    pub fn new(color: Color) -> (r: SolidColor)
        ensures
            r.color == color,
    {
        SolidColor { color }
    }

    pub fn value(&self, _u: i64, _v: i64, _p: &Point3) -> (r: Color)
        ensures
            r == self.color,
    {
        self.color
    }
}

impl CheckerTexture {
    pub fn new(scale: i64, odd: Box<TextureEnum>, even: Box<TextureEnum>) -> (r: CheckerTexture)
        requires
            scale > 0,
        ensures
            r.scale == scale,
            r.odd == odd,
            r.even == even,
    {
        CheckerTexture { scale, odd, even }
    }
}

impl TextureEnum {
    /// Colors within `[0, 1]` everywhere, and a positive checker scale.
    pub open spec fn wf(self) -> bool
        decreases self,
    {
        match self {
            TextureEnum::SolidColor(t) => t.color.valid(),
            TextureEnum::CheckerTexture(t) => 0 < t.scale <= SCALE * SCALE && t.odd.wf()
                && t.even.wf(),
        }
    }

    /// The color of the texture at the given surface coordinates and point.
    pub fn value(&self, u: i64, v: i64, p: &Point3) -> (r: Color)
        requires
            self.wf(),
            in_origin(p.0.x as int),
            in_origin(p.0.y as int),
            in_origin(p.0.z as int),
        ensures
            r == self.value_spec(u as int, v as int, *p),
            r.valid(),
        decreases *self,
    {
        match self {
            TextureEnum::SolidColor(t) => t.value(u, v, p),
            TextureEnum::CheckerTexture(t) => {
                let kx = div_floor(mul_wide(t.scale, p.0.x), (SCALE as i128) * (SCALE as i128));
                let ky = div_floor(mul_wide(t.scale, p.0.y), (SCALE as i128) * (SCALE as i128));
                let kz = div_floor(mul_wide(t.scale, p.0.z), (SCALE as i128) * (SCALE as i128));
                let s = kx + ky + kz;
                let h = div_floor(s, 2);
                proof {
                    vstd::arithmetic::div_mod::lemma_fundamental_div_mod(s as int, 2);
                }
                let parity = s - 2 * h;
                if parity == 0 {
                    t.odd.value(u, v, p)
                } else {
                    t.even.value(u, v, p)
                }
            },
        }
    }

    /// The color as a mathematical function: the checker picks its odd
    /// texture on lattice cells whose index sum is even.
    pub open spec fn value_spec(self, u: int, v: int, p: Point3) -> Color
        decreases self,
    {
        match self {
            TextureEnum::SolidColor(t) => t.color,
            TextureEnum::CheckerTexture(t) => {
                let cell = (SCALE * SCALE) as int;
                let s = t.scale * p.0.x / cell + t.scale * p.0.y / cell + t.scale * p.0.z / cell;
                if s % 2 == 0 {
                    t.odd.value_spec(u, v, p)
                } else {
                    t.even.value_spec(u, v, p)
                }
            },
        }
    }
}

impl Clone for TextureEnum {
    /// An exact copy.
    fn clone(&self) -> (r: TextureEnum)
        ensures
            r == *self,
        decreases *self,
    {
        match self {
            TextureEnum::SolidColor(t) => TextureEnum::SolidColor(SolidColor { color: t.color }),
            TextureEnum::CheckerTexture(t) => TextureEnum::CheckerTexture(
                CheckerTexture {
                    scale: t.scale,
                    odd: Box::new((*t.odd).clone()),
                    even: Box::new((*t.even).clone()),
                },
            ),
        }
    }
}

impl Clone for CheckerTexture {
    /// An exact copy.
    fn clone(&self) -> (r: CheckerTexture)
        ensures
            r == *self,
        decreases *self,
    {
        CheckerTexture {
            scale: self.scale,
            odd: Box::new((*self.odd).clone()),
            even: Box::new((*self.even).clone()),
        }
    }
}

} // verus!

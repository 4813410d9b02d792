//! Three-component vectors on the fixed-point grid.

use crate::fixed::div_floor;
use crate::fixed::fx_mul;
use crate::fixed::in_coord;
use crate::fixed::isqrt;
use crate::fixed::mul_wide;
use crate::fixed::sqrt_floor;
use crate::fixed::COORD_LIMIT;
use crate::fixed::SCALE;
use crate::utilities::random_double_range;
use vstd::arithmetic::div_mod::lemma_div_is_ordered;
use vstd::prelude::*;

verus! {

/// A 3D vector of fixed-point scalars.
#[derive(Clone, Copy, Debug, PartialEq, Eq, Structural)]
pub struct Vec3 {
    pub x: i64,
    pub y: i64,
    pub z: i64,
}

/// Exact dot product in raw units (carries two factors of the scale).
pub open spec fn dot_raw(a: Vec3, b: Vec3) -> int {
    a.x * b.x + a.y * b.y + a.z * b.z
}

/// What `unit` returns: each component scaled by the floor square root of
/// the raw squared length; zero stays zero.
pub open spec fn unit_spec(v: Vec3) -> Vec3 {
    if norm2_raw(v) == 0 {
        Vec3 { x: 0, y: 0, z: 0 }
    } else {
        let l = sqrt_floor(norm2_raw(v) as nat) as int;
        Vec3 {
            x: (v.x * SCALE / l) as i64,
            y: (v.y * SCALE / l) as i64,
            z: (v.z * SCALE / l) as i64,
        }
    }
}

/// What `reflect` returns: the mirror image about the plane of the normal,
/// with the two grid roundings written out.
pub open spec fn reflect_spec(v: Vec3, n: Vec3) -> Vec3 {
    let d = dot_raw(v, n) / (SCALE as int);
    Vec3 {
        x: (v.x - 2 * d * n.x / (SCALE as int)) as i64,
        y: (v.y - 2 * d * n.y / (SCALE as int)) as i64,
        z: (v.z - 2 * d * n.z / (SCALE as int)) as i64,
    }
}

/// Exact squared length in raw units (carries two factors of the scale).
pub open spec fn norm2_raw(v: Vec3) -> int {
    dot_raw(v, v)
}

impl Vec3 {
    /// All components small enough for the geometric computations.
    pub open spec fn wf(self) -> bool {
        in_coord(self.x as int) && in_coord(self.y as int) && in_coord(self.z as int)
    }

    pub open spec fn is_zero(self) -> bool {
        self.x == 0 && self.y == 0 && self.z == 0
    }

    pub fn new(x: i64, y: i64, z: i64) -> (r: Vec3)
        ensures
            r == (Vec3 { x, y, z }),
    {
        Vec3 { x, y, z }
    }

    pub fn x(&self) -> (r: i64)
        ensures
            r == self.x,
    {
        self.x
    }

    pub fn y(&self) -> (r: i64)
        ensures
            r == self.y,
    {
        self.y
    }

    pub fn z(&self) -> (r: i64)
        ensures
            r == self.z,
    {
        self.z
    }

    /// Exact raw dot product, widened.
    pub fn dot_wide(&self, other: &Vec3) -> (r: i128)
        requires
            self.wf(),
            other.wf(),
        ensures
            r == dot_raw(*self, *other),
            -12_000_000_000_000 <= r <= 12_000_000_000_000,
    {
        let p = mul_wide(self.x, other.x) + mul_wide(self.y, other.y) + mul_wide(self.z, other.z);
        proof {
            assert(-4_000_000_000_000 <= (self.x as int) * (other.x as int) <= 4_000_000_000_000
                && -4_000_000_000_000 <= (self.y as int) * (other.y as int) <= 4_000_000_000_000
                && -4_000_000_000_000 <= (self.z as int) * (other.z as int) <= 4_000_000_000_000)
                by (nonlinear_arith)
                requires
                    self.wf(),
                    other.wf(),
            ;
        }
        p
    }

    /// Dot product on the fixed-point grid (rounded toward minus infinity).
    pub fn dot(&self, other: &Vec3) -> (r: i64)
        requires
            self.wf(),
            other.wf(),
        ensures
            r == dot_raw(*self, *other) / (SCALE as int),
            -12_000_000_000 <= r <= 12_000_000_000,
    {
        let p = self.dot_wide(other);
        let q = div_floor(p, SCALE as i128);
        proof {
            lemma_div_is_ordered(p as int, 12_000_000_000_000, SCALE as int);
            lemma_div_is_ordered(-12_000_000_000_000, p as int, SCALE as int);
        }
        q as i64
    }

    /// Squared length on the fixed-point grid.
    pub fn length_squared(&self) -> (r: i64)
        requires
            self.wf(),
        ensures
            r == norm2_raw(*self) / (SCALE as int),
            0 <= r <= 12_000_000_000_000,
    {
        proof {
            lemma_norm2_nonneg(*self);
        }
        let p = self.dot_wide(self);
        let q = div_floor(p, SCALE as i128);
        q as i64
    }

    /// Length on the fixed-point grid: the floor square root of the raw
    /// squared length (one scale factor cancels).
    pub fn length(&self) -> (r: i64)
        requires
            self.wf(),
        ensures
            r == sqrt_floor(norm2_raw(*self) as nat),
            0 <= r <= 4_000_000,
    {
        proof {
            lemma_norm2_nonneg(*self);
        }
        let p = self.dot_wide(self);
        let r = isqrt(p as u128);
        proof {
            assert(r <= 4_000_000) by (nonlinear_arith)
                requires
                    r * r <= 12_000_000_000_000,
            ;
        }
        r as i64
    }

    /// The unit vector on the grid (each component scaled by the exact
    /// length), or zero for the zero vector.
    pub fn unit(&self) -> (r: Vec3)
        requires
            -3_000_000_000 <= self.x <= 3_000_000_000,
            -3_000_000_000 <= self.y <= 3_000_000_000,
            -3_000_000_000 <= self.z <= 3_000_000_000,
        ensures
            r == unit_spec(*self),
            norm2_raw(*self) == 0 ==> r.is_zero(),
            norm2_raw(*self) > 0 ==> {
                let l = sqrt_floor(norm2_raw(*self) as nat) as int;
                &&& r.x == self.x * SCALE / l
                &&& r.y == self.y * SCALE / l
                &&& r.z == self.z * SCALE / l
            },
            -SCALE <= r.x <= SCALE,
            -SCALE <= r.y <= SCALE,
            -SCALE <= r.z <= SCALE,
    {
        proof {
            lemma_norm2_nonneg(*self);
            crate::fixed::lemma_sqrt_floor(norm2_raw(*self) as nat);
            assert(-9_000_000_000_000_000_000 <= (self.x as int) * (self.x as int)
                <= 9_000_000_000_000_000_000 && -9_000_000_000_000_000_000 <= (self.y as int)
                * (self.y as int) <= 9_000_000_000_000_000_000 && -9_000_000_000_000_000_000 <= (
            self.z as int) * (self.z as int) <= 9_000_000_000_000_000_000) by (nonlinear_arith)
                requires
                    -3_000_000_000 <= self.x as int <= 3_000_000_000,
                    -3_000_000_000 <= self.y as int <= 3_000_000_000,
                    -3_000_000_000 <= self.z as int <= 3_000_000_000,
            ;
        }
        let p = mul_wide(self.x, self.x) + mul_wide(self.y, self.y) + mul_wide(self.z, self.z);
        let lu = isqrt(p as u128);
        proof {
            assert(lu <= 6_000_000_000) by (nonlinear_arith)
                requires
                    lu * lu <= 27_000_000_000_000_000_000,
            ;
            crate::fixed::lemma_sqrt_floor_unique(p as nat, lu as nat);
        }
        let l = lu as i64;
        if l == 0 {
            proof {
                let n2 = norm2_raw(*self);
                let sf = sqrt_floor(n2 as nat) as int;
                assert(n2 == self.x * self.x + self.y * self.y + self.z * self.z);
                assert(n2 < 1) by (nonlinear_arith)
                    requires
                        sf == 0,
                        n2 >= 0,
                        n2 < (sf + 1) * (sf + 1),
                ;
                assert(n2 <= 0 ==> self.x == 0 && self.y == 0 && self.z == 0) by (nonlinear_arith)
                    requires
                        n2 == self.x * self.x + self.y * self.y + self.z * self.z,
                ;
            }
            Vec3 { x: 0, y: 0, z: 0 }
        } else {
            proof {
                lemma_components_le_length(*self);
                let n2 = norm2_raw(*self);
                let li = l as int;
                assert(n2 > 0) by (nonlinear_arith)
                    requires
                        li > 0,
                        li * li <= n2,
                ;
            }
            let rx = scale_by_len(self.x, l);
            let ry = scale_by_len(self.y, l);
            let rz = scale_by_len(self.z, l);
            Vec3 { x: rx, y: ry, z: rz }
        }
    }

    /// True exactly for the zero vector: the original's near-zero cutoff is
    /// below the resolution of the grid.
    pub fn near_zero(&self) -> (r: bool)
        ensures
            r == self.is_zero(),
    {
        self.x == 0 && self.y == 0 && self.z == 0
    }

    pub fn add(&self, other: &Vec3) -> (r: Vec3)
        requires
            -1_000_000_000 <= self.x + other.x <= 1_000_000_000,
            -1_000_000_000 <= self.y + other.y <= 1_000_000_000,
            -1_000_000_000 <= self.z + other.z <= 1_000_000_000,
        ensures
            r.x == self.x + other.x,
            r.y == self.y + other.y,
            r.z == self.z + other.z,
    {
        Vec3 { x: self.x + other.x, y: self.y + other.y, z: self.z + other.z }
    }

    pub fn sub(&self, other: &Vec3) -> (r: Vec3)
        requires
            -1_000_000_000 <= self.x - other.x <= 1_000_000_000,
            -1_000_000_000 <= self.y - other.y <= 1_000_000_000,
            -1_000_000_000 <= self.z - other.z <= 1_000_000_000,
        ensures
            r.x == self.x - other.x,
            r.y == self.y - other.y,
            r.z == self.z - other.z,
    {
        Vec3 { x: self.x - other.x, y: self.y - other.y, z: self.z - other.z }
    }

    pub fn neg(&self) -> (r: Vec3)
        requires
            -1_000_000_000 <= self.x <= 1_000_000_000,
            -1_000_000_000 <= self.y <= 1_000_000_000,
            -1_000_000_000 <= self.z <= 1_000_000_000,
        ensures
            r.x == -self.x,
            r.y == -self.y,
            r.z == -self.z,
    {
        Vec3 { x: -self.x, y: -self.y, z: -self.z }
    }

    /// Componentwise product on the grid.
    pub fn mul(&self, other: &Vec3) -> (r: Vec3)
        requires
            -3_000_000_000 <= self.x <= 3_000_000_000,
            -3_000_000_000 <= self.y <= 3_000_000_000,
            -3_000_000_000 <= self.z <= 3_000_000_000,
            -3_000_000_000 <= other.x <= 3_000_000_000,
            -3_000_000_000 <= other.y <= 3_000_000_000,
            -3_000_000_000 <= other.z <= 3_000_000_000,
        ensures
            r.x == self.x * other.x / (SCALE as int),
            r.y == self.y * other.y / (SCALE as int),
            r.z == self.z * other.z / (SCALE as int),
    {
        Vec3 {
            x: fx_mul(self.x, other.x),
            y: fx_mul(self.y, other.y),
            z: fx_mul(self.z, other.z),
        }
    }

    /// Product with a scalar on the grid.
    pub fn scale(&self, s: i64) -> (r: Vec3)
        requires
            -3_000_000_000 <= self.x <= 3_000_000_000,
            -3_000_000_000 <= self.y <= 3_000_000_000,
            -3_000_000_000 <= self.z <= 3_000_000_000,
            -3_000_000_000 <= s <= 3_000_000_000,
        ensures
            r.x == self.x * s / (SCALE as int),
            r.y == self.y * s / (SCALE as int),
            r.z == self.z * s / (SCALE as int),
    {
        Vec3 { x: fx_mul(self.x, s), y: fx_mul(self.y, s), z: fx_mul(self.z, s) }
    }

    /// Quotient by a positive scalar on the grid.
    pub fn div_scalar(&self, s: i64) -> (r: Vec3)
        requires
            0 < s,
            -1_000_000_000 <= self.x <= 1_000_000_000,
            -1_000_000_000 <= self.y <= 1_000_000_000,
            -1_000_000_000 <= self.z <= 1_000_000_000,
        ensures
            r.x == self.x * SCALE / (s as int),
            r.y == self.y * SCALE / (s as int),
            r.z == self.z * SCALE / (s as int),
    {
        let rx = div_floor(mul_wide(self.x, SCALE), s as i128);
        let ry = div_floor(mul_wide(self.y, SCALE), s as i128);
        let rz = div_floor(mul_wide(self.z, SCALE), s as i128);
        Vec3 { x: rx as i64, y: ry as i64, z: rz as i64 }
    }

    /// Cross product on the grid.
    pub fn cross(&self, other: &Vec3) -> (r: Vec3)
        requires
            self.wf(),
            other.wf(),
        ensures
            r.x == (self.y * other.z - self.z * other.y) / (SCALE as int),
            r.y == (self.z * other.x - self.x * other.z) / (SCALE as int),
            r.z == (self.x * other.y - self.y * other.x) / (SCALE as int),
    {
        proof {
            lemma_wf_products(*self, *other);
        }
        let px = mul_wide(self.y, other.z) - mul_wide(self.z, other.y);
        let py = mul_wide(self.z, other.x) - mul_wide(self.x, other.z);
        let pz = mul_wide(self.x, other.y) - mul_wide(self.y, other.x);
        let rx = div_floor(px, SCALE as i128);
        let ry = div_floor(py, SCALE as i128);
        let rz = div_floor(pz, SCALE as i128);
        Vec3 { x: rx as i64, y: ry as i64, z: rz as i64 }
    }

    /// Mirror of the vector about the plane with the given normal.
    pub fn reflect(&self, normal: &Vec3) -> (r: Vec3)
        requires
            self.wf(),
            normal.wf(),
        ensures
            r == reflect_spec(*self, *normal),
            ({
                let d = dot_raw(*self, *normal) / (SCALE as int);
                &&& r.x == self.x - 2 * d * normal.x / (SCALE as int)
                &&& r.y == self.y - 2 * d * normal.y / (SCALE as int)
                &&& r.z == self.z - 2 * d * normal.z / (SCALE as int)
            }),
    {
        let d = self.dot(normal);
        let d2 = 2 * d;
        proof {
            assert(-48_000_000_000_000_000 <= (d2 as int) * (normal.x as int)
                <= 48_000_000_000_000_000 && -48_000_000_000_000_000 <= (d2 as int)
                * (normal.y as int) <= 48_000_000_000_000_000 && -48_000_000_000_000_000 <= (
            d2 as int) * (normal.z as int) <= 48_000_000_000_000_000) by (nonlinear_arith)
                requires
                    -24_000_000_000 <= d2 as int <= 24_000_000_000,
                    -2_000_000 <= normal.x as int <= 2_000_000,
                    -2_000_000 <= normal.y as int <= 2_000_000,
                    -2_000_000 <= normal.z as int <= 2_000_000,
            ;
        }
        let qx = div_floor(mul_wide(d2, normal.x), SCALE as i128);
        let qy = div_floor(mul_wide(d2, normal.y), SCALE as i128);
        let qz = div_floor(mul_wide(d2, normal.z), SCALE as i128);
        Vec3 { x: self.x - qx as i64, y: self.y - qy as i64, z: self.z - qz as i64 }
    }

    /// A vector with each component drawn uniformly from `[min, max)`.
    pub fn random(min: i64, max: i64) -> (r: Vec3)
        requires
            -COORD_LIMIT <= min < max <= COORD_LIMIT,
        ensures
            min <= r.x < max,
            min <= r.y < max,
            min <= r.z < max,
    {
        Vec3 {
            x: random_double_range(min, max),
            y: random_double_range(min, max),
            z: random_double_range(min, max),
        }
    }

    /// A random direction of roughly unit length: candidates are drawn from
    /// the cube, rejected unless their length lies in (1/2, 1], scaled by
    /// their exact grid length, and re-checked to sit within half a percent
    /// of unit length on the grid. The number of draws is capped (the cap
    /// is reached with probability below 2^-256); after it the unit vector
    /// along the z axis is returned.
    pub fn random_unit() -> (r: Vec3)
        ensures
            -SCALE <= r.x <= SCALE,
            -SCALE <= r.y <= SCALE,
            -SCALE <= r.z <= SCALE,
            !r.is_zero(),
            990_025 <= norm2_raw(r) <= 1_010_025,
    {
        let mut tries: u32 = 0;
        while tries < 512
            decreases 512 - tries,
        {
            tries = tries + 1;
            let p = Vec3::random(-SCALE, SCALE);
            let p2 = p.dot_wide(&p) as i64;
            if 250_000 < p2 && p2 <= 1_000_000 {
                let lu = isqrt(p2 as u128);
                proof {
                    assert(500 <= lu <= 1000) by (nonlinear_arith)
                        requires
                            lu * lu <= p2 as int,
                            p2 as int <= 1_000_000,
                            250_000 < p2 as int,
                            (p2 as int) < (lu + 1) * (lu + 1),
                    ;
                    lemma_components_le_length(p);
                }
                let l = lu as i64;
                let rx = scale_by_len(p.x, l);
                let ry = scale_by_len(p.y, l);
                let rz = scale_by_len(p.z, l);
                let un2 = mul_wide(rx, rx) + mul_wide(ry, ry) + mul_wide(rz, rz);
                if 990_025 <= un2 && un2 <= 1_010_025 {
                    proof {
                        lemma_unit_not_zero(p, l, rx as int, ry as int, rz as int);
                    }
                    return Vec3 { x: rx, y: ry, z: rz };
                }
            }
        }
        let fallback = Vec3 { x: 0, y: 0, z: SCALE };
        proof {
            assert(norm2_raw(fallback) == 1_000_000) by (nonlinear_arith)
                requires
                    fallback.x == 0 && fallback.y == 0 && fallback.z == 1000,
                    norm2_raw(fallback) == fallback.x * fallback.x + fallback.y * fallback.y
                        + fallback.z * fallback.z,
            ;
        }
        fallback
    }

    /// A random roughly-unit direction in the half space of the normal.
    pub fn random_on_hemisphere(normal: &Vec3) -> (r: Vec3)
        requires
            normal.wf(),
        ensures
            -SCALE <= r.x <= SCALE,
            -SCALE <= r.y <= SCALE,
            -SCALE <= r.z <= SCALE,
            !r.is_zero(),
            dot_raw(r, *normal) >= 0,
    {
        let u = Vec3::random_unit();
        let d = u.dot_wide(normal);
        if d > 0 {
            u
        } else {
            let r = Vec3 { x: -u.x, y: -u.y, z: -u.z };
            proof {
                assert(dot_raw(r, *normal) == -dot_raw(u, *normal)) by (nonlinear_arith)
                    requires
                        r.x == -u.x && r.y == -u.y && r.z == -u.z,
                ;
            }
            r
        }
    }

    /// A random offset within the unit pixel square: both coordinates in
    /// `[-1/2, 1/2)`, no third component.
    pub fn sample_square() -> (r: Vec3)
        ensures
            -500 <= r.x < 500,
            -500 <= r.y < 500,
            r.z == 0,
    {
        Vec3 {
            x: random_double_range(-500, 500),
            y: random_double_range(-500, 500),
            z: 0,
        }
    }
}

impl Default for Vec3 {
    /// The zero vector.
    fn default() -> (r: Vec3)
        ensures
            r.is_zero(),
    {
        Vec3 { x: 0, y: 0, z: 0 }
    }
}

/// The raw squared length is never negative.
pub proof fn lemma_norm2_nonneg(v: Vec3)
    ensures
        norm2_raw(v) >= 0,
{
    assert(v.x * v.x + v.y * v.y + v.z * v.z >= 0) by (nonlinear_arith);
}

/// All pairwise products of two bounded vectors' components stay small.
proof fn lemma_wf_products(a: Vec3, b: Vec3)
    requires
        a.wf(),
        b.wf(),
    ensures
        -8_000_000_000_000 <= a.y * b.z - a.z * b.y <= 8_000_000_000_000,
        -8_000_000_000_000 <= a.z * b.x - a.x * b.z <= 8_000_000_000_000,
        -8_000_000_000_000 <= a.x * b.y - a.y * b.x <= 8_000_000_000_000,
{
    assert(-4_000_000_000_000 <= a.y * b.z <= 4_000_000_000_000 && -4_000_000_000_000 <= a.z * b.y
        <= 4_000_000_000_000 && -4_000_000_000_000 <= a.z * b.x <= 4_000_000_000_000
        && -4_000_000_000_000 <= a.x * b.z <= 4_000_000_000_000 && -4_000_000_000_000 <= a.x * b.y
        <= 4_000_000_000_000 && -4_000_000_000_000 <= a.y * b.x <= 4_000_000_000_000)
        by (nonlinear_arith)
        requires
            -2_000_000 <= a.x <= 2_000_000,
            -2_000_000 <= a.y <= 2_000_000,
            -2_000_000 <= a.z <= 2_000_000,
            -2_000_000 <= b.x <= 2_000_000,
            -2_000_000 <= b.y <= 2_000_000,
            -2_000_000 <= b.z <= 2_000_000,
    ;
}

/// Each component of a vector is bounded by the floor square root of the
/// squared length.
proof fn lemma_components_le_length(v: Vec3)
    ensures
        -sqrt_floor(norm2_raw(v) as nat) <= v.x <= sqrt_floor(norm2_raw(v) as nat),
        -sqrt_floor(norm2_raw(v) as nat) <= v.y <= sqrt_floor(norm2_raw(v) as nat),
        -sqrt_floor(norm2_raw(v) as nat) <= v.z <= sqrt_floor(norm2_raw(v) as nat),
{
    lemma_norm2_nonneg(v);
    let n2 = norm2_raw(v) as nat;
    crate::fixed::lemma_sqrt_floor(n2);
    let l = sqrt_floor(n2) as int;
    assert(-l <= v.x <= l && -l <= v.y <= l && -l <= v.z <= l) by (nonlinear_arith)
        requires
            l >= 0,
            n2 == v.x * v.x + v.y * v.y + v.z * v.z,
            n2 < (l + 1) * (l + 1),
    ;
}

/// One component of the exact unit scaling: `c * SCALE / l` stays within
/// `[-SCALE, SCALE]` when `|c| <= l`.
fn scale_by_len(c: i64, l: i64) -> (r: i64)
    requires
        0 < l <= 6_000_000_000,
        -l <= c <= l,
    ensures
        r == c * SCALE / (l as int),
        -SCALE <= r <= SCALE,
{
    let q = div_floor(mul_wide(c, SCALE), l as i128);
    proof {
        let qi = q as int;
        let ci = c as int;
        let li = l as int;
        vstd::arithmetic::div_mod::lemma_fundamental_div_mod(ci * (SCALE as int), li);
        assert(-SCALE <= qi <= SCALE) by (nonlinear_arith)
            requires
                li >= 1,
                -li * (SCALE as int) <= ci * (SCALE as int) <= li * (SCALE as int),
                ci * (SCALE as int) == li * qi + (ci * (SCALE as int)) % li,
                0 <= (ci * (SCALE as int)) % li < li,
        ;
        assert(-li * (SCALE as int) <= ci * (SCALE as int) <= li * (SCALE as int))
            by (nonlinear_arith)
            requires
                -li <= ci <= li,
                li > 0,
        ;
    }
    q as i64
}

/// The scaled candidate of the rejection sampler is not the zero vector: the
/// largest component survives the scaling.
proof fn lemma_unit_not_zero(p: Vec3, l: i64, rx: int, ry: int, rz: int)
    requires
        250_000 < norm2_raw(p),
        0 < l <= 1000,
        rx == p.x * SCALE / (l as int),
        ry == p.y * SCALE / (l as int),
        rz == p.z * SCALE / (l as int),
    ensures
        !(rx == 0 && ry == 0 && rz == 0),
{
    let li = l as int;
    assert(p.x * p.x > 83_333 || p.y * p.y > 83_333 || p.z * p.z > 83_333) by (nonlinear_arith)
        requires
            p.x * p.x + p.y * p.y + p.z * p.z > 250_000,
    ;
    if p.x * p.x > 83_333 {
        lemma_scaled_component_nonzero(p.x as int, li, rx);
    } else if p.y * p.y > 83_333 {
        lemma_scaled_component_nonzero(p.y as int, li, ry);
    } else {
        lemma_scaled_component_nonzero(p.z as int, li, rz);
    }
}

/// A component whose square is large keeps a nonzero scaled value.
proof fn lemma_scaled_component_nonzero(c: int, l: int, r: int)
    requires
        c * c > 83_333,
        0 < l <= 1000,
        r == c * SCALE / l,
    ensures
        r != 0,
{
    vstd::arithmetic::div_mod::lemma_fundamental_div_mod(c * (SCALE as int), l);
    assert(r != 0) by (nonlinear_arith)
        requires
            c * c > 83_333,
            0 < l <= 1000,
            c * (SCALE as int) == l * r + (c * (SCALE as int)) % l,
            0 <= (c * (SCALE as int)) % l < l,
    ;
}

} // verus!

//! Spheres, still and moving: closed-form ray intersection on the grid.
//!
//! The quadratic `|P(t) - C|^2 = r^2` is solved exactly over the integers:
//! the discriminant uses the floor square root, the two roots are rounded
//! inward to the grid, and a candidate root counts as a hit only when it
//! lies strictly inside the search range and its point is on or inside the
//! sphere — all stated exactly in the contracts below.

use crate::fixed::div_floor;
use crate::fixed::isqrt;
use crate::fixed::mul_wide;
use crate::fixed::sqrt_floor;
use crate::fixed::COORD_LIMIT;
use crate::fixed::ORIGIN_LIMIT;
use crate::fixed::SCALE;
use crate::fixed::T_LIMIT;
use crate::hittable::HitRecord;
use crate::interval::Interval;
use crate::material::Material;
use crate::point3::Point3;
use crate::ray::Ray;
use crate::vec3::dot_raw;
use crate::vec3::norm2_raw;
use crate::vec3::Vec3;
use vstd::arithmetic::div_mod::lemma_fundamental_div_mod;
use vstd::arithmetic::div_mod::lemma_hoist_over_denominator;
use vstd::prelude::*;

verus! {

/// The leading quadratic coefficient: the raw squared length of the ray
/// direction.
pub open spec fn quad_a(ray: Ray) -> int {
    norm2_raw(ray.direction)
}

/// Half the linear coefficient: the raw dot product of the origin-to-center
/// offset with the direction.
pub open spec fn quad_h(ray: Ray, center: Point3) -> int {
    (ray.origin.0.x - center.0.x) * ray.direction.x + (ray.origin.0.y - center.0.y)
        * ray.direction.y + (ray.origin.0.z - center.0.z) * ray.direction.z
}

/// The constant coefficient: the raw squared distance from origin to center
/// less the squared radius.
pub open spec fn quad_c(ray: Ray, center: Point3, radius: int) -> int {
    (ray.origin.0.x - center.0.x) * (ray.origin.0.x - center.0.x) + (ray.origin.0.y - center.0.y)
        * (ray.origin.0.y - center.0.y) + (ray.origin.0.z - center.0.z) * (ray.origin.0.z
        - center.0.z) - radius * radius
}

/// The discriminant of the intersection quadratic.
pub open spec fn quad_disc(ray: Ray, center: Point3, radius: int) -> int {
    quad_h(ray, center) * quad_h(ray, center) - quad_a(ray) * quad_c(ray, center, radius)
}

/// The scaled offset from the sphere center to the exact ray point at the
/// grid parameter `t`, along one axis: `SCALE * (o - c) + t * d` carries
/// two factors of the scale.
pub open spec fn ball_off(o: int, c: int, d: int, t: int) -> int {
    SCALE * (o - c) + t * d
}

/// Whether the exact ray point at the grid parameter `t` lies on or inside
/// the sphere: the sum of squared scaled offsets is at most the scaled
/// squared radius.
pub open spec fn in_ball(ray: Ray, center: Point3, radius: int, t: int) -> bool {
    let ux = ball_off(ray.origin.0.x as int, center.0.x as int, ray.direction.x as int, t);
    let uy = ball_off(ray.origin.0.y as int, center.0.y as int, ray.direction.y as int, t);
    let uz = ball_off(ray.origin.0.z as int, center.0.z as int, ray.direction.z as int, t);
    ux * ux + uy * uy + uz * uz <= (SCALE * radius) * (SCALE * radius)
}

/// Whether the exact ray point at `t` lies strictly inside the sphere.
pub open spec fn strictly_in_ball(ray: Ray, center: Point3, radius: int, t: int) -> bool {
    let ux = ball_off(ray.origin.0.x as int, center.0.x as int, ray.direction.x as int, t);
    let uy = ball_off(ray.origin.0.y as int, center.0.y as int, ray.direction.y as int, t);
    let uz = ball_off(ray.origin.0.z as int, center.0.z as int, ray.direction.z as int, t);
    ux * ux + uy * uy + uz * uz < (SCALE * radius) * (SCALE * radius)
}

/// The smaller root of the quadratic, rounded up to the grid.
pub open spec fn root_near(ray: Ray, center: Point3, radius: int) -> int {
    let s = sqrt_floor(quad_disc(ray, center, radius) as nat) as int;
    -((quad_h(ray, center) + s) * SCALE / quad_a(ray))
}

/// The larger root of the quadratic, rounded down to the grid.
pub open spec fn root_far(ray: Ray, center: Point3, radius: int) -> int {
    let s = sqrt_floor(quad_disc(ray, center, radius) as nat) as int;
    (-quad_h(ray, center) + s) * SCALE / quad_a(ray)
}

/// Whether the grid parameter `t` is an acceptable hit: strictly inside the
/// search range, with its point on or inside the sphere.
pub open spec fn accepts(ray: Ray, center: Point3, radius: int, lo: int, hi: int, t: int) -> bool {
    lo < t < hi && in_ball(ray, center, radius, t)
}

/// The parameter a sphere intersection reports: the smaller of the two
/// rounded roots when acceptable, else the larger when acceptable, else
/// nothing — the smaller root is always preferred.
pub open spec fn sphere_hit_t(ray: Ray, center: Point3, radius: int, lo: int, hi: int) -> Option<
    int,
> {
    if quad_disc(ray, center, radius) < 0 {
        None
    } else {
        let c1 = min_i(root_near(ray, center, radius), root_far(ray, center, radius));
        let c2 = max_i(root_near(ray, center, radius), root_far(ray, center, radius));
        if accepts(ray, center, radius, lo, hi, c1) {
            Some(c1)
        } else if accepts(ray, center, radius, lo, hi, c2) {
            Some(c2)
        } else {
            None
        }
    }
}

/// The pseudo-longitude of the direction `(b, ., -a)`: a piecewise-linear
/// angle in place of the arctangent, agreeing with it at the four axis
/// directions; within `[0, 1]`.
pub open spec fn sphere_u_spec(a: int, b: int) -> int {
    if a == 0 && b == 0 {
        500
    } else if b > 0 && a >= 0 {
        500 + 250 * a / (a + b)
    } else if a > 0 && b <= 0 {
        750 + 250 * (-b) / (a - b)
    } else if b < 0 && a <= 0 {
        250 * (-a) / ((-a) + (-b))
    } else {
        250 + 250 * b / (b - a)
    }
}

/// The pseudo-latitude of a vector of length `l` and height `y`: linear in
/// the height in place of the arccosine, agreeing with it at the poles and
/// the equator; within `[0, 1]`.
pub open spec fn sphere_v_spec(l: int, y: int) -> int {
    if l == 0 {
        500
    } else {
        let q = (l + y) * SCALE / (2 * l);
        if q < 0 {
            0
        } else if q > SCALE {
            SCALE as int
        } else {
            q
        }
    }
}

/// Surface coordinates of the point of the unit sphere in the direction of
/// `p`.
pub open spec fn sphere_uv_spec(p: Vec3) -> (int, int) {
    (
        sphere_u_spec(-p.z as int, p.x as int),
        sphere_v_spec(sqrt_floor(norm2_raw(p) as nat) as int, p.y as int),
    )
}

/// The full record a sphere reports for a hit at grid parameter `t`.
pub open spec fn hit_record_spec(
    ray: Ray,
    center: Point3,
    radius: int,
    material: Material,
    t: int,
) -> HitRecord {
    let s = SCALE as int;
    let px = (ray.origin.0.x + t * ray.direction.x / s) as i64;
    let py = (ray.origin.0.y + t * ray.direction.y / s) as i64;
    let pz = (ray.origin.0.z + t * ray.direction.z / s) as i64;
    let ow = Vec3 {
        x: ((px - center.0.x) * s / radius) as i64,
        y: ((py - center.0.y) * s / radius) as i64,
        z: ((pz - center.0.z) * s / radius) as i64,
    };
    let ff = dot_raw(ray.direction, ow) < 0;
    let n = if ff {
        ow
    } else {
        Vec3 { x: (-ow.x) as i64, y: (-ow.y) as i64, z: (-ow.z) as i64 }
    };
    let uv = sphere_uv_spec(ow);
    HitRecord {
        position: Point3(Vec3 { x: px, y: py, z: pz }),
        normal: n,
        t: t as i64,
        u: uv.0 as i64,
        v: uv.1 as i64,
        front_face: ff,
        material: Some(material),
    }
}

/// A sphere fixed in space.
#[derive(Debug)]
pub struct Sphere {
    pub center: Point3,
    pub radius: i64,
    /// The square of the radius in raw units, precomputed.
    pub radius_squared: i64,
    pub material: Material,
}

impl Sphere {
    /// Center within bounds, radius positive and within bounds, square
    /// consistent, material well formed.
    pub open spec fn wf(self) -> bool {
        &&& self.center.0.wf()
        &&& 1 <= self.radius <= COORD_LIMIT
        &&& self.radius_squared == self.radius * self.radius
        &&& self.material.wf()
    }

    /// A sphere with the given center, radius and material; a negative
    /// radius is clamped to zero.
    pub fn new(center: Point3, radius: i64, material: Material) -> (r: Sphere)
        requires
            -COORD_LIMIT <= radius <= COORD_LIMIT,
        ensures
            r.center == center,
            r.radius == if radius < 0 {
                0
            } else {
                radius
            },
            r.radius_squared == r.radius * r.radius,
            r.material == material,
    {
        let clamped: i64 = if radius < 0 {
            0
        } else {
            radius
        };
        proof {
            assert(0 <= clamped * clamped <= 4_000_000_000_000) by (nonlinear_arith)
                requires
                    0 <= clamped as int <= 2_000_000,
            ;
        }
        Sphere { center, radius: clamped, radius_squared: clamped * clamped, material }
    }

    /// The closest acceptable intersection of the ray with this sphere
    /// within the range, if any.
    pub fn hit(&self, ray: &Ray, ray_t: Interval) -> (r: Option<HitRecord>)
        requires
            self.wf(),
            ray.wf(),
            !ray.direction.is_zero(),
            -T_LIMIT <= ray_t.min <= T_LIMIT,
            -T_LIMIT <= ray_t.max <= T_LIMIT,
        ensures
            r == match sphere_hit_t(
                *ray,
                self.center,
                self.radius as int,
                ray_t.min as int,
                ray_t.max as int,
            ) {
                Some(t) => Some(
                    hit_record_spec(*ray, self.center, self.radius as int, self.material, t),
                ),
                None => None::<HitRecord>,
            },
            r matches Some(rec) ==> rec.wf() && rec.material == Some(self.material) && ray_t.min
                < rec.t < ray_t.max && sphere_hit_t(
                *ray,
                self.center,
                self.radius as int,
                ray_t.min as int,
                ray_t.max as int,
            ) == Some(rec.t as int),
    {
        hit_at_center(ray, self.center, self.radius, &self.material, ray_t)
    }

    /// The box from `center - radius` to `center + radius` on each axis.
    pub fn bounding_box(&self) -> (r: crate::aabb::Aabb)
        requires
            self.wf(),
        ensures
            r.x.min == self.center.0.x - self.radius,
            r.x.max == self.center.0.x + self.radius,
            r.y.min == self.center.0.y - self.radius,
            r.y.max == self.center.0.y + self.radius,
            r.z.min == self.center.0.z - self.radius,
            r.z.max == self.center.0.z + self.radius,
    {
        crate::aabb::Aabb {
            x: Interval { min: self.center.0.x - self.radius, max: self.center.0.x + self.radius },
            y: Interval { min: self.center.0.y - self.radius, max: self.center.0.y + self.radius },
            z: Interval { min: self.center.0.z - self.radius, max: self.center.0.z + self.radius },
        }
    }
}

impl Clone for Sphere {
    /// An exact copy.
    fn clone(&self) -> (r: Sphere)
        ensures
            r == *self,
    {
        Sphere {
            center: self.center,
            radius: self.radius,
            radius_squared: self.radius_squared,
            material: self.material.clone(),
        }
    }
}

/// A sphere whose center moves linearly between two points over a time
/// window.
#[derive(Debug)]
pub struct MovingSphere {
    pub center: (Point3, Point3),
    pub time: (i64, i64),
    pub radius: i64,
    /// The square of the radius in raw units, precomputed.
    pub radius_squared: i64,
    pub material: Material,
}

/// The interpolated center at the given time, each coordinate rounded
/// toward minus infinity.
pub open spec fn center_at_spec(c0: Point3, c1: Point3, t0: int, t1: int, time: int) -> Point3 {
    Point3(
        Vec3 {
            x: (c0.0.x + (c1.0.x - c0.0.x) * (time - t0) / (t1 - t0)) as i64,
            y: (c0.0.y + (c1.0.y - c0.0.y) * (time - t0) / (t1 - t0)) as i64,
            z: (c0.0.z + (c1.0.z - c0.0.z) * (time - t0) / (t1 - t0)) as i64,
        },
    )
}

impl MovingSphere {
    /// Both centers within bounds, a proper time window, radius positive
    /// and within bounds, square consistent, material well formed.
    pub open spec fn wf(self) -> bool {
        &&& self.center.0.0.wf()
        &&& self.center.1.0.wf()
        &&& crate::fixed::in_coord(self.time.0 as int)
        &&& crate::fixed::in_coord(self.time.1 as int)
        &&& self.time.0 < self.time.1
        &&& 1 <= self.radius <= COORD_LIMIT
        &&& self.radius_squared == self.radius * self.radius
        &&& self.material.wf()
    }

    /// A moving sphere; a negative radius is clamped to zero.
    pub fn new(center: (Point3, Point3), time: (i64, i64), radius: i64, material: Material) -> (r:
        MovingSphere)
        requires
            -COORD_LIMIT <= radius <= COORD_LIMIT,
        ensures
            r.center == center,
            r.time == time,
            r.radius == if radius < 0 {
                0
            } else {
                radius
            },
            r.radius_squared == r.radius * r.radius,
            r.material == material,
    {
        let clamped: i64 = if radius < 0 {
            0
        } else {
            radius
        };
        proof {
            assert(0 <= clamped * clamped <= 4_000_000_000_000) by (nonlinear_arith)
                requires
                    0 <= clamped as int <= 2_000_000,
            ;
        }
        MovingSphere { center, time, radius: clamped, radius_squared: clamped * clamped, material }
    }

    /// The center at the given time, by linear interpolation between the
    /// two keyframe centers; each coordinate stays between them.
    pub fn center_at(&self, time: i64) -> (r: Point3)
        requires
            self.wf(),
            self.time.0 <= time <= self.time.1,
        ensures
            r == center_at_spec(
                self.center.0,
                self.center.1,
                self.time.0 as int,
                self.time.1 as int,
                time as int,
            ),
            r.0.wf(),
            min_i(self.center.0.0.x as int, self.center.1.0.x as int) <= r.0.x <= max_i(
                self.center.0.0.x as int,
                self.center.1.0.x as int,
            ),
            min_i(self.center.0.0.y as int, self.center.1.0.y as int) <= r.0.y <= max_i(
                self.center.0.0.y as int,
                self.center.1.0.y as int,
            ),
            min_i(self.center.0.0.z as int, self.center.1.0.z as int) <= r.0.z <= max_i(
                self.center.0.0.z as int,
                self.center.1.0.z as int,
            ),
    {
        let dt = self.time.1 - self.time.0;
        let tau = time - self.time.0;
        let x = lerp_component(self.center.0.0.x, self.center.1.0.x, tau, dt);
        let y = lerp_component(self.center.0.0.y, self.center.1.0.y, tau, dt);
        let z = lerp_component(self.center.0.0.z, self.center.1.0.z, tau, dt);
        Point3(Vec3 { x, y, z })
    }

    /// The closest acceptable intersection with the sphere at its position
    /// at the ray's time.
    pub fn hit(&self, ray: &Ray, ray_t: Interval) -> (r: Option<HitRecord>)
        requires
            self.wf(),
            ray.wf(),
            !ray.direction.is_zero(),
            self.time.0 <= ray.time <= self.time.1,
            -T_LIMIT <= ray_t.min <= T_LIMIT,
            -T_LIMIT <= ray_t.max <= T_LIMIT,
        ensures
            ({
                let c = center_at_spec(
                    self.center.0,
                    self.center.1,
                    self.time.0 as int,
                    self.time.1 as int,
                    ray.time as int,
                );
                r == match sphere_hit_t(
                    *ray,
                    c,
                    self.radius as int,
                    ray_t.min as int,
                    ray_t.max as int,
                ) {
                    Some(t) => Some(hit_record_spec(*ray, c, self.radius as int, self.material, t)),
                    None => None::<HitRecord>,
                }
            }),
            r matches Some(rec) ==> rec.wf() && rec.material == Some(self.material) && ray_t.min
                < rec.t < ray_t.max,
    {
        let current_center = self.center_at(ray.time);
        hit_at_center(ray, current_center, self.radius, &self.material, ray_t)
    }

    /// The union of the boxes around the two keyframe positions.
    pub fn bounding_box(&self) -> (r: crate::aabb::Aabb)
        requires
            self.wf(),
        ensures
            r.x.min == min_i(self.center.0.0.x as int, self.center.1.0.x as int) - self.radius,
            r.x.max == max_i(self.center.0.0.x as int, self.center.1.0.x as int) + self.radius,
            r.y.min == min_i(self.center.0.0.y as int, self.center.1.0.y as int) - self.radius,
            r.y.max == max_i(self.center.0.0.y as int, self.center.1.0.y as int) + self.radius,
            r.z.min == min_i(self.center.0.0.z as int, self.center.1.0.z as int) - self.radius,
            r.z.max == max_i(self.center.0.0.z as int, self.center.1.0.z as int) + self.radius,
    {
        let c0 = self.center.0;
        let c1 = self.center.1;
        let xmin: i64 = if c0.0.x < c1.0.x {
            c0.0.x
        } else {
            c1.0.x
        };
        let xmax: i64 = if c0.0.x < c1.0.x {
            c1.0.x
        } else {
            c0.0.x
        };
        let ymin: i64 = if c0.0.y < c1.0.y {
            c0.0.y
        } else {
            c1.0.y
        };
        let ymax: i64 = if c0.0.y < c1.0.y {
            c1.0.y
        } else {
            c0.0.y
        };
        let zmin: i64 = if c0.0.z < c1.0.z {
            c0.0.z
        } else {
            c1.0.z
        };
        let zmax: i64 = if c0.0.z < c1.0.z {
            c1.0.z
        } else {
            c0.0.z
        };
        crate::aabb::Aabb {
            x: Interval { min: xmin - self.radius, max: xmax + self.radius },
            y: Interval { min: ymin - self.radius, max: ymax + self.radius },
            z: Interval { min: zmin - self.radius, max: zmax + self.radius },
        }
    }
}

impl Clone for MovingSphere {
    /// An exact copy.
    fn clone(&self) -> (r: MovingSphere)
        ensures
            r == *self,
    {
        MovingSphere {
            center: self.center,
            time: self.time,
            radius: self.radius,
            radius_squared: self.radius_squared,
            material: self.material.clone(),
        }
    }
}

/// The smaller of two mathematical integers.
pub open spec fn min_i(a: int, b: int) -> int {
    if a < b {
        a
    } else {
        b
    }
}

/// The larger of two mathematical integers.
pub open spec fn max_i(a: int, b: int) -> int {
    if a < b {
        b
    } else {
        a
    }
}

/// One coordinate of the interpolation `c0 + (c1 - c0) * tau / dt`, bounded
/// between the endpoints when `0 <= tau <= dt`.
fn lerp_component(c0: i64, c1: i64, tau: i64, dt: i64) -> (r: i64)
    requires
        -COORD_LIMIT <= c0 <= COORD_LIMIT,
        -COORD_LIMIT <= c1 <= COORD_LIMIT,
        0 < dt <= 2 * COORD_LIMIT,
        0 <= tau <= dt,
    ensures
        r == c0 + (c1 - c0) * (tau as int) / (dt as int),
        min_i(c0 as int, c1 as int) <= r <= max_i(c0 as int, c1 as int),
{
    let delta = c1 - c0;
    let q = div_floor(mul_wide(delta, tau), dt as i128);
    proof {
        let d = delta as int;
        let taui = tau as int;
        let dti = dt as int;
        let qi = q as int;
        if d >= 0 {
            assert(0 <= d * taui <= d * dti) by (nonlinear_arith)
                requires
                    d >= 0,
                    0 <= taui <= dti,
            ;
            crate::fixed::lemma_div_le(d * taui, dti, d);
            vstd::arithmetic::div_mod::lemma_div_pos_is_pos(d * taui, dti);
        } else {
            assert(d * dti <= d * taui <= 0) by (nonlinear_arith)
                requires
                    d < 0,
                    0 <= taui <= dti,
            ;
            crate::fixed::lemma_div_ge(d * taui, dti, d);
            lemma_fundamental_div_mod(d * taui, dti);
            assert(qi <= 0) by (nonlinear_arith)
                requires
                    d * taui <= 0,
                    dti > 0,
                    qi == d * taui / dti,
                    d * taui == dti * qi + (d * taui) % dti,
                    0 <= (d * taui) % dti < dti,
            ;
        }
    }
    c0 + q as i64
}

/// A scene object: a still sphere or a moving one.
#[derive(Debug)]
pub enum SphereType {
    Static(Sphere),
    Moving(MovingSphere),
}

impl SphereType {
    pub open spec fn wf(self) -> bool {
        match self {
            SphereType::Static(s) => s.wf(),
            SphereType::Moving(m) => m.wf(),
        }
    }

    /// The center the object presents to a ray cast at the given time.
    pub open spec fn center_spec(self, time: int) -> Point3 {
        match self {
            SphereType::Static(s) => s.center,
            SphereType::Moving(m) => center_at_spec(
                m.center.0,
                m.center.1,
                m.time.0 as int,
                m.time.1 as int,
                time,
            ),
        }
    }

    pub open spec fn radius_spec(self) -> int {
        match self {
            SphereType::Static(s) => s.radius as int,
            SphereType::Moving(m) => m.radius as int,
        }
    }

    pub open spec fn material_spec(self) -> Material {
        match self {
            SphereType::Static(s) => s.material,
            SphereType::Moving(m) => m.material,
        }
    }

    /// Whether the ray's time lies within the object's time window (always
    /// true of a still sphere).
    pub open spec fn time_ok(self, time: int) -> bool {
        match self {
            SphereType::Static(_) => true,
            SphereType::Moving(m) => m.time.0 <= time <= m.time.1,
        }
    }

    /// The parameter this object reports for the ray over the range.
    pub open spec fn hit_t(self, ray: Ray, lo: int, hi: int) -> Option<int> {
        sphere_hit_t(ray, self.center_spec(ray.time as int), self.radius_spec(), lo, hi)
    }

    /// The record this object reports for a hit at `t`.
    pub open spec fn record_spec(self, ray: Ray, t: int) -> HitRecord {
        hit_record_spec(
            ray,
            self.center_spec(ray.time as int),
            self.radius_spec(),
            self.material_spec(),
            t,
        )
    }

    /// The closest acceptable intersection of the ray with this object.
    pub fn hit(&self, ray: &Ray, ray_t: Interval) -> (r: Option<HitRecord>)
        requires
            self.wf(),
            ray.wf(),
            !ray.direction.is_zero(),
            self.time_ok(ray.time as int),
            -T_LIMIT <= ray_t.min <= T_LIMIT,
            -T_LIMIT <= ray_t.max <= T_LIMIT,
        ensures
            r == match self.hit_t(*ray, ray_t.min as int, ray_t.max as int) {
                Some(t) => Some(self.record_spec(*ray, t)),
                None => None::<HitRecord>,
            },
            r matches Some(rec) ==> rec.wf() && rec.material == Some(self.material_spec())
                && ray_t.min < rec.t < ray_t.max && self.hit_t(
                *ray,
                ray_t.min as int,
                ray_t.max as int,
            ) == Some(rec.t as int),
    {
        match self {
            SphereType::Static(sphere) => sphere.hit(ray, ray_t),
            SphereType::Moving(sphere) => sphere.hit(ray, ray_t),
        }
    }

    /// The exact box of the object over its whole time window.
    pub open spec fn box_spec(self) -> crate::aabb::Aabb {
        match self {
            SphereType::Static(s) => crate::aabb::Aabb {
                x: Interval {
                    min: (s.center.0.x - s.radius) as i64,
                    max: (s.center.0.x + s.radius) as i64,
                },
                y: Interval {
                    min: (s.center.0.y - s.radius) as i64,
                    max: (s.center.0.y + s.radius) as i64,
                },
                z: Interval {
                    min: (s.center.0.z - s.radius) as i64,
                    max: (s.center.0.z + s.radius) as i64,
                },
            },
            SphereType::Moving(m) => crate::aabb::Aabb {
                x: Interval {
                    min: (min_i(m.center.0.0.x as int, m.center.1.0.x as int) - m.radius) as i64,
                    max: (max_i(m.center.0.0.x as int, m.center.1.0.x as int) + m.radius) as i64,
                },
                y: Interval {
                    min: (min_i(m.center.0.0.y as int, m.center.1.0.y as int) - m.radius) as i64,
                    max: (max_i(m.center.0.0.y as int, m.center.1.0.y as int) + m.radius) as i64,
                },
                z: Interval {
                    min: (min_i(m.center.0.0.z as int, m.center.1.0.z as int) - m.radius) as i64,
                    max: (max_i(m.center.0.0.z as int, m.center.1.0.z as int) + m.radius) as i64,
                },
            },
        }
    }

    /// The lower bound of the object's box along one axis: the sort key of
    /// tree construction.
    pub open spec fn box_min_key(self, axis: int) -> int {
        if axis == 0 {
            self.box_spec().x.min as int
        } else if axis == 1 {
            self.box_spec().y.min as int
        } else {
            self.box_spec().z.min as int
        }
    }

    /// The upper bound of the object's box along one axis.
    pub open spec fn box_max_key(self, axis: int) -> int {
        if axis == 0 {
            self.box_spec().x.max as int
        } else if axis == 1 {
            self.box_spec().y.max as int
        } else {
            self.box_spec().z.max as int
        }
    }

    /// The box of the object over its whole time window.
    pub fn bounding_box(&self) -> (r: crate::aabb::Aabb)
        requires
            self.wf(),
        ensures
            r == self.box_spec(),
            crate::aabb::box_bounds_object(r, *self),
            r.wf(),
    {
        match self {
            SphereType::Static(sphere) => sphere.bounding_box(),
            SphereType::Moving(sphere) => sphere.bounding_box(),
        }
    }
}

impl Clone for SphereType {
    /// An exact copy.
    fn clone(&self) -> (r: SphereType)
        ensures
            r == *self,
    {
        match self {
            SphereType::Static(s) => SphereType::Static(s.clone()),
            SphereType::Moving(m) => SphereType::Moving(m.clone()),
        }
    }
}

/// The shared quadratic solver: intersection with the sphere of the given
/// center and radius.
fn hit_at_center(ray: &Ray, center: Point3, radius: i64, material: &Material, ray_t: Interval) -> (r:
    Option<HitRecord>)
    requires
        ray.wf(),
        !ray.direction.is_zero(),
        center.0.wf(),
        1 <= radius <= COORD_LIMIT,
        -T_LIMIT <= ray_t.min <= T_LIMIT,
        -T_LIMIT <= ray_t.max <= T_LIMIT,
    ensures
        r == match sphere_hit_t(*ray, center, radius as int, ray_t.min as int, ray_t.max as int) {
            Some(t) => Some(hit_record_spec(*ray, center, radius as int, *material, t)),
            None => None::<HitRecord>,
        },
        r matches Some(rec) ==> rec.wf() && rec.material == Some(*material) && ray_t.min < rec.t
            < ray_t.max && sphere_hit_t(*ray, center, radius as int, ray_t.min as int, ray_t.max as int)
            == Some(rec.t as int),
{
    let ocx = ray.origin.0.x - center.0.x;
    let ocy = ray.origin.0.y - center.0.y;
    let ocz = ray.origin.0.z - center.0.z;
    let dx = ray.direction.x;
    let dy = ray.direction.y;
    let dz = ray.direction.z;
    let a = mul_wide(dx, dx) + mul_wide(dy, dy) + mul_wide(dz, dz);
    let h = mul_wide(ocx, dx) + mul_wide(ocy, dy) + mul_wide(ocz, dz);
    let c = mul_wide(ocx, ocx) + mul_wide(ocy, ocy) + mul_wide(ocz, ocz) - mul_wide(radius, radius);
    proof {
        lemma_quad_bounds(*ray, center, radius as int);
        assert(a == quad_a(*ray) && h == quad_h(*ray, center) && c == quad_c(
            *ray,
            center,
            radius as int,
        ));
        assert(a >= 1) by (nonlinear_arith)
            requires
                !(dx == 0 && dy == 0 && dz == 0),
                a as int == dx * dx + dy * dy + dz * dz,
        ;
    }
    proof {
        crate::fixed::lemma_abs_mul_bound(h as int, h as int, 60_000_000_000_000, 60_000_000_000_000);
        crate::fixed::lemma_abs_mul_bound(
            a as int,
            c as int,
            12_000_000_000_000,
            310_000_000_000_000,
        );
    }
    let disc = h * h - a * c;
    if disc < 0 {
        return None;
    }
    let su = isqrt(disc as u128);
    proof {
        assert(su <= 100_000_000_000_000) by (nonlinear_arith)
            requires
                su * su <= 8_000_000_000_000_000_000_000_000_000,
        ;
    }
    let s = su as i128;
    let t_near = -div_floor((h + s) * (SCALE as i128), a);
    let t_far = div_floor((-h + s) * (SCALE as i128), a);
    let c1: i128 = if t_near <= t_far {
        t_near
    } else {
        t_far
    };
    let c2: i128 = if t_near <= t_far {
        t_far
    } else {
        t_near
    };
    if (ray_t.min as i128) < c1 && c1 < ray_t.max as i128 && ball_accept_at(
        ray,
        center,
        radius,
        c1,
    ) {
        return Some(make_record(ray, center, radius, material, c1 as i64));
    }
    if (ray_t.min as i128) < c2 && c2 < ray_t.max as i128 && ball_accept_at(
        ray,
        center,
        radius,
        c2,
    ) {
        return Some(make_record(ray, center, radius, material, c2 as i64));
    }
    None
}

/// Bounds on the quadratic coefficients of a well-formed ray and sphere.
proof fn lemma_quad_bounds(ray: Ray, center: Point3, radius: int)
    requires
        ray.wf(),
        center.0.wf(),
        1 <= radius <= COORD_LIMIT,
    ensures
        0 <= quad_a(ray) <= 12_000_000_000_000,
        -60_000_000_000_000 <= quad_h(ray, center) <= 60_000_000_000_000,
        -310_000_000_000_000 <= quad_c(ray, center, radius) <= 310_000_000_000_000,
        -8_000_000_000_000_000_000_000_000_000 <= quad_disc(ray, center, radius)
            <= 8_000_000_000_000_000_000_000_000_000,
{
    let ox = ray.origin.0.x as int;
    let oy = ray.origin.0.y as int;
    let oz = ray.origin.0.z as int;
    let cx = center.0.x as int;
    let cy = center.0.y as int;
    let cz = center.0.z as int;
    let dx = ray.direction.x as int;
    let dy = ray.direction.y as int;
    let dz = ray.direction.z as int;
    crate::fixed::lemma_abs_mul_bound(dx, dx, 2_000_000, 2_000_000);
    crate::fixed::lemma_abs_mul_bound(dy, dy, 2_000_000, 2_000_000);
    crate::fixed::lemma_abs_mul_bound(dz, dz, 2_000_000, 2_000_000);
    crate::fixed::lemma_square_nonneg(dx);
    crate::fixed::lemma_square_nonneg(dy);
    crate::fixed::lemma_square_nonneg(dz);
    crate::fixed::lemma_abs_mul_bound(ox - cx, dx, 10_000_000, 2_000_000);
    crate::fixed::lemma_abs_mul_bound(oy - cy, dy, 10_000_000, 2_000_000);
    crate::fixed::lemma_abs_mul_bound(oz - cz, dz, 10_000_000, 2_000_000);
    crate::fixed::lemma_abs_mul_bound(ox - cx, ox - cx, 10_000_000, 10_000_000);
    crate::fixed::lemma_abs_mul_bound(oy - cy, oy - cy, 10_000_000, 10_000_000);
    crate::fixed::lemma_abs_mul_bound(oz - cz, oz - cz, 10_000_000, 10_000_000);
    crate::fixed::lemma_abs_mul_bound(radius, radius, 2_000_000, 2_000_000);
    crate::fixed::lemma_abs_mul_bound(
        quad_h(ray, center),
        quad_h(ray, center),
        60_000_000_000_000,
        60_000_000_000_000,
    );
    crate::fixed::lemma_abs_mul_bound(
        quad_a(ray),
        quad_c(ray, center, radius),
        12_000_000_000_000,
        310_000_000_000_000,
    );
}

/// Whether the point of the ray at the grid parameter `t` lies on or inside
/// the sphere, decided exactly.
fn ball_accept_at(ray: &Ray, center: Point3, radius: i64, t: i128) -> (r: bool)
    requires
        ray.wf(),
        center.0.wf(),
        1 <= radius <= COORD_LIMIT,
        -T_LIMIT <= t <= T_LIMIT,
    ensures
        r == in_ball(*ray, center, radius as int, t as int),
{
    let ux = ball_off_at(ray.origin.0.x, center.0.x, ray.direction.x, t);
    let uy = ball_off_at(ray.origin.0.y, center.0.y, ray.direction.y, t);
    let uz = ball_off_at(ray.origin.0.z, center.0.z, ray.direction.z, t);
    proof {
        crate::fixed::lemma_abs_mul_bound(
            ux as int,
            ux as int,
            3_000_000_000_000_000_000,
            3_000_000_000_000_000_000,
        );
        crate::fixed::lemma_abs_mul_bound(
            uy as int,
            uy as int,
            3_000_000_000_000_000_000,
            3_000_000_000_000_000_000,
        );
        crate::fixed::lemma_abs_mul_bound(
            uz as int,
            uz as int,
            3_000_000_000_000_000_000,
            3_000_000_000_000_000_000,
        );
        crate::fixed::lemma_abs_mul_bound(SCALE as int, radius as int, 1000, 2_000_000);
    }
    let m = (SCALE as i128) * (radius as i128);
    proof {
        crate::fixed::lemma_abs_mul_bound(m as int, m as int, 2_000_000_000, 2_000_000_000);
    }
    ux * ux + uy * uy + uz * uz <= m * m
}

/// One scaled axis offset of the ray point at `t` from the center.
fn ball_off_at(o: i64, c: i64, d: i64, t: i128) -> (r: i128)
    requires
        -8_000_000 <= o <= 8_000_000,
        -2_000_000 <= c <= 2_000_000,
        -2_000_000 <= d <= 2_000_000,
        -T_LIMIT <= t <= T_LIMIT,
    ensures
        r == ball_off(o as int, c as int, d as int, t as int),
        -3_000_000_000_000_000_000 <= r <= 3_000_000_000_000_000_000,
{
    proof {
        crate::fixed::lemma_abs_mul_bound(t as int, d as int, 1_000_000_000_000, 2_000_000);
    }
    (SCALE as i128) * ((o - c) as i128) + t * (d as i128)
}

/// Builds the hit record for an accepted parameter.
fn make_record(ray: &Ray, center: Point3, radius: i64, material: &Material, t: i64) -> (r:
    HitRecord)
    requires
        ray.wf(),
        center.0.wf(),
        1 <= radius <= COORD_LIMIT,
        -T_LIMIT <= t <= T_LIMIT,
        in_ball(*ray, center, radius as int, t as int),
    ensures
        r == hit_record_spec(*ray, center, radius as int, *material, t as int),
        r.wf(),
        r.material == Some(*material),
{
    proof {
        lemma_hit_point_in_ball(*ray, center, radius as int, t as int);
    }
    let position = ray.at(t);
    let pcx = position.0.x - center.0.x;
    let pcy = position.0.y - center.0.y;
    let pcz = position.0.z - center.0.z;
    let owx = div_floor(mul_wide(pcx, SCALE), radius as i128) as i64;
    let owy = div_floor(mul_wide(pcy, SCALE), radius as i128) as i64;
    let owz = div_floor(mul_wide(pcz, SCALE), radius as i128) as i64;
    proof {
        lemma_normal_component(pcx as int, radius as int);
        lemma_normal_component(pcy as int, radius as int);
        lemma_normal_component(pcz as int, radius as int);
    }
    let ow = Vec3 { x: owx, y: owy, z: owz };
    let d = ray.direction.dot_wide(&ow);
    let front_face = d < 0;
    let normal: Vec3 = if front_face {
        ow
    } else {
        Vec3 { x: -ow.x, y: -ow.y, z: -ow.z }
    };
    let uv = get_sphere_uv(ow);
    HitRecord {
        position,
        normal,
        t,
        u: uv.0,
        v: uv.1,
        front_face,
        material: Some(material.clone()),
    }
}

/// A point on or inside the sphere stays within the sphere's box: each
/// rounded coordinate lies within radius of the center, and the exact
/// (unrounded) coordinate is strictly inside whenever the point is strictly
/// inside the ball.
pub proof fn lemma_hit_point_in_ball(ray: Ray, center: Point3, radius: int, t: int)
    requires
        ray.wf(),
        center.0.wf(),
        1 <= radius <= COORD_LIMIT,
        -T_LIMIT <= t <= T_LIMIT,
        in_ball(ray, center, radius, t),
    ensures
        center.0.x - radius <= ray.origin.0.x + t * ray.direction.x / (SCALE as int)
            <= center.0.x + radius,
        center.0.y - radius <= ray.origin.0.y + t * ray.direction.y / (SCALE as int)
            <= center.0.y + radius,
        center.0.z - radius <= ray.origin.0.z + t * ray.direction.z / (SCALE as int)
            <= center.0.z + radius,
        strictly_in_ball(ray, center, radius, t) ==> {
            &&& SCALE * (center.0.x - radius) < SCALE * ray.origin.0.x + t * ray.direction.x
                < SCALE * (center.0.x + radius)
            &&& SCALE * (center.0.y - radius) < SCALE * ray.origin.0.y + t * ray.direction.y
                < SCALE * (center.0.y + radius)
            &&& SCALE * (center.0.z - radius) < SCALE * ray.origin.0.z + t * ray.direction.z
                < SCALE * (center.0.z + radius)
        },
{
    let s = SCALE as int;
    let ox = ray.origin.0.x as int;
    let oy = ray.origin.0.y as int;
    let oz = ray.origin.0.z as int;
    let cx = center.0.x as int;
    let cy = center.0.y as int;
    let cz = center.0.z as int;
    let dx = ray.direction.x as int;
    let dy = ray.direction.y as int;
    let dz = ray.direction.z as int;
    let ux = ball_off(ox, cx, dx, t);
    let uy = ball_off(oy, cy, dy, t);
    let uz = ball_off(oz, cz, dz, t);
    let m = s * radius;
    assert(m * m == (s * radius) * (s * radius));
    crate::fixed::lemma_square_nonneg(ux);
    crate::fixed::lemma_square_nonneg(uy);
    crate::fixed::lemma_square_nonneg(uz);
    crate::fixed::lemma_square_le(ux, m);
    crate::fixed::lemma_square_le(uy, m);
    crate::fixed::lemma_square_le(uz, m);
    if strictly_in_ball(ray, center, radius, t) {
        crate::fixed::lemma_square_lt(ux, m);
        crate::fixed::lemma_square_lt(uy, m);
        crate::fixed::lemma_square_lt(uz, m);
        assert(s * (cx - radius) == s * cx - m && s * (cx + radius) == s * cx + m && s * (cy
            - radius) == s * cy - m && s * (cy + radius) == s * cy + m && s * (cz - radius) == s
            * cz - m && s * (cz + radius) == s * cz + m) by (nonlinear_arith)
            requires
                m == s * radius,
        ;
    }
    lemma_axis_floor_bound(ox, cx, dx, t, radius, ux);
    lemma_axis_floor_bound(oy, cy, dy, t, radius, uy);
    lemma_axis_floor_bound(oz, cz, dz, t, radius, uz);
}

/// From the raw bound `|s*(o - c) + t*d| <= s*r` to bounds on the rounded
/// coordinate `o + (t*d)/s`.
proof fn lemma_axis_floor_bound(o: int, c: int, d: int, t: int, radius: int, u: int)
    requires
        u == (SCALE as int) * (o - c) + t * d,
        -(SCALE as int) * radius <= u <= (SCALE as int) * radius,
        radius >= 1,
    ensures
        c - radius <= o + t * d / (SCALE as int) <= c + radius,
{
    let s = SCALE as int;
    lemma_hoist_over_denominator(u, c - o, SCALE as nat);
    assert(u + (c - o) * s == t * d) by (nonlinear_arith)
        requires
            u == s * (o - c) + t * d,
            s == 1000,
    ;
    assert(t * d / s == u / s + (c - o));
    crate::fixed::lemma_div_scaled_bound(u, radius);
}

/// The scaled normal component `(p - c) * SCALE / r` stays within one unit.
proof fn lemma_normal_component(pc: int, radius: int)
    requires
        -radius <= pc <= radius,
        1 <= radius <= COORD_LIMIT,
    ensures
        -SCALE <= pc * SCALE / (radius as int) <= SCALE,
{
    assert(-radius * (SCALE as int) <= pc * (SCALE as int) <= radius * (SCALE as int))
        by (nonlinear_arith)
        requires
            -radius <= pc <= radius,
            radius >= 1,
            SCALE == 1000,
    ;
    if pc >= 0 {
        crate::fixed::lemma_div_le(pc * (SCALE as int), radius, SCALE as int);
        vstd::arithmetic::div_mod::lemma_div_pos_is_pos(pc * (SCALE as int), radius);
    } else {
        crate::fixed::lemma_div_ge(pc * (SCALE as int), radius, -(SCALE as int));
        lemma_fundamental_div_mod(pc * (SCALE as int), radius);
        assert(pc * (SCALE as int) / radius <= 0) by (nonlinear_arith)
            requires
                pc * (SCALE as int) < 0,
                radius > 0,
                pc * (SCALE as int) == radius * (pc * (SCALE as int) / radius) + (pc * (
                SCALE as int)) % radius,
                0 <= (pc * (SCALE as int)) % radius < radius,
        ;
    }
}

/// Surface coordinates for the direction `point` from the sphere's center:
/// a piecewise-linear longitude and latitude, each within `[0, 1]`, exact
/// at the six axis directions.
pub fn get_sphere_uv(point: Vec3) -> (uv: (i64, i64))
    requires
        -100_000 <= point.x <= 100_000,
        -100_000 <= point.y <= 100_000,
        -100_000 <= point.z <= 100_000,
    ensures
        uv.0 == sphere_uv_spec(point).0,
        uv.1 == sphere_uv_spec(point).1,
        0 <= uv.0 <= SCALE,
        0 <= uv.1 <= SCALE,
{
    let a = -point.z;
    let b = point.x;
    let u: i64 = if a == 0 && b == 0 {
        500
    } else if b > 0 && a >= 0 {
        let q = div_floor(250 * (a as i128), (a + b) as i128) as i64;
        proof {
            lemma_uv_quarter(a as int, (a + b) as int);
        }
        500 + q
    } else if a > 0 && b <= 0 {
        let q = div_floor(250 * ((-b) as i128), (a - b) as i128) as i64;
        proof {
            lemma_uv_quarter((-b) as int, (a - b) as int);
        }
        750 + q
    } else if b < 0 && a <= 0 {
        let q = div_floor(250 * ((-a) as i128), ((-a) + (-b)) as i128) as i64;
        proof {
            lemma_uv_quarter((-a) as int, ((-a) + (-b)) as int);
        }
        q
    } else {
        let q = div_floor(250 * (b as i128), (b - a) as i128) as i64;
        proof {
            lemma_uv_quarter(b as int, (b - a) as int);
        }
        250 + q
    };
    let n2 = mul_wide(point.x, point.x) + mul_wide(point.y, point.y) + mul_wide(point.z, point.z);
    proof {
        crate::vec3::lemma_norm2_nonneg(point);
        crate::fixed::lemma_abs_mul_bound(point.x as int, point.x as int, 100_000, 100_000);
        crate::fixed::lemma_abs_mul_bound(point.y as int, point.y as int, 100_000, 100_000);
        crate::fixed::lemma_abs_mul_bound(point.z as int, point.z as int, 100_000, 100_000);
    }
    let lu = isqrt(n2 as u128);
    proof {
        assert(lu <= 200_000) by (nonlinear_arith)
            requires
                lu * lu <= 30_000_000_000,
        ;
    }
    let l = lu as i64;
    let v: i64 = if l == 0 {
        500
    } else {
        let q = div_floor(mul_wide(l + point.y, SCALE), (2 * l) as i128) as i64;
        if q < 0 {
            0
        } else if q > SCALE {
            SCALE
        } else {
            q
        }
    };
    (u, v)
}

/// A quarter-turn pseudo-angle `250 * num / den` lies within `[0, 250]`
/// when `0 <= num <= den`.
proof fn lemma_uv_quarter(num: int, den: int)
    requires
        0 <= num <= den,
        0 < den,
    ensures
        0 <= 250 * num / den <= 250,
{
    assert(0 <= 250 * num <= 250 * den) by (nonlinear_arith)
        requires
            0 <= num <= den,
    ;
    crate::fixed::lemma_div_le(250 * num, den, 250);
    vstd::arithmetic::div_mod::lemma_div_pos_is_pos(250 * num, den);
}



/// A ray of exactly unit direction cast down the line through the center
/// from (scaled) distance `k` outside the sphere meets it at parameter
/// `k - radius`; with the near crossing excluded from the range, at
/// `k + radius`.
pub proof fn lemma_sphere_round_trip(
    ray: Ray,
    center: Point3,
    radius: int,
    k: int,
    lo: int,
    hi: int,
)
    requires
        ray.wf(),
        center.0.wf(),
        1 <= radius <= COORD_LIMIT,
        quad_a(ray) == SCALE * SCALE,
        SCALE * (center.0.x - ray.origin.0.x) == k * ray.direction.x,
        SCALE * (center.0.y - ray.origin.0.y) == k * ray.direction.y,
        SCALE * (center.0.z - ray.origin.0.z) == k * ray.direction.z,
        radius <= k,
    ensures
        lo < k - radius < hi ==> sphere_hit_t(ray, center, radius, lo, hi) == Some(k - radius),
        !(lo < k - radius) && lo < k + radius < hi ==> sphere_hit_t(ray, center, radius, lo, hi)
            == Some(k + radius),
{
    let s = SCALE as int;
    let ox = ray.origin.0.x as int;
    let oy = ray.origin.0.y as int;
    let oz = ray.origin.0.z as int;
    let cx = center.0.x as int;
    let cy = center.0.y as int;
    let cz = center.0.z as int;
    let dx = ray.direction.x as int;
    let dy = ray.direction.y as int;
    let dz = ray.direction.z as int;
    let aa = quad_a(ray);
    let hh = quad_h(ray, center);
    let cc = quad_c(ray, center, radius);
    assert(s * ((ox - cx) * dx) == -(k * (dx * dx))) by (nonlinear_arith)
        requires
            s * (cx - ox) == k * dx,
    ;
    assert(s * ((oy - cy) * dy) == -(k * (dy * dy))) by (nonlinear_arith)
        requires
            s * (cy - oy) == k * dy,
    ;
    assert(s * ((oz - cz) * dz) == -(k * (dz * dz))) by (nonlinear_arith)
        requires
            s * (cz - oz) == k * dz,
    ;
    assert(s * hh == s * ((ox - cx) * dx) + s * ((oy - cy) * dy) + s * ((oz - cz) * dz))
        by (nonlinear_arith)
        requires
            hh == (ox - cx) * dx + (oy - cy) * dy + (oz - cz) * dz,
    ;
    assert(k * (dx * dx) + k * (dy * dy) + k * (dz * dz) == k * (dx * dx + dy * dy + dz * dz))
        by (nonlinear_arith);
    assert(s * hh == -k * (dx * dx + dy * dy + dz * dz)) by (nonlinear_arith)
        requires
            s * hh == -(k * (dx * dx)) + -(k * (dy * dy)) + -(k * (dz * dz)),
            k * (dx * dx) + k * (dy * dy) + k * (dz * dz) == k * (dx * dx + dy * dy + dz * dz),
    ;
    assert(s * hh == s * (-k * s)) by (nonlinear_arith)
        requires
            s * hh == -k * (dx * dx + dy * dy + dz * dz),
            dx * dx + dy * dy + dz * dz == s * s,
    ;
    assert(hh == -k * s);
    assert(s * s * ((ox - cx) * (ox - cx)) == k * k * (dx * dx)) by (nonlinear_arith)
        requires
            s * (cx - ox) == k * dx,
    ;
    assert(s * s * ((oy - cy) * (oy - cy)) == k * k * (dy * dy)) by (nonlinear_arith)
        requires
            s * (cy - oy) == k * dy,
    ;
    assert(s * s * ((oz - cz) * (oz - cz)) == k * k * (dz * dz)) by (nonlinear_arith)
        requires
            s * (cz - oz) == k * dz,
    ;
    assert(s * s * ((ox - cx) * (ox - cx) + (oy - cy) * (oy - cy) + (oz - cz) * (oz - cz)) == k * k
        * (s * s)) by (nonlinear_arith)
        requires
            s * s * ((ox - cx) * (ox - cx)) == k * k * (dx * dx),
            s * s * ((oy - cy) * (oy - cy)) == k * k * (dy * dy),
            s * s * ((oz - cz) * (oz - cz)) == k * k * (dz * dz),
            dx * dx + dy * dy + dz * dz == s * s,
    ;
    assert((ox - cx) * (ox - cx) + (oy - cy) * (oy - cy) + (oz - cz) * (oz - cz) == k * k)
        by (nonlinear_arith)
        requires
            s * s * ((ox - cx) * (ox - cx) + (oy - cy) * (oy - cy) + (oz - cz) * (oz - cz)) == k
                * k * (s * s),
            s == 1000,
    ;
    assert(cc == k * k - radius * radius);
    let dd = quad_disc(ray, center, radius);
    assert(dd == (s * radius) * (s * radius)) by (nonlinear_arith)
        requires
            dd == hh * hh - aa * cc,
            hh == -k * s,
            aa == s * s,
            cc == k * k - radius * radius,
    ;
    assert(0 <= (s * radius) * (s * radius) && (s * radius) * (s * radius) < (s * radius + 1) * (s
        * radius + 1) && s * radius >= 0) by (nonlinear_arith)
        requires
            s == 1000,
            radius >= 1,
    ;
    crate::fixed::lemma_sqrt_floor_unique(dd as nat, (s * radius) as nat);
    let sq = sqrt_floor(dd as nat) as int;
    assert(sq == s * radius);
    // Both roots come out exactly: the divisions cancel.
    assert((hh + sq) * SCALE == (s * s) * (radius - k) && (-hh + sq) * SCALE == (s * s) * (k
        + radius)) by (nonlinear_arith)
        requires
            hh == -k * s,
            sq == s * radius,
            s == 1000,
            SCALE == 1000,
    ;
    vstd::arithmetic::div_mod::lemma_div_multiples_vanish(radius - k, s * s);
    vstd::arithmetic::div_mod::lemma_div_multiples_vanish(k + radius, s * s);
    assert(root_near(ray, center, radius) == k - radius);
    assert(root_far(ray, center, radius) == k + radius);
    assert((-radius) * (-radius) == radius * radius) by (nonlinear_arith);
    lemma_on_axis_ball(ray, center, radius, k, k - radius, -radius);
    lemma_on_axis_ball(ray, center, radius, k, k + radius, radius);
    assert(min_i(k - radius, k + radius) == k - radius);
    assert(max_i(k - radius, k + radius) == k + radius);
}

/// On the axis through the center, the point at parameter `k + e` with
/// `|e| = radius` lies on the sphere.
proof fn lemma_on_axis_ball(ray: Ray, center: Point3, radius: int, k: int, t: int, e: int)
    requires
        t == k + e,
        e * e == radius * radius,
        quad_a(ray) == SCALE * SCALE,
        SCALE * (center.0.x - ray.origin.0.x) == k * ray.direction.x,
        SCALE * (center.0.y - ray.origin.0.y) == k * ray.direction.y,
        SCALE * (center.0.z - ray.origin.0.z) == k * ray.direction.z,
    ensures
        in_ball(ray, center, radius, t),
{
    let s = SCALE as int;
    let ox = ray.origin.0.x as int;
    let oy = ray.origin.0.y as int;
    let oz = ray.origin.0.z as int;
    let cx = center.0.x as int;
    let cy = center.0.y as int;
    let cz = center.0.z as int;
    let dx = ray.direction.x as int;
    let dy = ray.direction.y as int;
    let dz = ray.direction.z as int;
    let ux = ball_off(ox, cx, dx, t);
    let uy = ball_off(oy, cy, dy, t);
    let uz = ball_off(oz, cz, dz, t);
    assert(ux == e * dx && uy == e * dy && uz == e * dz) by (nonlinear_arith)
        requires
            ux == s * (ox - cx) + t * dx,
            uy == s * (oy - cy) + t * dy,
            uz == s * (oz - cz) + t * dz,
            s * (cx - ox) == k * dx,
            s * (cy - oy) == k * dy,
            s * (cz - oz) == k * dz,
            t == k + e,
    ;
    assert(ux * ux == (e * e) * (dx * dx) && uy * uy == (e * e) * (dy * dy) && uz * uz == (e * e)
        * (dz * dz)) by (nonlinear_arith)
        requires
            ux == e * dx,
            uy == e * dy,
            uz == e * dz,
    ;
    assert((e * e) * (dx * dx) + (e * e) * (dy * dy) + (e * e) * (dz * dz) == (e * e) * (dx * dx
        + dy * dy + dz * dz)) by (nonlinear_arith);
    assert((radius * radius) * (s * s) == (s * radius) * (s * radius)) by (nonlinear_arith);
    assert(ux * ux + uy * uy + uz * uz == (s * radius) * (s * radius)) by (nonlinear_arith)
        requires
            ux * ux + uy * uy + uz * uz == (e * e) * (dx * dx + dy * dy + dz * dz),
            e * e == radius * radius,
            dx * dx + dy * dy + dz * dz == s * s,
            (radius * radius) * (s * s) == (s * radius) * (s * radius),
    ;
    assert((SCALE * radius) * (SCALE * radius) == (s * radius) * (s * radius));
}

/// A fluent builder for still and moving spheres.
#[derive(Debug)]
pub struct SphereBuilder {
    pub center: Point3,
    pub radius: i64,
    pub material: Option<Material>,
    pub center_end: Option<Point3>,
    pub time_start: Option<i64>,
    pub time_end: Option<i64>,
}

impl SphereBuilder {
    /// A builder for a unit sphere at the origin with no material.
    pub fn new() -> (r: SphereBuilder)
        ensures
            r.center.0.is_zero(),
            r.radius == SCALE,
            r.material is None,
            r.center_end is None,
            r.time_start is None,
            r.time_end is None,
    {
        SphereBuilder {
            center: Point3(Vec3 { x: 0, y: 0, z: 0 }),
            radius: SCALE,
            material: None,
            center_end: None,
            time_start: None,
            time_end: None,
        }
    }

    /// Sets the center.
    pub fn center(self, center: Point3) -> (r: SphereBuilder)
        ensures
            r == (SphereBuilder { center, ..self }),
    {
        SphereBuilder { center, ..self }
    }

    /// Sets the radius.
    pub fn radius(self, radius: i64) -> (r: SphereBuilder)
        ensures
            r == (SphereBuilder { radius, ..self }),
    {
        SphereBuilder { radius, ..self }
    }

    /// Sets the material.
    pub fn material(self, material: Material) -> (r: SphereBuilder)
        ensures
            r == (SphereBuilder { material: Some(material), ..self }),
    {
        SphereBuilder { material: Some(material), ..self }
    }

    /// Sets the end center of a moving sphere.
    pub fn center_end(self, center: Point3) -> (r: SphereBuilder)
        ensures
            r == (SphereBuilder { center_end: Some(center), ..self }),
    {
        SphereBuilder { center_end: Some(center), ..self }
    }

    /// Sets the time window of a moving sphere.
    pub fn time_range(self, start: i64, end: i64) -> (r: SphereBuilder)
        ensures
            r == (SphereBuilder { time_start: Some(start), time_end: Some(end), ..self }),
    {
        SphereBuilder { time_start: Some(start), time_end: Some(end), ..self }
    }

    /// Builds the sphere: nothing without a material; a moving sphere when
    /// an end center and a time window were given, else a still one.
    pub fn build(self) -> (r: Option<SphereType>)
        requires
            -COORD_LIMIT <= self.radius <= COORD_LIMIT,
        ensures
            self.material is None ==> r is None,
            r matches Some(st) ==> (match st {
                SphereType::Static(s2) => s2.radius_squared == s2.radius * s2.radius && s2.radius
                    == clamp_radius(self.radius as int),
                SphereType::Moving(m2) => m2.radius_squared == m2.radius * m2.radius && m2.radius
                    == clamp_radius(self.radius as int),
            }),
            self.material matches Some(m) ==> {
                if self.center_end is Some && self.time_start is Some && self.time_end is Some {
                    r == Some(
                        SphereType::Moving(
                            MovingSphere {
                                center: (self.center, self.center_end->Some_0),
                                time: (self.time_start->Some_0, self.time_end->Some_0),
                                radius: clamp_radius(self.radius as int) as i64,
                                radius_squared: (clamp_radius(self.radius as int) * clamp_radius(
                                    self.radius as int,
                                )) as i64,
                                material: m,
                            },
                        ),
                    )
                } else {
                    r == Some(
                        SphereType::Static(
                            Sphere {
                                center: self.center,
                                radius: clamp_radius(self.radius as int) as i64,
                                radius_squared: (clamp_radius(self.radius as int) * clamp_radius(
                                    self.radius as int,
                                )) as i64,
                                material: m,
                            },
                        ),
                    )
                }
            },
    {
        let material = match self.material {
            Some(m) => m,
            None => {
                return None;
            },
        };
        if self.center_end.is_some() && self.time_start.is_some() && self.time_end.is_some() {
            let center_end = self.center_end.unwrap();
            let time_start = self.time_start.unwrap();
            let time_end = self.time_end.unwrap();
            Some(
                SphereType::Moving(
                    MovingSphere::new(
                        (self.center, center_end),
                        (time_start, time_end),
                        self.radius,
                        material,
                    ),
                ),
            )
        } else {
            Some(SphereType::Static(Sphere::new(self.center, self.radius, material)))
        }
    }
}

/// A negative radius clamped to zero.
pub open spec fn clamp_radius(radius: int) -> int {
    if radius < 0 {
        0
    } else {
        radius
    }
}
} // verus!

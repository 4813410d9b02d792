//! Rays: an origin, a direction, and the time the ray is cast.

use crate::fixed::div_floor;
use crate::fixed::in_coord;
use crate::fixed::in_origin;
use crate::fixed::mul_wide;
use crate::fixed::SCALE;
use crate::fixed::T_LIMIT;
use crate::point3::Point3;
use crate::vec3::Vec3;
use vstd::prelude::*;

verus! {

#[derive(Clone, Copy, Debug, PartialEq, Eq, Structural)]
pub struct Ray {
    pub origin: Point3,
    pub direction: Vec3,
    pub time: i64,
}

impl Ray {
    /// Origin, direction and time all within the coordinate bounds.
    pub open spec fn wf(self) -> bool {
        &&& in_origin(self.origin.0.x as int)
        &&& in_origin(self.origin.0.y as int)
        &&& in_origin(self.origin.0.z as int)
        &&& self.direction.wf()
        &&& in_coord(self.time as int)
    }

    pub fn new(origin: Point3, direction: Vec3, time: i64) -> (r: Ray)
        ensures
            r == (Ray { origin, direction, time }),
    {
        Ray { origin, direction, time }
    }

    pub fn origin(&self) -> (r: &Point3)
        ensures
            r == self.origin,
    {
        &self.origin
    }

    pub fn direction(&self) -> (r: &Vec3)
        ensures
            r == self.direction,
    {
        &self.direction
    }

    pub fn time(&self) -> (r: i64)
        ensures
            r == self.time,
    {
        self.time
    }

    /// The point reached after parameter `t`: origin plus `t` times the
    /// direction, each coordinate rounded toward minus infinity.
    pub fn at(&self, t: i64) -> (r: Point3)
        requires
            self.wf(),
            -T_LIMIT <= t <= T_LIMIT,
        ensures
            r.0.x == self.origin.0.x + t * self.direction.x / (SCALE as int),
            r.0.y == self.origin.0.y + t * self.direction.y / (SCALE as int),
            r.0.z == self.origin.0.z + t * self.direction.z / (SCALE as int),
    {
        proof {
            assert(-2_000_000_000_000_000_000 <= (t as int) * (self.direction.x as int)
                <= 2_000_000_000_000_000_000 && -2_000_000_000_000_000_000 <= (t as int)
                * (self.direction.y as int) <= 2_000_000_000_000_000_000
                && -2_000_000_000_000_000_000 <= (t as int) * (self.direction.z as int)
                <= 2_000_000_000_000_000_000) by (nonlinear_arith)
                requires
                    -1_000_000_000_000 <= t as int <= 1_000_000_000_000,
                    -2_000_000 <= self.direction.x as int <= 2_000_000,
                    -2_000_000 <= self.direction.y as int <= 2_000_000,
                    -2_000_000 <= self.direction.z as int <= 2_000_000,
            ;
        }
        let qx = div_floor(mul_wide(t, self.direction.x), SCALE as i128);
        let qy = div_floor(mul_wide(t, self.direction.y), SCALE as i128);
        let qz = div_floor(mul_wide(t, self.direction.z), SCALE as i128);
        Point3(
            Vec3 {
                x: self.origin.0.x + qx as i64,
                y: self.origin.0.y + qy as i64,
                z: self.origin.0.z + qz as i64,
            },
        )
    }
}

} // verus!

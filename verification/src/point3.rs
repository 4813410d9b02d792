//! Points in space, kept apart from displacement vectors.

use crate::vec3::Vec3;
use vstd::prelude::*;

verus! {

/// A position on the fixed-point grid.
#[derive(Clone, Copy, Debug, PartialEq, Eq, Structural)]
pub struct Point3(pub Vec3);

impl Point3 {
    pub fn new(x: i64, y: i64, z: i64) -> (r: Point3)
        ensures
            r.0 == (Vec3 { x, y, z }),
    {
        Point3(Vec3 { x, y, z })
    }

    pub fn x(&self) -> (r: i64)
        ensures
            r == self.0.x,
    {
        self.0.x
    }

    pub fn y(&self) -> (r: i64)
        ensures
            r == self.0.y,
    {
        self.0.y
    }

    pub fn z(&self) -> (r: i64)
        ensures
            r == self.0.z,
    {
        self.0.z
    }

    /// The displacement of the point from the origin.
    pub fn as_vec3(&self) -> (r: Vec3)
        ensures
            r == self.0,
    {
        self.0
    }

    /// The point displaced by a vector.
    pub fn add(&self, other: &Vec3) -> (r: Point3)
        requires
            -1_000_000_000 <= self.0.x + other.x <= 1_000_000_000,
            -1_000_000_000 <= self.0.y + other.y <= 1_000_000_000,
            -1_000_000_000 <= self.0.z + other.z <= 1_000_000_000,
        ensures
            r.0.x == self.0.x + other.x,
            r.0.y == self.0.y + other.y,
            r.0.z == self.0.z + other.z,
    {
        Point3(self.0.add(other))
    }

    /// The displacement from another point to this one.
    pub fn sub(&self, other: &Point3) -> (r: Vec3)
        requires
            -1_000_000_000 <= self.0.x - other.0.x <= 1_000_000_000,
            -1_000_000_000 <= self.0.y - other.0.y <= 1_000_000_000,
            -1_000_000_000 <= self.0.z - other.0.z <= 1_000_000_000,
        ensures
            r.x == self.0.x - other.0.x,
            r.y == self.0.y - other.0.y,
            r.z == self.0.z - other.0.z,
    {
        self.0.sub(&other.0)
    }
}

impl Default for Point3 {
    /// The origin.
    fn default() -> (r: Point3)
        ensures
            r.0.is_zero(),
    {
        Point3(Vec3 { x: 0, y: 0, z: 0 })
    }
}

} // verus!

//! Hit records: what an intersection query reports.

use crate::material::Material;
use crate::point3::Point3;
use crate::ray::Ray;
use crate::vec3::dot_raw;
use crate::vec3::Vec3;
use vstd::prelude::*;

verus! {

/// The result of a successful intersection: where the ray met the surface,
/// the surface data there, and the material to scatter with.
#[derive(Debug)]
pub struct HitRecord {
    pub position: Point3,
    pub normal: Vec3,
    pub t: i64,
    pub u: i64,
    pub v: i64,
    pub front_face: bool,
    pub material: Option<Material>,
}

impl HitRecord {
    /// Position within the coordinate bounds, normal of roughly unit
    /// length, parameter within the search bounds.
    pub open spec fn wf(self) -> bool {
        &&& crate::fixed::in_origin(self.position.0.x as int)
        &&& crate::fixed::in_origin(self.position.0.y as int)
        &&& crate::fixed::in_origin(self.position.0.z as int)
        &&& -2 * crate::fixed::SCALE <= self.normal.x <= 2 * crate::fixed::SCALE
        &&& -2 * crate::fixed::SCALE <= self.normal.y <= 2 * crate::fixed::SCALE
        &&& -2 * crate::fixed::SCALE <= self.normal.z <= 2 * crate::fixed::SCALE
        &&& -crate::fixed::T_LIMIT <= self.t <= crate::fixed::T_LIMIT
    }

    /// Orients the stored normal against the incoming ray: the outward
    /// normal is kept if the ray comes from outside (negative raw dot with
    /// the ray direction), else its negation is stored. Either way the
    /// stored normal never points along the ray.
    pub fn set_face_normal(&mut self, r: &Ray, outward_normal: &Vec3)
        requires
            r.wf(),
            outward_normal.wf(),
        ensures
            final(self).front_face == (dot_raw(r.direction, *outward_normal) < 0),
            final(self).front_face ==> final(self).normal == *outward_normal,
            !final(self).front_face ==> final(self).normal == (Vec3 {
                x: (-outward_normal.x) as i64,
                y: (-outward_normal.y) as i64,
                z: (-outward_normal.z) as i64,
            }),
            dot_raw(r.direction, final(self).normal) <= 0,
            final(self).position == old(self).position,
            final(self).t == old(self).t,
            final(self).u == old(self).u,
            final(self).v == old(self).v,
            final(self).material == old(self).material,
    {
        let d = r.direction.dot_wide(outward_normal);
        self.front_face = d < 0;
        if self.front_face {
            self.normal = *outward_normal;
        } else {
            let n = Vec3 { x: -outward_normal.x, y: -outward_normal.y, z: -outward_normal.z };
            proof {
                assert(dot_raw(r.direction, n) == -dot_raw(r.direction, *outward_normal))
                    by (nonlinear_arith)
                    requires
                        n.x == -outward_normal.x,
                        n.y == -outward_normal.y,
                        n.z == -outward_normal.z,
                ;
            }
            self.normal = n;
        }
    }
}

impl Default for HitRecord {
    /// A record with every field zeroed and no material.
    fn default() -> (r: HitRecord)
        ensures
            r.position.0.is_zero(),
            r.normal.is_zero(),
            r.t == 0,
            r.u == 0,
            r.v == 0,
            !r.front_face,
            r.material is None,
    {
        HitRecord {
            position: Point3(Vec3 { x: 0, y: 0, z: 0 }),
            normal: Vec3 { x: 0, y: 0, z: 0 },
            t: 0,
            u: 0,
            v: 0,
            front_face: false,
            material: None,
        }
    }
}

} // verus!

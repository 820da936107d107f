//! Intersection records.

use vstd::prelude::*;
use std::sync::Arc;
use crate::fx::in_coord;
use crate::material::Material;
use crate::ray::Ray;
use crate::tparam::TParam;
use crate::vec3::{dot_spec, Point3, Vec3};

verus! {

/// One intersection: the hit point, the outward geometric normal (raw, not
/// unit), the material to invoke, parametric coordinates, and the exact ray
/// parameter of the hit.
pub struct HitRecord {
    pub point: Point3,
    pub normal: Vec3,
    pub material: Arc<Material>,
    pub t: TParam,
    pub u: i64,
    pub v: i64,
}

impl HitRecord {
    pub open spec fn wf(self) -> bool {
        self.point.wf() && self.normal.wf() && !self.normal.is_zero()
            && self.t.interior() && in_coord(self.u as int) && in_coord(self.v as int)
            && (*self.material).wf()
    }

    pub fn new(
        point: Point3,
        normal: Vec3,
        material: Arc<Material>,
        t: TParam,
        u: i64,
        v: i64,
    ) -> (r: HitRecord)
        ensures
            r.point == point,
            r.normal == normal,
            r.material == material,
            r.t == t,
            r.u == u,
            r.v == v,
    {
        HitRecord { point, normal, material, t, u, v }
    }

    /// Whether the stored normal faces against the incident ray.
    pub open spec fn front_facing(self, ray: Ray) -> bool {
        dot_spec(self.normal, ray.direction) < 0
    }

    /// The stored normal oriented toward the incident side.
    pub open spec fn facing_normal_spec(self, ray: Ray) -> Vec3 {
        if self.front_facing(ray) {
            self.normal
        } else {
            Vec3 { x: -self.normal.x as i64, y: -self.normal.y as i64, z: -self.normal.z as i64 }
        }
    }

    pub fn is_front_facing(&self, ray: &Ray) -> (r: bool)
        requires
            self.wf(),
            ray.wf(),
        ensures
            r == self.front_facing(*ray),
    {
        Vec3::dot(&self.normal, &ray.direction) < 0
    }

    pub fn get_facing_normal(&self, ray: &Ray) -> (r: Vec3)
        requires
            self.wf(),
            ray.wf(),
        ensures
            r == self.facing_normal_spec(*ray),
            r.wf(),
            !r.is_zero(),
    {
        if self.is_front_facing(ray) {
            self.normal
        } else {
            self.normal.neg()
        }
    }
}

} // verus!

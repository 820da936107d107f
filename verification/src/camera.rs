//! Ray generation.
//!
//! The renderer takes any camera through this capability; how rays are
//! generated (lens models, field of view) is the camera's own affair.  A
//! verified pinhole camera over precomputed basis vectors is provided; a
//! camera derived from angles needs trigonometry, which lives with the
//! caller that computes the basis.

use vstd::prelude::*;
use crate::fx::{fx_mul_spec, in_coord, sat_c, FX_ONE};
use crate::ray::Ray;
use crate::vec3::{Point3, Vec3};

verus! {

/// A source of primary rays: `(u, v)` are lattice viewport parameters in
/// `[0, FX_ONE]`.
pub trait Camera {
    /// What this camera needs of its own state.
    spec fn cam_wf(&self) -> bool;

    fn get_ray(&self, u: i64, v: i64, rng: &mut rand::rngs::ThreadRng) -> (r: Ray)
        requires
            self.cam_wf(),
            0 <= u <= FX_ONE,
            0 <= v <= FX_ONE,
        ensures
            r.wf(),
    ;
}

/// What the pinhole camera returns: the ray from its position toward
/// `lower_left + u * horizontal + v * vertical` on the lattice, with a
/// fixed fallback direction when the target coincides with the position.
pub open spec fn pinhole_ray_spec(c: PinholeCamera, u: int, v: int) -> Ray {
    let tx = sat_c(c.lower_left.x + fx_mul_spec(c.horizontal.x as int, u)
        + fx_mul_spec(c.vertical.x as int, v));
    let ty = sat_c(c.lower_left.y + fx_mul_spec(c.horizontal.y as int, u)
        + fx_mul_spec(c.vertical.y as int, v));
    let tz = sat_c(c.lower_left.z + fx_mul_spec(c.horizontal.z as int, u)
        + fx_mul_spec(c.vertical.z as int, v));
    let dx = sat_c(tx - c.position.x);
    let dy = sat_c(ty - c.position.y);
    let dz = sat_c(tz - c.position.z);
    let direction = if dx == 0 && dy == 0 && dz == 0 {
        Vec3 { x: 0, y: 0, z: (-(FX_ONE as int)) as i64 }
    } else {
        Vec3 { x: dx as i64, y: dy as i64, z: dz as i64 }
    };
    Ray { origin: c.position, direction, time: 0 }
}

/// A pinhole camera over a precomputed viewport: the ray through viewport
/// parameters `(u, v)` from a fixed position.
pub struct PinholeCamera {
    pub position: Point3,
    pub lower_left: Point3,
    pub horizontal: Vec3,
    pub vertical: Vec3,
}

impl PinholeCamera {
    pub open spec fn wf(self) -> bool {
        self.position.wf() && self.lower_left.wf() && self.horizontal.wf()
            && self.vertical.wf()
    }

    pub fn new(position: Point3, lower_left: Point3, horizontal: Vec3, vertical: Vec3) -> (r:
        PinholeCamera)
        ensures
            r == (PinholeCamera { position, lower_left, horizontal, vertical }),
    {
        PinholeCamera { position, lower_left, horizontal, vertical }
    }
}

impl Camera for PinholeCamera {
    open spec fn cam_wf(&self) -> bool {
        self.wf()
    }

    /// The ray toward `lower_left + u * horizontal + v * vertical`, with a
    /// fixed fallback direction when the target coincides with the camera;
    /// exactly `pinhole_ray_spec`.
    fn get_ray(&self, u: i64, v: i64, rng: &mut rand::rngs::ThreadRng) -> (r: Ray)
        ensures
            r == pinhole_ray_spec(*self, u as int, v as int),
    {
        let hu = self.horizontal.scale(u);
        let vv = self.vertical.scale(v);
        let tx = crate::fx::sat_coord(
            (self.lower_left.x as i128) + (hu.x as i128) + (vv.x as i128));
        let ty = crate::fx::sat_coord(
            (self.lower_left.y as i128) + (hu.y as i128) + (vv.y as i128));
        let tz = crate::fx::sat_coord(
            (self.lower_left.z as i128) + (hu.z as i128) + (vv.z as i128));
        let dx = crate::fx::sat_coord((tx as i128) - (self.position.x as i128));
        let dy = crate::fx::sat_coord((ty as i128) - (self.position.y as i128));
        let dz = crate::fx::sat_coord((tz as i128) - (self.position.z as i128));
        let direction = if dx == 0 && dy == 0 && dz == 0 {
            Vec3 { x: 0, y: 0, z: -FX_ONE }
        } else {
            Vec3 { x: dx, y: dy, z: dz }
        };
        Ray { origin: self.position, direction, time: 0 }
    }
}

} // verus!

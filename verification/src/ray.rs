//! Rays with exact rational evaluation.
//!
//! A ray's direction is not normalized: the reported hit parameter is the
//! exact rational solution for the raw direction, so scaling the direction
//! rescales parameters consistently everywhere.

use vstd::prelude::*;
use crate::fx::{in_coord, sat_c, sat_coord, COORD_MAX};
use crate::tparam::{TParam, T_DEN_MAX, T_NUM_MAX};
use crate::vec3::{Point3, Vec3};

verus! {

/// A ray: origin, raw direction, and the shutter time it samples.
#[derive(Clone, Copy, Debug, PartialEq, Eq, Structural)]
pub struct Ray {
    pub origin: Point3,
    pub direction: Vec3,
    pub time: i64,
}

/// The numerator of the coordinate `o + t * d` over the denominator `td`.
pub open spec fn point_num(o: int, d: int, tn: int, td: int) -> int {
    o * td + tn * d
}

/// The coordinate of the rounded lattice point at parameter `tn / td`.
pub open spec fn at_coord(o: int, d: int, tn: int, td: int) -> int {
    o + (tn * d) / td
}

impl Ray {
    /// Origin and direction are coordinates and the direction is nonzero.
    pub open spec fn wf(self) -> bool {
        self.origin.wf() && self.direction.wf() && !self.direction.is_zero()
            && in_coord(self.time as int)
    }

    /// A ray at shutter time zero.
    pub fn new(origin: Point3, direction: Vec3) -> (r: Ray)
        ensures
            r == (Ray { origin, direction, time: 0 }),
    {
        Ray { origin, direction, time: 0 }
    }

    /// A ray carrying an explicit shutter time.
    pub fn with_time(origin: Point3, direction: Vec3, time: i64) -> (r: Ray)
        ensures
            r == (Ray { origin, direction, time }),
    {
        Ray { origin, direction, time }
    }

    /// The lattice point at parameter `t`, each coordinate rounded down and
    /// clamped into the coordinate range.
    pub fn at(&self, t: &TParam) -> (r: Point3)
        requires
            self.wf(),
            t.wf(),
        ensures
            r.x == sat_c(at_coord(self.origin.x as int, self.direction.x as int,
                t.num as int, t.den as int)),
            r.y == sat_c(at_coord(self.origin.y as int, self.direction.y as int,
                t.num as int, t.den as int)),
            r.z == sat_c(at_coord(self.origin.z as int, self.direction.z as int,
                t.num as int, t.den as int)),
            r.wf(),
    {
        let x = at_axis(self.origin.x, self.direction.x, t);
        let y = at_axis(self.origin.y, self.direction.y, t);
        let z = at_axis(self.origin.z, self.direction.z, t);
        Vec3 { x, y, z }
    }
}

fn at_axis(o: i64, d: i64, t: &TParam) -> (r: i64)
    requires
        in_coord(o as int),
        in_coord(d as int),
        t.wf(),
    ensures
        r == sat_c(at_coord(o as int, d as int, t.num as int, t.den as int)),
        in_coord(r as int),
{
    proof {
        crate::tparam::lemma_abs_product_bound(
            t.num as int, d as int, T_NUM_MAX as int, COORD_MAX as int);
    }
    let prod: i128 = t.num * (d as i128);
    let q = crate::fx::div_floor_i128(prod, t.den);
    sat_coord((o as i128) + q)
}

} // verus!

//! Affine placements: translation, rotation and per-axis scale.
//!
//! The forward map scales, rotates, then translates; the inverse map
//! un-translates, un-rotates (by the conjugate quaternion), then divides by
//! the scale.  The identity transform maps every point to itself exactly.

use vstd::prelude::*;
use crate::fx::{fx_div_spec, fx_mul_spec, in_coord, sat_c, COORD_MAX, FX_ONE};
use crate::quaternion::{q_norm_sq, rotate_spec, Quaternion};
use crate::ray::Ray;
use crate::tparam::TParam;
use crate::vec3::{lerp_coord, Point3, Vec3};

verus! {

/// Largest raw magnitude allowed for a scale component.
pub const SCALE_MAX: i64 = 0x10_0000;

#[derive(Clone, Copy, Debug, PartialEq, Eq, Structural)]
pub struct Transform {
    pub translation: Vec3,
    pub rotation: Quaternion,
    pub scale: Vec3,
}

/// One scaled coordinate, rounded down.
pub open spec fn scale_coord(v: int, s: int) -> int {
    sat_c(fx_mul_spec(v, s))
}

/// The forward map of a vector: scale, then rotate.
pub open spec fn fwd_vector_spec(t: Transform, v: Vec3) -> Vec3 {
    rotate_spec(t.rotation, Vec3 {
        x: scale_coord(v.x as int, t.scale.x as int) as i64,
        y: scale_coord(v.y as int, t.scale.y as int) as i64,
        z: scale_coord(v.z as int, t.scale.z as int) as i64,
    })
}

/// The forward map of a point: scale, rotate, translate.
pub open spec fn fwd_point_spec(t: Transform, p: Point3) -> Point3 {
    let v = fwd_vector_spec(t, p);
    Vec3 {
        x: sat_c(v.x + t.translation.x) as i64,
        y: sat_c(v.y + t.translation.y) as i64,
        z: sat_c(v.z + t.translation.z) as i64,
    }
}

/// The inverse map of a vector: rotate back, then divide by the scale.
pub open spec fn inv_vector_spec(t: Transform, v: Vec3) -> Vec3 {
    let w = rotate_spec(
        Quaternion { v: Vec3 { x: -t.rotation.v.x as i64, y: -t.rotation.v.y as i64,
            z: -t.rotation.v.z as i64 }, s: t.rotation.s },
        v,
    );
    Vec3 {
        x: sat_c(fx_div_spec(w.x as int, t.scale.x as int)) as i64,
        y: sat_c(fx_div_spec(w.y as int, t.scale.y as int)) as i64,
        z: sat_c(fx_div_spec(w.z as int, t.scale.z as int)) as i64,
    }
}

/// The inverse map of a point: un-translate, then the inverse vector map.
pub open spec fn inv_point_spec(t: Transform, p: Point3) -> Point3 {
    inv_vector_spec(t, Vec3 {
        x: sat_c(p.x - t.translation.x) as i64,
        y: sat_c(p.y - t.translation.y) as i64,
        z: sat_c(p.z - t.translation.z) as i64,
    })
}

/// The blended scale component: the lerp where it stays a legal nonzero
/// scale, else the nearer endpoint's component.
pub open spec fn keep_nonzero_spec(c: int, sa: int, sb: int, tn: int, td: int) -> int {
    if c != 0 && -SCALE_MAX <= c <= SCALE_MAX {
        c
    } else if tn * 2 <= td {
        sa
    } else {
        sb
    }
}

/// The componentwise blend of two transforms at the weight `tn / td`.
pub open spec fn interpolate_spec(a: Transform, b: Transform, tn: int, td: int) -> Transform {
    let translation = Vec3 {
        x: lerp_coord(a.translation.x as int, b.translation.x as int, tn, td) as i64,
        y: lerp_coord(a.translation.y as int, b.translation.y as int, tn, td) as i64,
        z: lerp_coord(a.translation.z as int, b.translation.z as int, tn, td) as i64,
    };
    let scale = Vec3 {
        x: keep_nonzero_spec(lerp_coord(a.scale.x as int, b.scale.x as int, tn, td),
            a.scale.x as int, b.scale.x as int, tn, td) as i64,
        y: keep_nonzero_spec(lerp_coord(a.scale.y as int, b.scale.y as int, tn, td),
            a.scale.y as int, b.scale.y as int, tn, td) as i64,
        z: keep_nonzero_spec(lerp_coord(a.scale.z as int, b.scale.z as int, tn, td),
            a.scale.z as int, b.scale.z as int, tn, td) as i64,
    };
    let cand = Quaternion {
        v: Vec3 {
            x: lerp_coord(a.rotation.v.x as int, b.rotation.v.x as int, tn, td) as i64,
            y: lerp_coord(a.rotation.v.y as int, b.rotation.v.y as int, tn, td) as i64,
            z: lerp_coord(a.rotation.v.z as int, b.rotation.v.z as int, tn, td) as i64,
        },
        s: lerp_coord(a.rotation.s as int, b.rotation.s as int, tn, td) as i64,
    };
    let rotation = if cand.wf() {
        cand
    } else {
        a.rotation
    };
    Transform { translation, rotation, scale }
}

impl Transform {
    pub open spec fn wf(self) -> bool {
        self.translation.wf() && self.rotation.wf() && self.scale.x != 0 && self.scale.y != 0
            && self.scale.z != 0 && -SCALE_MAX <= self.scale.x <= SCALE_MAX
            && -SCALE_MAX <= self.scale.y <= SCALE_MAX
            && -SCALE_MAX <= self.scale.z <= SCALE_MAX
    }

    /// The transform that maps every point to itself.
    pub open spec fn identity_spec() -> Transform {
        Transform {
            translation: Vec3 { x: 0, y: 0, z: 0 },
            rotation: Quaternion::identity_spec(),
            scale: Vec3 { x: FX_ONE, y: FX_ONE, z: FX_ONE },
        }
    }

    pub fn new(translation: Vec3, rotation: Quaternion, scale: Vec3) -> (r: Transform)
        ensures
            r == (Transform { translation, rotation, scale }),
    {
        Transform { translation, rotation, scale }
    }

    pub fn identity() -> (r: Transform)
        ensures
            r == Transform::identity_spec(),
            r.wf(),
    {
        let r = Transform {
            translation: Vec3 { x: 0, y: 0, z: 0 },
            rotation: Quaternion::identity(),
            scale: Vec3 { x: FX_ONE, y: FX_ONE, z: FX_ONE },
        };
        r
    }

    /// Applies the forward map to a vector.
    pub fn transform_vector(&self, vec: Vec3) -> (r: Vec3)
        requires
            self.wf(),
            vec.wf(),
        ensures
            r == fwd_vector_spec(*self, vec),
            r.wf(),
            *self == Transform::identity_spec() ==> r == vec,
    {
        let scaled = Vec3 {
            x: scale_axis(vec.x, self.scale.x),
            y: scale_axis(vec.y, self.scale.y),
            z: scale_axis(vec.z, self.scale.z),
        };
        proof {
            if *self == Transform::identity_spec() {
                lemma_scale_identity(vec.x as int);
                lemma_scale_identity(vec.y as int);
                lemma_scale_identity(vec.z as int);
            }
        }
        self.rotation.rotate_vector(scaled)
    }

    /// Applies the forward map to a point.
    pub fn transform_point(&self, point: Point3) -> (r: Point3)
        requires
            self.wf(),
            point.wf(),
        ensures
            r == fwd_point_spec(*self, point),
            r.wf(),
            *self == Transform::identity_spec() ==> r == point,
    {
        let v = self.transform_vector(point);
        Vec3 {
            x: crate::fx::sat_coord((v.x as i128) + (self.translation.x as i128)),
            y: crate::fx::sat_coord((v.y as i128) + (self.translation.y as i128)),
            z: crate::fx::sat_coord((v.z as i128) + (self.translation.z as i128)),
        }
    }

    /// Applies the inverse map to a vector.
    pub fn inverse_transform_vector(&self, vec: Vec3) -> (r: Vec3)
        requires
            self.wf(),
            vec.wf(),
        ensures
            r == inv_vector_spec(*self, vec),
            r.wf(),
            *self == Transform::identity_spec() ==> r == vec,
    {
        let conj = self.rotation.conjugate();
        let w = conj.rotate_vector(vec);
        let r = Vec3 {
            x: inv_scale_axis(w.x, self.scale.x),
            y: inv_scale_axis(w.y, self.scale.y),
            z: inv_scale_axis(w.z, self.scale.z),
        };
        proof {
            if *self == Transform::identity_spec() {
                lemma_inv_scale_identity(w.x as int);
                lemma_inv_scale_identity(w.y as int);
                lemma_inv_scale_identity(w.z as int);
            }
        }
        r
    }

    /// Applies the inverse map to a point.
    pub fn inverse_transform_point(&self, point: Point3) -> (r: Point3)
        requires
            self.wf(),
            point.wf(),
        ensures
            r == inv_point_spec(*self, point),
            r.wf(),
            *self == Transform::identity_spec() ==> r == point,
    {
        let shifted = Vec3 {
            x: crate::fx::sat_coord((point.x as i128) - (self.translation.x as i128)),
            y: crate::fx::sat_coord((point.y as i128) - (self.translation.y as i128)),
            z: crate::fx::sat_coord((point.z as i128) - (self.translation.z as i128)),
        };
        self.inverse_transform_vector(shifted)
    }

    /// Maps a ray forward; the parameter scale and shutter time are kept.
    pub fn transform_ray(&self, ray: Ray) -> (r: Ray)
        requires
            self.wf(),
            ray.wf(),
        ensures
            r.origin == fwd_point_spec(*self, ray.origin),
            r.direction == fwd_vector_spec(*self, ray.direction),
            r.time == ray.time,
            *self == Transform::identity_spec() ==> r == ray,
    {
        Ray {
            origin: self.transform_point(ray.origin),
            direction: self.transform_vector(ray.direction),
            time: ray.time,
        }
    }

    /// Maps a ray into local space; the parameter scale and shutter time
    /// are kept.
    pub fn inverse_transform_ray(&self, ray: Ray) -> (r: Ray)
        requires
            self.wf(),
            ray.wf(),
        ensures
            r.origin == inv_point_spec(*self, ray.origin),
            r.direction == inv_vector_spec(*self, ray.direction),
            r.time == ray.time,
            *self == Transform::identity_spec() ==> r == ray,
    {
        Ray {
            origin: self.inverse_transform_point(ray.origin),
            direction: self.inverse_transform_vector(ray.direction),
            time: ray.time,
        }
    }

    /// Interpolates between two transforms with an exact rational weight:
    /// translation and scale linearly, rotation by componentwise blending
    /// (falling back to the first rotation if the blend degenerates).  Both
    /// endpoints are reproduced exactly.
    pub fn interpolate(a: Transform, b: Transform, t: TParam) -> (r: Transform)
        requires
            a.wf(),
            b.wf(),
            t.wf(),
            0 <= t.num <= t.den,
        ensures
            r == interpolate_spec(a, b, t.num as int, t.den as int),
            r.wf(),
            t.num == 0 ==> r == a,
            t.num == t.den ==> r == b,
    {
        let translation = a.translation.lerp_t(&b.translation, &t);
        let scale_c = a.scale.lerp_t(&b.scale, &t);
        let scale = Vec3 {
            x: keep_nonzero(scale_c.x, a.scale.x, b.scale.x, t),
            y: keep_nonzero(scale_c.y, a.scale.y, b.scale.y, t),
            z: keep_nonzero(scale_c.z, a.scale.z, b.scale.z, t),
        };
        let rv = a.rotation.v.lerp_t(&b.rotation.v, &t);
        let rs = lerp_q_scalar(a.rotation.s, b.rotation.s, t);
        let cand = Quaternion { v: rv, s: rs };
        let nn = cand.squared_norm();
        proof {
            assert(nn == q_norm_sq(cand));
        }
        let rotation = if nn >= 1
            && rv.x >= -crate::quaternion::Q_MAX && rv.x <= crate::quaternion::Q_MAX
            && rv.y >= -crate::quaternion::Q_MAX && rv.y <= crate::quaternion::Q_MAX
            && rv.z >= -crate::quaternion::Q_MAX && rv.z <= crate::quaternion::Q_MAX
            && rs >= -crate::quaternion::Q_MAX && rs <= crate::quaternion::Q_MAX {
            cand
        } else {
            a.rotation
        };
        proof {
            if t.num == 0 {
                assert(rotation == a.rotation);
            }
            if t.num == t.den {
                assert(cand == b.rotation);
                assert(rotation == b.rotation);
            }
        }
        Transform { translation, rotation, scale }
    }
}

/// The blended scale component, or the nearest endpoint's where the blend
/// crosses zero (a zero scale would not be invertible).
fn keep_nonzero(c: i64, sa: i64, sb: i64, t: TParam) -> (r: i64)
    requires
        sa != 0,
        sb != 0,
        -SCALE_MAX <= sa <= SCALE_MAX,
        -SCALE_MAX <= sb <= SCALE_MAX,
        in_coord(c as int),
        t.wf(),
        0 <= t.num <= t.den,
        t.num == 0 ==> c == sa,
        t.num == t.den ==> c == sb,
    ensures
        r == keep_nonzero_spec(c as int, sa as int, sb as int, t.num as int, t.den as int),
        r != 0,
        -SCALE_MAX <= r <= SCALE_MAX,
        t.num == 0 ==> r == sa,
        t.num == t.den ==> r == sb,
{
    if c != 0 && -SCALE_MAX <= c && c <= SCALE_MAX {
        c
    } else if t.num * 2 <= t.den {
        sa
    } else {
        sb
    }
}

fn lerp_q_scalar(a: i64, b: i64, t: TParam) -> (r: i64)
    requires
        -crate::quaternion::Q_MAX <= a <= crate::quaternion::Q_MAX,
        -crate::quaternion::Q_MAX <= b <= crate::quaternion::Q_MAX,
        t.wf(),
        0 <= t.num <= t.den,
    ensures
        r == lerp_coord(a as int, b as int, t.num as int, t.den as int),
        in_coord(r as int),
        t.num == 0 ==> r == a,
        t.num == t.den ==> r == b,
{
    let v = Vec3 { x: a, y: 0, z: 0 };
    let w = Vec3 { x: b, y: 0, z: 0 };
    let l = v.lerp_t(&w, &t);
    l.x
}

fn scale_axis(v: i64, s: i64) -> (r: i64)
    requires
        in_coord(v as int),
        -SCALE_MAX <= s <= SCALE_MAX,
    ensures
        r == scale_coord(v as int, s as int),
        in_coord(r as int),
{
    proof {
        crate::tparam::lemma_abs_product_bound(
            v as int, s as int, COORD_MAX as int, SCALE_MAX as int);
    }
    let p: i128 = (v as i128) * (s as i128);
    let q = crate::fx::div_floor_i128(p, FX_ONE as i128);
    crate::fx::sat_coord(q)
}

fn inv_scale_axis(v: i64, s: i64) -> (r: i64)
    requires
        in_coord(v as int),
        s != 0,
        -SCALE_MAX <= s <= SCALE_MAX,
    ensures
        r == sat_c(fx_div_spec(v as int, s as int)),
        in_coord(r as int),
{
    let d = crate::fx::fx_div(v, s);
    crate::fx::sat_coord(d as i128)
}

/// Multiplying by the unit scale and dividing back are exact.
proof fn lemma_scale_identity(v: int)
    requires
        in_coord(v),
    ensures
        scale_coord(v, FX_ONE as int) == v,
{
    assert(v * (FX_ONE as int) == (FX_ONE as int) * v) by (nonlinear_arith);
    vstd::arithmetic::div_mod::lemma_div_multiples_vanish(v, FX_ONE as int);
}

proof fn lemma_inv_scale_identity(v: int)
    requires
        in_coord(v),
    ensures
        sat_c(fx_div_spec(v, FX_ONE as int)) == v,
{
    assert(v * (FX_ONE as int) == (FX_ONE as int) * v) by (nonlinear_arith);
    vstd::arithmetic::div_mod::lemma_div_multiples_vanish(v, FX_ONE as int);
}

} // verus!

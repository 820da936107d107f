//! The scene tree: everything a ray can be tested against.
//!
//! One closed sum type covers primitives, composites, the acceleration
//! structure, transform wrappers and participating media.  Children are
//! shared read-only through reference counting, so one primitive may appear
//! at several places in the tree.

use vstd::prelude::*;
use std::sync::Arc;
use crate::aabb::{box_within, union_spec, AABB};
use crate::fx::{in_coord, BOX_PAD, COORD_MAX, FX_ONE};
use crate::hit_record::HitRecord;
use crate::material::Material;
use crate::ray::Ray;
use crate::tparam::TParam;
use crate::transform::Transform;
use crate::vec3::{Point3, Vec3};

verus! {

broadcast use vstd::std_specs::vec::group_vec_axioms;

/// Which coordinate plane an axis-aligned rectangle lies in.
#[derive(Clone, Copy, Debug, PartialEq, Eq, Structural)]
pub enum Plane {
    XY,
    XZ,
    YZ,
}

/// Anything a ray can be tested against for a nearest hit.
pub enum Hittable {
    Sphere { center: Point3, radius: i64, material: Arc<Material> },
    Rect {
        plane: Plane,
        a0: i64,
        a1: i64,
        b0: i64,
        b1: i64,
        k: i64,
        material: Arc<Material>,
    },
    List { hittables: Vec<Arc<Hittable>> },
    Bvh { bbox: AABB, left: Arc<Hittable>, right: Arc<Hittable> },
    Instance { hittable: Arc<Hittable>, transform: Transform, world_box: Option<AABB> },
    MovingInstance {
        hittable: Arc<Hittable>,
        transform_0: Transform,
        transform_1: Transform,
        time_0: i64,
        time_1: i64,
        world_box: Option<AABB>,
    },
    ConstantMedium {
        boundary: Arc<Hittable>,
        density: i64,
        phase_function: Arc<Material>,
        world_box: Option<AABB>,
    },
}

/// The padded box of a sphere.
pub open spec fn sphere_box(center: Point3, radius: i64) -> AABB {
    AABB {
        min: Vec3 {
            x: (center.x - radius - BOX_PAD) as i64,
            y: (center.y - radius - BOX_PAD) as i64,
            z: (center.z - radius - BOX_PAD) as i64,
        },
        max: Vec3 {
            x: (center.x + radius + BOX_PAD) as i64,
            y: (center.y + radius + BOX_PAD) as i64,
            z: (center.z + radius + BOX_PAD) as i64,
        },
    }
}

/// The padded box of an axis-aligned rectangle.
pub open spec fn rect_box(plane: Plane, a0: int, a1: int, b0: int, b1: int, k: int) -> AABB {
    match plane {
        Plane::XY => AABB {
            min: Vec3 { x: (a0 - BOX_PAD) as i64, y: (b0 - BOX_PAD) as i64,
                z: (k - BOX_PAD) as i64 },
            max: Vec3 { x: (a1 + BOX_PAD) as i64, y: (b1 + BOX_PAD) as i64,
                z: (k + BOX_PAD) as i64 },
        },
        Plane::XZ => AABB {
            min: Vec3 { x: (a0 - BOX_PAD) as i64, y: (k - BOX_PAD) as i64,
                z: (b0 - BOX_PAD) as i64 },
            max: Vec3 { x: (a1 + BOX_PAD) as i64, y: (k + BOX_PAD) as i64,
                z: (b1 + BOX_PAD) as i64 },
        },
        Plane::YZ => AABB {
            min: Vec3 { x: (k - BOX_PAD) as i64, y: (a0 - BOX_PAD) as i64,
                z: (b0 - BOX_PAD) as i64 },
            max: Vec3 { x: (k + BOX_PAD) as i64, y: (a1 + BOX_PAD) as i64,
                z: (b1 + BOX_PAD) as i64 },
        },
    }
}

/// The bounding box a hittable declares, if it has one.
pub open spec fn box_of(h: Hittable) -> Option<AABB>
    decreases h,
{
    match h {
        Hittable::Sphere { center, radius, material } => Some(sphere_box(center, radius)),
        Hittable::Rect { plane, a0, a1, b0, b1, k, material } => Some(
            rect_box(plane, a0 as int, a1 as int, b0 as int, b1 as int, k as int)),
        Hittable::List { hittables } => boxes_union(hittables@),
        Hittable::Bvh { bbox, left, right } => Some(bbox),
        Hittable::Instance { hittable, transform, world_box } => world_box,
        Hittable::MovingInstance { hittable, transform_0, transform_1, time_0, time_1,
            world_box } => world_box,
        Hittable::ConstantMedium { boundary, density, phase_function, world_box } => world_box,
    }
}

/// The union of the boxes of a run of hittables: nothing if the run is
/// empty or any member is unbounded.
pub open spec fn boxes_union(s: Seq<Arc<Hittable>>) -> Option<AABB>
    decreases s,
{
    if s.len() == 0 {
        None
    } else if s.len() == 1 {
        box_of(*s[0])
    } else {
        match (boxes_union(s.drop_last()), box_of(*s.last())) {
            (Some(a), Some(b)) => Some(union_spec(a, b)),
            _ => None,
        }
    }
}

/// No stochastic medium anywhere below: intersection is deterministic.
pub open spec fn det(h: Hittable) -> bool
    decreases h,
{
    match h {
        Hittable::Sphere { .. } => true,
        Hittable::Rect { .. } => true,
        Hittable::List { hittables } => forall|i: int|
            0 <= i < hittables@.len() ==> det(*#[trigger] hittables@[i]),
        Hittable::Bvh { bbox, left, right } => det(*left) && det(*right),
        Hittable::Instance { hittable, .. } => det(*hittable),
        Hittable::MovingInstance { hittable, .. } => det(*hittable),
        Hittable::ConstantMedium { .. } => false,
    }
}

impl Hittable {
    /// Structural well-formedness: coordinates in range, boxes consistent,
    /// children well-formed.
    pub open spec fn wf(self) -> bool
        decreases self,
    {
        match self {
            Hittable::Sphere { center, radius, material } => center.wf() && 1 <= radius
                && radius + BOX_PAD <= COORD_MAX && material.wf()
                && in_coord(center.x - radius - BOX_PAD) && in_coord(center.x + radius + BOX_PAD)
                && in_coord(center.y - radius - BOX_PAD) && in_coord(center.y + radius + BOX_PAD)
                && in_coord(center.z - radius - BOX_PAD) && in_coord(center.z + radius + BOX_PAD),
            Hittable::Rect { plane, a0, a1, b0, b1, k, material } => a0 <= a1 && b0 <= b1
                && material.wf()
                && in_coord(a0 - BOX_PAD) && in_coord(a1 + BOX_PAD)
                && in_coord(b0 - BOX_PAD) && in_coord(b1 + BOX_PAD)
                && in_coord(k - BOX_PAD) && in_coord(k + BOX_PAD),
            Hittable::List { hittables } => forall|i: int|
                0 <= i < hittables@.len() ==> (*#[trigger] hittables@[i]).wf(),
            Hittable::Bvh { bbox, left, right } => left.wf() && right.wf() && bbox.wf()
                && box_of(*left) is Some && box_of(*right) is Some
                && bbox == union_spec(box_of(*left)->Some_0, box_of(*right)->Some_0)
                && box_within(box_of(*left)->Some_0, bbox)
                && box_within(box_of(*right)->Some_0, bbox),
            Hittable::Instance { hittable, transform, world_box } => hittable.wf()
                && transform.wf() && (world_box matches Some(b) ==> b.wf()
                && b.min.x <= b.max.x && b.min.y <= b.max.y && b.min.z <= b.max.z),
            Hittable::MovingInstance { hittable, transform_0, transform_1, time_0, time_1,
                world_box } => hittable.wf() && transform_0.wf() && transform_1.wf()
                && in_coord(time_0 as int) && in_coord(time_1 as int) && time_0 < time_1
                && (world_box matches Some(b) ==> b.wf()
                && b.min.x <= b.max.x && b.min.y <= b.max.y && b.min.z <= b.max.z),
            Hittable::ConstantMedium { boundary, density, phase_function, world_box } =>
                boundary.wf() && 1 <= density && in_coord(density as int)
                && phase_function.wf() && (world_box matches Some(b) ==> b.wf()
                && b.min.x <= b.max.x && b.min.y <= b.max.y && b.min.z <= b.max.z),
        }
    }

    /// The bounding box over the given time interval.  Every box here is
    /// fixed at construction: a moving instance's covers its own motion
    /// interval, which binds build-time and render-time intervals together.
    pub fn bounding_box(&self, time_0: i64, time_1: i64) -> (r: Option<AABB>)
        requires
            self.wf(),
        ensures
            r == box_of(*self),
            r matches Some(b) ==> b.wf(),
        decreases *self,
    {
        match self {
            Hittable::Sphere { center, radius, material } => {
                Some(AABB {
                    min: Vec3 {
                        x: center.x - *radius - BOX_PAD,
                        y: center.y - *radius - BOX_PAD,
                        z: center.z - *radius - BOX_PAD,
                    },
                    max: Vec3 {
                        x: center.x + *radius + BOX_PAD,
                        y: center.y + *radius + BOX_PAD,
                        z: center.z + *radius + BOX_PAD,
                    },
                })
            },
            Hittable::Rect { plane, a0, a1, b0, b1, k, material } => {
                let r = match plane {
                    Plane::XY => AABB {
                        min: Vec3 { x: *a0 - BOX_PAD, y: *b0 - BOX_PAD, z: *k - BOX_PAD },
                        max: Vec3 { x: *a1 + BOX_PAD, y: *b1 + BOX_PAD, z: *k + BOX_PAD },
                    },
                    Plane::XZ => AABB {
                        min: Vec3 { x: *a0 - BOX_PAD, y: *k - BOX_PAD, z: *b0 - BOX_PAD },
                        max: Vec3 { x: *a1 + BOX_PAD, y: *k + BOX_PAD, z: *b1 + BOX_PAD },
                    },
                    Plane::YZ => AABB {
                        min: Vec3 { x: *k - BOX_PAD, y: *a0 - BOX_PAD, z: *b0 - BOX_PAD },
                        max: Vec3 { x: *k + BOX_PAD, y: *a1 + BOX_PAD, z: *b1 + BOX_PAD },
                    },
                };
                Some(r)
            },
            Hittable::List { hittables } => {
                let n = hittables.len();
                if n == 0 {
                    return None;
                }
                let first = hittables[0].bounding_box(time_0, time_1);
                let mut acc: Option<AABB> = first;
                let mut i: usize = 1;
                proof {
                    assert(hittables@.subrange(0, 1) =~= seq![hittables@[0]]);
                    assert(acc == boxes_union(hittables@.subrange(0, 1)));
                }
                while i < n
                    invariant
                        (*self) is List,
                        self->List_hittables == *hittables,
                        1 <= i <= n,
                        n == hittables@.len(),
                        forall|j: int| 0 <= j < n ==> (*#[trigger] hittables@[j]).wf(),
                        acc == boxes_union(hittables@.subrange(0, i as int)),
                        acc matches Some(b) ==> b.wf(),
                    decreases n - i,
                {
                    proof {
                        assert(*hittables == self->List_hittables);
                        assert(decreases_to!(*self => self->List_hittables));
                        assert(decreases_to!(*hittables => hittables@));
                        assert(decreases_to!(hittables@ => hittables@[i as int]));
                    }
                    let next = hittables[i].bounding_box(time_0, time_1);
                    proof {
                        let pre = hittables@.subrange(0, i as int);
                        let post = hittables@.subrange(0, i as int + 1);
                        assert(post.drop_last() =~= pre);
                        assert(*post.last() == *hittables@[i as int]);
                    }
                    acc = match (acc, next) {
                        (Some(a), Some(b)) => {
                            let mut u = a;
                            u.encapsulate(b);
                            Some(u)
                        },
                        _ => None,
                    };
                    i = i + 1;
                }
                proof {
                    assert(hittables@.subrange(0, hittables@.len() as int) =~= hittables@);
                }
                acc
            },
            Hittable::Bvh { bbox, left, right } => Some(*bbox),
            Hittable::Instance { hittable, transform, world_box } => *world_box,
            Hittable::MovingInstance { hittable, transform_0, transform_1, time_0: t0,
                time_1: t1, world_box } => *world_box,
            Hittable::ConstantMedium { boundary, density, phase_function, world_box } =>
                *world_box,
        }
    }
}

/// The in-plane "a" coordinate of a vector for a given plane.
pub open spec fn plane_a(plane: Plane, v: Vec3) -> int {
    match plane {
        Plane::XY => v.x as int,
        Plane::XZ => v.x as int,
        Plane::YZ => v.y as int,
    }
}

/// The in-plane "b" coordinate.
pub open spec fn plane_b(plane: Plane, v: Vec3) -> int {
    match plane {
        Plane::XY => v.y as int,
        Plane::XZ => v.z as int,
        Plane::YZ => v.z as int,
    }
}

/// The coordinate perpendicular to the plane.
pub open spec fn plane_k(plane: Plane, v: Vec3) -> int {
    match plane {
        Plane::XY => v.z as int,
        Plane::XZ => v.y as int,
        Plane::YZ => v.x as int,
    }
}

/// The unit normal a rectangle reports (independent of the hit side).
pub open spec fn plane_normal(plane: Plane) -> Vec3 {
    match plane {
        Plane::XY => Vec3 { x: 0, y: 0, z: FX_ONE },
        Plane::XZ => Vec3 { x: 0, y: FX_ONE, z: 0 },
        Plane::YZ => Vec3 { x: FX_ONE, y: 0, z: 0 },
    }
}

/// A parametric coordinate: the clamped lattice fraction `num / den`.
pub open spec fn frac_fx_spec(num: int, den: int) -> int {
    if den <= 0 {
        0
    } else {
        let q = (num * FX_ONE as int) / den;
        if q < 0 {
            0
        } else if q > FX_ONE as int {
            FX_ONE as int
        } else {
            q
        }
    }
}

/// The rounded lattice point of `ray` at the parameter `tn / td`.
pub open spec fn at_point(ray: Ray, tn: int, td: int) -> Point3 {
    Vec3 {
        x: crate::fx::sat_c(crate::ray::at_coord(ray.origin.x as int, ray.direction.x as int,
            tn, td)) as i64,
        y: crate::fx::sat_c(crate::ray::at_coord(ray.origin.y as int, ray.direction.y as int,
            tn, td)) as i64,
        z: crate::fx::sat_c(crate::ray::at_coord(ray.origin.z as int, ray.direction.z as int,
            tn, td)) as i64,
    }
}

/// The open caller window admits `tn / td`.
pub open spec fn in_win(lo: TParam, hi: TParam, tn: int, td: int) -> bool {
    crate::tparam::rat_lt(lo.num as int, lo.den as int, tn, td)
        && crate::tparam::rat_lt(tn, td, hi.num as int, hi.den as int)
}

/// The squared length of the ray direction, the quadratic coefficient of
/// the sphere equation.
pub open spec fn sphere_a(ray: Ray) -> int {
    crate::vec3::dot_spec(ray.direction, ray.direction)
}

/// Half the linear coefficient of the sphere equation.
pub open spec fn sphere_hb(center: Point3, ray: Ray) -> int {
    (ray.direction.x as int) * (ray.origin.x - center.x)
        + (ray.direction.y as int) * (ray.origin.y - center.y)
        + (ray.direction.z as int) * (ray.origin.z - center.z)
}

/// The constant coefficient of the sphere equation.
pub open spec fn sphere_c2(center: Point3, radius: i64, ray: Ray) -> int {
    (ray.origin.x - center.x) * (ray.origin.x - center.x)
        + (ray.origin.y - center.y) * (ray.origin.y - center.y)
        + (ray.origin.z - center.z) * (ray.origin.z - center.z)
        - (radius as int) * (radius as int)
}

/// The discriminant of the sphere equation.
pub open spec fn sphere_delta(center: Point3, radius: i64, ray: Ray) -> int {
    sphere_hb(center, ray) * sphere_hb(center, ray)
        - sphere_a(ray) * sphere_c2(center, radius, ray)
}

/// The record a sphere reports at an accepted parameter.
pub open spec fn sphere_record(
    center: Point3, radius: i64, material: Arc<Material>, ray: Ray, tn: int, td: int,
) -> HitRecord {
    let p = at_point(ray, tn, td);
    HitRecord {
        point: p,
        normal: Vec3 {
            x: (p.x - center.x) as i64,
            y: (p.y - center.y) as i64,
            z: (p.z - center.z) as i64,
        },
        material: material,
        t: TParam { num: tn as i128, den: td as i128 },
        u: frac_fx_spec(p.x - center.x + radius, 2 * radius as int) as i64,
        v: frac_fx_spec(p.y - center.y + radius, 2 * radius as int) as i64,
    }
}

/// A sphere accepts a candidate parameter when it lies strictly inside the
/// caller window and its rounded point sits strictly inside the padded box
/// with a nonzero normal.
pub open spec fn sphere_accepts(
    center: Point3, radius: i64, ray: Ray, lo: TParam, hi: TParam, tn: int, td: int,
) -> bool {
    let p = at_point(ray, tn, td);
    in_win(lo, hi, tn, td)
        && crate::aabb::ray_strictly_inside(sphere_box(center, radius), ray, tn, td)
        && !(p.x == center.x && p.y == center.y && p.z == center.z)
}

/// What a sphere reports: the nearer root if accepted, else the farther
/// root if accepted, else nothing.
pub open spec fn sphere_hit_spec(
    center: Point3, radius: i64, material: Arc<Material>, ray: Ray, lo: TParam, hi: TParam,
) -> Option<HitRecord> {
    let delta = sphere_delta(center, radius, ray);
    if delta < 0 {
        None
    } else {
        let s = crate::fx::sqrt_floor(delta as nat) as int;
        let a = sphere_a(ray);
        let hb = sphere_hb(center, ray);
        if sphere_accepts(center, radius, ray, lo, hi, -hb - s, a) {
            Some(sphere_record(center, radius, material, ray, -hb - s, a))
        } else if sphere_accepts(center, radius, ray, lo, hi, -hb + s, a) {
            Some(sphere_record(center, radius, material, ray, -hb + s, a))
        } else {
            None
        }
    }
}

/// The record a rectangle reports at its plane crossing.
pub open spec fn rect_record(
    plane: Plane, a0: i64, a1: i64, b0: i64, b1: i64, material: Arc<Material>, ray: Ray,
    tn: int, td: int,
) -> HitRecord {
    let p = at_point(ray, tn, td);
    HitRecord {
        point: p,
        normal: plane_normal(plane),
        material: material,
        t: TParam { num: tn as i128, den: td as i128 },
        u: frac_fx_spec(plane_a(plane, p) - a0, a1 - a0) as i64,
        v: frac_fx_spec(plane_b(plane, p) - b0, b1 - b0) as i64,
    }
}

/// What an axis-aligned rectangle reports: the plane crossing, accepted
/// when it lies strictly inside the window and the exact rational crossing
/// point lies within the rectangle bounds.
pub open spec fn rect_hit_spec(
    plane: Plane, a0: i64, a1: i64, b0: i64, b1: i64, k: i64, material: Arc<Material>,
    ray: Ray, lo: TParam, hi: TParam,
) -> Option<HitRecord> {
    let dk = plane_k(plane, ray.direction);
    let ok = plane_k(plane, ray.origin);
    if dk == 0 {
        None
    } else {
        let tn = if dk > 0 { k - ok } else { ok - k };
        let td = if dk > 0 { dk } else { -dk };
        let pa = crate::ray::point_num(plane_a(plane, ray.origin), plane_a(plane,
            ray.direction), tn, td);
        let pb = crate::ray::point_num(plane_b(plane, ray.origin), plane_b(plane,
            ray.direction), tn, td);
        if in_win(lo, hi, tn, td) && a0 * td <= pa <= a1 * td && b0 * td <= pb <= b1 * td {
            Some(rect_record(plane, a0, a1, b0, b1, material, ray, tn, td))
        } else {
            None
        }
    }
}

/// A clip against a declared box: a record survives only if the exact
/// rational ray point at its parameter lies strictly inside the box.
pub open spec fn clip_ok(wbox: Option<AABB>, ray: Ray, t: TParam) -> bool {
    match wbox {
        Some(b) => crate::aabb::ray_strictly_inside(b, ray, t.num as int, t.den as int),
        None => true,
    }
}

/// The local-space ray an instance hands to its child.
pub open spec fn local_ray(tr: Transform, ray: Ray) -> Ray {
    Ray {
        origin: crate::transform::inv_point_spec(tr, ray.origin),
        direction: crate::transform::inv_vector_spec(tr, ray.direction),
        time: ray.time,
    }
}

/// The interpolation weight of a moving instance at a shutter time, the
/// inverse linear interpolation clamped to the motion interval.
pub open spec fn time_frac(time_0: i64, time_1: i64, time: i64) -> TParam {
    let d = time_1 - time_0;
    let n0 = time - time_0;
    let n = if n0 < 0 { 0 } else if n0 > d { d } else { n0 };
    TParam { num: n as i128, den: d as i128 }
}

/// The transform a moving instance applies at a shutter time.
pub open spec fn transform_at_spec(
    tr0: Transform, tr1: Transform, time_0: i64, time_1: i64, time: i64,
) -> Transform {
    let f = time_frac(time_0, time_1, time);
    crate::transform::interpolate_spec(tr0, tr1, f.num as int, f.den as int)
}

/// What an instance with a fixed transform reports: the child result on the
/// local ray, re-expressed in world space and clipped to the declared box.
pub open spec fn instance_hit_spec(
    child: Hittable, tr: Transform, wbox: Option<AABB>, ray: Ray, lo: TParam, hi: TParam,
) -> Option<HitRecord>
    decreases child, 1int,
{
    let lray = local_ray(tr, ray);
    if lray.direction.is_zero() {
        None
    } else {
        match hit_of(child, lray, lo, hi) {
            Some(rec) => {
                let wn = crate::transform::fwd_vector_spec(tr, rec.normal);
                let wrec = HitRecord {
                    point: at_point(ray, rec.t.num as int, rec.t.den as int),
                    normal: wn,
                    material: rec.material,
                    t: rec.t,
                    u: rec.u,
                    v: rec.v,
                };
                if !wn.is_zero() && clip_ok(wbox, ray, rec.t) {
                    Some(wrec)
                } else {
                    None
                }
            },
            None => None,
        }
    }
}

/// What a deterministic hittable reports for a ray and an open parameter
/// window.  Media are stochastic and report nothing here; their executable
/// intersection is specified only by what holds of every outcome.
pub open spec fn hit_of(h: Hittable, ray: Ray, lo: TParam, hi: TParam) -> Option<HitRecord>
    decreases h, 0int,
{
    match h {
        Hittable::Sphere { center, radius, material } => sphere_hit_spec(center, radius,
            material, ray, lo, hi),
        Hittable::Rect { plane, a0, a1, b0, b1, k, material } => rect_hit_spec(plane, a0, a1,
            b0, b1, k, material, ray, lo, hi),
        Hittable::List { hittables } => list_hit_from(hittables@, 0, ray, lo, hi, None),
        Hittable::Bvh { bbox, left, right } => {
            match hit_of(*left, ray, lo, hi) {
                Some(lrec) => {
                    match hit_of(*right, ray, lo, lrec.t) {
                        Some(rrec) => Some(rrec),
                        None => Some(lrec),
                    }
                },
                None => hit_of(*right, ray, lo, hi),
            }
        },
        Hittable::Instance { hittable, transform, world_box } => instance_hit_spec(
            *hittable, transform, world_box, ray, lo, hi),
        Hittable::MovingInstance { hittable, transform_0, transform_1, time_0, time_1,
            world_box } => instance_hit_spec(*hittable, transform_at_spec(transform_0,
            transform_1, time_0, time_1, ray.time), world_box, ray, lo, hi),
        Hittable::ConstantMedium { .. } => None,
    }
}

/// The linear scan over a run of members, narrowing the window to the best
/// hit found so far; the first of equally near hits wins.
pub open spec fn list_hit_from(
    s: Seq<Arc<Hittable>>, i: int, ray: Ray, lo: TParam, hi: TParam, best: Option<HitRecord>,
) -> Option<HitRecord>
    decreases s, (s.len() - i) as nat, 2int,
{
    if i < 0 || i >= s.len() {
        best
    } else {
        let cur_hi = match best {
            Some(b) => b.t,
            None => hi,
        };
        let r = hit_of_arc(&s[i], ray, lo, cur_hi);
        let nb = match r {
            Some(rec) => Some(rec),
            None => best,
        };
        list_hit_from(s, i + 1, ray, lo, hi, nb)
    }
}

/// A strictly-inside window after floor rounding: if `L * td < x < U * td`
/// with a positive `td`, the floor of `x / td` lies in `[L, U)`.
pub proof fn lemma_floor_in_window(x: int, td: int, lo: int, up: int)
    requires
        td >= 1,
        lo * td < x,
        x < up * td,
    ensures
        lo <= x / td < up,
{
    vstd::arithmetic::div_mod::lemma_fundamental_div_mod(x, td);
    vstd::arithmetic::div_mod::lemma_mod_division_less_than_divisor(x, td);
    let q = x / td;
    let r = x % td;
    assert(lo <= q && q < up) by (nonlinear_arith)
        requires
            x == td * q + r,
            0 <= r < td,
            lo * td < x,
            x < up * td,
            td >= 1,
    ;
}

/// The rounded ray point at a parameter strictly inside a box stays within
/// the box corners, so its coordinates are valid and its offset from any
/// point of the box is small.
pub proof fn lemma_at_point_in_box(b: AABB, ray: Ray, tn: int, td: int)
    requires
        b.wf(),
        ray.wf(),
        td >= 1,
        crate::aabb::ray_strictly_inside(b, ray, tn, td),
    ensures
        b.min.x <= at_point(ray, tn, td).x < b.max.x,
        b.min.y <= at_point(ray, tn, td).y < b.max.y,
        b.min.z <= at_point(ray, tn, td).z < b.max.z,
        at_point(ray, tn, td).wf(),
{
    lemma_at_axis_in_window(b.min.x as int, b.max.x as int, ray.origin.x as int,
        ray.direction.x as int, tn, td);
    lemma_at_axis_in_window(b.min.y as int, b.max.y as int, ray.origin.y as int,
        ray.direction.y as int, tn, td);
    lemma_at_axis_in_window(b.min.z as int, b.max.z as int, ray.origin.z as int,
        ray.direction.z as int, tn, td);
}

proof fn lemma_at_axis_in_window(bmin: int, bmax: int, o: int, d: int, tn: int, td: int)
    requires
        in_coord(bmin),
        in_coord(bmax),
        in_coord(o),
        td >= 1,
        crate::aabb::axis_strictly_inside(bmin, bmax, o, d, tn, td),
    ensures
        bmin <= crate::fx::sat_c(crate::ray::at_coord(o, d, tn, td)) < bmax,
{
    let x = crate::ray::point_num(o, d, tn, td);
    lemma_floor_in_window(x, td, bmin, bmax);
    assert(x / td == o + (tn * d) / td) by {
        vstd::arithmetic::div_mod::lemma_hoist_over_denominator(tn * d, o, td as nat);
        assert(o * td == td * o) by (nonlinear_arith);
    }
}

/// Strict slab membership survives widening the box.
pub proof fn lemma_strict_inside_mono(inner: AABB, outer: AABB, ray: Ray, tn: int, td: int)
    requires
        td > 0,
        box_within(inner, outer),
        crate::aabb::ray_strictly_inside(inner, ray, tn, td),
    ensures
        crate::aabb::ray_strictly_inside(outer, ray, tn, td),
{
    lemma_axis_mono(outer.min.x as int, inner.min.x as int, inner.max.x as int,
        outer.max.x as int, ray.origin.x as int, ray.direction.x as int, tn, td);
    lemma_axis_mono(outer.min.y as int, inner.min.y as int, inner.max.y as int,
        outer.max.y as int, ray.origin.y as int, ray.direction.y as int, tn, td);
    lemma_axis_mono(outer.min.z as int, inner.min.z as int, inner.max.z as int,
        outer.max.z as int, ray.origin.z as int, ray.direction.z as int, tn, td);
}

proof fn lemma_axis_mono(
    omin: int, imin: int, imax: int, omax: int, o: int, d: int, tn: int, td: int,
)
    requires
        td > 0,
        omin <= imin,
        imax <= omax,
        crate::aabb::axis_strictly_inside(imin, imax, o, d, tn, td),
    ensures
        crate::aabb::axis_strictly_inside(omin, omax, o, d, tn, td),
{
    assert(omin * td <= imin * td && imax * td <= omax * td) by (nonlinear_arith)
        requires
            td > 0,
            omin <= imin,
            imax <= omax,
    ;
}

/// Every member's box sits inside the union of a run's boxes, and if the
/// union exists every member has a box.
pub proof fn lemma_member_box_within(s: Seq<Arc<Hittable>>, i: int)
    requires
        0 <= i < s.len(),
        boxes_union(s) is Some,
    ensures
        box_of(*s[i]) is Some,
        box_within(box_of(*s[i])->Some_0, boxes_union(s)->Some_0),
    decreases s.len(),
{
    if s.len() == 1 {
    } else {
        let pre = s.drop_last();
        if i < s.len() - 1 {
            lemma_member_box_within(pre, i);
            assert(pre[i] == s[i]);
        }
    }
}


/// `hit_of` through a shared reference, for proof-code case analysis.
pub open spec fn hit_of_arc(a: &Arc<Hittable>, ray: Ray, lo: TParam, hi: TParam)
    -> Option<HitRecord>
    decreases **a, 1int,
{
    hit_of(**a, ray, lo, hi)
}

/// `det` through a shared reference.
pub open spec fn det_arc(a: &Arc<Hittable>) -> bool
    decreases **a, 1int,
{
    det(**a)
}

/// `instance_hit_spec` through a shared reference.
pub open spec fn instance_hit_spec_arc(
    a: &Arc<Hittable>, tr: Transform, wbox: Option<AABB>, ray: Ray, lo: TParam, hi: TParam,
) -> Option<HitRecord>
    decreases **a, 2int,
{
    instance_hit_spec(**a, tr, wbox, ray, lo, hi)
}

/// `box_of` through a shared reference.
pub open spec fn box_of_arc(a: &Arc<Hittable>) -> Option<AABB>
    decreases **a, 1int,
{
    box_of(**a)
}

/// A deterministic hittable's reported intersection lies strictly inside
/// the caller's window and, when the hittable declares a box, strictly
/// inside that box; its parameter is well-formed.
#[verifier::rlimit(100)]
#[verifier::spinoff_prover]
pub proof fn lemma_hit_of_in_box(h: &Hittable, ray: Ray, lo: TParam, hi: TParam)
    requires
        h.wf(),
        ray.wf(),
        lo.wf(),
        hi.wf(),
        det(*h),
    ensures
        hit_of(*h, ray, lo, hi) matches Some(rec) ==> {
            &&& rec.t.interior()
            &&& crate::tparam::t_lt(lo, rec.t)
            &&& crate::tparam::t_lt(rec.t, hi)
            &&& (box_of(*h) matches Some(b) ==> crate::aabb::ray_strictly_inside(
                b, ray, rec.t.num as int, rec.t.den as int))
        },
    decreases h, 0int,
{
    match h {
        Hittable::Sphere { center, radius, material } => {
            assert(*h == (Hittable::Sphere { center: *center, radius: *radius,
                material: h->Sphere_material }));
            assert(box_of(*h) == Some(sphere_box(*center, *radius)));
            assert(hit_of(*h, ray, lo, hi) == sphere_hit_spec(*center, *radius,
                h->Sphere_material, ray, lo, hi));
            lemma_sphere_in_box(*center, *radius, h->Sphere_material, ray, lo, hi);
        },
        Hittable::Rect { plane, a0, a1, b0, b1, k, material } => {
            assert(*h == (Hittable::Rect { plane: *plane, a0: *a0, a1: *a1, b0: *b0,
                b1: *b1, k: *k, material: h->Rect_material }));
            lemma_rect_in_box(*plane, *a0, *a1, *b0, *b1, *k, h->Rect_material, ray, lo, hi);
        },
        Hittable::List { hittables } => {
            lemma_list_from_in_box(hittables@, 0, ray, lo, hi, None);
        },
        Hittable::Bvh { bbox, left, right } => {
            lemma_hit_of_in_box(&**left, ray, lo, hi);
            match hit_of_arc(left, ray, lo, hi) {
                Some(lrec) => {
                    lemma_hit_of_in_box(&**right, ray, lo, lrec.t);
                    match hit_of_arc(right, ray, lo, lrec.t) {
                        Some(rrec) => {
                            crate::tparam::lemma_t_lt_trans(rrec.t, lrec.t, hi);
                            lemma_strict_inside_mono(box_of_arc(right)->Some_0, *bbox, ray,
                                rrec.t.num as int, rrec.t.den as int);
                        },
                        None => {
                            lemma_strict_inside_mono(box_of_arc(left)->Some_0, *bbox, ray,
                                lrec.t.num as int, lrec.t.den as int);
                        },
                    }
                },
                None => {
                    lemma_hit_of_in_box(&**right, ray, lo, hi);
                    match hit_of_arc(right, ray, lo, hi) {
                        Some(rrec) => {
                            lemma_strict_inside_mono(box_of_arc(right)->Some_0, *bbox, ray,
                                rrec.t.num as int, rrec.t.den as int);
                        },
                        None => {},
                    }
                },
            }
        },
        Hittable::Instance { hittable, transform, world_box } => {
            lemma_instance_in_box(&**hittable, *transform, *world_box, ray, lo, hi);
        },
        Hittable::MovingInstance { hittable, transform_0, transform_1, time_0, time_1,
            world_box } => {
            lemma_interpolate_wf(*transform_0, *transform_1, *time_0, *time_1, ray.time);
            lemma_instance_in_box(&**hittable, transform_at_spec(*transform_0, *transform_1,
                *time_0, *time_1, ray.time), *world_box, ray, lo, hi);
        },
        Hittable::ConstantMedium { .. } => {},
    }
}

/// The window/box property for the shared instance semantics.
proof fn lemma_instance_in_box(
    child: &Hittable, tr: Transform, wbox: Option<AABB>, ray: Ray, lo: TParam, hi: TParam,
)
    requires
        child.wf(),
        tr.wf(),
        ray.wf(),
        lo.wf(),
        hi.wf(),
        det(*child),
    ensures
        instance_hit_spec(*child, tr, wbox, ray, lo, hi) matches Some(rec) ==> {
            &&& rec.t.interior()
            &&& crate::tparam::t_lt(lo, rec.t)
            &&& crate::tparam::t_lt(rec.t, hi)
            &&& (wbox matches Some(b) ==> crate::aabb::ray_strictly_inside(
                b, ray, rec.t.num as int, rec.t.den as int))
        },
    decreases child, 1int,
{
    let lray = local_ray(tr, ray);
    if !lray.direction.is_zero() {
        assert(lray.wf());
        lemma_hit_of_in_box(child, lray, lo, hi);
    }
}

/// The window/box property threaded through the linear scan.
proof fn lemma_list_from_in_box(
    s: Seq<Arc<Hittable>>, i: int, ray: Ray, lo: TParam, hi: TParam, best: Option<HitRecord>,
)
    requires
        forall|j: int| 0 <= j < s.len() ==> (*#[trigger] s[j]).wf(),
        forall|j: int| 0 <= j < s.len() ==> det(*#[trigger] s[j]),
        ray.wf(),
        lo.wf(),
        hi.wf(),
        0 <= i <= s.len(),
        best matches Some(b) ==> {
            &&& b.t.interior()
            &&& crate::tparam::t_lt(lo, b.t)
            &&& crate::tparam::t_lt(b.t, hi)
            &&& (boxes_union(s) matches Some(u) ==> crate::aabb::ray_strictly_inside(
                u, ray, b.t.num as int, b.t.den as int))
        },
    ensures
        list_hit_from(s, i, ray, lo, hi, best) matches Some(rec) ==> {
            &&& rec.t.interior()
            &&& crate::tparam::t_lt(lo, rec.t)
            &&& crate::tparam::t_lt(rec.t, hi)
            &&& (boxes_union(s) matches Some(u) ==> crate::aabb::ray_strictly_inside(
                u, ray, rec.t.num as int, rec.t.den as int))
        },
    decreases s, (s.len() - i) as nat, 2int,
{
    if 0 <= i < s.len() {
        let cur_hi = match best {
            Some(b) => b.t,
            None => hi,
        };
        lemma_hit_of_in_box(&*s[i], ray, lo, cur_hi);
        let r = hit_of_arc(&s[i], ray, lo, cur_hi);
        match r {
            Some(rec) => {
                if best is Some {
                    crate::tparam::lemma_t_lt_trans(rec.t, best->Some_0.t, hi);
                }
                if boxes_union(s) is Some {
                    lemma_member_box_within(s, i);
                    lemma_strict_inside_mono(box_of_arc(&s[i])->Some_0, boxes_union(s)->Some_0,
                        ray, rec.t.num as int, rec.t.den as int);
                }
                lemma_list_from_in_box(s, i + 1, ray, lo, hi, Some(rec));
            },
            None => {
                lemma_list_from_in_box(s, i + 1, ray, lo, hi, best);
            },
        }
    }
}

/// Fixed bounds on the sphere equation's coefficients, so candidate
/// parameters are representable.
pub(crate) proof fn lemma_sphere_coeff_bounds(center: Point3, radius: i64, ray: Ray)
    requires
        center.wf(),
        ray.wf(),
        1 <= radius,
        in_coord(radius as int),
    ensures
        0 < sphere_a(ray) <= 0x400_0000_0000_0000,
        -0x800_0000_0000_0000 <= sphere_hb(center, ray) <= 0x800_0000_0000_0000,
        -0x1000_0000_0000_0000 <= sphere_c2(center, radius, ray) <= 0x1000_0000_0000_0000,
        sphere_delta(center, radius, ray)
            <= 0x80_0000_0000_0000_0000_0000_0000_0000,
        sphere_delta(center, radius, ray) >= 0 ==> crate::fx::sqrt_floor(
            sphere_delta(center, radius, ray) as nat) < 0x1000_0000_0000_0000,
{
    crate::vec3::lemma_self_dot_nonneg(ray.direction);
    crate::vec3::lemma_dot_bound(ray.direction, ray.direction, COORD_MAX as int,
        COORD_MAX as int);
    crate::tparam::lemma_abs_product_bound(ray.direction.x as int,
        ray.origin.x - center.x, COORD_MAX as int, 2 * COORD_MAX as int);
    crate::tparam::lemma_abs_product_bound(ray.direction.y as int,
        ray.origin.y - center.y, COORD_MAX as int, 2 * COORD_MAX as int);
    crate::tparam::lemma_abs_product_bound(ray.direction.z as int,
        ray.origin.z - center.z, COORD_MAX as int, 2 * COORD_MAX as int);
    crate::tparam::lemma_abs_product_bound(ray.origin.x - center.x,
        ray.origin.x - center.x, 2 * COORD_MAX as int, 2 * COORD_MAX as int);
    crate::tparam::lemma_abs_product_bound(ray.origin.y - center.y,
        ray.origin.y - center.y, 2 * COORD_MAX as int, 2 * COORD_MAX as int);
    crate::tparam::lemma_abs_product_bound(ray.origin.z - center.z,
        ray.origin.z - center.z, 2 * COORD_MAX as int, 2 * COORD_MAX as int);
    crate::tparam::lemma_abs_product_bound(radius as int, radius as int,
        COORD_MAX as int, COORD_MAX as int);
    crate::tparam::lemma_abs_product_bound(sphere_hb(center, ray),
        sphere_hb(center, ray), 0x800_0000_0000_0000, 0x800_0000_0000_0000);
    crate::tparam::lemma_abs_product_bound(sphere_a(ray),
        sphere_c2(center, radius, ray), 0x400_0000_0000_0000, 0x1000_0000_0000_0000);
    let delta = sphere_delta(center, radius, ray);
    if delta >= 0 {
        crate::fx::lemma_sqrt_floor_bracket(delta as nat);
        let s = crate::fx::sqrt_floor(delta as nat);
        assert(s < 0x1000_0000_0000_0000) by (nonlinear_arith)
            requires
                s * s <= delta,
                delta <= 0x80_0000_0000_0000_0000_0000_0000_0000,
                s >= 0,
        ;
    }
}

/// The wf of an interpolated transform at a clamped time fraction.
proof fn lemma_interpolate_wf(
    tr0: Transform, tr1: Transform, time_0: i64, time_1: i64, time: i64,
)
    requires
        tr0.wf(),
        tr1.wf(),
        time_0 < time_1,
        in_coord(time_0 as int),
        in_coord(time_1 as int),
    ensures
        transform_at_spec(tr0, tr1, time_0, time_1, time).wf(),
{
    let f = time_frac(time_0, time_1, time);
    let tn = f.num as int;
    let td = f.den as int;
    crate::vec3::lemma_lerp_bounds(tr0.translation.x as int, tr1.translation.x as int, tn, td);
    crate::vec3::lemma_lerp_bounds(tr0.translation.y as int, tr1.translation.y as int, tn, td);
    crate::vec3::lemma_lerp_bounds(tr0.translation.z as int, tr1.translation.z as int, tn, td);
    crate::vec3::lemma_lerp_bounds(tr0.scale.x as int, tr1.scale.x as int, tn, td);
    crate::vec3::lemma_lerp_bounds(tr0.scale.y as int, tr1.scale.y as int, tn, td);
    crate::vec3::lemma_lerp_bounds(tr0.scale.z as int, tr1.scale.z as int, tn, td);
}


/// The window/box property for a sphere's reported intersection.
proof fn lemma_sphere_in_box(
    center: Point3, radius: i64, material: Arc<Material>, ray: Ray, lo: TParam, hi: TParam,
)
    requires
        center.wf(),
        ray.wf(),
        lo.wf(),
        hi.wf(),
        1 <= radius,
        in_coord(radius as int),
    ensures
        sphere_hit_spec(center, radius, material, ray, lo, hi) matches Some(rec) ==> {
            &&& rec.t.interior()
            &&& crate::tparam::t_lt(lo, rec.t)
            &&& crate::tparam::t_lt(rec.t, hi)
            &&& crate::aabb::ray_strictly_inside(sphere_box(center, radius), ray,
                rec.t.num as int, rec.t.den as int)
        },
{
    lemma_sphere_coeff_bounds(center, radius, ray);
    let delta = sphere_delta(center, radius, ray);
    if delta >= 0 {
        let a = sphere_a(ray);
        let hb = sphere_hb(center, ray);
        let sq = crate::fx::sqrt_floor(delta as nat) as int;
        let t1 = -hb - sq;
        let t2 = -hb + sq;
        assert((t1 as i128) as int == t1);
        assert((t2 as i128) as int == t2);
        assert((a as i128) as int == a);
    }
}

/// The window/box property for a rectangle's reported intersection.
proof fn lemma_rect_in_box(
    plane: Plane, a0: i64, a1: i64, b0: i64, b1: i64, k: i64, material: Arc<Material>,
    ray: Ray, lo: TParam, hi: TParam,
)
    requires
        ray.wf(),
        lo.wf(),
        hi.wf(),
        a0 <= a1,
        b0 <= b1,
        in_coord(a0 - BOX_PAD),
        in_coord(a1 + BOX_PAD),
        in_coord(b0 - BOX_PAD),
        in_coord(b1 + BOX_PAD),
        in_coord(k - BOX_PAD),
        in_coord(k + BOX_PAD),
    ensures
        rect_hit_spec(plane, a0, a1, b0, b1, k, material, ray, lo, hi) matches Some(rec)
            ==> {
            &&& rec.t.interior()
            &&& crate::tparam::t_lt(lo, rec.t)
            &&& crate::tparam::t_lt(rec.t, hi)
            &&& crate::aabb::ray_strictly_inside(rect_box(plane, a0 as int, a1 as int,
                b0 as int, b1 as int, k as int), ray, rec.t.num as int, rec.t.den as int)
        },
{
    let dk = plane_k(plane, ray.direction);
    let ok = plane_k(plane, ray.origin);
    if dk != 0 {
        let tn = if dk > 0 { k - ok } else { ok - k };
        let td = if dk > 0 { dk } else { -dk };
        assert((tn as i128) as int == tn);
        assert((td as i128) as int == td);
        let pa = crate::ray::point_num(plane_a(plane, ray.origin),
            plane_a(plane, ray.direction), tn, td);
        let pb = crate::ray::point_num(plane_b(plane, ray.origin),
            plane_b(plane, ray.direction), tn, td);
        if in_win(lo, hi, tn, td) && a0 * td <= pa <= a1 * td && b0 * td <= pb <= b1 * td {
            lemma_axis_pad(a0 as int, a1 as int, plane_a(plane, ray.origin),
                plane_a(plane, ray.direction), tn, td);
            lemma_axis_pad(b0 as int, b1 as int, plane_b(plane, ray.origin),
                plane_b(plane, ray.direction), tn, td);
            lemma_k_axis_pad(k as int, ok, dk, tn, td);
        }
    }
}

/// A point within the closed slab lies strictly within the padded slab.
proof fn lemma_axis_pad(lo_b: int, hi_b: int, o: int, d: int, tn: int, td: int)
    requires
        td >= 1,
        lo_b * td <= crate::ray::point_num(o, d, tn, td),
        crate::ray::point_num(o, d, tn, td) <= hi_b * td,
    ensures
        crate::aabb::axis_strictly_inside(lo_b - BOX_PAD as int, hi_b + BOX_PAD as int,
            o, d, tn, td),
{
    let p = crate::ray::point_num(o, d, tn, td);
    assert((lo_b - BOX_PAD as int) * td < p && p < (hi_b + BOX_PAD as int) * td)
        by (nonlinear_arith)
        requires
            td >= 1,
            lo_b * td <= p,
            p <= hi_b * td,
            BOX_PAD >= 1,
    ;
}

/// The plane crossing sits exactly on the plane, strictly inside the padded
/// slab around it.
proof fn lemma_k_axis_pad(k: int, o: int, d: int, tn: int, td: int)
    requires
        d != 0,
        d > 0 ==> tn == k - o && td == d,
        d < 0 ==> tn == o - k && td == -d,
    ensures
        crate::aabb::axis_strictly_inside(k - BOX_PAD as int, k + BOX_PAD as int, o, d, tn,
            td),
{
    assert(crate::ray::point_num(o, d, tn, td) == k * td) by (nonlinear_arith)
        requires
            d != 0,
            d > 0 ==> tn == k - o && td == d,
            d < 0 ==> tn == o - k && td == -d,
    ;
    assert((k - BOX_PAD as int) * td < k * td && k * td < (k + BOX_PAD as int) * td)
        by (nonlinear_arith)
        requires
            td >= 1,
            BOX_PAD >= 1,
    ;
}

/// Exact strict box membership of the rational ray point.
fn point_strict_in(b: &AABB, ray: &Ray, tn: i128, td: i128) -> (r: bool)
    requires
        b.wf(),
        ray.wf(),
        1 <= td <= crate::tparam::T_DEN_MAX,
        -crate::tparam::T_NUM_MAX <= tn <= crate::tparam::T_NUM_MAX,
    ensures
        r == crate::aabb::ray_strictly_inside(*b, *ray, tn as int, td as int),
{
    let ax = axis_strict_in(b.min.x, b.max.x, ray.origin.x, ray.direction.x, tn, td);
    let ay = axis_strict_in(b.min.y, b.max.y, ray.origin.y, ray.direction.y, tn, td);
    let az = axis_strict_in(b.min.z, b.max.z, ray.origin.z, ray.direction.z, tn, td);
    ax && ay && az
}

fn axis_strict_in(bmin: i64, bmax: i64, o: i64, d: i64, tn: i128, td: i128) -> (r: bool)
    requires
        in_coord(bmin as int),
        in_coord(bmax as int),
        in_coord(o as int),
        in_coord(d as int),
        1 <= td <= crate::tparam::T_DEN_MAX,
        -crate::tparam::T_NUM_MAX <= tn <= crate::tparam::T_NUM_MAX,
    ensures
        r == crate::aabb::axis_strictly_inside(bmin as int, bmax as int, o as int, d as int,
            tn as int, td as int),
{
    proof {
        crate::tparam::lemma_abs_product_bound(bmin as int, td as int, COORD_MAX as int,
            crate::tparam::T_DEN_MAX as int);
        crate::tparam::lemma_abs_product_bound(bmax as int, td as int, COORD_MAX as int,
            crate::tparam::T_DEN_MAX as int);
        crate::tparam::lemma_abs_product_bound(o as int, td as int, COORD_MAX as int,
            crate::tparam::T_DEN_MAX as int);
        crate::tparam::lemma_abs_product_bound(tn as int, d as int,
            crate::tparam::T_NUM_MAX as int, COORD_MAX as int);
    }
    let pn: i128 = (o as i128) * td + tn * (d as i128);
    (bmin as i128) * td < pn && pn < (bmax as i128) * td
}

/// A clamped lattice fraction.
fn frac_fx(num: i64, den: i64) -> (r: i64)
    requires
        -0x4000_0000 <= num <= 0x4000_0000,
        den <= 0x4000_0000,
    ensures
        r == frac_fx_spec(num as int, den as int),
        0 <= r <= FX_ONE,
{
    if den <= 0 {
        0
    } else {
        proof {
            crate::tparam::lemma_abs_product_bound(num as int, FX_ONE as int,
                0x4000_0000, FX_ONE as int);
        }
        let q = crate::fx::div_floor_i128((num as i128) * (FX_ONE as i128), den as i128);
        if q < 0 {
            0
        } else if q > FX_ONE as i128 {
            FX_ONE
        } else {
            q as i64
        }
    }
}

/// The plane accessors, executable.
fn plane_a_of(plane: &Plane, v: &Vec3) -> (r: i64)
    ensures
        r == plane_a(*plane, *v),
{
    match plane {
        Plane::XY => v.x,
        Plane::XZ => v.x,
        Plane::YZ => v.y,
    }
}

fn plane_b_of(plane: &Plane, v: &Vec3) -> (r: i64)
    ensures
        r == plane_b(*plane, *v),
{
    match plane {
        Plane::XY => v.y,
        Plane::XZ => v.z,
        Plane::YZ => v.z,
    }
}

fn plane_k_of(plane: &Plane, v: &Vec3) -> (r: i64)
    ensures
        r == plane_k(*plane, *v),
{
    match plane {
        Plane::XY => v.z,
        Plane::XZ => v.y,
        Plane::YZ => v.x,
    }
}

/// A sphere's intersection: the exact quadratic, an integer square root,
/// and the near-then-far candidate order of the classic algorithm.
fn sphere_hit(
    center: &Point3, radius: i64, material: &Arc<Material>, ray: &Ray, lo: &TParam,
    hi: &TParam,
) -> (r: Option<HitRecord>)
    requires
        (**material).wf(),
        center.wf(),
        1 <= radius,
        radius + BOX_PAD <= COORD_MAX,
        in_coord(center.x - radius - BOX_PAD),
        in_coord(center.x + radius + BOX_PAD),
        in_coord(center.y - radius - BOX_PAD),
        in_coord(center.y + radius + BOX_PAD),
        in_coord(center.z - radius - BOX_PAD),
        in_coord(center.z + radius + BOX_PAD),
        ray.wf(),
        lo.wf(),
        hi.wf(),
    ensures
        r == sphere_hit_spec(*center, radius, *material, *ray, *lo, *hi),
        r matches Some(rec) ==> rec.wf() && rec.material == *material,
{
    proof {
        lemma_sphere_coeff_bounds(*center, radius, *ray);
        crate::tparam::lemma_abs_product_bound(ray.direction.x as int,
            ray.origin.x - center.x, COORD_MAX as int, 2 * COORD_MAX as int);
        crate::tparam::lemma_abs_product_bound(ray.direction.y as int,
            ray.origin.y - center.y, COORD_MAX as int, 2 * COORD_MAX as int);
        crate::tparam::lemma_abs_product_bound(ray.direction.z as int,
            ray.origin.z - center.z, COORD_MAX as int, 2 * COORD_MAX as int);
        crate::tparam::lemma_abs_product_bound(ray.origin.x - center.x,
            ray.origin.x - center.x, 2 * COORD_MAX as int, 2 * COORD_MAX as int);
        crate::tparam::lemma_abs_product_bound(ray.origin.y - center.y,
            ray.origin.y - center.y, 2 * COORD_MAX as int, 2 * COORD_MAX as int);
        crate::tparam::lemma_abs_product_bound(ray.origin.z - center.z,
            ray.origin.z - center.z, 2 * COORD_MAX as int, 2 * COORD_MAX as int);
        crate::tparam::lemma_abs_product_bound(radius as int, radius as int,
            COORD_MAX as int, COORD_MAX as int);
    }
    let a: i128 = Vec3::dot(&ray.direction, &ray.direction);
    let ocx = ray.origin.x - center.x;
    let ocy = ray.origin.y - center.y;
    let ocz = ray.origin.z - center.z;
    let hb: i128 = (ray.direction.x as i128) * (ocx as i128)
        + (ray.direction.y as i128) * (ocy as i128)
        + (ray.direction.z as i128) * (ocz as i128);
    let c2: i128 = (ocx as i128) * (ocx as i128) + (ocy as i128) * (ocy as i128)
        + (ocz as i128) * (ocz as i128) - (radius as i128) * (radius as i128);
    proof {
        assert(hb == sphere_hb(*center, *ray));
        assert(c2 == sphere_c2(*center, radius, *ray));
        crate::tparam::lemma_abs_product_bound(hb as int, hb as int,
            0x800_0000_0000_0000, 0x800_0000_0000_0000);
        crate::tparam::lemma_abs_product_bound(a as int, c2 as int,
            0x400_0000_0000_0000, 0x1000_0000_0000_0000);
    }
    let delta: i128 = hb * hb - a * c2;
    if delta < 0 {
        return None;
    }
    let s = crate::fx::isqrt_u128(delta as u128) as i128;
    let t1 = -hb - s;
    let r1 = sphere_try(center, radius, material, ray, lo, hi, t1, a);
    if r1.is_some() {
        return r1;
    }
    let t2 = -hb + s;
    sphere_try(center, radius, material, ray, lo, hi, t2, a)
}

/// One sphere candidate: window test, strict padded-box test, rounded
/// point, and the record.
fn sphere_try(
    center: &Point3, radius: i64, material: &Arc<Material>, ray: &Ray, lo: &TParam,
    hi: &TParam, tn: i128, td: i128,
) -> (r: Option<HitRecord>)
    requires
        (**material).wf(),
        center.wf(),
        1 <= radius,
        radius + BOX_PAD <= COORD_MAX,
        in_coord(center.x - radius - BOX_PAD),
        in_coord(center.x + radius + BOX_PAD),
        in_coord(center.y - radius - BOX_PAD),
        in_coord(center.y + radius + BOX_PAD),
        in_coord(center.z - radius - BOX_PAD),
        in_coord(center.z + radius + BOX_PAD),
        ray.wf(),
        lo.wf(),
        hi.wf(),
        -0x2000_0000_0000_0000 <= tn <= 0x2000_0000_0000_0000,
        1 <= td <= 0x400_0000_0000_0000,
    ensures
        r == (if sphere_accepts(*center, radius, *ray, *lo, *hi, tn as int, td as int) {
            Some(sphere_record(*center, radius, *material, *ray, tn as int, td as int))
        } else {
            None
        }),
        r matches Some(rec) ==> rec.wf() && rec.material == *material,
{
    let t = TParam { num: tn, den: td };
    if !(lo.lt(&t) && t.lt(hi)) {
        return None;
    }
    let b = AABB {
        min: Vec3 {
            x: center.x - radius - BOX_PAD,
            y: center.y - radius - BOX_PAD,
            z: center.z - radius - BOX_PAD,
        },
        max: Vec3 {
            x: center.x + radius + BOX_PAD,
            y: center.y + radius + BOX_PAD,
            z: center.z + radius + BOX_PAD,
        },
    };
    proof {
        assert(b == sphere_box(*center, radius));
    }
    if !point_strict_in(&b, ray, tn, td) {
        return None;
    }
    let p = ray.at(&t);
    proof {
        assert(p == at_point(*ray, tn as int, td as int));
        lemma_at_point_in_box(b, *ray, tn as int, td as int);
    }
    if p.x == center.x && p.y == center.y && p.z == center.z {
        return None;
    }
    let normal = Vec3 { x: p.x - center.x, y: p.y - center.y, z: p.z - center.z };
    let u = frac_fx(p.x - center.x + radius, 2 * radius);
    let v = frac_fx(p.y - center.y + radius, 2 * radius);
    Some(HitRecord { point: p, normal, material: crate::shared::clone_arc(material), t, u, v })
}

/// A rectangle's intersection: the exact rational plane crossing and exact
/// in-bounds tests; a zero perpendicular direction component reports no
/// intersection.
#[verifier::rlimit(60)]
fn rect_hit(
    plane: &Plane, a0: i64, a1: i64, b0: i64, b1: i64, k: i64, material: &Arc<Material>,
    ray: &Ray, lo: &TParam, hi: &TParam,
) -> (r: Option<HitRecord>)
    requires
        (**material).wf(),
        a0 <= a1,
        b0 <= b1,
        in_coord(a0 - BOX_PAD),
        in_coord(a1 + BOX_PAD),
        in_coord(b0 - BOX_PAD),
        in_coord(b1 + BOX_PAD),
        in_coord(k - BOX_PAD),
        in_coord(k + BOX_PAD),
        ray.wf(),
        lo.wf(),
        hi.wf(),
    ensures
        r == rect_hit_spec(*plane, a0, a1, b0, b1, k, *material, *ray, *lo, *hi),
        r matches Some(rec) ==> rec.wf() && rec.material == *material,
{
    let dk = plane_k_of(plane, &ray.direction);
    let ok = plane_k_of(plane, &ray.origin);
    if dk == 0 {
        return None;
    }
    let tn: i128 = if dk > 0 { (k as i128) - (ok as i128) } else { (ok as i128) - (k as i128) };
    let td: i128 = if dk > 0 { dk as i128 } else { -(dk as i128) };
    let t = TParam { num: tn, den: td };
    let oa = plane_a_of(plane, &ray.origin);
    let da = plane_a_of(plane, &ray.direction);
    let ob = plane_b_of(plane, &ray.origin);
    let db = plane_b_of(plane, &ray.direction);
    proof {
        crate::tparam::lemma_abs_product_bound(oa as int, td as int, COORD_MAX as int,
            COORD_MAX as int);
        crate::tparam::lemma_abs_product_bound(ob as int, td as int, COORD_MAX as int,
            COORD_MAX as int);
        crate::tparam::lemma_abs_product_bound(tn as int, da as int, 2 * COORD_MAX as int,
            COORD_MAX as int);
        crate::tparam::lemma_abs_product_bound(tn as int, db as int, 2 * COORD_MAX as int,
            COORD_MAX as int);
        crate::tparam::lemma_abs_product_bound(a0 as int, td as int, COORD_MAX as int,
            COORD_MAX as int);
        crate::tparam::lemma_abs_product_bound(a1 as int, td as int, COORD_MAX as int,
            COORD_MAX as int);
        crate::tparam::lemma_abs_product_bound(b0 as int, td as int, COORD_MAX as int,
            COORD_MAX as int);
        crate::tparam::lemma_abs_product_bound(b1 as int, td as int, COORD_MAX as int,
            COORD_MAX as int);
    }
    let pa: i128 = (oa as i128) * td + tn * (da as i128);
    let pb: i128 = (ob as i128) * td + tn * (db as i128);
    let in_window = lo.lt(&t) && t.lt(hi);
    let in_bounds = (a0 as i128) * td <= pa && pa <= (a1 as i128) * td
        && (b0 as i128) * td <= pb && pb <= (b1 as i128) * td;
    if !(in_window && in_bounds) {
        return None;
    }
    let p = ray.at(&t);
    proof {
        assert(p == at_point(*ray, tn as int, td as int));
        lemma_rect_in_box(*plane, a0, a1, b0, b1, k, material.clone(), *ray, *lo, *hi);
        lemma_at_point_in_box(rect_box(*plane, a0 as int, a1 as int, b0 as int, b1 as int,
            k as int), *ray, tn as int, td as int);
    }
    let normal = match plane {
        Plane::XY => Vec3 { x: 0, y: 0, z: FX_ONE },
        Plane::XZ => Vec3 { x: 0, y: FX_ONE, z: 0 },
        Plane::YZ => Vec3 { x: FX_ONE, y: 0, z: 0 },
    };
    let pa_p = plane_a_of(plane, &p);
    let pb_p = plane_b_of(plane, &p);
    let u = frac_fx(pa_p - a0, a1 - a0);
    let v = frac_fx(pb_p - b0, b1 - b0);
    Some(HitRecord { point: p, normal, material: crate::shared::clone_arc(material), t, u, v })
}


impl Hittable {
    /// The nearest intersection of the ray strictly inside the open window
    /// `(t_min, t_max)`.  For deterministic scenes the result is pinned to
    /// `hit_of`; in every case a reported hit lies strictly inside the
    /// window and, when this hittable declares a box, strictly inside it.
    pub fn hit(
        &self,
        ray: &Ray,
        t_min: &TParam,
        t_max: &TParam,
        rng: &mut rand::rngs::ThreadRng,
    ) -> (r: Option<HitRecord>)
        requires
            self.wf(),
            ray.wf(),
            t_min.wf(),
            t_max.wf(),
        ensures
            det(*self) ==> r == hit_of(*self, *ray, *t_min, *t_max),
            r matches Some(rec) ==> {
                &&& rec.wf()
                &&& crate::tparam::t_lt(*t_min, rec.t)
                &&& crate::tparam::t_lt(rec.t, *t_max)
                &&& (box_of(*self) matches Some(b) ==> crate::aabb::ray_strictly_inside(
                    b, *ray, rec.t.num as int, rec.t.den as int))
            },
        decreases *self, 0int,
    {
        match self {
            Hittable::Sphere { center, radius, material } => {
                let r = sphere_hit(center, *radius, material, ray, t_min, t_max);
                proof {
                    lemma_sphere_in_box(*center, *radius, h_sphere_material(self), *ray,
                        *t_min, *t_max);
                }
                r
            },
            Hittable::Rect { plane, a0, a1, b0, b1, k, material } => {
                let r = rect_hit(plane, *a0, *a1, *b0, *b1, *k, material, ray, t_min, t_max);
                proof {
                    lemma_rect_in_box(*plane, *a0, *a1, *b0, *b1, *k, h_rect_material(self),
                        *ray, *t_min, *t_max);
                }
                r
            },
            Hittable::List { hittables } => {
                let n = hittables.len();
                let mut best: Option<HitRecord> = None;
                let mut i: usize = 0;
                while i < n
                    invariant
                        (*self) is List,
                        self->List_hittables == *hittables,
                        self.wf(),
                        ray.wf(),
                        t_min.wf(),
                        t_max.wf(),
                        i <= n,
                        n == hittables@.len(),
                        det(*self) ==> list_hit_from(hittables@, i as int, *ray, *t_min,
                            *t_max, best) == hit_of(*self, *ray, *t_min, *t_max),
                        best matches Some(rec) ==> {
                            &&& rec.wf()
                            &&& crate::tparam::t_lt(*t_min, rec.t)
                            &&& crate::tparam::t_lt(rec.t, *t_max)
                            &&& (box_of(*self) matches Some(b)
                                ==> crate::aabb::ray_strictly_inside(b, *ray,
                                rec.t.num as int, rec.t.den as int))
                        },
                    decreases n - i,
                {
                    proof {
                        assert(decreases_to!(*self => self->List_hittables));
                        assert(decreases_to!(*hittables => hittables@));
                        assert(decreases_to!(hittables@ => hittables@[i as int]));
                        assert((*hittables@[i as int]).wf());
                        if det(*self) {
                            assert(det(*hittables@[i as int]));
                        }
                    }
                    let ghost prev_best = best;
                    let cur_hi = match &best {
                        Some(b) => b.t,
                        None => *t_max,
                    };
                    let r = hittables[i].hit(ray, t_min, &cur_hi, rng);
                    proof {
                        if det(*self) {
                            assert(cur_hi == match prev_best {
                                Some(b) => b.t,
                                None => *t_max,
                            });
                            assert(r == hit_of_arc(&hittables@[i as int], *ray, *t_min,
                                cur_hi));
                            assert(list_hit_from(hittables@, i as int, *ray, *t_min,
                                *t_max, prev_best) == list_hit_from(hittables@,
                                i as int + 1, *ray, *t_min, *t_max,
                                if r is Some { r } else { prev_best }));
                        }
                        if r is Some {
                            let rec = r->Some_0;
                            if best is Some {
                                crate::tparam::lemma_t_lt_trans(rec.t, best->Some_0.t,
                                    *t_max);
                            }
                            if box_of(*self) is Some {
                                lemma_member_box_within(hittables@, i as int);
                                lemma_strict_inside_mono(box_of_arc(
                                    &hittables@[i as int])->Some_0,
                                    box_of(*self)->Some_0, *ray, rec.t.num as int,
                                    rec.t.den as int);
                            }
                        }
                    }
                    if r.is_some() {
                        best = r;
                    }
                    i = i + 1;
                }
                best
            },
            Hittable::Bvh { bbox, left, right } => {
                if !bbox.hit(ray, t_min, t_max) {
                    proof {
                        if det(*self) {
                            lemma_hit_of_in_box(&**left, *ray, *t_min, *t_max);
                            if hit_of_arc(left, *ray, *t_min, *t_max) is Some {
                                let lrec = hit_of_arc(left, *ray, *t_min, *t_max)->Some_0;
                                lemma_strict_inside_mono(box_of_arc(left)->Some_0, *bbox,
                                    *ray, lrec.t.num as int, lrec.t.den as int);
                                assert(crate::aabb::in_open_win(*t_min, *t_max,
                                    lrec.t.num as int, lrec.t.den as int));
                                assert(false);
                            }
                            lemma_hit_of_in_box(&**right, *ray, *t_min, *t_max);
                            if hit_of_arc(right, *ray, *t_min, *t_max) is Some {
                                let rrec = hit_of_arc(right, *ray, *t_min, *t_max)->Some_0;
                                lemma_strict_inside_mono(box_of_arc(right)->Some_0, *bbox,
                                    *ray, rrec.t.num as int, rrec.t.den as int);
                                assert(crate::aabb::in_open_win(*t_min, *t_max,
                                    rrec.t.num as int, rrec.t.den as int));
                                assert(false);
                            }
                        }
                    }
                    return None;
                }
                let lres = left.hit(ray, t_min, t_max, rng);
                match lres {
                    Some(lrec) => {
                        let lt = lrec.t;
                        let rres = right.hit(ray, t_min, &lt, rng);
                        match rres {
                            Some(rrec) => {
                                proof {
                                    crate::tparam::lemma_t_lt_trans(rrec.t, lrec.t, *t_max);
                                    lemma_strict_inside_mono(box_of_arc(right)->Some_0,
                                        *bbox, *ray, rrec.t.num as int, rrec.t.den as int);
                                }
                                Some(rrec)
                            },
                            None => {
                                proof {
                                    lemma_strict_inside_mono(box_of_arc(left)->Some_0,
                                        *bbox, *ray, lrec.t.num as int, lrec.t.den as int);
                                }
                                Some(lrec)
                            },
                        }
                    },
                    None => {
                        let rres = right.hit(ray, t_min, t_max, rng);
                        proof {
                            if rres is Some {
                                let rrec = rres->Some_0;
                                lemma_strict_inside_mono(box_of_arc(right)->Some_0, *bbox,
                                    *ray, rrec.t.num as int, rrec.t.den as int);
                            }
                        }
                        rres
                    },
                }
            },
            Hittable::Instance { hittable, transform, world_box } => {
                hit_through_transform(hittable, transform, world_box, ray, t_min, t_max, rng)
            },
            Hittable::MovingInstance { hittable, transform_0, transform_1, time_0, time_1,
                world_box } => {
                let f = time_frac_exec(*time_0, *time_1, ray.time);
                let tr = Transform::interpolate(*transform_0, *transform_1, f);
                proof {
                    assert(tr == transform_at_spec(*transform_0, *transform_1, *time_0,
                        *time_1, ray.time));
                }
                hit_through_transform(hittable, &tr, world_box, ray, t_min, t_max, rng)
            },
            Hittable::ConstantMedium { boundary, density, phase_function, world_box } => {
                medium_hit(boundary, *density, phase_function, world_box, ray, t_min, t_max,
                    rng)
            },
        }
    }
}

/// A field accessor for proofs.
pub open spec fn h_sphere_material(h: &Hittable) -> Arc<Material> {
    h->Sphere_material
}

/// A field accessor for proofs.
pub open spec fn h_rect_material(h: &Hittable) -> Arc<Material> {
    h->Rect_material
}

/// The clamped inverse linear interpolation of a shutter time.
fn time_frac_exec(time_0: i64, time_1: i64, time: i64) -> (r: TParam)
    requires
        in_coord(time_0 as int),
        in_coord(time_1 as int),
        in_coord(time as int),
        time_0 < time_1,
    ensures
        r == time_frac(time_0, time_1, time),
        r.wf(),
        0 <= r.num <= r.den,
{
    let d = time_1 - time_0;
    let n0 = time - time_0;
    let n = if n0 < 0 { 0 } else if n0 > d { d } else { n0 };
    TParam { num: n as i128, den: d as i128 }
}

/// The shared intersection path of fixed and moving instances: map the ray
/// into local space, intersect the child, re-express the record in world
/// space, and clip it to the declared world box.
fn hit_through_transform(
    child: &Arc<Hittable>,
    tr: &Transform,
    world_box: &Option<AABB>,
    ray: &Ray,
    t_min: &TParam,
    t_max: &TParam,
    rng: &mut rand::rngs::ThreadRng,
) -> (r: Option<HitRecord>)
    requires
        (**child).wf(),
        tr.wf(),
        *world_box matches Some(b) ==> b.wf(),
        ray.wf(),
        t_min.wf(),
        t_max.wf(),
    ensures
        det(**child) ==> r == instance_hit_spec(**child, *tr, *world_box, *ray, *t_min,
            *t_max),
        r matches Some(rec) ==> {
            &&& rec.wf()
            &&& crate::tparam::t_lt(*t_min, rec.t)
            &&& crate::tparam::t_lt(rec.t, *t_max)
            &&& (*world_box matches Some(b) ==> crate::aabb::ray_strictly_inside(
                b, *ray, rec.t.num as int, rec.t.den as int))
        },
    decreases **child, 1int,
{
    let lray = tr.inverse_transform_ray(*ray);
    proof {
        assert(lray == local_ray(*tr, *ray));
    }
    if lray.direction.x == 0 && lray.direction.y == 0 && lray.direction.z == 0 {
        return None;
    }
    let res = child.hit(&lray, t_min, t_max, rng);
    match res {
        Some(rec) => {
            let wn = tr.transform_vector(rec.normal);
            let wp = ray.at(&rec.t);
            let clip = match world_box {
                Some(b) => point_strict_in(b, ray, rec.t.num, rec.t.den),
                None => true,
            };
            if !(wn.x == 0 && wn.y == 0 && wn.z == 0) && clip {
                Some(HitRecord {
                    point: wp,
                    normal: wn,
                    material: rec.material,
                    t: rec.t,
                    u: rec.u,
                    v: rec.v,
                })
            } else {
                None
            }
        },
        None => None,
    }
}


/// What the medium reports once the free-path length is drawn: the sampled
/// depth measured from the clamped, grid-rounded entry of the boundary
/// interval; nothing if the draw overshoots the interval, leaves the
/// representable range, or lands outside the caller window or declared box.
pub open spec fn medium_given_spec(
    phase: Arc<Material>, wbox: Option<AABB>, ray: Ray, t_min: TParam, t_max: TParam,
    e_fx: int, x_fx: int, raylen: int, density: int, drawn: int,
) -> Option<HitRecord> {
    let one = FX_ONE as int;
    let dist_inside = ((x_fx - e_fx) * raylen) / one;
    let hit_distance = (drawn * one) / density;
    if hit_distance > dist_inside {
        None
    } else {
        let tn = e_fx + (hit_distance * one) / raylen;
        if tn > 0x10_0000_0000_0000 {
            None
        } else {
            let t = TParam { num: tn as i128, den: FX_ONE as i128 };
            if !(crate::tparam::t_lt(t_min, t) && crate::tparam::t_lt(t, t_max)) {
                None
            } else if !clip_ok(wbox, ray, t) {
                None
            } else {
                Some(HitRecord {
                    point: at_point(ray, tn, one),
                    normal: Vec3 { x: 0, y: FX_ONE, z: 0 },
                    material: phase,
                    t,
                    u: 0,
                    v: 0,
                })
            }
        }
    }
}

/// The medium's answer for a given free-path draw: exactly
/// `medium_given_spec`.
pub fn medium_scatter_given(
    phase_function: &Arc<Material>,
    world_box: &Option<AABB>,
    ray: &Ray,
    t_min: &TParam,
    t_max: &TParam,
    e_fx: i64,
    x_fx: i64,
    raylen: i64,
    density: i64,
    drawn: i64,
) -> (r: Option<HitRecord>)
    requires
        (**phase_function).wf(),
        *world_box matches Some(b) ==> b.wf(),
        ray.wf(),
        t_min.wf(),
        t_max.wf(),
        0 <= e_fx < x_fx <= 0x8_0000_0000_0000,
        1 <= raylen <= 0x4000_0000,
        1 <= density,
        in_coord(density as int),
        0 <= drawn <= 64 * FX_ONE as int,
    ensures
        r == medium_given_spec(*phase_function, *world_box, *ray, *t_min, *t_max,
            e_fx as int, x_fx as int, raylen as int, density as int, drawn as int),
        r matches Some(rec) ==> {
            &&& rec.wf()
            &&& crate::tparam::t_lt(*t_min, rec.t)
            &&& crate::tparam::t_lt(rec.t, *t_max)
            &&& (*world_box matches Some(b) ==> crate::aabb::ray_strictly_inside(
                b, *ray, rec.t.num as int, rec.t.den as int))
        },
{
    proof {
        crate::tparam::lemma_abs_product_bound((x_fx - e_fx) as int, raylen as int,
            0x10_0000_0000_0000, 0x4000_0000);
    }
    let span: i128 = ((x_fx as i128) - (e_fx as i128)) * (raylen as i128);
    let dist_inside = crate::fx::div_floor_i128(span, FX_ONE as i128);
    proof {
        crate::tparam::lemma_abs_product_bound(drawn as int, FX_ONE as int,
            64 * FX_ONE as int, FX_ONE as int);
    }
    let hit_distance = crate::fx::div_floor_i128((drawn as i128) * (FX_ONE as i128),
        density as i128);
    if hit_distance > dist_inside {
        return None;
    }
    proof {
        crate::tparam::lemma_abs_product_bound(hit_distance as int, FX_ONE as int,
            0x1_0000_0000_0000, FX_ONE as int);
    }
    let step = crate::fx::div_floor_i128(hit_distance * (FX_ONE as i128), raylen as i128);
    let tn = (e_fx as i128) + step;
    if tn > 0x10_0000_0000_0000 {
        return None;
    }
    let t = TParam { num: tn, den: FX_ONE as i128 };
    if !(t_min.lt(&t) && t.lt(t_max)) {
        return None;
    }
    let clip = match world_box {
        Some(b) => point_strict_in(b, ray, t.num, t.den),
        None => true,
    };
    if !clip {
        return None;
    }
    let p = ray.at(&t);
    Some(HitRecord {
        point: p,
        normal: Vec3 { x: 0, y: FX_ONE, z: 0 },
        material: crate::shared::clone_arc(phase_function),
        t,
        u: 0,
        v: 0,
    })
}

/// A constant-density medium: find where the ray enters and leaves the
/// boundary, draw a free-path length with exponential tails, and scatter at
/// the sampled depth if it falls inside.  Every reported hit lies strictly
/// inside the caller's window and the declared box.
fn medium_hit(
    boundary: &Arc<Hittable>,
    density: i64,
    phase_function: &Arc<Material>,
    world_box: &Option<AABB>,
    ray: &Ray,
    t_min: &TParam,
    t_max: &TParam,
    rng: &mut rand::rngs::ThreadRng,
) -> (r: Option<HitRecord>)
    requires
        (**boundary).wf(),
        1 <= density,
        in_coord(density as int),
        (**phase_function).wf(),
        *world_box matches Some(b) ==> b.wf(),
        ray.wf(),
        t_min.wf(),
        t_max.wf(),
    ensures
        r matches Some(rec) ==> {
            &&& rec.wf()
            &&& crate::tparam::t_lt(*t_min, rec.t)
            &&& crate::tparam::t_lt(rec.t, *t_max)
            &&& (*world_box matches Some(b) ==> crate::aabb::ray_strictly_inside(
                b, *ray, rec.t.num as int, rec.t.den as int))
        },
        r matches Some(rec) ==> {
            &&& rec.material == *phase_function
            &&& rec.normal == (Vec3 { x: 0, y: FX_ONE, z: 0 })
            &&& rec.u == 0
            &&& rec.v == 0
            &&& rec.t.den == FX_ONE as int
            &&& rec.point == at_point(*ray, rec.t.num as int, rec.t.den as int)
        },
        det(**boundary) && hit_of(**boundary, *ray, crate::tparam::t_below_all(),
            crate::tparam::t_above_all()) is None ==> r is None,
        det(**boundary) ==> match hit_of(**boundary, *ray, crate::tparam::t_below_all(),
            crate::tparam::t_above_all()) {
            Some(e1) => hit_of(**boundary, *ray, e1.t, crate::tparam::t_above_all())
                is None ==> r is None,
            None => true,
        },
        det(**boundary) ==> match hit_of(**boundary, *ray, crate::tparam::t_below_all(),
            crate::tparam::t_above_all()) {
            Some(e1) => match hit_of(**boundary, *ray, e1.t,
                crate::tparam::t_above_all()) {
                Some(e2) => ({
                    let zero = TParam { num: 0, den: 1 };
                    let m1 = if crate::tparam::t_le(*t_min, e1.t) { e1.t } else { *t_min };
                    let e0 = if crate::tparam::t_le(zero, m1) { m1 } else { zero };
                    let x0 = if crate::tparam::t_le(e2.t, *t_max) { e2.t } else { *t_max };
                    crate::tparam::t_le(x0, e0) ==> r is None
                }),
                None => true,
            },
            None => true,
        },
    decreases **boundary, 1int,
{
    let below = TParam::below_all();
    let above = TParam::above_all();
    let entry = match boundary.hit(ray, &below, &above, rng) {
        Some(h) => h,
        None => {
            return None;
        },
    };
    let exit = match boundary.hit(ray, &entry.t, &above, rng) {
        Some(h) => h,
        None => {
            return None;
        },
    };
    // Round the interval inward onto the lattice grid of parameters.
    let zero = TParam { num: 0, den: 1 };
    let e0 = entry.t.max_with(t_min).max_with(&zero);
    let x0 = exit.t.min_with(t_max);
    let e_fx = match param_to_grid_up(&e0) {
        Some(v) => v,
        None => {
            return None;
        },
    };
    let x_fx = match param_to_grid_down(&x0) {
        Some(v) => v,
        None => {
            return None;
        },
    };
    if e_fx >= x_fx {
        return None;
    }
    proof {
        if det_arc(boundary) {
            if crate::tparam::t_le(x0, e0) {
                lemma_grid_order(e0, x0);
                assert(false);
            }
        }
    }
    let a: i128 = Vec3::dot(&ray.direction, &ray.direction);
    proof {
        crate::vec3::lemma_dot_bound(ray.direction, ray.direction, COORD_MAX as int,
            COORD_MAX as int);
        crate::vec3::lemma_self_dot_nonneg(ray.direction);
    }
    let au: u128 = a as u128;
    let rl = crate::fx::isqrt_u128(au);
    proof {
        assert(rl as int <= 0x4000_0000) by (nonlinear_arith)
            requires
                (rl as int) * (rl as int) <= au as int,
                0 <= (au as int) <= 0x1000_0000_0000_0000,
                rl as int >= 0,
        ;
    }
    let raylen = rl as i64;
    if raylen < 1 {
        return None;
    }
    let drawn = crate::rng::rand_exponential(rng);
    medium_scatter_given(phase_function, world_box, ray, t_min, t_max, e_fx, x_fx, raylen,
        density, drawn)
}

/// The parameter rounded up onto the lattice grid, floored at zero.
pub open spec fn grid_up_spec(t: TParam) -> int {
    let v = crate::fx::ceil_div(t.num as int * FX_ONE as int, t.den as int);
    if v < 0 {
        0
    } else {
        v
    }
}

/// The parameter rounded down onto the lattice grid, floored at zero.
pub open spec fn grid_down_spec(t: TParam) -> int {
    let v = (t.num as int * FX_ONE as int) / (t.den as int);
    if v < 0 {
        0
    } else {
        v
    }
}

/// Rounding a larger parameter up and a smaller one down cannot cross.
proof fn lemma_grid_order(e0: TParam, x0: TParam)
    requires
        e0.wf(),
        x0.wf(),
        crate::tparam::t_le(x0, e0),
    ensures
        grid_up_spec(e0) >= grid_down_spec(x0),
{
    let one = FX_ONE as int;
    let en = e0.num as int * one;
    let ed = e0.den as int;
    let xn = x0.num as int * one;
    let xd = x0.den as int;
    let ceil_e = crate::fx::ceil_div(en, ed);
    let floor_x = xn / xd;
    vstd::arithmetic::div_mod::lemma_fundamental_div_mod(-en, ed);
    vstd::arithmetic::div_mod::lemma_mod_division_less_than_divisor(-en, ed);
    assert(ceil_e * ed >= en) by (nonlinear_arith)
        requires
            ceil_e == -((-en) / ed),
            -en == ed * ((-en) / ed) + (-en) % ed,
            0 <= (-en) % ed,
            ed > 0,
    ;
    vstd::arithmetic::div_mod::lemma_fundamental_div_mod(xn, xd);
    vstd::arithmetic::div_mod::lemma_mod_division_less_than_divisor(xn, xd);
    assert(floor_x * xd <= xn) by (nonlinear_arith)
        requires
            xn == xd * floor_x + xn % xd,
            0 <= xn % xd,
            xd > 0,
    ;
    assert(xn * ed <= en * xd) by (nonlinear_arith)
        requires
            (x0.num as int) * ed <= (e0.num as int) * xd,
            xn == (x0.num as int) * one,
            en == (e0.num as int) * one,
            one > 0,
    ;
    if ceil_e < floor_x {
        assert(en * xd < en * xd) by (nonlinear_arith)
            requires
                ceil_e * ed >= en,
                floor_x * xd <= xn,
                xn * ed <= en * xd,
                ceil_e < floor_x,
                ed > 0,
                xd > 0,
        ;
    }
}

/// A parameter rounded up onto the lattice grid, when it is small enough.
fn param_to_grid_up(t: &TParam) -> (r: Option<i64>)
    requires
        t.wf(),
    ensures
        r == (if grid_up_spec(*t) > 0x8_0000_0000_0000 {
            None
        } else {
            Some(grid_up_spec(*t) as i64)
        }),
        r matches Some(v) ==> 0 <= v <= 0x8_0000_0000_0000,
{
    proof {
        crate::tparam::lemma_abs_product_bound(t.num as int, FX_ONE as int,
            crate::tparam::T_NUM_MAX as int, FX_ONE as int);
    }
    let scaled = crate::fx::div_ceil_i128(t.num * (FX_ONE as i128), t.den);
    if scaled < 0 {
        Some(0)
    } else if scaled > 0x8_0000_0000_0000 {
        None
    } else {
        Some(scaled as i64)
    }
}

/// A parameter rounded down onto the lattice grid, when it is small enough.
fn param_to_grid_down(t: &TParam) -> (r: Option<i64>)
    requires
        t.wf(),
    ensures
        r == (if grid_down_spec(*t) > 0x8_0000_0000_0000 {
            None
        } else {
            Some(grid_down_spec(*t) as i64)
        }),
        r matches Some(v) ==> 0 <= v <= 0x8_0000_0000_0000,
{
    proof {
        crate::tparam::lemma_abs_product_bound(t.num as int, FX_ONE as int,
            crate::tparam::T_NUM_MAX as int, FX_ONE as int);
    }
    let scaled = crate::fx::div_floor_i128(t.num * (FX_ONE as i128), t.den);
    if scaled < 0 {
        Some(0)
    } else if scaled > 0x8_0000_0000_0000 {
        None
    } else {
        Some(scaled as i64)
    }
}

/// One step of the linear scan: intersect a member inside the window
/// narrowed to the best hit so far, and keep the nearer record.
pub open spec fn scan_step(
    m: Arc<Hittable>, ray: Ray, lo: TParam, hi: TParam, best: Option<HitRecord>,
) -> Option<HitRecord>
    decreases *m, 1int,
{
    let cur_hi = match best {
        Some(b) => b.t,
        None => hi,
    };
    match hit_of(*m, ray, lo, cur_hi) {
        Some(rec) => Some(rec),
        None => best,
    }
}

/// The scan advances one member at a time through `scan_step`.
pub proof fn lemma_scan_unfold(
    s: Seq<Arc<Hittable>>, i: int, ray: Ray, lo: TParam, hi: TParam, best: Option<HitRecord>,
)
    requires
        0 <= i < s.len(),
    ensures
        list_hit_from(s, i, ray, lo, hi, best) == list_hit_from(s, i + 1, ray, lo, hi,
            scan_step(s[i], ray, lo, hi, best)),
{
    let cur_hi = match best {
        Some(b) => b.t,
        None => hi,
    };
    assert(scan_step(s[i], ray, lo, hi, best) == (match hit_of_arc(&s[i], ray, lo, cur_hi) {
        Some(rec) => Some(rec),
        None => best,
    }));
    assert(list_hit_from(s, i, ray, lo, hi, best) == list_hit_from(s, i + 1, ray, lo, hi,
        match hit_of_arc(&s[i], ray, lo, cur_hi) {
            Some(rec) => Some(rec),
            None => best,
        }));
}

/// Every declared box has its corners in order.
pub proof fn lemma_box_of_ordered(h: &Hittable)
    requires
        h.wf(),
    ensures
        box_of(*h) matches Some(b) ==> b.min.x <= b.max.x && b.min.y <= b.max.y
            && b.min.z <= b.max.z && b.wf(),
    decreases *h, 0int,
{
    match h {
        Hittable::Sphere { .. } => {},
        Hittable::Rect { .. } => {},
        Hittable::List { hittables } => {
            lemma_boxes_union_ordered(hittables@);
        },
        Hittable::Bvh { bbox, left, right } => {
            lemma_box_of_ordered(&**left);
            lemma_box_of_ordered(&**right);
        },
        Hittable::Instance { .. } => {},
        Hittable::MovingInstance { .. } => {},
        Hittable::ConstantMedium { .. } => {},
    }
}

proof fn lemma_boxes_union_ordered(s: Seq<Arc<Hittable>>)
    requires
        forall|i: int| 0 <= i < s.len() ==> (*#[trigger] s[i]).wf(),
    ensures
        boxes_union(s) matches Some(b) ==> b.min.x <= b.max.x && b.min.y <= b.max.y
            && b.min.z <= b.max.z && b.wf(),
    decreases s, 1int,
{
    if s.len() == 1 {
        lemma_box_of_ordered(&*s[0]);
    } else if s.len() > 1 {
        lemma_boxes_union_ordered(s.drop_last());
        lemma_box_of_ordered(&*s.last());
    }
}
} // verus!

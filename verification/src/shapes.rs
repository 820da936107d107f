//! Constructors for the scene tree.

use vstd::prelude::*;
use std::sync::Arc;
use crate::aabb::{box_of_points, union_spec, AABB};
use crate::fx::{in_coord, sat_coord, BOX_PAD, COORD_MAX};
use crate::hittable::{box_of_arc, det, Hittable, Plane};
use crate::material::Material;
use crate::transform::Transform;
use crate::vec3::{Point3, Vec3};

verus! {

broadcast use vstd::std_specs::vec::group_vec_axioms;

/// A box padded outward by the standard margin, clamped to the coordinate
/// range.
pub open spec fn pad_one_spec(b: AABB) -> AABB {
    AABB {
        min: Vec3 {
            x: crate::fx::sat_c(b.min.x - BOX_PAD) as i64,
            y: crate::fx::sat_c(b.min.y - BOX_PAD) as i64,
            z: crate::fx::sat_c(b.min.z - BOX_PAD) as i64,
        },
        max: Vec3 {
            x: crate::fx::sat_c(b.max.x + BOX_PAD) as i64,
            y: crate::fx::sat_c(b.max.y + BOX_PAD) as i64,
            z: crate::fx::sat_c(b.max.z + BOX_PAD) as i64,
        },
    }
}

/// The padded box, where there is one.
pub open spec fn pad_box_spec(b: Option<AABB>) -> Option<AABB> {
    match b {
        Some(x) => Some(pad_one_spec(x)),
        None => None,
    }
}

/// The eight corners of a box, in the order `get_points` lists them.
pub open spec fn corners_seq(b: AABB) -> Seq<Point3> {
    seq![
        Vec3 { x: b.min.x, y: b.min.y, z: b.min.z },
        Vec3 { x: b.min.x, y: b.min.y, z: b.max.z },
        Vec3 { x: b.min.x, y: b.max.y, z: b.min.z },
        Vec3 { x: b.min.x, y: b.max.y, z: b.max.z },
        Vec3 { x: b.max.x, y: b.min.y, z: b.min.z },
        Vec3 { x: b.max.x, y: b.min.y, z: b.max.z },
        Vec3 { x: b.max.x, y: b.max.y, z: b.min.z },
        Vec3 { x: b.max.x, y: b.max.y, z: b.max.z },
    ]
}

/// The refit of a box's eight corners through the forward map of a
/// transform: the smallest axis-aligned box on the mapped corners.
pub open spec fn fwd_box_spec(b: AABB, tr: Transform) -> AABB {
    box_of_points(corners_seq(b).map(|i: int, p: Point3|
        crate::transform::fwd_point_spec(tr, p)))
}

/// The declared box of a placed child: the padded refit of its box's
/// corners, or nothing for an unbounded child.
pub open spec fn instance_box_spec(cb: Option<AABB>, tr: Transform) -> Option<AABB> {
    match cb {
        Some(b) => Some(pad_one_spec(fwd_box_spec(b, tr))),
        None => None,
    }
}

/// The declared box of a moving child: the union of the padded refits under
/// both endpoint transforms, or nothing for an unbounded child.
pub open spec fn moving_box_spec(cb: Option<AABB>, tr0: Transform, tr1: Transform)
    -> Option<AABB> {
    match cb {
        Some(b) => Some(union_spec(pad_one_spec(fwd_box_spec(b, tr0)),
            pad_one_spec(fwd_box_spec(b, tr1)))),
        None => None,
    }
}

impl Hittable {
    /// A sphere.
    pub fn sphere(center: Point3, radius: i64, material: Arc<Material>) -> (r: Hittable)
        requires
            center.wf(),
            1 <= radius,
            radius + BOX_PAD <= COORD_MAX,
            in_coord(center.x - radius - BOX_PAD),
            in_coord(center.x + radius + BOX_PAD),
            in_coord(center.y - radius - BOX_PAD),
            in_coord(center.y + radius + BOX_PAD),
            in_coord(center.z - radius - BOX_PAD),
            in_coord(center.z + radius + BOX_PAD),
            material.wf(),
        ensures
            r == (Hittable::Sphere { center, radius, material }),
            r.wf(),
            det(r),
    {
        Hittable::Sphere { center, radius, material }
    }

    /// An axis-aligned rectangle in the given plane: `a`/`b` are the two
    /// in-plane extents and `k` the plane coordinate.
    pub fn rect(
        plane: Plane, a0: i64, a1: i64, b0: i64, b1: i64, k: i64, material: Arc<Material>,
    ) -> (r: Hittable)
        requires
            a0 <= a1,
            b0 <= b1,
            in_coord(a0 - BOX_PAD),
            in_coord(a1 + BOX_PAD),
            in_coord(b0 - BOX_PAD),
            in_coord(b1 + BOX_PAD),
            in_coord(k - BOX_PAD),
            in_coord(k + BOX_PAD),
            material.wf(),
        ensures
            r == (Hittable::Rect { plane, a0, a1, b0, b1, k, material }),
            r.wf(),
            det(r),
    {
        Hittable::Rect { plane, a0, a1, b0, b1, k, material }
    }

    /// A rectangle in the x/y plane at depth `z`.
    pub fn xy_rect(x0: i64, x1: i64, y0: i64, y1: i64, z: i64, material: Arc<Material>)
        -> (r: Hittable)
        requires
            x0 <= x1,
            y0 <= y1,
            in_coord(x0 - BOX_PAD),
            in_coord(x1 + BOX_PAD),
            in_coord(y0 - BOX_PAD),
            in_coord(y1 + BOX_PAD),
            in_coord(z - BOX_PAD),
            in_coord(z + BOX_PAD),
            material.wf(),
        ensures
            r == (Hittable::Rect { plane: Plane::XY, a0: x0, a1: x1, b0: y0, b1: y1, k: z,
                material }),
            r.wf(),
            det(r),
    {
        Hittable::rect(Plane::XY, x0, x1, y0, y1, z, material)
    }

    /// A rectangle in the x/z plane at height `y`.
    pub fn xz_rect(x0: i64, x1: i64, z0: i64, z1: i64, y: i64, material: Arc<Material>)
        -> (r: Hittable)
        requires
            x0 <= x1,
            z0 <= z1,
            in_coord(x0 - BOX_PAD),
            in_coord(x1 + BOX_PAD),
            in_coord(z0 - BOX_PAD),
            in_coord(z1 + BOX_PAD),
            in_coord(y - BOX_PAD),
            in_coord(y + BOX_PAD),
            material.wf(),
        ensures
            r == (Hittable::Rect { plane: Plane::XZ, a0: x0, a1: x1, b0: z0, b1: z1, k: y,
                material }),
            r.wf(),
            det(r),
    {
        Hittable::rect(Plane::XZ, x0, x1, z0, z1, y, material)
    }

    /// A rectangle in the y/z plane at offset `x`.
    pub fn yz_rect(y0: i64, y1: i64, z0: i64, z1: i64, x: i64, material: Arc<Material>)
        -> (r: Hittable)
        requires
            y0 <= y1,
            z0 <= z1,
            in_coord(y0 - BOX_PAD),
            in_coord(y1 + BOX_PAD),
            in_coord(z0 - BOX_PAD),
            in_coord(z1 + BOX_PAD),
            in_coord(x - BOX_PAD),
            in_coord(x + BOX_PAD),
            material.wf(),
        ensures
            r == (Hittable::Rect { plane: Plane::YZ, a0: y0, a1: y1, b0: z0, b1: z1, k: x,
                material }),
            r.wf(),
            det(r),
    {
        Hittable::rect(Plane::YZ, y0, y1, z0, z1, x, material)
    }

    /// An empty composite list.
    pub fn list_new() -> (r: Hittable)
        ensures
            r is List,
            r.wf(),
            det(r),
            r->List_hittables@.len() == 0,
    {
        let v: Vec<Arc<Hittable>> = Vec::new();
        Hittable::List { hittables: v }
    }

    /// Appends a member to a composite list.
    pub fn add(&mut self, hittable: Arc<Hittable>)
        requires
            (*old(self)) is List,
            old(self).wf(),
            (*hittable).wf(),
        ensures
            (*final(self)) is List,
            final(self).wf(),
            final(self)->List_hittables@ == old(self)->List_hittables@.push(hittable),
            det(*old(self)) && det(*hittable) ==> det(*final(self)),
    {
        match self {
            Hittable::List { hittables } => {
                hittables.push(hittable);
                proof {
                    assert forall|i: int| 0 <= i < self->List_hittables@.len()
                        implies (*#[trigger] self->List_hittables@[i]).wf() by {
                        if i < old(self)->List_hittables@.len() {
                            assert(self->List_hittables@[i]
                                == old(self)->List_hittables@[i]);
                        }
                    }
                    if det(*old(self)) && crate::hittable::det_arc(&self->List_hittables@.last()) {
                        assert forall|i: int| 0 <= i < self->List_hittables@.len()
                            implies det(*#[trigger] self->List_hittables@[i]) by {
                            if i < old(self)->List_hittables@.len() {
                                assert(self->List_hittables@[i]
                                    == old(self)->List_hittables@[i]);
                            }
                        }
                    }
                }
            },
            _ => {
                proof {
                    assert(false);
                }
            },
        }
    }

    /// Removes the member at an index from a composite list.  (Members are
    /// shared handles without an order, so removal is by position; identity
    /// of two handles to one allocation is not observable here.)
    pub fn remove(&mut self, index: usize)
        requires
            (*old(self)) is List,
            old(self).wf(),
            index < old(self)->List_hittables@.len(),
        ensures
            (*final(self)) is List,
            final(self).wf(),
            final(self)->List_hittables@
                == old(self)->List_hittables@.remove(index as int),
            det(*old(self)) ==> det(*final(self)),
    {
        match self {
            Hittable::List { hittables } => {
                hittables.remove(index);
                proof {
                    assert forall|i: int| 0 <= i < self->List_hittables@.len()
                        implies (*#[trigger] self->List_hittables@[i]).wf() by {
                        if i < index as int {
                            assert(self->List_hittables@[i]
                                == old(self)->List_hittables@[i]);
                        } else {
                            assert(self->List_hittables@[i]
                                == old(self)->List_hittables@[i + 1]);
                        }
                    }
                    if det(*old(self)) {
                        assert forall|i: int| 0 <= i < self->List_hittables@.len()
                            implies det(*#[trigger] self->List_hittables@[i]) by {
                            if i < index as int {
                                assert(self->List_hittables@[i]
                                    == old(self)->List_hittables@[i]);
                            } else {
                                assert(self->List_hittables@[i]
                                    == old(self)->List_hittables@[i + 1]);
                            }
                        }
                    }
                }
            },
            _ => {
                proof {
                    assert(false);
                }
            },
        }
    }

    /// An axis-aligned box: a composite of its six faces.
    pub fn aa_box(min: Point3, max: Point3, material: Arc<Material>) -> (r: Hittable)
        requires
            min.wf(),
            max.wf(),
            min.x <= max.x,
            min.y <= max.y,
            min.z <= max.z,
            in_coord(min.x - BOX_PAD),
            in_coord(max.x + BOX_PAD),
            in_coord(min.y - BOX_PAD),
            in_coord(max.y + BOX_PAD),
            in_coord(min.z - BOX_PAD),
            in_coord(max.z + BOX_PAD),
            material.wf(),
        ensures
            r.wf(),
            det(r),
            r is List,
            r->List_hittables@.len() == 6,
    {
        let mut sides = Hittable::list_new();
        sides.add(Arc::new(Hittable::rect(Plane::XY, min.x, max.x, min.y, max.y, min.z,
            crate::shared::clone_arc(&material))));
        sides.add(Arc::new(Hittable::rect(Plane::XY, min.x, max.x, min.y, max.y, max.z,
            crate::shared::clone_arc(&material))));
        sides.add(Arc::new(Hittable::rect(Plane::XZ, min.x, max.x, min.z, max.z, min.y,
            crate::shared::clone_arc(&material))));
        sides.add(Arc::new(Hittable::rect(Plane::XZ, min.x, max.x, min.z, max.z, max.y,
            crate::shared::clone_arc(&material))));
        sides.add(Arc::new(Hittable::rect(Plane::YZ, min.y, max.y, min.z, max.z, min.x,
            crate::shared::clone_arc(&material))));
        sides.add(Arc::new(Hittable::rect(Plane::YZ, min.y, max.y, min.z, max.z, max.x,
            material)));
        sides
    }

    /// A placed copy of a child: the child seen through an affine transform.
    /// Its declared box holds the transformed corners of the child's box,
    /// padded; an unbounded child stays unbounded.
    pub fn instance(hittable: Arc<Hittable>, transform: Transform) -> (r: Hittable)
        requires
            (*hittable).wf(),
            transform.wf(),
        ensures
            r is Instance,
            r->Instance_hittable == hittable,
            r->Instance_transform == transform,
            r->Instance_world_box == instance_box_spec(box_of_arc(&hittable), transform),
            r.wf(),
            det(*hittable) ==> det(r),
    {
        let world_box = transformed_box(&hittable, &transform);
        Hittable::Instance { hittable, transform, world_box }
    }

    /// A placed copy of a child whose transform blends between two
    /// endpoints across a shutter interval.  Its declared box is the union
    /// of the child's box under both endpoint transforms, padded.
    pub fn moving_instance(
        hittable: Arc<Hittable>,
        transform_0: Transform,
        transform_1: Transform,
        time_0: i64,
        time_1: i64,
    ) -> (r: Hittable)
        requires
            (*hittable).wf(),
            transform_0.wf(),
            transform_1.wf(),
            in_coord(time_0 as int),
            in_coord(time_1 as int),
            time_0 < time_1,
        ensures
            r is MovingInstance,
            r->MovingInstance_hittable == hittable,
            r->MovingInstance_transform_0 == transform_0,
            r->MovingInstance_transform_1 == transform_1,
            r->MovingInstance_time_0 == time_0,
            r->MovingInstance_time_1 == time_1,
            r->MovingInstance_world_box == moving_box_spec(box_of_arc(&hittable),
                transform_0, transform_1),
            r.wf(),
            det(*hittable) ==> det(r),
    {
        let b0 = transformed_box(&hittable, &transform_0);
        let b1 = transformed_box(&hittable, &transform_1);
        let world_box = match (b0, b1) {
            (Some(x), Some(y)) => {
                let mut u = x;
                u.encapsulate(y);
                Some(u)
            },
            _ => None,
        };
        Hittable::MovingInstance { hittable, transform_0, transform_1, time_0, time_1,
            world_box }
    }

    /// A constant-density participating medium filling a closed boundary.
    pub fn constant_medium(
        boundary: Arc<Hittable>,
        density: i64,
        albedo: Arc<crate::texture::Texture>,
    ) -> (r: Hittable)
        requires
            (*boundary).wf(),
            1 <= density,
            in_coord(density as int),
            albedo.wf(),
        ensures
            r is ConstantMedium,
            r->ConstantMedium_boundary == boundary,
            r->ConstantMedium_density == density,
            r->ConstantMedium_world_box == pad_box_spec(box_of_arc(&boundary)),
            r.wf(),
    {
        proof {
            crate::hittable::lemma_box_of_ordered(&*boundary);
        }
        let world_box = pad_box(boundary.bounding_box(0, 0));
        let phase_function = Arc::new(Material::Isotropic { albedo });
        Hittable::ConstantMedium { boundary, density, phase_function, world_box }
    }
}

/// The padded box of the transformed corners of a child's box.
fn transformed_box(hittable: &Arc<Hittable>, transform: &Transform) -> (r: Option<AABB>)
    requires
        (**hittable).wf(),
        transform.wf(),
    ensures
        r == instance_box_spec(box_of_arc(hittable), *transform),
        r matches Some(b) ==> b.wf() && b.min.x <= b.max.x && b.min.y <= b.max.y
            && b.min.z <= b.max.z,
{
    match hittable.bounding_box(0, 0) {
        Some(b) => {
            let corners = b.get_points();
            proof {
                assert(corners@ =~= corners_seq(b));
            }
            let mut pts: Vec<Point3> = Vec::new();
            let mut i: usize = 0;
            while i < corners.len()
                invariant
                    i <= corners@.len(),
                    corners@ == corners_seq(b),
                    pts@.len() == i,
                    forall|j: int| 0 <= j < corners@.len()
                        ==> (#[trigger] corners@[j]).wf(),
                    forall|j: int| 0 <= j < i ==> (#[trigger] pts@[j]).wf(),
                    forall|j: int| 0 <= j < i ==> #[trigger] pts@[j]
                        == crate::transform::fwd_point_spec(*transform, corners@[j]),
                    transform.wf(),
                decreases corners@.len() - i,
            {
                pts.push(transform.transform_point(corners[i]));
                i = i + 1;
            }
            proof {
                assert(pts@ =~= corners_seq(b).map(|j: int, p: Point3|
                    crate::transform::fwd_point_spec(*transform, p)));
            }
            let tight = AABB::from_points(&pts);
            pad_box(Some(tight))
        },
        None => None,
    }
}

/// Pads a box outward by the standard margin, clamped to the coordinate
/// range.
fn pad_box(b: Option<AABB>) -> (r: Option<AABB>)
    requires
        b matches Some(x) ==> x.wf(),
    ensures
        r == pad_box_spec(b),
        r matches Some(x) ==> x.wf(),
        (b matches Some(x) && x.min.x <= x.max.x && x.min.y <= x.max.y
            && x.min.z <= x.max.z) ==> (r matches Some(x) ==> x.min.x <= x.max.x
            && x.min.y <= x.max.y && x.min.z <= x.max.z),
{
    match b {
        Some(x) => Some(AABB {
            min: Vec3 {
                x: sat_coord((x.min.x as i128) - (BOX_PAD as i128)),
                y: sat_coord((x.min.y as i128) - (BOX_PAD as i128)),
                z: sat_coord((x.min.z as i128) - (BOX_PAD as i128)),
            },
            max: Vec3 {
                x: sat_coord((x.max.x as i128) + (BOX_PAD as i128)),
                y: sat_coord((x.max.y as i128) + (BOX_PAD as i128)),
                z: sat_coord((x.max.z as i128) + (BOX_PAD as i128)),
            },
        }),
        None => None,
    }
}

} // verus!

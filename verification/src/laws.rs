//! Laws that relate several operations of the library.

use vstd::prelude::*;
use std::sync::Arc;
use crate::aabb::AABB;
use crate::hittable::{
    det, hit_of, instance_hit_spec, time_frac, transform_at_spec, Hittable,
};
use crate::ray::Ray;
use crate::tparam::TParam;
use crate::transform::Transform;

verus! {

/// A deterministic hittable's record reports its rounded ray point at its
/// own parameter, and a usable normal.
#[verifier::rlimit(100)]
#[verifier::spinoff_prover]
proof fn lemma_record_form(h: &Hittable, ray: Ray, lo: TParam, hi: TParam)
    requires
        h.wf(),
        ray.wf(),
        lo.wf(),
        hi.wf(),
        det(*h),
    ensures
        hit_of(*h, ray, lo, hi) matches Some(rec) ==> {
            &&& rec.point == crate::hittable::at_point(ray, rec.t.num as int,
                rec.t.den as int)
            &&& rec.normal.wf()
            &&& !rec.normal.is_zero()
        },
    decreases *h, 0int,
{
    match h {
        Hittable::Sphere { center, radius, material } => {
            crate::hittable::lemma_hit_of_in_box(h, ray, lo, hi);
            if hit_of(*h, ray, lo, hi) is Some {
                let rec = hit_of(*h, ray, lo, hi)->Some_0;
                crate::hittable::lemma_sphere_coeff_bounds(*center, *radius, ray);
                let delta = crate::hittable::sphere_delta(*center, *radius, ray);
                let a = crate::hittable::sphere_a(ray);
                let hb = crate::hittable::sphere_hb(*center, ray);
                let sq = crate::fx::sqrt_floor(delta as nat) as int;
                let tn = if crate::hittable::sphere_accepts(*center, *radius, ray, lo, hi,
                    -hb - sq, a) {
                    -hb - sq
                } else {
                    -hb + sq
                };
                assert(crate::hittable::sphere_accepts(*center, *radius, ray, lo, hi, tn,
                    a));
                assert(rec == crate::hittable::sphere_record(*center, *radius,
                    crate::hittable::h_sphere_material(h), ray, tn, a));
                crate::hittable::lemma_at_point_in_box(
                    crate::hittable::sphere_box(*center, *radius), ray,
                    rec.t.num as int, rec.t.den as int);
            }
        },
        Hittable::Rect { plane, a0, a1, b0, b1, k, material } => {
        },
        Hittable::List { hittables } => {
            lemma_list_record_form(hittables@, 0, ray, lo, hi, None);
        },
        Hittable::Bvh { bbox, left, right } => {
            lemma_record_form(&**left, ray, lo, hi);
            match crate::hittable::hit_of_arc(left, ray, lo, hi) {
                Some(lrec) => {
                    crate::hittable::lemma_hit_of_in_box(&**left, ray, lo, hi);
                    lemma_record_form(&**right, ray, lo, lrec.t);
                },
                None => {
                    lemma_record_form(&**right, ray, lo, hi);
                },
            }
        },
        Hittable::Instance { hittable, transform, world_box } => {
            lemma_instance_record_form(&**hittable, *transform, *world_box, ray, lo, hi);
        },
        Hittable::MovingInstance { hittable, transform_0, transform_1, time_0, time_1,
            world_box } => {
            lemma_instance_record_form(&**hittable, transform_at_spec(*transform_0,
                *transform_1, *time_0, *time_1, ray.time), *world_box, ray, lo, hi);
        },
        Hittable::ConstantMedium { .. } => {},
    }
}

proof fn lemma_instance_record_form(
    child: &Hittable, tr: Transform, wbox: Option<AABB>, ray: Ray, lo: TParam, hi: TParam,
)
    requires
        child.wf(),
        ray.wf(),
        lo.wf(),
        hi.wf(),
        det(*child),
    ensures
        instance_hit_spec(*child, tr, wbox, ray, lo, hi) matches Some(rec) ==> {
            &&& rec.point == crate::hittable::at_point(ray, rec.t.num as int,
                rec.t.den as int)
            &&& rec.normal.wf()
            &&& !rec.normal.is_zero()
        },
    decreases *child, 1int,
{
    let lray = crate::hittable::local_ray(tr, ray);
    if !lray.direction.is_zero() {
        assert(lray.wf());
        lemma_record_form(child, lray, lo, hi);
        crate::hittable::lemma_hit_of_in_box(child, lray, lo, hi);
        if hit_of(*child, lray, lo, hi) is Some {
            let rec = hit_of(*child, lray, lo, hi)->Some_0;
            lemma_fwd_wf(tr, rec.normal);
        }
    }
}

proof fn lemma_list_record_form(
    s: Seq<Arc<Hittable>>, i: int, ray: Ray, lo: TParam, hi: TParam,
    best: Option<crate::hit_record::HitRecord>,
)
    requires
        forall|j: int| 0 <= j < s.len() ==> (*#[trigger] s[j]).wf(),
        forall|j: int| 0 <= j < s.len() ==> det(*#[trigger] s[j]),
        ray.wf(),
        lo.wf(),
        hi.wf(),
        0 <= i <= s.len(),
        best matches Some(b) ==> {
            &&& b.point == crate::hittable::at_point(ray, b.t.num as int, b.t.den as int)
            &&& b.normal.wf()
            &&& !b.normal.is_zero()
            &&& b.t.wf()
        },
    ensures
        crate::hittable::list_hit_from(s, i, ray, lo, hi, best) matches Some(rec) ==> {
            &&& rec.point == crate::hittable::at_point(ray, rec.t.num as int,
                rec.t.den as int)
            &&& rec.normal.wf()
            &&& !rec.normal.is_zero()
        },
    decreases s, (s.len() - i) as nat, 2int,
{
    if 0 <= i < s.len() {
        let cur_hi = match best {
            Some(b) => b.t,
            None => hi,
        };
        lemma_record_form(&*s[i], ray, lo, cur_hi);
        crate::hittable::lemma_hit_of_in_box(&*s[i], ray, lo, cur_hi);
        let r = crate::hittable::hit_of_arc(&s[i], ray, lo, cur_hi);
        match r {
            Some(rec) => {
                lemma_list_record_form(s, i + 1, ray, lo, hi, Some(rec));
            },
            None => {
                lemma_list_record_form(s, i + 1, ray, lo, hi, best);
            },
        }
    }
}

/// The forward vector map clamps into the coordinate range.
proof fn lemma_fwd_wf(tr: Transform, v: crate::vec3::Vec3)
    ensures
        crate::transform::fwd_vector_spec(tr, v).wf(),
{
}

/// An instance carrying the identity transform reports exactly what its
/// child reports, whenever the child's box (if any) sits within the
/// instance's declared box (or neither declares one): the round-trip
/// through local space changes nothing.
#[verifier::rlimit(100)]
#[verifier::spinoff_prover]
pub proof fn lemma_identity_instance(
    child: Arc<Hittable>, wbox: Option<AABB>, ray: Ray, lo: TParam, hi: TParam,
)
    requires
        (*child).wf(),
        det(*child),
        ray.wf(),
        lo.wf(),
        hi.wf(),
        wbox matches Some(b) ==> crate::hittable::box_of_arc(&child) is Some
            && crate::aabb::box_within(crate::hittable::box_of_arc(&child)->Some_0, b),
    ensures
        hit_of(
            Hittable::Instance {
                hittable: child,
                transform: Transform::identity_spec(),
                world_box: wbox,
            }, ray, lo, hi) == hit_of(*child, ray, lo, hi),
{
    let tr = Transform::identity_spec();
    let lray = crate::hittable::local_ray(tr, ray);
    lemma_identity_local_ray(tr, ray);
    assert(lray == ray);
    crate::hittable::lemma_hit_of_in_box(&*child, ray, lo, hi);
    lemma_record_form(&*child, ray, lo, hi);
    let spec_r = crate::hittable::instance_hit_spec_arc(&child, tr, wbox, ray, lo, hi);
    assert(hit_of(
        Hittable::Instance {
            hittable: child,
            transform: Transform::identity_spec(),
            world_box: wbox,
        }, ray, lo, hi) == spec_r);
    match crate::hittable::hit_of_arc(&child, ray, lo, hi) {
        Some(rec) => {
            lemma_identity_fwd_vector(tr, rec.normal);
            let wn = crate::transform::fwd_vector_spec(tr, rec.normal);
            assert(wn == rec.normal);
            assert(!wn.is_zero());
            if wbox is Some {
                crate::hittable::lemma_strict_inside_mono(
                    crate::hittable::box_of_arc(&child)->Some_0, wbox->Some_0, ray,
                    rec.t.num as int, rec.t.den as int);
            }
            assert(crate::hittable::clip_ok(wbox, ray, rec.t));
            assert(rec.point == crate::hittable::at_point(ray, rec.t.num as int,
                rec.t.den as int));
            let wrec = crate::hit_record::HitRecord {
                point: crate::hittable::at_point(ray, rec.t.num as int, rec.t.den as int),
                normal: wn,
                material: rec.material,
                t: rec.t,
                u: rec.u,
                v: rec.v,
            };
            assert(spec_r == Some(wrec));
            assert(wrec == rec);
        },
        None => {
            assert(spec_r is None);
        },
    }
}

/// The identity transform leaves the local ray unchanged.
pub proof fn lemma_identity_local_ray(tr: Transform, ray: Ray)
    requires
        tr == Transform::identity_spec(),
        ray.wf(),
    ensures
        crate::hittable::local_ray(tr, ray) == ray,
{
    lemma_identity_inv_point(tr, ray.origin);
    lemma_identity_inv_vector(tr, ray.direction);
}

proof fn lemma_identity_inv_vector(tr: Transform, v: crate::vec3::Vec3)
    requires
        tr == Transform::identity_spec(),
        v.wf(),
    ensures
        crate::transform::inv_vector_spec(tr, v) == v,
{
    let conj = crate::quaternion::Quaternion {
        v: crate::vec3::Vec3 { x: 0, y: 0, z: 0 },
        s: crate::fx::FX_ONE,
    };
    assert(conj == crate::quaternion::Quaternion::identity_spec());
    lemma_identity_rotate(conj, v);
    lemma_identity_div(v.x as int);
    lemma_identity_div(v.y as int);
    lemma_identity_div(v.z as int);
}

proof fn lemma_identity_inv_point(tr: Transform, p: crate::vec3::Vec3)
    requires
        tr == Transform::identity_spec(),
        p.wf(),
    ensures
        crate::transform::inv_point_spec(tr, p) == p,
{
    lemma_identity_inv_vector(tr, p);
}

/// The identity transform leaves the forward vector map unchanged.
pub proof fn lemma_identity_fwd_vector(tr: Transform, v: crate::vec3::Vec3)
    requires
        tr == Transform::identity_spec(),
        v.wf(),
    ensures
        crate::transform::fwd_vector_spec(tr, v) == v,
{
    lemma_identity_scale(v.x as int);
    lemma_identity_scale(v.y as int);
    lemma_identity_scale(v.z as int);
    lemma_identity_rotate(crate::quaternion::Quaternion::identity_spec(), v);
}

proof fn lemma_identity_scale(x: int)
    requires
        crate::fx::in_coord(x),
    ensures
        crate::transform::scale_coord(x, crate::fx::FX_ONE as int) == x,
{
    assert(x * (crate::fx::FX_ONE as int) == (crate::fx::FX_ONE as int) * x)
        by (nonlinear_arith);
    vstd::arithmetic::div_mod::lemma_div_multiples_vanish(x, crate::fx::FX_ONE as int);
}

proof fn lemma_identity_div(x: int)
    requires
        crate::fx::in_coord(x),
    ensures
        crate::fx::sat_c(crate::fx::fx_div_spec(x, crate::fx::FX_ONE as int)) == x,
{
    assert(x * (crate::fx::FX_ONE as int) == (crate::fx::FX_ONE as int) * x)
        by (nonlinear_arith);
    vstd::arithmetic::div_mod::lemma_div_multiples_vanish(x, crate::fx::FX_ONE as int);
}

proof fn lemma_identity_rotate(q: crate::quaternion::Quaternion, v: crate::vec3::Vec3)
    requires
        q == crate::quaternion::Quaternion::identity_spec(),
        v.wf(),
    ensures
        crate::quaternion::rotate_spec(q, v) == v,
{
    let one2 = crate::fx::FX_ONE as int * crate::fx::FX_ONE as int;
    assert(one2 == 65536 * 65536);
    assert(crate::vec3::dot_spec(q.v, q.v) == 0);
    assert(crate::vec3::dot_spec(q.v, v) == 0);
    assert(crate::quaternion::q_norm_sq(q) == one2);
    lemma_rotate_identity_coord(v.x as int, one2);
    lemma_rotate_identity_coord(v.y as int, one2);
    lemma_rotate_identity_coord(v.z as int, one2);
}

proof fn lemma_rotate_identity_coord(x: int, k: int)
    requires
        k >= 1,
        crate::fx::in_coord(x),
    ensures
        crate::fx::sat_c((x * k + 2 * (0 * 0) + 2 * ((crate::fx::FX_ONE as int) * 0)) / k)
            == x,
{
    assert(x * k + 2 * (0 * 0) + 2 * ((crate::fx::FX_ONE as int) * 0) == x * k)
        by (nonlinear_arith);
    assert(x * k == k * x) by (nonlinear_arith);
    vstd::arithmetic::div_mod::lemma_div_multiples_vanish(x, k);
}

/// A moving instance evaluated at its first endpoint applies exactly its
/// first transform, and at its second endpoint exactly its second: at those
/// shutter times it reports precisely what the fixed instance carrying that
/// endpoint transform and the same declared box reports.
pub proof fn lemma_moving_instance_endpoints(
    child: Arc<Hittable>,
    transform_0: Transform,
    transform_1: Transform,
    time_0: i64,
    time_1: i64,
    wbox: Option<AABB>,
    ray: Ray,
    lo: TParam,
    hi: TParam,
)
    requires
        (*child).wf(),
        transform_0.wf(),
        transform_1.wf(),
        time_0 < time_1,
        crate::fx::in_coord(time_0 as int),
        crate::fx::in_coord(time_1 as int),
        ray.wf(),
        lo.wf(),
        hi.wf(),
    ensures
        ray.time == time_0 ==> hit_of(
            Hittable::MovingInstance { hittable: child, transform_0, transform_1, time_0,
                time_1, world_box: wbox }, ray, lo, hi) == hit_of(
            Hittable::Instance { hittable: child, transform: transform_0, world_box: wbox },
            ray, lo, hi),
        ray.time == time_1 ==> hit_of(
            Hittable::MovingInstance { hittable: child, transform_0, transform_1, time_0,
                time_1, world_box: wbox }, ray, lo, hi) == hit_of(
            Hittable::Instance { hittable: child, transform: transform_1, world_box: wbox },
            ray, lo, hi),
{
    if ray.time == time_0 {
        lemma_transform_at_first(transform_0, transform_1, time_0, time_1);
    }
    if ray.time == time_1 {
        lemma_transform_at_second(transform_0, transform_1, time_0, time_1);
    }
}

/// At the interval's start the blended transform is the first endpoint.
pub proof fn lemma_transform_at_first(
    transform_0: Transform, transform_1: Transform, time_0: i64, time_1: i64,
)
    requires
        transform_0.wf(),
        transform_1.wf(),
        time_0 < time_1,
    ensures
        transform_at_spec(transform_0, transform_1, time_0, time_1, time_0) == transform_0,
{
    let f = time_frac(time_0, time_1, time_0);
    assert(f.num == 0);
    lemma_lerp_at_zero(transform_0, transform_1, f.den as int);
}

/// At the interval's end the blended transform is the second endpoint.
pub proof fn lemma_transform_at_second(
    transform_0: Transform, transform_1: Transform, time_0: i64, time_1: i64,
)
    requires
        transform_0.wf(),
        transform_1.wf(),
        time_0 < time_1,
    ensures
        transform_at_spec(transform_0, transform_1, time_0, time_1, time_1) == transform_1,
{
    let f = time_frac(time_0, time_1, time_1);
    assert(f.num == f.den);
    lemma_lerp_at_one(transform_0, transform_1, f.den as int);
}

proof fn lemma_lerp_at_zero(a: Transform, b: Transform, td: int)
    requires
        a.wf(),
        b.wf(),
        td >= 1,
    ensures
        crate::transform::interpolate_spec(a, b, 0, td) == a,
{
    lemma_lerp_coord_zero(a.translation.x as int, b.translation.x as int, td);
    lemma_lerp_coord_zero(a.translation.y as int, b.translation.y as int, td);
    lemma_lerp_coord_zero(a.translation.z as int, b.translation.z as int, td);
    lemma_lerp_coord_zero(a.scale.x as int, b.scale.x as int, td);
    lemma_lerp_coord_zero(a.scale.y as int, b.scale.y as int, td);
    lemma_lerp_coord_zero(a.scale.z as int, b.scale.z as int, td);
    lemma_lerp_coord_zero(a.rotation.v.x as int, b.rotation.v.x as int, td);
    lemma_lerp_coord_zero(a.rotation.v.y as int, b.rotation.v.y as int, td);
    lemma_lerp_coord_zero(a.rotation.v.z as int, b.rotation.v.z as int, td);
    lemma_lerp_coord_zero(a.rotation.s as int, b.rotation.s as int, td);
}

proof fn lemma_lerp_at_one(a: Transform, b: Transform, td: int)
    requires
        a.wf(),
        b.wf(),
        td >= 1,
    ensures
        crate::transform::interpolate_spec(a, b, td, td) == b,
{
    lemma_lerp_coord_one(a.translation.x as int, b.translation.x as int, td);
    lemma_lerp_coord_one(a.translation.y as int, b.translation.y as int, td);
    lemma_lerp_coord_one(a.translation.z as int, b.translation.z as int, td);
    lemma_lerp_coord_one(a.scale.x as int, b.scale.x as int, td);
    lemma_lerp_coord_one(a.scale.y as int, b.scale.y as int, td);
    lemma_lerp_coord_one(a.scale.z as int, b.scale.z as int, td);
    lemma_lerp_coord_one(a.rotation.v.x as int, b.rotation.v.x as int, td);
    lemma_lerp_coord_one(a.rotation.v.y as int, b.rotation.v.y as int, td);
    lemma_lerp_coord_one(a.rotation.v.z as int, b.rotation.v.z as int, td);
    lemma_lerp_coord_one(a.rotation.s as int, b.rotation.s as int, td);
}

proof fn lemma_lerp_coord_zero(a: int, b: int, td: int)
    requires
        td >= 1,
    ensures
        crate::vec3::lerp_coord(a, b, 0, td) == a,
{
    assert(0 * (b - a) == 0) by (nonlinear_arith);
    vstd::arithmetic::div_mod::lemma_div_of0(td);
}

proof fn lemma_lerp_coord_one(a: int, b: int, td: int)
    requires
        td >= 1,
    ensures
        crate::vec3::lerp_coord(a, b, td, td) == b,
{
    assert(td * (b - a) == (b - a) * td) by (nonlinear_arith);
    vstd::arithmetic::div_mod::lemma_div_multiples_vanish(b - a, td);
}


/// The identity transform leaves the forward point map unchanged.
pub proof fn lemma_identity_fwd_point(tr: Transform, p: crate::vec3::Vec3)
    requires
        tr == Transform::identity_spec(),
        p.wf(),
    ensures
        crate::transform::fwd_point_spec(tr, p) == p,
{
    lemma_identity_fwd_vector(tr, p);
}


/// Refitting a box's own corners reproduces the box.
proof fn lemma_corners_refit(b: AABB)
    requires
        b.wf(),
        b.min.x <= b.max.x,
        b.min.y <= b.max.y,
        b.min.z <= b.max.z,
    ensures
        crate::aabb::box_of_points(crate::shapes::corners_seq(b)) == b,
{
    let s = crate::shapes::corners_seq(b);
    assert(s.len() == 8);
    reveal_with_fuel(crate::aabb::box_of_points, 9);
    assert(s.drop_last() =~= s.subrange(0, 7));
    assert(s.subrange(0, 7).drop_last() =~= s.subrange(0, 6));
    assert(s.subrange(0, 6).drop_last() =~= s.subrange(0, 5));
    assert(s.subrange(0, 5).drop_last() =~= s.subrange(0, 4));
    assert(s.subrange(0, 4).drop_last() =~= s.subrange(0, 3));
    assert(s.subrange(0, 3).drop_last() =~= s.subrange(0, 2));
    assert(s.subrange(0, 2).drop_last() =~= s.subrange(0, 1));
    assert(crate::aabb::box_of_points(s.subrange(0, 1)) == crate::aabb::point_box(s[0]));
    assert(crate::aabb::box_of_points(s.subrange(0, 2)) == crate::aabb::union_spec(
        crate::aabb::point_box(s[0]), crate::aabb::point_box(s[1])));
    assert(crate::aabb::box_of_points(s) == crate::aabb::union_spec(
        crate::aabb::box_of_points(s.subrange(0, 7)), crate::aabb::point_box(s[7])));
}

/// A padded box contains the box it padded.
proof fn lemma_pad_contains(b: AABB)
    requires
        b.wf(),
    ensures
        crate::aabb::box_within(b, crate::shapes::pad_one_spec(b)),
{
}

/// The identity-transform instance built by the public constructor reports
/// exactly what its child reports: the constructor's declared box is the
/// padded refit of the child's own box, which never clips a child hit.
pub proof fn lemma_identity_instance_constructed(
    child: Arc<Hittable>, ray: Ray, lo: TParam, hi: TParam,
)
    requires
        (*child).wf(),
        det(*child),
        ray.wf(),
        lo.wf(),
        hi.wf(),
    ensures
        hit_of(
            Hittable::Instance {
                hittable: child,
                transform: Transform::identity_spec(),
                world_box: crate::shapes::instance_box_spec(
                    crate::hittable::box_of_arc(&child), Transform::identity_spec()),
            }, ray, lo, hi) == hit_of(*child, ray, lo, hi),
{
    let tr = Transform::identity_spec();
    let cb = crate::hittable::box_of_arc(&child);
    match cb {
        Some(b) => {
            crate::hittable::lemma_box_of_ordered(&*child);
            let mapped = crate::shapes::corners_seq(b).map(|i: int, p: crate::vec3::Point3|
                crate::transform::fwd_point_spec(tr, p));
            assert(mapped =~= crate::shapes::corners_seq(b)) by {
                assert forall|i: int| 0 <= i < 8 implies mapped[i]
                    == crate::shapes::corners_seq(b)[i] by {
                    lemma_identity_fwd_point(tr, crate::shapes::corners_seq(b)[i]);
                }
            }
            lemma_corners_refit(b);
            assert(crate::shapes::fwd_box_spec(b, tr) == b);
            lemma_pad_contains(b);
            lemma_identity_instance(child, Some(crate::shapes::pad_one_spec(b)), ray, lo,
                hi);
        },
        None => {
            lemma_identity_instance(child, None, ray, lo, hi);
        },
    }
}
} // verus!

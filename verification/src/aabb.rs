//! Axis-aligned bounding boxes.
//!
//! Unions are exact componentwise minima and maxima.  The ray slab test is
//! exact: it reports a hit precisely when some rational parameter strictly
//! inside the caller's window puts the ray strictly inside all three slabs.
//! A zero direction component never divides: the axis degenerates to a pure
//! containment test on the origin, as the error-handling design asks.

use vstd::prelude::*;
use crate::fx::in_coord;
use crate::ray::{point_num, Ray};
use crate::tparam::{rat_le, rat_lt, TParam};
use crate::vec3::{Point3, Vec3};

verus! {

/// An axis-aligned box given by two corner points.
#[derive(Clone, Copy, Debug, PartialEq, Eq, Structural)]
pub struct AABB {
    pub min: Point3,
    pub max: Point3,
}

/// The smaller of two raw coordinates.
pub open spec fn min_c(a: int, b: int) -> int {
    if a <= b { a } else { b }
}

/// The larger of two raw coordinates.
pub open spec fn max_c(a: int, b: int) -> int {
    if a >= b { a } else { b }
}

/// The smallest box enclosing two boxes: the componentwise union.
pub open spec fn union_spec(a: AABB, b: AABB) -> AABB {
    AABB {
        min: Vec3 {
            x: min_c((a.min.x as int), b.min.x as int) as i64,
            y: min_c((a.min.y as int), b.min.y as int) as i64,
            z: min_c((a.min.z as int), b.min.z as int) as i64,
        },
        max: Vec3 {
            x: max_c((a.max.x as int), b.max.x as int) as i64,
            y: max_c((a.max.y as int), b.max.y as int) as i64,
            z: max_c((a.max.z as int), b.max.z as int) as i64,
        },
    }
}

/// The degenerate box holding exactly one point.
pub open spec fn point_box(p: Point3) -> AABB {
    AABB { min: p, max: p }
}

/// The smallest box enclosing a nonempty run of points.
pub open spec fn box_of_points(s: Seq<Point3>) -> AABB
    decreases s.len(),
{
    if s.len() <= 1 {
        point_box(s[0])
    } else {
        union_spec(box_of_points(s.drop_last()), point_box(s.last()))
    }
}

/// `inner` lies entirely within `outer`.
pub open spec fn box_within(inner: AABB, outer: AABB) -> bool {
    outer.min.x <= inner.min.x && inner.max.x <= outer.max.x
        && outer.min.y <= inner.min.y && inner.max.y <= outer.max.y
        && outer.min.z <= inner.min.z && inner.max.z <= outer.max.z
}

/// The rational ray point at `tn / td` is strictly inside the axis slab.
pub open spec fn axis_strictly_inside(
    bmin: int, bmax: int, o: int, d: int, tn: int, td: int,
) -> bool {
    bmin * td < point_num(o, d, tn, td) && point_num(o, d, tn, td) < bmax * td
}

/// The rational ray point at `tn / td` is strictly inside the box.
pub open spec fn ray_strictly_inside(b: AABB, ray: Ray, tn: int, td: int) -> bool {
    axis_strictly_inside((b.min.x as int), (b.max.x as int), (ray.origin.x as int),
        (ray.direction.x as int), tn, td)
    && axis_strictly_inside((b.min.y as int), (b.max.y as int), (ray.origin.y as int),
        (ray.direction.y as int), tn, td)
    && axis_strictly_inside((b.min.z as int), (b.max.z as int), (ray.origin.z as int),
        (ray.direction.z as int), tn, td)
}

/// `tn / td` lies in the open window `(lo, hi)`.
pub open spec fn in_open_win(lo: TParam, hi: TParam, tn: int, td: int) -> bool {
    rat_lt((lo.num as int), (lo.den as int), tn, td)
        && rat_lt(tn, td, (hi.num as int), hi.den as int)
}

/// What the slab test decides: some rational parameter strictly inside the
/// window puts the ray strictly inside the box.
pub open spec fn slab_hit_spec(b: AABB, ray: Ray, t_min: TParam, t_max: TParam) -> bool {
    exists|tn: int, td: int|
        td > 0 && #[trigger] in_open_win(t_min, t_max, tn, td)
            && ray_strictly_inside(b, ray, tn, td)
}

impl AABB {
    /// Both corners are coordinates.
    pub open spec fn wf(self) -> bool {
        self.min.wf() && self.max.wf()
    }

    pub fn new(min: Point3, max: Point3) -> (r: AABB)
        ensures
            r == (AABB { min, max }),
    {
        AABB { min, max }
    }

    /// The smallest box enclosing the given points.
    pub fn from_points(points: &Vec<Point3>) -> (r: AABB)
        requires
            points@.len() >= 1,
            forall|i: int| 0 <= i < points@.len() ==> (#[trigger] points@[i]).wf(),
        ensures
            r == box_of_points(points@),
            r.wf(),
            r.min.x <= r.max.x,
            r.min.y <= r.max.y,
            r.min.z <= r.max.z,
    {
        let mut r = AABB { min: points[0], max: points[0] };
        let mut i: usize = 1;
        proof {
            assert(points@.subrange(0, 1) =~= seq![points@[0]]);
            assert(r == box_of_points(points@.subrange(0, 1)));
            lemma_box_of_points_wf(points@, 1);
        }
        while i < points.len()
            invariant
                1 <= i <= points@.len(),
                forall|j: int| 0 <= j < points@.len() ==> (#[trigger] points@[j]).wf(),
                r == box_of_points(points@.subrange(0, i as int)),
                r.wf(),
                r.min.x <= r.max.x,
                r.min.y <= r.max.y,
                r.min.z <= r.max.z,
            decreases points@.len() - i,
        {
            let p = points[i];
            let min = Vec3 {
                x: if p.x < r.min.x { p.x } else { r.min.x },
                y: if p.y < r.min.y { p.y } else { r.min.y },
                z: if p.z < r.min.z { p.z } else { r.min.z },
            };
            let max = Vec3 {
                x: if p.x > r.max.x { p.x } else { r.max.x },
                y: if p.y > r.max.y { p.y } else { r.max.y },
                z: if p.z > r.max.z { p.z } else { r.max.z },
            };
            proof {
                let pre = points@.subrange(0, i as int);
                let post = points@.subrange(0, (i as int) + 1);
                assert(post.drop_last() =~= pre);
                assert(post.last() == points@[(i as int)]);
            }
            r = AABB { min, max };
            i = i + 1;
        }
        proof {
            assert(points@.subrange(0, points@.len() as int) =~= points@);
        }
        r
    }

    /// Grows this box to the union with `other`.
    pub fn encapsulate(&mut self, other: AABB)
        requires
            old(self).wf(),
            other.wf(),
        ensures
            *final(self) == union_spec(*old(self), other),
            final(self).wf(),
    {
        let min = Vec3 {
            x: if other.min.x < self.min.x { other.min.x } else { self.min.x },
            y: if other.min.y < self.min.y { other.min.y } else { self.min.y },
            z: if other.min.z < self.min.z { other.min.z } else { self.min.z },
        };
        let max = Vec3 {
            x: if other.max.x > self.max.x { other.max.x } else { self.max.x },
            y: if other.max.y > self.max.y { other.max.y } else { self.max.y },
            z: if other.max.z > self.max.z { other.max.z } else { self.max.z },
        };
        *self = AABB { min, max };
    }

    /// The eight corner points.
    pub fn get_points(&self) -> (r: Vec<Point3>)
        requires
            self.wf(),
        ensures
            r@.len() == 8,
            r@[0] == (Vec3 { x: self.min.x, y: self.min.y, z: self.min.z }),
            r@[1] == (Vec3 { x: self.min.x, y: self.min.y, z: self.max.z }),
            r@[2] == (Vec3 { x: self.min.x, y: self.max.y, z: self.min.z }),
            r@[3] == (Vec3 { x: self.min.x, y: self.max.y, z: self.max.z }),
            r@[4] == (Vec3 { x: self.max.x, y: self.min.y, z: self.min.z }),
            r@[5] == (Vec3 { x: self.max.x, y: self.min.y, z: self.max.z }),
            r@[6] == (Vec3 { x: self.max.x, y: self.max.y, z: self.min.z }),
            r@[7] == (Vec3 { x: self.max.x, y: self.max.y, z: self.max.z }),
            forall|i: int| 0 <= i < 8 ==> (#[trigger] r@[i]).wf(),
    {
        let mut r: Vec<Point3> = Vec::new();
        r.push(Vec3 { x: self.min.x, y: self.min.y, z: self.min.z });
        r.push(Vec3 { x: self.min.x, y: self.min.y, z: self.max.z });
        r.push(Vec3 { x: self.min.x, y: self.max.y, z: self.min.z });
        r.push(Vec3 { x: self.min.x, y: self.max.y, z: self.max.z });
        r.push(Vec3 { x: self.max.x, y: self.min.y, z: self.min.z });
        r.push(Vec3 { x: self.max.x, y: self.min.y, z: self.max.z });
        r.push(Vec3 { x: self.max.x, y: self.max.y, z: self.min.z });
        r.push(Vec3 { x: self.max.x, y: self.max.y, z: self.max.z });
        r
    }

    /// The exact slab test: true precisely when some parameter strictly
    /// inside `(t_min, t_max)` puts the ray strictly inside the box.
    pub fn hit(&self, ray: &Ray, t_min: &TParam, t_max: &TParam) -> (r: bool)
        requires
            self.wf(),
            ray.wf(),
            t_min.wf(),
            t_max.wf(),
        ensures
            r == slab_hit_spec(*self, *ray, *t_min, *t_max),
    {
        let (lo1, hi1) = clip_axis(*t_min, *t_max,
            self.min.x, self.max.x, ray.origin.x, ray.direction.x);
        let (lo2, hi2) = clip_axis(lo1, hi1,
            self.min.y, self.max.y, ray.origin.y, ray.direction.y);
        let (lo3, hi3) = clip_axis(lo2, hi2,
            self.min.z, self.max.z, ray.origin.z, ray.direction.z);
        let r = lo3.lt(&hi3);
        proof {
            if r {
                let wn = (lo3.num as int) * (hi3.den as int) + (hi3.num as int) * (lo3.den as int);
                let wd = 2 * (lo3.den as int) * (hi3.den as int);
                assert(wd > 0 && rat_lt((lo3.num as int), (lo3.den as int), wn, wd)
                    && rat_lt(wn, wd, (hi3.num as int), hi3.den as int)) by (nonlinear_arith)
                    requires
                        (lo3.num as int) * (hi3.den as int) < (hi3.num as int) * (lo3.den as int),
                        (lo3.den as int) > 0,
                        (hi3.den as int) > 0,
                        wn == (lo3.num as int) * (hi3.den as int) + (hi3.num as int) * (lo3.den as int),
                        wd == 2 * (lo3.den as int) * (hi3.den as int),
                ;
                assert(in_open_win(lo3, hi3, wn, wd));
                assert(in_open_win(*t_min, *t_max, wn, wd)
                    && ray_strictly_inside(*self, *ray, wn, wd));
            } else {
                assert forall|tn: int, td: int|
                    td > 0 && #[trigger] in_open_win(*t_min, *t_max, tn, td)
                        && ray_strictly_inside(*self, *ray, tn, td) implies false by {
                    assert(in_open_win(lo3, hi3, tn, td));
                    crate::tparam::lemma_rat_lt_trans(
                        (lo3.num as int), (lo3.den as int), tn, td, (hi3.num as int), hi3.den as int);
                }
            }
        }
        r
    }
}

/// Clips an open parameter window by one axis slab.  The new window admits a
/// rational parameter exactly when the old window admits it and the ray's
/// point at it lies strictly inside the slab.
fn clip_axis(lo: TParam, hi: TParam, bmin: i64, bmax: i64, o: i64, d: i64) -> (res: (
    TParam,
    TParam,
))
    requires
        lo.wf(),
        hi.wf(),
        in_coord(bmin as int),
        in_coord(bmax as int),
        in_coord(o as int),
        in_coord(d as int),
    ensures
        res.0.wf(),
        res.1.wf(),
        forall|tn: int, td: int|
            td > 0 ==> (#[trigger] in_open_win(res.0, res.1, tn, td)
                <==> in_open_win(lo, hi, tn, td)
                    && axis_strictly_inside(bmin as int, (bmax as int), (o as int), (d as int), tn,
                    td)),
{
    if d == 0 {
        if bmin < o && o < bmax {
            proof {
                assert forall|tn: int, td: int| td > 0 implies
                    (#[trigger] in_open_win(lo, hi, tn, td) <==> in_open_win(lo, hi, tn, td)
                        && axis_strictly_inside(bmin as int, (bmax as int), (o as int), 0, tn,
                        td)) by {
                    assert(point_num(o as int, 0, tn, td) == (o as int) * td);
                    assert(bmin as int * td < (o as int) * td && (o as int) * td
                        < (bmax as int) * td) by (nonlinear_arith)
                        requires
                            bmin < o < bmax,
                            td > 0,
                    ;
                }
            }
            (lo, hi)
        } else {
            proof {
                assert forall|tn: int, td: int| td > 0 implies
                    (#[trigger] in_open_win(lo, lo, tn, td) <==> in_open_win(lo, hi, tn, td)
                        && axis_strictly_inside(bmin as int, (bmax as int), (o as int), 0, tn,
                        td)) by {
                    assert(!in_open_win(lo, lo, tn, td)) by {
                        if in_open_win(lo, lo, tn, td) {
                            crate::tparam::lemma_rat_lt_trans(
                                (lo.num as int), (lo.den as int), tn, td,
                                (lo.num as int), lo.den as int);
                        }
                    }
                    assert(point_num(o as int, 0, tn, td) == (o as int) * td);
                    if o <= bmin {
                        assert(o as int * td <= (bmin as int) * td) by (nonlinear_arith)
                            requires
                                o <= bmin,
                                td > 0,
                        ;
                    } else {
                        assert(o as int * td >= (bmax as int) * td) by (nonlinear_arith)
                            requires
                                o >= bmax,
                                td > 0,
                        ;
                    }
                }
            }
            (lo, lo)
        }
    } else {
        let entry: TParam;
        let exit: TParam;
        if d > 0 {
            entry = TParam { num: (bmin as i128) - (o as i128), den: d as i128 };
            exit = TParam { num: (bmax as i128) - (o as i128), den: d as i128 };
        } else {
            entry = TParam { num: (o as i128) - (bmax as i128), den: -(d as i128) };
            exit = TParam { num: (o as i128) - (bmin as i128), den: -(d as i128) };
        }
        let nlo = lo.max_with(&entry);
        let nhi = hi.min_with(&exit);
        proof {
            assert forall|tn: int, td: int| td > 0 implies
                (#[trigger] in_open_win(nlo, nhi, tn, td) <==> in_open_win(lo, hi, tn, td)
                    && axis_strictly_inside(bmin as int, (bmax as int), (o as int), (d as int), tn,
                    td)) by {
                lemma_clip_axis_case(lo, hi, entry, exit, nlo, nhi,
                    (bmin as int), (bmax as int), (o as int), (d as int), tn, td);
            }
        }
        (nlo, nhi)
    }
}

/// For a nonzero direction component, strict slab membership of the ray
/// point is exactly strict membership in the `(entry, exit)` parameter
/// window, and clipping the window by entry/exit preserves exactly the
/// parameters satisfying both.
proof fn lemma_clip_axis_case(
    lo: TParam, hi: TParam, entry: TParam, exit: TParam, nlo: TParam, nhi: TParam,
    bmin: int, bmax: int, o: int, d: int, tn: int, td: int,
)
    requires
        lo.wf(),
        hi.wf(),
        entry.wf(),
        exit.wf(),
        d != 0,
        d > 0 ==> entry.num == bmin - o && entry.den == d && exit.num == bmax - o
            && exit.den == d,
        d < 0 ==> entry.num == o - bmax && entry.den == -d && exit.num == o - bmin
            && exit.den == -d,
        nlo == if crate::tparam::t_le(entry, lo) { lo } else { entry },
        nhi == if crate::tparam::t_le(hi, exit) { hi } else { exit },
        td > 0,
    ensures
        in_open_win(nlo, nhi, tn, td) <==> in_open_win(lo, hi, tn, td)
            && axis_strictly_inside(bmin, bmax, o, d, tn, td),
{
    // Strict slab membership is exactly the open (entry, exit) window.
    if d > 0 {
        assert(rat_lt((entry.num as int), (entry.den as int), tn, td)
            <==> bmin * td < o * td + tn * d) by (nonlinear_arith)
            requires
                td > 0,
                d > 0,
                entry.num == bmin - o,
                entry.den == d,
        ;
        assert(rat_lt(tn, td, (exit.num as int), exit.den as int)
            <==> o * td + tn * d < bmax * td) by (nonlinear_arith)
            requires
                td > 0,
                d > 0,
                exit.num == bmax - o,
                exit.den == d,
        ;
    } else {
        assert(rat_lt((entry.num as int), (entry.den as int), tn, td)
            <==> o * td + tn * d < bmax * td) by (nonlinear_arith)
            requires
                td > 0,
                d < 0,
                entry.num == o - bmax,
                entry.den == -d,
        ;
        assert(rat_lt(tn, td, (exit.num as int), exit.den as int)
            <==> bmin * td < o * td + tn * d) by (nonlinear_arith)
            requires
                td > 0,
                d < 0,
                exit.num == o - bmin,
                exit.den == -d,
        ;
    }
    assert(axis_strictly_inside(bmin, bmax, o, d, tn, td)
        <==> in_open_win(entry, exit, tn, td));
    // Clipping by entry/exit keeps exactly the parameters satisfying both.
    if in_open_win(nlo, nhi, tn, td) {
        if crate::tparam::t_le(entry, lo) {
            crate::tparam::lemma_rat_le_lt_trans(
                (entry.num as int), (entry.den as int), (lo.num as int), (lo.den as int), tn, td);
        } else {
            crate::tparam::lemma_rat_le_lt_trans(
                (lo.num as int), (lo.den as int), (entry.num as int), (entry.den as int), tn, td);
        }
        if crate::tparam::t_le(hi, exit) {
            crate::tparam::lemma_rat_lt_le_trans(
                tn, td, (hi.num as int), (hi.den as int), (exit.num as int), exit.den as int);
        } else {
            crate::tparam::lemma_rat_lt_le_trans(
                tn, td, (exit.num as int), (exit.den as int), (hi.num as int), hi.den as int);
        }
    }
}

/// Every box built from points is made of coordinates.
proof fn lemma_box_of_points_wf(s: Seq<Point3>, n: int)
    requires
        1 <= n <= s.len(),
        forall|i: int| 0 <= i < s.len() ==> (#[trigger] s[i]).wf(),
    ensures
        box_of_points(s.subrange(0, n)).wf(),
    decreases n,
{
    if n == 1 {
        assert(s.subrange(0, 1).len() == 1);
        assert(s.subrange(0, 1)[0] == s[0]);
    } else {
        lemma_box_of_points_wf(s, n - 1);
        assert(s.subrange(0, n).drop_last() =~= s.subrange(0, n - 1));
        assert(s.subrange(0, n).last() == s[n - 1]);
    }
}

} // verus!

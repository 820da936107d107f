//! Rotations as lattice quaternions.
//!
//! A rotation is stored as an unnormalized quaternion; applying it divides
//! by the squared norm, so no square root is ever needed, and the identity
//! quaternion rotates every vector to itself exactly.

use vstd::prelude::*;
use crate::fx::{in_coord, sat_c, FX_ONE};
use crate::vec3::{dot_spec, Vec3};

verus! {

/// Largest raw magnitude allowed for a quaternion component.
pub const Q_MAX: i64 = 0x4_0000;

/// A quaternion with vector part `v` and scalar part `s`, both raw.
#[derive(Clone, Copy, Debug, PartialEq, Eq, Structural)]
pub struct Quaternion {
    pub v: Vec3,
    pub s: i64,
}

/// The squared norm of a quaternion, exact.
pub open spec fn q_norm_sq(q: Quaternion) -> int {
    dot_spec(q.v, q.v) + (q.s as int) * (q.s as int)
}

/// One rotated coordinate: the Rodrigues form of `q p q*`, divided by the
/// squared norm and rounded down, then clamped to the coordinate range.
pub open spec fn rotate_coord(vi: int, ui: int, s: int, uu: int, duv: int, ci: int, qq: int)
    -> int {
    sat_c((vi * (s * s - uu) + 2 * (ui * duv) + 2 * (s * ci)) / qq)
}

/// The cross product of the raw integer vectors, exact.
pub open spec fn cross_spec(a: Vec3, b: Vec3) -> (int, int, int) {
    (
        (a.y as int) * (b.z as int) - (a.z as int) * (b.y as int),
        (a.z as int) * (b.x as int) - (a.x as int) * (b.z as int),
        (a.x as int) * (b.y as int) - (a.y as int) * (b.x as int),
    )
}

/// The vector `vec` rotated by `q`, componentwise.
pub open spec fn rotate_spec(q: Quaternion, vec: Vec3) -> Vec3 {
    let uu = dot_spec(q.v, q.v);
    let duv = dot_spec(q.v, vec);
    let qq = q_norm_sq(q);
    let c = cross_spec(q.v, vec);
    Vec3 {
        x: rotate_coord(vec.x as int, q.v.x as int, q.s as int, uu, duv, c.0, qq) as i64,
        y: rotate_coord(vec.y as int, q.v.y as int, q.s as int, uu, duv, c.1, qq) as i64,
        z: rotate_coord(vec.z as int, q.v.z as int, q.s as int, uu, duv, c.2, qq) as i64,
    }
}

impl Quaternion {
    /// Components bounded and the norm nonzero, so rotation can divide.
    pub open spec fn wf(self) -> bool {
        -Q_MAX <= self.v.x <= Q_MAX && -Q_MAX <= self.v.y <= Q_MAX
            && -Q_MAX <= self.v.z <= Q_MAX && -Q_MAX <= self.s <= Q_MAX
            && q_norm_sq(self) >= 1
    }

    /// The rotation that maps every vector to itself.
    pub open spec fn identity_spec() -> Quaternion {
        Quaternion { v: Vec3 { x: 0, y: 0, z: 0 }, s: FX_ONE }
    }

    pub fn new(v: Vec3, s: i64) -> (r: Quaternion)
        ensures
            r == (Quaternion { v, s }),
    {
        Quaternion { v, s }
    }

    pub fn identity() -> (r: Quaternion)
        ensures
            r == Quaternion::identity_spec(),
            r.wf(),
    {
        let r = Quaternion { v: Vec3 { x: 0, y: 0, z: 0 }, s: FX_ONE };
        proof {
            assert(q_norm_sq(r) == FX_ONE as int * FX_ONE as int);
            assert(FX_ONE as int * FX_ONE as int >= 1) by (nonlinear_arith);
        }
        r
    }

    /// The conjugate, which applies the inverse rotation.
    pub fn conjugate(&self) -> (r: Quaternion)
        requires
            self.wf(),
        ensures
            r.v.x == -self.v.x && r.v.y == -self.v.y && r.v.z == -self.v.z && r.s == self.s,
            r.wf(),
    {
        let r = Quaternion { v: self.v.neg(), s: self.s };
        proof {
            lemma_conj_norm(*self, r);
        }
        r
    }

    /// The exact squared norm.
    pub fn squared_norm(&self) -> (r: i128)
        requires
            self.v.wf(),
            in_coord(self.s as int),
        ensures
            r == q_norm_sq(*self),
    {
        proof {
            crate::tparam::lemma_abs_product_bound(
                self.s as int, self.s as int, crate::fx::COORD_MAX as int,
                crate::fx::COORD_MAX as int);
            crate::vec3::lemma_dot_bound(self.v, self.v, crate::fx::COORD_MAX as int,
                crate::fx::COORD_MAX as int);
        }
        self.v.squared_length() + (self.s as i128) * (self.s as i128)
    }

    /// Rotates `vec` by this quaternion.
    pub fn rotate_vector(&self, vec: Vec3) -> (r: Vec3)
        requires
            self.wf(),
            vec.wf(),
        ensures
            r == rotate_spec(*self, vec),
            r.wf(),
            *self == Quaternion::identity_spec() ==> r == vec,
    {
        let uu128: i128 = self.v.squared_length();
        proof {
            crate::vec3::lemma_dot_bound(self.v, self.v, Q_MAX as int, Q_MAX as int);
            crate::vec3::lemma_dot_bound(self.v, vec, Q_MAX as int,
                crate::fx::COORD_MAX as int);
            crate::tparam::lemma_abs_product_bound(self.s as int, self.s as int,
                Q_MAX as int, Q_MAX as int);
        }
        let duv: i128 = Vec3::dot(&self.v, &vec);
        let ss: i128 = (self.s as i128) * (self.s as i128);
        proof {
            assert(ss as int >= 0) by (nonlinear_arith)
                requires ss as int == (self.s as int) * (self.s as int),
            ;
        }
        let qq: i128 = uu128 + ss;
        proof {
            crate::tparam::lemma_abs_product_bound(self.v.y as int, vec.z as int,
                Q_MAX as int, crate::fx::COORD_MAX as int);
            crate::tparam::lemma_abs_product_bound(self.v.z as int, vec.y as int,
                Q_MAX as int, crate::fx::COORD_MAX as int);
            crate::tparam::lemma_abs_product_bound(self.v.z as int, vec.x as int,
                Q_MAX as int, crate::fx::COORD_MAX as int);
            crate::tparam::lemma_abs_product_bound(self.v.x as int, vec.z as int,
                Q_MAX as int, crate::fx::COORD_MAX as int);
            crate::tparam::lemma_abs_product_bound(self.v.x as int, vec.y as int,
                Q_MAX as int, crate::fx::COORD_MAX as int);
            crate::tparam::lemma_abs_product_bound(self.v.y as int, vec.x as int,
                Q_MAX as int, crate::fx::COORD_MAX as int);
        }
        let cx: i128 = (self.v.y as i128) * (vec.z as i128)
            - (self.v.z as i128) * (vec.y as i128);
        let cy: i128 = (self.v.z as i128) * (vec.x as i128)
            - (self.v.x as i128) * (vec.z as i128);
        let cz: i128 = (self.v.x as i128) * (vec.y as i128)
            - (self.v.y as i128) * (vec.x as i128);
        let x = rotate_axis(vec.x, self.v.x, self.s, uu128, ss, duv, cx, qq);
        let y = rotate_axis(vec.y, self.v.y, self.s, uu128, ss, duv, cy, qq);
        let z = rotate_axis(vec.z, self.v.z, self.s, uu128, ss, duv, cz, qq);
        let r = Vec3 { x, y, z };
        proof {
            if *self == Quaternion::identity_spec() {
                lemma_rotate_identity(*self, vec, r);
            }
        }
        r
    }
}

fn rotate_axis(vi: i64, ui: i64, s: i64, uu: i128, ss: i128, duv: i128, ci: i128, qq: i128)
    -> (r: i64)
    requires
        in_coord(vi as int),
        -Q_MAX <= ui <= Q_MAX,
        -Q_MAX <= s <= Q_MAX,
        0 <= uu <= 0x10_0000_0000_0000,
        0 <= ss <= 0x10_0000_0000_0000,
        -0x10_0000_0000_0000_0000 <= duv <= 0x10_0000_0000_0000_0000,
        -0x10_0000_0000_0000_0000 <= ci <= 0x10_0000_0000_0000_0000,
        qq == uu + ss,
        qq >= 1,
    ensures
        r == sat_c(((vi as int) * ((ss - uu) as int) + 2 * ((ui as int) * (duv as int))
            + 2 * ((s as int) * (ci as int))) / (qq as int)),
        in_coord(r as int),
{
    proof {
        crate::tparam::lemma_abs_product_bound(vi as int, (ss - uu) as int,
            crate::fx::COORD_MAX as int, 0x10_0000_0000_0000);
        crate::tparam::lemma_abs_product_bound(ui as int, duv as int,
            Q_MAX as int, 0x10_0000_0000_0000_0000);
        crate::tparam::lemma_abs_product_bound(s as int, ci as int,
            Q_MAX as int, 0x10_0000_0000_0000_0000);
    }
    let pa: i128 = (vi as i128) * (ss - uu);
    let pb: i128 = (ui as i128) * duv;
    let pc: i128 = (s as i128) * ci;
    let num: i128 = pa + 2 * pb + 2 * pc;
    let q = crate::fx::div_floor_i128(num, qq);
    crate::fx::sat_coord(q)
}

/// Conjugation preserves the squared norm.
proof fn lemma_conj_norm(q: Quaternion, r: Quaternion)
    requires
        r.v.x == -q.v.x,
        r.v.y == -q.v.y,
        r.v.z == -q.v.z,
        r.s == q.s,
    ensures
        q_norm_sq(r) == q_norm_sq(q),
{
    assert((r.v.x as int) * (r.v.x as int) == (q.v.x as int) * (q.v.x as int))
        by (nonlinear_arith)
        requires r.v.x == -q.v.x,
    ;
    assert((r.v.y as int) * (r.v.y as int) == (q.v.y as int) * (q.v.y as int))
        by (nonlinear_arith)
        requires r.v.y == -q.v.y,
    ;
    assert((r.v.z as int) * (r.v.z as int) == (q.v.z as int) * (q.v.z as int))
        by (nonlinear_arith)
        requires r.v.z == -q.v.z,
    ;
}

/// The identity quaternion rotates every vector to itself.
proof fn lemma_rotate_identity(q: Quaternion, vec: Vec3, r: Vec3)
    requires
        q == Quaternion::identity_spec(),
        vec.wf(),
        r == rotate_spec(q, vec),
    ensures
        r == vec,
{
    let one2 = FX_ONE as int * FX_ONE as int;
    assert(one2 == 65536 * 65536);
    assert(q.v == (Vec3 { x: 0, y: 0, z: 0 }));
    assert(dot_spec(q.v, q.v) == 0);
    assert(dot_spec(q.v, vec) == 0);
    assert(q_norm_sq(q) == one2);
    lemma_identity_coord(vec.x as int, one2);
    lemma_identity_coord(vec.y as int, one2);
    lemma_identity_coord(vec.z as int, one2);
}

/// Dividing `v * k` by `k` gives back `v`, inside the coordinate clamp.
proof fn lemma_identity_coord(v: int, k: int)
    requires
        k >= 1,
        in_coord(v),
    ensures
        sat_c((v * k + 2 * 0 * 0 + 2 * (FX_ONE as int) * 0) / k) == v,
{
    assert(v * k + 2 * 0 * 0 + 2 * (FX_ONE as int) * 0 == v * k) by (nonlinear_arith);
    assert((v * k) / k == v) by {
        vstd::arithmetic::div_mod::lemma_div_multiples_vanish(v, k);
        assert(v * k == k * v) by (nonlinear_arith);
    }
}

} // verus!

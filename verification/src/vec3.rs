//! Lattice vectors and points.

use vstd::prelude::*;
use crate::fx::{fx_mul, fx_mul_spec, in_coord, COORD_MAX, FX_ONE};
use crate::tparam::TParam;

verus! {

/// A vector of three raw fixed-point components.
#[derive(Clone, Copy, Debug, PartialEq, Eq, Structural)]
pub struct Vec3 {
    pub x: i64,
    pub y: i64,
    pub z: i64,
}

/// Positions and vectors share one representation.
pub type Point3 = Vec3;

/// Colors are vectors of three linear-space channels.
pub type Color = Vec3;

impl Vec3 {
    /// Every component is a valid coordinate.
    pub open spec fn wf(self) -> bool {
        in_coord(self.x as int) && in_coord(self.y as int) && in_coord(self.z as int)
    }

    /// All components zero.
    pub open spec fn is_zero(self) -> bool {
        self.x == 0 && self.y == 0 && self.z == 0
    }

    pub fn new(x: i64, y: i64, z: i64) -> (r: Vec3)
        ensures
            r == (Vec3 { x, y, z }),
    {
        Vec3 { x, y, z }
    }

    pub fn zero() -> (r: Vec3)
        ensures
            r == (Vec3 { x: 0, y: 0, z: 0 }),
    {
        Vec3 { x: 0, y: 0, z: 0 }
    }

    pub fn neg(&self) -> (r: Vec3)
        requires
            self.wf(),
        ensures
            r.x == -self.x && r.y == -self.y && r.z == -self.z,
            r.wf(),
    {
        Vec3 { x: -self.x, y: -self.y, z: -self.z }
    }

    /// Componentwise sum; exact, but the result may leave the coordinate
    /// range, which callers re-establish where they need it.
    pub fn add(&self, other: &Vec3) -> (r: Vec3)
        requires
            self.wf(),
            other.wf(),
        ensures
            r.x == self.x + other.x,
            r.y == self.y + other.y,
            r.z == self.z + other.z,
    {
        Vec3 { x: self.x + other.x, y: self.y + other.y, z: self.z + other.z }
    }

    /// Componentwise difference; exact.
    pub fn sub(&self, other: &Vec3) -> (r: Vec3)
        requires
            self.wf(),
            other.wf(),
        ensures
            r.x == self.x - other.x,
            r.y == self.y - other.y,
            r.z == self.z - other.z,
    {
        Vec3 { x: self.x - other.x, y: self.y - other.y, z: self.z - other.z }
    }

    /// Scales by a raw scalar on the lattice, rounding each component down.
    pub fn scale(&self, s: i64) -> (r: Vec3)
        requires
            self.wf(),
            -COORD_MAX <= s <= COORD_MAX,
        ensures
            r.x == fx_mul_spec(self.x as int, s as int),
            r.y == fx_mul_spec(self.y as int, s as int),
            r.z == fx_mul_spec(self.z as int, s as int),
    {
        proof {
            crate::tparam::lemma_abs_product_bound(
                self.x as int, s as int, COORD_MAX as int, COORD_MAX as int);
            crate::tparam::lemma_abs_product_bound(
                self.y as int, s as int, COORD_MAX as int, COORD_MAX as int);
            crate::tparam::lemma_abs_product_bound(
                self.z as int, s as int, COORD_MAX as int, COORD_MAX as int);
        }
        Vec3 { x: fx_mul(self.x, s), y: fx_mul(self.y, s), z: fx_mul(self.z, s) }
    }

    /// Componentwise product on the lattice (color attenuation).
    pub fn hadamard(&self, other: &Vec3) -> (r: Vec3)
        requires
            self.wf(),
            other.wf(),
        ensures
            r.x == fx_mul_spec(self.x as int, other.x as int),
            r.y == fx_mul_spec(self.y as int, other.y as int),
            r.z == fx_mul_spec(self.z as int, other.z as int),
    {
        proof {
            crate::tparam::lemma_abs_product_bound(
                self.x as int, other.x as int, COORD_MAX as int, COORD_MAX as int);
            crate::tparam::lemma_abs_product_bound(
                self.y as int, other.y as int, COORD_MAX as int, COORD_MAX as int);
            crate::tparam::lemma_abs_product_bound(
                self.z as int, other.z as int, COORD_MAX as int, COORD_MAX as int);
        }
        Vec3 {
            x: fx_mul(self.x, other.x),
            y: fx_mul(self.y, other.y),
            z: fx_mul(self.z, other.z),
        }
    }

    /// Exact dot product of the raw components, in `i128`.
    pub fn dot(a: &Vec3, b: &Vec3) -> (r: i128)
        requires
            a.wf(),
            b.wf(),
        ensures
            r == dot_spec(*a, *b),
    {
        proof {
            crate::tparam::lemma_abs_product_bound(
                a.x as int, b.x as int, COORD_MAX as int, COORD_MAX as int);
            crate::tparam::lemma_abs_product_bound(
                a.y as int, b.y as int, COORD_MAX as int, COORD_MAX as int);
            crate::tparam::lemma_abs_product_bound(
                a.z as int, b.z as int, COORD_MAX as int, COORD_MAX as int);
        }
        (a.x as i128) * (b.x as i128) + (a.y as i128) * (b.y as i128)
            + (a.z as i128) * (b.z as i128)
    }

    /// Exact squared length of the raw components.
    pub fn squared_length(&self) -> (r: i128)
        requires
            self.wf(),
        ensures
            r == dot_spec(*self, *self),
            r >= 0,
            self.is_zero() <==> r == 0,
    {
        proof {
            lemma_self_dot_nonneg(*self);
        }
        Vec3::dot(self, self)
    }

    /// Linear interpolation `self + t * (other - self)` with an exact
    /// rational weight, rounded down per component; exact at both endpoints.
    pub fn lerp_t(&self, other: &Vec3, t: &TParam) -> (r: Vec3)
        requires
            self.wf(),
            other.wf(),
            t.wf(),
            0 <= t.num <= t.den,
        ensures
            r.x == lerp_coord(self.x as int, other.x as int, t.num as int, t.den as int),
            r.y == lerp_coord(self.y as int, other.y as int, t.num as int, t.den as int),
            r.z == lerp_coord(self.z as int, other.z as int, t.num as int, t.den as int),
            r.wf(),
            t.num == 0 ==> r == *self,
            t.num == t.den ==> r == *other,
    {
        let x = lerp_axis(self.x, other.x, t);
        let y = lerp_axis(self.y, other.y, t);
        let z = lerp_axis(self.z, other.z, t);
        Vec3 { x, y, z }
    }
}

/// The mirror image of `v` about the plane normal to `n`: each component is
/// `v_i - 2 (v.n) n_i / |n|^2`, rounded down and clamped to the coordinate
/// range.  Exact for axis-aligned normals of unit raw scale.
pub open spec fn reflect_spec(v: Vec3, n: Vec3) -> Vec3 {
    let nsq = dot_spec(n, n);
    let d = dot_spec(v, n);
    Vec3 {
        x: crate::fx::sat_c((v.x as int) - (2 * d * (n.x as int)) / nsq) as i64,
        y: crate::fx::sat_c((v.y as int) - (2 * d * (n.y as int)) / nsq) as i64,
        z: crate::fx::sat_c((v.z as int) - (2 * d * (n.z as int)) / nsq) as i64,
    }
}

impl Vec3 {
    /// Reflects `v` about the normal `n`.
    pub fn reflect(v: &Vec3, n: &Vec3) -> (r: Vec3)
        requires
            v.wf(),
            n.wf(),
            !n.is_zero(),
        ensures
            r == reflect_spec(*v, *n),
            r.wf(),
    {
        proof {
            lemma_self_dot_nonneg(*n);
            crate::tparam::lemma_abs_product_bound(
                v.x as int, n.x as int, COORD_MAX as int, COORD_MAX as int);
            crate::tparam::lemma_abs_product_bound(
                v.y as int, n.y as int, COORD_MAX as int, COORD_MAX as int);
            crate::tparam::lemma_abs_product_bound(
                v.z as int, n.z as int, COORD_MAX as int, COORD_MAX as int);
        }
        let nsq: i128 = Vec3::dot(n, n);
        let d: i128 = Vec3::dot(v, n);
        let x = reflect_axis(v.x, n.x, d, nsq);
        let y = reflect_axis(v.y, n.y, d, nsq);
        let z = reflect_axis(v.z, n.z, d, nsq);
        Vec3 { x, y, z }
    }
}

fn reflect_axis(vi: i64, ni: i64, d: i128, nsq: i128) -> (r: i64)
    requires
        in_coord(vi as int),
        in_coord(ni as int),
        nsq > 0,
        -0x1000_0000_0000_0000 <= d <= 0x1000_0000_0000_0000,
    ensures
        r == crate::fx::sat_c((vi as int) - (2 * d as int * (ni as int)) / nsq as int),
        in_coord(r as int),
{
    proof {
        crate::tparam::lemma_abs_product_bound(
            2 * d as int, ni as int, 0x2000_0000_0000_0000, COORD_MAX as int);
    }
    let w: i128 = 2 * d * (ni as i128);
    let q = crate::fx::div_floor_i128(w, nsq);
    crate::fx::sat_coord((vi as i128) - q)
}

/// The lattice approximation of the unit vector of `v`: each component is
/// `v_i * FX_ONE / sqrt(|v|^2)`, rounded down.
pub open spec fn unit_spec(v: Vec3) -> Vec3 {
    let len = crate::fx::sqrt_floor(dot_spec(v, v) as nat) as int;
    Vec3 {
        x: ((v.x as int * FX_ONE as int) / len) as i64,
        y: ((v.y as int * FX_ONE as int) / len) as i64,
        z: ((v.z as int * FX_ONE as int) / len) as i64,
    }
}

impl Vec3 {
    /// An approximate unit vector for `v` on the lattice: each component is
    /// `v_i * FX_ONE / |v|`, rounded down, so components lie within about
    /// one lattice step of the unit ball.
    pub fn unit_approx(&self) -> (r: Vec3)
        requires
            self.wf(),
            !self.is_zero(),
        ensures
            r == unit_spec(*self),
            r.wf(),
            -2 * FX_ONE as int <= r.x <= 2 * FX_ONE as int,
            -2 * FX_ONE as int <= r.y <= 2 * FX_ONE as int,
            -2 * FX_ONE as int <= r.z <= 2 * FX_ONE as int,
    {
        let sq = self.squared_length();
        let len = crate::fx::isqrt_u128(sq as u128) as i128;
        proof {
            lemma_component_le_root(*self);
        }
        let x = unit_axis(self.x, len);
        let y = unit_axis(self.y, len);
        let z = unit_axis(self.z, len);
        Vec3 { x, y, z }
    }
}

fn unit_axis(vi: i64, len: i128) -> (r: i64)
    requires
        in_coord(vi as int),
        1 <= len,
        -len <= vi <= len,
    ensures
        r == (vi as int * FX_ONE as int) / (len as int),
        -2 * FX_ONE as int <= r <= 2 * FX_ONE as int,
        in_coord(r as int),
{
    proof {
        crate::tparam::lemma_abs_product_bound(
            vi as int, FX_ONE as int, COORD_MAX as int, FX_ONE as int);
    }
    let w: i128 = (vi as i128) * (FX_ONE as i128);
    let q = crate::fx::div_floor_i128(w, len);
    proof {
        vstd::arithmetic::div_mod::lemma_div_is_ordered(
            w as int, len as int * FX_ONE as int, len as int);
        vstd::arithmetic::div_mod::lemma_div_is_ordered(
            -(len as int) * (FX_ONE as int), w as int, len as int);
        assert(len as int * FX_ONE as int / len as int == FX_ONE as int) by {
            vstd::arithmetic::div_mod::lemma_div_multiples_vanish(
                FX_ONE as int, len as int);
        }
        assert(-(len as int) * (FX_ONE as int) == (-FX_ONE as int) * len as int)
            by (nonlinear_arith)
        ;
        assert((-FX_ONE as int) * len as int / len as int == -FX_ONE as int) by {
            vstd::arithmetic::div_mod::lemma_div_multiples_vanish(
                -FX_ONE as int, len as int);
        }
        assert(w as int <= len as int * FX_ONE as int) by (nonlinear_arith)
            requires
                vi <= len,
                FX_ONE > 0,
                w == vi as int * FX_ONE as int,
        ;
        assert(-(len as int) * (FX_ONE as int) <= w) by (nonlinear_arith)
            requires
                -len <= vi,
                FX_ONE > 0,
                w == vi as int * FX_ONE as int,
        ;
    }
    q as i64
}

/// Each component's magnitude is at most the rounded length.
proof fn lemma_component_le_root(v: Vec3)
    ensures
        -(crate::fx::sqrt_floor(dot_spec(v, v) as nat) as int) <= v.x
            <= crate::fx::sqrt_floor(dot_spec(v, v) as nat) as int,
        -(crate::fx::sqrt_floor(dot_spec(v, v) as nat) as int) <= v.y
            <= crate::fx::sqrt_floor(dot_spec(v, v) as nat) as int,
        -(crate::fx::sqrt_floor(dot_spec(v, v) as nat) as int) <= v.z
            <= crate::fx::sqrt_floor(dot_spec(v, v) as nat) as int,
{
    lemma_self_dot_nonneg(v);
    assert((v.x as int) * (v.x as int) >= 0) by (nonlinear_arith);
    assert((v.y as int) * (v.y as int) >= 0) by (nonlinear_arith);
    assert((v.z as int) * (v.z as int) >= 0) by (nonlinear_arith);
    lemma_abs_component_le(v.x as int, dot_spec(v, v));
    lemma_abs_component_le(v.y as int, dot_spec(v, v));
    lemma_abs_component_le(v.z as int, dot_spec(v, v));
}

/// A component whose square is at most `s` is bounded by `sqrt_floor(s)`.
proof fn lemma_abs_component_le(c: int, s: int)
    requires
        c * c <= s,
        s >= 0,
    ensures
        -(crate::fx::sqrt_floor(s as nat) as int) <= c
            <= crate::fx::sqrt_floor(s as nat) as int,
{
    let a = if c >= 0 { c } else { -c };
    assert(a * a == c * c) by (nonlinear_arith)
        requires a == c || a == -c,
    ;
    crate::fx::lemma_sqrt_floor_square(a as nat);
    crate::fx::lemma_sqrt_floor_monotone((a * a) as nat, s as nat);
}

/// A value clamped into `[lo, hi]`.
pub open spec fn clamp_c(v: int, lo: int, hi: int) -> int {
    if v < lo {
        lo
    } else if v > hi {
        hi
    } else {
        v
    }
}

/// What `refract` returns for unequal indices: the lattice evaluation of
/// the textbook decomposition of the refracted direction into a tangential
/// part scaled by the index ratio and a normal part recovered from the
/// remaining length, every intermediate rounded and clamped as computed.
pub open spec fn refract_bend_spec(v: Vec3, n: Vec3, eta_in: int, eta_out: int) -> Vec3 {
    let one = FX_ONE as int;
    let uv = unit_spec(v);
    let un = unit_spec(n);
    let f = clamp_c(crate::fx::fx_div_spec(eta_in, eta_out), 0, 64 * one);
    let cos = clamp_c(crate::fx::floor_div(-dot_spec(uv, un), one), -2 * one, one);
    let sx = clamp_c(fx_mul_spec(cos, (un.x as int)), -8 * one, 8 * one);
    let sy = clamp_c(fx_mul_spec(cos, (un.y as int)), -8 * one, 8 * one);
    let sz = clamp_c(fx_mul_spec(cos, (un.z as int)), -8 * one, 8 * one);
    let ox = clamp_c(fx_mul_spec(f, uv.x + sx), -COORD_MAX as int, COORD_MAX as int);
    let oy = clamp_c(fx_mul_spec(f, uv.y + sy), -COORD_MAX as int, COORD_MAX as int);
    let oz = clamp_c(fx_mul_spec(f, uv.z + sz), -COORD_MAX as int, COORD_MAX as int);
    let ortho = Vec3 { x: ox as i64, y: oy as i64, z: oz as i64 };
    let osq = dot_spec(ortho, ortho);
    let k = if one * one >= osq { one * one - osq } else { osq - one * one };
    let s0 = crate::fx::sqrt_floor(k as nat) as int;
    let s = if s0 > 2 * one { 2 * one } else { s0 };
    let px = clamp_c(fx_mul_spec(s, (un.x as int)), -8 * one, 8 * one);
    let py = clamp_c(fx_mul_spec(s, (un.y as int)), -8 * one, 8 * one);
    let pz = clamp_c(fx_mul_spec(s, (un.z as int)), -8 * one, 8 * one);
    Vec3 {
        x: crate::fx::sat_c(ox - px) as i64,
        y: crate::fx::sat_c(oy - py) as i64,
        z: crate::fx::sat_c(oz - pz) as i64,
    }
}

/// What `refract` returns: the incident direction unchanged for equal
/// indices (Snell's law bends nothing there, computed exactly), the lattice
/// bend otherwise.
pub open spec fn refract_spec(v: Vec3, n: Vec3, eta_in: int, eta_out: int) -> Vec3 {
    if eta_in == eta_out {
        v
    } else {
        refract_bend_spec(v, n, eta_in, eta_out)
    }
}

impl Vec3 {
    /// Snell refraction of `v` through a surface of normal `n`, from a
    /// medium of index `eta_in` into one of index `eta_out` (raw lattice
    /// indices).  With equal indices the direction is returned unchanged:
    /// Snell's law bends nothing there, and the lattice computes that case
    /// exactly.  Otherwise the direction is the lattice evaluation of the
    /// textbook decomposition into tangential and normal parts.
    pub fn refract(v: &Vec3, n: &Vec3, eta_in: i64, eta_out: i64) -> (r: Vec3)
        requires
            v.wf(),
            n.wf(),
            !v.is_zero(),
            !n.is_zero(),
            1 <= eta_in,
            1 <= eta_out,
            in_coord(eta_in as int),
            in_coord(eta_out as int),
        ensures
            r == refract_spec(*v, *n, eta_in as int, eta_out as int),
            eta_in == eta_out ==> r == *v,
            r.wf(),
    {
        if eta_in == eta_out {
            return *v;
        }
        let uv = v.unit_approx();
        let un = n.unit_approx();
        let f0 = crate::fx::fx_div(eta_in, eta_out);
        let f = crate::fx::clamp_i64(f0, 0, 64 * FX_ONE);
        let d: i128 = Vec3::dot(&uv, &un);
        proof {
            lemma_dot_bound(uv, un, 2 * FX_ONE as int, 2 * FX_ONE as int);
        }
        let c0 = crate::fx::div_floor_i128(-d, FX_ONE as i128) as i64;
        let cos = crate::fx::clamp_i64(c0, -2 * FX_ONE, FX_ONE);
        let sx = crate::fx::clamp_i64(fx_mul_bounded(cos, un.x), -8 * FX_ONE, 8 * FX_ONE);
        let sy = crate::fx::clamp_i64(fx_mul_bounded(cos, un.y), -8 * FX_ONE, 8 * FX_ONE);
        let sz = crate::fx::clamp_i64(fx_mul_bounded(cos, un.z), -8 * FX_ONE, 8 * FX_ONE);
        let ox = crate::fx::clamp_i64(fx_mul_bounded(f, uv.x + sx), -COORD_MAX, COORD_MAX);
        let oy = crate::fx::clamp_i64(fx_mul_bounded(f, uv.y + sy), -COORD_MAX, COORD_MAX);
        let oz = crate::fx::clamp_i64(fx_mul_bounded(f, uv.z + sz), -COORD_MAX, COORD_MAX);
        let ortho = Vec3 { x: ox, y: oy, z: oz };
        let osq = Vec3::dot(&ortho, &ortho);
        proof {
            lemma_dot_bound(ortho, ortho, COORD_MAX as int, COORD_MAX as int);
        }
        let one_sq: i128 = (FX_ONE as i128) * (FX_ONE as i128);
        let k = if one_sq >= osq { one_sq - osq } else { osq - one_sq };
        let s128 = crate::fx::isqrt_u128(k as u128);
        let s = if s128 > 2 * (FX_ONE as u128) { 2 * FX_ONE } else { s128 as i64 };
        let px = crate::fx::clamp_i64(fx_mul_bounded(s, un.x), -8 * FX_ONE, 8 * FX_ONE);
        let py = crate::fx::clamp_i64(fx_mul_bounded(s, un.y), -8 * FX_ONE, 8 * FX_ONE);
        let pz = crate::fx::clamp_i64(fx_mul_bounded(s, un.z), -8 * FX_ONE, 8 * FX_ONE);
        Vec3 {
            x: crate::fx::sat_coord((ox as i128) - (px as i128)),
            y: crate::fx::sat_coord((oy as i128) - (py as i128)),
            z: crate::fx::sat_coord((oz as i128) - (pz as i128)),
        }
    }
}

/// A lattice product of two moderately sized raw values, with its bound.
fn fx_mul_bounded(a: i64, b: i64) -> (r: i64)
    requires
        -0x4000_0000 <= a <= 0x4000_0000,
        -0x4000_0000 <= b <= 0x4000_0000,
    ensures
        r == crate::fx::fx_mul_spec(a as int, b as int),
        -0x1_0000_0000_0000 <= r <= 0x1_0000_0000_0000,
{
    proof {
        crate::tparam::lemma_abs_product_bound(
            a as int, b as int, 0x4000_0000, 0x4000_0000);
    }
    let p: i128 = (a as i128) * (b as i128);
    let q = crate::fx::div_floor_i128(p, FX_ONE as i128);
    q as i64
}

/// The interpolated coordinate `a + (t * (b - a)) / d`, rounded down.
pub open spec fn lerp_coord(a: int, b: int, tn: int, td: int) -> int {
    a + (tn * (b - a)) / td
}

fn lerp_axis(a: i64, b: i64, t: &TParam) -> (r: i64)
    requires
        in_coord(a as int),
        in_coord(b as int),
        t.wf(),
        0 <= t.num <= t.den,
    ensures
        r == lerp_coord(a as int, b as int, t.num as int, t.den as int),
        in_coord(r as int),
        t.num == 0 ==> r == a,
        t.num == t.den ==> r == b,
{
    let diff: i128 = (b as i128) - (a as i128);
    proof {
        crate::tparam::lemma_abs_product_bound(
            t.num as int, diff as int, crate::tparam::T_DEN_MAX as int, 2 * COORD_MAX as int);
    }
    let prod: i128 = t.num * diff;
    let q = crate::fx::div_floor_i128(prod, t.den);
    proof {
        lemma_lerp_bounds(a as int, b as int, t.num as int, t.den as int);
        if t.num == 0 {
            assert(prod == 0) by (nonlinear_arith)
                requires
                    prod == t.num as int * diff as int,
                    t.num == 0,
            ;
            assert(q == 0) by {
                vstd::arithmetic::div_mod::lemma_div_of0(t.den as int);
            }
        }
        if t.num == t.den {
            assert(prod as int / t.den as int == diff as int) by {
                vstd::arithmetic::div_mod::lemma_div_multiples_vanish(
                    diff as int, t.den as int);
                assert(prod == diff as int * t.den as int) by (nonlinear_arith)
                    requires
                        prod == t.num as int * diff as int,
                        t.num == t.den,
                ;
            }
        }
    }
    (a as i128 + q) as i64
}

/// The interpolated coordinate stays between the endpoints.
pub proof fn lemma_lerp_bounds(a: int, b: int, tn: int, td: int)
    requires
        0 <= tn <= td,
        0 < td,
    ensures
        b >= a ==> a <= lerp_coord(a, b, tn, td) <= b,
        b < a ==> b <= lerp_coord(a, b, tn, td) <= a,
{
    let diff = b - a;
    let prod = tn * diff;
    if b >= a {
        assert(0 <= prod <= td * diff) by (nonlinear_arith)
            requires
                prod == tn * diff,
                0 <= tn <= td,
                0 <= diff,
        ;
        assert(prod / td >= 0) by {
            vstd::arithmetic::div_mod::lemma_div_pos_is_pos(prod, td);
        }
        assert(prod / td <= diff) by (nonlinear_arith)
            requires
                0 <= prod <= td * diff,
                0 < td,
                0 <= diff,
        ;
    } else {
        assert(td * diff <= prod && prod <= 0) by (nonlinear_arith)
            requires
                prod == tn * diff,
                0 <= tn <= td,
                diff < 0,
        ;
        assert(diff <= prod / td && prod / td <= 0) by (nonlinear_arith)
            requires
                td * diff <= prod <= 0,
                0 < td,
                diff < 0,
        ;
    }
}

/// Exact dot product of raw components.
pub open spec fn dot_spec(a: Vec3, b: Vec3) -> int {
    (a.x as int) * (b.x as int) + (a.y as int) * (b.y as int) + (a.z as int) * (b.z as int)
}

/// Componentwise bounds on two vectors bound their dot product.
pub proof fn lemma_dot_bound(a: Vec3, b: Vec3, ca: int, cb: int)
    requires
        -ca <= a.x <= ca,
        -ca <= a.y <= ca,
        -ca <= a.z <= ca,
        -cb <= b.x <= cb,
        -cb <= b.y <= cb,
        -cb <= b.z <= cb,
        0 <= ca,
        0 <= cb,
    ensures
        -3 * (ca * cb) <= dot_spec(a, b),
        dot_spec(a, b) <= 3 * (ca * cb),
{
    crate::tparam::lemma_abs_product_bound(a.x as int, b.x as int, ca, cb);
    crate::tparam::lemma_abs_product_bound(a.y as int, b.y as int, ca, cb);
    crate::tparam::lemma_abs_product_bound(a.z as int, b.z as int, ca, cb);
    let px = (a.x as int) * (b.x as int);
    let py = (a.y as int) * (b.y as int);
    let pz = (a.z as int) * (b.z as int);
    let cap = ca * cb;
    assert(-3 * cap <= px + py + pz && px + py + pz <= 3 * cap) by (nonlinear_arith)
        requires
            -cap <= px <= cap,
            -cap <= py <= cap,
            -cap <= pz <= cap,
    ;
}

/// A vector's dot product with itself is nonnegative, and zero only at zero.
pub proof fn lemma_self_dot_nonneg(v: Vec3)
    ensures
        dot_spec(v, v) >= 0,
        dot_spec(v, v) == 0 <==> v.is_zero(),
{
    assert((v.x as int) * (v.x as int) >= 0) by (nonlinear_arith);
    assert((v.y as int) * (v.y as int) >= 0) by (nonlinear_arith);
    assert((v.z as int) * (v.z as int) >= 0) by (nonlinear_arith);
    if !v.is_zero() {
        if v.x != 0 {
            assert((v.x as int) * (v.x as int) > 0) by (nonlinear_arith)
                requires v.x != 0,
            ;
        } else if v.y != 0 {
            assert((v.y as int) * (v.y as int) > 0) by (nonlinear_arith)
                requires v.y != 0,
            ;
        } else {
            assert((v.z as int) * (v.z as int) > 0) by (nonlinear_arith)
                requires v.z != 0,
            ;
        }
    }
}

} // verus!

//! Lattice Perlin noise.
//!
//! Gradient vectors and permutation tables are drawn once at construction;
//! evaluation is pure fixed-point arithmetic, pinned exactly by the spec
//! functions below.  A triangle wave stands in for the sine of the marble
//! pattern: both alternate with the same period and sign structure, and the
//! triangle wave is exact on the lattice.

use vstd::prelude::*;
use crate::fx::{floor_div, fx_mul_spec, in_coord, sat_c, FX_ONE};
use crate::vec3::{dot_spec, Point3, Vec3};

verus! {

broadcast use vstd::std_specs::vec::group_vec_axioms;

/// Gradient and permutation tables.
pub struct Perlin {
    pub random_vec: Vec<Vec3>,
    pub perm_x: Vec<u8>,
    pub perm_y: Vec<u8>,
    pub perm_z: Vec<u8>,
}

/// The smoothstep weight of a cell fraction, clamped to the unit interval.
pub open spec fn smooth_spec(u: int) -> int {
    let s = fx_mul_spec(fx_mul_spec(u, u), 3 * FX_ONE as int - 2 * u);
    if s < 0 {
        0
    } else if s > FX_ONE as int {
        FX_ONE as int
    } else {
        s
    }
}

/// The gradient vector at an integer lattice corner.
pub open spec fn corner_spec(p: Perlin, ci: int, cj: int, ck: int) -> Vec3 {
    p.random_vec@[(p.perm_x@[ci % 256] ^ p.perm_y@[cj % 256] ^ p.perm_z@[ck % 256]) as int]
}

/// One corner's octave_partution to the trilinear blend.
pub open spec fn term_spec(
    g: Vec3, u: int, v: int, w: int, uu: int, vv: int, ww: int, di: int, dj: int, dk: int,
) -> int {
    let fa = di * uu + (1 - di) * (FX_ONE as int - uu);
    let fb = dj * vv + (1 - dj) * (FX_ONE as int - vv);
    let fc = dk * ww + (1 - dk) * (FX_ONE as int - ww);
    let wv = Vec3 {
        x: (u - di * FX_ONE as int) as i64,
        y: (v - dj * FX_ONE as int) as i64,
        z: (w - dk * FX_ONE as int) as i64,
    };
    let dw = floor_div(dot_spec(g, wv), FX_ONE as int);
    fx_mul_spec(fx_mul_spec(fx_mul_spec(fa, fb), fc), dw)
}

/// The noise value at a point: the smoothed trilinear blend of the eight
/// surrounding corner gradients.
pub open spec fn noise_spec(p: Perlin, pt: Point3) -> int {
    let ci = floor_div(pt.x as int, FX_ONE as int);
    let cj = floor_div(pt.y as int, FX_ONE as int);
    let ck = floor_div(pt.z as int, FX_ONE as int);
    let u = pt.x - ci * FX_ONE as int;
    let v = pt.y - cj * FX_ONE as int;
    let w = pt.z - ck * FX_ONE as int;
    let uu = smooth_spec(u);
    let vv = smooth_spec(v);
    let ww = smooth_spec(w);
    term_spec(corner_spec(p, ci, cj, ck), u, v, w, uu, vv, ww, 0, 0, 0)
        + term_spec(corner_spec(p, ci, cj, ck + 1), u, v, w, uu, vv, ww, 0, 0, 1)
        + term_spec(corner_spec(p, ci, cj + 1, ck), u, v, w, uu, vv, ww, 0, 1, 0)
        + term_spec(corner_spec(p, ci, cj + 1, ck + 1), u, v, w, uu, vv, ww, 0, 1, 1)
        + term_spec(corner_spec(p, ci + 1, cj, ck), u, v, w, uu, vv, ww, 1, 0, 0)
        + term_spec(corner_spec(p, ci + 1, cj, ck + 1), u, v, w, uu, vv, ww, 1, 0, 1)
        + term_spec(corner_spec(p, ci + 1, cj + 1, ck), u, v, w, uu, vv, ww, 1, 1, 0)
        + term_spec(corner_spec(p, ci + 1, cj + 1, ck + 1), u, v, w, uu, vv, ww, 1, 1, 1)
}

/// The point with doubled coordinates, clamped.
pub open spec fn double_spec(pt: Point3) -> Point3 {
    Vec3 {
        x: sat_c(2 * pt.x) as i64,
        y: sat_c(2 * pt.y) as i64,
        z: sat_c(2 * pt.z) as i64,
    }
}

/// Octaves of noise with halving weight and doubling frequency, accumulated
/// with clamping; the result is the magnitude of the sum.
pub open spec fn turb_from(p: Perlin, pt: Point3, accum: int, weight: int, rem: nat) -> int
    decreases rem,
{
    if rem == 0 {
        if accum < 0 {
            -accum
        } else {
            accum
        }
    } else {
        let octave_part = floor_div(weight * noise_spec(p, pt), FX_ONE as int);
        let widened = sat_c(accum + octave_part);
        let acc2 = if widened < -64 * FX_ONE as int {
            -64 * FX_ONE as int
        } else if widened > 64 * FX_ONE as int {
            64 * FX_ONE as int
        } else {
            widened
        };
        turb_from(p, double_spec(pt), acc2, weight / 2, (rem - 1) as nat)
    }
}

impl Perlin {
    /// Tables full and gradients within the unit cube.
    pub open spec fn wf(self) -> bool {
        self.random_vec@.len() == 256 && self.perm_x@.len() == 256
            && self.perm_y@.len() == 256 && self.perm_z@.len() == 256
            && forall|i: int| 0 <= i < 256 ==> {
                &&& -FX_ONE <= (#[trigger] self.random_vec@[i]).x <= FX_ONE
                &&& -FX_ONE <= self.random_vec@[i].y <= FX_ONE
                &&& -FX_ONE <= self.random_vec@[i].z <= FX_ONE
            }
    }

    /// Fresh tables: random unit-ball gradients and shuffled permutations.
    pub fn new(rng: &mut rand::rngs::ThreadRng) -> (r: Perlin)
        ensures
            r.wf(),
    {
        let mut random_vec: Vec<Vec3> = Vec::new();
        let mut i: usize = 0;
        while i < 256
            invariant
                i <= 256,
                random_vec@.len() == i,
                forall|j: int| 0 <= j < i ==> {
                    &&& -FX_ONE <= (#[trigger] random_vec@[j]).x <= FX_ONE
                    &&& -FX_ONE <= random_vec@[j].y <= FX_ONE
                    &&& -FX_ONE <= random_vec@[j].z <= FX_ONE
                },
            decreases 256 - i,
        {
            random_vec.push(Vec3::random_in_unit_sphere(rng));
            i = i + 1;
        }
        let perm_x = generate_perm(rng);
        let perm_y = generate_perm(rng);
        let perm_z = generate_perm(rng);
        Perlin { random_vec, perm_x, perm_y, perm_z }
    }

    /// The noise value at a point.
    pub fn noise(&self, pt: Point3) -> (r: i64)
        requires
            self.wf(),
            pt.wf(),
        ensures
            r == noise_spec(*self, pt),
            -32 * FX_ONE as int <= r <= 32 * FX_ONE as int,
    {
        let ci = cell_of(pt.x);
        let cj = cell_of(pt.y);
        let ck = cell_of(pt.z);
        let u = pt.x - ci * FX_ONE;
        let v = pt.y - cj * FX_ONE;
        let w = pt.z - ck * FX_ONE;
        let uu = smooth(u);
        let vv = smooth(v);
        let ww = smooth(w);
        let t0 = self.term_at(ci, cj, ck, u, v, w, uu, vv, ww, 0, 0, 0);
        let t1 = self.term_at(ci, cj, ck + 1, u, v, w, uu, vv, ww, 0, 0, 1);
        let t2 = self.term_at(ci, cj + 1, ck, u, v, w, uu, vv, ww, 0, 1, 0);
        let t3 = self.term_at(ci, cj + 1, ck + 1, u, v, w, uu, vv, ww, 0, 1, 1);
        let t4 = self.term_at(ci + 1, cj, ck, u, v, w, uu, vv, ww, 1, 0, 0);
        let t5 = self.term_at(ci + 1, cj, ck + 1, u, v, w, uu, vv, ww, 1, 0, 1);
        let t6 = self.term_at(ci + 1, cj + 1, ck, u, v, w, uu, vv, ww, 1, 1, 0);
        let t7 = self.term_at(ci + 1, cj + 1, ck + 1, u, v, w, uu, vv, ww, 1, 1, 1);
        t0 + t1 + t2 + t3 + t4 + t5 + t6 + t7
    }

    fn term_at(
        &self, ci: i64, cj: i64, ck: i64, u: i64, v: i64, w: i64, uu: i64, vv: i64, ww: i64,
        di: i64, dj: i64, dk: i64,
    ) -> (r: i64)
        requires
            self.wf(),
            0 <= u <= FX_ONE,
            0 <= v <= FX_ONE,
            0 <= w <= FX_ONE,
            0 <= uu <= FX_ONE,
            0 <= vv <= FX_ONE,
            0 <= ww <= FX_ONE,
            di == 0 || di == 1,
            dj == 0 || dj == 1,
            dk == 0 || dk == 1,
            -0x2_0000_0000 <= ci <= 0x2_0000_0000,
            -0x2_0000_0000 <= cj <= 0x2_0000_0000,
            -0x2_0000_0000 <= ck <= 0x2_0000_0000,
        ensures
            r == term_spec(corner_spec(*self, ci as int, cj as int, ck as int), u as int,
                v as int, w as int, uu as int, vv as int, ww as int, di as int, dj as int,
                dk as int),
            -4 * FX_ONE as int <= r <= 4 * FX_ONE as int,
    {
        let ix = self.perm_x[mod_256(ci)];
        let iy = self.perm_y[mod_256(cj)];
        let iz = self.perm_z[mod_256(ck)];
        let idx = (ix ^ iy ^ iz) as usize;
        let g = self.random_vec[idx];
        let fa = if di == 1 { uu } else { FX_ONE - uu };
        let fb = if dj == 1 { vv } else { FX_ONE - vv };
        let fc = if dk == 1 { ww } else { FX_ONE - ww };
        let wv = Vec3 { x: u - di * FX_ONE, y: v - dj * FX_ONE, z: w - dk * FX_ONE };
        proof {
            crate::vec3::lemma_dot_bound(g, wv, FX_ONE as int, FX_ONE as int);
        }
        let dwide: i128 = Vec3::dot(&g, &wv);
        let dw = crate::fx::div_floor_i128(dwide, FX_ONE as i128) as i64;
        let m1 = unit_mul(fa, fb);
        let m2 = unit_mul(m1, fc);
        proof {
            crate::tparam::lemma_abs_product_bound(m2 as int, dw as int, FX_ONE as int,
                4 * FX_ONE as int);
            assert(fa as int == di as int * uu as int + (1 - di as int) * (FX_ONE as int
                - uu as int)) by (nonlinear_arith)
                requires
                    di == 0 || di == 1,
                    fa == if di == 1 { uu as int } else { FX_ONE as int - uu as int },
            ;
            assert(fb as int == dj as int * vv as int + (1 - dj as int) * (FX_ONE as int
                - vv as int)) by (nonlinear_arith)
                requires
                    dj == 0 || dj == 1,
                    fb == if dj == 1 { vv as int } else { FX_ONE as int - vv as int },
            ;
            assert(fc as int == dk as int * ww as int + (1 - dk as int) * (FX_ONE as int
                - ww as int)) by (nonlinear_arith)
                requires
                    dk == 0 || dk == 1,
                    fc == if dk == 1 { ww as int } else { FX_ONE as int - ww as int },
            ;
            assert(wv.x as int == u as int - di as int * FX_ONE as int) by (nonlinear_arith)
                requires
                    di == 0 || di == 1,
                    wv.x == u - di * FX_ONE,
            ;
            assert(wv.y as int == v as int - dj as int * FX_ONE as int) by (nonlinear_arith)
                requires
                    dj == 0 || dj == 1,
                    wv.y == v - dj * FX_ONE,
            ;
            assert(wv.z as int == w as int - dk as int * FX_ONE as int) by (nonlinear_arith)
                requires
                    dk == 0 || dk == 1,
                    wv.z == w - dk * FX_ONE,
            ;
        }
        let p: i128 = (m2 as i128) * (dw as i128);
        let t = crate::fx::div_floor_i128(p, FX_ONE as i128) as i64;
        t
    }

    /// Layered noise: octaves with halving weight and doubling frequency.
    pub fn turbulence(&self, pt: Point3) -> (r: i64)
        requires
            self.wf(),
            pt.wf(),
        ensures
            r == turb_from(*self, pt, 0, FX_ONE as int, 7),
            0 <= r <= 64 * FX_ONE as int,
    {
        self.turbulence_with_depth(pt, 7)
    }

    /// Layered noise with an explicit octave count.
    pub fn turbulence_with_depth(&self, pt: Point3, depth: u32) -> (r: i64)
        requires
            self.wf(),
            pt.wf(),
            depth <= 16,
        ensures
            r == turb_from(*self, pt, 0, FX_ONE as int, depth as nat),
            0 <= r <= 64 * FX_ONE as int,
    {
        let mut accum: i64 = 0;
        let mut weight: i64 = FX_ONE;
        let mut p = pt;
        let mut it: u32 = 0;
        while it < depth
            invariant
                self.wf(),
                p.wf(),
                it <= depth <= 16,
                0 <= weight <= FX_ONE,
                -64 * FX_ONE as int <= accum <= 64 * FX_ONE as int,
                turb_from(*self, p, accum as int, weight as int, (depth - it) as nat)
                    == turb_from(*self, pt, 0, FX_ONE as int, depth as nat),
            decreases depth - it,
        {
            let n = self.noise(p);
            proof {
                crate::tparam::lemma_abs_product_bound(weight as int, n as int,
                    FX_ONE as int, 32 * FX_ONE as int);
            }
            let octave_part = crate::fx::div_floor_i128(
                (weight as i128) * (n as i128), FX_ONE as i128) as i64;
            let ghost old_accum = accum as int;
            let ghost old_weight = weight as int;
            let ghost old_p = p;
            accum = crate::fx::clamp_i64(
                crate::fx::sat_coord((accum as i128) + (octave_part as i128)),
                -64 * FX_ONE, 64 * FX_ONE);
            weight = weight / 2;
            p = Vec3 {
                x: crate::fx::sat_coord(2 * (p.x as i128)),
                y: crate::fx::sat_coord(2 * (p.y as i128)),
                z: crate::fx::sat_coord(2 * (p.z as i128)),
            };
            proof {
                assert(p == double_spec(old_p));
                assert(turb_from(*self, old_p, old_accum, old_weight,
                    (depth - it) as nat) == turb_from(*self, p, accum as int,
                    weight as int, (depth - it - 1) as nat));
            }
            it = it + 1;
        }
        if accum < 0 {
            -accum
        } else {
            accum
        }
    }
}

/// The integer cell of a raw coordinate.
fn cell_of(x: i64) -> (r: i64)
    requires
        in_coord(x as int),
    ensures
        r == floor_div(x as int, FX_ONE as int),
        -0x2_0000_0000 <= r <= 0x2_0000_0000,
        0 <= x - r * FX_ONE < FX_ONE,
{
    let q = crate::fx::div_floor_i128(x as i128, FX_ONE as i128) as i64;
    proof {
        vstd::arithmetic::div_mod::lemma_fundamental_div_mod(x as int, FX_ONE as int);
        vstd::arithmetic::div_mod::lemma_mod_division_less_than_divisor(
            x as int, FX_ONE as int);
        assert(x as int - q as int * FX_ONE as int == x as int % FX_ONE as int)
            by (nonlinear_arith)
            requires
                x as int == FX_ONE as int * (q as int) + x as int % FX_ONE as int,
        ;
    }
    q
}

/// The euclidean residue of a cell index modulo the table size.
fn mod_256(x: i64) -> (r: usize)
    requires
        -0x4_0000_0000 <= x <= 0x4_0000_0000,
    ensures
        r == (x as int) % 256,
        r < 256,
{
    let q = crate::fx::div_floor_i128(x as i128, 256) as i64;
    let m = x - q * 256;
    proof {
        vstd::arithmetic::div_mod::lemma_fundamental_div_mod(x as int, 256);
        vstd::arithmetic::div_mod::lemma_mod_division_less_than_divisor(x as int, 256);
        assert(x as int - (q as int) * 256 == x as int % 256) by (nonlinear_arith)
            requires
                x as int == 256 * (q as int) + x as int % 256,
        ;
    }
    m as usize
}

/// The clamped smoothstep of a cell fraction.
fn smooth(u: i64) -> (r: i64)
    requires
        0 <= u <= FX_ONE,
    ensures
        r == smooth_spec(u as int),
        0 <= r <= FX_ONE,
{
    proof {
        crate::tparam::lemma_abs_product_bound(u as int, u as int, FX_ONE as int,
            FX_ONE as int);
    }
    let p1: i128 = (u as i128) * (u as i128);
    let s1 = crate::fx::div_floor_i128(p1, FX_ONE as i128) as i64;
    proof {
        crate::tparam::lemma_abs_product_bound(s1 as int, (3 * FX_ONE - 2 * u) as int,
            FX_ONE as int, 3 * FX_ONE as int);
    }
    let p2: i128 = (s1 as i128) * ((3 * FX_ONE - 2 * u) as i128);
    let s2 = crate::fx::div_floor_i128(p2, FX_ONE as i128) as i64;
    crate::fx::clamp_i64(s2, 0, FX_ONE)
}

/// The product of two unit-interval lattice values.
fn unit_mul(a: i64, b: i64) -> (r: i64)
    requires
        0 <= a <= FX_ONE,
        0 <= b <= FX_ONE,
    ensures
        r == fx_mul_spec(a as int, b as int),
        0 <= r <= FX_ONE,
{
    proof {
        crate::tparam::lemma_abs_product_bound(a as int, b as int, FX_ONE as int,
            FX_ONE as int);
        assert(a as int * b as int >= 0) by (nonlinear_arith)
            requires a >= 0 && b >= 0,
        ;
        assert(a as int * b as int <= FX_ONE as int * FX_ONE as int) by (nonlinear_arith)
            requires 0 <= a <= FX_ONE && 0 <= b <= FX_ONE,
        ;
    }
    let p: i128 = (a as i128) * (b as i128);
    crate::fx::div_floor_i128(p, FX_ONE as i128) as i64
}

/// A shuffled permutation of the byte values.
fn generate_perm(rng: &mut rand::rngs::ThreadRng) -> (r: Vec<u8>)
    ensures
        r@.len() == 256,
{
    let mut arr: Vec<u8> = Vec::new();
    let mut i: usize = 0;
    while i < 256
        invariant
            arr@.len() == i,
            i <= 256,
        decreases 256 - i,
    {
        arr.push(i as u8);
        i = i + 1;
    }
    let mut j: usize = 255;
    while j > 0
        invariant
            arr@.len() == 256,
            j <= 255,
        decreases j,
    {
        let pick = crate::rng::rng_range(rng, 0, (j as i64) - 1);
        let pu = if pick < 0 {
            0
        } else {
            pick as usize
        };
        let pu = if pu < 256 { pu } else { 0 };
        let a = arr[j];
        let b = arr[pu];
        arr.set(j, b);
        arr.set(pu, a);
        j = j - 1;
    }
    arr
}

} // verus!

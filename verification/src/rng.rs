//! Randomness, threaded explicitly through every stochastic operation.
//!
//! The thread-local generator of the `rand` crate sits behind two trusted
//! items; everything built on top of them is verified against contracts that
//! hold of every outcome.

use vstd::prelude::*;
use rand::Rng;
use crate::fx::{in_coord, FX_ONE};
use crate::vec3::{dot_spec, Vec3};

verus! {

#[verifier::external_type_specification]
#[verifier::external_body]
pub struct ExThreadRng(rand::rngs::ThreadRng);

/// Relies on rand::thread_rng: a handle to the calling thread's generator.
#[verifier::external_body]
pub fn new_rng() -> rand::rngs::ThreadRng {
    rand::thread_rng()
}

/// Relies on rand::Rng::gen_range on an inclusive `i64` range: the sample
/// lies within the given bounds (the call panics on an empty range, which
/// the precondition excludes).
#[verifier::external_body]
pub fn rng_range(rng: &mut rand::rngs::ThreadRng, lo: i64, hi: i64) -> (r: i64)
    requires
        lo <= hi,
    ensures
        lo <= r <= hi,
{
    rng.gen_range(lo..=hi)
}

/// A uniform raw sample in `[0, FX_ONE)`: the unit interval on the lattice.
pub fn rand_unit(rng: &mut rand::rngs::ThreadRng) -> (r: i64)
    ensures
        0 <= r < FX_ONE,
{
    rng_range(rng, 0, FX_ONE - 1)
}

impl Vec3 {
    /// A nonzero vector within the closed unit ball, by rejection from the
    /// cube; after a bounded number of misses it falls back to a fixed unit
    /// axis, so the contract holds of every outcome.
    pub fn random_in_unit_sphere(rng: &mut rand::rngs::ThreadRng) -> (r: Vec3)
        ensures
            r.wf(),
            !r.is_zero(),
            dot_spec(r, r) <= FX_ONE as int * FX_ONE as int,
            -FX_ONE <= r.x <= FX_ONE,
            -FX_ONE <= r.y <= FX_ONE,
            -FX_ONE <= r.z <= FX_ONE,
    {
        let mut tries: u32 = 16;
        while tries > 0
            decreases tries,
        {
            let v = Vec3 {
                x: rng_range(rng, -FX_ONE, FX_ONE),
                y: rng_range(rng, -FX_ONE, FX_ONE),
                z: rng_range(rng, -FX_ONE, FX_ONE),
            };
            let sq = v.squared_length();
            if sq > 0 && sq <= (FX_ONE as i128) * (FX_ONE as i128) {
                return v;
            }
            tries = tries - 1;
        }
        Vec3 { x: FX_ONE, y: 0, z: 0 }
    }

    /// A nonzero vector within the unit ball on the same side as `normal`
    /// (its dot product with `normal` is nonnegative).
    pub fn random_in_hemisphere(rng: &mut rand::rngs::ThreadRng, normal: &Vec3) -> (r: Vec3)
        requires
            normal.wf(),
        ensures
            r.wf(),
            !r.is_zero(),
            dot_spec(r, r) <= FX_ONE as int * FX_ONE as int,
            dot_spec(r, *normal) >= 0,
    {
        let v = Vec3::random_in_unit_sphere(rng);
        let d = Vec3::dot(&v, normal);
        if d >= 0 {
            v
        } else {
            let w = v.neg();
            proof {
                lemma_neg_dot(w, v, *normal);
                lemma_neg_square(w, v);
            }
            w
        }
    }

    /// A vector within the unit disk of the x/y plane.
    pub fn random_inside_unit_disk(rng: &mut rand::rngs::ThreadRng) -> (r: Vec3)
        ensures
            r.wf(),
            r.z == 0,
            dot_spec(r, r) <= 2 * (FX_ONE as int * FX_ONE as int),
    {
        let mut tries: u32 = 16;
        while tries > 0
            decreases tries,
        {
            let v = Vec3 { x: rng_range(rng, -FX_ONE, FX_ONE), y: rng_range(rng, -FX_ONE, FX_ONE), z: 0 };
            let sq = v.squared_length();
            if sq <= (FX_ONE as i128) * (FX_ONE as i128) {
                return v;
            }
            tries = tries - 1;
        }
        Vec3 { x: 0, y: 0, z: 0 }
    }

}

/// Negating one argument negates a dot product.
proof fn lemma_neg_dot(w: Vec3, v: Vec3, n: Vec3)
    requires
        w.x == -v.x,
        w.y == -v.y,
        w.z == -v.z,
    ensures
        dot_spec(w, n) == -dot_spec(v, n),
{
    assert((w.x as int) * (n.x as int) == -((v.x as int) * (n.x as int))) by (nonlinear_arith)
        requires w.x == -v.x,
    ;
    assert((w.y as int) * (n.y as int) == -((v.y as int) * (n.y as int))) by (nonlinear_arith)
        requires w.y == -v.y,
    ;
    assert((w.z as int) * (n.z as int) == -((v.z as int) * (n.z as int))) by (nonlinear_arith)
        requires w.z == -v.z,
    ;
}

/// Negation preserves a vector's squared length.
proof fn lemma_neg_square(w: Vec3, v: Vec3)
    requires
        w.x == -v.x,
        w.y == -v.y,
        w.z == -v.z,
    ensures
        dot_spec(w, w) == dot_spec(v, v),
{
    assert((w.x as int) * (w.x as int) == (v.x as int) * (v.x as int)) by (nonlinear_arith)
        requires w.x == -v.x,
    ;
    assert((w.y as int) * (w.y as int) == (v.y as int) * (v.y as int)) by (nonlinear_arith)
        requires w.y == -v.y,
    ;
    assert((w.z as int) * (w.z as int) == (v.z as int) * (v.z as int)) by (nonlinear_arith)
        requires w.z == -v.z,
    ;
}

/// A free-path length with (lattice-quantized) unit-exponential tails, drawn
/// without transcendental functions: a run of uniforms decides each unit
/// interval, after von Neumann.  Of the outcome only nonnegativity and an
/// upper bound are promised.
pub fn rand_exponential(rng: &mut rand::rngs::ThreadRng) -> (r: i64)
    ensures
        0 <= r <= 64 * FX_ONE as int,
{
    let mut whole: i64 = 0;
    let mut rounds: u32 = 63;
    while rounds > 0
        invariant
            0 <= whole <= 63 - rounds,
        decreases rounds,
    {
        let first = rand_unit(rng);
        let mut prev = first;
        let mut count: u32 = 1;
        let mut accepted = false;
        let mut inner: u32 = 64;
        while inner > 0
            invariant
                0 <= prev < FX_ONE,
                1 <= count <= 65 - inner,
                inner <= 64,
            decreases inner,
        {
            let next = rand_unit(rng);
            if next >= prev {
                accepted = count % 2 == 1;
                break;
            }
            prev = next;
            count = count + 1;
            inner = inner - 1;
        }
        if accepted {
            return whole * FX_ONE + first;
        }
        whole = whole + 1;
        rounds = rounds - 1;
    }
    whole * FX_ONE
}

} // verus!

//! Small scalar utilities on raw lattice values.

use vstd::prelude::*;
use crate::fx::{sat_c, FX_ONE};

verus! {

/// The bound every wide factor is clamped into before multiplying.
pub open spec fn factor_c(v: int) -> int {
    if v < -0x8000_0000_0000 {
        -0x8000_0000_0000
    } else if v > 0x8000_0000_0000 {
        0x8000_0000_0000
    } else {
        v
    }
}

/// The scaled quotient `num / den` for a nonzero `den`: rounded toward
/// negative infinity for a positive divisor, toward positive infinity for a
/// negative one.
pub open spec fn signed_quot(num: int, den: int) -> int {
    if den > 0 {
        num / den
    } else {
        -(num / (-den))
    }
}

/// What `remap` returns: the value carried linearly from the `from` range
/// onto the `to` range (the source endpoint when the source range is
/// degenerate), with wide intermediates clamped and the result saturated to
/// the coordinate range.
pub open spec fn remap_spec(v: int, from0: int, from1: int, to0: int, to1: int) -> int {
    if from0 == from1 {
        to0
    } else {
        let num = factor_c(v - from0) * factor_c(to1 - to0);
        sat_c(to0 + signed_quot(num, from1 - from0))
    }
}

/// What `inverse_lerp` returns: the lattice fraction of the way `v` sits
/// between `a` and `b` (zero when the range is degenerate), saturated to
/// the coordinate range.
pub open spec fn inverse_lerp_spec(a: int, b: int, v: int) -> int {
    if a == b {
        0
    } else {
        sat_c(signed_quot(factor_c(v - a) * FX_ONE as int, b - a))
    }
}

/// Linear remapping of a value from one range onto another.
pub trait Remapable: Sized {
    type Output;

    fn remap(&self, from: (Self, Self), to: (Self::Output, Self::Output)) -> Self::Output;
}

impl Remapable for i64 {
    type Output = i64;

    /// `to.0 + (self - from.0) * (to.1 - to.0) / (from.1 - from.0)` on the
    /// lattice, or `to.0` when the source range is degenerate.
    fn remap(&self, from: (i64, i64), to: (i64, i64)) -> (r: i64)
        ensures
            r == remap_spec(*self as int, from.0 as int, from.1 as int, to.0 as int,
                to.1 as int),
    {
        if from.0 == from.1 {
            return to.0;
        }
        let d1 = clamp_factor((*self as i128) - (from.0 as i128));
        let d2 = clamp_factor((to.1 as i128) - (to.0 as i128));
        proof {
            crate::tparam::lemma_abs_product_bound(d1 as int, d2 as int,
                0x8000_0000_0000, 0x8000_0000_0000);
        }
        let num: i128 = d1 * d2;
        let den: i128 = (from.1 as i128) - (from.0 as i128);
        let q = if den > 0 {
            crate::fx::div_floor_i128(num, den)
        } else {
            -crate::fx::div_floor_i128(num, -den)
        };
        crate::fx::sat_coord((to.0 as i128) + q)
    }
}

/// Clamping into a closed range.
pub trait Clamp: Sized {
    fn clamp(v: Self, min: Self, max: Self) -> Self;
}

impl Clamp for i64 {
    /// The nearest value to `v` inside `[min, max]` (`min` wins when the
    /// range itself is inverted); the contract lives on `clamped`, which
    /// this forwards to.
    fn clamp(v: i64, min: i64, max: i64) -> i64 {
        clamped(v, min, max)
    }
}

/// The nearest value to `v` inside `[min, max]`.
pub fn clamped(v: i64, min: i64, max: i64) -> (r: i64)
    ensures
        r == if v < min {
            min as int
        } else if v > max {
            max as int
        } else {
            v as int
        },
{
    if v < min {
        min
    } else if v > max {
        max
    } else {
        v
    }
}

/// The fraction of the way `v` sits between `a` and `b`, on the lattice.
pub trait InverseLerp: Sized {
    fn inverse_lerp(a: Self, b: Self, v: Self) -> i64;
}

impl InverseLerp for i64 {
    /// `(v - a) / (b - a)` as a raw lattice fraction, or zero when the
    /// range is degenerate.
    fn inverse_lerp(a: i64, b: i64, v: i64) -> (r: i64)
        ensures
            r == inverse_lerp_spec(a as int, b as int, v as int),
    {
        if a == b {
            return 0;
        }
        let d1 = clamp_factor((v as i128) - (a as i128));
        proof {
            crate::tparam::lemma_abs_product_bound(d1 as int, FX_ONE as int,
                0x8000_0000_0000, FX_ONE as int);
        }
        let num: i128 = d1 * (FX_ONE as i128);
        let den: i128 = (b as i128) - (a as i128);
        let q = if den > 0 {
            crate::fx::div_floor_i128(num, den)
        } else {
            -crate::fx::div_floor_i128(num, -den)
        };
        crate::fx::sat_coord(q)
    }
}

/// Keeps a factor small enough that products stay representable.
fn clamp_factor(v: i128) -> (r: i128)
    ensures
        r == factor_c(v as int),
        -0x8000_0000_0000 <= r <= 0x8000_0000_0000,
{
    if v < -0x8000_0000_0000 {
        -0x8000_0000_0000
    } else if v > 0x8000_0000_0000 {
        0x8000_0000_0000
    } else {
        v
    }
}

} // verus!

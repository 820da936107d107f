//! Color helpers on the shared vector type.

use vstd::prelude::*;
use crate::fx::{in_coord, sqrt_floor, FX_ONE};
use crate::vec3::{Color, Vec3};

verus! {

/// The 8-bit gamma-corrected channel for a raw linear value: the square
/// root of the clamped channel, scaled to bytes, capped at 255.
pub open spec fn pixel_channel_spec(c: int) -> int {
    let nn = if c < 0 { 0 } else { c };
    let s = sqrt_floor((nn * FX_ONE as int) as nat) as int / 256;
    if s > 255 { 255 } else { s }
}

impl Color {
    /// The gamma-corrected 8-bit pixel for this linear color.
    pub fn to_pixel(&self) -> (r: [u8; 3])
        requires
            self.wf(),
        ensures
            r[0] == pixel_channel_spec(self.x as int),
            r[1] == pixel_channel_spec(self.y as int),
            r[2] == pixel_channel_spec(self.z as int),
    {
        [pixel_channel(self.x), pixel_channel(self.y), pixel_channel(self.z)]
    }

    /// A color with uniformly random channels in `[from, to]`.
    pub fn random(rng: &mut rand::rngs::ThreadRng, from: i64, to: i64) -> (r: Color)
        requires
            from <= to,
            in_coord(from as int),
            in_coord(to as int),
        ensures
            r.wf(),
            from <= r.x <= to,
            from <= r.y <= to,
            from <= r.z <= to,
    {
        Vec3 {
            x: crate::rng::rng_range(rng, from, to),
            y: crate::rng::rng_range(rng, from, to),
            z: crate::rng::rng_range(rng, from, to),
        }
    }
}

fn pixel_channel(c: i64) -> (r: u8)
    requires
        in_coord(c as int),
    ensures
        r == pixel_channel_spec(c as int),
{
    let nn: i64 = if c < 0 { 0 } else { c };
    let wide: u128 = (nn as u128) * (FX_ONE as u128);
    let s = crate::fx::isqrt_u128(wide);
    let byte = s / 256;
    if byte > 255 {
        255
    } else {
        proof {
            assert(byte == sqrt_floor(wide as nat) as int / 256) by {
                vstd::arithmetic::div_mod::lemma_div_pos_is_pos(s as int, 256);
            }
        }
        byte as u8
    }
}

} // verus!

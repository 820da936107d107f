//! Textures: colors as functions of surface parameters and position.
//!
//! The checker's period is a lattice cell size; parity of the floor-divided
//! coordinates selects the sub-texture, which reproduces the sign pattern of
//! the classic product-of-sines test without transcendental functions.

use vstd::prelude::*;
use std::sync::Arc;
use crate::fx::{floor_div, in_coord, FX_ONE};
use crate::image::Image;
use crate::perlin::{turb_from, Perlin};
use crate::vec3::{Color, Point3, Vec3};

verus! {

/// Whether a checker samples in world space or in surface parameters.
#[derive(Clone, Copy, Debug, PartialEq, Eq, Structural)]
pub enum SamplingMode {
    SOLID,
    UV,
}

/// A color source: constant, checkered, marble noise, or an image looked up
/// by (u, v).
pub enum Texture {
    SolidColor { color: Color },
    Checker { odd: Arc<Texture>, even: Arc<Texture>, cell: i64, sampling_mode: SamplingMode },
    Noise { scale: i64, perlin: Perlin },
    ImageTexture { image: Image },
}

/// A lattice triangle wave with the period and sign structure of a sine:
/// up over the first quarter period, down through the middle half, back up
/// over the last quarter.
pub open spec fn tri_wave_spec(x: int) -> int {
    let m = x % (4 * FX_ONE as int);
    if m < FX_ONE as int {
        m
    } else if m < 3 * FX_ONE as int {
        2 * FX_ONE as int - m
    } else {
        m - 4 * FX_ONE as int
    }
}

/// The marble gray of the noise texture: the triangle wave of the scaled
/// depth plus ten turbulence octaves, remapped into the unit interval.
pub open spec fn noise_gray_spec(scale: int, perlin: Perlin, p: Point3) -> int {
    let turb = turb_from(perlin, p, 0, FX_ONE as int, 7);
    let phase = crate::fx::fx_mul_spec(scale, p.z as int) + 10 * turb;
    let g = (FX_ONE as int + tri_wave_spec(phase)) / 2;
    if g < 0 {
        0
    } else if g > FX_ONE as int {
        FX_ONE as int
    } else {
        g
    }
}

/// True on the cells colored by the `even` sub-texture.
pub open spec fn checker_even_solid(cell: int, p: Point3) -> bool {
    (floor_div(p.x as int, cell) + floor_div(p.y as int, cell)
        + floor_div(p.z as int, cell)) % 2 == 0
}

/// True on the parameter cells colored by the `even` sub-texture.
pub open spec fn checker_even_uv(cell: int, u: int, v: int) -> bool {
    (floor_div(u, cell) + floor_div(v, cell)) % 2 == 0
}

/// The (u, v) sample position of an image: parameters clamped to the unit
/// square, `v` flipped, scaled to the grid and clamped to the last texel.
pub open spec fn image_texel(w: int, h: int, u: int, v: int) -> (int, int) {
    let cu = if u < 0 { 0 } else if u > FX_ONE as int { FX_ONE as int } else { u };
    let cv0 = if v < 0 { 0 } else if v > FX_ONE as int { FX_ONE as int } else { v };
    let cv = FX_ONE as int - cv0;
    let i = (cu * w) / (FX_ONE as int);
    let j = (cv * h) / (FX_ONE as int);
    let i1 = if i > w - 1 { w - 1 } else { i };
    let j1 = if j > h - 1 { h - 1 } else { j };
    (i1, j1)
}

/// What a texture returns at given parameters and position.
pub open spec fn tex_value_spec(t: Texture, u: int, v: int, p: Point3) -> Color
    decreases t,
{
    match t {
        Texture::SolidColor { color } => color,
        Texture::Checker { odd, even, cell, sampling_mode } => {
            let pick_even = match sampling_mode {
                SamplingMode::SOLID => checker_even_solid(cell as int, p),
                SamplingMode::UV => checker_even_uv(cell as int, u, v),
            };
            if pick_even {
                tex_value_spec(*even, u, v, p)
            } else {
                tex_value_spec(*odd, u, v, p)
            }
        },
        Texture::Noise { scale, perlin } => {
            let g = noise_gray_spec(scale as int, perlin, p) as i64;
            Vec3 { x: g, y: g, z: g }
        },
        Texture::ImageTexture { image } => {
            let (i, j) = image_texel(image.width as int, image.height as int, u, v);
            image.pixel(i, j)
        },
    }
}

impl Texture {
    /// Sub-textures well-formed, checker cells positive, images nonempty.
    pub open spec fn wf(self) -> bool
        decreases self,
    {
        match self {
            Texture::SolidColor { color } => color.wf(),
            Texture::Checker { odd, even, cell, sampling_mode } => {
                1 <= cell && in_coord(cell as int) && odd.wf() && even.wf()
            },
            Texture::Noise { scale, perlin } => {
                0 <= scale && in_coord(scale as int) && perlin.wf()
            },
            Texture::ImageTexture { image } => {
                image.wf() && image.width >= 1 && image.height >= 1
            },
        }
    }

    pub fn solid(color: Color) -> (r: Texture)
        ensures
            r == (Texture::SolidColor { color }),
    {
        Texture::SolidColor { color }
    }

    /// A world-space checker of the given cell size.
    pub fn checker(odd: Arc<Texture>, even: Arc<Texture>, cell: i64) -> (r: Texture)
        requires
            cell >= 1,
            in_coord(cell as int),
        ensures
            r == (Texture::Checker { odd, even, cell, sampling_mode: SamplingMode::SOLID }),
    {
        Texture::Checker { odd, even, cell, sampling_mode: SamplingMode::SOLID }
    }

    /// A checker with an explicit sampling mode.
    pub fn checker_with_sampling_mode(
        odd: Arc<Texture>,
        even: Arc<Texture>,
        cell: i64,
        sampling_mode: SamplingMode,
    ) -> (r: Texture)
        requires
            cell >= 1,
            in_coord(cell as int),
        ensures
            r == (Texture::Checker { odd, even, cell, sampling_mode }),
    {
        Texture::Checker { odd, even, cell, sampling_mode }
    }

    /// A marble noise texture with fresh tables.
    pub fn noise(scale: i64, rng: &mut rand::rngs::ThreadRng) -> (r: Texture)
        requires
            0 <= scale,
            in_coord(scale as int),
        ensures
            r is Noise,
            r.wf(),
    {
        let perlin = Perlin::new(rng);
        Texture::Noise { scale, perlin }
    }

    /// The color at the given surface parameters and position.
    pub fn value(&self, u: i64, v: i64, p: Point3) -> (r: Color)
        requires
            self.wf(),
            in_coord(u as int),
            in_coord(v as int),
            p.wf(),
        ensures
            r == tex_value_spec(*self, u as int, v as int, p),
            r.wf(),
        decreases *self,
    {
        match self {
            Texture::SolidColor { color } => *color,
            Texture::Checker { odd, even, cell, sampling_mode } => {
                let pick_even: bool = match sampling_mode {
                    SamplingMode::SOLID => {
                        let fx = floor_axis(p.x, *cell);
                        let fy = floor_axis(p.y, *cell);
                        let fz = floor_axis(p.z, *cell);
                        even_sum3(fx, fy, fz)
                    },
                    SamplingMode::UV => {
                        let fu = floor_axis(u, *cell);
                        let fv = floor_axis(v, *cell);
                        even_sum3(fu, fv, 0)
                    },
                };
                if pick_even {
                    even.value(u, v, p)
                } else {
                    odd.value(u, v, p)
                }
            },
            Texture::Noise { scale, perlin } => {
                let turb = perlin.turbulence(p);
                proof {
                    crate::tparam::lemma_abs_product_bound(*scale as int, p.z as int,
                        crate::fx::COORD_MAX as int, crate::fx::COORD_MAX as int);
                }
                let base = crate::fx::fx_mul(*scale, p.z);
                let phase = base + 10 * turb;
                let wave = tri_wave(phase);
                let g0 = (FX_ONE + wave) / 2;
                let g = crate::fx::clamp_i64(g0, 0, FX_ONE);
                proof {
                    assert(g0 as int == (FX_ONE as int + wave as int) / 2) by {
                        vstd::arithmetic::div_mod::lemma_div_pos_is_pos(
                            FX_ONE as int + wave as int, 2);
                    }
                }
                Vec3 { x: g, y: g, z: g }
            },
            Texture::ImageTexture { image } => {
                let cu = crate::fx::clamp_i64(u, 0, FX_ONE);
                let cv = FX_ONE - crate::fx::clamp_i64(v, 0, FX_ONE);
                let i = texel_index(cu, image.width);
                let j = texel_index(cv, image.height);
                image.get(i, j)
            },
        }
    }
}

/// Floor division of a coordinate by a positive cell size.
fn floor_axis(x: i64, cell: i64) -> (r: i64)
    requires
        in_coord(x as int),
        1 <= cell,
    ensures
        r == floor_div(x as int, cell as int),
        -0x1000_0000 <= r <= 0x1000_0000,
{
    crate::fx::div_floor_i128(x as i128, cell as i128) as i64
}

/// Whether a three-way sum of cell indices is even.
fn even_sum3(a: i64, b: i64, c: i64) -> (r: bool)
    requires
        -0x2000_0000_0000_0000 <= a <= 0x2000_0000_0000_0000,
        -0x2000_0000_0000_0000 <= b <= 0x2000_0000_0000_0000,
        -0x2000_0000_0000_0000 <= c <= 0x2000_0000_0000_0000,
    ensures
        r == ((a + b + c) % 2 == 0),
{
    let s = a + b + c;
    let m = s % 2;
    m == 0
}

/// The texel row or column for a clamped parameter.
fn texel_index(cu: i64, extent: usize) -> (r: usize)
    requires
        0 <= cu <= FX_ONE,
        1 <= extent <= 0xFFFF,
    ensures
        r == ({
            let i = (cu as int * extent as int) / (FX_ONE as int);
            if i > extent - 1 { extent - 1 } else { i }
        }),
        r < extent,
{
    proof {
        crate::tparam::lemma_abs_product_bound(
            cu as int, extent as int, FX_ONE as int, 0xFFFF);
    }
    let wide: i128 = (cu as i128) * (extent as i128);
    let i = crate::fx::div_floor_i128(wide, FX_ONE as i128);
    proof {
        vstd::arithmetic::div_mod::lemma_div_pos_is_pos(wide as int, FX_ONE as int);
    }
    let iu = i as usize;
    if iu > extent - 1 {
        extent - 1
    } else {
        iu
    }
}


/// The exact lattice triangle wave.
fn tri_wave(x: i64) -> (r: i64)
    requires
        -0x4000_0000_0000 <= x <= 0x4000_0000_0000,
    ensures
        r == tri_wave_spec(x as int),
        -FX_ONE <= r <= FX_ONE,
{
    let period: i64 = 4 * FX_ONE;
    let q = crate::fx::div_floor_i128(x as i128, period as i128) as i64;
    let m = x - q * period;
    proof {
        vstd::arithmetic::div_mod::lemma_fundamental_div_mod(x as int, period as int);
        vstd::arithmetic::div_mod::lemma_mod_division_less_than_divisor(
            x as int, period as int);
        assert(x as int - (q as int) * (period as int) == x as int % (period as int))
            by (nonlinear_arith)
            requires
                x as int == (period as int) * (q as int) + x as int % (period as int),
        ;
    }
    if m < FX_ONE {
        m
    } else if m < 3 * FX_ONE {
        2 * FX_ONE - m
    } else {
        m - 4 * FX_ONE
    }
}
} // verus!

//! The color of rays that hit nothing.

use vstd::prelude::*;
use crate::fx::{in_coord, FX_ONE};
use crate::ray::Ray;
use crate::vec3::{dot_spec, lerp_coord, unit_spec, Color, Vec3};

verus! {

/// A miss-color source: a constant, or a gradient along a direction.
pub enum Skybox {
    SolidColor { color: Color },
    Gradient { from: Color, to: Color, direction: Vec3 },
}

/// The gradient weight for a ray: the cosine between the unit-approximated
/// ray direction and the gradient axis, remapped from `[-1, 1]` to `[0, 1]`
/// on the lattice.
pub open spec fn gradient_weight(direction: Vec3, ray: Ray) -> int {
    let c0 = dot_spec(unit_spec(ray.direction), unit_spec(direction)) / (FX_ONE as int);
    let c = if c0 < -FX_ONE as int {
        -FX_ONE as int
    } else if c0 > FX_ONE as int {
        FX_ONE as int
    } else {
        c0
    };
    (c + FX_ONE as int) / 2
}

/// What a skybox answers for a ray.
pub open spec fn skybox_color_spec(s: Skybox, ray: Ray) -> Color {
    match s {
        Skybox::SolidColor { color } => color,
        Skybox::Gradient { from, to, direction } => {
            let w = gradient_weight(direction, ray);
            Vec3 {
                x: lerp_coord(from.x as int, to.x as int, w, FX_ONE as int) as i64,
                y: lerp_coord(from.y as int, to.y as int, w, FX_ONE as int) as i64,
                z: lerp_coord(from.z as int, to.z as int, w, FX_ONE as int) as i64,
            }
        },
    }
}

impl Skybox {
    pub open spec fn wf(self) -> bool {
        match self {
            Skybox::SolidColor { color } => color.wf(),
            Skybox::Gradient { from, to, direction } => from.wf() && to.wf()
                && direction.wf() && !direction.is_zero(),
        }
    }

    pub fn solid(color: Color) -> (r: Skybox)
        ensures
            r == (Skybox::SolidColor { color }),
    {
        Skybox::SolidColor { color }
    }

    pub fn gradient(from: Color, to: Color, direction: Vec3) -> (r: Skybox)
        ensures
            r == (Skybox::Gradient { from, to, direction }),
    {
        Skybox::Gradient { from, to, direction }
    }

    /// The color this skybox reports for a ray that hit nothing.
    pub fn get_color(&self, ray: &Ray) -> (r: Color)
        requires
            self.wf(),
            ray.wf(),
        ensures
            r == skybox_color_spec(*self, *ray),
            r.wf(),
    {
        match self {
            Skybox::SolidColor { color } => *color,
            Skybox::Gradient { from, to, direction } => {
                let ud = ray.direction.unit_approx();
                let ug = direction.unit_approx();
                let d: i128 = Vec3::dot(&ud, &ug);
                proof {
                    crate::vec3::lemma_dot_bound(ud, ug, 2 * FX_ONE as int,
                        2 * FX_ONE as int);
                }
                let c0 = crate::fx::div_floor_i128(d, FX_ONE as i128) as i64;
                let c = crate::fx::clamp_i64(c0, -FX_ONE, FX_ONE);
                let w = crate::fx::div_floor_i128(((c as i128) + (FX_ONE as i128)), 2)
                    as i64;
                let t = crate::tparam::TParam { num: w as i128, den: FX_ONE as i128 };
                from.lerp_t(to, &t)
            },
        }
    }
}

} // verus!

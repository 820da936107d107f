//! Materials: how a surface answers an incident ray.
//!
//! Scattering draws randomness through an explicit generator, so every
//! contract states what holds of every outcome; the deterministic parts
//! (attenuation, scatter origin, shutter time, reflection with no fuzz,
//! refraction with equal indices) are pinned exactly.

use vstd::prelude::*;
use std::sync::Arc;
use crate::fx::{fx_mul_spec, in_coord, FX_ONE};
use crate::hit_record::HitRecord;
use crate::ray::Ray;
use crate::texture::{tex_value_spec, Texture};
use crate::vec3::{dot_spec, reflect_spec, Color, Point3, Vec3};

verus! {

/// The closed set of material kinds.
pub enum Material {
    Lambertian { albedo: Arc<Texture> },
    Metal { albedo: Arc<Texture>, fuzziness: i64 },
    Dieletric { refraction_index: i64 },
    DiffuseLight { emit: Arc<Texture> },
    Isotropic { albedo: Arc<Texture> },
}

/// What a material emits on its own: black except for diffuse lights.
pub open spec fn emitted_spec(m: Material, u: int, v: int, p: Point3) -> Color {
    match m {
        Material::DiffuseLight { emit } => tex_value_spec(*emit, u, v, p),
        _ => Vec3 { x: 0, y: 0, z: 0 },
    }
}

impl Material {
    pub open spec fn wf(self) -> bool {
        match self {
            Material::Lambertian { albedo } => albedo.wf(),
            Material::Metal { albedo, fuzziness } => albedo.wf() && 0 <= fuzziness
                && in_coord(fuzziness as int),
            Material::Dieletric { refraction_index } => 1 <= refraction_index
                && in_coord(refraction_index as int),
            Material::DiffuseLight { emit } => emit.wf(),
            Material::Isotropic { albedo } => albedo.wf(),
        }
    }

    /// What this material emits at the given parameters.
    pub fn emitted(&self, u: i64, v: i64, p: Point3) -> (r: Color)
        requires
            self.wf(),
            in_coord(u as int),
            in_coord(v as int),
            p.wf(),
        ensures
            r == emitted_spec(*self, u as int, v as int, p),
            r.wf(),
    {
        match self {
            Material::DiffuseLight { emit } => emit.value(u, v, p),
            _ => Vec3 { x: 0, y: 0, z: 0 },
        }
    }

    /// The material's answer to an incident ray at a hit: a scattered ray
    /// and an attenuation color, or nothing for absorption or pure emission.
    #[verifier::rlimit(60)]
    #[verifier::spinoff_prover]
    pub fn scatter(
        &self,
        ray: &Ray,
        hit: &HitRecord,
        rng: &mut rand::rngs::ThreadRng,
    ) -> (r: Option<(Ray, Color)>)
        requires
            self.wf(),
            ray.wf(),
            hit.wf(),
        ensures
            r matches Some((sr, att)) ==> sr.wf() && att.wf()
                && sr.origin == hit.point && sr.time == ray.time,
            (*self) matches Material::Lambertian { albedo } ==> r matches Some((sr, att))
                && att == tex_value_spec(*albedo, hit.u as int, hit.v as int, hit.point)
                && dot_spec(sr.direction, hit.normal) >= 0,
            (*self) matches Material::Metal { albedo, fuzziness }
                ==> (r matches Some((sr, att)) ==> att == tex_value_spec(
                    *albedo, hit.u as int, hit.v as int, hit.point)
                    && dot_spec(sr.direction, hit.facing_normal_spec(*ray)) > 0),
            (*self) matches Material::Metal { albedo, fuzziness } && fuzziness == 0
                ==> (r is Some <==> dot_spec(
                    reflect_spec(ray.direction, hit.facing_normal_spec(*ray)),
                    hit.facing_normal_spec(*ray)) > 0),
            (*self) matches Material::Metal { albedo, fuzziness } && fuzziness == 0
                ==> (r matches Some((sr, att)) ==> sr.direction == reflect_spec(
                    ray.direction, hit.facing_normal_spec(*ray))),
            (*self) matches Material::Dieletric { refraction_index } ==> r matches Some((
                sr,
                att,
            )) && att == (Vec3 { x: FX_ONE, y: FX_ONE, z: FX_ONE }),
            (*self) matches Material::Dieletric { refraction_index }
                ==> (r matches Some((sr, att)) ==> {
                let front = hit.front_facing(*ray);
                let eta_in = if front { FX_ONE as int } else { refraction_index as int };
                let eta_out = if front { refraction_index as int } else { FX_ONE as int };
                let fnorm = hit.facing_normal_spec(*ray);
                ||| sr.direction == nonzero_or(reflect_spec(ray.direction, fnorm), fnorm)
                ||| sr.direction == nonzero_or(crate::vec3::refract_spec(ray.direction,
                    fnorm, eta_in, eta_out), fnorm)
            }),
            (*self) matches Material::Dieletric { refraction_index }
                && dielectric_tir(refraction_index as int, *ray, *hit)
                ==> (r matches Some((sr, att)) ==> sr.direction == nonzero_or(
                reflect_spec(ray.direction, hit.facing_normal_spec(*ray)),
                hit.facing_normal_spec(*ray))),
            (*self) matches Material::DiffuseLight { emit } ==> r is None,
            (*self) matches Material::Isotropic { albedo } ==> r matches Some((sr, att))
                && att == tex_value_spec(*albedo, hit.u as int, hit.v as int, hit.point),
    {
        match self {
            Material::Lambertian { albedo } => {
                let direction = Vec3::random_in_hemisphere(rng, &hit.normal);
                let scattered = Ray::with_time(hit.point, direction, ray.time);
                let attenuation = albedo.value(hit.u, hit.v, hit.point);
                proof {
                    assert(scattered.wf());
                    assert(attenuation.wf());
                }
                Some((scattered, attenuation))
            },
            Material::Metal { albedo, fuzziness } => {
                let sample = if *fuzziness == 0 {
                    Vec3 { x: 0, y: 0, z: 0 }
                } else {
                    Vec3::random_in_unit_sphere(rng)
                };
                metal_scatter_given(albedo, *fuzziness, ray, hit, sample)
            },
            Material::Dieletric { refraction_index } => {
                let coin = crate::rng::rand_unit(rng);
                Some(dielectric_scatter_given(*refraction_index, ray, hit, coin))
            },
            Material::DiffuseLight { emit } => None,
            Material::Isotropic { albedo } => {
                let direction = Vec3::random_in_unit_sphere(rng);
                let scattered = Ray::with_time(hit.point, direction, ray.time);
                let attenuation = albedo.value(hit.u, hit.v, hit.point);
                proof {
                    assert(scattered.wf());
                    assert(attenuation.wf());
                }
                Some((scattered, attenuation))
            },
        }
    }
}


/// Whether a dielectric hit is past the critical angle, so that Snell's law
/// admits no refracted direction and the surface must reflect.
pub open spec fn dielectric_tir(refraction_index: int, ray: Ray, hit: HitRecord) -> bool {
    let one = FX_ONE as int;
    let front = hit.front_facing(ray);
    let eta_in = if front { one } else { refraction_index };
    let eta_out = if front { refraction_index } else { one };
    let fnorm = hit.facing_normal_spec(ray);
    let negd = Vec3 {
        x: -ray.direction.x as i64,
        y: -ray.direction.y as i64,
        z: -ray.direction.z as i64,
    };
    let cos = cos_between_spec(negd, fnorm);
    let q = crate::fx::fx_div_spec(eta_in, eta_out);
    let ratio = if q < 0 { 0 } else if q > 64 * one { 64 * one } else { q };
    tir_spec(one * one - cos * cos, ratio)
}

/// A direction, or the facing normal where it degenerates to zero (a ray
/// must carry a nonzero direction).
pub open spec fn nonzero_or(v: Vec3, fallback: Vec3) -> Vec3 {
    if v.is_zero() {
        fallback
    } else {
        v
    }
}

/// What a metal answers once the fuzz vector is drawn: the mirror
/// reflection about the facing normal, perturbed by the scaled draw, kept
/// exactly when it leaves the surface and rejected (absorbed) otherwise.
pub open spec fn metal_given_spec(
    albedo: Texture, fuzziness: int, ray: Ray, hit: HitRecord, sample: Vec3,
) -> Option<(Ray, Color)> {
    let fnorm = hit.facing_normal_spec(ray);
    let refl = reflect_spec(ray.direction, fnorm);
    let dir = if fuzziness == 0 {
        refl
    } else {
        Vec3 {
            x: crate::fx::sat_c(refl.x + fx_mul_spec(sample.x as int, fuzziness)) as i64,
            y: crate::fx::sat_c(refl.y + fx_mul_spec(sample.y as int, fuzziness)) as i64,
            z: crate::fx::sat_c(refl.z + fx_mul_spec(sample.z as int, fuzziness)) as i64,
        }
    };
    if dot_spec(dir, fnorm) > 0 {
        Some((
            Ray { origin: hit.point, direction: dir, time: ray.time },
            tex_value_spec(albedo, hit.u as int, hit.v as int, hit.point),
        ))
    } else {
        None
    }
}

/// The metal scatter for a given fuzz draw: exactly `metal_given_spec`.
pub fn metal_scatter_given(
    albedo: &Arc<Texture>,
    fuzziness: i64,
    ray: &Ray,
    hit: &HitRecord,
    sample: Vec3,
) -> (r: Option<(Ray, Color)>)
    requires
        albedo.wf(),
        0 <= fuzziness,
        in_coord(fuzziness as int),
        ray.wf(),
        hit.wf(),
        sample.wf(),
        -FX_ONE <= sample.x <= FX_ONE,
        -FX_ONE <= sample.y <= FX_ONE,
        -FX_ONE <= sample.z <= FX_ONE,
    ensures
        r == metal_given_spec(**albedo, fuzziness as int, *ray, *hit, sample),
        r matches Some((sr, att)) ==> sr.wf() && att.wf(),
{
    let normal = hit.get_facing_normal(ray);
    let reflected = Vec3::reflect(&ray.direction, &normal);
    let direction = if fuzziness == 0 {
        reflected
    } else {
        let fuzz = sample.scale(fuzziness);
        Vec3 {
            x: crate::fx::sat_coord((reflected.x as i128) + (fuzz.x as i128)),
            y: crate::fx::sat_coord((reflected.y as i128) + (fuzz.y as i128)),
            z: crate::fx::sat_coord((reflected.z as i128) + (fuzz.z as i128)),
        }
    };
    let scattered = Ray::with_time(hit.point, direction, ray.time);
    if Vec3::dot(&scattered.direction, &normal) > 0 {
        proof {
            if direction.x == 0 && direction.y == 0 && direction.z == 0 {
                assert(dot_spec(direction, normal) == 0) by (nonlinear_arith)
                    requires
                        direction.x == 0,
                        direction.y == 0,
                        direction.z == 0,
                ;
            }
            assert(!direction.is_zero());
        }
        let attenuation = albedo.value(hit.u, hit.v, hit.point);
        Some((scattered, attenuation))
    } else {
        None
    }
}

/// What a dielectric answers once the reflectance coin is drawn: reflect
/// under total internal reflection or when the Schlick reflectance beats
/// the coin, refract otherwise; the facing normal stands in where the
/// lattice direction degenerates to zero.  Attenuation is always white.
pub open spec fn dielectric_given_spec(
    refraction_index: int, ray: Ray, hit: HitRecord, coin: int,
) -> (Ray, Color) {
    let one = FX_ONE as int;
    let front = hit.front_facing(ray);
    let eta_in = if front { one } else { refraction_index };
    let eta_out = if front { refraction_index } else { one };
    let fnorm = hit.facing_normal_spec(ray);
    let negd = Vec3 {
        x: -ray.direction.x as i64,
        y: -ray.direction.y as i64,
        z: -ray.direction.z as i64,
    };
    let cos = cos_between_spec(negd, fnorm);
    let ratio = if crate::fx::fx_div_spec(eta_in, eta_out) < 0 {
        0
    } else if crate::fx::fx_div_spec(eta_in, eta_out) > 64 * one {
        64 * one
    } else {
        crate::fx::fx_div_spec(eta_in, eta_out)
    };
    let sin_sq = one * one - cos * cos;
    let dir0 = if tir_spec(sin_sq, ratio) || schlick_spec(cos, ratio) > coin {
        reflect_spec(ray.direction, fnorm)
    } else {
        crate::vec3::refract_spec(ray.direction, fnorm, eta_in, eta_out)
    };
    (
        Ray { origin: hit.point, direction: nonzero_or(dir0, fnorm), time: ray.time },
        Vec3 { x: FX_ONE, y: FX_ONE, z: FX_ONE },
    )
}

/// The dielectric scatter for a given reflectance coin: exactly
/// `dielectric_given_spec`.
pub fn dielectric_scatter_given(
    refraction_index: i64,
    ray: &Ray,
    hit: &HitRecord,
    coin: i64,
) -> (r: (Ray, Color))
    requires
        1 <= refraction_index,
        in_coord(refraction_index as int),
        ray.wf(),
        hit.wf(),
    ensures
        r == dielectric_given_spec(refraction_index as int, *ray, *hit, coin as int),
        r.0.wf(),
        r.1.wf(),
{
    let attenuation = Vec3 { x: FX_ONE, y: FX_ONE, z: FX_ONE };
    let front = hit.is_front_facing(ray);
    let normal = hit.get_facing_normal(ray);
    let (eta_in, eta_out) = if front {
        (FX_ONE, refraction_index)
    } else {
        (refraction_index, FX_ONE)
    };
    let cos_theta = cosine_between(&ray.direction.neg(), &normal);
    let ratio = crate::fx::clamp_i64(crate::fx::fx_div(eta_in, eta_out), 0, 64 * FX_ONE);
    let sin_sq = sin_sq_from_cos(cos_theta);
    let cant_refract = cannot_refract(sin_sq, ratio);
    let reflectance = schlick(cos_theta, ratio);
    let dir0 = if cant_refract || reflectance > coin {
        Vec3::reflect(&ray.direction, &normal)
    } else {
        Vec3::refract(&ray.direction, &normal, eta_in, eta_out)
    };
    let direction = if dir0.x == 0 && dir0.y == 0 && dir0.z == 0 {
        normal
    } else {
        dir0
    };
    let scattered = Ray::with_time(hit.point, direction, ray.time);
    (scattered, attenuation)
}

/// The lattice cosine of the angle between two nonzero vectors, clamped to
/// `[-FX_ONE, FX_ONE]`.
pub open spec fn cos_between_spec(a: Vec3, b: Vec3) -> int {
    let c0 = crate::fx::floor_div(dot_spec(crate::vec3::unit_spec(a),
        crate::vec3::unit_spec(b)), FX_ONE as int);
    if c0 < -FX_ONE as int {
        -FX_ONE as int
    } else if c0 > FX_ONE as int {
        FX_ONE as int
    } else {
        c0
    }
}

/// Total internal reflection at lattice scale: `sin^2 * ratio^2` exceeds
/// one.
pub open spec fn tir_spec(sin_sq: int, ratio: int) -> bool {
    sin_sq * (ratio * ratio) > FX_ONE as int * FX_ONE as int * FX_ONE as int
        * FX_ONE as int
}

/// The Schlick reflectance at lattice scale, floored at zero.
pub open spec fn schlick_spec(cos: int, ratio: int) -> int {
    let one = FX_ONE as int;
    let r0a = crate::fx::fx_div_spec(one - ratio, one + ratio);
    let r0b = if r0a < -one { -one } else if r0a > one { one } else { r0a };
    let r0 = fx_mul_spec(r0b, r0b);
    let base = if one - cos < 0 { 0 } else if one - cos > one { one } else { one - cos };
    let b2 = fx_mul_spec(base, base);
    let b4 = fx_mul_spec(b2, b2);
    let b5 = fx_mul_spec(b4, base);
    let gain = if one - r0 < 0 { 0 } else if one - r0 > one { one } else { one - r0 };
    let s = r0 + fx_mul_spec(gain, b5);
    if s < 0 { 0 } else { s }
}

fn cosine_between(a: &Vec3, b: &Vec3) -> (r: i64)
    requires
        a.wf(),
        b.wf(),
        !a.is_zero(),
        !b.is_zero(),
    ensures
        r == cos_between_spec(*a, *b),
        -FX_ONE <= r <= FX_ONE,
{
    let ua = a.unit_approx();
    let ub = b.unit_approx();
    let d: i128 = Vec3::dot(&ua, &ub);
    proof {
        crate::vec3::lemma_dot_bound(ua, ub, 2 * FX_ONE as int, 2 * FX_ONE as int);
    }
    let c = crate::fx::div_floor_i128(d, FX_ONE as i128) as i64;
    crate::fx::clamp_i64(c, -FX_ONE, FX_ONE)
}

/// The squared sine, `FX_ONE^2 - cos^2`, at lattice scale.
fn sin_sq_from_cos(cos: i64) -> (r: i64)
    requires
        -FX_ONE <= cos <= FX_ONE,
    ensures
        r == FX_ONE as int * FX_ONE as int - cos as int * cos as int,
        0 <= r <= FX_ONE as int * FX_ONE as int,
{
    proof {
        crate::tparam::lemma_abs_product_bound(
            cos as int, cos as int, FX_ONE as int, FX_ONE as int);
        assert(cos as int * cos as int >= 0) by (nonlinear_arith);
    }
    FX_ONE * FX_ONE - cos * cos
}

/// Total internal reflection: `sin^2 * ratio^2 > 1` at lattice scale.
fn cannot_refract(sin_sq: i64, ratio: i64) -> (r: bool)
    requires
        0 <= sin_sq <= FX_ONE as int * FX_ONE as int,
        0 <= ratio <= 64 * FX_ONE,
    ensures
        r == tir_spec(sin_sq as int, ratio as int),
{
    proof {
        crate::tparam::lemma_abs_product_bound(
            ratio as int, ratio as int, 0x40_0000, 0x40_0000);
    }
    let rsq: i128 = (ratio as i128) * (ratio as i128);
    proof {
        crate::tparam::lemma_abs_product_bound(
            sin_sq as int, rsq as int, 0x1_0000_0000, 0x10_0000_0000_0000);
    }
    let lhs: i128 = (sin_sq as i128) * rsq;
    let one4: i128 = (FX_ONE as i128) * (FX_ONE as i128) * (FX_ONE as i128)
        * (FX_ONE as i128);
    lhs > one4
}

/// The Schlick reflectance approximation at lattice scale.
fn schlick(cos: i64, ratio: i64) -> (r: i64)
    requires
        -FX_ONE <= cos <= FX_ONE,
        0 <= ratio <= 64 * FX_ONE,
    ensures
        r == schlick_spec(cos as int, ratio as int),
        0 <= r,
{
    let r0a = crate::fx::fx_div(FX_ONE - ratio, FX_ONE + ratio);
    let r0b = crate::fx::clamp_i64(r0a, -FX_ONE, FX_ONE);
    let r0 = fx_sq_unit(r0b);
    let base = crate::fx::clamp_i64(FX_ONE - cos, 0, FX_ONE);
    let b2 = fx_sq_unit(base);
    let b4 = fx_sq_unit(b2);
    let b5 = fx_unit_mul(b4, base);
    let gain = crate::fx::clamp_i64(FX_ONE - r0, 0, FX_ONE);
    let term = fx_unit_mul(gain, b5);
    let s = r0 + term;
    if s < 0 {
        0
    } else {
        s
    }
}

/// The lattice square of a value in `[-FX_ONE, FX_ONE]`.
fn fx_sq_unit(a: i64) -> (r: i64)
    requires
        -FX_ONE <= a <= FX_ONE,
    ensures
        r == fx_mul_spec(a as int, a as int),
        0 <= r <= FX_ONE,
{
    proof {
        crate::tparam::lemma_abs_product_bound(a as int, a as int, FX_ONE as int, FX_ONE as int);
        assert(a as int * a as int >= 0) by (nonlinear_arith);
    }
    let p: i128 = (a as i128) * (a as i128);
    let q = crate::fx::div_floor_i128(p, FX_ONE as i128);
    q as i64
}

/// The lattice product of two values in `[0, FX_ONE]`.
fn fx_unit_mul(a: i64, b: i64) -> (r: i64)
    requires
        0 <= a <= FX_ONE,
        0 <= b <= FX_ONE,
    ensures
        r == fx_mul_spec(a as int, b as int),
        0 <= r <= FX_ONE,
{
    proof {
        crate::tparam::lemma_abs_product_bound(a as int, b as int, FX_ONE as int, FX_ONE as int);
        assert(a as int * b as int >= 0) by (nonlinear_arith)
            requires a >= 0 && b >= 0,
        ;
    }
    let p: i128 = (a as i128) * (b as i128);
    let q = crate::fx::div_floor_i128(p, FX_ONE as i128);
    q as i64
}

} // verus!

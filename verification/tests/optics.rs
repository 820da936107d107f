//! Transforms, materials and the integrator on concrete scenes.

use std::sync::Arc;
use pathtracer::fx::FX_ONE;
use pathtracer::hittable::Hittable;
use pathtracer::material::Material;
use pathtracer::ray::Ray;
use pathtracer::render::ray_color;
use pathtracer::rng::new_rng;
use pathtracer::skybox::Skybox;
use pathtracer::texture::Texture;
use pathtracer::tparam::TParam;
use pathtracer::transform::Transform;
use pathtracer::vec3::Vec3;

fn gray() -> Arc<Material> {
    Arc::new(Material::Lambertian {
        albedo: Arc::new(Texture::SolidColor {
            color: Vec3 { x: FX_ONE / 2, y: FX_ONE / 2, z: FX_ONE / 2 },
        }),
    })
}

fn window() -> (TParam, TParam) {
    (TParam { num: 1, den: 1000 }, TParam { num: 1 << 40, den: 1 })
}

#[test]
fn identity_instance_reproduces_child() {
    let child = Arc::new(Hittable::sphere(Vec3 { x: 0, y: 0, z: 0 }, FX_ONE, gray()));
    let inst = Hittable::instance(child.clone(), Transform::identity());
    let (lo, hi) = window();
    let mut rng = new_rng();
    for dx in [-1i64, 0, 1] {
        let ray = Ray {
            origin: Vec3 { x: dx * FX_ONE / 2, y: 0, z: -4 * FX_ONE },
            direction: Vec3 { x: 0, y: 0, z: FX_ONE },
            time: 0,
        };
        let a = child.hit(&ray, &lo, &hi, &mut rng);
        let b = inst.hit(&ray, &lo, &hi, &mut rng);
        match (a, b) {
            (None, None) => {},
            (Some(x), Some(y)) => {
                assert_eq!(x.point, y.point);
                assert_eq!(x.normal, y.normal);
                assert_eq!(x.t, y.t);
                assert_eq!(x.u, y.u);
                assert_eq!(x.v, y.v);
            },
            _ => panic!("identity instance changed whether the ray hits"),
        }
    }
}

#[test]
fn translated_instance_shifts_hits() {
    let child = Arc::new(Hittable::sphere(Vec3 { x: 0, y: 0, z: 0 }, FX_ONE, gray()));
    let shift = Transform::new(
        Vec3 { x: 3 * FX_ONE, y: 0, z: 0 },
        pathtracer::quaternion::Quaternion::identity(),
        Vec3 { x: FX_ONE, y: FX_ONE, z: FX_ONE },
    );
    let inst = Hittable::instance(child, shift);
    let (lo, hi) = window();
    let mut rng = new_rng();
    let ray = Ray {
        origin: Vec3 { x: 3 * FX_ONE, y: 0, z: -4 * FX_ONE },
        direction: Vec3 { x: 0, y: 0, z: FX_ONE },
        time: 0,
    };
    let rec = inst.hit(&ray, &lo, &hi, &mut rng).expect("shifted sphere must be hit");
    assert_eq!(rec.point.x, 3 * FX_ONE);
    assert!((rec.point.z + FX_ONE).abs() <= 2);
}

#[test]
fn moving_instance_matches_endpoints() {
    let child = Arc::new(Hittable::sphere(Vec3 { x: 0, y: 0, z: 0 }, FX_ONE, gray()));
    let t0 = Transform::identity();
    let t1 = Transform::new(
        Vec3 { x: 4 * FX_ONE, y: 0, z: 0 },
        pathtracer::quaternion::Quaternion::identity(),
        Vec3 { x: FX_ONE, y: FX_ONE, z: FX_ONE },
    );
    let moving = Hittable::moving_instance(child.clone(), t0, t1, 0, FX_ONE);
    let world_box = match &moving {
        Hittable::MovingInstance { world_box, .. } => *world_box,
        _ => unreachable!(),
    };
    let at_start = Hittable::Instance { hittable: child.clone(), transform: t0, world_box };
    let at_end = Hittable::Instance { hittable: child, transform: t1, world_box };
    let (lo, hi) = window();
    let mut rng = new_rng();
    for (time, fixed) in [(0i64, &at_start), (FX_ONE, &at_end)] {
        for ox in [0i64, 4] {
            let ray = Ray {
                origin: Vec3 { x: ox * FX_ONE, y: 0, z: -4 * FX_ONE },
                direction: Vec3 { x: 0, y: 0, z: FX_ONE },
                time,
            };
            let a = moving.hit(&ray, &lo, &hi, &mut rng);
            let b = fixed.hit(&ray, &lo, &hi, &mut rng);
            match (a, b) {
                (None, None) => {},
                (Some(x), Some(y)) => {
                    assert_eq!(x.point, y.point);
                    assert_eq!(x.t, y.t);
                },
                _ => panic!("moving instance diverges from its endpoint transform"),
            }
        }
    }
}

#[test]
fn refraction_with_equal_indices_never_bends() {
    let v = Vec3 { x: 3000, y: -1234, z: 61234 };
    let n = Vec3 { x: 0, y: 0, z: -FX_ONE };
    let r = Vec3::refract(&v, &n, FX_ONE, FX_ONE);
    assert_eq!(r, v);
    let r2 = Vec3::refract(&v, &n, 3 * FX_ONE / 2, 3 * FX_ONE / 2);
    assert_eq!(r2, v);
}

#[test]
fn reflection_about_axis_normal_is_exact_mirror() {
    let v = Vec3 { x: 1000, y: -2000, z: 3000 };
    let n = Vec3 { x: 0, y: 0, z: FX_ONE };
    let r = Vec3::reflect(&v, &n);
    assert_eq!(r, Vec3 { x: 1000, y: -2000, z: -3000 });
}

#[test]
fn empty_scene_returns_skybox_color_at_every_depth() {
    let world = Hittable::list_new();
    let color = Vec3 { x: 9000, y: 18000, z: 27000 };
    let sky = Skybox::solid(color);
    let ray = Ray {
        origin: Vec3 { x: 0, y: 0, z: 0 },
        direction: Vec3 { x: FX_ONE, y: FX_ONE / 3, z: -FX_ONE / 7 },
        time: 0,
    };
    let mut rng = new_rng();
    for depth in [1u32, 2, 5, 50] {
        assert_eq!(ray_color(&ray, &world, &sky, depth, &mut rng), color);
    }
    assert_eq!(ray_color(&ray, &world, &sky, 0, &mut rng), Vec3 { x: 0, y: 0, z: 0 });
}

#[test]
fn diffuse_light_emits_and_declines_to_scatter() {
    let world_tex = Arc::new(Texture::SolidColor {
        color: Vec3 { x: FX_ONE, y: FX_ONE / 2, z: 0 },
    });
    let light = Arc::new(Material::DiffuseLight { emit: world_tex });
    let lamp = Hittable::rect(
        pathtracer::hittable::Plane::XY,
        -FX_ONE,
        FX_ONE,
        -FX_ONE,
        FX_ONE,
        0,
        light,
    );
    let mut world = Hittable::list_new();
    world.add(Arc::new(lamp));
    let sky = Skybox::solid(Vec3 { x: 0, y: 0, z: 0 });
    let ray = Ray {
        origin: Vec3 { x: 0, y: 0, z: -2 * FX_ONE },
        direction: Vec3 { x: 0, y: 0, z: FX_ONE },
        time: 0,
    };
    let mut rng = new_rng();
    let c = ray_color(&ray, &world, &sky, 8, &mut rng);
    assert_eq!(c, Vec3 { x: FX_ONE, y: FX_ONE / 2, z: 0 });
}

#[test]
fn metal_with_no_fuzz_mirrors_the_ray() {
    let tex = Arc::new(Texture::SolidColor {
        color: Vec3 { x: FX_ONE, y: FX_ONE, z: FX_ONE },
    });
    let metal = Arc::new(Material::Metal { albedo: tex, fuzziness: 0 });
    let mirror = Hittable::rect(
        pathtracer::hittable::Plane::XY,
        -2 * FX_ONE,
        2 * FX_ONE,
        -2 * FX_ONE,
        2 * FX_ONE,
        0,
        metal.clone(),
    );
    let ray = Ray {
        origin: Vec3 { x: -FX_ONE, y: 0, z: -FX_ONE },
        direction: Vec3 { x: FX_ONE, y: 0, z: FX_ONE },
        time: 0,
    };
    let (lo, hi) = window();
    let mut rng = new_rng();
    let rec = mirror.hit(&ray, &lo, &hi, &mut rng).expect("mirror must be hit");
    let scattered = metal.scatter(&ray, &rec, &mut rng).expect("mirror must scatter");
    assert_eq!(scattered.0.direction, Vec3 { x: FX_ONE, y: 0, z: -FX_ONE });
}

#[test]
fn constant_medium_scatters_inside_or_not_at_all() {
    let boundary = Arc::new(Hittable::sphere(
        Vec3 { x: 0, y: 0, z: 0 },
        2 * FX_ONE,
        gray(),
    ));
    let fog_tex = Arc::new(Texture::SolidColor {
        color: Vec3 { x: FX_ONE / 2, y: FX_ONE / 2, z: FX_ONE / 2 },
    });
    let fog = Hittable::constant_medium(boundary, 8 * FX_ONE, fog_tex);
    let ray = Ray {
        origin: Vec3 { x: 0, y: 0, z: -6 * FX_ONE },
        direction: Vec3 { x: 0, y: 0, z: FX_ONE },
        time: 0,
    };
    let (lo, hi) = window();
    let mut rng = new_rng();
    let mut saw_scatter = false;
    for _ in 0..64 {
        if let Some(rec) = fog.hit(&ray, &lo, &hi, &mut rng) {
            saw_scatter = true;
            assert!(rec.point.x.abs() <= 2 * FX_ONE + 16);
            assert!(rec.point.z.abs() <= 2 * FX_ONE + 16);
            assert!(matches!(&*rec.material, Material::Isotropic { .. }));
            assert_eq!(rec.normal, Vec3 { x: 0, y: FX_ONE, z: 0 });
            assert_eq!((rec.u, rec.v), (0, 0));
        }
    }
    assert!(saw_scatter, "a dense medium should scatter at least once in many tries");
}

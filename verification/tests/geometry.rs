//! Boxes, slab tests and closest-hit selection on concrete scenes.

use std::sync::Arc;
use pathtracer::aabb::AABB;
use pathtracer::fx::{BOX_PAD, FX_ONE};
use pathtracer::hittable::Hittable;
use pathtracer::material::Material;
use pathtracer::ray::Ray;
use pathtracer::rng::new_rng;
use pathtracer::texture::Texture;
use pathtracer::tparam::TParam;
use pathtracer::vec3::Vec3;

fn gray() -> Arc<Material> {
    Arc::new(Material::Lambertian {
        albedo: Arc::new(Texture::SolidColor {
            color: Vec3 { x: FX_ONE / 2, y: FX_ONE / 2, z: FX_ONE / 2 },
        }),
    })
}

fn window() -> (TParam, TParam) {
    (TParam { num: 1, den: 1000 }, TParam { num: 1 << 40, den: 1 })
}

#[test]
fn composite_bounds_is_exact_union() {
    let s1 = Hittable::sphere(Vec3 { x: 0, y: 0, z: 0 }, FX_ONE, gray());
    let s2 = Hittable::sphere(Vec3 { x: 5 * FX_ONE, y: FX_ONE, z: 0 }, 2 * FX_ONE, gray());
    let mut list = Hittable::list_new();
    list.add(Arc::new(s1));
    list.add(Arc::new(s2));
    let b = list.bounding_box(0, 0).unwrap();
    assert_eq!(b.min.x, -FX_ONE - BOX_PAD);
    assert_eq!(b.min.y, -FX_ONE - BOX_PAD);
    assert_eq!(b.min.z, -2 * FX_ONE - BOX_PAD);
    assert_eq!(b.max.x, 7 * FX_ONE + BOX_PAD);
    assert_eq!(b.max.y, 3 * FX_ONE + BOX_PAD);
    assert_eq!(b.max.z, 2 * FX_ONE + BOX_PAD);
}

#[test]
fn empty_composite_has_no_bounds() {
    let list = Hittable::list_new();
    assert!(list.bounding_box(0, 0).is_none());
}

#[test]
fn slab_test_hit_and_miss() {
    let b = AABB {
        min: Vec3 { x: -FX_ONE, y: -FX_ONE, z: -FX_ONE },
        max: Vec3 { x: FX_ONE, y: FX_ONE, z: FX_ONE },
    };
    let toward = Ray {
        origin: Vec3 { x: 0, y: 0, z: -5 * FX_ONE },
        direction: Vec3 { x: 0, y: 0, z: FX_ONE },
        time: 0,
    };
    let away = Ray {
        origin: Vec3 { x: 0, y: 0, z: -5 * FX_ONE },
        direction: Vec3 { x: 0, y: 0, z: -FX_ONE },
        time: 0,
    };
    let (lo, hi) = window();
    assert!(b.hit(&toward, &lo, &hi));
    assert!(!b.hit(&away, &lo, &hi));
    // The window below the box's slab range must miss.
    let tiny_hi = TParam { num: FX_ONE as i128, den: FX_ONE as i128 };
    assert!(!b.hit(&toward, &lo, &tiny_hi));
}

#[test]
fn slab_test_boundary_parallel_ray() {
    // A degenerate box and a ray lying exactly in its plane, moving
    // parallel to it: a defined miss, no panic.
    let b = AABB {
        min: Vec3 { x: -FX_ONE, y: 0, z: -FX_ONE },
        max: Vec3 { x: FX_ONE, y: 0, z: FX_ONE },
    };
    let r = Ray {
        origin: Vec3 { x: -2 * FX_ONE, y: 0, z: 0 },
        direction: Vec3 { x: FX_ONE, y: 0, z: 0 },
        time: 0,
    };
    let (lo, hi) = window();
    assert!(!b.hit(&r, &lo, &hi));
}

#[test]
fn sphere_hit_reports_nearest_surface_point() {
    let s = Hittable::sphere(Vec3 { x: 0, y: 0, z: 0 }, FX_ONE, gray());
    let ray = Ray {
        origin: Vec3 { x: 0, y: 0, z: -3 * FX_ONE },
        direction: Vec3 { x: 0, y: 0, z: FX_ONE },
        time: 0,
    };
    let (lo, hi) = window();
    let mut rng = new_rng();
    let rec = s.hit(&ray, &lo, &hi, &mut rng).expect("the centered ray must hit");
    assert_eq!(rec.point.x, 0);
    assert_eq!(rec.point.y, 0);
    assert!((rec.point.z + FX_ONE).abs() <= 2);
    assert!(rec.normal.z < 0);
}

#[test]
fn list_reports_closest_of_two() {
    let near = Hittable::sphere(Vec3 { x: 0, y: 0, z: -2 * FX_ONE }, FX_ONE / 2, gray());
    let far = Hittable::sphere(Vec3 { x: 0, y: 0, z: 4 * FX_ONE }, FX_ONE / 2, gray());
    let mut list = Hittable::list_new();
    list.add(Arc::new(far));
    list.add(Arc::new(near));
    let ray = Ray {
        origin: Vec3 { x: 0, y: 0, z: -6 * FX_ONE },
        direction: Vec3 { x: 0, y: 0, z: FX_ONE },
        time: 0,
    };
    let (lo, hi) = window();
    let mut rng = new_rng();
    let rec = list.hit(&ray, &lo, &hi, &mut rng).expect("must hit the near sphere");
    assert!(rec.point.z < -FX_ONE);
}

#[test]
fn bvh_matches_brute_force_scan() {
    let mut rng = new_rng();
    let mut list = Hittable::list_new();
    for i in 0..7i64 {
        list.add(Arc::new(Hittable::sphere(
            Vec3 { x: (i - 3) * 2 * FX_ONE, y: 0, z: i * FX_ONE },
            FX_ONE / 2,
            gray(),
        )));
    }
    let bvh = Hittable::bvh_new(&list, 0, 0, &mut rng).expect("bounded members");
    let (lo, hi) = window();
    for dir_x in [-2i64, -1, 0, 1, 2] {
        for dir_y in [-1i64, 0, 1] {
            let ray = Ray {
                origin: Vec3 { x: 0, y: 0, z: -8 * FX_ONE },
                direction: Vec3 { x: dir_x * FX_ONE / 2, y: dir_y * FX_ONE / 2, z: FX_ONE },
                time: 0,
            };
            let from_tree = bvh.hit(&ray, &lo, &hi, &mut rng);
            let from_scan = list.hit(&ray, &lo, &hi, &mut rng);
            match (from_tree, from_scan) {
                (None, None) => {},
                (Some(a), Some(b)) => {
                    assert!(a.t.eq_rat(&b.t));
                    assert_eq!(a.point, b.point);
                },
                _ => panic!("tree and scan disagree on whether the ray hits"),
            }
        }
    }
}

#[test]
fn bvh_build_rejects_empty_and_unbounded() {
    let mut rng = new_rng();
    let empty = Hittable::list_new();
    assert!(Hittable::bvh_new(&empty, 0, 0, &mut rng).is_err());
    let mut with_unbounded = Hittable::list_new();
    with_unbounded.add(Arc::new(Hittable::list_new()));
    assert!(Hittable::bvh_new(&with_unbounded, 0, 0, &mut rng).is_err());
}

#[test]
fn rect_hit_and_uv() {
    let r = Hittable::rect(
        pathtracer::hittable::Plane::XY,
        -FX_ONE,
        FX_ONE,
        -FX_ONE,
        FX_ONE,
        0,
        gray(),
    );
    let ray = Ray {
        origin: Vec3 { x: 0, y: 0, z: -2 * FX_ONE },
        direction: Vec3 { x: 0, y: 0, z: FX_ONE },
        time: 0,
    };
    let (lo, hi) = window();
    let mut rng = new_rng();
    let rec = r.hit(&ray, &lo, &hi, &mut rng).expect("must hit the plane");
    assert_eq!(rec.point.z, 0);
    assert_eq!(rec.u, FX_ONE / 2);
    assert_eq!(rec.v, FX_ONE / 2);
    assert_eq!(rec.normal, Vec3 { x: 0, y: 0, z: FX_ONE });
}

#[test]
fn remove_drops_exactly_the_indexed_member() {
    let near = Hittable::sphere(Vec3 { x: 0, y: 0, z: -2 * FX_ONE }, FX_ONE / 2, gray());
    let far = Hittable::sphere(Vec3 { x: 0, y: 0, z: 4 * FX_ONE }, FX_ONE / 2, gray());
    let mut list = Hittable::list_new();
    list.add(Arc::new(near));
    list.add(Arc::new(far));
    list.remove(0);
    let ray = Ray {
        origin: Vec3 { x: 0, y: 0, z: -6 * FX_ONE },
        direction: Vec3 { x: 0, y: 0, z: FX_ONE },
        time: 0,
    };
    let (lo, hi) = window();
    let mut rng = new_rng();
    let rec = list.hit(&ray, &lo, &hi, &mut rng).expect("the far sphere remains");
    assert!(rec.point.z > 3 * FX_ONE);
    list.remove(0);
    assert!(list.hit(&ray, &lo, &hi, &mut rng).is_none());
}

#[test]
fn encapsulate_grows_to_union() {
    let mut a = AABB {
        min: Vec3 { x: 0, y: 0, z: 0 },
        max: Vec3 { x: FX_ONE, y: FX_ONE, z: FX_ONE },
    };
    let b = AABB {
        min: Vec3 { x: -FX_ONE, y: FX_ONE / 2, z: 0 },
        max: Vec3 { x: FX_ONE / 2, y: 3 * FX_ONE, z: FX_ONE },
    };
    a.encapsulate(b);
    assert_eq!(a.min, Vec3 { x: -FX_ONE, y: 0, z: 0 });
    assert_eq!(a.max, Vec3 { x: FX_ONE, y: 3 * FX_ONE, z: FX_ONE });
}

#[test]
fn aa_box_is_six_faces_and_behaves_like_a_box() {
    let bx = Hittable::aa_box(
        Vec3 { x: -FX_ONE, y: -FX_ONE, z: -FX_ONE },
        Vec3 { x: FX_ONE, y: FX_ONE, z: FX_ONE },
        gray(),
    );
    let bounds = bx.bounding_box(0, 0).unwrap();
    assert!(bounds.min.x <= -FX_ONE && bounds.max.x >= FX_ONE);
    let ray = Ray {
        origin: Vec3 { x: 0, y: 0, z: -4 * FX_ONE },
        direction: Vec3 { x: 0, y: 0, z: FX_ONE },
        time: 0,
    };
    let (lo, hi) = window();
    let mut rng = new_rng();
    let rec = bx.hit(&ray, &lo, &hi, &mut rng).expect("the box front face must be hit");
    assert_eq!(rec.point.z, -FX_ONE);
}

#[test]
fn plane_specific_rectangles_sit_in_their_planes() {
    let floor = Hittable::xz_rect(-FX_ONE, FX_ONE, -FX_ONE, FX_ONE, 0, gray());
    let wall = Hittable::yz_rect(-FX_ONE, FX_ONE, -FX_ONE, FX_ONE, 0, gray());
    let back = Hittable::xy_rect(-FX_ONE, FX_ONE, -FX_ONE, FX_ONE, 0, gray());
    let down = Ray {
        origin: Vec3 { x: 0, y: 2 * FX_ONE, z: 0 },
        direction: Vec3 { x: 0, y: -FX_ONE, z: 0 },
        time: 0,
    };
    let sideways = Ray {
        origin: Vec3 { x: -2 * FX_ONE, y: 0, z: 0 },
        direction: Vec3 { x: FX_ONE, y: 0, z: 0 },
        time: 0,
    };
    let forward = Ray {
        origin: Vec3 { x: 0, y: 0, z: -2 * FX_ONE },
        direction: Vec3 { x: 0, y: 0, z: FX_ONE },
        time: 0,
    };
    let (lo, hi) = window();
    let mut rng = new_rng();
    assert!(floor.hit(&down, &lo, &hi, &mut rng).is_some());
    assert!(wall.hit(&sideways, &lo, &hi, &mut rng).is_some());
    assert!(back.hit(&forward, &lo, &hi, &mut rng).is_some());
    assert!(floor.hit(&sideways, &lo, &hi, &mut rng).is_none());
}

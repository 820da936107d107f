//! Images, textures, tone mapping, sampling and full renders.

use std::sync::Arc;
use pathtracer::camera::PinholeCamera;
use pathtracer::fx::FX_ONE;
use pathtracer::hittable::Hittable;
use pathtracer::image::Image;
use pathtracer::perlin::Perlin;
use pathtracer::render::{render_sample, RenderParams, Renderer};
use pathtracer::rng::{new_rng, rand_exponential};
use pathtracer::skybox::Skybox;
use pathtracer::texture::{SamplingMode, Texture};
use pathtracer::vec3::{Color, Vec3};

#[test]
fn tone_mapping_is_the_exact_gamma_table() {
    let full = Color { x: FX_ONE, y: 0, z: FX_ONE / 4 };
    let px = full.to_pixel();
    assert_eq!(px[0], 255);
    assert_eq!(px[1], 0);
    assert_eq!(px[2], 128);
}

#[test]
fn image_accumulates_and_divides_exactly() {
    let mut a = Image::new(2, 2);
    let mut b = Image::new(2, 2);
    a.set(0, 0, Color { x: 100, y: 200, z: 300 });
    b.set(0, 0, Color { x: 20, y: 40, z: 60 });
    b.set(1, 1, Color { x: 9, y: 9, z: 9 });
    a.add_assign(&b);
    assert_eq!(a.get(0, 0), Color { x: 120, y: 240, z: 360 });
    assert_eq!(a.get(1, 1), Color { x: 9, y: 9, z: 9 });
    a.div_by(3);
    assert_eq!(a.get(0, 0), Color { x: 40, y: 80, z: 120 });
    assert_eq!(a.get(1, 0), Color { x: 0, y: 0, z: 0 });
}

#[test]
fn checker_alternates_between_cells() {
    let red = Arc::new(Texture::SolidColor { color: Color { x: FX_ONE, y: 0, z: 0 } });
    let blue = Arc::new(Texture::SolidColor { color: Color { x: 0, y: 0, z: FX_ONE } });
    let checker = Texture::checker(red, blue, FX_ONE);
    let even_cell = checker.value(0, 0, Vec3 { x: FX_ONE / 2, y: FX_ONE / 2, z: FX_ONE / 2 });
    let odd_cell = checker.value(0, 0, Vec3 {
        x: 3 * FX_ONE / 2,
        y: FX_ONE / 2,
        z: FX_ONE / 2,
    });
    assert_eq!(even_cell, Color { x: 0, y: 0, z: FX_ONE });
    assert_eq!(odd_cell, Color { x: FX_ONE, y: 0, z: 0 });
    assert!(matches!(
        Texture::checker_with_sampling_mode(
            Arc::new(Texture::SolidColor { color: Color { x: 0, y: 0, z: 0 } }),
            Arc::new(Texture::SolidColor { color: Color { x: 0, y: 0, z: 0 } }),
            FX_ONE,
            SamplingMode::UV,
        ),
        Texture::Checker { .. }
    ));
}

#[test]
fn image_texture_samples_texels_with_v_flip() {
    let mut img = Image::new(2, 2);
    img.set(0, 0, Color { x: 1, y: 0, z: 0 });
    img.set(1, 0, Color { x: 2, y: 0, z: 0 });
    img.set(0, 1, Color { x: 3, y: 0, z: 0 });
    img.set(1, 1, Color { x: 4, y: 0, z: 0 });
    let tex = Texture::ImageTexture { image: img };
    // v = 1 addresses the top row, which is stored first.
    assert_eq!(tex.value(0, FX_ONE, Vec3 { x: 0, y: 0, z: 0 }).x, 1);
    assert_eq!(tex.value(FX_ONE, FX_ONE, Vec3 { x: 0, y: 0, z: 0 }).x, 2);
    assert_eq!(tex.value(0, 0, Vec3 { x: 0, y: 0, z: 0 }).x, 3);
    assert_eq!(tex.value(FX_ONE, 0, Vec3 { x: 0, y: 0, z: 0 }).x, 4);
}

#[test]
fn perlin_noise_is_deterministic_and_bounded() {
    let mut rng = new_rng();
    let perlin = Perlin::new(&mut rng);
    let p = Vec3 { x: 3 * FX_ONE / 2, y: -FX_ONE / 3, z: 5 * FX_ONE / 7 };
    let a = perlin.noise(p);
    let b = perlin.noise(p);
    assert_eq!(a, b);
    assert!(a.abs() <= 32 * FX_ONE);
    let t = perlin.turbulence(p);
    assert!(t >= 0 && t <= 64 * FX_ONE);
    let marble = Texture::noise(FX_ONE, &mut rng);
    let c = marble.value(0, 0, p);
    assert!(c.x >= 0 && c.x <= FX_ONE);
    assert_eq!(c.x, c.y);
    assert_eq!(c.y, c.z);
}

#[test]
fn exponential_free_path_stays_in_range() {
    let mut rng = new_rng();
    for _ in 0..200 {
        let d = rand_exponential(&mut rng);
        assert!(d >= 0 && d <= 64 * FX_ONE);
    }
}

#[test]
fn random_colors_respect_their_range() {
    let mut rng = new_rng();
    for _ in 0..50 {
        let c = Color::random(&mut rng, 5, 10);
        assert!(c.x >= 5 && c.x <= 10);
        assert!(c.y >= 5 && c.y <= 10);
        assert!(c.z >= 5 && c.z <= 10);
    }
}

#[test]
fn render_sample_of_empty_scene_is_the_skybox() {
    let world = Hittable::list_new();
    let color = Color { x: 4096, y: 8192, z: 12288 };
    let sky = Skybox::solid(color);
    let camera = PinholeCamera::new(
        Vec3 { x: 0, y: 0, z: 0 },
        Vec3 { x: -FX_ONE, y: -FX_ONE, z: -FX_ONE },
        Vec3 { x: 2 * FX_ONE, y: 0, z: 0 },
        Vec3 { x: 0, y: 2 * FX_ONE, z: 0 },
    );
    let params = RenderParams {
        image_width: 3,
        image_height: 2,
        num_samples: 1,
        max_ray_depth: 4,
    };
    let mut rng = new_rng();
    let img = render_sample(&world, &sky, &camera, &params, &mut rng);
    for x in 0..3 {
        for y in 0..2 {
            assert_eq!(img.get(x, y), color);
        }
    }
}

#[test]
fn renderer_fills_its_buffer_with_the_tonemapped_skybox() {
    let world = Hittable::list_new();
    let color = Color { x: FX_ONE / 4, y: FX_ONE, z: 0 };
    let sky = Skybox::solid(color);
    let camera = PinholeCamera::new(
        Vec3 { x: 0, y: 0, z: 0 },
        Vec3 { x: -FX_ONE, y: -FX_ONE, z: -FX_ONE },
        Vec3 { x: 2 * FX_ONE, y: 0, z: 0 },
        Vec3 { x: 0, y: 2 * FX_ONE, z: 0 },
    );
    let mut renderer = Renderer::new(2, 2, 4, 3);
    assert_eq!(renderer.buffer.len(), 12);
    renderer.render(&world, &sky, &camera);
    let expected = color.to_pixel();
    for px in 0..4 {
        assert_eq!(renderer.buffer[3 * px], expected[0]);
        assert_eq!(renderer.buffer[3 * px + 1], expected[1]);
        assert_eq!(renderer.buffer[3 * px + 2], expected[2]);
    }
}

#[test]
fn gradient_skybox_blends_between_its_colors() {
    let from = Color { x: 0, y: 0, z: 0 };
    let to = Color { x: FX_ONE, y: FX_ONE, z: FX_ONE };
    let sky = Skybox::gradient(from, to, Vec3 { x: 0, y: FX_ONE, z: 0 });
    let up = pathtracer::ray::Ray {
        origin: Vec3 { x: 0, y: 0, z: 0 },
        direction: Vec3 { x: 0, y: FX_ONE, z: 0 },
        time: 0,
    };
    let down = pathtracer::ray::Ray {
        origin: Vec3 { x: 0, y: 0, z: 0 },
        direction: Vec3 { x: 0, y: -FX_ONE, z: 0 },
        time: 0,
    };
    let c_up = sky.get_color(&up);
    let c_down = sky.get_color(&down);
    assert!(c_up.y > c_down.y);
    assert!(c_down.y <= 2);
}

#[test]
fn sample_count_does_not_move_a_deterministic_pixel() {
    // With no geometry every sample sees exactly the skybox, so the
    // averaged pixel cannot depend on how many samples were taken.
    let world = Hittable::list_new();
    let color = Color { x: 3 * FX_ONE / 7, y: FX_ONE / 9, z: FX_ONE / 2 };
    let sky = Skybox::solid(color);
    let camera = PinholeCamera::new(
        Vec3 { x: 0, y: 0, z: 0 },
        Vec3 { x: -FX_ONE, y: -FX_ONE, z: -FX_ONE },
        Vec3 { x: 2 * FX_ONE, y: 0, z: 0 },
        Vec3 { x: 0, y: 2 * FX_ONE, z: 0 },
    );
    let mut single = Renderer::new(2, 2, 1, 3);
    let mut many = Renderer::new(2, 2, 7, 3);
    single.render(&world, &sky, &camera);
    many.render(&world, &sky, &camera);
    assert_eq!(single.buffer, many.buffer);
}

#[test]
fn random_samples_actually_vary() {
    let mut rng = new_rng();
    let first = Color::random(&mut rng, 0, 1_000_000);
    let mut varied = false;
    for _ in 0..100 {
        if Color::random(&mut rng, 0, 1_000_000) != first {
            varied = true;
        }
    }
    assert!(varied, "a uniform draw over a million values must not be constant");
}

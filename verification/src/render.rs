//! The integrator and the per-sample renderer.

use vstd::prelude::*;
use crate::camera::Camera;
use crate::color::pixel_channel_spec;
use crate::fx::{COORD_MAX, FX_ONE};
use crate::hittable::{det, hit_of, Hittable};
use crate::image::Image;
use crate::ray::Ray;
use crate::skybox::{skybox_color_spec, Skybox};
use crate::tparam::TParam;
use crate::vec3::{Color, Vec3};

verus! {

/// The lower ray-parameter bound of every scene query, which keeps a
/// scattered ray from immediately re-hitting its own surface.
pub const SELF_HIT_EPS: i64 = 64;

/// The lower bound of the integrator's scene queries.
pub open spec fn query_t_min() -> TParam {
    TParam { num: SELF_HIT_EPS as i128, den: FX_ONE as i128 }
}

/// The upper bound of the integrator's scene queries: above every
/// representable parameter.
pub open spec fn query_t_max() -> TParam {
    crate::tparam::t_above_all()
}

/// What a render is asked for.
pub struct RenderParams {
    pub image_width: usize,
    pub image_height: usize,
    pub num_samples: u32,
    pub max_ray_depth: u32,
}

impl RenderParams {
    pub open spec fn wf(self) -> bool {
        1 <= self.image_width <= 0xFFFF && 1 <= self.image_height <= 0xFFFF
            && 1 <= self.num_samples
    }
}

/// The recursive light-path estimate of one ray: black at exhausted depth;
/// on a miss the skybox's color; on a hit, the material's emission when it
/// declines to scatter, else the scattered estimate attenuated
/// componentwise.  A scene with no members reports the skybox color exactly,
/// at every positive depth.
pub fn ray_color(
    ray: &Ray,
    world: &Hittable,
    skybox: &Skybox,
    depth: u32,
    rng: &mut rand::rngs::ThreadRng,
) -> (c: Color)
    requires
        ray.wf(),
        world.wf(),
        skybox.wf(),
    ensures
        c.wf(),
        depth == 0 ==> c == (Vec3 { x: 0, y: 0, z: 0 }),
        depth >= 1 && (*world) is List && world->List_hittables@.len() == 0
            ==> c == skybox_color_spec(*skybox, *ray),
        depth >= 1 && det(*world) && hit_of(*world, *ray, query_t_min(), query_t_max())
            is None ==> c == skybox_color_spec(*skybox, *ray),
        depth >= 1 && det(*world) ==> match hit_of(*world, *ray, query_t_min(),
            query_t_max()) {
            Some(rec) => (*rec.material) is DiffuseLight ==> c == crate::material::
                emitted_spec(*rec.material, rec.u as int, rec.v as int, rec.point),
            None => true,
        },
    decreases depth,
{
    if depth == 0 {
        return Vec3 { x: 0, y: 0, z: 0 };
    }
    let t_min = TParam::from_fx(SELF_HIT_EPS);
    let t_max = TParam::above_all();
    proof {
        assert(t_min == query_t_min());
        assert(t_max == query_t_max());
    }
    let res = world.hit(ray, &t_min, &t_max, rng);
    proof {
        if (*world) is List && world->List_hittables@.len() == 0 {
            assert(det(*world));
            assert(hit_of(*world, *ray, t_min, t_max)
                == crate::hittable::list_hit_from(world->List_hittables@, 0, *ray, t_min,
                t_max, None::<crate::hit_record::HitRecord>));
            assert(crate::hittable::list_hit_from(world->List_hittables@, 0, *ray, t_min,
                t_max, None::<crate::hit_record::HitRecord>) is None);
        }
    }
    match res {
        Some(hit) => {
            let m = crate::shared::clone_arc(&hit.material);
            match m.scatter(ray, &hit, rng) {
                Some((scattered, attenuation)) => {
                    let deeper = ray_color(&scattered, world, skybox, depth - 1, rng);
                    let m2 = attenuation.hadamard(&deeper);
                    Vec3 {
                        x: crate::fx::sat_coord(m2.x as i128),
                        y: crate::fx::sat_coord(m2.y as i128),
                        z: crate::fx::sat_coord(m2.z as i128),
                    }
                },
                None => m.emitted(hit.u, hit.v, hit.point),
            }
        },
        None => skybox.get_color(ray),
    }
}

/// True of an image slice where every listed pixel carries one color.
pub open spec fn pixels_are(img: Image, color: Color, upto_x: int, upto_y: int) -> bool {
    forall|px: int, py: int| 0 <= px < upto_x && 0 <= py < upto_y
        ==> #[trigger] img.pixel(px, py) == color
}

/// One full-image sample: every pixel gets one jittered primary ray.  For a
/// scene with no members and a constant skybox every pixel is exactly that
/// constant, whatever the jitter drew.
pub fn render_sample<C: Camera>(
    world: &Hittable,
    skybox: &Skybox,
    camera: &C,
    params: &RenderParams,
    rng: &mut rand::rngs::ThreadRng,
) -> (r: Image)
    requires
        world.wf(),
        skybox.wf(),
        camera.cam_wf(),
        params.wf(),
    ensures
        r.wf(),
        r.width == params.image_width,
        r.height == params.image_height,
        params.max_ray_depth >= 1 && (*world) is List && world->List_hittables@.len() == 0
            && (*skybox) is SolidColor
            ==> pixels_are(r, skybox->SolidColor_color, r.width as int, r.height as int),
{
    let w = params.image_width;
    let h = params.image_height;
    let ghost deterministic = params.max_ray_depth >= 1 && (*world) is List
        && world->List_hittables@.len() == 0 && (*skybox) is SolidColor;
    let ghost sky_color = if (*skybox) is SolidColor {
        skybox->SolidColor_color
    } else {
        Vec3 { x: 0, y: 0, z: 0 }
    };
    let mut image = Image::new(w, h);
    let mut x: usize = 0;
    while x < w
        invariant
            x <= w,
            image.wf(),
            image.width == w,
            image.height == h,
            1 <= w <= 0xFFFF,
            1 <= h <= 0xFFFF,
            world.wf(),
            skybox.wf(),
            camera.cam_wf(),
            params.wf(),
            deterministic == (params.max_ray_depth >= 1 && (*world) is List
                && world->List_hittables@.len() == 0 && (*skybox) is SolidColor),
            (*skybox) is SolidColor ==> sky_color == skybox->SolidColor_color,
            deterministic ==> pixels_are(image, sky_color, x as int, h as int),
        decreases w - x,
    {
        let mut y: usize = 0;
        while y < h
            invariant
                x < w,
                y <= h,
                image.wf(),
                image.width == w,
                image.height == h,
                1 <= w <= 0xFFFF,
                1 <= h <= 0xFFFF,
                world.wf(),
                skybox.wf(),
                camera.cam_wf(),
                params.wf(),
                deterministic == (params.max_ray_depth >= 1 && (*world) is List
                    && world->List_hittables@.len() == 0 && (*skybox) is SolidColor),
                (*skybox) is SolidColor ==> sky_color == skybox->SolidColor_color,
                deterministic ==> pixels_are(image, sky_color, x as int, h as int),
                deterministic ==> forall|py: int| 0 <= py < y
                    ==> #[trigger] image.pixel(x as int, py) == sky_color,
            decreases h - y,
        {
            let u = pixel_param(x, w, rng);
            let v = FX_ONE - pixel_param(y, h, rng);
            let ray = camera.get_ray(u, v, rng);
            let color = ray_color(&ray, world, skybox, params.max_ray_depth, rng);
            let ghost before = image;
            image.set(x, y, color);
            proof {
                if deterministic {
                    assert(color == skybox_color_spec(*skybox, ray));
                    assert(color == sky_color);
                    assert forall|px: int, py: int| 0 <= px < x as int && 0 <= py < h as int
                        implies #[trigger] image.pixel(px, py) == sky_color by {
                        lemma_pixel_frame(before, image, color, w as int, h as int,
                            x as int, y as int, px, py);
                    }
                    assert forall|py: int| 0 <= py < y as int + 1
                        implies #[trigger] image.pixel(x as int, py) == sky_color by {
                        if py < y as int {
                            lemma_pixel_frame(before, image, color, w as int, h as int,
                                x as int, y as int, x as int, py);
                        } else {
                            lemma_pixel_write(before, image, color, w as int, h as int,
                                x as int, y as int);
                        }
                    }
                }
            }
            y = y + 1;
        }
        x = x + 1;
    }
    image
}

/// Writing one pixel leaves every other pixel of the grid unchanged.
proof fn lemma_pixel_frame(
    before: Image, after: Image, v: Color, w: int, h: int, sx: int, sy: int, px: int,
    py: int,
)
    requires
        before.width == w,
        before.height == h,
        after.width == w,
        after.height == h,
        before.buffer@.len() == w * h,
        0 <= sx < w,
        0 <= sy < h,
        0 <= px < w,
        0 <= py < h,
        !(px == sx && py == sy),
        after.buffer@ == before.buffer@.update(sy * w + sx, v),
    ensures
        after.pixel(px, py) == before.pixel(px, py),
{
    assert(py * w + px != sy * w + sx) by (nonlinear_arith)
        requires
            0 <= sx < w,
            0 <= px < w,
            0 <= sy,
            0 <= py,
            !(px == sx && py == sy),
    ;
    assert(0 <= py * w + px < w * h) by (nonlinear_arith)
        requires
            0 <= px < w,
            0 <= py < h,
    ;
    assert(0 <= sy * w + sx < w * h) by (nonlinear_arith)
        requires
            0 <= sx < w,
            0 <= sy < h,
    ;
    assert(after.buffer@[py * w + px] == before.buffer@[py * w + px]);
}

/// The written pixel carries the written color.
proof fn lemma_pixel_write(before: Image, after: Image, v: Color, w: int, h: int, sx: int,
    sy: int)
    requires
        after.width == w,
        after.height == h,
        before.buffer@.len() == w * h,
        0 <= sx < w,
        0 <= sy < h,
        after.buffer@ == before.buffer@.update(sy * w + sx, v),
    ensures
        after.pixel(sx, sy) == v,
{
    assert(0 <= sy * w + sx < w * h) by (nonlinear_arith)
        requires
            0 <= sx < w,
            0 <= sy < h,
    ;
    assert(after.buffer@[sy * w + sx] == v);
}

/// The jittered viewport parameter of a pixel: its center plus a uniform
/// offset of half a pixel either way, scaled into `[0, FX_ONE]`.
fn pixel_param(i: usize, extent: usize, rng: &mut rand::rngs::ThreadRng) -> (r: i64)
    requires
        i < extent,
        1 <= extent <= 0xFFFF,
    ensures
        0 <= r <= FX_ONE,
{
    let jitter = crate::rng::rng_range(rng, -(FX_ONE / 2), FX_ONE / 2);
    let fi: i64 = (i as i64) * FX_ONE + FX_ONE / 2 + jitter;
    proof {
        crate::tparam::lemma_abs_product_bound(i as int, FX_ONE as int, 0xFFFF, FX_ONE as int);
    }
    let q = crate::fx::div_floor_i128(fi as i128, extent as i128) as i64;
    crate::fx::clamp_i64(q, 0, FX_ONE)
}

/// A single-threaded renderer that owns its render parameters and an
/// 8-bit output buffer.
pub struct Renderer {
    pub image_width: u32,
    pub image_height: u32,
    pub num_samples: u32,
    pub max_depth: u32,
    pub buffer: Vec<u8>,
}

impl Renderer {
    pub open spec fn wf(self) -> bool {
        1 <= self.image_width <= 0x1000 && 1 <= self.image_height <= 0x1000
            && 1 <= self.num_samples && 1 <= self.max_depth
            && self.buffer@.len() == 3 * self.image_width * self.image_height
    }

    pub fn new(image_width: u32, image_height: u32, num_samples: u32, max_depth: u32) -> (r:
        Renderer)
        requires
            1 <= image_width <= 0x1000,
            1 <= image_height <= 0x1000,
            1 <= num_samples,
            1 <= max_depth,
        ensures
            r.image_width == image_width,
            r.image_height == image_height,
            r.num_samples == num_samples,
            r.max_depth == max_depth,
            r.buffer@.len() == 3 * image_width * image_height,
            forall|i: int| 0 <= i < r.buffer@.len() ==> r.buffer@[i] == 0,
            r.wf(),
    {
        proof {
            crate::tparam::lemma_abs_product_bound(image_width as int, image_height as int,
                0x1000, 0x1000);
            crate::tparam::lemma_abs_product_bound(3 * image_width as int,
                image_height as int, 3 * 0x1000int, 0x1000int);
            assert(3 * (image_width as int) * (image_height as int)
                == (3 * image_width as int) * (image_height as int)) by (nonlinear_arith);
        }
        let n: usize = 3 * (image_width as usize) * (image_height as usize);
        let mut buffer: Vec<u8> = Vec::new();
        let mut i: usize = 0;
        while i < n
            invariant
                buffer@.len() == i,
                i <= n,
                forall|j: int| 0 <= j < i ==> buffer@[j] == 0,
            decreases n - i,
        {
            buffer.push(0);
            i = i + 1;
        }
        Renderer { image_width, image_height, num_samples, max_depth, buffer }
    }

    /// Renders the whole image into the 8-bit buffer: per pixel, the
    /// average of `num_samples` jittered estimates, tone-mapped.
    pub fn render<C: Camera>(&mut self, world: &Hittable, skybox: &Skybox, camera: &C)
        requires
            old(self).wf(),
            world.wf(),
            skybox.wf(),
            camera.cam_wf(),
        ensures
            final(self).wf(),
            final(self).image_width == old(self).image_width,
            final(self).image_height == old(self).image_height,
            (*world) is List && world->List_hittables@.len() == 0 && (*skybox) is SolidColor
                ==> forall|px: int, py: int| 0 <= px < old(self).image_width
                    && 0 <= py < old(self).image_height
                    ==> #[trigger] pixel_bytes_are(final(self).buffer@,
                    old(self).image_width as int, skybox->SolidColor_color, px, py),
    {
        let mut rng = crate::rng::new_rng();
        let w = self.image_width as usize;
        let h = self.image_height as usize;
        let ns = self.num_samples;
        let depth = self.max_depth;
        let ghost deterministic = (*world) is List && world->List_hittables@.len() == 0
            && (*skybox) is SolidColor;
        let ghost sky_color = if (*skybox) is SolidColor {
            skybox->SolidColor_color
        } else {
            Vec3 { x: 0, y: 0, z: 0 }
        };
        let mut x: usize = 0;
        while x < w
            invariant
                x <= w,
                w == self.image_width,
                h == self.image_height,
                self.wf(),
                self.image_width == old(self).image_width,
                self.image_height == old(self).image_height,
                self.max_depth == depth,
                self.num_samples == ns,
                1 <= ns,
                1 <= depth,
                world.wf(),
                skybox.wf(),
                camera.cam_wf(),
                deterministic == ((*world) is List && world->List_hittables@.len() == 0
                    && (*skybox) is SolidColor),
                (*skybox) is SolidColor ==> sky_color == skybox->SolidColor_color,
                deterministic ==> forall|px: int, py: int| 0 <= px < x && 0 <= py < h
                    ==> #[trigger] pixel_bytes_are(self.buffer@, w as int, sky_color, px,
                    py),
            decreases w - x,
        {
            let mut y: usize = 0;
            while y < h
                invariant
                    x < w,
                    y <= h,
                    w == self.image_width,
                    h == self.image_height,
                    self.wf(),
                    self.image_width == old(self).image_width,
                    self.image_height == old(self).image_height,
                    self.max_depth == depth,
                    self.num_samples == ns,
                    1 <= ns,
                    1 <= depth,
                    world.wf(),
                    skybox.wf(),
                    camera.cam_wf(),
                    deterministic == ((*world) is List && world->List_hittables@.len() == 0
                        && (*skybox) is SolidColor),
                    (*skybox) is SolidColor ==> sky_color == skybox->SolidColor_color,
                    deterministic ==> forall|px: int, py: int| 0 <= px < x && 0 <= py < h
                        ==> #[trigger] pixel_bytes_are(self.buffer@, w as int, sky_color,
                        px, py),
                    deterministic ==> forall|py: int| 0 <= py < y
                        ==> #[trigger] pixel_bytes_are(self.buffer@, w as int, sky_color,
                        x as int, py),
                decreases h - y,
            {
                let mut ax: i128 = 0;
                let mut ay: i128 = 0;
                let mut az: i128 = 0;
                let mut s: u32 = 0;
                while s < ns
                    invariant
                        s <= ns,
                        x < w,
                        y < h,
                        w <= 0x1000,
                        h <= 0x1000,
                        1 <= depth,
                        world.wf(),
                        skybox.wf(),
                        camera.cam_wf(),
                        -(s as int) * (COORD_MAX as int) <= ax
                            <= (s as int) * (COORD_MAX as int),
                        -(s as int) * (COORD_MAX as int) <= ay
                            <= (s as int) * (COORD_MAX as int),
                        -(s as int) * (COORD_MAX as int) <= az
                            <= (s as int) * (COORD_MAX as int),
                        deterministic == ((*world) is List
                            && world->List_hittables@.len() == 0
                            && (*skybox) is SolidColor),
                        (*skybox) is SolidColor ==> sky_color == skybox->SolidColor_color,
                        deterministic ==> ax == (s as int) * (sky_color.x as int),
                        deterministic ==> ay == (s as int) * (sky_color.y as int),
                        deterministic ==> az == (s as int) * (sky_color.z as int),
                    decreases ns - s,
                {
                    let u = pixel_param(x, w, &mut rng);
                    let v = FX_ONE - pixel_param(y, h, &mut rng);
                    let ray = camera.get_ray(u, v, &mut rng);
                    let color = ray_color(&ray, world, skybox, depth, &mut rng);
                    let ghost oax = ax as int;
                    let ghost oay = ay as int;
                    let ghost oaz = az as int;
                    proof {
                        lemma_accum_step(ax, s as int, color.x as int);
                        lemma_accum_step(ay, s as int, color.y as int);
                        lemma_accum_step(az, s as int, color.z as int);
                        if deterministic {
                            assert(color == sky_color);
                        }
                    }
                    ax = ax + (color.x as i128);
                    ay = ay + (color.y as i128);
                    az = az + (color.z as i128);
                    proof {
                        if deterministic {
                            lemma_accum_product(oax, s as int, sky_color.x as int);
                            lemma_accum_product(oay, s as int, sky_color.y as int);
                            lemma_accum_product(oaz, s as int, sky_color.z as int);
                        }
                        lemma_accum_bound(oax, s as int, color.x as int);
                        lemma_accum_bound(oay, s as int, color.y as int);
                        lemma_accum_bound(oaz, s as int, color.z as int);
                    }
                    s = s + 1;
                }
                let avg = Vec3 {
                    x: avg_channel(ax, ns, Ghost(sky_color.x), Ghost(deterministic)),
                    y: avg_channel(ay, ns, Ghost(sky_color.y), Ghost(deterministic)),
                    z: avg_channel(az, ns, Ghost(sky_color.z), Ghost(deterministic)),
                };
                let pixel = avg.to_pixel();
                let idx = pixel_index(x, y, w, h);
                proof {
                    assert(3 * (w as int) * (h as int) <= 0x3000_0000) by (nonlinear_arith)
                        requires
                            0 < w <= 0x1000,
                            0 < h <= 0x1000,
                    ;
                }
                let ghost buf0 = self.buffer@;
                self.buffer.set(idx, pixel[0]);
                self.buffer.set(idx + 1, pixel[1]);
                self.buffer.set(idx + 2, pixel[2]);
                proof {
                    if deterministic {
                        assert(avg == sky_color);
                        lemma_bytes_after_write(buf0, self.buffer@, w as int, h as int,
                            x as int, y as int, pixel[0], pixel[1], pixel[2]);
                        assert(pixel_bytes_are(self.buffer@, w as int, sky_color,
                            x as int, y as int));
                        assert forall|px: int, py: int| 0 <= px < x && 0 <= py < h
                            implies #[trigger] pixel_bytes_are(self.buffer@, w as int,
                            sky_color, px, py) by {
                            assert(pixel_bytes_are(buf0, w as int, sky_color, px, py));
                            lemma_bytes_frame(buf0, self.buffer@, pixel[0], pixel[1],
                                pixel[2], w as int, h as int, x as int, y as int, px, py);
                        }
                        assert forall|py: int| 0 <= py < y as int + 1
                            implies #[trigger] pixel_bytes_are(self.buffer@, w as int,
                            sky_color, x as int, py) by {
                            if py < y as int {
                                assert(pixel_bytes_are(buf0, w as int, sky_color,
                                    x as int, py));
                                lemma_bytes_frame(buf0, self.buffer@, pixel[0], pixel[1],
                                    pixel[2], w as int, h as int, x as int, y as int,
                                    x as int, py);
                            }
                        }
                    }
                }
                y = y + 1;
            }
            x = x + 1;
        }
    }

}

/// The three bytes of one pixel carry the tone-mapped channels of a color.
pub open spec fn pixel_bytes_are(buf: Seq<u8>, w: int, color: Color, px: int, py: int)
    -> bool {
    &&& buf[3 * (py * w + px)] == pixel_channel_spec(color.x as int)
    &&& buf[3 * (py * w + px) + 1] == pixel_channel_spec(color.y as int)
    &&& buf[3 * (py * w + px) + 2] == pixel_channel_spec(color.z as int)
}

/// Adding one bounded channel to a bounded running sum stays representable.
proof fn lemma_accum_step(a: i128, s: int, c: int)
    requires
        -s * (COORD_MAX as int) <= a <= s * (COORD_MAX as int),
        -(COORD_MAX as int) <= c <= COORD_MAX as int,
        0 <= s <= 0x1_0000_0000,
    ensures
        -0x1000_0000_0000_0000_0000 <= a as int + c <= 0x1000_0000_0000_0000_0000,
{
    assert(-0x1000_0000_0000_0000_0000 <= a as int + c <= 0x1000_0000_0000_0000_0000)
        by (nonlinear_arith)
        requires
            -s * (COORD_MAX as int) <= a as int <= s * (COORD_MAX as int),
            -(COORD_MAX as int) <= c <= COORD_MAX as int,
            0 <= s <= 0x1_0000_0000,
    ;
}

/// The running sum of `s + 1` equal channels is the scaled channel.
proof fn lemma_accum_product(a0: int, s: int, sky: int)
    requires
        a0 == s * sky,
    ensures
        a0 + sky == (s + 1) * sky,
{
    assert(s * sky + sky == (s + 1) * sky) by (nonlinear_arith);
}

/// One more bounded sample keeps the bound at the next count.
proof fn lemma_accum_bound(a0: int, s: int, c: int)
    requires
        -s * (COORD_MAX as int) <= a0 <= s * (COORD_MAX as int),
        -(COORD_MAX as int) <= c <= COORD_MAX as int,
        s >= 0,
    ensures
        -(s + 1) * (COORD_MAX as int) <= a0 + c <= (s + 1) * (COORD_MAX as int),
{
    assert(-(s + 1) * (COORD_MAX as int) <= a0 + c <= (s + 1) * (COORD_MAX as int))
        by (nonlinear_arith)
        requires
            -s * (COORD_MAX as int) <= a0 <= s * (COORD_MAX as int),
            -(COORD_MAX as int) <= c <= COORD_MAX as int,
            s >= 0,
    ;
}

/// The average of a channel sum over the sample count, saturated to the
/// coordinate range; exact when every sample carried one value.
fn avg_channel(a: i128, ns: u32, sky: Ghost<i64>, pinned: Ghost<bool>) -> (r: i64)
    requires
        1 <= ns,
        -(ns as int) * (COORD_MAX as int) <= a <= (ns as int) * (COORD_MAX as int),
        pinned@ ==> a == (ns as int) * (sky@ as int),
        pinned@ ==> crate::fx::in_coord(sky@ as int),
    ensures
        crate::fx::in_coord(r as int),
        pinned@ ==> r == sky@,
{
    proof {
        crate::tparam::lemma_abs_product_bound(ns as int, COORD_MAX as int,
            0x1_0000_0000, COORD_MAX as int);
    }
    let q = crate::fx::div_floor_i128(a, ns as i128);
    proof {
        if pinned@ {
            assert(a == (sky@ as int) * (ns as int)) by (nonlinear_arith)
                requires a == (ns as int) * (sky@ as int),
            ;
            vstd::arithmetic::div_mod::lemma_div_multiples_vanish(sky@ as int, ns as int);
        }
    }
    crate::fx::sat_coord(q)
}

/// The three byte writes of one pixel land exactly on its slots.
proof fn lemma_bytes_after_write(
    before: Seq<u8>, after: Seq<u8>, w: int, h: int, sx: int, sy: int, b0: u8, b1: u8,
    b2: u8,
)
    requires
        before.len() == 3 * w * h,
        0 <= sx < w,
        0 <= sy < h,
        after == before.update(3 * (sy * w + sx), b0).update(3 * (sy * w + sx) + 1,
            b1).update(3 * (sy * w + sx) + 2, b2),
    ensures
        after[3 * (sy * w + sx)] == b0,
        after[3 * (sy * w + sx) + 1] == b1,
        after[3 * (sy * w + sx) + 2] == b2,
{
    assert(0 <= 3 * (sy * w + sx) && 3 * (sy * w + sx) + 2 < 3 * w * h)
        by (nonlinear_arith)
        requires
            0 <= sx < w,
            0 <= sy < h,
    ;
}

/// The three byte writes of one pixel leave every other pixel's bytes
/// unchanged.
proof fn lemma_bytes_frame(
    before: Seq<u8>, after: Seq<u8>, b0: u8, b1: u8, b2: u8, w: int, h: int, sx: int,
    sy: int, px: int, py: int,
)
    requires
        before.len() == 3 * w * h,
        0 <= sx < w,
        0 <= sy < h,
        0 <= px < w,
        0 <= py < h,
        !(px == sx && py == sy),
        after == before.update(3 * (sy * w + sx), b0).update(3 * (sy * w + sx) + 1,
            b1).update(3 * (sy * w + sx) + 2, b2),
    ensures
        after[3 * (py * w + px)] == before[3 * (py * w + px)],
        after[3 * (py * w + px) + 1] == before[3 * (py * w + px) + 1],
        after[3 * (py * w + px) + 2] == before[3 * (py * w + px) + 2],
{
    assert(py * w + px != sy * w + sx) by (nonlinear_arith)
        requires
            0 <= sx < w,
            0 <= px < w,
            0 <= sy,
            0 <= py,
            !(px == sx && py == sy),
    ;
    assert(0 <= 3 * (py * w + px) && 3 * (py * w + px) + 2 < 3 * w * h)
        by (nonlinear_arith)
        requires
            0 <= px < w,
            0 <= py < h,
    ;
    assert(0 <= 3 * (sy * w + sx) && 3 * (sy * w + sx) + 2 < 3 * w * h)
        by (nonlinear_arith)
        requires
            0 <= sx < w,
            0 <= sy < h,
    ;
    let base_s = 3 * (sy * w + sx);
    let base_p = 3 * (py * w + px);
    assert(base_p != base_s && base_p != base_s + 1 && base_p != base_s + 2
        && base_p + 1 != base_s && base_p + 1 != base_s + 1 && base_p + 1 != base_s + 2
        && base_p + 2 != base_s && base_p + 2 != base_s + 1 && base_p + 2 != base_s + 2)
        by (nonlinear_arith)
        requires
            base_s == 3 * (sy * w + sx),
            base_p == 3 * (py * w + px),
            py * w + px != sy * w + sx,
    ;
}

fn pixel_index(x: usize, y: usize, w: usize, h: usize) -> (r: usize)
    requires
        x < w,
        y < h,
        w <= 0x1000,
        h <= 0x1000,
    ensures
        r == 3 * (y * w + x),
        r + 2 < 3 * w * h,
{
    proof {
        crate::tparam::lemma_abs_product_bound(y as int, w as int, 0x1000, 0x1000);
        crate::tparam::lemma_abs_product_bound(w as int, h as int, 0x1000, 0x1000);
        assert(3 * (y as int * w as int + x as int) + 2 < 3 * (w as int) * (h as int))
            by (nonlinear_arith)
            requires
                x < w,
                y < h,
                w >= 1,
        ;
    }
    3 * (y * w + x)
}

} // verus!

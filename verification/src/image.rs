//! Linear-space image accumulators.

use vstd::prelude::*;
use crate::fx::{floor_div, in_coord, sat_c, COORD_MAX};
use crate::vec3::{Color, Vec3};

verus! {

/// A width-by-height grid of linear colors, row-major.
pub struct Image {
    pub width: usize,
    pub height: usize,
    pub buffer: Vec<Color>,
}

impl Image {
    /// The buffer covers the grid and holds coordinates.
    pub open spec fn wf(self) -> bool {
        self.buffer@.len() == self.width * self.height
            && self.width <= 0xFFFF && self.height <= 0xFFFF
            && forall|i: int| 0 <= i < self.buffer@.len() ==> (#[trigger] self.buffer@[i]).wf()
    }

    pub open spec fn pixel(self, x: int, y: int) -> Color {
        self.buffer@[y * self.width + x]
    }

    /// A black image of the given size.
    pub fn new(width: usize, height: usize) -> (r: Image)
        requires
            width <= 0xFFFF,
            height <= 0xFFFF,
        ensures
            r.wf(),
            r.width == width,
            r.height == height,
            forall|i: int| 0 <= i < r.buffer@.len() ==> #[trigger] r.buffer@[i]
                == (Vec3 { x: 0, y: 0, z: 0 }),
    {
        proof {
            crate::tparam::lemma_abs_product_bound(width as int, height as int,
                0xFFFF, 0xFFFF);
        }
        let n = width * height;
        let mut buffer: Vec<Color> = Vec::new();
        let mut i: usize = 0;
        while i < n
            invariant
                buffer@.len() == i,
                i <= n,
                forall|j: int| 0 <= j < i ==> #[trigger] buffer@[j]
                    == (Vec3 { x: 0, y: 0, z: 0 }),
            decreases n - i,
        {
            buffer.push(Vec3 { x: 0, y: 0, z: 0 });
            i = i + 1;
        }
        Image { width, height, buffer }
    }

    /// The color at a pixel.
    pub fn get(&self, x: usize, y: usize) -> (r: Color)
        requires
            self.wf(),
            x < self.width,
            y < self.height,
        ensures
            r == self.pixel(x as int, y as int),
            r.wf(),
    {
        proof {
            lemma_index_in_grid(self.width as int, self.height as int, x as int, y as int);
            crate::tparam::lemma_abs_product_bound(y as int, self.width as int,
                0xFFFF, 0xFFFF);
            crate::tparam::lemma_abs_product_bound(self.width as int, self.height as int,
                0xFFFF, 0xFFFF);
        }
        self.buffer[y * self.width + x]
    }

    /// Replaces the color at a pixel.
    pub fn set(&mut self, x: usize, y: usize, c: Color)
        requires
            old(self).wf(),
            x < old(self).width,
            y < old(self).height,
            c.wf(),
        ensures
            final(self).wf(),
            final(self).width == old(self).width,
            final(self).height == old(self).height,
            final(self).buffer@ == old(self).buffer@.update(
                y * old(self).width + x, c),
    {
        proof {
            lemma_index_in_grid(self.width as int, self.height as int, x as int, y as int);
            crate::tparam::lemma_abs_product_bound(y as int, self.width as int,
                0xFFFF, 0xFFFF);
            crate::tparam::lemma_abs_product_bound(self.width as int, self.height as int,
                0xFFFF, 0xFFFF);
        }
        let idx = y * self.width + x;
        self.buffer.set(idx, c);
    }

    /// Adds another image of the same size, clamping each channel into the
    /// coordinate range.
    pub fn add_assign(&mut self, other: &Image)
        requires
            old(self).wf(),
            other.wf(),
            old(self).width == other.width,
            old(self).height == other.height,
        ensures
            final(self).wf(),
            final(self).width == old(self).width,
            final(self).height == old(self).height,
            final(self).buffer@.len() == old(self).buffer@.len(),
            forall|i: int| 0 <= i < old(self).buffer@.len()
                ==> #[trigger] final(self).buffer@[i]
                    == add_sat(old(self).buffer@[i], other.buffer@[i]),
    {
        let n = self.buffer.len();
        let mut i: usize = 0;
        while i < n
            invariant
                n == self.buffer@.len(),
                n == old(self).buffer@.len(),
                n == other.buffer@.len(),
                self.width == old(self).width,
                self.height == old(self).height,
                i <= n,
                forall|j: int| 0 <= j < n ==> (#[trigger] other.buffer@[j]).wf(),
                forall|j: int| 0 <= j < i ==> #[trigger] self.buffer@[j]
                    == add_sat(old(self).buffer@[j], other.buffer@[j]),
                forall|j: int| i <= j < n ==> #[trigger] self.buffer@[j]
                    == old(self).buffer@[j],
                forall|j: int| 0 <= j < n ==> (#[trigger] self.buffer@[j]).wf(),
            decreases n - i,
        {
            let a = self.buffer[i];
            let b = other.buffer[i];
            let c = Vec3 {
                x: crate::fx::sat_coord((a.x as i128) + (b.x as i128)),
                y: crate::fx::sat_coord((a.y as i128) + (b.y as i128)),
                z: crate::fx::sat_coord((a.z as i128) + (b.z as i128)),
            };
            self.buffer.set(i, c);
            i = i + 1;
        }
    }

    /// Divides every channel by a positive count, rounding toward negative
    /// infinity.
    pub fn div_by(&mut self, n: i64)
        requires
            old(self).wf(),
            n >= 1,
        ensures
            final(self).wf(),
            final(self).width == old(self).width,
            final(self).height == old(self).height,
            final(self).buffer@.len() == old(self).buffer@.len(),
            forall|i: int| 0 <= i < old(self).buffer@.len()
                ==> #[trigger] final(self).buffer@[i]
                    == div_color(old(self).buffer@[i], n as int),
    {
        let len = self.buffer.len();
        let mut i: usize = 0;
        while i < len
            invariant
                len == self.buffer@.len(),
                len == old(self).buffer@.len(),
                self.width == old(self).width,
                self.height == old(self).height,
                i <= len,
                n >= 1,
                forall|j: int| 0 <= j < i ==> #[trigger] self.buffer@[j]
                    == div_color(old(self).buffer@[j], n as int),
                forall|j: int| i <= j < len ==> #[trigger] self.buffer@[j]
                    == old(self).buffer@[j],
                forall|j: int| 0 <= j < len ==> (#[trigger] self.buffer@[j]).wf(),
            decreases len - i,
        {
            let a = self.buffer[i];
            let c = Vec3 {
                x: div_channel(a.x, n),
                y: div_channel(a.y, n),
                z: div_channel(a.z, n),
            };
            self.buffer.set(i, c);
            i = i + 1;
        }
    }
}

/// Saturated componentwise color sum.
pub open spec fn add_sat(a: Color, b: Color) -> Color {
    Vec3 {
        x: sat_c(a.x + b.x) as i64,
        y: sat_c(a.y + b.y) as i64,
        z: sat_c(a.z + b.z) as i64,
    }
}

/// Componentwise floor division of a color by a positive count.
pub open spec fn div_color(a: Color, n: int) -> Color {
    Vec3 {
        x: floor_div(a.x as int, n) as i64,
        y: floor_div(a.y as int, n) as i64,
        z: floor_div(a.z as int, n) as i64,
    }
}

fn div_channel(c: i64, n: i64) -> (r: i64)
    requires
        in_coord(c as int),
        n >= 1,
    ensures
        r == floor_div(c as int, n as int),
        in_coord(r as int),
{
    crate::fx::div_floor_i128(c as i128, n as i128) as i64
}

/// Row-major pixel indices stay within the buffer.
proof fn lemma_index_in_grid(w: int, h: int, x: int, y: int)
    requires
        0 <= x < w,
        0 <= y < h,
    ensures
        0 <= y * w + x < w * h,
{
    assert(y * w + x < w * h) by (nonlinear_arith)
        requires
            0 <= x < w,
            0 <= y < h,
    ;
    assert(y * w >= 0) by (nonlinear_arith)
        requires
            y >= 0,
            w > 0,
    ;
}

} // verus!

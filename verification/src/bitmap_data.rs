//! The pixel buffer backing a bitmap object: premultiplied ARGB pixels with
//! width, height, transparency, a disposed flag, and the CPU/GPU dirty-state
//! machine that decides when pixel data must be exchanged with the renderer.

use vstd::prelude::*;
use crate::bitmap::{Color, spec_alpha, spec_red, spec_green, spec_blue, spec_argb};

verus! {

/// A rectangular region of pixels, `x_min..x_max` by `y_min..y_max`.
#[derive(Debug, Copy, Clone, PartialEq, Eq, Structural)]
pub struct PixelRegion {
    pub x_min: u32,
    pub y_min: u32,
    pub x_max: u32,
    pub y_max: u32,
}

impl PixelRegion {
    /// Whether the two regions overlap in at least one pixel.
    pub open spec fn spec_intersects(self, other: PixelRegion) -> bool {
        self.x_min < other.x_max && other.x_min < self.x_max && self.y_min < other.y_max
            && other.y_min < self.y_max
    }

    pub fn intersects(&self, other: &PixelRegion) -> (r: bool)
        ensures
            r == self.spec_intersects(*other),
    {
        self.x_min < other.x_max && other.x_min < self.x_max && self.y_min < other.y_max
            && other.y_min < self.y_max
    }

    /// The smallest region containing both.
    pub open spec fn spec_union(self, other: PixelRegion) -> PixelRegion {
        PixelRegion {
            x_min: if self.x_min <= other.x_min { self.x_min } else { other.x_min },
            y_min: if self.y_min <= other.y_min { self.y_min } else { other.y_min },
            x_max: if self.x_max >= other.x_max { self.x_max } else { other.x_max },
            y_max: if self.y_max >= other.y_max { self.y_max } else { other.y_max },
        }
    }

    pub fn union(&self, other: &PixelRegion) -> (r: PixelRegion)
        ensures
            r == self.spec_union(*other),
    {
        PixelRegion {
            x_min: if self.x_min <= other.x_min { self.x_min } else { other.x_min },
            y_min: if self.y_min <= other.y_min { self.y_min } else { other.y_min },
            x_max: if self.x_max >= other.x_max { self.x_max } else { other.x_max },
            y_max: if self.y_max >= other.y_max { self.y_max } else { other.y_max },
        }
    }
}

/// Which side of the CPU/GPU pair holds the up-to-date pixels.
#[derive(Debug, Copy, Clone, PartialEq, Eq, Structural)]
pub enum DirtyState {
    /// Both sides agree; nothing needs syncing.
    Clean,
    /// The CPU pixels were modified and the region must be uploaded.
    CpuModified(PixelRegion),
    /// The GPU pixels were modified and the region must be read back
    /// before the CPU pixels may be trusted.
    GpuModified(PixelRegion),
}

/// A bitmap's pixels, stored as premultiplied ARGB color values in
/// row-major order.
pub struct BitmapData {
    pixels: Vec<Color>,
    width: u32,
    height: u32,
    transparency: bool,
    disposed: bool,
    dirty_state: DirtyState,
}

impl BitmapData {
    /// The pixel storage matches the dimensions.
    pub closed spec fn wf(&self) -> bool {
        self.pixels@.len() == self.width * self.height
    }

    pub closed spec fn spec_pixels(&self) -> Seq<Color> {
        self.pixels@
    }

    pub closed spec fn spec_width(&self) -> u32 {
        self.width
    }

    pub closed spec fn spec_height(&self) -> u32 {
        self.height
    }

    pub closed spec fn spec_transparency(&self) -> bool {
        self.transparency
    }

    pub closed spec fn spec_disposed(&self) -> bool {
        self.disposed
    }

    pub closed spec fn spec_dirty_state(&self) -> DirtyState {
        self.dirty_state
    }

    /// The pixel at `(x, y)`, in row-major order.
    pub closed spec fn spec_pixel_at(&self, x: int, y: int) -> Color {
        self.pixels@[y * self.width + x]
    }

    /// A fresh bitmap filled with one color, stored premultiplied.
    pub fn new(width: u32, height: u32, transparency: bool, fill_color: u32) -> (r: Self)
        requires
            width * height <= usize::MAX,
        ensures
            r.wf(),
            r.spec_width() == width,
            r.spec_height() == height,
            r.spec_transparency() == transparency,
            !r.spec_disposed(),
            r.spec_dirty_state() == DirtyState::Clean,
            forall|i: int| 0 <= i < r.spec_pixels().len() ==> r.spec_pixels()[i]
                == Color(fill_color).to_premultiplied_spec(transparency),
    {
        let fill = Color(fill_color).to_premultiplied_alpha(transparency);
        let count: usize = (width as usize) * (height as usize);
        let mut pixels: Vec<Color> = Vec::new();
        let mut i: usize = 0;
        while i < count
            invariant
                i <= count,
                pixels@.len() == i,
                forall|k: int| 0 <= k < i ==> pixels@[k] == fill,
            decreases count - i,
        {
            pixels.push(fill);
            i = i + 1;
        }
        BitmapData { pixels, width, height, transparency, disposed: false,
            dirty_state: DirtyState::Clean }
    }

    /// A bitmap over an existing pixel array.
    pub fn new_with_pixels(width: u32, height: u32, transparency: bool, pixels: Vec<Color>)
        -> (r: Self)
        requires
            pixels@.len() == width * height,
        ensures
            r.wf(),
            r.spec_width() == width,
            r.spec_height() == height,
            r.spec_transparency() == transparency,
            !r.spec_disposed(),
            r.spec_dirty_state() == DirtyState::Clean,
            r.spec_pixels() == pixels@,
    {
        BitmapData { pixels, width, height, transparency, disposed: false,
            dirty_state: DirtyState::Clean }
    }

    pub fn width(&self) -> (r: u32)
        ensures
            r == self.spec_width(),
    {
        self.width
    }

    pub fn height(&self) -> (r: u32)
        ensures
            r == self.spec_height(),
    {
        self.height
    }

    pub fn transparency(&self) -> (r: bool)
        ensures
            r == self.spec_transparency(),
    {
        self.transparency
    }

    pub fn disposed(&self) -> (r: bool)
        ensures
            r == self.spec_disposed(),
    {
        self.disposed
    }

    /// Empties the bitmap. A disposed bitmap has no pixels and renders
    /// nothing; the separate flag distinguishes it from a genuinely
    /// zero-sized bitmap.
    pub fn dispose(&mut self)
        ensures
            final(self).wf(),
            final(self).spec_width() == 0,
            final(self).spec_height() == 0,
            final(self).spec_pixels().len() == 0,
            final(self).spec_disposed(),
            final(self).spec_dirty_state() == DirtyState::Clean,
            final(self).spec_transparency() == old(self).spec_transparency(),
    {
        self.width = 0;
        self.height = 0;
        self.pixels.clear();
        self.dirty_state = DirtyState::Clean;
        self.disposed = true;
    }

    /// Whether `(x, y)` lies inside the bitmap.
    pub closed spec fn spec_in_bounds(&self, x: int, y: int) -> bool {
        0 <= x < self.width && 0 <= y < self.height
    }

    pub fn is_point_in_bounds(&self, x: i32, y: i32) -> (r: bool)
        ensures
            r == self.spec_in_bounds(x as int, y as int),
    {
        x >= 0 && (x as u32) < self.width && y >= 0 && (y as u32) < self.height
    }

    /// Reads the raw (premultiplied) pixel at `(x, y)`.
    pub fn get_pixel32_raw(&self, x: u32, y: u32) -> (r: Color)
        requires
            self.wf(),
            self.spec_in_bounds(x as int, y as int),
        ensures
            r == self.spec_pixel_at(x as int, y as int),
    {
        let len = self.pixels.len();
        proof {
            lemma_row_major_index(self.spec_width() as int, self.spec_height() as int,
                x as int, y as int);
        }
        let idx: usize = (x as usize) + (y as usize) * (self.width as usize);
        self.pixels[idx]
    }

    /// Overwrites the raw (premultiplied) pixel at `(x, y)`.
    pub fn set_pixel32_raw(&mut self, x: u32, y: u32, color: Color)
        requires
            old(self).wf(),
            old(self).spec_in_bounds(x as int, y as int),
        ensures
            final(self).wf(),
            final(self).spec_pixels() == old(self).spec_pixels()
                .update(y * old(self).spec_width() + x, color),
            final(self).spec_width() == old(self).spec_width(),
            final(self).spec_height() == old(self).spec_height(),
            final(self).spec_transparency() == old(self).spec_transparency(),
            final(self).spec_disposed() == old(self).spec_disposed(),
            final(self).spec_dirty_state() == old(self).spec_dirty_state(),
    {
        let len = self.pixels.len();
        proof {
            lemma_row_major_index(self.spec_width() as int, self.spec_height() as int,
                x as int, y as int);
        }
        let idx: usize = (x as usize) + (y as usize) * (self.width as usize);
        self.pixels.set(idx, color);
    }

    /// The value the pixel-reading method reports for `(x, y)`: the
    /// unmultiplied color with a zeroed alpha channel, or 0 outside the
    /// bitmap.
    pub open spec fn spec_get_pixel(&self, x: int, y: int) -> u32 {
        if self.spec_in_bounds(x, y) {
            let c = self.spec_pixel_at(x, y).to_unmultiplied_spec();
            spec_argb(0, spec_red(c.0) as u8, spec_green(c.0) as u8, spec_blue(c.0) as u8)
        } else {
            0
        }
    }

    /// The unmultiplied color of the pixel at `(x, y)` with a zeroed alpha
    /// channel, or 0 outside the bitmap.
    pub fn get_pixel(&self, x: i32, y: i32) -> (r: u32)
        requires
            self.wf(),
        ensures
            r == self.spec_get_pixel(x as int, y as int),
    {
        if self.is_point_in_bounds(x, y) {
            let c = self.get_pixel32_raw(x as u32, y as u32).to_un_multiplied_alpha()
                .with_alpha(0);
            c.0
        } else {
            0
        }
    }

    /// The pixels flattened to RGBA bytes.
    pub fn pixels_rgba(&self) -> (r: Vec<u8>)
        ensures
            r@.len() == 4 * self.spec_pixels().len(),
            forall|i: int| 0 <= i < self.spec_pixels().len() ==> {
                let c = (#[trigger] self.spec_pixels()[i]).0;
                &&& r@[4 * i] == spec_red(c)
                &&& r@[4 * i + 1] == spec_green(c)
                &&& r@[4 * i + 2] == spec_blue(c)
                &&& r@[4 * i + 3] == spec_alpha(c)
            },
    {
        let mut out: Vec<u8> = Vec::new();
        let n = self.pixels.len();
        let mut i: usize = 0;
        while i < n
            invariant
                i <= n,
                n == self.spec_pixels().len(),
                out@.len() == 4 * i,
                forall|k: int| 0 <= k < i ==> {
                    let c = (#[trigger] self.spec_pixels()[k]).0;
                    &&& out@[4 * k] == spec_red(c)
                    &&& out@[4 * k + 1] == spec_green(c)
                    &&& out@[4 * k + 2] == spec_blue(c)
                    &&& out@[4 * k + 3] == spec_alpha(c)
                },
            decreases n - i,
        {
            let p = &self.pixels[i];
            out.push(p.red());
            out.push(p.green());
            out.push(p.blue());
            out.push(p.alpha());
            i = i + 1;
        }
        out
    }

    /// Records that a region of CPU pixels was modified, widening any
    /// region already recorded. Must not be called while a GPU read-back
    /// is pending.
    pub fn set_cpu_dirty(&mut self, region: PixelRegion)
        requires
            !(old(self).spec_dirty_state() is GpuModified),
            region.x_max <= old(self).spec_width(),
            region.y_max <= old(self).spec_height(),
        ensures
            final(self).spec_dirty_state() == match old(self).spec_dirty_state() {
                DirtyState::CpuModified(r) => DirtyState::CpuModified(r.spec_union(region)),
                _ => DirtyState::CpuModified(region),
            },
            final(self).spec_pixels() == old(self).spec_pixels(),
            final(self).spec_width() == old(self).spec_width(),
            final(self).spec_height() == old(self).spec_height(),
            final(self).spec_transparency() == old(self).spec_transparency(),
            final(self).spec_disposed() == old(self).spec_disposed(),
    {
        match &self.dirty_state {
            DirtyState::CpuModified(old_region) => {
                let u = old_region.union(&region);
                self.dirty_state = DirtyState::CpuModified(u);
            },
            _ => {
                self.dirty_state = DirtyState::CpuModified(region);
            },
        }
    }

    /// Records that the GPU pixels were modified and a read-back of the
    /// region is pending.
    pub fn set_gpu_dirty(&mut self, region: PixelRegion)
        ensures
            final(self).spec_dirty_state() == DirtyState::GpuModified(region),
            final(self).spec_pixels() == old(self).spec_pixels(),
            final(self).spec_width() == old(self).spec_width(),
            final(self).spec_height() == old(self).spec_height(),
            final(self).spec_transparency() == old(self).spec_transparency(),
            final(self).spec_disposed() == old(self).spec_disposed(),
    {
        self.dirty_state = DirtyState::GpuModified(region);
    }

    /// Whether the region can be read without waiting for a GPU read-back.
    pub fn can_read(&self, read_area: PixelRegion) -> (r: bool)
        ensures
            r == match self.spec_dirty_state() {
                DirtyState::GpuModified(area) => !area.spec_intersects(read_area),
                _ => true,
            },
    {
        match &self.dirty_state {
            DirtyState::GpuModified(area) => !area.intersects(&read_area),
            _ => true,
        }
    }

    /// Takes the pending CPU-modified region, leaving the state clean; the
    /// caller must upload that region to the renderer. Nothing to do when
    /// no CPU modification is pending.
    pub fn update_dirty_texture(&mut self) -> (r: Option<PixelRegion>)
        ensures
            final(self).spec_pixels() == old(self).spec_pixels(),
            final(self).spec_width() == old(self).spec_width(),
            final(self).spec_height() == old(self).spec_height(),
            final(self).spec_transparency() == old(self).spec_transparency(),
            final(self).spec_disposed() == old(self).spec_disposed(),
            match old(self).spec_dirty_state() {
                DirtyState::CpuModified(region) => r == Some(region)
                    && final(self).spec_dirty_state() == DirtyState::Clean,
                _ => r is None
                    && final(self).spec_dirty_state() == old(self).spec_dirty_state(),
            },
    {
        match &self.dirty_state {
            DirtyState::CpuModified(region) => {
                let r = *region;
                self.dirty_state = DirtyState::Clean;
                Some(r)
            },
            _ => None,
        }
    }

    /// Cancels a pending GPU read-back, handing its region back to the
    /// caller who is about to overwrite the CPU pixels entirely.
    pub fn overwrite_cpu_pixels_from_gpu(&mut self) -> (r: Option<PixelRegion>)
        ensures
            final(self).spec_pixels() == old(self).spec_pixels(),
            final(self).spec_width() == old(self).spec_width(),
            final(self).spec_height() == old(self).spec_height(),
            final(self).spec_transparency() == old(self).spec_transparency(),
            final(self).spec_disposed() == old(self).spec_disposed(),
            match old(self).spec_dirty_state() {
                DirtyState::GpuModified(region) => r == Some(region)
                    && final(self).spec_dirty_state() == DirtyState::Clean,
                _ => r is None
                    && final(self).spec_dirty_state() == old(self).spec_dirty_state(),
            },
    {
        match &self.dirty_state {
            DirtyState::GpuModified(region) => {
                let r = *region;
                self.dirty_state = DirtyState::Clean;
                Some(r)
            },
            _ => None,
        }
    }
}

impl BitmapData {
    /// The smaller of two 64-bit values, clipped into `u32`.
    fn clip_u32(v: u64, bound: u32) -> (r: u32)
        ensures
            r == if v < bound { v as u32 } else { bound as u32 },
    {
        if v < bound as u64 {
            v as u32
        } else {
            bound
        }
    }

    /// Fills the rectangle `x..x+w` by `y..y+h`, clipped to the bitmap,
    /// with `color` in premultiplied form, and records the filled region
    /// as CPU-dirty.
    pub fn fill_rect(&mut self, x: u32, y: u32, w: u32, h: u32, color: u32)
        requires
            old(self).wf(),
            !(old(self).spec_dirty_state() is GpuModified),
        ensures
            final(self).wf(),
            spec_fill_rect_post(*old(self), *final(self), x, y, w, h, color),
    {
        let width = self.width();
        let height = self.height();
        let fill = Color(color).to_premultiplied_alpha(self.transparency());
        let x0 = Self::clip_u32(x as u64, width);
        let y0 = Self::clip_u32(y as u64, height);
        let x1 = Self::clip_u32(x as u64 + w as u64, width);
        let y1 = Self::clip_u32(y as u64 + h as u64, height);
        let mut j = y0;
        while j < y1
            invariant
                self.wf(),
                x0 <= x1 <= width,
                y0 <= j <= y1 <= height,
                width == self.spec_width() == old(self).spec_width(),
                height == self.spec_height() == old(self).spec_height(),
                self.spec_transparency() == old(self).spec_transparency(),
                self.spec_disposed() == old(self).spec_disposed(),
                self.spec_dirty_state() == old(self).spec_dirty_state(),
                fill == Color(color).to_premultiplied_spec(old(self).spec_transparency()),
                forall|a: int, b: int| 0 <= a < width && 0 <= b < height ==>
                    #[trigger] self.spec_pixel_at(a, b) == (
                        if x0 <= a < x1 && y0 <= b < j {
                            fill
                        } else {
                            old(self).spec_pixel_at(a, b)
                        }),
            decreases y1 - j,
        {
            let mut i = x0;
            while i < x1
                invariant
                    self.wf(),
                    x0 <= i <= x1 <= width,
                    y0 <= j < y1 <= height,
                    width == self.spec_width() == old(self).spec_width(),
                    height == self.spec_height() == old(self).spec_height(),
                    self.spec_transparency() == old(self).spec_transparency(),
                    self.spec_disposed() == old(self).spec_disposed(),
                    self.spec_dirty_state() == old(self).spec_dirty_state(),
                    forall|a: int, b: int| 0 <= a < width && 0 <= b < height ==>
                        #[trigger] self.spec_pixel_at(a, b) == (
                            if (x0 <= a < x1 && y0 <= b < j) || (b == j && x0 <= a < i) {
                                fill
                            } else {
                                old(self).spec_pixel_at(a, b)
                            }),
                decreases x1 - i,
            {
                let ghost prev = *self;
                self.set_pixel32_raw(i, j, fill);
                proof {
                    assert forall|a: int, b: int| 0 <= a < width && 0 <= b < height implies
                        #[trigger] self.spec_pixel_at(a, b) == (
                            if (x0 <= a < x1 && y0 <= b < j) || (b == j && x0 <= a < i + 1) {
                                fill
                            } else {
                                old(self).spec_pixel_at(a, b)
                            }) by {
                        lemma_row_major_index(width as int, height as int, a, b);
                        lemma_row_major_index(width as int, height as int, i as int, j as int);
                        if a == i && b == j {
                            assert(self.spec_pixel_at(a, b) == fill);
                        } else {
                            lemma_row_major_distinct(width as int, a, b, i as int, j as int);
                            assert(self.spec_pixel_at(a, b) == prev.spec_pixel_at(a, b));
                        }
                    }
                }
                i = i + 1;
            }
            j = j + 1;
        }
        let ghost before_dirty = *self;
        self.set_cpu_dirty(PixelRegion { x_min: x0, y_min: y0, x_max: x1, y_max: y1 });
        proof {
            assert forall|a: int, b: int| 0 <= a < width && 0 <= b < height implies
                #[trigger] self.spec_pixel_at(a, b) == (
                    if x0 <= a < x1 && y0 <= b < y1 {
                        Color(color).to_premultiplied_spec(old(self).spec_transparency())
                    } else {
                        old(self).spec_pixel_at(a, b)
                    }) by {
                assert(self.spec_pixel_at(a, b) == before_dirty.spec_pixel_at(a, b));
            }
        }
    }
}

/// A source pixel as it lands in the destination during a pixel copy:
/// its alpha is capped by the alpha-source pixel, it is blended over the
/// old destination pixel when merging, and the result is forced opaque
/// when the destination has no alpha channel.
pub open spec fn spec_merge_pixel(dst_old: Color, src: Color, alpha_cap: u32, merge: bool,
    dest_transparency: bool) -> Color {
    let capped = if spec_alpha(src.0) <= alpha_cap {
        src
    } else {
        Color(spec_argb(alpha_cap as u8, spec_red(src.0) as u8, spec_green(src.0) as u8,
            spec_blue(src.0) as u8))
    };
    let blended = if merge {
        dst_old.blend_over_spec(capped)
    } else {
        capped
    };
    if dest_transparency {
        blended
    } else {
        Color(spec_argb(255, spec_red(blended.0) as u8, spec_green(blended.0) as u8,
            spec_blue(blended.0) as u8))
    }
}

fn merge_pixel(dst_old: Color, src: Color, alpha_cap: u32, merge: bool,
    dest_transparency: bool) -> (r: Color)
    requires
        alpha_cap <= 255,
    ensures
        r == spec_merge_pixel(dst_old, src, alpha_cap, merge, dest_transparency),
{
    let capped = if src.alpha() as u32 <= alpha_cap {
        src
    } else {
        let red = src.red();
        let green = src.green();
        let blue = src.blue();
        Color::argb(alpha_cap as u8, red, green, blue)
    };
    let blended = if merge {
        dst_old.blend_over(&capped)
    } else {
        capped
    };
    if dest_transparency {
        blended
    } else {
        let red = blended.red();
        let green = blended.green();
        let blue = blended.blue();
        Color::argb(255, red, green, blue)
    }
}

/// What filling a rectangle does: the bitmap keeps its shape and flags,
/// every pixel of the rectangle — clipped to the bounds — holds the fill
/// color in premultiplied form, every other pixel is untouched, and the
/// clipped region is recorded as CPU-dirty.
pub open spec fn spec_fill_rect_post(pre: BitmapData, post: BitmapData, x: u32, y: u32,
    w: u32, h: u32, color: u32) -> bool {
    let width = pre.spec_width() as int;
    let height = pre.spec_height() as int;
    let x0 = if x <= width { x as int } else { width };
    let y0 = if y <= height { y as int } else { height };
    let x1 = if x + w <= width { x + w } else { width };
    let y1 = if y + h <= height { y + h } else { height };
    let fill = Color(color).to_premultiplied_spec(pre.spec_transparency());
    &&& post.spec_width() == pre.spec_width()
    &&& post.spec_height() == pre.spec_height()
    &&& post.spec_transparency() == pre.spec_transparency()
    &&& post.spec_disposed() == pre.spec_disposed()
    &&& forall|a: int, b: int| 0 <= a < width && 0 <= b < height ==>
        #[trigger] post.spec_pixel_at(a, b) == (
            if x0 <= a < x1 && y0 <= b < y1 {
                fill
            } else {
                pre.spec_pixel_at(a, b)
            })
    &&& post.spec_dirty_state() == (match pre.spec_dirty_state() {
        DirtyState::CpuModified(r) => DirtyState::CpuModified(r.spec_union(
            PixelRegion { x_min: x0 as u32, y_min: y0 as u32,
                x_max: x1 as u32, y_max: y1 as u32 })),
        _ => DirtyState::CpuModified(PixelRegion { x_min: x0 as u32,
            y_min: y0 as u32, x_max: x1 as u32, y_max: y1 as u32 }),
    })
}

/// Clamps `v` into `0..=hi`.
pub open spec fn spec_clamp(v: int, hi: int) -> int {
    if v < 0 {
        0
    } else if v > hi {
        hi
    } else {
        v
    }
}

/// What a pixel copy does: the destination keeps its shape and flags,
/// every destination pixel the clipped copy lands on holds the composed
/// source pixel, every other pixel is untouched, and a CPU-dirty region
/// is recorded.
pub open spec fn spec_copy_pixels_post(pre: BitmapData, source: BitmapData,
    post: BitmapData, src_x: i32, src_y: i32, src_w: i32, src_h: i32, dest_x: i32,
    dest_y: i32, alpha_source: Option<&BitmapData>, alpha_x: i32, alpha_y: i32,
    merge_alpha: bool) -> bool {
    &&& post.spec_width() == pre.spec_width()
    &&& post.spec_height() == pre.spec_height()
    &&& post.spec_transparency() == pre.spec_transparency()
    &&& post.spec_disposed() == pre.spec_disposed()
    &&& post.spec_dirty_state() is CpuModified
    &&& forall|a: int, b: int|
        0 <= a < pre.spec_width() && 0 <= b < pre.spec_height() ==>
        #[trigger] post.spec_pixel_at(a, b) == (
            if pre.spec_copy_hits(&source, src_x as int, src_y as int,
                src_w as int, src_h as int, dest_x as int, dest_y as int, a, b) {
                spec_merge_pixel(pre.spec_pixel_at(a, b),
                    source.spec_pixel_at(src_x + (a - dest_x), src_y + (b - dest_y)),
                    BitmapData::spec_alpha_cap(alpha_source, alpha_x as int, alpha_y as int,
                        a - dest_x, b - dest_y),
                    merge_alpha, pre.spec_transparency())
            } else {
                pre.spec_pixel_at(a, b)
            })
}

impl BitmapData {
    /// Whether the pixel copy with the given source rectangle and
    /// destination point writes the destination pixel `(a, b)`.
    pub open spec fn spec_copy_hits(&self, source: &BitmapData, src_x: int, src_y: int,
        src_w: int, src_h: int, dest_x: int, dest_y: int, a: int, b: int) -> bool {
        let dx = a - dest_x;
        let dy = b - dest_y;
        0 <= dx < src_w && 0 <= dy < src_h
            && source.spec_in_bounds(src_x + dx, src_y + dy)
    }

    /// The alpha cap contributed by the alpha source at copy offset
    /// `(dx, dy)`: the alpha-source pixel's alpha channel inside its
    /// bounds, no cap outside.
    pub open spec fn spec_alpha_cap(alpha_source: Option<&BitmapData>, alpha_x: int,
        alpha_y: int, dx: int, dy: int) -> u32 {
        match alpha_source {
            Some(al) => if al.spec_in_bounds(alpha_x + dx, alpha_y + dy) {
                spec_alpha(al.spec_pixel_at(alpha_x + dx, alpha_y + dy).0)
            } else {
                255
            },
            None => 255,
        }
    }

    /// Copies the source rectangle `src_x..src_x+src_w` by
    /// `src_y..src_y+src_h` of `source` to the destination point
    /// `(dest_x, dest_y)`, clipping both against the bitmaps' bounds.
    /// Each landed pixel is composed by `spec_merge_pixel` with the alpha
    /// cap of the alpha source, and the written region is recorded as
    /// CPU-dirty. A bitmap is copied onto itself by cloning it first, as
    /// the callers of the legacy player's method did.
    #[verifier::rlimit(60)]
    pub fn copy_pixels(&mut self, source: &BitmapData, src_x: i32, src_y: i32, src_w: i32,
        src_h: i32, dest_x: i32, dest_y: i32, alpha_source: Option<&BitmapData>,
        alpha_x: i32, alpha_y: i32, merge_alpha: bool)
        requires
            old(self).wf(),
            source.wf(),
            match alpha_source {
                Some(al) => al.wf(),
                None => true,
            },
            !(old(self).spec_dirty_state() is GpuModified),
        ensures
            final(self).wf(),
            spec_copy_pixels_post(*old(self), *source, *final(self), src_x, src_y, src_w,
                src_h, dest_x, dest_y, alpha_source, alpha_x, alpha_y, merge_alpha),
    {
        let width = self.width();
        let height = self.height();
        let transp = self.transparency();
        let mut dy: i32 = 0;
        while dy < src_h
            invariant
                src_h > 0 ==> 0 <= dy <= src_h,
                src_h <= 0 ==> dy == 0,
                self.wf(),
                source.wf(),
                match alpha_source {
                    Some(al) => al.wf(),
                    None => true,
                },
                width == self.spec_width() == old(self).spec_width(),
                height == self.spec_height() == old(self).spec_height(),
                transp == self.spec_transparency(),
                    self.spec_transparency() == old(self).spec_transparency(),
                self.spec_disposed() == old(self).spec_disposed(),
                self.spec_dirty_state() == old(self).spec_dirty_state(),
                forall|a: int, b: int| 0 <= a < width && 0 <= b < height ==>
                    #[trigger] self.spec_pixel_at(a, b) == (
                        if old(self).spec_copy_hits(source, src_x as int, src_y as int,
                            src_w as int, src_h as int, dest_x as int, dest_y as int, a, b)
                            && b - dest_y < dy {
                            spec_merge_pixel(old(self).spec_pixel_at(a, b),
                                source.spec_pixel_at(src_x + (a - dest_x),
                                    src_y + (b - dest_y)),
                                Self::spec_alpha_cap(alpha_source, alpha_x as int,
                                    alpha_y as int, a - dest_x, b - dest_y),
                                merge_alpha, old(self).spec_transparency())
                        } else {
                            old(self).spec_pixel_at(a, b)
                        }),
            decreases src_h - dy,
        {
            let mut dx: i32 = 0;
            while dx < src_w
                invariant
                    src_w > 0 ==> 0 <= dx <= src_w,
                    src_w <= 0 ==> dx == 0,
                    0 <= dy < src_h,
                    self.wf(),
                    source.wf(),
                    match alpha_source {
                        Some(al) => al.wf(),
                        None => true,
                    },
                    width == self.spec_width() == old(self).spec_width(),
                    height == self.spec_height() == old(self).spec_height(),
                    transp == self.spec_transparency(),
                    self.spec_transparency() == old(self).spec_transparency(),
                    self.spec_disposed() == old(self).spec_disposed(),
                    self.spec_dirty_state() == old(self).spec_dirty_state(),
                    forall|a: int, b: int| 0 <= a < width && 0 <= b < height ==>
                        #[trigger] self.spec_pixel_at(a, b) == (
                            if old(self).spec_copy_hits(source, src_x as int, src_y as int,
                                src_w as int, src_h as int, dest_x as int, dest_y as int,
                                a, b)
                                && (b - dest_y < dy || (b - dest_y == dy && a - dest_x < dx)) {
                                spec_merge_pixel(old(self).spec_pixel_at(a, b),
                                    source.spec_pixel_at(src_x + (a - dest_x),
                                        src_y + (b - dest_y)),
                                    Self::spec_alpha_cap(alpha_source, alpha_x as int,
                                        alpha_y as int, a - dest_x, b - dest_y),
                                    merge_alpha, old(self).spec_transparency())
                            } else {
                                old(self).spec_pixel_at(a, b)
                            }),
                decreases src_w - dx,
            {
                let sx = src_x as i64 + dx as i64;
                let sy = src_y as i64 + dy as i64;
                let a = dest_x as i64 + dx as i64;
                let b = dest_y as i64 + dy as i64;
                let src_ok = 0 <= sx && sx < source.width() as i64 && 0 <= sy
                    && sy < source.height() as i64;
                let dst_ok = 0 <= a && a < width as i64 && 0 <= b && b < height as i64;
                if src_ok && dst_ok {
                    let sp = source.get_pixel32_raw(sx as u32, sy as u32);
                    let cap: u32 = match alpha_source {
                        Some(al) => {
                            let ax = alpha_x as i64 + dx as i64;
                            let ay = alpha_y as i64 + dy as i64;
                            if 0 <= ax && ax < al.width() as i64 && 0 <= ay
                                && ay < al.height() as i64 {
                                al.get_pixel32_raw(ax as u32, ay as u32).alpha() as u32
                            } else {
                                255
                            }
                        },
                        None => 255,
                    };
                    let dst_old_px = self.get_pixel32_raw(a as u32, b as u32);
                    let newp = merge_pixel(dst_old_px, sp, cap, merge_alpha, transp);
                    let ghost prev = *self;
                    self.set_pixel32_raw(a as u32, b as u32, newp);
                    proof {
                        assert forall|i: int, j: int| 0 <= i < width && 0 <= j < height
                            implies #[trigger] self.spec_pixel_at(i, j) == (
                                if old(self).spec_copy_hits(source, src_x as int,
                                    src_y as int, src_w as int, src_h as int, dest_x as int,
                                    dest_y as int, i, j)
                                    && (j - dest_y < dy
                                        || (j - dest_y == dy && i - dest_x < dx + 1)) {
                                    spec_merge_pixel(old(self).spec_pixel_at(i, j),
                                        source.spec_pixel_at(src_x + (i - dest_x),
                                            src_y + (j - dest_y)),
                                        Self::spec_alpha_cap(alpha_source, alpha_x as int,
                                            alpha_y as int, i - dest_x, j - dest_y),
                                        merge_alpha, old(self).spec_transparency())
                                } else {
                                    old(self).spec_pixel_at(i, j)
                                }) by {
                            lemma_row_major_index(width as int, height as int, i, j);
                            lemma_row_major_index(width as int, height as int,
                                a as int, b as int);
                            if i == a as int && j == b as int {
                                assert(self.spec_pixel_at(i, j) == newp);
                            } else {
                                lemma_row_major_distinct(width as int, i, j,
                                    a as int, b as int);
                                assert(self.spec_pixel_at(i, j) == prev.spec_pixel_at(i, j));
                            }
                        }
                    }
                } else {
                    proof {
                        assert forall|i: int, j: int| 0 <= i < width && 0 <= j < height
                            implies !(old(self).spec_copy_hits(source, src_x as int,
                                src_y as int, src_w as int, src_h as int, dest_x as int,
                                dest_y as int, i, j)
                                && j - dest_y == dy && i - dest_x == dx) by {
                        }
                    }
                }
                dx = dx + 1;
            }
            dy = dy + 1;
        }
        let x_min = Self::clamp_i64(dest_x as i64, width);
        let y_min = Self::clamp_i64(dest_y as i64, height);
        let x_max = Self::clamp_i64(dest_x as i64 + src_w as i64, width);
        let y_max = Self::clamp_i64(dest_y as i64 + src_h as i64, height);
        let x_max = if x_max >= x_min { x_max } else { x_min };
        let y_max = if y_max >= y_min { y_max } else { y_min };
        let ghost before_dirty = *self;
        self.set_cpu_dirty(PixelRegion { x_min, y_min, x_max, y_max });
        proof {
            assert forall|a: int, b: int| 0 <= a < width && 0 <= b < height implies
                #[trigger] self.spec_pixel_at(a, b) == before_dirty.spec_pixel_at(a, b) by {
            }
        }
    }

    /// Clamps a signed value into `0..=hi`.
    fn clamp_i64(v: i64, hi: u32) -> (r: u32)
        ensures
            r == spec_clamp(v as int, hi as int),
    {
        if v < 0 {
            0
        } else if v > hi as i64 {
            hi
        } else {
            v as u32
        }
    }
}

/// Writes an RGBA byte buffer read back from the renderer into the given
/// region of the bitmap, converting each pixel to the ARGB color form; the
/// alpha byte is honored only where the bitmap is transparent. The region
/// is recorded as CPU-dirty. This is the computing half of a GPU-to-CPU
/// sync; the renderer hands the caller the buffer.
pub fn copy_pixels_to_bitmapdata(write: &mut BitmapData, buffer: &Vec<u8>, buffer_width: u32,
    area: PixelRegion)
    requires
        old(write).wf(),
        !(old(write).spec_dirty_state() is GpuModified),
        area.x_min <= area.x_max,
        area.y_min <= area.y_max,
        area.x_max <= old(write).spec_width(),
        area.y_max <= old(write).spec_height(),
        area.x_max - area.x_min <= buffer_width / 4,
        (area.y_max - area.y_min) * (buffer_width / 4) * 4 <= buffer@.len(),
    ensures
        final(write).wf(),
        final(write).spec_width() == old(write).spec_width(),
        final(write).spec_height() == old(write).spec_height(),
        final(write).spec_transparency() == old(write).spec_transparency(),
        final(write).spec_disposed() == old(write).spec_disposed(),
        final(write).spec_dirty_state() == (match old(write).spec_dirty_state() {
            DirtyState::CpuModified(r) => DirtyState::CpuModified(r.spec_union(area)),
            _ => DirtyState::CpuModified(area),
        }),
        forall|a: int, b: int|
            0 <= a < old(write).spec_width() && 0 <= b < old(write).spec_height() ==>
            #[trigger] final(write).spec_pixel_at(a, b) == (
                if area.x_min <= a < area.x_max && area.y_min <= b < area.y_max {
                    spec_buffer_pixel(buffer@, buffer_width as int / 4, area, a, b,
                        old(write).spec_transparency())
                } else {
                    old(write).spec_pixel_at(a, b)
                }),
{
    let buffer_width_pixels = buffer_width / 4;
    let width = write.width();
    let height = write.height();
    let transp = write.transparency();
    let mut y = area.y_min;
    while y < area.y_max
        invariant
            area.y_min <= y <= area.y_max,
            write.wf(),
            area.x_min <= area.x_max <= width,
            area.y_max <= height,
            area.x_max - area.x_min <= buffer_width_pixels,
            buffer_width_pixels == buffer_width / 4,
            (area.y_max - area.y_min) * buffer_width_pixels * 4 <= buffer@.len(),
            width == write.spec_width() == old(write).spec_width(),
            height == write.spec_height() == old(write).spec_height(),
            transp == write.spec_transparency(),
            write.spec_transparency() == old(write).spec_transparency(),
            write.spec_disposed() == old(write).spec_disposed(),
            write.spec_dirty_state() == old(write).spec_dirty_state(),
            forall|a: int, b: int| 0 <= a < width && 0 <= b < height ==>
                #[trigger] write.spec_pixel_at(a, b) == (
                    if area.x_min <= a < area.x_max && area.y_min <= b < y {
                        spec_buffer_pixel(buffer@, buffer_width_pixels as int, area, a, b,
                            old(write).spec_transparency())
                    } else {
                        old(write).spec_pixel_at(a, b)
                    }),
        decreases area.y_max - y,
    {
        let mut x = area.x_min;
        while x < area.x_max
            invariant
                area.x_min <= x <= area.x_max,
                area.y_min <= y < area.y_max,
                write.wf(),
                area.x_max <= width,
                area.y_max <= height,
                area.x_max - area.x_min <= buffer_width_pixels,
                buffer_width_pixels == buffer_width / 4,
                (area.y_max - area.y_min) * buffer_width_pixels * 4 <= buffer@.len(),
                width == write.spec_width() == old(write).spec_width(),
                height == write.spec_height() == old(write).spec_height(),
                transp == write.spec_transparency(),
                write.spec_transparency() == old(write).spec_transparency(),
                write.spec_disposed() == old(write).spec_disposed(),
                write.spec_dirty_state() == old(write).spec_dirty_state(),
                forall|a: int, b: int| 0 <= a < width && 0 <= b < height ==>
                    #[trigger] write.spec_pixel_at(a, b) == (
                        if (area.x_min <= a < area.x_max && area.y_min <= b < y)
                            || (b == y && area.x_min <= a < x) {
                            spec_buffer_pixel(buffer@, buffer_width_pixels as int, area, a, b,
                                old(write).spec_transparency())
                        } else {
                            old(write).spec_pixel_at(a, b)
                        }),
            decreases area.x_max - x,
        {
            let blen = buffer.len();
            proof {
                lemma_buffer_index(buffer@.len() as int, buffer_width_pixels as int,
                    area, x as int, y as int);
            }
            let ind: usize = ((((x - area.x_min) as u64)
                + ((y - area.y_min) as u64) * (buffer_width_pixels as u64)) * 4) as usize;
            let r = buffer[ind];
            let g = buffer[ind + 1];
            let b = buffer[ind + 2];
            let a = if transp {
                buffer[ind + 3]
            } else {
                255
            };
            let nc = Color::argb(a, r, g, b);
            let ghost prev = *write;
            write.set_pixel32_raw(x, y, nc);
            proof {
                assert forall|i: int, j: int| 0 <= i < width && 0 <= j < height implies
                    #[trigger] write.spec_pixel_at(i, j) == (
                        if (area.x_min <= i < area.x_max && area.y_min <= j < y)
                            || (j == y && area.x_min <= i < x + 1) {
                            spec_buffer_pixel(buffer@, buffer_width_pixels as int, area, i, j,
                                old(write).spec_transparency())
                        } else {
                            old(write).spec_pixel_at(i, j)
                        }) by {
                    lemma_row_major_index(width as int, height as int, i, j);
                    lemma_row_major_index(width as int, height as int, x as int, y as int);
                    if i == x as int && j == y as int {
                        assert(write.spec_pixel_at(i, j) == nc);
                    } else {
                        lemma_row_major_distinct(width as int, i, j, x as int, y as int);
                        assert(write.spec_pixel_at(i, j) == prev.spec_pixel_at(i, j));
                    }
                }
            }
            x = x + 1;
        }
        y = y + 1;
    }
    let ghost before_dirty = *write;
    write.set_cpu_dirty(area);
    proof {
        assert forall|a: int, b: int| 0 <= a < width && 0 <= b < height implies
            #[trigger] write.spec_pixel_at(a, b) == before_dirty.spec_pixel_at(a, b) by {
        }
    }
}

/// The color a read-back buffer holds for the bitmap pixel `(a, b)` of a
/// region: four bytes per pixel in RGBA order, rows of `bw` pixels.
pub open spec fn spec_buffer_pixel(buffer: Seq<u8>, bw: int, area: PixelRegion, a: int, b: int,
    transparency: bool) -> Color {
    let ind = ((a - area.x_min) + (b - area.y_min) * bw) * 4;
    let alpha: u8 = if transparency { buffer[ind + 3] } else { 255 };
    Color(spec_argb(alpha, buffer[ind], buffer[ind + 1], buffer[ind + 2]))
}

/// The buffer index of a pixel inside the region is within the buffer.
proof fn lemma_buffer_index(len: int, bw: int, area: PixelRegion, x: int, y: int)
    requires
        area.x_min <= x < area.x_max,
        area.y_min <= y < area.y_max,
        area.x_max - area.x_min <= bw,
        (area.y_max - area.y_min) * bw * 4 <= len,
    ensures
        0 <= ((x - area.x_min) + (y - area.y_min) * bw) * 4,
        ((x - area.x_min) + (y - area.y_min) * bw) * 4 + 3 < len,
{
    let dx = x - area.x_min;
    let dy = y - area.y_min;
    let rows = area.y_max - area.y_min;
    assert(((dx + dy * bw) * 4 + 3) < rows * bw * 4) by (nonlinear_arith)
        requires
            0 <= dx,
            dx < bw,
            0 <= dy,
            dy < rows,
    ;
    assert(0 <= (dx + dy * bw) * 4) by (nonlinear_arith)
        requires
            0 <= dx,
            0 <= dy,
            0 < bw,
    ;
}

/// The comparison a `threshold` pixel test applies between a masked pixel
/// value and the masked threshold.
#[derive(Copy, Clone, Debug, PartialEq, Eq, Structural)]
pub enum ThresholdOperation {
    Equals,
    NotEquals,
    LessThan,
    LessThanOrEquals,
    GreaterThan,
    GreaterThanOrEquals,
}

impl ThresholdOperation {
    /// Parses the operator string of the threshold method; `None` for
    /// anything that is not one of the six comparison operators.
    pub fn from_wstr(s: &[u8]) -> (r: Option<Self>)
        ensures
            r == Self::spec_from_str(s@),
    {
        proof {
            if s@.len() == 2 {
                assert(s@ =~= seq![s@[0], s@[1]]);
            }
            if s@.len() == 1 {
                assert(s@ =~= seq![s@[0]]);
            }
        }
        if s.len() == 2 && s[0] == 61 && s[1] == 61 {
            Some(Self::Equals)
        } else if s.len() == 2 && s[0] == 33 && s[1] == 61 {
            Some(Self::NotEquals)
        } else if s.len() == 1 && s[0] == 60 {
            Some(Self::LessThan)
        } else if s.len() == 2 && s[0] == 60 && s[1] == 61 {
            Some(Self::LessThanOrEquals)
        } else if s.len() == 1 && s[0] == 62 {
            Some(Self::GreaterThan)
        } else if s.len() == 2 && s[0] == 62 && s[1] == 61 {
            Some(Self::GreaterThanOrEquals)
        } else {
            None
        }
    }

    /// The operator denoted by the byte string: `==`, `!=`, `<`, `<=`,
    /// `>` or `>=`.
    pub open spec fn spec_from_str(s: Seq<u8>) -> Option<ThresholdOperation> {
        if s == seq![61u8, 61u8] {
            Some(ThresholdOperation::Equals)
        } else if s == seq![33u8, 61u8] {
            Some(ThresholdOperation::NotEquals)
        } else if s == seq![60u8] {
            Some(ThresholdOperation::LessThan)
        } else if s == seq![60u8, 61u8] {
            Some(ThresholdOperation::LessThanOrEquals)
        } else if s == seq![62u8] {
            Some(ThresholdOperation::GreaterThan)
        } else if s == seq![62u8, 61u8] {
            Some(ThresholdOperation::GreaterThanOrEquals)
        } else {
            None
        }
    }

    /// Applies the comparison to a masked pixel value and the masked
    /// threshold.
    pub fn matches(&self, value: u32, masked_threshold: u32) -> (r: bool)
        ensures
            r == match *self {
                ThresholdOperation::Equals => value == masked_threshold,
                ThresholdOperation::NotEquals => value != masked_threshold,
                ThresholdOperation::LessThan => value < masked_threshold,
                ThresholdOperation::LessThanOrEquals => value <= masked_threshold,
                ThresholdOperation::GreaterThan => value > masked_threshold,
                ThresholdOperation::GreaterThanOrEquals => value >= masked_threshold,
            },
    {
        match self {
            ThresholdOperation::Equals => value == masked_threshold,
            ThresholdOperation::NotEquals => value != masked_threshold,
            ThresholdOperation::LessThan => value < masked_threshold,
            ThresholdOperation::LessThanOrEquals => value <= masked_threshold,
            ThresholdOperation::GreaterThan => value > masked_threshold,
            ThresholdOperation::GreaterThanOrEquals => value >= masked_threshold,
        }
    }
}

/// The error raised by drawing operations for source kinds the renderer
/// cannot composite.
#[derive(Debug, Clone, PartialEq, Eq, Structural)]
pub enum BitmapDataDrawError {
    Unimplemented,
}

/// Distinct coordinates have distinct row-major indices.
pub proof fn lemma_row_major_distinct(w: int, x1: int, y1: int, x2: int, y2: int)
    requires
        0 <= x1 < w,
        0 <= x2 < w,
        0 <= y1,
        0 <= y2,
        x1 != x2 || y1 != y2,
    ensures
        y1 * w + x1 != y2 * w + x2,
{
    if y1 != y2 {
        assert(y1 * w + x1 != y2 * w + x2) by (nonlinear_arith)
            requires
                0 <= x1 < w,
                0 <= x2 < w,
                y1 != y2,
                0 <= y1,
                0 <= y2,
        ;
    }
}

/// A row-major pixel index is inside the storage.
pub proof fn lemma_row_major_index(w: int, h: int, x: int, y: int)
    requires
        0 <= x < w,
        0 <= y < h,
    ensures
        0 <= y * w + x < w * h,
        y * w + x == x + y * w,
{
    vstd::arithmetic::mul::lemma_mul_inequality(y + 1, h, w);
    assert((y + 1) * w == y * w + w) by {
        vstd::arithmetic::mul::lemma_mul_is_distributive_add_other_way(w, y, 1);
    }
    assert(y * w >= 0) by {
        vstd::arithmetic::mul::lemma_mul_nonnegative(y, w);
    }
}

} // verus!

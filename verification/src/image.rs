//! In-memory image resources: a pixel surface with known dimensions and
//! format, and the compositing primitive that copies one image into a
//! sub-rectangle of another.

use vstd::prelude::*;

verus! {

/// Pixel layout of an image.  Every pixel occupies one 32-bit word.
#[derive(Clone, Copy, PartialEq, Eq, Structural, Debug)]
pub enum PixelFormat {
    Rgba8888,
    Argb8888,
}

/// An image resource: pixel data in row-major order together with its
/// dimensions and format.  Images are loaded by the caller, held by the
/// texture manager, and consumed when composited into an atlas.
#[derive(Debug)]
pub struct Image {
    pub width: u32,
    pub height: u32,
    pub format: PixelFormat,
    pub pixels: Vec<u32>,
}

/// Row-major position of pixel `(x, y)` in a surface `w` pixels wide.
pub open spec fn pixel_index(x: int, y: int, w: int) -> int {
    y * w + x
}

/// A pixel position inside the bounds lands inside the backing storage.
proof fn lemma_pixel_index_in_range(x: int, y: int, w: int, h: int)
    requires
        0 <= x < w,
        0 <= y < h,
    ensures
        0 <= pixel_index(x, y, w) < w * h,
{
    assert(0 <= y * w + x < w * h) by (nonlinear_arith)
        requires
            0 <= x < w,
            0 <= y < h,
    ;
}

/// Distinct pixel positions inside the bounds land at distinct places in the
/// backing storage.
proof fn lemma_pixel_index_injective(x1: int, y1: int, x2: int, y2: int, w: int, h: int)
    requires
        0 <= x1 < w,
        0 <= y1 < h,
        0 <= x2 < w,
        0 <= y2 < h,
        !(x1 == x2 && y1 == y2),
    ensures
        pixel_index(x1, y1, w) != pixel_index(x2, y2, w),
{
    assert(y1 * w + x1 != y2 * w + x2) by (nonlinear_arith)
        requires
            0 <= x1 < w,
            0 <= y1 < h,
            0 <= x2 < w,
            0 <= y2 < h,
            !(x1 == x2 && y1 == y2),
    ;
}

impl Image {
    /// A well-formed image has at least one pixel in each dimension and a
    /// backing store of exactly `width * height` words.
    pub open spec fn wf(&self) -> bool {
        &&& 1 <= self.width
        &&& 1 <= self.height
        &&& self.pixels@.len() == self.width * self.height
    }

    /// The pixel at `(x, y)`.
    pub open spec fn pixel_at(&self, x: int, y: int) -> u32 {
        self.pixels@[pixel_index(x, y, self.width as int)]
    }

    /// A blank image of the given size and format, every pixel zero.
    pub fn new(width: u32, height: u32, format: PixelFormat) -> (img: Image)
        requires
            1 <= width,
            1 <= height,
            width * height <= usize::MAX,
        ensures
            img.wf(),
            img.width == width,
            img.height == height,
            img.format == format,
            forall|x: int, y: int|
                0 <= x < width && 0 <= y < height ==> #[trigger] img.pixel_at(x, y) == 0,
    {
        let total: usize = (width as usize) * (height as usize);
        let mut pixels: Vec<u32> = Vec::new();
        let mut i: usize = 0;
        while i < total
            invariant
                i <= total,
                pixels@.len() == i,
                forall|k: int| 0 <= k < i ==> pixels@[k] == 0,
            decreases total - i,
        {
            pixels.push(0);
            i = i + 1;
        }
        let img = Image { width, height, format, pixels };
        proof {
            assert forall|x: int, y: int|
                0 <= x < width && 0 <= y < height implies #[trigger] img.pixel_at(x, y) == 0 by {
                lemma_pixel_index_in_range(x, y, width as int, height as int);
            }
        }
        img
    }

    /// Read one pixel.
    pub fn pixel(&self, x: u32, y: u32) -> (v: u32)
        requires
            self.wf(),
            x < self.width,
            y < self.height,
        ensures
            v == self.pixel_at(x as int, y as int),
    {
        proof {
            lemma_pixel_index_in_range(x as int, y as int, self.width as int, self.height as int);
            assert(self.pixels.len() == self.pixels@.len());
        }
        let idx: usize = (y as usize) * (self.width as usize) + (x as usize);
        self.pixels[idx]
    }

    /// Overwrite one pixel; every other pixel keeps its value.
    pub fn set_pixel(&mut self, x: u32, y: u32, value: u32)
        requires
            old(self).wf(),
            x < old(self).width,
            y < old(self).height,
        ensures
            final(self).wf(),
            final(self).width == old(self).width,
            final(self).height == old(self).height,
            final(self).format == old(self).format,
            final(self).pixel_at(x as int, y as int) == value,
            forall|px: int, py: int|
                0 <= px < old(self).width && 0 <= py < old(self).height && !(px == x && py == y)
                    ==> #[trigger] final(self).pixel_at(px, py) == old(self).pixel_at(px, py),
    {
        proof {
            lemma_pixel_index_in_range(x as int, y as int, self.width as int, self.height as int);
            assert(self.pixels.len() == self.pixels@.len());
        }
        let idx: usize = (y as usize) * (self.width as usize) + (x as usize);
        self.pixels[idx] = value;
        proof {
            assert forall|px: int, py: int|
                0 <= px < old(self).width && 0 <= py < old(self).height && !(px == x && py == y)
                    implies #[trigger] self.pixel_at(px, py) == old(self).pixel_at(px, py) by {
                lemma_pixel_index_in_range(px, py, self.width as int, self.height as int);
                lemma_pixel_index_injective(
                    px,
                    py,
                    x as int,
                    y as int,
                    self.width as int,
                    self.height as int,
                );
            }
        }
    }

    /// Copy the full extent of `src` into this image, with its top-left
    /// corner at `(dst_x, dst_y)`.  Pixels outside the target rectangle are
    /// untouched; the pixel data itself is preserved unmodified.
    pub fn blit_from(&mut self, src: &Image, dst_x: u32, dst_y: u32)
        requires
            old(self).wf(),
            src.wf(),
            dst_x + src.width <= old(self).width,
            dst_y + src.height <= old(self).height,
        ensures
            final(self).wf(),
            final(self).width == old(self).width,
            final(self).height == old(self).height,
            final(self).format == old(self).format,
            forall|dx: int, dy: int|
                0 <= dx < src.width && 0 <= dy < src.height ==> #[trigger] final(self).pixel_at(
                    dst_x + dx,
                    dst_y + dy,
                ) == src.pixel_at(dx, dy),
            forall|px: int, py: int|
                0 <= px < old(self).width && 0 <= py < old(self).height && !(dst_x <= px < dst_x
                    + src.width && dst_y <= py < dst_y + src.height) ==> #[trigger] final(self).pixel_at(
                    px,
                    py,
                ) == old(self).pixel_at(px, py),
    {
        let mut dy: u32 = 0;
        while dy < src.height
            invariant
                self.wf(),
                src.wf(),
                dy <= src.height,
                dst_x + src.width <= self.width,
                dst_y + src.height <= self.height,
                self.width == old(self).width,
                self.height == old(self).height,
                self.format == old(self).format,
                forall|ax: int, ay: int|
                    0 <= ax < src.width && 0 <= ay < dy ==> #[trigger] self.pixel_at(
                        dst_x + ax,
                        dst_y + ay,
                    ) == src.pixel_at(ax, ay),
                forall|px: int, py: int|
                    0 <= px < old(self).width && 0 <= py < old(self).height && !(dst_x <= px < dst_x
                        + src.width && dst_y <= py < dst_y + dy) ==> #[trigger] self.pixel_at(
                        px,
                        py,
                    ) == old(self).pixel_at(px, py),
            decreases src.height - dy,
        {
            let mut dx: u32 = 0;
            while dx < src.width
                invariant
                    self.wf(),
                    src.wf(),
                    dy < src.height,
                    dx <= src.width,
                    dst_x + src.width <= self.width,
                    dst_y + src.height <= self.height,
                    self.width == old(self).width,
                    self.height == old(self).height,
                    self.format == old(self).format,
                    forall|ax: int, ay: int|
                        0 <= ax < src.width && 0 <= ay < dy ==> #[trigger] self.pixel_at(
                            dst_x + ax,
                            dst_y + ay,
                        ) == src.pixel_at(ax, ay),
                    forall|ax: int|
                        0 <= ax < dx ==> #[trigger] self.pixel_at(dst_x + ax, dst_y + dy as int)
                            == src.pixel_at(ax, dy as int),
                    forall|px: int, py: int|
                        0 <= px < old(self).width && 0 <= py < old(self).height && !(dst_x <= px
                            < dst_x + src.width && dst_y <= py < dst_y + dy) && !(dst_x <= px
                            < dst_x + dx && py == dst_y + dy) ==> #[trigger] self.pixel_at(px, py)
                            == old(self).pixel_at(px, py),
                decreases src.width - dx,
            {
                let v = src.pixel(dx, dy);
                self.set_pixel(dst_x + dx, dst_y + dy, v);
                dx = dx + 1;
            }
            dy = dy + 1;
        }
    }
}

} // verus!

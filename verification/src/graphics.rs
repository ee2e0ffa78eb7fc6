//! Window geometry and the framebuffer renderer.
//!
//! The renderer draws into an owned byte buffer laid out like the hardware
//! framebuffer: `stride` pixels per row, `bytes_per_pixel` bytes per pixel,
//! each pixel encoded as `(B, G, R, 255)` truncated to the pixel size.
//! Glyph rasters come from the bitmap font crate through a trusted lookup.

use vstd::prelude::*;
use noto_sans_mono_bitmap::{get_raster, FontWeight, RasterHeight};

verus! {

/// Width in pixels of one rendered character cell.
pub const CHAR_WIDTH: u16 = 7;

/// Height in pixels of one rendered character cell.
pub const CHAR_HEIGHT: u16 = 16;

/// A position or extent in pixels.
#[derive(Clone, Copy, Debug, PartialEq, Eq, Structural)]
pub struct Vec2 {
    pub x: u16,
    pub y: u16,
}

/// One pixel to draw: where and in which color.
#[derive(Clone, Copy, Debug, PartialEq, Eq, Structural)]
pub struct Pixel {
    pub pos: Vec2,
    pub color: Color,
}

/// An 8-bit-per-channel color.
#[derive(Clone, Copy, Debug, PartialEq, Eq, Structural)]
pub struct Color {
    pub r: u8,
    pub g: u8,
    pub b: u8,
}

/// The blend of `a` over `b` with weight `w / 255`, channel by channel in
/// integer arithmetic.
pub open spec fn blend_spec(a: Color, b: Color, w: u8) -> Color {
    Color {
        r: ((a.r * w + b.r * (255 - w)) / 255) as u8,
        g: ((a.g * w + b.g * (255 - w)) / 255) as u8,
        b: ((a.b * w + b.b * (255 - w)) / 255) as u8,
    }
}

/// One channel of a weighted blend: `a` weighted by `w / 255` over `b`.
fn blend_channel(a: u8, b: u8, w: u8) -> (r: u8)
    ensures
        r == (a * w + b * (255 - w)) / 255,
{
    proof {
        assert(a as int * w as int <= 255 * 255) by (nonlinear_arith)
            requires
                0 <= a as int <= 255,
                0 <= w as int <= 255,
        ;
        assert(b as int * (255 - w as int) <= 255 * 255) by (nonlinear_arith)
            requires
                0 <= b as int <= 255,
                0 <= w as int <= 255,
        ;
        assert(a as int * w as int >= 0 && b as int * (255 - w as int) >= 0) by (nonlinear_arith)
            requires
                0 <= a as int,
                0 <= b as int,
                0 <= w as int <= 255,
        ;
        assert(a as int * w as int + b as int * (255 - w as int) <= 255 * 255) by (
        nonlinear_arith)
            requires
                0 <= a as int <= 255,
                0 <= b as int <= 255,
                0 <= w as int <= 255,
        ;
        assert((a as int * w as int + b as int * (255 - w as int)) / 255 <= 255) by (
        nonlinear_arith)
            requires
                0 <= a as int * w as int,
                0 <= b as int * (255 - w as int),
                a as int * w as int + b as int * (255 - w as int) <= 255 * 255,
        ;
    }
    (((a as u32) * (w as u32) + (b as u32) * (255 - (w as u32))) / 255) as u8
}

impl Color {
    /// Blend of `self` over `rhs` weighted by `w / 255`, channel by channel
    /// in integer arithmetic.
    pub fn blend(self, rhs: Color, w: u8) -> (r: Color)
        ensures
            r.r == (self.r * w + rhs.r * (255 - w)) / 255,
            r.g == (self.g * w + rhs.g * (255 - w)) / 255,
            r.b == (self.b * w + rhs.b * (255 - w)) / 255,
            r == blend_spec(self, rhs, w),
    {
        Color {
            r: blend_channel(self.r, rhs.r, w),
            g: blend_channel(self.g, rhs.g, w),
            b: blend_channel(self.b, rhs.b, w),
        }
    }
}

/// Placement of one application window on the screen.
#[derive(Clone, Copy, Debug, PartialEq, Eq, Structural)]
pub struct WindowSettings {
    pub window_size_pixels: Vec2,
    pub window_offset_pixels: Vec2,
}

impl WindowSettings {
    pub fn new(window_size_pixels: Vec2, window_offset_pixels: Vec2) -> (r: WindowSettings)
        ensures
            r.window_size_pixels == window_size_pixels,
            r.window_offset_pixels == window_offset_pixels,
    {
        WindowSettings { window_offset_pixels, window_size_pixels }
    }

    /// A zero-sized window at the origin, used before a window is assigned.
    pub fn blank() -> (r: WindowSettings)
        ensures
            r.window_size_pixels == (Vec2 { x: 0, y: 0 }),
            r.window_offset_pixels == (Vec2 { x: 0, y: 0 }),
    {
        WindowSettings {
            window_size_pixels: Vec2 { x: 0, y: 0 },
            window_offset_pixels: Vec2 { x: 0, y: 0 },
        }
    }
}

/// The renderer's drawing surface: a byte buffer with the framebuffer's
/// geometry. The kernel renders here and the boot code hands the bytes to
/// the hardware framebuffer.
pub struct FrameBufferRenderer {
    pub buffer: Vec<u8>,
    pub width: usize,
    pub height: usize,
    pub stride: usize,
    pub bytes_per_pixel: usize,
}

impl FrameBufferRenderer {
    /// The buffer is exactly as large as the geometry says, with at most
    /// four bytes per pixel and whole rows of `stride` pixels.
    pub open spec fn wf(self) -> bool {
        &&& self.buffer@.len() == self.height * self.stride * self.bytes_per_pixel
        &&& 1 <= self.bytes_per_pixel <= 4
        &&& self.width <= self.stride
    }

    /// A renderer over a fresh, zeroed buffer of the given geometry.
    pub fn new(width: usize, height: usize, stride: usize, bytes_per_pixel: usize) -> (r:
        FrameBufferRenderer)
        requires
            1 <= bytes_per_pixel <= 4,
            width <= stride,
            height * stride * bytes_per_pixel <= usize::MAX,
        ensures
            r.wf(),
            r.width == width,
            r.height == height,
            r.stride == stride,
            r.bytes_per_pixel == bytes_per_pixel,
    {
        proof {
            assert(height * stride >= 0) by (nonlinear_arith)
                requires
                    height >= 0,
                    stride >= 0,
            ;
            assert(height * stride <= height * stride * bytes_per_pixel && (height * stride)
                * bytes_per_pixel == height * stride * bytes_per_pixel) by (nonlinear_arith)
                requires
                    height * stride >= 0,
                    bytes_per_pixel >= 1,
            ;
        }
        let pixels: usize = height * stride;
        let len: usize = pixels * bytes_per_pixel;
        let mut buffer: Vec<u8> = Vec::new();
        let mut i: usize = 0;
        while i < len
            invariant
                buffer@.len() == i,
                i <= len,
            decreases len - i,
        {
            buffer.push(0);
            i = i + 1;
        }
        proof {
            assert(height * stride * bytes_per_pixel == (height * stride) * bytes_per_pixel);
        }
        FrameBufferRenderer { buffer, width, height, stride, bytes_per_pixel }
    }

    /// A pixel position lies inside the window and the window inside the
    /// surface, so the write below stays in bounds.
    pub open spec fn pixel_in_bounds(self, window: WindowSettings, pos: Vec2) -> bool {
        &&& pos.x < window.window_size_pixels.x
        &&& pos.y + window.window_offset_pixels.y < window.window_size_pixels.y
        &&& window.window_offset_pixels.x + window.window_size_pixels.x <= self.stride
        &&& window.window_size_pixels.y <= self.height
    }

    /// Byte offset of the window pixel at `(x, y)`: the window's y axis
    /// grows upwards, so row 0 is the window's bottom row.
    pub open spec fn pixel_offset_at(self, window: WindowSettings, x: int, y: int) -> int {
        ((window.window_size_pixels.y - 1 - y - window.window_offset_pixels.y) * self.stride + (x
            + window.window_offset_pixels.x)) * self.bytes_per_pixel
    }

    /// Byte offset of a pixel given as a position.
    pub open spec fn pixel_offset(self, window: WindowSettings, pos: Vec2) -> int {
        self.pixel_offset_at(window, pos.x as int, pos.y as int)
    }

    /// Byte `j` lies inside the encoded cell of window pixel `(x, y)`.
    pub open spec fn in_cell(self, window: WindowSettings, x: int, y: int, j: int) -> bool {
        self.pixel_offset_at(window, x, y) <= j < self.pixel_offset_at(window, x, y)
            + self.bytes_per_pixel
    }

    /// Window pixel `(x, y)` encodes exactly the color `c`.
    pub open spec fn cell_is(self, window: WindowSettings, x: int, y: int, c: Color) -> bool {
        forall|k: int|
            0 <= k < self.bytes_per_pixel ==> self.buffer@[self.pixel_offset_at(window, x, y) + k]
                == color_enc(c, k)
    }

    /// Write one pixel: the bytes at its offset become the color's encoding;
    /// every other byte is untouched.
    pub fn draw_pixel(&mut self, window: &WindowSettings, pixel: Pixel)
        requires
            old(self).wf(),
            old(self).pixel_in_bounds(*window, pixel.pos),
        ensures
            final(self).wf(),
            final(self).width == old(self).width,
            final(self).height == old(self).height,
            final(self).stride == old(self).stride,
            final(self).bytes_per_pixel == old(self).bytes_per_pixel,
            final(self).buffer@.len() == old(self).buffer@.len(),
            final(self).cell_is(*window, pixel.pos.x as int, pixel.pos.y as int, pixel.color),
            forall|j: int|
                0 <= j < old(self).buffer@.len() && !old(self).in_cell(
                    *window,
                    pixel.pos.x as int,
                    pixel.pos.y as int,
                    j,
                ) ==> final(self).buffer@[j] == old(self).buffer@[j],
    {
        let blen: usize = self.buffer.len();
        let x: usize = pixel.pos.x as usize + window.window_offset_pixels.x as usize;
        let y: usize = (window.window_size_pixels.y - 1 - pixel.pos.y
            - window.window_offset_pixels.y) as usize;
        proof {
            assert(blen == self.buffer@.len());
            // The target pixel lies inside the surface.
            assert(y * self.stride + x < self.height * self.stride) by (nonlinear_arith)
                requires
                    y < self.height,
                    x < self.stride,
                    self.stride >= 0,
            ;
            assert((y * self.stride + x) * self.bytes_per_pixel + self.bytes_per_pixel <= (
            self.height * self.stride) * self.bytes_per_pixel) by (nonlinear_arith)
                requires
                    y * self.stride + x < self.height * self.stride,
                    self.bytes_per_pixel >= 1,
            ;
            assert(self.height * self.stride * self.bytes_per_pixel == (self.height * self.stride)
                * self.bytes_per_pixel);
            assert(self.height * self.stride <= (self.height * self.stride)
                * self.bytes_per_pixel) by (nonlinear_arith)
                requires
                    self.height * self.stride >= 0,
                    self.bytes_per_pixel >= 1,
            ;
            assert(self.height * self.stride >= 0) by (nonlinear_arith)
                requires
                    self.height >= 0,
                    self.stride >= 0,
            ;
            assert((y * self.stride + x) * self.bytes_per_pixel == self.pixel_offset(
                *window,
                pixel.pos,
            ));
        }
        let pixel_offset: usize = y * self.stride + x;
        let byte_offset: usize = pixel_offset * self.bytes_per_pixel;
        let enc: [u8; 4] = [pixel.color.b, pixel.color.g, pixel.color.r, 255];
        let bpp: usize = self.bytes_per_pixel;
        proof {
            assert(forall|k: int| 0 <= k < 4 ==> enc@[k] == color_enc(pixel.color, k));
        }
        let mut j: usize = 0;
        while j < bpp
            invariant
                j <= bpp,
                bpp == self.bytes_per_pixel,
                byte_offset + bpp <= self.buffer@.len(),
                self.buffer@.len() <= usize::MAX,
                1 <= bpp <= 4,
                self.width == old(self).width,
                self.height == old(self).height,
                self.stride == old(self).stride,
                self.bytes_per_pixel == old(self).bytes_per_pixel,
                self.buffer@.len() == old(self).buffer@.len(),
                forall|k: int| 0 <= k < 4 ==> enc@[k] == color_enc(pixel.color, k),
                forall|q: int|
                    0 <= q < self.buffer@.len() && !(byte_offset <= q < byte_offset + j)
                        ==> self.buffer@[q] == old(self).buffer@[q],
                forall|q: int| 0 <= q < j ==> self.buffer@[byte_offset + q] == color_enc(
                    pixel.color,
                    q,
                ),
            decreases bpp - j,
        {
            self.buffer[byte_offset + j] = enc[j];
            j = j + 1;
        }
    }

    /// Paint a `wdt` by `hgt` rectangle of window pixels whose lowest corner
    /// is `(x0, y0)` in one color; every byte outside the rectangle's cells
    /// is untouched.
    fn fill_rect(&mut self, window: &WindowSettings, x0: u16, y0: u16, wdt: u16, hgt: u16, color: Color)
        requires
            old(self).wf(),
            x0 + wdt <= window.window_size_pixels.x,
            y0 + hgt + window.window_offset_pixels.y <= window.window_size_pixels.y,
            window.window_offset_pixels.x + window.window_size_pixels.x <= old(self).stride,
            window.window_size_pixels.y <= old(self).height,
        ensures
            final(self).wf(),
            final(self).width == old(self).width,
            final(self).height == old(self).height,
            final(self).stride == old(self).stride,
            final(self).bytes_per_pixel == old(self).bytes_per_pixel,
            final(self).buffer@.len() == old(self).buffer@.len(),
            forall|px: int, py: int|
                x0 <= px < x0 + wdt && y0 <= py < y0 + hgt ==> #[trigger] final(self).cell_is(
                    *window,
                    px,
                    py,
                    color,
                ),
            forall|j: int|
                0 <= j < old(self).buffer@.len() && (forall|px: int, py: int|
                    x0 <= px < x0 + wdt && y0 <= py < y0 + hgt ==> !#[trigger] final(self).in_cell(
                        *window,
                        px,
                        py,
                        j,
                    )) ==> #[trigger] final(self).buffer@[j] == old(self).buffer@[j],
            forall|px: int, py: int, c2: Color|
                !(x0 <= px < x0 + wdt && y0 <= py < y0 + hgt) && 0 <= px
                    < window.window_size_pixels.x && 0 <= py && py
                    + window.window_offset_pixels.y < window.window_size_pixels.y && #[trigger] old(
                    self,
                ).cell_is(*window, px, py, c2) ==> final(self).cell_is(*window, px, py, c2),
    {
        let ghost pre_fill = *old(self);
        let mut x: u16 = x0;
        while x < x0 + wdt
            invariant
                self.wf(),
                self.width == old(self).width,
                self.height == old(self).height,
                self.stride == old(self).stride,
                self.bytes_per_pixel == old(self).bytes_per_pixel,
                self.buffer@.len() == old(self).buffer@.len(),
                x0 <= x <= x0 + wdt,
                x0 + wdt <= window.window_size_pixels.x,
                y0 + hgt + window.window_offset_pixels.y <= window.window_size_pixels.y,
                window.window_offset_pixels.x + window.window_size_pixels.x <= self.stride,
                window.window_size_pixels.y <= self.height,
                forall|px: int, py: int|
                    x0 <= px < x && y0 <= py < y0 + hgt ==> #[trigger] self.cell_is(
                        *window,
                        px,
                        py,
                        color,
                    ),
                forall|j: int|
                    0 <= j < self.buffer@.len() && (forall|px: int, py: int|
                        x0 <= px < x && y0 <= py < y0 + hgt ==> !#[trigger] self.in_cell(
                            *window,
                            px,
                            py,
                            j,
                        )) ==> #[trigger] self.buffer@[j] == old(self).buffer@[j],
            decreases x0 + wdt - x,
        {
            let mut y: u16 = y0;
            while y < y0 + hgt
                invariant
                    self.wf(),
                    self.width == old(self).width,
                    self.height == old(self).height,
                    self.stride == old(self).stride,
                    self.bytes_per_pixel == old(self).bytes_per_pixel,
                    self.buffer@.len() == old(self).buffer@.len(),
                    x0 <= x < x0 + wdt,
                    y0 <= y <= y0 + hgt,
                    x0 + wdt <= window.window_size_pixels.x,
                    y0 + hgt + window.window_offset_pixels.y <= window.window_size_pixels.y,
                    window.window_offset_pixels.x + window.window_size_pixels.x <= self.stride,
                    window.window_size_pixels.y <= self.height,
                    forall|px: int, py: int|
                        (x0 <= px < x && y0 <= py < y0 + hgt) || (px == x && y0 <= py < y)
                            ==> #[trigger] self.cell_is(*window, px, py, color),
                    forall|j: int|
                        0 <= j < self.buffer@.len() && (forall|px: int, py: int|
                            ((x0 <= px < x && y0 <= py < y0 + hgt) || (px == x && y0 <= py < y))
                                ==> !#[trigger] self.in_cell(*window, px, py, j)) ==> #[trigger] self.buffer@[j]
                            == old(self).buffer@[j],
                decreases y0 + hgt - y,
            {
                let ghost pre = *self;
                self.draw_pixel(window, Pixel { pos: Vec2 { x, y }, color });
                proof {
                    assert forall|px: int, py: int|
                        (x0 <= px < x && y0 <= py < y0 + hgt) || (px == x && y0 <= py < y + 1)
                            implies #[trigger] self.cell_is(*window, px, py, color) by {
                        if px == x && py == y {
                        } else {
                            lemma_pixel_cells_disjoint(*self, *window, px, py, x as int, y as int);
                            lemma_cell_in_buffer(pre, *window, px, py);
                            assert(pre.cell_is(*window, px, py, color));
                            assert forall|k: int| 0 <= k < self.bytes_per_pixel implies
                                self.buffer@[self.pixel_offset_at(*window, px, py) + k]
                                == color_enc(color, k) by {
                                assert(!pre.in_cell(
                                    *window,
                                    x as int,
                                    y as int,
                                    self.pixel_offset_at(*window, px, py) + k,
                                ));
                            }
                        }
                    }
                    assert forall|j: int|
                        0 <= j < self.buffer@.len() && (forall|px: int, py: int|
                            ((x0 <= px < x && y0 <= py < y0 + hgt) || (px == x && y0 <= py < y
                                + 1)) ==> !#[trigger] self.in_cell(*window, px, py, j)) implies
                        #[trigger] self.buffer@[j] == old(self).buffer@[j] by {
                        assert(!self.in_cell(*window, x as int, y as int, j));
                        assert(!pre.in_cell(*window, x as int, y as int, j));
                        assert(self.buffer@[j] == pre.buffer@[j]);
                        assert forall|px: int, py: int|
                            (x0 <= px < x && y0 <= py < y0 + hgt) || (px == x && y0 <= py < y)
                                implies !pre.in_cell(*window, px, py, j) by {
                            assert(!self.in_cell(*window, px, py, j));
                        }
                        assert(pre.buffer@[j] == old(self).buffer@[j]);
                    }
                }
                y = y + 1;
            }
            x = x + 1;
        }
        proof {
            assert forall|px: int, py: int, c2: Color|
                !(x0 <= px < x0 + wdt && y0 <= py < y0 + hgt) && 0 <= px
                    < window.window_size_pixels.x && 0 <= py && py
                    + window.window_offset_pixels.y < window.window_size_pixels.y && #[trigger] pre_fill.cell_is(
                *window,
                px,
                py,
                c2,
            ) implies self.cell_is(*window, px, py, c2) by {
                lemma_cell_in_buffer(pre_fill, *window, px, py);
                assert forall|k: int|
                    0 <= k < self.bytes_per_pixel implies self.buffer@[self.pixel_offset_at(
                    *window,
                    px,
                    py,
                ) + k] == color_enc(c2, k) by {
                    let j = self.pixel_offset_at(*window, px, py) + k;
                    assert forall|qx: int, qy: int|
                        x0 <= qx < x0 + wdt && y0 <= qy < y0 + hgt implies !self.in_cell(
                        *window,
                        qx,
                        qy,
                        j,
                    ) by {
                        lemma_pixel_cells_disjoint(*self, *window, px, py, qx, qy);
                    }
                    assert(self.buffer@[j] == pre_fill.buffer@[j]);
                }
            }
        }
    }

    /// Paint the whole window in one color; every byte outside the window's
    /// cells is untouched.
    pub fn fill_window_with_color(&mut self, window: &WindowSettings, color: Color)
        requires
            old(self).wf(),
            window.window_offset_pixels.x + window.window_size_pixels.x <= old(self).stride,
            window.window_size_pixels.y <= old(self).height,
            window.window_offset_pixels.y == 0,
        ensures
            final(self).wf(),
            final(self).width == old(self).width,
            final(self).height == old(self).height,
            final(self).stride == old(self).stride,
            final(self).bytes_per_pixel == old(self).bytes_per_pixel,
            final(self).buffer@.len() == old(self).buffer@.len(),
            forall|px: int, py: int|
                0 <= px < window.window_size_pixels.x && 0 <= py < window.window_size_pixels.y
                    ==> #[trigger] final(self).cell_is(*window, px, py, color),
            forall|j: int|
                0 <= j < old(self).buffer@.len() && (forall|px: int, py: int|
                    0 <= px < window.window_size_pixels.x && 0 <= py
                        < window.window_size_pixels.y ==> !#[trigger] final(self).in_cell(
                        *window,
                        px,
                        py,
                        j,
                    )) ==> #[trigger] final(self).buffer@[j] == old(self).buffer@[j],
    {
        self.fill_rect(
            window,
            0,
            0,
            window.window_size_pixels.x,
            window.window_size_pixels.y,
            color,
        );
    }
}

/// Byte `k` of a pixel's encoding: `(B, G, R, 255)`, truncated to the pixel
/// size by the caller.
pub open spec fn color_enc(c: Color, k: int) -> u8 {
    if k == 0 {
        c.b
    } else if k == 1 {
        c.g
    } else if k == 2 {
        c.r
    } else {
        255u8
    }
}

/// Distinct cells of a row-major pixel layout occupy disjoint byte ranges.
proof fn lemma_cells_disjoint(stride: int, bpp: int, r1: int, c1: int, r2: int, c2: int)
    requires
        stride > 0,
        bpp > 0,
        0 <= r1,
        0 <= r2,
        0 <= c1 < stride,
        0 <= c2 < stride,
        r1 != r2 || c1 != c2,
    ensures
        (r1 * stride + c1) * bpp + bpp <= (r2 * stride + c2) * bpp || (r2 * stride + c2) * bpp
            + bpp <= (r1 * stride + c1) * bpp,
{
    let p1 = r1 * stride + c1;
    let p2 = r2 * stride + c2;
    if r1 < r2 {
        assert(p1 < p2) by (nonlinear_arith)
            requires
                p1 == r1 * stride + c1,
                p2 == r2 * stride + c2,
                r1 + 1 <= r2,
                0 <= c1 < stride,
                0 <= c2,
                stride > 0,
        ;
    } else if r2 < r1 {
        assert(p2 < p1) by (nonlinear_arith)
            requires
                p1 == r1 * stride + c1,
                p2 == r2 * stride + c2,
                r2 + 1 <= r1,
                0 <= c2 < stride,
                0 <= c1,
                stride > 0,
        ;
    }
    assert(p1 != p2);
    if p1 < p2 {
        assert(p1 * bpp + bpp <= p2 * bpp) by (nonlinear_arith)
            requires
                p1 + 1 <= p2,
                bpp > 0,
        ;
    } else {
        assert(p2 * bpp + bpp <= p1 * bpp) by (nonlinear_arith)
            requires
                p2 + 1 <= p1,
                bpp > 0,
        ;
    }
}

/// Distinct in-bounds window pixels occupy disjoint byte cells of the
/// surface.
pub proof fn lemma_pixel_cells_disjoint(
    fb: FrameBufferRenderer,
    window: WindowSettings,
    x1: int,
    y1: int,
    x2: int,
    y2: int,
)
    requires
        fb.wf(),
        0 <= x1,
        0 <= y1,
        0 <= x2,
        0 <= y2,
        x1 < window.window_size_pixels.x,
        x2 < window.window_size_pixels.x,
        y1 + window.window_offset_pixels.y < window.window_size_pixels.y,
        y2 + window.window_offset_pixels.y < window.window_size_pixels.y,
        window.window_offset_pixels.x + window.window_size_pixels.x <= fb.stride,
        x1 != x2 || y1 != y2,
    ensures
        fb.pixel_offset_at(window, x1, y1) + fb.bytes_per_pixel <= fb.pixel_offset_at(
            window,
            x2,
            y2,
        ) || fb.pixel_offset_at(window, x2, y2) + fb.bytes_per_pixel <= fb.pixel_offset_at(
            window,
            x1,
            y1,
        ),
{
    let r1 = window.window_size_pixels.y - 1 - y1 - window.window_offset_pixels.y;
    let r2 = window.window_size_pixels.y - 1 - y2 - window.window_offset_pixels.y;
    let c1 = x1 + window.window_offset_pixels.x;
    let c2 = x2 + window.window_offset_pixels.x;
    lemma_cells_disjoint(fb.stride as int, fb.bytes_per_pixel as int, r1, c1, r2, c2);
}

/// The byte cell of an in-bounds window pixel lies inside the buffer.
pub proof fn lemma_cell_in_buffer(fb: FrameBufferRenderer, window: WindowSettings, x: int, y: int)
    requires
        fb.wf(),
        0 <= x,
        0 <= y,
        x < window.window_size_pixels.x,
        y + window.window_offset_pixels.y < window.window_size_pixels.y,
        window.window_offset_pixels.x + window.window_size_pixels.x <= fb.stride,
        window.window_size_pixels.y <= fb.height,
    ensures
        0 <= fb.pixel_offset_at(window, x, y),
        fb.pixel_offset_at(window, x, y) + fb.bytes_per_pixel <= fb.buffer@.len(),
{
    let r = window.window_size_pixels.y - 1 - y - window.window_offset_pixels.y;
    let c = x + window.window_offset_pixels.x;
    assert(r * fb.stride + c < fb.height * fb.stride) by (nonlinear_arith)
        requires
            0 <= r < fb.height,
            0 <= c < fb.stride,
            fb.stride >= 0,
    ;
    assert(r * fb.stride + c >= 0) by (nonlinear_arith)
        requires
            0 <= r,
            0 <= c,
            fb.stride >= 0,
    ;
    assert((r * fb.stride + c) * fb.bytes_per_pixel >= 0 && (r * fb.stride + c)
        * fb.bytes_per_pixel + fb.bytes_per_pixel <= (fb.height * fb.stride)
        * fb.bytes_per_pixel) by (nonlinear_arith)
        requires
            0 <= r * fb.stride + c < fb.height * fb.stride,
            fb.bytes_per_pixel >= 1,
    ;
    assert(fb.height * fb.stride * fb.bytes_per_pixel == (fb.height * fb.stride)
        * fb.bytes_per_pixel);
}

/// The raster the kernel uses for `c`: the font's glyph, or the backup
/// character's where the font has none. Sixteen rows of seven intensity
/// bytes.
pub uninterp spec fn glyph_raster(c: char) -> Seq<Seq<u8>>;

/// Relies on noto-sans-mono-bitmap's `get_raster` (regular weight, height
/// sixteen): the raster of `c`, or of `'?'` when the font lacks `c`; each
/// raster is sixteen rows of seven intensity bytes.
#[verifier::external_body]
pub fn char_raster(c: char) -> (r: Vec<Vec<u8>>)
    ensures
        r@.len() == CHAR_HEIGHT,
        r@.len() == glyph_raster(c).len(),
        forall|i: int| #![trigger r@[i]]
            0 <= i < CHAR_HEIGHT
                ==> r@[i]@.len() == CHAR_WIDTH && glyph_raster(c)[i].len() == CHAR_WIDTH,
        forall|i: int, j: int| #![trigger r@[i]@[j]]
            0 <= i < CHAR_HEIGHT && 0 <= j < CHAR_WIDTH
                ==> r@[i]@[j] == glyph_raster(c)[i][j],
{
    let raster = match get_raster(c, FontWeight::Regular, RasterHeight::Size16) {
        Some(g) => g,
        None => get_raster('?', FontWeight::Regular, RasterHeight::Size16)
            .expect("backup character missing from font"),
    };
    raster.raster().iter().map(|row| row.to_vec()).collect()
}

impl FrameBufferRenderer {
    /// The whole character cell at `bottom_left_corner` stays inside the
    /// window.
    pub open spec fn cell_in_bounds(self, window: WindowSettings, corner: Vec2) -> bool {
        &&& corner.x + CHAR_WIDTH <= window.window_size_pixels.x
        &&& corner.y + CHAR_HEIGHT + window.window_offset_pixels.y < window.window_size_pixels.y
        &&& window.window_offset_pixels.x + window.window_size_pixels.x <= self.stride
        &&& window.window_size_pixels.y <= self.height
    }

    /// Draw the glyph for `char_to_draw` in one color: every raster cell
    /// with nonzero intensity is painted in the text color, and every other
    /// byte of the surface is untouched.
    pub fn draw_char_no_anti_aliasing(
        &mut self,
        window: &WindowSettings,
        bottom_left_corner: Vec2,
        char_to_draw: char,
        text_color: Color,
    )
        requires
            old(self).wf(),
            old(self).cell_in_bounds(*window, bottom_left_corner),
        ensures
            final(self).wf(),
            final(self).width == old(self).width,
            final(self).height == old(self).height,
            final(self).stride == old(self).stride,
            final(self).bytes_per_pixel == old(self).bytes_per_pixel,
            final(self).buffer@.len() == old(self).buffer@.len(),
            forall|gy: int, gx: int|
                0 <= gy < CHAR_HEIGHT && 0 <= gx < CHAR_WIDTH && #[trigger] glyph_raster(
                    char_to_draw,
                )[gy][gx] != 0 ==> final(self).cell_is(
                    *window,
                    bottom_left_corner.x + gx,
                    bottom_left_corner.y + CHAR_HEIGHT - gy,
                    text_color,
                ),
            forall|j: int|
                0 <= j < old(self).buffer@.len() && (forall|gy: int, gx: int|
                    0 <= gy < CHAR_HEIGHT && 0 <= gx < CHAR_WIDTH && #[trigger] glyph_raster(
                        char_to_draw,
                    )[gy][gx] != 0 ==> !final(self).in_cell(
                        *window,
                        bottom_left_corner.x + gx,
                        bottom_left_corner.y + CHAR_HEIGHT - gy,
                        j,
                    )) ==> #[trigger] final(self).buffer@[j] == old(self).buffer@[j],
            forall|px: int, py: int, c2: Color|
                !(bottom_left_corner.x <= px < bottom_left_corner.x + CHAR_WIDTH
                    && bottom_left_corner.y + 1 <= py <= bottom_left_corner.y + CHAR_HEIGHT) && 0
                    <= px < window.window_size_pixels.x && 0 <= py && py
                    + window.window_offset_pixels.y < window.window_size_pixels.y
                    && #[trigger] old(self).cell_is(*window, px, py, c2) ==> final(self).cell_is(
                    *window,
                    px,
                    py,
                    c2,
                ),
    {
        let raster = char_raster(char_to_draw);
        self.draw_raster_cells(window, bottom_left_corner, &raster, Ghost(char_to_draw), text_color, text_color, false);
    }

    /// Draw the glyph for `char_to_draw`, blending the text color over the
    /// background by each raster cell's intensity; every raster cell with
    /// nonzero intensity is painted with its blend, and every other byte of
    /// the surface is untouched.
    pub fn draw_char(
        &mut self,
        window: &WindowSettings,
        bottom_left_corner: Vec2,
        char_to_draw: char,
        text_color: Color,
        background_color: Color,
    )
        requires
            old(self).wf(),
            old(self).cell_in_bounds(*window, bottom_left_corner),
        ensures
            final(self).wf(),
            final(self).width == old(self).width,
            final(self).height == old(self).height,
            final(self).stride == old(self).stride,
            final(self).bytes_per_pixel == old(self).bytes_per_pixel,
            final(self).buffer@.len() == old(self).buffer@.len(),
            forall|gy: int, gx: int|
                0 <= gy < CHAR_HEIGHT && 0 <= gx < CHAR_WIDTH && #[trigger] glyph_raster(
                    char_to_draw,
                )[gy][gx] != 0 ==> final(self).cell_is(
                    *window,
                    bottom_left_corner.x + gx,
                    bottom_left_corner.y + CHAR_HEIGHT - gy,
                    blend_spec(text_color, background_color, glyph_raster(char_to_draw)[gy][gx]),
                ),
            forall|j: int|
                0 <= j < old(self).buffer@.len() && (forall|gy: int, gx: int|
                    0 <= gy < CHAR_HEIGHT && 0 <= gx < CHAR_WIDTH && #[trigger] glyph_raster(
                        char_to_draw,
                    )[gy][gx] != 0 ==> !final(self).in_cell(
                        *window,
                        bottom_left_corner.x + gx,
                        bottom_left_corner.y + CHAR_HEIGHT - gy,
                        j,
                    )) ==> #[trigger] final(self).buffer@[j] == old(self).buffer@[j],
            forall|px: int, py: int, c2: Color|
                !(bottom_left_corner.x <= px < bottom_left_corner.x + CHAR_WIDTH
                    && bottom_left_corner.y + 1 <= py <= bottom_left_corner.y + CHAR_HEIGHT) && 0
                    <= px < window.window_size_pixels.x && 0 <= py && py
                    + window.window_offset_pixels.y < window.window_size_pixels.y
                    && #[trigger] old(self).cell_is(*window, px, py, c2) ==> final(self).cell_is(
                    *window,
                    px,
                    py,
                    c2,
                ),
    {
        let raster = char_raster(char_to_draw);
        self.draw_raster_cells(window, bottom_left_corner, &raster, Ghost(char_to_draw), text_color, background_color, true);
    }

    /// Shared glyph walk: paint every nonzero raster cell, in the flat text
    /// color or blended over the background by the cell's intensity.
    fn draw_raster_cells(
        &mut self,
        window: &WindowSettings,
        corner: Vec2,
        raster: &Vec<Vec<u8>>,
        ch: Ghost<char>,
        text_color: Color,
        background_color: Color,
        blended: bool,
    )
        requires
            old(self).wf(),
            old(self).cell_in_bounds(*window, corner),
            raster@.len() == CHAR_HEIGHT,
            glyph_raster(ch@).len() == CHAR_HEIGHT,
            forall|i: int|
                0 <= i < CHAR_HEIGHT ==> (#[trigger] raster@[i])@.len() == CHAR_WIDTH
                    && glyph_raster(ch@)[i].len() == CHAR_WIDTH,
            forall|i: int, j: int|
                0 <= i < CHAR_HEIGHT && 0 <= j < CHAR_WIDTH ==> (#[trigger] raster@[i]@[j])
                    == glyph_raster(ch@)[i][j],
        ensures
            final(self).wf(),
            final(self).width == old(self).width,
            final(self).height == old(self).height,
            final(self).stride == old(self).stride,
            final(self).bytes_per_pixel == old(self).bytes_per_pixel,
            final(self).buffer@.len() == old(self).buffer@.len(),
            forall|gy: int, gx: int|
                0 <= gy < CHAR_HEIGHT && 0 <= gx < CHAR_WIDTH && #[trigger] glyph_raster(ch@)[gy][
                gx] != 0 ==> final(self).cell_is(
                    *window,
                    corner.x + gx,
                    corner.y + CHAR_HEIGHT - gy,
                    cell_color(text_color, background_color, glyph_raster(ch@)[gy][gx], blended),
                ),
            forall|j: int|
                0 <= j < old(self).buffer@.len() && (forall|gy: int, gx: int|
                    0 <= gy < CHAR_HEIGHT && 0 <= gx < CHAR_WIDTH && #[trigger] glyph_raster(ch@)[
                    gy][gx] != 0 ==> !final(self).in_cell(
                        *window,
                        corner.x + gx,
                        corner.y + CHAR_HEIGHT - gy,
                        j,
                    )) ==> #[trigger] final(self).buffer@[j] == old(self).buffer@[j],
            forall|px: int, py: int, c2: Color|
                !(corner.x <= px < corner.x + CHAR_WIDTH && corner.y + 1 <= py <= corner.y
                    + CHAR_HEIGHT) && 0 <= px < window.window_size_pixels.x && 0 <= py && py
                    + window.window_offset_pixels.y < window.window_size_pixels.y
                    && #[trigger] old(self).cell_is(*window, px, py, c2) ==> final(self).cell_is(
                    *window,
                    px,
                    py,
                    c2,
                ),
    {
        let ghost pre_walk = *old(self);
        let mut gy: usize = 0;
        while gy < raster.len()
            invariant
                self.wf(),
                self.width == old(self).width,
                self.height == old(self).height,
                self.stride == old(self).stride,
                self.bytes_per_pixel == old(self).bytes_per_pixel,
                self.buffer@.len() == old(self).buffer@.len(),
                old(self).cell_in_bounds(*window, corner),
                gy <= CHAR_HEIGHT,
                raster@.len() == CHAR_HEIGHT,
                glyph_raster(ch@).len() == CHAR_HEIGHT,
                forall|i: int|
                    0 <= i < CHAR_HEIGHT ==> (#[trigger] raster@[i])@.len() == CHAR_WIDTH
                        && glyph_raster(ch@)[i].len() == CHAR_WIDTH,
                forall|i: int, j: int|
                    0 <= i < CHAR_HEIGHT && 0 <= j < CHAR_WIDTH ==> (#[trigger] raster@[i]@[j])
                        == glyph_raster(ch@)[i][j],
                forall|gy2: int, gx2: int|
                    0 <= gy2 < gy && 0 <= gx2 < CHAR_WIDTH && #[trigger] glyph_raster(ch@)[gy2][
                    gx2] != 0 ==> self.cell_is(
                        *window,
                        corner.x + gx2,
                        corner.y + CHAR_HEIGHT - gy2,
                        cell_color(
                            text_color,
                            background_color,
                            glyph_raster(ch@)[gy2][gx2],
                            blended,
                        ),
                    ),
                forall|j: int|
                    0 <= j < self.buffer@.len() && (forall|gy2: int, gx2: int|
                        0 <= gy2 < gy && 0 <= gx2 < CHAR_WIDTH && #[trigger] glyph_raster(ch@)[
                        gy2][gx2] != 0 ==> !self.in_cell(
                            *window,
                            corner.x + gx2,
                            corner.y + CHAR_HEIGHT - gy2,
                            j,
                        )) ==> #[trigger] self.buffer@[j] == old(self).buffer@[j],
            decreases raster@.len() - gy,
        {
            let row = &raster[gy];
            let mut gx: usize = 0;
            while gx < row.len()
                invariant
                    self.wf(),
                    self.width == old(self).width,
                    self.height == old(self).height,
                    self.stride == old(self).stride,
                    self.bytes_per_pixel == old(self).bytes_per_pixel,
                    self.buffer@.len() == old(self).buffer@.len(),
                    old(self).cell_in_bounds(*window, corner),
                    gy < CHAR_HEIGHT,
                    gx <= CHAR_WIDTH,
                    row@ == raster@[gy as int]@,
                    raster@.len() == CHAR_HEIGHT,
                    glyph_raster(ch@).len() == CHAR_HEIGHT,
                    forall|i: int|
                        0 <= i < CHAR_HEIGHT ==> (#[trigger] raster@[i])@.len() == CHAR_WIDTH
                            && glyph_raster(ch@)[i].len() == CHAR_WIDTH,
                    forall|i: int, j: int|
                        0 <= i < CHAR_HEIGHT && 0 <= j < CHAR_WIDTH ==> (#[trigger] raster@[i]@[j])
                            == glyph_raster(ch@)[i][j],
                    forall|gy2: int, gx2: int|
                        ((0 <= gy2 < gy && 0 <= gx2 < CHAR_WIDTH) || (gy2 == gy && 0 <= gx2 < gx))
                            && #[trigger] glyph_raster(ch@)[gy2][gx2] != 0 ==> self.cell_is(
                            *window,
                            corner.x + gx2,
                            corner.y + CHAR_HEIGHT - gy2,
                            cell_color(
                                text_color,
                                background_color,
                                glyph_raster(ch@)[gy2][gx2],
                                blended,
                            ),
                        ),
                    forall|j: int|
                        0 <= j < self.buffer@.len() && (forall|gy2: int, gx2: int|
                            ((0 <= gy2 < gy && 0 <= gx2 < CHAR_WIDTH) || (gy2 == gy && 0 <= gx2
                                < gx)) && #[trigger] glyph_raster(ch@)[gy2][gx2] != 0
                                ==> !self.in_cell(
                                *window,
                                corner.x + gx2,
                                corner.y + CHAR_HEIGHT - gy2,
                                j,
                            )) ==> #[trigger] self.buffer@[j] == old(self).buffer@[j],
                decreases row@.len() - gx,
            {
                let weight = row[gx];
                if weight != 0 {
                    let color = if blended {
                        text_color.blend(background_color, weight)
                    } else {
                        text_color
                    };
                    let pos = Vec2 {
                        x: corner.x + gx as u16,
                        y: corner.y + CHAR_HEIGHT - gy as u16,
                    };
                    let ghost pre = *self;
                    self.draw_pixel(window, Pixel { pos, color });
                    proof {
                        let cx = corner.x as int + gx;
                        let cy = corner.y + CHAR_HEIGHT - gy;
                        assert(color == cell_color(
                            text_color,
                            background_color,
                            glyph_raster(ch@)[gy as int][gx as int],
                            blended,
                        ));
                        assert forall|gy2: int, gx2: int|
                            ((0 <= gy2 < gy && 0 <= gx2 < CHAR_WIDTH) || (gy2 == gy && 0 <= gx2
                                < gx + 1)) && #[trigger] glyph_raster(ch@)[gy2][gx2] != 0 implies
                            self.cell_is(
                            *window,
                            corner.x + gx2,
                            corner.y + CHAR_HEIGHT - gy2,
                            cell_color(
                                text_color,
                                background_color,
                                glyph_raster(ch@)[gy2][gx2],
                                blended,
                            ),
                        ) by {
                            if gy2 == gy && gx2 == gx {
                            } else {
                                lemma_pixel_cells_disjoint(
                                    *self,
                                    *window,
                                    corner.x + gx2,
                                    corner.y + CHAR_HEIGHT - gy2,
                                    cx,
                                    cy,
                                );
                                lemma_cell_in_buffer(
                                    pre,
                                    *window,
                                    corner.x + gx2,
                                    corner.y + CHAR_HEIGHT - gy2,
                                );
                                let c2 = cell_color(
                                    text_color,
                                    background_color,
                                    glyph_raster(ch@)[gy2][gx2],
                                    blended,
                                );
                                assert(pre.cell_is(
                                    *window,
                                    corner.x + gx2,
                                    corner.y + CHAR_HEIGHT - gy2,
                                    c2,
                                ));
                                assert forall|k: int|
                                    0 <= k < self.bytes_per_pixel implies self.buffer@[
                                self.pixel_offset_at(*window, corner.x + gx2, corner.y
                                    + CHAR_HEIGHT - gy2) + k] == color_enc(c2, k) by {
                                    assert(!pre.in_cell(
                                        *window,
                                        cx,
                                        cy,
                                        self.pixel_offset_at(
                                            *window,
                                            corner.x + gx2,
                                            corner.y + CHAR_HEIGHT - gy2,
                                        ) + k,
                                    ));
                                }
                            }
                        }
                        assert forall|j: int|
                            0 <= j < self.buffer@.len() && (forall|gy2: int, gx2: int|
                                ((0 <= gy2 < gy && 0 <= gx2 < CHAR_WIDTH) || (gy2 == gy && 0 <= gx2
                                    < gx + 1)) && #[trigger] glyph_raster(ch@)[gy2][gx2] != 0
                                    ==> !self.in_cell(
                                    *window,
                                    corner.x + gx2,
                                    corner.y + CHAR_HEIGHT - gy2,
                                    j,
                                )) implies #[trigger] self.buffer@[j] == old(self).buffer@[j] by {
                            assert(!self.in_cell(*window, cx, cy, j));
                            assert(!pre.in_cell(*window, cx, cy, j));
                            assert(self.buffer@[j] == pre.buffer@[j]);
                            assert(pre.buffer@[j] == old(self).buffer@[j]);
                        }
                    }
                }
                gx = gx + 1;
            }
            gy = gy + 1;
        }
        proof {
            assert forall|px: int, py: int, c2: Color|
                !(corner.x <= px < corner.x + CHAR_WIDTH && corner.y + 1 <= py <= corner.y
                    + CHAR_HEIGHT) && 0 <= px < window.window_size_pixels.x && 0 <= py && py
                    + window.window_offset_pixels.y < window.window_size_pixels.y
                    && #[trigger] pre_walk.cell_is(*window, px, py, c2) implies self.cell_is(
                *window,
                px,
                py,
                c2,
            ) by {
                lemma_cell_in_buffer(pre_walk, *window, px, py);
                assert forall|k: int|
                    0 <= k < self.bytes_per_pixel implies self.buffer@[self.pixel_offset_at(
                    *window,
                    px,
                    py,
                ) + k] == color_enc(c2, k) by {
                    let j = self.pixel_offset_at(*window, px, py) + k;
                    assert forall|gy2: int, gx2: int|
                        0 <= gy2 < CHAR_HEIGHT && 0 <= gx2 < CHAR_WIDTH && #[trigger] glyph_raster(
                            ch@,
                        )[gy2][gx2] != 0 implies !self.in_cell(
                        *window,
                        corner.x + gx2,
                        corner.y + CHAR_HEIGHT - gy2,
                        j,
                    ) by {
                        lemma_pixel_cells_disjoint(
                            *self,
                            *window,
                            px,
                            py,
                            corner.x + gx2,
                            corner.y + CHAR_HEIGHT - gy2,
                        );
                    }
                    assert(self.buffer@[j] == pre_walk.buffer@[j]);
                }
            }
        }
    }

    /// Paint a whole character cell in one color, for clearing text; every
    /// byte outside the cell's rectangle is untouched.
    pub fn draw_block_char(
        &mut self,
        window: &WindowSettings,
        bottom_left_corner: Vec2,
        color: Color,
    )
        requires
            old(self).wf(),
            old(self).cell_in_bounds(*window, bottom_left_corner),
        ensures
            final(self).wf(),
            final(self).width == old(self).width,
            final(self).height == old(self).height,
            final(self).stride == old(self).stride,
            final(self).bytes_per_pixel == old(self).bytes_per_pixel,
            final(self).buffer@.len() == old(self).buffer@.len(),
            forall|px: int, py: int|
                bottom_left_corner.x <= px < bottom_left_corner.x + CHAR_WIDTH
                    && bottom_left_corner.y <= py < bottom_left_corner.y + CHAR_HEIGHT
                    ==> #[trigger] final(self).cell_is(*window, px, py, color),
            forall|j: int|
                0 <= j < old(self).buffer@.len() && (forall|px: int, py: int|
                    bottom_left_corner.x <= px < bottom_left_corner.x + CHAR_WIDTH
                        && bottom_left_corner.y <= py < bottom_left_corner.y + CHAR_HEIGHT
                        ==> !#[trigger] final(self).in_cell(*window, px, py, j))
                    ==> #[trigger] final(self).buffer@[j] == old(self).buffer@[j],
            forall|px: int, py: int, c2: Color|
                !(bottom_left_corner.x <= px < bottom_left_corner.x + CHAR_WIDTH
                    && bottom_left_corner.y <= py < bottom_left_corner.y + CHAR_HEIGHT) && 0 <= px
                    < window.window_size_pixels.x && 0 <= py && py
                    + window.window_offset_pixels.y < window.window_size_pixels.y
                    && #[trigger] old(self).cell_is(*window, px, py, c2) ==> final(self).cell_is(
                    *window,
                    px,
                    py,
                    c2,
                ),
    {
        self.fill_rect(
            window,
            bottom_left_corner.x,
            bottom_left_corner.y,
            CHAR_WIDTH,
            CHAR_HEIGHT,
            color,
        );
    }
}

/// The color a glyph cell of intensity `w` is painted: the text color as it
/// stands, or its blend over the background.
pub open spec fn cell_color(text: Color, background: Color, w: u8, blended: bool) -> Color {
    if blended {
        blend_spec(text, background, w)
    } else {
        text
    }
}

} // verus!

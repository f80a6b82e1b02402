//! Linear framebuffer: 32-bit pixels, a front and a back buffer, and the
//! drawing primitives the GUI is built from.

use vstd::prelude::*;

verus! {

/// Display mode.
#[derive(Debug, Clone, Copy)]
pub struct DisplayMode {
    pub width: u32,
    pub height: u32,
    /// Bytes per scan line.
    pub stride: u32,
    pub format: PixelFormat,
}

/// Pixel format.
#[derive(Debug, Clone, Copy, PartialEq, Eq, Structural)]
pub enum PixelFormat {
    RGBA8888,
    BGRA8888,
    RGB888,
    RGB565,
}

impl PixelFormat {
    pub fn bits_per_pixel(&self) -> (r: u32)
        ensures
            r == match *self {
                PixelFormat::RGBA8888 | PixelFormat::BGRA8888 => 32u32,
                PixelFormat::RGB888 => 24u32,
                PixelFormat::RGB565 => 16u32,
            },
    {
        match self {
            PixelFormat::RGBA8888 | PixelFormat::BGRA8888 => 32,
            PixelFormat::RGB888 => 24,
            PixelFormat::RGB565 => 16,
        }
    }
}

/// A 32-bit RGBA color.
#[derive(Clone, Copy, Debug, PartialEq, Eq, Structural)]
pub struct Color {
    pub r: u8,
    pub g: u8,
    pub b: u8,
    pub a: u8,
}

/// The pixel value of a color: red in the top byte, alpha in the bottom one.
pub open spec fn pack(c: Color) -> u32 {
    ((c.r as u32) << 24u32) | ((c.g as u32) << 16u32) | ((c.b as u32) << 8u32) | (c.a as u32)
}

impl Color {
    pub fn new(r: u8, g: u8, b: u8, a: u8) -> (c: Self)
        ensures
            c == (Color { r, g, b, a }),
    {
        Color { r, g, b, a }
    }

    /// The pixel value of the color.
    pub fn to_u32(&self) -> (v: u32)
        ensures
            v == pack(*self),
    {
        ((self.r as u32) << 24) | ((self.g as u32) << 16) | ((self.b as u32) << 8) | (self.a as u32)
    }
}

/// Packing keeps each channel: the four bytes of the pixel value are the
/// channels, so distinct colors give distinct pixel values.
pub proof fn law_pack_channels(c: Color)
    ensures
        (pack(c) >> 24u32) as u8 == c.r,
        (pack(c) >> 16u32) as u8 == c.g,
        (pack(c) >> 8u32) as u8 == c.b,
        pack(c) as u8 == c.a,
{
    let (r, g, b, a) = (c.r, c.g, c.b, c.a);
    assert(((((r as u32) << 24u32) | ((g as u32) << 16u32) | ((b as u32) << 8u32) | (a as u32)) >> 24u32) as u8 == r
        && ((((r as u32) << 24u32) | ((g as u32) << 16u32) | ((b as u32) << 8u32) | (a as u32)) >> 16u32) as u8 == g
        && ((((r as u32) << 24u32) | ((g as u32) << 16u32) | ((b as u32) << 8u32) | (a as u32)) >> 8u32) as u8 == b
        && (((r as u32) << 24u32) | ((g as u32) << 16u32) | ((b as u32) << 8u32) | (a as u32)) as u8 == a)
        by (bit_vector);
}

pub fn color_black() -> (c: Color)
    ensures
        c == (Color { r: 0, g: 0, b: 0, a: 255 }),
{
    Color { r: 0, g: 0, b: 0, a: 255 }
}

pub fn color_white() -> (c: Color)
    ensures
        c == (Color { r: 255, g: 255, b: 255, a: 255 }),
{
    Color { r: 255, g: 255, b: 255, a: 255 }
}

pub fn color_red() -> (c: Color)
    ensures
        c == (Color { r: 255, g: 0, b: 0, a: 255 }),
{
    Color { r: 255, g: 0, b: 0, a: 255 }
}

pub fn color_green() -> (c: Color)
    ensures
        c == (Color { r: 0, g: 255, b: 0, a: 255 }),
{
    Color { r: 0, g: 255, b: 0, a: 255 }
}

pub fn color_blue() -> (c: Color)
    ensures
        c == (Color { r: 0, g: 0, b: 255, a: 255 }),
{
    Color { r: 0, g: 0, b: 255, a: 255 }
}

pub fn color_gray() -> (c: Color)
    ensures
        c == (Color { r: 128, g: 128, b: 128, a: 255 }),
{
    Color { r: 128, g: 128, b: 128, a: 255 }
}

/// What a screen shows: its size and the pixel value at each point (0
/// outside the screen).
#[verifier::ext_equal]
pub struct Screen {
    pub width: int,
    pub height: int,
    pub px: spec_fn(int, int) -> u32,
}

pub open spec fn on_screen(s: Screen, x: int, y: int) -> bool {
    0 <= x < s.width && 0 <= y < s.height
}

/// The screen with the points of `region` that lie on it set to `c`.
pub open spec fn paint(s: Screen, region: spec_fn(int, int) -> bool, c: u32) -> Screen {
    Screen {
        px: |a: int, b: int|
            if on_screen(s, a, b) && region(a, b) {
                c
            } else {
                (s.px)(a, b)
            },
        ..s
    }
}

/// Painting two regions in one color is painting their union.
pub proof fn lemma_paint_union(s: Screen, r1: spec_fn(int, int) -> bool, r2: spec_fn(int, int) -> bool, u: spec_fn(int, int) -> bool, c: u32)
    requires
        forall|a: int, b: int| #[trigger] u(a, b) == (r1(a, b) || r2(a, b)),
    ensures
        paint(paint(s, r1, c), r2, c) == paint(s, u, c),
{
    assert(paint(paint(s, r1, c), r2, c) =~= paint(s, u, c));
}

/// Painting regions with the same points gives the same screen.
pub proof fn lemma_paint_same_region(s: Screen, r1: spec_fn(int, int) -> bool, r2: spec_fn(int, int) -> bool, c: u32)
    requires
        forall|a: int, b: int| #[trigger] r1(a, b) == r2(a, b),
    ensures
        paint(s, r1, c) == paint(s, r2, c),
{
    assert(paint(s, r1, c) =~= paint(s, r2, c));
}

/// The single point `(x, y)`.
pub open spec fn point(x: int, y: int) -> spec_fn(int, int) -> bool {
    |a: int, b: int| a == x && b == y
}

/// The `w` by `h` rectangle at `(x, y)`.
pub open spec fn rect(x: int, y: int, w: int, h: int) -> spec_fn(int, int) -> bool {
    |a: int, b: int| x <= a < x + w && y <= b < y + h
}

/// The outline of the `w` by `h` rectangle at `(x, y)`: its top and bottom
/// rows and its left and right columns.
pub open spec fn outline(x: int, y: int, w: int, h: int) -> spec_fn(int, int) -> bool {
    |a: int, b: int|
        (x <= a < x + w && (b == y || b == y + h - 1)) || (y <= b < y + h && (a == x || a == x + w - 1))
}

/// Every point.
pub open spec fn everywhere() -> spec_fn(int, int) -> bool {
    |a: int, b: int| true
}

/// `fill_rect` stays in 32-bit coordinates: a non-empty rectangle ends by
/// 2^32 in both directions.
pub open spec fn fill_ok(x: u32, y: u32, width: u32, height: u32) -> bool {
    width > 0 && height > 0 ==> x + width <= 0x1_0000_0000 && y + height <= 0x1_0000_0000
}

/// `draw_rect` stays in 32-bit coordinates: its far edges `x + width - 1`
/// and `y + height - 1` are formed from sums below 2^32.
pub open spec fn outline_ok(x: u32, y: u32, width: u32, height: u32) -> bool {
    &&& width > 0 ==> x + width <= 0x1_0000_0000 && y + height >= 1 && y + height <= u32::MAX
    &&& height > 0 ==> y + height <= 0x1_0000_0000 && x + width >= 1 && x + width <= u32::MAX
}

/// One step of the line walk from state `st` keeps the error term in `i32`:
/// its double and the values it is adjusted to all fit.
pub open spec fn step_fits(x0: int, y0: int, x1: int, y1: int, st: (int, int, int)) -> bool {
    let dx = abs_diff(x1, x0);
    let dy = abs_diff(y1, y0);
    let e2 = 2 * st.2;
    let e1 = if e2 > -dy { st.2 - dy } else { st.2 };
    let e3 = if e2 < dx { e1 + dx } else { e1 };
    &&& i32::MIN <= e2 <= i32::MAX
    &&& i32::MIN <= e1 <= i32::MAX
    &&& i32::MIN <= e3 <= i32::MAX
}

/// Every step the line walk takes before it reaches `(x1, y1)` keeps its
/// error term in `i32`.
pub open spec fn walk_fits(x0: int, y0: int, x1: int, y1: int) -> bool {
    forall|k: nat|
        (forall|m: nat| m <= k ==> #[trigger] line_point(x0, y0, x1, y1, m) != (x1, y1)) ==> step_fits(
            x0,
            y0,
            x1,
            y1,
            #[trigger] line_state(x0, y0, x1, y1, k),
        )
}

/// `draw_line` stays in `i32` arithmetic: the end points are `i32` values
/// and the walk's error term never overflows.
pub open spec fn line_ok(x0: u32, y0: u32, x1: u32, y1: u32) -> bool {
    &&& x0 <= i32::MAX && x1 <= i32::MAX && y0 <= i32::MAX && y1 <= i32::MAX
    &&& walk_fits(x0 as int, y0 as int, x1 as int, y1 as int)
}

/// The row-major index of a point lies in the buffer.
proof fn lemma_index_bound(w: int, h: int, x: int, y: int)
    by (nonlinear_arith)
    requires
        0 <= x < w,
        0 <= y < h,
    ensures
        0 <= y * w + x < w * h,
{
    assert(y * w + x < (y + 1) * w);
    assert((y + 1) * w <= h * w);
}

/// Distinct points of a `w`-wide screen have distinct row-major indices.
proof fn lemma_index_unique(w: int, x: int, y: int, a: int, b: int)
    by (nonlinear_arith)
    requires
        0 <= x < w,
        0 <= a < w,
        0 <= y,
        0 <= b,
        b * w + a == y * w + x,
    ensures
        a == x && b == y,
{
    if b < y {
        assert(b * w + a < (b + 1) * w);
        assert((b + 1) * w <= y * w);
    } else if b > y {
        assert(y * w + x < (y + 1) * w);
        assert((y + 1) * w <= b * w);
    }
}

/// A framebuffer: display mode, the addresses of the front and back
/// buffers, and their pixels in row-major order.
pub struct FramebufferDriver {
    pub mode: DisplayMode,
    pub buffer: u64,
    pub back_buffer: u64,
    front: Vec<u32>,
    back: Vec<u32>,
}

/// Screen of a row-major pixel buffer.
pub open spec fn screen_of(width: int, height: int, pixels: Seq<u32>) -> Screen {
    Screen {
        width,
        height,
        px: |a: int, b: int|
            if 0 <= a < width && 0 <= b < height {
                pixels[b * width + a]
            } else {
                0
            },
    }
}

impl FramebufferDriver {
    /// Both buffers hold `width * height` pixels, a line is `4 * width`
    /// bytes, and a buffer's byte size fits in 32 bits.
    pub closed spec fn wf(&self) -> bool {
        &&& self.mode.stride == self.mode.width * 4
        &&& self.mode.width * self.mode.height * 4 <= u32::MAX
        &&& self.front@.len() == self.mode.width * self.mode.height
        &&& self.back@.len() == self.mode.width * self.mode.height
    }

    /// What a well-formed framebuffer guarantees: a line is `4 * width`
    /// bytes, a buffer's byte size fits in 32 bits, and both screens have
    /// the mode's size.
    pub proof fn lemma_wf_facts(&self)
        requires
            self.wf(),
        ensures
            self.spec_mode().stride == self.spec_mode().width * 4,
            self.spec_mode().width * self.spec_mode().height * 4 <= u32::MAX,
            self.screen().width == self.spec_mode().width,
            self.screen().height == self.spec_mode().height,
            self.back_screen().width == self.spec_mode().width,
            self.back_screen().height == self.spec_mode().height,
    {
    }

    /// The display mode.
    pub closed spec fn spec_mode(&self) -> DisplayMode {
        self.mode
    }

    /// Address of the front buffer.
    pub closed spec fn spec_buffer(&self) -> u64 {
        self.buffer
    }

    /// Address of the back buffer.
    pub closed spec fn spec_back_buffer(&self) -> u64 {
        self.back_buffer
    }

    /// What the front buffer shows.
    pub closed spec fn screen(&self) -> Screen {
        screen_of(self.mode.width as int, self.mode.height as int, self.front@)
    }

    /// What the back buffer holds.
    pub closed spec fn back_screen(&self) -> Screen {
        screen_of(self.mode.width as int, self.mode.height as int, self.back@)
    }

    /// A `width` by `height` RGBA framebuffer at `buffer_addr`, its back
    /// buffer right after it; both start black.
    pub fn new(width: u32, height: u32, buffer_addr: u64) -> (r: Self)
        requires
            width * 4 <= u32::MAX,
            width * height * 4 <= u32::MAX,
            buffer_addr + width * height * 4 <= u64::MAX,
        ensures
            r.wf(),
            r.spec_mode().width == width,
            r.spec_mode().height == height,
            r.spec_mode().stride == width * 4,
            r.spec_mode().format == PixelFormat::RGBA8888,
            r.spec_buffer() == buffer_addr,
            r.spec_back_buffer() == buffer_addr + height * (width * 4),
            r.screen() == screen_of(width as int, height as int, Seq::new((width * height) as nat, |i: int| 0u32)),
            r.screen().width == width && r.screen().height == height,
    {
        let stride = width * 4;
        assert(height * stride == width * height * 4) by (nonlinear_arith)
            requires
                stride == width * 4,
        {
        }
        let count = width as usize * height as usize;
        let front = zeroed(count);
        let back = zeroed(count);
        let r = FramebufferDriver {
            mode: DisplayMode { width, height, stride, format: PixelFormat::RGBA8888 },
            buffer: buffer_addr,
            back_buffer: buffer_addr + (height * stride) as u64,
            front,
            back,
        };
        assert(r.screen() =~= screen_of(width as int, height as int, Seq::new((width * height) as nat, |i: int| 0u32)));
        r
    }
}

impl FramebufferDriver {
    /// Set the pixel at `(x, y)`, if it is on the screen.
    pub fn put_pixel(&mut self, x: u32, y: u32, color: Color)
        requires
            old(self).wf(),
        ensures
            final(self).wf(),
            final(self).spec_mode() == old(self).spec_mode(),
            final(self).spec_buffer() == old(self).spec_buffer(),
            final(self).spec_back_buffer() == old(self).spec_back_buffer(),
            final(self).back_screen() == old(self).back_screen(),
            final(self).screen() == paint(old(self).screen(), point(x as int, y as int), pack(color)),
    {
        let ghost old_screen = self.screen();
        if x < self.mode.width && y < self.mode.height {
            let w = self.mode.width;
            let h = self.mode.height;
            proof {
                lemma_index_bound(w as int, h as int, x as int, y as int);
                assert(y * (w * 4) == (y * w) * 4) by (nonlinear_arith);
                assert(y * w <= w * h) by (nonlinear_arith)
                    requires
                        y < h,
                ;
            }
            let offset = (y * self.mode.stride / 4) + x;
            let value = color.to_u32();
            let ghost before = self.front@;
            self.front.set(offset as usize, value);
            proof {
                assert forall|a: int, b: int| #![trigger (self.screen().px)(a, b)]
                    (self.screen().px)(a, b) == (paint(old_screen, point(x as int, y as int), value).px)(a, b) by {
                    if 0 <= a < w && 0 <= b < h {
                        lemma_index_bound(w as int, h as int, a, b);
                        if b * w + a == offset {
                            lemma_index_unique(w as int, x as int, y as int, a, b);
                        }
                    }
                }
                assert(self.screen() =~= paint(old_screen, point(x as int, y as int), value));
            }
        } else {
            assert(self.screen() =~= paint(old_screen, point(x as int, y as int), pack(color)));
        }
    }

    /// Fill the whole screen with `color`.
    pub fn clear(&mut self, color: Color)
        requires
            old(self).wf(),
        ensures
            final(self).wf(),
            final(self).spec_mode() == old(self).spec_mode(),
            final(self).spec_buffer() == old(self).spec_buffer(),
            final(self).spec_back_buffer() == old(self).spec_back_buffer(),
            final(self).back_screen() == old(self).back_screen(),
            final(self).screen() == paint(old(self).screen(), everywhere(), pack(color)),
    {
        let ghost old_screen = self.screen();
        let w = self.mode.width;
        let h = self.mode.height;
        let pixel_count = (self.mode.stride / 4) * self.mode.height;
        let pixel_value = color.to_u32();
        let mut i: u32 = 0;
        while i < pixel_count
            invariant
                self.wf(),
                self.mode == old(self).mode,
                self.buffer == old(self).buffer,
                self.back_buffer == old(self).back_buffer,
                self.back@ == old(self).back@,
                w == self.mode.width,
                h == self.mode.height,
                pixel_count == w * h,
                i <= pixel_count,
                forall|k: int| 0 <= k < i ==> self.front@[k] == pixel_value,
            decreases pixel_count - i,
        {
            self.front.set(i as usize, pixel_value);
            i += 1;
        }
        proof {
            assert forall|a: int, b: int| #![trigger (self.screen().px)(a, b)]
                (self.screen().px)(a, b) == (paint(old_screen, everywhere(), pixel_value).px)(a, b) by {
                if 0 <= a < w && 0 <= b < h {
                    lemma_index_bound(w as int, h as int, a, b);
                }
            }
            assert(self.screen() =~= paint(old_screen, everywhere(), pixel_value));
        }
    }

    /// Fill the `width` by `height` rectangle at `(x, y)` with `color`.
    pub fn fill_rect(&mut self, x: u32, y: u32, width: u32, height: u32, color: Color)
        requires
            old(self).wf(),
            fill_ok(x, y, width, height),
        ensures
            final(self).wf(),
            final(self).spec_mode() == old(self).spec_mode(),
            final(self).spec_buffer() == old(self).spec_buffer(),
            final(self).spec_back_buffer() == old(self).spec_back_buffer(),
            final(self).back_screen() == old(self).back_screen(),
            final(self).screen() == paint(
                old(self).screen(),
                rect(x as int, y as int, width as int, height as int),
                pack(color),
            ),
    {
        let ghost s0 = self.screen();
        let ghost c = pack(color);
        let mut dy: u32 = 0;
        assert(self.screen() =~= paint(s0, rect(x as int, y as int, width as int, 0), c));
        while dy < height
            invariant
                self.wf(),
                self.spec_mode() == old(self).spec_mode(),
                self.spec_buffer() == old(self).spec_buffer(),
                self.spec_back_buffer() == old(self).spec_back_buffer(),
                self.back_screen() == old(self).back_screen(),
                s0 == old(self).screen(),
                c == pack(color),
                width > 0 && height > 0 ==> x + width <= 0x1_0000_0000 && y + height <= 0x1_0000_0000,
                dy <= height,
                self.screen() == paint(s0, rect(x as int, y as int, width as int, dy as int), c),
            decreases height - dy,
        {
            let mut dx: u32 = 0;
            let ghost row_start = self.screen();
            assert(self.screen() =~= paint(row_start, rect(x as int, (y + dy) as int, 0, 1), c));
            while dx < width
                invariant
                    self.wf(),
                    self.spec_mode() == old(self).spec_mode(),
                    self.spec_buffer() == old(self).spec_buffer(),
                    self.spec_back_buffer() == old(self).spec_back_buffer(),
                    self.back_screen() == old(self).back_screen(),
                    c == pack(color),
                    width > 0 ==> x + width <= 0x1_0000_0000 && y + height <= 0x1_0000_0000,
                    dy < height,
                    dx <= width,
                    row_start == paint(s0, rect(x as int, y as int, width as int, dy as int), c),
                    self.screen() == paint(row_start, rect(x as int, (y + dy) as int, dx as int, 1), c),
                decreases width - dx,
            {
                let ghost before = self.screen();
                self.put_pixel(x + dx, y + dy, color);
                assert(self.screen() =~= paint(row_start, rect(x as int, (y + dy) as int, (dx + 1) as int, 1), c));
                dx += 1;
            }
            assert(self.screen() =~= paint(s0, rect(x as int, y as int, width as int, (dy + 1) as int), c));
            dy += 1;
        }
    }

    /// Draw the outline of the `width` by `height` rectangle at `(x, y)`.
    pub fn draw_rect(&mut self, x: u32, y: u32, width: u32, height: u32, color: Color)
        requires
            old(self).wf(),
            outline_ok(x, y, width, height),
        ensures
            final(self).wf(),
            final(self).spec_mode() == old(self).spec_mode(),
            final(self).spec_buffer() == old(self).spec_buffer(),
            final(self).spec_back_buffer() == old(self).spec_back_buffer(),
            final(self).back_screen() == old(self).back_screen(),
            final(self).screen() == paint(
                old(self).screen(),
                outline(x as int, y as int, width as int, height as int),
                pack(color),
            ),
    {
        let ghost s0 = self.screen();
        let ghost c = pack(color);
        let ghost (xi, yi, wi, hi) = (x as int, y as int, width as int, height as int);
        let ghost top = |a: int, b: int, n: int| xi <= a < xi + n && (b == yi || b == yi + hi - 1);
        let mut dx: u32 = 0;
        assert(self.screen() =~= paint(s0, |a: int, b: int| top(a, b, 0), c));
        while dx < width
            invariant
                self.wf(),
                self.spec_mode() == old(self).spec_mode(),
                self.spec_buffer() == old(self).spec_buffer(),
                self.spec_back_buffer() == old(self).spec_back_buffer(),
                self.back_screen() == old(self).back_screen(),
                s0 == old(self).screen(),
                c == pack(color),
                xi == x && yi == y && wi == width && hi == height,
                top == (|a: int, b: int, n: int| xi <= a < xi + n && (b == yi || b == yi + hi - 1)),
                width > 0 ==> x + width <= 0x1_0000_0000 && y + height >= 1 && y + height <= u32::MAX,
                dx <= width,
                self.screen() == paint(s0, |a: int, b: int| top(a, b, dx as int), c),
            decreases width - dx,
        {
            self.put_pixel(x + dx, y, color);
            self.put_pixel(x + dx, y + height - 1, color);
            assert(self.screen() =~= paint(s0, |a: int, b: int| top(a, b, (dx + 1) as int), c));
            dx += 1;
        }
        let ghost s1 = self.screen();
        let ghost side = |a: int, b: int, n: int| yi <= b < yi + n && (a == xi || a == xi + wi - 1);
        let mut dy: u32 = 0;
        assert(self.screen() =~= paint(s1, |a: int, b: int| side(a, b, 0), c));
        while dy < height
            invariant
                self.wf(),
                self.spec_mode() == old(self).spec_mode(),
                self.spec_buffer() == old(self).spec_buffer(),
                self.spec_back_buffer() == old(self).spec_back_buffer(),
                self.back_screen() == old(self).back_screen(),
                c == pack(color),
                xi == x && yi == y && wi == width && hi == height,
                side == (|a: int, b: int, n: int| yi <= b < yi + n && (a == xi || a == xi + wi - 1)),
                height > 0 ==> y + height <= 0x1_0000_0000 && x + width >= 1 && x + width <= u32::MAX,
                dy <= height,
                self.screen() == paint(s1, |a: int, b: int| side(a, b, dy as int), c),
            decreases height - dy,
        {
            self.put_pixel(x, y + dy, color);
            self.put_pixel(x + width - 1, y + dy, color);
            assert(self.screen() =~= paint(s1, |a: int, b: int| side(a, b, (dy + 1) as int), c));
            dy += 1;
        }
        assert(self.screen() =~= paint(s0, outline(xi, yi, wi, hi), c));
    }

    /// The pixel value at `(x, y)` of the front buffer (what a load from the
    /// buffer at that pixel's offset gives).
    pub fn pixel(&self, x: u32, y: u32) -> (r: u32)
        requires
            self.wf(),
            x < self.spec_mode().width,
            y < self.spec_mode().height,
        ensures
            r == (self.screen().px)(x as int, y as int),
    {
        let w = self.mode.width;
        let h = self.mode.height;
        proof {
            lemma_index_bound(w as int, h as int, x as int, y as int);
            assert(y * w + x < 0x1_0000_0000) by (nonlinear_arith)
                requires
                    y * w + x < w * h,
                    w * h * 4 <= u32::MAX,
            ;
        }
        self.front[(y * w + x) as usize]
    }

    /// Exchange the front and back buffers.
    pub fn swap_buffers(&mut self)
        requires
            old(self).wf(),
        ensures
            final(self).wf(),
            swapped(*old(self), *final(self)),
    {
        let temp = self.buffer;
        self.buffer = self.back_buffer;
        self.back_buffer = temp;
        core::mem::swap(&mut self.front, &mut self.back);
    }
}

/// `|a - b|`.
pub open spec fn abs_diff(a: int, b: int) -> int {
    if a > b { a - b } else { b - a }
}

/// One step of the line walk from `(x0, y0)` to `(x1, y1)` on the state
/// `(x, y, err)`: step along x when `2 * err > -dy`, along y when
/// `2 * err < dx`, adjusting the error term by `dy` and `dx`.
pub open spec fn line_step(x0: int, y0: int, x1: int, y1: int, st: (int, int, int)) -> (int, int, int) {
    let dx = abs_diff(x1, x0);
    let dy = abs_diff(y1, y0);
    let sx: int = if x0 < x1 { 1 } else { -1 };
    let sy: int = if y0 < y1 { 1 } else { -1 };
    let e2 = 2 * st.2;
    let step_x = e2 > -dy;
    let step_y = e2 < dx;
    (
        if step_x { st.0 + sx } else { st.0 },
        if step_y { st.1 + sy } else { st.1 },
        st.2 - (if step_x { dy } else { 0 }) + (if step_y { dx } else { 0 }),
    )
}

/// The state of the line walk after `k` steps; it starts at `(x0, y0)` with
/// error term `dx - dy`.
pub open spec fn line_state(x0: int, y0: int, x1: int, y1: int, k: nat) -> (int, int, int)
    decreases k,
{
    if k == 0 {
        (x0, y0, abs_diff(x1, x0) - abs_diff(y1, y0))
    } else {
        line_step(x0, y0, x1, y1, line_state(x0, y0, x1, y1, (k - 1) as nat))
    }
}

/// The point the line walk is at after `k` steps.
pub open spec fn line_point(x0: int, y0: int, x1: int, y1: int, k: nat) -> (int, int) {
    let st = line_state(x0, y0, x1, y1, k);
    (st.0, st.1)
}

/// The points of the line from `(x0, y0)` to `(x1, y1)`: those the walk
/// visits up to its first arrival at `(x1, y1)`.
pub open spec fn line(x0: int, y0: int, x1: int, y1: int) -> spec_fn(int, int) -> bool {
    |a: int, b: int|
        exists|k: nat|
            #![trigger line_point(x0, y0, x1, y1, k)]
            line_point(x0, y0, x1, y1, k) == (a, b) && forall|m: nat|
                m < k ==> #[trigger] line_point(x0, y0, x1, y1, m) != (x1, y1)
}

/// The points the line walk visits in its first `k` steps.
spec fn walked(x0: int, y0: int, x1: int, y1: int, k: nat) -> spec_fn(int, int) -> bool {
    |a: int, b: int| exists|m: nat| m < k && #[trigger] line_point(x0, y0, x1, y1, m) == (a, b)
}

/// `a` lies between `lo` and `hi`, in either order.
pub open spec fn between(a: int, lo: int, hi: int) -> bool {
    (lo <= a <= hi) || (hi <= a <= lo)
}

/// Bounds of the error term once one coordinate has reached its end.
proof fn lemma_line_axis_done(dx: int, dy: int, i: int, j: int)
    by (nonlinear_arith)
    requires
        0 <= dx,
        0 <= dy,
        0 <= i <= dx,
        0 <= j <= dy,
    ensures
        i == dx && j < dy ==> dx - dy - dy * i + dx * j <= -dy,
        j == dy && i < dx ==> dx - dy - dy * i + dx * j >= dx,
{
    if i == dx && j < dy {
        assert(dx * j <= dx * (dy - 1));
    }
    if j == dy && i < dx {
        assert(dy * i <= dy * (dx - 1));
    }
}
/// The line walk from a state `k` steps in, `i` steps along x and `j` along
/// y, that has not met `(x1, y1)` yet reaches it at some step `kk`, staying
/// in the box of the end points on the way.
proof fn lemma_walk_reaches_end(x0: int, y0: int, x1: int, y1: int, k: nat, i: int, j: int) -> (kk: nat)
    requires
        0 <= i <= abs_diff(x1, x0),
        0 <= j <= abs_diff(y1, y0),
        line_state(x0, y0, x1, y1, k) == (
            if x0 < x1 { x0 + i } else { x0 - i },
            if y0 < y1 { y0 + j } else { y0 - j },
            abs_diff(x1, x0) - abs_diff(y1, y0) - abs_diff(y1, y0) * i + abs_diff(x1, x0) * j,
        ),
        forall|m: nat| m < k ==> #[trigger] line_point(x0, y0, x1, y1, m) != (x1, y1),
        forall|m: nat|
            m <= k ==> between(#[trigger] line_point(x0, y0, x1, y1, m).0, x0, x1) && between(
                line_point(x0, y0, x1, y1, m).1,
                y0,
                y1,
            ),
    ensures
        kk >= k,
        line_point(x0, y0, x1, y1, kk) == (x1, y1),
        forall|m: nat| m < kk ==> #[trigger] line_point(x0, y0, x1, y1, m) != (x1, y1),
        forall|m: nat|
            m <= kk ==> between(#[trigger] line_point(x0, y0, x1, y1, m).0, x0, x1) && between(
                line_point(x0, y0, x1, y1, m).1,
                y0,
                y1,
            ),
    decreases (abs_diff(x1, x0) - i) + (abs_diff(y1, y0) - j),
{
    let dx = abs_diff(x1, x0);
    let dy = abs_diff(y1, y0);
    if line_point(x0, y0, x1, y1, k) == (x1, y1) {
        return k;
    }
    lemma_line_axis_done(dx, dy, i, j);
    let e = dx - dy - dy * i + dx * j;
    let sx = 2 * e > -dy;
    let sy = 2 * e < dx;
    let i2 = if sx { i + 1 } else { i };
    let j2 = if sy { j + 1 } else { j };
    assert(dy * (i + 1) == dy * i + dy) by (nonlinear_arith);
    assert(dx * (j + 1) == dx * j + dx) by (nonlinear_arith);
    assert(line_state(x0, y0, x1, y1, k + 1) == line_step(x0, y0, x1, y1, line_state(x0, y0, x1, y1, k)));
    let kn = (k + 1) as nat;
    assert forall|m: nat| m <= kn implies between(#[trigger] line_point(x0, y0, x1, y1, m).0, x0, x1) && between(
        line_point(x0, y0, x1, y1, m).1,
        y0,
        y1,
    ) by {
        if m < kn {
            assert(m <= k);
        }
    }
    assert forall|m: nat| m < kn implies #[trigger] line_point(x0, y0, x1, y1, m) != (x1, y1) by {
        if m < k {
        }
    }
    lemma_walk_reaches_end(x0, y0, x1, y1, kn, i2, j2)
}

/// The line from `(x0, y0)` to `(x1, y1)` holds both end points and lies in
/// the box they span.
pub proof fn law_line_ends_and_box(x0: int, y0: int, x1: int, y1: int)
    ensures
        line(x0, y0, x1, y1)(x0, y0),
        line(x0, y0, x1, y1)(x1, y1),
        forall|a: int, b: int| #[trigger] line(x0, y0, x1, y1)(a, b) ==> between(a, x0, x1) && between(b, y0, y1),
{
    assert(line_point(x0, y0, x1, y1, 0) == (x0, y0));
    assert forall|m: nat| m <= 0 implies between(#[trigger] line_point(x0, y0, x1, y1, m).0, x0, x1) && between(
        line_point(x0, y0, x1, y1, m).1,
        y0,
        y1,
    ) by {
        assert(m == 0);
    }
    let kk = lemma_walk_reaches_end(x0, y0, x1, y1, 0, 0, 0);
    assert(line(x0, y0, x1, y1)(x1, y1));
    assert(line(x0, y0, x1, y1)(x0, y0));
    assert forall|a: int, b: int| #[trigger] line(x0, y0, x1, y1)(a, b) implies between(a, x0, x1) && between(
        b,
        y0,
        y1,
    ) by {
        let k = choose|k: nat|
            #![trigger line_point(x0, y0, x1, y1, k)]
            line_point(x0, y0, x1, y1, k) == (a, b) && forall|m: nat|
                m < k ==> #[trigger] line_point(x0, y0, x1, y1, m) != (x1, y1);
        if k > kk {
            assert(line_point(x0, y0, x1, y1, kk) == (x1, y1));
        }
        assert(k <= kk);
        assert(between(line_point(x0, y0, x1, y1, k).0, x0, x1));
        assert(line_point(x0, y0, x1, y1, k).0 == a && line_point(x0, y0, x1, y1, k).1 == b);
    }
}

impl FramebufferDriver {
    /// Draw the line from `(x0, y0)` to `(x1, y1)` with Bresenham's walk.
    /// The line holds both end points and lies in the box they span.
    pub fn draw_line(&mut self, x0: u32, y0: u32, x1: u32, y1: u32, color: Color)
        requires
            old(self).wf(),
            line_ok(x0, y0, x1, y1),
        ensures
            final(self).wf(),
            final(self).spec_mode() == old(self).spec_mode(),
            final(self).spec_buffer() == old(self).spec_buffer(),
            final(self).spec_back_buffer() == old(self).spec_back_buffer(),
            final(self).back_screen() == old(self).back_screen(),
            final(self).screen() == paint(
                old(self).screen(),
                line(x0 as int, y0 as int, x1 as int, y1 as int),
                pack(color),
            ),
            line(x0 as int, y0 as int, x1 as int, y1 as int)(x0 as int, y0 as int),
            line(x0 as int, y0 as int, x1 as int, y1 as int)(x1 as int, y1 as int),
            forall|a: int, b: int|
                #[trigger] line(x0 as int, y0 as int, x1 as int, y1 as int)(a, b) ==> between(
                    a,
                    x0 as int,
                    x1 as int,
                ) && between(b, y0 as int, y1 as int),
    {
        let ghost (gx0, gy0, gx1, gy1) = (x0 as int, y0 as int, x1 as int, y1 as int);
        let ghost s0 = self.screen();
        let ghost c = pack(color);
        let dx: i32 = if x1 > x0 { (x1 - x0) as i32 } else { (x0 - x1) as i32 };
        let dy: i32 = if y1 > y0 { (y1 - y0) as i32 } else { (y0 - y1) as i32 };
        let sx: i32 = if x0 < x1 { 1 } else { -1 };
        let sy: i32 = if y0 < y1 { 1 } else { -1 };
        let mut err: i32 = dx - dy;
        let mut x: i32 = x0 as i32;
        let mut y: i32 = y0 as i32;
        let ghost mut k: nat = 0;
        let ghost mut i: int = 0;
        let ghost mut j: int = 0;
        let ghost mut p: int = 0;
        let ghost mut q: int = 0;
        assert(self.screen() =~= paint(s0, walked(gx0, gy0, gx1, gy1, 0), c));
        loop
            invariant_except_break
                forall|m: nat| m < k ==> #[trigger] line_point(gx0, gy0, gx1, gy1, m) != (gx1, gy1),
                self.screen() == paint(s0, walked(gx0, gy0, gx1, gy1, k), c),
            invariant
                self.wf(),
                self.spec_mode() == old(self).spec_mode(),
                self.spec_buffer() == old(self).spec_buffer(),
                self.spec_back_buffer() == old(self).spec_back_buffer(),
                self.back_screen() == old(self).back_screen(),
                s0 == old(self).screen(),
                c == pack(color),
                gx0 == x0 && gy0 == y0 && gx1 == x1 && gy1 == y1,
                x0 <= i32::MAX && x1 <= i32::MAX && y0 <= i32::MAX && y1 <= i32::MAX,
                dx == abs_diff(gx1, gx0),
                dy == abs_diff(gy1, gy0),
                walk_fits(gx0, gy0, gx1, gy1),
                sx == (if x0 < x1 { 1int } else { -1int }),
                sy == (if y0 < y1 { 1int } else { -1int }),
                0 <= i <= dx,
                0 <= j <= dy,
                x == (if x0 < x1 { gx0 + i } else { gx0 - i }),
                y == (if y0 < y1 { gy0 + j } else { gy0 - j }),
                p == dy * i,
                q == dx * j,
                err == dx - dy - p + q,
                line_state(gx0, gy0, gx1, gy1, k) == (x as int, y as int, err as int),
                forall|m: nat|
                    m <= k ==> between(#[trigger] line_point(gx0, gy0, gx1, gy1, m).0, gx0, gx1)
                        && between(line_point(gx0, gy0, gx1, gy1, m).1, gy0, gy1),
            ensures
                forall|m: nat| m < k ==> #[trigger] line_point(gx0, gy0, gx1, gy1, m) != (gx1, gy1),
                line_point(gx0, gy0, gx1, gy1, k) == (gx1, gy1),
                self.screen() == paint(s0, walked(gx0, gy0, gx1, gy1, k + 1), c),
            decreases (dx - i) + (dy - j),
        {
            let ghost before = self.screen();
            assert(line_point(gx0, gy0, gx1, gy1, k) == (x as int, y as int));
            assert(0 <= x && 0 <= y);
            self.put_pixel(x as u32, y as u32, color);
            proof {
                let w = walked(gx0, gy0, gx1, gy1, k);
                let w1 = walked(gx0, gy0, gx1, gy1, k + 1);
                assert forall|a: int, b: int| #[trigger] w1(a, b) == (w(a, b) || point(x as int, y as int)(a, b)) by {
                    if w1(a, b) {
                        let m = choose|m: nat| m < k + 1 && #[trigger] line_point(gx0, gy0, gx1, gy1, m) == (a, b);
                        if m < k {
                            assert(w(a, b));
                        }
                    }
                    if point(x as int, y as int)(a, b) {
                        assert(line_point(gx0, gy0, gx1, gy1, k) == (a, b));
                    }
                    if w(a, b) {
                        let m = choose|m: nat| m < k && #[trigger] line_point(gx0, gy0, gx1, gy1, m) == (a, b);
                        assert(m < k + 1);
                    }
                }
                assert(self.screen() =~= paint(s0, w1, c));
            }
            if x == x1 as i32 && y == y1 as i32 {
                break;
            }
            proof {
                lemma_line_axis_done(dx as int, dy as int, i, j);
                assert forall|m: nat| m <= k implies #[trigger] line_point(gx0, gy0, gx1, gy1, m) != (gx1, gy1) by {
                    if m < k {
                    }
                }
                assert(step_fits(gx0, gy0, gx1, gy1, line_state(gx0, gy0, gx1, gy1, k)));
            }
            let e2 = 2 * err;
            let ghost step_x = e2 > -dy;
            let ghost step_y = e2 < dx;
            if e2 > -dy {
                err -= dy;
                x += sx;
                proof {
                    assert(dy * (i + 1) == dy * i + dy) by (nonlinear_arith);
                    i = i + 1;
                    p = p + dy;
                }
            }
            if e2 < dx {
                err += dx;
                y += sy;
                proof {
                    assert(dx * (j + 1) == dx * j + dx) by (nonlinear_arith);
                    j = j + 1;
                    q = q + dx;
                }
            }
            proof {
                k = k + 1;
                assert(line_state(gx0, gy0, gx1, gy1, k) == (x as int, y as int, err as int));
                assert(line_point(gx0, gy0, gx1, gy1, k) == (x as int, y as int));
                assert(between(x as int, gx0, gx1) && between(y as int, gy0, gy1));
                assert forall|m: nat| m <= k implies between(#[trigger] line_point(gx0, gy0, gx1, gy1, m).0, gx0, gx1)
                    && between(line_point(gx0, gy0, gx1, gy1, m).1, gy0, gy1) by {
                    if m < k {
                        assert(m <= k - 1);
                    }
                }
            }
        }
        proof {
            let ln = line(gx0, gy0, gx1, gy1);
            let w = walked(gx0, gy0, gx1, gy1, k + 1);
            assert forall|a: int, b: int| #[trigger] ln(a, b) == w(a, b) by {
                if ln(a, b) {
                    let m = choose|m: nat|
                        #![trigger line_point(gx0, gy0, gx1, gy1, m)]
                        line_point(gx0, gy0, gx1, gy1, m) == (a, b) && forall|m2: nat|
                            m2 < m ==> #[trigger] line_point(gx0, gy0, gx1, gy1, m2) != (gx1, gy1);
                    if m > k {
                        assert(line_point(gx0, gy0, gx1, gy1, k) != (gx1, gy1));
                    }
                    assert(m < k + 1);
                }
                if w(a, b) {
                    let m = choose|m: nat| m < k + 1 && #[trigger] line_point(gx0, gy0, gx1, gy1, m) == (a, b);
                    assert forall|m2: nat| m2 < m implies #[trigger] line_point(gx0, gy0, gx1, gy1, m2) != (gx1, gy1) by {
                        assert(m2 < k);
                    }
                }
            }
            assert(ln =~= w);
            assert forall|a: int, b: int| #[trigger] ln(a, b) implies between(a, gx0, gx1) && between(b, gy0, gy1) by {
                let m = choose|m: nat| m < k + 1 && #[trigger] line_point(gx0, gy0, gx1, gy1, m) == (a, b);
                assert(between(line_point(gx0, gy0, gx1, gy1, m).0, gx0, gx1));
            }
            assert(self.screen() =~= paint(s0, ln, c));
            assert(line_point(gx0, gy0, gx1, gy1, 0) == (gx0, gy0));
            assert(ln(gx0, gy0));
            assert(ln(gx1, gy1));
        }
    }
}

/// `b` is `a` with its front and back buffers exchanged: addresses and
/// contents trade places, the mode stays.
pub open spec fn swapped(a: FramebufferDriver, b: FramebufferDriver) -> bool {
    &&& b.spec_mode() == a.spec_mode()
    &&& b.spec_buffer() == a.spec_back_buffer()
    &&& b.spec_back_buffer() == a.spec_buffer()
    &&& b.screen() == a.back_screen()
    &&& b.back_screen() == a.screen()
}

/// Double buffering: swapping twice gives back the buffers as they were,
/// and a picture drawn before a swap is on the back buffer after it.
pub proof fn law_swap_twice(a: FramebufferDriver, b: FramebufferDriver, c: FramebufferDriver)
    requires
        swapped(a, b),
        swapped(b, c),
    ensures
        c.spec_mode() == a.spec_mode(),
        c.spec_buffer() == a.spec_buffer(),
        c.spec_back_buffer() == a.spec_back_buffer(),
        c.screen() == a.screen(),
        c.back_screen() == a.back_screen(),
        b.back_screen() == a.screen(),
{
}

fn zeroed(count: usize) -> (r: Vec<u32>)
    ensures
        r@ == Seq::new(count as nat, |i: int| 0u32),
{
    let mut v: Vec<u32> = Vec::with_capacity(count);
    let mut i: usize = 0;
    while i < count
        invariant
            i <= count,
            v@ == Seq::new(i as nat, |k: int| 0u32),
        decreases count - i,
    {
        v.push(0);
        i += 1;
        assert(v@ =~= Seq::new(i as nat, |k: int| 0u32));
    }
    v
}

/// The framebuffer, when there is one, is well formed.
pub open spec fn fb_wf(fb: Option<FramebufferDriver>) -> bool {
    match fb {
        Some(d) => d.wf(),
        None => true,
    }
}

/// What the framebuffer shows (any screen when there is none).
pub open spec fn fb_screen(fb: Option<FramebufferDriver>) -> Screen {
    match fb {
        Some(d) => d.screen(),
        None => Screen { width: 0, height: 0, px: |a: int, b: int| 0u32 },
    }
}

/// `after` is `before` showing `s`, all else kept; with no framebuffer
/// nothing changes.
pub open spec fn fb_redrawn(before: Option<FramebufferDriver>, after: Option<FramebufferDriver>, s: Screen) -> bool {
    match before {
        None => after is None,
        Some(d) => match after {
            None => false,
            Some(e) => {
                &&& e.wf()
                &&& e.spec_mode() == d.spec_mode()
                &&& e.spec_buffer() == d.spec_buffer()
                &&& e.spec_back_buffer() == d.spec_back_buffer()
                &&& e.back_screen() == d.back_screen()
                &&& e.screen() == s
            },
        },
    }
}

/// `after` is `before` with `region` painted in `c` on its screen, all else
/// kept; with no framebuffer nothing changes.
pub open spec fn fb_painted(
    before: Option<FramebufferDriver>,
    after: Option<FramebufferDriver>,
    region: spec_fn(int, int) -> bool,
    c: u32,
) -> bool {
    fb_redrawn(before, after, paint(fb_screen(before), region, c))
}

/// Set up the 1920 by 1080 framebuffer at 0x5000_0000.
pub fn init(fb: &mut Option<FramebufferDriver>)
    ensures
        fb_wf(*final(fb)),
        (*final(fb)) matches Some(d) && d.spec_mode().width == 1920 && d.spec_mode().height == 1080
            && d.spec_mode().stride == 7680 && d.spec_mode().format == PixelFormat::RGBA8888
            && d.spec_buffer() == 0x5000_0000 && d.spec_back_buffer() == 0x5000_0000 + 1080 * 7680
            && d.screen() == screen_of(1920, 1080, Seq::new(1920 * 1080, |i: int| 0u32)),
{
    *fb = Some(FramebufferDriver::new(1920, 1080, 0x5000_0000));
}

/// Fill the screen with `color`.
pub fn clear(fb: &mut Option<FramebufferDriver>, color: Color)
    requires
        fb_wf(*old(fb)),
    ensures
        fb_painted(*old(fb), *final(fb), everywhere(), pack(color)),
{
    match fb {
        Some(d) => d.clear(color),
        None => {},
    }
}

/// Set the pixel at `(x, y)`.
pub fn put_pixel(fb: &mut Option<FramebufferDriver>, x: u32, y: u32, color: Color)
    requires
        fb_wf(*old(fb)),
    ensures
        fb_painted(*old(fb), *final(fb), point(x as int, y as int), pack(color)),
{
    match fb {
        Some(d) => d.put_pixel(x, y, color),
        None => {},
    }
}

/// Fill a rectangle.
pub fn fill_rect(fb: &mut Option<FramebufferDriver>, x: u32, y: u32, width: u32, height: u32, color: Color)
    requires
        fb_wf(*old(fb)),
        (*old(fb)) is Some ==> fill_ok(x, y, width, height),
    ensures
        fb_painted(*old(fb), *final(fb), rect(x as int, y as int, width as int, height as int), pack(color)),
{
    match fb {
        Some(d) => d.fill_rect(x, y, width, height, color),
        None => {},
    }
}

/// Draw a rectangle's outline.
pub fn draw_rect(fb: &mut Option<FramebufferDriver>, x: u32, y: u32, width: u32, height: u32, color: Color)
    requires
        fb_wf(*old(fb)),
        (*old(fb)) is Some ==> outline_ok(x, y, width, height),
    ensures
        fb_painted(*old(fb), *final(fb), outline(x as int, y as int, width as int, height as int), pack(color)),
{
    match fb {
        Some(d) => d.draw_rect(x, y, width, height, color),
        None => {},
    }
}

/// Draw a line.
pub fn draw_line(fb: &mut Option<FramebufferDriver>, x0: u32, y0: u32, x1: u32, y1: u32, color: Color)
    requires
        fb_wf(*old(fb)),
        (*old(fb)) is Some ==> line_ok(x0, y0, x1, y1),
    ensures
        fb_painted(*old(fb), *final(fb), line(x0 as int, y0 as int, x1 as int, y1 as int), pack(color)),
{
    match fb {
        Some(d) => d.draw_line(x0, y0, x1, y1, color),
        None => {},
    }
}

/// The display mode, if there is a framebuffer.
pub fn get_display_mode(fb: &Option<FramebufferDriver>) -> (r: Option<DisplayMode>)
    ensures
        r == match *fb {
            Some(d) => Some(d.spec_mode()),
            None => None::<DisplayMode>,
        },
{
    match fb {
        Some(d) => Some(d.mode),
        None => None,
    }
}

} // verus!

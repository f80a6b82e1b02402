//! The desktop: background, taskbar and wallpaper.

use vstd::prelude::*;
use crate::driver::framebuffer::{
    self, Color, FramebufferDriver, Screen, fb_redrawn, fb_screen, fb_wf, fill_ok, line, line_ok, on_screen, pack,
    paint, rect,
};

verus! {

/// The desktop: its size, taskbar height and colors.
pub struct Desktop {
    pub width: u32,
    pub height: u32,
    pub taskbar_height: u32,
    pub background_color: Color,
    pub taskbar_color: Color,
}

/// Height of the taskbar.
pub const TASKBAR_HEIGHT: u32 = 40;

/// The desktop blue.
pub open spec fn desktop_blue() -> Color {
    Color { r: 60, g: 120, b: 200, a: 255 }
}

/// Rendering `d` stays in 32-bit and `i32` arithmetic.
pub open spec fn desktop_renders(d: Desktop, has_fb: bool) -> bool {
    &&& d.height >= d.taskbar_height
    &&& has_fb ==> fill_ok(0, 0, d.width, (d.height - d.taskbar_height) as u32) && fill_ok(
        0,
        (d.height - d.taskbar_height) as u32,
        d.width,
        d.taskbar_height,
    ) && line_ok(0, (d.height - d.taskbar_height) as u32, d.width, (d.height - d.taskbar_height) as u32)
}

/// What rendering `d` paints: the background above the taskbar, the
/// taskbar, and a black line along the taskbar's top edge.
pub open spec fn desktop_image(s: Screen, d: Desktop) -> Screen {
    let top = d.height - d.taskbar_height;
    let s1 = paint(s, rect(0, 0, d.width as int, top), pack(d.background_color));
    let s2 = paint(s1, rect(0, top, d.width as int, d.taskbar_height as int), pack(d.taskbar_color));
    paint(s2, line(0, top, d.width as int, top), pack(Color { r: 0, g: 0, b: 0, a: 255 }))
}

impl Desktop {
    /// A desktop of the given size: blue background, 40-pixel gray taskbar.
    pub fn new(width: u32, height: u32) -> (r: Self)
        ensures
            r.width == width && r.height == height,
            r.taskbar_height == TASKBAR_HEIGHT,
            r.background_color == desktop_blue(),
            r.taskbar_color == (Color { r: 128, g: 128, b: 128, a: 255 }),
    {
        Desktop {
            width,
            height,
            taskbar_height: TASKBAR_HEIGHT,
            background_color: Color::new(60, 120, 200, 255),
            taskbar_color: framebuffer::color_gray(),
        }
    }

    /// Draw the background, the taskbar and its top border.
    pub fn render(&self, fb: &mut Option<FramebufferDriver>)
        requires
            fb_wf(*old(fb)),
            desktop_renders(*self, (*old(fb)) is Some),
        ensures
            fb_wf(*final(fb)),
            fb_redrawn(*old(fb), *final(fb), desktop_image(fb_screen(*old(fb)), *self)),
    {
        let top = self.height - self.taskbar_height;
        framebuffer::fill_rect(fb, 0, 0, self.width, top, self.background_color);
        framebuffer::fill_rect(fb, 0, top, self.width, self.taskbar_height, self.taskbar_color);
        framebuffer::draw_line(fb, 0, top, self.width, top, framebuffer::color_black());
    }

    /// The taskbar: `(x, y, width, height)`.
    pub fn get_taskbar_rect(&self) -> (r: (u32, u32, u32, u32))
        requires
            self.height >= self.taskbar_height,
        ensures
            r == taskbar_rect(*self),
    {
        (0, self.height - self.taskbar_height, self.width, self.taskbar_height)
    }

    /// The area above the taskbar: `(x, y, width, height)`.
    pub fn get_client_area(&self) -> (r: (u32, u32, u32, u32))
        requires
            self.height >= self.taskbar_height,
        ensures
            r == client_area(*self),
    {
        (0, 0, self.width, self.height - self.taskbar_height)
    }
}

/// The taskbar: `(x, y, width, height)`.
pub open spec fn taskbar_rect(d: Desktop) -> (u32, u32, u32, u32) {
    (0u32, (d.height - d.taskbar_height) as u32, d.width, d.taskbar_height)
}

/// The area above the taskbar: `(x, y, width, height)`.
pub open spec fn client_area(d: Desktop) -> (u32, u32, u32, u32) {
    (0u32, 0u32, d.width, (d.height - d.taskbar_height) as u32)
}

/// The rectangle a `(x, y, width, height)` tuple names.
pub open spec fn tuple_rect(t: (u32, u32, u32, u32)) -> spec_fn(int, int) -> bool {
    rect(t.0 as int, t.1 as int, t.2 as int, t.3 as int)
}

/// The client area and the taskbar do not overlap and together cover the
/// desktop.
pub proof fn law_taskbar_client_partition(d: Desktop, a: int, b: int)
    requires
        d.height >= d.taskbar_height,
    ensures
        !(tuple_rect(client_area(d))(a, b) && tuple_rect(taskbar_rect(d))(a, b)),
        (0 <= a < d.width && 0 <= b < d.height) == (tuple_rect(client_area(d))(a, b) || tuple_rect(taskbar_rect(d))(
            a,
            b,
        )),
{
}

/// Set up the desktop on the framebuffer, if there is one, and draw it.
pub fn init(desktop: &mut Option<Desktop>, fb: &mut Option<FramebufferDriver>)
    requires
        fb_wf(*old(fb)),
        (*old(fb)) matches Some(d) ==> desktop_renders(
            Desktop {
                width: d.spec_mode().width,
                height: d.spec_mode().height,
                taskbar_height: TASKBAR_HEIGHT,
                background_color: desktop_blue(),
                taskbar_color: Color { r: 128, g: 128, b: 128, a: 255 },
            },
            true,
        ),
    ensures
        fb_wf(*final(fb)),
        match *old(fb) {
            None => *final(desktop) == *old(desktop) && *final(fb) is None,
            Some(f) => (*final(desktop)) matches Some(d) && d == (Desktop {
                width: f.spec_mode().width,
                height: f.spec_mode().height,
                taskbar_height: TASKBAR_HEIGHT,
                background_color: desktop_blue(),
                taskbar_color: Color { r: 128, g: 128, b: 128, a: 255 },
            }) && fb_redrawn(*old(fb), *final(fb), desktop_image(fb_screen(*old(fb)), d)),
        },
{
    if let Some(mode) = framebuffer::get_display_mode(fb) {
        let d = Desktop::new(mode.width, mode.height);
        d.render(fb);
        *desktop = Some(d);
    }
}

/// Draw the desktop, if it is set up.
pub fn render(desktop: &Option<Desktop>, fb: &mut Option<FramebufferDriver>)
    requires
        fb_wf(*old(fb)),
        (*desktop) matches Some(d) ==> desktop_renders(d, (*old(fb)) is Some),
    ensures
        fb_wf(*final(fb)),
        match *desktop {
            None => *final(fb) == *old(fb),
            Some(d) => fb_redrawn(*old(fb), *final(fb), desktop_image(fb_screen(*old(fb)), d)),
        },
{
    if let Some(d) = desktop {
        d.render(fb);
    }
}

/// A copy of the desktop, if it is set up.
pub fn get_desktop(desktop: &Option<Desktop>) -> (r: Option<Desktop>)
    ensures
        r == *desktop,
{
    match desktop {
        Some(d) => Some(
            Desktop {
                width: d.width,
                height: d.height,
                taskbar_height: d.taskbar_height,
                background_color: d.background_color,
                taskbar_color: d.taskbar_color,
            },
        ),
        None => None,
    }
}

/// The status text is not drawn yet: updating it changes nothing.
pub fn update_status(status_text: &str) {
}

/// Side of a wallpaper tile.
pub const TILE: u64 = 32;

/// The wallpaper color of the tile in column `tx` and row `ty` of a screen
/// `cols` tiles wide: the two blues alternate along the tiles in row-major
/// order, the darker one first.
pub open spec fn tile_color(cols: int, tx: int, ty: int) -> u32 {
    if (ty * cols + tx) % 2 == 0 {
        pack(Color { r: 50, g: 110, b: 190, a: 255 })
    } else {
        pack(Color { r: 60, g: 120, b: 200, a: 255 })
    }
}

/// Tiles across a screen `width` pixels wide, the last one cut off.
pub open spec fn tile_columns(width: int) -> int {
    (width + 31) / 32
}

/// The screen with the tiles before row `ty`, and those before column `tx`
/// in row `ty`, painted in the wallpaper pattern.
pub open spec fn wallpaper_part(s: Screen, ty: int, tx: int) -> Screen {
    Screen {
        px: |a: int, b: int|
            if on_screen(s, a, b) && (b / 32 < ty || (b / 32 == ty && a / 32 < tx)) {
                tile_color(tile_columns(s.width), a / 32, b / 32)
            } else {
                (s.px)(a, b)
            },
        ..s
    }
}

/// The screen covered with the checkerboard wallpaper of 32-pixel tiles.
pub open spec fn wallpaper_image(s: Screen) -> Screen {
    Screen {
        px: |a: int, b: int|
            if on_screen(s, a, b) {
                tile_color(tile_columns(s.width), a / 32, b / 32)
            } else {
                (s.px)(a, b)
            },
        ..s
    }
}

/// Cover the screen, if there is one, with a checkerboard of 32-pixel tiles
/// in two blues.
pub fn draw_wallpaper(fb: &mut Option<FramebufferDriver>)
    requires
        fb_wf(*old(fb)),
    ensures
        fb_wf(*final(fb)),
        fb_redrawn(*old(fb), *final(fb), wallpaper_image(fb_screen(*old(fb)))),
{
    let ghost f0 = *fb;
    let ghost s0 = fb_screen(*fb);
    if let Some(mode) = framebuffer::get_display_mode(fb) {
        proof {
            f0->0.lemma_wf_facts();
        }
        let mut color_idx: u32 = 0;
        let colors = [Color::new(60, 120, 200, 255), Color::new(50, 110, 190, 255)];
        let width = mode.width as u64;
        let height = mode.height as u64;
        let ghost cols = tile_columns(width as int);
        let ghost mut ty: int = 0;
        let ghost mut k: int = 0;
        let mut y: u64 = 0;
        assert(wallpaper_part(s0, 0, 0) =~= s0);
        while y < height
            invariant
                f0 == *old(fb),
                f0 is Some,
                s0 == fb_screen(f0),
                s0.width == width && s0.height == height,
                width * height * 4 <= u32::MAX,
                width <= u32::MAX && height <= u32::MAX,
                colors@ == seq![Color { r: 60, g: 120, b: 200, a: 255 }, Color { r: 50, g: 110, b: 190, a: 255 }],
                cols == tile_columns(width as int),
                y == 32 * ty,
                ty >= 0,
                k == ty * cols,
                color_idx == k % 2,
                fb_wf(*fb),
                fb_redrawn(f0, *fb, wallpaper_part(s0, ty, 0)),
            decreases height + 32 - y,
        {
            assert(width * 4 <= u32::MAX) by (nonlinear_arith)
                requires
                    width * height * 4 <= u32::MAX,
                    y < height,
            ;
            let mut x: u64 = 0;
            let ghost mut tx: int = 0;
            while x < width
                invariant
                    f0 == *old(fb),
                    f0 is Some,
                    s0 == fb_screen(f0),
                    s0.width == width && s0.height == height,
                    width * 4 <= u32::MAX,
                    y < height,
                    height <= u32::MAX,
                    colors@ == seq![Color { r: 60, g: 120, b: 200, a: 255 }, Color { r: 50, g: 110, b: 190, a: 255 }],
                    cols == tile_columns(width as int),
                    y == 32 * ty,
                    ty >= 0,
                    x == 32 * tx,
                    0 <= tx <= cols,
                    k == ty * cols + tx,
                    color_idx == k % 2,
                    fb_wf(*fb),
                    fb_redrawn(f0, *fb, wallpaper_part(s0, ty, tx)),
                decreases width + 32 - x,
            {
                color_idx ^= 1;
                assert(color_idx == (k + 1) % 2) by {
                    assert((k % 2 == 0) ==> (0u32 ^ 1u32) == 1u32) by (bit_vector);
                    assert((1u32 ^ 1u32) == 0u32) by (bit_vector);
                }
                let ghost before = fb_screen(*fb);
                framebuffer::fill_rect(fb, x as u32, y as u32, 32, 32, colors[color_idx as usize]);
                proof {
                    let c = pack(colors@[color_idx as int]);
                    assert(c == tile_color(cols, tx, ty));
                    assert(paint(wallpaper_part(s0, ty, tx), rect(x as int, y as int, 32, 32), c) =~= wallpaper_part(
                        s0,
                        ty,
                        tx + 1,
                    ));
                    tx = tx + 1;
                    k = k + 1;
                }
                x = x + 32;
            }
            proof {
                assert(wallpaper_part(s0, ty, tx) =~= wallpaper_part(s0, ty + 1, 0));
                assert((ty + 1) * cols == ty * cols + cols) by (nonlinear_arith);
                ty = ty + 1;
            }
            y = y + 32;
        }
        assert(wallpaper_part(s0, ty, 0) =~= wallpaper_image(s0));
    }
}

} // verus!

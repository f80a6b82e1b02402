//! The About application, with the 5x7 bitmap font it draws its text in.

use vstd::prelude::*;
use vstd::string::StringSliceAdditionalSpecFns;
use crate::driver::framebuffer::{
    self, Color, FramebufferDriver, Screen, fb_redrawn, fb_screen, fb_wf, outline, pack, paint, rect,
};
use crate::gui::app::{self, AppRegistry, AppRegistryModel, register_outcome, running, unregister_outcome, with_window};
use crate::gui::window::{self, WindowId, WindowManager, WindowManagerModel, create_outcome, destroy_outcome, title_outcome};

verus! {

/// The rows of the 5x7 glyph for `ch`, top first; bit 4 of a row is its
/// leftmost column. Bytes without a glyph get a question mark.
pub open spec fn glyph(ch: u8) -> Seq<u8> {
    match ch {
        65u8 => seq![0x0E, 0x11, 0x11, 0x1F, 0x11, 0x11, 0x11],
        66u8 => seq![0x1E, 0x11, 0x11, 0x1E, 0x11, 0x11, 0x1E],
        67u8 => seq![0x0E, 0x11, 0x10, 0x10, 0x10, 0x11, 0x0E],
        68u8 => seq![0x1E, 0x11, 0x11, 0x11, 0x11, 0x11, 0x1E],
        69u8 => seq![0x1F, 0x10, 0x10, 0x1E, 0x10, 0x10, 0x1F],
        70u8 => seq![0x1F, 0x10, 0x10, 0x1E, 0x10, 0x10, 0x10],
        71u8 => seq![0x0E, 0x11, 0x10, 0x17, 0x11, 0x11, 0x0F],
        72u8 => seq![0x11, 0x11, 0x11, 0x1F, 0x11, 0x11, 0x11],
        73u8 => seq![0x0E, 0x04, 0x04, 0x04, 0x04, 0x04, 0x0E],
        74u8 => seq![0x01, 0x01, 0x01, 0x01, 0x11, 0x11, 0x0E],
        75u8 => seq![0x11, 0x12, 0x14, 0x18, 0x14, 0x12, 0x11],
        76u8 => seq![0x10, 0x10, 0x10, 0x10, 0x10, 0x10, 0x1F],
        77u8 => seq![0x11, 0x1B, 0x15, 0x15, 0x11, 0x11, 0x11],
        78u8 => seq![0x11, 0x19, 0x15, 0x13, 0x11, 0x11, 0x11],
        79u8 => seq![0x0E, 0x11, 0x11, 0x11, 0x11, 0x11, 0x0E],
        80u8 => seq![0x1E, 0x11, 0x11, 0x1E, 0x10, 0x10, 0x10],
        81u8 => seq![0x0E, 0x11, 0x11, 0x11, 0x15, 0x12, 0x0D],
        82u8 => seq![0x1E, 0x11, 0x11, 0x1E, 0x14, 0x12, 0x11],
        83u8 => seq![0x0F, 0x10, 0x10, 0x0E, 0x01, 0x01, 0x1E],
        84u8 => seq![0x1F, 0x04, 0x04, 0x04, 0x04, 0x04, 0x04],
        85u8 => seq![0x11, 0x11, 0x11, 0x11, 0x11, 0x11, 0x0E],
        86u8 => seq![0x11, 0x11, 0x11, 0x11, 0x11, 0x0A, 0x04],
        87u8 => seq![0x11, 0x11, 0x11, 0x15, 0x15, 0x15, 0x0A],
        88u8 => seq![0x11, 0x11, 0x0A, 0x04, 0x0A, 0x11, 0x11],
        89u8 => seq![0x11, 0x11, 0x0A, 0x04, 0x04, 0x04, 0x04],
        90u8 => seq![0x1F, 0x01, 0x02, 0x04, 0x08, 0x10, 0x1F],
        48u8 => seq![0x0E, 0x11, 0x13, 0x15, 0x19, 0x11, 0x0E],
        49u8 => seq![0x04, 0x0C, 0x04, 0x04, 0x04, 0x04, 0x0E],
        50u8 => seq![0x0E, 0x11, 0x01, 0x02, 0x04, 0x08, 0x1F],
        51u8 => seq![0x1E, 0x01, 0x01, 0x0E, 0x01, 0x01, 0x1E],
        52u8 => seq![0x02, 0x06, 0x0A, 0x12, 0x1F, 0x02, 0x02],
        53u8 => seq![0x1F, 0x10, 0x10, 0x1E, 0x01, 0x01, 0x1E],
        54u8 => seq![0x0E, 0x10, 0x10, 0x1E, 0x11, 0x11, 0x0E],
        55u8 => seq![0x1F, 0x01, 0x02, 0x04, 0x08, 0x08, 0x08],
        56u8 => seq![0x0E, 0x11, 0x11, 0x0E, 0x11, 0x11, 0x0E],
        57u8 => seq![0x0E, 0x11, 0x11, 0x0F, 0x01, 0x01, 0x0E],
        46u8 => seq![0x00, 0x00, 0x00, 0x00, 0x00, 0x0C, 0x0C],
        58u8 => seq![0x00, 0x0C, 0x0C, 0x00, 0x0C, 0x0C, 0x00],
        45u8 => seq![0x00, 0x00, 0x00, 0x1F, 0x00, 0x00, 0x00],
        43u8 => seq![0x00, 0x04, 0x04, 0x1F, 0x04, 0x04, 0x00],
        47u8 => seq![0x01, 0x02, 0x02, 0x04, 0x08, 0x08, 0x10],
        32u8 => seq![0x00, 0x00, 0x00, 0x00, 0x00, 0x00, 0x00],
        _ => seq![0x1F, 0x11, 0x01, 0x02, 0x04, 0x00, 0x04],
    }
}

fn glyph_for(ch: u8) -> (r: [u8; 7])
    ensures
        r@ == glyph(ch),
{
    match ch {
        65 => [0x0E, 0x11, 0x11, 0x1F, 0x11, 0x11, 0x11], // 'A'
        66 => [0x1E, 0x11, 0x11, 0x1E, 0x11, 0x11, 0x1E], // 'B'
        67 => [0x0E, 0x11, 0x10, 0x10, 0x10, 0x11, 0x0E], // 'C'
        68 => [0x1E, 0x11, 0x11, 0x11, 0x11, 0x11, 0x1E], // 'D'
        69 => [0x1F, 0x10, 0x10, 0x1E, 0x10, 0x10, 0x1F], // 'E'
        70 => [0x1F, 0x10, 0x10, 0x1E, 0x10, 0x10, 0x10], // 'F'
        71 => [0x0E, 0x11, 0x10, 0x17, 0x11, 0x11, 0x0F], // 'G'
        72 => [0x11, 0x11, 0x11, 0x1F, 0x11, 0x11, 0x11], // 'H'
        73 => [0x0E, 0x04, 0x04, 0x04, 0x04, 0x04, 0x0E], // 'I'
        74 => [0x01, 0x01, 0x01, 0x01, 0x11, 0x11, 0x0E], // 'J'
        75 => [0x11, 0x12, 0x14, 0x18, 0x14, 0x12, 0x11], // 'K'
        76 => [0x10, 0x10, 0x10, 0x10, 0x10, 0x10, 0x1F], // 'L'
        77 => [0x11, 0x1B, 0x15, 0x15, 0x11, 0x11, 0x11], // 'M'
        78 => [0x11, 0x19, 0x15, 0x13, 0x11, 0x11, 0x11], // 'N'
        79 => [0x0E, 0x11, 0x11, 0x11, 0x11, 0x11, 0x0E], // 'O'
        80 => [0x1E, 0x11, 0x11, 0x1E, 0x10, 0x10, 0x10], // 'P'
        81 => [0x0E, 0x11, 0x11, 0x11, 0x15, 0x12, 0x0D], // 'Q'
        82 => [0x1E, 0x11, 0x11, 0x1E, 0x14, 0x12, 0x11], // 'R'
        83 => [0x0F, 0x10, 0x10, 0x0E, 0x01, 0x01, 0x1E], // 'S'
        84 => [0x1F, 0x04, 0x04, 0x04, 0x04, 0x04, 0x04], // 'T'
        85 => [0x11, 0x11, 0x11, 0x11, 0x11, 0x11, 0x0E], // 'U'
        86 => [0x11, 0x11, 0x11, 0x11, 0x11, 0x0A, 0x04], // 'V'
        87 => [0x11, 0x11, 0x11, 0x15, 0x15, 0x15, 0x0A], // 'W'
        88 => [0x11, 0x11, 0x0A, 0x04, 0x0A, 0x11, 0x11], // 'X'
        89 => [0x11, 0x11, 0x0A, 0x04, 0x04, 0x04, 0x04], // 'Y'
        90 => [0x1F, 0x01, 0x02, 0x04, 0x08, 0x10, 0x1F], // 'Z'
        48 => [0x0E, 0x11, 0x13, 0x15, 0x19, 0x11, 0x0E], // '0'
        49 => [0x04, 0x0C, 0x04, 0x04, 0x04, 0x04, 0x0E], // '1'
        50 => [0x0E, 0x11, 0x01, 0x02, 0x04, 0x08, 0x1F], // '2'
        51 => [0x1E, 0x01, 0x01, 0x0E, 0x01, 0x01, 0x1E], // '3'
        52 => [0x02, 0x06, 0x0A, 0x12, 0x1F, 0x02, 0x02], // '4'
        53 => [0x1F, 0x10, 0x10, 0x1E, 0x01, 0x01, 0x1E], // '5'
        54 => [0x0E, 0x10, 0x10, 0x1E, 0x11, 0x11, 0x0E], // '6'
        55 => [0x1F, 0x01, 0x02, 0x04, 0x08, 0x08, 0x08], // '7'
        56 => [0x0E, 0x11, 0x11, 0x0E, 0x11, 0x11, 0x0E], // '8'
        57 => [0x0E, 0x11, 0x11, 0x0F, 0x01, 0x01, 0x0E], // '9'
        46 => [0x00, 0x00, 0x00, 0x00, 0x00, 0x0C, 0x0C], // '.'
        58 => [0x00, 0x0C, 0x0C, 0x00, 0x0C, 0x0C, 0x00], // ':'
        45 => [0x00, 0x00, 0x00, 0x1F, 0x00, 0x00, 0x00], // '-'
        43 => [0x00, 0x04, 0x04, 0x1F, 0x04, 0x04, 0x00], // '+'
        47 => [0x01, 0x02, 0x02, 0x04, 0x08, 0x08, 0x10], // '/'
        32 => [0x00, 0x00, 0x00, 0x00, 0x00, 0x00, 0x00], // ' '
        _ => [0x1F, 0x11, 0x01, 0x02, 0x04, 0x00, 0x04],
    }
}

/// Column `col` (0 to 4, left to right) of glyph row `bits` is set.
pub open spec fn glyph_bit(bits: u8, col: int) -> bool {
    bits & (1u8 << ((4 - col) as u8)) != 0
}

/// The cell of glyph row `row`, column `col` at scale `scale`.
pub open spec fn cell(x: int, y: int, scale: int, row: int, col: int) -> spec_fn(int, int) -> bool {
    rect(x + col * scale, y + row * scale, scale, scale)
}

/// The cells among the first `n` (row by row) that the glyph of `ch` sets.
pub open spec fn glyph_cells(ch: u8, x: int, y: int, scale: int, n: int) -> spec_fn(int, int) -> bool {
    |a: int, b: int|
        exists|row: int, col: int|
            0 <= row < 7 && 0 <= col < 5 && row * 5 + col < n && glyph_bit(glyph(ch)[row], col) && #[trigger] cell(
                x,
                y,
                scale,
                row,
                col,
            )(a, b)
}

/// The points the glyph of `ch` covers, drawn at `(x, y)` with cells
/// `scale` pixels wide.
pub open spec fn glyph_region(ch: u8, x: int, y: int, scale: int) -> spec_fn(int, int) -> bool {
    glyph_cells(ch, x, y, scale, 35)
}

/// One more cell, if its bit is set, grows the region by that cell.
proof fn lemma_glyph_cells_step(ch: u8, x: int, y: int, scale: int, row: int, col: int)
    requires
        0 <= row < 7,
        0 <= col < 5,
    ensures
        forall|a: int, b: int|
            #[trigger] glyph_cells(ch, x, y, scale, row * 5 + col + 1)(a, b) == (glyph_cells(ch, x, y, scale, row * 5 + col)(a, b)
                || (glyph_bit(glyph(ch)[row], col) && cell(x, y, scale, row, col)(a, b))),
{
    let n = row * 5 + col;
    assert forall|a: int, b: int|
        #[trigger] glyph_cells(ch, x, y, scale, n + 1)(a, b) == (glyph_cells(ch, x, y, scale, n)(a, b) || (glyph_bit(
            glyph(ch)[row],
            col,
        ) && cell(x, y, scale, row, col)(a, b))) by {
        if glyph_cells(ch, x, y, scale, n + 1)(a, b) {
            let (rr, cc) = choose|rr: int, cc: int|
                0 <= rr < 7 && 0 <= cc < 5 && rr * 5 + cc < n + 1 && glyph_bit(glyph(ch)[rr], cc) && #[trigger] cell(
                    x,
                    y,
                    scale,
                    rr,
                    cc,
                )(a, b);
            if rr * 5 + cc == n {
                assert(rr == row && cc == col);
            }
        }
        if glyph_bit(glyph(ch)[row], col) && cell(x, y, scale, row, col)(a, b) {
            assert(row * 5 + col < n + 1);
        }
    }
}

/// Draw the glyph of `ch` at `(x, y)` with cells `scale` pixels wide.
fn draw_char(fb: &mut Option<FramebufferDriver>, ch: u8, x: u32, y: u32, scale: u32, color: Color)
    requires
        fb_wf(*old(fb)),
        x + 5 * scale <= u32::MAX,
        y + 7 * scale <= u32::MAX,
    ensures
        fb_wf(*final(fb)),
        fb_redrawn(
            *old(fb),
            *final(fb),
            paint(fb_screen(*old(fb)), glyph_region(ch, x as int, y as int, scale as int), pack(color)),
        ),
{
    let rows = glyph_for(ch);
    let ghost f0 = *fb;
    let ghost s0 = fb_screen(*fb);
    let ghost c = pack(color);
    let ghost (xi, yi, si) = (x as int, y as int, scale as int);
    proof {
        framebuffer::lemma_paint_same_region(s0, glyph_cells(ch, xi, yi, si, 0), |a: int, b: int| false, c);
        assert(paint(s0, |a: int, b: int| false, c) =~= s0);
    }
    let mut row: usize = 0;
    while row < 7
        invariant
            rows@ == glyph(ch),
            f0 == *old(fb),
            s0 == fb_screen(f0),
            c == pack(color),
            xi == x && yi == y && si == scale,
            x + 5 * scale <= u32::MAX,
            y + 7 * scale <= u32::MAX,
            row <= 7,
            fb_wf(*fb),
            fb_redrawn(f0, *fb, paint(s0, glyph_cells(ch, xi, yi, si, row * 5), c)),
        decreases 7 - row,
    {
        let bits = rows[row];
        let mut col: usize = 0;
        while col < 5
            invariant
                rows@ == glyph(ch),
                bits == glyph(ch)[row as int],
                f0 == *old(fb),
                s0 == fb_screen(f0),
                c == pack(color),
                xi == x && yi == y && si == scale,
                x + 5 * scale <= u32::MAX,
                y + 7 * scale <= u32::MAX,
                row < 7,
                col <= 5,
                fb_wf(*fb),
                fb_redrawn(f0, *fb, paint(s0, glyph_cells(ch, xi, yi, si, row * 5 + col), c)),
            decreases 5 - col,
        {
            let ghost before = fb_screen(*fb);
            proof {
                lemma_glyph_cells_step(ch, xi, yi, si, row as int, col as int);
            }
            if bits & (1u8 << ((4 - col) as u8)) != 0 {
                proof {
                    assert(col * scale <= 4 * scale) by (nonlinear_arith)
                        requires
                            col < 5,
                    ;
                    assert(row * scale <= 6 * scale) by (nonlinear_arith)
                        requires
                            row < 7,
                    ;
                }
                framebuffer::fill_rect(fb, x + (col as u32 * scale), y + (row as u32 * scale), scale, scale, color);
                proof {
                    framebuffer::lemma_paint_union(
                        s0,
                        glyph_cells(ch, xi, yi, si, row * 5 + col),
                        cell(xi, yi, si, row as int, col as int),
                        glyph_cells(ch, xi, yi, si, row * 5 + col + 1),
                        c,
                    );
                }
            } else {
                proof {
                    framebuffer::lemma_paint_same_region(
                        s0,
                        glyph_cells(ch, xi, yi, si, row * 5 + col),
                        glyph_cells(ch, xi, yi, si, row * 5 + col + 1),
                        c,
                    );
                }
            }
            col += 1;
        }
        row += 1;
    }
}

/// The screen and the cursor after drawing the first `n` bytes of `text`
/// from `(x, y)`: each byte but a newline draws its glyph at the cursor and
/// moves it `6 * scale` right; a newline moves it back to `x`.
pub open spec fn text_state(s: Screen, text: Seq<u8>, x: int, y: int, scale: int, c: u32, n: nat) -> (Screen, int)
    decreases n,
{
    if n == 0 {
        (s, x)
    } else {
        let prev = text_state(s, text, x, y, scale, c, (n - 1) as nat);
        let b = text[n - 1];
        if b == 10 {
            (prev.0, x)
        } else {
            (paint(prev.0, glyph_region(b, prev.1, y, scale), c), prev.1 + 6 * scale)
        }
    }
}

/// The screen after drawing `text` from `(x, y)`.
pub open spec fn text_image(s: Screen, text: Seq<u8>, x: int, y: int, scale: int, c: u32) -> Screen {
    text_state(s, text, x, y, scale, c, text.len()).0
}

/// The text fits on a 32-bit line: `6 * scale` per byte from `x`, `7 *
/// scale` down from `y`.
pub open spec fn text_fits(len: nat, x: u32, y: u32, scale: u32) -> bool {
    x + 6 * scale * len <= u32::MAX && y + 7 * scale <= u32::MAX
}

/// Draw `text` from `(x, y)`.
fn draw_text(fb: &mut Option<FramebufferDriver>, text: &str, x: u32, y: u32, scale: u32, color: Color)
    requires
        fb_wf(*old(fb)),
        text_fits(text.spec_bytes().len(), x, y, scale),
    ensures
        fb_wf(*final(fb)),
        fb_redrawn(
            *old(fb),
            *final(fb),
            text_image(fb_screen(*old(fb)), text.spec_bytes(), x as int, y as int, scale as int, pack(color)),
        ),
{
    let bytes = text.as_bytes();
    let ghost f0 = *fb;
    let ghost s0 = fb_screen(*fb);
    let ghost c = pack(color);
    let mut cursor_x = x;
    let mut i: usize = 0;
    while i < bytes.len()
        invariant
            bytes@ == text.spec_bytes(),
            f0 == *old(fb),
            s0 == fb_screen(f0),
            c == pack(color),
            text_fits(bytes@.len(), x, y, scale),
            i <= bytes@.len(),
            fb_wf(*fb),
            fb_redrawn(f0, *fb, text_state(s0, bytes@, x as int, y as int, scale as int, c, i as nat).0),
            cursor_x == text_state(s0, bytes@, x as int, y as int, scale as int, c, i as nat).1,
            x <= cursor_x <= x + 6 * scale * i,
        decreases bytes@.len() - i,
    {
        let byte = bytes[i];
        proof {
            assert(6 * scale * i + 6 * scale <= 6 * scale * bytes@.len()) by (nonlinear_arith)
                requires
                    i < bytes@.len(),
            ;
        }
        if byte == 10 {
            cursor_x = x;
        } else {
            draw_char(fb, byte, cursor_x, y, scale, color);
            cursor_x += 6 * scale;
        }
        proof {
            assert(6 * scale * i + 6 * scale == 6 * scale * (i + 1)) by (nonlinear_arith);
        }
        i += 1;
    }
}

/// Version shown on the About page.
pub const VERSION: &'static str = "0.1.0";
/// Build date shown on the About page.
pub const BUILD_DATE: &'static str = "2026-05-27";
/// Author shown on the About page.
pub const AUTHOR: &'static str = "Vorzax Team";

/// Width of the About window.
pub const ABOUT_WIDTH: u32 = 560;
/// Height of the About window.
pub const ABOUT_HEIGHT: u32 = 380;
/// Height of its title bar.
pub const TITLE_HEIGHT: u32 = 28;
/// Margin around its content panel.
pub const PADDING: u32 = 18;

/// Title-bar blue.
fn header_bg() -> (c: Color)
    ensures
        c == (Color { r: 18, g: 72, b: 142, a: 255 }),
{
    Color::new(18, 72, 142, 255)
}

/// Content-panel background.
fn panel_bg() -> (c: Color)
    ensures
        c == (Color { r: 242, g: 246, b: 250, a: 255 }),
{
    Color::new(242, 246, 250, 255)
}

/// Accent green.
fn accent() -> (c: Color)
    ensures
        c == (Color { r: 0, g: 128, b: 96, a: 255 }),
{
    Color::new(0, 128, 96, 255)
}

/// Body text color.
fn text_color() -> (c: Color)
    ensures
        c == (Color { r: 24, g: 31, b: 42, a: 255 }),
{
    Color::new(24, 31, 42, 255)
}

/// Secondary text color.
fn muted() -> (c: Color)
    ensures
        c == (Color { r: 82, g: 92, b: 106, a: 255 }),
{
    Color::new(82, 92, 106, 255)
}

/// The About application: its id, its window and what it reports.
pub struct AboutApp {
    pub id: u32,
    pub window_id: WindowId,
    pub version: &'static str,
    pub build_date: &'static str,
    pub author: &'static str,
}

/// The summary lines `info_text` returns.
pub open spec fn info_lines() -> Seq<&'static str> {
    seq![
        "VORZAX OS",
        "ARM64 OPERATING SYSTEM WITH GUI DESKTOP",
        "VERSION 0.1.0",
        "BUILD DATE 2026-05-27",
        "AUTHOR VORZAX TEAM",
        "TARGET AARCH64",
        "BOOT UEFI",
        "KERNEL MONOLITHIC",
    ]
}

/// The detail lines drawn in the content panel.
pub open spec fn about_lines() -> Seq<Seq<u8>> {
    seq![
        "VERSION      0.1.0".spec_bytes(),
        "BUILD DATE   2026-05-27".spec_bytes(),
        "TARGET       ARM64 AARCH64".spec_bytes(),
        "BOOT         UEFI".spec_bytes(),
        "KERNEL       MONOLITHIC".spec_bytes(),
        "LANGUAGE     RUST + ASSEMBLY".spec_bytes(),
        "GUI          DESKTOP WINDOWS WIDGETS".spec_bytes(),
    ]
}

/// The screen after drawing the first `n` detail lines, 24 pixels apart
/// from y = 214.
pub open spec fn lines_image(s: Screen, n: nat) -> Screen
    decreases n,
{
    if n == 0 {
        s
    } else {
        let k = n - 1;
        text_image(lines_image(s, (n - 1) as nat), about_lines()[k], 120, 214 + 24 * k, 2, pack(Color { r: 24, g: 31, b: 42, a: 255 }))
    }
}

/// What the About page paints before its detail lines: a framed white
/// window at (80, 72) with a blue title bar, close box and title, then a
/// framed content panel with the name, a tag line and an accent bar.
pub open spec fn about_header_image(s: Screen) -> Screen {
    let black = pack(Color { r: 0, g: 0, b: 0, a: 255 });
    let white = pack(Color { r: 255, g: 255, b: 255, a: 255 });
    let gray = pack(Color { r: 128, g: 128, b: 128, a: 255 });
    let text = pack(Color { r: 24, g: 31, b: 42, a: 255 });
    let muted = pack(Color { r: 82, g: 92, b: 106, a: 255 });
    let s1 = paint(s, rect(80, 72, 560, 380), white);
    let s2 = paint(s1, outline(80, 72, 560, 380), black);
    let s3 = paint(s2, rect(81, 73, 558, 28), pack(Color { r: 18, g: 72, b: 142, a: 255 }));
    let s4 = paint(s3, rect(614, 76, 20, 20), white);
    let s5 = paint(s4, outline(614, 76, 20, 20), black);
    let s6 = text_image(s5, "X".spec_bytes(), 620, 82, 2, black);
    let s7 = text_image(s6, "ABOUT VORZAX".spec_bytes(), 92, 81, 2, white);
    let s8 = paint(s7, rect(98, 118, 524, 316), pack(Color { r: 242, g: 246, b: 250, a: 255 }));
    let s9 = paint(s8, outline(98, 118, 524, 316), gray);
    let s10 = text_image(s9, "VORZAX OS".spec_bytes(), 116, 136, 3, text);
    let s11 = text_image(s10, "INDIAN APNA OS HACKING BUILD".spec_bytes(), 118, 166, 1, muted);
    paint(s11, rect(118, 190, 200, 4), pack(Color { r: 0, g: 128, b: 96, a: 255 }))
}

/// What the About page paints: its header part, the seven detail lines and
/// a footer.
pub open spec fn about_image(s: Screen) -> Screen {
    text_image(
        lines_image(about_header_image(s), 7),
        "FOR RESEARCH EDUCATION AND DEVELOPMENT".spec_bytes(),
        120,
        398,
        1,
        pack(Color { r: 82, g: 92, b: 106, a: 255 }),
    )
}

impl AboutApp {
    pub fn new(id: u32, window_id: WindowId) -> (r: Self)
        ensures
            r.id == id && r.window_id == window_id,
            r.version@ == VERSION@ && r.build_date@ == BUILD_DATE@ && r.author@ == AUTHOR@,
    {
        AboutApp { id, window_id, version: VERSION, build_date: BUILD_DATE, author: AUTHOR }
    }

    /// The summary lines of the About page.
    pub fn info_text(&self) -> (r: [&'static str; 8])
        ensures
            r@ == info_lines(),
    {
        let r = [
            "VORZAX OS",
            "ARM64 OPERATING SYSTEM WITH GUI DESKTOP",
            "VERSION 0.1.0",
            "BUILD DATE 2026-05-27",
            "AUTHOR VORZAX TEAM",
            "TARGET AARCH64",
            "BOOT UEFI",
            "KERNEL MONOLITHIC",
        ];
        assert(r@ =~= info_lines());
        r
    }

    /// Draw the About page.
    pub fn render(&self, fb: &mut Option<FramebufferDriver>)
        requires
            fb_wf(*old(fb)),
        ensures
            fb_wf(*final(fb)),
            fb_redrawn(*old(fb), *final(fb), about_image(fb_screen(*old(fb)))),
    {
        let ghost f0 = *fb;
        let ghost s0 = fb_screen(*fb);
        let x: u32 = 80;
        let y: u32 = 72;
        proof {
            reveal_strlit("X");
            reveal_strlit("ABOUT VORZAX");
            reveal_strlit("VORZAX OS");
            reveal_strlit("INDIAN APNA OS HACKING BUILD");
            reveal_strlit("FOR RESEARCH EDUCATION AND DEVELOPMENT");
            reveal_strlit("VERSION      0.1.0");
            reveal_strlit("BUILD DATE   2026-05-27");
            reveal_strlit("TARGET       ARM64 AARCH64");
            reveal_strlit("BOOT         UEFI");
            reveal_strlit("KERNEL       MONOLITHIC");
            reveal_strlit("LANGUAGE     RUST + ASSEMBLY");
            reveal_strlit("GUI          DESKTOP WINDOWS WIDGETS");
            vstd::string::is_ascii_spec_bytes("X");
            vstd::string::is_ascii_spec_bytes("ABOUT VORZAX");
            vstd::string::is_ascii_spec_bytes("VORZAX OS");
            vstd::string::is_ascii_spec_bytes("INDIAN APNA OS HACKING BUILD");
            vstd::string::is_ascii_spec_bytes("FOR RESEARCH EDUCATION AND DEVELOPMENT");
            vstd::string::is_ascii_spec_bytes("VERSION      0.1.0");
            vstd::string::is_ascii_spec_bytes("BUILD DATE   2026-05-27");
            vstd::string::is_ascii_spec_bytes("TARGET       ARM64 AARCH64");
            vstd::string::is_ascii_spec_bytes("BOOT         UEFI");
            vstd::string::is_ascii_spec_bytes("KERNEL       MONOLITHIC");
            vstd::string::is_ascii_spec_bytes("LANGUAGE     RUST + ASSEMBLY");
            vstd::string::is_ascii_spec_bytes("GUI          DESKTOP WINDOWS WIDGETS");
        }
        framebuffer::fill_rect(fb, x, y, ABOUT_WIDTH, ABOUT_HEIGHT, framebuffer::color_white());
        framebuffer::draw_rect(fb, x, y, ABOUT_WIDTH, ABOUT_HEIGHT, framebuffer::color_black());
        framebuffer::fill_rect(fb, x + 1, y + 1, ABOUT_WIDTH - 2, TITLE_HEIGHT, header_bg());
        framebuffer::fill_rect(fb, x + ABOUT_WIDTH - 26, y + 4, 20, 20, framebuffer::color_white());
        framebuffer::draw_rect(fb, x + ABOUT_WIDTH - 26, y + 4, 20, 20, framebuffer::color_black());
        draw_text(fb, "X", x + ABOUT_WIDTH - 20, y + 10, 2, framebuffer::color_black());
        draw_text(fb, "ABOUT VORZAX", x + 12, y + 9, 2, framebuffer::color_white());

        let content_x = x + PADDING;
        let content_y = y + TITLE_HEIGHT + PADDING;
        framebuffer::fill_rect(
            fb,
            content_x,
            content_y,
            ABOUT_WIDTH - (PADDING * 2),
            ABOUT_HEIGHT - TITLE_HEIGHT - (PADDING * 2),
            panel_bg(),
        );
        framebuffer::draw_rect(
            fb,
            content_x,
            content_y,
            ABOUT_WIDTH - (PADDING * 2),
            ABOUT_HEIGHT - TITLE_HEIGHT - (PADDING * 2),
            framebuffer::color_gray(),
        );

        draw_text(fb, "VORZAX OS", content_x + 18, content_y + 18, 3, text_color());
        draw_text(fb, "INDIAN APNA OS HACKING BUILD", content_x + 20, content_y + 48, 1, muted());

        framebuffer::fill_rect(fb, content_x + 20, content_y + 72, 200, 4, accent());

        let lines: [&str; 7] = [
            "VERSION      0.1.0",
            "BUILD DATE   2026-05-27",
            "TARGET       ARM64 AARCH64",
            "BOOT         UEFI",
            "KERNEL       MONOLITHIC",
            "LANGUAGE     RUST + ASSEMBLY",
            "GUI          DESKTOP WINDOWS WIDGETS",
        ];
        let ghost s12 = about_header_image(s0);
        assert(forall|k: int| 0 <= k < 7 ==> (#[trigger] lines@[k]).spec_bytes() == about_lines()[k]);
        let mut line_y = content_y + 96;
        let mut i: usize = 0;
        while i < 7
            invariant
                forall|k: int| 0 <= k < 7 ==> (#[trigger] lines@[k]).spec_bytes() == about_lines()[k],
                forall|k: int| 0 <= k < 7 ==> (#[trigger] about_lines()[k]).len() <= 40,
                content_x == 98,
                i <= 7,
                line_y == 214 + 24 * i,
                f0 == *old(fb),
                fb_wf(*fb),
                fb_redrawn(f0, *fb, lines_image(s12, i as nat)),
            decreases 7 - i,
        {
            draw_text(fb, lines[i], content_x + 22, line_y, 2, text_color());
            line_y += 24;
            i += 1;
        }

        draw_text(fb, "FOR RESEARCH EDUCATION AND DEVELOPMENT", content_x + 22, content_y + 280, 1, muted());
    }
}

impl AboutApp {
    /// Close the application and its window.
    pub fn handle_close(&mut self, reg: &mut AppRegistry, wm: &mut WindowManager)
        requires
            old(reg)@.wf(),
            old(wm)@.wf(),
        ensures
            *final(self) == *old(self),
            final(reg)@.wf(),
            final(wm)@.wf(),
            unregister_outcome(old(reg)@, final(reg)@, old(self).id),
            destroy_outcome(old(wm)@, final(wm)@, old(self).window_id),
            old(wm)@.focus_ok() ==> final(wm)@.focus_ok(),
    {
        app::close_app(reg, self.id);
        window::destroy_window(wm, self.window_id);
    }
}

/// Registering an application and closing it again leaves the registry as
/// it was but for the next id.
proof fn lemma_register_then_close(old: AppRegistryModel, mid: AppRegistryModel, new: AppRegistryModel, name: Seq<u8>)
    requires
        old.wf(),
        register_outcome(old, mid, name, Some(old.next_id)),
        unregister_outcome(mid, new, old.next_id),
    ensures
        new == (AppRegistryModel { next_id: (old.next_id + 1) as u32, ..old }),
{
    let k = crate::util::first_match(old.slots, app::slot_unused())->0;
    assert(crate::util::is_first_match(old.slots, app::slot_unused(), k));
    let id = old.next_id;
    assert forall|j: int| 0 <= j < k implies !app::slot_app(id)(#[trigger] mid.slots[j]) by {
        assert(mid.slots[j] == old.slots[j]);
    }
    assert(crate::util::is_first_match(mid.slots, app::slot_app(id), k));
    crate::util::lemma_first_match_is(mid.slots, app::slot_app(id), k);
    assert(new.slots =~= old.slots);
}

/// What `launch` does. With the registry full nothing changes. Otherwise
/// the application is registered; with no window slot free it is closed
/// again and only the registry's next id has moved. Otherwise its window
/// opens at (80, 72), 560 by 380, titled "About Vorzax", becomes its main
/// window, the application runs and the About page is drawn.
pub open spec fn launch_outcome(
    old_reg: AppRegistryModel,
    new_reg: AppRegistryModel,
    old_wm: WindowManagerModel,
    new_wm: WindowManagerModel,
    old_fb: Option<FramebufferDriver>,
    new_fb: Option<FramebufferDriver>,
    r: Option<AboutApp>,
) -> bool {
    if old_reg.count >= app::MAX_APPS {
        r is None && new_reg == old_reg && new_wm == old_wm && new_fb == old_fb
    } else if old_wm.count >= window::MAX_WINDOWS {
        &&& r is None
        &&& new_reg == (AppRegistryModel { next_id: (old_reg.next_id + 1) as u32, ..old_reg })
        &&& new_wm == old_wm
        &&& new_fb == old_fb
    } else {
        let id = old_reg.next_id;
        let wid = old_wm.next_id;
        &&& r matches Some(a) && a.id == id && a.window_id == wid && a.version@ == VERSION@ && a.build_date@
            == BUILD_DATE@ && a.author@ == AUTHOR@
        &&& exists|m: AppRegistryModel|
            register_outcome(old_reg, m, "About Vorzax".spec_bytes(), Some(id)) && new_reg == m.update_app(
                id,
                with_window(wid),
            ).update_app(id, running())
        &&& exists|w: WindowManagerModel|
            create_outcome(old_wm, w, 80, 72, 560, 380, Some(wid)) && title_outcome(
                w,
                new_wm,
                wid,
                "About Vorzax".spec_bytes(),
            )
        &&& fb_redrawn(old_fb, new_fb, about_image(fb_screen(old_fb)))
    }
}

/// Start the About application: register it, open its window, title it,
/// run it and draw it.
pub fn launch(reg: &mut AppRegistry, wm: &mut WindowManager, fb: &mut Option<FramebufferDriver>) -> (r: Option<
    AboutApp,
>)
    requires
        old(reg)@.wf(),
        old(wm)@.wf(),
        fb_wf(*old(fb)),
        old(reg)@.count < app::MAX_APPS ==> old(reg)@.next_id < u32::MAX,
        old(wm)@.count < window::MAX_WINDOWS ==> old(wm)@.next_id < u32::MAX,
    ensures
        final(reg)@.wf(),
        final(wm)@.wf(),
        fb_wf(*final(fb)),
        old(wm)@.focus_ok() ==> final(wm)@.focus_ok(),
        launch_outcome(old(reg)@, final(reg)@, old(wm)@, final(wm)@, *old(fb), *final(fb), r),
{
    let ghost reg0 = reg@;
    let ghost wm0 = wm@;
    let app_id = match app::register_app(reg, "About Vorzax") {
        Some(id) => id,
        None => return None,
    };
    let ghost reg1 = reg@;
    let window_id = match window::create_window(wm, 80, 72, ABOUT_WIDTH, ABOUT_HEIGHT) {
        Some(id) => id,
        None => {
            app::close_app(reg, app_id);
            proof {
                lemma_register_then_close(reg0, reg1, reg@, "About Vorzax".spec_bytes());
            }
            return None;
        },
    };
    let ghost wm1 = wm@;
    window::set_window_title(wm, window_id, "About Vorzax");
    app::set_app_window(reg, app_id, window_id);
    app::launch_app(reg, app_id);
    let about = AboutApp::new(app_id, window_id);
    about.render(fb);
    Some(about)
}

} // verus!

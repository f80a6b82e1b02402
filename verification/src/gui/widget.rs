//! Widgets: buttons, text boxes, labels, panels, checkboxes and sliders.

use vstd::prelude::*;
use vstd::string::StringSliceAdditionalSpecFns;
use crate::driver::framebuffer::{
    self, Color, FramebufferDriver, Screen, fb_redrawn, fb_screen, fb_wf, fill_ok, outline, outline_ok, pack,
    paint, rect,
};
use crate::gui::app::name_buffer;
use crate::gui::window::{clipped, overwrite_prefix};

verus! {

/// Widget kind.
#[derive(Debug, Clone, Copy, PartialEq, Eq, Structural)]
pub enum WidgetType {
    Button,
    TextBox,
    Label,
    Panel,
    Checkbox,
    Slider,
}

/// Widget state.
#[derive(Debug, Clone, Copy, PartialEq, Eq, Structural)]
pub enum WidgetState {
    Normal,
    Hovered,
    Pressed,
    Disabled,
    Focused,
}

/// The pixel value of opaque gray level `v`.
pub open spec fn gray_level(v: u8) -> u32 {
    pack(Color { r: v, g: v, b: v, a: 255 })
}

/// A filled box with an outline: what buttons and text boxes draw.
pub open spec fn framed_box(s: Screen, x: u32, y: u32, w: u32, h: u32, fill: u32, border: u32) -> Screen {
    paint(
        paint(s, rect(x as int, y as int, w as int, h as int), fill),
        outline(x as int, y as int, w as int, h as int),
        border,
    )
}

/// `fill_rect` then `draw_rect` on the same box stay in 32 bits.
pub open spec fn box_ok(x: u32, y: u32, w: u32, h: u32) -> bool {
    fill_ok(x, y, w, h) && outline_ok(x, y, w, h)
}

/// Fill a box and outline it.
fn draw_framed_box(fb: &mut Option<FramebufferDriver>, x: u32, y: u32, w: u32, h: u32, fill: Color, border: Color)
    requires
        fb_wf(*old(fb)),
        (*old(fb)) is Some ==> box_ok(x, y, w, h),
    ensures
        fb_wf(*final(fb)),
        fb_redrawn(*old(fb), *final(fb), framed_box(fb_screen(*old(fb)), x, y, w, h, pack(fill), pack(border))),
{
    framebuffer::fill_rect(fb, x, y, w, h, fill);
    framebuffer::draw_rect(fb, x, y, w, h, border);
}

/// A push button.
pub struct Button {
    pub x: u32,
    pub y: u32,
    pub width: u32,
    pub height: u32,
    pub label: [u8; 256],
    pub label_len: usize,
    pub state: WidgetState,
    pub background: Color,
    pub text_color: Color,
}

/// The fill of a button in each state: its background when normal, fixed
/// grays (blue-gray when focused) otherwise.
pub open spec fn button_fill(b: Button) -> u32 {
    match b.state {
        WidgetState::Normal => pack(b.background),
        WidgetState::Hovered => gray_level(150),
        WidgetState::Pressed => gray_level(100),
        WidgetState::Disabled => gray_level(180),
        WidgetState::Focused => pack(Color { r: 120, g: 120, b: 180, a: 255 }),
    }
}

/// `(px, py)` lies in the `w` by `h` box at `(x, y)`.
pub open spec fn in_box(x: u32, y: u32, w: u32, h: u32, px: u32, py: u32) -> bool {
    x <= px < x + w && y <= py < y + h
}

/// A point is in a box exactly when its offset from the box's corner is
/// less than the width across and less than the height down: points left
/// of, above, right of or below the box are not in it.
pub proof fn law_in_box_offsets(x: u32, y: u32, w: u32, h: u32, px: u32, py: u32)
    ensures
        in_box(x, y, w, h, px, py) <==> (0 <= px - x < w && 0 <= py - y < h),
        py >= y + h ==> !in_box(x, y, w, h, px, py),
        px >= x + w ==> !in_box(x, y, w, h, px, py),
        px < x || py < y ==> !in_box(x, y, w, h, px, py),
        w == 0 || h == 0 ==> !in_box(x, y, w, h, px, py),
{
}

impl Button {
    /// A gray button with black text and no label.
    pub fn new(x: u32, y: u32, width: u32, height: u32) -> (r: Self)
        ensures
            r.x == x && r.y == y && r.width == width && r.height == height,
            r.label@ == Seq::new(256, |i: int| 0u8),
            r.label_len == 0,
            r.state == WidgetState::Normal,
            r.background == (Color { r: 128, g: 128, b: 128, a: 255 }),
            r.text_color == (Color { r: 0, g: 0, b: 0, a: 255 }),
    {
        let r = Button {
            x,
            y,
            width,
            height,
            label: [0; 256],
            label_len: 0,
            state: WidgetState::Normal,
            background: framebuffer::color_gray(),
            text_color: framebuffer::color_black(),
        };
        assert(r.label@ =~= Seq::new(256, |i: int| 0u8));
        r
    }

    /// Copy `text` into the label buffer, up to its 256 bytes; bytes past
    /// it stay.
    pub fn set_label(&mut self, text: &str)
        ensures
            final(self).label@ == overwrite_prefix(old(self).label@, text.spec_bytes()),
            final(self).label_len == clipped(text.spec_bytes()).len(),
            final(self).x == old(self).x && final(self).y == old(self).y,
            final(self).width == old(self).width && final(self).height == old(self).height,
            final(self).state == old(self).state,
            final(self).background == old(self).background && final(self).text_color == old(self).text_color,
    {
        let bytes = text.as_bytes();
        let len = if bytes.len() < 256 { bytes.len() } else { 256 };
        let ghost old_label = self.label@;
        let mut i: usize = 0;
        while i < len
            invariant
                bytes@ == text.spec_bytes(),
                len == clipped(bytes@).len(),
                len <= bytes@.len(),
                i <= len,
                self.label@.len() == 256,
                forall|j: int| 0 <= j < i ==> self.label@[j] == bytes@[j],
                forall|j: int| i <= j < 256 ==> self.label@[j] == old_label[j],
                self.x == old(self).x && self.y == old(self).y,
                self.width == old(self).width && self.height == old(self).height,
                self.state == old(self).state,
                self.label_len == old(self).label_len,
                self.background == old(self).background && self.text_color == old(self).text_color,
            decreases len - i,
        {
            self.label[i] = bytes[i];
            i += 1;
        }
        self.label_len = len;
        assert(self.label@ =~= overwrite_prefix(old_label, bytes@));
    }

    /// Draw the button: its fill for the current state, then a black frame.
    pub fn render(&self, fb: &mut Option<FramebufferDriver>)
        requires
            fb_wf(*old(fb)),
            (*old(fb)) is Some ==> box_ok(self.x, self.y, self.width, self.height),
        ensures
            fb_wf(*final(fb)),
            fb_redrawn(
                *old(fb),
                *final(fb),
                framed_box(fb_screen(*old(fb)), self.x, self.y, self.width, self.height, button_fill(*self), gray_level(0)),
            ),
    {
        let bg_color = match self.state {
            WidgetState::Normal => self.background,
            WidgetState::Hovered => Color::new(150, 150, 150, 255),
            WidgetState::Pressed => Color::new(100, 100, 100, 255),
            WidgetState::Disabled => Color::new(180, 180, 180, 255),
            WidgetState::Focused => Color::new(120, 120, 180, 255),
        };
        draw_framed_box(fb, self.x, self.y, self.width, self.height, bg_color, framebuffer::color_black());
    }

    /// Whether `(px, py)` lies on the button.
    pub fn hit_test(&self, px: u32, py: u32) -> (r: bool)
        requires
            px >= self.x ==> self.x + self.width <= u32::MAX,
            px >= self.x && px < self.x + self.width && py >= self.y ==> self.y + self.height <= u32::MAX,
        ensures
            r == in_box(self.x, self.y, self.width, self.height, px, py),
            r ==> self.x <= px && px < self.x + self.width,
            r ==> self.y <= py && py < self.y + self.height,
            self.x <= px && px < self.x + self.width && self.y <= py && py < self.y + self.height ==> r,
    {
        px >= self.x && px < self.x + self.width && py >= self.y && py < self.y + self.height
    }
}

/// A text input field.
pub struct TextBox {
    pub x: u32,
    pub y: u32,
    pub width: u32,
    pub height: u32,
    pub text: [u8; 256],
    pub text_len: usize,
    pub cursor: usize,
    pub state: WidgetState,
}

impl TextBox {
    /// An empty text box.
    pub fn new(x: u32, y: u32, width: u32, height: u32) -> (r: Self)
        ensures
            r.x == x && r.y == y && r.width == width && r.height == height,
            r.text@ == Seq::new(256, |i: int| 0u8),
            r.text_len == 0,
            r.cursor == 0,
            r.state == WidgetState::Normal,
    {
        let r = TextBox { x, y, width, height, text: [0; 256], text_len: 0, cursor: 0, state: WidgetState::Normal };
        assert(r.text@ =~= Seq::new(256, |i: int| 0u8));
        r
    }

    /// Put `c` at the cursor and move the cursor and the length on by one;
    /// a full box (256 bytes) ignores it.
    pub fn insert_char(&mut self, c: u8)
        requires
            old(self).text_len < 256 ==> old(self).cursor < 256,
        ensures
            is_inserted(*old(self), *final(self), c),
    {
        if self.text_len < 256 {
            self.text[self.cursor] = c;
            self.text_len += 1;
            self.cursor += 1;
        }
    }

    /// Move the cursor and the length back by one, if the cursor is not at
    /// the start.
    pub fn backspace(&mut self)
        requires
            old(self).cursor > 0 ==> old(self).text_len > 0,
        ensures
            is_backspaced(*old(self), *final(self)),
    {
        if self.cursor > 0 {
            self.cursor -= 1;
            self.text_len -= 1;
        }
    }

    /// Draw the box white with a frame, black when focused, else gray.
    pub fn render(&self, fb: &mut Option<FramebufferDriver>)
        requires
            fb_wf(*old(fb)),
            (*old(fb)) is Some ==> box_ok(self.x, self.y, self.width, self.height),
        ensures
            fb_wf(*final(fb)),
            fb_redrawn(
                *old(fb),
                *final(fb),
                framed_box(
                    fb_screen(*old(fb)),
                    self.x,
                    self.y,
                    self.width,
                    self.height,
                    gray_level(255),
                    if self.state == WidgetState::Focused {
                        gray_level(0)
                    } else {
                        gray_level(128)
                    },
                ),
            ),
    {
        let border_color = if self.state == WidgetState::Focused {
            framebuffer::color_black()
        } else {
            framebuffer::color_gray()
        };
        draw_framed_box(fb, self.x, self.y, self.width, self.height, framebuffer::color_white(), border_color);
    }
}

/// `b` and `a` agree on everything but the text, its length and the cursor.
pub open spec fn same_box(a: TextBox, b: TextBox) -> bool {
    a.x == b.x && a.y == b.y && a.width == b.width && a.height == b.height && a.state == b.state
}

/// `b` is `a` after typing `c`: with room, `c` is written at the cursor and
/// the cursor and length move on by one; a full box stays as it is.
pub open spec fn is_inserted(a: TextBox, b: TextBox, c: u8) -> bool {
    &&& same_box(a, b)
    &&& if a.text_len < 256 {
        &&& b.text@ == a.text@.update(a.cursor as int, c)
        &&& b.text_len == a.text_len + 1
        &&& b.cursor == a.cursor + 1
    } else {
        b.text@ == a.text@ && b.text_len == a.text_len && b.cursor == a.cursor
    }
}

/// `b` is `a` after a backspace: the cursor and length move back by one
/// unless the cursor is at the start; the bytes stay.
pub open spec fn is_backspaced(a: TextBox, b: TextBox) -> bool {
    &&& same_box(a, b)
    &&& b.text@ == a.text@
    &&& if a.cursor > 0 {
        b.cursor == a.cursor - 1 && b.text_len == a.text_len - 1
    } else {
        b.cursor == a.cursor && b.text_len == a.text_len
    }
}

/// Typing a character into a box with room and deleting it again restores
/// the cursor and the length; the typed byte stays in the buffer.
pub proof fn law_insert_then_backspace(a: TextBox, b: TextBox, d: TextBox, c: u8)
    requires
        a.text_len < 256,
        is_inserted(a, b, c),
        is_backspaced(b, d),
    ensures
        d.cursor == a.cursor,
        d.text_len == a.text_len,
        d.text@ == a.text@.update(a.cursor as int, c),
        same_box(a, d),
{
}

/// A line of text.
pub struct Label {
    pub x: u32,
    pub y: u32,
    pub text: [u8; 256],
    pub text_len: usize,
    pub color: Color,
}

impl Label {
    /// A black label holding `text`, clipped to 256 bytes.
    pub fn new(x: u32, y: u32, text: &str) -> (r: Self)
        ensures
            r.x == x && r.y == y,
            r.text@ == name_buffer(text.spec_bytes()),
            r.text_len == clipped(text.spec_bytes()).len(),
            r.color == (Color { r: 0, g: 0, b: 0, a: 255 }),
    {
        let mut label_text = [0u8; 256];
        let bytes = text.as_bytes();
        let len = if bytes.len() < 256 { bytes.len() } else { 256 };
        let mut i: usize = 0;
        while i < len
            invariant
                bytes@ == text.spec_bytes(),
                len == clipped(bytes@).len(),
                len <= bytes@.len(),
                i <= len,
                label_text@.len() == 256,
                forall|j: int| 0 <= j < i ==> label_text@[j] == bytes@[j],
                forall|j: int| i <= j < 256 ==> label_text@[j] == 0,
            decreases len - i,
        {
            label_text[i] = bytes[i];
            i += 1;
        }
        assert(label_text@ =~= name_buffer(bytes@));
        Label { x, y, text: label_text, text_len: len, color: framebuffer::color_black() }
    }

    /// Labels draw nothing: there is no shared text renderer.
    pub fn render(&self, fb: &mut Option<FramebufferDriver>)
        ensures
            *final(fb) == *old(fb),
    {
    }
}

/// A filled container.
pub struct Panel {
    pub x: u32,
    pub y: u32,
    pub width: u32,
    pub height: u32,
    pub background: Color,
}

impl Panel {
    /// A gray panel.
    pub fn new(x: u32, y: u32, width: u32, height: u32) -> (r: Self)
        ensures
            r == (Panel { x, y, width, height, background: Color { r: 128, g: 128, b: 128, a: 255 } }),
    {
        Panel { x, y, width, height, background: framebuffer::color_gray() }
    }

    /// Fill the panel's box with its background.
    pub fn render(&self, fb: &mut Option<FramebufferDriver>)
        requires
            fb_wf(*old(fb)),
            (*old(fb)) is Some ==> fill_ok(self.x, self.y, self.width, self.height),
        ensures
            fb_wf(*final(fb)),
            fb_redrawn(
                *old(fb),
                *final(fb),
                paint(
                    fb_screen(*old(fb)),
                    rect(self.x as int, self.y as int, self.width as int, self.height as int),
                    pack(self.background),
                ),
            ),
    {
        framebuffer::fill_rect(fb, self.x, self.y, self.width, self.height, self.background);
    }
}

/// A checkbox.
pub struct Checkbox {
    pub x: u32,
    pub y: u32,
    pub checked: bool,
    pub label: [u8; 256],
    pub label_len: usize,
}

/// Side of a checkbox.
pub const CHECKBOX_SIZE: u32 = 20;

impl Checkbox {
    /// An unchecked checkbox with no label.
    pub fn new(x: u32, y: u32) -> (r: Self)
        ensures
            r.x == x && r.y == y && !r.checked,
            r.label@ == Seq::new(256, |i: int| 0u8),
            r.label_len == 0,
    {
        let r = Checkbox { x, y, checked: false, label: [0; 256], label_len: 0 };
        assert(r.label@ =~= Seq::new(256, |i: int| 0u8));
        r
    }

    /// Flip the checkmark.
    pub fn toggle(&mut self)
        ensures
            *final(self) == toggled(*old(self)),
    {
        self.checked = !self.checked;
    }

    /// Draw the 20 by 20 box, black when checked, white otherwise, framed
    /// in black.
    pub fn render(&self, fb: &mut Option<FramebufferDriver>)
        requires
            fb_wf(*old(fb)),
            (*old(fb)) is Some ==> box_ok(self.x, self.y, CHECKBOX_SIZE, CHECKBOX_SIZE),
        ensures
            fb_wf(*final(fb)),
            fb_redrawn(
                *old(fb),
                *final(fb),
                framed_box(
                    fb_screen(*old(fb)),
                    self.x,
                    self.y,
                    20,
                    20,
                    if self.checked {
                        gray_level(0)
                    } else {
                        gray_level(255)
                    },
                    gray_level(0),
                ),
            ),
    {
        let box_size = CHECKBOX_SIZE;
        let bg_color = if self.checked { framebuffer::color_black() } else { framebuffer::color_white() };
        draw_framed_box(fb, self.x, self.y, box_size, box_size, bg_color, framebuffer::color_black());
    }
}

/// The checkbox with its checkmark flipped.
pub open spec fn toggled(b: Checkbox) -> Checkbox {
    Checkbox { checked: !b.checked, ..b }
}

/// Toggling a checkbox twice leaves it as it was.
pub proof fn law_toggle_twice(b: Checkbox)
    ensures
        toggled(toggled(b)) == b,
{
}

/// A slider over `min_value ..= max_value`.
pub struct Slider {
    pub x: u32,
    pub y: u32,
    pub width: u32,
    pub height: u32,
    pub min_value: i32,
    pub max_value: i32,
    pub current_value: i32,
}

/// `value` clamped to `lo ..= hi`; with `lo > hi` the result is `lo`.
pub open spec fn clamp_value(lo: i32, hi: i32, value: i32) -> i32 {
    let upper = if hi < value { hi } else { value };
    if lo > upper { lo } else { upper }
}

impl Slider {
    /// A 20-high slider at its minimum.
    pub fn new(x: u32, y: u32, width: u32, min: i32, max: i32) -> (r: Self)
        ensures
            r == (Slider { x, y, width, height: 20, min_value: min, max_value: max, current_value: min }),
    {
        Slider { x, y, width, height: 20, min_value: min, max_value: max, current_value: min }
    }

    /// Set the value, clamped to the slider's range.
    pub fn set_value(&mut self, value: i32)
        ensures
            *final(self) == (Slider { current_value: clamp_value(old(self).min_value, old(self).max_value, value), ..*old(self) }),
    {
        let upper = if self.max_value < value { self.max_value } else { value };
        self.current_value = if self.min_value > upper { self.min_value } else { upper };
    }
}

/// A set value lies in the slider's range when the range is not empty, and
/// a value already in range is kept.
pub proof fn law_clamp_in_range(lo: i32, hi: i32, value: i32)
    ensures
        lo <= hi ==> lo <= clamp_value(lo, hi, value) <= hi,
        lo <= value <= hi ==> clamp_value(lo, hi, value) == value,
        clamp_value(lo, hi, clamp_value(lo, hi, value)) == clamp_value(lo, hi, value),
{
}

} // verus!

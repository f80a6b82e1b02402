//! Windows and the window manager.

use vstd::prelude::*;
use vstd::string::StringSliceAdditionalSpecFns;
use crate::driver::framebuffer::{
    self, Color, FramebufferDriver, Screen, fb_redrawn, fb_screen, fb_wf, outline, pack, paint, rect,
};
use crate::util::{
    count_some, first_match, is_first_match, lemma_count_some_bounds, lemma_count_some_update,
    lemma_first_match_exists, lemma_first_match_is, lemma_first_match_none,
};

verus! {

/// Window id.
pub type WindowId = u32;

/// Window state.
#[derive(Clone, Copy, Debug, PartialEq, Eq, Structural)]
pub enum WindowState {
    Minimized,
    Normal,
    Maximized,
    Focused,
    Unfocused,
}

/// A rectangle on the screen.
#[derive(Clone, Copy, Debug)]
pub struct Rect {
    pub x: u32,
    pub y: u32,
    pub width: u32,
    pub height: u32,
}

/// `(px, py)` lies in `r`.
pub open spec fn rect_contains(r: Rect, px: int, py: int) -> bool {
    r.x <= px < r.x + r.width && r.y <= py < r.y + r.height
}

/// `a` and `b` overlap: neither lies wholly left of, right of, above or
/// below the other.
pub open spec fn rects_intersect(a: Rect, b: Rect) -> bool {
    !(a.x + a.width <= b.x || b.x + b.width <= a.x || a.y + a.height <= b.y || b.y + b.height <= a.y)
}

/// The sums `contains_point` computes fit in 32 bits: each is formed only
/// once the comparisons before it have passed.
pub open spec fn contains_fits(r: Rect, px: u32, py: u32) -> bool {
    &&& px >= r.x ==> r.x + r.width <= u32::MAX
    &&& px >= r.x && px < r.x + r.width && py >= r.y ==> r.y + r.height <= u32::MAX
}

/// The sums `intersects` computes fit in 32 bits, each formed only once the
/// tests before it have failed.
pub open spec fn intersects_fits(a: Rect, b: Rect) -> bool {
    &&& a.x + a.width <= u32::MAX
    &&& a.x + a.width > b.x ==> b.x + b.width <= u32::MAX
    &&& a.x + a.width > b.x && b.x + b.width > a.x ==> a.y + a.height <= u32::MAX
    &&& a.x + a.width > b.x && b.x + b.width > a.x && a.y + a.height > b.y ==> b.y + b.height <= u32::MAX
}

impl Rect {
    pub fn new(x: u32, y: u32, width: u32, height: u32) -> (r: Self)
        ensures
            r == (Rect { x, y, width, height }),
    {
        Rect { x, y, width, height }
    }

    /// Whether `(px, py)` lies in the rectangle.
    pub fn contains_point(&self, px: u32, py: u32) -> (r: bool)
        requires
            contains_fits(*self, px, py),
        ensures
            r == rect_contains(*self, px as int, py as int),
    {
        px >= self.x && px < self.x + self.width && py >= self.y && py < self.y + self.height
    }

    /// Whether the two rectangles overlap.
    pub fn intersects(&self, other: &Rect) -> (r: bool)
        requires
            intersects_fits(*self, *other),
        ensures
            r == rects_intersect(*self, *other),
    {
        !(self.x + self.width <= other.x || other.x + other.width <= self.x || self.y + self.height <= other.y
            || other.y + other.height <= self.y)
    }
}

/// Overlap is symmetric.
pub proof fn law_intersects_symmetric(a: Rect, b: Rect)
    ensures
        rects_intersect(a, b) == rects_intersect(b, a),
{
}

/// Two rectangles that share a point overlap; two overlapping rectangles
/// that are not empty share a point.
pub proof fn law_intersects_iff_common_point(a: Rect, b: Rect)
    ensures
        (exists|px: int, py: int| rect_contains(a, px, py) && rect_contains(b, px, py)) ==> rects_intersect(a, b),
        a.width > 0 && a.height > 0 && b.width > 0 && b.height > 0 && rects_intersect(a, b) ==> exists|
            px: int,
            py: int,
        | rect_contains(a, px, py) && rect_contains(b, px, py),
{
    if a.width > 0 && a.height > 0 && b.width > 0 && b.height > 0 && rects_intersect(a, b) {
        let px = if a.x >= b.x { a.x as int } else { b.x as int };
        let py = if a.y >= b.y { a.y as int } else { b.y as int };
        assert(rect_contains(a, px, py) && rect_contains(b, px, py));
    }
}

/// Length of a window title buffer.
pub const TITLE_MAX: usize = 256;

/// A window.
#[derive(Clone, Copy)]
pub struct Window {
    pub id: WindowId,
    pub title: [u8; 256],
    pub title_len: usize,
    pub rect: Rect,
    pub state: WindowState,
    pub background: Color,
    pub border_color: Color,
    pub has_focus: bool,
}

/// Height of the title bar.
pub const TITLE_BAR_HEIGHT: u32 = 24;

/// A freshly made window: title buffer `W` then zeros with length 7, normal
/// state, white on black, no focus.
pub open spec fn new_window(id: WindowId, x: u32, y: u32, width: u32, height: u32) -> Window {
    Window {
        id,
        title: arbitrary(),
        title_len: 7,
        rect: Rect { x, y, width, height },
        state: WindowState::Normal,
        background: Color { r: 255, g: 255, b: 255, a: 255 },
        border_color: Color { r: 0, g: 0, b: 0, a: 255 },
        has_focus: false,
    }
}

/// The title buffer of a fresh window.
pub open spec fn new_title() -> Seq<u8> {
    seq![87u8] + Seq::new(255, |i: int| 0u8)
}

/// `w` is the window `new_window` describes.
pub open spec fn is_new_window(w: Window, id: WindowId, x: u32, y: u32, width: u32, height: u32) -> bool {
    &&& w.title@ == new_title()
    &&& w == Window { title: w.title, ..new_window(id, x, y, width, height) }
}

/// The first `min(len, 256)` bytes of `text`.
pub open spec fn clipped(text: Seq<u8>) -> Seq<u8> {
    if text.len() <= 256 {
        text
    } else {
        text.take(256)
    }
}

/// `buf` with its prefix overwritten by `text`, clipped to the buffer.
pub open spec fn overwrite_prefix(buf: Seq<u8>, text: Seq<u8>) -> Seq<u8> {
    clipped(text) + buf.skip(clipped(text).len() as int)
}

/// Whether the close button's corner, `(x + width - 24, y + 2)`, is formed
/// without leaving 32 bits.
pub open spec fn close_button_fits(r: Rect) -> bool {
    &&& r.x + r.width <= u32::MAX
    &&& r.x + r.width >= 24
    &&& r.y + 2 <= u32::MAX
}

/// Whether the sums and differences `render` forms fit in 32 bits.
pub open spec fn render_fits(r: Rect) -> bool {
    r.width >= 2 && close_button_fits(r)
}

/// Whether the drawing `render` asks of a framebuffer stays in 32 bits.
pub open spec fn render_drawable(r: Rect) -> bool {
    &&& r.y + r.height >= 1
    &&& r.y + r.height <= u32::MAX
    &&& r.y + 22 <= u32::MAX
}

/// Whether `w` renders without overflow, with or without a framebuffer.
pub open spec fn renders(w: Window, has_fb: bool) -> bool {
    render_fits(w.rect) && (has_fb ==> render_drawable(w.rect))
}

/// What rendering `w` paints on `s`: the background, the border (black
/// with focus, else gray), the title bar (navy with focus, else gray) and
/// the close button.
pub open spec fn window_image(s: Screen, w: Window) -> Screen {
    let (x, y, wd, h) = (w.rect.x as int, w.rect.y as int, w.rect.width as int, w.rect.height as int);
    let black = pack(Color { r: 0, g: 0, b: 0, a: 255 });
    let white = pack(Color { r: 255, g: 255, b: 255, a: 255 });
    let gray = pack(Color { r: 128, g: 128, b: 128, a: 255 });
    let navy = pack(Color { r: 0, g: 0, b: 128, a: 255 });
    let cx = x + wd - 24;
    let cy = y + 2;
    let s1 = paint(s, rect(x, y, wd, h), pack(w.background));
    let s2 = paint(s1, outline(x, y, wd, h), if w.has_focus { black } else { gray });
    let s3 = paint(s2, rect(x + 1, y + 1, wd - 2, 22), if w.has_focus { navy } else { gray });
    let s4 = paint(s3, rect(cx, cy, 22, 20), white);
    paint(s4, outline(cx, cy, 22, 20), black)
}

impl Window {
    pub fn new(id: WindowId, x: u32, y: u32, width: u32, height: u32) -> (r: Self)
        ensures
            is_new_window(r, id, x, y, width, height),
    {
        let mut title = [0u8; 256];
        title[0] = 87;
        let r = Window {
            id,
            title,
            title_len: 7,
            rect: Rect::new(x, y, width, height),
            state: WindowState::Normal,
            background: framebuffer::color_white(),
            border_color: framebuffer::color_black(),
            has_focus: false,
        };
        assert(r.title@ =~= new_title());
        r
    }

    /// Copy `title` into the title buffer, up to its 256 bytes, and set the
    /// title length; bytes past the new title stay as they were.
    pub fn set_title(&mut self, title: &str)
        ensures
            final(self).title@ == overwrite_prefix(old(self).title@, title.spec_bytes()),
            final(self).title_len == clipped(title.spec_bytes()).len(),
            *final(self) == (Window { title: final(self).title, title_len: final(self).title_len, ..*old(self) }),
    {
        let bytes = title.as_bytes();
        let len = if bytes.len() < 256 { bytes.len() } else { 256 };
        let ghost old_title = self.title@;
        let mut i: usize = 0;
        while i < len
            invariant
                bytes@ == title.spec_bytes(),
                len == clipped(bytes@).len(),
                len <= bytes@.len(),
                len <= 256,
                i <= len,
                self.title@.len() == 256,
                forall|j: int| 0 <= j < i ==> self.title@[j] == bytes@[j],
                forall|j: int| i <= j < 256 ==> self.title@[j] == old_title[j],
                *self == (Window { title: self.title, ..*old(self) }),
            decreases len - i,
        {
            self.title[i] = bytes[i];
            i += 1;
        }
        self.title_len = len;
        assert(self.title@ =~= overwrite_prefix(old_title, bytes@));
    }

    /// Draw the window: background, border, title bar and close button.
    pub fn render(&self, fb: &mut Option<FramebufferDriver>)
        requires
            fb_wf(*old(fb)),
            renders(*self, (*old(fb)) is Some),
        ensures
            fb_wf(*final(fb)),
            fb_redrawn(*old(fb), *final(fb), window_image(fb_screen(*old(fb)), *self)),
    {
        let r = self.rect;
        framebuffer::fill_rect(fb, r.x, r.y, r.width, r.height, self.background);
        let color = if self.has_focus { framebuffer::color_black() } else { framebuffer::color_gray() };
        framebuffer::draw_rect(fb, r.x, r.y, r.width, r.height, color);
        let title_height = TITLE_BAR_HEIGHT;
        let title_color = if self.has_focus { Color::new(0, 0, 128, 255) } else { framebuffer::color_gray() };
        framebuffer::fill_rect(fb, r.x + 1, r.y + 1, r.width - 2, title_height - 2, title_color);
        let close_btn_x = r.x + r.width - 24;
        let close_btn_y = r.y + 2;
        framebuffer::fill_rect(fb, close_btn_x, close_btn_y, 22, 20, framebuffer::color_white());
        framebuffer::draw_rect(fb, close_btn_x, close_btn_y, 22, 20, framebuffer::color_black());
    }

    /// Whether the pointer is on the close button; no pointer position
    /// reaches this test, so it is always false.
    pub fn hit_test_close_button(&self) -> (r: bool)
        requires
            close_button_fits(self.rect),
        ensures
            !r,
    {
        let _close_btn_x = self.rect.x + self.rect.width - 24;
        let _close_btn_y = self.rect.y + 2;
        false
    }
}

/// Most windows open at once.
pub const MAX_WINDOWS: usize = 16;

/// The window manager: window slots, how many are taken, the focused
/// window and the next window id.
pub struct WindowManager {
    windows: [Option<Window>; 16],
    window_count: usize,
    focused_window: Option<WindowId>,
    next_id: WindowId,
}

/// The state of a window manager.
pub struct WindowManagerModel {
    pub slots: Seq<Option<Window>>,
    pub count: nat,
    pub focused: Option<WindowId>,
    pub next_id: WindowId,
}

impl View for WindowManager {
    type V = WindowManagerModel;

    closed spec fn view(&self) -> WindowManagerModel {
        WindowManagerModel {
            slots: self.windows@,
            count: self.window_count as nat,
            focused: self.focused_window,
            next_id: self.next_id,
        }
    }
}

/// Slot holds window `id`.
pub open spec fn slot_window(id: WindowId) -> spec_fn(Option<Window>) -> bool {
    |s: Option<Window>| s is Some && s->0.id == id
}

/// Slot is free.
pub open spec fn slot_free() -> spec_fn(Option<Window>) -> bool {
    |s: Option<Window>| s is None
}

impl WindowManagerModel {
    /// `MAX_WINDOWS` slots, `count` of them taken, every id below
    /// `next_id` and held once.
    pub open spec fn wf(self) -> bool {
        &&& self.slots.len() == MAX_WINDOWS
        &&& self.count == count_some(self.slots)
        &&& forall|i: int| 0 <= i < MAX_WINDOWS && (#[trigger] self.slots[i]) is Some ==> self.slots[i]->0.id < self.next_id
        &&& forall|i: int, j: int|
            0 <= i < j < MAX_WINDOWS && (#[trigger] self.slots[i]) is Some && (#[trigger] self.slots[j]) is Some
                ==> self.slots[i]->0.id != self.slots[j]->0.id
    }

    /// Only the focused window has focus.
    pub open spec fn focus_ok(self) -> bool {
        forall|i: int|
            0 <= i < self.slots.len() && (#[trigger] self.slots[i]) is Some && self.slots[i]->0.has_focus
                ==> self.focused == Some(self.slots[i]->0.id)
    }

    /// The window `id`, if open.
    pub open spec fn get(self, id: WindowId) -> Option<Window> {
        match first_match(self.slots, slot_window(id)) {
            Some(i) => self.slots[i],
            None => None,
        }
    }

    /// The same manager with slot `i` set to `v`.
    pub open spec fn with_slot(self, i: int, v: Option<Window>) -> WindowManagerModel {
        WindowManagerModel { slots: self.slots.update(i, v), ..self }
    }

    /// The manager with window `id` (if `id` is given and open) set to have
    /// focus `f`.
    pub open spec fn with_focus(self, id: Option<WindowId>, f: bool) -> WindowManagerModel {
        match id {
            None => self,
            Some(id) => match first_match(self.slots, slot_window(id)) {
                Some(i) => self.with_slot(i, Some(Window { has_focus: f, ..self.slots[i]->0 })),
                None => self,
            },
        }
    }
}

/// What `create_window` does.
pub open spec fn create_outcome(
    old: WindowManagerModel,
    new: WindowManagerModel,
    x: u32,
    y: u32,
    width: u32,
    height: u32,
    r: Option<WindowId>,
) -> bool {
    if old.count < MAX_WINDOWS {
        let id = old.next_id;
        let mid = old.with_focus(old.focused, false);
        match first_match(old.slots, slot_free()) {
            Some(k) => {
                &&& r == Some(id)
                &&& new.next_id == id + 1
                &&& new.focused == Some(id)
                &&& new.count == old.count + 1
                &&& new.slots == mid.slots.update(k, new.slots[k])
                &&& new.slots[k] matches Some(w) && w.has_focus && is_new_window(
                    Window { has_focus: false, ..w },
                    id,
                    x,
                    y,
                    width,
                    height,
                )
            },
            None => false,
        }
    } else {
        r is None && new == old
    }
}

/// What `destroy_window` does.
pub open spec fn destroy_outcome(old: WindowManagerModel, new: WindowManagerModel, id: WindowId) -> bool {
    match first_match(old.slots, slot_window(id)) {
        Some(i) => {
            &&& new.slots == old.slots.update(i, None)
            &&& new.count == old.count - 1
            &&& new.next_id == old.next_id
            &&& new.focused == (if old.focused == Some(id) {
                None
            } else {
                old.focused
            })
        },
        None => new == old,
    }
}

/// The screen after rendering the windows of `slots` in order.
pub open spec fn windows_image(s: Screen, slots: Seq<Option<Window>>) -> Screen
    decreases slots.len(),
{
    if slots.len() == 0 {
        s
    } else {
        let before = windows_image(s, slots.drop_last());
        match slots.last() {
            Some(w) => window_image(before, w),
            None => before,
        }
    }
}

impl WindowManager {
    pub fn new() -> (r: Self)
        ensures
            r@.wf(),
            r@.focus_ok(),
            r@.slots == Seq::new(MAX_WINDOWS as nat, |i: int| None::<Window>),
            r@.count == 0,
            r@.focused is None,
            r@.next_id == 1,
    {
        let r = WindowManager { windows: [None; 16], window_count: 0, focused_window: None, next_id: 1 };
        assert(r@.slots =~= Seq::new(MAX_WINDOWS as nat, |i: int| None::<Window>));
        proof {
            lemma_count_some_bounds(r@.slots);
        }
        r
    }

    fn find_window(&self, id: WindowId) -> (r: Option<usize>)
        ensures
            match r {
                Some(i) => first_match(self@.slots, slot_window(id)) == Some(i as int),
                None => first_match(self@.slots, slot_window(id)) is None,
            },
    {
        let ghost p = slot_window(id);
        let mut i: usize = 0;
        while i < MAX_WINDOWS
            invariant
                p == slot_window(id),
                self@.slots == self.windows@,
                i <= MAX_WINDOWS,
                forall|j: int| 0 <= j < i ==> !p(#[trigger] self@.slots[j]),
            decreases MAX_WINDOWS - i,
        {
            if let Some(w) = &self.windows[i] {
                if w.id == id {
                    proof {
                        assert(is_first_match(self@.slots, p, i as int));
                        lemma_first_match_is(self@.slots, p, i as int);
                    }
                    return Some(i);
                }
            }
            i += 1;
        }
        proof {
            lemma_first_match_none(self@.slots, p);
        }
        None
    }

    fn find_free(&self) -> (r: Option<usize>)
        ensures
            match r {
                Some(i) => first_match(self@.slots, slot_free()) == Some(i as int),
                None => first_match(self@.slots, slot_free()) is None,
            },
    {
        let ghost p = slot_free();
        let mut i: usize = 0;
        while i < MAX_WINDOWS
            invariant
                p == slot_free(),
                self@.slots == self.windows@,
                i <= MAX_WINDOWS,
                forall|j: int| 0 <= j < i ==> !p(#[trigger] self@.slots[j]),
            decreases MAX_WINDOWS - i,
        {
            if self.windows[i].is_none() {
                proof {
                    assert(is_first_match(self@.slots, p, i as int));
                    lemma_first_match_is(self@.slots, p, i as int);
                }
                return Some(i);
            }
            i += 1;
        }
        proof {
            lemma_first_match_none(self@.slots, p);
        }
        None
    }

    /// Set the focus flag of window `id`, if it is open.
    fn set_focus(&mut self, id: WindowId, f: bool)
        requires
            old(self)@.wf(),
        ensures
            final(self)@ == old(self)@.with_focus(Some(id), f),
            final(self)@.wf(),
    {
        match self.find_window(id) {
            Some(i) => {
                let ghost before = self@;
                let mut w = self.windows[i].unwrap();
                w.has_focus = f;
                self.windows[i] = Some(w);
                proof {
                    assert(self@.slots =~= before.slots.update(i as int, Some(w)));
                    assert(self@ == before.with_slot(i as int, Some(w)));
                    lemma_count_some_update(before.slots, i as int, Some(w));
                }
            },
            None => {},
        }
    }
}

/// With focus only where `focus_ok` allows it, clearing the focus of the
/// focused window leaves no window with focus.
proof fn lemma_unfocus_leaves_none(m: WindowManagerModel)
    requires
        m.wf(),
        m.focus_ok(),
    ensures
        forall|i: int|
            0 <= i < MAX_WINDOWS && (#[trigger] m.with_focus(m.focused, false).slots[i]) is Some
                ==> !m.with_focus(m.focused, false).slots[i]->0.has_focus,
        m.with_focus(m.focused, false).wf(),
        m.with_focus(m.focused, false).next_id == m.next_id,
        m.with_focus(m.focused, false).count == m.count,
        m.with_focus(m.focused, false).slots.len() == MAX_WINDOWS,
        forall|i: int|
            0 <= i < MAX_WINDOWS ==> (#[trigger] m.with_focus(m.focused, false).slots[i] is None) == (
            m.slots[i] is None),
{
    let mid = m.with_focus(m.focused, false);
    match m.focused {
        None => {},
        Some(fid) => match first_match(m.slots, slot_window(fid)) {
            Some(k) => {
                assert(is_first_match(m.slots, slot_window(fid), k));
                assert forall|i: int|
                    0 <= i < MAX_WINDOWS && (#[trigger] mid.slots[i]) is Some implies !mid.slots[i]->0.has_focus by {
                    if i != k && m.slots[i]->0.has_focus {
                        assert(m.slots[i]->0.id == fid);
                        if i < k {
                            assert(slot_window(fid)(m.slots[i]));
                        } else {
                            assert(m.slots[k]->0.id != m.slots[i]->0.id);
                        }
                    }
                }
                lemma_count_some_update(m.slots, k, mid.slots[k]);
                assert forall|i: int, j: int|
                    0 <= i < j < MAX_WINDOWS && (#[trigger] mid.slots[i]) is Some && (#[trigger] mid.slots[j]) is Some
                        implies mid.slots[i]->0.id != mid.slots[j]->0.id by {
                    assert(m.slots[i] is Some && m.slots[j] is Some);
                }
            },
            None => {
                assert forall|i: int|
                    0 <= i < MAX_WINDOWS && (#[trigger] mid.slots[i]) is Some implies !mid.slots[i]->0.has_focus by {
                    if m.slots[i]->0.has_focus {
                        lemma_first_match_exists(m.slots, slot_window(fid), i);
                    }
                }
            },
        },
    }
}

impl WindowManager {
    /// Open a window at `(x, y)` of the given size, give it the focus and
    /// return its id; `None` when all slots are taken.
    pub fn create_window(&mut self, x: u32, y: u32, width: u32, height: u32) -> (r: Option<WindowId>)
        requires
            old(self)@.wf(),
            old(self)@.count < MAX_WINDOWS ==> old(self)@.next_id < u32::MAX,
        ensures
            final(self)@.wf(),
            old(self)@.focus_ok() ==> final(self)@.focus_ok(),
            create_outcome(old(self)@, final(self)@, x, y, width, height, r),
    {
        let ghost m0 = self@;
        if self.window_count < MAX_WINDOWS {
            let id = self.next_id;
            self.next_id += 1;
            let mut window = Window::new(id, x, y, width, height);
            window.has_focus = true;
            let ghost m1 = self@;
            assert(m1.wf());
            if let Some(old_id) = self.focused_window {
                self.set_focus(old_id, false);
            }
            let ghost mid = self@;
            assert(mid.slots == m0.with_focus(m0.focused, false).slots);
            proof {
                if m0.focus_ok() {
                    lemma_unfocus_leaves_none(m0);
                }
            }
            self.focused_window = Some(id);
            proof {
                lemma_count_some_bounds(m0.slots);
                let i = choose|i: int| 0 <= i < MAX_WINDOWS && !(#[trigger] m0.slots[i] is Some);
                assert(slot_free()(m0.slots[i]));
                lemma_first_match_exists(m0.slots, slot_free(), i);
                let k = first_match(m0.slots, slot_free())->0;
                assert forall|j: int| 0 <= j < MAX_WINDOWS implies (#[trigger] mid.slots[j] is None) == (
                m0.slots[j] is None) by {
                    assert(mid.slots == m1.with_focus(m0.focused, false).slots);
                }
                assert(is_first_match(mid.slots, slot_free(), k));
                lemma_first_match_is(mid.slots, slot_free(), k);
            }
            if let Some(k) = self.find_free() {
                let ghost before = self@;
                self.windows[k] = Some(window);
                proof {
                    lemma_count_some_update(before.slots, k as int, Some(window));
                    assert(self@.slots == before.slots.update(k as int, Some(window)));
                }
                self.window_count += 1;
                return Some(id);
            }
        }
        None
    }

    /// Close window `id`, if open; the focus goes with it.
    pub fn destroy_window(&mut self, id: WindowId)
        requires
            old(self)@.wf(),
        ensures
            final(self)@.wf(),
            old(self)@.focus_ok() ==> final(self)@.focus_ok(),
            destroy_outcome(old(self)@, final(self)@, id),
    {
        if let Some(pos) = self.find_window(id) {
            let ghost before = self@;
            proof {
                assert(is_first_match(before.slots, slot_window(id), pos as int));
                lemma_count_some_bounds(before.slots);
                lemma_count_some_update(before.slots, pos as int, None);
            }
            self.windows[pos] = None;
            self.window_count -= 1;
            if let Some(f) = self.focused_window {
                if f == id {
                    self.focused_window = None;
                }
            }
            proof {
                assert(self@.slots == before.slots.update(pos as int, None));
                if before.focus_ok() {
                    assert forall|i: int|
                        0 <= i < self@.slots.len() && (#[trigger] self@.slots[i]) is Some && self@.slots[i]->0.has_focus
                            implies self@.focused == Some(self@.slots[i]->0.id) by {
                        if before.focused == Some(id) {
                            assert(before.slots[i]->0.id == id);
                            if i < pos {
                                assert(slot_window(id)(before.slots[i]));
                            } else {
                                assert(before.slots[pos as int]->0.id != before.slots[i]->0.id);
                            }
                        }
                    }
                }
            }
        }
    }

    /// The window `id`, if open.
    pub fn get_window(&self, id: WindowId) -> (r: Option<&Window>)
        ensures
            match r {
                Some(w) => self@.get(id) == Some(*w),
                None => self@.get(id) is None,
            },
    {
        match self.find_window(id) {
            Some(i) => match &self.windows[i] {
                Some(w) => Some(w),
                None => None,
            },
            None => None,
        }
    }

    /// The window `id` for change, if open.
    pub fn get_window_mut(&mut self, id: WindowId) -> (r: Option<&mut Window>)
        ensures
            match first_match(old(self)@.slots, slot_window(id)) {
                Some(i) => r matches Some(w) && *w == old(self)@.slots[i]->0 && final(self)@ == old(self)@.with_slot(
                    i,
                    Some(*final(w)),
                ),
                None => r is None && final(self)@ == old(self)@,
            },
    {
        match self.find_window(id) {
            Some(i) => match &mut self.windows[i] {
                Some(w) => Some(w),
                None => None,
            },
            None => None,
        }
    }
}

/// Every open window renders without overflow.
pub open spec fn all_render(slots: Seq<Option<Window>>, has_fb: bool) -> bool {
    forall|i: int| 0 <= i < slots.len() && (#[trigger] slots[i]) is Some ==> renders(slots[i]->0, has_fb)
}

impl WindowManager {
    /// Draw the open windows in slot order.
    pub fn render_all(&self, fb: &mut Option<FramebufferDriver>)
        requires
            fb_wf(*old(fb)),
            all_render(self@.slots, (*old(fb)) is Some),
        ensures
            fb_wf(*final(fb)),
            fb_redrawn(*old(fb), *final(fb), windows_image(fb_screen(*old(fb)), self@.slots)),
    {
        let ghost s0 = fb_screen(*fb);
        let ghost f0 = *fb;
        let mut i: usize = 0;
        assert(self@.slots.take(0) =~= Seq::<Option<Window>>::empty());
        while i < MAX_WINDOWS
            invariant
                self@.slots == self.windows@,
                self@.slots.len() == MAX_WINDOWS,
                all_render(self@.slots, f0 is Some),
                f0 == *old(fb),
                s0 == fb_screen(f0),
                i <= MAX_WINDOWS,
                fb_wf(*fb),
                fb_redrawn(f0, *fb, windows_image(s0, self@.slots.take(i as int))),
            decreases MAX_WINDOWS - i,
        {
            assert(self@.slots.take(i + 1).drop_last() =~= self@.slots.take(i as int));
            if let Some(w) = &self.windows[i] {
                w.render(fb);
            }
            i += 1;
        }
        assert(self@.slots.take(MAX_WINDOWS as int) =~= self@.slots);
    }
}

/// At most one window has focus.
pub proof fn law_single_focus(m: WindowManagerModel, i: int, j: int)
    requires
        m.wf(),
        m.focus_ok(),
        0 <= i < MAX_WINDOWS,
        0 <= j < MAX_WINDOWS,
        m.slots[i] matches Some(a) && a.has_focus,
        m.slots[j] matches Some(b) && b.has_focus,
    ensures
        i == j,
{
    if i < j {
        assert(m.slots[i]->0.id != m.slots[j]->0.id);
    } else if j < i {
        assert(m.slots[j]->0.id != m.slots[i]->0.id);
    }
}

/// A window just opened is found under its id, new, with the focus, and is
/// the focused window.
pub proof fn law_create_then_get(
    old: WindowManagerModel,
    new: WindowManagerModel,
    x: u32,
    y: u32,
    width: u32,
    height: u32,
    id: WindowId,
)
    requires
        old.wf(),
        create_outcome(old, new, x, y, width, height, Some(id)),
    ensures
        old.get(id) is None,
        new.get(id) matches Some(w) && w.has_focus && is_new_window(Window { has_focus: false, ..w }, id, x, y, width, height),
        new.focused == Some(id),
{
    let k = first_match(old.slots, slot_free())->0;
    assert(is_first_match(old.slots, slot_free(), k));
    let mid = old.with_focus(old.focused, false);
    assert forall|j: int| 0 <= j < MAX_WINDOWS implies !slot_window(id)(#[trigger] old.slots[j]) by {
        if old.slots[j] is Some {
            assert(old.slots[j]->0.id < old.next_id);
        }
    }
    lemma_first_match_none(old.slots, slot_window(id));
    assert forall|j: int| 0 <= j < k implies !slot_window(id)(#[trigger] new.slots[j]) by {
        assert(new.slots[j] == mid.slots[j]);
        if old.slots[j] is Some {
            assert(old.slots[j]->0.id < old.next_id);
        }
    }
    assert(is_first_match(new.slots, slot_window(id), k));
    lemma_first_match_is(new.slots, slot_window(id), k);
}

/// A closed window is no longer found.
pub proof fn law_destroy_then_get(old: WindowManagerModel, new: WindowManagerModel, id: WindowId)
    requires
        old.wf(),
        destroy_outcome(old, new, id),
    ensures
        new.get(id) is None,
{
    match first_match(old.slots, slot_window(id)) {
        Some(i) => {
            assert(is_first_match(old.slots, slot_window(id), i));
            assert forall|j: int| 0 <= j < MAX_WINDOWS implies !slot_window(id)(#[trigger] new.slots[j]) by {
                if j != i && new.slots[j] is Some && new.slots[j]->0.id == id {
                    if j < i {
                        assert(slot_window(id)(old.slots[j]));
                    } else {
                        assert(old.slots[i]->0.id != old.slots[j]->0.id);
                    }
                }
            }
            lemma_first_match_none(new.slots, slot_window(id));
        },
        None => {},
    }
}

/// Nothing to set up: the manager starts empty.
pub fn init() {
}

/// Open a window; see `WindowManager::create_window`.
pub fn create_window(wm: &mut WindowManager, x: u32, y: u32, width: u32, height: u32) -> (r: Option<WindowId>)
    requires
        old(wm)@.wf(),
        old(wm)@.count < MAX_WINDOWS ==> old(wm)@.next_id < u32::MAX,
    ensures
        final(wm)@.wf(),
        old(wm)@.focus_ok() ==> final(wm)@.focus_ok(),
        create_outcome(old(wm)@, final(wm)@, x, y, width, height, r),
{
    wm.create_window(x, y, width, height)
}

/// Close a window; see `WindowManager::destroy_window`.
pub fn destroy_window(wm: &mut WindowManager, id: WindowId)
    requires
        old(wm)@.wf(),
    ensures
        final(wm)@.wf(),
        old(wm)@.focus_ok() ==> final(wm)@.focus_ok(),
        destroy_outcome(old(wm)@, final(wm)@, id),
{
    wm.destroy_window(id)
}

/// Draw every open window.
pub fn render_windows(wm: &WindowManager, fb: &mut Option<FramebufferDriver>)
    requires
        fb_wf(*old(fb)),
        all_render(wm@.slots, (*old(fb)) is Some),
    ensures
        fb_wf(*final(fb)),
        fb_redrawn(*old(fb), *final(fb), windows_image(fb_screen(*old(fb)), wm@.slots)),
{
    wm.render_all(fb)
}

/// What `set_window_title` does: window `id`, if open, gets `text` written
/// over the start of its title buffer and the clipped length as its title
/// length; nothing else changes.
pub open spec fn title_outcome(old: WindowManagerModel, new: WindowManagerModel, id: WindowId, text: Seq<u8>) -> bool {
    match first_match(old.slots, slot_window(id)) {
        Some(i) => {
            let w = old.slots[i]->0;
            new.slots[i] matches Some(n) && n.title@ == overwrite_prefix(w.title@, text) && n.title_len == clipped(
                text,
            ).len() && new == old.with_slot(i, Some(Window { title: n.title, title_len: n.title_len, ..w }))
        },
        None => new == old,
    }
}

/// Set the title of window `id`, if open.
pub fn set_window_title(wm: &mut WindowManager, id: WindowId, title: &str)
    requires
        old(wm)@.wf(),
    ensures
        final(wm)@.wf(),
        old(wm)@.focus_ok() ==> final(wm)@.focus_ok(),
        title_outcome(old(wm)@, final(wm)@, id, title.spec_bytes()),
{
    let ghost before = wm@;
    if let Some(w) = wm.get_window_mut(id) {
        w.set_title(title);
    }
    proof {
        match first_match(before.slots, slot_window(id)) {
            Some(i) => {
                assert(is_first_match(before.slots, slot_window(id), i));
                lemma_count_some_update(before.slots, i, wm@.slots[i]);
                assert forall|a: int, b: int|
                    0 <= a < b < MAX_WINDOWS && (#[trigger] wm@.slots[a]) is Some && (#[trigger] wm@.slots[b]) is Some
                        implies wm@.slots[a]->0.id != wm@.slots[b]->0.id by {
                    assert(before.slots[a] is Some && before.slots[b] is Some);
                }
            },
            None => {},
        }
    }
}

/// The focused window, if any.
pub fn get_focused_window(wm: &WindowManager) -> (r: Option<WindowId>)
    ensures
        r == wm@.focused,
{
    wm.focused_window
}

/// Move the focus to window `id`: the focused window loses it, window `id`
/// (if open) gains it, and `id` becomes the focused id.
pub fn set_focused_window(wm: &mut WindowManager, id: WindowId)
    requires
        old(wm)@.wf(),
    ensures
        final(wm)@.wf(),
        old(wm)@.focus_ok() ==> final(wm)@.focus_ok(),
        final(wm)@ == (WindowManagerModel {
            focused: Some(id),
            ..old(wm)@.with_focus(old(wm)@.focused, false).with_focus(Some(id), true)
        }),
{
    let ghost m0 = wm@;
    if let Some(old_id) = wm.focused_window {
        wm.set_focus(old_id, false);
    }
    let ghost mid = wm@;
    proof {
        if m0.focus_ok() {
            lemma_unfocus_leaves_none(m0);
        }
    }
    wm.set_focus(id, true);
    wm.focused_window = Some(id);
    proof {
        if m0.focus_ok() {
            assert forall|i: int|
                0 <= i < wm@.slots.len() && (#[trigger] wm@.slots[i]) is Some && wm@.slots[i]->0.has_focus
                    implies wm@.focused == Some(wm@.slots[i]->0.id) by {
                match first_match(mid.slots, slot_window(id)) {
                    Some(k) => {
                        assert(is_first_match(mid.slots, slot_window(id), k));
                        if i != k {
                            assert(mid.slots[i] == wm@.slots[i]);
                        }
                    },
                    None => {},
                }
            }
        }
    }
}

} // verus!

//! Mouse input: a hardware-neutral queue of pointer events and the pointer
//! position.

use vstd::prelude::*;
use crate::driver::event_ring::{EventRing, RING_CAPACITY};

verus! {

pub const MOUSE_QUEUE_SIZE: usize = 128;

#[derive(Debug, Clone, Copy, PartialEq, Eq, Structural)]
pub enum MouseButton {
    Left,
    Right,
    Middle,
}

#[derive(Debug, Clone, Copy, PartialEq, Eq, Structural)]
pub enum MouseEventKind {
    Move,
    ButtonPress(MouseButton),
    ButtonRelease(MouseButton),
    Scroll(i8),
}

#[derive(Debug, Clone, Copy)]
pub struct MouseEvent {
    pub x: i32,
    pub y: i32,
    pub dx: i32,
    pub dy: i32,
    pub kind: MouseEventKind,
}

/// `a + b` clamped to the `i32` range.
pub open spec fn sat_add(a: i32, b: i32) -> i32 {
    if a + b > i32::MAX {
        i32::MAX
    } else if a + b < i32::MIN {
        i32::MIN
    } else {
        (a + b) as i32
    }
}

fn saturating_add_i32(a: i32, b: i32) -> (r: i32)
    ensures
        r == sat_add(a, b),
{
    let s = a as i64 + b as i64;
    if s > i32::MAX as i64 {
        i32::MAX
    } else if s < i32::MIN as i64 {
        i32::MIN
    } else {
        s as i32
    }
}

/// Pointer position, queued events and the count of events dropped on overflow.
pub struct MouseDriver {
    x: i32,
    y: i32,
    queue: EventRing<MouseEvent>,
    dropped: u64,
}

impl MouseDriver {
    pub closed spec fn wf(&self) -> bool {
        self.queue.wf()
    }

    /// Pointer position.
    pub closed spec fn pos(&self) -> (i32, i32) {
        (self.x, self.y)
    }

    /// Queued events, oldest first.
    pub closed spec fn events(&self) -> Seq<MouseEvent> {
        self.queue@
    }

    /// Events dropped because the queue was full.
    pub closed spec fn dropped(&self) -> u64 {
        self.dropped
    }

    pub fn new() -> (r: Self)
        ensures
            r.wf(),
            r.pos() == (0i32, 0i32),
            r.events() == Seq::<MouseEvent>::empty(),
            r.dropped() == 0,
    {
        MouseDriver { x: 0, y: 0, queue: EventRing::new(), dropped: 0 }
    }

    /// Pointer to the origin, queue empty, drop count zero.
    pub fn reset(&mut self)
        ensures
            final(self).wf(),
            final(self).pos() == (0i32, 0i32),
            final(self).events() == Seq::<MouseEvent>::empty(),
            final(self).dropped() == 0,
    {
        self.x = 0;
        self.y = 0;
        self.queue = EventRing::new();
        self.dropped = 0;
    }

    /// Move the pointer by `(dx, dy)`, clamped to the `i32` range, and queue
    /// a move event.
    pub fn move_by(&mut self, dx: i32, dy: i32) -> (r: bool)
        requires
            old(self).wf(),
            old(self).events().len() >= MOUSE_QUEUE_SIZE ==> old(self).dropped() < u64::MAX,
        ensures
            final(self).wf(),
            final(self).pos() == (sat_add(old(self).pos().0, dx), sat_add(old(self).pos().1, dy)),
            queued_outcome(
                *old(self),
                *final(self),
                MouseEvent {
                    x: final(self).pos().0,
                    y: final(self).pos().1,
                    dx,
                    dy,
                    kind: MouseEventKind::Move,
                },
                r,
            ),
    {
        self.x = saturating_add_i32(self.x, dx);
        self.y = saturating_add_i32(self.y, dy);
        let event = MouseEvent { x: self.x, y: self.y, dx, dy, kind: MouseEventKind::Move };
        self.push_event(event)
    }

    /// Queue `event`; when the queue is full count it as dropped and return false.
    pub fn push_event(&mut self, event: MouseEvent) -> (r: bool)
        requires
            old(self).wf(),
            old(self).events().len() >= MOUSE_QUEUE_SIZE ==> old(self).dropped() < u64::MAX,
        ensures
            final(self).wf(),
            final(self).pos() == old(self).pos(),
            queued_outcome(*old(self), *final(self), event, r),
    {
        if self.queue.len() >= MOUSE_QUEUE_SIZE {
            self.dropped += 1;
            return false;
        }
        self.queue.push(event)
    }

    /// Take the oldest event.
    pub fn pop_event(&mut self) -> (r: Option<MouseEvent>)
        requires
            old(self).wf(),
        ensures
            final(self).wf(),
            final(self).pos() == old(self).pos(),
            final(self).dropped() == old(self).dropped(),
            old(self).events().len() == 0 ==> r is None && final(self).events() == old(self).events(),
            old(self).events().len() > 0 ==> r == Some(old(self).events()[0]) && final(self).events() == old(self).events().drop_first(),
    {
        self.queue.pop()
    }
}

/// Queueing `event` took the driver from `old` to `new` with result `r`.
pub open spec fn queued_outcome(old: MouseDriver, new: MouseDriver, event: MouseEvent, r: bool) -> bool {
    &&& r == (old.events().len() < MOUSE_QUEUE_SIZE)
    &&& r ==> new.events() == old.events().push(event) && new.dropped() == old.dropped()
    &&& !r ==> new.events() == old.events() && new.dropped() == old.dropped() + 1
}

/// Reset the mouse.
pub fn init(mouse: &mut MouseDriver)
    ensures
        final(mouse).wf(),
        final(mouse).pos() == (0i32, 0i32),
        final(mouse).events() == Seq::<MouseEvent>::empty(),
        final(mouse).dropped() == 0,
{
    mouse.reset();
}

/// Move the pointer and queue a move event.
pub fn move_by(mouse: &mut MouseDriver, dx: i32, dy: i32) -> (r: bool)
    requires
        old(mouse).wf(),
        old(mouse).events().len() >= MOUSE_QUEUE_SIZE ==> old(mouse).dropped() < u64::MAX,
    ensures
        final(mouse).wf(),
        final(mouse).pos() == (sat_add(old(mouse).pos().0, dx), sat_add(old(mouse).pos().1, dy)),
        queued_outcome(
            *old(mouse),
            *final(mouse),
            MouseEvent { x: final(mouse).pos().0, y: final(mouse).pos().1, dx, dy, kind: MouseEventKind::Move },
            r,
        ),
{
    mouse.move_by(dx, dy)
}

/// Queue the press or release of `button` at the pointer.
pub fn button(mouse: &mut MouseDriver, btn: MouseButton, pressed: bool) -> (r: bool)
    requires
        old(mouse).wf(),
        old(mouse).events().len() >= MOUSE_QUEUE_SIZE ==> old(mouse).dropped() < u64::MAX,
    ensures
        final(mouse).wf(),
        final(mouse).pos() == old(mouse).pos(),
        queued_outcome(
            *old(mouse),
            *final(mouse),
            MouseEvent {
                x: old(mouse).pos().0,
                y: old(mouse).pos().1,
                dx: 0,
                dy: 0,
                kind: if pressed {
                    MouseEventKind::ButtonPress(btn)
                } else {
                    MouseEventKind::ButtonRelease(btn)
                },
            },
            r,
        ),
{
    let kind = if pressed {
        MouseEventKind::ButtonPress(btn)
    } else {
        MouseEventKind::ButtonRelease(btn)
    };
    let (x, y) = position(mouse);
    let event = MouseEvent { x, y, dx: 0, dy: 0, kind };
    mouse.push_event(event)
}

/// Take the oldest mouse event.
pub fn read_event(mouse: &mut MouseDriver) -> (r: Option<MouseEvent>)
    requires
        old(mouse).wf(),
    ensures
        final(mouse).wf(),
        final(mouse).pos() == old(mouse).pos(),
        final(mouse).dropped() == old(mouse).dropped(),
        old(mouse).events().len() == 0 ==> r is None && final(mouse).events() == old(mouse).events(),
        old(mouse).events().len() > 0 ==> r == Some(old(mouse).events()[0]) && final(mouse).events() == old(mouse).events().drop_first(),
{
    mouse.pop_event()
}

/// Pointer position.
pub fn position(mouse: &MouseDriver) -> (r: (i32, i32))
    ensures
        r == mouse.pos(),
{
    (mouse.x, mouse.y)
}

/// Number of queued mouse events.
pub fn pending_events(mouse: &MouseDriver) -> (r: usize)
    requires
        mouse.wf(),
    ensures
        r == mouse.events().len(),
        r <= MOUSE_QUEUE_SIZE,
{
    mouse.queue.len()
}

/// Number of mouse events dropped on overflow.
pub fn dropped_events(mouse: &MouseDriver) -> (r: u64)
    ensures
        r == mouse.dropped(),
{
    mouse.dropped
}

} // verus!

//! Unified input: one place for the GUI to poll keyboard and mouse.

use vstd::prelude::*;
use crate::driver::keyboard::{self, KeyboardDriver, KeyboardEvent, KEYBOARD_QUEUE_SIZE};
use crate::driver::mouse::{self, MouseDriver, MouseEvent, MOUSE_QUEUE_SIZE};

verus! {

#[derive(Debug, Clone, Copy)]
pub enum InputEvent {
    Keyboard(KeyboardEvent),
    Mouse(MouseEvent),
}

/// Reset both input queues.
pub fn init(keyboard: &mut KeyboardDriver, mouse: &mut MouseDriver)
    ensures
        final(keyboard).wf(),
        final(keyboard).events() == Seq::<KeyboardEvent>::empty(),
        final(keyboard).dropped() == 0,
        final(mouse).wf(),
        final(mouse).pos() == (0i32, 0i32),
        final(mouse).events() == Seq::<MouseEvent>::empty(),
        final(mouse).dropped() == 0,
{
    keyboard::init(keyboard);
    mouse::init(mouse);
}

/// The oldest keyboard event, else the oldest mouse event.
pub fn poll_event(keyboard: &mut KeyboardDriver, mouse: &mut MouseDriver) -> (r: Option<InputEvent>)
    requires
        old(keyboard).wf(),
        old(mouse).wf(),
    ensures
        final(keyboard).wf(),
        final(mouse).wf(),
        final(keyboard).dropped() == old(keyboard).dropped(),
        final(mouse).dropped() == old(mouse).dropped(),
        final(mouse).pos() == old(mouse).pos(),
        old(keyboard).events().len() > 0 ==> r == Some(InputEvent::Keyboard(old(keyboard).events()[0]))
            && final(keyboard).events() == old(keyboard).events().drop_first() && final(mouse).events() == old(mouse).events(),
        old(keyboard).events().len() == 0 && old(mouse).events().len() > 0 ==> r == Some(
            InputEvent::Mouse(old(mouse).events()[0]),
        ) && final(keyboard).events() == old(keyboard).events() && final(mouse).events() == old(mouse).events().drop_first(),
        old(keyboard).events().len() == 0 && old(mouse).events().len() == 0 ==> r is None && final(keyboard).events() == old(keyboard).events() && final(mouse).events() == old(mouse).events(),
{
    if let Some(event) = keyboard::read_event(keyboard) {
        return Some(InputEvent::Keyboard(event));
    }
    match mouse::read_event(mouse) {
        Some(event) => Some(InputEvent::Mouse(event)),
        None => None,
    }
}

/// Number of queued input events.
pub fn pending_events(keyboard: &KeyboardDriver, mouse: &MouseDriver) -> (r: usize)
    requires
        keyboard.wf(),
        mouse.wf(),
    ensures
        r == keyboard.events().len() + mouse.events().len(),
{
    keyboard::pending_events(keyboard) + mouse::pending_events(mouse)
}

/// Number of input events dropped on overflow.
pub fn dropped_events(keyboard: &KeyboardDriver, mouse: &MouseDriver) -> (r: u64)
    requires
        keyboard.dropped() + mouse.dropped() <= u64::MAX,
    ensures
        r == keyboard.dropped() + mouse.dropped(),
{
    keyboard::dropped_events(keyboard) + mouse::dropped_events(mouse)
}

} // verus!

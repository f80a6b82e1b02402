//! Keyboard input: a hardware-neutral event queue that PS/2, USB HID or a
//! serial console backend feeds with scancodes.

use vstd::prelude::*;
use crate::driver::event_ring::{EventRing, RING_CAPACITY};

verus! {

pub const KEYBOARD_QUEUE_SIZE: usize = 128;

#[derive(Debug, Clone, Copy, PartialEq, Eq, Structural)]
pub enum KeyState {
    Pressed,
    Released,
}

#[derive(Debug, Clone, Copy)]
pub struct KeyboardEvent {
    pub scancode: u16,
    pub ascii: Option<u8>,
    pub state: KeyState,
    pub modifiers: u8,
}

/// Queued keyboard events and the count of events dropped on overflow.
pub struct KeyboardDriver {
    queue: EventRing<KeyboardEvent>,
    dropped: u64,
}

impl KeyboardDriver {
    pub closed spec fn wf(&self) -> bool {
        self.queue.wf()
    }

    /// Queued events, oldest first.
    pub closed spec fn events(&self) -> Seq<KeyboardEvent> {
        self.queue@
    }

    /// Events dropped because the queue was full.
    pub closed spec fn dropped(&self) -> u64 {
        self.dropped
    }

    pub fn new() -> (r: Self)
        ensures
            r.wf(),
            r.events() == Seq::<KeyboardEvent>::empty(),
            r.dropped() == 0,
    {
        KeyboardDriver { queue: EventRing::new(), dropped: 0 }
    }

    /// Empty the queue and zero the drop count.
    pub fn reset(&mut self)
        ensures
            final(self).wf(),
            final(self).events() == Seq::<KeyboardEvent>::empty(),
            final(self).dropped() == 0,
    {
        self.queue = EventRing::new();
        self.dropped = 0;
    }

    /// Queue `event`; when the queue is full count it as dropped and return false.
    pub fn push_event(&mut self, event: KeyboardEvent) -> (r: bool)
        requires
            old(self).wf(),
            old(self).events().len() >= KEYBOARD_QUEUE_SIZE ==> old(self).dropped() < u64::MAX,
        ensures
            final(self).wf(),
            r == (old(self).events().len() < KEYBOARD_QUEUE_SIZE),
            r ==> final(self).events() == old(self).events().push(event) && final(self).dropped() == old(self).dropped(),
            !r ==> final(self).events() == old(self).events() && final(self).dropped() == old(self).dropped() + 1,
    {
        if self.queue.len() >= KEYBOARD_QUEUE_SIZE {
            self.dropped += 1;
            return false;
        }
        self.queue.push(event)
    }

    /// Take the oldest event.
    pub fn pop_event(&mut self) -> (r: Option<KeyboardEvent>)
        requires
            old(self).wf(),
        ensures
            final(self).wf(),
            final(self).dropped() == old(self).dropped(),
            old(self).events().len() == 0 ==> r is None && final(self).events() == old(self).events(),
            old(self).events().len() > 0 ==> r == Some(old(self).events()[0]) && final(self).events() == old(self).events().drop_first(),
    {
        self.queue.pop()
    }

    fn queued(&self) -> (r: usize)
        requires
            self.wf(),
        ensures
            r == self.events().len(),
            r <= KEYBOARD_QUEUE_SIZE,
    {
        self.queue.len()
    }

    fn dropped_count(&self) -> (r: u64)
        ensures
            r == self.dropped(),
    {
        self.dropped
    }
}

/// Set-1 scancode to ASCII for digits, lower-case letters and space.
pub open spec fn ascii_of(scancode: u16) -> Option<u8> {
    if 0x02 <= scancode <= 0x0A {
        Some((0x31 + scancode - 0x02) as u8)
    } else if scancode == 0x0B {
        Some(0x30u8)
    } else if scancode == 0x10 { Some(0x71u8) }
    else if scancode == 0x11 { Some(0x77u8) }
    else if scancode == 0x12 { Some(0x65u8) }
    else if scancode == 0x13 { Some(0x72u8) }
    else if scancode == 0x14 { Some(0x74u8) }
    else if scancode == 0x15 { Some(0x79u8) }
    else if scancode == 0x16 { Some(0x75u8) }
    else if scancode == 0x17 { Some(0x69u8) }
    else if scancode == 0x18 { Some(0x6fu8) }
    else if scancode == 0x19 { Some(0x70u8) }
    else if scancode == 0x1E { Some(0x61u8) }
    else if scancode == 0x1F { Some(0x73u8) }
    else if scancode == 0x20 { Some(0x64u8) }
    else if scancode == 0x21 { Some(0x66u8) }
    else if scancode == 0x22 { Some(0x67u8) }
    else if scancode == 0x23 { Some(0x68u8) }
    else if scancode == 0x24 { Some(0x6au8) }
    else if scancode == 0x25 { Some(0x6bu8) }
    else if scancode == 0x26 { Some(0x6cu8) }
    else if scancode == 0x2C { Some(0x7au8) }
    else if scancode == 0x2D { Some(0x78u8) }
    else if scancode == 0x2E { Some(0x63u8) }
    else if scancode == 0x2F { Some(0x76u8) }
    else if scancode == 0x30 { Some(0x62u8) }
    else if scancode == 0x31 { Some(0x6eu8) }
    else if scancode == 0x32 { Some(0x6du8) }
    else if scancode == 0x39 { Some(0x20u8) }
    else { None }
}

/// The key map types what is printed on the keys: the digit row
/// (scancodes `0x02..=0x0B`) gives the digits, `1` first and `0` last;
/// every key gives a digit, a lower-case letter or a space; and no two keys
/// give the same character.
pub proof fn law_keymap(sc1: u16, sc2: u16)
    ensures
        0x02 <= sc1 <= 0x0B ==> (ascii_of(sc1) matches Some(c) && 0x30 <= c <= 0x39),
        0x02 <= sc1 <= 0x0A ==> ascii_of(sc1) == Some((0x30 + sc1 - 1) as u8),
        ascii_of(0x0B) == Some(0x30u8),
        ascii_of(sc1) matches Some(c) ==> (0x30 <= c <= 0x39 || 0x61 <= c <= 0x7a || c == 0x20),
        ascii_of(sc1) is Some && ascii_of(sc1) == ascii_of(sc2) ==> sc1 == sc2,
{
}

/// The letter keys follow the QWERTY layout: the three letter rows start at
/// scancodes `0x10`, `0x1E` and `0x2C` and read `qwertyuiop`, `asdfghjkl`
/// and `zxcvbnm`; `0x39` is the space bar.
pub proof fn law_qwerty_rows(k: int)
    ensures
        0 <= k < 10 ==> ascii_of((0x10 + k) as u16) == Some(
            seq![0x71u8, 0x77, 0x65, 0x72, 0x74, 0x79, 0x75, 0x69, 0x6f, 0x70][k],
        ),
        0 <= k < 9 ==> ascii_of((0x1E + k) as u16) == Some(
            seq![0x61u8, 0x73, 0x64, 0x66, 0x67, 0x68, 0x6a, 0x6b, 0x6c][k],
        ),
        0 <= k < 7 ==> ascii_of((0x2C + k) as u16) == Some(seq![0x7au8, 0x78, 0x63, 0x76, 0x62, 0x6e, 0x6d][k]),
        ascii_of(0x39) == Some(0x20u8),
{
}

/// The ASCII byte of a set-1 scancode, for digits, letters and space.
pub fn scancode_to_ascii(scancode: u16) -> (r: Option<u8>)
    ensures
        r == ascii_of(scancode),
        0x02 <= scancode <= 0x0B ==> (r matches Some(c) && 0x30 <= c <= 0x39),
        scancode == 0x0B ==> r == Some(0x30u8),
        r matches Some(c) ==> (0x30 <= c <= 0x39 || 0x61 <= c <= 0x7a || c == 0x20),
{
    match scancode {
        0x02 => Some(0x31),
        0x03 => Some(0x32),
        0x04 => Some(0x33),
        0x05 => Some(0x34),
        0x06 => Some(0x35),
        0x07 => Some(0x36),
        0x08 => Some(0x37),
        0x09 => Some(0x38),
        0x0A => Some(0x39),
        0x0B => Some(0x30),
        0x10 => Some(0x71),
        0x11 => Some(0x77),
        0x12 => Some(0x65),
        0x13 => Some(0x72),
        0x14 => Some(0x74),
        0x15 => Some(0x79),
        0x16 => Some(0x75),
        0x17 => Some(0x69),
        0x18 => Some(0x6f),
        0x19 => Some(0x70),
        0x1E => Some(0x61),
        0x1F => Some(0x73),
        0x20 => Some(0x64),
        0x21 => Some(0x66),
        0x22 => Some(0x67),
        0x23 => Some(0x68),
        0x24 => Some(0x6a),
        0x25 => Some(0x6b),
        0x26 => Some(0x6c),
        0x2C => Some(0x7a),
        0x2D => Some(0x78),
        0x2E => Some(0x63),
        0x2F => Some(0x76),
        0x30 => Some(0x62),
        0x31 => Some(0x6e),
        0x32 => Some(0x6d),
        0x39 => Some(0x20),
        _ => None,
    }
}

/// Reset the keyboard queue.
pub fn init(keyboard: &mut KeyboardDriver)
    ensures
        final(keyboard).wf(),
        final(keyboard).events() == Seq::<KeyboardEvent>::empty(),
        final(keyboard).dropped() == 0,
{
    keyboard.reset();
}

/// The event a scancode makes.
pub open spec fn scancode_event(scancode: u16, pressed: bool) -> KeyboardEvent {
    KeyboardEvent {
        scancode,
        ascii: ascii_of(scancode),
        state: if pressed {
            KeyState::Pressed
        } else {
            KeyState::Released
        },
        modifiers: 0,
    }
}

/// Queue the press or release of `scancode`.
pub fn push_scancode(keyboard: &mut KeyboardDriver, scancode: u16, pressed: bool) -> (r: bool)
    requires
        old(keyboard).wf(),
        old(keyboard).events().len() >= KEYBOARD_QUEUE_SIZE ==> old(keyboard).dropped() < u64::MAX,
    ensures
        final(keyboard).wf(),
        r == (old(keyboard).events().len() < KEYBOARD_QUEUE_SIZE),
        r ==> final(keyboard).events() == old(keyboard).events().push(scancode_event(scancode, pressed))
            && final(keyboard).dropped() == old(keyboard).dropped(),
        !r ==> final(keyboard).events() == old(keyboard).events() && final(keyboard).dropped() == old(keyboard).dropped() + 1,
{
    let state = if pressed {
        KeyState::Pressed
    } else {
        KeyState::Released
    };
    let event = KeyboardEvent { scancode, ascii: scancode_to_ascii(scancode), state, modifiers: 0 };
    keyboard.push_event(event)
}

/// Queue `event`.
pub fn push_event(keyboard: &mut KeyboardDriver, event: KeyboardEvent) -> (r: bool)
    requires
        old(keyboard).wf(),
        old(keyboard).events().len() >= KEYBOARD_QUEUE_SIZE ==> old(keyboard).dropped() < u64::MAX,
    ensures
        final(keyboard).wf(),
        r == (old(keyboard).events().len() < KEYBOARD_QUEUE_SIZE),
        r ==> final(keyboard).events() == old(keyboard).events().push(event) && final(keyboard).dropped() == old(keyboard).dropped(),
        !r ==> final(keyboard).events() == old(keyboard).events() && final(keyboard).dropped() == old(keyboard).dropped() + 1,
{
    keyboard.push_event(event)
}

/// Take the oldest keyboard event.
pub fn read_event(keyboard: &mut KeyboardDriver) -> (r: Option<KeyboardEvent>)
    requires
        old(keyboard).wf(),
    ensures
        final(keyboard).wf(),
        final(keyboard).dropped() == old(keyboard).dropped(),
        old(keyboard).events().len() == 0 ==> r is None && final(keyboard).events() == old(keyboard).events(),
        old(keyboard).events().len() > 0 ==> r == Some(old(keyboard).events()[0]) && final(keyboard).events()
            == old(keyboard).events().drop_first(),
{
    keyboard.pop_event()
}

/// Number of queued keyboard events.
pub fn pending_events(keyboard: &KeyboardDriver) -> (r: usize)
    requires
        keyboard.wf(),
    ensures
        r == keyboard.events().len(),
        r <= KEYBOARD_QUEUE_SIZE,
{
    keyboard.queued()
}

/// Number of keyboard events dropped on overflow.
pub fn dropped_events(keyboard: &KeyboardDriver) -> (r: u64)
    ensures
        r == keyboard.dropped(),
{
    keyboard.dropped_count()
}

} // verus!

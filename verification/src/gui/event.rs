//! GUI events: the event queue and the handlers events are dispatched to.

use vstd::prelude::*;

verus! {

/// Mouse button.
#[derive(Debug, Clone, Copy, PartialEq, Eq, Structural)]
pub enum MouseButton {
    Left,
    Right,
    Middle,
}

/// What happened.
#[derive(Debug, Clone, Copy)]
pub enum EventType {
    KeyPress(u8),
    KeyRelease(u8),
    MouseMove { x: u32, y: u32 },
    MouseClick { x: u32, y: u32, button: MouseButton },
    MouseRelease { x: u32, y: u32, button: MouseButton },
    WindowClose,
    WindowFocus,
    WindowBlur,
    ApplicationQuit,
}

/// An event, when it happened and the window it is for.
#[derive(Debug, Clone, Copy)]
pub struct InputEvent {
    pub event_type: EventType,
    pub timestamp: u64,
    pub target_window: Option<u32>,
}

/// A new event of type `t`: time 0, no target window.
pub open spec fn new_event(t: EventType) -> InputEvent {
    InputEvent { event_type: t, timestamp: 0, target_window: None }
}

impl InputEvent {
    pub fn new(event_type: EventType) -> (r: Self)
        ensures
            r == new_event(event_type),
    {
        InputEvent { event_type, timestamp: 0, target_window: None }
    }
}

/// Events the queue holds at most.
pub const QUEUE_SLOTS: usize = 256;
/// Most handlers.
pub const MAX_HANDLERS: usize = 16;

/// Slot of the ring that holds the `k`-th waiting event.
pub open spec fn queue_slot(head: int, k: int) -> int {
    (head + k) % (QUEUE_SLOTS as int)
}

/// The event queue: up to `QUEUE_SLOTS` waiting events in a ring, oldest
/// at `head`, and the handlers events go to. A handler returns true when it
/// consumed the event.
pub struct EventQueue<H> {
    events: [Option<InputEvent>; 256],
    head: usize,
    tail: usize,
    len: usize,
    handlers: [Option<H>; 16],
    handler_count: usize,
}

/// The state of an event queue: the waiting events, oldest first, and the
/// handler slots.
pub struct EventQueueModel<H> {
    pub pending: Seq<InputEvent>,
    pub handlers: Seq<Option<H>>,
    pub handler_count: nat,
}

impl<H> View for EventQueue<H> {
    type V = EventQueueModel<H>;

    closed spec fn view(&self) -> EventQueueModel<H> {
        EventQueueModel {
            pending: Seq::new(self.len as nat, |k: int| self.events@[queue_slot(self.head as int, k)]->0),
            handlers: self.handlers@,
            handler_count: self.handler_count as nat,
        }
    }
}

impl<H> EventQueueModel<H> {
    /// At most `QUEUE_SLOTS` events wait and at most `MAX_HANDLERS` handlers
    /// are registered.
    pub open spec fn wf(self) -> bool {
        &&& self.pending.len() <= QUEUE_SLOTS
        &&& self.handlers.len() == MAX_HANDLERS
        &&& self.handler_count <= MAX_HANDLERS
    }

    /// The queue after `push_event(e)`: `e` waits last, unless
    /// `QUEUE_SLOTS` events wait already and it is dropped.
    pub open spec fn pushed(self, e: InputEvent) -> EventQueueModel<H> {
        if self.pending.len() < QUEUE_SLOTS {
            EventQueueModel { pending: self.pending.push(e), ..self }
        } else {
            self
        }
    }

    /// The queue after a `pop_event` that found an event.
    pub open spec fn popped(self) -> EventQueueModel<H> {
        EventQueueModel { pending: self.pending.drop_first(), ..self }
    }
}

impl<H> EventQueue<H> {
    /// The waiting events lie in the slots from `head` on, the other slots
    /// are free, and the model is well formed.
    pub closed spec fn wf(&self) -> bool {
        &&& self.head < QUEUE_SLOTS
        &&& self.len <= QUEUE_SLOTS
        &&& self.tail == queue_slot(self.head as int, self.len as int)
        &&& forall|i: int|
            0 <= i < QUEUE_SLOTS ==> ((#[trigger] self.events@[i]) is Some <==> exists|k: int|
                0 <= k < self.len && i == queue_slot(self.head as int, k))
        &&& self@.wf()
    }
}

impl<H: Copy> EventQueue<H> {
    pub fn new() -> (r: Self)
        ensures
            r.wf(),
            r@.pending == Seq::<InputEvent>::empty(),
            r@.handlers == Seq::new(MAX_HANDLERS as nat, |i: int| None::<H>),
            r@.handler_count == 0,
    {
        let r = EventQueue {
            events: [None; 256],
            head: 0,
            tail: 0,
            len: 0,
            handlers: [None; 16],
            handler_count: 0,
        };
        assert(r@.pending =~= Seq::<InputEvent>::empty());
        assert(r@.handlers =~= Seq::new(MAX_HANDLERS as nat, |i: int| None::<H>));
        r
    }
}

impl<H> EventQueue<H> {
    /// Queue `event` last; a queue holding `QUEUE_SLOTS` events already
    /// drops it.
    pub fn push_event(&mut self, event: InputEvent)
        requires
            old(self).wf(),
        ensures
            final(self).wf(),
            final(self)@ == old(self)@.pushed(event),
    {
        if self.len >= QUEUE_SLOTS {
            return;
        }
        let ghost old_q = self@.pending;
        let ghost old_s = self.events@;
        let tail = self.tail;
        self.events[tail] = Some(event);
        self.tail = (self.tail + 1) % QUEUE_SLOTS;
        self.len += 1;
        proof {
            let h = self.head as int;
            assert forall|k: int| 0 <= k < old_q.len() implies queue_slot(h, k) != tail as int by {}
            assert(self@.pending =~= old_q.push(event)) by {
                assert forall|k: int| 0 <= k < old_q.len() implies self.events@[queue_slot(h, k)] == old_s[queue_slot(h, k)] by {}
            }
            assert forall|i: int|
                0 <= i < QUEUE_SLOTS implies ((#[trigger] self.events@[i]) is Some <==> exists|k: int|
                0 <= k < self.len && i == queue_slot(h, k)) by {
                if i == tail {
                    assert(i == queue_slot(h, old_q.len() as int));
                } else {
                    assert(self.events@[i] == old_s[i]);
                    if old_s[i] is Some {
                        let k = choose|k: int| 0 <= k < old_q.len() && i == queue_slot(h, k);
                        assert(0 <= k < self.len && i == queue_slot(h, k));
                    }
                    if exists|k: int| 0 <= k < self.len && i == queue_slot(h, k) {
                        let k = choose|k: int| 0 <= k < self.len && i == queue_slot(h, k);
                        assert(k < old_q.len());
                    }
                }
            }
        }
    }

    /// Take the oldest waiting event, if any.
    pub fn pop_event(&mut self) -> (r: Option<InputEvent>)
        requires
            old(self).wf(),
        ensures
            final(self).wf(),
            old(self)@.pending.len() > 0 ==> r == Some(old(self)@.pending[0]) && final(self)@ == old(self)@.popped(),
            old(self)@.pending.len() == 0 ==> r is None && final(self)@ == old(self)@,
    {
        if self.len == 0 {
            return None;
        }
        let ghost old_q = self@.pending;
        let ghost old_s = self.events@;
        let ghost h = self.head as int;
        let head = self.head;
        proof {
            assert(old_s[queue_slot(h, 0)] is Some);
        }
        let event = self.events[head];
        self.events[head] = None;
        self.head = (self.head + 1) % QUEUE_SLOTS;
        self.len -= 1;
        proof {
            let h2 = self.head as int;
            assert forall|k: int| 0 <= k < self.len implies queue_slot(h2, k) == queue_slot(h, k + 1) by {}
            assert forall|k: int| 0 <= k < old_q.len() && k != 0 implies queue_slot(h, k) != head as int by {}
            assert(self@.pending =~= old_q.drop_first()) by {
                assert forall|k: int| 0 <= k < self.len implies self.events@[queue_slot(h2, k)] == old_s[queue_slot(h, k + 1)] by {}
            }
            assert forall|i: int|
                0 <= i < QUEUE_SLOTS implies ((#[trigger] self.events@[i]) is Some <==> exists|k: int|
                0 <= k < self.len && i == queue_slot(h2, k)) by {
                if i == head {
                    if exists|k: int| 0 <= k < self.len && i == queue_slot(h2, k) {
                        let k = choose|k: int| 0 <= k < self.len && i == queue_slot(h2, k);
                        assert(queue_slot(h, k + 1) == head);
                    }
                } else {
                    assert(self.events@[i] == old_s[i]);
                    if old_s[i] is Some {
                        let k = choose|k: int| 0 <= k < old_q.len() && i == queue_slot(h, k);
                        assert(k != 0);
                        assert(i == queue_slot(h2, k - 1));
                    }
                    if exists|k: int| 0 <= k < self.len && i == queue_slot(h2, k) {
                        let k = choose|k: int| 0 <= k < self.len && i == queue_slot(h2, k);
                        assert(i == queue_slot(h, k + 1));
                    }
                }
            }
        }
        event
    }

    /// Add a handler; false when `MAX_HANDLERS` are registered already.
    pub fn register_handler(&mut self, handler: H) -> (r: bool)
        requires
            old(self).wf(),
        ensures
            final(self).wf(),
            r == (old(self)@.handler_count < MAX_HANDLERS),
            r ==> final(self)@ == (EventQueueModel {
                handlers: old(self)@.handlers.update(old(self)@.handler_count as int, Some(handler)),
                handler_count: old(self)@.handler_count + 1,
                ..old(self)@
            }),
            !r ==> final(self)@ == old(self)@,
    {
        if self.handler_count < MAX_HANDLERS {
            self.handlers[self.handler_count] = Some(handler);
            self.handler_count += 1;
            proof {
                assert(self@.pending =~= old(self)@.pending);
            }
            true
        } else {
            false
        }
    }
}

/// The first `n` handler slots that are set can each be called on any
/// event.
pub open spec fn handlers_callable<H: Fn(&InputEvent) -> bool>(handlers: Seq<Option<H>>, n: nat) -> bool {
    forall|i: int, e: InputEvent|
        0 <= i < n && i < handlers.len() && handlers[i] is Some ==> #[trigger] call_requires(handlers[i]->0, (&e,))
}

/// Handler slot `h` passes `e` on: it is empty, or its handler returns
/// false for `e`.
pub open spec fn declined<H: Fn(&InputEvent) -> bool>(h: Option<H>, e: InputEvent) -> bool {
    match h {
        None => true,
        Some(f) => call_ensures(f, (&e,), false),
    }
}

/// `j` is where dispatching `e` to the first `n` handler slots stopped:
/// every slot before it passed the event on, and unless `j` is `n` the
/// handler at `j` consumed it.
pub open spec fn stopped_at<H: Fn(&InputEvent) -> bool>(handlers: Seq<Option<H>>, n: nat, e: InputEvent, j: int) -> bool {
    &&& 0 <= j <= n
    &&& forall|i: int| 0 <= i < j ==> #[trigger] declined(handlers[i], e)
    &&& j < n ==> handlers[j] is Some && call_ensures(handlers[j]->0, (&e,), true)
}

/// `e` was offered to the first `n` handler slots in order until one
/// consumed it.
pub open spec fn dispatched<H: Fn(&InputEvent) -> bool>(handlers: Seq<Option<H>>, n: nat, e: InputEvent) -> bool {
    exists|j: int| stopped_at(handlers, n, e, j)
}

impl<H: Fn(&InputEvent) -> bool> EventQueue<H> {
    /// Offer `event` to the registered handlers in order until one consumes
    /// it; the queue itself does not change.
    pub fn dispatch(&mut self, event: InputEvent)
        requires
            old(self).wf(),
            handlers_callable(old(self)@.handlers, old(self)@.handler_count),
        ensures
            final(self).wf(),
            final(self)@ == old(self)@,
            dispatched(old(self)@.handlers, old(self)@.handler_count, event),
    {
        let mut i: usize = 0;
        loop
            invariant
                *self == *old(self),
                self.wf(),
                handlers_callable(self@.handlers, self@.handler_count),
                i <= self.handler_count,
                self@.handler_count == self.handler_count,
                forall|k: int| 0 <= k < i ==> #[trigger] declined(self@.handlers[k], event),
            ensures
                *self == *old(self),
                exists|j: int| stopped_at(old(self)@.handlers, old(self)@.handler_count, event, j),
            decreases self.handler_count - i,
        {
            if i >= self.handler_count {
                assert(stopped_at(self@.handlers, self@.handler_count, event, i as int));
                break;
            }
            if let Some(handler) = &self.handlers[i] {
                if handler(&event) {
                    assert(stopped_at(self@.handlers, self@.handler_count, event, i as int));
                    break;
                }
            }
            i += 1;
        }
    }

    /// Take every waiting event, oldest first, and dispatch it.
    pub fn process_all(&mut self)
        requires
            old(self).wf(),
            handlers_callable(old(self)@.handlers, old(self)@.handler_count),
        ensures
            final(self).wf(),
            final(self)@ == (EventQueueModel { pending: Seq::<InputEvent>::empty(), ..old(self)@ }),
            forall|k: int|
                0 <= k < old(self)@.pending.len() ==> dispatched(
                    old(self)@.handlers,
                    old(self)@.handler_count,
                    #[trigger] old(self)@.pending[k],
                ),
    {
        let ghost o = self@;
        let ghost mut d: int = 0;
        loop
            invariant
                o == old(self)@,
                self.wf(),
                handlers_callable(self@.handlers, self@.handler_count),
                self@.handlers == o.handlers,
                self@.handler_count == o.handler_count,
                0 <= d <= o.pending.len(),
                self@.pending == o.pending.skip(d),
                forall|k: int| 0 <= k < d ==> dispatched(o.handlers, o.handler_count, #[trigger] o.pending[k]),
            ensures
                self.wf(),
                self@.handlers == o.handlers,
                self@.handler_count == o.handler_count,
                self@.pending.len() == 0,
                d == o.pending.len(),
                forall|k: int| 0 <= k < d ==> dispatched(o.handlers, o.handler_count, #[trigger] o.pending[k]),
            decreases o.pending.len() - d,
        {
            match self.pop_event() {
                Some(event) => {
                    proof {
                        assert(event == o.pending[d]);
                        assert(o.pending.skip(d + 1) =~= o.pending.skip(d).drop_first());
                        d = d + 1;
                    }
                    self.dispatch(event);
                },
                None => {
                    break;
                },
            }
        }
        assert(self@.pending =~= Seq::<InputEvent>::empty());
    }
}

/// The queue keeps order and holds `QUEUE_SLOTS` events: what is pushed
/// while there is room comes out after everything already waiting, in the
/// order pushed, and a full queue keeps what it has.
pub proof fn law_queue_fifo<H>(q: EventQueueModel<H>, a: InputEvent, b: InputEvent)
    requires
        q.wf(),
    ensures
        q.pending.len() + 2 <= QUEUE_SLOTS ==> q.pushed(a).pushed(b).pending == q.pending + seq![a, b],
        q.pending.len() == 0 ==> q.pushed(a).pushed(b).pending[0] == a,
        q.pending.len() == 0 ==> q.pushed(a).pushed(b).popped().pending == seq![b],
        q.pending.len() == QUEUE_SLOTS ==> q.pushed(a) == q,
{
    assert(q.pushed(a).pushed(b).pending =~= q.pending + seq![a, b] || q.pending.len() + 2 > QUEUE_SLOTS);
    if q.pending.len() == 0 {
        assert(q.pushed(a).pushed(b).popped().pending =~= seq![b]);
    }
}

/// Nothing to set up: the queue starts empty.
pub fn init() {
}

/// Put `event` on the queue.
pub fn queue_event<H>(queue: &mut EventQueue<H>, event: InputEvent)
    requires
        old(queue).wf(),
    ensures
        final(queue).wf(),
        final(queue)@ == old(queue)@.pushed(event),
{
    queue.push_event(event)
}

/// Add a handler; a full handler table leaves it out.
pub fn register_event_handler<H>(queue: &mut EventQueue<H>, handler: H)
    requires
        old(queue).wf(),
    ensures
        final(queue).wf(),
        old(queue)@.handler_count < MAX_HANDLERS ==> final(queue)@ == (EventQueueModel {
            handlers: old(queue)@.handlers.update(old(queue)@.handler_count as int, Some(handler)),
            handler_count: old(queue)@.handler_count + 1,
            ..old(queue)@
        }),
        old(queue)@.handler_count >= MAX_HANDLERS ==> final(queue)@ == old(queue)@,
{
    queue.register_handler(handler);
}

/// Dispatch every waiting event.
pub fn process_events<H: Fn(&InputEvent) -> bool>(queue: &mut EventQueue<H>)
    requires
        old(queue).wf(),
        handlers_callable(old(queue)@.handlers, old(queue)@.handler_count),
    ensures
        final(queue).wf(),
        final(queue)@ == (EventQueueModel { pending: Seq::<InputEvent>::empty(), ..old(queue)@ }),
        forall|k: int|
            0 <= k < old(queue)@.pending.len() ==> dispatched(
                old(queue)@.handlers,
                old(queue)@.handler_count,
                #[trigger] old(queue)@.pending[k],
            ),
{
    queue.process_all()
}

/// Queue a key press.
pub fn on_key_press<H>(queue: &mut EventQueue<H>, key: u8)
    requires
        old(queue).wf(),
    ensures
        final(queue)@ == old(queue)@.pushed(new_event(EventType::KeyPress(key))),
        final(queue).wf(),
{
    queue_event(queue, InputEvent::new(EventType::KeyPress(key)))
}

/// Queue a key release.
pub fn on_key_release<H>(queue: &mut EventQueue<H>, key: u8)
    requires
        old(queue).wf(),
    ensures
        final(queue)@ == old(queue)@.pushed(new_event(EventType::KeyRelease(key))),
        final(queue).wf(),
{
    queue_event(queue, InputEvent::new(EventType::KeyRelease(key)))
}

/// Queue a pointer move.
pub fn on_mouse_move<H>(queue: &mut EventQueue<H>, x: u32, y: u32)
    requires
        old(queue).wf(),
    ensures
        final(queue)@ == old(queue)@.pushed(new_event(EventType::MouseMove { x, y })),
        final(queue).wf(),
{
    queue_event(queue, InputEvent::new(EventType::MouseMove { x, y }))
}

/// Queue a button press.
pub fn on_mouse_click<H>(queue: &mut EventQueue<H>, x: u32, y: u32, button: MouseButton)
    requires
        old(queue).wf(),
    ensures
        final(queue)@ == old(queue)@.pushed(new_event(EventType::MouseClick { x, y, button })),
        final(queue).wf(),
{
    queue_event(queue, InputEvent::new(EventType::MouseClick { x, y, button }))
}

/// Queue a button release.
pub fn on_mouse_release<H>(queue: &mut EventQueue<H>, x: u32, y: u32, button: MouseButton)
    requires
        old(queue).wf(),
    ensures
        final(queue)@ == old(queue)@.pushed(new_event(EventType::MouseRelease { x, y, button })),
        final(queue).wf(),
{
    queue_event(queue, InputEvent::new(EventType::MouseRelease { x, y, button }))
}

/// Queue a request to close window `window_id`.
pub fn on_window_close<H>(queue: &mut EventQueue<H>, window_id: u32)
    requires
        old(queue).wf(),
    ensures
        final(queue)@ == old(queue)@.pushed(
            InputEvent { target_window: Some(window_id), ..new_event(EventType::WindowClose) },
        ),
        final(queue).wf(),
{
    let mut event = InputEvent::new(EventType::WindowClose);
    event.target_window = Some(window_id);
    queue_event(queue, event)
}

/// Queue a request to quit.
pub fn on_quit<H>(queue: &mut EventQueue<H>)
    requires
        old(queue).wf(),
    ensures
        final(queue)@ == old(queue)@.pushed(new_event(EventType::ApplicationQuit)),
        final(queue).wf(),
{
    queue_event(queue, InputEvent::new(EventType::ApplicationQuit))
}

/// Whether no event waits.
pub fn is_empty<H>(queue: &EventQueue<H>) -> (r: bool)
    ensures
        r == (queue@.pending.len() == 0),
{
    queue.len == 0
}

/// How many events wait.
pub fn event_count<H>(queue: &EventQueue<H>) -> (r: usize)
    ensures
        r == queue@.pending.len(),
{
    queue.len
}

} // verus!

//! A fixed-capacity first-in first-out ring of input events.

use vstd::prelude::*;

verus! {

/// Capacity of an event ring.
pub const RING_CAPACITY: usize = 128;

/// Slot of the ring that holds the `k`-th queued entry.
pub open spec fn slot_of(head: int, k: int) -> int {
    (head + k) % (RING_CAPACITY as int)
}

/// Up to `RING_CAPACITY` events, oldest first.
pub struct EventRing<T> {
    slots: [Option<T>; RING_CAPACITY],
    head: usize,
    tail: usize,
    len: usize,
}

impl<T: Copy> View for EventRing<T> {
    type V = Seq<T>;

    closed spec fn view(&self) -> Seq<T> {
        Seq::new(self.len as nat, |k: int| self.slots@[slot_of(self.head as int, k)]->0)
    }
}

impl<T: Copy> EventRing<T> {
    /// The ring holds `len` events from `head` on, in occupied slots; the other
    /// slots are free.
    pub closed spec fn wf(&self) -> bool {
        &&& self.head < RING_CAPACITY
        &&& self.len <= RING_CAPACITY
        &&& self.tail == slot_of(self.head as int, self.len as int)
        &&& forall|i: int|
            0 <= i < RING_CAPACITY ==> ((#[trigger] self.slots@[i]) is Some <==> exists|k: int|
                0 <= k < self.len && i == slot_of(self.head as int, k))
    }

    /// An empty ring.
    pub fn new() -> (r: Self)
        ensures
            r.wf(),
            r@ == Seq::<T>::empty(),
    {
        let r = EventRing { slots: [None; RING_CAPACITY], head: 0, tail: 0, len: 0 };
        assert(r@ =~= Seq::<T>::empty());
        r
    }

    /// Number of queued events.
    pub fn len(&self) -> (r: usize)
        requires
            self.wf(),
        ensures
            r == self@.len(),
            r <= RING_CAPACITY,
    {
        self.len
    }

    /// Queue `event` at the back; false when the ring is full.
    pub fn push(&mut self, event: T) -> (r: bool)
        requires
            old(self).wf(),
        ensures
            final(self).wf(),
            r == (old(self)@.len() < RING_CAPACITY),
            r ==> final(self)@ == old(self)@.push(event),
            !r ==> final(self)@ == old(self)@,
    {
        if self.len >= RING_CAPACITY {
            return false;
        }
        let ghost old_q = self@;
        let ghost old_s = self.slots@;
        let tail = self.tail;
        self.slots[tail] = Some(event);
        self.tail = (self.tail + 1) % RING_CAPACITY;
        self.len += 1;
        proof {
            let h = self.head as int;
            assert forall|k: int| 0 <= k < old_q.len() implies slot_of(h, k) != tail as int by {}
            assert(self@ =~= old_q.push(event)) by {
                assert forall|k: int| 0 <= k < old_q.len() implies self.slots@[slot_of(h, k)] == old_s[slot_of(h, k)] by {}
            }
            assert forall|i: int|
                0 <= i < RING_CAPACITY implies ((#[trigger] self.slots@[i]) is Some <==> exists|k: int|
                0 <= k < self.len && i == slot_of(h, k)) by {
                if i == tail {
                    assert(i == slot_of(h, old_q.len() as int));
                } else {
                    assert(self.slots@[i] == old_s[i]);
                    if old_s[i] is Some {
                        let k = choose|k: int| 0 <= k < old_q.len() && i == slot_of(h, k);
                        assert(0 <= k < self.len && i == slot_of(h, k));
                    }
                    if exists|k: int| 0 <= k < self.len && i == slot_of(h, k) {
                        let k = choose|k: int| 0 <= k < self.len && i == slot_of(h, k);
                        assert(k < old_q.len());
                    }
                }
            }
        }
        true
    }

    /// Take the oldest event.
    pub fn pop(&mut self) -> (r: Option<T>)
        requires
            old(self).wf(),
        ensures
            final(self).wf(),
            old(self)@.len() == 0 ==> r is None && final(self)@ == old(self)@,
            old(self)@.len() > 0 ==> r == Some(old(self)@[0]) && final(self)@ == old(self)@.drop_first(),
    {
        if self.len == 0 {
            return None;
        }
        let ghost old_q = self@;
        let ghost old_s = self.slots@;
        let ghost h = self.head as int;
        let head = self.head;
        proof {
            assert(old_s[slot_of(h, 0)] is Some);
        }
        let event = self.slots[head];
        self.slots[head] = None;
        self.head = (self.head + 1) % RING_CAPACITY;
        self.len -= 1;
        proof {
            let h2 = self.head as int;
            assert forall|k: int| 0 <= k < self.len implies slot_of(h2, k) == slot_of(h, k + 1) by {}
            assert forall|k: int| 0 <= k < old_q.len() && k != 0 implies slot_of(h, k) != head as int by {}
            assert(self@ =~= old_q.drop_first()) by {
                assert forall|k: int| 0 <= k < self.len implies self.slots@[slot_of(h2, k)] == old_s[slot_of(h, k + 1)] by {}
            }
            assert forall|i: int|
                0 <= i < RING_CAPACITY implies ((#[trigger] self.slots@[i]) is Some <==> exists|k: int|
                0 <= k < self.len && i == slot_of(h2, k)) by {
                if i == head {
                    if exists|k: int| 0 <= k < self.len && i == slot_of(h2, k) {
                        let k = choose|k: int| 0 <= k < self.len && i == slot_of(h2, k);
                        assert(slot_of(h, k + 1) == head);
                    }
                } else {
                    assert(self.slots@[i] == old_s[i]);
                    if old_s[i] is Some {
                        let k = choose|k: int| 0 <= k < old_q.len() && i == slot_of(h, k);
                        assert(k != 0);
                        assert(i == slot_of(h2, k - 1));
                    }
                    if exists|k: int| 0 <= k < self.len && i == slot_of(h2, k) {
                        let k = choose|k: int| 0 <= k < self.len && i == slot_of(h2, k);
                        assert(i == slot_of(h, k + 1));
                    }
                }
            }
        }
        event
    }
}

/// Events leave a ring in the order they entered it: the front of a
/// non-empty ring stays the front after a push, and a push then a pop equals
/// a pop then a push.
pub proof fn law_fifo<T>(q: Seq<T>, x: T)
    requires
        q.len() > 0,
    ensures
        q.push(x)[0] == q[0],
        q.push(x).drop_first() == q.drop_first().push(x),
{
    assert(q.push(x).drop_first() =~= q.drop_first().push(x));
}

} // verus!

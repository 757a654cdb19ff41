//! Queue with one producer and one consumer.
//!
//! The producer owns the head cursor and the consumer the tail cursor. Each
//! end keeps a copy of its own cursor and reads the other one from the ring.

use crate::ring_buffer::cache_pad::CachePadded;
use crate::ring_buffer::cursor;
use vstd::prelude::*;

verus! {

/// The ring that both ends work on.
pub struct SpscShared<T, const CAP: usize> {
    /// Number of items ever pushed, up to wrapping.
    head: CachePadded<u64>,
    /// Number of items ever popped, up to wrapping.
    tail: CachePadded<u64>,
    slots: Vec<Option<T>>,
}

/// The producing end.
pub struct SpscProducer<T, const CAP: usize> {
    cached_head: u64,
    _item: std::marker::PhantomData<T>,
}

/// The consuming end.
pub struct SpscConsumer<T, const CAP: usize> {
    cached_tail: u64,
    _item: std::marker::PhantomData<T>,
}

impl<T, const CAP: usize> SpscShared<T, CAP> {
    /// Number of items in the queue.
    spec fn len(self) -> nat {
        cursor::distance(self.head.0, self.tail.0)
    }

    spec fn slot_at(self, d: int) -> int {
        cursor::slot_of(cursor::ahead(self.tail.0, d), CAP as u64) as int
    }

    /// The items in the queue, the oldest first.
    pub closed spec fn view(self) -> Seq<T> {
        Seq::new(self.len(), |d: int| self.slots@[self.slot_at(d)]->0)
    }

    pub closed spec fn wf(self) -> bool {
        &&& cursor::is_power_of_two(CAP as u64)
        &&& self.slots@.len() == CAP
        &&& self.len() <= CAP
        &&& forall|d: int|
            0 <= d < self.len() ==> self.slots@[#[trigger] self.slot_at(d)] is Some
    }

    /// The queue never holds more than its capacity.
    pub proof fn law_bounded(self)
        requires
            self.wf(),
        ensures
            self@.len() <= CAP,
    {
    }
}

impl<T, const CAP: usize> SpscProducer<T, CAP> {
    /// This is the producing end of the ring.
    pub closed spec fn feeds(self, ring: SpscShared<T, CAP>) -> bool {
        self.cached_head == ring.head.0
    }

    /// Appends `item`, or gives it back if the queue is full. Never waits.
    pub fn try_push(&mut self, ring: &mut SpscShared<T, CAP>, item: T) -> (r: Result<(), T>)
        requires
            old(ring).wf(),
            old(self).feeds(*old(ring)),
        ensures
            final(ring).wf(),
            final(self).feeds(*final(ring)),
            forall|c: SpscConsumer<T, CAP>|
                c.drains(*old(ring)) ==> #[trigger] c.drains(*final(ring)),
            match r {
                Ok(_) => old(ring)@.len() < CAP && final(ring)@ == old(ring)@.push(item),
                Err(back) => old(ring)@.len() == CAP && back == item && final(ring)@
                    == old(ring)@,
            },
    {
        let ghost before = *ring;
        let head: u64 = self.cached_head;
        let tail: u64 = *ring.tail.get();
        if head.wrapping_sub(tail) == CAP as u64 {
            return Err(item);
        }
        let slot: usize = cursor::slot(head, CAP);
        ring.slots[slot] = Some(item);
        *ring.head.get_mut() = head.wrapping_add(1);
        self.cached_head = head.wrapping_add(1);
        proof {
            let n = before.len() as int;
            assert(ring.len() == n + 1);
            assert(cursor::ahead(tail, n) == head);
            assert forall|d: int| 0 <= d < n + 1 implies ring.slots@[#[trigger] ring.slot_at(
                d,
            )] is Some && (d < n ==> ring.slots@[ring.slot_at(d)]
                == before.slots@[before.slot_at(d)]) && (d == n
                ==> ring.slots@[ring.slot_at(d)] == Some(item)) by {
                assert(ring.slot_at(d) == before.slot_at(d));
                cursor::lemma_slot_below(cursor::ahead(tail, d), CAP as u64);
                if d < n {
                    cursor::lemma_slots_apart(tail, d, n, CAP as u64);
                }
            }
            assert(ring@ =~= before@.push(item));
        }
        Ok(())
    }
}

impl<T, const CAP: usize> SpscConsumer<T, CAP> {
    /// This is the consuming end of the ring.
    pub closed spec fn drains(self, ring: SpscShared<T, CAP>) -> bool {
        self.cached_tail == ring.tail.0
    }

    /// Takes the oldest item out, `None` if there is none. Never waits.
    pub fn try_pop(&mut self, ring: &mut SpscShared<T, CAP>) -> (r: Option<T>)
        requires
            old(ring).wf(),
            old(self).drains(*old(ring)),
        ensures
            final(ring).wf(),
            final(self).drains(*final(ring)),
            forall|p: SpscProducer<T, CAP>|
                p.feeds(*old(ring)) ==> #[trigger] p.feeds(*final(ring)),
            match r {
                Some(item) => old(ring)@.len() > 0 && item == old(ring)@[0] && final(ring)@
                    == old(ring)@.drop_first(),
                None => old(ring)@.len() == 0 && final(ring)@ == old(ring)@,
            },
    {
        let ghost before = *ring;
        let tail: u64 = self.cached_tail;
        let head: u64 = *ring.head.get();
        if head == tail {
            return None;
        }
        let slot: usize = cursor::slot(tail, CAP);
        proof {
            assert(cursor::ahead(tail, 0) == tail);
            assert(before.slots@[before.slot_at(0)] is Some);
        }
        let item = ring.slots[slot].take();
        *ring.tail.get_mut() = tail.wrapping_add(1);
        self.cached_tail = tail.wrapping_add(1);
        proof {
            let n = before.len() as int;
            assert(ring.len() == n - 1);
            assert forall|d: int| 0 <= d < n - 1 implies ring.slots@[#[trigger] ring.slot_at(
                d,
            )] is Some && ring.slots@[ring.slot_at(d)] == before.slots@[before.slot_at(d + 1)] by {
                assert(cursor::ahead(ring.tail.0, d) == cursor::ahead(tail, d + 1));
                cursor::lemma_slot_below(cursor::ahead(tail, d + 1), CAP as u64);
                cursor::lemma_slots_apart(tail, 0, d + 1, CAP as u64);
                assert(before.slots@[before.slot_at(d + 1)] is Some);
            }
            assert(ring@ =~= before@.drop_first());
        }
        item
    }
}

/// Makes an empty queue for `CAP` items, a power of two: its two ends and the
/// ring between them.
pub fn spsc_queue<T, const CAP: usize>() -> (r: (
    SpscProducer<T, CAP>,
    SpscConsumer<T, CAP>,
    SpscShared<T, CAP>,
))
    requires
        cursor::is_power_of_two(CAP as u64),
    ensures
        r.2.wf(),
        r.2@ == Seq::<T>::empty(),
        r.0.feeds(r.2),
        r.1.drains(r.2),
{
    let slots: Vec<Option<T>> = empty_slots(CAP);
    let ring = SpscShared { head: CachePadded::new(0), tail: CachePadded::new(0), slots };
    assert(ring@ =~= Seq::<T>::empty());
    (
        SpscProducer { cached_head: 0, _item: std::marker::PhantomData },
        SpscConsumer { cached_tail: 0, _item: std::marker::PhantomData },
        ring,
    )
}

/// `n` empty slots.
pub fn empty_slots<T>(n: usize) -> (slots: Vec<Option<T>>)
    ensures
        slots@.len() == n,
        forall|i: int| 0 <= i < n ==> #[trigger] slots@[i] is None,
{
    let mut slots: Vec<Option<T>> = Vec::new();
    let mut i: usize = 0;
    while i < n
        invariant
            i <= n,
            slots@.len() == i,
            forall|j: int| 0 <= j < i ==> #[trigger] slots@[j] is None,
        decreases n - i,
    {
        slots.push(None);
        i += 1;
    }
    slots
}

/// Nothing is lost, repeated or reordered: what was pushed is at all times
/// what was popped followed by what is in the queue. A push adds to both
/// sides, and a pop moves the front item from one part to the other.
pub proof fn law_fifo<T>(popped: Seq<T>, queue: Seq<T>, item: T)
    ensures
        popped + queue.push(item) == (popped + queue).push(item),
        queue.len() > 0 ==> popped.push(queue[0]) + queue.drop_first() == popped + queue,
{
    assert(popped + queue.push(item) =~= (popped + queue).push(item));
    if queue.len() > 0 {
        assert(popped.push(queue[0]) + queue.drop_first() =~= popped + queue);
    }
}

} // verus!

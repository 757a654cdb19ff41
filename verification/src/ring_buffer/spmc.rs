//! Queue with one producer and many consumers, each of which gets every item.
//!
//! Every consumer reads at its own pace. The producer may overwrite a slot
//! only when the slowest consumer has read it, so a consumer that falls a
//! whole ring behind holds the producer up.

use crate::ring_buffer::cache_pad::CachePadded;
use crate::ring_buffer::cursor;
use crate::ring_buffer::spsc::empty_slots;
use vstd::prelude::*;

verus! {

/// The ring that all ends work on.
pub struct SpmcShared<T, const CAP: usize> {
    /// Number of items ever published.
    head: CachePadded<u64>,
    /// Number of items that each consumer has read.
    consumer_tails: Vec<CachePadded<u64>>,
    slots: Vec<Option<T>>,
    /// All items ever published, the first one first.
    history: Ghost<Seq<T>>,
}

/// The producing end.
pub struct SpmcProducer<T, const CAP: usize> {
    cached_head: u64,
    _item: std::marker::PhantomData<T>,
}

/// One consuming end.
pub struct SpmcConsumer<T, const CAP: usize> {
    id: usize,
    cached_tail: u64,
    _item: std::marker::PhantomData<T>,
}

impl<T, const CAP: usize> SpmcShared<T, CAP> {
    /// Everything that was ever published.
    pub closed spec fn published(self) -> Seq<T> {
        self.history@
    }

    /// Number of consumers.
    pub closed spec fn consumers(self) -> nat {
        self.consumer_tails@.len()
    }

    /// Number of items that consumer `i` has read.
    pub closed spec fn read(self, i: int) -> nat {
        self.consumer_tails@[i].0 as nat
    }

    /// The slot of the `k`th item still holds it.
    spec fn holds(self, k: int) -> bool {
        let s = cursor::slot_of(k as u64, CAP as u64) as int;
        0 <= s < self.slots@.len() && self.slots@[s] == Some(self.history@[k])
    }

    pub closed spec fn wf(self) -> bool {
        &&& cursor::is_power_of_two(CAP as u64)
        &&& self.slots@.len() == CAP
        &&& self.head.0 == self.history@.len()
        &&& forall|i: int|
            0 <= i < self.consumer_tails@.len() ==> {
                let tail = (#[trigger] self.consumer_tails@[i]).0;
                tail <= self.head.0 <= tail + CAP
            }
        &&& self.consumer_tails@.len() == 0 ==> self.head.0 <= CAP
        &&& forall|k: int|
            0 <= k < self.head.0 && self.head.0 - CAP <= k ==> #[trigger] self.holds(k)
    }

    /// No slot can be overwritten: a consumer has not read the oldest item in
    /// the ring, or there is no consumer at all and the ring is used up.
    pub open spec fn full(self) -> bool {
        if self.consumers() == 0 {
            self.published().len() == CAP
        } else {
            exists|i: int|
                0 <= i < self.consumers() && self.published().len() == #[trigger] self.read(i)
                    + CAP
        }
    }

    /// No consumer is ahead of the producer or further behind it than the
    /// capacity.
    pub proof fn law_lag_bounded(self, i: int)
        requires
            self.wf(),
            0 <= i < self.consumers(),
        ensures
            self.read(i) <= self.published().len() <= self.read(i) + CAP,
    {
        assert(self.consumer_tails@[i].0 <= self.head.0);
    }

    /// The cursor of the consumer that is furthest behind, 0 if there is none.
    fn min_tail(&self) -> (m: u64)
        requires
            self.wf(),
        ensures
            self.consumers() == 0 ==> m == 0,
            forall|i: int| 0 <= i < self.consumers() ==> m <= #[trigger] self.read(i),
            self.consumers() > 0 ==> exists|i: int|
                0 <= i < self.consumers() && m == #[trigger] self.read(i),
    {
        let n: usize = self.consumer_tails.len();
        if n == 0 {
            return 0;
        }
        let mut m: u64 = *self.consumer_tails[0].get();
        let mut i: usize = 1;
        assert(m == self.read(0));
        while i < n
            invariant
                self.wf(),
                1 <= i <= n == self.consumer_tails@.len(),
                forall|j: int| 0 <= j < i ==> m <= #[trigger] self.read(j),
                exists|j: int| 0 <= j < i && m == #[trigger] self.read(j),
            decreases n - i,
        {
            let t: u64 = *self.consumer_tails[i].get();
            assert(t == self.read(i as int));
            if t < m {
                m = t;
            }
            i += 1;
        }
        m
    }
}

impl<T: Clone, const CAP: usize> SpmcProducer<T, CAP> {
    /// This is the producing end of the ring.
    pub closed spec fn feeds(self, ring: SpmcShared<T, CAP>) -> bool {
        self.cached_head == ring.head.0
    }

    /// Publishes `item` to all consumers, or gives it back if the slowest one
    /// has yet to read the slot that it would go to. Never waits.
    pub fn try_push(&mut self, ring: &mut SpmcShared<T, CAP>, item: T) -> (r: Result<(), T>)
        requires
            old(ring).wf(),
            old(self).feeds(*old(ring)),
            old(ring).published().len() < u64::MAX,
        ensures
            final(ring).wf(),
            final(self).feeds(*final(ring)),
            final(ring).consumers() == old(ring).consumers(),
            forall|i: int| #[trigger] final(ring).read(i) == old(ring).read(i),
            forall|c: SpmcConsumer<T, CAP>|
                c.drains(*old(ring)) ==> #[trigger] c.drains(*final(ring)),
            match r {
                Ok(_) => !old(ring).full() && final(ring).published()
                    == old(ring).published().push(item),
                Err(back) => old(ring).full() && back == item && final(ring).published()
                    == old(ring).published(),
            },
    {
        let ghost before = *ring;
        let head: u64 = self.cached_head;
        let min_tail: u64 = ring.min_tail();
        proof {
            if ring.consumers() > 0 {
                let i = choose|i: int|
                    0 <= i < ring.consumers() && min_tail == #[trigger] ring.read(i);
                ring.law_lag_bounded(i);
            }
            assert forall|i: int| 0 <= i < ring.consumers() implies ring.published().len()
                <= #[trigger] ring.read(i) + CAP by {
                ring.law_lag_bounded(i);
            }
        }
        if head.wrapping_sub(min_tail) == CAP as u64 {
            return Err(item);
        }
        let slot: usize = cursor::slot(head, CAP);
        let ghost all = ring.history@.push(item);
        ring.slots[slot] = Some(item);
        *ring.head.get_mut() = head.wrapping_add(1);
        ring.history = Ghost(all);
        self.cached_head = head.wrapping_add(1);
        proof {
            assert forall|i: int| 0 <= i < ring.consumer_tails@.len() implies {
                let tail = (#[trigger] ring.consumer_tails@[i]).0;
                tail <= ring.head.0 <= tail + CAP
            } by {
                assert(before.read(i) >= min_tail);
                before.law_lag_bounded(i);
            }
            assert forall|k: int|
                0 <= k < ring.head.0 && ring.head.0 - CAP <= k implies #[trigger] ring.holds(k) by {
                if k < head {
                    assert(before.holds(k));
                    cursor::lemma_slots_apart(k as u64, 0, head - k, CAP as u64);
                }
            }
        }
        Ok(())
    }
}

impl<T: Clone, const CAP: usize> SpmcConsumer<T, CAP> {
    /// Which of the consumers this is.
    pub closed spec fn index(self) -> int {
        self.id as int
    }

    /// This is a consuming end of the ring.
    pub closed spec fn drains(self, ring: SpmcShared<T, CAP>) -> bool {
        self.id < ring.consumer_tails@.len() && self.cached_tail == ring.consumer_tails@[self.id
            as int].0
    }

    /// The next item that this consumer has not read, `None` if it has read
    /// everything. Other consumers are not affected. Never waits.
    pub fn try_pop(&mut self, ring: &mut SpmcShared<T, CAP>) -> (r: Option<T>)
        requires
            old(ring).wf(),
            old(self).drains(*old(ring)),
        ensures
            final(ring).wf(),
            final(self).drains(*final(ring)),
            final(self).index() == old(self).index(),
            final(ring).published() == old(ring).published(),
            final(ring).consumers() == old(ring).consumers(),
            forall|i: int|
                0 <= i < old(ring).consumers() && i != old(self).index()
                    ==> #[trigger] final(ring).read(i) == old(ring).read(i),
            forall|p: SpmcProducer<T, CAP>|
                p.feeds(*old(ring)) ==> #[trigger] p.feeds(*final(ring)),
            forall|c: SpmcConsumer<T, CAP>|
                c.index() != old(self).index() && c.drains(*old(ring)) ==> #[trigger] c.drains(
                    *final(ring),
                ),
            ({
                let n = old(ring).read(old(self).index());
                match r {
                    Some(item) => {
                        &&& n < old(ring).published().len()
                        &&& cloned(old(ring).published()[n as int], item)
                        &&& final(ring).read(old(self).index()) == n + 1
                    },
                    None => {
                        &&& n == old(ring).published().len()
                        &&& final(ring).read(old(self).index()) == n
                    },
                }
            }),
    {
        let ghost before = *ring;
        let tail: u64 = self.cached_tail;
        let head: u64 = *ring.head.get();
        proof {
            ring.law_lag_bounded(self.id as int);
        }
        if head == tail {
            return None;
        }
        assert(before.holds(tail as int));
        let slot: usize = cursor::slot(tail, CAP);
        let item = match &ring.slots[slot] {
            Some(v) => v.clone(),
            None => {
                return None;
            },
        };
        ring.consumer_tails[self.id] = CachePadded::new(tail.wrapping_add(1));
        self.cached_tail = tail.wrapping_add(1);
        proof {
            assert forall|i: int| 0 <= i < ring.consumer_tails@.len() implies {
                let t = (#[trigger] ring.consumer_tails@[i]).0;
                t <= ring.head.0 <= t + CAP
            } by {
                before.law_lag_bounded(i);
            }
            assert forall|k: int|
                0 <= k < ring.head.0 && ring.head.0 - CAP <= k implies #[trigger] ring.holds(k) by {
                assert(before.holds(k));
            }
        }
        Some(item)
    }
}

/// Makes a queue for `CAP` items, a power of two, with `n_consumers`
/// consumers that all start at the beginning.
pub fn spmc_queue<T: Clone, const CAP: usize>(n_consumers: usize) -> (r: (
    SpmcProducer<T, CAP>,
    Vec<SpmcConsumer<T, CAP>>,
    SpmcShared<T, CAP>,
))
    requires
        cursor::is_power_of_two(CAP as u64),
    ensures
        r.2.wf(),
        r.2.published() == Seq::<T>::empty(),
        r.2.consumers() == n_consumers,
        r.0.feeds(r.2),
        r.1@.len() == n_consumers,
        forall|i: int|
            0 <= i < n_consumers ==> {
                &&& (#[trigger] r.1@[i]).drains(r.2)
                &&& r.1@[i].index() == i
                &&& r.2.read(i) == 0
            },
{
    let slots: Vec<Option<T>> = empty_slots(CAP);
    let mut tails: Vec<CachePadded<u64>> = Vec::new();
    let mut ends: Vec<SpmcConsumer<T, CAP>> = Vec::new();
    let mut i: usize = 0;
    while i < n_consumers
        invariant
            i <= n_consumers,
            tails@.len() == i,
            ends@.len() == i,
            forall|j: int| 0 <= j < i ==> (#[trigger] tails@[j]).0 == 0,
            forall|j: int|
                0 <= j < i ==> (#[trigger] ends@[j]).id == j && ends@[j].cached_tail == 0,
        decreases n_consumers - i,
    {
        tails.push(CachePadded::new(0));
        ends.push(SpmcConsumer { id: i, cached_tail: 0, _item: std::marker::PhantomData });
        i += 1;
    }
    let ring = SpmcShared {
        head: CachePadded::new(0),
        consumer_tails: tails,
        slots,
        history: Ghost(Seq::empty()),
    };
    (SpmcProducer { cached_head: 0, _item: std::marker::PhantomData }, ends, ring)
}

/// The ring takes another item exactly if no consumer would lose one: each of
/// them has fewer items unread than the ring has slots, and without consumers
/// fewer have been published.
pub proof fn law_ring_is_full_for_the_slowest<T, const CAP: usize>(ring: SpmcShared<T, CAP>)
    requires
        ring.wf(),
    ensures
        !ring.full() <==> {
            &&& forall|i: int|
                0 <= i < ring.consumers() ==> ring.published().len() - #[trigger] ring.read(i) < CAP
            &&& ring.consumers() == 0 ==> ring.published().len() < CAP
        },
{
    assert forall|i: int| 0 <= i < ring.consumers() implies ring.published().len()
        - #[trigger] ring.read(i) <= CAP by {
        ring.law_lag_bounded(i);
    }
}

} // verus!

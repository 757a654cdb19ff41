//! One price level: a FIFO queue of orders linked through the arena.

use crate::core_types::price::Price;
use crate::core_types::qty::Qty;
use crate::order_book::arena::{arena_reserved, OrderArena, OrderKey};
use crate::order_book::model;
use crate::order_book::model::OrderModel;
use crate::order_book::order::RestingOrder;
use vstd::prelude::*;

verus! {

/// All resting orders of one side at one price.
///
/// The orders form a doubly linked list through `RestingOrder::next` and
/// `RestingOrder::prev`, oldest first, so the level itself needs no storage.
pub struct PriceLevel {
    /// The price of the level.
    pub price: Price,
    /// Oldest order, the first to trade.
    pub head: Option<OrderKey>,
    /// Newest order.
    pub tail: Option<OrderKey>,
    /// Sum of the unfilled quantities at this level.
    pub total_qty: Qty,
    /// The keys from head to tail.
    pub queue: Ghost<Seq<OrderKey>>,
}

/// The orders that the keys stand for.
pub open spec fn orders_of(keys: Seq<OrderKey>, arena: Map<OrderKey, RestingOrder>) -> Seq<
    OrderModel,
> {
    Seq::new(keys.len(), |i: int| arena[keys[i]]@)
}

/// The order of the key is the same in both arenas.
pub open spec fn same_at(
    arena: Map<OrderKey, RestingOrder>,
    later: Map<OrderKey, RestingOrder>,
    k: OrderKey,
) -> bool {
    later.contains_key(k) && later[k] == arena[k]
}

/// The links of the order at place `i` of the queue.
pub open spec fn linked(
    q: Seq<OrderKey>,
    arena: Map<OrderKey, RestingOrder>,
    i: int,
) -> bool {
    &&& arena.contains_key(q[i])
    &&& arena[q[i]].prev == (if i == 0 {
        None
    } else {
        Some(q[i - 1])
    })
    &&& arena[q[i]].next == (if i == q.len() - 1 {
        None
    } else {
        Some(q[i + 1])
    })
}

impl PriceLevel {
    /// The keys of the orders at this level, oldest first.
    pub open spec fn keys(self) -> Seq<OrderKey> {
        self.queue@
    }

    /// The list is in order: no key twice, the links follow the queue, and
    /// the total is the sum of the quantities.
    pub open spec fn wf(self, arena: Map<OrderKey, RestingOrder>) -> bool {
        let q = self.queue@;
        &&& q.no_duplicates()
        &&& forall|i: int| 0 <= i < q.len() ==> #[trigger] linked(q, arena, i)
        &&& self.head == (if q.len() == 0 {
            None
        } else {
            Some(q[0])
        })
        &&& self.tail == (if q.len() == 0 {
            None
        } else {
            Some(q.last())
        })
        &&& self.total_qty.0 == model::qty_sum(orders_of(q, arena))
    }

    /// The level depends only on the orders in its own queue.
    pub proof fn lemma_frame(
        self,
        arena: Map<OrderKey, RestingOrder>,
        later: Map<OrderKey, RestingOrder>,
    )
        requires
            self.wf(arena),
            forall|k: OrderKey|
                self.keys().contains(k) ==> #[trigger] same_at(arena, later, k),
        ensures
            self.wf(later),
            orders_of(self.keys(), later) == orders_of(self.keys(), arena),
    {
        let q = self.queue@;
        assert forall|i: int| 0 <= i < q.len() implies #[trigger] linked(q, later, i) by {
            assert(linked(q, arena, i));
            assert(q.contains(q[i]));
            assert(same_at(arena, later, q[i]));
        }
        assert(orders_of(q, later) =~= orders_of(q, arena)) by {
            assert forall|i: int| 0 <= i < q.len() implies later[q[i]] == arena[q[i]] by {
                assert(q.contains(q[i]));
                assert(same_at(arena, later, q[i]));
            }
        }
    }

    /// What a well-formed level says of its keys and of its total.
    pub proof fn lemma_wf(self, arena: Map<OrderKey, RestingOrder>)
        requires
            self.wf(arena),
        ensures
            self.keys().no_duplicates(),
            forall|k: OrderKey| #[trigger] self.keys().contains(k) ==> arena.contains_key(k),
            self.total_qty.0 == model::qty_sum(orders_of(self.keys(), arena)),
    {
        let q = self.queue@;
        assert forall|k: OrderKey| #[trigger] q.contains(k) implies arena.contains_key(k) by {
            let i = choose|i: int| 0 <= i < q.len() && q[i] == k;
            assert(linked(q, arena, i));
        }
    }

    /// An empty level.
    pub fn new(price: Price) -> (level: PriceLevel)
        ensures
            level.price == price,
            level.keys() == Seq::<OrderKey>::empty(),
            level.total_qty.0 == 0,
            forall|arena: Map<OrderKey, RestingOrder>| #[trigger] level.wf(arena),
    {
        let level = PriceLevel {
            price,
            head: None,
            tail: None,
            total_qty: Qty(0),
            queue: Ghost(Seq::empty()),
        };
        proof {
            assert forall|arena: Map<OrderKey, RestingOrder>| #[trigger] level.wf(arena) by {
                assert(orders_of(level.queue@, arena).len() == 0);
            }
        }
        level
    }

    /// Puts the order of `key` at the tail of the queue.
    pub fn push_back(&mut self, key: OrderKey, arena: &mut OrderArena)
        requires
            old(self).wf(old(arena)@),
            old(arena)@.contains_key(key),
            !old(self).keys().contains(key),
            old(arena)@[key].is_unlinked(),
            old(self).total_qty.0 + old(arena)@[key].qty_remaining.0 <= u64::MAX,
        ensures
            final(self).wf(final(arena)@),
            final(self).keys() == old(self).keys().push(key),
            final(self).price == old(self).price,
            final(self).total_qty.0 == old(self).total_qty.0 + old(arena)@[key].qty_remaining.0,
            final(arena)@.dom() == old(arena)@.dom(),
            forall|k: OrderKey| (#[trigger] final(arena)@[k])@ == old(arena)@[k]@,
            forall|k: OrderKey|
                k != key && !old(self).keys().contains(k) ==> #[trigger] final(arena)@[k]
                    == old(arena)@[k],
            arena_reserved(*final(arena)) == arena_reserved(*old(arena)),
    {
        let ghost q = self.queue@;
        let ghost a0 = arena@;
        let qty = arena.at(key).qty_remaining;
        match self.tail {
            None => {
                self.head = Some(key);
                self.tail = Some(key);
            },
            Some(prev_tail) => {
                assert(linked(q, a0, q.len() - 1));
                assert(q.contains(prev_tail));
                arena.at_mut(prev_tail).next = Some(key);
                arena.at_mut(key).prev = Some(prev_tail);
                self.tail = Some(key);
            },
        }
        self.total_qty = Qty(self.total_qty.0 + qty.0);
        self.queue = Ghost(q.push(key));
        proof {
            let q1 = self.queue@;
            let a1 = arena@;
            assert(a1.dom() =~= a0.dom());
            assert forall|i: int| 0 <= i < q1.len() implies #[trigger] linked(q1, a1, i) by {
                if i < q.len() {
                    assert(linked(q, a0, i));
                    assert(q.contains(q[i]));
                }
            }
            assert(orders_of(q1, a1) =~= orders_of(q, a0).push(a0[key]@));
            lemma_qty_sum_push(orders_of(q, a0), a0[key]@);
        }
    }

    /// Takes the order of `key` out of the queue and out of the arena,
    /// wherever in the queue it stands. A dead key changes nothing.
    pub fn remove(&mut self, key: OrderKey, arena: &mut OrderArena) -> (r: Option<RestingOrder>)
        requires
            old(self).wf(old(arena)@),
            old(arena)@.contains_key(key) ==> old(self).keys().contains(key),
        ensures
            final(self).wf(final(arena)@),
            final(self).price == old(self).price,
            r is Some <==> old(arena)@.contains_key(key),
            r is None ==> *final(self) == *old(self) && final(arena)@ == old(arena)@,
            r matches Some(o) ==> {
                &&& o == old(arena)@[key]
                &&& final(self).keys() == old(self).keys().remove(
                    old(self).keys().index_of(key),
                )
                &&& final(self).total_qty.0 == old(self).total_qty.0 - o.qty_remaining.0
                &&& final(arena)@.dom() == old(arena)@.dom().remove(key)
                &&& forall|k: OrderKey|
                    k != key ==> (#[trigger] final(arena)@[k])@ == old(arena)@[k]@
                &&& forall|k: OrderKey|
                    !old(self).keys().contains(k) ==> #[trigger] final(arena)@[k]
                        == old(arena)@[k]
            },
            arena_reserved(*final(arena)) == arena_reserved(*old(arena)),
    {
        let ghost q = self.queue@;
        let ghost a0 = arena@;
        if !arena.contains_key(key) {
            return None;
        }
        let ghost i = q.index_of(key);
        assert(linked(q, a0, i));
        let prev = arena.at(key).prev;
        let next = arena.at(key).next;
        let qty = arena.at(key).qty_remaining;
        proof {
            if i > 0 {
                assert(linked(q, a0, i - 1));
            }
            if i < q.len() - 1 {
                assert(linked(q, a0, i + 1));
            }
            model::lemma_qty_sum_split(orders_of(q, a0), i);
        }
        if let Some(p) = prev {
            arena.at_mut(p).next = next;
        } else {
            self.head = next;
        }
        if let Some(n) = next {
            arena.at_mut(n).prev = prev;
        } else {
            self.tail = prev;
        }
        self.total_qty = Qty(self.total_qty.0 - qty.0);
        self.queue = Ghost(q.remove(i));
        let r = arena.remove(key);
        proof {
            let q1 = self.queue@;
            let a1 = arena@;
            assert(a1.dom() =~= a0.dom().remove(key));
            assert forall|j: int| 0 <= j < q1.len() implies #[trigger] linked(q1, a1, j) by {
                if j < i {
                    assert(linked(q, a0, j));
                } else {
                    assert(linked(q, a0, j + 1));
                }
            }
            assert(orders_of(q1, a1) =~= orders_of(q, a0).remove(i));
        }
        r
    }

    /// The key of the oldest order.
    pub fn peek_head(&self) -> (r: Option<OrderKey>)
        ensures
            r == self.head,
    {
        self.head
    }

    /// Fills the oldest order by `fill_qty`. An order that is filled
    /// completely leaves the queue and the arena, and the result is `true`.
    pub fn fill_head(&mut self, fill_qty: Qty, arena: &mut OrderArena) -> (filled: bool)
        requires
            old(self).wf(old(arena)@),
            old(self).head matches Some(h) ==> fill_qty.0 <= old(arena)@[h].qty_remaining.0,
        ensures
            final(self).wf(final(arena)@),
            final(self).price == old(self).price,
            old(self).head is None ==> !filled && *final(self) == *old(self) && final(arena)@
                == old(arena)@,
            old(self).head matches Some(h) ==> {
                &&& filled == (fill_qty.0 == old(arena)@[h].qty_remaining.0)
                &&& final(self).total_qty.0 == old(self).total_qty.0 - fill_qty.0
                &&& final(self).keys() == if filled {
                    old(self).keys().drop_first()
                } else {
                    old(self).keys()
                }
                &&& final(arena)@.dom() == if filled {
                    old(arena)@.dom().remove(h)
                } else {
                    old(arena)@.dom()
                }
                &&& !filled ==> final(arena)@[h]@ == (OrderModel {
                    qty: Qty((old(arena)@[h].qty_remaining.0 - fill_qty.0) as u64),
                    ..old(arena)@[h]@
                })
                &&& forall|k: OrderKey|
                    k != h ==> (#[trigger] final(arena)@[k])@ == old(arena)@[k]@
                &&& forall|k: OrderKey|
                    !old(self).keys().contains(k) ==> #[trigger] final(arena)@[k]
                        == old(arena)@[k]
            },
            arena_reserved(*final(arena)) == arena_reserved(*old(arena)),
    {
        let ghost q = self.queue@;
        let ghost a0 = arena@;
        let head_key = match self.head {
            Some(k) => k,
            None => return false,
        };
        assert(linked(q, a0, 0));
        proof {
            model::lemma_qty_sum_split(orders_of(q, a0), 0);
        }
        let order = arena.at_mut(head_key);
        order.qty_remaining = Qty(order.qty_remaining.0 - fill_qty.0);
        let left = order.qty_remaining;
        let next = order.next;
        self.total_qty = Qty(self.total_qty.0 - fill_qty.0);
        if left.0 == 0 {
            proof {
                if q.len() > 1 {
                    assert(linked(q, a0, 1));
                }
            }
            if let Some(n) = next {
                arena.at_mut(n).prev = None;
            }
            self.head = next;
            if self.head.is_none() {
                self.tail = None;
            }
            arena.remove(head_key);
            self.queue = Ghost(q.drop_first());
            proof {
                let q1 = self.queue@;
                let a1 = arena@;
                assert(a1.dom() =~= a0.dom().remove(head_key));
                assert forall|j: int| 0 <= j < q1.len() implies #[trigger] linked(q1, a1, j) by {
                    assert(linked(q, a0, j + 1));
                }
                assert(orders_of(q1, a1) =~= orders_of(q, a0).remove(0));
            }
            true
        } else {
            proof {
                let a1 = arena@;
                assert(a1.dom() =~= a0.dom());
                assert forall|j: int| 0 <= j < q.len() implies #[trigger] linked(q, a1, j) by {
                    assert(linked(q, a0, j));
                }
                model::lemma_qty_sum_split(orders_of(q, a1), 0);
                assert(orders_of(q, a1).remove(0) =~= orders_of(q, a0).remove(0));
            }
            false
        }
    }

    /// Whether no order rests at this level.
    pub fn is_empty(&self) -> (b: bool)
        ensures
            b == (self.head is None),
    {
        self.head.is_none()
    }
}

/// Adding an order at the end of a queue adds its quantity.
proof fn lemma_qty_sum_push(orders: Seq<OrderModel>, o: OrderModel)
    ensures
        model::qty_sum(orders.push(o)) == model::qty_sum(orders) + o.qty.0,
{
    let s = orders.push(o);
    model::lemma_qty_sum_split(s, s.len() - 1);
    assert(s.remove(s.len() - 1) =~= orders);
}

} // verus!

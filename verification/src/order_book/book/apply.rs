//! State transitions of the book.
//!
//! `OrderBook::apply` is the one way to change a book: from a book and a
//! command to the next book and its events.

use super::{ids_ok, OrderBook};
use crate::core_types::commands::{
    InboundCommand, OrderType, SequencedCommand, TimeInForce,
};
use crate::core_types::events::{EngineEvent, RejectReason};
use crate::core_types::ids::{AccountId, ClientOrderId, OrderId, Symbol};
use crate::core_types::price::Price;
use crate::core_types::qty::Qty;
use crate::core_types::side::Side;
use crate::order_book::arena::{arena_reserved, OrderKey};
use crate::order_book::events::EventVec;
use crate::order_book::ladder;
use crate::order_book::laws;
use crate::order_book::level;
use crate::order_book::level::PriceLevel;
use crate::order_book::model;
use crate::order_book::model::{Incoming, OrderModel};
use crate::order_book::order::RestingOrder;
use vstd::prelude::*;

verus! {

broadcast use vstd::std_specs::hash::group_hash_axioms;

/// Why the book could not do what it was asked to.
#[derive(Debug, Clone, Copy, PartialEq, Eq, Structural)]
pub enum BookError {
    /// The price is outside the ladder.
    PriceOutOfRange(Price),
    /// The quantity is zero.
    InvalidQty(Qty),
    /// No open order has this id.
    OrderNotFound(OrderId),
    /// The order belongs to another account.
    WrongAccount { order_id: OrderId, expected: AccountId },
    /// There is no room for another open order.
    ArenaFull,
}

/// Taking one order out of the arena and its id out of the map keeps the two
/// in step.
proof fn lemma_ids_removed(
    arena: Map<OrderKey, RestingOrder>,
    later: Map<OrderKey, RestingOrder>,
    ids: Map<u64, OrderKey>,
    h: OrderKey,
)
    requires
        ids_ok(arena, ids),
        arena.contains_key(h),
        later.dom() == arena.dom().remove(h),
        forall|k: OrderKey| k != h ==> (#[trigger] later[k])@ == arena[k]@,
    ensures
        ids_ok(later, ids.remove(arena[h].id.0)),
{
    let gone = arena[h].id.0;
    let left = ids.remove(gone);
    assert forall|k: OrderKey| #[trigger] later.contains_key(k) implies left.contains_key(
        later[k].id.0,
    ) && left[later[k].id.0] == k by {
        assert(later.dom().contains(k));
        assert(arena.contains_key(k));
        assert(later[k]@ == arena[k]@);
    }
    assert forall|id: u64| #[trigger] left.contains_key(id) implies later.contains_key(left[id])
        && later[left[id]].id.0 == id by {
        assert(ids.contains_key(id));
        let k = ids[id];
        assert(arena.contains_key(k));
        assert(k != h);
        assert(later.dom().contains(k));
        assert(later[k]@ == arena[k]@);
    }
}

impl OrderBook {
    /// Everything but the orders and the pointers to them is as before.
    spec fn same_setup(self, before: OrderBook) -> bool {
        &&& self.symbol == before.symbol
        &&& self.tick_floor == before.tick_floor
        &&& arena_reserved(self.arena) == arena_reserved(before.arena)
        &&& self.bids@.len() == before.bids@.len()
        &&& self.asks@.len() == before.asks@.len()
    }

    /// Only the level at `idx` of the side and the arena have changed.
    spec fn changed_at(self, before: OrderBook, side: Side, idx: int) -> bool {
        &&& self.same_setup(before)
        &&& self.id_to_key == before.id_to_key
        &&& self.best_bid_idx == before.best_bid_idx
        &&& self.best_ask_idx == before.best_ask_idx
        &&& self.ladder(side.spec_opposite()) == before.ladder(side.spec_opposite())
        &&& self.orders(side.spec_opposite()) == before.orders(side.spec_opposite())
        &&& forall|i: int|
            0 <= i < before.ladder(side).len() && i != idx ==> #[trigger] ladder::keys_at(
                self.ladder(side),
                i,
            ) == ladder::keys_at(before.ladder(side), i)
    }

    /// Exactly the order of `h` has left the arena.
    spec fn arena_lost(self, before: OrderBook, h: OrderKey) -> bool {
        &&& self.arena@.dom() == before.arena@.dom().remove(h)
        &&& forall|k: OrderKey| k != h ==> (#[trigger] self.arena@[k])@ == before.arena@[k]@
    }

    /// Fills the front order of the best level of `side` by `fill_qty`. The
    /// result is `true` if that order is filled completely and gone.
    fn fill_level_head(&mut self, side: Side, idx: usize, fill_qty: Qty) -> (filled: bool)
        requires
            old(self).shape(),
            old(self).best_ok(side),
            old(self).best_idx(side) == Some(idx),
            0 < fill_qty.0 <= old(self).orders(side)[0].qty.0,
        ensures
            final(self).shape(),
            final(self).changed_at(*old(self), side, idx as int),
            filled == (fill_qty.0 == old(self).orders(side)[0].qty.0),
            filled ==> {
                let h = ladder::keys_at(old(self).ladder(side), idx as int)[0];
                &&& final(self).orders(side) == old(self).orders(side).drop_first()
                &&& final(self).arena_lost(*old(self), h)
                &&& ladder::keys_at(final(self).ladder(side), idx as int) == ladder::keys_at(
                    old(self).ladder(side),
                    idx as int,
                ).drop_first()
            },
            !filled ==> {
                &&& final(self).orders(side) == old(self).orders(side).update(
                    0,
                    OrderModel {
                        qty: Qty((old(self).orders(side)[0].qty.0 - fill_qty.0) as u64),
                        ..old(self).orders(side)[0]
                    },
                )
                &&& final(self).arena@.dom() == old(self).arena@.dom()
                &&& forall|k: OrderKey|
                    (#[trigger] final(self).arena@[k]).id == old(self).arena@[k].id
                &&& ladder::keys_at(final(self).ladder(side), idx as int) == ladder::keys_at(
                    old(self).ladder(side),
                    idx as int,
                )
            },
    {
        let ghost pre = *self;
        let ghost lad = pre.ladder(side);
        proof {
            self.lemma_best_price(side);
            ladder::lemma_best(lad, side, pre.arena@, pre.best_idx(side));
            assert(ladder::level_ok(
                lad[idx as int],
                side,
                pre.tick_floor.0 + idx,
                pre.arena@,
            ));
        }
        let level = match side {
            Side::Buy => self.bids[idx].as_mut(),
            Side::Sell => self.asks[idx].as_mut(),
        };
        let filled = match level {
            Some(l) => l.fill_head(fill_qty, &mut self.arena),
            None => false,
        };
        proof {
            let l0 = lad[idx as int]->0;
            let h = l0.keys()[0];
            let post = *self;
            let l1 = post.ladder(side)[idx as int]->0;
            assert(post.ladder(side) =~= lad.update(idx as int, Some(l1)));
            assert forall|k: OrderKey| #[trigger] post.arena@.contains_key(k) implies l1.keys().contains(
                k,
            ) || (pre.arena@.contains_key(k) && !l0.keys().contains(k)) by {
                assert(post.arena@.dom().contains(k));
                if l0.keys().contains(k) && filled {
                    let j = l0.keys().index_of(k);
                    assert(l1.keys()[j - 1] == k);
                }
            }
            pre.lemma_level_replaced(post, side, idx as int, l1);
            let levels = ladder::by_rank(lad, side, pre.arena@);
            let r = ladder::idx_of(side, lad.len() as int, idx as int);
            ladder::lemma_flat_update(levels, r, level::orders_of(l1.keys(), post.arena@));
            let back = ladder::flat(levels.skip(r + 1));
            if filled {
                assert(level::orders_of(l1.keys(), post.arena@) =~= levels[r].drop_first());
                assert(post.orders(side) =~= pre.orders(side).drop_first());
            } else {
                assert(post.orders(side) =~= pre.orders(side).update(
                    0,
                    OrderModel {
                        qty: Qty((pre.orders(side)[0].qty.0 - fill_qty.0) as u64),
                        ..pre.orders(side)[0]
                    },
                ));
            }
        }
        filled
    }

    /// Replacing one level and its orders keeps the book in shape, up to the
    /// count.
    proof fn lemma_level_replaced(self, post: OrderBook, side: Side, idx: int, l: PriceLevel)
        requires
            self.shape(),
            post.same_setup(self),
            0 <= idx < self.ladder(side).len(),
            post.ladder(side) == self.ladder(side).update(idx, Some(l)),
            post.ladder(side.spec_opposite()) == self.ladder(side.spec_opposite()),
            ladder::level_ok(Some(l), side, self.tick_floor.0 + idx, post.arena@),
            forall|k: OrderKey|
                self.arena@.contains_key(k) && !ladder::keys_at(self.ladder(side), idx).contains(k)
                    ==> #[trigger] level::same_at(self.arena@, post.arena@, k),
            forall|k: OrderKey| #[trigger]
                post.arena@.contains_key(k) ==> l.keys().contains(k) || (self.arena@.contains_key(k)
                    && !ladder::keys_at(self.ladder(side), idx).contains(k)),
        ensures
            forall|s: Side|
                #![trigger post.ladder(s)]
                {
                    &&& ladder::ladder_ok(
                        post.ladder(s),
                        s,
                        post.tick_floor.0 as int,
                        post.arena@,
                    )
                    &&& ladder::located_in(
                        post.ladder(s),
                        s,
                        post.tick_floor.0 as int,
                        post.arena@,
                    )
                },
            ladder::by_rank(post.ladder(side), side, post.arena@) == ladder::by_rank(
                self.ladder(side),
                side,
                self.arena@,
            ).update(
                ladder::idx_of(side, self.ladder(side).len() as int, idx),
                level::orders_of(l.keys(), post.arena@),
            ),
            post.orders(side.spec_opposite()) == self.orders(side.spec_opposite()),
    {
        ladder::lemma_change(
            self.ladder(side),
            self.ladder(side.spec_opposite()),
            side,
            self.tick_floor.0 as int,
            self.arena@,
            post.arena@,
            idx,
            l,
        );
        assert forall|s: Side|
            #![trigger post.ladder(s)]
            {
                &&& ladder::ladder_ok(post.ladder(s), s, post.tick_floor.0 as int, post.arena@)
                &&& ladder::located_in(post.ladder(s), s, post.tick_floor.0 as int, post.arena@)
            } by {
            if s != side {
                assert(s == side.spec_opposite());
            }
        }
    }

    /// Taking one order out of a level takes it out of the queue.
    proof fn lemma_unlinked(
        self,
        post: OrderBook,
        side: Side,
        idx: int,
        key: OrderKey,
        l1: PriceLevel,
    )
        requires
            self.shape(),
            self.arena@.contains_key(key),
            self.arena@[key].side == side,
            self.arena@[key].price.0 == self.tick_floor.0 + idx,
            post.same_setup(self),
            0 <= idx < self.ladder(side).len(),
            self.ladder(side)[idx] is Some,
            self.ladder(side)[idx]->0.keys().contains(key),
            post.ladder(side) == self.ladder(side).update(idx, Some(l1)),
            post.ladder(side.spec_opposite()) == self.ladder(side.spec_opposite()),
            l1.wf(post.arena@),
            l1.price == self.ladder(side)[idx]->0.price,
            l1.keys() == self.ladder(side)[idx]->0.keys().remove(
                self.ladder(side)[idx]->0.keys().index_of(key),
            ),
            post.arena_lost(self, key),
            forall|k: OrderKey|
                !self.ladder(side)[idx]->0.keys().contains(k) ==> #[trigger] post.arena@[k]
                    == self.arena@[k],
        ensures
            post.shape(),
            post.orders(side.spec_opposite()) == self.orders(side.spec_opposite()),
            0 <= self.place_in_queue(key) < self.orders(side).len(),
            post.orders(side) == self.orders(side).remove(self.place_in_queue(key)),
    {
        let pre = self;
        let lad = self.ladder(side);
        let l0 = lad[idx]->0;
        assert(ladder::level_ok(lad[idx], side, pre.tick_floor.0 + idx, pre.arena@));
        let p = self.lemma_key_position(key);
        assert forall|k: OrderKey|
            pre.arena@.contains_key(k) && !ladder::keys_at(lad, idx).contains(
                k,
            ) implies #[trigger] level::same_at(pre.arena@, post.arena@, k) by {
            assert(post.arena@.dom().contains(k));
        }
        let j = l0.keys().index_of(key);
        l0.lemma_wf(pre.arena@);
        assert forall|k: OrderKey| #[trigger] post.arena@.contains_key(k) implies l1.keys().contains(
            k,
        ) || (pre.arena@.contains_key(k) && !l0.keys().contains(k)) by {
            assert(post.arena@.dom().contains(k));
            if l0.keys().contains(k) {
                let x = l0.keys().index_of(k);
                if x < j {
                    assert(l1.keys()[x] == k);
                } else {
                    assert(l1.keys()[x - 1] == k);
                }
            }
        }
        assert(ladder::level_ok(Some(l1), side, pre.tick_floor.0 + idx, post.arena@)) by {
            assert forall|x: int| 0 <= x < l1.keys().len() implies {
                let o = #[trigger] post.arena@[l1.keys()[x]];
                o.side == side && o.price == l1.price && o.qty_remaining.0 > 0
            } by {
                let y = if x < j {
                    x
                } else {
                    x + 1
                };
                assert(l1.keys()[x] == l0.keys()[y]);
                assert(pre.arena@[l0.keys()[y]].side == side);
            }
        }
        pre.lemma_level_replaced(post, side, idx, l1);
        let levels = ladder::by_rank(lad, side, pre.arena@);
        let rank = ladder::idx_of(side, lad.len() as int, idx);
        assert(level::orders_of(l1.keys(), post.arena@) =~= levels[rank].remove(j));
        assert(post.orders(side) == pre.orders(side).remove(p.2)) by {
            ladder::lemma_flat_split(levels, rank);
            ladder::lemma_flat_update(levels, rank, levels[rank].remove(j));
            ladder::lemma_remove_middle(
                ladder::flat(levels.take(rank)),
                levels[rank],
                ladder::flat(levels.skip(rank + 1)),
                j,
            );
        }
    }

    /// Takes the order of `key` out of its level and out of the arena.
    fn unlink(&mut self, side: Side, idx: usize, key: OrderKey) -> (r: Option<RestingOrder>)
        requires
            old(self).shape(),
            old(self).arena@.contains_key(key),
            old(self).arena@[key].side == side,
            old(self).arena@[key].price.0 == old(self).tick_floor.0 + idx,
        ensures
            final(self).shape(),
            final(self).changed_at(*old(self), side, idx as int),
            r == Some(old(self).arena@[key]),
            final(self).arena_lost(*old(self), key),
            0 <= old(self).place_in_queue(key) < old(self).orders(side).len(),
            final(self).orders(side) == old(self).orders(side).remove(
                old(self).place_in_queue(key),
            ),
            idx < final(self).ladder(side).len(),
            final(self).ladder(side)[idx as int] is Some,
    {
        let ghost pre = *self;
        let ghost lad = pre.ladder(side);
        let ghost l0 = lad[idx as int]->0;
        proof {
            let p = self.lemma_key_position(key);
            assert(ladder::level_ok(
                lad[idx as int],
                side,
                pre.tick_floor.0 + idx,
                pre.arena@,
            ));
            assert(l0.keys().contains(key));
        }
        let level = match side {
            Side::Buy => self.bids[idx].as_mut(),
            Side::Sell => self.asks[idx].as_mut(),
        };
        let r = match level {
            Some(l) => l.remove(key, &mut self.arena),
            None => None,
        };
        proof {
            let l1 = self.ladder(side)[idx as int]->0;
            assert(self.ladder(side) =~= lad.update(idx as int, Some(l1)));
            pre.lemma_unlinked(*self, side, idx as int, key, l1);
        }
        r
    }

    /// Cancels the front order of the best level of `side` without filling
    /// it, and gives its id.
    fn cancel_resting_head(&mut self, side: Side, idx: usize) -> (r: Option<OrderId>)
        requires
            old(self).shape(),
            old(self).best_ok(side),
            old(self).best_idx(side) == Some(idx),
        ensures
            final(self).shape(),
            final(self).changed_at(*old(self), side, idx as int),
            r == Some(old(self).orders(side)[0].id),
            final(self).orders(side) == old(self).orders(side).drop_first(),
            final(self).arena_lost(
                *old(self),
                ladder::keys_at(old(self).ladder(side), idx as int)[0],
            ),
    {
        let ghost lad = self.ladder(side);
        proof {
            self.lemma_best_price(side);
            ladder::lemma_best(lad, side, self.arena@, self.best_idx(side));
            assert(ladder::level_ok(
                lad[idx as int],
                side,
                self.tick_floor.0 + idx,
                self.arena@,
            ));
            let l = lad[idx as int]->0;
            l.lemma_wf(self.arena@);
            assert(l.keys().index_of(l.keys()[0]) == 0);
            let p = self.lemma_key_position(l.keys()[0]);
            assert(self.orders(side).remove(0) =~= self.orders(side).drop_first());
        }
        let head_key = match self.level_at(side, idx) {
            Some(l) => l.peek_head(),
            None => None,
        };
        match head_key {
            Some(k) => match self.unlink(side, idx, k) {
                Some(removed) => Some(removed.id),
                None => None,
            },
            None => None,
        }
    }

    fn level_at(&self, side: Side, idx: usize) -> (r: Option<&PriceLevel>)
        requires
            idx < self.ladder(side).len(),
        ensures
            match r {
                Some(l) => self.ladder(side)[idx as int] == Some(*l),
                None => self.ladder(side)[idx as int] is None,
            },
    {
        match side {
            Side::Buy => self.bids[idx].as_ref(),
            Side::Sell => self.asks[idx].as_ref(),
        }
    }

    fn is_level_empty(&self, side: Side, idx: usize) -> (b: bool)
        requires
            self.shape(),
            idx < self.ladder(side).len(),
        ensures
            b == (ladder::keys_at(self.ladder(side), idx as int).len() == 0),
    {
        assert(ladder::level_ok(
            self.ladder(side)[idx as int],
            side,
            self.tick_floor.0 + idx,
            self.arena@,
        ));
        match self.level_at(side, idx) {
            Some(l) => l.is_empty(),
            None => true,
        }
    }

    /// Looks for the next best level if the best pointer still stands at
    /// `idx`.
    fn clear_empty_best(&mut self, side: Side, idx: usize)
        requires
            old(self).shape(),
            old(self).best_idx(side) == Some(idx),
            idx < old(self).ladder(side).len(),
            forall|i: int|
                0 <= i < old(self).ladder(side).len() && ladder::ahead(side, i, idx as int)
                    ==> (#[trigger] ladder::keys_at(old(self).ladder(side), i)).len() == 0,
        ensures
            *final(self) == (OrderBook {
                best_bid_idx: final(self).best_bid_idx,
                best_ask_idx: final(self).best_ask_idx,
                ..*old(self)
            }),
            final(self).best_idx(side.spec_opposite()) == old(self).best_idx(side.spec_opposite()),
            final(self).best_ok(side),
    {
        assert(ladder::ladder_ok(
            self.ladder(side),
            side,
            self.tick_floor.0 as int,
            self.arena@,
        ));
        match side {
            Side::Buy => {
                if self.best_bid_idx == Some(idx) {
                    self.scan_best_bid_down();
                }
            },
            Side::Sell => {
                if self.best_ask_idx == Some(idx) {
                    self.scan_best_ask_up();
                }
            },
        }
    }

    /// Matches an incoming order against the resting orders of the other
    /// side, and gives the quantity that is left.
    fn match_against_book(&mut self, o: Incoming, qty: Qty, events: &mut EventVec) -> (left: Qty)
        requires
            old(self).inv(),
        ensures
            final(self).inv(),
            final(self).same_setup(*old(self)),
            final(self).orders(o.side) == old(self).orders(o.side),
            ({
                let run = model::sweep(old(self).orders(o.side.spec_opposite()), o, qty.0);
                &&& final(self).orders(o.side.spec_opposite()) == run.queue
                &&& left.0 == run.left
                &&& final(events)@ == old(events)@ + run.events
            }),
    {
        let maker_side = o.side.opposite();
        let mut left = qty;
        let ghost run = model::sweep(self.orders(maker_side), o, qty.0);
        assert(old(events)@ + run.events =~= events@ + run.events);
        loop
            invariant
                maker_side == o.side.spec_opposite(),
                self.inv(),
                self.same_setup(*old(self)),
                self.orders(o.side) == old(self).orders(o.side),
                ({
                    let rest = model::sweep(self.orders(maker_side), o, left.0);
                    &&& run.queue == rest.queue
                    &&& run.left == rest.left
                    &&& old(events)@ + run.events == events@ + rest.events
                }),
            ensures
                self.inv(),
                self.same_setup(*old(self)),
                self.orders(o.side) == old(self).orders(o.side),
                self.orders(maker_side) == run.queue,
                left.0 == run.left,
                events@ == old(events)@ + run.events,
            decreases self.orders(maker_side).len(), left.0,
        {
            let ghost pre = *self;
            let ghost queue = self.orders(maker_side);
            let ghost rest = model::sweep(queue, o, left.0);
            let ghost events0 = events@;
            proof {
                self.lemma_best_price(maker_side);
            }
            assert(events0 + Seq::<EngineEvent>::empty() =~= events0);
            if left.0 == 0 {
                break;
            }
            let (best_idx, crosses) = match o.side {
                Side::Buy => {
                    let idx = match self.best_ask_idx {
                        Some(i) => i,
                        None => {
                            break;
                        },
                    };
                    let ask_price = self.idx_to_price(idx);
                    (idx, o.price.0 >= ask_price.0)
                },
                Side::Sell => {
                    let idx = match self.best_bid_idx {
                        Some(i) => i,
                        None => {
                            break;
                        },
                    };
                    let bid_price = self.idx_to_price(idx);
                    (idx, o.price.0 <= bid_price.0)
                },
            };
            if !crosses {
                break;
            }
            let maker_key = match self.level_at(maker_side, best_idx) {
                Some(l) => match l.peek_head() {
                    Some(k) => k,
                    None => {
                        break;
                    },
                },
                None => {
                    break;
                },
            };
            let maker = *self.arena.at(maker_key);
            assert(maker@ == queue[0]);
            assert(ladder::keys_at(pre.ladder(maker_side), best_idx as int)[0] == maker_key) by {
                assert(ladder::level_ok(
                    pre.ladder(maker_side)[best_idx as int],
                    maker_side,
                    pre.tick_floor.0 + best_idx,
                    pre.arena@,
                ));
            }

            // An account never trades with itself: its resting order is
            // cancelled, and matching goes on with the next one.
            if maker.account == o.account {
                if let Some(cancelled_id) = self.cancel_resting_head(maker_side, best_idx) {
                    self.id_to_key.remove(&cancelled_id.0);
                    events.push(EngineEvent::Cancelled { seq: o.seq, order_id: cancelled_id });
                }
                proof {
                    lemma_ids_removed(pre.arena@, self.arena@, pre.id_to_key@, maker_key);
                    let ev = EngineEvent::Cancelled { seq: o.seq, order_id: queue[0].id };
                    let next = model::sweep(queue.drop_first(), o, left.0);
                    assert(events0 + rest.events =~= events0.push(ev) + next.events);
                }
                if self.is_level_empty(maker_side, best_idx) {
                    self.clear_empty_best(maker_side, best_idx);
                }
                continue;
            }
            let maker_qty = maker.qty_remaining;
            let fill_qty = if left.0 < maker_qty.0 {
                left
            } else {
                maker_qty
            };
            assert(maker_qty.0 > 0) by {
                assert(ladder::level_ok(
                    pre.ladder(maker_side)[best_idx as int],
                    maker_side,
                    pre.tick_floor.0 + best_idx,
                    pre.arena@,
                ));
                let l = pre.ladder(maker_side)[best_idx as int]->0;
                assert(pre.arena@[l.keys()[0]].qty_remaining.0 > 0);
            }
            let ghost before = left.0;
            let maker_fully_filled = self.fill_level_head(maker_side, best_idx, fill_qty);
            left = Qty(left.0 - fill_qty.0);
            let event = EngineEvent::Trade {
                seq: o.seq,
                ts_ns: o.ts_ns,
                symbol: o.symbol,
                price: maker.price,
                qty: fill_qty,
                maker_order: maker.id,
                taker_order: OrderId(o.seq),
                maker_order_id: maker.id,
                taker_order_id: OrderId(o.seq),
                maker_acct: maker.account,
                taker_acct: o.account,
                maker_side,
                maker_remaining_qty: Qty(maker_qty.0 - fill_qty.0),
                taker_remaining_qty: left,
            };
            events.push(event);
            proof {
                assert(event == model::trade(o, queue[0], before));
                let next = model::sweep(self.orders(maker_side), o, left.0);
                assert(events0 + rest.events =~= events0.push(event) + next.events);
            }
            if maker_fully_filled {
                self.id_to_key.remove(&maker.id.0);
                proof {
                    lemma_ids_removed(pre.arena@, self.arena@, pre.id_to_key@, maker_key);
                }
                if self.is_level_empty(maker_side, best_idx) {
                    self.clear_empty_best(maker_side, best_idx);
                }
            }
        }
        left
    }

    /// What is left of `wanted` after the orders of other accounts at one
    /// level.
    fn left_after_level(&self, level: &PriceLevel, account: AccountId, wanted: u64) -> (left: u64)
        requires
            level.wf(self.arena@),
        ensures
            left == laws::rest_of(
                wanted as int,
                model::others_qty(level::orders_of(level.keys(), self.arena@), account),
            ),
    {
        let ghost keys = level.keys();
        let ghost queue = level::orders_of(keys, self.arena@);
        let mut remaining: u64 = wanted;
        let mut cursor = level.peek_head();
        let ghost mut j: int = 0;
        loop
            invariant_except_break
                0 <= j <= keys.len(),
                cursor == if j < keys.len() {
                    Some(keys[j])
                } else {
                    None
                },
                remaining == laws::rest_of(
                    wanted as int,
                    model::others_qty(queue.take(j), account),
                ),
            invariant
                level.wf(self.arena@),
                keys == level.keys(),
                queue == level::orders_of(keys, self.arena@),
            ensures
                remaining == laws::rest_of(wanted as int, model::others_qty(queue, account)),
            decreases keys.len() - j,
        {
            assert(j == queue.len() ==> queue.take(j) =~= queue);
            let key = match cursor {
                Some(k) => k,
                None => {
                    break;
                },
            };
            assert(level::linked(keys, self.arena@, j));
            let order = self.arena.at(key);
            proof {
                assert(queue.take(j + 1).drop_last() =~= queue.take(j));
                model::lemma_others_monotone(queue, j + 1, account);
            }
            if order.account != account {
                remaining = remaining.saturating_sub(order.qty_remaining.0);
                if remaining == 0 {
                    break;
                }
            }
            cursor = order.next;
            proof {
                j = j + 1;
            }
        }
        remaining
    }

    /// Whether an order could be filled completely at once.
    fn can_fully_fill(&self, side: Side, price: Price, qty: Qty, account: AccountId) -> (b: bool)
        requires
            self.shape(),
        ensures
            b == (model::fillable(self.orders(side.spec_opposite()), side, price, account)
                >= qty.0),
    {
        self.left_unfilled(side, price, qty, account) == 0
    }

    /// What would be left of an order after matching. Nothing is changed.
    /// Orders of the same account do not count, as matching would cancel them.
    fn left_unfilled(&self, side: Side, price: Price, qty: Qty, account: AccountId) -> (left: u64)
        requires
            self.shape(),
        ensures
            left == laws::rest_of(
                qty.0 as int,
                model::fillable(self.orders(side.spec_opposite()), side, price, account),
            ),
    {
        let ghost maker_side = side.spec_opposite();
        let ghost levels = ladder::by_rank(self.ladder(maker_side), maker_side, self.arena@);
        let ghost floor = self.tick_floor.0 as int;
        let mut remaining: u64 = qty.0;
        let book_ladder = match side {
            Side::Buy => &self.asks,
            Side::Sell => &self.bids,
        };
        let n: usize = book_ladder.len();
        let mut step: usize = 0;
        assert(levels.take(0) =~= Seq::<Seq<OrderModel>>::empty());
        assert(levels.take(n as int) =~= levels);
        while step < n
            invariant
                self.shape(),
                maker_side == side.spec_opposite(),
                book_ladder@ == self.ladder(maker_side),
                n == book_ladder@.len(),
                step <= n,
                floor == self.tick_floor.0,
                levels == ladder::by_rank(self.ladder(maker_side), maker_side, self.arena@),
                levels.take(n as int) == levels,
                model::all_cross(ladder::flat(levels.take(step as int)), side, price),
                remaining == laws::rest_of(
                    qty.0 as int,
                    model::fillable(ladder::flat(levels.take(step as int)), side, price, account),
                ),
            ensures
                remaining == laws::rest_of(
                    qty.0 as int,
                    model::fillable(ladder::flat(levels), side, price, account),
                ),
            decreases n - step,
        {
            let ghost front = ladder::flat(levels.take(step as int));
            let ghost back = ladder::flat(levels.skip(step as int));
            proof {
                assert(levels =~= levels.take(step as int) + levels.skip(step as int));
                ladder::lemma_flat_concat(levels.take(step as int), levels.skip(step as int));
                model::lemma_fillable_concat(front, back, side, price, account);
            }
            if remaining == 0 {
                break;
            }
            let idx: usize = match side {
                Side::Buy => step,
                Side::Sell => n - 1 - step,
            };
            let level_price: i128 = self.tick_floor.0 as i128 + idx as i128;
            let crosses = match side {
                Side::Buy => price.0 as i128 >= level_price,
                Side::Sell => price.0 as i128 <= level_price,
            };
            if !crosses {
                proof {
                    if back.len() > 0 {
                        assert(levels.skip(step as int) =~= levels.subrange(step as int, n as int));
                        ladder::lemma_rank_prices(
                            self.ladder(maker_side),
                            maker_side,
                            floor,
                            self.arena@,
                            step as int,
                            n as int,
                            0,
                        );
                    }
                }
                break;
            }
            let ghost here = levels[step as int];
            proof {
                assert(levels.take(step + 1) =~= levels.take(step as int).push(here));
                ladder::lemma_flat_push(levels.take(step as int), here);
                assert(ladder::level_ok(
                    book_ladder@[idx as int],
                    maker_side,
                    floor + idx,
                    self.arena@,
                ));
                assert(ladder::keys_at(book_ladder@, idx as int).len() == here.len());
                assert forall|i: int| 0 <= i < here.len() implies model::crosses(
                    side,
                    price,
                    (#[trigger] here[i]).price,
                ) by {
                    let l = book_ladder@[idx as int]->0;
                    assert(self.arena@[l.keys()[i]].price == l.price);
                }
                model::lemma_fillable_concat(front, here, side, price, account);
                model::lemma_fillable_all(here, side, price, account);
            }
            if let Some(level) = &book_ladder[idx] {
                remaining = self.left_after_level(level, account, remaining);
            }
            step += 1;
        }
        remaining
    }

    /// Number of orders at one level.
    fn count_at_level(&self, level: &PriceLevel) -> (n: usize)
        requires
            level.wf(self.arena@),
            level.keys().len() <= usize::MAX,
        ensures
            n == level.keys().len(),
    {
        let ghost keys = level.keys();
        let mut n: usize = 0;
        let mut cursor = level.peek_head();
        loop
            invariant_except_break
                n <= keys.len(),
                cursor == if n < keys.len() {
                    Some(keys[n as int])
                } else {
                    None
                },
            invariant
                level.wf(self.arena@),
                keys == level.keys(),
                keys.len() <= usize::MAX,
            ensures
                n == keys.len(),
            decreases keys.len() - n,
        {
            let key = match cursor {
                Some(k) => k,
                None => {
                    break;
                },
            };
            assert(level::linked(keys, self.arena@, n as int));
            cursor = self.arena.at(key).next;
            n += 1;
        }
        n
    }

    /// Number of orders that an incoming order with this limit accepts.
    fn count_crossing(&self, side: Side, price: Price) -> (count: usize)
        requires
            self.shape(),
            self.orders(side.spec_opposite()).len() <= usize::MAX,
        ensures
            count == model::crossing(self.orders(side.spec_opposite()), side, price),
            count <= self.orders(side.spec_opposite()).len(),
    {
        let ghost maker_side = side.spec_opposite();
        let ghost levels = ladder::by_rank(self.ladder(maker_side), maker_side, self.arena@);
        let ghost floor = self.tick_floor.0 as int;
        let mut count: usize = 0;
        let book_ladder = match side {
            Side::Buy => &self.asks,
            Side::Sell => &self.bids,
        };
        let n: usize = book_ladder.len();
        let mut step: usize = 0;
        assert(levels.take(0) =~= Seq::<Seq<OrderModel>>::empty());
        assert(n == 0 ==> levels =~= Seq::<Seq<OrderModel>>::empty());
        while step < n
            invariant
                self.shape(),
                maker_side == side.spec_opposite(),
                book_ladder@ == self.ladder(maker_side),
                n == book_ladder@.len(),
                step <= n,
                floor == self.tick_floor.0,
                levels == ladder::by_rank(self.ladder(maker_side), maker_side, self.arena@),
                ladder::flat(levels).len() <= usize::MAX,
                model::all_cross(ladder::flat(levels.take(step as int)), side, price),
                count == ladder::flat(levels.take(step as int)).len(),
                step == n ==> count == model::crossing(ladder::flat(levels), side, price)
                    && count <= ladder::flat(levels).len(),
            ensures
                count == model::crossing(ladder::flat(levels), side, price),
                count <= ladder::flat(levels).len(),
            decreases n - step,
        {
            let ghost front = ladder::flat(levels.take(step as int));
            let ghost back = ladder::flat(levels.skip(step as int));
            proof {
                assert(levels =~= levels.take(step as int) + levels.skip(step as int));
                ladder::lemma_flat_concat(levels.take(step as int), levels.skip(step as int));
            }
            let idx: usize = match side {
                Side::Buy => step,
                Side::Sell => n - 1 - step,
            };
            let level_price: i128 = self.tick_floor.0 as i128 + idx as i128;
            let crosses = match side {
                Side::Buy => price.0 as i128 >= level_price,
                Side::Sell => price.0 as i128 <= level_price,
            };
            if !crosses {
                proof {
                    if back.len() > 0 {
                        assert(levels.skip(step as int) =~= levels.subrange(step as int, n as int));
                        ladder::lemma_rank_prices(
                            self.ladder(maker_side),
                            maker_side,
                            floor,
                            self.arena@,
                            step as int,
                            n as int,
                            0,
                        );
                    }
                    model::lemma_crossing_front(front, back, side, price);
                }
                break;
            }
            let ghost here = levels[step as int];
            proof {
                assert(levels.take(step + 1) =~= levels.take(step as int).push(here));
                ladder::lemma_flat_push(levels.take(step as int), here);
                let tail = levels.skip(step + 1);
                assert(levels =~= levels.take(step + 1) + tail);
                ladder::lemma_flat_concat(levels.take(step + 1), tail);
                assert(ladder::level_ok(
                    book_ladder@[idx as int],
                    maker_side,
                    floor + idx,
                    self.arena@,
                ));
                assert(ladder::keys_at(book_ladder@, idx as int).len() == here.len());
                assert forall|i: int| 0 <= i < here.len() implies model::crosses(
                    side,
                    price,
                    (#[trigger] here[i]).price,
                ) by {
                    let l = book_ladder@[idx as int]->0;
                    assert(self.arena@[l.keys()[i]].price == l.price);
                }
            }
            if let Some(level) = &book_ladder[idx] {
                count = count + self.count_at_level(level);
            }
            step += 1;
            proof {
                if step == n {
                    let empty = Seq::<OrderModel>::empty();
                    assert(levels.take(n as int) =~= levels);
                    model::lemma_crossing_front(ladder::flat(levels), empty, side, price);
                    assert(ladder::flat(levels) + empty =~= ladder::flat(levels));
                }
            }
        }
        count
    }

    /// Puts what is left of an order on the book.
    fn rest_remainder(&mut self, o: Incoming, price_idx: usize, left: Qty)
        requires
            old(self).inv(),
            old(self)@.in_range(o.price),
            price_idx == o.price.0 - old(self).tick_floor.0,
            left.0 > 0,
            !old(self).id_to_key@.contains_key(o.seq),
            old(self).arena@.len() < crate::order_book::arena::MAX_ORDERS,
            model::qty_at(old(self).orders(o.side), o.price) + left.0 <= u64::MAX,
        ensures
            final(self).inv(),
            final(self).same_setup(*old(self)),
            final(self).orders(o.side.spec_opposite()) == old(self).orders(
                o.side.spec_opposite(),
            ),
            final(self).orders(o.side) == old(self).orders(o.side).insert(
                model::place_of(o.side, old(self).orders(o.side), o.price),
                o.resting(left.0),
            ),
    {
        let ghost pre = *self;
        let ghost lad = pre.ladder(o.side);
        let ghost idx = price_idx as int;
        proof {
            assert(ladder::level_ok(lad[idx], o.side, pre.tick_floor.0 + idx, pre.arena@));
            ladder::lemma_level_qty(
                lad,
                o.side,
                pre.tick_floor.0 as int,
                pre.arena@,
                o.price,
            );
            ladder::lemma_insert(
                lad,
                o.side,
                pre.tick_floor.0 as int,
                pre.arena@,
                o.resting(left.0),
            );
        }
        let resting = RestingOrder::new(OrderId(o.seq), o.account, left, o.side, o.price, o.seq);
        let key = self.arena.insert(resting);
        let ghost arena1 = self.arena@;
        self.id_to_key.insert(o.seq, key);
        proof {
            pre.lemma_fresh_key(o.side, idx, key, arena1);
        }
        let slot = match o.side {
            Side::Buy => &mut self.bids[price_idx],
            Side::Sell => &mut self.asks[price_idx],
        };
        if slot.is_none() {
            *slot = Some(PriceLevel::new(o.price));
        }
        if let Some(level) = slot {
            level.push_back(key, &mut self.arena);
        }
        proof {
            let l1 = self.ladder(o.side)[idx]->0;
            let old_keys = ladder::keys_at(lad, idx);
            assert(self.ladder(o.side) =~= lad.update(idx, Some(l1)));
            assert(l1.keys() == old_keys.push(key));
            pre.lemma_rested(*self, o, idx, key, arena1, left.0, l1);
            assert(pre.best_ok(o.side));
            assert forall|i: int| 0 <= i < lad.len() && i != idx implies #[trigger] ladder::keys_at(
                self.ladder(o.side),
                i,
            ) == ladder::keys_at(lad, i) by {
                assert(self.ladder(o.side)[i] == lad[i]);
            }
        }
        match o.side {
            Side::Buy => self.refresh_best_bid_up(price_idx),
            Side::Sell => self.refresh_best_ask_down(price_idx),
        }
    }

    /// A key that the arena has just handed out is in no queue.
    proof fn lemma_fresh_key(
        self,
        side: Side,
        idx: int,
        key: OrderKey,
        arena1: Map<OrderKey, RestingOrder>,
    )
        requires
            self.shape(),
            0 <= idx < self.ladder(side).len(),
            !self.arena@.contains_key(key),
            arena1 == self.arena@.insert(key, arena1[key]),
        ensures
            !ladder::keys_at(self.ladder(side), idx).contains(key),
            self.ladder(side)[idx] matches Some(l) ==> l.wf(arena1),
    {
        let lad = self.ladder(side);
        assert(ladder::level_ok(lad[idx], side, self.tick_floor.0 + idx, self.arena@));
        if lad[idx] is Some {
            let l = lad[idx]->0;
            l.lemma_wf(self.arena@);
            assert forall|k: OrderKey| l.keys().contains(k) implies #[trigger] level::same_at(
                self.arena@,
                arena1,
                k,
            ) by {
                assert(self.arena@.contains_key(k));
            }
            l.lemma_frame(self.arena@, arena1);
        }
    }

    /// Linking a new order into its level puts it into the queue.
    proof fn lemma_rested(
        self,
        post: OrderBook,
        o: Incoming,
        idx: int,
        key: OrderKey,
        arena1: Map<OrderKey, RestingOrder>,
        left: u64,
        l1: PriceLevel,
    )
        requires
            self.inv(),
            0 <= idx < self.ladder(o.side).len(),
            o.price.0 == self.tick_floor.0 + idx,
            left > 0,
            !self.arena@.contains_key(key),
            arena1 == self.arena@.insert(key, arena1[key]),
            arena1[key]@ == o.resting(left),
            post.same_setup(self),
            post.best_bid_idx == self.best_bid_idx,
            post.best_ask_idx == self.best_ask_idx,
            post.id_to_key@ == self.id_to_key@.insert(o.seq, key),
            !self.id_to_key@.contains_key(o.seq),
            post.ladder(o.side) == self.ladder(o.side).update(idx, Some(l1)),
            post.ladder(o.side.spec_opposite()) == self.ladder(o.side.spec_opposite()),
            l1.wf(post.arena@),
            l1.price == o.price,
            l1.keys() == ladder::keys_at(self.ladder(o.side), idx).push(key),
            post.arena@.dom() == arena1.dom(),
            forall|k: OrderKey| (#[trigger] post.arena@[k])@ == arena1[k]@,
            forall|k: OrderKey|
                k != key && !ladder::keys_at(self.ladder(o.side), idx).contains(k)
                    ==> #[trigger] post.arena@[k] == arena1[k],
        ensures
            post.shape(),
            ids_ok(post.arena@, post.id_to_key@),
            post.orders(o.side.spec_opposite()) == self.orders(o.side.spec_opposite()),
            post.orders(o.side) == self.orders(o.side).insert(
                model::place_of(o.side, self.orders(o.side), o.price),
                o.resting(left),
            ),
    {
        let side = o.side;
        let lad = self.ladder(side);
        let keys = ladder::keys_at(lad, idx);
        assert(ladder::level_ok(lad[idx], side, self.tick_floor.0 + idx, self.arena@));
        assert(l1.keys()[keys.len() as int] == key);
        assert forall|k: OrderKey|
            self.arena@.contains_key(k) && !keys.contains(k) implies #[trigger] level::same_at(
            self.arena@,
            post.arena@,
            k,
        ) by {
            assert(arena1.dom().contains(k));
        }
        assert forall|k: OrderKey| #[trigger] post.arena@.contains_key(k) implies l1.keys().contains(
            k,
        ) || (self.arena@.contains_key(k) && !keys.contains(k)) by {
            assert(arena1.dom().contains(k));
            if keys.contains(k) {
                let x = keys.index_of(k);
                assert(l1.keys()[x] == k);
            }
        }
        assert(ladder::level_ok(Some(l1), side, self.tick_floor.0 + idx, post.arena@)) by {
            assert forall|x: int| 0 <= x < l1.keys().len() implies {
                let m = #[trigger] post.arena@[l1.keys()[x]];
                m.side == side && m.price == l1.price && m.qty_remaining.0 > 0
            } by {
                let k = l1.keys()[x];
                if x < keys.len() {
                    assert(self.arena@[keys[x]].side == side);
                    assert(keys.contains(k));
                    lad[idx]->0.lemma_wf(self.arena@);
                    assert(self.arena@.contains_key(k));
                }
                assert(post.arena@[k]@ == arena1[k]@);
            }
        }
        self.lemma_level_replaced(post, side, idx, l1);
        let levels = ladder::by_rank(lad, side, self.arena@);
        let rank = ladder::idx_of(side, lad.len() as int, idx);
        assert(level::orders_of(l1.keys(), post.arena@) =~= levels[rank].push(
            o.resting(left),
        )) by {
            assert forall|x: int| 0 <= x < keys.len() implies post.arena@[keys[x]]@
                == self.arena@[keys[x]]@ by {
                lad[idx]->0.lemma_wf(self.arena@);
                assert(keys.contains(keys[x]));
                assert(self.arena@.contains_key(keys[x]));
            }
        }
        ladder::lemma_insert(
            lad,
            side,
            self.tick_floor.0 as int,
            self.arena@,
            o.resting(left),
        );
        assert(ids_ok(post.arena@, post.id_to_key@)) by {
            assert forall|k: OrderKey| #[trigger]
                post.arena@.contains_key(k) implies post.id_to_key@.contains_key(
                post.arena@[k].id.0,
            ) && post.id_to_key@[post.arena@[k].id.0] == k by {
                assert(arena1.dom().contains(k));
                assert(post.arena@[k]@ == arena1[k]@);
                if k != key {
                    assert(self.arena@.contains_key(k));
                }
            }
            assert forall|id: u64| #[trigger]
                post.id_to_key@.contains_key(id) implies post.arena@.contains_key(
                post.id_to_key@[id],
            ) && post.arena@[post.id_to_key@[id]].id.0 == id by {
                let k = post.id_to_key@[id];
                if id != o.seq {
                    assert(self.id_to_key@.contains_key(id));
                    assert(self.arena@.contains_key(k));
                }
                assert(arena1.dom().contains(k));
                assert(post.arena@[k]@ == arena1[k]@);
            }
        }
        assert(post.arena@.len() == self.arena@.len() + 1);
    }

    fn book_top_event(&self, seq: u64, symbol: Symbol) -> (e: EngineEvent)
        requires
            self.inv(),
        ensures
            e == self@.top(seq, symbol),
    {
        EngineEvent::BookTop { seq, symbol, bid: self.top_bid(), ask: self.top_ask() }
    }

    /// Whether the command can be applied: where something of a new order
    /// would rest, no open order has its sequence number, and what would rest
    /// can be counted.
    pub fn can_take(&self, cmd: &SequencedCommand) -> (b: bool)
        requires
            self.wf(),
        ensures
            b == self@.admits(*cmd),
    {
        match &cmd.cmd {
            InboundCommand::NewOrder {
                account,
                side,
                price,
                qty,
                order_type,
                time_in_force,
                ..
            } => {
                if qty.0 == 0 || *order_type == OrderType::Market || *time_in_force
                    != TimeInForce::Gtc || self.price_to_idx(*price).is_none() {
                    return true;
                }
                let left: u64 = self.left_unfilled(*side, *price, *qty, *account);
                let ghost o = model::incoming(*cmd);
                let ghost queue = self@.queue(o.side.spec_opposite());
                proof {
                    assert(queue == self.orders(o.side.spec_opposite()));
                    laws::law_sweep_fills_all_it_can(queue, o, o.qty.0);
                    laws::law_sweep_takes_all_it_accepts(queue, o, o.qty.0);
                }
                if left == 0 {
                    return true;
                }
                let here = match *side {
                    Side::Buy => self.bid_qty_at(*price),
                    Side::Sell => self.ask_qty_at(*price),
                };
                let staying: usize = self.open_order_count() - self.count_crossing(*side, *price);
                self.get_order(OrderId(cmd.seq)).is_none() && here.0 <= u64::MAX - left && staying
                    < crate::order_book::arena::MAX_ORDERS
            },
            _ => true,
        }
    }

    /// Applies a command and gives the events that follow from it.
    ///
    /// The book has room for as many open orders as its arena holds without
    /// growing, which is at least what was reserved for it. `apply_within`
    /// says what happens for each amount of room.
    pub fn apply(&mut self, cmd: SequencedCommand) -> (events: EventVec)
        requires
            old(self).wf(),
            old(self)@.admits(cmd),
        ensures
            final(self).wf(),
            exists|capacity: nat|
                capacity >= old(self)@.reserved && (model::Outcome {
                    book: final(self)@,
                    events: events@,
                }) == #[trigger] old(self)@.step(cmd, capacity),
    {
        let capacity: usize = self.arena.capacity();
        let events = self.apply_within(cmd, capacity);
        assert(capacity as nat >= old(self)@.reserved);
        assert((model::Outcome { book: self@, events: events@ }) == old(self)@.step(
            cmd,
            capacity as nat,
        ));
        events
    }

    /// Applies a command to a book that has room for `capacity` open orders.
    pub fn apply_within(&mut self, cmd: SequencedCommand, capacity: usize) -> (events: EventVec)
        requires
            old(self).wf(),
            old(self)@.admits(cmd),
        ensures
            final(self).wf(),
            final(self)@ == old(self)@.step(cmd, capacity as nat).book,
            events@ == old(self)@.step(cmd, capacity as nat).events,
    {
        proof {
            laws::law_step_keeps_valid(self@, cmd, capacity as nat);
        }
        match cmd.cmd {
            InboundCommand::NewOrder {
                account,
                client_order_id,
                symbol,
                side,
                price,
                qty,
                order_type,
                time_in_force,
            } => {
                let o = Incoming {
                    seq: cmd.seq,
                    ts_ns: cmd.ts_ns,
                    account,
                    client_order_id,
                    symbol,
                    side,
                    price,
                    qty,
                    order_type,
                    time_in_force,
                };
                assert(o == model::incoming(cmd));
                self.apply_new_order(o, capacity)
            },
            InboundCommand::Cancel { account, order_id } => self.apply_cancel(
                cmd.seq,
                account,
                order_id,
            ),
            // Closing out an account reaches the book as single cancels.
            InboundCommand::Liquidate { .. } => EventVec::new(),
            InboundCommand::FreezeAccount { .. } => EventVec::new(),
        }
    }

    fn reject(&self, o: Incoming, reason: RejectReason) -> (events: EventVec)
        ensures
            events@ == seq![o.rejected(reason)],
    {
        let mut events = EventVec::new();
        events.push(rejection(o, reason));
        assert(events@ =~= seq![o.rejected(reason)]);
        events
    }

    fn apply_new_order(&mut self, o: Incoming, capacity: usize) -> (events: EventVec)
        requires
            old(self).wf(),
            old(self)@.admits_order(o),
        ensures
            final(self).inv(),
            final(self)@ == old(self)@.place(o, capacity as nat).book,
            events@ == old(self)@.place(o, capacity as nat).events,
    {
        let ghost pre = *self;
        if o.qty.0 == 0 {
            return self.reject(o, RejectReason::InvalidQty);
        }
        if o.order_type == OrderType::Market {
            return self.reject(o, RejectReason::UnsupportedOrderType);
        }
        let price_idx: usize = match self.price_to_idx(o.price) {
            Some(i) => i,
            None => {
                return self.reject(o, RejectReason::PriceOutOfRange);
            },
        };
        // An order that must fill completely is turned down before it
        // touches the book.
        if o.time_in_force == TimeInForce::Fok && !self.can_fully_fill(
            o.side,
            o.price,
            o.qty,
            o.account,
        ) {
            return self.reject(o, RejectReason::FokNotFullyFillable);
        }
        let mut events = EventVec::new();
        let left = self.match_against_book(o, o.qty, &mut events);
        let ghost run = pre@.matched(o);
        proof {
            assert(pre@.queue(o.side.spec_opposite()) == pre.orders(o.side.spec_opposite()));
            assert(self@ =~= pre@.after_match(o));
            assert(events@ =~= run.events);
        }
        if left.0 == 0 {
            events.push(self.book_top_event(o.seq, o.symbol));
            return events;
        }
        if o.time_in_force == TimeInForce::Ioc || o.time_in_force == TimeInForce::Fok {
            if left.0 < o.qty.0 {
                events.push(EngineEvent::Cancelled { seq: o.seq, order_id: OrderId(o.seq) });
            } else {
                events.push(rejection(o, RejectReason::IocNoMatch));
            }
            events.push(self.book_top_event(o.seq, o.symbol));
            return events;
        }
        if self.arena.len() >= capacity {
            events.push(rejection(o, RejectReason::ArenaFull));
            return events;
        }
        let ghost matched = *self;
        proof {
            laws::lemma_match_keeps_valid(pre@, o);
            self.lemma_find(OrderId(o.seq));
            assert(self.orders(o.side) == pre@.queue(o.side));
        }
        self.rest_remainder(o, price_idx, left);
        proof {
            assert(matched@.queue(o.side) == matched.orders(o.side));
            assert(self@ =~= matched@.rest(o, left.0));
        }
        events.push(
            EngineEvent::Accepted {
                seq: o.seq,
                order_id: OrderId(o.seq),
                ts_ns: o.ts_ns,
                symbol: o.symbol,
                account_id: o.account,
                client_order_id: o.client_order_id,
                side: o.side,
                price: o.price,
                qty: left,
            },
        );
        events.push(self.book_top_event(o.seq, o.symbol));
        events
    }

    /// Takes an order off the book at the request of its owner.
    pub(crate) fn apply_cancel(&mut self, seq: u64, account: AccountId, order_id: OrderId) -> (
    events: EventVec)
        requires
            old(self).wf(),
        ensures
            final(self).wf(),
            final(self)@ == old(self)@.cancel(seq, account, order_id).book,
            events@ == old(self)@.cancel(seq, account, order_id).events,
    {
        let ghost pre = *self;
        let mut events = EventVec::new();
        proof {
            self.lemma_find(order_id);
        }
        assert(pre@.cancel(seq, account, order_id).book.valid()) by {
            let cmd = InboundCommand::Cancel { account, order_id };
            laws::law_step_keeps_valid(pre@, SequencedCommand { seq, ts_ns: 0, cmd }, 0);
        }
        let key = match self.id_to_key.remove(&order_id.0) {
            Some(k) => k,
            None => {
                assert(self.id_to_key@ =~= pre.id_to_key@);
                events.push(cancel_rejection(seq, account, order_id, RejectReason::OrderNotFound));
                assert(events@ =~= pre@.cancel(seq, account, order_id).events);
                assert(self@ == pre@);
                return events;
            },
        };
        let order = *self.arena.at(key);
        if order.account != account {
            self.id_to_key.insert(order_id.0, key);
            assert(self.id_to_key@ =~= pre.id_to_key@);
            events.push(cancel_rejection(seq, account, order_id, RejectReason::WrongAccount));
            assert(events@ =~= pre@.cancel(seq, account, order_id).events);
            return events;
        }
        proof {
            let p = pre.lemma_key_position(key);
        }
        let price_idx: usize = match self.price_to_idx(order.price) {
            Some(i) => i,
            None => {
                return events;
            },
        };
        let side = order.side;
        let ghost mid = *self;
        self.unlink(side, price_idx, key);
        proof {
            lemma_ids_removed(pre.arena@, self.arena@, pre.id_to_key@, key);
        }
        if self.is_level_empty(side, price_idx) {
            let at_best = match side {
                Side::Buy => self.best_bid_idx == Some(price_idx),
                Side::Sell => self.best_ask_idx == Some(price_idx),
            };
            if at_best {
                self.clear_empty_best(side, price_idx);
            }
        }
        events.push(EngineEvent::Cancelled { seq, order_id });
        proof {
            assert(events@ =~= pre@.cancel(seq, account, order_id).events);
            assert(self@ =~= pre@.without(order_id));
        }
        events
    }
}

fn rejection(o: Incoming, reason: RejectReason) -> (e: EngineEvent)
    ensures
        e == o.rejected(reason),
{
    EngineEvent::Rejected {
        seq: o.seq,
        order_id: OrderId(o.seq),
        account_id: o.account,
        client_order_id: o.client_order_id,
        reason,
    }
}

fn cancel_rejection(seq: u64, account: AccountId, id: OrderId, reason: RejectReason) -> (e:
    EngineEvent)
    ensures
        e == model::cancel_rejected(seq, account, id, reason),
{
    EngineEvent::Rejected {
        seq,
        order_id: id,
        account_id: account,
        client_order_id: ClientOrderId::new(0),
        reason,
    }
}

} // verus!

//! All orders of one account.

use super::OrderBook;
use crate::core_types::commands::{InboundCommand, SequencedCommand};
use crate::core_types::ids::{AccountId, OrderId};
use crate::core_types::side::Side;
use crate::order_book::ladder;
use crate::order_book::level;
use crate::order_book::level::PriceLevel;
use crate::order_book::model;
use crate::order_book::model::{BookModel, OrderModel};
use vstd::prelude::*;

verus! {

/// The ids of the orders that belong to the account, in the order of the
/// queue.
pub open spec fn ids_of(orders: Seq<OrderModel>, account: AccountId) -> Seq<OrderId>
    decreases orders.len(),
{
    if orders.len() == 0 {
        Seq::empty()
    } else if orders.last().account == account {
        ids_of(orders.drop_last(), account).push(orders.last().id)
    } else {
        ids_of(orders.drop_last(), account)
    }
}

/// The orders that belong to other accounts, in the order of the queue.
pub open spec fn others_of(orders: Seq<OrderModel>, account: AccountId) -> Seq<OrderModel>
    decreases orders.len(),
{
    if orders.len() == 0 {
        Seq::empty()
    } else if orders.last().account == account {
        others_of(orders.drop_last(), account)
    } else {
        others_of(orders.drop_last(), account).push(orders.last())
    }
}

/// The book without any order of the account.
pub open spec fn without_account(m: BookModel, account: AccountId) -> BookModel {
    BookModel {
        bids: others_of(m.bids, account),
        asks: others_of(m.asks, account),
        ..m
    }
}

/// When all orders of an account are gone, none of it is left, and an order
/// of another account is there if and only if it was there before.
pub proof fn law_only_the_account_is_gone(orders: Seq<OrderModel>, account: AccountId)
    ensures
        ids_of(others_of(orders, account), account).len() == 0,
        forall|o: OrderModel| #[trigger]
            others_of(orders, account).contains(o) <==> orders.contains(o) && o.account
                != account,
    decreases orders.len(),
{
    let kept = others_of(orders, account);
    if orders.len() > 0 {
        let front = orders.drop_last();
        let last = orders.last();
        law_only_the_account_is_gone(front, account);
        assert(orders =~= front.push(last));
        if last.account != account {
            assert(kept.drop_last() =~= others_of(front, account));
            assert(kept.last() == last);
        }
        assert forall|o: OrderModel| #[trigger] kept.contains(o) <==> orders.contains(o)
            && o.account != account by {
            if kept.contains(o) {
                let i = kept.index_of(o);
                if i < others_of(front, account).len() {
                    assert(others_of(front, account)[i] == o);
                    assert(others_of(front, account).contains(o));
                    let j = front.index_of(o);
                    assert(orders[j] == o);
                } else {
                    assert(orders[orders.len() - 1] == o);
                }
            }
            if orders.contains(o) && o.account != account {
                let i = orders.index_of(o);
                if i < front.len() {
                    assert(front[i] == o);
                    assert(front.contains(o));
                    assert(others_of(front, account).contains(o));
                    let j = others_of(front, account).index_of(o);
                    assert(kept[j] == o);
                } else {
                    assert(kept[kept.len() - 1] == o);
                }
            }
        }
    }
}

proof fn lemma_concat(a: Seq<OrderModel>, b: Seq<OrderModel>, account: AccountId)
    ensures
        ids_of(a + b, account) == ids_of(a, account) + ids_of(b, account),
        others_of(a + b, account) == others_of(a, account) + others_of(b, account),
    decreases b.len(),
{
    if b.len() == 0 {
        assert(a + b =~= a);
    } else {
        assert((a + b).drop_last() =~= a + b.drop_last());
        assert((a + b).last() == b.last());
        lemma_concat(a, b.drop_last(), account);
    }
    assert(ids_of(a + b, account) =~= ids_of(a, account) + ids_of(b, account));
    assert(others_of(a + b, account) =~= others_of(a, account) + others_of(b, account));
}

/// The place of the order that an id in the list comes from.
proof fn lemma_source(orders: Seq<OrderModel>, account: AccountId, j: int) -> (i: int)
    requires
        0 <= j < ids_of(orders, account).len(),
    ensures
        0 <= i < orders.len(),
        orders[i].id == ids_of(orders, account)[j],
        orders[i].account == account,
    decreases orders.len(),
{
    let front = orders.drop_last();
    if j < ids_of(front, account).len() {
        lemma_source(front, account, j)
    } else {
        orders.len() - 1
    }
}

/// Without an order of the account all orders are those of others.
proof fn lemma_no_ids(orders: Seq<OrderModel>, account: AccountId)
    requires
        ids_of(orders, account).len() == 0,
    ensures
        others_of(orders, account) == orders,
    decreases orders.len(),
{
    if orders.len() > 0 {
        lemma_no_ids(orders.drop_last(), account);
        assert(orders =~= orders.drop_last().push(orders.last()));
    }
}

/// Removing the first order of the account takes the first id off the list.
proof fn lemma_remove_first(orders: Seq<OrderModel>, account: AccountId) -> (p: int)
    requires
        model::distinct(orders),
        ids_of(orders, account).len() > 0,
    ensures
        p == model::index_by_id(orders, ids_of(orders, account)[0]),
        0 <= p < orders.len(),
        orders[p].account == account,
        ids_of(orders.remove(p), account) == ids_of(orders, account).drop_first(),
        others_of(orders.remove(p), account) == others_of(orders, account),
{
    let id = ids_of(orders, account)[0];
    let p = lemma_source(orders, account, 0);
    model::lemma_index_by_id(orders, id, p);
    let a = orders.take(p);
    let x = seq![orders[p]];
    let b = orders.skip(p + 1);
    assert(orders =~= a + (x + b));
    assert(orders.remove(p) =~= a + b);
    lemma_concat(a, x + b, account);
    lemma_concat(x, b, account);
    lemma_concat(a, b, account);
    if ids_of(a, account).len() > 0 {
        let i = lemma_source(a, account, 0);
        assert(orders[i].id == id);
        assert(false);
    }
    assert(x.drop_last() =~= Seq::<OrderModel>::empty());
    reveal_with_fuel(ids_of, 2);
    reveal_with_fuel(others_of, 2);
    assert(ids_of(orders.remove(p), account) =~= ids_of(orders, account).drop_first());
    assert(others_of(orders.remove(p), account) =~= others_of(orders, account));
    p
}

/// The orders of the book by account: those of the account, and the rest.
proof fn lemma_cancel_first(m: BookModel, account: AccountId, seq: u64)
    requires
        m.valid(),
        ids_of(m.bids, account).len() + ids_of(m.asks, account).len() > 0,
    ensures
        ({
            let ids = ids_of(m.bids, account) + ids_of(m.asks, account);
            let later = m.cancel(seq, account, ids[0]).book;
            &&& ids_of(later.bids, account) + ids_of(later.asks, account) == ids.drop_first()
            &&& without_account(later, account) == without_account(m, account)
        }),
{
    let ids = ids_of(m.bids, account) + ids_of(m.asks, account);
    let id = ids[0];
    let later = m.cancel(seq, account, id).book;
    if ids_of(m.bids, account).len() > 0 {
        let p = lemma_remove_first(m.bids, account);
        assert(m.find(id) == Some(m.bids[p]));
    } else {
        let p = lemma_remove_first(m.asks, account);
        model::lemma_index_found(m.bids, id);
        assert(m.asks[p].id == id) by {
            model::lemma_index_found(m.asks, id);
        }
        assert(model::index_by_id(m.bids, id) == m.bids.len());
        assert(m.find(id) == Some(m.asks[p]));
    }
    assert(ids_of(later.bids, account) + ids_of(later.asks, account) =~= ids.drop_first());
}

impl OrderBook {
    /// Adds the ids of the account's orders at one level.
    fn ids_at_level(&self, level: &PriceLevel, account: AccountId, out: &mut Vec<OrderId>)
        requires
            level.wf(self.arena@),
        ensures
            final(out)@ == old(out)@ + ids_of(
                level::orders_of(level.keys(), self.arena@),
                account,
            ),
    {
        let ghost keys = level.keys();
        let ghost queue = level::orders_of(keys, self.arena@);
        let mut cursor = level.peek_head();
        let ghost mut j: int = 0;
        assert(old(out)@ + ids_of(queue.take(0), account) =~= out@);
        loop
            invariant_except_break
                0 <= j <= keys.len(),
                cursor == if j < keys.len() {
                    Some(keys[j])
                } else {
                    None
                },
                out@ == old(out)@ + ids_of(queue.take(j), account),
            invariant
                level.wf(self.arena@),
                keys == level.keys(),
                queue == level::orders_of(keys, self.arena@),
            ensures
                out@ == old(out)@ + ids_of(queue, account),
            decreases keys.len() - j,
        {
            assert(j == queue.len() ==> queue.take(j) =~= queue);
            let key = match cursor {
                Some(k) => k,
                None => {
                    break;
                },
            };
            assert(level::linked(keys, self.arena@, j));
            let order = self.arena.at(key);
            assert(queue.take(j + 1).drop_last() =~= queue.take(j));
            assert(queue.take(j + 1).last() == queue[j]);
            if order.account == account {
                out.push(order.id);
            }
            assert(out@ =~= old(out)@ + ids_of(queue.take(j + 1), account));
            cursor = order.next;
            proof {
                j = j + 1;
            }
        }
    }

    /// Adds the ids of the account's orders of one side, best price first.
    fn ids_on_side(&self, side: Side, account: AccountId, out: &mut Vec<OrderId>)
        requires
            self.shape(),
        ensures
            final(out)@ == old(out)@ + ids_of(self.orders(side), account),
    {
        let ghost levels = ladder::by_rank(self.ladder(side), side, self.arena@);
        let side_ladder = match side {
            Side::Buy => &self.bids,
            Side::Sell => &self.asks,
        };
        let n: usize = side_ladder.len();
        let mut step: usize = 0;
        assert(levels.take(0) =~= Seq::<Seq<OrderModel>>::empty());
        assert(levels.take(n as int) =~= levels);
        assert(out@ =~= old(out)@ + ids_of(ladder::flat(levels.take(0)), account));
        while step < n
            invariant
                self.shape(),
                side_ladder@ == self.ladder(side),
                n == side_ladder@.len(),
                step <= n,
                levels == ladder::by_rank(self.ladder(side), side, self.arena@),
                out@ == old(out)@ + ids_of(ladder::flat(levels.take(step as int)), account),
            decreases n - step,
        {
            let idx: usize = match side {
                Side::Buy => n - 1 - step,
                Side::Sell => step,
            };
            let ghost front = ladder::flat(levels.take(step as int));
            let ghost here = levels[step as int];
            let ghost out0 = out@;
            proof {
                assert(levels.take(step + 1) =~= levels.take(step as int).push(here));
                ladder::lemma_flat_push(levels.take(step as int), here);
                lemma_concat(front, here, account);
                assert(ladder::level_ok(
                    side_ladder@[idx as int],
                    side,
                    self.tick_floor.0 + idx,
                    self.arena@,
                ));
                assert(here == level::orders_of(
                    ladder::keys_at(side_ladder@, idx as int),
                    self.arena@,
                ));
            }
            if let Some(level) = &side_ladder[idx] {
                self.ids_at_level(level, account, out);
            }
            proof {
                if side_ladder@[idx as int] is None {
                    assert(here.len() == 0);
                    assert(ids_of(here, account).len() == 0);
                }
                assert(out@ =~= out0 + ids_of(here, account));
                assert(out@ =~= old(out)@ + ids_of(
                    ladder::flat(levels.take(step + 1)),
                    account,
                ));
            }
            step += 1;
        }
    }

    /// The ids of all open orders of an account: bids, then asks, each with
    /// the next one to trade in front.
    pub fn open_order_ids_for_account(&self, account: AccountId) -> (ids: Vec<OrderId>)
        requires
            self.wf(),
        ensures
            ids@ == ids_of(self@.bids, account) + ids_of(self@.asks, account),
    {
        let mut out: Vec<OrderId> = Vec::new();
        self.ids_on_side(Side::Buy, account, &mut out);
        self.ids_on_side(Side::Sell, account, &mut out);
        assert(out@ =~= ids_of(self@.bids, account) + ids_of(self@.asks, account));
        out
    }

    /// Cancels all open orders of an account, and gives their ids. The orders
    /// of the other accounts stay as they are.
    pub fn cancel_account(&mut self, seq: u64, ts_ns: u64, account: AccountId) -> (ids: Vec<
        OrderId,
    >)
        requires
            old(self).wf(),
        ensures
            final(self).wf(),
            ids@ == ids_of(old(self)@.bids, account) + ids_of(old(self)@.asks, account),
            final(self)@ == without_account(old(self)@, account),
    {
        let ids = self.open_order_ids_for_account(account);
        let mut i: usize = 0;
        assert(ids@.skip(0) =~= ids@);
        while i < ids.len()
            invariant
                self.wf(),
                i <= ids@.len(),
                ids@ == ids_of(old(self)@.bids, account) + ids_of(old(self)@.asks, account),
                ids_of(self@.bids, account) + ids_of(self@.asks, account) == ids@.skip(i as int),
                without_account(self@, account) == without_account(old(self)@, account),
            decreases ids@.len() - i,
        {
            let ghost m = self@;
            let order_id = ids[i];
            proof {
                self.law_wf_is_valid();
                assert(ids@.skip(i as int)[0] == order_id);
                lemma_cancel_first(m, account, seq);
                assert(ids@.skip(i as int).drop_first() =~= ids@.skip(i + 1));
            }
            self.apply(SequencedCommand {
                seq,
                ts_ns,
                cmd: InboundCommand::Cancel { account, order_id },
            });
            i += 1;
        }
        proof {
            let a = ids_of(self@.bids, account);
            let b = ids_of(self@.asks, account);
            assert((a + b).len() == 0);
            lemma_no_ids(self@.bids, account);
            lemma_no_ids(self@.asks, account);
            assert(self@ =~= without_account(self@, account));
        }
        ids
    }
}

/// An id is in the list of an account if and only if an order of that account
/// has it, and the list has as many ids as the account has orders.
pub proof fn law_ids_are_those_of_the_account(orders: Seq<OrderModel>, account: AccountId)
    ensures
        forall|id: OrderId| #[trigger]
            ids_of(orders, account).contains(id) <==> exists|i: int|
                0 <= i < orders.len() && (#[trigger] orders[i]).id == id && orders[i].account
                    == account,
        ids_of(orders, account).len() + others_of(orders, account).len() == orders.len(),
    decreases orders.len(),
{
    if orders.len() > 0 {
        let front = orders.drop_last();
        let last = orders.last();
        law_ids_are_those_of_the_account(front, account);
        let ids = ids_of(orders, account);
        let before = ids_of(front, account);
        assert forall|id: OrderId| #[trigger] ids.contains(id) <==> exists|i: int|
            0 <= i < orders.len() && (#[trigger] orders[i]).id == id && orders[i].account
                == account by {
            if ids.contains(id) {
                let j = ids.index_of(id);
                if j < before.len() {
                    assert(before[j] == id);
                    assert(before.contains(id));
                    let i = choose|i: int|
                        0 <= i < front.len() && (#[trigger] front[i]).id == id
                            && front[i].account == account;
                    assert(orders[i] == front[i]);
                } else {
                    assert(orders[orders.len() - 1].id == id);
                }
            }
            if exists|i: int|
                0 <= i < orders.len() && (#[trigger] orders[i]).id == id && orders[i].account
                    == account {
                let i = choose|i: int|
                    0 <= i < orders.len() && (#[trigger] orders[i]).id == id && orders[i].account
                        == account;
                if i < front.len() {
                    assert(front[i] == orders[i]);
                    assert(before.contains(id));
                    let j = before.index_of(id);
                    assert(ids[j] == id);
                } else {
                    assert(ids[ids.len() - 1] == id);
                }
            }
        }
    }
}

/// The ids are listed in the order of the queue: those of a front part come
/// before those of the rest. What the other accounts have stays in order, too.
pub proof fn law_parts_keep_their_order(
    front: Seq<OrderModel>,
    back: Seq<OrderModel>,
    account: AccountId,
)
    ensures
        ids_of(front + back, account) == ids_of(front, account) + ids_of(back, account),
        others_of(front + back, account) == others_of(front, account) + others_of(back, account),
{
    lemma_concat(front, back, account);
}

/// Clearing an account out of a book takes its orders off both sides and
/// leaves the rest of the book as it is.
pub proof fn law_clearing_is_for_both_sides(m: BookModel, account: AccountId)
    ensures
        forall|i: int|
            0 <= i < without_account(m, account).bids.len() ==> (#[trigger] without_account(
                m,
                account,
            ).bids[i]).account != account,
        forall|i: int|
            0 <= i < without_account(m, account).asks.len() ==> (#[trigger] without_account(
                m,
                account,
            ).asks[i]).account != account,
        forall|o: OrderModel|
            o.account != account ==> (#[trigger] without_account(m, account).bids.contains(o)
                <==> m.bids.contains(o)),
        forall|o: OrderModel|
            o.account != account ==> (#[trigger] without_account(m, account).asks.contains(o)
                <==> m.asks.contains(o)),
        without_account(m, account).symbol == m.symbol,
        without_account(m, account).tick_floor == m.tick_floor,
        without_account(m, account).num_ticks == m.num_ticks,
        without_account(m, account).reserved == m.reserved,
{
    law_only_the_account_is_gone(m.bids, account);
    law_only_the_account_is_gone(m.asks, account);
    let later = without_account(m, account);
    assert forall|i: int| 0 <= i < later.bids.len() implies (#[trigger] later.bids[i]).account
        != account by {
        assert(later.bids.contains(later.bids[i]));
    }
    assert forall|i: int| 0 <= i < later.asks.len() implies (#[trigger] later.asks[i]).account
        != account by {
        assert(later.asks.contains(later.asks[i]));
    }
}

} // verus!

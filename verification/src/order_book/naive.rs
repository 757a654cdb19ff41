//! A matcher that is written for clarity alone, and the proof that the book
//! fills orders as it does.
//!
//! It keeps the open orders of each side in a map by price and sequence
//! number, with no other structure. An incoming order trades with the first
//! order of the other side, by price and then by sequence number, until it is
//! filled or the first order does not cross. What is left of a good-till-cancel
//! order goes into the map of its side, what is left of any other is dropped.
//! A cancel takes the order with its id out.

use crate::core_types::commands::{InboundCommand, SequencedCommand};
use crate::core_types::events::EngineEvent;
use crate::core_types::ids::OrderId;
use crate::core_types::price::Price;
use crate::core_types::qty::Qty;
use crate::core_types::side::Side;
use crate::order_book::laws;
use crate::order_book::model;
use crate::order_book::model::{BookModel, Incoming, OrderModel};
use vstd::prelude::*;

verus! {

/// The place of an order in the ranking of its side: price and sequence
/// number.
pub type Rank = (i64, u64);

/// The open orders of one side by their rank.
pub type Orders = Map<Rank, OrderModel>;

/// The open orders of both sides.
pub struct NaiveBook {
    pub bids: Orders,
    pub asks: Orders,
}

/// What an incoming order leaves of the other side, what is left of it, and
/// how much it traded.
pub struct Run {
    pub orders: Orders,
    pub left: u64,
    pub filled: nat,
}

pub open spec fn rank(order: OrderModel) -> Rank {
    (order.price.0, order.seq)
}

/// Rank `a` of the side trades before rank `b`: its price is better, or the
/// same and its sequence number is lower.
pub open spec fn ahead(side: Side, a: Rank, b: Rank) -> bool {
    ||| side is Buy && a.0 > b.0
    ||| side is Sell && a.0 < b.0
    ||| a.0 == b.0 && a.1 < b.1
}

/// The order with this rank is the first of the side.
pub open spec fn is_first(orders: Orders, side: Side, k: Rank) -> bool {
    &&& orders.contains_key(k)
    &&& forall|j: Rank| #[trigger] orders.contains_key(j) && j != k ==> ahead(side, k, j)
}

/// Trades `left` lots of the incoming order with the orders of the other side.
/// With `prevent` set, an order of its own account is taken out where it would
/// trade with it.
pub open spec fn run(orders: Orders, o: Incoming, left: u64, prevent: bool) -> Run
    decreases orders.len(),
{
    let k = choose|k: Rank| is_first(orders, o.side.spec_opposite(), k);
    let first = orders[k];
    if left == 0 || !orders.dom().finite() || !is_first(orders, o.side.spec_opposite(), k)
        || (o.side is Buy && k.0 > o.price.0) || (o.side is Sell && k.0 < o.price.0) {
        Run { orders, left, filled: 0 }
    } else if prevent && first.account == o.account {
        run(orders.remove(k), o, left, prevent)
    } else if left < first.qty.0 {
        Run {
            orders: orders.insert(
                k,
                OrderModel { qty: Qty((first.qty.0 - left) as u64), ..first },
            ),
            left: 0,
            filled: left as nat,
        }
    } else {
        let rest = run(orders.remove(k), o, (left - first.qty.0) as u64, prevent);
        Run { filled: first.qty.0 as nat + rest.filled, ..rest }
    }
}

/// The order with this rank has the id.
pub open spec fn has_id(orders: Orders, k: Rank, id: OrderId) -> bool {
    orders.contains_key(k) && orders[k].id == id
}

/// The orders without the one that has the id.
pub open spec fn taken_out(orders: Orders, id: OrderId) -> Orders {
    let k = choose|k: Rank| has_id(orders, k, id);
    if has_id(orders, k, id) {
        orders.remove(k)
    } else {
        orders
    }
}

impl NaiveBook {
    /// No open orders.
    pub open spec fn empty() -> NaiveBook {
        NaiveBook { bids: Map::empty(), asks: Map::empty() }
    }

    pub open spec fn orders(self, side: Side) -> Orders {
        match side {
            Side::Buy => self.bids,
            Side::Sell => self.asks,
        }
    }

    pub open spec fn with_orders(self, side: Side, orders: Orders) -> NaiveBook {
        match side {
            Side::Buy => NaiveBook { bids: orders, ..self },
            Side::Sell => NaiveBook { asks: orders, ..self },
        }
    }

    /// What an incoming order meets.
    pub open spec fn matched(self, o: Incoming, prevent: bool) -> Run {
        run(self.orders(o.side.spec_opposite()), o, o.qty.0, prevent)
    }

    /// The quantity that a command trades.
    pub open spec fn fill(self, cmd: SequencedCommand, prevent: bool) -> nat {
        if cmd.cmd is NewOrder {
            self.matched(model::incoming(cmd), prevent).filled
        } else {
            0
        }
    }

    /// The open orders after a command.
    pub open spec fn after(self, cmd: SequencedCommand, prevent: bool) -> NaiveBook {
        match cmd.cmd {
            InboundCommand::NewOrder { .. } => {
                let o = model::incoming(cmd);
                let end = self.matched(o, prevent);
                let book = self.with_orders(o.side.spec_opposite(), end.orders);
                if end.left > 0 && o.time_in_force is Gtc {
                    let new = o.resting(end.left);
                    book.with_orders(o.side, book.orders(o.side).insert(rank(new), new))
                } else {
                    book
                }
            },
            InboundCommand::Cancel { order_id, .. } => NaiveBook {
                bids: taken_out(self.bids, order_id),
                asks: taken_out(self.asks, order_id),
            },
            _ => self,
        }
    }

    /// The quantity that each command of a log trades.
    pub open spec fn fills(self, log: Seq<SequencedCommand>, prevent: bool) -> Seq<nat>
        decreases log.len(),
    {
        if log.len() == 0 {
            Seq::empty()
        } else {
            seq![self.fill(log[0], prevent)] + self.after(log[0], prevent).fills(
                log.drop_first(),
                prevent,
            )
        }
    }

    /// The open orders after a log.
    pub open spec fn replay(self, log: Seq<SequencedCommand>, prevent: bool) -> NaiveBook
        decreases log.len(),
    {
        if log.len() == 0 {
            self
        } else {
            self.after(log[0], prevent).replay(log.drop_first(), prevent)
        }
    }
}

/// The quantity that each command of a log trades on the book.
pub open spec fn book_fills(m: BookModel, log: Seq<SequencedCommand>, capacity: nat) -> Seq<nat>
    decreases log.len(),
{
    if log.len() == 0 {
        Seq::empty()
    } else {
        let out = m.step(log[0], capacity);
        seq![laws::traded(out.events)] + book_fills(out.book, log.drop_first(), capacity)
    }
}

/// No order of the account in the queue is one that the incoming order
/// accepts.
pub open spec fn meets_no_own(queue: Seq<OrderModel>, o: Incoming) -> bool {
    forall|i: int|
        0 <= i < queue.len() && (#[trigger] queue[i]).account == o.account ==> {
            ||| o.side is Buy && queue[i].price.0 > o.price.0
            ||| o.side is Sell && queue[i].price.0 < o.price.0
        }
}

/// The command is an everyday one for the book: a new order is not turned
/// down and finds room, and, unless self-trades are prevented, meets no order
/// of its own account; a cancel comes from the owner of the order.
pub open spec fn ordinary(
    m: BookModel,
    cmd: SequencedCommand,
    capacity: nat,
    prevent: bool,
) -> bool {
    match cmd.cmd {
        InboundCommand::NewOrder { .. } => {
            let o = model::incoming(cmd);
            &&& m.admits_order(o)
            &&& m.refusal(o) is None
            &&& prevent || meets_no_own(m.queue(o.side.spec_opposite()), o)
            &&& m.matched(o).left > 0 && o.time_in_force is Gtc ==> m.after_match(o).count()
                < capacity
        },
        InboundCommand::Cancel { account, order_id } => m.find(order_id) matches Some(x)
            ==> x.account == account,
        _ => true,
    }
}

/// Every command of the log is ordinary when its turn comes, and the sequence
/// numbers grow.
pub open spec fn ordinary_log(
    m: BookModel,
    log: Seq<SequencedCommand>,
    capacity: nat,
    prevent: bool,
) -> bool
    decreases log.len(),
{
    log.len() == 0 || {
        &&& ordinary(m, log[0], capacity, prevent)
        &&& log.len() > 1 ==> log[0].seq < log[1].seq
        &&& ordinary_log(m.step(log[0], capacity).book, log.drop_first(), capacity, prevent)
    }
}

/// The orders of the map are those of the queue, and the queue has them by
/// rank.
pub open spec fn same_orders(queue: Seq<OrderModel>, orders: Orders, side: Side) -> bool {
    &&& orders.dom().finite()
    &&& forall|i: int|
        0 <= i < queue.len() ==> orders.contains_key(rank(#[trigger] queue[i]))
            && orders[rank(queue[i])] == queue[i]
    &&& forall|k: Rank| #[trigger]
        orders.contains_key(k) ==> exists|i: int|
            0 <= i < queue.len() && rank(#[trigger] queue[i]) == k
    &&& ranked(queue, side)
}

/// The queue is in the order of the ranks.
pub open spec fn ranked(queue: Seq<OrderModel>, side: Side) -> bool {
    forall|i: int, j: int|
        0 <= i < j < queue.len() ==> ahead(
            side,
            rank(#[trigger] queue[i]),
            rank(#[trigger] queue[j]),
        )
}

/// The first order of the queue is the first of the map.
proof fn lemma_first(queue: Seq<OrderModel>, orders: Orders, side: Side)
    requires
        same_orders(queue, orders, side),
    ensures
        ({
            let k = choose|k: Rank| is_first(orders, side, k);
            if queue.len() > 0 {
                is_first(orders, side, k) && k == rank(queue[0])
            } else {
                !is_first(orders, side, k)
            }
        }),
{
    let k = choose|k: Rank| is_first(orders, side, k);
    if queue.len() > 0 {
        let top = rank(queue[0]);
        assert(orders.contains_key(top));
        assert forall|j: Rank| #[trigger] orders.contains_key(j) && j != top implies ahead(
            side,
            top,
            j,
        ) by {
            let i = choose|i: int| 0 <= i < queue.len() && rank(#[trigger] queue[i]) == j;
            assert(ahead(side, rank(queue[0]), rank(queue[i])));
        }
        assert(is_first(orders, side, top));
        if k != top {
            assert(ahead(side, k, top) && ahead(side, top, k));
        }
    } else if is_first(orders, side, k) {
        assert(orders.contains_key(k));
    }
}

/// Taking an order out of the queue is taking its rank out of the map.
proof fn lemma_without(queue: Seq<OrderModel>, orders: Orders, side: Side, p: int)
    requires
        same_orders(queue, orders, side),
        0 <= p < queue.len(),
    ensures
        same_orders(queue.remove(p), orders.remove(rank(queue[p])), side),
{
    let k = rank(queue[p]);
    let later = queue.remove(p);
    let rest = orders.remove(k);
    assert forall|i: int| 0 <= i < later.len() implies rest.contains_key(rank(#[trigger] later[i]))
        && rest[rank(later[i])] == later[i] by {
        let x = if i < p {
            i
        } else {
            i + 1
        };
        assert(later[i] == queue[x]);
        if x < p {
            assert(ahead(side, rank(queue[x]), rank(queue[p])));
        } else {
            assert(ahead(side, rank(queue[p]), rank(queue[x])));
        }
    }
    assert forall|j: Rank| #[trigger] rest.contains_key(j) implies exists|i: int|
        0 <= i < later.len() && rank(#[trigger] later[i]) == j by {
        assert(orders.contains_key(j));
        let x = choose|i: int| 0 <= i < queue.len() && rank(#[trigger] queue[i]) == j;
        let i = if x < p {
            x
        } else {
            x - 1
        };
        assert(later[i] == queue[x]);
    }
    assert forall|i: int, j: int| 0 <= i < j < later.len() implies ahead(
        side,
        rank(#[trigger] later[i]),
        rank(#[trigger] later[j]),
    ) by {
        let a = if i < p {
            i
        } else {
            i + 1
        };
        let b = if j < p {
            j
        } else {
            j + 1
        };
        assert(later[i] == queue[a] && later[j] == queue[b]);
    }
}

/// An incoming order meets the same in the map as in the queue.
proof fn lemma_same_run(
    queue: Seq<OrderModel>,
    orders: Orders,
    o: Incoming,
    left: u64,
    prevent: bool,
)
    requires
        same_orders(queue, orders, o.side.spec_opposite()),
        prevent || meets_no_own(queue, o),
    ensures
        ({
            let a = model::sweep(queue, o, left);
            let b = run(orders, o, left, prevent);
            &&& same_orders(a.queue, b.orders, o.side.spec_opposite())
            &&& a.left == b.left
            &&& laws::traded(a.events) == b.filled
        }),
    decreases queue.len(),
{
    let opp = o.side.spec_opposite();
    lemma_first(queue, orders, opp);
    if left == 0 || queue.len() == 0 || !model::crosses(o.side, o.price, queue[0].price) {
    } else {
        let k = rank(queue[0]);
        let first = queue[0];
        let rest = queue.drop_first();
        assert(rest =~= queue.remove(0));
        lemma_without(queue, orders, opp, 0);
        if !prevent {
            assert forall|i: int| 0 <= i < rest.len() && (#[trigger] rest[i]).account
                == o.account implies !model::crosses(o.side, o.price, rest[i].price) by {
                assert(rest[i] == queue[i + 1]);
            }
        }
        if first.account == o.account {
            lemma_same_run(rest, orders.remove(k), o, left, prevent);
            let e = EngineEvent::Cancelled { seq: o.seq, order_id: first.id };
            lemma_traded_front(e, model::sweep(rest, o, left).events);
        } else if left < first.qty.0 {
            let less = OrderModel { qty: Qty((first.qty.0 - left) as u64), ..first };
            let later = queue.update(0, less);
            let now = orders.insert(k, less);
            lemma_traded_front(model::trade(o, first, left), Seq::empty());
            assert(seq![model::trade(o, first, left)] =~= seq![model::trade(o, first, left)]
                + Seq::<EngineEvent>::empty());
            assert forall|i: int| 0 <= i < later.len() implies now.contains_key(
                rank(#[trigger] later[i]),
            ) && now[rank(later[i])] == later[i] by {
                if i > 0 {
                    assert(later[i] == queue[i]);
                    assert(ahead(opp, rank(queue[0]), rank(queue[i])));
                }
            }
            assert forall|j: Rank| #[trigger] now.contains_key(j) implies exists|i: int|
                0 <= i < later.len() && rank(#[trigger] later[i]) == j by {
                if j == k {
                    assert(rank(later[0]) == j);
                } else {
                    assert(orders.contains_key(j));
                    let i = choose|i: int| 0 <= i < queue.len() && rank(#[trigger] queue[i]) == j;
                    assert(later[i] == queue[i]);
                }
            }
            assert forall|i: int, j: int| 0 <= i < j < later.len() implies ahead(
                opp,
                rank(#[trigger] later[i]),
                rank(#[trigger] later[j]),
            ) by {
                assert(rank(later[i]) == rank(queue[i]) && later[j] == queue[j]);
            }
        } else {
            let next = (left - first.qty.0) as u64;
            lemma_same_run(rest, orders.remove(k), o, next, prevent);
            lemma_traded_front(
                model::trade(o, first, left),
                model::sweep(rest, o, next).events,
            );
        }
    }
}

/// A new event in front adds its traded quantity.
proof fn lemma_traded_front(e: EngineEvent, events: Seq<EngineEvent>)
    ensures
        laws::traded(seq![e] + events) == laws::trade_qty(e) + laws::traded(events),
{
    assert((seq![e] + events).drop_first() =~= events);
}

/// Putting a new order behind all that are at least as good keeps the queue in
/// the order of the ranks, if its sequence number is the highest.
proof fn lemma_same_rest(queue: Seq<OrderModel>, orders: Orders, side: Side, new: OrderModel)
    requires
        same_orders(queue, orders, side),
        model::sorted(side, queue),
        forall|i: int| 0 <= i < queue.len() ==> (#[trigger] queue[i]).seq < new.seq,
    ensures
        same_orders(
            queue.insert(model::place_of(side, queue, new.price), new),
            orders.insert(rank(new), new),
            side,
        ),
{
    let p = model::place_of(side, queue, new.price);
    laws::lemma_place_found(side, queue, new.price);
    let later = queue.insert(p, new);
    let now = orders.insert(rank(new), new);
    assert forall|i: int| 0 <= i < later.len() implies now.contains_key(rank(#[trigger] later[i]))
        && now[rank(later[i])] == later[i] by {
        if i != p {
            let x = if i < p {
                i
            } else {
                i - 1
            };
            assert(later[i] == queue[x]);
        }
    }
    assert forall|j: Rank| #[trigger] now.contains_key(j) implies exists|i: int|
        0 <= i < later.len() && rank(#[trigger] later[i]) == j by {
        if j == rank(new) {
            assert(rank(later[p]) == j);
        } else {
            assert(orders.contains_key(j));
            let x = choose|i: int| 0 <= i < queue.len() && rank(#[trigger] queue[i]) == j;
            let i = if x < p {
                x
            } else {
                x + 1
            };
            assert(later[i] == queue[x]);
        }
    }
    assert forall|i: int, j: int| 0 <= i < j < later.len() implies ahead(
        side,
        rank(#[trigger] later[i]),
        rank(#[trigger] later[j]),
    ) by {
        let a = if i < p {
            i
        } else {
            i - 1
        };
        let b = if j < p {
            j
        } else {
            j - 1
        };
        if i == p {
            assert(later[j] == queue[b]);
            if b > p {
                assert(!model::better(side, queue[b].price, queue[p].price));
            }
        } else if j == p {
            assert(later[i] == queue[a]);
        } else {
            assert(later[i] == queue[a] && later[j] == queue[b]);
        }
    }
}

/// Taking the order with an id out of the queue is taking it out of the map.
proof fn lemma_same_cancel(queue: Seq<OrderModel>, orders: Orders, side: Side, id: OrderId)
    requires
        same_orders(queue, orders, side),
        model::distinct(queue),
    ensures
        ({
            let i = model::index_by_id(queue, id);
            if i < queue.len() {
                same_orders(queue.remove(i), taken_out(orders, id), side)
            } else {
                taken_out(orders, id) == orders
            }
        }),
{
    let k = choose|k: Rank| has_id(orders, k, id);
    let i = model::index_by_id(queue, id);
    model::lemma_index_found(queue, id);
    if i < queue.len() {
        assert(has_id(orders, rank(queue[i]), id));
        let x = choose|x: int| 0 <= x < queue.len() && rank(#[trigger] queue[x]) == k;
        assert(queue[x].id == queue[i].id);
        assert(x == i);
        lemma_without(queue, orders, side, i);
    } else if has_id(orders, k, id) {
        let x = choose|x: int| 0 <= x < queue.len() && rank(#[trigger] queue[x]) == k;
        assert(queue[x].id == id);
    }
}

/// The open orders are the same on both sides.
pub open spec fn agree(m: BookModel, n: NaiveBook) -> bool {
    same_orders(m.bids, n.bids, Side::Buy) && same_orders(m.asks, n.asks, Side::Sell)
}

/// Every open order came before `seq`.
pub open spec fn all_before(m: BookModel, seq: int) -> bool {
    &&& forall|i: int| 0 <= i < m.bids.len() ==> (#[trigger] m.bids[i]).seq < seq
    &&& forall|i: int| 0 <= i < m.asks.len() ==> (#[trigger] m.asks[i]).seq < seq
}

/// What matching leaves came before `seq` too.
proof fn lemma_match_keeps_before(m: BookModel, o: Incoming, seq: int)
    requires
        m.valid(),
        all_before(m, seq),
    ensures
        all_before(m.after_match(o), seq),
{
    let opp = o.side.spec_opposite();
    let queue = m.queue(opp);
    assert(m.side_ok(opp));
    laws::law_sweep_consumes_front(queue, o, o.qty.0);
    let later = m.matched(o).queue;
    let d = queue.len() - later.len();
    assert forall|i: int| 0 <= i < later.len() implies (#[trigger] later[i]).seq < seq by {
        assert(laws::same_order(later[i], queue[d + i]));
        assert(queue[d + i].seq < seq);
    }
    assert(m.after_match(o).queue(o.side) == m.queue(o.side));
}

/// A resting order is the last that came.
proof fn lemma_rest_keeps_before(m: BookModel, o: Incoming, left: u64)
    requires
        all_before(m, o.seq as int),
    ensures
        all_before(m.rest(o, left), o.seq + 1),
{
    let queue = m.queue(o.side);
    let p = model::place_of(o.side, queue, o.price);
    laws::lemma_place_found(o.side, queue, o.price);
    let grown = queue.insert(p, o.resting(left));
    assert forall|i: int| 0 <= i < grown.len() implies (#[trigger] grown[i]).seq < o.seq + 1 by {
        if i < p {
            assert(grown[i] == queue[i]);
        } else if i > p {
            assert(grown[i] == queue[i - 1]);
        }
    }
    assert(m.rest(o, left).queue(o.side) == grown);
}

/// A new order trades the same on both, and leaves the same orders open.
proof fn lemma_same_order(
    m: BookModel,
    n: NaiveBook,
    cmd: SequencedCommand,
    capacity: nat,
    prevent: bool,
)
    requires
        m.valid(),
        agree(m, n),
        all_before(m, cmd.seq as int),
        ordinary(m, cmd, capacity, prevent),
        cmd.cmd is NewOrder,
    ensures
        ({
            let out = m.step(cmd, capacity);
            &&& laws::traded(out.events) == n.fill(cmd, prevent)
            &&& agree(out.book, n.after(cmd, prevent))
            &&& all_before(out.book, cmd.seq + 1)
        }),
{
    let o = model::incoming(cmd);
    let opp = o.side.spec_opposite();
    let a = m.matched(o);
    let after = m.after_match(o);
    let end = n.matched(o, prevent);
    let book = n.with_orders(opp, end.orders);
    lemma_same_run(m.queue(opp), n.orders(opp), o, o.qty.0, prevent);
    laws::lemma_traded_by_order(m, o, capacity);
    assert(agree(after, book));
    lemma_match_keeps_before(m, o, cmd.seq as int);
    if a.left > 0 && o.time_in_force is Gtc {
        let own = after.queue(o.side);
        let new = o.resting(a.left);
        assert(own == m.queue(o.side) && book.orders(o.side) == n.orders(o.side));
        lemma_same_rest(own, n.orders(o.side), o.side, new);
        lemma_rest_keeps_before(after, o, a.left);
        assert(m.step(cmd, capacity).book == after.rest(o, a.left));
        assert(agree(after.rest(o, a.left), n.after(cmd, prevent)));
    }
}

/// A cancel trades nothing, and leaves the same orders open.
proof fn lemma_same_removal(
    m: BookModel,
    n: NaiveBook,
    cmd: SequencedCommand,
    capacity: nat,
    prevent: bool,
)
    requires
        m.valid(),
        agree(m, n),
        all_before(m, cmd.seq as int),
        ordinary(m, cmd, capacity, prevent),
        cmd.cmd is Cancel,
    ensures
        ({
            let out = m.step(cmd, capacity);
            &&& laws::traded(out.events) == n.fill(cmd, prevent)
            &&& agree(out.book, n.after(cmd, prevent))
            &&& all_before(out.book, cmd.seq + 1)
        }),
{
    let out = m.step(cmd, capacity);
    let id = cmd.cmd->order_id;
    let b = model::index_by_id(m.bids, id);
    let a = model::index_by_id(m.asks, id);
    lemma_same_cancel(m.bids, n.bids, Side::Buy, id);
    lemma_same_cancel(m.asks, n.asks, Side::Sell, id);
    model::lemma_index_found(m.bids, id);
    model::lemma_index_found(m.asks, id);
    lemma_traded_front(out.events[0], Seq::empty());
    assert(out.events =~= seq![out.events[0]] + Seq::<EngineEvent>::empty());
    assert(laws::traded(Seq::<EngineEvent>::empty()) == 0);
    if b < m.bids.len() && a < m.asks.len() {
        assert(m.bids[b].id != m.asks[a].id);
    }
}

/// One command trades the same on both, and leaves the same orders open.
proof fn lemma_same_step(
    m: BookModel,
    n: NaiveBook,
    cmd: SequencedCommand,
    capacity: nat,
    prevent: bool,
)
    requires
        m.valid(),
        agree(m, n),
        all_before(m, cmd.seq as int),
        ordinary(m, cmd, capacity, prevent),
    ensures
        ({
            let out = m.step(cmd, capacity);
            &&& laws::traded(out.events) == n.fill(cmd, prevent)
            &&& agree(out.book, n.after(cmd, prevent))
            &&& all_before(out.book, cmd.seq + 1)
            &&& out.book.valid()
        }),
{
    laws::law_step_keeps_valid(m, cmd, capacity);
    match cmd.cmd {
        InboundCommand::NewOrder { .. } => {
            lemma_same_order(m, n, cmd, capacity, prevent);
        },
        InboundCommand::Cancel { .. } => {
            lemma_same_removal(m, n, cmd, capacity, prevent);
        },
        _ => {
            assert(laws::traded(Seq::<EngineEvent>::empty()) == 0);
        },
    }
}

proof fn lemma_same_log(
    m: BookModel,
    n: NaiveBook,
    log: Seq<SequencedCommand>,
    capacity: nat,
    prevent: bool,
)
    requires
        m.valid(),
        agree(m, n),
        log.len() > 0 ==> all_before(m, log[0].seq as int),
        ordinary_log(m, log, capacity, prevent),
    ensures
        book_fills(m, log, capacity) == n.fills(log, prevent),
        agree(laws::replay(m, log, capacity), n.replay(log, prevent)),
    decreases log.len(),
{
    if log.len() > 0 {
        lemma_same_step(m, n, log[0], capacity, prevent);
        let rest = log.drop_first();
        if rest.len() > 0 {
            assert(rest[0] == log[1]);
        }
        lemma_same_log(
            m.step(log[0], capacity).book,
            n.after(log[0], prevent),
            rest,
            capacity,
            prevent,
        );
    }
}

/// A new book that is fed a log of everyday commands fills each of them as the
/// naive matcher does, and ends with the same open orders.
///
/// The orders of the log have a quantity, a price on the ladder and growing
/// sequence numbers; cancels come from the owners; there is room for what
/// rests. Unless self-trades are prevented on both sides, no order meets one of
/// its own account.
pub proof fn law_book_fills_like_the_naive_matcher(
    m: BookModel,
    log: Seq<SequencedCommand>,
    capacity: nat,
    prevent: bool,
)
    requires
        m.count() == 0,
        ordinary_log(m, log, capacity, prevent),
    ensures
        book_fills(m, log, capacity) == NaiveBook::empty().fills(log, prevent),
        agree(laws::replay(m, log, capacity), NaiveBook::empty().replay(log, prevent)),
{
    lemma_same_log(m, NaiveBook::empty(), log, capacity, prevent);
}

} // verus!

//! The order book as mathematics: two queues of orders in price-time
//! priority, and what each command does to them.

use crate::core_types::commands::{
    InboundCommand, OrderType, SequencedCommand, TimeInForce,
};
use crate::core_types::events::{EngineEvent, RejectReason};
use crate::core_types::ids::{AccountId, ClientOrderId, OrderId, Symbol};
use crate::core_types::price::Price;
use crate::core_types::qty::Qty;
use crate::core_types::side::Side;
use vstd::prelude::*;

verus! {

/// A resting order without its place in memory.
pub struct OrderModel {
    pub id: OrderId,
    pub account: AccountId,
    pub qty: Qty,
    pub side: Side,
    pub price: Price,
    pub seq: u64,
}

/// A book: its fixed price range, and each side's orders with the next one to
/// trade in front.
#[verifier::ext_equal]
pub struct BookModel {
    pub symbol: Symbol,
    /// Lowest price of the ladder.
    pub tick_floor: int,
    /// Number of prices on the ladder.
    pub num_ticks: nat,
    /// Number of open orders that the book always has room for.
    pub reserved: nat,
    pub bids: Seq<OrderModel>,
    pub asks: Seq<OrderModel>,
}

/// A new order as the book sees it.
#[derive(Debug, Clone, Copy)]
pub struct Incoming {
    pub seq: u64,
    pub ts_ns: u64,
    pub account: AccountId,
    pub client_order_id: ClientOrderId,
    pub symbol: Symbol,
    pub side: Side,
    pub price: Price,
    pub qty: Qty,
    pub order_type: OrderType,
    pub time_in_force: TimeInForce,
}

/// What a command leaves behind: the book and the events, oldest first.
#[verifier::ext_equal]
pub struct Outcome {
    pub book: BookModel,
    pub events: Seq<EngineEvent>,
}

/// What a matching run leaves behind: the queue it ran into, the quantity that
/// is still unfilled, and the events.
#[verifier::ext_equal]
pub struct Sweep {
    pub queue: Seq<OrderModel>,
    pub left: u64,
    pub events: Seq<EngineEvent>,
}

/// Price `a` trades strictly before price `b` on the side.
pub open spec fn better(side: Side, a: Price, b: Price) -> bool {
    match side {
        Side::Buy => a.0 > b.0,
        Side::Sell => a.0 < b.0,
    }
}

/// An incoming order of `side` with limit `limit` accepts the price.
pub open spec fn crosses(side: Side, limit: Price, price: Price) -> bool {
    match side {
        Side::Buy => limit.0 >= price.0,
        Side::Sell => limit.0 <= price.0,
    }
}

/// No order stands behind one with a worse price.
pub open spec fn sorted(side: Side, queue: Seq<OrderModel>) -> bool {
    forall|i: int, j: int|
        0 <= i < j < queue.len() ==> !better(
            side,
            (#[trigger] queue[j]).price,
            (#[trigger] queue[i]).price,
        )
}

/// No two orders of the queue have the same id.
pub open spec fn distinct(queue: Seq<OrderModel>) -> bool {
    forall|i: int, j: int|
        0 <= i < j < queue.len() ==> (#[trigger] queue[i]).id != (#[trigger] queue[j]).id
}

/// The total quantity of the orders.
pub open spec fn qty_sum(orders: Seq<OrderModel>) -> nat
    decreases orders.len(),
{
    if orders.len() == 0 {
        0
    } else {
        orders[0].qty.0 as nat + qty_sum(orders.drop_first())
    }
}

/// The total quantity of the orders at one price.
pub open spec fn qty_at(orders: Seq<OrderModel>, price: Price) -> nat
    decreases orders.len(),
{
    if orders.len() == 0 {
        0
    } else {
        (if orders[0].price == price {
            orders[0].qty.0 as nat
        } else {
            0
        }) + qty_at(orders.drop_first(), price)
    }
}

/// The place of the order with this id, the length of the queue if there is
/// none.
pub open spec fn index_by_id(orders: Seq<OrderModel>, id: OrderId) -> int
    decreases orders.len(),
{
    if orders.len() == 0 || orders[0].id == id {
        0
    } else {
        1 + index_by_id(orders.drop_first(), id)
    }
}

/// The place of a new order: behind every order whose price is at least as
/// good.
pub open spec fn place_of(side: Side, queue: Seq<OrderModel>, price: Price) -> int
    decreases queue.len(),
{
    if queue.len() == 0 || better(side, price, queue[0].price) {
        0
    } else {
        1 + place_of(side, queue.drop_first(), price)
    }
}

/// How much of the queue an order of `account` could trade with at once: the
/// crossing orders in front that belong to other accounts.
pub open spec fn fillable(
    queue: Seq<OrderModel>,
    side: Side,
    limit: Price,
    account: AccountId,
) -> nat
    decreases queue.len(),
{
    if queue.len() == 0 || !crosses(side, limit, queue[0].price) {
        0
    } else {
        (if queue[0].account == account {
            0
        } else {
            queue[0].qty.0 as nat
        }) + fillable(queue.drop_first(), side, limit, account)
    }
}

/// How many orders in front of the queue an order with this limit accepts.
pub open spec fn crossing(queue: Seq<OrderModel>, side: Side, limit: Price) -> nat
    decreases queue.len(),
{
    if queue.len() == 0 || !crosses(side, limit, queue[0].price) {
        0
    } else {
        1 + crossing(queue.drop_first(), side, limit)
    }
}

/// The trade between the incoming order, of which `left` is unfilled, and the
/// resting order `maker`.
pub open spec fn trade(o: Incoming, maker: OrderModel, left: u64) -> EngineEvent {
    let qty = if left < maker.qty.0 {
        left
    } else {
        maker.qty.0
    };
    EngineEvent::Trade {
        seq: o.seq,
        ts_ns: o.ts_ns,
        symbol: o.symbol,
        price: maker.price,
        qty: Qty(qty),
        maker_order: maker.id,
        taker_order: OrderId(o.seq),
        maker_order_id: maker.id,
        taker_order_id: OrderId(o.seq),
        maker_acct: maker.account,
        taker_acct: o.account,
        maker_side: o.side.spec_opposite(),
        maker_remaining_qty: Qty((maker.qty.0 - qty) as u64),
        taker_remaining_qty: Qty((left - qty) as u64),
    }
}

/// Matching of `left` lots of the incoming order against the opposite queue,
/// front to back. Orders of the same account are cancelled and never traded
/// with; the run stops at the first price that the limit does not accept.
pub open spec fn sweep(queue: Seq<OrderModel>, o: Incoming, left: u64) -> Sweep
    decreases queue.len(),
{
    if left == 0 || queue.len() == 0 || !crosses(o.side, o.price, queue[0].price) {
        Sweep { queue, left, events: Seq::empty() }
    } else if queue[0].account == o.account {
        let rest = sweep(queue.drop_first(), o, left);
        Sweep {
            events: seq![EngineEvent::Cancelled { seq: o.seq, order_id: queue[0].id }]
                + rest.events,
            ..rest
        }
    } else if left < queue[0].qty.0 {
        Sweep {
            queue: queue.update(
                0,
                OrderModel { qty: Qty((queue[0].qty.0 - left) as u64), ..queue[0] },
            ),
            left: 0,
            events: seq![trade(o, queue[0], left)],
        }
    } else {
        let rest = sweep(queue.drop_first(), o, (left - queue[0].qty.0) as u64);
        Sweep { events: seq![trade(o, queue[0], left)] + rest.events, ..rest }
    }
}

impl Incoming {
    pub open spec fn rejected(self, reason: RejectReason) -> EngineEvent {
        EngineEvent::Rejected {
            seq: self.seq,
            order_id: OrderId(self.seq),
            account_id: self.account,
            client_order_id: self.client_order_id,
            reason,
        }
    }

    /// The order that rests when `left` lots found no counterpart.
    pub open spec fn resting(self, left: u64) -> OrderModel {
        OrderModel {
            id: OrderId(self.seq),
            account: self.account,
            qty: Qty(left),
            side: self.side,
            price: self.price,
            seq: self.seq,
        }
    }

    pub open spec fn accepted(self, left: u64) -> EngineEvent {
        EngineEvent::Accepted {
            seq: self.seq,
            order_id: OrderId(self.seq),
            ts_ns: self.ts_ns,
            symbol: self.symbol,
            account_id: self.account,
            client_order_id: self.client_order_id,
            side: self.side,
            price: self.price,
            qty: Qty(left),
        }
    }
}

impl BookModel {
    /// The orders of one side.
    pub open spec fn queue(self, side: Side) -> Seq<OrderModel> {
        match side {
            Side::Buy => self.bids,
            Side::Sell => self.asks,
        }
    }

    pub open spec fn with_queue(self, side: Side, queue: Seq<OrderModel>) -> BookModel {
        match side {
            Side::Buy => BookModel { bids: queue, ..self },
            Side::Sell => BookModel { asks: queue, ..self },
        }
    }

    /// Number of open orders.
    pub open spec fn count(self) -> nat {
        self.bids.len() + self.asks.len()
    }

    /// The price is on the ladder.
    pub open spec fn in_range(self, price: Price) -> bool {
        0 <= price.0 - self.tick_floor < self.num_ticks
    }

    /// The best price of a side.
    pub open spec fn best(self, side: Side) -> Option<Price> {
        if self.queue(side).len() == 0 {
            None
        } else {
            Some(self.queue(side)[0].price)
        }
    }

    /// The open order with this id.
    pub open spec fn find(self, id: OrderId) -> Option<OrderModel> {
        let b = index_by_id(self.bids, id);
        let a = index_by_id(self.asks, id);
        if b < self.bids.len() {
            Some(self.bids[b])
        } else if a < self.asks.len() {
            Some(self.asks[a])
        } else {
            None
        }
    }

    pub open spec fn top(self, seq: u64, symbol: Symbol) -> EngineEvent {
        EngineEvent::BookTop {
            seq,
            symbol,
            bid: self.best(Side::Buy),
            ask: self.best(Side::Sell),
        }
    }

    /// The book and one event.
    pub open spec fn refuse(self, event: EngineEvent) -> Outcome {
        Outcome { book: self, events: seq![event] }
    }

    /// Matching of an incoming order against the opposite side.
    pub open spec fn matched(self, o: Incoming) -> Sweep {
        sweep(self.queue(o.side.spec_opposite()), o, o.qty.0)
    }

    /// The book after that matching.
    pub open spec fn after_match(self, o: Incoming) -> BookModel {
        self.with_queue(o.side.spec_opposite(), self.matched(o).queue)
    }

    /// The reason to turn an order down before it touches the book.
    pub open spec fn refusal(self, o: Incoming) -> Option<RejectReason> {
        if o.qty.0 == 0 {
            Some(RejectReason::InvalidQty)
        } else if o.order_type is Market {
            Some(RejectReason::UnsupportedOrderType)
        } else if !self.in_range(o.price) {
            Some(RejectReason::PriceOutOfRange)
        } else if o.time_in_force is Fok && fillable(
            self.queue(o.side.spec_opposite()),
            o.side,
            o.price,
            o.account,
        ) < o.qty.0 {
            Some(RejectReason::FokNotFullyFillable)
        } else {
            None
        }
    }

    /// The book with `left` lots of the order resting on it.
    pub open spec fn rest(self, o: Incoming, left: u64) -> BookModel {
        let queue = self.queue(o.side);
        self.with_queue(
            o.side,
            queue.insert(place_of(o.side, queue, o.price), o.resting(left)),
        )
    }

    /// What a new order does, where the book has room for `capacity` open
    /// orders.
    pub open spec fn place(self, o: Incoming, capacity: nat) -> Outcome {
        let s = self.matched(o);
        let after = self.after_match(o);
        if self.refusal(o) is Some {
            self.refuse(o.rejected(self.refusal(o)->0))
        } else if s.left == 0 {
            Outcome { book: after, events: s.events.push(after.top(o.seq, o.symbol)) }
        } else if !(o.time_in_force is Gtc) {
            let end = if s.left < o.qty.0 {
                EngineEvent::Cancelled { seq: o.seq, order_id: OrderId(o.seq) }
            } else {
                o.rejected(RejectReason::IocNoMatch)
            };
            Outcome {
                book: after,
                events: s.events.push(end).push(after.top(o.seq, o.symbol)),
            }
        } else if after.count() >= capacity {
            Outcome { book: after, events: s.events.push(o.rejected(RejectReason::ArenaFull)) }
        } else {
            let book = after.rest(o, s.left);
            Outcome {
                book,
                events: s.events.push(o.accepted(s.left)).push(book.top(o.seq, o.symbol)),
            }
        }
    }

    /// The book without the order.
    pub open spec fn without(self, id: OrderId) -> BookModel {
        let b = index_by_id(self.bids, id);
        let a = index_by_id(self.asks, id);
        if b < self.bids.len() {
            BookModel { bids: self.bids.remove(b), ..self }
        } else {
            BookModel { asks: self.asks.remove(a), ..self }
        }
    }

    /// What a request of `account` to cancel an order does.
    pub open spec fn cancel(self, seq: u64, account: AccountId, id: OrderId) -> Outcome {
        match self.find(id) {
            None => self.refuse(cancel_rejected(seq, account, id, RejectReason::OrderNotFound)),
            Some(o) => if o.account != account {
                self.refuse(cancel_rejected(seq, account, id, RejectReason::WrongAccount))
            } else {
                Outcome {
                    book: self.without(id),
                    events: seq![EngineEvent::Cancelled { seq, order_id: id }],
                }
            },
        }
    }

    /// What a command does.
    pub open spec fn step(self, cmd: SequencedCommand, capacity: nat) -> Outcome {
        match cmd.cmd {
            InboundCommand::NewOrder { .. } => self.place(incoming(cmd), capacity),
            InboundCommand::Cancel { account, order_id } => self.cancel(
                cmd.seq,
                account,
                order_id,
            ),
            InboundCommand::Liquidate { .. } => Outcome { book: self, events: Seq::empty() },
            InboundCommand::FreezeAccount { .. } => Outcome { book: self, events: Seq::empty() },
        }
    }

    /// The command can be applied: where something of a new order would rest,
    /// no open order has its sequence number, and what would rest can be
    /// counted.
    pub open spec fn admits(self, cmd: SequencedCommand) -> bool {
        cmd.cmd is NewOrder ==> self.admits_order(incoming(cmd))
    }

    pub open spec fn admits_order(self, o: Incoming) -> bool {
        self.refusal(o) is None && o.time_in_force is Gtc && self.matched(o).left > 0 ==> {
            &&& self.find(OrderId(o.seq)) is None
            &&& qty_at(self.queue(o.side), o.price) + self.matched(o).left <= u64::MAX
            &&& self.after_match(o).count() < crate::order_book::arena::MAX_ORDERS
        }
    }

    /// The orders of a side belong there.
    pub open spec fn side_ok(self, side: Side) -> bool {
        let queue = self.queue(side);
        forall|i: int|
            0 <= i < queue.len() ==> {
                &&& (#[trigger] queue[i]).side == side
                &&& queue[i].qty.0 > 0
                &&& self.in_range(queue[i].price)
            }
    }

    /// No two open orders have the same id.
    pub open spec fn ids_distinct(self) -> bool {
        &&& distinct(self.bids)
        &&& distinct(self.asks)
        &&& forall|i: int, j: int|
            0 <= i < self.bids.len() && 0 <= j < self.asks.len() ==> (#[trigger] self.bids[i]).id
                != (#[trigger] self.asks[j]).id
    }

    /// No bid would trade with an ask.
    pub open spec fn uncrossed(self) -> bool {
        forall|i: int, j: int|
            0 <= i < self.bids.len() && 0 <= j < self.asks.len() ==> (#[trigger] self.bids[i]).price.0
                < (#[trigger] self.asks[j]).price.0
    }

    /// What holds of every book.
    pub open spec fn valid(self) -> bool {
        &&& self.side_ok(Side::Buy)
        &&& self.side_ok(Side::Sell)
        &&& sorted(Side::Buy, self.bids)
        &&& sorted(Side::Sell, self.asks)
        &&& self.ids_distinct()
        &&& self.uncrossed()
    }
}

pub open spec fn cancel_rejected(
    seq: u64,
    account: AccountId,
    id: OrderId,
    reason: RejectReason,
) -> EngineEvent {
    EngineEvent::Rejected {
        seq,
        order_id: id,
        account_id: account,
        client_order_id: ClientOrderId(0),
        reason,
    }
}

/// The new order that the command carries.
pub open spec fn incoming(cmd: SequencedCommand) -> Incoming
    recommends
        cmd.cmd is NewOrder,
{
    Incoming {
        seq: cmd.seq,
        ts_ns: cmd.ts_ns,
        account: cmd.cmd->NewOrder_account,
        client_order_id: cmd.cmd->client_order_id,
        symbol: cmd.cmd->NewOrder_symbol,
        side: cmd.cmd->side,
        price: cmd.cmd->price,
        qty: cmd.cmd->qty,
        order_type: cmd.cmd->order_type,
        time_in_force: cmd.cmd->time_in_force,
    }
}

/// The quantity of two queues together is the sum of their quantities.
pub proof fn lemma_qty_sum_concat(a: Seq<OrderModel>, b: Seq<OrderModel>)
    ensures
        qty_sum(a + b) == qty_sum(a) + qty_sum(b),
    decreases a.len(),
{
    if a.len() == 0 {
        assert(a + b =~= b);
    } else {
        assert((a + b).drop_first() =~= a.drop_first() + b);
        lemma_qty_sum_concat(a.drop_first(), b);
    }
}

/// Taking one order out of a queue takes its quantity out.
pub proof fn lemma_qty_sum_split(orders: Seq<OrderModel>, i: int)
    requires
        0 <= i < orders.len(),
    ensures
        qty_sum(orders) == qty_sum(orders.remove(i)) + orders[i].qty.0,
{
    let a = orders.take(i);
    let b = orders.skip(i + 1);
    assert(orders =~= a + (seq![orders[i]] + b));
    assert(orders.remove(i) =~= a + b);
    lemma_qty_sum_concat(a, seq![orders[i]] + b);
    lemma_qty_sum_concat(seq![orders[i]], b);
    lemma_qty_sum_concat(a, b);
    assert(qty_sum(seq![orders[i]]) == orders[i].qty.0) by {
        reveal_with_fuel(qty_sum, 2);
    }
}

/// The first order with an id is where the id is looked up.
pub proof fn lemma_index_by_id(orders: Seq<OrderModel>, id: OrderId, p: int)
    requires
        0 <= p <= orders.len(),
        forall|i: int| 0 <= i < p ==> (#[trigger] orders[i]).id != id,
        p < orders.len() ==> orders[p].id == id,
    ensures
        index_by_id(orders, id) == p,
    decreases orders.len(),
{
    if p > 0 {
        let rest = orders.drop_first();
        assert forall|i: int| 0 <= i < p - 1 implies (#[trigger] rest[i]).id != id by {
            assert(rest[i] == orders[i + 1]);
        }
        lemma_index_by_id(rest, id, p - 1);
    }
}

/// What a look-up by id finds.
pub proof fn lemma_index_found(orders: Seq<OrderModel>, id: OrderId)
    ensures
        0 <= index_by_id(orders, id) <= orders.len(),
        index_by_id(orders, id) < orders.len() ==> orders[index_by_id(orders, id)].id == id,
        forall|i: int|
            0 <= i < index_by_id(orders, id) ==> (#[trigger] orders[i]).id != id,
    decreases orders.len(),
{
    if orders.len() > 0 && orders[0].id != id {
        let rest = orders.drop_first();
        lemma_index_found(rest, id);
        assert forall|i: int| 0 <= i < index_by_id(orders, id) implies (#[trigger] orders[i]).id
            != id by {
            if i > 0 {
                assert(orders[i] == rest[i - 1]);
            }
        }
    }
}

pub proof fn lemma_qty_at_concat(a: Seq<OrderModel>, b: Seq<OrderModel>, price: Price)
    ensures
        qty_at(a + b, price) == qty_at(a, price) + qty_at(b, price),
    decreases a.len(),
{
    if a.len() == 0 {
        assert(a + b =~= b);
    } else {
        assert((a + b).drop_first() =~= a.drop_first() + b);
        lemma_qty_at_concat(a.drop_first(), b, price);
    }
}

/// The quantity at a price that no order has is zero.
pub proof fn lemma_qty_at_none(orders: Seq<OrderModel>, price: Price)
    requires
        forall|i: int| 0 <= i < orders.len() ==> (#[trigger] orders[i]).price != price,
    ensures
        qty_at(orders, price) == 0,
    decreases orders.len(),
{
    if orders.len() > 0 {
        let rest = orders.drop_first();
        assert forall|i: int| 0 <= i < rest.len() implies (#[trigger] rest[i]).price != price by {
            assert(rest[i] == orders[i + 1]);
        }
        assert(orders[0].price != price);
        lemma_qty_at_none(rest, price);
    }
}

/// The quantity at a price that all orders have is their total.
pub proof fn lemma_qty_at_all(orders: Seq<OrderModel>, price: Price)
    requires
        forall|i: int| 0 <= i < orders.len() ==> (#[trigger] orders[i]).price == price,
    ensures
        qty_at(orders, price) == qty_sum(orders),
    decreases orders.len(),
{
    if orders.len() > 0 {
        let rest = orders.drop_first();
        assert forall|i: int| 0 <= i < rest.len() implies (#[trigger] rest[i]).price == price by {
            assert(rest[i] == orders[i + 1]);
        }
        assert(orders[0].price == price);
        lemma_qty_at_all(rest, price);
    }
}

/// Every order of the queue is at a price that the limit accepts.
pub open spec fn all_cross(queue: Seq<OrderModel>, side: Side, limit: Price) -> bool {
    forall|i: int| 0 <= i < queue.len() ==> crosses(side, limit, (#[trigger] queue[i]).price)
}

/// Behind a queue that crosses completely, counting goes on.
pub proof fn lemma_fillable_concat(
    a: Seq<OrderModel>,
    b: Seq<OrderModel>,
    side: Side,
    limit: Price,
    account: AccountId,
)
    requires
        all_cross(a, side, limit),
    ensures
        fillable(a + b, side, limit, account) == fillable(a, side, limit, account) + fillable(
            b,
            side,
            limit,
            account,
        ),
    decreases a.len(),
{
    if a.len() == 0 {
        assert(a + b =~= b);
    } else {
        let rest = a.drop_first();
        assert((a + b).drop_first() =~= rest + b);
        assert forall|i: int| 0 <= i < rest.len() implies crosses(
            side,
            limit,
            (#[trigger] rest[i]).price,
        ) by {
            assert(rest[i] == a[i + 1]);
        }
        assert(crosses(side, limit, a[0].price));
        lemma_fillable_concat(rest, b, side, limit, account);
    }
}

/// The quantity that belongs to other accounts.
pub open spec fn others_qty(orders: Seq<OrderModel>, account: AccountId) -> nat
    decreases orders.len(),
{
    if orders.len() == 0 {
        0
    } else {
        (if orders.last().account == account {
            0
        } else {
            orders.last().qty.0 as nat
        }) + others_qty(orders.drop_last(), account)
    }
}

/// In a queue that crosses completely, everything of other accounts counts.
pub proof fn lemma_fillable_all(
    queue: Seq<OrderModel>,
    side: Side,
    limit: Price,
    account: AccountId,
)
    requires
        all_cross(queue, side, limit),
    ensures
        fillable(queue, side, limit, account) == others_qty(queue, account),
    decreases queue.len(),
{
    if queue.len() > 0 {
        let front = queue.drop_last();
        let one = seq![queue.last()];
        assert(queue =~= front + one);
        assert forall|i: int| 0 <= i < front.len() implies crosses(
            side,
            limit,
            (#[trigger] front[i]).price,
        ) by {
            assert(front[i] == queue[i]);
        }
        assert(crosses(side, limit, queue.last().price));
        lemma_fillable_concat(front, one, side, limit, account);
        lemma_fillable_all(front, side, limit, account);
        assert(one.drop_first() =~= Seq::<OrderModel>::empty());
        reveal_with_fuel(fillable, 2);
    }
}

/// A part of a queue holds no more of other accounts than all of it.
pub proof fn lemma_others_monotone(queue: Seq<OrderModel>, j: int, account: AccountId)
    requires
        0 <= j <= queue.len(),
    ensures
        others_qty(queue.take(j), account) <= others_qty(queue, account),
    decreases queue.len() - j,
{
    if j < queue.len() {
        lemma_others_monotone(queue, j + 1, account);
        assert(queue.take(j + 1).drop_last() =~= queue.take(j));
    } else {
        assert(queue.take(j) =~= queue);
    }
}

/// The accepted orders are a front part: where `front` is accepted and what
/// stands behind it is not, there are as many as `front` has.
pub proof fn lemma_crossing_front(
    front: Seq<OrderModel>,
    back: Seq<OrderModel>,
    side: Side,
    limit: Price,
)
    requires
        all_cross(front, side, limit),
        back.len() > 0 ==> !crosses(side, limit, back[0].price),
    ensures
        crossing(front + back, side, limit) == front.len(),
    decreases front.len(),
{
    if front.len() == 0 {
        assert(front + back =~= back);
    } else {
        let all = front + back;
        assert(all[0] == front[0]);
        assert(all.drop_first() =~= front.drop_first() + back);
        lemma_crossing_front(front.drop_first(), back, side, limit);
    }
}

/// The place behind all prices that are at least as good.
pub proof fn lemma_place_of(side: Side, queue: Seq<OrderModel>, price: Price, p: int)
    requires
        0 <= p <= queue.len(),
        forall|i: int| 0 <= i < p ==> !better(side, price, (#[trigger] queue[i]).price),
        p < queue.len() ==> better(side, price, queue[p].price),
    ensures
        place_of(side, queue, price) == p,
    decreases queue.len(),
{
    if p > 0 {
        let rest = queue.drop_first();
        assert forall|i: int| 0 <= i < p - 1 implies !better(
            side,
            price,
            (#[trigger] rest[i]).price,
        ) by {
            assert(rest[i] == queue[i + 1]);
        }
        assert(!better(side, price, queue[0].price));
        lemma_place_of(side, rest, price, p - 1);
    }
}

} // verus!

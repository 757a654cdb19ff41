//! What the book does with a command, said in plain prices and quantities.

use crate::core_types::commands::{InboundCommand, SequencedCommand};
use crate::core_types::events::{EngineEvent, RejectReason};
use crate::core_types::ids::{AccountId, ClientOrderId, OrderId};
use crate::core_types::price::Price;
use crate::core_types::side::Side;
use crate::order_book::laws;
use crate::order_book::model;
use crate::order_book::model::{BookModel, Incoming, OrderModel};
use crate::order_book::order::RestingOrder;
use vstd::prelude::*;

verus! {

/// The incoming order would trade at the price: a buy at its limit or below, a
/// sell at its limit or above.
pub open spec fn acceptable(o: Incoming, price: Price) -> bool {
    if o.side is Buy {
        price.0 <= o.price.0
    } else {
        price.0 >= o.price.0
    }
}

/// What all orders of a queue offer to the incoming order: the quantities of
/// other accounts at acceptable prices, wherever they stand.
pub open spec fn offered(queue: Seq<OrderModel>, o: Incoming) -> nat
    decreases queue.len(),
{
    if queue.len() == 0 {
        0
    } else {
        offered(queue.drop_last(), o) + (if queue.last().account != o.account && acceptable(
            o,
            queue.last().price,
        ) {
            queue.last().qty.0 as nat
        } else {
            0
        })
    }
}

/// The quantity of one event, if it is a trade.
pub open spec fn traded_by(e: EngineEvent) -> int {
    if e is Trade {
        e->Trade_qty.0 as int
    } else {
        0
    }
}

/// The quantity of all trades.
pub open spec fn all_trades(events: Seq<EngineEvent>) -> int
    decreases events.len(),
{
    if events.len() == 0 {
        0
    } else {
        all_trades(events.drop_last()) + traded_by(events.last())
    }
}

proof fn lemma_all_trades_front(e: EngineEvent, events: Seq<EngineEvent>)
    ensures
        all_trades(seq![e] + events) == traded_by(e) + all_trades(events),
    decreases events.len(),
{
    let all = seq![e] + events;
    if events.len() == 0 {
        assert(all.drop_last() =~= Seq::<EngineEvent>::empty());
        assert(all_trades(all.drop_last()) == 0);
    } else {
        assert(all.drop_last() =~= seq![e] + events.drop_last());
        lemma_all_trades_front(e, events.drop_last());
    }
}

/// What the event at place `i` of a matching run is, where `maker` is the
/// resting order at that place and `left` is what was unfilled before it.
///
/// An order of the same account is cancelled. With any other there is a trade
/// of the smaller of the two quantities, at the price of the resting order. It
/// says what is left of both: of the resting order its quantity without the
/// trade, of the incoming one what was unfilled without the trade.
pub open spec fn is_event_of(e: EngineEvent, o: Incoming, maker: OrderModel, left: int) -> bool {
    &&& left > 0
    &&& acceptable(o, maker.price)
    &&& if maker.account == o.account {
        e == (EngineEvent::Cancelled { seq: o.seq, order_id: maker.id })
    } else {
        e matches EngineEvent::Trade {
            seq,
            ts_ns,
            symbol,
            price,
            qty,
            maker_order,
            taker_order,
            maker_order_id,
            taker_order_id,
            maker_acct,
            taker_acct,
            maker_side,
            maker_remaining_qty,
            taker_remaining_qty,
        } && {
            &&& seq == o.seq
            &&& ts_ns == o.ts_ns
            &&& symbol == o.symbol
            &&& price == maker.price
            &&& qty.0 <= left && qty.0 <= maker.qty.0
            &&& qty.0 == left || qty.0 == maker.qty.0
            &&& maker_order == maker.id && maker_order_id == maker.id
            &&& taker_order == OrderId(o.seq) && taker_order_id == OrderId(o.seq)
            &&& maker_acct == maker.account
            &&& taker_acct == o.account
            &&& maker_side is Buy <==> o.side is Sell
            &&& maker_remaining_qty.0 == maker.qty.0 - qty.0
            &&& taker_remaining_qty.0 == left - qty.0
        }
    }
}

/// A matching run, event by event: it deals with the queue from the front, one
/// event for each order, and stops when the incoming order is filled or the
/// next price is not acceptable. Orders that are filled or cancelled leave the
/// queue; the last one may stay, with the quantity that its trade says.
pub proof fn law_run_event_by_event(queue: Seq<OrderModel>, o: Incoming, left: u64)
    requires
        forall|i: int| 0 <= i < queue.len() ==> (#[trigger] queue[i]).qty.0 > 0,
    ensures
        ({
            let run = model::sweep(queue, o, left);
            let n = run.events.len() as int;
            &&& n <= queue.len()
            &&& forall|i: int|
                0 <= i < n ==> is_event_of(
                    #[trigger] run.events[i],
                    o,
                    queue[i],
                    left - all_trades(run.events.take(i)),
                )
            &&& run.left == left - all_trades(run.events)
            &&& run.left > 0 && n < queue.len() ==> !acceptable(o, queue[n].price)
            &&& forall|i: int|
                0 <= i < n - 1 && (#[trigger] run.events[i]) is Trade
                    ==> run.events[i]->maker_remaining_qty.0 == 0
            &&& if n > 0 && run.events[n - 1] is Trade && run.events[n - 1]->maker_remaining_qty.0
                > 0 {
                let part = OrderModel {
                    qty: run.events[n - 1]->maker_remaining_qty,
                    ..queue[n - 1]
                };
                run.queue == seq![part] + queue.skip(n)
            } else {
                run.queue == queue.skip(n)
            }
        }),
    decreases queue.len(),
{
    let run = model::sweep(queue, o, left);
    let n = run.events.len() as int;
    if left == 0 || queue.len() == 0 || !model::crosses(o.side, o.price, queue[0].price) {
        assert(queue.skip(0) =~= queue);
        assert(run.events =~= Seq::<EngineEvent>::empty());
    } else {
        assert(queue[0].qty.0 > 0);
        assert(run.events.take(0) =~= Seq::<EngineEvent>::empty());
        let e = run.events[0];
        if queue[0].account != o.account && left < queue[0].qty.0 {
            assert(run.events =~= seq![e]);
            lemma_all_trades_front(e, Seq::empty());
            assert(seq![e] + Seq::<EngineEvent>::empty() =~= run.events);
            let part = OrderModel { qty: e->maker_remaining_qty, ..queue[0] };
            assert(run.queue =~= seq![part] + queue.skip(1));
        } else {
            let rest = queue.drop_first();
            assert forall|i: int| 0 <= i < rest.len() implies (#[trigger] rest[i]).qty.0 > 0 by {
                assert(rest[i] == queue[i + 1]);
            }
            let next = if queue[0].account == o.account {
                left
            } else {
                (left - queue[0].qty.0) as u64
            };
            law_run_event_by_event(rest, o, next);
            let tail = model::sweep(rest, o, next);
            assert(run.events =~= seq![e] + tail.events);
            lemma_all_trades_front(e, tail.events);
            assert forall|i: int| 0 <= i < n implies is_event_of(
                #[trigger] run.events[i],
                o,
                queue[i],
                left - all_trades(run.events.take(i)),
            ) by {
                if i > 0 {
                    assert(run.events[i] == tail.events[i - 1]);
                    assert(rest[i - 1] == queue[i]);
                    assert(run.events.take(i) =~= seq![e] + tail.events.take(i - 1));
                    lemma_all_trades_front(e, tail.events.take(i - 1));
                }
            }
            assert forall|i: int| 0 <= i < n - 1 && (#[trigger] run.events[i]) is Trade implies
                run.events[i]->maker_remaining_qty.0 == 0 by {
                if i > 0 {
                    assert(run.events[i] == tail.events[i - 1]);
                }
            }
            assert(rest.skip(n - 1) =~= queue.skip(n));
            if n - 1 < rest.len() {
                assert(rest[n - 1] == queue[n]);
            }
            if n > 1 {
                assert(run.events[n - 1] == tail.events[n - 2]);
                assert(rest[n - 2] == queue[n - 1]);
            }
        }
    }
}

/// What the front of a sorted queue offers is what the whole queue offers.
proof fn lemma_offered(queue: Seq<OrderModel>, o: Incoming)
    requires
        model::sorted(o.side.spec_opposite(), queue),
    ensures
        model::fillable(queue, o.side, o.price, o.account) == offered(queue, o),
    decreases queue.len(),
{
    if queue.len() > 0 {
        let rest = queue.drop_first();
        assert forall|i: int, j: int| 0 <= i < j < rest.len() implies !model::better(
            o.side.spec_opposite(),
            (#[trigger] rest[j]).price,
            (#[trigger] rest[i]).price,
        ) by {
            assert(rest[i] == queue[i + 1] && rest[j] == queue[j + 1]);
        }
        lemma_offered(rest, o);
        lemma_offered_front(queue, o);
        if !model::crosses(o.side, o.price, queue[0].price) {
            assert forall|i: int| 0 <= i < queue.len() implies !acceptable(
                o,
                (#[trigger] queue[i]).price,
            ) by {
                if i > 0 {
                    assert(!model::better(
                        o.side.spec_opposite(),
                        queue[i].price,
                        queue[0].price,
                    ));
                }
            }
            lemma_nothing_offered(queue, o);
        }
    }
}

proof fn lemma_offered_front(queue: Seq<OrderModel>, o: Incoming)
    requires
        queue.len() > 0,
    ensures
        offered(queue, o) == offered(queue.drop_first(), o) + (if queue[0].account != o.account
            && acceptable(o, queue[0].price) {
            queue[0].qty.0 as nat
        } else {
            0
        }),
    decreases queue.len(),
{
    if queue.len() == 1 {
        assert(queue.drop_last() =~= Seq::<OrderModel>::empty());
        assert(queue.drop_first() =~= Seq::<OrderModel>::empty());
        assert(offered(queue.drop_last(), o) == 0 && offered(queue.drop_first(), o) == 0);
    } else {
        lemma_offered_front(queue.drop_last(), o);
        assert(queue.drop_last().drop_first() =~= queue.drop_first().drop_last());
        assert(queue.drop_first().last() == queue.last());
    }
}

proof fn lemma_nothing_offered(queue: Seq<OrderModel>, o: Incoming)
    requires
        forall|i: int| 0 <= i < queue.len() ==> !acceptable(o, (#[trigger] queue[i]).price),
    ensures
        offered(queue, o) == 0,
    decreases queue.len(),
{
    if queue.len() > 0 {
        assert(!acceptable(o, queue[queue.len() - 1].price));
        lemma_nothing_offered(queue.drop_last(), o);
    }
}

/// The other side of the book than that of the order.
pub open spec fn other_side(m: BookModel, o: Incoming) -> Seq<OrderModel> {
    if o.side is Buy {
        m.asks
    } else {
        m.bids
    }
}

/// The order's own side of the book.
pub open spec fn own_side(m: BookModel, o: Incoming) -> Seq<OrderModel> {
    if o.side is Buy {
        m.bids
    } else {
        m.asks
    }
}

/// Why an order is turned down, if it is: it has no quantity, is no limit
/// order, has a price that the ladder does not have, or must be filled
/// completely while less than its quantity is offered.
pub open spec fn cause(m: BookModel, o: Incoming) -> Option<RejectReason> {
    if o.qty.0 == 0 {
        Some(RejectReason::InvalidQty)
    } else if o.order_type is Market {
        Some(RejectReason::UnsupportedOrderType)
    } else if o.price.0 < m.tick_floor || o.price.0 >= m.tick_floor + m.num_ticks {
        Some(RejectReason::PriceOutOfRange)
    } else if o.time_in_force is Fok && offered(other_side(m, o), o) < o.qty.0 {
        Some(RejectReason::FokNotFullyFillable)
    } else {
        None
    }
}

/// A rejected order, as its owner is told.
pub open spec fn refused(o: Incoming, reason: RejectReason) -> EngineEvent {
    EngineEvent::Rejected {
        seq: o.seq,
        order_id: OrderId(o.seq),
        account_id: o.account,
        client_order_id: o.client_order_id,
        reason,
    }
}

/// An order is turned down if and only if there is a cause; then it gets that
/// one answer and the book stays as it was.
pub proof fn law_orders_are_refused_for_cause(m: BookModel, o: Incoming, capacity: nat)
    requires
        m.valid(),
    ensures
        m.refusal(o) == cause(m, o),
        cause(m, o) matches Some(reason) ==> {
            &&& m.place(o, capacity).book == m
            &&& m.place(o, capacity).events == seq![refused(o, reason)]
        },
{
    lemma_offered(other_side(m, o), o);
    assert(other_side(m, o) == m.queue(o.side.spec_opposite()));
}

/// An order that is not turned down trades exactly the smaller of its quantity
/// and of what the other side offers; a fill-or-kill order all of it.
pub proof fn law_order_trades_what_is_offered(m: BookModel, o: Incoming, capacity: nat)
    requires
        m.valid(),
        cause(m, o) is None,
    ensures
        ({
            let there = offered(other_side(m, o), o);
            let done = all_trades(m.place(o, capacity).events);
            &&& there >= o.qty.0 ==> done == o.qty.0
            &&& there < o.qty.0 ==> done == there
            &&& o.time_in_force is Fok ==> done == o.qty.0
        }),
{
    law_orders_are_refused_for_cause(m, o, capacity);
    lemma_offered(other_side(m, o), o);
    assert(other_side(m, o) == m.queue(o.side.spec_opposite()));
    laws::law_order_trades_what_it_can(m, o, capacity);
    lemma_same_total(m.place(o, capacity).events);
}

proof fn lemma_same_total(events: Seq<EngineEvent>)
    ensures
        laws::traded(events) == all_trades(events),
    decreases events.len(),
{
    if events.len() > 0 {
        lemma_same_total(events.drop_last());
        laws::lemma_traded_push(events.drop_last(), events.last());
        assert(events =~= events.drop_last().push(events.last()));
    }
}

/// The best prices of a book, as they are reported after a command.
pub open spec fn is_top_of(e: EngineEvent, o: Incoming, book: BookModel) -> bool {
    e matches EngineEvent::BookTop { seq, symbol, bid, ask } && {
        &&& seq == o.seq
        &&& symbol == o.symbol
        &&& bid is None <==> book.bids.len() == 0
        &&& ask is None <==> book.asks.len() == 0
        &&& bid is Some ==> exists|i: int|
            0 <= i < book.bids.len() && (#[trigger] book.bids[i]).price == bid->0
        &&& ask is Some ==> exists|i: int|
            0 <= i < book.asks.len() && (#[trigger] book.asks[i]).price == ask->0
        &&& bid matches Some(p) ==> forall|i: int|
            0 <= i < book.bids.len() ==> (#[trigger] book.bids[i]).price.0 <= p.0
        &&& ask matches Some(p) ==> forall|i: int|
            0 <= i < book.asks.len() ==> (#[trigger] book.asks[i]).price.0 >= p.0
    }
}

/// The best bid is the highest price among the bids, the best ask the lowest
/// among the asks.
pub proof fn law_best_prices(m: BookModel, o: Incoming)
    requires
        m.valid(),
    ensures
        is_top_of(m.top(o.seq, o.symbol), o, m),
        m.best(Side::Buy) == m.top(o.seq, o.symbol)->bid,
        m.best(Side::Sell) == m.top(o.seq, o.symbol)->ask,
{
    assert forall|i: int| 0 <= i < m.bids.len() implies (#[trigger] m.bids[i]).price.0
        <= m.bids[0].price.0 by {
        if i > 0 {
            assert(!model::better(Side::Buy, m.bids[i].price, m.bids[0].price));
        }
    }
    assert forall|i: int| 0 <= i < m.asks.len() implies (#[trigger] m.asks[i]).price.0
        >= m.asks[0].price.0 by {
        if i > 0 {
            assert(!model::better(Side::Sell, m.asks[i].price, m.asks[0].price));
        }
    }
}

/// The order `new` joins the queue behind every order with a price that is at
/// least as good, and before every order with a worse one.
pub open spec fn joins(
    queue: Seq<OrderModel>,
    later: Seq<OrderModel>,
    new: OrderModel,
    p: int,
) -> bool {
    &&& 0 <= p <= queue.len()
    &&& later == queue.take(p) + seq![new] + queue.skip(p)
    &&& new.side is Buy ==> {
        &&& forall|i: int| 0 <= i < p ==> (#[trigger] queue[i]).price.0 >= new.price.0
        &&& forall|i: int| p <= i < queue.len() ==> (#[trigger] queue[i]).price.0 < new.price.0
    }
    &&& new.side is Sell ==> {
        &&& forall|i: int| 0 <= i < p ==> (#[trigger] queue[i]).price.0 <= new.price.0
        &&& forall|i: int| p <= i < queue.len() ==> (#[trigger] queue[i]).price.0 > new.price.0
    }
}

/// What becomes of an order that is not turned down: after the events of its
/// matching run it is done if it is filled. What is left of a good-till-cancel
/// order rests on its side of the book, behind the orders that are at least as
/// good, if there is room; what is left of any other order is cancelled, or
/// rejected if nothing of it was filled.
pub proof fn law_order_rests_or_ends(m: BookModel, o: Incoming, capacity: nat)
    requires
        m.valid(),
        m.admits_order(o),
        cause(m, o) is None,
    ensures
        ({
            let run = model::sweep(other_side(m, o), o, o.qty.0);
            let out = m.place(o, capacity);
            let n = run.events.len() as int;
            let new = OrderModel {
                id: OrderId(o.seq),
                account: o.account,
                qty: crate::core_types::qty::Qty(run.left),
                side: o.side,
                price: o.price,
                seq: o.seq,
            };
            let open = m.bids.len() + m.asks.len() - other_side(m, o).len() + run.queue.len();
            &&& out.events.len() >= n
            &&& out.events.take(n) == run.events
            &&& other_side(out.book, o) == run.queue
            &&& out.book.symbol == m.symbol && out.book.tick_floor == m.tick_floor
                && out.book.num_ticks == m.num_ticks && out.book.reserved == m.reserved
            &&& if run.left == 0 {
                &&& own_side(out.book, o) == own_side(m, o)
                &&& out.events.len() == n + 1
                &&& is_top_of(out.events[n], o, out.book)
            } else if !(o.time_in_force is Gtc) {
                &&& own_side(out.book, o) == own_side(m, o)
                &&& out.events.len() == n + 2
                &&& run.left < o.qty.0 ==> out.events[n] == (EngineEvent::Cancelled {
                    seq: o.seq,
                    order_id: OrderId(o.seq),
                })
                &&& run.left == o.qty.0 ==> out.events[n] == refused(o, RejectReason::IocNoMatch)
                &&& is_top_of(out.events[n + 1], o, out.book)
            } else if open >= capacity {
                &&& own_side(out.book, o) == own_side(m, o)
                &&& out.events.len() == n + 1
                &&& out.events[n] == refused(o, RejectReason::ArenaFull)
            } else {
                &&& exists|p: int| #[trigger]
                    joins(own_side(m, o), own_side(out.book, o), new, p)
                &&& out.events.len() == n + 2
                &&& out.events[n] == (EngineEvent::Accepted {
                    seq: o.seq,
                    order_id: OrderId(o.seq),
                    ts_ns: o.ts_ns,
                    symbol: o.symbol,
                    account_id: o.account,
                    client_order_id: o.client_order_id,
                    side: o.side,
                    price: o.price,
                    qty: crate::core_types::qty::Qty(run.left),
                })
                &&& is_top_of(out.events[n + 1], o, out.book)
            }
        }),
{
    law_orders_are_refused_for_cause(m, o, capacity);
    let opp = o.side.spec_opposite();
    let queue = m.queue(opp);
    assert(queue == other_side(m, o));
    let run = m.matched(o);
    let out = m.place(o, capacity);
    let after = m.after_match(o);
    let n = run.events.len() as int;
    assert(out.events.take(n) =~= run.events);
    laws::lemma_match_keeps_valid(m, o);
    assert(own_side(after, o) == own_side(m, o));
    if run.left > 0 && o.time_in_force is Gtc && after.count() < capacity {
        let own = own_side(m, o);
        let p = model::place_of(o.side, own, o.price);
        let new = o.resting(run.left);
        laws::lemma_place_found(o.side, own, o.price);
        let grown = own.insert(p, new);
        assert(grown =~= own.take(p) + seq![new] + own.skip(p));
        assert(model::sorted(o.side, own));
        assert forall|i: int| p <= i < own.len() implies model::better(
            o.side,
            o.price,
            (#[trigger] own[i]).price,
        ) by {
            if i > p {
                assert(!model::better(o.side, own[i].price, own[p].price));
            }
        }
        assert(joins(own, own_side(out.book, o), new, p));
        lemma_rest_valid(m, o, capacity);
        law_best_prices(out.book, o);
    } else {
        law_best_prices(after, o);
    }
}

proof fn lemma_rest_valid(m: BookModel, o: Incoming, capacity: nat)
    requires
        m.valid(),
        m.admits_order(o),
    ensures
        m.place(o, capacity).book.valid(),
{
    let cmd = SequencedCommand {
        seq: o.seq,
        ts_ns: o.ts_ns,
        cmd: InboundCommand::NewOrder {
            account: o.account,
            client_order_id: o.client_order_id,
            symbol: o.symbol,
            side: o.side,
            price: o.price,
            qty: o.qty,
            order_type: o.order_type,
            time_in_force: o.time_in_force,
        },
    };
    assert(model::incoming(cmd) == o);
    laws::law_step_keeps_valid(m, cmd, capacity);
}

/// A cancel is answered by what the book has under the id: the order, which is
/// then taken out of its queue, if it belongs to the account; a rejection if it
/// belongs to another account or if there is none.
pub proof fn law_cancel_answers(
    m: BookModel,
    seq: u64,
    account: AccountId,
    id: OrderId,
    bid: bool,
    i: int,
)
    requires
        m.valid(),
        bid ==> 0 <= i < m.bids.len() && m.bids[i].id == id,
        !bid ==> 0 <= i < m.asks.len() && m.asks[i].id == id,
    ensures
        ({
            let owner = if bid {
                m.bids[i].account
            } else {
                m.asks[i].account
            };
            let out = m.cancel(seq, account, id);
            if owner == account {
                &&& out.events == seq![EngineEvent::Cancelled { seq, order_id: id }]
                &&& bid ==> out.book == (BookModel {
                    bids: m.bids.take(i) + m.bids.skip(i + 1),
                    ..m
                })
                &&& !bid ==> out.book == (BookModel {
                    asks: m.asks.take(i) + m.asks.skip(i + 1),
                    ..m
                })
            } else {
                &&& out.book == m
                &&& out.events == seq![
                    EngineEvent::Rejected {
                        seq,
                        order_id: id,
                        account_id: account,
                        client_order_id: ClientOrderId(0),
                        reason: RejectReason::WrongAccount,
                    },
                ]
            }
        }),
{
    law_find(m, id, bid, i);
    model::lemma_index_found(m.bids, id);
    model::lemma_index_found(m.asks, id);
    if bid {
        model::lemma_index_by_id(m.bids, id, i);
        assert(m.bids.remove(i) =~= m.bids.take(i) + m.bids.skip(i + 1));
    } else {
        model::lemma_index_by_id(m.asks, id, i);
        assert(m.asks.remove(i) =~= m.asks.take(i) + m.asks.skip(i + 1));
        let b = model::index_by_id(m.bids, id);
        if b < m.bids.len() {
            assert(m.bids[b].id != m.asks[i].id);
        }
    }
}

/// A cancel of an order that nobody has open is turned down.
pub proof fn law_cancel_of_nothing(m: BookModel, seq: u64, account: AccountId, id: OrderId)
    requires
        forall|i: int| 0 <= i < m.bids.len() ==> (#[trigger] m.bids[i]).id != id,
        forall|i: int| 0 <= i < m.asks.len() ==> (#[trigger] m.asks[i]).id != id,
    ensures
        m.find(id) is None,
        m.cancel(seq, account, id).book == m,
        m.cancel(seq, account, id).events == seq![
            EngineEvent::Rejected {
                seq,
                order_id: id,
                account_id: account,
                client_order_id: ClientOrderId(0),
                reason: RejectReason::OrderNotFound,
            },
        ],
{
    model::lemma_index_found(m.bids, id);
    model::lemma_index_found(m.asks, id);
}

/// Looking up an id finds the open order that has it.
pub proof fn law_find(m: BookModel, id: OrderId, bid: bool, i: int)
    requires
        m.valid(),
        bid ==> 0 <= i < m.bids.len() && m.bids[i].id == id,
        !bid ==> 0 <= i < m.asks.len() && m.asks[i].id == id,
    ensures
        m.find(id) == Some(
            if bid {
                m.bids[i]
            } else {
                m.asks[i]
            },
        ),
{
    model::lemma_index_found(m.bids, id);
    model::lemma_index_found(m.asks, id);
    let b = model::index_by_id(m.bids, id);
    if bid {
        if b < i {
            assert(m.bids[b].id != m.bids[i].id);
        }
        model::lemma_index_by_id(m.bids, id, b);
        assert(b <= i);
    } else {
        if b < m.bids.len() {
            assert(m.bids[b].id != m.asks[i].id);
        }
        let a = model::index_by_id(m.asks, id);
        if a < i {
            assert(m.asks[a].id != m.asks[i].id);
        }
    }
}

/// The quantity at a price adds up over the orders: each counts with its
/// quantity at its own price and nowhere else. The number of open orders is
/// that of both sides.
pub proof fn law_quantities_add_up(
    m: BookModel,
    front: Seq<OrderModel>,
    back: Seq<OrderModel>,
    one: OrderModel,
    price: Price,
)
    ensures
        model::qty_at(Seq::empty(), price) == 0,
        model::qty_at(seq![one], price) == if one.price.0 == price.0 {
            one.qty.0 as nat
        } else {
            0
        },
        model::qty_at(front + back, price) == model::qty_at(front, price) + model::qty_at(
            back,
            price,
        ),
        m.count() == m.bids.len() + m.asks.len(),
        m.queue(Side::Buy) == m.bids,
        m.queue(Side::Sell) == m.asks,
        m.in_range(price) <==> m.tick_floor <= price.0 && price.0 < m.tick_floor + m.num_ticks,
{
    model::lemma_qty_at_concat(front, back, price);
    assert(seq![one].drop_first() =~= Seq::<OrderModel>::empty());
    reveal_with_fuel(model::qty_at, 2);
}

/// What the book sees of a command is what the command says, and a command
/// about an account as a whole does nothing to the book.
pub proof fn law_commands_are_taken_as_they_are(m: BookModel, cmd: SequencedCommand, capacity: nat)
    ensures
        cmd.cmd matches InboundCommand::NewOrder {
            account,
            client_order_id,
            symbol,
            side,
            price,
            qty,
            order_type,
            time_in_force,
        } ==> m.step(cmd, capacity) == m.place(
            Incoming {
                seq: cmd.seq,
                ts_ns: cmd.ts_ns,
                account,
                client_order_id,
                symbol,
                side,
                price,
                qty,
                order_type,
                time_in_force,
            },
            capacity,
        ),
        cmd.cmd matches InboundCommand::Cancel { account, order_id } ==> m.step(cmd, capacity)
            == m.cancel(cmd.seq, account, order_id),
        cmd.cmd is Liquidate || cmd.cmd is FreezeAccount ==> m.step(cmd, capacity).book == m
            && m.step(cmd, capacity).events.len() == 0,
{
}

/// A resting order is shown with all that it holds.
pub proof fn law_resting_order_is_shown_as_it_is(r: RestingOrder)
    ensures
        r@.id == r.id,
        r@.account == r.account,
        r@.qty == r.qty_remaining,
        r@.side == r.side,
        r@.price == r.price,
        r@.seq == r.seq,
{
}

/// A new order can be applied unless something of it would rest that cannot be
/// kept: under a number that an open order has, beyond what the quantity at its
/// price can count, or beyond the number of orders that can be told apart.
pub proof fn law_what_can_be_applied(m: BookModel, o: Incoming)
    requires
        m.valid(),
    ensures
        m.admits_order(o) <==> (cause(m, o) is None && o.time_in_force is Gtc && offered(
            other_side(m, o),
            o,
        ) < o.qty.0 ==> {
            let run = model::sweep(other_side(m, o), o, o.qty.0);
            &&& m.find(OrderId(o.seq)) is None
            &&& model::qty_at(own_side(m, o), o.price) + o.qty.0 - offered(other_side(m, o), o)
                <= 0xFFFF_FFFF_FFFF_FFFF
            &&& own_side(m, o).len() + run.queue.len() < 0xFFFF_FFFE
        }),
{
    law_orders_are_refused_for_cause(m, o, 0);
    lemma_offered(other_side(m, o), o);
    assert(other_side(m, o) == m.queue(o.side.spec_opposite()));
    laws::law_sweep_fills_all_it_can(other_side(m, o), o, o.qty.0);
}

} // verus!

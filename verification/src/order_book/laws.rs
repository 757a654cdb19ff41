//! What the order book promises as a whole.

use crate::core_types::commands::{InboundCommand, SequencedCommand};
use crate::core_types::events::{EngineEvent, RejectReason};
use crate::core_types::ids::{AccountId, OrderId};
use crate::core_types::price::Price;
use crate::core_types::side::Side;
use crate::order_book::model;
use crate::order_book::model::{BookModel, Incoming, OrderModel, Sweep};
use vstd::prelude::*;

verus! {

/// The quantity that an event trades.
pub open spec fn trade_qty(event: EngineEvent) -> nat {
    match event {
        EngineEvent::Trade { qty, .. } => qty.0 as nat,
        _ => 0,
    }
}

/// The quantity that changed hands in the events.
pub open spec fn traded(events: Seq<EngineEvent>) -> nat
    decreases events.len(),
{
    if events.len() == 0 {
        0
    } else {
        trade_qty(events[0]) + traded(events.drop_first())
    }
}

/// What is left of `wanted` once `found` is taken off.
pub open spec fn rest_of(wanted: int, found: nat) -> int {
    if found >= wanted {
        0
    } else {
        wanted - found
    }
}

/// The two orders differ at most in their quantity.
pub open spec fn same_order(a: OrderModel, b: OrderModel) -> bool {
    a == OrderModel { qty: a.qty, ..b }
}

/// Matching consumes orders from the front: what stays is the rear part of
/// the queue, with at most the quantity of its first order reduced. If the
/// incoming order still wants more, no order that it accepts is left.
pub proof fn law_sweep_consumes_front(queue: Seq<OrderModel>, o: Incoming, left: u64)
    requires
        forall|i: int| 0 <= i < queue.len() ==> (#[trigger] queue[i]).qty.0 > 0,
    ensures
        ({
            let run = model::sweep(queue, o, left);
            let d = queue.len() - run.queue.len();
            &&& 0 <= d
            &&& run.left <= left
            &&& forall|i: int|
                0 <= i < run.queue.len() ==> {
                    &&& same_order(#[trigger] run.queue[i], queue[d + i])
                    &&& 0 < run.queue[i].qty.0 <= queue[d + i].qty.0
                    &&& i > 0 ==> run.queue[i] == queue[d + i]
                }
            &&& run.left > 0 ==> {
                &&& run.queue == queue.skip(d)
                &&& run.queue.len() > 0 ==> !model::crosses(o.side, o.price, run.queue[0].price)
            }
        }),
    decreases queue.len(),
{
    let run = model::sweep(queue, o, left);
    if left == 0 || queue.len() == 0 || !model::crosses(o.side, o.price, queue[0].price) {
        assert(queue.skip(0) =~= queue);
    } else if queue[0].account != o.account && left < queue[0].qty.0 {
    } else {
        let rest = queue.drop_first();
        assert forall|i: int| 0 <= i < rest.len() implies (#[trigger] rest[i]).qty.0 > 0 by {
            assert(rest[i] == queue[i + 1]);
        }
        let next = if queue[0].account == o.account {
            left
        } else {
            (left - queue[0].qty.0) as u64
        };
        law_sweep_consumes_front(rest, o, next);
        let e = rest.len() - run.queue.len();
        assert forall|i: int| 0 <= i < run.queue.len() implies {
            &&& same_order(#[trigger] run.queue[i], queue[e + 1 + i])
            &&& 0 < run.queue[i].qty.0 <= queue[e + 1 + i].qty.0
            &&& i > 0 ==> run.queue[i] == queue[e + 1 + i]
        } by {
            assert(rest[e + i] == queue[e + 1 + i]);
        }
        if run.left > 0 {
            assert(rest.skip(e) =~= queue.skip(e + 1));
        }
    }
}

/// An order that still wants more has taken every order out of the queue that
/// it accepts.
pub proof fn law_sweep_takes_all_it_accepts(queue: Seq<OrderModel>, o: Incoming, left: u64)
    ensures
        model::sweep(queue, o, left).left > 0 ==> model::sweep(queue, o, left).queue.len()
            == queue.len() - model::crossing(queue, o.side, o.price),
    decreases queue.len(),
{
    if left == 0 || queue.len() == 0 || !model::crosses(o.side, o.price, queue[0].price) {
    } else if queue[0].account == o.account {
        law_sweep_takes_all_it_accepts(queue.drop_first(), o, left);
    } else if left >= queue[0].qty.0 {
        law_sweep_takes_all_it_accepts(queue.drop_first(), o, (left - queue[0].qty.0) as u64);
    }
}

/// Matching fills exactly as much as there is to fill: the wanted quantity or
/// everything that other accounts offer at acceptable prices.
pub proof fn law_sweep_fills_all_it_can(queue: Seq<OrderModel>, o: Incoming, left: u64)
    ensures
        model::sweep(queue, o, left).left == rest_of(
            left as int,
            model::fillable(queue, o.side, o.price, o.account),
        ),
    decreases queue.len(),
{
    if left == 0 || queue.len() == 0 || !model::crosses(o.side, o.price, queue[0].price) {
    } else if queue[0].account == o.account {
        law_sweep_fills_all_it_can(queue.drop_first(), o, left);
    } else if left >= queue[0].qty.0 {
        law_sweep_fills_all_it_can(queue.drop_first(), o, (left - queue[0].qty.0) as u64);
    }
}

/// No lot is lost or made up: what the incoming order wanted is what it
/// traded plus what is left, and what other accounts lost from the book is
/// exactly what was traded.
pub proof fn law_sweep_conserves_quantity(queue: Seq<OrderModel>, o: Incoming, left: u64)
    ensures
        ({
            let run = model::sweep(queue, o, left);
            &&& traded(run.events) + run.left == left
            &&& model::others_qty(queue, o.account) == model::others_qty(run.queue, o.account)
                + traded(run.events)
        }),
    decreases queue.len(),
{
    let run = model::sweep(queue, o, left);
    if left == 0 || queue.len() == 0 || !model::crosses(o.side, o.price, queue[0].price) {
    } else {
        lemma_others_first(queue, o.account);
        if queue[0].account == o.account {
            let rest = model::sweep(queue.drop_first(), o, left);
            law_sweep_conserves_quantity(queue.drop_first(), o, left);
            assert(run.events.drop_first() =~= rest.events);
        } else if left < queue[0].qty.0 {
            lemma_others_first(run.queue, o.account);
            assert(run.queue.drop_first() =~= queue.drop_first());
            assert(run.events.drop_first() =~= Seq::<EngineEvent>::empty());
            assert(traded(run.events.drop_first()) == 0);
        } else {
            let rest = model::sweep(queue.drop_first(), o, (left - queue[0].qty.0) as u64);
            law_sweep_conserves_quantity(
                queue.drop_first(),
                o,
                (left - queue[0].qty.0) as u64,
            );
            assert(run.events.drop_first() =~= rest.events);
        }
    }
}

/// The quantity of other accounts, counted from the front.
proof fn lemma_others_first(queue: Seq<OrderModel>, account: AccountId)
    requires
        queue.len() > 0,
    ensures
        model::others_qty(queue, account) == (if queue[0].account == account {
            0
        } else {
            queue[0].qty.0 as int
        }) + model::others_qty(queue.drop_first(), account),
    decreases queue.len(),
{
    if queue.len() == 1 {
        assert(queue.drop_last() =~= Seq::<OrderModel>::empty());
        assert(queue.drop_first() =~= Seq::<OrderModel>::empty());
        assert(model::others_qty(queue.drop_last(), account) == 0);
        assert(model::others_qty(queue.drop_first(), account) == 0);
    } else {
        lemma_others_first(queue.drop_last(), account);
        assert(queue.drop_last().drop_first() =~= queue.drop_first().drop_last());
        assert(queue.drop_first().last() == queue.last());
    }
}

/// What an event of a matching run says about the resting order `maker`:
/// either a trade at the price of that order, which the limit accepts, with
/// another account, or the cancellation of an own order.
pub open spec fn concerns(event: EngineEvent, o: Incoming, maker: OrderModel) -> bool {
    match event {
        EngineEvent::Trade {
            seq,
            price,
            qty,
            maker_order,
            taker_order,
            maker_acct,
            taker_acct,
            maker_side,
            maker_remaining_qty,
            ..
        } => {
            &&& maker_remaining_qty.0 == maker.qty.0 - qty.0
            &&& seq == o.seq
            &&& price == maker.price
            &&& model::crosses(o.side, o.price, price)
            &&& 0 < qty.0 <= maker.qty.0
            &&& maker_order == maker.id
            &&& taker_order == OrderId(o.seq)
            &&& maker_acct == maker.account
            &&& taker_acct == o.account
            &&& maker_acct != taker_acct
            &&& maker_side == o.side.spec_opposite()
        },
        EngineEvent::Cancelled { seq, order_id } => {
            seq == o.seq && order_id == maker.id && maker.account == o.account
        },
        _ => false,
    }
}

/// Price-time priority: the events of a matching run deal with the resting
/// orders in the order of the queue, one event per order, and no account
/// trades with itself.
pub proof fn law_sweep_follows_priority(queue: Seq<OrderModel>, o: Incoming, left: u64)
    requires
        forall|i: int| 0 <= i < queue.len() ==> (#[trigger] queue[i]).qty.0 > 0,
    ensures
        ({
            let run = model::sweep(queue, o, left);
            &&& run.events.len() <= queue.len()
            &&& forall|i: int|
                0 <= i < run.events.len() ==> concerns(#[trigger] run.events[i], o, queue[i])
        }),
    decreases queue.len(),
{
    let run = model::sweep(queue, o, left);
    if left == 0 || queue.len() == 0 || !model::crosses(o.side, o.price, queue[0].price) {
    } else if queue[0].account != o.account && left < queue[0].qty.0 {
        assert(queue[0].qty.0 > 0);
    } else {
        let rest = queue.drop_first();
        assert forall|i: int| 0 <= i < rest.len() implies (#[trigger] rest[i]).qty.0 > 0 by {
            assert(rest[i] == queue[i + 1]);
        }
        let next = if queue[0].account == o.account {
            left
        } else {
            (left - queue[0].qty.0) as u64
        };
        law_sweep_follows_priority(rest, o, next);
        let run1 = model::sweep(rest, o, next);
        assert(queue[0].qty.0 > 0);
        assert forall|i: int| 0 <= i < run.events.len() implies concerns(
            #[trigger] run.events[i],
            o,
            queue[i],
        ) by {
            if i > 0 {
                assert(run.events[i] == run1.events[i - 1]);
                assert(rest[i - 1] == queue[i]);
            }
        }
    }
}

/// Where a new order is placed.
pub proof fn lemma_place_found(side: Side, queue: Seq<OrderModel>, price: Price)
    ensures
        ({
            let p = model::place_of(side, queue, price);
            &&& 0 <= p <= queue.len()
            &&& forall|i: int|
                0 <= i < p ==> !model::better(side, price, (#[trigger] queue[i]).price)
            &&& p < queue.len() ==> model::better(side, price, queue[p].price)
        }),
    decreases queue.len(),
{
    if queue.len() > 0 && !model::better(side, price, queue[0].price) {
        let rest = queue.drop_first();
        lemma_place_found(side, rest, price);
        let p = model::place_of(side, queue, price);
        assert forall|i: int| 0 <= i < p implies !model::better(
            side,
            price,
            (#[trigger] queue[i]).price,
        ) by {
            if i > 0 {
                assert(queue[i] == rest[i - 1]);
            }
        }
    }
}

/// Inserting at that place keeps the queue sorted.
proof fn lemma_insert_sorted(side: Side, queue: Seq<OrderModel>, m: OrderModel)
    requires
        model::sorted(side, queue),
    ensures
        0 <= model::place_of(side, queue, m.price) <= queue.len(),
        model::sorted(side, queue.insert(model::place_of(side, queue, m.price), m)),
{
    let p = model::place_of(side, queue, m.price);
    lemma_place_found(side, queue, m.price);
    let later = queue.insert(p, m);
    assert forall|i: int, j: int| 0 <= i < j < later.len() implies !model::better(
        side,
        (#[trigger] later[j]).price,
        (#[trigger] later[i]).price,
    ) by {
        let a = if i < p {
            i
        } else {
            i - 1
        };
        let b = if j < p {
            j
        } else {
            j - 1
        };
        if i == p {
            assert(later[j] == queue[b]);
            if b > p {
                assert(!model::better(side, queue[b].price, queue[p].price));
            }
        } else if j == p {
            assert(later[i] == queue[a]);
        } else {
            assert(later[i] == queue[a] && later[j] == queue[b]);
        }
    }
}

/// Matching keeps a book valid.
pub proof fn lemma_match_keeps_valid(m: BookModel, o: Incoming)
    requires
        m.valid(),
    ensures
        m.after_match(o).valid(),
        m.find(OrderId(o.seq)) is None ==> m.after_match(o).find(OrderId(o.seq)) is None,
        m.matched(o).left > 0 ==> forall|i: int|
            0 <= i < m.matched(o).queue.len() ==> !model::crosses(
                o.side,
                o.price,
                (#[trigger] m.matched(o).queue[i]).price,
            ),
{
    let opp = o.side.spec_opposite();
    let queue = m.queue(opp);
    let run = m.matched(o);
    let after = m.after_match(o);
    let d = queue.len() - run.queue.len();
    assert(m.side_ok(opp));
    law_sweep_consumes_front(queue, o, o.qty.0);
    assert forall|i: int| 0 <= i < run.queue.len() implies {
        &&& (#[trigger] run.queue[i]).id == queue[d + i].id
        &&& run.queue[i].side == opp
        &&& run.queue[i].price == queue[d + i].price
        &&& m.in_range(run.queue[i].price)
    } by {
        assert(same_order(run.queue[i], queue[d + i]));
        assert(queue[d + i].side == opp);
    }
    assert(model::sorted(opp, run.queue));
    assert(after.queue(o.side) == m.queue(o.side));
    assert(after.side_ok(opp));
    assert(m.side_ok(o.side) ==> after.side_ok(o.side));
    assert(model::distinct(run.queue));
    assert(after.ids_distinct());
    assert(after.uncrossed());
    if m.find(OrderId(o.seq)) is None {
        let id = OrderId(o.seq);
        lemma_absent(m, id);
        assert forall|i: int| 0 <= i < run.queue.len() implies (#[trigger] run.queue[i]).id
            != id by {
            assert(queue[d + i].id != id);
        }
        model::lemma_index_by_id(run.queue, id, run.queue.len() as int);
    }
    if run.left > 0 && run.queue.len() > 0 {
        assert forall|i: int| 0 <= i < run.queue.len() implies !model::crosses(
            o.side,
            o.price,
            (#[trigger] run.queue[i]).price,
        ) by {
            if i > 0 {
                assert(!model::better(opp, run.queue[i].price, run.queue[0].price));
            }
        }
    }
}

/// What it means that no order has an id.
proof fn lemma_absent(m: BookModel, id: OrderId)
    ensures
        m.find(id) is None <==> {
            &&& model::index_by_id(m.bids, id) == m.bids.len()
            &&& model::index_by_id(m.asks, id) == m.asks.len()
        },
        m.find(id) is None ==> {
            &&& forall|i: int| 0 <= i < m.bids.len() ==> (#[trigger] m.bids[i]).id != id
            &&& forall|i: int| 0 <= i < m.asks.len() ==> (#[trigger] m.asks[i]).id != id
        },
{
    model::lemma_index_found(m.bids, id);
    model::lemma_index_found(m.asks, id);
}

/// Resting an order that crosses nothing keeps a book valid.
proof fn lemma_rest_keeps_valid(m: BookModel, o: Incoming, left: u64)
    requires
        m.valid(),
        left > 0,
        m.in_range(o.price),
        m.find(OrderId(o.seq)) is None,
        forall|i: int|
            0 <= i < m.queue(o.side.spec_opposite()).len() ==> !model::crosses(
                o.side,
                o.price,
                (#[trigger] m.queue(o.side.spec_opposite())[i]).price,
            ),
    ensures
        m.rest(o, left).valid(),
{
    let queue = m.queue(o.side);
    let new = o.resting(left);
    let p = model::place_of(o.side, queue, o.price);
    let later = m.rest(o, left);
    lemma_insert_sorted(o.side, queue, new);
    lemma_absent(m, OrderId(o.seq));
    let grown = queue.insert(p, new);
    assert(later.queue(o.side) == grown);
    assert(m.side_ok(o.side));
    assert forall|i: int| 0 <= i < grown.len() implies {
        &&& (#[trigger] grown[i]).side == o.side
        &&& grown[i].qty.0 > 0
        &&& m.in_range(grown[i].price)
        &&& i != p ==> grown[i] == queue[if i < p {
            i
        } else {
            i - 1
        }]
        &&& i == p ==> grown[i] == new
    } by {
        if i != p {
            let a = if i < p {
                i
            } else {
                i - 1
            };
            assert(grown[i] == queue[a]);
            assert(queue[a].side == o.side);
        }
    }
    assert(later.side_ok(o.side));
    assert(model::distinct(grown));
    match o.side {
        Side::Buy => {
            assert(later.bids == grown && later.asks == m.asks);
        },
        Side::Sell => {
            assert(later.asks == grown && later.bids == m.bids);
        },
    }
    assert(later.ids_distinct());
    assert(later.uncrossed());
}

/// Every command keeps the book valid: sorted by priority, with distinct ids
/// and positive quantities, and with no bid that crosses an ask.
pub proof fn law_step_keeps_valid(m: BookModel, cmd: SequencedCommand, capacity: nat)
    requires
        m.valid(),
        m.admits(cmd),
    ensures
        m.step(cmd, capacity).book.valid(),
{
    match cmd.cmd {
        InboundCommand::NewOrder { .. } => {
            let o = model::incoming(cmd);
            if m.refusal(o) is None {
                lemma_match_keeps_valid(m, o);
                let left = m.matched(o).left;
                let after = m.after_match(o);
                if left > 0 && o.time_in_force is Gtc {
                    assert(after.queue(o.side.spec_opposite()) == m.matched(o).queue);
                    lemma_rest_keeps_valid(after, o, left);
                }
            }
        },
        InboundCommand::Cancel { account, order_id } => {
            model::lemma_index_found(m.bids, order_id);
            model::lemma_index_found(m.asks, order_id);
            if m.find(order_id) is Some {
                lemma_remove_keeps_valid(m, order_id);
            }
        },
        _ => {},
    }
}

proof fn lemma_remove_keeps_valid(m: BookModel, id: OrderId)
    requires
        m.valid(),
        m.find(id) is Some,
    ensures
        m.without(id).valid(),
{
    model::lemma_index_found(m.bids, id);
    model::lemma_index_found(m.asks, id);
    let later = m.without(id);
    let b = model::index_by_id(m.bids, id);
    let a = model::index_by_id(m.asks, id);
    if b < m.bids.len() {
        lemma_remove_sub(m.bids, b);
    } else {
        lemma_remove_sub(m.asks, a);
    }
    assert(later.side_ok(Side::Buy)) by {
        assert(m.side_ok(Side::Buy));
    }
    assert(later.side_ok(Side::Sell)) by {
        assert(m.side_ok(Side::Sell));
    }
    assert(later.ids_distinct());
    assert(later.uncrossed());
}

/// Each order of the shortened queue is an order of the queue, in the same
/// order.
proof fn lemma_remove_sub(queue: Seq<OrderModel>, p: int)
    requires
        0 <= p < queue.len(),
    ensures
        forall|i: int|
            0 <= i < queue.remove(p).len() ==> #[trigger] queue.remove(p)[i] == queue[if i < p {
                i
            } else {
                i + 1
            }],
        model::sorted(Side::Buy, queue) ==> model::sorted(Side::Buy, queue.remove(p)),
        model::sorted(Side::Sell, queue) ==> model::sorted(Side::Sell, queue.remove(p)),
        model::distinct(queue) ==> model::distinct(queue.remove(p)),
{
}

/// A new event at the end adds its traded quantity.
pub proof fn lemma_traded_push(events: Seq<EngineEvent>, e: EngineEvent)
    ensures
        traded(events.push(e)) == traded(events) + trade_qty(e),
    decreases events.len(),
{
    let all = events.push(e);
    if events.len() == 0 {
        assert(all.drop_first() =~= Seq::<EngineEvent>::empty());
        assert(traded(all.drop_first()) == 0);
    } else {
        assert(all.drop_first() =~= events.drop_first().push(e));
        lemma_traded_push(events.drop_first(), e);
    }
}

/// The trades of a new order are those of its matching run.
pub proof fn lemma_traded_by_order(m: BookModel, o: Incoming, capacity: nat)
    requires
        m.refusal(o) is None,
    ensures
        traded(m.place(o, capacity).events) == traded(m.matched(o).events),
{
    let run = m.matched(o);
    let out = m.place(o, capacity);
    let last = out.events.last();
    if run.left == 0 {
        lemma_traded_push(run.events, last);
    } else if !(o.time_in_force is Gtc) || m.after_match(o).count() < capacity {
        let mid = out.events[run.events.len() as int];
        lemma_traded_push(run.events, mid);
        lemma_traded_push(run.events.push(mid), last);
    } else {
        lemma_traded_push(run.events, last);
    }
}

/// A fill-or-kill order is filled completely, or it is turned down and the
/// book stays as it was. It never rests.
pub proof fn law_fill_or_kill(m: BookModel, o: Incoming, capacity: nat)
    requires
        o.time_in_force is Fok,
    ensures
        ({
            let out = m.place(o, capacity);
            ||| {
                &&& out.book == m
                &&& m.refusal(o) is Some
                &&& out.events == seq![o.rejected(m.refusal(o)->0)]
            }
            ||| {
                &&& traded(out.events) == o.qty.0
                &&& out.book.queue(o.side) == m.queue(o.side)
            }
        }),
{
    if m.refusal(o) is None {
        let queue = m.queue(o.side.spec_opposite());
        law_sweep_fills_all_it_can(queue, o, o.qty.0);
        law_sweep_conserves_quantity(queue, o, o.qty.0);
        lemma_traded_by_order(m, o, capacity);
    }
}

/// An order that is not good till cancelled never rests: its own side of the
/// book stays as it was.
pub proof fn law_only_gtc_rests(m: BookModel, o: Incoming, capacity: nat)
    requires
        !(o.time_in_force is Gtc),
    ensures
        m.place(o, capacity).book.queue(o.side) == m.queue(o.side),
{
}

/// A new order trades what it can: the smaller of its quantity and of what
/// other accounts offer at prices that its limit accepts.
pub proof fn law_order_trades_what_it_can(m: BookModel, o: Incoming, capacity: nat)
    requires
        m.refusal(o) is None,
    ensures
        ({
            let offered = model::fillable(
                m.queue(o.side.spec_opposite()),
                o.side,
                o.price,
                o.account,
            );
            traded(m.place(o, capacity).events) == if offered < o.qty.0 {
                offered
            } else {
                o.qty.0 as nat
            }
        }),
{
    let queue = m.queue(o.side.spec_opposite());
    law_sweep_fills_all_it_can(queue, o, o.qty.0);
    law_sweep_conserves_quantity(queue, o, o.qty.0);
    lemma_traded_by_order(m, o, capacity);
}

/// The sequence number that an event carries.
pub open spec fn event_seq(e: EngineEvent) -> u64 {
    match e {
        EngineEvent::Trade { seq, .. } => seq,
        EngineEvent::Accepted { seq, .. } => seq,
        EngineEvent::Rejected { seq, .. } => seq,
        EngineEvent::Cancelled { seq, .. } => seq,
        EngineEvent::BookTop { seq, .. } => seq,
        EngineEvent::OrderAcknowledged { seq, .. } => seq,
        EngineEvent::OrderCancelled { seq, .. } => seq,
        EngineEvent::OrderRejected { seq, .. } => seq,
        EngineEvent::SnapshotMarker { seq } => seq,
    }
}

/// Every event carries the sequence number of the command that caused it.
pub proof fn law_events_carry_command_seq(m: BookModel, cmd: SequencedCommand, capacity: nat)
    requires
        m.valid(),
    ensures
        forall|i: int|
            0 <= i < m.step(cmd, capacity).events.len() ==> event_seq(
                #[trigger] m.step(cmd, capacity).events[i],
            ) == cmd.seq,
{
    if cmd.cmd is NewOrder {
        let o = model::incoming(cmd);
        let queue = m.queue(o.side.spec_opposite());
        let run = m.matched(o);
        assert(m.side_ok(o.side.spec_opposite()));
        law_sweep_follows_priority(queue, o, o.qty.0);
        let out = m.step(cmd, capacity);
        assert forall|i: int| 0 <= i < out.events.len() implies event_seq(#[trigger] out.events[i])
            == cmd.seq by {
            if m.refusal(o) is None && i < run.events.len() {
                assert(out.events[i] == run.events[i]);
                assert(concerns(run.events[i], o, queue[i]));
            }
        }
    }
}

proof fn lemma_place_count(m: BookModel, o: Incoming, capacity: nat)
    requires
        m.valid(),
    ensures
        m.place(o, capacity).book.count() <= m.count() || m.place(o, capacity).book.count()
            <= capacity,
{
    let opp = o.side.spec_opposite();
    let run = m.matched(o);
    let after = m.after_match(o);
    assert(run.queue.len() <= m.queue(opp).len()) by {
        assert(m.side_ok(opp));
        law_sweep_consumes_front(m.queue(opp), o, o.qty.0);
    }
    assert(after.count() <= m.count());
    let queue = after.queue(o.side);
    let p = model::place_of(o.side, queue, o.price);
    assert(0 <= p <= queue.len()) by {
        lemma_place_found(o.side, queue, o.price);
    }
    assert(queue.insert(p, o.resting(run.left)).len() == queue.len() + 1);
    assert(after.rest(o, run.left).count() == after.count() + 1);
}

/// The number of open orders grows only while there is room.
pub proof fn law_open_orders_stay_within_capacity(
    m: BookModel,
    cmd: SequencedCommand,
    capacity: nat,
)
    requires
        m.valid(),
    ensures
        m.step(cmd, capacity).book.count() <= m.count() || m.step(cmd, capacity).book.count()
            <= capacity,
{
    match cmd.cmd {
        InboundCommand::NewOrder { .. } => {
            lemma_place_count(m, model::incoming(cmd), capacity);
        },
        InboundCommand::Cancel { account, order_id } => {
            model::lemma_index_found(m.bids, order_id);
            model::lemma_index_found(m.asks, order_id);
        },
        _ => {},
    }
}

/// Looking up another order after one has left the queue.
proof fn lemma_index_after_remove(queue: Seq<OrderModel>, p: int, id: OrderId)
    requires
        0 <= p < queue.len(),
        queue[p].id != id,
    ensures
        ({
            let later = queue.remove(p);
            let i = model::index_by_id(queue, id);
            let j = model::index_by_id(later, id);
            &&& i < queue.len() <==> j < later.len()
            &&& i < queue.len() ==> later[j] == queue[i]
        }),
{
    let later = queue.remove(p);
    let i = model::index_by_id(queue, id);
    model::lemma_index_found(queue, id);
    let q = if i < p {
        i
    } else {
        i - 1
    };
    assert forall|x: int| 0 <= x < q implies (#[trigger] later[x]).id != id by {
        if x < p {
            assert(later[x] == queue[x]);
        } else {
            assert(later[x] == queue[x + 1]);
        }
    }
    model::lemma_index_by_id(later, id, q);
}

/// A cancel takes out exactly the order it names: that order is gone, every
/// other order is found as before. A cancel that is turned down changes
/// nothing.
pub proof fn law_cancel_is_exact(m: BookModel, seq: u64, account: AccountId, id: OrderId)
    requires
        m.valid(),
    ensures
        ({
            let out = m.cancel(seq, account, id);
            if m.find(id) matches Some(o) && o.account == account {
                &&& out.book.find(id) is None
                &&& out.book.count() == m.count() - 1
                &&& forall|other: OrderId|
                    other != id ==> #[trigger] out.book.find(other) == m.find(other)
            } else {
                out.book == m
            }
        }),
{
    model::lemma_index_found(m.bids, id);
    model::lemma_index_found(m.asks, id);
    if m.find(id) matches Some(o) && o.account == account {
        let later = m.without(id);
        let b = model::index_by_id(m.bids, id);
        let a = model::index_by_id(m.asks, id);
        if b < m.bids.len() {
            assert forall|i: int| 0 <= i < later.bids.len() implies (#[trigger] later.bids[i]).id
                != id by {
                let x = if i < b {
                    i
                } else {
                    i + 1
                };
                assert(later.bids[i] == m.bids[x]);
                assert(m.bids[b].id == id);
            }
            assert forall|i: int| 0 <= i < m.asks.len() implies (#[trigger] m.asks[i]).id != id by {
                assert(m.bids[b].id != m.asks[i].id);
            }
            model::lemma_index_by_id(later.bids, id, later.bids.len() as int);
            model::lemma_index_by_id(later.asks, id, later.asks.len() as int);
        } else {
            assert forall|i: int| 0 <= i < later.asks.len() implies (#[trigger] later.asks[i]).id
                != id by {
                let x = if i < a {
                    i
                } else {
                    i + 1
                };
                assert(later.asks[i] == m.asks[x]);
                assert(m.asks[a].id == id);
            }
            model::lemma_index_by_id(later.asks, id, later.asks.len() as int);
        }
        assert forall|other: OrderId| other != id implies #[trigger] later.find(other) == m.find(
            other,
        ) by {
            if b < m.bids.len() {
                lemma_index_after_remove(m.bids, b, other);
            } else {
                lemma_index_after_remove(m.asks, a, other);
            }
        }
    }
}

/// Cancelling an order that has just come to rest gives the book back as it
/// was before the order rested: the same queues in the same order, and so the
/// same best prices, quantities and number of open orders. That is the book
/// before the order came, if it met no other order. Cancelling it a second
/// time is turned down and changes nothing.
pub proof fn law_cancel_undoes_rest(
    m: BookModel,
    o: Incoming,
    capacity: nat,
    seq: u64,
    again: u64,
)
    requires
        m.valid(),
        m.find(OrderId(o.seq)) is None,
        m.refusal(o) is None,
        o.time_in_force is Gtc,
        m.matched(o).left > 0,
        m.after_match(o).count() < capacity,
    ensures
        ({
            let id = OrderId(o.seq);
            let before = m.after_match(o);
            let rested = m.place(o, capacity).book;
            let first = rested.cancel(seq, o.account, id);
            let second = first.book.cancel(again, o.account, id);
            &&& rested.find(id) == Some(o.resting(m.matched(o).left))
            &&& first.book == before
            &&& first.events == seq![EngineEvent::Cancelled { seq, order_id: id }]
            &&& second.book == before
            &&& second.events == seq![
                model::cancel_rejected(again, o.account, id, RejectReason::OrderNotFound),
            ]
            &&& first.book.best(Side::Buy) == before.best(Side::Buy)
            &&& first.book.best(Side::Sell) == before.best(Side::Sell)
            &&& first.book.count() == before.count()
            &&& forall|side: Side, price: Price| #[trigger]
                model::qty_at(first.book.queue(side), price) == model::qty_at(
                    before.queue(side),
                    price,
                )
            &&& m.matched(o).events.len() == 0 ==> before == m
        }),
{
    let id = OrderId(o.seq);
    let left = m.matched(o).left;
    let before = m.after_match(o);
    lemma_match_keeps_valid(m, o);
    let queue = before.queue(o.side);
    let new = o.resting(left);
    let p = model::place_of(o.side, queue, o.price);
    let book = m.place(o, capacity).book;
    let grown = queue.insert(p, new);
    lemma_place_found(o.side, queue, o.price);
    lemma_absent(before, id);
    assert(book.queue(o.side) == grown);
    assert forall|i: int| 0 <= i < p implies (#[trigger] grown[i]).id != id by {
        assert(grown[i] == queue[i]);
    }
    model::lemma_index_by_id(grown, id, p);
    assert(grown.remove(p) =~= queue);
    match o.side {
        Side::Buy => {
            assert(book.bids == grown && book.asks == before.asks);
            assert(book.without(id) =~= before);
        },
        Side::Sell => {
            assert(book.asks == grown && book.bids == before.bids);
            assert(book.without(id) =~= before);
        },
    }
    if m.matched(o).events.len() == 0 {
        lemma_quiet_run(m.queue(o.side.spec_opposite()), o, o.qty.0);
        assert(before =~= m);
    }
}

/// The same of whole commands: where an order was accepted without a trade or
/// a cancellation, a cancel of its owner gives back the book from before the
/// order, and a second cancel is answered with a single rejection.
pub proof fn law_cancel_command_undoes_order(
    m: BookModel,
    placed: SequencedCommand,
    first: SequencedCommand,
    second: SequencedCommand,
    capacity: nat,
)
    requires
        m.valid(),
        placed.cmd is NewOrder,
        m.find(OrderId(placed.seq)) is None,
        m.step(placed, capacity).events[0] is Accepted,
        ({
            let cancel = InboundCommand::Cancel {
                account: placed.cmd->NewOrder_account,
                order_id: OrderId(placed.seq),
            };
            first.cmd == cancel && second.cmd == cancel
        }),
    ensures
        ({
            let id = OrderId(placed.seq);
            let account = placed.cmd->NewOrder_account;
            let a = m.step(placed, capacity).book.step(first, capacity);
            let b = a.book.step(second, capacity);
            &&& a.book == m
            &&& a.events == seq![EngineEvent::Cancelled { seq: first.seq, order_id: id }]
            &&& b.book == m
            &&& b.events == seq![
                model::cancel_rejected(second.seq, account, id, RejectReason::OrderNotFound),
            ]
            &&& a.book.best(Side::Buy) == m.best(Side::Buy)
            &&& a.book.best(Side::Sell) == m.best(Side::Sell)
            &&& a.book.count() == m.count()
            &&& forall|side: Side, price: Price| #[trigger]
                model::qty_at(a.book.queue(side), price) == model::qty_at(m.queue(side), price)
        }),
{
    let o = model::incoming(placed);
    let run = m.matched(o);
    assert(run.events.len() > 0 ==> run.events[0] is Trade || run.events[0] is Cancelled);
    assert(run.events.len() == 0);
    law_cancel_undoes_rest(m, o, capacity, first.seq, second.seq);
}

/// A matching run without events changes nothing.
proof fn lemma_quiet_run(queue: Seq<OrderModel>, o: Incoming, left: u64)
    requires
        model::sweep(queue, o, left).events.len() == 0,
    ensures
        model::sweep(queue, o, left) == (Sweep { queue, left, events: Seq::empty() }),
{
}

/// The book after a log of commands.
pub open spec fn replay(m: BookModel, log: Seq<SequencedCommand>, capacity: nat) -> BookModel
    decreases log.len(),
{
    if log.len() == 0 {
        m
    } else {
        replay(m.step(log[0], capacity).book, log.drop_first(), capacity)
    }
}

/// The book is a function of its log: replaying a log in two parts gives the
/// same book as replaying it at once.
pub proof fn law_replay_in_parts(
    m: BookModel,
    first: Seq<SequencedCommand>,
    second: Seq<SequencedCommand>,
    capacity: nat,
)
    ensures
        replay(m, first + second, capacity) == replay(
            replay(m, first, capacity),
            second,
            capacity,
        ),
    decreases first.len(),
{
    if first.len() == 0 {
        assert(first + second =~= second);
    } else {
        assert((first + second).drop_first() =~= first.drop_first() + second);
        law_replay_in_parts(
            m.step(first[0], capacity).book,
            first.drop_first(),
            second,
            capacity,
        );
    }
}

} // verus!

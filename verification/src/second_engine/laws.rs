//! What holds of the second engine as a whole.

use crate::core_types::commands::{InboundCommand, SequencedCommand};
use crate::core_types::events::EngineEvent;
use crate::core_types::ids::{AccountId, OrderId, Symbol};
use crate::core_types::log_entry::LogEntry;
use crate::core_types::order_status::OrderStatus;
use crate::order_book::book::accounts;
use crate::order_book::book::BookConfig;
use crate::order_book::laws;
use crate::order_book::model;
use crate::order_book::model::{BookModel, Incoming, OrderModel};
use crate::second_engine::books::{built, cancelled_in_all, empty_book};
use crate::second_engine::engine::{
    admitted, applied, command_of, fill_price, fill_qty, fills, handled, Fill, SecondEngineMetrics,
};
use vstd::prelude::*;

verus! {

/// A part of the events fills no more than all of them.
pub proof fn lemma_fill_monotone(events: Seq<EngineEvent>, id: OrderId, j: int)
    requires
        0 <= j <= events.len(),
    ensures
        fill_qty(events.take(j), id) <= fill_qty(events, id),
    decreases events.len() - j,
{
    if j < events.len() {
        lemma_fill_monotone(events, id, j + 1);
        assert(events.take(j + 1).drop_last() =~= events.take(j));
    } else {
        assert(events.take(j) =~= events);
    }
}

/// Where the order is the aggressor of every trade, its fill is all that is
/// traded.
proof fn lemma_fill_is_traded(events: Seq<EngineEvent>, id: OrderId)
    requires
        forall|i: int| 0 <= i < events.len() && events[i] is Trade ==> fills(#[trigger] events[i], id),
    ensures
        fill_qty(events, id) == laws::traded(events),
    decreases events.len(),
{
    if events.len() > 0 {
        let front = events.drop_last();
        assert forall|i: int| 0 <= i < front.len() && front[i] is Trade implies fills(
            #[trigger] front[i],
            id,
        ) by {
            assert(front[i] == events[i]);
        }
        lemma_fill_is_traded(front, id);
        laws::lemma_traded_push(front, events.last());
        assert(events =~= front.push(events.last()));
        assert(events[events.len() - 1] is Trade ==> fills(events[events.len() - 1], id));
    }
}

/// Every trade of a matching run has the incoming order as its aggressor.
proof fn lemma_sweep_aggressor(queue: Seq<OrderModel>, o: Incoming, left: u64)
    ensures
        forall|i: int|
            0 <= i < model::sweep(queue, o, left).events.len() && model::sweep(
                queue,
                o,
                left,
            ).events[i] is Trade ==> fills(
                #[trigger] model::sweep(queue, o, left).events[i],
                OrderId(o.seq),
            ),
    decreases queue.len(),
{
    let run = model::sweep(queue, o, left);
    if left == 0 || queue.len() == 0 || !model::crosses(o.side, o.price, queue[0].price) {
    } else if queue[0].account != o.account && left < queue[0].qty.0 {
    } else {
        let next_left = if queue[0].account == o.account {
            left
        } else {
            (left - queue[0].qty.0) as u64
        };
        let rest = model::sweep(queue.drop_first(), o, next_left);
        lemma_sweep_aggressor(queue.drop_first(), o, next_left);
        assert forall|i: int| 0 <= i < run.events.len() && run.events[i] is Trade implies fills(
            #[trigger] run.events[i],
            OrderId(o.seq),
        ) by {
            if i > 0 {
                assert(run.events[i] == rest.events[i - 1]);
            }
        }
    }
}

proof fn lemma_step_aggressor(m: BookModel, cmd: SequencedCommand, capacity: nat)
    requires
        cmd.cmd is NewOrder,
    ensures
        fill_qty(m.step(cmd, capacity).events, OrderId(cmd.seq)) == laws::traded(
            m.step(cmd, capacity).events,
        ),
{
    let o = model::incoming(cmd);
    let out = m.step(cmd, capacity);
    let run = m.matched(o);
    lemma_sweep_aggressor(m.queue(o.side.spec_opposite()), o, o.qty.0);
    assert forall|i: int| 0 <= i < out.events.len() && out.events[i] is Trade implies fills(
        #[trigger] out.events[i],
        OrderId(cmd.seq),
    ) by {
        if m.refusal(o) is None && i < run.events.len() {
            assert(out.events[i] == run.events[i]);
        }
    }
    lemma_fill_is_traded(out.events, OrderId(cmd.seq));
}

/// The fill that is recorded for a new order is what the order trades: the
/// smaller of its quantity and of what other accounts offer at prices that
/// its limit accepts, and nothing if the order is refused.
pub proof fn law_fill_is_what_the_order_trades(m: BookModel, cmd: SequencedCommand, capacity: nat)
    requires
        cmd.cmd is NewOrder,
    ensures
        ({
            let o = model::incoming(cmd);
            let offered = model::fillable(
                m.queue(o.side.spec_opposite()),
                o.side,
                o.price,
                o.account,
            );
            fill_qty(m.step(cmd, capacity).events, OrderId(cmd.seq)) == if m.refusal(o) is Some {
                0
            } else if offered < o.qty.0 {
                offered
            } else {
                o.qty.0 as nat
            }
        }),
{
    let o = model::incoming(cmd);
    lemma_step_aggressor(m, cmd, capacity);
    if m.refusal(o) is None {
        laws::law_order_trades_what_it_can(m, o, capacity);
    } else {
        let events = m.step(cmd, capacity).events;
        assert(events.drop_last() =~= Seq::<EngineEvent>::empty());
        assert(fill_qty(events.drop_last(), OrderId(cmd.seq)) == 0);
    }
}

/// An order is processed once: after it was processed it is no longer
/// escalated, so no worker claims it again, and it stays as it was logged but
/// for the outcome.
pub proof fn law_processed_once(
    before: Map<Symbol, BookModel>,
    entry: LogEntry,
    now_ns: u64,
    after: Map<Symbol, BookModel>,
    later: LogEntry,
    known: bool,
)
    requires
        handled(before, entry, now_ns, after, later, known),
    ensures
        later.spec_status() == OrderStatus::FinallyHandled,
        later.spec_status() != OrderStatus::Unaddressed,
        later.seq == entry.seq,
        later.cmd == entry.cmd,
        later.checksum == entry.checksum,
{
}

/// Only trades in which the order was the aggressor fill it.
pub open spec fn is_fill(ev: EngineEvent, id: OrderId) -> bool {
    match ev {
        EngineEvent::Trade { taker_order_id, .. } => taker_order_id.0 == id.0,
        _ => false,
    }
}

/// The quantities of an order's trades are added up, and the price is that of
/// the last of them: of two lists one after the other, that of the second if
/// there is a trade of the order in it.
pub proof fn law_fill_over_all_trades(a: Seq<EngineEvent>, b: Seq<EngineEvent>, id: OrderId)
    ensures
        fill_qty(a + b, id) == fill_qty(a, id) + fill_qty(b, id),
        fill_price(a + b, id) == if exists|i: int| 0 <= i < b.len() && is_fill(#[trigger] b[i], id) {
            fill_price(b, id)
        } else {
            fill_price(a, id)
        },
        a.len() == 0 ==> fill_qty(a, id) == 0 && fill_price(a, id) == 0,
        a.len() == 1 && is_fill(a[0], id) ==> fill_qty(a, id) == a[0]->Trade_qty.0,
        a.len() == 1 && is_fill(a[0], id) && a[0]->Trade_price.0 >= 0 ==> fill_price(a, id)
            == a[0]->Trade_price.0,
        a.len() == 1 && is_fill(a[0], id) && a[0]->Trade_price.0 < 0 ==> fill_price(a, id)
            == a[0]->Trade_price.0 + 0x1_0000_0000_0000_0000,
        a.len() == 1 && !is_fill(a[0], id) ==> fill_qty(a, id) == 0 && fill_price(a, id) == 0,
    decreases b.len(),
{
    reveal_with_fuel(fill_qty, 2);
    reveal_with_fuel(fill_price, 2);
    if a.len() == 1 && is_fill(a[0], id) {
        let x = a[0]->Trade_price.0;
        assert(x < 0 ==> x as u64 == x + 0x1_0000_0000_0000_0000) by (bit_vector);
    }
    if b.len() == 0 {
        assert(a + b =~= a);
    } else {
        let front = b.drop_last();
        law_fill_over_all_trades(a, front, id);
        assert((a + b).drop_last() =~= a + front);
        let last = b.len() - 1;
        assert(fills(b[last], id) <==> is_fill(b[last], id));
        if exists|i: int| 0 <= i < b.len() && is_fill(#[trigger] b[i], id) {
            let i = choose|i: int| 0 <= i < b.len() && is_fill(#[trigger] b[i], id);
            if i < last {
                assert(is_fill(front[i], id));
            }
        }
        if exists|i: int| 0 <= i < front.len() && is_fill(#[trigger] front[i], id) {
            let i = choose|i: int| 0 <= i < front.len() && is_fill(#[trigger] front[i], id);
            assert(is_fill(b[i], id));
        }
    }
}

/// The book of a symbol is as it was.
pub open spec fn untouched(
    before: Map<Symbol, BookModel>,
    after: Map<Symbol, BookModel>,
    symbol: Symbol,
) -> bool {
    after.contains_key(symbol) == before.contains_key(symbol) && (before.contains_key(symbol)
        ==> after[symbol] == before[symbol])
}

/// An order is applied to the book of its symbol, with its own number and
/// time, and no other book changes. A liquidation clears the account from the
/// book of its symbol. A cancel request is put to every book. A freeze changes
/// no book. Without a book for the symbol nothing happens, and only orders
/// that trade have a fill.
pub proof fn law_command_goes_to_its_book(
    before: Map<Symbol, BookModel>,
    entry: LogEntry,
    after: Map<Symbol, BookModel>,
    fill: Fill,
    known: bool,
    other: Symbol,
)
    requires
        applied(before, entry, after, fill, known),
    ensures
        match entry.cmd {
            InboundCommand::NewOrder { symbol, .. } => {
                &&& known <==> before.contains_key(symbol)
                &&& other != symbol ==> untouched(before, after, other)
                &&& !known ==> after == before && fill.price == 0 && fill.qty == 0
                &&& known ==> exists|capacity: nat|
                    capacity >= before[symbol].reserved && after.contains_key(symbol) && {
                        let out = #[trigger] before[symbol].step(
                            (SequencedCommand {
                                seq: entry.seq,
                                ts_ns: entry.timestamp_in,
                                cmd: entry.cmd,
                            }),
                            capacity,
                        );
                        &&& after[symbol] == out.book
                        &&& fill.price == fill_price(out.events, OrderId(entry.seq))
                        &&& fill.qty == fill_qty(out.events, OrderId(entry.seq))
                    }
            },
            InboundCommand::Liquidate { symbol, account } => {
                &&& known <==> before.contains_key(symbol)
                &&& fill.price == 0 && fill.qty == 0
                &&& other != symbol ==> untouched(before, after, other)
                &&& after.contains_key(symbol) == known
                &&& known ==> after[symbol] == accounts::without_account(before[symbol], account)
            },
            InboundCommand::Cancel { account, order_id } => {
                &&& known && fill.price == 0 && fill.qty == 0
                &&& after.contains_key(other) <==> before.contains_key(other)
                &&& before.contains_key(other) ==> after[other] == before[other].cancel(
                    entry.seq,
                    account,
                    order_id,
                ).book
            },
            InboundCommand::FreezeAccount { .. } => {
                &&& known && fill.price == 0 && fill.qty == 0
                &&& untouched(before, after, other)
            },
        },
{
    match entry.cmd {
        InboundCommand::NewOrder { symbol, .. } => {
            if known {
                let capacity = choose|capacity: nat|
                    capacity >= before[symbol].reserved && {
                        let out = #[trigger] before[symbol].step(command_of(entry), capacity);
                        &&& after == before.insert(symbol, out.book)
                        &&& fill.price == fill_price(out.events, OrderId(entry.seq))
                        &&& fill.qty == fill_qty(out.events, OrderId(entry.seq))
                    };
                let out = before[symbol].step(
                    SequencedCommand {
                        seq: entry.seq,
                        ts_ns: entry.timestamp_in,
                        cmd: entry.cmd,
                    },
                    capacity,
                );
                assert(after == before.insert(symbol, out.book));
            }
        },
        _ => {},
    }
}

/// An escalated entry that was processed is marked as finally handled by the
/// second engine at that time, with the fill that its order had. The command
/// is applied as it was logged, and everything else in the entry stays.
pub proof fn law_entry_records_its_outcome(
    before: Map<Symbol, BookModel>,
    entry: LogEntry,
    now_ns: u64,
    after: Map<Symbol, BookModel>,
    later: LogEntry,
    known: bool,
)
    requires
        handled(before, entry, now_ns, after, later, known),
    ensures
        later.status == 3,
        later.handled_by == 2,
        later.timestamp_out == now_ns,
        later.seq == entry.seq,
        later.timestamp_in == entry.timestamp_in,
        later.cmd == entry.cmd,
        later.checksum == entry.checksum,
        applied(
            before,
            (LogEntry { status: 3, ..entry }),
            after,
            (Fill { price: later.fill_price, qty: later.filled_qty }),
            known,
        ),
{
    let claimed = LogEntry { status: 3, ..entry };
    let fill = choose|fill: Fill| #[trigger]
        applied(before, claimed, after, fill, known) && later == (LogEntry {
            handled_by: 2,
            timestamp_out: now_ns,
            fill_price: fill.price,
            filled_qty: fill.qty,
            ..claimed
        });
    assert(applied(before, claimed, after, fill, known));
}

/// A cancel request is put to every book, and each answers for itself.
pub proof fn law_every_book_is_asked(
    books: Map<Symbol, BookModel>,
    seq: u64,
    account: AccountId,
    id: OrderId,
    symbol: Symbol,
)
    ensures
        ({
            let after = cancelled_in_all(books, seq, account, id);
            &&& after.contains_key(symbol) <==> books.contains_key(symbol)
            &&& books.contains_key(symbol) ==> after[symbol] == books[symbol].cancel(
                seq,
                account,
                id,
            ).book
        }),
{
}

/// Every configuration makes an empty book for its symbol, in place of one
/// that came before, and changes no other book.
pub proof fn law_books_as_configured(configs: Seq<BookConfig>, cfg: BookConfig, other: Symbol)
    ensures
        ({
            let books = built(configs.push(cfg));
            &&& books.contains_key(cfg.symbol)
            &&& books[cfg.symbol].symbol == cfg.symbol
            &&& books[cfg.symbol].tick_floor == cfg.tick_floor.0
            &&& books[cfg.symbol].num_ticks == cfg.num_ticks
            &&& books[cfg.symbol].reserved == cfg.arena_capacity
            &&& books[cfg.symbol].bids.len() == 0
            &&& books[cfg.symbol].asks.len() == 0
            &&& other != cfg.symbol ==> untouched(built(configs), books, other)
        }),
        forall|s: Symbol| !#[trigger] built(Seq::empty()).contains_key(s),
{
    assert(configs.push(cfg).drop_last() =~= configs);
    assert(empty_book(cfg).bids.len() == 0);
}

/// An escalated entry can be processed if the book of its order, where there
/// is one, can take the order. Nothing stands in the way of other commands.
pub proof fn law_which_entries_can_be_processed(books: Map<Symbol, BookModel>, entry: LogEntry)
    ensures
        admitted(books, entry) <==> match entry.cmd {
            InboundCommand::NewOrder { symbol, .. } => !books.contains_key(symbol)
                || books[symbol].admits(
                SequencedCommand {
                    seq: entry.seq,
                    ts_ns: entry.timestamp_in,
                    cmd: entry.cmd,
                },
            ),
            _ => true,
        },
{
}

/// Every entry that is received counts as such, and either as processed or as
/// taken by somebody else. Of those that are processed the ones without a book
/// are counted too. The counters wrap around.
pub proof fn law_every_entry_is_counted(m: SecondEngineMetrics, claimed: Option<bool>)
    ensures
        ({
            let n = m.counted(claimed);
            let one = |b: bool|
                if b {
                    1int
                } else {
                    0
                };
            &&& n.orders_received == (m.orders_received + 1) % 0x1_0000_0000_0000_0000
            &&& n.orders_processed == (m.orders_processed + one(claimed is Some))
                % 0x1_0000_0000_0000_0000
            &&& n.cas_failures == (m.cas_failures + one(claimed is None))
                % 0x1_0000_0000_0000_0000
            &&& n.unknown_symbol == (m.unknown_symbol + one(claimed == Some(false)))
                % 0x1_0000_0000_0000_0000
        }),
{
}

} // verus!

//! What a worker of the second engine does with an escalated order.
//!
//! New orders and liquidations carry a symbol and go to the book of that
//! symbol. Cancels carry none, so every book of the worker is asked. A freeze
//! has no effect on books.

use crate::core_types::commands::{InboundCommand, SequencedCommand};
use crate::core_types::events::EngineEvent;
use crate::core_types::ids::{OrderId, Symbol};
use crate::core_types::log_entry::LogEntry;
use crate::core_types::order_status::OrderStatus;
use crate::dual_log::pending_ring::PendingRing;
use crate::order_book::book::accounts;
use crate::order_book::book::BookConfig;
use crate::order_book::model::BookModel;
use crate::second_engine::books::{cancelled_in_all, BookSet};
use crate::second_engine::laws;
use vstd::prelude::*;

verus! {

/// The mark of the second engine in a log entry.
pub const SECOND_ENGINE: u8 = 2;

/// How the second engine is set up.
#[derive(Debug, Clone)]
pub struct SecondEngineConfig {
    /// Number of workers.
    pub worker_count: usize,
    /// The books that every worker keeps for itself.
    pub book_configs: Vec<BookConfig>,
}

impl Default for SecondEngineConfig {
    fn default() -> (cfg: SecondEngineConfig)
        ensures
            cfg.worker_count == 8,
            cfg.book_configs@ == Seq::<BookConfig>::empty(),
    {
        SecondEngineConfig { worker_count: 8, book_configs: Vec::new() }
    }
}

/// What the workers count. The counters wrap around.
#[derive(Debug, Clone, Copy, PartialEq, Eq, Default, Structural)]
pub struct SecondEngineMetrics {
    /// Orders claimed and processed.
    pub orders_processed: u64,
    /// Orders that somebody else had taken.
    pub cas_failures: u64,
    /// Orders received.
    pub orders_received: u64,
    /// Claimed orders for a symbol without a book.
    pub unknown_symbol: u64,
}

impl SecondEngineMetrics {
    /// The counters after an entry was received that somebody else had taken,
    /// or that was claimed and had a `known` symbol or not.
    pub open spec fn counted(self, claimed: Option<bool>) -> SecondEngineMetrics {
        let received = SecondEngineMetrics {
            orders_received: self.orders_received.wrapping_add(1),
            ..self
        };
        match claimed {
            None => SecondEngineMetrics {
                cas_failures: self.cas_failures.wrapping_add(1),
                ..received
            },
            Some(known) => SecondEngineMetrics {
                orders_processed: self.orders_processed.wrapping_add(1),
                unknown_symbol: if known {
                    self.unknown_symbol
                } else {
                    self.unknown_symbol.wrapping_add(1)
                },
                ..received
            },
        }
    }
}

/// The fill that an order had: the price of its last trade and the quantity
/// of all its trades.
#[derive(Debug, Clone, Copy, PartialEq, Eq, Structural)]
pub struct Fill {
    pub price: u64,
    pub qty: u64,
}

/// The event is a trade in which the order was the aggressor.
pub open spec fn fills(event: EngineEvent, id: OrderId) -> bool {
    event matches EngineEvent::Trade { taker_order_id, .. } && taker_order_id == id
}

/// The price of the last trade of the order, zero if there is none.
pub open spec fn fill_price(events: Seq<EngineEvent>, id: OrderId) -> u64
    decreases events.len(),
{
    if events.len() == 0 {
        0
    } else if fills(events.last(), id) {
        events.last()->Trade_price.0 as u64
    } else {
        fill_price(events.drop_last(), id)
    }
}

/// The quantity of all trades of the order.
pub open spec fn fill_qty(events: Seq<EngineEvent>, id: OrderId) -> nat
    decreases events.len(),
{
    if events.len() == 0 {
        0
    } else if fills(events.last(), id) {
        fill_qty(events.drop_last(), id) + events.last()->Trade_qty.0 as nat
    } else {
        fill_qty(events.drop_last(), id)
    }
}

/// Adds up the fill of an order over the events.
pub fn accumulate_fill(events: &Vec<EngineEvent>, this_order_id: OrderId) -> (fill: Fill)
    requires
        fill_qty(events@, this_order_id) <= u64::MAX,
    ensures
        fill.price == fill_price(events@, this_order_id),
        fill.qty == fill_qty(events@, this_order_id),
{
    let mut fill: Fill = Fill { price: 0, qty: 0 };
    let mut i: usize = 0;
    while i < events.len()
        invariant
            i <= events@.len(),
            fill_qty(events@, this_order_id) <= u64::MAX,
            fill.price == fill_price(events@.take(i as int), this_order_id),
            fill.qty == fill_qty(events@.take(i as int), this_order_id),
        decreases events@.len() - i,
    {
        proof {
            assert(events@.take(i + 1).drop_last() =~= events@.take(i as int));
            assert(events@.take(i + 1).last() == events@[i as int]);
            laws::lemma_fill_monotone(events@, this_order_id, i + 1);
        }
        match &events[i] {
            EngineEvent::Trade { price, qty, taker_order_id, .. } => {
                if *taker_order_id == this_order_id {
                    fill = Fill { price: price.0 as u64, qty: fill.qty + qty.0 };
                }
            },
            _ => {},
        }
        i += 1;
    }
    assert(events@.take(i as int) =~= events@);
    fill
}

/// The command of a log entry as the books take it.
pub open spec fn command_of(entry: LogEntry) -> SequencedCommand {
    SequencedCommand { seq: entry.seq, ts_ns: entry.timestamp_in, cmd: entry.cmd }
}

/// The books can take the command of the entry.
pub open spec fn admitted(books: Map<Symbol, BookModel>, entry: LogEntry) -> bool {
    entry.cmd matches InboundCommand::NewOrder { symbol, .. } ==> books.contains_key(symbol)
        ==> books[symbol].admits(command_of(entry))
}

/// What the command of an entry does to the books: the books `after` it, the
/// fill, and whether its symbol is known.
pub open spec fn applied(
    before: Map<Symbol, BookModel>,
    entry: LogEntry,
    after: Map<Symbol, BookModel>,
    fill: Fill,
    known: bool,
) -> bool {
    let none = Fill { price: 0, qty: 0 };
    match entry.cmd {
        InboundCommand::NewOrder { symbol, .. } => if before.contains_key(symbol) {
            &&& known
            &&& exists|capacity: nat|
                capacity >= before[symbol].reserved && {
                    let out = #[trigger] before[symbol].step(command_of(entry), capacity);
                    &&& after == before.insert(symbol, out.book)
                    &&& fill.price == fill_price(out.events, OrderId(entry.seq))
                    &&& fill.qty == fill_qty(out.events, OrderId(entry.seq))
                }
        } else {
            !known && after == before && fill == none
        },
        InboundCommand::Liquidate { symbol, account } => {
            &&& known == before.contains_key(symbol)
            &&& fill == none
            &&& after == if known {
                before.insert(symbol, accounts::without_account(before[symbol], account))
            } else {
                before
            }
        },
        InboundCommand::Cancel { account, order_id } => {
            &&& known
            &&& fill == none
            &&& after == cancelled_in_all(before, entry.seq, account, order_id)
        },
        InboundCommand::FreezeAccount { .. } => known && after == before && fill == none,
    }
}

/// Applies the command of an entry to the books. The result is the fill that
/// the order had, and whether its symbol is known; nothing is applied for an
/// unknown symbol.
pub fn apply_escalated(entry: &LogEntry, books: &mut BookSet) -> (r: (Fill, bool))
    requires
        old(books).wf(),
        admitted(old(books)@, *entry),
    ensures
        final(books).wf(),
        applied(old(books)@, *entry, final(books)@, r.0, r.1),
{
    let none = Fill { price: 0, qty: 0 };
    match entry.cmd {
        InboundCommand::NewOrder { symbol, .. } => {
            let cmd = SequencedCommand {
                seq: entry.seq,
                ts_ns: entry.timestamp_in,
                cmd: entry.cmd,
            };
            match books.apply_to(symbol, cmd) {
                Some(events) => {
                    proof {
                        let m = old(books)@[symbol];
                        let capacity = choose|capacity: nat|
                            capacity >= m.reserved && {
                                let out = #[trigger] m.step(cmd, capacity);
                                &&& books@ == old(books)@.insert(symbol, out.book)
                                &&& events@ == out.events
                            };
                        laws::law_fill_is_what_the_order_trades(m, cmd, capacity);
                    }
                    let fill = accumulate_fill(&events, OrderId(entry.seq));
                    (fill, true)
                },
                None => (none, false),
            }
        },
        InboundCommand::Liquidate { symbol, account } => {
            let known = books.cancel_account(symbol, entry.seq, entry.timestamp_in, account);
            (none, known)
        },
        InboundCommand::Cancel { account, order_id } => {
            books.cancel_in_all(entry.seq, entry.timestamp_in, account, order_id);
            (none, true)
        },
        InboundCommand::FreezeAccount { .. } => (none, true),
    }
}

/// What processing an escalated entry leaves behind: the books, and the entry
/// with its fill and marked as handled.
pub open spec fn handled(
    before: Map<Symbol, BookModel>,
    entry: LogEntry,
    now_ns: u64,
    after: Map<Symbol, BookModel>,
    later: LogEntry,
    known: bool,
) -> bool {
    let claimed = LogEntry { status: OrderStatus::FinallyHandled.code(), ..entry };
    exists|fill: Fill| #[trigger]
        applied(before, claimed, after, fill, known) && later == (LogEntry {
            handled_by: SECOND_ENGINE,
            timestamp_out: now_ns,
            fill_price: fill.price,
            filled_qty: fill.qty,
            ..claimed
        })
}

/// Claims an escalated entry and processes it. Entries that are not, or no
/// longer, escalated are left alone: somebody else takes care of them. The
/// result is `None` for those; otherwise it says whether the symbol is known.
fn claim_and_apply(
    entry: &mut LogEntry,
    pending_ring: &mut PendingRing,
    books: &mut BookSet,
    now_ns: u64,
) -> (r: Option<bool>)
    requires
        old(pending_ring).wf(),
        old(books).wf(),
        old(entry).spec_status() == OrderStatus::Unaddressed ==> admitted(
            old(books)@,
            *old(entry),
        ),
    ensures
        final(pending_ring).wf(),
        final(books).wf(),
        match r {
            None => {
                &&& old(entry).spec_status() != OrderStatus::Unaddressed
                &&& *final(entry) == *old(entry)
                &&& final(books)@ == old(books)@
                &&& final(pending_ring)@ == old(pending_ring)@
            },
            Some(known) => {
                &&& old(entry).spec_status() == OrderStatus::Unaddressed
                &&& handled(
                    old(books)@,
                    *old(entry),
                    now_ns,
                    final(books)@,
                    *final(entry),
                    known,
                )
                &&& final(pending_ring)@ == old(pending_ring)@.remove(old(entry).seq)
            },
        },
{
    if entry.load_status() != OrderStatus::Unaddressed {
        return None;
    }
    if !entry.try_claim(OrderStatus::Unaddressed, OrderStatus::FinallyHandled) {
        return None;
    }
    let (fill, known) = apply_escalated(entry, books);
    entry.record_fill(SECOND_ENGINE, now_ns, fill.price, fill.qty);
    pending_ring.remove(entry.seq);
    Some(known)
}

/// Processes one entry. The result is `true` if the entry was escalated, and
/// so was claimed and processed.
pub fn process_single(
    entry: &mut LogEntry,
    pending_ring: &mut PendingRing,
    books: &mut BookSet,
) -> (done: bool)
    requires
        old(pending_ring).wf(),
        old(books).wf(),
        old(entry).spec_status() == OrderStatus::Unaddressed ==> admitted(
            old(books)@,
            *old(entry),
        ),
    ensures
        final(pending_ring).wf(),
        final(books).wf(),
        done == (old(entry).spec_status() == OrderStatus::Unaddressed),
        done ==> exists|known: bool| #[trigger]
            handled(old(books)@, *old(entry), 0, final(books)@, *final(entry), known),
        done ==> final(pending_ring)@ == old(pending_ring)@.remove(old(entry).seq),
        !done ==> *final(entry) == *old(entry) && final(books)@ == old(books)@
            && final(pending_ring)@ == old(pending_ring)@,
{
    match claim_and_apply(entry, pending_ring, books, 0) {
        Some(known) => {
            assert(handled(old(books)@, *old(entry), 0, books@, *entry, known));
            true
        },
        None => false,
    }
}

/// What a worker does with one entry that it received at `now_ns`.
pub fn worker_step(
    entry: &mut LogEntry,
    pending_ring: &mut PendingRing,
    metrics: &mut SecondEngineMetrics,
    books: &mut BookSet,
    now_ns: u64,
)
    requires
        old(pending_ring).wf(),
        old(books).wf(),
        old(entry).spec_status() == OrderStatus::Unaddressed ==> admitted(
            old(books)@,
            *old(entry),
        ),
    ensures
        final(pending_ring).wf(),
        final(books).wf(),
        old(entry).spec_status() != OrderStatus::Unaddressed ==> {
            &&& *final(entry) == *old(entry)
            &&& final(books)@ == old(books)@
            &&& final(pending_ring)@ == old(pending_ring)@
            &&& *final(metrics) == old(metrics).counted(None)
            &&& *final(metrics) == (SecondEngineMetrics {
                orders_received: old(metrics).orders_received.wrapping_add(1),
                cas_failures: old(metrics).cas_failures.wrapping_add(1),
                ..*old(metrics)
            })
        },
        old(entry).spec_status() == OrderStatus::Unaddressed ==> exists|known: bool| #[trigger]
            handled(old(books)@, *old(entry), now_ns, final(books)@, *final(entry), known)
                && final(pending_ring)@ == old(pending_ring)@.remove(old(entry).seq)
                && *final(metrics) == old(metrics).counted(Some(known))
                && *final(metrics) == (SecondEngineMetrics {
                orders_received: old(metrics).orders_received.wrapping_add(1),
                orders_processed: old(metrics).orders_processed.wrapping_add(1),
                unknown_symbol: if known {
                    old(metrics).unknown_symbol
                } else {
                    old(metrics).unknown_symbol.wrapping_add(1)
                },
                ..*old(metrics)
            }),
{
    metrics.orders_received = metrics.orders_received.wrapping_add(1);
    match claim_and_apply(entry, pending_ring, books, now_ns) {
        None => {
            metrics.cas_failures = metrics.cas_failures.wrapping_add(1);
        },
        Some(known) => {
            if !known {
                metrics.unknown_symbol = metrics.unknown_symbol.wrapping_add(1);
            }
            metrics.orders_processed = metrics.orders_processed.wrapping_add(1);
            assert(handled(old(books)@, *old(entry), now_ns, books@, *entry, known));
        },
    }
}

} // verus!

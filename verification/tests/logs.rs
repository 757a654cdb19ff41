//! The two logs, the orders in flight and the second engine.

use match_risk_engine::core_types::commands::{
    InboundCommand, OrderType, SequencedCommand, TimeInForce,
};
use match_risk_engine::core_types::events::EngineEvent;
use match_risk_engine::core_types::ids::{AccountId, ClientOrderId, OrderId, Symbol};
use match_risk_engine::core_types::log_entry::LogEntry;
use match_risk_engine::core_types::order_status::OrderStatus;
use match_risk_engine::core_types::price::Price;
use match_risk_engine::core_types::qty::Qty;
use match_risk_engine::core_types::side::Side;
use match_risk_engine::dual_log::dual_log::{DualLog, DualLogError, WhichLog};
use match_risk_engine::dual_log::pending_ring::PendingRing;
use match_risk_engine::order_book::book::BookConfig;
use match_risk_engine::second_engine::books::{build_books, BookSet};
use match_risk_engine::second_engine::engine::{
    accumulate_fill, apply_escalated, process_single, worker_step, SecondEngineConfig,
    SecondEngineMetrics,
};

fn sample_entry(seq: u64) -> LogEntry {
    LogEntry::new(
        seq,
        seq * 1000,
        InboundCommand::NewOrder {
            account: AccountId(1),
            client_order_id: ClientOrderId::new(seq),
            symbol: Symbol(0),
            side: Side::Buy,
            price: Price(100),
            qty: Qty(10),
            order_type: OrderType::Limit,
            time_in_force: TimeInForce::Gtc,
        },
    )
}

#[test]
fn push_and_next_pending() {
    let mut ring = PendingRing::new();
    assert!(ring.is_empty());

    let e1 = sample_entry(1);
    let e2 = sample_entry(2);
    ring.push(e1);
    ring.push(e2);

    assert_eq!(ring.len(), 2);

    let next = ring.next_pending().expect("should have a pending entry");
    assert_eq!(next.seq, 1);
}

#[test]
fn next_pending_skips_addressed() {
    let mut ring = PendingRing::new();
    let mut e1 = sample_entry(1);
    let e2 = sample_entry(2);

    // Claim e1 so it is no longer pending
    e1.try_claim(OrderStatus::Pending, OrderStatus::Addressed);

    ring.push(e1);
    ring.push(e2);

    let next = ring.next_pending().expect("should find e2");
    assert_eq!(next.seq, 2);
}

#[test]
fn remove_by_seq() {
    let mut ring = PendingRing::new();
    ring.push(sample_entry(1));
    ring.push(sample_entry(2));
    ring.push(sample_entry(3));

    assert!(ring.remove(2));
    assert_eq!(ring.len(), 2);
    assert!(!ring.remove(2)); // already removed
}

#[test]
fn snapshot_returns_all() {
    let mut ring = PendingRing::new();
    for i in 1..=5 {
        ring.push(sample_entry(i));
    }

    let snap = ring.snapshot();
    assert_eq!(snap.len(), 5);
    assert_eq!(snap[0].seq, 1);
    assert_eq!(snap[4].seq, 5);
}

#[test]
fn gc_terminal_removes_handled() {
    let mut ring = PendingRing::new();
    let mut e1 = sample_entry(1);
    let e2 = sample_entry(2);
    let mut e3 = sample_entry(3);

    e1.try_claim(OrderStatus::Pending, OrderStatus::Addressed);
    e3.try_claim(OrderStatus::Pending, OrderStatus::Unaddressed);
    e3.try_claim(OrderStatus::Unaddressed, OrderStatus::FinallyHandled);

    ring.push(e1);
    ring.push(e2);
    ring.push(e3);

    let removed = ring.gc_terminal();
    assert_eq!(removed, 2); // e1 (Addressed) and e3 (FinallyHandled)
    assert_eq!(ring.len(), 1); // only e2 (Pending) remains
    assert_eq!(ring.snapshot()[0].seq, 2);
}

#[test]
fn snapshot_is_in_order_of_the_numbers() {
    let mut ring = PendingRing::with_capacity(4);
    for seq in [7u64, 3, 9, 1] {
        ring.push(sample_entry(seq));
    }
    let seqs: Vec<u64> = ring.snapshot().iter().map(|e| e.seq).collect();
    assert_eq!(seqs, vec![1, 3, 7, 9]);
    assert_eq!(ring.get(7).unwrap().seq, 7);
    assert!(ring.get(8).is_none());
}

#[test]
fn pushing_a_number_again_replaces_the_order() {
    let mut ring = PendingRing::default();
    ring.push(sample_entry(1));
    let mut again = sample_entry(1);
    again.try_claim(OrderStatus::Pending, OrderStatus::Addressed);
    ring.push(again);
    assert_eq!(ring.len(), 1);
    assert!(ring.next_pending().is_none());
    assert!(ring.remove(1));
    assert!(ring.is_empty());
}

#[test]
fn one_claim_wins_in_the_ring() {
    let mut ring = PendingRing::new();
    ring.push(sample_entry(1));
    assert!(ring.try_claim(1, OrderStatus::Pending, OrderStatus::Addressed));
    assert!(!ring.try_claim(1, OrderStatus::Pending, OrderStatus::Unaddressed));
    assert!(!ring.try_claim(2, OrderStatus::Pending, OrderStatus::Addressed));
    assert_eq!(ring.get(1).unwrap().load_status(), OrderStatus::Addressed);
    assert_eq!(ring.len(), 1);
}

fn sample_cmd() -> InboundCommand {
    InboundCommand::NewOrder {
        account: AccountId(1),
        client_order_id: ClientOrderId::new(42),
        symbol: Symbol(0),
        side: Side::Buy,
        price: Price(100_00000000),
        qty: Qty(10_00000000),
        order_type: OrderType::Limit,
        time_in_force: TimeInForce::Gtc,
    }
}

/// Writes to two logs that are plain vectors.
fn write(
    dl: &mut DualLog,
    logs: &mut (Vec<SequencedCommand>, Vec<SequencedCommand>),
    ring: &mut PendingRing,
) -> LogEntry {
    let (entry, record) = dl.begin_write(sample_cmd(), 5);
    logs.0.push(record);
    logs.1.push(record);
    dl.finish_write::<&str>(entry, Ok(()), Ok(()), ring)
        .expect("dual write failed")
}

#[test]
fn write_populates_both_logs_and_pending_ring() {
    let mut ring = PendingRing::new();
    let mut logs = (Vec::new(), Vec::new());
    let mut dl = DualLog::open(0, 0);

    let entry = write(&mut dl, &mut logs, &mut ring);

    // Entry should be Pending
    assert_eq!(entry.load_status(), OrderStatus::Pending);
    assert_eq!(entry.seq, 1);

    // Pending ring should have it
    assert_eq!(ring.len(), 1);

    // Both logs should have the same sequence
    let (seq_a, seq_b) = dl.last_seqs();
    assert_eq!(seq_a, 1);
    assert_eq!(seq_b, 1);
    assert_eq!(logs.0, logs.1);
    assert_eq!(logs.0[0].seq, 1);
    assert_eq!(logs.0[0].ts_ns, 5);
}

#[test]
fn sequence_numbers_are_monotonic() {
    let mut ring = PendingRing::new();
    let mut logs = (Vec::new(), Vec::new());
    let mut dl = DualLog::open(0, 0);

    let e1 = write(&mut dl, &mut logs, &mut ring);
    let e2 = write(&mut dl, &mut logs, &mut ring);
    let e3 = write(&mut dl, &mut logs, &mut ring);

    assert_eq!(e1.seq, 1);
    assert_eq!(e2.seq, 2);
    assert_eq!(e3.seq, 3);
    assert_eq!(ring.len(), 3);
    assert_eq!(dl.current_seq(), 3);
}

#[test]
fn numbers_go_on_after_the_longer_log() {
    let mut dl = DualLog::open(17, 20);
    assert_eq!(dl.current_seq(), 20);
    assert_eq!(dl.last_seqs(), (17, 20));
    assert_eq!(dl.begin_write(sample_cmd(), 0).0.seq, 21);
}

#[test]
fn a_failed_write_leaves_nothing_in_flight() {
    let mut ring = PendingRing::new();
    let mut dl = DualLog::open(4, 4);
    let (entry, _) = dl.begin_write(sample_cmd(), 0);
    let e = dl
        .finish_write(entry, Err("disk a"), Ok(()), &mut ring)
        .unwrap_err();
    assert_eq!(e, DualLogError::LogAFailed("disk a"));
    assert_eq!(e.undo(), Some(WhichLog::LogB));

    let (entry, _) = dl.begin_write(sample_cmd(), 0);
    let e = dl
        .finish_write(entry, Ok(()), Err("disk b"), &mut ring)
        .unwrap_err();
    assert_eq!(e, DualLogError::LogBFailed("disk b"));
    assert_eq!(e.undo(), Some(WhichLog::LogA));

    let (entry, _) = dl.begin_write(sample_cmd(), 0);
    let e = dl
        .finish_write(entry, Err("a"), Err("b"), &mut ring)
        .unwrap_err();
    assert_eq!(e, DualLogError::BothFailed { a: "a", b: "b" });
    assert_eq!(e.undo(), None);

    assert!(ring.is_empty());
    assert_eq!(dl.last_seqs(), (4, 4));
    // The numbers are used up all the same.
    assert_eq!(dl.current_seq(), 7);
}

const SYMBOL: Symbol = Symbol(0);

fn test_book_configs() -> Vec<BookConfig> {
    vec![BookConfig {
        symbol: SYMBOL,
        tick_floor: Price(0),
        num_ticks: 1024,
        arena_capacity: 256,
    }]
}

fn order_entry(seq: u64, side: Side, price: i64, account: u64, symbol: Symbol) -> LogEntry {
    LogEntry::new(
        seq,
        0,
        InboundCommand::NewOrder {
            account: AccountId(account),
            client_order_id: ClientOrderId::new(seq),
            symbol,
            side,
            price: Price(price),
            qty: Qty(10),
            order_type: OrderType::Limit,
            time_in_force: TimeInForce::Gtc,
        },
    )
}

fn escalate(entry: &mut LogEntry) {
    assert!(entry.try_claim(OrderStatus::Pending, OrderStatus::Unaddressed));
}

#[test]
fn process_single_matches_and_records_fill() {
    let mut ring = PendingRing::new();
    let mut books = build_books(&test_book_configs());

    // Rest a sell first (account 1).
    let mut resting = order_entry(1, Side::Sell, 100, 1, SYMBOL);
    resting.try_claim(OrderStatus::Pending, OrderStatus::Unaddressed);
    ring.push(resting);
    assert!(process_single(&mut resting, &mut ring, &mut books));

    // Escalated buy from a different account crosses it.
    let mut aggressor = order_entry(2, Side::Buy, 100, 2, SYMBOL);
    aggressor.try_claim(OrderStatus::Pending, OrderStatus::Unaddressed);
    ring.push(aggressor);
    assert!(process_single(&mut aggressor, &mut ring, &mut books));

    assert_eq!(aggressor.load_status(), OrderStatus::FinallyHandled);
    assert_eq!(aggressor.fill_price, 100);
    assert_eq!(aggressor.filled_qty, 10);
    assert_eq!(aggressor.handled_by, 2);
    assert!(ring.is_empty());
}

#[test]
fn process_single_skips_addressed() {
    let mut ring = PendingRing::new();
    let mut books = build_books(&test_book_configs());
    let mut entry = order_entry(1, Side::Buy, 100, 1, SYMBOL);
    // Primary already claimed it
    entry.try_claim(OrderStatus::Pending, OrderStatus::Addressed);

    assert!(!process_single(&mut entry, &mut ring, &mut books));
}

#[test]
fn process_single_skips_pending() {
    let mut ring = PendingRing::new();
    let mut books = build_books(&test_book_configs());
    let mut entry = order_entry(1, Side::Buy, 100, 1, SYMBOL);
    // Still pending: not for the second engine
    assert!(!process_single(&mut entry, &mut ring, &mut books));
}

/// Two workers with their own books share the entries; each entry goes to one
/// of them.
#[test]
fn worker_pool_processes_escalated_orders() {
    let mut ring = PendingRing::new();
    let config = SecondEngineConfig {
        worker_count: 2,
        book_configs: test_book_configs(),
    };
    let mut workers: Vec<BookSet> = (0..config.worker_count)
        .map(|_| build_books(&config.book_configs))
        .collect();
    let mut metrics = SecondEngineMetrics::default();

    let mut queue = Vec::new();
    for i in 1..=10 {
        let mut entry = order_entry(i, Side::Buy, 100, 1, SYMBOL);
        entry.try_claim(OrderStatus::Pending, OrderStatus::Unaddressed);
        ring.push(entry);
        queue.push(entry);
    }
    for (i, entry) in queue.iter_mut().enumerate() {
        let books = &mut workers[i % 2];
        worker_step(entry, &mut ring, &mut metrics, books, 9);
    }

    // All entries should have been processed
    assert!(ring.is_empty(), "ring should be empty after processing");
    assert_eq!(metrics.orders_processed, 10);
    assert_eq!(metrics.orders_received, 10);
    assert_eq!(metrics.cas_failures, 0);
    assert!(queue.iter().all(|e| e.timestamp_out == 9));
}

#[test]
fn an_order_is_processed_once() {
    let mut ring = PendingRing::new();
    let mut books = build_books(&test_book_configs());
    let mut metrics = SecondEngineMetrics::default();
    let mut entry = order_entry(1, Side::Buy, 100, 1, SYMBOL);
    escalate(&mut entry);
    ring.push(entry);
    worker_step(&mut entry, &mut ring, &mut metrics, &mut books, 1);
    let done = entry;
    worker_step(&mut entry, &mut ring, &mut metrics, &mut books, 2);
    assert_eq!(entry.timestamp_out, done.timestamp_out);
    assert_eq!(metrics.orders_processed, 1);
    assert_eq!(metrics.cas_failures, 1);
    assert_eq!(books.get(SYMBOL).unwrap().open_order_count(), 1);
}

#[test]
fn unknown_symbol_is_counted() {
    let mut ring = PendingRing::new();
    let mut books = build_books(&test_book_configs());
    let mut metrics = SecondEngineMetrics::default();
    let mut entry = order_entry(1, Side::Buy, 100, 1, Symbol(9));
    escalate(&mut entry);
    worker_step(&mut entry, &mut ring, &mut metrics, &mut books, 1);
    assert_eq!(metrics.unknown_symbol, 1);
    assert_eq!(metrics.orders_processed, 1);
    assert_eq!(entry.load_status(), OrderStatus::FinallyHandled);
    assert_eq!(books.get(SYMBOL).unwrap().open_order_count(), 0);
}

#[test]
fn liquidation_takes_all_orders_of_one_account() {
    let mut books = build_books(&test_book_configs());
    for (seq, side, price, account) in [
        (1, Side::Buy, 90, 1),
        (2, Side::Buy, 91, 2),
        (3, Side::Buy, 91, 1),
        (4, Side::Sell, 110, 1),
        (5, Side::Sell, 111, 2),
    ] {
        apply_escalated(&order_entry(seq, side, price, account, SYMBOL), &mut books);
    }
    let book = books.get(SYMBOL).unwrap();
    assert_eq!(
        book.open_order_ids_for_account(AccountId(1)),
        vec![OrderId(3), OrderId(1), OrderId(4)]
    );
    let liquidate = LogEntry::new(
        6,
        0,
        InboundCommand::Liquidate {
            symbol: SYMBOL,
            account: AccountId(1),
        },
    );
    let (fill, known) = apply_escalated(&liquidate, &mut books);
    assert!(known);
    assert_eq!((fill.price, fill.qty), (0, 0));
    let book = books.get(SYMBOL).unwrap();
    assert!(book.open_order_ids_for_account(AccountId(1)).is_empty());
    assert_eq!(book.best_bid(), Some(Price(91)));
    assert_eq!(book.best_ask(), Some(Price(111)));
    assert_eq!(book.open_order_count(), 2);
}

#[test]
fn cancel_is_sent_to_every_book() {
    let mut configs = test_book_configs();
    configs.push(BookConfig {
        symbol: Symbol(1),
        ..configs[0]
    });
    let mut books = build_books(&configs);
    assert_eq!(books.len(), 2);
    apply_escalated(&order_entry(1, Side::Buy, 90, 1, SYMBOL), &mut books);
    apply_escalated(&order_entry(2, Side::Buy, 90, 1, Symbol(1)), &mut books);
    let cancel = LogEntry::new(
        3,
        0,
        InboundCommand::Cancel {
            account: AccountId(1),
            order_id: OrderId(2),
        },
    );
    assert!(apply_escalated(&cancel, &mut books).1);
    assert_eq!(books.get(SYMBOL).unwrap().open_order_count(), 1);
    assert_eq!(books.get(Symbol(1)).unwrap().open_order_count(), 0);
    let freeze = LogEntry::new(
        4,
        0,
        InboundCommand::FreezeAccount {
            account: AccountId(1),
        },
    );
    assert!(apply_escalated(&freeze, &mut books).1);
    assert_eq!(books.get(SYMBOL).unwrap().open_order_count(), 1);
}

#[test]
fn the_last_configuration_of_a_symbol_counts() {
    let mut configs = test_book_configs();
    configs.push(BookConfig {
        num_ticks: 10,
        ..configs[0]
    });
    let books = build_books(&configs);
    assert_eq!(books.len(), 1);
    assert_eq!(books.get(SYMBOL).unwrap().price_to_idx(Price(10)), None);
    assert!(books.get(Symbol(5)).is_none());
    let config = SecondEngineConfig::default();
    assert_eq!(config.worker_count, 8);
    assert!(config.book_configs.is_empty());
}

#[test]
fn fills_are_added_up_for_the_aggressor_only() {
    let trade = |price: i64, qty: u64, taker: u64| EngineEvent::Trade {
        seq: 1,
        ts_ns: 0,
        symbol: SYMBOL,
        price: Price(price),
        qty: Qty(qty),
        maker_order: OrderId(1),
        taker_order: OrderId(taker),
        maker_order_id: OrderId(1),
        taker_order_id: OrderId(taker),
        maker_acct: AccountId(1),
        taker_acct: AccountId(2),
        maker_side: Side::Buy,
        maker_remaining_qty: Qty(0),
        taker_remaining_qty: Qty(0),
    };
    let events = vec![trade(100, 3, 7), trade(101, 4, 8), trade(102, 5, 7)];
    let fill = accumulate_fill(&events, OrderId(7));
    assert_eq!((fill.price, fill.qty), (102, 8));
    let none = accumulate_fill(&events, OrderId(9));
    assert_eq!((none.price, none.qty), (0, 0));
}

#[test]
fn a_handled_entry_is_left_alone_even_if_it_could_not_be_booked() {
    let mut books = build_books(&test_book_configs());
    let mut pending = PendingRing::new();
    apply_escalated(&order_entry(1, Side::Buy, 90, 1, SYMBOL), &mut books);
    // The number is taken, but the entry is not escalated any more.
    let mut entry = order_entry(1, Side::Buy, 91, 2, SYMBOL);
    let first = entry.load_status();
    assert!(entry.try_claim(first, OrderStatus::FinallyHandled));
    assert!(!process_single(&mut entry, &mut pending, &mut books));
    assert_eq!(entry.load_status(), OrderStatus::FinallyHandled);
    assert_eq!(entry.filled_qty, 0);
    let mut metrics = SecondEngineMetrics::default();
    worker_step(&mut entry, &mut pending, &mut metrics, &mut books, 5);
    assert_eq!(metrics.cas_failures, 1);
    assert_eq!(metrics.orders_processed, 0);
    assert_eq!(books.get(SYMBOL).unwrap().open_order_count(), 1);
}

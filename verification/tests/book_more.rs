//! More of the order book: fill or kill, capacity, liquidation, and
//! comparisons with a simple matcher.

use rand::{rngs::StdRng, Rng, SeedableRng};
use std::collections::{BTreeMap, HashMap};

use match_risk_engine::core_types::commands::{
    InboundCommand, OrderType, SequencedCommand, TimeInForce,
};
use match_risk_engine::core_types::events::{EngineEvent, RejectReason};
use match_risk_engine::core_types::ids::{AccountId, ClientOrderId, OrderId, Symbol};
use match_risk_engine::core_types::price::Price;
use match_risk_engine::core_types::qty::Qty;
use match_risk_engine::core_types::side::Side;
use match_risk_engine::order_book::book::{BookConfig, OrderBook};

const SYM: Symbol = Symbol(0);
const TICK_FLOOR: i64 = 10_000;
const NUM_TICKS: usize = 200;

fn make_book(arena_capacity: usize) -> OrderBook {
    OrderBook::new(BookConfig {
        symbol: SYM,
        tick_floor: Price(TICK_FLOOR),
        num_ticks: NUM_TICKS,
        arena_capacity,
    })
}

fn order(
    seq: u64,
    account: u64,
    side: Side,
    price: i64,
    qty: u64,
    tif: TimeInForce,
) -> SequencedCommand {
    SequencedCommand {
        seq,
        ts_ns: seq * 1000,
        cmd: InboundCommand::NewOrder {
            account: AccountId(account),
            client_order_id: ClientOrderId::new(0),
            symbol: SYM,
            side,
            price: Price(price),
            qty: Qty(qty),
            order_type: OrderType::Limit,
            time_in_force: tif,
        },
    }
}

fn total_filled(events: &[EngineEvent]) -> u64 {
    events
        .iter()
        .map(|e| {
            if let EngineEvent::Trade { qty, .. } = e {
                qty.0
            } else {
                0
            }
        })
        .sum()
}

fn reason(events: &[EngineEvent]) -> Option<RejectReason> {
    events.iter().find_map(|e| match e {
        EngineEvent::Rejected { reason, .. } => Some(*reason),
        _ => None,
    })
}

#[test]
fn fill_or_kill_fills_completely() {
    let mut book = make_book(64);
    book.apply(order(1, 1, Side::Sell, 10_010, 5, TimeInForce::Gtc));
    book.apply(order(2, 1, Side::Sell, 10_011, 5, TimeInForce::Gtc));
    let evs = book
        .apply(order(3, 2, Side::Buy, 10_011, 10, TimeInForce::Fok))
        .into_vec();
    assert_eq!(total_filled(&evs), 10);
    assert_eq!(book.open_order_count(), 0);
}

#[test]
fn fill_or_kill_does_nothing_if_it_cannot_fill() {
    let mut book = make_book(64);
    book.apply(order(1, 1, Side::Sell, 10_010, 5, TimeInForce::Gtc));
    book.apply(order(2, 2, Side::Sell, 10_010, 5, TimeInForce::Gtc));
    // Enough in total, but half of it belongs to the same account.
    let evs = book
        .apply(order(3, 2, Side::Buy, 10_010, 10, TimeInForce::Fok))
        .into_vec();
    assert_eq!(reason(&evs), Some(RejectReason::FokNotFullyFillable));
    assert_eq!(evs.len(), 1);
    assert_eq!(book.ask_qty_at(Price(10_010)), Qty(10));
    assert_eq!(book.open_order_count(), 2);
}

#[test]
fn market_orders_are_not_supported() {
    let mut book = make_book(64);
    let mut cmd = order(1, 1, Side::Buy, 10_010, 5, TimeInForce::Gtc);
    if let InboundCommand::NewOrder { order_type, .. } = &mut cmd.cmd {
        *order_type = OrderType::Market;
    }
    let evs = book.apply(cmd).into_vec();
    assert_eq!(reason(&evs), Some(RejectReason::UnsupportedOrderType));
    assert_eq!(book.open_order_count(), 0);
}

#[test]
fn full_book_takes_no_more_resting_orders_but_still_matches() {
    let mut book = make_book(64);
    book.apply_within(order(1, 1, Side::Sell, 10_010, 5, TimeInForce::Gtc), 2);
    book.apply_within(order(2, 1, Side::Sell, 10_011, 5, TimeInForce::Gtc), 2);
    let evs = book
        .apply_within(order(3, 1, Side::Sell, 10_012, 5, TimeInForce::Gtc), 2)
        .into_vec();
    assert_eq!(reason(&evs), Some(RejectReason::ArenaFull));
    assert_eq!(book.open_order_count(), 2);

    // Fills one, and the rest of it takes the place.
    let evs = book
        .apply_within(order(4, 2, Side::Buy, 10_010, 7, TimeInForce::Gtc), 2)
        .into_vec();
    assert_eq!(total_filled(&evs), 5);
    assert_eq!(reason(&evs), None);
    assert_eq!(book.bid_qty_at(Price(10_010)), Qty(2));
    assert_eq!(book.open_order_count(), 2);
}

#[test]
fn reserved_room_is_there() {
    let mut book = make_book(10);
    for seq in 1..=10 {
        let evs = book
            .apply(order(seq, 1, Side::Buy, 10_000, 1, TimeInForce::Gtc))
            .into_vec();
        assert_eq!(reason(&evs), None);
    }
    assert_eq!(book.open_order_count(), 10);
    assert_eq!(book.bid_qty_at(Price(10_000)), Qty(10));
}

#[test]
fn book_ignores_liquidation_and_freezing() {
    let mut book = make_book(10);
    book.apply(order(1, 1, Side::Buy, 10_000, 1, TimeInForce::Gtc));
    for cmd in [
        InboundCommand::Liquidate {
            symbol: SYM,
            account: AccountId(1),
        },
        InboundCommand::FreezeAccount {
            account: AccountId(1),
        },
    ] {
        let evs = book.apply(SequencedCommand {
            seq: 2,
            ts_ns: 0,
            cmd,
        });
        assert!(evs.into_vec().is_empty());
    }
    assert_eq!(book.open_order_count(), 1);
    assert_eq!(book.cancel_account(3, 0, AccountId(1)), vec![OrderId(1)]);
    assert_eq!(book.open_order_count(), 0);
}

#[test]
fn cancel_undoes_a_resting_order() {
    let mut book = make_book(10);
    book.apply(order(1, 1, Side::Buy, 10_005, 4, TimeInForce::Gtc));
    book.apply(order(2, 2, Side::Buy, 10_006, 4, TimeInForce::Gtc));
    assert_eq!(book.get_order(OrderId(2)).unwrap().price, Price(10_006));
    let evs = book
        .apply(SequencedCommand {
            seq: 3,
            ts_ns: 0,
            cmd: InboundCommand::Cancel {
                account: AccountId(2),
                order_id: OrderId(2),
            },
        })
        .into_vec();
    assert!(matches!(
        evs[0],
        EngineEvent::Cancelled {
            order_id: OrderId(2),
            ..
        }
    ));
    assert!(book.get_order(OrderId(2)).is_none());
    assert_eq!(evs.len(), 1);
    assert_eq!(book.best_bid(), Some(Price(10_005)));
    assert_eq!(book.best_ask(), None);
    assert_eq!(book.open_order_count(), 1);
    assert_eq!(book.bid_qty_at(Price(10_006)), Qty(0));
    assert_eq!(book.bid_qty_at(Price(10_005)), Qty(4));
    // A second time there is nothing to cancel.
    let evs = book
        .apply(SequencedCommand {
            seq: 4,
            ts_ns: 0,
            cmd: InboundCommand::Cancel {
                account: AccountId(2),
                order_id: OrderId(2),
            },
        })
        .into_vec();
    assert_eq!(evs.len(), 1);
    assert_eq!(reason(&evs), Some(RejectReason::OrderNotFound));
    assert_eq!(book.open_order_count(), 1);
}

#[test]
fn can_take_tells_what_would_not_fit() {
    let mut book = make_book(10);
    let big = order(1, 1, Side::Buy, 10_000, u64::MAX, TimeInForce::Gtc);
    assert!(book.can_take(&big));
    book.apply(big);
    // The same number again, and a quantity that cannot be added up.
    assert!(!book.can_take(&order(1, 1, Side::Buy, 10_001, 1, TimeInForce::Gtc)));
    assert!(!book.can_take(&order(2, 1, Side::Buy, 10_000, 1, TimeInForce::Gtc)));
    assert!(book.can_take(&order(2, 1, Side::Buy, 10_001, 1, TimeInForce::Gtc)));
    // Neither matters for an order of which nothing would rest.
    let widest = order(1, 2, Side::Buy, 10_000, u64::MAX, TimeInForce::Ioc);
    assert!(book.can_take(&widest));
    assert_eq!(reason(&book.apply(widest).into_vec()), Some(RejectReason::IocNoMatch));
    let nothing = order(1, 2, Side::Buy, 10_000, 0, TimeInForce::Gtc);
    assert!(book.can_take(&nothing));
    let sell = order(1, 2, Side::Sell, 10_000, 5, TimeInForce::Gtc);
    assert!(book.can_take(&sell));
    assert_eq!(total_filled(&book.apply(sell).into_vec()), 5);
    // Only what is left after matching has to fit.
    book.apply(order(3, 2, Side::Sell, 10_002, 3, TimeInForce::Gtc));
    book.apply(order(4, 1, Side::Buy, 10_001, u64::MAX - 2, TimeInForce::Gtc));
    assert!(!book.can_take(&order(5, 1, Side::Buy, 10_001, 3, TimeInForce::Gtc)));
    book.apply(SequencedCommand {
        seq: 6,
        ts_ns: 0,
        cmd: InboundCommand::Cancel {
            account: AccountId(2),
            order_id: OrderId(3),
        },
    });
    book.apply(order(7, 2, Side::Sell, 10_002, 3, TimeInForce::Gtc));
    let five = order(8, 1, Side::Buy, 10_002, 5, TimeInForce::Gtc);
    assert!(book.can_take(&five));
    assert_eq!(total_filled(&book.apply(five).into_vec()), 3);
    assert_eq!(book.bid_qty_at(Price(10_002)), Qty(2));
}

#[test]
fn ladder_indices() {
    let book = make_book(1);
    assert_eq!(book.price_to_idx(Price(10_000)), Some(0));
    assert_eq!(book.price_to_idx(Price(10_199)), Some(199));
    assert_eq!(book.price_to_idx(Price(10_200)), None);
    assert_eq!(book.price_to_idx(Price(9_999)), None);
    assert_eq!(book.idx_to_price(7), Price(10_007));
    assert_eq!(book.symbol(), SYM);
}

/// A simple book: a map by price and sequence number. With `prevent` set, an
/// account does not trade with itself; its resting order is cancelled.
struct RefBook {
    bids: BTreeMap<(i64, u64), (OrderId, AccountId, Qty)>,
    asks: BTreeMap<(i64, u64), (OrderId, AccountId, Qty)>,
    index: HashMap<OrderId, (Side, (i64, u64))>,
    prevent: bool,
}

impl RefBook {
    fn new(prevent: bool) -> Self {
        Self {
            bids: BTreeMap::new(),
            asks: BTreeMap::new(),
            index: HashMap::new(),
            prevent,
        }
    }

    fn apply(&mut self, cmd: &SequencedCommand) -> u64 {
        match &cmd.cmd {
            InboundCommand::NewOrder {
                side,
                price,
                qty,
                account,
                time_in_force,
                ..
            } => self.new_order(cmd.seq, *side, *price, *qty, *account, *time_in_force),
            InboundCommand::Cancel { order_id, .. } => {
                if let Some((side, key)) = self.index.remove(order_id) {
                    match side {
                        Side::Buy => self.bids.remove(&key),
                        Side::Sell => self.asks.remove(&key),
                    };
                }
                0
            }
            _ => 0,
        }
    }

    fn new_order(
        &mut self,
        seq: u64,
        side: Side,
        price: Price,
        qty: Qty,
        account: AccountId,
        tif: TimeInForce,
    ) -> u64 {
        let mut left = qty.0;
        let mut filled = 0u64;
        while left > 0 {
            let key = match side {
                Side::Buy => match self.asks.iter().next() {
                    Some((&k, _)) if price.0 >= k.0 => k,
                    _ => break,
                },
                Side::Sell => match self.bids.iter().next_back() {
                    // The oldest order at the best price.
                    Some((&(best, _), _)) if price.0 <= best => {
                        *self.bids.range((best, 0)..=(best, u64::MAX)).next().unwrap().0
                    }
                    _ => break,
                },
            };
            let makers = match side {
                Side::Buy => &mut self.asks,
                Side::Sell => &mut self.bids,
            };
            let entry = makers.get_mut(&key).unwrap();
            let id = entry.0;
            if self.prevent && entry.1 == account {
                makers.remove(&key);
                self.index.remove(&id);
                continue;
            }
            let fill = left.min(entry.2 .0);
            entry.2 = Qty(entry.2 .0 - fill);
            left -= fill;
            filled += fill;
            if entry.2 .0 == 0 {
                makers.remove(&key);
                self.index.remove(&id);
            }
        }
        if left > 0 && tif == TimeInForce::Gtc {
            let key = (price.0, seq);
            let value = (OrderId(seq), account, Qty(left));
            match side {
                Side::Buy => self.bids.insert(key, value),
                Side::Sell => self.asks.insert(key, value),
            };
            self.index.insert(OrderId(seq), (side, key));
        }
        filled
    }
}

fn gen_commands(rng: &mut StdRng, n: usize, own_account_each: bool) -> Vec<SequencedCommand> {
    let mut cmds = Vec::with_capacity(n);
    let mut live: Vec<(u64, AccountId)> = Vec::new();
    let accounts = [AccountId(1), AccountId(2), AccountId(3)];

    for seq in 1..=(n as u64) {
        let action = rng.gen_range(0u8..4);
        let picked = accounts[rng.gen_range(0..accounts.len())];
        let account = if own_account_each {
            AccountId(seq)
        } else {
            picked
        };

        let cmd = if action < 2 || live.is_empty() {
            let side = if rng.gen_bool(0.5) {
                Side::Buy
            } else {
                Side::Sell
            };
            let price = TICK_FLOOR + rng.gen_range(0..(NUM_TICKS as i64));
            let qty = rng.gen_range(1..=20);
            let tif = if rng.gen_bool(0.2) {
                TimeInForce::Ioc
            } else {
                TimeInForce::Gtc
            };
            live.push((seq, account));
            order(seq, account.0, side, price, qty, tif).cmd
        } else {
            let idx = rng.gen_range(0..live.len());
            let (oid, acct) = live.swap_remove(idx);
            InboundCommand::Cancel {
                account: acct,
                order_id: OrderId(oid),
            }
        };
        cmds.push(SequencedCommand {
            seq,
            ts_ns: seq * 1000,
            cmd,
        });
    }
    cmds
}

fn run_one_trial(seed: u64, n_cmds: usize, prevent: bool) {
    let mut rng = StdRng::seed_from_u64(seed);
    let cmds = gen_commands(&mut rng, n_cmds, !prevent);

    let mut book = make_book(512);
    let mut reference = RefBook::new(prevent);

    for cmd in &cmds {
        assert!(book.can_take(cmd));
        let events = book.apply(*cmd).into_vec();
        let book_filled = total_filled(&events);
        let ref_filled = reference.apply(cmd);
        assert_eq!(
            book_filled, ref_filled,
            "seed={seed} seq={} book_filled={book_filled} ref_filled={ref_filled}\ncmd={:?}",
            cmd.seq, cmd.cmd,
        );
        assert_eq!(
            book.open_order_count(),
            reference.bids.len() + reference.asks.len()
        );
        assert_eq!(
            book.best_bid().map(|p| p.0),
            reference.bids.keys().next_back().map(|k| k.0)
        );
        assert_eq!(
            book.best_ask().map(|p| p.0),
            reference.asks.keys().next().map(|k| k.0)
        );
    }
}

const SEEDS: [u64; 7] = [0, 1, 42, 1337, 0xDEAD_BEEF, 999_999, u64::MAX / 3];

/// On each seed once with self-trade prevention in the reference, and once
/// without it, where each order has an account of its own.
#[test]
fn differential_fuzz_fixed_seeds() {
    for seed in SEEDS {
        run_one_trial(seed, 500, true);
        run_one_trial(seed, 500, false);
    }
}

#[test]
fn differential_fuzz_soak() {
    let mut rng = StdRng::seed_from_u64(0xCAFE_F00D);
    for _ in 0..200 {
        let seed: u64 = rng.gen();
        run_one_trial(seed, 2_000, true);
        run_one_trial(seed, 2_000, false);
    }
}

#[test]
fn replaying_the_same_commands_gives_the_same_events() {
    let mut rng = StdRng::seed_from_u64(7);
    let cmds = gen_commands(&mut rng, 300, false);
    let mut a = make_book(512);
    let mut b = make_book(512);
    for cmd in &cmds {
        let ea = a.apply(*cmd).into_vec();
        let eb = b.apply(*cmd).into_vec();
        assert_eq!(ea, eb);
    }
}

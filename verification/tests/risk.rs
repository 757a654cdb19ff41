//! Positions, margin and the order checks.

use std::collections::HashMap;

use match_risk_engine::account_state::{AccountRiskState, AccountRiskTable};
use match_risk_engine::core_types::commands::InboundCommand;
use match_risk_engine::core_types::commands::{NewOrder, OrderType, TimeInForce};
use match_risk_engine::core_types::events::EngineEvent;
use match_risk_engine::core_types::ids::{AccountId, ClientOrderId, InstrumentId, OrderId, Symbol};
use match_risk_engine::core_types::price::Price;
use match_risk_engine::core_types::qty::Qty;
use match_risk_engine::core_types::side::Side;
use match_risk_engine::matching_engine::risk_check::{
    check_new_order, RiskRejectReason, Tier0Limits,
};
use match_risk_engine::ring_buffer::spmc::spmc_queue;
use match_risk_engine::risk_engine::config::{
    tier0_order_check, RejectionReason, RiskLimits, ShardConfig,
};
use match_risk_engine::risk_engine::position::Position;
use match_risk_engine::risk_engine::shard::{RiskShard, FANOUT_CAP};
use match_risk_engine::risk_engine::tier0;

#[test]
fn open_long_then_close() {
    let mut pos = Position::default();
    pos.apply_fill(Side::Buy, Price(50_000_00000000), Qty(1_00000000)); // buy 1 BTC @ 50000
    assert_eq!(pos.net_qty, 1_00000000);
    assert_eq!(pos.avg_entry_price, 50_000_00000000);

    pos.apply_fill(Side::Sell, Price(51_000_00000000), Qty(1_00000000)); // sell 1 BTC @ 51000
    assert_eq!(pos.net_qty, 0);
    // realised pnl = (51000 - 50000) * 1e8 = 1000_00000000
    assert_eq!(pos.realised_pnl, 1_000_00000000);
}

#[test]
fn partial_close_then_flip() {
    let mut pos = Position::default();
    pos.apply_fill(Side::Buy, Price(100_00000000), Qty(3_00000000));
    pos.apply_fill(Side::Sell, Price(110_00000000), Qty(5_00000000));
    // net_qty should be -2 (short 2)
    assert_eq!(pos.net_qty, -2_00000000);
    // avg entry for the new short leg = 110
    assert_eq!(pos.avg_entry_price, 110_00000000);
}

#[test]
fn unrealised_pnl_long() {
    let mut pos = Position::default();
    pos.apply_fill(Side::Buy, Price(100_00000000), Qty(2_00000000)); // buy 2 @ 100
    // mark @ 120: pnl = (120-100)*2 = 40
    let upnl = pos.unrealised_pnl(Price(120_00000000));
    assert_eq!(upnl, 40_00000000);
}

#[test]
fn average_price_is_weighted_by_quantity() {
    let mut pos = Position::default();
    pos.apply_fill(Side::Buy, Price(100_00000000), Qty(1_00000000));
    pos.apply_fill(Side::Buy, Price(200_00000000), Qty(3_00000000));
    assert_eq!(pos.avg_entry_price, 175_00000000);
    assert_eq!(pos.net_qty, 4_00000000);
    assert_eq!(pos.realised_pnl, 0);
}

#[test]
fn short_gains_when_the_price_falls() {
    let mut pos = Position::default();
    pos.apply_fill(Side::Sell, Price(100_00000000), Qty(2_00000000));
    assert_eq!(pos.unrealised_pnl(Price(90_00000000)), 20_00000000);
    assert_eq!(pos.notional(Price(90_00000000)), 180_00000000);
    pos.apply_fill(Side::Buy, Price(90_00000000), Qty(2_00000000));
    assert_eq!(pos.realised_pnl, 20_00000000);
    assert_eq!(pos.unrealised_pnl(Price(1)), 0);
}

#[test]
fn both_sides_of_a_trade_gain_what_the_other_loses() {
    let mut a = Position::default();
    let mut b = Position::default();
    let (p1, p2) = (Price(100_00000000), Price(130_00000000));
    a.apply_fill(Side::Buy, p1, Qty(1_00000000));
    b.apply_fill(Side::Sell, p1, Qty(1_00000000));
    a.apply_fill(Side::Sell, p2, Qty(1_00000000));
    b.apply_fill(Side::Buy, p2, Qty(1_00000000));
    assert_eq!(a.realised_pnl, 30_00000000);
    assert_eq!(a.realised_pnl + b.realised_pnl, 0);
}

fn make_shard(n_accounts: usize) -> RiskShard {
    let config = ShardConfig::new(n_accounts);
    let mut shard = RiskShard::new(0..n_accounts as u64, config);
    // Seed each account with 10,000 USD balance (1e8 scale).
    for state in shard.states.iter_mut() {
        state.update(10_000_00000000, 0, false, false, 0, 0);
    }
    shard
}

fn trade_event(
    maker: AccountId,
    taker: AccountId,
    symbol: Symbol,
    price: Price,
    qty: Qty,
) -> EngineEvent {
    EngineEvent::Trade {
        seq: 1,
        ts_ns: 0,
        maker_acct: maker,
        taker_acct: taker,
        maker_side: Side::Buy,
        symbol,
        price,
        qty,
        maker_order: OrderId(1),
        taker_order: OrderId(2),
        maker_order_id: OrderId(1),
        taker_order_id: OrderId(2),
        maker_remaining_qty: Qty(0),
        taker_remaining_qty: Qty(0),
    }
}

#[test]
fn position_updates_on_fill() {
    let mut shard = make_shard(2);
    let marks = HashMap::new();

    let ev = trade_event(
        AccountId(0),
        AccountId(1),
        Symbol(0),
        Price(50_000_00000000),
        Qty(1_00000000),
    );

    let result = shard.process_event(ev, &marks);
    assert!(result.is_none(), "no liquidation expected");

    let pos = shard.position(AccountId(0), Symbol(0)).unwrap();
    assert_eq!(pos.net_qty, 1_00000000); // maker bought
    let pos1 = shard.position(AccountId(1), Symbol(0)).unwrap();
    assert_eq!(pos1.net_qty, -1_00000000); // taker sold
}

#[test]
fn liquidation_triggered_on_margin_breach() {
    let n = 1;
    let config = ShardConfig::new(n);
    let mut shard = RiskShard::new(0..1, config);
    // Give account 0 a tiny balance: 1 USD (1e8 scale).
    shard.states[0].update(1_00000000, 0, false, false, 0, 0);

    let marks = HashMap::new();

    // Buy a huge position: 100 BTC @ 50,000 USD, notional = 5,000,000 USD;
    // maintenance margin = 5%, required = 250,000 USD >> balance of 1 USD
    let ev = trade_event(
        AccountId(0),
        AccountId(0), // self-trade for simplicity in test
        Symbol(0),
        Price(50_000_00000000),
        Qty(100_00000000),
    );

    let result = shard.process_event(ev, &marks);
    assert!(
        matches!(
            result,
            Some(InboundCommand::Liquidate {
                account: AccountId(0),
                ..
            })
        ),
        "expected liquidation command"
    );
    // Account should be frozen after breach.
    let snap = shard.states[0].read();
    assert!(snap.frozen);
}

#[test]
fn margin_is_a_fraction_of_the_position_value() {
    let mut shard = make_shard(2);
    let marks = HashMap::new();
    let ev = trade_event(
        AccountId(0),
        AccountId(1),
        Symbol(0),
        Price(50_000_00000000),
        Qty(1_00000000),
    );
    assert!(shard.process_event(ev, &marks).is_none());
    // 5% of 50,000.
    assert_eq!(shard.states[0].used_margin, 2_500_00000000);
    assert_eq!(shard.states[0].balance, 10_000_00000000);
    assert!(!shard.states[0].frozen);
}

#[test]
fn accounts_of_other_shards_are_left_alone() {
    let mut shard = RiskShard::new(10..12, ShardConfig::new(2));
    for state in shard.states.iter_mut() {
        state.update(10_000_00000000, 0, false, false, 0, 0);
    }
    let marks = HashMap::new();
    let ev = trade_event(
        AccountId(10),
        AccountId(3),
        Symbol(0),
        Price(50_000_00000000),
        Qty(1_00000000),
    );
    assert!(shard.process_event(ev, &marks).is_none());
    assert!(shard.position(AccountId(10), Symbol(0)).is_some());
    assert!(shard.position(AccountId(3), Symbol(0)).is_none());
    assert_eq!(shard.states[1].read().used_margin, 0);
}

#[test]
fn shard_reads_events_from_its_ring() {
    let (mut p, mut consumers, mut ring) = spmc_queue::<EngineEvent, FANOUT_CAP>(1);
    let mut inbound = consumers.remove(0);
    let mut shard = make_shard(2);
    let marks = HashMap::new();
    assert!(shard.poll(&mut inbound, &mut ring, &marks).is_none());

    let ev = trade_event(
        AccountId(0),
        AccountId(1),
        Symbol(0),
        Price(50_000_00000000),
        Qty(100_00000000),
    );
    assert!(p.try_push(&mut ring, ev).is_ok());
    let cmd = shard.poll(&mut inbound, &mut ring, &marks).unwrap();
    assert!(matches!(
        cmd,
        Some(InboundCommand::Liquidate {
            account: AccountId(1),
            ..
        })
    ));
    assert!(shard.poll(&mut inbound, &mut ring, &marks).is_none());
}

fn mk_order(side: Side, qty: u64, price: u64) -> NewOrder {
    NewOrder {
        account_id: AccountId(1),
        instrument_id: InstrumentId(1),
        client_order_id: ClientOrderId::new(0),
        side,
        order_type: OrderType::Limit,
        price: Price::from_raw(price as i64),
        qty: Qty::from_raw(qty),
        time_in_force: TimeInForce::Gtc,
    }
}

#[test]
fn rejects_when_halted() {
    let mut state = AccountRiskState::default();
    state.set_halted(true);
    let limits = Tier0Limits::default();
    let order = mk_order(Side::Buy, 10, 100);

    let res = check_new_order(&order, AccountId(1), &limits, &state, None);
    assert_eq!(res, Err(RiskRejectReason::AccountHalted));
}

#[test]
fn rejects_qty_over_limit() {
    let state = AccountRiskState::default();
    let limits = Tier0Limits {
        max_order_qty: Qty::from_raw(5),
        ..Default::default()
    };
    let order = mk_order(Side::Buy, 10, 100);

    let res = check_new_order(&order, AccountId(1), &limits, &state, None);
    assert_eq!(res, Err(RiskRejectReason::MaxOrderQtyExceeded));
}

#[test]
fn rejects_notional_over_limit() {
    let state = AccountRiskState::default();
    let limits = Tier0Limits {
        max_order_notional: 500,
        ..Default::default()
    };
    let order = mk_order(Side::Buy, 10, 100); // notional = 1000

    let res = check_new_order(&order, AccountId(1), &limits, &state, None);
    assert_eq!(res, Err(RiskRejectReason::MaxOrderNotionalExceeded));
}

#[test]
fn rejects_price_out_of_band() {
    let state = AccountRiskState::default();
    let limits = Tier0Limits {
        price_band_bps: 100,
        ..Default::default()
    }; // 1%
    let order = mk_order(Side::Buy, 1, 110); // 10% away from 100

    let res = check_new_order(
        &order,
        AccountId(1),
        &limits,
        &state,
        Some(Price::from_raw(100)),
    );
    assert_eq!(res, Err(RiskRejectReason::PriceOutOfBand));
}

#[test]
fn rejects_position_limit() {
    let mut state = AccountRiskState::default();
    state.set_position(95);
    let limits = Tier0Limits {
        max_position_abs: 100,
        ..Default::default()
    };
    let order = mk_order(Side::Buy, 10, 100); // would go to 105

    let res = check_new_order(&order, AccountId(1), &limits, &state, None);
    assert_eq!(res, Err(RiskRejectReason::PositionLimitExceeded));
}

#[test]
fn accepts_within_limits() {
    let state = AccountRiskState::default();
    let limits = Tier0Limits::default();
    let order = mk_order(Side::Buy, 10, 100);

    let res = check_new_order(&order, AccountId(1), &limits, &state, None);
    assert!(res.is_ok());
}

#[test]
fn rejects_too_many_open_orders() {
    let mut state = AccountRiskState::default();
    state.open_order_count = 3;
    let limits = Tier0Limits {
        max_open_orders: 3,
        ..Default::default()
    };
    let order = mk_order(Side::Buy, 10, 100);
    let res = check_new_order(&order, AccountId(1), &limits, &state, None);
    assert_eq!(res, Err(RiskRejectReason::OpenOrderLimitExceeded));
}

#[test]
fn price_at_the_edge_of_the_band_is_accepted() {
    let state = AccountRiskState::default();
    let limits = Tier0Limits {
        price_band_bps: 1000,
        ..Default::default()
    };
    for (price, ok) in [(110, true), (90, true), (111, false), (89, false)] {
        let order = mk_order(Side::Sell, 1, price);
        let res = check_new_order(
            &order,
            AccountId(1),
            &limits,
            &state,
            Some(Price::from_raw(100)),
        );
        assert_eq!(res.is_ok(), ok, "price {price}");
    }
}

#[test]
fn static_check_names_what_is_wrong() {
    let limits = RiskLimits {
        max_order_notional: 1_000_00000000,
        ..RiskLimits::default()
    };
    let one = Qty(1_00000000);
    assert_eq!(tier0_order_check(Price(999_00000000), one, &limits), Ok(()));
    assert_eq!(
        tier0_order_check(Price(1001_00000000), one, &limits),
        Err(RejectionReason::NotionalTooLarge)
    );
    assert_eq!(
        tier0_order_check(Price(10_00000000), Qty(0), &limits),
        Err(RejectionReason::InvalidQty)
    );
    assert_eq!(
        tier0_order_check(Price(0), one, &limits),
        Err(RejectionReason::InvalidPrice)
    );
}

#[test]
fn gateway_check_needs_free_margin() {
    let limits = RiskLimits {
        max_order_notional: i64::MAX,
        ..RiskLimits::default()
    };
    let price = Price(1_000_00000000);
    let one = Qty(1_00000000);
    let mut state = AccountRiskState::default();
    // 10% of 1000 is needed.
    state.update(100_00000000, 0, false, false, 0, 0);
    assert_eq!(tier0::check(&state, &limits, price, one), Ok(()));
    state.update(100_00000000, 1, false, false, 0, 0);
    assert_eq!(
        tier0::check(&state, &limits, price, one),
        Err(RejectionReason::InsufficientMargin)
    );
    state.update(100_00000000, 0, true, false, 0, 0);
    assert_eq!(
        tier0::check(&state, &limits, price, one),
        Err(RejectionReason::AccountFrozen)
    );
}

#[test]
fn table_keeps_accounts_apart() {
    let mut table = AccountRiskTable::new(3);
    assert_eq!(table.len(), 3);
    table.get_mut(1).set_halted(true);
    table.get_mut(2).set_position(-5);
    assert!(!table.get(0).is_halted());
    assert!(table.get(1).is_halted());
    assert_eq!(table.get(2).position(), -5);
    assert_eq!(table.get(2).open_order_count(), 0);
}

#[test]
fn shard_refuses_positions_that_cannot_be_counted() {
    let mut shard = make_shard(2);
    let marks = HashMap::new();
    let huge = trade_event(
        AccountId(0),
        AccountId(1),
        Symbol(0),
        Price(1),
        Qty(i64::MAX as u64),
    );
    assert!(shard.can_process(&huge));
    shard.process_event(huge, &marks);
    assert!(!shard.can_process(&huge));
    let nothing = trade_event(AccountId(0), AccountId(1), Symbol(0), Price(1), Qty(0));
    assert!(!shard.can_process(&nothing));
    let foreign = trade_event(AccountId(7), AccountId(8), Symbol(0), Price(1), Qty(0));
    assert!(shard.can_process(&foreign));
}

fn check_at(price: i64, reference: i64, band: u32) -> Result<(), RiskRejectReason> {
    let limits = Tier0Limits {
        price_band_bps: band,
        max_order_qty: Qty(u64::MAX),
        max_order_notional: u64::MAX,
        ..Default::default()
    };
    let order = NewOrder {
        price: Price::from_raw(price),
        ..mk_order(Side::Buy, 1, 1)
    };
    check_new_order(
        &order,
        AccountId(1),
        &limits,
        &AccountRiskState::default(),
        Some(Price::from_raw(reference)),
    )
}

#[test]
fn fractions_of_a_basis_point_count() {
    let out = Err(RiskRejectReason::PriceOutOfBand);
    // 1.33 basis points away is more than 1, on either side.
    assert_eq!(check_at(15_002, 15_000, 1), out);
    assert_eq!(check_at(14_998, 15_000, 1), out);
    assert_eq!(check_at(15_001, 15_000, 1), Ok(()));
    assert_eq!(check_at(15_002, 15_000, 2), Ok(()));
    // No band, and references that no band can be measured by.
    assert_eq!(check_at(30_000, 15_000, 0), Ok(()));
    assert_eq!(check_at(15_002, 0, 1), Ok(()));
    assert_eq!(check_at(15_002, -15_000, 1), Ok(()));
    // The widest numbers.
    assert_eq!(check_at(i64::MAX, i64::MAX, u32::MAX), Ok(()));
    assert_eq!(check_at(i64::MIN, i64::MAX, 19_999), out);
    assert_eq!(check_at(i64::MIN, i64::MAX, 20_001), Ok(()));
}

#[test]
fn projected_positions_do_not_wrap() {
    let limits = Tier0Limits {
        max_order_qty: Qty(u64::MAX),
        max_order_notional: u64::MAX,
        max_position_abs: i64::MAX - 1,
        ..Default::default()
    };
    let mut state = AccountRiskState::default();
    let out = Err(RiskRejectReason::PositionLimitExceeded);
    for side in [Side::Buy, Side::Sell] {
        let order = mk_order(side, u64::MAX, 1);
        assert_eq!(
            check_new_order(&order, AccountId(1), &limits, &state, None),
            out
        );
    }
    // The lowest number of all is beyond every limit.
    state.set_position(i64::MIN);
    let widest = Tier0Limits {
        max_position_abs: i64::MAX,
        ..limits
    };
    let order = mk_order(Side::Sell, 1, 1);
    assert_eq!(
        check_new_order(&order, AccountId(1), &widest, &state, None),
        out
    );
    let order = mk_order(Side::Buy, 1, 1);
    assert_eq!(
        check_new_order(&order, AccountId(1), &widest, &state, None),
        Ok(())
    );
}

#[test]
fn standard_limits_are_scaled_like_prices() {
    let limits = RiskLimits::default();
    assert_eq!(limits.max_order_notional, 100_000_00000000);
    assert_eq!(limits.max_position_qty, 100_00000000);
    assert_eq!(limits.max_unrealised_loss, 10_000_00000000);
    assert_eq!(limits.initial_margin_fraction, 100_000);
    assert_eq!(limits.maintenance_margin_fraction, 50_000);
}

#[test]
fn notional_is_never_negative() {
    for side in [Side::Buy, Side::Sell] {
        let mut pos = Position::default();
        pos.apply_fill(side, Price(100_00000000), Qty(2_00000000));
        assert_eq!(pos.notional(Price(-90_00000000)), 180_00000000);
        assert_eq!(pos.notional(Price(90_00000000)), 180_00000000);
        assert_eq!(pos.notional(Price(i64::MIN)), i64::MAX);
    }
}

#[test]
fn shard_processes_whatever_fits_on_its_side() {
    let mut shard = make_shard(2);
    let marks = HashMap::new();
    let max = i64::MAX as u64;
    // The maker buys and the taker sells, each up to the limit.
    let event = trade_event(AccountId(0), AccountId(1), Symbol(0), Price(1), Qty(max));
    shard.process_event(event, &marks);
    assert_eq!(shard.config.account_count, 2);
    // The other way round fits; on one account both sides cancel out.
    let back = trade_event(AccountId(1), AccountId(0), Symbol(0), Price(1), Qty(max));
    assert!(shard.can_process(&back));
    let more = trade_event(AccountId(0), AccountId(1), Symbol(0), Price(1), Qty(1));
    assert!(!shard.can_process(&more));
    let own = trade_event(AccountId(1), AccountId(1), Symbol(0), Price(1), Qty(max));
    assert!(shard.can_process(&own));
    shard.process_event(own, &marks);
    assert_eq!(
        shard.position(AccountId(1), Symbol(0)).unwrap().net_qty,
        -i64::MAX
    );
}

#[test]
fn balance_is_deposit_plus_realised_after_a_run() {
    let mut shard = make_shard(2);
    let deposit: Vec<i64> = shard.states.iter().map(|s| s.balance).collect();
    let mut marks = HashMap::new();
    let one = 1_00000000;
    let run = [
        (0, 1, 0, 100, one),
        (0, 1, 1, 50, 2 * one),
        (1, 0, 0, 130, one),
        (1, 0, 1, 20, 3 * one),
        (0, 0, 0, 70, one),
        (1, 0, 0, 90, 2 * one),
    ];
    for (maker, taker, symbol, price, qty) in run {
        let price = Price(price * one as i64);
        marks.insert(symbol, price);
        let (maker, taker) = (AccountId(maker), AccountId(taker));
        let event = trade_event(maker, taker, Symbol(symbol), price, Qty(qty));
        assert!(shard.can_process(&event));
        shard.process_event(event, &marks);
        for (i, state) in shard.states.iter().enumerate() {
            let own = || {
                shard
                    .positions
                    .iter()
                    .filter(move |e| e.account == AccountId(i as u64))
            };
            let realised: i64 = own().map(|e| e.position.realised_pnl).sum();
            assert_eq!(state.balance, deposit[i] + realised);
            if AccountId(i as u64) == maker || AccountId(i as u64) == taker {
                let margin: i64 = own()
                    .filter(|e| e.position.net_qty != 0)
                    .map(|e| e.position.notional(marks[&e.symbol.0]) * 50_000 / 1_000_000)
                    .sum();
                assert_eq!(state.used_margin, margin);
            }
        }
    }
    assert!(shard.positions.iter().any(|e| e.position.realised_pnl != 0));
}

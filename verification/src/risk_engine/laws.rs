//! What the risk engine promises as a whole.

use crate::core_types::commands::InboundCommand;
use crate::core_types::events::EngineEvent;
use crate::core_types::ids::{AccountId, Symbol};
use crate::core_types::price::Price;
use crate::core_types::qty::Qty;
use crate::core_types::side::Side;
use crate::risk_engine::config::RiskLimits;
use crate::risk_engine::fixed;
use crate::risk_engine::position;
use crate::risk_engine::position::Position;
use crate::risk_engine::shard;
use crate::risk_engine::shard::{Leg, PositionEntry, ShardModel};
use vstd::prelude::*;

verus! {

/// Opening a position and closing it again leaves no position. What is left
/// is the difference between the two prices, times the quantity, in the
/// direction of the position.
pub proof fn law_open_then_close(side: Side, entry: Price, exit: Price, qty: Qty)
    requires
        0 < qty.0 <= i64::MAX,
    ensures
        ({
            let opened = Position::flat().after_fill(side, entry, qty);
            let closed = opened.after_fill(side.spec_opposite(), exit, qty);
            &&& opened.net_qty == position::signed(side, qty)
            &&& opened.avg_entry_price == entry.0
            &&& opened.realised_pnl == 0
            &&& closed.net_qty == 0
            &&& closed.avg_entry_price == 0
            &&& closed.realised_pnl == fixed::clamped(
                fixed::div_to_zero(
                    (exit.0 - entry.0) * position::signed(side, qty),
                    fixed::SCALE as int,
                ),
            )
        }),
{
    let d = exit.0 - entry.0;
    let q = qty.0 as int;
    assert(d * 1 * q == d * q && d * -1 * q == d * (-q)) by (nonlinear_arith);
}

/// A fill that adds to a position or opens one realises nothing.
pub proof fn law_growing_realises_nothing(p: Position, side: Side, price: Price, qty: Qty)
    requires
        !p.closes(side),
    ensures
        p.after_fill(side, price, qty).realised_pnl == p.realised_pnl,
{
}

/// The two sides of a trade are opposite: what one account gains in quantity
/// the other one loses.
pub proof fn law_trade_is_zero_sum(maker: Position, taker: Position, side: Side, qty: Qty)
    ensures
        maker.net_after(side, qty) + taker.net_after(side.spec_opposite(), qty) == maker.net_qty
            + taker.net_qty,
{
}

/// Changing one entry changes the sum of its account by the difference.
proof fn lemma_realised_update(entries: Seq<PositionEntry>, i: int, e: PositionEntry, a: AccountId)
    requires
        0 <= i < entries.len(),
        e.account == entries[i].account,
    ensures
        shard::realised_sum(entries.update(i, e), a) == shard::realised_sum(entries, a) + (
        if e.account == a {
            e.position.realised_pnl - entries[i].position.realised_pnl
        } else {
            0
        }),
    decreases entries.len(),
{
    let later = entries.update(i, e);
    if i == entries.len() - 1 {
        assert(later.drop_last() =~= entries.drop_last());
    } else {
        assert(later.drop_last() =~= entries.drop_last().update(i, e));
        lemma_realised_update(entries.drop_last(), i, e, a);
    }
}

/// The balance of an account is its deposits plus what its positions have
/// realised: a fill changes balance and realised profit by the same amount.
/// (A balance at the end of the range of its type stays there.)
pub proof fn law_balance_follows_realised_pnl(m: ShardModel, leg: Leg, marks: Map<u16, Price>)
    requires
        m.owns(leg.account),
        m.states.len() == m.end - m.start,
        ({
            let before = shard::position_in(m.positions, leg.account, leg.symbol);
            let after = before.after_fill(leg.side, leg.price, leg.qty);
            i64::MIN <= m.state_of(leg.account).balance + after.realised_pnl - before.realised_pnl
                <= i64::MAX
        }),
    ensures
        ({
            let later = m.book_leg(leg, marks);
            later.state_of(leg.account).balance - shard::realised_sum(later.positions, leg.account)
                == m.state_of(leg.account).balance - shard::realised_sum(
                m.positions,
                leg.account,
            )
        }),
{
    let i = shard::index_of(m.positions, leg.account, leg.symbol);
    shard::lemma_index_found(m.positions, leg.account, leg.symbol);
    let before = shard::position_in(m.positions, leg.account, leg.symbol);
    let after = before.after_fill(leg.side, leg.price, leg.qty);
    let e = PositionEntry { account: leg.account, symbol: leg.symbol, position: after };
    if i < m.positions.len() {
        lemma_realised_update(m.positions, i, e, leg.account);
    } else {
        assert(m.positions.push(e).drop_last() =~= m.positions);
    }
}

/// The balance of the leg's account stays within the range of its type.
pub open spec fn balance_fits(m: ShardModel, leg: Leg) -> bool {
    let before = shard::position_in(m.positions, leg.account, leg.symbol);
    let after = before.after_fill(leg.side, leg.price, leg.qty);
    m.owns(leg.account) ==> i64::MIN <= m.state_of(leg.account).balance + after.realised_pnl
        - before.realised_pnl <= i64::MAX
}

/// The balances of both accounts of a trade stay within the range of their
/// type.
pub open spec fn balances_fit(m: ShardModel, event: EngineEvent, marks: Map<u16, Price>) -> bool {
    event is Trade ==> {
        &&& balance_fits(m, shard::maker_leg(event))
        &&& balance_fits(m.book_leg(shard::maker_leg(event), marks), shard::taker_leg(event))
    }
}

/// An event, and the market prices at its time.
pub type Quoted = (EngineEvent, Map<u16, Price>);

/// The shard after a run of events.
pub open spec fn after_run(m: ShardModel, events: Seq<Quoted>) -> ShardModel
    decreases events.len(),
{
    if events.len() == 0 {
        m
    } else {
        after_run(m.after(events[0].0, events[0].1), events.drop_first())
    }
}

/// All balances stay within the range of their type during a run of events.
pub open spec fn balances_fit_throughout(m: ShardModel, events: Seq<Quoted>) -> bool
    decreases events.len(),
{
    events.len() > 0 ==> {
        &&& balances_fit(m, events[0].0, events[0].1)
        &&& balances_fit_throughout(m.after(events[0].0, events[0].1), events.drop_first())
    }
}

/// One side of a trade leaves the difference between balance and realised
/// profit as it is, for every account.
proof fn lemma_leg_keeps_deposit(m: ShardModel, leg: Leg, marks: Map<u16, Price>, a: AccountId)
    requires
        m.owns(a),
        m.states.len() == m.end - m.start,
        balance_fits(m, leg),
    ensures
        ({
            let later = m.book_leg(leg, marks);
            later.state_of(a).balance - shard::realised_sum(later.positions, a) == m.state_of(
                a,
            ).balance - shard::realised_sum(m.positions, a)
        }),
{
    if m.owns(leg.account) {
        if leg.account == a {
            law_balance_follows_realised_pnl(m, leg, marks);
        } else {
            let i = shard::index_of(m.positions, leg.account, leg.symbol);
            shard::lemma_index_found(m.positions, leg.account, leg.symbol);
            let before = shard::position_in(m.positions, leg.account, leg.symbol);
            let after = before.after_fill(leg.side, leg.price, leg.qty);
            let e = PositionEntry { account: leg.account, symbol: leg.symbol, position: after };
            if i < m.positions.len() {
                lemma_realised_update(m.positions, i, e, a);
            } else {
                assert(m.positions.push(e).drop_last() =~= m.positions);
            }
        }
    }
}

/// An event leaves the difference between balance and realised profit, which
/// is what was deposited, as it is, for every account of the shard.
pub proof fn law_event_keeps_deposits(
    m: ShardModel,
    event: EngineEvent,
    marks: Map<u16, Price>,
    a: AccountId,
)
    requires
        m.owns(a),
        m.states.len() == m.end - m.start,
        balances_fit(m, event, marks),
    ensures
        ({
            let later = m.after(event, marks);
            later.state_of(a).balance - shard::realised_sum(later.positions, a) == m.state_of(
                a,
            ).balance - shard::realised_sum(m.positions, a)
        }),
{
    if event is Trade {
        let maker = shard::maker_leg(event);
        lemma_leg_keeps_deposit(m, maker, marks, a);
        lemma_leg_keeps_deposit(m.book_leg(maker, marks), shard::taker_leg(event), marks, a);
    }
}

/// After any run of events the balance of an account is what was deposited
/// plus the realised profit of all its positions, each counted once.
pub proof fn law_balance_is_deposit_plus_realised(
    m: ShardModel,
    events: Seq<Quoted>,
    a: AccountId,
    deposit: int,
)
    requires
        m.owns(a),
        m.states.len() == m.end - m.start,
        m.state_of(a).balance == deposit + shard::realised_sum(m.positions, a),
        balances_fit_throughout(m, events),
    ensures
        ({
            let later = after_run(m, events);
            later.state_of(a).balance == deposit + shard::realised_sum(later.positions, a)
        }),
    decreases events.len(),
{
    if events.len() > 0 {
        law_event_keeps_deposits(m, events[0].0, events[0].1, a);
        law_balance_is_deposit_plus_realised(
            m.after(events[0].0, events[0].1),
            events.drop_first(),
            a,
            deposit,
        );
    }
}

/// Entries of other accounts do not count for the margin of an account.
proof fn lemma_margin_update(
    entries: Seq<PositionEntry>,
    i: int,
    e: PositionEntry,
    a: AccountId,
    marks: Map<u16, Price>,
    limits: RiskLimits,
)
    requires
        0 <= i < entries.len(),
        e.account != a,
        entries[i].account != a,
    ensures
        shard::margin_sum(entries.update(i, e), a, marks, limits) == shard::margin_sum(
            entries,
            a,
            marks,
            limits,
        ),
    decreases entries.len(),
{
    let later = entries.update(i, e);
    if i == entries.len() - 1 {
        assert(later.drop_last() =~= entries.drop_last());
    } else {
        assert(later.drop_last() =~= entries.drop_last().update(i, e));
        lemma_margin_update(entries.drop_last(), i, e, a, marks, limits);
    }
}

/// After a trade the published margin of each account in it is the sum over
/// all its open positions, at the market prices of the trade.
pub proof fn law_margin_is_that_of_all_positions(
    m: ShardModel,
    event: EngineEvent,
    marks: Map<u16, Price>,
    a: AccountId,
)
    requires
        m.owns(a),
        m.states.len() == m.end - m.start,
        event is Trade,
        a == event->maker_acct || a == event->taker_acct,
    ensures
        ({
            let later = m.after(event, marks);
            later.state_of(a).used_margin == fixed::clamped(
                shard::margin_sum(later.positions, a, marks, m.limits),
            )
        }),
{
    let taker = shard::taker_leg(event);
    let mid = m.book_leg(shard::maker_leg(event), marks);
    if a != taker.account && mid.owns(taker.account) {
        let i = shard::index_of(mid.positions, taker.account, taker.symbol);
        shard::lemma_index_found(mid.positions, taker.account, taker.symbol);
        let before = shard::position_in(mid.positions, taker.account, taker.symbol);
        let after = before.after_fill(taker.side, taker.price, taker.qty);
        let e = PositionEntry { account: taker.account, symbol: taker.symbol, position: after };
        if i < mid.positions.len() {
            lemma_margin_update(mid.positions, i, e, a, marks, m.limits);
        } else {
            assert(mid.positions.push(e).drop_last() =~= mid.positions);
        }
    }
}

/// An account for which a liquidation is asked for belongs to the shard and
/// is frozen, so that no new order of it gets through.
pub proof fn law_liquidated_account_is_frozen(
    m: ShardModel,
    event: EngineEvent,
    marks: Map<u16, Price>,
)
    requires
        m.states.len() == m.end - m.start,
    ensures
        m.command(event, marks) matches Some(InboundCommand::Liquidate { account, .. }) ==> {
            &&& m.owns(account)
            &&& m.after(event, marks).state_of(account).frozen
        },
{
}

/// The position of another account or in another symbol is as before.
pub proof fn lemma_position_kept(
    entries: Seq<PositionEntry>,
    a: AccountId,
    s: Symbol,
    p: Position,
    b: AccountId,
    t: Symbol,
)
    requires
        a != b || s != t,
    ensures
        shard::position_in(shard::with_position(entries, a, s, p), b, t) == shard::position_in(
            entries,
            b,
            t,
        ),
{
    let i = shard::index_of(entries, a, s);
    let j = shard::index_of(entries, b, t);
    let later = shard::with_position(entries, a, s, p);
    shard::lemma_index_found(entries, a, s);
    shard::lemma_index_found(entries, b, t);
    let k = if j < entries.len() {
        j
    } else {
        later.len() as int
    };
    assert forall|x: int| 0 <= x < k implies !((#[trigger] later[x]).account == b
        && later[x].symbol == t) by {
        if x < entries.len() && x != i {
            assert(later[x] == entries[x]);
        }
    }
    shard::lemma_index_is(later, b, t, k);
}

/// A trade touches nobody but its two accounts: every other account keeps its
/// state and its positions.
pub proof fn law_other_accounts_untouched(
    m: ShardModel,
    event: EngineEvent,
    marks: Map<u16, Price>,
    other: AccountId,
    symbol: Symbol,
)
    requires
        m.states.len() == m.end - m.start,
        m.owns(other),
        event is Trade ==> other != event->maker_acct && other != event->taker_acct,
    ensures
        m.after(event, marks).state_of(other) == m.state_of(other),
        shard::position_in(m.after(event, marks).positions, other, symbol) == shard::position_in(
            m.positions,
            other,
            symbol,
        ),
{
    if event is Trade {
        let maker = shard::maker_leg(event);
        let taker = shard::taker_leg(event);
        lemma_leg_untouched(m, maker, marks, other, symbol);
        lemma_leg_untouched(m.book_leg(maker, marks), taker, marks, other, symbol);
    }
}

proof fn lemma_leg_untouched(
    m: ShardModel,
    leg: Leg,
    marks: Map<u16, Price>,
    other: AccountId,
    symbol: Symbol,
)
    requires
        m.states.len() == m.end - m.start,
        m.owns(other),
        other != leg.account,
    ensures
        m.book_leg(leg, marks).state_of(other) == m.state_of(other),
        shard::position_in(m.book_leg(leg, marks).positions, other, symbol) == shard::position_in(
            m.positions,
            other,
            symbol,
        ),
        m.book_leg(leg, marks).states.len() == m.states.len(),
{
    if m.owns(leg.account) {
        let before = shard::position_in(m.positions, leg.account, leg.symbol);
        lemma_position_kept(
            m.positions,
            leg.account,
            leg.symbol,
            before.after_fill(leg.side, leg.price, leg.qty),
            other,
            symbol,
        );
    }
}

/// The margin of an open position is the maintenance fraction of its value at
/// the market price of its symbol; only where no market price is known does
/// its average entry price count. `value` is price times quantity, scaled back
/// and without sign; the margin is `value` times the fraction, scaled back and
/// rounded towards zero. Both are kept in range.
pub proof fn law_margin_is_taken_at_the_market_price(
    entry: PositionEntry,
    marks: Map<u16, Price>,
    limits: RiskLimits,
    price: int,
    value: int,
)
    requires
        entry.position.net_qty != 0,
        marks.contains_key(entry.symbol.0) ==> price == marks[entry.symbol.0].0,
        !marks.contains_key(entry.symbol.0) ==> price == entry.position.avg_entry_price,
        0 <= value <= i64::MAX,
        ({
            let exact = price * entry.position.net_qty;
            let size = if exact < 0 {
                -exact
            } else {
                exact
            };
            &&& value * 100_000_000 <= size
            &&& value < i64::MAX ==> size < (value + 1) * 100_000_000
        }),
    ensures
        ({
            let margin = shard::margin_of(entry, marks, limits);
            let exact = value * limits.maintenance_margin_fraction;
            &&& exact >= 0 ==> margin >= 0
            &&& exact >= 0 && margin < i64::MAX ==> margin * 1_000_000 <= exact < (margin + 1)
                * 1_000_000
            &&& exact >= 0 && margin == i64::MAX ==> exact >= margin * 1_000_000
            &&& exact < 0 ==> margin <= 0
            &&& exact < 0 && margin > i64::MIN ==> (margin - 1) * 1_000_000 < exact <= margin
                * 1_000_000
            &&& exact < 0 && margin == i64::MIN ==> exact <= margin * 1_000_000
        }),
{
    let mark = Price(price as i64);
    position::law_notional_is_price_times_size(entry.position, mark);
    assert(entry.position.spec_notional(mark) == value);
}

/// A position that is closed needs no margin.
pub proof fn law_closed_positions_need_no_margin(
    entry: PositionEntry,
    marks: Map<u16, Price>,
    limits: RiskLimits,
)
    requires
        entry.position.net_qty == 0,
    ensures
        shard::margin_of(entry, marks, limits) == 0,
{
}

/// The margin of a position never falls when the market price of its symbol
/// rises, and where there is a market price the entry price plays no part.
pub proof fn law_margin_rises_with_the_market_price(
    entry: PositionEntry,
    other_entry_price: i64,
    low: Map<u16, Price>,
    high: Map<u16, Price>,
    limits: RiskLimits,
)
    requires
        low.contains_key(entry.symbol.0),
        high.contains_key(entry.symbol.0),
        0 <= low[entry.symbol.0].0 <= high[entry.symbol.0].0,
        limits.maintenance_margin_fraction >= 0,
    ensures
        shard::margin_of(entry, low, limits) <= shard::margin_of(entry, high, limits),
        ({
            let p = Position { avg_entry_price: other_entry_price, ..entry.position };
            shard::margin_of(PositionEntry { position: p, ..entry }, low, limits)
                == shard::margin_of(entry, low, limits)
        }),
{
    let a = low[entry.symbol.0];
    let b = high[entry.symbol.0];
    let n = fixed::magnitude(entry.position.net_qty as int);
    let x = a.0 * n;
    let y = b.0 * n;
    assert(0 <= x <= y) by (nonlinear_arith)
        requires
            0 <= a.0 <= b.0,
            n >= 0,
            x == a.0 * n,
            y == b.0 * n,
    ;
    let v = entry.position.spec_notional(a) as int;
    let w = entry.position.spec_notional(b) as int;
    assert(0 <= v <= w);
    let f = limits.maintenance_margin_fraction as int;
    assert(0 <= v * f <= w * f) by (nonlinear_arith)
        requires
            0 <= v <= w,
            f >= 0,
    ;
}

/// Margins and realised profits of an account add up over its positions: each
/// position of the account counts once, those of others not at all.
pub proof fn law_positions_add_up(
    front: Seq<PositionEntry>,
    back: Seq<PositionEntry>,
    one: PositionEntry,
    a: AccountId,
    marks: Map<u16, Price>,
    limits: RiskLimits,
)
    ensures
        shard::margin_sum(front + back, a, marks, limits) == shard::margin_sum(
            front,
            a,
            marks,
            limits,
        ) + shard::margin_sum(back, a, marks, limits),
        shard::realised_sum(front + back, a) == shard::realised_sum(front, a)
            + shard::realised_sum(back, a),
        shard::margin_sum(seq![one], a, marks, limits) == if one.account == a {
            shard::margin_of(one, marks, limits) as int
        } else {
            0
        },
        shard::realised_sum(seq![one], a) == if one.account == a {
            one.position.realised_pnl as int
        } else {
            0
        },
        shard::margin_sum(Seq::empty(), a, marks, limits) == 0,
        shard::realised_sum(Seq::empty(), a) == 0,
    decreases back.len(),
{
    assert(seq![one].drop_last() =~= Seq::<PositionEntry>::empty());
    reveal_with_fuel(shard::margin_sum, 2);
    reveal_with_fuel(shard::realised_sum, 2);
    if back.len() == 0 {
        assert(front + back =~= front);
    } else {
        assert((front + back).drop_last() =~= front + back.drop_last());
        assert((front + back).last() == back.last());
        law_positions_add_up(front, back.drop_last(), one, a, marks, limits);
    }
}

/// The position of an account in a symbol is the entry for the two, and flat
/// where there is none.
pub proof fn law_position_is_its_entry(
    entries: Seq<PositionEntry>,
    account: AccountId,
    symbol: Symbol,
    i: int,
)
    requires
        0 <= i <= entries.len(),
        i < entries.len() ==> entries[i].account == account && entries[i].symbol == symbol,
        forall|j: int|
            0 <= j < i ==> (#[trigger] entries[j]).account != account || entries[j].symbol
                != symbol,
    ensures
        i < entries.len() ==> shard::position_in(entries, account, symbol) == entries[i].position,
        i == entries.len() ==> shard::position_in(entries, account, symbol) == (Position {
            net_qty: 0,
            avg_entry_price: 0,
            realised_pnl: 0,
        }),
{
    shard::lemma_index_is(entries, account, symbol, i);
}

/// A position that is set is the one that is found, and it is the only entry
/// that changes or is added.
proof fn lemma_position_set(
    entries: Seq<PositionEntry>,
    account: AccountId,
    symbol: Symbol,
    p: Position,
)
    ensures
        shard::position_in(shard::with_position(entries, account, symbol, p), account, symbol)
            == p,
{
    let i = shard::index_of(entries, account, symbol);
    let later = shard::with_position(entries, account, symbol, p);
    shard::lemma_index_found(entries, account, symbol);
    assert forall|j: int| 0 <= j < i implies !((#[trigger] later[j]).account == account
        && later[j].symbol == symbol) by {
        assert(later[j] == entries[j]);
    }
    shard::lemma_index_is(later, account, symbol, i);
}

/// A trade between two accounts books its quantity on both: the maker's net
/// quantity in the symbol moves in the direction of the maker's side, the
/// taker's by the same amount the other way. Each position is that of its
/// account after a fill at the price of the trade.
pub proof fn law_trade_moves_both_positions(
    m: ShardModel,
    event: EngineEvent,
    marks: Map<u16, Price>,
)
    requires
        event is Trade,
        event->maker_acct != event->taker_acct,
        m.accepts(event, marks),
    ensures
        ({
            let later = m.after(event, marks);
            let s = event->Trade_symbol;
            let maker = event->maker_acct;
            let taker = event->taker_acct;
            let q = event->Trade_qty.0;
            let a = shard::position_in(m.positions, maker, s);
            let b = shard::position_in(m.positions, taker, s);
            let x = shard::position_in(later.positions, maker, s);
            let y = shard::position_in(later.positions, taker, s);
            &&& m.start <= maker.0 < m.end && event->maker_side is Buy ==> x.net_qty == a.net_qty
                + q && x == a.after_fill(Side::Buy, event->Trade_price, event->Trade_qty)
            &&& m.start <= maker.0 < m.end && event->maker_side is Sell ==> x.net_qty
                == a.net_qty - q && x == a.after_fill(
                Side::Sell,
                event->Trade_price,
                event->Trade_qty,
            )
            &&& m.start <= taker.0 < m.end && event->maker_side is Buy ==> y.net_qty == b.net_qty
                - q && y == b.after_fill(Side::Sell, event->Trade_price, event->Trade_qty)
            &&& m.start <= taker.0 < m.end && event->maker_side is Sell ==> y.net_qty
                == b.net_qty + q && y == b.after_fill(
                Side::Buy,
                event->Trade_price,
                event->Trade_qty,
            )
            &&& !(m.start <= maker.0 < m.end) ==> x == a
            &&& !(m.start <= taker.0 < m.end) ==> y == b
        }),
{
    let maker = shard::maker_leg(event);
    let taker = shard::taker_leg(event);
    let s = maker.symbol;
    let mid = m.book_leg(maker, marks);
    let a = shard::position_in(m.positions, maker.account, s);
    let b = shard::position_in(m.positions, taker.account, s);
    if m.owns(maker.account) {
        let x = a.after_fill(maker.side, maker.price, maker.qty);
        lemma_position_set(m.positions, maker.account, s, x);
        lemma_position_kept(m.positions, maker.account, s, x, taker.account, s);
    }
    if m.owns(taker.account) {
        let y = b.after_fill(taker.side, taker.price, taker.qty);
        lemma_position_set(mid.positions, taker.account, s, y);
        lemma_position_kept(mid.positions, taker.account, s, y, maker.account, s);
    }
}

/// A trade of an account with itself leaves its net quantity as it is.
pub proof fn law_own_trade_moves_nothing(m: ShardModel, event: EngineEvent, marks: Map<u16, Price>)
    requires
        event is Trade,
        event->maker_acct == event->taker_acct,
        m.accepts(event, marks),
    ensures
        shard::position_in(
            m.after(event, marks).positions,
            event->maker_acct,
            event->Trade_symbol,
        ).net_qty == shard::position_in(
            m.positions,
            event->maker_acct,
            event->Trade_symbol,
        ).net_qty,
{
    let maker = shard::maker_leg(event);
    let taker = shard::taker_leg(event);
    let mid = m.book_leg(maker, marks);
    if m.owns(maker.account) {
        let a = shard::position_in(m.positions, maker.account, maker.symbol);
        let x = a.after_fill(maker.side, maker.price, maker.qty);
        lemma_position_set(m.positions, maker.account, maker.symbol, x);
        let y = x.after_fill(taker.side, taker.price, taker.qty);
        lemma_position_set(mid.positions, taker.account, taker.symbol, y);
    }
}

/// After a trade an account that needs more margin than its balance is frozen,
/// and an account that was frozen stays so; no other account is frozen. The
/// liquidation of an account in breach is asked for, of the taker if both are.
pub proof fn law_breach_freezes_and_liquidates(
    m: ShardModel,
    event: EngineEvent,
    marks: Map<u16, Price>,
)
    requires
        m.states.len() == m.end - m.start,
        event is Trade,
        event->maker_acct != event->taker_acct,
    ensures
        ({
            let later = m.after(event, marks);
            let maker = event->maker_acct;
            let taker = event->taker_acct;
            let symbol = event->Trade_symbol;
            let x = later.states[maker.0 - m.start];
            let y = later.states[taker.0 - m.start];
            let maker_short = m.start <= maker.0 < m.end && x.used_margin > x.balance;
            let taker_short = m.start <= taker.0 < m.end && y.used_margin > y.balance;
            &&& m.start <= maker.0 < m.end ==> x.frozen == (m.states[maker.0 - m.start].frozen
                || maker_short)
            &&& m.start <= taker.0 < m.end ==> y.frozen == (m.states[taker.0 - m.start].frozen
                || taker_short)
            &&& taker_short ==> m.command(event, marks) == Some(
                InboundCommand::Liquidate { symbol, account: taker },
            )
            &&& !taker_short && maker_short ==> m.command(event, marks) == Some(
                InboundCommand::Liquidate { symbol, account: maker },
            )
            &&& !taker_short && !maker_short ==> m.command(event, marks) is None
        }),
{
}

/// The same of a trade of an account with itself, which counts twice: once as
/// the maker's and once as the taker's.
pub proof fn law_breach_by_own_trade(m: ShardModel, event: EngineEvent, marks: Map<u16, Price>)
    requires
        m.states.len() == m.end - m.start,
        event is Trade,
        event->maker_acct == event->taker_acct,
        m.start <= event->maker_acct.0 < m.end,
    ensures
        ({
            let a = event->maker_acct;
            let i = a.0 - m.start;
            let mid = m.book_leg(shard::maker_leg(event), marks).states[i];
            let end = m.after(event, marks).states[i];
            let breach = mid.used_margin > mid.balance || end.used_margin > end.balance;
            &&& end.frozen == (m.states[i].frozen || breach)
            &&& breach ==> m.command(event, marks) == Some(
                InboundCommand::Liquidate { symbol: event->Trade_symbol, account: a },
            )
            &&& !breach ==> m.command(event, marks) is None
        }),
{
}

/// A fill publishes balance, margin and the freeze, and nothing else of an
/// account; a shard keeps its accounts and its limits.
pub proof fn law_events_keep_the_rest(
    m: ShardModel,
    event: EngineEvent,
    marks: Map<u16, Price>,
    i: int,
)
    requires
        m.states.len() == m.end - m.start,
        0 <= i < m.states.len(),
    ensures
        ({
            let later = m.after(event, marks);
            &&& later.start == m.start && later.end == m.end && later.limits == m.limits
            &&& later.states.len() == m.states.len()
            &&& later.states[i].halted == m.states[i].halted
            &&& later.states[i].position == m.states[i].position
            &&& later.states[i].open_order_count == m.states[i].open_order_count
            &&& m.states[i].frozen ==> later.states[i].frozen
            &&& !(event is Trade) ==> later == m && m.command(event, marks) is None
        }),
{
}

/// An event can be booked if and only if it is no trade, or its quantity is
/// positive and both positions stay within the range of their type.
pub proof fn law_events_that_can_be_booked(
    m: ShardModel,
    event: EngineEvent,
    marks: Map<u16, Price>,
)
    requires
        event is Trade,
        event->maker_acct != event->taker_acct,
        m.start <= event->maker_acct.0 < m.end,
        m.start <= event->taker_acct.0 < m.end,
    ensures
        m.accepts(event, marks) <==> {
            let q = event->Trade_qty.0;
            let a = shard::position_in(m.positions, event->maker_acct, event->Trade_symbol).net_qty;
            let b = shard::position_in(m.positions, event->taker_acct, event->Trade_symbol).net_qty;
            &&& q > 0
            &&& a > i64::MIN && b > i64::MIN
            &&& event->maker_side is Buy ==> a + q <= i64::MAX && b - q > i64::MIN
            &&& event->maker_side is Sell ==> a - q > i64::MIN && b + q <= i64::MAX
        },
{
    let maker = shard::maker_leg(event);
    let taker = shard::taker_leg(event);
    let a = shard::position_in(m.positions, maker.account, maker.symbol);
    lemma_position_kept(
        m.positions,
        maker.account,
        maker.symbol,
        a.after_fill(maker.side, maker.price, maker.qty),
        taker.account,
        taker.symbol,
    );
}

/// The balance of an account grows by what its fill realises, as long as it
/// stays within the range of its type.
pub proof fn law_balance_grows_by_what_is_realised(
    m: ShardModel,
    event: EngineEvent,
    marks: Map<u16, Price>,
)
    requires
        m.states.len() == m.end - m.start,
        event is Trade,
        event->maker_acct != event->taker_acct,
    ensures
        ({
            let later = m.after(event, marks);
            let s = event->Trade_symbol;
            let maker = event->maker_acct;
            let taker = event->taker_acct;
            let made = |a: AccountId|
                shard::position_in(later.positions, a, s).realised_pnl - shard::position_in(
                    m.positions,
                    a,
                    s,
                ).realised_pnl;
            let balance = |sh: ShardModel, a: AccountId| sh.states[a.0 - m.start].balance;
            &&& m.start <= maker.0 < m.end && i64::MIN <= balance(m, maker) + made(maker)
                <= i64::MAX ==> balance(later, maker) == balance(m, maker) + made(maker)
            &&& m.start <= taker.0 < m.end && i64::MIN <= balance(m, taker) + made(taker)
                <= i64::MAX ==> balance(later, taker) == balance(m, taker) + made(taker)
            &&& m.start <= maker.0 < m.end && balance(m, maker) + made(maker) > i64::MAX ==> balance(
                later,
                maker,
            ) == i64::MAX
            &&& m.start <= maker.0 < m.end && balance(m, maker) + made(maker) < i64::MIN ==> balance(
                later,
                maker,
            ) == i64::MIN
            &&& m.start <= taker.0 < m.end && balance(m, taker) + made(taker) > i64::MAX ==> balance(
                later,
                taker,
            ) == i64::MAX
            &&& m.start <= taker.0 < m.end && balance(m, taker) + made(taker) < i64::MIN ==> balance(
                later,
                taker,
            ) == i64::MIN
        }),
{
    let maker = shard::maker_leg(event);
    let taker = shard::taker_leg(event);
    let s = maker.symbol;
    let mid = m.book_leg(maker, marks);
    let a = shard::position_in(m.positions, maker.account, s);
    let b = shard::position_in(m.positions, taker.account, s);
    if m.owns(maker.account) {
        let x = a.after_fill(maker.side, maker.price, maker.qty);
        lemma_position_set(m.positions, maker.account, s, x);
        lemma_position_kept(m.positions, maker.account, s, x, taker.account, s);
    }
    if m.owns(taker.account) {
        let y = b.after_fill(taker.side, taker.price, taker.qty);
        lemma_position_set(mid.positions, taker.account, s, y);
        lemma_position_kept(mid.positions, taker.account, s, y, maker.account, s);
    }
}

/// A trade leaves every position in another symbol as it is, whoever holds it.
pub proof fn law_other_symbols_untouched(
    m: ShardModel,
    event: EngineEvent,
    marks: Map<u16, Price>,
    account: AccountId,
    symbol: Symbol,
)
    requires
        event is Trade ==> symbol != event->Trade_symbol,
    ensures
        shard::position_in(m.after(event, marks).positions, account, symbol) == shard::position_in(
            m.positions,
            account,
            symbol,
        ),
{
    if event is Trade {
        let maker = shard::maker_leg(event);
        let taker = shard::taker_leg(event);
        let mid = m.book_leg(maker, marks);
        if m.owns(maker.account) {
            let x = shard::position_in(m.positions, maker.account, maker.symbol).after_fill(
                maker.side,
                maker.price,
                maker.qty,
            );
            lemma_position_kept(m.positions, maker.account, maker.symbol, x, account, symbol);
        }
        if m.owns(taker.account) {
            let y = shard::position_in(mid.positions, taker.account, taker.symbol).after_fill(
                taker.side,
                taker.price,
                taker.qty,
            );
            lemma_position_kept(mid.positions, taker.account, taker.symbol, y, account, symbol);
        }
    }
}

/// A trade of an account with itself is booked like two trades with others:
/// first the resting side, then the incoming one.
pub proof fn law_own_trade_is_booked_twice(
    m: ShardModel,
    event: EngineEvent,
    marks: Map<u16, Price>,
)
    requires
        event is Trade,
        event->maker_acct == event->taker_acct,
    ensures
        ({
            let a = event->maker_acct;
            let s = event->Trade_symbol;
            let (price, qty) = (event->Trade_price, event->Trade_qty);
            let p = shard::position_in(m.positions, a, s);
            let q = shard::position_in(m.after(event, marks).positions, a, s);
            &&& !(m.start <= a.0 < m.end) ==> q == p
            &&& m.start <= a.0 < m.end && event->maker_side is Buy ==> q == p.after_fill(
                Side::Buy,
                price,
                qty,
            ).after_fill(Side::Sell, price, qty)
            &&& m.start <= a.0 < m.end && event->maker_side is Sell ==> q == p.after_fill(
                Side::Sell,
                price,
                qty,
            ).after_fill(Side::Buy, price, qty)
        }),
{
    let maker = shard::maker_leg(event);
    let taker = shard::taker_leg(event);
    let mid = m.book_leg(maker, marks);
    if m.owns(maker.account) {
        let a = shard::position_in(m.positions, maker.account, maker.symbol);
        let x = a.after_fill(maker.side, maker.price, maker.qty);
        lemma_position_set(m.positions, maker.account, maker.symbol, x);
        let y = x.after_fill(taker.side, taker.price, taker.qty);
        lemma_position_set(mid.positions, taker.account, taker.symbol, y);
    }
}

/// A net quantity can take a fill of a quantity: neither it nor what it becomes
/// is at or beyond the end of the range.
pub open spec fn has_room_for(net: int, side: Side, qty: Qty) -> bool {
    &&& qty.0 > 0
    &&& net > i64::MIN
    &&& side is Buy ==> net + qty.0 <= i64::MAX
    &&& side is Sell ==> net - qty.0 > i64::MIN
}

/// A trade can be booked if the positions of those of its accounts that the
/// shard owns can take it. Every other event can be booked.
pub proof fn law_which_events_can_be_booked(
    m: ShardModel,
    event: EngineEvent,
    marks: Map<u16, Price>,
)
    ensures
        !(event is Trade) ==> m.accepts(event, marks),
        event is Trade ==> (m.accepts(event, marks) <==> {
            let (maker, taker) = (event->maker_acct, event->taker_acct);
            let a = shard::position_in(m.positions, maker, event->Trade_symbol).net_qty as int;
            let b = shard::position_in(m.positions, taker, event->Trade_symbol).net_qty as int;
            let moved = if event->maker_side is Buy {
                a + event->Trade_qty.0
            } else {
                a - event->Trade_qty.0
            };
            let other = if event->maker_side is Buy {
                Side::Sell
            } else {
                Side::Buy
            };
            &&& m.start <= maker.0 < m.end ==> has_room_for(a, event->maker_side, event->Trade_qty)
            &&& m.start <= taker.0 < m.end ==> has_room_for(
                if taker == maker {
                    moved
                } else {
                    b
                },
                other,
                event->Trade_qty,
            )
        }),
{
    if event is Trade {
        let maker = shard::maker_leg(event);
        let taker = shard::taker_leg(event);
        let s = event->Trade_symbol;
        if m.owns(maker.account) {
            let p = shard::position_in(m.positions, maker.account, s);
            let x = p.after_fill(maker.side, maker.price, maker.qty);
            if maker.account == taker.account {
                lemma_position_set(m.positions, maker.account, s, x);
            } else {
                lemma_position_kept(m.positions, maker.account, s, x, taker.account, s);
            }
        }
    }
}

} // verus!

//! Checks of every order before it touches the book.
//!
//! They have a fixed cost and need no more than the limits of the instrument
//! and the published state of the account.

use crate::account_state::AccountRiskState;
use crate::core_types::commands::NewOrder;
use crate::core_types::ids::AccountId;
use crate::core_types::price::Price;
use crate::core_types::qty::Qty;
use crate::core_types::side::Side;
use crate::risk_engine::fixed;
use vstd::prelude::*;

verus! {

/// Why an order is turned down.
#[derive(Debug, Clone, Copy, PartialEq, Eq, Structural)]
pub enum RiskRejectReason {
    MaxOrderQtyExceeded,
    MaxOrderNotionalExceeded,
    AccountHalted,
    PositionLimitExceeded,
    OpenOrderLimitExceeded,
    PriceOutOfBand,
}

/// Limits of an instrument.
#[derive(Debug, Clone, Copy, PartialEq, Eq, Structural)]
pub struct Tier0Limits {
    pub max_order_qty: Qty,
    pub max_order_notional: u64,
    pub max_open_orders: u32,
    pub max_position_abs: i64,
    /// How far a price may be from the reference price, in hundredths of a
    /// percent. Zero turns the check off.
    pub price_band_bps: u32,
}

impl Default for Tier0Limits {
    /// No limits.
    fn default() -> (r: Tier0Limits)
        ensures
            r == (Tier0Limits {
                max_order_qty: Qty(u64::MAX),
                max_order_notional: u64::MAX,
                max_open_orders: u32::MAX,
                max_position_abs: i64::MAX,
                price_band_bps: 0,
            }),
    {
        Tier0Limits {
            max_order_qty: Qty(u64::MAX),
            max_order_notional: u64::MAX,
            max_open_orders: u32::MAX,
            max_position_abs: i64::MAX,
            price_band_bps: 0,
        }
    }
}

/// The value of an order: zero for a price that is not positive, and at most
/// what a `u64` holds.
pub open spec fn spec_notional(price: Price, qty: Qty) -> int {
    if price.0 <= 0 {
        0
    } else if price.0 * qty.0 > u64::MAX {
        u64::MAX as int
    } else {
        price.0 * qty.0
    }
}

/// The price is further from the reference than the band allows, in units of
/// a ten-thousandth of the reference. A reference that is not positive allows
/// every price.
pub open spec fn out_of_band(price: Price, reference: Price, band_bps: u32) -> bool {
    let diff = if price.0 >= reference.0 {
        price.0 - reference.0
    } else {
        reference.0 - price.0
    };
    reference.0 > 0 && diff * 10_000 > band_bps * reference.0
}

/// The position that a filled order would lead to, kept within the range of
/// its type.
pub open spec fn projected(current: i64, side: Side, qty: Qty) -> i64 {
    fixed::clamped(
        match side {
            Side::Buy => current + qty.0,
            Side::Sell => current - qty.0,
        },
    )
}

/// The position is larger than the limit, long or short.
pub open spec fn beyond(position: i64, limit: i64) -> bool {
    if position < 0 {
        -position > limit
    } else {
        position > limit
    }
}

/// The result of the checks, in this order: halted account, quantity, value,
/// price band, number of open orders, position.
pub open spec fn verdict(
    order: NewOrder,
    limits: Tier0Limits,
    state: AccountRiskState,
    reference_price: Option<Price>,
) -> Result<(), RiskRejectReason> {
    if state.halted {
        Err(RiskRejectReason::AccountHalted)
    } else if order.qty.0 > limits.max_order_qty.0 {
        Err(RiskRejectReason::MaxOrderQtyExceeded)
    } else if spec_notional(order.price, order.qty) > limits.max_order_notional {
        Err(RiskRejectReason::MaxOrderNotionalExceeded)
    } else if limits.price_band_bps > 0 && reference_price is Some && out_of_band(
        order.price,
        reference_price->0,
        limits.price_band_bps,
    ) {
        Err(RiskRejectReason::PriceOutOfBand)
    } else if state.open_order_count >= limits.max_open_orders {
        Err(RiskRejectReason::OpenOrderLimitExceeded)
    } else if beyond(projected(state.position, order.side, order.qty), limits.max_position_abs) {
        Err(RiskRejectReason::PositionLimitExceeded)
    } else {
        Ok(())
    }
}

/// Checks a new order against the limits and the state of its account.
pub fn check_new_order(
    order: &NewOrder,
    account: AccountId,
    limits: &Tier0Limits,
    risk_state: &AccountRiskState,
    reference_price: Option<Price>,
) -> (r: Result<(), RiskRejectReason>)
    ensures
        r == verdict(*order, *limits, *risk_state, reference_price),
{
    if risk_state.is_halted() {
        return Err(RiskRejectReason::AccountHalted);
    }
    if order.qty.0 > limits.max_order_qty.0 {
        return Err(RiskRejectReason::MaxOrderQtyExceeded);
    }
    let notional: u64 = notional_of(order.price, order.qty);
    if notional > limits.max_order_notional {
        return Err(RiskRejectReason::MaxOrderNotionalExceeded);
    }
    if limits.price_band_bps > 0 {
        if let Some(reference) = reference_price {
            if price_out_of_band(order.price, reference, limits.price_band_bps) {
                return Err(RiskRejectReason::PriceOutOfBand);
            }
        }
    }
    if risk_state.open_order_count() >= limits.max_open_orders {
        return Err(RiskRejectReason::OpenOrderLimitExceeded);
    }
    let prospective: i64 = projected_position(risk_state.position(), order.side, order.qty);
    let size: i128 = if prospective < 0 {
        -(prospective as i128)
    } else {
        prospective as i128
    };
    if size > limits.max_position_abs as i128 {
        return Err(RiskRejectReason::PositionLimitExceeded);
    }
    Ok(())
}

fn notional_of(price: Price, qty: Qty) -> (r: u64)
    ensures
        r == spec_notional(price, qty),
{
    let p: i128 = price.raw() as i128;
    let q: i128 = qty.raw() as i128;
    if p <= 0 {
        return 0;
    }
    assert(0 <= p * q <= 0x7FFF_FFFF_FFFF_FFFF * 0xFFFF_FFFF_FFFF_FFFF) by (nonlinear_arith)
        requires
            0 < p <= 0x7FFF_FFFF_FFFF_FFFF,
            0 <= q <= 0xFFFF_FFFF_FFFF_FFFF,
    ;
    let product: i128 = p * q;
    if product > u64::MAX as i128 {
        u64::MAX
    } else {
        product as u64
    }
}

fn price_out_of_band(price: Price, reference: Price, band_bps: u32) -> (b: bool)
    ensures
        b == out_of_band(price, reference, band_bps),
{
    let p: i128 = price.raw() as i128;
    let r: i128 = reference.raw() as i128;
    if r <= 0 {
        return false;
    }
    let diff: i128 = if p >= r {
        p - r
    } else {
        r - p
    };
    let band: i128 = band_bps as i128;
    assert(0 <= band * r <= 0xFFFF_FFFF * 0x7FFF_FFFF_FFFF_FFFF) by (nonlinear_arith)
        requires
            0 <= band <= 0xFFFF_FFFF,
            0 < r <= 0x7FFF_FFFF_FFFF_FFFF,
    ;
    diff * 10_000 > band * r
}

fn projected_position(current: i64, side: Side, qty: Qty) -> (r: i64)
    ensures
        r == projected(current, side, qty),
{
    let delta: i128 = qty.raw() as i128;
    match side {
        Side::Buy => fixed::clamp(current as i128 + delta),
        Side::Sell => fixed::clamp(current as i128 - delta),
    }
}

/// An account that is halted cannot trade, whatever the order and the limits.
pub proof fn law_halted_account_is_rejected(
    order: NewOrder,
    limits: Tier0Limits,
    state: AccountRiskState,
    reference_price: Option<Price>,
)
    requires
        state.halted,
    ensures
        verdict(order, limits, state, reference_price) == Err::<(), RiskRejectReason>(
            RiskRejectReason::AccountHalted,
        ),
{
}

/// The position after the order, without any limit of range.
pub open spec fn aim(state: AccountRiskState, order: NewOrder) -> int {
    if order.side is Buy {
        state.position + order.qty.0
    } else {
        state.position - order.qty.0
    }
}

/// The order is worth more than the limit: price times quantity exceeds it, if
/// the price is positive and the limit is one that can be exceeded at all.
pub open spec fn too_dear(order: NewOrder, limits: Tier0Limits) -> bool {
    order.price.0 > 0 && order.price.0 * order.qty.0 > limits.max_order_notional
        && limits.max_order_notional < u64::MAX
}

/// The price is off the reference by more than the band, in ten-thousandths of
/// the reference, in either direction.
pub open spec fn too_far(order: NewOrder, limits: Tier0Limits, reference: Option<Price>) -> bool {
    &&& limits.price_band_bps > 0
    &&& reference matches Some(r) && {
        &&& r.0 > 0
        &&& {
            ||| (order.price.0 - r.0) * 10_000 > limits.price_band_bps * r.0
            ||| (r.0 - order.price.0) * 10_000 > limits.price_band_bps * r.0
        }
    }
}

/// The order would lead to a position beyond the limit, long or short. (No
/// position exceeds the largest limit, but the lowest short position does.)
pub open spec fn too_big(order: NewOrder, limits: Tier0Limits, state: AccountRiskState) -> bool {
    ||| aim(state, order) > limits.max_position_abs && limits.max_position_abs < i64::MAX
    ||| aim(state, order) < -limits.max_position_abs
}

/// An order passes if and only if its account is not halted, its quantity, its
/// value and its price are within the limits, the account may have one more
/// open order, and the position that it leads to is within the limit.
pub proof fn law_order_passes_within_all_limits(
    order: NewOrder,
    limits: Tier0Limits,
    state: AccountRiskState,
    reference: Option<Price>,
)
    ensures
        verdict(order, limits, state, reference) is Ok <==> {
            &&& !state.halted
            &&& order.qty.0 <= limits.max_order_qty.0
            &&& !too_dear(order, limits)
            &&& !too_far(order, limits, reference)
            &&& state.open_order_count < limits.max_open_orders
            &&& !too_big(order, limits, state)
        },
{
    lemma_rules(order, limits, state, reference);
}

/// The reason of a rejection is the first limit that the order breaks: halted
/// account, quantity, value, price, open orders, position.
pub proof fn law_first_broken_limit_is_named(
    order: NewOrder,
    limits: Tier0Limits,
    state: AccountRiskState,
    reference: Option<Price>,
)
    ensures
        verdict(order, limits, state, reference) matches Err(reason) ==> match reason {
            RiskRejectReason::AccountHalted => state.halted,
            RiskRejectReason::MaxOrderQtyExceeded => {
                &&& !state.halted
                &&& order.qty.0 > limits.max_order_qty.0
            },
            RiskRejectReason::MaxOrderNotionalExceeded => {
                &&& !state.halted
                &&& order.qty.0 <= limits.max_order_qty.0
                &&& too_dear(order, limits)
            },
            RiskRejectReason::PriceOutOfBand => {
                &&& !state.halted
                &&& order.qty.0 <= limits.max_order_qty.0
                &&& !too_dear(order, limits)
                &&& too_far(order, limits, reference)
            },
            RiskRejectReason::OpenOrderLimitExceeded => {
                &&& !state.halted
                &&& order.qty.0 <= limits.max_order_qty.0
                &&& !too_dear(order, limits)
                &&& !too_far(order, limits, reference)
                &&& state.open_order_count >= limits.max_open_orders
            },
            RiskRejectReason::PositionLimitExceeded => {
                &&& !state.halted
                &&& order.qty.0 <= limits.max_order_qty.0
                &&& !too_dear(order, limits)
                &&& !too_far(order, limits, reference)
                &&& state.open_order_count < limits.max_open_orders
                &&& too_big(order, limits, state)
            },
        },
{
    lemma_rules(order, limits, state, reference);
}

proof fn lemma_rules(
    order: NewOrder,
    limits: Tier0Limits,
    state: AccountRiskState,
    reference: Option<Price>,
)
    ensures
        too_dear(order, limits) == (spec_notional(order.price, order.qty)
            > limits.max_order_notional),
        too_far(order, limits, reference) == (limits.price_band_bps > 0 && reference is Some
            && out_of_band(order.price, reference->0, limits.price_band_bps)),
        too_big(order, limits, state) == beyond(
            projected(state.position, order.side, order.qty),
            limits.max_position_abs,
        ),
{
    if let Some(price) = reference {
        let r = price.0 as int;
        let b = limits.price_band_bps as int;
        assert(r > 0 ==> b * r >= 0) by (nonlinear_arith)
            requires
                b >= 0,
        ;
    }
}

/// A smaller order on the same terms passes where a larger one on the same
/// side does, if it leads away from the limit as much as the larger one: what
/// counts for quantity and value is their size alone.
pub proof fn law_smaller_orders_break_no_new_limit(
    order: NewOrder,
    smaller: Qty,
    limits: Tier0Limits,
    state: AccountRiskState,
    reference: Option<Price>,
)
    requires
        verdict(order, limits, state, reference) is Ok,
        smaller.0 <= order.qty.0,
    ensures
        verdict(NewOrder { qty: smaller, ..order }, limits, state, reference) is Ok || too_big(
            NewOrder { qty: smaller, ..order },
            limits,
            state,
        ),
{
    let less = NewOrder { qty: smaller, ..order };
    law_order_passes_within_all_limits(order, limits, state, reference);
    law_order_passes_within_all_limits(less, limits, state, reference);
    let p = order.price.0 as int;
    let a = order.qty.0 as int;
    let b = smaller.0 as int;
    assert(p > 0 ==> p * b <= p * a) by (nonlinear_arith)
        requires
            0 <= b <= a,
    ;
}

} // verus!

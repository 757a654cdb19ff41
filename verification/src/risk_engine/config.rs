//! Risk limits, and the order check that needs nothing else.

use crate::core_types::price::Price;
use crate::core_types::qty::Qty;
use crate::risk_engine::fixed;
use vstd::prelude::*;

verus! {

/// Limits that apply to every account of a shard.
#[derive(Clone, Copy, Debug, PartialEq, Eq, Structural)]
pub struct RiskLimits {
    /// Largest value of one order.
    pub max_order_notional: i64,
    /// Largest net position in one symbol.
    pub max_position_qty: i64,
    /// Largest unrealised loss.
    pub max_unrealised_loss: i64,
    /// Fraction of its value that an order needs as margin, in millionths.
    pub initial_margin_fraction: i64,
    /// Fraction of its value that a position needs as margin, in millionths.
    pub maintenance_margin_fraction: i64,
}

impl RiskLimits {
    /// The limits that apply unless others are set: orders up to 100,000 and
    /// losses up to 10,000 in quote units, positions up to 100 base units,
    /// 10 % initial and 5 % maintenance margin.
    pub open spec fn standard() -> RiskLimits {
        RiskLimits {
            max_order_notional: 100_000_00000000,
            max_position_qty: 10_000_000_000,
            max_unrealised_loss: 10_000_00000000,
            initial_margin_fraction: 100_000,
            maintenance_margin_fraction: 50_000,
        }
    }
}

impl Default for RiskLimits {
    fn default() -> (r: RiskLimits)
        ensures
            r == RiskLimits::standard(),
    {
        RiskLimits {
            max_order_notional: 100_000_00000000,
            max_position_qty: 10_000_000_000,
            max_unrealised_loss: 10_000_00000000,
            initial_margin_fraction: 100_000,
            maintenance_margin_fraction: 50_000,
        }
    }
}

/// Settings of one shard.
#[derive(Clone, Copy, Debug)]
pub struct ShardConfig {
    pub limits: RiskLimits,
    /// Number of accounts that the shard owns.
    pub account_count: usize,
}

impl ShardConfig {
    pub fn new(account_count: usize) -> (r: ShardConfig)
        ensures
            r.limits == RiskLimits::standard(),
            r.account_count == account_count,
    {
        ShardConfig { limits: RiskLimits::default(), account_count }
    }
}

/// Why an order is turned down at the gateway.
#[derive(Debug, Clone, Copy, PartialEq, Eq, Structural)]
pub enum RejectionReason {
    NotionalTooLarge,
    InvalidQty,
    InvalidPrice,
    PositionLimitExceeded,
    InsufficientMargin,
    AccountFrozen,
}

/// The value of an order.
pub open spec fn order_notional(price: Price, qty: Qty) -> int {
    fixed::div_to_zero(price.0 * qty.0, fixed::SCALE as int)
}

/// The result of the static check.
pub open spec fn static_verdict(price: Price, qty: Qty, limits: RiskLimits) -> Result<
    (),
    RejectionReason,
> {
    if order_notional(price, qty) > limits.max_order_notional {
        Err(RejectionReason::NotionalTooLarge)
    } else if qty.0 == 0 {
        Err(RejectionReason::InvalidQty)
    } else if price.0 <= 0 {
        Err(RejectionReason::InvalidPrice)
    } else {
        Ok(())
    }
}

/// The value of an order, exactly.
pub(crate) fn notional_of(price: Price, qty: Qty) -> (r: i128)
    ensures
        r == order_notional(price, qty),
        -0x8000_0000_0000_0000 * 0x1_0000_0000_0000_0000 <= r <= 0x8000_0000_0000_0000
            * 0x1_0000_0000_0000_0000,
{
    proof {
        fixed::lemma_product_bound(
            price.0 as int,
            qty.0 as int,
            0x8000_0000_0000_0000,
            0xFFFF_FFFF_FFFF_FFFF,
        );
    }
    let product: i128 = price.0 as i128 * qty.0 as i128;
    fixed::divide(product, fixed::SCALE)
}

/// Static check of an order: its value, its quantity and its price.
pub fn tier0_order_check(price: Price, qty: Qty, limits: &RiskLimits) -> (r: Result<
    (),
    RejectionReason,
>)
    ensures
        r == static_verdict(price, qty, *limits),
{
    let notional: i128 = notional_of(price, qty);
    if notional > limits.max_order_notional as i128 {
        return Err(RejectionReason::NotionalTooLarge);
    }
    if qty.0 == 0 {
        return Err(RejectionReason::InvalidQty);
    }
    if price.0 <= 0 {
        return Err(RejectionReason::InvalidPrice);
    }
    Ok(())
}

/// An order passes the static check if and only if it has a quantity and a
/// positive price, and price times quantity, scaled back, is within the limit.
pub proof fn law_static_check(price: Price, qty: Qty, limits: RiskLimits)
    ensures
        static_verdict(price, qty, limits) is Ok <==> {
            &&& qty.0 > 0
            &&& price.0 > 0
            &&& price.0 * qty.0 < (limits.max_order_notional + 1) * 100_000_000
        },
        price.0 > 0 ==> (static_verdict(price, qty, limits) == Err::<(), RejectionReason>(
            RejectionReason::NotionalTooLarge,
        ) <==> price.0 * qty.0 >= (limits.max_order_notional + 1) * 100_000_000),
        static_verdict(price, qty, limits) == Err::<(), RejectionReason>(
            RejectionReason::InvalidQty,
        ) <==> qty.0 == 0 && limits.max_order_notional >= 0,
        static_verdict(price, qty, limits) == Err::<(), RejectionReason>(
            RejectionReason::InvalidPrice,
        ) ==> qty.0 > 0 && price.0 <= 0,
        qty.0 > 0 && price.0 <= 0 && limits.max_order_notional >= 0 ==> static_verdict(
            price,
            qty,
            limits,
        ) == Err::<(), RejectionReason>(RejectionReason::InvalidPrice),
{
    let exact = price.0 * qty.0;
    assert(price.0 > 0 ==> exact >= 0) by (nonlinear_arith)
        requires
            exact == price.0 * qty.0,
    ;
    assert(price.0 <= 0 ==> exact <= 0) by (nonlinear_arith)
        requires
            exact == price.0 * qty.0,
    ;
    assert(qty.0 == 0 ==> exact == 0) by (nonlinear_arith)
        requires
            exact == price.0 * qty.0,
    ;
}

/// Unless configured otherwise an order may be worth 100,000 and a position
/// hold 100 units, a tenth of the value is the initial margin and a twentieth
/// the maintenance margin, and 10,000 may be lost.
pub proof fn law_standard_limits()
    ensures
        RiskLimits::standard().max_order_notional == 100_000 * 100_000_000,
        RiskLimits::standard().max_position_qty == 100 * 100_000_000,
        RiskLimits::standard().max_unrealised_loss == 10_000 * 100_000_000,
        RiskLimits::standard().initial_margin_fraction * 10 == 1_000_000,
        RiskLimits::standard().maintenance_margin_fraction * 20 == 1_000_000,
{
}

/// The value of an order is price times quantity, scaled back and rounded
/// towards zero. It is what the limit is held against first.
pub proof fn law_order_value(price: Price, qty: Qty, limits: RiskLimits)
    ensures
        ({
            let left = price.0 * qty.0 - order_notional(price, qty) * 100_000_000;
            &&& price.0 >= 0 ==> 0 <= left < 100_000_000
            &&& price.0 <= 0 ==> -100_000_000 < left <= 0
        }),
        static_verdict(price, qty, limits) == Err::<(), RejectionReason>(
            RejectionReason::NotionalTooLarge,
        ) <==> order_notional(price, qty) > limits.max_order_notional,
{
    let exact = price.0 * qty.0;
    assert(price.0 >= 0 ==> exact >= 0) by (nonlinear_arith)
        requires
            exact == price.0 * qty.0,
    ;
    assert(price.0 <= 0 ==> exact <= 0) by (nonlinear_arith)
        requires
            exact == price.0 * qty.0,
    ;
}

} // verus!

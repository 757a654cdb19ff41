//! Order check at the gateway, before an order is sequenced.

use crate::account_state::AccountRiskState;
use crate::core_types::price::Price;
use crate::core_types::qty::Qty;
use crate::risk_engine::config;
use crate::risk_engine::config::{RejectionReason, RiskLimits};
use crate::risk_engine::fixed;
use vstd::prelude::*;

verus! {

/// What the check reads of an account.
#[derive(Clone, Copy, Debug, PartialEq, Eq, Structural)]
pub struct AccountSnapshot {
    pub balance: i64,
    pub used_margin: i64,
    pub frozen: bool,
}

/// The margin that an order needs.
pub open spec fn order_margin(limits: RiskLimits, price: Price, qty: Qty) -> i64 {
    fixed::clamped(
        fixed::div_to_zero(
            fixed::clamped(config::order_notional(price, qty)) * limits.initial_margin_fraction,
            fixed::FRACTION_SCALE as int,
        ),
    )
}

/// The margin that an account has free.
pub open spec fn free_margin(snapshot: AccountSnapshot) -> i64 {
    fixed::clamped(snapshot.balance - snapshot.used_margin)
}

/// The result of the check: a frozen account may not trade, the order itself
/// has to be in order, and its margin has to be free.
pub open spec fn verdict(
    snapshot: AccountSnapshot,
    limits: RiskLimits,
    price: Price,
    qty: Qty,
) -> Result<(), RejectionReason> {
    if snapshot.frozen {
        Err(RejectionReason::AccountFrozen)
    } else if config::static_verdict(price, qty, limits) is Err {
        config::static_verdict(price, qty, limits)
    } else if order_margin(limits, price, qty) > free_margin(snapshot) {
        Err(RejectionReason::InsufficientMargin)
    } else {
        Ok(())
    }
}

/// The part of the published state that the check reads.
pub open spec fn snapshot_of(state: AccountRiskState) -> AccountSnapshot {
    AccountSnapshot {
        balance: state.balance,
        used_margin: state.used_margin,
        frozen: state.frozen,
    }
}

/// Checks an order of an account.
pub fn check(
    account_state: &AccountRiskState,
    limits: &RiskLimits,
    price: Price,
    qty: Qty,
) -> (r: Result<(), RejectionReason>)
    ensures
        r == verdict(snapshot_of(*account_state), *limits, price, qty),
{
    let state = account_state.read();
    let snapshot = AccountSnapshot {
        balance: state.balance,
        used_margin: state.used_margin,
        frozen: state.frozen,
    };
    if snapshot.frozen {
        return Err(RejectionReason::AccountFrozen);
    }
    match config::tier0_order_check(price, qty, limits) {
        Ok(_) => {},
        Err(e) => {
            return Err(e);
        },
    }
    let notional: i64 = fixed::clamp(config::notional_of(price, qty));
    proof {
        fixed::lemma_product_bound(
            notional as int,
            limits.initial_margin_fraction as int,
            0x8000_0000_0000_0000,
            0x8000_0000_0000_0000,
        );
    }
    let required: i64 = fixed::clamp(
        fixed::divide(
            notional as i128 * limits.initial_margin_fraction as i128,
            fixed::FRACTION_SCALE,
        ),
    );
    let available: i64 = fixed::clamp(snapshot.balance as i128 - snapshot.used_margin as i128);
    if required > available {
        return Err(RejectionReason::InsufficientMargin);
    }
    Ok(())
}

/// The margin that an order needs is the initial fraction of price times
/// quantity: `value` is that product scaled back, and the margin is `value`
/// times the fraction, scaled back.
pub proof fn law_order_margin_is_a_fraction_of_the_value(
    limits: RiskLimits,
    price: Price,
    qty: Qty,
    value: int,
)
    requires
        price.0 >= 0,
        limits.initial_margin_fraction >= 0,
        value <= i64::MAX,
        value * 100_000_000 <= price.0 * qty.0 < (value + 1) * 100_000_000,
    ensures
        ({
            let margin = order_margin(limits, price, qty);
            let exact = value * limits.initial_margin_fraction;
            &&& margin >= 0
            &&& margin < i64::MAX ==> margin * 1_000_000 <= exact < (margin + 1) * 1_000_000
            &&& margin == i64::MAX ==> exact >= margin * 1_000_000
        }),
{
    let product = price.0 * qty.0;
    assert(product >= 0) by (nonlinear_arith)
        requires
            product == price.0 * qty.0,
            price.0 >= 0,
    ;
    assert(config::order_notional(price, qty) == value);
    let exact = value * limits.initial_margin_fraction;
    assert(exact >= 0) by (nonlinear_arith)
        requires
            exact == value * limits.initial_margin_fraction,
            value >= 0,
            limits.initial_margin_fraction >= 0,
    ;
}

/// An order passes at the gateway if and only if its account is not frozen, it
/// has a positive price and a quantity, its value is within the limit, and the
/// initial margin on its whole value does not exceed what the account has
/// free. (A fraction up to the whole value; `value` is price times quantity,
/// scaled back.)
pub proof fn law_order_passes_if_its_margin_is_free(
    snapshot: AccountSnapshot,
    limits: RiskLimits,
    price: Price,
    qty: Qty,
    value: int,
)
    requires
        price.0 > 0,
        qty.0 > 0,
        0 <= limits.initial_margin_fraction <= 1_000_000,
        value * 100_000_000 <= price.0 * qty.0 < (value + 1) * 100_000_000,
    ensures
        verdict(snapshot, limits, price, qty) is Ok <==> {
            &&& !snapshot.frozen
            &&& value <= limits.max_order_notional
            &&& value * limits.initial_margin_fraction < (snapshot.balance - snapshot.used_margin
                + 1) * 1_000_000
        },
        verdict(snapshot, limits, price, qty) == Err::<(), RejectionReason>(
            RejectionReason::AccountFrozen,
        ) <==> snapshot.frozen,
        verdict(snapshot, limits, price, qty) == Err::<(), RejectionReason>(
            RejectionReason::NotionalTooLarge,
        ) <==> !snapshot.frozen && value > limits.max_order_notional,
        verdict(snapshot, limits, price, qty) == Err::<(), RejectionReason>(
            RejectionReason::InsufficientMargin,
        ) <==> {
            &&& !snapshot.frozen
            &&& value <= limits.max_order_notional
            &&& value * limits.initial_margin_fraction >= (snapshot.balance
                - snapshot.used_margin + 1) * 1_000_000
        },
{
    let product = price.0 * qty.0;
    assert(product >= 0) by (nonlinear_arith)
        requires
            product == price.0 * qty.0,
            price.0 > 0,
    ;
    assert(config::order_notional(price, qty) == value);
    if value <= limits.max_order_notional {
        let f = limits.initial_margin_fraction as int;
        let exact = value * f;
        assert(0 <= exact <= value * 1_000_000) by (nonlinear_arith)
            requires
                exact == value * f,
                value >= 0,
                0 <= f <= 1_000_000,
        ;
        law_order_margin_is_a_fraction_of_the_value(limits, price, qty, value);
    }
}

/// An order without a quantity or with a price that is not positive never
/// passes, and a frozen account passes none.
pub proof fn law_empty_orders_never_pass(
    snapshot: AccountSnapshot,
    limits: RiskLimits,
    price: Price,
    qty: Qty,
)
    requires
        qty.0 == 0 || price.0 <= 0 || snapshot.frozen,
    ensures
        verdict(snapshot, limits, price, qty) is Err,
        snapshot.frozen ==> verdict(snapshot, limits, price, qty) == Err::<(), RejectionReason>(
            RejectionReason::AccountFrozen,
        ),
        !snapshot.frozen && limits.max_order_notional >= 0 && qty.0 == 0 ==> verdict(
            snapshot,
            limits,
            price,
            qty,
        ) == Err::<(), RejectionReason>(RejectionReason::InvalidQty),
        !snapshot.frozen && limits.max_order_notional >= 0 && qty.0 > 0 ==> verdict(
            snapshot,
            limits,
            price,
            qty,
        ) == Err::<(), RejectionReason>(RejectionReason::InvalidPrice),
{
    config::law_static_check(price, qty, limits);
}

/// A smaller order at the same price passes where a larger one does, and an
/// account with more free margin passes what one with less does.
pub proof fn law_smaller_orders_pass(
    snapshot: AccountSnapshot,
    richer: AccountSnapshot,
    limits: RiskLimits,
    price: Price,
    qty: Qty,
    smaller: Qty,
)
    requires
        verdict(snapshot, limits, price, qty) is Ok,
        0 < smaller.0 <= qty.0,
        limits.initial_margin_fraction >= 0,
        !richer.frozen,
        richer.balance - richer.used_margin >= snapshot.balance - snapshot.used_margin,
    ensures
        verdict(richer, limits, price, smaller) is Ok,
{
    let a = price.0 * qty.0;
    let b = price.0 * smaller.0;
    assert(0 <= b <= a) by (nonlinear_arith)
        requires
            price.0 > 0,
            0 < smaller.0 <= qty.0,
            a == price.0 * qty.0,
            b == price.0 * smaller.0,
    ;
    let v = config::order_notional(price, qty);
    let w = config::order_notional(price, smaller);
    assert(0 <= w <= v);
    let f = limits.initial_margin_fraction as int;
    assert(0 <= w * f <= v * f) by (nonlinear_arith)
        requires
            0 <= w <= v,
            f >= 0,
    ;
}

/// What the check reads of an account is what is published of it.
pub proof fn law_snapshot_is_the_published_state(state: AccountRiskState)
    ensures
        snapshot_of(state).balance == state.balance,
        snapshot_of(state).used_margin == state.used_margin,
        snapshot_of(state).frozen == state.frozen,
{
}

/// The margin of an order is its value, kept in range, times the initial
/// fraction, scaled back, rounded towards zero and kept in range. An order
/// that is in order passes if and only if the account is not frozen and has
/// that much more than it uses, or the margin is at the low end of its range.
pub proof fn law_margin_is_held_against_what_is_free(
    snapshot: AccountSnapshot,
    limits: RiskLimits,
    price: Price,
    qty: Qty,
)
    ensures
        ({
            let value = config::order_notional(price, qty);
            let kept = if value > i64::MAX {
                i64::MAX as int
            } else if value < i64::MIN {
                i64::MIN as int
            } else {
                value
            };
            let exact = kept * limits.initial_margin_fraction;
            let margin = order_margin(limits, price, qty);
            &&& exact >= 0 ==> margin >= 0
            &&& exact >= 0 && margin < i64::MAX ==> margin * 1_000_000 <= exact < (margin + 1)
                * 1_000_000
            &&& exact >= 0 && margin == i64::MAX ==> exact >= margin * 1_000_000
            &&& exact < 0 ==> margin <= 0
            &&& exact < 0 && margin > i64::MIN ==> (margin - 1) * 1_000_000 < exact <= margin
                * 1_000_000
            &&& exact < 0 && margin == i64::MIN ==> exact <= margin * 1_000_000
        }),
        verdict(snapshot, limits, price, qty) is Ok <==> {
            &&& !snapshot.frozen
            &&& config::static_verdict(price, qty, limits) is Ok
            &&& order_margin(limits, price, qty) <= snapshot.balance - snapshot.used_margin
                || order_margin(limits, price, qty) == i64::MIN
        },
        verdict(snapshot, limits, price, qty) == Err::<(), RejectionReason>(
            RejectionReason::InsufficientMargin,
        ) <==> {
            &&& !snapshot.frozen
            &&& config::static_verdict(price, qty, limits) is Ok
            &&& order_margin(limits, price, qty) > snapshot.balance - snapshot.used_margin
            &&& order_margin(limits, price, qty) > i64::MIN
        },
        !snapshot.frozen && config::static_verdict(price, qty, limits) is Err ==> verdict(
            snapshot,
            limits,
            price,
            qty,
        ) == config::static_verdict(price, qty, limits),
{
}

} // verus!

//! Position of one account in one symbol.

use crate::core_types::price::Price;
use crate::core_types::qty::Qty;
use crate::core_types::side::Side;
use crate::risk_engine::fixed;
use vstd::prelude::*;

verus! {

/// A running position.
#[derive(Debug, Clone, Copy, PartialEq, Eq, Structural)]
pub struct Position {
    /// Net quantity: positive is long, negative is short.
    pub net_qty: i64,
    /// Volume-weighted average price of the open quantity.
    pub avg_entry_price: i64,
    /// Profit and loss of everything that was closed.
    pub realised_pnl: i64,
}

impl Default for Position {
    fn default() -> (r: Position)
        ensures
            r == Position::flat(),
    {
        Position { net_qty: 0, avg_entry_price: 0, realised_pnl: 0 }
    }
}

/// The quantity of a fill with the sign of its side.
pub open spec fn signed(side: Side, qty: Qty) -> int {
    match side {
        Side::Buy => qty.0 as int,
        Side::Sell => -(qty.0 as int),
    }
}

impl Position {
    /// No position at all.
    pub open spec fn flat() -> Position {
        Position { net_qty: 0, avg_entry_price: 0, realised_pnl: 0 }
    }

    /// The net quantity after a fill.
    pub open spec fn net_after(self, side: Side, qty: Qty) -> int {
        self.net_qty + signed(side, qty)
    }

    /// The fill has a quantity, and the position before and after it can be
    /// turned around.
    pub open spec fn can_take(self, side: Side, qty: Qty) -> bool {
        &&& qty.0 > 0
        &&& self.net_qty > i64::MIN
        &&& i64::MIN < self.net_after(side, qty) <= i64::MAX
    }

    /// The fill goes against the open position.
    pub open spec fn closes(self, side: Side) -> bool {
        match side {
            Side::Buy => self.net_qty < 0,
            Side::Sell => self.net_qty > 0,
        }
    }

    /// How much of the open quantity a fill closes.
    pub open spec fn closed_qty(self, side: Side, qty: Qty) -> int {
        if !self.closes(side) {
            0
        } else if qty.0 < fixed::magnitude(self.net_qty as int) {
            qty.0 as int
        } else {
            fixed::magnitude(self.net_qty as int)
        }
    }

    /// The profit of a fill: for each closed unit the difference between the
    /// fill price and the average entry price, in the direction of the
    /// position.
    pub open spec fn fill_pnl(self, side: Side, price: Price, qty: Qty) -> int {
        fixed::div_to_zero(
            (price.0 - self.avg_entry_price) * (if self.net_qty > 0 {
                1int
            } else {
                -1int
            }) * self.closed_qty(side, qty),
            fixed::SCALE as int,
        )
    }

    /// The average entry price after a fill: unchanged while the position is
    /// reduced, zero when it is closed, the volume-weighted average while it
    /// grows, and the fill price when it opens or turns around.
    pub open spec fn avg_after(self, side: Side, price: Price, qty: Qty) -> int {
        let net = self.net_after(side, qty);
        if self.net_qty == 0 {
            price.0 as int
        } else if !self.closes(side) {
            fixed::div_to_zero(
                self.avg_entry_price * fixed::magnitude(self.net_qty as int) + price.0 * qty.0,
                fixed::magnitude(net),
            )
        } else if net == 0 {
            0
        } else if (net > 0) != (self.net_qty > 0) {
            price.0 as int
        } else {
            self.avg_entry_price as int
        }
    }

    /// The position after a fill.
    pub open spec fn after_fill(self, side: Side, price: Price, qty: Qty) -> Position {
        Position {
            net_qty: self.net_after(side, qty) as i64,
            avg_entry_price: self.avg_after(side, price, qty) as i64,
            realised_pnl: if self.closes(side) {
                fixed::clamped(self.realised_pnl + self.fill_pnl(side, price, qty))
            } else {
                self.realised_pnl
            },
        }
    }

    /// The unrealised profit at a price.
    pub open spec fn spec_unrealised_pnl(self, mark: Price) -> i64 {
        fixed::clamped(
            fixed::div_to_zero((mark.0 - self.avg_entry_price) * self.net_qty, fixed::SCALE as int),
        )
    }

    /// The value of the position at a price, never negative.
    pub open spec fn spec_notional(self, mark: Price) -> i64 {
        fixed::clamped(
            fixed::magnitude(mark.0 as int) * fixed::magnitude(self.net_qty as int)
                / fixed::SCALE as int,
        )
    }

    /// Applies a fill: a buy adds to the net quantity, a sell takes from it.
    pub fn apply_fill(&mut self, side: Side, price: Price, qty: Qty)
        requires
            old(self).can_take(side, qty),
        ensures
            *final(self) == old(self).after_fill(side, price, qty),
    {
        let ghost pre = *self;
        let signed_qty: i128 = match side {
            Side::Buy => qty.0 as i128,
            Side::Sell => -(qty.0 as i128),
        };
        let prev_qty: i64 = self.net_qty;
        let new_qty: i64 = (prev_qty as i128 + signed_qty) as i64;
        if prev_qty == 0 {
            self.avg_entry_price = price.0;
            self.net_qty = new_qty;
            return;
        }
        if (prev_qty > 0) == (signed_qty > 0) {
            // The position grows: take the volume-weighted average.
            proof {
                lemma_average(
                    self.avg_entry_price as int,
                    fixed::magnitude(prev_qty as int),
                    price.0 as int,
                    qty.0 as int,
                );
            }
            let numerator: i128 = self.avg_entry_price as i128 * fixed::size(prev_qty) + price.0
                as i128 * qty.0 as i128;
            let avg: i128 = fixed::divide(numerator, fixed::size(new_qty));
            self.avg_entry_price = avg as i64;
            self.net_qty = new_qty;
            return;
        }
        // The position shrinks, closes or turns around.
        let open: i128 = fixed::size(prev_qty);
        let close_qty: i128 = if (qty.0 as i128) < open {
            qty.0 as i128
        } else {
            open
        };
        let per_unit: i128 = if prev_qty > 0 {
            price.0 as i128 - self.avg_entry_price as i128
        } else {
            self.avg_entry_price as i128 - price.0 as i128
        };
        proof {
            fixed::lemma_product_bound(
                per_unit as int,
                close_qty as int,
                0xFFFF_FFFF_FFFF_FFFF,
                0x7FFF_FFFF_FFFF_FFFF,
            );
            let diff = price.0 - pre.avg_entry_price;
            assert(diff * 1 == diff && diff * -1 == -diff) by (nonlinear_arith);
        }
        let pnl: i128 = fixed::divide(per_unit * close_qty, fixed::SCALE);
        assert(pnl == pre.fill_pnl(side, price, qty));
        proof {
            lemma_pnl_bound(per_unit * close_qty);
        }
        self.realised_pnl = fixed::clamp(self.realised_pnl as i128 + pnl);
        self.net_qty = new_qty;
        if new_qty == 0 {
            self.avg_entry_price = 0;
        } else if (new_qty > 0) != (prev_qty > 0) {
            self.avg_entry_price = price.0;
        }
    }

    /// Profit or loss if the position were closed at `mark_price`.
    pub fn unrealised_pnl(&self, mark_price: Price) -> (r: i64)
        ensures
            r == self.spec_unrealised_pnl(mark_price),
    {
        if self.net_qty == 0 {
            proof {
                assert((mark_price.0 - self.avg_entry_price) * 0 == 0);
            }
            return 0;
        }
        let per_unit: i128 = mark_price.0 as i128 - self.avg_entry_price as i128;
        proof {
            fixed::lemma_product_bound(
                per_unit as int,
                self.net_qty as int,
                0xFFFF_FFFF_FFFF_FFFF,
                0x8000_0000_0000_0000,
            );
        }
        fixed::clamp(fixed::divide(per_unit * self.net_qty as i128, fixed::SCALE))
    }

    /// Value of the position at `mark_price`, never negative.
    pub fn notional(&self, mark_price: Price) -> (r: i64)
        ensures
            r == self.spec_notional(mark_price),
            r >= 0,
    {
        let open: i128 = fixed::size(self.net_qty);
        let mark: i128 = fixed::size(mark_price.0);
        proof {
            fixed::lemma_product_bound(
                mark as int,
                open as int,
                0x8000_0000_0000_0000,
                0x8000_0000_0000_0000,
            );
            assert(0 <= mark * open) by (nonlinear_arith)
                requires
                    0 <= mark,
                    0 <= open,
            ;
        }
        fixed::clamp(mark * open / fixed::SCALE)
    }
}

/// A product of a price difference and a quantity, scaled back, is far inside
/// the range of `i128`.
proof fn lemma_pnl_bound(product: int)
    requires
        fixed::magnitude(product) <= 0xFFFF_FFFF_FFFF_FFFF * 0x7FFF_FFFF_FFFF_FFFF,
    ensures
        fixed::magnitude(fixed::div_to_zero(product, fixed::SCALE as int))
            <= 0x1_0000_0000_0000_0000_0000_0000_0000,
{
}

/// The volume-weighted average of two prices is a price, and so fits.
pub proof fn lemma_average(a: int, m: int, b: int, n: int)
    requires
        i64::MIN <= a <= i64::MAX,
        i64::MIN <= b <= i64::MAX,
        0 < m,
        0 < n,
        m + n <= i64::MAX,
    ensures
        fixed::magnitude(a * m) <= 0x8000_0000_0000_0000 * m,
        fixed::magnitude(b * n) <= 0x8000_0000_0000_0000 * n,
        fixed::magnitude(a * m + b * n) <= 0x8000_0000_0000_0000 * 0x7FFF_FFFF_FFFF_FFFF,
        i64::MIN <= fixed::div_to_zero(a * m + b * n, m + n) <= i64::MAX,
{
    fixed::lemma_product_bound(a, m, 0x8000_0000_0000_0000, m);
    fixed::lemma_product_bound(b, n, 0x8000_0000_0000_0000, n);
    assert(0x8000_0000_0000_0000 * m + 0x8000_0000_0000_0000 * n <= 0x8000_0000_0000_0000
        * 0x7FFF_FFFF_FFFF_FFFF);
    let top: int = 0x7FFF_FFFF_FFFF_FFFF;
    let low: int = 0x8000_0000_0000_0000;
    let s = a * m + b * n;
    assert(s <= top * (m + n) && s >= -low * (m + n)) by (nonlinear_arith)
        requires
            a <= top,
            b <= top,
            a >= -low,
            b >= -low,
            m > 0,
            n > 0,
            s == a * m + b * n,
    ;
    if s >= 0 {
        assert(s / (m + n) <= top) by (nonlinear_arith)
            requires
                s <= top * (m + n),
                m + n > 0,
        ;
        fixed::lemma_div_shrinks(s, m + n);
    } else {
        assert((-s) / (m + n) <= low) by (nonlinear_arith)
            requires
                -s <= low * (m + n),
                m + n > 0,
        ;
        fixed::lemma_div_shrinks(-s, m + n);
    }
}

/// The fill has a quantity, and neither the position nor what it leads to is
/// at the end of the range.
pub open spec fn countable(p: Position, side: Side, qty: Qty) -> bool {
    &&& qty.0 > 0
    &&& p.net_qty > i64::MIN
    &&& side is Buy ==> p.net_qty + qty.0 <= i64::MAX
    &&& side is Sell ==> p.net_qty - qty.0 > i64::MIN
}

/// A buy adds its quantity to the net quantity, a sell takes it off.
pub proof fn law_fill_moves_net_qty(p: Position, side: Side, price: Price, qty: Qty)
    requires
        countable(p, side, qty),
    ensures
        p.can_take(side, qty),
        side is Buy ==> p.after_fill(side, price, qty).net_qty == p.net_qty + qty.0,
        side is Sell ==> p.after_fill(side, price, qty).net_qty == p.net_qty - qty.0,
{
}

/// A fill on a flat position opens one at its own price and realises nothing.
pub proof fn law_opening_takes_the_fill_price(p: Position, side: Side, price: Price, qty: Qty)
    requires
        countable(p, side, qty),
        p.net_qty == 0,
    ensures
        p.after_fill(side, price, qty).avg_entry_price == price.0,
        p.after_fill(side, price, qty).realised_pnl == p.realised_pnl,
{
}

/// A fill that adds to a long or a short position leaves the volume-weighted
/// average: the new average times the new size is the old average times the
/// old size plus price times quantity, up to a rest below the new size that is
/// dropped towards zero. Nothing is realised.
pub proof fn law_growing_averages_by_volume(p: Position, side: Side, price: Price, qty: Qty)
    requires
        countable(p, side, qty),
        (p.net_qty > 0 && side is Buy) || (p.net_qty < 0 && side is Sell),
    ensures
        ({
            let later = p.after_fill(side, price, qty);
            let size = if p.net_qty > 0 {
                p.net_qty as int
            } else {
                -p.net_qty
            };
            let value = p.avg_entry_price * size + price.0 * qty.0;
            let kept = later.avg_entry_price * (size + qty.0);
            &&& later.net_qty == size + qty.0 || later.net_qty == -(size + qty.0)
            &&& value >= 0 ==> 0 <= value - kept < size + qty.0
            &&& value <= 0 ==> 0 <= kept - value < size + qty.0
            &&& later.realised_pnl == p.realised_pnl
        }),
{
    let size = if p.net_qty > 0 {
        p.net_qty as int
    } else {
        -p.net_qty
    };
    let q = qty.0 as int;
    lemma_average(p.avg_entry_price as int, size, price.0 as int, q);
    let value = p.avg_entry_price * size + price.0 * q;
    let all = size + q;
    let later = p.after_fill(side, price, qty);
    assert(fixed::magnitude(p.net_after(side, qty)) == all);
    let avg = later.avg_entry_price as int;
    assert(avg == fixed::div_to_zero(value, all));
    lemma_quotient(value, all, avg);
    assert(later.avg_entry_price * (size + qty.0) == avg * all);
}

/// What a quotient that is rounded towards zero is: the divisor goes that
/// often into the number, with a rest of the same sign below the divisor.
pub proof fn lemma_quotient(a: int, b: int, q: int)
    requires
        b > 0,
        q == fixed::div_to_zero(a, b),
    ensures
        a >= 0 ==> 0 <= a - q * b < b,
        a <= 0 ==> 0 <= q * b - a < b,
{
    if a >= 0 {
        assert(0 <= a - q * b < b) by (nonlinear_arith)
            requires
                b > 0,
                q == a / b,
        ;
        if a == 0 {
            assert(q * b == 0) by (nonlinear_arith)
                requires
                    q == 0int / b,
                    b > 0,
            ;
        }
    } else {
        let n = -a;
        let r = n / b;
        assert(0 <= n - r * b < b) by (nonlinear_arith)
            requires
                b > 0,
                r == n / b,
        ;
        assert((-r) * b == -(r * b)) by (nonlinear_arith);
    }
}

/// A fill against the position keeps the average entry price while some of it
/// stays open, leaves none when all is closed, and takes its own price for
/// what is opened on the other side.
pub proof fn law_closing_keeps_the_average(p: Position, side: Side, price: Price, qty: Qty)
    requires
        countable(p, side, qty),
        (p.net_qty > 0 && side is Sell) || (p.net_qty < 0 && side is Buy),
    ensures
        ({
            let later = p.after_fill(side, price, qty);
            let size = if p.net_qty > 0 {
                p.net_qty as int
            } else {
                -p.net_qty
            };
            &&& qty.0 < size ==> later.avg_entry_price == p.avg_entry_price
            &&& qty.0 == size ==> later.avg_entry_price == 0 && later.net_qty == 0
            &&& qty.0 > size ==> later.avg_entry_price == price.0
        }),
{
}

/// A fill against the position realises, for each unit that it closes, the way
/// of the price since the entry, in the direction of the position. The amount
/// is scaled back towards zero; `gain` is the exact product before that.
pub proof fn law_closing_realises_the_difference(
    p: Position,
    side: Side,
    price: Price,
    qty: Qty,
    closed: int,
    gain: int,
)
    requires
        countable(p, side, qty),
        (p.net_qty > 0 && side is Sell) || (p.net_qty < 0 && side is Buy),
        0 <= closed <= qty.0,
        p.net_qty > 0 ==> closed <= p.net_qty && gain == (price.0 - p.avg_entry_price) * closed,
        p.net_qty < 0 ==> closed <= -p.net_qty && gain == (p.avg_entry_price - price.0) * closed,
        closed == qty.0 || closed == p.net_qty || closed == -p.net_qty,
    ensures
        ({
            let later = p.after_fill(side, price, qty);
            let made = later.realised_pnl - p.realised_pnl;
            &&& i64::MIN < later.realised_pnl < i64::MAX && gain >= 0 ==> 0 <= gain - made
                * 100_000_000 < 100_000_000
            &&& i64::MIN < later.realised_pnl < i64::MAX && gain <= 0 ==> 0 <= made * 100_000_000
                - gain < 100_000_000
            &&& later.realised_pnl == i64::MAX && gain >= 0 ==> gain >= made * 100_000_000
            &&& later.realised_pnl == i64::MIN && gain <= 0 ==> gain <= made * 100_000_000
            &&& gain >= 0 ==> made >= 0
            &&& gain <= 0 ==> made <= 0
        }),
{
    let d = price.0 - p.avg_entry_price;
    assert(d * 1 == d && d * -1 == -d) by (nonlinear_arith);
    assert(p.closed_qty(side, qty) == closed);
    assert(gain == d * (if p.net_qty > 0 {
        1int
    } else {
        -1int
    }) * closed);
    lemma_quotient(gain, 100_000_000, p.fill_pnl(side, price, qty));
}

/// Long and short are mirror images: the mirrored position after the mirrored
/// fill has the opposite net quantity and the same average entry price.
pub proof fn law_long_and_short_mirror(p: Position, side: Side, price: Price, qty: Qty)
    requires
        countable(p, side, qty),
        p.net_qty - qty.0 > i64::MIN,
        p.net_qty + qty.0 <= i64::MAX,
    ensures
        ({
            let mirrored = Position { net_qty: (-p.net_qty) as i64, ..p };
            let other = if side is Buy {
                Side::Sell
            } else {
                Side::Buy
            };
            let a = p.after_fill(side, price, qty);
            let b = mirrored.after_fill(other, price, qty);
            &&& b.net_qty == -a.net_qty
            &&& b.avg_entry_price == a.avg_entry_price
        }),
{
}

/// The unrealised profit is the way of the price since the entry times the
/// net quantity, scaled back towards zero and kept in range.
pub proof fn law_unrealised_follows_the_price(p: Position, mark: Price)
    ensures
        ({
            let exact = (mark.0 - p.avg_entry_price) * p.net_qty;
            let r = p.spec_unrealised_pnl(mark);
            &&& i64::MIN < r < i64::MAX && exact >= 0 ==> 0 <= exact - r * 100_000_000
                < 100_000_000
            &&& i64::MIN < r < i64::MAX && exact <= 0 ==> 0 <= r * 100_000_000 - exact
                < 100_000_000
            &&& r == i64::MAX ==> exact >= r * 100_000_000
            &&& r == i64::MIN ==> exact <= r * 100_000_000
        }),
{
    let exact = (mark.0 - p.avg_entry_price) * p.net_qty;
    lemma_quotient(exact, 100_000_000, fixed::div_to_zero(exact, 100_000_000));
}

/// Closing a position at a price realises what was unrealised at that price.
pub proof fn law_closing_realises_the_unrealised(p: Position, mark: Price)
    requires
        p.net_qty != 0,
        p.net_qty > i64::MIN,
        i64::MIN < p.spec_unrealised_pnl(mark) < i64::MAX,
        i64::MIN < p.realised_pnl + p.spec_unrealised_pnl(mark) < i64::MAX,
    ensures
        ({
            let side = if p.net_qty > 0 {
                Side::Sell
            } else {
                Side::Buy
            };
            let size = if p.net_qty > 0 {
                p.net_qty as int
            } else {
                -p.net_qty
            };
            p.after_fill(side, mark, Qty(size as u64)).realised_pnl == p.realised_pnl
                + p.spec_unrealised_pnl(mark)
        }),
{
    let d = mark.0 - p.avg_entry_price;
    let n = p.net_qty as int;
    assert(d * 1 * n == d * n && d * -1 * (-n) == d * n) by (nonlinear_arith);
}

/// The value of a position is the size of price times quantity, scaled back
/// and kept in range; the direction of the position plays no part.
pub proof fn law_notional_is_price_times_size(p: Position, mark: Price)
    ensures
        ({
            let exact = mark.0 * p.net_qty;
            let size = if exact < 0 {
                -exact
            } else {
                exact
            };
            let v = p.spec_notional(mark);
            &&& 0 <= v
            &&& v < i64::MAX ==> v * 100_000_000 <= size < (v + 1) * 100_000_000
            &&& v == i64::MAX ==> v * 100_000_000 <= size
        }),
{
    let a = fixed::magnitude(mark.0 as int);
    let b = fixed::magnitude(p.net_qty as int);
    let exact = mark.0 * p.net_qty;
    assert(a * b == (if exact < 0 {
        -exact
    } else {
        exact
    })) by (nonlinear_arith)
        requires
            a == mark.0 || a == -mark.0,
            b == p.net_qty || b == -p.net_qty,
            a >= 0,
            b >= 0,
            exact == mark.0 * p.net_qty,
    ;
    assert(a * b >= 0);
}

} // verus!

//! The two sides of the market.

use vstd::prelude::*;

verus! {

/// Order side: `Buy` (bid) or `Sell` (ask).
#[derive(Debug, Clone, Copy, PartialEq, Eq, Hash, Structural)]
pub enum Side {
    Buy,
    Sell,
}

impl Side {
    /// The opposite side, as a model function.
    pub open spec fn spec_opposite(self) -> Side {
        match self {
            Side::Buy => Side::Sell,
            Side::Sell => Side::Buy,
        }
    }

    /// The side whose resting orders an order of this side trades with.
    pub fn opposite(self) -> (r: Side)
        ensures
            r == self.spec_opposite(),
    {
        match self {
            Side::Buy => Side::Sell,
            Side::Sell => Side::Buy,
        }
    }

    /// `1` for a buy and `-1` for a sell, as used in position arithmetic.
    pub fn sign(self) -> (r: i64)
        ensures
            r == match self {
                Side::Buy => 1int,
                Side::Sell => -1int,
            },
    {
        match self {
            Side::Buy => 1,
            Side::Sell => -1,
        }
    }

    pub fn is_buy(self) -> (b: bool)
        ensures
            b == (self is Buy),
    {
        matches!(self, Side::Buy)
    }

    pub fn is_sell(self) -> (b: bool)
        ensures
            b == (self is Sell),
    {
        matches!(self, Side::Sell)
    }

    /// The name of the side as it is shown to people.
    pub fn label(self) -> (s: &'static str)
        ensures
            s@ == match self {
                Side::Buy => "BUY"@,
                Side::Sell => "SELL"@,
            },
    {
        match self {
            Side::Buy => "BUY",
            Side::Sell => "SELL",
        }
    }
}

/// Taking the opposite side twice gives the side back.
pub proof fn law_opposite_is_involution(side: Side)
    ensures
        side.spec_opposite().spec_opposite() == side,
        side.spec_opposite() != side,
{
}

} // verus!

//! Fixed-point prices.

use vstd::prelude::*;
use vstd::std_specs::convert::FromSpecImpl;
use vstd::std_specs::ops::{AddSpec, AddSpecImpl, NegSpec, NegSpecImpl, SubSpec, SubSpecImpl};

verus! {

/// A price as an integer number of ticks.
///
/// The decimal size of a tick belongs to the instrument and is not stored
/// here. Conversion to and from decimals happens at the edges only.
#[derive(Debug, Clone, Copy, PartialEq, Eq, PartialOrd, Ord, Hash, Default, Structural)]
pub struct Price(pub i64);

impl Price {
    /// The price of zero ticks.
    pub fn zero() -> (p: Price)
        ensures
            p.0 == 0,
    {
        Price(0)
    }

    /// The smallest representable price.
    pub fn min_value() -> (p: Price)
        ensures
            p.0 == i64::MIN,
    {
        Price(i64::MIN)
    }

    /// The largest representable price.
    pub fn max_value() -> (p: Price)
        ensures
            p.0 == i64::MAX,
    {
        Price(i64::MAX)
    }

    pub fn new(ticks: i64) -> (p: Price)
        ensures
            p.0 == ticks,
    {
        Price(ticks)
    }

    pub fn ticks(self) -> (t: i64)
        ensures
            t == self.0,
    {
        self.0
    }

    pub fn from_raw(v: i64) -> (p: Price)
        ensures
            p.0 == v,
    {
        Price::new(v)
    }

    pub fn raw(self) -> (v: i64)
        ensures
            v == self.0,
    {
        self.0
    }

    /// The sum of the two prices, or `None` where it is not representable.
    pub fn checked_add(self, rhs: Price) -> (r: Option<Price>)
        ensures
            r == if i64::MIN <= self.0 + rhs.0 <= i64::MAX {
                Some(Price((self.0 + rhs.0) as i64))
            } else {
                None
            },
    {
        match self.0.checked_add(rhs.0) {
            Some(v) => Some(Price(v)),
            None => None,
        }
    }

    /// The difference of the two prices, or `None` where it is not
    /// representable.
    pub fn checked_sub(self, rhs: Price) -> (r: Option<Price>)
        ensures
            r == if i64::MIN <= self.0 - rhs.0 <= i64::MAX {
                Some(Price((self.0 - rhs.0) as i64))
            } else {
                None
            },
    {
        match self.0.checked_sub(rhs.0) {
            Some(v) => Some(Price(v)),
            None => None,
        }
    }

    pub fn is_positive(self) -> (b: bool)
        ensures
            b == (self.0 > 0),
    {
        self.0 > 0
    }
}

impl std::ops::Add for Price {
    type Output = Price;

    fn add(self, rhs: Price) -> (r: Price) {
        Price(self.0 + rhs.0)
    }
}

impl AddSpecImpl for Price {
    open spec fn obeys_add_spec() -> bool {
        true
    }

    open spec fn add_req(self, rhs: Price) -> bool {
        i64::MIN <= self.0 + rhs.0 <= i64::MAX
    }

    open spec fn add_spec(self, rhs: Price) -> Price {
        Price((self.0 + rhs.0) as i64)
    }
}

impl std::ops::Sub for Price {
    type Output = Price;

    fn sub(self, rhs: Price) -> (r: Price) {
        Price(self.0 - rhs.0)
    }
}

impl SubSpecImpl for Price {
    open spec fn obeys_sub_spec() -> bool {
        true
    }

    open spec fn sub_req(self, rhs: Price) -> bool {
        i64::MIN <= self.0 - rhs.0 <= i64::MAX
    }

    open spec fn sub_spec(self, rhs: Price) -> Price {
        Price((self.0 - rhs.0) as i64)
    }
}

impl std::ops::Neg for Price {
    type Output = Price;

    fn neg(self) -> (r: Price) {
        Price(-self.0)
    }
}

impl NegSpecImpl for Price {
    open spec fn obeys_neg_spec() -> bool {
        true
    }

    open spec fn neg_req(self) -> bool {
        self.0 != i64::MIN
    }

    open spec fn neg_spec(self) -> Price {
        Price((-self.0) as i64)
    }
}

impl From<i64> for Price {
    fn from(v: i64) -> (p: Price) {
        Price(v)
    }
}

impl FromSpecImpl<i64> for Price {
    open spec fn obeys_from_spec() -> bool {
        true
    }

    open spec fn from_spec(v: i64) -> Price {
        Price(v)
    }
}

/// Prices are added, subtracted and turned round like their ticks, and adding
/// undoes subtracting.
pub proof fn law_prices_are_numbers(a: Price, b: Price)
    ensures
        i64::MIN <= a.0 + b.0 <= i64::MAX <==> AddSpec::add_req(a, b),
        AddSpec::add_req(a, b) ==> AddSpec::add_spec(a, b).0 == a.0 + b.0,
        i64::MIN <= a.0 - b.0 <= i64::MAX <==> SubSpec::sub_req(a, b),
        SubSpec::sub_req(a, b) ==> SubSpec::sub_spec(a, b).0 == a.0 - b.0,
        SubSpec::sub_req(a, b) ==> AddSpec::add_spec(SubSpec::sub_spec(a, b), b) == a,
        NegSpec::neg_req(a) <==> a.0 > i64::MIN,
        NegSpec::neg_req(a) ==> NegSpec::neg_spec(a).0 + a.0 == 0,
{
}

} // verus!

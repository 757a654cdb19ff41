//! Fixed-point quantities.

use vstd::prelude::*;
use vstd::std_specs::convert::FromSpecImpl;
use vstd::std_specs::ops::{AddSpec, AddSpecImpl, SubSpec, SubSpecImpl};

verus! {

/// A quantity as an integer number of lots, the smallest tradable unit.
///
/// Direction is carried by `Side`, never by sign.
#[derive(Debug, Clone, Copy, PartialEq, Eq, PartialOrd, Ord, Hash, Default, Structural)]
pub struct Qty(pub u64);

impl Qty {
    /// The empty quantity.
    pub fn zero() -> (q: Qty)
        ensures
            q.0 == 0,
    {
        Qty(0)
    }

    /// The largest representable quantity.
    pub fn max_value() -> (q: Qty)
        ensures
            q.0 == u64::MAX,
    {
        Qty(u64::MAX)
    }

    pub fn new(lots: u64) -> (q: Qty)
        ensures
            q.0 == lots,
    {
        Qty(lots)
    }

    pub fn lots(self) -> (l: u64)
        ensures
            l == self.0,
    {
        self.0
    }

    pub fn from_raw(v: u64) -> (q: Qty)
        ensures
            q.0 == v,
    {
        Qty::new(v)
    }

    pub fn raw(self) -> (v: u64)
        ensures
            v == self.0,
    {
        self.0
    }

    pub fn is_zero(self) -> (b: bool)
        ensures
            b == (self.0 == 0),
    {
        self.0 == 0
    }

    /// The difference, clamped to zero.
    pub fn saturating_sub(self, rhs: Qty) -> (r: Qty)
        ensures
            r.0 == if self.0 >= rhs.0 {
                self.0 - rhs.0
            } else {
                0
            },
    {
        Qty(self.0.saturating_sub(rhs.0))
    }

    /// The difference, or `None` where it would be negative.
    pub fn checked_sub(self, rhs: Qty) -> (r: Option<Qty>)
        ensures
            r == if self.0 >= rhs.0 {
                Some(Qty((self.0 - rhs.0) as u64))
            } else {
                None
            },
    {
        match self.0.checked_sub(rhs.0) {
            Some(v) => Some(Qty(v)),
            None => None,
        }
    }

    /// The sum, or `None` where it is not representable.
    pub fn checked_add(self, rhs: Qty) -> (r: Option<Qty>)
        ensures
            r == if self.0 + rhs.0 <= u64::MAX {
                Some(Qty((self.0 + rhs.0) as u64))
            } else {
                None
            },
    {
        match self.0.checked_add(rhs.0) {
            Some(v) => Some(Qty(v)),
            None => None,
        }
    }

    /// The smaller of the two quantities.
    pub fn min(self, rhs: Qty) -> (r: Qty)
        ensures
            r == if self.0 < rhs.0 {
                self
            } else {
                rhs
            },
    {
        if self.0 < rhs.0 {
            self
        } else {
            rhs
        }
    }

    /// Adds `rhs` in place.
    pub fn add_assign(&mut self, rhs: Qty)
        requires
            old(self).0 + rhs.0 <= u64::MAX,
        ensures
            final(self).0 == old(self).0 + rhs.0,
    {
        self.0 = self.0 + rhs.0;
    }

    /// Subtracts `rhs` in place.
    pub fn sub_assign(&mut self, rhs: Qty)
        requires
            old(self).0 >= rhs.0,
        ensures
            final(self).0 == old(self).0 - rhs.0,
    {
        self.0 = self.0 - rhs.0;
    }
}

impl std::ops::Add for Qty {
    type Output = Qty;

    fn add(self, rhs: Qty) -> (r: Qty) {
        Qty(self.0 + rhs.0)
    }
}

impl AddSpecImpl for Qty {
    open spec fn obeys_add_spec() -> bool {
        true
    }

    open spec fn add_req(self, rhs: Qty) -> bool {
        self.0 + rhs.0 <= u64::MAX
    }

    open spec fn add_spec(self, rhs: Qty) -> Qty {
        Qty((self.0 + rhs.0) as u64)
    }
}

impl std::ops::Sub for Qty {
    type Output = Qty;

    fn sub(self, rhs: Qty) -> (r: Qty) {
        Qty(self.0 - rhs.0)
    }
}

impl SubSpecImpl for Qty {
    open spec fn obeys_sub_spec() -> bool {
        true
    }

    open spec fn sub_req(self, rhs: Qty) -> bool {
        self.0 >= rhs.0
    }

    open spec fn sub_spec(self, rhs: Qty) -> Qty {
        Qty((self.0 - rhs.0) as u64)
    }
}

impl From<u64> for Qty {
    fn from(v: u64) -> (q: Qty) {
        Qty(v)
    }
}

impl FromSpecImpl<u64> for Qty {
    open spec fn obeys_from_spec() -> bool {
        true
    }

    open spec fn from_spec(v: u64) -> Qty {
        Qty(v)
    }
}

/// Quantities are added and subtracted like their lots, and adding undoes
/// subtracting.
pub proof fn law_quantities_are_numbers(a: Qty, b: Qty)
    ensures
        a.0 + b.0 <= u64::MAX <==> AddSpec::add_req(a, b),
        AddSpec::add_req(a, b) ==> AddSpec::add_spec(a, b).0 == a.0 + b.0,
        a.0 >= b.0 <==> SubSpec::sub_req(a, b),
        SubSpec::sub_req(a, b) ==> SubSpec::sub_spec(a, b).0 == a.0 - b.0,
        SubSpec::sub_req(a, b) ==> AddSpec::add_spec(SubSpec::sub_spec(a, b), b) == a,
{
}

} // verus!

//! Identifiers.

use vstd::prelude::*;
use vstd::std_specs::convert::FromSpecImpl;

verus! {

/// The engine's identifier of an order, unique over the whole system.
#[derive(Debug, Clone, Copy, PartialEq, Eq, PartialOrd, Ord, Hash, Default, Structural)]
pub struct OrderId(pub u64);

impl OrderId {
    pub fn new(v: u64) -> (r: OrderId)
        ensures
            r.0 == v,
    {
        OrderId(v)
    }

    pub fn get(self) -> (v: u64)
        ensures
            v == self.0,
    {
        self.0
    }
}

impl From<u64> for OrderId {
    fn from(v: u64) -> (r: OrderId) {
        OrderId(v)
    }
}

impl FromSpecImpl<u64> for OrderId {
    open spec fn obeys_from_spec() -> bool {
        true
    }

    open spec fn from_spec(v: u64) -> OrderId {
        OrderId(v)
    }
}

/// Identifier of a trading account. Accounts are the unit of risk sharding.
#[derive(Debug, Clone, Copy, PartialEq, Eq, PartialOrd, Ord, Hash, Default, Structural)]
pub struct AccountId(pub u64);

impl AccountId {
    pub fn new(v: u64) -> (r: AccountId)
        ensures
            r.0 == v,
    {
        AccountId(v)
    }

    pub fn get(self) -> (v: u64)
        ensures
            v == self.0,
    {
        self.0
    }
}

impl From<u64> for AccountId {
    fn from(v: u64) -> (r: AccountId) {
        AccountId(v)
    }
}

impl FromSpecImpl<u64> for AccountId {
    open spec fn obeys_from_spec() -> bool {
        true
    }

    open spec fn from_spec(v: u64) -> AccountId {
        AccountId(v)
    }
}

/// Identifier of a tradable instrument.
#[derive(Debug, Clone, Copy, PartialEq, Eq, PartialOrd, Ord, Hash, Default, Structural)]
pub struct InstrumentId(pub u64);

impl InstrumentId {
    pub fn new(v: u64) -> (r: InstrumentId)
        ensures
            r.0 == v,
    {
        InstrumentId(v)
    }

    pub fn get(self) -> (v: u64)
        ensures
            v == self.0,
    {
        self.0
    }
}

impl From<u64> for InstrumentId {
    fn from(v: u64) -> (r: InstrumentId) {
        InstrumentId(v)
    }
}

impl FromSpecImpl<u64> for InstrumentId {
    open spec fn obeys_from_spec() -> bool {
        true
    }

    open spec fn from_spec(v: u64) -> InstrumentId {
        InstrumentId(v)
    }
}

/// An order identifier chosen by the client, echoed in execution reports.
#[derive(Debug, Clone, Copy, PartialEq, Eq, PartialOrd, Ord, Hash, Default, Structural)]
pub struct ClientOrderId(pub u64);

impl ClientOrderId {
    pub fn new(v: u64) -> (r: ClientOrderId)
        ensures
            r.0 == v,
    {
        ClientOrderId(v)
    }

    pub fn get(self) -> (v: u64)
        ensures
            v == self.0,
    {
        self.0
    }
}

impl From<u64> for ClientOrderId {
    fn from(v: u64) -> (r: ClientOrderId) {
        ClientOrderId(v)
    }
}

impl FromSpecImpl<u64> for ClientOrderId {
    open spec fn obeys_from_spec() -> bool {
        true
    }

    open spec fn from_spec(v: u64) -> ClientOrderId {
        ClientOrderId(v)
    }
}

/// Identifier of a symbol: one order book per symbol.
#[derive(Debug, Clone, Copy, PartialEq, Eq, Hash, Structural)]
pub struct Symbol(pub u16);

/// A sequence number. Zero is never one, so that it can stand for "not yet
/// sequenced" in raw integers.
#[derive(Debug, Clone, Copy, PartialEq, Eq, PartialOrd, Ord, Hash, Structural)]
pub struct SequenceNo {
    value: u64,
}

impl SequenceNo {
    /// The number itself.
    pub closed spec fn spec_get(self) -> u64 {
        self.value
    }

    /// The sequence number with this value.
    pub closed spec fn of(v: u64) -> SequenceNo {
        SequenceNo { value: v }
    }

    /// No sequence number is zero.
    #[verifier::type_invariant]
    spec fn nonzero(self) -> bool {
        self.value != 0
    }

    /// The first sequence number, one.
    pub fn first() -> (r: SequenceNo)
        ensures
            r == SequenceNo::of(1),
    {
        SequenceNo { value: 1 }
    }

    /// The sequence number `v`, or `None` for zero.
    pub fn new(v: u64) -> (r: Option<SequenceNo>)
        ensures
            r == if v == 0 {
                None
            } else {
                Some(SequenceNo::of(v))
            },
    {
        if v == 0 {
            None
        } else {
            Some(SequenceNo { value: v })
        }
    }

    pub fn get(self) -> (v: u64)
        ensures
            v == self.spec_get(),
            v != 0,
    {
        proof {
            use_type_invariant(self);
        }
        self.value
    }

    /// The sequence number that follows.
    pub fn next(self) -> (r: SequenceNo)
        requires
            self.spec_get() < u64::MAX,
        ensures
            r == SequenceNo::of((self.spec_get() + 1) as u64),
    {
        SequenceNo { value: self.value + 1 }
    }

    /// `v` as a sequence number, with the first one standing for zero.
    pub fn new_or_first(v: u64) -> (r: SequenceNo)
        ensures
            r == SequenceNo::of(spec_new_or_first(v)),
    {
        match SequenceNo::new(v) {
            Some(s) => s,
            None => SequenceNo::first(),
        }
    }

    /// A sequence number is its value and nothing else.
    pub proof fn law_sequence_no_is_its_value(s: SequenceNo, v: u64)
        ensures
            SequenceNo::of(v).spec_get() == v,
            SequenceNo::of(s.spec_get()) == s,
    {
    }
}

/// The value that stands for the raw sequence number `v` where one is needed.
pub open spec fn spec_new_or_first(v: u64) -> u64 {
    if v == 0 {
        1
    } else {
        v
    }
}

} // verus!

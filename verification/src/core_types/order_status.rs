//! The status of an order on its way through the two engines.
//!
//! ```text
//! Pending ------> Addressed        (the primary engine took it)
//! Pending ------> Unaddressed      (it timed out and was escalated)
//! Unaddressed --> FinallyHandled   (the second engine took it)
//! ```

use vstd::prelude::*;
use vstd::std_specs::convert::FromSpecImpl;

verus! {

#[derive(Debug, Clone, Copy, PartialEq, Eq, Hash, Structural)]
pub enum OrderStatus {
    /// Logged, and not yet processed by either engine.
    Pending,
    /// Processed by the primary engine.
    Addressed,
    /// Missed by the primary engine and escalated to the second one.
    Unaddressed,
    /// Processed by the second engine.
    FinallyHandled,
}

impl OrderStatus {
    /// The byte that stands for the status.
    pub open spec fn code(self) -> u8 {
        match self {
            OrderStatus::Pending => 0,
            OrderStatus::Addressed => 1,
            OrderStatus::Unaddressed => 2,
            OrderStatus::FinallyHandled => 3,
        }
    }

    /// The status that `v` stands for, `None` outside the range.
    pub fn from_u8(v: u8) -> (r: Option<OrderStatus>)
        ensures
            r is None <==> v > 3,
            r matches Some(s) ==> s.code() == v,
    {
        match v {
            0 => Some(OrderStatus::Pending),
            1 => Some(OrderStatus::Addressed),
            2 => Some(OrderStatus::Unaddressed),
            3 => Some(OrderStatus::FinallyHandled),
            _ => None,
        }
    }

    /// Handled in full, as a model function.
    pub open spec fn spec_is_terminal(self) -> bool {
        self is Addressed || self is FinallyHandled
    }

    /// Whether one of the engines has handled the order in full.
    pub fn is_terminal(self) -> (b: bool)
        ensures
            b == self.spec_is_terminal(),
    {
        matches!(self, OrderStatus::Addressed | OrderStatus::FinallyHandled)
    }

    /// Whether the order still awaits processing.
    pub fn is_pending(self) -> (b: bool)
        ensures
            b == (self is Pending),
    {
        matches!(self, OrderStatus::Pending)
    }

    /// The name of the status.
    pub fn label(self) -> (s: &'static str)
        ensures
            s@ == match self {
                OrderStatus::Pending => "Pending"@,
                OrderStatus::Addressed => "Addressed"@,
                OrderStatus::Unaddressed => "Unaddressed"@,
                OrderStatus::FinallyHandled => "FinallyHandled"@,
            },
    {
        match self {
            OrderStatus::Pending => "Pending",
            OrderStatus::Addressed => "Addressed",
            OrderStatus::Unaddressed => "Unaddressed",
            OrderStatus::FinallyHandled => "FinallyHandled",
        }
    }
}

impl From<OrderStatus> for u8 {
    fn from(s: OrderStatus) -> (r: u8) {
        match s {
            OrderStatus::Pending => 0,
            OrderStatus::Addressed => 1,
            OrderStatus::Unaddressed => 2,
            OrderStatus::FinallyHandled => 3,
        }
    }
}

impl FromSpecImpl<OrderStatus> for u8 {
    open spec fn obeys_from_spec() -> bool {
        true
    }

    open spec fn from_spec(s: OrderStatus) -> u8 {
        s.code()
    }
}

/// Different statuses have different bytes, so reading a status back from its
/// byte gives the status that was written.
pub proof fn law_status_code_roundtrip(a: OrderStatus, b: OrderStatus)
    ensures
        a.code() <= 3,
        a.code() == b.code() ==> a == b,
{
}

/// The bytes are the statuses in the order of an order's way. An order that an
/// engine has handled is at its end, and no other is.
pub proof fn law_status_codes(s: OrderStatus)
    ensures
        s.code() == 0 <==> s == OrderStatus::Pending,
        s.code() == 1 <==> s == OrderStatus::Addressed,
        s.code() == 2 <==> s == OrderStatus::Unaddressed,
        s.code() == 3 <==> s == OrderStatus::FinallyHandled,
        s.spec_is_terminal() <==> s != OrderStatus::Pending && s != OrderStatus::Unaddressed,
{
}

} // verus!

//! Orders that rest on the book.

use crate::core_types::ids::{AccountId, OrderId};
use crate::core_types::price::Price;
use crate::core_types::qty::Qty;
use crate::core_types::side::Side;
use crate::order_book::arena::OrderKey;
use crate::order_book::model::OrderModel;
use vstd::prelude::*;

verus! {

/// An order resting on the book.
///
/// Orders live in the arena of their book and are linked into the FIFO queue
/// of their price level through `next` and `prev`.
#[derive(Debug, Clone, Copy)]
pub struct RestingOrder {
    /// Identifier given by the sequencer.
    pub id: OrderId,
    /// The owner.
    pub account: AccountId,
    /// Quantity still unfilled.
    pub qty_remaining: Qty,
    pub side: Side,
    /// Price at which the order was placed.
    pub price: Price,
    /// Sequence number of the command that placed the order.
    pub seq: u64,
    /// Next order at this price, towards the tail of the queue.
    pub next: Option<OrderKey>,
    /// Previous order at this price, towards the head of the queue.
    pub prev: Option<OrderKey>,
}

impl RestingOrder {
    /// The order without its links.
    pub open spec fn view(self) -> OrderModel {
        OrderModel {
            id: self.id,
            account: self.account,
            qty: self.qty_remaining,
            side: self.side,
            price: self.price,
            seq: self.seq,
        }
    }

    /// The order is in no queue yet.
    pub open spec fn is_unlinked(self) -> bool {
        self.next is None && self.prev is None
    }

    /// An order that is not linked into any queue yet.
    pub fn new(
        id: OrderId,
        account: AccountId,
        qty: Qty,
        side: Side,
        price: Price,
        seq: u64,
    ) -> (r: RestingOrder)
        ensures
            r@ == (OrderModel { id, account, qty, side, price, seq }),
            r.is_unlinked(),
    {
        RestingOrder { id, account, qty_remaining: qty, side, price, seq, next: None, prev: None }
    }
}

} // verus!

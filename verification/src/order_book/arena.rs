//! Storage of the resting orders.
//!
//! A generational arena hands out a key for each order. A key stays valid
//! until its order is removed and is then dead for good, so a stale key can
//! never reach another order.

use crate::order_book::order::RestingOrder;
use slotmap::{DefaultKey, SlotMap};
use vstd::prelude::*;

verus! {

/// Handle of an order in the arena.
pub type OrderKey = DefaultKey;

/// `slotmap::DefaultKey`, the key type of the arena.
#[verifier::external_type_specification]
#[verifier::external_body]
pub struct ExDefaultKey(DefaultKey);

/// The most orders that an arena can hold at once.
pub const MAX_ORDERS: usize = 0xFFFF_FFFE;

/// The arena: a `slotmap::SlotMap` from keys to resting orders.
#[verifier::external_body]
pub struct OrderArena {
    slots: SlotMap<DefaultKey, RestingOrder>,
}

/// The orders in the arena by their keys.
pub uninterp spec fn arena_orders(arena: OrderArena) -> Map<OrderKey, RestingOrder>;

/// The number of orders that the arena was asked to hold without growing when
/// it was made.
pub uninterp spec fn arena_reserved(arena: OrderArena) -> nat;

impl View for OrderArena {
    type V = Map<OrderKey, RestingOrder>;

    open spec fn view(&self) -> Map<OrderKey, RestingOrder> {
        arena_orders(*self)
    }
}

impl OrderArena {
    /// Calls `SlotMap::with_capacity_and_key`, which makes an empty map with
    /// room for `capacity` elements. The call panics where the slots do not
    /// fit into the address space; one slot takes fewer than 128 bytes.
    #[verifier::external_body]
    pub(crate) fn with_capacity(capacity: usize) -> (arena: OrderArena)
        requires
            (capacity + 1) * 128 <= isize::MAX,
        ensures
            (arena_orders(arena) == Map::<OrderKey, RestingOrder>::empty()),
            arena_reserved(arena) == capacity,
    {
        OrderArena { slots: SlotMap::with_capacity_and_key(capacity) }
    }

    /// Calls `SlotMap::len`, the number of elements.
    #[verifier::external_body]
    pub(crate) fn len(&self) -> (n: usize)
        ensures
            n == arena_orders(*self).len(),
    {
        self.slots.len()
    }

    /// Calls `SlotMap::capacity`, the number of elements that the map can
    /// hold without reallocating. It is never below what was reserved; how
    /// far above it lies is up to the allocator and is not stated.
    #[verifier::external_body]
    pub(crate) fn capacity(&self) -> (n: usize)
        ensures
            n >= arena_reserved(*self),
    {
        self.slots.capacity()
    }

    /// Calls `SlotMap::insert`, which stores the order under a key that no
    /// other order has. The call panics when the map holds its largest
    /// number of elements.
    #[verifier::external_body]
    pub(crate) fn insert(&mut self, order: RestingOrder) -> (key: OrderKey)
        requires
            arena_orders(*old(self)).len() < MAX_ORDERS,
        ensures
            !arena_orders(*old(self)).contains_key(key),
            arena_orders(*final(self)) == arena_orders(*old(self)).insert(key, order),
            arena_reserved(*final(self)) == arena_reserved(*old(self)),
    {
        self.slots.insert(order)
    }

    /// Calls `SlotMap::remove`, which takes the order of the key out, or
    /// gives `None` where the key is dead.
    #[verifier::external_body]
    pub(crate) fn remove(&mut self, key: OrderKey) -> (r: Option<RestingOrder>)
        ensures
            r == if arena_orders(*old(self)).contains_key(key) {
                Some(arena_orders(*old(self))[key])
            } else {
                None
            },
            arena_orders(*final(self)) == arena_orders(*old(self)).remove(key),
            arena_reserved(*final(self)) == arena_reserved(*old(self)),
    {
        self.slots.remove(key)
    }

    /// Calls `SlotMap::contains_key`: whether the key is alive.
    #[verifier::external_body]
    pub(crate) fn contains_key(&self, key: OrderKey) -> (b: bool)
        ensures
            b == arena_orders(*self).contains_key(key),
    {
        self.slots.contains_key(key)
    }

    /// Calls `SlotMap::get`: the order of the key, `None` for a dead one.
    #[verifier::external_body]
    pub(crate) fn get(&self, key: OrderKey) -> (r: Option<&RestingOrder>)
        ensures
            r == if arena_orders(*self).contains_key(key) {
                Some(&arena_orders(*self)[key])
            } else {
                None
            },
    {
        self.slots.get(key)
    }

    /// Calls the `Index` operator of `SlotMap`: the order of a key, which
    /// has to be alive.
    #[verifier::external_body]
    pub(crate) fn at(&self, key: OrderKey) -> (r: &RestingOrder)
        requires
            arena_orders(*self).contains_key(key),
        ensures
            *r == arena_orders(*self)[key],
    {
        &self.slots[key]
    }

    /// Calls the `IndexMut` operator of `SlotMap`: the order of a key, which
    /// has to be alive, for changing it in place.
    #[verifier::external_body]
    pub(crate) fn at_mut(&mut self, key: OrderKey) -> (r: &mut RestingOrder)
        requires
            arena_orders(*old(self)).contains_key(key),
        ensures
            *r == arena_orders(*old(self))[key],
            arena_orders(*final(self)) == arena_orders(*old(self)).insert(key, *final(r)),
            arena_reserved(*final(self)) == arena_reserved(*old(self)),
    {
        &mut self.slots[key]
    }
}

} // verus!

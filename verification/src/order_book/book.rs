//! The order book of one symbol.

use crate::core_types::ids::{AccountId, OrderId, Symbol};
use crate::core_types::price::Price;
use crate::core_types::qty::Qty;
use crate::core_types::side::Side;
use crate::order_book::arena::{arena_reserved, OrderArena, OrderKey};
use crate::order_book::ladder;
use crate::order_book::level;
use crate::order_book::level::PriceLevel;
use crate::order_book::model;
use crate::order_book::model::{BookModel, OrderModel};
use crate::order_book::order::RestingOrder;
use std::collections::HashMap;
use vstd::prelude::*;

pub mod accounts;
pub mod apply;

verus! {

broadcast use vstd::std_specs::hash::group_hash_axioms;

/// How a book is set up.
#[derive(Debug, Clone, Copy)]
pub struct BookConfig {
    pub symbol: Symbol,
    /// Lowest price of the ladder, at index 0.
    pub tick_floor: Price,
    /// Number of prices on the ladder.
    pub num_ticks: usize,
    /// Number of open orders to make room for.
    pub arena_capacity: usize,
}

/// An order book for one symbol.
///
/// Each side is a ladder with one slot per price, indexed from the lowest
/// price up. The best bid is the highest occupied slot of the bids and the
/// best ask the lowest of the asks; both are tracked, so that matching visits
/// few empty slots.
pub struct OrderBook {
    symbol: Symbol,
    arena: OrderArena,
    bids: Vec<Option<PriceLevel>>,
    asks: Vec<Option<PriceLevel>>,
    best_bid_idx: Option<usize>,
    best_ask_idx: Option<usize>,
    tick_floor: Price,
    id_to_key: HashMap<u64, OrderKey>,
}

/// The map finds exactly the orders in the arena by their ids.
spec fn ids_ok(arena: Map<OrderKey, RestingOrder>, ids: Map<u64, OrderKey>) -> bool {
    &&& forall|k: OrderKey| #[trigger]
        arena.contains_key(k) ==> ids.contains_key(arena[k].id.0) && ids[arena[k].id.0] == k
    &&& forall|id: u64| #[trigger]
        ids.contains_key(id) ==> arena.contains_key(ids[id]) && arena[ids[id]].id.0 == id
}

impl OrderBook {
    spec fn ladder(self, side: Side) -> Seq<Option<PriceLevel>> {
        match side {
            Side::Buy => self.bids@,
            Side::Sell => self.asks@,
        }
    }

    spec fn best_idx(self, side: Side) -> Option<usize> {
        match side {
            Side::Buy => self.best_bid_idx,
            Side::Sell => self.best_ask_idx,
        }
    }

    spec fn orders(self, side: Side) -> Seq<OrderModel> {
        ladder::side_queue(self.ladder(side), side, self.arena@)
    }

    /// The book as two queues.
    pub closed spec fn view(self) -> BookModel {
        BookModel {
            symbol: self.symbol,
            tick_floor: self.tick_floor.0 as int,
            num_ticks: self.bids@.len(),
            reserved: arena_reserved(self.arena),
            bids: self.orders(Side::Buy),
            asks: self.orders(Side::Sell),
        }
    }

    /// Ladders, links and arena fit together.
    spec fn shape(self) -> bool {
        &&& self.bids@.len() == self.asks@.len()
        &&& self.bids@.len() <= usize::MAX
        &&& forall|side: Side|
            #![trigger self.ladder(side)]
            {
                &&& ladder::ladder_ok(self.ladder(side), side, self.tick_floor.0 as int, self.arena@)
                &&& ladder::located_in(
                    self.ladder(side),
                    side,
                    self.tick_floor.0 as int,
                    self.arena@,
                )
            }
        &&& self.arena@.dom().finite()
        &&& self.arena@.len() == self.orders(Side::Buy).len() + self.orders(Side::Sell).len()
    }

    spec fn best_ok(self, side: Side) -> bool {
        ladder::best_ok(self.ladder(side), side, self.best_idx(side))
    }

    /// The invariant of the representation.
    spec fn inv(self) -> bool {
        &&& self.shape()
        &&& ids_ok(self.arena@, self.id_to_key@)
        &&& self.best_ok(Side::Buy)
        &&& self.best_ok(Side::Sell)
    }

    /// What holds of a book between two commands.
    pub closed spec fn wf(self) -> bool {
        self.inv() && self@.valid()
    }

    /// A well-formed book is valid: its queues are sorted, its ids are
    /// distinct, every order has a quantity, and no bid crosses an ask.
    pub proof fn law_wf_is_valid(self)
        requires
            self.wf(),
        ensures
            self@.valid(),
    {
    }

    /// Makes an empty book.
    ///
    /// All storage for `arena_capacity` open orders is reserved here. It has
    /// to fit into the address space.
    pub fn new(cfg: BookConfig) -> (book: OrderBook)
        requires
            (cfg.arena_capacity + 1) * 128 <= isize::MAX,
        ensures
            book.wf(),
            book@ == (BookModel {
                symbol: cfg.symbol,
                tick_floor: cfg.tick_floor.0 as int,
                num_ticks: cfg.num_ticks as nat,
                reserved: cfg.arena_capacity as nat,
                bids: Seq::empty(),
                asks: Seq::empty(),
            }),
    {
        let mut arena = OrderArena::with_capacity(cfg.arena_capacity);
        // Touch the arena so that its storage is initialised now.
        let warm_up = RestingOrder::new(
            OrderId(0),
            AccountId(0),
            Qty(0),
            Side::Buy,
            cfg.tick_floor,
            0,
        );
        let key = arena.insert(warm_up);
        arena.remove(key);
        assert(arena@ =~= Map::<OrderKey, RestingOrder>::empty());

        let bids = empty_ladder(cfg.num_ticks);
        let asks = empty_ladder(cfg.num_ticks);
        let book = OrderBook {
            symbol: cfg.symbol,
            arena,
            bids,
            asks,
            best_bid_idx: None,
            best_ask_idx: None,
            tick_floor: cfg.tick_floor,
            id_to_key: HashMap::with_capacity(cfg.arena_capacity),
        };
        proof {
            ladder::lemma_best(book.bids@, Side::Buy, book.arena@, None);
            ladder::lemma_best(book.asks@, Side::Sell, book.arena@, None);
            assert(book@.bids =~= Seq::<OrderModel>::empty());
        }
        book
    }

    /// The ladder index of a price, `None` outside the range of the ladder.
    pub fn price_to_idx(&self, price: Price) -> (r: Option<usize>)
        ensures
            r == if self@.in_range(price) {
                Some((price.0 - self@.tick_floor) as usize)
            } else {
                None
            },
    {
        let offset: i128 = price.0 as i128 - self.tick_floor.0 as i128;
        if offset < 0 {
            return None;
        }
        if offset >= self.bids.len() as i128 {
            return None;
        }
        Some(offset as usize)
    }

    /// The price at a ladder index.
    pub fn idx_to_price(&self, idx: usize) -> (r: Price)
        requires
            self@.tick_floor + idx <= i64::MAX,
        ensures
            r.0 == self@.tick_floor + idx,
    {
        Price((self.tick_floor.0 as i128 + idx as i128) as i64)
    }

    /// Moves the best bid up to a level that just got an order.
    fn refresh_best_bid_up(&mut self, hint: usize)
        requires
            hint < old(self).bids@.len(),
            ladder::keys_at(old(self).bids@, hint as int).len() > 0,
            forall|i: int|
                0 <= i < old(self).bids@.len() && i != hint ==> {
                    let seen = #[trigger] ladder::keys_at(old(self).bids@, i).len();
                    &&& old(self).best_bid_idx is None ==> seen == 0
                    &&& old(self).best_bid_idx matches Some(b) ==> (i > b ==> seen == 0) && (i == b
                        ==> seen > 0)
                },
            old(self).best_bid_idx matches Some(b) ==> b < old(self).bids@.len(),
        ensures
            *final(self) == (OrderBook { best_bid_idx: final(self).best_bid_idx, ..*old(self) }),
            final(self).best_ok(Side::Buy),
    {
        match self.best_bid_idx {
            None => self.best_bid_idx = Some(hint),
            Some(cur) => {
                if hint > cur {
                    self.best_bid_idx = Some(hint);
                }
            },
        }
    }

    /// Moves the best ask down to a level that just got an order.
    fn refresh_best_ask_down(&mut self, hint: usize)
        requires
            hint < old(self).asks@.len(),
            ladder::keys_at(old(self).asks@, hint as int).len() > 0,
            forall|i: int|
                0 <= i < old(self).asks@.len() && i != hint ==> {
                    let seen = #[trigger] ladder::keys_at(old(self).asks@, i).len();
                    &&& old(self).best_ask_idx is None ==> seen == 0
                    &&& old(self).best_ask_idx matches Some(b) ==> (i < b ==> seen == 0) && (i == b
                        ==> seen > 0)
                },
            old(self).best_ask_idx matches Some(b) ==> b < old(self).asks@.len(),
        ensures
            *final(self) == (OrderBook { best_ask_idx: final(self).best_ask_idx, ..*old(self) }),
            final(self).best_ok(Side::Sell),
    {
        match self.best_ask_idx {
            None => self.best_ask_idx = Some(hint),
            Some(cur) => {
                if hint < cur {
                    self.best_ask_idx = Some(hint);
                }
            },
        }
    }

    /// Moves the best bid down to the next level with orders, after its own
    /// level lost an order.
    fn scan_best_bid_down(&mut self)
        requires
            old(self).best_bid_idx matches Some(b) && b < old(self).bids@.len(),
            forall|i: int|
                old(self).best_bid_idx->0 < i < old(self).bids@.len() ==> (#[trigger] ladder::keys_at(
                    old(self).bids@,
                    i,
                )).len() == 0,
            ladder::ladder_ok(
                old(self).bids@,
                Side::Buy,
                old(self).tick_floor.0 as int,
                old(self).arena@,
            ),
        ensures
            *final(self) == (OrderBook { best_bid_idx: final(self).best_bid_idx, ..*old(self) }),
            final(self).best_ok(Side::Buy),
    {
        let start = match self.best_bid_idx {
            Some(i) => i,
            None => return,
        };
        let ghost ladder0 = self.bids@;
        let mut idx: usize = start;
        loop
            invariant
                *self == *old(self),
                ladder0 == self.bids@,
                idx < ladder0.len(),
                forall|i: int|
                    idx < i < ladder0.len() ==> (#[trigger] ladder::keys_at(ladder0, i)).len() == 0,
                ladder::ladder_ok(ladder0, Side::Buy, self.tick_floor.0 as int, self.arena@),
            decreases idx,
        {
            assert(ladder::level_ok(
                ladder0[idx as int],
                Side::Buy,
                self.tick_floor.0 + idx,
                self.arena@,
            ));
            if let Some(lvl) = &self.bids[idx] {
                if !lvl.is_empty() {
                    self.best_bid_idx = Some(idx);
                    return;
                }
            }
            assert(ladder::keys_at(ladder0, idx as int).len() == 0);
            if idx == 0 {
                self.best_bid_idx = None;
                return;
            }
            idx -= 1;
        }
    }

    /// Moves the best ask up to the next level with orders, after its own
    /// level lost an order.
    fn scan_best_ask_up(&mut self)
        requires
            old(self).best_ask_idx matches Some(b) && b < old(self).asks@.len(),
            forall|i: int|
                0 <= i < old(self).best_ask_idx->0 ==> (#[trigger] ladder::keys_at(
                    old(self).asks@,
                    i,
                )).len() == 0,
            ladder::ladder_ok(
                old(self).asks@,
                Side::Sell,
                old(self).tick_floor.0 as int,
                old(self).arena@,
            ),
        ensures
            *final(self) == (OrderBook { best_ask_idx: final(self).best_ask_idx, ..*old(self) }),
            final(self).best_ok(Side::Sell),
    {
        let start = match self.best_ask_idx {
            Some(i) => i,
            None => return,
        };
        let ghost ladder0 = self.asks@;
        let mut idx: usize = start;
        while idx < self.asks.len()
            invariant
                *self == *old(self),
                ladder0 == self.asks@,
                idx <= ladder0.len(),
                forall|i: int|
                    0 <= i < idx ==> (#[trigger] ladder::keys_at(ladder0, i)).len() == 0,
                ladder::ladder_ok(ladder0, Side::Sell, self.tick_floor.0 as int, self.arena@),
            decreases ladder0.len() - idx,
        {
            assert(ladder::level_ok(
                ladder0[idx as int],
                Side::Sell,
                self.tick_floor.0 + idx,
                self.arena@,
            ));
            if let Some(lvl) = &self.asks[idx] {
                if !lvl.is_empty() {
                    self.best_ask_idx = Some(idx);
                    return;
                }
            }
            assert(ladder::keys_at(ladder0, idx as int).len() == 0);
            idx += 1;
        }
        self.best_ask_idx = None;
    }

    /// The highest price that somebody wants to buy at.
    pub fn best_bid(&self) -> (r: Option<Price>)
        requires
            self.wf(),
        ensures
            r == self@.best(Side::Buy),
    {
        self.top_bid()
    }

    /// The lowest price that somebody wants to sell at.
    pub fn best_ask(&self) -> (r: Option<Price>)
        requires
            self.wf(),
        ensures
            r == self@.best(Side::Sell),
    {
        self.top_ask()
    }

    fn top_bid(&self) -> (r: Option<Price>)
        requires
            self.shape(),
            self.best_ok(Side::Buy),
        ensures
            r == self@.best(Side::Buy),
    {
        proof {
            self.lemma_best_price(Side::Buy);
        }
        match self.best_bid_idx {
            Some(i) => match &self.bids[i] {
                Some(l) => if l.is_empty() {
                    None
                } else {
                    Some(l.price)
                },
                None => None,
            },
            None => None,
        }
    }

    fn top_ask(&self) -> (r: Option<Price>)
        requires
            self.shape(),
            self.best_ok(Side::Sell),
        ensures
            r == self@.best(Side::Sell),
    {
        proof {
            self.lemma_best_price(Side::Sell);
        }
        match self.best_ask_idx {
            Some(i) => match &self.asks[i] {
                Some(l) => if l.is_empty() {
                    None
                } else {
                    Some(l.price)
                },
                None => None,
            },
            None => None,
        }
    }

    /// The best pointer leads to the first order of the queue.
    proof fn lemma_best_price(self, side: Side)
        requires
            self.shape(),
            self.best_ok(side),
        ensures
            self.best_idx(side) is None ==> self.orders(side).len() == 0,
            self.best_idx(side) matches Some(b) ==> {
                let slot = self.ladder(side)[b as int];
                &&& slot is Some
                &&& slot->0.head is Some
                &&& self.orders(side).len() > 0
                &&& self.orders(side)[0] == self.arena@[slot->0.head->0]@
                &&& self.orders(side)[0].price == slot->0.price
                &&& self.orders(side)[0].side == side
                &&& slot->0.price.0 == self.tick_floor.0 + b
                &&& self.arena@.contains_key(slot->0.head->0)
            },
    {
        let lad = self.ladder(side);
        ladder::lemma_best(lad, side, self.arena@, self.best_idx(side));
        if self.best_idx(side) is Some {
            let b = self.best_idx(side)->0 as int;
            assert(ladder::level_ok(lad[b], side, self.tick_floor.0 + b, self.arena@));
            let l = lad[b]->0;
            assert(level::linked(l.keys(), self.arena@, 0));
            assert(self.arena@[l.keys()[0]].price == l.price);
        }
    }

    pub fn symbol(&self) -> (r: Symbol)
        ensures
            r == self@.symbol,
    {
        self.symbol
    }

    /// Total quantity of the bids at a price.
    pub fn bid_qty_at(&self, price: Price) -> (r: Qty)
        requires
            self.wf(),
        ensures
            r.0 == model::qty_at(self@.bids, price),
    {
        proof {
            self.lemma_qty_at(Side::Buy, price);
        }
        match self.price_to_idx(price) {
            Some(i) => match &self.bids[i] {
                Some(l) => l.total_qty,
                None => Qty(0),
            },
            None => Qty(0),
        }
    }

    /// Total quantity of the asks at a price.
    pub fn ask_qty_at(&self, price: Price) -> (r: Qty)
        requires
            self.wf(),
        ensures
            r.0 == model::qty_at(self@.asks, price),
    {
        proof {
            self.lemma_qty_at(Side::Sell, price);
        }
        match self.price_to_idx(price) {
            Some(i) => match &self.asks[i] {
                Some(l) => l.total_qty,
                None => Qty(0),
            },
            None => Qty(0),
        }
    }

    proof fn lemma_qty_at(self, side: Side, price: Price)
        requires
            self.wf(),
        ensures
            model::qty_at(self@.queue(side), price) == if self@.in_range(price) {
                match self.ladder(side)[price.0 - self.tick_floor.0] {
                    Some(l) => l.total_qty.0 as nat,
                    None => 0,
                }
            } else {
                0
            },
    {
        let lad = self.ladder(side);
        if self@.in_range(price) {
            ladder::lemma_level_qty(lad, side, self.tick_floor.0 as int, self.arena@, price);
        } else {
            assert(self@.side_ok(side));
            model::lemma_qty_at_none(self@.queue(side), price);
        }
    }

    /// Number of open orders.
    pub fn open_order_count(&self) -> (n: usize)
        requires
            self.wf(),
        ensures
            n == self@.count(),
    {
        self.arena.len()
    }

    /// The open order with this id.
    pub fn get_order(&self, id: OrderId) -> (r: Option<&RestingOrder>)
        requires
            self.wf(),
        ensures
            r is Some <==> self@.find(id) is Some,
            r matches Some(o) ==> self@.find(id) == Some(o@),
    {
        proof {
            self.lemma_find(id);
        }
        match self.id_to_key.get(&id.0) {
            Some(k) => self.arena.get(*k),
            None => None,
        }
    }

    /// An order in the arena stands in the queue of its side.
    proof fn lemma_key_position(self, k: OrderKey) -> (p: (int, int, int))
        requires
            self.shape(),
            self.arena@.contains_key(k),
        ensures
            ({
                let side = self.arena@[k].side;
                let lad = self.ladder(side);
                &&& p.0 == self.arena@[k].price.0 - self.tick_floor.0
                &&& 0 <= p.0 < lad.len()
                &&& lad[p.0] is Some
                &&& 0 <= p.1 < ladder::keys_at(lad, p.0).len()
                &&& ladder::keys_at(lad, p.0)[p.1] == k
                &&& p.1 == ladder::keys_at(lad, p.0).index_of(k)
                &&& p.2 == ladder::flat(
                    ladder::by_rank(lad, side, self.arena@).take(
                        ladder::idx_of(side, lad.len() as int, p.0),
                    ),
                ).len() + p.1
                &&& 0 <= p.2 < self.orders(side).len()
                &&& self.orders(side)[p.2] == self.arena@[k]@
            }),
    {
        let side = self.arena@[k].side;
        let lad = self.ladder(side);
        let i = self.arena@[k].price.0 - self.tick_floor.0;
        assert(ladder::located_in(lad, side, self.tick_floor.0 as int, self.arena@));
        let j = ladder::keys_at(lad, i).index_of(k);
        let p = ladder::lemma_position(lad, side, self.arena@, i, j);
        (i, j, p)
    }

    /// The id map finds what a search of the queues finds.
    proof fn lemma_find(self, id: OrderId)
        requires
            self.shape(),
            ids_ok(self.arena@, self.id_to_key@),
            self@.ids_distinct(),
        ensures
            self.id_to_key@.contains_key(id.0) <==> self@.find(id) is Some,
            self.id_to_key@.contains_key(id.0) ==> {
                let k = self.id_to_key@[id.0];
                &&& self@.find(id) == Some(self.arena@[k]@)
                &&& self.arena@.contains_key(k)
                &&& self.arena@[k].id == id
                &&& model::index_by_id(self.orders(self.arena@[k].side), id)
                    == self.place_in_queue(k)
                &&& self.arena@[k].side is Sell ==> model::index_by_id(self@.bids, id)
                    == self@.bids.len()
            },
    {
        let bids = self@.bids;
        let asks = self@.asks;
        if self.id_to_key@.contains_key(id.0) {
            let k = self.id_to_key@[id.0];
            let p = self.lemma_key_position(k);
            if self.arena@[k].side is Buy {
                assert forall|i: int| 0 <= i < p.2 implies (#[trigger] bids[i]).id != id by {
                    assert(bids[i].id != bids[p.2].id);
                }
                model::lemma_index_by_id(bids, id, p.2);
            } else {
                assert forall|i: int| 0 <= i < p.2 implies (#[trigger] asks[i]).id != id by {
                    assert(asks[i].id != asks[p.2].id);
                }
                model::lemma_index_by_id(asks, id, p.2);
                assert forall|i: int| 0 <= i < bids.len() implies (#[trigger] bids[i]).id != id by {
                    assert(bids[i].id != asks[p.2].id);
                }
                model::lemma_index_by_id(bids, id, bids.len() as int);
            }
        } else {
            self.lemma_absent(Side::Buy, id);
            self.lemma_absent(Side::Sell, id);
        }
    }

    /// The place of the order of `k` in the queue of its side.
    spec fn place_in_queue(self, k: OrderKey) -> int {
        let side = self.arena@[k].side;
        let lad = self.ladder(side);
        let i = self.arena@[k].price.0 - self.tick_floor.0;
        ladder::flat(
            ladder::by_rank(lad, side, self.arena@).take(
                ladder::idx_of(side, lad.len() as int, i),
            ),
        ).len() + ladder::keys_at(lad, i).index_of(k)
    }

    proof fn lemma_absent(self, side: Side, id: OrderId)
        requires
            self.shape(),
            ids_ok(self.arena@, self.id_to_key@),
            !self.id_to_key@.contains_key(id.0),
        ensures
            model::index_by_id(self.orders(side), id) == self.orders(side).len(),
    {
        let queue = self.orders(side);
        let lad = self.ladder(side);
        assert forall|p: int| 0 <= p < queue.len() implies (#[trigger] queue[p]).id != id by {
            let s = ladder::lemma_source(lad, side, self.arena@, p);
            assert(ladder::level_ok(lad[s.0], side, self.tick_floor.0 + s.0, self.arena@));
            lad[s.0]->0.lemma_wf(self.arena@);
            let k = ladder::keys_at(lad, s.0)[s.1];
            assert(ladder::keys_at(lad, s.0).contains(k));
            assert(self.arena@.contains_key(k));
        }
        model::lemma_index_by_id(queue, id, queue.len() as int);
    }
}

/// A ladder without levels.
fn empty_ladder(num_ticks: usize) -> (ladder: Vec<Option<PriceLevel>>)
    ensures
        ladder@.len() == num_ticks,
        forall|i: int| 0 <= i < num_ticks ==> #[trigger] ladder@[i] is None,
{
    let mut ladder: Vec<Option<PriceLevel>> = Vec::new();
    let mut i: usize = 0;
    while i < num_ticks
        invariant
            i <= num_ticks,
            ladder@.len() == i,
            forall|j: int| 0 <= j < i ==> #[trigger] ladder@[j] is None,
        decreases num_ticks - i,
    {
        ladder.push(None);
        i += 1;
    }
    ladder
}

} // verus!

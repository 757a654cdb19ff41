//! Facts about one side of the book: a ladder of price levels read as one
//! queue in price-time priority.

use crate::core_types::price::Price;
use crate::core_types::side::Side;
use crate::order_book::arena::OrderKey;
use crate::order_book::level;
use crate::order_book::level::PriceLevel;
use crate::order_book::model;
use crate::order_book::model::OrderModel;
use crate::order_book::order::RestingOrder;
use vstd::prelude::*;

verus! {

/// The keys of the orders at a place of the ladder, oldest first.
pub open spec fn keys_at(ladder: Seq<Option<PriceLevel>>, i: int) -> Seq<OrderKey> {
    match ladder[i] {
        Some(l) => l.keys(),
        None => Seq::empty(),
    }
}

/// The ladder index of the price with rank `r`, counting from the best price
/// of the side. It is its own inverse.
pub open spec fn idx_of(side: Side, n: int, r: int) -> int {
    match side {
        Side::Buy => n - 1 - r,
        Side::Sell => r,
    }
}

/// The orders of each level, best price first.
pub open spec fn by_rank(
    ladder: Seq<Option<PriceLevel>>,
    side: Side,
    arena: Map<OrderKey, RestingOrder>,
) -> Seq<Seq<OrderModel>> {
    Seq::new(
        ladder.len(),
        |r: int| level::orders_of(keys_at(ladder, idx_of(side, ladder.len() as int, r)), arena),
    )
}

/// The orders of all levels in one queue.
pub open spec fn flat(levels: Seq<Seq<OrderModel>>) -> Seq<OrderModel>
    decreases levels.len(),
{
    if levels.len() == 0 {
        Seq::empty()
    } else {
        levels[0] + flat(levels.drop_first())
    }
}

/// The queue of a side.
pub open spec fn side_queue(
    ladder: Seq<Option<PriceLevel>>,
    side: Side,
    arena: Map<OrderKey, RestingOrder>,
) -> Seq<OrderModel> {
    flat(by_rank(ladder, side, arena))
}

/// A level holds orders of its side and price only.
pub open spec fn level_ok(
    slot: Option<PriceLevel>,
    side: Side,
    price: int,
    arena: Map<OrderKey, RestingOrder>,
) -> bool {
    slot matches Some(l) ==> {
        &&& l.price.0 == price
        &&& l.wf(arena)
        &&& forall|j: int|
            0 <= j < l.keys().len() ==> {
                let o = #[trigger] arena[l.keys()[j]];
                o.side == side && o.price == l.price && o.qty_remaining.0 > 0
            }
    }
}

pub open spec fn ladder_ok(
    ladder: Seq<Option<PriceLevel>>,
    side: Side,
    floor: int,
    arena: Map<OrderKey, RestingOrder>,
) -> bool {
    forall|i: int| 0 <= i < ladder.len() ==> level_ok(#[trigger] ladder[i], side, floor + i, arena)
}

/// The order of the key stands in the queue of its price.
pub open spec fn located_in(
    ladder: Seq<Option<PriceLevel>>,
    side: Side,
    floor: int,
    arena: Map<OrderKey, RestingOrder>,
) -> bool {
    forall|k: OrderKey| #[trigger]
        arena.contains_key(k) && arena[k].side == side ==> {
            let i = arena[k].price.0 - floor;
            0 <= i < ladder.len() && keys_at(ladder, i).contains(k)
        }
}

/// `i` is closer to the other side than `b`.
pub open spec fn ahead(side: Side, i: int, b: int) -> bool {
    match side {
        Side::Buy => i > b,
        Side::Sell => i < b,
    }
}

/// The best pointer points to the first level that has orders.
pub open spec fn best_ok(
    ladder: Seq<Option<PriceLevel>>,
    side: Side,
    best: Option<usize>,
) -> bool {
    match best {
        None => forall|i: int| 0 <= i < ladder.len() ==> (#[trigger] keys_at(ladder, i)).len() == 0,
        Some(b) => {
            &&& b < ladder.len()
            &&& keys_at(ladder, b as int).len() > 0
            &&& forall|i: int|
                0 <= i < ladder.len() && ahead(side, i, b as int) ==> (#[trigger] keys_at(
                    ladder,
                    i,
                )).len() == 0
        },
    }
}

pub proof fn lemma_flat_concat(a: Seq<Seq<OrderModel>>, b: Seq<Seq<OrderModel>>)
    ensures
        flat(a + b) == flat(a) + flat(b),
    decreases a.len(),
{
    if a.len() == 0 {
        assert(a + b =~= b);
        assert(flat(a) + flat(b) =~= flat(b));
    } else {
        assert((a + b).drop_first() =~= a.drop_first() + b);
        lemma_flat_concat(a.drop_first(), b);
        assert(flat(a + b) =~= flat(a) + flat(b));
    }
}

/// The queue falls into what is in front of a level, the level, and what is
/// behind it.
pub proof fn lemma_flat_split(levels: Seq<Seq<OrderModel>>, r: int)
    requires
        0 <= r < levels.len(),
    ensures
        flat(levels) == flat(levels.take(r)) + (levels[r] + flat(levels.skip(r + 1))),
{
    assert(levels =~= levels.take(r) + levels.skip(r));
    lemma_flat_concat(levels.take(r), levels.skip(r));
    assert(levels.skip(r).drop_first() =~= levels.skip(r + 1));
}

pub proof fn lemma_flat_update(levels: Seq<Seq<OrderModel>>, r: int, x: Seq<OrderModel>)
    requires
        0 <= r < levels.len(),
    ensures
        flat(levels.update(r, x)) == flat(levels.take(r)) + (x + flat(levels.skip(r + 1))),
{
    let later = levels.update(r, x);
    lemma_flat_split(later, r);
    assert(later.take(r) =~= levels.take(r));
    assert(later.skip(r + 1) =~= levels.skip(r + 1));
}

pub proof fn lemma_flat_empty(levels: Seq<Seq<OrderModel>>)
    requires
        forall|r: int| 0 <= r < levels.len() ==> (#[trigger] levels[r]).len() == 0,
    ensures
        flat(levels) == Seq::<OrderModel>::empty(),
    decreases levels.len(),
{
    if levels.len() > 0 {
        assert forall|r: int| 0 <= r < levels.drop_first().len() implies (
        #[trigger] levels.drop_first()[r]).len() == 0 by {
            assert(levels.drop_first()[r] == levels[r + 1]);
        }
        lemma_flat_empty(levels.drop_first());
        assert(levels[0].len() == 0);
        assert(flat(levels) =~= Seq::<OrderModel>::empty());
    }
}

/// Each order of the queue stands at some level.
pub proof fn lemma_flat_source(levels: Seq<Seq<OrderModel>>, p: int) -> (r: (int, int))
    requires
        0 <= p < flat(levels).len(),
    ensures
        0 <= r.0 < levels.len(),
        0 <= r.1 < levels[r.0].len(),
        flat(levels)[p] == levels[r.0][r.1],
    decreases levels.len(),
{
    if p < levels[0].len() {
        (0, p)
    } else {
        let s = lemma_flat_source(levels.drop_first(), p - levels[0].len());
        (s.0 + 1, s.1)
    }
}

/// Changing one level changes that level of the queue and nothing else.
///
/// `arena` and `later` are the orders before and after; orders outside the
/// changed level are the same in both.
pub proof fn lemma_change(
    ladder: Seq<Option<PriceLevel>>,
    other: Seq<Option<PriceLevel>>,
    side: Side,
    floor: int,
    arena: Map<OrderKey, RestingOrder>,
    later: Map<OrderKey, RestingOrder>,
    i: int,
    l: PriceLevel,
)
    requires
        0 <= i < ladder.len() == other.len(),
        ladder_ok(ladder, side, floor, arena),
        ladder_ok(other, side.spec_opposite(), floor, arena),
        located_in(ladder, side, floor, arena),
        located_in(other, side.spec_opposite(), floor, arena),
        level_ok(Some(l), side, floor + i, later),
        forall|k: OrderKey|
            arena.contains_key(k) && !keys_at(ladder, i).contains(k)
                ==> #[trigger] level::same_at(arena, later, k),
        forall|k: OrderKey| #[trigger]
            later.contains_key(k) ==> l.keys().contains(k) || (arena.contains_key(k) && !keys_at(
                ladder,
                i,
            ).contains(k)),
    ensures
        ladder_ok(ladder.update(i, Some(l)), side, floor, later),
        ladder_ok(other, side.spec_opposite(), floor, later),
        located_in(ladder.update(i, Some(l)), side, floor, later),
        located_in(other, side.spec_opposite(), floor, later),
        by_rank(ladder.update(i, Some(l)), side, later) == by_rank(ladder, side, arena).update(
            idx_of(side, ladder.len() as int, i),
            level::orders_of(l.keys(), later),
        ),
        side_queue(other, side.spec_opposite(), later) == side_queue(
            other,
            side.spec_opposite(),
            arena,
        ),
{
    let after = ladder.update(i, Some(l));
    let n = ladder.len() as int;
    let opp = side.spec_opposite();
    assert forall|j: int| 0 <= j < n && j != i implies {
        &&& level_ok(ladder[j], side, floor + j, later)
        &&& level::orders_of(keys_at(ladder, j), later) == level::orders_of(
            keys_at(ladder, j),
            arena,
        )
    } by {
        lemma_untouched(ladder, side, floor, arena, later, ladder, side, j, i);
    }
    assert forall|j: int| 0 <= j < n implies {
        &&& level_ok(#[trigger] other[j], opp, floor + j, later)
        &&& level::orders_of(keys_at(other, j), later) == level::orders_of(
            keys_at(other, j),
            arena,
        )
    } by {
        lemma_untouched(other, opp, floor, arena, later, ladder, side, j, i);
    }
    assert(by_rank(after, side, later) =~= by_rank(ladder, side, arena).update(
        idx_of(side, n, i),
        level::orders_of(l.keys(), later),
    )) by {
        assert forall|r: int| 0 <= r < n && r != idx_of(side, n, i) implies by_rank(
            after,
            side,
            later,
        )[r] == by_rank(ladder, side, arena)[r] by {
            let j = idx_of(side, n, r);
            assert(after[j] == ladder[j]);
            assert(keys_at(after, j) == keys_at(ladder, j));
        }
    }
    assert(by_rank(other, opp, later) =~= by_rank(other, opp, arena));
    assert forall|k: OrderKey| #[trigger] later.contains_key(k) && later[k].side == side implies {
        let x = later[k].price.0 - floor;
        0 <= x < after.len() && keys_at(after, x).contains(k)
    } by {
        if l.keys().contains(k) {
            let j = l.keys().index_of(k);
            assert(later[l.keys()[j]] == later[k]);
        } else {
            assert(level::same_at(arena, later, k));
            let x = arena[k].price.0 - floor;
            assert(x != i);
            assert(keys_at(after, x) == keys_at(ladder, x));
        }
    }
    assert forall|k: OrderKey| #[trigger] later.contains_key(k) && later[k].side == opp implies {
        let x = later[k].price.0 - floor;
        0 <= x < other.len() && keys_at(other, x).contains(k)
    } by {
        if l.keys().contains(k) {
            let j = l.keys().index_of(k);
            assert(later[l.keys()[j]] == later[k]);
        } else {
            assert(level::same_at(arena, later, k));
        }
    }
}

/// A level at another place or on the other side shares no order with the
/// level at place `i` of `ladder`.
proof fn lemma_untouched(
    mine: Seq<Option<PriceLevel>>,
    my_side: Side,
    floor: int,
    arena: Map<OrderKey, RestingOrder>,
    later: Map<OrderKey, RestingOrder>,
    ladder: Seq<Option<PriceLevel>>,
    side: Side,
    j: int,
    i: int,
)
    requires
        0 <= i < ladder.len(),
        0 <= j < mine.len(),
        my_side != side || j != i,
        ladder_ok(ladder, side, floor, arena),
        ladder_ok(mine, my_side, floor, arena),
        forall|k: OrderKey|
            arena.contains_key(k) && !keys_at(ladder, i).contains(k)
                ==> #[trigger] level::same_at(arena, later, k),
    ensures
        level_ok(mine[j], my_side, floor + j, later),
        level::orders_of(keys_at(mine, j), later) == level::orders_of(keys_at(mine, j), arena),
{
    assert(level_ok(mine[j], my_side, floor + j, arena));
    assert(level_ok(ladder[i], side, floor + i, arena));
    if mine[j] is Some {
        let m = mine[j]->0;
        m.lemma_wf(arena);
        assert forall|k: OrderKey| m.keys().contains(k) implies #[trigger] level::same_at(
            arena,
            later,
            k,
        ) by {
            let a = m.keys().index_of(k);
            assert(arena[m.keys()[a]] == arena[k]);
            if keys_at(ladder, i).contains(k) {
                let l = ladder[i]->0;
                let b = l.keys().index_of(k);
                assert(arena[l.keys()[b]] == arena[k]);
            }
        }
        m.lemma_frame(arena, later);
        assert forall|a: int| 0 <= a < m.keys().len() implies {
            let o = #[trigger] later[m.keys()[a]];
            o.side == my_side && o.price == m.price && o.qty_remaining.0 > 0
        } by {
            assert(m.keys().contains(m.keys()[a]));
            assert(level::same_at(arena, later, m.keys()[a]));
        }
    } else {
        assert(level::orders_of(keys_at(mine, j), later) =~= level::orders_of(
            keys_at(mine, j),
            arena,
        ));
    }
}

/// The front of the queue is the front of the best level.
pub proof fn lemma_best(
    ladder: Seq<Option<PriceLevel>>,
    side: Side,
    arena: Map<OrderKey, RestingOrder>,
    best: Option<usize>,
)
    requires
        best_ok(ladder, side, best),
    ensures
        best is None ==> side_queue(ladder, side, arena) == Seq::<OrderModel>::empty(),
        best matches Some(b) ==> {
            let r = idx_of(side, ladder.len() as int, b as int);
            let levels = by_rank(ladder, side, arena);
            &&& 0 <= r < levels.len()
            &&& flat(levels.take(r)) == Seq::<OrderModel>::empty()
            &&& levels[r] == level::orders_of(keys_at(ladder, b as int), arena)
            &&& side_queue(ladder, side, arena) == levels[r] + flat(levels.skip(r + 1))
            &&& side_queue(ladder, side, arena)[0] == arena[keys_at(ladder, b as int)[0]]@
        },
{
    let levels = by_rank(ladder, side, arena);
    let n = ladder.len() as int;
    match best {
        None => {
            assert forall|r: int| 0 <= r < levels.len() implies (#[trigger] levels[r]).len()
                == 0 by {
                assert(keys_at(ladder, idx_of(side, n, r)).len() == 0);
            }
            lemma_flat_empty(levels);
        },
        Some(b) => {
            let r = idx_of(side, n, b as int);
            let front = levels.take(r);
            assert forall|x: int| 0 <= x < front.len() implies (#[trigger] front[x]).len() == 0 by {
                assert(keys_at(ladder, idx_of(side, n, x)).len() == 0);
            }
            lemma_flat_empty(front);
            lemma_flat_split(levels, r);
            assert(flat(levels) =~= levels[r] + flat(levels.skip(r + 1)));
        },
    }
}

/// Where an order stands in the queue.
pub proof fn lemma_position(
    ladder: Seq<Option<PriceLevel>>,
    side: Side,
    arena: Map<OrderKey, RestingOrder>,
    i: int,
    j: int,
) -> (p: int)
    requires
        0 <= i < ladder.len(),
        0 <= j < keys_at(ladder, i).len(),
    ensures
        p == flat(by_rank(ladder, side, arena).take(idx_of(side, ladder.len() as int, i))).len()
            + j,
        0 <= p < side_queue(ladder, side, arena).len(),
        side_queue(ladder, side, arena)[p] == arena[keys_at(ladder, i)[j]]@,
{
    let levels = by_rank(ladder, side, arena);
    let r = idx_of(side, ladder.len() as int, i);
    lemma_flat_split(levels, r);
    flat(levels.take(r)).len() + j
}

/// Each order of the queue has a key.
pub proof fn lemma_source(
    ladder: Seq<Option<PriceLevel>>,
    side: Side,
    arena: Map<OrderKey, RestingOrder>,
    p: int,
) -> (r: (int, int))
    requires
        0 <= p < side_queue(ladder, side, arena).len(),
    ensures
        0 <= r.0 < ladder.len(),
        0 <= r.1 < keys_at(ladder, r.0).len(),
        side_queue(ladder, side, arena)[p] == arena[keys_at(ladder, r.0)[r.1]]@,
{
    let s = lemma_flat_source(by_rank(ladder, side, arena), p);
    (idx_of(side, ladder.len() as int, s.0), s.1)
}

/// Orders in the first `to` levels, counted from the best one, have one of
/// the first `to` prices.
pub proof fn lemma_rank_prices(
    ladder: Seq<Option<PriceLevel>>,
    side: Side,
    floor: int,
    arena: Map<OrderKey, RestingOrder>,
    from: int,
    to: int,
    p: int,
)
    requires
        ladder_ok(ladder, side, floor, arena),
        0 <= from <= to <= ladder.len(),
        0 <= p < flat(by_rank(ladder, side, arena).subrange(from, to)).len(),
    ensures
        ({
            let o = flat(by_rank(ladder, side, arena).subrange(from, to))[p];
            let r = idx_of(side, ladder.len() as int, o.price.0 - floor);
            from <= r < to
        }),
{
    let levels = by_rank(ladder, side, arena);
    let s = lemma_flat_source(levels.subrange(from, to), p);
    let i = idx_of(side, ladder.len() as int, from + s.0);
    assert(level_ok(ladder[i], side, floor + i, arena));
    let l = ladder[i]->0;
    assert(arena[l.keys()[s.1]].price == l.price);
}

/// The quantity of the queue at a price is the quantity of that level.
pub proof fn lemma_level_qty(
    ladder: Seq<Option<PriceLevel>>,
    side: Side,
    floor: int,
    arena: Map<OrderKey, RestingOrder>,
    price: Price,
)
    requires
        ladder_ok(ladder, side, floor, arena),
        0 <= price.0 - floor < ladder.len(),
    ensures
        model::qty_at(side_queue(ladder, side, arena), price) == match ladder[price.0 - floor] {
            Some(l) => l.total_qty.0 as nat,
            None => 0,
        },
{
    let levels = by_rank(ladder, side, arena);
    let n = ladder.len() as int;
    let i = price.0 - floor;
    let r = idx_of(side, n, i);
    let front = flat(levels.take(r));
    let back = flat(levels.skip(r + 1));
    lemma_flat_split(levels, r);
    model::lemma_qty_at_concat(front, levels[r] + back, price);
    model::lemma_qty_at_concat(levels[r], back, price);
    assert(levels.take(r) =~= levels.subrange(0, r));
    assert(levels.skip(r + 1) =~= levels.subrange(r + 1, n));
    assert forall|p: int| 0 <= p < front.len() implies (#[trigger] front[p]).price != price by {
        lemma_rank_prices(ladder, side, floor, arena, 0, r, p);
    }
    model::lemma_qty_at_none(front, price);
    assert forall|p: int| 0 <= p < back.len() implies (#[trigger] back[p]).price != price by {
        lemma_rank_prices(ladder, side, floor, arena, r + 1, n, p);
    }
    model::lemma_qty_at_none(back, price);
    assert(level_ok(ladder[i], side, floor + i, arena));
    if ladder[i] is Some {
        let l = ladder[i]->0;
        l.lemma_wf(arena);
        assert forall|j: int| 0 <= j < levels[r].len() implies (#[trigger] levels[r][j]).price
            == price by {
            assert(arena[l.keys()[j]].price == l.price);
        }
    }
    model::lemma_qty_at_all(levels[r], price);
}

/// Removing from the middle part of a queue.
pub proof fn lemma_remove_middle(
    front: Seq<OrderModel>,
    middle: Seq<OrderModel>,
    back: Seq<OrderModel>,
    j: int,
)
    requires
        0 <= j < middle.len(),
    ensures
        (front + (middle + back)).remove(front.len() + j) == front + (middle.remove(j) + back),
{
    assert((front + (middle + back)).remove(front.len() + j) =~= front + (middle.remove(j)
        + back));
}

pub proof fn lemma_flat_push(levels: Seq<Seq<OrderModel>>, last: Seq<OrderModel>)
    ensures
        flat(levels.push(last)) == flat(levels) + last,
{
    let one = seq![last];
    assert(levels.push(last) =~= levels + one);
    lemma_flat_concat(levels, one);
    assert(one.drop_first() =~= Seq::<Seq<OrderModel>>::empty());
    reveal_with_fuel(flat, 2);
    assert(flat(one) =~= last);
}

/// A new order at the end of its level stands at its place in the queue.
pub proof fn lemma_insert(
    ladder: Seq<Option<PriceLevel>>,
    side: Side,
    floor: int,
    arena: Map<OrderKey, RestingOrder>,
    o: OrderModel,
)
    requires
        ladder_ok(ladder, side, floor, arena),
        0 <= o.price.0 - floor < ladder.len(),
    ensures
        ({
            let queue = side_queue(ladder, side, arena);
            let levels = by_rank(ladder, side, arena);
            let r = idx_of(side, ladder.len() as int, o.price.0 - floor);
            let p = model::place_of(side, queue, o.price);
            &&& 0 <= p <= queue.len()
            &&& flat(levels.update(r, levels[r].push(o))) == queue.insert(p, o)
        }),
{
    let queue = side_queue(ladder, side, arena);
    let levels = by_rank(ladder, side, arena);
    let n = ladder.len() as int;
    let i = o.price.0 - floor;
    let r = idx_of(side, n, i);
    let front = flat(levels.take(r));
    let back = flat(levels.skip(r + 1));
    let p = (front.len() + levels[r].len()) as int;
    lemma_flat_split(levels, r);
    lemma_flat_update(levels, r, levels[r].push(o));
    assert(levels.take(r) =~= levels.subrange(0, r));
    assert(levels.skip(r + 1) =~= levels.subrange(r + 1, n));
    assert forall|x: int| 0 <= x < p implies !model::better(
        side,
        o.price,
        (#[trigger] queue[x]).price,
    ) by {
        if x < front.len() {
            assert(queue[x] == front[x]);
            lemma_rank_prices(ladder, side, floor, arena, 0, r, x);
        } else {
            let j = x - front.len();
            assert(queue[x] == levels[r][j]);
            assert(level_ok(ladder[i], side, floor + i, arena));
            let l = ladder[i]->0;
            assert(arena[l.keys()[j]].price == l.price);
        }
    }
    if p < queue.len() {
        assert(queue[p] == back[0]);
        lemma_rank_prices(ladder, side, floor, arena, r + 1, n, 0);
    }
    model::lemma_place_of(side, queue, o.price, p);
    assert(flat(levels.update(r, levels[r].push(o))) =~= queue.insert(p, o));
}

} // verus!

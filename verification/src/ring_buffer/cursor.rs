//! Cursors of a ring and the slots they stand for.

use vstd::prelude::*;

verus! {

/// The capacity is a power of two: it has exactly one bit.
pub open spec fn is_power_of_two(cap: u64) -> bool {
    cap != 0 && cap & ((cap - 1) as u64) == 0
}

/// The slot of a cursor.
pub open spec fn slot_of(cursor: u64, cap: u64) -> u64 {
    cursor & ((cap - 1) as u64)
}

/// The cursor `d` places ahead. Cursors wrap around.
pub open spec fn ahead(cursor: u64, d: int) -> u64 {
    if cursor + d > u64::MAX {
        (cursor + d - 0x1_0000_0000_0000_0000) as u64
    } else {
        (cursor + d) as u64
    }
}

/// The number of places from `tail` to `head`.
pub open spec fn distance(head: u64, tail: u64) -> nat {
    if head >= tail {
        (head - tail) as nat
    } else {
        (head - tail + 0x1_0000_0000_0000_0000) as nat
    }
}

/// A slot lies inside the ring.
pub proof fn lemma_slot_below(cursor: u64, cap: u64)
    requires
        cap != 0,
    ensures
        slot_of(cursor, cap) < cap,
{
    assert(cursor & ((cap - 1) as u64) < cap) by (bit_vector)
        requires
            cap != 0,
    ;
}

/// Cursors that are less than the capacity apart have different slots.
pub proof fn lemma_slots_apart(cursor: u64, d: int, e: int, cap: u64)
    requires
        is_power_of_two(cap),
        0 <= d < cap,
        0 <= e < cap,
        d != e,
    ensures
        slot_of(ahead(cursor, d), cap) != slot_of(ahead(cursor, e), cap),
{
    if d < e {
        lemma_masks_differ(ahead(cursor, d), ahead(cursor, e), (e - d) as u64, cap);
    } else {
        lemma_masks_differ(ahead(cursor, e), ahead(cursor, d), (d - e) as u64, cap);
    }
}

proof fn lemma_masks_differ(x: u64, y: u64, d: u64, cap: u64)
    by (bit_vector)
    requires
        cap != 0,
        cap & ((cap - 1) as u64) == 0,
        0 < d < cap,
        x + d == y || x + d == y + 0x1_0000_0000_0000_0000,
    ensures
        (x & ((cap - 1) as u64)) != (y & ((cap - 1) as u64)),
{
}

/// The slot of a cursor in a ring of `cap` slots.
pub fn slot(cursor: u64, cap: usize) -> (r: usize)
    requires
        cap > 0,
    ensures
        r == slot_of(cursor, cap as u64),
        r < cap,
{
    proof {
        lemma_slot_below(cursor, cap as u64);
    }
    (cursor & (cap as u64 - 1)) as usize
}

/// The capacities are the numbers with a single bit.
pub proof fn law_capacities(k: u64)
    requires
        k < 64,
    ensures
        is_power_of_two(1u64 << k),
        !is_power_of_two(0),
        0 < k ==> !is_power_of_two(((1u64 << k) + 1) as u64),
{
    assert((1u64 << k) != 0 && (1u64 << k) & (((1u64 << k) - 1) as u64) == 0) by (bit_vector)
        requires
            k < 64,
    ;
    if 0 < k {
        let c = 1u64 << k;
        let d = ((1u64 << k) + 1) as u64;
        assert(c < u64::MAX) by (bit_vector)
            requires
                c == 1u64 << k,
                k < 64,
        ;
        assert(d & c != 0) by (bit_vector)
            requires
                c == 1u64 << k,
                d == c + 1,
                0 < k < 64,
        ;
    }
}

} // verus!

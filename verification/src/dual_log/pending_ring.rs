//! The orders in flight, by sequence number.
//!
//! An order is put here once it is in both logs and leaves when it is
//! processed. Looking for orders that nobody has taken care of only has to
//! look here. As sequence numbers only grow, the order of the keys is the
//! order of arrival.

use crate::core_types::log_entry;
use crate::core_types::log_entry::LogEntry;
use crate::core_types::order_status::OrderStatus;
use crossbeam_skiplist::SkipMap;
use vstd::prelude::*;

verus! {

/// `crossbeam_skiplist::SkipMap`, an ordered map.
#[verifier::external_type_specification]
#[verifier::external_body]
#[verifier::reject_recursive_types(K)]
#[verifier::reject_recursive_types(V)]
pub struct ExSkipMap<K, V>(SkipMap<K, V>);

/// The entries of the map.
pub uninterp spec fn entries_in(map: SkipMap<u64, LogEntry>) -> Map<u64, LogEntry>;

/// Calls `SkipMap::new`, an empty map.
#[verifier::external_body]
fn map_new() -> (map: SkipMap<u64, LogEntry>)
    ensures
        (entries_in(map) == Map::<u64, LogEntry>::empty()),
{
    SkipMap::new()
}

/// Calls `SkipMap::insert`, which sets the entry of a key and replaces one
/// that is there.
#[verifier::external_body]
fn map_insert(map: &mut SkipMap<u64, LogEntry>, key: u64, entry: LogEntry)
    ensures
        entries_in(*final(map)) == entries_in(*old(map)).insert(key, entry),
{
    map.insert(key, entry);
}

/// Calls `SkipMap::remove`, which takes the entry of a key out and gives it;
/// `None` if there was none.
#[verifier::external_body]
fn map_remove(map: &mut SkipMap<u64, LogEntry>, key: u64) -> (r: Option<LogEntry>)
    ensures
        r == if entries_in(*old(map)).contains_key(key) {
            Some(entries_in(*old(map))[key])
        } else {
            None
        },
        entries_in(*final(map)) == entries_in(*old(map)).remove(key),
{
    map.remove(&key).map(|e| *e.value())
}

/// Calls `SkipMap::get`: the entry of a key.
#[verifier::external_body]
fn map_get(map: &SkipMap<u64, LogEntry>, key: u64) -> (r: Option<LogEntry>)
    ensures
        r == if entries_in(*map).contains_key(key) {
            Some(entries_in(*map)[key])
        } else {
            None
        },
{
    map.get(&key).map(|e| *e.value())
}

/// Calls `SkipMap::iter`, which hands out every entry once, in the order of
/// the keys.
#[verifier::external_body]
fn map_entries(map: &SkipMap<u64, LogEntry>) -> (list: Vec<(u64, LogEntry)>)
    ensures
        forall|i: int|
            0 <= i < list@.len() ==> entries_in(*map).contains_key((#[trigger] list@[i]).0)
                && entries_in(*map)[list@[i].0] == list@[i].1,
        forall|k: u64|
            entries_in(*map).contains_key(k) ==> exists|i: int|
                0 <= i < list@.len() && (#[trigger] list@[i]).0 == k,
        forall|i: int, j: int|
            0 <= i < j < list@.len() ==> (#[trigger] list@[i]).0 < (#[trigger] list@[j]).0,
{
    map.iter().map(|e| (*e.key(), *e.value())).collect()
}

/// The orders in flight.
pub struct PendingRing {
    map: SkipMap<u64, LogEntry>,
    /// Number of entries, so that it need not be counted.
    len: usize,
}

impl PendingRing {
    /// The entries by sequence number.
    pub closed spec fn view(self) -> Map<u64, LogEntry> {
        entries_in(self.map)
    }

    pub closed spec fn wf(self) -> bool {
        &&& self@.dom().finite()
        &&& self.len == self@.len()
    }

    /// An empty ring.
    pub fn new() -> (ring: PendingRing)
        ensures
            ring.wf(),
            ring@ == Map::<u64, LogEntry>::empty(),
    {
        PendingRing::with_capacity(65536)
    }

    /// An empty ring for about `capacity` orders. It grows as needed.
    pub fn with_capacity(capacity: usize) -> (ring: PendingRing)
        ensures
            ring.wf(),
            ring@ == Map::<u64, LogEntry>::empty(),
    {
        PendingRing { map: map_new(), len: 0 }
    }

    /// Puts an order in. An order with the same number is replaced.
    pub fn push(&mut self, entry: LogEntry)
        requires
            old(self).wf(),
            old(self)@.len() < usize::MAX,
        ensures
            final(self).wf(),
            final(self)@ == old(self)@.insert(entry.seq, entry),
    {
        if map_get(&self.map, entry.seq).is_none() {
            self.len = self.len + 1;
        }
        map_insert(&mut self.map, entry.seq, entry);
    }

    /// Takes an order out. The result is `true` for the one caller that
    /// found it.
    pub fn remove(&mut self, seq: u64) -> (removed: bool)
        requires
            old(self).wf(),
        ensures
            final(self).wf(),
            removed == old(self)@.contains_key(seq),
            final(self)@ == old(self)@.remove(seq),
    {
        proof {
            if self@.contains_key(seq) {
                assert(self@.dom().contains(seq));
                assert(self@.dom().remove(seq).len() + 1 == self@.dom().len());
            }
        }
        if map_remove(&mut self.map, seq).is_some() {
            self.len = self.len - 1;
            true
        } else {
            assert(self@ =~= old(self)@);
            false
        }
    }

    /// The order with a number.
    pub fn get(&self, seq: u64) -> (r: Option<LogEntry>)
        ensures
            r == if self@.contains_key(seq) {
                Some(self@[seq])
            } else {
                None
            },
    {
        map_get(&self.map, seq)
    }

    /// Tries to move the status of an order in the ring from `from` to `to`.
    /// The result is `true` if this caller moved it.
    pub fn try_claim(&mut self, seq: u64, from: OrderStatus, to: OrderStatus) -> (won: bool)
        requires
            old(self).wf(),
        ensures
            final(self).wf(),
            won == (old(self)@.contains_key(seq) && old(self)@[seq].status == from.code()),
            final(self)@ == if old(self)@.contains_key(seq) {
                old(self)@.insert(
                    seq,
                    LogEntry {
                        status: log_entry::claimed(old(self)@[seq].status, from, to),
                        ..old(self)@[seq]
                    },
                )
            } else {
                old(self)@
            },
    {
        match map_get(&self.map, seq) {
            Some(found) => {
                let mut entry = found;
                let won = entry.try_claim(from, to);
                map_insert(&mut self.map, seq, entry);
                won
            },
            None => false,
        }
    }

    /// `e` is the first order in the ring that is still pending.
    pub open spec fn is_next(self, e: LogEntry) -> bool {
        exists|k: u64|
            {
                &&& #[trigger] self@.contains_key(k)
                &&& self@[k] == e
                &&& e.spec_status() == OrderStatus::Pending
                &&& forall|j: u64|
                    j < k && #[trigger] self@.contains_key(j) ==> self@[j].spec_status()
                        != OrderStatus::Pending
            }
    }

    /// The first order that is still pending. It stays in the ring.
    pub fn next_pending(&self) -> (r: Option<LogEntry>)
        ensures
            match r {
                Some(e) => self.is_next(e),
                None => forall|k: u64| #[trigger]
                    self@.contains_key(k) ==> self@[k].spec_status() != OrderStatus::Pending,
            },
    {
        let list = map_entries(&self.map);
        let mut i: usize = 0;
        while i < list.len()
            invariant
                i <= list@.len(),
                forall|x: int|
                    0 <= x < list@.len() ==> self@.contains_key((#[trigger] list@[x]).0)
                        && self@[list@[x].0] == list@[x].1,
                forall|k: u64|
                    self@.contains_key(k) ==> exists|x: int|
                        0 <= x < list@.len() && (#[trigger] list@[x]).0 == k,
                forall|x: int, y: int|
                    0 <= x < y < list@.len() ==> (#[trigger] list@[x]).0 < (#[trigger] list@[y]).0,
                forall|x: int|
                    0 <= x < i ==> (#[trigger] list@[x]).1.spec_status() != OrderStatus::Pending,
            decreases list@.len() - i,
        {
            let e = list[i].1;
            if e.load_status() == OrderStatus::Pending {
                proof {
                    let k = list@[i as int].0;
                    assert(self@.contains_key(k));
                    assert forall|j: u64| j < k && #[trigger] self@.contains_key(j) implies self@[
                        j
                    ].spec_status() != OrderStatus::Pending by {
                        let x = choose|x: int|
                            0 <= x < list@.len() && (#[trigger] list@[x]).0 == j;
                        if x > i {
                            assert(list@[i as int].0 < list@[x].0);
                        }
                    }
                    assert(self.is_next(e));
                }
                return Some(e);
            }
            i += 1;
        }
        None
    }

    /// The list holds every order of the ring once, in the order of the
    /// numbers.
    pub open spec fn lists(self, list: Seq<LogEntry>) -> bool {
        exists|keys: Seq<u64>|
            {
                &&& keys.len() == list.len()
                &&& forall|i: int, j: int| 0 <= i < j < keys.len() ==> keys[i] < keys[j]
                &&& forall|k: u64| self@.contains_key(k) <==> #[trigger] keys.contains(k)
                &&& forall|i: int| 0 <= i < keys.len() ==> #[trigger] list[i] == self@[keys[i]]
            }
    }

    /// All orders in the ring, in the order of their numbers.
    pub fn snapshot(&self) -> (out: Vec<LogEntry>)
        ensures
            self.lists(out@),
    {
        let list = map_entries(&self.map);
        let mut out: Vec<LogEntry> = Vec::new();
        let mut i: usize = 0;
        while i < list.len()
            invariant
                i <= list@.len(),
                out@.len() == i,
                forall|x: int| 0 <= x < i ==> #[trigger] out@[x] == list@[x].1,
            decreases list@.len() - i,
        {
            out.push(list[i].1);
            i += 1;
        }
        proof {
            let keys = Seq::new(list@.len(), |x: int| list@[x].0);
            assert forall|k: u64| self@.contains_key(k) <==> #[trigger] keys.contains(k) by {
                if self@.contains_key(k) {
                    let x = choose|x: int| 0 <= x < list@.len() && (#[trigger] list@[x]).0 == k;
                    assert(keys[x] == k);
                }
                if keys.contains(k) {
                    let x = keys.index_of(k);
                    assert(list@[x].0 == k);
                }
            }
            assert(self.lists(out@)) by {
                assert forall|x: int| 0 <= x < keys.len() implies #[trigger] out@[x]
                    == self@[keys[x]] by {
                    assert(list@[x].0 == keys[x]);
                }
            }
        }
        out
    }

    /// Number of orders in the ring.
    pub fn len(&self) -> (n: usize)
        requires
            self.wf(),
        ensures
            n == self@.len(),
    {
        self.len
    }

    pub fn is_empty(&self) -> (b: bool)
        requires
            self.wf(),
        ensures
            b == (self@.len() == 0),
    {
        self.len == 0
    }

    /// Takes out every order that has been processed, and gives their number.
    pub fn gc_terminal(&mut self) -> (removed: usize)
        requires
            old(self).wf(),
        ensures
            final(self).wf(),
            forall|k: u64| #[trigger]
                final(self)@.contains_key(k) <==> old(self)@.contains_key(k)
                    && !old(self)@[k].spec_status().spec_is_terminal(),
            forall|k: u64| #[trigger]
                final(self)@.contains_key(k) ==> final(self)@[k] == old(self)@[k],
            removed == old(self)@.len() - final(self)@.len(),
    {
        let ghost before = self@;
        let list = map_entries(&self.map);
        let mut removed: usize = 0;
        let mut i: usize = 0;
        while i < list.len()
            invariant
                i <= list@.len(),
                self.wf(),
                before == old(self)@,
                before.dom().finite(),
                removed <= i,
                removed == before.len() - self@.len(),
                forall|x: int|
                    0 <= x < list@.len() ==> before.contains_key((#[trigger] list@[x]).0)
                        && before[list@[x].0] == list@[x].1,
                forall|k: u64|
                    before.contains_key(k) ==> exists|x: int|
                        0 <= x < list@.len() && (#[trigger] list@[x]).0 == k,
                forall|x: int, y: int|
                    0 <= x < y < list@.len() ==> (#[trigger] list@[x]).0 < (#[trigger] list@[y]).0,
                forall|k: u64| #[trigger]
                    self@.contains_key(k) ==> before.contains_key(k) && self@[k] == before[k],
                forall|x: int|
                    0 <= x < i ==> (self@.contains_key((#[trigger] list@[x]).0)
                        <==> !list@[x].1.spec_status().spec_is_terminal()),
                forall|x: int| i <= x < list@.len() ==> self@.contains_key((#[trigger] list@[x]).0),
            decreases list@.len() - i,
        {
            let key: u64 = list[i].0;
            let entry = list[i].1;
            if entry.load_status().is_terminal() {
                let ghost mid = self@;
                if self.remove(key) {
                    removed = removed + 1;
                }
                proof {
                    assert(mid.contains_key(list@[i as int].0));
                    assert(mid.dom().contains(key));
                    assert(self@.dom() =~= mid.dom().remove(key));
                }
            }
            i += 1;
        }
        proof {
            assert forall|k: u64| #[trigger] self@.contains_key(k) <==> before.contains_key(k)
                && !before[k].spec_status().spec_is_terminal() by {
                if before.contains_key(k) {
                    let x = choose|x: int| 0 <= x < list@.len() && (#[trigger] list@[x]).0 == k;
                    assert(list@[x].0 == k);
                }
            }
        }
        removed
    }
}

impl Default for PendingRing {
    fn default() -> (ring: PendingRing)
        ensures
            ring.wf(),
            ring@ == Map::<u64, LogEntry>::empty(),
    {
        PendingRing::new()
    }
}

/// Every order is kept under its own number.
pub open spec fn keyed(orders: Map<u64, LogEntry>) -> bool {
    forall|k: u64| #[trigger] orders.contains_key(k) ==> orders[k].seq == k
}

/// Where every order is kept under its own number, the next order is the
/// pending one with the lowest number.
pub proof fn law_next_is_the_oldest(ring: PendingRing, e: LogEntry, other: u64)
    requires
        keyed(ring@),
        ring.is_next(e),
    ensures
        ring@.contains_key(e.seq),
        ring@[e.seq] == e,
        e.status != 1 && e.status != 2 && e.status != 3,
        ring@.contains_key(other) && (ring@[other].status == 0 || ring@[other].status > 3)
            ==> e.seq <= other,
{
}

/// Where every order is kept under its own number, a list of all orders has
/// each of them once, by rising numbers.
pub proof fn law_listed_by_number(ring: PendingRing, list: Seq<LogEntry>, i: int, j: int, k: u64)
    requires
        keyed(ring@),
        ring.lists(list),
    ensures
        0 <= i < j < list.len() ==> list[i].seq < list[j].seq,
        0 <= i < list.len() ==> ring@.contains_key(list[i].seq) && ring@[list[i].seq] == list[i],
        ring@.contains_key(k) ==> list.contains(ring@[k]),
{
    let keys = choose|keys: Seq<u64>|
        {
            &&& keys.len() == list.len()
            &&& forall|i: int, j: int| 0 <= i < j < keys.len() ==> keys[i] < keys[j]
            &&& forall|k: u64| ring@.contains_key(k) <==> #[trigger] keys.contains(k)
            &&& forall|i: int| 0 <= i < keys.len() ==> #[trigger] list[i] == ring@[keys[i]]
        };
    if 0 <= i < list.len() {
        assert(keys.contains(keys[i]));
        assert(list[i] == ring@[keys[i]]);
    }
    if 0 <= j < list.len() {
        assert(keys.contains(keys[j]));
        assert(list[j] == ring@[keys[j]]);
    }
    if ring@.contains_key(k) {
        assert(keys.contains(k));
        let x = keys.index_of(k);
        assert(list[x] == ring@[keys[x]]);
    }
}

} // verus!

//! The order books of one worker, one for each symbol.

use crate::core_types::commands::{InboundCommand, SequencedCommand};
use crate::core_types::events::EngineEvent;
use crate::core_types::ids::{AccountId, OrderId, Symbol};
use crate::order_book::book::accounts;
use crate::order_book::book::{BookConfig, OrderBook};
use crate::order_book::model::{BookModel, Outcome};
use vstd::prelude::*;

verus! {

/// A set of books with different symbols.
pub struct BookSet {
    books: Vec<OrderBook>,
}

/// The book that a configuration describes.
pub open spec fn empty_book(cfg: BookConfig) -> BookModel {
    BookModel {
        symbol: cfg.symbol,
        tick_floor: cfg.tick_floor.0 as int,
        num_ticks: cfg.num_ticks as nat,
        reserved: cfg.arena_capacity as nat,
        bids: Seq::empty(),
        asks: Seq::empty(),
    }
}

/// The books of a list of configurations. The last one for a symbol counts.
pub open spec fn built(configs: Seq<BookConfig>) -> Map<Symbol, BookModel>
    decreases configs.len(),
{
    if configs.len() == 0 {
        Map::empty()
    } else {
        built(configs.drop_last()).insert(configs.last().symbol, empty_book(configs.last()))
    }
}

impl BookSet {
    spec fn has_at(self, symbol: Symbol, i: int) -> bool {
        0 <= i < self.books@.len() && self.books@[i]@.symbol == symbol
    }

    /// The books by symbol.
    pub closed spec fn view(self) -> Map<Symbol, BookModel> {
        Map::new(
            |s: Symbol| exists|i: int| self.has_at(s, i),
            |s: Symbol| self.books@[choose|i: int| self.has_at(s, i)]@,
        )
    }

    /// Every book is well-formed, and no symbol occurs twice.
    pub closed spec fn wf(self) -> bool {
        &&& forall|i: int| 0 <= i < self.books@.len() ==> (#[trigger] self.books@[i]).wf()
        &&& forall|i: int, j: int|
            0 <= i < j < self.books@.len() ==> (#[trigger] self.books@[i])@.symbol != (
            #[trigger] self.books@[j])@.symbol
    }

    /// Each book of the set is valid and found under its own symbol.
    pub proof fn law_books_are_valid(self, symbol: Symbol)
        requires
            self.wf(),
            self@.contains_key(symbol),
        ensures
            self@[symbol].symbol == symbol,
            self@[symbol].valid(),
    {
        let i = choose|i: int| self.has_at(symbol, i);
        self.lemma_entry(i);
        self.books@[i].law_wf_is_valid();
    }

    proof fn lemma_entry(self, i: int)
        requires
            self.wf(),
            0 <= i < self.books@.len(),
        ensures
            self@.contains_key(self.books@[i]@.symbol),
            self@[self.books@[i]@.symbol] == self.books@[i]@,
    {
        let s = self.books@[i]@.symbol;
        assert(self.has_at(s, i));
        let c = choose|c: int| self.has_at(s, c);
        assert(self.has_at(s, c));
    }

    /// What changes when one book does.
    proof fn lemma_changed(self, later: BookSet, i: int)
        requires
            self.wf(),
            0 <= i < self.books@.len() == later.books@.len(),
            forall|j: int|
                0 <= j < self.books@.len() && j != i ==> #[trigger] later.books@[j]
                    == self.books@[j],
            later.books@[i].wf(),
            later.books@[i]@.symbol == self.books@[i]@.symbol,
        ensures
            later.wf(),
            later@ == self@.insert(self.books@[i]@.symbol, later.books@[i]@),
    {
        let symbol = self.books@[i]@.symbol;
        let expected = self@.insert(symbol, later.books@[i]@);
        assert forall|j: int| 0 <= j < later.books@.len() implies (#[trigger] later.books@[j]).wf()
            && later.books@[j]@.symbol == self.books@[j]@.symbol by {
            assert(self.books@[j].wf());
        }
        assert forall|s: Symbol| #[trigger] later@.contains_key(s) <==> expected.contains_key(s) by {
            if later@.contains_key(s) {
                let j = choose|j: int| later.has_at(s, j);
                self.lemma_entry(j);
            }
            if expected.contains_key(s) {
                if s == symbol {
                    later.lemma_entry(i);
                } else {
                    let j = choose|j: int| self.has_at(s, j);
                    assert(later.books@[j] == self.books@[j]);
                    later.lemma_entry(j);
                }
            }
        }
        assert forall|s: Symbol| #[trigger] later@.contains_key(s) implies later@[s]
            == expected[s] by {
            let j = choose|j: int| later.has_at(s, j);
            later.lemma_entry(j);
            self.lemma_entry(j);
        }
        assert(later@ =~= expected);
    }

    /// A set without a book.
    pub fn new() -> (set: BookSet)
        ensures
            set.wf(),
            set@ == Map::<Symbol, BookModel>::empty(),
    {
        let set = BookSet { books: Vec::new() };
        assert(set@ =~= Map::<Symbol, BookModel>::empty());
        set
    }

    /// Where the book of a symbol is.
    fn position(&self, symbol: Symbol) -> (r: Option<usize>)
        requires
            self.wf(),
        ensures
            match r {
                Some(i) => i < self.books@.len() && self.books@[i as int]@.symbol == symbol
                    && self@.contains_key(symbol) && self@[symbol] == self.books@[i as int]@,
                None => !self@.contains_key(symbol),
            },
    {
        let mut i: usize = 0;
        while i < self.books.len()
            invariant
                self.wf(),
                i <= self.books@.len(),
                forall|j: int| 0 <= j < i ==> (#[trigger] self.books@[j])@.symbol != symbol,
            decreases self.books@.len() - i,
        {
            if self.books[i].symbol() == symbol {
                proof {
                    self.lemma_entry(i as int);
                }
                return Some(i);
            }
            i += 1;
        }
        None
    }

    /// Number of books.
    pub fn len(&self) -> (n: usize)
        requires
            self.wf(),
        ensures
            self@.dom().finite(),
            n == self@.len(),
    {
        proof {
            self.lemma_count(self.books@.len() as int);
        }
        self.books.len()
    }

    spec fn first(self, n: int) -> Set<Symbol> {
        Set::new(|s: Symbol| exists|i: int| i < n && self.has_at(s, i))
    }

    proof fn lemma_count(self, n: int)
        requires
            self.wf(),
            0 <= n <= self.books@.len(),
        ensures
            self.first(n).finite(),
            self.first(n).len() == n,
            n == self.books@.len() ==> self.first(n) == self@.dom(),
        decreases n,
    {
        if n == 0 {
            assert(self.first(0) =~= Set::<Symbol>::empty());
        } else {
            self.lemma_count(n - 1);
            let s = self.books@[n - 1]@.symbol;
            assert(self.has_at(s, n - 1));
            assert(!self.first(n - 1).contains(s));
            assert forall|t: Symbol| self.first(n).contains(t) implies self.first(n - 1).insert(
                s,
            ).contains(t) by {
                let i = choose|i: int| i < n && self.has_at(t, i);
                assert(self.has_at(t, i));
            }
            assert(self.first(n) =~= self.first(n - 1).insert(s));
        }
        if n == self.books@.len() {
            assert forall|t: Symbol| #[trigger] self@.dom().contains(t) implies self.first(n).contains(
                t,
            ) by {
                let i = choose|i: int| self.has_at(t, i);
                assert(self.has_at(t, i));
            }
            assert(self.first(n) =~= self@.dom());
        }
    }

    /// The book of a symbol.
    pub fn get(&self, symbol: Symbol) -> (r: Option<&OrderBook>)
        requires
            self.wf(),
        ensures
            r is Some <==> self@.contains_key(symbol),
            r matches Some(book) ==> book.wf() && book@ == self@[symbol],
    {
        match self.position(symbol) {
            Some(i) => Some(&self.books[i]),
            None => None,
        }
    }

    /// Puts a book in. One with the same symbol is replaced.
    pub fn insert(&mut self, book: OrderBook)
        requires
            old(self).wf(),
            book.wf(),
        ensures
            final(self).wf(),
            final(self)@ == old(self)@.insert(book@.symbol, book@),
    {
        match self.position(book.symbol()) {
            Some(i) => {
                self.books.set(i, book);
                proof {
                    old(self).lemma_changed(*self, i as int);
                }
            },
            None => {
                let ghost before = *self;
                self.books.push(book);
                proof {
                    let n = before.books@.len() as int;
                    let s = book@.symbol;
                    assert forall|j: int| 0 <= j < n implies (#[trigger] before.books@[j])@.symbol
                        != s by {
                        before.lemma_entry(j);
                    }
                    assert forall|i: int| 0 <= i < self.books@.len() implies (
                    #[trigger] self.books@[i]).wf() by {
                        if i < n {
                            assert(before.books@[i].wf());
                        }
                    }
                    assert forall|i: int, j: int| 0 <= i < j < self.books@.len() implies (
                    #[trigger] self.books@[i])@.symbol != (#[trigger] self.books@[j])@.symbol by {
                        assert(before.books@[i]@.symbol == self.books@[i]@.symbol);
                        if j < n {
                            assert(before.books@[j]@.symbol == self.books@[j]@.symbol);
                        }
                    }
                    let expected = before@.insert(s, book@);
                    assert forall|t: Symbol| #[trigger] self@.contains_key(t)
                        <==> expected.contains_key(t) by {
                        if self@.contains_key(t) {
                            let i = choose|i: int| self.has_at(t, i);
                            if i < n {
                                before.lemma_entry(i);
                            }
                        }
                        if expected.contains_key(t) {
                            if t == s {
                                self.lemma_entry(n);
                            } else {
                                let i = choose|i: int| before.has_at(t, i);
                                assert(self.books@[i] == before.books@[i]);
                                self.lemma_entry(i);
                            }
                        }
                    }
                    assert forall|t: Symbol| #[trigger] self@.contains_key(t) implies self@[t]
                        == expected[t] by {
                        let i = choose|i: int| self.has_at(t, i);
                        self.lemma_entry(i);
                        if i < n {
                            before.lemma_entry(i);
                        }
                    }
                    assert(self@ =~= expected);
                }
            },
        }
    }
}

/// Every book after a request of `account` to cancel an order.
pub open spec fn cancelled_in_all(
    books: Map<Symbol, BookModel>,
    seq: u64,
    account: AccountId,
    id: OrderId,
) -> Map<Symbol, BookModel> {
    books.map_values(|m: BookModel| m.cancel(seq, account, id).book)
}

impl BookSet {
    /// Applies a command to the book of a symbol, and gives the events. The
    /// result is `None` if there is no such book.
    pub fn apply_to(&mut self, symbol: Symbol, cmd: SequencedCommand) -> (r: Option<
        Vec<EngineEvent>,
    >)
        requires
            old(self).wf(),
            old(self)@.contains_key(symbol) ==> old(self)@[symbol].admits(cmd),
        ensures
            final(self).wf(),
            match r {
                Some(events) => {
                    &&& old(self)@.contains_key(symbol)
                    &&& exists|capacity: nat|
                        capacity >= old(self)@[symbol].reserved && {
                            let out = #[trigger] old(self)@[symbol].step(cmd, capacity);
                            &&& final(self)@ == old(self)@.insert(symbol, out.book)
                            &&& events@ == out.events
                        }
                },
                None => !old(self)@.contains_key(symbol) && final(self)@ == old(self)@,
            },
    {
        match self.position(symbol) {
            Some(i) => {
                let events = self.books[i].apply(cmd);
                proof {
                    let m = old(self)@[symbol];
                    let capacity = choose|capacity: nat|
                        capacity >= m.reserved && (Outcome {
                            book: self.books@[i as int]@,
                            events: events@,
                        }) == #[trigger] m.step(cmd, capacity);
                    let out = m.step(cmd, capacity);
                    assert(out.book.symbol == m.symbol);
                    old(self).lemma_changed(*self, i as int);
                }
                Some(events.into_vec())
            },
            None => None,
        }
    }

    /// Cancels all orders of an account in the book of a symbol. The result
    /// says whether there is such a book.
    pub fn cancel_account(
        &mut self,
        symbol: Symbol,
        seq: u64,
        ts_ns: u64,
        account: AccountId,
    ) -> (known: bool)
        requires
            old(self).wf(),
        ensures
            final(self).wf(),
            known == old(self)@.contains_key(symbol),
            final(self)@ == if known {
                old(self)@.insert(
                    symbol,
                    accounts::without_account(old(self)@[symbol], account),
                )
            } else {
                old(self)@
            },
    {
        match self.position(symbol) {
            Some(i) => {
                self.books[i].cancel_account(seq, ts_ns, account);
                proof {
                    old(self).lemma_changed(*self, i as int);
                }
                true
            },
            None => false,
        }
    }

    /// Asks every book to cancel an order.
    pub fn cancel_in_all(&mut self, seq: u64, ts_ns: u64, account: AccountId, order_id: OrderId)
        requires
            old(self).wf(),
        ensures
            final(self).wf(),
            final(self)@ == cancelled_in_all(old(self)@, seq, account, order_id),
    {
        let n: usize = self.books.len();
        let mut i: usize = 0;
        while i < n
            invariant
                old(self).wf(),
                n == self.books@.len() == old(self).books@.len(),
                i <= n,
                self.wf(),
                forall|j: int|
                    0 <= j < i ==> (#[trigger] self.books@[j])@ == old(self).books@[j]@.cancel(
                        seq,
                        account,
                        order_id,
                    ).book,
                forall|j: int| i <= j < n ==> #[trigger] self.books@[j] == old(self).books@[j],
            decreases n - i,
        {
            let ghost before = *self;
            self.books[i].apply(SequencedCommand {
                seq,
                ts_ns,
                cmd: InboundCommand::Cancel { account, order_id },
            });
            proof {
                before.lemma_changed(*self, i as int);
            }
            i += 1;
        }
        proof {
            let expected = cancelled_in_all(old(self)@, seq, account, order_id);
            assert forall|s: Symbol| #[trigger] self@.contains_key(s) <==> expected.contains_key(
                s,
            ) by {
                if self@.contains_key(s) {
                    let j = choose|j: int| self.has_at(s, j);
                    assert(self.has_at(s, j));
                    old(self).lemma_entry(j);
                }
                if expected.contains_key(s) {
                    assert(old(self)@.contains_key(s));
                    let j = choose|j: int| old(self).has_at(s, j);
                    assert(old(self).has_at(s, j));
                    self.lemma_entry(j);
                }
            }
            assert forall|s: Symbol| #[trigger] self@.contains_key(s) implies self@[s]
                == expected[s] by {
                let j = choose|j: int| self.has_at(s, j);
                assert(self.has_at(s, j));
                self.lemma_entry(j);
                old(self).lemma_entry(j);
            }
            assert(self@ =~= expected);
        }
    }
}

/// Makes the books for a list of configurations. The last one for a symbol
/// counts.
pub fn build_books(configs: &Vec<BookConfig>) -> (set: BookSet)
    requires
        forall|i: int|
            0 <= i < configs@.len() ==> ((#[trigger] configs@[i]).arena_capacity + 1) * 128
                <= isize::MAX,
    ensures
        set.wf(),
        set@ == built(configs@),
{
    let mut set = BookSet::new();
    let mut i: usize = 0;
    while i < configs.len()
        invariant
            i <= configs@.len(),
            forall|i: int|
                0 <= i < configs@.len() ==> ((#[trigger] configs@[i]).arena_capacity + 1) * 128
                    <= isize::MAX,
            set.wf(),
            set@ == built(configs@.take(i as int)),
        decreases configs@.len() - i,
    {
        let cfg = configs[i];
        let book = OrderBook::new(cfg);
        set.insert(book);
        proof {
            let now = configs@.take(i + 1);
            assert(now.drop_last() =~= configs@.take(i as int));
            assert(now.last() == cfg);
            assert(book@ =~= empty_book(cfg));
        }
        i += 1;
    }
    assert(configs@.take(i as int) =~= configs@);
    set
}

} // verus!

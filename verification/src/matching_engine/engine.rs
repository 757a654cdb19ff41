//! The matching engine: it takes sequenced commands, checks new orders
//! against the risk limits, applies them to the book, and gives the events to
//! log and publish.

use crate::account_state::AccountRiskTable;
use crate::core_types::commands::{InboundCommand, NewOrder, SequencedCommand};
use crate::core_types::events::{CancelReason, Event, RejectReason};
use crate::core_types::ids::{AccountId, InstrumentId, SequenceNo, Symbol};
use crate::core_types::price::Price;
use crate::core_types::qty::Qty;
use crate::matching_engine::mapper;
use crate::matching_engine::metrics::{EngineMetrics, HistogramModel};
use crate::matching_engine::risk_check;
use crate::matching_engine::risk_check::{RiskRejectReason, Tier0Limits};
use crate::order_book::book::accounts;
use crate::order_book::book::OrderBook;
use crate::order_book::model::{BookModel, Outcome};
use crate::ring_buffer::spsc::{SpscConsumer, SpscProducer, SpscShared};
use vstd::prelude::*;

verus! {

/// Settings of an engine.
#[derive(Debug, Clone, Copy)]
pub struct EngineConfig {
    pub limits: Tier0Limits,
    /// Processor core that the engine's thread is pinned to.
    pub pin_core: Option<usize>,
}

/// One matching engine.
pub struct MatchingEngine {
    pub config: EngineConfig,
    pub book: OrderBook,
    pub metrics: EngineMetrics,
    pub reference_price: Option<Price>,
    pub running: bool,
}

/// Number of slots of the rings to and from an engine.
pub const RING_CAP: usize = 1024;

/// The events of an account that is liquidated: one for each order that is
/// forced off the book, bids first.
pub open spec fn cancellations(
    m: BookModel,
    seq: u64,
    symbol: Symbol,
    account: AccountId,
) -> Seq<Event> {
    let ids = accounts::ids_of(m.bids, account) + accounts::ids_of(m.asks, account);
    Seq::new(
        ids.len(),
        |i: int|
            Event::Canceled {
                seq: mapper::seq_no(seq),
                instrument_id: InstrumentId(symbol.0 as u64),
                order_id: ids[i],
                account_id: account,
                reason: CancelReason::RiskLimitBreach,
                remaining_qty: Qty(0),
            },
    )
}

/// What a command does to the book, and the events that the world sees of it:
/// all orders of an account that is liquidated are cancelled, every other
/// command is the book's own.
pub open spec fn applied(
    m: BookModel,
    cmd: SequencedCommand,
    later: BookModel,
    events: Seq<Event>,
) -> bool {
    match cmd.cmd {
        InboundCommand::Liquidate { symbol, account } => {
            &&& later == accounts::without_account(m, account)
            &&& events == cancellations(m, cmd.seq, symbol, account)
        },
        _ => exists|capacity: nat|
            capacity >= m.reserved && {
                let out = #[trigger] m.step(cmd, capacity);
                &&& later == out.book
                &&& events == mapper::outward(out.events)
            },
    }
}

/// How often an event is offered to a full ring before it is dropped.
pub const MAX_PUBLISH_RETRIES: u32 = 64;

/// What to do after an attempt to publish an event.
#[derive(Debug, Clone, Copy, PartialEq, Eq, Structural)]
pub enum PublishStep {
    /// The event is out.
    Done,
    /// Offer it again.
    Retry,
    /// Give it up and count the loss.
    Drop,
}

/// The next step after `attempts` attempts, of which the last one was
/// `accepted` or not.
pub fn publish_step(attempts: u32, accepted: bool) -> (step: PublishStep)
    ensures
        step == if accepted {
            PublishStep::Done
        } else if attempts < MAX_PUBLISH_RETRIES {
            PublishStep::Retry
        } else {
            PublishStep::Drop
        },
{
    if accepted {
        PublishStep::Done
    } else if attempts < MAX_PUBLISH_RETRIES {
        PublishStep::Retry
    } else {
        PublishStep::Drop
    }
}

/// The reason that a client sees for a failed risk check.
pub open spec fn shown_reason(reason: RiskRejectReason) -> RejectReason {
    match reason {
        RiskRejectReason::MaxOrderQtyExceeded => RejectReason::InvalidQuantity,
        RiskRejectReason::MaxOrderNotionalExceeded => RejectReason::RiskLimitBreach,
        RiskRejectReason::AccountHalted => RejectReason::RiskLimitBreach,
        RiskRejectReason::PositionLimitExceeded => RejectReason::RiskLimitBreach,
        RiskRejectReason::OpenOrderLimitExceeded => RejectReason::RiskLimitBreach,
        RiskRejectReason::PriceOutOfBand => RejectReason::PriceOutOfRange,
    }
}

fn map_risk_reject_reason(reason: RiskRejectReason) -> (r: RejectReason)
    ensures
        r == shown_reason(reason),
{
    match reason {
        RiskRejectReason::MaxOrderQtyExceeded => RejectReason::InvalidQuantity,
        RiskRejectReason::MaxOrderNotionalExceeded => RejectReason::RiskLimitBreach,
        RiskRejectReason::AccountHalted => RejectReason::RiskLimitBreach,
        RiskRejectReason::PositionLimitExceeded => RejectReason::RiskLimitBreach,
        RiskRejectReason::OpenOrderLimitExceeded => RejectReason::RiskLimitBreach,
        RiskRejectReason::PriceOutOfBand => RejectReason::PriceOutOfRange,
    }
}

/// Number of fills among the events.
pub open spec fn fills(events: Seq<Event>) -> nat
    decreases events.len(),
{
    if events.len() == 0 {
        0
    } else {
        fills(events.drop_last()) + (if events.last() is Filled {
            1nat
        } else {
            0
        })
    }
}

fn count_fills(events: &Vec<Event>) -> (n: u64)
    ensures
        n == fills(events@),
{
    let mut n: u64 = 0;
    let mut i: usize = 0;
    assert(events@.take(0) =~= Seq::<Event>::empty());
    while i < events.len()
        invariant
            i <= events@.len(),
            n == fills(events@.take(i as int)),
            n <= i,
        decreases events@.len() - i,
    {
        proof {
            let part = events@.take(i + 1);
            assert(part.drop_last() =~= events@.take(i as int));
            assert(part.last() == events@[i as int]);
        }
        if matches!(events[i], Event::Filled { .. }) {
            n += 1;
        }
        i += 1;
    }
    assert(events@.take(i as int) =~= events@);
    n
}

/// The order that a command asks for, as the risk check sees it.
pub open spec fn checked_order(cmd: InboundCommand) -> NewOrder
    recommends
        cmd is NewOrder,
{
    NewOrder {
        account_id: cmd->NewOrder_account,
        instrument_id: InstrumentId(cmd->NewOrder_symbol.0 as u64),
        client_order_id: cmd->client_order_id,
        side: cmd->side,
        price: cmd->price,
        order_type: cmd->order_type,
        qty: cmd->qty,
        time_in_force: cmd->time_in_force,
    }
}

impl MatchingEngine {
    pub fn new(config: EngineConfig, book: OrderBook) -> (engine: MatchingEngine)
        ensures
            engine.config == config,
            engine.book == book,
            engine.reference_price is None,
            engine.running,
            engine.metrics.match_latency@ == HistogramModel::empty(),
            engine.metrics.risk_check_latency@ == HistogramModel::empty(),
            engine.metrics.orders_processed == 0,
            engine.metrics.fills_generated == 0,
            engine.metrics.risk_rejects == 0,
            engine.metrics.idle_spins == 0,
            engine.metrics.outbound_drops == 0,
            engine.metrics.wal_failures == 0,
    {
        MatchingEngine {
            config,
            book,
            metrics: EngineMetrics::new(),
            reference_price: None,
            running: true,
        }
    }

    pub fn metrics(&self) -> (m: &EngineMetrics)
        ensures
            *m == self.metrics,
    {
        &self.metrics
    }

    /// Asks the loop of the engine to end.
    pub fn shutdown(&mut self)
        ensures
            *final(self) == (MatchingEngine { running: false, ..*old(self) }),
    {
        self.running = false;
    }

    /// The result of the risk check of a command. Only new orders can fail.
    pub open spec fn verdict(self, cmd: SequencedCommand, states: AccountRiskTable) -> Result<
        (),
        RiskRejectReason,
    > {
        if cmd.cmd is NewOrder {
            risk_check::verdict(
                checked_order(cmd.cmd),
                self.config.limits,
                states@[cmd.cmd->NewOrder_account.0 as int],
                self.reference_price,
            )
        } else {
            Ok(())
        }
    }

    /// Checks a command against the risk limits.
    pub fn check_risk(&self, cmd: &SequencedCommand, states: &AccountRiskTable) -> (r: Result<
        (),
        RiskRejectReason,
    >)
        requires
            cmd.cmd is NewOrder ==> cmd.cmd->NewOrder_account.0 < states@.len(),
        ensures
            r == self.verdict(*cmd, *states),
    {
        match cmd.cmd {
            InboundCommand::NewOrder {
                account,
                client_order_id,
                symbol,
                side,
                price,
                qty,
                order_type,
                time_in_force,
            } => {
                let order = NewOrder {
                    account_id: account,
                    instrument_id: InstrumentId(symbol.0 as u64),
                    client_order_id,
                    side,
                    price,
                    order_type,
                    qty,
                    time_in_force,
                };
                let state = states.get(account.get());
                risk_check::check_new_order(
                    &order,
                    account,
                    &self.config.limits,
                    state,
                    self.reference_price,
                )
            },
            _ => Ok(()),
        }
    }

    /// The event that tells the client of a failed risk check.
    pub open spec fn rejection(cmd: SequencedCommand, reason: RiskRejectReason) -> Event {
        Event::Rejected {
            seq: mapper::seq_no(cmd.seq),
            account_id: cmd.cmd->NewOrder_account,
            client_order_id: cmd.cmd->client_order_id,
            reason: shown_reason(reason),
        }
    }

    /// Carries out a command whose risk check had the result `checked`, and
    /// gives the events to log and publish, in order. After a failed check
    /// the book is not touched. Liquidating an account cancels its open
    /// orders.
    pub fn execute(
        &mut self,
        cmd: SequencedCommand,
        checked: Result<(), RiskRejectReason>,
    ) -> (events: Vec<Event>)
        requires
            old(self).book.wf(),
            checked is Ok ==> old(self).book@.admits(cmd),
            checked is Err ==> cmd.cmd is NewOrder,
        ensures
            final(self).book.wf(),
            final(self).config == old(self).config,
            final(self).reference_price == old(self).reference_price,
            final(self).running == old(self).running,
            checked matches Err(reason) ==> {
                &&& events@ == seq![MatchingEngine::rejection(cmd, reason)]
                &&& final(self).book == old(self).book
                &&& final(self).metrics == old(self).metrics.with_order(0, true)
            },
            checked is Ok ==> {
                &&& applied(old(self).book@, cmd, final(self).book@, events@)
                &&& final(self).metrics == if cmd.cmd is NewOrder {
                    old(self).metrics.with_order(fills(events@) as u64, false)
                } else {
                    old(self).metrics
                }
            },
    {
        match checked {
            Ok(_) => {
                let ghost before = self.book@;
                if let InboundCommand::Liquidate { symbol, account } = cmd.cmd {
                    return self.liquidate(cmd.seq, cmd.ts_ns, symbol, account);
                }
                let list = self.book.apply(cmd).into_vec();
                let events = mapper::map_engine_events(&list);
                proof {
                    let capacity = choose|capacity: nat|
                        capacity >= before.reserved && (Outcome {
                            book: self.book@,
                            events: list@,
                        }) == #[trigger] before.step(cmd, capacity);
                    let out = before.step(cmd, capacity);
                    assert(self.book@ == out.book && events@ == mapper::outward(out.events));
                }
                if matches!(cmd.cmd, InboundCommand::NewOrder { .. }) {
                    let n: u64 = count_fills(&events);
                    self.metrics.record_order(n, false);
                }
                events
            },
            Err(reason) => {
                let mut events: Vec<Event> = Vec::new();
                if let InboundCommand::NewOrder { account, client_order_id, .. } = cmd.cmd {
                    self.metrics.record_order(0, true);
                    events.push(
                        Event::Rejected {
                            seq: SequenceNo::new_or_first(cmd.seq),
                            account_id: account,
                            client_order_id,
                            reason: map_risk_reject_reason(reason),
                        },
                    );
                }
                assert(events@ =~= seq![MatchingEngine::rejection(cmd, reason)]);
                events
            },
        }
    }

    /// Cancels all open orders of an account.
    fn liquidate(&mut self, seq: u64, ts_ns: u64, symbol: Symbol, account: AccountId) -> (events:
        Vec<Event>)
        requires
            old(self).book.wf(),
        ensures
            final(self).book.wf(),
            final(self).book@ == accounts::without_account(old(self).book@, account),
            events@ == cancellations(old(self).book@, seq, symbol, account),
            final(self).config == old(self).config,
            final(self).reference_price == old(self).reference_price,
            final(self).running == old(self).running,
            final(self).metrics == old(self).metrics,
    {
        let ghost all = cancellations(self.book@, seq, symbol, account);
        let ids = self.book.cancel_account(seq, ts_ns, account);
        let mut events: Vec<Event> = Vec::new();
        let mut i: usize = 0;
        while i < ids.len()
            invariant
                i <= ids@.len(),
                ids@.len() == all.len(),
                forall|j: int|
                    0 <= j < all.len() ==> #[trigger] all[j] == (Event::Canceled {
                        seq: mapper::seq_no(seq),
                        instrument_id: InstrumentId(symbol.0 as u64),
                        order_id: ids@[j],
                        account_id: account,
                        reason: CancelReason::RiskLimitBreach,
                        remaining_qty: Qty(0),
                    }),
                events@ == all.take(i as int),
            decreases ids@.len() - i,
        {
            events.push(
                Event::Canceled {
                    seq: SequenceNo::new_or_first(seq),
                    instrument_id: InstrumentId(symbol.0 as u64),
                    order_id: ids[i],
                    account_id: account,
                    reason: CancelReason::RiskLimitBreach,
                    remaining_qty: Qty(0),
                },
            );
            assert(events@ =~= all.take(i + 1));
            i += 1;
        }
        assert(events@ =~= all);
        events
    }

    /// What a command leaves behind: the engine `later` and the events. After
    /// a failed risk check the book is as it was and the client is told;
    /// otherwise the command has been `applied` to the book.
    pub open spec fn carried_out(
        self,
        cmd: SequencedCommand,
        states: AccountRiskTable,
        later: MatchingEngine,
        events: Seq<Event>,
    ) -> bool {
        &&& later.config == self.config
        &&& later.reference_price == self.reference_price
        &&& later.running == self.running
        &&& match self.verdict(cmd, states) {
            Err(reason) => {
                &&& events == seq![MatchingEngine::rejection(cmd, reason)]
                &&& later.book == self.book
                &&& later.metrics == self.metrics.with_order(0, true)
            },
            Ok(_) => {
                &&& applied(self.book@, cmd, later.book@, events)
                &&& later.metrics == if cmd.cmd is NewOrder {
                    self.metrics.with_order(fills(events) as u64, false)
                } else {
                    self.metrics
                }
            },
        }
    }

    /// Checks a command and carries it out.
    pub fn handle_command(&mut self, cmd: SequencedCommand, states: &AccountRiskTable) -> (events:
        Vec<Event>)
        requires
            old(self).book.wf(),
            old(self).verdict(cmd, *states) is Ok ==> old(self).book@.admits(cmd),
            cmd.cmd is NewOrder ==> cmd.cmd->NewOrder_account.0 < states@.len(),
        ensures
            final(self).book.wf(),
            old(self).carried_out(cmd, *states, *final(self), events@),
    {
        let checked = self.check_risk(&cmd, states);
        self.execute(cmd, checked)
    }

    /// Takes the next command off the inbound ring and carries it out. The
    /// result is `None`, and an idle turn is counted, if there is none.
    pub fn poll(
        &mut self,
        inbound: &mut SpscConsumer<SequencedCommand, RING_CAP>,
        ring: &mut SpscShared<SequencedCommand, RING_CAP>,
        states: &AccountRiskTable,
    ) -> (r: Option<Vec<Event>>)
        requires
            old(self).book.wf(),
            old(ring).wf(),
            old(inbound).drains(*old(ring)),
            old(ring)@.len() > 0 ==> {
                let cmd = old(ring)@[0];
                &&& old(self).verdict(cmd, *states) is Ok ==> old(self).book@.admits(cmd)
                &&& cmd.cmd is NewOrder ==> cmd.cmd->NewOrder_account.0 < states@.len()
            },
        ensures
            final(self).book.wf(),
            final(ring).wf(),
            final(inbound).drains(*final(ring)),
            forall|p: SpscProducer<SequencedCommand, RING_CAP>|
                p.feeds(*old(ring)) ==> #[trigger] p.feeds(*final(ring)),
            match r {
                None => {
                    &&& old(ring)@.len() == 0
                    &&& final(ring)@ == old(ring)@
                    &&& *final(self) == old(self).after_idle_turn()
                    &&& *final(self) == (MatchingEngine {
                        metrics: EngineMetrics {
                            idle_spins: old(self).metrics.idle_spins.wrapping_add(1),
                            ..old(self).metrics
                        },
                        ..*old(self)
                    })
                },
                Some(events) => {
                    &&& old(ring)@.len() > 0
                    &&& final(ring)@ == old(ring)@.drop_first()
                    &&& old(self).carried_out(old(ring)@[0], *states, *final(self), events@)
                },
            },
    {
        match inbound.try_pop(ring) {
            Some(cmd) => Some(self.handle_command(cmd, states)),
            None => {
                self.metrics.record_idle_spin();
                None
            },
        }
    }

    /// The engine after an event was offered, and was taken or lost.
    pub open spec fn after_offer(self, taken: bool) -> MatchingEngine {
        if taken {
            self
        } else {
            MatchingEngine {
                metrics: EngineMetrics {
                    outbound_drops: self.metrics.outbound_drops.wrapping_add(1),
                    ..self.metrics
                },
                ..self
            }
        }
    }

    /// The engine after a turn without a command.
    pub open spec fn after_idle_turn(self) -> MatchingEngine {
        MatchingEngine {
            metrics: EngineMetrics {
                idle_spins: self.metrics.idle_spins.wrapping_add(1),
                ..self.metrics
            },
            ..self
        }
    }

    /// Offers an event to the outbound ring, again and again while it is
    /// full. An event that is still not taken after the last attempt is lost,
    /// which is counted. The result says whether the event is out.
    pub fn publish(
        &mut self,
        outbound: &mut SpscProducer<Event, RING_CAP>,
        ring: &mut SpscShared<Event, RING_CAP>,
        ev: Event,
    ) -> (published: bool)
        requires
            old(ring).wf(),
            old(outbound).feeds(*old(ring)),
        ensures
            final(ring).wf(),
            final(outbound).feeds(*final(ring)),
            forall|c: SpscConsumer<Event, RING_CAP>|
                c.drains(*old(ring)) ==> #[trigger] c.drains(*final(ring)),
            published == (old(ring)@.len() < RING_CAP),
            final(ring)@ == if published {
                old(ring)@.push(ev)
            } else {
                old(ring)@
            },
            *final(self) == old(self).after_offer(published),
            *final(self) == if published {
                *old(self)
            } else {
                MatchingEngine {
                    metrics: EngineMetrics {
                        outbound_drops: old(self).metrics.outbound_drops.wrapping_add(1),
                        ..old(self).metrics
                    },
                    ..*old(self)
                }
            },
    {
        let mut item = ev;
        let mut attempts: u32 = 0;
        loop
            invariant
                *self == *old(self),
                ring.wf(),
                outbound.feeds(*ring),
                forall|c: SpscConsumer<Event, RING_CAP>|
                    c.drains(*old(ring)) ==> #[trigger] c.drains(*ring),
                ring@ == old(ring)@,
                item == ev,
                attempts > 0 ==> ring@.len() == RING_CAP,
                attempts < MAX_PUBLISH_RETRIES,
            decreases MAX_PUBLISH_RETRIES - attempts,
        {
            attempts = attempts + 1;
            let accepted = match outbound.try_push(ring, item) {
                Ok(_) => true,
                Err(rejected) => {
                    item = rejected;
                    false
                },
            };
            match publish_step(attempts, accepted) {
                PublishStep::Done => {
                    return true;
                },
                PublishStep::Retry => {},
                PublishStep::Drop => {
                    self.metrics.record_outbound_drop();
                    return false;
                },
            }
        }
    }
}

} // verus!

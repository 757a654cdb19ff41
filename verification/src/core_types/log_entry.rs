//! Entries of the command log, and the state machine that keeps an order from
//! being processed twice.
//!
//! The number, the time, the command and the checksum of an entry never
//! change. Its status moves only through `try_claim`, a compare-and-exchange:
//! of all that try to move it out of one state, exactly one succeeds.

use crate::core_types::commands::{InboundCommand, OrderType, TimeInForce};
use crate::core_types::crc32;
use crate::core_types::le;
use crate::core_types::order_status::OrderStatus;
use crate::core_types::side::Side;
use vstd::prelude::*;

verus! {

/// A command in the log, with what became of it.
#[derive(Debug, Clone, Copy)]
pub struct LogEntry {
    /// Number of the command in the total order.
    pub seq: u64,
    /// When the command came in, in nanoseconds.
    pub timestamp_in: u64,
    pub cmd: InboundCommand,
    /// Checksum of the command.
    pub checksum: u32,
    /// The status, as its byte.
    pub status: u8,
    /// Which engine processed the command: 0 none, 1 primary, 2 second.
    pub handled_by: u8,
    /// When the command was processed, in nanoseconds.
    pub timestamp_out: u64,
    /// Price of the fill.
    pub fill_price: u64,
    /// Quantity of the fill.
    pub filled_qty: u64,
}

/// The number of a side in the bytes of a command.
pub open spec fn side_tag(side: Side) -> nat {
    match side {
        Side::Buy => 0,
        Side::Sell => 1,
    }
}

/// The number of an order type in the bytes of a command.
pub open spec fn order_type_tag(t: OrderType) -> nat {
    match t {
        OrderType::Limit => 0,
        OrderType::Market => 1,
    }
}

/// The number of a time in force in the bytes of a command.
pub open spec fn time_in_force_tag(t: TimeInForce) -> nat {
    match t {
        TimeInForce::Gtc => 0,
        TimeInForce::Ioc => 1,
        TimeInForce::Fok => 2,
    }
}

/// The serialised form of a command: the fields one after the other, each
/// number little-endian in its own width, and four bytes for the number of a
/// variant.
pub open spec fn command_bytes(cmd: InboundCommand) -> Seq<u8> {
    match cmd {
        InboundCommand::NewOrder {
            account,
            client_order_id,
            symbol,
            side,
            price,
            qty,
            order_type,
            time_in_force,
        } => {
            le::le_bytes(0, 4) + le::le_bytes(account.0 as nat, 8) + le::le_bytes(
                client_order_id.0 as nat,
                8,
            ) + le::le_bytes(symbol.0 as nat, 2) + le::le_bytes(side_tag(side), 4) + le::le_bytes(
                (price.0 as u64) as nat,
                8,
            ) + le::le_bytes(qty.0 as nat, 8) + le::le_bytes(order_type_tag(order_type), 4)
                + le::le_bytes(time_in_force_tag(time_in_force), 4)
        },
        InboundCommand::Cancel { account, order_id } => {
            le::le_bytes(1, 4) + le::le_bytes(account.0 as nat, 8) + le::le_bytes(
                order_id.0 as nat,
                8,
            )
        },
        InboundCommand::Liquidate { symbol, account } => {
            le::le_bytes(2, 4) + le::le_bytes(symbol.0 as nat, 2) + le::le_bytes(
                account.0 as nat,
                8,
            )
        },
        InboundCommand::FreezeAccount { account } => {
            le::le_bytes(3, 4) + le::le_bytes(account.0 as nat, 8)
        },
    }
}

/// The checksum of a command: the CRC32 of its bytes.
pub open spec fn spec_checksum(cmd: InboundCommand) -> u32 {
    crc32::spec_crc32(command_bytes(cmd))
}

/// What an attempt to move a status from `from` to `to` leaves behind.
pub open spec fn claimed(status: u8, from: OrderStatus, to: OrderStatus) -> u8 {
    if status == from.code() {
        to.code()
    } else {
        status
    }
}

fn bytes_of(cmd: &InboundCommand) -> (out: Vec<u8>)
    ensures
        out@ == command_bytes(*cmd),
{
    let mut out: Vec<u8> = Vec::new();
    match cmd {
        InboundCommand::NewOrder {
            account,
            client_order_id,
            symbol,
            side,
            price,
            qty,
            order_type,
            time_in_force,
        } => {
            le::push_le(&mut out, 0, 4);
            le::push_le(&mut out, account.0, 8);
            le::push_le(&mut out, client_order_id.0, 8);
            le::push_le(&mut out, symbol.0 as u64, 2);
            let side_no: u64 = match side {
                Side::Buy => 0,
                Side::Sell => 1,
            };
            le::push_le(&mut out, side_no, 4);
            le::push_le(&mut out, price.0 as u64, 8);
            le::push_le(&mut out, qty.0, 8);
            let type_no: u64 = match order_type {
                OrderType::Limit => 0,
                OrderType::Market => 1,
            };
            le::push_le(&mut out, type_no, 4);
            let tif_no: u64 = match time_in_force {
                TimeInForce::Gtc => 0,
                TimeInForce::Ioc => 1,
                TimeInForce::Fok => 2,
            };
            le::push_le(&mut out, tif_no, 4);
        },
        InboundCommand::Cancel { account, order_id } => {
            le::push_le(&mut out, 1, 4);
            le::push_le(&mut out, account.0, 8);
            le::push_le(&mut out, order_id.0, 8);
        },
        InboundCommand::Liquidate { symbol, account } => {
            le::push_le(&mut out, 2, 4);
            le::push_le(&mut out, symbol.0 as u64, 2);
            le::push_le(&mut out, account.0, 8);
        },
        InboundCommand::FreezeAccount { account } => {
            le::push_le(&mut out, 3, 4);
            le::push_le(&mut out, account.0, 8);
        },
    }
    assert(out@ =~= command_bytes(*cmd));
    out
}

/// The checksum of a command.
fn compute_checksum(cmd: &InboundCommand) -> (r: u32)
    ensures
        r == spec_checksum(*cmd),
{
    let bytes = bytes_of(cmd);
    crc32::crc32(bytes.as_slice())
}

impl LogEntry {
    /// The entry's status as it is read.
    pub open spec fn spec_status(self) -> OrderStatus {
        if self.status == 1 {
            OrderStatus::Addressed
        } else if self.status == 2 {
            OrderStatus::Unaddressed
        } else if self.status == 3 {
            OrderStatus::FinallyHandled
        } else {
            OrderStatus::Pending
        }
    }

    /// The stored checksum fits the command.
    pub open spec fn intact(self) -> bool {
        self.checksum == spec_checksum(self.cmd)
    }

    /// An entry that nobody has processed yet.
    pub fn new(seq: u64, timestamp_in: u64, cmd: InboundCommand) -> (r: LogEntry)
        ensures
            r == (LogEntry {
                seq,
                timestamp_in,
                cmd,
                checksum: spec_checksum(cmd),
                status: OrderStatus::Pending.code(),
                handled_by: 0,
                timestamp_out: 0,
                fill_price: 0,
                filled_qty: 0,
            }),
            r.spec_status() == OrderStatus::Pending,
            r.intact(),
    {
        let checksum: u32 = compute_checksum(&cmd);
        LogEntry {
            seq,
            timestamp_in,
            cmd,
            checksum,
            status: u8::from(OrderStatus::Pending),
            handled_by: 0,
            timestamp_out: 0,
            fill_price: 0,
            filled_qty: 0,
        }
    }

    /// Tries to move the status from `from` to `to`. The result is `true` if
    /// this caller moved it and so owns the processing of the order, `false`
    /// if the order was not in `from`, because somebody else was first.
    pub fn try_claim(&mut self, from: OrderStatus, to: OrderStatus) -> (won: bool)
        ensures
            won == (old(self).status == from.code()),
            *final(self) == (LogEntry {
                status: claimed(old(self).status, from, to),
                ..*old(self)
            }),
    {
        if self.status == u8::from(from) {
            self.status = u8::from(to);
            true
        } else {
            false
        }
    }

    /// The current status. A byte that stands for none counts as pending.
    pub fn load_status(&self) -> (r: OrderStatus)
        ensures
            r == self.spec_status(),
    {
        match OrderStatus::from_u8(self.status) {
            Some(s) => s,
            None => OrderStatus::Pending,
        }
    }

    /// Whether the stored checksum fits the command.
    pub fn verify_checksum(&self) -> (b: bool)
        ensures
            b == self.intact(),
    {
        compute_checksum(&self.cmd) == self.checksum
    }

    /// Notes that an engine (1 primary, 2 second) has processed the order.
    pub fn record_fill(
        &mut self,
        engine_id: u8,
        timestamp_out: u64,
        fill_price: u64,
        filled_qty: u64,
    )
        ensures
            *final(self) == (LogEntry {
                handled_by: engine_id,
                timestamp_out,
                fill_price,
                filled_qty,
                ..*old(self)
            }),
    {
        self.fill_price = fill_price;
        self.filled_qty = filled_qty;
        self.handled_by = engine_id;
        self.timestamp_out = timestamp_out;
    }

    /// How long before `now_ns` the entry came in.
    pub fn age_ns(&self, now_ns: u64) -> (age: u64)
        ensures
            age == if now_ns >= self.timestamp_in {
                now_ns - self.timestamp_in
            } else {
                0
            },
    {
        now_ns.saturating_sub(self.timestamp_in)
    }
}

/// A command that is corrupted in one byte of its serialised form does not fit
/// the stored checksum any more.
pub proof fn law_corrupted_command_is_noticed(entry: LogEntry, other: InboundCommand, i: int)
    requires
        entry.intact(),
        ({
            let a = command_bytes(entry.cmd);
            let b = command_bytes(other);
            &&& a.len() == b.len()
            &&& 0 <= i < a.len()
            &&& a[i] != b[i]
            &&& forall|j: int| 0 <= j < a.len() && j != i ==> a[j] == b[j]
        }),
    ensures
        !(LogEntry { cmd: other, ..entry }).intact(),
{
    crc32::law_changed_byte_is_noticed(command_bytes(entry.cmd), command_bytes(other), i);
}

/// Of two attempts to move an order out of the same state, at most one wins:
/// once the first has won, the second cannot. This is what keeps an order
/// from being filled by both engines.
pub proof fn law_one_claim_wins(
    status: u8,
    from: OrderStatus,
    first: OrderStatus,
    second: OrderStatus,
)
    requires
        first != from,
    ensures
        status == from.code() ==> claimed(status, from, first) != from.code(),
        status == from.code() ==> claimed(claimed(status, from, first), from, second)
            == first.code(),
        status != from.code() ==> claimed(status, from, first) == status,
{
}

/// A state in which an order has been processed is final: none of the moves
/// of the state machine leads out of it.
pub proof fn law_terminal_states_are_final(status: OrderStatus)
    requires
        status.spec_is_terminal(),
    ensures
        claimed(status.code(), OrderStatus::Pending, OrderStatus::Addressed) == status.code(),
        claimed(status.code(), OrderStatus::Pending, OrderStatus::Unaddressed) == status.code(),
        claimed(status.code(), OrderStatus::Unaddressed, OrderStatus::FinallyHandled)
            == status.code(),
{
}

/// The number in the two bytes at a place, lowest byte first.
pub open spec fn u16_at(p: Seq<u8>, at: int) -> int {
    p[at] + 0x100 * p[at + 1]
}

proof fn lemma_two_bytes(p: Seq<u8>, at: int, v: nat)
    requires
        0 <= at <= p.len() - 2,
        v < 0x1_0000,
        p.subrange(at, at + 2) == le::le_bytes(v, 2),
    ensures
        u16_at(p, at) == v,
{
    let a = p.subrange(at, at + 2);
    le::lemma_le_limits();
    le::law_le_roundtrip(v, 2);
    reveal_with_fuel(le::le_value, 3);
    assert(a.drop_first().drop_first().len() == 0);
}

proof fn lemma_four_bytes(p: Seq<u8>, at: int, v: nat)
    requires
        0 <= at <= p.len() - 4,
        v < 0x1_0000_0000,
        p.subrange(at, at + 4) == le::le_bytes(v, 4),
    ensures
        le::u32_at(p, at) == v,
{
    le::lemma_le_limits();
    le::law_le_roundtrip(v, 4);
    le::law_lowest_byte_first(p, at);
}

/// The serialised form begins with the kind of the command, in four bytes. The
/// values follow in the order of the fields: eight bytes for an id, a price or
/// a quantity, two for a symbol, four for a side, an order type or a time in
/// force.
#[verifier::rlimit(60)]
pub proof fn law_command_layout(cmd: InboundCommand)
    ensures
        ({
            let b = command_bytes(cmd);
            match cmd {
                InboundCommand::NewOrder {
                    account,
                    client_order_id,
                    symbol,
                    side,
                    price,
                    qty,
                    order_type,
                    time_in_force,
                } => {
                    &&& b.len() == 50
                    &&& le::u32_at(b, 0) == 0
                    &&& le::u64_at(b, 4) == account.0
                    &&& le::u64_at(b, 12) == client_order_id.0
                    &&& u16_at(b, 20) == symbol.0
                    &&& le::u32_at(b, 22) == if side == Side::Buy {
                        0int
                    } else {
                        1
                    }
                    &&& le::u64_at(b, 26) == if price.0 >= 0 {
                        price.0 as int
                    } else {
                        price.0 + 0x1_0000_0000_0000_0000
                    }
                    &&& le::u64_at(b, 34) == qty.0
                    &&& le::u32_at(b, 42) == if order_type == OrderType::Limit {
                        0int
                    } else {
                        1
                    }
                    &&& le::u32_at(b, 46) == if time_in_force == TimeInForce::Gtc {
                        0int
                    } else if time_in_force == TimeInForce::Ioc {
                        1
                    } else {
                        2
                    }
                },
                InboundCommand::Cancel { account, order_id } => {
                    &&& b.len() == 20
                    &&& le::u32_at(b, 0) == 1
                    &&& le::u64_at(b, 4) == account.0
                    &&& le::u64_at(b, 12) == order_id.0
                },
                InboundCommand::Liquidate { symbol, account } => {
                    &&& b.len() == 14
                    &&& le::u32_at(b, 0) == 2
                    &&& u16_at(b, 4) == symbol.0
                    &&& le::u64_at(b, 6) == account.0
                },
                InboundCommand::FreezeAccount { account } => {
                    &&& b.len() == 12
                    &&& le::u32_at(b, 0) == 3
                    &&& le::u64_at(b, 4) == account.0
                },
            }
        }),
{
    broadcast use le::lemma_le_len_auto;

    let b = command_bytes(cmd);
    match cmd {
        InboundCommand::NewOrder {
            account,
            client_order_id,
            symbol,
            side,
            price,
            qty,
            order_type,
            time_in_force,
        } => {
            let x = price.0;
            assert(x >= 0 ==> x as u64 == x) by (bit_vector);
            assert(x < 0 ==> x as u64 == x + 0x1_0000_0000_0000_0000) by (bit_vector);
            assert(b.subrange(0, 4) =~= le::le_bytes(0, 4));
            assert(b.subrange(4, 12) =~= le::le_bytes(account.0 as nat, 8));
            assert(b.subrange(12, 20) =~= le::le_bytes(client_order_id.0 as nat, 8));
            assert(b.subrange(20, 22) =~= le::le_bytes(symbol.0 as nat, 2));
            assert(b.subrange(22, 26) =~= le::le_bytes(side_tag(side), 4));
            assert(b.subrange(26, 34) =~= le::le_bytes((x as u64) as nat, 8));
            assert(b.subrange(34, 42) =~= le::le_bytes(qty.0 as nat, 8));
            assert(b.subrange(42, 46) =~= le::le_bytes(order_type_tag(order_type), 4));
            assert(b.subrange(46, 50) =~= le::le_bytes(time_in_force_tag(time_in_force), 4));
            lemma_four_bytes(b, 0, 0);
            le::lemma_written(b, 4, account.0 as nat);
            le::lemma_written(b, 12, client_order_id.0 as nat);
            lemma_two_bytes(b, 20, symbol.0 as nat);
            lemma_four_bytes(b, 22, side_tag(side));
            le::lemma_written(b, 26, (x as u64) as nat);
            le::lemma_written(b, 34, qty.0 as nat);
            lemma_four_bytes(b, 42, order_type_tag(order_type));
            lemma_four_bytes(b, 46, time_in_force_tag(time_in_force));
        },
        InboundCommand::Cancel { account, order_id } => {
            assert(b.subrange(0, 4) =~= le::le_bytes(1, 4));
            assert(b.subrange(4, 12) =~= le::le_bytes(account.0 as nat, 8));
            assert(b.subrange(12, 20) =~= le::le_bytes(order_id.0 as nat, 8));
            lemma_four_bytes(b, 0, 1);
            le::lemma_written(b, 4, account.0 as nat);
            le::lemma_written(b, 12, order_id.0 as nat);
        },
        InboundCommand::Liquidate { symbol, account } => {
            assert(b.subrange(0, 4) =~= le::le_bytes(2, 4));
            assert(b.subrange(4, 6) =~= le::le_bytes(symbol.0 as nat, 2));
            assert(b.subrange(6, 14) =~= le::le_bytes(account.0 as nat, 8));
            lemma_four_bytes(b, 0, 2);
            lemma_two_bytes(b, 4, symbol.0 as nat);
            le::lemma_written(b, 6, account.0 as nat);
        },
        InboundCommand::FreezeAccount { account } => {
            assert(b.subrange(0, 4) =~= le::le_bytes(3, 4));
            assert(b.subrange(4, 12) =~= le::le_bytes(account.0 as nat, 8));
            lemma_four_bytes(b, 0, 3);
            le::lemma_written(b, 4, account.0 as nat);
        },
    }
}

/// An entry is intact if it holds the check of its command's bytes.
pub proof fn law_intact_entries_hold_the_check(entry: LogEntry)
    ensures
        entry.intact() <==> entry.checksum == crc32::spec_crc32(command_bytes(entry.cmd)),
        spec_checksum(entry.cmd) == crc32::spec_crc32(command_bytes(entry.cmd)),
{
}

/// A status is read as the one whose byte is stored, and as pending where the
/// byte stands for none. A claim moves an order that is where it is expected
/// to be, and no other.
pub proof fn law_status_is_read_back(entry: LogEntry, from: OrderStatus, to: OrderStatus)
    ensures
        entry.status <= 3 ==> entry.spec_status().code() == entry.status,
        entry.status > 3 ==> entry.spec_status() == OrderStatus::Pending,
        ({
            let later = LogEntry { status: claimed(entry.status, from, to), ..entry };
            &&& entry.status == from.code() ==> later.spec_status() == to
            &&& entry.status != from.code() ==> later == entry
        }),
{
}

} // verus!

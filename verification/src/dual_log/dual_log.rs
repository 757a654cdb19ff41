//! Writing every command to two logs before anything is done with it.
//!
//! The writing itself is done elsewhere. Here it is decided what is written
//! and what follows: a command counts only if both logs have it, so there is
//! never a partial state.

use crate::core_types::commands::{InboundCommand, SequencedCommand};
use crate::core_types::log_entry;
use crate::core_types::log_entry::LogEntry;
use crate::core_types::order_status::OrderStatus;
use crate::dual_log::pending_ring::PendingRing;
use vstd::prelude::*;

verus! {

/// Why a command was not taken in.
#[derive(Debug, Clone, Copy, PartialEq, Eq)]
pub enum DualLogError<E> {
    /// The primary log failed.
    LogAFailed(E),
    /// The second log failed.
    LogBFailed(E),
    /// Both failed.
    BothFailed { a: E, b: E },
}

/// One of the two logs.
#[derive(Debug, Clone, Copy, PartialEq, Eq, Structural)]
pub enum WhichLog {
    /// The primary log.
    LogA,
    /// The second log.
    LogB,
}

/// The outcome of a write, from what the two logs said.
pub open spec fn outcome<E>(entry: LogEntry, res_a: Result<(), E>, res_b: Result<(), E>) -> Result<
    LogEntry,
    DualLogError<E>,
> {
    match (res_a, res_b) {
        (Ok(_), Ok(_)) => Ok(entry),
        (Err(a), Err(b)) => Err(DualLogError::BothFailed { a, b }),
        (Err(a), Ok(_)) => Err(DualLogError::LogAFailed(a)),
        (Ok(_), Err(b)) => Err(DualLogError::LogBFailed(b)),
    }
}

impl<E> DualLogError<E> {
    /// The log that has to take a command back, as a model function.
    pub open spec fn spec_undo(self) -> Option<WhichLog> {
        match self {
            DualLogError::LogAFailed(_) => Some(WhichLog::LogB),
            DualLogError::LogBFailed(_) => Some(WhichLog::LogA),
            DualLogError::BothFailed { .. } => None,
        }
    }

    /// The log that took a command which the other refused, and so has to
    /// take it back.
    pub fn undo(&self) -> (r: Option<WhichLog>)
        ensures
            r == self.spec_undo(),
            r == match *self {
                DualLogError::LogAFailed(_) => Some(WhichLog::LogB),
                DualLogError::LogBFailed(_) => Some(WhichLog::LogA),
                DualLogError::BothFailed { .. } => None,
            },
    {
        match self {
            DualLogError::LogAFailed(_) => Some(WhichLog::LogB),
            DualLogError::LogBFailed(_) => Some(WhichLog::LogA),
            DualLogError::BothFailed { .. } => None,
        }
    }
}

/// The numbers that the two logs have reached.
#[derive(Debug, Clone, Copy, PartialEq, Eq, Structural)]
pub struct DualLog {
    /// Last sequence number given out.
    pub seq_counter: u64,
    /// Last sequence number in the primary log.
    pub last_seq_a: u64,
    /// Last sequence number in the second log.
    pub last_seq_b: u64,
}

impl DualLog {
    /// The numbers where the logs have ended with these: the higher one is the
    /// last that was given out.
    pub open spec fn opened(last_seq_a: u64, last_seq_b: u64) -> DualLog {
        DualLog {
            seq_counter: if last_seq_a >= last_seq_b {
                last_seq_a
            } else {
                last_seq_b
            },
            last_seq_a,
            last_seq_b,
        }
    }

    /// The numbers once the next one was given out.
    pub open spec fn begun(self) -> DualLog {
        DualLog { seq_counter: (self.seq_counter + 1) as u64, ..self }
    }

    /// The numbers once a write has ended: both logs have it, or neither
    /// counts.
    pub open spec fn ended(self, seq: u64, a_ok: bool, b_ok: bool) -> DualLog {
        if a_ok && b_ok {
            DualLog { last_seq_a: seq, last_seq_b: seq, ..self }
        } else {
            self
        }
    }

    /// Goes on where the two logs have ended.
    pub fn open(last_seq_a: u64, last_seq_b: u64) -> (log: DualLog)
        ensures
            log == DualLog::opened(last_seq_a, last_seq_b),
            log.last_seq_a == last_seq_a,
            log.last_seq_b == last_seq_b,
            log.seq_counter == if last_seq_a >= last_seq_b {
                last_seq_a
            } else {
                last_seq_b
            },
    {
        let seq_counter: u64 = if last_seq_a >= last_seq_b {
            last_seq_a
        } else {
            last_seq_b
        };
        DualLog { seq_counter, last_seq_a, last_seq_b }
    }

    /// Gives a command the next sequence number. The result is the entry to
    /// keep and the record to append to both logs.
    pub fn begin_write(&mut self, cmd: InboundCommand, ts_ns: u64) -> (r: (
        LogEntry,
        SequencedCommand,
    ))
        requires
            old(self).seq_counter < u64::MAX,
        ensures
            *final(self) == old(self).begun(),
            *final(self) == (DualLog {
                seq_counter: (old(self).seq_counter + 1) as u64,
                ..*old(self)
            }),
            r.1 == (SequencedCommand { seq: final(self).seq_counter, ts_ns, cmd }),
            r.0 == (LogEntry {
                seq: final(self).seq_counter,
                timestamp_in: ts_ns,
                cmd,
                checksum: log_entry::spec_checksum(cmd),
                status: OrderStatus::Pending.code(),
                handled_by: 0,
                timestamp_out: 0,
                fill_price: 0,
                filled_qty: 0,
            }),
    {
        self.seq_counter = self.seq_counter + 1;
        let seq: u64 = self.seq_counter;
        let entry = LogEntry::new(seq, ts_ns, cmd);
        (entry, SequencedCommand { seq, ts_ns, cmd })
    }

    /// Ends a write with what the two logs said. Only if both have the
    /// command is it put among the orders in flight. Otherwise it is
    /// rejected, and `undo` of the error names the log that has to take it
    /// back.
    pub fn finish_write<E>(
        &mut self,
        entry: LogEntry,
        res_a: Result<(), E>,
        res_b: Result<(), E>,
        pending_ring: &mut PendingRing,
    ) -> (r: Result<LogEntry, DualLogError<E>>)
        requires
            old(pending_ring).wf(),
            old(pending_ring)@.len() < usize::MAX,
        ensures
            final(pending_ring).wf(),
            *final(self) == old(self).ended(entry.seq, res_a is Ok, res_b is Ok),
            *final(self) == if res_a is Ok && res_b is Ok {
                DualLog { last_seq_a: entry.seq, last_seq_b: entry.seq, ..*old(self) }
            } else {
                *old(self)
            },
            final(pending_ring)@ == if res_a is Ok && res_b is Ok {
                old(pending_ring)@.insert(entry.seq, entry)
            } else {
                old(pending_ring)@
            },
            r == outcome(entry, res_a, res_b),
            r == match (res_a, res_b) {
                (Ok(_), Ok(_)) => Ok::<LogEntry, DualLogError<E>>(entry),
                (Err(a), Err(b)) => Err(DualLogError::BothFailed { a, b }),
                (Err(a), Ok(_)) => Err(DualLogError::LogAFailed(a)),
                (Ok(_), Err(b)) => Err(DualLogError::LogBFailed(b)),
            },
    {
        match (res_a, res_b) {
            (Ok(_), Ok(_)) => {
                self.last_seq_a = entry.seq;
                self.last_seq_b = entry.seq;
                pending_ring.push(entry);
                Ok(entry)
            },
            (Err(a), Err(b)) => Err(DualLogError::BothFailed { a, b }),
            (Err(a), Ok(_)) => Err(DualLogError::LogAFailed(a)),
            (Ok(_), Err(b)) => Err(DualLogError::LogBFailed(b)),
        }
    }

    /// The last sequence number given out.
    pub fn current_seq(&self) -> (seq: u64)
        ensures
            seq == self.seq_counter,
    {
        self.seq_counter
    }

    /// The last sequence number in each log.
    pub fn last_seqs(&self) -> (r: (u64, u64))
        ensures
            r == (self.last_seq_a, self.last_seq_b),
    {
        (self.last_seq_a, self.last_seq_b)
    }
}

/// There is never a partial state: logs that are in step stay in step, whatever
/// the two said of a write. Both move on to the number of the write if both
/// have it; otherwise neither moves, and the number is not given out again.
pub proof fn law_logs_stay_in_step(log: DualLog, a_ok: bool, b_ok: bool)
    requires
        log.last_seq_a == log.last_seq_b,
        log.last_seq_a <= log.seq_counter < u64::MAX,
    ensures
        ({
            let seq = log.begun().seq_counter;
            let later = log.begun().ended(seq, a_ok, b_ok);
            &&& seq == log.seq_counter + 1
            &&& later.seq_counter == seq
            &&& later.last_seq_a == later.last_seq_b
            &&& a_ok && b_ok ==> later.last_seq_a == seq
            &&& !(a_ok && b_ok) ==> later.last_seq_a == log.last_seq_a
        }),
{
}

/// Numbers go on behind the longer log, so that none in either log is given
/// out again.
pub proof fn law_numbers_go_on(last_seq_a: u64, last_seq_b: u64)
    ensures
        ({
            let log = DualLog::opened(last_seq_a, last_seq_b);
            &&& log.last_seq_a == last_seq_a
            &&& log.last_seq_b == last_seq_b
            &&& log.seq_counter >= last_seq_a
            &&& log.seq_counter >= last_seq_b
            &&& log.seq_counter == last_seq_a || log.seq_counter == last_seq_b
        }),
{
}

/// A command is taken in if and only if both logs have it. If just one of them
/// has it, that one has to take it back, and the error is that of the other.
pub proof fn law_what_has_to_be_undone<E>(
    entry: LogEntry,
    res_a: Result<(), E>,
    res_b: Result<(), E>,
)
    ensures
        match outcome(entry, res_a, res_b) {
            Ok(e) => res_a is Ok && res_b is Ok && e == entry,
            Err(e) => {
                &&& res_a is Err || res_b is Err
                &&& e.spec_undo() == Some(WhichLog::LogA) <==> res_a is Ok
                &&& e.spec_undo() == Some(WhichLog::LogB) <==> res_b is Ok
                &&& e.spec_undo() is None <==> res_a is Err && res_b is Err
                &&& e matches DualLogError::LogAFailed(x) ==> res_a == Err::<(), E>(x)
                &&& e matches DualLogError::LogBFailed(x) ==> res_b == Err::<(), E>(x)
                &&& e matches DualLogError::BothFailed { a, b } ==> res_a == Err::<(), E>(a)
                    && res_b == Err::<(), E>(b)
            },
        },
{
}

} // verus!

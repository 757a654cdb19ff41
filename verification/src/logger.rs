//! What is logged and how.
//!
//! A record is made where something happens, with the message in a buffer of
//! fixed size, and written out elsewhere. A message that does not fit is cut.

use crate::core_types::text;
use vstd::prelude::*;

verus! {

/// How much a message matters.
#[derive(Clone, Copy, Debug, PartialEq, Eq, PartialOrd, Ord, Structural)]
pub enum Level {
    Trace,
    Debug,
    Info,
    Warn,
    Error,
}

impl Level {
    /// Levels in order, the least important first.
    pub open spec fn spec_rank(self) -> nat {
        match self {
            Level::Trace => 0,
            Level::Debug => 1,
            Level::Info => 2,
            Level::Warn => 3,
            Level::Error => 4,
        }
    }

    pub fn rank(self) -> (r: u8)
        ensures
            r == self.spec_rank(),
    {
        match self {
            Level::Trace => 0,
            Level::Debug => 1,
            Level::Info => 2,
            Level::Warn => 3,
            Level::Error => 4,
        }
    }

    pub open spec fn spec_label(self) -> Seq<char> {
        match self {
            Level::Trace => "TRACE"@,
            Level::Debug => "DEBUG"@,
            Level::Info => "INFO"@,
            Level::Warn => "WARN"@,
            Level::Error => "ERROR"@,
        }
    }

    /// The name of the level.
    pub fn label(self) -> (s: &'static str)
        ensures
            s@ == self.spec_label(),
    {
        match self {
            Level::Trace => "TRACE",
            Level::Debug => "DEBUG",
            Level::Info => "INFO",
            Level::Warn => "WARN",
            Level::Error => "ERROR",
        }
    }
}

/// Number of bytes that a message can have.
pub const MESSAGE_CAPACITY: usize = 256;

/// The bytes of a message that fit into a record.
pub open spec fn fitting(bytes: Seq<u8>) -> Seq<u8> {
    if bytes.len() <= MESSAGE_CAPACITY {
        bytes
    } else {
        bytes.take(MESSAGE_CAPACITY as int)
    }
}

/// Writing a message piece by piece cuts it where writing it at once would.
pub proof fn law_pieces_are_cut_like_the_whole(a: Seq<u8>, b: Seq<u8>)
    ensures
        fitting(fitting(a) + b) == fitting(a + b),
        fitting(a).len() <= MESSAGE_CAPACITY,
{
    assert(fitting(fitting(a) + b) =~= fitting(a + b));
}

/// A message that fits is read as it was written.
pub proof fn law_short_messages_survive(message: Seq<char>)
    requires
        vstd::utf8::encode_utf8(message).len() <= MESSAGE_CAPACITY,
    ensures
        vstd::utf8::valid_utf8(fitting(vstd::utf8::encode_utf8(message))),
        vstd::utf8::decode_utf8(fitting(vstd::utf8::encode_utf8(message))) == message,
{
    vstd::utf8::encode_utf8_valid_utf8(message);
    vstd::utf8::encode_utf8_decode_utf8(message);
}

/// A buffer that a message is written into.
pub struct SliceWriter {
    pub buf: [u8; 256],
    pub pos: usize,
}

impl SliceWriter {
    pub open spec fn wf(self) -> bool {
        self.pos <= MESSAGE_CAPACITY
    }

    /// The bytes written so far.
    pub open spec fn view(self) -> Seq<u8> {
        self.buf@.take(self.pos as int)
    }

    /// A buffer that nothing is written into: all of its bytes are zero.
    pub fn new() -> (w: SliceWriter)
        ensures
            w.wf(),
            w@ == Seq::<u8>::empty(),
            w.pos == 0,
            w.buf@ == Seq::new(MESSAGE_CAPACITY as nat, |i: int| 0u8),
    {
        let w = SliceWriter { buf: [0u8; 256], pos: 0 };
        assert(w@ =~= Seq::<u8>::empty());
        assert(w.buf@ =~= Seq::new(MESSAGE_CAPACITY as nat, |i: int| 0u8));
        w
    }

    /// Appends what fits.
    pub fn write_str(&mut self, s: &str)
        requires
            old(self).wf(),
        ensures
            final(self).wf(),
            final(self)@ == fitting(old(self)@ + vstd::utf8::encode_utf8(s@)),
    {
        let bytes = s.as_bytes();
        let ghost all = old(self)@ + bytes@;
        let mut i: usize = 0;
        while i < bytes.len() && self.pos < MESSAGE_CAPACITY
            invariant
                i <= bytes@.len(),
                self.wf(),
                self.buf@.len() == MESSAGE_CAPACITY,
                self.pos == old(self).pos + i,
                all == old(self)@ + bytes@,
                self@ == all.take(self.pos as int),
            decreases bytes@.len() - i,
        {
            let ghost before = self@;
            self.buf[self.pos] = bytes[i];
            self.pos = self.pos + 1;
            assert(self@ =~= before.push(bytes@[i as int]));
            assert(all.take(self.pos as int) =~= before.push(bytes@[i as int]));
            i += 1;
        }
        assert(self@ =~= fitting(all));
    }
}

/// Calls `std::str::from_utf8`, which gives the text of bytes that are valid
/// UTF-8, and an error for others.
#[verifier::external_body]
fn text_of(bytes: &[u8]) -> (r: Option<&str>)
    ensures
        r is Some <==> vstd::utf8::valid_utf8(bytes@),
        r matches Some(s) ==> s@ == vstd::utf8::decode_utf8(bytes@),
{
    std::str::from_utf8(bytes).ok()
}

/// One message to be written out.
#[derive(Clone, Copy)]
pub struct LogRecord {
    pub level: Level,
    pub ts_ns: u64,
    pub len: u16,
    pub buf: [u8; 256],
}

impl LogRecord {
    pub open spec fn wf(self) -> bool {
        self.len <= MESSAGE_CAPACITY
    }

    /// The bytes of the message.
    pub open spec fn bytes(self) -> Seq<u8> {
        self.buf@.take(self.len as int)
    }

    /// The text of the message. Cutting may have left bytes that are no text.
    pub open spec fn text(self) -> Seq<char> {
        if vstd::utf8::valid_utf8(self.bytes()) {
            vstd::utf8::decode_utf8(self.bytes())
        } else {
            "<invalid utf8>"@
        }
    }

    /// The text of the message.
    pub fn as_str(&self) -> (s: &str)
        requires
            self.wf(),
        ensures
            s@ == self.text(),
    {
        let bytes = vstd::slice::slice_subrange(self.buf.as_slice(), 0, self.len as usize);
        assert(bytes@ =~= self.bytes());
        match text_of(bytes) {
            Some(s) => s,
            None => "<invalid utf8>",
        }
    }

    /// The line that is written out: time, level and message.
    pub fn line(&self) -> (out: String)
        requires
            self.wf(),
        ensures
            out@ == text::decimal(self.ts_ns as nat) + " "@ + self.level.spec_label() + " "@
                + self.text() + "\n"@,
    {
        let mut out = String::new();
        let s = self.as_str();
        text::push_decimal(&mut out, self.ts_ns);
        out.append(" ");
        out.append(self.level.label());
        out.append(" ");
        out.append(s);
        out.append("\n");
        proof {
            assert(out@ =~= text::decimal(self.ts_ns as nat) + " "@ + self.level.spec_label()
                + " "@ + s@ + "\n"@);
        }
        out
    }
}

/// The line that is written at the end if records were dropped.
pub fn dropped_line(dropped: u64) -> (out: Option<String>)
    ensures
        match out {
            Some(line) => dropped > 0 && line@ == "<"@ + text::decimal(dropped as nat)
                + " records dropped>\n"@,
            None => dropped == 0,
        },
{
    if dropped == 0 {
        return None;
    }
    let mut line = String::new();
    line.append("<");
    text::push_decimal(&mut line, dropped);
    line.append(" records dropped>\n");
    assert(line@ =~= "<"@ + text::decimal(dropped as nat) + " records dropped>\n"@);
    Some(line)
}

/// What is worth logging.
#[derive(Clone, Copy, Debug, PartialEq, Eq, Structural)]
pub struct Logger {
    pub min_level: Level,
}

impl Logger {
    pub fn new(min_level: Level) -> (l: Logger)
        ensures
            l.min_level == min_level,
    {
        Logger { min_level }
    }

    /// Whether messages of the level are logged.
    pub fn enabled(&self, level: Level) -> (b: bool)
        ensures
            b == (level.spec_rank() >= self.min_level.spec_rank()),
    {
        level.rank() >= self.min_level.rank()
    }

    /// The record of a message, `None` if its level is not logged.
    pub fn record(&self, level: Level, ts_ns: u64, message: &SliceWriter) -> (r: Option<LogRecord>)
        requires
            message.wf(),
        ensures
            r is Some <==> level.spec_rank() >= self.min_level.spec_rank(),
            r matches Some(rec) ==> rec.wf() && rec.level == level && rec.ts_ns == ts_ns
                && rec.bytes() == message@,
    {
        if !self.enabled(level) {
            return None;
        }
        Some(LogRecord { level, ts_ns, len: message.pos as u16, buf: message.buf })
    }
}

/// The levels go from traces over debugging, information and warnings to
/// errors, and are called so in the log.
pub proof fn law_levels_in_order(a: Level)
    ensures
        Level::Trace.spec_rank() < Level::Debug.spec_rank() < Level::Info.spec_rank()
            < Level::Warn.spec_rank() < Level::Error.spec_rank(),
        Level::Error.spec_rank() == 4,
        a.spec_label().len() == if a is Info || a is Warn {
            4int
        } else {
            5
        },
        a.spec_label()[0] == match a {
            Level::Trace => 'T',
            Level::Debug => 'D',
            Level::Info => 'I',
            Level::Warn => 'W',
            Level::Error => 'E',
        },
{
    reveal_strlit("TRACE");
    reveal_strlit("DEBUG");
    reveal_strlit("INFO");
    reveal_strlit("WARN");
    reveal_strlit("ERROR");
}

/// A message of up to 256 bytes is kept as it is. Of a longer one the first
/// 256 bytes are.
pub proof fn law_message_is_cut_at_its_end(bytes: Seq<u8>)
    ensures
        fitting(bytes).len() == if bytes.len() <= 256 {
            bytes.len() as int
        } else {
            256
        },
        forall|i: int|
            0 <= i < bytes.len() && i < 256 ==> #[trigger] fitting(bytes)[i] == bytes[i],
{
}

/// A record is read as the text that its bytes are; bytes that are none are
/// called invalid.
pub proof fn law_record_is_read_as_text(rec: LogRecord, message: Seq<char>)
    requires
        rec.wf(),
    ensures
        rec.bytes() == vstd::utf8::encode_utf8(message) ==> rec.text() == message,
        !vstd::utf8::valid_utf8(rec.bytes()) ==> rec.text() == "<invalid utf8>"@,
{
    vstd::utf8::encode_utf8_valid_utf8(message);
    vstd::utf8::encode_utf8_decode_utf8(message);
}

} // verus!

//! Little-endian integers as sequences of bytes.

use vstd::prelude::*;

verus! {

/// The `n` bytes of `v`, lowest first.
pub open spec fn le_bytes(v: nat, n: nat) -> Seq<u8>
    decreases n,
{
    if n == 0 {
        Seq::empty()
    } else {
        seq![(v % 256) as u8] + le_bytes(v / 256, (n - 1) as nat)
    }
}

/// The number whose bytes these are, lowest first.
pub open spec fn le_value(bytes: Seq<u8>) -> nat
    decreases bytes.len(),
{
    if bytes.len() == 0 {
        0
    } else {
        bytes[0] as nat + 256 * le_value(bytes.drop_first())
    }
}

/// The numbers that fit into `n` bytes are those below this one.
pub open spec fn le_limit(n: nat) -> nat
    decreases n,
{
    if n == 0 {
        1
    } else {
        256 * le_limit((n - 1) as nat)
    }
}

/// Reading the bytes of a number gives the number back.
pub proof fn law_le_roundtrip(v: nat, n: nat)
    requires
        v < le_limit(n),
    ensures
        le_bytes(v, n).len() == n,
        le_value(le_bytes(v, n)) == v,
    decreases n,
{
    if n > 0 {
        law_le_roundtrip(v / 256, (n - 1) as nat);
        assert(le_bytes(v, n).drop_first() =~= le_bytes(v / 256, (n - 1) as nat));
    }
}

/// Writing the number of some bytes gives the bytes back.
pub proof fn law_le_bytes_roundtrip(bytes: Seq<u8>)
    ensures
        le_value(bytes) < le_limit(bytes.len()),
        le_bytes(le_value(bytes), bytes.len()) == bytes,
    decreases bytes.len(),
{
    if bytes.len() > 0 {
        let rest = bytes.drop_first();
        law_le_bytes_roundtrip(rest);
        let v = le_value(bytes);
        assert(v % 256 == bytes[0] && v / 256 == le_value(rest)) by (nonlinear_arith)
            requires
                v == bytes[0] + 256 * le_value(rest),
                0 <= bytes[0] < 256,
        ;
        assert(le_bytes(v, bytes.len()) =~= bytes) by {
            assert(bytes =~= seq![bytes[0]] + rest);
        }
    }
}

/// The number of bytes that are written is the number asked for.
pub proof fn lemma_le_len(v: nat, n: nat)
    ensures
        le_bytes(v, n).len() == n,
    decreases n,
{
    if n > 0 {
        lemma_le_len(v / 256, (n - 1) as nat);
    }
}

/// The same fact, for use wherever bytes are written.
pub broadcast proof fn lemma_le_len_auto(v: nat, n: nat)
    ensures
        (#[trigger] le_bytes(v, n)).len() == n,
{
    lemma_le_len(v, n);
}

/// The limits of the machine integers.
pub proof fn lemma_le_limits()
    ensures
        le_limit(1) == 0x100,
        le_limit(2) == 0x1_0000,
        le_limit(4) == 0x1_0000_0000,
        le_limit(8) == 0x1_0000_0000_0000_0000,
{
    reveal_with_fuel(le_limit, 9);
}

/// More bytes hold larger numbers.
pub proof fn lemma_limit_monotone(a: nat, b: nat)
    requires
        a <= b,
    ensures
        0 < le_limit(a) <= le_limit(b),
    decreases b,
{
    if a < b {
        lemma_limit_monotone(a, (b - 1) as nat);
    } else if a > 0 {
        lemma_limit_monotone((a - 1) as nat, (a - 1) as nat);
    }
}

/// Appends the `n` lowest bytes of `v`.
pub fn push_le(out: &mut Vec<u8>, v: u64, n: usize)
    ensures
        final(out)@ == old(out)@ + le_bytes(v as nat, n as nat),
{
    let mut rest: u64 = v;
    let mut i: usize = 0;
    assert(old(out)@ + le_bytes(v as nat, n as nat) =~= out@ + le_bytes(rest as nat, n as nat));
    while i < n
        invariant
            i <= n,
            old(out)@ + le_bytes(v as nat, n as nat) == out@ + le_bytes(
                rest as nat,
                (n - i) as nat,
            ),
        decreases n - i,
    {
        let ghost before = out@;
        let ghost here = rest as nat;
        out.push((rest % 256) as u8);
        rest = rest / 256;
        i += 1;
        assert(before + le_bytes(here, (n - i + 1) as nat) =~= out@ + le_bytes(
            rest as nat,
            (n - i) as nat,
        ));
    }
    assert(out@ + le_bytes(rest as nat, 0) =~= out@);
}

/// The number in the four bytes at a place, lowest byte first.
pub open spec fn u32_at(p: Seq<u8>, at: int) -> int {
    p[at] + 0x100 * p[at + 1] + 0x1_0000 * p[at + 2] + 0x100_0000 * p[at + 3]
}

/// The number in the eight bytes at a place, lowest byte first.
pub open spec fn u64_at(p: Seq<u8>, at: int) -> int {
    u32_at(p, at) + 0x1_0000_0000 * u32_at(p, at + 4)
}

/// The lowest byte comes first, and each byte weighs 256 times as much as the
/// one before it.
pub proof fn law_lowest_byte_first(p: Seq<u8>, at: int)
    ensures
        0 <= at <= p.len() - 4 ==> le_value(p.subrange(at, at + 4)) == u32_at(p, at),
        0 <= at <= p.len() - 8 ==> le_value(p.subrange(at, at + 8)) == u64_at(p, at),
{
    reveal_with_fuel(le_value, 9);
    if 0 <= at <= p.len() - 4 {
        let a = p.subrange(at, at + 4);
        assert(a.drop_first().drop_first().drop_first().drop_first().len() == 0);
    }
    if 0 <= at <= p.len() - 8 {
        let a = p.subrange(at, at + 8);
        let b = a.drop_first().drop_first().drop_first().drop_first();
        assert(b.drop_first().drop_first().drop_first().drop_first().len() == 0);
        assert(le_value(b) == u32_at(p, at + 4));
    }
}

/// What was written with eight bytes stands there.
pub proof fn lemma_written(p: Seq<u8>, at: int, v: nat)
    requires
        0 <= at <= p.len() - 8,
        v < 0x1_0000_0000_0000_0000,
        p.subrange(at, at + 8) == le_bytes(v, 8),
    ensures
        u64_at(p, at) == v,
{
    lemma_le_limits();
    law_le_roundtrip(v, 8);
    law_lowest_byte_first(p, at);
}

} // verus!

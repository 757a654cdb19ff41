//! The 32-bit cyclic redundancy check of zip files and Ethernet frames.

use crate::core_types::le;
use vstd::prelude::*;

verus! {

/// The check's polynomial, lowest power in the highest bit.
pub const POLYNOMIAL: u32 = 0xEDB8_8320;

/// The register after one bit: shifted, and reduced by the polynomial if a one
/// was shifted out.
pub open spec fn bit_step(register: u32) -> u32 {
    if register & 1u32 == 1u32 {
        (register >> 1u32) ^ POLYNOMIAL
    } else {
        register >> 1u32
    }
}

/// The register after `n` bits.
pub open spec fn bit_steps(register: u32, n: nat) -> u32
    decreases n,
{
    if n == 0 {
        register
    } else {
        bit_step(bit_steps(register, (n - 1) as nat))
    }
}

/// The register after a byte.
pub open spec fn byte_step(register: u32, byte: u8) -> u32 {
    bit_steps(register ^ (byte as u32), 8)
}

/// The register after some bytes. It starts with all ones.
pub open spec fn register_after(bytes: Seq<u8>) -> u32
    decreases bytes.len(),
{
    if bytes.len() == 0 {
        0xFFFF_FFFF
    } else {
        byte_step(register_after(bytes.drop_last()), bytes.last())
    }
}

/// The check of some bytes: the register with all bits turned around.
pub open spec fn spec_crc32(bytes: Seq<u8>) -> u32 {
    register_after(bytes) ^ 0xFFFF_FFFF
}

/// The check of some bytes.
pub fn crc32(bytes: &[u8]) -> (r: u32)
    ensures
        r == spec_crc32(bytes@),
{
    let mut register: u32 = 0xFFFF_FFFF;
    let mut i: usize = 0;
    assert(bytes@.take(0) =~= Seq::<u8>::empty());
    while i < bytes.len()
        invariant
            i <= bytes@.len(),
            register == register_after(bytes@.take(i as int)),
        decreases bytes@.len() - i,
    {
        proof {
            let part = bytes@.take(i + 1);
            assert(part.drop_last() =~= bytes@.take(i as int));
            assert(part.last() == bytes@[i as int]);
        }
        let ghost before = register;
        register = register ^ (bytes[i] as u32);
        let mut n: u32 = 0;
        while n < 8
            invariant
                n <= 8,
                i < bytes@.len(),
                register == bit_steps(before ^ (bytes@[i as int] as u32), n as nat),
            decreases 8 - n,
        {
            register = if register & 1u32 == 1u32 {
                (register >> 1u32) ^ POLYNOMIAL
            } else {
                register >> 1u32
            };
            n += 1;
        }
        i += 1;
    }
    assert(bytes@.take(i as int) =~= bytes@);
    register ^ 0xFFFF_FFFF
}

/// Different registers stay different.
proof fn lemma_bits_injective(a: u32, b: u32, n: nat)
    requires
        bit_steps(a, n) == bit_steps(b, n),
    ensures
        a == b,
    decreases n,
{
    if n > 0 {
        let x = bit_steps(a, (n - 1) as nat);
        let y = bit_steps(b, (n - 1) as nat);
        assert((if x & 1u32 == 1u32 {
            (x >> 1u32) ^ 0xEDB8_8320u32
        } else {
            x >> 1u32
        }) == (if y & 1u32 == 1u32 {
            (y >> 1u32) ^ 0xEDB8_8320u32
        } else {
            y >> 1u32
        }) ==> x == y) by (bit_vector);
        lemma_bits_injective(a, b, (n - 1) as nat);
    }
}

/// Bytes that differ in one place leave different registers.
proof fn lemma_one_byte(a: Seq<u8>, b: Seq<u8>, i: int)
    requires
        a.len() == b.len(),
        0 <= i < a.len(),
        a[i] != b[i],
        forall|j: int| 0 <= j < a.len() && j != i ==> a[j] == b[j],
    ensures
        register_after(a) != register_after(b),
    decreases a.len(),
{
    let p = register_after(a.drop_last());
    let q = register_after(b.drop_last());
    let x = a.last();
    let y = b.last();
    if i == a.len() - 1 {
        assert(a.drop_last() =~= b.drop_last());
    } else {
        lemma_one_byte(a.drop_last(), b.drop_last(), i);
    }
    if register_after(a) == register_after(b) {
        lemma_bits_injective(p ^ (x as u32), q ^ (y as u32), 8);
        assert(p ^ (x as u32) == q ^ (y as u32) ==> (p == q <==> x == y)) by (bit_vector);
    }
}

/// A change of one byte changes the check, wherever the byte stands.
pub proof fn law_changed_byte_is_noticed(a: Seq<u8>, b: Seq<u8>, i: int)
    requires
        a.len() == b.len(),
        0 <= i < a.len(),
        a[i] != b[i],
        forall|j: int| 0 <= j < a.len() && j != i ==> a[j] == b[j],
    ensures
        spec_crc32(a) != spec_crc32(b),
{
    lemma_one_byte(a, b, i);
    let p = register_after(a);
    let q = register_after(b);
    assert(p ^ 0xFFFF_FFFFu32 == q ^ 0xFFFF_FFFFu32 ==> p == q) by (bit_vector);
}

/// The register after eight bits.
spec fn eight_steps(x: u32) -> u32 {
    bit_step(bit_step(bit_step(bit_step(bit_step(bit_step(bit_step(bit_step(x))))))))
}

/// What a register with a known lowest byte becomes when a byte has gone
/// through.
proof fn lemma_known_byte(x: u32)
    ensures
        x & 0xFF == 0xFF ==> bit_steps(x, 8) == (x >> 8) ^ 0x2D02_EF8D,
        x & 0xFF == 0x72 ==> bit_steps(x, 8) == (x >> 8) ^ 0xBE0B_1010,
        x & 0xFF == 0x00 ==> bit_steps(x, 8) == (x >> 8),
        x & 0xFF == 0xED ==> bit_steps(x, 8) == (x >> 8) ^ 0xDEBB_9EC5,
{
    reveal_with_fuel(bit_steps, 9);
    assert(bit_steps(x, 8) == eight_steps(x));
    assert({
        &&& x & 0xFF == 0xFF ==> eight_steps(x) == (x >> 8) ^ 0x2D02_EF8D
        &&& x & 0xFF == 0x72 ==> eight_steps(x) == (x >> 8) ^ 0xBE0B_1010
        &&& x & 0xFF == 0x00 ==> eight_steps(x) == (x >> 8)
        &&& x & 0xFF == 0xED ==> eight_steps(x) == (x >> 8) ^ 0xDEBB_9EC5
    }) by (bit_vector);
}

/// Bytes that are followed by their own check, lowest byte first, have one and
/// the same check whatever they are.
pub proof fn law_data_with_its_check(bytes: Seq<u8>, check: Seq<u8>)
    requires
        check.len() == 4,
        le::u32_at(check, 0) == spec_crc32(bytes),
    ensures
        spec_crc32(bytes + check) == 0x2144_DF1C,
{
    let (b0, b1, b2, b3) = (check[0], check[1], check[2], check[3]);
    let all = bytes + check;
    assert(all.drop_last().drop_last().drop_last().drop_last() =~= bytes);
    let r0 = register_after(bytes);
    let c = r0 ^ 0xFFFF_FFFF;
    assert(c & 0xFF == b0 && (c >> 8) & 0xFF == b1 && (c >> 16) & 0xFF == b2 && c >> 24 == b3)
        by (bit_vector)
        requires
            c == b0 + 0x100 * b1 + 0x1_0000 * b2 + 0x100_0000 * b3,
    ;
    let r1 = byte_step(r0, b0);
    let r2 = byte_step(r1, b1);
    let r3 = byte_step(r2, b2);
    let r4 = byte_step(r3, b3);
    reveal_with_fuel(register_after, 5);
    assert(register_after(all) == r4);
    let (x0, x1, x2, x3) = (r0 ^ b0 as u32, r1 ^ b1 as u32, r2 ^ b2 as u32, r3 ^ b3 as u32);
    lemma_known_byte(x0);
    lemma_known_byte(x1);
    lemma_known_byte(x2);
    lemma_known_byte(x3);
    assert(x0 & 0xFF == 0xFF && x0 >> 8 == r0 >> 8) by (bit_vector)
        requires
            c == r0 ^ 0xFFFF_FFFF,
            c & 0xFF == b0,
            x0 == r0 ^ b0 as u32,
    ;
    assert(x1 & 0xFF == 0x72 && x1 >> 8 == (r0 >> 16) ^ 0x002D_02EF) by (bit_vector)
        requires
            c == r0 ^ 0xFFFF_FFFF,
            (c >> 8) & 0xFF == b1,
            r1 == (r0 >> 8) ^ 0x2D02_EF8D,
            x1 == r1 ^ b1 as u32,
    ;
    assert(x2 & 0xFF == 0x00 && x2 >> 8 == (r0 >> 24) ^ 0x00BE_2612) by (bit_vector)
        requires
            c == r0 ^ 0xFFFF_FFFF,
            (c >> 16) & 0xFF == b2,
            r2 == ((r0 >> 16) ^ 0x002D_02EF) ^ 0xBE0B_1010,
            x2 == r2 ^ b2 as u32,
    ;
    assert(x3 & 0xFF == 0xED && x3 >> 8 == 0x0000_BE26) by (bit_vector)
        requires
            c == r0 ^ 0xFFFF_FFFF,
            c >> 24 == b3,
            r3 == (r0 >> 24) ^ 0x00BE_2612,
            x3 == r3 ^ b3 as u32,
    ;
    assert((0x0000_BE26u32 ^ 0xDEBB_9EC5u32) ^ 0xFFFF_FFFFu32 == 0x2144_DF1Cu32) by (bit_vector);
}

} // verus!

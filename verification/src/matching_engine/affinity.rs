//! Which processor core a thread runs on.

use vstd::prelude::*;

verus! {

/// A set of processor cores, one bit per core, up to 1024 of them.
#[derive(Debug, Clone, Copy)]
pub struct CpuSet {
    pub bits: [u64; 16],
}

impl CpuSet {
    /// The core is in the set.
    pub open spec fn contains(self, cpu: int) -> bool {
        0 <= cpu < 1024 && (self.bits@[cpu / 64] >> ((cpu % 64) as u64)) & 1u64 == 1u64
    }

    pub fn empty() -> (s: CpuSet)
        ensures
            forall|i: int| 0 <= i < 16 ==> #[trigger] s.bits@[i] == 0,
    {
        CpuSet { bits: [0u64; 16] }
    }

    /// Adds a core. One beyond the last bit is left out.
    pub fn cpu_set(&mut self, cpu: usize)
        ensures
            final(self).bits@ == if cpu < 1024 {
                old(self).bits@.update(
                    cpu as int / 64,
                    old(self).bits@[cpu as int / 64] | (1u64 << ((cpu % 64) as u64)),
                )
            } else {
                old(self).bits@
            },
    {
        let idx: usize = cpu / 64;
        let bit: u64 = (cpu % 64) as u64;
        if idx < 16 {
            self.bits[idx] = self.bits[idx] | (1u64 << bit);
        }
    }

    /// The set that pins a thread to one core.
    pub fn only(cpu: usize) -> (s: CpuSet)
        ensures
            forall|c: int| #[trigger] s.contains(c) <==> c == cpu && cpu < 1024,
    {
        let mut s = CpuSet::empty();
        s.cpu_set(cpu);
        proof {
            assert forall|c: int| #[trigger] s.contains(c) <==> c == cpu && cpu < 1024 by {
                if 0 <= c < 1024 {
                    let b = (c % 64) as u64;
                    let k = (cpu % 64) as u64;
                    assert(0u64 >> b & 1u64 == 0u64) by (bit_vector);
                    assert(((0u64 | (1u64 << k)) >> b) & 1u64 == 1u64 <==> b == k) by (bit_vector)
                        requires
                            b < 64,
                            k < 64,
                    ;
                }
            }
        }
        s
    }
}

/// Core `64 * i + b` of a set is bit `b` of word `i`.
pub proof fn law_one_bit_per_core(s: CpuSet, i: int, b: u64)
    requires
        0 <= i < 16,
        b < 64,
    ensures
        s.contains(64 * i + b) <==> s.bits@[i] & (1u64 << b) != 0,
        !s.contains(-1 - i),
        !s.contains(1024 + 64 * i + b),
{
    let w = s.bits@[i];
    assert((w >> b) & 1u64 == 1u64 <==> w & (1u64 << b) != 0) by (bit_vector)
        requires
            b < 64,
    ;
    assert((64 * i + b) / 64 == i && (64 * i + b) % 64 == b);
}

} // verus!

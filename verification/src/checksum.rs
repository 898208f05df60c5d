//! Fletcher-16 over a run of bytes, with both running sums taken modulo 255.

use vstd::prelude::*;

verus! {

/// The two running sums after the whole of `bytes` has been read.
pub open spec fn fletcher_sums(bytes: Seq<u8>) -> (int, int)
    decreases bytes.len(),
{
    if bytes.len() == 0 {
        (0, 0)
    } else {
        let (sum1, sum2) = fletcher_sums(bytes.drop_last());
        let next1 = (sum1 + bytes.last()) % 255;
        (next1, (sum2 + next1) % 255)
    }
}

/// The checksum: the first sum in the high byte, the second in the low byte.
pub open spec fn spec_fletcher16(bytes: Seq<u8>) -> int {
    fletcher_sums(bytes).0 * 256 + fletcher_sums(bytes).1
}

/// Both sums stay below 255, so the checksum fits sixteen bits.
pub proof fn lemma_fletcher_bounds(bytes: Seq<u8>)
    ensures
        0 <= fletcher_sums(bytes).0 < 255,
        0 <= fletcher_sums(bytes).1 < 255,
        0 <= spec_fletcher16(bytes) < 65536,
    decreases bytes.len(),
{
    if bytes.len() > 0 {
        lemma_fletcher_bounds(bytes.drop_last());
    }
}

/// Computes the Fletcher-16 checksum of `bytes`.
pub fn fletcher16(bytes: &[u8]) -> (sum: u16)
    ensures
        sum == spec_fletcher16(bytes@),
{
    let mut sum1: u16 = 0;
    let mut sum2: u16 = 0;
    let mut i: usize = 0;
    while i < bytes.len()
        invariant
            i <= bytes.len(),
            sum1 < 255,
            sum2 < 255,
            sum1 == fletcher_sums(bytes@.take(i as int)).0,
            sum2 == fletcher_sums(bytes@.take(i as int)).1,
        decreases bytes.len() - i,
    {
        proof {
            assert(bytes@.take(i + 1).drop_last() =~= bytes@.take(i as int));
        }
        sum1 = (sum1 + bytes[i] as u16) % 255;
        sum2 = (sum2 + sum1) % 255;
        i += 1;
    }
    proof {
        assert(bytes@.take(i as int) =~= bytes@);
    }
    sum1 * 256 + sum2
}

} // verus!

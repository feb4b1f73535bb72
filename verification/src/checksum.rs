//! Sums of bytes, from which the item checksum and the payload digest are
//! made.

use vstd::prelude::*;

verus! {

/// The sum of the bytes of a buffer.
pub open spec fn byte_sum(bytes: Seq<u8>) -> nat
    decreases bytes.len(),
{
    if bytes.len() == 0 {
        0
    } else {
        byte_sum(bytes.drop_last()) + bytes.last() as nat
    }
}

/// Changing one byte changes the sum by the difference of the two bytes.
pub proof fn lemma_byte_sum_update(bytes: Seq<u8>, i: int, byte: u8)
    requires
        0 <= i < bytes.len(),
    ensures
        byte_sum(bytes.update(i, byte)) + bytes[i] == byte_sum(bytes) + byte,
    decreases bytes.len(),
{
    let changed = bytes.update(i, byte);
    if i == bytes.len() - 1 {
        assert(changed.drop_last() =~= bytes.drop_last());
    } else {
        lemma_byte_sum_update(bytes.drop_last(), i, byte);
        assert(changed.drop_last() =~= bytes.drop_last().update(i, byte));
    }
}

/// The sum of the first `len` bytes of a buffer, modulo two to the
/// thirty-second.
pub fn sum32(bytes: &[u8], len: usize) -> (r: u32)
    requires
        len <= bytes@.len(),
    ensures
        r as nat == byte_sum(bytes@.take(len as int)) % 0x1_0000_0000,
{
    let mut sum: u64 = 0;
    let mut i: usize = 0;
    proof {
        assert(bytes@.take(0) =~= Seq::<u8>::empty());
    }
    while i < len
        invariant
            i <= len <= bytes@.len(),
            sum < 0x1_0000_0000,
            sum as nat == byte_sum(bytes@.take(i as int)) % 0x1_0000_0000,
        decreases len - i,
    {
        proof {
            let next = bytes@.take(i + 1);
            assert(next.drop_last() =~= bytes@.take(i as int));
            assert(next.last() == bytes@[i as int]);
        }
        sum = (sum + bytes[i] as u64) % 0x1_0000_0000;
        i = i + 1;
    }
    sum as u32
}

} // verus!

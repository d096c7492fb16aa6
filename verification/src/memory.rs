//! The per-thread work of the memory kernel: a buffer is filled with a
//! running byte pattern and read back into a checksum.

use vstd::prelude::*;

verus! {

/// Bytes of buffer that each thread of the memory kernel works on at scale 1.
pub const BASE_BUFFER_SIZE: usize = 512_000_000;

/// Threads that the memory kernel runs side by side.
pub const NUM_THREADS: usize = 8;

/// The byte that thread `thread_id` writes at index `i`.
pub open spec fn pattern_byte(thread_id: int, i: int) -> u8 {
    ((thread_id + i) % 256) as u8
}

/// The sum of the first `n` bytes.
pub open spec fn byte_total(bytes: Seq<u8>, n: int) -> nat
    decreases n,
{
    if n <= 0 {
        0
    } else {
        byte_total(bytes, n - 1) + bytes[n - 1] as nat
    }
}

/// Writes the pattern of thread `thread_id` over the whole buffer.
pub fn fill_pattern(buffer: &mut Vec<u8>, thread_id: usize)
    requires
        thread_id + old(buffer)@.len() <= usize::MAX,
    ensures
        final(buffer)@.len() == old(buffer)@.len(),
        forall|i: int|
            0 <= i < final(buffer)@.len() ==> #[trigger] final(buffer)@[i] == pattern_byte(
                thread_id as int,
                i,
            ),
{
    let n = buffer.len();
    let mut i: usize = 0;
    while i < n
        invariant
            i <= n,
            n == buffer@.len(),
            thread_id + n <= usize::MAX,
            forall|j: int| 0 <= j < i ==> #[trigger] buffer@[j] == pattern_byte(thread_id as int, j),
        decreases n - i,
    {
        buffer[i] = ((thread_id + i) % 256) as u8;
        i += 1;
    }
}

/// Adds up the bytes of the buffer, keeping the low 64 bits of the sum.
pub fn sum_bytes(buffer: &Vec<u8>) -> (sum: u64)
    ensures
        sum == byte_total(buffer@, buffer@.len() as int) % 0x1_0000_0000_0000_0000,
{
    let n = buffer.len();
    let mut sum: u64 = 0;
    let mut i: usize = 0;
    while i < n
        invariant
            i <= n,
            n == buffer@.len(),
            sum == byte_total(buffer@, i as int) % 0x1_0000_0000_0000_0000,
        decreases n - i,
    {
        let byte = buffer[i];
        proof {
            let m = 0x1_0000_0000_0000_0000int;
            let before = byte_total(buffer@, i as int) as int;
            vstd::arithmetic::div_mod::lemma_add_mod_noop(before, byte as int, m);
            vstd::arithmetic::div_mod::lemma_small_mod(byte as nat, m as nat);
            let t = sum + byte;
            if t >= m {
                vstd::arithmetic::div_mod::lemma_mod_sub_multiples_vanish(t, m);
                vstd::arithmetic::div_mod::lemma_small_mod((t - m) as nat, m as nat);
            } else {
                vstd::arithmetic::div_mod::lemma_small_mod(t as nat, m as nat);
            }
        }
        sum = sum.wrapping_add(byte as u64);
        i += 1;
    }
    sum
}

} // verus!

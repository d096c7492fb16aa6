//! Buffers for direct disk transfers: a buffer is allocated with room to
//! spare, and the transfer starts at the first address inside it that is a
//! multiple of the block alignment.

use vstd::prelude::*;

verus! {

/// Bytes that the disk kernel writes and reads back at scale 1.
pub const BASE_FILE_SIZE: usize = 50_000_000;

/// The alignment, in bytes, that direct transfers ask for.
pub const ALIGNMENT: usize = 4096;

/// The distance from `address` to the next multiple of the alignment, 0 when
/// `address` is one.
pub open spec fn aligned_offset_spec(address: int) -> int {
    (ALIGNMENT - (address % ALIGNMENT as int)) % ALIGNMENT as int
}

/// The offset is the least distance to an aligned address.
pub proof fn lemma_aligned_offset_is_least(address: int)
    requires
        address >= 0,
    ensures
        0 <= aligned_offset_spec(address) < ALIGNMENT,
        (address + aligned_offset_spec(address)) % ALIGNMENT as int == 0,
        forall|d: int|
            0 <= d < aligned_offset_spec(address) ==> #[trigger] ((address + d) % ALIGNMENT as int)
                != 0,
{
    let a = ALIGNMENT as int;
    let r = address % a;
    let q = address / a;
    vstd::arithmetic::div_mod::lemma_fundamental_div_mod(address, a);
    if r == 0 {
        assert(aligned_offset_spec(address) == 0);
    } else {
        vstd::arithmetic::div_mod::lemma_small_mod((a - r) as nat, a as nat);
        assert(address + (a - r) == a * (q + 1) + 0) by (nonlinear_arith)
            requires
                address == a * q + r,
        ;
        vstd::arithmetic::div_mod::lemma_fundamental_div_mod_converse(
            address + (a - r),
            a,
            q + 1,
            0,
        );
        assert forall|d: int| 0 <= d < a - r implies #[trigger] ((address + d) % a) != 0 by {
            assert(address + d == a * q + (r + d));
            vstd::arithmetic::div_mod::lemma_fundamental_div_mod_converse(
                address + d,
                a,
                q,
                r + d,
            );
        }
    }
}

/// The distance from `address` to the next aligned address.
pub fn aligned_offset(address: usize) -> (offset: usize)
    ensures
        offset == aligned_offset_spec(address as int),
        offset < ALIGNMENT,
{
    (ALIGNMENT - (address % ALIGNMENT)) % ALIGNMENT
}

/// The address at which the vector keeps its bytes (`Vec::as_ptr`, as a
/// number). It is the allocator's choice: nothing is claimed of it.
#[verifier::external_body]
fn buffer_address(buffer: &Vec<u8>) -> (address: usize) {
    buffer.as_ptr() as usize
}

/// Allocates a zeroed buffer with `size` bytes and one alignment to spare,
/// and returns it with the offset of its first aligned byte: `size` bytes
/// from that offset on lie inside the buffer.
pub fn alloc_aligned(size: usize) -> (allocation: (Vec<u8>, usize))
    requires
        size + ALIGNMENT <= usize::MAX,
    ensures
        allocation.0@.len() == size + ALIGNMENT,
        forall|i: int| 0 <= i < allocation.0@.len() ==> #[trigger] allocation.0@[i] == 0u8,
        allocation.1 < ALIGNMENT,
        allocation.1 + size <= allocation.0@.len(),
{
    let buffer = vec![0u8; size + ALIGNMENT];
    let address = buffer_address(&buffer);
    let offset = aligned_offset(address);
    (buffer, offset)
}

} // verus!

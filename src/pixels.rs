//! Packed pixels as the byte buffer that an image takes.

use vstd::prelude::*;

verus! {

/// Byte `k` (0 the least significant) of `v`.
pub open spec fn byte_of(v: u32, k: int) -> u8 {
    if k == 0 {
        (v % 0x100) as u8
    } else if k == 1 {
        ((v / 0x100) % 0x100) as u8
    } else if k == 2 {
        ((v / 0x1_0000) % 0x100) as u8
    } else {
        (v / 0x100_0000) as u8
    }
}

/// `bytes` holds the pixels four bytes each, least significant byte first
/// when `little`, most significant first otherwise.
pub open spec fn in_byte_order(pixels: Seq<u32>, bytes: Seq<u8>, little: bool) -> bool {
    &&& bytes.len() == 4 * pixels.len()
    &&& forall|i: int, k: int|
        0 <= i < pixels.len() && 0 <= k < 4 ==> bytes[4 * i + if little {
            k
        } else {
            3 - k
        }] == #[trigger] byte_of(pixels[i], k)
}

/// Relies on bytemuck::must_cast_slice from `u32` to `u8`: the same memory
/// viewed as bytes, four per pixel, in the machine's byte order.
#[verifier::external_body]
pub(crate) fn cast_to_bytes(pixels: &[u32]) -> (r: Vec<u8>)
    ensures
        in_byte_order(pixels@, r@, true) || in_byte_order(pixels@, r@, false),
{
    bytemuck::must_cast_slice::<u32, u8>(pixels).to_vec()
}

} // verus!

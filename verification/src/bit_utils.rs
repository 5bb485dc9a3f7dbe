//! Single bits of a byte string.

use vstd::prelude::*;
use crate::hashing::{bit_of, bit_of_vector, bits_of_bytes};

verus! {

/// Bit `i` of the message, counted from the most significant bit of its
/// first byte, as 0 or 1.
pub fn bit_at(i: usize, m: &[u8]) -> (r: usize)
    requires
        8 * m@.len() <= usize::MAX,
        i < 8 * m@.len(),
    ensures
        r == if bit_of(m@, i as nat) { 1usize } else { 0usize },
{
    let msg_bits = bits_of_bytes(m);
    if bit_of_vector(&msg_bits, i) {
        1
    } else {
        0
    }
}

} // verus!

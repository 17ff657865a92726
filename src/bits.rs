//! Bit rotations of a byte and the XOR facts the layers rely on.
use vstd::prelude::*;

verus! {

/// Rotates the bits of `x` left by `k`.
pub open spec fn rotl(x: u8, k: u8) -> u8 {
    (x << k) | (x >> (8u8 - k) as u8)
}

/// Rotates the bits of `x` right by `k`.
pub open spec fn rotr(x: u8, k: u8) -> u8 {
    (x >> k) | (x << (8u8 - k) as u8)
}

pub proof fn lemma_rotations_cancel(x: u8, k: u8)
    by (bit_vector)
    requires
        0 < k < 8,
    ensures
        rotr(rotl(x, k), k) == x,
        rotl(rotr(x, k), k) == x,
{
}

pub proof fn lemma_xor_cancels(x: u8, y: u8)
    by (bit_vector)
    ensures
        (x ^ y) ^ y == x,
{
}

/// Rotates the bits of `x` left by `k`.
pub fn rotate_left(x: u8, k: u8) -> (r: u8)
    requires
        0 < k < 8,
    ensures
        r == rotl(x, k),
{
    (x << k) | (x >> (8 - k))
}

/// Rotates the bits of `x` right by `k`.
pub fn rotate_right(x: u8, k: u8) -> (r: u8)
    requires
        0 < k < 8,
    ensures
        r == rotr(x, k),
{
    (x >> k) | (x << (8 - k))
}

} // verus!

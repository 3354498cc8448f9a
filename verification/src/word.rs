//! Operations on single 64-bit words: wrapping addition and left rotation.

use vstd::prelude::*;

verus! {

/// The sum of `a` and `b` modulo 2^64.
pub open spec fn wrapping_sum(a: u64, b: u64) -> u64 {
    ((a + b) % 0x1_0000_0000_0000_0000) as u64
}

/// `x` rotated left by `k` bit positions, for `0 < k < 64`: the bits shifted
/// out at the top come back in at the bottom.
pub open spec fn rotl(x: u64, k: u32) -> u64
    recommends
        0 < k < 64,
{
    (x << k) | (x >> ((64 - k) as u32))
}

/// Adds two words, discarding the carry out of bit 63.
pub fn add_wrapping(a: u64, b: u64) -> (sum: u64)
    ensures
        sum == wrapping_sum(a, b),
{
    a.wrapping_add(b)
}

/// Rotates `x` left by `k` bit positions.
pub fn rotate_left(x: u64, k: u32) -> (r: u64)
    requires
        0 < k < 64,
    ensures
        r == rotl(x, k),
{
    (x << k) | (x >> (64 - k))
}

} // verus!

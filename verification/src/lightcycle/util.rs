//! Seed mixing for deterministic rounds.

use vstd::prelude::*;

verus! {

/// The SplitMix64 finaliser, with the arithmetic of `u64` wrapping.
pub open spec fn spec_splitmix64(x: u64) -> u64 {
    let a = vstd::wrapping::u64_specs::wrapping_add(x, 0x9E37_79B9_7F4A_7C15u64);
    let b = vstd::wrapping::u64_specs::wrapping_mul(a ^ (a >> 30u64), 0xBF58_476D_1CE4_E5B9u64);
    let c = vstd::wrapping::u64_specs::wrapping_mul(b ^ (b >> 27u64), 0x94D0_49BB_1331_11EBu64);
    c ^ (c >> 31u64)
}

/// Mixes a seed into a well-spread 64-bit value (SplitMix64).
pub fn splitmix64(x: u64) -> (r: u64)
    ensures
        r == spec_splitmix64(x),
{
    let a = x.wrapping_add(0x9E37_79B9_7F4A_7C15u64);
    let b = (a ^ (a >> 30u64)).wrapping_mul(0xBF58_476D_1CE4_E5B9u64);
    let c = (b ^ (b >> 27u64)).wrapping_mul(0x94D0_49BB_1331_11EBu64);
    c ^ (c >> 31u64)
}

} // verus!

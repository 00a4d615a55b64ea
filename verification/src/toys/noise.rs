//! Integer hashes that the toys use as cheap, repeatable noise.

use vstd::prelude::*;

verus! {

/// The 32-bit mixing function: xor-shifts and two odd multipliers, with
/// the arithmetic of `u32` wrapping.
pub open spec fn spec_hash_u32(x0: u32) -> u32 {
    let x1 = x0 ^ (x0 >> 16u32);
    let x2 = vstd::wrapping::u32_specs::wrapping_mul(x1, 0x7feb352du32);
    let x3 = x2 ^ (x2 >> 15u32);
    let x4 = vstd::wrapping::u32_specs::wrapping_mul(x3, 0x846ca68bu32);
    x4 ^ (x4 >> 16u32)
}

pub fn hash_u32(x: u32) -> (h: u32)
    ensures
        h == spec_hash_u32(x),
{
    let mut x = x;
    x ^= x >> 16;
    x = x.wrapping_mul(0x7feb352d);
    x ^= x >> 15;
    x = x.wrapping_mul(0x846ca68b);
    x ^= x >> 16;
    x
}

/// The aurora's lattice hash: the seed mixed with both coordinates times
/// fixed odd constants, then mixed.
pub open spec fn spec_hash2(x: i32, y: i32, seed: u32) -> u32 {
    spec_hash_u32(
        seed ^ vstd::wrapping::u32_specs::wrapping_mul(x as u32, 0x9e3779b1u32)
            ^ vstd::wrapping::u32_specs::wrapping_mul(y as u32, 0x85ebca6bu32),
    )
}

pub fn hash2(x: i32, y: i32, seed: u32) -> (h: u32)
    ensures
        h == spec_hash2(x, y, seed),
{
    let mut h = seed ^ (x as u32).wrapping_mul(0x9e3779b1) ^ (y as u32).wrapping_mul(0x85ebca6b);
    h = hash_u32(h);
    h
}

/// The orrery's 3-D lattice hash: each coordinate times its own odd
/// constant is mixed in turn into the seed.
pub open spec fn spec_hash3(ix: i32, iy: i32, iz: i32, seed: u32) -> u32 {
    let h0 = seed ^ 0x9e37_79b9u32;
    let h1 = spec_hash_u32(h0 ^ vstd::wrapping::u32_specs::wrapping_mul(ix as u32, 0x85eb_ca6bu32));
    let h2 = spec_hash_u32(h1 ^ vstd::wrapping::u32_specs::wrapping_mul(iy as u32, 0xc2b2_ae35u32));
    spec_hash_u32(h2 ^ vstd::wrapping::u32_specs::wrapping_mul(iz as u32, 0x27d4_eb2fu32))
}

pub fn hash3(ix: i32, iy: i32, iz: i32, seed: u32) -> (h: u32)
    ensures
        h == spec_hash3(ix, iy, iz, seed),
{
    let mut h = seed ^ 0x9e37_79b9;
    h ^= (ix as u32).wrapping_mul(0x85eb_ca6b);
    h = hash_u32(h);
    h ^= (iy as u32).wrapping_mul(0xc2b2_ae35);
    h = hash_u32(h);
    h ^= (iz as u32).wrapping_mul(0x27d4_eb2f);
    hash_u32(h)
}

/// The aquarium's shimmer hash: the seed scrambles both coordinates,
/// which are then mixed with multiply and xor-shift steps.
pub open spec fn spec_shimmer_hash(x0: i32, y0: i32, seed: u32) -> u32 {
    let x = x0 ^ vstd::wrapping::i32_specs::wrapping_mul(seed as i32, 374761393i32);
    let y = y0 ^ vstd::wrapping::i32_specs::wrapping_mul(seed as i32, 668265263i32);
    let n0 = vstd::wrapping::u32_specs::wrapping_mul(x as u32, 2654435761u32)
        ^ vstd::wrapping::u32_specs::wrapping_mul(y as u32, 2246822519u32);
    let n1 = n0 ^ (n0 >> 13u32);
    let n2 = vstd::wrapping::u32_specs::wrapping_mul(n1, 3266489917u32);
    n2 ^ (n2 >> 16u32)
}

pub fn shimmer_hash(x: i32, y: i32, seed: u32) -> (h: u32)
    ensures
        h == spec_shimmer_hash(x, y, seed),
{
    let mut x = x;
    let mut y = y;
    x ^= (seed as i32).wrapping_mul(374761393);
    y ^= (seed as i32).wrapping_mul(668265263);
    let mut n = (x as u32).wrapping_mul(2654435761) ^ (y as u32).wrapping_mul(2246822519);
    n ^= n >> 13;
    n = n.wrapping_mul(3266489917);
    n ^= n >> 16;
    n
}

} // verus!

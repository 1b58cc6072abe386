//! A 16-bit xorshift step for generating query ids from a running seed. The
//! caller owns the seed and feeds each result back in as the next seed.

use vstd::prelude::*;

verus! {

/// One xorshift step over a 16-bit state.
pub open spec fn spec_xorshift_u16(x: u16) -> u16 {
    let a = x ^ (x << 7u16);
    let b = a ^ (a >> 9u16);
    b ^ (b << 8u16)
}

/// Advances a 16-bit xorshift state by one step and returns the new state,
/// which also serves as the drawn value.
pub fn xorshift_u16(seed: u16) -> (r: u16)
    ensures
        r == spec_xorshift_u16(seed),
{
    let mut x = seed;
    x = x ^ (x << 7);
    x = x ^ (x >> 9);
    x = x ^ (x << 8);
    x
}

} // verus!

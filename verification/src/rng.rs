//! The one place the library draws randomness from.

use vstd::prelude::*;

verus! {

/// Relies on quad_rand::gen_range::<u32>: it scales a fresh 32-bit random
/// value `r` into `low as f64 + (high - low) as f64 * (r / 2^32)` and
/// truncates back to `u32`. With `low == 0` the scaled value is strictly
/// below `high`, so the result lies in `[0, high)`. Nothing more is promised:
/// the result depends on a global generator state.
#[verifier::external_body]
pub(crate) fn gen_range_u32(high: u32) -> (r: u32)
    requires
        high > 0,
    ensures
        r < high,
{
    quad_rand::gen_range(0u32, high)
}

} // verus!

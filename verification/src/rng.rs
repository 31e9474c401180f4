//! The trusted boundary to the `rand` crate.
//!
//! Sampling routines elsewhere in the library draw raw integers from here
//! and are verified for every value the contracts below admit; nothing is
//! assumed about which value comes back beyond its range.

use vstd::prelude::*;
use rand::Rng;

verus! {

#[verifier::external_type_specification]
#[verifier::external_body]
pub struct ExThreadRng(rand::rngs::ThreadRng);

/// Relies on rand::Rng::gen_range over `lo..hi`: a draw inside the
/// half-open range; the call panics only when the range is empty.
#[verifier::external_body]
pub fn rand_in_range(rng: &mut rand::rngs::ThreadRng, lo: i64, hi: i64) -> (r: i64)
    requires
        lo < hi,
    ensures
        lo <= r < hi,
{
    rng.gen_range(lo..hi)
}

} // verus!

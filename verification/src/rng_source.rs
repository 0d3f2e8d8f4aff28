//! The uniform random source behind the growth process.
//!
//! The generator itself comes from the rand crate and is opaque here; the
//! one contract the growth logic leans on is that a draw over a non-empty
//! range lands in that range. Everything decided from a draw is decided by
//! verified code that takes the drawn value as an argument.

use vstd::prelude::*;

verus! {

#[verifier::external_type_specification]
#[verifier::external_body]
pub struct ExStdRng(rand::rngs::StdRng);

/// Relies on rand's RngExt::random_range over `lo..hi`: a uniform draw in
/// `[lo, hi)`. The range is non-empty, so the call cannot panic, and every
/// outcome lies in the range; which one comes back is not assumed.
#[verifier::external_body]
pub(crate) fn draw_range(rng: &mut rand::rngs::StdRng, lo: u64, hi: u64) -> (r: u64)
    requires
        lo < hi,
    ensures
        lo <= r < hi,
{
    rand::RngExt::random_range(rng, lo..hi)
}

} // verus!

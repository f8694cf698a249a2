//! The one source of randomness: uniform draws from an integer range.
//!
//! The serve after a goal and the per-particle lifetime jitter each draw
//! one number.  Nothing more is ever assumed of a draw than its bounds.

use vstd::prelude::*;

use rand::Rng;

verus! {

/// Relies on `rand::Rng::gen_range` on `rand::thread_rng`: a sample from
/// the inclusive range `lo..=hi`, which panics only when the range is
/// empty.  Nothing beyond the bounds holds of the result.
#[verifier::external_body]
pub(crate) fn sample_inclusive(lo: i64, hi: i64) -> (r: i64)
    requires
        lo <= hi,
    ensures
        lo <= r <= hi,
{
    rand::thread_rng().gen_range(lo..=hi)
}

} // verus!

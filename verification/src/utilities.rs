//! Random scalars for sampling.
//!
//! The one place the library touches the outside world: a uniform draw from
//! `rand`, wrapped so that verified code knows only the range of the result.

use crate::fixed::SCALE;
use vstd::prelude::*;

verus! {

/// Relies on rand::random_range: a uniform draw from the half-open range
/// `lo..hi` of the thread-local generator; it panics only on an empty range.
#[verifier::external_body]
fn rand_in_range(lo: i64, hi: i64) -> (r: i64)
    requires
        lo < hi,
    ensures
        lo <= r < hi,
{
    rand::random_range(lo..hi)
}

/// A random scalar in `[0, 1)`.
pub fn random_double() -> (r: i64)
    ensures
        0 <= r < SCALE,
{
    rand_in_range(0, SCALE)
}

/// A random scalar in `[min, max)`.
pub fn random_double_range(min: i64, max: i64) -> (r: i64)
    requires
        min < max,
    ensures
        min <= r < max,
{
    rand_in_range(min, max)
}

} // verus!

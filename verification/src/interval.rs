//! Closed ranges of fixed-point scalars.

use crate::fixed::div_floor;
use vstd::prelude::*;

verus! {

/// A closed numeric range; `min <= max` is assumed by callers rather than
/// enforced by the type.
#[derive(Clone, Copy, Debug, PartialEq, Eq, Structural)]
pub struct Interval {
    pub min: i64,
    pub max: i64,
}

impl Interval {
    pub fn new(min: i64, max: i64) -> (r: Interval)
        ensures
            r == (Interval { min, max }),
    {
        Interval { min, max }
    }

    /// Strict interior test: boundary values do not count. Intersection
    /// parameters are accepted with this test so that ties at the boundary
    /// never yield a hit.
    pub fn surrounds(&self, value: i64) -> (r: bool)
        ensures
            r == (self.min < value && value < self.max),
    {
        self.min < value && value < self.max
    }

    /// The value bounded into the range.
    pub fn clamp(&self, value: i64) -> (r: i64)
        ensures
            r == if value < self.min {
                self.min
            } else if value > self.max {
                self.max
            } else {
                value
            },
    {
        if value < self.min {
            self.min
        } else if value > self.max {
            self.max
        } else {
            value
        }
    }

    /// The range widened by half the given amount on each side.
    pub fn expand(&self, delta: i64) -> (r: Interval)
        requires
            -1_000_000_000 <= delta <= 1_000_000_000,
            -1_000_000_000 <= self.min <= 1_000_000_000,
            -1_000_000_000 <= self.max <= 1_000_000_000,
        ensures
            r.min == self.min - delta as int / 2,
            r.max == self.max + delta as int / 2,
    {
        let padding = div_floor(delta as i128, 2) as i64;
        Interval { min: self.min - padding, max: self.max + padding }
    }
}

impl Default for Interval {
    /// The degenerate range holding only zero.
    fn default() -> (r: Interval)
        ensures
            r.min == 0,
            r.max == 0,
    {
        Interval { min: 0, max: 0 }
    }
}

} // verus!

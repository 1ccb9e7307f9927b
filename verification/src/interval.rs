//! Closed ranges of fixed-point scalars, used to bound valid intersection
//! parameters and to clamp color channels.

use vstd::prelude::*;

verus! {

#[derive(Clone, Copy, PartialEq, Eq, Structural, Debug, Hash)]
pub struct Interval {
    pub start: i128,
    pub end: i128,
}

/// Inclusive membership.
pub open spec fn spec_contains(iv: Interval, v: int) -> bool {
    iv.start <= v <= iv.end
}

/// Strict membership.
pub open spec fn spec_surrounds(iv: Interval, v: int) -> bool {
    iv.start < v < iv.end
}

/// Saturation into the range: the larger of `start` and `v`, capped at `end`.
pub open spec fn spec_clamp(iv: Interval, v: int) -> int {
    let lo = if iv.start >= v {
        iv.start as int
    } else {
        v
    };
    if lo <= iv.end {
        lo
    } else {
        iv.end as int
    }
}

impl Interval {
    /// Inclusive membership test.
    pub fn contains(&self, v: i128) -> (r: bool)
        ensures
            r == spec_contains(*self, v as int),
    {
        self.start <= v && v <= self.end
    }

    /// Strict membership test.
    pub fn surrounds(&self, v: i128) -> (r: bool)
        ensures
            r == spec_surrounds(*self, v as int),
    {
        self.start < v && v < self.end
    }

    /// Saturates `v` into the range.
    pub fn clamp(&self, v: i128) -> (r: i128)
        ensures
            r == spec_clamp(*self, v as int),
    {
        let lo = if self.start >= v {
            self.start
        } else {
            v
        };
        if lo <= self.end {
            lo
        } else {
            self.end
        }
    }
}

impl Default for Interval {
    /// The empty-at-zero range.
    fn default() -> (r: Interval)
        ensures
            r == (Interval { start: 0, end: 0 }),
    {
        Interval { start: 0, end: 0 }
    }
}

} // verus!

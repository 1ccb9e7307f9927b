//! Small range utilities shared across the crate.

use vstd::prelude::*;

verus! {

/// Strict containment for range-like types.
pub trait RangeSurround<T> {
    /// What strict containment means for this range type.
    spec fn surrounds_spec(&self, val: &T) -> bool;

    /// Whether `val` lies strictly inside the range.
    fn surrounds(&self, val: &T) -> (r: bool)
        ensures
            r == self.surrounds_spec(val),
    ;
}

/// A plain `(start, end)` bounds pair is a range.
impl RangeSurround<i128> for (i128, i128) {
    open spec fn surrounds_spec(&self, val: &i128) -> bool {
        self.0 < *val < self.1
    }

    fn surrounds(&self, val: &i128) -> (r: bool)
        ensures
            r == self.surrounds_spec(val),
    {
        self.0 < *val && *val < self.1
    }
}

} // verus!

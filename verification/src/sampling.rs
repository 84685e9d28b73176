//! What the random samplers decide once a sample is drawn. A double is given
//! by its bits.

use vstd::prelude::*;
use crate::double::at_most;
use crate::double::less;
use crate::double::less_or_equal;
use crate::double::less_than;
use crate::double::ONE;

verus! {

/// A sample drawn from the cube around the unit sphere, or from the square
/// around the unit disk, is kept where it lies inside: where its squared
/// length is not one or more.
pub open spec fn is_kept(length_squared: u64) -> bool {
    !at_most(ONE, length_squared)
}

/// A span of time has a time to draw where its start is before its end; else
/// the time is its start.
pub open spec fn is_open(start: u64, end: u64) -> bool {
    less_than(start, end)
}

/// Whether a sample of this squared length is kept; if not, another is drawn.
pub fn keeps(length_squared: u64) -> (kept: bool)
    ensures
        kept == is_kept(length_squared),
{
    !less_or_equal(ONE, length_squared)
}

/// Whether there is a time to draw between `start` and `end`.
pub fn has_span(start: u64, end: u64) -> (open: bool)
    ensures
        open == is_open(start, end),
{
    less(start, end)
}

} // verus!

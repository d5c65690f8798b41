//! Fixed-point representation: values and timestamps carry thousandths
//! of a unit in an `i64`, so the pipeline's arithmetic is exact.

use vstd::prelude::*;

verus! {

/// Fixed-point parts per unit: one unit is `SCALE` thousandths.
pub const SCALE: i64 = 1000;

/// Half a unit, the padding applied to a degenerate value range.
pub const HALF_UNIT: i64 = 500;

/// Magnitude bound on coordinates; it keeps every difference, padding
/// and interpolation step of the pipeline inside machine integers.
pub const COORD_LIMIT: i64 = 0x2000_0000_0000_0000;

/// A coordinate small enough for the pipeline's arithmetic.
pub open spec fn coord_ok(v: int) -> bool {
    -COORD_LIMIT < v < COORD_LIMIT
}

} // verus!

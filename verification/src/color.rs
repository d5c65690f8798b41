//! Cyclic color assignment: series ordinal to a fixed 8-entry RGB palette.

use vstd::prelude::*;

verus! {

/// Number of colors in the fixed palette.
pub const PALETTE_LEN: usize = 8;

/// The fixed palette, by position: green, red, yellow, magenta, cyan,
/// orange, purple, blue.
pub open spec fn spec_palette(j: int) -> (u8, u8, u8) {
    if j == 0 {
        (0, 252, 0)
    } else if j == 1 {
        (252, 0, 0)
    } else if j == 2 {
        (252, 252, 0)
    } else if j == 3 {
        (252, 0, 252)
    } else if j == 4 {
        (0, 252, 252)
    } else if j == 5 {
        (252, 165, 0)
    } else if j == 6 {
        (128, 0, 128)
    } else {
        (0, 0, 252)
    }
}

/// Color assigned to the series at ordinal `i`: the palette entry at
/// `i mod 8`, so colors repeat cyclically in palette order.
pub open spec fn spec_color_for(i: int) -> (u8, u8, u8) {
    spec_palette(i % (PALETTE_LEN as int))
}

/// Returns the RGB color for the series at ordinal position `i`.
pub fn color_for(i: usize) -> (c: (u8, u8, u8))
    ensures
        c == spec_color_for(i as int),
{
    let j: usize = i % PALETTE_LEN;
    if j == 0 {
        (0, 252, 0)
    } else if j == 1 {
        (252, 0, 0)
    } else if j == 2 {
        (252, 252, 0)
    } else if j == 3 {
        (252, 0, 252)
    } else if j == 4 {
        (0, 252, 252)
    } else if j == 5 {
        (252, 165, 0)
    } else if j == 6 {
        (128, 0, 128)
    } else {
        (0, 0, 252)
    }
}

} // verus!

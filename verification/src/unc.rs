//! Measured values with their uncertainties.

use vstd::prelude::*;

verus! {

/// An uncertainty, as the 64-bit word of an IEEE 754 double.
#[derive(Copy, Clone, Debug, PartialEq, Eq, Structural)]
pub struct Unc(pub u64);

/// A value with its uncertainty, both as the 64-bit words of IEEE 754
/// doubles. The library stores them and never computes with them.
#[derive(Copy, Clone, Debug, PartialEq, Eq, Structural)]
pub struct ValUnc {
    pub val: u64,
    pub unc: Unc,
}

/// The word of the double that is not a number.
pub const NAN_WORD: u64 = 0x7ff8_0000_0000_0000;

/// The word with its sign bit cleared.
pub open spec fn size_of_word(w: u64) -> int {
    if w >= 0x8000_0000_0000_0000 {
        w - 0x8000_0000_0000_0000
    } else {
        w as int
    }
}

/// The word stands for a finite double: its exponent is not the largest
/// one, which infinities and numbers that are none have.
pub open spec fn word_is_finite(w: u64) -> bool {
    size_of_word(w) < 0x7ff0_0000_0000_0000
}

/// Tells whether the word stands for a finite double.
pub fn is_finite_word(w: u64) -> (r: bool)
    ensures
        r == word_is_finite(w),
{
    let size: u64 = if w >= 0x8000_0000_0000_0000 {
        w - 0x8000_0000_0000_0000
    } else {
        w
    };
    size < 0x7ff0_0000_0000_0000
}

} // verus!

use vstd::prelude::*;

verus! {

/// A single-precision number held by its IEEE 754 bit pattern.
///
/// The library never computes with the number; it carries it from a literal
/// to the place where it is shown, and asks only whether it is above zero.
#[derive(Debug, Clone, Copy, PartialEq, Eq, Structural)]
pub struct FloatBits {
    pub bits: u32,
}

/// Bit pattern of positive infinity, the largest pattern that is above zero.
pub const POSITIVE_INFINITY_BITS: u32 = 0x7F80_0000;

impl FloatBits {
    /// Whether the number is strictly greater than zero.
    ///
    /// Patterns 1 through positive infinity are the positive numbers. Zero of
    /// either sign, every negative number and every NaN are not above zero.
    pub open spec fn above_zero(self) -> bool {
        0 < self.bits <= POSITIVE_INFINITY_BITS
    }

    /// Whether the number is strictly greater than zero.
    pub fn is_above_zero(&self) -> (r: bool)
        ensures
            r == self.above_zero(),
    {
        0 < self.bits && self.bits <= POSITIVE_INFINITY_BITS
    }
}

} // verus!

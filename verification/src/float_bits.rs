//! Double-precision numbers, held as their bit patterns.

use crate::native::NativeType;
use vstd::prelude::*;

verus! {

/// All bits of a double but its sign.
pub const MAGNITUDE_MASK: u64 = 0x7fff_ffff_ffff_ffff;

/// The magnitude of infinity: every magnitude above it is not a number.
pub const INFINITY_MAGNITUDE: u64 = 0x7ff0_0000_0000_0000;

/// An IEEE 754 double-precision number, given by its 64 bits: a sign bit
/// above 63 bits of magnitude (exponent and fraction).
///
/// Magnitudes above that of infinity are not numbers. Among the others, a
/// larger magnitude is a number further from zero, so a number's place on the
/// number line is its magnitude with its sign. Both zeros have the same place.
#[derive(Clone, Copy, Debug, PartialEq, Eq)]
pub struct FloatBits(pub u64);

impl FloatBits {
    /// The bits below the sign bit.
    pub open spec fn magnitude(self) -> u64 {
        self.0 & MAGNITUDE_MASK
    }

    /// Whether the sign bit is set.
    pub open spec fn negative(self) -> bool {
        self.0 > MAGNITUDE_MASK
    }

    /// The magnitude with the sign, as a signed integer.
    fn signed_magnitude(&self) -> (key: i64)
        ensures
            key == self.rank(),
    {
        let bits: u64 = self.0;
        let magnitude: u64 = bits & MAGNITUDE_MASK;
        assert(magnitude <= 0x7fff_ffff_ffff_ffff) by (bit_vector)
            requires
                magnitude == bits & 0x7fff_ffff_ffff_ffff,
        ;
        if bits > MAGNITUDE_MASK {
            -(magnitude as i64)
        } else {
            magnitude as i64
        }
    }
}

impl NativeType for FloatBits {
    open spec fn nan(self) -> bool {
        self.magnitude() > INFINITY_MAGNITUDE
    }

    open spec fn rank(self) -> int {
        if self.negative() {
            -(self.magnitude() as int)
        } else {
            self.magnitude() as int
        }
    }

    fn is_nan(&self) -> (r: bool) {
        (self.0 & MAGNITUDE_MASK) > INFINITY_MAGNITUDE
    }

    fn less_than(&self, other: &Self) -> (r: bool)
        ensures
            r == (self.rank() < other.rank()),
    {
        self.signed_magnitude() < other.signed_magnitude()
    }
}

} // verus!

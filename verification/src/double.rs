//! Double-precision numbers as the sketch holds them: by their IEEE 754 bit
//! pattern.  The format is laid out so that order can be read off the bits:
//! the top bit is the sign, the other 63 bits grow with the magnitude, and the
//! magnitudes above that of infinity are not numbers.  Everything here is
//! integer arithmetic on the bit pattern.

use vstd::prelude::*;

verus! {

/// The bit that holds the sign.
pub const SIGN_BIT: u64 = 0x8000_0000_0000_0000;

/// The bit pattern of positive infinity: the largest magnitude that is a number.
pub const INFINITY_BITS: u64 = 0x7FF0_0000_0000_0000;

/// The bit pattern of the number one.
pub const ONE_BITS: u64 = 0x3FF0_0000_0000_0000;

/// The bit pattern of 1e-10, the double nearest to a ten-billionth.
pub const TOLERANCE_BITS: u64 = 0x3DDB_7CDF_D9D7_BDBB;

/// A double-precision number, held as its bit pattern.
#[derive(Debug, Clone, Copy)]
pub struct Double(pub u64);

impl Double {
    /// The sign bit is set.
    pub open spec fn sign(self) -> bool {
        self.0 >= SIGN_BIT
    }

    /// The bit pattern without the sign bit.
    pub open spec fn magnitude(self) -> int {
        if self.0 >= SIGN_BIT {
            self.0 - SIGN_BIT
        } else {
            self.0 as int
        }
    }

    /// The number's place in the order of all numbers: its magnitude, negated
    /// where the sign is set.  Both zeros have the place 0.
    pub open spec fn ordinal(self) -> int {
        if self.sign() {
            -self.magnitude()
        } else {
            self.magnitude()
        }
    }

    /// The pattern stands for no number.
    pub open spec fn spec_is_nan(self) -> bool {
        self.magnitude() > INFINITY_BITS
    }

    /// The number is zero, of either sign.
    pub open spec fn spec_is_zero(self) -> bool {
        self.magnitude() == 0
    }

    /// The number is greater than zero.
    pub open spec fn spec_is_positive(self) -> bool {
        !self.spec_is_nan() && self.ordinal() > 0
    }

    /// Both are numbers and `self` is the lesser.
    pub open spec fn spec_lt(self, other: Double) -> bool {
        !self.spec_is_nan() && !other.spec_is_nan() && self.ordinal() < other.ordinal()
    }

    /// Both are numbers and `self` is not the greater.
    pub open spec fn spec_le(self, other: Double) -> bool {
        !self.spec_is_nan() && !other.spec_is_nan() && self.ordinal() <= other.ordinal()
    }

    /// The lesser of two numbers; where one of them is no number, the other.
    pub open spec fn spec_min(self, other: Double) -> Double {
        if self.spec_is_nan() {
            other
        } else if other.spec_is_nan() {
            self
        } else if other.spec_lt(self) {
            other
        } else {
            self
        }
    }

    /// The greater of two numbers; where one of them is no number, the other.
    pub open spec fn spec_max(self, other: Double) -> Double {
        if self.spec_is_nan() {
            other
        } else if other.spec_is_nan() {
            self
        } else if self.spec_lt(other) {
            other
        } else {
            self
        }
    }

    /// The number zero.
    pub fn zero() -> (number: Double)
        ensures
            number == Double(0),
    {
        Double(0)
    }

    /// The number one.
    pub fn one() -> (number: Double)
        ensures
            number == Double(ONE_BITS),
    {
        Double(ONE_BITS)
    }

    /// The bit pattern without the sign bit.
    fn magnitude_bits(self) -> (bits: u64)
        ensures
            bits == self.magnitude(),
    {
        if self.0 >= SIGN_BIT {
            self.0 - SIGN_BIT
        } else {
            self.0
        }
    }

    /// Whether the pattern stands for no number.
    #[verifier::when_used_as_spec(spec_is_nan)]
    pub fn is_nan(self) -> (answer: bool)
        ensures
            answer == self.spec_is_nan(),
    {
        self.magnitude_bits() > INFINITY_BITS
    }

    /// Whether the number is zero, of either sign.
    #[verifier::when_used_as_spec(spec_is_zero)]
    pub fn is_zero(self) -> (answer: bool)
        ensures
            answer == self.spec_is_zero(),
    {
        self.magnitude_bits() == 0
    }

    /// Whether the number is greater than zero.
    #[verifier::when_used_as_spec(spec_is_positive)]
    pub fn is_positive(self) -> (answer: bool)
        ensures
            answer == self.spec_is_positive(),
    {
        0 < self.0 && self.0 <= INFINITY_BITS
    }

    /// Whether both are numbers and `self` is the lesser.
    #[verifier::when_used_as_spec(spec_lt)]
    pub fn lt(self, other: Double) -> (answer: bool)
        ensures
            answer == self.spec_lt(other),
    {
        if self.is_nan() || other.is_nan() {
            return false;
        }
        let mine = self.magnitude_bits();
        let theirs = other.magnitude_bits();
        if self.0 >= SIGN_BIT {
            if other.0 >= SIGN_BIT {
                mine > theirs
            } else {
                mine > 0 || theirs > 0
            }
        } else {
            if other.0 >= SIGN_BIT {
                false
            } else {
                mine < theirs
            }
        }
    }

    /// Whether both are numbers and `self` is not the greater.
    #[verifier::when_used_as_spec(spec_le)]
    pub fn le(self, other: Double) -> (answer: bool)
        ensures
            answer == self.spec_le(other),
    {
        if self.is_nan() || other.is_nan() {
            return false;
        }
        !other.lt(self)
    }

    /// The lesser of two numbers; where one of them is no number, the other.
    #[verifier::when_used_as_spec(spec_min)]
    pub fn min(self, other: Double) -> (number: Double)
        ensures
            number == self.spec_min(other),
    {
        if self.is_nan() {
            other
        } else if other.is_nan() {
            self
        } else if other.lt(self) {
            other
        } else {
            self
        }
    }

    /// The greater of two numbers; where one of them is no number, the other.
    #[verifier::when_used_as_spec(spec_max)]
    pub fn max(self, other: Double) -> (number: Double)
        ensures
            number == self.spec_max(other),
    {
        if self.is_nan() {
            other
        } else if other.is_nan() {
            self
        } else if self.lt(other) {
            other
        } else {
            self
        }
    }
}

/// Of two numbers, the lesser and the greater do not depend on the order in
/// which the two are given, but for which of two equal numbers is picked.
pub proof fn lemma_min_max_symmetric(a: Double, b: Double)
    requires
        !a.is_nan(),
        !b.is_nan(),
    ensures
        a.min(b).ordinal() == b.min(a).ordinal(),
        a.max(b).ordinal() == b.max(a).ordinal(),
        a.min(b).ordinal() <= a.ordinal() <= a.max(b).ordinal(),
        a.min(b).ordinal() <= b.ordinal() <= a.max(b).ordinal(),
        a.min(b) == a || a.min(b) == b,
        a.max(b) == a || a.max(b) == b,
{
}

} // verus!

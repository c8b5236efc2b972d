//! Binary64 numbers by their bits.
//!
//! The library orders such numbers and carries them around, but never computes on them: it says
//! which sum, difference, product or quotient it needs, as a [`Calc`], and is handed the value.

use vstd::prelude::*;

verus! {

/// The sign bit of a binary64 number, as the weight it has among the bits.
pub const SIGN_WEIGHT: u64 = 0x8000_0000_0000_0000;

/// The magnitude of an infinite number; a magnitude above it is that of no number at all.
pub const INFINITE_MAGNITUDE: u64 = 0x7ff0_0000_0000_0000;

/// The bits of `0`.
pub const ZERO_BITS: u64 = 0;

/// The bits of `1`.
pub const ONE_BITS: u64 = 0x3ff0_0000_0000_0000;

/// The bits of `100`.
pub const HUNDRED_BITS: u64 = 0x4059_0000_0000_0000;

/// A binary64 number, given by its bits.
///
/// Comparing two of them with `==` compares the bits. The order of numbers, in which the two
/// zeros are equal and a value that is not a number stands in no relation, is [`Number::lt`] and
/// [`Number::le`].
#[derive(Clone, Copy, Debug, PartialEq, Eq, Structural)]
pub struct Number {
    pub bits: u64,
}

/// A value to be computed in binary64 arithmetic.
#[derive(Clone, Copy, Debug, PartialEq, Eq, Structural)]
pub enum Calc {
    /// The sum of two numbers.
    Add(Number, Number),
    /// The first number less the second.
    Sub(Number, Number),
    /// The product of two numbers.
    Mul(Number, Number),
    /// The first number divided by the second.
    Div(Number, Number),
    /// A count, as a number.
    Count(usize),
}

/// The values that an arithmetic may give: which result it can hand back for a [`Calc`].
pub type Arithmetic = spec_fn(Calc, Number) -> bool;

/// The arithmetic of a function that computes.
pub open spec fn arithmetic_of<F: Fn(Calc) -> Number>(calc: F) -> Arithmetic {
    |c: Calc, r: Number| call_ensures(calc, (c,), r)
}

/// Whether a function computes every value it may be asked for.
pub open spec fn computes_all<F: Fn(Calc) -> Number>(calc: F) -> bool {
    forall|c: Calc| #[trigger] call_requires(calc, (c,))
}

impl Number {
    /// The number zero.
    pub open spec fn spec_zero() -> Number {
        Number { bits: ZERO_BITS }
    }

    /// The number zero.
    #[verifier::when_used_as_spec(spec_zero)]
    pub fn zero() -> (r: Number)
        ensures
            r == Number::spec_zero(),
    {
        Number { bits: ZERO_BITS }
    }

    /// The number one.
    pub open spec fn spec_one() -> Number {
        Number { bits: ONE_BITS }
    }

    /// The number one.
    #[verifier::when_used_as_spec(spec_one)]
    pub fn one() -> (r: Number)
        ensures
            r == Number::spec_one(),
    {
        Number { bits: ONE_BITS }
    }

    /// The number one hundred.
    pub open spec fn spec_hundred() -> Number {
        Number { bits: HUNDRED_BITS }
    }

    /// The number one hundred.
    #[verifier::when_used_as_spec(spec_hundred)]
    pub fn hundred() -> (r: Number)
        ensures
            r == Number::spec_hundred(),
    {
        Number { bits: HUNDRED_BITS }
    }

    /// The bits without the sign, as an integer: it grows with the absolute value.
    pub open spec fn magnitude(self) -> int {
        if self.bits >= SIGN_WEIGHT {
            self.bits - SIGN_WEIGHT
        } else {
            self.bits as int
        }
    }

    /// Whether the bits stand for no number.
    pub open spec fn is_nan(self) -> bool {
        self.magnitude() > INFINITE_MAGNITUDE
    }

    /// Whether the bits stand for a number that is not infinite.
    pub open spec fn is_finite(self) -> bool {
        self.magnitude() < INFINITE_MAGNITUDE
    }

    /// The place of a number among all numbers: the two zeros share a place.
    pub open spec fn rank(self) -> int {
        if self.bits >= SIGN_WEIGHT {
            -self.magnitude()
        } else {
            self.magnitude()
        }
    }

    /// Whether both values are numbers, and the first is the smaller.
    pub open spec fn spec_lt(self, other: Number) -> bool {
        !self.is_nan() && !other.is_nan() && self.rank() < other.rank()
    }

    /// Whether both values are numbers, and the first is not the greater.
    pub open spec fn spec_le(self, other: Number) -> bool {
        !self.is_nan() && !other.is_nan() && self.rank() <= other.rank()
    }

    fn sign_and_magnitude(self) -> (r: (bool, u64))
        ensures
            r.0 == (self.bits >= SIGN_WEIGHT),
            r.1 == self.magnitude(),
    {
        if self.bits >= SIGN_WEIGHT {
            (true, self.bits - SIGN_WEIGHT)
        } else {
            (false, self.bits)
        }
    }

    /// Whether both values are numbers, and the first is the smaller.
    #[verifier::when_used_as_spec(spec_lt)]
    pub fn lt(self, other: Number) -> (r: bool)
        ensures
            r == self.spec_lt(other),
    {
        let (a_negative, a) = self.sign_and_magnitude();
        let (b_negative, b) = other.sign_and_magnitude();
        if a > INFINITE_MAGNITUDE || b > INFINITE_MAGNITUDE {
            return false;
        }
        if a_negative {
            if b_negative {
                b < a
            } else {
                a != 0 || b != 0
            }
        } else {
            !b_negative && a < b
        }
    }

    /// Whether both values are numbers, and the first is not the greater.
    #[verifier::when_used_as_spec(spec_le)]
    pub fn le(self, other: Number) -> (r: bool)
        ensures
            r == self.spec_le(other),
    {
        let (a_negative, a) = self.sign_and_magnitude();
        let (b_negative, b) = other.sign_and_magnitude();
        if a > INFINITE_MAGNITUDE || b > INFINITE_MAGNITUDE {
            return false;
        }
        if a_negative {
            !b_negative || b <= a
        } else {
            if b_negative {
                a == 0 && b == 0
            } else {
                a <= b
            }
        }
    }

    /// The value moved into a range: the nearer end where it lies outside, else the value as it
    /// is, which leaves a value that is not a number alone.
    pub open spec fn spec_clamp(self, low: Number, high: Number) -> Number {
        if self.lt(low) {
            low
        } else if high.lt(self) {
            high
        } else {
            self
        }
    }

    /// The value moved into a range: the nearer end where it lies outside, else the value as it
    /// is, which leaves a value that is not a number alone.
    #[verifier::when_used_as_spec(spec_clamp)]
    pub fn clamp(self, low: Number, high: Number) -> (r: Number)
        requires
            low.le(high),
        ensures
            r == self.spec_clamp(low, high),
    {
        if self.lt(low) {
            low
        } else if high.lt(self) {
            high
        } else {
            self
        }
    }
}

} // verus!

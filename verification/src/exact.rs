//! The values of binary64 numbers, and calculations that come out exact.
//!
//! Every finite binary64 number is a whole multiple of the smallest one above zero. Its value is
//! taken here as that multiple, an integer, so that a calculation can be held against what it
//! would be without rounding.

use crate::number::{Arithmetic, Calc, Number};
use vstd::arithmetic::power2::{
    lemma2_to64, lemma2_to64_rest, lemma_pow2_adds, lemma_pow2_pos,
    lemma_pow2_strictly_increases, lemma_pow2_unfold, pow2,
};
use vstd::prelude::*;

verus! {

/// The weight of the lowest bit of the exponent among the bits.
pub const EXPONENT_WEIGHT: u64 = 0x10_0000_0000_0000;

/// How many times the smallest number above zero goes into one.
pub open spec fn units_in_one() -> int {
    pow2(1074) as int
}

/// How many times the smallest number above zero goes into a number of this magnitude. The
/// lowest exponent, and the one above it, stand for the smallest unit; each further one doubles
/// it. Above the lowest exponent, the fraction comes on top of a leading bit.
pub open spec fn magnitude_units(magnitude: int) -> int {
    let exponent = magnitude / EXPONENT_WEIGHT as int;
    let fraction = magnitude % EXPONENT_WEIGHT as int;
    if exponent <= 0 {
        fraction
    } else {
        (EXPONENT_WEIGHT + fraction) * pow2((exponent - 1) as nat)
    }
}

impl Number {
    /// The value of a finite number, in multiples of the smallest number above zero.
    pub open spec fn units(self) -> int {
        if self.rank() < 0 {
            -magnitude_units(self.magnitude())
        } else {
            magnitude_units(self.magnitude())
        }
    }
}

/// Whether a result is the exact value of a calculation on finite numbers.
pub open spec fn is_exact(c: Calc, r: Number) -> bool {
    r.is_finite() && match c {
        Calc::Add(a, b) => a.is_finite() && b.is_finite() && r.units() == a.units() + b.units(),
        Calc::Sub(a, b) => a.is_finite() && b.is_finite() && r.units() == a.units() - b.units(),
        Calc::Mul(a, b) => {
            &&& a.is_finite()
            &&& b.is_finite()
            &&& r.units() * units_in_one() == a.units() * b.units()
        },
        Calc::Div(a, b) => {
            &&& a.is_finite()
            &&& b.is_finite()
            &&& b.units() != 0
            &&& r.units() * b.units() == a.units() * units_in_one()
        },
        Calc::Count(n) => r.units() == n * units_in_one(),
    }
}

/// An arithmetic without the results that are not exact. What can be done with it is what is
/// done where each calculation that is made comes out exact, whatever other calculations do.
pub open spec fn exactly(arith: Arithmetic) -> Arithmetic {
    |c: Calc, r: Number| arith(c, r) && is_exact(c, r)
}

/// An arithmetic without the sums and differences that are not exact. What can be done with it
/// is what is done where each sum and difference that is made comes out exact.
pub open spec fn with_exact_sums(arith: Arithmetic) -> Arithmetic {
    |c: Calc, r: Number| arith(c, r) && (c is Add || c is Sub ==> is_exact(c, r))
}

proof fn magnitude_units_within(magnitude: int)
    requires
        0 <= magnitude,
    ensures
        ({
            let exponent = magnitude / EXPONENT_WEIGHT as int;
            &&& 0 <= magnitude_units(magnitude)
            &&& magnitude_units(magnitude) < EXPONENT_WEIGHT * pow2(exponent as nat)
            &&& exponent > 0 ==> EXPONENT_WEIGHT * pow2((exponent - 1) as nat)
                <= magnitude_units(magnitude)
        }),
{
    let weight = EXPONENT_WEIGHT as int;
    let exponent = magnitude / weight;
    let fraction = magnitude % weight;
    if exponent > 0 {
        let power = pow2((exponent - 1) as nat) as int;
        lemma_pow2_pos((exponent - 1) as nat);
        lemma_pow2_unfold(exponent as nat);
        assert(0 <= (weight + fraction) * power < weight * (2 * power) && weight * power <= (weight
            + fraction) * power) by (nonlinear_arith)
            requires
                0 <= fraction < weight,
                0 < power,
        ;
    } else {
        lemma2_to64();
    }
}

proof fn magnitude_units_grow(a: int, b: int)
    requires
        0 <= a < b,
    ensures
        magnitude_units(a) < magnitude_units(b),
{
    let weight = EXPONENT_WEIGHT as int;
    let (e, f) = (a / weight, b / weight);
    assert(e <= f) by (nonlinear_arith)
        requires
            a < b,
            weight > 0,
            e == a / weight,
            f == b / weight,
    ;
    magnitude_units_within(a);
    magnitude_units_within(b);
    if e == f {
        assert(a % weight < b % weight);
        if e > 0 {
            let power = pow2((e - 1) as nat) as int;
            lemma_pow2_pos((e - 1) as nat);
            assert((weight + a % weight) * power < (weight + b % weight) * power)
                by (nonlinear_arith)
                requires
                    a % weight < b % weight,
                    0 < power,
            ;
        }
    } else {
        if e < f - 1 {
            lemma_pow2_strictly_increases(e as nat, (f - 1) as nat);
        }
        let (low, high) = (pow2(e as nat) as int, pow2((f - 1) as nat) as int);
        assert(weight * low <= weight * high) by (nonlinear_arith)
            requires
                low <= high,
                weight > 0,
        ;
    }
}

/// The value of zero is zero.
pub proof fn zero_has_no_units()
    ensures
        Number::zero().units() == 0,
{
}

/// The value of one is as many units as go into one.
pub proof fn one_has_its_units()
    ensures
        Number::one().units() == units_in_one(),
        0 < units_in_one(),
{
    lemma2_to64_rest();
    lemma_pow2_adds(52, 1022);
    lemma_pow2_pos(1074);
    assert(Number::one().magnitude() / EXPONENT_WEIGHT as int == 1023);
    assert(Number::one().magnitude() % EXPONENT_WEIGHT as int == 0);
    assert(pow2(52) == EXPONENT_WEIGHT);
}

/// Numbers are ordered by their values.
pub proof fn values_are_in_order(a: Number, b: Number)
    requires
        a.is_finite(),
        b.is_finite(),
    ensures
        a.lt(b) <==> a.units() < b.units(),
        a.le(b) <==> a.units() <= b.units(),
{
    let (m, n) = (a.magnitude(), b.magnitude());
    magnitude_units_within(m);
    magnitude_units_within(n);
    assert(magnitude_units(0) == 0);
    if m > 0 {
        magnitude_units_grow(0, m);
    }
    if n > 0 {
        magnitude_units_grow(0, n);
    }
    if m < n {
        magnitude_units_grow(m, n);
    } else if n < m {
        magnitude_units_grow(n, m);
    }
}

/// A number other than zero is told by its value: no other one has the same.
pub proof fn values_tell_numbers_apart(a: Number, b: Number)
    requires
        a.is_finite(),
        b.is_finite(),
        a.units() == b.units(),
        a.units() != 0,
    ensures
        a == b,
{
    values_are_in_order(a, b);
    values_are_in_order(b, a);
    assert(magnitude_units(0) == 0);
    assert(a.rank() == b.rank());
    assert(a.rank() != 0);
}

} // verus!

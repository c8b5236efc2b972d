//! What the order of numbers is, told by their bits and by their values.

use crate::exact::{one_has_its_units, units_in_one, values_are_in_order, EXPONENT_WEIGHT};
use crate::number::Number;
use vstd::arithmetic::power2::{lemma2_to64, lemma2_to64_rest, lemma_pow2_adds, pow2};
use vstd::prelude::*;

verus! {

/// Numbers from zero on up to infinity are ordered as their bits are, and negative ones the other
/// way round. A negative number comes before one that is not, save that the two zeros are equal.
/// Bits beyond those of infinity, on either side, stand in no relation at all.
pub proof fn bits_tell_the_order(a: Number, b: Number, lt: bool, le: bool)
    requires
        call_ensures(Number::lt, (a, b), lt),
        call_ensures(Number::le, (a, b), le),
    ensures
        a.bits <= 0x7ff0_0000_0000_0000 && b.bits <= 0x7ff0_0000_0000_0000 ==> {
            &&& lt == (a.bits < b.bits)
            &&& le == (a.bits <= b.bits)
        },
        0x8000_0000_0000_0000 <= a.bits <= 0xfff0_0000_0000_0000 && 0x8000_0000_0000_0000 <= b.bits
            <= 0xfff0_0000_0000_0000 ==> {
            &&& lt == (b.bits < a.bits)
            &&& le == (b.bits <= a.bits)
        },
        0x8000_0000_0000_0000 <= a.bits <= 0xfff0_0000_0000_0000 && b.bits
            <= 0x7ff0_0000_0000_0000 ==> {
            &&& lt == (a.bits != 0x8000_0000_0000_0000 || b.bits != 0)
            &&& le
        },
        a.bits <= 0x7ff0_0000_0000_0000 && 0x8000_0000_0000_0000 <= b.bits
            <= 0xfff0_0000_0000_0000 ==> {
            &&& !lt
            &&& le == (a.bits == 0 && b.bits == 0x8000_0000_0000_0000)
        },
        0x7ff0_0000_0000_0000 < a.bits < 0x8000_0000_0000_0000 || 0xfff0_0000_0000_0000 < a.bits
            || 0x7ff0_0000_0000_0000 < b.bits < 0x8000_0000_0000_0000 || 0xfff0_0000_0000_0000
            < b.bits ==> !lt && !le,
{
}

/// Of two finite numbers the one with the smaller value is the smaller.
pub proof fn values_tell_the_order(a: Number, b: Number, lt: bool, le: bool)
    requires
        call_ensures(Number::lt, (a, b), lt),
        call_ensures(Number::le, (a, b), le),
        a.is_finite(),
        b.is_finite(),
    ensures
        lt == (a.units() < b.units()),
        le == (a.units() <= b.units()),
{
    values_are_in_order(a, b);
}

/// A number that is moved into a range comes to lie in it, and one that lies in it already stays.
/// One below comes to the lower end and one above to the upper. What is not a number stays as it
/// is.
pub proof fn clamped_numbers_lie_in_range(x: Number, low: Number, high: Number, r: Number)
    requires
        low.le(high),
        call_ensures(Number::clamp, (x, low, high), r),
    ensures
        low.le(x) && x.le(high) ==> r == x,
        x.lt(low) ==> r == low,
        high.lt(x) ==> r == high,
        x.le(x) ==> low.le(r) && r.le(high),
        !x.le(x) ==> r == x,
{
}

/// Zero, one and one hundred have these values.
pub proof fn constants_have_their_values(zero: Number, one: Number, hundred: Number)
    requires
        call_ensures(Number::zero, (), zero),
        call_ensures(Number::one, (), one),
        call_ensures(Number::hundred, (), hundred),
    ensures
        zero.bits == 0,
        one.units() == units_in_one(),
        hundred.units() == 100 * units_in_one(),
        zero.lt(one),
        one.lt(hundred),
{
    one_has_its_units();
    lemma2_to64_rest();
    lemma_pow2_adds(48, 1028);
    lemma_pow2_adds(2, 1074);
    lemma2_to64();
    let weight = EXPONENT_WEIGHT as int;
    assert(hundred.magnitude() / weight == 1029);
    assert(hundred.magnitude() % weight == 9 * pow2(48));
    assert(weight == 16 * pow2(48));
    let (x, y) = (pow2(48) as int, pow2(1028) as int);
    assert((16 * x + 9 * x) * y == 25 * (x * y)) by (nonlinear_arith);
    assert(pow2(1076) == 4 * pow2(1074));
}

} // verus!

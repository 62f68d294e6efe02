//! Unsigned 128-bit fixed-point arithmetic with 16 fractional bits, as done by
//! the `fixed` crate. Every value is handled here by its raw bits: the number
//! times 2^16.
use fixed::types::extra::U16;
use fixed::FixedU128;
use vstd::prelude::*;

verus! {

/// One more than the largest `u128`.
pub open spec fn two_pow_128() -> int {
    u128::MAX as int + 1
}

/// The raw bits of the fixed-point number equal to the integer `v`, wrapping
/// when `v` needs more than 112 integer bits.
pub open spec fn fx_from_int_spec(v: int) -> int {
    (v * 65536) % two_pow_128()
}

/// Saturating subtraction of raw bits: zero where `b` exceeds `a`.
pub open spec fn fx_sub_spec(a: int, b: int) -> int {
    if a >= b { a - b } else { 0 }
}

/// Saturating fixed-point product: the exact product truncated to 16
/// fractional bits, or the largest value on overflow.
pub open spec fn fx_mul_spec(a: int, b: int) -> int {
    if (a * b) / 65536 > u128::MAX as int { u128::MAX as int } else { (a * b) / 65536 }
}

/// Saturating fixed-point quotient: truncated to 16 fractional bits, or the
/// largest value on overflow.
pub open spec fn fx_div_spec(a: int, b: int) -> int
    recommends b != 0,
{
    if (a * 65536) / b > u128::MAX as int { u128::MAX as int } else { (a * 65536) / b }
}

/// The integer part of a fixed-point number given by its raw bits.
pub open spec fn fx_to_int_spec(a: int) -> int {
    a / 65536
}

/// Relies on `FixedU128::<U16>::wrapping_from_num` on a `u128`: the integer
/// shifted left by the fractional bits, wrapping on overflow.
#[verifier::external_body]
pub(crate) fn fx_from_int(v: u128) -> (r: u128)
    ensures
        r as int == fx_from_int_spec(v as int),
{
    FixedU128::<U16>::wrapping_from_num(v).to_bits()
}

/// Relies on `FixedU128::<U16>::saturating_sub`: subtraction of the bits,
/// saturating at zero.
#[verifier::external_body]
pub(crate) fn fx_saturating_sub(a: u128, b: u128) -> (r: u128)
    ensures
        r as int == fx_sub_spec(a as int, b as int),
{
    FixedU128::<U16>::from_bits(a).saturating_sub(FixedU128::<U16>::from_bits(b)).to_bits()
}

/// Relies on `FixedU128::<U16>::saturating_mul`: the 256-bit product of the
/// bits shifted right by the fractional bits, saturating at the maximum.
#[verifier::external_body]
pub(crate) fn fx_saturating_mul(a: u128, b: u128) -> (r: u128)
    ensures
        r as int == fx_mul_spec(a as int, b as int),
{
    FixedU128::<U16>::from_bits(a).saturating_mul(FixedU128::<U16>::from_bits(b)).to_bits()
}

/// Relies on `FixedU128::<U16>::saturating_div`: the bits shifted left by the
/// fractional bits and divided, saturating at the maximum. It panics on a zero
/// divisor.
#[verifier::external_body]
pub(crate) fn fx_saturating_div(a: u128, b: u128) -> (r: u128)
    requires
        b != 0,
    ensures
        r as int == fx_div_spec(a as int, b as int),
{
    FixedU128::<U16>::from_bits(a).saturating_div(FixedU128::<U16>::from_bits(b)).to_bits()
}

/// Relies on `FixedU128::<U16>::wrapping_to_num::<u128>`: the fractional bits
/// are discarded (rounding down).
#[verifier::external_body]
pub(crate) fn fx_to_int(a: u128) -> (r: u128)
    ensures
        r as int == fx_to_int_spec(a as int),
{
    FixedU128::<U16>::from_bits(a).wrapping_to_num::<u128>()
}

} // verus!

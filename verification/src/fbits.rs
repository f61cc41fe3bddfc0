//! IEEE 754 single-precision values carried as 32-bit bit patterns.
//!
//! Ordering (`<`) is defined here exactly, as integer logic over the bit
//! pattern: a number is smaller when its signed magnitude is smaller, the two
//! zeroes are equal, and a NaN compares false against everything. Addition,
//! division and integer conversion are rounding operations; their results are
//! named by uninterpreted functions and produced by trusted wrappers around a
//! software implementation of the same arithmetic.

use vstd::prelude::*;
use rustc_apfloat::Float;

verus! {

/// Bit pattern of positive infinity.
pub const F32_POS_INF_BITS: u32 = 0x7f80_0000;

/// Bit pattern of negative infinity.
pub const F32_NEG_INF_BITS: u32 = 0xff80_0000;

/// Bit pattern of positive zero.
pub const F32_ZERO_BITS: u32 = 0;

/// A NaN: exponent field all ones, non-zero mantissa.
pub open spec fn f32_is_nan(b: u32) -> bool {
    (b >> 23u32) & 0xffu32 == 0xffu32 && b & 0x007f_ffffu32 != 0u32
}

/// Magnitude: the bit pattern with the sign bit cleared.
pub open spec fn f32_mag(b: u32) -> u32 {
    b & 0x7fff_ffffu32
}

/// Whether the sign bit is set.
pub open spec fn f32_is_neg(b: u32) -> bool {
    b & 0x8000_0000u32 != 0u32
}

/// Signed-magnitude key: monotone in the represented value for every
/// non-NaN pattern, and equal for the two zeroes.
pub open spec fn f32_key(b: u32) -> int {
    if f32_is_neg(b) {
        -(f32_mag(b) as int)
    } else {
        f32_mag(b) as int
    }
}

/// The IEEE 754 `<` relation on single-precision bit patterns: false when
/// either side is NaN, otherwise the signed-magnitude order.
pub open spec fn f32_lt(a: u32, b: u32) -> bool {
    !f32_is_nan(a) && !f32_is_nan(b) && f32_key(a) < f32_key(b)
}

/// Executable IEEE 754 `<` on single-precision bit patterns.
pub fn f32_bits_lt(a: u32, b: u32) -> (r: bool)
    ensures
        r == f32_lt(a, b),
{
    let a_nan: bool = (a >> 23u32) & 0xffu32 == 0xffu32 && a & 0x007f_ffffu32 != 0u32;
    let b_nan: bool = (b >> 23u32) & 0xffu32 == 0xffu32 && b & 0x007f_ffffu32 != 0u32;
    if a_nan || b_nan {
        return false;
    }
    let a_mag: u32 = a & 0x7fff_ffffu32;
    let b_mag: u32 = b & 0x7fff_ffffu32;
    let a_neg: bool = a & 0x8000_0000u32 != 0u32;
    let b_neg: bool = b & 0x8000_0000u32 != 0u32;
    if a_neg {
        if b_neg {
            b_mag < a_mag
        } else {
            a_mag != 0 || b_mag != 0
        }
    } else {
        if b_neg {
            false
        } else {
            a_mag < b_mag
        }
    }
}

/// The correctly rounded (round to nearest, ties to even) single-precision
/// sum of the values with bit patterns `a` and `b`, as a bit pattern.
pub uninterp spec fn f32_add(a: u32, b: u32) -> u32;

/// The correctly rounded (round to nearest, ties to even) single-precision
/// quotient of the values with bit patterns `a` and `b`, as a bit pattern.
pub uninterp spec fn f32_div(a: u32, b: u32) -> u32;

/// The single-precision value nearest to the non-negative integer `n`
/// (round to nearest, ties to even), as a bit pattern.
pub uninterp spec fn f32_from_count(n: int) -> u32;

/// Relies on rustc_apfloat's `Single` addition: IEEE 754 single-precision
/// addition, rounding to nearest with ties to even, a function of the two
/// bit patterns alone.
#[verifier::external_body]
pub fn f32_add_bits(a: u32, b: u32) -> (r: u32)
    ensures
        r == f32_add(a, b),
{
    let x = rustc_apfloat::ieee::Single::from_bits(a as u128);
    let y = rustc_apfloat::ieee::Single::from_bits(b as u128);
    (x + y).value.to_bits() as u32
}

/// Relies on rustc_apfloat's `Single` division: IEEE 754 single-precision
/// division, rounding to nearest with ties to even, a function of the two
/// bit patterns alone.
#[verifier::external_body]
pub fn f32_div_bits(a: u32, b: u32) -> (r: u32)
    ensures
        r == f32_div(a, b),
{
    let x = rustc_apfloat::ieee::Single::from_bits(a as u128);
    let y = rustc_apfloat::ieee::Single::from_bits(b as u128);
    (x / y).value.to_bits() as u32
}

/// Relies on rustc_apfloat's `Single::from_u128`: conversion of an unsigned
/// integer to the nearest single-precision value (ties to even), a function
/// of the integer alone.
#[verifier::external_body]
pub fn f32_bits_from_count(n: usize) -> (r: u32)
    ensures
        r == f32_from_count(n as int),
{
    rustc_apfloat::ieee::Single::from_u128(n as u128).value.to_bits() as u32
}

} // verus!

//! IEEE 754 binary64 scalars, carried everywhere as their 64-bit patterns.
//!
//! The geometric core never needs to look inside a coordinate except to
//! compare it or flip its sign, both of which are plain bit-level facts of
//! the binary64 format and are implemented and proved here.  The rounded
//! arithmetic itself (sum, difference, product, quotient) is delegated to
//! the `rustc_apfloat` software implementation of IEEE 754 and named by
//! uninterpreted spec functions.

use vstd::prelude::*;

use rustc_apfloat::Float;
use rustc_apfloat::ieee::Double;

verus! {

/// Bit pattern of positive zero.
pub const ZERO_BITS: u64 = 0;

/// Bit pattern of one quarter.
pub const QUARTER_BITS: u64 = 0x3FD0_0000_0000_0000;

/// Bit pattern of one half.
pub const HALF_BITS: u64 = 0x3FE0_0000_0000_0000;

/// Bit pattern of one.
pub const ONE_BITS: u64 = 0x3FF0_0000_0000_0000;

/// Bit pattern of minus one.
pub const NEG_ONE_BITS: u64 = 0xBFF0_0000_0000_0000;

/// Bit pattern of two.
pub const TWO_BITS: u64 = 0x4000_0000_0000_0000;

/// Bit pattern of the quiet not-a-number value that std exposes as a constant.
pub const NAN_BITS: u64 = 0x7FF8_0000_0000_0000;

/// The sign bit of a binary64 pattern: 0 for non-negative, 1 for negative.
pub open spec fn sign_of(a: u64) -> u64 {
    a >> 63u64
}

/// The pattern with the sign bit cleared: exponent and significand together.
pub open spec fn magnitude_of(a: u64) -> u64 {
    a & 0x7FFF_FFFF_FFFF_FFFFu64
}

/// A binary64 pattern encodes a not-a-number value exactly when its
/// magnitude exceeds that of infinity (exponent all ones, significand
/// not zero).
pub open spec fn is_nan_bits(a: u64) -> bool {
    magnitude_of(a) > 0x7FF0_0000_0000_0000u64
}

/// For patterns that are not not-a-number, the encoded values are ordered
/// exactly as this signed magnitude.  Both zeros rank as 0.
pub open spec fn rank_of(a: u64) -> int {
    if sign_of(a) == 0 {
        magnitude_of(a) as int
    } else {
        -(magnitude_of(a) as int)
    }
}

/// The IEEE `<` relation on binary64 values, by bit pattern: false whenever
/// either side is not-a-number, otherwise the signed-magnitude order.
pub open spec fn lt_bits_spec(a: u64, b: u64) -> bool {
    &&& !is_nan_bits(a)
    &&& !is_nan_bits(b)
    &&& rank_of(a) < rank_of(b)
}

/// The IEEE `<=` relation on binary64 values, by bit pattern.  Both zeros
/// compare equal.
pub open spec fn le_bits_spec(a: u64, b: u64) -> bool {
    &&& !is_nan_bits(a)
    &&& !is_nan_bits(b)
    &&& rank_of(a) <= rank_of(b)
}

/// IEEE negation is exactly a flip of the sign bit.
pub open spec fn spec_neg_bits(a: u64) -> u64 {
    a ^ 0x8000_0000_0000_0000u64
}

/// The binary64 sum of the two values encoded by the arguments, rounded to
/// nearest with ties to even, as a bit pattern.
pub uninterp spec fn sum_bits(a: u64, b: u64) -> u64;

/// The binary64 difference of the two values encoded by the arguments,
/// rounded to nearest with ties to even, as a bit pattern.
pub uninterp spec fn diff_bits(a: u64, b: u64) -> u64;

/// The binary64 product of the two values encoded by the arguments, rounded
/// to nearest with ties to even, as a bit pattern.
pub uninterp spec fn prod_bits(a: u64, b: u64) -> u64;

/// The binary64 quotient of the two values encoded by the arguments, rounded
/// to nearest with ties to even, as a bit pattern.
pub uninterp spec fn quot_bits(a: u64, b: u64) -> u64;

/// Relies on `rustc_apfloat::ieee::Double`'s `Add` impl: the IEEE 754
/// binary64 sum, rounded to nearest with ties to even, of the values whose
/// bit patterns are given, returned as its bit pattern.
#[verifier::external_body]
pub(crate) fn add_bits(a: u64, b: u64) -> (r: u64)
    ensures
        r == sum_bits(a, b),
{
    (Double::from_bits(a as u128) + Double::from_bits(b as u128)).value.to_bits() as u64
}

/// Relies on `rustc_apfloat::ieee::Double`'s `Sub` impl: the IEEE 754
/// binary64 difference, rounded to nearest with ties to even, of the values
/// whose bit patterns are given, returned as its bit pattern.
#[verifier::external_body]
pub(crate) fn sub_bits(a: u64, b: u64) -> (r: u64)
    ensures
        r == diff_bits(a, b),
{
    (Double::from_bits(a as u128) - Double::from_bits(b as u128)).value.to_bits() as u64
}

/// Relies on `rustc_apfloat::ieee::Double`'s `Mul` impl: the IEEE 754
/// binary64 product, rounded to nearest with ties to even, of the values
/// whose bit patterns are given, returned as its bit pattern.
#[verifier::external_body]
pub(crate) fn mul_bits(a: u64, b: u64) -> (r: u64)
    ensures
        r == prod_bits(a, b),
{
    (Double::from_bits(a as u128) * Double::from_bits(b as u128)).value.to_bits() as u64
}

/// Relies on `rustc_apfloat::ieee::Double`'s `Div` impl: the IEEE 754
/// binary64 quotient, rounded to nearest with ties to even, of the values
/// whose bit patterns are given, returned as its bit pattern.
#[verifier::external_body]
pub(crate) fn div_bits(a: u64, b: u64) -> (r: u64)
    ensures
        r == quot_bits(a, b),
{
    (Double::from_bits(a as u128) / Double::from_bits(b as u128)).value.to_bits() as u64
}

/// Negate a binary64 value given by bit pattern.
pub(crate) fn neg_bits(a: u64) -> (r: u64)
    ensures
        r == spec_neg_bits(a),
{
    a ^ 0x8000_0000_0000_0000u64
}

/// The IEEE `<` test on two binary64 values given by bit pattern.
pub(crate) fn lt_bits(a: u64, b: u64) -> (r: bool)
    ensures
        r == lt_bits_spec(a, b),
{
    let ma: u64 = a & 0x7FFF_FFFF_FFFF_FFFFu64;
    let mb: u64 = b & 0x7FFF_FFFF_FFFF_FFFFu64;
    if ma > 0x7FF0_0000_0000_0000u64 || mb > 0x7FF0_0000_0000_0000u64 {
        return false;
    }
    let sa: u64 = a >> 63u64;
    let sb: u64 = b >> 63u64;
    proof {
        assert(a >> 63u64 == 0 || a >> 63u64 == 1) by (bit_vector);
        assert(b >> 63u64 == 0 || b >> 63u64 == 1) by (bit_vector);
    }
    if sa == 0 && sb == 0 {
        ma < mb
    } else if sa == 1 && sb == 1 {
        mb < ma
    } else if sa == 1 {
        ma != 0 || mb != 0
    } else {
        false
    }
}

/// The IEEE `<=` test on two binary64 values given by bit pattern.
pub(crate) fn le_bits(a: u64, b: u64) -> (r: bool)
    ensures
        r == le_bits_spec(a, b),
{
    let ma: u64 = a & 0x7FFF_FFFF_FFFF_FFFFu64;
    let mb: u64 = b & 0x7FFF_FFFF_FFFF_FFFFu64;
    if ma > 0x7FF0_0000_0000_0000u64 || mb > 0x7FF0_0000_0000_0000u64 {
        return false;
    }
    let sa: u64 = a >> 63u64;
    let sb: u64 = b >> 63u64;
    proof {
        assert(a >> 63u64 == 0 || a >> 63u64 == 1) by (bit_vector);
        assert(b >> 63u64 == 0 || b >> 63u64 == 1) by (bit_vector);
    }
    if sa == 0 && sb == 0 {
        ma <= mb
    } else if sa == 1 && sb == 1 {
        mb <= ma
    } else if sa == 1 {
        true
    } else {
        ma == 0 && mb == 0
    }
}

} // verus!

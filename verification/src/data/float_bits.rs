//! IEEE 754 binary64 values as raw bit patterns.
//!
//! The engine stores every floating-point cell as the `u64` bit pattern of
//! the number.  Equality and ordering of such cells are pure bit-level
//! functions of the patterns and are defined here exactly as the IEEE 754
//! comparison predicates define them: NaN compares unordered (treated as
//! equal by the engine's three-way ordering), positive and negative zero
//! compare equal, and all other values order by sign, exponent and mantissa.

use vstd::prelude::*;

use crate::data::ValueOrdering;

verus! {

/// Sign bit of a binary64 pattern.
pub const F64_SIGN_MASK: u64 = 0x8000_0000_0000_0000;

/// Exponent and mantissa bits of a binary64 pattern.
pub const F64_MAGNITUDE_MASK: u64 = 0x7FFF_FFFF_FFFF_FFFF;

/// Exponent bits of a binary64 pattern.
pub const F64_EXPONENT_MASK: u64 = 0x7FF0_0000_0000_0000;

/// Mantissa bits of a binary64 pattern.
pub const F64_MANTISSA_MASK: u64 = 0x000F_FFFF_FFFF_FFFF;

/// The bit pattern of +1.0.
pub const F64_ONE_BITS: u64 = 0x3FF0_0000_0000_0000;

/// The bit pattern of +0.0.
pub const F64_ZERO_BITS: u64 = 0x0000_0000_0000_0000;

/// The bit pattern of +2.0.
pub const F64_TWO_BITS: u64 = 0x4000_0000_0000_0000;

/// The bit pattern of positive infinity.
pub const F64_POS_INFINITY_BITS: u64 = 0x7FF0_0000_0000_0000;

/// The bit pattern of negative infinity.
pub const F64_NEG_INFINITY_BITS: u64 = 0xFFF0_0000_0000_0000;

/// Whether the pattern encodes a NaN: exponent all ones, mantissa non-zero.
pub open spec fn spec_is_nan_bits(x: u64) -> bool {
    x & F64_EXPONENT_MASK == F64_EXPONENT_MASK && x & F64_MANTISSA_MASK != 0
}

/// Whether the pattern encodes a zero (either sign).
pub open spec fn spec_is_zero_bits(x: u64) -> bool {
    x & F64_MAGNITUDE_MASK == 0
}

/// A key that orders non-NaN patterns exactly as the encoded numbers order:
/// negative values reverse their bit order, non-negative values shift above
/// them.  (The standard total-order trick for IEEE 754 patterns.)
pub open spec fn spec_total_key_bits(x: u64) -> u64 {
    if x & F64_SIGN_MASK != 0 {
        !x
    } else {
        x ^ F64_SIGN_MASK
    }
}

/// IEEE 754 equality of two patterns: false when either is NaN, true for
/// any two zeros, else exact pattern equality.
pub open spec fn spec_float_eq_bits(a: u64, b: u64) -> bool {
    if spec_is_nan_bits(a) || spec_is_nan_bits(b) {
        false
    } else if spec_is_zero_bits(a) && spec_is_zero_bits(b) {
        true
    } else {
        a == b
    }
}

/// Three-way comparison of two patterns.  NaN compares unordered with
/// everything; the engine resolves unordered to `Equal`, the same way the
/// operators resolve it when sorting.
pub open spec fn spec_float_cmp_bits(a: u64, b: u64) -> ValueOrdering {
    if spec_is_nan_bits(a) || spec_is_nan_bits(b) {
        ValueOrdering::Equal
    } else if spec_is_zero_bits(a) && spec_is_zero_bits(b) {
        ValueOrdering::Equal
    } else if a == b {
        ValueOrdering::Equal
    } else if spec_total_key_bits(a) < spec_total_key_bits(b) {
        ValueOrdering::Less
    } else {
        ValueOrdering::Greater
    }
}

/// IEEE 754 less-than on two patterns: false when either is NaN.
pub open spec fn spec_float_lt_bits(a: u64, b: u64) -> bool {
    spec_float_cmp_bits(a, b) == ValueOrdering::Less
}

/// Whether the pattern encodes a NaN.
pub fn is_nan_bits(x: u64) -> (r: bool)
    ensures
        r == spec_is_nan_bits(x),
{
    x & F64_EXPONENT_MASK == F64_EXPONENT_MASK && x & F64_MANTISSA_MASK != 0
}

/// Whether the pattern encodes a zero (either sign).
pub fn is_zero_bits(x: u64) -> (r: bool)
    ensures
        r == spec_is_zero_bits(x),
{
    x & F64_MAGNITUDE_MASK == 0
}

/// The total-order key of a pattern; see [`spec_total_key_bits`].
pub fn total_key_bits(x: u64) -> (r: u64)
    ensures
        r == spec_total_key_bits(x),
{
    if x & F64_SIGN_MASK != 0 {
        !x
    } else {
        x ^ F64_SIGN_MASK
    }
}

/// IEEE 754 equality of two patterns; agrees with [`spec_float_eq_bits`].
pub fn float_eq_bits(a: u64, b: u64) -> (r: bool)
    ensures
        r == spec_float_eq_bits(a, b),
{
    if is_nan_bits(a) || is_nan_bits(b) {
        false
    } else if is_zero_bits(a) && is_zero_bits(b) {
        true
    } else {
        a == b
    }
}

/// Three-way comparison of two patterns; agrees with [`spec_float_cmp_bits`].
pub fn float_cmp_bits(a: u64, b: u64) -> (r: ValueOrdering)
    ensures
        r == spec_float_cmp_bits(a, b),
{
    if is_nan_bits(a) || is_nan_bits(b) {
        ValueOrdering::Equal
    } else if is_zero_bits(a) && is_zero_bits(b) {
        ValueOrdering::Equal
    } else if a == b {
        ValueOrdering::Equal
    } else if total_key_bits(a) < total_key_bits(b) {
        ValueOrdering::Less
    } else {
        ValueOrdering::Greater
    }
}

/// IEEE 754 less-than on two patterns; agrees with [`spec_float_lt_bits`].
pub fn float_lt_bits(a: u64, b: u64) -> (r: bool)
    ensures
        r == spec_float_lt_bits(a, b),
{
    match float_cmp_bits(a, b) {
        ValueOrdering::Less => true,
        _ => false,
    }
}

} // verus!

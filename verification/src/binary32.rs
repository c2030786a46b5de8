//! Predicates over IEEE 754 binary32 encodings.
//!
//! Values that the toolkit stores as single-precision floating point numbers
//! are kept here as their 32-bit encodings (`f32::to_bits`). Every decision the
//! library makes about them (finiteness, sign, order against constants) is an
//! exact statement about the encoding, so no rounding is involved.

use vstd::prelude::*;

verus! {

/// Encoding of the sign bit.
pub const SIGN_BIT: u32 = 0x8000_0000;

/// Encoding of positive infinity; every larger magnitude is a NaN.
pub const POSITIVE_INFINITY_BITS: u32 = 0x7F80_0000;

/// Encoding of `0.1_f32`.
pub const RATIO_MIN_BITS: u32 = 0x3DCC_CCCD;

/// Encoding of `0.9_f32`.
pub const RATIO_MAX_BITS: u32 = 0x3F66_6666;

/// Encoding of `0.5_f32`.
pub const RATIO_HALF_BITS: u32 = 0x3F00_0000;

/// The magnitude part of an encoding (the encoding with its sign cleared).
pub open spec fn magnitude(bits: u32) -> int {
    if bits >= SIGN_BIT {
        bits - SIGN_BIT
    } else {
        bits as int
    }
}

/// The encoded value is neither infinite nor NaN.
pub open spec fn is_finite(bits: u32) -> bool {
    magnitude(bits) < POSITIVE_INFINITY_BITS
}

/// The encoded value compares greater than or equal to `0.0`.
///
/// This holds for `+0.0`, `-0.0` and every positive non-NaN value.
pub open spec fn is_at_least_zero(bits: u32) -> bool {
    bits <= POSITIVE_INFINITY_BITS || bits == SIGN_BIT
}

/// The encoded value is finite and lies in the inclusive range `0.1..=0.9`.
///
/// For finite non-negative values the order of encodings is the order of the
/// values, and every negative or non-finite encoding lies outside the range.
pub open spec fn is_normalized_ratio(bits: u32) -> bool {
    RATIO_MIN_BITS <= bits <= RATIO_MAX_BITS
}

/// A split ratio after normalization: non-finite values become `0.5`, and
/// finite values are clamped into `0.1..=0.9`.
pub open spec fn normalized_ratio(bits: u32) -> u32 {
    if !is_finite(bits) {
        RATIO_HALF_BITS
    } else if bits >= SIGN_BIT || bits < RATIO_MIN_BITS {
        RATIO_MIN_BITS
    } else if bits > RATIO_MAX_BITS {
        RATIO_MAX_BITS
    } else {
        bits
    }
}

/// Returns whether the encoded value is finite.
pub fn bits_are_finite(bits: u32) -> (r: bool)
    ensures
        r == is_finite(bits),
{
    if bits >= SIGN_BIT {
        bits - SIGN_BIT < POSITIVE_INFINITY_BITS
    } else {
        bits < POSITIVE_INFINITY_BITS
    }
}

/// Returns whether the encoded value compares greater than or equal to zero.
pub fn bits_are_at_least_zero(bits: u32) -> (r: bool)
    ensures
        r == is_at_least_zero(bits),
{
    bits <= POSITIVE_INFINITY_BITS || bits == SIGN_BIT
}

/// Normalizes an encoded split ratio: a non-finite ratio becomes `0.5`, and a
/// finite one is clamped into `0.1..=0.9`.
pub fn normalize_ratio(ratio: u32) -> (r: u32)
    ensures
        r == normalized_ratio(ratio),
        is_normalized_ratio(r),
{
    if !bits_are_finite(ratio) {
        RATIO_HALF_BITS
    } else if ratio >= SIGN_BIT || ratio < RATIO_MIN_BITS {
        RATIO_MIN_BITS
    } else if ratio > RATIO_MAX_BITS {
        RATIO_MAX_BITS
    } else {
        ratio
    }
}

/// Normalization leaves a ratio that is already in range unchanged, and
/// normalizing twice is the same as normalizing once.
pub proof fn lemma_normalize_ratio_idempotent(ratio: u32)
    ensures
        is_normalized_ratio(ratio) ==> normalized_ratio(ratio) == ratio,
        normalized_ratio(normalized_ratio(ratio)) == normalized_ratio(ratio),
{
}

} // verus!

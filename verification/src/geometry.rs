//! Validation of sizes and layout constraints.
//!
//! A size's extents are single-precision values, held here by their binary32
//! encodings (see [`crate::binary32`]). Sizes never hold a negative or NaN
//! extent, and for encodings of values at least zero the order of the values
//! is the order of their magnitudes (`+0.0` and `-0.0` both have magnitude
//! zero), so every comparison below is exact.

use vstd::prelude::*;

use crate::binary32::{is_at_least_zero, is_finite, magnitude, POSITIVE_INFINITY_BITS, SIGN_BIT};

verus! {

/// Why a size constructor rejected an extent.
#[derive(Clone, Copy, Debug, PartialEq, Eq, Structural)]
pub enum SizeError {
    /// The width was negative or NaN.
    InvalidWidth,
    /// The height was negative or NaN.
    InvalidHeight,
}

impl SizeError {
    /// Returns a human-readable description of the error.
    pub fn describe(&self) -> (r: &'static str)
        ensures
            r@ == (match *self {
                SizeError::InvalidWidth => "size width must be non-negative and not NaN"@,
                SizeError::InvalidHeight => "size height must be non-negative and not NaN"@,
            }),
    {
        match self {
            SizeError::InvalidWidth => "size width must be non-negative and not NaN",
            SizeError::InvalidHeight => "size height must be non-negative and not NaN",
        }
    }
}

/// Why a constraints constructor rejected its bounds.
#[derive(Clone, Copy, Debug, PartialEq, Eq, Structural)]
pub enum ConstraintError {
    /// A minimum dimension was infinite.
    InvalidMinimum,
    /// A minimum dimension was greater than its corresponding maximum.
    MinimumExceedsMaximum,
}

impl ConstraintError {
    /// Returns a human-readable description of the error.
    pub fn describe(&self) -> (r: &'static str)
        ensures
            r@ == (match *self {
                ConstraintError::InvalidMinimum => "constraint minima must be finite"@,
                ConstraintError::MinimumExceedsMaximum => "constraint minimum cannot exceed maximum"@,
            }),
    {
        match self {
            ConstraintError::InvalidMinimum => "constraint minima must be finite",
            ConstraintError::MinimumExceedsMaximum => "constraint minimum cannot exceed maximum",
        }
    }
}

/// What a size constructor answers for the encoded extents: the width is
/// checked first, and an extent is rejected when it is negative or NaN.
pub open spec fn size_outcome(width: u32, height: u32) -> Result<(), SizeError> {
    if !is_at_least_zero(width) {
        Err(SizeError::InvalidWidth)
    } else if !is_at_least_zero(height) {
        Err(SizeError::InvalidHeight)
    } else {
        Ok(())
    }
}

/// Checks the encoded extents of a size.
pub fn validate_size(width: u32, height: u32) -> (r: Result<(), SizeError>)
    ensures
        r == size_outcome(width, height),
{
    if !(width <= POSITIVE_INFINITY_BITS || width == SIGN_BIT) {
        Err(SizeError::InvalidWidth)
    } else if !(height <= POSITIVE_INFINITY_BITS || height == SIGN_BIT) {
        Err(SizeError::InvalidHeight)
    } else {
        Ok(())
    }
}

/// Every extent of a validated size: at least zero and not NaN.
pub open spec fn valid_extent(bits: u32) -> bool {
    is_at_least_zero(bits)
}

/// What a constraints constructor answers for a minimum and a maximum size:
/// an infinite minimum is rejected first, then a minimum above its maximum.
pub open spec fn constraints_outcome(
    min_width: u32,
    min_height: u32,
    max_width: u32,
    max_height: u32,
) -> Result<(), ConstraintError> {
    if !is_finite(min_width) || !is_finite(min_height) {
        Err(ConstraintError::InvalidMinimum)
    } else if magnitude(min_width) > magnitude(max_width) || magnitude(min_height) > magnitude(
        max_height,
    ) {
        Err(ConstraintError::MinimumExceedsMaximum)
    } else {
        Ok(())
    }
}

/// The magnitude of an encoding, computed.
fn magnitude_of(bits: u32) -> (r: u32)
    ensures
        r == magnitude(bits),
{
    if bits >= SIGN_BIT {
        bits - SIGN_BIT
    } else {
        bits
    }
}

/// Checks a minimum and a maximum size, given by their encoded extents.
pub fn validate_constraints(min_width: u32, min_height: u32, max_width: u32, max_height: u32) -> (r:
    Result<(), ConstraintError>)
    requires
        valid_extent(min_width),
        valid_extent(min_height),
        valid_extent(max_width),
        valid_extent(max_height),
    ensures
        r == constraints_outcome(min_width, min_height, max_width, max_height),
{
    let min_w = magnitude_of(min_width);
    let min_h = magnitude_of(min_height);
    if min_w >= POSITIVE_INFINITY_BITS || min_h >= POSITIVE_INFINITY_BITS {
        Err(ConstraintError::InvalidMinimum)
    } else if min_w > magnitude_of(max_width) || min_h > magnitude_of(max_height) {
        Err(ConstraintError::MinimumExceedsMaximum)
    } else {
        Ok(())
    }
}

/// The extent `value` clamped into `min..=max`: below the minimum it becomes
/// the minimum, above the maximum the maximum, and otherwise stays as it is.
pub open spec fn clamped_extent(value: u32, min: u32, max: u32) -> u32 {
    if magnitude(value) < magnitude(min) {
        min
    } else if magnitude(value) > magnitude(max) {
        max
    } else {
        value
    }
}

/// Whether the extent `value` lies in `min..=max`.
pub open spec fn extent_in_range(value: u32, min: u32, max: u32) -> bool {
    magnitude(min) <= magnitude(value) <= magnitude(max)
}

/// Clamps an encoded extent into the inclusive range between two others.
pub fn clamp_extent(value: u32, min: u32, max: u32) -> (r: u32)
    requires
        valid_extent(value),
        valid_extent(min),
        valid_extent(max),
        magnitude(min) <= magnitude(max),
    ensures
        r == clamped_extent(value, min, max),
{
    let v = magnitude_of(value);
    if v < magnitude_of(min) {
        min
    } else if v > magnitude_of(max) {
        max
    } else {
        value
    }
}

/// Returns whether an encoded extent lies in the inclusive range between two
/// others.
pub fn extent_within(value: u32, min: u32, max: u32) -> (r: bool)
    requires
        valid_extent(value),
        valid_extent(min),
        valid_extent(max),
    ensures
        r == extent_in_range(value, min, max),
{
    let v = magnitude_of(value);
    magnitude_of(min) <= v && v <= magnitude_of(max)
}

/// Constraints that were accepted keep each minimum finite and at most its
/// maximum; clamping into such a range lands inside it, and leaves an extent
/// that already lies inside unchanged.
pub proof fn law_constraints_bound_what_they_constrain(
    min_width: u32,
    min_height: u32,
    max_width: u32,
    max_height: u32,
    width: u32,
    height: u32,
)
    requires
        valid_extent(min_width),
        valid_extent(min_height),
        valid_extent(max_width),
        valid_extent(max_height),
        valid_extent(width),
        valid_extent(height),
        constraints_outcome(min_width, min_height, max_width, max_height) is Ok,
    ensures
        is_finite(min_width) && is_finite(min_height),
        magnitude(min_width) <= magnitude(max_width),
        magnitude(min_height) <= magnitude(max_height),
        extent_in_range(clamped_extent(width, min_width, max_width), min_width, max_width),
        extent_in_range(clamped_extent(height, min_height, max_height), min_height, max_height),
        extent_in_range(width, min_width, max_width) ==> clamped_extent(width, min_width, max_width)
            == width,
        extent_in_range(height, min_height, max_height) ==> clamped_extent(
            height,
            min_height,
            max_height,
        ) == height,
{
}

} // verus!

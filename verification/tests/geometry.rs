use torn::geometry::{clamp_extent, extent_within, validate_constraints, validate_size};
use torn::{ConstraintError, SizeError};

fn bits(value: f32) -> u32 {
    value.to_bits()
}

#[test]
fn size_rejects_negative_and_nan_extents() {
    assert_eq!(validate_size(bits(-1.0), bits(0.0)), Err(SizeError::InvalidWidth));
    assert_eq!(validate_size(bits(0.0), bits(f32::NAN)), Err(SizeError::InvalidHeight));
}

#[test]
fn size_accepts_zero_negative_zero_and_infinity() {
    assert_eq!(validate_size(bits(0.0), bits(-0.0)), Ok(()));
    assert_eq!(validate_size(bits(f32::INFINITY), bits(12.5)), Ok(()));
    assert_eq!(validate_size(bits(f32::NEG_INFINITY), bits(1.0)), Err(SizeError::InvalidWidth));
    assert_eq!(validate_size(bits(-0.5), bits(-0.5)), Err(SizeError::InvalidWidth));
}

#[test]
fn accepts_unbounded_axes_and_preserves_bounds() {
    let (min_w, min_h) = (bits(10.0), bits(20.0));
    let (max_w, max_h) = (bits(f32::INFINITY), bits(100.0));
    assert_eq!(validate_constraints(min_w, min_h, max_w, max_h), Ok(()));
    assert_eq!(clamp_extent(bits(5.0), min_w, max_w), bits(10.0));
    assert_eq!(clamp_extent(bits(120.0), min_h, max_h), bits(100.0));
}

#[test]
fn rejects_infinite_or_reversed_minima() {
    assert_eq!(
        validate_constraints(bits(f32::INFINITY), bits(0.0), bits(f32::INFINITY), bits(1.0)),
        Err(ConstraintError::InvalidMinimum)
    );
    assert_eq!(
        validate_constraints(bits(2.0), bits(0.0), bits(1.0), bits(1.0)),
        Err(ConstraintError::MinimumExceedsMaximum)
    );
}

#[test]
fn negative_zero_counts_as_zero_in_comparisons() {
    assert_eq!(validate_constraints(bits(0.0), bits(-0.0), bits(-0.0), bits(0.0)), Ok(()));
    assert!(extent_within(bits(-0.0), bits(0.0), bits(0.0)));
    assert_eq!(clamp_extent(bits(-0.0), bits(0.0), bits(3.0)), bits(-0.0));
}

#[test]
fn clamped_extents_lie_within_their_bounds() {
    let (min, max) = (bits(2.0), bits(8.0));
    for value in [0.0_f32, 1.5, 2.0, 5.0, 8.0, 9.0, f32::INFINITY] {
        let clamped = clamp_extent(bits(value), min, max);
        assert!(extent_within(clamped, min, max));
        if extent_within(bits(value), min, max) {
            assert_eq!(clamped, bits(value));
        }
    }
    assert!(!extent_within(bits(1.0), min, max));
    assert!(extent_within(bits(8.0), min, max));
}

#[test]
fn errors_describe_themselves() {
    assert_eq!(SizeError::InvalidHeight.describe(), "size height must be non-negative and not NaN");
    assert_eq!(ConstraintError::InvalidMinimum.describe(), "constraint minima must be finite");
}

use nowayprompt::frontend::wayland::scale::{compute_effective_scale, Scale, ScaleMode};

#[test]
fn integer_physical_dim_is_exact_product() {
    assert_eq!(Scale::Integer(2).physical_dim(200).unwrap(), 400);
    assert_eq!(Scale::one().physical_dim(200).unwrap(), 200);
}

#[test]
fn fractional_physical_dim_rounds_up() {
    assert_eq!(Scale::Fractional(180).physical_dim(200).unwrap(), 300);
    assert_eq!(Scale::Fractional(150).physical_dim(101).unwrap(), 127);
    assert_eq!(Scale::Fractional(120).physical_dim(100).unwrap(), 100);
}

#[test]
fn physical_size_rounds_each_extent() {
    let (w, h) = Scale::Fractional(150).physical_size(101, 50).unwrap();
    assert_eq!((w, h), (127, 63));
}

#[test]
fn overflow_rejected() {
    assert!(Scale::Integer(2).physical_dim(u32::MAX).is_err());
    assert!(Scale::Fractional(u32::MAX).physical_dim(u32::MAX).is_err());
}

#[test]
fn zero_logical_rejected() {
    assert!(Scale::Integer(1).physical_dim(0).is_err());
    assert!(Scale::Fractional(120).physical_dim(0).is_err());
}

#[test]
fn effective_integer_scale_exact() {
    assert_eq!(compute_effective_scale(false, None, &[1]), Scale::Integer(1));
    assert_eq!(compute_effective_scale(false, None, &[2]), Scale::Integer(2));
}

#[test]
fn effective_fractional_ceil_semantics() {
    assert_eq!(
        compute_effective_scale(true, Some(150), &[1]),
        Scale::Fractional(150)
    );
    assert_eq!(
        compute_effective_scale(true, Some(180), &[1, 2]),
        Scale::Fractional(180)
    );
}

#[test]
fn effective_integer_fallback_default_one() {
    assert_eq!(compute_effective_scale(false, None, &[]), Scale::Integer(1));
    assert_eq!(compute_effective_scale(false, None, &[0, 0]), Scale::Integer(1));
}

#[test]
fn effective_integer_fallback_highest() {
    assert_eq!(compute_effective_scale(false, None, &[1, 2]), Scale::Integer(2));
    assert_eq!(compute_effective_scale(false, None, &[3, 1, 2]), Scale::Integer(3));
    assert_eq!(compute_effective_scale(false, None, &[0, 2, 0]), Scale::Integer(2));
}

#[test]
fn effective_fractional_precedence_over_integer() {
    assert_eq!(
        compute_effective_scale(true, Some(180), &[1, 2]),
        Scale::Fractional(180)
    );
    assert_eq!(
        compute_effective_scale(true, Some(150), &[2]),
        Scale::Fractional(150)
    );
}

#[test]
fn effective_fractional_ignored_when_not_enabled() {
    assert_eq!(
        compute_effective_scale(false, Some(180), &[1, 2]),
        Scale::Integer(2)
    );
    assert_eq!(compute_effective_scale(false, None, &[2]), Scale::Integer(2));
}

#[test]
fn effective_fractional_no_preferred_falls_back_to_integer() {
    assert_eq!(compute_effective_scale(true, None, &[1, 2]), Scale::Integer(2));
    assert_eq!(compute_effective_scale(true, None, &[]), Scale::Integer(1));
}

#[test]
fn effective_scale_enter_leave() {
    assert_eq!(compute_effective_scale(false, None, &[2]), Scale::Integer(2));
    assert_eq!(compute_effective_scale(false, None, &[1]), Scale::Integer(1));
}

#[test]
fn effective_scale_multi_output_then_removal() {
    assert_eq!(compute_effective_scale(false, None, &[1, 2]), Scale::Integer(2));
    assert_eq!(compute_effective_scale(false, None, &[1]), Scale::Integer(1));
}

#[test]
fn physical_dim_overflow_rejected() {
    assert!(Scale::Integer(2).physical_dim(u32::MAX).is_err());
    assert!(Scale::Fractional(120).physical_dim(u32::MAX).is_err());
    assert!(Scale::Integer(2).physical_size(1, u32::MAX).is_err());
}

#[test]
fn physical_dim_exact_boundary_no_overflow() {
    assert_eq!(Scale::Integer(1).physical_dim(u32::MAX).unwrap(), u32::MAX);
    assert_eq!(
        Scale::one().physical_size(u32::MAX, 1).unwrap(),
        (u32::MAX, 1)
    );
}

// --- further cases ---

#[test]
fn scale_accessors() {
    assert_eq!(Scale::Integer(2).mode(), ScaleMode::Integer);
    assert_eq!(Scale::Integer(2).numerator(), 2);
    assert_eq!(Scale::Integer(2).denominator(), 1);
    assert_eq!(Scale::Fractional(180).mode(), ScaleMode::Fractional);
    assert_eq!(Scale::Fractional(180).numerator(), 180);
    assert_eq!(Scale::Fractional(180).denominator(), 120);
}

use systema::prelude::{Attribute, clamp};

#[test]
fn test_clamp_within_range() {
    assert_eq!(clamp(5, 1, 10), 5);
}

#[test]
fn test_clamp_below_min() {
    assert_eq!(clamp(0, 1, 10), 1);
}

#[test]
fn test_clamp_above_max() {
    assert_eq!(clamp(15, 1, 10), 10);
}

#[test]
fn test_clamp_float_nan() {
    let nan: f32 = f32::NAN;
    assert_eq!(1.0, clamp(nan, 1.0, 10.0));
}

#[test]
fn test_attribute_default_value() {
    let attr_value = Attribute::Value(42);
    assert_eq!(attr_value.default_value(), 42);

    let attr_ranged = Attribute::Ranged(5, 1, 10);
    assert_eq!(attr_ranged.default_value(), 5);

    let attr_derived: Attribute = Attribute::Derived;
    assert_eq!(attr_derived.default_value(), 0);
}

#[test]
fn test_attribute_sanitize_value() {
    let attr_value = Attribute::Value(42);
    assert_eq!(attr_value.sanitize_value(50), 50);

    let attr_ranged = Attribute::Ranged(5, 1, 10);
    assert_eq!(attr_ranged.sanitize_value(0), 1);
    assert_eq!(attr_ranged.sanitize_value(7), 7);
    assert_eq!(attr_ranged.sanitize_value(15), 10);

    let attr_derived = Attribute::Derived;
    assert_eq!(attr_derived.sanitize_value(99), 99);
}

#[test]
fn ranged_clamps_both_sides() {
    let attr = Attribute::Ranged(5, 1, 10);
    assert_eq!(attr.sanitize_value(15), 10);
    assert_eq!(attr.sanitize_value(-3), 1);
    assert_eq!(attr.sanitize_value(1), 1);
    assert_eq!(attr.sanitize_value(10), 10);
    assert_eq!(attr.sanitize_value(i64::MIN), 1);
    assert_eq!(attr.sanitize_value(i64::MAX), 10);
}

#[test]
fn clamp_nan_with_other_bounds_takes_min() {
    assert_eq!(clamp(f64::NAN, -2.5, 3.0), -2.5);
    assert_eq!(clamp(4.0f64, -2.5, 3.0), 3.0);
    assert_eq!(clamp(-4.0f64, -2.5, 3.0), -2.5);
}

#[test]
fn clamp_at_bounds_keeps_value() {
    assert_eq!(clamp(1, 1, 10), 1);
    assert_eq!(clamp(10, 1, 10), 10);
}

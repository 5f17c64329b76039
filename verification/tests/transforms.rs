//! The affine transform stack and its explicit inverse failures.

use rusty_map_view::util::transform_stack::TransformError;
use rusty_map_view::util::transform_stack::TransformStack;

#[test]
fn translations_round_trip_exactly() {
    let mut t = TransformStack::new();
    t.translate(1234, -567);
    assert_eq!(t.transform(10, 20), (1244, -547));
    assert_eq!(t.inv_transform(1244, -547), Ok((10, 20)));
}

#[test]
fn quarter_turns_round_trip_exactly() {
    let mut t = TransformStack::new();
    t.rotate(0, 1000);
    assert_eq!(t.transform(10, 20), (-20, 10));
    assert_eq!(t.inv_transform(-20, 10), Ok((10, 20)));
    t.rotate(0, 1000);
    // two quarter turns are a half turn
    assert_eq!(t.transform(10, 20), (-10, -20));
    assert_eq!(t.inv_transform(-10, -20), Ok((10, 20)));
}

#[test]
fn mixed_rigid_sequences_round_trip() {
    let mut t = TransformStack::new();
    t.push();
    t.translate(5000, -3000);
    t.rotate(0, -1000);
    t.translate(-40, 7);
    for p in [(0i64, 0i64), (123, -456), (999_999, 31)] {
        let f = t.transform(p.0, p.1);
        assert_eq!(t.inv_transform(f.0, f.1), Ok(p));
    }
}

#[test]
fn fractional_scale_rounds_and_does_not_round_trip() {
    // a half scale loses the low bit: the inverse lands on the rounded spot
    let mut t = TransformStack::new();
    t.scale(500, 500);
    assert_eq!(t.transform(3, 0), (1, 0));
    assert_eq!(t.inv_transform(1, 0), Ok((2, 0)));
}

#[test]
fn integer_scale_round_trips_on_its_grid() {
    let mut t = TransformStack::new();
    t.scale(2000, 3000);
    assert_eq!(t.transform(7, -5), (14, -15));
    assert_eq!(t.inv_transform(14, -15), Ok((7, -5)));
}

#[test]
fn degenerate_scale_fails_the_inverse_explicitly() {
    let mut t = TransformStack::new();
    t.scale(0, 0);
    assert_eq!(t.transform(10, 20), (0, 0));
    assert_eq!(t.inv_transform(0, 0), Err(TransformError::DegenerateTransform));
}

#[test]
fn push_and_pop_restore_the_previous_frame() {
    let mut t = TransformStack::new();
    t.translate(100, 200);
    t.push();
    t.translate(1000, 1000);
    assert_eq!(t.transform(0, 0), (1100, 1200));
    t.pop();
    assert_eq!(t.transform(0, 0), (100, 200));
}

#[test]
fn transform_int_truncates_toward_zero() {
    let mut t = TransformStack::new();
    t.translate(1499, -1499);
    // milli-unit results round toward zero, as an integer cast does
    assert_eq!(t.transform_int(0, 0), (1, -1));
    assert_eq!(t.inv_transform_int(1499, -1499), Ok((0, 0)));
    assert_eq!(t.inv_transform_int(0, 0), Ok((-1, 1)));
}

#[test]
fn default_is_the_identity_stack() {
    let t = TransformStack::default();
    assert_eq!(t.transform(42, -7), (42, -7));
}

#[test]
fn scaled_round_trips_stay_within_one_scaled_step() {
    let mut t = TransformStack::new();
    t.scale(1500, 2500);
    assert_eq!(t.transform(7, 9), (10, 22));
    // each axis comes back within (scale + 1000) / scale milli-units
    assert_eq!(t.inv_transform(10, 22), Ok((6, 8)));
}

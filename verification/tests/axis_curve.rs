//! Settings of axes: what they do to a value.

use winctrl_config::axis_curve::{rotate_pair, CurveData, CurveType};

const MIN: i32 = 0;
const MAX: i32 = 4095;

/// A result of the curve that must not be asked for.
const UNASKED: i32 = -7;

#[test]
fn default_is_identity() {
    let c = CurveData::default();
    assert!(c.is_identity());
    for &v in &[0, 1, 1000, 2048, 4095] {
        assert_eq!(c.apply(v, MIN, MAX, UNASKED), v);
    }
}

#[test]
fn reverse_flips_endpoints_and_midpoint() {
    let c = CurveData {
        is_reversed: true,
        ..Default::default()
    };
    assert!(!c.is_identity());
    assert_eq!(c.apply(MIN, MIN, MAX, UNASKED), MAX);
    assert_eq!(c.apply(MAX, MIN, MAX, UNASKED), MIN);
    assert_eq!(c.apply(2048, MIN, MAX, UNASKED), 4095 - 2048);
}

#[test]
fn reverse_is_monotone_decreasing() {
    let c = CurveData {
        is_reversed: true,
        ..Default::default()
    };
    let mut prev = c.apply(MIN, MIN, MAX, UNASKED);
    for v in (0..=4095).step_by(37) {
        let out = c.apply(v, MIN, MAX, UNASKED);
        assert!(out <= prev + 1, "doit décroître : {v} -> {out} (prev {prev})");
        prev = out;
    }
}

#[test]
fn out_of_range_config_does_not_panic() {
    let c = CurveData {
        lower: 200,
        upper: 200,
        center_lower: 99,
        center_upper: 99,
        curve: 127,
        zoom: 127,
        ..Default::default()
    };
    for v in [MIN, 2048, MAX] {
        for curved in [i32::MIN, -1, 2048, MAX + 1, i32::MAX] {
            let out = c.apply(v, MIN, MAX, curved);
            assert!((MIN..=MAX).contains(&out));
        }
    }
    let b = c.bounded();
    assert_eq!((b.lower, b.upper, b.center_lower, b.center_upper), (50, 50, 50, 50));
    assert_eq!((b.curve, b.zoom), (18, 10));
}

#[test]
fn degenerate_axis_returns_raw() {
    let c = CurveData {
        is_reversed: true,
        ..Default::default()
    };
    assert_eq!(c.apply(1234, 5, 5, UNASKED), 1234);
}

#[test]
fn control_point_default_is_identity() {
    assert!(CurveData::default().is_identity());
    let c = CurveData {
        x_pos: 50,
        y_pos: 50,
        ..Default::default()
    };
    assert!(c.is_identity());
    for v in (0..=4096).step_by(64) {
        assert_eq!(c.apply(v, 0, 4096, UNASKED), v);
    }
}

#[test]
fn rotate_zero_is_identity() {
    assert_eq!(rotate_pair(100, 0, 200, 40, 0, 200, 0, (1, 1)), (100, 40));
}

#[test]
fn rotate_stays_bounded() {
    let (mn, mx) = (-1000, 1000);
    for &ang in &[-25, -10, 10, 25] {
        for &x in &[mn, -300, 0, 500, mx] {
            for &y in &[mn, 0, mx] {
                for turned in [(x, y), (i32::MIN, i32::MAX), (1001, -1001)] {
                    let (a, b) = rotate_pair(x, mn, mx, y, mn, mx, ang, turned);
                    assert!((mn..=mx).contains(&a) && (mn..=mx).contains(&b));
                }
            }
        }
    }
    assert_eq!(rotate_pair(0, mn, mx, 0, mn, mx, 5, (3, 4)), (3, 4));
}

#[test]
fn rotate_degenerate_axis_returns_raw() {
    assert_eq!(rotate_pair(5, 10, 10, 7, 0, 100, 20, (1, 1)), (5, 7));
}

#[test]
fn inverting_twice_gives_the_value_back() {
    let c = CurveData { is_reversed: true, ..Default::default() };
    for v in [-100, -3, 0, 99, 100] {
        let once = c.apply(v, -100, 100, UNASKED);
        assert_eq!(c.apply(once, -100, 100, UNASKED), v);
    }
    assert_eq!(c.apply(i32::MIN, i32::MIN, i32::MAX, 0), i32::MAX);
}

#[test]
fn a_computed_value_is_taken_when_the_axis_is_bent() {
    let c = CurveData { zoom: 1, ..Default::default() };
    assert_eq!(c.apply(10, 0, 100, 42), 42);
    assert_eq!(c.apply(10, 0, 100, 142), 100);
    assert!(!c.is_straight() && !c.is_identity());
}

#[test]
fn labels_of_shapes() {
    assert_eq!(CurveType::from_label("J"), CurveType::J);
    assert_eq!(CurveType::from_label("j"), CurveType::S);
    assert_eq!(CurveType::from_label(CurveType::S.as_str()), CurveType::S);
    assert!(CurveData { rotate: 1, rotate_group: 2, ..Default::default() }.has_rotation());
    assert!(!CurveData { rotate: 1, ..Default::default() }.has_rotation());
}

use arcade_core::math::{clamp, floor_div, saturate, scale, UNIT};
use arcade_core::trig::{cos_degrees, sin_degrees, CIRCLE_SLACK};

#[test]
fn unit_is_ten_thousand() {
    assert_eq!(UNIT, 10_000);
}

#[test]
fn saturate_keeps_values_in_range() {
    assert_eq!(saturate(0), 0);
    assert_eq!(saturate(-42), -42);
    assert_eq!(saturate(i64::MAX as i128), i64::MAX);
    assert_eq!(saturate(i64::MIN as i128), i64::MIN);
}

#[test]
fn saturate_sticks_to_the_bound_it_crosses() {
    assert_eq!(saturate(i64::MAX as i128 + 1), i64::MAX);
    assert_eq!(saturate(i64::MIN as i128 - 1), i64::MIN);
    assert_eq!(saturate(i128::MAX), i64::MAX);
    assert_eq!(saturate(i128::MIN), i64::MIN);
}

#[test]
fn floor_div_rounds_toward_negative_infinity() {
    assert_eq!(floor_div(7, 2), 3);
    assert_eq!(floor_div(-7, 2), -4);
    assert_eq!(floor_div(-8, 2), -4);
    assert_eq!(floor_div(-1, 10_000), -1);
    assert_eq!(floor_div(0, 3), 0);
    assert_eq!(floor_div(9_999, 10_000), 0);
    assert_eq!(floor_div(-10_000, 10_000), -1);
    assert_eq!(floor_div(-10_001, 10_000), -2);
}

#[test]
fn scale_multiplies_by_a_fixed_point_factor() {
    assert_eq!(scale(30_000, 5_000), 15_000);
    assert_eq!(scale(-20_000, 5_000), -10_000);
    assert_eq!(scale(5_000_000, 5), 2_500);
    assert_eq!(scale(123, UNIT), 123);
    assert_eq!(scale(123, 0), 0);
}

#[test]
fn scale_rounds_down() {
    assert_eq!(scale(1, 5_000), 0);
    assert_eq!(scale(-1, 5_000), -1);
    assert_eq!(scale(3, 5_000), 1);
    assert_eq!(scale(-3, 5_000), -2);
}

#[test]
fn scale_of_extremes_fits_the_wide_type() {
    let big = scale(i64::MIN, i64::MIN);
    assert_eq!(big, ((i64::MIN as i128) * (i64::MIN as i128)) / 10_000);
    let small = scale(i64::MIN, i64::MAX);
    assert_eq!(small, floor_div((i64::MIN as i128) * (i64::MAX as i128), 10_000));
}

#[test]
fn clamp_pulls_into_the_interval() {
    assert_eq!(clamp(5, 0, 10), 5);
    assert_eq!(clamp(-5, 0, 10), 0);
    assert_eq!(clamp(15, 0, 10), 10);
    assert_eq!(clamp(0, 0, 10), 0);
    assert_eq!(clamp(10, 0, 10), 10);
}

#[test]
fn clamp_on_an_empty_interval() {
    assert_eq!(clamp(-5, 0, -1), 0);
    assert_eq!(clamp(5, 0, -1), -1);
}

#[test]
fn sines_of_the_first_quarter() {
    assert_eq!(sin_degrees(0), 0);
    assert_eq!(sin_degrees(1), 175);
    assert_eq!(sin_degrees(30), 5_000);
    assert_eq!(sin_degrees(45), 7_071);
    assert_eq!(sin_degrees(60), 8_660);
    assert_eq!(sin_degrees(90), 10_000);
}

#[test]
fn sines_around_the_circle() {
    assert_eq!(sin_degrees(120), 8_660);
    assert_eq!(sin_degrees(180), 0);
    assert_eq!(sin_degrees(210), -5_000);
    assert_eq!(sin_degrees(270), -10_000);
    assert_eq!(sin_degrees(330), -5_000);
    assert_eq!(sin_degrees(360), 0);
    assert_eq!(sin_degrees(450), 10_000);
}

#[test]
fn sines_of_negative_angles() {
    assert_eq!(sin_degrees(-40), -6_428);
    assert_eq!(sin_degrees(-20), -3_420);
    assert_eq!(sin_degrees(-90), -10_000);
    assert_eq!(sin_degrees(-360), 0);
    assert_eq!(sin_degrees(i32::MIN), sin_degrees(i32::MIN % 360));
}

#[test]
fn cosines() {
    assert_eq!(cos_degrees(0), 10_000);
    assert_eq!(cos_degrees(20), 9_397);
    assert_eq!(cos_degrees(40), 7_660);
    assert_eq!(cos_degrees(-40), 7_660);
    assert_eq!(cos_degrees(60), 5_000);
    assert_eq!(cos_degrees(90), 0);
    assert_eq!(cos_degrees(180), -10_000);
    assert_eq!(cos_degrees(i32::MAX), cos_degrees(i32::MAX % 360));
}

#[test]
fn sine_is_odd_and_cosine_is_even() {
    let mut d: i32 = -720;
    while d <= 720 {
        assert_eq!(sin_degrees(-d), -sin_degrees(d));
        assert_eq!(cos_degrees(-d), cos_degrees(d));
        d += 1;
    }
}

#[test]
fn sine_and_cosine_stay_close_to_the_unit_circle() {
    let mut d: i32 = 0;
    while d < 360 {
        let s = sin_degrees(d);
        let c = cos_degrees(d);
        let off = (s * s + c * c - UNIT * UNIT).abs();
        assert!(off <= CIRCLE_SLACK, "{} degrees: off by {}", d, off);
        d += 1;
    }
}

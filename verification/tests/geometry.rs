use diffdrive::fixed::{div_fix, isqrt, rem_fix};
use diffdrive::trig::{atan2_mil, cos_mil, sin_mil};
use diffdrive::util::{absoluteAngleToPoint, dirToSpin, dist, minError, normalizeHeading};

#[test]
fn truncating_division_rounds_toward_zero() {
    assert_eq!(div_fix(7, 2), 3);
    assert_eq!(div_fix(-7, 2), -3);
    assert_eq!(div_fix(7, -2), -3);
    assert_eq!(div_fix(-7, -2), 3);
    assert_eq!(rem_fix(-7, 2), -1);
    assert_eq!(rem_fix(7, 2), 1);
}

#[test]
fn integer_square_root_rounds_down() {
    assert_eq!(isqrt(0), 0);
    assert_eq!(isqrt(15), 3);
    assert_eq!(isqrt(16), 4);
    assert_eq!(isqrt(2_000_000), 1414);
}

#[test]
fn distance_of_a_right_triangle() {
    assert_eq!(dist((0, 0), (3000, 4000)), 5000);
    assert_eq!(dist((3000, 4000), (0, 0)), 5000);
    assert_eq!(dist((0, 0), (0, 0)), 0);
    assert_eq!(dist((0, 0), (1000, 1000)), 1414);
}

#[test]
fn sine_and_cosine_at_the_axes() {
    assert_eq!(sin_mil(0), 0);
    assert_eq!(sin_mil(90_000), 1000);
    assert_eq!(sin_mil(180_000), 0);
    assert_eq!(sin_mil(270_000), -1000);
    assert_eq!(cos_mil(0), 1000);
    assert_eq!(cos_mil(90_000), 0);
    assert_eq!(cos_mil(180_000), -1000);
    // The rational approximation is exact at 30 degrees.
    assert_eq!(sin_mil(30_000), 500);
    assert_eq!(cos_mil(60_000), 500);
}

#[test]
fn arctangent_at_the_axes_and_diagonal() {
    assert_eq!(atan2_mil(0, 0), 0);
    assert_eq!(atan2_mil(100, 0), 90_000);
    assert_eq!(atan2_mil(-100, 0), -90_000);
    assert_eq!(atan2_mil(0, 100), 0);
    assert_eq!(atan2_mil(0, -100), 180_000);
    assert_eq!(atan2_mil(100, 100), 45_000);
}

#[test]
fn arctangent_interior_value() {
    // atan(0.5): 45 * 500 + 15600 * 500 * 500 / 1000000 = 26_400 milli-degrees
    // (the true value is 26.565 degrees).
    assert_eq!(atan2_mil(500, 1000), 26_400);
    assert_eq!(atan2_mil(-500, 1000), -26_400);
    assert_eq!(atan2_mil(1000, 500), 90_000 - 26_400);
}

#[test]
fn bearing_convention_at_the_axes() {
    assert_eq!(absoluteAngleToPoint((0, 0), (0, -100_000)), 0);
    assert_eq!(absoluteAngleToPoint((0, 0), (0, 100_000)), 180_000);
    assert_eq!(absoluteAngleToPoint((0, 0), (100_000, 0)), 90_000);
    assert_eq!(absoluteAngleToPoint((0, 0), (-100_000, 0)), 270_000);
    assert_eq!(absoluteAngleToPoint((0, 0), (100_000, 100_000)), 135_000);
}

#[test]
fn spin_direction_picks_the_short_way() {
    assert_eq!(dirToSpin(90_000, 0), -1);
    assert_eq!(dirToSpin(270_000, 0), 1);
    assert_eq!(dirToSpin(0, 0), -1);
}

#[test]
fn shortest_angular_error_magnitude_and_sign() {
    assert_eq!(minError(90_000, 0), -90_000);
    assert_eq!(minError(350_000, 10_000), 20_000);
    assert_eq!(minError(10_000, 350_000), -20_000);
    assert_eq!(minError(123_000, 123_000), 0);
    // Exactly half a turn apart: both directions tie and the magnitude is
    // the full 180 degrees either way around.
    assert_eq!(minError(180_000, 0), -180_000);
    assert_eq!(minError(0, 180_000), -180_000);
}

#[test]
fn error_stays_within_half_a_turn() {
    let headings = [0_i64, 10_000, 90_000, 179_000, 180_000, 181_000, 270_000, 359_000];
    for &a in headings.iter() {
        for &b in headings.iter() {
            let e = minError(a, b);
            assert!(e.abs() <= 180_000);
            if (a - b).abs() != 180_000 {
                assert_eq!(e, -minError(b, a));
            }
        }
    }
}

#[test]
fn heading_normalization() {
    assert_eq!(normalizeHeading(-90_000), 270_000);
    assert_eq!(normalizeHeading(725_000), 5_000);
    assert_eq!(normalizeHeading(360_000), 0);
    assert_eq!(normalizeHeading(90_000), 90_000);
    assert_eq!(normalizeHeading(-360_000), 0);
}

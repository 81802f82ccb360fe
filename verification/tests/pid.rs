use diffdrive::util::{Pid, PidConstants};

fn constants(p: i64, i: i64, d: i64, tolerance: i64, threshold: i64, max_integral: i64) -> PidConstants {
    PidConstants { p, i, d, tolerance, integralThreshold: threshold, maxIntegral: max_integral }
}

#[test]
fn new_constants_are_zero() {
    let c = PidConstants::new();
    assert_eq!(c.p, 0);
    assert_eq!(c.i, 0);
    assert_eq!(c.d, 0);
    assert_eq!(c.tolerance, 0);
    assert_eq!(c.integralThreshold, 0);
    assert_eq!(c.maxIntegral, 0);
}

#[test]
fn integral_resets_inside_the_tolerance_band() {
    let mut pid = Pid::new(constants(0, 1000, 0, 5_000, 100_000, 50_000));
    pid.out(3_000);
    assert_eq!(pid.integral, 0);
    pid.out(-3_000);
    assert_eq!(pid.integral, 0);
}

#[test]
fn integral_accumulates_up_to_the_clamp() {
    let mut pid = Pid::new(constants(0, 1000, 0, 1_000, 100_000, 10_000));
    let expected = [3_000_i64, 6_000, 9_000, 10_000, 10_000];
    for &want in expected.iter() {
        pid.out(3_000);
        assert_eq!(pid.integral, want);
    }
}

#[test]
fn integral_is_not_clamped_below() {
    let mut pid = Pid::new(constants(0, 1000, 0, 1_000, 100_000, 10_000));
    for _ in 0..5 {
        pid.out(-3_000);
    }
    assert_eq!(pid.integral, -15_000);
}

#[test]
fn integral_stops_accumulating_beyond_the_threshold() {
    let mut pid = Pid::new(constants(0, 1000, 0, 1_000, 5_000, 10_000));
    pid.out(2_000);
    assert_eq!(pid.integral, 2_000);
    pid.out(50_000);
    assert_eq!(pid.integral, 2_000);
}

#[test]
fn proportional_output() {
    let mut pid = Pid::new(constants(2_000, 0, 0, 0, 0, 0));
    assert_eq!(pid.out(5_000), 10_000);
}

#[test]
fn derivative_output_tracks_the_change() {
    let mut pid = Pid::new(constants(0, 0, 1_000, 0, 0, 0));
    assert_eq!(pid.out(4_000), 4_000);
    assert_eq!(pid.out(6_000), 2_000);
    assert_eq!(pid.out(6_000), 0);
}

#[test]
fn integral_output_with_gain() {
    let mut pid = Pid::new(constants(0, 1_000, 0, 0, 10_000, 100_000));
    assert_eq!(pid.out(5_000), 5_000);
    assert_eq!(pid.out(5_000), 10_000);
}

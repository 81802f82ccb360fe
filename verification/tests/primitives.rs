use diffdrive::movement::{boomerangVel, eulerTurnVel, followPathVel, pidMTPVel};
use diffdrive::util::{Pid, PidConstants};

fn p_only(p: i64) -> PidConstants {
    PidConstants { p, i: 0, d: 0, tolerance: 0, integralThreshold: 0, maxIntegral: 0 }
}

// Robot at the origin, heading 0, target 100 units straight ahead under the
// bearing convention: no rotation error, no attenuation, both wheels get the
// full proportional linear output.
#[test]
fn straight_ahead_drives_both_wheels_equally() {
    let mut lc = Pid::new(p_only(1_000));
    let mut rc = Pid::new(p_only(1_000));
    let (l, r) = pidMTPVel((0, 0), 0, (0, -100_000), 20_000, &mut lc, &mut rc, 0);
    assert_eq!(l, 100_000);
    assert_eq!(r, 100_000);
}

// At the target the linear error is zero, so the linear velocity is exactly
// the floor, and the wheels differ by twice the angular output.
#[test]
fn at_target_linear_velocity_is_the_floor() {
    let mut lc = Pid::new(p_only(1_000));
    let mut rc = Pid::new(p_only(1_000));
    let (l, r) = pidMTPVel((5_000, 5_000), 77_000, (5_000, 5_000), 20_000, &mut lc, &mut rc, 2_000);
    assert_eq!(l, -11_000);
    assert_eq!(r, 15_000);
    assert_eq!(l - r, 2 * -13_000);
    assert_eq!(l + r, 2 * 2_000);
}

// Beyond the rotation cut the attenuation is the fixed 0.1 whatever the
// error's magnitude: the linear part is the same for a 180 and a 90 degree
// error.
#[test]
fn attenuation_is_fixed_beyond_the_cut() {
    let mut lc = Pid::new(p_only(1_000));
    let mut rc = Pid::new(p_only(1_000));
    let (l, r) = pidMTPVel((0, 0), 0, (0, 100_000), 20_000, &mut lc, &mut rc, 0);
    assert_eq!(l, -170_000);
    assert_eq!(r, 190_000);
    assert_eq!(l + r, 2 * 10_000);

    let mut lc = Pid::new(p_only(1_000));
    let mut rc = Pid::new(p_only(1_000));
    let (l, r) = pidMTPVel((0, 0), 90_000, (0, 100_000), 20_000, &mut lc, &mut rc, 0);
    assert_eq!(l, -80_000);
    assert_eq!(r, 100_000);
    assert_eq!(l + r, 2 * 10_000);
}

// Inside the cut the linear drive is scaled by the stretched cosine.
#[test]
fn attenuation_follows_the_cosine_inside_the_cut() {
    let mut lc = Pid::new(p_only(1_000));
    let mut rc = Pid::new(p_only(1_000));
    let (l, r) = pidMTPVel((0, 0), 350_000, (0, -100_000), 20_000, &mut lc, &mut rc, 0);
    // Rotation error -10 degrees, stretched to -45; cos(45) is 705/1000
    // under the rational approximation, so the linear part is 70_500.
    assert_eq!(l, 60_500);
    assert_eq!(r, 80_500);
}

// A boomerang tick with a zero lead fraction is exactly a move-to-point
// tick: the carrot point coincides with the literal target.
#[test]
fn zero_lead_boomerang_is_move_to_point() {
    let lcon = PidConstants {
        p: 1_000,
        i: 200,
        d: 300,
        tolerance: 500,
        integralThreshold: 1_000_000,
        maxIntegral: 50_000,
    };
    let rcon = PidConstants {
        p: 800,
        i: 100,
        d: 50,
        tolerance: 500,
        integralThreshold: 1_000_000,
        maxIntegral: 50_000,
    };
    let mut lc1 = Pid::new(lcon);
    let mut rc1 = Pid::new(rcon);
    let mut lc2 = Pid::new(lcon);
    let mut rc2 = Pid::new(rcon);
    let pos = (0, 0);
    let target = (50_000, 80_000);
    let b = boomerangVel(pos, 30_000, target, 0, 123_000, 20_000, &mut lc1, &mut rc1, 1_000);
    let m = pidMTPVel(pos, 30_000, target, 20_000, &mut lc2, &mut rc2, 1_000);
    assert_eq!(b, m);
    assert_eq!(lc1.integral, lc2.integral);
    assert_eq!(rc1.prevError, rc2.prevError);
}

// With a lead of 0.5 and a terminal heading of 0 the carrot sits half the
// remaining distance past the target, straight down the approach line.
#[test]
fn boomerang_carrot_extends_the_approach() {
    let mut lc = Pid::new(p_only(1_000));
    let mut rc = Pid::new(p_only(1_000));
    let (l, r) = boomerangVel((0, 0), 0, (0, -100_000), 500, 0, 20_000, &mut lc, &mut rc, 0);
    // Carrot at (0, -150_000): full alignment, linear output 150 units.
    assert_eq!(l, 150_000);
    assert_eq!(r, 150_000);
}

// A sideways terminal heading swings the carrot off the approach line; the
// tick then mixes an attenuated linear drive with the angular correction.
#[test]
fn boomerang_sideways_carrot() {
    let mut lc = Pid::new(p_only(1_000));
    let mut rc = Pid::new(p_only(1_000));
    let (l, r) = boomerangVel((0, 0), 0, (0, -100_000), 500, 90_000, 20_000, &mut lc, &mut rc, 0);
    // Carrot at (-50_000, -100_000): distance 111.803, bearing 333.6
    // degrees, rotation error 26.4 degrees (beyond the 20 degree cut, so
    // the linear drive is attenuated to a tenth).
    assert_eq!(l, 11_180 + 26_400);
    assert_eq!(r, 11_180 - 26_400);
}

// The path cursor advances only within 40 units of the current waypoint,
// one step per tick, and never passes the last index.
#[test]
fn path_cursor_advances_and_stops_at_the_end() {
    let path: Vec<(i64, i64)> = vec![(0, 0), (100_000, 0), (200_000, 0)];
    let mut lc = Pid::new(p_only(1_000));
    let mut rc = Pid::new(p_only(1_000));

    let (_, idx) = followPathVel(&path, 0, (0, 0), 0, 500, 20_000, &mut lc, &mut rc, 0);
    assert_eq!(idx, 1);

    // Far from waypoint 1: the cursor stays.
    let (_, idx) = followPathVel(&path, idx, (0, 0), 0, 500, 20_000, &mut lc, &mut rc, 0);
    assert_eq!(idx, 1);

    // Within 40 units of waypoint 1: it advances to the last index.
    let (_, idx) = followPathVel(&path, idx, (80_000, 0), 0, 500, 20_000, &mut lc, &mut rc, 0);
    assert_eq!(idx, 2);

    // At the last waypoint the cursor never advances further.
    let (_, idx) = followPathVel(&path, idx, (200_000, 0), 0, 500, 20_000, &mut lc, &mut rc, 0);
    assert_eq!(idx, 2);
    let (_, idx) = followPathVel(&path, idx, (200_000, 0), 0, 500, 20_000, &mut lc, &mut rc, 0);
    assert_eq!(idx, 2);
}

#[test]
fn euler_turn_tick_values() {
    let mut pid = Pid::new(p_only(1_000));
    let out = eulerTurnVel(90_000, 1_000, 0, 0, -1, &mut pid);
    let ((l, r), curv) = out.expect("denominators are nonzero");
    assert_eq!(curv, 1_000);
    assert_eq!(r, 1_267_605);
    assert_eq!(l, -1_447_604);

    // The direction flag mirrors and negates the pair.
    let mut pid = Pid::new(p_only(1_000));
    let ((l2, r2), _) = eulerTurnVel(90_000, 1_000, 0, 0, 1, &mut pid).unwrap();
    assert_eq!(l2, -1_267_605);
    assert_eq!(r2, 1_447_604);
}

#[test]
fn euler_turn_rejects_degenerate_denominators() {
    // The ramp crosses zero curvature.
    let mut pid = Pid::new(p_only(1_000));
    assert!(eulerTurnVel(90_000, 1_000, -1_000, 0, -1, &mut pid).is_none());

    // Zero heading error makes the right-side scale zero.
    let mut pid = Pid::new(p_only(1_000));
    assert!(eulerTurnVel(0, 1_000, 0, 0, -1, &mut pid).is_none());

    // A huge curvature truncates 1/c to zero and the ratio lands on -1.
    let mut pid = Pid::new(p_only(1_000));
    assert!(eulerTurnVel(90_000, 0, 2_000_000, 0, -1, &mut pid).is_none());
}

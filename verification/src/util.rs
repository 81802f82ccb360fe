//! Geometry and angle utilities (distance, absolute bearing, shortest
//! angular error) and the single-axis PID controller, all on scaled
//! integers.

use vstd::prelude::*;
use crate::fixed::abs_sp;
use crate::fixed::tdiv;
use crate::fixed::tmod;
use crate::fixed::lemma_tdiv_mag;
use crate::fixed::lemma_mul_mag;
use crate::fixed::sqrt_floor;
use crate::fixed::is_sqrt_floor;
use crate::fixed::lemma_sqrt_floor_unique;
use crate::fixed::abs_i64;
use crate::fixed::div_fix;
use crate::fixed::rem_fix;
use crate::fixed::isqrt;
use crate::trig::DEG180;
use crate::trig::DEG360;
use crate::trig::atan2_sp;
use crate::trig::atan2_mil;

verus! {

/// Largest coordinate magnitude the geometry accepts (one million units).
pub const COORD_LIMIT: i64 = 1_000_000_000;

/// Largest error magnitude a PID controller accepts per call.
pub const ERR_LIMIT: i64 = 4_000_000_000;

/// Largest magnitude of a PID gain or of the integral clamp.
pub const GAIN_LIMIT: i64 = 100_000_000;

/// The accumulated integral saturates here on the negative side (the
/// configured clamp bounds only the positive side).
pub const INTEGRAL_FLOOR: i64 = -10_000_000_000;

/// Bound on every PID output.
pub const OUT_LIMIT: i64 = 2_200_000_000_000_000;

/// Euclidean distance between two points, rounded down.
pub open spec fn dist_sp(ax: int, ay: int, bx: int, by: int) -> int {
    let dx = ax - bx;
    let dy = by - ay;
    sqrt_floor(dx * dx + dy * dy)
}

/// Euclidean distance between two points (coordinates and result in
/// milli-units).
pub fn dist(a: (i64, i64), b: (i64, i64)) -> (r: i64)
    requires
        abs_sp(a.0 as int) <= COORD_LIMIT,
        abs_sp(a.1 as int) <= COORD_LIMIT,
        abs_sp(b.0 as int) <= COORD_LIMIT,
        abs_sp(b.1 as int) <= COORD_LIMIT,
    ensures
        r == dist_sp(a.0 as int, a.1 as int, b.0 as int, b.1 as int),
        is_sqrt_floor(
            (a.0 as int - b.0 as int) * (a.0 as int - b.0 as int) + (b.1 as int - a.1 as int) * (
            b.1 as int - a.1 as int),
            r as int,
        ),
        0 <= r <= 2_850_000_000,
        a == b ==> r == 0,
{
    let dx = a.0 - b.0;
    let dy = b.1 - a.1;
    proof {
        assert(0 <= (dx as int) * (dx as int) <= 4_000_000_000_000_000_000) by (nonlinear_arith)
            requires
                abs_sp(dx as int) <= 2_000_000_000,
        ;
        assert(0 <= (dy as int) * (dy as int) <= 4_000_000_000_000_000_000) by (nonlinear_arith)
            requires
                abs_sp(dy as int) <= 2_000_000_000,
        ;
    }
    let n = dx * dx + dy * dy;
    let r = isqrt(n);
    proof {
        assert((r as int) * (r as int) <= 8_000_000_000_000_000_000);
        assert(r <= 2_850_000_000) by (nonlinear_arith)
            requires
                0 <= r,
                (r as int) * (r as int) <= 8_000_000_000_000_000_000,
        ;
        if a == b {
            assert(is_sqrt_floor(0, 0));
            lemma_sqrt_floor_unique(0, r as int, 0);
        }
    }
    r
}

/// The distance from a point to itself is zero.
pub proof fn lemma_dist_self(x: int, y: int)
    ensures
        dist_sp(x, y, x, y) == 0,
{
    assert(is_sqrt_floor(0, 0));
    let r = sqrt_floor(0);
    assert(is_sqrt_floor(0, r));
    lemma_sqrt_floor_unique(0, r, 0);
}

/// Absolute bearing from one point to another: the arctangent of the
/// coordinate deltas shifted a quarter turn, wrapped into [0, 360) degrees.
pub open spec fn bearing_sp(x1: int, y1: int, x2: int, y2: int) -> int {
    let c = atan2_sp(y2 - y1, x2 - x1) + 90_000;
    if c < 0 { c + 360_000 } else { c }
}

/// Bearing from `p1` to `p2` in milli-degrees in [0, 360) degrees. Along
/// the axes it is exact: a point straight down the second axis is bearing
/// zero, straight up is 180 degrees, and the first axis maps to 90 and 270
/// degrees.
pub fn absoluteAngleToPoint(p1: (i64, i64), p2: (i64, i64)) -> (r: i64)
    requires
        abs_sp(p1.0 as int) <= COORD_LIMIT,
        abs_sp(p1.1 as int) <= COORD_LIMIT,
        abs_sp(p2.0 as int) <= COORD_LIMIT,
        abs_sp(p2.1 as int) <= COORD_LIMIT,
    ensures
        r == bearing_sp(p1.0 as int, p1.1 as int, p2.0 as int, p2.1 as int),
        0 <= r < DEG360,
        p2.0 == p1.0 && p2.1 < p1.1 ==> r == 0,
        p2.0 == p1.0 && p2.1 > p1.1 ==> r == 180_000,
        p2.1 == p1.1 && p2.0 > p1.0 ==> r == 90_000,
        p2.1 == p1.1 && p2.0 < p1.0 ==> r == 270_000,
{
    let dy = p2.1 - p1.1;
    let dx = p2.0 - p1.0;
    let c = atan2_mil(dy, dx) + 90_000;
    if c < 0 { c + 360_000 } else { c }
}

/// Direction of the shortest rotation from `current` to `target`: +1 when
/// the forward (increasing-angle) gap exceeds half a turn, else -1.
pub open spec fn dir_to_spin_sp(target: int, current: int) -> int {
    let d = target - current;
    let diff = if d < 0 { d + 360_000 } else { d };
    if diff > 180_000 { 1 } else { -1 }
}

/// Which way to spin from `current` to `target`, both normalized headings
/// in [0, 360) degrees.
pub fn dirToSpin(target: i64, current: i64) -> (r: i16)
    requires
        0 <= target < DEG360,
        0 <= current < DEG360,
    ensures
        r as int == dir_to_spin_sp(target as int, current as int),
        r == 1 || r == -1,
{
    let d = target - current;
    let diff = if d < 0 { d + 360_000 } else { d };
    if diff > 180_000 { 1 } else { -1 }
}

/// Signed shortest angular error from `current` to `target`: the smaller of
/// the direct gap and its wrap-around complement, signed by
/// `dir_to_spin_sp`.
pub open spec fn min_error_sp(target: int, current: int) -> int {
    let b = if target >= current { target } else { current };
    let s = if target >= current { current } else { target };
    let diff = b - s;
    let dir = dir_to_spin_sp(target, current);
    if diff <= 180_000 { diff * dir } else { (360_000 - b + s) * dir }
}

/// Shortest signed angular error between two normalized headings, in
/// milli-degrees; its magnitude never exceeds half a turn.
pub fn minError(target: i64, current: i64) -> (r: i64)
    requires
        0 <= target < DEG360,
        0 <= current < DEG360,
    ensures
        r == min_error_sp(target as int, current as int),
        abs_sp(r as int) <= DEG180,
        target == current ==> r == 0,
{
    let b = if target >= current { target } else { current };
    let s = if target >= current { current } else { target };
    let diff = b - s;
    let dir = dirToSpin(target, current) as i64;
    if diff <= 180_000 {
        proof {
            lemma_mul_mag(diff as int, dir as int, 180_000, 1);
        }
        diff * dir
    } else {
        proof {
            lemma_mul_mag(360_000 - b as int + s as int, dir as int, 180_000, 1);
        }
        (360_000 - b + s) * dir
    }
}

/// Law: between normalized headings the shortest angular error is at most
/// half a turn in magnitude.
pub proof fn lemma_min_error_bounded(h1: int, h2: int)
    requires
        0 <= h1 < 360_000,
        0 <= h2 < 360_000,
    ensures
        abs_sp(min_error_sp(h1, h2)) <= 180_000,
{
}

/// Law: the shortest angular error from a heading to itself is zero.
pub proof fn lemma_min_error_self(h: int)
    requires
        0 <= h < 360_000,
    ensures
        min_error_sp(h, h) == 0,
{
}

/// Law: swapping the two headings flips the sign of the shortest angular
/// error, except when they are exactly half a turn apart (both directions
/// are then equally short and the same one is chosen).
pub proof fn lemma_min_error_antisymmetric(h1: int, h2: int)
    requires
        0 <= h1 < 360_000,
        0 <= h2 < 360_000,
        abs_sp(h1 - h2) != 180_000,
    ensures
        min_error_sp(h1, h2) == -min_error_sp(h2, h1),
{
}

/// A heading reduced to [0, 360) degrees.
pub open spec fn norm360_sp(h: int) -> int {
    let m = tmod(h, 360_000);
    if m < 0 { m + 360_000 } else { m }
}

/// Reduce any heading to [0, 360) degrees.
pub fn normalizeHeading(h: i64) -> (r: i64)
    requires
        h > i64::MIN,
    ensures
        r == norm360_sp(h as int),
        0 <= r < DEG360,
        0 <= h < DEG360 ==> r == h,
{
    let m = rem_fix(h, 360_000);
    proof {
        if 0 <= h < 360_000 {
            vstd::arithmetic::div_mod::lemma_small_mod(h as nat, 360_000 as nat);
        }
    }
    if m < 0 { m + 360_000 } else { m }
}

/// PID configuration: proportional, integral and derivative gains, the
/// error band below which the integral resets, the error bound above which
/// accumulation stops, and the (upper) clamp on the accumulated integral.
/// Gains and velocities are scaled by 1000, like everything else.
#[derive(Clone, Copy, PartialEq, Eq, Structural)]
pub struct PidConstants {
    pub p: i64,
    pub i: i64,
    pub d: i64,
    pub tolerance: i64,
    pub integralThreshold: i64,
    pub maxIntegral: i64,
}

impl PidConstants {
    /// Gains and the clamp small enough that one control step cannot
    /// overflow.
    pub open spec fn wf(self) -> bool {
        &&& abs_sp(self.p as int) <= GAIN_LIMIT
        &&& abs_sp(self.i as int) <= GAIN_LIMIT
        &&& abs_sp(self.d as int) <= GAIN_LIMIT
        &&& abs_sp(self.maxIntegral as int) <= GAIN_LIMIT
    }

    /// All-zero configuration; the caller fills the fields in.
    pub fn new() -> (r: PidConstants)
        ensures
            r.p == 0 && r.i == 0 && r.d == 0,
            r.tolerance == 0 && r.integralThreshold == 0 && r.maxIntegral == 0,
            r.wf(),
    {
        PidConstants { p: 0, i: 0, d: 0, tolerance: 0, integralThreshold: 0, maxIntegral: 0 }
    }
}

/// The accumulated integral after one control step: reset inside the
/// tolerance band, accumulated below the threshold (saturating at the
/// representable floor), unchanged above it, then clamped to `maxIntegral`
/// from above.
pub open spec fn pid_integral_next(c: PidConstants, integral: int, error: int) -> int {
    let acc = if abs_sp(error) < c.tolerance {
        0
    } else if abs_sp(error) < c.integralThreshold {
        if integral + error < INTEGRAL_FLOOR { INTEGRAL_FLOOR as int } else { integral + error }
    } else {
        integral
    };
    if acc > c.maxIntegral { c.maxIntegral as int } else { acc }
}

/// One control output: p times the error, plus i times the updated
/// integral, plus d times the change of the error, descaled once.
pub open spec fn pid_out_sp(c: PidConstants, prev: int, integral: int, error: int) -> int {
    let next = pid_integral_next(c, integral, error);
    tdiv(c.p * error + c.i * next + c.d * (error - prev), 1000)
}

/// Single-axis PID controller state. A fresh instance is made for each
/// motion-primitive invocation, so no history leaks between runs.
pub struct Pid {
    pub prevError: i64,
    pub derivative: i64,
    pub integral: i64,
    pub constants: PidConstants,
}

impl Pid {
    pub open spec fn wf(self) -> bool {
        &&& self.constants.wf()
        &&& abs_sp(self.prevError as int) <= ERR_LIMIT
        &&& INTEGRAL_FLOOR <= self.integral
        &&& (self.integral <= self.constants.maxIntegral || self.integral <= 0)
    }

    pub fn new(con: PidConstants) -> (r: Pid)
        ensures
            r.prevError == 0 && r.derivative == 0 && r.integral == 0,
            r.constants == con,
            con.wf() ==> r.wf(),
    {
        Pid { prevError: 0, derivative: 0, integral: 0, constants: con }
    }

    /// One control step: update the integral and the stored error, and
    /// return the mixed output.
    pub fn out(&mut self, error: i64) -> (r: i64)
        requires
            old(self).wf(),
            abs_sp(error as int) <= ERR_LIMIT,
        ensures
            final(self).wf(),
            final(self).constants == old(self).constants,
            final(self).integral as int == pid_integral_next(
                old(self).constants,
                old(self).integral as int,
                error as int,
            ),
            final(self).prevError == error,
            final(self).derivative as int == error - old(self).prevError,
            r as int == pid_out_sp(
                old(self).constants,
                old(self).prevError as int,
                old(self).integral as int,
                error as int,
            ),
            abs_sp(r as int) <= OUT_LIMIT,
    {
        let e_abs = abs_i64(error);
        if e_abs < self.constants.tolerance {
            self.integral = 0;
        } else if e_abs < self.constants.integralThreshold {
            let sum = self.integral + error;
            self.integral = if sum < INTEGRAL_FLOOR { INTEGRAL_FLOOR } else { sum };
        }
        if self.integral > self.constants.maxIntegral {
            self.integral = self.constants.maxIntegral;
        }
        self.derivative = error - self.prevError;
        self.prevError = error;
        proof {
            lemma_mul_mag(self.constants.p as int, error as int, GAIN_LIMIT as int, ERR_LIMIT as int);
            lemma_mul_mag(
                self.constants.i as int,
                self.integral as int,
                GAIN_LIMIT as int,
                10_000_000_000,
            );
            lemma_mul_mag(
                self.constants.d as int,
                self.derivative as int,
                GAIN_LIMIT as int,
                8_000_000_000,
            );
        }
        let total = self.constants.p * error + self.constants.i * self.integral
            + self.constants.d * self.derivative;
        proof {
            lemma_tdiv_mag(total as int, 1000, 2_200_000_000_000_000_000);
        }
        div_fix(total, 1000)
    }
}

/// The integral after `n` control steps with the same error, starting from
/// a fresh controller.
pub open spec fn pid_integral_iter(c: PidConstants, e: int, n: nat) -> int
    decreases n,
{
    if n == 0 {
        0
    } else {
        pid_integral_next(c, pid_integral_iter(c, e, (n - 1) as nat), e)
    }
}

/// Law: while the error stays inside the tolerance band, the integral is
/// reset on every step; after two such steps it is zero (for a
/// nonnegative clamp).
pub proof fn lemma_pid_small_error_resets(c: PidConstants, integral: int, e1: int, e2: int)
    requires
        abs_sp(e1) < c.tolerance,
        abs_sp(e2) < c.tolerance,
        c.maxIntegral >= 0,
    ensures
        pid_integral_next(c, integral, e1) == 0,
        pid_integral_next(c, pid_integral_next(c, integral, e1), e2) == 0,
{
}

/// Law: a constant positive error between the tolerance and the threshold,
/// applied `n` times to a fresh controller with a nonnegative clamp,
/// accumulates to min(n * e, maxIntegral).
pub proof fn lemma_pid_integral_accumulates(c: PidConstants, e: int, n: nat)
    requires
        0 < e,
        c.tolerance <= e,
        e < c.integralThreshold,
        c.maxIntegral >= 0,
    ensures
        pid_integral_iter(c, e, n) == if n * e <= c.maxIntegral {
            n * e
        } else {
            c.maxIntegral as int
        },
    decreases n,
{
    if n == 0 {
    } else {
        let m = (n - 1) as nat;
        lemma_pid_integral_accumulates(c, e, m);
        assert(m * e + e == n * e) by (nonlinear_arith)
            requires
                m == n - 1,
        ;
        assert(m * e <= n * e) by (nonlinear_arith)
            requires
                m == n - 1,
                0 < e,
        ;
        assert(m * e >= 0) by (nonlinear_arith)
            requires
                0 < e,
        ;
    }
}

} // verus!

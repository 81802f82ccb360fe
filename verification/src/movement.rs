//! Per-tick control steps of the four motion primitives: the
//! differential-drive velocity mixer shared by move-to-point and boomerang,
//! the carrot-point projection, the path cursor rule, and the
//! curvature-ramped in-place turn. The timed loops that call these once per
//! tick live outside the verified core.

use vstd::prelude::*;
use crate::fixed::abs_sp;
use crate::fixed::tdiv;
use crate::fixed::lemma_tdiv_mag;
use crate::fixed::lemma_mul_mag;
use crate::fixed::abs_i64;
use crate::fixed::div_fix;
use crate::trig::DEG360;
use crate::trig::sin_mil_sp;
use crate::trig::cos_mil_sp;
use crate::trig::sin_mil;
use crate::trig::cos_mil;
use crate::util::COORD_LIMIT;
use crate::util::OUT_LIMIT;
use crate::util::dist_sp;
use crate::util::dist;
use crate::util::bearing_sp;
use crate::util::absoluteAngleToPoint;
use crate::util::min_error_sp;
use crate::util::minError;
use crate::util::pid_integral_next;
use crate::util::pid_out_sp;
use crate::util::Pid;

verus! {

/// Largest coordinate magnitude a motion primitive accepts for poses and
/// waypoints; carrot points derived from them stay within `COORD_LIMIT`.
pub const PRIM_COORD_LIMIT: i64 = 100_000_000;

/// Largest magnitude of the boomerang lead fraction (2.0).
pub const LEAD_LIMIT: i64 = 2_000;

/// A waypoint counts as reached within this distance (40 units).
pub const WAYPOINT_RADIUS: i64 = 40_000;

/// The in-place turn clamps its PID output to this magnitude (127).
pub const VEL_CLAMP: i64 = 127_000;

/// Largest curvature or ramp-rate magnitude the in-place turn accepts.
pub const CURV_LIMIT: i64 = 1_000_000_000;

/// A heading read just above -360 degrees lifted into [0, 360).
pub open spec fn norm_heading_sp(h: int) -> int {
    if h < 0 { h + 360_000 } else { h }
}

/// Heading error of one mixer tick: shortest angular error from the current
/// heading to the bearing of the target.
pub open spec fn rotation_error_sp(px: int, py: int, hd: int, tx: int, ty: int) -> int {
    min_error_sp(bearing_sp(px, py, tx, ty), norm_heading_sp(hd))
}

/// Cosine attenuation of the linear drive: 0.1 beyond the cut, else the
/// cosine of the error stretched so the cut maps to a quarter turn.
pub open spec fn cre_sp(re: int, cut: int) -> int {
    if abs_sp(re) > cut { 100 } else { cos_mil_sp(abs_sp(tdiv(re * 90_000, cut))) }
}

/// Attenuated linear PID output, floored at `min`.
pub open spec fn linear_vel_sp(cre: int, lout: int, min: int) -> int {
    let lv = tdiv(cre * lout, 1000);
    if lv >= min { lv } else { min }
}

/// One mixer tick: (left, right) wheel velocities for driving from
/// (`px`, `py`) with heading `hd` toward (`tx`, `ty`), with the two PID
/// controllers in the given states.
pub open spec fn mtp_vel_sp(
    px: int,
    py: int,
    hd: int,
    tx: int,
    ty: int,
    cut: int,
    lpid: Pid,
    rpid: Pid,
    min: int,
) -> (int, int) {
    let le = dist_sp(px, py, tx, ty);
    let re = rotation_error_sp(px, py, hd, tx, ty);
    let cre = cre_sp(re, cut);
    let lout = pid_out_sp(lpid.constants, lpid.prevError as int, lpid.integral as int, le);
    let av = pid_out_sp(rpid.constants, rpid.prevError as int, rpid.integral as int, re);
    let lv = linear_vel_sp(cre, lout, min);
    (lv + av, lv - av)
}

/// One velocity-mixer tick: linear PID on the distance to the target,
/// angular PID on the heading error, cosine attenuation of the linear
/// drive, and the differential mix of the two outputs.
pub fn pidMTPVel(
    position: (i64, i64),
    heading: i64,
    target: (i64, i64),
    rotationCut: i64,
    lCont: &mut Pid,
    rCont: &mut Pid,
    min: i64,
) -> (r: (i64, i64))
    requires
        abs_sp(position.0 as int) <= COORD_LIMIT,
        abs_sp(position.1 as int) <= COORD_LIMIT,
        abs_sp(target.0 as int) <= COORD_LIMIT,
        abs_sp(target.1 as int) <= COORD_LIMIT,
        -DEG360 < heading < DEG360,
        0 < rotationCut,
        old(lCont).wf(),
        old(rCont).wf(),
        abs_sp(min as int) <= OUT_LIMIT,
    ensures
        (r.0 as int, r.1 as int) == mtp_vel_sp(
            position.0 as int,
            position.1 as int,
            heading as int,
            target.0 as int,
            target.1 as int,
            rotationCut as int,
            *old(lCont),
            *old(rCont),
            min as int,
        ),
        r.0 as int - r.1 as int == 2 * pid_out_sp(
            old(rCont).constants,
            old(rCont).prevError as int,
            old(rCont).integral as int,
            rotation_error_sp(
                position.0 as int,
                position.1 as int,
                heading as int,
                target.0 as int,
                target.1 as int,
            ),
        ),
        abs_sp(r.0 as int) <= 2 * OUT_LIMIT,
        abs_sp(r.1 as int) <= 2 * OUT_LIMIT,
        final(lCont).wf() && final(rCont).wf(),
        final(lCont).constants == old(lCont).constants,
        final(rCont).constants == old(rCont).constants,
        final(lCont).prevError as int == dist_sp(
            position.0 as int,
            position.1 as int,
            target.0 as int,
            target.1 as int,
        ),
        final(lCont).integral as int == pid_integral_next(
            old(lCont).constants,
            old(lCont).integral as int,
            dist_sp(position.0 as int, position.1 as int, target.0 as int, target.1 as int),
        ),
        final(rCont).prevError as int == rotation_error_sp(
            position.0 as int,
            position.1 as int,
            heading as int,
            target.0 as int,
            target.1 as int,
        ),
        final(rCont).integral as int == pid_integral_next(
            old(rCont).constants,
            old(rCont).integral as int,
            rotation_error_sp(
                position.0 as int,
                position.1 as int,
                heading as int,
                target.0 as int,
                target.1 as int,
            ),
        ),
{
    let linearError = dist(position, target);
    let targetHeading = absoluteAngleToPoint(position, target);
    let headingNorm = if heading < 0 { 360_000 + heading } else { heading };
    let rotationError = minError(targetHeading, headingNorm);
    let cre: i64 = if abs_i64(rotationError) > rotationCut {
        100
    } else {
        proof {
            lemma_mul_mag(rotationError as int, 90_000, rotationCut as int, 90_000);
            lemma_tdiv_mag(
                rotationError as int * 90_000,
                rotationCut as int,
                rotationCut as int * 90_000,
            );
            vstd::arithmetic::div_mod::lemma_div_multiples_vanish(90_000, rotationCut as int);
        }
        let arg = div_fix(rotationError * 90_000, rotationCut);
        cos_mil(abs_i64(arg))
    };
    let angularVel = rCont.out(rotationError);
    let lout = lCont.out(linearError);
    proof {
        lemma_mul_mag(cre as int, lout as int, 1000, OUT_LIMIT as int);
        lemma_tdiv_mag(cre as int * lout as int, 1000, 2_200_000_000_000_000_000);
    }
    let lv0 = div_fix(cre * lout, 1000);
    let linearVel = if lv0 >= min { lv0 } else { min };
    let lVel = linearVel + angularVel;
    let rVel = linearVel - angularVel;
    (lVel, rVel)
}

/// Law: beyond the rotation cut the attenuation is the fixed small constant
/// 0.1, whatever the error's exact magnitude.
pub proof fn lemma_cre_beyond_cut(re: int, cut: int)
    requires
        abs_sp(re) > cut,
    ensures
        cre_sp(re, cut) == 100,
{
}

/// Law: the two wheel commands of one mixer tick differ by exactly twice
/// the angular PID output, whatever the pose and target.
pub proof fn lemma_mix_differential(
    px: int,
    py: int,
    hd: int,
    tx: int,
    ty: int,
    cut: int,
    lpid: Pid,
    rpid: Pid,
    min: int,
)
    ensures
        ({
            let v = mtp_vel_sp(px, py, hd, tx, ty, cut, lpid, rpid, min);
            let av = pid_out_sp(
                rpid.constants,
                rpid.prevError as int,
                rpid.integral as int,
                rotation_error_sp(px, py, hd, tx, ty),
            );
            v.0 - v.1 == 2 * av
        }),
{
}

/// Law: at the target the linear error is zero, so for a fresh linear
/// controller (and a nonnegative clamp and floor) the linear velocity is
/// exactly the `min` floor, and the wheel commands are `min` plus and minus
/// the angular output.
pub proof fn lemma_mtp_at_target(
    px: int,
    py: int,
    hd: int,
    cut: int,
    lpid: Pid,
    rpid: Pid,
    min: int,
)
    requires
        lpid.integral == 0,
        lpid.prevError == 0,
        lpid.constants.maxIntegral >= 0,
        min >= 0,
    ensures
        ({
            let v = mtp_vel_sp(px, py, hd, px, py, cut, lpid, rpid, min);
            let av = pid_out_sp(
                rpid.constants,
                rpid.prevError as int,
                rpid.integral as int,
                rotation_error_sp(px, py, hd, px, py),
            );
            v.0 == min + av && v.1 == min - av
        }),
{
    crate::util::lemma_dist_self(px, py);
    let le = dist_sp(px, py, px, py);
    assert(le == 0);
    let lout = pid_out_sp(lpid.constants, lpid.prevError as int, lpid.integral as int, 0);
    assert(pid_integral_next(lpid.constants, 0, 0) == 0);
    assert(lout == tdiv(
        lpid.constants.p * 0 + lpid.constants.i * 0 + lpid.constants.d * 0,
        1000,
    ));
    assert(lout == 0);
    let re = rotation_error_sp(px, py, hd, px, py);
    let cre = cre_sp(re, cut);
    assert(tdiv(cre * 0, 1000) == 0);
    assert(linear_vel_sp(cre, 0, min) == min);
}

/// The carrot point: the target pulled back along the terminal heading by
/// the remaining distance scaled by the lead fraction.
pub open spec fn carrot_sp(tx: int, ty: int, h: int, thetaEnd: int, dLead: int) -> (int, int) {
    (
        tx - tdiv(tdiv(h * sin_mil_sp(thetaEnd), 1000) * dLead, 1000),
        ty - tdiv(tdiv(h * cos_mil_sp(thetaEnd), 1000) * dLead, 1000),
    )
}

/// One boomerang tick: the mixer aimed at the carrot point instead of the
/// literal target.
pub open spec fn boomerang_vel_sp(
    px: int,
    py: int,
    hd: int,
    tx: int,
    ty: int,
    dLead: int,
    thetaEnd: int,
    cut: int,
    lpid: Pid,
    rpid: Pid,
    min: int,
) -> (int, int) {
    let h = dist_sp(px, py, tx, ty);
    let c = carrot_sp(tx, ty, h, thetaEnd, dLead);
    mtp_vel_sp(px, py, hd, c.0, c.1, cut, lpid, rpid, min)
}

/// One tick of the boomerang approach: project the carrot point ahead of
/// the target along the terminal heading `thetaEnd`, then run the mixer at
/// it.
pub fn boomerangVel(
    position: (i64, i64),
    heading: i64,
    target: (i64, i64),
    dLead: i64,
    thetaEnd: i64,
    rotationCut: i64,
    lCont: &mut Pid,
    rCont: &mut Pid,
    min: i64,
) -> (r: (i64, i64))
    requires
        abs_sp(position.0 as int) <= PRIM_COORD_LIMIT,
        abs_sp(position.1 as int) <= PRIM_COORD_LIMIT,
        abs_sp(target.0 as int) <= PRIM_COORD_LIMIT,
        abs_sp(target.1 as int) <= PRIM_COORD_LIMIT,
        abs_sp(dLead as int) <= LEAD_LIMIT,
        0 <= thetaEnd < DEG360,
        -DEG360 < heading < DEG360,
        0 < rotationCut,
        old(lCont).wf(),
        old(rCont).wf(),
        abs_sp(min as int) <= OUT_LIMIT,
    ensures
        (r.0 as int, r.1 as int) == boomerang_vel_sp(
            position.0 as int,
            position.1 as int,
            heading as int,
            target.0 as int,
            target.1 as int,
            dLead as int,
            thetaEnd as int,
            rotationCut as int,
            *old(lCont),
            *old(rCont),
            min as int,
        ),
        final(lCont).wf() && final(rCont).wf(),
        final(lCont).constants == old(lCont).constants,
        final(rCont).constants == old(rCont).constants,
        ({
            let px = position.0 as int;
            let py = position.1 as int;
            let h = dist_sp(px, py, target.0 as int, target.1 as int);
            let c = carrot_sp(target.0 as int, target.1 as int, h, thetaEnd as int, dLead as int);
            let le = dist_sp(px, py, c.0, c.1);
            let re = rotation_error_sp(px, py, heading as int, c.0, c.1);
            &&& final(lCont).prevError as int == le
            &&& final(lCont).integral as int == pid_integral_next(
                old(lCont).constants,
                old(lCont).integral as int,
                le,
            )
            &&& final(rCont).prevError as int == re
            &&& final(rCont).integral as int == pid_integral_next(
                old(rCont).constants,
                old(rCont).integral as int,
                re,
            )
        }),
{
    let h = dist(position, target);
    proof {
        let dx = position.0 as int - target.0 as int;
        let dy = target.1 as int - position.1 as int;
        assert(0 <= dx * dx <= 40_000_000_000_000_000) by (nonlinear_arith)
            requires
                abs_sp(dx) <= 200_000_000,
        ;
        assert(0 <= dy * dy <= 40_000_000_000_000_000) by (nonlinear_arith)
            requires
                abs_sp(dy) <= 200_000_000,
        ;
        assert(h <= 290_000_000) by (nonlinear_arith)
            requires
                0 <= h,
                (h as int) * (h as int) <= 80_000_000_000_000_000,
        ;
    }
    let sx = sin_mil(thetaEnd);
    let cx = cos_mil(thetaEnd);
    proof {
        lemma_mul_mag(h as int, sx as int, 290_000_000, 1000);
        lemma_tdiv_mag(h as int * sx as int, 1000, 290_000_000_000);
        lemma_mul_mag(tdiv(h as int * sx as int, 1000), dLead as int, 290_000_000, 2000);
        lemma_tdiv_mag(tdiv(h as int * sx as int, 1000) * dLead as int, 1000, 580_000_000_000);
        lemma_mul_mag(h as int, cx as int, 290_000_000, 1000);
        lemma_tdiv_mag(h as int * cx as int, 1000, 290_000_000_000);
        lemma_mul_mag(tdiv(h as int * cx as int, 1000), dLead as int, 290_000_000, 2000);
        lemma_tdiv_mag(tdiv(h as int * cx as int, 1000) * dLead as int, 1000, 580_000_000_000);
    }
    let ox = div_fix(div_fix(h * sx, 1000) * dLead, 1000);
    let oy = div_fix(div_fix(h * cx, 1000) * dLead, 1000);
    let carrot = (target.0 - ox, target.1 - oy);
    pidMTPVel(position, heading, carrot, rotationCut, lCont, rCont, min)
}

/// Law: with a zero lead fraction the carrot point is the literal target,
/// so a boomerang tick is exactly a move-to-point tick.
pub proof fn lemma_boomerang_zero_lead(
    px: int,
    py: int,
    hd: int,
    tx: int,
    ty: int,
    thetaEnd: int,
    cut: int,
    lpid: Pid,
    rpid: Pid,
    min: int,
)
    ensures
        carrot_sp(tx, ty, dist_sp(px, py, tx, ty), thetaEnd, 0) == (tx, ty),
        boomerang_vel_sp(px, py, hd, tx, ty, 0, thetaEnd, cut, lpid, rpid, min) == mtp_vel_sp(
            px,
            py,
            hd,
            tx,
            ty,
            cut,
            lpid,
            rpid,
            min,
        ),
{
    let h = dist_sp(px, py, tx, ty);
    assert(tdiv(h * sin_mil_sp(thetaEnd), 1000) * 0 == 0);
    assert(tdiv(h * cos_mil_sp(thetaEnd), 1000) * 0 == 0);
    assert(tdiv(0, 1000) == 0);
}

/// One path-follow tick: a boomerang tick whose terminal heading is the
/// bearing of the current waypoint.
pub open spec fn follow_vel_sp(
    px: int,
    py: int,
    hd: int,
    tx: int,
    ty: int,
    dLead: int,
    cut: int,
    lpid: Pid,
    rpid: Pid,
    min: int,
) -> (int, int) {
    boomerang_vel_sp(
        px,
        py,
        hd,
        tx,
        ty,
        dLead,
        bearing_sp(px, py, tx, ty),
        cut,
        lpid,
        rpid,
        min,
    )
}

/// Where the path cursor stands after one tick: advanced by one when the
/// literal waypoint is within reach and it is not already the last.
pub open spec fn next_index_sp(d: int, index: int, len: int) -> int {
    if d < WAYPOINT_RADIUS && index + 1 < len { index + 1 } else { index }
}

/// Law: the path cursor rule keeps the cursor on the path, whatever the
/// measured distance: it never decreases, advances by at most one per tick,
/// and never passes the last index.
pub proof fn lemma_path_cursor_invariant(d: int, index: int, len: int)
    requires
        0 <= index < len,
    ensures
        ({
            let n = next_index_sp(d, index, len);
            index <= n <= index + 1 && n < len
        }),
{
}

/// One tick of path following: drive toward a carrot projected from the
/// current waypoint, and advance the cursor once the waypoint is within
/// `WAYPOINT_RADIUS`. The cursor never leaves the path, never moves by more
/// than one, and never decreases.
pub fn followPathVel(
    path: &Vec<(i64, i64)>,
    pathIndex: usize,
    position: (i64, i64),
    heading: i64,
    dLead: i64,
    rotationCut: i64,
    lCont: &mut Pid,
    rCont: &mut Pid,
    min: i64,
) -> (r: ((i64, i64), usize))
    requires
        pathIndex < path@.len(),
        forall|k: int|
            0 <= k < path@.len() ==> abs_sp(#[trigger] path@[k].0 as int) <= PRIM_COORD_LIMIT
                && abs_sp(path@[k].1 as int) <= PRIM_COORD_LIMIT,
        abs_sp(position.0 as int) <= PRIM_COORD_LIMIT,
        abs_sp(position.1 as int) <= PRIM_COORD_LIMIT,
        abs_sp(dLead as int) <= LEAD_LIMIT,
        -DEG360 < heading < DEG360,
        0 < rotationCut,
        old(lCont).wf(),
        old(rCont).wf(),
        abs_sp(min as int) <= OUT_LIMIT,
    ensures
        ({
            let t = path@[pathIndex as int];
            (r.0.0 as int, r.0.1 as int) == follow_vel_sp(
                position.0 as int,
                position.1 as int,
                heading as int,
                t.0 as int,
                t.1 as int,
                dLead as int,
                rotationCut as int,
                *old(lCont),
                *old(rCont),
                min as int,
            )
        }),
        ({
            let t = path@[pathIndex as int];
            r.1 as int == next_index_sp(
                dist_sp(position.0 as int, position.1 as int, t.0 as int, t.1 as int),
                pathIndex as int,
                path@.len() as int,
            )
        }),
        pathIndex <= r.1 <= pathIndex + 1,
        r.1 < path@.len(),
        final(lCont).wf() && final(rCont).wf(),
        final(lCont).constants == old(lCont).constants,
        final(rCont).constants == old(rCont).constants,
        ({
            let px = position.0 as int;
            let py = position.1 as int;
            let t = path@[pathIndex as int];
            let h = dist_sp(px, py, t.0 as int, t.1 as int);
            let c = carrot_sp(
                t.0 as int,
                t.1 as int,
                h,
                bearing_sp(px, py, t.0 as int, t.1 as int),
                dLead as int,
            );
            let le = dist_sp(px, py, c.0, c.1);
            let re = rotation_error_sp(px, py, heading as int, c.0, c.1);
            &&& final(lCont).prevError as int == le
            &&& final(lCont).integral as int == pid_integral_next(
                old(lCont).constants,
                old(lCont).integral as int,
                le,
            )
            &&& final(rCont).prevError as int == re
            &&& final(rCont).integral as int == pid_integral_next(
                old(rCont).constants,
                old(rCont).integral as int,
                re,
            )
        }),
{
    let target = path[pathIndex];
    let thetaEnd = absoluteAngleToPoint(position, target);
    let vel = boomerangVel(
        position,
        heading,
        target,
        dLead,
        thetaEnd,
        rotationCut,
        lCont,
        rCont,
        min,
    );
    let d = dist(position, target);
    let next = if d < WAYPOINT_RADIUS && pathIndex < path.len() - 1 {
        pathIndex + 1
    } else {
        pathIndex
    };
    (vel, next)
}

/// Reciprocal of the curvature (1/c on scaled values).
pub open spec fn euler_inv_sp(curv: int) -> int
    recommends
        curv != 0,
{
    tdiv(1_000_000, curv)
}

/// Left-side velocity scale of the in-place turn: error * (1/c + 15).
pub open spec fn euler_sl_sp(error: int, curv: int) -> int {
    tdiv(error * (euler_inv_sp(curv) + 15_000), 1000)
}

/// Right-side velocity scale of the in-place turn: error * (1/c - 15).
pub open spec fn euler_sr_sp(error: int, curv: int) -> int {
    tdiv(error * (euler_inv_sp(curv) - 15_000), 1000)
}

/// Ratio of the two side scales.
pub open spec fn euler_ratio_sp(error: int, curv: int) -> int
    recommends
        euler_sr_sp(error, curv) != 0,
{
    tdiv(euler_sl_sp(error, curv) * 1000, euler_sr_sp(error, curv))
}

/// The turn's PID output clamped to 127 in magnitude.
pub open spec fn clamp127_sp(v: int) -> int {
    if abs_sp(v) >= 127_000 {
        if v >= 0 { 127_000 } else { -127_000 }
    } else {
        v
    }
}

/// Wheel commands reconstructed from the clamped output and the side
/// ratio, mirrored by the direction flag.
pub open spec fn euler_wheels_sp(vel: int, ratio: int, dir: int) -> (int, int) {
    let rv = tdiv(2000 * vel, ratio + 1000);
    let lv = tdiv(ratio * rv, 1000);
    if dir < 0 { (lv, rv) } else { (-rv, -lv) }
}

/// The turn tick is defined: the ramped curvature, the right-side scale and
/// the shifted ratio are all nonzero, so no division degenerates.
pub open spec fn euler_ok_sp(theta: int, heading: int, rate: int, curvature: int) -> bool {
    let curv = curvature + rate;
    let error = min_error_sp(theta, heading);
    &&& curv != 0
    &&& euler_sr_sp(error, curv) != 0
    &&& euler_ratio_sp(error, curv) != -1000
}

/// One tick of the curvature-ramped in-place turn toward heading `theta`:
/// ramp the curvature by `rate`, run the heading error through the PID
/// controller, clamp, and split into wheel commands by the side ratio.
/// Returns the commands with the ramped curvature, or `None` on the inputs
/// where the arithmetic would divide by zero, rather than letting a
/// degenerate value reach the wheels: the caller must choose the ramp so
/// the curvature never crosses zero.
pub fn eulerTurnVel(
    theta: i64,
    rate: i64,
    curvature: i64,
    heading: i64,
    dir: i8,
    controller: &mut Pid,
) -> (r: Option<((i64, i64), i64)>)
    requires
        0 <= theta < DEG360,
        0 <= heading < DEG360,
        abs_sp(rate as int) <= CURV_LIMIT,
        abs_sp(curvature as int) <= CURV_LIMIT,
        old(controller).wf(),
    ensures
        (r is Some) == euler_ok_sp(theta as int, heading as int, rate as int, curvature as int),
        r is None ==> *final(controller) == *old(controller),
        r matches Some(v) ==> ({
            let curv = curvature as int + rate as int;
            let error = min_error_sp(theta as int, heading as int);
            let ratio = euler_ratio_sp(error, curv);
            let vel = clamp127_sp(
                pid_out_sp(
                    old(controller).constants,
                    old(controller).prevError as int,
                    old(controller).integral as int,
                    error,
                ),
            );
            let w = euler_wheels_sp(vel, ratio, dir as int);
            &&& v.1 == curv
            &&& (v.0.0 as int, v.0.1 as int) == w
            &&& final(controller).wf()
            &&& final(controller).constants == old(controller).constants
            &&& final(controller).prevError as int == error
            &&& final(controller).integral as int == pid_integral_next(
                old(controller).constants,
                old(controller).integral as int,
                error,
            )
        }),
{
    let curv = curvature + rate;
    if curv == 0 {
        return None;
    }
    let error = minError(theta, heading);
    let inv = div_fix(1_000_000, curv);
    proof {
        lemma_mul_mag(error as int, inv as int + 15_000, 180_000, 1_015_000);
        lemma_mul_mag(error as int, inv as int - 15_000, 180_000, 1_015_000);
        lemma_tdiv_mag(error as int * (inv as int + 15_000), 1000, 190_000_000_000);
        lemma_tdiv_mag(error as int * (inv as int - 15_000), 1000, 190_000_000_000);
    }
    let sl = div_fix(error * (inv + 15_000), 1000);
    let sr = div_fix(error * (inv - 15_000), 1000);
    if sr == 0 {
        return None;
    }
    proof {
        lemma_mul_mag(sl as int, 1000, 190_000_000, 1000);
    }
    let ratio = div_fix(sl * 1000, sr);
    if ratio == -1000 {
        return None;
    }
    let out = controller.out(error);
    let vel = if abs_i64(out) >= 127_000 {
        if out >= 0 { 127_000 } else { -127_000 }
    } else {
        out
    };
    proof {
        lemma_mul_mag(2000, vel as int, 2000, 127_000);
    }
    let rvel = div_fix(2000 * vel, ratio + 1000);
    proof {
        lemma_mul_mag(ratio as int, rvel as int, 190_000_000_000, 254_000_000);
        lemma_tdiv_mag(ratio as int * rvel as int, 1000, 48_260_000_000_000_000_000);
    }
    let prod: i128 = (ratio as i128) * (rvel as i128);
    let q: i128 = if prod >= 0 { prod / 1000 } else { -((-prod) / 1000) };
    let lvel: i64 = q as i64;
    let pair = if dir < 0 { (lvel, rvel) } else { (-rvel, -lvel) };
    Some((pair, curv))
}

} // verus!

//! Motion-control core for a two-wheel differential-drive robot.
//!
//! All quantities are scaled integers ("milli-units": one thousandth of a
//! unit, a degree or a gain per step), so every computation here is exact
//! integer arithmetic with proved bounds. Angle utilities, the PID
//! controller, the differential-drive velocity mixer and the per-tick step
//! functions of the four motion primitives live here; the timed loops that
//! read a robot's pose and issue wheel commands are thin callers around
//! these functions.
#![allow(non_snake_case)]

pub mod fixed;
pub mod trig;
pub mod util;
pub mod movement;

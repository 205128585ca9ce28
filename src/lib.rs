//! Fixed-point model of an elevator cabin under a bang-bang motion controller.
//!
//! Lengths are micrometres, times microseconds, velocities micrometres per
//! second, accelerations micrometres per second squared and voltages
//! millivolts. All arithmetic is exact integer arithmetic.

pub mod motion;
pub mod control;
pub mod simulation;
pub mod stats;
pub mod render;
pub mod text;
pub mod config;

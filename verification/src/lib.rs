//! Logical input state: bindings from physical key codes to logical axes and
//! buttons, with simulated-analog ("tweened") axis positions.
//!
//! Axis positions are fixed-point values: `tween::AXIS_UNIT` micro-units stand
//! for an axis value of 1.0, and elapsed time is given in milliseconds.

pub mod assoc;
pub mod manager;
pub mod tween;

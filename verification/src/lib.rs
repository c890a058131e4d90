//! Triggered sensor-logging pipeline: fixed-size windows of an amplitude
//! signal are normalized, smoothed with an edge-weighted moving-average
//! filter, and measured for RMS energy; windows whose energy exceeds a
//! threshold are encoded together with a timed burst of position fixes
//! into a storage record.
//!
//! Amplitudes and coordinates are fixed-point integers: a signal value of
//! `1.0` is represented by [`config::FIXED_POINT_ONE`].

pub mod arith;
pub mod codec;
pub mod config;
pub mod controller;
pub mod energy;
pub mod filter;
pub mod normalize;
pub mod position;
pub mod source;

use vstd::prelude::*;

verus! {

} // verus!

//! A real-time one-pole filter engine: integrator state, per-sample
//! parameter smoothing, and multi-mode output derivation (lowpass,
//! highpass, allpass, low shelf, high shelf), together with the pure
//! parameter maps from normalized controls to physical quantities.
//!
//! All signals, coefficients and gains are fixed-point integers scaled
//! by `fixed::SCALE` (Q24), so every arithmetic step has an exact
//! integer meaning that the contracts state.

pub mod fixed;
pub mod filter;
pub mod math;
pub mod params;
pub mod smoother;

//! The host-facing parameter snapshot: a normalized cutoff control, a
//! gain in decibels and a response mode, with the pure translation into
//! the physical quantities the filter needs.

use vstd::prelude::*;
use crate::filter::FilterMode;
use crate::fixed::SCALE;
use crate::math::{map_cutoff, spec_map_cutoff, DB_MAX, THETA_MAX};

verus! {

/// One consistent read of the three automatable parameters, taken once
/// per block. All values are Q24 fixed point.
pub struct OnePoleParams {
    /// Normalized cutoff control in `[0, 1]`, mapped exponentially onto
    /// 13 Hz through 21000 Hz.
    pub cutoff: i64,
    /// Gain in decibels, within `[-30, 30]`.
    pub gain: i64,
    /// The response mode for the block.
    pub mode: FilterMode,
}

impl OnePoleParams {
    /// All parameters are inside their declared ranges.
    pub open spec fn wf(self) -> bool {
        &&& 0 <= self.cutoff <= SCALE
        &&& -DB_MAX <= self.gain <= DB_MAX
    }

    /// Translate the snapshot into what the filter consumes: the
    /// half-angular cutoff for the given sample rate, the gain in
    /// decibels, and the mode.
    pub fn get_values(&self, sample_rate: u32) -> (r: (i64, i64, FilterMode))
        requires
            self.wf(),
            8000 <= sample_rate <= 1000000,
        ensures
            r.0 == spec_map_cutoff(self.cutoff as int, sample_rate as int),
            0 <= r.0 <= THETA_MAX,
            r.1 == self.gain,
            r.2 == self.mode,
    {
        let theta = map_cutoff(self.cutoff, sample_rate);
        (theta, self.gain, self.mode)
    }
}

impl Default for OnePoleParams {
    /// Centered cutoff, unity gain, lowpass response.
    fn default() -> (p: Self)
        ensures
            p.cutoff == SCALE / 2,
            p.gain == 0,
            p.mode == FilterMode::Lowpass,
            p.wf(),
    {
        OnePoleParams { cutoff: SCALE / 2, gain: 0, mode: FilterMode::Lowpass }
    }
}

} // verus!

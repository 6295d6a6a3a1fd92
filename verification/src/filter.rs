//! The one-pole filter core: a stereo integrator holding one state
//! value per channel, smoothed coefficient and gain, and the
//! mode-dependent output derivation, all computed from the one shared
//! integrator state.

use vstd::prelude::*;
use crate::fixed::{fmul, fx_mul, lemma_fmul_abs_bound, lemma_fmul_one, lemma_fmul_step, SCALE};
use crate::math::{
    db_to_log2, exp2_fx, g_from_theta, spec_db_to_log2, spec_exp2, spec_g_from_theta, DB_MAX,
    EXP2_11_MAX, LOG_GAIN_MAX, THETA_MAX,
};
use crate::smoother::{between, Smoother};

verus! {

/// Largest sample magnitude the filter accepts, in Q24; the integrator
/// state never leaves this range when inputs stay inside it.
pub const SAMPLE_MAX: i64 = 137438953472;

/// One stereo sample: one value per channel, in Q24.
#[derive(Clone, Copy, PartialEq, Eq, Structural, Debug)]
pub struct Frame {
    pub left: i64,
    pub right: i64,
}

impl Frame {
    /// Both channel values are within the accepted sample range.
    pub open spec fn in_range(self) -> bool {
        &&& -SAMPLE_MAX <= self.left <= SAMPLE_MAX
        &&& -SAMPLE_MAX <= self.right <= SAMPLE_MAX
    }

    /// The silent sample.
    pub fn zero() -> (f: Frame)
        ensures
            f.left == 0,
            f.right == 0,
            f.in_range(),
    {
        Frame { left: 0, right: 0 }
    }
}

/// The closed set of response modes derived from the one integrator
/// state; selected once per block, never smoothed.
#[derive(Clone, Copy, PartialEq, Eq, Structural, Debug)]
pub enum FilterMode {
    Highpass,
    Lowpass,
    Allpass,
    LowShelf,
    HighShelf,
}

impl Default for FilterMode {
    /// The neutral mode a fresh filter starts in.
    fn default() -> (m: Self)
        ensures
            m == FilterMode::Lowpass,
    {
        FilterMode::Lowpass
    }
}

/// The integrator update on one channel: the state moves toward the
/// input by the coefficient-scaled difference it is handed.
pub open spec fn spec_integ(s: int, d: int, g: int) -> int {
    s + fmul(g, d)
}

/// One whole filter step on one channel: difference from the previous
/// output, scaled by the coefficient, accumulated into the state. This
/// is the lowpass output for the sample.
pub open spec fn spec_step(s: int, x: int, g: int) -> int {
    s + fmul(g, x - s)
}

/// Per-channel filter state: the accumulated value from the previous
/// sample, one per channel.
pub struct Integrator {
    pub state: Frame,
}

impl Integrator {
    /// A zero-initialized integrator.
    pub fn new() -> (i: Integrator)
        ensures
            i.state.left == 0,
            i.state.right == 0,
    {
        Integrator { state: Frame { left: 0, right: 0 } }
    }

    /// The stored state: between samples this is the previous sample's
    /// output, which the next update differences against.
    pub fn previous_output(&self) -> (f: Frame)
        ensures
            f == self.state,
    {
        self.state
    }

    /// Advance one sample: add the coefficient-scaled difference to the
    /// state on each channel and return the new state.
    pub fn process(&mut self, delta: Frame, g: i64) -> (out: Frame)
        requires
            old(self).state.in_range(),
            -2 * SAMPLE_MAX <= delta.left <= 2 * SAMPLE_MAX,
            -2 * SAMPLE_MAX <= delta.right <= 2 * SAMPLE_MAX,
            0 <= g <= SCALE,
        ensures
            final(self).state.left == spec_integ(
                old(self).state.left as int,
                delta.left as int,
                g as int,
            ),
            final(self).state.right == spec_integ(
                old(self).state.right as int,
                delta.right as int,
                g as int,
            ),
            out == final(self).state,
    {
        proof {
            lemma_fmul_step(g as int, delta.left as int);
            lemma_fmul_step(g as int, delta.right as int);
        }
        let l = self.state.left + fx_mul(g, delta.left);
        let r = self.state.right + fx_mul(g, delta.right);
        self.state = Frame { left: l, right: r };
        self.state
    }

    /// Flush the state to silence on both channels.
    pub fn reset(&mut self)
        ensures
            final(self).state.left == 0,
            final(self).state.right == 0,
    {
        self.state = Frame { left: 0, right: 0 };
    }
}

/// Whether a mode uses the smoothed shelf gain.
pub open spec fn is_shelving(mode: FilterMode) -> bool {
    mode == FilterMode::LowShelf || mode == FilterMode::HighShelf
}

/// The mode-dependent output on one channel, as a pure function of the
/// retained input sample `x`, the lowpass value `lp` (the integrator
/// state after the sample's update), and the linear gain.
pub open spec fn out_lane(mode: FilterMode, x: int, lp: int, gain: int) -> int {
    match mode {
        FilterMode::Highpass => x - lp,
        FilterMode::Lowpass => lp,
        FilterMode::Allpass => 2 * lp - x,
        FilterMode::LowShelf => fmul(gain, lp) + (x - lp),
        FilterMode::HighShelf => lp + fmul(gain, x - lp),
    }
}

/// The one-pole filter: a coefficient smoother, a log-domain gain
/// smoother with its current linear value, the integrator, the retained
/// input sample, and the block-stable response mode.
pub struct OnePoleFilter {
    /// Smoothed filter coefficient, always within `[0, 1)` in Q24.
    pub coeff: Smoother,
    /// Smoothed gain, held in the base-two log domain so that equal
    /// smoothing steps are equal gain ratios.
    pub gain_log: Smoother,
    /// The linear gain for the current sample: the exponential of the
    /// smoothed log-domain gain.
    pub gain_lin: i64,
    /// The shared per-channel state all modes derive from.
    pub integrator: Integrator,
    /// The input sample retained for the differencing formulas.
    pub input: Frame,
    /// The response mode for the current block.
    pub mode: FilterMode,
}

impl OnePoleFilter {
    /// All fields are in their working ranges.
    pub open spec fn wf(self) -> bool {
        &&& self.coeff.wf()
        &&& 0 <= self.coeff.current < SCALE
        &&& 0 <= self.coeff.target < SCALE
        &&& self.gain_log.wf()
        &&& -LOG_GAIN_MAX <= self.gain_log.current <= LOG_GAIN_MAX
        &&& -LOG_GAIN_MAX <= self.gain_log.target <= LOG_GAIN_MAX
        &&& 0 <= self.gain_lin <= EXP2_11_MAX
        &&& self.integrator.state.in_range()
        &&& self.input.in_range()
    }

    /// A fresh filter: silent state, zero coefficient, unity gain.
    pub fn new() -> (f: OnePoleFilter)
        ensures
            f.wf(),
            f.integrator.state.left == 0,
            f.integrator.state.right == 0,
            f.coeff.current == 0,
            f.gain_lin == SCALE,
            f.mode == FilterMode::Lowpass,
    {
        OnePoleFilter {
            coeff: Smoother::new(0),
            gain_log: Smoother::new(0),
            gain_lin: SCALE,
            integrator: Integrator::new(),
            input: Frame { left: 0, right: 0 },
            mode: FilterMode::Lowpass,
        }
    }

    /// Select the response mode for the coming block.
    pub fn set_mode(&mut self, mode: FilterMode)
        requires
            old(self).wf(),
        ensures
            final(self).mode == mode,
            final(self).coeff == old(self).coeff,
            final(self).gain_log == old(self).gain_log,
            final(self).gain_lin == old(self).gain_lin,
            final(self).integrator.state == old(self).integrator.state,
            final(self).input == old(self).input,
            final(self).wf(),
    {
        self.mode = mode;
    }

    /// Set the coefficient smoothing target from a half-angular cutoff,
    /// to be reached over `block_len` samples.
    pub fn set_cutoff_smoothed(&mut self, theta: i64, block_len: u32)
        requires
            old(self).wf(),
            0 <= theta <= THETA_MAX,
            1 <= block_len,
        ensures
            final(self).coeff.target == spec_g_from_theta(theta as int),
            final(self).coeff.remaining == block_len,
            final(self).coeff.current == old(self).coeff.current,
            final(self).gain_log == old(self).gain_log,
            final(self).gain_lin == old(self).gain_lin,
            final(self).integrator.state == old(self).integrator.state,
            final(self).input == old(self).input,
            final(self).mode == old(self).mode,
            final(self).wf(),
    {
        let g = g_from_theta(theta);
        self.coeff.set_target(g, block_len);
    }

    /// Set both smoothing targets, cutoff and shelf gain, for the
    /// shelving modes.
    pub fn set_params_shelving_smoothed(&mut self, theta: i64, gain_db: i64, block_len: u32)
        requires
            old(self).wf(),
            0 <= theta <= THETA_MAX,
            -DB_MAX <= gain_db <= DB_MAX,
            1 <= block_len,
        ensures
            final(self).coeff.target == spec_g_from_theta(theta as int),
            final(self).coeff.remaining == block_len,
            final(self).coeff.current == old(self).coeff.current,
            final(self).gain_log.target == spec_db_to_log2(gain_db as int),
            final(self).gain_log.remaining == block_len,
            final(self).gain_log.current == old(self).gain_log.current,
            final(self).gain_lin == old(self).gain_lin,
            final(self).integrator.state == old(self).integrator.state,
            final(self).input == old(self).input,
            final(self).mode == old(self).mode,
            final(self).wf(),
    {
        let g = g_from_theta(theta);
        self.coeff.set_target(g, block_len);
        let lg = db_to_log2(gain_db);
        self.gain_log.set_target(lg, block_len);
    }

    /// Snap both parameters into place with no smoothing ramp, as at
    /// stream initialization.
    pub fn set_params_now(&mut self, theta: i64, gain_db: i64)
        requires
            old(self).wf(),
            0 <= theta <= THETA_MAX,
            -DB_MAX <= gain_db <= DB_MAX,
        ensures
            final(self).coeff.current == spec_g_from_theta(theta as int),
            final(self).coeff.target == final(self).coeff.current,
            final(self).coeff.remaining == 0,
            final(self).gain_log.current == spec_db_to_log2(gain_db as int),
            final(self).gain_log.target == final(self).gain_log.current,
            final(self).gain_log.remaining == 0,
            final(self).gain_lin == spec_exp2(spec_db_to_log2(gain_db as int)),
            gain_db == 0 ==> final(self).gain_lin == SCALE,
            final(self).integrator.state == old(self).integrator.state,
            final(self).input == old(self).input,
            final(self).mode == old(self).mode,
            final(self).wf(),
    {
        let g = g_from_theta(theta);
        self.coeff.set_now(g);
        let lg = db_to_log2(gain_db);
        self.gain_log.set_now(lg);
        self.gain_lin = exp2_fx(lg);
    }

    /// Advance both smoothers one step and refresh the linear gain;
    /// call exactly once per sample, before `process`.
    pub fn update_smoothers(&mut self)
        requires
            old(self).wf(),
        ensures
            final(self).coeff == old(self).coeff.spec_tick(),
            final(self).gain_log == old(self).gain_log.spec_tick(),
            final(self).gain_lin == spec_exp2(final(self).gain_log.current as int),
            final(self).gain_log.current == 0 ==> final(self).gain_lin == SCALE,
            final(self).integrator.state == old(self).integrator.state,
            final(self).input == old(self).input,
            final(self).mode == old(self).mode,
            final(self).wf(),
    {
        self.coeff.tick();
        self.gain_log.tick();
        let lg = self.gain_log.current();
        self.gain_lin = exp2_fx(lg);
    }

    /// Advance the integrator by one input sample; call exactly once
    /// per sample, after `update_smoothers`. The retained input and the
    /// new state together determine every mode's output.
    pub fn process(&mut self, x: Frame)
        requires
            old(self).wf(),
            x.in_range(),
        ensures
            final(self).integrator.state.left == spec_step(
                old(self).integrator.state.left as int,
                x.left as int,
                old(self).coeff.current as int,
            ),
            final(self).integrator.state.right == spec_step(
                old(self).integrator.state.right as int,
                x.right as int,
                old(self).coeff.current as int,
            ),
            final(self).input == x,
            final(self).coeff == old(self).coeff,
            final(self).gain_log == old(self).gain_log,
            final(self).gain_lin == old(self).gain_lin,
            final(self).mode == old(self).mode,
            final(self).wf(),
    {
        let prev = self.integrator.previous_output();
        let delta = Frame { left: x.left - prev.left, right: x.right - prev.right };
        proof {
            lemma_fmul_step(self.coeff.current as int, delta.left as int);
            lemma_fmul_step(self.coeff.current as int, delta.right as int);
        }
        let g = self.coeff.current();
        self.integrator.process(delta, g);
        self.input = x;
    }

    /// Derive the current sample's output for the block's mode: a pure
    /// read of the retained input, the integrator state and the gain.
    pub fn get_output(&self) -> (out: Frame)
        requires
            self.wf(),
        ensures
            out.left == out_lane(
                self.mode,
                self.input.left as int,
                self.integrator.state.left as int,
                self.gain_lin as int,
            ),
            out.right == out_lane(
                self.mode,
                self.input.right as int,
                self.integrator.state.right as int,
                self.gain_lin as int,
            ),
    {
        let x = self.input;
        let lp = self.integrator.state;
        match self.mode {
            FilterMode::Lowpass => lp,
            FilterMode::Highpass => Frame { left: x.left - lp.left, right: x.right - lp.right },
            FilterMode::Allpass => Frame {
                left: 2 * lp.left - x.left,
                right: 2 * lp.right - x.right,
            },
            FilterMode::LowShelf => {
                proof {
                    lemma_fmul_abs_bound(
                        self.gain_lin as int,
                        lp.left as int,
                        EXP2_11_MAX as int,
                        SAMPLE_MAX as int,
                    );
                    lemma_fmul_abs_bound(
                        self.gain_lin as int,
                        lp.right as int,
                        EXP2_11_MAX as int,
                        SAMPLE_MAX as int,
                    );
                }
                let gl = fx_mul(self.gain_lin, lp.left);
                let gr = fx_mul(self.gain_lin, lp.right);
                Frame { left: gl + (x.left - lp.left), right: gr + (x.right - lp.right) }
            },
            FilterMode::HighShelf => {
                proof {
                    lemma_fmul_abs_bound(
                        self.gain_lin as int,
                        x.left - lp.left as int,
                        EXP2_11_MAX as int,
                        2 * SAMPLE_MAX as int,
                    );
                    lemma_fmul_abs_bound(
                        self.gain_lin as int,
                        x.right - lp.right as int,
                        EXP2_11_MAX as int,
                        2 * SAMPLE_MAX as int,
                    );
                }
                let gl = fx_mul(self.gain_lin, x.left - lp.left);
                let gr = fx_mul(self.gain_lin, x.right - lp.right);
                Frame { left: lp.left + gl, right: lp.right + gr }
            },
        }
    }

    /// Per-block parameter update: select the mode, then refresh the
    /// smoothing targets it needs — cutoff only, or cutoff and shelf
    /// gain for the shelving modes.
    pub fn update_params(&mut self, theta: i64, gain_db: i64, mode: FilterMode, block_len: u32)
        requires
            old(self).wf(),
            0 <= theta <= THETA_MAX,
            -DB_MAX <= gain_db <= DB_MAX,
            1 <= block_len,
        ensures
            final(self).mode == mode,
            final(self).coeff.target == spec_g_from_theta(theta as int),
            final(self).coeff.remaining == block_len,
            final(self).coeff.current == old(self).coeff.current,
            is_shelving(mode) ==> final(self).gain_log.target == spec_db_to_log2(gain_db as int)
                && final(self).gain_log.remaining == block_len
                && final(self).gain_log.current == old(self).gain_log.current,
            !is_shelving(mode) ==> final(self).gain_log == old(self).gain_log,
            final(self).gain_lin == old(self).gain_lin,
            final(self).integrator.state == old(self).integrator.state,
            final(self).input == old(self).input,
            final(self).wf(),
    {
        self.set_mode(mode);
        match mode {
            FilterMode::LowShelf => self.set_params_shelving_smoothed(theta, gain_db, block_len),
            FilterMode::HighShelf => self.set_params_shelving_smoothed(theta, gain_db, block_len),
            _ => self.set_cutoff_smoothed(theta, block_len),
        }
    }

    /// Stream initialization: select the mode and snap both parameters
    /// into place with no smoothing ramp.
    pub fn initialize_params(&mut self, theta: i64, gain_db: i64, mode: FilterMode)
        requires
            old(self).wf(),
            0 <= theta <= THETA_MAX,
            -DB_MAX <= gain_db <= DB_MAX,
        ensures
            final(self).mode == mode,
            final(self).coeff.current == spec_g_from_theta(theta as int),
            final(self).coeff.target == final(self).coeff.current,
            final(self).coeff.remaining == 0,
            final(self).gain_log.current == spec_db_to_log2(gain_db as int),
            final(self).gain_log.remaining == 0,
            final(self).gain_lin == spec_exp2(spec_db_to_log2(gain_db as int)),
            gain_db == 0 ==> final(self).gain_lin == SCALE,
            final(self).integrator.state == old(self).integrator.state,
            final(self).input == old(self).input,
            final(self).wf(),
    {
        self.set_mode(mode);
        self.set_params_now(theta, gain_db);
    }

    /// Process one whole block in place: for each frame, advance the
    /// smoothers, advance the integrator, derive the mode-selected
    /// output and write it back. The final state is the model fold of
    /// the input frames, and every written sample is the model output
    /// right after its frame.
    pub fn process_block(&mut self, samples: &mut Vec<Frame>)
        requires
            old(self).wf(),
            forall|j: int| 0 <= j < old(samples)@.len() ==> old(samples)@[j].in_range(),
        ensures
            final(samples)@.len() == old(samples)@.len(),
            *final(self) == spec_run(*old(self), old(samples)@),
            forall|j: int|
                0 <= j < old(samples)@.len() ==> final(samples)@[j] == spec_output_of(
                    spec_run(*old(self), old(samples)@.take(j + 1)),
                ),
            final(self).wf(),
    {
        let ghost f0 = *self;
        let ghost inputs = samples@;
        let n = samples.len();
        let mut i: usize = 0;
        while i < n
            invariant
                self.wf(),
                i <= n,
                samples@.len() == n,
                inputs.len() == n,
                forall|j: int| 0 <= j < n ==> inputs[j].in_range(),
                *self == spec_run(f0, inputs.take(i as int)),
                forall|j: int|
                    0 <= j < i ==> samples@[j] == spec_output_of(spec_run(f0, inputs.take(j + 1))),
                forall|j: int| i <= j < n ==> samples@[j] == inputs[j],
            decreases n - i,
        {
            let x = samples[i];
            let ghost fprev = *self;
            self.update_smoothers();
            self.process(x);
            let out = self.get_output();
            samples[i] = out;
            proof {
                assert(inputs.take(i as int + 1).drop_last() =~= inputs.take(i as int));
                assert(inputs.take(i as int + 1).last() == inputs[i as int]);
                assert(*self == spec_advance(fprev, x));
                assert(out == spec_output_of(*self));
            }
            i = i + 1;
        }
        proof {
            assert(inputs.take(n as int) =~= inputs);
        }
    }

    /// Flush the integrator to silence; smoother targets are left
    /// untouched, the next block's parameter update refreshes them.
    pub fn reset(&mut self)
        requires
            old(self).wf(),
        ensures
            final(self).integrator.state.left == 0,
            final(self).integrator.state.right == 0,
            final(self).coeff == old(self).coeff,
            final(self).gain_log == old(self).gain_log,
            final(self).gain_lin == old(self).gain_lin,
            final(self).input == old(self).input,
            final(self).mode == old(self).mode,
            final(self).wf(),
    {
        self.integrator.reset();
    }
}

impl Default for OnePoleFilter {
    /// Same neutral state as `new`.
    fn default() -> (f: Self)
        ensures
            f.wf(),
            f.integrator.state.left == 0,
            f.integrator.state.right == 0,
            f.gain_lin == SCALE,
            f.mode == FilterMode::Lowpass,
    {
        OnePoleFilter::new()
    }
}

/// The model of one whole frame: both smoothers advance, the linear
/// gain is refreshed, the integrator accumulates the new input with the
/// freshly smoothed coefficient, and the input is retained; the mode is
/// untouched.
pub open spec fn spec_advance(f: OnePoleFilter, x: Frame) -> OnePoleFilter {
    let coeff = f.coeff.spec_tick();
    let gain_log = f.gain_log.spec_tick();
    OnePoleFilter {
        coeff: coeff,
        gain_log: gain_log,
        gain_lin: spec_exp2(gain_log.current as int) as i64,
        integrator: Integrator {
            state: Frame {
                left: spec_step(
                    f.integrator.state.left as int,
                    x.left as int,
                    coeff.current as int,
                ) as i64,
                right: spec_step(
                    f.integrator.state.right as int,
                    x.right as int,
                    coeff.current as int,
                ) as i64,
            },
        },
        input: x,
        mode: f.mode,
    }
}

/// The output frame the current state derives for the block's mode.
pub open spec fn spec_output_of(f: OnePoleFilter) -> Frame {
    Frame {
        left: out_lane(
            f.mode,
            f.input.left as int,
            f.integrator.state.left as int,
            f.gain_lin as int,
        ) as i64,
        right: out_lane(
            f.mode,
            f.input.right as int,
            f.integrator.state.right as int,
            f.gain_lin as int,
        ) as i64,
    }
}

/// The filter state after a whole sequence of frames.
pub open spec fn spec_run(f: OnePoleFilter, inputs: Seq<Frame>) -> OnePoleFilter
    decreases inputs.len(),
{
    if inputs.len() == 0 {
        f
    } else {
        spec_advance(spec_run(f, inputs.drop_last()), inputs.last())
    }
}

/// Running a block advances each smoother once per frame, whatever the
/// samples are, and keeps the linear gain the exponential of the
/// smoothed log-domain gain.
pub proof fn lemma_run_smoothers(f: OnePoleFilter, inputs: Seq<Frame>)
    ensures
        spec_run(f, inputs).coeff == f.coeff.spec_tick_n(inputs.len()),
        spec_run(f, inputs).gain_log == f.gain_log.spec_tick_n(inputs.len()),
        spec_run(f, inputs).mode == f.mode,
        inputs.len() >= 1 ==> spec_run(f, inputs).gain_lin == spec_exp2(
            spec_run(f, inputs).gain_log.current as int,
        ) as i64,
    decreases inputs.len(),
{
    if inputs.len() > 0 {
        lemma_run_smoothers(f, inputs.drop_last());
        crate::smoother::lemma_tick_n_snoc(f.coeff, (inputs.len() - 1) as nat);
        crate::smoother::lemma_tick_n_snoc(f.gain_log, (inputs.len() - 1) as nat);
    }
}

/// Block convergence law: over a block exactly as long as the smoothing
/// ramp, whatever the input samples are, the coefficient lands exactly
/// on its target and the linear gain becomes exactly the exponential of
/// the log-domain gain target — the geometric ramp ends on the mapped
/// gain itself.
pub proof fn lemma_block_convergence(f: OnePoleFilter, inputs: Seq<Frame>)
    requires
        f.coeff.wf(),
        f.gain_log.wf(),
        inputs.len() == f.coeff.remaining,
        inputs.len() == f.gain_log.remaining,
        inputs.len() >= 1,
    ensures
        spec_run(f, inputs).coeff.current == f.coeff.target,
        spec_run(f, inputs).coeff.remaining == 0,
        spec_run(f, inputs).gain_lin == spec_exp2(f.gain_log.target as int) as i64,
{
    lemma_run_smoothers(f, inputs);
    crate::smoother::lemma_smoother_convergence(f.coeff);
    crate::smoother::lemma_smoother_convergence(f.gain_log);
}

/// Gain monotone law, logarithmic path: each advance of the log-domain
/// gain smoother moves the linear gain — the exponential of the
/// smoothed value — weakly toward the target's linear gain and never
/// past it: the geometric ramp neither reverses nor overshoots.
pub proof fn lemma_gain_ramp_monotone(s: Smoother)
    requires
        s.wf(),
    ensures
        between(
            spec_exp2(s.current as int),
            spec_exp2(s.target as int),
            spec_exp2(s.spec_tick().current as int),
        ),
{
    crate::smoother::lemma_tick_props(s);
    let c = s.current as int;
    let t = s.target as int;
    let m = s.spec_tick().current as int;
    if c <= t {
        crate::math::lemma_exp2_monotone(c, m);
        crate::math::lemma_exp2_monotone(m, t);
    } else {
        crate::math::lemma_exp2_monotone(t, m);
        crate::math::lemma_exp2_monotone(m, c);
    }
}

/// Reset law: from a flushed state, a zero input sample produces a zero
/// output in every mode, whatever the coefficient and gain are.
pub proof fn lemma_reset_zero(mode: FilterMode, g: int, gain: int)
    requires
        0 <= g <= SCALE as int,
    ensures
        spec_step(0, 0, g) == 0,
        out_lane(mode, 0, 0, gain) == 0,
{
    assert(fmul(g, 0) == 0);
    assert(fmul(gain, 0) == 0);
}

/// Mode complementarity law: for every input and state — hence for any
/// input sequence under any fixed coefficient — the highpass and
/// lowpass outputs sum exactly to the input, and the allpass output is
/// exactly twice the lowpass output minus the input.
pub proof fn lemma_mode_complementarity(x: int, lp: int, gain: int)
    ensures
        out_lane(FilterMode::Highpass, x, lp, gain) + out_lane(FilterMode::Lowpass, x, lp, gain)
            == x,
        out_lane(FilterMode::Allpass, x, lp, gain) == 2 * out_lane(
            FilterMode::Lowpass,
            x,
            lp,
            gain,
        ) - x,
{
}

/// Shelf unity law: with the gain at exactly one, both shelving modes
/// pass the input through unchanged, for every input and state.
pub proof fn lemma_shelf_unity(x: int, lp: int)
    ensures
        out_lane(FilterMode::LowShelf, x, lp, SCALE as int) == x,
        out_lane(FilterMode::HighShelf, x, lp, SCALE as int) == x,
{
    lemma_fmul_one(lp);
    lemma_fmul_one(x - lp);
}

/// Stability law: with the coefficient in `[0, 1]`, a zero input drives
/// the state monotonically toward zero with no sign flip — an impulse
/// response decays, it never grows.
pub proof fn lemma_impulse_decay(s: int, g: int)
    requires
        0 <= g <= SCALE as int,
    ensures
        between(s, 0, spec_step(s, 0, g)),
{
    lemma_fmul_step(g, -s);
}

/// A unit impulse into a flushed filter puts exactly the coefficient
/// into the state: the first lowpass output sample is `g` itself.
pub proof fn lemma_unit_impulse_first_sample(g: int)
    requires
        0 <= g < SCALE as int,
    ensures
        spec_step(0, SCALE as int, g) == g,
{
    assert(g * SCALE as int == SCALE as int * g) by (nonlinear_arith);
    vstd::arithmetic::mul::lemma_mul_nonnegative(g, SCALE as int);
    vstd::arithmetic::div_mod::lemma_div_multiples_vanish(g, SCALE as int);
}

/// The state stays between its old value and the input whenever the
/// coefficient is in `[0, 1]`; bounded inputs therefore keep the state
/// bounded.
pub proof fn lemma_state_between(s: int, x: int, g: int)
    requires
        0 <= g <= SCALE as int,
    ensures
        between(s, x, spec_step(s, x, g)),
{
    lemma_fmul_step(g, x - s);
}

} // verus!

use one_pole::filter::{FilterMode, Frame, OnePoleFilter};
use one_pole::fixed::SCALE;
use one_pole::math::db_to_linear;
use one_pole::params::OnePoleParams;

const SCALE_F: f64 = 16777216.0;

fn to_fx(x: f64) -> i64 {
    (x * SCALE_F).round() as i64
}

fn from_fx(x: i64) -> f64 {
    x as f64 / SCALE_F
}

fn frame(l: f64, r: f64) -> Frame {
    Frame { left: to_fx(l), right: to_fx(r) }
}

/// A varied deterministic test signal within the unit range.
fn signal(n: usize) -> Vec<Frame> {
    let mut out = Vec::new();
    let mut x: i64 = 12345;
    for _ in 0..n {
        x = (x.wrapping_mul(1103515245).wrapping_add(12345)) % 16777216;
        let l = from_fx(x);
        let r = -0.5 * l + 0.25;
        out.push(frame(l, r));
    }
    out
}

fn all_modes() -> [FilterMode; 5] {
    [
        FilterMode::Highpass,
        FilterMode::Lowpass,
        FilterMode::Allpass,
        FilterMode::LowShelf,
        FilterMode::HighShelf,
    ]
}

#[test]
fn reset_then_zero_input_gives_zero_output_in_every_mode() {
    let sr = 48000u32;
    for mode in all_modes() {
        let params = OnePoleParams { cutoff: SCALE / 3, gain: 6 * SCALE, mode };
        let (theta, gain_db, m) = params.get_values(sr);
        let mut f = OnePoleFilter::new();
        f.initialize_params(theta, gain_db, m);
        // Push some signal through so the state is nonzero.
        for x in signal(32) {
            f.update_smoothers();
            f.process(x);
        }
        f.reset();
        f.update_smoothers();
        f.process(Frame { left: 0, right: 0 });
        let out = f.get_output();
        assert_eq!(out, Frame { left: 0, right: 0 }, "mode {mode:?}");
    }
}

#[test]
fn highpass_plus_lowpass_equals_input_exactly() {
    let sr = 48000u32;
    let params = OnePoleParams { cutoff: SCALE / 2, gain: 0, mode: FilterMode::Lowpass };
    let (theta, gain_db, _) = params.get_values(sr);
    let mut f = OnePoleFilter::new();
    f.initialize_params(theta, gain_db, FilterMode::Lowpass);
    for x in signal(200) {
        f.update_smoothers();
        f.process(x);
        f.set_mode(FilterMode::Lowpass);
        let lp = f.get_output();
        f.set_mode(FilterMode::Highpass);
        let hp = f.get_output();
        f.set_mode(FilterMode::Allpass);
        let ap = f.get_output();
        assert_eq!(hp.left + lp.left, x.left);
        assert_eq!(hp.right + lp.right, x.right);
        assert_eq!(ap.left, 2 * lp.left - x.left);
        assert_eq!(ap.right, 2 * lp.right - x.right);
    }
}

#[test]
fn shelves_pass_input_unchanged_at_zero_db() {
    let sr = 44100u32;
    for cutoff in [0i64, SCALE / 4, SCALE / 2, SCALE] {
        let params = OnePoleParams { cutoff, gain: 0, mode: FilterMode::LowShelf };
        let (theta, gain_db, _) = params.get_values(sr);
        let mut f = OnePoleFilter::new();
        f.initialize_params(theta, gain_db, FilterMode::LowShelf);
        for x in signal(64) {
            f.update_smoothers();
            f.process(x);
            f.set_mode(FilterMode::LowShelf);
            let low = f.get_output();
            f.set_mode(FilterMode::HighShelf);
            let high = f.get_output();
            assert_eq!(low, x);
            assert_eq!(high, x);
        }
    }
}

#[test]
fn lowpass_impulse_response_is_decaying_exponential() {
    // Sample rate 48 kHz, cutoff control at one half (about 522.5 Hz on
    // the exponential map), lowpass mode, unit impulse then silence.
    let sr = 48000u32;
    let params = OnePoleParams::default();
    let (theta, gain_db, mode) = params.get_values(sr);
    let mut f = OnePoleFilter::new();
    f.initialize_params(theta, gain_db, mode);

    let freq = 13.0 * (21000.0f64 / 13.0).sqrt();
    let t = (core::f64::consts::PI * freq / sr as f64).tan();
    let g = t / (1.0 + t);

    assert!((from_fx(f.coeff.current()) - g).abs() < 2e-3);

    let mut expect = g;
    let mut prev_out: i64 = i64::MAX;
    for n in 0..100 {
        let x = if n == 0 { frame(1.0, 1.0) } else { frame(0.0, 0.0) };
        f.update_smoothers();
        f.process(x);
        let out = f.get_output();
        assert_eq!(out.left, out.right);
        let got = from_fx(out.left);
        assert!(
            (got - expect).abs() <= 2e-2 * expect + 1e-5,
            "sample {n}: {got} vs {expect}"
        );
        // Decay is monotone and never goes negative.
        assert!(out.left >= 0);
        assert!(out.left <= prev_out);
        prev_out = out.left;
        expect *= 1.0 - g;
    }
}

#[test]
fn smoothed_cutoff_reaches_target_after_one_block() {
    let sr = 48000u32;
    let mut f = OnePoleFilter::new();
    let start = OnePoleParams { cutoff: 0, gain: 0, mode: FilterMode::Lowpass };
    let (theta0, gain_db, mode) = start.get_values(sr);
    f.initialize_params(theta0, gain_db, mode);

    let end = OnePoleParams { cutoff: SCALE, gain: 0, mode: FilterMode::Lowpass };
    let (theta1, _, _) = end.get_values(sr);
    f.update_params(theta1, 0, FilterMode::Lowpass, 100);
    let target = f.coeff.target;
    let mut prev = f.coeff.current();
    for _ in 0..100 {
        f.update_smoothers();
        f.process(Frame { left: 0, right: 0 });
        let c = f.coeff.current();
        assert!(c >= prev && c <= target, "coefficient ramp not monotone");
        prev = c;
    }
    assert_eq!(f.coeff.current(), target);
}

#[test]
fn smoothed_gain_lands_exactly_on_mapped_linear_gain() {
    let sr = 48000u32;
    let mut f = OnePoleFilter::new();
    let params = OnePoleParams { cutoff: SCALE / 2, gain: 0, mode: FilterMode::LowShelf };
    let (theta, _, mode) = params.get_values(sr);
    f.initialize_params(theta, 0, mode);
    // Ask for +6 dB over a 32-sample block.
    f.update_params(theta, 6 * SCALE, FilterMode::LowShelf, 32);
    for _ in 0..32 {
        f.update_smoothers();
        f.process(Frame { left: 0, right: 0 });
    }
    assert_eq!(f.gain_lin, db_to_linear(6 * SCALE));
}

#[test]
fn gain_ramp_is_monotone_in_linear_domain() {
    let sr = 48000u32;
    let mut f = OnePoleFilter::new();
    let params = OnePoleParams { cutoff: SCALE / 2, gain: -12 * SCALE, mode: FilterMode::HighShelf };
    let (theta, gain_db, mode) = params.get_values(sr);
    f.initialize_params(theta, gain_db, mode);
    f.update_params(theta, 12 * SCALE, FilterMode::HighShelf, 64);
    let mut prev = f.gain_lin;
    for _ in 0..64 {
        f.update_smoothers();
        f.process(Frame { left: 0, right: 0 });
        assert!(f.gain_lin >= prev, "gain ramp moved backwards");
        prev = f.gain_lin;
    }
    assert_eq!(f.gain_lin, db_to_linear(12 * SCALE));
}

#[test]
fn default_params_are_centered_lowpass() {
    let p = OnePoleParams::default();
    assert_eq!(p.cutoff, SCALE / 2);
    assert_eq!(p.gain, 0);
    assert!(matches!(p.mode, FilterMode::Lowpass));
    let f = OnePoleFilter::default();
    assert_eq!(f.gain_lin, SCALE);
    assert_eq!(f.integrator.state, Frame { left: 0, right: 0 });
}

#[test]
fn process_block_matches_the_per_sample_path() {
    let sr = 48000u32;
    let params = OnePoleParams { cutoff: SCALE / 3, gain: 9 * SCALE, mode: FilterMode::HighShelf };
    let (theta, gain_db, mode) = params.get_values(sr);

    let mut by_sample = OnePoleFilter::new();
    by_sample.initialize_params(theta, gain_db, mode);
    let mut by_block = OnePoleFilter::new();
    by_block.initialize_params(theta, gain_db, mode);

    let input = signal(128);
    by_sample.update_params(theta, gain_db, mode, 128);
    by_block.update_params(theta, gain_db, mode, 128);

    let mut expected = Vec::new();
    for x in &input {
        by_sample.update_smoothers();
        by_sample.process(*x);
        expected.push(by_sample.get_output());
    }

    let mut block = input.clone();
    by_block.process_block(&mut block);
    assert_eq!(block, expected);
    assert_eq!(by_block.integrator.state, by_sample.integrator.state);
    assert_eq!(by_block.gain_lin, by_sample.gain_lin);
}

#[test]
fn state_stays_bounded_under_sustained_input() {
    let sr = 48000u32;
    let params = OnePoleParams { cutoff: SCALE, gain: 0, mode: FilterMode::Lowpass };
    let (theta, gain_db, mode) = params.get_values(sr);
    let mut f = OnePoleFilter::new();
    f.initialize_params(theta, gain_db, mode);
    for x in signal(500) {
        f.update_smoothers();
        f.process(x);
        assert!(f.integrator.state.left.abs() <= SCALE);
        assert!(f.integrator.state.right.abs() <= SCALE);
    }
}

use one_pole::fixed::SCALE;
use one_pole::math::{db_to_linear, exp2_fx, g_from_theta, map_cutoff};

const SCALE_F: f64 = 16777216.0;

fn to_fx(x: f64) -> i64 {
    (x * SCALE_F).round() as i64
}

fn from_fx(x: i64) -> f64 {
    x as f64 / SCALE_F
}

/// The reference coefficient: `tan(theta) / (1 + tan(theta))`.
fn g_reference(theta: f64) -> f64 {
    let t = theta.tan();
    t / (1.0 + t)
}

/// The reference cutoff map: 13 Hz to 21000 Hz, exponential.
fn freq_reference(v: f64) -> f64 {
    13.0 * (21000.0f64 / 13.0).powf(v)
}

#[test]
fn db_to_linear_six_db_pair() {
    // +6 dB maps near 1.9953, -6 dB near 0.5012, and the two are
    // inverses around 0 dB.
    let up = from_fx(db_to_linear(6 * SCALE));
    let down = from_fx(db_to_linear(-6 * SCALE));
    assert!((up - 1.995262).abs() < 2e-3, "up = {up}");
    assert!((down - 0.501187).abs() < 1e-3, "down = {down}");
    assert!((up * down - 1.0).abs() < 2e-3);
}

#[test]
fn db_to_linear_zero_is_exact_unity() {
    assert_eq!(db_to_linear(0), SCALE);
}

#[test]
fn db_to_linear_is_monotone_over_range() {
    let mut prev: i64 = 0;
    let mut db: i64 = -30 * SCALE;
    while db <= 30 * SCALE {
        let lin = db_to_linear(db);
        assert!(lin > prev, "gain map not increasing at {db}");
        let expect = 10.0f64.powf(from_fx(db) / 20.0);
        let got = from_fx(lin);
        assert!((got - expect).abs() <= 2e-3 * expect + 1e-4, "{got} vs {expect}");
        prev = lin;
        db += SCALE / 2;
    }
}

#[test]
fn exp2_reference_points() {
    assert_eq!(exp2_fx(0), SCALE);
    let two = from_fx(exp2_fx(SCALE));
    assert!((two - 2.0).abs() < 1e-4);
    let half = from_fx(exp2_fx(-SCALE));
    assert!((half - 0.5).abs() < 1e-4);
    let ten = from_fx(exp2_fx(to_fx(3.321928)));
    assert!((ten - 10.0).abs() < 1e-2);
}

#[test]
fn cutoff_map_endpoints_and_midpoint() {
    let sr = 48000u32;
    for &(v, vf) in &[(0i64, 0.0f64), (SCALE / 2, 0.5), (SCALE, 1.0)] {
        let theta = map_cutoff(v, sr);
        let expect = core::f64::consts::PI * freq_reference(vf) / sr as f64;
        let got = from_fx(theta);
        assert!(
            (got - expect).abs() <= 3e-3 * expect + 1e-5,
            "v = {vf}: {got} vs {expect}"
        );
    }
}

#[test]
fn coefficient_matches_tangent_identity() {
    // Spot angles from near zero up to near the saturation point.
    for &theta_f in &[0.001f64, 0.05, 0.2, 0.5, 0.785, 0.9, 1.2, 1.374] {
        let g = g_from_theta(to_fx(theta_f));
        let expect = g_reference(theta_f);
        let got = from_fx(g);
        assert!(
            (got - expect).abs() <= 2e-3,
            "theta = {theta_f}: {got} vs {expect}"
        );
    }
}

#[test]
fn coefficient_stays_in_unit_range_over_full_sweep() {
    // Cutoff swept across the whole mapped range at 48 kHz: the
    // coefficient must stay inside [0, 1).
    let sr = 48000u32;
    let steps = 256i64;
    for k in 0..=steps {
        let v = k * SCALE / steps;
        let theta = map_cutoff(v, sr);
        let g = g_from_theta(theta);
        assert!(g >= 0);
        assert!(g < SCALE);
    }
}

#[test]
fn coefficient_saturates_past_half_pi() {
    // At or beyond pi/2 the angle saturates just below it; the
    // coefficient stays below one.
    let g = g_from_theta(to_fx(1.5707964));
    assert!(g < SCALE);
    let g2 = g_from_theta(to_fx(3.0));
    assert!(g2 < SCALE);
}

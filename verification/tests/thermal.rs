use smartcool::analytics::AnalyticsTracker;
use smartcool::correlation::{ring_idx, CrossCorrelator, Peak};
use smartcool::coupling::CouplingEstimator;
use smartcool::derivative::{DerivativeTracker, Rate};
use smartcool::integral::ThermalIntegral;
use smartcool::names::NameMap;
use smartcool::regression::{fit, Slope};
use smartcool::scalar::Scalar;
use smartcool::steps::{settled, FittedStep, StepDetector};
use smartcool::tuning::{ThermalSystem, TuningParams};
use smartcool::wide::{Big, Tally, Wide};

const SECOND: u64 = 1_000_000_000;

fn scalar(x: f64) -> Scalar {
    Scalar { bits: x.to_bits() }
}

fn value(slope: Slope) -> f64 {
    slope.num as f64 / slope.den as f64
}

/// A rate of change in °C/s.
fn celsius_per_second(rate: Rate) -> f64 {
    match rate {
        Rate::Level => 0.0,
        Rate::Changing(slope) => value(slope) * 1e6,
        Rate::Beyond => panic!("out of range"),
    }
}

/// The correlation at a peak.
fn ccf(peak: Peak) -> f64 {
    let scale = (peak.var_pwm as f64).sqrt() * (peak.var_temp as f64).sqrt();
    peak.covariance as f64 / (peak.pairs as f64 * scale)
}

/// An integral in °C·s.
fn celsius_seconds(integral: &ThermalIntegral) -> f64 {
    integral.integral() as f64 / 2e6
}

#[test]
fn linear_slope_positive() {
    let pairs: Vec<(i128, i128)> = (0..10).map(|i| (i, i * 2)).collect();
    let slope = value(fit(&pairs).unwrap());
    assert!((slope - 2.0).abs() < 0.01);
}

#[test]
fn linear_slope_negative() {
    let pairs: Vec<(i128, i128)> = (0..10).map(|i| (i, 100 - i)).collect();
    let slope = value(fit(&pairs).unwrap());
    assert!((slope - (-1.0)).abs() < 0.01);
}

#[test]
fn a_slope_is_exact() {
    let slope = fit(&vec![(0, 1), (1, 3), (2, 4)]).unwrap();
    assert_eq!(slope.num * 2, slope.den * 3);
}

#[test]
fn effectiveness_needs_enough_data() {
    let mut tracker = AnalyticsTracker::new("test", 100);
    // Only 5 samples — not enough
    for i in 0..5u8 {
        let mut temps = NameMap::new();
        temps.put("cpu", 50_000 + i as i64 * 1000);
        tracker.record(100 + i * 10, temps);
    }
    tracker.recompute();
    assert!(tracker.effectiveness().entries.is_empty());
}

#[test]
fn effectiveness_is_the_slope_over_the_history() {
    let mut tracker = AnalyticsTracker::new("front", 12);
    for i in 0..20u8 {
        let mut temps = NameMap::new();
        temps.put("cpu", 80_000 - 500 * i as i64);
        tracker.record(100 + i, temps);
    }
    tracker.recompute();
    assert_eq!(tracker.name(), "front");
    assert_eq!(tracker.history_len(), 12);
    let slope = tracker.effectiveness().get("cpu").unwrap();
    assert_eq!(slope.num, -500 * slope.den);
}

#[test]
fn effectiveness_holds_for_any_temperatures() {
    let mut tracker = AnalyticsTracker::new("front", 20);
    let step: i64 = 1 << 58;
    for i in 0..20u8 {
        let mut temps = NameMap::new();
        temps.put("cpu", step * (i as i64 - 10));
        tracker.record(100 + i, temps);
    }
    tracker.recompute();
    let slope = tracker.effectiveness().get("cpu").unwrap();
    assert_eq!(slope.num, step as i128 * slope.den);
}

#[test]
fn a_slope_is_told_where_128_bits_hold_it() {
    let far: i128 = 1 << 100;
    let slope = fit(&vec![(0, -far), (1, far)]).unwrap();
    assert_eq!(slope.num, 2 * far * slope.den);
    assert!(fit(&vec![(0, i128::MIN), (1, i128::MAX)]).is_none());
    assert_eq!(fit(&vec![(3, 1), (3, 2)]).unwrap().den, 0);
}

#[test]
fn large_numbers_keep_their_value() {
    let mut tally = Tally::new();
    tally.add_product(i128::MAX, i128::MAX);
    assert_eq!(tally.total().to_i128(), None);
    tally.add_product(-i128::MAX, i128::MAX);
    tally.add(-7);
    assert_eq!(tally.total().to_i128(), Some(-7));
    let least = Big::of(i128::MIN);
    assert_eq!(least.to_i128(), Some(i128::MIN));
    assert_eq!(least.minus(&Big::of(1)).to_i128(), None);
    assert_eq!(Big::of(-12).product(&Big::of(-12)).to_i128(), Some(144));
}

#[test]
fn correlation_is_computed_over_long_histories() {
    // More changes than fit in 21 bits.
    let size: usize = (1 << 21) + 100;
    let mut corr = CrossCorrelator::new("fan", "sensor", size, 1);
    for i in 0..size + 1 {
        let high = i % 3 == 0;
        corr.update(if high { 200 } else { 100 }, if high { 60_000 } else { 50_000 });
    }
    corr.recompute();
    assert_eq!(corr.optimal_lag(), 0);
    assert!(ccf(corr.peak_ccf().unwrap()) > 0.99);
}

#[test]
fn empty_tracker_returns_zero() {
    let tracker = DerivativeTracker::new(10);
    assert_eq!(celsius_per_second(tracker.dt_per_second()), 0.0);
}

#[test]
fn single_sample_returns_zero() {
    let mut tracker = DerivativeTracker::new(10);
    tracker.push_at(SECOND, 50_000);
    assert_eq!(celsius_per_second(tracker.dt_per_second()), 0.0);
}

#[test]
fn constant_temperature_returns_zero() {
    let mut tracker = DerivativeTracker::new(10);
    for i in 0..5 {
        tracker.push_at(i * SECOND, 50_000);
    }
    assert!(celsius_per_second(tracker.dt_per_second()).abs() < 0.001);
}

#[test]
fn linear_rise_detected() {
    let mut tracker = DerivativeTracker::new(10);
    // 2°C/s rise: 50, 52, 54, 56, 58 at 1s intervals
    for i in 0..5 {
        tracker.push_at(i * SECOND, 50_000 + 2_000 * i as i64);
    }
    let slope = celsius_per_second(tracker.dt_per_second());
    assert!((slope - 2.0).abs() < 0.01, "expected ~2.0, got {}", slope);
}

#[test]
fn linear_drop_detected() {
    let mut tracker = DerivativeTracker::new(10);
    // -1°C/s drop
    for i in 0..5 {
        tracker.push_at(i * SECOND, 80_000 - 1_000 * i as i64);
    }
    let slope = celsius_per_second(tracker.dt_per_second());
    assert!(
        (slope - (-1.0)).abs() < 0.01,
        "expected ~-1.0, got {}",
        slope
    );
}

#[test]
fn window_evicts_old_samples() {
    let mut tracker = DerivativeTracker::new(3);

    // Push 5 samples into a window of 3
    for i in 0..5 {
        tracker.push_at(i * SECOND, 50_000 + i as i64 * 1_000);
    }

    assert_eq!(tracker.len(), 3);
    // Latest should be 54.0
    assert_eq!(tracker.latest_temp(), Some(54_000));
    assert!(!tracker.is_empty());
}

#[test]
fn ccf_detects_zero_lag_correlation() {
    let mut corr = CrossCorrelator::new("fan", "sensor", 200, 10);
    // PWM goes up, temp goes up simultaneously (lag 0)
    for i in 0..150 {
        let pwm = 100.0 + (i as f64 * 0.1).sin() * 30.0;
        let temp = 50.0 + (i as f64 * 0.1).sin() * 5.0; // same phase
        corr.update(pwm.round() as u8, (temp * 1000.0).round() as i32);
    }
    corr.recompute();
    // Should find lag near 0 with positive correlation
    let peak = ccf(corr.peak_ccf().unwrap());
    assert!(peak > 0.3, "peak_ccf={}", peak);
    assert!(corr.optimal_lag() <= 2, "lag={}", corr.optimal_lag());
}

#[test]
fn a_delayed_response_is_found_at_its_lag() {
    let mut corr = CrossCorrelator::new("fan", "sensor", 100, 6);
    let wave = |i: i64| ((i * i * 7 + i * 3) % 41) as u8;
    for i in 0..90i64 {
        let earlier = if i >= 3 { wave(i - 3) as i32 } else { 0 };
        corr.update(wave(i), -100 * earlier);
    }
    corr.recompute();
    assert_eq!(corr.optimal_lag(), 3);
    assert!(ccf(corr.peak_ccf().unwrap()) < -0.9);
}

#[test]
fn a_ring_is_read_from_its_oldest_entry() {
    assert_eq!(ring_idx(2, 5, 0, 5), 2);
    assert_eq!(ring_idx(2, 5, 4, 5), 1);
    assert_eq!(ring_idx(3, 3, 0, 5), 0);
}

#[test]
fn coupling_estimator_recovers_coefficients() {
    let fans = vec!["fan_a".to_string(), "fan_b".to_string()];
    let sensors = vec!["sensor".to_string()];
    let mut est = CouplingEstimator::new(&fans, &sensors, 10);

    // Simulate: ΔT = -0.5 * ΔPWM_a + -0.3 * ΔPWM_b
    let mut pwm_a: u8 = 100;
    let mut pwm_b: u8 = 100;
    let mut temp = 60.0;

    for i in 0..200 {
        let da = if i % 3 == 0 { 5i16 } else { -2 };
        let db = if i % 5 == 0 { 3i16 } else { -1 };
        let new_a = (pwm_a as i16 + da).clamp(30, 230) as u8;
        let new_b = (pwm_b as i16 + db).clamp(30, 230) as u8;
        let dt = -0.05 * (new_a as f64 - pwm_a as f64) + -0.03 * (new_b as f64 - pwm_b as f64);
        temp += dt;
        pwm_a = new_a;
        pwm_b = new_b;

        let mut fan_map = NameMap::new();
        fan_map.put("fan_a", pwm_a);
        fan_map.put("fan_b", pwm_b);
        let mut sensor_map = NameMap::new();
        sensor_map.put("sensor", (temp * 1000.0f64).round() as i32);
        est.update(&fan_map, &sensor_map);
    }

    // Two unknowns: solved by Cramer's rule, per +10 PWM and in °C.
    assert!(est.is_solvable());
    let a = |i: usize| est.xtx[i] as f64;
    let b = |i: usize| est.xty[0][i] as f64;
    let det = a(0) * a(3) - a(1) * a(2);
    let x = (b(0) * a(3) - a(1) * b(1)) / det;
    let y = (a(0) * b(1) - b(0) * a(2)) / det;
    let betas = vec![scalar(x * 10.0 / 1000.0), scalar(y * 10.0 / 1000.0)];
    est.keep_solution(0, betas, scalar(0.9));

    let matrix = est.coupling_matrix();
    // beta is scaled by 10 (per +10 PWM), so expect ~-0.5 and ~-0.3
    let of = |name: &str| {
        matrix.iter().find(|c| c.fan == name).map(|c| f64::from_bits(c.beta.bits))
    };
    let beta_a = of("fan_a");
    let beta_b = of("fan_b");
    assert!(beta_a.is_some(), "fan_a coupling not found");
    assert!(beta_b.is_some(), "fan_b coupling not found");
    let ba = beta_a.unwrap();
    let bb = beta_b.unwrap();
    assert!(
        (ba - (-0.5)).abs() < 0.15,
        "fan_a beta={:.3}, expected ~-0.5",
        ba
    );
    assert!(
        (bb - (-0.3)).abs() < 0.15,
        "fan_b beta={:.3}, expected ~-0.3",
        bb
    );
}

#[test]
fn coupling_sums_are_exact() {
    let fans = vec!["a".to_string(), "b".to_string()];
    let sensors = vec!["s".to_string()];
    let mut est = CouplingEstimator::new(&fans, &sensors, 2);
    for (a, b, t) in [(100u8, 100u8, 50_000i32), (110, 97, 49_500), (104, 97, 49_900)] {
        let mut pwms = NameMap::new();
        pwms.put("a", a);
        pwms.put("b", b);
        let mut temps = NameMap::new();
        temps.put("s", t);
        est.update(&pwms, &temps);
    }
    // Changes: (10, -3, -500) and (-6, 0, 400)
    assert_eq!(est.samples, 2);
    assert_eq!(est.xtx, vec![136, -30, -30, 9]);
    assert_eq!(est.xty[0], vec![-7400, 1500]);
    assert_eq!(est.ssy, vec![410_000]);
    assert!(est.is_solvable());
}

#[test]
fn thermal_integral_accumulates() {
    let mut ti = ThermalIntegral::new(40_000, 100);
    // 10 seconds at 50°C (excess = 10°C)
    for _ in 0..10 {
        ti.update(50_000, 1000);
    }
    // Integral should be ~100 °C·s (10°C × 10s, trapezoidal)
    // First sample has no prev so contributes 0, then 9 intervals of 10°C·1s = 90
    let integral = celsius_seconds(&ti);
    assert!((integral - 90.0).abs() < 1.0, "integral={}", integral);
}

#[test]
fn thermal_integral_ignores_below_baseline() {
    let mut ti = ThermalIntegral::new(50_000, 100);
    for _ in 0..20 {
        ti.update(40_000, 1000); // Below baseline
    }
    let integral = celsius_seconds(&ti);
    assert!(integral < 0.01, "integral={}", integral);
}

#[test]
fn thermal_integral_resets_on_cooldown() {
    let mut ti = ThermalIntegral::new(40_000, 5);
    // Build up some integral
    for _ in 0..10 {
        ti.update(60_000, 1000);
    }
    assert!(celsius_seconds(&ti) > 0.0);
    // Cool down below baseline for 5+ ticks
    for _ in 0..10 {
        ti.update(30_000, 1000);
    }
    let integral = celsius_seconds(&ti);
    assert!(integral < 0.01, "integral={}", integral);
    assert_eq!(ti.baseline(), 40_000);
}

#[test]
fn a_trapezoid_is_exact() {
    let mut ti = ThermalIntegral::new(40_000, 5);
    ti.update(50_000, 500);
    ti.update(56_000, 500);
    // (10 + 16) / 2 * 0.5 = 6.5 °C·s
    assert_eq!(ti.integral(), 26_000 * 500);
}

fn pwm(value: u8) -> NameMap<u8> {
    let mut map = NameMap::new();
    map.put("fan", value);
    map
}

fn temp(value: i32) -> NameMap<i32> {
    let mut map = NameMap::new();
    map.put("cpu", value);
    map
}

#[test]
fn a_step_is_recorded_for_its_window() {
    let mut detector = StepDetector::new(15, 6);
    assert!(detector.update(&pwm(100), &pwm(110), &temp(50_000)).is_empty());
    assert!(detector.active.is_empty());
    assert!(detector.update(&pwm(100), &pwm(140), &temp(50_000)).is_empty());
    assert_eq!(detector.active.len(), 1);
    let mut recordings = Vec::new();
    let mut ticks: i32 = 0;
    while recordings.is_empty() {
        ticks += 1;
        assert!(ticks < 20);
        recordings = detector.update(&pwm(140), &pwm(140), &temp(50_000 - 100 * ticks));
    }
    assert_eq!(recordings.len(), 1);
    assert_eq!(recordings[0].fan, "fan");
    assert_eq!(recordings[0].sensor, "cpu");
    assert_eq!(recordings[0].delta_pwm, 40);
    assert_eq!(recordings[0].initial, 50_000);
    assert!(detector.active.is_empty());

    let fitted = FittedStep {
        gain_k: scalar(-0.5),
        tau_ticks: scalar(10.0),
    };
    detector.keep_fit("fan", "cpu", fitted);
    assert_eq!(detector.completed.len(), 1);
    assert_eq!(detector.completed[0].fits, vec![fitted]);
}

#[test]
fn a_response_settles_at_the_mean_of_its_end() {
    let temps: Vec<i32> = vec![50_000, 52_000, 54_000, 56_000, 58_000, 60_000];
    let end = settled(50_000, &temps, 20).unwrap();
    assert!(end.count >= 1);
    assert!(settled(50_000, &vec![50_000, 50_000], 20).is_none());
    assert!(settled(50_000, &temps, 0).is_none());
}

#[test]
fn the_thermal_system_drives_its_estimators() {
    let params = TuningParams {
        ewma_span: 20,
        ccf_buffer_size: 120,
        ccf_max_lag: 30,
        step_threshold: 15,
        response_window: 60,
        regression_min_samples: 5,
        poll_interval_ms: 2000,
    };
    let fans = vec!["fan".to_string()];
    let sensors = vec!["cpu".to_string()];
    let mut system = ThermalSystem::new(&params, &fans, &sensors);
    assert!(system.cross_correlations().is_empty());
    for i in 0..60u8 {
        let due = system.update(&temp(50_000 + 10 * i as i32), &pwm(100 + i));
        assert!(due.recordings.is_empty());
        assert_eq!(due.solve, i == 30);
    }
    let integrals = system.thermal_integrals();
    assert_eq!(integrals.len(), 1);
    assert_eq!(integrals[0].sensor, "cpu");
    assert_eq!(integrals[0].baseline, 40_000);
    // 59 intervals of two seconds, the excess rising from 10 °C by 0.01 °C each
    assert_eq!(integrals[0].integral, (0..59u128).map(|i| 20_010 + 20 * i).sum::<u128>() * 2000);
    assert_eq!(system.coupling.samples, 59);
    // Enough samples, but nothing has been solved yet.
    let matrix = system.coupling_matrix();
    assert_eq!(matrix.len(), 1);
    assert_eq!(matrix[0].beta, scalar(0.0));
}

#[test]
fn only_notable_correlations_are_told() {
    // 1 / (10 * sqrt(v) * sqrt(w)): 0.1 for v = w = 1, 0.01 for v = 100.
    let peak = |covariance: i128, var_pwm: i128| Peak {
        covariance,
        pairs: 10,
        var_pwm,
        var_temp: 1,
    };
    assert!(peak(1, 1).is_notable());
    assert!(peak(-1, 1).is_notable());
    assert!(!peak(1, 100).is_notable());
    assert!(peak(-1, 99).is_notable());
    assert!(!peak(0, 1).is_notable());
}

#[test]
fn products_of_any_size_are_compared() {
    let most = u128::MAX;
    let square = Wide::of(most).times(most);
    assert!(!square.exceeds(&square));
    assert!(square.times(2).exceeds(&square));
    assert!(!square.exceeds(&square.times(2)));
    assert!(square.exceeds(&Wide::of(most).times(most - 1)));
    assert!(Wide::of(1).exceeds(&square.times(0)));
    assert!(Wide::of(7).times(6).exceeds(&Wide::of(41)));
    assert!(!Wide::of(7).times(6).exceeds(&Wide::of(42)));
}

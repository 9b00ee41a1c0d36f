use smartcool::config::{
    AirflowDirection, Config, CurvePoint, DerivativeConfig, FanConfig, FanPosition, FanTopology,
    SensorConfig, TuningConfig,
};
use smartcool::ipc::{CouplingEntry, TuningResponse};
use smartcool::optimize::{
    effectiveness, filter_uncontrollable_fans, generate_urgency_curve, minimum_pwm,
    optimize_config, sensor_thermal_profile, Effectiveness,
};
use smartcool::scalar::Scalar;

fn scalar(x: f64) -> Scalar {
    Scalar { bits: x.to_bits() }
}

/// The PWM values between the ends of an urgency curve.
fn interior(gamma: f64, least: u8) -> [u8; 5] {
    let least = least as f64;
    [0.15f64, 0.35, 0.55, 0.75, 0.90]
        .map(|u| (least + u.powf(gamma) * (255.0 - least)).round().clamp(0.0, 255.0) as u8)
}

fn test_topology() -> FanTopology {
    FanTopology {
        position: FanPosition::Front,
        direction: AirflowDirection::Intake,
        group: None,
    }
}

fn fan(name: &str, topology: FanTopology, curve: Vec<CurvePoint>) -> FanConfig {
    FanConfig {
        name: name.into(),
        hwmon: "nct6799".into(),
        pwm_index: 1,
        hwmon_instance: None,
        topology,
        sensors: vec!["cpu".into()],
        curve,
    }
}

fn test_config() -> Config {
    Config {
        poll_interval_ms: 2000,
        derivative: DerivativeConfig {
            window_size: 10,
            boost_threshold: scalar(2.0),
            decay_rate: scalar(0.5),
        },
        sensors: vec![SensorConfig {
            name: "cpu".into(),
            hwmon: "k10temp".into(),
            index: 1,
            hwmon_instance: None,
        }],
        fans: vec![fan(
            "fan",
            test_topology(),
            vec![
                CurvePoint { temp: 45, pwm: 30 },
                CurvePoint { temp: 85, pwm: 200 },
            ],
        )],
        tuning: TuningConfig::default(),
    }
}

fn coupling(fan: &str, sensor: &str, beta: f64) -> CouplingEntry {
    CouplingEntry {
        fan: fan.into(),
        sensor: sensor.into(),
        beta: scalar(beta),
        r_squared: scalar(0.9),
    }
}

fn tuning(coupling_matrix: Vec<CouplingEntry>) -> TuningResponse {
    TuningResponse {
        coupling_matrix,
        step_responses: vec![],
        cross_correlations: vec![],
        thermal_integrals: vec![],
    }
}

#[test]
fn urgency_curve_has_7_points() {
    let fan = fan(
        "test",
        test_topology(),
        vec![
            CurvePoint { temp: 40, pwm: 20 },
            CurvePoint { temp: 80, pwm: 200 },
        ],
    );
    let curve = generate_urgency_curve(&fan, "cpu", interior(1.0, 0));
    assert_eq!(curve.len(), 7);
}

#[test]
fn urgency_curve_cpu_range() {
    let fan = fan(
        "cpu_fan",
        FanTopology {
            position: FanPosition::CpuCooler,
            direction: AirflowDirection::Exhaust,
            group: None,
        },
        vec![],
    );
    let least = minimum_pwm(FanPosition::CpuCooler);
    let curve = generate_urgency_curve(&fan, "cpu", interior(1.0, least));

    // First point should be at t_fanon=45
    assert_eq!(curve[0].temp, 45);
    // CPU cooler should have minimum PWM (30)
    assert_eq!(curve[0].pwm, 30);
    // Last point at t_throttle=95
    assert_eq!(curve[6].temp, 95);
    assert_eq!(curve[6].pwm, 255);
}

#[test]
fn urgency_curve_case_fan_starts_at_zero() {
    let fan = fan("front_fan", test_topology(), vec![]);
    let curve = generate_urgency_curve(&fan, "cpu", interior(1.0, 0));
    // Case fans can go to PWM 0
    assert_eq!(curve[0].pwm, 0);
}

#[test]
fn urgency_curve_convex_below_linear() {
    let fan = fan("test", test_topology(), vec![]);
    let linear = generate_urgency_curve(&fan, "cpu", interior(1.0, 0));
    let convex = generate_urgency_curve(&fan, "cpu", interior(1.5, 0));
    // Midpoint of convex curve should be lower than linear
    assert!(
        convex[3].pwm <= linear[3].pwm,
        "convex midpoint {}  should be <= linear midpoint {}",
        convex[3].pwm,
        linear[3].pwm
    );
}

#[test]
fn urgency_levels_fall_on_whole_degrees() {
    let fan = fan("test", test_topology(), vec![]);
    let curve = generate_urgency_curve(&fan, "cpu", [1, 2, 3, 4, 5]);
    // 45 + u * 50 for u = 0, 0.15, 0.35, 0.55, 0.75, 0.9, 1, rounded half up
    let temps: Vec<u32> = curve.iter().map(|p| p.temp).collect();
    assert_eq!(temps, vec![45, 53, 63, 73, 83, 90, 95]);
    let pwms: Vec<u8> = curve.iter().map(|p| p.pwm).collect();
    assert_eq!(pwms, vec![0, 1, 2, 3, 4, 5, 255]);
}

#[test]
fn gpu_junction_thermal_profile() {
    let profile = sensor_thermal_profile("gpu1_junction");
    assert_eq!(profile.fan_on, 50);
    assert_eq!(profile.target, 90);
    assert_eq!(profile.throttle, 110);
}

#[test]
fn every_sensor_has_a_thermal_profile() {
    let of = |name: &str| {
        let p = sensor_thermal_profile(name);
        (p.fan_on, p.target, p.throttle)
    };
    assert_eq!(of("cpu_ccd1"), (45, 78, 95));
    assert_eq!(of("cpu"), (45, 80, 95));
    assert_eq!(of("gpu_mem"), (50, 85, 100));
    assert_eq!(of("gpu"), (45, 80, 100));
    assert_eq!(of("board_systin"), (40, 70, 90));
}

#[test]
fn optimize_without_tuning_keeps_original() {
    let config = test_config();
    let result = optimize_config(&config, None, scalar(0.1), |_, _| [0; 5]);
    assert!(!result.has_tuning_data);
    assert_eq!(result.fans[0].curve[0].pwm, 30);
    assert_eq!(result.fans[0].curve[1].pwm, 200);
    assert_eq!(result.fans[0].sensors, vec!["cpu"]);
}

#[test]
fn the_most_strongly_cooled_sensor_leads() {
    let config = test_config();
    let tuning = tuning(vec![
        coupling("fan", "gpu_mem", -0.2),
        coupling("fan", "gpu_junction", -0.8),
        coupling("fan", "cpu", 3.0),
        coupling("fan", "board", -0.05),
        coupling("other", "cpu", -2.0),
    ]);
    let result = optimize_config(&config, Some(&tuning), scalar(0.1), |strength, least| {
        assert_eq!(strength, scalar(0.8));
        assert_eq!(least, 0);
        [10, 20, 30, 40, 50]
    });
    assert!(result.has_tuning_data);
    assert_eq!(result.fans[0].sensors, vec!["gpu_junction", "gpu_mem"]);
    assert_eq!(result.fans[0].curve[0].temp, 50);
    assert_eq!(result.fans[0].curve[1].pwm, 10);
    assert_eq!(result.fans[0].curve[6].temp, 110);
}

#[test]
fn effectiveness_has_bands() {
    assert_eq!(effectiveness(scalar(1.5)), Effectiveness::Strong);
    assert_eq!(effectiveness(scalar(1.0)), Effectiveness::Medium);
    assert_eq!(effectiveness(scalar(0.3)), Effectiveness::Medium);
    assert_eq!(effectiveness(scalar(0.15)), Effectiveness::Weak);
    assert_eq!(effectiveness(scalar(0.0)), Effectiveness::Unknown);
}

#[test]
fn fans_that_cool_nothing_are_left_out() {
    let mut config = test_config();
    let mut second = config.fans[0].clone();
    second.name = "second".into();
    config.fans.push(second);
    let dropped = filter_uncontrollable_fans(&mut config, &tuning(vec![coupling("fan", "cpu", -1.0)]));
    assert_eq!(dropped, vec!["second"]);
    assert_eq!(config.fans.len(), 1);
    assert_eq!(config.fans[0].name, "fan");
}
